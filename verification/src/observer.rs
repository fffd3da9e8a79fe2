//! Observation of engine events: request start, success, healing
//! attempts, terminal failure, metadata.  Observers are sinks; they
//! never alter generation outcome.

use vstd::prelude::*;
use crate::provider::{GenerationRequest, GenerationResponse};

verus! {

/// One engine event, as an observer records it.
#[derive(Debug, Clone)]
pub enum ObsEvent {
    /// A generation started.
    Started { id: String, template: String, slot: String },
    /// A generation succeeded.
    Succeeded { id: String, code: String },
    /// A validation attempt failed and healing retries.
    HealingStep { id: String, attempt: u32, error: String },
    /// A generation failed permanently.
    Failed { id: String, error: String },
    /// Arbitrary metadata for an event.
    Metadata { id: String, key: String, value: String },
}

/// The model of an event.
pub enum EventV {
    Started { id: Seq<char>, template: Seq<char>, slot: Seq<char> },
    Succeeded { id: Seq<char>, code: Seq<char> },
    HealingStep { id: Seq<char>, attempt: u32, error: Seq<char> },
    Failed { id: Seq<char>, error: Seq<char> },
    Metadata { id: Seq<char>, key: Seq<char>, value: Seq<char> },
}

impl View for ObsEvent {
    type V = EventV;

    open spec fn view(&self) -> EventV {
        match self {
            ObsEvent::Started { id, template, slot } => EventV::Started {
                id: id@,
                template: template@,
                slot: slot@,
            },
            ObsEvent::Succeeded { id, code } => EventV::Succeeded { id: id@, code: code@ },
            ObsEvent::HealingStep { id, attempt, error } => EventV::HealingStep {
                id: id@,
                attempt: *attempt,
                error: error@,
            },
            ObsEvent::Failed { id, error } => EventV::Failed { id: id@, error: error@ },
            ObsEvent::Metadata { id, key, value } => EventV::Metadata {
                id: id@,
                key: key@,
                value: value@,
            },
        }
    }
}

/// An observer of engine events.  Each notification appends one event
/// to the observer's record; the engine treats all calls as
/// fire-and-forget side effects.
pub trait Observer: Sized {
    /// The events recorded so far.
    spec fn events(&self) -> Seq<EventV>;

    /// A generation started.
    fn on_start(&mut self, id: &str, template: &str, slot: &str, request: &GenerationRequest)
        ensures
            final(self).events() == old(self).events().push(
                EventV::Started { id: id@, template: template@, slot: slot@ },
            ),
    ;

    /// A generation succeeded.
    fn on_success(&mut self, id: &str, response: &GenerationResponse)
        ensures
            final(self).events() == old(self).events().push(
                EventV::Succeeded { id: id@, code: response.code@ },
            ),
    ;

    /// A validation attempt failed; healing retries with feedback.
    fn on_healing_step(&mut self, id: &str, attempt: u32, error: &str)
        ensures
            final(self).events() == old(self).events().push(
                EventV::HealingStep { id: id@, attempt: attempt, error: error@ },
            ),
    ;

    /// A generation failed permanently.
    fn on_failure(&mut self, id: &str, error: &str)
        ensures
            final(self).events() == old(self).events().push(
                EventV::Failed { id: id@, error: error@ },
            ),
    ;

    /// Arbitrary metadata for an event.
    fn on_metadata(&mut self, id: &str, key: &str, value: &str)
        ensures
            final(self).events() == old(self).events().push(
                EventV::Metadata { id: id@, key: key@, value: value@ },
            ),
    ;
}

pub open spec fn events_view(s: Seq<ObsEvent>) -> Seq<EventV>
    decreases s.len(),
{
    if s.len() == 0 {
        Seq::empty()
    } else {
        seq![s[0]@] + events_view(s.drop_first())
    }
}

pub proof fn lemma_events_view_push(s: Seq<ObsEvent>, x: ObsEvent)
    ensures
        events_view(s.push(x)) == events_view(s) + seq![x@],
    decreases s.len(),
{
    if s.len() == 0 {
        assert(s.push(x).drop_first() =~= Seq::<ObsEvent>::empty());
        assert(events_view(Seq::<ObsEvent>::empty()) == Seq::<EventV>::empty());
        assert(s.push(x)[0] == x);
        assert(events_view(s.push(x)) == seq![s.push(x)[0]@] + events_view(
            s.push(x).drop_first(),
        ));
        assert(events_view(s) == Seq::<EventV>::empty());
        assert(events_view(s.push(x)) =~= events_view(s) + seq![x@]);
    } else {
        lemma_events_view_push(s.drop_first(), x);
        assert(s.push(x).drop_first() =~= s.drop_first().push(x));
        assert(s.push(x)[0] == s[0]);
        assert(events_view(s) == seq![s[0]@] + events_view(s.drop_first()));
        assert(events_view(s.push(x)) == seq![s[0]@] + events_view(s.push(x).drop_first()));
        assert(events_view(s.push(x)) =~= events_view(s) + seq![x@]);
    }
}

/// An observer that keeps every event in order, for tests and
/// monitors.
pub struct RecordingObserver {
    /// The recorded events.
    pub log: Vec<ObsEvent>,
}

impl RecordingObserver {
    /// An empty record.
    pub fn new() -> (r: RecordingObserver)
        ensures
            r.events() == Seq::<EventV>::empty(),
    {
        let r = RecordingObserver { log: Vec::new() };
        proof {
            assert(events_view(r.log@) =~= Seq::<EventV>::empty());
        }
        r
    }

    /// How many events were recorded.
    pub fn len(&self) -> (r: usize)
        ensures
            r == self.log@.len(),
    {
        self.log.len()
    }
}

impl Observer for RecordingObserver {
    open spec fn events(&self) -> Seq<EventV> {
        events_view(self.log@)
    }

    fn on_start(&mut self, id: &str, template: &str, slot: &str, request: &GenerationRequest) {
        let ev = ObsEvent::Started {
            id: crate::template::copy_string(id),
            template: crate::template::copy_string(template),
            slot: crate::template::copy_string(slot),
        };
        proof {
            lemma_events_view_push(self.log@, ev);
        }
        self.log.push(ev);
    }

    fn on_success(&mut self, id: &str, response: &GenerationResponse) {
        let ev = ObsEvent::Succeeded {
            id: crate::template::copy_string(id),
            code: crate::template::copy_string(response.code.as_str()),
        };
        proof {
            lemma_events_view_push(self.log@, ev);
        }
        self.log.push(ev);
    }

    fn on_healing_step(&mut self, id: &str, attempt: u32, error: &str) {
        let ev = ObsEvent::HealingStep {
            id: crate::template::copy_string(id),
            attempt,
            error: crate::template::copy_string(error),
        };
        proof {
            lemma_events_view_push(self.log@, ev);
        }
        self.log.push(ev);
    }

    fn on_failure(&mut self, id: &str, error: &str) {
        let ev = ObsEvent::Failed {
            id: crate::template::copy_string(id),
            error: crate::template::copy_string(error),
        };
        proof {
            lemma_events_view_push(self.log@, ev);
        }
        self.log.push(ev);
    }

    fn on_metadata(&mut self, id: &str, key: &str, value: &str) {
        let ev = ObsEvent::Metadata {
            id: crate::template::copy_string(id),
            key: crate::template::copy_string(key),
            value: crate::template::copy_string(value),
        };
        proof {
            lemma_events_view_push(self.log@, ev);
        }
        self.log.push(ev);
    }
}

} // verus!
