//! The orchestration engine: context assembly, cache probe, the
//! generate-validate-heal loop, and document assembly.

use vstd::prelude::*;
use crate::provider::{Provider, GenerationRequest, GenerationResponse, ReqV};
use crate::validation::{Validator, ValidationResult, VSim};
use crate::cache::Cache;
use crate::observer::Observer;
use crate::config::AetherConfig;
use crate::context::InjectionContext;
use crate::error::{AetherError, Result};
use crate::slot::{Slot, SlotV, opt_view};
use crate::hashing::{StableHasher, fnv_chars, fnv_step, fnv_bytes, u32_bytes, FNV_OFFSET};
use crate::text::{sp_hex_digits, push_hex_digits, from_chars};
use crate::template::{copy_string, Template};

verus! {

/// Relies on `uuid::Uuid::new_v4` and its hyphenated text form: a fresh
/// random identifier, thirty-six characters long.
#[verifier::external_body]
fn new_request_id() -> (r: String)
    ensures
        r@.len() == 36,
{
    uuid::Uuid::new_v4().to_string()
}

/// The diagnostic of a stuck backend.
pub open spec fn stuck_msg() -> Seq<char> {
    "AI stuck in loop (generated identical code)"@
}

/// A terminal generation error, as the healing loop's model sees it.
pub enum EngErr {
    /// The backend failed and the budget is spent.
    Backend(Seq<char>),
    /// The validator itself broke.
    Infra(Seq<char>),
    /// The budget is spent, or the backend repeated itself.
    Exhausted { slot: Seq<char>, retries: u32, last: Seq<char> },
}

/// Whether an exec error is the one the model names.
pub open spec fn err_matches(e: EngErr, a: AetherError) -> bool {
    match e {
        EngErr::Backend(m) => a matches AetherError::ProviderError(x) && x@ == m,
        EngErr::Infra(m) => a matches AetherError::InjectionError(x) && x@ == m,
        EngErr::Exhausted { slot, retries, last } => a matches AetherError::MaxRetriesExceeded {
            slot: s,
            retries: r,
            last_error: l,
        } && s@ == slot && r == retries && l@ == last,
    }
}

/// What one slot's healing loop leaves behind: the stepped backend and
/// validator, the outcome, and the healing steps it announced — one
/// (attempt number, diagnostic) pair per rejected validation attempt.
pub struct HealOut<P, V> {
    pub p: P,
    pub v: Option<V>,
    pub out: core::result::Result<Seq<char>, EngErr>,
    pub steps: Seq<(u32, Seq<char>)>,
}

/// The attempt number a healing notification shows: one-based,
/// saturating.
pub open spec fn shown_attempt(attempt: u32) -> u32 {
    if attempt < 0xffff_ffffu32 {
        (attempt + 1) as u32
    } else {
        attempt
    }
}

/// The observer events a run's healing steps become, under one request
/// id.
pub open spec fn events_of(id: Seq<char>, steps: Seq<(u32, Seq<char>)>) -> Seq<
    crate::observer::EventV,
>
    decreases steps.len(),
{
    if steps.len() == 0 {
        Seq::empty()
    } else {
        seq![
            crate::observer::EventV::HealingStep {
                id: id,
                attempt: steps[0].0,
                error: steps[0].1,
            },
        ] + events_of(id, steps.drop_first())
    }
}

pub proof fn lemma_events_of_push(id: Seq<char>, steps: Seq<(u32, Seq<char>)>, x: (u32, Seq<char>))
    ensures
        events_of(id, steps.push(x)) == events_of(id, steps) + seq![
            crate::observer::EventV::HealingStep { id: id, attempt: x.0, error: x.1 },
        ],
    decreases steps.len(),
{
    if steps.len() == 0 {
        assert(steps.push(x).drop_first() =~= Seq::<(u32, Seq<char>)>::empty());
        assert(steps.push(x)[0] == x);
        assert(events_of(id, Seq::<(u32, Seq<char>)>::empty()) == Seq::<
            crate::observer::EventV,
        >::empty());
        assert(events_of(id, steps.push(x)) == seq![
            crate::observer::EventV::HealingStep { id: id, attempt: x.0, error: x.1 },
        ] + events_of(id, steps.push(x).drop_first()));
        assert(events_of(id, steps.push(x)) =~= events_of(id, steps) + seq![
            crate::observer::EventV::HealingStep { id: id, attempt: x.0, error: x.1 },
        ]);
    } else {
        lemma_events_of_push(id, steps.drop_first(), x);
        assert(steps.push(x).drop_first() =~= steps.drop_first().push(x));
        assert(steps.push(x)[0] == steps[0]);
        assert(events_of(id, steps) == seq![
            crate::observer::EventV::HealingStep {
                id: id,
                attempt: steps[0].0,
                error: steps[0].1,
            },
        ] + events_of(id, steps.drop_first()));
        assert(events_of(id, steps.push(x)) =~= events_of(id, steps) + seq![
            crate::observer::EventV::HealingStep { id: id, attempt: x.0, error: x.1 },
        ]);
    }
}

/// The request with its slot prompt replaced.
pub open spec fn with_prompt(req: ReqV, p: Seq<char>) -> ReqV {
    ReqV { slot: SlotV { prompt: p, ..req.slot }, ..req }
}

/// The prompt after a healing retry: the old prompt, a blank line, the
/// feedback prefix, and the diagnostic.
pub open spec fn feedback_prompt(prompt: Seq<char>, fb: Seq<char>, msg: Seq<char>) -> Seq<char> {
    prompt + "\n\n"@ + fb + msg
}

/// The generate-validate-heal loop: call the backend; a backend error
/// consumes budget and retries; an answer equal to the previous one is
/// a stuck backend and stops at once; without a validator the answer is
/// accepted; otherwise the text is reformatted (best effort), checked,
/// and on failure the diagnostic is fed back into the prompt for the
/// next attempt.
#[verifier::opaque]
pub open spec fn heal_sim<P: Provider, V: Validator>(
    p: P,
    vo: Option<V>,
    req: ReqV,
    attempt: u32,
    maxr: u32,
    prev: Option<Seq<char>>,
    fb: Seq<char>,
) -> HealOut<P, V>
    decreases maxr - attempt,
{
    let g = p.next_result(req);
    let p2 = p.next_state(req);
    match g {
        core::result::Result::Err(m) => {
            if attempt < maxr {
                heal_sim(p2, vo, req, (attempt + 1) as u32, maxr, prev, fb)
            } else {
                HealOut {
                    p: p2,
                    v: vo,
                    out: core::result::Result::Err(EngErr::Backend(m)),
                    steps: Seq::empty(),
                }
            }
        },
        core::result::Result::Ok(code) => {
            if prev == Option::Some(code) {
                HealOut {
                    p: p2,
                    v: vo,
                    out: core::result::Result::Err(
                        EngErr::Exhausted { slot: req.slot.name, retries: attempt, last: stuck_msg() },
                    ),
                    steps: Seq::empty(),
                }
            } else {
                match vo {
                    Option::None => HealOut {
                        p: p2,
                        v: Option::None,
                        out: core::result::Result::Ok(code),
                        steps: Seq::empty(),
                    },
                    Option::Some(v) => {
                        let fr = v.fmt_result(req.slot.kind, code);
                        let v2 = v.fmt_step(req.slot.kind, code);
                        let code2 = match fr {
                            core::result::Result::Ok(f) => f,
                            core::result::Result::Err(_) => code,
                        };
                        let vr = v2.verdict(req.slot, code2);
                        let v3 = v2.verdict_step(req.slot, code2);
                        match vr {
                            VSim::Broke(e) => HealOut {
                                p: p2,
                                v: Option::Some(v3),
                                out: core::result::Result::Err(EngErr::Infra(e)),
                                steps: Seq::empty(),
                            },
                            VSim::Pass => HealOut {
                                p: p2,
                                v: Option::Some(v3),
                                out: core::result::Result::Ok(code2),
                                steps: Seq::empty(),
                            },
                            VSim::Fail(msg) => {
                                if attempt < maxr {
                                    let rec = heal_sim(
                                        p2,
                                        Option::Some(v3),
                                        with_prompt(
                                            req,
                                            feedback_prompt(req.slot.prompt, fb, msg),
                                        ),
                                        (attempt + 1) as u32,
                                        maxr,
                                        Option::Some(code),
                                        fb,
                                    );
                                    HealOut {
                                        p: rec.p,
                                        v: rec.v,
                                        out: rec.out,
                                        steps: seq![(shown_attempt(attempt), msg)] + rec.steps,
                                    }
                                } else {
                                    HealOut {
                                        p: p2,
                                        v: Option::Some(v3),
                                        out: core::result::Result::Err(
                                            EngErr::Exhausted {
                                                slot: req.slot.name,
                                                retries: maxr,
                                                last: msg,
                                            },
                                        ),
                                        steps: seq![(shown_attempt(attempt), msg)],
                                    }
                                }
                            },
                        }
                    },
                }
            }
        },
    }
}

/// The cache key a request derives: a stable hash of the slot prompt,
/// the context, and the per-request overrides.
pub open spec fn sp_cache_key(req: ReqV) -> Seq<char> {
    let h0 = fnv_chars(FNV_OFFSET as u64, req.slot.prompt);
    let h1 = fnv_step(h0, 0xff);
    let h2 = fnv_chars(
        h1,
        match req.context {
            Option::Some(c) => c,
            Option::None => Seq::empty(),
        },
    );
    let h3 = fnv_step(h2, 0xff);
    let h4 = fnv_chars(
        h3,
        match req.model {
            Option::Some(m) => m,
            Option::None => Seq::empty(),
        },
    );
    let h5 = fnv_step(h4, 0xff);
    let h6 = fnv_bytes(
        h5,
        u32_bytes(
            match req.max_tokens {
                Option::Some(t) => t,
                Option::None => 0,
            },
        ),
    );
    "aether:cache:"@ + sp_hex_digits(h6 as nat)
}

/// The cache key of a request.
fn cache_key_of(req: &GenerationRequest) -> (r: String)
    ensures
        r@ == sp_cache_key(req@),
{
    let mut h = StableHasher::new();
    h.write_str(req.slot.prompt.as_str());
    h.write_sep();
    match &req.context {
        Some(c) => h.write_str(c.as_str()),
        None => h.write_str(""),
    }
    h.write_sep();
    match &req.model {
        Some(m) => h.write_str(m.as_str()),
        None => h.write_str(""),
    }
    h.write_sep();
    h.write_u32(
        match req.max_tokens {
            Some(t) => t,
            None => 0,
        },
    );
    let digest = h.finish();
    let mut out: Vec<char> = Vec::new();
    crate::text::append_str_chars(&mut out, "aether:cache:");
    push_hex_digits(&mut out, digest);
    proof {
        reveal_strlit("");
        assert(""@ =~= Seq::<char>::empty());
        assert(out@ =~= sp_cache_key(req@));
    }
    from_chars(&out)
}

proof fn lemma_heal_backend_retry<P: Provider, V: Validator>(
    p: P,
    vo: Option<V>,
    req: ReqV,
    attempt: u32,
    maxr: u32,
    prev: Option<Seq<char>>,
    fb: Seq<char>,
)
    requires
        attempt < maxr,
        p.next_result(req) is Err,
    ensures
        heal_sim(p, vo, req, attempt, maxr, prev, fb) == heal_sim(
            p.next_state(req),
            vo,
            req,
            (attempt + 1) as u32,
            maxr,
            prev,
            fb,
        ),
{
    reveal(heal_sim);
}

proof fn lemma_heal_backend_final<P: Provider, V: Validator>(
    p: P,
    vo: Option<V>,
    req: ReqV,
    attempt: u32,
    maxr: u32,
    prev: Option<Seq<char>>,
    fb: Seq<char>,
)
    requires
        attempt >= maxr,
        p.next_result(req) is Err,
    ensures
        heal_sim(p, vo, req, attempt, maxr, prev, fb) == (HealOut {
            p: p.next_state(req),
            v: vo,
            out: core::result::Result::<Seq<char>, EngErr>::Err(
                EngErr::Backend(p.next_result(req)->Err_0),
            ),
            steps: Seq::empty(),
        }),
{
    reveal(heal_sim);
}

proof fn lemma_heal_stuck<P: Provider, V: Validator>(
    p: P,
    vo: Option<V>,
    req: ReqV,
    attempt: u32,
    maxr: u32,
    prev: Option<Seq<char>>,
    fb: Seq<char>,
)
    requires
        p.next_result(req) is Ok,
        prev == Option::Some(p.next_result(req)->Ok_0),
    ensures
        heal_sim(p, vo, req, attempt, maxr, prev, fb) == (HealOut {
            p: p.next_state(req),
            v: vo,
            out: core::result::Result::<Seq<char>, EngErr>::Err(
                EngErr::Exhausted { slot: req.slot.name, retries: attempt, last: stuck_msg() },
            ),
            steps: Seq::empty(),
        }),
{
    reveal(heal_sim);
}

proof fn lemma_heal_no_validator<P: Provider, V: Validator>(
    p: P,
    req: ReqV,
    attempt: u32,
    maxr: u32,
    prev: Option<Seq<char>>,
    fb: Seq<char>,
)
    requires
        p.next_result(req) is Ok,
        prev != Option::Some(p.next_result(req)->Ok_0),
    ensures
        heal_sim(p, Option::<V>::None, req, attempt, maxr, prev, fb) == (HealOut {
            p: p.next_state(req),
            v: Option::<V>::None,
            out: core::result::Result::<Seq<char>, EngErr>::Ok(p.next_result(req)->Ok_0),
            steps: Seq::empty(),
        }),
{
    reveal(heal_sim);
}

/// The formatted text and stepped validator of one validation attempt.
pub open spec fn fmt_of<V: Validator>(v: V, req: ReqV, code: Seq<char>) -> (Seq<char>, V) {
    let fr = v.fmt_result(req.slot.kind, code);
    let v2 = v.fmt_step(req.slot.kind, code);
    (
        match fr {
            core::result::Result::Ok(f) => f,
            core::result::Result::Err(_) => code,
        },
        v2,
    )
}

proof fn lemma_heal_validated<P: Provider, V: Validator>(
    p: P,
    v: V,
    req: ReqV,
    attempt: u32,
    maxr: u32,
    prev: Option<Seq<char>>,
    fb: Seq<char>,
)
    requires
        p.next_result(req) is Ok,
        prev != Option::Some(p.next_result(req)->Ok_0),
    ensures
        ({
            let code = p.next_result(req)->Ok_0;
            let p2 = p.next_state(req);
            let (code2, v2) = fmt_of(v, req, code);
            let vr = v2.verdict(req.slot, code2);
            let v3 = v2.verdict_step(req.slot, code2);
            heal_sim(p, Option::Some(v), req, attempt, maxr, prev, fb) == match vr {
                VSim::Broke(e) => HealOut {
                    p: p2,
                    v: Option::Some(v3),
                    out: core::result::Result::<Seq<char>, EngErr>::Err(EngErr::Infra(e)),
                    steps: Seq::empty(),
                },
                VSim::Pass => HealOut {
                    p: p2,
                    v: Option::Some(v3),
                    out: core::result::Result::<Seq<char>, EngErr>::Ok(code2),
                    steps: Seq::empty(),
                },
                VSim::Fail(msg) => if attempt < maxr {
                    let rec = heal_sim(
                        p2,
                        Option::Some(v3),
                        with_prompt(req, feedback_prompt(req.slot.prompt, fb, msg)),
                        (attempt + 1) as u32,
                        maxr,
                        Option::Some(code),
                        fb,
                    );
                    HealOut {
                        p: rec.p,
                        v: rec.v,
                        out: rec.out,
                        steps: seq![(shown_attempt(attempt), msg)] + rec.steps,
                    }
                } else {
                    HealOut {
                        p: p2,
                        v: Option::Some(v3),
                        out: core::result::Result::<Seq<char>, EngErr>::Err(
                            EngErr::Exhausted { slot: req.slot.name, retries: maxr, last: msg },
                        ),
                        steps: seq![(shown_attempt(attempt), msg)],
                    }
                },
            }
        }),
{
    reveal(heal_sim);
}

/// Run the generate-validate-heal loop for one request.
#[verifier::rlimit(100)]
#[verifier::spinoff_prover]
fn run_heal<P: Provider, V: Validator, O: Observer>(
    provider: &mut P,
    validator: &mut Option<V>,
    observer: &mut Option<O>,
    config: &AetherConfig,
    req: GenerationRequest,
    id: &str,
    Ghost(req0): Ghost<ReqV>,
) -> (r: Result<String>)
    requires
        req@ == req0,
    ensures
        ({
            let hs = heal_sim(
                *old(provider),
                *old(validator),
                req0,
                0,
                config.max_retries,
                Option::<Seq<char>>::None,
                config.prompt_healing_feedback@,
            );
            &&& *final(provider) == hs.p
            &&& *final(validator) == hs.v
            &&& match hs.out {
                core::result::Result::Ok(code) => r is Ok && (r->Ok_0)@ == code,
                core::result::Result::Err(e) => r is Err && err_matches(e, r->Err_0),
            }
            &&& match *old(observer) {
                Option::Some(o0) => (*final(observer)) is Some && ((*final(observer))->0).events()
                    == o0.events() + events_of(id@, hs.steps),
                Option::None => (*final(observer)) is None,
            }
        }),
{
    let maxr: u32 = config.max_retries;
    let mut attempt: u32 = 0;
    let mut prev: Option<String> = None;
    let mut req = req;
    let ghost mut steps_done: Seq<(u32, Seq<char>)> = Seq::empty();
    proof {
        assert(events_of(id@, Seq::<(u32, Seq<char>)>::empty()) == Seq::<
            crate::observer::EventV,
        >::empty());
    }
    loop
        invariant
            attempt <= maxr,
            maxr == config.max_retries,
            ({
                let cur = heal_sim(
                    *provider,
                    *validator,
                    req@,
                    attempt,
                    maxr,
                    opt_view(prev),
                    config.prompt_healing_feedback@,
                );
                heal_sim(
                    *old(provider),
                    *old(validator),
                    req0,
                    0,
                    maxr,
                    Option::<Seq<char>>::None,
                    config.prompt_healing_feedback@,
                ) == (HealOut {
                    p: cur.p,
                    v: cur.v,
                    out: cur.out,
                    steps: steps_done + cur.steps,
                })
            }),
            match *old(observer) {
                Option::Some(o0) => *observer is Some && (*observer)->0.events() == o0.events()
                    + events_of(id@, steps_done),
                Option::None => *observer is None,
            },
        decreases maxr - attempt,
    {
        let ghost pre_p = *provider;
        let ghost pre_v = *validator;
        let ghost pre_req = req@;
        let ghost pre_prev = opt_view(prev);
        let ghost fb = config.prompt_healing_feedback@;
        let gr = provider.generate(&req);
        match gr {
            Err(e) => {
                if attempt < maxr {
                    proof {
                        lemma_heal_backend_retry(pre_p, pre_v, pre_req, attempt, maxr, pre_prev, fb);
                    }
                    let delay: u64 = match config.retry_backoff_ms.checked_mul(
                        (attempt as u64) + 1,
                    ) {
                        Some(d) => d,
                        None => u64::MAX,
                    };
                    provider.pause(delay);
                    attempt = attempt + 1;
                } else {
                    proof {
                        lemma_heal_backend_final(pre_p, pre_v, pre_req, attempt, maxr, pre_prev, fb);
                        assert(steps_done + Seq::<(u32, Seq<char>)>::empty() =~= steps_done);
                    }
                    return Err(e);
                }
            },
            Ok(resp) => {
                let code = resp.code;
                let mut is_stuck: bool = false;
                match &prev {
                    Some(pc) => {
                        if crate::text::str_eq(pc.as_str(), code.as_str()) {
                            is_stuck = true;
                        }
                    },
                    None => {},
                }
                if is_stuck {
                    proof {
                        lemma_heal_stuck(pre_p, pre_v, pre_req, attempt, maxr, pre_prev, fb);
                        assert(steps_done + Seq::<(u32, Seq<char>)>::empty() =~= steps_done);
                    }
                    let mut msg = String::new();
                    msg.append("AI stuck in loop (generated identical code)");
                    return Err(
                        AetherError::MaxRetriesExceeded {
                            slot: copy_string(req.slot.name.as_str()),
                            retries: attempt,
                            last_error: msg,
                        },
                    );
                }
                proof {
                    assert(pre_prev != Option::Some(code@));
                }
                let has_v: bool = validator.is_some();
                if !has_v {
                    proof {
                        lemma_heal_no_validator::<P, V>(pre_p, pre_req, attempt, maxr, pre_prev, fb);
                        assert(steps_done + Seq::<(u32, Seq<char>)>::empty() =~= steps_done);
                    }
                    return Ok(code);
                }
                proof {
                    lemma_heal_validated(pre_p, pre_v->0, pre_req, attempt, maxr, pre_prev, fb);
                }
                let code2: String = match validator {
                    Some(v) => match v.format(&req.slot.kind, code.as_str()) {
                        Ok(f) => f,
                        Err(_) => copy_string(code.as_str()),
                    },
                    None => copy_string(code.as_str()),
                };
                let vr: Result<ValidationResult> = match validator {
                    Some(v) => v.validate_with_slot(&req.slot, code2.as_str()),
                    None => Ok(ValidationResult::Valid),
                };
                match vr {
                    Err(e) => {
                        proof {
                            assert(steps_done + Seq::<(u32, Seq<char>)>::empty() =~= steps_done);
                        }
                        return Err(e);
                    },
                    Ok(ValidationResult::Valid) => {
                        proof {
                            assert(steps_done + Seq::<(u32, Seq<char>)>::empty() =~= steps_done);
                        }
                        return Ok(code2);
                    },
                    Ok(ValidationResult::Invalid(msg)) => {
                        let shown: u32 = if attempt < u32::MAX {
                            attempt + 1
                        } else {
                            attempt
                        };
                        proof {
                            assert(shown == shown_attempt(attempt));
                        }
                        let ghost steps_pre = steps_done;
                        if let Some(o) = observer {
                            o.on_healing_step(id, shown, msg.as_str());
                        }
                        proof {
                            lemma_events_of_push(id@, steps_done, (shown, msg@));
                            steps_done = steps_done.push((shown, msg@));
                            if *old(observer) is Some {
                                assert(((*observer)->0).events() =~= (old(observer)->0).events()
                                    + events_of(id@, steps_done));
                            }
                        }
                        if attempt < maxr {
                            let mut np = String::new();
                            np.append(req.slot.prompt.as_str());
                            np.append("\n\n");
                            np.append(config.prompt_healing_feedback.as_str());
                            np.append(msg.as_str());
                            req.slot.prompt = np;
                            prev = Some(code);
                            attempt = attempt + 1;
                            proof {
                                reveal_strlit("\n\n");
                                assert(req@ == with_prompt(
                                    pre_req,
                                    feedback_prompt(pre_req.slot.prompt, fb, msg@),
                                ));
                                let rec = heal_sim(
                                    *provider,
                                    *validator,
                                    req@,
                                    attempt,
                                    maxr,
                                    opt_view(prev),
                                    fb,
                                );
                                assert(steps_pre + (seq![(shown, msg@)] + rec.steps)
                                    =~= steps_done + rec.steps);
                            }
                        } else {
                            proof {
                                assert(steps_pre + seq![(shown, msg@)] =~= steps_done);
                            }
                            return Err(
                                AetherError::MaxRetriesExceeded {
                                    slot: copy_string(req.slot.name.as_str()),
                                    retries: maxr,
                                    last_error: msg,
                                },
                            );
                        }
                    },
                }
            },
        }
    }
}

/// The main engine: a backend, an optional validator, an optional
/// cache, an optional observer, the policy, and the global context.
pub struct InjectionEngine<P: Provider, V: Validator, C: Cache, O: Observer> {
    /// The generation backend.
    pub provider: P,
    /// Optional validator; present means self-healing is active.
    pub validator: Option<V>,
    /// Optional cache consulted around generation.
    pub cache: Option<C>,
    /// Engine policy.
    pub config: AetherConfig,
    /// Context applied to all generations.
    pub global_context: InjectionContext,
    /// Optional observer of engine events.
    pub observer: Option<O>,
}

impl<P: Provider, V: Validator, C: Cache, O: Observer> InjectionEngine<P, V, C, O> {
    /// One slot's generation: probe the cache, then run the healing
    /// loop; a cache hit short-circuits generation and is tagged in the
    /// response metadata; a generated success is written through.
    #[verifier::rlimit(100)]
    pub fn heal_one(&mut self, req: GenerationRequest, id: &str) -> (r: Result<
        GenerationResponse,
    >)
        ensures
            final(self).config == old(self).config,
            final(self).global_context == old(self).global_context,
            ({
                let hs = heal_sim(
                    old(self).provider,
                    old(self).validator,
                    req@,
                    0,
                    old(self).config.max_retries,
                    Option::<Seq<char>>::None,
                    old(self).config.prompt_healing_feedback@,
                );
                let key = sp_cache_key(req@);
                if old(self).cache is Some && old(self).cache->0.lookup(key) is Some {
                    final(self).observer == old(self).observer
                } else {
                    match old(self).observer {
                        Option::Some(o0) => final(self).observer is Some && (final(self).observer
                            ->0).events() == o0.events() + events_of(id@, hs.steps),
                        Option::None => final(self).observer is None,
                    }
                }
            }),
            ({
                let hs = heal_sim(
                    old(self).provider,
                    old(self).validator,
                    req@,
                    0,
                    old(self).config.max_retries,
                    Option::<Seq<char>>::None,
                    old(self).config.prompt_healing_feedback@,
                );
                let key = sp_cache_key(req@);
                match old(self).cache {
                    Option::None => {
                        &&& final(self).cache is None
                        &&& final(self).provider == hs.p
                        &&& final(self).validator == hs.v
                        &&& match hs.out {
                            core::result::Result::Ok(code) => r is Ok && (r->Ok_0).code@ == code
                                && (r->Ok_0).metadata is None,
                            core::result::Result::Err(e) => r is Err && err_matches(e, r->Err_0),
                        }
                    },
                    Option::Some(c0) => match c0.lookup(key) {
                        Option::Some(hit) => {
                            &&& r is Ok
                            &&& (r->Ok_0).code@ == hit
                            &&& (r->Ok_0).metadata is Some
                            &&& ((r->Ok_0).metadata->0)@ == "cache: hit"@
                            &&& final(self).provider == old(self).provider
                            &&& final(self).validator == old(self).validator
                            &&& final(self).cache == old(self).cache
                            &&& (c0.lookup_is_exact() ==> c0.contents().contains_key(key)
                                && c0.contents()[key] == hit)
                        },
                        Option::None => {
                            &&& (c0.lookup_is_exact() ==> !c0.contents().contains_key(key))
                            &&& final(self).provider == hs.p
                            &&& final(self).validator == hs.v
                            &&& match hs.out {
                                core::result::Result::Ok(code) => {
                                    &&& r is Ok
                                    &&& (r->Ok_0).code@ == code
                                    &&& (r->Ok_0).metadata is None
                                    &&& final(self).cache is Some
                                    &&& final(self).cache->0.contents() == c0.contents().insert(
                                        key,
                                        code,
                                    )
                                    &&& (c0.lookup_is_exact()
                                        ==> final(self).cache->0.lookup_is_exact())
                                    &&& (c0.lookup_is_exact() ==> forall|q: Seq<char>|
                                        final(self).cache->0.lookup(q) == if q == key {
                                            Option::Some(code)
                                        } else {
                                            c0.lookup(q)
                                        })
                                },
                                core::result::Result::Err(e) => {
                                    &&& r is Err
                                    &&& err_matches(e, r->Err_0)
                                    &&& final(self).cache == old(self).cache
                                },
                            }
                        },
                    },
                }
            }),
    {
        let use_cache: bool = self.cache.is_some();
        let key: Option<String> = if use_cache {
            Some(cache_key_of(&req))
        } else {
            None
        };
        if let Some(c) = &mut self.cache {
            let k = match &key {
                Some(k) => k,
                None => {
                    return Err(
                        AetherError::InjectionError(copy_string("cache key missing")),
                    );
                },
            };
            match c.get(k.as_str()) {
                Some(hit) => {
                    let mut tag = String::new();
                    tag.append("cache: hit");
                    return Ok(
                        GenerationResponse { code: hit, tokens_used: None, metadata: Some(tag) },
                    );
                },
                None => {},
            }
        }
        let ghost req0 = req@;
        let code = match run_heal(
            &mut self.provider,
            &mut self.validator,
            &mut self.observer,
            &self.config,
            req,
            id,
            Ghost(req0),
        ) {
            Ok(c) => c,
            Err(e) => {
                return Err(e);
            },
        };
        if let (Some(c), Some(k)) = (&mut self.cache, &key) {
            c.set(k.as_str(), code.as_str());
        }
        Ok(GenerationResponse { code, tokens_used: None, metadata: None })
    }
}


// ------------------------------------------------------------------
// Rendering all slots
// ------------------------------------------------------------------

/// The request the engine builds for a slot and a context prompt.
pub open spec fn sp_request(slot: SlotV, ctx: Seq<char>) -> ReqV {
    ReqV {
        slot: slot,
        context: Option::Some(ctx),
        system_prompt: Option::None,
        model: Option::None,
        max_tokens: Option::None,
    }
}

/// The context prompt a render assembles: the global (and extra)
/// context as text, compressed through the compact notation when the
/// policy asks for it, with the validation notice appended when a
/// validator is present.
pub open spec fn sp_engine_context(
    cfg: AetherConfig,
    gctx: &InjectionContext,
    extra_prompt: Option<Seq<char>>,
    has_validator: bool,
) -> Seq<char> {
    let base = match extra_prompt {
        Option::Some(e) => crate::context::sp_ctx_prompt(gctx) + "\n"@ + e,
        Option::None => crate::context::sp_ctx_prompt(gctx),
    };
    let use_toon = crate::config::sp_should_use_toon(
        cfg.toon_enabled,
        cfg.auto_toon_threshold,
        base.len(),
    );
    let cp = if use_toon {
        cfg.prompt_toon_header@ + "\n"@ + crate::toon::sp_encode(
            crate::context::sp_ctx_toon(gctx),
        ) + "\n\n"@ + cfg.prompt_toon_note@
    } else {
        base
    };
    if has_validator {
        cp + cfg.prompt_tdd_notice@
    } else {
        cp
    }
}

/// What rendering every slot leaves behind: stepped backend and
/// validator, the injections, the cache contents, and the first
/// terminal error if any (later slots are then not attempted).
pub struct RenderOut<P, V> {
    pub p: P,
    pub v: Option<V>,
    pub inj: Seq<(Seq<char>, Seq<char>)>,
    pub cachem: Option<Map<Seq<char>, Seq<char>>>,
    pub err: Option<EngErr>,
}

/// Slots processed in definition order: a slot whose derived key the
/// cache holds reuses the stored text without touching the backend;
/// the others run the healing loop, a success written through.
#[verifier::opaque]
pub open spec fn slots_sim<P: Provider, V: Validator>(
    p: P,
    vo: Option<V>,
    cm: Option<Map<Seq<char>, Seq<char>>>,
    slots: Seq<(Seq<char>, SlotV)>,
    ctx: Seq<char>,
    maxr: u32,
    fb: Seq<char>,
) -> RenderOut<P, V>
    decreases slots.len(),
{
    if slots.len() == 0 {
        RenderOut { p: p, v: vo, inj: Seq::empty(), cachem: cm, err: Option::None }
    } else {
        let req = sp_request(slots[0].1, ctx);
        let key = sp_cache_key(req);
        if cm is Some && cm->0.contains_key(key) {
            let rest = slots_sim(p, vo, cm, slots.drop_first(), ctx, maxr, fb);
            RenderOut {
                p: rest.p,
                v: rest.v,
                inj: seq![(slots[0].0, cm->0[key])] + rest.inj,
                cachem: rest.cachem,
                err: rest.err,
            }
        } else {
            let hs = heal_sim(p, vo, req, 0, maxr, Option::None, fb);
            match hs.out {
                core::result::Result::Ok(code) => {
                    let cm2 = match cm {
                        Option::Some(m) => Option::Some(m.insert(key, code)),
                        Option::None => Option::<Map<Seq<char>, Seq<char>>>::None,
                    };
                    let rest = slots_sim(hs.p, hs.v, cm2, slots.drop_first(), ctx, maxr, fb);
                    RenderOut {
                        p: rest.p,
                        v: rest.v,
                        inj: seq![(slots[0].0, code)] + rest.inj,
                        cachem: rest.cachem,
                        err: rest.err,
                    }
                },
                core::result::Result::Err(e) => RenderOut {
                    p: hs.p,
                    v: hs.v,
                    inj: Seq::empty(),
                    cachem: cm,
                    err: Option::Some(e),
                },
            }
        }
    }
}

/// An engine whose cache, if any, answers exactly its stored keys:
/// then a whole render is the deterministic simulation above.
pub open spec fn cache_exact_ok<P: Provider, V: Validator, C: Cache, O: Observer>(
    e: InjectionEngine<P, V, C, O>,
) -> bool {
    match e.cache {
        Option::None => true,
        Option::Some(c) => c.lookup_is_exact(),
    }
}

/// The contents of the engine's cache, if one is set.
pub open spec fn cache_model<P: Provider, V: Validator, C: Cache, O: Observer>(
    e: InjectionEngine<P, V, C, O>,
) -> Option<Map<Seq<char>, Seq<char>>> {
    match e.cache {
        Option::None => Option::None,
        Option::Some(c) => Option::Some(c.contents()),
    }
}

proof fn lemma_slots_sim_nil<P: Provider, V: Validator>(
    p: P,
    vo: Option<V>,
    cm: Option<Map<Seq<char>, Seq<char>>>,
    ctx: Seq<char>,
    maxr: u32,
    fb: Seq<char>,
)
    ensures
        slots_sim(p, vo, cm, Seq::<(Seq<char>, SlotV)>::empty(), ctx, maxr, fb) == (RenderOut {
            p: p,
            v: vo,
            inj: Seq::<(Seq<char>, Seq<char>)>::empty(),
            cachem: cm,
            err: Option::<EngErr>::None,
        }),
{
    reveal(slots_sim);
}

proof fn lemma_slots_sim_step<P: Provider, V: Validator>(
    p: P,
    vo: Option<V>,
    cm: Option<Map<Seq<char>, Seq<char>>>,
    slots: Seq<(Seq<char>, SlotV)>,
    ctx: Seq<char>,
    maxr: u32,
    fb: Seq<char>,
)
    requires
        slots.len() > 0,
    ensures
        ({
            let req = sp_request(slots[0].1, ctx);
            let key = sp_cache_key(req);
            let hs = heal_sim(p, vo, req, 0, maxr, Option::<Seq<char>>::None, fb);
            slots_sim(p, vo, cm, slots, ctx, maxr, fb) == if cm is Some && cm->0.contains_key(
                key,
            ) {
                let rest = slots_sim(p, vo, cm, slots.drop_first(), ctx, maxr, fb);
                RenderOut {
                    p: rest.p,
                    v: rest.v,
                    inj: seq![(slots[0].0, cm->0[key])] + rest.inj,
                    cachem: rest.cachem,
                    err: rest.err,
                }
            } else {
                match hs.out {
                    core::result::Result::Ok(code) => {
                        let cm2 = match cm {
                            Option::Some(m) => Option::Some(m.insert(key, code)),
                            Option::None => Option::<Map<Seq<char>, Seq<char>>>::None,
                        };
                        let rest = slots_sim(hs.p, hs.v, cm2, slots.drop_first(), ctx, maxr, fb);
                        RenderOut {
                            p: rest.p,
                            v: rest.v,
                            inj: seq![(slots[0].0, code)] + rest.inj,
                            cachem: rest.cachem,
                            err: rest.err,
                        }
                    },
                    core::result::Result::Err(e) => RenderOut {
                        p: hs.p,
                        v: hs.v,
                        inj: Seq::<(Seq<char>, Seq<char>)>::empty(),
                        cachem: cm,
                        err: Option::Some(e),
                    },
                }
            }
        }),
{
    reveal(slots_sim);
}

proof fn lemma_render_invariant_hit<P: Provider, V: Validator>(
    p0: P,
    v0: Option<V>,
    cm0: Option<Map<Seq<char>, Seq<char>>>,
    all: Seq<(Seq<char>, SlotV)>,
    ctx: Seq<char>,
    maxr: u32,
    fb: Seq<char>,
    i: int,
    pre_p: P,
    pre_v: Option<V>,
    pre_cm: Option<Map<Seq<char>, Seq<char>>>,
    inj0: Seq<(Seq<char>, Seq<char>)>,
)
    requires
        0 <= i < all.len(),
        ({
            let full = slots_sim(p0, v0, cm0, all, ctx, maxr, fb);
            let rest = slots_sim(
                pre_p,
                pre_v,
                pre_cm,
                all.subrange(i, all.len() as int),
                ctx,
                maxr,
                fb,
            );
            full == (RenderOut {
                p: rest.p,
                v: rest.v,
                inj: inj0 + rest.inj,
                cachem: rest.cachem,
                err: rest.err,
            })
        }),
        pre_cm is Some,
        pre_cm->0.contains_key(sp_cache_key(sp_request(all[i].1, ctx))),
    ensures
        ({
            let full = slots_sim(p0, v0, cm0, all, ctx, maxr, fb);
            let key = sp_cache_key(sp_request(all[i].1, ctx));
            let rest2 = slots_sim(
                pre_p,
                pre_v,
                pre_cm,
                all.subrange(i + 1, all.len() as int),
                ctx,
                maxr,
                fb,
            );
            full == (RenderOut {
                p: rest2.p,
                v: rest2.v,
                inj: (inj0 + seq![(all[i].0, pre_cm->0[key])]) + rest2.inj,
                cachem: rest2.cachem,
                err: rest2.err,
            })
        }),
{
    let suf = all.subrange(i, all.len() as int);
    lemma_slots_sim_step(pre_p, pre_v, pre_cm, suf, ctx, maxr, fb);
    assert(suf[0] == all[i]);
    assert(suf.drop_first() =~= all.subrange(i + 1, all.len() as int));
    let key = sp_cache_key(sp_request(all[i].1, ctx));
    let rest2 = slots_sim(
        pre_p,
        pre_v,
        pre_cm,
        all.subrange(i + 1, all.len() as int),
        ctx,
        maxr,
        fb,
    );
    assert(inj0 + (seq![(all[i].0, pre_cm->0[key])] + rest2.inj) =~= (inj0 + seq![
        (all[i].0, pre_cm->0[key]),
    ]) + rest2.inj);
}

proof fn lemma_render_invariant_step<P: Provider, V: Validator>(
    p0: P,
    v0: Option<V>,
    cm0: Option<Map<Seq<char>, Seq<char>>>,
    all: Seq<(Seq<char>, SlotV)>,
    ctx: Seq<char>,
    maxr: u32,
    fb: Seq<char>,
    i: int,
    pre_p: P,
    pre_v: Option<V>,
    pre_cm: Option<Map<Seq<char>, Seq<char>>>,
    inj0: Seq<(Seq<char>, Seq<char>)>,
    code: Seq<char>,
)
    requires
        0 <= i < all.len(),
        ({
            let full = slots_sim(p0, v0, cm0, all, ctx, maxr, fb);
            let rest = slots_sim(
                pre_p,
                pre_v,
                pre_cm,
                all.subrange(i, all.len() as int),
                ctx,
                maxr,
                fb,
            );
            full == (RenderOut {
                p: rest.p,
                v: rest.v,
                inj: inj0 + rest.inj,
                cachem: rest.cachem,
                err: rest.err,
            })
        }),
        !(pre_cm is Some && pre_cm->0.contains_key(sp_cache_key(sp_request(all[i].1, ctx)))),
        heal_sim(
            pre_p,
            pre_v,
            sp_request(all[i].1, ctx),
            0,
            maxr,
            Option::<Seq<char>>::None,
            fb,
        ).out == core::result::Result::<Seq<char>, EngErr>::Ok(code),
    ensures
        ({
            let full = slots_sim(p0, v0, cm0, all, ctx, maxr, fb);
            let key = sp_cache_key(sp_request(all[i].1, ctx));
            let hs = heal_sim(
                pre_p,
                pre_v,
                sp_request(all[i].1, ctx),
                0,
                maxr,
                Option::<Seq<char>>::None,
                fb,
            );
            let cm2 = match pre_cm {
                Option::Some(m) => Option::Some(m.insert(key, code)),
                Option::None => Option::<Map<Seq<char>, Seq<char>>>::None,
            };
            let rest2 = slots_sim(
                hs.p,
                hs.v,
                cm2,
                all.subrange(i + 1, all.len() as int),
                ctx,
                maxr,
                fb,
            );
            full == (RenderOut {
                p: rest2.p,
                v: rest2.v,
                inj: (inj0 + seq![(all[i].0, code)]) + rest2.inj,
                cachem: rest2.cachem,
                err: rest2.err,
            })
        }),
{
    let suf = all.subrange(i, all.len() as int);
    lemma_slots_sim_step(pre_p, pre_v, pre_cm, suf, ctx, maxr, fb);
    assert(suf[0] == all[i]);
    assert(suf.drop_first() =~= all.subrange(i + 1, all.len() as int));
    let key = sp_cache_key(sp_request(all[i].1, ctx));
    let hs = heal_sim(
        pre_p,
        pre_v,
        sp_request(all[i].1, ctx),
        0,
        maxr,
        Option::<Seq<char>>::None,
        fb,
    );
    let cm2 = match pre_cm {
        Option::Some(m) => Option::Some(m.insert(key, code)),
        Option::None => Option::<Map<Seq<char>, Seq<char>>>::None,
    };
    let rest2 = slots_sim(hs.p, hs.v, cm2, all.subrange(i + 1, all.len() as int), ctx, maxr, fb);
    assert(inj0 + (seq![(all[i].0, code)] + rest2.inj) =~= (inj0 + seq![(all[i].0, code)])
        + rest2.inj);
}

proof fn lemma_render_invariant_err<P: Provider, V: Validator>(
    p0: P,
    v0: Option<V>,
    cm0: Option<Map<Seq<char>, Seq<char>>>,
    all: Seq<(Seq<char>, SlotV)>,
    ctx: Seq<char>,
    maxr: u32,
    fb: Seq<char>,
    i: int,
    pre_p: P,
    pre_v: Option<V>,
    pre_cm: Option<Map<Seq<char>, Seq<char>>>,
    inj0: Seq<(Seq<char>, Seq<char>)>,
)
    requires
        0 <= i < all.len(),
        ({
            let full = slots_sim(p0, v0, cm0, all, ctx, maxr, fb);
            let rest = slots_sim(
                pre_p,
                pre_v,
                pre_cm,
                all.subrange(i, all.len() as int),
                ctx,
                maxr,
                fb,
            );
            full == (RenderOut {
                p: rest.p,
                v: rest.v,
                inj: inj0 + rest.inj,
                cachem: rest.cachem,
                err: rest.err,
            })
        }),
        !(pre_cm is Some && pre_cm->0.contains_key(sp_cache_key(sp_request(all[i].1, ctx)))),
        heal_sim(
            pre_p,
            pre_v,
            sp_request(all[i].1, ctx),
            0,
            maxr,
            Option::<Seq<char>>::None,
            fb,
        ).out is Err,
    ensures
        ({
            let full = slots_sim(p0, v0, cm0, all, ctx, maxr, fb);
            let hs = heal_sim(
                pre_p,
                pre_v,
                sp_request(all[i].1, ctx),
                0,
                maxr,
                Option::<Seq<char>>::None,
                fb,
            );
            &&& full.p == hs.p
            &&& full.v == hs.v
            &&& full.cachem == pre_cm
            &&& full.err == Option::Some(hs.out->Err_0)
        }),
{
    let suf = all.subrange(i, all.len() as int);
    lemma_slots_sim_step(pre_p, pre_v, pre_cm, suf, ctx, maxr, fb);
    assert(suf[0] == all[i]);
}

impl<P: Provider, V: Validator, C: Cache, O: Observer> InjectionEngine<P, V, C, O> {
    /// Generate text for every slot of the template, in definition
    /// order, and return the injections.
    #[verifier::rlimit(100)]
    fn generate_all(&mut self, template: &Template, extra_prompt: Option<String>) -> (r: Result<
        Vec<(String, String)>,
    >)
        ensures
            final(self).config == old(self).config,
            final(self).global_context == old(self).global_context,
            old(self).cache is None ==> final(self).cache is None,
            cache_exact_ok(*old(self)) ==> ({
                let ctx = sp_engine_context(
                    old(self).config,
                    &old(self).global_context,
                    match extra_prompt {
                        Option::Some(e) => Option::Some(e@),
                        Option::None => Option::None,
                    },
                    old(self).validator is Some,
                );
                let ss = slots_sim(
                    old(self).provider,
                    old(self).validator,
                    cache_model(*old(self)),
                    crate::template::slots_view(template.slots@),
                    ctx,
                    old(self).config.max_retries,
                    old(self).config.prompt_healing_feedback@,
                );
                &&& final(self).provider == ss.p
                &&& final(self).validator == ss.v
                &&& cache_model(*final(self)) == ss.cachem
                &&& cache_exact_ok(*final(self))
                &&& match ss.err {
                    Option::None => r is Ok && crate::template::inj_view((r->Ok_0)@) == ss.inj,
                    Option::Some(e) => r is Err && err_matches(e, r->Err_0),
                }
            }),
    {
        let base: String = {
            let g = self.global_context.to_prompt();
            match &extra_prompt {
                Some(e) => {
                    let mut s = String::new();
                    s.append(g.as_str());
                    s.append("\n");
                    s.append(e.as_str());
                    s
                },
                None => g,
            }
        };
        let use_toon: bool = self.config.should_use_toon(base.unicode_len());
        let cp: String = if use_toon {
            let tv = self.global_context.to_toon();
            let toon_text = crate::toon::Toon::serialize(&tv);
            if let Some(o) = &mut self.observer {
                let mut metric = String::new();
                metric.append("original_chars=");
                metric.append(crate::text::nat_to_string(base.unicode_len() as u64).as_str());
                metric.append(" compressed_chars=");
                metric.append(
                    crate::text::nat_to_string(toon_text.unicode_len() as u64).as_str(),
                );
                o.on_metadata("global", "toon_compression_metrics", metric.as_str());
            }
            let mut s = String::new();
            s.append(self.config.prompt_toon_header.as_str());
            s.append("\n");
            s.append(toon_text.as_str());
            s.append("\n\n");
            s.append(self.config.prompt_toon_note.as_str());
            s
        } else {
            base
        };
        let has_v: bool = self.validator.is_some();
        let cp: String = if has_v {
            let mut s = cp;
            s.append(self.config.prompt_tdd_notice.as_str());
            s
        } else {
            cp
        };
        let ghost ctx = sp_engine_context(
            old(self).config,
            &old(self).global_context,
            match extra_prompt {
                Option::Some(e) => Option::Some(e@),
                Option::None => Option::None,
            },
            old(self).validator is Some,
        );
        proof {
            reveal_strlit("\n");
            reveal_strlit("\n\n");
            assert(cp@ =~= ctx);
        }
        let mut injections: Vec<(String, String)> = Vec::new();
        let n: usize = template.slots.len();
        let ghost all = crate::template::slots_view(template.slots@);
        proof {
            crate::template::lemma_slots_view_len(template.slots@);
            assert(all.subrange(0, n as int) =~= all);
            assert(crate::template::inj_view(injections@) =~= Seq::<(Seq<char>, Seq<char>)>::empty());
        }
        let mut i: usize = 0;
        while i < n
            invariant
                i <= n,
                n == template.slots@.len(),
                all == crate::template::slots_view(template.slots@),
                all.len() == n,
                self.config == old(self).config,
                self.global_context == old(self).global_context,
                cp@ == ctx,
                ctx == sp_engine_context(
                    old(self).config,
                    &old(self).global_context,
                    match extra_prompt {
                        Option::Some(e) => Option::Some(e@),
                        Option::None => Option::None,
                    },
                    old(self).validator is Some,
                ),
                old(self).cache is None ==> self.cache is None,
                self.cache is Some <==> old(self).cache is Some,
                cache_exact_ok(*old(self)) ==> cache_exact_ok(*self),
                cache_exact_ok(*old(self)) ==> ({
                    let full = slots_sim(
                        old(self).provider,
                        old(self).validator,
                        cache_model(*old(self)),
                        all,
                        ctx,
                        old(self).config.max_retries,
                        old(self).config.prompt_healing_feedback@,
                    );
                    let rest = slots_sim(
                        self.provider,
                        self.validator,
                        cache_model(*self),
                        all.subrange(i as int, n as int),
                        ctx,
                        old(self).config.max_retries,
                        old(self).config.prompt_healing_feedback@,
                    );
                    full == (RenderOut {
                        p: rest.p,
                        v: rest.v,
                        inj: crate::template::inj_view(injections@) + rest.inj,
                        cachem: rest.cachem,
                        err: rest.err,
                    })
                }),
            decreases n - i,
        {
            proof {
                crate::template::lemma_slots_view_index(template.slots@, i as int);
                assert(all.subrange(i as int, n as int).drop_first() =~= all.subrange(
                    i + 1,
                    n as int,
                ));
                assert(all.subrange(i as int, n as int)[0] == all[i as int]);
            }
            let slot_copy = crate::template::copy_slot(&template.slots[i].1);
            let req = GenerationRequest {
                slot: slot_copy,
                context: Some(copy_string(cp.as_str())),
                system_prompt: None,
                model: None,
                max_tokens: None,
            };
            proof {
                assert(req@ == sp_request(all[i as int].1, ctx));
            }
            let id = new_request_id();
            if let Some(o) = &mut self.observer {
                o.on_start(id.as_str(), template.name.as_str(), template.slots[i].0.as_str(), &req);
            }
            let ghost pre_p = self.provider;
            let ghost pre_v = self.validator;
            let ghost pre_cm = cache_model(*self);
            let ghost pre_cache_state = self.cache;
            match self.heal_one(req, id.as_str()) {
                Ok(resp) => {
                    if let Some(o) = &mut self.observer {
                        o.on_success(id.as_str(), &resp);
                    }
                    let ghost inj_pre = injections@;
                    injections.push((copy_string(template.slots[i].0.as_str()), resp.code));
                    proof {
                        if cache_exact_ok(*old(self)) {
                            crate::provider::lemma_inj_view_push(
                                inj_pre,
                                (injections@.last().0, injections@.last().1),
                            );
                            let key = sp_cache_key(sp_request(all[i as int].1, ctx));
                            if pre_cache_state is Some && pre_cache_state->0.lookup(key) is Some {
                                assert(pre_cm is Some && pre_cm->0.contains_key(key));
                                assert(resp.code@ == pre_cm->0[key]);
                                lemma_render_invariant_hit(
                                    old(self).provider,
                                    old(self).validator,
                                    cache_model(*old(self)),
                                    all,
                                    ctx,
                                    old(self).config.max_retries,
                                    old(self).config.prompt_healing_feedback@,
                                    i as int,
                                    pre_p,
                                    pre_v,
                                    pre_cm,
                                    crate::template::inj_view(inj_pre),
                                );
                            } else {
                                assert(!(pre_cm is Some && pre_cm->0.contains_key(key)));
                                lemma_render_invariant_step(
                                    old(self).provider,
                                    old(self).validator,
                                    cache_model(*old(self)),
                                    all,
                                    ctx,
                                    old(self).config.max_retries,
                                    old(self).config.prompt_healing_feedback@,
                                    i as int,
                                    pre_p,
                                    pre_v,
                                    pre_cm,
                                    crate::template::inj_view(inj_pre),
                                    resp.code@,
                                );
                            }
                            assert(crate::template::inj_view(injections@)
                                =~= crate::template::inj_view(inj_pre) + seq![
                                (all[i as int].0, resp.code@),
                            ]);
                        }
                    }
                    i = i + 1;
                },
                Err(e) => {
                    proof {
                        if cache_exact_ok(*old(self)) {
                            let key = sp_cache_key(sp_request(all[i as int].1, ctx));
                            assert(!(pre_cm is Some && pre_cm->0.contains_key(key)));
                            lemma_render_invariant_err(
                                old(self).provider,
                                old(self).validator,
                                cache_model(*old(self)),
                                all,
                                ctx,
                                old(self).config.max_retries,
                                old(self).config.prompt_healing_feedback@,
                                i as int,
                                pre_p,
                                pre_v,
                                pre_cm,
                                crate::template::inj_view(injections@),
                            );
                        }
                    }
                    if let Some(o) = &mut self.observer {
                        let msg = e.message();
                        o.on_failure(id.as_str(), msg.as_str());
                    }
                    return Err(e);
                },
            }
        }
        proof {
            if cache_exact_ok(*old(self)) {
                assert(all.subrange(n as int, n as int) =~= Seq::<(Seq<char>, SlotV)>::empty());
                lemma_slots_sim_nil(
                    self.provider,
                    self.validator,
                    cache_model(*self),
                    ctx,
                    old(self).config.max_retries,
                    old(self).config.prompt_healing_feedback@,
                );
                assert(crate::template::inj_view(injections@) + Seq::<(Seq<char>, Seq<char>)>::empty()
                    =~= crate::template::inj_view(injections@));
            }
        }
        Ok(injections)
    }

    /// Render a template: generate text for every slot, then splice it
    /// into the document.
    pub fn render(&mut self, template: &Template) -> (r: Result<String>)
        ensures
            final(self).config == old(self).config,
            final(self).global_context == old(self).global_context,
            cache_exact_ok(*old(self)) ==> ({
                let ctx = sp_engine_context(
                    old(self).config,
                    &old(self).global_context,
                    Option::<Seq<char>>::None,
                    old(self).validator is Some,
                );
                let ss = slots_sim(
                    old(self).provider,
                    old(self).validator,
                    cache_model(*old(self)),
                    crate::template::slots_view(template.slots@),
                    ctx,
                    old(self).config.max_retries,
                    old(self).config.prompt_healing_feedback@,
                );
                &&& final(self).provider == ss.p
                &&& final(self).validator == ss.v
                &&& cache_model(*final(self)) == ss.cachem
                &&& cache_exact_ok(*final(self))
                &&& match ss.err {
                    Option::Some(e) => r is Err && err_matches(e, r->Err_0),
                    Option::None => match crate::template::sp_render(
                        template.content@,
                        crate::template::slots_view(template.slots@),
                        ss.inj,
                    ) {
                        core::result::Result::Ok(t) => r is Ok && (r->Ok_0)@ == t,
                        core::result::Result::Err(name) => r matches Err(
                            AetherError::SlotNotFound(nm),
                        ) && nm@ == name,
                    },
                }
            }),
    {
        let injections = match self.generate_all(template, None) {
            Ok(inj) => inj,
            Err(e) => {
                return Err(e);
            },
        };
        template.render(&injections)
    }

    /// Render a template with additional context beyond the global one.
    pub fn render_with_context(&mut self, template: &Template, context: &InjectionContext) -> (r:
        Result<String>)
        ensures
            final(self).config == old(self).config,
            final(self).global_context == old(self).global_context,
            cache_exact_ok(*old(self)) ==> ({
                let ctx = sp_engine_context(
                    old(self).config,
                    &old(self).global_context,
                    Option::Some(crate::context::sp_ctx_prompt(context)),
                    old(self).validator is Some,
                );
                let ss = slots_sim(
                    old(self).provider,
                    old(self).validator,
                    cache_model(*old(self)),
                    crate::template::slots_view(template.slots@),
                    ctx,
                    old(self).config.max_retries,
                    old(self).config.prompt_healing_feedback@,
                );
                &&& final(self).provider == ss.p
                &&& final(self).validator == ss.v
                &&& cache_model(*final(self)) == ss.cachem
                &&& cache_exact_ok(*final(self))
                &&& match ss.err {
                    Option::Some(e) => r is Err && err_matches(e, r->Err_0),
                    Option::None => match crate::template::sp_render(
                        template.content@,
                        crate::template::slots_view(template.slots@),
                        ss.inj,
                    ) {
                        core::result::Result::Ok(t) => r is Ok && (r->Ok_0)@ == t,
                        core::result::Result::Err(name) => r matches Err(
                            AetherError::SlotNotFound(nm),
                        ) && nm@ == name,
                    },
                }
            }),
    {
        let extra = context.to_prompt();
        let injections = match self.generate_all(template, Some(extra)) {
            Ok(inj) => inj,
            Err(e) => {
                return Err(e);
            },
        };
        template.render(&injections)
    }
}


// ------------------------------------------------------------------
// Construction
// ------------------------------------------------------------------

use crate::validation::ConstraintValidator;
use crate::cache::ExactCache;
use crate::observer::RecordingObserver;

impl<P: Provider> InjectionEngine<P, ConstraintValidator, ExactCache, RecordingObserver> {
    /// A new engine over a backend, with the default policy and no
    /// validator, cache or observer.
    pub fn new(provider: P) -> (r: InjectionEngine<
        P,
        ConstraintValidator,
        ExactCache,
        RecordingObserver,
    >)
        ensures
            r.provider == provider,
            r.validator is None,
            r.cache is None,
            r.observer is None,
            !r.config.toon_enabled,
            !r.config.healing_enabled,
            !r.config.cache_enabled,
            r.config.parallel,
            r.config.max_retries == 2,
            r.config.auto_toon_threshold == Option::Some(2000usize),
            r.config.retry_backoff_ms == 100,
            r.global_context.project is None,
            r.global_context.language is None,
            r.global_context.framework is None,
            r.global_context.style is None,
            r.global_context.surrounding_code is None,
            r.global_context.available_imports@.len() == 0,
            r.global_context.variables@.len() == 0,
            r.global_context.extra@.len() == 0,
    {
        InjectionEngine {
            provider,
            validator: None,
            cache: None,
            config: AetherConfig::default(),
            global_context: InjectionContext::new(),
            observer: None,
        }
    }

    /// A new engine over a backend with the given policy: a set healing
    /// flag installs the constraint validator, and a set cache flag an
    /// empty exact cache.
    pub fn with_config(provider: P, config: AetherConfig) -> (r: InjectionEngine<
        P,
        ConstraintValidator,
        ExactCache,
        RecordingObserver,
    >)
        ensures
            r.provider == provider,
            r.validator == if config.healing_enabled {
                Option::Some(ConstraintValidator {  })
            } else {
                Option::<ConstraintValidator>::None
            },
            r.cache is Some <==> config.cache_enabled,
            config.cache_enabled ==> r.cache->0.contents() == Map::<
                Seq<char>,
                Seq<char>,
            >::empty() && r.cache->0.lookup_is_exact(),
            r.observer is None,
            r.config == config,
            r.global_context.project is None,
            r.global_context.language is None,
            r.global_context.framework is None,
            r.global_context.style is None,
            r.global_context.surrounding_code is None,
            r.global_context.available_imports@.len() == 0,
            r.global_context.variables@.len() == 0,
            r.global_context.extra@.len() == 0,
    {
        let validator: Option<ConstraintValidator> = if config.healing_enabled {
            Some(ConstraintValidator::new())
        } else {
            None
        };
        let cache: Option<ExactCache> = if config.cache_enabled {
            Some(ExactCache::new())
        } else {
            None
        };
        InjectionEngine {
            provider,
            validator,
            cache,
            config,
            global_context: InjectionContext::new(),
            observer: None,
        }
    }
}

impl<P: Provider, V: Validator, C: Cache, O: Observer> InjectionEngine<P, V, C, O> {
    /// Set the validator, turning self-healing on.
    pub fn with_validator<V2: Validator>(self, validator: V2) -> (r: InjectionEngine<P, V2, C, O>)
        ensures
            r.provider == self.provider,
            r.validator == Option::Some(validator),
            r.cache == self.cache,
            r.config == self.config,
            r.global_context == self.global_context,
            r.observer == self.observer,
    {
        InjectionEngine {
            provider: self.provider,
            validator: Some(validator),
            cache: self.cache,
            config: self.config,
            global_context: self.global_context,
            observer: self.observer,
        }
    }

    /// Set the cache.
    pub fn with_cache<C2: Cache>(self, cache: C2) -> (r: InjectionEngine<P, V, C2, O>)
        ensures
            r.provider == self.provider,
            r.validator == self.validator,
            r.cache == Option::Some(cache),
            r.config == self.config,
            r.global_context == self.global_context,
            r.observer == self.observer,
    {
        InjectionEngine {
            provider: self.provider,
            validator: self.validator,
            cache: Some(cache),
            config: self.config,
            global_context: self.global_context,
            observer: self.observer,
        }
    }

    /// Set the observer.
    pub fn with_observer<O2: Observer>(self, observer: O2) -> (r: InjectionEngine<P, V, C, O2>)
        ensures
            r.provider == self.provider,
            r.validator == self.validator,
            r.cache == self.cache,
            r.config == self.config,
            r.global_context == self.global_context,
            r.observer == Option::Some(observer),
    {
        InjectionEngine {
            provider: self.provider,
            validator: self.validator,
            cache: self.cache,
            config: self.config,
            global_context: self.global_context,
            observer: Some(observer),
        }
    }

    /// Set the global context.
    pub fn with_context(self, context: InjectionContext) -> (r: InjectionEngine<P, V, C, O>)
        ensures
            r == (InjectionEngine { global_context: context, ..self }),
    {
        let mut e = self;
        e.global_context = context;
        e
    }

    /// Enable or disable context compression.
    pub fn with_toon(self, enabled: bool) -> (r: InjectionEngine<P, V, C, O>)
        ensures
            r == (InjectionEngine {
                config: (AetherConfig { toon_enabled: enabled, ..self.config }),
                ..self
            }),
    {
        let mut e = self;
        e.config.toon_enabled = enabled;
        e
    }

    /// Enable or disable parallel generation.  Scheduling is a caller
    /// concern; assembly is position-keyed, so the result does not
    /// depend on it.
    pub fn parallel(self, enabled: bool) -> (r: InjectionEngine<P, V, C, O>)
        ensures
            r == (InjectionEngine {
                config: (AetherConfig { parallel: enabled, ..self.config }),
                ..self
            }),
    {
        let mut e = self;
        e.config.parallel = enabled;
        e
    }

    /// Set the retry budget.
    pub fn max_retries(self, retries: u32) -> (r: InjectionEngine<P, V, C, O>)
        ensures
            r == (InjectionEngine {
                config: (AetherConfig { max_retries: retries, ..self.config }),
                ..self
            }),
    {
        let mut e = self;
        e.config.max_retries = retries;
        e
    }

    /// Generate text for a single named slot, against the plain global
    /// context.
    pub fn generate_slot(&mut self, template: &Template, slot_name: &str) -> (r: Result<String>)
        ensures
            final(self).config == old(self).config,
            final(self).global_context == old(self).global_context,
            ({
                let slots = crate::template::slots_view(template.slots@);
                match crate::template::assoc(slots, slot_name@) {
                    Option::None => r matches Err(AetherError::SlotNotFound(nm)) && nm@
                        == slot_name@ && *final(self) == *old(self),
                    Option::Some(slot) => {
                        let req = sp_request(
                            slot,
                            crate::context::sp_ctx_prompt(&old(self).global_context),
                        );
                        let key = sp_cache_key(req);
                        let hs = heal_sim(
                            old(self).provider,
                            old(self).validator,
                            req,
                            0,
                            old(self).config.max_retries,
                            Option::<Seq<char>>::None,
                            old(self).config.prompt_healing_feedback@,
                        );
                        match old(self).cache {
                            Option::None => {
                                &&& final(self).cache is None
                                &&& final(self).provider == hs.p
                                &&& final(self).validator == hs.v
                                &&& match hs.out {
                                    core::result::Result::Ok(code) => r is Ok && (r->Ok_0)@
                                        == code,
                                    core::result::Result::Err(e) => r is Err && err_matches(
                                        e,
                                        r->Err_0,
                                    ),
                                }
                            },
                            Option::Some(c0) => match c0.lookup(key) {
                                Option::Some(hit) => {
                                    &&& r is Ok
                                    &&& (r->Ok_0)@ == hit
                                    &&& final(self).provider == old(self).provider
                                    &&& final(self).validator == old(self).validator
                                    &&& final(self).cache == old(self).cache
                                },
                                Option::None => {
                                    &&& final(self).provider == hs.p
                                    &&& final(self).validator == hs.v
                                    &&& match hs.out {
                                        core::result::Result::Ok(code) => {
                                            &&& r is Ok
                                            &&& (r->Ok_0)@ == code
                                            &&& final(self).cache is Some
                                            &&& final(self).cache->0.contents()
                                                == c0.contents().insert(key, code)
                                        },
                                        core::result::Result::Err(e) => {
                                            &&& r is Err
                                            &&& err_matches(e, r->Err_0)
                                            &&& final(self).cache == old(self).cache
                                        },
                                    }
                                },
                            },
                        }
                    },
                }
            }),
    {
        let slot = match crate::template::find_slot(&template.slots, slot_name) {
            Some(s) => s,
            None => {
                return Err(AetherError::SlotNotFound(copy_string(slot_name)));
            },
        };
        let ctx = self.global_context.to_prompt();
        let req = GenerationRequest {
            slot: crate::template::copy_slot(slot),
            context: Some(ctx),
            system_prompt: None,
            model: None,
            max_tokens: None,
        };
        let id = new_request_id();
        if let Some(o) = &mut self.observer {
            o.on_start(id.as_str(), template.name.as_str(), slot_name, &req);
        }
        match self.heal_one(req, id.as_str()) {
            Ok(resp) => {
                if let Some(o) = &mut self.observer {
                    o.on_success(id.as_str(), &resp);
                }
                Ok(resp.code)
            },
            Err(e) => {
                if let Some(o) = &mut self.observer {
                    let msg = e.message();
                    o.on_failure(id.as_str(), msg.as_str());
                }
                Err(e)
            },
        }
    }

    /// Render a one-slot template built around a raw prompt: the
    /// document `{{AI:gen}}` with the prompt configured on its slot.
    pub fn inject_raw(&mut self, prompt: &str) -> (r: Result<String>)
        ensures
            final(self).config == old(self).config,
            final(self).global_context == old(self).global_context,
            cache_exact_ok(*old(self)) ==> ({
                let content = "{{AI:gen}}"@;
                let base = crate::template::sp_parse_slots(
                    content,
                    crate::template::scan_markers(content, 0),
                    crate::template::scan_markers(content, 0).len() as int,
                );
                let slots = crate::template::upsert(
                    base,
                    "gen"@,
                    match crate::template::assoc(base, "gen"@) {
                        Option::Some(s) => SlotV { prompt: prompt@, ..s },
                        Option::None => crate::slot::fresh_slot("gen"@, prompt@),
                    },
                );
                let ctx = sp_engine_context(
                    old(self).config,
                    &old(self).global_context,
                    Option::<Seq<char>>::None,
                    old(self).validator is Some,
                );
                let ss = slots_sim(
                    old(self).provider,
                    old(self).validator,
                    cache_model(*old(self)),
                    slots,
                    ctx,
                    old(self).config.max_retries,
                    old(self).config.prompt_healing_feedback@,
                );
                &&& final(self).provider == ss.p
                &&& final(self).validator == ss.v
                &&& cache_model(*final(self)) == ss.cachem
                &&& cache_exact_ok(*final(self))
                &&& match ss.err {
                    Option::Some(e) => r is Err && err_matches(e, r->Err_0),
                    Option::None => match crate::template::sp_render(content, slots, ss.inj) {
                        core::result::Result::Ok(t) => r is Ok && (r->Ok_0)@ == t,
                        core::result::Result::Err(name) => r matches Err(
                            AetherError::SlotNotFound(nm),
                        ) && nm@ == name,
                    },
                }
            }),
    {
        let mut content = String::new();
        content.append("{{AI:gen}}");
        let template = Template::new(content).with_slot(
            copy_string("gen"),
            copy_string(prompt),
        );
        self.render(&template)
    }
}

// ------------------------------------------------------------------
// Laws of the healing loop
// ------------------------------------------------------------------

/// A backend that fails every call with a fixed message.
pub struct FailingProvider {
    /// The message every call fails with.
    pub message: String,
    /// How many generate calls were made (saturating).
    pub count: u64,
    /// The call count, in full precision.
    pub calls_seen: Ghost<nat>,
}

impl FailingProvider {
    /// A backend failing every call with `message`.
    pub fn new(message: String) -> (r: FailingProvider)
        ensures
            r.message@ == message@,
            r.calls() == 0,
            r.count == 0,
    {
        FailingProvider { message, count: 0, calls_seen: Ghost(0) }
    }
}

impl Provider for FailingProvider {
    open spec fn calls(&self) -> nat {
        self.calls_seen@
    }

    open spec fn next_result(&self, req: ReqV) -> crate::provider::GenOutcome {
        core::result::Result::Err(self.message@)
    }

    open spec fn next_tokens(&self, req: ReqV) -> Option<u32> {
        Option::None
    }

    open spec fn next_state(&self, req: ReqV) -> FailingProvider {
        FailingProvider {
            message: self.message,
            count: if self.count < 0xffff_ffff_ffff_ffff {
                (self.count + 1) as u64
            } else {
                self.count
            },
            calls_seen: Ghost(self.calls_seen@ + 1),
        }
    }

    fn name(&self) -> (r: &'static str) {
        "failing"
    }

    fn generate(&mut self, req: &GenerationRequest) -> (r: Result<GenerationResponse>) {
        proof {
            self.calls_seen@ = self.calls_seen@ + 1;
        }
        if self.count < 0xffff_ffff_ffff_ffff {
            self.count = self.count + 1;
        }
        Err(AetherError::ProviderError(copy_string(self.message.as_str())))
    }
}

/// Retry bound: a backend that fails every call is invoked exactly
/// `maxRetries + 1` times, and the loop then returns the terminal
/// backend failure.
pub proof fn lemma_retry_bound<V: Validator>(
    p: FailingProvider,
    vo: Option<V>,
    req: ReqV,
    maxr: u32,
    attempt: u32,
    prev: Option<Seq<char>>,
    fb: Seq<char>,
)
    requires
        attempt <= maxr,
    ensures
        ({
            let hs = heal_sim(p, vo, req, attempt, maxr, prev, fb);
            &&& hs.out == core::result::Result::<Seq<char>, EngErr>::Err(
                EngErr::Backend(p.message@),
            )
            &&& hs.p.calls() == p.calls() + (maxr - attempt) + 1
            &&& hs.p.message == p.message
            &&& hs.v == vo
            &&& hs.steps == Seq::<(u32, Seq<char>)>::empty()
        }),
    decreases maxr - attempt,
{
    reveal(heal_sim);
    let p2 = p.next_state(req);
    if attempt < maxr {
        lemma_retry_bound(p2, vo, req, maxr, (attempt + 1) as u32, prev, fb);
    }
}

/// Stuck-generation detection: a backend that answers twice with the
/// same text, under a validator that rejects the first answer, stops
/// after the second call with the stuck error, before the retry budget
/// is spent; the attempt count reflects only the attempts made.
pub proof fn lemma_stuck_detection(
    p: crate::provider::MockProvider,
    v: crate::validation::RejectingValidator,
    req: ReqV,
    maxr: u32,
    fb: Seq<char>,
)
    requires
        maxr >= 1,
    ensures
        ({
            let hs = heal_sim(p, Option::Some(v), req, 0, maxr, Option::<Seq<char>>::None, fb);
            &&& hs.out == core::result::Result::<Seq<char>, EngErr>::Err(
                EngErr::Exhausted { slot: req.slot.name, retries: 1, last: stuck_msg() },
            )
            &&& hs.p.calls() == p.calls() + 2
            &&& hs.steps == seq![(1u32, v.message@)]
        }),
{
    reveal(heal_sim);
    let code = crate::provider::mock_answer(
        crate::template::inj_view(p.responses@),
        req.slot.name,
    );
    let p2 = p.next_state(req);
    let req2 = with_prompt(req, feedback_prompt(req.slot.prompt, fb, v.message@));
    assert(p2.next_result(req2) == core::result::Result::<Seq<char>, Seq<char>>::Ok(code));
    let rec = heal_sim(p2, Option::Some(v), req2, 1, maxr, Option::Some(code), fb);
    assert(rec.steps == Seq::<(u32, Seq<char>)>::empty());
    assert(heal_sim(p, Option::Some(v), req, 0, maxr, Option::<Seq<char>>::None, fb) == (HealOut {
        p: rec.p,
        v: rec.v,
        out: rec.out,
        steps: seq![(shown_attempt(0), v.message@)] + rec.steps,
    }));
    assert(seq![(shown_attempt(0), v.message@)] + rec.steps =~= seq![(1u32, v.message@)]);
}


// ------------------------------------------------------------------
// The render session
// ------------------------------------------------------------------

use crate::hashing::{sp_slot_fp, fnv_opt_str, fnv_str_list};
use crate::slot::SlotKind;

/// Feed an optional string: presence flag, then the text.
fn write_opt_str(h: &mut StableHasher, o: &Option<String>)
    ensures
        final(h).state == fnv_opt_str(old(h).state, crate::slot::opt_view(*o)),
{
    match o {
        Some(s) => {
            h.write_u8(1);
            h.write_str(s.as_str());
        },
        None => {
            h.write_u8(0);
        },
    }
}

/// Feed a string list: each entry, then a separator.
fn write_str_list(h: &mut StableHasher, l: &Vec<String>)
    ensures
        final(h).state == fnv_str_list(old(h).state, l.deep_view()),
{
    let n: usize = l.len();
    let mut i: usize = 0;
    proof {
        assert(l.deep_view().subrange(0, n as int) =~= l.deep_view());
    }
    while i < n
        invariant
            i <= n,
            n == l@.len(),
            l.deep_view().len() == n,
            fnv_str_list(old(h).state, l.deep_view()) == fnv_str_list(
                h.state,
                l.deep_view().subrange(i as int, n as int),
            ),
        decreases n - i,
    {
        proof {
            let dv = l.deep_view();
            assert(dv.subrange(i as int, n as int).drop_first() =~= dv.subrange(i + 1, n as int));
            assert(dv.subrange(i as int, n as int)[0] == dv[i as int]);
            assert(dv[i as int] == l@[i as int]@);
        }
        h.write_str(l[i].as_str());
        h.write_sep();
        i = i + 1;
    }
    proof {
        assert(l.deep_view().subrange(n as int, n as int) =~= Seq::<Seq<char>>::empty());
    }
}

/// The stable fingerprint of a slot's full definition.
pub fn slot_fingerprint(slot: &Slot) -> (r: u64)
    ensures
        r == sp_slot_fp(slot@),
{
    let mut h = StableHasher::new();
    h.write_str(slot.name.as_str());
    h.write_sep();
    h.write_str(slot.prompt.as_str());
    h.write_sep();
    match &slot.kind {
        SlotKind::Raw => h.write_u8(1),
        SlotKind::Function => h.write_u8(2),
        SlotKind::Class => h.write_u8(3),
        SlotKind::Html => h.write_u8(4),
        SlotKind::Css => h.write_u8(5),
        SlotKind::JavaScript => h.write_u8(6),
        SlotKind::Component => h.write_u8(7),
        SlotKind::Custom(t) => {
            h.write_u8(8);
            h.write_str(t.as_str());
        },
    }
    match &slot.constraints {
        Some(c) => {
            h.write_u8(1);
            match c.max_lines {
                Some(m) => {
                    h.write_u8(1);
                    h.write_u32(m as u32);
                },
                None => {
                    h.write_u8(0);
                },
            }
            match c.max_chars {
                Some(m) => {
                    h.write_u8(1);
                    h.write_u32(m as u32);
                },
                None => {
                    h.write_u8(0);
                },
            }
            write_str_list(&mut h, &c.required_imports);
            h.write_sep();
            write_str_list(&mut h, &c.forbidden_patterns);
            h.write_sep();
            write_opt_str(&mut h, &c.language);
            write_opt_str(&mut h, &c.test_harness);
            write_opt_str(&mut h, &c.test_command);
        },
        None => {
            h.write_u8(0);
        },
    }
    h.write_u8(if slot.required {
        1
    } else {
        0
    });
    write_opt_str(&mut h, &slot.default);
    match slot.temperature {
        Some(t) => {
            h.write_u8(1);
            h.write_u32(t);
        },
        None => {
            h.write_u8(0);
        },
    }
    h.finish()
}

/// The stable fingerprint of the active context: a hash of its prompt
/// text.
pub open spec fn sp_ctx_fp(c: &InjectionContext) -> u64 {
    fnv_chars(FNV_OFFSET as u64, crate::context::sp_ctx_prompt(c))
}

/// A session of per-slot results across renders of the same template,
/// keyed by the stable fingerprints of the slot definition and the
/// active context.  Grows monotonically; the caller controls its
/// lifetime.
pub struct RenderSession {
    /// Stored results: (slot fingerprint, context fingerprint) to text.
    pub results: Vec<((u64, u64), String)>,
}

pub open spec fn sess_view(s: Seq<((u64, u64), String)>) -> Seq<((u64, u64), Seq<char>)>
    decreases s.len(),
{
    if s.len() == 0 {
        Seq::empty()
    } else {
        seq![(s[0].0, s[0].1@)] + sess_view(s.drop_first())
    }
}

/// First stored text for a key.
pub open spec fn sess_assoc(l: Seq<((u64, u64), Seq<char>)>, key: (u64, u64)) -> Option<Seq<char>>
    decreases l.len(),
{
    if l.len() == 0 {
        Option::None
    } else if l[0].0 == key {
        Option::Some(l[0].1)
    } else {
        sess_assoc(l.drop_first(), key)
    }
}

pub proof fn lemma_sess_view_push(s: Seq<((u64, u64), String)>, x: ((u64, u64), String))
    ensures
        sess_view(s.push(x)) == sess_view(s) + seq![(x.0, x.1@)],
    decreases s.len(),
{
    if s.len() == 0 {
        assert(s.push(x).drop_first() =~= Seq::<((u64, u64), String)>::empty());
        assert(sess_view(Seq::<((u64, u64), String)>::empty()) == Seq::<
            ((u64, u64), Seq<char>),
        >::empty());
        assert(s.push(x)[0] == x);
        assert(sess_view(s.push(x)) == seq![(s.push(x)[0].0, s.push(x)[0].1@)] + sess_view(
            s.push(x).drop_first(),
        ));
        assert(sess_view(s) == Seq::<((u64, u64), Seq<char>)>::empty());
        assert(sess_view(s.push(x)) =~= sess_view(s) + seq![(x.0, x.1@)]);
    } else {
        lemma_sess_view_push(s.drop_first(), x);
        assert(s.push(x).drop_first() =~= s.drop_first().push(x));
        assert(s.push(x)[0] == s[0]);
        assert(sess_view(s) == seq![(s[0].0, s[0].1@)] + sess_view(s.drop_first()));
        assert(sess_view(s.push(x)) == seq![(s[0].0, s[0].1@)] + sess_view(
            s.push(x).drop_first(),
        ));
        assert(sess_view(s.push(x)) =~= sess_view(s) + seq![(x.0, x.1@)]);
    }
}

impl RenderSession {
    /// An empty session.
    pub fn new() -> (r: RenderSession)
        ensures
            sess_view(r.results@) == Seq::<((u64, u64), Seq<char>)>::empty(),
    {
        let r = RenderSession { results: Vec::new() };
        proof {
            assert(sess_view(r.results@) =~= Seq::<((u64, u64), Seq<char>)>::empty());
        }
        r
    }

    /// First stored text for a key, copied out.
    fn lookup(&self, key: (u64, u64)) -> (r: Option<String>)
        ensures
            match sess_assoc(sess_view(self.results@), key) {
                Option::Some(v) => r is Some && (r->0)@ == v,
                Option::None => r is None,
            },
    {
        let n: usize = self.results.len();
        proof {
            lemma_sess_view_len(self.results@);
            assert(self.results@.subrange(0, n as int) =~= self.results@);
        }
        let mut i: usize = 0;
        while i < n
            invariant
                i <= n,
                n == self.results@.len(),
                sess_assoc(sess_view(self.results@.subrange(i as int, n as int)), key)
                    == sess_assoc(sess_view(self.results@), key),
            decreases n - i,
        {
            proof {
                let suf = self.results@.subrange(i as int, n as int);
                assert(suf.drop_first() =~= self.results@.subrange(i + 1, n as int));
                assert(suf[0] == self.results@[i as int]);
                assert(sess_view(suf) == seq![(suf[0].0, suf[0].1@)] + sess_view(
                    suf.drop_first(),
                ));
                lemma_sess_view_len(suf);
            }
            if self.results[i].0.0 == key.0 && self.results[i].0.1 == key.1 {
                proof {
                    let suf = self.results@.subrange(i as int, n as int);
                    assert(sess_view(suf)[0] == (suf[0].0, suf[0].1@));
                    assert(suf[0].0 == key);
                    assert(sess_assoc(sess_view(suf), key) == Option::Some(suf[0].1@));
                }
                return Some(copy_string(self.results[i].1.as_str()));
            }
            proof {
                let suf = self.results@.subrange(i as int, n as int);
                assert(sess_view(suf)[0] == (suf[0].0, suf[0].1@));
                assert(suf[0].0 != key);
                assert(sess_view(suf).drop_first() =~= sess_view(suf.drop_first()));
                assert(sess_assoc(sess_view(suf), key) == sess_assoc(
                    sess_view(suf.drop_first()),
                    key,
                ));
                assert(sess_view(suf.drop_first()) == sess_view(
                    self.results@.subrange(i + 1, n as int),
                ));
            }
            i = i + 1;
        }
        proof {
            assert(self.results@.subrange(n as int, n as int) =~= Seq::<
                ((u64, u64), String),
            >::empty());
            assert(sess_view(Seq::<((u64, u64), String)>::empty()) == Seq::<
                ((u64, u64), Seq<char>),
            >::empty());
        }
        None
    }
}

pub proof fn lemma_sess_view_len(s: Seq<((u64, u64), String)>)
    ensures
        sess_view(s).len() == s.len(),
    decreases s.len(),
{
    if s.len() > 0 {
        lemma_sess_view_len(s.drop_first());
        assert(sess_view(s) == seq![(s[0].0, s[0].1@)] + sess_view(s.drop_first()));
    } else {
        assert(sess_view(s).len() == 0);
    }
}

/// What an incremental render leaves behind.
pub struct IncOut<P, V> {
    pub p: P,
    pub v: Option<V>,
    pub inj: Seq<(Seq<char>, Seq<char>)>,
    pub sess: Seq<((u64, u64), Seq<char>)>,
    pub cachem: Option<Map<Seq<char>, Seq<char>>>,
    pub err: Option<EngErr>,
}

/// Slots processed in order against a session: a stored fingerprint
/// pair reuses the stored text without touching the backend; a missing
/// one generates — through the cache and the healing loop — and stores
/// the result under its fingerprints.
#[verifier::opaque]
pub open spec fn incr_sim<P: Provider, V: Validator>(
    p: P,
    vo: Option<V>,
    cm: Option<Map<Seq<char>, Seq<char>>>,
    slots: Seq<(Seq<char>, SlotV)>,
    ctx: Seq<char>,
    ctx_fp: u64,
    sess: Seq<((u64, u64), Seq<char>)>,
    maxr: u32,
    fb: Seq<char>,
) -> IncOut<P, V>
    decreases slots.len(),
{
    if slots.len() == 0 {
        IncOut { p: p, v: vo, inj: Seq::empty(), sess: sess, cachem: cm, err: Option::None }
    } else {
        let key = (sp_slot_fp(slots[0].1), ctx_fp);
        match sess_assoc(sess, key) {
            Option::Some(text) => {
                let rest = incr_sim(p, vo, cm, slots.drop_first(), ctx, ctx_fp, sess, maxr, fb);
                IncOut {
                    p: rest.p,
                    v: rest.v,
                    inj: seq![(slots[0].0, text)] + rest.inj,
                    sess: rest.sess,
                    cachem: rest.cachem,
                    err: rest.err,
                }
            },
            Option::None => {
                let ckey = sp_cache_key(sp_request(slots[0].1, ctx));
                if cm is Some && cm->0.contains_key(ckey) {
                    let code = cm->0[ckey];
                    let sess2 = sess.push((key, code));
                    let rest = incr_sim(
                        p,
                        vo,
                        cm,
                        slots.drop_first(),
                        ctx,
                        ctx_fp,
                        sess2,
                        maxr,
                        fb,
                    );
                    IncOut {
                        p: rest.p,
                        v: rest.v,
                        inj: seq![(slots[0].0, code)] + rest.inj,
                        sess: rest.sess,
                        cachem: rest.cachem,
                        err: rest.err,
                    }
                } else {
                    let hs = heal_sim(
                        p,
                        vo,
                        sp_request(slots[0].1, ctx),
                        0,
                        maxr,
                        Option::<Seq<char>>::None,
                        fb,
                    );
                    match hs.out {
                        core::result::Result::Ok(code) => {
                            let sess2 = sess.push((key, code));
                            let cm2 = match cm {
                                Option::Some(m) => Option::Some(m.insert(ckey, code)),
                                Option::None => Option::<Map<Seq<char>, Seq<char>>>::None,
                            };
                            let rest = incr_sim(
                                hs.p,
                                hs.v,
                                cm2,
                                slots.drop_first(),
                                ctx,
                                ctx_fp,
                                sess2,
                                maxr,
                                fb,
                            );
                            IncOut {
                                p: rest.p,
                                v: rest.v,
                                inj: seq![(slots[0].0, code)] + rest.inj,
                                sess: rest.sess,
                                cachem: rest.cachem,
                                err: rest.err,
                            }
                        },
                        core::result::Result::Err(e) => IncOut {
                            p: hs.p,
                            v: hs.v,
                            inj: Seq::empty(),
                            sess: sess,
                            cachem: cm,
                            err: Option::Some(e),
                        },
                    }
                }
            },
        }
    }
}

/// A session holding every slot's fingerprint answers the whole render
/// from the store: the backend and validator are left untouched, and
/// each slot's text is the stored one.
pub proof fn lemma_incremental_reuse<P: Provider, V: Validator>(
    p: P,
    vo: Option<V>,
    cm: Option<Map<Seq<char>, Seq<char>>>,
    slots: Seq<(Seq<char>, SlotV)>,
    ctx: Seq<char>,
    ctx_fp: u64,
    sess: Seq<((u64, u64), Seq<char>)>,
    maxr: u32,
    fb: Seq<char>,
)
    requires
        forall|t: int|
            0 <= t < slots.len() ==> sess_assoc(
                sess,
                ((sp_slot_fp(#[trigger] slots[t].1), ctx_fp)),
            ) is Some,
    ensures
        ({
            let io = incr_sim(p, vo, cm, slots, ctx, ctx_fp, sess, maxr, fb);
            &&& io.p == p
            &&& io.v == vo
            &&& io.sess == sess
            &&& io.cachem == cm
            &&& io.err is None
            &&& io.inj.len() == slots.len()
            &&& forall|t: int|
                0 <= t < slots.len() ==> #[trigger] io.inj[t] == (
                    slots[t].0,
                    sess_assoc(sess, ((sp_slot_fp(slots[t].1), ctx_fp)))->0,
                )
        }),
    decreases slots.len(),
{
    reveal(incr_sim);
    if slots.len() > 0 {
        assert(forall|t: int|
            0 <= t < slots.drop_first().len() ==> #[trigger] slots.drop_first()[t] == slots[t
                + 1]);
        lemma_incremental_reuse(p, vo, cm, slots.drop_first(), ctx, ctx_fp, sess, maxr, fb);
    }
}


proof fn lemma_incr_nil<P: Provider, V: Validator>(
    p: P,
    vo: Option<V>,
    cm: Option<Map<Seq<char>, Seq<char>>>,
    ctx: Seq<char>,
    ctx_fp: u64,
    sess: Seq<((u64, u64), Seq<char>)>,
    maxr: u32,
    fb: Seq<char>,
)
    ensures
        incr_sim(p, vo, cm, Seq::<(Seq<char>, SlotV)>::empty(), ctx, ctx_fp, sess, maxr, fb)
            == (IncOut {
            p: p,
            v: vo,
            inj: Seq::<(Seq<char>, Seq<char>)>::empty(),
            sess: sess,
            cachem: cm,
            err: Option::<EngErr>::None,
        }),
{
    reveal(incr_sim);
}

proof fn lemma_incr_step<P: Provider, V: Validator>(
    p: P,
    vo: Option<V>,
    cm: Option<Map<Seq<char>, Seq<char>>>,
    slots: Seq<(Seq<char>, SlotV)>,
    ctx: Seq<char>,
    ctx_fp: u64,
    sess: Seq<((u64, u64), Seq<char>)>,
    maxr: u32,
    fb: Seq<char>,
)
    requires
        slots.len() > 0,
    ensures
        ({
            let key = (sp_slot_fp(slots[0].1), ctx_fp);
            let ckey = sp_cache_key(sp_request(slots[0].1, ctx));
            let hs = heal_sim(
                p,
                vo,
                sp_request(slots[0].1, ctx),
                0,
                maxr,
                Option::<Seq<char>>::None,
                fb,
            );
            incr_sim(p, vo, cm, slots, ctx, ctx_fp, sess, maxr, fb) == match sess_assoc(
                sess,
                key,
            ) {
                Option::Some(text) => {
                    let rest = incr_sim(
                        p,
                        vo,
                        cm,
                        slots.drop_first(),
                        ctx,
                        ctx_fp,
                        sess,
                        maxr,
                        fb,
                    );
                    IncOut {
                        p: rest.p,
                        v: rest.v,
                        inj: seq![(slots[0].0, text)] + rest.inj,
                        sess: rest.sess,
                        cachem: rest.cachem,
                        err: rest.err,
                    }
                },
                Option::None => {
                    if cm is Some && cm->0.contains_key(ckey) {
                        let code = cm->0[ckey];
                        let rest = incr_sim(
                            p,
                            vo,
                            cm,
                            slots.drop_first(),
                            ctx,
                            ctx_fp,
                            sess.push((key, code)),
                            maxr,
                            fb,
                        );
                        IncOut {
                            p: rest.p,
                            v: rest.v,
                            inj: seq![(slots[0].0, code)] + rest.inj,
                            sess: rest.sess,
                            cachem: rest.cachem,
                            err: rest.err,
                        }
                    } else {
                        match hs.out {
                            core::result::Result::Ok(code) => {
                                let cm2 = match cm {
                                    Option::Some(m) => Option::Some(m.insert(ckey, code)),
                                    Option::None => Option::<Map<Seq<char>, Seq<char>>>::None,
                                };
                                let rest = incr_sim(
                                    hs.p,
                                    hs.v,
                                    cm2,
                                    slots.drop_first(),
                                    ctx,
                                    ctx_fp,
                                    sess.push((key, code)),
                                    maxr,
                                    fb,
                                );
                                IncOut {
                                    p: rest.p,
                                    v: rest.v,
                                    inj: seq![(slots[0].0, code)] + rest.inj,
                                    sess: rest.sess,
                                    cachem: rest.cachem,
                                    err: rest.err,
                                }
                            },
                            core::result::Result::Err(e) => IncOut {
                                p: hs.p,
                                v: hs.v,
                                inj: Seq::<(Seq<char>, Seq<char>)>::empty(),
                                sess: sess,
                                cachem: cm,
                                err: Option::Some(e),
                            },
                        }
                    }
                },
            }
        }),
{
    reveal(incr_sim);
}

proof fn lemma_inc_inv_sess_hit<P: Provider, V: Validator>(
    p0: P,
    v0: Option<V>,
    cm0: Option<Map<Seq<char>, Seq<char>>>,
    sess0: Seq<((u64, u64), Seq<char>)>,
    all: Seq<(Seq<char>, SlotV)>,
    ctx: Seq<char>,
    cfp: u64,
    maxr: u32,
    fb: Seq<char>,
    i: int,
    pre_p: P,
    pre_v: Option<V>,
    pre_cm: Option<Map<Seq<char>, Seq<char>>>,
    pre_sess: Seq<((u64, u64), Seq<char>)>,
    inj0: Seq<(Seq<char>, Seq<char>)>,
)
    requires
        0 <= i < all.len(),
        ({
            let full = incr_sim(p0, v0, cm0, all, ctx, cfp, sess0, maxr, fb);
            let rest = incr_sim(
                pre_p,
                pre_v,
                pre_cm,
                all.subrange(i, all.len() as int),
                ctx,
                cfp,
                pre_sess,
                maxr,
                fb,
            );
            full == (IncOut {
                p: rest.p,
                v: rest.v,
                inj: inj0 + rest.inj,
                sess: rest.sess,
                cachem: rest.cachem,
                err: rest.err,
            })
        }),
        sess_assoc(pre_sess, ((sp_slot_fp(all[i].1), cfp))) is Some,
    ensures
        ({
            let full = incr_sim(p0, v0, cm0, all, ctx, cfp, sess0, maxr, fb);
            let text = sess_assoc(pre_sess, ((sp_slot_fp(all[i].1), cfp)))->0;
            let rest2 = incr_sim(
                pre_p,
                pre_v,
                pre_cm,
                all.subrange(i + 1, all.len() as int),
                ctx,
                cfp,
                pre_sess,
                maxr,
                fb,
            );
            full == (IncOut {
                p: rest2.p,
                v: rest2.v,
                inj: (inj0 + seq![(all[i].0, text)]) + rest2.inj,
                sess: rest2.sess,
                cachem: rest2.cachem,
                err: rest2.err,
            })
        }),
{
    let suf = all.subrange(i, all.len() as int);
    lemma_incr_step(pre_p, pre_v, pre_cm, suf, ctx, cfp, pre_sess, maxr, fb);
    assert(suf[0] == all[i]);
    assert(suf.drop_first() =~= all.subrange(i + 1, all.len() as int));
    let text = sess_assoc(pre_sess, ((sp_slot_fp(all[i].1), cfp)))->0;
    let rest2 = incr_sim(
        pre_p,
        pre_v,
        pre_cm,
        all.subrange(i + 1, all.len() as int),
        ctx,
        cfp,
        pre_sess,
        maxr,
        fb,
    );
    assert(inj0 + (seq![(all[i].0, text)] + rest2.inj) =~= (inj0 + seq![(all[i].0, text)])
        + rest2.inj);
}

proof fn lemma_inc_inv_cache_hit<P: Provider, V: Validator>(
    p0: P,
    v0: Option<V>,
    cm0: Option<Map<Seq<char>, Seq<char>>>,
    sess0: Seq<((u64, u64), Seq<char>)>,
    all: Seq<(Seq<char>, SlotV)>,
    ctx: Seq<char>,
    cfp: u64,
    maxr: u32,
    fb: Seq<char>,
    i: int,
    pre_p: P,
    pre_v: Option<V>,
    pre_cm: Option<Map<Seq<char>, Seq<char>>>,
    pre_sess: Seq<((u64, u64), Seq<char>)>,
    inj0: Seq<(Seq<char>, Seq<char>)>,
)
    requires
        0 <= i < all.len(),
        ({
            let full = incr_sim(p0, v0, cm0, all, ctx, cfp, sess0, maxr, fb);
            let rest = incr_sim(
                pre_p,
                pre_v,
                pre_cm,
                all.subrange(i, all.len() as int),
                ctx,
                cfp,
                pre_sess,
                maxr,
                fb,
            );
            full == (IncOut {
                p: rest.p,
                v: rest.v,
                inj: inj0 + rest.inj,
                sess: rest.sess,
                cachem: rest.cachem,
                err: rest.err,
            })
        }),
        sess_assoc(pre_sess, ((sp_slot_fp(all[i].1), cfp))) is None,
        pre_cm is Some,
        pre_cm->0.contains_key(sp_cache_key(sp_request(all[i].1, ctx))),
    ensures
        ({
            let full = incr_sim(p0, v0, cm0, all, ctx, cfp, sess0, maxr, fb);
            let key = (sp_slot_fp(all[i].1), cfp);
            let code = pre_cm->0[sp_cache_key(sp_request(all[i].1, ctx))];
            let rest2 = incr_sim(
                pre_p,
                pre_v,
                pre_cm,
                all.subrange(i + 1, all.len() as int),
                ctx,
                cfp,
                pre_sess.push((key, code)),
                maxr,
                fb,
            );
            full == (IncOut {
                p: rest2.p,
                v: rest2.v,
                inj: (inj0 + seq![(all[i].0, code)]) + rest2.inj,
                sess: rest2.sess,
                cachem: rest2.cachem,
                err: rest2.err,
            })
        }),
{
    let suf = all.subrange(i, all.len() as int);
    lemma_incr_step(pre_p, pre_v, pre_cm, suf, ctx, cfp, pre_sess, maxr, fb);
    assert(suf[0] == all[i]);
    assert(suf.drop_first() =~= all.subrange(i + 1, all.len() as int));
    let key = (sp_slot_fp(all[i].1), cfp);
    let code = pre_cm->0[sp_cache_key(sp_request(all[i].1, ctx))];
    let rest2 = incr_sim(
        pre_p,
        pre_v,
        pre_cm,
        all.subrange(i + 1, all.len() as int),
        ctx,
        cfp,
        pre_sess.push((key, code)),
        maxr,
        fb,
    );
    assert(inj0 + (seq![(all[i].0, code)] + rest2.inj) =~= (inj0 + seq![(all[i].0, code)])
        + rest2.inj);
}

proof fn lemma_inc_inv_heal_ok<P: Provider, V: Validator>(
    p0: P,
    v0: Option<V>,
    cm0: Option<Map<Seq<char>, Seq<char>>>,
    sess0: Seq<((u64, u64), Seq<char>)>,
    all: Seq<(Seq<char>, SlotV)>,
    ctx: Seq<char>,
    cfp: u64,
    maxr: u32,
    fb: Seq<char>,
    i: int,
    pre_p: P,
    pre_v: Option<V>,
    pre_cm: Option<Map<Seq<char>, Seq<char>>>,
    pre_sess: Seq<((u64, u64), Seq<char>)>,
    inj0: Seq<(Seq<char>, Seq<char>)>,
    code: Seq<char>,
)
    requires
        0 <= i < all.len(),
        ({
            let full = incr_sim(p0, v0, cm0, all, ctx, cfp, sess0, maxr, fb);
            let rest = incr_sim(
                pre_p,
                pre_v,
                pre_cm,
                all.subrange(i, all.len() as int),
                ctx,
                cfp,
                pre_sess,
                maxr,
                fb,
            );
            full == (IncOut {
                p: rest.p,
                v: rest.v,
                inj: inj0 + rest.inj,
                sess: rest.sess,
                cachem: rest.cachem,
                err: rest.err,
            })
        }),
        sess_assoc(pre_sess, ((sp_slot_fp(all[i].1), cfp))) is None,
        !(pre_cm is Some && pre_cm->0.contains_key(sp_cache_key(sp_request(all[i].1, ctx)))),
        heal_sim(
            pre_p,
            pre_v,
            sp_request(all[i].1, ctx),
            0,
            maxr,
            Option::<Seq<char>>::None,
            fb,
        ).out == core::result::Result::<Seq<char>, EngErr>::Ok(code),
    ensures
        ({
            let full = incr_sim(p0, v0, cm0, all, ctx, cfp, sess0, maxr, fb);
            let key = (sp_slot_fp(all[i].1), cfp);
            let ckey = sp_cache_key(sp_request(all[i].1, ctx));
            let hs = heal_sim(
                pre_p,
                pre_v,
                sp_request(all[i].1, ctx),
                0,
                maxr,
                Option::<Seq<char>>::None,
                fb,
            );
            let cm2 = match pre_cm {
                Option::Some(m) => Option::Some(m.insert(ckey, code)),
                Option::None => Option::<Map<Seq<char>, Seq<char>>>::None,
            };
            let rest2 = incr_sim(
                hs.p,
                hs.v,
                cm2,
                all.subrange(i + 1, all.len() as int),
                ctx,
                cfp,
                pre_sess.push((key, code)),
                maxr,
                fb,
            );
            full == (IncOut {
                p: rest2.p,
                v: rest2.v,
                inj: (inj0 + seq![(all[i].0, code)]) + rest2.inj,
                sess: rest2.sess,
                cachem: rest2.cachem,
                err: rest2.err,
            })
        }),
{
    let suf = all.subrange(i, all.len() as int);
    lemma_incr_step(pre_p, pre_v, pre_cm, suf, ctx, cfp, pre_sess, maxr, fb);
    assert(suf[0] == all[i]);
    assert(suf.drop_first() =~= all.subrange(i + 1, all.len() as int));
    let key = (sp_slot_fp(all[i].1), cfp);
    let ckey = sp_cache_key(sp_request(all[i].1, ctx));
    let hs = heal_sim(
        pre_p,
        pre_v,
        sp_request(all[i].1, ctx),
        0,
        maxr,
        Option::<Seq<char>>::None,
        fb,
    );
    let cm2 = match pre_cm {
        Option::Some(m) => Option::Some(m.insert(ckey, code)),
        Option::None => Option::<Map<Seq<char>, Seq<char>>>::None,
    };
    let rest2 = incr_sim(
        hs.p,
        hs.v,
        cm2,
        all.subrange(i + 1, all.len() as int),
        ctx,
        cfp,
        pre_sess.push((key, code)),
        maxr,
        fb,
    );
    assert(inj0 + (seq![(all[i].0, code)] + rest2.inj) =~= (inj0 + seq![(all[i].0, code)])
        + rest2.inj);
}

proof fn lemma_inc_inv_err<P: Provider, V: Validator>(
    p0: P,
    v0: Option<V>,
    cm0: Option<Map<Seq<char>, Seq<char>>>,
    sess0: Seq<((u64, u64), Seq<char>)>,
    all: Seq<(Seq<char>, SlotV)>,
    ctx: Seq<char>,
    cfp: u64,
    maxr: u32,
    fb: Seq<char>,
    i: int,
    pre_p: P,
    pre_v: Option<V>,
    pre_cm: Option<Map<Seq<char>, Seq<char>>>,
    pre_sess: Seq<((u64, u64), Seq<char>)>,
    inj0: Seq<(Seq<char>, Seq<char>)>,
)
    requires
        0 <= i < all.len(),
        ({
            let full = incr_sim(p0, v0, cm0, all, ctx, cfp, sess0, maxr, fb);
            let rest = incr_sim(
                pre_p,
                pre_v,
                pre_cm,
                all.subrange(i, all.len() as int),
                ctx,
                cfp,
                pre_sess,
                maxr,
                fb,
            );
            full == (IncOut {
                p: rest.p,
                v: rest.v,
                inj: inj0 + rest.inj,
                sess: rest.sess,
                cachem: rest.cachem,
                err: rest.err,
            })
        }),
        sess_assoc(pre_sess, ((sp_slot_fp(all[i].1), cfp))) is None,
        !(pre_cm is Some && pre_cm->0.contains_key(sp_cache_key(sp_request(all[i].1, ctx)))),
        heal_sim(
            pre_p,
            pre_v,
            sp_request(all[i].1, ctx),
            0,
            maxr,
            Option::<Seq<char>>::None,
            fb,
        ).out is Err,
    ensures
        ({
            let full = incr_sim(p0, v0, cm0, all, ctx, cfp, sess0, maxr, fb);
            let hs = heal_sim(
                pre_p,
                pre_v,
                sp_request(all[i].1, ctx),
                0,
                maxr,
                Option::<Seq<char>>::None,
                fb,
            );
            &&& full.p == hs.p
            &&& full.v == hs.v
            &&& full.sess == pre_sess
            &&& full.cachem == pre_cm
            &&& full.err == Option::Some(hs.out->Err_0)
        }),
{
    let suf = all.subrange(i, all.len() as int);
    lemma_incr_step(pre_p, pre_v, pre_cm, suf, ctx, cfp, pre_sess, maxr, fb);
    assert(suf[0] == all[i]);
    assert(suf.drop_first() =~= all.subrange(i + 1, all.len() as int));
}

impl<P: Provider, V: Validator, C: Cache, O: Observer> InjectionEngine<P, V, C, O> {
    /// Render a template incrementally: a slot whose definition and
    /// context fingerprints are already in the session reuses the
    /// stored text without calling the backend; the others generate and
    /// are stored under their fingerprints before assembly.
    #[verifier::rlimit(100)]
    pub fn render_incremental(&mut self, template: &Template, session: &mut RenderSession) -> (r:
        Result<String>)
        ensures
            final(self).config == old(self).config,
            final(self).global_context == old(self).global_context,
            cache_exact_ok(*old(self)) ==> ({
                let ctx = crate::context::sp_ctx_prompt(&old(self).global_context);
                let io = incr_sim(
                    old(self).provider,
                    old(self).validator,
                    cache_model(*old(self)),
                    crate::template::slots_view(template.slots@),
                    ctx,
                    sp_ctx_fp(&old(self).global_context),
                    sess_view(old(session).results@),
                    old(self).config.max_retries,
                    old(self).config.prompt_healing_feedback@,
                );
                &&& final(self).provider == io.p
                &&& final(self).validator == io.v
                &&& sess_view(final(session).results@) == io.sess
                &&& cache_model(*final(self)) == io.cachem
                &&& cache_exact_ok(*final(self))
                &&& match io.err {
                    Option::Some(e) => r is Err && err_matches(e, r->Err_0),
                    Option::None => match crate::template::sp_render(
                        template.content@,
                        crate::template::slots_view(template.slots@),
                        io.inj,
                    ) {
                        core::result::Result::Ok(t) => r is Ok && (r->Ok_0)@ == t,
                        core::result::Result::Err(name) => r matches Err(
                            AetherError::SlotNotFound(nm),
                        ) && nm@ == name,
                    },
                }
            }),
    {
        let ctx_str = self.global_context.to_prompt();
        let ctx_fp: u64 = {
            let mut h = StableHasher::new();
            h.write_str(ctx_str.as_str());
            h.finish()
        };
        let ghost ctx = crate::context::sp_ctx_prompt(&old(self).global_context);
        let ghost cfp = sp_ctx_fp(&old(self).global_context);
        let ghost all = crate::template::slots_view(template.slots@);
        let ghost sess0 = sess_view(old(session).results@);
        proof {
            crate::template::lemma_slots_view_len(template.slots@);
            assert(all.subrange(0, all.len() as int) =~= all);
        }
        let mut injections: Vec<(String, String)> = Vec::new();
        let n: usize = template.slots.len();
        let mut i: usize = 0;
        proof {
            assert(crate::template::inj_view(injections@) =~= Seq::<(Seq<char>, Seq<char>)>::empty());
        }
        while i < n
            invariant
                i <= n,
                n == template.slots@.len(),
                all == crate::template::slots_view(template.slots@),
                all.len() == n,
                self.config == old(self).config,
                self.global_context == old(self).global_context,
                ctx_str@ == ctx,
                ctx_fp == cfp,
                ctx == crate::context::sp_ctx_prompt(&old(self).global_context),
                cfp == sp_ctx_fp(&old(self).global_context),
                sess0 == sess_view(old(session).results@),
                old(self).cache is None ==> self.cache is None,
                self.cache is Some <==> old(self).cache is Some,
                cache_exact_ok(*old(self)) ==> cache_exact_ok(*self),
                cache_exact_ok(*old(self)) ==> ({
                    let full = incr_sim(
                        old(self).provider,
                        old(self).validator,
                        cache_model(*old(self)),
                        all,
                        ctx,
                        cfp,
                        sess0,
                        old(self).config.max_retries,
                        old(self).config.prompt_healing_feedback@,
                    );
                    let rest = incr_sim(
                        self.provider,
                        self.validator,
                        cache_model(*self),
                        all.subrange(i as int, n as int),
                        ctx,
                        cfp,
                        sess_view(session.results@),
                        old(self).config.max_retries,
                        old(self).config.prompt_healing_feedback@,
                    );
                    full == (IncOut {
                        p: rest.p,
                        v: rest.v,
                        inj: crate::template::inj_view(injections@) + rest.inj,
                        sess: rest.sess,
                        cachem: rest.cachem,
                        err: rest.err,
                    })
                }),
            decreases n - i,
        {
            proof {
                crate::template::lemma_slots_view_index(template.slots@, i as int);
            }
            let sfp: u64 = slot_fingerprint(&template.slots[i].1);
            let key: (u64, u64) = (sfp, ctx_fp);
            let ghost pre_p = self.provider;
            let ghost pre_v = self.validator;
            let ghost pre_cm = cache_model(*self);
            let ghost pre_cache_state = self.cache;
            let ghost pre_sess = sess_view(session.results@);
            match session.lookup(key) {
                Some(text) => {
                    proof {
                        if cache_exact_ok(*old(self)) {
                            lemma_inc_inv_sess_hit(
                                old(self).provider,
                                old(self).validator,
                                cache_model(*old(self)),
                                sess0,
                                all,
                                ctx,
                                cfp,
                                old(self).config.max_retries,
                                old(self).config.prompt_healing_feedback@,
                                i as int,
                                pre_p,
                                pre_v,
                                pre_cm,
                                pre_sess,
                                crate::template::inj_view(injections@),
                            );
                        }
                    }
                    let ghost inj_pre = injections@;
                    injections.push((copy_string(template.slots[i].0.as_str()), text));
                    proof {
                        crate::provider::lemma_inj_view_push(
                            inj_pre,
                            (injections@.last().0, injections@.last().1),
                        );
                        if cache_exact_ok(*old(self)) {
                            assert(crate::template::inj_view(injections@)
                                =~= crate::template::inj_view(inj_pre) + seq![
                                (all[i as int].0, injections@.last().1@),
                            ]);
                        }
                    }
                    i = i + 1;
                },
                None => {
                    let code = match self.generate_slot_text(template, i) {
                        Ok(c) => c,
                        Err(e) => {
                            proof {
                                if cache_exact_ok(*old(self)) {
                                    let ckey = sp_cache_key(sp_request(all[i as int].1, ctx));
                                    assert(!(pre_cm is Some && pre_cm->0.contains_key(ckey)));
                                    lemma_inc_inv_err(
                                        old(self).provider,
                                        old(self).validator,
                                        cache_model(*old(self)),
                                        sess0,
                                        all,
                                        ctx,
                                        cfp,
                                        old(self).config.max_retries,
                                        old(self).config.prompt_healing_feedback@,
                                        i as int,
                                        pre_p,
                                        pre_v,
                                        pre_cm,
                                        pre_sess,
                                        crate::template::inj_view(injections@),
                                    );
                                }
                            }
                            return Err(e);
                        },
                    };
                    proof {
                        if cache_exact_ok(*old(self)) {
                            let ckey = sp_cache_key(sp_request(all[i as int].1, ctx));
                            if pre_cache_state is Some && pre_cache_state->0.lookup(
                                ckey,
                            ) is Some {
                                assert(pre_cm is Some && pre_cm->0.contains_key(ckey));
                                assert(code@ == pre_cm->0[ckey]);
                                lemma_inc_inv_cache_hit(
                                    old(self).provider,
                                    old(self).validator,
                                    cache_model(*old(self)),
                                    sess0,
                                    all,
                                    ctx,
                                    cfp,
                                    old(self).config.max_retries,
                                    old(self).config.prompt_healing_feedback@,
                                    i as int,
                                    pre_p,
                                    pre_v,
                                    pre_cm,
                                    pre_sess,
                                    crate::template::inj_view(injections@),
                                );
                            } else {
                                assert(!(pre_cm is Some && pre_cm->0.contains_key(ckey)));
                                lemma_inc_inv_heal_ok(
                                    old(self).provider,
                                    old(self).validator,
                                    cache_model(*old(self)),
                                    sess0,
                                    all,
                                    ctx,
                                    cfp,
                                    old(self).config.max_retries,
                                    old(self).config.prompt_healing_feedback@,
                                    i as int,
                                    pre_p,
                                    pre_v,
                                    pre_cm,
                                    pre_sess,
                                    crate::template::inj_view(injections@),
                                    code@,
                                );
                            }
                        }
                    }
                    let ghost sess_pre = session.results@;
                    session.results.push((key, copy_string(code.as_str())));
                    proof {
                        lemma_sess_view_push(
                            sess_pre,
                            (key, session.results@.last().1),
                        );
                        assert(sess_view(session.results@) =~= pre_sess.push((key, code@)));
                    }
                    let ghost inj_pre = injections@;
                    injections.push((copy_string(template.slots[i].0.as_str()), code));
                    proof {
                        crate::provider::lemma_inj_view_push(
                            inj_pre,
                            (injections@.last().0, injections@.last().1),
                        );
                        if cache_exact_ok(*old(self)) {
                            assert(crate::template::inj_view(injections@)
                                =~= crate::template::inj_view(inj_pre) + seq![
                                (all[i as int].0, injections@.last().1@),
                            ]);
                        }
                    }
                    i = i + 1;
                },
            }
        }
        proof {
            if cache_exact_ok(*old(self)) {
                assert(all.subrange(n as int, n as int) =~= Seq::<(Seq<char>, SlotV)>::empty());
                lemma_incr_nil(
                    self.provider,
                    self.validator,
                    cache_model(*self),
                    ctx,
                    cfp,
                    sess_view(session.results@),
                    old(self).config.max_retries,
                    old(self).config.prompt_healing_feedback@,
                );
                assert(crate::template::inj_view(injections@) + Seq::<(Seq<char>, Seq<char>)>::empty()
                    =~= crate::template::inj_view(injections@));
            }
        }
        template.render(&injections)
    }

    /// Generate one slot's text against the plain global context, with
    /// observer notifications.
    fn generate_slot_text(&mut self, template: &Template, i: usize) -> (r: Result<String>)
        requires
            i < template.slots@.len(),
        ensures
            final(self).config == old(self).config,
            final(self).global_context == old(self).global_context,
            old(self).cache is None ==> final(self).cache is None,
            ({
                let req = sp_request(
                    crate::template::slots_view(template.slots@)[i as int].1,
                    crate::context::sp_ctx_prompt(&old(self).global_context),
                );
                let key = sp_cache_key(req);
                let hs = heal_sim(
                    old(self).provider,
                    old(self).validator,
                    req,
                    0,
                    old(self).config.max_retries,
                    Option::<Seq<char>>::None,
                    old(self).config.prompt_healing_feedback@,
                );
                match old(self).cache {
                    Option::None => {
                        &&& final(self).provider == hs.p
                        &&& final(self).validator == hs.v
                        &&& match hs.out {
                            core::result::Result::Ok(code) => r is Ok && (r->Ok_0)@ == code,
                            core::result::Result::Err(e) => r is Err && err_matches(e, r->Err_0),
                        }
                    },
                    Option::Some(c0) => match c0.lookup(key) {
                        Option::Some(hit) => {
                            &&& r is Ok
                            &&& (r->Ok_0)@ == hit
                            &&& final(self).provider == old(self).provider
                            &&& final(self).validator == old(self).validator
                            &&& final(self).cache == old(self).cache
                            &&& (c0.lookup_is_exact() ==> c0.contents().contains_key(key)
                                && c0.contents()[key] == hit)
                        },
                        Option::None => {
                            &&& (c0.lookup_is_exact() ==> !c0.contents().contains_key(key))
                            &&& final(self).provider == hs.p
                            &&& final(self).validator == hs.v
                            &&& match hs.out {
                                core::result::Result::Ok(code) => {
                                    &&& r is Ok
                                    &&& (r->Ok_0)@ == code
                                    &&& final(self).cache is Some
                                    &&& final(self).cache->0.contents() == c0.contents().insert(
                                        key,
                                        code,
                                    )
                                    &&& (c0.lookup_is_exact()
                                        ==> final(self).cache->0.lookup_is_exact())
                                },
                                core::result::Result::Err(e) => {
                                    &&& r is Err
                                    &&& err_matches(e, r->Err_0)
                                    &&& final(self).cache == old(self).cache
                                },
                            }
                        },
                    },
                }
            }),
    {
        proof {
            crate::template::lemma_slots_view_index(template.slots@, i as int);
        }
        let ctx = self.global_context.to_prompt();
        let req = GenerationRequest {
            slot: crate::template::copy_slot(&template.slots[i].1),
            context: Some(ctx),
            system_prompt: None,
            model: None,
            max_tokens: None,
        };
        let id = new_request_id();
        if let Some(o) = &mut self.observer {
            o.on_start(id.as_str(), template.name.as_str(), template.slots[i].0.as_str(), &req);
        }
        match self.heal_one(req, id.as_str()) {
            Ok(resp) => {
                if let Some(o) = &mut self.observer {
                    o.on_success(id.as_str(), &resp);
                }
                Ok(resp.code)
            },
            Err(e) => {
                if let Some(o) = &mut self.observer {
                    let msg = e.message();
                    o.on_failure(id.as_str(), msg.as_str());
                }
                Err(e)
            },
        }
    }
}


proof fn lemma_sess_assoc_push(
    sess: Seq<((u64, u64), Seq<char>)>,
    x: ((u64, u64), Seq<char>),
    k: (u64, u64),
)
    requires
        sess_assoc(sess, k) is Some,
    ensures
        sess_assoc(sess.push(x), k) == sess_assoc(sess, k),
    decreases sess.len(),
{
    assert(sess.push(x)[0] == sess[0]);
    assert(sess.push(x).drop_first() =~= sess.drop_first().push(x));
    if sess[0].0 != k {
        lemma_sess_assoc_push(sess.drop_first(), x, k);
    }
}

/// Healing in two attempts: a backend whose first answer fails
/// validation and whose different second answer passes ends with the
/// second answer as the result, two backend calls, and exactly one
/// healing step, carrying attempt number one and the first diagnostic.
pub proof fn lemma_second_attempt_heals(
    p: crate::provider::ScriptedProvider,
    v: crate::validation::ScriptedValidator,
    req: ReqV,
    maxr: u32,
    fb: Seq<char>,
)
    requires
        maxr >= 1,
        p.pos == 0,
        p.script@.len() >= 2,
        p.script.deep_view()[0] != p.script.deep_view()[1],
        v.pos == 0,
        v.script@.len() >= 2,
        v.script@[0] is Invalid,
        v.script@[1] is Valid,
    ensures
        ({
            let hs = heal_sim(p, Option::Some(v), req, 0, maxr, Option::<Seq<char>>::None, fb);
            &&& hs.out == core::result::Result::<Seq<char>, EngErr>::Ok(p.script.deep_view()[1])
            &&& hs.p.calls() == p.calls() + 2
            &&& hs.steps == seq![(1u32, (v.script@[0]->Invalid_0)@)]
        }),
{
    reveal(heal_sim);
    let dv = p.script.deep_view();
    assert(dv.len() == p.script@.len());
    let s0 = dv[0];
    let s1 = dv[1];
    let m0 = (v.script@[0]->Invalid_0)@;
    let p2 = p.next_state(req);
    let v3 = v.fmt_step(req.slot.kind, s0).verdict_step(req.slot, s0);
    let req2 = with_prompt(req, feedback_prompt(req.slot.prompt, fb, m0));
    assert(p.next_result(req) == core::result::Result::<Seq<char>, Seq<char>>::Ok(s0));
    assert(v.verdict(req.slot, s0) == crate::validation::VSim::Fail(m0));
    assert(p2.pos == 1 && p2.script == p.script);
    assert(p2.next_result(req2) == core::result::Result::<Seq<char>, Seq<char>>::Ok(s1));
    assert(v3.pos == 1 && v3.script == v.script);
    let rec = heal_sim(p2, Option::Some(v3), req2, 1, maxr, Option::Some(s0), fb);
    assert(v3.verdict(req2.slot, s1) == crate::validation::VSim::Pass);
    assert(rec == (HealOut {
        p: p2.next_state(req2),
        v: Option::Some(v3.fmt_step(req2.slot.kind, s1).verdict_step(req2.slot, s1)),
        out: core::result::Result::<Seq<char>, EngErr>::Ok(s1),
        steps: Seq::<(u32, Seq<char>)>::empty(),
    }));
    assert(heal_sim(p, Option::Some(v), req, 0, maxr, Option::<Seq<char>>::None, fb) == (HealOut {
        p: rec.p,
        v: rec.v,
        out: rec.out,
        steps: seq![(shown_attempt(0), m0)] + rec.steps,
    }));
    assert(seq![(shown_attempt(0), m0)] + rec.steps =~= seq![(1u32, m0)]);
}
/// The healing loop without a validator, on a backend that answers:
/// one call, the answer accepted.
proof fn lemma_heal_once<P: Provider, V: Validator>(p: P, req: ReqV, maxr: u32, fb: Seq<char>)
    requires
        p.next_result(req) is Ok,
    ensures
        heal_sim(p, Option::<V>::None, req, 0, maxr, Option::<Seq<char>>::None, fb) == (HealOut {
            p: p.next_state(req),
            v: Option::<V>::None,
            out: core::result::Result::<Seq<char>, EngErr>::Ok(p.next_result(req)->Ok_0),
            steps: Seq::empty(),
        }),
{
    reveal(heal_sim);
}

/// Incremental render after one change: when the session already holds
/// every slot's fingerprint but one, no validator is set, and the
/// cache (if any) does not hold the changed slot's key, the backend
/// answers exactly that one request — the final backend state is one
/// step from the initial one — while every other slot's text comes
/// from the session unchanged, and the session and cache gain exactly
/// the new entry.
#[verifier::rlimit(100)]
#[verifier::spinoff_prover]
pub proof fn lemma_incremental_one_change<P: Provider, V: Validator>(
    p: P,
    cm: Option<Map<Seq<char>, Seq<char>>>,
    slots: Seq<(Seq<char>, SlotV)>,
    ctx: Seq<char>,
    ctx_fp: u64,
    sess: Seq<((u64, u64), Seq<char>)>,
    maxr: u32,
    fb: Seq<char>,
    j: int,
)
    requires
        0 <= j < slots.len(),
        forall|t: int|
            0 <= t < slots.len() && t != j ==> sess_assoc(
                sess,
                ((sp_slot_fp(#[trigger] slots[t].1), ctx_fp)),
            ) is Some,
        sess_assoc(sess, ((sp_slot_fp(slots[j].1), ctx_fp))) is None,
        !(cm is Some && cm->0.contains_key(sp_cache_key(sp_request(slots[j].1, ctx)))),
        p.next_result(sp_request(slots[j].1, ctx)) is Ok,
    ensures
        ({
            let io = incr_sim(
                p,
                Option::<V>::None,
                cm,
                slots,
                ctx,
                ctx_fp,
                sess,
                maxr,
                fb,
            );
            let req = sp_request(slots[j].1, ctx);
            let code = p.next_result(req)->Ok_0;
            &&& io.p == p.next_state(req)
            &&& io.v == Option::<V>::None
            &&& io.err is None
            &&& io.sess == sess.push((((sp_slot_fp(slots[j].1), ctx_fp)), code))
            &&& io.cachem == match cm {
                Option::Some(m) => Option::Some(m.insert(sp_cache_key(req), code)),
                Option::None => Option::<Map<Seq<char>, Seq<char>>>::None,
            }
            &&& io.inj.len() == slots.len()
            &&& io.inj[j] == (slots[j].0, code)
            &&& forall|t: int|
                0 <= t < slots.len() && t != j ==> #[trigger] io.inj[t] == (
                    slots[t].0,
                    sess_assoc(sess, ((sp_slot_fp(slots[t].1), ctx_fp)))->0,
                )
        }),
    decreases j,
{
    lemma_incr_step(p, Option::<V>::None, cm, slots, ctx, ctx_fp, sess, maxr, fb);
    let req = sp_request(slots[j].1, ctx);
    let code = p.next_result(req)->Ok_0;
    assert(forall|t: int|
        0 <= t < slots.drop_first().len() ==> #[trigger] slots.drop_first()[t] == slots[t + 1]);
    if j == 0 {
        lemma_heal_once::<P, V>(p, req, maxr, fb);
        let hs = heal_sim(p, Option::<V>::None, req, 0, maxr, Option::<Seq<char>>::None, fb);
        assert(hs.out == core::result::Result::<Seq<char>, EngErr>::Ok(code));
        assert(hs.p == p.next_state(req));
        let key = (sp_slot_fp(slots[0].1), ctx_fp);
        let sess2 = sess.push((key, code));
        let cm2 = match cm {
            Option::Some(m) => Option::Some(m.insert(sp_cache_key(req), code)),
            Option::None => Option::<Map<Seq<char>, Seq<char>>>::None,
        };
        assert forall|t: int| 0 <= t < slots.drop_first().len() implies sess_assoc(
            sess2,
            ((sp_slot_fp(#[trigger] slots.drop_first()[t].1), ctx_fp)),
        ) is Some by {
            lemma_sess_assoc_push(
                sess,
                (key, code),
                (sp_slot_fp(slots.drop_first()[t].1), ctx_fp),
            );
        }
        lemma_incremental_reuse::<P, V>(
            hs.p,
            Option::<V>::None,
            cm2,
            slots.drop_first(),
            ctx,
            ctx_fp,
            sess2,
            maxr,
            fb,
        );
        let io = incr_sim(
            p,
            Option::<V>::None,
            cm,
            slots,
            ctx,
            ctx_fp,
            sess,
            maxr,
            fb,
        );
        assert forall|t: int| 0 <= t < slots.len() && t != 0 implies #[trigger] io.inj[t] == (
            slots[t].0,
            sess_assoc(sess, ((sp_slot_fp(slots[t].1), ctx_fp)))->0,
        ) by {
            lemma_sess_assoc_push(sess, (key, code), (sp_slot_fp(slots[t].1), ctx_fp));
        }
    } else {
        lemma_incremental_one_change::<P, V>(
            p,
            cm,
            slots.drop_first(),
            ctx,
            ctx_fp,
            sess,
            maxr,
            fb,
            j - 1,
        );
    }
}

} // verus!
