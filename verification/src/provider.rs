//! The generation backend interface: requests, responses, the provider
//! trait, and a scripted in-memory provider.

use vstd::prelude::*;
use crate::slot::{Slot, SlotV, opt_view};
use crate::error::{AetherError, Result};
use crate::template::{assoc, inj_view, lemma_inj_view_len, copy_string};
use crate::text::to_chars;

verus! {

/// A request crossing into the backend: the slot, optional serialized
/// context, and optional per-request overrides.
#[derive(Debug)]
pub struct GenerationRequest {
    /// The slot to generate text for.
    pub slot: Slot,
    /// Additional serialized context.
    pub context: Option<String>,
    /// System-prompt override.
    pub system_prompt: Option<String>,
    /// Model override.
    pub model: Option<String>,
    /// Token-limit override.
    pub max_tokens: Option<u32>,
}

/// The model of a request.
pub struct ReqV {
    pub slot: SlotV,
    pub context: Option<Seq<char>>,
    pub system_prompt: Option<Seq<char>>,
    pub model: Option<Seq<char>>,
    pub max_tokens: Option<u32>,
}

impl View for GenerationRequest {
    type V = ReqV;

    open spec fn view(&self) -> ReqV {
        ReqV {
            slot: self.slot@,
            context: opt_view(self.context),
            system_prompt: opt_view(self.system_prompt),
            model: opt_view(self.model),
            max_tokens: self.max_tokens,
        }
    }
}

/// A response from the backend: generated text, optional token usage,
/// and optional opaque metadata.
#[derive(Debug)]
pub struct GenerationResponse {
    /// The generated text.
    pub code: String,
    /// Tokens used for the request.
    pub tokens_used: Option<u32>,
    /// Response metadata; a cache hit is tagged here.
    pub metadata: Option<String>,
}

/// The outcome a provider's model assigns to a call: generated text, or
/// an error message.
pub type GenOutcome = core::result::Result<Seq<char>, Seq<char>>;

/// A generation backend: a deterministic state machine whose next
/// answer and next state are functions of the current state and the
/// request.  A backend whose answers depend on the world models that
/// dependence in its state.
pub trait Provider: Sized {
    /// How many calls this backend has answered.
    spec fn calls(&self) -> nat;

    /// The answer the next call gets in this state.
    spec fn next_result(&self, req: ReqV) -> GenOutcome;

    /// The token usage the next successful call reports.
    spec fn next_tokens(&self, req: ReqV) -> Option<u32>;

    /// The state after answering the next call.
    spec fn next_state(&self, req: ReqV) -> Self;

    /// The backend's name.
    fn name(&self) -> (r: &'static str);

    /// Answer one generation request.
    fn generate(&mut self, req: &GenerationRequest) -> (r: Result<GenerationResponse>)
        ensures
            *final(self) == old(self).next_state(req@),
            final(self).calls() == old(self).calls() + 1,
            match old(self).next_result(req@) {
                core::result::Result::Ok(code) => r is Ok && (r->Ok_0).code@ == code && (
                r->Ok_0).tokens_used == old(self).next_tokens(req@) && (r->Ok_0).metadata is None,
                core::result::Result::Err(m) => r matches Err(AetherError::ProviderError(e))
                    && e@ == m,
            },
    ;

    /// Whether the backend is reachable and configured; by default it
    /// is assumed to be.
    fn health_check(&mut self) -> (r: bool) {
        true
    }

    /// Wait before the next retry, for backends that need pacing.  A
    /// pause changes nothing the model sees; by default it is a no-op.
    fn pause(&mut self, ms: u64)
        ensures
            *final(self) == *old(self),
    {
    }
}

/// A scripted provider for tests and dry runs: each slot name maps to a
/// fixed response; unknown names get a placeholder comment.
pub struct MockProvider {
    /// Responses, keyed by slot name.
    pub responses: Vec<(String, String)>,
    /// How many generate calls were made (saturating).
    pub count: u64,
    /// The call count, in full precision.
    pub calls_seen: Ghost<nat>,
}

/// What the scripted provider answers for a slot name.
pub open spec fn mock_answer(responses: Seq<(Seq<char>, Seq<char>)>, name: Seq<char>) -> Seq<
    char,
> {
    match assoc(responses, name) {
        Option::Some(code) => code,
        Option::None => "// Generated code for: "@ + name,
    }
}

impl MockProvider {
    /// Create a new scripted provider with no responses.
    pub fn new() -> (r: MockProvider)
        ensures
            inj_view(r.responses@) == Seq::<(Seq<char>, Seq<char>)>::empty(),
            r.calls() == 0,
            r.count == 0,
    {
        let r = MockProvider { responses: Vec::new(), count: 0, calls_seen: Ghost(0) };
        proof {
            assert(inj_view(r.responses@) =~= Seq::<(Seq<char>, Seq<char>)>::empty());
        }
        r
    }

    /// Add a scripted response for a slot name, overwriting any prior
    /// response for that name.
    pub fn with_response(self, slot: String, code: String) -> (r: MockProvider)
        ensures
            forall|q: Seq<char>|
                #[trigger] assoc(inj_view(r.responses@), q) == if q == slot@ {
                    Option::Some(code@)
                } else {
                    assoc(inj_view(self.responses@), q)
                },
            r.calls() == self.calls(),
            r.count == self.count,
    {
        let mut p = self;
        proof {
            lemma_inj_view_len(p.responses@);
        }
        let ghost lv0 = inj_view(p.responses@);
        let n: usize = p.responses.len();
        let mut i: usize = 0;
        while i < n
            invariant
                i <= n,
                n == p.responses@.len(),
                p.responses@ == self.responses@,
                p.count == self.count,
                p.calls_seen == self.calls_seen,
                lv0 == inj_view(p.responses@),
                lv0.len() == n,
                forall|t: int| 0 <= t < i ==> (#[trigger] lv0[t]).0 != slot@,
            decreases n - i,
        {
            proof {
                crate::cache::lemma_inj_view_index(p.responses@, i as int);
            }
            if crate::text::str_eq(p.responses[i].0.as_str(), slot.as_str()) {
                let k0 = copy_string(p.responses[i].0.as_str());
                let ghost pre = p.responses@;
                p.responses[i] = (k0, code);
                proof {
                    assert(p.responses@ == pre.update(i as int, (k0, code)));
                    crate::cache::lemma_inj_view_update(pre, i as int, (k0, code));
                    assert(inj_view(p.responses@) =~= lv0.update(i as int, (slot@, code@)));
                    assert forall|q: Seq<char>|
                        #[trigger] assoc(inj_view(p.responses@), q) == (if q == slot@ {
                            Option::Some(code@)
                        } else {
                            assoc(lv0, q)
                        }) by {
                        crate::cache::lemma_assoc_after_update(lv0, i as int, slot@, code@, q);
                    }
                }
                return p;
            }
            i = i + 1;
        }
        let ghost pre = p.responses@;
        p.responses.push((slot, code));
        proof {
            lemma_inj_view_push(pre, (slot, code));
            assert(inj_view(p.responses@) =~= lv0.push((slot@, code@)));
            assert forall|q: Seq<char>|
                #[trigger] assoc(inj_view(p.responses@), q) == (if q == slot@ {
                    Option::Some(code@)
                } else {
                    assoc(lv0, q)
                }) by {
                crate::cache::lemma_assoc_after_push(lv0, slot@, code@, q);
            }
        }
        p
    }
}

pub proof fn lemma_inj_view_push(s: Seq<(String, String)>, x: (String, String))
    ensures
        inj_view(s.push(x)) == inj_view(s) + seq![(x.0@, x.1@)],
    decreases s.len(),
{
    if s.len() == 0 {
        assert(s.push(x).drop_first() =~= Seq::<(String, String)>::empty());
        assert(inj_view(Seq::<(String, String)>::empty()) == Seq::<(Seq<char>, Seq<char>)>::empty());
        assert(s.push(x)[0] == x);
        assert(inj_view(s.push(x)) == seq![(s.push(x)[0].0@, s.push(x)[0].1@)] + inj_view(
            s.push(x).drop_first(),
        ));
        assert(inj_view(s) == Seq::<(Seq<char>, Seq<char>)>::empty());
        assert(inj_view(s.push(x)) =~= inj_view(s) + seq![(x.0@, x.1@)]);
    } else {
        lemma_inj_view_push(s.drop_first(), x);
        assert(s.push(x).drop_first() =~= s.drop_first().push(x));
        assert(s.push(x)[0] == s[0]);
        assert(inj_view(s) == seq![(s[0].0@, s[0].1@)] + inj_view(s.drop_first()));
        assert(inj_view(s.push(x)) == seq![(s[0].0@, s[0].1@)] + inj_view(s.push(x).drop_first()));
        assert(inj_view(s.push(x)) =~= inj_view(s) + seq![(x.0@, x.1@)]);
    }
}

impl Provider for MockProvider {
    open spec fn calls(&self) -> nat {
        self.calls_seen@
    }

    open spec fn next_result(&self, req: ReqV) -> GenOutcome {
        core::result::Result::Ok(mock_answer(inj_view(self.responses@), req.slot.name))
    }

    open spec fn next_tokens(&self, req: ReqV) -> Option<u32> {
        Option::Some(10u32)
    }

    open spec fn next_state(&self, req: ReqV) -> MockProvider {
        MockProvider {
            responses: self.responses,
            count: if self.count < 0xffff_ffff_ffff_ffff {
                (self.count + 1) as u64
            } else {
                self.count
            },
            calls_seen: Ghost(self.calls_seen@ + 1),
        }
    }

    fn name(&self) -> (r: &'static str) {
        "mock"
    }

    fn generate(&mut self, req: &GenerationRequest) -> (r: Result<GenerationResponse>) {
        proof {
            self.calls_seen@ = self.calls_seen@ + 1;
        }
        if self.count < 0xffff_ffff_ffff_ffff {
            self.count = self.count + 1;
        }
        let code: String = match lookup_response(&self.responses, self.slot_name_of(req)) {
            Some(c) => c,
            None => {
                let mut s = String::new();
                s.append("// Generated code for: ");
                s.append(req.slot.name.as_str());
                s
            },
        };
        Ok(GenerationResponse { code, tokens_used: Some(10), metadata: None })
    }
}

impl MockProvider {
    fn slot_name_of<'a>(&self, req: &'a GenerationRequest) -> (r: &'a str)
        ensures
            r@ == req.slot.name@,
    {
        req.slot.name.as_str()
    }
}

/// First scripted response for `name`, copied out.
fn lookup_response(responses: &Vec<(String, String)>, name: &str) -> (r: Option<String>)
    ensures
        match assoc(inj_view(responses@), name@) {
            Option::Some(v) => r is Some && (r->0)@ == v,
            Option::None => r is None,
        },
{
    proof {
        lemma_inj_view_len(responses@);
        assert(responses@.subrange(0, responses@.len() as int) =~= responses@);
    }
    let n: usize = responses.len();
    let mut i: usize = 0;
    while i < n
        invariant
            i <= n,
            n == responses@.len(),
            assoc(inj_view(responses@.subrange(i as int, n as int)), name@) == assoc(
                inj_view(responses@),
                name@,
            ),
        decreases n - i,
    {
        proof {
            let suf = responses@.subrange(i as int, n as int);
            assert(suf.drop_first() =~= responses@.subrange(i + 1, n as int));
            assert(suf[0] == responses@[i as int]);
            assert(inj_view(suf) == seq![(suf[0].0@, suf[0].1@)] + inj_view(suf.drop_first()));
            lemma_inj_view_len(suf);
        }
        if crate::text::str_eq(responses[i].0.as_str(), name) {
            proof {
                let suf = responses@.subrange(i as int, n as int);
                assert(inj_view(suf)[0] == (suf[0].0@, suf[0].1@));
                assert(assoc(inj_view(suf), name@) == Option::Some(suf[0].1@));
            }
            return Some(copy_string(responses[i].1.as_str()));
        }
        proof {
            let suf = responses@.subrange(i as int, n as int);
            assert(inj_view(suf)[0] == (suf[0].0@, suf[0].1@));
            assert(inj_view(suf)[0].0 != name@);
            assert(inj_view(suf).drop_first() =~= inj_view(suf.drop_first()));
            assert(assoc(inj_view(suf), name@) == assoc(inj_view(suf.drop_first()), name@));
            assert(inj_view(suf.drop_first()) == inj_view(responses@.subrange(i + 1, n as int)));
        }
        i = i + 1;
    }
    proof {
        assert(responses@.subrange(n as int, n as int) =~= Seq::<(String, String)>::empty());
        assert(inj_view(Seq::<(String, String)>::empty()) == Seq::<(Seq<char>, Seq<char>)>::empty());
    }
    None
}

// ------------------------------------------------------------------
// Response post-processing
// ------------------------------------------------------------------

pub open spec fn is_ws(c: char) -> bool {
    c == ' ' || c == '\t' || c == '\n' || c == '\r'
}

/// Leading whitespace count.
pub open spec fn ws_front(s: Seq<char>) -> int
    decreases s.len(),
{
    if s.len() == 0 {
        0
    } else if is_ws(s[0]) {
        1 + ws_front(s.drop_first())
    } else {
        0
    }
}

/// Trailing whitespace count.
pub open spec fn ws_back(s: Seq<char>) -> int
    decreases s.len(),
{
    if s.len() == 0 {
        0
    } else if is_ws(s.last()) {
        1 + ws_back(s.drop_last())
    } else {
        0
    }
}

/// The text with surrounding whitespace removed.
pub open spec fn sp_trim(s: Seq<char>) -> Seq<char> {
    if ws_front(s) == s.len() {
        Seq::empty()
    } else {
        s.subrange(ws_front(s), s.len() - ws_back(s))
    }
}

/// Index of the last `\n`, or -1.
pub open spec fn rfind_nl(s: Seq<char>) -> int
    decreases s.len(),
{
    if s.len() == 0 {
        -1
    } else if s.last() == '\n' {
        s.len() - 1
    } else {
        rfind_nl(s.drop_last())
    }
}

/// What `strip_code_blocks` returns: the trimmed text, with a single
/// surrounding code fence (and its language tag line) removed.
pub open spec fn sp_strip_fences(code: Seq<char>) -> Seq<char> {
    let t = sp_trim(code);
    if t.len() >= 6 && t[0] == '`' && t[1] == '`' && t[2] == '`' && t[t.len() - 1] == '`' && t[t.len()
        - 2] == '`' && t[t.len() - 3] == '`' && crate::toon::find_ch(t, '\n') < t.len() {
        let a = crate::toon::find_ch(t, '\n');
        let b = rfind_nl(t);
        if a < b {
            t.subrange(a + 1, b)
        } else {
            Seq::empty()
        }
    } else {
        t
    }
}

/// Strip a surrounding Markdown code fence from generated text: for a
/// fenced block, the lines between the fences; otherwise the trimmed
/// text itself.
pub fn strip_code_blocks(code: &str) -> (r: String)
    ensures
        r@ == sp_strip_fences(code@),
{
    let cs = to_chars(code);
    let n: usize = cs.len();
    // trim
    let mut a: usize = 0;
    while a < n && (cs[a] == ' ' || cs[a] == '\t' || cs[a] == '\n' || cs[a] == '\r')
        invariant
            a <= n,
            n == cs@.len(),
            forall|t: int| 0 <= t < a ==> is_ws(cs@[t]),
        decreases n - a,
    {
        a = a + 1;
    }
    proof {
        lemma_ws_front_loc(cs@, a as int);
    }
    if a == n {
        proof {
            assert(sp_trim(cs@) =~= Seq::<char>::empty());
        }
        return String::new();
    }
    let mut b: usize = n;
    while b > a && (cs[b - 1] == ' ' || cs[b - 1] == '\t' || cs[b - 1] == '\n' || cs[b - 1]
        == '\r')
        invariant
            a <= b <= n,
            n == cs@.len(),
            a < n,
            !is_ws(cs@[a as int]),
            forall|t: int| b <= t < n ==> is_ws(cs@[t]),
        decreases b,
    {
        b = b - 1;
    }
    proof {
        lemma_ws_back_loc(cs@, n - b);
        assert(b > a);
    }
    let t = crate::text::subchars(&cs, a, b);
    let ghost tv = sp_trim(cs@);
    proof {
        assert(t@ =~= tv);
    }
    let m: usize = t.len();
    let has_fences: bool = m >= 6 && t[0] == '`' && t[1] == '`' && t[2] == '`' && t[m - 1] == '`'
        && t[m - 2] == '`' && t[m - 3] == '`';
    if !has_fences {
        return crate::text::from_chars(&t);
    }
    // first newline
    let mut fa: usize = 0;
    while fa < m && t[fa] != '\n'
        invariant
            fa <= m,
            m == t@.len(),
            forall|u: int| 0 <= u < fa ==> t@[u] != '\n',
        decreases m - fa,
    {
        fa = fa + 1;
    }
    proof {
        crate::toon::lemma_find_ch_loc(t@, '\n', fa as int);
    }
    if fa == m {
        return crate::text::from_chars(&t);
    }
    // last newline
    let mut fb: usize = m;
    while fb > 0 && t[fb - 1] != '\n'
        invariant
            fb <= m,
            m == t@.len(),
            forall|u: int| fb <= u < m ==> t@[u] != '\n',
        decreases fb,
    {
        fb = fb - 1;
    }
    proof {
        assert(fb > 0) by {
            if fb == 0 {
                assert(t@[fa as int] == '\n');
            }
        }
        lemma_rfind_nl_loc(t@, fb as int - 1);
    }
    let last_nl: usize = fb - 1;
    if fa < last_nl {
        let mid = crate::text::subchars(&t, fa + 1, last_nl);
        crate::text::from_chars(&mid)
    } else {
        proof {
            assert(sp_strip_fences(cs@) =~= Seq::<char>::empty());
        }
        String::new()
    }
}

pub proof fn lemma_ws_front_loc(s: Seq<char>, k: int)
    requires
        0 <= k <= s.len(),
        forall|i: int| 0 <= i < k ==> is_ws(s[i]),
        k == s.len() || !is_ws(s[k]),
    ensures
        ws_front(s) == k,
    decreases k,
{
    if k > 0 {
        assert(forall|i: int| 0 <= i < s.drop_first().len() ==> s.drop_first()[i] == s[i + 1]);
        lemma_ws_front_loc(s.drop_first(), k - 1);
    }
}

pub proof fn lemma_ws_back_loc(s: Seq<char>, k: int)
    requires
        0 <= k <= s.len(),
        forall|i: int| s.len() - k <= i < s.len() ==> is_ws(s[i]),
        k == s.len() || !is_ws(s[s.len() - k - 1]),
    ensures
        ws_back(s) == k,
    decreases k,
{
    if k > 0 {
        assert(forall|i: int| 0 <= i < s.drop_last().len() ==> s.drop_last()[i] == s[i]);
        lemma_ws_back_loc(s.drop_last(), k - 1);
    }
}

pub proof fn lemma_rfind_nl_loc(s: Seq<char>, k: int)
    requires
        0 <= k < s.len(),
        s[k] == '\n',
        forall|i: int| k < i < s.len() ==> s[i] != '\n',
    ensures
        rfind_nl(s) == k,
    decreases s.len(),
{
    if k < s.len() - 1 {
        assert(forall|i: int| 0 <= i < s.drop_last().len() ==> s.drop_last()[i] == s[i]);
        lemma_rfind_nl_loc(s.drop_last(), k);
    }
}

// ------------------------------------------------------------------
// Provider configuration
// ------------------------------------------------------------------

/// Configuration for a concrete backend: credentials, model, limits.
#[derive(Debug)]
pub struct ProviderConfig {
    /// API key for authentication.
    pub api_key: String,
    /// Model identifier.
    pub model: String,
    /// Base URL for the service.
    pub base_url: Option<String>,
    /// Maximum tokens to generate.
    pub max_tokens: Option<u32>,
    /// Generation randomness, in thousandths (0 to 2000).
    pub temperature: Option<u32>,
    /// Request timeout in seconds.
    pub timeout_seconds: Option<u64>,
    /// Optional URL to fetch the API key from.
    pub api_key_url: Option<String>,
}

impl ProviderConfig {
    /// A new configuration with an API key and model.
    pub fn new(api_key: String, model: String) -> (r: ProviderConfig)
        ensures
            r.api_key@ == api_key@,
            r.model@ == model@,
            r.base_url is None,
            r.max_tokens is None,
            r.temperature is None,
            r.timeout_seconds is None,
            r.api_key_url is None,
    {
        ProviderConfig {
            api_key,
            model,
            base_url: None,
            max_tokens: None,
            temperature: None,
            timeout_seconds: None,
            api_key_url: None,
        }
    }

    /// Set an external URL to fetch the API key from.
    pub fn with_api_key_url(self, url: String) -> (r: ProviderConfig)
        ensures
            opt_view(r.api_key_url) == Option::Some(url@),
            r.api_key@ == self.api_key@,
            r.model@ == self.model@,
    {
        let mut c = self;
        c.api_key_url = Some(url);
        c
    }

    /// Set the base URL.
    pub fn with_base_url(self, url: String) -> (r: ProviderConfig)
        ensures
            opt_view(r.base_url) == Option::Some(url@),
            r.api_key@ == self.api_key@,
            r.model@ == self.model@,
    {
        let mut c = self;
        c.base_url = Some(url);
        c
    }

    /// Set the token limit.
    pub fn with_max_tokens(self, tokens: u32) -> (r: ProviderConfig)
        ensures
            r.max_tokens == Option::Some(tokens),
            r.api_key@ == self.api_key@,
            r.model@ == self.model@,
    {
        let mut c = self;
        c.max_tokens = Some(tokens);
        c
    }

    /// Set the generation randomness, in thousandths, clamped.
    pub fn with_temperature(self, temp: u32) -> (r: ProviderConfig)
        ensures
            r.temperature == Option::Some(if temp > 2000 {
                2000u32
            } else {
                temp
            }),
            r.api_key@ == self.api_key@,
            r.model@ == self.model@,
    {
        let mut c = self;
        c.temperature = Some(if temp > 2000 {
            2000
        } else {
            temp
        });
        c
    }

    /// Set the request timeout.
    pub fn with_timeout(self, seconds: u64) -> (r: ProviderConfig)
        ensures
            r.timeout_seconds == Option::Some(seconds),
            r.api_key@ == self.api_key@,
            r.model@ == self.model@,
    {
        let mut c = self;
        c.timeout_seconds = Some(seconds);
        c
    }
}


/// A provider that answers with a fixed sequence of texts, one per
/// call, repeating the last one when the script runs out.
pub struct ScriptedProvider {
    /// The scripted answers, in call order.
    pub script: Vec<String>,
    /// How many calls were answered (saturating).
    pub pos: usize,
    /// The call count, in full precision.
    pub calls_seen: Ghost<nat>,
}

pub open spec fn scripted_answer(script: Seq<Seq<char>>, pos: int) -> Seq<char> {
    if script.len() == 0 {
        "// scripted provider: empty script"@
    } else if 0 <= pos < script.len() {
        script[pos]
    } else {
        script[script.len() - 1]
    }
}

impl ScriptedProvider {
    /// A provider answering with `script`, in order.
    pub fn new(script: Vec<String>) -> (r: ScriptedProvider)
        ensures
            r.script@ == script@,
            r.pos == 0,
            r.calls() == 0,
    {
        ScriptedProvider { script, pos: 0, calls_seen: Ghost(0) }
    }
}

impl Provider for ScriptedProvider {
    open spec fn calls(&self) -> nat {
        self.calls_seen@
    }

    open spec fn next_result(&self, req: ReqV) -> GenOutcome {
        core::result::Result::Ok(scripted_answer(self.script.deep_view(), self.pos as int))
    }

    open spec fn next_tokens(&self, req: ReqV) -> Option<u32> {
        Option::Some(10u32)
    }

    open spec fn next_state(&self, req: ReqV) -> ScriptedProvider {
        ScriptedProvider {
            script: self.script,
            pos: if self.pos < usize::MAX {
                (self.pos + 1) as usize
            } else {
                self.pos
            },
            calls_seen: Ghost(self.calls_seen@ + 1),
        }
    }

    fn name(&self) -> (r: &'static str) {
        "scripted"
    }

    fn generate(&mut self, req: &GenerationRequest) -> (r: Result<GenerationResponse>) {
        proof {
            self.calls_seen@ = self.calls_seen@ + 1;
        }
        let code: String = if self.script.len() == 0 {
            let mut s = String::new();
            s.append("// scripted provider: empty script");
            s
        } else if self.pos < self.script.len() {
            copy_string(self.script[self.pos].as_str())
        } else {
            copy_string(self.script[self.script.len() - 1].as_str())
        };
        proof {
            let dv = self.script.deep_view();
            assert(dv.len() == self.script@.len());
            if self.script@.len() > 0 {
                if (self.pos as int) < dv.len() {
                    assert(dv[self.pos as int] == self.script@[self.pos as int]@);
                } else {
                    assert(dv[dv.len() - 1] == self.script@[self.script@.len() - 1]@);
                }
            }
        }
        if self.pos < usize::MAX {
            self.pos = self.pos + 1;
        }
        Ok(GenerationResponse { code, tokens_used: Some(10), metadata: None })
    }
}

} // verus!
