//! Slots: named injection points inside a template.

use vstd::prelude::*;
use crate::text::{nat_to_string, sp_nat_digits};

verus! {

/// The kind of a slot steers generation and validation.
#[derive(Debug, Clone, PartialEq, Eq, Hash)]
pub enum SlotKind {
    /// Raw code injection (no wrapper).
    Raw,
    /// Function definition.
    Function,
    /// Class or struct definition.
    Class,
    /// HTML element.
    Html,
    /// CSS styles.
    Css,
    /// JavaScript code.
    JavaScript,
    /// Complete component.
    Component,
    /// Custom kind with a user-defined tag.
    Custom(String),
}

/// The model of a slot kind.
pub enum KindV {
    Raw,
    Function,
    Class,
    Html,
    Css,
    JavaScript,
    Component,
    Custom(Seq<char>),
}

impl View for SlotKind {
    type V = KindV;

    open spec fn view(&self) -> KindV {
        match self {
            SlotKind::Raw => KindV::Raw,
            SlotKind::Function => KindV::Function,
            SlotKind::Class => KindV::Class,
            SlotKind::Html => KindV::Html,
            SlotKind::Css => KindV::Css,
            SlotKind::JavaScript => KindV::JavaScript,
            SlotKind::Component => KindV::Component,
            SlotKind::Custom(s) => KindV::Custom(s@),
        }
    }
}

impl SlotKind {
    /// The default kind: raw injection.
    pub fn raw() -> (r: SlotKind)
        ensures
            r@ == KindV::Raw,
    {
        SlotKind::Raw
    }
}

/// Constraints on generated code.
#[derive(Debug, Clone)]
pub struct SlotConstraints {
    /// Maximum lines of code.
    pub max_lines: Option<usize>,
    /// Maximum characters.
    pub max_chars: Option<usize>,
    /// Required imports or dependencies.
    pub required_imports: Vec<String>,
    /// Forbidden patterns (regular expressions).
    pub forbidden_patterns: Vec<String>,
    /// Language hint for code generation.
    pub language: Option<String>,
    /// Test harness: source text with a `{{CODE}}` placeholder into
    /// which generated code is substituted before the tests run.
    pub test_harness: Option<String>,
    /// Command that executes the test harness.
    pub test_command: Option<String>,
}

/// The model of a constraint set.
pub struct ConsV {
    pub max_lines: Option<usize>,
    pub max_chars: Option<usize>,
    pub required_imports: Seq<Seq<char>>,
    pub forbidden_patterns: Seq<Seq<char>>,
    pub language: Option<Seq<char>>,
    pub test_harness: Option<Seq<char>>,
    pub test_command: Option<Seq<char>>,
}

pub open spec fn opt_view(o: Option<String>) -> Option<Seq<char>> {
    match o {
        Option::Some(s) => Option::Some(s@),
        Option::None => Option::None,
    }
}

impl View for SlotConstraints {
    type V = ConsV;

    open spec fn view(&self) -> ConsV {
        ConsV {
            max_lines: self.max_lines,
            max_chars: self.max_chars,
            required_imports: self.required_imports.deep_view(),
            forbidden_patterns: self.forbidden_patterns.deep_view(),
            language: opt_view(self.language),
            test_harness: opt_view(self.test_harness),
            test_command: opt_view(self.test_command),
        }
    }
}

pub open spec fn empty_cons() -> ConsV {
    ConsV {
        max_lines: Option::None,
        max_chars: Option::None,
        required_imports: Seq::empty(),
        forbidden_patterns: Seq::empty(),
        language: Option::None,
        test_harness: Option::None,
        test_command: Option::None,
    }
}

impl SlotConstraints {
    /// Create a new empty constraint set.
    pub fn new() -> (r: SlotConstraints)
        ensures
            r@ == empty_cons(),
    {
        let r = SlotConstraints {
            max_lines: None,
            max_chars: None,
            required_imports: Vec::new(),
            forbidden_patterns: Vec::new(),
            language: None,
            test_harness: None,
            test_command: None,
        };
        proof {
            assert(r@.required_imports =~= Seq::<Seq<char>>::empty());
            assert(r@.forbidden_patterns =~= Seq::<Seq<char>>::empty());
        }
        r
    }

    /// Set maximum lines.
    pub fn max_lines(self, lines: usize) -> (r: SlotConstraints)
        ensures
            r@ == (ConsV { max_lines: Option::Some(lines), ..self@ }),
    {
        let mut s = self;
        s.max_lines = Some(lines);
        s
    }

    /// Set maximum characters.
    pub fn max_chars(self, chars: usize) -> (r: SlotConstraints)
        ensures
            r@ == (ConsV { max_chars: Option::Some(chars), ..self@ }),
    {
        let mut s = self;
        s.max_chars = Some(chars);
        s
    }

    /// Set the target language.
    pub fn language(self, lang: String) -> (r: SlotConstraints)
        ensures
            r@ == (ConsV { language: Option::Some(lang@), ..self@ }),
    {
        let mut s = self;
        s.language = Some(lang);
        s
    }

    /// Add a required import.
    pub fn require_import(self, import: String) -> (r: SlotConstraints)
        ensures
            r@ == (ConsV { required_imports: self@.required_imports.push(import@), ..self@ }),
    {
        let mut s = self;
        s.required_imports.push(import);
        proof {
            assert(s.required_imports.deep_view() =~= self.required_imports.deep_view().push(
                s.required_imports@.last()@,
            ));
        }
        s
    }

    /// Add a forbidden pattern.
    pub fn forbid_pattern(self, pattern: String) -> (r: SlotConstraints)
        ensures
            r@ == (ConsV { forbidden_patterns: self@.forbidden_patterns.push(pattern@), ..self@ }),
    {
        let mut s = self;
        s.forbidden_patterns.push(pattern);
        proof {
            assert(s.forbidden_patterns.deep_view() =~= self.forbidden_patterns.deep_view().push(
                s.forbidden_patterns@.last()@,
            ));
        }
        s
    }

    /// Set a test harness.
    pub fn test_harness(self, harness: String) -> (r: SlotConstraints)
        ensures
            r@ == (ConsV { test_harness: Option::Some(harness@), ..self@ }),
    {
        let mut s = self;
        s.test_harness = Some(harness);
        s
    }

    /// Set a test command.
    pub fn test_command(self, command: String) -> (r: SlotConstraints)
        ensures
            r@ == (ConsV { test_command: Option::Some(command@), ..self@ }),
    {
        let mut s = self;
        s.test_command = Some(command);
        s
    }
}

/// A named injection point: prompt, kind, constraints, and whether the
/// slot must be filled.
#[derive(Debug, Clone)]
pub struct Slot {
    /// Unique identifier within a template.
    pub name: String,
    /// The instruction for generating this slot's text.
    pub prompt: String,
    /// Kind of the slot.
    pub kind: SlotKind,
    /// Optional constraints on generated code.
    pub constraints: Option<SlotConstraints>,
    /// Whether this slot must be filled.
    pub required: bool,
    /// Default value used when the slot is optional and unfilled.
    pub default: Option<String>,
    /// Generation-randomness override, in thousandths (0 to 2000).
    pub temperature: Option<u32>,
}

/// The model of a slot.
pub struct SlotV {
    pub name: Seq<char>,
    pub prompt: Seq<char>,
    pub kind: KindV,
    pub constraints: Option<ConsV>,
    pub required: bool,
    pub default: Option<Seq<char>>,
    pub temperature: Option<u32>,
}

impl View for Slot {
    type V = SlotV;

    open spec fn view(&self) -> SlotV {
        SlotV {
            name: self.name@,
            prompt: self.prompt@,
            kind: self.kind@,
            constraints: match self.constraints {
                Option::Some(c) => Option::Some(c@),
                Option::None => Option::None,
            },
            required: self.required,
            default: opt_view(self.default),
            temperature: self.temperature,
        }
    }
}

/// The slot a fresh `Slot::new` builds: required, raw kind, nothing
/// else set.
pub open spec fn fresh_slot(name: Seq<char>, prompt: Seq<char>) -> SlotV {
    SlotV {
        name: name,
        prompt: prompt,
        kind: KindV::Raw,
        constraints: Option::None,
        required: true,
        default: Option::None,
        temperature: Option::None,
    }
}

// ------------------------------------------------------------------
// Constraint checking
// ------------------------------------------------------------------

/// Number of `\n` characters.
pub open spec fn nl_count(s: Seq<char>) -> nat
    decreases s.len(),
{
    if s.len() == 0 {
        0
    } else {
        nl_count(s.drop_last()) + if s.last() == '\n' {
            1nat
        } else {
            0nat
        }
    }
}

/// Number of lines, as an iterator over lines counts them: a trailing
/// newline opens no further line.
pub open spec fn line_count(s: Seq<char>) -> nat {
    if s.len() == 0 {
        0
    } else if s.last() == '\n' {
        nl_count(s)
    } else {
        nl_count(s) + 1
    }
}

/// Whether the regular-expression source compiles.  Relies on
/// `regex::Regex::new`: compilation depends on the pattern alone.
pub uninterp spec fn regex_valid(pattern: Seq<char>) -> bool;

/// Whether the pattern matches somewhere in the text.  Relies on
/// `regex::Regex::is_match`: the answer depends on the pattern and the
/// text alone.
pub uninterp spec fn regex_matches(pattern: Seq<char>, text: Seq<char>) -> bool;

/// Relies on `regex::Regex::new` and `regex::Regex::is_match`: compile
/// the pattern, then test the text; `None` when the pattern does not
/// compile.
#[verifier::external_body]
fn regex_is_match(pattern: &str, text: &str) -> (r: Option<bool>)
    ensures
        r is Some <==> regex_valid(pattern@),
        r is Some ==> r->0 == regex_matches(pattern@, text@),
{
    match regex::Regex::new(pattern) {
        Ok(re) => Some(re.is_match(text)),
        Err(_) => None,
    }
}

/// A violated forbidden pattern: one that compiles and matches.
pub open spec fn pattern_violated(p: Seq<char>, code: Seq<char>) -> bool {
    regex_valid(p) && regex_matches(p, code)
}

/// The diagnostic for an exceeded line limit.
pub open spec fn msg_max_lines(n: nat, max: nat) -> Seq<char> {
    "Code exceeds max lines: "@ + sp_nat_digits(n) + " > "@ + sp_nat_digits(max)
}

/// The diagnostic for an exceeded character limit.
pub open spec fn msg_max_chars(n: nat, max: nat) -> Seq<char> {
    "Code exceeds max chars: "@ + sp_nat_digits(n) + " > "@ + sp_nat_digits(max)
}

/// The diagnostic for a matched forbidden pattern.
pub open spec fn msg_pattern(p: Seq<char>) -> Seq<char> {
    "Code contains forbidden pattern: "@ + p
}

/// One diagnostic per violated forbidden pattern, in pattern order.
pub open spec fn pattern_msgs(ps: Seq<Seq<char>>, code: Seq<char>) -> Seq<Seq<char>>
    decreases ps.len(),
{
    if ps.len() == 0 {
        Seq::empty()
    } else {
        (if pattern_violated(ps[0], code) {
            seq![msg_pattern(ps[0])]
        } else {
            Seq::<Seq<char>>::empty()
        }) + pattern_msgs(ps.drop_first(), code)
    }
}

/// The diagnostics a validation of `code` against `slot` reports: one
/// per violated constraint, limits first, then patterns in order.
pub open spec fn sp_violations(slot: SlotV, code: Seq<char>) -> Seq<Seq<char>> {
    match slot.constraints {
        Option::None => Seq::empty(),
        Option::Some(c) => (if c.max_lines is Some && line_count(code) > c.max_lines->0 {
            seq![msg_max_lines(line_count(code), c.max_lines->0 as nat)]
        } else {
            Seq::<Seq<char>>::empty()
        }) + (if c.max_chars is Some && code.len() > c.max_chars->0 {
            seq![msg_max_chars(code.len(), c.max_chars->0 as nat)]
        } else {
            Seq::<Seq<char>>::empty()
        }) + pattern_msgs(c.forbidden_patterns, code),
    }
}

/// Whether `code` passes every constraint of the slot.
pub open spec fn slot_accepts(slot: SlotV, code: Seq<char>) -> bool {
    match slot.constraints {
        Option::None => true,
        Option::Some(c) => {
            &&& (c.max_lines is Some ==> line_count(code) <= c.max_lines->0)
            &&& (c.max_chars is Some ==> code.len() <= c.max_chars->0)
            &&& (forall|i: int|
                0 <= i < c.forbidden_patterns.len() ==> !pattern_violated(
                    #[trigger] c.forbidden_patterns[i],
                    code,
                ))
        },
    }
}

proof fn lemma_nl_count_le(s: Seq<char>)
    ensures
        nl_count(s) <= s.len(),
    decreases s.len(),
{
    if s.len() > 0 {
        lemma_nl_count_le(s.drop_last());
    }
}

fn count_lines_exec(code: &str) -> (r: usize)
    ensures
        r == line_count(code@),
{
    let cs = crate::text::to_chars(code);
    let n: usize = cs.len();
    if n == 0 {
        return 0;
    }
    let mut count: usize = 0;
    let mut i: usize = 0;
    while i < n
        invariant
            i <= n,
            n == code@.len(),
            cs@ == code@,
            count == nl_count(code@.subrange(0, i as int)),
            count <= i,
        decreases n - i,
    {
        proof {
            assert(code@.subrange(0, i + 1).drop_last() =~= code@.subrange(0, i as int));
            assert(code@.subrange(0, i + 1).last() == code@[i as int]);
        }
        if cs[i] == '\n' {
            count = count + 1;
        }
        i = i + 1;
    }
    proof {
        assert(code@.subrange(0, n as int) =~= code@);
    }
    if cs[n - 1] == '\n' {
        count
    } else {
        proof {
            assert(code@.last() != '\n');
            assert(nl_count(code@) == nl_count(code@.drop_last()));
            lemma_nl_count_le(code@.drop_last());
        }
        count + 1
    }
}

impl Slot {
    /// Create a new required slot with the given name and prompt.
    pub fn new(name: String, prompt: String) -> (r: Slot)
        ensures
            r@ == fresh_slot(name@, prompt@),
    {
        Slot {
            name,
            prompt,
            kind: SlotKind::Raw,
            constraints: None,
            required: true,
            default: None,
            temperature: None,
        }
    }

    /// Set a generation-randomness override, in thousandths, clamped to
    /// the accepted range.
    pub fn with_temperature(self, temp: u32) -> (r: Slot)
        ensures
            r@ == (SlotV {
                temperature: Option::Some(if temp > 2000 {
                    2000u32
                } else {
                    temp
                }),
                ..self@
            }),
    {
        let mut s = self;
        s.temperature = Some(if temp > 2000 {
            2000
        } else {
            temp
        });
        s
    }

    /// Set the slot kind.
    pub fn with_kind(self, kind: SlotKind) -> (r: Slot)
        ensures
            r@ == (SlotV { kind: kind@, ..self@ }),
    {
        let mut s = self;
        s.kind = kind;
        s
    }

    /// Set constraints on the generated code.
    pub fn with_constraints(self, constraints: SlotConstraints) -> (r: Slot)
        ensures
            r@ == (SlotV { constraints: Option::Some(constraints@), ..self@ }),
    {
        let mut s = self;
        s.constraints = Some(constraints);
        s
    }

    /// Mark this slot as optional with a default value.
    pub fn optional(self, default: String) -> (r: Slot)
        ensures
            r@ == (SlotV { required: false, default: Option::Some(default@), ..self@ }),
    {
        let mut s = self;
        s.required = false;
        s.default = Some(default);
        s
    }

    /// Check generated code against this slot's constraints: `Ok` when
    /// every limit holds and no forbidden pattern matches, else one
    /// diagnostic per violation.
    pub fn validate(&self, code: &str) -> (r: Result<(), Vec<String>>)
        ensures
            r is Ok <==> slot_accepts(self@, code@),
            r is Err ==> (r->Err_0).deep_view() == sp_violations(self@, code@),
    {
        let c = match &self.constraints {
            Some(c) => c,
            None => {
                return Ok(());
            },
        };
        let mut errors: Vec<String> = Vec::new();
        let ghost cv = c@;
        let ghost target = sp_violations(self@, code@);
        if let Some(max) = c.max_lines {
            let lines = count_lines_exec(code);
            if lines > max {
                let mut msg = String::new();
                msg.append("Code exceeds max lines: ");
                msg.append(nat_to_string(lines as u64).as_str());
                msg.append(" > ");
                msg.append(nat_to_string(max as u64).as_str());
                errors.push(msg);
            }
        }
        if let Some(max) = c.max_chars {
            let chars = code.unicode_len();
            if chars > max {
                let mut msg = String::new();
                msg.append("Code exceeds max chars: ");
                msg.append(nat_to_string(chars as u64).as_str());
                msg.append(" > ");
                msg.append(nat_to_string(max as u64).as_str());
                errors.push(msg);
            }
        }
        let ghost base_msgs = errors.deep_view();
        proof {
            assert(cv.forbidden_patterns.subrange(0, cv.forbidden_patterns.len() as int)
                =~= cv.forbidden_patterns);
        }
        let m: usize = c.forbidden_patterns.len();
        let mut i: usize = 0;
        let ghost base_violation = errors@.len() > 0;
        while i < m
            invariant
                i <= m,
                m == cv.forbidden_patterns.len(),
                c@ == cv,
                cv == c@,
                c.forbidden_patterns@.len() == m,
                forall|t: int|
                    0 <= t < m ==> cv.forbidden_patterns[t] == (
                    #[trigger] c.forbidden_patterns@[t])@,
                (errors@.len() > 0) == (base_violation || exists|t: int|
                    0 <= t < i && pattern_violated(#[trigger] cv.forbidden_patterns[t], code@)),
                base_msgs + pattern_msgs(cv.forbidden_patterns, code@) == errors.deep_view()
                    + pattern_msgs(
                    cv.forbidden_patterns.subrange(i as int, m as int),
                    code@,
                ),
            decreases m - i,
        {
            proof {
                let suf = cv.forbidden_patterns.subrange(i as int, m as int);
                assert(suf.drop_first() =~= cv.forbidden_patterns.subrange(i + 1, m as int));
                assert(suf[0] == cv.forbidden_patterns[i as int]);
            }
            match regex_is_match(c.forbidden_patterns[i].as_str(), code) {
                Some(true) => {
                    let mut msg = String::new();
                    msg.append("Code contains forbidden pattern: ");
                    msg.append(c.forbidden_patterns[i].as_str());
                    let ghost errs_pre = errors.deep_view();
                    errors.push(msg);
                    proof {
                        assert(pattern_violated(cv.forbidden_patterns[i as int], code@));
                        assert(errors.deep_view() =~= errs_pre + seq![
                            msg_pattern(cv.forbidden_patterns[i as int]),
                        ]);
                    }
                },
                _ => {
                },
            }
            i = i + 1;
            proof {
                assert(base_msgs + pattern_msgs(cv.forbidden_patterns, code@) =~= errors.deep_view()
                    + pattern_msgs(
                    cv.forbidden_patterns.subrange(i as int, m as int),
                    code@,
                ));
            }
        }
        proof {
            assert(cv.forbidden_patterns.subrange(m as int, m as int) =~= Seq::<Seq<char>>::empty());
            assert(pattern_msgs(Seq::<Seq<char>>::empty(), code@) == Seq::<Seq<char>>::empty());
            assert(base_msgs + pattern_msgs(cv.forbidden_patterns, code@) =~= errors.deep_view());
            assert(base_msgs + pattern_msgs(cv.forbidden_patterns, code@) =~= target);
            assert(errors.deep_view() =~= target);
        }
        if errors.len() == 0 {
            proof {
                assert(slot_accepts(self@, code@));
            }
            Ok(())
        } else {
            proof {
                assert(!slot_accepts(self@, code@));
            }
            Err(errors)
        }
    }
}

} // verus!
