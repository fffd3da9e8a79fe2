//! Validation of generated text: pass, or fail with a diagnostic.
//! Formatting is best effort and never fails the pipeline.

use vstd::prelude::*;
use crate::slot::{Slot, SlotKind, SlotV, KindV, slot_accepts};
use crate::error::{AetherError, Result};
use crate::template::copy_string;

verus! {

/// Result of a validation check.
#[derive(Debug, Clone)]
pub enum ValidationResult {
    /// Validation passed.
    Valid,
    /// Validation failed with a diagnostic.
    Invalid(String),
}

/// The model of what a validation attempt does: pass, fail with a
/// diagnostic, or break with an internal error that stops the run.
pub enum VSim {
    Pass,
    Fail(Seq<char>),
    Broke(Seq<char>),
}

/// A validator of generated text, modeled as a deterministic state
/// machine: formatting and validation answers are functions of the
/// current state, the slot and the text.
pub trait Validator: Sized {
    /// What formatting answers in this state: the reformatted text, or
    /// a failure (the caller then keeps the unformatted text).
    spec fn fmt_result(&self, kind: KindV, code: Seq<char>) -> core::result::Result<
        Seq<char>,
        Seq<char>,
    >;

    /// The state after one formatting call.
    spec fn fmt_step(&self, kind: KindV, code: Seq<char>) -> Self;

    /// What validation answers in this state.
    spec fn verdict(&self, slot: SlotV, code: Seq<char>) -> VSim;

    /// The state after one validation call.
    spec fn verdict_step(&self, slot: SlotV, code: Seq<char>) -> Self;

    /// Reformat the text, best effort.
    fn format(&mut self, kind: &SlotKind, code: &str) -> (r: Result<String>)
        ensures
            *final(self) == old(self).fmt_step(kind@, code@),
            match old(self).fmt_result(kind@, code@) {
                core::result::Result::Ok(f) => r is Ok && (r->Ok_0)@ == f,
                core::result::Result::Err(_) => r is Err,
            },
    ;

    /// Check the text against the slot: the slot's harness when it has
    /// one, else the appropriate lighter check.
    fn validate_with_slot(&mut self, slot: &Slot, code: &str) -> (r: Result<ValidationResult>)
        ensures
            *final(self) == old(self).verdict_step(slot@, code@),
            match old(self).verdict(slot@, code@) {
                VSim::Pass => r is Ok && r->Ok_0 is Valid,
                VSim::Fail(m) => r is Ok && (r->Ok_0 matches ValidationResult::Invalid(e) && e@
                    == m),
                VSim::Broke(m) => r matches Err(AetherError::InjectionError(e)) && e@ == m,
            },
    ;
}

/// A validator that enforces a slot's own constraints: line and
/// character limits and forbidden patterns.  Formatting is the
/// identity.
pub struct ConstraintValidator {
}

impl ConstraintValidator {
    /// A new constraint validator.
    pub fn new() -> (r: ConstraintValidator) {
        ConstraintValidator {  }
    }
}

impl Validator for ConstraintValidator {
    open spec fn fmt_result(&self, kind: KindV, code: Seq<char>) -> core::result::Result<
        Seq<char>,
        Seq<char>,
    > {
        core::result::Result::Ok(code)
    }

    open spec fn fmt_step(&self, kind: KindV, code: Seq<char>) -> ConstraintValidator {
        *self
    }

    open spec fn verdict(&self, slot: SlotV, code: Seq<char>) -> VSim {
        if slot_accepts(slot, code) {
            VSim::Pass
        } else {
            VSim::Fail("Generated code violates slot constraints"@)
        }
    }

    open spec fn verdict_step(&self, slot: SlotV, code: Seq<char>) -> ConstraintValidator {
        *self
    }

    fn format(&mut self, kind: &SlotKind, code: &str) -> (r: Result<String>) {
        Ok(copy_string(code))
    }

    fn validate_with_slot(&mut self, slot: &Slot, code: &str) -> (r: Result<ValidationResult>) {
        match slot.validate(code) {
            Ok(()) => Ok(ValidationResult::Valid),
            Err(_) => {
                let mut m = String::new();
                m.append("Generated code violates slot constraints");
                Ok(ValidationResult::Invalid(m))
            },
        }
    }
}

/// A validator that rejects everything with a fixed diagnostic, for
/// exercising the healing loop.
pub struct RejectingValidator {
    /// The diagnostic every check fails with.
    pub message: String,
}

impl RejectingValidator {
    /// A validator failing every check with `message`.
    pub fn new(message: String) -> (r: RejectingValidator)
        ensures
            r.message@ == message@,
    {
        RejectingValidator { message }
    }
}

impl Validator for RejectingValidator {
    open spec fn fmt_result(&self, kind: KindV, code: Seq<char>) -> core::result::Result<
        Seq<char>,
        Seq<char>,
    > {
        core::result::Result::Ok(code)
    }

    open spec fn fmt_step(&self, kind: KindV, code: Seq<char>) -> RejectingValidator {
        *self
    }

    open spec fn verdict(&self, slot: SlotV, code: Seq<char>) -> VSim {
        VSim::Fail(self.message@)
    }

    open spec fn verdict_step(&self, slot: SlotV, code: Seq<char>) -> RejectingValidator {
        *self
    }

    fn format(&mut self, kind: &SlotKind, code: &str) -> (r: Result<String>) {
        Ok(copy_string(code))
    }

    fn validate_with_slot(&mut self, slot: &Slot, code: &str) -> (r: Result<ValidationResult>) {
        Ok(ValidationResult::Invalid(copy_string(self.message.as_str())))
    }
}

/// A validator that plays back a fixed script of verdicts, one per
/// validation call, passing once the script runs out.
pub struct ScriptedValidator {
    /// The scripted verdicts, in order.
    pub script: Vec<ValidationResult>,
    /// How many validation calls have been answered.
    pub pos: usize,
}

pub open spec fn scripted_verdict(script: Seq<ValidationResult>, pos: int) -> VSim {
    if 0 <= pos < script.len() {
        match script[pos] {
            ValidationResult::Valid => VSim::Pass,
            ValidationResult::Invalid(m) => VSim::Fail(m@),
        }
    } else {
        VSim::Pass
    }
}

impl ScriptedValidator {
    /// A validator that answers with `script`, in order.
    pub fn new(script: Vec<ValidationResult>) -> (r: ScriptedValidator)
        ensures
            r.script@ == script@,
            r.pos == 0,
    {
        ScriptedValidator { script, pos: 0 }
    }
}

impl Validator for ScriptedValidator {
    open spec fn fmt_result(&self, kind: KindV, code: Seq<char>) -> core::result::Result<
        Seq<char>,
        Seq<char>,
    > {
        core::result::Result::Ok(code)
    }

    open spec fn fmt_step(&self, kind: KindV, code: Seq<char>) -> ScriptedValidator {
        *self
    }

    open spec fn verdict(&self, slot: SlotV, code: Seq<char>) -> VSim {
        scripted_verdict(self.script@, self.pos as int)
    }

    open spec fn verdict_step(&self, slot: SlotV, code: Seq<char>) -> ScriptedValidator {
        ScriptedValidator {
            script: self.script,
            pos: if self.pos < usize::MAX {
                (self.pos + 1) as usize
            } else {
                self.pos
            },
        }
    }

    fn format(&mut self, kind: &SlotKind, code: &str) -> (r: Result<String>) {
        Ok(copy_string(code))
    }

    fn validate_with_slot(&mut self, slot: &Slot, code: &str) -> (r: Result<ValidationResult>) {
        let r = if self.pos < self.script.len() {
            match &self.script[self.pos] {
                ValidationResult::Valid => ValidationResult::Valid,
                ValidationResult::Invalid(m) => ValidationResult::Invalid(
                    copy_string(m.as_str()),
                ),
            }
        } else {
            ValidationResult::Valid
        };
        if self.pos < usize::MAX {
            self.pos = self.pos + 1;
        }
        Ok(r)
    }
}

// ------------------------------------------------------------------
// Language detection and harness preparation
// ------------------------------------------------------------------

/// Whether text reads like a fragment of one language rather than
/// another, by characteristic keywords.
pub open spec fn sp_contains(s: Seq<char>, pat: Seq<char>) -> bool {
    exists|i: int| 0 <= i <= s.len() - pat.len() && #[trigger] s.subrange(i, i + pat.len()) == pat
}

/// Whether `pat` occurs in `s`.
pub fn contains_str(s: &str, pat: &str) -> (r: bool)
    ensures
        r == sp_contains(s@, pat@),
{
    let sc = crate::text::to_chars(s);
    let pc = crate::text::to_chars(pat);
    let n: usize = sc.len();
    let m: usize = pc.len();
    if m > n {
        return false;
    }
    let mut i: usize = 0;
    while i <= n - m
        invariant
            m <= n,
            n == s@.len(),
            m == pat@.len(),
            sc@ == s@,
            pc@ == pat@,
            i <= n - m + 1,
            forall|t: int| 0 <= t < i ==> #[trigger] s@.subrange(t, t + pat@.len()) != pat@,
        decreases n - i,
    {
        let mut j: usize = 0;
        let mut matches: bool = true;
        while j < m
            invariant
                j <= m,
                m <= n,
                i <= n - m,
                n == s@.len(),
                m == pat@.len(),
                sc@ == s@,
                pc@ == pat@,
                matches == (forall|u: int| 0 <= u < j ==> s@[i + u] == pat@[u]),
            decreases m - j,
        {
            if sc[i + j] != pc[j] {
                matches = false;
                proof {
                    assert(s@[i + j] != pat@[j as int]);
                }
                j = m;
            } else {
                j = j + 1;
            }
        }
        if matches {
            proof {
                assert(s@.subrange(i as int, i + pat@.len()) =~= pat@);
            }
            return true;
        }
        proof {
            assert(s@.subrange(i as int, i + pat@.len()) != pat@) by {
                if s@.subrange(i as int, i + pat@.len()) == pat@ {
                    assert(forall|u: int|
                        0 <= u < m ==> s@[i + u] == #[trigger] s@.subrange(
                            i as int,
                            i + pat@.len(),
                        )[u]);
                }
            }
        }
        i = i + 1;
    }
    false
}

/// Whether text reads like a fragment of that scripting language: a
/// function definition, or an import with a colon.
pub open spec fn sp_looks_like_python(code: Seq<char>) -> bool {
    sp_contains(code, "def "@) || (sp_contains(code, "import "@) && sp_contains(code, ":"@))
}

pub fn looks_like_python(code: &str) -> (r: bool)
    ensures
        r == sp_looks_like_python(code@),
{
    contains_str(code, "def ") || (contains_str(code, "import ") && contains_str(code, ":"))
}

/// Whether text reads like a browser-scripting fragment: a function
/// keyword, a constant binding, or an arrow.
pub open spec fn sp_looks_like_js(code: Seq<char>) -> bool {
    sp_contains(code, "function "@) || sp_contains(code, "const "@) || sp_contains(code, "=>"@)
}

pub fn looks_like_js(code: &str) -> (r: bool)
    ensures
        r == sp_looks_like_js(code@),
{
    contains_str(code, "function ") || contains_str(code, "const ") || contains_str(code, "=>")
}

/// The source-file suffix a harness compiles under, from the slot kind
/// first, then from the text.
pub open spec fn sp_detect_suffix(kind: KindV, code: Seq<char>) -> Seq<char> {
    match kind {
        KindV::JavaScript => ".js"@,
        KindV::Html => ".html"@,
        KindV::Css => ".css"@,
        _ => if sp_looks_like_python(code) {
            ".py"@
        } else {
            ".rs"@
        },
    }
}

/// The source-file suffix a harness compiles under.
pub fn detect_suffix(kind: &SlotKind, code: &str) -> (r: &'static str)
    ensures
        r@ == sp_detect_suffix(kind@, code@),
{
    match kind {
        SlotKind::JavaScript => ".js",
        SlotKind::Html => ".html",
        SlotKind::Css => ".css",
        _ => {
            if looks_like_python(code) {
                ".py"
            } else {
                ".rs"
            }
        },
    }
}

/// The harness source with `{{CODE}}` replaced by the generated text.
pub open spec fn sp_fill_harness(harness: Seq<char>, code: Seq<char>) -> Seq<char>
    decreases harness.len(),
{
    if harness.len() < 8 {
        harness
    } else if harness.subrange(0, 8) == "{{CODE}}"@ {
        code + sp_fill_harness(harness.subrange(8, harness.len() as int), code)
    } else {
        seq![harness[0]] + sp_fill_harness(harness.drop_first(), code)
    }
}

/// Substitute the generated text into a harness at every `{{CODE}}`
/// placeholder.
pub fn fill_harness(harness: &str, code: &str) -> (r: String)
    ensures
        r@ == sp_fill_harness(harness@, code@),
{
    let hc = crate::text::to_chars(harness);
    let n: usize = hc.len();
    let mut out: Vec<char> = Vec::new();
    let mut i: usize = 0;
    proof {
        reveal_strlit("{{CODE}}");
        assert(harness@.subrange(0, n as int) =~= harness@);
    }
    while i < n
        invariant
            i <= n,
            n == harness@.len(),
            hc@ == harness@,
            out@ + sp_fill_harness(harness@.subrange(i as int, n as int), code@) == sp_fill_harness(
                harness@,
                code@,
            ),
        decreases n - i,
    {
        let ghost suf = harness@.subrange(i as int, n as int);
        proof {
            reveal_strlit("{{CODE}}");
            assert(suf.drop_first() =~= harness@.subrange(i + 1, n as int));
            if i + 8 <= n {
                assert(suf.subrange(8, suf.len() as int) =~= harness@.subrange(i + 8, n as int));
                assert(forall|u: int| 0 <= u < 8 ==> suf.subrange(0, 8)[u] == harness@[i + u]);
            }
        }
        let is_marker: bool = n - i >= 8 && hc[i] == '{' && hc[i + 1] == '{' && hc[i + 2] == 'C'
            && hc[i + 3] == 'O' && hc[i + 4] == 'D' && hc[i + 5] == 'E' && hc[i + 6] == '}' && hc[i
            + 7] == '}';
        proof {
            reveal_strlit("{{CODE}}");
            if i + 8 <= n {
                if is_marker {
                    assert(suf.subrange(0, 8) =~= "{{CODE}}"@);
                } else {
                    assert(suf.subrange(0, 8) != "{{CODE}}"@) by {
                        if suf.subrange(0, 8) == "{{CODE}}"@ {
                            assert forall|u: int| 0 <= u < 8 implies harness@[i + u]
                                == "{{CODE}}"@[u] by {
                                assert(suf.subrange(0, 8)[u] == harness@[i + u]);
                            }
                            assert(harness@[i as int] == "{{CODE}}"@[0]);
                            assert(harness@[i + 1] == "{{CODE}}"@[1]);
                            assert(harness@[i + 2] == "{{CODE}}"@[2]);
                            assert(harness@[i + 3] == "{{CODE}}"@[3]);
                            assert(harness@[i + 4] == "{{CODE}}"@[4]);
                            assert(harness@[i + 5] == "{{CODE}}"@[5]);
                            assert(harness@[i + 6] == "{{CODE}}"@[6]);
                            assert(harness@[i + 7] == "{{CODE}}"@[7]);
                            assert(hc@[i as int] == '{' && hc@[i + 1] == '{' && hc@[i + 2] == 'C'
                                && hc@[i + 3] == 'O' && hc@[i + 4] == 'D' && hc@[i + 5] == 'E'
                                && hc@[i + 6] == '}' && hc@[i + 7] == '}');
                        }
                    }
                }
            }
        }
        if is_marker {
            crate::text::append_str_chars(&mut out, code);
            i = i + 8;
        } else {
            out.push(hc[i]);
            i = i + 1;
        }
        proof {
            assert(out@ + sp_fill_harness(harness@.subrange(i as int, n as int), code@)
                =~= sp_fill_harness(harness@, code@));
        }
    }
    proof {
        assert(harness@.subrange(n as int, n as int) =~= Seq::<char>::empty());
        assert(out@ =~= sp_fill_harness(harness@, code@));
    }
    crate::text::from_chars(&out)
}


/// The checking tool a slot's text is dispatched to: the declared kind
/// picks it, keyword sniffing breaks ties, markup and raw text get no
/// check.
#[derive(Debug, Clone, PartialEq, Eq, Structural)]
pub enum CheckTool {
    RustTool,
    JsTool,
    PythonTool,
    NoTool,
}

pub open spec fn sp_choose_tool(kind: KindV, code: Seq<char>) -> CheckTool {
    match kind {
        KindV::JavaScript => CheckTool::JsTool,
        KindV::Html => CheckTool::NoTool,
        KindV::Css => CheckTool::NoTool,
        KindV::Raw => CheckTool::NoTool,
        _ => if sp_looks_like_python(code) {
            CheckTool::PythonTool
        } else if sp_looks_like_js(code) {
            CheckTool::JsTool
        } else {
            CheckTool::RustTool
        },
    }
}

/// Pick the checking tool for a slot kind and its generated text.
pub fn choose_tool(kind: &SlotKind, code: &str) -> (r: CheckTool)
    ensures
        r == sp_choose_tool(kind@, code@),
{
    match kind {
        SlotKind::JavaScript => CheckTool::JsTool,
        SlotKind::Html => CheckTool::NoTool,
        SlotKind::Css => CheckTool::NoTool,
        SlotKind::Raw => CheckTool::NoTool,
        _ => {
            if looks_like_python(code) {
                CheckTool::PythonTool
            } else if looks_like_js(code) {
                CheckTool::JsTool
            } else {
                CheckTool::RustTool
            }
        },
    }
}

/// The module wrapper a standalone fragment compiles under.
pub open spec fn sp_wrap_rust_module(code: Seq<char>) -> Seq<char> {
    "#[allow(dead_code, unused_variables, unused_imports)]\nmod validation_module {\n"@ + code
        + "\n}"@
}

/// Wrap a fragment in a throwaway module so the compiler accepts it on
/// its own.
pub fn wrap_rust_module(code: &str) -> (r: String)
    ensures
        r@ == sp_wrap_rust_module(code@),
{
    let mut s = String::new();
    s.append("#[allow(dead_code, unused_variables, unused_imports)]\nmod validation_module {\n");
    s.append(code);
    s.append("\n}");
    proof {
        assert(s@ =~= sp_wrap_rust_module(code@));
    }
    s
}

/// The command with `{{FILE}}` replaced by the harness file's path.
pub open spec fn sp_fill_file(cmd: Seq<char>, file: Seq<char>) -> Seq<char>
    decreases cmd.len(),
{
    if cmd.len() < 8 {
        cmd
    } else if cmd.subrange(0, 8) == "{{FILE}}"@ {
        file + sp_fill_file(cmd.subrange(8, cmd.len() as int), file)
    } else {
        seq![cmd[0]] + sp_fill_file(cmd.drop_first(), file)
    }
}

/// Substitute the harness file's path into a test command at every
/// `{{FILE}}` placeholder.
pub fn fill_file_placeholder(cmd: &str, file: &str) -> (r: String)
    ensures
        r@ == sp_fill_file(cmd@, file@),
{
    let hc = crate::text::to_chars(cmd);
    let n: usize = hc.len();
    let mut out: Vec<char> = Vec::new();
    let mut i: usize = 0;
    proof {
        reveal_strlit("{{FILE}}");
        assert(cmd@.subrange(0, n as int) =~= cmd@);
    }
    while i < n
        invariant
            i <= n,
            n == cmd@.len(),
            hc@ == cmd@,
            out@ + sp_fill_file(cmd@.subrange(i as int, n as int), file@) == sp_fill_file(
                cmd@,
                file@,
            ),
        decreases n - i,
    {
        let ghost suf = cmd@.subrange(i as int, n as int);
        proof {
            reveal_strlit("{{FILE}}");
            assert(suf.drop_first() =~= cmd@.subrange(i + 1, n as int));
            if i + 8 <= n {
                assert(suf.subrange(8, suf.len() as int) =~= cmd@.subrange(i + 8, n as int));
                assert(forall|u: int| 0 <= u < 8 ==> suf.subrange(0, 8)[u] == cmd@[i + u]);
            }
        }
        let is_marker: bool = n - i >= 8 && hc[i] == '{' && hc[i + 1] == '{' && hc[i + 2] == 'F'
            && hc[i + 3] == 'I' && hc[i + 4] == 'L' && hc[i + 5] == 'E' && hc[i + 6] == '}' && hc[i
            + 7] == '}';
        proof {
            reveal_strlit("{{FILE}}");
            if i + 8 <= n {
                if is_marker {
                    assert(suf.subrange(0, 8) =~= "{{FILE}}"@);
                } else {
                    assert(suf.subrange(0, 8) != "{{FILE}}"@) by {
                        if suf.subrange(0, 8) == "{{FILE}}"@ {
                            assert forall|u: int| 0 <= u < 8 implies cmd@[i + u]
                                == "{{FILE}}"@[u] by {
                                assert(suf.subrange(0, 8)[u] == cmd@[i + u]);
                            }
                            assert(cmd@[i as int] == "{{FILE}}"@[0]);
                            assert(cmd@[i + 1] == "{{FILE}}"@[1]);
                            assert(cmd@[i + 2] == "{{FILE}}"@[2]);
                            assert(cmd@[i + 3] == "{{FILE}}"@[3]);
                            assert(cmd@[i + 4] == "{{FILE}}"@[4]);
                            assert(cmd@[i + 5] == "{{FILE}}"@[5]);
                            assert(cmd@[i + 6] == "{{FILE}}"@[6]);
                            assert(cmd@[i + 7] == "{{FILE}}"@[7]);
                            assert(hc@[i as int] == '{' && hc@[i + 1] == '{' && hc@[i + 2] == 'F'
                                && hc@[i + 3] == 'I' && hc@[i + 4] == 'L' && hc@[i + 5] == 'E'
                                && hc@[i + 6] == '}' && hc@[i + 7] == '}');
                        }
                    }
                }
            }
        }
        if is_marker {
            crate::text::append_str_chars(&mut out, file);
            i = i + 8;
        } else {
            out.push(hc[i]);
            i = i + 1;
        }
        proof {
            assert(out@ + sp_fill_file(cmd@.subrange(i as int, n as int), file@) =~= sp_fill_file(
                cmd@,
                file@,
            ));
        }
    }
    proof {
        assert(cmd@.subrange(n as int, n as int) =~= Seq::<char>::empty());
        assert(out@ =~= sp_fill_file(cmd@, file@));
    }
    crate::text::from_chars(&out)
}

/// The default test command for a harness file, by suffix.
pub open spec fn sp_default_command(suffix: Seq<char>, file: Seq<char>) -> Seq<char> {
    if suffix == ".rs"@ {
        "rustc --test -o "@ + file + ".bin "@ + file + " && "@ + file + ".bin"@
    } else if suffix == ".js"@ {
        "node "@ + file
    } else if suffix == ".py"@ {
        "python "@ + file
    } else {
        "echo 'No test command'"@
    }
}

/// Build the default test command for a harness file.
pub fn default_test_command(suffix: &str, file: &str) -> (r: String)
    ensures
        r@ == sp_default_command(suffix@, file@),
{
    let mut s = String::new();
    if crate::text::str_eq(suffix, ".rs") {
        s.append("rustc --test -o ");
        s.append(file);
        s.append(".bin ");
        s.append(file);
        s.append(" && ");
        s.append(file);
        s.append(".bin");
    } else if crate::text::str_eq(suffix, ".js") {
        s.append("node ");
        s.append(file);
    } else if crate::text::str_eq(suffix, ".py") {
        s.append("python ");
        s.append(file);
    } else {
        s.append("echo 'No test command'");
    }
    proof {
        assert(s@ =~= sp_default_command(suffix@, file@));
    }
    s
}

} // verus!
