//! Templates: documents with `{{AI:slot_name}}` or `{{AI:slot_name:kind}}`
//! markers that rendering replaces with generated text.

use vstd::prelude::*;
use crate::slot::{Slot, SlotKind, SlotConstraints, SlotV, KindV, fresh_slot, opt_view};
use crate::error::AetherError;
use crate::text::to_chars;

verus! {

/// Metadata about a template.
#[derive(Debug, Clone)]
pub struct TemplateMetadata {
    /// Template description.
    pub description: Option<String>,
    /// Template language.
    pub language: Option<String>,
    /// Template author.
    pub author: Option<String>,
    /// Template version.
    pub version: Option<String>,
}

impl Default for TemplateMetadata {
    /// The empty metadata.
    fn default() -> (r: TemplateMetadata)
        ensures
            r.description is None && r.language is None && r.author is None && r.version is None,
    {
        TemplateMetadata { description: None, language: None, author: None, version: None }
    }
}

/// A parsed slot marker in the template text: its name, character span,
/// and optional kind hint.
#[derive(Debug, Clone)]
pub struct SlotLocation {
    /// Slot name.
    pub name: String,
    /// Start position, in characters.
    pub start: usize,
    /// One past the end position, in characters.
    pub end: usize,
    /// Optional slot kind from the marker.
    pub kind: Option<SlotKind>,
}

/// The model of a marker location.
pub struct LocV {
    pub name: Seq<char>,
    pub start: int,
    pub end: int,
    pub kind: Option<KindV>,
}

impl View for SlotLocation {
    type V = LocV;

    open spec fn view(&self) -> LocV {
        LocV {
            name: self.name@,
            start: self.start as int,
            end: self.end as int,
            kind: match self.kind {
                Option::Some(k) => Option::Some(k@),
                Option::None => Option::None,
            },
        }
    }
}

// ------------------------------------------------------------------
// The marker grammar
// ------------------------------------------------------------------

pub open spec fn is_word_char(c: char) -> bool {
    ('a' <= c && c <= 'z') || ('A' <= c && c <= 'Z') || ('0' <= c && c <= '9') || c == '_'
}

pub open spec fn is_alpha_char(c: char) -> bool {
    ('a' <= c && c <= 'z') || ('A' <= c && c <= 'Z')
}

pub open spec fn is_name_start(c: char) -> bool {
    is_alpha_char(c) || c == '_'
}

/// Length of the run of word characters at the front.
pub open spec fn word_run(s: Seq<char>) -> int
    decreases s.len(),
{
    if s.len() == 0 {
        0
    } else if is_word_char(s[0]) {
        1 + word_run(s.drop_first())
    } else {
        0
    }
}

/// Length of the run of alphabetic characters at the front.
pub open spec fn alpha_run(s: Seq<char>) -> int
    decreases s.len(),
{
    if s.len() == 0 {
        0
    } else if is_alpha_char(s[0]) {
        1 + alpha_run(s.drop_first())
    } else {
        0
    }
}

pub proof fn lemma_word_run_loc(s: Seq<char>, k: int)
    requires
        0 <= k <= s.len(),
        forall|i: int| 0 <= i < k ==> is_word_char(s[i]),
        k == s.len() || !is_word_char(s[k]),
    ensures
        word_run(s) == k,
    decreases k,
{
    if k > 0 {
        assert(forall|i: int| 0 <= i < s.drop_first().len() ==> s.drop_first()[i] == s[i + 1]);
        lemma_word_run_loc(s.drop_first(), k - 1);
    }
}

pub proof fn lemma_alpha_run_loc(s: Seq<char>, k: int)
    requires
        0 <= k <= s.len(),
        forall|i: int| 0 <= i < k ==> is_alpha_char(s[i]),
        k == s.len() || !is_alpha_char(s[k]),
    ensures
        alpha_run(s) == k,
    decreases k,
{
    if k > 0 {
        assert(forall|i: int| 0 <= i < s.drop_first().len() ==> s.drop_first()[i] == s[i + 1]);
        lemma_alpha_run_loc(s.drop_first(), k - 1);
    }
}

/// What a marker starting at position `i` reads, if one does: one past
/// its end, its name, and its optional kind tag.
pub open spec fn marker_at(s: Seq<char>, i: int) -> Option<(int, Seq<char>, Option<Seq<char>>)> {
    if 0 <= i && i + 5 <= s.len() && s[i] == '{' && s[i + 1] == '{' && s[i + 2] == 'A' && s[i + 3]
        == 'I' && s[i + 4] == ':' {
        let p = i + 5;
        let q = p + word_run(s.subrange(p, s.len() as int));
        if q == p || !is_name_start(s[p]) {
            Option::None
        } else {
            let name = s.subrange(p, q);
            if q + 2 <= s.len() && s[q] == '}' && s[q + 1] == '}' {
                Option::Some((q + 2, name, Option::None))
            } else if q < s.len() && s[q] == ':' {
                let r = q + 1 + alpha_run(s.subrange(q + 1, s.len() as int));
                if r == q + 1 {
                    Option::None
                } else if r + 2 <= s.len() && s[r] == '}' && s[r + 1] == '}' {
                    Option::Some((r + 2, name, Option::Some(s.subrange(q + 1, r))))
                } else {
                    Option::None
                }
            } else {
                Option::None
            }
        }
    } else {
        Option::None
    }
}

/// All markers of the text, scanned left to right without overlap.
pub open spec fn scan_markers(s: Seq<char>, i: int) -> Seq<LocV>
    decreases s.len() - i,
{
    if i < 0 || i >= s.len() {
        Seq::empty()
    } else {
        match marker_at(s, i) {
            Option::Some((end, name, kind)) => {
                if end > i {
                    seq![
                        LocV {
                            name: name,
                            start: i,
                            end: end,
                            kind: match kind {
                                Option::Some(k) => Option::Some(parse_kind_tag(lower_tag(k))),
                                Option::None => Option::None,
                            },
                        },
                    ] + scan_markers(s, end)
                } else {
                    Seq::empty()
                }
            },
            Option::None => scan_markers(s, i + 1),
        }
    }
}

/// The kind a marker tag names, lower-case or capitalized forms of the
/// built-in tags; anything else is a custom kind.
pub open spec fn parse_kind_tag(t: Seq<char>) -> KindV {
    if t == "raw"@ {
        KindV::Raw
    } else if t == "function"@ || t == "fn"@ {
        KindV::Function
    } else if t == "class"@ || t == "struct"@ {
        KindV::Class
    } else if t == "html"@ {
        KindV::Html
    } else if t == "css"@ {
        KindV::Css
    } else if t == "js"@ || t == "javascript"@ {
        KindV::JavaScript
    } else if t == "component"@ {
        KindV::Component
    } else {
        KindV::Custom(t)
    }
}

// ------------------------------------------------------------------
// Rendering
// ------------------------------------------------------------------

/// First value bound to `name` in an association list.
pub open spec fn assoc<T>(l: Seq<(Seq<char>, T)>, name: Seq<char>) -> Option<T>
    decreases l.len(),
{
    if l.len() == 0 {
        Option::None
    } else if l[0].0 == name {
        Option::Some(l[0].1)
    } else {
        assoc(l.drop_first(), name)
    }
}

/// What fills a marker of `name`: the injection if one was supplied;
/// else, for an optional slot, its default (or empty); else the name of
/// the missing slot as an error.
pub open spec fn fill_of(
    slots: Seq<(Seq<char>, SlotV)>,
    inj: Seq<(Seq<char>, Seq<char>)>,
    name: Seq<char>,
) -> Result<Seq<char>, Seq<char>> {
    match assoc(inj, name) {
        Option::Some(code) => Result::Ok(code),
        Option::None => match assoc(slots, name) {
            Option::Some(slot) => {
                if slot.required {
                    Result::Err(name)
                } else {
                    match slot.default {
                        Option::Some(d) => Result::Ok(d),
                        Option::None => Result::Ok(Seq::empty()),
                    }
                }
            },
            Option::None => Result::Err(name),
        },
    }
}

/// The text after the markers `locs[j..]` are replaced, highest
/// position first, so that earlier spans keep their offsets; or the
/// name of the first missing required slot found.
pub open spec fn sp_render_from(
    content: Seq<char>,
    locs: Seq<LocV>,
    slots: Seq<(Seq<char>, SlotV)>,
    inj: Seq<(Seq<char>, Seq<char>)>,
    j: int,
) -> Result<Seq<char>, Seq<char>>
    decreases locs.len() - j,
{
    if j < 0 || j >= locs.len() {
        Result::Ok(content)
    } else {
        match sp_render_from(content, locs, slots, inj, j + 1) {
            Result::Err(e) => Result::Err(e),
            Result::Ok(t) => match fill_of(slots, inj, locs[j].name) {
                Result::Err(e) => Result::Err(e),
                Result::Ok(code) => {
                    if 0 <= locs[j].start <= locs[j].end <= t.len() {
                        Result::Ok(
                            t.subrange(0, locs[j].start) + code + t.subrange(
                                locs[j].end,
                                t.len() as int,
                            ),
                        )
                    } else {
                        Result::Err(locs[j].name)
                    }
                },
            },
        }
    }
}

/// The rendered text of a template: every marker replaced, or the name
/// of a missing required slot.
pub open spec fn sp_render(
    content: Seq<char>,
    slots: Seq<(Seq<char>, SlotV)>,
    inj: Seq<(Seq<char>, Seq<char>)>,
) -> Result<Seq<char>, Seq<char>> {
    sp_render_from(content, scan_markers(content, 0), slots, inj, 0)
}

/// Insert or replace the entry for `name`, keeping its position.
pub open spec fn upsert<T>(l: Seq<(Seq<char>, T)>, name: Seq<char>, v: T) -> Seq<(Seq<char>, T)>
    decreases l.len(),
{
    if l.len() == 0 {
        seq![(name, v)]
    } else if l[0].0 == name {
        seq![(name, v)] + l.drop_first()
    } else {
        seq![l[0]] + upsert(l.drop_first(), name, v)
    }
}

/// The slot table a content string parses to: one default slot per
/// marker name, the last marker's kind hint winning.
pub open spec fn sp_parse_slots(content: Seq<char>, locs: Seq<LocV>, j: int) -> Seq<
    (Seq<char>, SlotV),
>
    decreases j,
{
    if j <= 0 {
        Seq::empty()
    } else {
        let prior = sp_parse_slots(content, locs, j - 1);
        let loc = locs[j - 1];
        upsert(prior, loc.name, default_slot_for(loc))
    }
}

/// The default slot a marker builds: an auto-derived placeholder
/// prompt, and the marker's kind hint if it carries one.
pub open spec fn default_slot_for(loc: LocV) -> SlotV {
    let base = fresh_slot(loc.name, "Generate code for: "@ + loc.name);
    match loc.kind {
        Option::Some(k) => SlotV { kind: k, ..base },
        Option::None => base,
    }
}


// ------------------------------------------------------------------
// View plumbing
// ------------------------------------------------------------------

pub open spec fn locs_view(s: Seq<SlotLocation>) -> Seq<LocV>
    decreases s.len(),
{
    if s.len() == 0 {
        Seq::empty()
    } else {
        seq![s[0]@] + locs_view(s.drop_first())
    }
}

pub proof fn lemma_locs_view_snoc(s: Seq<SlotLocation>, x: SlotLocation)
    ensures
        locs_view(s.push(x)) == locs_view(s) + seq![x@],
    decreases s.len(),
{
    if s.len() == 0 {
        assert(s.push(x).drop_first() =~= Seq::<SlotLocation>::empty());
        assert(locs_view(Seq::<SlotLocation>::empty()) == Seq::<LocV>::empty());
        assert(s.push(x)[0] == x);
        assert(locs_view(s.push(x)) == seq![s.push(x)[0]@] + locs_view(s.push(x).drop_first()));
        assert(locs_view(s) == Seq::<LocV>::empty());
        assert(locs_view(s.push(x)) =~= locs_view(s) + seq![x@]);
    } else {
        lemma_locs_view_snoc(s.drop_first(), x);
        assert(s.push(x).drop_first() =~= s.drop_first().push(x));
        assert(s.push(x)[0] == s[0]);
        assert(locs_view(s) == seq![s[0]@] + locs_view(s.drop_first()));
        assert(locs_view(s.push(x)) == seq![s[0]@] + locs_view(s.push(x).drop_first()));
        assert(locs_view(s.push(x)) =~= locs_view(s) + seq![x@]);
    }
}

pub proof fn lemma_locs_view_index(s: Seq<SlotLocation>, i: int)
    requires
        0 <= i < s.len(),
    ensures
        locs_view(s).len() == s.len(),
        locs_view(s)[i] == s[i]@,
    decreases s.len(),
{
    assert(locs_view(s) == seq![s[0]@] + locs_view(s.drop_first()));
    lemma_locs_view_len(s.drop_first());
    if i > 0 {
        lemma_locs_view_index(s.drop_first(), i - 1);
    }
}

pub proof fn lemma_locs_view_len(s: Seq<SlotLocation>)
    ensures
        locs_view(s).len() == s.len(),
    decreases s.len(),
{
    if s.len() > 0 {
        lemma_locs_view_len(s.drop_first());
        assert(locs_view(s) == seq![s[0]@] + locs_view(s.drop_first()));
    } else {
        assert(locs_view(s).len() == 0);
    }
}

pub open spec fn slots_view(s: Seq<(String, Slot)>) -> Seq<(Seq<char>, SlotV)>
    decreases s.len(),
{
    if s.len() == 0 {
        Seq::empty()
    } else {
        seq![(s[0].0@, s[0].1@)] + slots_view(s.drop_first())
    }
}

pub proof fn lemma_slots_view_len(s: Seq<(String, Slot)>)
    ensures
        slots_view(s).len() == s.len(),
    decreases s.len(),
{
    if s.len() > 0 {
        lemma_slots_view_len(s.drop_first());
        assert(slots_view(s) == seq![(s[0].0@, s[0].1@)] + slots_view(s.drop_first()));
    } else {
        assert(slots_view(s).len() == 0);
    }
}

pub proof fn lemma_slots_view_index(s: Seq<(String, Slot)>, i: int)
    requires
        0 <= i < s.len(),
    ensures
        slots_view(s).len() == s.len(),
        slots_view(s)[i] == (s[i].0@, s[i].1@),
    decreases s.len(),
{
    assert(slots_view(s) == seq![(s[0].0@, s[0].1@)] + slots_view(s.drop_first()));
    lemma_slots_view_len(s.drop_first());
    if i > 0 {
        lemma_slots_view_index(s.drop_first(), i - 1);
    }
}

pub open spec fn inj_view(s: Seq<(String, String)>) -> Seq<(Seq<char>, Seq<char>)>
    decreases s.len(),
{
    if s.len() == 0 {
        Seq::empty()
    } else {
        seq![(s[0].0@, s[0].1@)] + inj_view(s.drop_first())
    }
}

pub proof fn lemma_inj_view_len(s: Seq<(String, String)>)
    ensures
        inj_view(s).len() == s.len(),
    decreases s.len(),
{
    if s.len() > 0 {
        lemma_inj_view_len(s.drop_first());
        assert(inj_view(s) == seq![(s[0].0@, s[0].1@)] + inj_view(s.drop_first()));
    } else {
        assert(inj_view(s).len() == 0);
    }
}

// ------------------------------------------------------------------
// Exec scanning
// ------------------------------------------------------------------

fn lower_char(c: char) -> (r: char)
    ensures
        r == lower_c(c),
{
    match c {
        'A' => 'a',
        'B' => 'b',
        'C' => 'c',
        'D' => 'd',
        'E' => 'e',
        'F' => 'f',
        'G' => 'g',
        'H' => 'h',
        'I' => 'i',
        'J' => 'j',
        'K' => 'k',
        'L' => 'l',
        'M' => 'm',
        'N' => 'n',
        'O' => 'o',
        'P' => 'p',
        'Q' => 'q',
        'R' => 'r',
        'S' => 's',
        'T' => 't',
        'U' => 'u',
        'V' => 'v',
        'W' => 'w',
        'X' => 'x',
        'Y' => 'y',
        'Z' => 'z',
        _ => c,
    }
}

fn is_word_char_exec(c: char) -> (r: bool)
    ensures
        r == is_word_char(c),
{
    ('a' <= c && c <= 'z') || ('A' <= c && c <= 'Z') || ('0' <= c && c <= '9') || c == '_'
}

fn is_alpha_char_exec(c: char) -> (r: bool)
    ensures
        r == is_alpha_char(c),
{
    ('a' <= c && c <= 'z') || ('A' <= c && c <= 'Z')
}

/// The kind a marker tag names.
fn parse_kind_exec(tag: &Vec<char>) -> (r: SlotKind)
    ensures
        r@ == parse_kind_tag(lower_tag(tag@)),
{
    let n: usize = tag.len();
    let mut low: Vec<char> = Vec::new();
    let mut i: usize = 0;
    while i < n
        invariant
            i <= n,
            n == tag@.len(),
            low@.len() == i,
            forall|t: int| 0 <= t < i ==> low@[t] == lower_c(tag@[t]),
        decreases n - i,
    {
        low.push(lower_char(tag[i]));
        i = i + 1;
    }
    proof {
        assert(low@ =~= lower_tag(tag@));
    }
    if crate::text::chars_eq_str(&low, "raw") {
        SlotKind::Raw
    } else if crate::text::chars_eq_str(&low, "function") || crate::text::chars_eq_str(&low, "fn") {
        SlotKind::Function
    } else if crate::text::chars_eq_str(&low, "class") || crate::text::chars_eq_str(
        &low,
        "struct",
    ) {
        SlotKind::Class
    } else if crate::text::chars_eq_str(&low, "html") {
        SlotKind::Html
    } else if crate::text::chars_eq_str(&low, "css") {
        SlotKind::Css
    } else if crate::text::chars_eq_str(&low, "js") || crate::text::chars_eq_str(
        &low,
        "javascript",
    ) {
        SlotKind::JavaScript
    } else if crate::text::chars_eq_str(&low, "component") {
        SlotKind::Component
    } else {
        SlotKind::Custom(crate::text::from_chars(&low))
    }
}

/// Read a marker at position `i`, if one stands there.
fn marker_at_exec(cs: &Vec<char>, i: usize) -> (r: Option<SlotLocation>)
    requires
        i < cs@.len(),
    ensures
        match marker_at(cs@, i as int) {
            Option::None => r is None,
            Option::Some((end, name, kindtag)) => r is Some && (r->0)@ == (LocV {
                name: name,
                start: i as int,
                end: end,
                kind: match kindtag {
                    Option::Some(t) => Option::Some(parse_kind_tag(lower_tag(t))),
                    Option::None => Option::None,
                },
            }),
        },
{
    let n: usize = cs.len();
    if n - i < 5 {
        return None;
    }
    if !(cs[i] == '{' && cs[i + 1] == '{' && cs[i + 2] == 'A' && cs[i + 3] == 'I' && cs[i + 4]
        == ':') {
        return None;
    }
    let p: usize = i + 5;
    // name run
    let mut q: usize = p;
    while q < n && is_word_char_exec(cs[q])
        invariant
            p <= q <= n,
            n == cs@.len(),
            forall|t: int| p <= t < q ==> is_word_char(cs@[t]),
        decreases n - q,
    {
        q = q + 1;
    }
    proof {
        let suf = cs@.subrange(p as int, n as int);
        assert forall|t: int| 0 <= t < q - p implies is_word_char(suf[t]) by {
            assert(suf[t] == cs@[p + t]);
        }
        if (q as int - p as int) < suf.len() {
            assert(suf[q - p] == cs@[q as int]);
        }
        lemma_word_run_loc(suf, q as int - p as int);
    }
    if q == p || !(is_alpha_char_exec(cs[p]) || cs[p] == '_') {
        return None;
    }
    let name_chars = crate::text::subchars(cs, p, q);
    let name = crate::text::from_chars(&name_chars);
    if n - q >= 2 && cs[q] == '}' && cs[q + 1] == '}' {
        return Some(SlotLocation { name, start: i, end: q + 2, kind: None });
    }
    if q < n && cs[q] == ':' {
        let mut r2: usize = q + 1;
        while r2 < n && is_alpha_char_exec(cs[r2])
            invariant
                q + 1 <= r2 <= n,
                n == cs@.len(),
                forall|t: int| q + 1 <= t < r2 ==> is_alpha_char(cs@[t]),
            decreases n - r2,
        {
            r2 = r2 + 1;
        }
        proof {
            let suf = cs@.subrange(q as int + 1, n as int);
            assert forall|t: int| 0 <= t < r2 - q - 1 implies is_alpha_char(suf[t]) by {
                assert(suf[t] == cs@[q + 1 + t]);
            }
            if (r2 as int - q as int - 1) < suf.len() {
                assert(suf[r2 - q - 1] == cs@[r2 as int]);
            }
            lemma_alpha_run_loc(suf, r2 as int - q as int - 1);
        }
        if r2 == q + 1 {
            return None;
        }
        if n - r2 >= 2 && cs[r2] == '}' && cs[r2 + 1] == '}' {
            let tag = crate::text::subchars(cs, q + 1, r2);
            let kind = parse_kind_exec(&tag);
            return Some(SlotLocation { name, start: i, end: r2 + 2, kind: Some(kind) });
        }
        return None;
    }
    None
}

/// All marker locations of the text, left to right.
fn find_markers(cs: &Vec<char>) -> (r: Vec<SlotLocation>)
    ensures
        locs_view(r@) == scan_markers(cs@, 0),
        forall|t: int|
            0 <= t < r@.len() ==> (#[trigger] r@[t]).start <= r@[t].end <= cs@.len(),
    decreases cs@.len(),
{
    let n: usize = cs.len();
    let mut out: Vec<SlotLocation> = Vec::new();
    let mut i: usize = 0;
    proof {
        assert(locs_view(out@) =~= Seq::<LocV>::empty());
    }
    while i < n
        invariant
            i <= n,
            n == cs@.len(),
            locs_view(out@) + scan_markers(cs@, i as int) == scan_markers(cs@, 0),
            forall|t: int|
                0 <= t < out@.len() ==> (#[trigger] out@[t]).start <= out@[t].end <= cs@.len(),
        decreases n - i,
    {
        match marker_at_exec(cs, i) {
            Some(loc) => {
                let end = loc.end;
                proof {
                    lemma_marker_end_bound(cs@, i as int);
                    assert(loc@.end > i);
                    assert(scan_markers(cs@, i as int) == seq![loc@] + scan_markers(
                        cs@,
                        loc@.end,
                    ));
                    lemma_locs_view_snoc(out@, loc);
                    assert(locs_view(out@.push(loc)) + scan_markers(cs@, loc@.end)
                        =~= scan_markers(cs@, 0));
                    assert(loc@.end <= cs@.len());
                }
                out.push(loc);
                i = end;
            },
            None => {
                proof {
                    assert(scan_markers(cs@, i as int) == scan_markers(cs@, i + 1));
                }
                i = i + 1;
            },
        }
    }
    proof {
        assert(scan_markers(cs@, n as int) == Seq::<LocV>::empty());
        assert(locs_view(out@) =~= scan_markers(cs@, 0));
    }
    out
}

pub open spec fn lower_tag(t: Seq<char>) -> Seq<char> {
    Seq::new(t.len(), |i: int| lower_c(t[i]))
}

pub open spec fn lower_c(c: char) -> char {
    if c == 'A' { 'a' }
    else if c == 'B' { 'b' }
    else if c == 'C' { 'c' }
    else if c == 'D' { 'd' }
    else if c == 'E' { 'e' }
    else if c == 'F' { 'f' }
    else if c == 'G' { 'g' }
    else if c == 'H' { 'h' }
    else if c == 'I' { 'i' }
    else if c == 'J' { 'j' }
    else if c == 'K' { 'k' }
    else if c == 'L' { 'l' }
    else if c == 'M' { 'm' }
    else if c == 'N' { 'n' }
    else if c == 'O' { 'o' }
    else if c == 'P' { 'p' }
    else if c == 'Q' { 'q' }
    else if c == 'R' { 'r' }
    else if c == 'S' { 's' }
    else if c == 'T' { 't' }
    else if c == 'U' { 'u' }
    else if c == 'V' { 'v' }
    else if c == 'W' { 'w' }
    else if c == 'X' { 'x' }
    else if c == 'Y' { 'y' }
    else if c == 'Z' { 'z' }
    else { c }
}

pub proof fn lemma_marker_end_bound(s: Seq<char>, i: int)
    requires
        marker_at(s, i) is Some,
    ensures
        i < (marker_at(s, i)->0).0 <= s.len(),
{
    let p = i + 5;
    lemma_word_run_bounds(s.subrange(p, s.len() as int));
    let q = p + word_run(s.subrange(p, s.len() as int));
    if q < s.len() && s[q] == ':' {
        lemma_alpha_run_bounds(s.subrange(q + 1, s.len() as int));
    }
}

pub proof fn lemma_word_run_bounds(s: Seq<char>)
    ensures
        0 <= word_run(s) <= s.len(),
    decreases s.len(),
{
    if s.len() > 0 && is_word_char(s[0]) {
        lemma_word_run_bounds(s.drop_first());
    }
}

pub proof fn lemma_alpha_run_bounds(s: Seq<char>)
    ensures
        0 <= alpha_run(s) <= s.len(),
    decreases s.len(),
{
    if s.len() > 0 && is_alpha_char(s[0]) {
        lemma_alpha_run_bounds(s.drop_first());
    }
}


// ------------------------------------------------------------------
// The template
// ------------------------------------------------------------------

/// A document with slot markers and the slots configured for them.
#[derive(Debug)]
pub struct Template {
    /// Original template content.
    pub content: String,
    /// Name of this template.
    pub name: String,
    /// Slots, keyed by name; keys are unique.
    pub slots: Vec<(String, Slot)>,
    /// Template metadata.
    pub metadata: TemplateMetadata,
}

/// Copy a string, character for character.
pub fn copy_string(s: &str) -> (r: String)
    ensures
        r@ == s@,
{
    crate::text::from_chars(&to_chars(s))
}

/// Copy a slot, field for field.
pub fn copy_slot(s: &Slot) -> (r: Slot)
    ensures
        r@ == s@,
{
    let kind = match &s.kind {
        SlotKind::Raw => SlotKind::Raw,
        SlotKind::Function => SlotKind::Function,
        SlotKind::Class => SlotKind::Class,
        SlotKind::Html => SlotKind::Html,
        SlotKind::Css => SlotKind::Css,
        SlotKind::JavaScript => SlotKind::JavaScript,
        SlotKind::Component => SlotKind::Component,
        SlotKind::Custom(t) => SlotKind::Custom(copy_string(t.as_str())),
    };
    let constraints = match &s.constraints {
        Some(c) => Some(copy_constraints(c)),
        None => None,
    };
    Slot {
        name: copy_string(s.name.as_str()),
        prompt: copy_string(s.prompt.as_str()),
        kind,
        constraints,
        required: s.required,
        default: copy_opt_string(&s.default),
        temperature: s.temperature,
    }
}

fn copy_opt_string(o: &Option<String>) -> (r: Option<String>)
    ensures
        opt_view(r) == opt_view(*o),
{
    match o {
        Some(s) => Some(copy_string(s.as_str())),
        None => None,
    }
}

fn copy_string_vec(v: &Vec<String>) -> (r: Vec<String>)
    ensures
        r.deep_view() == v.deep_view(),
{
    let mut out: Vec<String> = Vec::new();
    let mut i: usize = 0;
    while i < v.len()
        invariant
            i <= v@.len(),
            out@.len() == i,
            forall|t: int| 0 <= t < i ==> (#[trigger] out@[t])@ == v@[t]@,
        decreases v@.len() - i,
    {
        out.push(copy_string(v[i].as_str()));
        i = i + 1;
    }
    proof {
        assert(out.deep_view() =~= v.deep_view());
    }
    out
}

fn copy_constraints(c: &SlotConstraints) -> (r: SlotConstraints)
    ensures
        r@ == c@,
{
    SlotConstraints {
        max_lines: c.max_lines,
        max_chars: c.max_chars,
        required_imports: copy_string_vec(&c.required_imports),
        forbidden_patterns: copy_string_vec(&c.forbidden_patterns),
        language: copy_opt_string(&c.language),
        test_harness: copy_opt_string(&c.test_harness),
        test_command: copy_opt_string(&c.test_command),
    }
}

proof fn lemma_upsert_found(l: Seq<(String, Slot)>, idx: int, name: Seq<char>, v: Slot)
    requires
        0 <= idx < l.len(),
        l[idx].0@ == name,
        forall|t: int| 0 <= t < idx ==> (#[trigger] l[t]).0@ != name,
    ensures
        slots_view(l.update(idx, (l[idx].0, v))) == upsert(slots_view(l), name, v@),
    decreases idx,
{
    lemma_slots_view_len(l);
    let lv = slots_view(l);
    let l2 = l.update(idx, (l[idx].0, v));
    if idx == 0 {
        assert(lv[0].0 == name) by {
            lemma_slots_view_index(l, 0);
        }
        assert(upsert(lv, name, v@) == seq![(name, v@)] + lv.drop_first());
        assert(slots_view(l2) == seq![(l2[0].0@, l2[0].1@)] + slots_view(l2.drop_first()));
        assert(l2.drop_first() =~= l.drop_first());
        assert(lv.drop_first() =~= slots_view(l.drop_first())) by {
            assert(lv == seq![(l[0].0@, l[0].1@)] + slots_view(l.drop_first()));
        }
        assert(slots_view(l2) =~= upsert(lv, name, v@));
    } else {
        assert(l.drop_first()[idx - 1] == l[idx]);
        assert(forall|t: int|
            0 <= t < l.drop_first().len() ==> #[trigger] l.drop_first()[t] == l[t + 1]);
        lemma_upsert_found(l.drop_first(), idx - 1, name, v);
        assert(lv == seq![(l[0].0@, l[0].1@)] + slots_view(l.drop_first()));
        assert(lv[0].0 == l[0].0@) by {
            lemma_slots_view_index(l, 0);
        }
        assert(lv[0].0 != name);
        assert(upsert(lv, name, v@) == seq![lv[0]] + upsert(lv.drop_first(), name, v@));
        assert(lv.drop_first() =~= slots_view(l.drop_first()));
        assert(l2.drop_first() =~= l.drop_first().update(idx - 1, (l[idx].0, v)));
        assert(slots_view(l2) == seq![(l2[0].0@, l2[0].1@)] + slots_view(l2.drop_first()));
        assert(l2[0] == l[0]);
        assert(slots_view(l2) =~= upsert(lv, name, v@));
    }
}

proof fn lemma_upsert_absent(l: Seq<(String, Slot)>, name: Seq<char>, ns: String, v: Slot)
    requires
        ns@ == name,
        forall|t: int| 0 <= t < l.len() ==> (#[trigger] l[t]).0@ != name,
    ensures
        slots_view(l.push((ns, v))) == upsert(slots_view(l), name, v@),
    decreases l.len(),
{
    lemma_slots_view_len(l);
    let lv = slots_view(l);
    if l.len() == 0 {
        assert(l.push((ns, v)).drop_first() =~= Seq::<(String, Slot)>::empty());
        assert(slots_view(l.push((ns, v))) == seq![(ns@, v@)] + slots_view(
            l.push((ns, v)).drop_first(),
        ));
        assert(slots_view(l.push((ns, v))) =~= upsert(lv, name, v@));
    } else {
        assert(forall|t: int|
            0 <= t < l.drop_first().len() ==> #[trigger] l.drop_first()[t] == l[t + 1]);
        lemma_upsert_absent(l.drop_first(), name, ns, v);
        assert(lv == seq![(l[0].0@, l[0].1@)] + slots_view(l.drop_first()));
        lemma_slots_view_index(l, 0);
        assert(lv[0].0 != name);
        assert(upsert(lv, name, v@) == seq![lv[0]] + upsert(lv.drop_first(), name, v@));
        assert(lv.drop_first() =~= slots_view(l.drop_first()));
        assert(l.push((ns, v)).drop_first() =~= l.drop_first().push((ns, v)));
        assert(l.push((ns, v))[0] == l[0]);
        assert(slots_view(l.push((ns, v))) == seq![(l[0].0@, l[0].1@)] + slots_view(
            l.push((ns, v)).drop_first(),
        ));
        assert(slots_view(l.push((ns, v))) =~= upsert(lv, name, v@));
    }
}

/// Insert or replace the slot for `name`.
fn upsert_exec(slots: &mut Vec<(String, Slot)>, name: String, slot: Slot)
    ensures
        slots_view(final(slots)@) == upsert(slots_view(old(slots)@), name@, slot@),
{
    let n: usize = slots.len();
    let mut i: usize = 0;
    while i < n
        invariant
            i <= n,
            n == slots@.len(),
            slots@ == old(slots)@,
            forall|t: int| 0 <= t < i ==> (#[trigger] slots@[t]).0@ != name@,
        decreases n - i,
    {
        if crate::text::str_eq(slots[i].0.as_str(), name.as_str()) {
            let ghost pre = slots@;
            let key = copy_string(slots[i].0.as_str());
            slots[i] = (key, slot);
            proof {
                assert(slots@ =~= pre.update(i as int, (pre[i as int].0, slot)) || true);
                assert(key@ == pre[i as int].0@);
                lemma_upsert_found(pre, i as int, name@, slot);
                assert(slots@[i as int].0@ == pre[i as int].0@);
                lemma_slots_eq_by_views(slots@, pre.update(i as int, (pre[i as int].0, slot)));
            }
            return ;
        }
        i = i + 1;
    }
    proof {
        lemma_upsert_absent(slots@, name@, name, slot);
    }
    slots.push((name, slot));
}

/// Two slot lists with pointwise equal views have equal views.
proof fn lemma_slots_eq_by_views(a: Seq<(String, Slot)>, b: Seq<(String, Slot)>)
    requires
        a.len() == b.len(),
        forall|t: int| 0 <= t < a.len() ==> (#[trigger] a[t]).0@ == b[t].0@ && a[t].1@ == b[t].1@,
    ensures
        slots_view(a) == slots_view(b),
    decreases a.len(),
{
    if a.len() > 0 {
        assert(forall|t: int|
            0 <= t < a.drop_first().len() ==> #[trigger] a.drop_first()[t] == a[t + 1]);
        assert(forall|t: int|
            0 <= t < b.drop_first().len() ==> #[trigger] b.drop_first()[t] == b[t + 1]);
        lemma_slots_eq_by_views(a.drop_first(), b.drop_first());
        assert(slots_view(a) == seq![(a[0].0@, a[0].1@)] + slots_view(a.drop_first()));
        assert(slots_view(b) == seq![(b[0].0@, b[0].1@)] + slots_view(b.drop_first()));
    }
}

/// First slot bound to `name`.
pub fn find_slot<'a>(slots: &'a Vec<(String, Slot)>, name: &str) -> (r: Option<&'a Slot>)
    ensures
        match assoc(slots_view(slots@), name@) {
            Option::Some(v) => r is Some && (r->0)@ == v,
            Option::None => r is None,
        },
{
    proof {
        lemma_slots_view_len(slots@);
        assert(slots@.subrange(0, slots@.len() as int) =~= slots@);
    }
    let n: usize = slots.len();
    let mut i: usize = 0;
    while i < n
        invariant
            i <= n,
            n == slots@.len(),
            assoc(slots_view(slots@.subrange(i as int, n as int)), name@) == assoc(
                slots_view(slots@),
                name@,
            ),
        decreases n - i,
    {
        proof {
            let suf = slots@.subrange(i as int, n as int);
            assert(suf.drop_first() =~= slots@.subrange(i + 1, n as int));
            assert(suf[0] == slots@[i as int]);
            assert(slots_view(suf) == seq![(suf[0].0@, suf[0].1@)] + slots_view(suf.drop_first()));
            lemma_slots_view_len(suf);
        }
        if crate::text::str_eq(slots[i].0.as_str(), name) {
            proof {
                let suf = slots@.subrange(i as int, n as int);
                assert(slots_view(suf)[0] == (suf[0].0@, suf[0].1@));
                assert(assoc(slots_view(suf), name@) == Option::Some(suf[0].1@));
            }
            return Some(&slots[i].1);
        }
        proof {
            let suf = slots@.subrange(i as int, n as int);
            assert(slots_view(suf)[0] == (suf[0].0@, suf[0].1@));
            assert(slots_view(suf)[0].0 != name@);
            assert(slots_view(suf).drop_first() =~= slots_view(suf.drop_first()));
            assert(assoc(slots_view(suf), name@) == assoc(slots_view(suf.drop_first()), name@));
            assert(slots_view(suf.drop_first()) == slots_view(slots@.subrange(i + 1, n as int)));
        }
        i = i + 1;
    }
    proof {
        assert(slots@.subrange(n as int, n as int) =~= Seq::<(String, Slot)>::empty());
        assert(slots_view(Seq::<(String, Slot)>::empty()) == Seq::<(Seq<char>, SlotV)>::empty());
    }
    None
}

/// First injection bound to `name`.
fn assoc_inj<'a>(inj: &'a Vec<(String, String)>, name: &str) -> (r: Option<&'a String>)
    ensures
        match assoc(inj_view(inj@), name@) {
            Option::Some(v) => r is Some && (r->0)@ == v,
            Option::None => r is None,
        },
{
    proof {
        lemma_inj_view_len(inj@);
        assert(inj@.subrange(0, inj@.len() as int) =~= inj@);
    }
    let n: usize = inj.len();
    let mut i: usize = 0;
    while i < n
        invariant
            i <= n,
            n == inj@.len(),
            assoc(inj_view(inj@.subrange(i as int, n as int)), name@) == assoc(
                inj_view(inj@),
                name@,
            ),
        decreases n - i,
    {
        proof {
            let suf = inj@.subrange(i as int, n as int);
            assert(suf.drop_first() =~= inj@.subrange(i + 1, n as int));
            assert(suf[0] == inj@[i as int]);
            assert(inj_view(suf) == seq![(suf[0].0@, suf[0].1@)] + inj_view(suf.drop_first()));
            lemma_inj_view_len(suf);
        }
        if crate::text::str_eq(inj[i].0.as_str(), name) {
            proof {
                let suf = inj@.subrange(i as int, n as int);
                assert(inj_view(suf)[0] == (suf[0].0@, suf[0].1@));
                assert(assoc(inj_view(suf), name@) == Option::Some(suf[0].1@));
            }
            return Some(&inj[i].1);
        }
        proof {
            let suf = inj@.subrange(i as int, n as int);
            assert(inj_view(suf)[0] == (suf[0].0@, suf[0].1@));
            assert(inj_view(suf)[0].0 != name@);
            assert(inj_view(suf).drop_first() =~= inj_view(suf.drop_first()));
            assert(assoc(inj_view(suf), name@) == assoc(inj_view(suf.drop_first()), name@));
            assert(inj_view(suf.drop_first()) == inj_view(inj@.subrange(i + 1, n as int)));
        }
        i = i + 1;
    }
    proof {
        assert(inj@.subrange(n as int, n as int) =~= Seq::<(String, String)>::empty());
        assert(inj_view(Seq::<(String, String)>::empty()) == Seq::<(Seq<char>, Seq<char>)>::empty());
    }
    None
}

/// An error that reached `sp_render_from` propagates to the front.
proof fn lemma_render_err_prop(
    content: Seq<char>,
    locs: Seq<LocV>,
    slots: Seq<(Seq<char>, SlotV)>,
    inj: Seq<(Seq<char>, Seq<char>)>,
    j: int,
    k: int,
)
    requires
        0 <= k <= j,
        sp_render_from(content, locs, slots, inj, j) is Err,
    ensures
        sp_render_from(content, locs, slots, inj, k) == sp_render_from(
            content,
            locs,
            slots,
            inj,
            j,
        ),
    decreases j - k,
{
    if k < j {
        lemma_render_err_prop(content, locs, slots, inj, j, k + 1);
    }
}

impl Template {
    /// Create a new template from content: scan it for markers and
    /// build a default slot for each, the last marker of a name
    /// winning.
    pub fn new(content: String) -> (r: Template)
        ensures
            r.content@ == content@,
            r.name@ == "unnamed"@,
            slots_view(r.slots@) == sp_parse_slots(
                content@,
                scan_markers(content@, 0),
                scan_markers(content@, 0).len() as int,
            ),
    {
        let cs = to_chars(content.as_str());
        let locs = find_markers(&cs);
        let ghost locsv = locs_view(locs@);
        proof {
            lemma_locs_view_len(locs@);
        }
        let mut slots: Vec<(String, Slot)> = Vec::new();
        let n: usize = locs.len();
        let mut j: usize = 0;
        proof {
            assert(slots_view(slots@) =~= Seq::<(Seq<char>, SlotV)>::empty());
        }
        while j < n
            invariant
                j <= n,
                n == locs@.len(),
                locsv == locs_view(locs@),
                locsv.len() == n,
                forall|t: int|
                    0 <= t < n ==> (#[trigger] locs@[t]).start <= locs@[t].end <= content@.len(),
                slots_view(slots@) == sp_parse_slots(content@, locsv, j as int),
            decreases n - j,
        {
            proof {
                lemma_locs_view_index(locs@, j as int);
            }
            let loc = &locs[j];
            let mut prompt = String::new();
            prompt.append("Generate code for: ");
            prompt.append(loc.name.as_str());
            let mut slot = Slot::new(copy_string(loc.name.as_str()), prompt);
            match &loc.kind {
                Some(k) => {
                    let kc = match k {
                        SlotKind::Raw => SlotKind::Raw,
                        SlotKind::Function => SlotKind::Function,
                        SlotKind::Class => SlotKind::Class,
                        SlotKind::Html => SlotKind::Html,
                        SlotKind::Css => SlotKind::Css,
                        SlotKind::JavaScript => SlotKind::JavaScript,
                        SlotKind::Component => SlotKind::Component,
                        SlotKind::Custom(t) => SlotKind::Custom(copy_string(t.as_str())),
                    };
                    slot = slot.with_kind(kc);
                },
                None => {},
            }
            proof {
                assert(slot@ == default_slot_for(locsv[j as int]));
            }
            upsert_exec(&mut slots, copy_string(loc.name.as_str()), slot);
            j = j + 1;
            proof {
                assert(sp_parse_slots(content@, locsv, j as int) == upsert(
                    sp_parse_slots(content@, locsv, j - 1),
                    locsv[j - 1].name,
                    default_slot_for(locsv[j - 1]),
                ));
            }
        }
        Template {
            content,
            name: {
                let mut nm = String::new();
                nm.append("unnamed");
                nm
            },
            slots,
            metadata: TemplateMetadata::default(),
        }
    }

    /// Set the template name.
    pub fn with_name(self, name: String) -> (r: Template)
        ensures
            r.name@ == name@,
            r.content@ == self.content@,
            slots_view(r.slots@) == slots_view(self.slots@),
    {
        let mut t = self;
        t.name = name;
        t
    }

    /// Set template metadata.
    pub fn with_metadata(self, metadata: TemplateMetadata) -> (r: Template)
        ensures
            r.name@ == self.name@,
            r.content@ == self.content@,
            slots_view(r.slots@) == slots_view(self.slots@),
    {
        let mut t = self;
        t.metadata = metadata;
        t
    }

    /// Add a slot definition with a custom prompt: an existing slot of
    /// that name keeps its other settings; an unknown name gets a fresh
    /// slot.
    pub fn with_slot(self, name: String, prompt: String) -> (r: Template)
        ensures
            r.content@ == self.content@,
            r.name@ == self.name@,
            slots_view(r.slots@) == upsert(
                slots_view(self.slots@),
                name@,
                match assoc(slots_view(self.slots@), name@) {
                    Option::Some(s) => SlotV { prompt: prompt@, ..s },
                    Option::None => fresh_slot(name@, prompt@),
                },
            ),
    {
        let mut t = self;
        let slot = match find_slot(&t.slots, name.as_str()) {
            Some(existing) => {
                let mut s = copy_slot(existing);
                s.prompt = prompt;
                s
            },
            None => Slot::new(copy_string(name.as_str()), prompt),
        };
        upsert_exec(&mut t.slots, name, slot);
        t
    }

    /// Configure a slot with detailed options, replacing any slot of
    /// the same name.
    pub fn configure_slot(self, slot: Slot) -> (r: Template)
        ensures
            r.content@ == self.content@,
            r.name@ == self.name@,
            slots_view(r.slots@) == upsert(slots_view(self.slots@), slot.name@, slot@),
    {
        let mut t = self;
        let name = copy_string(slot.name.as_str());
        upsert_exec(&mut t.slots, name, slot);
        t
    }

    /// The names of the configured slots, in definition order.
    pub fn slot_names(&self) -> (r: Vec<String>)
        ensures
            r@.len() == self.slots@.len(),
            forall|t: int| 0 <= t < r@.len() ==> (#[trigger] r@[t])@ == self.slots@[t].0@,
    {
        let mut out: Vec<String> = Vec::new();
        let mut i: usize = 0;
        while i < self.slots.len()
            invariant
                i <= self.slots@.len(),
                out@.len() == i,
                forall|t: int| 0 <= t < i ==> (#[trigger] out@[t])@ == self.slots@[t].0@,
            decreases self.slots@.len() - i,
        {
            out.push(copy_string(self.slots[i].0.as_str()));
            i = i + 1;
        }
        out
    }

    /// Render the template: replace every marker, from the last
    /// position to the first, with the supplied injection, or an
    /// optional slot's default; a required slot without an injection is
    /// an error naming it.
    pub fn render(&self, injections: &Vec<(String, String)>) -> (r: Result<
        String,
        AetherError,
    >)
        ensures
            match sp_render(self.content@, slots_view(self.slots@), inj_view(injections@)) {
                Result::Ok(t) => r is Ok && (r->Ok_0)@ == t,
                Result::Err(name) => r matches Err(AetherError::SlotNotFound(n)) && n@ == name,
            },
    {
        let cs = to_chars(self.content.as_str());
        let locs = find_markers(&cs);
        let ghost locsv = locs_view(locs@);
        let ghost slotsv = slots_view(self.slots@);
        let ghost injv = inj_view(injections@);
        proof {
            lemma_locs_view_len(locs@);
        }
        let mut text: Vec<char> = cs;
        let n: usize = locs.len();
        let mut j: usize = n;
        while j > 0
            invariant
                j <= n,
                n == locs@.len(),
                locsv == locs_view(locs@),
                locsv == scan_markers(self.content@, 0),
                locsv.len() == n,
                slotsv == slots_view(self.slots@),
                injv == inj_view(injections@),
                sp_render_from(self.content@, locsv, slotsv, injv, j as int) == Result::<
                    Seq<char>,
                    Seq<char>,
                >::Ok(text@),
            decreases j,
        {
            proof {
                lemma_locs_view_index(locs@, j - 1);
            }
            let loc = &locs[j - 1];
            let fill: String = match assoc_inj(injections, loc.name.as_str()) {
                Some(code) => copy_string(code.as_str()),
                None => {
                    match find_slot(&self.slots, loc.name.as_str()) {
                        Some(slot) => {
                            if slot.required {
                                proof {
                                    assert(fill_of(slotsv, injv, locsv[j - 1].name) == Result::<
                                        Seq<char>,
                                        Seq<char>,
                                    >::Err(locsv[j - 1].name));
                                    assert(sp_render_from(self.content@, locsv, slotsv, injv, j - 1)
                                        == Result::<Seq<char>, Seq<char>>::Err(
                                        locsv[j - 1].name,
                                    ));
                                    lemma_render_err_prop(
                                        self.content@,
                                        locsv,
                                        slotsv,
                                        injv,
                                        j - 1,
                                        0,
                                    );
                                    assert(sp_render(self.content@, slotsv, injv)
                                        == sp_render_from(
                                        self.content@,
                                        locsv,
                                        slotsv,
                                        injv,
                                        0,
                                    ));
                                }
                                return Err(
                                    AetherError::SlotNotFound(copy_string(loc.name.as_str())),
                                );
                            } else {
                                match &slot.default {
                                    Some(d) => copy_string(d.as_str()),
                                    None => String::new(),
                                }
                            }
                        },
                        None => {
                            proof {
                                assert(fill_of(slotsv, injv, locsv[j - 1].name) == Result::<
                                    Seq<char>,
                                    Seq<char>,
                                >::Err(locsv[j - 1].name));
                                assert(sp_render_from(self.content@, locsv, slotsv, injv, j - 1)
                                    == Result::<Seq<char>, Seq<char>>::Err(locsv[j - 1].name));
                                lemma_render_err_prop(self.content@, locsv, slotsv, injv, j - 1, 0);
                                assert(sp_render(self.content@, slotsv, injv) == sp_render_from(
                                    self.content@,
                                    locsv,
                                    slotsv,
                                    injv,
                                    0,
                                ));
                            }
                            return Err(AetherError::SlotNotFound(copy_string(loc.name.as_str())));
                        },
                    }
                },
            };
            if !(loc.start <= loc.end && loc.end <= text.len()) {
                proof {
                    assert(sp_render_from(self.content@, locsv, slotsv, injv, j - 1) == Result::<
                        Seq<char>,
                        Seq<char>,
                    >::Err(locsv[j - 1].name));
                    lemma_render_err_prop(self.content@, locsv, slotsv, injv, j - 1, 0);
                    assert(sp_render(self.content@, slotsv, injv) == sp_render_from(
                        self.content@,
                        locsv,
                        slotsv,
                        injv,
                        0,
                    ));
                }
                return Err(AetherError::SlotNotFound(copy_string(loc.name.as_str())));
            }
            let ghost prev = text@;
            let mut spliced = crate::text::subchars(&text, 0, loc.start);
            crate::text::append_str_chars(&mut spliced, fill.as_str());
            let tail = crate::text::subchars(&text, loc.end, text.len());
            crate::text::append_chars(&mut spliced, &tail);
            text = spliced;
            proof {
                assert(text@ =~= prev.subrange(0, locsv[j - 1].start) + fill@ + prev.subrange(
                    locsv[j - 1].end,
                    prev.len() as int,
                ));
                assert(fill_of(slotsv, injv, locsv[j - 1].name) == Result::<
                    Seq<char>,
                    Seq<char>,
                >::Ok(fill@));
                assert(sp_render_from(self.content@, locsv, slotsv, injv, j - 1) == Result::<
                    Seq<char>,
                    Seq<char>,
                >::Ok(text@));
            }
            j = j - 1;
        }
        proof {
            assert(sp_render(self.content@, slotsv, injv) == sp_render_from(
                self.content@,
                locsv,
                slotsv,
                injv,
                0,
            ));
        }
        Ok(crate::text::from_chars(&text))
    }

    /// Check that every required slot has an injection: `Ok` exactly
    /// when none is missing.
    pub fn validate(&self, injections: &Vec<(String, String)>) -> (r: Result<(), AetherError>)
        ensures
            r is Ok <==> (forall|t: int|
                0 <= t < slots_view(self.slots@).len() ==> ((#[trigger] slots_view(
                    self.slots@,
                )[t]).1.required ==> assoc(
                    inj_view(injections@),
                    slots_view(self.slots@)[t].0,
                ) is Some)),
    {
        proof {
            lemma_slots_view_len(self.slots@);
        }
        let n: usize = self.slots.len();
        let mut i: usize = 0;
        while i < n
            invariant
                i <= n,
                n == self.slots@.len(),
                slots_view(self.slots@).len() == n,
                forall|t: int|
                    0 <= t < i ==> ((#[trigger] slots_view(self.slots@)[t]).1.required ==> assoc(
                        inj_view(injections@),
                        slots_view(self.slots@)[t].0,
                    ) is Some),
            decreases n - i,
        {
            proof {
                lemma_slots_view_index(self.slots@, i as int);
            }
            if self.slots[i].1.required {
                match assoc_inj(injections, self.slots[i].0.as_str()) {
                    Some(_) => {},
                    None => {
                        return Err(
                            AetherError::SlotNotFound(copy_string(self.slots[i].0.as_str())),
                        );
                    },
                }
            }
            i = i + 1;
        }
        Ok(())
    }
}

// ------------------------------------------------------------------
// Laws
// ------------------------------------------------------------------

/// Marker spans as the scanner reports them: in bounds, nonempty,
/// ascending and non-overlapping.
pub proof fn lemma_scan_spans(s: Seq<char>, i: int)
    requires
        0 <= i,
    ensures
        forall|j: int|
            0 <= j < scan_markers(s, i).len() ==> i <= (#[trigger] scan_markers(s, i)[j]).start
                && scan_markers(s, i)[j].start < scan_markers(s, i)[j].end <= s.len(),
        forall|j: int, k: int|
            0 <= j < k < scan_markers(s, i).len() ==> (#[trigger] scan_markers(s, i)[j]).end <= (
            #[trigger] scan_markers(s, i)[k]).start,
    decreases s.len() - i,
{
    if i >= s.len() {
    } else {
        match marker_at(s, i) {
            Option::Some((end, name, kind)) => {
                if end > i {
                    lemma_marker_end_bound(s, i);
                    lemma_scan_spans(s, end);
                    let head = scan_markers(s, i)[0];
                    let tail = scan_markers(s, end);
                    assert(forall|t: int|
                        0 <= t < tail.len() ==> #[trigger] scan_markers(s, i)[t + 1] == tail[t]);
                    assert(head.start == i && head.end == end);
                }
            },
            Option::None => {
                lemma_scan_spans(s, i + 1);
            },
        }
    }
}

/// The spliced text once every marker from `j` on is replaced by its
/// fill, highest position first.
pub open spec fn sp_splice_from(
    content: Seq<char>,
    locs: Seq<LocV>,
    slots: Seq<(Seq<char>, SlotV)>,
    inj: Seq<(Seq<char>, Seq<char>)>,
    j: int,
) -> Seq<char>
    decreases locs.len() - j,
{
    if j < 0 || j >= locs.len() {
        content
    } else {
        let t = sp_splice_from(content, locs, slots, inj, j + 1);
        t.subrange(0, locs[j].start) + (match fill_of(slots, inj, locs[j].name) {
            Result::Ok(code) => code,
            Result::Err(_) => Seq::empty(),
        }) + t.subrange(locs[j].end, t.len() as int)
    }
}

proof fn lemma_render_from_resolvable(
    content: Seq<char>,
    locs: Seq<LocV>,
    slots: Seq<(Seq<char>, SlotV)>,
    inj: Seq<(Seq<char>, Seq<char>)>,
    j: int,
)
    requires
        0 <= j <= locs.len(),
        forall|t: int|
            0 <= t < locs.len() ==> 0 <= (#[trigger] locs[t]).start && locs[t].start < locs[t].end
                <= content.len(),
        forall|t: int, k: int| 0 <= t < k < locs.len() ==> (#[trigger] locs[t]).end <= (
        #[trigger] locs[k]).start,
        forall|t: int|
            0 <= t < locs.len() ==> fill_of(slots, inj, (#[trigger] locs[t]).name) is Ok,
    ensures
        sp_render_from(content, locs, slots, inj, j) == Result::<Seq<char>, Seq<char>>::Ok(
            sp_splice_from(content, locs, slots, inj, j),
        ),
        sp_splice_from(content, locs, slots, inj, j).len() >= if j < locs.len() {
            locs[j].start
        } else {
            0
        },
    decreases locs.len() - j,
{
    if j < locs.len() {
        lemma_render_from_resolvable(content, locs, slots, inj, j + 1);
        let t = sp_splice_from(content, locs, slots, inj, j + 1);
        assert(locs[j].end <= t.len()) by {
            if j + 1 < locs.len() {
                assert(locs[j].end <= locs[j + 1].start);
            } else {
                assert(t == content);
            }
        }
    }
}

/// A render whose every marker resolves — an injection was supplied, or
/// the slot is optional — succeeds, and the output is the text with
/// each marker span replaced by its fill: the injection, or the
/// optional slot's default, verbatim.
pub proof fn lemma_render_resolvable(
    content: Seq<char>,
    slots: Seq<(Seq<char>, SlotV)>,
    inj: Seq<(Seq<char>, Seq<char>)>,
)
    requires
        forall|t: int|
            0 <= t < scan_markers(content, 0).len() ==> fill_of(
                slots,
                inj,
                (#[trigger] scan_markers(content, 0)[t]).name,
            ) is Ok,
    ensures
        sp_render(content, slots, inj) == Result::<Seq<char>, Seq<char>>::Ok(
            sp_splice_from(content, scan_markers(content, 0), slots, inj, 0),
        ),
{
    lemma_scan_spans(content, 0);
    lemma_render_from_resolvable(content, scan_markers(content, 0), slots, inj, 0);
}

/// Rendering is deterministic: two renders of the same template with
/// the same injection map give byte-identical output.
pub proof fn lemma_render_idempotent(
    content: Seq<char>,
    slots: Seq<(Seq<char>, SlotV)>,
    inj: Seq<(Seq<char>, Seq<char>)>,
    r1: Result<Seq<char>, Seq<char>>,
    r2: Result<Seq<char>, Seq<char>>,
)
    requires
        r1 == sp_render(content, slots, inj),
        r2 == sp_render(content, slots, inj),
    ensures
        r1 == r2,
{
}

/// A template whose text holds a marker of a required slot with no
/// injection supplied renders to a missing-slot error.
pub proof fn lemma_missing_required_errs(
    content: Seq<char>,
    slots: Seq<(Seq<char>, SlotV)>,
    inj: Seq<(Seq<char>, Seq<char>)>,
    j: int,
)
    requires
        0 <= j < scan_markers(content, 0).len(),
        assoc(inj, scan_markers(content, 0)[j].name) is None,
        match assoc(slots, scan_markers(content, 0)[j].name) {
            Option::Some(s) => s.required,
            Option::None => true,
        },
    ensures
        sp_render(content, slots, inj) is Err,
{
    let locs = scan_markers(content, 0);
    lemma_fill_err_renders_err(content, locs, slots, inj, j, 0);
}

proof fn lemma_fill_err_renders_err(
    content: Seq<char>,
    locs: Seq<LocV>,
    slots: Seq<(Seq<char>, SlotV)>,
    inj: Seq<(Seq<char>, Seq<char>)>,
    j: int,
    k: int,
)
    requires
        0 <= k <= j < locs.len(),
        fill_of(slots, inj, locs[j].name) is Err,
    ensures
        sp_render_from(content, locs, slots, inj, k) is Err,
    decreases j - k,
{
    if k == j {
        if sp_render_from(content, locs, slots, inj, j + 1) is Err {
        } else {
        }
    } else {
        lemma_fill_err_renders_err(content, locs, slots, inj, j, k + 1);
    }
}

/// A template whose single marker names an optional slot renders, with
/// no injections, to its content with the configured default spliced
/// in verbatim.
pub proof fn lemma_optional_default(
    content: Seq<char>,
    slots: Seq<(Seq<char>, SlotV)>,
    name: Seq<char>,
    d: Seq<char>,
)
    requires
        scan_markers(content, 0).len() == 1,
        scan_markers(content, 0)[0].name == name,
        ({
            let s = assoc(slots, name);
            s is Some && !s->0.required && s->0.default == Option::Some(d)
        }),
        0 <= scan_markers(content, 0)[0].start <= scan_markers(content, 0)[0].end <= content.len(),
    ensures
        sp_render(content, slots, Seq::empty()) == Result::<Seq<char>, Seq<char>>::Ok(
            content.subrange(0, scan_markers(content, 0)[0].start) + d + content.subrange(
                scan_markers(content, 0)[0].end,
                content.len() as int,
            ),
        ),
{
    let locs = scan_markers(content, 0);
    assert(assoc(Seq::<(Seq<char>, Seq<char>)>::empty(), name) is None);
    assert(fill_of(slots, Seq::empty(), name) == Result::<Seq<char>, Seq<char>>::Ok(d));
    assert(sp_render_from(content, locs, slots, Seq::empty(), 1) == Result::<
        Seq<char>,
        Seq<char>,
    >::Ok(content));
}

} // verus!
