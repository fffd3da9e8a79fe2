//! TOON, a compact whitespace-indented notation for structured values.
//!
//! The codec turns a tree of objects, arrays and scalars into an indented
//! text form and back: objects become `key: value` lines, arrays of
//! uniformly-shaped objects become a `{field,...}:` header followed by one
//! comma-joined row per element, other arrays become `- value` lines, and
//! the scalars render as `~` (null), `T`/`F` (booleans), decimal digits,
//! or the string itself.

use vstd::prelude::*;
use vstd::string::StringExecFns;
use crate::text::{sp_int_str, sp_nat_digits};

verus! {

/// A structured value: the same shape as a JSON-like tree, with objects
/// kept as ordered key/value sequences.
#[derive(Debug, PartialEq)]
pub enum ToonValue {
    Null,
    Bool(bool),
    Int(i64),
    Text(String),
    List(Vec<ToonValue>),
    Object(Vec<(String, ToonValue)>),
}

/// The mathematical model of a `ToonValue`.
pub enum ToonV {
    Null,
    Bool(bool),
    Int(int),
    Text(Seq<char>),
    List(Seq<ToonV>),
    Object(Seq<(Seq<char>, ToonV)>),
}

pub open spec fn list_view(s: Seq<ToonValue>) -> Seq<ToonV>
    decreases s,
{
    if s.len() == 0 {
        Seq::empty()
    } else {
        seq![s[0]@] + list_view(s.drop_first())
    }
}

pub open spec fn fields_view(s: Seq<(String, ToonValue)>) -> Seq<(Seq<char>, ToonV)>
    decreases s,
{
    if s.len() == 0 {
        Seq::empty()
    } else {
        seq![(s[0].0@, s[0].1@)] + fields_view(s.drop_first())
    }
}

impl View for ToonValue {
    type V = ToonV;

    open spec fn view(&self) -> ToonV
        decreases self,
    {
        match self {
            ToonValue::Null => ToonV::Null,
            ToonValue::Bool(b) => ToonV::Bool(*b),
            ToonValue::Int(i) => ToonV::Int(*i as int),
            ToonValue::Text(s) => ToonV::Text(s@),
            ToonValue::List(items) => ToonV::List(list_view(items@)),
            ToonValue::Object(fs) => ToonV::Object(fields_view(fs@)),
        }
    }
}

pub broadcast proof fn lemma_list_view_index(s: Seq<ToonValue>, i: int)
    requires
        0 <= i < s.len(),
    ensures
        list_view(s).len() == s.len(),
        #[trigger] list_view(s)[i] == s[i]@,
    decreases s.len(),
{
    assert(list_view(s) == seq![s[0]@] + list_view(s.drop_first()));
    lemma_list_view_len(s.drop_first());
    if i > 0 {
        lemma_list_view_index(s.drop_first(), i - 1);
    }
}

pub proof fn lemma_list_view_len(s: Seq<ToonValue>)
    ensures
        list_view(s).len() == s.len(),
    decreases s.len(),
{
    if s.len() > 0 {
        lemma_list_view_len(s.drop_first());
        assert(list_view(s) == seq![s[0]@] + list_view(s.drop_first()));
    } else {
        assert(list_view(s).len() == 0);
    }
}

pub broadcast proof fn lemma_fields_view_index(s: Seq<(String, ToonValue)>, i: int)
    requires
        0 <= i < s.len(),
    ensures
        fields_view(s).len() == s.len(),
        #[trigger] fields_view(s)[i] == (s[i].0@, s[i].1@),
    decreases s.len(),
{
    assert(fields_view(s) == seq![(s[0].0@, s[0].1@)] + fields_view(s.drop_first()));
    lemma_fields_view_len(s.drop_first());
    if i > 0 {
        lemma_fields_view_index(s.drop_first(), i - 1);
    }
}

pub proof fn lemma_fields_view_len(s: Seq<(String, ToonValue)>)
    ensures
        fields_view(s).len() == s.len(),
    decreases s.len(),
{
    if s.len() > 0 {
        lemma_fields_view_len(s.drop_first());
        assert(fields_view(s) == seq![(s[0].0@, s[0].1@)] + fields_view(s.drop_first()));
    } else {
        assert(fields_view(s).len() == 0);
    }
}

// ------------------------------------------------------------------
// Scalar rendering and comma escaping
// ------------------------------------------------------------------

pub open spec fn is_scalar(v: ToonV) -> bool {
    match v {
        ToonV::List(_) => false,
        ToonV::Object(_) => false,
        _ => true,
    }
}

/// The text of a scalar in object-field or list-item position.  A nested
/// value that reaches here (only possible inside a non-uniform array,
/// which the format does not round-trip) collapses to `~`.
pub open spec fn sp_scalar(v: ToonV) -> Seq<char> {
    match v {
        ToonV::Null => seq!['~'],
        ToonV::Bool(b) => if b { seq!['T'] } else { seq!['F'] },
        ToonV::Int(i) => sp_int_str(i),
        ToonV::Text(s) => s,
        _ => seq!['~'],
    }
}

/// Escape literal commas as `\,` for use inside a tabular row.
pub open spec fn esc_commas(s: Seq<char>) -> Seq<char>
    decreases s.len(),
{
    if s.len() == 0 {
        Seq::empty()
    } else if s[0] == ',' {
        seq!['\\', ','] + esc_commas(s.drop_first())
    } else {
        seq![s[0]] + esc_commas(s.drop_first())
    }
}

/// Undo `\,` escapes.
pub open spec fn unesc_commas(s: Seq<char>) -> Seq<char>
    decreases s.len(),
{
    if s.len() == 0 {
        Seq::empty()
    } else if s[0] == '\\' && s.len() > 1 && s[1] == ',' {
        seq![','] + unesc_commas(s.subrange(2, s.len() as int))
    } else {
        seq![s[0]] + unesc_commas(s.drop_first())
    }
}

/// The text of a scalar inside a tabular row.  A nested value collapses
/// to `.`, as in the flat fallback of the encoder.
pub open spec fn sp_cell(v: ToonV) -> Seq<char> {
    match v {
        ToonV::Null => seq!['~'],
        ToonV::Bool(b) => if b { seq!['T'] } else { seq!['F'] },
        ToonV::Int(i) => sp_int_str(i),
        ToonV::Text(s) => esc_commas(s),
        _ => seq!['.'],
    }
}

// ------------------------------------------------------------------
// The line model
// ------------------------------------------------------------------

/// One non-blank line of TOON text: an indentation depth in spaces and
/// the body after it.
pub struct ToonLine {
    pub ind: nat,
    pub body: Seq<char>,
}

pub open spec fn sp_spaces(n: nat) -> Seq<char>
    decreases n,
{
    if n == 0 {
        Seq::empty()
    } else {
        seq![' '] + sp_spaces((n - 1) as nat)
    }
}

/// Text of a sequence of lines: indentation, body, newline for each.
pub open spec fn lines_text(ls: Seq<ToonLine>) -> Seq<char>
    decreases ls.len(),
{
    if ls.len() == 0 {
        Seq::empty()
    } else {
        sp_spaces(ls[0].ind) + ls[0].body + seq!['\n'] + lines_text(ls.drop_first())
    }
}

pub open spec fn join_keys(keys: Seq<Seq<char>>) -> Seq<char>
    decreases keys.len(),
{
    if keys.len() == 0 {
        Seq::empty()
    } else if keys.len() == 1 {
        keys[0]
    } else {
        keys[0] + seq![','] + join_keys(keys.drop_first())
    }
}

/// The keys of a tabular array: those of the first element.
pub open spec fn tab_keys(fs: Seq<(Seq<char>, ToonV)>) -> Seq<Seq<char>> {
    fs.map(|i: int, f: (Seq<char>, ToonV)| f.0)
}

/// A tabular row: the cells of one element, in header-key order.  A key
/// the element lacks renders as `~`; lookup takes the first match.
pub open spec fn row_cells(keys: Seq<Seq<char>>, fs: Seq<(Seq<char>, ToonV)>) -> Seq<Seq<char>> {
    keys.map(|i: int, k: Seq<char>| cell_for_key(fs, k))
}

pub open spec fn cell_for_key(fs: Seq<(Seq<char>, ToonV)>, k: Seq<char>) -> Seq<char>
    decreases fs.len(),
{
    if fs.len() == 0 {
        seq!['~']
    } else if fs[0].0 == k {
        sp_cell(fs[0].1)
    } else {
        cell_for_key(fs.drop_first(), k)
    }
}

// ------------------------------------------------------------------
// Encoding to lines
// ------------------------------------------------------------------

pub open spec fn enc_obj_lines(fs: Seq<(Seq<char>, ToonV)>, d: nat) -> Seq<ToonLine>
    decreases fs, 1int,
{
    if fs.len() == 0 {
        Seq::empty()
    } else {
        enc_field_lines(fs[0].0, fs[0].1, d) + enc_obj_lines(fs.drop_first(), d)
    }
}

pub open spec fn enc_field_lines(k: Seq<char>, v: ToonV, d: nat) -> Seq<ToonLine>
    decreases v, 0int,
{
    match v {
        ToonV::Object(gs) => seq![ToonLine { ind: 2 * d, body: k + seq![':'] }] + enc_obj_lines(
            gs,
            d + 1,
        ),
        ToonV::List(items) => seq![
            ToonLine {
                ind: 2 * d,
                body: k + seq!['['] + sp_nat_digits(items.len()) + seq![']', ':'],
            },
        ] + enc_list_lines(items, d + 1),
        _ => seq![ToonLine { ind: 2 * d, body: k + seq![':', ' '] + sp_scalar(v) }],
    }
}

pub open spec fn enc_list_lines(items: Seq<ToonV>, d: nat) -> Seq<ToonLine> {
    if items.len() > 0 && (items[0] is Object) {
        enc_tab_lines(items, d)
    } else {
        enc_plain_items(items, d)
    }
}

pub open spec fn enc_plain_items(items: Seq<ToonV>, d: nat) -> Seq<ToonLine>
    decreases items.len(),
{
    if items.len() == 0 {
        Seq::empty()
    } else {
        seq![ToonLine { ind: 2 * d, body: seq!['-', ' '] + sp_scalar(items[0]) }]
            + enc_plain_items(items.drop_first(), d)
    }
}

pub open spec fn enc_tab_lines(items: Seq<ToonV>, d: nat) -> Seq<ToonLine> {
    let keys = tab_keys(items[0]->Object_0);
    seq![ToonLine { ind: 2 * d, body: seq!['{'] + join_keys(keys) + seq!['}', ':'] }]
        + enc_tab_rows(keys, items, d)
}

pub open spec fn enc_tab_rows(keys: Seq<Seq<char>>, items: Seq<ToonV>, d: nat) -> Seq<ToonLine>
    decreases items.len(),
{
    if items.len() == 0 {
        Seq::empty()
    } else {
        let cells = match items[0] {
            ToonV::Object(fs) => row_cells(keys, fs),
            _ => Seq::empty(),
        };
        seq![ToonLine { ind: 2 * d, body: join_keys(cells) }] + enc_tab_rows(
            keys,
            items.drop_first(),
            d,
        )
    }
}

/// The full encoded text of a value.
pub open spec fn sp_encode(v: ToonV) -> Seq<char> {
    match v {
        ToonV::Object(fs) => lines_text(enc_obj_lines(fs, 0)),
        ToonV::List(items) => lines_text(enc_list_lines(items, 0)),
        _ => sp_scalar(v),
    }
}

// ------------------------------------------------------------------
// Exec encoding
// ------------------------------------------------------------------

pub broadcast proof fn lemma_lines_text_concat(a: Seq<ToonLine>, b: Seq<ToonLine>)
    ensures
        #[trigger] lines_text(a + b) == lines_text(a) + lines_text(b),
    decreases a.len(),
{
    if a.len() == 0 {
        assert(a + b =~= b);
        assert(lines_text(a) + lines_text(b) =~= lines_text(b));
    } else {
        lemma_lines_text_concat(a.drop_first(), b);
        assert((a + b).drop_first() =~= a.drop_first() + b);
        assert(lines_text(a + b) =~= lines_text(a) + lines_text(b));
    }
}

pub proof fn lemma_lines_text_one(l: ToonLine)
    ensures
        lines_text(seq![l]) == sp_spaces(l.ind) + l.body + seq!['\n'],
{
    assert(seq![l].drop_first() =~= Seq::<ToonLine>::empty());
    assert(lines_text(Seq::<ToonLine>::empty()) == Seq::<char>::empty());
    assert(lines_text(seq![l]) =~= sp_spaces(l.ind) + l.body + seq!['\n']);
}

/// Append the scalar text of `v`.
fn push_scalar(out: &mut Vec<char>, v: &ToonValue)
    ensures
        final(out)@ == old(out)@ + sp_scalar(v@),
{
    match v {
        ToonValue::Null => {
            out.push('~');
        },
        ToonValue::Bool(b) => {
            if *b {
                out.push('T');
            } else {
                out.push('F');
            }
        },
        ToonValue::Int(i) => {
            crate::text::push_int_chars(out, *i);
        },
        ToonValue::Text(s) => {
            crate::text::append_str_chars(out, s.as_str());
        },
        ToonValue::List(_) => {
            out.push('~');
        },
        ToonValue::Object(_) => {
            out.push('~');
        },
    }
    proof {
        assert(out@ =~= old(out)@ + sp_scalar(v@));
    }
}

/// Append the tabular-cell text of `v` (commas escaped).
fn push_cell(out: &mut Vec<char>, v: &ToonValue)
    ensures
        final(out)@ == old(out)@ + sp_cell(v@),
{
    match v {
        ToonValue::Text(s) => {
            let cs = crate::text::to_chars(s.as_str());
            let ghost t = s@;
            let n: usize = cs.len();
            let mut i: usize = 0;
            proof {
                assert(t.subrange(0, n as int) =~= t);
            }
            while i < n
                invariant
                    i <= n,
                    n == t.len(),
                    cs@ == t,
                    out@ + esc_commas(t.subrange(i as int, n as int)) == old(out)@ + esc_commas(
                        t,
                    ),
                decreases n - i,
            {
                proof {
                    assert(t.subrange(i as int, n as int).drop_first() =~= t.subrange(
                        i + 1,
                        n as int,
                    ));
                }
                if cs[i] == ',' {
                    out.push('\\');
                    out.push(',');
                } else {
                    out.push(cs[i]);
                }
                i = i + 1;
                proof {
                    assert(out@ + esc_commas(t.subrange(i as int, n as int)) =~= old(out)@
                        + esc_commas(t));
                }
            }
            proof {
                assert(t.subrange(n as int, n as int) =~= Seq::<char>::empty());
                assert(out@ =~= old(out)@ + esc_commas(t));
            }
        },
        ToonValue::Null => {
            out.push('~');
            proof {
                assert(out@ =~= old(out)@ + sp_cell(v@));
            }
        },
        ToonValue::Bool(b) => {
            if *b {
                out.push('T');
            } else {
                out.push('F');
            }
            proof {
                assert(out@ =~= old(out)@ + sp_cell(v@));
            }
        },
        ToonValue::Int(i) => {
            crate::text::push_int_chars(out, *i);
        },
        ToonValue::List(_) => {
            out.push('.');
            proof {
                assert(out@ =~= old(out)@ + sp_cell(v@));
            }
        },
        ToonValue::Object(_) => {
            out.push('.');
            proof {
                assert(out@ =~= old(out)@ + sp_cell(v@));
            }
        },
    }
}

/// Append one full line: indentation, body writer, newline.
///
/// Emitting a line is done inline at each site; this helper appends the
/// indentation pad.
fn push_pad(out: &mut Vec<char>, pad: &Vec<char>, Ghost(d): Ghost<nat>)
    requires
        pad@ == sp_spaces(2 * d),
    ensures
        final(out)@ == old(out)@ + sp_spaces(2 * d),
{
    crate::text::append_chars(out, pad);
}

/// Append the plain `- value` lines of a non-tabular array.
fn push_plain_items(out: &mut Vec<char>, items: &Vec<ToonValue>, pad: &Vec<char>, Ghost(d): Ghost<
    nat,
>)
    requires
        pad@ == sp_spaces(2 * d),
    ensures
        final(out)@ == old(out)@ + lines_text(enc_plain_items(list_view(items@), d)),
{
    broadcast use lemma_list_view_index, lemma_lines_text_concat;

    let ghost gits = list_view(items@);
    proof {
        lemma_list_view_len(items@);
    }
    let n: usize = items.len();
    let mut i: usize = 0;
    proof {
        assert(gits.subrange(0, n as int) =~= gits);
    }
    while i < n
        invariant
            i <= n,
            n == items@.len(),
            gits == list_view(items@),
            gits.len() == n,
            pad@ == sp_spaces(2 * d),
            out@ + lines_text(enc_plain_items(gits.subrange(i as int, n as int), d)) == old(out)@
                + lines_text(enc_plain_items(gits, d)),
        decreases n - i,
    {
        proof {
            assert(gits.subrange(i as int, n as int).drop_first() =~= gits.subrange(
                i + 1,
                n as int,
            ));
        }
        push_pad(out, pad, Ghost(d));
        out.push('-');
        out.push(' ');
        push_scalar(out, &items[i]);
        out.push('\n');
        i = i + 1;
        proof {
            let suf = gits.subrange(i - 1, n as int);
            let line = ToonLine { ind: 2 * d, body: seq!['-', ' '] + sp_scalar(suf[0]) };
            assert(suf[0] == gits[i - 1]);
            lemma_list_view_index(items@, i - 1);
            assert(gits[i - 1] == items@[i - 1]@);
            assert(sp_scalar(suf[0]) == sp_scalar(items@[i - 1]@));
            assert(line.body =~= seq!['-'] + seq![' '] + sp_scalar(items@[i - 1]@));
            assert(enc_plain_items(suf, d) == seq![line] + enc_plain_items(suf.drop_first(), d));
            lemma_lines_text_one(line);
            lemma_lines_text_concat(seq![line], enc_plain_items(suf.drop_first(), d));
            assert(out@ + lines_text(enc_plain_items(gits.subrange(i as int, n as int), d)) =~= old(
                out,
            )@ + lines_text(enc_plain_items(gits, d)));
        }
    }
    proof {
        assert(gits.subrange(n as int, n as int) =~= Seq::<ToonV>::empty());
        assert(out@ =~= old(out)@ + lines_text(enc_plain_items(gits, d)));
    }
}

/// Append the cell for `key` of the row element whose fields are `fs`:
/// the first field with that key, or `~` when there is none.
fn push_row_cell(out: &mut Vec<char>, fs: &Vec<(String, ToonValue)>, key: &str)
    ensures
        final(out)@ == old(out)@ + cell_for_key(fields_view(fs@), key@),
{
    broadcast use lemma_fields_view_index;

    let ghost gfs = fields_view(fs@);
    proof {
        lemma_fields_view_len(fs@);
    }
    let n: usize = fs.len();
    let mut t: usize = 0;
    proof {
        assert(gfs.subrange(0, n as int) =~= gfs);
    }
    while t < n
        invariant
            t <= n,
            n == fs@.len(),
            gfs == fields_view(fs@),
            gfs.len() == n,
            out@ == old(out)@,
            cell_for_key(gfs.subrange(t as int, n as int), key@) == cell_for_key(gfs, key@),
            forall|u: int| 0 <= u < t ==> gfs[u].0 != key@,
        decreases n - t,
    {
        proof {
            assert(gfs.subrange(t as int, n as int).drop_first() =~= gfs.subrange(
                t + 1,
                n as int,
            ));
            assert(gfs.subrange(t as int, n as int)[0] == gfs[t as int]);
            lemma_fields_view_index(fs@, t as int);
            assert(gfs[t as int] == (fs@[t as int].0@, fs@[t as int].1@));
        }
        if crate::text::str_eq(fs[t].0.as_str(), key) {
            push_cell(out, &fs[t].1);
            proof {
                assert(gfs.subrange(t as int, n as int)[0].0 == key@);
                assert(cell_for_key(gfs.subrange(t as int, n as int), key@) == sp_cell(
                    gfs.subrange(t as int, n as int)[0].1,
                ));
                assert(sp_cell(gfs[t as int].1) == sp_cell(fs@[t as int].1@));
                assert(out@ =~= old(out)@ + cell_for_key(gfs, key@));
            }
            return ;
        }
        t = t + 1;
    }
    out.push('~');
    proof {
        assert(gfs.subrange(n as int, n as int) =~= Seq::<(Seq<char>, ToonV)>::empty());
        assert(cell_for_key(gfs.subrange(n as int, n as int), key@) == seq!['~']);
        assert(out@ =~= old(out)@ + cell_for_key(gfs, key@));
    }
}

/// Append the header and rows of a tabular array.
fn push_tab_lines(out: &mut Vec<char>, items: &Vec<ToonValue>, pad: &Vec<char>, Ghost(d): Ghost<
    nat,
>)
    requires
        pad@ == sp_spaces(2 * d),
        items@.len() > 0,
        list_view(items@)[0] is Object,
    ensures
        final(out)@ == old(out)@ + lines_text(enc_tab_lines(list_view(items@), d)),
{
    broadcast use lemma_list_view_index, lemma_fields_view_index, lemma_lines_text_concat;

    let ghost gits = list_view(items@);
    proof {
        lemma_list_view_len(items@);
    }
    let fs0 = match &items[0] {
        ToonValue::Object(fs) => fs,
        _ => {
            proof {
                assert(items@[0]@ == gits[0]);
                assert(false);
            }
            return ;
        },
    };
    let ghost keys = tab_keys(gits[0]->Object_0);
    proof {
        lemma_fields_view_len(fs0@);
        lemma_list_view_index(items@, 0);
        assert(gits[0] == items@[0]@);
        assert(gits[0]->Object_0 == fields_view(fs0@));
        assert(keys.len() == fs0@.len());
        assert(forall|j: int|
            0 <= j < keys.len() ==> keys[j] == #[trigger] fields_view(fs0@)[j].0);
        assert(forall|j: int| 0 <= j < fs0@.len() ==> #[trigger] fields_view(fs0@)[j]
            == (fs0@[j].0@, fs0@[j].1@)) by {
            assert forall|j: int| 0 <= j < fs0@.len() implies #[trigger] fields_view(fs0@)[j]
                == (fs0@[j].0@, fs0@[j].1@) by {
                lemma_fields_view_index(fs0@, j);
            }
        }
    }
    let m: usize = fs0.len();

    // Header line
    push_pad(out, pad, Ghost(d));
    out.push('{');
    let ghost header_start = out@;
    if m > 0 {
        crate::text::append_str_chars(out, fs0[0].0.as_str());
        let mut j: usize = 1;
        while j < m
            invariant
                1 <= j <= m,
                m == keys.len(),
                m == fs0@.len(),
                keys == tab_keys(fields_view(fs0@)),
                forall|u: int| 0 <= u < m ==> keys[u] == #[trigger] fields_view(fs0@)[u].0,
                forall|u: int| 0 <= u < m ==> #[trigger] fields_view(fs0@)[u]
                    == (fs0@[u].0@, fs0@[u].1@),
                fields_view(fs0@).len() == m,
                out@ + (if j < m {
                    seq![','] + join_keys(keys.subrange(j as int, m as int))
                } else {
                    Seq::<char>::empty()
                }) == header_start + join_keys(keys),
            decreases m - j,
        {
            proof {
                assert(keys.subrange(j as int, m as int).drop_first() =~= keys.subrange(
                    j + 1,
                    m as int,
                ));
                assert(keys.subrange(j as int, m as int)[0] == keys[j as int]);
                assert(keys[j as int] == fields_view(fs0@)[j as int].0);
                assert(fields_view(fs0@)[j as int].0 == fs0@[j as int].0@);
            }
            out.push(',');
            crate::text::append_str_chars(out, fs0[j].0.as_str());
            j = j + 1;
            proof {
                assert(out@ + (if j < m {
                    seq![','] + join_keys(keys.subrange(j as int, m as int))
                } else {
                    Seq::<char>::empty()
                }) =~= header_start + join_keys(keys));
            }
        }
        proof {
            if m == 1 {
                assert(join_keys(keys) == keys[0]);
                assert(keys[0] == fields_view(fs0@)[0].0);
            }
            assert(out@ =~= header_start + join_keys(keys));
        }
    } else {
        proof {
            assert(join_keys(keys) =~= Seq::<char>::empty());
            assert(out@ =~= header_start + join_keys(keys));
        }
    }
    out.push('}');
    out.push(':');
    out.push('\n');
    let ghost header_line = ToonLine {
        ind: 2 * d,
        body: seq!['{'] + join_keys(keys) + seq!['}', ':'],
    };
    proof {
        lemma_lines_text_one(header_line);
        assert(out@ =~= old(out)@ + lines_text(seq![header_line]));
    }

    // Rows
    let n: usize = items.len();
    let ghost after_header = out@;
    let mut i: usize = 0;
    proof {
        assert(gits.subrange(0, n as int) =~= gits);
    }
    while i < n
        invariant
            i <= n,
            n == items@.len(),
            gits == list_view(items@),
            gits.len() == n,
            pad@ == sp_spaces(2 * d),
            keys == tab_keys(gits[0]->Object_0),
            keys.len() == fs0@.len(),
            fields_view(fs0@).len() == fs0@.len(),
            forall|u: int| 0 <= u < keys.len() ==> keys[u] == #[trigger] fields_view(fs0@)[u].0,
            forall|u: int| 0 <= u < fs0@.len() ==> #[trigger] fields_view(fs0@)[u]
                == (fs0@[u].0@, fs0@[u].1@),
            out@ + lines_text(enc_tab_rows(keys, gits.subrange(i as int, n as int), d))
                == after_header + lines_text(enc_tab_rows(keys, gits, d)),
            after_header == old(out)@ + lines_text(seq![header_line]),
            header_line == (ToonLine {
                ind: 2 * d,
                body: seq!['{'] + join_keys(keys) + seq!['}', ':'],
            }),
        decreases n - i,
    {
        proof {
            assert(gits.subrange(i as int, n as int).drop_first() =~= gits.subrange(
                i + 1,
                n as int,
            ));
            assert(gits.subrange(i as int, n as int)[0] == gits[i as int]);
            lemma_list_view_index(items@, i as int);
            assert(gits[i as int] == items@[i as int]@);
        }
        push_pad(out, pad, Ghost(d));
        let ghost row_start = out@;
        let ghost cells = match gits[i as int] {
            ToonV::Object(gfs) => row_cells(keys, gfs),
            _ => Seq::<Seq<char>>::empty(),
        };
        match &items[i] {
            ToonValue::Object(gfs_e) => {
                proof {
                    assert(gits[i as int] == ToonV::Object(fields_view(gfs_e@)));
                    assert(cells == row_cells(keys, fields_view(gfs_e@)));
                    assert(cells.len() == keys.len());
                    assert(forall|u: int|
                        0 <= u < cells.len() ==> cells[u] == cell_for_key(
                            fields_view(gfs_e@),
                            #[trigger] keys[u],
                        ));
                }
                let mc: usize = fs0.len();
                if mc > 0 {
                    proof {
                        assert(keys[0] == fields_view(fs0@)[0].0);
                        assert(fields_view(fs0@)[0].0 == fs0@[0].0@);
                    }
                    push_row_cell(out, gfs_e, fs0[0].0.as_str());
                    let mut j: usize = 1;
                    while j < mc
                        invariant
                            1 <= j <= mc,
                            mc == keys.len(),
                            mc == fs0@.len(),
                            fields_view(fs0@).len() == mc,
                            forall|u: int|
                                0 <= u < mc ==> keys[u] == #[trigger] fields_view(fs0@)[u].0,
                            forall|u: int| 0 <= u < mc ==> #[trigger] fields_view(fs0@)[u]
                                == (fs0@[u].0@, fs0@[u].1@),
                            cells.len() == mc,
                            forall|u: int|
                                0 <= u < mc ==> cells[u] == cell_for_key(
                                    fields_view(gfs_e@),
                                    #[trigger] keys[u],
                                ),
                            out@ + (if j < mc {
                                seq![','] + join_keys(cells.subrange(j as int, mc as int))
                            } else {
                                Seq::<char>::empty()
                            }) == row_start + join_keys(cells),
                        decreases mc - j,
                    {
                        proof {
                            assert(cells.subrange(j as int, mc as int).drop_first()
                                =~= cells.subrange(j + 1, mc as int));
                            assert(cells.subrange(j as int, mc as int)[0] == cells[j as int]);
                            assert(keys[j as int] == fields_view(fs0@)[j as int].0);
                            assert(fields_view(fs0@)[j as int].0 == fs0@[j as int].0@);
                        }
                        out.push(',');
                        push_row_cell(out, gfs_e, fs0[j].0.as_str());
                        j = j + 1;
                        proof {
                            assert(out@ + (if j < mc {
                                seq![','] + join_keys(cells.subrange(j as int, mc as int))
                            } else {
                                Seq::<char>::empty()
                            }) =~= row_start + join_keys(cells));
                        }
                    }
                    proof {
                        if mc == 1 {
                            assert(join_keys(cells) == cells[0]);
                        }
                        assert(out@ =~= row_start + join_keys(cells));
                    }
                } else {
                    proof {
                        assert(cells.len() == 0);
                        assert(join_keys(cells) =~= Seq::<char>::empty());
                        assert(out@ =~= row_start + join_keys(cells));
                    }
                }
            },
            _ => {
                proof {
                    assert(cells.len() == 0);
                    assert(join_keys(cells) =~= Seq::<char>::empty());
                    assert(out@ =~= row_start + join_keys(cells));
                }
            },
        }
        out.push('\n');
        i = i + 1;
        proof {
            let suf = gits.subrange(i - 1, n as int);
            let row_line = ToonLine { ind: 2 * d, body: join_keys(cells) };
            assert(enc_tab_rows(keys, suf, d) == seq![row_line] + enc_tab_rows(
                keys,
                suf.drop_first(),
                d,
            ));
            lemma_lines_text_one(row_line);
            lemma_lines_text_concat(seq![row_line], enc_tab_rows(keys, suf.drop_first(), d));
            assert(out@ + lines_text(enc_tab_rows(keys, gits.subrange(i as int, n as int), d))
                =~= after_header + lines_text(enc_tab_rows(keys, gits, d)));
        }
    }
    proof {
        assert(gits.subrange(n as int, n as int) =~= Seq::<ToonV>::empty());
        assert(enc_tab_lines(gits, d) == seq![header_line] + enc_tab_rows(keys, gits, d));
        lemma_lines_text_concat(seq![header_line], enc_tab_rows(keys, gits, d));
        assert(out@ =~= old(out)@ + lines_text(enc_tab_lines(gits, d)));
    }
}

/// Append the lines of an array value.
fn push_list_lines(out: &mut Vec<char>, items: &Vec<ToonValue>, pad: &Vec<char>, Ghost(d): Ghost<
    nat,
>)
    requires
        pad@ == sp_spaces(2 * d),
    ensures
        final(out)@ == old(out)@ + lines_text(enc_list_lines(list_view(items@), d)),
{
    broadcast use lemma_list_view_index;

    proof {
        lemma_list_view_len(items@);
    }
    let is_tab: bool = if items.len() > 0 {
        match &items[0] {
            ToonValue::Object(_) => true,
            _ => false,
        }
    } else {
        false
    };
    proof {
        if items@.len() > 0 {
            assert(list_view(items@)[0] == items@[0]@);
        }
    }
    if is_tab {
        push_tab_lines(out, items, pad, Ghost(d));
    } else {
        push_plain_items(out, items, pad, Ghost(d));
    }
}


pub proof fn lemma_sp_spaces_add(a: nat, b: nat)
    ensures
        sp_spaces(a + b) == sp_spaces(a) + sp_spaces(b),
    decreases a,
{
    if a == 0 {
        assert(sp_spaces(0) == Seq::<char>::empty());
        assert(sp_spaces(a) + sp_spaces(b) =~= sp_spaces(b));
    } else {
        lemma_sp_spaces_add((a - 1) as nat, b);
        assert(sp_spaces(a + b) == seq![' '] + sp_spaces((a + b - 1) as nat));
        assert(sp_spaces(a) + sp_spaces(b) =~= sp_spaces(a + b));
    }
}

/// The indentation pad one level deeper.
fn child_pad(pad: &Vec<char>, Ghost(d): Ghost<nat>) -> (r: Vec<char>)
    requires
        pad@ == sp_spaces(2 * d),
    ensures
        r@ == sp_spaces(2 * (d + 1)),
{
    let mut p: Vec<char> = Vec::new();
    crate::text::append_chars(&mut p, pad);
    p.push(' ');
    p.push(' ');
    proof {
        lemma_sp_spaces_add(2 * d, 2);
        assert(sp_spaces(0) =~= Seq::<char>::empty());
        assert(sp_spaces(1) =~= seq![' ']);
        assert(sp_spaces(2) =~= seq![' ', ' ']);
        assert(p@ =~= sp_spaces(2 * (d + 1)));
    }
    p
}

/// Append the lines of an object's fields at depth `d`.
#[verifier::rlimit(60)]
fn push_obj_lines(out: &mut Vec<char>, fs: &Vec<(String, ToonValue)>, pad: &Vec<char>, Ghost(
    d,
): Ghost<nat>)
    requires
        pad@ == sp_spaces(2 * d),
    ensures
        final(out)@ == old(out)@ + lines_text(enc_obj_lines(fields_view(fs@), d)),
    decreases fs@,
{
    broadcast use lemma_lines_text_concat;

    let ghost gfs = fields_view(fs@);
    proof {
        lemma_fields_view_len(fs@);
        assert(gfs.subrange(0, fs@.len() as int) =~= gfs);
    }
    let n: usize = fs.len();
    let mut i: usize = 0;
    while i < n
        invariant
            i <= n,
            n == fs@.len(),
            gfs == fields_view(fs@),
            gfs.len() == n,
            pad@ == sp_spaces(2 * d),
            out@ + lines_text(enc_obj_lines(gfs.subrange(i as int, n as int), d)) == old(out)@
                + lines_text(enc_obj_lines(gfs, d)),
        decreases n - i,
    {
        proof {
            assert(gfs.subrange(i as int, n as int).drop_first() =~= gfs.subrange(
                i + 1,
                n as int,
            ));
            assert(gfs.subrange(i as int, n as int)[0] == gfs[i as int]);
            lemma_fields_view_index(fs@, i as int);
            assert(gfs[i as int] == (fs@[i as int].0@, fs@[i as int].1@));
        }
        let ghost k = gfs[i as int].0;
        let ghost v = gfs[i as int].1;
        let ghost iter_start = out@;
        push_pad(out, pad, Ghost(d));
        crate::text::append_str_chars(out, fs[i].0.as_str());
        match &fs[i].1 {
            ToonValue::Object(gs) => {
                out.push(':');
                out.push('\n');
                let pad2 = child_pad(pad, Ghost(d));
                proof {
                    assert(decreases_to!(fs@ => fs@[i as int]));
                    assert(decreases_to!(fs@[i as int].1 => *gs));
                    assert(decreases_to!(fs@ => gs@));
                }
                push_obj_lines(out, gs, &pad2, Ghost(d + 1));
                proof {
                    let line = ToonLine { ind: 2 * d, body: k + seq![':'] };
                    assert(v == ToonV::Object(fields_view(gs@)));
                    assert(enc_field_lines(k, v, d) == seq![line] + enc_obj_lines(
                        fields_view(gs@),
                        d + 1,
                    ));
                    lemma_lines_text_one(line);
                    lemma_lines_text_concat(seq![line], enc_obj_lines(fields_view(gs@), d + 1));
                    assert(out@ =~= iter_start + lines_text(enc_field_lines(k, v, d)));
                }
            },
            ToonValue::List(items) => {
                out.push('[');
                proof {
                    lemma_list_view_len(items@);
                }
                crate::text::push_nat_digits(out, items.len() as u64);
                out.push(']');
                out.push(':');
                out.push('\n');
                let pad2 = child_pad(pad, Ghost(d));
                push_list_lines(out, items, &pad2, Ghost(d + 1));
                proof {
                    let line = ToonLine {
                        ind: 2 * d,
                        body: k + seq!['['] + sp_nat_digits(list_view(items@).len()) + seq![
                            ']',
                            ':',
                        ],
                    };
                    assert(v == ToonV::List(list_view(items@)));
                    assert(enc_field_lines(k, v, d) == seq![line] + enc_list_lines(
                        list_view(items@),
                        d + 1,
                    ));
                    lemma_lines_text_one(line);
                    lemma_lines_text_concat(seq![line], enc_list_lines(list_view(items@), d + 1));
                    assert(out@ =~= iter_start + lines_text(enc_field_lines(k, v, d)));
                }
            },
            ToonValue::Null => {
                out.push(':');
                out.push(' ');
                push_scalar(out, &fs[i].1);
                out.push('\n');
                proof {
                    let line = ToonLine { ind: 2 * d, body: k + seq![':', ' '] + sp_scalar(v) };
                    assert(enc_field_lines(k, v, d) == seq![line]);
                    lemma_lines_text_one(line);
                    assert(out@ =~= iter_start + lines_text(enc_field_lines(k, v, d)));
                }
            },
            ToonValue::Bool(_) => {
                out.push(':');
                out.push(' ');
                push_scalar(out, &fs[i].1);
                out.push('\n');
                proof {
                    let line = ToonLine { ind: 2 * d, body: k + seq![':', ' '] + sp_scalar(v) };
                    assert(enc_field_lines(k, v, d) == seq![line]);
                    lemma_lines_text_one(line);
                    assert(out@ =~= iter_start + lines_text(enc_field_lines(k, v, d)));
                }
            },
            ToonValue::Int(_) => {
                out.push(':');
                out.push(' ');
                push_scalar(out, &fs[i].1);
                out.push('\n');
                proof {
                    let line = ToonLine { ind: 2 * d, body: k + seq![':', ' '] + sp_scalar(v) };
                    assert(enc_field_lines(k, v, d) == seq![line]);
                    lemma_lines_text_one(line);
                    assert(out@ =~= iter_start + lines_text(enc_field_lines(k, v, d)));
                }
            },
            ToonValue::Text(_) => {
                out.push(':');
                out.push(' ');
                push_scalar(out, &fs[i].1);
                out.push('\n');
                proof {
                    let line = ToonLine { ind: 2 * d, body: k + seq![':', ' '] + sp_scalar(v) };
                    assert(enc_field_lines(k, v, d) == seq![line]);
                    lemma_lines_text_one(line);
                    assert(out@ =~= iter_start + lines_text(enc_field_lines(k, v, d)));
                }
            },
        }
        i = i + 1;
        proof {
            let suf = gfs.subrange(i - 1, n as int);
            assert(suf[0] == gfs[i - 1]);
            assert(suf[0].0 == k && suf[0].1 == v);
            assert(enc_obj_lines(suf, d) == enc_field_lines(suf[0].0, suf[0].1, d) + enc_obj_lines(
                suf.drop_first(),
                d,
            ));
            lemma_lines_text_concat(
                enc_field_lines(suf[0].0, suf[0].1, d),
                enc_obj_lines(suf.drop_first(), d),
            );
            assert(out@ + lines_text(enc_obj_lines(gfs.subrange(i as int, n as int), d)) =~= old(
                out,
            )@ + lines_text(enc_obj_lines(gfs, d)));
        }
    }
    proof {
        assert(gfs.subrange(n as int, n as int) =~= Seq::<(Seq<char>, ToonV)>::empty());
        assert(lines_text(enc_obj_lines(gfs.subrange(n as int, n as int), d)) =~= Seq::<
            char,
        >::empty());
        assert(out@ =~= old(out)@ + lines_text(enc_obj_lines(gfs, d)));
    }
}

/// The TOON codec: structured value to compact text, and back.
pub struct Toon;

impl Toon {
    /// Serialize a structured value to TOON text.
    pub fn serialize(value: &ToonValue) -> (r: String)
        ensures
            r@ == sp_encode(value@),
    {
        let mut out: Vec<char> = Vec::new();
        let pad: Vec<char> = Vec::new();
        proof {
            assert(pad@ =~= sp_spaces(0));
        }
        match value {
            ToonValue::Object(fs) => {
                push_obj_lines(&mut out, fs, &pad, Ghost(0));
            },
            ToonValue::List(items) => {
                push_list_lines(&mut out, items, &pad, Ghost(0));
            },
            _ => {
                push_scalar(&mut out, value);
            },
        }
        proof {
            assert(out@ =~= sp_encode(value@));
        }
        crate::text::from_chars(&out)
    }
}


// ------------------------------------------------------------------
// Decoding: the line splitter
// ------------------------------------------------------------------

/// Index of the first occurrence of `c`, or the length.
pub open spec fn find_ch(s: Seq<char>, c: char) -> int
    decreases s.len(),
{
    if s.len() == 0 {
        0
    } else if s[0] == c {
        0
    } else {
        1 + find_ch(s.drop_first(), c)
    }
}

/// Number of leading spaces.
pub open spec fn skip_sp(s: Seq<char>) -> int
    decreases s.len(),
{
    if s.len() == 0 {
        0
    } else if s[0] == ' ' {
        1 + skip_sp(s.drop_first())
    } else {
        0
    }
}

pub proof fn lemma_find_ch_loc(s: Seq<char>, c: char, k: int)
    requires
        0 <= k <= s.len(),
        forall|i: int| 0 <= i < k ==> s[i] != c,
        k == s.len() || s[k] == c,
    ensures
        find_ch(s, c) == k,
    decreases k,
{
    if k > 0 {
        lemma_find_ch_loc(s.drop_first(), c, k - 1);
    }
}

pub proof fn lemma_find_ch_bounds(s: Seq<char>, c: char)
    ensures
        0 <= find_ch(s, c) <= s.len(),
        forall|i: int| 0 <= i < find_ch(s, c) ==> s[i] != c,
        find_ch(s, c) < s.len() ==> s[find_ch(s, c)] == c,
    decreases s.len(),
{
    if s.len() > 0 && s[0] != c {
        lemma_find_ch_bounds(s.drop_first(), c);
        assert forall|i: int| 0 <= i < find_ch(s, c) implies s[i] != c by {
            if i > 0 {
                assert(s.drop_first()[i - 1] == s[i]);
            }
        }
    }
}

pub proof fn lemma_skip_sp_loc(s: Seq<char>, k: int)
    requires
        0 <= k <= s.len(),
        forall|i: int| 0 <= i < k ==> s[i] == ' ',
        k == s.len() || s[k] != ' ',
    ensures
        skip_sp(s) == k,
    decreases k,
{
    if k > 0 {
        lemma_skip_sp_loc(s.drop_first(), k - 1);
    }
}

pub proof fn lemma_skip_sp_bounds(s: Seq<char>)
    ensures
        0 <= skip_sp(s) <= s.len(),
        forall|i: int| 0 <= i < skip_sp(s) ==> s[i] == ' ',
        skip_sp(s) < s.len() ==> s[skip_sp(s)] != ' ',
    decreases s.len(),
{
    if s.len() > 0 && s[0] == ' ' {
        lemma_skip_sp_bounds(s.drop_first());
        assert forall|i: int| 0 <= i < skip_sp(s) implies s[i] == ' ' by {
            if i > 0 {
                assert(s.drop_first()[i - 1] == s[i]);
            }
        }
    }
}

/// Split text into non-blank lines, each with its indentation.
pub open spec fn split_lines(s: Seq<char>) -> Seq<ToonLine>
    decreases s.len(),
{
    if s.len() == 0 {
        Seq::empty()
    } else {
        let k = find_ch(s, '\n');
        let line = s.subrange(0, if k < 0 { 0 } else if k > s.len() { s.len() as int } else { k });
        let rest = if 0 <= k && k < s.len() {
            s.subrange(k + 1, s.len() as int)
        } else {
            Seq::empty()
        };
        let tail = split_lines(rest);
        if skip_sp(line) == line.len() {
            tail
        } else {
            seq![
                ToonLine {
                    ind: skip_sp(line) as nat,
                    body: line.subrange(skip_sp(line), line.len() as int),
                },
            ] + tail
        }
    }
}

// ------------------------------------------------------------------
// Decoding: primitives, cells and field heads
// ------------------------------------------------------------------

/// Parse one primitive token: `~`, `T`, `F`, an integer, or a string
/// (with `\,` unescaped).
pub open spec fn parse_prim(s: Seq<char>) -> ToonV {
    if s.len() == 1 && s[0] == '~' {
        ToonV::Null
    } else if s.len() == 1 && s[0] == 'T' {
        ToonV::Bool(true)
    } else if s.len() == 1 && s[0] == 'F' {
        ToonV::Bool(false)
    } else if crate::text::is_int_literal(s) {
        ToonV::Int(crate::text::int_literal_val(s))
    } else {
        ToonV::Text(unesc_commas(s))
    }
}

/// Split on plain commas (for the keys of a tabular header).
pub open spec fn split_plain(s: Seq<char>) -> Seq<Seq<char>>
    decreases s.len(),
{
    if s.len() == 0 {
        seq![Seq::empty()]
    } else if s[0] == ',' {
        seq![Seq::<char>::empty()] + split_plain(s.drop_first())
    } else {
        let r = split_plain(s.drop_first());
        seq![seq![s[0]] + r[0]] + r.drop_first()
    }
}

/// Split on unescaped commas (for the cells of a tabular row); cells
/// keep their escapes.
pub open spec fn split_cells(s: Seq<char>) -> Seq<Seq<char>>
    decreases s.len(),
{
    if s.len() == 0 {
        seq![Seq::empty()]
    } else if s[0] == '\\' && s.len() > 1 && s[1] == ',' {
        let r = split_cells(s.subrange(2, s.len() as int));
        seq![seq!['\\', ','] + r[0]] + r.drop_first()
    } else if s[0] == ',' {
        seq![Seq::<char>::empty()] + split_cells(s.drop_first())
    } else {
        let r = split_cells(s.drop_first());
        seq![seq![s[0]] + r[0]] + r.drop_first()
    }
}

/// How a field line reads: `key: value`, `key:` for a nested object,
/// `key[n]:` for a nested array, or none of these.
pub enum SpFieldHead {
    Bad,
    ScalarField(Seq<char>, Seq<char>),
    ObjKey(Seq<char>),
    ArrKey(Seq<char>),
}

pub open spec fn split_field(b: Seq<char>) -> SpFieldHead {
    if b.len() == 0 {
        SpFieldHead::Bad
    } else if b[0] == '{' {
        SpFieldHead::Bad
    } else if b.len() >= 2 && b[0] == '-' && b[1] == ' ' {
        SpFieldHead::Bad
    } else {
        let c = find_ch(b, ':');
        if c >= b.len() || c == 0 {
            SpFieldHead::Bad
        } else {
            let k = b.subrange(0, c);
            let rest = b.subrange(c + 1, b.len() as int);
            if rest.len() == 0 {
                if k[k.len() - 1] == ']' && find_ch(k, '[') < k.len() {
                    let kk = k.subrange(0, find_ch(k, '['));
                    if kk.len() == 0 {
                        SpFieldHead::Bad
                    } else {
                        SpFieldHead::ArrKey(kk)
                    }
                } else {
                    SpFieldHead::ObjKey(k)
                }
            } else if rest[0] == ' ' {
                SpFieldHead::ScalarField(k, rest.subrange(1, rest.len() as int))
            } else {
                SpFieldHead::Bad
            }
        }
    }
}

// ------------------------------------------------------------------
// Decoding: the line parser
// ------------------------------------------------------------------

/// Deepest indentation the decoder accepts, in spaces.
pub const MAX_DECODE_INDENT: usize = 10000;

/// Parse the scalar items of a plain array at indent `d`.
pub open spec fn parse_items(ls: Seq<ToonLine>, i: int, d: int) -> Option<(Seq<ToonV>, int)>
    decreases ls.len() - i,
{
    if i < 0 || i >= ls.len() || ls[i].ind < d {
        Some((Seq::empty(), i))
    } else if ls[i].ind > d {
        None
    } else {
        let b = ls[i].body;
        if b.len() >= 2 && b[0] == '-' && b[1] == ' ' {
            match parse_items(ls, i + 1, d) {
                Option::None => Option::None,
                Option::Some((its, j)) => Option::Some(
                    (seq![parse_prim(b.subrange(2, b.len() as int))] + its, j),
                ),
            }
        } else {
            None
        }
    }
}

/// Parse the rows of a tabular array at indent `d`.
pub open spec fn parse_tab_rows(ls: Seq<ToonLine>, i: int, d: int, keys: Seq<Seq<char>>) -> Option<
    (Seq<ToonV>, int),
>
    decreases ls.len() - i,
{
    if i < 0 || i >= ls.len() || ls[i].ind < d {
        Some((Seq::empty(), i))
    } else if ls[i].ind > d {
        None
    } else {
        let cells = split_cells(ls[i].body);
        if cells.len() != keys.len() {
            None
        } else {
            let obj = ToonV::Object(Seq::new(keys.len(), |j: int| (keys[j], parse_prim(cells[j]))));
            match parse_tab_rows(ls, i + 1, d, keys) {
                Option::None => Option::None,
                Option::Some((its, j)) => Option::Some((seq![obj] + its, j)),
            }
        }
    }
}

/// Parse an array value whose first line stands at indent `d`: a tabular
/// header or a `- ` item.
pub open spec fn parse_array(ls: Seq<ToonLine>, i: int, d: int) -> Option<(Seq<ToonV>, int)> {
    if i < 0 || i >= ls.len() || ls[i].ind != d {
        None
    } else {
        let b = ls[i].body;
        if b.len() >= 3 && b[0] == '{' && b[b.len() - 1] == ':' && b[b.len() - 2] == '}' {
            let keys = split_plain(b.subrange(1, b.len() - 2));
            parse_tab_rows(ls, i + 1, d, keys)
        } else if b.len() >= 2 && b[0] == '-' && b[1] == ' ' {
            parse_items(ls, i, d)
        } else {
            None
        }
    }
}

/// Parse the fields of an object at indent `d`, stopping at a dedent.
pub open spec fn parse_fields(ls: Seq<ToonLine>, i: int, d: int) -> Option<
    (Seq<(Seq<char>, ToonV)>, int),
>
    decreases ls.len() - i, 0int,
{
    if i < 0 || i >= ls.len() || ls[i].ind < d {
        Some((Seq::empty(), i))
    } else if ls[i].ind > d {
        None
    } else {
        match split_field(ls[i].body) {
            SpFieldHead::Bad => None,
            SpFieldHead::ScalarField(k, val) => match parse_fields(ls, i + 1, d) {
                Option::None => Option::None,
                Option::Some((fs, j)) => Option::Some((seq![(k, parse_prim(val))] + fs, j)),
            },
            SpFieldHead::ObjKey(k) => if d > MAX_DECODE_INDENT {
                None
            } else {
                match parse_fields(ls, i + 1, d + 2) {
                    Option::None => Option::None,
                    Option::Some((gs, j)) => if gs.len() == 0 || j <= i || j > ls.len() {
                        None
                    } else {
                        match parse_fields(ls, j, d) {
                            Option::None => Option::None,
                            Option::Some((fs, j2)) => Option::Some(
                                (seq![(k, ToonV::Object(gs))] + fs, j2),
                            ),
                        }
                    },
                }
            },
            SpFieldHead::ArrKey(k) => if d > MAX_DECODE_INDENT {
                None
            } else {
                match parse_array(ls, i + 1, d + 2) {
                    Option::None => Option::None,
                    Option::Some((items, j)) => if j <= i || j > ls.len() {
                        None
                    } else {
                        match parse_fields(ls, j, d) {
                            Option::None => Option::None,
                            Option::Some((fs, j2)) => Option::Some(
                                (seq![(k, ToonV::List(items))] + fs, j2),
                            ),
                        }
                    },
                }
            },
        }
    }
}

/// The decoded value of TOON text: empty text is null, a top-level
/// header or `- ` line is an array, anything else is an object.  `None`
/// is a parse error.
pub open spec fn sp_decode(s: Seq<char>) -> Option<ToonV> {
    let ls = split_lines(s);
    if ls.len() == 0 {
        Some(ToonV::Null)
    } else if ls[0].ind != 0 || ls[0].body.len() == 0 {
        None
    } else if ls[0].body[0] == '{' || (ls[0].body.len() >= 2 && ls[0].body[0] == '-'
        && ls[0].body[1] == ' ') {
        match parse_array(ls, 0, 0) {
            Option::None => Option::None,
            Option::Some((items, j)) => if j == ls.len() {
                Option::Some(ToonV::List(items))
            } else {
                Option::None
            },
        }
    } else {
        match parse_fields(ls, 0, 0) {
            Option::None => Option::None,
            Option::Some((fs, j)) => if j == ls.len() {
                Option::Some(ToonV::Object(fs))
            } else {
                Option::None
            },
        }
    }
}


// ------------------------------------------------------------------
// Exec decoding
// ------------------------------------------------------------------

/// One parsed line of input: indentation width and body characters.
pub struct ToonSrcLine {
    pub ind: usize,
    pub body: Vec<char>,
}

pub open spec fn lines_view(s: Seq<ToonSrcLine>) -> Seq<ToonLine>
    decreases s.len(),
{
    if s.len() == 0 {
        Seq::empty()
    } else {
        seq![ToonLine { ind: s[0].ind as nat, body: s[0].body@ }] + lines_view(s.drop_first())
    }
}

pub proof fn lemma_lines_view_len(s: Seq<ToonSrcLine>)
    ensures
        lines_view(s).len() == s.len(),
    decreases s.len(),
{
    if s.len() > 0 {
        lemma_lines_view_len(s.drop_first());
        assert(lines_view(s) == seq![ToonLine { ind: s[0].ind as nat, body: s[0].body@ }]
            + lines_view(s.drop_first()));
    } else {
        assert(lines_view(s).len() == 0);
    }
}

pub proof fn lemma_lines_view_index(s: Seq<ToonSrcLine>, i: int)
    requires
        0 <= i < s.len(),
    ensures
        lines_view(s).len() == s.len(),
        lines_view(s)[i] == (ToonLine { ind: s[i].ind as nat, body: s[i].body@ }),
    decreases s.len(),
{
    assert(lines_view(s) == seq![ToonLine { ind: s[0].ind as nat, body: s[0].body@ }]
        + lines_view(s.drop_first()));
    lemma_lines_view_len(s.drop_first());
    if i > 0 {
        lemma_lines_view_index(s.drop_first(), i - 1);
    }
}

pub proof fn lemma_lines_view_snoc(s: Seq<ToonSrcLine>, x: ToonSrcLine)
    ensures
        lines_view(s.push(x)) == lines_view(s) + seq![
            ToonLine { ind: x.ind as nat, body: x.body@ },
        ],
    decreases s.len(),
{
    if s.len() == 0 {
        assert(s.push(x).drop_first() =~= Seq::<ToonSrcLine>::empty());
        assert(lines_view(Seq::<ToonSrcLine>::empty()) == Seq::<ToonLine>::empty());
        assert(s.push(x)[0] == x);
        assert(lines_view(s.push(x)) == seq![
            ToonLine { ind: s.push(x)[0].ind as nat, body: s.push(x)[0].body@ },
        ] + lines_view(s.push(x).drop_first()));
        assert(lines_view(s) == Seq::<ToonLine>::empty());
        assert(lines_view(s.push(x)) =~= lines_view(s) + seq![
            ToonLine { ind: x.ind as nat, body: x.body@ },
        ]);
    } else {
        lemma_lines_view_snoc(s.drop_first(), x);
        assert(s.push(x).drop_first() =~= s.drop_first().push(x));
        assert(s.push(x)[0] == s[0]);
        assert(lines_view(s) == seq![ToonLine { ind: s[0].ind as nat, body: s[0].body@ }]
            + lines_view(s.drop_first()));
        assert(lines_view(s.push(x)) == seq![ToonLine { ind: s[0].ind as nat, body: s[0].body@ }]
            + lines_view(s.push(x).drop_first()));
        assert(lines_view(s.push(x)) =~= lines_view(s) + seq![
            ToonLine { ind: x.ind as nat, body: x.body@ },
        ]);
    }
}

/// First position of `c` at or after `start`.
fn find_next(v: &Vec<char>, start: usize, c: char) -> (j: usize)
    requires
        start <= v@.len(),
    ensures
        start <= j <= v@.len(),
        forall|t: int| start <= t < j ==> v@[t] != c,
        j < v@.len() ==> v@[j as int] == c,
{
    let n: usize = v.len();
    let mut j: usize = start;
    while j < n
        invariant
            start <= j <= n,
            n == v@.len(),
            forall|t: int| start <= t < j ==> v@[t] != c,
        decreases n - j,
    {
        if v[j] == c {
            return j;
        }
        j = j + 1;
    }
    j
}

/// First non-space position at or after `start`.
fn skip_spaces(v: &Vec<char>, start: usize) -> (j: usize)
    requires
        start <= v@.len(),
    ensures
        start <= j <= v@.len(),
        forall|t: int| start <= t < j ==> v@[t] == ' ',
        j < v@.len() ==> v@[j as int] != ' ',
{
    let n: usize = v.len();
    let mut j: usize = start;
    while j < n
        invariant
            start <= j <= n,
            n == v@.len(),
            forall|t: int| start <= t < j ==> v@[t] == ' ',
        decreases n - j,
    {
        if v[j] != ' ' {
            return j;
        }
        j = j + 1;
    }
    j
}

/// Split input text into non-blank lines with their indentation.
fn split_lines_exec(v: &Vec<char>) -> (r: Vec<ToonSrcLine>)
    ensures
        lines_view(r@) == split_lines(v@),
{
    let n: usize = v.len();
    let mut out: Vec<ToonSrcLine> = Vec::new();
    let mut pos: usize = 0;
    proof {
        assert(v@.subrange(0, n as int) =~= v@);
        assert(lines_view(out@) =~= Seq::<ToonLine>::empty());
    }
    while pos < n
        invariant
            pos <= n,
            n == v@.len(),
            lines_view(out@) + split_lines(v@.subrange(pos as int, n as int)) == split_lines(v@),
        decreases n - pos,
    {
        let ghost s = v@.subrange(pos as int, n as int);
        let k: usize = find_next(v, pos, '\n');
        proof {
            assert forall|t: int| 0 <= t < k - pos implies s[t] != '\n' by {
                assert(s[t] == v@[pos + t]);
            }
            if (k - pos) < s.len() {
                assert(s[k - pos] == v@[k as int]);
            }
            lemma_find_ch_loc(s, '\n', k - pos);
        }
        let sp: usize = skip_spaces(v, pos);
        let sp2: usize = if sp > k {
            k
        } else {
            sp
        };
        let ghost line = s.subrange(0, k - pos);
        proof {
            assert forall|t: int| 0 <= t < sp2 - pos implies line[t] == ' ' by {
                assert(line[t] == v@[pos + t]);
            }
            if sp2 - pos < line.len() {
                assert(line[sp2 - pos] == v@[sp2 as int]);
            }
            lemma_skip_sp_loc(line, sp2 - pos);
        }
        let next: usize = if k < n {
            k + 1
        } else {
            k
        };
        proof {
            if k < n {
                assert(v@.subrange(next as int, n as int) =~= s.subrange(
                    k - pos + 1,
                    s.len() as int,
                ));
            } else {
                assert(v@.subrange(next as int, n as int) =~= Seq::<char>::empty());
            }
        }
        if sp2 < k {
            let body = crate::text::subchars(v, sp2, k);
            let ind: usize = sp2 - pos;
            let ghost out_pre = out@;
            out.push(ToonSrcLine { ind, body });
            proof {
                lemma_lines_view_snoc(out_pre, ToonSrcLine { ind, body });
                assert(body@ =~= line.subrange(skip_sp(line), line.len() as int));
                assert(split_lines(s) == seq![
                    ToonLine {
                        ind: skip_sp(line) as nat,
                        body: line.subrange(skip_sp(line), line.len() as int),
                    },
                ] + split_lines(v@.subrange(next as int, n as int)));
                assert(lines_view(out@) + split_lines(v@.subrange(next as int, n as int))
                    =~= split_lines(v@));
            }
        } else {
            proof {
                assert(skip_sp(line) == line.len());
                assert(split_lines(s) == split_lines(v@.subrange(next as int, n as int)));
            }
        }
        pos = next;
    }
    proof {
        assert(v@.subrange(n as int, n as int) =~= Seq::<char>::empty());
        assert(split_lines(v@.subrange(n as int, n as int)) == Seq::<ToonLine>::empty());
        assert(lines_view(out@) =~= split_lines(v@));
    }
    out
}

/// Undo `\,` escapes.
fn unescape_commas_exec(v: &Vec<char>) -> (r: Vec<char>)
    ensures
        r@ == unesc_commas(v@),
{
    let n: usize = v.len();
    let mut out: Vec<char> = Vec::new();
    let mut i: usize = 0;
    proof {
        assert(v@.subrange(0, n as int) =~= v@);
    }
    while i < n
        invariant
            i <= n,
            n == v@.len(),
            out@ + unesc_commas(v@.subrange(i as int, n as int)) == unesc_commas(v@),
        decreases n - i,
    {
        let ghost suf = v@.subrange(i as int, n as int);
        proof {
            assert(suf.drop_first() =~= v@.subrange(i + 1, n as int));
            if i + 2 <= n {
                assert(suf.subrange(2, suf.len() as int) =~= v@.subrange(i + 2, n as int));
            }
        }
        if v[i] == '\\' && i + 1 < n && v[i + 1] == ',' {
            out.push(',');
            i = i + 2;
        } else {
            out.push(v[i]);
            i = i + 1;
        }
        proof {
            assert(out@ + unesc_commas(v@.subrange(i as int, n as int)) =~= unesc_commas(v@));
        }
    }
    proof {
        assert(v@.subrange(n as int, n as int) =~= Seq::<char>::empty());
        assert(out@ =~= unesc_commas(v@));
    }
    out
}

/// Parse one primitive token into a value.
fn parse_prim_exec(cell: &Vec<char>) -> (r: ToonValue)
    ensures
        r@ == parse_prim(cell@),
{
    if cell.len() == 1 && cell[0] == '~' {
        return ToonValue::Null;
    }
    if cell.len() == 1 && cell[0] == 'T' {
        return ToonValue::Bool(true);
    }
    if cell.len() == 1 && cell[0] == 'F' {
        return ToonValue::Bool(false);
    }
    match crate::text::try_parse_i64(cell) {
        Some(nv) => ToonValue::Int(nv),
        None => {
            let un = unescape_commas_exec(cell);
            ToonValue::Text(crate::text::from_chars(&un))
        },
    }
}


pub open spec fn cells_view(s: Seq<Vec<char>>) -> Seq<Seq<char>>
    decreases s.len(),
{
    if s.len() == 0 {
        Seq::empty()
    } else {
        seq![s[0]@] + cells_view(s.drop_first())
    }
}

pub proof fn lemma_cells_view_cons(x: Vec<char>, s: Seq<Vec<char>>)
    ensures
        cells_view(seq![x] + s) == seq![x@] + cells_view(s),
{
    assert((seq![x] + s).drop_first() =~= s);
    assert((seq![x] + s)[0] == x);
    assert(cells_view(seq![x] + s) == seq![(seq![x] + s)[0]@] + cells_view(
        (seq![x] + s).drop_first(),
    ));
}

pub proof fn lemma_cells_view_one(x: Vec<char>)
    ensures
        cells_view(seq![x]) == seq![x@],
{
    assert(seq![x].drop_first() =~= Seq::<Vec<char>>::empty());
    assert(cells_view(Seq::<Vec<char>>::empty()) == Seq::<Seq<char>>::empty());
    assert(cells_view(seq![x]) == seq![seq![x][0]@] + cells_view(seq![x].drop_first()));
    assert(cells_view(seq![x]) =~= seq![x@]);
}

/// Where the first unescaped comma of a row stands, or the length.
pub open spec fn scan_cell(s: Seq<char>) -> int
    decreases s.len(),
{
    if s.len() == 0 {
        0
    } else if s[0] == '\\' && s.len() > 1 && s[1] == ',' {
        2 + scan_cell(s.subrange(2, s.len() as int))
    } else if s[0] == ',' {
        0
    } else {
        1 + scan_cell(s.drop_first())
    }
}

pub proof fn lemma_scan_cell_bounds(s: Seq<char>)
    ensures
        0 <= scan_cell(s) <= s.len(),
        scan_cell(s) < s.len() ==> s[scan_cell(s)] == ',',
    decreases s.len(),
{
    if s.len() > 0 {
        if s[0] == '\\' && s.len() > 1 && s[1] == ',' {
            lemma_scan_cell_bounds(s.subrange(2, s.len() as int));
        } else if s[0] != ',' {
            lemma_scan_cell_bounds(s.drop_first());
        }
    }
}

pub proof fn lemma_split_plain_step(s: Seq<char>)
    ensures
        find_ch(s, ',') >= s.len() ==> split_plain(s) == seq![s],
        find_ch(s, ',') < s.len() ==> split_plain(s) == seq![s.subrange(0, find_ch(s, ','))]
            + split_plain(s.subrange(find_ch(s, ',') + 1, s.len() as int)),
    decreases s.len(),
{
    lemma_find_ch_bounds(s, ',');
    if s.len() == 0 {
        assert(split_plain(s) == seq![Seq::<char>::empty()]);
        assert(s =~= Seq::<char>::empty());
    } else if s[0] == ',' {
        assert(s.subrange(0, 0) =~= Seq::<char>::empty());
        assert(s.subrange(1, s.len() as int) =~= s.drop_first());
        assert(split_plain(s) == seq![Seq::<char>::empty()] + split_plain(s.drop_first()));
    } else {
        lemma_split_plain_step(s.drop_first());
        let d = s.drop_first();
        let r = split_plain(d);
        assert(split_plain(s) == seq![seq![s[0]] + r[0]] + r.drop_first());
        assert(find_ch(s, ',') == 1 + find_ch(d, ','));
        if find_ch(d, ',') >= d.len() {
            assert(r == seq![d]);
            assert(seq![s[0]] + d =~= s);
            assert(r.drop_first() =~= Seq::<Seq<char>>::empty());
            assert(split_plain(s) =~= seq![s]);
        } else {
            let j = find_ch(d, ',');
            assert(r == seq![d.subrange(0, j)] + split_plain(d.subrange(j + 1, d.len() as int)));
            assert(r[0] == d.subrange(0, j));
            assert(seq![s[0]] + d.subrange(0, j) =~= s.subrange(0, j + 1));
            assert(r.drop_first() =~= split_plain(d.subrange(j + 1, d.len() as int)));
            assert(d.subrange(j + 1, d.len() as int) =~= s.subrange(j + 2, s.len() as int));
            assert(split_plain(s) =~= seq![s.subrange(0, find_ch(s, ','))] + split_plain(
                s.subrange(find_ch(s, ',') + 1, s.len() as int),
            ));
        }
    }
}

pub proof fn lemma_split_cells_step(s: Seq<char>)
    ensures
        scan_cell(s) >= s.len() ==> split_cells(s) == seq![s],
        scan_cell(s) < s.len() ==> split_cells(s) == seq![s.subrange(0, scan_cell(s))]
            + split_cells(s.subrange(scan_cell(s) + 1, s.len() as int)),
    decreases s.len(),
{
    lemma_scan_cell_bounds(s);
    if s.len() == 0 {
        assert(split_cells(s) == seq![Seq::<char>::empty()]);
        assert(s =~= Seq::<char>::empty());
    } else if s[0] == '\\' && s.len() > 1 && s[1] == ',' {
        let d = s.subrange(2, s.len() as int);
        lemma_split_cells_step(d);
        lemma_scan_cell_bounds(d);
        let r = split_cells(d);
        assert(split_cells(s) == seq![seq!['\\', ','] + r[0]] + r.drop_first());
        assert(scan_cell(s) == 2 + scan_cell(d));
        if scan_cell(d) >= d.len() {
            assert(r == seq![d]);
            assert(seq!['\\', ','] + d =~= s);
            assert(r.drop_first() =~= Seq::<Seq<char>>::empty());
            assert(split_cells(s) =~= seq![s]);
        } else {
            let j = scan_cell(d);
            assert(r[0] == d.subrange(0, j));
            assert(seq!['\\', ','] + d.subrange(0, j) =~= s.subrange(0, j + 2));
            assert(r.drop_first() =~= split_cells(d.subrange(j + 1, d.len() as int)));
            assert(d.subrange(j + 1, d.len() as int) =~= s.subrange(j + 3, s.len() as int));
            assert(split_cells(s) =~= seq![s.subrange(0, scan_cell(s))] + split_cells(
                s.subrange(scan_cell(s) + 1, s.len() as int),
            ));
        }
    } else if s[0] == ',' {
        assert(s.subrange(0, 0) =~= Seq::<char>::empty());
        assert(s.subrange(1, s.len() as int) =~= s.drop_first());
        assert(split_cells(s) == seq![Seq::<char>::empty()] + split_cells(s.drop_first()));
    } else {
        let d = s.drop_first();
        lemma_split_cells_step(d);
        lemma_scan_cell_bounds(d);
        let r = split_cells(d);
        assert(split_cells(s) == seq![seq![s[0]] + r[0]] + r.drop_first());
        assert(scan_cell(s) == 1 + scan_cell(d));
        if scan_cell(d) >= d.len() {
            assert(r == seq![d]);
            assert(seq![s[0]] + d =~= s);
            assert(r.drop_first() =~= Seq::<Seq<char>>::empty());
            assert(split_cells(s) =~= seq![s]);
        } else {
            let j = scan_cell(d);
            assert(r[0] == d.subrange(0, j));
            assert(seq![s[0]] + d.subrange(0, j) =~= s.subrange(0, j + 1));
            assert(r.drop_first() =~= split_cells(d.subrange(j + 1, d.len() as int)));
            assert(d.subrange(j + 1, d.len() as int) =~= s.subrange(j + 2, s.len() as int));
            assert(split_cells(s) =~= seq![s.subrange(0, scan_cell(s))] + split_cells(
                s.subrange(scan_cell(s) + 1, s.len() as int),
            ));
        }
    }
}

/// Split header keys on plain commas.
fn split_plain_exec(v: &Vec<char>, pos: usize) -> (r: Vec<Vec<char>>)
    requires
        pos <= v@.len(),
    ensures
        cells_view(r@) == split_plain(v@.subrange(pos as int, v@.len() as int)),
    decreases v@.len() - pos,
{
    let n: usize = v.len();
    let ghost s = v@.subrange(pos as int, n as int);
    let j: usize = find_next(v, pos, ',');
    proof {
        assert forall|t: int| 0 <= t < j - pos implies s[t] != ',' by {
            assert(s[t] == v@[pos + t]);
        }
        if (j - pos) < s.len() {
            assert(s[j - pos] == v@[j as int]);
        }
        lemma_find_ch_loc(s, ',', j - pos);
        lemma_split_plain_step(s);
    }
    if j < n {
        let cell = crate::text::subchars(v, pos, j);
        let mut rest = split_plain_exec(v, j + 1);
        let ghost rest_pre = rest@;
        rest.insert(0, cell);
        proof {
            assert(rest@ =~= seq![cell] + rest_pre);
            lemma_cells_view_cons(cell, rest_pre);
            assert(cell@ =~= s.subrange(0, j - pos));
            assert(v@.subrange(j + 1, n as int) =~= s.subrange(j - pos + 1, s.len() as int));
            assert(cells_view(rest@) =~= split_plain(s));
        }
        rest
    } else {
        let cell = crate::text::subchars(v, pos, n);
        let mut out: Vec<Vec<char>> = Vec::new();
        out.push(cell);
        proof {
            lemma_cells_view_one(cell);
            assert(cell@ =~= s);
            assert(out@ =~= seq![cell]);
            assert(cells_view(out@) =~= split_plain(s));
        }
        out
    }
}

/// Position of the first unescaped comma at or after `pos`.
fn scan_cell_exec(v: &Vec<char>, pos: usize) -> (j: usize)
    requires
        pos <= v@.len(),
    ensures
        pos <= j <= v@.len(),
        j - pos == scan_cell(v@.subrange(pos as int, v@.len() as int)),
{
    let n: usize = v.len();
    let ghost s = v@.subrange(pos as int, n as int);
    let mut j: usize = pos;
    while j < n
        invariant
            pos <= j <= n,
            n == v@.len(),
            s == v@.subrange(pos as int, n as int),
            scan_cell(s) == (j - pos) + scan_cell(v@.subrange(j as int, n as int)),
        decreases n - j,
    {
        let ghost suf = v@.subrange(j as int, n as int);
        proof {
            assert(suf[0] == v@[j as int]);
            if j + 1 < n {
                assert(suf[1] == v@[j + 1]);
            }
            assert(suf.drop_first() =~= v@.subrange(j + 1, n as int));
            if j + 2 <= n {
                assert(suf.subrange(2, suf.len() as int) =~= v@.subrange(j + 2, n as int));
            }
        }
        if v[j] == '\\' && j + 1 < n && v[j + 1] == ',' {
            j = j + 2;
        } else if v[j] == ',' {
            proof {
                assert(scan_cell(suf) == 0);
            }
            return j;
        } else {
            j = j + 1;
        }
    }
    proof {
        assert(v@.subrange(n as int, n as int) =~= Seq::<char>::empty());
        assert(scan_cell(v@.subrange(n as int, n as int)) == 0);
    }
    j
}

/// Split a row on unescaped commas; cells keep their escapes.
fn split_cells_exec(v: &Vec<char>, pos: usize) -> (r: Vec<Vec<char>>)
    requires
        pos <= v@.len(),
    ensures
        cells_view(r@) == split_cells(v@.subrange(pos as int, v@.len() as int)),
    decreases v@.len() - pos,
{
    let n: usize = v.len();
    let ghost s = v@.subrange(pos as int, n as int);
    let j: usize = scan_cell_exec(v, pos);
    proof {
        lemma_split_cells_step(s);
    }
    if j < n {
        let cell = crate::text::subchars(v, pos, j);
        let mut rest = split_cells_exec(v, j + 1);
        let ghost rest_pre = rest@;
        rest.insert(0, cell);
        proof {
            assert(rest@ =~= seq![cell] + rest_pre);
            lemma_cells_view_cons(cell, rest_pre);
            assert(cell@ =~= s.subrange(0, j - pos));
            assert(v@.subrange(j + 1, n as int) =~= s.subrange(j - pos + 1, s.len() as int));
            assert(cells_view(rest@) =~= split_cells(s));
        }
        rest
    } else {
        let cell = crate::text::subchars(v, pos, n);
        let mut out: Vec<Vec<char>> = Vec::new();
        out.push(cell);
        proof {
            lemma_cells_view_one(cell);
            assert(cell@ =~= s);
            assert(out@ =~= seq![cell]);
            assert(cells_view(out@) =~= split_cells(s));
        }
        out
    }
}


pub proof fn lemma_list_view_cons(x: ToonValue, s: Seq<ToonValue>)
    ensures
        list_view(seq![x] + s) == seq![x@] + list_view(s),
{
    assert((seq![x] + s).drop_first() =~= s);
    assert((seq![x] + s)[0] == x);
    assert(list_view(seq![x] + s) == seq![(seq![x] + s)[0]@] + list_view(
        (seq![x] + s).drop_first(),
    ));
}

pub proof fn lemma_fields_view_cons(x: (String, ToonValue), s: Seq<(String, ToonValue)>)
    ensures
        fields_view(seq![x] + s) == seq![(x.0@, x.1@)] + fields_view(s),
{
    assert((seq![x] + s).drop_first() =~= s);
    assert((seq![x] + s)[0] == x);
    assert(fields_view(seq![x] + s) == seq![((seq![x] + s)[0].0@, (seq![x] + s)[0].1@)]
        + fields_view((seq![x] + s).drop_first()));
}

pub proof fn lemma_cells_view_index(s: Seq<Vec<char>>, i: int)
    requires
        0 <= i < s.len(),
    ensures
        cells_view(s).len() == s.len(),
        cells_view(s)[i] == s[i]@,
    decreases s.len(),
{
    assert(cells_view(s) == seq![s[0]@] + cells_view(s.drop_first()));
    lemma_cells_view_len(s.drop_first());
    if i > 0 {
        lemma_cells_view_index(s.drop_first(), i - 1);
    }
}

pub proof fn lemma_cells_view_len(s: Seq<Vec<char>>)
    ensures
        cells_view(s).len() == s.len(),
    decreases s.len(),
{
    if s.len() > 0 {
        lemma_cells_view_len(s.drop_first());
        assert(cells_view(s) == seq![s[0]@] + cells_view(s.drop_first()));
    } else {
        assert(cells_view(s).len() == 0);
    }
}

/// The reading of one field line.
enum FieldHead {
    Bad,
    ScalarField(Vec<char>, Vec<char>),
    ObjKey(Vec<char>),
    ArrKey(Vec<char>),
}

fn field_head(b: &Vec<char>) -> (r: FieldHead)
    ensures
        match r {
            FieldHead::Bad => split_field(b@) == SpFieldHead::Bad,
            FieldHead::ScalarField(k, v) => split_field(b@) == SpFieldHead::ScalarField(k@, v@),
            FieldHead::ObjKey(k) => split_field(b@) == SpFieldHead::ObjKey(k@),
            FieldHead::ArrKey(k) => split_field(b@) == SpFieldHead::ArrKey(k@),
        },
{
    let n: usize = b.len();
    if n == 0 {
        return FieldHead::Bad;
    }
    if b[0] == '{' {
        return FieldHead::Bad;
    }
    if n >= 2 && b[0] == '-' && b[1] == ' ' {
        return FieldHead::Bad;
    }
    let c: usize = find_next(b, 0, ':');
    proof {
        assert(b@.subrange(0, n as int) =~= b@);
        lemma_find_ch_loc(b@, ':', c as int);
    }
    if c >= n || c == 0 {
        return FieldHead::Bad;
    }
    let k = crate::text::subchars(b, 0, c);
    if c + 1 == n {
        // no value part
        if k[k.len() - 1] == ']' {
            let c2: usize = find_next(&k, 0, '[');
            proof {
                assert(k@.subrange(0, k@.len() as int) =~= k@);
                lemma_find_ch_loc(k@, '[', c2 as int);
                assert(b@.subrange(c + 1, n as int) =~= Seq::<char>::empty());
            }
            if c2 < k.len() {
                if c2 == 0 {
                    return FieldHead::Bad;
                }
                let kk = crate::text::subchars(&k, 0, c2);
                proof {
                    assert(kk@ =~= b@.subrange(0, c as int).subrange(0, c2 as int));
                }
                return FieldHead::ArrKey(kk);
            } else {
                return FieldHead::ObjKey(k);
            }
        } else {
            proof {
                assert(b@.subrange(c + 1, n as int) =~= Seq::<char>::empty());
            }
            return FieldHead::ObjKey(k);
        }
    }
    proof {
        assert(b@.subrange(c + 1, n as int)[0] == b@[c + 1]);
    }
    if b[c + 1] == ' ' {
        let val = crate::text::subchars(b, c + 2, n);
        proof {
            let rest = b@.subrange(c + 1, n as int);
            assert(val@ =~= rest.subrange(1, rest.len() as int));
        }
        FieldHead::ScalarField(k, val)
    } else {
        FieldHead::Bad
    }
}

fn parse_items_exec(ls: &Vec<ToonSrcLine>, i: usize, d: usize) -> (r: Option<
    (Vec<ToonValue>, usize),
>)
    ensures
        ({
            let sr = parse_items(lines_view(ls@), i as int, d as int);
            &&& (r is None <==> sr is None)
            &&& (r is Some ==> sr == Some::<(Seq<ToonV>, int)>(
                (list_view((r->0).0@), (r->0).1 as int),
            ))
        }),
    decreases ls@.len() - i,
{
    proof {
        lemma_lines_view_len(ls@);
    }
    let ghost lv = lines_view(ls@);
    if i >= ls.len() {
        let out: Vec<ToonValue> = Vec::new();
        proof {
            assert(list_view(out@) =~= Seq::<ToonV>::empty());
        }
        return Some((out, i));
    }
    proof {
        lemma_lines_view_index(ls@, i as int);
    }
    if ls[i].ind < d {
        let out: Vec<ToonValue> = Vec::new();
        proof {
            assert(list_view(out@) =~= Seq::<ToonV>::empty());
        }
        return Some((out, i));
    }
    if ls[i].ind > d {
        return None;
    }
    let b = &ls[i].body;
    if b.len() >= 2 && b[0] == '-' && b[1] == ' ' {
        let prim = parse_prim_exec(&crate::text::subchars(b, 2, b.len()));
        proof {
            assert(b@.subrange(2, b@.len() as int) == lv[i as int].body.subrange(
                2,
                lv[i as int].body.len() as int,
            ));
        }
        match parse_items_exec(ls, i + 1, d) {
            None => None,
            Some(p) => {
                let (mut its, j) = p;
                let ghost its_pre = its@;
                its.insert(0, prim);
                proof {
                    assert(its@ =~= seq![prim] + its_pre);
                    lemma_list_view_cons(prim, its_pre);
                }
                Some((its, j))
            },
        }
    } else {
        None
    }
}

fn parse_tab_rows_exec(ls: &Vec<ToonSrcLine>, i: usize, d: usize, keys: &Vec<Vec<char>>) -> (r:
    Option<(Vec<ToonValue>, usize)>)
    ensures
        ({
            let sr = parse_tab_rows(lines_view(ls@), i as int, d as int, cells_view(keys@));
            &&& (r is None <==> sr is None)
            &&& (r is Some ==> sr == Some::<(Seq<ToonV>, int)>(
                (list_view((r->0).0@), (r->0).1 as int),
            ))
        }),
    decreases ls@.len() - i,
{
    proof {
        lemma_lines_view_len(ls@);
        lemma_cells_view_len(keys@);
    }
    let ghost lv = lines_view(ls@);
    let ghost kv = cells_view(keys@);
    if i >= ls.len() {
        let out: Vec<ToonValue> = Vec::new();
        proof {
            assert(list_view(out@) =~= Seq::<ToonV>::empty());
        }
        return Some((out, i));
    }
    proof {
        lemma_lines_view_index(ls@, i as int);
    }
    if ls[i].ind < d {
        let out: Vec<ToonValue> = Vec::new();
        proof {
            assert(list_view(out@) =~= Seq::<ToonV>::empty());
        }
        return Some((out, i));
    }
    if ls[i].ind > d {
        return None;
    }
    let cells = split_cells_exec(&ls[i].body, 0);
    proof {
        assert(ls@[i as int].body@.subrange(0, ls@[i as int].body@.len() as int)
            =~= lv[i as int].body);
        lemma_cells_view_len(cells@);
    }
    if cells.len() != keys.len() {
        return None;
    }
    let m: usize = keys.len();
    let mut obj_fields: Vec<(String, ToonValue)> = Vec::new();
    let mut j: usize = 0;
    while j < m
        invariant
            j <= m,
            m == keys@.len(),
            m == cells@.len(),
            kv == cells_view(keys@),
            kv.len() == m,
            cells_view(cells@).len() == m,
            obj_fields@.len() == j,
            forall|u: int|
                0 <= u < j ==> (#[trigger] obj_fields@[u]).0@ == kv[u] && obj_fields@[u].1@
                    == parse_prim(cells_view(cells@)[u]),
        decreases m - j,
    {
        proof {
            lemma_cells_view_index(keys@, j as int);
            lemma_cells_view_index(cells@, j as int);
        }
        let key_str = crate::text::from_chars(&keys[j]);
        let val = parse_prim_exec(&cells[j]);
        obj_fields.push((key_str, val));
        j = j + 1;
    }
    let obj = ToonValue::Object(obj_fields);
    let ghost cv = cells_view(cells@);
    let ghost spec_obj = ToonV::Object(
        Seq::new(kv.len(), |u: int| (kv[u], parse_prim(split_cells(lv[i as int].body)[u]))),
    );
    proof {
        assert(cv == split_cells(lv[i as int].body));
        assert forall|u: int| 0 <= u < m implies #[trigger] fields_view(obj_fields@)[u] == (
            kv[u],
            parse_prim(cv[u]),
        ) by {
            lemma_fields_view_index(obj_fields@, u);
        }
        lemma_fields_view_len(obj_fields@);
        assert(fields_view(obj_fields@) =~= Seq::new(
            kv.len(),
            |u: int| (kv[u], parse_prim(split_cells(lv[i as int].body)[u])),
        ));
        assert(obj@ == spec_obj);
    }
    match parse_tab_rows_exec(ls, i + 1, d, keys) {
        None => None,
        Some(p) => {
            let (mut its, j2) = p;
            let ghost its_pre = its@;
            its.insert(0, obj);
            proof {
                assert(its@ =~= seq![obj] + its_pre);
                lemma_list_view_cons(obj, its_pre);
            }
            Some((its, j2))
        },
    }
}

fn parse_array_exec(ls: &Vec<ToonSrcLine>, i: usize, d: usize) -> (r: Option<
    (Vec<ToonValue>, usize),
>)
    ensures
        ({
            let sr = parse_array(lines_view(ls@), i as int, d as int);
            &&& (r is None <==> sr is None)
            &&& (r is Some ==> sr == Some::<(Seq<ToonV>, int)>(
                (list_view((r->0).0@), (r->0).1 as int),
            ))
        }),
{
    proof {
        lemma_lines_view_len(ls@);
    }
    let ghost lv = lines_view(ls@);
    if i >= ls.len() {
        return None;
    }
    proof {
        lemma_lines_view_index(ls@, i as int);
    }
    if ls[i].ind != d {
        return None;
    }
    let b = &ls[i].body;
    let n: usize = b.len();
    if n >= 3 && b[0] == '{' && b[n - 1] == ':' && b[n - 2] == '}' {
        let inner = crate::text::subchars(b, 1, n - 2);
        let keys = split_plain_exec(&inner, 0);
        proof {
            assert(inner@.subrange(0, inner@.len() as int) =~= inner@);
            assert(inner@ == lv[i as int].body.subrange(1, lv[i as int].body.len() - 2));
        }
        parse_tab_rows_exec(ls, i + 1, d, &keys)
    } else if n >= 2 && b[0] == '-' && b[1] == ' ' {
        parse_items_exec(ls, i, d)
    } else {
        None
    }
}

fn parse_fields_exec(ls: &Vec<ToonSrcLine>, i: usize, d: usize) -> (r: Option<
    (Vec<(String, ToonValue)>, usize),
>)
    ensures
        ({
            let sr = parse_fields(lines_view(ls@), i as int, d as int);
            &&& (r is None <==> sr is None)
            &&& (r is Some ==> sr == Some::<(Seq<(Seq<char>, ToonV)>, int)>(
                (fields_view((r->0).0@), (r->0).1 as int),
            ))
        }),
    decreases ls@.len() - i, 0int,
{
    proof {
        lemma_lines_view_len(ls@);
    }
    let ghost lv = lines_view(ls@);
    if i >= ls.len() {
        let out: Vec<(String, ToonValue)> = Vec::new();
        proof {
            assert(fields_view(out@) =~= Seq::<(Seq<char>, ToonV)>::empty());
        }
        return Some((out, i));
    }
    proof {
        lemma_lines_view_index(ls@, i as int);
    }
    if ls[i].ind < d {
        let out: Vec<(String, ToonValue)> = Vec::new();
        proof {
            assert(fields_view(out@) =~= Seq::<(Seq<char>, ToonV)>::empty());
        }
        return Some((out, i));
    }
    if ls[i].ind > d {
        return None;
    }
    match field_head(&ls[i].body) {
        FieldHead::Bad => None,
        FieldHead::ScalarField(k, val) => {
            let prim = parse_prim_exec(&val);
            let key_str = crate::text::from_chars(&k);
            match parse_fields_exec(ls, i + 1, d) {
                None => None,
                Some(p) => {
                    let (mut fs, j) = p;
                    let ghost fs_pre = fs@;
                    fs.insert(0, (key_str, prim));
                    proof {
                        assert(fs@ =~= seq![(key_str, prim)] + fs_pre);
                        lemma_fields_view_cons((key_str, prim), fs_pre);
                    }
                    Some((fs, j))
                },
            }
        },
        FieldHead::ObjKey(k) => {
            if d > MAX_DECODE_INDENT {
                return None;
            }
            match parse_fields_exec(ls, i + 1, d + 2) {
                None => None,
                Some(p) => {
                    let (gs, j) = p;
                    proof {
                        lemma_fields_view_len(gs@);
                    }
                    if gs.len() == 0 || j <= i || j > ls.len() {
                        return None;
                    }
                    let key_str = crate::text::from_chars(&k);
                    match parse_fields_exec(ls, j, d) {
                        None => None,
                        Some(p2) => {
                            let (mut fs, j2) = p2;
                            let ghost fs_pre = fs@;
                            let child = ToonValue::Object(gs);
                            fs.insert(0, (key_str, child));
                            proof {
                                assert(fs@ =~= seq![(key_str, child)] + fs_pre);
                                lemma_fields_view_cons((key_str, child), fs_pre);
                            }
                            Some((fs, j2))
                        },
                    }
                },
            }
        },
        FieldHead::ArrKey(k) => {
            if d > MAX_DECODE_INDENT {
                return None;
            }
            match parse_array_exec(ls, i + 1, d + 2) {
                None => None,
                Some(p) => {
                    let (items, j) = p;
                    if j <= i || j > ls.len() {
                        return None;
                    }
                    let key_str = crate::text::from_chars(&k);
                    match parse_fields_exec(ls, j, d) {
                        None => None,
                        Some(p2) => {
                            let (mut fs, j2) = p2;
                            let ghost fs_pre = fs@;
                            let child = ToonValue::List(items);
                            fs.insert(0, (key_str, child));
                            proof {
                                assert(fs@ =~= seq![(key_str, child)] + fs_pre);
                                lemma_fields_view_cons((key_str, child), fs_pre);
                            }
                            Some((fs, j2))
                        },
                    }
                },
            }
        },
    }
}

impl Toon {
    /// Deserialize TOON text back into a structured value.
    pub fn deserialize(input: &str) -> (r: Result<ToonValue, String>)
        ensures
            match sp_decode(input@) {
                Option::Some(v) => r is Ok && r->Ok_0@ == v,
                Option::None => r is Err,
            },
    {
        let chars = crate::text::to_chars(input);
        let ls = split_lines_exec(&chars);
        proof {
            lemma_lines_view_len(ls@);
        }
        let ghost lv = lines_view(ls@);
        if ls.len() == 0 {
            return Ok(ToonValue::Null);
        }
        proof {
            lemma_lines_view_index(ls@, 0);
        }
        if ls[0].ind != 0 || ls[0].body.len() == 0 {
            return Err(String::from_str("unexpected indentation or empty line"));
        }
        let b0 = &ls[0].body;
        let is_arr: bool = b0[0] == '{' || (b0.len() >= 2 && b0[0] == '-' && b0[1] == ' ');
        if is_arr {
            match parse_array_exec(&ls, 0, 0) {
                None => Err(String::from_str("malformed array")),
                Some(p) => {
                    let (items, j) = p;
                    if j == ls.len() {
                        Ok(ToonValue::List(items))
                    } else {
                        Err(String::from_str("trailing lines after array"))
                    }
                },
            }
        } else {
            match parse_fields_exec(&ls, 0, 0) {
                None => Err(String::from_str("malformed object")),
                Some(p) => {
                    let (fs, j) = p;
                    if j == ls.len() {
                        Ok(ToonValue::Object(fs))
                    } else {
                        Err(String::from_str("trailing lines after object"))
                    }
                },
            }
        }
    }
}


// ------------------------------------------------------------------
// Round-trip well-formedness
// ------------------------------------------------------------------

pub open spec fn no_ch(s: Seq<char>, c: char) -> bool {
    forall|i: int| 0 <= i < s.len() ==> s[i] != c
}

/// A key that survives the trip through a field line or a tabular
/// header: nonempty, no separator characters, not header-like.
pub open spec fn wf_key(k: Seq<char>) -> bool {
    &&& k.len() > 0
    &&& k[0] != '{'
    &&& no_ch(k, ':')
    &&& no_ch(k, '\n')
    &&& no_ch(k, ',')
    &&& no_ch(k, '[')
    &&& no_ch(k, ' ')
}

/// A string scalar that survives the trip: nonempty, single-line, free
/// of escapes, and not mistakable for null, a boolean or an integer.
pub open spec fn wf_text(s: Seq<char>) -> bool {
    &&& s.len() > 0
    &&& no_ch(s, '\n')
    &&& no_ch(s, '\\')
    &&& s != seq!['~']
    &&& s != seq!['T']
    &&& s != seq!['F']
    &&& !crate::text::is_int_literal(s)
}

/// A scalar in object-field or list-item position.
pub open spec fn wf_scalar(v: ToonV) -> bool {
    match v {
        ToonV::Null => true,
        ToonV::Bool(_) => true,
        ToonV::Int(i) => -0x8000_0000_0000_0000 <= i <= 0x7fff_ffff_ffff_ffff,
        ToonV::Text(s) => wf_text(s),
        _ => false,
    }
}

/// A scalar in tabular-cell position: as `wf_scalar`, but a string may
/// not begin with a space (the row line's indentation would eat it).
pub open spec fn wf_cell(v: ToonV) -> bool {
    &&& wf_scalar(v)
    &&& (v is Text ==> v->Text_0[0] != ' ')
}

/// A uniform array of scalar-field objects, rendered tabular.
pub open spec fn wf_tab(items: Seq<ToonV>) -> bool {
    let keys = tab_keys(items[0]->Object_0);
    &&& keys.len() > 0
    &&& (forall|a: int, b: int| 0 <= a < b < keys.len() ==> keys[a] != keys[b])
    &&& (forall|j: int| 0 <= j < keys.len() ==> wf_key(#[trigger] keys[j]))
    &&& (forall|t: int|
        0 <= t < items.len() ==> {
            let f = (#[trigger] items[t])->Object_0;
            &&& items[t] is Object
            &&& f.len() == keys.len()
            &&& (forall|j: int|
                0 <= j < f.len() ==> (#[trigger] f[j]).0 == keys[j] && wf_cell(f[j].1))
        })
}

/// A value tree the codec round-trips: nested objects, uniform-object
/// arrays, scalar arrays, and the scalar set.
pub open spec fn wf_value(v: ToonV) -> bool
    decreases v, 1int,
{
    match v {
        ToonV::Object(fs) => fs.len() > 0 && wf_fields(fs),
        ToonV::List(items) => items.len() > 0 && (if items[0] is Object {
            wf_tab(items)
        } else {
            forall|t: int| 0 <= t < items.len() ==> wf_scalar(#[trigger] items[t])
        }),
        _ => wf_scalar(v),
    }
}

pub open spec fn wf_fields(fs: Seq<(Seq<char>, ToonV)>) -> bool
    decreases fs, 0int,
{
    if fs.len() == 0 {
        true
    } else {
        wf_key(fs[0].0) && wf_value(fs[0].1) && wf_fields(fs.drop_first())
    }
}

/// Nesting depth, counted in object levels.
pub open spec fn depth_v(v: ToonV) -> nat
    decreases v, 1int,
{
    match v {
        ToonV::Object(fs) => 1 + depth_fields(fs),
        ToonV::List(_) => 1,
        _ => 0,
    }
}

pub open spec fn depth_fields(fs: Seq<(Seq<char>, ToonV)>) -> nat
    decreases fs, 0int,
{
    if fs.len() == 0 {
        0
    } else if depth_v(fs[0].1) >= depth_fields(fs.drop_first()) {
        depth_v(fs[0].1)
    } else {
        depth_fields(fs.drop_first())
    }
}

/// A tree the codec round-trips whole: an object or array root, well
/// formed, within the decoder's nesting limit.
pub open spec fn wf_root(v: ToonV) -> bool {
    &&& (v is Object || v is List)
    &&& wf_value(v)
    &&& depth_v(v) <= 5000
}

} // verus!
