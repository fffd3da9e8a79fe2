//! The codec's round-trip law: decoding an encoded well-formed value
//! tree gives the tree back.

use vstd::prelude::*;
use crate::text::{
    sp_nat_digits, sp_int_str, digit_char, digit_val, is_digit_char, all_digits, digits_val,
    is_int_literal, int_literal_val,
};
use crate::toon::{
    ToonV, ToonLine, sp_scalar, sp_cell, esc_commas, unesc_commas, sp_spaces, lines_text,
    join_keys, tab_keys, row_cells, cell_for_key, enc_obj_lines, enc_field_lines, enc_list_lines,
    enc_plain_items, enc_tab_lines, enc_tab_rows, sp_encode, find_ch, skip_sp, split_lines,
    parse_prim, split_plain, split_cells, SpFieldHead, split_field, parse_items, parse_tab_rows,
    parse_array, parse_fields, sp_decode, no_ch, wf_key, wf_text, wf_scalar, wf_cell, wf_tab,
    wf_value, wf_fields, depth_v, depth_fields, wf_root, scan_cell, lemma_find_ch_loc,
    lemma_skip_sp_loc, lemma_split_plain_step, lemma_split_cells_step, lemma_lines_text_concat,
    lemma_lines_text_one,
};

verus! {

// ------------------------------------------------------------------
// Scalars
// ------------------------------------------------------------------

proof fn lemma_nat_digits_val(n: nat)
    ensures
        sp_nat_digits(n).len() > 0,
        all_digits(sp_nat_digits(n)),
        digits_val(sp_nat_digits(n)) == n,
    decreases n,
{
    if n < 10 {
        let s = sp_nat_digits(n);
        assert(s == seq![digit_char(n)]);
        assert(is_digit_char(digit_char(n)));
        assert(s.drop_last() =~= Seq::<char>::empty());
        assert(digits_val(s) == digits_val(s.drop_last()) * 10 + digit_val(s.last()));
        assert(digit_val(digit_char(n)) == n);
    } else {
        lemma_nat_digits_val(n / 10);
        let s = sp_nat_digits(n);
        let h = sp_nat_digits(n / 10);
        assert(s == h + seq![digit_char(n % 10)]);
        assert(s.drop_last() =~= h);
        assert(s.last() == digit_char(n % 10));
        assert(digit_val(digit_char(n % 10)) == n % 10);
        assert(digits_val(s) == n / 10 * 10 + n % 10);
        assert(forall|i: int| 0 <= i < s.len() ==> is_digit_char(#[trigger] s[i]));
    }
}

proof fn lemma_digit_not_special(c: char)
    requires
        is_digit_char(c),
    ensures
        c != '-' && c != ',' && c != '\\' && c != '\n' && c != '~' && c != 'T' && c != 'F' && c
            != ' ' && c != ':' && c != '[' && c != ']' && c != '{' && c != '}',
{
}

proof fn lemma_int_str_roundtrip(i: int)
    requires
        -0x8000_0000_0000_0000 <= i <= 0x7fff_ffff_ffff_ffff,
    ensures
        is_int_literal(sp_int_str(i)),
        int_literal_val(sp_int_str(i)) == i,
        sp_int_str(i).len() > 0,
        forall|t: int|
            0 <= t < sp_int_str(i).len() ==> is_digit_char(#[trigger] sp_int_str(i)[t])
                || sp_int_str(i)[t] == '-',
{
    let s = sp_int_str(i);
    if i < 0 {
        lemma_nat_digits_val((-i) as nat);
        let ds = sp_nat_digits((-i) as nat);
        assert(s == seq!['-'] + ds);
        assert(s[0] == '-');
        assert(s.subrange(1, s.len() as int) =~= ds);
        assert(digits_val(ds) == (-i) as nat);
        assert(is_int_literal(s));
        assert(int_literal_val(s) == i);
    } else {
        lemma_nat_digits_val(i as nat);
        assert(s == sp_nat_digits(i as nat));
        assert(s[0] != '-') by {
            assert(is_digit_char(s[0]));
        }
        assert(is_int_literal(s));
        assert(int_literal_val(s) == i);
    }
}

proof fn lemma_unesc_id(s: Seq<char>)
    requires
        no_ch(s, '\\'),
    ensures
        unesc_commas(s) == s,
    decreases s.len(),
{
    if s.len() > 0 {
        assert(s.drop_first()[0] == s[1] || s.len() == 1 || true);
        assert(forall|i: int| 0 <= i < s.drop_first().len() ==> s.drop_first()[i] == s[i + 1]);
        lemma_unesc_id(s.drop_first());
        assert(s[0] != '\\');
        assert(unesc_commas(s) == seq![s[0]] + unesc_commas(s.drop_first()));
        assert(unesc_commas(s) =~= s);
    } else {
        assert(unesc_commas(s) =~= s);
    }
}

proof fn lemma_esc_unesc(s: Seq<char>)
    requires
        no_ch(s, '\\'),
    ensures
        unesc_commas(esc_commas(s)) == s,
        no_ch(esc_commas(s), '\n') == no_ch(s, '\n'),
    decreases s.len(),
{
    if s.len() == 0 {
        assert(esc_commas(s) =~= Seq::<char>::empty());
        assert(unesc_commas(esc_commas(s)) =~= s);
    } else {
        assert(forall|i: int| 0 <= i < s.drop_first().len() ==> s.drop_first()[i] == s[i + 1]);
        lemma_esc_unesc(s.drop_first());
        let e = esc_commas(s);
        if s[0] == ',' {
            assert(e == seq!['\\', ','] + esc_commas(s.drop_first()));
            assert(e[0] == '\\' && e[1] == ',');
            assert(e.subrange(2, e.len() as int) =~= esc_commas(s.drop_first()));
            assert(unesc_commas(e) == seq![','] + unesc_commas(esc_commas(s.drop_first())));
            assert(unesc_commas(e) =~= s);
        } else {
            assert(e == seq![s[0]] + esc_commas(s.drop_first()));
            assert(s[0] != '\\');
            if e.len() > 1 && e[1] == ',' {
                // first char is not a backslash, so no escape pair forms
                assert(e[0] != '\\');
            }
            assert(e.drop_first() =~= esc_commas(s.drop_first()));
            assert(unesc_commas(e) == seq![e[0]] + unesc_commas(e.drop_first()));
            assert(unesc_commas(e) =~= s);
        }
        assert forall|c: char| c == '\n' implies no_ch(esc_commas(s), c) == no_ch(s, c) by {
            lemma_esc_chars(s);
        }
    }
}

/// Characters of an escaped string: each is a character of the source
/// or one of `\\` `,`.
proof fn lemma_esc_chars(s: Seq<char>)
    ensures
        forall|i: int|
            0 <= i < esc_commas(s).len() ==> (#[trigger] esc_commas(s)[i] == '\\' || esc_commas(
                s,
            )[i] == ',' || exists|j: int| 0 <= j < s.len() && s[j] == esc_commas(s)[i]),
        esc_commas(s).len() >= s.len(),
        no_ch(s, '\n') ==> no_ch(esc_commas(s), '\n'),
    decreases s.len(),
{
    if s.len() > 0 {
        lemma_esc_chars(s.drop_first());
        assert(forall|i: int| 0 <= i < s.drop_first().len() ==> s.drop_first()[i] == s[i + 1]);
        if s[0] == ',' {
            assert(esc_commas(s) == seq!['\\', ','] + esc_commas(s.drop_first()));
        } else {
            assert(esc_commas(s) == seq![s[0]] + esc_commas(s.drop_first()));
        }
    }
}

/// Parsing the scalar text of a well-formed scalar gives it back.
proof fn lemma_parse_scalar(v: ToonV)
    requires
        wf_scalar(v),
    ensures
        parse_prim(sp_scalar(v)) == v,
{
    match v {
        ToonV::Null => {
            assert(sp_scalar(v) == seq!['~']);
        },
        ToonV::Bool(b) => {},
        ToonV::Int(i) => {
            lemma_int_str_roundtrip(i);
            let s = sp_int_str(i);
            assert(s.len() == 1 ==> s[0] != '~' && s[0] != 'T' && s[0] != 'F') by {
                if s.len() == 1 {
                    if s[0] == '-' {
                        assert(!is_int_literal(s)) by {
                            assert(s.subrange(1, 1) =~= Seq::<char>::empty());
                        }
                    } else {
                        lemma_digit_not_special(s[0]);
                    }
                }
            }
        },
        ToonV::Text(s) => {
            lemma_unesc_id(s);
        },
        _ => {},
    }
}

/// Parsing a raw cell of a well-formed cell scalar gives it back.
proof fn lemma_parse_cell(v: ToonV)
    requires
        wf_cell(v),
    ensures
        parse_prim(sp_cell(v)) == v,
{
    match v {
        ToonV::Text(s) => {
            let e = esc_commas(s);
            lemma_esc_unesc(s);
            if no_ch(s, ',') {
                lemma_esc_id(s);
                lemma_parse_scalar(v);
            } else {
                let j = choose|j: int| 0 <= j < s.len() && s[j] == ',';
                lemma_esc_has_comma(s, j);
                let t = choose|t: int|
                    0 < t < e.len() && #[trigger] e[t] == ',' && e[t - 1] == '\\';
                assert(!is_digit_char(e[t]));
                assert(!all_digits(e));
                assert(!is_int_literal(e)) by {
                    if e.len() > 0 && e[0] == '-' {
                        let ds = e.subrange(1, e.len() as int);
                        assert(ds[t - 1] == e[t]);
                        assert(!all_digits(ds));
                    }
                }
                assert(e.len() == 1 ==> false) by {
                    if e.len() == 1 {
                        assert(0 < t < 1);
                    }
                }
                assert(parse_prim(e) == ToonV::Text(unesc_commas(e)));
            }
        },
        _ => {
            lemma_parse_scalar(v);
        },
    }
}

/// Escaping is the identity on comma-free text.
proof fn lemma_esc_id(s: Seq<char>)
    requires
        no_ch(s, ','),
    ensures
        esc_commas(s) == s,
    decreases s.len(),
{
    if s.len() > 0 {
        assert(forall|i: int| 0 <= i < s.drop_first().len() ==> s.drop_first()[i] == s[i + 1]);
        lemma_esc_id(s.drop_first());
        assert(esc_commas(s) == seq![s[0]] + esc_commas(s.drop_first()));
        assert(esc_commas(s) =~= s);
    } else {
        assert(esc_commas(s) =~= s);
    }
}

/// An escaped comma leaves a `\,` pair in the output.
proof fn lemma_esc_has_comma(s: Seq<char>, j: int)
    requires
        0 <= j < s.len(),
        s[j] == ',',
    ensures
        exists|t: int|
            0 < t < esc_commas(s).len() && #[trigger] esc_commas(s)[t] == ',' && esc_commas(s)[t
                - 1] == '\\',
    decreases s.len(),
{
    let e = esc_commas(s);
    if j == 0 {
        assert(e == seq!['\\', ','] + esc_commas(s.drop_first()));
        assert(e[1] == ',' && e[0] == '\\');
        assert(0 < 1 < e.len());
    } else {
        assert(forall|i: int| 0 <= i < s.drop_first().len() ==> s.drop_first()[i] == s[i + 1]);
        lemma_esc_has_comma(s.drop_first(), j - 1);
        let d = esc_commas(s.drop_first());
        let t0 = choose|t: int| 0 < t < d.len() && #[trigger] d[t] == ',' && d[t - 1] == '\\';
        if s[0] == ',' {
            assert(e == seq!['\\', ','] + d);
            assert(e[t0 + 2] == ',' && e[t0 + 1] == '\\');
            assert(0 < t0 + 2 < e.len());
        } else {
            assert(e == seq![s[0]] + d);
            assert(e[t0 + 1] == ',' && e[t0] == '\\');
            assert(0 < t0 + 1 < e.len());
        }
    }
}


// ------------------------------------------------------------------
// Joining and splitting
// ------------------------------------------------------------------

/// A raw cell as the encoder writes it: some backslash-free source,
/// escaped.
pub open spec fn cell_escform(r: Seq<char>) -> bool {
    exists|u: Seq<char>| no_ch(u, '\\') && r == esc_commas(u)
}

/// The scan stops exactly at the joining comma after an escaped cell.
proof fn lemma_scan_esc(u: Seq<char>, t: Seq<char>)
    requires
        no_ch(u, '\\'),
    ensures
        scan_cell(esc_commas(u) + seq![','] + t) == esc_commas(u).len(),
        scan_cell(esc_commas(u)) == esc_commas(u).len(),
    decreases u.len(),
{
    let e = esc_commas(u);
    if u.len() == 0 {
        assert(e =~= Seq::<char>::empty());
        assert(e + seq![','] + t =~= seq![','] + t);
        assert((seq![','] + t)[0] == ',');
        assert(scan_cell(seq![','] + t) == 0);
    } else {
        assert(forall|i: int| 0 <= i < u.drop_first().len() ==> u.drop_first()[i] == u[i + 1]);
        lemma_scan_esc(u.drop_first(), t);
        let d = esc_commas(u.drop_first());
        if u[0] == ',' {
            assert(e == seq!['\\', ','] + d);
            let w = e + seq![','] + t;
            assert(w[0] == '\\' && w[1] == ',');
            assert(w.subrange(2, w.len() as int) =~= d + seq![','] + t);
            assert(scan_cell(w) == 2 + scan_cell(d + seq![','] + t));
            assert(e[0] == '\\' && e.len() > 1 && e[1] == ',');
            assert(e.subrange(2, e.len() as int) =~= d);
            assert(scan_cell(e) == 2 + scan_cell(d));
        } else {
            assert(e == seq![u[0]] + d);
            let w = e + seq![','] + t;
            assert(w[0] == u[0]);
            assert(u[0] != ',' && u[0] != '\\');
            assert(w.drop_first() =~= d + seq![','] + t);
            assert(scan_cell(w) == 1 + scan_cell(d + seq![','] + t));
            assert(e[0] == u[0]);
            if e.len() > 1 {
                assert(e.drop_first() =~= d);
            } else {
                assert(e.drop_first() =~= d);
            }
            assert(scan_cell(e) == 1 + scan_cell(d));
        }
    }
}

/// Splitting a comma-joined row of escaped cells gives the cells back.
proof fn lemma_split_join_cells(cs: Seq<Seq<char>>)
    requires
        cs.len() > 0,
        forall|i: int| 0 <= i < cs.len() ==> cell_escform(#[trigger] cs[i]),
    ensures
        split_cells(join_keys(cs)) == cs,
    decreases cs.len(),
{
    let u = choose|u: Seq<char>| no_ch(u, '\\') && cs[0] == esc_commas(u);
    if cs.len() == 1 {
        lemma_scan_esc(u, Seq::empty());
        assert(join_keys(cs) == cs[0]);
        lemma_split_cells_step(cs[0]);
        assert(split_cells(cs[0]) == seq![cs[0]]);
        assert(seq![cs[0]] =~= cs);
    } else {
        let rest = cs.drop_first();
        assert(forall|i: int| 0 <= i < rest.len() ==> rest[i] == cs[i + 1]);
        lemma_split_join_cells(rest);
        let w = join_keys(cs);
        assert(w == cs[0] + seq![','] + join_keys(rest));
        lemma_scan_esc(u, join_keys(rest));
        assert(scan_cell(w) == cs[0].len());
        lemma_split_cells_step(w);
        assert(w.subrange(0, cs[0].len() as int) =~= cs[0]);
        assert(w.subrange(cs[0].len() as int + 1, w.len() as int) =~= join_keys(rest));
        assert(split_cells(w) == seq![cs[0]] + split_cells(join_keys(rest)));
        assert(split_cells(w) =~= cs);
    }
}

/// Splitting a comma-joined header of comma-free keys gives them back.
proof fn lemma_split_join_plain(ks: Seq<Seq<char>>)
    requires
        ks.len() > 0,
        forall|i: int| 0 <= i < ks.len() ==> no_ch(#[trigger] ks[i], ','),
    ensures
        split_plain(join_keys(ks)) == ks,
    decreases ks.len(),
{
    if ks.len() == 1 {
        assert(join_keys(ks) == ks[0]);
        lemma_find_ch_loc(ks[0], ',', ks[0].len() as int);
        lemma_split_plain_step(ks[0]);
        assert(split_plain(ks[0]) == seq![ks[0]]);
        assert(seq![ks[0]] =~= ks);
    } else {
        let rest = ks.drop_first();
        assert(forall|i: int| 0 <= i < rest.len() ==> rest[i] == ks[i + 1]);
        lemma_split_join_plain(rest);
        let w = join_keys(ks);
        assert(w == ks[0] + seq![','] + join_keys(rest));
        assert forall|t: int| 0 <= t < ks[0].len() implies w[t] != ',' by {
            assert(w[t] == ks[0][t]);
        }
        assert(w[ks[0].len() as int] == ',');
        lemma_find_ch_loc(w, ',', ks[0].len() as int);
        lemma_split_plain_step(w);
        assert(w.subrange(0, ks[0].len() as int) =~= ks[0]);
        assert(w.subrange(ks[0].len() as int + 1, w.len() as int) =~= join_keys(rest));
        assert(split_plain(w) == seq![ks[0]] + split_plain(join_keys(rest)));
        assert(split_plain(w) =~= ks);
    }
}

// ------------------------------------------------------------------
// The line layer
// ------------------------------------------------------------------

proof fn lemma_sp_spaces_chars(n: nat)
    ensures
        sp_spaces(n).len() == n,
        forall|i: int| 0 <= i < n ==> sp_spaces(n)[i] == ' ',
    decreases n,
{
    if n > 0 {
        lemma_sp_spaces_chars((n - 1) as nat);
        assert(sp_spaces(n) == seq![' '] + sp_spaces((n - 1) as nat));
    }
}

pub open spec fn wf_line(l: ToonLine) -> bool {
    &&& l.body.len() > 0
    &&& no_ch(l.body, '\n')
    &&& l.body[0] != ' '
}

pub open spec fn wf_lines(ls: Seq<ToonLine>) -> bool {
    forall|i: int| 0 <= i < ls.len() ==> wf_line(#[trigger] ls[i])
}

/// Splitting rendered well-formed lines gives the lines back.
proof fn lemma_split_render(ls: Seq<ToonLine>)
    requires
        wf_lines(ls),
    ensures
        split_lines(lines_text(ls)) == ls,
    decreases ls.len(),
{
    if ls.len() == 0 {
        assert(split_lines(lines_text(ls)) =~= ls);
    } else {
        let l = ls[0];
        let rest = ls.drop_first();
        assert(forall|i: int| 0 <= i < rest.len() ==> rest[i] == ls[i + 1]);
        lemma_split_render(rest);
        let text = lines_text(ls);
        let hl = sp_spaces(l.ind) + l.body + seq!['\n'];
        assert(text == sp_spaces(l.ind) + l.body + seq!['\n'] + lines_text(rest));
        lemma_sp_spaces_chars(l.ind);
        let k = l.ind + l.body.len();
        assert forall|t: int| 0 <= t < k implies text[t] != '\n' by {
            if t < l.ind {
                assert(text[t] == sp_spaces(l.ind)[t]);
            } else {
                assert(text[t] == l.body[t - l.ind]);
            }
        }
        assert(text[k as int] == '\n');
        lemma_find_ch_loc(text, '\n', k as int);
        let line = text.subrange(0, k as int);
        assert forall|t: int| 0 <= t < l.ind implies line[t] == ' ' by {
            assert(line[t] == sp_spaces(l.ind)[t]);
        }
        assert(line[l.ind as int] == l.body[0]);
        assert(line[l.ind as int] != ' ');
        lemma_skip_sp_loc(line, l.ind as int);
        assert(skip_sp(line) != line.len());
        assert(line.subrange(skip_sp(line), line.len() as int) =~= l.body);
        assert(text.subrange(k as int + 1, text.len() as int) =~= lines_text(rest));
        assert(split_lines(text) == seq![
            ToonLine { ind: l.ind, body: line.subrange(skip_sp(line), line.len() as int) },
        ] + split_lines(lines_text(rest)));
        assert(split_lines(text) =~= ls);
    }
}


// ------------------------------------------------------------------
// Shapes of encoded blocks
// ------------------------------------------------------------------

proof fn lemma_join_no_ch(cs: Seq<Seq<char>>, c: char)
    requires
        c != ',',
        forall|i: int| 0 <= i < cs.len() ==> no_ch(#[trigger] cs[i], c),
    ensures
        no_ch(join_keys(cs), c),
    decreases cs.len(),
{
    if cs.len() > 1 {
        let rest = cs.drop_first();
        assert(forall|i: int| 0 <= i < rest.len() ==> rest[i] == cs[i + 1]);
        lemma_join_no_ch(rest, c);
        let w = join_keys(cs);
        assert(w == cs[0] + seq![','] + join_keys(rest));
        assert forall|t: int| 0 <= t < w.len() implies w[t] != c by {
            if t < cs[0].len() {
                assert(w[t] == cs[0][t]);
            } else if t > cs[0].len() {
                assert(w[t] == join_keys(rest)[t - cs[0].len() - 1]);
            }
        }
    }
}

/// A well-formed scalar's text is single-line.
proof fn lemma_scalar_text(v: ToonV)
    requires
        wf_scalar(v),
    ensures
        sp_scalar(v).len() > 0,
        no_ch(sp_scalar(v), '\n'),
{
    match v {
        ToonV::Int(i) => {
            lemma_int_str_roundtrip(i);
            assert forall|t: int| 0 <= t < sp_scalar(v).len() implies sp_scalar(v)[t] != '\n' by {
                if is_digit_char(sp_scalar(v)[t]) {
                    lemma_digit_not_special(sp_scalar(v)[t]);
                }
            }
        },
        _ => {},
    }
}

/// A well-formed cell's raw text is nonempty, single-line, and does not
/// begin with a space; and it is an escaped backslash-free source.
proof fn lemma_cell_text(v: ToonV)
    requires
        wf_cell(v),
    ensures
        sp_cell(v).len() > 0,
        no_ch(sp_cell(v), '\n'),
        sp_cell(v)[0] != ' ',
        cell_escform(sp_cell(v)),
{
    match v {
        ToonV::Null => {
            lemma_esc_id(seq!['~']);
            assert(no_ch(seq!['~'], '\\'));
            assert(cell_escform(sp_cell(v)));
        },
        ToonV::Bool(b) => {
            if b {
                lemma_esc_id(seq!['T']);
                assert(no_ch(seq!['T'], '\\'));
            } else {
                lemma_esc_id(seq!['F']);
                assert(no_ch(seq!['F'], '\\'));
            }
            assert(cell_escform(sp_cell(v)));
        },
        ToonV::Int(i) => {
            lemma_int_str_roundtrip(i);
            let s = sp_int_str(i);
            assert forall|t: int| 0 <= t < s.len() implies s[t] != '\n' && s[t] != ',' && s[t]
                != '\\' by {
                if is_digit_char(s[t]) {
                    lemma_digit_not_special(s[t]);
                }
            }
            lemma_esc_id(s);
            assert(s[0] != ' ') by {
                if is_digit_char(s[0]) {
                    lemma_digit_not_special(s[0]);
                }
            }
            assert(cell_escform(sp_cell(v)));
        },
        ToonV::Text(s) => {
            lemma_esc_chars(s);
            let e = esc_commas(s);
            assert(e.len() > 0);
            assert(e[0] == '\\' || e[0] == s[0]) by {
                if s[0] == ',' {
                    assert(e == seq!['\\', ','] + esc_commas(s.drop_first()));
                } else {
                    assert(e == seq![s[0]] + esc_commas(s.drop_first()));
                }
            }
            assert(cell_escform(sp_cell(v)));
        },
        _ => {},
    }
}

/// All lines an object's fields encode to are well formed, and a
/// nonempty field list yields a nonempty block opening at indent `2d`.
proof fn lemma_shape_obj(fs: Seq<(Seq<char>, ToonV)>, d: nat)
    requires
        wf_fields(fs),
    ensures
        wf_lines(enc_obj_lines(fs, d)),
        enc_obj_lines(fs, d).len() >= fs.len(),
        fs.len() > 0 ==> enc_obj_lines(fs, d)[0].ind == 2 * d,
    decreases fs, 1int,
{
    if fs.len() > 0 {
        lemma_shape_field(fs[0].0, fs[0].1, d);
        lemma_shape_obj(fs.drop_first(), d);
        let b = enc_obj_lines(fs, d);
        let h = enc_field_lines(fs[0].0, fs[0].1, d);
        let t = enc_obj_lines(fs.drop_first(), d);
        assert(b == h + t);
        assert forall|i: int| 0 <= i < b.len() implies wf_line(#[trigger] b[i]) by {
            if i < h.len() {
                assert(b[i] == h[i]);
            } else {
                assert(b[i] == t[i - h.len()]);
            }
        }
        assert(b[0] == h[0]);
    }
}

proof fn lemma_shape_field(k: Seq<char>, v: ToonV, d: nat)
    requires
        wf_key(k),
        wf_value(v),
    ensures
        wf_lines(enc_field_lines(k, v, d)),
        enc_field_lines(k, v, d).len() > 0,
        enc_field_lines(k, v, d)[0].ind == 2 * d,
    decreases v, 0int,
{
    match v {
        ToonV::Object(gs) => {
            lemma_shape_obj(gs, d + 1);
            let head = ToonLine { ind: 2 * d, body: k + seq![':'] };
            assert(head.body[0] == k[0]);
            assert(wf_line(head)) by {
                assert(no_ch(head.body, '\n')) by {
                    assert forall|t: int| 0 <= t < head.body.len() implies head.body[t]
                        != '\n' by {
                        if t < k.len() {
                            assert(head.body[t] == k[t]);
                        }
                    }
                }
            }
            let b = enc_field_lines(k, v, d);
            let t2 = enc_obj_lines(gs, d + 1);
            assert(b == seq![head] + t2);
            assert forall|i: int| 0 <= i < b.len() implies wf_line(#[trigger] b[i]) by {
                if i == 0 {
                    assert(b[0] == head);
                } else {
                    assert(b[i] == t2[i - 1]);
                }
            }
        },
        ToonV::List(items) => {
            lemma_shape_list(items, d + 1);
            lemma_nat_digits_val(items.len());
            let body = k + seq!['['] + sp_nat_digits(items.len()) + seq![']', ':'];
            let head = ToonLine { ind: 2 * d, body: body };
            assert(head.body[0] == k[0]);
            assert(wf_line(head)) by {
                assert forall|t: int| 0 <= t < body.len() implies body[t] != '\n' by {
                    if t < k.len() {
                        assert(body[t] == k[t]);
                    } else if t == k.len() {
                        assert(body[t] == '[');
                    } else if t < k.len() + 1 + sp_nat_digits(items.len()).len() {
                        assert(body[t] == sp_nat_digits(items.len())[t - k.len() - 1]);
                        lemma_digit_not_special(body[t]);
                    }
                }
            }
            let b = enc_field_lines(k, v, d);
            let t2 = enc_list_lines(items, d + 1);
            assert(b == seq![head] + t2);
            assert forall|i: int| 0 <= i < b.len() implies wf_line(#[trigger] b[i]) by {
                if i == 0 {
                    assert(b[0] == head);
                } else {
                    assert(b[i] == t2[i - 1]);
                }
            }
        },
        _ => {
            lemma_scalar_text(v);
            let body = k + seq![':', ' '] + sp_scalar(v);
            let head = ToonLine { ind: 2 * d, body: body };
            assert(head.body[0] == k[0]);
            assert(wf_line(head)) by {
                assert forall|t: int| 0 <= t < body.len() implies body[t] != '\n' by {
                    if t < k.len() {
                        assert(body[t] == k[t]);
                    } else if t >= k.len() + 2 {
                        assert(body[t] == sp_scalar(v)[t - k.len() - 2]);
                    }
                }
            }
            assert(enc_field_lines(k, v, d) == seq![head]);
            assert forall|i: int| 0 <= i < seq![head].len() implies wf_line(
                #[trigger] seq![head][i],
            ) by {
                assert(seq![head][i] == head);
            }
        },
    }
}

/// All lines a well-formed array encodes to are well formed; the block
/// is nonempty and opens at indent `2d`.
proof fn lemma_shape_list(items: Seq<ToonV>, d: nat)
    requires
        items.len() > 0,
        items[0] is Object ==> wf_tab(items),
        !(items[0] is Object) ==> forall|t: int|
            0 <= t < items.len() ==> wf_scalar(#[trigger] items[t]),
    ensures
        wf_lines(enc_list_lines(items, d)),
        enc_list_lines(items, d).len() > 0,
        enc_list_lines(items, d)[0].ind == 2 * d,
    decreases items.len(), 2int,
{
    if items[0] is Object {
        let keys = tab_keys(items[0]->Object_0);
        let header = ToonLine { ind: 2 * d, body: seq!['{'] + join_keys(keys) + seq!['}', ':'] };
        assert(wf_line(header)) by {
            assert(header.body[0] == '{');
            assert forall|i: int| 0 <= i < keys.len() implies no_ch(#[trigger] keys[i], '\n') by {
                assert(wf_key(keys[i]));
            }
            lemma_join_no_ch(keys, '\n');
            assert forall|t: int| 0 <= t < header.body.len() implies header.body[t] != '\n' by {
                if 0 < t <= join_keys(keys).len() {
                    assert(header.body[t] == join_keys(keys)[t - 1]);
                }
            }
        }
        lemma_shape_rows(keys, items, d);
        let b = enc_list_lines(items, d);
        let rows = enc_tab_rows(keys, items, d);
        assert(b == seq![header] + rows);
        assert forall|i: int| 0 <= i < b.len() implies wf_line(#[trigger] b[i]) by {
            if i == 0 {
                assert(b[0] == header);
            } else {
                assert(b[i] == rows[i - 1]);
            }
        }
    } else {
        lemma_shape_items(items, d);
    }
}

proof fn lemma_shape_items(items: Seq<ToonV>, d: nat)
    requires
        forall|t: int| 0 <= t < items.len() ==> wf_scalar(#[trigger] items[t]),
    ensures
        wf_lines(enc_plain_items(items, d)),
        enc_plain_items(items, d).len() == items.len(),
        items.len() > 0 ==> enc_plain_items(items, d)[0].ind == 2 * d,
    decreases items.len(),
{
    if items.len() > 0 {
        let rest = items.drop_first();
        assert(forall|i: int| 0 <= i < rest.len() ==> rest[i] == items[i + 1]);
        lemma_shape_items(rest, d);
        lemma_scalar_text(items[0]);
        let head = ToonLine { ind: 2 * d, body: seq!['-', ' '] + sp_scalar(items[0]) };
        assert(wf_line(head)) by {
            assert(head.body[0] == '-');
            assert forall|t: int| 0 <= t < head.body.len() implies head.body[t] != '\n' by {
                if t >= 2 {
                    assert(head.body[t] == sp_scalar(items[0])[t - 2]);
                }
            }
        }
        let b = enc_plain_items(items, d);
        let t2 = enc_plain_items(rest, d);
        assert(b == seq![head] + t2);
        assert forall|i: int| 0 <= i < b.len() implies wf_line(#[trigger] b[i]) by {
            if i == 0 {
                assert(b[0] == head);
            } else {
                assert(b[i] == t2[i - 1]);
            }
        }
    }
}

proof fn lemma_shape_rows(keys: Seq<Seq<char>>, items: Seq<ToonV>, d: nat)
    requires
        keys.len() > 0,
        forall|a: int, b: int| 0 <= a < b < keys.len() ==> keys[a] != keys[b],
        forall|j: int| 0 <= j < keys.len() ==> wf_key(#[trigger] keys[j]),
        forall|t: int|
            0 <= t < items.len() ==> {
                let f = (#[trigger] items[t])->Object_0;
                &&& items[t] is Object
                &&& f.len() == keys.len()
                &&& (forall|j: int|
                    0 <= j < f.len() ==> (#[trigger] f[j]).0 == keys[j] && wf_cell(f[j].1))
            },
    ensures
        wf_lines(enc_tab_rows(keys, items, d)),
        enc_tab_rows(keys, items, d).len() == items.len(),
    decreases items.len(),
{
    if items.len() > 0 {
        let rest = items.drop_first();
        assert(forall|i: int| 0 <= i < rest.len() ==> rest[i] == items[i + 1]);
        lemma_shape_rows(keys, rest, d);
        let fs = items[0]->Object_0;
        let cells = row_cells(keys, fs);
        lemma_row_cells_are(keys, fs);
        assert(cells.len() == keys.len());
        let head = ToonLine { ind: 2 * d, body: join_keys(cells) };
        assert(wf_line(head)) by {
            assert forall|j: int| 0 <= j < cells.len() implies no_ch(#[trigger] cells[j], '\n')
                && cells[j].len() > 0 by {
                lemma_cell_text(fs[j].1);
            }
            lemma_join_no_ch(cells, '\n');
            assert(join_keys(cells).len() > 0) by {
                if cells.len() == 1 {
                    assert(join_keys(cells) == cells[0]);
                } else {
                    assert(join_keys(cells) == cells[0] + seq![','] + join_keys(
                        cells.drop_first(),
                    ));
                }
            }
            assert(head.body[0] != ' ') by {
                lemma_cell_text(fs[0].1);
                if cells.len() == 1 {
                    assert(join_keys(cells) == cells[0]);
                } else {
                    assert(join_keys(cells)[0] == cells[0][0]);
                }
            }
        }
        let b = enc_tab_rows(keys, items, d);
        let t2 = enc_tab_rows(keys, rest, d);
        assert(b == seq![head] + t2);
        assert forall|i: int| 0 <= i < b.len() implies wf_line(#[trigger] b[i]) by {
            if i == 0 {
                assert(b[0] == head);
            } else {
                assert(b[i] == t2[i - 1]);
            }
        }
    }
}

/// In a well-formed row, the cell for each key is the cell of the field
/// standing at that key's position.
proof fn lemma_row_cells_are(keys: Seq<Seq<char>>, fs: Seq<(Seq<char>, ToonV)>)
    requires
        fs.len() == keys.len(),
        forall|a: int, b: int| 0 <= a < b < keys.len() ==> keys[a] != keys[b],
        forall|j: int| 0 <= j < fs.len() ==> (#[trigger] fs[j]).0 == keys[j],
    ensures
        row_cells(keys, fs).len() == keys.len(),
        forall|j: int|
            0 <= j < keys.len() ==> #[trigger] row_cells(keys, fs)[j] == sp_cell(fs[j].1),
{
    assert forall|j: int| 0 <= j < keys.len() implies #[trigger] row_cells(keys, fs)[j] == sp_cell(
        fs[j].1,
    ) by {
        lemma_cell_first_match(keys, fs, keys[j], j);
    }
}

proof fn lemma_cell_first_match(
    keys: Seq<Seq<char>>,
    fs: Seq<(Seq<char>, ToonV)>,
    k: Seq<char>,
    j: int,
)
    requires
        fs.len() == keys.len(),
        forall|a: int, b: int| 0 <= a < b < keys.len() ==> keys[a] != keys[b],
        forall|t: int| 0 <= t < fs.len() ==> (#[trigger] fs[t]).0 == keys[t],
        0 <= j < keys.len(),
        k == keys[j],
    ensures
        cell_for_key(fs, k) == sp_cell(fs[j].1),
    decreases j,
{
    if j == 0 {
        assert(fs[0].0 == k);
    } else {
        assert(fs[0].0 == keys[0]);
        assert(keys[0] != keys[j]);
        let fs2 = fs.drop_first();
        let keys2 = keys.drop_first();
        assert(forall|t: int| 0 <= t < fs2.len() ==> fs2[t] == fs[t + 1]);
        assert(forall|t: int| 0 <= t < keys2.len() ==> keys2[t] == keys[t + 1]);
        lemma_cell_first_match(keys2, fs2, k, j - 1);
        assert(cell_for_key(fs, k) == cell_for_key(fs2, k));
    }
}


// ------------------------------------------------------------------
// Field heads
// ------------------------------------------------------------------

proof fn lemma_fh_scalar(k: Seq<char>, v: ToonV)
    requires
        wf_key(k),
        wf_scalar(v),
    ensures
        split_field(k + seq![':', ' '] + sp_scalar(v)) == SpFieldHead::ScalarField(
            k,
            sp_scalar(v),
        ),
{
    let b = k + seq![':', ' '] + sp_scalar(v);
    assert(b[0] == k[0]);
    assert(b[0] != '{');
    if b.len() >= 2 && b[0] == '-' && b[1] == ' ' {
        if k.len() == 1 {
            assert(b[1] == ':');
        } else {
            assert(b[1] == k[1]);
        }
        assert(false);
    }
    assert forall|t: int| 0 <= t < k.len() implies b[t] != ':' by {
        assert(b[t] == k[t]);
    }
    assert(b[k.len() as int] == ':');
    lemma_find_ch_loc(b, ':', k.len() as int);
    assert(b.subrange(0, k.len() as int) =~= k);
    let rest = b.subrange(k.len() as int + 1, b.len() as int);
    assert(rest[0] == ' ');
    assert(rest.subrange(1, rest.len() as int) =~= sp_scalar(v));
}

proof fn lemma_fh_obj(k: Seq<char>)
    requires
        wf_key(k),
    ensures
        split_field(k + seq![':']) == SpFieldHead::ObjKey(k),
{
    let b = k + seq![':'];
    assert(b[0] == k[0]);
    if b.len() >= 2 && b[0] == '-' && b[1] == ' ' {
        if k.len() == 1 {
            assert(b[1] == ':');
        } else {
            assert(b[1] == k[1]);
        }
        assert(false);
    }
    assert forall|t: int| 0 <= t < k.len() implies b[t] != ':' by {
        assert(b[t] == k[t]);
    }
    assert(b[k.len() as int] == ':');
    lemma_find_ch_loc(b, ':', k.len() as int);
    assert(b.subrange(0, k.len() as int) =~= k);
    assert(b.subrange(k.len() as int + 1, b.len() as int) =~= Seq::<char>::empty());
    if k[k.len() - 1] == ']' {
        lemma_find_ch_loc(k, '[', k.len() as int);
        assert(find_ch(k, '[') == k.len());
    }
}

proof fn lemma_fh_arr(k: Seq<char>, m: nat)
    requires
        wf_key(k),
    ensures
        split_field(k + seq!['['] + sp_nat_digits(m) + seq![']', ':']) == SpFieldHead::ArrKey(k),
{
    let ds = sp_nat_digits(m);
    lemma_nat_digits_val(m);
    let b = k + seq!['['] + ds + seq![']', ':'];
    assert(b[0] == k[0]);
    if b.len() >= 2 && b[0] == '-' && b[1] == ' ' {
        if k.len() == 1 {
            assert(b[1] == '[');
        } else {
            assert(b[1] == k[1]);
        }
        assert(false);
    }
    let c = b.len() - 1;
    assert forall|t: int| 0 <= t < c implies b[t] != ':' by {
        if t < k.len() {
            assert(b[t] == k[t]);
        } else if t == k.len() {
            assert(b[t] == '[');
        } else if t < k.len() + 1 + ds.len() {
            assert(b[t] == ds[t - k.len() - 1]);
            lemma_digit_not_special(b[t]);
        } else {
            assert(b[t] == ']');
        }
    }
    assert(b[c as int] == ':');
    lemma_find_ch_loc(b, ':', c as int);
    let kf = b.subrange(0, c as int);
    assert(kf =~= k + seq!['['] + ds + seq![']']);
    assert(kf[kf.len() - 1] == ']');
    assert forall|t: int| 0 <= t < k.len() implies kf[t] != '[' by {
        assert(kf[t] == k[t]);
    }
    assert(kf[k.len() as int] == '[');
    lemma_find_ch_loc(kf, '[', k.len() as int);
    assert(b.subrange(c as int + 1, b.len() as int) =~= Seq::<char>::empty());
    assert(kf.subrange(0, k.len() as int) =~= k);
}

// ------------------------------------------------------------------
// The parse induction
// ------------------------------------------------------------------

proof fn lemma_parse_items_block(items: Seq<ToonV>, d: nat, ls: Seq<ToonLine>, i: int)
    requires
        forall|t: int| 0 <= t < items.len() ==> wf_scalar(#[trigger] items[t]),
        0 <= i,
        i + enc_plain_items(items, d).len() <= ls.len(),
        forall|t: int|
            0 <= t < enc_plain_items(items, d).len() ==> ls[i + t] == #[trigger] enc_plain_items(
                items,
                d,
            )[t],
        i + enc_plain_items(items, d).len() == ls.len() || ls[i + enc_plain_items(
            items,
            d,
        ).len()].ind < 2 * d,
    ensures
        parse_items(ls, i, 2 * d as int) == Some::<(Seq<ToonV>, int)>(
            (items, i + enc_plain_items(items, d).len()),
        ),
    decreases items.len(),
{
    lemma_shape_items(items, d);
    let blk = enc_plain_items(items, d);
    if items.len() == 0 {
        assert(blk.len() == 0);
    } else {
        let rest = items.drop_first();
        assert(forall|t: int| 0 <= t < rest.len() ==> rest[t] == items[t + 1]);
        let head = ToonLine { ind: 2 * d, body: seq!['-', ' '] + sp_scalar(items[0]) };
        let tblk = enc_plain_items(rest, d);
        assert(blk == seq![head] + tblk);
        assert(ls[i] == blk[0]);
        assert(blk[0] == head);
        let b = ls[i].body;
        assert(b[0] == '-' && b[1] == ' ');
        assert(b.subrange(2, b.len() as int) =~= sp_scalar(items[0]));
        lemma_parse_scalar(items[0]);
        lemma_shape_items(rest, d);
        assert forall|t: int| 0 <= t < tblk.len() implies ls[i + 1 + t] == #[trigger] tblk[t] by {
            assert(blk[t + 1] == tblk[t]);
            assert(ls[i + 1 + t] == blk[t + 1]);
        }
        lemma_parse_items_block(rest, d, ls, i + 1);
        assert(parse_items(ls, i + 1, 2 * d as int) == Some::<(Seq<ToonV>, int)>(
            (rest, i + 1 + tblk.len()),
        ));
        assert(seq![parse_prim(b.subrange(2, b.len() as int))] + rest =~= items);
        assert(i + 1 + tblk.len() == i + blk.len());
    }
}

proof fn lemma_parse_rows_block(
    keys: Seq<Seq<char>>,
    items: Seq<ToonV>,
    d: nat,
    ls: Seq<ToonLine>,
    i: int,
)
    requires
        keys.len() > 0,
        forall|a: int, b: int| 0 <= a < b < keys.len() ==> keys[a] != keys[b],
        forall|j: int| 0 <= j < keys.len() ==> wf_key(#[trigger] keys[j]),
        forall|t: int|
            0 <= t < items.len() ==> {
                let f = (#[trigger] items[t])->Object_0;
                &&& items[t] is Object
                &&& f.len() == keys.len()
                &&& (forall|j: int|
                    0 <= j < f.len() ==> (#[trigger] f[j]).0 == keys[j] && wf_cell(f[j].1))
            },
        0 <= i,
        i + enc_tab_rows(keys, items, d).len() <= ls.len(),
        forall|t: int|
            0 <= t < enc_tab_rows(keys, items, d).len() ==> ls[i + t] == #[trigger] enc_tab_rows(
                keys,
                items,
                d,
            )[t],
        i + enc_tab_rows(keys, items, d).len() == ls.len() || ls[i + enc_tab_rows(
            keys,
            items,
            d,
        ).len()].ind < 2 * d,
    ensures
        parse_tab_rows(ls, i, 2 * d as int, keys) == Some::<(Seq<ToonV>, int)>(
            (items, i + enc_tab_rows(keys, items, d).len()),
        ),
    decreases items.len(),
{
    lemma_shape_rows(keys, items, d);
    let blk = enc_tab_rows(keys, items, d);
    if items.len() == 0 {
        assert(blk.len() == 0);
    } else {
        let rest = items.drop_first();
        assert(forall|t: int| 0 <= t < rest.len() ==> rest[t] == items[t + 1]);
        let fs = items[0]->Object_0;
        let cells = row_cells(keys, fs);
        lemma_row_cells_are(keys, fs);
        let head = ToonLine { ind: 2 * d, body: join_keys(cells) };
        let tblk = enc_tab_rows(keys, rest, d);
        assert(blk == seq![head] + tblk);
        assert(ls[i] == blk[0]);
        assert(blk[0] == head);
        assert forall|j: int| 0 <= j < cells.len() implies cell_escform(#[trigger] cells[j]) by {
            lemma_cell_text(fs[j].1);
        }
        lemma_split_join_cells(cells);
        assert(split_cells(ls[i].body) == cells);
        assert(cells.len() == keys.len());
        let obj = ToonV::Object(
            Seq::new(keys.len(), |j: int| (keys[j], parse_prim(cells[j]))),
        );
        assert forall|j: int| 0 <= j < keys.len() implies (
            keys[j],
            parse_prim(cells[j]),
        ) == fs[j] by {
            lemma_parse_cell(fs[j].1);
            assert(cells[j] == sp_cell(fs[j].1));
        }
        assert(Seq::new(keys.len(), |j: int| (keys[j], parse_prim(cells[j]))) =~= fs);
        assert(obj == items[0]);
        lemma_shape_rows(keys, rest, d);
        assert forall|t: int| 0 <= t < tblk.len() implies ls[i + 1 + t] == #[trigger] tblk[t] by {
            assert(blk[t + 1] == tblk[t]);
            assert(ls[i + 1 + t] == blk[t + 1]);
        }
        lemma_parse_rows_block(keys, rest, d, ls, i + 1);
        assert(seq![obj] + rest =~= items);
        assert(i + 1 + tblk.len() == i + blk.len());
    }
}

proof fn lemma_parse_array_block(items: Seq<ToonV>, d: nat, ls: Seq<ToonLine>, i: int)
    requires
        items.len() > 0,
        items[0] is Object ==> wf_tab(items),
        !(items[0] is Object) ==> forall|t: int|
            0 <= t < items.len() ==> wf_scalar(#[trigger] items[t]),
        0 <= i,
        i + enc_list_lines(items, d).len() <= ls.len(),
        forall|t: int|
            0 <= t < enc_list_lines(items, d).len() ==> ls[i + t] == #[trigger] enc_list_lines(
                items,
                d,
            )[t],
        i + enc_list_lines(items, d).len() == ls.len() || ls[i + enc_list_lines(
            items,
            d,
        ).len()].ind < 2 * d,
    ensures
        parse_array(ls, i, 2 * d as int) == Some::<(Seq<ToonV>, int)>(
            (items, i + enc_list_lines(items, d).len()),
        ),
{
    lemma_shape_list(items, d);
    let blk = enc_list_lines(items, d);
    if items[0] is Object {
        let keys = tab_keys(items[0]->Object_0);
        let header = ToonLine { ind: 2 * d, body: seq!['{'] + join_keys(keys) + seq!['}', ':'] };
        let rows = enc_tab_rows(keys, items, d);
        assert(blk == seq![header] + rows);
        assert(ls[i] == blk[0]);
        assert(blk[0] == header);
        let b = ls[i].body;
        assert(b[0] == '{');
        assert(b[b.len() - 1] == ':');
        assert(b[b.len() - 2] == '}');
        assert(b.len() >= 3) by {
            assert(join_keys(keys).len() >= 0);
        }
        assert(b.subrange(1, b.len() - 2) =~= join_keys(keys));
        assert forall|j: int| 0 <= j < keys.len() implies no_ch(#[trigger] keys[j], ',') by {
            assert(wf_key(keys[j]));
        }
        lemma_split_join_plain(keys);
        assert(split_plain(b.subrange(1, b.len() - 2)) == keys);
        lemma_shape_rows(keys, items, d);
        assert forall|t: int| 0 <= t < rows.len() implies ls[i + 1 + t] == #[trigger] rows[t] by {
            assert(blk[t + 1] == rows[t]);
            assert(ls[i + 1 + t] == blk[t + 1]);
        }
        lemma_parse_rows_block(keys, items, d, ls, i + 1);
        assert(i + 1 + rows.len() == i + blk.len());
    } else {
        assert(blk == enc_plain_items(items, d));
        lemma_shape_items(items, d);
        assert(ls[i] == blk[0]);
        let head = ToonLine { ind: 2 * d, body: seq!['-', ' '] + sp_scalar(items[0]) };
        assert(enc_plain_items(items, d)[0] == head) by {
            assert(enc_plain_items(items, d) == seq![head] + enc_plain_items(
                items.drop_first(),
                d,
            ));
        }
        let b = ls[i].body;
        assert(b[0] == '-' && b[1] == ' ');
        assert(b[0] != '{');
        lemma_parse_items_block(items, d, ls, i);
    }
}

/// Budget: the levels still open plus the depth below stay within the
/// decoder's indentation limit.
pub open spec fn level_ok(d: nat, fs: Seq<(Seq<char>, ToonV)>) -> bool {
    d + depth_fields(fs) <= 5001
}

proof fn lemma_depth_fields_first(fs: Seq<(Seq<char>, ToonV)>)
    requires
        fs.len() > 0,
    ensures
        depth_fields(fs) >= depth_v(fs[0].1),
        depth_fields(fs) >= depth_fields(fs.drop_first()),
{
}

proof fn lemma_parse_obj_block(fs: Seq<(Seq<char>, ToonV)>, d: nat, ls: Seq<ToonLine>, i: int)
    requires
        wf_fields(fs),
        level_ok(d, fs),
        0 <= i,
        i + enc_obj_lines(fs, d).len() <= ls.len(),
        forall|t: int|
            0 <= t < enc_obj_lines(fs, d).len() ==> ls[i + t] == #[trigger] enc_obj_lines(
                fs,
                d,
            )[t],
        i + enc_obj_lines(fs, d).len() == ls.len() || ls[i + enc_obj_lines(fs, d).len()].ind < 2
            * d,
    ensures
        parse_fields(ls, i, 2 * d as int) == Some::<(Seq<(Seq<char>, ToonV)>, int)>(
            (fs, i + enc_obj_lines(fs, d).len()),
        ),
    decreases fs,
{
    lemma_shape_obj(fs, d);
    let blk = enc_obj_lines(fs, d);
    if fs.len() == 0 {
        assert(blk.len() == 0);
    } else {
        let k = fs[0].0;
        let v = fs[0].1;
        let rest = fs.drop_first();
        assert(forall|t: int| 0 <= t < rest.len() ==> rest[t] == fs[t + 1]);
        let hblk = enc_field_lines(k, v, d);
        let tblk = enc_obj_lines(rest, d);
        assert(blk == hblk + tblk);
        lemma_shape_field(k, v, d);
        lemma_shape_obj(rest, d);
        assert(ls[i] == blk[0]);
        assert(blk[0] == hblk[0]);
        assert forall|t: int| 0 <= t < tblk.len() implies ls[i + hblk.len() + t]
            == #[trigger] tblk[t] by {
            assert(blk[hblk.len() + t] == tblk[t]);
            assert(ls[i + (hblk.len() + t)] == blk[hblk.len() + t]);
        }
        // boundary for the rest of the fields is the outer boundary
        assert(i + hblk.len() + tblk.len() == i + blk.len());
        lemma_depth_fields_first(fs);
        assert(level_ok(d, rest));
        // boundary after the first field's block: the rest's first line
        // at indent 2d, or the outer boundary
        assert(i + hblk.len() == ls.len() || ls[i + hblk.len()].ind < 2 * d + 2) by {
            if i + hblk.len() < ls.len() {
                if tblk.len() > 0 {
                    assert(ls[i + hblk.len()] == tblk[0]);
                    assert(tblk[0].ind == 2 * d);
                } else {
                    assert(i + hblk.len() == i + blk.len());
                }
            }
        }
        match v {
            ToonV::Object(gs) => {
                let head = ToonLine { ind: 2 * d, body: k + seq![':'] };
                let gblk = enc_obj_lines(gs, d + 1);
                assert(hblk == seq![head] + gblk);
                assert(ls[i] == head) by {
                    assert(hblk[0] == head);
                }
                lemma_fh_obj(k);
                assert(split_field(ls[i].body) == SpFieldHead::ObjKey(k));
                assert(2 * d <= 10000) by {
                    assert(depth_v(v) >= 1);
                    assert(depth_fields(fs) >= 1);
                }
                assert forall|t: int| 0 <= t < gblk.len() implies ls[i + 1 + t]
                    == #[trigger] gblk[t] by {
                    assert(hblk[1 + t] == gblk[t]);
                    assert(blk[1 + t] == hblk[1 + t]);
                    assert(ls[i + 1 + t] == blk[1 + t]);
                }
                assert(level_ok(d + 1, gs)) by {
                    assert(depth_v(v) == 1 + depth_fields(gs));
                    assert(depth_fields(fs) >= depth_v(v));
                }
                assert(wf_value(v));
                assert(gs.len() > 0 && wf_fields(gs));
                lemma_parse_obj_block(gs, d + 1, ls, i + 1);
                assert(parse_fields(ls, i + 1, 2 * d as int + 2) == Some::<
                    (Seq<(Seq<char>, ToonV)>, int),
                >((gs, i + 1 + gblk.len())));
                let j = i + 1 + gblk.len();
                assert(gs.len() > 0);
                assert(j > i && j <= ls.len());
                lemma_parse_obj_block(rest, d, ls, j);
                assert(j == i + hblk.len());
                assert(parse_fields(ls, j, 2 * d as int) == Some::<(Seq<(Seq<char>, ToonV)>, int)>(
                    (rest, i + blk.len()),
                ));
                assert(seq![(k, ToonV::Object(gs))] + rest =~= fs);
            },
            ToonV::List(items) => {
                let head = ToonLine {
                    ind: 2 * d,
                    body: k + seq!['['] + sp_nat_digits(items.len()) + seq![']', ':'],
                };
                let gblk = enc_list_lines(items, d + 1);
                assert(hblk == seq![head] + gblk);
                assert(ls[i] == head) by {
                    assert(hblk[0] == head);
                }
                lemma_fh_arr(k, items.len());
                assert(split_field(ls[i].body) == SpFieldHead::ArrKey(k));
                assert(2 * d <= 10000) by {
                    assert(depth_v(v) >= 1);
                    assert(depth_fields(fs) >= 1);
                }
                assert forall|t: int| 0 <= t < gblk.len() implies ls[i + 1 + t]
                    == #[trigger] gblk[t] by {
                    assert(hblk[1 + t] == gblk[t]);
                    assert(blk[1 + t] == hblk[1 + t]);
                    assert(ls[i + 1 + t] == blk[1 + t]);
                }
                assert(wf_value(v));
                assert(items.len() > 0);
                assert(items[0] is Object ==> wf_tab(items));
                assert(!(items[0] is Object) ==> forall|t: int|
                    0 <= t < items.len() ==> wf_scalar(#[trigger] items[t]));
                lemma_parse_array_block(items, d + 1, ls, i + 1);
                let j = i + 1 + gblk.len();
                assert(parse_array(ls, i + 1, 2 * d as int + 2) == Some::<(Seq<ToonV>, int)>(
                    (items, j),
                ));
                lemma_shape_list(items, d + 1);
                assert(j > i && j <= ls.len());
                lemma_parse_obj_block(rest, d, ls, j);
                assert(j == i + hblk.len());
                assert(seq![(k, ToonV::List(items))] + rest =~= fs);
            },
            _ => {
                let head = ToonLine { ind: 2 * d, body: k + seq![':', ' '] + sp_scalar(v) };
                assert(hblk == seq![head]);
                assert(ls[i] == head) by {
                    assert(hblk[0] == head);
                }
                assert(wf_value(v));
                assert(wf_scalar(v));
                lemma_fh_scalar(k, v);
                assert(split_field(ls[i].body) == SpFieldHead::ScalarField(k, sp_scalar(v)));
                lemma_parse_scalar(v);
                lemma_parse_obj_block(rest, d, ls, i + 1);
                assert(i + 1 == i + hblk.len());
                assert(parse_fields(ls, i + 1, 2 * d as int) == Some::<(Seq<(Seq<char>, ToonV)>, int)>(
                    (rest, i + blk.len()),
                ));
                assert(seq![(k, parse_prim(sp_scalar(v)))] + rest =~= fs);
            },
        }
    }
}

// ------------------------------------------------------------------
// The round-trip law
// ------------------------------------------------------------------

/// Decoding an encoded well-formed value tree gives the tree back: the
/// codec is lossless on nested objects, uniform-object arrays, scalar
/// arrays and the scalar set.
pub proof fn lemma_toon_round_trip(v: ToonV)
    requires
        wf_root(v),
    ensures
        sp_decode(sp_encode(v)) == Some(v),
{
    match v {
        ToonV::Object(fs) => {
            lemma_shape_obj(fs, 0);
            let blk = enc_obj_lines(fs, 0);
            lemma_split_render(blk);
            let ls = split_lines(sp_encode(v));
            assert(ls == blk);
            assert(fs.len() > 0);
            assert(blk.len() > 0);
            let k = fs[0].0;
            let first = blk[0];
            assert(first.ind == 0);
            assert(first.body[0] == k[0]) by {
                let hblk = enc_field_lines(k, fs[0].1, 0);
                assert(blk == hblk + enc_obj_lines(fs.drop_first(), 0));
                lemma_shape_field(k, fs[0].1, 0);
                assert(blk[0] == hblk[0]);
                match fs[0].1 {
                    ToonV::Object(_) => {
                        assert(hblk[0].body == k + seq![':']);
                    },
                    ToonV::List(items) => {
                        assert(hblk[0].body == k + seq!['['] + sp_nat_digits(items.len()) + seq![
                            ']',
                            ':',
                        ]);
                    },
                    _ => {
                        assert(hblk[0].body == k + seq![':', ' '] + sp_scalar(fs[0].1));
                    },
                }
            }
            assert(wf_key(k)) by {
                assert(wf_fields(fs));
            }
            assert(first.body[0] != '{');
            assert(!(first.body.len() >= 2 && first.body[0] == '-' && first.body[1] == ' ')) by {
                if first.body.len() >= 2 && first.body[0] == '-' && first.body[1] == ' ' {
                    let hblk = enc_field_lines(k, fs[0].1, 0);
                    assert(blk[0] == hblk[0]);
                    if k.len() > 1 {
                        match fs[0].1 {
                            ToonV::Object(_) => {
                                assert(first.body[1] == k[1]);
                            },
                            ToonV::List(_) => {
                                assert(first.body[1] == k[1]);
                            },
                            _ => {
                                assert(first.body[1] == k[1]);
                            },
                        }
                        assert(k[1] != ' ');
                    } else {
                        match fs[0].1 {
                            ToonV::Object(_) => {
                                assert(first.body[1] == ':');
                            },
                            ToonV::List(_) => {
                                assert(first.body[1] == '[');
                            },
                            _ => {
                                assert(first.body[1] == ':');
                            },
                        }
                    }
                }
            }
            assert(level_ok(0, fs)) by {
                assert(depth_v(v) == 1 + depth_fields(fs));
            }
            lemma_parse_obj_block(fs, 0, blk, 0);
            assert(parse_fields(blk, 0, 0) == Some::<(Seq<(Seq<char>, ToonV)>, int)>(
                (fs, blk.len() as int),
            ));
        },
        ToonV::List(items) => {
            lemma_shape_list(items, 0);
            let blk = enc_list_lines(items, 0);
            lemma_split_render(blk);
            let ls = split_lines(sp_encode(v));
            assert(ls == blk);
            let first = blk[0];
            assert(first.ind == 0);
            assert(first.body[0] == '{' || (first.body.len() >= 2 && first.body[0] == '-'
                && first.body[1] == ' ')) by {
                if items[0] is Object {
                    let keys = tab_keys(items[0]->Object_0);
                    assert(blk[0].body == seq!['{'] + join_keys(keys) + seq!['}', ':']);
                } else {
                    lemma_shape_items(items, 0);
                    let head = ToonLine {
                        ind: 0,
                        body: seq!['-', ' '] + sp_scalar(items[0]),
                    };
                    assert(enc_plain_items(items, 0) == seq![head] + enc_plain_items(
                        items.drop_first(),
                        0,
                    ));
                    assert(blk[0] == head);
                }
            }
            lemma_parse_array_block(items, 0, blk, 0);
            assert(parse_array(blk, 0, 0) == Some::<(Seq<ToonV>, int)>(
                (items, blk.len() as int),
            ));
        },
        _ => {},
    }
}

} // verus!
