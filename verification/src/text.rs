//! Character-sequence utilities shared by the codec, the template scanner
//! and the error messages: conversions between `String` and `Vec<char>`,
//! and verified decimal / hexadecimal printing and parsing.

use vstd::prelude::*;

verus! {

use vstd::string::StrSliceExecFns;

pub assume_specification[ String::push ](s: &mut String, c: char)
    ensures
        final(s)@ == old(s)@.push(c),
;

/// Collect the characters of a string slice into a vector.
pub fn to_chars(s: &str) -> (r: Vec<char>)
    ensures
        r@ == s@,
{
    let n: usize = s.unicode_len();
    let mut out: Vec<char> = Vec::new();
    let mut i: usize = 0;
    while i < n
        invariant
            i <= n,
            n == s@.len(),
            out@ == s@.subrange(0, i as int),
        decreases n - i,
    {
        let c = s.get_char(i);
        out.push(c);
        i = i + 1;
        proof {
            assert(out@ =~= s@.subrange(0, i as int));
        }
    }
    proof {
        assert(out@ =~= s@);
    }
    out
}

/// Build a `String` from a vector of characters.
pub fn from_chars(v: &Vec<char>) -> (r: String)
    ensures
        r@ == v@,
{
    let mut out = String::new();
    let mut i: usize = 0;
    while i < v.len()
        invariant
            i <= v@.len(),
            out@ == v@.subrange(0, i as int),
        decreases v@.len() - i,
    {
        out.push(v[i]);
        i = i + 1;
        proof {
            assert(out@ =~= v@.subrange(0, i as int));
        }
    }
    proof {
        assert(out@ =~= v@);
    }
    out
}

/// Copy of the character range `[from, to)` of `v`.
pub fn subchars(v: &Vec<char>, from: usize, to: usize) -> (r: Vec<char>)
    requires
        from <= to <= v@.len(),
    ensures
        r@ == v@.subrange(from as int, to as int),
{
    let mut out: Vec<char> = Vec::new();
    let mut i: usize = from;
    while i < to
        invariant
            from <= i <= to <= v@.len(),
            out@ == v@.subrange(from as int, i as int),
        decreases to - i,
    {
        out.push(v[i]);
        i = i + 1;
        proof {
            assert(out@ =~= v@.subrange(from as int, i as int));
        }
    }
    out
}

/// Append every character of `src` to `dst`.
pub fn append_chars(dst: &mut Vec<char>, src: &Vec<char>)
    ensures
        final(dst)@ == old(dst)@ + src@,
{
    let mut i: usize = 0;
    while i < src.len()
        invariant
            i <= src@.len(),
            dst@ == old(dst)@ + src@.subrange(0, i as int),
        decreases src@.len() - i,
    {
        dst.push(src[i]);
        i = i + 1;
        proof {
            assert(dst@ =~= old(dst)@ + src@.subrange(0, i as int));
        }
    }
    proof {
        assert(dst@ =~= old(dst)@ + src@);
    }
}

/// Append every character of the string slice `src` to `dst`.
pub fn append_str_chars(dst: &mut Vec<char>, src: &str)
    ensures
        final(dst)@ == old(dst)@ + src@,
{
    let n: usize = src.unicode_len();
    let mut i: usize = 0;
    while i < n
        invariant
            i <= n,
            n == src@.len(),
            dst@ == old(dst)@ + src@.subrange(0, i as int),
        decreases n - i,
    {
        let c = src.get_char(i);
        dst.push(c);
        i = i + 1;
        proof {
            assert(dst@ =~= old(dst)@ + src@.subrange(0, i as int));
        }
    }
    proof {
        assert(dst@ =~= old(dst)@ + src@);
    }
}

/// Character-wise equality of two string slices.
pub fn str_eq(a: &str, b: &str) -> (r: bool)
    ensures
        r == (a@ == b@),
{
    let na: usize = a.unicode_len();
    let nb: usize = b.unicode_len();
    if na != nb {
        return false;
    }
    let mut i: usize = 0;
    while i < na
        invariant
            i <= na,
            na == a@.len(),
            na == b@.len(),
            forall|j: int| 0 <= j < i ==> a@[j] == b@[j],
        decreases na - i,
    {
        if a.get_char(i) != b.get_char(i) {
            return false;
        }
        i = i + 1;
    }
    proof {
        assert(a@ =~= b@);
    }
    true
}

/// Character-wise equality of a character vector and a string slice.
pub fn chars_eq_str(v: &Vec<char>, s: &str) -> (r: bool)
    ensures
        r == (v@ == s@),
{
    let n: usize = s.unicode_len();
    if v.len() != n {
        return false;
    }
    let mut i: usize = 0;
    while i < n
        invariant
            i <= n,
            n == s@.len(),
            n == v@.len(),
            forall|j: int| 0 <= j < i ==> v@[j] == s@[j],
        decreases n - i,
    {
        if v[i] != s.get_char(i) {
            return false;
        }
        i = i + 1;
    }
    proof {
        assert(v@ =~= s@);
    }
    true
}

// ------------------------------------------------------------------
// Decimal digits
// ------------------------------------------------------------------

/// The digit character for a value below ten.
pub open spec fn digit_char(d: nat) -> char {
    if d == 0 { '0' }
    else if d == 1 { '1' }
    else if d == 2 { '2' }
    else if d == 3 { '3' }
    else if d == 4 { '4' }
    else if d == 5 { '5' }
    else if d == 6 { '6' }
    else if d == 7 { '7' }
    else if d == 8 { '8' }
    else { '9' }
}

pub open spec fn is_digit_char(c: char) -> bool {
    c == '0' || c == '1' || c == '2' || c == '3' || c == '4' || c == '5' || c == '6' || c == '7'
        || c == '8' || c == '9'
}

/// The numeric value of a digit character.
pub open spec fn digit_val(c: char) -> nat {
    if c == '0' { 0 }
    else if c == '1' { 1 }
    else if c == '2' { 2 }
    else if c == '3' { 3 }
    else if c == '4' { 4 }
    else if c == '5' { 5 }
    else if c == '6' { 6 }
    else if c == '7' { 7 }
    else if c == '8' { 8 }
    else { 9 }
}

/// The canonical decimal digit string of a natural number (no leading zeros).
pub open spec fn sp_nat_digits(n: nat) -> Seq<char>
    decreases n,
{
    if n < 10 {
        seq![digit_char(n)]
    } else {
        sp_nat_digits(n / 10) + seq![digit_char(n % 10)]
    }
}

/// The canonical decimal string of an integer.
pub open spec fn sp_int_str(i: int) -> Seq<char> {
    if i < 0 {
        seq!['-'] + sp_nat_digits((-i) as nat)
    } else {
        sp_nat_digits(i as nat)
    }
}

/// A nonempty sequence of decimal digit characters.
pub open spec fn all_digits(s: Seq<char>) -> bool {
    forall|i: int| 0 <= i < s.len() ==> is_digit_char(#[trigger] s[i])
}

/// The value of a digit string, most significant digit first.
pub open spec fn digits_val(s: Seq<char>) -> nat
    decreases s.len(),
{
    if s.len() == 0 {
        0
    } else {
        digits_val(s.drop_last()) * 10 + digit_val(s.last())
    }
}

/// Whether `s` is accepted as an `i64` literal by the primitive parser:
/// an optional minus sign, then one or more decimal digits (leading
/// zeros allowed), with the value in range.
pub open spec fn is_int_literal(s: Seq<char>) -> bool {
    if s.len() > 0 && s[0] == '-' {
        let ds = s.subrange(1, s.len() as int);
        ds.len() > 0 && all_digits(ds) && digits_val(ds) <= 0x8000_0000_0000_0000
    } else {
        s.len() > 0 && all_digits(s) && digits_val(s) <= 0x7fff_ffff_ffff_ffff
    }
}

/// The integer value of an accepted literal.
pub open spec fn int_literal_val(s: Seq<char>) -> int {
    if s.len() > 0 && s[0] == '-' {
        -(digits_val(s.subrange(1, s.len() as int)) as int)
    } else {
        digits_val(s) as int
    }
}

proof fn lemma_digits_val_prefix(s: Seq<char>, k: int)
    requires
        0 <= k <= s.len(),
    ensures
        digits_val(s.subrange(0, k)) <= digits_val(s),
    decreases s.len() - k,
{
    if k < s.len() {
        lemma_digits_val_prefix(s, k + 1);
        let a = s.subrange(0, k);
        let b = s.subrange(0, k + 1);
        assert(b.drop_last() =~= a);
        assert(digits_val(b) == digits_val(a) * 10 + digit_val(b.last()));
    } else {
        assert(s.subrange(0, k) =~= s);
    }
}

/// The exec digit of a character, or `None`.
fn char_digit(c: char) -> (r: Option<u64>)
    ensures
        r is Some <==> is_digit_char(c),
        r is Some ==> r->0 == digit_val(c) && r->0 < 10,
{
    match c {
        '0' => Some(0),
        '1' => Some(1),
        '2' => Some(2),
        '3' => Some(3),
        '4' => Some(4),
        '5' => Some(5),
        '6' => Some(6),
        '7' => Some(7),
        '8' => Some(8),
        '9' => Some(9),
        _ => None,
    }
}

fn digit_to_char(d: u64) -> (r: char)
    requires
        d < 10,
    ensures
        r == digit_char(d as nat),
{
    match d {
        0 => '0',
        1 => '1',
        2 => '2',
        3 => '3',
        4 => '4',
        5 => '5',
        6 => '6',
        7 => '7',
        8 => '8',
        _ => '9',
    }
}

/// Append the canonical decimal digits of `n` to `out`.
pub fn push_nat_digits(out: &mut Vec<char>, n: u64)
    ensures
        final(out)@ == old(out)@ + sp_nat_digits(n as nat),
    decreases n,
{
    if n < 10 {
        out.push(digit_to_char(n));
        proof {
            assert(out@ =~= old(out)@ + sp_nat_digits(n as nat));
        }
    } else {
        push_nat_digits(out, n / 10);
        out.push(digit_to_char(n % 10));
        proof {
            assert(out@ =~= old(out)@ + sp_nat_digits(n as nat));
        }
    }
}

/// Append the canonical decimal form of `i` to `out`.
pub fn push_int_chars(out: &mut Vec<char>, i: i64)
    ensures
        final(out)@ == old(out)@ + sp_int_str(i as int),
{
    if i < 0 {
        out.push('-');
        let m: u64 = if i == i64::MIN {
            9223372036854775808u64
        } else {
            (-i) as u64
        };
        assert(m as nat == (-(i as int)) as nat);
        push_nat_digits(out, m);
        proof {
            assert(out@ =~= old(out)@ + sp_int_str(i as int));
        }
    } else {
        push_nat_digits(out, i as u64);
    }
}

/// The canonical decimal string of an unsigned value.
pub fn nat_to_string(n: u64) -> (r: String)
    ensures
        r@ == sp_nat_digits(n as nat),
{
    let mut v: Vec<char> = Vec::new();
    push_nat_digits(&mut v, n);
    from_chars(&v)
}

/// The canonical decimal string of an integer.
pub fn int_to_string(i: i64) -> (r: String)
    ensures
        r@ == sp_int_str(i as int),
{
    let mut v: Vec<char> = Vec::new();
    push_int_chars(&mut v, i);
    from_chars(&v)
}

/// Parse `v` as an `i64` literal; `None` exactly when the shape is wrong
/// or the value does not fit.
pub fn try_parse_i64(v: &Vec<char>) -> (r: Option<i64>)
    ensures
        r is Some <==> is_int_literal(v@),
        r is Some ==> r->0 as int == int_literal_val(v@),
{
    let n: usize = v.len();
    if n == 0 {
        return None;
    }
    let neg: bool = v[0] == '-';
    let start: usize = if neg { 1 } else { 0 };
    if start >= n {
        return None;
    }
    let cap: u64 = if neg { 9223372036854775808u64 } else { 9223372036854775807u64 };
    let ghost ds = v@.subrange(start as int, n as int);
    let mut acc: u64 = 0;
    let mut i: usize = start;
    while i < n
        invariant
            start <= i <= n,
            n == v@.len(),
            start < n,
            neg ==> start == 1,
            !neg ==> start == 0,
            neg ==> v@[0] == '-',
            !neg ==> v@[0] != '-',
            cap == if neg { 0x8000_0000_0000_0000u64 } else { 0x7fff_ffff_ffff_ffffu64 },
            ds == v@.subrange(start as int, n as int),
            all_digits(ds.subrange(0, i - start)),
            acc as nat == digits_val(ds.subrange(0, i - start)),
            acc <= cap,
        decreases n - i,
    {
        let d = match char_digit(v[i]) {
            Some(d) => d,
            None => {
                proof {
                    assert(ds[i - start] == v@[i as int]);
                    assert(!is_digit_char(ds[i - start]));
                    assert(!all_digits(ds));
                }
                return None;
            },
        };
        let wide: u128 = (acc as u128) * 10 + (d as u128);
        if wide > cap as u128 {
            proof {
                let pre = ds.subrange(0, i - start + 1);
                assert(pre.drop_last() =~= ds.subrange(0, i - start));
                assert(pre.last() == ds[i - start] && ds[i - start] == v@[i as int]);
                assert(digits_val(pre) == wide as nat);
                lemma_digits_val_prefix(ds, i - start + 1);
                assert(digits_val(ds) >= wide as nat);
                assert(digits_val(ds) > cap as nat);
                if !neg {
                    assert(ds =~= v@);
                }
                assert(!is_int_literal(v@));
            }
            return None;
        }
        acc = wide as u64;
        i = i + 1;
        proof {
            let pre = ds.subrange(0, i - start);
            assert(pre.drop_last() =~= ds.subrange(0, i - 1 - start));
            assert(pre.last() == v@[i - 1]);
            assert(forall|j: int| 0 <= j < pre.len() ==> is_digit_char(#[trigger] pre[j]));
        }
    }
    proof {
        assert(ds.subrange(0, n - start) =~= ds);
        if !neg {
            assert(ds =~= v@);
        }
        assert(acc as nat == digits_val(ds));
        assert(is_int_literal(v@));
    }
    if neg {
        if acc == 9223372036854775808u64 {
            proof {
                assert(i64::MIN as int == -(acc as int));
            }
            Some(i64::MIN)
        } else {
            Some(-(acc as i64))
        }
    } else {
        Some(acc as i64)
    }
}

// ------------------------------------------------------------------
// Hexadecimal digits
// ------------------------------------------------------------------

/// The lower-case hex digit character for a value below sixteen.
pub open spec fn hex_char(d: nat) -> char {
    if d < 10 { digit_char(d) }
    else if d == 10 { 'a' }
    else if d == 11 { 'b' }
    else if d == 12 { 'c' }
    else if d == 13 { 'd' }
    else if d == 14 { 'e' }
    else { 'f' }
}

/// The canonical lower-case hex digit string of `n` (no leading zeros).
pub open spec fn sp_hex_digits(n: nat) -> Seq<char>
    decreases n,
{
    if n < 16 {
        seq![hex_char(n)]
    } else {
        sp_hex_digits(n / 16) + seq![hex_char(n % 16)]
    }
}

fn hex_to_char(d: u64) -> (r: char)
    requires
        d < 16,
    ensures
        r == hex_char(d as nat),
{
    match d {
        0 => '0',
        1 => '1',
        2 => '2',
        3 => '3',
        4 => '4',
        5 => '5',
        6 => '6',
        7 => '7',
        8 => '8',
        9 => '9',
        10 => 'a',
        11 => 'b',
        12 => 'c',
        13 => 'd',
        14 => 'e',
        _ => 'f',
    }
}

/// Append the canonical hex digits of `n` to `out`.
pub fn push_hex_digits(out: &mut Vec<char>, n: u64)
    ensures
        final(out)@ == old(out)@ + sp_hex_digits(n as nat),
    decreases n,
{
    if n < 16 {
        out.push(hex_to_char(n));
        proof {
            assert(out@ =~= old(out)@ + sp_hex_digits(n as nat));
        }
    } else {
        push_hex_digits(out, n / 16);
        out.push(hex_to_char(n % 16));
        proof {
            assert(out@ =~= old(out)@ + sp_hex_digits(n as nat));
        }
    }
}

} // verus!
