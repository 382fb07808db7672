//! Character classification and text-building helpers shared by the
//! pipeline stages.
//!
//! The compiler builds all of its output text through these functions, so
//! that every stage's contract can speak about the produced characters.

use vstd::prelude::*;

verus! {

/// Whether `c` counts as alphabetic under Unicode, as `char::is_alphabetic`
/// decides it.  The exact character set takes the Unicode tables to state,
/// so it is only named here.
pub uninterp spec fn unicode_alphabetic(c: char) -> bool;

/// Whether `c` counts as alphanumeric under Unicode, as
/// `char::is_alphanumeric` decides it.
pub uninterp spec fn unicode_alphanumeric(c: char) -> bool;

/// Relies on `char::is_alphabetic`: the result depends on the character
/// alone (a fixed Unicode table lookup), and on ASCII characters it
/// holds exactly of the letters.
pub assume_specification[ char::is_alphabetic ](c: char) -> (r: bool)
    ensures
        r == unicode_alphabetic(c),
        c as u32 <= 127 ==> r == (('a' <= c && c <= 'z') || ('A' <= c && c <= 'Z')),
;

/// Relies on `char::is_alphanumeric`: the result depends on the
/// character alone (a fixed Unicode table lookup), and on ASCII
/// characters it holds exactly of the letters and decimal digits.
pub assume_specification[ char::is_alphanumeric ](c: char) -> (r: bool)
    ensures
        r == unicode_alphanumeric(c),
        c as u32 <= 127 ==> r == (('a' <= c && c <= 'z') || ('A' <= c && c <= 'Z') || ('0' <= c
            && c <= '9')),
;

/// Relies on `String::push`: appends exactly one character.
pub assume_specification[ std::string::String::push ](s: &mut String, c: char)
    ensures
        final(s)@ == old(s)@.push(c),
;

/// Relies on `str`'s `PartialEq`: two string slices are equal exactly when
/// their character sequences are.
pub assume_specification[ <str as PartialEq<str>>::eq ](a: &str, b: &str) -> (r: bool)
    ensures
        r == (a@ == b@),
;

/// The decimal digit character for a value in `0 ..= 9`.
pub open spec fn dec_char(d: int) -> char {
    ((d + 48) as u8) as char
}

/// The decimal digits of `n`, with no leading zeros; empty for `n <= 0`.
pub open spec fn dec_seq(n: int) -> Seq<char>
    decreases n,
{
    if n <= 0 {
        Seq::empty()
    } else {
        dec_seq(n / 10).push(dec_char(n % 10))
    }
}

/// The decimal rendering of a non-negative number (`0` renders as `"0"`).
pub open spec fn dec_str(n: int) -> Seq<char> {
    if n == 0 {
        seq!['0']
    } else {
        dec_seq(n)
    }
}

/// The decimal rendering of a signed number, with a leading `-` when
/// negative.
pub open spec fn int_str(n: int) -> Seq<char> {
    if n < 0 {
        seq!['-'] + dec_str(-n)
    } else {
        dec_str(n)
    }
}

/// Renders a `u64` in decimal.
pub fn u64_to_string(n: u64) -> (r: String)
    ensures
        r@ == dec_str(n as int),
{
    let mut digits: Vec<char> = Vec::new();
    let mut m: u64 = n;
    while m > 0
        invariant
            dec_seq(n as int) == dec_seq(m as int) + digits@.reverse(),
            m <= n,
        decreases m,
    {
        let d: u64 = m % 10;
        let c: char = ((d as u8) + 48) as char;
        assert(c == dec_char(d as int));
        proof {
            let ghost old_digits = digits@;
            assert(old_digits.push(c).reverse() =~= seq![c] + old_digits.reverse());
        }
        let ghost old_digits = digits@;
        digits.push(c);
        proof {
            assert(dec_seq(m as int) == dec_seq(m as int / 10).push(dec_char(m as int % 10)));
            assert(dec_seq(m as int / 10) + digits@.reverse() =~= dec_seq(m as int)
                + old_digits.reverse());
        }
        m = m / 10;
    }
    let mut out = String::new();
    if digits.len() == 0 {
        out.push('0');
        assert(out@ =~= dec_str(n as int));
        return out;
    }
    let total: usize = digits.len();
    let mut j: usize = 0;
    while j < total
        invariant
            total == digits.len(),
            total > 0,
            j <= total,
            dec_seq(n as int) == digits@.reverse(),
            out@ =~= digits@.reverse().subrange(0, j as int),
        decreases total - j,
    {
        out.push(digits[total - 1 - j]);
        proof {
            assert(digits@.reverse()[j as int] == digits@[total - 1 - j]);
            assert(out@ =~= digits@.reverse().subrange(0, j as int + 1));
        }
        j = j + 1;
    }
    proof {
        assert(digits@.reverse().subrange(0, total as int) =~= digits@.reverse());
        assert(dec_seq(n as int).len() > 0);
        assert(out@ =~= dec_str(n as int));
    }
    out
}

/// Renders a `usize` in decimal.
pub fn usize_to_string(n: usize) -> (r: String)
    ensures
        r@ == dec_str(n as int),
{
    u64_to_string(n as u64)
}

/// Renders an `i64` in decimal, with a leading `-` when negative.
pub fn i64_to_string(n: i64) -> (r: String)
    ensures
        r@ == int_str(n as int),
{
    if n >= 0 {
        let r = u64_to_string(n as u64);
        r
    } else {
        let m: u64 = ((-(n + 1)) as u64) + 1;
        assert(m as int == -(n as int));
        let mut out = String::from_str("-");
        let digits = u64_to_string(m);
        out.append(digits.as_str());
        proof {
            reveal_strlit("-");
            assert("-"@ =~= seq!['-']);
            assert(out@ =~= int_str(n as int));
        }
        out
    }
}


/// Relies on `str`'s equality comparing the underlying text.
pub(crate) fn str_eqx(a: &str, b: &str) -> (r: bool)
    ensures
        r == (a@ == b@),
{
    a.eq(b)
}

} // verus!
