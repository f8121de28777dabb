//! Character-level helpers shared by the parsers and the row builders:
//! conversion between strings and character vectors, decimal numerals,
//! and joining cells with a separator.

use itertools::Itertools;
use vstd::prelude::*;

verus! {

/// `String::push` appends one character to the end of the string.
pub assume_specification[ String::push ](s: &mut String, ch: char)
    ensures
        final(s)@ == old(s)@.push(ch),
;

/// The characters of `s`, in order.
pub fn str_chars(s: &str) -> (out: Vec<char>)
    ensures
        out@ == s@,
{
    broadcast use vstd::string::group_string_axioms;

    let mut out: Vec<char> = Vec::new();
    for c in iter: s.chars()
        invariant
            iter.seq() == s@,
            out@ == iter.seq().take(iter.index() as int),
    {
        out.push(c);
    }
    out
}

/// A string holding exactly the characters of `chars`.
pub fn string_of(chars: &[char]) -> (out: String)
    ensures
        out@ == chars@,
{
    let mut out = String::new();
    let mut i: usize = 0;
    while i < chars.len()
        invariant
            i <= chars.len(),
            out@ == chars@.take(i as int),
        decreases chars.len() - i,
    {
        out.push(chars[i]);
        i += 1;
    }
    out
}

/// Whether two character slices hold the same characters.
pub fn chars_eq(a: &[char], b: &[char]) -> (same: bool)
    ensures
        same == (a@ == b@),
{
    if a.len() != b.len() {
        return false;
    }
    let mut i: usize = 0;
    while i < a.len()
        invariant
            i <= a.len(),
            a.len() == b.len(),
            a@.take(i as int) == b@.take(i as int),
        decreases a.len() - i,
    {
        if a[i] != b[i] {
            return false;
        }
        assert(a@.take(i + 1) =~= a@.take(i as int).push(a@[i as int]));
        assert(b@.take(i + 1) =~= b@.take(i as int).push(b@[i as int]));
        i += 1;
    }
    assert(a@ =~= a@.take(a.len() as int));
    assert(b@ =~= b@.take(b.len() as int));
    true
}

/// Whether `c` is one of the ten ASCII decimal digits.
pub open spec fn is_digit(c: char) -> bool {
    '0' <= c && c <= '9'
}

/// The numeric value of the ASCII digit `c`.
pub open spec fn digit_value(c: char) -> nat
    recommends
        is_digit(c),
{
    (c as u32 - '0' as u32) as nat
}

/// The ASCII digit that stands for `d`, for `d` below ten.
pub open spec fn digit_char(d: nat) -> char
    recommends
        d < 10,
{
    (d + '0' as u32) as char
}

/// The decimal numeral of `n`: no sign, no leading zero, `"0"` for zero.
pub open spec fn decimal(n: nat) -> Seq<char>
    decreases n,
{
    if n < 10 {
        seq![digit_char(n)]
    } else {
        decimal(n / 10).push(digit_char(n % 10))
    }
}

/// Appends the decimal numeral of `n` to `out`.
pub fn push_decimal(out: &mut String, n: usize)
    ensures
        final(out)@ == old(out)@ + decimal(n as nat),
    decreases n,
{
    if n >= 10 {
        push_decimal(out, n / 10);
    }
    let d: u8 = (n % 10) as u8;
    let c: char = (d + 48u8) as char;
    assert(c == digit_char((n % 10) as nat));
    out.push(c);
    assert(out@ =~= old(out)@ + decimal(n as nat));
}

/// The decimal numeral of `n` as a string.
pub fn decimal_string(n: usize) -> (out: String)
    ensures
        out@ == decimal(n as nat),
{
    let mut out = String::new();
    push_decimal(&mut out, n);
    assert(out@ =~= decimal(n as nat));
    out
}

/// Why a field is not an unsigned decimal integer.
#[derive(Clone, Copy, Debug, PartialEq, Eq, Structural)]
pub enum IntFault {
    /// The field is empty.
    Empty,
    /// A character that is not an ASCII digit stands where a digit is due.
    InvalidDigit,
    /// The digits read so far already exceed the target type.
    Overflow,
}

/// Reads `s` as a run of ASCII digits, left to right. The first character
/// that is no digit, or the first digit that lifts the value above `max`,
/// ends the reading with its fault.
pub open spec fn scan_digits(s: Seq<char>, max: nat) -> Result<nat, IntFault>
    decreases s.len(),
{
    if s.len() == 0 {
        Ok(0)
    } else {
        match scan_digits(s.drop_last(), max) {
            Err(e) => Err(e),
            Ok(v) => if !is_digit(s.last()) {
                Err(IntFault::InvalidDigit)
            } else if v * 10 + digit_value(s.last()) > max {
                Err(IntFault::Overflow)
            } else {
                Ok(v * 10 + digit_value(s.last()))
            },
        }
    }
}

/// The unsigned integer that `s` denotes: an optional `+` followed by at
/// least one ASCII digit, with a value of at most `max`.
pub open spec fn parse_uint(s: Seq<char>, max: nat) -> Result<nat, IntFault> {
    if s.len() == 0 {
        Err(IntFault::Empty)
    } else if s[0] == '+' {
        if s.len() == 1 {
            Err(IntFault::InvalidDigit)
        } else {
            scan_digits(s.skip(1), max)
        }
    } else {
        scan_digits(s, max)
    }
}

/// What `parse_uint` gives, with the value as a `usize`.
pub open spec fn parse_uint_usize(s: Seq<char>, max: nat) -> Result<usize, IntFault> {
    match parse_uint(s, max) {
        Ok(v) => Ok(v as usize),
        Err(e) => Err(e),
    }
}

/// Parses an unsigned decimal integer of at most `max`.
pub fn parse_bounded(s: &[char], max: usize) -> (r: Result<usize, IntFault>)
    ensures
        r == parse_uint_usize(s@, max as nat),
{
    if s.len() == 0 {
        return Err(IntFault::Empty);
    }
    let start: usize = if s[0] == '+' {
        1
    } else {
        0
    };
    if start == s.len() {
        return Err(IntFault::InvalidDigit);
    }
    let ghost body = s@.skip(start as int);
    let mut acc: usize = 0;
    let mut i: usize = start;
    while i < s.len()
        invariant
            start <= i <= s.len(),
            start < s.len(),
            start == 0 || start == 1,
            (start == 1) == (s@[0] == '+'),
            body == s@.skip(start as int),
            acc <= max,
            scan_digits(body.take(i - start), max as nat) == Ok::<nat, IntFault>(acc as nat),
        decreases s.len() - i,
    {
        let c = s[i];
        let ghost prefix = body.take(i - start + 1);
        assert(start == 0 ==> body =~= s@);
        assert(prefix.drop_last() =~= body.take(i - start));
        assert(prefix.last() == c);
        if !(c >= '0' && c <= '9') {
            proof {
                lemma_digits_fault_extends(body, (i - start + 1) as int, max as nat);
            }
            return Err(IntFault::InvalidDigit);
        }
        let d: u8 = (c as u32 - 48u32) as u8;
        let wide: u128 = acc as u128 * 10u128 + d as u128;
        if wide > max as u128 {
            proof {
                lemma_digits_fault_extends(body, (i - start + 1) as int, max as nat);
            }
            return Err(IntFault::Overflow);
        }
        acc = wide as usize;
        i += 1;
    }
    assert(body.take(i - start) =~= body);
    assert(start == 0 ==> body =~= s@);
    Ok(acc)
}

/// Once a prefix of `s` has a fault, the whole of `s` has the same one.
pub proof fn lemma_digits_fault_extends(s: Seq<char>, k: int, max: nat)
    requires
        0 <= k <= s.len(),
        scan_digits(s.take(k), max) is Err,
    ensures
        scan_digits(s, max) == scan_digits(s.take(k), max),
    decreases s.len() - k,
{
    if k == s.len() {
        assert(s.take(k) =~= s);
    } else {
        assert(s.take(k + 1).drop_last() =~= s.take(k));
        lemma_digits_fault_extends(s, k + 1, max);
    }
}

/// Parses a `usize` written in decimal.
pub fn parse_usize(s: &[char]) -> (r: Result<usize, IntFault>)
    ensures
        r == parse_uint_usize(s@, usize::MAX as nat),
{
    parse_bounded(s, usize::MAX)
}

/// What `parse_uint` gives for a 16-bit target.
pub open spec fn parse_uint_u16(s: Seq<char>) -> Result<u16, IntFault> {
    match parse_uint(s, u16::MAX as nat) {
        Ok(v) => Ok(v as u16),
        Err(e) => Err(e),
    }
}

/// Parses a `u16` written in decimal.
pub fn parse_u16(s: &[char]) -> (r: Result<u16, IntFault>)
    ensures
        r == parse_uint_u16(s@),
{
    match parse_bounded(s, 65535) {
        Ok(v) => Ok(v as u16),
        Err(e) => Err(e),
    }
}

/// The cells of `parts` written one after another with `sep` between
/// neighbours; the empty sequence for no cells.
pub open spec fn joined(parts: Seq<Seq<char>>, sep: Seq<char>) -> Seq<char>
    decreases parts.len(),
{
    if parts.len() == 0 {
        Seq::empty()
    } else if parts.len() == 1 {
        parts[0]
    } else {
        joined(parts.drop_last(), sep) + sep + parts.last()
    }
}

/// `Itertools::join` over the strings of `parts`: each string's text in
/// order, with `sep` written between two neighbours and nowhere else.
/// The separator is kept short so that the capacity the call reserves up
/// front, its byte length times the number of cells, stays in range.
#[verifier::external_body]
pub(crate) fn join_cells(parts: &Vec<String>, sep: &str) -> (out: String)
    requires
        sep@.len() <= 2,
    ensures
        out@ == joined(parts.deep_view(), sep@),
{
    parts.iter().join(sep)
}

} // verus!
