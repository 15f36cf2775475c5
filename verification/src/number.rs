//! Decimal integers: what `str::parse::<u8>` accepts and which error it
//! reports, and the text of those errors.
use vstd::prelude::*;
use crate::text::{decimal, digit_char, push_str};

verus! {

/// The ways a parse of an unsigned integer fails (those of std's
/// `IntErrorKind` that can occur for `u8`).
#[derive(Debug, Clone, Copy, PartialEq, Eq, Structural)]
pub enum IntErrorKind {
    Empty,
    InvalidDigit,
    PosOverflow,
}

/// An ASCII decimal digit.
pub open spec fn is_digit(c: char) -> bool {
    48 <= c as int <= 57
}

/// The value of the digit `c`.
pub open spec fn digit_value(c: char) -> nat {
    (c as int - 48) as nat
}

/// Reads the digits `ds` after the value `acc` read so far, left to right:
/// the first character that is no digit is an `InvalidDigit`, and the first
/// digit that takes the value above 255 a `PosOverflow`.
pub open spec fn u8_digits(ds: Seq<char>, acc: nat) -> Result<u8, IntErrorKind>
    decreases ds.len(),
{
    if ds.len() == 0 {
        Ok(acc as u8)
    } else if !is_digit(ds[0]) {
        Err(IntErrorKind::InvalidDigit)
    } else if acc * 10 + digit_value(ds[0]) > 255 {
        Err(IntErrorKind::PosOverflow)
    } else {
        u8_digits(ds.drop_first(), acc * 10 + digit_value(ds[0]))
    }
}

/// What `str::parse::<u8>` gives for `s`: the empty string is `Empty`; one
/// leading `+` is allowed before at least one digit; then only digits.
pub open spec fn parse_u8(s: Seq<char>) -> Result<u8, IntErrorKind> {
    if s.len() == 0 {
        Err(IntErrorKind::Empty)
    } else if s[0] == '+' {
        if s.len() == 1 {
            Err(IntErrorKind::InvalidDigit)
        } else {
            u8_digits(s.drop_first(), 0)
        }
    } else {
        u8_digits(s, 0)
    }
}

/// Reads the digits of `s` from index `start` on.
fn read_u8_digits(s: &[char], start: usize) -> (r: Result<u8, IntErrorKind>)
    requires
        start <= s@.len(),
    ensures
        r == u8_digits(s@.skip(start as int), 0),
{
    let n = s.len();
    let mut i = start;
    let mut acc: u16 = 0;
    while i < n
        invariant
            start <= i <= n == s@.len(),
            acc <= 255,
            u8_digits(s@.skip(start as int), 0) == u8_digits(s@.skip(i as int), acc as nat),
        decreases n - i,
    {
        let c = s[i];
        assert(s@.skip(i as int)[0] == c);
        assert(s@.skip(i as int).drop_first() =~= s@.skip(i + 1));
        if c < '0' || c > '9' {
            return Err(IntErrorKind::InvalidDigit);
        }
        let d: u8 = c as u8 - 48;
        assert(d == digit_value(c));
        let v: u16 = acc * 10 + d as u16;
        if v > 255 {
            return Err(IntErrorKind::PosOverflow);
        }
        acc = v;
        i = i + 1;
    }
    assert(s@.skip(i as int).len() == 0);
    Ok(acc as u8)
}

/// Parses `s` as `str::parse::<u8>` does.
pub fn parse_u8_chars(s: &[char]) -> (r: Result<u8, IntErrorKind>)
    ensures
        r == parse_u8(s@),
{
    if s.len() == 0 {
        Err(IntErrorKind::Empty)
    } else if s[0] == '+' {
        if s.len() == 1 {
            Err(IntErrorKind::InvalidDigit)
        } else {
            assert(s@.skip(1) =~= s@.drop_first());
            read_u8_digits(s, 1)
        }
    } else {
        assert(s@.skip(0) =~= s@);
        read_u8_digits(s, 0)
    }
}

/// The text std's `ParseIntError` displays for each kind.
pub open spec fn int_error_text(k: IntErrorKind) -> Seq<char> {
    match k {
        IntErrorKind::Empty => "cannot parse integer from empty string"@,
        IntErrorKind::InvalidDigit => "invalid digit found in string"@,
        IntErrorKind::PosOverflow => "number too large to fit in target type"@,
    }
}

/// Appends the text of the error kind `k`.
pub fn push_int_error(out: &mut Vec<char>, k: IntErrorKind)
    ensures
        final(out)@ == old(out)@ + int_error_text(k),
{
    match k {
        IntErrorKind::Empty => push_str(out, "cannot parse integer from empty string"),
        IntErrorKind::InvalidDigit => push_str(out, "invalid digit found in string"),
        IntErrorKind::PosOverflow => push_str(out, "number too large to fit in target type"),
    }
}

/// A digit character is a digit, of the value it was made from.
pub proof fn lemma_digit_char(d: nat)
    requires
        d < 10,
    ensures
        is_digit(digit_char(d)),
        digit_value(digit_char(d)) == d,
        digit_char(d) != '+',
{
}

/// Reading back the decimal text of a byte gives the byte: for every
/// `x: u8`, `parse_u8(decimal(x)) == Ok(x)`.
pub proof fn lemma_parse_u8_decimal(x: u8)
    ensures
        parse_u8(decimal(x as nat)) == Ok::<u8, IntErrorKind>(x),
{
    let n = x as nat;
    let e = Seq::<char>::empty();
    if n < 10 {
        lemma_digit_char(n);
        let s = decimal(n);
        assert(s =~= seq![digit_char(n)]);
        assert(s.drop_first() =~= e);
        assert(u8_digits(e, n) == Ok::<u8, IntErrorKind>(x));
        assert(u8_digits(s, 0) == u8_digits(e, n));
    } else if n < 100 {
        let (a, b) = (n / 10, n % 10);
        lemma_digit_char(a);
        lemma_digit_char(b);
        assert(decimal(a) =~= seq![digit_char(a)]);
        let s = decimal(n);
        assert(s =~= seq![digit_char(a), digit_char(b)]);
        let t = s.drop_first();
        assert(t =~= seq![digit_char(b)]);
        assert(t.drop_first() =~= e);
        assert(u8_digits(e, n) == Ok::<u8, IntErrorKind>(x));
        assert(u8_digits(t, a) == u8_digits(e, n));
        assert(u8_digits(s, 0) == u8_digits(t, a));
    } else {
        let (a, b, c) = (n / 100, (n / 10) % 10, n % 10);
        lemma_digit_char(a);
        lemma_digit_char(b);
        lemma_digit_char(c);
        assert(n / 10 / 10 == a);
        let s = decimal(n);
        assert(decimal(a) =~= seq![digit_char(a)]);
        assert(decimal(n / 10) =~= decimal(a).push(digit_char(b)));
        assert(decimal(n / 10) =~= seq![digit_char(a), digit_char(b)]);
        assert(s =~= seq![digit_char(a), digit_char(b), digit_char(c)]);
        let t = s.drop_first();
        assert(t =~= seq![digit_char(b), digit_char(c)]);
        let u = t.drop_first();
        assert(u =~= seq![digit_char(c)]);
        assert(u.drop_first() =~= e);
        assert(a * 10 + b == n / 10);
        assert((n / 10) * 10 + c == n);
        assert(u8_digits(e, n) == Ok::<u8, IntErrorKind>(x));
        assert(u8_digits(u, n / 10) == u8_digits(e, n));
        assert(u8_digits(t, a) == u8_digits(u, n / 10));
        assert(u8_digits(s, 0) == u8_digits(t, a));
    }
}

} // verus!
