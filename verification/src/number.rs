//! Reading a port number given on the command line.
use vstd::prelude::*;

verus! {

/// Why a string is no `i32`, as the standard library tells it.
#[derive(Clone, Copy, Debug, PartialEq, Eq, Structural)]
pub enum IntErrorKind {
    /// The string is empty.
    Empty,
    /// A sign on its own, or a character that is no digit in its place.
    InvalidDigit,
    /// The number is above `i32::MAX`.
    PosOverflow,
    /// The number is below `i32::MIN`.
    NegOverflow,
    /// Any other reason the standard library may give; reading an `i32`
    /// gives none.
    Other,
}

/// The error of reading a string that is no `i32`.
#[derive(Clone, Copy, Debug, PartialEq, Eq, Structural)]
pub struct ParseIntError {
    pub kind: IntErrorKind,
}

impl ParseIntError {
    /// Why the string was refused.
    pub fn kind(&self) -> (r: &IntErrorKind)
        ensures
            *r == self.kind,
    {
        &self.kind
    }
}

/// A decimal digit.
pub open spec fn is_digit(c: char) -> bool {
    '0' <= c && c <= '9'
}

/// The value of a string of decimal digits.
pub open spec fn digits_value(s: Seq<char>) -> int
    decreases s.len(),
{
    if s.len() == 0 {
        0
    } else {
        digits_value(s.drop_last()) * 10 + (s.last() as int - '0' as int)
    }
}

/// The digits of `s` after an optional leading sign.
pub open spec fn unsigned_part(s: Seq<char>) -> Seq<char> {
    if s.len() > 0 && (s[0] == '-' || s[0] == '+') {
        s.skip(1)
    } else {
        s
    }
}

/// The value of `s` as the standard library reads an `i32`: an optional `+`
/// or `-`, then at least one decimal digit and nothing else, with the value
/// in the range of `i32`.
pub open spec fn i32_from_decimal(s: Seq<char>) -> Option<i32> {
    let digits = unsigned_part(s);
    let magnitude = digits_value(digits);
    let value = if s.len() > 0 && s[0] == '-' {
        -magnitude
    } else {
        magnitude
    };
    if digits.len() > 0 && (forall|i: int| 0 <= i < digits.len() ==> is_digit(#[trigger] digits[i]))
        && i32::MIN <= value <= i32::MAX {
        Some(value as i32)
    } else {
        None
    }
}

/// The character of a decimal digit.
pub open spec fn digit_char(d: int) -> char {
    if d == 0 {
        '0'
    } else if d == 1 {
        '1'
    } else if d == 2 {
        '2'
    } else if d == 3 {
        '3'
    } else if d == 4 {
        '4'
    } else if d == 5 {
        '5'
    } else if d == 6 {
        '6'
    } else if d == 7 {
        '7'
    } else if d == 8 {
        '8'
    } else {
        '9'
    }
}

/// The decimal digits of `m`, without leading zeros.
pub open spec fn decimal_digits(m: nat) -> Seq<char>
    decreases m,
{
    if m < 10 {
        seq![digit_char(m as int)]
    } else {
        decimal_digits(m / 10).push(digit_char((m % 10) as int))
    }
}

/// The decimal text of `n`: its digits, after a `-` where it is negative.
pub open spec fn decimal_text(n: int) -> Seq<char> {
    if n < 0 {
        seq!['-'] + decimal_digits((-n) as nat)
    } else {
        decimal_digits(n as nat)
    }
}

proof fn lemma_digit_char(d: int)
    requires
        0 <= d < 10,
    ensures
        is_digit(digit_char(d)),
        digit_char(d) as int - '0' as int == d,
{
    assert('0' as int == 48 && '1' as int == 49 && '2' as int == 50 && '3' as int == 51 && '4' as int
        == 52 && '5' as int == 53 && '6' as int == 54 && '7' as int == 55 && '8' as int == 56
        && '9' as int == 57);
}

proof fn lemma_decimal_digits(m: nat)
    ensures
        decimal_digits(m).len() > 0,
        forall|i: int| 0 <= i < decimal_digits(m).len() ==> is_digit(#[trigger] decimal_digits(m)[i]),
        digits_value(decimal_digits(m)) == m,
    decreases m,
{
    if m >= 10 {
        lemma_decimal_digits(m / 10);
        lemma_digit_char((m % 10) as int);
        assert((m / 10) * 10 + m % 10 == m);
        let s = decimal_digits(m / 10);
        let t = s.push(digit_char((m % 10) as int));
        assert(t.drop_last() =~= s);
        assert(decimal_digits(m) == t);
        assert(t.last() == digit_char((m % 10) as int));
        assert(digits_value(t) == digits_value(s) * 10 + (t.last() as int - '0' as int));
        assert forall|i: int| 0 <= i < t.len() implies is_digit(#[trigger] t[i]) by {
            if i < s.len() {
                assert(t[i] == s[i]);
            }
        }
    } else {
        lemma_digit_char(m as int);
        let t = seq![digit_char(m as int)];
        assert(t.drop_last() =~= Seq::<char>::empty());
        assert(decimal_digits(m) == t);
        assert(digits_value(t) == digits_value(t.drop_last()) * 10 + (t.last() as int - '0' as int));
    }
}

/// Every `i32` reads back from its decimal text.
pub proof fn lemma_decimal_text_reads_back(n: i32)
    ensures
        i32_from_decimal(decimal_text(n as int)) == Some(n),
{
    let m: nat = if n < 0 { (-(n as int)) as nat } else { n as nat };
    lemma_decimal_digits(m);
    let d = decimal_digits(m);
    let s = decimal_text(n as int);
    assert(is_digit(d[0]));
    if n < 0 {
        assert(s[0] == '-');
        assert(s.skip(1) =~= d);
        assert(unsigned_part(s) == d);
    } else {
        assert(s == d);
        assert(unsigned_part(s) == d);
    }
}

/// The number of decimal digits `s` starts with.
pub open spec fn digit_prefix_len(s: Seq<char>) -> nat
    decreases s.len(),
{
    if s.len() > 0 && is_digit(s[0]) {
        1 + digit_prefix_len(s.skip(1))
    } else {
        0
    }
}

/// The reasons that fit the refusal of a string that is no `i32`. An empty
/// string is `Empty`; a sign alone is `InvalidDigit`; digits alone, with an
/// optional sign, give the overflow of the sign's direction; a character that
/// is no digit gives `InvalidDigit` where the digits before it fit an `i32`,
/// and otherwise that or the overflow of the sign's direction.
pub open spec fn fits_error_kind(s: Seq<char>, kind: IntErrorKind) -> bool {
    let digits = unsigned_part(s);
    let negative = s.len() > 0 && s[0] == '-';
    let overflow = if negative {
        IntErrorKind::NegOverflow
    } else {
        IntErrorKind::PosOverflow
    };
    let prefix = digits.take(digit_prefix_len(digits) as int);
    let prefix_value = if negative {
        -digits_value(prefix)
    } else {
        digits_value(prefix)
    };
    if s.len() == 0 {
        kind == IntErrorKind::Empty
    } else if digits.len() == 0 {
        kind == IntErrorKind::InvalidDigit
    } else if digit_prefix_len(digits) == digits.len() {
        kind == overflow
    } else if i32::MIN <= prefix_value <= i32::MAX {
        kind == IntErrorKind::InvalidDigit
    } else {
        kind == IntErrorKind::InvalidDigit || kind == overflow
    }
}

/// Calls `str::parse::<i32>`, and `ParseIntError::kind` on its error.
/// Claimed, after the documentation of `i32::from_str_radix` with radix 10 and
/// of `IntErrorKind`: the string parses exactly where `i32_from_decimal` gives
/// a value, and to that value; a refusal's reason is one that
/// `fits_error_kind` admits.
#[verifier::external_body]
fn parse_i32(s: &str) -> (r: Result<i32, IntErrorKind>)
    ensures
        r is Ok <==> i32_from_decimal(s@) is Some,
        r matches Ok(n) ==> i32_from_decimal(s@) == Some(n),
        r matches Err(kind) ==> fits_error_kind(s@, kind),
{
    match s.parse::<i32>() {
        Ok(n) => Ok(n),
        Err(e) => Err(match e.kind() {
            std::num::IntErrorKind::Empty => IntErrorKind::Empty,
            std::num::IntErrorKind::InvalidDigit => IntErrorKind::InvalidDigit,
            std::num::IntErrorKind::PosOverflow => IntErrorKind::PosOverflow,
            std::num::IntErrorKind::NegOverflow => IntErrorKind::NegOverflow,
            _ => IntErrorKind::Other,
        }),
    }
}

/// Checks that `number_str` is a number, and returns it, or why it is none.
pub fn handle_number(number_str: &str) -> (r: Result<i32, ParseIntError>)
    ensures
        r is Ok <==> i32_from_decimal(number_str@) is Some,
        r matches Ok(n) ==> i32_from_decimal(number_str@) == Some(n),
        r matches Err(e) ==> fits_error_kind(number_str@, e.kind),
{
    match parse_i32(number_str) {
        Ok(n) => Ok(n),
        Err(kind) => Err(ParseIntError { kind }),
    }
}

} // verus!
