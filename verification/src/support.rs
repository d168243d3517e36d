//! Trusted access to the clock, to random identifiers and to random numbers,
//! and to std's decimal formatting of integers.

use vstd::prelude::*;
use rand::Rng;

verus! {

/// Reads the wall clock through `chrono::Utc::now()` and returns the number of
/// milliseconds since the Unix epoch (`DateTime::timestamp_millis`).
/// The value depends on the time of the call, so nothing is promised about it.
#[verifier::external_body]
pub fn now_millis() -> (ms: i64) {
    chrono::Utc::now().timestamp_millis()
}

/// Draws a fresh random identifier through `uuid::Uuid::new_v4()` and returns
/// its 128-bit value (`Uuid::as_u128`). The value is random, so nothing is
/// promised about it.
#[verifier::external_body]
pub fn random_uuid() -> (id: u128) {
    uuid::Uuid::new_v4().as_u128()
}

/// The lowercase hex digit of a nibble.
pub open spec fn hex_char(d: int) -> char {
    if d < 10 {
        ('0' as int + d) as char
    } else {
        ('a' as int + d - 10) as char
    }
}

/// The lowercase hex text of `data`: two digits per byte, high nibble first.
pub open spec fn hex_text(data: Seq<u8>) -> Seq<char>
    decreases data.len(),
{
    if data.len() == 0 {
        Seq::empty()
    } else {
        hex_text(data.drop_last()) + seq![
            hex_char(data.last() as int / 16),
            hex_char(data.last() as int % 16),
        ]
    }
}

/// Encodes `data` through `hex::encode`, which writes each byte as two
/// lowercase hex digits, high nibble first.
#[verifier::external_body]
pub fn hex_encode(data: &[u8]) -> (r: String)
    ensures
        r@ == hex_text(data@),
{
    hex::encode(data)
}

/// The last `width` lowercase hex digits of `n`, most significant first.
pub open spec fn hex_padded(n: nat, width: nat) -> Seq<char>
    decreases width,
{
    if width == 0 {
        Seq::empty()
    } else {
        hex_padded(n / 16, (width - 1) as nat) + seq![hex_char((n % 16) as int)]
    }
}

/// The hyphenated form of an identifier: its 32 hex digits, big-endian, in
/// groups of 8, 4, 4, 4 and 12.
pub open spec fn hyphenated(id: u128) -> Seq<char> {
    let h = hex_padded(id as nat, 32);
    h.subrange(0, 8) + seq!['-'] + h.subrange(8, 12) + seq!['-'] + h.subrange(12, 16) + seq!['-']
        + h.subrange(16, 20) + seq!['-'] + h.subrange(20, 32)
}

/// Formats `id` through `uuid::Uuid::from_u128` (which takes the value's
/// big-endian bytes) and `Display`, which writes the lowercase hyphenated
/// form: 32 hex digits in groups of 8, 4, 4, 4 and 12, that is 36
/// characters.
#[verifier::external_body]
pub fn uuid_text(id: u128) -> (r: String)
    ensures
        r@ == hyphenated(id),
        r@.len() == 36,
{
    uuid::Uuid::from_u128(id).to_string()
}

/// Draws a number uniformly from the closed range `min..=max` through
/// `rand::Rng::gen_range` on `rand::thread_rng()`. The rand documentation
/// states that the result lies in the range and that the call panics on an
/// empty range, which `requires` rules out.
#[verifier::external_body]
pub fn random_in_range(min: u64, max: u64) -> (r: u64)
    requires
        min <= max,
    ensures
        min <= r <= max,
{
    rand::thread_rng().gen_range(min..=max)
}

/// The character of a decimal digit.
pub open spec fn digit_char(d: int) -> char {
    if d == 0 {
        '0'
    } else if d == 1 {
        '1'
    } else if d == 2 {
        '2'
    } else if d == 3 {
        '3'
    } else if d == 4 {
        '4'
    } else if d == 5 {
        '5'
    } else if d == 6 {
        '6'
    } else if d == 7 {
        '7'
    } else if d == 8 {
        '8'
    } else {
        '9'
    }
}

/// The decimal digits of `n`, most significant first, without leading zeros.
pub open spec fn decimal(n: nat) -> Seq<char>
    decreases n,
{
    if n < 10 {
        seq![digit_char(n as int)]
    } else {
        decimal(n / 10) + seq![digit_char((n % 10) as int)]
    }
}

/// The text of a decimal digit.
fn digit_text(d: u64) -> (s: &'static str)
    requires
        d < 10,
    ensures
        s@ == seq![digit_char(d as int)],
{
    proof {
        reveal_strlit("0");
        reveal_strlit("1");
        reveal_strlit("2");
        reveal_strlit("3");
        reveal_strlit("4");
        reveal_strlit("5");
        reveal_strlit("6");
        reveal_strlit("7");
        reveal_strlit("8");
        reveal_strlit("9");
    }
    if d == 0 {
        "0"
    } else if d == 1 {
        "1"
    } else if d == 2 {
        "2"
    } else if d == 3 {
        "3"
    } else if d == 4 {
        "4"
    } else if d == 5 {
        "5"
    } else if d == 6 {
        "6"
    } else if d == 7 {
        "7"
    } else if d == 8 {
        "8"
    } else {
        "9"
    }
}

/// The decimal digits of `n`, without sign or leading zeros, as
/// `Display` for `u64` writes them.
pub fn decimal_text(n: u64) -> (s: String)
    ensures
        s@ == decimal(n as nat),
    decreases n,
{
    if n < 10 {
        <String as vstd::string::StringExecFns>::from_str(digit_text(n))
    } else {
        let prefix = decimal_text(n / 10);
        <String as vstd::string::StringExecFns>::concat(prefix, digit_text(n % 10))
    }
}

/// The decimal text of `n`: a minus sign for a negative value, then the
/// digits of its magnitude.
pub open spec fn signed_decimal(n: int) -> Seq<char> {
    if n < 0 {
        seq!['-'] + decimal((-n) as nat)
    } else {
        decimal(n as nat)
    }
}

/// The decimal text of `n` as `Display` for `i64` writes it: a minus sign
/// for a negative value, then the digits of its magnitude.
pub fn signed_decimal_text(n: i64) -> (s: String)
    ensures
        s@ == signed_decimal(n as int),
{
    if n < 0 {
        let magnitude: u64 = (-(n as i128)) as u64;
        let digits = decimal_text(magnitude);
        proof {
            reveal_strlit("-");
        }
        join_text("-", digits.as_str())
    } else {
        decimal_text(n as u64)
    }
}

/// The two texts one after the other.
pub fn join_text(a: &str, b: &str) -> (s: String)
    ensures
        s@ == a@ + b@,
{
    let first = <String as vstd::string::StringExecFns>::from_str(a);
    vstd::string::StringExecFns::concat(first, b)
}

} // verus!
