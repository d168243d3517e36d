//! Text helpers: Unicode lowercase (through std), byte-level prefixes and
//! equality, and decimal parsing of ports.

use vstd::prelude::*;

verus! {

/// The Unicode lowercase of a text, as `str::to_lowercase` computes it.
pub uninterp spec fn lowercase(s: Seq<char>) -> Seq<char>;

/// Lowercases `s` through `str::to_lowercase`; the result is a function of
/// `s` alone (the Unicode tables of std), named `lowercase`.
#[verifier::external_body]
pub fn lowercase_text(s: &str) -> (r: String)
    ensures
        r@ == lowercase(s@),
{
    s.to_lowercase()
}

/// Whether the UTF-8 encoding of `s` begins with that of `p`, as
/// `str::starts_with` compares them.
pub open spec fn starts_with_text(s: Seq<char>, p: Seq<char>) -> bool {
    let sb = vstd::utf8::encode_utf8(s);
    let pb = vstd::utf8::encode_utf8(p);
    sb.len() >= pb.len() && sb.take(pb.len() as int) == pb
}

/// The length of a text in UTF-8 bytes, as `str::len` counts it.
pub open spec fn byte_len(s: Seq<char>) -> nat {
    vstd::utf8::encode_utf8(s).len()
}

/// Whether `s` begins with `p`, comparing their UTF-8 bytes.
pub fn starts_with(s: &str, p: &str) -> (r: bool)
    ensures
        r == starts_with_text(s@, p@),
{
    let sb = s.as_bytes();
    let pb = p.as_bytes();
    assert(sb@ == vstd::utf8::encode_utf8(s@));
    assert(pb@ == vstd::utf8::encode_utf8(p@));
    if sb.len() < pb.len() {
        return false;
    }
    let mut i: usize = 0;
    while i < pb.len()
        invariant
            i <= pb@.len(),
            pb@.len() <= sb@.len(),
            sb@ == vstd::utf8::encode_utf8(s@),
            pb@ == vstd::utf8::encode_utf8(p@),
            forall|j: int| 0 <= j < i ==> sb@[j] == pb@[j],
        decreases pb.len() - i,
    {
        if sb[i] != pb[i] {
            assert(sb@.take(pb@.len() as int)[i as int] != pb@[i as int]);
            return false;
        }
        i = i + 1;
    }
    assert(sb@.take(pb@.len() as int) =~= pb@);
    true
}

/// Whether two texts are equal.
pub fn same_text(a: &str, b: &str) -> (r: bool)
    ensures
        r == (a@ == b@),
{
    let x = a.to_owned();
    let y = b.to_owned();
    x == y
}

/// Whether every character of `s` is an ASCII digit.
pub open spec fn all_digits(s: Seq<char>) -> bool {
    forall|i: int| 0 <= i < s.len() ==> '0' <= #[trigger] s[i] <= '9'
}

/// The value of a string of decimal digits.
pub open spec fn digits_value(s: Seq<char>) -> int
    decreases s.len(),
{
    if s.len() == 0 {
        0
    } else {
        digits_value(s.drop_last()) * 10 + (s.last() as int - '0' as int)
    }
}

/// What `u16::from_str` gives for `s`: an optional `+`, then one or more
/// decimal digits whose value fits 16 bits; nothing else is accepted.
pub open spec fn parsed_u16(s: Seq<char>) -> Option<u16> {
    let d = if s.len() > 0 && s[0] == '+' {
        s.skip(1)
    } else {
        s
    };
    if d.len() > 0 && all_digits(d) && digits_value(d) <= 65535 {
        Some(digits_value(d) as u16)
    } else {
        None
    }
}

/// The value of decimal digits is not negative.
proof fn lemma_digits_value_nonneg(d: Seq<char>)
    requires
        all_digits(d),
    ensures
        digits_value(d) >= 0,
    decreases d.len(),
{
    if d.len() > 0 {
        assert(all_digits(d.drop_last()));
        lemma_digits_value_nonneg(d.drop_last());
    }
}

/// Parses a port number as `str::parse::<u16>` does: an optional `+`
/// followed by decimal digits whose value is at most 65535.
pub fn parse_port(s: &str) -> (r: Option<u16>)
    ensures
        r == parsed_u16(s@),
{
    proof {
        let d = if s@.len() > 0 && s@[0] == '+' {
            s@.skip(1)
        } else {
            s@
        };
        if all_digits(d) {
            lemma_digits_value_nonneg(d);
        }
    }
    match crate::storage::file_format::parse_u64(s) {
        Some(v) => if v <= 65535 {
            Some(v as u16)
        } else {
            None
        },
        None => None,
    }
}

} // verus!
