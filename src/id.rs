//! Bundle identifiers: 128-bit, time-ordered, written as 26 Crockford
//! base32 characters.
use vstd::arithmetic::power2::pow2;
use vstd::prelude::*;

verus! {

/// The Crockford base32 alphabet, in digit order.
pub open spec fn crockford() -> Seq<char> {
    "0123456789ABCDEFGHJKMNPQRSTVWXYZ"@
}

/// The canonical text of an identifier: its 26 base32 digits, most
/// significant first (the first digit carries only the top three bits).
pub open spec fn ulid_text(id: u128) -> Seq<char> {
    Seq::new(26, |j: int| crockford()[((id as nat / pow2((5 * (25 - j)) as nat)) % 32) as int])
}

/// The value of one base32 digit, in either letter case; I, L, O and U
/// are not digits.
pub open spec fn digit_value(c: char) -> Option<nat> {
    let n = c as u32;
    let u = if 97 <= n && n <= 122 { (n - 32) as u32 } else { n };
    if 48 <= u && u <= 57 {
        Some((u - 48) as nat)
    } else if 65 <= u && u <= 72 {
        Some((u - 55) as nat)
    } else if u == 74 || u == 75 {
        Some((u - 56) as nat)
    } else if u == 77 || u == 78 {
        Some((u - 57) as nat)
    } else if 80 <= u && u <= 84 {
        Some((u - 58) as nat)
    } else if 86 <= u && u <= 90 {
        Some((u - 59) as nat)
    } else {
        None
    }
}

/// The number a run of base32 digits denotes, if every character is a digit.
pub open spec fn digits_value(s: Seq<char>) -> Option<nat>
    decreases s.len(),
{
    if s.len() == 0 {
        Some(0)
    } else {
        match (digits_value(s.drop_last()), digit_value(s.last())) {
            (Some(v), Some(d)) => Some(v * 32 + d),
            _ => None,
        }
    }
}

/// The identifier a text denotes: 26 base32 digits, whose value is taken
/// modulo 2^128.
pub open spec fn ulid_value(text: Seq<char>) -> Option<u128> {
    if text.len() != 26 {
        None
    } else {
        match digits_value(text) {
            Some(v) => Some((v % pow2(128)) as u128),
            None => None,
        }
    }
}

/// Relies on `ulid::Ulid::to_string` (base32 `encode_to_array`), which
/// `Ulid::from_string` reads back to the same value.
#[verifier::external_body]
fn ulid_encode(id: u128) -> (r: String)
    ensures
        r@ == ulid_text(id),
        ulid_value(r@) == Some(id),
{
    ulid::Ulid::from(id).to_string()
}

/// Relies on `ulid::Ulid::from_string` (base32 `decode`): 26 bytes, each
/// looked up in the case-insensitive digit table and shifted in. A text of
/// 26 bytes but fewer characters holds a non-ASCII byte, which is no digit.
#[verifier::external_body]
fn ulid_decode(text: &str) -> (r: Option<u128>)
    ensures
        r == ulid_value(text@),
{
    ulid::Ulid::from_string(text).ok().map(u128::from)
}

/// Relies on `ulid::Ulid::new`, drawn from the clock and a random source:
/// nothing is known of the value.
#[verifier::external_body]
pub(crate) fn fresh_ulid() -> (r: u128) {
    ulid::Ulid::new().0
}

/// Writes an identifier as text.
pub fn id_to_string(id: u128) -> (r: String)
    ensures
        r@ == ulid_text(id),
        r@.len() == 26,
        ulid_value(r@) == Some(id),
{
    ulid_encode(id)
}

/// Reads an identifier from text, ignoring letter case.
pub fn id_from_str(text: &str) -> (r: Option<u128>)
    ensures
        r == ulid_value(text@),
{
    ulid_decode(text)
}

} // verus!
