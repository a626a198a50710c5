//! Hexadecimal rendering of byte strings and device identifiers.

use vstd::prelude::*;
use crate::text::{push_char, upper_seq, to_ascii_upper};
use rand::Rng;

verus! {

/// The lower-case hexadecimal digits, by value.
pub open spec fn lower_digits() -> Seq<char> {
    seq!['0', '1', '2', '3', '4', '5', '6', '7', '8', '9', 'a', 'b', 'c', 'd', 'e', 'f']
}

/// Two lower-case hexadecimal digits per byte, high nibble first.
pub open spec fn hex_lower(bytes: Seq<u8>) -> Seq<char> {
    Seq::new(
        2 * bytes.len(),
        |i: int|
            if i % 2 == 0 {
                lower_digits()[(bytes[i / 2] / 16) as int]
            } else {
                lower_digits()[(bytes[i / 2] % 16) as int]
            },
    )
}

fn lower_digit(n: u8) -> (c: char)
    requires
        n < 16,
    ensures
        c == lower_digits()[n as int],
{
    match n {
        0 => '0',
        1 => '1',
        2 => '2',
        3 => '3',
        4 => '4',
        5 => '5',
        6 => '6',
        7 => '7',
        8 => '8',
        9 => '9',
        10 => 'a',
        11 => 'b',
        12 => 'c',
        13 => 'd',
        14 => 'e',
        _ => 'f',
    }
}

/// Renders `bytes` as lower-case hexadecimal, two digits per byte.
pub fn encode_hex(bytes: &[u8]) -> (s: String)
    ensures
        s@ == hex_lower(bytes@),
{
    let mut s = String::new();
    let mut i: usize = 0;
    while i < bytes.len()
        invariant
            i <= bytes@.len(),
            s@ =~= hex_lower(bytes@.subrange(0, i as int)),
        decreases bytes@.len() - i,
    {
        let b = bytes[i];
        let hi = lower_digit(b / 16);
        let lo = lower_digit(b % 16);
        push_char(&mut s, hi);
        push_char(&mut s, lo);
        assert(hex_lower(bytes@.subrange(0, i + 1)) =~= hex_lower(bytes@.subrange(0, i as int)).push(
            hi,
        ).push(lo));
        i = i + 1;
    }
    assert(bytes@.subrange(0, bytes@.len() as int) =~= bytes@);
    s
}

/// Renders `bytes` as upper-case hexadecimal, two digits per byte: the
/// form of a device identifier.
pub fn udid_from_bytes(bytes: &[u8]) -> (s: String)
    ensures
        s@ == upper_seq(hex_lower(bytes@)),
{
    let lower = encode_hex(bytes);
    to_ascii_upper(lower.as_str())
}

/// Thirty-two random bytes.
///
/// Trusted: `rand::thread_rng().gen::<[u8; 32]>()`; nothing is known of the
/// bytes but their number.
#[verifier::external_body]
fn random_bytes_32() -> (r: Vec<u8>)
    ensures
        r@.len() == 32,
{
    let b: [u8; 32] = rand::thread_rng().gen();
    b.to_vec()
}

/// A fresh device identifier: thirty-two random bytes in upper-case
/// hexadecimal.
pub fn generate_udid() -> (s: String)
    ensures
        exists|b: Seq<u8>| b.len() == 32 && s@ == upper_seq(hex_lower(b)),
{
    let b = random_bytes_32();
    udid_from_bytes(b.as_slice())
}

/// A lower-case hexadecimal digit.
pub open spec fn is_lower_hex(c: char) -> bool {
    ('0' <= c && c <= '9') || ('a' <= c && c <= 'f')
}

/// The text of a random (version 4) UUID: thirty-two lower-case
/// hexadecimal digits in groups of 8, 4, 4, 4 and 12 joined by hyphens,
/// the version digit `4` and the variant digit one of `8`, `9`, `a`, `b`.
pub open spec fn uuid_v4_text(s: Seq<char>) -> bool {
    &&& s.len() == 36
    &&& forall|i: int|
        0 <= i < 36 ==> if i == 8 || i == 13 || i == 18 || i == 23 {
            s[i] == '-'
        } else {
            is_lower_hex(#[trigger] s[i])
        }
    &&& s[14] == '4'
    &&& (s[19] == '8' || s[19] == '9' || s[19] == 'a' || s[19] == 'b')
}

/// A fresh random UUID, as text.
///
/// Trusted: `uuid::Uuid::new_v4()` draws random bits and sets the version
/// and variant bits; its `Display` writes the hyphenated lower-case form.
/// Nothing is known of the other digits.
#[verifier::external_body]
pub(crate) fn new_uuid_text() -> (r: String)
    ensures
        uuid_v4_text(r@),
{
    uuid::Uuid::new_v4().to_string()
}

} // verus!
