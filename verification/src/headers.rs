//! Request headers the app adds to the anisette headers for the account's
//! web services.

use vstd::prelude::*;
use vstd::utf8::encode_utf8;
use base64::Engine;
use crate::text::{contains, contains_seq, string_of, push_str};

verus! {

/// The client described by the anisette client-info header is a Mac: the
/// header does not mention iPhone OS.
pub fn client_info_is_mac(client_info: &str) -> (r: bool)
    ensures
        r == !contains_seq(client_info@, "iPhone OS"@),
{
    !contains(client_info, "iPhone OS")
}

/// The character of the standard base64 alphabet for a six-bit value.
pub open spec fn base64_char(v: int) -> char {
    if v < 26 {
        (65 + v) as char
    } else if v < 52 {
        (97 + v - 26) as char
    } else if v < 62 {
        (48 + v - 52) as char
    } else if v == 62 {
        '+'
    } else {
        '/'
    }
}

/// The standard base64 encoding (with padding) of a byte string: each
/// three bytes give four characters of six bits each, high bits first; a
/// last group of two bytes gives three characters and `=`, of one byte two
/// characters and `==`.
pub open spec fn base64_standard(data: Seq<u8>) -> Seq<char>
    decreases data.len(),
{
    if data.len() == 0 {
        Seq::empty()
    } else if data.len() == 1 {
        let a = data[0] as int;
        seq![base64_char(a / 4), base64_char((a % 4) * 16), '=', '=']
    } else if data.len() == 2 {
        let a = data[0] as int;
        let b = data[1] as int;
        seq![base64_char(a / 4), base64_char((a % 4) * 16 + b / 16), base64_char((b % 16) * 4), '=']
    } else {
        let a = data[0] as int;
        let b = data[1] as int;
        let c = data[2] as int;
        seq![
            base64_char(a / 4),
            base64_char((a % 4) * 16 + b / 16),
            base64_char((b % 16) * 4 + c / 64),
            base64_char(c % 64),
        ] + base64_standard(data.skip(3))
    }
}

/// Trusted: `base64::engine::general_purpose::STANDARD.encode`, the
/// standard alphabet (`A`-`Z`, `a`-`z`, `0`-`9`, `+`, `/`) with `=`
/// padding.
#[verifier::external_body]
fn base64_encode(data: &[u8]) -> (r: String)
    ensures
        r@ == base64_standard(data@),
{
    base64::engine::general_purpose::STANDARD.encode(data)
}

/// The value of the `Authorization` header for the contacts service:
/// `X-MobileMe-AuthToken ` and the base64 of `<dsid>:<token>`.
pub fn mobileme_authorization(dsid: &str, token: &str) -> (r: String)
    ensures
        r@ == "X-MobileMe-AuthToken "@ + base64_standard(encode_utf8(dsid@ + ":"@ + token@)),
{
    let mut credentials = string_of(dsid);
    push_str(&mut credentials, ":");
    push_str(&mut credentials, token);
    let encoded = base64_encode(credentials.as_str().as_bytes());
    let mut r = string_of("X-MobileMe-AuthToken ");
    push_str(&mut r, encoded.as_str());
    r
}

} // verus!
