//! The protobuf wire primitives used by the hardware-info record: varints,
//! field keys and the skipping of unknown fields, all done by `prost`.

use vstd::prelude::*;
use vstd::utf8::{valid_utf8, decode_utf8};

verus! {

/// The LEB128 encoding of `v`: seven bits per byte, low bits first, the
/// high bit set on every byte but the last.
pub open spec fn varint(v: nat) -> Seq<u8>
    decreases v,
{
    if v < 128 {
        seq![v as u8]
    } else {
        seq![(v % 128 + 128) as u8] + varint(v / 128)
    }
}

/// Reads a varint from the front of `b`, `depth` bytes having been read
/// before: the value and the number of bytes used. At most ten bytes are
/// read, and the tenth may only be 0 or 1 (so that the value fits 64 bits).
pub open spec fn varint_from(b: Seq<u8>, depth: nat) -> Option<(nat, nat)>
    decreases 10 - depth,
{
    if depth >= 10 || b.len() == 0 {
        None
    } else if b[0] < 128 {
        if depth == 9 && b[0] >= 2 {
            None
        } else {
            Some((b[0] as nat, 1nat))
        }
    } else {
        match varint_from(b.drop_first(), depth + 1) {
            Some((v, n)) => Some((((b[0] - 128) + 128 * v) as nat, n + 1)),
            None => None,
        }
    }
}

/// The varint at the front of `b`, with the number of bytes it takes.
pub open spec fn read_varint(b: Seq<u8>) -> Option<(nat, nat)> {
    varint_from(b, 0)
}

/// The wire types of protobuf.
#[derive(PartialEq, Eq, Structural, Clone, Copy)]
pub enum WireKind {
    Varint,
    SixtyFourBit,
    LengthDelimited,
    StartGroup,
    EndGroup,
    ThirtyTwoBit,
}

/// The code of a wire type in a field key.
pub open spec fn wire_code(w: WireKind) -> nat {
    match w {
        WireKind::Varint => 0,
        WireKind::SixtyFourBit => 1,
        WireKind::LengthDelimited => 2,
        WireKind::StartGroup => 3,
        WireKind::EndGroup => 4,
        WireKind::ThirtyTwoBit => 5,
    }
}

/// The wire type of a code below 6.
pub open spec fn wire_of(c: nat) -> WireKind {
    if c == 0 {
        WireKind::Varint
    } else if c == 1 {
        WireKind::SixtyFourBit
    } else if c == 2 {
        WireKind::LengthDelimited
    } else if c == 3 {
        WireKind::StartGroup
    } else if c == 4 {
        WireKind::EndGroup
    } else {
        WireKind::ThirtyTwoBit
    }
}

/// The largest field number.
pub const MAX_TAG: u32 = 0x1fff_ffff;

/// The encoding of the key of field `tag` with wire type `w`.
pub open spec fn key_bytes(tag: nat, w: WireKind) -> Seq<u8> {
    varint(tag * 8 + wire_code(w))
}

/// Reads a field key from the front of `b`: its field number, its wire
/// type and the number of bytes it takes. A key whose value exceeds 32 bits,
/// whose wire type code is 6 or 7, or whose field number is 0 is refused.
pub open spec fn read_key(b: Seq<u8>) -> Option<(nat, WireKind, nat)> {
    match read_varint(b) {
        None => None,
        Some((k, n)) => {
            if k > u32::MAX {
                None
            } else if k % 8 >= 6 {
                None
            } else if k / 8 == 0 {
                None
            } else {
                Some((k / 8, wire_of(k % 8), n))
            }
        },
    }
}

/// Reads a length-delimited value from the front of `b`: the payload and
/// the number of bytes the length and the payload take.
pub open spec fn read_len_delimited(b: Seq<u8>) -> Option<(Seq<u8>, nat)> {
    match read_varint(b) {
        None => None,
        Some((len, n)) => {
            if len > b.len() - n {
                None
            } else {
                Some((b.subrange(n as int, (n + len) as int), n + len))
            }
        },
    }
}

/// The encoding of a length-delimited value.
pub open spec fn len_delimited_bytes(payload: Seq<u8>) -> Seq<u8> {
    varint(payload.len()) + payload
}

/// How many bytes `prost` skips for an unknown field of number `tag` and
/// wire type code `wire` at the front of `input`, or `None` where it
/// refuses the input.
pub uninterp spec fn skipped_len(tag: u32, wire: nat, input: Seq<u8>) -> Option<nat>;

/// Appends the varint encoding of `value`.
///
/// Trusted: `prost::encoding::encode_varint` writes the LEB128 encoding of
/// the value, low seven bits first, into the buffer.
#[verifier::external_body]
pub(crate) fn put_varint(value: u64, buf: &mut Vec<u8>)
    ensures
        final(buf)@ == old(buf)@ + varint(value as nat),
{
    prost::encoding::encode_varint(value, buf)
}

/// Appends the key of field `tag` with wire type `w`.
///
/// Trusted: `prost::encoding::encode_key` writes the varint of
/// `tag << 3 | wire type`.
#[verifier::external_body]
pub(crate) fn put_key(tag: u32, w: WireKind, buf: &mut Vec<u8>)
    requires
        1 <= tag <= MAX_TAG,
    ensures
        final(buf)@ == old(buf)@ + key_bytes(tag as nat, w),
{
    let wire = match w {
        WireKind::Varint => prost::encoding::WireType::Varint,
        WireKind::SixtyFourBit => prost::encoding::WireType::SixtyFourBit,
        WireKind::LengthDelimited => prost::encoding::WireType::LengthDelimited,
        WireKind::StartGroup => prost::encoding::WireType::StartGroup,
        WireKind::EndGroup => prost::encoding::WireType::EndGroup,
        WireKind::ThirtyTwoBit => prost::encoding::WireType::ThirtyTwoBit,
    };
    prost::encoding::encode_key(tag, wire, buf)
}

/// Reads a varint from the front of `input`; returns its value and the
/// bytes after it.
///
/// Trusted: `prost::encoding::decode_varint` on a byte slice, which reads at
/// most ten bytes, refuses a tenth byte above 1 and advances the slice past
/// the varint.
#[verifier::external_body]
pub(crate) fn take_varint<'a>(input: &'a [u8]) -> (r: Option<(u64, &'a [u8])>)
    ensures
        match read_varint(input@) {
            None => r is None,
            Some((v, n)) => (r matches Some((x, rest)) && x as nat == v && rest@ == input@.skip(
                n as int,
            )),
        },
{
    let mut rest = input;
    match prost::encoding::decode_varint(&mut rest) {
        Ok(v) => Some((v, rest)),
        Err(_) => None,
    }
}

/// Reads a field key from the front of `input`; returns the field number,
/// the wire type and the bytes after it.
///
/// Trusted: `prost::encoding::decode_key`, which decodes a varint and
/// refuses values above 32 bits, wire type codes 6 and 7 and field number 0.
#[verifier::external_body]
pub(crate) fn take_key<'a>(input: &'a [u8]) -> (r: Option<(u32, WireKind, &'a [u8])>)
    ensures
        match read_key(input@) {
            None => r is None,
            Some((t, w, n)) => (r matches Some((tag, wire, rest)) && tag as nat == t && wire == w
                && rest@ == input@.skip(n as int)),
        },
{
    let mut rest = input;
    match prost::encoding::decode_key(&mut rest) {
        Ok((tag, wire)) => {
            let w = match wire {
                prost::encoding::WireType::Varint => WireKind::Varint,
                prost::encoding::WireType::SixtyFourBit => WireKind::SixtyFourBit,
                prost::encoding::WireType::LengthDelimited => WireKind::LengthDelimited,
                prost::encoding::WireType::StartGroup => WireKind::StartGroup,
                prost::encoding::WireType::EndGroup => WireKind::EndGroup,
                prost::encoding::WireType::ThirtyTwoBit => WireKind::ThirtyTwoBit,
            };
            Some((tag, w, rest))
        },
        Err(_) => None,
    }
}

/// Skips the value of an unknown field at the front of `input`; returns the
/// bytes after it.
///
/// Trusted: `prost::encoding::skip_field` with a fresh decoding context.
/// Its result is named `skipped_len`; the one fact stated of it is that it
/// never skips past the end of the input, which `skip_field` checks.
#[verifier::external_body]
pub(crate) fn skip_unknown<'a>(tag: u32, w: WireKind, input: &'a [u8]) -> (r: Option<&'a [u8]>)
    ensures
        match skipped_len(tag, wire_code(w), input@) {
            None => r is None,
            Some(n) => n <= input@.len() && (r matches Some(rest) && rest@ == input@.skip(n as int)),
        },
{
    let wire = match w {
        WireKind::Varint => prost::encoding::WireType::Varint,
        WireKind::SixtyFourBit => prost::encoding::WireType::SixtyFourBit,
        WireKind::LengthDelimited => prost::encoding::WireType::LengthDelimited,
        WireKind::StartGroup => prost::encoding::WireType::StartGroup,
        WireKind::EndGroup => prost::encoding::WireType::EndGroup,
        WireKind::ThirtyTwoBit => prost::encoding::WireType::ThirtyTwoBit,
    };
    let mut rest = input;
    match prost::encoding::skip_field(wire, tag, &mut rest, prost::encoding::DecodeContext::default()) {
        Ok(()) => Some(rest),
        Err(_) => None,
    }
}

/// The bytes are a run of length-delimited fields, each with a valid key
/// and each within the bytes.
pub open spec fn plain_fields(p: Seq<u8>) -> bool
    decreases p.len(),
{
    if p.len() == 0 {
        true
    } else {
        match read_key(p) {
            None => false,
            Some((tag, w, n)) => {
                proof {
                    lemma_varint_consumes(p, 0);
                }
                let rest = p.skip(n as int);
                w == WireKind::LengthDelimited && match read_len_delimited(rest) {
                    None => false,
                    Some((q, m)) => {
                        proof {
                            lemma_varint_consumes(rest, 0);
                        }
                        plain_fields(rest.skip(m as int))
                    },
                }
            },
        }
    }
}

/// Whether `prost` accepts the nested message at the front of `input` (its
/// length, then its fields) read as a field of a top-level message: every
/// field of it, known or not, is skipped with the recursion allowance of a
/// nested message.
pub uninterp spec fn nested_ok(input: Seq<u8>) -> bool;

/// Checks the nested message at the front of `input` as `prost` reads a
/// message field of a top-level message.
///
/// Trusted: `prost::encoding::message::merge` into the empty message `()`
/// (whose fields are all skipped with `skip_field`), from a fresh decoding
/// context; it reads the length, then the keys and fields within it, one
/// recursion level down. Its verdict is named `nested_ok`; the one fact
/// stated of it is that a nested message made only of length-delimited
/// fields with valid keys, all within its length, is accepted, which
/// `merge_loop`, `decode_key` and `skip_field` show.
#[verifier::external_body]
pub(crate) fn check_nested(input: &[u8]) -> (r: bool)
    ensures
        r == nested_ok(input@),
        (read_len_delimited(input@) matches Some((p, m)) && plain_fields(p)) ==> r,
{
    let mut buf = input;
    prost::encoding::message::merge(
        prost::encoding::WireType::LengthDelimited,
        &mut (),
        &mut buf,
        prost::encoding::DecodeContext::default(),
    ).is_ok()
}

/// Turns UTF-8 bytes into a string.
///
/// Trusted: `String::from_utf8`, which succeeds exactly on valid UTF-8 and
/// keeps the bytes.
#[verifier::external_body]
pub(crate) fn utf8_to_string(bytes: Vec<u8>) -> (r: Option<String>)
    ensures
        r is Some <==> valid_utf8(bytes@),
        r matches Some(s) ==> s@ == decode_utf8(bytes@),
{
    String::from_utf8(bytes).ok()
}

/// A bound that keeps a varint read from depth `d` within 64 bits.
pub open spec fn varint_room(d: nat) -> nat
    decreases d,
{
    if d == 0 {
        0x1_0000_0000_0000_0000
    } else {
        varint_room((d - 1) as nat) / 128
    }
}

proof fn lemma_varint_room(d: nat)
    requires
        d <= 9,
    ensures
        varint_room(d) >= 2,
        d < 9 ==> varint_room(d) % 128 == 0,
        d == 9 ==> varint_room(d) == 2,
    decreases d,
{
    if d > 0 {
        lemma_varint_room((d - 1) as nat);
    }
    reveal_with_fuel(varint_room, 10);
}

/// A varint takes at least one byte and no more than the input holds.
pub proof fn lemma_varint_consumes(b: Seq<u8>, depth: nat)
    ensures
        varint_from(b, depth) matches Some((v, n)) ==> 1 <= n <= b.len(),
    decreases 10 - depth,
{
    if depth < 10 && b.len() > 0 && b[0] >= 128 {
        lemma_varint_consumes(b.drop_first(), depth + 1);
    }
}

/// Reading back the encoding of `v` gives `v` and stops at its end.
pub proof fn lemma_varint_roundtrip_from(v: nat, rest: Seq<u8>, depth: nat)
    requires
        depth <= 9,
        v < varint_room(depth),
    ensures
        varint_from(varint(v) + rest, depth) == Some((v, varint(v).len())),
    decreases v,
{
    lemma_varint_room(depth);
    let b = varint(v) + rest;
    if v < 128 {
        assert(b[0] == v as u8);
        if depth == 9 {
            assert(v < 2);
        }
    } else {
        assert(depth < 9) by {
            if depth == 9 {
                assert(varint_room(9) == 2);
            }
        }
        let q = v / 128;
        lemma_varint_room((depth + 1) as nat);
        assert(varint_room((depth + 1) as nat) == varint_room(depth) / 128);
        assert(q < varint_room((depth + 1) as nat)) by (nonlinear_arith)
            requires
                q == v / 128,
                v < varint_room(depth),
                varint_room(depth) % 128 == 0,
                varint_room((depth + 1) as nat) == varint_room(depth) / 128,
        ;
        lemma_varint_roundtrip_from(q, rest, depth + 1);
        assert(b.drop_first() =~= varint(q) + rest);
        assert(b[0] == (v % 128 + 128) as u8);
        assert(varint(v).len() == 1 + varint(q).len());
    }
}

/// Reading back the encoding of a 64-bit value gives the value and stops at
/// its end.
pub proof fn lemma_varint_roundtrip(v: u64, rest: Seq<u8>)
    ensures
        read_varint(varint(v as nat) + rest) == Some((v as nat, varint(v as nat).len())),
{
    reveal_with_fuel(varint_room, 2);
    lemma_varint_roundtrip_from(v as nat, rest, 0);
}

/// A key that fits one byte reads back.
pub proof fn lemma_key_roundtrip(tag: nat, w: WireKind, rest: Seq<u8>)
    requires
        1 <= tag <= 15,
    ensures
        read_key(key_bytes(tag, w) + rest) == Some((tag, w, 1nat)),
{
    let k = tag * 8 + wire_code(w);
    assert(k < 128);
    let b = key_bytes(tag, w) + rest;
    assert(b[0] == k as u8);
    assert(varint_from(b, 0) == Some((k, 1nat)));
    assert(k / 8 == tag);
    assert(k % 8 == wire_code(w));
}

/// A length-delimited value reads back.
pub proof fn lemma_len_delimited_roundtrip(payload: Seq<u8>, rest: Seq<u8>)
    requires
        payload.len() <= u64::MAX,
    ensures
        read_len_delimited(len_delimited_bytes(payload) + rest) == Some(
            (payload, len_delimited_bytes(payload).len()),
        ),
{
    let l = payload.len();
    let enc = varint(l);
    lemma_varint_roundtrip(l as u64, payload + rest);
    assert(len_delimited_bytes(payload) + rest =~= enc + (payload + rest));
    let b = len_delimited_bytes(payload) + rest;
    assert(b.subrange(enc.len() as int, (enc.len() + l) as int) =~= payload);
}

} // verus!
