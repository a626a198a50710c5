//! The hardware-info record: a protobuf message that carries a Mac's
//! configuration so that it can be stored and restored.
//!
//! Message `HwInfo`: 1 `inner` (message `InnerHwInfo`), 2 `version`
//! (string), 3 `protocol_version` (int32), 4 `device_id`, 5 `icloud_ua`,
//! 6 `aoskit_version` (strings).
//! Message `InnerHwInfo`: 1 `product_name`, 2 `io_mac_address` (bytes),
//! 3 `platform_serial_number`, 4 `platform_uuid`, 5 `root_disk_uuid`,
//! 6 `board_id`, 7 `os_build_num` (strings), 8 `platform_serial_number_enc`,
//! 9 `platform_uuid_enc`, 10 `root_disk_uuid_enc`, 11 `rom`, 12 `rom_enc`
//! (bytes), 13 `mlb` (string), 14 `mlb_enc` (bytes).

use vstd::prelude::*;
use vstd::utf8::{valid_utf8, decode_utf8, encode_utf8};
use vstd::utf8::{encode_utf8_valid_utf8, encode_utf8_decode_utf8, decode_utf8_encode_utf8};
use crate::config::{HardwareConfig, MacOSConfig, JoinedOSConfig, HwExtra};
use crate::hex::{generate_udid, hex_lower};
use crate::text::upper_seq;
use crate::protowire::{
    WireKind, key_bytes, len_delimited_bytes, varint, read_key, read_varint, read_len_delimited,
    skipped_len, wire_code, put_key, put_varint, take_key, take_varint, skip_unknown,
    plain_fields, nested_ok, check_nested,
    utf8_to_string, lemma_varint_consumes, lemma_varint_roundtrip, lemma_key_roundtrip,
    lemma_len_delimited_roundtrip,
};

verus! {

broadcast use {encode_utf8_valid_utf8, encode_utf8_decode_utf8, decode_utf8_encode_utf8};

/// The inner part of the hardware-info record.
pub struct InnerHwInfo {
    pub product_name: String,
    pub io_mac_address: Vec<u8>,
    pub platform_serial_number: String,
    pub platform_uuid: String,
    pub root_disk_uuid: String,
    pub board_id: String,
    pub os_build_num: String,
    pub platform_serial_number_enc: Vec<u8>,
    pub platform_uuid_enc: Vec<u8>,
    pub root_disk_uuid_enc: Vec<u8>,
    pub rom: Vec<u8>,
    pub rom_enc: Vec<u8>,
    pub mlb: String,
    pub mlb_enc: Vec<u8>,
}

/// The hardware-info record.
pub struct HwInfo {
    pub inner: Option<InnerHwInfo>,
    pub version: String,
    pub protocol_version: i32,
    pub device_id: String,
    pub icloud_ua: String,
    pub aoskit_version: String,
}

/// Number of fields of the inner message.
pub const INNER_FIELDS: usize = 14;

impl InnerHwInfo {
    /// The fields' bytes as they go on the wire, by field number minus one
    /// (strings as their UTF-8 encoding).
    pub open spec fn wire(&self) -> Seq<Seq<u8>> {
        seq![
            encode_utf8(self.product_name@),
            self.io_mac_address@,
            encode_utf8(self.platform_serial_number@),
            encode_utf8(self.platform_uuid@),
            encode_utf8(self.root_disk_uuid@),
            encode_utf8(self.board_id@),
            encode_utf8(self.os_build_num@),
            self.platform_serial_number_enc@,
            self.platform_uuid_enc@,
            self.root_disk_uuid_enc@,
            self.rom@,
            self.rom_enc@,
            encode_utf8(self.mlb@),
            self.mlb_enc@,
        ]
    }
}

/// The record as bytes per field.
pub struct HwInfoWire {
    pub inner: Option<Seq<Seq<u8>>>,
    pub version: Seq<u8>,
    pub protocol_version: i32,
    pub device_id: Seq<u8>,
    pub icloud_ua: Seq<u8>,
    pub aoskit_version: Seq<u8>,
}

impl HwInfo {
    /// The record as bytes per field.
    pub open spec fn wire(&self) -> HwInfoWire {
        HwInfoWire {
            inner: match self.inner {
                Some(i) => Some(i.wire()),
                None => None,
            },
            version: encode_utf8(self.version@),
            protocol_version: self.protocol_version,
            device_id: encode_utf8(self.device_id@),
            icloud_ua: encode_utf8(self.icloud_ua@),
            aoskit_version: encode_utf8(self.aoskit_version@),
        }
    }
}

/// Fields of the inner message that hold strings.
pub open spec fn is_string_tag(tag: nat) -> bool {
    tag == 1 || (3 <= tag && tag <= 7) || tag == 13
}

/// The encoding of a string or bytes field: nothing for an empty value.
pub open spec fn field_record(tag: nat, p: Seq<u8>) -> Seq<u8> {
    if p.len() == 0 {
        Seq::empty()
    } else {
        key_bytes(tag, WireKind::LengthDelimited) + len_delimited_bytes(p)
    }
}

/// The encoding of the inner fields from position `k` on.
pub open spec fn inner_records(f: Seq<Seq<u8>>, k: nat) -> Seq<u8>
    decreases 14 - k,
{
    if k >= 14 {
        Seq::empty()
    } else {
        field_record(k + 1, f[k as int]) + inner_records(f, k + 1)
    }
}

/// The encoding of the inner message.
pub open spec fn encode_inner_wire(f: Seq<Seq<u8>>) -> Seq<u8> {
    inner_records(f, 0)
}

/// An `int32` as the 64-bit value it is written as.
pub open spec fn sign_extend(v: i32) -> nat {
    if v >= 0 {
        v as nat
    } else {
        (v + 0x1_0000_0000_0000_0000) as nat
    }
}

/// The encoding of an `int32` field: nothing for zero.
pub open spec fn int32_record(tag: nat, v: i32) -> Seq<u8> {
    if v == 0 {
        Seq::empty()
    } else {
        key_bytes(tag, WireKind::Varint) + varint(sign_extend(v))
    }
}

/// The encoding of the record.
pub open spec fn encode_wire(m: HwInfoWire) -> Seq<u8> {
    (match m.inner {
        Some(f) => key_bytes(1, WireKind::LengthDelimited) + len_delimited_bytes(
            encode_inner_wire(f),
        ),
        None => Seq::empty(),
    }) + field_record(2, m.version) + int32_record(3, m.protocol_version) + field_record(
        4,
        m.device_id,
    ) + field_record(5, m.icloud_ua) + field_record(6, m.aoskit_version)
}

/// An inner message with every field empty.
pub open spec fn empty_inner() -> Seq<Seq<u8>> {
    Seq::new(14, |i: int| Seq::<u8>::empty())
}

/// The low 32 bits of a value, as a signed integer.
pub open spec fn truncate_i32(v: nat) -> i32 {
    let r = v % 0x1_0000_0000;
    if r >= 0x8000_0000 {
        (r - 0x1_0000_0000) as i32
    } else {
        r as i32
    }
}

pub proof fn lemma_key_consumes(b: Seq<u8>)
    ensures
        read_key(b) matches Some((t, w, n)) ==> 1 <= n <= b.len(),
{
    lemma_varint_consumes(b, 0);
}

pub proof fn lemma_len_delimited_consumes(b: Seq<u8>)
    ensures
        read_len_delimited(b) matches Some((p, m)) ==> m <= b.len() && p.len() <= m,
{
    lemma_varint_consumes(b, 0);
}

/// Decodes inner fields from `b` on top of `acc`: each field read replaces
/// the one before it, strings must be valid UTF-8, unknown fields are
/// skipped as `prost` skips them.
pub open spec fn decode_inner_from(b: Seq<u8>, acc: Seq<Seq<u8>>) -> Option<Seq<Seq<u8>>>
    decreases b.len(),
{
    if b.len() == 0 {
        Some(acc)
    } else {
        match read_key(b) {
            None => None,
            Some((tag, w, n)) => {
                proof {
                    lemma_key_consumes(b);
                }
                let rest = b.skip(n as int);
                if 1 <= tag && tag <= 14 {
                    if w != WireKind::LengthDelimited {
                        None
                    } else {
                        match read_len_delimited(rest) {
                            None => None,
                            Some((p, m)) => {
                                proof {
                                    lemma_len_delimited_consumes(rest);
                                }
                                if is_string_tag(tag) && !valid_utf8(p) {
                                    None
                                } else {
                                    decode_inner_from(rest.skip(m as int), acc.update(tag - 1, p))
                                }
                            },
                        }
                    }
                } else {
                    match skipped_len(tag as u32, wire_code(w), rest) {
                        None => None,
                        Some(m) => {
                            if m > rest.len() {
                                None
                            } else {
                                decode_inner_from(rest.skip(m as int), acc)
                            }
                        },
                    }
                }
            },
        }
    }
}

/// Sets one of the top-level string fields (2, 4, 5 or 6).
pub open spec fn set_top_str(acc: HwInfoWire, tag: nat, p: Seq<u8>) -> HwInfoWire {
    if tag == 2 {
        HwInfoWire { version: p, ..acc }
    } else if tag == 4 {
        HwInfoWire { device_id: p, ..acc }
    } else if tag == 5 {
        HwInfoWire { icloud_ua: p, ..acc }
    } else {
        HwInfoWire { aoskit_version: p, ..acc }
    }
}

/// The inner message decoded so far, or an empty one.
pub open spec fn inner_or_empty(i: Option<Seq<Seq<u8>>>) -> Seq<Seq<u8>> {
    match i {
        Some(f) => f,
        None => empty_inner(),
    }
}

/// Decodes top-level fields from `b` on top of `acc`. An inner message
/// merges into the one decoded before it; it must also pass `prost`'s
/// reading of a nested message (`nested_ok`), which skips its unknown fields
/// one recursion level down, and which a message made only of
/// length-delimited fields always passes.
pub open spec fn decode_top_from(b: Seq<u8>, acc: HwInfoWire) -> Option<HwInfoWire>
    decreases b.len(),
{
    if b.len() == 0 {
        Some(acc)
    } else {
        match read_key(b) {
            None => None,
            Some((tag, w, n)) => {
                proof {
                    lemma_key_consumes(b);
                }
                let rest = b.skip(n as int);
                if tag == 1 || tag == 2 || tag == 4 || tag == 5 || tag == 6 {
                    if w != WireKind::LengthDelimited {
                        None
                    } else {
                        match read_len_delimited(rest) {
                            None => None,
                            Some((p, m)) => {
                                proof {
                                    lemma_len_delimited_consumes(rest);
                                }
                                if tag == 1 {
                                    if !(plain_fields(p) || nested_ok(rest)) {
                                        None
                                    } else {
                                        match decode_inner_from(p, inner_or_empty(acc.inner)) {
                                            None => None,
                                            Some(f) => decode_top_from(
                                                rest.skip(m as int),
                                                HwInfoWire { inner: Some(f), ..acc },
                                            ),
                                        }
                                    }
                                } else if !valid_utf8(p) {
                                    None
                                } else {
                                    decode_top_from(rest.skip(m as int), set_top_str(acc, tag, p))
                                }
                            },
                        }
                    }
                } else if tag == 3 {
                    if w != WireKind::Varint {
                        None
                    } else {
                        match read_varint(rest) {
                            None => None,
                            Some((v, m)) => {
                                proof {
                                    lemma_varint_consumes(rest, 0);
                                }
                                decode_top_from(
                                    rest.skip(m as int),
                                    HwInfoWire { protocol_version: truncate_i32(v), ..acc },
                                )
                            },
                        }
                    }
                } else {
                    match skipped_len(tag as u32, wire_code(w), rest) {
                        None => None,
                        Some(m) => {
                            if m > rest.len() {
                                None
                            } else {
                                decode_top_from(rest.skip(m as int), acc)
                            }
                        },
                    }
                }
            },
        }
    }
}

/// The record with every field empty.
pub open spec fn empty_wire() -> HwInfoWire {
    HwInfoWire {
        inner: None,
        version: Seq::empty(),
        protocol_version: 0,
        device_id: Seq::empty(),
        icloud_ua: Seq::empty(),
        aoskit_version: Seq::empty(),
    }
}

/// The record that `b` decodes to, or `None` where decoding fails.
pub open spec fn decode_wire(b: Seq<u8>) -> Option<HwInfoWire> {
    decode_top_from(b, empty_wire())
}

/// Decoding of the record failed.
#[derive(PartialEq, Eq, Structural, Clone, Copy, Debug)]
pub enum HwInfoDecodeError {
    Malformed,
}

fn append_bytes(buf: &mut Vec<u8>, bytes: &[u8])
    ensures
        final(buf)@ == old(buf)@ + bytes@,
{
    let ghost start = buf@;
    let mut i: usize = 0;
    while i < bytes.len()
        invariant
            i <= bytes@.len(),
            buf@ == start + bytes@.subrange(0, i as int),
        decreases bytes@.len() - i,
    {
        buf.push(bytes[i]);
        assert(bytes@.subrange(0, i + 1) =~= bytes@.subrange(0, i as int).push(bytes@[i as int]));
        i = i + 1;
    }
    assert(bytes@.subrange(0, bytes@.len() as int) =~= bytes@);
}

fn copy_bytes(bytes: &[u8]) -> (r: Vec<u8>)
    ensures
        r@ == bytes@,
{
    let mut r = Vec::new();
    append_bytes(&mut r, bytes);
    r
}

fn put_field(tag: u32, p: &[u8], buf: &mut Vec<u8>)
    requires
        1 <= tag <= 14,
    ensures
        final(buf)@ == old(buf)@ + field_record(tag as nat, p@),
{
    if p.len() > 0 {
        let ghost b0 = buf@;
        put_key(tag, WireKind::LengthDelimited, buf);
        put_varint(p.len() as u64, buf);
        append_bytes(buf, p);
        assert(buf@ =~= b0 + field_record(tag as nat, p@));
    } else {
        assert(field_record(tag as nat, p@) =~= Seq::<u8>::empty());
        assert(buf@ =~= old(buf)@ + field_record(tag as nat, p@));
    }
}

fn str_bytes(s: &String) -> (r: &[u8])
    ensures
        r@ == encode_utf8(s@),
{
    s.as_str().as_bytes()
}

fn inner_field_vecs(i: &InnerHwInfo) -> (r: Vec<Vec<u8>>)
    ensures
        r@.len() == 14,
        byte_vecs(r@) == i.wire(),
{
    let mut r: Vec<Vec<u8>> = Vec::new();
    r.push(copy_bytes(str_bytes(&i.product_name)));
    r.push(copy_bytes(i.io_mac_address.as_slice()));
    r.push(copy_bytes(str_bytes(&i.platform_serial_number)));
    r.push(copy_bytes(str_bytes(&i.platform_uuid)));
    r.push(copy_bytes(str_bytes(&i.root_disk_uuid)));
    r.push(copy_bytes(str_bytes(&i.board_id)));
    r.push(copy_bytes(str_bytes(&i.os_build_num)));
    r.push(copy_bytes(i.platform_serial_number_enc.as_slice()));
    r.push(copy_bytes(i.platform_uuid_enc.as_slice()));
    r.push(copy_bytes(i.root_disk_uuid_enc.as_slice()));
    r.push(copy_bytes(i.rom.as_slice()));
    r.push(copy_bytes(i.rom_enc.as_slice()));
    r.push(copy_bytes(str_bytes(&i.mlb)));
    r.push(copy_bytes(i.mlb_enc.as_slice()));
    assert(byte_vecs(r@) =~= i.wire());
    r
}

/// Encodes the inner message.
pub fn encode_inner_hw_info(i: &InnerHwInfo) -> (r: Vec<u8>)
    ensures
        r@ == encode_inner_wire(i.wire()),
{
    let fields = inner_field_vecs(i);
    let ghost f = i.wire();
    let mut buf: Vec<u8> = Vec::new();
    let mut k: usize = 0;
    while k < INNER_FIELDS
        invariant
            fields@.len() == 14,
            byte_vecs(fields@) == f,
            f.len() == 14,
            k <= 14,
            buf@ + inner_records(f, k as nat) == inner_records(f, 0),
        decreases 14 - k,
    {
        let ghost b0 = buf@;
        assert(byte_vecs(fields@)[k as int] == fields@[k as int]@);
        put_field((k + 1) as u32, fields[k].as_slice(), &mut buf);
        assert(inner_records(f, k as nat) == field_record((k + 1) as nat, f[k as int])
            + inner_records(f, (k + 1) as nat));
        assert(buf@ + inner_records(f, (k + 1) as nat) =~= b0 + inner_records(f, k as nat));
        k = k + 1;
    }
    assert(inner_records(f, 14) =~= Seq::<u8>::empty());
    assert(buf@ =~= encode_inner_wire(i.wire()));
    buf
}

fn i32_as_u64(v: i32) -> (r: u64)
    ensures
        r as nat == sign_extend(v),
{
    if v >= 0 {
        v as u64
    } else {
        let m: i128 = v as i128 + 0x1_0000_0000_0000_0000i128;
        m as u64
    }
}

/// Encodes the record as `prost` writes it: fields in number order, empty
/// strings and bytes and a zero `int32` left out, the inner message written
/// whenever it is present.
pub fn encode_hw_info(info: &HwInfo) -> (r: Vec<u8>)
    ensures
        r@ == encode_wire(info.wire()),
{
    let mut buf: Vec<u8> = Vec::new();
    match &info.inner {
        Some(inner) => {
            let enc = encode_inner_hw_info(inner);
            put_key(1, WireKind::LengthDelimited, &mut buf);
            put_varint(enc.len() as u64, &mut buf);
            append_bytes(&mut buf, enc.as_slice());
        },
        None => {},
    }
    let ghost b1 = buf@;
    put_field(2, str_bytes(&info.version), &mut buf);
    let ghost b2 = buf@;
    if info.protocol_version != 0 {
        put_key(3, WireKind::Varint, &mut buf);
        put_varint(i32_as_u64(info.protocol_version), &mut buf);
    }
    assert(buf@ =~= b2 + int32_record(3, info.protocol_version));
    put_field(4, str_bytes(&info.device_id), &mut buf);
    put_field(5, str_bytes(&info.icloud_ua), &mut buf);
    put_field(6, str_bytes(&info.aoskit_version), &mut buf);
    assert(buf@ =~= encode_wire(info.wire()));
    buf
}

/// Reads a length-delimited value: the payload and the bytes after it.
fn take_len_delimited<'a>(input: &'a [u8]) -> (r: Option<(&'a [u8], &'a [u8])>)
    ensures
        match read_len_delimited(input@) {
            None => r is None,
            Some((p, m)) => (r matches Some((payload, rest)) && payload@ == p && rest@
                == input@.skip(m as int)),
        },
{
    proof {
        lemma_varint_consumes(input@, 0);
    }
    match take_varint(input) {
        None => None,
        Some((len, after)) => {
            if len > after.len() as u64 {
                None
            } else {
                let l = len as usize;
                let payload = &after[0..l];
                let rest = &after[l..after.len()];
                assert(rest@ =~= after@.skip(l as int));
                Some((payload, rest))
            }
        },
    }
}

fn is_string_tag_exec(tag: u32) -> (b: bool)
    ensures
        b == is_string_tag(tag as nat),
{
    tag == 1 || (3 <= tag && tag <= 7) || tag == 13
}

/// The string fields of an inner message are valid UTF-8.
pub open spec fn inner_strings_valid(f: Seq<Seq<u8>>) -> bool {
    forall|j: int| 0 <= j < 14 && is_string_tag((j + 1) as nat) ==> valid_utf8(#[trigger] f[j])
}

/// The bytes of each vector.
pub open spec fn byte_vecs(v: Seq<Vec<u8>>) -> Seq<Seq<u8>> {
    v.map_values(|x: Vec<u8>| x@)
}

fn valid_utf8_exec(bytes: &[u8]) -> (b: bool)
    ensures
        b == valid_utf8(bytes@),
{
    let c = copy_bytes(bytes);
    let s = utf8_to_string(c);
    s.is_some()
}

fn decode_inner_exec(input: &[u8], start: Vec<Vec<u8>>) -> (r: Option<Vec<Vec<u8>>>)
    requires
        start@.len() == 14,
        inner_strings_valid(byte_vecs(start@)),
    ensures
        match decode_inner_from(input@, byte_vecs(start@)) {
            None => r is None,
            Some(f) => (r matches Some(v) && byte_vecs(v@) == f && v@.len() == 14
                && inner_strings_valid(f)),
        },
{
    let mut rest = input;
    let ghost target = decode_inner_from(input@, byte_vecs(start@));
    let mut acc = start;
    while rest.len() > 0
        invariant
            target == decode_inner_from(input@, byte_vecs(start@)),
            acc@.len() == 14,
            inner_strings_valid(byte_vecs(acc@)),
            target == decode_inner_from(rest@, byte_vecs(acc@)),
        decreases rest@.len(),
    {
        proof {
            lemma_key_consumes(rest@);
        }
        match take_key(rest) {
            None => {
                assert(read_key(rest@) is None);
                assert(decode_inner_from(rest@, byte_vecs(acc@)) is None);
                return None;
            },
            Some((tag, w, after)) => {
                if 1 <= tag && tag <= 14 {
                    if w != WireKind::LengthDelimited {
                        return None;
                    }
                    proof {
                        lemma_len_delimited_consumes(after@);
                    }
                    match take_len_delimited(after) {
                        None => {
                            return None;
                        },
                        Some((payload, next)) => {
                            if is_string_tag_exec(tag) && !valid_utf8_exec(payload) {
                                return None;
                            }
                            let v = copy_bytes(payload);
                            let idx: usize = (tag - 1) as usize;
                            let ghost before = byte_vecs(acc@);
                            acc.set(idx, v);
                            assert(byte_vecs(acc@) =~= before.update(idx as int, payload@));
                            rest = next;
                        },
                    }
                } else {
                    match skip_unknown(tag, w, after) {
                        None => {
                            return None;
                        },
                        Some(next) => {
                            rest = next;
                        },
                    }
                }
            },
        }
    }
    Some(acc)
}


fn empty_inner_vecs() -> (r: Vec<Vec<u8>>)
    ensures
        r@.len() == 14,
        byte_vecs(r@) == empty_inner(),
{
    let mut r: Vec<Vec<u8>> = Vec::new();
    let mut k: usize = 0;
    while k < INNER_FIELDS
        invariant
            k <= 14,
            r@.len() == k,
            forall|j: int| 0 <= j < k ==> (#[trigger] r@[j])@.len() == 0,
        decreases 14 - k,
    {
        r.push(Vec::new());
        k = k + 1;
    }
    assert forall|j: int| 0 <= j < 14 implies byte_vecs(r@)[j] =~= empty_inner()[j] by {}
    assert(byte_vecs(r@) =~= empty_inner());
    r
}

fn string_of_valid(bytes: Vec<u8>) -> (s: String)
    requires
        valid_utf8(bytes@),
    ensures
        encode_utf8(s@) == bytes@,
{
    let r = utf8_to_string(bytes);
    r.unwrap()
}

fn pop_bytes(v: &mut Vec<Vec<u8>>) -> (r: Vec<u8>)
    requires
        old(v)@.len() > 0,
    ensures
        final(v)@ == old(v)@.drop_last(),
        r == old(v)@.last(),
{
    v.pop().unwrap()
}

fn inner_from_vecs(v: Vec<Vec<u8>>) -> (r: InnerHwInfo)
    requires
        v@.len() == 14,
        inner_strings_valid(byte_vecs(v@)),
    ensures
        r.wire() == byte_vecs(v@),
{
    let ghost f = byte_vecs(v@);
    assert(valid_utf8(f[0]) && valid_utf8(f[2]) && valid_utf8(f[3]) && valid_utf8(f[4])
        && valid_utf8(f[5]) && valid_utf8(f[6]) && valid_utf8(f[12])) by {
        assert(is_string_tag(1) && is_string_tag(3) && is_string_tag(4) && is_string_tag(5)
            && is_string_tag(6) && is_string_tag(7) && is_string_tag(13));
    }
    let mut v = v;
    let mlb_enc = pop_bytes(&mut v);
    let mlb = string_of_valid(pop_bytes(&mut v));
    let rom_enc = pop_bytes(&mut v);
    let rom = pop_bytes(&mut v);
    let root_disk_uuid_enc = pop_bytes(&mut v);
    let platform_uuid_enc = pop_bytes(&mut v);
    let platform_serial_number_enc = pop_bytes(&mut v);
    let os_build_num = string_of_valid(pop_bytes(&mut v));
    let board_id = string_of_valid(pop_bytes(&mut v));
    let root_disk_uuid = string_of_valid(pop_bytes(&mut v));
    let platform_uuid = string_of_valid(pop_bytes(&mut v));
    let platform_serial_number = string_of_valid(pop_bytes(&mut v));
    let io_mac_address = pop_bytes(&mut v);
    let product_name = string_of_valid(pop_bytes(&mut v));
    let r = InnerHwInfo {
        product_name,
        io_mac_address,
        platform_serial_number,
        platform_uuid,
        root_disk_uuid,
        board_id,
        os_build_num,
        platform_serial_number_enc,
        platform_uuid_enc,
        root_disk_uuid_enc,
        rom,
        rom_enc,
        mlb,
        mlb_enc,
    };
    assert(r.wire() =~= f);
    r
}

fn truncate_i32_exec(v: u64) -> (r: i32)
    ensures
        r == truncate_i32(v as nat),
{
    let low: u64 = v % 0x1_0000_0000;
    if low >= 0x8000_0000 {
        let w: i64 = low as i64 - 0x1_0000_0000i64;
        w as i32
    } else {
        low as i32
    }
}

/// The record as decoding builds it up: every field as bytes.
struct TopState {
    inner: Option<Vec<Vec<u8>>>,
    version: Vec<u8>,
    protocol_version: i32,
    device_id: Vec<u8>,
    icloud_ua: Vec<u8>,
    aoskit_version: Vec<u8>,
}

impl TopState {
    spec fn wire(&self) -> HwInfoWire {
        HwInfoWire {
            inner: match self.inner {
                Some(v) => Some(byte_vecs(v@)),
                None => None,
            },
            version: self.version@,
            protocol_version: self.protocol_version,
            device_id: self.device_id@,
            icloud_ua: self.icloud_ua@,
            aoskit_version: self.aoskit_version@,
        }
    }

    spec fn inv(&self) -> bool {
        &&& valid_utf8(self.version@)
        &&& valid_utf8(self.device_id@)
        &&& valid_utf8(self.icloud_ua@)
        &&& valid_utf8(self.aoskit_version@)
        &&& match self.inner {
            Some(v) => v@.len() == 14 && inner_strings_valid(byte_vecs(v@)),
            None => true,
        }
    }
}

/// Decodes the record as `prost` decodes it: fields in any order, the last
/// occurrence of a field winning, inner messages merged, unknown fields
/// skipped; malformed varints or keys, wrong wire types, lengths past the
/// end and invalid UTF-8 in a string are refused.
pub fn decode_hw_info(bytes: &[u8]) -> (r: Result<HwInfo, HwInfoDecodeError>)
    ensures
        match decode_wire(bytes@) {
            None => r is Err,
            Some(m) => (r matches Ok(x) && x.wire() == m),
        },
{
    let mut st = TopState {
        inner: None,
        version: Vec::new(),
        protocol_version: 0,
        device_id: Vec::new(),
        icloud_ua: Vec::new(),
        aoskit_version: Vec::new(),
    };
    assert(st.wire() =~= empty_wire());
    let ghost target = decode_wire(bytes@);
    let mut rest = bytes;
    while rest.len() > 0
        invariant
            target == decode_wire(bytes@),
            st.inv(),
            target == decode_top_from(rest@, st.wire()),
        decreases rest@.len(),
    {
        proof {
            lemma_key_consumes(rest@);
        }
        match take_key(rest) {
            None => {
                return Err(HwInfoDecodeError::Malformed);
            },
            Some((tag, w, after)) => {
                if tag == 1 || tag == 2 || tag == 4 || tag == 5 || tag == 6 {
                    if w != WireKind::LengthDelimited {
                        return Err(HwInfoDecodeError::Malformed);
                    }
                    proof {
                        lemma_len_delimited_consumes(after@);
                    }
                    match take_len_delimited(after) {
                        None => {
                            return Err(HwInfoDecodeError::Malformed);
                        },
                        Some((payload, next)) => {
                            if tag == 1 {
                                if !check_nested(after) {
                                    return Err(HwInfoDecodeError::Malformed);
                                }
                                let acc = match st.inner.take() {
                                    Some(v) => v,
                                    None => empty_inner_vecs(),
                                };
                                match decode_inner_exec(payload, acc) {
                                    None => {
                                        return Err(HwInfoDecodeError::Malformed);
                                    },
                                    Some(v) => {
                                        st.inner = Some(v);
                                    },
                                }
                            } else {
                                if !valid_utf8_exec(payload) {
                                    return Err(HwInfoDecodeError::Malformed);
                                }
                                let v = copy_bytes(payload);
                                if tag == 2 {
                                    st.version = v;
                                } else if tag == 4 {
                                    st.device_id = v;
                                } else if tag == 5 {
                                    st.icloud_ua = v;
                                } else {
                                    st.aoskit_version = v;
                                }
                            }
                            rest = next;
                        },
                    }
                } else if tag == 3 {
                    if w != WireKind::Varint {
                        return Err(HwInfoDecodeError::Malformed);
                    }
                    proof {
                        lemma_varint_consumes(after@, 0);
                    }
                    match take_varint(after) {
                        None => {
                            return Err(HwInfoDecodeError::Malformed);
                        },
                        Some((v, next)) => {
                            st.protocol_version = truncate_i32_exec(v);
                            rest = next;
                        },
                    }
                } else {
                    match skip_unknown(tag, w, after) {
                        None => {
                            return Err(HwInfoDecodeError::Malformed);
                        },
                        Some(next) => {
                            rest = next;
                        },
                    }
                }
            },
        }
    }
    let inner = match st.inner {
        Some(v) => Some(inner_from_vecs(v)),
        None => None,
    };
    let info = HwInfo {
        inner,
        version: string_of_valid(st.version),
        protocol_version: st.protocol_version,
        device_id: string_of_valid(st.device_id),
        icloud_ua: string_of_valid(st.icloud_ua),
        aoskit_version: string_of_valid(st.aoskit_version),
    };
    assert(info.wire() =~= st.wire());
    Ok(info)
}


/// The inner fields after decoding the encoded fields from position `k`
/// on top of `acc`: non-empty fields replace, empty ones were not written.
pub open spec fn fill_from(f: Seq<Seq<u8>>, acc: Seq<Seq<u8>>, k: nat) -> Seq<Seq<u8>> {
    Seq::new(14, |j: int| if j >= k && f[j].len() > 0 { f[j] } else { acc[j] })
}

/// An inner message that can be encoded and read back: fourteen fields,
/// strings in valid UTF-8, lengths within 64 bits.
pub open spec fn inner_wire_wf(f: Seq<Seq<u8>>) -> bool {
    &&& f.len() == 14
    &&& inner_strings_valid(f)
    &&& forall|j: int| 0 <= j < 14 ==> (#[trigger] f[j]).len() <= u64::MAX
}

/// A record that can be encoded and read back.
pub open spec fn wire_wf(m: HwInfoWire) -> bool {
    &&& valid_utf8(m.version)
    &&& valid_utf8(m.device_id)
    &&& valid_utf8(m.icloud_ua)
    &&& valid_utf8(m.aoskit_version)
    &&& m.version.len() <= u64::MAX
    &&& m.device_id.len() <= u64::MAX
    &&& m.icloud_ua.len() <= u64::MAX
    &&& m.aoskit_version.len() <= u64::MAX
    &&& (m.inner matches Some(f) ==> inner_wire_wf(f) && encode_inner_wire(f).len() <= u64::MAX)
}

proof fn lemma_decode_inner_records(f: Seq<Seq<u8>>, acc: Seq<Seq<u8>>, k: nat, rest: Seq<u8>)
    requires
        inner_wire_wf(f),
        acc.len() == 14,
        k <= 14,
    ensures
        decode_inner_from(inner_records(f, k) + rest, acc) == decode_inner_from(
            rest,
            fill_from(f, acc, k),
        ),
    decreases 14 - k,
{
    if k == 14 {
        assert(inner_records(f, 14) =~= Seq::<u8>::empty());
        assert(inner_records(f, 14) + rest =~= rest);
        assert(fill_from(f, acc, 14) =~= acc);
    } else {
        let p = f[k as int];
        if p.len() == 0 {
            lemma_decode_inner_records(f, acc, k + 1, rest);
            assert(inner_records(f, k) =~= inner_records(f, k + 1));
            assert(fill_from(f, acc, k + 1) =~= fill_from(f, acc, k));
        } else {
            let tail = inner_records(f, k + 1) + rest;
            let acc2 = acc.update(k as int, p);
            lemma_decode_inner_records(f, acc2, k + 1, rest);
            let b = inner_records(f, k) + rest;
            let ld = len_delimited_bytes(p);
            assert(b =~= key_bytes(k + 1, WireKind::LengthDelimited) + (ld + tail));
            lemma_key_roundtrip(k + 1, WireKind::LengthDelimited, ld + tail);
            assert(b.skip(1) =~= ld + tail);
            lemma_len_delimited_roundtrip(p, tail);
            assert((ld + tail).skip(ld.len() as int) =~= tail);
            assert(is_string_tag(k + 1) ==> valid_utf8(p)) by {
                assert(is_string_tag(((k as int) + 1) as nat) ==> valid_utf8(f[k as int]));
            }
            assert(fill_from(f, acc2, k + 1) =~= fill_from(f, acc, k));
        }
    }
}

proof fn lemma_decode_inner_roundtrip(f: Seq<Seq<u8>>)
    requires
        inner_wire_wf(f),
    ensures
        decode_inner_from(encode_inner_wire(f), empty_inner()) == Some(f),
{
    lemma_decode_inner_records(f, empty_inner(), 0, Seq::empty());
    assert(inner_records(f, 0) + Seq::<u8>::empty() =~= inner_records(f, 0));
    assert forall|j: int| 0 <= j < 14 implies fill_from(f, empty_inner(), 0)[j] =~= f[j] by {}
    assert(fill_from(f, empty_inner(), 0) =~= f);
}

proof fn lemma_top_str_step(tag: nat, p: Seq<u8>, rest: Seq<u8>, acc: HwInfoWire)
    requires
        tag == 2 || tag == 4 || tag == 5 || tag == 6,
        valid_utf8(p),
        p.len() <= u64::MAX,
    ensures
        decode_top_from(field_record(tag, p) + rest, acc) == decode_top_from(
            rest,
            if p.len() == 0 {
                acc
            } else {
                set_top_str(acc, tag, p)
            },
        ),
{
    if p.len() == 0 {
        assert(field_record(tag, p) + rest =~= rest);
    } else {
        let ld = len_delimited_bytes(p);
        let b = field_record(tag, p) + rest;
        assert(b =~= key_bytes(tag, WireKind::LengthDelimited) + (ld + rest));
        lemma_key_roundtrip(tag, WireKind::LengthDelimited, ld + rest);
        assert(b.skip(1) =~= ld + rest);
        lemma_len_delimited_roundtrip(p, rest);
        assert((ld + rest).skip(ld.len() as int) =~= rest);
    }
}

proof fn lemma_sign_extend_truncate(v: i32)
    ensures
        truncate_i32(sign_extend(v)) == v,
        sign_extend(v) <= u64::MAX,
{
    if v >= 0 {
    } else {
        let x: int = v + 0x1_0000_0000_0000_0000;
        assert(x % 0x1_0000_0000 == v + 0x1_0000_0000) by (nonlinear_arith)
            requires
                x == v + 0x1_0000_0000_0000_0000,
                -0x8000_0000 <= v < 0,
        {
            assert(x == (v + 0x1_0000_0000) + 0xffff_ffff * 0x1_0000_0000);
        }
    }
}

proof fn lemma_top_int_step(v: i32, rest: Seq<u8>, acc: HwInfoWire)
    ensures
        decode_top_from(int32_record(3, v) + rest, acc) == decode_top_from(
            rest,
            if v == 0 {
                acc
            } else {
                HwInfoWire { protocol_version: v, ..acc }
            },
        ),
{
    if v == 0 {
        assert(int32_record(3, v) + rest =~= rest);
    } else {
        lemma_sign_extend_truncate(v);
        let enc = varint(sign_extend(v));
        let b = int32_record(3, v) + rest;
        assert(b =~= key_bytes(3, WireKind::Varint) + (enc + rest));
        lemma_key_roundtrip(3, WireKind::Varint, enc + rest);
        assert(b.skip(1) =~= enc + rest);
        lemma_varint_roundtrip(sign_extend(v) as u64, rest);
        assert((enc + rest).skip(enc.len() as int) =~= rest);
    }
}

proof fn lemma_top_inner_step(f: Seq<Seq<u8>>, rest: Seq<u8>, acc: HwInfoWire)
    requires
        inner_wire_wf(f),
        encode_inner_wire(f).len() <= u64::MAX,
        acc.inner is None,
    ensures
        decode_top_from(
            key_bytes(1, WireKind::LengthDelimited) + len_delimited_bytes(encode_inner_wire(f))
                + rest,
            acc,
        ) == decode_top_from(rest, HwInfoWire { inner: Some(f), ..acc }),
{
    let e = encode_inner_wire(f);
    let ld = len_delimited_bytes(e);
    let b = key_bytes(1, WireKind::LengthDelimited) + ld + rest;
    assert(b =~= key_bytes(1, WireKind::LengthDelimited) + (ld + rest));
    lemma_key_roundtrip(1, WireKind::LengthDelimited, ld + rest);
    assert(b.skip(1) =~= ld + rest);
    lemma_len_delimited_roundtrip(e, rest);
    assert((ld + rest).skip(ld.len() as int) =~= rest);
    lemma_decode_inner_roundtrip(f);
    lemma_inner_records_plain(f, 0);
}

/// The encoded inner fields are plain length-delimited fields.
proof fn lemma_inner_records_plain(f: Seq<Seq<u8>>, k: nat)
    requires
        inner_wire_wf(f),
        k <= 14,
    ensures
        plain_fields(inner_records(f, k)),
    decreases 14 - k,
{
    if k < 14 {
        lemma_inner_records_plain(f, k + 1);
        let p = f[k as int];
        let tail = inner_records(f, k + 1);
        if p.len() == 0 {
            assert(inner_records(f, k) =~= tail);
        } else {
            let kb = key_bytes(k + 1, WireKind::LengthDelimited);
            let ld = len_delimited_bytes(p);
            let b = inner_records(f, k);
            assert(b =~= kb + (ld + tail));
            lemma_key_roundtrip(k + 1, WireKind::LengthDelimited, ld + tail);
            assert(b.skip(1) =~= ld + tail);
            lemma_len_delimited_roundtrip(p, tail);
            assert((ld + tail).skip(ld.len() as int) =~= tail);
        }
    }
}

/// Decoding an encoded record gives the record back.
#[verifier::spinoff_prover]
#[verifier::rlimit(60)]
pub proof fn lemma_hw_info_roundtrip(m: HwInfoWire)
    requires
        wire_wf(m),
    ensures
        decode_wire(encode_wire(m)) == Some(m),
{
    let a = match m.inner {
        Some(f) => key_bytes(1, WireKind::LengthDelimited) + len_delimited_bytes(
            encode_inner_wire(f),
        ),
        None => Seq::empty(),
    };
    let b = field_record(2, m.version);
    let c = int32_record(3, m.protocol_version);
    let d = field_record(4, m.device_id);
    let e = field_record(5, m.icloud_ua);
    let g = field_record(6, m.aoskit_version);
    let empty = Seq::<u8>::empty();
    assert(encode_wire(m) =~= a + (b + (c + (d + (e + (g + empty))))));
    let s0 = empty_wire();
    let s1 = match m.inner {
        Some(f) => HwInfoWire { inner: Some(f), ..s0 },
        None => s0,
    };
    match m.inner {
        Some(f) => {
            lemma_top_inner_step(f, b + (c + (d + (e + (g + empty)))), s0);
        },
        None => {
            assert(a + (b + (c + (d + (e + (g + empty))))) =~= b + (c + (d + (e + (g + empty)))));
        },
    }
    lemma_top_str_step(2, m.version, c + (d + (e + (g + empty))), s1);
    let s2 = if m.version.len() == 0 {
        s1
    } else {
        set_top_str(s1, 2, m.version)
    };
    lemma_top_int_step(m.protocol_version, d + (e + (g + empty)), s2);
    let s3 = if m.protocol_version == 0 {
        s2
    } else {
        HwInfoWire { protocol_version: m.protocol_version, ..s2 }
    };
    lemma_top_str_step(4, m.device_id, e + (g + empty), s3);
    let s4 = if m.device_id.len() == 0 {
        s3
    } else {
        set_top_str(s3, 4, m.device_id)
    };
    lemma_top_str_step(5, m.icloud_ua, g + empty, s4);
    let s5 = if m.icloud_ua.len() == 0 {
        s4
    } else {
        set_top_str(s4, 5, m.icloud_ua)
    };
    lemma_top_str_step(6, m.aoskit_version, empty, s5);
    let s6 = if m.aoskit_version.len() == 0 {
        s5
    } else {
        set_top_str(s5, 6, m.aoskit_version)
    };
    assert(g + empty =~= g);
    assert(s6.version =~= m.version);
    assert(s6.device_id =~= m.device_id);
    assert(s6.icloud_ua =~= m.icloud_ua);
    assert(s6.aoskit_version =~= m.aoskit_version);
    assert(s6 == m);
}


/// A `u32` reinterpreted as an `i32`.
pub open spec fn u32_as_i32(v: u32) -> i32 {
    if v < 0x8000_0000 {
        v as i32
    } else {
        (v - 0x1_0000_0000) as i32
    }
}

/// An `i32` reinterpreted as a `u32`.
pub open spec fn i32_as_u32(v: i32) -> u32 {
    if v >= 0 {
        v as u32
    } else {
        (v + 0x1_0000_0000) as u32
    }
}

fn u32_as_i32_exec(v: u32) -> (r: i32)
    ensures
        r == u32_as_i32(v),
{
    if v < 0x8000_0000 {
        v as i32
    } else {
        let w: i64 = v as i64 - 0x1_0000_0000i64;
        w as i32
    }
}

fn i32_as_u32_exec(v: i32) -> (r: u32)
    ensures
        r == i32_as_u32(v),
{
    if v >= 0 {
        v as u32
    } else {
        let w: i64 = v as i64 + 0x1_0000_0000i64;
        w as u32
    }
}

/// The record a Mac's configuration is stored as.
pub open spec fn config_wire(c: MacOSConfig) -> HwInfoWire {
    HwInfoWire {
        inner: Some(
            seq![
                encode_utf8(c.inner.product_name@),
                c.inner.io_mac_address@,
                encode_utf8(c.inner.platform_serial_number@),
                encode_utf8(c.inner.platform_uuid@),
                encode_utf8(c.inner.root_disk_uuid@),
                encode_utf8(c.inner.board_id@),
                encode_utf8(c.inner.os_build_num@),
                c.inner.platform_serial_number_enc@,
                c.inner.platform_uuid_enc@,
                c.inner.root_disk_uuid_enc@,
                c.inner.rom@,
                c.inner.rom_enc@,
                encode_utf8(c.inner.mlb@),
                c.inner.mlb_enc@,
            ],
        ),
        version: encode_utf8(c.version@),
        protocol_version: u32_as_i32(c.protocol_version),
        device_id: encode_utf8(c.device_id@),
        icloud_ua: encode_utf8(c.icloud_ua@),
        aoskit_version: encode_utf8(c.aoskit_version@),
    }
}

/// A record and a Mac's configuration that agree field by field, each
/// record field holding the configuration field of the same name (the
/// protocol version reinterpreted as signed).
pub open spec fn record_carries(info: HwInfo, c: MacOSConfig) -> bool {
    &&& info.inner matches Some(i)
    &&& i.product_name@ == c.inner.product_name@
    &&& i.io_mac_address@ == c.inner.io_mac_address@
    &&& i.platform_serial_number@ == c.inner.platform_serial_number@
    &&& i.platform_uuid@ == c.inner.platform_uuid@
    &&& i.root_disk_uuid@ == c.inner.root_disk_uuid@
    &&& i.board_id@ == c.inner.board_id@
    &&& i.os_build_num@ == c.inner.os_build_num@
    &&& i.platform_serial_number_enc@ == c.inner.platform_serial_number_enc@
    &&& i.platform_uuid_enc@ == c.inner.platform_uuid_enc@
    &&& i.root_disk_uuid_enc@ == c.inner.root_disk_uuid_enc@
    &&& i.rom@ == c.inner.rom@
    &&& i.rom_enc@ == c.inner.rom_enc@
    &&& i.mlb@ == c.inner.mlb@
    &&& i.mlb_enc@ == c.inner.mlb_enc@
    &&& info.version@ == c.version@
    &&& info.protocol_version == u32_as_i32(c.protocol_version)
    &&& info.device_id@ == c.device_id@
    &&& info.icloud_ua@ == c.icloud_ua@
    &&& info.aoskit_version@ == c.aoskit_version@
}

/// The record a configuration is stored as is, on the wire, the record that
/// carries the configuration's fields by name.
pub proof fn lemma_config_wire_by_name(info: HwInfo, c: MacOSConfig)
    requires
        record_carries(info, c),
    ensures
        info.wire() == config_wire(c),
{
    assert(info.wire().inner.unwrap() =~= config_wire(c).inner.unwrap());
}

fn clone_string(s: &String) -> (r: String)
    ensures
        r@ == s@,
{
    s.clone()
}

/// The record a Mac's configuration is stored as.
pub fn hw_info_from_config(c: &MacOSConfig) -> (r: HwInfo)
    ensures
        record_carries(r, *c),
        r.wire() == config_wire(*c),
{
    let mac = &c.inner.io_mac_address;
    let mac_vec: Vec<u8> = vec![mac[0], mac[1], mac[2], mac[3], mac[4], mac[5]];
    proof {
        assert(mac_vec@ =~= c.inner.io_mac_address@);
    }
    let inner = InnerHwInfo {
        product_name: clone_string(&c.inner.product_name),
        io_mac_address: mac_vec,
        platform_serial_number: clone_string(&c.inner.platform_serial_number),
        platform_uuid: clone_string(&c.inner.platform_uuid),
        root_disk_uuid: clone_string(&c.inner.root_disk_uuid),
        board_id: clone_string(&c.inner.board_id),
        os_build_num: clone_string(&c.inner.os_build_num),
        platform_serial_number_enc: copy_bytes(c.inner.platform_serial_number_enc.as_slice()),
        platform_uuid_enc: copy_bytes(c.inner.platform_uuid_enc.as_slice()),
        root_disk_uuid_enc: copy_bytes(c.inner.root_disk_uuid_enc.as_slice()),
        rom: copy_bytes(c.inner.rom.as_slice()),
        rom_enc: copy_bytes(c.inner.rom_enc.as_slice()),
        mlb: clone_string(&c.inner.mlb),
        mlb_enc: copy_bytes(c.inner.mlb_enc.as_slice()),
    };
    let r = HwInfo {
        inner: Some(inner),
        version: clone_string(&c.version),
        protocol_version: u32_as_i32_exec(c.protocol_version),
        device_id: clone_string(&c.device_id),
        icloud_ua: clone_string(&c.icloud_ua),
        aoskit_version: clone_string(&c.aoskit_version),
    };
    assert(r.wire().inner.unwrap() =~= config_wire(*c).inner.unwrap());
    r
}

/// What the device reports of itself.
pub struct DebugMeta {
    pub hardware_version: String,
    pub serial_number: String,
    pub user_version: String,
}

/// The device summary shown to the user, with the stored form of a Mac's
/// configuration.
pub struct DeviceInfo {
    pub name: String,
    pub serial: String,
    pub os_version: String,
    pub encoded_data: Option<Vec<u8>>,
}

/// The device summary: the reported names, and for a Mac its configuration
/// stored as a hardware-info record (a relay has none).
pub fn get_device_info<V>(debug: DebugMeta, config: &JoinedOSConfig<V>) -> (r: DeviceInfo)
    ensures
        r.name@ == debug.hardware_version@,
        r.serial@ == debug.serial_number@,
        r.os_version@ == debug.user_version@,
        match config {
            JoinedOSConfig::MacOS(c) => (r.encoded_data matches Some(e) && e@ == encode_wire(
                config_wire(*c),
            )),
            JoinedOSConfig::Relay(_) => r.encoded_data is None,
        },
{
    let encoded_data = match config {
        JoinedOSConfig::MacOS(c) => {
            let info = hw_info_from_config(c);
            Some(encode_hw_info(&info))
        },
        JoinedOSConfig::Relay(_) => None,
    };
    DeviceInfo {
        name: debug.hardware_version,
        serial: debug.serial_number,
        os_version: debug.user_version,
        encoded_data,
    }
}

/// A record from which a Mac's configuration can be rebuilt: it has an
/// inner message, with a six-byte MAC address.
pub open spec fn restorable(m: HwInfoWire) -> bool {
    m.inner matches Some(f) && f.len() == 14 && f[1].len() == 6
}

/// The configuration rebuilt from a record carries the record's fields; a
/// fresh device identifier is drawn.
pub open spec fn restored_from(c: MacOSConfig, m: HwInfoWire) -> bool {
    &&& config_wire(c) == HwInfoWire { protocol_version: u32_as_i32(c.protocol_version), ..m }
    &&& c.protocol_version == i32_as_u32(m.protocol_version)
    &&& c.udid matches Some(u) && exists|b: Seq<u8>| b.len() == 32 && u@ == upper_seq(hex_lower(b))
}

fn mac_array(v: &Vec<u8>) -> (r: [u8; 6])
    requires
        v@.len() == 6,
    ensures
        r@ == v@,
{
    let r = [v[0], v[1], v[2], v[3], v[4], v[5]];
    assert(r@ =~= v@);
    r
}

/// Rebuilds a Mac's configuration from a decoded record.
pub fn config_from_hw_info<V>(info: HwInfo) -> (r: JoinedOSConfig<V>)
    requires
        restorable(info.wire()),
    ensures
        r matches JoinedOSConfig::MacOS(c) && restored_from(c, info.wire()) && record_carries(
            info,
            c,
        ),
{
    let inner = info.inner.unwrap();
    let hw = HardwareConfig {
        product_name: inner.product_name,
        io_mac_address: mac_array(&inner.io_mac_address),
        platform_serial_number: inner.platform_serial_number,
        platform_uuid: inner.platform_uuid,
        root_disk_uuid: inner.root_disk_uuid,
        board_id: inner.board_id,
        os_build_num: inner.os_build_num,
        platform_serial_number_enc: inner.platform_serial_number_enc,
        platform_uuid_enc: inner.platform_uuid_enc,
        root_disk_uuid_enc: inner.root_disk_uuid_enc,
        rom: inner.rom,
        rom_enc: inner.rom_enc,
        mlb: inner.mlb,
        mlb_enc: inner.mlb_enc,
    };
    let c = MacOSConfig {
        inner: hw,
        version: info.version,
        protocol_version: i32_as_u32_exec(info.protocol_version),
        device_id: info.device_id,
        icloud_ua: info.icloud_ua,
        aoskit_version: info.aoskit_version,
        udid: Some(generate_udid()),
    };
    assert(config_wire(c).inner.unwrap() =~= info.wire().inner.unwrap());
    JoinedOSConfig::MacOS(c)
}

/// Rebuilds a Mac's configuration from its stored record.
pub fn config_from_encoded<V>(encoded: Vec<u8>) -> (r: Result<JoinedOSConfig<V>, HwInfoDecodeError>)
    requires
        decode_wire(encoded@) matches Some(m) ==> restorable(m),
    ensures
        match decode_wire(encoded@) {
            None => r is Err,
            Some(m) => (r matches Ok(JoinedOSConfig::MacOS(c)) && restored_from(c, m) && exists|
                info: HwInfo,
            | #[trigger] record_carries(info, c) && info.wire() == m),
        },
{
    match decode_hw_info(encoded.as_slice()) {
        Err(e) => Err(e),
        Ok(info) => {
            let ghost decoded = info;
            let r = config_from_hw_info(info);
            proof {
                assert(record_carries(decoded, r->MacOS_0));
            }
            Ok(r)
        },
    }
}

/// Rebuilds a Mac's configuration from its stored record where the record
/// allows it: `None` for a record without an inner message or with a MAC
/// address that is not six bytes long.
pub fn checked_config_from_encoded<V>(encoded: Vec<u8>) -> (r: Option<
    Result<JoinedOSConfig<V>, HwInfoDecodeError>,
>)
    ensures
        match decode_wire(encoded@) {
            None => (r matches Some(x) && x is Err),
            Some(m) => if restorable(m) {
                (r matches Some(Ok(JoinedOSConfig::MacOS(c))) && restored_from(c, m) && exists|
                    info: HwInfo,
                | #[trigger] record_carries(info, c) && info.wire() == m)
            } else {
                r is None
            },
        },
{
    match decode_hw_info(encoded.as_slice()) {
        Err(e) => Some(Err(e)),
        Ok(info) => {
            let ok = match &info.inner {
                Some(i) => i.io_mac_address.len() == 6,
                None => false,
            };
            if ok {
                Some(config_from_encoded(encoded))
            } else {
                None
            }
        },
    }
}

/// A Mac's configuration built from the hardware read out of validation
/// data and the given versions, with a fresh device identifier.
pub fn config_from_validation_data<V>(inner: HardwareConfig, extra: HwExtra) -> (r: JoinedOSConfig<V>)
    ensures
        r matches JoinedOSConfig::MacOS(c) && c.inner == inner && c.version == extra.version
            && c.protocol_version == extra.protocol_version && c.device_id == extra.device_id
            && c.icloud_ua == extra.icloud_ua && c.aoskit_version == extra.aoskit_version && (
        c.udid matches Some(u) && exists|b: Seq<u8>| b.len() == 32 && u@ == upper_seq(hex_lower(b))),
{
    JoinedOSConfig::MacOS(
        MacOSConfig {
            inner,
            version: extra.version,
            protocol_version: extra.protocol_version,
            device_id: extra.device_id,
            icloud_ua: extra.icloud_ua,
            aoskit_version: extra.aoskit_version,
            udid: Some(generate_udid()),
        },
    )
}


/// A Mac's configuration whose stored record stays within 64-bit lengths.
pub open spec fn config_fits(c: MacOSConfig) -> bool {
    let m = config_wire(c);
    &&& m.version.len() <= u64::MAX
    &&& m.device_id.len() <= u64::MAX
    &&& m.icloud_ua.len() <= u64::MAX
    &&& m.aoskit_version.len() <= u64::MAX
    &&& forall|j: int| 0 <= j < 14 ==> (#[trigger] m.inner.unwrap()[j]).len() <= u64::MAX
    &&& encode_inner_wire(m.inner.unwrap()).len() <= u64::MAX
}

/// Two Mac configurations with the same hardware and versions (the device
/// identifier aside).
pub open spec fn same_hardware(a: MacOSConfig, b: MacOSConfig) -> bool {
    &&& a.inner.product_name@ == b.inner.product_name@
    &&& a.inner.io_mac_address@ == b.inner.io_mac_address@
    &&& a.inner.platform_serial_number@ == b.inner.platform_serial_number@
    &&& a.inner.platform_uuid@ == b.inner.platform_uuid@
    &&& a.inner.root_disk_uuid@ == b.inner.root_disk_uuid@
    &&& a.inner.board_id@ == b.inner.board_id@
    &&& a.inner.os_build_num@ == b.inner.os_build_num@
    &&& a.inner.platform_serial_number_enc@ == b.inner.platform_serial_number_enc@
    &&& a.inner.platform_uuid_enc@ == b.inner.platform_uuid_enc@
    &&& a.inner.root_disk_uuid_enc@ == b.inner.root_disk_uuid_enc@
    &&& a.inner.rom@ == b.inner.rom@
    &&& a.inner.rom_enc@ == b.inner.rom_enc@
    &&& a.inner.mlb@ == b.inner.mlb@
    &&& a.inner.mlb_enc@ == b.inner.mlb_enc@
    &&& a.version@ == b.version@
    &&& a.protocol_version == b.protocol_version
    &&& a.device_id@ == b.device_id@
    &&& a.icloud_ua@ == b.icloud_ua@
    &&& a.aoskit_version@ == b.aoskit_version@
}

/// A Mac's configuration stored as a record decodes back to that record,
/// from which a configuration can be rebuilt.
proof fn lemma_config_wire_roundtrip(c: MacOSConfig)
    requires
        config_fits(c),
    ensures
        decode_wire(encode_wire(config_wire(c))) == Some(config_wire(c)),
        restorable(config_wire(c)),
{
    let m = config_wire(c);
    let f = m.inner.unwrap();
    assert(inner_strings_valid(f)) by {
        assert forall|j: int| 0 <= j < 14 && is_string_tag((j + 1) as nat) implies valid_utf8(
            #[trigger] f[j],
        ) by {
            assert(j == 0 || j == 2 || j == 3 || j == 4 || j == 5 || j == 6 || j == 12);
        }
    }
    assert(wire_wf(m));
    lemma_hw_info_roundtrip(m);
}

/// Storing a Mac's configuration as a hardware-info record and rebuilding
/// a configuration from the record gives back the same hardware and
/// versions.
pub proof fn lemma_config_record_roundtrip(c: MacOSConfig, restored: MacOSConfig)
    requires
        config_fits(c),
        restored_from(restored, decode_wire(encode_wire(config_wire(c))).unwrap()),
    ensures
        decode_wire(encode_wire(config_wire(c))) == Some(config_wire(c)),
        restorable(config_wire(c)),
        same_hardware(c, restored),
{
    let m = config_wire(c);
    let f = m.inner.unwrap();
    lemma_config_wire_roundtrip(c);
    let r = config_wire(restored);
    assert(r.inner.unwrap() == f);
    assert(r.inner.unwrap()[0] == f[0]);
    assert(r.inner.unwrap()[2] == f[2]);
    assert(r.inner.unwrap()[3] == f[3]);
    assert(r.inner.unwrap()[4] == f[4]);
    assert(r.inner.unwrap()[5] == f[5]);
    assert(r.inner.unwrap()[6] == f[6]);
    assert(r.inner.unwrap()[12] == f[12]);
    assert(decode_utf8(encode_utf8(restored.inner.product_name@)) == decode_utf8(
        encode_utf8(c.inner.product_name@),
    ));
    assert(decode_utf8(encode_utf8(restored.inner.platform_serial_number@)) == decode_utf8(
        encode_utf8(c.inner.platform_serial_number@),
    ));
    assert(decode_utf8(encode_utf8(restored.inner.platform_uuid@)) == decode_utf8(
        encode_utf8(c.inner.platform_uuid@),
    ));
    assert(decode_utf8(encode_utf8(restored.inner.root_disk_uuid@)) == decode_utf8(
        encode_utf8(c.inner.root_disk_uuid@),
    ));
    assert(decode_utf8(encode_utf8(restored.inner.board_id@)) == decode_utf8(
        encode_utf8(c.inner.board_id@),
    ));
    assert(decode_utf8(encode_utf8(restored.inner.os_build_num@)) == decode_utf8(
        encode_utf8(c.inner.os_build_num@),
    ));
    assert(decode_utf8(encode_utf8(restored.inner.mlb@)) == decode_utf8(
        encode_utf8(c.inner.mlb@),
    ));
    assert(decode_utf8(encode_utf8(restored.version@)) == decode_utf8(encode_utf8(c.version@)));
    assert(decode_utf8(encode_utf8(restored.device_id@)) == decode_utf8(
        encode_utf8(c.device_id@),
    ));
    assert(decode_utf8(encode_utf8(restored.icloud_ua@)) == decode_utf8(
        encode_utf8(c.icloud_ua@),
    ));
    assert(decode_utf8(encode_utf8(restored.aoskit_version@)) == decode_utf8(
        encode_utf8(c.aoskit_version@),
    ));
}

/// Each inner field is no longer than the encoding of the fields from
/// position `k` on that holds it.
proof fn lemma_inner_records_len(f: Seq<Seq<u8>>, k: nat, j: int)
    requires
        f.len() == 14,
        k <= j < 14,
    ensures
        f[j].len() <= inner_records(f, k).len(),
    decreases 14 - k,
{
    if k < j {
        lemma_inner_records_len(f, k + 1, j);
    }
}

/// A record that was encoded into memory has lengths within 64 bits.
proof fn lemma_encoded_config_fits(c: MacOSConfig)
    requires
        encode_wire(config_wire(c)).len() <= u64::MAX,
    ensures
        config_fits(c),
{
    let m = config_wire(c);
    let f = m.inner.unwrap();
    let e = encode_inner_wire(f);
    assert(e.len() <= len_delimited_bytes(e).len());
    assert(m.version.len() <= field_record(2, m.version).len());
    assert(m.device_id.len() <= field_record(4, m.device_id).len());
    assert(m.icloud_ua.len() <= field_record(5, m.icloud_ua).len());
    assert(m.aoskit_version.len() <= field_record(6, m.aoskit_version).len());
    assert forall|j: int| 0 <= j < 14 implies (#[trigger] f[j]).len() <= u64::MAX by {
        lemma_inner_records_len(f, 0, j);
    }
}

/// What storing a Mac's configuration gives: a record that decodes back to
/// it and rebuilds a configuration with the same hardware.
pub(crate) proof fn lemma_reload(c: MacOSConfig, m: HwInfoWire, b: Seq<u8>, c2: MacOSConfig)
    requires
        m == config_wire(c),
        b == encode_wire(m),
        b.len() <= u64::MAX,
    ensures
        decode_wire(b) == Some(config_wire(c)),
        restorable(config_wire(c)),
        restored_from(c2, config_wire(c)) ==> same_hardware(c, c2),
{
    lemma_encoded_config_fits(c);
    lemma_config_wire_roundtrip(c);
    if restored_from(c2, config_wire(c)) {
        lemma_config_record_roundtrip(c, c2);
    }
}

} // verus!
