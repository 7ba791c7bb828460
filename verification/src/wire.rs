//! The binary wire format, as a mathematical model.
//!
//! A message is a sequence of fields. Each field starts with a key, a varint
//! that holds the field's tag and its wire type, followed by the value in the
//! layout that the wire type names.

use vstd::prelude::*;
use vstd::utf8::*;

verus! {

/// Wire type of a value encoded as one varint.
pub const WIRE_VARINT: u8 = 0;

/// Wire type of a value encoded in eight bytes.
pub const WIRE_FIXED64: u8 = 1;

/// Wire type of a value encoded as a varint length and that many bytes.
pub const WIRE_LENGTH_DELIMITED: u8 = 2;

/// Wire type of the key that opens a group.
pub const WIRE_START_GROUP: u8 = 3;

/// Wire type of the key that closes a group.
pub const WIRE_END_GROUP: u8 = 4;

/// Wire type of a value encoded in four bytes.
pub const WIRE_FIXED32: u8 = 5;

/// The largest tag a field can have.
pub const MAX_TAG: u32 = 0x1FFF_FFFF;

/// The longest encoding of a varint, in bytes.
pub const MAX_VARINT_LEN: u8 = 10;

/// The bytes of `value` as a varint: seven bits per byte, least significant
/// group first, the high bit set on every byte but the last.
pub open spec fn varint(value: nat) -> Seq<u8>
    decreases value,
{
    if value < 128 {
        seq![value as u8]
    } else {
        seq![(128 + value % 128) as u8] + varint(value / 128)
    }
}

/// Reads a varint from the front of `buf` when at most `room` bytes may still
/// belong to it. Gives the value and the number of bytes read.
///
/// The tenth byte of a varint may only hold the top bit of a 64-bit value.
pub open spec fn varint_scan(buf: Seq<u8>, room: nat) -> Option<(nat, nat)>
    decreases room,
{
    if room == 0 || buf.len() == 0 {
        None
    } else if buf[0] < 128 {
        if room == 1 && buf[0] >= 2 {
            None
        } else {
            Some((buf[0] as nat, 1))
        }
    } else {
        match varint_scan(buf.skip(1), (room - 1) as nat) {
            Some((high, count)) => Some(((buf[0] - 128 + 128 * high) as nat, count + 1)),
            None => None,
        }
    }
}

/// Splits `buf` into the varint at its front and what follows it.
pub open spec fn varint_prefix(buf: Seq<u8>) -> Option<(nat, Seq<u8>)> {
    match varint_scan(buf, MAX_VARINT_LEN as nat) {
        Some((value, count)) => Some((value, buf.skip(count as int))),
        None => None,
    }
}

/// The key of a field: its tag and wire type in one varint.
pub open spec fn key(tag: u32, wire: u8) -> Seq<u8> {
    varint((tag * 8 + wire) as nat)
}

/// Splits `buf` into the tag and wire type of the key at its front and what
/// follows the key. A key must fit in 32 bits, name one of the six wire
/// types and carry a tag other than zero.
pub open spec fn key_prefix(buf: Seq<u8>) -> Option<(u32, u8, Seq<u8>)> {
    match varint_prefix(buf) {
        Some((value, rest)) => if value <= u32::MAX && value % 8 <= 5 && value / 8 >= 1 {
            Some(((value / 8) as u32, (value % 8) as u8, rest))
        } else {
            None
        },
        None => None,
    }
}

/// The number that stands for a 32-bit signed value on the wire: the value
/// sign-extended to 64 bits.
pub open spec fn int32_to_wire(value: i32) -> nat {
    if value >= 0 {
        value as nat
    } else {
        (value + 0x1_0000_0000_0000_0000) as nat
    }
}

/// The 32-bit signed value that a number on the wire stands for: its low 32
/// bits in two's complement.
pub open spec fn int32_from_wire(number: nat) -> i32 {
    let low = number % 0x1_0000_0000;
    if low < 0x8000_0000 {
        low as i32
    } else {
        (low - 0x1_0000_0000) as i32
    }
}

/// A length-delimited field: key, length of the payload, payload.
pub open spec fn bytes_field(tag: u32, payload: Seq<u8>) -> Seq<u8> {
    key(tag, WIRE_LENGTH_DELIMITED) + varint(payload.len()) + payload
}

/// A text field: a length-delimited field that holds the text in UTF-8.
pub open spec fn string_field(tag: u32, text: Seq<char>) -> Seq<u8> {
    bytes_field(tag, encode_utf8(text))
}

/// A 32-bit signed field: key, then the value as a varint.
pub open spec fn int32_field(tag: u32, value: i32) -> Seq<u8> {
    key(tag, WIRE_VARINT) + varint(int32_to_wire(value))
}

/// A text field as it is written for a field that is absent when empty.
pub open spec fn text_field(tag: u32, text: Seq<char>) -> Seq<u8> {
    if text.len() > 0 {
        string_field(tag, text)
    } else {
        Seq::empty()
    }
}

/// A length-delimited field as it is written for a field that is absent
/// when empty.
pub open spec fn blob_field(tag: u32, payload: Seq<u8>) -> Seq<u8> {
    if payload.len() > 0 {
        bytes_field(tag, payload)
    } else {
        Seq::empty()
    }
}

/// A 32-bit signed field as it is written for a field that is absent when
/// zero.
pub open spec fn number_field(tag: u32, value: i32) -> Seq<u8> {
    if value != 0 {
        int32_field(tag, value)
    } else {
        Seq::empty()
    }
}

/// A 32-bit signed field that is written where a value is present.
pub open spec fn optional_int32_field(tag: u32, value: Option<i32>) -> Seq<u8> {
    match value {
        Some(value) => int32_field(tag, value),
        None => Seq::empty(),
    }
}

/// A text field that is written where a text is present.
pub open spec fn optional_string_field(tag: u32, text: Option<Seq<char>>) -> Seq<u8> {
    match text {
        Some(text) => string_field(tag, text),
        None => Seq::empty(),
    }
}

/// A length-delimited field that is written where a payload is present.
pub open spec fn optional_bytes_field(tag: u32, payload: Option<Seq<u8>>) -> Seq<u8> {
    match payload {
        Some(payload) => bytes_field(tag, payload),
        None => Seq::empty(),
    }
}

/// Reads the value of a length-delimited field that was announced with wire
/// type `wire`. Gives the payload and what follows it.
pub open spec fn bytes_value(wire: u8, buf: Seq<u8>) -> Option<(Seq<u8>, Seq<u8>)> {
    if wire != WIRE_LENGTH_DELIMITED {
        None
    } else {
        match varint_prefix(buf) {
            Some((len, rest)) => if len <= rest.len() {
                Some((rest.take(len as int), rest.skip(len as int)))
            } else {
                None
            },
            None => None,
        }
    }
}

/// Reads the value of a text field: a length-delimited value whose payload
/// is valid UTF-8.
pub open spec fn string_value(wire: u8, buf: Seq<u8>) -> Option<(Seq<char>, Seq<u8>)> {
    match bytes_value(wire, buf) {
        Some((payload, rest)) => if valid_utf8(payload) {
            Some((decode_utf8(payload), rest))
        } else {
            None
        },
        None => None,
    }
}

/// Reads the value of a 32-bit signed field that was announced with wire
/// type `wire`.
pub open spec fn int32_value(wire: u8, buf: Seq<u8>) -> Option<(i32, Seq<u8>)> {
    if wire != WIRE_VARINT {
        None
    } else {
        match varint_prefix(buf) {
            Some((number, rest)) => Some((int32_from_wire(number), rest)),
            None => None,
        }
    }
}

/// The bound below which a value can be read back with `room` bytes left.
pub open spec fn varint_limit(room: nat) -> nat
    decreases room,
{
    if room <= 1 {
        2
    } else {
        128 * varint_limit((room - 1) as nat)
    }
}

/// With ten bytes of room every 64-bit value can be read back.
pub proof fn lemma_varint_limit_u64()
    ensures
        varint_limit(MAX_VARINT_LEN as nat) == 0x1_0000_0000_0000_0000,
{
    reveal_with_fuel(varint_limit, 11);
}

/// A varint is never empty.
pub proof fn lemma_varint_len(value: nat)
    ensures
        varint(value).len() >= 1,
    decreases value,
{
    if value >= 128 {
        lemma_varint_len(value / 128);
    }
}

/// Scanning the encoding of a value reads the value back and stops where
/// the encoding ends, whatever follows it.
pub proof fn lemma_varint_scan(value: nat, tail: Seq<u8>, room: nat)
    requires
        room >= 1,
        value < varint_limit(room),
    ensures
        varint_scan(varint(value) + tail, room) == Some((value, varint(value).len())),
    decreases value,
{
    let buf = varint(value) + tail;
    lemma_varint_len(value);
    if value < 128 {
        assert(buf[0] == value as u8);
        if room == 1 {
            assert(value < 2);
        }
    } else {
        assert(room >= 2) by {
            if room == 1 {
                assert(varint_limit(1) == 2);
            }
        }
        let high = value / 128;
        assert(high < varint_limit((room - 1) as nat)) by {
            assert(varint_limit(room) == 128 * varint_limit((room - 1) as nat));
        }
        lemma_varint_scan(high, tail, (room - 1) as nat);
        assert(buf[0] == (128 + value % 128) as u8);
        assert(buf.skip(1) =~= varint(high) + tail);
        assert(varint(value).len() == varint(high).len() + 1);
    }
}

/// A varint that is read consumes at least one byte and at most the buffer.
pub proof fn lemma_varint_scan_count(buf: Seq<u8>, room: nat)
    ensures
        varint_scan(buf, room) matches Some((value, count)) ==> 1 <= count <= buf.len() && count
            <= room && value < varint_limit(room),
    decreases room,
{
    if room == 0 || buf.len() == 0 {
    } else if buf[0] < 128 {
        if room > 1 {
            lemma_varint_limit_grows(room);
        }
    } else {
        lemma_varint_scan_count(buf.skip(1), (room - 1) as nat);
        if room == 1 {
            assert(varint_scan(buf.skip(1), 0) is None);
        }
    }
}

/// With more than one byte of room the bound is at least 256.
pub proof fn lemma_varint_limit_grows(room: nat)
    ensures
        room >= 1 ==> varint_limit(room) >= 2,
        room >= 2 ==> varint_limit(room) >= 256,
    decreases room,
{
    if room >= 2 {
        lemma_varint_limit_grows((room - 1) as nat);
    }
}

/// Reading the encoding of a 64-bit value gives the value and leaves what
/// followed it.
pub proof fn lemma_varint_prefix(value: u64, tail: Seq<u8>)
    ensures
        varint_prefix(varint(value as nat) + tail) == Some((value as nat, tail)),
{
    lemma_varint_limit_u64();
    lemma_varint_scan(value as nat, tail, MAX_VARINT_LEN as nat);
    let buf = varint(value as nat) + tail;
    assert(buf.skip(varint(value as nat).len() as int) =~= tail);
}

/// What is left after a varint is a proper suffix of the buffer, and the
/// value fits in 64 bits.
pub proof fn lemma_varint_prefix_progress(buf: Seq<u8>)
    ensures
        varint_prefix(buf) matches Some((value, rest)) ==> rest.len() < buf.len() && value
            <= u64::MAX && rest == buf.skip(buf.len() - rest.len()),
{
    lemma_varint_limit_u64();
    lemma_varint_scan_count(buf, MAX_VARINT_LEN as nat);
}

/// Reading a key gives back its tag and wire type and leaves what followed.
pub proof fn lemma_key_prefix(tag: u32, wire: u8, tail: Seq<u8>)
    requires
        1 <= tag <= MAX_TAG,
        wire <= 5,
    ensures
        key_prefix(key(tag, wire) + tail) == Some((tag, wire, tail)),
{
    let number = (tag * 8 + wire) as u64;
    lemma_varint_prefix(number, tail);
}

/// What is left after a key is a proper suffix of the buffer.
pub proof fn lemma_key_prefix_progress(buf: Seq<u8>)
    ensures
        key_prefix(buf) matches Some((tag, wire, rest)) ==> rest.len() < buf.len() && 1 <= tag
            <= MAX_TAG && wire <= 5,
{
    lemma_varint_prefix_progress(buf);
}

/// Reading a length-delimited value gives back its payload.
pub proof fn lemma_bytes_value(payload: Seq<u8>, tail: Seq<u8>)
    requires
        payload.len() <= u64::MAX,
    ensures
        bytes_value(WIRE_LENGTH_DELIMITED, varint(payload.len()) + payload + tail) == Some(
            (payload, tail),
        ),
{
    let buf = varint(payload.len()) + payload + tail;
    assert(buf =~= varint(payload.len()) + (payload + tail));
    lemma_varint_prefix(payload.len() as u64, payload + tail);
    assert((payload + tail).take(payload.len() as int) =~= payload);
    assert((payload + tail).skip(payload.len() as int) =~= tail);
}

/// Reading a text value gives back the text.
pub proof fn lemma_string_value(text: Seq<char>, tail: Seq<u8>)
    requires
        encode_utf8(text).len() <= u64::MAX,
    ensures
        string_value(
            WIRE_LENGTH_DELIMITED,
            varint(encode_utf8(text).len()) + encode_utf8(text) + tail,
        ) == Some((text, tail)),
{
    lemma_bytes_value(encode_utf8(text), tail);
    encode_utf8_valid_utf8(text);
    encode_utf8_decode_utf8(text);
}

/// A 32-bit signed value survives the trip through its wire number.
pub proof fn lemma_int32_wire(value: i32)
    ensures
        int32_to_wire(value) <= u64::MAX,
        int32_from_wire(int32_to_wire(value)) == value,
{
}

/// Reading a 32-bit signed value gives back the value.
pub proof fn lemma_int32_value(value: i32, tail: Seq<u8>)
    ensures
        int32_value(WIRE_VARINT, varint(int32_to_wire(value)) + tail) == Some((value, tail)),
{
    lemma_int32_wire(value);
    lemma_varint_prefix(int32_to_wire(value) as u64, tail);
}

/// What is left after a field's value is a suffix of the buffer.
pub proof fn lemma_value_progress(wire: u8, buf: Seq<u8>)
    ensures
        bytes_value(wire, buf) matches Some((payload, rest)) ==> rest.len() < buf.len(),
        string_value(wire, buf) matches Some((text, rest)) ==> rest.len() < buf.len(),
        int32_value(wire, buf) matches Some((value, rest)) ==> rest.len() < buf.len(),
{
    lemma_varint_prefix_progress(buf);
}

} // verus!
