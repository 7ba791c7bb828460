//! The calls into the `prost` crate.
//!
//! Every function here hands its arguments to one function of `prost` and
//! states, over the model in [`crate::wire`], what that function does. The
//! bodies are not verified: the contracts are what the rest of the crate
//! assumes of `prost`.

use crate::wire::{
    bytes_field, bytes_value, int32_field, int32_value, key_prefix, lemma_varint_prefix_progress,
    string_field, string_value, varint_prefix, MAX_TAG, WIRE_FIXED32, WIRE_FIXED64,
    WIRE_LENGTH_DELIMITED, WIRE_START_GROUP, WIRE_VARINT,
};
use prost::encoding::{DecodeContext, WireType};
use prost::DecodeError;
use vstd::prelude::*;

verus! {

/// The error with which `prost` rejects malformed input.
#[verifier::external_type_specification]
#[verifier::external_body]
pub struct ExDecodeError(prost::DecodeError);

/// The number of bytes that `prost::encoding::skip_field` consumes when it
/// skips a group with tag `tag` whose opening key has been read and whose
/// content starts `buf`, up to and including the key that closes the group;
/// `None` where it rejects the group.
pub uninterp spec fn group_len(tag: u32, buf: Seq<u8>) -> Option<nat>;

/// What is left of `buf` once a value of wire type `wire` has been passed
/// over, where `group` is the length of the group that `buf` starts with, if
/// it starts with one.
pub open spec fn skipped_with(wire: u8, buf: Seq<u8>, group: Option<nat>) -> Option<Seq<u8>> {
    if wire == WIRE_VARINT {
        match varint_prefix(buf) {
            Some((_, rest)) => Some(rest),
            None => None,
        }
    } else if wire == WIRE_FIXED64 {
        if buf.len() >= 8 {
            Some(buf.skip(8))
        } else {
            None
        }
    } else if wire == WIRE_FIXED32 {
        if buf.len() >= 4 {
            Some(buf.skip(4))
        } else {
            None
        }
    } else if wire == WIRE_LENGTH_DELIMITED {
        match bytes_value(wire, buf) {
            Some((_, rest)) => Some(rest),
            None => None,
        }
    } else if wire == WIRE_START_GROUP {
        match group {
            Some(len) => if len <= buf.len() {
                Some(buf.skip(len as int))
            } else {
                None
            },
            None => None,
        }
    } else {
        None
    }
}

/// What is left of `buf` once the value of a field with tag `tag` and wire
/// type `wire` has been passed over.
pub open spec fn skipped(wire: u8, tag: u32, buf: Seq<u8>) -> Option<Seq<u8>> {
    skipped_with(wire, buf, group_len(tag, buf))
}

/// What is left after a value has been passed over is a suffix of the
/// buffer.
pub proof fn lemma_skipped_progress(wire: u8, tag: u32, buf: Seq<u8>)
    ensures
        skipped(wire, tag, buf) matches Some(rest) ==> rest.len() <= buf.len(),
{
    lemma_varint_prefix_progress(buf);
}

/// Whether `buf` is a sequence of well-formed fields, whatever their tags.
pub open spec fn well_formed(buf: Seq<u8>) -> bool
    decreases buf.len(),
{
    if buf.len() == 0 {
        true
    } else {
        match key_prefix(buf) {
            Some((tag, wire, after_key)) => match skipped(wire, tag, after_key) {
                Some(rest) => rest.len() < buf.len() && well_formed(rest),
                None => false,
            },
            None => false,
        }
    }
}

/// `prost::encoding::string::encode`: appends a text field, that is the
/// key, the length of the text in bytes and the text in UTF-8.
#[verifier::external_body]
pub(crate) fn put_string(tag: u32, value: &String, buf: &mut Vec<u8>)
    requires
        1 <= tag <= MAX_TAG,
    ensures
        final(buf)@ == old(buf)@ + string_field(tag, value@),
{
    prost::encoding::string::encode(tag, value, buf);
}

/// `prost::encoding::bytes::encode`: appends a length-delimited field, that
/// is the key, the length of the payload and the payload.
#[verifier::external_body]
pub(crate) fn put_bytes(tag: u32, value: &Vec<u8>, buf: &mut Vec<u8>)
    requires
        1 <= tag <= MAX_TAG,
    ensures
        final(buf)@ == old(buf)@ + bytes_field(tag, value@),
{
    prost::encoding::bytes::encode(tag, value, buf);
}

/// `prost::encoding::int32::encode`: appends a 32-bit signed field, that is
/// the key and the sign-extended value as a varint.
#[verifier::external_body]
pub(crate) fn put_int32(tag: u32, value: i32, buf: &mut Vec<u8>)
    requires
        1 <= tag <= MAX_TAG,
    ensures
        final(buf)@ == old(buf)@ + int32_field(tag, value),
{
    prost::encoding::int32::encode(tag, &value, buf);
}

/// `prost::encoding::decode_key`: reads the key at the front of `buf`.
/// Gives the tag, the number of the wire type and the bytes after the key,
/// or the error where the key is malformed.
#[verifier::external_body]
pub(crate) fn take_key<'a>(buf: &'a [u8]) -> (out: (Result<(u32, u8), DecodeError>, &'a [u8]))
    ensures
        match out.0 {
            Ok((tag, wire)) => key_prefix(buf@) == Some((tag, wire, out.1@)),
            Err(_) => key_prefix(buf@) is None,
        },
{
    let mut rest = buf;
    match prost::encoding::decode_key(&mut rest) {
        Ok((tag, wire_type)) => (Ok((tag, wire_type as u8)), rest),
        Err(error) => (Err(error), rest),
    }
}

/// `prost::encoding::string::merge`: reads the value of a text field that
/// was announced with wire type `wire`. Gives the text and the bytes after
/// it, or the error where the wire type is not the length-delimited one, the
/// length is malformed or exceeds what is left, or the payload is not UTF-8.
#[verifier::external_body]
pub(crate) fn take_string<'a>(wire: u8, buf: &'a [u8]) -> (out: (
    Result<String, DecodeError>,
    &'a [u8],
))
    ensures
        match out.0 {
            Ok(text) => string_value(wire, buf@) == Some((text@, out.1@)),
            Err(_) => string_value(wire, buf@) is None,
        },
{
    let mut rest = buf;
    let mut text = String::new();
    let context = DecodeContext::default();
    match WireType::try_from(u64::from(wire)) {
        Ok(wire_type) => {
            match prost::encoding::string::merge(wire_type, &mut text, &mut rest, context) {
                Ok(_) => (Ok(text), rest),
                Err(error) => (Err(error), rest),
            }
        },
        Err(error) => (Err(error), rest),
    }
}

/// `prost::encoding::bytes::merge`: reads the value of a length-delimited
/// field that was announced with wire type `wire`. Gives the payload and the
/// bytes after it, or the error where the wire type is another, or the
/// length is malformed or exceeds what is left.
#[verifier::external_body]
pub(crate) fn take_bytes<'a>(wire: u8, buf: &'a [u8]) -> (out: (
    Result<Vec<u8>, DecodeError>,
    &'a [u8],
))
    ensures
        match out.0 {
            Ok(payload) => bytes_value(wire, buf@) == Some((payload@, out.1@)),
            Err(_) => bytes_value(wire, buf@) is None,
        },
{
    let mut rest = buf;
    let mut payload: Vec<u8> = Vec::new();
    let context = DecodeContext::default();
    match WireType::try_from(u64::from(wire)) {
        Ok(wire_type) => {
            match prost::encoding::bytes::merge(wire_type, &mut payload, &mut rest, context) {
                Ok(_) => (Ok(payload), rest),
                Err(error) => (Err(error), rest),
            }
        },
        Err(error) => (Err(error), rest),
    }
}

/// `prost::encoding::int32::merge`: reads the value of a 32-bit signed
/// field that was announced with wire type `wire`. Gives the low 32 bits of
/// the varint and the bytes after it, or the error where the wire type is
/// not the varint one or the varint is malformed.
#[verifier::external_body]
pub(crate) fn take_int32<'a>(wire: u8, buf: &'a [u8]) -> (out: (
    Result<i32, DecodeError>,
    &'a [u8],
))
    ensures
        match out.0 {
            Ok(value) => int32_value(wire, buf@) == Some((value, out.1@)),
            Err(_) => int32_value(wire, buf@) is None,
        },
{
    let mut rest = buf;
    let mut value: i32 = 0;
    let context = DecodeContext::default();
    match WireType::try_from(u64::from(wire)) {
        Ok(wire_type) => {
            match prost::encoding::int32::merge(wire_type, &mut value, &mut rest, context) {
                Ok(_) => (Ok(value), rest),
                Err(error) => (Err(error), rest),
            }
        },
        Err(error) => (Err(error), rest),
    }
}

/// `prost::encoding::skip_field`: passes over the value of a field with tag
/// `tag` that was announced with wire type `wire`. Gives the bytes after the
/// value, or the error where the value is malformed or cut short.
#[verifier::external_body]
pub(crate) fn skip_value<'a>(wire: u8, tag: u32, buf: &'a [u8]) -> (out: (
    Result<(), DecodeError>,
    &'a [u8],
))
    ensures
        match out.0 {
            Ok(_) => skipped_with(wire, buf@, group_len(tag, buf@)) == Some(out.1@),
            Err(_) => skipped_with(wire, buf@, group_len(tag, buf@)) is None,
        },
{
    let mut rest = buf;
    let context = DecodeContext::default();
    match WireType::try_from(u64::from(wire)) {
        Ok(wire_type) => (prost::encoding::skip_field(wire_type, tag, &mut rest, context), rest),
        Err(error) => (Err(error), rest),
    }
}

/// `prost::Message::decode` for `()`, the message without fields: accepts
/// `buf` where it is a sequence of well-formed fields, which it skips.
#[verifier::external_body]
pub(crate) fn decode_unit(buf: &[u8]) -> (result: Result<(), DecodeError>)
    ensures
        result is Ok <==> well_formed(buf@),
{
    <() as prost::Message>::decode(buf)
}

/// The text with which a `prost::DecodeError` describes itself.
#[verifier::external_body]
pub(crate) fn describe(error: &DecodeError) -> String {
    error.to_string()
}

} // verus!
