//! Messages: values that are sent and received as sequences of fields.

use crate::encoding::take_key;
use crate::wire::{
    bytes_field, bytes_value, int32_field, int32_to_wire, int32_value, key, key_prefix,
    lemma_bytes_value, lemma_int32_value, lemma_key_prefix, lemma_key_prefix_progress,
    lemma_string_value, lemma_varint_len, lemma_varint_prefix, string_field, string_value, varint,
    MAX_TAG, WIRE_LENGTH_DELIMITED, WIRE_VARINT,
};
use prost::DecodeError;
use vstd::prelude::*;
use vstd::utf8::encode_utf8;

verus! {

/// A message of the wire format: a value that can be written as bytes and
/// read back from bytes.
pub trait Message: View + Sized {
    /// The bytes that a value is written as.
    spec fn encoded(value: Self::V) -> Seq<u8>;

    /// The value that `buf` holds; `None` where `buf` is malformed.
    spec fn parsed(buf: Seq<u8>) -> Option<Self::V>;

    /// Whether every length in the value fits in 64 bits, as it does for
    /// every value that a machine can hold.
    spec fn bounded(value: Self::V) -> bool;

    /// Writing a value and reading the bytes back gives the value.
    proof fn lemma_round_trip(value: Self::V)
        requires
            Self::bounded(value),
        ensures
            Self::parsed(Self::encoded(value)) == Some(value),
    ;

    /// Appends the message to `buf`.
    fn encode_raw(&self, buf: &mut Vec<u8>)
        ensures
            final(buf)@ == old(buf)@ + Self::encoded(self@),
    ;

    /// The message as bytes.
    fn encode_to_vec(&self) -> (bytes: Vec<u8>)
        ensures
            bytes@ == Self::encoded(self@),
    {
        let mut bytes: Vec<u8> = Vec::new();
        self.encode_raw(&mut bytes);
        assert(bytes@ =~= Self::encoded(self@));
        bytes
    }

    /// Reads a message from `buf`, all of which must belong to it.
    fn decode(buf: &[u8]) -> (result: Result<Self, DecodeError>)
        ensures
            match result {
                Ok(message) => Self::parsed(buf@) == Some(message@),
                Err(_) => Self::parsed(buf@) is None,
            },
    ;
}

/// A message that is read field by field.
///
/// A type states what a single field does to a value that is being read
/// (`merged`). Reading a whole buffer, [`merge_all`], applies the fields one
/// after the other, so that of two fields with one tag the later one wins.
pub trait Fields: View + Sized {
    /// The value of a message none of whose fields has been set.
    spec fn blank() -> Self::V;

    /// The value after the field with tag `tag`, announced with wire type
    /// `wire`, has been read from the front of `buf`, and what is left of
    /// `buf`; `None` where the field is malformed.
    spec fn merged(value: Self::V, tag: u32, wire: u8, buf: Seq<u8>) -> Option<(Self::V, Seq<u8>)>;

    /// A message none of whose fields has been set.
    fn new() -> (message: Self)
        ensures
            message@ == Self::blank(),
    ;

    /// Reads the value of one field, whose key has been read, from the front
    /// of `buf` into the message. Gives the message and what is left of
    /// `buf`.
    fn merge_field<'a>(self, tag: u32, wire: u8, buf: &'a [u8]) -> (out: Result<
        (Self, &'a [u8]),
        DecodeError,
    >)
        ensures
            match out {
                Ok((message, rest)) => Self::merged(self@, tag, wire, buf@) == Some(
                    (message@, rest@),
                ) && rest@.len() <= buf@.len(),
                Err(_) => Self::merged(self@, tag, wire, buf@) is None,
            },
    ;
}

/// Reads all of `buf`, field by field, into `message`.
pub fn merge<M: Fields>(message: M, buf: &[u8]) -> (result: Result<M, DecodeError>)
    ensures
        match result {
            Ok(merged) => merge_all::<M>(message@, buf@) == Some(merged@),
            Err(_) => merge_all::<M>(message@, buf@) is None,
        },
{
    let mut current = message;
    let mut rest = buf;
    while rest.len() > 0
        invariant
            merge_all::<M>(message@, buf@) == merge_all::<M>(current@, rest@),
        decreases rest.len(),
    {
        proof {
            lemma_key_prefix_progress(rest@);
        }
        let (key, after_key) = take_key(rest);
        let (tag, wire) = match key {
            Ok(pair) => pair,
            Err(error) => {
                return Err(error);
            },
        };
        match current.merge_field(tag, wire, after_key) {
            Ok((next, after_field)) => {
                current = next;
                rest = after_field;
            },
            Err(error) => {
                return Err(error);
            },
        }
    }
    Ok(current)
}

/// The value after all the fields in `buf` have been read into `value`, one
/// after the other; `None` where a key or a field is malformed.
pub open spec fn merge_all<M: Fields>(value: M::V, buf: Seq<u8>) -> Option<M::V>
    decreases buf.len(),
{
    if buf.len() == 0 {
        Some(value)
    } else {
        match key_prefix(buf) {
            Some((tag, wire, after_key)) => match M::merged(value, tag, wire, after_key) {
                Some((next, rest)) => if rest.len() < buf.len() {
                    merge_all::<M>(next, rest)
                } else {
                    None
                },
                None => None,
            },
            None => None,
        }
    }
}

/// The value that `buf` holds: its fields read into a blank message.
pub open spec fn parse<M: Fields>(buf: Seq<u8>) -> Option<M::V> {
    merge_all::<M>(M::blank(), buf)
}

/// Reading a buffer that starts with a field amounts to reading what follows
/// the field into the value that the field gives.
pub proof fn lemma_merge_field<M: Fields>(
    value: M::V,
    tag: u32,
    wire: u8,
    body: Seq<u8>,
    tail: Seq<u8>,
    next: M::V,
)
    requires
        1 <= tag <= MAX_TAG,
        wire <= 5,
        M::merged(value, tag, wire, body + tail) == Some((next, tail)),
    ensures
        merge_all::<M>(value, key(tag, wire) + body + tail) == merge_all::<M>(next, tail),
{
    let buf = key(tag, wire) + body + tail;
    assert(buf =~= key(tag, wire) + (body + tail));
    lemma_key_prefix(tag, wire, body + tail);
    lemma_varint_len((tag * 8 + wire) as nat);
}

/// Reading a buffer that starts with a text field amounts to reading what
/// follows the field into the value with that text.
pub proof fn lemma_merge_string<M: Fields>(
    value: M::V,
    tag: u32,
    text: Seq<char>,
    tail: Seq<u8>,
    next: M::V,
)
    requires
        1 <= tag <= MAX_TAG,
        encode_utf8(text).len() <= u64::MAX,
        forall|buf: Seq<u8>|
            string_value(WIRE_LENGTH_DELIMITED, buf) == Some((text, tail)) ==> #[trigger] M::merged(
                value,
                tag,
                WIRE_LENGTH_DELIMITED,
                buf,
            ) == Some((next, tail)),
    ensures
        merge_all::<M>(value, string_field(tag, text) + tail) == merge_all::<M>(next, tail),
{
    let body = varint(encode_utf8(text).len()) + encode_utf8(text);
    lemma_string_value(text, tail);
    lemma_merge_field::<M>(value, tag, WIRE_LENGTH_DELIMITED, body, tail, next);
    assert(string_field(tag, text) + tail =~= key(tag, WIRE_LENGTH_DELIMITED) + body + tail);
}

/// Reading a buffer that starts with a length-delimited field amounts to
/// reading what follows the field into the value with that payload.
pub proof fn lemma_merge_bytes<M: Fields>(
    value: M::V,
    tag: u32,
    payload: Seq<u8>,
    tail: Seq<u8>,
    next: M::V,
)
    requires
        1 <= tag <= MAX_TAG,
        payload.len() <= u64::MAX,
        forall|buf: Seq<u8>|
            bytes_value(WIRE_LENGTH_DELIMITED, buf) == Some((payload, tail))
                ==> #[trigger] M::merged(value, tag, WIRE_LENGTH_DELIMITED, buf) == Some(
                (next, tail),
            ),
    ensures
        merge_all::<M>(value, bytes_field(tag, payload) + tail) == merge_all::<M>(next, tail),
{
    let body = varint(payload.len()) + payload;
    lemma_bytes_value(payload, tail);
    lemma_merge_field::<M>(value, tag, WIRE_LENGTH_DELIMITED, body, tail, next);
    assert(bytes_field(tag, payload) + tail =~= key(tag, WIRE_LENGTH_DELIMITED) + body + tail);
}

/// Reading a buffer that starts with a 32-bit signed field amounts to
/// reading what follows the field into the value with that number.
pub proof fn lemma_merge_int32<M: Fields>(
    value: M::V,
    tag: u32,
    number: i32,
    tail: Seq<u8>,
    next: M::V,
)
    requires
        1 <= tag <= MAX_TAG,
        forall|buf: Seq<u8>|
            int32_value(WIRE_VARINT, buf) == Some((number, tail)) ==> #[trigger] M::merged(
                value,
                tag,
                WIRE_VARINT,
                buf,
            ) == Some((next, tail)),
    ensures
        merge_all::<M>(value, int32_field(tag, number) + tail) == merge_all::<M>(next, tail),
{
    let body = varint(int32_to_wire(number));
    lemma_int32_value(number, tail);
    lemma_merge_field::<M>(value, tag, WIRE_VARINT, body, tail, next);
    assert(int32_field(tag, number) + tail =~= key(tag, WIRE_VARINT) + body + tail);
}

/// A buffer that ends in a length-delimited field whose last byte has been
/// cut off is rejected.
pub proof fn lemma_cut_field<M: Fields>(value: M::V, tag: u32, payload: Seq<u8>)
    requires
        1 <= tag <= MAX_TAG,
        0 < payload.len() <= u64::MAX,
        forall|buf: Seq<u8>|
            bytes_value(WIRE_LENGTH_DELIMITED, buf) is None ==> #[trigger] M::merged(
                value,
                tag,
                WIRE_LENGTH_DELIMITED,
                buf,
            ) is None,
    ensures
        merge_all::<M>(value, bytes_field(tag, payload).drop_last()) is None,
{
    let cut = payload.drop_last();
    let body = varint(payload.len()) + cut;
    let buf = bytes_field(tag, payload).drop_last();
    assert(buf =~= key(tag, WIRE_LENGTH_DELIMITED) + body);
    lemma_key_prefix(tag, WIRE_LENGTH_DELIMITED, body);
    lemma_varint_prefix(payload.len() as u64, cut);
    lemma_varint_len((tag * 8 + WIRE_LENGTH_DELIMITED) as nat);
}

} // verus!
