//! One field of a message on the wire: a key and the value behind it.
//!
//! A decoder walks a message field by field. Fields that it does not know are
//! stepped over, so that a newer peer can add fields without breaking it.

use vstd::prelude::*;
use vstd::slice::slice_subrange;
use crate::error::ProtocolError;
use crate::wire::{
    decode_key, decode_varint, lemma_parse_key_bounds, lemma_parse_varint_bounds, parse_key,
    parse_varint, Scanned, WireType, MAX_TAG, MIN_TAG,
};

verus! {

/// How deep groups may nest inside a message before it is given up as malformed.
pub const RECURSION_LIMIT: u32 = 100;

/// The value of a field, as far as any message of this protocol reads it.
pub enum FieldValue {
    Varint(nat),
    SixtyFourBit,
    LengthDelimited(Seq<u8>),
    Group,
    ThirtyTwoBit,
}

/// A field: its number and its value.
pub struct Field {
    pub tag: nat,
    pub value: FieldValue,
}

/// The value of wire type `wire_type` at the front of `bytes`, for the field
/// numbered `tag`. `depth` is the number of levels that are left for groups to
/// nest in; with none left, nothing is read.
pub open spec fn parse_value(wire_type: WireType, tag: nat, bytes: Seq<u8>, depth: nat) -> Option<
    Scanned<FieldValue>,
>
    decreases depth, bytes.len(),
{
    if depth == 0 {
        None
    } else {
        match wire_type {
            WireType::Varint => match parse_varint(bytes) {
                Some(number) => Some(
                    Scanned { value: FieldValue::Varint(number.value), len: number.len },
                ),
                None => None,
            },
            WireType::SixtyFourBit => if bytes.len() >= 8 {
                Some(Scanned { value: FieldValue::SixtyFourBit, len: 8 })
            } else {
                None
            },
            WireType::LengthDelimited => match parse_varint(bytes) {
                Some(size) => if size.value <= bytes.len() - size.len {
                    Some(
                        Scanned {
                            value: FieldValue::LengthDelimited(
                                bytes.subrange(size.len as int, (size.len + size.value) as int),
                            ),
                            len: size.len + size.value,
                        },
                    )
                } else {
                    None
                },
                None => None,
            },
            WireType::StartGroup => match parse_group(tag, bytes, (depth - 1) as nat) {
                Some(len) => Some(Scanned { value: FieldValue::Group, len }),
                None => None,
            },
            WireType::EndGroup => None,
            WireType::ThirtyTwoBit => if bytes.len() >= 4 {
                Some(Scanned { value: FieldValue::ThirtyTwoBit, len: 4 })
            } else {
                None
            },
        }
    }
}

/// The number of bytes from the front of `bytes` to the end of the key that
/// closes the group numbered `tag`: any fields, then an end-group key with
/// the same number.
pub open spec fn parse_group(tag: nat, bytes: Seq<u8>, depth: nat) -> Option<nat>
    decreases depth, bytes.len(),
{
    match parse_key(bytes) {
        None => None,
        Some(key) => {
            if key.value.wire_type == WireType::EndGroup {
                if key.value.tag == tag {
                    Some(key.len)
                } else {
                    None
                }
            } else {
                proof {
                    lemma_parse_key_bounds(bytes);
                }
                match parse_value(
                    key.value.wire_type,
                    key.value.tag,
                    bytes.skip(key.len as int),
                    depth,
                ) {
                    None => None,
                    Some(inner) => if key.len + inner.len <= bytes.len() {
                        match parse_group(tag, bytes.skip((key.len + inner.len) as int), depth) {
                            Some(more) => Some(key.len + inner.len + more),
                            None => None,
                        }
                    } else {
                        None
                    },
                }
            }
        },
    }
}

/// The field at the front of `bytes`.
pub open spec fn parse_field(bytes: Seq<u8>, depth: nat) -> Option<Scanned<Field>> {
    match parse_key(bytes) {
        None => None,
        Some(key) => match parse_value(
            key.value.wire_type,
            key.value.tag,
            bytes.skip(key.len as int),
            depth,
        ) {
            None => None,
            Some(inner) => Some(
                Scanned {
                    value: Field { tag: key.value.tag, value: inner.value },
                    len: key.len + inner.len,
                },
            ),
        },
    }
}

/// A value never runs past the end of the input it was read from.
pub proof fn lemma_parse_value_bounds(wire_type: WireType, tag: nat, bytes: Seq<u8>, depth: nat)
    requires
        parse_value(wire_type, tag, bytes, depth) is Some,
    ensures
        parse_value(wire_type, tag, bytes, depth)->0.len <= bytes.len(),
    decreases depth, bytes.len(), 0nat,
{
    match wire_type {
        WireType::Varint => lemma_parse_varint_bounds(bytes),
        WireType::LengthDelimited => lemma_parse_varint_bounds(bytes),
        WireType::StartGroup => lemma_parse_group_bounds(tag, bytes, (depth - 1) as nat),
        _ => {},
    }
}

/// A group never runs past the end of the input either, and is not empty.
pub proof fn lemma_parse_group_bounds(tag: nat, bytes: Seq<u8>, depth: nat)
    requires
        parse_group(tag, bytes, depth) is Some,
    ensures
        1 <= parse_group(tag, bytes, depth)->0 <= bytes.len(),
    decreases depth, bytes.len(), 1nat,
{
    lemma_parse_key_bounds(bytes);
    let key = parse_key(bytes)->0;
    if key.value.wire_type != WireType::EndGroup {
        let inner = parse_value(
            key.value.wire_type,
            key.value.tag,
            bytes.skip(key.len as int),
            depth,
        )->0;
        lemma_parse_group_bounds(tag, bytes.skip((key.len + inner.len) as int), depth);
    }
}

/// A field takes at least the byte of its key, and none beyond the end of the input.
pub proof fn lemma_parse_field_bounds(bytes: Seq<u8>, depth: nat)
    requires
        parse_field(bytes, depth) is Some,
    ensures
        1 <= parse_field(bytes, depth)->0.len <= bytes.len(),
        MIN_TAG <= parse_field(bytes, depth)->0.value.tag <= MAX_TAG,
{
    lemma_parse_key_bounds(bytes);
    let key = parse_key(bytes)->0;
    lemma_parse_value_bounds(
        key.value.wire_type,
        key.value.tag,
        bytes.skip(key.len as int),
        depth,
    );
}

/// The value of a field as the decoder holds it: a number, or the bytes of a
/// length-delimited value, borrowed from the input.
#[derive(Clone, Copy, Debug)]
pub enum FieldData<'a> {
    Varint(u64),
    SixtyFourBit,
    LengthDelimited(&'a [u8]),
    Group,
    ThirtyTwoBit,
}

impl<'a> View for FieldData<'a> {
    type V = FieldValue;

    open spec fn view(&self) -> FieldValue {
        match *self {
            FieldData::Varint(number) => FieldValue::Varint(number as nat),
            FieldData::SixtyFourBit => FieldValue::SixtyFourBit,
            FieldData::LengthDelimited(body) => FieldValue::LengthDelimited(body@),
            FieldData::Group => FieldValue::Group,
            FieldData::ThirtyTwoBit => FieldValue::ThirtyTwoBit,
        }
    }
}

/// Reads the value of a field whose key said `wire_type` and `tag`.
fn read_value<'a>(wire_type: WireType, tag: u32, buf: &'a [u8], depth: u32) -> (result: Result<
    (FieldData<'a>, &'a [u8]),
    ProtocolError,
>)
    ensures
        match result {
            Ok((data, rest)) => parse_value(wire_type, tag as nat, buf@, depth as nat) matches Some(
                found,
            ) && data@ == found.value && found.len <= buf@.len() && rest@ == buf@.skip(
                found.len as int,
            ),
            Err(error) => error == ProtocolError::MalformedMessage && parse_value(
                wire_type,
                tag as nat,
                buf@,
                depth as nat,
            ) is None,
        },
    decreases depth, 0nat,
{
    if depth == 0 {
        return Err(ProtocolError::MalformedMessage);
    }
    match wire_type {
        WireType::Varint => match decode_varint(buf) {
            Ok((number, rest)) => {
                proof {
                    lemma_parse_varint_bounds(buf@);
                }
                Ok((FieldData::Varint(number), rest))
            },
            Err(_) => Err(ProtocolError::MalformedMessage),
        },
        WireType::SixtyFourBit => if buf.len() >= 8 {
            Ok((FieldData::SixtyFourBit, slice_subrange(buf, 8, buf.len())))
        } else {
            Err(ProtocolError::MalformedMessage)
        },
        WireType::LengthDelimited => match decode_varint(buf) {
            Ok((size, rest)) => {
                proof {
                    lemma_parse_varint_bounds(buf@);
                }
                if size <= rest.len() as u64 {
                    let size = size as usize;
                    let body = slice_subrange(rest, 0, size);
                    let after = slice_subrange(rest, size, rest.len());
                    proof {
                        let found = parse_varint(buf@)->0;
                        assert(body@ =~= buf@.subrange(
                            found.len as int,
                            (found.len + found.value) as int,
                        ));
                        assert(after@ =~= buf@.skip((found.len + found.value) as int));
                    }
                    Ok((FieldData::LengthDelimited(body), after))
                } else {
                    Err(ProtocolError::MalformedMessage)
                }
            },
            Err(_) => Err(ProtocolError::MalformedMessage),
        },
        WireType::StartGroup => match skip_group(tag, buf, depth - 1) {
            Ok(rest) => Ok((FieldData::Group, rest)),
            Err(error) => Err(error),
        },
        WireType::EndGroup => Err(ProtocolError::MalformedMessage),
        WireType::ThirtyTwoBit => if buf.len() >= 4 {
            Ok((FieldData::ThirtyTwoBit, slice_subrange(buf, 4, buf.len())))
        } else {
            Err(ProtocolError::MalformedMessage)
        },
    }
}

/// Steps over the fields of the group numbered `tag`, and over the key that closes it.
fn skip_group<'a>(tag: u32, buf: &'a [u8], depth: u32) -> (result: Result<&'a [u8], ProtocolError>)
    ensures
        match result {
            Ok(rest) => parse_group(tag as nat, buf@, depth as nat) matches Some(len) && len
                <= buf@.len() && rest@ == buf@.skip(len as int),
            Err(error) => error == ProtocolError::MalformedMessage && parse_group(
                tag as nat,
                buf@,
                depth as nat,
            ) is None,
        },
    decreases depth, 1nat,
{
    let mut rest = buf;
    loop
        invariant
            rest@.len() <= buf@.len(),
            rest@ == buf@.skip(buf@.len() - rest@.len()),
            parse_group(tag as nat, buf@, depth as nat) == match parse_group(
                tag as nat,
                rest@,
                depth as nat,
            ) {
                Some(more) => Some((buf@.len() - rest@.len() + more) as nat),
                None => None,
            },
        decreases rest@.len(),
    {
        let ghost before = rest@;
        match decode_key(rest) {
            Err(_) => {
                return Err(ProtocolError::MalformedMessage);
            },
            Ok((inner_tag, inner_type, after_key)) => {
                proof {
                    lemma_parse_key_bounds(before);
                }
                match inner_type {
                    WireType::EndGroup => {
                        if inner_tag == tag {
                            assert(after_key@ =~= buf@.skip(
                                buf@.len() - before.len() + parse_key(before)->0.len,
                            ));
                            return Ok(after_key);
                        } else {
                            return Err(ProtocolError::MalformedMessage);
                        }
                    },
                    _ => {
                        match read_value(inner_type, inner_tag, after_key, depth) {
                            Err(error) => {
                                return Err(error);
                            },
                            Ok((_, after_value)) => {
                                proof {
                                    let key = parse_key(before)->0;
                                    let inner = parse_value(
                                        inner_type,
                                        inner_tag as nat,
                                        after_key@,
                                        depth as nat,
                                    )->0;
                                    assert(after_value@ =~= before.skip(
                                        (key.len + inner.len) as int,
                                    ));
                                    assert(after_value@ =~= buf@.skip(
                                        buf@.len() - before.len() + key.len + inner.len,
                                    ));
                                }
                                rest = after_value;
                            },
                        }
                    },
                }
            },
        }
    }
}

/// Reads the field at the front of `buf`: its number, its value, and the bytes behind it.
pub fn next_field<'a>(buf: &'a [u8], depth: u32) -> (result: Result<
    (u32, FieldData<'a>, &'a [u8]),
    ProtocolError,
>)
    ensures
        match result {
            Ok((tag, data, rest)) => parse_field(buf@, depth as nat) matches Some(found)
                && found.value.tag == tag && found.value.value == data@ && 1 <= found.len
                <= buf@.len() && rest@ == buf@.skip(found.len as int),
            Err(error) => error == ProtocolError::MalformedMessage && parse_field(
                buf@,
                depth as nat,
            ) is None,
        },
{
    match decode_key(buf) {
        Err(_) => Err(ProtocolError::MalformedMessage),
        Ok((tag, wire_type, after_key)) => {
            proof {
                lemma_parse_key_bounds(buf@);
            }
            match read_value(wire_type, tag, after_key, depth) {
                Err(error) => Err(error),
                Ok((data, rest)) => {
                    proof {
                        let key = parse_key(buf@)->0;
                        let inner = parse_value(wire_type, tag as nat, after_key@, depth as nat)->0;
                        assert(rest@ =~= buf@.skip((key.len + inner.len) as int));
                    }
                    Ok((tag, data, rest))
                },
            }
        },
    }
}

} // verus!
