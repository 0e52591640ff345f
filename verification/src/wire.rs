//! The Protocol Buffers wire primitives: base-128 varints and field keys.
//!
//! The byte-level work is done by `prost`; this module states what those
//! functions compute, and proves that reading undoes writing.

use vstd::prelude::*;

verus! {

/// How the value of a field is laid out on the wire.
#[derive(Clone, Copy, Debug, PartialEq, Eq, Structural)]
pub enum WireType {
    Varint,
    SixtyFourBit,
    LengthDelimited,
    StartGroup,
    EndGroup,
    ThirtyTwoBit,
}

impl WireType {
    /// The three-bit number that stands for this wire type in a key.
    pub open spec fn code(self) -> nat {
        match self {
            WireType::Varint => 0,
            WireType::SixtyFourBit => 1,
            WireType::LengthDelimited => 2,
            WireType::StartGroup => 3,
            WireType::EndGroup => 4,
            WireType::ThirtyTwoBit => 5,
        }
    }

    /// The wire type that a number stands for; numbers above five stand for none.
    pub open spec fn from_code(code: nat) -> Option<WireType> {
        if code == 0 {
            Some(WireType::Varint)
        } else if code == 1 {
            Some(WireType::SixtyFourBit)
        } else if code == 2 {
            Some(WireType::LengthDelimited)
        } else if code == 3 {
            Some(WireType::StartGroup)
        } else if code == 4 {
            Some(WireType::EndGroup)
        } else if code == 5 {
            Some(WireType::ThirtyTwoBit)
        } else {
            None
        }
    }
}

/// The smallest field number.
pub const MIN_TAG: u32 = 1;

/// The largest field number: a key holds the number and three more bits in 32.
pub const MAX_TAG: u32 = 0x1fff_ffff;

/// A value read from the front of a byte sequence, with the number of bytes it took.
pub struct Scanned<T> {
    pub value: T,
    pub len: nat,
}

/// The base-128 encoding of `value`: seven bits per byte, least significant
/// group first, the top bit set on every byte but the last.
pub open spec fn varint(value: nat) -> Seq<u8>
    decreases value,
{
    if value < 128 {
        seq![value as u8]
    } else {
        seq![(128 + value % 128) as u8] + varint(value / 128)
    }
}

/// Reads a varint from the front of `bytes`, of which `used` bytes of the same
/// varint came before. A varint has at most ten bytes, and the tenth holds one bit.
pub open spec fn scan_varint(bytes: Seq<u8>, used: nat) -> Option<Scanned<nat>>
    decreases bytes.len(),
{
    if used >= 10 || bytes.len() == 0 {
        None
    } else if bytes[0] < 128 {
        if used == 9 && bytes[0] >= 2 {
            None
        } else {
            Some(Scanned { value: bytes[0] as nat, len: 1 })
        }
    } else {
        match scan_varint(bytes.drop_first(), used + 1) {
            Some(high) => Some(
                Scanned { value: (bytes[0] - 128 + 128 * high.value) as nat, len: high.len + 1 },
            ),
            None => None,
        }
    }
}

/// The varint at the front of `bytes`, if there is one.
pub open spec fn parse_varint(bytes: Seq<u8>) -> Option<Scanned<nat>> {
    scan_varint(bytes, 0)
}

/// One more than the largest value that the rest of a varint can hold once
/// `used` of its bytes are read.
pub open spec fn room(used: nat) -> nat
    decreases 9 - used,
{
    if used >= 9 {
        2
    } else {
        128 * room(used + 1)
    }
}

/// The key of a field: its number, then the three bits of its wire type, as a varint.
pub open spec fn key(tag: nat, wire_type: WireType) -> Seq<u8> {
    varint(tag * 8 + wire_type.code())
}

/// What a key says of the field that follows it.
pub struct Key {
    pub tag: nat,
    pub wire_type: WireType,
}

/// The key at the front of `bytes`: a varint that fits in 32 bits, whose low
/// three bits are a wire type and whose field number is not zero.
pub open spec fn parse_key(bytes: Seq<u8>) -> Option<Scanned<Key>> {
    match parse_varint(bytes) {
        Some(raw) => match WireType::from_code(raw.value % 8) {
            Some(wire_type) => if raw.value <= u32::MAX && raw.value / 8 >= 1 {
                Some(Scanned { value: Key { tag: raw.value / 8, wire_type }, len: raw.len })
            } else {
                None
            },
            None => None,
        },
        None => None,
    }
}

/// The error that `prost` reports when bytes do not decode.
#[verifier::external_type_specification]
#[verifier::external_body]
pub struct ExDecodeError(prost::DecodeError);

/// `prost::encoding::encode_varint` on a `Vec<u8>`: believed to append the
/// base-128 encoding of `value`, and to leave what the buffer held in place.
#[verifier::external_body]
pub(crate) fn encode_varint(value: u64, buf: &mut Vec<u8>)
    ensures
        final(buf)@ == old(buf)@ + varint(value as nat),
{
    prost::encoding::encode_varint(value, buf)
}

/// `prost::encoding::decode_varint` on a byte slice: believed to succeed
/// exactly where a varint stands at the front of `buf`, and then to return its
/// value and the bytes behind it.
#[verifier::external_body]
pub(crate) fn decode_varint<'a>(buf: &'a [u8]) -> (result: Result<
    (u64, &'a [u8]),
    prost::DecodeError,
>)
    ensures
        match result {
            Ok((value, rest)) => parse_varint(buf@) matches Some(found) && found.value == value
                && rest@ == buf@.skip(found.len as int),
            Err(_) => parse_varint(buf@) is None,
        },
{
    let mut rest = buf;
    let value = prost::encoding::decode_varint(&mut rest)?;
    Ok((value, rest))
}

/// `prost::encoding::encode_key` on a `Vec<u8>`: believed to append the key
/// of the field `tag` with the given wire type. The field number has to be in
/// range: outside of it the outside function may panic.
#[verifier::external_body]
pub(crate) fn encode_key(tag: u32, wire_type: WireType, buf: &mut Vec<u8>)
    requires
        MIN_TAG <= tag <= MAX_TAG,
    ensures
        final(buf)@ == old(buf)@ + key(tag as nat, wire_type),
{
    let wire_type = match wire_type {
        WireType::Varint => prost::encoding::WireType::Varint,
        WireType::SixtyFourBit => prost::encoding::WireType::SixtyFourBit,
        WireType::LengthDelimited => prost::encoding::WireType::LengthDelimited,
        WireType::StartGroup => prost::encoding::WireType::StartGroup,
        WireType::EndGroup => prost::encoding::WireType::EndGroup,
        WireType::ThirtyTwoBit => prost::encoding::WireType::ThirtyTwoBit,
    };
    prost::encoding::encode_key(tag, wire_type, buf)
}

/// `prost::encoding::decode_key` on a byte slice: believed to succeed exactly
/// where a key stands at the front of `buf`, and then to return the field
/// number, the wire type and the bytes behind the key.
#[verifier::external_body]
pub(crate) fn decode_key<'a>(buf: &'a [u8]) -> (result: Result<
    (u32, WireType, &'a [u8]),
    prost::DecodeError,
>)
    ensures
        match result {
            Ok((tag, wire_type, rest)) => parse_key(buf@) matches Some(found) && found.value.tag
                == tag && found.value.wire_type == wire_type && rest@ == buf@.skip(
                found.len as int,
            ),
            Err(_) => parse_key(buf@) is None,
        },
{
    let mut rest = buf;
    let (tag, wire_type) = prost::encoding::decode_key(&mut rest)?;
    let wire_type = match wire_type {
        prost::encoding::WireType::Varint => WireType::Varint,
        prost::encoding::WireType::SixtyFourBit => WireType::SixtyFourBit,
        prost::encoding::WireType::LengthDelimited => WireType::LengthDelimited,
        prost::encoding::WireType::StartGroup => WireType::StartGroup,
        prost::encoding::WireType::EndGroup => WireType::EndGroup,
        prost::encoding::WireType::ThirtyTwoBit => WireType::ThirtyTwoBit,
    };
    Ok((tag, wire_type, rest))
}

/// Nothing is left for a varint to hold after ten bytes, and 64 bits before the first.
pub proof fn lemma_room(used: nat)
    ensures
        room(used) >= 2,
        used < 9 ==> room(used) >= 128,
        room(0) == 0x1_0000_0000_0000_0000,
    decreases 9 - used,
{
    if used < 9 {
        lemma_room(used + 1);
    }
    assert(room(0) == 0x1_0000_0000_0000_0000) by {
        reveal_with_fuel(room, 10);
    }
}

/// A varint that is read takes between one and ten bytes, none beyond the
/// end of the input, and its value fits in what the bytes read before it left over.
pub proof fn lemma_scan_varint_bounds(bytes: Seq<u8>, used: nat)
    requires
        scan_varint(bytes, used) is Some,
    ensures
        1 <= scan_varint(bytes, used)->0.len <= bytes.len(),
        scan_varint(bytes, used)->0.len + used <= 10,
        scan_varint(bytes, used)->0.value < room(used),
    decreases bytes.len(),
{
    lemma_room(used);
    if bytes[0] >= 128 {
        lemma_scan_varint_bounds(bytes.drop_first(), used + 1);
        let high = scan_varint(bytes.drop_first(), used + 1)->0;
        assert(bytes[0] - 128 + 128 * high.value < 128 * room(used + 1));
    }
}

/// The value of a varint that is read fits in 64 bits.
pub proof fn lemma_parse_varint_bounds(bytes: Seq<u8>)
    requires
        parse_varint(bytes) is Some,
    ensures
        1 <= parse_varint(bytes)->0.len <= bytes.len(),
        parse_varint(bytes)->0.len <= 10,
        parse_varint(bytes)->0.value <= u64::MAX,
{
    lemma_room(0);
    lemma_scan_varint_bounds(bytes, 0);
}

/// Reading the encoding of `value` gives `value` back, whatever follows it.
pub proof fn lemma_scan_varint_of_varint(value: nat, rest: Seq<u8>, used: nat)
    requires
        used <= 9,
        value < room(used),
    ensures
        scan_varint(varint(value) + rest, used) == Some(
            Scanned { value, len: varint(value).len() },
        ),
    decreases value,
{
    let bytes = varint(value) + rest;
    lemma_room(used);
    if value < 128 {
        assert(bytes[0] == value);
    } else {
        assert(used < 9);
        assert(bytes[0] == 128 + value % 128);
        assert(bytes.drop_first() =~= varint(value / 128) + rest);
        assert(value / 128 < room(used + 1));
        lemma_scan_varint_of_varint(value / 128, rest, used + 1);
    }
}

/// Reading undoes writing: the varint at the front of `varint(value) + rest`
/// is `value`, for every value of 64 bits.
pub proof fn lemma_parse_varint_of_varint(value: nat, rest: Seq<u8>)
    requires
        value <= u64::MAX,
    ensures
        parse_varint(varint(value) + rest) == Some(Scanned { value, len: varint(value).len() }),
        1 <= varint(value).len() <= 10,
{
    lemma_room(0);
    lemma_scan_varint_of_varint(value, rest, 0);
    lemma_scan_varint_bounds(varint(value) + rest, 0);
}

/// A larger number never takes fewer bytes.
pub proof fn lemma_varint_len_grows(small: nat, large: nat)
    requires
        small <= large,
    ensures
        1 <= varint(small).len() <= varint(large).len(),
    decreases large,
{
    if large >= 128 && small >= 128 {
        lemma_varint_len_grows(small / 128, large / 128);
    } else if large >= 128 {
        lemma_varint_len_grows(0, large / 128);
    }
}

/// `varint` writes a number in the fewest bytes: a varint that is read took
/// at least as many.
pub proof fn lemma_scan_varint_not_shorter(bytes: Seq<u8>, used: nat)
    requires
        scan_varint(bytes, used) is Some,
    ensures
        varint(scan_varint(bytes, used)->0.value).len() <= scan_varint(bytes, used)->0.len,
    decreases bytes.len(),
{
    if bytes[0] >= 128 {
        lemma_scan_varint_not_shorter(bytes.drop_first(), used + 1);
        let high = scan_varint(bytes.drop_first(), used + 1)->0;
        let value = (bytes[0] - 128 + 128 * high.value) as nat;
        if value >= 128 {
            assert(value / 128 == high.value);
        }
    }
}

/// A key that is read takes between one and ten bytes, none beyond the end
/// of the input, and names a field number of 29 bits that is not zero.
pub proof fn lemma_parse_key_bounds(bytes: Seq<u8>)
    requires
        parse_key(bytes) is Some,
    ensures
        1 <= parse_key(bytes)->0.len <= bytes.len(),
        parse_key(bytes)->0.len <= 10,
        MIN_TAG <= parse_key(bytes)->0.value.tag <= MAX_TAG,
{
    lemma_parse_varint_bounds(bytes);
}

/// Reading undoes writing for keys too, for every field number in range.
pub proof fn lemma_parse_key_of_key(tag: nat, wire_type: WireType, rest: Seq<u8>)
    requires
        MIN_TAG <= tag <= MAX_TAG,
    ensures
        parse_key(key(tag, wire_type) + rest) == Some(
            Scanned { value: Key { tag, wire_type }, len: key(tag, wire_type).len() },
        ),
        1 <= key(tag, wire_type).len() <= 10,
{
    let raw = tag * 8 + wire_type.code();
    lemma_parse_varint_of_varint(raw, rest);
    assert(raw % 8 == wire_type.code());
    assert(raw / 8 == tag);
    assert(WireType::from_code(wire_type.code()) == Some(wire_type));
}

} // verus!
