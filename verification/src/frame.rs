//! The frame codec: a four-byte big-endian length, then that many payload bytes.
//!
//! A reader takes a length of at least one and at most `MAX_FRAME_LEN`. It
//! judges the length from the four bytes of the prefix alone, before any byte
//! of the payload is looked at, so that a peer cannot make it set aside more
//! memory than the limit. A writer writes what it is given: the limit is the
//! reader's, and the writer is held only to what four bytes can announce.

use vstd::prelude::*;
use vstd::slice::{slice_subrange, slice_to_vec};
use crate::error::ProtocolError;
use crate::wire::Scanned;

verus! {

/// The number of bytes in a length prefix.
pub const PREFIX_LEN: usize = 4;

/// The most bytes that a payload may have: one mebibyte.
pub const MAX_FRAME_LEN: usize = 1_048_576;

/// The number that four bytes stand for, most significant byte first.
pub open spec fn prefix_value(prefix: Seq<u8>) -> nat {
    (prefix[0] * 0x100_0000 + prefix[1] * 0x1_0000 + prefix[2] * 0x100 + prefix[3]) as nat
}

/// The four bytes that stand for `len`, most significant byte first.
pub open spec fn prefix_bytes(len: nat) -> Seq<u8> {
    seq![
        (len / 0x100_0000 % 0x100) as u8,
        (len / 0x1_0000 % 0x100) as u8,
        (len / 0x100 % 0x100) as u8,
        (len % 0x100) as u8,
    ]
}

/// The lengths that a reader takes.
pub open spec fn valid_frame_len(len: nat) -> bool {
    1 <= len <= MAX_FRAME_LEN
}

/// The lengths that four bytes can announce.
pub open spec fn announceable(len: nat) -> bool {
    len <= u32::MAX
}

/// A payload as a frame: its length, then the payload.
pub open spec fn frame(payload: Seq<u8>) -> Seq<u8> {
    prefix_bytes(payload.len()) + payload
}

/// The length that the prefix at the front of `stream` announces. A stream
/// that ends inside the prefix is closed; a length of zero, or above the
/// limit, is refused. Nothing behind the prefix goes into this.
pub open spec fn parse_prefix(stream: Seq<u8>) -> Result<nat, ProtocolError> {
    if stream.len() < PREFIX_LEN {
        Err(ProtocolError::ConnectionClosed)
    } else {
        let len = prefix_value(stream.subrange(0, PREFIX_LEN as int));
        if valid_frame_len(len) {
            Ok(len)
        } else {
            Err(ProtocolError::InvalidFrameLength)
        }
    }
}

/// The frame at the front of a stream that has ended after `stream`: its
/// payload, and the number of bytes that prefix and payload take. The prefix
/// is judged first: where it is refused, it does not matter what follows.
pub open spec fn parse_frame(stream: Seq<u8>) -> Result<Scanned<Seq<u8>>, ProtocolError> {
    match parse_prefix(stream) {
        Err(error) => Err(error),
        Ok(len) => if stream.len() < PREFIX_LEN + len {
            Err(ProtocolError::ConnectionClosed)
        } else {
            Ok(
                Scanned {
                    value: stream.subrange(PREFIX_LEN as int, PREFIX_LEN + len),
                    len: (PREFIX_LEN + len) as nat,
                },
            )
        },
    }
}

/// The length that the prefix at the front of `stream` announces, or the
/// refusal of a length of zero or above the limit. Only the four bytes of the
/// prefix are looked at.
pub fn frame_length(stream: &[u8]) -> (result: Result<usize, ProtocolError>)
    ensures
        match result {
            Ok(len) => parse_prefix(stream@) == Ok::<nat, ProtocolError>(len as nat),
            Err(error) => parse_prefix(stream@) == Err::<nat, ProtocolError>(error),
        },
{
    if stream.len() < PREFIX_LEN {
        return Err(ProtocolError::ConnectionClosed);
    }
    let len: u64 = stream[0] as u64 * 0x100_0000 + stream[1] as u64 * 0x1_0000 + stream[2] as u64
        * 0x100 + stream[3] as u64;
    if len == 0 || len > MAX_FRAME_LEN as u64 {
        Err(ProtocolError::InvalidFrameLength)
    } else {
        Ok(len as usize)
    }
}

/// Takes one frame from the front of a stream that has ended: returns its
/// payload and the bytes behind it.
pub fn read_frame<'a>(stream: &'a [u8]) -> (result: Result<(&'a [u8], &'a [u8]), ProtocolError>)
    ensures
        match result {
            Ok((payload, rest)) => parse_frame(stream@) matches Ok(found) && payload@
                == found.value && rest@ == stream@.skip(found.len as int),
            Err(error) => parse_frame(stream@) == Err::<Scanned<Seq<u8>>, ProtocolError>(error),
        },
{
    let len = match frame_length(stream) {
        Ok(len) => len,
        Err(error) => {
            return Err(error);
        },
    };
    if stream.len() - PREFIX_LEN < len {
        return Err(ProtocolError::ConnectionClosed);
    }
    let payload = slice_subrange(stream, PREFIX_LEN, PREFIX_LEN + len);
    let rest = slice_subrange(stream, PREFIX_LEN + len, stream.len());
    Ok((payload, rest))
}

/// Appends `payload` to `stream` as one frame: the four bytes of its
/// length, then the payload, whatever the length is, zero too. Only a payload
/// whose length four bytes cannot announce is refused, and then the stream is
/// left as it was.
pub fn write_frame(stream: &mut Vec<u8>, payload: &[u8]) -> (result: Result<(), ProtocolError>)
    ensures
        match result {
            Ok(()) => announceable(payload@.len()) && final(stream)@ == old(stream)@ + frame(
                payload@,
            ),
            Err(error) => error == ProtocolError::InvalidFrameLength && !announceable(
                payload@.len(),
            ) && final(stream)@ == old(stream)@,
        },
{
    let len = payload.len();
    if len as u64 > u32::MAX as u64 {
        return Err(ProtocolError::InvalidFrameLength);
    }
    stream.push((len / 0x100_0000 % 0x100) as u8);
    stream.push((len / 0x1_0000 % 0x100) as u8);
    stream.push((len / 0x100 % 0x100) as u8);
    stream.push((len % 0x100) as u8);
    let mut body = slice_to_vec(payload);
    stream.append(&mut body);
    assert(final(stream)@ =~= old(stream)@ + frame(payload@));
    Ok(())
}

/// The prefix that is written for a length is read as that length.
pub proof fn lemma_prefix_round_trip(len: nat)
    requires
        announceable(len),
    ensures
        prefix_bytes(len).len() == PREFIX_LEN,
        prefix_value(prefix_bytes(len)) == len,
{
}

/// Reading undoes writing: a frame that was written, with a length that a
/// reader takes, is read back as its payload, and what followed it is left over.
pub proof fn lemma_parse_frame_of_frame(payload: Seq<u8>, rest: Seq<u8>)
    requires
        valid_frame_len(payload.len()),
    ensures
        parse_frame(frame(payload) + rest) == Ok::<Scanned<Seq<u8>>, ProtocolError>(
            Scanned { value: payload, len: frame(payload).len() },
        ),
        (frame(payload) + rest).skip(frame(payload).len() as int) == rest,
{
    let stream = frame(payload) + rest;
    lemma_prefix_round_trip(payload.len());
    assert(stream.subrange(0, PREFIX_LEN as int) =~= prefix_bytes(payload.len()));
    assert(stream.subrange(PREFIX_LEN as int, PREFIX_LEN + payload.len()) =~= payload);
    assert(stream.skip(frame(payload).len() as int) =~= rest);
}

} // verus!
