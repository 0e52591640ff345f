//! How large a response can be: never larger than a frame may be, as long as
//! the request came in a frame.
//!
//! A text is written in the fewest bytes that can hold it, so an echo is
//! no longer than the request that brought the text. A sum is one number.

use vstd::prelude::*;
use vstd::utf8::{decode_utf8_encode_utf8, encode_utf8};
use crate::codec::{
    decode_echo, decode_request, delimited_field, encode_add_request, encode_add_response,
    encode_echo, encode_request, encode_response, int32_to_varint, merge_echo_field,
    merge_fields, merge_request_field, nested_depth,
};
use crate::error::ProtocolError;
use crate::field::{lemma_parse_field_bounds, parse_field, Field, RECURSION_LIMIT};
use crate::frame::{frame, valid_frame_len, MAX_FRAME_LEN};
use crate::message::{AddRequest, AddResponse, Request, Response};
use crate::roundtrip::{
    lemma_add_request_round_trip, lemma_int32_round_trip, lemma_request_round_trip,
};
use crate::session::{reply, respond};
use crate::wire::{
    key, lemma_parse_key_bounds, lemma_parse_key_of_key, lemma_parse_varint_of_varint,
    lemma_scan_varint_not_shorter, lemma_varint_len_grows, parse_key, parse_varint, varint,
    WireType,
};

verus! {

/// The most bytes that keys and lengths add to the text of an echo that fits
/// in a frame: a key and a length of three bytes, twice.
pub const ECHO_OVERHEAD: usize = 8;

/// A length-delimited field that is read took at least the bytes that
/// writing it takes.
pub proof fn lemma_delimited_field_not_shorter(bytes: Seq<u8>, depth: nat)
    requires
        parse_field(bytes, depth) is Some,
        parse_field(bytes, depth)->0.value.value is LengthDelimited,
    ensures
        delimited_field(
            parse_field(bytes, depth)->0.value.tag,
            parse_field(bytes, depth)->0.value.value->LengthDelimited_0,
        ).len() <= parse_field(bytes, depth)->0.len <= bytes.len(),
{
    let head = parse_key(bytes)->0;
    let behind = bytes.skip(head.len as int);
    lemma_parse_field_bounds(bytes, depth);
    lemma_parse_key_bounds(bytes);
    lemma_scan_varint_not_shorter(bytes, 0);
    lemma_scan_varint_not_shorter(behind, 0);
    assert(parse_varint(bytes)->0.value == head.value.tag * 8 + head.value.wire_type.code());
}

/// A longer body never makes a shorter field.
pub proof fn lemma_delimited_field_grows(tag: nat, small: Seq<u8>, large: Seq<u8>)
    requires
        small.len() <= large.len(),
    ensures
        delimited_field(tag, small).len() <= delimited_field(tag, large).len(),
{
    lemma_varint_len_grows(small.len(), large.len());
}

/// The text that is read from an `EchoMessage` is the text that it held
/// before, or it is written in no more bytes than it was read from.
pub proof fn lemma_decode_echo_size(before: Seq<char>, bytes: Seq<u8>, depth: nat)
    requires
        decode_echo(before, bytes, depth) is Some,
    ensures
        decode_echo(before, bytes, depth)->0 == before || encode_echo(
            decode_echo(before, bytes, depth)->0,
        ).len() <= bytes.len(),
    decreases bytes.len(),
{
    if bytes.len() > 0 {
        let found = parse_field(bytes, depth)->0;
        let next = merge_echo_field(before, found.value)->0;
        let rest = bytes.skip(found.len as int);
        lemma_parse_field_bounds(bytes, depth);
        lemma_decode_echo_size(next, rest, depth);
        if found.value.tag == 1 {
            let body = found.value.value->LengthDelimited_0;
            lemma_delimited_field_not_shorter(bytes, depth);
            decode_utf8_encode_utf8(body);
        }
    }
}

/// The echo request that is read from a `ClientMessage` is the one that it
/// held before, or it is written in no more bytes than it was read from.
pub proof fn lemma_decode_request_size(before: Option<Request>, bytes: Seq<u8>)
    requires
        merge_fields(
            before,
            bytes,
            RECURSION_LIMIT as nat,
            |message: Option<Request>, field: Field| merge_request_field(message, field),
        ) matches Some(Some(Request::Echo { .. })),
    ensures
        ({
            let after = merge_fields(
                before,
                bytes,
                RECURSION_LIMIT as nat,
                |message: Option<Request>, field: Field| merge_request_field(message, field),
            )->0;
            after == before || encode_request(after).len() <= bytes.len()
        }),
    decreases bytes.len(),
{
    let depth = RECURSION_LIMIT as nat;
    if bytes.len() > 0 {
        let found = parse_field(bytes, depth)->0;
        let next = merge_request_field(before, found.value)->0;
        let rest = bytes.skip(found.len as int);
        lemma_parse_field_bounds(bytes, depth);
        lemma_decode_request_size(next, rest);
        if found.value.tag == 1 {
            let body = found.value.value->LengthDelimited_0;
            let held = match before {
                Some(Request::Echo { content }) => content,
                _ => Seq::<char>::empty(),
            };
            let content = decode_echo(held, body, nested_depth())->0;
            lemma_delimited_field_not_shorter(bytes, depth);
            lemma_decode_echo_size(held, body, nested_depth());
            if encode_echo(content).len() <= body.len() {
                lemma_delimited_field_grows(1, encode_echo(content), body);
            }
        }
    }
}

/// A request that came in a frame has a response that goes in a frame: the
/// response to an echo is no longer than the request, and the response to
/// an addition has a few bytes. So a session never writes a frame that a
/// reader would refuse.
pub proof fn lemma_response_fits(payload: Seq<u8>)
    requires
        valid_frame_len(payload.len()),
        decode_request(payload) matches Some(Some(_)),
    ensures
        valid_frame_len(encode_response(respond(decode_request(payload)->0).ok()).len()),
        reply(payload) == Ok::<Seq<u8>, ProtocolError>(
            frame(encode_response(respond(decode_request(payload)->0).ok())),
        ),
{
    let request = decode_request(payload)->0->0;
    match request {
        Request::Echo { content } => {
            lemma_decode_request_size(None, payload);
            lemma_parse_key_of_key(1, WireType::LengthDelimited, Seq::empty());
            lemma_varint_len_grows(0, encode_echo(content).len());
        },
        Request::Add { a, b } => {
            let sum = respond(Some(request))->Ok_0->AddResult_result;
            lemma_add_response_size(sum);
        },
    }
}

/// The response to an addition has at most thirteen bytes.
pub proof fn lemma_add_response_size(result: i32)
    ensures
        2 <= encode_response(Some(Response::AddResult { result })).len() <= 13,
{
    let body = encode_add_response(AddResponse { result });
    lemma_int32_round_trip(result);
    lemma_parse_varint_of_varint(int32_to_varint(result), Seq::empty());
    assert(key(1, WireType::Varint) =~= seq![8u8]);
    assert(key(2, WireType::LengthDelimited) =~= seq![18u8]);
    assert(body.len() <= 11);
    assert(varint(body.len()).len() == 1);
}

/// Every text of at most `MAX_FRAME_LEN - ECHO_OVERHEAD` bytes is echoed:
/// the request that holds it fits in a frame, and the answer to it is the
/// frame of the response that holds the same text, which fits in a frame too.
pub proof fn lemma_echo_is_answered(content: Seq<char>)
    requires
        encode_utf8(content).len() <= MAX_FRAME_LEN - ECHO_OVERHEAD,
    ensures
        valid_frame_len(encode_request(Some(Request::Echo { content })).len()),
        valid_frame_len(encode_response(Some(Response::EchoResult { content })).len()),
        reply(encode_request(Some(Request::Echo { content }))) == Ok::<Seq<u8>, ProtocolError>(
            frame(encode_response(Some(Response::EchoResult { content }))),
        ),
{
    let request = Some(Request::Echo { content });
    let text = encode_utf8(content);
    let inner = encode_echo(content);
    assert(key(1, WireType::LengthDelimited) =~= seq![10u8]);
    lemma_varint_three_bytes(text.len());
    lemma_varint_three_bytes(inner.len());
    lemma_request_round_trip(request);
    lemma_response_fits(encode_request(request));
}

/// A number below 2^21 takes at most three bytes.
pub proof fn lemma_varint_three_bytes(value: nat)
    requires
        value < 0x20_0000,
    ensures
        1 <= varint(value).len() <= 3,
{
    reveal_with_fuel(varint, 3);
}

/// Every addition is answered: the request that holds the two numbers fits
/// in a frame, and the answer to it is the frame of the response that holds
/// their sum, which fits in a frame too.
pub proof fn lemma_add_is_answered(a: i32, b: i32)
    ensures
        valid_frame_len(encode_request(Some(Request::Add { a, b })).len()),
        valid_frame_len(encode_response(respond(Some(Request::Add { a, b })).ok()).len()),
        reply(encode_request(Some(Request::Add { a, b }))) == Ok::<Seq<u8>, ProtocolError>(
            frame(encode_response(respond(Some(Request::Add { a, b })).ok())),
        ),
{
    let request = Some(Request::Add { a, b });
    let body = encode_add_request(AddRequest { a, b });
    lemma_add_request_round_trip(AddRequest { a, b }, 1);
    lemma_parse_key_of_key(2, WireType::LengthDelimited, Seq::empty());
    lemma_parse_varint_of_varint(body.len(), Seq::empty());
    lemma_request_round_trip(request);
    lemma_response_fits(encode_request(request));
}

} // verus!
