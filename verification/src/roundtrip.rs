//! Reading undoes writing: every message that is written is read back as it was.

use vstd::prelude::*;
use vstd::utf8::{encode_utf8, encode_utf8_decode_utf8, encode_utf8_valid_utf8};
use crate::codec::{
    decode_add_request, decode_add_response, decode_echo, decode_request, decode_response,
    delimited_field, encode_add_request, encode_add_response, encode_echo, encode_request,
    encode_response, int32_field, int32_from_varint, int32_to_varint, merge_add_request_field,
    merge_add_response_field, merge_echo_field, merge_fields, merge_request_field,
    merge_response_field, nested_depth,
};
use crate::field::{parse_field, Field, FieldValue, RECURSION_LIMIT};
use crate::frame::{
    announceable, frame, lemma_prefix_round_trip, prefix_bytes, prefix_value, PREFIX_LEN,
};
use crate::message::{AddRequest, AddResponse, Request, Response};
use crate::wire::{
    key, lemma_parse_key_of_key, lemma_parse_varint_of_varint, varint, Scanned, WireType,
    MAX_TAG, MIN_TAG,
};

verus! {

/// The most bytes that a text can have on any machine: a string in memory
/// has fewer than 2^63.
pub const MAX_TEXT_BYTES: u64 = 0x7fff_ffff_ffff_ffff;

/// The messages that can be held in memory.
pub open spec fn request_fits(message: Option<Request>) -> bool {
    match message {
        Some(Request::Echo { content }) => encode_utf8(content).len() <= MAX_TEXT_BYTES,
        _ => true,
    }
}

/// The messages that can be held in memory.
pub open spec fn response_fits(message: Option<Response>) -> bool {
    match message {
        Some(Response::EchoResult { content }) => encode_utf8(content).len() <= MAX_TEXT_BYTES,
        _ => true,
    }
}

/// A number survives the way through a varint and back.
pub proof fn lemma_int32_round_trip(value: i32)
    ensures
        int32_to_varint(value) <= u64::MAX,
        int32_from_varint(int32_to_varint(value)) == value,
{
}

/// The field at the front of a number field that was written is that field.
pub proof fn lemma_parse_int32_field(tag: nat, value: i32, rest: Seq<u8>, depth: nat)
    requires
        MIN_TAG <= tag <= MAX_TAG,
        value != 0,
        depth > 0,
    ensures
        parse_field(int32_field(tag, value) + rest, depth) == Some(
            Scanned {
                value: Field { tag, value: FieldValue::Varint(int32_to_varint(value)) },
                len: int32_field(tag, value).len(),
            },
        ),
        (int32_field(tag, value) + rest).skip(int32_field(tag, value).len() as int) == rest,
{
    let head = key(tag, WireType::Varint);
    let number = varint(int32_to_varint(value));
    let bytes = int32_field(tag, value) + rest;
    lemma_int32_round_trip(value);
    assert(bytes =~= head + (number + rest));
    lemma_parse_key_of_key(tag, WireType::Varint, number + rest);
    assert(bytes.skip(head.len() as int) =~= number + rest);
    lemma_parse_varint_of_varint(int32_to_varint(value), rest);
    assert(bytes.skip(int32_field(tag, value).len() as int) =~= rest);
}

/// The field at the front of a length-delimited field that was written is that field.
pub proof fn lemma_parse_delimited_field(tag: nat, body: Seq<u8>, rest: Seq<u8>, depth: nat)
    requires
        MIN_TAG <= tag <= MAX_TAG,
        body.len() <= u64::MAX,
        depth > 0,
    ensures
        parse_field(delimited_field(tag, body) + rest, depth) == Some(
            Scanned {
                value: Field { tag, value: FieldValue::LengthDelimited(body) },
                len: delimited_field(tag, body).len(),
            },
        ),
        (delimited_field(tag, body) + rest).skip(delimited_field(tag, body).len() as int) == rest,
        delimited_field(tag, body).len() <= body.len() + 20,
{
    let head = key(tag, WireType::LengthDelimited);
    let size = varint(body.len());
    let bytes = delimited_field(tag, body) + rest;
    assert(bytes =~= head + (size + (body + rest)));
    lemma_parse_key_of_key(tag, WireType::LengthDelimited, size + (body + rest));
    let after_key = bytes.skip(head.len() as int);
    assert(after_key =~= size + (body + rest));
    lemma_parse_varint_of_varint(body.len(), body + rest);
    assert(after_key.subrange(size.len() as int, (size.len() + body.len()) as int) =~= body);
    assert(bytes.skip(delimited_field(tag, body).len() as int) =~= rest);
}

/// Reading a run of fields starts with its first field and goes on behind it.
pub proof fn lemma_merge_fields_step<S>(
    state: S,
    bytes: Seq<u8>,
    depth: nat,
    merge: spec_fn(S, Field) -> Option<S>,
)
    requires
        bytes.len() > 0,
        parse_field(bytes, depth) is Some,
        merge(state, parse_field(bytes, depth)->0.value) is Some,
    ensures
        merge_fields(state, bytes, depth, merge) == merge_fields(
            merge(state, parse_field(bytes, depth)->0.value)->0,
            bytes.skip(parse_field(bytes, depth)->0.len as int),
            depth,
            merge,
        ),
{
}

/// Reading no bytes leaves the state as it was.
pub proof fn lemma_merge_fields_empty<S>(
    state: S,
    depth: nat,
    merge: spec_fn(S, Field) -> Option<S>,
)
    ensures
        merge_fields(state, Seq::empty(), depth, merge) == Some(state),
{
}

/// Reading one written field, with nothing behind it, merges that field.
proof fn lemma_merge_single_field<S>(
    state: S,
    bytes: Seq<u8>,
    field: Field,
    depth: nat,
    merge: spec_fn(S, Field) -> Option<S>,
)
    requires
        bytes.len() > 0,
        parse_field(bytes, depth) == Some(Scanned { value: field, len: bytes.len() }),
        merge(state, field) is Some,
    ensures
        merge_fields(state, bytes, depth, merge) == merge(state, field),
{
    lemma_merge_fields_step(state, bytes, depth, merge);
    assert(bytes.skip(bytes.len() as int) =~= Seq::<u8>::empty());
    lemma_merge_fields_empty(merge(state, field)->0, depth, merge);
}

/// An `EchoMessage` that is written and read again holds the same text.
pub proof fn lemma_echo_round_trip(content: Seq<char>, depth: nat)
    requires
        encode_utf8(content).len() <= MAX_TEXT_BYTES,
        depth > 0,
    ensures
        decode_echo(Seq::empty(), encode_echo(content), depth) == Some(content),
        encode_echo(content).len() <= encode_utf8(content).len() + 20,
{
    let merge = |content: Seq<char>, field: Field| merge_echo_field(content, field);
    if content.len() != 0 {
        let body = encode_utf8(content);
        let bytes = encode_echo(content);
        let field = Field { tag: 1, value: FieldValue::LengthDelimited(body) };
        lemma_parse_delimited_field(1, body, Seq::empty(), depth);
        assert(bytes + Seq::<u8>::empty() =~= bytes);
        encode_utf8_valid_utf8(content);
        encode_utf8_decode_utf8(content);
        assert(merge(Seq::<char>::empty(), field) == Some(content));
        lemma_merge_single_field(Seq::<char>::empty(), bytes, field, depth, merge);
    } else {
        lemma_merge_fields_empty(Seq::<char>::empty(), depth, merge);
    }
}

/// An `AddRequest` that is written and read again holds the same numbers.
pub proof fn lemma_add_request_round_trip(request: AddRequest, depth: nat)
    requires
        depth > 0,
    ensures
        decode_add_request(AddRequest { a: 0, b: 0 }, encode_add_request(request), depth) == Some(
            request,
        ),
        encode_add_request(request).len() <= 40,
{
    let merge = |request: AddRequest, field: Field| merge_add_request_field(request, field);
    let first = int32_field(1, request.a);
    let second = int32_field(2, request.b);
    let start = AddRequest { a: 0, b: 0 };
    let middle = AddRequest { a: request.a, b: 0 };
    lemma_int32_round_trip(request.a);
    lemma_int32_round_trip(request.b);
    lemma_parse_varint_of_varint(int32_to_varint(request.a), Seq::empty());
    lemma_parse_varint_of_varint(int32_to_varint(request.b), Seq::empty());
    lemma_parse_key_of_key(1, WireType::Varint, Seq::empty());
    lemma_parse_key_of_key(2, WireType::Varint, Seq::empty());
    assert(merge_fields(middle, second, depth, merge) == Some(request)) by {
        if request.b != 0 {
            let field = Field { tag: 2, value: FieldValue::Varint(int32_to_varint(request.b)) };
            lemma_parse_int32_field(2, request.b, Seq::empty(), depth);
            assert(second + Seq::<u8>::empty() =~= second);
            assert(merge(middle, field) == Some(request));
            lemma_merge_single_field(middle, second, field, depth, merge);
        } else {
            lemma_merge_fields_empty(middle, depth, merge);
        }
    }
    if request.a != 0 {
        let field = Field { tag: 1, value: FieldValue::Varint(int32_to_varint(request.a)) };
        lemma_parse_int32_field(1, request.a, second, depth);
        assert(merge(start, field) == Some(middle));
        lemma_merge_fields_step(start, first + second, depth, merge);
    } else {
        assert(first + second =~= second);
    }
}

/// An `AddResponse` that is written and read again holds the same number.
pub proof fn lemma_add_response_round_trip(response: AddResponse, depth: nat)
    requires
        depth > 0,
    ensures
        decode_add_response(AddResponse { result: 0 }, encode_add_response(response), depth)
            == Some(response),
        encode_add_response(response).len() <= 20,
{
    let merge = |response: AddResponse, field: Field| merge_add_response_field(response, field);
    let bytes = encode_add_response(response);
    let start = AddResponse { result: 0 };
    lemma_int32_round_trip(response.result);
    lemma_parse_varint_of_varint(int32_to_varint(response.result), Seq::empty());
    lemma_parse_key_of_key(1, WireType::Varint, Seq::empty());
    if response.result != 0 {
        let field = Field { tag: 1, value: FieldValue::Varint(int32_to_varint(response.result)) };
        lemma_parse_int32_field(1, response.result, Seq::empty(), depth);
        assert(bytes + Seq::<u8>::empty() =~= bytes);
        assert(merge(start, field) == Some(response));
        lemma_merge_single_field(start, bytes, field, depth, merge);
    } else {
        lemma_merge_fields_empty(start, depth, merge);
    }
}

/// Reading undoes writing: the bytes of a `ClientMessage` are read back as
/// the same message, whichever variant is set, and also where none is.
pub proof fn lemma_request_round_trip(message: Option<Request>)
    requires
        request_fits(message),
    ensures
        decode_request(encode_request(message)) == Some(message),
{
    let merge = |message: Option<Request>, field: Field| merge_request_field(message, field);
    let bytes = encode_request(message);
    let depth = RECURSION_LIMIT as nat;
    match message {
        None => {
            lemma_merge_fields_empty(None::<Request>, depth, merge);
        },
        Some(Request::Echo { content }) => {
            let body = encode_echo(content);
            let field = Field { tag: 1, value: FieldValue::LengthDelimited(body) };
            lemma_echo_round_trip(content, nested_depth());
            lemma_parse_delimited_field(1, body, Seq::empty(), depth);
            assert(bytes + Seq::<u8>::empty() =~= bytes);
            assert(merge(None::<Request>, field) == Some(message));
            lemma_merge_single_field(None::<Request>, bytes, field, depth, merge);
        },
        Some(Request::Add { a, b }) => {
            let body = encode_add_request(AddRequest { a, b });
            let field = Field { tag: 2, value: FieldValue::LengthDelimited(body) };
            lemma_add_request_round_trip(AddRequest { a, b }, nested_depth());
            lemma_parse_delimited_field(2, body, Seq::empty(), depth);
            assert(bytes + Seq::<u8>::empty() =~= bytes);
            assert(merge(None::<Request>, field) == Some(message));
            lemma_merge_single_field(None::<Request>, bytes, field, depth, merge);
        },
    }
}

/// Reading undoes writing: the bytes of a `ServerMessage` are read back as
/// the same message, whichever variant is set, and also where none is.
pub proof fn lemma_response_round_trip(message: Option<Response>)
    requires
        response_fits(message),
    ensures
        decode_response(encode_response(message)) == Some(message),
{
    let merge = |message: Option<Response>, field: Field| merge_response_field(message, field);
    let bytes = encode_response(message);
    let depth = RECURSION_LIMIT as nat;
    match message {
        None => {
            lemma_merge_fields_empty(None::<Response>, depth, merge);
        },
        Some(Response::EchoResult { content }) => {
            let body = encode_echo(content);
            let field = Field { tag: 1, value: FieldValue::LengthDelimited(body) };
            lemma_echo_round_trip(content, nested_depth());
            lemma_parse_delimited_field(1, body, Seq::empty(), depth);
            assert(bytes + Seq::<u8>::empty() =~= bytes);
            assert(merge(None::<Response>, field) == Some(message));
            lemma_merge_single_field(None::<Response>, bytes, field, depth, merge);
        },
        Some(Response::AddResult { result }) => {
            let body = encode_add_response(AddResponse { result });
            let field = Field { tag: 2, value: FieldValue::LengthDelimited(body) };
            lemma_add_response_round_trip(AddResponse { result }, nested_depth());
            lemma_parse_delimited_field(2, body, Seq::empty(), depth);
            assert(bytes + Seq::<u8>::empty() =~= bytes);
            assert(merge(None::<Response>, field) == Some(message));
            lemma_merge_single_field(None::<Response>, bytes, field, depth, merge);
        },
    }
}

/// A request that is written as a frame is read back: the prefix announces
/// the number of bytes behind it, and those bytes are read as the request.
pub proof fn lemma_framed_request_reads_back(message: Option<Request>)
    requires
        request_fits(message),
        announceable(encode_request(message).len()),
    ensures
        frame(encode_request(message)).len() == PREFIX_LEN + encode_request(message).len(),
        prefix_value(frame(encode_request(message)).subrange(0, PREFIX_LEN as int))
            == encode_request(message).len(),
        decode_request(frame(encode_request(message)).skip(PREFIX_LEN as int)) == Some(message),
{
    let body = encode_request(message);
    lemma_prefix_round_trip(body.len());
    lemma_request_round_trip(message);
    assert(frame(body).subrange(0, PREFIX_LEN as int) =~= prefix_bytes(body.len()));
    assert(frame(body).skip(PREFIX_LEN as int) =~= body);
}

/// A response that is written as a frame is read back: the prefix announces
/// the number of bytes behind it, and those bytes are read as the response.
/// This holds of a response in which no variant is set as well: its frame is
/// a length of zero with nothing behind it.
pub proof fn lemma_framed_response_reads_back(message: Option<Response>)
    requires
        response_fits(message),
        announceable(encode_response(message).len()),
    ensures
        frame(encode_response(message)).len() == PREFIX_LEN + encode_response(message).len(),
        prefix_value(frame(encode_response(message)).subrange(0, PREFIX_LEN as int))
            == encode_response(message).len(),
        decode_response(frame(encode_response(message)).skip(PREFIX_LEN as int)) == Some(
            message,
        ),
{
    let body = encode_response(message);
    lemma_prefix_round_trip(body.len());
    lemma_response_round_trip(message);
    assert(frame(body).subrange(0, PREFIX_LEN as int) =~= prefix_bytes(body.len()));
    assert(frame(body).skip(PREFIX_LEN as int) =~= body);
}

} // verus!
