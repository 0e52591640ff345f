//! How the messages are laid out in bytes, and the functions that write and
//! read them.
//!
//! Every message is a run of fields. A number of zero and an empty text are
//! left out when written. A reader takes the fields in order: of a number or a
//! text that comes twice the later one stands, a field that it knows with
//! another wire type than it expects is an error, and a field that it does not
//! know is stepped over. A `ClientMessage` or a `ServerMessage` holds one
//! variant: bytes that set one variant and then the other are refused.

use vstd::prelude::*;
use vstd::slice::slice_to_vec;
use vstd::string::StringSliceAdditionalSpecFns;
use vstd::utf8::{decode_utf8, encode_utf8, encode_utf8_decode_utf8, valid_utf8};
use crate::error::ProtocolError;
use crate::field::{
    lemma_parse_field_bounds, next_field, parse_field, Field, FieldData, FieldValue,
    RECURSION_LIMIT,
};
use crate::message::client_message;
use crate::message::server_message;
use crate::message::{
    AddRequest, AddResponse, ClientMessage, EchoMessage, Request, Response, ServerMessage,
};
use crate::wire::{encode_key, encode_varint, key, varint, WireType};

verus! {

/// The number that stands for `value` in a varint: `value` itself where it is
/// not negative, else `value` extended to 64 bits in two's complement.
pub open spec fn int32_to_varint(value: i32) -> nat {
    if value >= 0 {
        value as nat
    } else {
        (value + 0x1_0000_0000_0000_0000) as nat
    }
}

/// The number that a varint stands for: its low 32 bits, read in two's complement.
pub open spec fn int32_from_varint(raw: nat) -> i32 {
    let low = raw % 0x1_0000_0000;
    if low < 0x8000_0000 {
        low as i32
    } else {
        (low - 0x1_0000_0000) as i32
    }
}

/// A number as the field `tag`; zero is left out.
pub open spec fn int32_field(tag: nat, value: i32) -> Seq<u8> {
    if value == 0 {
        Seq::empty()
    } else {
        key(tag, WireType::Varint) + varint(int32_to_varint(value))
    }
}

/// Bytes as the field `tag`: the key, the number of bytes, the bytes.
pub open spec fn delimited_field(tag: nat, body: Seq<u8>) -> Seq<u8> {
    key(tag, WireType::LengthDelimited) + varint(body.len()) + body
}

/// A text as the field `tag`, in UTF-8; an empty text is left out.
pub open spec fn string_field(tag: nat, content: Seq<char>) -> Seq<u8> {
    if content.len() == 0 {
        Seq::empty()
    } else {
        delimited_field(tag, encode_utf8(content))
    }
}

/// The bytes of an `EchoMessage`.
pub open spec fn encode_echo(content: Seq<char>) -> Seq<u8> {
    string_field(1, content)
}

/// The bytes of an `AddRequest`.
pub open spec fn encode_add_request(request: AddRequest) -> Seq<u8> {
    int32_field(1, request.a) + int32_field(2, request.b)
}

/// The bytes of an `AddResponse`.
pub open spec fn encode_add_response(response: AddResponse) -> Seq<u8> {
    int32_field(1, response.result)
}

/// The bytes of a `ClientMessage`: its variant as one field, or nothing.
pub open spec fn encode_request(message: Option<Request>) -> Seq<u8> {
    match message {
        None => Seq::empty(),
        Some(Request::Echo { content }) => delimited_field(1, encode_echo(content)),
        Some(Request::Add { a, b }) => delimited_field(2, encode_add_request(AddRequest { a, b })),
    }
}

/// The bytes of a `ServerMessage`: its variant as one field, or nothing.
pub open spec fn encode_response(message: Option<Response>) -> Seq<u8> {
    match message {
        None => Seq::empty(),
        Some(Response::EchoResult { content }) => delimited_field(1, encode_echo(content)),
        Some(Response::AddResult { result }) => delimited_field(
            2,
            encode_add_response(AddResponse { result }),
        ),
    }
}

/// Reads `bytes` as a run of fields and merges them, first to last, into
/// `state`. `merge` says what a field does to the state, or that it is an
/// error. Bytes that are no run of fields are an error too.
pub open spec fn merge_fields<S>(
    state: S,
    bytes: Seq<u8>,
    depth: nat,
    merge: spec_fn(S, Field) -> Option<S>,
) -> Option<S>
    decreases bytes.len(),
{
    if bytes.len() == 0 {
        Some(state)
    } else {
        match parse_field(bytes, depth) {
            None => None,
            Some(field) => match merge(state, field.value) {
                None => None,
                Some(next) => {
                    proof {
                        lemma_parse_field_bounds(bytes, depth);
                    }
                    merge_fields(next, bytes.skip(field.len as int), depth, merge)
                },
            },
        }
    }
}

/// The number that a varint field holds; a field of another wire type holds none.
pub open spec fn int32_value(field: Field) -> Option<i32> {
    match field.value {
        FieldValue::Varint(raw) => Some(int32_from_varint(raw)),
        _ => None,
    }
}

/// The text that a length-delimited field holds, where its bytes are UTF-8.
pub open spec fn string_value(field: Field) -> Option<Seq<char>> {
    match field.value {
        FieldValue::LengthDelimited(body) => if valid_utf8(body) {
            Some(decode_utf8(body))
        } else {
            None
        },
        _ => None,
    }
}

/// What one field does to the text of an `EchoMessage`: field 1 replaces it.
pub open spec fn merge_echo_field(content: Seq<char>, field: Field) -> Option<Seq<char>> {
    if field.tag == 1 {
        string_value(field)
    } else {
        Some(content)
    }
}

/// What one field does to an `AddRequest`: field 1 sets `a`, field 2 sets `b`.
pub open spec fn merge_add_request_field(request: AddRequest, field: Field) -> Option<
    AddRequest,
> {
    if field.tag == 1 {
        match int32_value(field) {
            Some(a) => Some(AddRequest { a, b: request.b }),
            None => None,
        }
    } else if field.tag == 2 {
        match int32_value(field) {
            Some(b) => Some(AddRequest { a: request.a, b }),
            None => None,
        }
    } else {
        Some(request)
    }
}

/// What one field does to an `AddResponse`: field 1 sets `result`.
pub open spec fn merge_add_response_field(response: AddResponse, field: Field) -> Option<
    AddResponse,
> {
    if field.tag == 1 {
        match int32_value(field) {
            Some(result) => Some(AddResponse { result }),
            None => None,
        }
    } else {
        Some(response)
    }
}

/// The text that `bytes` make of an `EchoMessage` that held `before`.
pub open spec fn decode_echo(before: Seq<char>, bytes: Seq<u8>, depth: nat) -> Option<Seq<char>> {
    merge_fields(before, bytes, depth, |content: Seq<char>, field: Field| merge_echo_field(content, field))
}

/// The request that `bytes` make of an `AddRequest` that held `before`.
pub open spec fn decode_add_request(before: AddRequest, bytes: Seq<u8>, depth: nat) -> Option<
    AddRequest,
> {
    merge_fields(
        before,
        bytes,
        depth,
        |request: AddRequest, field: Field| merge_add_request_field(request, field),
    )
}

/// The response that `bytes` make of an `AddResponse` that held `before`.
pub open spec fn decode_add_response(before: AddResponse, bytes: Seq<u8>, depth: nat) -> Option<
    AddResponse,
> {
    merge_fields(
        before,
        bytes,
        depth,
        |response: AddResponse, field: Field| merge_add_response_field(response, field),
    )
}

/// The bytes of the message inside a field that holds one.
pub open spec fn message_body(field: Field) -> Option<Seq<u8>> {
    match field.value {
        FieldValue::LengthDelimited(body) => Some(body),
        _ => None,
    }
}

/// The levels that are left for groups inside a message that is itself a field.
pub open spec fn nested_depth() -> nat {
    (RECURSION_LIMIT - 1) as nat
}

/// What one field does to a `ClientMessage`. Field 1 holds an `EchoMessage`
/// and field 2 an `AddRequest`. Where no variant is set, the field sets its
/// own, read into an empty message; where its own is set already, the message
/// inside is merged into that. A field of one variant behind a field of the
/// other is a conflict: a message holds one variant, and such bytes are refused.
pub open spec fn merge_request_field(message: Option<Request>, field: Field) -> Option<
    Option<Request>,
> {
    if field.tag == 1 {
        let before = match message {
            None => Some(Seq::empty()),
            Some(Request::Echo { content }) => Some(content),
            Some(Request::Add { .. }) => None,
        };
        match (before, message_body(field)) {
            (Some(held), Some(body)) => match decode_echo(held, body, nested_depth()) {
                Some(content) => Some(Some(Request::Echo { content })),
                None => None,
            },
            _ => None,
        }
    } else if field.tag == 2 {
        let before = match message {
            None => Some(AddRequest { a: 0, b: 0 }),
            Some(Request::Add { a, b }) => Some(AddRequest { a, b }),
            Some(Request::Echo { .. }) => None,
        };
        match (before, message_body(field)) {
            (Some(held), Some(body)) => match decode_add_request(held, body, nested_depth()) {
                Some(request) => Some(Some(Request::Add { a: request.a, b: request.b })),
                None => None,
            },
            _ => None,
        }
    } else {
        Some(message)
    }
}

/// What one field does to a `ServerMessage`. Field 1 holds an `EchoMessage`
/// and field 2 an `AddResponse`, and what holds of the fields of a
/// `ClientMessage` holds of these.
pub open spec fn merge_response_field(message: Option<Response>, field: Field) -> Option<
    Option<Response>,
> {
    if field.tag == 1 {
        let before = match message {
            None => Some(Seq::empty()),
            Some(Response::EchoResult { content }) => Some(content),
            Some(Response::AddResult { .. }) => None,
        };
        match (before, message_body(field)) {
            (Some(held), Some(body)) => match decode_echo(held, body, nested_depth()) {
                Some(content) => Some(Some(Response::EchoResult { content })),
                None => None,
            },
            _ => None,
        }
    } else if field.tag == 2 {
        let before = match message {
            None => Some(AddResponse { result: 0 }),
            Some(Response::AddResult { result }) => Some(AddResponse { result }),
            Some(Response::EchoResult { .. }) => None,
        };
        match (before, message_body(field)) {
            (Some(held), Some(body)) => match decode_add_response(held, body, nested_depth()) {
                Some(response) => Some(Some(Response::AddResult { result: response.result })),
                None => None,
            },
            _ => None,
        }
    } else {
        Some(message)
    }
}

/// The `ClientMessage` that `bytes` stand for: `None` where they are
/// malformed, `Some(None)` where they are well-formed and set no variant.
pub open spec fn decode_request(bytes: Seq<u8>) -> Option<Option<Request>> {
    merge_fields(
        None,
        bytes,
        RECURSION_LIMIT as nat,
        |message: Option<Request>, field: Field| merge_request_field(message, field),
    )
}

/// The `ServerMessage` that `bytes` stand for: `None` where they are
/// malformed, `Some(None)` where they are well-formed and set no variant.
pub open spec fn decode_response(bytes: Seq<u8>) -> Option<Option<Response>> {
    merge_fields(
        None,
        bytes,
        RECURSION_LIMIT as nat,
        |message: Option<Response>, field: Field| merge_response_field(message, field),
    )
}

/// The error that `core::str::from_utf8` reports.
#[verifier::external_type_specification]
#[verifier::external_body]
pub struct ExUtf8Error(core::str::Utf8Error);

/// `core::str::from_utf8`: believed to succeed exactly on well-formed UTF-8,
/// and then to return a string slice over the same bytes.
#[verifier::external_body]
fn str_from_utf8<'a>(bytes: &'a [u8]) -> (result: Result<&'a str, core::str::Utf8Error>)
    ensures
        match result {
            Ok(text) => valid_utf8(bytes@) && text.spec_bytes() == bytes@,
            Err(_) => !valid_utf8(bytes@),
        },
{
    core::str::from_utf8(bytes)
}

/// The number that stands for `value` in a varint.
fn int32_to_u64(value: i32) -> (raw: u64)
    ensures
        raw == int32_to_varint(value),
{
    if value >= 0 {
        value as u64
    } else {
        u64::MAX - ((-(value as i64) - 1) as u64)
    }
}

/// The number that a varint stands for.
fn int32_from_u64(raw: u64) -> (value: i32)
    ensures
        value == int32_from_varint(raw as nat),
{
    let low: u64 = raw % 0x1_0000_0000;
    if low < 0x8000_0000 {
        low as i32
    } else {
        (low as i64 - 0x1_0000_0000) as i32
    }
}

/// Appends a number as the field `tag`, unless it is zero.
fn encode_int32_field(tag: u32, value: i32, buf: &mut Vec<u8>)
    requires
        1 <= tag <= 2,
    ensures
        final(buf)@ == old(buf)@ + int32_field(tag as nat, value),
{
    if value != 0 {
        encode_key(tag, WireType::Varint, buf);
        encode_varint(int32_to_u64(value), buf);
    }
}

/// Appends `body` as the field `tag`, and leaves `body` empty.
fn encode_delimited_field(tag: u32, body: &mut Vec<u8>, buf: &mut Vec<u8>)
    requires
        1 <= tag <= 2,
    ensures
        final(buf)@ == old(buf)@ + delimited_field(tag as nat, old(body)@),
{
    encode_key(tag, WireType::LengthDelimited, buf);
    encode_varint(body.len() as u64, buf);
    buf.append(body);
}

impl EchoMessage {
    /// Appends the bytes of this message to `buf`.
    pub fn encode(&self, buf: &mut Vec<u8>)
        ensures
            final(buf)@ == old(buf)@ + encode_echo(self@),
    {
        let text = self.content.as_str();
        let bytes = text.as_bytes();
        if bytes.len() != 0 {
            let mut body = slice_to_vec(bytes);
            encode_delimited_field(1, &mut body, buf);
        } else {
            assert(self@.len() == 0) by {
                if self@.len() > 0 {
                    vstd::utf8::encode_utf8_first_scalar(self@);
                }
            }
        }
    }
}

impl AddRequest {
    /// Appends the bytes of this message to `buf`.
    pub fn encode(&self, buf: &mut Vec<u8>)
        ensures
            final(buf)@ == old(buf)@ + encode_add_request(*self),
    {
        encode_int32_field(1, self.a, buf);
        encode_int32_field(2, self.b, buf);
    }
}

impl AddResponse {
    /// Appends the bytes of this message to `buf`.
    pub fn encode(&self, buf: &mut Vec<u8>)
        ensures
            final(buf)@ == old(buf)@ + encode_add_response(*self),
    {
        encode_int32_field(1, self.result, buf);
    }
}

impl client_message::Message {
    /// Appends this variant to `buf`, as the field of a `ClientMessage`.
    pub fn encode(&self, buf: &mut Vec<u8>)
        ensures
            final(buf)@ == old(buf)@ + encode_request(Some(self@)),
    {
        let mut body: Vec<u8> = Vec::new();
        match self {
            client_message::Message::EchoMessage(echo) => {
                echo.encode(&mut body);
                encode_delimited_field(1, &mut body, buf);
            },
            client_message::Message::AddRequest(add) => {
                add.encode(&mut body);
                encode_delimited_field(2, &mut body, buf);
            },
        }
    }
}

impl server_message::Message {
    /// Appends this variant to `buf`, as the field of a `ServerMessage`.
    pub fn encode(&self, buf: &mut Vec<u8>)
        ensures
            final(buf)@ == old(buf)@ + encode_response(Some(self@)),
    {
        let mut body: Vec<u8> = Vec::new();
        match self {
            server_message::Message::EchoMessage(echo) => {
                echo.encode(&mut body);
                encode_delimited_field(1, &mut body, buf);
            },
            server_message::Message::AddResponse(add) => {
                add.encode(&mut body);
                encode_delimited_field(2, &mut body, buf);
            },
        }
    }
}

impl ClientMessage {
    /// Appends the bytes of this message to `buf`.
    pub fn encode(&self, buf: &mut Vec<u8>)
        ensures
            final(buf)@ == old(buf)@ + encode_request(self@),
    {
        match &self.message {
            Some(message) => message.encode(buf),
            None => {},
        }
    }

    /// The bytes of this message.
    pub fn encode_to_vec(&self) -> (bytes: Vec<u8>)
        ensures
            bytes@ == encode_request(self@),
    {
        let mut buf: Vec<u8> = Vec::new();
        self.encode(&mut buf);
        buf
    }
}

impl ServerMessage {
    /// Appends the bytes of this message to `buf`.
    pub fn encode(&self, buf: &mut Vec<u8>)
        ensures
            final(buf)@ == old(buf)@ + encode_response(self@),
    {
        match &self.message {
            Some(message) => message.encode(buf),
            None => {},
        }
    }

    /// The bytes of this message.
    pub fn encode_to_vec(&self) -> (bytes: Vec<u8>)
        ensures
            bytes@ == encode_response(self@),
    {
        let mut buf: Vec<u8> = Vec::new();
        self.encode(&mut buf);
        buf
    }
}

impl EchoMessage {
    /// Merges the fields in `buf` into this message.
    fn merge(self, buf: &[u8], depth: u32) -> (result: Result<EchoMessage, ProtocolError>)
        ensures
            match result {
                Ok(message) => decode_echo(self@, buf@, depth as nat) == Some(message@),
                Err(error) => error == ProtocolError::MalformedMessage && decode_echo(
                    self@,
                    buf@,
                    depth as nat,
                ) is None,
            },
    {
        let mut message = self;
        let mut rest = buf;
        while rest.len() > 0
            invariant
                decode_echo(message@, rest@, depth as nat) == decode_echo(
                    self@,
                    buf@,
                    depth as nat,
                ),
            decreases rest@.len(),
        {
            let (tag, data, after) = match next_field(rest, depth) {
                Ok(field) => field,
                Err(error) => {
                    return Err(error);
                },
            };
            if tag == 1 {
                match data {
                    FieldData::LengthDelimited(body) => match str_from_utf8(body) {
                        Ok(text) => {
                            proof {
                                encode_utf8_decode_utf8(text@);
                            }
                            message = EchoMessage { content: text.to_owned() };
                        },
                        Err(_) => {
                            return Err(ProtocolError::MalformedMessage);
                        },
                    },
                    _ => {
                        return Err(ProtocolError::MalformedMessage);
                    },
                }
            }
            rest = after;
        }
        Ok(message)
    }

    /// Reads a message from `buf`, all of it.
    pub fn decode(buf: &[u8]) -> (result: Result<EchoMessage, ProtocolError>)
        ensures
            match result {
                Ok(message) => decode_echo(Seq::empty(), buf@, RECURSION_LIMIT as nat) == Some(
                    message@,
                ),
                Err(error) => error == ProtocolError::MalformedMessage && decode_echo(
                    Seq::empty(),
                    buf@,
                    RECURSION_LIMIT as nat,
                ) is None,
            },
    {
        EchoMessage::default().merge(buf, RECURSION_LIMIT)
    }
}

impl AddRequest {
    /// Merges the fields in `buf` into this message.
    fn merge(self, buf: &[u8], depth: u32) -> (result: Result<AddRequest, ProtocolError>)
        ensures
            match result {
                Ok(message) => decode_add_request(self, buf@, depth as nat) == Some(message),
                Err(error) => error == ProtocolError::MalformedMessage && decode_add_request(
                    self,
                    buf@,
                    depth as nat,
                ) is None,
            },
    {
        let mut message = self;
        let mut rest = buf;
        while rest.len() > 0
            invariant
                decode_add_request(message, rest@, depth as nat) == decode_add_request(
                    self,
                    buf@,
                    depth as nat,
                ),
            decreases rest@.len(),
        {
            let (tag, data, after) = match next_field(rest, depth) {
                Ok(field) => field,
                Err(error) => {
                    return Err(error);
                },
            };
            if tag == 1 || tag == 2 {
                match data {
                    FieldData::Varint(raw) => {
                        if tag == 1 {
                            message.a = int32_from_u64(raw);
                        } else {
                            message.b = int32_from_u64(raw);
                        }
                    },
                    _ => {
                        return Err(ProtocolError::MalformedMessage);
                    },
                }
            }
            rest = after;
        }
        Ok(message)
    }

    /// Reads a message from `buf`, all of it.
    pub fn decode(buf: &[u8]) -> (result: Result<AddRequest, ProtocolError>)
        ensures
            match result {
                Ok(message) => decode_add_request(
                    AddRequest { a: 0, b: 0 },
                    buf@,
                    RECURSION_LIMIT as nat,
                ) == Some(message),
                Err(error) => error == ProtocolError::MalformedMessage && decode_add_request(
                    AddRequest { a: 0, b: 0 },
                    buf@,
                    RECURSION_LIMIT as nat,
                ) is None,
            },
    {
        AddRequest::default().merge(buf, RECURSION_LIMIT)
    }
}

impl AddResponse {
    /// Merges the fields in `buf` into this message.
    fn merge(self, buf: &[u8], depth: u32) -> (result: Result<AddResponse, ProtocolError>)
        ensures
            match result {
                Ok(message) => decode_add_response(self, buf@, depth as nat) == Some(message),
                Err(error) => error == ProtocolError::MalformedMessage && decode_add_response(
                    self,
                    buf@,
                    depth as nat,
                ) is None,
            },
    {
        let mut message = self;
        let mut rest = buf;
        while rest.len() > 0
            invariant
                decode_add_response(message, rest@, depth as nat) == decode_add_response(
                    self,
                    buf@,
                    depth as nat,
                ),
            decreases rest@.len(),
        {
            let (tag, data, after) = match next_field(rest, depth) {
                Ok(field) => field,
                Err(error) => {
                    return Err(error);
                },
            };
            if tag == 1 {
                match data {
                    FieldData::Varint(raw) => {
                        message.result = int32_from_u64(raw);
                    },
                    _ => {
                        return Err(ProtocolError::MalformedMessage);
                    },
                }
            }
            rest = after;
        }
        Ok(message)
    }

    /// Reads a message from `buf`, all of it.
    pub fn decode(buf: &[u8]) -> (result: Result<AddResponse, ProtocolError>)
        ensures
            match result {
                Ok(message) => decode_add_response(
                    AddResponse { result: 0 },
                    buf@,
                    RECURSION_LIMIT as nat,
                ) == Some(message),
                Err(error) => error == ProtocolError::MalformedMessage && decode_add_response(
                    AddResponse { result: 0 },
                    buf@,
                    RECURSION_LIMIT as nat,
                ) is None,
            },
    {
        AddResponse::default().merge(buf, RECURSION_LIMIT)
    }
}

impl ClientMessage {
    /// Reads a message from `buf`, all of it. The bytes are well-formed or
    /// they are not: nothing else makes this fail.
    pub fn decode(buf: &[u8]) -> (result: Result<ClientMessage, ProtocolError>)
        ensures
            match result {
                Ok(message) => decode_request(buf@) == Some(message@),
                Err(error) => error == ProtocolError::MalformedMessage && decode_request(buf@)
                    is None,
            },
    {
        let mut message: Option<client_message::Message> = None;
        let mut rest = buf;
        while rest.len() > 0
            invariant
                merge_fields(
                    (ClientMessage { message })@,
                    rest@,
                    RECURSION_LIMIT as nat,
                    |message: Option<Request>, field: Field| merge_request_field(message, field),
                ) == decode_request(buf@),
            decreases rest@.len(),
        {
            let (tag, data, after) = match next_field(rest, RECURSION_LIMIT) {
                Ok(field) => field,
                Err(error) => {
                    return Err(error);
                },
            };
            if tag == 1 {
                let before = match message {
                    None => EchoMessage::default(),
                    Some(client_message::Message::EchoMessage(echo)) => echo,
                    Some(client_message::Message::AddRequest(_)) => {
                        return Err(ProtocolError::MalformedMessage);
                    },
                };
                let body = match data {
                    FieldData::LengthDelimited(body) => body,
                    _ => {
                        return Err(ProtocolError::MalformedMessage);
                    },
                };
                match before.merge(body, RECURSION_LIMIT - 1) {
                    Ok(echo) => {
                        message = Some(client_message::Message::EchoMessage(echo));
                    },
                    Err(error) => {
                        return Err(error);
                    },
                }
            } else if tag == 2 {
                let before = match message {
                    None => AddRequest::default(),
                    Some(client_message::Message::AddRequest(add)) => add,
                    Some(client_message::Message::EchoMessage(_)) => {
                        return Err(ProtocolError::MalformedMessage);
                    },
                };
                let body = match data {
                    FieldData::LengthDelimited(body) => body,
                    _ => {
                        return Err(ProtocolError::MalformedMessage);
                    },
                };
                match before.merge(body, RECURSION_LIMIT - 1) {
                    Ok(add) => {
                        message = Some(client_message::Message::AddRequest(add));
                    },
                    Err(error) => {
                        return Err(error);
                    },
                }
            }
            rest = after;
        }
        Ok(ClientMessage { message })
    }
}

impl ServerMessage {
    /// Reads a message from `buf`, all of it. The bytes are well-formed or
    /// they are not: nothing else makes this fail.
    pub fn decode(buf: &[u8]) -> (result: Result<ServerMessage, ProtocolError>)
        ensures
            match result {
                Ok(message) => decode_response(buf@) == Some(message@),
                Err(error) => error == ProtocolError::MalformedMessage && decode_response(buf@)
                    is None,
            },
    {
        let mut message: Option<server_message::Message> = None;
        let mut rest = buf;
        while rest.len() > 0
            invariant
                merge_fields(
                    (ServerMessage { message })@,
                    rest@,
                    RECURSION_LIMIT as nat,
                    |message: Option<Response>, field: Field| merge_response_field(message, field),
                ) == decode_response(buf@),
            decreases rest@.len(),
        {
            let (tag, data, after) = match next_field(rest, RECURSION_LIMIT) {
                Ok(field) => field,
                Err(error) => {
                    return Err(error);
                },
            };
            if tag == 1 {
                let before = match message {
                    None => EchoMessage::default(),
                    Some(server_message::Message::EchoMessage(echo)) => echo,
                    Some(server_message::Message::AddResponse(_)) => {
                        return Err(ProtocolError::MalformedMessage);
                    },
                };
                let body = match data {
                    FieldData::LengthDelimited(body) => body,
                    _ => {
                        return Err(ProtocolError::MalformedMessage);
                    },
                };
                match before.merge(body, RECURSION_LIMIT - 1) {
                    Ok(echo) => {
                        message = Some(server_message::Message::EchoMessage(echo));
                    },
                    Err(error) => {
                        return Err(error);
                    },
                }
            } else if tag == 2 {
                let before = match message {
                    None => AddResponse::default(),
                    Some(server_message::Message::AddResponse(add)) => add,
                    Some(server_message::Message::EchoMessage(_)) => {
                        return Err(ProtocolError::MalformedMessage);
                    },
                };
                let body = match data {
                    FieldData::LengthDelimited(body) => body,
                    _ => {
                        return Err(ProtocolError::MalformedMessage);
                    },
                };
                match before.merge(body, RECURSION_LIMIT - 1) {
                    Ok(add) => {
                        message = Some(server_message::Message::AddResponse(add));
                    },
                    Err(error) => {
                        return Err(error);
                    },
                }
            }
            rest = after;
        }
        Ok(ServerMessage { message })
    }
}

} // verus!
