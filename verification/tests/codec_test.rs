use framed_rpc::error::ProtocolError;
use framed_rpc::field::{next_field, FieldData, RECURSION_LIMIT};
use framed_rpc::message::{
    client_message, server_message, AddRequest, AddResponse, ClientMessage, EchoMessage,
    ServerMessage,
};

fn add(a: i32, b: i32) -> ClientMessage {
    ClientMessage { message: Some(client_message::Message::AddRequest(AddRequest { a, b })) }
}

fn echo(content: &str) -> ClientMessage {
    ClientMessage {
        message: Some(client_message::Message::EchoMessage(EchoMessage {
            content: content.to_string(),
        })),
    }
}

fn sum(result: i32) -> ServerMessage {
    ServerMessage { message: Some(server_message::Message::AddResponse(AddResponse { result })) }
}

fn echoed(content: &str) -> ServerMessage {
    ServerMessage {
        message: Some(server_message::Message::EchoMessage(EchoMessage {
            content: content.to_string(),
        })),
    }
}

#[test]
fn add_request_bytes_are_exact() {
    let mut buf = Vec::new();
    AddRequest { a: 10, b: 20 }.encode(&mut buf);
    assert_eq!(buf, vec![0x08, 0x0a, 0x10, 0x14]);
    assert_eq!(add(10, 20).encode_to_vec(), vec![0x12, 0x04, 0x08, 0x0a, 0x10, 0x14]);
}

#[test]
fn varint_takes_seven_bits_per_byte() {
    let mut buf = Vec::new();
    AddRequest { a: 300, b: 0 }.encode(&mut buf);
    assert_eq!(buf, vec![0x08, 0xac, 0x02]);
    let mut buf = Vec::new();
    AddRequest { a: 0, b: 128 }.encode(&mut buf);
    assert_eq!(buf, vec![0x10, 0x80, 0x01]);
    let mut buf = Vec::new();
    AddRequest { a: i32::MAX, b: 0 }.encode(&mut buf);
    assert_eq!(buf, vec![0x08, 0xff, 0xff, 0xff, 0xff, 0x07]);
}

#[test]
fn negative_number_takes_ten_bytes() {
    let mut buf = Vec::new();
    AddResponse { result: -1 }.encode(&mut buf);
    assert_eq!(buf, vec![0x08, 0xff, 0xff, 0xff, 0xff, 0xff, 0xff, 0xff, 0xff, 0xff, 0x01]);
    assert_eq!(AddResponse::decode(&buf), Ok(AddResponse { result: -1 }));
    let mut buf = Vec::new();
    AddResponse { result: i32::MIN }.encode(&mut buf);
    assert_eq!(buf, vec![0x08, 0x80, 0x80, 0x80, 0x80, 0xf8, 0xff, 0xff, 0xff, 0xff, 0x01]);
    assert_eq!(AddResponse::decode(&buf), Ok(AddResponse { result: i32::MIN }));
}

#[test]
fn zero_and_empty_are_left_out() {
    let mut buf = Vec::new();
    AddRequest { a: 0, b: 0 }.encode(&mut buf);
    assert!(buf.is_empty());
    EchoMessage { content: String::new() }.encode(&mut buf);
    assert!(buf.is_empty());
    assert_eq!(add(0, 0).encode_to_vec(), vec![0x12, 0x00]);
    assert_eq!(echo("").encode_to_vec(), vec![0x0a, 0x00]);
    assert_eq!(sum(0).encode_to_vec(), vec![0x12, 0x00]);
    assert!(ClientMessage { message: None }.encode_to_vec().is_empty());
    assert!(ServerMessage { message: None }.encode_to_vec().is_empty());
}

#[test]
fn echo_bytes_are_exact() {
    assert_eq!(
        echo("Hello").encode_to_vec(),
        vec![0x0a, 0x07, 0x0a, 0x05, b'H', b'e', b'l', b'l', b'o']
    );
    assert_eq!(
        echoed("hé").encode_to_vec(),
        vec![0x0a, 0x05, 0x0a, 0x03, b'h', 0xc3, 0xa9]
    );
}

#[test]
fn encode_appends_to_what_the_buffer_holds() {
    let mut buf = vec![0xee, 0xff];
    add(1, 2).encode(&mut buf);
    assert_eq!(buf, vec![0xee, 0xff, 0x12, 0x04, 0x08, 0x01, 0x10, 0x02]);
    client_message::Message::AddRequest(AddRequest { a: 1, b: 0 }).encode(&mut buf);
    assert_eq!(buf, vec![0xee, 0xff, 0x12, 0x04, 0x08, 0x01, 0x10, 0x02, 0x12, 0x02, 0x08, 0x01]);
    server_message::Message::AddResponse(AddResponse { result: 3 }).encode(&mut buf);
    assert_eq!(&buf[12..], &[0x12, 0x02, 0x08, 0x03]);
}

#[test]
fn requests_are_read_back_as_written() {
    let texts = ["", "a", "Hello, World!", "héllo wörld", "日本語", "\u{1F600} smile", "\0"];
    for text in texts {
        let message = echo(text);
        assert_eq!(ClientMessage::decode(&message.encode_to_vec()), Ok(message));
    }
    let numbers = [0, 1, -1, 127, 128, 300, -300, 65_536, i32::MAX, i32::MIN];
    for a in numbers {
        for b in numbers {
            let message = add(a, b);
            assert_eq!(ClientMessage::decode(&message.encode_to_vec()), Ok(message));
        }
    }
    let unset = ClientMessage { message: None };
    assert_eq!(ClientMessage::decode(&unset.encode_to_vec()), Ok(unset));
}

#[test]
fn responses_are_read_back_as_written() {
    for text in ["", "x", "Goodbye!", "ünïcödé"] {
        let message = echoed(text);
        assert_eq!(ServerMessage::decode(&message.encode_to_vec()), Ok(message));
    }
    for result in [0, 30, -30, i32::MAX, i32::MIN] {
        let message = sum(result);
        assert_eq!(ServerMessage::decode(&message.encode_to_vec()), Ok(message));
    }
    let unset = ServerMessage { message: None };
    assert_eq!(ServerMessage::decode(&unset.encode_to_vec()), Ok(unset));
}

#[test]
fn long_text_is_read_back_as_written() {
    let message = echo(&"a".repeat(100_000));
    let bytes = message.encode_to_vec();
    // key, three bytes of length, then the inner key, three bytes of length, the text
    assert_eq!(bytes.len(), 100_000 + 8);
    assert_eq!(ClientMessage::decode(&bytes), Ok(message));
}

#[test]
fn no_bytes_set_no_variant() {
    assert_eq!(ClientMessage::decode(&[]), Ok(ClientMessage { message: None }));
    assert_eq!(ServerMessage::decode(&[]), Ok(ServerMessage { message: None }));
    assert_eq!(ClientMessage::default(), ClientMessage { message: None });
    assert_eq!(EchoMessage::decode(&[]), Ok(EchoMessage::default()));
    assert_eq!(AddRequest::decode(&[]), Ok(AddRequest::default()));
}

#[test]
fn unknown_fields_are_stepped_over() {
    // field 3 as a varint, then the request, then field 4 as four bytes
    let mut bytes = vec![0x18, 0x96, 0x01];
    bytes.extend_from_slice(&add(10, 20).encode_to_vec());
    bytes.extend_from_slice(&[0x25, 1, 2, 3, 4]);
    assert_eq!(ClientMessage::decode(&bytes), Ok(add(10, 20)));
    // only unknown fields: well-formed, and no variant is set
    assert_eq!(ClientMessage::decode(&[0x18, 0x01]), Ok(ClientMessage { message: None }));
    // field 3 as eight bytes, field 5 length-delimited, inside an AddRequest
    let inner = [0x19, 1, 2, 3, 4, 5, 6, 7, 8, 0x08, 0x05, 0x2a, 0x02, 0xff, 0xff];
    assert_eq!(AddRequest::decode(&inner), Ok(AddRequest { a: 5, b: 0 }));
    // a group numbered 3 that holds a varint field, then its end
    let group = [0x1b, 0x08, 0x01, 0x1c, 0x10, 0x07];
    assert_eq!(AddRequest::decode(&group), Ok(AddRequest { a: 0, b: 7 }));
}

#[test]
fn later_field_stands() {
    assert_eq!(AddRequest::decode(&[0x08, 0x01, 0x08, 0x02]), Ok(AddRequest { a: 2, b: 0 }));
    let mut bytes = vec![0x0a, 0x01, b'a'];
    bytes.extend_from_slice(&[0x0a, 0x02, b'b', b'c']);
    assert_eq!(EchoMessage::decode(&bytes), Ok(EchoMessage { content: "bc".to_string() }));
    // the same variant twice: the second is merged into the first
    let mut bytes = add(1, 2).encode_to_vec();
    bytes.extend_from_slice(&add(0, 9).encode_to_vec());
    assert_eq!(ClientMessage::decode(&bytes), Ok(add(1, 9)));
    let mut bytes = echoed("kept").encode_to_vec();
    bytes.extend_from_slice(&echoed("").encode_to_vec());
    assert_eq!(ServerMessage::decode(&bytes), Ok(echoed("kept")));
}

#[test]
fn two_variants_in_one_message_are_refused() {
    let mut bytes = echo("first").encode_to_vec();
    bytes.extend_from_slice(&add(1, 2).encode_to_vec());
    assert_eq!(ClientMessage::decode(&bytes), Err(ProtocolError::MalformedMessage));
    let mut bytes = add(1, 2).encode_to_vec();
    bytes.extend_from_slice(&echo("second").encode_to_vec());
    assert_eq!(ClientMessage::decode(&bytes), Err(ProtocolError::MalformedMessage));
    let mut bytes = sum(3).encode_to_vec();
    bytes.extend_from_slice(&echoed("").encode_to_vec());
    assert_eq!(ServerMessage::decode(&bytes), Err(ProtocolError::MalformedMessage));
    let mut bytes = echoed("x").encode_to_vec();
    bytes.extend_from_slice(&[0x18, 0x01]);
    bytes.extend_from_slice(&sum(0).encode_to_vec());
    assert_eq!(ServerMessage::decode(&bytes), Err(ProtocolError::MalformedMessage));
}

#[test]
fn number_is_cut_to_its_low_32_bits() {
    // 2^32 + 5 as a varint
    let bytes = [0x08, 0x85, 0x80, 0x80, 0x80, 0x10];
    assert_eq!(AddRequest::decode(&bytes), Ok(AddRequest { a: 5, b: 0 }));
    // a zero that is written in two bytes
    assert_eq!(AddRequest::decode(&[0x10, 0x80, 0x00]), Ok(AddRequest { a: 0, b: 0 }));
}

#[test]
fn malformed_bytes_are_refused() {
    let malformed = Err(ProtocolError::MalformedMessage);
    // a key with nothing behind it
    assert_eq!(ClientMessage::decode(&[0x0a]), malformed);
    // a length that runs past the end
    assert_eq!(ClientMessage::decode(&[0x0a, 0x05, 0x0a]), malformed);
    // field number zero
    assert_eq!(ClientMessage::decode(&[0x00, 0x00]), malformed);
    // wire types six and seven
    assert_eq!(ClientMessage::decode(&[0x1e, 0x00]), malformed);
    assert_eq!(ClientMessage::decode(&[0x1f, 0x00]), malformed);
    // a known field with another wire type than it has
    assert_eq!(ClientMessage::decode(&[0x08, 0x01]), malformed);
    assert_eq!(AddRequest::decode(&[0x0a, 0x01, 0x00]), Err(ProtocolError::MalformedMessage));
    assert_eq!(EchoMessage::decode(&[0x08, 0x01]), Err(ProtocolError::MalformedMessage));
    // a varint of eleven bytes, and one whose tenth byte holds more than one bit
    let eleven = [0x08, 0x80, 0x80, 0x80, 0x80, 0x80, 0x80, 0x80, 0x80, 0x80, 0x80, 0x01];
    assert_eq!(AddRequest::decode(&eleven), Err(ProtocolError::MalformedMessage));
    let overflow = [0x08, 0xff, 0xff, 0xff, 0xff, 0xff, 0xff, 0xff, 0xff, 0xff, 0x02];
    assert_eq!(AddRequest::decode(&overflow), Err(ProtocolError::MalformedMessage));
    // a varint that never ends
    assert_eq!(AddRequest::decode(&[0x08, 0x80]), Err(ProtocolError::MalformedMessage));
    // a key above 32 bits
    assert_eq!(
        AddRequest::decode(&[0x88, 0x80, 0x80, 0x80, 0x10, 0x01]),
        Err(ProtocolError::MalformedMessage)
    );
    // an end of group without a start, and a group closed under another number
    assert_eq!(AddRequest::decode(&[0x1c]), Err(ProtocolError::MalformedMessage));
    assert_eq!(AddRequest::decode(&[0x1b, 0x24]), Err(ProtocolError::MalformedMessage));
    // a group that is never closed
    assert_eq!(AddRequest::decode(&[0x1b, 0x08, 0x01]), Err(ProtocolError::MalformedMessage));
    // too few bytes for a fixed-width field
    assert_eq!(AddRequest::decode(&[0x1d, 1, 2, 3]), Err(ProtocolError::MalformedMessage));
    assert_eq!(AddRequest::decode(&[0x19, 1, 2, 3, 4, 5, 6, 7]), Err(ProtocolError::MalformedMessage));
    // a message inside that is malformed
    assert_eq!(ClientMessage::decode(&[0x12, 0x01, 0x08]), malformed);
    assert_eq!(ServerMessage::decode(&[0x12, 0x02, 0x0a, 0x00]), Err(ProtocolError::MalformedMessage));
}

#[test]
fn text_must_be_utf8() {
    // a lone continuation byte, a truncated sequence, an overlong form, a surrogate
    for body in [vec![0x80], vec![0xc3], vec![0xc0, 0xaf], vec![0xed, 0xa0, 0x80], vec![0xff]] {
        let mut bytes = vec![0x0a, body.len() as u8];
        bytes.extend_from_slice(&body);
        assert_eq!(EchoMessage::decode(&bytes), Err(ProtocolError::MalformedMessage));
        let mut outer = vec![0x0a, bytes.len() as u8];
        outer.extend_from_slice(&bytes);
        assert_eq!(ClientMessage::decode(&outer), Err(ProtocolError::MalformedMessage));
    }
    let bytes = [0x0a, 0x04, 0xf0, 0x9f, 0x98, 0x80];
    assert_eq!(EchoMessage::decode(&bytes), Ok(EchoMessage { content: "\u{1F600}".to_string() }));
}

#[test]
fn groups_nest_to_a_limit() {
    // `levels` groups numbered 3, one inside the other
    fn nested(levels: usize) -> Vec<u8> {
        let mut bytes = vec![0x1b; levels];
        bytes.extend(vec![0x1c; levels]);
        bytes
    }
    assert_eq!(AddRequest::decode(&nested(1)), Ok(AddRequest::default()));
    assert_eq!(AddRequest::decode(&nested(100)), Ok(AddRequest::default()));
    assert_eq!(AddRequest::decode(&nested(101)), Err(ProtocolError::MalformedMessage));
    assert_eq!(ClientMessage::decode(&nested(100)), Ok(ClientMessage::default()));
    assert_eq!(ClientMessage::decode(&nested(101)), Err(ProtocolError::MalformedMessage));
    // inside the message of a variant one level is already taken
    let inside = |levels: usize| {
        let body = nested(levels);
        let mut bytes = vec![0x12, body.len() as u8, 0x01];
        bytes.extend_from_slice(&body);
        bytes
    };
    assert_eq!(ClientMessage::decode(&inside(99)), Ok(add(0, 0)));
    assert_eq!(ClientMessage::decode(&inside(100)), Err(ProtocolError::MalformedMessage));
}

#[test]
fn next_field_reads_one_field() {
    let bytes = [0x08, 0x96, 0x01, 0x12, 0x02, 0xaa, 0xbb, 0x1d, 1, 2, 3, 4];
    let (tag, data, rest) = next_field(&bytes, RECURSION_LIMIT).unwrap();
    assert_eq!(tag, 1);
    assert!(matches!(data, FieldData::Varint(150)));
    let (tag, data, rest) = next_field(rest, RECURSION_LIMIT).unwrap();
    assert_eq!(tag, 2);
    assert!(matches!(data, FieldData::LengthDelimited(body) if body == [0xaa, 0xbb]));
    let (tag, data, rest) = next_field(rest, RECURSION_LIMIT).unwrap();
    assert_eq!(tag, 3);
    assert!(matches!(data, FieldData::ThirtyTwoBit));
    assert!(rest.is_empty());
    assert_eq!(next_field(rest, RECURSION_LIMIT).err(), Some(ProtocolError::MalformedMessage));
    // with no level left nothing is read
    assert_eq!(next_field(&bytes, 0).err(), Some(ProtocolError::MalformedMessage));
    // the largest field number
    let (tag, _, _) = next_field(&[0xf8, 0xff, 0xff, 0xff, 0x0f, 0x00], 1).unwrap();
    assert_eq!(tag, 0x1fff_ffff);
}

#[test]
fn errors_describe_themselves() {
    assert_eq!(ProtocolError::InvalidFrameLength.message(), "Invalid message length");
    assert_eq!(ProtocolError::MalformedMessage.message(), "Failed to decode message");
    assert_eq!(ProtocolError::UnsupportedMessageType.message(), "Unsupported message type");
    assert_eq!(ProtocolError::ConnectionClosed.message(), "Connection closed");
}
