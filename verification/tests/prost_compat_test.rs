// Holds the library's codec against prost's own: the same messages, written
// by hand as prost messages, must give the same bytes and read the same bytes.
// The one difference is wanted: where both variants of a message stand in the
// bytes, prost lets the later one stand, and the library refuses the bytes.

use framed_rpc::field::{next_field, RECURSION_LIMIT};
use framed_rpc::message::{
    client_message, server_message, AddRequest, AddResponse, ClientMessage, EchoMessage,
    ServerMessage,
};
use prost::bytes::{Buf, BufMut};
use prost::encoding::{self, DecodeContext, WireType};
use prost::{DecodeError, Message};

#[derive(Clone, Debug, Default, PartialEq)]
struct WireEcho {
    content: String,
}

impl Message for WireEcho {
    fn encode_raw(&self, buf: &mut impl BufMut) {
        if !self.content.is_empty() {
            encoding::string::encode(1, &self.content, buf);
        }
    }

    fn merge_field(
        &mut self,
        tag: u32,
        wire_type: WireType,
        buf: &mut impl Buf,
        ctx: DecodeContext,
    ) -> Result<(), DecodeError> {
        match tag {
            1 => encoding::string::merge(wire_type, &mut self.content, buf, ctx),
            _ => encoding::skip_field(wire_type, tag, buf, ctx),
        }
    }

    fn encoded_len(&self) -> usize {
        if self.content.is_empty() {
            0
        } else {
            encoding::string::encoded_len(1, &self.content)
        }
    }

    fn clear(&mut self) {
        self.content.clear();
    }
}

#[derive(Clone, Debug, Default, PartialEq)]
struct WireNumbers {
    first: i32,
    second: i32,
}

impl Message for WireNumbers {
    fn encode_raw(&self, buf: &mut impl BufMut) {
        if self.first != 0 {
            encoding::int32::encode(1, &self.first, buf);
        }
        if self.second != 0 {
            encoding::int32::encode(2, &self.second, buf);
        }
    }

    fn merge_field(
        &mut self,
        tag: u32,
        wire_type: WireType,
        buf: &mut impl Buf,
        ctx: DecodeContext,
    ) -> Result<(), DecodeError> {
        match tag {
            1 => encoding::int32::merge(wire_type, &mut self.first, buf, ctx),
            2 => encoding::int32::merge(wire_type, &mut self.second, buf, ctx),
            _ => encoding::skip_field(wire_type, tag, buf, ctx),
        }
    }

    fn encoded_len(&self) -> usize {
        let mut len = 0;
        if self.first != 0 {
            len += encoding::int32::encoded_len(1, &self.first);
        }
        if self.second != 0 {
            len += encoding::int32::encoded_len(2, &self.second);
        }
        len
    }

    fn clear(&mut self) {
        self.first = 0;
        self.second = 0;
    }
}

#[derive(Clone, Debug, Default, PartialEq)]
struct WireNumber {
    result: i32,
}

impl Message for WireNumber {
    fn encode_raw(&self, buf: &mut impl BufMut) {
        if self.result != 0 {
            encoding::int32::encode(1, &self.result, buf);
        }
    }

    fn merge_field(
        &mut self,
        tag: u32,
        wire_type: WireType,
        buf: &mut impl Buf,
        ctx: DecodeContext,
    ) -> Result<(), DecodeError> {
        match tag {
            1 => encoding::int32::merge(wire_type, &mut self.result, buf, ctx),
            _ => encoding::skip_field(wire_type, tag, buf, ctx),
        }
    }

    fn encoded_len(&self) -> usize {
        if self.result != 0 {
            encoding::int32::encoded_len(1, &self.result)
        } else {
            0
        }
    }

    fn clear(&mut self) {
        self.result = 0;
    }
}

#[derive(Clone, Debug, PartialEq)]
enum WireVariant<Second> {
    Echo(WireEcho),
    Other(Second),
}

// A message with one field that is either an echo, numbered 1, or `Second`, numbered 2.
#[derive(Clone, Debug, PartialEq)]
struct WireUnion<Second> {
    message: Option<WireVariant<Second>>,
}

impl<Second> Default for WireUnion<Second> {
    fn default() -> Self {
        WireUnion { message: None }
    }
}

impl<Second: Message + Default> Message for WireUnion<Second> {
    fn encode_raw(&self, buf: &mut impl BufMut) {
        match &self.message {
            Some(WireVariant::Echo(value)) => encoding::message::encode(1, value, buf),
            Some(WireVariant::Other(value)) => encoding::message::encode(2, value, buf),
            None => {}
        }
    }

    fn merge_field(
        &mut self,
        tag: u32,
        wire_type: WireType,
        buf: &mut impl Buf,
        ctx: DecodeContext,
    ) -> Result<(), DecodeError> {
        match tag {
            1 => match &mut self.message {
                Some(WireVariant::Echo(value)) => {
                    encoding::message::merge(wire_type, value, buf, ctx)
                }
                _ => {
                    let mut owned = WireEcho::default();
                    encoding::message::merge(wire_type, &mut owned, buf, ctx)
                        .map(|_| self.message = Some(WireVariant::Echo(owned)))
                }
            },
            2 => match &mut self.message {
                Some(WireVariant::Other(value)) => {
                    encoding::message::merge(wire_type, value, buf, ctx)
                }
                _ => {
                    let mut owned = Second::default();
                    encoding::message::merge(wire_type, &mut owned, buf, ctx)
                        .map(|_| self.message = Some(WireVariant::Other(owned)))
                }
            },
            _ => encoding::skip_field(wire_type, tag, buf, ctx),
        }
    }

    fn encoded_len(&self) -> usize {
        match &self.message {
            Some(WireVariant::Echo(value)) => encoding::message::encoded_len(1, value),
            Some(WireVariant::Other(value)) => encoding::message::encoded_len(2, value),
            None => 0,
        }
    }

    fn clear(&mut self) {
        self.message = None;
    }
}

fn client_as_wire(message: &ClientMessage) -> WireUnion<WireNumbers> {
    WireUnion {
        message: match &message.message {
            Some(client_message::Message::EchoMessage(echo)) => {
                Some(WireVariant::Echo(WireEcho { content: echo.content.clone() }))
            }
            Some(client_message::Message::AddRequest(add)) => {
                Some(WireVariant::Other(WireNumbers { first: add.a, second: add.b }))
            }
            None => None,
        },
    }
}

fn server_as_wire(message: &ServerMessage) -> WireUnion<WireNumber> {
    WireUnion {
        message: match &message.message {
            Some(server_message::Message::EchoMessage(echo)) => {
                Some(WireVariant::Echo(WireEcho { content: echo.content.clone() }))
            }
            Some(server_message::Message::AddResponse(add)) => {
                Some(WireVariant::Other(WireNumber { result: add.result }))
            }
            None => None,
        },
    }
}

// Whether fields numbered 1 and 2 both stand among the fields of `bytes`.
fn holds_both_variants(bytes: &[u8]) -> bool {
    let mut rest = bytes;
    let mut seen = [false, false];
    while let Ok((tag, _, behind)) = next_field(rest, RECURSION_LIMIT) {
        if tag == 1 || tag == 2 {
            seen[tag as usize - 1] = true;
        }
        rest = behind;
    }
    seen[0] && seen[1]
}

// Reads `bytes` with both codecs and holds the results against each other.
fn check_both(bytes: &[u8]) -> bool {
    let ours = ClientMessage::decode(bytes);
    let theirs = WireUnion::<WireNumbers>::decode(bytes);
    match (&ours, &theirs) {
        (Ok(ours), Ok(theirs)) => {
            assert_eq!(&client_as_wire(ours), theirs, "{:?}", bytes);
            assert!(!holds_both_variants(bytes), "{:?}", bytes);
        }
        (Err(_), Err(_)) => {}
        (Err(_), Ok(_)) if holds_both_variants(bytes) => {}
        _ => panic!("request {:?}: {:?} against {:?}", bytes, ours, theirs),
    }
    let ours = ServerMessage::decode(bytes);
    let theirs = WireUnion::<WireNumber>::decode(bytes);
    match (&ours, &theirs) {
        (Ok(ours), Ok(theirs)) => {
            assert_eq!(&server_as_wire(ours), theirs, "{:?}", bytes);
            assert!(!holds_both_variants(bytes), "{:?}", bytes);
        }
        (Err(_), Err(_)) => {}
        (Err(_), Ok(_)) if holds_both_variants(bytes) => {}
        _ => panic!("response {:?}: {:?} against {:?}", bytes, ours, theirs),
    }
    let ours = EchoMessage::decode(bytes);
    let theirs = WireEcho::decode(bytes);
    match (&ours, &theirs) {
        (Ok(ours), Ok(theirs)) => assert_eq!(ours.content, theirs.content, "{:?}", bytes),
        (Err(_), Err(_)) => {}
        _ => panic!("echo {:?}: {:?} against {:?}", bytes, ours, theirs),
    }
    let ours = AddRequest::decode(bytes);
    let theirs = WireNumbers::decode(bytes);
    match (&ours, &theirs) {
        (Ok(ours), Ok(theirs)) => {
            assert_eq!((ours.a, ours.b), (theirs.first, theirs.second), "{:?}", bytes)
        }
        (Err(_), Err(_)) => {}
        _ => panic!("add {:?}: {:?} against {:?}", bytes, ours, theirs),
    }
    let ours = AddResponse::decode(bytes);
    let theirs = WireNumber::decode(bytes);
    match (&ours, &theirs) {
        (Ok(ours), Ok(theirs)) => assert_eq!(ours.result, theirs.result, "{:?}", bytes),
        (Err(_), Err(_)) => {}
        _ => panic!("sum {:?}: {:?} against {:?}", bytes, ours, theirs),
    }
    ClientMessage::decode(bytes).is_ok()
}

// A small generator of numbers, the same on every run.
struct Dice(u64);

impl Dice {
    fn roll(&mut self, sides: u64) -> u64 {
        self.0 = self.0.wrapping_mul(6364136223846793005).wrapping_add(1442695040888963407);
        (self.0 >> 33) % sides
    }

    fn varint(&mut self) -> Vec<u8> {
        let value = match self.roll(6) {
            0 => self.roll(4),
            1 => self.roll(300),
            2 => u64::MAX - self.roll(3),
            3 => (1 << 32) + self.roll(10),
            4 => self.roll(u32::MAX as u64),
            _ => self.roll(u64::MAX),
        };
        let mut bytes = Vec::new();
        encoding::encode_varint(value, &mut bytes);
        if self.roll(8) == 0 {
            // the same number, written one byte longer than it needs
            let last = bytes.len() - 1;
            bytes[last] |= 0x80;
            bytes.push(0x00);
        }
        bytes
    }

    fn text(&mut self) -> Vec<u8> {
        match self.roll(5) {
            0 => Vec::new(),
            1 => b"Hello, World!".to_vec(),
            2 => "héllo \u{1F600}".as_bytes().to_vec(),
            3 => vec![0xc3, 0x28],
            _ => (0..self.roll(6)).map(|_| self.roll(256) as u8).collect(),
        }
    }

    fn delimited(&mut self, body: Vec<u8>) -> Vec<u8> {
        let mut bytes = Vec::new();
        let len = match self.roll(12) {
            0 => body.len() as u64 + 1,
            1 => (body.len() as u64).saturating_sub(1),
            _ => body.len() as u64,
        };
        encoding::encode_varint(len, &mut bytes);
        bytes.extend_from_slice(&body);
        bytes
    }

    // One field, more often than not a well-formed one.
    fn field(&mut self, depth: u32) -> Vec<u8> {
        let tag = match self.roll(8) {
            0 | 1 | 2 => 1,
            3 | 4 | 5 => 2,
            6 => 3,
            _ => [0u32, 15, 16, 0x1fff_ffff][self.roll(4) as usize],
        };
        let wire_type = match self.roll(10) {
            0 | 1 | 2 => 0,
            3 | 4 | 5 | 6 => 2,
            7 => [1u32, 5, 6, 7][self.roll(4) as usize],
            8 => 3,
            _ => 4,
        };
        let mut bytes = Vec::new();
        encoding::encode_varint(((tag as u64) << 3) | wire_type as u64, &mut bytes);
        match wire_type {
            0 => bytes.extend(self.varint()),
            1 => bytes.extend((0..8 - self.roll(9).min(1) * self.roll(3)).map(|_| 7u8)),
            2 => {
                let body = if depth > 0 && self.roll(3) > 0 {
                    self.fields(depth - 1)
                } else {
                    self.text()
                };
                bytes.extend(self.delimited(body));
            }
            3 => {
                if depth > 0 {
                    bytes.extend(self.fields(depth - 1));
                }
                let end = if self.roll(6) == 0 { tag + 1 } else { tag };
                encoding::encode_varint(((end as u64) << 3) | 4, &mut bytes);
            }
            5 => bytes.extend((0..4).map(|_| 9u8)),
            _ => {}
        }
        bytes
    }

    fn fields(&mut self, depth: u32) -> Vec<u8> {
        let mut bytes = Vec::new();
        for _ in 0..self.roll(4) {
            bytes.extend(self.field(depth));
        }
        bytes
    }
}

#[test]
fn writes_the_bytes_that_prost_writes() {
    let numbers = [0, 1, -1, 10, 20, 127, 128, 255, 256, 16_383, 16_384, i32::MAX, i32::MIN];
    for a in numbers {
        for b in numbers {
            let message = ClientMessage {
                message: Some(client_message::Message::AddRequest(AddRequest { a, b })),
            };
            assert_eq!(message.encode_to_vec(), client_as_wire(&message).encode_to_vec());
        }
        let message = ServerMessage {
            message: Some(server_message::Message::AddResponse(AddResponse { result: a })),
        };
        assert_eq!(message.encode_to_vec(), server_as_wire(&message).encode_to_vec());
    }
    for len in [0usize, 1, 5, 125, 126, 127, 128, 129, 16_383, 16_384, 100_000] {
        let content = "é".repeat(len / 2) + &"a".repeat(len % 2);
        let echo = EchoMessage { content };
        let message =
            ClientMessage { message: Some(client_message::Message::EchoMessage(echo.clone())) };
        assert_eq!(message.encode_to_vec(), client_as_wire(&message).encode_to_vec());
        let message = ServerMessage { message: Some(server_message::Message::EchoMessage(echo)) };
        assert_eq!(message.encode_to_vec(), server_as_wire(&message).encode_to_vec());
    }
    let unset = ClientMessage { message: None };
    assert_eq!(unset.encode_to_vec(), client_as_wire(&unset).encode_to_vec());
}

#[test]
fn reads_what_prost_reads() {
    let mut dice = Dice(2024);
    let mut well_formed = 0;
    for _ in 0..20_000 {
        let bytes = dice.fields(3);
        if check_both(&bytes) {
            well_formed += 1;
        }
    }
    // the generator must reach both sides
    assert!(well_formed > 2_000, "{}", well_formed);
    assert!(well_formed < 18_000, "{}", well_formed);
}

#[test]
fn refuses_two_variants_where_prost_lets_the_later_stand() {
    let bytes = [0x0a, 0x00, 0x12, 0x02, 0x08, 0x05];
    let theirs = WireUnion::<WireNumbers>::decode(&bytes[..]).unwrap();
    assert_eq!(theirs.message, Some(WireVariant::Other(WireNumbers { first: 5, second: 0 })));
    assert!(ClientMessage::decode(&bytes).is_err());
    assert!(ServerMessage::decode(&bytes).is_err());
    assert!(!check_both(&bytes));
}

#[test]
fn reads_arbitrary_bytes_as_prost_does() {
    let mut dice = Dice(7);
    for _ in 0..20_000 {
        let len = dice.roll(12);
        let bytes: Vec<u8> = (0..len)
            .map(|_| match dice.roll(4) {
                0 => dice.roll(256) as u8,
                1 => [0x0a, 0x12, 0x08, 0x10, 0x1b, 0x1c][dice.roll(6) as usize],
                _ => dice.roll(4) as u8,
            })
            .collect();
        check_both(&bytes);
    }
}

#[test]
fn reads_every_short_input_as_prost_does() {
    for first in 0..=255u8 {
        check_both(&[first]);
        for second in 0..=255u8 {
            check_both(&[first, second]);
        }
    }
    for first in [0x0a, 0x12, 0x08, 0x10, 0x1b] {
        for second in 0..=3u8 {
            for third in 0..=255u8 {
                check_both(&[first, second, third]);
                check_both(&[first, second, third, 0x00]);
            }
        }
    }
}

#[test]
fn nests_groups_as_deep_as_prost_does() {
    for levels in [1usize, 2, 98, 99, 100, 101, 102, 200] {
        let mut group = vec![0x1b; levels];
        group.extend(vec![0x1c; levels]);
        check_both(&group);
        for tag_and_type in [0x0au8, 0x12, 0x1a] {
            let mut bytes = vec![tag_and_type];
            encoding::encode_varint(group.len() as u64, &mut bytes);
            bytes.extend_from_slice(&group);
            check_both(&bytes);
        }
    }
    assert!(check_both(&[0x12, 0x02, 0x1b, 0x1c]));
}
