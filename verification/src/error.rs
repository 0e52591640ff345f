use vstd::prelude::*;

verus! {

/// The ways in which a peer can break the protocol, or leave.
#[derive(Clone, Copy, Debug, PartialEq, Eq, Structural)]
pub enum ProtocolError {
    /// A length prefix of zero or above the frame limit, when reading; a
    /// payload too long for four bytes to announce, when writing.
    InvalidFrameLength,
    /// A payload that is not a well-formed message.
    MalformedMessage,
    /// A well-formed message in which no known variant is set.
    UnsupportedMessageType,
    /// The stream ended before a length prefix or a payload was complete.
    ConnectionClosed,
}

impl ProtocolError {
    /// A short description, for logs.
    pub fn message(&self) -> (text: &'static str)
        ensures
            text@ == match *self {
                ProtocolError::InvalidFrameLength => "Invalid message length"@,
                ProtocolError::MalformedMessage => "Failed to decode message"@,
                ProtocolError::UnsupportedMessageType => "Unsupported message type"@,
                ProtocolError::ConnectionClosed => "Connection closed"@,
            },
    {
        match self {
            ProtocolError::InvalidFrameLength => "Invalid message length",
            ProtocolError::MalformedMessage => "Failed to decode message",
            ProtocolError::UnsupportedMessageType => "Unsupported message type",
            ProtocolError::ConnectionClosed => "Connection closed",
        }
    }
}

} // verus!
