//! The messages of the protocol: what a client may ask and what the server answers.

use vstd::prelude::*;

pub mod client_message;
pub mod server_message;

verus! {

/// A request as the protocol sees it: exactly one of two shapes.
pub enum Request {
    Add { a: i32, b: i32 },
    Echo { content: Seq<char> },
}

/// A response as the protocol sees it, one shape for each request.
pub enum Response {
    AddResult { result: i32 },
    EchoResult { content: Seq<char> },
}

/// A text to be sent back as it came.
#[derive(Clone, Debug, PartialEq, Eq)]
pub struct EchoMessage {
    pub content: String,
}

/// Two numbers to be added.
#[derive(Clone, Copy, Debug, PartialEq, Eq)]
pub struct AddRequest {
    pub a: i32,
    pub b: i32,
}

/// The sum of the two numbers of an `AddRequest`.
#[derive(Clone, Copy, Debug, PartialEq, Eq)]
pub struct AddResponse {
    pub result: i32,
}

/// What a client sends: one request, or nothing where no known variant is set.
#[derive(Clone, Debug, PartialEq, Eq)]
pub struct ClientMessage {
    pub message: Option<client_message::Message>,
}

/// What the server sends: one response, or nothing where no known variant is set.
#[derive(Clone, Debug, PartialEq, Eq)]
pub struct ServerMessage {
    pub message: Option<server_message::Message>,
}

impl View for EchoMessage {
    type V = Seq<char>;

    open spec fn view(&self) -> Seq<char> {
        self.content@
    }
}

impl View for ClientMessage {
    type V = Option<Request>;

    open spec fn view(&self) -> Option<Request> {
        match self.message {
            Some(message) => Some(message@),
            None => None,
        }
    }
}

impl View for ServerMessage {
    type V = Option<Response>;

    open spec fn view(&self) -> Option<Response> {
        match self.message {
            Some(message) => Some(message@),
            None => None,
        }
    }
}

impl Default for EchoMessage {
    fn default() -> (message: EchoMessage)
        ensures
            message@ == Seq::<char>::empty(),
    {
        EchoMessage { content: String::new() }
    }
}

impl Default for AddRequest {
    fn default() -> (message: AddRequest)
        ensures
            message == (AddRequest { a: 0, b: 0 }),
    {
        AddRequest { a: 0, b: 0 }
    }
}

impl Default for AddResponse {
    fn default() -> (message: AddResponse)
        ensures
            message == (AddResponse { result: 0 }),
    {
        AddResponse { result: 0 }
    }
}

impl Default for ClientMessage {
    fn default() -> (message: ClientMessage)
        ensures
            message@ is None,
    {
        ClientMessage { message: None }
    }
}

impl Default for ServerMessage {
    fn default() -> (message: ServerMessage)
        ensures
            message@ is None,
    {
        ServerMessage { message: None }
    }
}

} // verus!
