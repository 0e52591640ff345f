use vstd::prelude::*;
use crate::message::{AddRequest, EchoMessage, Request};

verus! {

/// The variants of a `ClientMessage`.
#[derive(Clone, Debug, PartialEq, Eq)]
pub enum Message {
    EchoMessage(EchoMessage),
    AddRequest(AddRequest),
}

impl View for Message {
    type V = Request;

    open spec fn view(&self) -> Request {
        match *self {
            Message::EchoMessage(echo) => Request::Echo { content: echo@ },
            Message::AddRequest(add) => Request::Add { a: add.a, b: add.b },
        }
    }
}

} // verus!
