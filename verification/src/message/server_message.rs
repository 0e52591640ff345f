use vstd::prelude::*;
use crate::message::{AddResponse, EchoMessage, Response};

verus! {

/// The variants of a `ServerMessage`.
#[derive(Clone, Debug, PartialEq, Eq)]
pub enum Message {
    EchoMessage(EchoMessage),
    AddResponse(AddResponse),
}

impl View for Message {
    type V = Response;

    open spec fn view(&self) -> Response {
        match *self {
            Message::EchoMessage(echo) => Response::EchoResult { content: echo@ },
            Message::AddResponse(add) => Response::AddResult { result: add.result },
        }
    }
}

} // verus!
