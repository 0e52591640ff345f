//! The handler of one connection: read a request, answer it, read the next.
//!
//! The handler owns no socket. It is told what happened on the stream, one
//! event at a time, and says what to do next: read so many bytes, write these
//! bytes, wait a little, or close. Whoever drives it performs the action and
//! comes back with the event that followed.

use vstd::prelude::*;
use vstd::slice::{slice_subrange, slice_to_vec};
use crate::codec::{decode_request, encode_response};
use crate::error::ProtocolError;
use crate::frame::{
    announceable, frame, frame_length, parse_frame, read_frame, valid_frame_len, write_frame,
    PREFIX_LEN,
};
use crate::message::client_message;
use crate::message::server_message;
use crate::message::{AddRequest, AddResponse, ClientMessage, Request, ServerMessage};
use crate::session::{
    lemma_step_keeps_wf, reply, respond, wrapping_sum, Action, Event, Outcome, Phase, Session,
    BACKOFF_MILLIS,
};
use crate::size::lemma_response_fits;

verus! {

/// The request in the frame at the front of a stream that has ended after
/// `stream`, or the error that reading it ends in.
pub open spec fn read_request(stream: Seq<u8>) -> Result<Option<Request>, ProtocolError> {
    match parse_frame(stream) {
        Err(error) => Err(error),
        Ok(found) => match decode_request(found.value) {
            None => Err(ProtocolError::MalformedMessage),
            Some(request) => Ok(request),
        },
    }
}

/// The state of one connection.
pub struct ServerHandler {
    phase: Phase,
    inbound: Vec<u8>,
    outbound: Vec<u8>,
    received: Ghost<Seq<u8>>,
    replied: Ghost<Seq<u8>>,
}

impl View for ServerHandler {
    type V = Session;

    closed spec fn view(&self) -> Session {
        Session {
            phase: self.phase,
            inbound: self.inbound@,
            outbound: self.outbound@,
            received: self.received@,
            replied: self.replied@,
        }
    }
}

impl ServerHandler {
    /// The handler of a connection that was just accepted.
    pub fn new() -> (handler: ServerHandler)
        ensures
            handler@ == Session::start(),
            handler@.wf(),
    {
        let handler = ServerHandler {
            phase: Phase::Reading,
            inbound: Vec::new(),
            outbound: Vec::new(),
            received: Ghost(Seq::empty()),
            replied: Ghost(Seq::empty()),
        };
        proof {
            assert(handler@.served() =~= Seq::<u8>::empty());
            assert(handler@.received =~= handler@.served() + handler@.inbound);
        }
        handler
    }

    /// What the session is doing.
    pub fn phase(&self) -> (phase: Phase)
        ensures
            phase == self@.phase,
    {
        self.phase
    }

    /// Adds the two numbers of a request, wrapping round on overflow.
    pub fn handle_add_request(&self, add_request: AddRequest) -> (response: AddResponse)
        ensures
            response.result == wrapping_sum(add_request.a, add_request.b),
    {
        AddResponse { result: add_request.a.wrapping_add(add_request.b) }
    }

    /// Takes one request from the front of a stream that has ended: reads
    /// the frame, then the message in it. Returns the bytes behind the frame too.
    pub fn read_message<'a>(&self, stream: &'a [u8]) -> (result: Result<
        (ClientMessage, &'a [u8]),
        ProtocolError,
    >)
        ensures
            match result {
                Ok((message, rest)) => read_request(stream@) == Ok::<
                    Option<Request>,
                    ProtocolError,
                >(message@) && rest@ == stream@.skip(parse_frame(stream@)->Ok_0.len as int),
                Err(error) => read_request(stream@) == Err::<Option<Request>, ProtocolError>(
                    error,
                ),
            },
    {
        let (payload, rest) = match read_frame(stream) {
            Ok(found) => found,
            Err(error) => {
                return Err(error);
            },
        };
        match ClientMessage::decode(payload) {
            Ok(message) => Ok((message, rest)),
            Err(error) => Err(error),
        }
    }

    /// Answers a request: the sum for an addition, the same text for an
    /// echo. A message in which no variant is set is not answered.
    pub fn process_message(&self, message: ClientMessage) -> (result: Result<
        ServerMessage,
        ProtocolError,
    >)
        ensures
            match result {
                Ok(response) => respond(message@) matches Ok(owed) && response@ == Some(owed),
                Err(error) => respond(message@) == Err::<crate::message::Response, ProtocolError>(
                    error,
                ),
            },
    {
        match message.message {
            Some(client_message::Message::AddRequest(add_request)) => {
                let response = self.handle_add_request(add_request);
                Ok(ServerMessage { message: Some(server_message::Message::AddResponse(response)) })
            },
            Some(client_message::Message::EchoMessage(echo_request)) => Ok(
                ServerMessage { message: Some(server_message::Message::EchoMessage(echo_request)) },
            ),
            None => Err(ProtocolError::UnsupportedMessageType),
        }
    }

    /// Appends a response to `stream` as one frame: the four bytes of the
    /// length of its bytes, then its bytes. A response in which no variant is
    /// set has no bytes, and is written as a length of zero. Only a response
    /// whose length four bytes cannot announce is refused, and then the
    /// stream is left as it was.
    pub fn send_response(&self, response: ServerMessage, stream: &mut Vec<u8>) -> (result: Result<
        (),
        ProtocolError,
    >)
        ensures
            match result {
                Ok(()) => announceable(encode_response(response@).len()) && final(stream)@
                    == old(stream)@ + frame(encode_response(response@)),
                Err(error) => error == ProtocolError::InvalidFrameLength && !announceable(
                    encode_response(response@).len(),
                ) && final(stream)@ == old(stream)@,
            },
    {
        let response_buf = response.encode_to_vec();
        write_frame(stream, response_buf.as_slice())
    }

    /// The number of bytes that the frame being read still lacks.
    fn wanted(&self) -> (count: usize)
        requires
            self@.wf(),
            self@.phase == Phase::Reading,
        ensures
            count == self@.wanted(),
            1 <= count,
    {
        if self.inbound.len() < PREFIX_LEN {
            PREFIX_LEN - self.inbound.len()
        } else {
            match frame_length(self.inbound.as_slice()) {
                Ok(len) => PREFIX_LEN + len - self.inbound.len(),
                Err(_) => 1,
            }
        }
    }

    /// Ends the session.
    fn close(&mut self, outcome: Outcome) -> (action: Action)
        ensures
            (final(self)@, action@) == old(self)@.close(outcome),
    {
        self.phase = Phase::Closed(outcome);
        Action::Close { outcome }
    }

    /// Goes on reading, unless the server is shutting down and no payload is under way.
    fn resume(&mut self, running: bool) -> (action: Action)
        requires
            old(self)@.wf(),
            old(self)@.phase == Phase::Reading,
        ensures
            (final(self)@, action@) == old(self)@.resume(running),
    {
        if !running && self.inbound.len() <= PREFIX_LEN {
            self.close(Outcome::Shutdown)
        } else {
            Action::Read { count: self.wanted() }
        }
    }

    /// Takes in the bytes of one read. A prefix that is complete is judged;
    /// a frame that is complete is answered.
    fn receive(&mut self, chunk: Vec<u8>) -> (action: Action)
        requires
            old(self)@.wf(),
            old(self)@.phase == Phase::Reading,
        ensures
            (final(self)@, action@) == if 1 <= chunk@.len() <= old(self)@.wanted() {
                old(self)@.receive(chunk@)
            } else {
                old(self)@.close(Outcome::Failed)
            },
    {
        let wanted = self.wanted();
        if chunk.len() == 0 || chunk.len() > wanted {
            return self.close(Outcome::Failed);
        }
        let ghost before = self@;
        let ghost next = Session {
            inbound: before.inbound + chunk@,
            received: before.received + chunk@,
            ..before
        };
        let mut chunk = chunk;
        self.inbound.append(&mut chunk);
        proof {
            self.received = Ghost(next.received);
            assert(self@ == next);
            if before.inbound.len() >= PREFIX_LEN {
                assert(next.inbound.subrange(0, PREFIX_LEN as int) =~= before.inbound.subrange(
                    0,
                    PREFIX_LEN as int,
                ));
            }
        }
        if self.inbound.len() < PREFIX_LEN {
            return Action::Read { count: PREFIX_LEN - self.inbound.len() };
        }
        let len = match frame_length(self.inbound.as_slice()) {
            Ok(len) => len,
            Err(error) => {
                return self.close(Outcome::Rejected(error));
            },
        };
        if self.inbound.len() < PREFIX_LEN + len {
            return Action::Read { count: PREFIX_LEN + len - self.inbound.len() };
        }
        match self.answer() {
            Err(error) => self.close(Outcome::Rejected(error)),
            Ok(bytes) => {
                let action = Action::Write { bytes: slice_to_vec(bytes.as_slice()) };
                proof {
                    self.replied = Ghost(next.replied + bytes@);
                }
                self.phase = Phase::Writing;
                self.inbound.clear();
                self.outbound = bytes;
                action
            },
        }
    }

    /// The response frame for the request frame that stands whole in `inbound`:
    /// read the message, process it, frame the response.
    fn answer(&self) -> (result: Result<Vec<u8>, ProtocolError>)
        requires
            self@.inbound.len() >= PREFIX_LEN,
            valid_frame_len(self@.announced()),
            self@.inbound.len() == PREFIX_LEN + self@.announced(),
        ensures
            match result {
                Ok(bytes) => reply(
                    self@.inbound.subrange(PREFIX_LEN as int, self@.inbound.len() as int),
                ) == Ok::<Seq<u8>, ProtocolError>(bytes@),
                Err(error) => reply(
                    self@.inbound.subrange(PREFIX_LEN as int, self@.inbound.len() as int),
                ) == Err::<Seq<u8>, ProtocolError>(error),
            },
    {
        let message = match self.read_message(self.inbound.as_slice()) {
            Ok((message, _)) => message,
            Err(error) => {
                return Err(error);
            },
        };
        let response = match self.process_message(message) {
            Ok(response) => response,
            Err(error) => {
                return Err(error);
            },
        };
        proof {
            lemma_response_fits(
                self@.inbound.subrange(PREFIX_LEN as int, self@.inbound.len() as int),
            );
        }
        let mut bytes: Vec<u8> = Vec::new();
        match self.send_response(response, &mut bytes) {
            Ok(()) => {
                assert(bytes@ =~= frame(encode_response(response@)));
                Ok(bytes)
            },
            Err(error) => Err(error),
        }
    }

    /// Takes note of the bytes that one write took, and hands out the rest.
    fn wrote(&mut self, count: usize, running: bool) -> (action: Action)
        requires
            old(self)@.wf(),
            old(self)@.phase == Phase::Writing,
        ensures
            (final(self)@, action@) == if 1 <= count <= old(self)@.outbound.len() {
                old(self)@.wrote(count as nat, running)
            } else {
                old(self)@.close(Outcome::Failed)
            },
    {
        if count == 0 || count > self.outbound.len() {
            return self.close(Outcome::Failed);
        }
        let rest = slice_to_vec(
            slice_subrange(self.outbound.as_slice(), count, self.outbound.len()),
        );
        self.outbound = rest;
        if self.outbound.len() == 0 {
            self.phase = Phase::Reading;
            proof {
                assert(self@.served() =~= self@.received);
                assert(self@.received =~= self@.served() + self@.inbound);
            }
            self.resume(running)
        } else {
            Action::Write { bytes: slice_to_vec(self.outbound.as_slice()) }
        }
    }

    /// Takes the event that followed the last action, and says what to do
    /// next. `running` is the liveness signal of the server as it stands now.
    ///
    /// A session begins with `Ready`. What a read brings is gathered until a
    /// frame is whole; a read that would block loses nothing of it. The
    /// request in the frame is read, processed and answered, and the next
    /// frame is asked for only when the response is written to its end.
    pub fn handle(&mut self, event: Event, running: bool) -> (action: Action)
        requires
            old(self)@.wf(),
        ensures
            final(self)@.wf(),
            (final(self)@, action@) == old(self)@.step(event@, running),
    {
        proof {
            lemma_step_keeps_wf(self@, event@, running);
        }
        match self.phase {
            Phase::Closed(outcome) => Action::Close { outcome },
            Phase::Reading => match event {
                Event::Ready => self.resume(running),
                Event::WouldBlock => if !running && self.inbound.len() <= PREFIX_LEN {
                    self.close(Outcome::Shutdown)
                } else {
                    Action::Wait { millis: BACKOFF_MILLIS }
                },
                Event::EndOfStream => self.close(Outcome::Disconnected),
                Event::Received(chunk) => self.receive(chunk),
                _ => self.close(Outcome::Failed),
            },
            Phase::Writing => match event {
                Event::Ready => Action::Write { bytes: slice_to_vec(self.outbound.as_slice()) },
                Event::WouldBlock => Action::Wait { millis: BACKOFF_MILLIS },
                Event::Wrote(count) => self.wrote(count, running),
                _ => self.close(Outcome::Failed),
            },
        }
    }
}

} // verus!
