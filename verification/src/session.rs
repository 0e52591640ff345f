//! The session of one connection as a state machine: its states, the events
//! that it is told of, the actions that it asks for, and what holds of it.
//!
//! A session reads one request frame, answers it with one response frame, and
//! only then reads the next. So the bytes that it writes are a function of the
//! bytes that it has read: the responses to the requests, one after another.

use vstd::prelude::*;
use crate::codec::{decode_request, encode_response};
use crate::error::ProtocolError;
use crate::frame::{
    frame, lemma_parse_frame_of_frame, parse_frame, prefix_value, valid_frame_len, PREFIX_LEN,
};
use crate::message::{Request, Response};

verus! {

/// How long to wait, in milliseconds, before trying again what would have blocked.
pub const BACKOFF_MILLIS: u64 = 10;

/// How a session ended.
#[derive(Clone, Copy, Debug, PartialEq, Eq, Structural)]
pub enum Outcome {
    /// The peer closed the stream. This is no error.
    Disconnected,
    /// The server is shutting down and no request was under way. This is no error.
    Shutdown,
    /// The peer broke the protocol.
    Rejected(ProtocolError),
    /// The stream failed, or an event came that cannot follow the last action.
    Failed,
}

/// What a session is doing.
#[derive(Clone, Copy, Debug, PartialEq, Eq, Structural)]
pub enum Phase {
    /// Taking in the bytes of a request frame.
    Reading,
    /// Putting out the bytes of a response frame.
    Writing,
    /// Over.
    Closed(Outcome),
}

/// What happened on the stream since the last action.
#[derive(Clone, Debug, PartialEq, Eq)]
pub enum Event {
    /// Nothing: the session starts, or a wait is over.
    Ready,
    /// One read gave these bytes: at least one, at most as many as were asked for.
    Received(Vec<u8>),
    /// One write took this many bytes from the front of those handed out.
    Wrote(usize),
    /// The read or the write would have blocked.
    WouldBlock,
    /// The peer closed the stream.
    EndOfStream,
    /// The read or the write failed in any other way.
    Failed,
}

/// What to do next on the stream.
#[derive(Clone, Debug, PartialEq, Eq)]
pub enum Action {
    /// Read once, at most `count` bytes, and report what came.
    Read { count: usize },
    /// Write once from the front of `bytes`, flush, and report how many bytes went.
    Write { bytes: Vec<u8> },
    /// Wait `millis` milliseconds and report `Ready`.
    Wait { millis: u64 },
    /// Close the stream; the session is over.
    Close { outcome: Outcome },
}

/// An `Event` as contracts see it.
pub enum EventView {
    Ready,
    Received(Seq<u8>),
    Wrote(nat),
    WouldBlock,
    EndOfStream,
    Failed,
}

/// An `Action` as contracts see it.
pub enum ActionView {
    Read { count: nat },
    Write { bytes: Seq<u8> },
    Wait { millis: nat },
    Close { outcome: Outcome },
}

impl View for Event {
    type V = EventView;

    open spec fn view(&self) -> EventView {
        match *self {
            Event::Ready => EventView::Ready,
            Event::Received(chunk) => EventView::Received(chunk@),
            Event::Wrote(count) => EventView::Wrote(count as nat),
            Event::WouldBlock => EventView::WouldBlock,
            Event::EndOfStream => EventView::EndOfStream,
            Event::Failed => EventView::Failed,
        }
    }
}

impl View for Action {
    type V = ActionView;

    open spec fn view(&self) -> ActionView {
        match *self {
            Action::Read { count } => ActionView::Read { count: count as nat },
            Action::Write { bytes } => ActionView::Write { bytes: bytes@ },
            Action::Wait { millis } => ActionView::Wait { millis: millis as nat },
            Action::Close { outcome } => ActionView::Close { outcome },
        }
    }
}

/// The sum of two numbers of 32 bits, wrapped round where it does not fit.
pub open spec fn wrapping_sum(a: i32, b: i32) -> i32 {
    let sum = a + b;
    if sum > i32::MAX {
        (sum - 0x1_0000_0000) as i32
    } else if sum < i32::MIN {
        (sum + 0x1_0000_0000) as i32
    } else {
        sum as i32
    }
}

/// The response that is owed to a request: the sum for an addition, the same
/// text for an echo, and an error where no variant is set.
pub open spec fn respond(request: Option<Request>) -> Result<Response, ProtocolError> {
    match request {
        Some(Request::Add { a, b }) => Ok(Response::AddResult { result: wrapping_sum(a, b) }),
        Some(Request::Echo { content }) => Ok(Response::EchoResult { content }),
        None => Err(ProtocolError::UnsupportedMessageType),
    }
}

/// The response frame that is owed to the payload of a request frame, or
/// the error that ends the session.
pub open spec fn reply(payload: Seq<u8>) -> Result<Seq<u8>, ProtocolError> {
    match decode_request(payload) {
        None => Err(ProtocolError::MalformedMessage),
        Some(request) => match respond(request) {
            Err(error) => Err(error),
            Ok(response) => Ok(frame(encode_response(Some(response)))),
        },
    }
}

/// Everything that the server writes in answer to the bytes `input` of a
/// stream: the response frames of the request frames in it, in their order,
/// up to the first frame that is incomplete or that ends the session.
pub open spec fn replies(input: Seq<u8>) -> Seq<u8>
    decreases input.len(),
{
    match parse_frame(input) {
        Err(_) => Seq::empty(),
        Ok(found) => match reply(found.value) {
            Err(_) => Seq::empty(),
            Ok(bytes) => bytes + replies(input.skip(found.len as int)),
        },
    }
}

/// Whether `input` is a run of whole request frames that were all answered.
pub open spec fn all_served(input: Seq<u8>) -> bool
    decreases input.len(),
{
    input.len() == 0 || match parse_frame(input) {
        Err(_) => false,
        Ok(found) => reply(found.value) is Ok && all_served(input.skip(found.len as int)),
    }
}

/// The state of a session as contracts see it.
pub struct Session {
    /// What the session is doing.
    pub phase: Phase,
    /// The bytes of the request frame that is being read, prefix and payload.
    pub inbound: Seq<u8>,
    /// The bytes of the response frame that are still to be written.
    pub outbound: Seq<u8>,
    /// Every byte that was taken from the stream so far.
    pub received: Seq<u8>,
    /// Every byte that was handed out for writing so far.
    pub replied: Seq<u8>,
}

impl Session {
    /// A session that has just begun.
    pub open spec fn start() -> Session {
        Session {
            phase: Phase::Reading,
            inbound: Seq::empty(),
            outbound: Seq::empty(),
            received: Seq::empty(),
            replied: Seq::empty(),
        }
    }

    /// The length that the prefix of the frame being read announces.
    pub open spec fn announced(self) -> nat {
        prefix_value(self.inbound.subrange(0, PREFIX_LEN as int))
    }

    /// The bytes that the frame being read still lacks: of its prefix while
    /// that is incomplete, of its payload after that.
    pub open spec fn wanted(self) -> nat {
        if self.inbound.len() < PREFIX_LEN {
            (PREFIX_LEN - self.inbound.len()) as nat
        } else {
            (PREFIX_LEN + self.announced() - self.inbound.len()) as nat
        }
    }

    /// Whether a byte of a payload has been taken: from then on the frame is
    /// read to its end, whatever the server is told.
    pub open spec fn under_way(self) -> bool {
        self.inbound.len() > PREFIX_LEN
    }

    /// The bytes that were written so far: all that was handed out, but for
    /// what is still to be written.
    pub open spec fn written(self) -> Seq<u8> {
        self.replied.subrange(0, self.replied.len() - self.outbound.len())
    }

    /// The bytes received before the frame that is being read.
    pub open spec fn served(self) -> Seq<u8> {
        self.received.subrange(0, self.received.len() - self.inbound.len())
    }

    /// What holds of every state that a session can be in.
    pub open spec fn wf(self) -> bool {
        match self.phase {
            Phase::Reading => {
                &&& self.outbound.len() == 0
                &&& self.inbound.len() <= self.received.len()
                &&& self.received == self.served() + self.inbound
                &&& all_served(self.served())
                &&& self.replied == replies(self.served())
                &&& self.inbound.len() >= PREFIX_LEN ==> valid_frame_len(self.announced())
                    && self.inbound.len() < PREFIX_LEN + self.announced()
            },
            Phase::Writing => {
                &&& self.inbound.len() == 0
                &&& all_served(self.received)
                &&& self.replied == replies(self.received)
                &&& 1 <= self.outbound.len() <= self.replied.len()
                &&& self.outbound == self.replied.skip(self.replied.len() - self.outbound.len())
            },
            Phase::Closed(_) => self.replied == replies(self.received),
        }
    }

    /// The session, closed.
    pub open spec fn close(self, outcome: Outcome) -> (Session, ActionView) {
        (Session { phase: Phase::Closed(outcome), ..self }, ActionView::Close { outcome })
    }

    /// Where the session goes on reading: it asks for the bytes that the
    /// frame lacks, unless the server is shutting down and no payload is under way.
    pub open spec fn resume(self, running: bool) -> (Session, ActionView) {
        if !running && !self.under_way() {
            self.close(Outcome::Shutdown)
        } else {
            (self, ActionView::Read { count: self.wanted() })
        }
    }

    /// What the bytes of one read do to a session that is reading. With the
    /// prefix complete its length is judged, and a length out of bounds ends
    /// the session there. With the payload complete the request is answered.
    pub open spec fn receive(self, chunk: Seq<u8>) -> (Session, ActionView) {
        let next = Session {
            inbound: self.inbound + chunk,
            received: self.received + chunk,
            ..self
        };
        if next.inbound.len() < PREFIX_LEN {
            (next, ActionView::Read { count: next.wanted() })
        } else if !valid_frame_len(next.announced()) {
            next.close(Outcome::Rejected(ProtocolError::InvalidFrameLength))
        } else if next.inbound.len() < PREFIX_LEN + next.announced() {
            (next, ActionView::Read { count: next.wanted() })
        } else {
            match reply(next.inbound.subrange(PREFIX_LEN as int, next.inbound.len() as int)) {
                Err(error) => next.close(Outcome::Rejected(error)),
                Ok(bytes) => (
                    Session {
                        phase: Phase::Writing,
                        inbound: Seq::empty(),
                        outbound: bytes,
                        replied: next.replied + bytes,
                        ..next
                    },
                    ActionView::Write { bytes },
                ),
            }
        }
    }

    /// What one write does to a session that is writing. With the frame
    /// written to its end the session goes back to reading.
    pub open spec fn wrote(self, count: nat, running: bool) -> (Session, ActionView) {
        let rest = self.outbound.skip(count as int);
        let next = Session { outbound: rest, ..self };
        if rest.len() == 0 {
            (Session { phase: Phase::Reading, ..next }).resume(running)
        } else {
            (next, ActionView::Write { bytes: rest })
        }
    }

    /// The state that follows `event`, and the action that the session asks for.
    pub open spec fn step(self, event: EventView, running: bool) -> (Session, ActionView) {
        match self.phase {
            Phase::Closed(outcome) => (self, ActionView::Close { outcome }),
            Phase::Reading => match event {
                EventView::Ready => self.resume(running),
                EventView::WouldBlock => if !running && !self.under_way() {
                    self.close(Outcome::Shutdown)
                } else {
                    (self, ActionView::Wait { millis: BACKOFF_MILLIS as nat })
                },
                EventView::EndOfStream => self.close(Outcome::Disconnected),
                EventView::Received(chunk) => if 1 <= chunk.len() <= self.wanted() {
                    self.receive(chunk)
                } else {
                    self.close(Outcome::Failed)
                },
                _ => self.close(Outcome::Failed),
            },
            Phase::Writing => match event {
                EventView::Ready => (self, ActionView::Write { bytes: self.outbound }),
                EventView::WouldBlock => (
                    self,
                    ActionView::Wait { millis: BACKOFF_MILLIS as nat },
                ),
                EventView::Wrote(count) => if 1 <= count <= self.outbound.len() {
                    self.wrote(count, running)
                } else {
                    self.close(Outcome::Failed)
                },
                _ => self.close(Outcome::Failed),
            },
        }
    }
}

/// A frame that stands whole at the front of a stream stands there whatever follows.
pub proof fn lemma_parse_frame_prefix(input: Seq<u8>, more: Seq<u8>)
    requires
        parse_frame(input) is Ok,
    ensures
        parse_frame(input + more) == parse_frame(input),
        (input + more).skip(parse_frame(input)->Ok_0.len as int) == input.skip(
            parse_frame(input)->Ok_0.len as int,
        ) + more,
{
    let found = parse_frame(input)->Ok_0;
    let longer = input + more;
    assert(longer.subrange(0, PREFIX_LEN as int) =~= input.subrange(0, PREFIX_LEN as int));
    assert(longer.subrange(PREFIX_LEN as int, found.len as int) =~= found.value);
    assert(longer.skip(found.len as int) =~= input.skip(found.len as int) + more);
}

/// Behind request frames that were all answered, the answers go on as if
/// the stream began there.
pub proof fn lemma_replies_append(input: Seq<u8>, more: Seq<u8>)
    requires
        all_served(input),
    ensures
        replies(input + more) == replies(input) + replies(more),
    decreases input.len(),
{
    if input.len() == 0 {
        assert(input + more =~= more);
        assert(replies(input) =~= Seq::<u8>::empty());
        assert(replies(input) + replies(more) =~= replies(more));
    } else {
        let found = parse_frame(input)->Ok_0;
        let bytes = reply(found.value)->Ok_0;
        lemma_parse_frame_prefix(input, more);
        lemma_replies_append(input.skip(found.len as int), more);
        assert(bytes + (replies(input.skip(found.len as int)) + replies(more)) =~= (bytes
            + replies(input.skip(found.len as int))) + replies(more));
    }
}

/// Two runs of answered request frames make one.
pub proof fn lemma_all_served_append(input: Seq<u8>, more: Seq<u8>)
    requires
        all_served(input),
        all_served(more),
    ensures
        all_served(input + more),
    decreases input.len(),
{
    if input.len() == 0 {
        assert(input + more =~= more);
    } else {
        let found = parse_frame(input)->Ok_0;
        lemma_parse_frame_prefix(input, more);
        lemma_all_served_append(input.skip(found.len as int), more);
    }
}

/// One whole request frame that is answered: the answer to it is all that is written.
pub proof fn lemma_replies_of_one_frame(input: Seq<u8>)
    requires
        parse_frame(input) is Ok,
        parse_frame(input)->Ok_0.len == input.len(),
        reply(parse_frame(input)->Ok_0.value) is Ok,
    ensures
        all_served(input),
        replies(input) == reply(parse_frame(input)->Ok_0.value)->Ok_0,
{
    let found = parse_frame(input)->Ok_0;
    let bytes = reply(found.value)->Ok_0;
    assert(input.skip(found.len as int) =~= Seq::<u8>::empty());
    assert(all_served(input.skip(found.len as int)));
    assert(replies(input.skip(found.len as int)) =~= Seq::<u8>::empty());
    assert(bytes + Seq::<u8>::empty() =~= bytes);
}

/// In every state that a session can be in, what it has handed out for
/// writing is the answer to what it has received: one response frame for each
/// request frame, in the order of the requests.
pub proof fn lemma_replied_answers_received(session: Session)
    requires
        session.wf(),
    ensures
        session.replied == replies(session.received),
{
    if session.phase == Phase::Reading {
        lemma_replies_append(session.served(), session.inbound);
        assert(parse_frame(session.inbound) is Err);
        assert(replies(session.served()) + Seq::<u8>::empty() =~= replies(session.served()));
    }
}

/// Every step takes a session from one state that it can be in to another.
pub proof fn lemma_step_keeps_wf(session: Session, event: EventView, running: bool)
    requires
        session.wf(),
    ensures
        session.step(event, running).0.wf(),
{
    lemma_replied_answers_received(session);
    match session.phase {
        Phase::Closed(_) => {},
        Phase::Reading => {
            if let EventView::Received(chunk) = event {
                if 1 <= chunk.len() <= session.wanted() {
                    lemma_receive_keeps_wf(session, chunk);
                }
            }
        },
        Phase::Writing => {
            if let EventView::Wrote(count) = event {
                if 1 <= count <= session.outbound.len() {
                    let rest = session.outbound.skip(count as int);
                    if rest.len() == 0 {
                        assert(session.received.subrange(0, session.received.len() as int)
                            =~= session.received);
                        assert(session.received + Seq::<u8>::empty() =~= session.received);
                    } else {
                        assert(rest =~= session.replied.skip(session.replied.len() - rest.len()));
                    }
                }
            }
        },
    }
}

/// The bytes of one read take a reading session to a state that it can be in.
proof fn lemma_receive_keeps_wf(session: Session, chunk: Seq<u8>)
    requires
        session.wf(),
        session.phase == Phase::Reading,
        1 <= chunk.len() <= session.wanted(),
    ensures
        session.receive(chunk).0.wf(),
{
    let next = Session {
        inbound: session.inbound + chunk,
        received: session.received + chunk,
        ..session
    };
    let served = session.served();
    assert(next.served() =~= served);
    assert(next.received =~= served + next.inbound);
    if session.inbound.len() >= PREFIX_LEN {
        assert(next.inbound.subrange(0, PREFIX_LEN as int) =~= session.inbound.subrange(
            0,
            PREFIX_LEN as int,
        ));
    }
    lemma_replies_append(served, next.inbound);
    if next.inbound.len() < PREFIX_LEN {
    } else if !valid_frame_len(next.announced()) {
        assert(replies(next.inbound) =~= Seq::<u8>::empty());
        assert(replies(served) + Seq::<u8>::empty() =~= replies(served));
    } else if next.inbound.len() < PREFIX_LEN + next.announced() {
    } else {
        let payload = next.inbound.subrange(PREFIX_LEN as int, next.inbound.len() as int);
        assert(parse_frame(next.inbound) is Ok);
        assert(parse_frame(next.inbound)->Ok_0.value == payload);
        match reply(payload) {
            Err(_) => {
                assert(replies(next.inbound) =~= Seq::<u8>::empty());
                assert(replies(served) + Seq::<u8>::empty() =~= replies(served));
            },
            Ok(bytes) => {
                lemma_replies_of_one_frame(next.inbound);
                lemma_all_served_append(served, next.inbound);
                let after = session.receive(chunk).0;
                assert(after.replied.skip(after.replied.len() - bytes.len()) =~= bytes);
            },
        }
    }
}

/// The next request is read only when the response to the last one is
/// written to its end: whenever a session asks for a read, every response
/// that it owes for what it has received has been written.
pub proof fn lemma_reads_only_when_written(session: Session, event: EventView, running: bool)
    requires
        session.wf(),
    ensures
        session.step(event, running).1 is Read ==> session.step(event, running).0.written()
            == replies(session.step(event, running).0.received),
{
    let next = session.step(event, running).0;
    lemma_step_keeps_wf(session, event, running);
    lemma_replied_answers_received(next);
    if session.step(event, running).1 is Read {
        assert(next.phase == Phase::Reading);
        assert(next.written() =~= next.replied);
    }
}

/// A read or a write that would block loses nothing: while the server runs,
/// an open session waits and is left exactly as it was, with every byte of
/// the frame that it has taken so far.
pub proof fn lemma_would_block_loses_nothing(session: Session)
    requires
        !(session.phase is Closed),
    ensures
        session.step(EventView::WouldBlock, true) == (
            session,
            ActionView::Wait { millis: BACKOFF_MILLIS as nat },
        ),
{
}

/// A closed session stays closed: whatever it is told, it asks for nothing
/// but to be closed, and reads and writes no more.
pub proof fn lemma_closed_stays_closed(session: Session, event: EventView, running: bool)
    requires
        session.phase is Closed,
    ensures
        session.step(event, running) == (
            session,
            ActionView::Close { outcome: session.phase->Closed_0 },
        ),
{
}

/// The prefix is judged before any byte of the payload is asked for. While
/// the prefix is incomplete a session asks for no byte beyond it, and a prefix
/// that announces no byte, or more than the limit, closes the session there:
/// with the four bytes of the prefix received, and none of a payload.
pub proof fn lemma_prefix_judged_first(session: Session, chunk: Seq<u8>, running: bool)
    requires
        session.wf(),
        session.phase == Phase::Reading,
        session.inbound.len() < PREFIX_LEN,
        1 <= chunk.len() <= session.wanted(),
    ensures
        session.inbound.len() + chunk.len() <= PREFIX_LEN,
        session.inbound.len() + chunk.len() == PREFIX_LEN && !valid_frame_len(
            prefix_value(session.inbound + chunk),
        ) ==> session.step(EventView::Received(chunk), running) == (Session {
            inbound: session.inbound + chunk,
            received: session.received + chunk,
            ..session
        }).close(Outcome::Rejected(ProtocolError::InvalidFrameLength)),
{
    let inbound = session.inbound + chunk;
    if inbound.len() == PREFIX_LEN {
        assert(inbound.subrange(0, PREFIX_LEN as int) =~= inbound);
    }
}

/// Requests are answered in their order: behind a request frame that is
/// answered, the response to it comes first and the answers to the rest of
/// the stream follow.
pub proof fn lemma_replies_in_order(payload: Seq<u8>, rest: Seq<u8>)
    requires
        valid_frame_len(payload.len()),
        reply(payload) is Ok,
    ensures
        replies(frame(payload) + rest) == reply(payload)->Ok_0 + replies(rest),
{
    lemma_parse_frame_of_frame(payload, rest);
}

/// Two requests sent one behind the other, without waiting, are answered
/// one behind the other: first the response to the first, then the response
/// to the second.
pub proof fn lemma_two_requests_in_order(first: Seq<u8>, second: Seq<u8>)
    requires
        valid_frame_len(first.len()),
        valid_frame_len(second.len()),
        reply(first) is Ok,
        reply(second) is Ok,
    ensures
        replies(frame(first) + frame(second)) == reply(first)->Ok_0 + reply(second)->Ok_0,
{
    lemma_replies_in_order(first, frame(second));
    lemma_replies_in_order(second, Seq::empty());
    assert(frame(second) + Seq::<u8>::empty() =~= frame(second));
    assert(replies(Seq::<u8>::empty()) =~= Seq::<u8>::empty());
    assert(reply(second)->Ok_0 + Seq::<u8>::empty() =~= reply(second)->Ok_0);
}

} // verus!
