//! The listener's own bookkeeping: whether the server is running, and the
//! number that the next connection gets.
//!
//! The server owns no socket either. Whoever accepts the connections asks it,
//! for each thing that the listener reported, what to do with it.

use vstd::prelude::*;

verus! {

/// How long to wait, in milliseconds, when the listener had no connection to hand out.
pub const ACCEPT_BACKOFF_MILLIS: u64 = 100;

/// What the listener reported.
#[derive(Clone, Copy, Debug, PartialEq, Eq, Structural)]
pub enum Incoming {
    /// A connection was accepted.
    Connection,
    /// No connection was waiting, or accepting one failed.
    Nothing,
}

/// What to do with what the listener reported.
#[derive(Clone, Copy, Debug, PartialEq, Eq, Structural)]
pub enum Accepted {
    /// Serve the connection, under this number.
    Serve { id: usize },
    /// Wait `millis` milliseconds and ask the listener again.
    Wait { millis: u64 },
    /// The server was stopped: drop what came, and accept no more.
    Stop,
}

/// The state of a server: its liveness signal, and how many connections it took.
pub struct Server {
    is_running: bool,
    last_id: usize,
}

impl Server {
    /// The liveness signal: whether the server is accepting and serving.
    pub closed spec fn running(&self) -> bool {
        self.is_running
    }

    /// The number of connections taken so far, which is the number that the last one got.
    pub closed spec fn connections(&self) -> nat {
        self.last_id as nat
    }

    /// A server that does not run yet and has taken no connection.
    pub fn new() -> (server: Server)
        ensures
            !server.running(),
            server.connections() == 0,
    {
        Server { is_running: false, last_id: 0 }
    }

    /// Whether the server is accepting and serving.
    pub fn is_running(&self) -> (running: bool)
        ensures
            running == self.running(),
    {
        self.is_running
    }

    /// The number that the last connection got; zero while none was taken.
    pub fn last_id(&self) -> (id: usize)
        ensures
            id == self.connections(),
    {
        self.last_id
    }

    /// Sets the server running. What it has counted stays.
    pub fn run(&mut self)
        ensures
            final(self).running(),
            final(self).connections() == old(self).connections(),
    {
        self.is_running = true;
    }

    /// Stops the server. Returns whether this call sent the signal: a server
    /// that did not run is left as it is.
    pub fn stop(&mut self) -> (signalled: bool)
        ensures
            signalled == old(self).running(),
            !final(self).running(),
            final(self).connections() == old(self).connections(),
    {
        let signalled = self.is_running;
        self.is_running = false;
        signalled
    }

    /// Decides what to do with what the listener reported. A server that was
    /// stopped takes nothing more. A connection gets the next number: one more
    /// than the last, so that no two connections share one.
    pub fn accept(&mut self, incoming: Incoming) -> (accepted: Accepted)
        requires
            old(self).connections() < usize::MAX,
        ensures
            final(self).running() == old(self).running(),
            accepted == if !old(self).running() {
                Accepted::Stop
            } else if incoming == Incoming::Connection {
                Accepted::Serve { id: (old(self).connections() + 1) as usize }
            } else {
                Accepted::Wait { millis: ACCEPT_BACKOFF_MILLIS }
            },
            final(self).connections() == if accepted is Serve {
                old(self).connections() + 1
            } else {
                old(self).connections()
            },
    {
        if !self.is_running {
            Accepted::Stop
        } else {
            match incoming {
                Incoming::Connection => {
                    self.last_id = self.last_id + 1;
                    Accepted::Serve { id: self.last_id }
                },
                Incoming::Nothing => Accepted::Wait { millis: ACCEPT_BACKOFF_MILLIS },
            }
        }
    }
}

} // verus!
