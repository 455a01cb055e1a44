//! The decisions of the echo server's per-client loop: it reads into a
//! buffer, echoes what came, and stops when the client closes the stream or
//! after a fixed number of rounds. The reading, writing and waiting are done
//! by whoever drives the session.
use vstd::prelude::*;

verus! {

/// The size of the buffer a client's bytes are read into.
pub const BUFFER_SIZE: usize = 512;

/// The most rounds of reading and echoing one client gets.
pub const MAX_ROUNDS: usize = 1000;

/// What to do after a read.
#[derive(Clone, Copy, Debug, PartialEq, Eq, Structural)]
pub enum EchoAction {
    /// Write back the first `n` bytes of the buffer, then wait a second.
    Reply(usize),
    /// The client closed the stream: end the session.
    Close,
}

/// One client's session: how many rounds it has had.
pub struct EchoSession {
    rounds: usize,
}

impl EchoSession {
    /// The rounds that have ended in a reply.
    pub closed spec fn rounds_view(&self) -> nat {
        self.rounds as nat
    }

    /// A session that has had no round yet.
    pub fn new() -> (r: Self)
        ensures
            r.rounds_view() == 0,
    {
        EchoSession { rounds: 0 }
    }

    /// The rounds that have ended in a reply.
    pub fn rounds(&self) -> (r: usize)
        ensures
            r == self.rounds_view(),
    {
        self.rounds
    }

    /// Whether the session gets another read.
    pub fn wants_read(&self) -> (r: bool)
        ensures
            r == (self.rounds_view() < MAX_ROUNDS),
    {
        self.rounds < MAX_ROUNDS
    }

    /// Decides what to do with a read of `bytes_read` bytes: close on an empty
    /// read, else echo the bytes and count the round.
    pub fn on_read(&mut self, bytes_read: usize) -> (r: EchoAction)
        requires
            old(self).rounds_view() < MAX_ROUNDS,
            bytes_read <= BUFFER_SIZE,
        ensures
            bytes_read == 0 ==> r == EchoAction::Close && final(self).rounds_view()
                == old(self).rounds_view(),
            bytes_read > 0 ==> r == EchoAction::Reply(bytes_read) && final(self).rounds_view()
                == old(self).rounds_view() + 1,
            final(self).rounds_view() <= MAX_ROUNDS,
    {
        if bytes_read == 0 {
            return EchoAction::Close;
        }
        self.rounds = self.rounds + 1;
        EchoAction::Reply(bytes_read)
    }
}

} // verus!
