//! The steps of one connection's session: await a line, dispatch it, send
//! the reply, and close on end of input or on a failed send.

use vstd::prelude::*;
use crate::protocol::{plan, request_of, Request};

verus! {

/// Where a session stands.
#[derive(PartialEq, Eq, Structural, Clone, Copy, Debug)]
pub enum Phase {
    /// Waiting for the next command line.
    AwaitingLine,
    /// A command was read; its reply is still to be sent.
    Dispatching,
    /// The connection is done with.
    Closed,
}

/// The state of one connection's session.
pub struct Session {
    phase: Phase,
}

impl Session {
    pub closed spec fn spec_phase(&self) -> Phase {
        self.phase
    }

    /// A session on a fresh connection, waiting for its first line.
    pub fn new() -> (s: Session)
        ensures
            s.spec_phase() == Phase::AwaitingLine,
    {
        Session { phase: Phase::AwaitingLine }
    }

    pub fn phase(&self) -> (r: Phase)
        ensures
            r == self.spec_phase(),
    {
        self.phase
    }

    /// Takes what the read of the next line gave: a line, or `None` where
    /// the input ended or the read failed. Returns what the line asks for,
    /// or `None` where the session closes.
    pub fn on_input(&mut self, line: Option<&str>) -> (r: Option<Request>)
        requires
            old(self).spec_phase() == Phase::AwaitingLine,
        ensures
            match line {
                None => r is None && final(self).spec_phase() == Phase::Closed,
                Some(l) => {
                    &&& r is Some
                    &&& r->Some_0@ == request_of(l@)
                    &&& final(self).spec_phase() == if request_of(l@) is Skip {
                        Phase::AwaitingLine
                    } else {
                        Phase::Dispatching
                    }
                },
            },
    {
        match line {
            None => {
                self.phase = Phase::Closed;
                None
            },
            Some(l) => {
                let req = plan(l);
                if let Request::Skip = req {
                    self.phase = Phase::AwaitingLine;
                } else {
                    self.phase = Phase::Dispatching;
                }
                Some(req)
            },
        }
    }

    /// Takes whether the reply was written and flushed. The session waits
    /// for the next line after a sent reply and closes after a failed one.
    pub fn on_sent(&mut self, ok: bool)
        requires
            old(self).spec_phase() == Phase::Dispatching,
        ensures
            final(self).spec_phase() == if ok {
                Phase::AwaitingLine
            } else {
                Phase::Closed
            },
    {
        if ok {
            self.phase = Phase::AwaitingLine;
        } else {
            self.phase = Phase::Closed;
        }
    }
}

} // verus!
