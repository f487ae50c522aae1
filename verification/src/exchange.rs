//! One request and its response over a connection of its own, as state
//! machines: connecting to one of a host's addresses, sending, and reading
//! what comes back.
use crate::error::StorageError;
use crate::io::IoError;
use crate::text::decimal;
use crate::transport::{connect_failure, may_have_answered};
use vstd::prelude::*;

verus! {

// ---------------------------------------------------------------------------
// Connecting

/// What to do next to connect.
#[derive(Debug)]
pub enum SweepAction {
    /// Try the address at this index.
    Dial(usize),
    /// End: the address at this index is connected, or none could be.
    Finish(Result<usize, StorageError>),
}

/// An attempt to connect to one of a host's addresses, each in turn.
#[derive(Debug)]
pub struct ConnectSweep {
    pub host: String,
    pub port: u16,
    /// How many addresses there are.
    pub count: usize,
    /// The address being tried.
    pub index: usize,
    /// Why the address before it could not be connected to.
    pub last: Option<IoError>,
}

/// Whether `a` goes on with the address at index `i`.
pub open spec fn sweeps_on(s: ConnectSweep, i: int, cancelled: bool, a: SweepAction) -> bool {
    if i >= s.count {
        a matches SweepAction::Finish(Err(StorageError::Unavailable(m))) && m@ == match s.last {
            Some(e) => "connect "@ + s.host@ + ":"@ + decimal(s.port as int) + ": "@ + e@.message,
            None => "no addresses for "@ + s.host@ + ":"@ + decimal(s.port as int),
        }
    } else if cancelled {
        a == SweepAction::Finish(Err(StorageError::Cancelled))
    } else {
        a == SweepAction::Dial(i as usize)
    }
}

impl ConnectSweep {
    /// Starts connecting to a host with this many addresses.
    pub fn new(host: &str, port: u16, count: usize, cancelled: bool) -> (r: (
        ConnectSweep,
        SweepAction,
    ))
        ensures
            r.0.host@ == host@,
            r.0.port == port,
            r.0.count == count,
            r.0.index == 0,
            r.0.last is None,
            sweeps_on(r.0, 0, cancelled, r.1),
    {
        let s = ConnectSweep { host: host.to_owned(), port, count, index: 0, last: None };
        s.on(cancelled)
    }

    fn on(self, cancelled: bool) -> (r: (ConnectSweep, SweepAction))
        ensures
            r.0.host@ == self.host@,
            r.0.port == self.port,
            r.0.count == self.count,
            r.0.index == self.index,
            self.last is None ==> r.0.last is None,
            self.index < self.count ==> r.0 == self,
            sweeps_on(self, self.index as int, cancelled, r.1),
            self.last is None ==> sweeps_on(r.0, r.0.index as int, cancelled, r.1),
    {
        if self.index >= self.count {
            let ConnectSweep { host, port, count, index, last } = self;
            let e = connect_failure(host.as_str(), port, last);
            (
                ConnectSweep { host, port, count, index, last: None },
                SweepAction::Finish(Err(e)),
            )
        } else if cancelled {
            (self, SweepAction::Finish(Err(StorageError::Cancelled)))
        } else {
            let i = self.index;
            (self, SweepAction::Dial(i))
        }
    }

    /// Takes what came of the attempt, and tells what to do next. `cancelled`
    /// tells whether cancellation was requested by now: it is looked at
    /// before every attempt and after the one that succeeds, so it never has
    /// to wait for more than one.
    pub fn step(self, dialed: Result<(), IoError>, cancelled: bool) -> (r: (
        ConnectSweep,
        SweepAction,
    ))
        requires
            self.index < self.count,
        ensures
            match dialed {
                Ok(_) => r.0 == self && r.1 == SweepAction::Finish(
                    if cancelled {
                        Err(StorageError::Cancelled)
                    } else {
                        Ok(self.index)
                    },
                ),
                Err(e) => {
                    let t = ConnectSweep {
                        index: (self.index + 1) as usize,
                        last: Some(e),
                        ..self
                    };
                    &&& sweeps_on(t, self.index + 1, cancelled, r.1)
                    &&& self.index + 1 < self.count ==> r.0 == t
                },
            },
    {
        match dialed {
            Ok(_) => {
                let i = self.index;
                if cancelled {
                    (self, SweepAction::Finish(Err(StorageError::Cancelled)))
                } else {
                    (self, SweepAction::Finish(Ok(i)))
                }
            },
            Err(e) => {
                let index: usize = self.index + 1;
                let s = ConnectSweep { index, last: Some(e), ..self };
                s.on(cancelled)
            },
        }
    }
}

/// Once cancelled, no further address is tried.
pub proof fn law_cancelled_sweep_dials_nothing(s: ConnectSweep, i: int, a: SweepAction)
    requires
        sweeps_on(s, i, true, a),
    ensures
        a !is Dial,
{
}

// ---------------------------------------------------------------------------
// Request and response

/// What a request waits for.
#[derive(Debug)]
pub enum ExchangePhase {
    Connect,
    Send,
    /// The response; the request failed to be sent for this reason, if any.
    Read(Option<StorageError>),
    Done,
}

/// What to do next for a request.
#[derive(Debug)]
pub enum ExchangeAction {
    Connect,
    /// Send the head, and the body if there is one.
    Send,
    /// Read the response's head.
    ReadHead,
    /// End: the response is there, or it is not.
    Finish(Result<(), StorageError>),
}

/// A request in progress.
#[derive(Debug)]
pub struct Exchange {
    pub has_body: bool,
    pub phase: ExchangePhase,
}

/// What a request becomes and does next, on what came of the last action.
pub open spec fn exchange_next(s: Exchange, r: Result<(), StorageError>) -> (
    Exchange,
    ExchangeAction,
) {
    let done = Exchange { phase: ExchangePhase::Done, ..s };
    match (s.phase, r) {
        (ExchangePhase::Connect, Ok(_)) => (
            Exchange { phase: ExchangePhase::Send, ..s },
            ExchangeAction::Send,
        ),
        (ExchangePhase::Connect, Err(e)) => (done, ExchangeAction::Finish(Err(e))),
        (ExchangePhase::Send, Ok(_)) => (
            Exchange { phase: ExchangePhase::Read(None), ..s },
            ExchangeAction::ReadHead,
        ),
        (ExchangePhase::Send, Err(e)) => if s.has_body && !(e is Cancelled) {
            (Exchange { phase: ExchangePhase::Read(Some(e)), ..s }, ExchangeAction::ReadHead)
        } else {
            (done, ExchangeAction::Finish(Err(e)))
        },
        (ExchangePhase::Read(Some(sent)), Err(_)) => (done, ExchangeAction::Finish(Err(sent))),
        (_, r) => (done, ExchangeAction::Finish(r)),
    }
}

impl Exchange {
    /// Starts a request. The first action is to connect.
    pub fn new(has_body: bool) -> (r: (Exchange, ExchangeAction))
        ensures
            r.0 == (Exchange { has_body, phase: ExchangePhase::Connect }),
            r.1 is Connect,
    {
        (Exchange { has_body, phase: ExchangePhase::Connect }, ExchangeAction::Connect)
    }

    /// Takes what came of the last action, and tells what to do next. A
    /// server may refuse a body early and stop reading it; its answer then
    /// usually has arrived, and tells more than the broken connection.
    pub fn step(self, result: Result<(), StorageError>) -> (r: (Exchange, ExchangeAction))
        requires
            !(self.phase is Done),
        ensures
            r == exchange_next(self, result),
    {
        let Exchange { has_body, phase } = self;
        match phase {
            ExchangePhase::Connect => match result {
                Ok(_) => (
                    Exchange { has_body, phase: ExchangePhase::Send },
                    ExchangeAction::Send,
                ),
                Err(e) => (
                    Exchange { has_body, phase: ExchangePhase::Done },
                    ExchangeAction::Finish(Err(e)),
                ),
            },
            ExchangePhase::Send => match result {
                Ok(_) => (
                    Exchange { has_body, phase: ExchangePhase::Read(None) },
                    ExchangeAction::ReadHead,
                ),
                Err(e) => if has_body && may_have_answered(&e) {
                    (
                        Exchange { has_body, phase: ExchangePhase::Read(Some(e)) },
                        ExchangeAction::ReadHead,
                    )
                } else {
                    (
                        Exchange { has_body, phase: ExchangePhase::Done },
                        ExchangeAction::Finish(Err(e)),
                    )
                },
            },
            ExchangePhase::Read(Some(sent)) => match result {
                Ok(_) => (
                    Exchange { has_body, phase: ExchangePhase::Done },
                    ExchangeAction::Finish(result),
                ),
                Err(_) => (
                    Exchange { has_body, phase: ExchangePhase::Done },
                    ExchangeAction::Finish(Err(sent)),
                ),
            },
            _ => (
                Exchange { has_body, phase: ExchangePhase::Done },
                ExchangeAction::Finish(result),
            ),
        }
    }
}

/// A failed upload is reported only if the server did not answer; if it did,
/// its answer counts. A cancelled one is reported at once.
pub proof fn law_early_answer_counts(has_body: bool, sent: StorageError, read: StorageError)
    ensures
        ({
            let s = Exchange { has_body, phase: ExchangePhase::Send };
            let t = exchange_next(s, Err(sent));
            &&& has_body && !(sent is Cancelled) ==> {
                &&& t.1 is ReadHead
                &&& exchange_next(t.0, Ok(())).1 == ExchangeAction::Finish(Ok(()))
                &&& exchange_next(t.0, Err(read)).1 == ExchangeAction::Finish(Err(sent))
            }
            &&& sent is Cancelled ==> t.1 == ExchangeAction::Finish(Err(sent))
        }),
{
}

/// What a failure to read the response's head means: a cancellation that
/// landed meanwhile is reported as one.
pub fn head_failure(e: &IoError, cancelled: bool) -> (r: StorageError)
    ensures
        cancelled ==> r is Cancelled,
        !cancelled ==> (r matches StorageError::Unavailable(m) && m@ == "read response: "@
            + e@.message),
{
    if cancelled {
        StorageError::Cancelled
    } else {
        StorageError::Unavailable(crate::error::join("read response: ", e.message.as_str()))
    }
}

} // verus!
