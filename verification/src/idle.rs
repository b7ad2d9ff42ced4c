//! Idling: holding the connection open for what the server pushes.
//!
//! The handle takes the session for as long as the idle lasts, so that no
//! ordinary command can go out meanwhile. The session comes back only from
//! `done`, which writes the terminating line first where the idle is open.

use vstd::prelude::*;
use crate::command::{Command, Verb};
use crate::error::Error;
use crate::response::{Data, DataView, Response, ResponseView};
use crate::session::{
    Progress,
    ProgressView,
    Session,
    SessionView,
    done_line,
    failed,
    fed,
    idle_command,
    issue_spec,
    reacted,
    taken,
};
use crate::transport::TransportView;

verus! {

/// How far an idle has got.
#[derive(Clone, Copy, Debug, PartialEq, Eq, Structural)]
pub enum IdleState {
    /// `IDLE` has not been sent.
    Fresh,
    /// `IDLE` has been sent and the idle has not ended.
    Open,
    /// The idle is over: the server ended it, or the connection failed.
    Over,
}

/// An idle, as a mathematical value.
pub struct IdleView {
    pub session: SessionView,
    pub state: IdleState,
}

impl IdleView {
    /// While the idle is open, the session's open command is the `IDLE`.
    pub open spec fn well_formed(self) -> bool {
        self.state is Open ==> (self.session.pending matches Some(p) && p.verb == Verb::Idle)
    }
}

/// What a wait found, as a mathematical value.
pub enum PushedView {
    Waiting,
    Accepted,
    Data(DataView),
    Ended,
}

/// What a wait found.
#[derive(Clone, Debug, PartialEq, Eq)]
pub enum Pushed {
    /// No whole response has arrived: feed the handle and wait again.
    Waiting,
    /// The server has accepted the idle.
    Accepted,
    /// The server pushed this.
    Data(Data),
    /// The server completed the idle of its own accord.
    Ended,
}

impl View for Pushed {
    type V = PushedView;

    open spec fn view(&self) -> PushedView {
        match self {
            Pushed::Waiting => PushedView::Waiting,
            Pushed::Accepted => PushedView::Accepted,
            Pushed::Data(row) => PushedView::Data(row@),
            Pushed::Ended => PushedView::Ended,
        }
    }
}

/// The outcome of a wait, as a mathematical value.
pub open spec fn pushed_view(r: Result<Pushed, Error>) -> Result<PushedView, Error> {
    match r {
        Ok(pushed) => Ok(pushed@),
        Err(e) => Err(e),
    }
}

/// What starting the idle does to it and returns: the `IDLE` command goes
/// out as any command does, and the idle is open where it did.
pub open spec fn started(v: IdleView) -> (IdleView, Result<u64, Error>) {
    if v.state is Fresh {
        let (session, r) = issue_spec(v.session, idle_command(), Seq::empty());
        (
            IdleView {
                session,
                state: if r is Ok {
                    IdleState::Open
                } else {
                    IdleState::Fresh
                },
            },
            r,
        )
    } else {
        (v, Err(Error::State))
    }
}

/// What a wait does to the idle and returns.
///
/// Only an open idle can be waited on. Untagged data is handed out, in
/// the order of its arrival, and not kept. Anything else is applied to the
/// session as outside an idle. The first continuation request means that
/// the server has accepted the idle. A tagged status ends the idle once
/// the server has accepted it; before that it is a protocol error, as is
/// a second continuation request. Every failure but a wait on an idle that
/// is not open ends the idle too.
pub open spec fn waited(v: IdleView) -> (IdleView, Result<PushedView, Error>) {
    if !(v.state is Open) {
        (v, Err(Error::State))
    } else {
        let (session, response) = taken(v.session);
        match response {
            Err(e) => (IdleView { session, state: IdleState::Over }, Err(e)),
            Ok(None) => (IdleView { session, ..v }, Ok(PushedView::Waiting)),
            Ok(Some(ResponseView::Untagged(row))) => (
                IdleView { session, ..v },
                Ok(PushedView::Data(row)),
            ),
            Ok(Some(other)) => {
                let (after, outcome) = reacted(session, other);
                match outcome {
                    Ok(ProgressView::Finished(_)) => (
                        IdleView { session: after, state: IdleState::Over },
                        Ok(PushedView::Ended),
                    ),
                    Ok(_) => (IdleView { session: after, ..v }, Ok(PushedView::Accepted)),
                    Err(e) => (IdleView { session: after, state: IdleState::Over }, Err(e)),
                }
            },
        }
    }
}

/// The session that ending the idle gives back: where the idle is open on
/// a live connection, the terminating line has been written.
pub open spec fn ended(v: IdleView) -> SessionView {
    if v.state is Open && !v.session.transport.closed {
        SessionView {
            transport: TransportView {
                outbox: v.session.transport.outbox + done_line(),
                ..v.session.transport
            },
            ..v.session
        }
    } else {
        v.session
    }
}

/// A session that idles.
pub struct IdleHandle {
    session: Session,
    state: IdleState,
}

impl View for IdleHandle {
    type V = IdleView;

    closed spec fn view(&self) -> IdleView {
        IdleView { session: self.session@, state: self.state }
    }
}

impl IdleHandle {
    /// Wraps a session. Nothing is sent yet.
    pub fn new(session: Session) -> (h: IdleHandle)
        ensures
            h@ == (IdleView { session: session@, state: IdleState::Fresh }),
    {
        IdleHandle { session, state: IdleState::Fresh }
    }

    /// How far the idle has got.
    pub fn state(&self) -> (r: IdleState)
        ensures
            r == self@.state,
    {
        self.state
    }

    /// Whether the server has accepted the idle with a continuation
    /// request.
    pub fn is_accepted(&self) -> (r: bool)
        ensures
            r == (self@.state is Open && !(self@.session.pending matches Some(p) && p.awaiting)),
    {
        matches!(self.state, IdleState::Open) && !self.session.is_awaiting()
    }

    /// Gives the connection up: the session is closed and the idle over.
    pub fn disconnect(&mut self)
        ensures
            final(self)@ == (IdleView { session: failed(old(self)@.session), state: IdleState::Over }),
    {
        self.session.disconnect();
        self.state = IdleState::Over;
    }

    /// The session, to look at.
    pub fn session(&self) -> (r: &Session)
        ensures
            r@ == self@.session,
    {
        &self.session
    }

    /// Hands the idle bytes that arrived from the server.
    pub fn feed(&mut self, bytes: &[u8])
        ensures
            final(self)@ == (IdleView { session: fed(old(self)@.session, bytes@), ..old(self)@ }),
    {
        self.session.feed(bytes);
    }

    /// Takes the bytes written since the last drain, to be sent to the
    /// server.
    pub fn drain(&mut self) -> (r: Vec<u8>)
        ensures
            r@ == old(self)@.session.transport.outbox,
            final(self)@.state == old(self)@.state,
            final(self)@.session == (SessionView {
                transport: TransportView {
                    outbox: Seq::empty(),
                    ..old(self)@.session.transport
                },
                ..old(self)@.session
            }),
    {
        self.session.drain()
    }

    /// Sends `IDLE`. Legal once per handle, after a login.
    pub fn init(&mut self) -> (r: Result<u64, Error>)
        ensures
            (final(self)@, r) == started(old(self)@),
    {
        if !matches!(self.state, IdleState::Fresh) {
            return Err(Error::State);
        }
        let command = Command::nullary(Verb::Idle);
        let none: Vec<u8> = Vec::new();
        let r = self.session.issue(&command, none.as_slice());
        if r.is_ok() {
            self.state = IdleState::Open;
        }
        r
    }

    /// Takes the next response from the server, if a whole one has
    /// arrived.
    pub fn wait(&mut self) -> (r: Result<Pushed, Error>)
        ensures
            (final(self)@, pushed_view(r)) == waited(old(self)@),
    {
        if !matches!(self.state, IdleState::Open) {
            return Err(Error::State);
        }
        match self.session.take_response() {
            Err(e) => {
                self.state = IdleState::Over;
                Err(e)
            },
            Ok(None) => Ok(Pushed::Waiting),
            Ok(Some(Response::Untagged(row))) => Ok(Pushed::Data(row)),
            Ok(Some(other)) => match self.session.react(other) {
                Ok(Progress::Finished(_)) => {
                    self.state = IdleState::Over;
                    Ok(Pushed::Ended)
                },
                Ok(_) => Ok(Pushed::Accepted),
                Err(e) => {
                    self.state = IdleState::Over;
                    Err(e)
                },
            },
        }
    }

    /// Ends the idle and gives the session back. Where the idle is open,
    /// `DONE` is written first; its tagged status then arrives through the
    /// session, which takes no other command before.
    pub fn done(self) -> (s: Session)
        ensures
            s@ == ended(self@),
    {
        let mut session = self.session;
        if matches!(self.state, IdleState::Open) {
            session.write_done();
        }
        session
    }
}

} // verus!
