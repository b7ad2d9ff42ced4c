//! The session: which commands are legal when, which command is open, and
//! what each response from the server does to both.
//!
//! One command is open at a time. An operation checks the phase, allocates
//! the next tag, and writes the command; nothing is written where the
//! check fails. Responses are then taken from the transport one at a time:
//! untagged data is kept for the open command, a continuation request
//! releases the next part of a command that holds a literal, and the tagged
//! status completes the command.

use vstd::prelude::*;
use vstd::string::StringSliceAdditionalSpecFns;
use crate::command::{
    Arg,
    ArgView,
    Command,
    CommandView,
    Verb,
    format_tag,
    lemma_segments_count,
    rows_view,
    segments,
    tag_text,
};
use crate::error::{Error, Refusal};
use crate::idle::{IdleHandle, IdleState, IdleView};
use crate::parse::{Scan, lemma_scan_advances, parse, scan};
use crate::reply::{
    Mailbox,
    MailboxView,
    Reply,
    ReplyView,
    build_reply,
    collect_mailbox,
    data_view,
    mailbox_in,
    reply_for,
};
use crate::response::{Data, DataView, Response, ResponseView, Status};
use crate::text::{SP, copy_of, same_bytes};
use crate::transport::{Transport, TransportView};

verus! {

/// Where a connection stands.
#[derive(Clone, Copy, Debug, PartialEq, Eq, Structural)]
pub enum Phase {
    /// Connected; nobody has logged in.
    NotAuthenticated,
    /// Logged in; no mailbox is selected.
    Authenticated,
    /// Logged in, with a mailbox selected.
    Selected,
    /// The connection is gone.
    Closed,
}

/// The command that is open, as a mathematical value.
pub struct PendingView {
    /// The number of the tag under which the command went out.
    pub tag: nat,
    pub verb: Verb,
    /// The mailbox the command names, where it is a selection.
    pub target: Seq<u8>,
    /// The segments of the command that wait for a continuation request.
    pub remaining: Seq<Seq<u8>>,
    /// Whether the server has yet to accept the command with a
    /// continuation request, as it accepts an `IDLE`.
    pub awaiting: bool,
    /// The untagged data that arrived since the command went out.
    pub rows: Seq<DataView>,
}

/// A session, as a mathematical value.
pub struct SessionView {
    pub transport: TransportView,
    pub phase: Phase,
    /// The selected mailbox.
    pub mailbox: Option<MailboxView>,
    /// The number of the tag that the next command gets.
    pub next_tag: nat,
    /// The command that is open.
    pub pending: Option<PendingView>,
}

impl PendingView {
    /// How many continuation requests the command still expects: one for
    /// each segment that waits, and one where the server has yet to accept
    /// the command.
    pub open spec fn owed(self) -> nat {
        self.remaining.len() + if self.awaiting {
            1nat
        } else {
            0nat
        }
    }
}

impl SessionView {
    /// What holds of every session that was made by `Session::new` and
    /// changed only by the operations of this module: a mailbox is held
    /// exactly in the selected phase, the phase is closed exactly when the
    /// transport is, a closed session has no open command, and the open
    /// command's tag is older than the next one.
    pub open spec fn well_formed(self) -> bool {
        &&& (self.phase is Selected) == (self.mailbox is Some)
        &&& (self.phase is Closed) == self.transport.closed
        &&& self.phase is Closed ==> self.pending is None
        &&& self.next_tag >= 1
        &&& self.pending matches Some(p) ==> p.tag < self.next_tag
    }
}

/// How far a call got.
pub enum ProgressView {
    Waiting,
    Working,
    Finished(ReplyView),
}

/// How far a call got.
#[derive(Clone, Debug, PartialEq, Eq)]
pub enum Progress {
    /// No whole response has arrived: feed the transport and call again.
    Waiting,
    /// One response was taken and the command is still open: drain the
    /// transport and call again.
    Working,
    /// The server completed the command: here is what it returns.
    Finished(Reply),
}

impl View for Progress {
    type V = ProgressView;

    open spec fn view(&self) -> ProgressView {
        match self {
            Progress::Waiting => ProgressView::Waiting,
            Progress::Working => ProgressView::Working,
            Progress::Finished(reply) => ProgressView::Finished(reply@),
        }
    }
}

/// The outcome of a call, as a mathematical value.
pub open spec fn outcome_view(r: Result<Progress, Error>) -> Result<ProgressView, Error> {
    match r {
        Ok(progress) => Ok(progress@),
        Err(e) => Err(e),
    }
}

/// Whether the command is legal in the phase.
///
/// `CAPABILITY` is legal in every phase of a live connection. Commands on
/// mailboxes by name, and `IDLE`, need a login. Commands on messages, and
/// `CLOSE`, need a selected mailbox.
pub open spec fn admits(phase: Phase, verb: Verb) -> bool {
    match verb {
        Verb::Capability => !(phase is Closed),
        Verb::List | Verb::Create | Verb::Subscribe | Verb::Select | Verb::Idle => phase
            is Authenticated || phase is Selected,
        Verb::Close | Verb::Fetch | Verb::UidFetch | Verb::UidStore | Verb::UidMove
        | Verb::UidCopy => phase is Selected,
    }
}

/// Whether the command is legal in the phase.
pub fn is_admitted(phase: Phase, verb: Verb) -> (r: bool)
    ensures
        r == admits(phase, verb),
{
    match verb {
        Verb::Capability => !matches!(phase, Phase::Closed),
        Verb::List | Verb::Create | Verb::Subscribe | Verb::Select | Verb::Idle => matches!(
            phase,
            Phase::Authenticated | Phase::Selected
        ),
        Verb::Close | Verb::Fetch | Verb::UidFetch | Verb::UidStore | Verb::UidMove
        | Verb::UidCopy => matches!(phase, Phase::Selected),
    }
}

/// Why a command cannot go out, if it cannot: `Io` on a closed connection;
/// `State` where the phase does not admit it, where another command is
/// still open, or where the tags are used up.
pub open spec fn refusal(s: SessionView, verb: Verb) -> Option<Error> {
    if s.phase is Closed || s.transport.closed {
        Some(Error::Io)
    } else if !admits(s.phase, verb) || s.pending is Some || s.next_tag >= u64::MAX {
        Some(Error::State)
    } else {
        None
    }
}

/// The session after the command went out: its first segment is written,
/// the tag counter has moved on by one, and the command is open under the
/// tag the counter showed.
pub open spec fn issued(s: SessionView, c: CommandView, target: Seq<u8>) -> SessionView {
    SessionView {
        transport: TransportView {
            outbox: s.transport.outbox + segments(s.next_tag, c)[0],
            ..s.transport
        },
        next_tag: s.next_tag + 1,
        pending: Some(
            PendingView {
                tag: s.next_tag,
                verb: c.verb,
                target,
                remaining: segments(s.next_tag, c).skip(1),
                awaiting: c.verb == Verb::Idle,
                rows: Seq::empty(),
            },
        ),
        ..s
    }
}

/// What issuing the command does to the session and returns.
pub open spec fn issue_spec(s: SessionView, c: CommandView, target: Seq<u8>) -> (
    SessionView,
    Result<u64, Error>,
) {
    match refusal(s, c.verb) {
        Some(e) => (s, Err(e)),
        None => (issued(s, c, target), Ok(s.next_tag as u64)),
    }
}

/// The session after `bytes` arrived from the server. A closed session
/// drops them.
pub open spec fn fed(s: SessionView, bytes: Seq<u8>) -> SessionView {
    if s.transport.closed {
        s
    } else {
        SessionView {
            transport: TransportView { inbox: s.transport.inbox + bytes, ..s.transport },
            ..s
        }
    }
}

/// The session after a fatal error: closed, with nothing open and nothing
/// selected.
pub open spec fn failed(s: SessionView) -> SessionView {
    SessionView {
        transport: TransportView { closed: true, ..s.transport },
        phase: Phase::Closed,
        mailbox: None,
        pending: None,
        ..s
    }
}

/// The session after the server refused the command `verb`. A refused
/// selection leaves no mailbox selected.
pub open spec fn rejected(s: SessionView, verb: Verb) -> SessionView {
    if verb == Verb::Select && s.phase is Selected {
        SessionView { phase: Phase::Authenticated, mailbox: None, ..s }
    } else {
        s
    }
}

/// What the tagged status `status` for the open command `p` does to the
/// session and returns.
pub open spec fn concluded(s: SessionView, p: PendingView, status: Status) -> (
    SessionView,
    Result<ProgressView, Error>,
) {
    let rest = SessionView { pending: None, ..s };
    match status {
        Status::Okay => (
            match p.verb {
                Verb::Select => SessionView {
                    phase: Phase::Selected,
                    mailbox: Some(mailbox_in(p.rows, p.target)),
                    ..rest
                },
                Verb::Close => SessionView { phase: Phase::Authenticated, mailbox: None, ..rest },
                _ => rest,
            },
            Ok(ProgressView::Finished(reply_for(p.verb, p.target, p.rows))),
        ),
        Status::No => (rejected(rest, p.verb), Err(Error::Command(Refusal::No))),
        Status::Bad => (rejected(rest, p.verb), Err(Error::Command(Refusal::Bad))),
    }
}

/// What a response does to the session and returns.
///
/// With no command open, untagged data is dropped and anything else is a
/// protocol error. With a command open, untagged data is kept for it. A
/// continuation request releases the command's next segment, or accepts
/// the command where it is an `IDLE` not yet accepted, and is a protocol
/// error where the command expects none. A tagged status completes the
/// command, and is a protocol error where it bears another tag or comes
/// while the command still expects a continuation request.
pub open spec fn reacted(s: SessionView, response: ResponseView) -> (
    SessionView,
    Result<ProgressView, Error>,
) {
    if s.phase is Closed || s.transport.closed {
        (s, Err(Error::Io))
    } else {
        match s.pending {
            None => match response {
                ResponseView::Untagged(_) => (s, Ok(ProgressView::Working)),
                _ => (failed(s), Err(Error::Protocol)),
            },
            Some(p) => match response {
                ResponseView::Untagged(row) => (
                    SessionView { pending: Some(PendingView { rows: p.rows.push(row), ..p }), ..s },
                    Ok(ProgressView::Working),
                ),
                ResponseView::Continuation(_) => if p.remaining.len() > 0 {
                    (
                        SessionView {
                            transport: TransportView {
                                outbox: s.transport.outbox + p.remaining[0],
                                ..s.transport
                            },
                            pending: Some(PendingView { remaining: p.remaining.skip(1), ..p }),
                            ..s
                        },
                        Ok(ProgressView::Working),
                    )
                } else if p.awaiting {
                    (
                        SessionView { pending: Some(PendingView { awaiting: false, ..p }), ..s },
                        Ok(ProgressView::Working),
                    )
                } else {
                    (failed(s), Err(Error::Protocol))
                },
                ResponseView::Tagged { tag, status, text } => if tag != tag_text(p.tag)
                    || p.remaining.len() > 0 || p.awaiting {
                    (failed(s), Err(Error::Protocol))
                } else {
                    concluded(s, p, status)
                },
            },
        }
    }
}

/// What taking the next response from the transport does to the session
/// and returns.
pub open spec fn polled(s: SessionView) -> (SessionView, Result<ProgressView, Error>) {
    if s.phase is Closed || s.transport.closed {
        (s, Err(Error::Io))
    } else {
        match scan(s.transport.inbox) {
            Scan::Incomplete => (s, Ok(ProgressView::Waiting)),
            Scan::Malformed => (failed(s), Err(Error::Parse)),
            Scan::Complete { response, length } => reacted(
                SessionView {
                    transport: TransportView {
                        inbox: s.transport.inbox.skip(length),
                        ..s.transport
                    },
                    ..s
                },
                response,
            ),
        }
    }
}

/// A response that was applied and left the command open was taken from
/// the transport: fewer bytes wait there than before.
pub proof fn lemma_working_consumes(s: SessionView)
    ensures
        polled(s).1 == Ok::<ProgressView, Error>(ProgressView::Working) ==> polled(
            s,
        ).0.transport.inbox.len() < s.transport.inbox.len(),
{
    lemma_scan_advances(s.transport.inbox);
}

/// What running the open command as far as the bytes received allow does
/// to the session and returns: responses are taken and applied one after
/// another until the command is complete, an error ends it, or no whole
/// response is left, in which case nothing is returned yet.
pub open spec fn completed(s: SessionView) -> (SessionView, Result<Option<ReplyView>, Error>)
    decreases s.transport.inbox.len(),
{
    let (next, outcome) = polled(s);
    match outcome {
        Ok(ProgressView::Working) => {
            proof {
                lemma_working_consumes(s);
            }
            completed(next)
        },
        Ok(ProgressView::Waiting) => (next, Ok(None)),
        Ok(ProgressView::Finished(reply)) => (next, Ok(Some(reply))),
        Err(e) => (next, Err(e)),
    }
}

/// What a run of the open command returned, as a mathematical value.
pub open spec fn completion_view(r: Result<Option<Reply>, Error>) -> Result<
    Option<ReplyView>,
    Error,
> {
    match r {
        Ok(Some(reply)) => Ok(Some(reply@)),
        Ok(None) => Ok(None),
        Err(e) => Err(e),
    }
}

/// What taking the next response from the transport, without applying
/// it, does to the session and returns.
pub open spec fn taken(s: SessionView) -> (SessionView, Result<Option<ResponseView>, Error>) {
    if s.phase is Closed || s.transport.closed {
        (s, Err(Error::Io))
    } else {
        match scan(s.transport.inbox) {
            Scan::Incomplete => (s, Ok(None)),
            Scan::Malformed => (failed(s), Err(Error::Parse)),
            Scan::Complete { response, length } => (
                SessionView {
                    transport: TransportView {
                        inbox: s.transport.inbox.skip(length),
                        ..s.transport
                    },
                    ..s
                },
                Ok(Some(response)),
            ),
        }
    }
}

/// The response a call handed out, as a mathematical value.
pub open spec fn taken_view(r: Result<Option<Response>, Error>) -> Result<
    Option<ResponseView>,
    Error,
> {
    match r {
        Ok(Some(response)) => Ok(Some(response@)),
        Ok(None) => Ok(None),
        Err(e) => Err(e),
    }
}

/// The text of an optional string.
pub open spec fn bytes_of(s: Option<&str>) -> Option<Seq<u8>> {
    match s {
        Some(s) => Some(s.spec_bytes()),
        None => None,
    }
}

/// `CAPABILITY`
pub open spec fn capability_command() -> CommandView {
    CommandView { verb: Verb::Capability, args: Seq::empty() }
}

/// `LIST reference pattern`: the reference a string, empty where none is
/// given; the pattern as it stands, an empty string where none is given.
pub open spec fn list_command(reference: Option<Seq<u8>>, pattern: Option<Seq<u8>>) -> CommandView {
    CommandView {
        verb: Verb::List,
        args: seq![
            ArgView::of_string(
                match reference {
                    Some(r) => r,
                    None => Seq::empty(),
                },
            ),
            match pattern {
                Some(p) => ArgView::of_text(p),
                None => ArgView::of_string(Seq::empty()),
            },
        ],
    }
}

/// A command on one mailbox, named by a string.
pub open spec fn mailbox_command(verb: Verb, name: Seq<u8>) -> CommandView {
    CommandView { verb, args: seq![ArgView::of_string(name)] }
}

/// `CLOSE`
pub open spec fn close_command() -> CommandView {
    CommandView { verb: Verb::Close, args: Seq::empty() }
}

/// A command on a set of messages with a query that goes out as it
/// stands.
pub open spec fn message_command(verb: Verb, set: Seq<u8>, query: Seq<u8>) -> CommandView {
    CommandView { verb, args: seq![ArgView::of_text(set), ArgView::of_text(query)] }
}

/// A command that takes a set of messages to a mailbox named by a string.
pub open spec fn transfer_command(verb: Verb, set: Seq<u8>, name: Seq<u8>) -> CommandView {
    CommandView { verb, args: seq![ArgView::of_text(set), ArgView::of_string(name)] }
}

/// `IDLE`
pub open spec fn idle_command() -> CommandView {
    CommandView { verb: Verb::Idle, args: Seq::empty() }
}

/// The line that ends an idle.
pub open spec fn done_line() -> Seq<u8> {
    "DONE\r\n".spec_bytes()
}

/// The command that is open.
struct Pending {
    tag: u64,
    verb: Verb,
    target: Vec<u8>,
    remaining: Vec<Vec<u8>>,
    awaiting: bool,
    rows: Vec<Data>,
}

impl View for Pending {
    type V = PendingView;

    closed spec fn view(&self) -> PendingView {
        PendingView {
            tag: self.tag as nat,
            verb: self.verb,
            target: self.target@,
            remaining: rows_view(self.remaining@),
            awaiting: self.awaiting,
            rows: data_view(self.rows@),
        }
    }
}

/// One connection's protocol state, with the transport it owns.
pub struct Session {
    transport: Transport,
    phase: Phase,
    mailbox: Option<Mailbox>,
    next_tag: u64,
    pending: Option<Pending>,
}

impl View for Session {
    type V = SessionView;

    closed spec fn view(&self) -> SessionView {
        SessionView {
            transport: self.transport@,
            phase: self.phase,
            mailbox: match self.mailbox {
                Some(m) => Some(m@),
                None => None,
            },
            next_tag: self.next_tag as nat,
            pending: match self.pending {
                Some(p) => Some(p@),
                None => None,
            },
        }
    }
}

impl Session {
    /// A session on a fresh connection: nobody has logged in, no command
    /// is open, and the first tag is number 1. Over a transport that is
    /// already closed the session is closed too.
    pub fn new(transport: Transport) -> (s: Session)
        ensures
            s@ == (SessionView {
                transport: transport@,
                phase: if transport@.closed {
                    Phase::Closed
                } else {
                    Phase::NotAuthenticated
                },
                mailbox: None,
                next_tag: 1,
                pending: None,
            }),
            s@.well_formed(),
    {
        let phase = if transport.is_closed() {
            Phase::Closed
        } else {
            Phase::NotAuthenticated
        };
        Session { transport, phase, mailbox: None, next_tag: 1, pending: None }
    }

    /// Records that the login succeeded. Fails with `Io` on a closed
    /// session and with `State` in any phase but the first or while a
    /// command is open, changing nothing.
    pub fn logged_in(&mut self) -> (r: Result<(), Error>)
        ensures
            r == (if old(self)@.phase is Closed {
                Err::<(), Error>(Error::Io)
            } else if old(self)@.phase is NotAuthenticated && old(self)@.pending is None {
                Ok::<(), Error>(())
            } else {
                Err::<(), Error>(Error::State)
            }),
            final(self)@ == (if r is Ok {
                SessionView { phase: Phase::Authenticated, ..old(self)@ }
            } else {
                old(self)@
            }),
    {
        match self.phase {
            Phase::Closed => Err(Error::Io),
            Phase::NotAuthenticated => {
                if self.pending.is_some() {
                    return Err(Error::State);
                }
                self.phase = Phase::Authenticated;
                Ok(())
            },
            _ => Err(Error::State),
        }
    }

    /// The phase the session is in.
    pub fn phase(&self) -> (r: Phase)
        ensures
            r == self@.phase,
    {
        self.phase
    }

    /// The selected mailbox, as the last selection found it.
    pub fn mailbox(&self) -> (r: Option<&Mailbox>)
        ensures
            match r {
                Some(m) => self@.mailbox == Some(m@),
                None => self@.mailbox is None,
            },
    {
        self.mailbox.as_ref()
    }

    /// The number of the tag that the next command gets.
    pub fn next_tag(&self) -> (r: u64)
        ensures
            r == self@.next_tag,
    {
        self.next_tag
    }

    /// Whether a command is open.
    pub fn is_busy(&self) -> (r: bool)
        ensures
            r == (self@.pending is Some),
    {
        self.pending.is_some()
    }

    /// Whether the open command still waits for the server to accept it
    /// with a continuation request.
    pub fn is_awaiting(&self) -> (r: bool)
        ensures
            r == (self@.pending matches Some(p) && p.awaiting),
    {
        match &self.pending {
            Some(p) => p.awaiting,
            None => false,
        }
    }

    /// The transport, to look at.
    pub fn transport(&self) -> (r: &Transport)
        ensures
            r@ == self@.transport,
    {
        &self.transport
    }

    /// Hands the session bytes that arrived from the server.
    pub fn feed(&mut self, bytes: &[u8])
        ensures
            final(self)@ == fed(old(self)@, bytes@),
    {
        self.transport.feed(bytes);
    }

    /// Takes the bytes the session wrote since the last drain, to be sent
    /// to the server.
    pub fn drain(&mut self) -> (r: Vec<u8>)
        ensures
            r@ == old(self)@.transport.outbox,
            final(self)@ == (SessionView {
                transport: TransportView { outbox: Seq::empty(), ..old(self)@.transport },
                ..old(self)@
            }),
    {
        self.transport.drain()
    }

    /// Gives the connection up: the transport is closed and the session
    /// with it.
    pub fn disconnect(&mut self)
        ensures
            final(self)@ == failed(old(self)@),
    {
        self.fail();
    }

    fn fail(&mut self)
        ensures
            final(self)@ == failed(old(self)@),
    {
        self.transport.close();
        self.phase = Phase::Closed;
        self.mailbox = None;
        self.pending = None;
    }

    /// Sends a command.
    ///
    /// Fails with `Io` on a closed session. Fails with `State` where the
    /// phase does not admit the command, where another command is still
    /// open, or where the tags are used up. A failure writes nothing and
    /// changes nothing. Otherwise the command's first segment is written,
    /// the command is open, and the number of its tag is returned.
    pub(crate) fn issue(&mut self, command: &Command, target: &[u8]) -> (r: Result<u64, Error>)
        ensures
            (final(self)@, r) == issue_spec(old(self)@, command@, target@),
    {
        if matches!(self.phase, Phase::Closed) || self.transport.is_closed() {
            return Err(Error::Io);
        }
        if !is_admitted(self.phase, command.verb) || self.pending.is_some() || self.next_tag
            >= u64::MAX {
            return Err(Error::State);
        }
        let tag: u64 = self.next_tag;
        let mut parts = command.encode(tag);
        proof {
            lemma_segments_count(
                command@.args,
                Seq::empty(),
                tag_text(tag as nat) + seq![SP] + command@.verb.name(),
            );
        }
        let ghost all = rows_view(parts@);
        let first = parts.remove(0);
        proof {
            assert(rows_view(parts@) =~= all.skip(1));
            assert(first@ == all[0]);
        }
        let _ = self.transport.write(first.as_slice());
        self.next_tag = tag + 1;
        let pending = Pending {
            tag,
            verb: command.verb,
            target: copy_of(target),
            remaining: parts,
            awaiting: matches!(command.verb, Verb::Idle),
            rows: Vec::new(),
        };
        proof {
            assert(data_view(pending.rows@) =~= Seq::<DataView>::empty());
        }
        self.pending = Some(pending);
        Ok(tag)
    }

    /// Applies one response from the server.
    pub fn react(&mut self, response: Response) -> (r: Result<Progress, Error>)
        ensures
            (final(self)@, outcome_view(r)) == reacted(old(self)@, response@),
    {
        if matches!(self.phase, Phase::Closed) || self.transport.is_closed() {
            return Err(Error::Io);
        }
        let pending = self.pending.take();
        match pending {
            None => match response {
                Response::Untagged(_) => Ok(Progress::Working),
                _ => {
                    self.fail();
                    Err(Error::Protocol)
                },
            },
            Some(mut p) => match response {
                Response::Untagged(row) => {
                    let ghost before = p.rows@;
                    p.rows.push(row);
                    proof {
                        assert(data_view(p.rows@) =~= data_view(before).push(row@));
                    }
                    self.pending = Some(p);
                    Ok(Progress::Working)
                },
                Response::Continuation(_) => {
                    if p.remaining.len() > 0 {
                        let ghost before = rows_view(p.remaining@);
                        let next = p.remaining.remove(0);
                        proof {
                            assert(rows_view(p.remaining@) =~= before.skip(1));
                        }
                        let _ = self.transport.write(next.as_slice());
                        self.pending = Some(p);
                        Ok(Progress::Working)
                    } else if p.awaiting {
                        p.awaiting = false;
                        self.pending = Some(p);
                        Ok(Progress::Working)
                    } else {
                        self.fail();
                        Err(Error::Protocol)
                    }
                },
                Response::Tagged { tag, status, text } => {
                    let expected = format_tag(p.tag);
                    if !same_bytes(tag.as_slice(), expected.as_slice()) || p.remaining.len() > 0
                        || p.awaiting {
                        self.fail();
                        return Err(Error::Protocol);
                    }
                    match status {
                        Status::Okay => {
                            let reply = build_reply(
                                p.verb,
                                p.target.as_slice(),
                                p.rows.as_slice(),
                            );
                            match p.verb {
                                Verb::Select => {
                                    self.phase = Phase::Selected;
                                    self.mailbox = Some(
                                        collect_mailbox(p.rows.as_slice(), p.target.as_slice()),
                                    );
                                },
                                Verb::Close => {
                                    self.phase = Phase::Authenticated;
                                    self.mailbox = None;
                                },
                                _ => {},
                            }
                            Ok(Progress::Finished(reply))
                        },
                        Status::No => {
                            self.reject(p.verb);
                            Err(Error::Command(Refusal::No))
                        },
                        Status::Bad => {
                            self.reject(p.verb);
                            Err(Error::Command(Refusal::Bad))
                        },
                    }
                },
            },
        }
    }

    fn reject(&mut self, verb: Verb)
        ensures
            final(self)@ == rejected(old(self)@, verb),
    {
        if matches!(verb, Verb::Select) && matches!(self.phase, Phase::Selected) {
            self.phase = Phase::Authenticated;
            self.mailbox = None;
        }
    }

    /// Takes the next response from the transport, if a whole one has
    /// arrived, without applying it.
    ///
    /// Fails with `Io` on a closed session. Returns `None`, changing
    /// nothing, while no whole response has arrived. Fails with `Parse`,
    /// closing the session, where the bytes received are not a response.
    pub fn take_response(&mut self) -> (r: Result<Option<Response>, Error>)
        ensures
            (final(self)@, taken_view(r)) == taken(old(self)@),
    {
        if matches!(self.phase, Phase::Closed) || self.transport.is_closed() {
            return Err(Error::Io);
        }
        match parse(self.transport.received()) {
            Err(_) => {
                self.fail();
                Err(Error::Parse)
            },
            Ok(None) => Ok(None),
            Ok(Some((response, length))) => {
                self.transport.skip(length);
                Ok(Some(response))
            },
        }
    }

    /// Writes the line that ends an idle.
    pub(crate) fn write_done(&mut self)
        ensures
            final(self)@ == (if old(self)@.transport.closed {
                old(self)@
            } else {
                SessionView {
                    transport: TransportView {
                        outbox: old(self)@.transport.outbox + done_line(),
                        ..old(self)@.transport
                    },
                    ..old(self)@
                }
            }),
    {
        let _ = self.transport.write("DONE\r\n".as_bytes());
    }

    /// Asks the server what it supports. Legal in every phase of a live
    /// connection.
    pub fn capabilities(&mut self) -> (r: Result<u64, Error>)
        ensures
            (final(self)@, r) == issue_spec(old(self)@, capability_command(), Seq::empty()),
    {
        let command = Command::nullary(Verb::Capability);
        let none: Vec<u8> = Vec::new();
        self.issue(&command, none.as_slice())
    }

    /// Asks for the mailbox names that match the pattern under the
    /// reference. Needs a login.
    pub fn list(&mut self, reference_name: Option<&str>, mailbox_pattern: Option<&str>) -> (r:
        Result<u64, Error>)
        ensures
            (final(self)@, r) == issue_spec(
                old(self)@,
                list_command(bytes_of(reference_name), bytes_of(mailbox_pattern)),
                Seq::empty(),
            ),
    {
        let none: Vec<u8> = Vec::new();
        let reference = match reference_name {
            Some(name) => Arg::string(name.as_bytes()),
            None => Arg::string(none.as_slice()),
        };
        let pattern = match mailbox_pattern {
            Some(pattern) => Arg::text(pattern.as_bytes()),
            None => Arg::string(none.as_slice()),
        };
        let command = Command::binary(Verb::List, reference, pattern);
        proof {
            assert(reference@ == ArgView::of_string(
                match bytes_of(reference_name) {
                    Some(r) => r,
                    None => Seq::empty(),
                },
            ));
            assert(pattern@ == match bytes_of(mailbox_pattern) {
                Some(p) => ArgView::of_text(p),
                None => ArgView::of_string(Seq::empty()),
            });
            assert(command@.args =~= list_command(
                bytes_of(reference_name),
                bytes_of(mailbox_pattern),
            ).args);
        }
        self.issue(&command, none.as_slice())
    }

    /// Creates a mailbox. Needs a login.
    pub fn create(&mut self, mailbox_name: &str) -> (r: Result<u64, Error>)
        ensures
            (final(self)@, r) == issue_spec(
                old(self)@,
                mailbox_command(Verb::Create, mailbox_name.spec_bytes()),
                Seq::empty(),
            ),
    {
        let command = Command::unary(Verb::Create, Arg::string(mailbox_name.as_bytes()));
        let none: Vec<u8> = Vec::new();
        self.issue(&command, none.as_slice())
    }

    /// Subscribes to a mailbox. Needs a login.
    pub fn subscribe(&mut self, mailbox: &str) -> (r: Result<u64, Error>)
        ensures
            (final(self)@, r) == issue_spec(
                old(self)@,
                mailbox_command(Verb::Subscribe, mailbox.spec_bytes()),
                Seq::empty(),
            ),
    {
        let command = Command::unary(Verb::Subscribe, Arg::string(mailbox.as_bytes()));
        let none: Vec<u8> = Vec::new();
        self.issue(&command, none.as_slice())
    }

    /// Closes the selected mailbox. Needs a selected mailbox; once the
    /// server has completed it, none is selected.
    pub fn close(&mut self) -> (r: Result<u64, Error>)
        ensures
            (final(self)@, r) == issue_spec(old(self)@, close_command(), Seq::empty()),
    {
        let command = Command::nullary(Verb::Close);
        let none: Vec<u8> = Vec::new();
        self.issue(&command, none.as_slice())
    }

    /// Selects a mailbox. Needs a login; once the server has completed it,
    /// the mailbox is selected in place of any other.
    pub fn select(&mut self, mailbox_name: &str) -> (r: Result<u64, Error>)
        ensures
            (final(self)@, r) == issue_spec(
                old(self)@,
                mailbox_command(Verb::Select, mailbox_name.spec_bytes()),
                mailbox_name.spec_bytes(),
            ),
    {
        let command = Command::unary(Verb::Select, Arg::string(mailbox_name.as_bytes()));
        self.issue(&command, mailbox_name.as_bytes())
    }

    /// Asks for data of the messages in a sequence set. Needs a selected
    /// mailbox.
    pub fn fetch(&mut self, sequence_set: &str, query: &str) -> (r: Result<u64, Error>)
        ensures
            (final(self)@, r) == issue_spec(
                old(self)@,
                message_command(Verb::Fetch, sequence_set.spec_bytes(), query.spec_bytes()),
                Seq::empty(),
            ),
    {
        let command = Command::binary(
            Verb::Fetch,
            Arg::text(sequence_set.as_bytes()),
            Arg::text(query.as_bytes()),
        );
        let none: Vec<u8> = Vec::new();
        self.issue(&command, none.as_slice())
    }

    /// Asks for data of the messages in a set of unique identifiers. Needs
    /// a selected mailbox.
    pub fn uid_fetch(&mut self, uid_set: &str, query: &str) -> (r: Result<u64, Error>)
        ensures
            (final(self)@, r) == issue_spec(
                old(self)@,
                message_command(Verb::UidFetch, uid_set.spec_bytes(), query.spec_bytes()),
                Seq::empty(),
            ),
    {
        let command = Command::binary(
            Verb::UidFetch,
            Arg::text(uid_set.as_bytes()),
            Arg::text(query.as_bytes()),
        );
        let none: Vec<u8> = Vec::new();
        self.issue(&command, none.as_slice())
    }

    /// Takes the session out of the ordinary command cycle, to idle. The
    /// session comes back from the handle's `done`.
    pub fn idle(self) -> (h: IdleHandle)
        ensures
            h@ == (IdleView { session: self@, state: IdleState::Fresh }),
    {
        IdleHandle::new(self)
    }

    /// Changes data of the messages in a set of unique identifiers. Needs
    /// a selected mailbox.
    pub fn uid_store(&mut self, uid_set: &str, query: &str) -> (r: Result<u64, Error>)
        ensures
            (final(self)@, r) == issue_spec(
                old(self)@,
                message_command(Verb::UidStore, uid_set.spec_bytes(), query.spec_bytes()),
                Seq::empty(),
            ),
    {
        let command = Command::binary(
            Verb::UidStore,
            Arg::text(uid_set.as_bytes()),
            Arg::text(query.as_bytes()),
        );
        let none: Vec<u8> = Vec::new();
        self.issue(&command, none.as_slice())
    }

    /// Moves the messages in a set of unique identifiers to a mailbox.
    /// Needs a selected mailbox.
    pub fn uid_mv(&mut self, uid_set: &str, mailbox_name: &str) -> (r: Result<u64, Error>)
        ensures
            (final(self)@, r) == issue_spec(
                old(self)@,
                transfer_command(Verb::UidMove, uid_set.spec_bytes(), mailbox_name.spec_bytes()),
                Seq::empty(),
            ),
    {
        let command = Command::binary(
            Verb::UidMove,
            Arg::text(uid_set.as_bytes()),
            Arg::string(mailbox_name.as_bytes()),
        );
        let none: Vec<u8> = Vec::new();
        self.issue(&command, none.as_slice())
    }

    /// Copies the messages in a set of unique identifiers to a mailbox.
    /// Needs a selected mailbox.
    pub fn uid_copy(&mut self, uid_set: &str, mailbox_name: &str) -> (r: Result<u64, Error>)
        ensures
            (final(self)@, r) == issue_spec(
                old(self)@,
                transfer_command(Verb::UidCopy, uid_set.spec_bytes(), mailbox_name.spec_bytes()),
                Seq::empty(),
            ),
    {
        let command = Command::binary(
            Verb::UidCopy,
            Arg::text(uid_set.as_bytes()),
            Arg::string(mailbox_name.as_bytes()),
        );
        let none: Vec<u8> = Vec::new();
        self.issue(&command, none.as_slice())
    }

    /// Takes the next response from the transport, if a whole one has
    /// arrived, and applies it.
    ///
    /// Fails with `Io` on a closed session. Returns `Waiting`, changing
    /// nothing, while no whole response has arrived. Fails with `Parse`,
    /// closing the session, where the bytes received are not a response.
    pub fn poll(&mut self) -> (r: Result<Progress, Error>)
        ensures
            (final(self)@, outcome_view(r)) == polled(old(self)@),
    {
        if matches!(self.phase, Phase::Closed) || self.transport.is_closed() {
            return Err(Error::Io);
        }
        match parse(self.transport.received()) {
            Err(_) => {
                self.fail();
                Err(Error::Parse)
            },
            Ok(None) => Ok(Progress::Waiting),
            Ok(Some((response, length))) => {
                self.transport.skip(length);
                self.react(response)
            },
        }
    }

    /// Runs the open command as far as the bytes received allow.
    ///
    /// Returns what the command returns once the server has completed it,
    /// and `None` while its tagged status has not arrived: drain, feed, and
    /// call again. Fails as `poll` does, and with `Command` where the
    /// server refused the command.
    pub fn complete(&mut self) -> (r: Result<Option<Reply>, Error>)
        ensures
            (final(self)@, completion_view(r)) == completed(old(self)@),
    {
        loop
            invariant
                completed(self@) == completed(old(self)@),
            decreases self@.transport.inbox.len(),
        {
            proof {
                lemma_working_consumes(self@);
            }
            match self.poll() {
                Ok(Progress::Working) => {},
                Ok(Progress::Waiting) => {
                    return Ok(None);
                },
                Ok(Progress::Finished(reply)) => {
                    return Ok(Some(reply));
                },
                Err(e) => {
                    return Err(e);
                },
            }
        }
    }
}

} // verus!
