//! The ways an operation can fail.

use vstd::prelude::*;

verus! {

/// Why the server refused a command.
#[derive(Clone, Copy, Debug, PartialEq, Eq, Structural)]
pub enum Refusal {
    /// The server answered `NO`: the command was understood and failed.
    No,
    /// The server answered `BAD`: the command was not acceptable.
    Bad,
}

/// Why an operation failed.
///
/// `Io`, `Parse` and `Protocol` leave the connection unusable. `State` and
/// `Command` are ordinary results: the connection stays usable.
#[derive(Clone, Copy, Debug, PartialEq, Eq, Structural)]
pub enum Error {
    /// The transport is closed.
    Io,
    /// The server sent bytes that are not a well-formed response.
    Parse,
    /// A well-formed response arrived where the protocol does not allow it.
    Protocol,
    /// The command is not legal in the session's present phase. Nothing was
    /// sent.
    State,
    /// The server completed the command with `NO` or `BAD`.
    Command(Refusal),
}

impl Error {
    /// Whether the connection is unusable after this error.
    pub open spec fn is_fatal(self) -> bool {
        self is Io || self is Parse || self is Protocol
    }

    /// Whether the connection is unusable after this error.
    pub fn fatal(self) -> (r: bool)
        ensures
            r == self.is_fatal(),
    {
        match self {
            Error::Io => true,
            Error::Parse => true,
            Error::Protocol => true,
            Error::State => false,
            Error::Command(_) => false,
        }
    }
}

} // verus!
