//! A sans-I/O IMAP4rev1 client engine.
//!
//! The engine never touches a socket. Bytes received from the server are
//! fed into a [`session::Session`], bytes the engine wants sent are
//! drained from it, and every protocol decision in between is verified.
//!
//! An operation such as [`session::Session::select`] checks the phase,
//! allocates a tag and writes the command. [`session::Session::complete`]
//! then applies the responses that have arrived until the command's tagged
//! status is among them, and returns the operation's typed result.
//! [`session::Session::idle`] hands the session to an
//! [`idle::IdleHandle`], which gives it back when the idle is done.
//!
//! The modules, leaves first: [`text`] and [`frame`] cut bytes into
//! numbers, lines and literals; [`transport`] holds the two directions of
//! the byte stream; [`command`] encodes commands; [`lex`], [`response`] and
//! [`parse`] read responses; [`reply`] and [`fetch`] build and read typed
//! results; [`session`] and [`idle`] hold the protocol state; [`laws`]
//! and [`round_trip`] state what holds of them together.

pub mod command;
pub mod error;
pub mod fetch;
pub mod frame;
pub mod idle;
pub mod laws;
pub mod lex;
pub mod parse;
pub mod reply;
pub mod response;
pub mod round_trip;
pub mod session;
pub mod text;
pub mod transport;
