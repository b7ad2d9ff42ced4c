//! The byte stream between client and server, held in memory.
//!
//! Whoever owns the socket feeds what it received into the transport and
//! drains what the engine wrote. Encrypted or plain makes no difference
//! here: both are an ordered, reliable stream of bytes.

use vstd::prelude::*;
use crate::error::Error;
use crate::frame::{line_at, find_line};
use crate::text::{push_bytes, copy_range};

verus! {

/// What a transport holds.
pub struct TransportView {
    /// Bytes received from the server and not yet read.
    pub inbox: Seq<u8>,
    /// Bytes written by the client and not yet drained.
    pub outbox: Seq<u8>,
    /// Whether the transport has been closed.
    pub closed: bool,
}

/// An in-memory duplex byte stream.
pub struct Transport {
    inbox: Vec<u8>,
    outbox: Vec<u8>,
    closed: bool,
}

impl View for Transport {
    type V = TransportView;

    closed spec fn view(&self) -> TransportView {
        TransportView { inbox: self.inbox@, outbox: self.outbox@, closed: self.closed }
    }
}

impl Transport {
    /// An open transport with nothing received and nothing written.
    pub fn new() -> (t: Transport)
        ensures
            t@ == (TransportView { inbox: Seq::empty(), outbox: Seq::empty(), closed: false }),
    {
        Transport { inbox: Vec::new(), outbox: Vec::new(), closed: false }
    }

    /// Whether the transport has been closed.
    pub fn is_closed(&self) -> (r: bool)
        ensures
            r == self@.closed,
    {
        self.closed
    }

    /// The bytes received and not yet read.
    pub fn received(&self) -> (r: &[u8])
        ensures
            r@ == self@.inbox,
    {
        self.inbox.as_slice()
    }

    /// The bytes written and not yet drained.
    pub fn written(&self) -> (r: &[u8])
        ensures
            r@ == self@.outbox,
    {
        self.outbox.as_slice()
    }

    /// Hands the transport bytes that arrived from the server. A closed
    /// transport drops them.
    pub fn feed(&mut self, bytes: &[u8])
        ensures
            final(self)@ == (if old(self)@.closed {
                old(self)@
            } else {
                TransportView { inbox: old(self)@.inbox + bytes@, ..old(self)@ }
            }),
    {
        if !self.closed {
            push_bytes(&mut self.inbox, bytes);
        }
    }

    /// Takes the bytes written since the last drain, to be sent to the
    /// server.
    pub fn drain(&mut self) -> (r: Vec<u8>)
        ensures
            r@ == old(self)@.outbox,
            final(self)@ == (TransportView { outbox: Seq::empty(), ..old(self)@ }),
    {
        let mut out: Vec<u8> = Vec::new();
        core::mem::swap(&mut out, &mut self.outbox);
        out
    }

    /// Writes `bytes` to the stream. Fails with `Io`, writing nothing, where
    /// the transport is closed.
    pub fn write(&mut self, bytes: &[u8]) -> (r: Result<(), Error>)
        ensures
            r == (if old(self)@.closed {
                Err::<(), Error>(Error::Io)
            } else {
                Ok::<(), Error>(())
            }),
            final(self)@ == (if old(self)@.closed {
                old(self)@
            } else {
                TransportView { outbox: old(self)@.outbox + bytes@, ..old(self)@ }
            }),
    {
        if self.closed {
            return Err(Error::Io);
        }
        push_bytes(&mut self.outbox, bytes);
        Ok(())
    }

    /// Drops the first `n` received bytes.
    pub fn skip(&mut self, n: usize)
        requires
            n <= old(self)@.inbox.len(),
        ensures
            final(self)@ == (TransportView {
                inbox: old(self)@.inbox.skip(n as int),
                ..old(self)@
            }),
    {
        let mut rest: Vec<u8> = self.inbox.split_off(n);
        core::mem::swap(&mut rest, &mut self.inbox);
    }

    /// Reads one line, without its terminator.
    ///
    /// Fails with `Io` on a closed transport and with `Parse` where the
    /// next line feed does not follow a carriage return; neither consumes
    /// anything. Returns `None`, consuming nothing, while no whole line has
    /// arrived.
    pub fn read_line(&mut self) -> (r: Result<Option<Vec<u8>>, Error>)
        ensures
            old(self)@.closed ==> r == Err::<Option<Vec<u8>>, Error>(Error::Io) && final(self)@
                == old(self)@,
            !old(self)@.closed ==> match line_at(old(self)@.inbox, 0) {
                Ok(Some((end, next))) => r matches Ok(Some(line)) && line@ == old(
                    self,
                )@.inbox.subrange(0, end) && final(self)@ == (TransportView {
                    inbox: old(self)@.inbox.skip(next),
                    ..old(self)@
                }),
                Ok(None) => r == Ok::<Option<Vec<u8>>, Error>(None) && final(self)@ == old(self)@,
                Err(e) => r == Err::<Option<Vec<u8>>, Error>(e) && final(self)@ == old(self)@,
            },
    {
        if self.closed {
            return Err(Error::Io);
        }
        match find_line(self.inbox.as_slice(), 0) {
            Ok(Some((end, next))) => {
                let line = copy_range(self.inbox.as_slice(), 0, end);
                self.skip(next);
                Ok(Some(line))
            },
            Ok(None) => Ok(None),
            Err(e) => Err(e),
        }
    }

    /// Reads exactly `n` bytes, whatever they hold.
    ///
    /// Fails with `Io`, consuming nothing, on a closed transport. Returns
    /// `None`, consuming nothing, while fewer than `n` bytes have arrived.
    pub fn read_exact(&mut self, n: usize) -> (r: Result<Option<Vec<u8>>, Error>)
        ensures
            old(self)@.closed ==> r == Err::<Option<Vec<u8>>, Error>(Error::Io) && final(self)@
                == old(self)@,
            !old(self)@.closed && old(self)@.inbox.len() < n ==> r == Ok::<
                Option<Vec<u8>>,
                Error,
            >(None) && final(self)@ == old(self)@,
            !old(self)@.closed && old(self)@.inbox.len() >= n ==> (r matches Ok(Some(bytes))
                && bytes@ == old(self)@.inbox.take(n as int) && final(self)@ == (TransportView {
                inbox: old(self)@.inbox.skip(n as int),
                ..old(self)@
            })),
    {
        if self.closed {
            return Err(Error::Io);
        }
        if self.inbox.len() < n {
            return Ok(None);
        }
        let bytes = copy_range(self.inbox.as_slice(), 0, n);
        self.skip(n);
        Ok(Some(bytes))
    }

    /// Closes the transport. Closing twice is closing once.
    pub fn close(&mut self)
        ensures
            final(self)@ == (TransportView { closed: true, ..old(self)@ }),
    {
        self.closed = true;
    }
}

} // verus!
