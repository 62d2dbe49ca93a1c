//! The reader of one connection: it turns what the connection yields into
//! events for the registry.
//!
//! The caller owns the blocking read and the channel. It reads up to
//! [`CHUNK_SIZE`] bytes, hands the outcome to [`Reader::on_read`], sends the
//! event that comes back, if any, and goes on for as long as
//! [`Reader::is_open`] says so.

use vstd::prelude::*;
use vstd::utf8::{decode_utf8, encode_utf8, valid_utf8};
use crate::event::{Event, Identity};

verus! {

/// The most bytes one read asks for.
pub const CHUNK_SIZE: usize = 64;

/// What one read on a connection yielded.
#[derive(Debug, PartialEq, Eq)]
pub enum ReadOutcome {
    /// The bytes of this read, all of them and no others. None at all means
    /// the peer closed the connection.
    Chunk(Vec<u8>),
    /// The read failed.
    Failed,
}

impl ReadOutcome {
    /// Whether the outcome ends the connection: a failed read, or a read of
    /// no bytes.
    pub open spec fn ends_connection(self) -> bool {
        match self {
            ReadOutcome::Chunk(bytes) => bytes@.len() == 0,
            ReadOutcome::Failed => true,
        }
    }
}

/// The mathematical content of a [`Reader`].
pub ghost struct ReaderView {
    /// The connection the reader reads.
    pub identity: Identity,
    /// Whether the reader goes on reading.
    pub open: bool,
}

/// The state of the reader of one connection.
#[derive(Debug)]
pub struct Reader {
    identity: Identity,
    open: bool,
}

impl View for Reader {
    type V = ReaderView;

    closed spec fn view(&self) -> ReaderView {
        ReaderView { identity: self.identity, open: self.open }
    }
}

/// `String::from_utf8`, with its error dropped. The standard library
/// documents that it succeeds exactly on well-formed UTF-8 and that the
/// string is then made of the very bytes it was given.
#[verifier::external_body]
fn text_of(bytes: Vec<u8>) -> (text: Option<String>)
    ensures
        text is Some <==> valid_utf8(bytes@),
        text matches Some(t) ==> encode_utf8(t@) == bytes@,
{
    match String::from_utf8(bytes) {
        Ok(text) => Some(text),
        Err(_) => None,
    }
}

impl Reader {
    /// Opens the reader of the connection `identity` and gives the event
    /// that announces the connection, with `handle` as the place the
    /// registry will write to.
    pub fn start<H>(identity: Identity, handle: H) -> (started: (Reader, Event<H>))
        ensures
            started.0@ == (ReaderView { identity, open: true }),
            started.1 == Event::Connected(identity, handle),
    {
        (Reader { identity, open: true }, Event::Connected(identity, handle))
    }

    /// The connection this reader reads.
    pub fn identity(&self) -> (identity: Identity)
        ensures
            identity == self@.identity,
    {
        self.identity
    }

    /// Whether the reader goes on: `true` until the connection ended or the
    /// channel to the registry was found closed.
    pub fn is_open(&self) -> (open: bool)
        ensures
            open == self@.open,
    {
        self.open
    }

    /// Takes the outcome of one read and gives the event to send, if any.
    ///
    /// - A failed read or a read of no bytes ends the connection: the event
    ///   is `Disconnected` and the reader closes.
    /// - A chunk that is well-formed UTF-8 becomes one `Message` with
    ///   exactly that text, and the reader stays open.
    /// - Any other chunk is dropped: no event, and the reader stays open
    ///   for the next read.
    ///
    /// A closed reader has nothing more to say.
    pub fn on_read<H>(&mut self, outcome: ReadOutcome) -> (emitted: Option<Event<H>>)
        ensures
            final(self)@.identity == old(self)@.identity,
            !old(self)@.open ==> emitted is None && !final(self)@.open,
            old(self)@.open && outcome.ends_connection() ==> {
                &&& emitted == Some(Event::<H>::Disconnected(old(self)@.identity))
                &&& !final(self)@.open
            },
            old(self)@.open && !outcome.ends_connection() ==> final(self)@.open,
            old(self)@.open ==> match outcome {
                ReadOutcome::Chunk(bytes) if bytes@.len() > 0 && valid_utf8(bytes@) => {
                    &&& emitted matches Some(Event::Message(sender, text))
                    &&& sender == old(self)@.identity
                    &&& text@ == decode_utf8(bytes@)
                    &&& encode_utf8(text@) == bytes@
                },
                ReadOutcome::Chunk(bytes) if bytes@.len() > 0 => emitted is None,
                _ => true,
            },
    {
        if !self.open {
            return None;
        }
        match outcome {
            ReadOutcome::Failed => {
                self.open = false;
                Some(Event::Disconnected(self.identity))
            },
            ReadOutcome::Chunk(bytes) => {
                if bytes.len() == 0 {
                    self.open = false;
                    Some(Event::Disconnected(self.identity))
                } else {
                    match text_of(bytes) {
                        Some(text) => {
                            proof {
                                vstd::utf8::encode_utf8_decode_utf8(text@);
                            }
                            Some(Event::Message(self.identity, text))
                        },
                        None => None,
                    }
                }
            },
        }
    }

    /// Tells the reader that the channel to the registry did not take an
    /// event. The registry is gone, so the reader closes.
    pub fn on_send_failure(&mut self)
        ensures
            final(self)@ == (ReaderView { open: false, ..old(self)@ }),
    {
        self.open = false;
    }
}

} // verus!
