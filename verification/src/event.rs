//! The vocabulary shared by readers and the registry.

use vstd::prelude::*;

verus! {

/// What tells one peer from another. It is a table key and nothing else: the
/// relay never looks inside it.
pub type Identity = u64;

/// The identity that stands for the peer at an IPv4 address and port: the
/// address, read as one number, followed by the sixteen bits of the port.
pub open spec fn ipv4_identity(address: u32, port: u16) -> Identity {
    (address * 0x1_0000 + port) as Identity
}

/// The identity of the peer at `address` and `port`.
pub fn identity_of_ipv4(address: u32, port: u16) -> (identity: Identity)
    ensures
        identity == ipv4_identity(address, port),
{
    address as u64 * 0x1_0000 + port as u64
}

/// Two peers share an identity only if they share address and port.
pub proof fn lemma_ipv4_identity_is_injective(a: u32, p: u16, b: u32, q: u16)
    requires
        ipv4_identity(a, p) == ipv4_identity(b, q),
    ensures
        a == b,
        p == q,
{
}

/// One row of the connection table: a peer and the handle the registry writes
/// to when it relays to that peer.
#[derive(Debug, PartialEq, Eq)]
pub struct ConnectionEntry<H> {
    /// The peer this row belongs to.
    pub identity: Identity,
    /// Where the registry writes what is meant for the peer.
    pub handle: H,
}

/// What a reader tells the registry about its connection.
#[derive(Debug, PartialEq, Eq)]
pub enum Event<H> {
    /// The connection was accepted; `handle` is where to write to it.
    Connected(Identity, H),
    /// The connection is gone.
    Disconnected(Identity),
    /// The peer sent this text.
    Message(Identity, String),
}

impl<H> Event<H> {
    /// The connection the event is about.
    pub open spec fn subject(self) -> Identity {
        match self {
            Event::Connected(identity, _) => identity,
            Event::Disconnected(identity) => identity,
            Event::Message(identity, _) => identity,
        }
    }

    /// The connection the event is about.
    pub fn identity(&self) -> (identity: Identity)
        ensures
            identity == self.subject(),
    {
        match self {
            Event::Connected(identity, _) => *identity,
            Event::Disconnected(identity) => *identity,
            Event::Message(identity, _) => *identity,
        }
    }
}

} // verus!
