//! The registry: sole owner of the table of live connections.

use std::collections::HashMap;
use vstd::prelude::*;
use vstd::std_specs::iter::IteratorSpec;
use crate::broadcast::{Broadcast, BroadcastView};
use crate::event::{ConnectionEntry, Event, Identity};

verus! {

broadcast use vstd::std_specs::hash::group_hash_axioms;

/// The table of live connections, keyed by identity.
///
/// Its view is the map from each registered identity to the handle that the
/// registry writes to for that peer.
pub struct Registry<H> {
    table: HashMap<Identity, ConnectionEntry<H>>,
}

impl<H> View for Registry<H> {
    type V = Map<Identity, H>;

    closed spec fn view(&self) -> Map<Identity, H> {
        Map::new(
            |identity: Identity| self.table@.contains_key(identity),
            |identity: Identity| self.table@[identity].handle,
        )
    }
}

/// Who a message from `sender` goes to, given the table: everyone registered
/// but `sender`.
pub open spec fn audience<H>(table: Map<Identity, H>, sender: Identity) -> Set<Identity> {
    table.dom().remove(sender)
}

/// The table after `event`: a connection is entered, replacing whatever was
/// filed under its identity; a disconnection takes its identity out, if it
/// was in; a message changes nothing.
pub open spec fn step<H>(table: Map<Identity, H>, event: Event<H>) -> Map<Identity, H> {
    match event {
        Event::Connected(identity, handle) => table.insert(identity, handle),
        Event::Disconnected(identity) => table.remove(identity),
        Event::Message(_, _) => table,
    }
}

/// Whether `identity` is among the first `n` of `keys`.
spec fn walked(keys: Seq<&Identity>, n: int, identity: Identity) -> bool {
    exists|i: int| 0 <= i < n && *keys[i] == identity
}

/// Whether `list` holds what a walk over the first `n` of `keys` collects
/// when it keeps every key but `sender`.
spec fn collected(keys: Seq<&Identity>, n: int, sender: Identity, list: Seq<Identity>) -> bool {
    &&& forall|j: int|
        0 <= j < list.len() ==> list[j] != sender && walked(keys, n, #[trigger] list[j])
    &&& forall|i: int| 0 <= i < n && *#[trigger] keys[i] != sender ==> list.contains(*keys[i])
}

/// Keeping the next key, or passing over it where it is `sender`, carries
/// the walk one key further.
proof fn lemma_walk_advances(
    keys: Seq<&Identity>,
    n: int,
    sender: Identity,
    before: Seq<Identity>,
    after: Seq<Identity>,
)
    requires
        0 <= n < keys.len(),
        collected(keys, n, sender, before),
        after == if *keys[n] != sender {
            before.push(*keys[n])
        } else {
            before
        },
    ensures
        collected(keys, n + 1, sender, after),
{
    assert forall|j: int| 0 <= j < after.len() implies after[j] != sender && walked(
        keys,
        n + 1,
        #[trigger] after[j],
    ) by {
        if j < before.len() {
            assert(walked(keys, n, before[j]));
            let i = choose|i: int| 0 <= i < n && *keys[i] == before[j];
            assert(0 <= i < n + 1 && *keys[i] == after[j]);
        } else {
            assert(*keys[n] == after[j]);
        }
    }
    assert forall|i: int| 0 <= i < n + 1 && *#[trigger] keys[i] != sender implies after.contains(
        *keys[i],
    ) by {
        if i < n {
            let j = choose|j: int| 0 <= j < before.len() && before[j] == *keys[i];
            assert(after[j] == *keys[i]);
        } else {
            assert(after[before.len() as int] == *keys[i]);
        }
    }
}

/// What a walk over all the keys of a table collects is the audience of
/// `sender`.
proof fn lemma_walk_collects_audience(
    keys: Seq<&Identity>,
    sender: Identity,
    list: Seq<Identity>,
)
    requires
        collected(keys, keys.len() as int, sender, list),
    ensures
        list.to_set() == keys.unref().to_set().remove(sender),
{
    let all = keys.unref().to_set();
    assert forall|identity: Identity| all.remove(sender).contains(identity) implies list.contains(
        identity,
    ) by {
        let i = choose|i: int| 0 <= i < keys.unref().len() && keys.unref()[i] == identity;
        assert(*keys[i] == identity);
    }
    assert forall|identity: Identity| list.contains(identity) implies all.remove(sender).contains(
        identity,
    ) by {
        let j = choose|j: int| 0 <= j < list.len() && list[j] == identity;
        assert(walked(keys, keys.len() as int, list[j]));
        let i = choose|i: int| 0 <= i < keys.len() && *keys[i] == list[j];
        assert(keys.unref()[i] == identity);
    }
    assert(list.to_set() =~= all.remove(sender));
}

impl<H> Registry<H> {
    /// Every row is filed under the identity it carries.
    #[verifier::type_invariant]
    spec fn filed_by_identity(self) -> bool {
        forall|identity: Identity| #[trigger]
            self.table@.contains_key(identity) ==> self.table@[identity].identity == identity
    }

    /// A registry with no connection in it.
    pub fn new() -> (registry: Self)
        ensures
            registry@ == Map::<Identity, H>::empty(),
    {
        let registry = Registry { table: HashMap::new() };
        assert(registry@ =~= Map::<Identity, H>::empty());
        registry
    }

    /// The table holds finitely many connections.
    pub proof fn lemma_finite(&self)
        ensures
            self@.dom().finite(),
    {
        assert(self@.dom() =~= self.table@.dom());
    }

    /// How many connections are registered.
    pub fn len(&self) -> (n: usize)
        ensures
            n == self@.len(),
    {
        assert(self@.dom() =~= self.table@.dom());
        self.table.len()
    }

    /// Whether no connection is registered.
    pub fn is_empty(&self) -> (empty: bool)
        ensures
            empty == (self@.len() == 0),
    {
        self.len() == 0
    }

    /// Whether `identity` is registered.
    pub fn contains(&self, identity: Identity) -> (found: bool)
        ensures
            found == self@.contains_key(identity),
    {
        self.table.contains_key(&identity)
    }

    /// The row of `identity`, if it is registered.
    pub fn get(&self, identity: Identity) -> (row: Option<&ConnectionEntry<H>>)
        ensures
            row is Some == self@.contains_key(identity),
            row matches Some(entry) ==> entry.identity == identity && entry.handle
                == self@[identity],
    {
        proof {
            use_type_invariant(self);
        }
        self.table.get(&identity)
    }

    /// Registers `identity` with `handle`. A row already filed under
    /// `identity` is replaced: the last connection wins.
    pub fn connect(&mut self, identity: Identity, handle: H)
        ensures
            final(self)@ == old(self)@.insert(identity, handle),
    {
        proof {
            use_type_invariant(&*self);
        }
        // The table is taken out while it changes and put back whole.
        let mut table = HashMap::new();
        std::mem::swap(&mut self.table, &mut table);
        table.insert(identity, ConnectionEntry { identity, handle });
        self.table = table;
        assert(self@ =~= old(self)@.insert(identity, handle));
    }

    /// Removes `identity`. Removing an identity that is not registered
    /// changes nothing.
    pub fn disconnect(&mut self, identity: Identity)
        ensures
            final(self)@ == old(self)@.remove(identity),
            !old(self)@.contains_key(identity) ==> final(self)@ == old(self)@,
    {
        proof {
            use_type_invariant(&*self);
        }
        // The table is taken out while it changes and put back whole.
        let mut table = HashMap::new();
        std::mem::swap(&mut self.table, &mut table);
        table.remove(&identity);
        self.table = table;
        assert(self@ =~= old(self)@.remove(identity));
        assert(!old(self)@.contains_key(identity) ==> old(self)@.remove(identity) =~= old(self)@);
    }

    /// The identities a message from `sender` is relayed to: every registered
    /// identity but `sender`, each once. The order is that in which the table
    /// is walked, which no two runs need share.
    pub fn recipients(&self, sender: Identity) -> (list: Vec<Identity>)
        ensures
            list@.no_duplicates(),
            list@.to_set() == audience(self@, sender),
            list@.len() == self@.len() - if self@.contains_key(sender) {
                1nat
            } else {
                0nat
            },
    {
        let mut list: Vec<Identity> = Vec::new();
        let ghost keys = self.table.keys().remaining();
        for key in it: self.table.keys()
            invariant
                it.seq() == keys,
                keys.no_duplicates(),
                list@.no_duplicates(),
                collected(keys, it.index(), sender, list@),
        {
            let ghost before = list@;
            if *key != sender {
                assert(!before.contains(*key)) by {
                    if before.contains(*key) {
                        let j = choose|j: int| 0 <= j < before.len() && before[j] == *key;
                        assert(walked(keys, it.index(), before[j]));
                    }
                }
                list.push(*key);
            }
            proof {
                lemma_walk_advances(keys, it.index(), sender, before, list@);
            }
        }
        proof {
            lemma_walk_collects_audience(keys, sender, list@);
            assert(self@.dom() =~= self.table@.dom());
            list@.unique_seq_to_set();
        }
        list
    }

    /// Takes one event, in the order the channel delivered it. The table
    /// becomes `step` of what it was: a disconnection of an identity that is
    /// not registered leaves it as it is. A message also starts a broadcast
    /// of its text, not yet written to anyone, to everyone then registered
    /// but the sender, each once; the other events start none.
    pub fn apply(&mut self, event: Event<H>) -> (relay: Option<Broadcast>)
        ensures
            final(self)@ == step(old(self)@, event),
            event matches Event::Disconnected(identity) && !old(self)@.contains_key(identity)
                ==> final(self)@ == old(self)@,
            match event {
                Event::Message(sender, text) => {
                    &&& relay matches Some(broadcast)
                    &&& broadcast@ == BroadcastView::fresh(text@, broadcast@.recipients)
                    &&& broadcast@.recipients.no_duplicates()
                    &&& broadcast@.recipients.to_set() == audience(old(self)@, sender)
                    &&& broadcast@.recipients.len() == old(self)@.len() - if old(
                        self,
                    )@.contains_key(sender) {
                        1nat
                    } else {
                        0nat
                    }
                },
                _ => relay is None,
            },
    {
        match event {
            Event::Connected(identity, handle) => {
                self.connect(identity, handle);
                None
            },
            Event::Disconnected(identity) => {
                self.disconnect(identity);
                None
            },
            Event::Message(sender, text) => {
                let recipients = self.recipients(sender);
                Some(Broadcast::new(text, recipients))
            },
        }
    }

}

} // verus!
