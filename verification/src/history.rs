//! What a whole run of events leaves in the table.
//!
//! The registry takes events one at a time; these functions and proofs speak
//! of the sequence. All of them are ghost code.

use vstd::prelude::*;
use crate::event::{Event, Identity};
use crate::registry::{audience, step};

verus! {

/// The table after `events`, taken in order by a registry that started
/// empty.
pub open spec fn replay<H>(events: Seq<Event<H>>) -> Map<Identity, H>
    decreases events.len(),
{
    if events.len() == 0 {
        Map::empty()
    } else {
        step(replay(events.drop_last()), events.last())
    }
}

/// Whether `event` says that `identity` connected.
pub open spec fn connects<H>(event: Event<H>, identity: Identity) -> bool {
    event matches Event::Connected(who, _) && who == identity
}

/// Whether `event` says that `identity` disconnected.
pub open spec fn disconnects<H>(event: Event<H>, identity: Identity) -> bool {
    event matches Event::Disconnected(who) && who == identity
}

/// How many events of `events` say that `identity` connected.
pub open spec fn connected_count<H>(events: Seq<Event<H>>, identity: Identity) -> nat
    decreases events.len(),
{
    if events.len() == 0 {
        0
    } else {
        connected_count(events.drop_last(), identity) + if connects(events.last(), identity) {
            1nat
        } else {
            0nat
        }
    }
}

/// How many events of `events` say that `identity` disconnected.
pub open spec fn disconnected_count<H>(events: Seq<Event<H>>, identity: Identity) -> nat
    decreases events.len(),
{
    if events.len() == 0 {
        0
    } else {
        disconnected_count(events.drop_last(), identity) + if disconnects(
            events.last(),
            identity,
        ) {
            1nat
        } else {
            0nat
        }
    }
}

/// How many times `identity` connected while it was already registered, so
/// that the new row took the place of an old one.
pub open spec fn overwrite_count<H>(events: Seq<Event<H>>, identity: Identity) -> nat
    decreases events.len(),
{
    if events.len() == 0 {
        0
    } else {
        overwrite_count(events.drop_last(), identity) + if connects(events.last(), identity)
            && replay(events.drop_last()).contains_key(identity) {
            1nat
        } else {
            0nat
        }
    }
}

/// How many times `identity` disconnected while it was not registered, so
/// that nothing was removed.
pub open spec fn stray_disconnect_count<H>(events: Seq<Event<H>>, identity: Identity) -> nat
    decreases events.len(),
{
    if events.len() == 0 {
        0
    } else {
        stray_disconnect_count(events.drop_last(), identity) + if disconnects(
            events.last(),
            identity,
        ) && !replay(events.drop_last()).contains_key(identity) {
            1nat
        } else {
            0nat
        }
    }
}

/// The last event of `events` that says `identity` connected or
/// disconnected, if there is one.
pub open spec fn last_word<H>(events: Seq<Event<H>>, identity: Identity) -> Option<Event<H>>
    decreases events.len(),
{
    if events.len() == 0 {
        None
    } else if connects(events.last(), identity) || disconnects(events.last(), identity) {
        Some(events.last())
    } else {
        last_word(events.drop_last(), identity)
    }
}

/// The table is always finite.
pub proof fn lemma_replay_is_finite<H>(events: Seq<Event<H>>)
    ensures
        replay(events).dom().finite(),
    decreases events.len(),
{
    if events.len() > 0 {
        lemma_replay_is_finite(events.drop_last());
    }
}

/// The last word decides: after any events, an identity is registered
/// exactly if the last event that connected or disconnected it was a
/// connection, and it is then bound to the handle of that connection.
pub proof fn lemma_last_word_decides<H>(events: Seq<Event<H>>, identity: Identity)
    ensures
        match last_word(events, identity) {
            Some(Event::Connected(_, handle)) => replay(events).contains_key(identity) && replay(
                events,
            )[identity] == handle,
            _ => !replay(events).contains_key(identity),
        },
    decreases events.len(),
{
    if events.len() > 0 {
        lemma_last_word_decides(events.drop_last(), identity);
    }
}

/// Connections less disconnections, counted for one identity over any
/// events, is one if the identity is registered at the end and zero if it is
/// not, once the connections that overwrote a row are left out and the
/// disconnections that removed nothing are put back.
pub proof fn lemma_net_count<H>(events: Seq<Event<H>>, identity: Identity)
    ensures
        connected_count(events, identity) - disconnected_count(events, identity) == (if replay(
            events,
        ).contains_key(identity) {
            1int
        } else {
            0int
        }) + overwrite_count(events, identity) - stray_disconnect_count(events, identity),
    decreases events.len(),
{
    if events.len() > 0 {
        lemma_net_count(events.drop_last(), identity);
    }
}

/// Whether counting tells the truth about `identity` after `events`: a
/// registered identity has not had more disconnections that removed nothing
/// than connections that overwrote a row, and an identity that is not
/// registered has not had more of the second than of the first. It holds
/// wherever neither ever happened to the identity.
pub open spec fn count_is_faithful<H>(events: Seq<Event<H>>, identity: Identity) -> bool {
    if replay(events).contains_key(identity) {
        stray_disconnect_count(events, identity) <= overwrite_count(events, identity)
    } else {
        overwrite_count(events, identity) <= stray_disconnect_count(events, identity)
    }
}

/// An identity is registered exactly if it connected more often than it
/// disconnected, wherever overwriting connections and disconnections that
/// removed nothing do not tip the count; and only there.
pub proof fn lemma_registered_iff_net_positive<H>(events: Seq<Event<H>>, identity: Identity)
    ensures
        count_is_faithful(events, identity) <==> (replay(events).contains_key(identity)
            <==> connected_count(events, identity) > disconnected_count(events, identity)),
{
    lemma_net_count(events, identity);
}

/// Where the count is faithful for every identity, the keys of the table
/// are the identities that connected more often than they disconnected.
pub proof fn lemma_keys_are_net_positive<H>(events: Seq<Event<H>>)
    requires
        forall|identity: Identity| count_is_faithful(events, identity),
    ensures
        replay(events).dom() == Set::new(
            |identity: Identity|
                connected_count(events, identity) > disconnected_count(events, identity),
        ),
{
    assert forall|identity: Identity|
        replay(events).dom().contains(identity) <==> connected_count(events, identity)
            > disconnected_count(events, identity) by {
        lemma_registered_iff_net_positive(events, identity);
    }
    assert(replay(events).dom() =~= Set::new(
        |identity: Identity|
            connected_count(events, identity) > disconnected_count(events, identity),
    ));
}

/// Events in which every identity connects only while it is not registered
/// and disconnects only while it is: the count is faithful for all of them.
pub proof fn lemma_orderly_events_count_faithfully<H>(events: Seq<Event<H>>, identity: Identity)
    requires
        overwrite_count(events, identity) == 0,
        stray_disconnect_count(events, identity) == 0,
    ensures
        count_is_faithful(events, identity),
        replay(events).contains_key(identity) <==> connected_count(events, identity)
            > disconnected_count(events, identity),
{
    lemma_registered_iff_net_positive(events, identity);
}

/// An event about one identity leaves every other identity as it was.
pub proof fn lemma_step_is_local<H>(table: Map<Identity, H>, event: Event<H>, other: Identity)
    requires
        other != event.subject(),
    ensures
        step(table, event).contains_key(other) == table.contains_key(other),
        table.contains_key(other) ==> step(table, event)[other] == table[other],
{
}

/// Disconnecting an identity that is not registered changes nothing, so
/// disconnecting twice is disconnecting once.
pub proof fn lemma_disconnect_is_idempotent<H>(table: Map<Identity, H>, identity: Identity)
    ensures
        !table.contains_key(identity) ==> step(table, Event::Disconnected(identity)) == table,
        step(step(table, Event::Disconnected(identity)), Event::Disconnected(identity)) == step(
            table,
            Event::Disconnected(identity),
        ),
{
    if !table.contains_key(identity) {
        assert(table.remove(identity) =~= table);
    }
    assert(table.remove(identity).remove(identity) =~= table.remove(identity));
}

/// Connecting an identity again leaves one row for it, bound to the newest
/// handle, and the table no larger than after the first connection.
pub proof fn lemma_reconnect_overwrites<H>(
    table: Map<Identity, H>,
    identity: Identity,
    first: H,
    second: H,
)
    ensures
        step(step(table, Event::Connected(identity, first)), Event::Connected(identity, second))
            == step(table, Event::Connected(identity, second)),
        step(table, Event::Connected(identity, second))[identity] == second,
{
    assert(table.insert(identity, first).insert(identity, second) =~= table.insert(
        identity,
        second,
    ));
}

/// A message reaches nobody when the table is empty, or when its sender is
/// the only one registered.
pub proof fn lemma_lone_sender_has_no_audience<H>(table: Map<Identity, H>, sender: Identity)
    requires
        table.dom().finite(),
        table.len() == 0 || (table.len() == 1 && table.contains_key(sender)),
    ensures
        audience(table, sender) == Set::<Identity>::empty(),
{
    if table.len() == 0 {
        assert(table.dom() =~= Set::<Identity>::empty());
    } else {
        assert(table.dom().remove(sender).len() == 0);
    }
    assert(audience(table, sender).len() == 0);
    assert(audience(table, sender) =~= Set::<Identity>::empty());
}

} // verus!
