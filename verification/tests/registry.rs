use chat_relay::event::{identity_of_ipv4, Event};
use chat_relay::registry::Registry;

fn sorted(mut list: Vec<u64>) -> Vec<u64> {
    list.sort();
    list
}

#[test]
fn new_registry_is_empty() {
    let registry: Registry<&str> = Registry::new();
    assert_eq!(registry.len(), 0);
    assert!(registry.is_empty());
    assert!(!registry.contains(1));
    assert!(registry.get(1).is_none());
    assert_eq!(registry.recipients(1), Vec::<u64>::new());
}

#[test]
fn connect_registers_identity_with_handle() {
    let mut registry = Registry::new();
    registry.connect(7, "seven");
    assert_eq!(registry.len(), 1);
    assert!(!registry.is_empty());
    assert!(registry.contains(7));
    let entry = registry.get(7).unwrap();
    assert_eq!(entry.identity, 7);
    assert_eq!(entry.handle, "seven");
}

#[test]
fn connect_again_overwrites_with_newest_handle() {
    let mut registry = Registry::new();
    registry.connect(7, "old");
    registry.connect(8, "other");
    registry.connect(7, "new");
    assert_eq!(registry.len(), 2);
    assert_eq!(registry.get(7).unwrap().handle, "new");
    assert_eq!(registry.get(8).unwrap().handle, "other");
}

#[test]
fn disconnect_removes_identity() {
    let mut registry = Registry::new();
    registry.connect(1, 'a');
    registry.connect(2, 'b');
    registry.disconnect(1);
    assert_eq!(registry.len(), 1);
    assert!(!registry.contains(1));
    assert!(registry.contains(2));
}

#[test]
fn disconnect_of_unknown_identity_changes_nothing() {
    let mut registry = Registry::new();
    registry.connect(1, 'a');
    registry.connect(2, 'b');
    registry.disconnect(3);
    assert_eq!(registry.len(), 2);
    assert_eq!(registry.get(1).unwrap().handle, 'a');
    assert_eq!(registry.get(2).unwrap().handle, 'b');
    registry.disconnect(1);
    registry.disconnect(1);
    assert_eq!(registry.len(), 1);
    assert_eq!(registry.get(2).unwrap().handle, 'b');
}

#[test]
fn disconnect_on_empty_registry_is_harmless() {
    let mut registry: Registry<u8> = Registry::new();
    registry.disconnect(5);
    assert!(registry.is_empty());
    assert!(registry.apply(Event::Disconnected(5)).is_none());
    assert!(registry.is_empty());
}

#[test]
fn recipients_are_everyone_but_the_sender() {
    let mut registry = Registry::new();
    registry.connect(1, ());
    registry.connect(2, ());
    registry.connect(3, ());
    assert_eq!(sorted(registry.recipients(1)), vec![2, 3]);
    assert_eq!(sorted(registry.recipients(2)), vec![1, 3]);
    assert_eq!(sorted(registry.recipients(3)), vec![1, 2]);
}

#[test]
fn recipients_of_unregistered_sender_are_everyone() {
    let mut registry = Registry::new();
    registry.connect(1, ());
    registry.connect(2, ());
    assert_eq!(sorted(registry.recipients(9)), vec![1, 2]);
}

#[test]
fn lone_sender_has_no_recipients() {
    let mut registry = Registry::new();
    registry.connect(1, ());
    assert_eq!(registry.recipients(1), Vec::<u64>::new());
}

#[test]
fn lone_entry_hears_an_unregistered_sender() {
    let mut registry = Registry::new();
    registry.connect(2, ());
    assert_eq!(registry.recipients(1), vec![2]);
}

#[test]
fn apply_connected_and_disconnected_start_no_broadcast() {
    let mut registry = Registry::new();
    assert!(registry.apply(Event::Connected(4, "four")).is_none());
    assert!(registry.contains(4));
    assert_eq!(registry.get(4).unwrap().handle, "four");
    assert!(registry.apply(Event::Disconnected(4)).is_none());
    assert!(!registry.contains(4));
    assert_eq!(registry.len(), 0);
}

#[test]
fn apply_message_starts_broadcast_and_keeps_table() {
    let mut registry = Registry::new();
    registry.apply(Event::Connected(1, 'a'));
    registry.apply(Event::Connected(2, 'b'));
    registry.apply(Event::Connected(3, 'c'));
    let broadcast = registry.apply(Event::Message(2, String::from("hello"))).unwrap();
    assert_eq!(broadcast.text(), "hello");
    assert_eq!(sorted(broadcast.recipients().clone()), vec![1, 3]);
    assert_eq!(broadcast.attempted(), 0);
    assert!(broadcast.failed().is_empty());
    assert_eq!(registry.len(), 3);
    assert_eq!(registry.get(2).unwrap().handle, 'b');
}

#[test]
fn apply_message_on_empty_table_reaches_nobody() {
    let mut registry: Registry<u8> = Registry::new();
    let broadcast = registry.apply(Event::Message(1, String::from("anyone?"))).unwrap();
    assert!(broadcast.recipients().is_empty());
    assert!(broadcast.is_complete());
    assert_eq!(broadcast.next_recipient(), None);
}

#[test]
fn key_set_follows_the_last_word_on_each_identity() {
    let mut registry = Registry::new();
    let events = vec![
        Event::Connected(1, 10),
        Event::Connected(2, 20),
        Event::Disconnected(3),
        Event::Connected(1, 11),
        Event::Disconnected(2),
        Event::Connected(3, 30),
        Event::Message(2, String::from("late")),
        Event::Disconnected(2),
        Event::Connected(2, 21),
        Event::Disconnected(3),
    ];
    for event in events {
        registry.apply(event);
    }
    assert_eq!(registry.len(), 2);
    assert_eq!(registry.get(1).unwrap().handle, 11);
    assert_eq!(registry.get(2).unwrap().handle, 21);
    assert!(!registry.contains(3));
}

#[test]
fn overwrite_then_disconnect_leaves_identity_out() {
    let mut registry = Registry::new();
    registry.apply(Event::Connected(1, 'x'));
    registry.apply(Event::Connected(1, 'y'));
    registry.apply(Event::Disconnected(1));
    assert!(!registry.contains(1));
    assert!(registry.is_empty());
}

#[test]
fn event_identity_names_its_connection() {
    assert_eq!(Event::Connected(3, ()).identity(), 3);
    assert_eq!(Event::<()>::Disconnected(4).identity(), 4);
    assert_eq!(Event::<()>::Message(5, String::from("x")).identity(), 5);
}

#[test]
fn ipv4_identity_packs_address_and_port() {
    assert_eq!(identity_of_ipv4(0, 0), 0);
    assert_eq!(identity_of_ipv4(0, 3000), 3000);
    assert_eq!(identity_of_ipv4(1, 0), 65536);
    assert_eq!(identity_of_ipv4(0x7f00_0001, 3000), 0x7f00_0001_0bb8);
    assert_eq!(identity_of_ipv4(u32::MAX, u16::MAX), 0xffff_ffff_ffff);
    assert_ne!(identity_of_ipv4(1, 2), identity_of_ipv4(2, 1));
}

#[test]
fn orderly_events_leave_the_identities_with_net_positive_count() {
    let events: Vec<Event<u8>> = vec![
        Event::Connected(1, 0),
        Event::Connected(2, 0),
        Event::Disconnected(1),
        Event::Connected(3, 0),
        Event::Message(2, String::from("x")),
        Event::Disconnected(3),
        Event::Connected(1, 0),
        Event::Connected(4, 0),
        Event::Disconnected(4),
    ];
    let mut net = [0i32; 6];
    for event in &events {
        match event {
            Event::Connected(identity, _) => net[*identity as usize] += 1,
            Event::Disconnected(identity) => net[*identity as usize] -= 1,
            Event::Message(_, _) => {}
        }
    }
    assert_eq!(net, [0, 1, 1, 0, 0, 0]);
    let mut registry = Registry::new();
    for event in events {
        registry.apply(event);
    }
    for identity in 0..6u64 {
        assert_eq!(registry.contains(identity), net[identity as usize] > 0);
    }
    assert_eq!(registry.len(), 2);
}

#[test]
fn stray_disconnect_before_connect_does_not_cancel_it() {
    let mut registry = Registry::new();
    registry.apply(Event::Disconnected(1));
    registry.apply(Event::Connected(1, 'a'));
    assert!(registry.contains(1));
    assert_eq!(registry.len(), 1);
}
