use text_relay::relay::{Delivery, Relay, Welcome, QUEUE_CAPACITY};

fn join(relay: &mut Relay) -> Welcome {
    relay.on_connect()
}

fn message(text: &str) -> Delivery {
    Delivery::Message(text.to_string())
}

#[test]
fn new_relay_holds_empty_text() {
    let relay = Relay::new();
    assert_eq!(relay.read(), "");
    assert!(!relay.is_live(0));
}

#[test]
fn queue_capacity_is_sixteen() {
    assert_eq!(QUEUE_CAPACITY, 16);
}

#[test]
fn first_connection_is_welcomed_with_empty_text() {
    let mut relay = Relay::new();
    let welcome = join(&mut relay);
    assert_eq!(welcome, Welcome { conn: 0, text: String::new() });
    assert!(relay.is_live(0));
    assert_eq!(relay.next_delivery(0), Delivery::Idle);
}

#[test]
fn scenario_two_clients_share_text() {
    let mut relay = Relay::new();
    let a = join(&mut relay);
    assert_eq!(a.text, "");
    assert!(relay.on_client_message(a.conn, "hello".to_string()));
    let b = join(&mut relay);
    assert_eq!(b.text, "hello");
    assert!(relay.on_client_message(b.conn, "hello world".to_string()));
    assert_eq!(relay.next_delivery(a.conn), message("hello"));
    assert_eq!(relay.next_delivery(a.conn), message("hello world"));
    assert_eq!(relay.next_delivery(a.conn), Delivery::Idle);
    assert_eq!(relay.read(), "hello world");
}

#[test]
fn scenario_disconnect_mid_update() {
    let mut relay = Relay::new();
    let a = join(&mut relay);
    let b = join(&mut relay);
    assert!(relay.on_client_message(a.conn, "from a".to_string()));
    relay.on_disconnect(a.conn);
    assert!(!relay.is_live(a.conn));
    assert!(relay.is_live(b.conn));
    assert_eq!(relay.next_delivery(b.conn), message("from a"));
    assert_eq!(relay.next_delivery(b.conn), Delivery::Idle);
    assert!(relay.on_client_message(b.conn, "from b".to_string()));
    assert_eq!(relay.next_delivery(b.conn), message("from b"));
    assert_eq!(relay.read(), "from b");
    assert_eq!(relay.next_delivery(a.conn), Delivery::Gone);
}

#[test]
fn late_joiner_gets_latest_after_many_writes() {
    let mut relay = Relay::new();
    let a = join(&mut relay);
    for n in 0..100 {
        assert!(relay.on_client_message(a.conn, format!("version {}", n)));
    }
    let b = join(&mut relay);
    assert_eq!(b.text, "version 99");
    assert_eq!(relay.next_delivery(b.conn), Delivery::Idle);
}

#[test]
fn joiner_sees_only_later_updates_in_queue() {
    let mut relay = Relay::new();
    let a = join(&mut relay);
    assert!(relay.on_client_message(a.conn, "before".to_string()));
    let b = join(&mut relay);
    assert!(relay.on_client_message(a.conn, "after".to_string()));
    assert_eq!(relay.next_delivery(b.conn), message("after"));
    assert_eq!(relay.next_delivery(b.conn), Delivery::Idle);
}

#[test]
fn update_is_echoed_to_its_sender() {
    let mut relay = Relay::new();
    let a = join(&mut relay);
    assert!(relay.on_client_message(a.conn, "mine".to_string()));
    assert_eq!(relay.next_delivery(a.conn), message("mine"));
}

#[test]
fn updates_reach_every_connection_in_one_order() {
    let mut relay = Relay::new();
    let a = join(&mut relay);
    let b = join(&mut relay);
    let c = join(&mut relay);
    assert!(relay.on_client_message(a.conn, "1".to_string()));
    assert!(relay.on_client_message(b.conn, "2".to_string()));
    assert!(relay.on_client_message(c.conn, "3".to_string()));
    assert!(relay.on_client_message(a.conn, "4".to_string()));
    for conn in [a.conn, b.conn, c.conn] {
        for text in ["1", "2", "3", "4"] {
            assert_eq!(relay.next_delivery(conn), message(text));
        }
        assert_eq!(relay.next_delivery(conn), Delivery::Idle);
    }
}

#[test]
fn full_queue_keeps_all_sixteen() {
    let mut relay = Relay::new();
    let a = join(&mut relay);
    for n in 0..16 {
        assert!(relay.on_client_message(a.conn, n.to_string()));
    }
    for n in 0..16 {
        assert_eq!(relay.next_delivery(a.conn), Delivery::Message(n.to_string()));
    }
    assert_eq!(relay.next_delivery(a.conn), Delivery::Idle);
}

#[test]
fn overflow_drops_oldest_update() {
    let mut relay = Relay::new();
    let a = join(&mut relay);
    for n in 0..17 {
        assert!(relay.on_client_message(a.conn, n.to_string()));
    }
    for n in 1..17 {
        assert_eq!(relay.next_delivery(a.conn), Delivery::Message(n.to_string()));
    }
    assert_eq!(relay.next_delivery(a.conn), Delivery::Idle);
    assert_eq!(relay.read(), "16");
}

#[test]
fn overflow_of_one_queue_spares_the_others() {
    let mut relay = Relay::new();
    let slow = join(&mut relay);
    let fast = join(&mut relay);
    for n in 0..40 {
        assert!(relay.on_client_message(fast.conn, n.to_string()));
        assert_eq!(relay.next_delivery(fast.conn), Delivery::Message(n.to_string()));
    }
    for n in 24..40 {
        assert_eq!(relay.next_delivery(slow.conn), Delivery::Message(n.to_string()));
    }
    assert_eq!(relay.next_delivery(slow.conn), Delivery::Idle);
}

#[test]
fn capacity_of_one_keeps_only_the_newest() {
    let mut relay = Relay::with_capacity(1);
    let a = join(&mut relay);
    assert!(relay.on_client_message(a.conn, "old".to_string()));
    assert!(relay.on_client_message(a.conn, "new".to_string()));
    assert_eq!(relay.next_delivery(a.conn), message("new"));
    assert_eq!(relay.next_delivery(a.conn), Delivery::Idle);
}

#[test]
fn capacity_of_three_drops_in_order() {
    let mut relay = Relay::with_capacity(3);
    let a = join(&mut relay);
    for text in ["a", "b", "c", "d", "e"] {
        assert!(relay.on_client_message(a.conn, text.to_string()));
    }
    assert_eq!(relay.next_delivery(a.conn), message("c"));
    assert_eq!(relay.next_delivery(a.conn), message("d"));
    assert_eq!(relay.next_delivery(a.conn), message("e"));
    assert_eq!(relay.next_delivery(a.conn), Delivery::Idle);
}

#[test]
fn delivery_makes_room_again() {
    let mut relay = Relay::with_capacity(2);
    let a = join(&mut relay);
    assert!(relay.on_client_message(a.conn, "1".to_string()));
    assert!(relay.on_client_message(a.conn, "2".to_string()));
    assert_eq!(relay.next_delivery(a.conn), message("1"));
    assert!(relay.on_client_message(a.conn, "3".to_string()));
    assert_eq!(relay.next_delivery(a.conn), message("2"));
    assert_eq!(relay.next_delivery(a.conn), message("3"));
    assert_eq!(relay.next_delivery(a.conn), Delivery::Idle);
}

#[test]
fn empty_text_is_accepted_and_propagated() {
    let mut relay = Relay::new();
    let a = join(&mut relay);
    let b = join(&mut relay);
    assert!(relay.on_client_message(a.conn, "something".to_string()));
    assert!(relay.on_client_message(a.conn, String::new()));
    assert_eq!(relay.read(), "");
    assert_eq!(relay.next_delivery(b.conn), message("something"));
    assert_eq!(relay.next_delivery(b.conn), message(""));
    assert_eq!(relay.next_delivery(b.conn), Delivery::Idle);
    let c = join(&mut relay);
    assert_eq!(c.text, "");
}

#[test]
fn text_is_taken_verbatim() {
    let mut relay = Relay::new();
    let a = join(&mut relay);
    let text = " {\"not\": parsed}\n\u{4e16}\u{754c} ".to_string();
    assert!(relay.on_client_message(a.conn, text.clone()));
    assert_eq!(relay.read(), text);
    assert_eq!(relay.next_delivery(a.conn), Delivery::Message(text));
}

#[test]
fn message_from_unknown_connection_changes_nothing() {
    let mut relay = Relay::new();
    let a = join(&mut relay);
    assert!(relay.on_client_message(a.conn, "kept".to_string()));
    assert_eq!(relay.next_delivery(a.conn), message("kept"));
    assert!(!relay.on_client_message(77, "lost".to_string()));
    assert_eq!(relay.read(), "kept");
    assert_eq!(relay.next_delivery(a.conn), Delivery::Idle);
}

#[test]
fn message_after_disconnect_is_not_heard() {
    let mut relay = Relay::new();
    let a = join(&mut relay);
    let b = join(&mut relay);
    relay.on_disconnect(a.conn);
    assert!(!relay.on_client_message(a.conn, "late".to_string()));
    assert_eq!(relay.read(), "");
    assert_eq!(relay.next_delivery(b.conn), Delivery::Idle);
}

#[test]
fn disconnect_leaves_other_queues_untouched() {
    let mut relay = Relay::new();
    let a = join(&mut relay);
    let b = join(&mut relay);
    let c = join(&mut relay);
    assert!(relay.on_client_message(a.conn, "x".to_string()));
    assert!(relay.on_client_message(a.conn, "y".to_string()));
    relay.on_disconnect(b.conn);
    assert!(relay.is_live(a.conn));
    assert!(!relay.is_live(b.conn));
    assert!(relay.is_live(c.conn));
    assert_eq!(relay.read(), "y");
    for conn in [a.conn, c.conn] {
        assert_eq!(relay.next_delivery(conn), message("x"));
        assert_eq!(relay.next_delivery(conn), message("y"));
        assert_eq!(relay.next_delivery(conn), Delivery::Idle);
    }
}

#[test]
fn disconnect_of_unknown_connection_changes_nothing() {
    let mut relay = Relay::new();
    let a = join(&mut relay);
    assert!(relay.on_client_message(a.conn, "x".to_string()));
    relay.on_disconnect(5);
    assert!(relay.is_live(a.conn));
    assert_eq!(relay.read(), "x");
    assert_eq!(relay.next_delivery(a.conn), message("x"));
}

#[test]
fn disconnect_twice_is_harmless() {
    let mut relay = Relay::new();
    let a = join(&mut relay);
    let b = join(&mut relay);
    relay.on_disconnect(a.conn);
    relay.on_disconnect(a.conn);
    assert!(relay.is_live(b.conn));
    assert!(relay.on_client_message(b.conn, "still here".to_string()));
    assert_eq!(relay.next_delivery(b.conn), message("still here"));
}

#[test]
fn disconnect_drops_what_was_queued() {
    let mut relay = Relay::new();
    let a = join(&mut relay);
    assert!(relay.on_client_message(a.conn, "unsent".to_string()));
    relay.on_disconnect(a.conn);
    assert_eq!(relay.next_delivery(a.conn), Delivery::Gone);
    assert_eq!(relay.read(), "unsent");
}

#[test]
fn identities_start_at_zero_and_go_up() {
    let mut relay = Relay::new();
    assert_eq!(join(&mut relay).conn, 0);
    assert_eq!(join(&mut relay).conn, 1);
    assert_eq!(join(&mut relay).conn, 2);
}

#[test]
fn identity_is_the_least_free_one() {
    let mut relay = Relay::new();
    let a = join(&mut relay);
    let b = join(&mut relay);
    let c = join(&mut relay);
    relay.on_disconnect(b.conn);
    let d = join(&mut relay);
    assert_eq!(d.conn, 1);
    relay.on_disconnect(a.conn);
    relay.on_disconnect(c.conn);
    assert_eq!(join(&mut relay).conn, 0);
    assert_eq!(join(&mut relay).conn, 2);
    assert_eq!(join(&mut relay).conn, 3);
}

#[test]
fn reused_identity_starts_with_an_empty_queue() {
    let mut relay = Relay::new();
    let a = join(&mut relay);
    assert!(relay.on_client_message(a.conn, "left behind".to_string()));
    relay.on_disconnect(a.conn);
    let b = join(&mut relay);
    assert_eq!(b, Welcome { conn: a.conn, text: "left behind".to_string() });
    assert_eq!(relay.next_delivery(b.conn), Delivery::Idle);
}

#[test]
fn join_then_leave_changes_nothing_for_others() {
    let mut relay = Relay::new();
    let a = join(&mut relay);
    assert!(relay.on_client_message(a.conn, "x".to_string()));
    let b = join(&mut relay);
    relay.on_disconnect(b.conn);
    assert!(relay.is_live(a.conn));
    assert!(!relay.is_live(b.conn));
    assert_eq!(relay.read(), "x");
    assert_eq!(relay.next_delivery(a.conn), message("x"));
    assert_eq!(relay.next_delivery(a.conn), Delivery::Idle);
}

#[test]
fn first_update_after_join_is_first_in_queue() {
    let mut relay = Relay::new();
    let a = join(&mut relay);
    assert!(relay.on_client_message(a.conn, "old".to_string()));
    let b = join(&mut relay);
    assert_eq!(b.text, "old");
    assert!(relay.on_client_message(a.conn, "new".to_string()));
    assert_eq!(relay.next_delivery(b.conn), message("new"));
}

#[test]
fn many_connections_can_join() {
    let mut relay = Relay::new();
    for expected in 0..200u64 {
        assert_eq!(join(&mut relay).conn, expected);
    }
    assert!(relay.on_client_message(7, "all".to_string()));
    for conn in 0..200u64 {
        assert_eq!(relay.next_delivery(conn), message("all"));
    }
}

#[test]
fn delivery_for_unknown_connection_is_gone() {
    let mut relay = Relay::new();
    assert_eq!(relay.next_delivery(3), Delivery::Gone);
}

#[test]
fn text_outlives_all_connections() {
    let mut relay = Relay::new();
    let a = join(&mut relay);
    assert!(relay.on_client_message(a.conn, "stays".to_string()));
    relay.on_disconnect(a.conn);
    let b = join(&mut relay);
    assert_eq!(b.text, "stays");
}
