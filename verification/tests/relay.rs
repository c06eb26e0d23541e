use chat_relay::codec::{decode, Event, Payload};
use chat_relay::mailbox::{Delivery, WriteOutcome};
use chat_relay::relay::Relay;

fn drain(relay: &mut Relay, mailbox: usize) -> Vec<Event> {
    let mut events = Vec::new();
    let mut last = None;
    loop {
        match relay.next_delivery(mailbox, last) {
            Delivery::Write(text) => {
                events.push(decode(&text).unwrap());
                last = Some(WriteOutcome::Written);
            }
            Delivery::Wait | Delivery::Exit => return events,
        }
    }
}

fn users(names: &[&str]) -> Event {
    Event::UpdateUsers { usernames: names.iter().map(|n| n.to_string()).collect() }
}

fn message(username: &str, text: &str) -> Event {
    Event::SendMessage { username: username.to_string(), message: text.to_string() }
}

fn text(s: &str) -> Payload {
    Payload::Text(s.to_string())
}

#[test]
fn end_to_end_scenario() {
    let mut relay = Relay::new();
    let a = relay.user_connected("alice".to_string());
    assert_eq!(drain(&mut relay, a), vec![users(&["alice"])]);

    let b = relay.user_connected("bob".to_string());
    let to_a = drain(&mut relay, a);
    let to_b = drain(&mut relay, b);
    assert_eq!(to_a.len(), 1);
    assert_eq!(to_a, to_b);
    match &to_a[0] {
        Event::UpdateUsers { usernames } => {
            let mut sorted = usernames.clone();
            sorted.sort();
            assert_eq!(sorted, vec!["alice", "bob"]);
        }
        other => panic!("unexpected event {:?}", other),
    }

    assert!(relay.user_message("alice", &text("hi")));
    assert_eq!(drain(&mut relay, a), vec![message("alice", "hi")]);
    assert_eq!(drain(&mut relay, b), vec![message("alice", "hi")]);

    relay.user_disconnected("bob");
    assert_eq!(drain(&mut relay, a), vec![users(&["alice"])]);
    assert_eq!(drain(&mut relay, b), Vec::<Event>::new());
    assert_eq!(relay.next_delivery(b, None), Delivery::Exit);
    assert_eq!(relay.next_delivery(a, None), Delivery::Wait);
}

#[test]
fn broadcast_has_the_exact_wire_text() {
    let mut relay = Relay::new();
    let a = relay.user_connected("alice".to_string());
    assert_eq!(
        relay.next_delivery(a, None),
        Delivery::Write("{\"event\":\"update-users\",\"usernames\":[\"alice\"]}".to_string())
    );
    relay.broadcast_message("alice", "hi");
    assert_eq!(
        relay.next_delivery(a, None),
        Delivery::Write("{\"event\":\"send-message\",\"username\":\"alice\",\"message\":\"hi\"}".to_string())
    );
}

#[test]
fn sender_hears_its_own_message() {
    let mut relay = Relay::new();
    let s = relay.user_connected("solo".to_string());
    drain(&mut relay, s);
    relay.user_message("solo", &text("echo"));
    assert_eq!(drain(&mut relay, s), vec![message("solo", "echo")]);
}

#[test]
fn slow_consumer_holds_nobody_up() {
    let mut relay = Relay::new();
    let slow = relay.user_connected("slow".to_string());
    let quick = relay.user_connected("quick".to_string());
    drain(&mut relay, quick);
    for i in 0..500 {
        relay.user_message("quick", &text(&format!("m{}", i)));
        assert_eq!(drain(&mut relay, quick), vec![message("quick", &format!("m{}", i))]);
    }
    assert_eq!(relay.pending(slow), 502);
    assert_eq!(relay.pending(quick), 0);
    let backlog = drain(&mut relay, slow);
    assert_eq!(backlog[0], users(&["slow"]));
    assert_eq!(backlog[1], users(&["slow", "quick"]));
    assert_eq!(backlog[2], message("quick", "m0"));
    assert_eq!(backlog[501], message("quick", "m499"));
}

#[test]
fn last_connection_under_a_name_wins() {
    let mut relay = Relay::new();
    let m1 = relay.user_connected("x".to_string());
    let m2 = relay.user_connected("x".to_string());
    assert_ne!(m1, m2);
    assert_eq!(relay.mailbox_of("x"), Some(m2));
    assert_eq!(relay.snapshot_names(), vec!["x"]);
    relay.user_message("x", &text("after"));
    assert_eq!(drain(&mut relay, m1), vec![users(&["x"])]);
    assert_eq!(relay.next_delivery(m1, None), Delivery::Exit);
    assert_eq!(drain(&mut relay, m2), vec![users(&["x"]), message("x", "after")]);

    relay.user_disconnected("x");
    assert!(!relay.snapshot_names().contains(&"x".to_string()));
    assert_eq!(relay.mailbox_of("x"), None);
    relay.broadcast_message("y", "nobody");
    assert_eq!(drain(&mut relay, m1), Vec::<Event>::new());
    assert_eq!(drain(&mut relay, m2), Vec::<Event>::new());
    assert_eq!(relay.next_delivery(m2, None), Delivery::Exit);

    relay.user_disconnected("x");
    assert_eq!(relay.snapshot_names(), Vec::<String>::new());
}

#[test]
fn payload_that_is_no_text_changes_nothing() {
    let mut relay = Relay::new();
    let a = relay.user_connected("alice".to_string());
    let b = relay.user_connected("bob".to_string());
    drain(&mut relay, a);
    drain(&mut relay, b);
    assert!(!relay.user_message("alice", &Payload::NonText));
    assert_eq!(relay.pending(a), 0);
    assert_eq!(relay.pending(b), 0);
    assert_eq!(relay.snapshot_names(), vec!["alice", "bob"]);
    assert_eq!(relay.mailbox_of("alice"), Some(a));
    assert_eq!(relay.mailbox_of("bob"), Some(b));
}

#[test]
fn message_text_is_passed_through_as_it_is() {
    let mut relay = Relay::new();
    let a = relay.user_connected("alice".to_string());
    drain(&mut relay, a);
    relay.user_message("alice", &text(""));
    relay.user_message("alice", &text("not {json"));
    relay.user_message("alice", &text("{\"event\":\"update-users\",\"usernames\":[]}"));
    assert_eq!(
        drain(&mut relay, a),
        vec![
            message("alice", ""),
            message("alice", "not {json"),
            message("alice", "{\"event\":\"update-users\",\"usernames\":[]}"),
        ]
    );
}

#[test]
fn message_under_an_unregistered_name_still_reaches_everyone() {
    let mut relay = Relay::new();
    let a = relay.user_connected("alice".to_string());
    drain(&mut relay, a);
    relay.user_message("ghost", &text("boo"));
    assert_eq!(drain(&mut relay, a), vec![message("ghost", "boo")]);
}

#[test]
fn disconnect_of_an_absent_name_still_announces() {
    let mut relay = Relay::new();
    let a = relay.user_connected("alice".to_string());
    drain(&mut relay, a);
    relay.user_disconnected("nobody");
    assert_eq!(drain(&mut relay, a), vec![users(&["alice"])]);
}

#[test]
fn empty_relay_broadcasts_to_nobody() {
    let mut relay = Relay::new();
    relay.broadcast_user_list();
    relay.broadcast_message("a", "b");
    assert_eq!(relay.snapshot_names(), Vec::<String>::new());
    assert_eq!(relay.pending(0), 0);
    assert_eq!(relay.next_delivery(0, None), Delivery::Exit);
    assert_eq!(relay.mailbox_of("a"), None);
}

#[test]
fn user_list_can_be_broadcast_again() {
    let mut relay = Relay::new();
    let a = relay.user_connected("alice".to_string());
    let b = relay.user_connected("bob".to_string());
    drain(&mut relay, a);
    drain(&mut relay, b);
    relay.broadcast_user_list();
    assert_eq!(drain(&mut relay, a), vec![users(&["alice", "bob"])]);
    assert_eq!(drain(&mut relay, b), vec![users(&["alice", "bob"])]);
}
