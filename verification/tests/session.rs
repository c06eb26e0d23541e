use chat_relay::codec::{decode, Event, Payload};
use chat_relay::mailbox::Delivery;
use chat_relay::relay::Relay;
use chat_relay::session::{connection_identity, Inbound, Session, SessionState};

fn drain(relay: &mut Relay, mailbox: usize) -> Vec<Event> {
    let mut events = Vec::new();
    while let Delivery::Write(text) = relay.next_delivery(mailbox, None) {
        events.push(decode(&text).unwrap());
    }
    events
}

fn users(names: &[&str]) -> Event {
    Event::UpdateUsers { usernames: names.iter().map(|n| n.to_string()).collect() }
}

#[test]
fn identity_defaults_to_test() {
    assert_eq!(connection_identity(None), "test".to_string());
}

#[test]
fn identity_keeps_the_supplied_name() {
    assert_eq!(connection_identity(Some("alice".to_string())), "alice".to_string());
    assert_eq!(connection_identity(Some(String::new())), String::new());
}

#[test]
fn session_starts_connecting() {
    let session = Session::new(None);
    assert_eq!(session.state(), SessionState::Connecting);
    assert_eq!(session.username(), "test");
    assert_eq!(session.mailbox(), None);
    assert_eq!(Session::new(Some("bob".to_string())).username(), "bob");
}

#[test]
fn session_goes_through_its_life() {
    let mut relay = Relay::new();
    let mut alice = Session::new(Some("alice".to_string()));
    alice.connect(&mut relay);
    assert_eq!(alice.state(), SessionState::Active);
    let a = alice.mailbox().unwrap();
    assert_eq!(relay.mailbox_of("alice"), Some(a));
    assert_eq!(drain(&mut relay, a), vec![users(&["alice"])]);

    let mut bob = Session::new(None);
    bob.connect(&mut relay);
    let b = bob.mailbox().unwrap();
    assert_eq!(relay.snapshot_names(), vec!["alice", "test"]);
    drain(&mut relay, a);
    drain(&mut relay, b);

    bob.receive(&mut relay, &Inbound::Message(Payload::Text("hello".to_string())));
    assert_eq!(bob.state(), SessionState::Active);
    let heard = Event::SendMessage { username: "test".to_string(), message: "hello".to_string() };
    assert_eq!(drain(&mut relay, a), vec![heard]);

    bob.receive(&mut relay, &Inbound::Message(Payload::NonText));
    assert_eq!(bob.state(), SessionState::Active);
    assert_eq!(relay.pending(a), 0);

    bob.receive(&mut relay, &Inbound::Closed);
    assert_eq!(bob.state(), SessionState::Disconnected);
    assert_eq!(relay.snapshot_names(), vec!["alice"]);
    assert_eq!(drain(&mut relay, a), vec![users(&["alice"])]);

    alice.receive(&mut relay, &Inbound::Failed);
    assert_eq!(alice.state(), SessionState::Disconnected);
    assert_eq!(relay.snapshot_names(), Vec::<String>::new());
    assert_eq!(relay.next_delivery(a, None), Delivery::Exit);
}

#[test]
fn disconnected_session_stays_so() {
    let mut relay = Relay::new();
    let mut gone = Session::new(Some("gone".to_string()));
    gone.connect(&mut relay);
    gone.receive(&mut relay, &Inbound::Closed);
    let mut stays = Session::new(Some("stays".to_string()));
    stays.connect(&mut relay);
    let s = stays.mailbox().unwrap();
    drain(&mut relay, s);

    gone.receive(&mut relay, &Inbound::Message(Payload::Text("late".to_string())));
    gone.receive(&mut relay, &Inbound::Closed);
    gone.connect(&mut relay);
    assert_eq!(gone.state(), SessionState::Disconnected);
    assert_eq!(relay.pending(s), 0);
    assert_eq!(relay.snapshot_names(), vec!["stays"]);
}

#[test]
fn session_that_has_not_connected_is_not_heard() {
    let mut relay = Relay::new();
    let mut early = Session::new(Some("early".to_string()));
    early.receive(&mut relay, &Inbound::Message(Payload::Text("x".to_string())));
    early.receive(&mut relay, &Inbound::Failed);
    assert_eq!(early.state(), SessionState::Connecting);
    assert_eq!(relay.snapshot_names(), Vec::<String>::new());
}

#[test]
fn connecting_twice_registers_once() {
    let mut relay = Relay::new();
    let mut session = Session::new(Some("once".to_string()));
    session.connect(&mut relay);
    let mailbox = session.mailbox();
    session.connect(&mut relay);
    assert_eq!(session.mailbox(), mailbox);
    assert_eq!(relay.pending(mailbox.unwrap()), 1);
}
