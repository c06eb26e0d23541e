use chat_relay::mailbox::{Delivery, Mailbox, WriteOutcome};

#[test]
fn new_mailbox_is_open_and_empty() {
    let mut mailbox = Mailbox::new();
    assert!(mailbox.is_open());
    assert_eq!(mailbox.len(), 0);
    assert_eq!(mailbox.next_delivery(None), Delivery::Wait);
}

#[test]
fn texts_leave_in_the_order_they_came() {
    let mut mailbox = Mailbox::new();
    assert!(mailbox.enqueue("one".to_string()));
    assert!(mailbox.enqueue("two".to_string()));
    assert!(mailbox.enqueue("three".to_string()));
    assert_eq!(mailbox.len(), 3);
    assert_eq!(mailbox.next_delivery(None), Delivery::Write("one".to_string()));
    assert_eq!(mailbox.next_delivery(Some(WriteOutcome::Written)), Delivery::Write("two".to_string()));
    assert_eq!(mailbox.next_delivery(Some(WriteOutcome::Written)), Delivery::Write("three".to_string()));
    assert_eq!(mailbox.next_delivery(Some(WriteOutcome::Written)), Delivery::Wait);
    assert_eq!(mailbox.len(), 0);
}

#[test]
fn failed_write_does_not_end_the_loop() {
    let mut mailbox = Mailbox::new();
    mailbox.enqueue("one".to_string());
    mailbox.enqueue("two".to_string());
    assert_eq!(mailbox.next_delivery(None), Delivery::Write("one".to_string()));
    assert_eq!(mailbox.next_delivery(Some(WriteOutcome::Failed)), Delivery::Write("two".to_string()));
    assert_eq!(mailbox.next_delivery(Some(WriteOutcome::Failed)), Delivery::Wait);
}

#[test]
fn closed_mailbox_drains_and_then_ends() {
    let mut mailbox = Mailbox::new();
    mailbox.enqueue("last".to_string());
    mailbox.close();
    assert!(!mailbox.is_open());
    assert_eq!(mailbox.len(), 1);
    assert_eq!(mailbox.next_delivery(None), Delivery::Write("last".to_string()));
    assert_eq!(mailbox.next_delivery(Some(WriteOutcome::Written)), Delivery::Exit);
    assert_eq!(mailbox.next_delivery(Some(WriteOutcome::Written)), Delivery::Exit);
}

#[test]
fn closed_mailbox_discards_what_is_offered() {
    let mut mailbox = Mailbox::new();
    mailbox.close();
    assert!(!mailbox.enqueue("late".to_string()));
    assert_eq!(mailbox.len(), 0);
    assert_eq!(mailbox.next_delivery(None), Delivery::Exit);
}

#[test]
fn mailbox_has_no_bound() {
    let mut mailbox = Mailbox::new();
    for i in 0..10_000 {
        assert!(mailbox.enqueue(format!("{}", i)));
    }
    assert_eq!(mailbox.len(), 10_000);
    assert_eq!(mailbox.next_delivery(None), Delivery::Write("0".to_string()));
}
