use chat_relay::registry::Registry;

fn names(registry: &Registry) -> Vec<String> {
    registry.snapshot_names()
}

#[test]
fn new_registry_is_empty() {
    let registry = Registry::new();
    assert!(registry.is_empty());
    assert_eq!(registry.len(), 0);
    assert_eq!(names(&registry), Vec::<String>::new());
    assert_eq!(registry.snapshot_mailboxes(), Vec::<usize>::new());
    assert_eq!(registry.lookup("alice"), None);
}

#[test]
fn names_come_in_the_order_of_registration() {
    let mut registry = Registry::new();
    assert_eq!(registry.register("alice".to_string(), 0), None);
    assert_eq!(registry.register("bob".to_string(), 1), None);
    assert_eq!(registry.register("carol".to_string(), 2), None);
    assert_eq!(names(&registry), vec!["alice", "bob", "carol"]);
    assert_eq!(registry.snapshot_mailboxes(), vec![0, 1, 2]);
    assert_eq!(registry.len(), 3);
    assert!(!registry.is_empty());
    assert_eq!(registry.lookup("bob"), Some(1));
}

#[test]
fn unregister_after_register_forgets_the_name() {
    let mut registry = Registry::new();
    registry.register("alice".to_string(), 0);
    registry.register("bob".to_string(), 1);
    assert_eq!(registry.unregister("alice"), Some(0));
    assert!(!names(&registry).contains(&"alice".to_string()));
    assert_eq!(names(&registry), vec!["bob"]);
    assert_eq!(registry.lookup("alice"), None);
    assert_eq!(registry.lookup("bob"), Some(1));
}

#[test]
fn unregister_of_an_absent_name_changes_nothing() {
    let mut registry = Registry::new();
    registry.register("alice".to_string(), 0);
    assert_eq!(registry.unregister("bob"), None);
    assert_eq!(names(&registry), vec!["alice"]);
    assert_eq!(registry.unregister("alice"), Some(0));
    assert_eq!(registry.unregister("alice"), None);
    assert!(registry.is_empty());
}

#[test]
fn last_registration_of_a_name_wins() {
    let mut registry = Registry::new();
    registry.register("w".to_string(), 5);
    assert_eq!(registry.register("x".to_string(), 1), None);
    assert_eq!(registry.register("x".to_string(), 2), Some(1));
    assert_eq!(registry.lookup("x"), Some(2));
    assert_eq!(names(&registry), vec!["w", "x"]);
    assert_eq!(registry.snapshot_mailboxes(), vec![5, 2]);
    assert_eq!(registry.unregister("x"), Some(2));
    assert!(!names(&registry).contains(&"x".to_string()));
    assert_eq!(registry.lookup("x"), None);
}

#[test]
fn names_are_taken_as_they_are() {
    let mut registry = Registry::new();
    registry.register(String::new(), 0);
    registry.register("Alice".to_string(), 1);
    registry.register("alice".to_string(), 2);
    assert_eq!(names(&registry), vec!["", "Alice", "alice"]);
    assert_eq!(registry.lookup(""), Some(0));
    assert_eq!(registry.lookup("alice"), Some(2));
}
