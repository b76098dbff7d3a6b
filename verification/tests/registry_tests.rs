use chat_relay::registry::Registry;

fn delivered_ids(deliveries: &Vec<(u64, String)>) -> Vec<u64> {
    deliveries.iter().map(|d| d.0).collect()
}

#[test]
fn test_register_unique() {
    let mut reg = Registry::new();
    let a = reg.register();
    let b = reg.register();
    let c = reg.register();
    assert_ne!(a, b);
    assert_ne!(a, c);
    assert_ne!(b, c);

    // An id is never reused, not even after its session is gone.
    reg.deregister(a);
    let d = reg.register();
    assert_ne!(d, a);
    assert_ne!(d, b);
    assert_ne!(d, c);
}

#[test]
fn test_default_room() {
    let mut reg = Registry::new();
    let id = reg.register();
    let rooms = reg.list_rooms();
    assert_eq!(rooms, vec![String::from("Main")]);

    let deliveries = reg.broadcast(&String::from("Main"), &String::from("hello"));
    assert_eq!(delivered_ids(&deliveries), vec![id]);
    assert_eq!(deliveries[0].1, "hello");
}

#[test]
fn test_deregister_idempotent() {
    let mut reg = Registry::new();
    let a = reg.register();
    let b = reg.register();

    // Deregistering an id that was never handed out is a no-op.
    reg.deregister(4040);
    let deliveries = reg.broadcast(&String::from("Main"), &String::from("x"));
    assert_eq!(delivered_ids(&deliveries), vec![a, b]);

    reg.deregister(a);
    let deliveries = reg.broadcast(&String::from("Main"), &String::from("x"));
    assert_eq!(delivered_ids(&deliveries), vec![b]);

    // A second deregistration of the same id changes nothing.
    reg.deregister(a);
    let deliveries = reg.broadcast(&String::from("Main"), &String::from("x"));
    assert_eq!(delivered_ids(&deliveries), vec![b]);
    assert_eq!(reg.list_rooms(), vec![String::from("Main")]);
}

#[test]
fn test_broadcast_fanout() {
    let mut reg = Registry::new();
    let a = reg.register();
    let b = reg.register();
    let c = reg.register();
    let d = reg.register();
    reg.join(a, String::from("lobby"));
    reg.join(b, String::from("lobby"));
    reg.join(c, String::from("lobby"));

    let deliveries = reg.broadcast(&String::from("lobby"), &String::from("payload"));
    let mut ids = delivered_ids(&deliveries);
    ids.sort();
    assert_eq!(ids, vec![a, b, c]);
    for (_, text) in &deliveries {
        assert_eq!(text, "payload");
    }

    // The member of the other room gets nothing from this broadcast.
    assert!(!delivered_ids(&deliveries).contains(&d));

    // A room nobody is in delivers to nobody.
    let none = reg.broadcast(&String::from("attic"), &String::from("payload"));
    assert!(none.is_empty());
}

#[test]
fn test_join_moves_between_rooms() {
    let mut reg = Registry::new();
    let a = reg.register();
    reg.join(a, String::from("x"));
    reg.join(a, String::from("y"));

    // Joining a room leaves the previous one; an empty room is not retained.
    assert!(reg.broadcast(&String::from("x"), &String::from("m")).is_empty());
    assert!(reg.broadcast(&String::from("Main"), &String::from("m")).is_empty());
    assert_eq!(
        delivered_ids(&reg.broadcast(&String::from("y"), &String::from("m"))),
        vec![a]
    );
    assert_eq!(reg.list_rooms(), vec![String::from("y")]);
}

#[test]
fn test_join_unknown_id() {
    let mut reg = Registry::new();
    let a = reg.register();
    reg.join(7777, String::from("ghost"));
    assert_eq!(reg.list_rooms(), vec![String::from("Main")]);
    assert_eq!(
        delivered_ids(&reg.broadcast(&String::from("Main"), &String::from("m"))),
        vec![a]
    );
}

#[test]
fn test_list_rooms_dedup() {
    let mut reg = Registry::new();
    let a = reg.register();
    let b = reg.register();
    let c = reg.register();
    reg.join(a, String::from("shared"));
    reg.join(b, String::from("shared"));
    let _ = c;
    assert_eq!(
        reg.list_rooms(),
        vec![String::from("shared"), String::from("Main")]
    );
}

#[test]
fn test_empty_registry() {
    let reg = Registry::new();
    assert!(reg.list_rooms().is_empty());
    assert!(reg
        .broadcast(&String::from("Main"), &String::from("m"))
        .is_empty());
}
