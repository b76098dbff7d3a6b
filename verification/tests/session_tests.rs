use chat_relay::registry::Registry;
use chat_relay::session::Action;
use chat_relay::session::WsChatSession;
use chat_relay::session::WsEvent;

/// Register a fresh session with the registry and activate it.
fn connect(reg: &mut Registry, now: u64) -> (WsChatSession, u64) {
    let mut session = WsChatSession::new(None, now);
    let act = session.started();
    assert!(matches!(act, Action::Register));
    let id = reg.register();
    let acts = session.on_registered(Some(id));
    assert!(acts.is_empty());
    (session, id)
}

/// Feed one text frame to the session and hand the resulting registry
/// requests to the registry, as the transport loop would.
fn drive(
    reg: &mut Registry,
    session: &mut WsChatSession,
    frame: &str,
    now: u64,
) -> (Vec<String>, Vec<(u64, String)>) {
    let acts = session.handle(WsEvent::Text(String::from(frame)), now);
    let mut sent = Vec::new();
    let mut deliveries = Vec::new();
    for act in acts {
        match act {
            Action::SendText(t) => sent.push(t),
            Action::Join(id, room) => reg.join(id, room),
            Action::Broadcast(room, payload) => {
                deliveries = reg.broadcast(&room, &payload);
            }
            Action::ListRooms => {
                let rooms = reg.list_rooms();
                match session.list_available_rooms(rooms) {
                    Action::SendText(t) => sent.push(t),
                    _ => panic!("listing rooms must answer with a frame"),
                }
            }
            Action::Deregister(id) => reg.deregister(id),
            _ => {}
        }
    }
    (sent, deliveries)
}

#[test]
fn test_round_trip() {
    let mut reg = Registry::new();

    let (mut alice, _alice_id) = connect(&mut reg, 0);
    let (sent, _) = drive(&mut reg, &mut alice, "{\"request\":2,\"content\":\"alice\"}", 1);
    assert_eq!(
        sent,
        vec![String::from(
            "{\"request\":2,\"message\":\"alice\",\"room_list\":null,\"error\":\"none\"}"
        )]
    );
    let (sent, _) = drive(&mut reg, &mut alice, "{\"request\":3,\"content\":\"lobby\"}", 2);
    assert_eq!(
        sent,
        vec![String::from(
            "{\"request\":3,\"message\":\"alice\",\"room_list\":null,\"error\":\"none\"}"
        )]
    );

    let (mut bob, bob_id) = connect(&mut reg, 0);
    let (_, _) = drive(&mut reg, &mut bob, "{\"request\":2,\"content\":\"bob\"}", 1);
    let (_, _) = drive(&mut reg, &mut bob, "{\"request\":3,\"content\":\"lobby\"}", 2);

    let (sent, deliveries) = drive(&mut reg, &mut alice, "{\"request\":0,\"content\":\"hi\"}", 3);
    assert!(sent.is_empty());
    let to_bob: Vec<&String> = deliveries
        .iter()
        .filter(|d| d.0 == bob_id)
        .map(|d| &d.1)
        .collect();
    assert_eq!(to_bob, vec!["alice: hi"]);
    // The sender's own client receives the echoed message too.
    assert_eq!(deliveries.len(), 2);
}

#[test]
fn test_list_rooms_scenario() {
    let mut reg = Registry::new();

    let (mut alice, _) = connect(&mut reg, 0);
    drive(&mut reg, &mut alice, "{\"request\":2,\"content\":\"alice\"}", 1);
    drive(&mut reg, &mut alice, "{\"request\":3,\"content\":\"lobby\"}", 2);
    let (mut bob, _) = connect(&mut reg, 0);
    drive(&mut reg, &mut bob, "{\"request\":2,\"content\":\"bob\"}", 1);
    drive(&mut reg, &mut bob, "{\"request\":3,\"content\":\"lobby\"}", 2);

    // A third client, still in the default room, asks for the room list.
    let (mut carol, _) = connect(&mut reg, 0);
    let (sent, _) = drive(&mut reg, &mut carol, "{\"request\":1}", 1);
    assert_eq!(
        sent,
        vec![String::from(
            "{\"request\":1,\"message\":null,\"room_list\":[\"lobby\",\"Main\"],\"error\":\"none\"}"
        )]
    );
}

#[test]
fn test_heartbeat_timeout() {
    let mut reg = Registry::new();
    let (mut session, id) = connect(&mut reg, 0);

    // Within the window the session just sends a probe.
    let mut fresh_reg = Registry::new();
    let (mut fresh, _) = connect(&mut fresh_reg, 0);
    let acts = fresh.hb(9);
    assert_eq!(acts.len(), 1);
    assert!(matches!(acts[0], Action::SendPing));

    // Past the window the session deregisters itself and stops.
    let acts = session.hb(11);
    assert_eq!(acts.len(), 2);
    match acts[0] {
        Action::Deregister(gone) => {
            assert_eq!(gone, id);
            reg.deregister(gone);
        }
        _ => panic!("a timed-out session must deregister"),
    }
    assert!(matches!(acts[1], Action::Stop));

    // Its id is gone from every room.
    assert!(reg.list_rooms().is_empty());
    assert!(reg
        .broadcast(&String::from("Main"), &String::from("m"))
        .is_empty());
}

#[test]
fn test_send_without_name() {
    let mut reg = Registry::new();
    let (mut session, id) = connect(&mut reg, 0);
    let (sent, deliveries) = drive(&mut reg, &mut session, "{\"request\":0,\"content\":\"raw\"}", 1);
    // No name set: the content is relayed as it came, without a prefix.
    assert!(sent.is_empty());
    assert_eq!(deliveries.len(), 1);
    assert_eq!(deliveries[0].0, id);
    assert_eq!(deliveries[0].1, "raw");
}

#[test]
fn test_join_without_name() {
    let mut reg = Registry::new();
    let (mut session, id) = connect(&mut reg, 0);
    let (sent, _) = drive(&mut reg, &mut session, "{\"request\":3,\"content\":\"lobby\"}", 1);
    assert_eq!(
        sent,
        vec![String::from(
            "{\"request\":3,\"message\":null,\"room_list\":null,\"error\":\"name is not set\"}"
        )]
    );
    // The session stays in its room: a later message still goes to Main.
    let (_, deliveries) = drive(&mut reg, &mut session, "{\"request\":0,\"content\":\"m\"}", 2);
    assert_eq!(deliveries.len(), 1);
    assert_eq!(deliveries[0].0, id);
    assert_eq!(reg.list_rooms(), vec![String::from("Main")]);
}

#[test]
fn test_join_empty_room_name() {
    let mut reg = Registry::new();
    let (mut session, _) = connect(&mut reg, 0);
    drive(&mut reg, &mut session, "{\"request\":2,\"content\":\"dana\"}", 1);
    let (sent, _) = drive(&mut reg, &mut session, "{\"request\":3,\"content\":\"\"}", 2);
    assert_eq!(
        sent,
        vec![String::from(
            "{\"request\":3,\"message\":null,\"room_list\":null,\"error\":\"room name is empty\"}"
        )]
    );
    assert_eq!(reg.list_rooms(), vec![String::from("Main")]);
}

#[test]
fn test_missing_content_reply() {
    let mut reg = Registry::new();
    let (mut session, _) = connect(&mut reg, 0);
    let (sent, _) = drive(&mut reg, &mut session, "{\"request\":2}", 1);
    assert_eq!(
        sent,
        vec![String::from(
            "{\"request\":2,\"message\":null,\"room_list\":null,\"error\":\"content is required\"}"
        )]
    );
}

#[test]
fn test_malformed_and_unknown_ignored() {
    let mut reg = Registry::new();
    let (mut session, _) = connect(&mut reg, 0);
    let acts = session.handle(WsEvent::Text(String::from("garbage")), 1);
    assert!(acts.is_empty());
    let acts = session.handle(WsEvent::Text(String::from("{\"request\":9}")), 2);
    assert!(acts.is_empty());
    // The connection stays usable afterwards.
    let (sent, _) = drive(&mut reg, &mut session, "{\"request\":2,\"content\":\"eve\"}", 3);
    assert_eq!(sent.len(), 1);
}

#[test]
fn test_ping_pong() {
    let mut reg = Registry::new();
    let (mut session, _) = connect(&mut reg, 0);
    let acts = session.handle(WsEvent::Ping(vec![1, 2, 3]), 4);
    assert_eq!(acts.len(), 1);
    match &acts[0] {
        Action::SendPong(p) => assert_eq!(p, &vec![1, 2, 3]),
        _ => panic!("a ping must be answered with a pong"),
    }
    // The ping refreshed the liveness clock: no timeout right after it.
    let acts = session.hb(13);
    assert_eq!(acts.len(), 1);
    assert!(matches!(acts[0], Action::SendPing));

    let acts = session.handle(WsEvent::Pong, 14);
    assert!(acts.is_empty());
}

#[test]
fn test_close_and_stopping() {
    let mut reg = Registry::new();
    let (mut session, id) = connect(&mut reg, 0);
    let acts = session.handle(WsEvent::Close, 1);
    assert_eq!(acts.len(), 1);
    assert!(matches!(acts[0], Action::Stop));
    match session.stopping() {
        Some(Action::Deregister(gone)) => {
            assert_eq!(gone, id);
            reg.deregister(gone);
        }
        _ => panic!("a registered session must deregister when stopping"),
    }
    assert!(reg.list_rooms().is_empty());
}

#[test]
fn test_register_failure_closes() {
    let mut session = WsChatSession::new(None, 0);
    let acts = session.on_registered(None);
    assert_eq!(acts.len(), 1);
    assert!(matches!(acts[0], Action::Stop));
    // A session that never got an id has nothing to deregister.
    assert!(session.stopping().is_none());
}
