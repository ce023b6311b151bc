use signaling_relay::{Action, Connection, ConnectionHandle, ConnectionState, Event, Registry};

fn active(id: usize, room: &str) -> Connection {
    let mut connection = Connection::new(id, room.to_owned());
    assert_eq!(connection.step(Event::Started), Action::Join);
    connection
}

fn perform(registry: &mut Registry<u32>, connection: &Connection, action: &Action) {
    match action {
        Action::Join => registry.join(ConnectionHandle {
            id: connection.id(),
            room: connection.room().to_owned(),
            sink: 0,
        }),
        Action::Leave => registry.leave(connection.room(), connection.id()),
        _ => {}
    }
}

#[test]
fn new_connection_is_starting() {
    let connection = Connection::new(7, "lobby".to_owned());
    assert_eq!(connection.id(), 7);
    assert_eq!(connection.room(), "lobby");
    assert_eq!(connection.state(), ConnectionState::Starting);
}

#[test]
fn start_asks_for_a_join() {
    let mut connection = Connection::new(1, "lobby".to_owned());
    assert_eq!(connection.step(Event::Started), Action::Join);
    assert_eq!(connection.state(), ConnectionState::Active);
    assert_eq!(connection.id(), 1);
    assert_eq!(connection.room(), "lobby");
}

#[test]
fn text_is_broadcast() {
    let mut connection = active(1, "lobby");
    let action = connection.step(Event::Text("hello".to_owned()));
    assert_eq!(action, Action::Broadcast("hello".to_owned()));
    assert_eq!(connection.state(), ConnectionState::Active);
}

#[test]
fn ping_yields_pong_with_identical_payload() {
    let mut connection = active(1, "lobby");
    let action = connection.step(Event::Ping(vec![0x01, 0x02]));
    assert_eq!(action, Action::Pong(vec![0x01, 0x02]));
    assert_eq!(connection.state(), ConnectionState::Active);
    assert_eq!(connection.id(), 1);
    assert_eq!(connection.room(), "lobby");
}

#[test]
fn empty_ping_yields_empty_pong() {
    let mut connection = active(1, "lobby");
    assert_eq!(connection.step(Event::Ping(vec![])), Action::Pong(vec![]));
}

#[test]
fn other_frames_are_ignored() {
    let mut connection = active(1, "lobby");
    assert_eq!(connection.step(Event::Binary(vec![1, 2, 3])), Action::Nothing);
    assert_eq!(connection.state(), ConnectionState::Active);
    assert_eq!(connection.step(Event::Pong(vec![9])), Action::Nothing);
    assert_eq!(connection.state(), ConnectionState::Active);
    assert_eq!(connection.step(Event::Malformed), Action::Nothing);
    assert_eq!(connection.state(), ConnectionState::Active);
    assert_eq!(connection.step(Event::Started), Action::Nothing);
    assert_eq!(connection.state(), ConnectionState::Active);
}

#[test]
fn close_shuts_down_then_leaves() {
    let mut connection = active(1, "lobby");
    assert_eq!(connection.step(Event::Close), Action::Shutdown);
    assert_eq!(connection.state(), ConnectionState::Stopping);
    assert_eq!(connection.step(Event::Text("late".to_owned())), Action::Nothing);
    assert_eq!(connection.step(Event::Ping(vec![1])), Action::Nothing);
    assert_eq!(connection.step(Event::Close), Action::Nothing);
    assert_eq!(connection.state(), ConnectionState::Stopping);
    assert_eq!(connection.step(Event::Stopped), Action::Leave);
    assert_eq!(connection.state(), ConnectionState::Terminated);
}

#[test]
fn transport_error_forces_shutdown() {
    let mut connection = active(1, "lobby");
    assert_eq!(connection.step(Event::TransportError), Action::Shutdown);
    assert_eq!(connection.state(), ConnectionState::Stopping);
    assert_eq!(connection.step(Event::TransportError), Action::Nothing);
    assert_eq!(connection.step(Event::Stopped), Action::Leave);
    assert_eq!(connection.state(), ConnectionState::Terminated);
}

#[test]
fn abrupt_stop_leaves() {
    let mut connection = active(1, "lobby");
    assert_eq!(connection.step(Event::Stopped), Action::Leave);
    assert_eq!(connection.state(), ConnectionState::Terminated);
}

#[test]
fn leave_is_asked_for_once() {
    let mut connection = active(1, "lobby");
    assert_eq!(connection.step(Event::Close), Action::Shutdown);
    assert_eq!(connection.step(Event::Stopped), Action::Leave);
    assert_eq!(connection.step(Event::Stopped), Action::Nothing);
    assert_eq!(connection.step(Event::Close), Action::Nothing);
    assert_eq!(connection.state(), ConnectionState::Terminated);
}

#[test]
fn terminated_accepts_nothing() {
    let mut connection = active(1, "lobby");
    connection.step(Event::Stopped);
    let events = vec![
        Event::Started,
        Event::Text("x".to_owned()),
        Event::Binary(vec![1]),
        Event::Ping(vec![1]),
        Event::Pong(vec![1]),
        Event::Close,
        Event::Malformed,
        Event::TransportError,
        Event::Stopped,
    ];
    for event in events {
        assert_eq!(connection.step(event), Action::Nothing);
        assert_eq!(connection.state(), ConnectionState::Terminated);
        assert!(connection.state().is_terminated());
    }
}

#[test]
fn nothing_is_relayed_before_the_start() {
    let mut connection = Connection::new(1, "lobby".to_owned());
    assert_eq!(connection.step(Event::Text("early".to_owned())), Action::Nothing);
    assert_eq!(connection.step(Event::Ping(vec![1])), Action::Nothing);
    assert_eq!(connection.step(Event::Close), Action::Nothing);
    assert_eq!(connection.step(Event::TransportError), Action::Nothing);
    assert_eq!(connection.state(), ConnectionState::Starting);
    assert!(!connection.state().is_terminated());
}

#[test]
fn stop_before_start_terminates_without_leave() {
    let mut connection = Connection::new(1, "lobby".to_owned());
    assert_eq!(connection.step(Event::Stopped), Action::Nothing);
    assert_eq!(connection.state(), ConnectionState::Terminated);
    assert_eq!(connection.step(Event::Started), Action::Nothing);
    assert_eq!(connection.state(), ConnectionState::Terminated);
}

#[test]
fn join_then_disconnect_leaves_the_room_absent() {
    let mut registry = Registry::new();
    let mut connection = Connection::new(1, "lobby".to_owned());
    let action = connection.step(Event::Started);
    perform(&mut registry, &connection, &action);
    assert!(registry.contains("lobby", 1));
    let action = connection.step(Event::Stopped);
    perform(&mut registry, &connection, &action);
    assert!(!registry.contains_room("lobby"));
    assert!(registry.members("lobby").is_empty());
    assert!(registry.is_empty());
}

#[test]
fn close_and_disconnect_together_leave_once() {
    let mut registry = Registry::new();
    let mut one = Connection::new(1, "lobby".to_owned());
    let mut two = Connection::new(2, "lobby".to_owned());
    let action = one.step(Event::Started);
    perform(&mut registry, &one, &action);
    let action = two.step(Event::Started);
    perform(&mut registry, &two, &action);

    let events = vec![Event::Close, Event::TransportError, Event::Stopped, Event::Stopped];
    let mut leaves = 0;
    for event in events {
        let action = one.step(event);
        if action == Action::Leave {
            leaves += 1;
        }
        perform(&mut registry, &one, &action);
    }
    assert_eq!(leaves, 1);
    assert!(!registry.contains("lobby", 1));
    assert!(registry.contains("lobby", 2));
}

#[test]
fn ping_does_not_touch_the_registry() {
    let mut registry = Registry::new();
    let mut connection = Connection::new(1, "lobby".to_owned());
    let action = connection.step(Event::Started);
    perform(&mut registry, &connection, &action);
    let action = connection.step(Event::Ping(vec![0x01, 0x02]));
    perform(&mut registry, &connection, &action);
    assert_eq!(action, Action::Pong(vec![0x01, 0x02]));
    assert!(registry.contains("lobby", 1));
    assert_eq!(registry.members("lobby").len(), 1);
}
