use signaling_relay::{ConnectionHandle, Registry};
use std::sync::mpsc::{channel, Receiver, Sender};

fn handle(id: usize, room: &str) -> ConnectionHandle<u32> {
    ConnectionHandle { id, room: room.to_owned(), sink: 1000 + id as u32 }
}

fn ids_of<S>(snapshot: &[&ConnectionHandle<S>]) -> Vec<usize> {
    let mut ids: Vec<usize> = snapshot.iter().map(|h| h.id).collect();
    ids.sort();
    ids
}

fn peer(id: usize, room: &str) -> (ConnectionHandle<Sender<String>>, Receiver<String>) {
    let (sink, inbox) = channel();
    (ConnectionHandle { id, room: room.to_owned(), sink }, inbox)
}

fn send(registry: &Registry<Sender<String>>, room: &str, sender: usize, payload: &str) {
    for delivery in registry.fan_out(room, sender, payload) {
        let _ = delivery.to.sink.send(delivery.payload);
    }
}

fn drain(inbox: &Receiver<String>) -> Vec<String> {
    inbox.try_iter().collect()
}

#[test]
fn new_registry_is_empty() {
    let registry: Registry<u32> = Registry::new();
    assert!(registry.is_empty());
    assert!(!registry.contains_room("lobby"));
    assert!(registry.members("lobby").is_empty());
    assert!(registry.broadcast_targets("lobby", 1).is_empty());
}

#[test]
fn join_creates_the_room() {
    let mut registry = Registry::new();
    registry.join(handle(1, "lobby"));
    assert!(!registry.is_empty());
    assert!(registry.contains_room("lobby"));
    assert!(registry.contains("lobby", 1));
    assert!(!registry.contains("lobby", 2));
    assert!(!registry.contains("other", 1));
    let members = registry.members("lobby");
    assert_eq!(ids_of(&members), vec![1]);
    assert_eq!(members[0].sink, 1001);
    assert_eq!(members[0].room, "lobby");
}

#[test]
fn broadcast_from_a_reaches_b_and_c_only() {
    let mut registry = Registry::new();
    registry.join(handle(10, "r"));
    registry.join(handle(20, "r"));
    registry.join(handle(30, "r"));
    let targets = registry.broadcast_targets("r", 10);
    assert_eq!(ids_of(&targets), vec![20, 30]);
    for target in &targets {
        assert_eq!(target.sink, 1000 + target.id as u32);
        assert_eq!(target.room, "r");
    }
    assert_eq!(ids_of(&registry.broadcast_targets("r", 20)), vec![10, 30]);
    assert_eq!(ids_of(&registry.broadcast_targets("r", 30)), vec![10, 20]);
}

#[test]
fn broadcast_from_a_stranger_reaches_every_member() {
    let mut registry = Registry::new();
    registry.join(handle(1, "r"));
    registry.join(handle(2, "r"));
    assert_eq!(ids_of(&registry.broadcast_targets("r", 99)), vec![1, 2]);
}

#[test]
fn broadcast_targets_of_unknown_room_is_empty() {
    let mut registry = Registry::new();
    registry.join(handle(1, "a"));
    assert!(registry.broadcast_targets("b", 1).is_empty());
    assert!(registry.broadcast_targets("b", 2).is_empty());
}

#[test]
fn sole_member_has_no_targets() {
    let mut registry = Registry::new();
    registry.join(handle(1, "a"));
    assert!(registry.broadcast_targets("a", 1).is_empty());
    assert!(registry.fan_out("a", 1, "x").is_empty());
}

#[test]
fn leave_is_idempotent() {
    let mut registry = Registry::new();
    registry.join(handle(1, "lobby"));
    registry.join(handle(2, "lobby"));
    registry.leave("lobby", 1);
    assert_eq!(ids_of(&registry.members("lobby")), vec![2]);
    registry.leave("lobby", 1);
    assert_eq!(ids_of(&registry.members("lobby")), vec![2]);
    assert!(registry.contains_room("lobby"));
    registry.leave("lobby", 2);
    registry.leave("lobby", 2);
    assert!(!registry.contains_room("lobby"));
    assert!(registry.is_empty());
}

#[test]
fn leave_of_unknown_room_or_id_does_nothing() {
    let mut registry = Registry::new();
    registry.leave("nowhere", 7);
    assert!(registry.is_empty());
    registry.join(handle(1, "lobby"));
    registry.leave("nowhere", 1);
    registry.leave("lobby", 7);
    assert_eq!(ids_of(&registry.members("lobby")), vec![1]);
    assert!(!registry.contains_room("nowhere"));
}

#[test]
fn join_then_leave_leaves_no_residue() {
    let mut registry = Registry::new();
    registry.join(handle(1, "lobby"));
    registry.join(handle(2, "den"));

    registry.join(handle(3, "lobby"));
    registry.leave("lobby", 3);
    assert_eq!(ids_of(&registry.members("lobby")), vec![1]);
    assert_eq!(ids_of(&registry.members("den")), vec![2]);

    registry.join(handle(4, "attic"));
    registry.leave("attic", 4);
    assert!(!registry.contains_room("attic"));
    assert!(registry.members("attic").is_empty());
    assert_eq!(ids_of(&registry.members("lobby")), vec![1]);
    assert_eq!(ids_of(&registry.members("den")), vec![2]);
}

#[test]
fn last_member_takes_the_room_along() {
    let mut registry = Registry::new();
    registry.join(handle(1, "a"));
    registry.join(handle(2, "a"));
    registry.join(handle(3, "b"));
    registry.leave("a", 1);
    assert!(registry.contains_room("a"));
    registry.leave("a", 2);
    assert!(!registry.contains_room("a"));
    assert!(registry.contains_room("b"));
    registry.leave("b", 3);
    assert!(!registry.contains_room("b"));
    assert!(registry.is_empty());
}

#[test]
fn no_room_is_ever_empty() {
    let mut registry = Registry::new();
    let rooms = ["a", "b", "c"];
    let check = |registry: &Registry<u32>| {
        for room in rooms {
            assert_eq!(registry.contains_room(room), !registry.members(room).is_empty());
        }
    };
    let joins = [(1, "a"), (2, "b"), (3, "a"), (4, "c"), (5, "b")];
    for (id, room) in joins {
        registry.join(handle(id, room));
        check(&registry);
    }
    let leaves = [(3, "a"), (9, "a"), (1, "a"), (1, "a"), (4, "c"), (2, "b"), (5, "b"), (5, "c")];
    for (id, room) in leaves {
        registry.leave(room, id);
        check(&registry);
    }
    assert!(registry.is_empty());
}

#[test]
fn joins_in_any_order_give_the_same_room() {
    let orders: [[usize; 4]; 4] = [[1, 2, 3, 4], [4, 3, 2, 1], [2, 4, 1, 3], [3, 1, 4, 2]];
    for order in orders {
        let mut registry = Registry::new();
        for id in order {
            registry.join(handle(id, "lobby"));
        }
        let members = registry.members("lobby");
        assert_eq!(members.len(), 4);
        assert_eq!(ids_of(&members), vec![1, 2, 3, 4]);
        for member in &members {
            assert_eq!(member.sink, 1000 + member.id as u32);
        }
    }
}

#[test]
fn join_with_a_known_id_overwrites() {
    let mut registry = Registry::new();
    registry.join(handle(1, "lobby"));
    registry.join(handle(2, "lobby"));
    registry.join(ConnectionHandle { id: 1, room: "lobby".to_owned(), sink: 77 });
    let members = registry.members("lobby");
    assert_eq!(ids_of(&members), vec![1, 2]);
    let first = members.iter().find(|h| h.id == 1).unwrap();
    assert_eq!(first.sink, 77);
    registry.leave("lobby", 1);
    assert!(!registry.contains("lobby", 1));
}

#[test]
fn room_names_are_case_sensitive_and_may_be_any_text() {
    let mut registry = Registry::new();
    registry.join(handle(1, "Lobby"));
    registry.join(handle(2, "lobby"));
    registry.join(handle(3, "salle à manger ☕"));
    registry.join(handle(4, ""));
    assert_eq!(ids_of(&registry.members("Lobby")), vec![1]);
    assert_eq!(ids_of(&registry.members("lobby")), vec![2]);
    assert_eq!(ids_of(&registry.members("salle à manger ☕")), vec![3]);
    assert_eq!(ids_of(&registry.members("")), vec![4]);
    assert!(registry.broadcast_targets("lobby", 1).len() == 1);
    registry.leave("LOBBY", 1);
    assert!(registry.contains("Lobby", 1));
}

#[test]
fn one_id_in_two_rooms_is_two_entries() {
    let mut registry = Registry::new();
    registry.join(handle(1, "a"));
    registry.join(handle(1, "b"));
    registry.leave("a", 1);
    assert!(!registry.contains_room("a"));
    assert!(registry.contains("b", 1));
}

#[test]
fn lobby_hello_reaches_two_and_three() {
    let mut registry = Registry::new();
    let (h1, inbox1) = peer(1, "lobby");
    let (h2, inbox2) = peer(2, "lobby");
    let (h3, inbox3) = peer(3, "lobby");
    registry.join(h1);
    registry.join(h2);
    registry.join(h3);
    send(&registry, "lobby", 1, "hello");
    assert_eq!(drain(&inbox2), vec!["hello".to_owned()]);
    assert_eq!(drain(&inbox3), vec!["hello".to_owned()]);
    assert!(drain(&inbox1).is_empty());
}

#[test]
fn rooms_are_isolated() {
    let mut registry = Registry::new();
    let (h1, inbox1) = peer(1, "a");
    let (h2, inbox2) = peer(2, "b");
    registry.join(h1);
    registry.join(h2);
    send(&registry, "a", 1, "x");
    assert!(drain(&inbox2).is_empty());
    assert!(drain(&inbox1).is_empty());
}

#[test]
fn a_failed_delivery_does_not_stop_the_others() {
    let mut registry = Registry::new();
    let (h1, inbox1) = peer(1, "lobby");
    let (h2, inbox2) = peer(2, "lobby");
    let (h3, inbox3) = peer(3, "lobby");
    registry.join(h1);
    registry.join(h2);
    registry.join(h3);
    drop(inbox2);
    send(&registry, "lobby", 1, "still there?");
    assert_eq!(drain(&inbox3), vec!["still there?".to_owned()]);
    assert!(drain(&inbox1).is_empty());
}

#[test]
fn departed_peer_receives_nothing_more() {
    let mut registry = Registry::new();
    let (h1, _inbox1) = peer(1, "lobby");
    let (h2, inbox2) = peer(2, "lobby");
    let (h3, inbox3) = peer(3, "lobby");
    registry.join(h1);
    registry.join(h2);
    registry.join(h3);
    send(&registry, "lobby", 1, "one");
    registry.leave("lobby", 2);
    send(&registry, "lobby", 1, "two");
    assert_eq!(drain(&inbox2), vec!["one".to_owned()]);
    assert_eq!(drain(&inbox3), vec!["one".to_owned(), "two".to_owned()]);
}

#[test]
fn fan_out_gives_each_recipient_the_payload() {
    let mut registry = Registry::new();
    registry.join(handle(1, "lobby"));
    registry.join(handle(2, "lobby"));
    registry.join(handle(3, "lobby"));
    registry.join(handle(4, "den"));
    let deliveries = registry.fan_out("lobby", 2, "offer");
    let mut to: Vec<usize> = deliveries.iter().map(|d| d.to.id).collect();
    to.sort();
    assert_eq!(to, vec![1, 3]);
    for delivery in &deliveries {
        assert_eq!(delivery.payload, "offer");
    }
}
