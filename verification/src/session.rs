//! A connection's life as the registry sees it: what the registry holds
//! after the caller has done, event by event, what the connection asked for.

use crate::connection::{action_for, next_state, Action, ConnectionState, Event};
use crate::model::{is_member, join_spec, leave_spec, no_empty_room};
use crate::model::{lemma_join_keeps_rooms_inhabited, lemma_join_then_leave};
use vstd::prelude::*;

verus! {

/// The registry after the caller did what `action` asks, for the connection
/// `id` of `room` with `sink`. Only `Join` and `Leave` touch the registry.
pub open spec fn performed<S>(
    rooms: Map<Seq<char>, Map<usize, S>>,
    room: Seq<char>,
    id: usize,
    sink: S,
    action: Action,
) -> Map<Seq<char>, Map<usize, S>> {
    match action {
        Action::Join => join_spec(rooms, room, id, sink),
        Action::Leave => leave_spec(rooms, room, id),
        _ => rooms,
    }
}

/// The state of a connection that was in `state`, and the registry that was
/// `rooms`, after `events` arrived one by one and each action was performed.
pub open spec fn after_events<S>(
    state: ConnectionState,
    rooms: Map<Seq<char>, Map<usize, S>>,
    room: Seq<char>,
    id: usize,
    sink: S,
    events: Seq<Event>,
) -> (ConnectionState, Map<Seq<char>, Map<usize, S>>)
    decreases events.len(),
{
    if events.len() == 0 {
        (state, rooms)
    } else {
        let before = after_events(state, rooms, room, id, sink, events.drop_last());
        (
            next_state(before.0, events.last()),
            performed(before.1, room, id, sink, action_for(before.0, events.last())),
        )
    }
}

/// A connection with an id new to its room is registered exactly while it is
/// active or stopping. Whatever events arrive, a connection that has not
/// started or has terminated leaves the registry as it was before it came,
/// and one in between is in it as the one member it added.
pub proof fn lemma_registered_while_alive<S>(
    rooms: Map<Seq<char>, Map<usize, S>>,
    room: Seq<char>,
    id: usize,
    sink: S,
    events: Seq<Event>,
)
    requires
        no_empty_room(rooms),
        !is_member(rooms, room, id),
    ensures
        ({
            let end = after_events(ConnectionState::Starting, rooms, room, id, sink, events);
            match end.0 {
                ConnectionState::Starting | ConnectionState::Terminated => end.1 == rooms,
                ConnectionState::Active | ConnectionState::Stopping => end.1 == join_spec(
                    rooms,
                    room,
                    id,
                    sink,
                ),
            }
        }),
    decreases events.len(),
{
    if events.len() > 0 {
        lemma_registered_while_alive(rooms, room, id, sink, events.drop_last());
        lemma_join_then_leave(rooms, room, id, sink);
        lemma_join_keeps_rooms_inhabited(rooms, room, id, sink);
    }
}

/// A ping changes neither the connection's state nor the registry.
pub proof fn lemma_ping_changes_nothing<S>(
    rooms: Map<Seq<char>, Map<usize, S>>,
    room: Seq<char>,
    id: usize,
    sink: S,
    state: ConnectionState,
    payload: Vec<u8>,
)
    ensures
        next_state(state, Event::Ping(payload)) == state,
        performed(rooms, room, id, sink, action_for(state, Event::Ping(payload))) == rooms,
        state == ConnectionState::Active ==> action_for(state, Event::Ping(payload))
            == Action::Pong(payload),
{
}

} // verus!
