//! The registry as mathematics: a map from room name to the room's members,
//! each member a connection id with its sink, and what joining and leaving do
//! to it.

use vstd::prelude::*;

verus! {

/// The members of `room` in `rooms`; the empty map for an absent room.
pub open spec fn members_of<S>(
    rooms: Map<Seq<char>, Map<usize, S>>,
    room: Seq<char>,
) -> Map<usize, S> {
    if rooms.contains_key(room) {
        rooms[room]
    } else {
        Map::empty()
    }
}

/// Whether connection `id` is a member of `room`.
pub open spec fn is_member<S>(
    rooms: Map<Seq<char>, Map<usize, S>>,
    room: Seq<char>,
    id: usize,
) -> bool {
    rooms.contains_key(room) && rooms[room].contains_key(id)
}

/// No room of `rooms` is without members.
pub open spec fn no_empty_room<S>(rooms: Map<Seq<char>, Map<usize, S>>) -> bool {
    forall|room: Seq<char>| #[trigger] rooms.contains_key(room) ==> !rooms[room].is_empty()
}

/// The registry after connection `id` with `sink` joined `room`: the room is
/// created if absent, and an earlier entry under the same id is overwritten.
pub open spec fn join_spec<S>(
    rooms: Map<Seq<char>, Map<usize, S>>,
    room: Seq<char>,
    id: usize,
    sink: S,
) -> Map<Seq<char>, Map<usize, S>> {
    rooms.insert(room, members_of(rooms, room).insert(id, sink))
}

/// The registry after connection `id` left `room`: unchanged where it was no
/// member, and without the room where it was the last one.
pub open spec fn leave_spec<S>(
    rooms: Map<Seq<char>, Map<usize, S>>,
    room: Seq<char>,
    id: usize,
) -> Map<Seq<char>, Map<usize, S>> {
    if !is_member(rooms, room, id) {
        rooms
    } else if rooms[room].remove(id).is_empty() {
        rooms.remove(room)
    } else {
        rooms.insert(room, rooms[room].remove(id))
    }
}

/// No connection is a member of two rooms.
pub open spec fn one_room_per_id<S>(rooms: Map<Seq<char>, Map<usize, S>>) -> bool {
    forall|a: Seq<char>, b: Seq<char>, id: usize|
        #![trigger is_member(rooms, a, id), is_member(rooms, b, id)]
        is_member(rooms, a, id) && is_member(rooms, b, id) ==> a == b
}

/// One change to the registry.
pub ghost enum Operation<S> {
    /// Connection `id` with `sink` joins `room`.
    Join { room: Seq<char>, id: usize, sink: S },
    /// Connection `id` leaves `room`.
    Leave { room: Seq<char>, id: usize },
}

/// The registry after one operation.
pub open spec fn apply<S>(
    rooms: Map<Seq<char>, Map<usize, S>>,
    op: Operation<S>,
) -> Map<Seq<char>, Map<usize, S>> {
    match op {
        Operation::Join { room, id, sink } => join_spec(rooms, room, id, sink),
        Operation::Leave { room, id } => leave_spec(rooms, room, id),
    }
}

/// The registry after the operations `ops`, first to last.
pub open spec fn apply_all<S>(
    rooms: Map<Seq<char>, Map<usize, S>>,
    ops: Seq<Operation<S>>,
) -> Map<Seq<char>, Map<usize, S>>
    decreases ops.len(),
{
    if ops.len() == 0 {
        rooms
    } else {
        apply(apply_all(rooms, ops.drop_last()), ops.last())
    }
}

/// The registry after the connections of `joiners`, each an id with its
/// sink, joined `room` one after the other.
pub open spec fn join_all<S>(
    rooms: Map<Seq<char>, Map<usize, S>>,
    room: Seq<char>,
    joiners: Seq<(usize, S)>,
) -> Map<Seq<char>, Map<usize, S>>
    decreases joiners.len(),
{
    if joiners.len() == 0 {
        rooms
    } else {
        join_spec(
            join_all(rooms, room, joiners.drop_last()),
            room,
            joiners.last().0,
            joiners.last().1,
        )
    }
}

/// No id occurs twice among `joiners`.
pub open spec fn distinct_ids<S>(joiners: Seq<(usize, S)>) -> bool {
    forall|k: int, l: int| 0 <= k < l < joiners.len() ==> joiners[k].0 != joiners[l].0
}

/// Whether `id` is the id of one of `joiners`.
pub open spec fn joins<S>(joiners: Seq<(usize, S)>, id: usize) -> bool {
    exists|k: int| 0 <= k < joiners.len() && #[trigger] joiners[k].0 == id
}

/// Joining leaves no room without members.
pub proof fn lemma_join_keeps_rooms_inhabited<S>(
    rooms: Map<Seq<char>, Map<usize, S>>,
    room: Seq<char>,
    id: usize,
    sink: S,
)
    requires
        no_empty_room(rooms),
    ensures
        no_empty_room(join_spec(rooms, room, id, sink)),
        is_member(join_spec(rooms, room, id, sink), room, id),
{
    let after = join_spec(rooms, room, id, sink);
    assert(after[room].dom().contains(id));
    assert forall|r: Seq<char>| #[trigger] after.contains_key(r) implies !after[r].is_empty() by {
        if r != room {
            assert(rooms.contains_key(r));
        }
    }
}

/// Leaving leaves no room without members: the room that loses its last
/// member goes with it.
pub proof fn lemma_leave_keeps_rooms_inhabited<S>(
    rooms: Map<Seq<char>, Map<usize, S>>,
    room: Seq<char>,
    id: usize,
)
    requires
        no_empty_room(rooms),
    ensures
        no_empty_room(leave_spec(rooms, room, id)),
        !is_member(leave_spec(rooms, room, id), room, id),
{
    let after = leave_spec(rooms, room, id);
    assert forall|r: Seq<char>| #[trigger] after.contains_key(r) implies !after[r].is_empty() by {
        if r != room {
            assert(rooms.contains_key(r));
        }
    }
}

/// Whatever joins and leaves are applied to a registry without empty rooms,
/// in whatever order, it has no empty room after any of them.
pub proof fn lemma_never_an_empty_room<S>(
    rooms: Map<Seq<char>, Map<usize, S>>,
    ops: Seq<Operation<S>>,
)
    requires
        no_empty_room(rooms),
    ensures
        forall|n: int|
            0 <= n <= ops.len() ==> no_empty_room(#[trigger] apply_all(rooms, ops.take(n))),
    decreases ops.len(),
{
    assert forall|n: int| 0 <= n <= ops.len() implies no_empty_room(
        #[trigger] apply_all(rooms, ops.take(n)),
    ) by {
        let prefix = ops.take(n);
        if n > 0 {
            lemma_never_an_empty_room(rooms, prefix.drop_last());
            assert(prefix.drop_last().take(n - 1) =~= prefix.drop_last());
            let before = apply_all(rooms, prefix.drop_last());
            match prefix.last() {
                Operation::Join { room, id, sink } => {
                    lemma_join_keeps_rooms_inhabited(before, room, id, sink);
                },
                Operation::Leave { room, id } => {
                    lemma_leave_keeps_rooms_inhabited(before, room, id);
                },
            }
        }
    }
}

/// A connection that joins with an id that no other room knows leaves every
/// id in one room only.
pub proof fn lemma_join_keeps_one_room_per_id<S>(
    rooms: Map<Seq<char>, Map<usize, S>>,
    room: Seq<char>,
    id: usize,
    sink: S,
)
    requires
        one_room_per_id(rooms),
        forall|other: Seq<char>| other != room ==> !is_member(rooms, other, id),
    ensures
        one_room_per_id(join_spec(rooms, room, id, sink)),
{
    let after = join_spec(rooms, room, id, sink);
    assert forall|a: Seq<char>, b: Seq<char>, m: usize|
        #![trigger is_member(after, a, m), is_member(after, b, m)]
        is_member(after, a, m) && is_member(after, b, m) implies a == b by {
        if m != id {
            assert(is_member(rooms, a, m) && is_member(rooms, b, m));
        } else {
            if a != room {
                assert(is_member(rooms, a, id));
            }
            if b != room {
                assert(is_member(rooms, b, id));
            }
        }
    }
}

/// Leaving leaves every id in one room only.
pub proof fn lemma_leave_keeps_one_room_per_id<S>(
    rooms: Map<Seq<char>, Map<usize, S>>,
    room: Seq<char>,
    id: usize,
)
    requires
        one_room_per_id(rooms),
    ensures
        one_room_per_id(leave_spec(rooms, room, id)),
{
    let after = leave_spec(rooms, room, id);
    assert forall|a: Seq<char>, b: Seq<char>, m: usize|
        #![trigger is_member(after, a, m), is_member(after, b, m)]
        is_member(after, a, m) && is_member(after, b, m) implies a == b by {
        assert(is_member(rooms, a, m) && is_member(rooms, b, m));
    }
}

/// Leaving twice is leaving once.
pub proof fn lemma_leave_idempotent<S>(
    rooms: Map<Seq<char>, Map<usize, S>>,
    room: Seq<char>,
    id: usize,
)
    ensures
        leave_spec(leave_spec(rooms, room, id), room, id) == leave_spec(rooms, room, id),
{
}

/// A connection that joins a room it was not in and leaves it at once
/// leaves the registry as it found it.
pub proof fn lemma_join_then_leave<S>(
    rooms: Map<Seq<char>, Map<usize, S>>,
    room: Seq<char>,
    id: usize,
    sink: S,
)
    requires
        no_empty_room(rooms),
        !is_member(rooms, room, id),
    ensures
        leave_spec(join_spec(rooms, room, id, sink), room, id) == rooms,
{
    let joined = join_spec(rooms, room, id, sink);
    let rest = joined[room].remove(id);
    assert(rest =~= members_of(rooms, room));
    if rooms.contains_key(room) {
        assert(!rest.is_empty());
        assert(joined.insert(room, rest) =~= rooms);
    } else {
        assert(rest.is_empty());
        assert(joined.remove(room) =~= rooms);
    }
}

/// What a room holds after connections with distinct ids joined it: its
/// earlier members and the joiners, each joiner with its own sink, and every
/// other room as before.
pub proof fn lemma_join_all<S>(
    rooms: Map<Seq<char>, Map<usize, S>>,
    room: Seq<char>,
    joiners: Seq<(usize, S)>,
)
    requires
        distinct_ids(joiners),
    ensures
        forall|r: Seq<char>|
            r != room ==> (#[trigger] join_all(rooms, room, joiners).contains_key(r)
                <==> rooms.contains_key(r)),
        forall|r: Seq<char>|
            r != room && rooms.contains_key(r) ==> #[trigger] join_all(rooms, room, joiners)[r]
                == rooms[r],
        forall|id: usize| #[trigger]
            members_of(join_all(rooms, room, joiners), room).contains_key(id) <==> (members_of(
                rooms,
                room,
            ).contains_key(id) || joins(joiners, id)),
        forall|k: int|
            0 <= k < joiners.len() ==> members_of(join_all(rooms, room, joiners), room)[(
            #[trigger] joiners[k]).0] == joiners[k].1,
        forall|id: usize|
            members_of(rooms, room).contains_key(id) && !joins(joiners, id)
                ==> #[trigger] members_of(join_all(rooms, room, joiners), room)[id]
                == members_of(rooms, room)[id],
    decreases joiners.len(),
{
    if joiners.len() > 0 {
        let earlier = joiners.drop_last();
        let last = joiners.last();
        lemma_join_all(rooms, room, earlier);
        let before = join_all(rooms, room, earlier);
        let after = join_all(rooms, room, joiners);
        assert(after == join_spec(before, room, last.0, last.1));
        assert forall|id: usize| #[trigger]
            members_of(after, room).contains_key(id) <==> (members_of(rooms, room).contains_key(id)
                || joins(joiners, id)) by {
            if joins(earlier, id) {
                let k = choose|k: int| 0 <= k < earlier.len() && #[trigger] earlier[k].0 == id;
                assert(joiners[k].0 == id);
            }
            if id == last.0 {
                assert(joiners[joiners.len() - 1].0 == id);
            }
            if joins(joiners, id) {
                let k = choose|k: int| 0 <= k < joiners.len() && #[trigger] joiners[k].0 == id;
                if k < earlier.len() {
                    assert(earlier[k].0 == id);
                }
            }
        }
        assert forall|k: int| 0 <= k < joiners.len() implies members_of(after, room)[(
        #[trigger] joiners[k]).0] == joiners[k].1 by {
            if k < earlier.len() {
                assert(earlier[k] == joiners[k]);
            }
        }
        assert forall|id: usize|
            members_of(rooms, room).contains_key(id) && !joins(joiners, id)
            implies #[trigger] members_of(after, room)[id] == members_of(rooms, room)[id] by {
            assert(id != last.0) by {
                if id == last.0 {
                    assert(joiners[joiners.len() - 1].0 == id);
                }
            }
            if joins(earlier, id) {
                let k = choose|k: int| 0 <= k < earlier.len() && #[trigger] earlier[k].0 == id;
                assert(joiners[k].0 == id);
            }
        }
    }
}

/// Connections with distinct ids that join one room end in the same
/// registry whatever the order in which their joins are applied: no join is
/// lost, and the room holds exactly its earlier members and the joiners.
pub proof fn lemma_join_order_is_irrelevant<S>(
    rooms: Map<Seq<char>, Map<usize, S>>,
    room: Seq<char>,
    first: Seq<(usize, S)>,
    second: Seq<(usize, S)>,
)
    requires
        distinct_ids(first),
        distinct_ids(second),
        forall|k: int| 0 <= k < first.len() ==> second.contains(#[trigger] first[k]),
        forall|k: int| 0 <= k < second.len() ==> first.contains(#[trigger] second[k]),
    ensures
        join_all(rooms, room, first) == join_all(rooms, room, second),
        members_of(join_all(rooms, room, first), room).dom() == members_of(rooms, room).dom().union(
            Set::new(|id: usize| joins(first, id)),
        ),
{
    let a = join_all(rooms, room, first);
    let b = join_all(rooms, room, second);
    lemma_join_all(rooms, room, first);
    lemma_join_all(rooms, room, second);
    assert forall|id: usize| joins(first, id) <==> joins(second, id) by {
        if joins(first, id) {
            let k = choose|k: int| 0 <= k < first.len() && #[trigger] first[k].0 == id;
            assert(second.contains(first[k]));
            let l = choose|l: int| 0 <= l < second.len() && second[l] == first[k];
            assert(second[l].0 == id);
        }
        if joins(second, id) {
            let k = choose|k: int| 0 <= k < second.len() && #[trigger] second[k].0 == id;
            assert(first.contains(second[k]));
            let l = choose|l: int| 0 <= l < first.len() && first[l] == second[k];
            assert(first[l].0 == id);
        }
    }
    assert(a.contains_key(room) <==> b.contains_key(room)) by {
        if first.len() > 0 {
            assert(second.contains(first[0]));
        }
        if second.len() > 0 {
            assert(first.contains(second[0]));
        }
    }
    assert forall|r: Seq<char>| a.contains_key(r) <==> b.contains_key(r) by {
        if r != room {
            assert(a.contains_key(r) <==> rooms.contains_key(r));
            assert(b.contains_key(r) <==> rooms.contains_key(r));
        }
    }
    assert forall|r: Seq<char>| a.contains_key(r) implies a[r] == b[r] by {
        if r != room {
            assert(a.contains_key(r) <==> rooms.contains_key(r));
            assert(a[r] == rooms[r]);
            assert(b[r] == rooms[r]);
        } else {
            assert forall|id: usize| a[room].contains_key(id) <==> b[room].contains_key(id) by {
                assert(members_of(a, room).contains_key(id) <==> members_of(b, room).contains_key(
                    id,
                ));
            }
            assert forall|id: usize| a[room].contains_key(id) implies a[room][id]
                == b[room][id] by {
                assert(members_of(a, room).contains_key(id));
                if joins(first, id) {
                    let k = choose|k: int| 0 <= k < first.len() && #[trigger] first[k].0 == id;
                    assert(second.contains(first[k]));
                    let l = choose|l: int| 0 <= l < second.len() && second[l] == first[k];
                    assert(members_of(a, room)[first[k].0] == first[k].1);
                    assert(members_of(b, room)[second[l].0] == second[l].1);
                } else {
                    assert(members_of(a, room)[id] == members_of(rooms, room)[id]);
                    assert(members_of(b, room)[id] == members_of(rooms, room)[id]);
                }
            }
            assert(a[room] =~= b[room]);
        }
    }
    assert(a =~= b);
    assert(members_of(a, room).dom() =~= members_of(rooms, room).dom().union(
        Set::new(|id: usize| joins(first, id)),
    ));
}

} // verus!
