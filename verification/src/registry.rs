//! The room registry: which connection is in which room.
//!
//! The registry is modelled as a map from room name to the room's members,
//! each member a connection id with its sink. A room is present in the model
//! exactly when it has a member, so a room that loses its last member is gone.

use crate::model::{is_member, join_spec, leave_spec, members_of, no_empty_room};
use vstd::prelude::*;

verus! {

/// One connected peer: its identity, its room and the capability to send to it.
///
/// The sink is opaque to the registry, which stores it and hands it back.
#[derive(Debug)]
pub struct ConnectionHandle<S> {
    /// Unique among the connections of the process.
    pub id: usize,
    /// The room the connection belongs to for its whole life.
    pub room: String,
    /// Where payloads for this connection are delivered.
    pub sink: S,
}

/// The ids of a snapshot, as a set.
pub open spec fn snapshot_ids<S>(snapshot: Seq<&ConnectionHandle<S>>) -> Set<usize> {
    Set::new(|id: usize| exists|k: int| 0 <= k < snapshot.len() && #[trigger] snapshot[k].id == id)
}

/// `snapshot` holds each member of `room` in `rooms` once, with its sink,
/// but for the member `excluding`, and nothing else.
pub open spec fn is_snapshot<S>(
    rooms: Map<Seq<char>, Map<usize, S>>,
    room: Seq<char>,
    excluding: Option<usize>,
    snapshot: Seq<&ConnectionHandle<S>>,
) -> bool {
    &&& forall|k: int|
        0 <= k < snapshot.len() ==> {
            &&& (#[trigger] snapshot[k]).room@ == room
            &&& Some(snapshot[k].id) != excluding
            &&& is_member(rooms, room, snapshot[k].id)
            &&& rooms[room][snapshot[k].id] == snapshot[k].sink
        }
    &&& forall|k: int, l: int|
        0 <= k < l < snapshot.len() ==> (#[trigger] snapshot[k]).id != (#[trigger] snapshot[l]).id
    &&& forall|id: usize|
        is_member(rooms, room, id) && Some(id) != excluding ==> #[trigger] snapshot_ids(
            snapshot,
        ).contains(id)
}

/// One payload on its way to one connection.
pub struct Delivery<'a, S> {
    /// The connection the payload is for.
    pub to: &'a ConnectionHandle<S>,
    /// The payload, a copy of its own for each recipient.
    pub payload: String,
}

/// The connections that `deliveries` go to, in order.
pub open spec fn recipients<'a, S>(deliveries: Seq<Delivery<'a, S>>) -> Seq<
    &'a ConnectionHandle<S>,
> {
    Seq::new(deliveries.len(), |k: int| deliveries[k].to)
}

spec fn in_room<S>(es: Seq<ConnectionHandle<S>>, room: Seq<char>, i: int) -> bool {
    0 <= i < es.len() && es[i].room@ == room
}

spec fn is_entry<S>(es: Seq<ConnectionHandle<S>>, room: Seq<char>, id: usize, i: int) -> bool {
    in_room(es, room, i) && es[i].id == id
}

spec fn distinct<S>(es: Seq<ConnectionHandle<S>>) -> bool {
    forall|i: int, j: int|
        0 <= i < j < es.len() ==> !(es[i].room@ == es[j].room@ && es[i].id == es[j].id)
}

spec fn members_in<S>(es: Seq<ConnectionHandle<S>>, room: Seq<char>) -> Map<usize, S> {
    Map::new(
        |id: usize| exists|i: int| is_entry(es, room, id, i),
        |id: usize| es[choose|i: int| is_entry(es, room, id, i)].sink,
    )
}

spec fn rooms_of<S>(es: Seq<ConnectionHandle<S>>) -> Map<Seq<char>, Map<usize, S>> {
    Map::new(
        |room: Seq<char>| exists|i: int| in_room(es, room, i),
        |room: Seq<char>| members_in(es, room),
    )
}

/// Entry `i` is found in the model under its room and id, with its sink.
proof fn lemma_entry_in_model<S>(es: Seq<ConnectionHandle<S>>, i: int)
    requires
        distinct(es),
        0 <= i < es.len(),
    ensures
        is_member(rooms_of(es), es[i].room@, es[i].id),
        rooms_of(es)[es[i].room@][es[i].id] == es[i].sink,
{
    let room = es[i].room@;
    let id = es[i].id;
    assert(in_room(es, room, i));
    assert(is_entry(es, room, id, i));
    let j = choose|j: int| is_entry(es, room, id, j);
    assert(j == i);
}

/// A member of the model is some entry.
proof fn lemma_member_is_entry<S>(es: Seq<ConnectionHandle<S>>, room: Seq<char>, id: usize) -> (i:
    int)
    requires
        is_member(rooms_of(es), room, id),
    ensures
        is_entry(es, room, id, i),
{
    choose|i: int| is_entry(es, room, id, i)
}

proof fn lemma_no_empty_room<S>(es: Seq<ConnectionHandle<S>>)
    ensures
        no_empty_room(rooms_of(es)),
{
    assert forall|room: Seq<char>| #[trigger] rooms_of(es).contains_key(room) implies !rooms_of(
        es,
    )[room].is_empty() by {
        let i = choose|i: int| in_room(es, room, i);
        assert(is_entry(es, room, es[i].id, i));
        assert(members_in(es, room).dom().contains(es[i].id));
    }
}

/// A map without empty rooms that holds every entry of `es` under its room and
/// id, and nothing else, is the model of `es`.
proof fn lemma_same_model<S>(
    es: Seq<ConnectionHandle<S>>,
    rooms: Map<Seq<char>, Map<usize, S>>,
)
    requires
        distinct(es),
        no_empty_room(rooms),
        forall|i: int|
            0 <= i < es.len() ==> is_member(rooms, #[trigger] es[i].room@, es[i].id)
                && rooms[es[i].room@][es[i].id] == es[i].sink,
        forall|room: Seq<char>, id: usize| #[trigger]
            is_member(rooms, room, id) ==> exists|i: int| is_entry(es, room, id, i),
    ensures
        rooms_of(es) == rooms,
{
    let model = rooms_of(es);
    assert forall|room: Seq<char>| model.contains_key(room) == rooms.contains_key(room) by {
        if model.contains_key(room) {
            let i = choose|i: int| in_room(es, room, i);
            assert(is_member(rooms, es[i].room@, es[i].id));
        }
        if rooms.contains_key(room) {
            assert(!rooms[room].dom().is_empty());
            let id = choose|id: usize| rooms[room].dom().contains(id);
            assert(is_member(rooms, room, id));
            let i = choose|i: int| is_entry(es, room, id, i);
            assert(in_room(es, room, i));
        }
    }
    assert forall|room: Seq<char>| model.contains_key(room) implies model[room] =~= rooms[room] by {
        assert forall|id: usize| model[room].contains_key(id) == rooms[room].contains_key(
            id,
        ) by {
            if model[room].contains_key(id) {
                let i = choose|i: int| is_entry(es, room, id, i);
                assert(is_member(rooms, es[i].room@, es[i].id));
            }
            if rooms[room].contains_key(id) {
                assert(is_member(rooms, room, id));
            }
        }
        assert forall|id: usize| model[room].contains_key(id) implies model[room][id]
            == rooms[room][id] by {
            let i = choose|i: int| is_entry(es, room, id, i);
            lemma_entry_in_model(es, i);
            assert(is_member(rooms, es[i].room@, es[i].id));
        }
    }
    assert(model =~= rooms);
}

proof fn lemma_push<S>(es: Seq<ConnectionHandle<S>>, handle: ConnectionHandle<S>)
    requires
        distinct(es),
        forall|i: int| !is_entry(es, handle.room@, handle.id, i),
    ensures
        distinct(es.push(handle)),
        rooms_of(es.push(handle)) == join_spec(rooms_of(es), handle.room@, handle.id, handle.sink),
{
    let after = es.push(handle);
    let rooms = join_spec(rooms_of(es), handle.room@, handle.id, handle.sink);
    assert(distinct(after)) by {
        assert forall|i: int, j: int| 0 <= i < j < after.len() implies !(after[i].room@
            == after[j].room@ && after[i].id == after[j].id) by {
            if j == es.len() {
                assert(!is_entry(es, handle.room@, handle.id, i));
            }
        }
    }
    lemma_no_empty_room(es);
    assert(rooms[handle.room@].dom().contains(handle.id));
    assert(no_empty_room(rooms));
    assert forall|i: int| 0 <= i < after.len() implies is_member(
        rooms,
        #[trigger] after[i].room@,
        after[i].id,
    ) && rooms[after[i].room@][after[i].id] == after[i].sink by {
        if i < es.len() {
            lemma_entry_in_model(es, i);
            assert(!is_entry(es, handle.room@, handle.id, i));
        }
    }
    assert forall|room: Seq<char>, id: usize| #[trigger]
        is_member(rooms, room, id) implies exists|i: int| is_entry(after, room, id, i) by {
        if room == handle.room@ && id == handle.id {
            assert(is_entry(after, room, id, es.len() as int));
        } else {
            assert(is_member(rooms_of(es), room, id));
            let i = lemma_member_is_entry(es, room, id);
            assert(is_entry(after, room, id, i));
        }
    }
    lemma_same_model(after, rooms);
}

proof fn lemma_overwrite<S>(es: Seq<ConnectionHandle<S>>, k: int, handle: ConnectionHandle<S>)
    requires
        distinct(es),
        is_entry(es, handle.room@, handle.id, k),
    ensures
        distinct(es.update(k, handle)),
        rooms_of(es.update(k, handle)) == join_spec(
            rooms_of(es),
            handle.room@,
            handle.id,
            handle.sink,
        ),
{
    let after = es.update(k, handle);
    let rooms = join_spec(rooms_of(es), handle.room@, handle.id, handle.sink);
    assert(distinct(after)) by {
        assert forall|i: int, j: int| 0 <= i < j < after.len() implies !(after[i].room@
            == after[j].room@ && after[i].id == after[j].id) by {
            assert(after[i].room@ == es[i].room@ && after[i].id == es[i].id);
            assert(after[j].room@ == es[j].room@ && after[j].id == es[j].id);
        }
    }
    lemma_no_empty_room(es);
    assert(rooms[handle.room@].dom().contains(handle.id));
    assert(no_empty_room(rooms));
    assert forall|i: int| 0 <= i < after.len() implies is_member(
        rooms,
        #[trigger] after[i].room@,
        after[i].id,
    ) && rooms[after[i].room@][after[i].id] == after[i].sink by {
        if i != k {
            lemma_entry_in_model(es, i);
            assert(!(es[i].room@ == es[k].room@ && es[i].id == es[k].id));
        }
    }
    assert forall|room: Seq<char>, id: usize| #[trigger]
        is_member(rooms, room, id) implies exists|i: int| is_entry(after, room, id, i) by {
        if room == handle.room@ && id == handle.id {
            assert(is_entry(after, room, id, k));
        } else {
            assert(is_member(rooms_of(es), room, id));
            let i = lemma_member_is_entry(es, room, id);
            assert(is_entry(after, room, id, i));
        }
    }
    lemma_same_model(after, rooms);
}

proof fn lemma_remove<S>(es: Seq<ConnectionHandle<S>>, k: int, room: Seq<char>, id: usize)
    requires
        distinct(es),
        is_entry(es, room, id, k),
    ensures
        distinct(es.remove(k)),
        rooms_of(es.remove(k)) == leave_spec(rooms_of(es), room, id),
{
    let before = rooms_of(es);
    let after = es.remove(k);
    let rooms = leave_spec(before, room, id);
    lemma_entry_in_model(es, k);
    assert(distinct(after)) by {
        assert forall|i: int, j: int| 0 <= i < j < after.len() implies !(after[i].room@
            == after[j].room@ && after[i].id == after[j].id) by {
            let i0 = if i < k { i } else { i + 1 };
            let j0 = if j < k { j } else { j + 1 };
            assert(after[i] == es[i0] && after[j] == es[j0]);
        }
    }
    lemma_no_empty_room(es);
    assert(no_empty_room(rooms)) by {
        assert forall|r: Seq<char>| #[trigger]
            rooms.contains_key(r) implies !rooms[r].is_empty() by {
            if r != room {
                assert(before.contains_key(r));
            }
        }
    }
    assert forall|i: int| 0 <= i < after.len() implies is_member(
        rooms,
        #[trigger] after[i].room@,
        after[i].id,
    ) && rooms[after[i].room@][after[i].id] == after[i].sink by {
        let i0 = if i < k { i } else { i + 1 };
        assert(after[i] == es[i0]);
        lemma_entry_in_model(es, i0);
        assert(!(es[i0].room@ == es[k].room@ && es[i0].id == es[k].id));
        if es[i0].room@ == room {
            assert(before[room].remove(id).dom().contains(es[i0].id));
        }
    }
    assert forall|r: Seq<char>, m: usize| #[trigger] is_member(rooms, r, m) implies exists|i: int|
        is_entry(after, r, m, i) by {
        assert(is_member(before, r, m));
        assert(!(r == room && m == id));
        let i0 = lemma_member_is_entry(es, r, m);
        let i = if i0 < k { i0 } else { i0 - 1 };
        assert(after[i] == es[i0]);
        assert(is_entry(after, r, m, i));
    }
    lemma_same_model(after, rooms);
}

/// The shared store of room membership.
pub struct Registry<S> {
    entries: Vec<ConnectionHandle<S>>,
}

impl<S> View for Registry<S> {
    type V = Map<Seq<char>, Map<usize, S>>;

    /// Room name to members, each member an id with its sink.
    closed spec fn view(&self) -> Map<Seq<char>, Map<usize, S>> {
        rooms_of(self.entries@)
    }
}

impl<S> Registry<S> {
    /// No connection is registered twice under one room and id.
    pub closed spec fn wf(&self) -> bool {
        distinct(self.entries@)
    }

    /// A well-formed registry has no room without members.
    pub proof fn lemma_rooms_have_members(&self)
        requires
            self.wf(),
        ensures
            no_empty_room(self@),
    {
        lemma_no_empty_room(self.entries@);
    }

    /// A registry with no rooms.
    pub fn new() -> (registry: Self)
        ensures
            registry.wf(),
            registry@ == Map::<Seq<char>, Map<usize, S>>::empty(),
    {
        let registry = Registry { entries: Vec::new() };
        assert(registry@ =~= Map::<Seq<char>, Map<usize, S>>::empty());
        registry
    }

    fn position(&self, room: &String, id: usize) -> (found: Option<usize>)
        ensures
            match found {
                Some(k) => is_entry(self.entries@, room@, id, k as int),
                None => forall|i: int| !is_entry(self.entries@, room@, id, i),
            },
    {
        let mut k: usize = 0;
        while k < self.entries.len()
            invariant
                k <= self.entries.len(),
                forall|i: int| 0 <= i < k ==> !is_entry(self.entries@, room@, id, i),
            decreases self.entries.len() - k,
        {
            if self.entries[k].id == id && self.entries[k].room == *room {
                return Some(k);
            }
            k += 1;
        }
        None
    }

    /// Registers `handle` under its room, creating the room if it is absent.
    /// A handle already registered under the same room and id is replaced.
    pub fn join(&mut self, handle: ConnectionHandle<S>)
        requires
            old(self).wf(),
        ensures
            final(self).wf(),
            final(self)@ == join_spec(old(self)@, handle.room@, handle.id, handle.sink),
            no_empty_room(final(self)@),
    {
        match self.position(&handle.room, handle.id) {
            Some(k) => {
                proof {
                    lemma_overwrite(self.entries@, k as int, handle);
                }
                self.entries[k] = handle;
            },
            None => {
                proof {
                    lemma_push(self.entries@, handle);
                }
                self.entries.push(handle);
            },
        }
        proof {
            lemma_no_empty_room(self.entries@);
        }
    }

    /// Removes connection `id` from `room`, and the room with it where it was
    /// the last member. Does nothing where the room or the id is unknown.
    pub fn leave(&mut self, room: &str, id: usize)
        requires
            old(self).wf(),
        ensures
            final(self).wf(),
            final(self)@ == leave_spec(old(self)@, room@, id),
            no_empty_room(final(self)@),
    {
        let name = room.to_owned();
        match self.position(&name, id) {
            Some(k) => {
                proof {
                    lemma_remove(self.entries@, k as int, room@, id);
                }
                self.entries.remove(k);
            },
            None => {
                proof {
                    if is_member(self@, room@, id) {
                        let i = lemma_member_is_entry(self.entries@, room@, id);
                    }
                }
            },
        }
        proof {
            lemma_no_empty_room(self.entries@);
        }
    }

    fn collect(&self, room: &String, excluding: Option<usize>) -> (snapshot: Vec<
        &ConnectionHandle<S>,
    >)
        requires
            self.wf(),
        ensures
            is_snapshot(self@, room@, excluding, snapshot@),
            snapshot_ids(snapshot@) == Set::new(
                |id: usize| is_member(self@, room@, id) && Some(id) != excluding,
            ),
    {
        let mut snapshot: Vec<&ConnectionHandle<S>> = Vec::new();
        let mut k: usize = 0;
        while k < self.entries.len()
            invariant
                self.wf(),
                k <= self.entries.len(),
                forall|j: int|
                    0 <= j < snapshot.len() ==> exists|i: int|
                        0 <= i < k && *(#[trigger] snapshot[j]) == self.entries[i],
                forall|j: int|
                    0 <= j < snapshot.len() ==> (#[trigger] snapshot[j]).room@ == room@ && Some(
                        snapshot[j].id,
                    ) != excluding,
                forall|j: int, l: int|
                    0 <= j < l < snapshot.len() ==> (#[trigger] snapshot[j]).id
                        != (#[trigger] snapshot[l]).id,
                forall|i: int|
                    0 <= i < k && is_entry(self.entries@, room@, self.entries[i].id, i) && Some(
                        self.entries[i].id,
                    ) != excluding ==> snapshot_ids(snapshot@).contains(
                        #[trigger] self.entries[i].id,
                    ),
            decreases self.entries.len() - k,
        {
            let entry = &self.entries[k];
            let wanted = match excluding {
                Some(id) => entry.id != id,
                None => true,
            };
            if wanted && entry.room == *room {
                let ghost before = snapshot@;
                snapshot.push(entry);
                proof {
                    assert(snapshot[before.len() as int].id == entry.id);
                    assert forall|i: int|
                        0 <= i < k && is_entry(self.entries@, room@, self.entries[i].id, i)
                            && Some(self.entries[i].id) != excluding implies snapshot_ids(
                        snapshot@,
                    ).contains(#[trigger] self.entries[i].id) by {
                        assert(snapshot_ids(before).contains(self.entries[i].id));
                        let j = choose|j: int|
                            0 <= j < before.len() && #[trigger] before[j].id == self.entries[i].id;
                        assert(snapshot[j].id == self.entries[i].id);
                    }
                    assert forall|j: int| 0 <= j < before.len() implies (#[trigger] snapshot[j]).id
                        != entry.id by {
                        let i = choose|i: int| 0 <= i < k && *before[j] == self.entries[i];
                        assert(before[j].room@ == room@);
                    }
                }
            }
            k += 1;
        }
        proof {
            assert forall|j: int| 0 <= j < snapshot.len() implies is_member(
                self@,
                room@,
                (#[trigger] snapshot[j]).id,
            ) && self@[room@][snapshot[j].id] == snapshot[j].sink by {
                let i = choose|i: int| 0 <= i < k && *snapshot[j] == self.entries[i];
                lemma_entry_in_model(self.entries@, i);
            }
            assert forall|id: usize|
                is_member(self@, room@, id) && Some(id) != excluding implies snapshot_ids(
                snapshot@,
            ).contains(id) by {
                let i = lemma_member_is_entry(self.entries@, room@, id);
                assert(snapshot_ids(snapshot@).contains(self.entries[i].id));
            }
            assert(snapshot_ids(snapshot@) =~= Set::new(
                |id: usize| is_member(self@, room@, id) && Some(id) != excluding,
            ));
        }
        snapshot
    }

    /// A snapshot of the members of `room` other than `excluding_id`: the
    /// connections that a message from `excluding_id` is delivered to. It is
    /// empty for an unknown room.
    pub fn broadcast_targets(&self, room: &str, excluding_id: usize) -> (targets: Vec<
        &ConnectionHandle<S>,
    >)
        requires
            self.wf(),
        ensures
            is_snapshot(self@, room@, Some(excluding_id), targets@),
            snapshot_ids(targets@) == members_of(self@, room@).dom().remove(excluding_id),
            !self@.contains_key(room@) ==> targets@.len() == 0,
    {
        let name = room.to_owned();
        let targets = self.collect(&name, Some(excluding_id));
        proof {
            assert(snapshot_ids(targets@) =~= members_of(self@, room@).dom().remove(
                excluding_id,
            ));
            if !self@.contains_key(room@) && targets@.len() > 0 {
                assert(is_member(self@, room@, targets@[0].id));
            }
        }
        targets
    }

    /// A snapshot of all members of `room`; empty for an unknown room.
    pub fn members(&self, room: &str) -> (members: Vec<&ConnectionHandle<S>>)
        requires
            self.wf(),
        ensures
            is_snapshot(self@, room@, None, members@),
            snapshot_ids(members@) == members_of(self@, room@).dom(),
            self@.contains_key(room@) <==> members@.len() > 0,
    {
        let name = room.to_owned();
        let members = self.collect(&name, None);
        proof {
            self.lemma_rooms_have_members();
            assert(snapshot_ids(members@) =~= members_of(self@, room@).dom());
            if members@.len() > 0 {
                assert(is_member(self@, room@, members@[0].id));
            }
            if self@.contains_key(room@) {
                let id = choose|id: usize| self@[room@].dom().contains(id);
                assert(snapshot_ids(members@).contains(id));
            }
        }
        members
    }

    /// Whether `room` has any member.
    pub fn contains_room(&self, room: &str) -> (present: bool)
        requires
            self.wf(),
        ensures
            present == self@.contains_key(room@),
    {
        let name = room.to_owned();
        let mut k: usize = 0;
        while k < self.entries.len()
            invariant
                name@ == room@,
                k <= self.entries.len(),
                forall|i: int| 0 <= i < k ==> !in_room(self.entries@, name@, i),
            decreases self.entries.len() - k,
        {
            if self.entries[k].room == name {
                assert(in_room(self.entries@, name@, k as int));
                return true;
            }
            k += 1;
        }
        false
    }

    /// Whether connection `id` is registered in `room`.
    pub fn contains(&self, room: &str, id: usize) -> (present: bool)
        requires
            self.wf(),
        ensures
            present == is_member(self@, room@, id),
    {
        let name = room.to_owned();
        match self.position(&name, id) {
            Some(k) => {
                proof {
                    lemma_entry_in_model(self.entries@, k as int);
                }
                true
            },
            None => {
                proof {
                    if is_member(self@, room@, id) {
                        let i = lemma_member_is_entry(self.entries@, room@, id);
                    }
                }
                false
            },
        }
    }

    /// Whether no connection is registered at all.
    pub fn is_empty(&self) -> (empty: bool)
        requires
            self.wf(),
        ensures
            empty == self@.is_empty(),
    {
        let empty = self.entries.len() == 0;
        proof {
            if !empty {
                assert(in_room(self.entries@, self.entries[0].room@, 0));
                assert(self@.dom().contains(self.entries[0].room@));
            } else {
                assert(self@.dom() =~= Set::empty());
            }
        }
        empty
    }

    /// Fans `payload` out from `sender`: one delivery, with the payload, for
    /// each member of `room` other than `sender`, and none for `sender` or for
    /// a member of another room.
    pub fn fan_out(&self, room: &str, sender: usize, payload: &str) -> (deliveries: Vec<
        Delivery<'_, S>,
    >)
        requires
            self.wf(),
        ensures
            is_snapshot(self@, room@, Some(sender), recipients(deliveries@)),
            snapshot_ids(recipients(deliveries@)) == members_of(self@, room@).dom().remove(sender),
            forall|k: int|
                0 <= k < deliveries.len() ==> (#[trigger] deliveries[k]).payload@ == payload@,
    {
        let targets = self.broadcast_targets(room, sender);
        let mut deliveries: Vec<Delivery<'_, S>> = Vec::new();
        let mut k: usize = 0;
        while k < targets.len()
            invariant
                k <= targets.len(),
                deliveries.len() == k,
                forall|j: int| 0 <= j < k ==> (#[trigger] deliveries[j]).to == targets[j],
                forall|j: int| 0 <= j < k ==> (#[trigger] deliveries[j]).payload@ == payload@,
            decreases targets.len() - k,
        {
            deliveries.push(Delivery { to: targets[k], payload: payload.to_owned() });
            k += 1;
        }
        assert(recipients(deliveries@) =~= targets@);
        deliveries
    }
}

} // verus!
