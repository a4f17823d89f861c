//! The room store: durable keyed storage for one room document per
//! identifier.
//!
//! Its model is a `Map` from room id to [`RoomView`]. This in-memory store
//! satisfies the contract the coordinator needs — get, unconditional put and
//! take-for-update, each atomic per call because the store is exclusively
//! borrowed for the call's duration; a distributed deployment may substitute
//! any store that is linearizable per room identifier.

use vstd::prelude::*;

use crate::room::PokerRoom;
use crate::room::RoomView;
use crate::room::str_eq;

verus! {

/// Some slot of `s` holds a room whose id is `k`.
pub open spec fn has_room_key(s: Seq<PokerRoom>, k: Seq<char>) -> bool {
    exists|i: int| 0 <= i < s.len() && s[i]@.id == k
}

/// A slot of `s` holding a room whose id is `k` (meaningful only when
/// `has_room_key(s, k)`).
pub open spec fn room_key_index(s: Seq<PokerRoom>, k: Seq<char>) -> int {
    choose|i: int| 0 <= i < s.len() && s[i]@.id == k
}

/// The room map that a sequence of room documents denotes.
pub open spec fn rooms_map(s: Seq<PokerRoom>) -> Map<Seq<char>, RoomView> {
    Map::new(|k: Seq<char>| has_room_key(s, k), |k: Seq<char>| s[room_key_index(s, k)]@)
}

/// No two slots of `s` hold the same room id.
pub open spec fn unique_room_ids(s: Seq<PokerRoom>) -> bool {
    forall|i: int, j: int| 0 <= i < j < s.len() ==> s[i]@.id != s[j]@.id
}

/// Keyed storage of room documents, one per room identifier.
pub struct RoomStore {
    rooms: Vec<PokerRoom>,
}

impl View for RoomStore {
    type V = Map<Seq<char>, RoomView>;

    closed spec fn view(&self) -> Map<Seq<char>, RoomView> {
        rooms_map(self.rooms@)
    }
}

/// In a duplicate-free room sequence, the slot found for a room's own id is
/// that room's slot, and the room map sends the id to that room.
proof fn lemma_room_index(s: Seq<PokerRoom>, i: int)
    requires
        unique_room_ids(s),
        0 <= i < s.len(),
    ensures
        has_room_key(s, s[i]@.id),
        room_key_index(s, s[i]@.id) == i,
        rooms_map(s)[s[i]@.id] == s[i]@,
{
    assert(has_room_key(s, s[i]@.id));
    let j = room_key_index(s, s[i]@.id);
    assert(0 <= j < s.len() && s[j]@.id == s[i]@.id);
    if j < i {
        assert(s[j]@.id != s[i]@.id);
    } else if i < j {
        assert(s[i]@.id != s[j]@.id);
    }
}

/// Appending a room with an unused id inserts it into the room map.
proof fn lemma_rooms_push(s: Seq<PokerRoom>, m: PokerRoom)
    requires
        unique_room_ids(s),
        !has_room_key(s, m@.id),
    ensures
        unique_room_ids(s.push(m)),
        rooms_map(s.push(m)) =~= rooms_map(s).insert(m@.id, m@),
{
    let t = s.push(m);
    assert forall|i: int, j: int| 0 <= i < j < t.len() implies t[i]@.id != t[j]@.id by {
        if j == s.len() {
            assert(t[i] == s[i]);
            if t[i]@.id == m@.id {
                assert(has_room_key(s, m@.id));
            }
        } else {
            assert(t[i] == s[i] && t[j] == s[j]);
        }
    }
    assert forall|k: Seq<char>| #[trigger] has_room_key(t, k) implies rooms_map(t)[k]
        == rooms_map(s).insert(m@.id, m@)[k] && (has_room_key(s, k) || k == m@.id) by {
        let i = room_key_index(t, k);
        assert(0 <= i < t.len() && t[i]@.id == k);
        if k == m@.id {
            if i < s.len() {
                assert(s[i]@.id == k);
                assert(has_room_key(s, k));
                assert(false);
            }
            assert(t[i] == m);
        } else {
            assert(i < s.len());
            assert(t[i] == s[i]);
            assert(has_room_key(s, k));
            lemma_room_index(s, i);
        }
    }
    assert forall|k: Seq<char>| has_room_key(s, k) || k == m@.id implies has_room_key(t, k) by {
        if has_room_key(s, k) {
            let i = room_key_index(s, k);
            assert(t[i]@.id == k);
        } else {
            assert(t[s.len() as int]@.id == k);
        }
    }
    assert(rooms_map(t) =~= rooms_map(s).insert(m@.id, m@));
}

/// Replacing a slot by a room with the same id updates the map entry.
proof fn lemma_rooms_update(s: Seq<PokerRoom>, i: int, m: PokerRoom)
    requires
        unique_room_ids(s),
        0 <= i < s.len(),
        m@.id == s[i]@.id,
    ensures
        unique_room_ids(s.update(i, m)),
        rooms_map(s.update(i, m)) =~= rooms_map(s).insert(m@.id, m@),
{
    let t = s.update(i, m);
    assert forall|p: int, q: int| 0 <= p < q < t.len() implies t[p]@.id != t[q]@.id by {
        assert(t[p]@.id == s[p]@.id && t[q]@.id == s[q]@.id);
    }
    assert forall|k: Seq<char>| #[trigger] has_room_key(t, k) implies has_room_key(s, k)
        && rooms_map(t)[k] == rooms_map(s).insert(m@.id, m@)[k] by {
        let j = room_key_index(t, k);
        assert(0 <= j < t.len() && t[j]@.id == k);
        assert(s[j]@.id == k);
        assert(has_room_key(s, k));
        lemma_room_index(s, j);
        if j == i {
            assert(k == m@.id);
            assert(t[j] == m);
        } else {
            assert(t[j] == s[j]);
            if k == m@.id {
                assert(s[j]@.id == s[i]@.id);
                if j < i {
                    assert(s[j]@.id != s[i]@.id);
                } else {
                    assert(s[i]@.id != s[j]@.id);
                }
                assert(false);
            }
        }
    }
    assert forall|k: Seq<char>| has_room_key(s, k) implies has_room_key(t, k) by {
        let j = room_key_index(s, k);
        assert(t[j]@.id == k);
    }
    assert(rooms_map(t) =~= rooms_map(s).insert(m@.id, m@));
}

/// Removing a slot removes exactly that room's entry from the map.
proof fn lemma_rooms_remove(s: Seq<PokerRoom>, i: int)
    requires
        unique_room_ids(s),
        0 <= i < s.len(),
    ensures
        unique_room_ids(s.remove(i)),
        rooms_map(s.remove(i)) =~= rooms_map(s).remove(s[i]@.id),
{
    let t = s.remove(i);
    assert forall|p: int, q: int| 0 <= p < q < t.len() implies t[p]@.id != t[q]@.id by {
        let p0: int = if p < i { p } else { p + 1 };
        let q0: int = if q < i { q } else { q + 1 };
        assert(t[p] == s[p0] && t[q] == s[q0]);
    }
    assert forall|k: Seq<char>| #[trigger] has_room_key(t, k) implies has_room_key(s, k) && k
        != s[i]@.id && rooms_map(t)[k] == rooms_map(s)[k] by {
        let j = room_key_index(t, k);
        assert(0 <= j < t.len() && t[j]@.id == k);
        let j0: int = if j < i { j } else { j + 1 };
        assert(t[j] == s[j0]);
        assert(has_room_key(s, k));
        lemma_room_index(s, j0);
        if k == s[i]@.id {
            if j0 < i {
                assert(s[j0]@.id != s[i]@.id);
            } else {
                assert(s[i]@.id != s[j0]@.id);
            }
            assert(false);
        }
    }
    assert forall|k: Seq<char>| has_room_key(s, k) && k != s[i]@.id implies has_room_key(
        t,
        k,
    ) by {
        let j = room_key_index(s, k);
        assert(0 <= j < s.len() && s[j]@.id == k);
        if j < i {
            assert(t[j] == s[j]);
            assert(t[j]@.id == k);
        } else {
            assert(j != i);
            assert(t[j - 1] == s[j]);
            assert(t[j - 1]@.id == k);
        }
    }
    assert(rooms_map(t) =~= rooms_map(s).remove(s[i]@.id));
}

/// Finds the slot holding `room_id`, if any.
fn find_room(rooms: &Vec<PokerRoom>, room_id: &str) -> (r: Option<usize>)
    ensures
        match r {
            Some(i) => i < rooms@.len() && rooms@[i as int]@.id == room_id@,
            None => !has_room_key(rooms@, room_id@),
        },
{
    let mut i: usize = 0;
    while i < rooms.len()
        invariant
            i <= rooms@.len(),
            forall|j: int| 0 <= j < i ==> rooms@[j]@.id != room_id@,
        decreases rooms@.len() - i,
    {
        if str_eq(rooms[i].id().as_str(), room_id) {
            return Some(i);
        }
        i = i + 1;
    }
    None
}

impl RoomStore {
    #[verifier::type_invariant]
    spec fn wf(self) -> bool {
        unique_room_ids(self.rooms@)
    }

    /// An empty store: no room exists under any identifier.
    pub fn new() -> (r: RoomStore)
        ensures
            r@ == Map::<Seq<char>, RoomView>::empty(),
    {
        let r = RoomStore { rooms: Vec::new() };
        proof {
            assert(r@ =~= Map::<Seq<char>, RoomView>::empty());
        }
        r
    }

    /// Reads the document under `room_id`, if any, without changing the
    /// store.
    pub fn get(&self, room_id: &str) -> (r: Option<PokerRoom>)
        ensures
            match r {
                Some(room) => self@.dom().contains(room_id@) && room@ == self@[room_id@]
                    && room@.id == room_id@,
                None => !self@.dom().contains(room_id@),
            },
    {
        proof {
            use_type_invariant(&*self);
        }
        match find_room(&self.rooms, room_id) {
            None => None,
            Some(i) => {
                proof {
                    lemma_room_index(self.rooms@, i as int);
                }
                Some(self.rooms[i].duplicate())
            },
        }
    }

    /// Writes a document unconditionally: the store maps the document's own
    /// id to it afterwards, whether or not that id existed.
    pub fn put(&mut self, room: PokerRoom)
        ensures
            final(self)@ == old(self)@.insert(room@.id, room@),
    {
        proof {
            use_type_invariant(&*self);
        }
        let idx = find_room(&self.rooms, room.id().as_str());
        let ghost s0 = self.rooms@;
        let ghost gr = room;
        let mut rs: Vec<PokerRoom> = Vec::new();
        std::mem::swap(&mut rs, &mut self.rooms);
        match idx {
            Some(i) => {
                rs.remove(i);
                rs.insert(i, room);
                proof {
                    assert(rs@ =~= s0.update(i as int, gr));
                    lemma_rooms_update(s0, i as int, gr);
                }
            },
            None => {
                rs.push(room);
                proof {
                    lemma_rooms_push(s0, gr);
                }
            },
        }
        self.rooms = rs;
        proof {
            assert(self@ =~= old(self)@.insert(gr@.id, gr@));
        }
    }

    /// Removes and hands out the document under `room_id` for a
    /// read-modify-write; the caller puts the successor document back.
    pub fn take(&mut self, room_id: &str) -> (r: Option<PokerRoom>)
        ensures
            match r {
                Some(room) => old(self)@.dom().contains(room_id@) && room@ == old(
                    self,
                )@[room_id@] && room@.id == room_id@ && final(self)@ == old(self)@.remove(
                    room_id@,
                ),
                None => !old(self)@.dom().contains(room_id@) && final(self)@ == old(self)@,
            },
    {
        proof {
            use_type_invariant(&*self);
        }
        match find_room(&self.rooms, room_id) {
            None => None,
            Some(i) => {
                let ghost s0 = self.rooms@;
                proof {
                    lemma_room_index(s0, i as int);
                    lemma_rooms_remove(s0, i as int);
                }
                let mut rs: Vec<PokerRoom> = Vec::new();
                std::mem::swap(&mut rs, &mut self.rooms);
                let room = rs.remove(i);
                self.rooms = rs;
                Some(room)
            },
        }
    }
}

} // verus!
