//! The room coordinator: the operation set of the estimation session.
//!
//! Each operation validates the presence (and, for a vote, the shape) of its
//! arguments before any store access, issues exactly one room-store
//! operation — `reset` alone is a read-modify-write — and maps the outcome to
//! the updated document or a typed failure. The per-operation semantics is
//! stated over the `*_step` functions of [`crate::room`].

use vstd::prelude::*;

use crate::room::PokerRoom;
use crate::room::RoomView;
use crate::room::cast_step;
use crate::room::empty_room;
use crate::room::join_step;
use crate::room::leave_step;
use crate::room::ping_step;
use crate::room::reset_step;
use crate::room::reveal_step;
use crate::store::RoomStore;
use crate::votes::parse_vote;
use crate::votes::parse_vote_spec;

verus! {

/// Why an operation was refused.
#[derive(Clone, Copy, PartialEq, Eq, Debug)]
pub enum PokerError {
    /// A required argument is missing or malformed; reported before any
    /// store access is attempted.
    InvalidArgument,
    /// The room, or the member within it, does not exist; terminal, never
    /// retried.
    NotFound,
    /// The store call itself failed; retryable, but retry policy belongs to
    /// the caller. The in-memory [`RoomStore`] cannot fail, so the verified
    /// operations never report it; an adapter over a fallible store maps
    /// that store's faults to this kind.
    StoreUnavailable,
}

/// Gives out fresh room identifiers. Relies on `uuid::Uuid::new_v4` and on
/// `uuid::Uuid`'s `Display` form, which is the hyphenated, 36-character
/// rendering; the value depends on the randomness drawn, so nothing more is
/// promised.
#[verifier::external_body]
fn fresh_room_id() -> (r: String)
    ensures
        r@.len() == 36,
{
    uuid::Uuid::new_v4().to_string()
}

/// Translates each inbound intent into one atomic mutation of the room
/// store.
pub struct Coordinator {
    store: RoomStore,
}

impl View for Coordinator {
    type V = Map<Seq<char>, RoomView>;

    closed spec fn view(&self) -> Map<Seq<char>, RoomView> {
        self.store@
    }
}

impl Coordinator {
    /// A coordinator over the given store; the store is the coordinator's
    /// only state.
    pub fn new(store: RoomStore) -> (r: Coordinator)
        ensures
            r@ == store@,
    {
        Coordinator { store }
    }

    /// Creates a room under a fresh random identifier, hidden and holding
    /// one fresh member exactly when both an initial name and an initial
    /// member id are supplied. Never fails: the identifier is generated
    /// anew on every call.
    pub fn create_room(&mut self, user: Option<&str>, user_id: Option<&str>, now: u64) -> (r:
        PokerRoom)
        ensures
            r@.id.len() == 36,
            final(self)@ == old(self)@.insert(r@.id, r@),
            match (user, user_id) {
                (Some(u), Some(uid)) => r@ == join_step(empty_room(r@.id), uid@, u@, now),
                _ => r@ == empty_room(r@.id),
            },
    {
        let id = fresh_room_id();
        let mut room = PokerRoom::create(id);
        match (user, user_id) {
            (Some(u), Some(uid)) => {
                room.join(uid, u, now);
            },
            _ => {},
        }
        let out = room.duplicate();
        self.store.put(room);
        out
    }

    /// Inserts a member into an existing room only if the member id is
    /// absent; a re-join is a no-op that keeps the existing vote. Returns
    /// the full updated document.
    pub fn join_room(
        &mut self,
        room_id: Option<&str>,
        user: Option<&str>,
        user_id: Option<&str>,
        now: u64,
    ) -> (r: Result<PokerRoom, PokerError>)
        ensures
            (room_id is None || user is None || user_id is None) ==> (r matches Err(e) && e
                == PokerError::InvalidArgument && final(self)@ == old(self)@),
            (room_id matches Some(rid) && user is Some && user_id is Some && !old(self)@.dom().contains(rid@)) ==> (r matches Err(e) && e == PokerError::NotFound && final(self)@ == old(self)@),
            room_id matches Some(rid) ==> (user matches Some(u) ==> (user_id matches Some(uid)
                ==> (old(self)@.dom().contains(rid@) ==> (r matches Ok(room)
                && room@ == join_step(old(self)@[rid@], uid@, u@, now)
                && final(self)@ == old(self)@.insert(rid@, room@))))),
    {
        let rid = match room_id {
            Some(x) => x,
            None => { return Err(PokerError::InvalidArgument) },
        };
        let u = match user {
            Some(x) => x,
            None => { return Err(PokerError::InvalidArgument) },
        };
        let uid = match user_id {
            Some(x) => x,
            None => { return Err(PokerError::InvalidArgument) },
        };
        match self.store.take(rid) {
            None => Err(PokerError::NotFound),
            Some(mut room) => {
                room.join(uid, u, now);
                let out = room.duplicate();
                self.store.put(room);
                proof {
                    assert(old(self)@.remove(rid@).insert(rid@, out@) =~= old(self)@.insert(
                        rid@,
                        out@,
                    ));
                }
                Ok(out)
            },
        }
    }

    /// Sets one member's vote in an existing room and touches nothing else.
    /// The vote argument must be a well-formed decimal numeral that fits the
    /// vote field.
    pub fn cast_vote(
        &mut self,
        room_id: Option<&str>,
        user_id: Option<&str>,
        vote: Option<&str>,
    ) -> (r: Result<PokerRoom, PokerError>)
        ensures
            (room_id is None || user_id is None || vote is None || (vote matches Some(v)
                && parse_vote_spec(v@) is None)) ==> (r matches Err(e) && e
                == PokerError::InvalidArgument && final(self)@ == old(self)@),
            room_id matches Some(rid) ==> (user_id is Some ==> (vote matches Some(v)
                ==> (parse_vote_spec(v@) is Some && !old(self)@.dom().contains(rid@) ==> (r matches
                Err(e) && e == PokerError::NotFound && final(self)@ == old(self)@)))),
            room_id matches Some(rid) ==> (user_id matches Some(uid) ==> (vote matches Some(v)
                ==> (parse_vote_spec(v@) is Some && old(self)@.dom().contains(rid@)
                && !old(self)@[rid@].members.dom().contains(uid@) ==> (r matches Err(e)
                && e == PokerError::NotFound && final(self)@ == old(self)@)))),
            room_id matches Some(rid) ==> (user_id matches Some(uid) ==> (vote matches Some(v)
                ==> (parse_vote_spec(v@) matches Some(val) ==> (old(self)@.dom().contains(rid@)
                && old(self)@[rid@].members.dom().contains(uid@) ==> (r matches Ok(room)
                && room@ == cast_step(old(self)@[rid@], uid@, val)
                && final(self)@ == old(self)@.insert(rid@, room@)))))),
    {
        let rid = match room_id {
            Some(x) => x,
            None => { return Err(PokerError::InvalidArgument) },
        };
        let uid = match user_id {
            Some(x) => x,
            None => { return Err(PokerError::InvalidArgument) },
        };
        let vs = match vote {
            Some(x) => x,
            None => { return Err(PokerError::InvalidArgument) },
        };
        let val = match parse_vote(vs) {
            Some(v) => v,
            None => { return Err(PokerError::InvalidArgument) },
        };
        match self.store.take(rid) {
            None => Err(PokerError::NotFound),
            Some(mut room) => {
                let had = room.cast_vote(uid, val);
                if had {
                    let out = room.duplicate();
                    self.store.put(room);
                    proof {
                        assert(old(self)@.remove(rid@).insert(rid@, out@) =~= old(self)@.insert(
                            rid@,
                            out@,
                        ));
                    }
                    Ok(out)
                } else {
                    self.store.put(room);
                    proof {
                        assert(old(self)@.remove(rid@).insert(rid@, old(self)@[rid@]) =~= old(self)@);
                    }
                    Err(PokerError::NotFound)
                }
            },
        }
    }

    /// Raises an existing room's reveal flag; revealing an already revealed
    /// room is a no-op returning the same document.
    pub fn reveal_room(&mut self, room_id: Option<&str>) -> (r: Result<PokerRoom, PokerError>)
        ensures
            room_id is None ==> (r matches Err(e) && e == PokerError::InvalidArgument && final(self)@ == old(self)@),
            (room_id matches Some(rid) && !old(self)@.dom().contains(rid@)) ==> (r matches Err(e)
                && e == PokerError::NotFound && final(self)@ == old(self)@),
            room_id matches Some(rid) ==> (old(self)@.dom().contains(rid@) ==> (r matches
            Ok(room) && room@ == reveal_step(old(self)@[rid@])
                && final(self)@ == old(self)@.insert(rid@, room@))),
    {
        let rid = match room_id {
            Some(x) => x,
            None => { return Err(PokerError::InvalidArgument) },
        };
        match self.store.take(rid) {
            None => Err(PokerError::NotFound),
            Some(mut room) => {
                room.reveal_votes();
                let out = room.duplicate();
                self.store.put(room);
                proof {
                    assert(old(self)@.remove(rid@).insert(rid@, out@) =~= old(self)@.insert(
                        rid@,
                        out@,
                    ));
                }
                Ok(out)
            },
        }
    }

    /// Clears every member's vote of an existing room, refreshes every
    /// liveness stamp and hides the votes again, all in one write; members
    /// and names are kept. The one read-modify-write of the operation set:
    /// over a store that is only linearizable per call, a reset racing a
    /// concurrent write can silently discard that write's effect — a known
    /// trade-off of the design, not repaired here. Over the in-memory store
    /// the exclusive borrow makes the whole operation atomic.
    pub fn reset(&mut self, room_id: Option<&str>, now: u64) -> (r: Result<PokerRoom, PokerError>)
        ensures
            room_id is None ==> (r matches Err(e) && e == PokerError::InvalidArgument && final(self)@ == old(self)@),
            (room_id matches Some(rid) && !old(self)@.dom().contains(rid@)) ==> (r matches Err(e)
                && e == PokerError::NotFound && final(self)@ == old(self)@),
            room_id matches Some(rid) ==> (old(self)@.dom().contains(rid@) ==> (r matches
            Ok(room) && room@ == reset_step(old(self)@[rid@], now)
                && final(self)@ == old(self)@.insert(rid@, room@))),
    {
        let rid = match room_id {
            Some(x) => x,
            None => { return Err(PokerError::InvalidArgument) },
        };
        match self.store.take(rid) {
            None => Err(PokerError::NotFound),
            Some(mut room) => {
                room.reset(now);
                let out = room.duplicate();
                self.store.put(room);
                proof {
                    assert(old(self)@.remove(rid@).insert(rid@, out@) =~= old(self)@.insert(
                        rid@,
                        out@,
                    ));
                }
                Ok(out)
            },
        }
    }

    /// Removes a member from an existing room; an absent member id is a
    /// no-op, not an error.
    pub fn exit_room(&mut self, room_id: Option<&str>, user_id: Option<&str>) -> (r: Result<
        PokerRoom,
        PokerError,
    >)
        ensures
            (room_id is None || user_id is None) ==> (r matches Err(e) && e
                == PokerError::InvalidArgument && final(self)@ == old(self)@),
            (room_id matches Some(rid) && user_id is Some && !old(self)@.dom().contains(rid@))
                ==> (r matches Err(e) && e == PokerError::NotFound && final(self)@ == old(self)@),
            room_id matches Some(rid) ==> (user_id matches Some(uid)
                ==> (old(self)@.dom().contains(rid@) ==> (r matches Ok(room)
                && room@ == leave_step(old(self)@[rid@], uid@)
                && final(self)@ == old(self)@.insert(rid@, room@)))),
    {
        let rid = match room_id {
            Some(x) => x,
            None => { return Err(PokerError::InvalidArgument) },
        };
        let uid = match user_id {
            Some(x) => x,
            None => { return Err(PokerError::InvalidArgument) },
        };
        match self.store.take(rid) {
            None => Err(PokerError::NotFound),
            Some(mut room) => {
                room.remove_member(uid);
                let out = room.duplicate();
                self.store.put(room);
                proof {
                    assert(old(self)@.remove(rid@).insert(rid@, out@) =~= old(self)@.insert(
                        rid@,
                        out@,
                    ));
                }
                Ok(out)
            },
        }
    }

    /// Refreshes one member's liveness stamp in an existing room; the
    /// heartbeat of the protocol.
    pub fn ping_room(
        &mut self,
        room_id: Option<&str>,
        user_id: Option<&str>,
        now: u64,
    ) -> (r: Result<PokerRoom, PokerError>)
        ensures
            (room_id is None || user_id is None) ==> (r matches Err(e) && e
                == PokerError::InvalidArgument && final(self)@ == old(self)@),
            (room_id matches Some(rid) && user_id is Some && !old(self)@.dom().contains(rid@))
                ==> (r matches Err(e) && e == PokerError::NotFound && final(self)@ == old(self)@),
            (room_id matches Some(rid) && user_id matches Some(uid) && old(self)@.dom().contains(
                rid@,
            ) && !old(self)@[rid@].members.dom().contains(uid@)) ==> (r matches Err(e) && e
                == PokerError::NotFound && final(self)@ == old(self)@),
            room_id matches Some(rid) ==> (user_id matches Some(uid)
                ==> (old(self)@.dom().contains(rid@)
                && old(self)@[rid@].members.dom().contains(uid@) ==> (r matches Ok(room)
                && room@ == ping_step(old(self)@[rid@], uid@, now)
                && final(self)@ == old(self)@.insert(rid@, room@)))),
    {
        let rid = match room_id {
            Some(x) => x,
            None => { return Err(PokerError::InvalidArgument) },
        };
        let uid = match user_id {
            Some(x) => x,
            None => { return Err(PokerError::InvalidArgument) },
        };
        match self.store.take(rid) {
            None => Err(PokerError::NotFound),
            Some(mut room) => {
                let had = room.refresh_ping(uid, now);
                if had {
                    let out = room.duplicate();
                    self.store.put(room);
                    proof {
                        assert(old(self)@.remove(rid@).insert(rid@, out@) =~= old(self)@.insert(
                            rid@,
                            out@,
                        ));
                    }
                    Ok(out)
                } else {
                    self.store.put(room);
                    proof {
                        assert(old(self)@.remove(rid@).insert(rid@, old(self)@[rid@]) =~= old(self)@);
                    }
                    Err(PokerError::NotFound)
                }
            },
        }
    }

    /// Reads the current document of an existing room, unmodified. Takes the
    /// coordinator by shared reference, so it can never mutate any state,
    /// and its result is a function of the state alone: any number of calls
    /// between two other operations yield the same document.
    pub fn get_room(&self, room_id: Option<&str>) -> (r: Result<PokerRoom, PokerError>)
        ensures
            room_id is None ==> (r matches Err(e) && e == PokerError::InvalidArgument),
            (room_id matches Some(rid) && !self@.dom().contains(rid@)) ==> (r matches Err(e) && e
                == PokerError::NotFound),
            room_id matches Some(rid) ==> (self@.dom().contains(rid@) ==> (r matches Ok(room)
                && room@ == self@[rid@])),
    {
        let rid = match room_id {
            Some(x) => x,
            None => { return Err(PokerError::InvalidArgument) },
        };
        match self.store.get(rid) {
            None => Err(PokerError::NotFound),
            Some(room) => Ok(room),
        }
    }
}

} // verus!
