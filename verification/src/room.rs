//! The room document and its state machine.
//!
//! A room holds an identifier, a reveal flag and a set of members keyed by
//! member identifier. The mathematical model of a room is [`RoomView`]: the
//! member set is a `Map` from member id to [`MemberView`], since keys are
//! unique and insertion order carries no meaning. Every mutation of a room is
//! specified by one of the `*_step` functions over that model.

use vstd::prelude::*;

verus! {

/// One participant's identity, display name, vote and liveness stamp within
/// a room. A vote of `0` means "no vote cast this round".
#[derive(Debug)]
pub struct Member {
    id: String,
    name: String,
    vote: u16,
    ping: u64,
}

/// Mathematical image of a [`Member`].
#[verifier::ext_equal]
pub ghost struct MemberView {
    pub id: Seq<char>,
    pub name: Seq<char>,
    pub vote: u16,
    pub ping: u64,
}

impl View for Member {
    type V = MemberView;

    closed spec fn view(&self) -> MemberView {
        MemberView { id: self.id@, name: self.name@, vote: self.vote, ping: self.ping }
    }
}

/// Mathematical image of a [`PokerRoom`].
#[verifier::ext_equal]
pub ghost struct RoomView {
    pub id: Seq<char>,
    pub revealed: bool,
    pub members: Map<Seq<char>, MemberView>,
}

/// The shared room document: one estimation session.
#[derive(Debug)]
pub struct PokerRoom {
    id: String,
    revealed: bool,
    members: Vec<Member>,
}

/// Some slot of `s` holds a member whose id is `k`.
pub open spec fn has_member_key(s: Seq<Member>, k: Seq<char>) -> bool {
    exists|i: int| 0 <= i < s.len() && s[i]@.id == k
}

/// A slot of `s` holding a member whose id is `k` (meaningful only when
/// `has_member_key(s, k)`).
pub open spec fn member_key_index(s: Seq<Member>, k: Seq<char>) -> int {
    choose|i: int| 0 <= i < s.len() && s[i]@.id == k
}

/// The member map that a sequence of member records denotes.
pub open spec fn members_map(s: Seq<Member>) -> Map<Seq<char>, MemberView> {
    Map::new(|k: Seq<char>| has_member_key(s, k), |k: Seq<char>| s[member_key_index(s, k)]@)
}

/// No two slots of `s` hold the same member id.
pub open spec fn unique_member_ids(s: Seq<Member>) -> bool {
    forall|i: int, j: int| 0 <= i < j < s.len() ==> s[i]@.id != s[j]@.id
}

impl View for PokerRoom {
    type V = RoomView;

    closed spec fn view(&self) -> RoomView {
        RoomView { id: self.id@, revealed: self.revealed, members: members_map(self.members@) }
    }
}

/// A member as it stands right after joining: no vote cast, alive at `now`.
pub open spec fn fresh_member(id: Seq<char>, name: Seq<char>, now: u64) -> MemberView {
    MemberView { id, name, vote: 0, ping: now }
}

/// A room as it stands right after creation: hidden, with no members.
pub open spec fn empty_room(id: Seq<char>) -> RoomView {
    RoomView { id, revealed: false, members: Map::empty() }
}

/// Joining inserts a fresh member only if the id is absent; an id already
/// present leaves the document unchanged, so a re-join never discards a vote.
pub open spec fn join_step(r: RoomView, member_id: Seq<char>, name: Seq<char>, now: u64) -> RoomView {
    if r.members.dom().contains(member_id) {
        r
    } else {
        RoomView { members: r.members.insert(member_id, fresh_member(member_id, name, now)), ..r }
    }
}

/// Casting sets one member's vote and touches nothing else; on an absent
/// member id the document is unchanged (the operation reports the absence).
pub open spec fn cast_step(r: RoomView, member_id: Seq<char>, value: u16) -> RoomView {
    if r.members.dom().contains(member_id) {
        RoomView {
            members: r.members.insert(
                member_id,
                MemberView { vote: value, ..r.members[member_id] },
            ),
            ..r
        }
    } else {
        r
    }
}

/// Revealing only raises the flag, so revealing twice is revealing once.
pub open spec fn reveal_step(r: RoomView) -> RoomView {
    RoomView { revealed: true, ..r }
}

/// A member after a reset: same id and name, no vote, alive at `now`.
pub open spec fn cleared_member(m: MemberView, now: u64) -> MemberView {
    MemberView { vote: 0, ping: now, ..m }
}

/// A reset clears every member's vote, refreshes every liveness stamp and
/// hides the votes again; it never removes a member or changes a name.
pub open spec fn reset_step(r: RoomView, now: u64) -> RoomView {
    RoomView {
        revealed: false,
        members: r.members.map_values(|m: MemberView| cleared_member(m, now)),
        ..r
    }
}

/// Leaving removes the member if present; an absent id is a no-op, not an
/// error.
pub open spec fn leave_step(r: RoomView, member_id: Seq<char>) -> RoomView {
    RoomView { members: r.members.remove(member_id), ..r }
}

/// A heartbeat refreshes one member's liveness stamp; on an absent member id
/// the document is unchanged (the operation reports the absence).
pub open spec fn ping_step(r: RoomView, member_id: Seq<char>, now: u64) -> RoomView {
    if r.members.dom().contains(member_id) {
        RoomView {
            members: r.members.insert(member_id, MemberView { ping: now, ..r.members[member_id] }),
            ..r
        }
    } else {
        r
    }
}

/// Exact string comparison, stated over the character sequences.
pub(crate) fn str_eq(a: &str, b: &str) -> (r: bool)
    ensures
        r == (a@ == b@),
{
    let s1 = a.to_owned();
    let s2 = b.to_owned();
    s1 == s2
}

/// In a duplicate-free member sequence, the slot found for a member's own id
/// is that member's slot, and the member map sends the id to that member.
proof fn lemma_member_index(s: Seq<Member>, i: int)
    requires
        unique_member_ids(s),
        0 <= i < s.len(),
    ensures
        has_member_key(s, s[i]@.id),
        member_key_index(s, s[i]@.id) == i,
        members_map(s)[s[i]@.id] == s[i]@,
{
    assert(has_member_key(s, s[i]@.id));
    let j = member_key_index(s, s[i]@.id);
    assert(0 <= j < s.len() && s[j]@.id == s[i]@.id);
    if j < i {
        assert(s[j]@.id != s[i]@.id);
    } else if i < j {
        assert(s[i]@.id != s[j]@.id);
    }
}

/// Appending a member with an unused id inserts it into the member map.
proof fn lemma_members_push(s: Seq<Member>, m: Member)
    requires
        unique_member_ids(s),
        !has_member_key(s, m@.id),
    ensures
        unique_member_ids(s.push(m)),
        members_map(s.push(m)) =~= members_map(s).insert(m@.id, m@),
{
    let t = s.push(m);
    assert forall|i: int, j: int| 0 <= i < j < t.len() implies t[i]@.id != t[j]@.id by {
        if j == s.len() {
            assert(t[i] == s[i]);
            if t[i]@.id == m@.id {
                assert(has_member_key(s, m@.id));
            }
        } else {
            assert(t[i] == s[i] && t[j] == s[j]);
        }
    }
    assert forall|k: Seq<char>| #[trigger] has_member_key(t, k) implies members_map(t)[k]
        == members_map(s).insert(m@.id, m@)[k] && (has_member_key(s, k) || k == m@.id) by {
        let i = member_key_index(t, k);
        assert(0 <= i < t.len() && t[i]@.id == k);
        if k == m@.id {
            if i < s.len() {
                assert(s[i]@.id == k);
                assert(has_member_key(s, k));
                assert(false);
            }
            assert(t[i] == m);
        } else {
            assert(i < s.len());
            assert(t[i] == s[i]);
            assert(has_member_key(s, k));
            lemma_member_index(s, i);
        }
    }
    assert forall|k: Seq<char>| has_member_key(s, k) || k == m@.id implies has_member_key(t, k) by {
        if has_member_key(s, k) {
            let i = member_key_index(s, k);
            assert(t[i]@.id == k);
        } else {
            assert(t[s.len() as int]@.id == k);
        }
    }
    assert(members_map(t) =~= members_map(s).insert(m@.id, m@));
}

/// Replacing a slot by a member with the same id updates the map entry.
proof fn lemma_members_update(s: Seq<Member>, i: int, m: Member)
    requires
        unique_member_ids(s),
        0 <= i < s.len(),
        m@.id == s[i]@.id,
    ensures
        unique_member_ids(s.update(i, m)),
        members_map(s.update(i, m)) =~= members_map(s).insert(m@.id, m@),
{
    let t = s.update(i, m);
    assert forall|p: int, q: int| 0 <= p < q < t.len() implies t[p]@.id != t[q]@.id by {
        assert(t[p]@.id == s[p]@.id && t[q]@.id == s[q]@.id);
    }
    assert forall|k: Seq<char>| #[trigger] has_member_key(t, k) implies has_member_key(s, k)
        && members_map(t)[k] == members_map(s).insert(m@.id, m@)[k] by {
        let j = member_key_index(t, k);
        assert(0 <= j < t.len() && t[j]@.id == k);
        assert(s[j]@.id == k);
        assert(has_member_key(s, k));
        lemma_member_index(s, j);
        if j == i {
            assert(k == m@.id);
            assert(t[j] == m);
        } else {
            assert(t[j] == s[j]);
            if k == m@.id {
                assert(s[j]@.id == s[i]@.id);
                if j < i {
                    assert(s[j]@.id != s[i]@.id);
                } else {
                    assert(s[i]@.id != s[j]@.id);
                }
                assert(false);
            }
        }
    }
    assert forall|k: Seq<char>| has_member_key(s, k) implies has_member_key(t, k) by {
        let j = member_key_index(s, k);
        assert(t[j]@.id == k);
    }
    assert(members_map(t) =~= members_map(s).insert(m@.id, m@));
}

/// Removing a slot removes exactly that member's entry from the map.
proof fn lemma_members_remove(s: Seq<Member>, i: int)
    requires
        unique_member_ids(s),
        0 <= i < s.len(),
    ensures
        unique_member_ids(s.remove(i)),
        members_map(s.remove(i)) =~= members_map(s).remove(s[i]@.id),
{
    let t = s.remove(i);
    assert forall|p: int, q: int| 0 <= p < q < t.len() implies t[p]@.id != t[q]@.id by {
        let p0: int = if p < i { p } else { p + 1 };
        let q0: int = if q < i { q } else { q + 1 };
        assert(t[p] == s[p0] && t[q] == s[q0]);
    }
    assert forall|k: Seq<char>| #[trigger] has_member_key(t, k) implies has_member_key(s, k)
        && k != s[i]@.id && members_map(t)[k] == members_map(s)[k] by {
        let j = member_key_index(t, k);
        assert(0 <= j < t.len() && t[j]@.id == k);
        let j0: int = if j < i { j } else { j + 1 };
        assert(t[j] == s[j0]);
        assert(has_member_key(s, k));
        lemma_member_index(s, j0);
        if k == s[i]@.id {
            if j0 < i {
                assert(s[j0]@.id != s[i]@.id);
            } else {
                assert(s[i]@.id != s[j0]@.id);
            }
            assert(false);
        }
    }
    assert forall|k: Seq<char>| has_member_key(s, k) && k != s[i]@.id implies has_member_key(
        t,
        k,
    ) by {
        let j = member_key_index(s, k);
        assert(0 <= j < s.len() && s[j]@.id == k);
        if j < i {
            assert(t[j] == s[j]);
            assert(t[j]@.id == k);
        } else {
            assert(j != i);
            assert(t[j - 1] == s[j]);
            assert(t[j - 1]@.id == k);
        }
    }
    assert(members_map(t) =~= members_map(s).remove(s[i]@.id));
}

/// A slot-by-slot clearing of the votes maps the member map through
/// [`cleared_member`].
proof fn lemma_members_clear(s: Seq<Member>, t: Seq<Member>, now: u64)
    requires
        unique_member_ids(s),
        t.len() == s.len(),
        forall|j: int| 0 <= j < s.len() ==> t[j]@ == cleared_member(s[j]@, now),
    ensures
        unique_member_ids(t),
        members_map(t) =~= members_map(s).map_values(|m: MemberView| cleared_member(m, now)),
{
    assert forall|p: int, q: int| 0 <= p < q < t.len() implies t[p]@.id != t[q]@.id by {
        assert(t[p]@.id == s[p]@.id && t[q]@.id == s[q]@.id);
    }
    assert forall|k: Seq<char>| #[trigger] has_member_key(t, k) implies has_member_key(s, k)
        && members_map(t)[k] == cleared_member(members_map(s)[k], now) by {
        let j = member_key_index(t, k);
        assert(0 <= j < t.len() && t[j]@.id == k);
        assert(s[j]@.id == k);
        assert(has_member_key(s, k));
        lemma_member_index(s, j);
        lemma_member_index(t, j);
    }
    assert forall|k: Seq<char>| has_member_key(s, k) implies has_member_key(t, k) by {
        let j = member_key_index(s, k);
        assert(t[j]@.id == s[j]@.id);
    }
    assert(members_map(t) =~= members_map(s).map_values(
        |m: MemberView| cleared_member(m, now),
    ));
}

/// A duplicate-free member sequence denotes a member map with exactly one
/// entry per record.
proof fn lemma_members_map_len(s: Seq<Member>)
    requires
        unique_member_ids(s),
    ensures
        members_map(s).dom().finite(),
        members_map(s).dom().len() == s.len(),
    decreases s.len(),
{
    if s.len() == 0 {
        assert(members_map(s).dom() =~= Set::<Seq<char>>::empty());
    } else {
        let s1 = s.drop_last();
        let m = s.last();
        assert(forall|i: int| 0 <= i < s1.len() ==> s1[i] == s[i]);
        assert(unique_member_ids(s1));
        if has_member_key(s1, m@.id) {
            let i = member_key_index(s1, m@.id);
            assert(0 <= i < s1.len() && s1[i]@.id == m@.id);
            assert(s[i]@.id != s[s.len() - 1]@.id);
            assert(false);
        }
        lemma_members_map_len(s1);
        lemma_members_push(s1, m);
        assert(s1.push(m) =~= s);
        assert(members_map(s).dom() =~= members_map(s1).dom().insert(m@.id));
    }
}

/// Finds the slot holding `member_id`, if any.
fn find_member(members: &Vec<Member>, member_id: &str) -> (r: Option<usize>)
    ensures
        match r {
            Some(i) => i < members@.len() && members@[i as int]@.id == member_id@,
            None => !has_member_key(members@, member_id@),
        },
{
    let mut i: usize = 0;
    while i < members.len()
        invariant
            i <= members@.len(),
            forall|j: int| 0 <= j < i ==> members@[j]@.id != member_id@,
        decreases members@.len() - i,
    {
        if str_eq(members[i].id.as_str(), member_id) {
            return Some(i);
        }
        i = i + 1;
    }
    None
}

impl Member {
    /// Builds a member record from its four fields.
    pub fn assemble(id: String, name: String, vote: u16, ping: u64) -> (r: Member)
        ensures
            r@ == (MemberView { id: id@, name: name@, vote, ping }),
    {
        Member { id, name, vote, ping }
    }

    /// The member's stable identifier.
    pub fn id(&self) -> (r: &String)
        ensures
            r@ == self@.id,
    {
        &self.id
    }

    /// The member's display name.
    pub fn name(&self) -> (r: &String)
        ensures
            r@ == self@.name,
    {
        &self.name
    }

    /// The member's vote; `0` means "no vote cast this round".
    pub fn vote(&self) -> (r: u16)
        ensures
            r == self@.vote,
    {
        self.vote
    }

    /// The member's last liveness stamp.
    pub fn ping(&self) -> (r: u64)
        ensures
            r == self@.ping,
    {
        self.ping
    }

    /// An equal, independently owned member record.
    pub fn duplicate(&self) -> (r: Member)
        ensures
            r == *self,
    {
        Member { id: self.id.clone(), name: self.name.clone(), vote: self.vote, ping: self.ping }
    }
}

impl PokerRoom {
    #[verifier::type_invariant]
    spec fn wf(self) -> bool {
        unique_member_ids(self.members@)
    }

    /// A fresh, hidden, empty room under the given identifier.
    pub fn create(id: String) -> (r: PokerRoom)
        ensures
            r@ == empty_room(id@),
    {
        let r = PokerRoom { id, revealed: false, members: Vec::new() };
        proof {
            assert(r@.members =~= empty_room(r@.id).members);
        }
        r
    }

    /// Builds a room from its parts; refuses a member list with a repeated
    /// id, so every room that exists is well formed.
    pub fn assemble(id: String, revealed: bool, members: Vec<Member>) -> (r: Option<PokerRoom>)
        ensures
            match r {
                Some(room) => unique_member_ids(members@) && room@ == (RoomView {
                    id: id@,
                    revealed,
                    members: members_map(members@),
                }),
                None => !unique_member_ids(members@),
            },
    {
        let n = members.len();
        let mut i: usize = 0;
        while i < n
            invariant
                n == members@.len(),
                i <= n,
                forall|p: int, q: int| 0 <= p < q < n && p < i ==> members@[p]@.id != members@[q]@.id,
            decreases n - i,
        {
            let mut j = i + 1;
            while j < n
                invariant
                    n == members@.len(),
                    i < n,
                    i + 1 <= j <= n,
                    forall|q: int| i < q < j ==> members@[i as int]@.id != members@[q]@.id,
                decreases n - j,
            {
                if str_eq(members[i].id.as_str(), members[j].id.as_str()) {
                    return None;
                }
                j = j + 1;
            }
            i = i + 1;
        }
        Some(PokerRoom { id, revealed, members })
    }

    /// The room's identifier.
    pub fn id(&self) -> (r: &String)
        ensures
            r@ == self@.id,
    {
        &self.id
    }

    /// Whether the votes are currently revealed.
    pub fn revealed(&self) -> (r: bool)
        ensures
            r == self@.revealed,
    {
        self.revealed
    }

    /// The member records, in no meaningful order; they carry no repeated id
    /// and denote exactly the room's member map.
    pub fn members(&self) -> (r: &Vec<Member>)
        ensures
            unique_member_ids(r@),
            members_map(r@) == self@.members,
    {
        proof {
            use_type_invariant(&*self);
        }
        &self.members
    }

    /// How many members the room holds.
    pub fn member_count(&self) -> (r: usize)
        ensures
            r == self@.members.dom().len(),
    {
        proof {
            use_type_invariant(&*self);
            lemma_members_map_len(self.members@);
        }
        self.members.len()
    }

    /// Whether a member with this id is present.
    pub fn has_member(&self, member_id: &str) -> (r: bool)
        ensures
            r == self@.members.dom().contains(member_id@),
    {
        proof {
            use_type_invariant(&*self);
        }
        match find_member(&self.members, member_id) {
            Some(i) => {
                proof {
                    lemma_member_index(self.members@, i as int);
                }
                true
            },
            None => false,
        }
    }

    /// The vote of the member with this id, if present.
    pub fn vote_of(&self, member_id: &str) -> (r: Option<u16>)
        ensures
            r == (if self@.members.dom().contains(member_id@) {
                Some(self@.members[member_id@].vote)
            } else {
                None::<u16>
            }),
    {
        proof {
            use_type_invariant(&*self);
        }
        match find_member(&self.members, member_id) {
            Some(i) => {
                proof {
                    lemma_member_index(self.members@, i as int);
                }
                Some(self.members[i].vote)
            },
            None => None,
        }
    }

    /// The display name of the member with this id, if present.
    pub fn name_of(&self, member_id: &str) -> (r: Option<String>)
        ensures
            match r {
                Some(n) => self@.members.dom().contains(member_id@) && n@ == self@.members[member_id@].name,
                None => !self@.members.dom().contains(member_id@),
            },
    {
        proof {
            use_type_invariant(&*self);
        }
        match find_member(&self.members, member_id) {
            Some(i) => {
                proof {
                    lemma_member_index(self.members@, i as int);
                }
                Some(self.members[i].name.clone())
            },
            None => None,
        }
    }

    /// The liveness stamp of the member with this id, if present.
    pub fn ping_of(&self, member_id: &str) -> (r: Option<u64>)
        ensures
            r == (if self@.members.dom().contains(member_id@) {
                Some(self@.members[member_id@].ping)
            } else {
                None::<u64>
            }),
    {
        proof {
            use_type_invariant(&*self);
        }
        match find_member(&self.members, member_id) {
            Some(i) => {
                proof {
                    lemma_member_index(self.members@, i as int);
                }
                Some(self.members[i].ping)
            },
            None => None,
        }
    }

    /// An equal, independently owned room document.
    pub fn duplicate(&self) -> (r: PokerRoom)
        ensures
            r@ == self@,
    {
        proof {
            use_type_invariant(&*self);
        }
        let mut mem: Vec<Member> = Vec::new();
        let mut i: usize = 0;
        while i < self.members.len()
            invariant
                i <= self.members@.len(),
                mem@.len() == i,
                forall|j: int| 0 <= j < i ==> mem@[j] == self.members@[j],
            decreases self.members@.len() - i,
        {
            let src = &self.members[i];
            mem.push(Member {
                id: src.id.clone(),
                name: src.name.clone(),
                vote: src.vote,
                ping: src.ping,
            });
            i = i + 1;
        }
        proof {
            assert(mem@ =~= self.members@);
        }
        PokerRoom { id: self.id.clone(), revealed: self.revealed, members: mem }
    }

    /// Inserts a fresh member under `member_id` only if that id is absent;
    /// otherwise the whole document, the existing vote included, is kept.
    pub fn join(&mut self, member_id: &str, name: &str, now: u64)
        ensures
            final(self)@ == join_step(old(self)@, member_id@, name@, now),
    {
        proof {
            use_type_invariant(&*self);
        }
        match find_member(&self.members, member_id) {
            Some(i) => {
                proof {
                    lemma_member_index(self.members@, i as int);
                }
            },
            None => {
                let m = Member {
                    id: member_id.to_owned(),
                    name: name.to_owned(),
                    vote: 0,
                    ping: now,
                };
                let ghost s0 = self.members@;
                let ghost gm = m;
                let mut mem: Vec<Member> = Vec::new();
                std::mem::swap(&mut mem, &mut self.members);
                mem.push(m);
                proof {
                    lemma_members_push(s0, gm);
                }
                self.members = mem;
                proof {
                    assert(self@ =~= join_step(old(self)@, member_id@, name@, now));
                }
            },
        }
    }

    /// Sets the vote of the member under `member_id` and reports whether the
    /// member was present; an absent id leaves the document unchanged.
    pub fn cast_vote(&mut self, member_id: &str, value: u16) -> (r: bool)
        ensures
            r == old(self)@.members.dom().contains(member_id@),
            final(self)@ == cast_step(old(self)@, member_id@, value),
    {
        proof {
            use_type_invariant(&*self);
        }
        match find_member(&self.members, member_id) {
            None => false,
            Some(i) => {
                proof {
                    lemma_member_index(self.members@, i as int);
                }
                let ghost s0 = self.members@;
                let mut mem: Vec<Member> = Vec::new();
                std::mem::swap(&mut mem, &mut self.members);
                let mut m = mem.remove(i);
                m.vote = value;
                let ghost gm = m;
                mem.insert(i, m);
                proof {
                    assert(mem@ =~= s0.update(i as int, gm));
                    lemma_members_update(s0, i as int, gm);
                }
                self.members = mem;
                proof {
                    assert(self@ =~= cast_step(old(self)@, member_id@, value));
                }
                true
            },
        }
    }

    /// Raises the reveal flag; everything else is kept.
    pub fn reveal_votes(&mut self)
        ensures
            final(self)@ == reveal_step(old(self)@),
    {
        proof {
            use_type_invariant(&*self);
        }
        self.revealed = true;
        proof {
            assert(self@ =~= reveal_step(old(self)@));
        }
    }

    /// Clears every member's vote, refreshes every liveness stamp and hides
    /// the votes again; members, their ids and their names are kept.
    pub fn reset(&mut self, now: u64)
        ensures
            final(self)@ == reset_step(old(self)@, now),
    {
        proof {
            use_type_invariant(&*self);
        }
        let ghost s0 = self.members@;
        let mut mem: Vec<Member> = Vec::new();
        std::mem::swap(&mut mem, &mut self.members);
        let mut cleared: Vec<Member> = Vec::new();
        let mut i: usize = 0;
        while i < mem.len()
            invariant
                mem@ == s0,
                i <= s0.len(),
                cleared@.len() == i,
                forall|j: int| 0 <= j < i ==> cleared@[j]@ == cleared_member(s0[j]@, now),
            decreases s0.len() - i,
        {
            let src = &mem[i];
            cleared.push(Member { id: src.id.clone(), name: src.name.clone(), vote: 0, ping: now });
            i = i + 1;
        }
        proof {
            lemma_members_clear(s0, cleared@, now);
        }
        self.revealed = false;
        self.members = cleared;
        proof {
            assert(self@ =~= reset_step(old(self)@, now));
        }
    }

    /// Removes the member under `member_id` if present; an absent id is a
    /// no-op.
    pub fn remove_member(&mut self, member_id: &str)
        ensures
            final(self)@ == leave_step(old(self)@, member_id@),
    {
        proof {
            use_type_invariant(&*self);
        }
        match find_member(&self.members, member_id) {
            None => {
                proof {
                    assert(self@.members =~= leave_step(old(self)@, member_id@).members);
                    assert(self@ =~= leave_step(old(self)@, member_id@));
                }
            },
            Some(i) => {
                proof {
                    lemma_member_index(self.members@, i as int);
                }
                let ghost s0 = self.members@;
                let mut mem: Vec<Member> = Vec::new();
                std::mem::swap(&mut mem, &mut self.members);
                mem.remove(i);
                proof {
                    lemma_members_remove(s0, i as int);
                }
                self.members = mem;
                proof {
                    assert(self@ =~= leave_step(old(self)@, member_id@));
                }
            },
        }
    }

    /// Refreshes the liveness stamp of the member under `member_id` and
    /// reports whether the member was present; an absent id leaves the
    /// document unchanged.
    pub fn refresh_ping(&mut self, member_id: &str, now: u64) -> (r: bool)
        ensures
            r == old(self)@.members.dom().contains(member_id@),
            final(self)@ == ping_step(old(self)@, member_id@, now),
    {
        proof {
            use_type_invariant(&*self);
        }
        match find_member(&self.members, member_id) {
            None => false,
            Some(i) => {
                proof {
                    lemma_member_index(self.members@, i as int);
                }
                let ghost s0 = self.members@;
                let mut mem: Vec<Member> = Vec::new();
                std::mem::swap(&mut mem, &mut self.members);
                let mut m = mem.remove(i);
                m.ping = now;
                let ghost gm = m;
                mem.insert(i, m);
                proof {
                    assert(mem@ =~= s0.update(i as int, gm));
                    lemma_members_update(s0, i as int, gm);
                }
                self.members = mem;
                proof {
                    assert(self@ =~= ping_step(old(self)@, member_id@, now));
                }
                true
            },
        }
    }

    /// Every entry of a room's member map carries the id it is keyed under.
    pub proof fn lemma_member_entry_matches_key(&self, k: Seq<char>)
        requires
            self@.members.dom().contains(k),
        ensures
            self@.members[k].id == k,
    {
        let i = member_key_index(self.members@, k);
        assert(0 <= i < self.members@.len() && self.members@[i]@.id == k);
    }
}

/// After a reset every vote is cleared and the room is hidden, while the
/// member id set, each member's id and each member's name are unchanged.
pub proof fn lemma_reset_clears_votes(r: RoomView, now: u64)
    ensures
        reset_step(r, now).id == r.id,
        !reset_step(r, now).revealed,
        reset_step(r, now).members.dom() =~= r.members.dom(),
        forall|k: Seq<char>| r.members.dom().contains(k) ==> {
            let m = reset_step(r, now).members[k];
            m.vote == 0 && m.ping == now && m.id == r.members[k].id && m.name == r.members[k].name
        },
{
}

/// Joining is idempotent on vote state: after a join, a cast vote and a
/// second join with the same member id, the second join leaves the document
/// unchanged and the vote is still the cast one.
pub proof fn lemma_rejoin_keeps_vote(
    r: RoomView,
    member_id: Seq<char>,
    name1: Seq<char>,
    name2: Seq<char>,
    value: u16,
    t1: u64,
    t2: u64,
)
    ensures
        ({
            let voted = cast_step(join_step(r, member_id, name1, t1), member_id, value);
            join_step(voted, member_id, name2, t2) == voted && voted.members[member_id].vote
                == value
        }),
{
}

/// Leaving with an id that is not a member returns the room unchanged.
pub proof fn lemma_leave_absent_is_noop(r: RoomView, member_id: Seq<char>)
    requires
        !r.members.dom().contains(member_id),
    ensures
        leave_step(r, member_id) == r,
{
    assert(leave_step(r, member_id).members =~= r.members);
    assert(leave_step(r, member_id) =~= r);
}

/// Revealing twice yields the same document as revealing once.
pub proof fn lemma_reveal_idempotent(r: RoomView)
    ensures
        reveal_step(reveal_step(r)) == reveal_step(r),
{
}

} // verus!
