use poker_rooms::Coordinator;
use poker_rooms::PokerError;
use poker_rooms::PokerRoom;
use poker_rooms::RoomStore;
use poker_rooms::millis_since_epoch;

fn fresh() -> Coordinator {
    Coordinator::new(RoomStore::new())
}

fn snapshot(room: &PokerRoom) -> (String, bool, Vec<(String, String, u16, u64)>) {
    let mut members: Vec<(String, String, u16, u64)> = room
        .members()
        .iter()
        .map(|m| (m.id().clone(), m.name().clone(), m.vote(), m.ping()))
        .collect();
    members.sort();
    (room.id().clone(), room.revealed(), members)
}

#[test]
fn create_room_empty() {
    let mut c = fresh();
    let room = c.create_room(None, None, 10);
    assert_eq!(room.id().len(), 36);
    assert!(!room.revealed());
    assert_eq!(room.members().len(), 0);
    assert_eq!(room.member_count(), 0);
}

#[test]
fn create_room_with_initial_member() {
    let mut c = fresh();
    let room = c.create_room(Some("Alice"), Some("m1"), 10);
    assert!(!room.revealed());
    assert_eq!(room.members().len(), 1);
    assert!(room.has_member("m1"));
    assert_eq!(room.name_of("m1"), Some("Alice".to_string()));
    assert_eq!(room.vote_of("m1"), Some(0));
    assert_eq!(room.ping_of("m1"), Some(10));
}

#[test]
fn create_room_with_half_supplied_member_stays_empty() {
    let mut c = fresh();
    let room = c.create_room(Some("Alice"), None, 10);
    assert_eq!(room.members().len(), 0);
    let room = c.create_room(None, Some("m1"), 10);
    assert_eq!(room.members().len(), 0);
}

#[test]
fn full_round_scenario() {
    let mut c = fresh();
    let created = c.create_room(None, None, 1);
    let rid = created.id().clone();

    let joined = c.join_room(Some(&rid), Some("Alice"), Some("m1"), 2).unwrap();
    assert_eq!(joined.members().len(), 1);
    assert_eq!(joined.vote_of("m1"), Some(0));

    let voted = c.cast_vote(Some(&rid), Some("m1"), Some("5")).unwrap();
    assert_eq!(voted.vote_of("m1"), Some(5));

    let revealed = c.reveal_room(Some(&rid)).unwrap();
    assert!(revealed.revealed());
    assert_eq!(revealed.vote_of("m1"), Some(5));

    let cleared = c.reset(Some(&rid), 9).unwrap();
    assert!(!cleared.revealed());
    assert!(cleared.has_member("m1"));
    assert_eq!(cleared.vote_of("m1"), Some(0));
    assert_eq!(cleared.name_of("m1"), Some("Alice".to_string()));
    assert_eq!(cleared.ping_of("m1"), Some(9));
}

#[test]
fn cast_vote_on_absent_member_fails_and_changes_nothing() {
    let mut c = fresh();
    let created = c.create_room(Some("Alice"), Some("m1"), 1);
    let rid = created.id().clone();
    let before = snapshot(&c.get_room(Some(&rid)).unwrap());

    let r = c.cast_vote(Some(&rid), Some("ghost"), Some("3"));
    assert_eq!(r.unwrap_err(), PokerError::NotFound);

    let after = snapshot(&c.get_room(Some(&rid)).unwrap());
    assert_eq!(before, after);
}

#[test]
fn leave_with_absent_member_is_a_noop_not_an_error() {
    let mut c = fresh();
    let created = c.create_room(Some("Alice"), Some("m1"), 1);
    let rid = created.id().clone();
    let before = snapshot(&created);

    let r = c.exit_room(Some(&rid), Some("nobody")).unwrap();
    assert_eq!(snapshot(&r), before);
}

#[test]
fn leave_removes_a_present_member() {
    let mut c = fresh();
    let created = c.create_room(Some("Alice"), Some("m1"), 1);
    let rid = created.id().clone();
    c.join_room(Some(&rid), Some("Bob"), Some("m2"), 2).unwrap();

    let r = c.exit_room(Some(&rid), Some("m1")).unwrap();
    assert!(!r.has_member("m1"));
    assert!(r.has_member("m2"));
    assert_eq!(r.members().len(), 1);
}

#[test]
fn reveal_twice_returns_an_identical_document() {
    let mut c = fresh();
    let created = c.create_room(Some("Alice"), Some("m1"), 1);
    let rid = created.id().clone();
    c.cast_vote(Some(&rid), Some("m1"), Some("8")).unwrap();

    let first = c.reveal_room(Some(&rid)).unwrap();
    let second = c.reveal_room(Some(&rid)).unwrap();
    assert_eq!(snapshot(&first), snapshot(&second));
    assert!(second.revealed());
    assert_eq!(second.vote_of("m1"), Some(8));
}

#[test]
fn rejoin_after_vote_keeps_the_vote() {
    let mut c = fresh();
    let created = c.create_room(None, None, 1);
    let rid = created.id().clone();

    c.join_room(Some(&rid), Some("Alice"), Some("m1"), 2).unwrap();
    c.cast_vote(Some(&rid), Some("m1"), Some("5")).unwrap();
    let rejoined = c.join_room(Some(&rid), Some("Alice"), Some("m1"), 3).unwrap();

    assert_eq!(rejoined.vote_of("m1"), Some(5));
}

#[test]
fn get_room_mutates_nothing_and_repeats_its_answer() {
    let mut c = fresh();
    let created = c.create_room(Some("Alice"), Some("m1"), 1);
    let rid = created.id().clone();
    c.cast_vote(Some(&rid), Some("m1"), Some("3")).unwrap();

    let a = snapshot(&c.get_room(Some(&rid)).unwrap());
    let b = snapshot(&c.get_room(Some(&rid)).unwrap());
    let d = snapshot(&c.get_room(Some(&rid)).unwrap());
    assert_eq!(a, b);
    assert_eq!(b, d);

    c.reveal_room(Some(&rid)).unwrap();
    let e = snapshot(&c.get_room(Some(&rid)).unwrap());
    let f = snapshot(&c.get_room(Some(&rid)).unwrap());
    assert_eq!(e, f);
    assert_ne!(a, e);
}

#[test]
fn missing_arguments_are_rejected_before_any_store_access() {
    let mut c = fresh();
    let created = c.create_room(None, None, 1);
    let rid = created.id().clone();

    assert_eq!(
        c.join_room(None, Some("Alice"), Some("m1"), 2).unwrap_err(),
        PokerError::InvalidArgument
    );
    assert_eq!(
        c.join_room(Some(&rid), None, Some("m1"), 2).unwrap_err(),
        PokerError::InvalidArgument
    );
    assert_eq!(
        c.join_room(Some(&rid), Some("Alice"), None, 2).unwrap_err(),
        PokerError::InvalidArgument
    );
    assert_eq!(
        c.cast_vote(Some(&rid), Some("m1"), None).unwrap_err(),
        PokerError::InvalidArgument
    );
    assert_eq!(c.reveal_room(None).unwrap_err(), PokerError::InvalidArgument);
    assert_eq!(c.reset(None, 2).unwrap_err(), PokerError::InvalidArgument);
    assert_eq!(c.exit_room(Some(&rid), None).unwrap_err(), PokerError::InvalidArgument);
    assert_eq!(c.ping_room(None, Some("m1"), 2).unwrap_err(), PokerError::InvalidArgument);
    assert_eq!(c.get_room(None).unwrap_err(), PokerError::InvalidArgument);
}

#[test]
fn malformed_votes_are_invalid_arguments() {
    let mut c = fresh();
    let created = c.create_room(Some("Alice"), Some("m1"), 1);
    let rid = created.id().clone();

    for bad in ["", "abc", "1a", "-3", "3.5", "65536", "999999", " 5"] {
        assert_eq!(
            c.cast_vote(Some(&rid), Some("m1"), Some(bad)).unwrap_err(),
            PokerError::InvalidArgument,
            "vote argument {:?} should be malformed",
            bad
        );
    }
    let r = c.cast_vote(Some(&rid), Some("m1"), Some("65535")).unwrap();
    assert_eq!(r.vote_of("m1"), Some(65535));
}

#[test]
fn operations_on_an_unknown_room_report_not_found() {
    let mut c = fresh();
    let bogus = Some("no-such-room");
    assert_eq!(c.get_room(bogus).unwrap_err(), PokerError::NotFound);
    assert_eq!(c.join_room(bogus, Some("Alice"), Some("m1"), 1).unwrap_err(), PokerError::NotFound);
    assert_eq!(c.cast_vote(bogus, Some("m1"), Some("3")).unwrap_err(), PokerError::NotFound);
    assert_eq!(c.reveal_room(bogus).unwrap_err(), PokerError::NotFound);
    assert_eq!(c.reset(bogus, 1).unwrap_err(), PokerError::NotFound);
    assert_eq!(c.exit_room(bogus, Some("m1")).unwrap_err(), PokerError::NotFound);
    assert_eq!(c.ping_room(bogus, Some("m1"), 1).unwrap_err(), PokerError::NotFound);
}

#[test]
fn ping_on_absent_member_reports_not_found() {
    let mut c = fresh();
    let created = c.create_room(Some("Alice"), Some("m1"), 1);
    let rid = created.id().clone();
    assert_eq!(c.ping_room(Some(&rid), Some("ghost"), 2).unwrap_err(), PokerError::NotFound);
}

#[test]
fn ping_refreshes_the_liveness_stamp() {
    let mut c = fresh();
    let created = c.create_room(Some("Alice"), Some("m1"), 1);
    let rid = created.id().clone();
    let r = c.ping_room(Some(&rid), Some("m1"), 77).unwrap();
    assert_eq!(r.ping_of("m1"), Some(77));
    assert_eq!(r.vote_of("m1"), Some(0));
}

#[test]
fn reset_clears_every_vote_and_keeps_every_member() {
    let mut c = fresh();
    let created = c.create_room(Some("Alice"), Some("m1"), 1);
    let rid = created.id().clone();
    c.join_room(Some(&rid), Some("Bob"), Some("m2"), 2).unwrap();
    c.cast_vote(Some(&rid), Some("m1"), Some("3")).unwrap();
    c.cast_vote(Some(&rid), Some("m2"), Some("8")).unwrap();
    c.reveal_room(Some(&rid)).unwrap();

    let r = c.reset(Some(&rid), 42).unwrap();
    assert!(!r.revealed());
    assert_eq!(r.member_count(), 2);
    assert_eq!(r.vote_of("m1"), Some(0));
    assert_eq!(r.vote_of("m2"), Some(0));
    assert_eq!(r.name_of("m1"), Some("Alice".to_string()));
    assert_eq!(r.name_of("m2"), Some("Bob".to_string()));
    assert_eq!(r.ping_of("m1"), Some(42));
    assert_eq!(r.ping_of("m2"), Some(42));
}

#[test]
fn the_wall_clock_is_usable_as_a_liveness_stamp() {
    let mut c = fresh();
    let now = millis_since_epoch();
    let created = c.create_room(Some("Alice"), Some("m1"), now);
    assert_eq!(created.ping_of("m1"), Some(now));
}

#[test]
fn two_created_rooms_live_side_by_side() {
    let mut c = fresh();
    let a = c.create_room(Some("Alice"), Some("m1"), 1);
    let b = c.create_room(Some("Bob"), Some("m2"), 1);
    c.cast_vote(Some(a.id().as_str()), Some("m1"), Some("3")).unwrap();
    let got_a = c.get_room(Some(a.id().as_str())).unwrap();
    let got_b = c.get_room(Some(b.id().as_str())).unwrap();
    assert_eq!(got_a.vote_of("m1"), Some(3));
    assert_eq!(got_b.vote_of("m2"), Some(0));
    assert!(!got_b.has_member("m1"));
}
