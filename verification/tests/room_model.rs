use poker_rooms::Member;
use poker_rooms::PokerRoom;
use poker_rooms::parse_vote;

#[test]
fn parse_vote_reads_exact_values() {
    assert_eq!(parse_vote("0"), Some(0));
    assert_eq!(parse_vote("5"), Some(5));
    assert_eq!(parse_vote("13"), Some(13));
    assert_eq!(parse_vote("007"), Some(7));
    assert_eq!(parse_vote("65535"), Some(65535));
}

#[test]
fn parse_vote_rejects_malformed_numerals() {
    assert_eq!(parse_vote(""), None);
    assert_eq!(parse_vote("abc"), None);
    assert_eq!(parse_vote("1a"), None);
    assert_eq!(parse_vote("-1"), None);
    assert_eq!(parse_vote("+1"), None);
    assert_eq!(parse_vote("1 "), None);
    assert_eq!(parse_vote("65536"), None);
    assert_eq!(parse_vote("99999999999999999999"), None);
    assert_eq!(parse_vote("١٣"), None);
}

#[test]
fn assemble_accepts_distinct_member_ids() {
    let members = vec![
        Member::assemble("m1".to_string(), "Alice".to_string(), 3, 7),
        Member::assemble("m2".to_string(), "Bob".to_string(), 0, 8),
    ];
    let room = PokerRoom::assemble("r1".to_string(), true, members).unwrap();
    assert_eq!(room.id(), "r1");
    assert!(room.revealed());
    assert_eq!(room.vote_of("m1"), Some(3));
    assert_eq!(room.name_of("m2"), Some("Bob".to_string()));
    assert_eq!(room.ping_of("m2"), Some(8));
    assert!(!room.has_member("m3"));
}

#[test]
fn assemble_rejects_a_repeated_member_id() {
    let members = vec![
        Member::assemble("m1".to_string(), "Alice".to_string(), 3, 7),
        Member::assemble("m1".to_string(), "Bob".to_string(), 0, 8),
    ];
    assert!(PokerRoom::assemble("r1".to_string(), false, members).is_none());
}

#[test]
fn member_records_report_their_fields() {
    let m = Member::assemble("m9".to_string(), "Eve".to_string(), 21, 1000);
    assert_eq!(m.id(), "m9");
    assert_eq!(m.name(), "Eve");
    assert_eq!(m.vote(), 21);
    assert_eq!(m.ping(), 1000);
    let d = m.duplicate();
    assert_eq!(d.id(), "m9");
    assert_eq!(d.vote(), 21);
}

#[test]
fn a_duplicated_room_equals_its_original() {
    let members = vec![Member::assemble("m1".to_string(), "Alice".to_string(), 3, 7)];
    let room = PokerRoom::assemble("r1".to_string(), false, members).unwrap();
    let copy = room.duplicate();
    assert_eq!(copy.id(), room.id());
    assert_eq!(copy.revealed(), room.revealed());
    assert_eq!(copy.vote_of("m1"), room.vote_of("m1"));
    assert_eq!(copy.members().len(), room.members().len());
}

#[test]
fn a_room_mutates_in_place_outside_any_store() {
    let room = PokerRoom::assemble("r1".to_string(), false, Vec::new());
    let mut room = room.unwrap();
    room.join("m1", "Alice", 5);
    assert!(room.has_member("m1"));
    assert!(room.cast_vote("m1", 8));
    assert_eq!(room.vote_of("m1"), Some(8));
    assert!(!room.cast_vote("ghost", 8));
    room.reveal_votes();
    assert!(room.revealed());
    room.reset(6);
    assert!(!room.revealed());
    assert_eq!(room.vote_of("m1"), Some(0));
    assert_eq!(room.ping_of("m1"), Some(6));
    assert!(room.refresh_ping("m1", 9));
    assert_eq!(room.ping_of("m1"), Some(9));
    room.remove_member("m1");
    assert!(!room.has_member("m1"));
}
