use game_relay::registry::{room_id_text, SessionState};

fn s(x: &str) -> String {
    x.to_string()
}

fn is_four_digit_id(id: &str) -> bool {
    id.len() == 4 && id.chars().all(|c| c.is_ascii_digit()) && !id.starts_with('0')
}

#[test]
fn new_registry_is_empty() {
    let reg = SessionState::new();
    assert_eq!(reg.room_count(), 0);
    assert_eq!(reg.get_player_room(&s("alice")), None);
    assert_eq!(reg.member_count(&s("1234")), 0);
}

#[test]
fn room_id_text_gives_four_digits() {
    assert_eq!(room_id_text(1000), "1000");
    assert_eq!(room_id_text(1234), "1234");
    assert_eq!(room_id_text(9999), "9999");
    assert_eq!(room_id_text(4070), "4070");
}

#[test]
fn create_room_makes_empty_four_digit_room() {
    let mut reg = SessionState::new();
    let id = reg.create_room(7).expect("a free identifier");
    assert!(is_four_digit_id(&id));
    assert!(reg.has_room(&id));
    assert_eq!(reg.member_count(&id), 0);
    assert_eq!(reg.room_count(), 1);
}

#[test]
fn claim_room_refuses_a_taken_number() {
    let mut reg = SessionState::new();
    assert_eq!(reg.claim_room(1234, 0), Some(s("1234")));
    assert_eq!(reg.claim_room(1234, 5), None);
    assert_eq!(reg.room_count(), 1);
}

#[test]
fn many_created_rooms_have_distinct_ids() {
    let mut reg = SessionState::new();
    let mut ids: Vec<String> = Vec::new();
    for t in 0..200u64 {
        ids.push(reg.create_room(t).expect("a free identifier"));
    }
    let mut sorted = ids.clone();
    sorted.sort();
    sorted.dedup();
    assert_eq!(sorted.len(), 200);
    assert_eq!(reg.room_count(), 200);
}

#[test]
fn create_room_avoiding_skips_the_given_id() {
    let mut reg = SessionState::new();
    for n in 1000..9999u32 {
        assert!(reg.claim_room(n, 0).is_some());
    }
    // Only 9999 is left; it may not be used when avoided.
    assert_eq!(reg.create_room_avoiding(1, Some(&s("9999"))), None);
    assert_eq!(reg.create_room(1), Some(s("9999")));
    assert_eq!(reg.create_room(2), None);
}

#[test]
fn join_unknown_room_fails_and_changes_nothing() {
    let mut reg = SessionState::new();
    assert!(!reg.join_room(&s("4321"), &s("alice"), 3));
    assert_eq!(reg.get_player_room(&s("alice")), None);
    assert_eq!(reg.room_count(), 0);
}

#[test]
fn join_records_membership_both_ways() {
    let mut reg = SessionState::new();
    reg.claim_room(2000, 0);
    assert!(reg.join_room(&s("2000"), &s("alice"), 1));
    assert!(reg.join_room(&s("2000"), &s("bob"), 2));
    assert_eq!(reg.get_player_room(&s("alice")), Some(s("2000")));
    assert_eq!(reg.members(&s("2000")), Some(vec![s("alice"), s("bob")]));
    assert_eq!(reg.member_count(&s("2000")), 2);
}

#[test]
fn join_twice_is_idempotent() {
    let mut reg = SessionState::new();
    reg.claim_room(2000, 0);
    assert!(reg.join_room(&s("2000"), &s("alice"), 1));
    assert!(reg.join_room(&s("2000"), &s("alice"), 2));
    assert_eq!(reg.member_count(&s("2000")), 1);
}

#[test]
fn joining_another_room_moves_the_player() {
    let mut reg = SessionState::new();
    reg.claim_room(2000, 0);
    reg.claim_room(3000, 0);
    reg.join_room(&s("2000"), &s("alice"), 1);
    reg.join_room(&s("2000"), &s("bob"), 1);
    assert!(reg.join_room(&s("3000"), &s("alice"), 2));
    assert_eq!(reg.members(&s("2000")), Some(vec![s("bob")]));
    assert_eq!(reg.members(&s("3000")), Some(vec![s("alice")]));
    assert_eq!(reg.get_player_room(&s("alice")), Some(s("3000")));
}

#[test]
fn leave_removes_membership_both_ways() {
    let mut reg = SessionState::new();
    reg.claim_room(2000, 0);
    reg.join_room(&s("2000"), &s("alice"), 1);
    reg.join_room(&s("2000"), &s("bob"), 1);
    reg.leave_room(&s("alice"), 5);
    assert_eq!(reg.get_player_room(&s("alice")), None);
    assert_eq!(reg.members(&s("2000")), Some(vec![s("bob")]));
    assert!(reg.has_room(&s("2000")));
}

#[test]
fn leave_without_room_is_a_no_op() {
    let mut reg = SessionState::new();
    reg.claim_room(2000, 0);
    reg.leave_room(&s("nobody"), 5);
    assert_eq!(reg.room_count(), 1);
    assert_eq!(reg.get_player_room(&s("nobody")), None);
}

#[test]
fn mapping_matches_membership_after_mixed_operations() {
    let mut reg = SessionState::new();
    reg.claim_room(2000, 0);
    reg.claim_room(3000, 0);
    let players = ["a", "b", "c", "d"];
    let rooms = ["2000", "3000", "5555"];
    let mut t = 1u64;
    for round in 0..12usize {
        let p = s(players[round % 4]);
        if round % 3 == 2 {
            reg.leave_room(&p, t);
        } else {
            reg.join_room(&s(rooms[round % 3]), &p, t);
        }
        t += 1;
        for q in players.iter() {
            let q = s(q);
            for r in ["2000", "3000"] {
                let listed = reg.members(&s(r)).unwrap().contains(&q);
                assert_eq!(reg.get_player_room(&q) == Some(s(r)), listed);
            }
        }
    }
}

#[test]
fn eviction_removes_only_idle_empty_rooms() {
    let mut reg = SessionState::new();
    reg.claim_room(2000, 0);
    reg.claim_room(3000, 0);
    reg.claim_room(4000, 90);
    reg.join_room(&s("3000"), &s("alice"), 0);
    reg.evict_idle_rooms(100, 50);
    assert!(!reg.has_room(&s("2000")));
    assert!(reg.has_room(&s("3000")));
    assert!(reg.has_room(&s("4000")));
    assert_eq!(reg.get_player_room(&s("alice")), Some(s("3000")));
    assert_eq!(reg.room_count(), 2);
}

#[test]
fn eviction_counts_idle_time_inclusively() {
    let mut reg = SessionState::new();
    reg.claim_room(2000, 50);
    reg.evict_idle_rooms(99, 50);
    assert!(reg.has_room(&s("2000")));
    reg.evict_idle_rooms(100, 50);
    assert!(!reg.has_room(&s("2000")));
}
