use game_relay::protocol::{GameMessage, Position};
use game_relay::registry::SessionState;
use game_relay::router::broadcast_recipients;
use game_relay::session::{
    Frame, FrameAction, GameSession, HeartbeatAction, Outbound, CLIENT_TIMEOUT_MS, HEARTBEAT_INTERVAL_MS,
};
use game_relay::strmap::StrMap;

fn s(x: &str) -> String {
    x.to_string()
}

fn pos() -> Position {
    Position { x: 1.5f32.to_bits(), y: 0, z: (-2.0f32).to_bits(), rotation: Some(90.0f32.to_bits()) }
}

fn join(room_id: Option<&str>, create_room: Option<bool>) -> GameMessage {
    GameMessage::Join { player_id: None, room_id: room_id.map(s), create_room }
}

fn joined_room(out: &Outbound) -> (String, String, usize) {
    match out {
        Outbound::Joined { player_id, room_id, players_count } => {
            (player_id.clone(), room_id.clone(), *players_count)
        }
        other => panic!("expected a Join reply, got {:?}", other),
    }
}

fn is_four_digit_id(id: &str) -> bool {
    id.len() == 4 && id.chars().all(|c| c.is_ascii_digit()) && !id.starts_with('0')
}

#[test]
fn join_with_create_room_makes_and_joins_a_room() {
    let mut reg = SessionState::new();
    let a = GameSession::new(s("alice"), 0);
    let out = a.handle_game_message(&mut reg, join(None, Some(true)), 1);
    let (player, room, count) = joined_room(&out);
    assert_eq!(player, "alice");
    assert!(is_four_digit_id(&room));
    assert_eq!(count, 1);
    assert_eq!(reg.get_player_room(&s("alice")), Some(room));
}

#[test]
fn join_with_create_room_ignores_given_room_id() {
    let mut reg = SessionState::new();
    reg.claim_room(2000, 0);
    let a = GameSession::new(s("alice"), 0);
    let out = a.handle_game_message(&mut reg, join(Some("2000"), Some(true)), 1);
    let (_, room, count) = joined_room(&out);
    assert_ne!(room, "2000");
    assert_eq!(count, 1);
    assert_eq!(reg.member_count(&s("2000")), 0);
}

#[test]
fn join_without_room_creates_one() {
    let mut reg = SessionState::new();
    let a = GameSession::new(s("alice"), 0);
    let out = a.handle_game_message(&mut reg, join(None, None), 1);
    let (_, room, count) = joined_room(&out);
    assert!(is_four_digit_id(&room));
    assert_eq!(count, 1);
    assert_eq!(reg.room_count(), 1);
}

#[test]
fn join_existing_room_by_id() {
    let mut reg = SessionState::new();
    let a = GameSession::new(s("alice"), 0);
    let b = GameSession::new(s("bob"), 0);
    let (_, room, _) = joined_room(&a.handle_game_message(&mut reg, join(None, Some(true)), 1));
    let out = b.handle_game_message(&mut reg, join(Some(&room), Some(false)), 2);
    assert_eq!(out, Outbound::Joined { player_id: s("bob"), room_id: room.clone(), players_count: 2 });
    assert_eq!(reg.members(&room), Some(vec![s("alice"), s("bob")]));
}

#[test]
fn join_unknown_room_falls_back_to_a_new_one() {
    for requested in ["9999", "1000", "abcd", ""] {
        let mut reg = SessionState::new();
        let a = GameSession::new(s("alice"), 0);
        let out = a.handle_game_message(&mut reg, join(Some(requested), None), 1);
        let (player, room, count) = joined_room(&out);
        assert_eq!(player, "alice");
        assert_ne!(room, requested);
        assert!(is_four_digit_id(&room));
        assert_eq!(count, 1);
        assert!(!reg.has_room(&s(requested)));
        assert_eq!(reg.room_count(), 1);
    }
}

#[test]
fn join_when_every_id_is_taken_replies_with_an_error() {
    let mut reg = SessionState::new();
    for n in 1000..10000u32 {
        reg.claim_room(n, 0);
    }
    let a = GameSession::new(s("alice"), 0);
    let out = a.handle_game_message(&mut reg, join(None, Some(true)), 1);
    assert_eq!(out, Outbound::Reply(GameMessage::Error { message: s("no free room identifier") }));
    assert_eq!(reg.get_player_room(&s("alice")), None);
}

#[test]
fn two_creating_sessions_get_different_rooms() {
    let mut reg = SessionState::new();
    let a = GameSession::new(s("alice"), 0);
    let b = GameSession::new(s("bob"), 0);
    let (_, ra, _) = joined_room(&a.handle_game_message(&mut reg, join(None, Some(true)), 5));
    let (_, rb, _) = joined_room(&b.handle_game_message(&mut reg, join(None, Some(true)), 5));
    assert_ne!(ra, rb);
    assert_eq!(reg.member_count(&ra), 1);
    assert_eq!(reg.member_count(&rb), 1);
}

#[test]
fn player_update_reaches_every_other_member_once() {
    let mut reg = SessionState::new();
    reg.claim_room(2000, 0);
    for p in ["a", "b", "c"] {
        reg.join_room(&s("2000"), &s(p), 0);
    }
    let a = GameSession::new(s("a"), 0);
    let update = GameMessage::PlayerUpdate { player_id: s("a"), position: pos(), action: Some(s("jump")) };
    let out = a.handle_game_message(&mut reg, update, 1);
    assert_eq!(
        out,
        Outbound::Broadcast {
            recipients: vec![s("b"), s("c")],
            message: GameMessage::PlayerUpdate { player_id: s("a"), position: pos(), action: Some(s("jump")) },
        }
    );
}

#[test]
fn player_update_outside_any_room_is_dropped() {
    let mut reg = SessionState::new();
    let a = GameSession::new(s("a"), 0);
    let update = GameMessage::PlayerUpdate { player_id: s("a"), position: pos(), action: None };
    assert_eq!(a.handle_game_message(&mut reg, update, 1), Outbound::DroppedNotInRoom);
}

#[test]
fn broadcast_recipients_skip_the_sender() {
    let mut reg = SessionState::new();
    reg.claim_room(2000, 0);
    for p in ["a", "b", "c"] {
        reg.join_room(&s("2000"), &s(p), 0);
    }
    assert_eq!(broadcast_recipients(&reg, &s("2000"), &s("b")), Some(vec![s("a"), s("c")]));
    assert_eq!(broadcast_recipients(&reg, &s("2000"), &s("zed")), Some(vec![s("a"), s("b"), s("c")]));
    assert_eq!(broadcast_recipients(&reg, &s("3000"), &s("a")), None);
}

#[test]
fn disconnect_removes_membership_and_handle() {
    let mut reg = SessionState::new();
    let mut directory: StrMap<u32> = StrMap::new();
    reg.claim_room(2000, 0);
    for (i, p) in ["a", "b", "c"].iter().enumerate() {
        reg.join_room(&s("2000"), &s(p), 0);
        directory.insert(s(p), i as u32);
    }
    let a = GameSession::new(s("a"), 0);
    a.stopped(&mut reg, &mut directory, 9);
    assert_eq!(reg.members(&s("2000")), Some(vec![s("b"), s("c")]));
    assert_eq!(reg.get_player_room(&s("a")), None);
    assert_eq!(directory.get(&s("a")), None);
    assert_eq!(directory.get(&s("b")), Some(&1));
    assert_eq!(directory.len(), 2);
    let b = GameSession::new(s("b"), 0);
    let update = GameMessage::PlayerUpdate { player_id: s("b"), position: pos(), action: None };
    match b.handle_game_message(&mut reg, update, 10) {
        Outbound::Broadcast { recipients, .. } => assert_eq!(recipients, vec![s("c")]),
        other => panic!("expected a broadcast, got {:?}", other),
    }
}

#[test]
fn end_to_end_join_join_update() {
    let mut reg = SessionState::new();
    let first = GameSession::new(s("p-one"), 0);
    let second = GameSession::new(s("p-two"), 0);
    let (player, room, count) = joined_room(&first.handle_game_message(&mut reg, join(None, Some(true)), 1));
    assert_eq!(player, "p-one");
    assert!(is_four_digit_id(&room));
    assert_eq!(count, 1);
    let (_, room2, count2) = joined_room(&second.handle_game_message(&mut reg, join(Some(&room), None), 2));
    assert_eq!(room2, room);
    assert_eq!(count2, 2);
    let forged = GameMessage::PlayerUpdate { player_id: s("someone-else"), position: pos(), action: None };
    let out = first.handle_game_message(&mut reg, forged, 3);
    assert_eq!(
        out,
        Outbound::Broadcast {
            recipients: vec![s("p-two")],
            message: GameMessage::PlayerUpdate { player_id: s("p-one"), position: pos(), action: None },
        }
    );
}

#[test]
fn chat_goes_to_the_whole_room_including_sender() {
    let mut reg = SessionState::new();
    reg.claim_room(2000, 0);
    reg.join_room(&s("2000"), &s("a"), 0);
    reg.join_room(&s("2000"), &s("b"), 0);
    let a = GameSession::new(s("a"), 0);
    let chat = GameMessage::Chat { player_id: s("a"), text: s("hi") };
    assert_eq!(
        a.handle_game_message(&mut reg, chat.clone(), 1),
        Outbound::Broadcast { recipients: vec![s("a"), s("b")], message: chat }
    );
}

#[test]
fn chat_outside_a_room_is_echoed() {
    let mut reg = SessionState::new();
    let a = GameSession::new(s("a"), 0);
    let chat = GameMessage::Chat { player_id: s("a"), text: s("hello") };
    assert_eq!(a.handle_game_message(&mut reg, chat.clone(), 1), Outbound::Reply(chat));
}

#[test]
fn ping_is_answered_with_the_same_time() {
    let mut reg = SessionState::new();
    let a = GameSession::new(s("a"), 0);
    assert_eq!(
        a.handle_game_message(&mut reg, GameMessage::Ping { time: 123456789 }, 1),
        Outbound::Reply(GameMessage::Pong { time: 123456789 })
    );
}

#[test]
fn leave_message_takes_sender_out_of_its_room() {
    let mut reg = SessionState::new();
    reg.claim_room(2000, 0);
    reg.join_room(&s("2000"), &s("a"), 0);
    reg.join_room(&s("2000"), &s("b"), 0);
    let a = GameSession::new(s("a"), 0);
    let out = a.handle_game_message(&mut reg, GameMessage::Leave { player_id: s("b") }, 1);
    assert_eq!(out, Outbound::Nothing);
    assert_eq!(reg.members(&s("2000")), Some(vec![s("b")]));
    assert_eq!(reg.get_player_room(&s("a")), None);
}

#[test]
fn server_side_kinds_are_ignored() {
    let mut reg = SessionState::new();
    let a = GameSession::new(s("a"), 0);
    assert_eq!(a.handle_game_message(&mut reg, GameMessage::Pong { time: 1 }, 1), Outbound::Ignored);
    assert_eq!(
        a.handle_game_message(&mut reg, GameMessage::WorldUpdate { entities: vec![] }, 1),
        Outbound::Ignored
    );
    assert_eq!(
        a.handle_game_message(&mut reg, GameMessage::Error { message: s("x") }, 1),
        Outbound::Ignored
    );
}

#[test]
fn malformed_frame_gets_an_error_reply() {
    let mut reg = SessionState::new();
    let mut a = GameSession::new(s("a"), 0);
    let out = a.handle(&mut reg, Frame::Malformed(s("expected value at line 1")), 42);
    assert_eq!(
        out,
        FrameAction::Game(Outbound::Reply(GameMessage::Error {
            message: s("Invalid message format: expected value at line 1"),
        }))
    );
    assert_eq!(a.hb, 42);
}

#[test]
fn transport_frames_are_answered() {
    let mut reg = SessionState::new();
    let mut a = GameSession::new(s("a"), 0);
    assert_eq!(a.handle(&mut reg, Frame::Ping(vec![1, 2]), 5), FrameAction::Pong(vec![1, 2]));
    assert_eq!(a.hb, 5);
    assert_eq!(a.handle(&mut reg, Frame::Pong, 6), FrameAction::Nothing);
    assert_eq!(a.hb, 6);
    assert_eq!(a.handle(&mut reg, Frame::Binary(vec![9]), 7), FrameAction::Binary(vec![9]));
    assert_eq!(a.handle(&mut reg, Frame::Close, 8), FrameAction::Close);
    assert_eq!(a.handle(&mut reg, Frame::Other, 9), FrameAction::Nothing);
    assert_eq!(
        a.handle(&mut reg, Frame::Message(GameMessage::Ping { time: 3 }), 10),
        FrameAction::Game(Outbound::Reply(GameMessage::Pong { time: 3 }))
    );
    assert_eq!(a.hb, 10);
}

#[test]
fn heartbeat_stops_only_after_the_timeout() {
    let a = GameSession::new(s("a"), 1000);
    assert_eq!(HEARTBEAT_INTERVAL_MS, 5000);
    assert_eq!(CLIENT_TIMEOUT_MS, 10000);
    assert_eq!(a.heartbeat(1000), HeartbeatAction::Ping);
    assert_eq!(a.heartbeat(11000), HeartbeatAction::Ping);
    assert_eq!(a.heartbeat(11001), HeartbeatAction::Stop);
    assert_eq!(a.heartbeat(500), HeartbeatAction::Ping);
}

#[test]
fn strmap_insert_get_remove() {
    let mut m: StrMap<u32> = StrMap::new();
    assert_eq!(m.len(), 0);
    m.insert(s("x"), 1);
    m.insert(s("y"), 2);
    m.insert(s("x"), 3);
    assert_eq!(m.len(), 2);
    assert_eq!(m.get(&s("x")), Some(&3));
    assert!(m.contains_key(&s("y")));
    assert_eq!(m.remove(&s("x")), Some(3));
    assert_eq!(m.remove(&s("x")), None);
    assert_eq!(m.get(&s("x")), None);
    assert_eq!(m.keys(), &vec![s("y")]);
}
