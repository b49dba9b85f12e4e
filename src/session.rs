use vstd::prelude::*;
use crate::protocol::GameMessage;
use crate::registry::{
    Millis, RegistryView, SessionState, consistent, created, ids_exhausted, is_room_id, joined, left,
    lemma_left_consistent, lemma_player_room_matches_members, with_new_room,
};
use crate::router::{ConnectionDirectory, broadcast_recipients, fanout};
use crate::seqs::texts;

verus! {

/// How often the server probes a client, in milliseconds.
pub const HEARTBEAT_INTERVAL_MS: u64 = 5000;

/// How long a client may stay silent before its session is closed, in milliseconds.
pub const CLIENT_TIMEOUT_MS: u64 = 10000;

/// What a session sends after handling one protocol message.
#[derive(Debug, PartialEq, Eq)]
pub enum Outbound {
    /// Nothing is sent.
    Nothing,
    /// A message for this session's own client.
    Reply(GameMessage),
    /// The reply to a Join: the room that was joined, the player's identifier,
    /// and how many players the room now holds.
    Joined { player_id: String, room_id: String, players_count: usize },
    /// A message for each of `recipients`, through their delivery handles.
    Broadcast { recipients: Vec<String>, message: GameMessage },
    /// A position update came from a player outside any room and was dropped.
    DroppedNotInRoom,
    /// A kind of message that clients do not send was ignored.
    Ignored,
}

/// One inbound frame of a connection, with text frames already decoded.
#[derive(Debug, PartialEq, Eq)]
pub enum Frame {
    Ping(Vec<u8>),
    Pong,
    Message(GameMessage),
    /// A text frame that did not decode, with the decoder's description.
    Malformed(String),
    Binary(Vec<u8>),
    Close,
    Other,
}

/// What the connection does with one inbound frame.
#[derive(Debug, PartialEq, Eq)]
pub enum FrameAction {
    Pong(Vec<u8>),
    Game(Outbound),
    Binary(Vec<u8>),
    Close,
    Nothing,
}

/// What a heartbeat tick does.
#[derive(Debug, PartialEq, Eq)]
pub enum HeartbeatAction {
    /// Probe the client again.
    Ping,
    /// The client is gone: close the session.
    Stop,
}

/// The text of the Error reply to a Join when no room identifier is free.
pub open spec fn no_free_room_text() -> Seq<char> {
    "no free room identifier"@
}

/// The text of the Error reply to a frame that did not decode.
pub open spec fn invalid_format_text(detail: Seq<char>) -> Seq<char> {
    "Invalid message format: "@ + detail
}

/// `new` is `old` after a fresh room `id` was made and `player` joined it.
pub open spec fn created_and_joined(
    old: RegistryView,
    new: RegistryView,
    id: Seq<char>,
    player: Seq<char>,
    now: Millis,
) -> bool {
    &&& created(old, with_new_room(old, id, now), id, now)
    &&& new == joined(with_new_room(old, id, now), id, player, now)
}

/// A Join from `player`: an existing room named without asking for a new one
/// is joined; otherwise a fresh room, other than the one named, is made and
/// joined. The reply names the room and counts its members.
pub open spec fn join_outcome(
    player: Seq<char>,
    old: RegistryView,
    new: RegistryView,
    room_id: Option<String>,
    create_room: Option<bool>,
    r: Outbound,
    now: Millis,
) -> bool {
    let wants_new = create_room == Some(true);
    let named = !wants_new && room_id is Some;
    if named && old.rooms.contains_key(room_id->0@) {
        &&& new == joined(old, room_id->0@, player, now)
        &&& match r {
            Outbound::Joined { player_id, room_id: rid, players_count } => {
                &&& player_id@ == player
                &&& rid@ == room_id->0@
                &&& players_count == new.rooms[rid@].members.len()
            },
            _ => false,
        }
    } else {
        let avoid = if named {
            Some(room_id->0@)
        } else {
            None
        };
        match r {
            Outbound::Joined { player_id, room_id: rid, players_count } => {
                &&& player_id@ == player
                &&& created_and_joined(old, new, rid@, player, now)
                &&& players_count == new.rooms[rid@].members.len()
                &&& avoid != Some(rid@)
            },
            Outbound::Reply(GameMessage::Error { message }) => {
                &&& message@ == no_free_room_text()
                &&& ids_exhausted(old, avoid)
                &&& new == old
            },
            _ => false,
        }
    }
}

/// What handling `msg` from `player` does to the registry and sends.
pub open spec fn dispatched(
    player: Seq<char>,
    old: RegistryView,
    new: RegistryView,
    msg: GameMessage,
    r: Outbound,
    now: Millis,
) -> bool {
    match msg {
        GameMessage::Join { player_id: _, room_id, create_room } => join_outcome(
            player,
            old,
            new,
            room_id,
            create_room,
            r,
            now,
        ),
        GameMessage::Leave { player_id: _ } => new == left(old, player, now) && r == Outbound::Nothing,
        GameMessage::Chat { player_id: _, text: _ } => new == old && match old.player_room.get(player) {
            Some(room) => match r {
                Outbound::Broadcast { recipients, message } => message == msg && texts(recipients@)
                    == old.rooms[room].members,
                _ => false,
            },
            None => r == Outbound::Reply(msg),
        },
        GameMessage::PlayerUpdate { player_id: _, position, action } => new == old && match old.player_room.get(
            player,
        ) {
            Some(room) => match r {
                Outbound::Broadcast { recipients, message } => texts(recipients@) == fanout(old, room, player)
                    && match message {
                    GameMessage::PlayerUpdate { player_id: p, position: q, action: a } => p@ == player && q
                        == position && a == action,
                    _ => false,
                },
                _ => false,
            },
            None => r == Outbound::DroppedNotInRoom,
        },
        GameMessage::Ping { time } => new == old && r == Outbound::Reply(GameMessage::Pong { time }),
        _ => new == old && r == Outbound::Ignored,
    }
}

fn literal_text(lit: &str) -> (r: String)
    ensures
        r@ == lit@,
{
    let mut s = String::new();
    s.append(lit);
    assert(s@ =~= lit@);
    s
}

/// The session of one connection: its player's identifier and when it last
/// heard from the client.
pub struct GameSession {
    pub id: String,
    pub hb: Millis,
}

impl GameSession {
    pub fn new(id: String, now: Millis) -> (r: Self)
        ensures
            r.id == id,
            r.hb == now,
    {
        GameSession { id, hb: now }
    }

    fn handle_join(
        &self,
        registry: &mut SessionState,
        room_id: Option<String>,
        create_room: Option<bool>,
        now: Millis,
    ) -> (r: Outbound)
        requires
            old(registry).wf(),
        ensures
            final(registry).wf(),
            join_outcome(self.id@, old(registry)@, final(registry)@, room_id, create_room, r, now),
    {
        let wants_new = match create_room {
            Some(b) => b,
            None => false,
        };
        if !wants_new {
            match &room_id {
                Some(rid) => {
                    if registry.join_room(rid, &self.id, now) {
                        let count = registry.member_count(rid);
                        return Outbound::Joined {
                            player_id: self.id.clone(),
                            room_id: rid.clone(),
                            players_count: count,
                        };
                    }
                },
                None => {},
            }
        }
        let avoid: Option<&String> = if wants_new {
            None
        } else {
            match &room_id {
                Some(rid) => Some(rid),
                None => None,
            }
        };
        match registry.create_room_avoiding(now, avoid) {
            Some(nid) => {
                registry.join_room(&nid, &self.id, now);
                let count = registry.member_count(&nid);
                Outbound::Joined { player_id: self.id.clone(), room_id: nid, players_count: count }
            },
            None => Outbound::Reply(GameMessage::Error { message: literal_text("no free room identifier") }),
        }
    }

    /// Handles one decoded protocol message from this session's client.
    pub fn handle_game_message(&self, registry: &mut SessionState, message: GameMessage, now: Millis) -> (r:
        Outbound)
        requires
            old(registry).wf(),
        ensures
            final(registry).wf(),
            dispatched(self.id@, old(registry)@, final(registry)@, message, r, now),
    {
        proof {
            lemma_player_room_matches_members(registry, self.id@, self.id@);
        }
        match message {
            GameMessage::Join { player_id: _, room_id, create_room } => {
                self.handle_join(registry, room_id, create_room, now)
            },
            GameMessage::Leave { player_id: _ } => {
                registry.leave_room(&self.id, now);
                Outbound::Nothing
            },
            GameMessage::Chat { player_id, text } => {
                match registry.get_player_room(&self.id) {
                    Some(room) => match registry.members(&room) {
                        Some(recipients) => Outbound::Broadcast {
                            recipients,
                            message: GameMessage::Chat { player_id, text },
                        },
                        None => Outbound::Reply(GameMessage::Chat { player_id, text }),
                    },
                    None => Outbound::Reply(GameMessage::Chat { player_id, text }),
                }
            },
            GameMessage::PlayerUpdate { player_id: _, position, action } => {
                match registry.get_player_room(&self.id) {
                    Some(room) => match broadcast_recipients(registry, &room, &self.id) {
                        Some(recipients) => Outbound::Broadcast {
                            recipients,
                            message: GameMessage::PlayerUpdate { player_id: self.id.clone(), position, action },
                        },
                        None => Outbound::DroppedNotInRoom,
                    },
                    None => Outbound::DroppedNotInRoom,
                }
            },
            GameMessage::Ping { time } => Outbound::Reply(GameMessage::Pong { time }),
            _ => Outbound::Ignored,
        }
    }

    /// Handles one inbound frame. Any frame counts as a sign of life.
    pub fn handle(&mut self, registry: &mut SessionState, frame: Frame, now: Millis) -> (r: FrameAction)
        requires
            old(registry).wf(),
        ensures
            final(registry).wf(),
            final(self).id == old(self).id,
            final(self).hb == now,
            match frame {
                Frame::Message(m) => match r {
                    FrameAction::Game(o) => dispatched(old(self).id@, old(registry)@, final(registry)@, m, o, now),
                    _ => false,
                },
                _ => final(registry)@ == old(registry)@,
            },
            match frame {
                Frame::Ping(b) => r == FrameAction::Pong(b),
                Frame::Pong => r == FrameAction::Nothing,
                Frame::Message(_) => true,
                Frame::Malformed(e) => match r {
                    FrameAction::Game(Outbound::Reply(GameMessage::Error { message })) => message@
                        == invalid_format_text(e@),
                    _ => false,
                },
                Frame::Binary(b) => r == FrameAction::Binary(b),
                Frame::Close => r == FrameAction::Close,
                Frame::Other => r == FrameAction::Nothing,
            },
    {
        self.hb = now;
        match frame {
            Frame::Ping(b) => FrameAction::Pong(b),
            Frame::Pong => FrameAction::Nothing,
            Frame::Message(m) => FrameAction::Game(self.handle_game_message(registry, m, now)),
            Frame::Malformed(e) => {
                let mut message = literal_text("Invalid message format: ");
                message.append(e.as_str());
                FrameAction::Game(Outbound::Reply(GameMessage::Error { message }))
            },
            Frame::Binary(b) => FrameAction::Binary(b),
            Frame::Close => FrameAction::Close,
            Frame::Other => FrameAction::Nothing,
        }
    }

    /// A heartbeat tick at time `now`: the session stops once the client has
    /// been silent for longer than the timeout, and probes it otherwise.
    pub fn heartbeat(&self, now: Millis) -> (r: HeartbeatAction)
        ensures
            r == (if now - self.hb > CLIENT_TIMEOUT_MS {
                HeartbeatAction::Stop
            } else {
                HeartbeatAction::Ping
            }),
    {
        if now > self.hb && now - self.hb > CLIENT_TIMEOUT_MS {
            HeartbeatAction::Stop
        } else {
            HeartbeatAction::Ping
        }
    }

    /// Releases what the session held when it closes: its player leaves its
    /// room and its delivery handle leaves the directory.
    pub fn stopped<H>(&self, registry: &mut SessionState, directory: &mut ConnectionDirectory<H>, now: Millis)
        requires
            old(registry).wf(),
            old(directory).wf(),
        ensures
            final(registry).wf(),
            final(directory).wf(),
            final(registry)@ == left(old(registry)@, self.id@, now),
            final(directory)@ == old(directory)@.remove(self.id@),
    {
        registry.leave_room(&self.id, now);
        let _ = directory.remove(&self.id);
    }
}

/// After a player disconnects, no room lists it, no fan-out to any room
/// reaches it, and the directory holds no handle for it.
pub proof fn lemma_disconnected_player_unreachable<H>(
    v: RegistryView,
    directory: Map<Seq<char>, H>,
    p: Seq<char>,
    now: Millis,
    r: Seq<char>,
    sender: Seq<char>,
)
    requires
        consistent(v),
        left(v, p, now).rooms.contains_key(r),
    ensures
        !left(v, p, now).player_room.contains_key(p),
        !left(v, p, now).rooms[r].members.contains(p),
        !fanout(left(v, p, now), r, sender).contains(p),
        !directory.remove(p).contains_key(p),
{
    lemma_left_consistent(v, p, now);
    crate::seqs::lemma_remove_value_contents(left(v, p, now).rooms[r].members, sender);
}

/// Two Joins that ask for a new room, handled one after the other, are
/// answered with different rooms, whoever sends them.
pub proof fn lemma_created_joins_distinct(
    v0: RegistryView,
    v1: RegistryView,
    v2: RegistryView,
    pa: Seq<char>,
    pb: Seq<char>,
    ida: Option<String>,
    idb: Option<String>,
    ra: Outbound,
    rb: Outbound,
    ta: Millis,
    tb: Millis,
)
    requires
        join_outcome(pa, v0, v1, ida, Some(true), ra, ta),
        join_outcome(pb, v1, v2, idb, Some(true), rb, tb),
        ra is Joined,
        rb is Joined,
    ensures
        ra->Joined_room_id@ != rb->Joined_room_id@,
        v2.rooms.contains_key(ra->Joined_room_id@),
        v2.rooms.contains_key(rb->Joined_room_id@),
{
}

/// A Join that names a room that does not exist, without asking for a new
/// one, is answered with a fresh room other than the one named, holding the
/// sender alone; only when no other identifier is free is it an error.
pub proof fn lemma_join_missing_room_falls_back(
    player: Seq<char>,
    old: RegistryView,
    new: RegistryView,
    requested: String,
    create_room: Option<bool>,
    r: Outbound,
    now: Millis,
)
    requires
        consistent(old),
        create_room != Some(true),
        !old.rooms.contains_key(requested@),
        join_outcome(player, old, new, Some(requested), create_room, r, now),
    ensures
        !ids_exhausted(old, Some(requested@)) ==> r is Joined,
        match r {
            Outbound::Joined { player_id, room_id, players_count } => {
                &&& player_id@ == player
                &&& room_id@ != requested@
                &&& !old.rooms.contains_key(room_id@)
                &&& is_room_id(room_id@)
                &&& new.rooms[room_id@].members == seq![player]
                &&& players_count == 1
            },
            _ => ids_exhausted(old, Some(requested@)) && new == old,
        },
{
    if let Outbound::Joined { player_id, room_id, players_count } = r {
        lemma_fresh_room_holds_joiner(old, new, room_id@, player, now);
    }
}

/// A room made for a Join holds the joining player alone.
pub proof fn lemma_fresh_room_holds_joiner(v0: RegistryView, v1: RegistryView, id: Seq<char>, p: Seq<char>, now: Millis)
    requires
        consistent(v0),
        created_and_joined(v0, v1, id, p, now),
    ensures
        v1.rooms[id].members == seq![p],
        v1.player_room[p] == id,
        is_room_id(id),
{
    let mid = with_new_room(v0, id, now);
    if v0.player_room.contains_key(p) {
        assert(v0.rooms.contains_key(v0.player_room[p]));
    }
    assert(mid.player_room.get(p) != Some(id));
    let w = left(mid, p, now);
    assert(w.rooms[id].members == Seq::<Seq<char>>::empty());
    assert(Seq::<Seq<char>>::empty().push(p) =~= seq![p]);
}

} // verus!