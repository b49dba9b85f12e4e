use vstd::prelude::*;
use crate::seqs::{texts, lemma_remove_value_at, lemma_remove_value_contents, position_of};
use crate::strmap::StrMap;

verus! {

/// Timestamps are milliseconds on a monotonic clock chosen by the caller.
pub type Millis = u64;

/// One room: its identifier, its members in order of arrival, and when it was
/// made and last changed.
pub struct GameRoom {
    pub id: String,
    pub players: Vec<String>,
    pub created_at: Millis,
    pub last_activity: Millis,
}

/// What a room holds, as mathematics.
pub struct RoomView {
    pub members: Seq<Seq<char>>,
    pub created_at: Millis,
    pub last_activity: Millis,
}

impl View for GameRoom {
    type V = RoomView;

    open spec fn view(&self) -> RoomView {
        RoomView {
            members: texts(self.players@),
            created_at: self.created_at,
            last_activity: self.last_activity,
        }
    }
}

/// The registry as mathematics: each room by identifier, and the room of each player.
pub struct RegistryView {
    pub rooms: Map<Seq<char>, RoomView>,
    pub player_room: Map<Seq<char>, Seq<char>>,
}

/// A player maps to a room exactly when that room lists the player, no room
/// lists a player twice, and a player is listed in one room at most.
pub open spec fn consistent(v: RegistryView) -> bool {
    &&& forall|p: Seq<char>|
        #[trigger] v.player_room.contains_key(p) ==> v.rooms.contains_key(v.player_room[p])
            && v.rooms[v.player_room[p]].members.contains(p)
    &&& forall|r: Seq<char>, p: Seq<char>|
        v.rooms.contains_key(r) && #[trigger] v.rooms[r].members.contains(p)
            ==> v.player_room.contains_key(p) && v.player_room[p] == r
    &&& forall|r: Seq<char>|
        #[trigger] v.rooms.contains_key(r) ==> v.rooms[r].members.no_duplicates()
}

/// The registry after `p` leaves its room, if it has one, at time `now`.
pub open spec fn left(v: RegistryView, p: Seq<char>, now: Millis) -> RegistryView {
    if v.player_room.contains_key(p) && v.rooms.contains_key(v.player_room[p]) {
        let r = v.player_room[p];
        RegistryView {
            rooms: v.rooms.insert(
                r,
                RoomView {
                    members: v.rooms[r].members.remove_value(p),
                    last_activity: now,
                    ..v.rooms[r]
                },
            ),
            player_room: v.player_room.remove(p),
        }
    } else {
        RegistryView { player_room: v.player_room.remove(p), ..v }
    }
}

/// The registry after `p` asks to join room `r` at time `now`: nothing changes
/// where the room is unknown or already holds `p`; otherwise `p` leaves its
/// former room and is appended to `r`.
pub open spec fn joined(v: RegistryView, r: Seq<char>, p: Seq<char>, now: Millis) -> RegistryView {
    if !v.rooms.contains_key(r) || v.player_room.get(p) == Some(r) {
        v
    } else {
        let w = left(v, p, now);
        RegistryView {
            rooms: w.rooms.insert(
                r,
                RoomView { members: w.rooms[r].members.push(p), last_activity: now, ..w.rooms[r] },
            ),
            player_room: w.player_room.insert(p, r),
        }
    }
}

/// The registry after an empty room `r` is added at time `now`.
pub open spec fn with_new_room(v: RegistryView, r: Seq<char>, now: Millis) -> RegistryView {
    RegistryView {
        rooms: v.rooms.insert(
            r,
            RoomView { members: Seq::empty(), created_at: now, last_activity: now },
        ),
        ..v
    }
}

/// Leaving keeps the registry consistent and takes `p` out of every room.
pub proof fn lemma_left_consistent(v: RegistryView, p: Seq<char>, now: Millis)
    requires
        consistent(v),
    ensures
        consistent(left(v, p, now)),
        !left(v, p, now).player_room.contains_key(p),
        forall|r: Seq<char>|
            #[trigger] left(v, p, now).rooms.contains_key(r) ==> !left(v, p, now).rooms[r].members.contains(p),
        left(v, p, now).rooms.dom() == v.rooms.dom(),
{
    let w = left(v, p, now);
    if v.player_room.contains_key(p) {
        let r0 = v.player_room[p];
        lemma_remove_value_contents(v.rooms[r0].members, p);
        assert forall|r: Seq<char>, q: Seq<char>|
            w.rooms.contains_key(r) && #[trigger] w.rooms[r].members.contains(q) implies w.player_room.contains_key(q)
                && w.player_room[q] == r by {
            assert(v.rooms[r].members.contains(q));
        }
        assert forall|r: Seq<char>| #[trigger] w.rooms.contains_key(r) implies !w.rooms[r].members.contains(p) by {
            if r != r0 && v.rooms[r].members.contains(p) {
                assert(v.player_room[p] == r);
            }
        }
    } else {
        assert forall|r: Seq<char>| #[trigger] w.rooms.contains_key(r) implies !w.rooms[r].members.contains(p) by {
            if v.rooms[r].members.contains(p) {
                assert(v.player_room.contains_key(p));
            }
        }
    }
    assert(w.rooms.dom() =~= v.rooms.dom());
}

/// Joining keeps the registry consistent.
pub proof fn lemma_joined_consistent(v: RegistryView, r: Seq<char>, p: Seq<char>, now: Millis)
    requires
        consistent(v),
    ensures
        consistent(joined(v, r, p, now)),
        joined(v, r, p, now).rooms.dom() == v.rooms.dom(),
{
    if !v.rooms.contains_key(r) || v.player_room.get(p) == Some(r) {
    } else {
        let w = left(v, p, now);
        lemma_left_consistent(v, p, now);
        let j = joined(v, r, p, now);
        let m = w.rooms[r].members;
        assert(m.push(p).no_duplicates()) by {
            assert forall|a: int, b: int| 0 <= a < m.len() + 1 && 0 <= b < m.len() + 1 && a != b implies m.push(p)[a]
                != m.push(p)[b] by {
                if a < m.len() && b < m.len() {
                } else if a < m.len() {
                    assert(m.contains(m[a]));
                } else {
                    assert(m.contains(m[b]));
                }
            }
        }
        assert forall|q: Seq<char>| #[trigger] m.push(p).contains(q) <==> m.contains(q) || q == p by {
            if m.push(p).contains(q) {
                let i = choose|i: int| 0 <= i < m.len() + 1 && m.push(p)[i] == q;
                if i < m.len() {
                    assert(m.contains(q));
                }
            }
            if m.contains(q) {
                let i = choose|i: int| 0 <= i < m.len() && m[i] == q;
                assert(m.push(p)[i] == q);
            }
            if q == p {
                assert(m.push(p)[m.len() as int] == q);
            }
        }
        assert forall|q: Seq<char>| #[trigger] j.player_room.contains_key(q) implies j.rooms.contains_key(j.player_room[q])
            && j.rooms[j.player_room[q]].members.contains(q) by {
            if q != p {
                assert(w.player_room.contains_key(q));
            }
        }
        assert forall|x: Seq<char>, q: Seq<char>|
            j.rooms.contains_key(x) && #[trigger] j.rooms[x].members.contains(q) implies j.player_room.contains_key(q)
                && j.player_room[q] == x by {
            if x == r {
                if q != p {
                    assert(m.contains(q));
                }
            } else {
                assert(w.rooms[x].members.contains(q));
                if q == p {
                    assert(!w.rooms[x].members.contains(p));
                }
            }
        }
        assert(j.rooms.dom() =~= v.rooms.dom());
    }
}

/// A room made in a run of creations is still there after each later one.
proof fn lemma_created_persists(
    states: Seq<RegistryView>,
    ids: Seq<Seq<char>>,
    times: Seq<Millis>,
    i: int,
    j: int,
)
    requires
        states.len() == ids.len() + 1,
        times.len() == ids.len(),
        forall|k: int| 0 <= k < ids.len() ==> created(#[trigger] states[k], states[k + 1], ids[k], times[k]),
        0 <= i < j <= ids.len(),
    ensures
        states[j].rooms.contains_key(ids[i]),
    decreases j - i,
{
    assert(created(states[j - 1], states[j], ids[j - 1], times[j - 1]));
    if j > i + 1 {
        lemma_created_persists(states, ids, times, i, j - 1);
    }
}

/// Rooms created one after another, the registry passing from each state to
/// the next, all get different four-digit identifiers.
pub proof fn lemma_created_rooms_distinct(
    states: Seq<RegistryView>,
    ids: Seq<Seq<char>>,
    times: Seq<Millis>,
)
    requires
        states.len() == ids.len() + 1,
        times.len() == ids.len(),
        forall|k: int| 0 <= k < ids.len() ==> created(#[trigger] states[k], states[k + 1], ids[k], times[k]),
    ensures
        ids.no_duplicates(),
        forall|k: int| 0 <= k < ids.len() ==> is_room_id(#[trigger] ids[k]),
{
    assert forall|a: int, b: int| 0 <= a < ids.len() && 0 <= b < ids.len() && a != b implies ids[a]
        != ids[b] by {
        let (i, j) = if a < b { (a, b) } else { (b, a) };
        lemma_created_persists(states, ids, times, i, j);
        assert(created(states[j], states[j + 1], ids[j], times[j]));
    }
    assert forall|k: int| 0 <= k < ids.len() implies is_room_id(#[trigger] ids[k]) by {
        assert(created(states[k], states[k + 1], ids[k], times[k]));
    }
}

/// A room is evictable at `now` when it is empty and has seen no change for
/// at least `idle` milliseconds.
pub open spec fn evictable(room: RoomView, now: Millis, idle: Millis) -> bool {
    room.members.len() == 0 && now - room.last_activity >= idle
}

/// The registry without its evictable rooms.
pub open spec fn swept(v: RegistryView, now: Millis, idle: Millis) -> RegistryView {
    RegistryView {
        rooms: Map::new(
            |r: Seq<char>| v.rooms.contains_key(r) && !evictable(v.rooms[r], now, idle),
            |r: Seq<char>| v.rooms[r],
        ),
        ..v
    }
}

/// Dropping rooms that nobody is in keeps the registry consistent.
proof fn lemma_drop_empty_rooms_consistent(v: RegistryView, w: RegistryView)
    requires
        consistent(v),
        w.player_room == v.player_room,
        forall|r: Seq<char>| #[trigger] w.rooms.contains_key(r) ==> v.rooms.contains_key(r) && w.rooms[r] == v.rooms[r],
        forall|r: Seq<char>|
            #[trigger] v.rooms.contains_key(r) && !w.rooms.contains_key(r) ==> v.rooms[r].members.len() == 0,
    ensures
        consistent(w),
{
    assert forall|p: Seq<char>| #[trigger] w.player_room.contains_key(p) implies w.rooms.contains_key(w.player_room[p])
        && w.rooms[w.player_room[p]].members.contains(p) by {
        let r = v.player_room[p];
        if !w.rooms.contains_key(r) {
            assert(v.rooms[r].members.contains(p));
        }
    }
}

/// The character for a decimal digit.
pub open spec fn digit_char(d: int) -> char {
    if d == 0 {
        '0'
    } else if d == 1 {
        '1'
    } else if d == 2 {
        '2'
    } else if d == 3 {
        '3'
    } else if d == 4 {
        '4'
    } else if d == 5 {
        '5'
    } else if d == 6 {
        '6'
    } else if d == 7 {
        '7'
    } else if d == 8 {
        '8'
    } else {
        '9'
    }
}

/// The four decimal digits of `n`, most significant first.
pub open spec fn four_digits(n: int) -> Seq<char> {
    seq![digit_char(n / 1000 % 10), digit_char(n / 100 % 10), digit_char(n / 10 % 10), digit_char(n % 10)]
}

/// Room numbers are the four-digit numbers.
pub open spec fn is_room_number(n: int) -> bool {
    1000 <= n < 10000
}

/// `id` names a room number.
pub open spec fn is_room_id(id: Seq<char>) -> bool {
    exists|n: int| is_room_number(n) && #[trigger] four_digits(n) == id
}

/// `new` is `old` with one more, empty room `id`, whose identifier was free.
pub open spec fn created(old: RegistryView, new: RegistryView, id: Seq<char>, now: Millis) -> bool {
    &&& !old.rooms.contains_key(id)
    &&& is_room_id(id)
    &&& new == with_new_room(old, id, now)
}

/// Every room number is taken, but for the identifier `avoid`, if one is given.
pub open spec fn ids_exhausted(v: RegistryView, avoid: Option<Seq<char>>) -> bool {
    forall|n: int|
        is_room_number(n) && avoid != Some(four_digits(n)) ==> #[trigger] v.rooms.contains_key(
            four_digits(n),
        )
}

/// The contents of the identifier to avoid, if any.
pub open spec fn avoided(avoid: Option<&String>) -> Option<Seq<char>> {
    match avoid {
        Some(a) => Some(a@),
        None => None,
    }
}

fn is_avoided(avoid: Option<&String>, id: &String) -> (r: bool)
    ensures
        r == (match avoid {
            Some(a) => a@ == id@,
            None => false,
        }),
{
    match avoid {
        Some(a) => *a == *id,
        None => false,
    }
}

/// Different room numbers have different identifiers.
proof fn lemma_four_digits_injective(n: int, m: int)
    requires
        is_room_number(n),
        is_room_number(m),
        four_digits(n) == four_digits(m),
    ensures
        n == m,
{
    assert(four_digits(n)[0] == four_digits(m)[0]);
    assert(four_digits(n)[1] == four_digits(m)[1]);
    assert(four_digits(n)[2] == four_digits(m)[2]);
    assert(four_digits(n)[3] == four_digits(m)[3]);
    assert(n / 1000 % 10 == m / 1000 % 10);
    assert(n / 100 % 10 == m / 100 % 10);
    assert(n / 10 % 10 == m / 10 % 10);
    assert(n % 10 == m % 10);
    assert(n == 1000 * (n / 1000 % 10) + 100 * (n / 100 % 10) + 10 * (n / 10 % 10) + n % 10) by (nonlinear_arith)
        requires
            1000 <= n < 10000,
    ;
    assert(m == 1000 * (m / 1000 % 10) + 100 * (m / 100 % 10) + 10 * (m / 10 % 10) + m % 10) by (nonlinear_arith)
        requires
            1000 <= m < 10000,
    ;
}

/// A registry with fewer than 9000 rooms, or fewer than 8999 when one
/// identifier is to be avoided, has a free four-digit identifier, so room
/// creation then succeeds.
pub proof fn lemma_free_id_below_capacity(v: RegistryView, avoid: Option<Seq<char>>)
    requires
        v.rooms.dom().finite(),
        v.rooms.len() + (if avoid is Some {
            1int
        } else {
            0int
        }) < 9000,
    ensures
        !ids_exhausted(v, avoid),
{
    if ids_exhausted(v, avoid) {
        let f = |n: int| four_digits(n);
        let x = vstd::set_lib::set_int_range(1000, 10000);
        vstd::set_lib::lemma_int_range(1000, 10000);
        let y = x.map(f);
        assert(vstd::relations::injective_on(f, x)) by {
            assert forall|a: int, b: int| x.contains(a) && x.contains(b) && #[trigger] f(a) == #[trigger] f(b) implies a
                == b by {
                lemma_four_digits_injective(a, b);
            }
        }
        vstd::set_lib::lemma_map_size(x, y, f);
        let z = match avoid {
            Some(a) => y.remove(a),
            None => y,
        };
        assert(z.subset_of(v.rooms.dom())) by {
            assert forall|k: Seq<char>| #[trigger] z.contains(k) implies v.rooms.dom().contains(k) by {
                let n = choose|n: int| x.contains(n) && f(n) == k;
                assert(v.rooms.contains_key(four_digits(n)));
            }
        }
        vstd::set_lib::lemma_len_subset(z, v.rooms.dom());
    }
}

/// How many random identifiers a creation tries before it scans for a free one.
pub const RANDOM_DRAWS: u32 = 16;

/// Relies on rand's `Rng::gen_range` on `thread_rng()`: the value lies in the
/// half-open range it is given, which is not empty.
#[verifier::external_body]
fn draw_room_number() -> (r: u32)
    ensures
        1000 <= r < 10000,
{
    rand::Rng::gen_range(&mut rand::thread_rng(), 1000u32..10000u32)
}

fn digit_text(d: u32) -> (r: &'static str)
    requires
        d < 10,
    ensures
        r@ == seq![digit_char(d as int)],
{
    proof {
        reveal_strlit("0");
        reveal_strlit("1");
        reveal_strlit("2");
        reveal_strlit("3");
        reveal_strlit("4");
        reveal_strlit("5");
        reveal_strlit("6");
        reveal_strlit("7");
        reveal_strlit("8");
        reveal_strlit("9");
    }
    if d == 0 {
        "0"
    } else if d == 1 {
        "1"
    } else if d == 2 {
        "2"
    } else if d == 3 {
        "3"
    } else if d == 4 {
        "4"
    } else if d == 5 {
        "5"
    } else if d == 6 {
        "6"
    } else if d == 7 {
        "7"
    } else if d == 8 {
        "8"
    } else {
        "9"
    }
}

/// The identifier of room number `n`: its four decimal digits.
pub fn room_id_text(n: u32) -> (r: String)
    requires
        is_room_number(n as int),
    ensures
        r@ == four_digits(n as int),
{
    let mut s = String::new();
    s.append(digit_text(n / 1000 % 10));
    s.append(digit_text(n / 100 % 10));
    s.append(digit_text(n / 10 % 10));
    s.append(digit_text(n % 10));
    assert(s@ =~= four_digits(n as int));
    s
}

/// Process-wide room registry: rooms by identifier and each player's room.
pub struct SessionState {
    rooms: StrMap<GameRoom>,
    player_to_room: StrMap<String>,
}

impl View for SessionState {
    type V = RegistryView;

    closed spec fn view(&self) -> RegistryView {
        RegistryView {
            rooms: self.rooms@.map_values(|g: GameRoom| g@),
            player_room: self.player_to_room@.map_values(|s: String| s@),
        }
    }
}

/// In a well-formed registry a player maps to a room exactly when that room
/// lists the player.
pub proof fn lemma_player_room_matches_members(s: &SessionState, p: Seq<char>, r: Seq<char>)
    requires
        s.wf(),
    ensures
        s@.player_room.get(p) == Some(r) <==> s@.rooms.contains_key(r) && s@.rooms[r].members.contains(p),
        consistent(s@),
{
    if s@.rooms.contains_key(r) && s@.rooms[r].members.contains(p) {
        assert(s@.player_room.contains_key(p));
    }
}

/// A well-formed registry holds finitely many rooms.
pub proof fn lemma_rooms_finite(s: &SessionState)
    requires
        s.wf(),
    ensures
        s@.rooms.dom().finite(),
{
    s.rooms.lemma_finite();
    assert(s@.rooms.dom() =~= s.rooms@.dom());
}

impl SessionState {
    /// Both indexes are well formed, each room is stored under its own
    /// identifier, and the two agree.
    pub closed spec fn wf(&self) -> bool {
        &&& self.rooms.wf()
        &&& self.player_to_room.wf()
        &&& forall|k: Seq<char>| #[trigger] self.rooms@.contains_key(k) ==> self.rooms@[k].id@ == k
        &&& consistent(self@)
    }

    pub fn new() -> (r: Self)
        ensures
            r.wf(),
            r@.rooms.is_empty(),
            r@.player_room.is_empty(),
    {
        let r = SessionState { rooms: StrMap::new(), player_to_room: StrMap::new() };
        assert(r@.rooms =~= Map::empty());
        assert(r@.player_room =~= Map::empty());
        r
    }

    /// The room that `player_id` is in.
    pub fn get_player_room(&self, player_id: &String) -> (r: Option<String>)
        requires
            self.wf(),
        ensures
            match r {
                Some(id) => self@.player_room.get(player_id@) == Some(id@),
                None => !self@.player_room.contains_key(player_id@),
            },
    {
        match self.player_to_room.get(player_id) {
            Some(id) => Some(id.clone()),
            None => None,
        }
    }

    /// Whether a room with this identifier exists.
    pub fn has_room(&self, room_id: &String) -> (r: bool)
        requires
            self.wf(),
        ensures
            r == self@.rooms.contains_key(room_id@),
    {
        self.rooms.contains_key(room_id)
    }

    /// How many players the room holds; zero for an unknown room.
    pub fn member_count(&self, room_id: &String) -> (r: usize)
        requires
            self.wf(),
        ensures
            self@.rooms.contains_key(room_id@) ==> r == self@.rooms[room_id@].members.len(),
            !self@.rooms.contains_key(room_id@) ==> r == 0,
    {
        match self.rooms.get(room_id) {
            Some(room) => room.players.len(),
            None => 0,
        }
    }

    /// The room's members in order of arrival, or `None` for an unknown room.
    pub fn members(&self, room_id: &String) -> (r: Option<Vec<String>>)
        requires
            self.wf(),
        ensures
            match r {
                Some(v) => self@.rooms.contains_key(room_id@) && texts(v@)
                    == self@.rooms[room_id@].members,
                None => !self@.rooms.contains_key(room_id@),
            },
    {
        match self.rooms.get(room_id) {
            Some(room) => {
                let v = room.players.clone();
                assert(texts(v@) =~= texts(room.players@));
                Some(v)
            },
            None => None,
        }
    }

    /// Takes `player_id` out of its room, if it is in one; the room's last
    /// activity becomes `now`. Does nothing for a player without a room.
    pub fn leave_room(&mut self, player_id: &String, now: Millis)
        requires
            old(self).wf(),
        ensures
            final(self).wf(),
            final(self)@ == left(old(self)@, player_id@, now),
    {
        proof {
            lemma_left_consistent(self@, player_id@, now);
        }
        let ghost v = self@;
        match self.player_to_room.remove(player_id) {
            Some(room_id) => {
                match self.rooms.remove(&room_id) {
                    Some(mut room) => {
                        let ghost before = room@.members;
                        assert(before.contains(player_id@));
                        match position_of(&room.players, player_id) {
                            Some(i) => {
                                proof {
                                    lemma_remove_value_at(before, i as int);
                                }
                                room.players.remove(i);
                                assert(texts(room.players@) =~= before.remove(i as int));
                            },
                            None => {},
                        }
                        room.last_activity = now;
                        self.rooms.insert(room_id, room);
                        assert(self@.rooms =~= left(v, player_id@, now).rooms);
                        assert(self@.player_room =~= left(v, player_id@, now).player_room);
                    },
                    None => {},
                }
            },
            None => {
                assert(self@.player_room =~= left(v, player_id@, now).player_room);
            },
        }
    }

    /// Adds `player_id` to room `room_id`. Returns false, changing nothing, when
    /// the room does not exist. A player already in that room stays as it is; a
    /// player in another room leaves it first, so a player is in one room at most.
    pub fn join_room(&mut self, room_id: &String, player_id: &String, now: Millis) -> (r: bool)
        requires
            old(self).wf(),
        ensures
            final(self).wf(),
            r == old(self)@.rooms.contains_key(room_id@),
            final(self)@ == joined(old(self)@, room_id@, player_id@, now),
    {
        proof {
            lemma_joined_consistent(self@, room_id@, player_id@, now);
        }
        if !self.rooms.contains_key(room_id) {
            return false;
        }
        match self.player_to_room.get(player_id) {
            Some(current) => {
                if *current == *room_id {
                    return true;
                }
            },
            None => {},
        }
        let ghost v = self@;
        self.leave_room(player_id, now);
        let ghost w = self@;
        match self.rooms.remove(room_id) {
            Some(mut room) => {
                room.players.push(player_id.clone());
                room.last_activity = now;
                assert(texts(room.players@) =~= w.rooms[room_id@].members.push(player_id@));
                assert(room.id@ == room_id@);
                let ghost before = self.rooms@;
                self.rooms.insert(room_id.clone(), room);
                assert forall|k: Seq<char>| #[trigger] self.rooms@.contains_key(k) implies self.rooms@[k].id@ == k by {
                    if k != room_id@ {
                        assert(before.contains_key(k));
                    }
                }
                self.player_to_room.insert(player_id.clone(), room_id.clone());
                assert(self@.rooms =~= joined(v, room_id@, player_id@, now).rooms);
                assert(self@.player_room =~= joined(v, room_id@, player_id@, now).player_room);
                assert(consistent(self@));
            },
            None => {
                proof {
                    lemma_left_consistent(v, player_id@, now);
                    assert(w.rooms.contains_key(room_id@));
                }
            },
        }
        true
    }

    /// Makes an empty room numbered `n` at time `now`, unless that number is
    /// taken, in which case nothing changes and `None` comes back.
    pub fn claim_room(&mut self, n: u32, now: Millis) -> (r: Option<String>)
        requires
            old(self).wf(),
            is_room_number(n as int),
        ensures
            final(self).wf(),
            old(self)@.rooms.contains_key(four_digits(n as int)) ==> r is None && final(self)@ == old(self)@,
            !old(self)@.rooms.contains_key(four_digits(n as int)) ==> r is Some && r->0@ == four_digits(n as int)
                && created(old(self)@, final(self)@, r->0@, now),
    {
        let id = room_id_text(n);
        if self.rooms.contains_key(&id) {
            return None;
        }
        let ghost v = self@;
        let room = GameRoom { id: id.clone(), players: Vec::new(), created_at: now, last_activity: now };
        assert(texts(room.players@) =~= Seq::<Seq<char>>::empty());
        self.rooms.insert(id.clone(), room);
        assert(self@.rooms =~= with_new_room(v, id@, now).rooms);
        assert(self@ == with_new_room(v, id@, now));
        assert(four_digits(n as int) == id@);
        Some(id)
    }

    /// Makes an empty room at time `now` under a fresh four-digit identifier and
    /// returns it. Identifiers are drawn at random, a number of times, and then
    /// searched for in order; `None` comes back, changing nothing, only when
    /// every four-digit identifier is taken.
    pub fn create_room(&mut self, now: Millis) -> (r: Option<String>)
        requires
            old(self).wf(),
        ensures
            final(self).wf(),
            match r {
                Some(id) => created(old(self)@, final(self)@, id@, now),
                None => ids_exhausted(old(self)@, None) && final(self)@ == old(self)@,
            },
    {
        self.create_room_avoiding(now, None)
    }

    /// As `create_room`, but never under the identifier `avoid`.
    pub fn create_room_avoiding(&mut self, now: Millis, avoid: Option<&String>) -> (r: Option<String>)
        requires
            old(self).wf(),
        ensures
            final(self).wf(),
            match r {
                Some(id) => created(old(self)@, final(self)@, id@, now) && match avoid {
                    Some(a) => a@ != id@,
                    None => true,
                },
                None => ids_exhausted(old(self)@, avoided(avoid)) && final(self)@ == old(self)@,
            },
    {
        let ghost v = self@;
        let mut attempt: u32 = 0;
        while attempt < RANDOM_DRAWS
            invariant
                self.wf(),
                self@ == v,
                v == old(self)@,
            decreases RANDOM_DRAWS - attempt,
        {
            let n = draw_room_number();
            if !is_avoided(avoid, &room_id_text(n)) {
                match self.claim_room(n, now) {
                    Some(id) => {
                        return Some(id);
                    },
                    None => {},
                }
            }
            attempt = attempt + 1;
        }
        let mut n: u32 = 1000;
        while n < 10000
            invariant
                self.wf(),
                self@ == v,
                v == old(self)@,
                1000 <= n <= 10000,
                forall|m: int|
                    1000 <= m < n && avoided(avoid) != Some(four_digits(m))
                        ==> #[trigger] v.rooms.contains_key(four_digits(m)),
            decreases 10000 - n,
        {
            if !is_avoided(avoid, &room_id_text(n)) {
                match self.claim_room(n, now) {
                    Some(id) => {
                        return Some(id);
                    },
                    None => {},
                }
            }
            n = n + 1;
        }
        None
    }

    /// Removes every room that is empty and has been idle for at least
    /// `idle_ms` at time `now`. No player is in such a room, so the players'
    /// rooms stay as they were.
    pub fn evict_idle_rooms(&mut self, now: Millis, idle_ms: Millis)
        requires
            old(self).wf(),
        ensures
            final(self).wf(),
            final(self)@ == swept(old(self)@, now, idle_ms),
    {
        let ghost v = self@;
        let mut doomed: Vec<String> = Vec::new();
        let mut i: usize = 0;
        let keys = self.rooms.keys();
        while i < keys.len()
            invariant
                self.wf(),
                self@ == v,
                texts(keys@).no_duplicates(),
                forall|k: Seq<char>| #[trigger] v.rooms.contains_key(k) <==> texts(keys@).contains(k),
                i <= keys.len(),
                forall|k: Seq<char>|
                    #[trigger] texts(doomed@).contains(k) <==> texts(keys@).subrange(0, i as int).contains(k)
                        && evictable(v.rooms[k], now, idle_ms),
                texts(doomed@).no_duplicates(),
            decreases keys.len() - i,
        {
            let key = &keys[i];
            match self.rooms.get(key) {
                Some(room) => {
                    let ghost d0 = texts(doomed@);
                    let ghost ks = texts(keys@);
                    let ghost ks0 = ks.subrange(0, i as int);
                    let ghost ks1 = ks.subrange(0, i + 1);
                    assert(v.rooms.contains_key(key@));
                    assert(v.rooms[key@] == room@);
                    assert(ks[i as int] == key@);
                    assert(!d0.contains(key@)) by {
                        if d0.contains(key@) {
                            let j = choose|j: int| 0 <= j < i && ks0[j] == key@;
                            assert(ks[j] == ks[i as int]);
                        }
                    }
                    assert(ks1 =~= ks0.push(key@));
                    if room.players.len() == 0 && now >= room.last_activity && now - room.last_activity >= idle_ms {
                        doomed.push(key.clone());
                        assert(texts(doomed@) =~= d0.push(key@));
                        assert forall|a: int, b: int| 0 <= a < b < texts(doomed@).len() implies texts(doomed@)[a] != texts(doomed@)[b] by {
                            if b == d0.len() {
                                assert(d0.contains(d0[a]));
                            }
                        }
                        let ghost d1 = texts(doomed@);
                        assert(evictable(v.rooms[key@], now, idle_ms));
                        assert forall|k: Seq<char>| #[trigger] d1.contains(k) <==> ks1.contains(k)
                            && evictable(v.rooms[k], now, idle_ms) by {
                            if k == key@ {
                                assert(d1[d0.len() as int] == k);
                                assert(ks1[i as int] == k);
                            } else {
                                if d1.contains(k) {
                                    let j = choose|j: int| 0 <= j < d1.len() && d1[j] == k;
                                    assert(d0[j] == k);
                                    assert(d0.contains(k));
                                    let j2 = choose|j2: int| 0 <= j2 < i && ks0[j2] == k;
                                    assert(ks1[j2] == k);
                                }
                                if ks1.contains(k) && evictable(v.rooms[k], now, idle_ms) {
                                    let j = choose|j: int| 0 <= j < i + 1 && ks1[j] == k;
                                    assert(ks0[j] == k);
                                    assert(ks0.contains(k));
                                    assert(d0.contains(k));
                                    let j2 = choose|j2: int| 0 <= j2 < d0.len() && d0[j2] == k;
                                    assert(d1[j2] == k);
                                }
                            }
                        }
                    } else {
                        assert forall|k: Seq<char>| #[trigger] texts(doomed@).contains(k) <==> ks1.contains(k)
                            && evictable(v.rooms[k], now, idle_ms) by {
                            if ks0.contains(k) {
                                let j = choose|j: int| 0 <= j < i && ks0[j] == k;
                                assert(ks1[j] == k);
                            }
                            if ks1.contains(k) && k != key@ {
                                let j = choose|j: int| 0 <= j < i + 1 && ks1[j] == k;
                                assert(ks0[j] == k);
                            }
                        }
                    }
                },
                None => {
                    assert(texts(keys@)[i as int] == key@);
                    assert(v.rooms.contains_key(key@));
                },
            }
            i = i + 1;
        }
        let mut k: usize = 0;
        while k < doomed.len()
            invariant
                self.rooms.wf(),
                self.player_to_room.wf(),
                forall|q: Seq<char>| #[trigger] self.rooms@.contains_key(q) ==> self.rooms@[q].id@ == q,
                consistent(v),
                forall|q: Seq<char>|
                    #[trigger] texts(doomed@).contains(q) ==> v.rooms.contains_key(q) && evictable(v.rooms[q], now, idle_ms),
                k <= doomed.len(),
                self@.player_room == v.player_room,
                self@.rooms == Map::new(
                    |r: Seq<char>| v.rooms.contains_key(r) && !texts(doomed@).subrange(0, k as int).contains(r),
                    |r: Seq<char>| v.rooms[r],
                ),
            decreases doomed.len() - k,
        {
            let ghost d = texts(doomed@);
            let ghost d0 = d.subrange(0, k as int);
            let ghost d1 = d.subrange(0, k + 1);
            let ghost prev = self@.rooms;
            let _ = self.rooms.remove(&doomed[k]);
            assert(self@.rooms =~= prev.remove(d[k as int]));
            assert(d1 =~= d0.push(d[k as int]));
            assert forall|r: Seq<char>| #[trigger] d1.contains(r) <==> d0.contains(r) || r == d[k as int] by {
                if d1.contains(r) && r != d[k as int] {
                    let j = choose|j: int| 0 <= j < k + 1 && d1[j] == r;
                    assert(d0[j] == r);
                }
                if d0.contains(r) {
                    let j = choose|j: int| 0 <= j < k && d0[j] == r;
                    assert(d1[j] == r);
                }
                if r == d[k as int] {
                    assert(d1[k as int] == r);
                }
            }
            assert(self@.rooms =~= Map::new(
                |r: Seq<char>| v.rooms.contains_key(r) && !d1.contains(r),
                |r: Seq<char>| v.rooms[r],
            ));
            k = k + 1;
        }
        proof {
            let d = texts(doomed@);
            assert(d.subrange(0, d.len() as int) =~= d);
            assert(texts(keys@).subrange(0, keys.len() as int) =~= texts(keys@));
            assert(self@.rooms =~= swept(v, now, idle_ms).rooms);
            lemma_drop_empty_rooms_consistent(v, self@);
        }
    }

    /// Number of rooms.
    pub fn room_count(&self) -> (r: usize)
        requires
            self.wf(),
        ensures
            r == self@.rooms.len(),
    {
        assert(self@.rooms.dom() =~= self.rooms@.dom());
        self.rooms.len()
    }
}

} // verus!
