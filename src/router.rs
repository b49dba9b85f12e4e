use vstd::prelude::*;
use crate::registry::{RegistryView, SessionState, consistent, lemma_player_room_matches_members};
use crate::seqs::{texts, lemma_remove_value_at, lemma_remove_value_contents, position_of};
use crate::strmap::StrMap;

verus! {

/// Each connected player's delivery handle, by player identifier.
pub type ConnectionDirectory<H> = StrMap<H>;

/// Who a message sent to room `r` by `sender` goes to: the room's members in
/// order, without the sender.
pub open spec fn fanout(v: RegistryView, r: Seq<char>, sender: Seq<char>) -> Seq<Seq<char>> {
    v.rooms[r].members.remove_value(sender)
}

/// The members of room `room_id` other than `exclude`, in order of arrival;
/// `None` for an unknown room.
pub fn broadcast_recipients(registry: &SessionState, room_id: &String, exclude: &String) -> (r: Option<Vec<String>>)
    requires
        registry.wf(),
    ensures
        match r {
            Some(v) => registry@.rooms.contains_key(room_id@) && texts(v@) == fanout(registry@, room_id@, exclude@),
            None => !registry@.rooms.contains_key(room_id@),
        },
{
    proof {
        lemma_player_room_matches_members(registry, exclude@, room_id@);
    }
    match registry.members(room_id) {
        Some(mut v) => {
            let ghost m = texts(v@);
            proof {
                lemma_remove_value_contents(m, exclude@);
            }
            match position_of(&v, exclude) {
                Some(i) => {
                    proof {
                        lemma_remove_value_at(m, i as int);
                    }
                    v.remove(i);
                    assert(texts(v@) =~= m.remove(i as int));
                },
                None => {},
            }
            Some(v)
        },
        None => None,
    }
}

/// A message fanned out to a room reaches each member other than the sender
/// once, and never the sender.
pub proof fn lemma_fanout_excludes_sender(v: RegistryView, r: Seq<char>, sender: Seq<char>)
    requires
        consistent(v),
        v.rooms.contains_key(r),
    ensures
        !fanout(v, r, sender).contains(sender),
        fanout(v, r, sender).no_duplicates(),
        forall|p: Seq<char>|
            #[trigger] fanout(v, r, sender).contains(p) <==> v.rooms[r].members.contains(p) && p != sender,
{
    lemma_remove_value_contents(v.rooms[r].members, sender);
}

} // verus!
