use vstd::prelude::*;
use crate::registry::{connected, delivered, disconnected, fan_out, moved, Delivery, WebsocketServerActor};

verus! {

/// Along a run of connects, no session ever leaves the live set.
proof fn lemma_connects_keep_live<S>(
    states: Seq<WebsocketServerActor<S>>,
    rooms: Seq<Seq<char>>,
    sinks: Seq<S>,
    ids: Seq<usize>,
    i: int,
    j: int,
)
    requires
        states.len() == ids.len() + 1,
        rooms.len() == ids.len(),
        sinks.len() == ids.len(),
        forall|k: int| 0 <= k < ids.len() ==> connected(#[trigger] states[k], states[k + 1], rooms[k], sinks[k], ids[k]),
        0 <= i <= j < states.len(),
    ensures
        states[i].live().subset_of(states[j].live()),
    decreases j - i,
{
    if i < j {
        lemma_connects_keep_live(states, rooms, sinks, ids, i, j - 1);
        assert(connected(states[j - 1], states[j], rooms[j - 1], sinks[j - 1], ids[j - 1]));
    }
}

/// Every id handed out by a run of connects is distinct from every other
/// one, and all of them are live at the end of the run.
pub proof fn lemma_connect_ids_distinct<S>(
    states: Seq<WebsocketServerActor<S>>,
    rooms: Seq<Seq<char>>,
    sinks: Seq<S>,
    ids: Seq<usize>,
)
    requires
        states.len() == ids.len() + 1,
        rooms.len() == ids.len(),
        sinks.len() == ids.len(),
        forall|k: int| 0 <= k < ids.len() ==> connected(#[trigger] states[k], states[k + 1], rooms[k], sinks[k], ids[k]),
    ensures
        ids.no_duplicates(),
        forall|k: int| 0 <= k < ids.len() ==> states.last().live().contains(#[trigger] ids[k]),
{
    assert forall|a: int, b: int| 0 <= a < b < ids.len() implies ids[a] != ids[b] by {
        assert(connected(states[a], states[a + 1], rooms[a], sinks[a], ids[a]));
        assert(connected(states[b], states[b + 1], rooms[b], sinks[b], ids[b]));
        lemma_connects_keep_live(states, rooms, sinks, ids, a + 1, b);
    }
    assert forall|k: int| 0 <= k < ids.len() implies states.last().live().contains(#[trigger] ids[k]) by {
        assert(connected(states[k], states[k + 1], rooms[k], sinks[k], ids[k]));
        lemma_connects_keep_live(states, rooms, sinks, ids, k + 1, ids.len() as int);
    }
}

/// Once a session is disconnected, no fan-out to any room reaches it.
pub proof fn lemma_disconnected_never_reached<S>(
    before: WebsocketServerActor<S>,
    after: WebsocketServerActor<S>,
    id: usize,
    room: Seq<char>,
    payload: Seq<char>,
    skip: Option<usize>,
    r: Seq<Delivery>,
)
    requires
        disconnected(before, after, id),
        fan_out(after, room, payload, skip, r),
    ensures
        forall|t: Seq<char>| !#[trigger] delivered(r).contains((id, t)),
{
    assert(after.members(room) == before.members(room).remove(id));
}

/// A session that connected to room `a` and then joined room `b` is a
/// member of `b` and no longer of `a`, and a relay from any other session to
/// `a` does not reach it.
pub proof fn lemma_join_leaves_old_room<S>(
    s0: WebsocketServerActor<S>,
    s1: WebsocketServerActor<S>,
    s2: WebsocketServerActor<S>,
    a: Seq<char>,
    b: Seq<char>,
    sink: S,
    id: usize,
    sender: usize,
    payload: Seq<char>,
    r: Seq<Delivery>,
)
    requires
        connected(s0, s1, a, sink, id),
        moved(s1, s2, id, b),
        a != b,
        fan_out(s2, a, payload, Some(sender), r),
    ensures
        !s2.members(a).contains(id),
        s2.members(b).contains(id),
        forall|t: Seq<char>| !#[trigger] delivered(r).contains((id, t)),
{
    assert(s2.members(a) == s1.members(a).remove(id));
}

/// Disconnecting the same session twice in a row has the effect of
/// disconnecting it once.
pub proof fn lemma_disconnect_idempotent<S>(
    s0: WebsocketServerActor<S>,
    s1: WebsocketServerActor<S>,
    s2: WebsocketServerActor<S>,
    id: usize,
)
    requires
        disconnected(s0, s1, id),
        disconnected(s1, s2, id),
    ensures
        disconnected(s0, s2, id),
        s2.live() == s1.live(),
        s2.handles() == s1.handles(),
        forall|n: Seq<char>| #[trigger] s2.members(n) == s1.members(n),
        s2.room_names() == s1.room_names(),
{
    assert(s2.live() =~= s1.live());
    assert(s2.handles() =~= s1.handles());
    assert forall|n: Seq<char>| #[trigger] s2.members(n) == s1.members(n) by {
        assert(s2.members(n) =~= s1.members(n));
    }
    assert(s2.live() =~= s0.live().remove(id));
    assert(s2.handles() =~= s0.handles().remove(id));
    assert forall|n: Seq<char>| #[trigger] s2.members(n) == s0.members(n).remove(id) by {
        assert(s2.members(n) =~= s0.members(n).remove(id));
    }
}

} // verus!
