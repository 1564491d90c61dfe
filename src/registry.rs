use vstd::prelude::*;

verus! {

/// A named room and the ids of the sessions currently in it.
struct Room {
    name: String,
    members: Vec<usize>,
}

/// A request to register a new session in a room.
pub struct ConnectMessage<S> {
    pub room_name: String,
    pub websocket_session_actor_recipient: S,
}

/// A request to remove a session.
pub struct DisconnectMessage {
    pub websocket_session_id: usize,
}

/// A request to move a session into another room.
pub struct JoinMessage {
    pub session_id: usize,
    pub room_name: String,
}

/// A payload owed to one session.
#[derive(Debug, Clone, PartialEq, Eq)]
pub struct Delivery {
    pub recipient: usize,
    pub message: String,
}

/// Each delivery as its recipient and the characters of its payload.
pub open spec fn delivered(r: Seq<Delivery>) -> Seq<(usize, Seq<char>)> {
    r.map_values(|d: Delivery| (d.recipient, d.message@))
}

/// What the members of a room hear when a session leaves it for another.
pub open spec fn left_notice() -> Seq<char> {
    "Someone disconnected"@
}

/// What the members of a room hear when a session joins it.
pub open spec fn entered_notice() -> Seq<char> {
    "Someone connected"@
}

/// `after` is `before` with a new session `id`, whose sink is `sink`,
/// registered in the room named `room`; `id` was not live before.
pub open spec fn connected<S>(
    before: WebsocketServerActor<S>,
    after: WebsocketServerActor<S>,
    room: Seq<char>,
    sink: S,
    id: usize,
) -> bool {
    &&& !before.live().contains(id)
    &&& after.live() == before.live().insert(id)
    &&& after.handles() == before.handles().insert(id, sink)
    &&& after.members(room) == before.members(room).insert(id)
    &&& forall|n: Seq<char>| n != room ==> #[trigger] after.members(n) == before.members(n)
    &&& after.room_names() == before.room_names().insert(room)
}

/// `after` is `before` without the session `id`: its handle is gone and it
/// is in no room; the set of tracked rooms is unchanged.
pub open spec fn disconnected<S>(before: WebsocketServerActor<S>, after: WebsocketServerActor<S>, id: usize) -> bool {
    &&& after.live() == before.live().remove(id)
    &&& after.handles() == before.handles().remove(id)
    &&& forall|n: Seq<char>| #[trigger] after.members(n) == before.members(n).remove(id)
    &&& after.room_names() == before.room_names()
}

/// `after` is `before` with the live session `id` moved into the room named
/// `room`: it left every other room, and `room` is tracked.
pub open spec fn moved<S>(before: WebsocketServerActor<S>, after: WebsocketServerActor<S>, id: usize, room: Seq<char>) -> bool {
    &&& after.live() == before.live()
    &&& after.handles() == before.handles()
    &&& after.members(room) == before.members(room).insert(id)
    &&& forall|n: Seq<char>| n != room ==> #[trigger] after.members(n) == before.members(n).remove(id)
    &&& after.room_names() == before.room_names().insert(room)
}

/// `r` hands `payload` to every member of the room named `room` in `s` but
/// `skip`, once each, and nothing else.
pub open spec fn fan_out<S>(s: WebsocketServerActor<S>, room: Seq<char>, payload: Seq<char>, skip: Option<usize>, r: Seq<Delivery>) -> bool {
    &&& delivered(r).no_duplicates()
    &&& forall|m: usize, t: Seq<char>| #[trigger] delivered(r).contains((m, t)) <==>
        (t == payload && s.members(room).contains(m) && skip != Some(m))
}

/// Appends one delivery of `text` to each of `ids`, in order.
fn push_notices(out: &mut Vec<Delivery>, ids: &Vec<usize>, text: &str)
    ensures
        delivered(final(out)@) == delivered(old(out)@) + ids@.map_values(|m: usize| (m, text@)),
{
    let mut j: usize = 0;
    while j < ids.len()
        invariant
            j <= ids@.len(),
            delivered(out@) == delivered(old(out)@) + ids@.subrange(0, j as int).map_values(|m: usize| (m, text@)),
        decreases ids@.len() - j,
    {
        let ghost o0 = out@;
        out.push(Delivery { recipient: ids[j], message: text.to_owned() });
        proof {
            assert(ids@.subrange(0, j as int + 1) == ids@.subrange(0, j as int).push(ids@[j as int]));
            assert(delivered(out@) =~= delivered(o0).push((ids@[j as int], text@)));
            assert(delivered(out@) =~= delivered(old(out)@) + ids@.subrange(0, j as int + 1).map_values(|m: usize| (m, text@)));
        }
        j += 1;
    }
    assert(ids@.subrange(0, j as int) == ids@);
}

/// A payload sent by a session to the other members of a room.
pub struct ClientMessage {
    pub session_id: usize,
    pub room_name: String,
    pub message: String,
}

/// A request for the names of the tracked rooms.
pub struct ListRoomsMessage;

/// A request to send the current shared state of a room to all its members.
pub struct BroadcastAppStateMessage {
    pub user_id: String,
}

/// The single authority over session identity, room membership and fan-out.
///
/// `S` is the sink through which a session receives outbound payloads; the
/// coordinator only stores it and hands it back by id.
pub struct WebsocketServerActor<S> {
    session_ids: Vec<usize>,
    recipients: Vec<S>,
    rooms: Vec<Room>,
}

/// The entries of `members` other than `skip`, each once.
fn members_except(members: &Vec<usize>, skip: Option<usize>) -> (r: Vec<usize>)
    requires
        members@.no_duplicates(),
    ensures
        r@.no_duplicates(),
        forall|id: usize| #[trigger] r@.contains(id) <==> (members@.contains(id) && skip != Some(id)),
{
    let mut r: Vec<usize> = Vec::new();
    let mut j: usize = 0;
    while j < members.len()
        invariant
            members@.no_duplicates(),
            j <= members@.len(),
            r@.no_duplicates(),
            forall|id: usize|
                #[trigger] r@.contains(id) <==> (exists|t: int| 0 <= t < j && members@[t] == id) && skip != Some(id),
        decreases members@.len() - j,
    {
        let id = members[j];
        let ghost r0 = r@;
        if skip != Some(id) {
            proof {
                assert forall|t: int| 0 <= t < j implies members@[t] != id by {
                    assert(members@[t] != members@[j as int]);
                }
                assert(!r0.contains(id));
            }
            r.push(id);
            proof {
                assert(r@ == r0.push(id));
                assert forall|a: int, b: int| 0 <= a < b < r@.len() implies r@[a] != r@[b] by {
                    if b == r0.len() {
                        assert(r0.contains(r@[a]));
                    } else {
                        assert(r0[a] != r0[b]);
                    }
                }
            }
        }
        proof {
            assert forall|x: usize| #[trigger] r@.contains(x) <==> (exists|t: int|
                0 <= t < j + 1 && members@[t] == x) && skip != Some(x) by {
                if r@.contains(x) && x != id {
                    let a = choose|a: int| 0 <= a < r@.len() && r@[a] == x;
                    assert(r0[a] == x);
                    assert(r0.contains(x));
                }
                if r0.contains(x) {
                    let a = choose|a: int| 0 <= a < r0.len() && r0[a] == x;
                    assert(r@[a] == x);
                }
                if (exists|t: int| 0 <= t < j + 1 && members@[t] == x) && x != id {
                    let t = choose|t: int| 0 <= t < j + 1 && members@[t] == x;
                    assert(t < j);
                }
                if x == id && skip != Some(x) {
                    assert(r@[r@.len() - 1] == x);
                }
            }
        }
        j += 1;
    }
    proof {
        assert forall|id: usize| #[trigger] r@.contains(id) <==> (members@.contains(id) && skip != Some(id)) by {
            if members@.contains(id) {
                let t = choose|t: int| 0 <= t < members@.len() && members@[t] == id;
            }
        }
    }
    r
}

/// Relies on `rand::random`, which draws a value from the thread-local
/// generator; nothing is known of the value drawn.
pub assume_specification<T>[ rand::random::<T> ]() -> (r: T)
    where
        rand::distributions::Standard: rand::distributions::Distribution<T>,
;

/// A list of distinct ids that holds each of `0 .. k` has at least `k` entries.
proof fn lemma_dense_prefix(s: Seq<usize>, k: int)
    requires
        0 <= k <= usize::MAX as int + 1,
        s.no_duplicates(),
        forall|j: usize| (j as int) < k ==> #[trigger] s.contains(j),
    ensures
        s.len() >= k,
    decreases k,
{
    if k > 0 {
        let x = (k - 1) as usize;
        assert(s.contains(x));
        let idx = choose|t: int| 0 <= t < s.len() && s[t] == x;
        let s2 = s.remove(idx);
        assert(s2.no_duplicates()) by {
            assert forall|a: int, b: int| 0 <= a < b < s2.len() implies s2[a] != s2[b] by {
                let a2 = if a < idx { a } else { a + 1 };
                let b2 = if b < idx { b } else { b + 1 };
                assert(s2[a] == s[a2] && s2[b] == s[b2]);
            }
        }
        assert forall|j: usize| (j as int) < k - 1 implies #[trigger] s2.contains(j) by {
            assert(s.contains(j));
            let t = choose|t: int| 0 <= t < s.len() && s[t] == j;
            assert(t != idx);
            if t < idx {
                assert(s2[t] == j);
            } else {
                assert(s2[t - 1] == j);
            }
        }
        lemma_dense_prefix(s2, k - 1);
    }
}

/// In a list of distinct ids, the position of the entry at `k` is `k`.
proof fn lemma_index_of_distinct(s: Seq<usize>, k: int)
    requires
        s.no_duplicates(),
        0 <= k < s.len(),
    ensures
        s.index_of(s[k]) == k,
{
    assert(s.contains(s[k]));
}

/// Removes `id` from a list of distinct ids; says whether it was there.
fn remove_member(v: &mut Vec<usize>, id: usize) -> (found: bool)
    requires
        old(v)@.no_duplicates(),
    ensures
        found == old(v)@.contains(id),
        final(v)@.no_duplicates(),
        forall|x: usize| #[trigger] final(v)@.contains(x) <==> (old(v)@.contains(x) && x != id),
{
    let mut i: usize = 0;
    while i < v.len()
        invariant
            i <= v@.len(),
            v@ == old(v)@,
            old(v)@.no_duplicates(),
            forall|k: int| 0 <= k < i ==> v@[k] != id,
        decreases v@.len() - i,
    {
        if v[i] == id {
            let ghost before = v@;
            v.remove(i);
            assert(before.no_duplicates());
            assert forall|x: usize| #[trigger] v@.contains(x) <==> (before.contains(x) && x != id) by {
                if v@.contains(x) {
                    let k = choose|k: int| 0 <= k < v@.len() && v@[k] == x;
                    if k < i {
                        assert(before[k] == x);
                    } else {
                        assert(before[k + 1] == x);
                        assert(before[k + 1] != before[i as int]);
                    }
                }
                if before.contains(x) && x != id {
                    let k = choose|k: int| 0 <= k < before.len() && before[k] == x;
                    if k < i {
                        assert(v@[k] == x);
                    } else {
                        assert(v@[k - 1] == x);
                    }
                }
            }
            assert(v@.no_duplicates()) by {
                assert forall|a: int, b: int| 0 <= a < b < v@.len() implies v@[a] != v@[b] by {
                    let a2 = if a < i { a } else { a + 1 };
                    let b2 = if b < i { b } else { b + 1 };
                    assert(v@[a] == before[a2] && v@[b] == before[b2]);
                    assert(a2 < b2);
                    assert(before[a2] != before[b2]);
                }
            }
            return true;
        }
        i += 1;
    }
    false
}

impl<S> WebsocketServerActor<S> {
    /// The ids of the live sessions.
    pub closed spec fn live(&self) -> Set<usize> {
        self.session_ids@.to_set()
    }

    /// The ids of the sessions that are members of the room named `room`
    /// (empty for a room that is not tracked).
    pub closed spec fn members(&self, room: Seq<char>) -> Set<usize> {
        Set::new(
            |id: usize|
                exists|i: int|
                    0 <= i < self.rooms@.len() && #[trigger] self.rooms@[i].name@ == room
                        && self.rooms@[i].members@.contains(id),
        )
    }

    /// The names of the rooms that are tracked, empty ones included.
    pub closed spec fn room_names(&self) -> Set<Seq<char>> {
        Set::new(
            |n: Seq<char>| exists|i: int| 0 <= i < self.rooms@.len() && #[trigger] self.rooms@[i].name@ == n,
        )
    }

    /// The sink registered for each live session.
    pub closed spec fn handles(&self) -> Map<usize, S> {
        Map::new(
            |id: usize| self.session_ids@.contains(id),
            |id: usize| self.recipients@[self.session_ids@.index_of(id)],
        )
    }

    /// The coordinator's invariant: ids are unique, room names are unique,
    /// every member is a live session (no dangling membership), and every
    /// live session is a member of exactly one room.
    pub closed spec fn wf(&self) -> bool {
        &&& self.session_ids@.len() == self.recipients@.len()
        &&& self.session_ids@.no_duplicates()
        &&& forall|i: int, j: int|
            0 <= i < j < self.rooms@.len() ==> self.rooms@[i].name@ != self.rooms@[j].name@
        &&& forall|i: int| 0 <= i < self.rooms@.len() ==> (#[trigger] self.rooms@[i]).members@.no_duplicates()
        &&& forall|i: int, id: usize|
            0 <= i < self.rooms@.len() && #[trigger] self.rooms@[i].members@.contains(id)
                ==> self.session_ids@.contains(id)
        &&& forall|i: int, j: int, id: usize|
            0 <= i < self.rooms@.len() && 0 <= j < self.rooms@.len()
                && #[trigger] self.rooms@[i].members@.contains(id)
                && #[trigger] self.rooms@[j].members@.contains(id) ==> i == j
        &&& forall|id: usize|
            #[trigger] self.session_ids@.contains(id) ==> exists|i: int|
                0 <= i < self.rooms@.len() && #[trigger] self.rooms@[i].members@.contains(id)
    }

    fn find_session(&self, id: usize) -> (r: Option<usize>)
        ensures
            r matches Some(k) ==> k < self.session_ids@.len() && self.session_ids@[k as int] == id,
            r is None ==> !self.session_ids@.contains(id),
    {
        let mut k: usize = 0;
        while k < self.session_ids.len()
            invariant
                k <= self.session_ids@.len(),
                forall|j: int| 0 <= j < k ==> self.session_ids@[j] != id,
            decreases self.session_ids@.len() - k,
        {
            if self.session_ids[k] == id {
                return Some(k);
            }
            k += 1;
        }
        None
    }

    fn find_room(&self, name: &String) -> (r: Option<usize>)
        ensures
            r matches Some(k) ==> k < self.rooms@.len() && self.rooms@[k as int].name@ == name@,
            r is None ==> forall|j: int| 0 <= j < self.rooms@.len() ==> self.rooms@[j].name@ != name@,
    {
        let mut k: usize = 0;
        while k < self.rooms.len()
            invariant
                k <= self.rooms@.len(),
                forall|j: int| 0 <= j < k ==> self.rooms@[j].name@ != name@,
            decreases self.rooms@.len() - k,
        {
            if self.rooms[k].name == *name {
                return Some(k);
            }
            k += 1;
        }
        None
    }

    /// The smallest id that no live session holds.
    fn fresh_id(&self) -> (r: usize)
        requires
            self.wf(),
        ensures
            !self.live().contains(r),
    {
        let n = self.session_ids.len();
        let mut id: usize = 0;
        loop
            invariant
                self.wf(),
                n == self.session_ids@.len(),
                forall|j: usize| j < id ==> #[trigger] self.session_ids@.contains(j),
            decreases self.session_ids@.len() - id,
        {
            match self.find_session(id) {
                None => {
                    return id;
                },
                Some(_) => {
                    proof {
                        assert forall|j: usize| (j as int) < id as int + 1 implies #[trigger] self.session_ids@.contains(j) by {
                            if j < id {
                            } else {
                                assert(j == id);
                            }
                        }
                        lemma_dense_prefix(self.session_ids@, id as int + 1);
                    }
                    id += 1;
                },
            }
        }
    }

    /// The sessions of `room_name` that a fan-out reaches: every member but
    /// `skip`, each once. Absent and empty rooms both give no recipient.
    pub fn recipients_in(&self, room_name: &String, skip: Option<usize>) -> (r: Vec<usize>)
        requires
            self.wf(),
        ensures
            r@.no_duplicates(),
            forall|id: usize|
                #[trigger] r@.contains(id) <==> (self.members(room_name@).contains(id) && skip != Some(id)),
    {
        match self.find_room(room_name) {
            None => {
                assert forall|id: usize| !self.members(room_name@).contains(id) by {}
                Vec::new()
            },
            Some(k) => {
                let r = members_except(&self.rooms[k].members, skip);
                proof {
                    assert forall|id: usize| #[trigger] r@.contains(id) <==> (self.members(room_name@).contains(id)
                        && skip != Some(id)) by {
                        if self.members(room_name@).contains(id) {
                            let i = choose|i: int|
                                0 <= i < self.rooms@.len() && #[trigger] self.rooms@[i].name@ == room_name@
                                    && self.rooms@[i].members@.contains(id);
                            assert(i == k);
                        }
                        if r@.contains(id) {
                            assert(self.rooms@[k as int].name@ == room_name@);
                        }
                    }
                }
                r
            },
        }
    }

    /// Adds `id`, which no room holds, to the room named `room_name`,
    /// creating that room at the end when it is not tracked.
    fn enter_room(&mut self, room_name: String, id: usize)
        requires
            forall|i: int, j: int|
                0 <= i < j < old(self).rooms@.len() ==> old(self).rooms@[i].name@ != old(self).rooms@[j].name@,
            forall|i: int| 0 <= i < old(self).rooms@.len() ==> (#[trigger] old(self).rooms@[i]).members@.no_duplicates(),
            forall|i: int| 0 <= i < old(self).rooms@.len() ==> !(#[trigger] old(self).rooms@[i]).members@.contains(id),
        ensures
            final(self).session_ids == old(self).session_ids,
            final(self).recipients == old(self).recipients,
            old(self).rooms@.len() <= final(self).rooms@.len() <= old(self).rooms@.len() + 1,
            forall|i: int| 0 <= i < old(self).rooms@.len() ==> (#[trigger] final(self).rooms@[i]).name == old(self).rooms@[i].name,
            forall|i: int, j: int|
                0 <= i < j < final(self).rooms@.len() ==> final(self).rooms@[i].name@ != final(self).rooms@[j].name@,
            forall|i: int| 0 <= i < final(self).rooms@.len() ==> (#[trigger] final(self).rooms@[i]).members@.no_duplicates(),
            forall|i: int, x: usize| 0 <= i < final(self).rooms@.len() ==>
                (#[trigger] final(self).rooms@[i].members@.contains(x) <==> ((i < old(self).rooms@.len()
                    && old(self).rooms@[i].members@.contains(x)) || (x == id && final(self).rooms@[i].name@ == room_name@))),
            exists|i: int| 0 <= i < final(self).rooms@.len() && #[trigger] final(self).rooms@[i].name@ == room_name@,
            final(self).members(room_name@) == old(self).members(room_name@).insert(id),
            forall|n: Seq<char>| n != room_name@ ==> #[trigger] final(self).members(n) == old(self).members(n),
            final(self).room_names() == old(self).room_names().insert(room_name@),
    {
        let ghost old_rooms = self.rooms@;
        match self.find_room(&room_name) {
            Some(k) => {
                let ghost old_members = self.rooms@[k as int].members@;
                self.rooms[k].members.push(id);
                proof {
                    assert(self.rooms@[k as int].members@ == old_members.push(id));
                    assert forall|i: int| 0 <= i < self.rooms@.len() && i != k implies self.rooms@[i] == old_rooms[i] by {}
                    assert(self.rooms@[k as int].members@.no_duplicates()) by {
                        assert forall|a: int, b: int| 0 <= a < b < old_members.len() + 1 implies
                            self.rooms@[k as int].members@[a] != self.rooms@[k as int].members@[b] by {
                            if b == old_members.len() {
                                assert(old_members.contains(old_members[a]));
                            } else {
                                assert(old_members[a] != old_members[b]);
                            }
                        }
                    }
                    assert forall|x: usize| #[trigger] self.rooms@[k as int].members@.contains(x) <==> (old_members.contains(x) || x == id) by {
                        if old_members.contains(x) {
                            let t = choose|t: int| 0 <= t < old_members.len() && old_members[t] == x;
                            assert(self.rooms@[k as int].members@[t] == x);
                        }
                        if x == id {
                            assert(self.rooms@[k as int].members@[old_members.len() as int] == x);
                        }
                        if self.rooms@[k as int].members@.contains(x) && x != id {
                            let t = choose|t: int| 0 <= t < old_members.len() + 1 && self.rooms@[k as int].members@[t] == x;
                            assert(old_members[t] == x);
                        }
                    }
                    assert forall|i: int, x: usize| 0 <= i < self.rooms@.len() implies
                        (#[trigger] self.rooms@[i].members@.contains(x) <==> ((i < old_rooms.len()
                            && old_rooms[i].members@.contains(x)) || (x == id && self.rooms@[i].name@ == room_name@))) by {
                        if i != k && x == id && self.rooms@[i].name@ == room_name@ {
                            assert(old_rooms[i].name@ != old_rooms[k as int].name@);
                        }
                    }
                    assert(self.members(room_name@) =~= old(self).members(room_name@).insert(id)) by {
                        assert forall|x: usize| #[trigger] self.members(room_name@).contains(x) implies
                            old(self).members(room_name@).insert(id).contains(x) by {
                            let i = choose|i: int| 0 <= i < self.rooms@.len() && #[trigger] self.rooms@[i].name@ == room_name@
                                && self.rooms@[i].members@.contains(x);
                            if i != k {
                                assert(old_rooms[i].name@ == room_name@);
                            }
                        }
                        assert forall|x: usize| old(self).members(room_name@).insert(id).contains(x) implies
                            #[trigger] self.members(room_name@).contains(x) by {
                            if x != id {
                                let i = choose|i: int| 0 <= i < old_rooms.len() && #[trigger] old_rooms[i].name@ == room_name@
                                    && old_rooms[i].members@.contains(x);
                                assert(i == k);
                            }
                            assert(self.rooms@[k as int].name@ == room_name@);
                        }
                    }
                    assert forall|n: Seq<char>| n != room_name@ implies #[trigger] self.members(n) == old(self).members(n) by {
                        assert(self.members(n) =~= old(self).members(n)) by {
                            assert forall|x: usize| self.members(n).contains(x) implies old(self).members(n).contains(x) by {
                                let i = choose|i: int| 0 <= i < self.rooms@.len() && #[trigger] self.rooms@[i].name@ == n
                                    && self.rooms@[i].members@.contains(x);
                                assert(i != k);
                                assert(old_rooms[i].name@ == n);
                            }
                            assert forall|x: usize| old(self).members(n).contains(x) implies self.members(n).contains(x) by {
                                let i = choose|i: int| 0 <= i < old_rooms.len() && #[trigger] old_rooms[i].name@ == n
                                    && old_rooms[i].members@.contains(x);
                                assert(i != k);
                                assert(self.rooms@[i].name@ == n);
                            }
                        }
                    }
                    assert(self.room_names() =~= old(self).room_names().insert(room_name@)) by {
                        assert forall|n: Seq<char>| #[trigger] self.room_names().contains(n) implies old(self).room_names().contains(n) by {
                            let i = choose|i: int| 0 <= i < self.rooms@.len() && #[trigger] self.rooms@[i].name@ == n;
                            assert(old_rooms[i].name@ == n);
                        }
                        assert forall|n: Seq<char>| old(self).room_names().contains(n) implies #[trigger] self.room_names().contains(n) by {
                            let i = choose|i: int| 0 <= i < old_rooms.len() && #[trigger] old_rooms[i].name@ == n;
                            assert(self.rooms@[i].name@ == n);
                        }
                        assert(self.rooms@[k as int].name@ == room_name@);
                    }
                    assert(self.rooms@[k as int].name@ == room_name@);
                }
            },
            None => {
                let ghost name = room_name@;
                let mut members: Vec<usize> = Vec::new();
                members.push(id);
                self.rooms.push(Room { name: room_name, members });
                proof {
                    let last = old_rooms.len() as int;
                    assert(self.rooms@[last].members@ == seq![id]);
                    assert forall|i: int| 0 <= i < last implies self.rooms@[i] == old_rooms[i] by {}
                    assert(self.rooms@[last].members@.contains(id)) by {
                        assert(self.rooms@[last].members@[0] == id);
                    }
                    assert(self.rooms@[last].name@ == name);
                    assert forall|i: int, x: usize| 0 <= i < self.rooms@.len() implies
                        (#[trigger] self.rooms@[i].members@.contains(x) <==> ((i < old_rooms.len()
                            && old_rooms[i].members@.contains(x)) || (x == id && self.rooms@[i].name@ == name))) by {
                        if i == last && self.rooms@[i].members@.contains(x) {
                            assert(self.rooms@[last].members@[0] == x);
                        }
                    }
                    assert(self.members(name) =~= old(self).members(name).insert(id)) by {
                        assert forall|x: usize| #[trigger] self.members(name).contains(x) implies
                            old(self).members(name).insert(id).contains(x) by {
                            let i = choose|i: int| 0 <= i < self.rooms@.len() && #[trigger] self.rooms@[i].name@ == name
                                && self.rooms@[i].members@.contains(x);
                            if i != last {
                                assert(old_rooms[i].name@ == name);
                            }
                        }
                        assert forall|x: usize| old(self).members(name).insert(id).contains(x) implies
                            #[trigger] self.members(name).contains(x) by {
                            if x != id {
                                let i = choose|i: int| 0 <= i < old_rooms.len() && #[trigger] old_rooms[i].name@ == name
                                    && old_rooms[i].members@.contains(x);
                            }
                            assert(self.rooms@[last].name@ == name);
                        }
                    }
                    assert forall|n: Seq<char>| n != name implies #[trigger] self.members(n) == old(self).members(n) by {
                        assert(self.members(n) =~= old(self).members(n)) by {
                            assert forall|x: usize| self.members(n).contains(x) implies old(self).members(n).contains(x) by {
                                let i = choose|i: int| 0 <= i < self.rooms@.len() && #[trigger] self.rooms@[i].name@ == n
                                    && self.rooms@[i].members@.contains(x);
                                assert(old_rooms[i].name@ == n);
                            }
                            assert forall|x: usize| old(self).members(n).contains(x) implies self.members(n).contains(x) by {
                                let i = choose|i: int| 0 <= i < old_rooms.len() && #[trigger] old_rooms[i].name@ == n
                                    && old_rooms[i].members@.contains(x);
                                assert(self.rooms@[i].name@ == n);
                            }
                        }
                    }
                    assert(self.room_names() =~= old(self).room_names().insert(name)) by {
                        assert forall|n: Seq<char>| #[trigger] self.room_names().contains(n) implies old(self).room_names().insert(name).contains(n) by {
                            let i = choose|i: int| 0 <= i < self.rooms@.len() && #[trigger] self.rooms@[i].name@ == n;
                            if i != last {
                                assert(old_rooms[i].name@ == n);
                            }
                        }
                        assert forall|n: Seq<char>| old(self).room_names().contains(n) implies #[trigger] self.room_names().contains(n) by {
                            let i = choose|i: int| 0 <= i < old_rooms.len() && #[trigger] old_rooms[i].name@ == n;
                            assert(self.rooms@[i].name@ == n);
                        }
                    }
                }
            },
        }
    }

    /// Registers a session with sink `sink` in `room_name` under a fresh id:
    /// `candidate` where no live session holds it, else an id that none holds.
    /// The room is created when it is not tracked yet.
    pub fn connect_with_id(&mut self, room_name: String, sink: S, candidate: usize) -> (r: usize)
        requires
            old(self).wf(),
        ensures
            final(self).wf(),
            connected(*old(self), *final(self), room_name@, sink, r),
            !old(self).live().contains(candidate) ==> r == candidate,
    {
        let id = match self.find_session(candidate) {
            None => candidate,
            Some(_) => self.fresh_id(),
        };
        let ghost old_ids = self.session_ids@;
        let ghost old_recipients = self.recipients@;
        self.session_ids.push(id);
        self.recipients.push(sink);
        proof {
            assert(self.session_ids@.no_duplicates()) by {
                assert forall|a: int, b: int| 0 <= a < b < self.session_ids@.len() implies
                    self.session_ids@[a] != self.session_ids@[b] by {
                    if b == old_ids.len() {
                        assert(old_ids.contains(self.session_ids@[a]));
                    } else {
                        assert(old_ids[a] != old_ids[b]);
                    }
                }
            }
            assert forall|x: usize| #[trigger] self.session_ids@.contains(x) <==> (old_ids.contains(x) || x == id) by {
                if old_ids.contains(x) {
                    let t = choose|t: int| 0 <= t < old_ids.len() && old_ids[t] == x;
                    assert(self.session_ids@[t] == x);
                }
                if x == id {
                    assert(self.session_ids@[old_ids.len() as int] == x);
                }
                if self.session_ids@.contains(x) && x != id {
                    let t = choose|t: int| 0 <= t < self.session_ids@.len() && self.session_ids@[t] == x;
                    assert(old_ids[t] == x);
                }
            }
            assert(self.live() =~= old(self).live().insert(id));
            assert(self.handles() =~= old(self).handles().insert(id, sink)) by {
                assert forall|x: usize| #[trigger] self.handles().contains_key(x) implies
                    self.handles()[x] == old(self).handles().insert(id, sink)[x] by {
                    if x == id {
                        lemma_index_of_distinct(self.session_ids@, old_ids.len() as int);
                    } else {
                        let t = choose|t: int| 0 <= t < old_ids.len() && old_ids[t] == x;
                        lemma_index_of_distinct(old_ids, t);
                        lemma_index_of_distinct(self.session_ids@, t);
                    }
                }
            }
        }
        let ghost mid = *self;
        let ghost name = room_name@;
        self.enter_room(room_name, id);
        proof {
            assert forall|i: int, x: usize| 0 <= i < self.rooms@.len() && #[trigger] self.rooms@[i].members@.contains(x)
                implies self.session_ids@.contains(x) by {
                if x != id {
                    assert(mid.rooms@[i].members@.contains(x));
                }
            }
            assert forall|x: usize| #[trigger] self.session_ids@.contains(x) implies exists|i: int|
                0 <= i < self.rooms@.len() && #[trigger] self.rooms@[i].members@.contains(x) by {
                if x != id {
                    assert(old_ids.contains(x));
                    let i = choose|i: int| 0 <= i < mid.rooms@.len() && #[trigger] mid.rooms@[i].members@.contains(x);
                    assert(self.rooms@[i].members@.contains(x));
                } else {
                    let i = choose|i: int| 0 <= i < self.rooms@.len() && #[trigger] self.rooms@[i].name@ == name;
                    assert(self.rooms@[i].members@.contains(x));
                }
            }
            assert forall|i: int, j: int, x: usize|
                0 <= i < self.rooms@.len() && 0 <= j < self.rooms@.len()
                    && #[trigger] self.rooms@[i].members@.contains(x)
                    && #[trigger] self.rooms@[j].members@.contains(x) implies i == j by {
                if x != id {
                    assert(mid.rooms@[i].members@.contains(x));
                    assert(mid.rooms@[j].members@.contains(x));
                } else if i != j {
                    assert(self.rooms@[i].name@ == name);
                    assert(self.rooms@[j].name@ == name);
                }
            }
        }
        id
    }

    /// Registers a new session in the requested room under a fresh random
    /// id, creating the room when it is not tracked yet, and returns the id.
    pub fn connect(&mut self, connect_message: ConnectMessage<S>) -> (r: usize)
        requires
            old(self).wf(),
        ensures
            final(self).wf(),
            connected(
                *old(self),
                *final(self),
                connect_message.room_name@,
                connect_message.websocket_session_actor_recipient,
                r,
            ),
    {
        let candidate = rand::random::<usize>();
        let ConnectMessage { room_name, websocket_session_actor_recipient } = connect_message;
        self.connect_with_id(room_name, websocket_session_actor_recipient, candidate)
    }

    /// Takes `id` out of every room; the rooms themselves stay.
    fn leave_all_rooms(&mut self, id: usize)
        requires
            forall|i: int| 0 <= i < old(self).rooms@.len() ==> (#[trigger] old(self).rooms@[i]).members@.no_duplicates(),
        ensures
            final(self).session_ids == old(self).session_ids,
            final(self).recipients == old(self).recipients,
            final(self).rooms@.len() == old(self).rooms@.len(),
            forall|i: int| 0 <= i < final(self).rooms@.len() ==> (#[trigger] final(self).rooms@[i]).name == old(self).rooms@[i].name,
            forall|i: int| 0 <= i < final(self).rooms@.len() ==> (#[trigger] final(self).rooms@[i]).members@.no_duplicates(),
            forall|i: int, x: usize| 0 <= i < final(self).rooms@.len() ==>
                (#[trigger] final(self).rooms@[i].members@.contains(x) <==> (old(self).rooms@[i].members@.contains(x) && x != id)),
            forall|n: Seq<char>| #[trigger] final(self).members(n) == old(self).members(n).remove(id),
            final(self).room_names() == old(self).room_names(),
    {
        let mut i: usize = 0;
        while i < self.rooms.len()
            invariant
                i <= self.rooms@.len(),
                self.session_ids == old(self).session_ids,
                self.recipients == old(self).recipients,
                self.rooms@.len() == old(self).rooms@.len(),
                forall|t: int| 0 <= t < self.rooms@.len() ==> (#[trigger] self.rooms@[t]).name == old(self).rooms@[t].name,
                forall|t: int| 0 <= t < self.rooms@.len() ==> (#[trigger] self.rooms@[t]).members@.no_duplicates(),
                forall|t: int| i <= t < self.rooms@.len() ==> (#[trigger] self.rooms@[t]).members == old(self).rooms@[t].members,
                forall|t: int, x: usize| 0 <= t < i ==>
                    (#[trigger] self.rooms@[t].members@.contains(x) <==> (old(self).rooms@[t].members@.contains(x) && x != id)),
            decreases self.rooms@.len() - i,
        {
            let ghost before = self.rooms@;
            let found = remove_member(&mut self.rooms[i].members, id);
            proof {
                assert forall|t: int| 0 <= t < self.rooms@.len() && t != i implies self.rooms@[t] == before[t] by {}
            }
            i += 1;
        }
        proof {
            let old_rooms = old(self).rooms@;
            assert forall|n: Seq<char>| #[trigger] self.members(n) == old(self).members(n).remove(id) by {
                assert(self.members(n) =~= old(self).members(n).remove(id)) by {
                    assert forall|x: usize| self.members(n).contains(x) implies old(self).members(n).remove(id).contains(x) by {
                        let i = choose|i: int| 0 <= i < self.rooms@.len() && #[trigger] self.rooms@[i].name@ == n
                            && self.rooms@[i].members@.contains(x);
                        assert(old_rooms[i].name@ == n);
                    }
                    assert forall|x: usize| old(self).members(n).remove(id).contains(x) implies self.members(n).contains(x) by {
                        let i = choose|i: int| 0 <= i < old_rooms.len() && #[trigger] old_rooms[i].name@ == n
                            && old_rooms[i].members@.contains(x);
                        assert(self.rooms@[i].name@ == n);
                        assert(self.rooms@[i].members@.contains(x));
                    }
                }
            }
            assert(self.room_names() =~= old(self).room_names()) by {
                assert forall|n: Seq<char>| #[trigger] self.room_names().contains(n) implies old(self).room_names().contains(n) by {
                    let i = choose|i: int| 0 <= i < self.rooms@.len() && #[trigger] self.rooms@[i].name@ == n;
                    assert(old_rooms[i].name@ == n);
                }
                assert forall|n: Seq<char>| old(self).room_names().contains(n) implies #[trigger] self.room_names().contains(n) by {
                    let i = choose|i: int| 0 <= i < old_rooms.len() && #[trigger] old_rooms[i].name@ == n;
                    assert(self.rooms@[i].name@ == n);
                }
            }
        }
    }

    /// Removes the session: its handle goes, and its id leaves every room.
    /// Rooms stay tracked even when they become empty. An id that is not live
    /// changes nothing.
    pub fn disconnect(&mut self, disconnect_message: DisconnectMessage)
        requires
            old(self).wf(),
        ensures
            final(self).wf(),
            disconnected(*old(self), *final(self), disconnect_message.websocket_session_id),
    {
        let id = disconnect_message.websocket_session_id;
        match self.find_session(id) {
            None => {
                proof {
                    assert(self.live() =~= old(self).live().remove(id));
                    assert(self.handles() =~= old(self).handles().remove(id));
                    assert forall|n: Seq<char>| #[trigger] self.members(n) == old(self).members(n).remove(id) by {
                        assert(self.members(n) =~= old(self).members(n).remove(id));
                    }
                }
            },
            Some(k) => {
                let ghost old_ids = self.session_ids@;
                let ghost old_rooms = self.rooms@;
                self.session_ids.remove(k);
                self.recipients.remove(k);
                proof {
                    assert(self.session_ids@ == old_ids.remove(k as int));
                    assert(self.session_ids@.no_duplicates()) by {
                        assert forall|a: int, b: int| 0 <= a < b < self.session_ids@.len() implies
                            self.session_ids@[a] != self.session_ids@[b] by {
                            let a2 = if a < k { a } else { a + 1 };
                            let b2 = if b < k { b } else { b + 1 };
                            assert(self.session_ids@[a] == old_ids[a2] && self.session_ids@[b] == old_ids[b2]);
                            assert(old_ids[a2] != old_ids[b2]);
                        }
                    }
                    assert forall|x: usize| #[trigger] self.session_ids@.contains(x) <==> (old_ids.contains(x) && x != id) by {
                        if self.session_ids@.contains(x) {
                            let t = choose|t: int| 0 <= t < self.session_ids@.len() && self.session_ids@[t] == x;
                            if t < k {
                                assert(old_ids[t] == x);
                                assert(old_ids[t] != old_ids[k as int]);
                            } else {
                                assert(old_ids[t + 1] == x);
                                assert(old_ids[t + 1] != old_ids[k as int]);
                            }
                        }
                        if old_ids.contains(x) && x != id {
                            let t = choose|t: int| 0 <= t < old_ids.len() && old_ids[t] == x;
                            if t < k {
                                assert(self.session_ids@[t] == x);
                            } else {
                                assert(self.session_ids@[t - 1] == x);
                            }
                        }
                    }
                    assert(self.live() =~= old(self).live().remove(id));
                    assert(self.handles() =~= old(self).handles().remove(id)) by {
                        assert forall|x: usize| #[trigger] self.handles().contains_key(x) implies
                            self.handles()[x] == old(self).handles()[x] by {
                            let t = choose|t: int| 0 <= t < self.session_ids@.len() && self.session_ids@[t] == x;
                            lemma_index_of_distinct(self.session_ids@, t);
                            if t < k {
                                lemma_index_of_distinct(old_ids, t);
                            } else {
                                assert(old_ids[t + 1] == x);
                                lemma_index_of_distinct(old_ids, t + 1);
                            }
                        }
                    }
                }
                self.leave_all_rooms(id);
                proof {
                    assert forall|i: int, x: usize| 0 <= i < self.rooms@.len() && #[trigger] self.rooms@[i].members@.contains(x)
                        implies self.session_ids@.contains(x) by {
                        assert(old_rooms[i].members@.contains(x));
                    }
                    assert forall|i: int, j: int, x: usize|
                        0 <= i < self.rooms@.len() && 0 <= j < self.rooms@.len()
                            && #[trigger] self.rooms@[i].members@.contains(x)
                            && #[trigger] self.rooms@[j].members@.contains(x) implies i == j by {
                        assert(old_rooms[i].members@.contains(x));
                        assert(old_rooms[j].members@.contains(x));
                    }
                    assert forall|x: usize| #[trigger] self.session_ids@.contains(x) implies exists|i: int|
                        0 <= i < self.rooms@.len() && #[trigger] self.rooms@[i].members@.contains(x) by {
                        assert(old_ids.contains(x));
                        let i = choose|i: int| 0 <= i < old_rooms.len() && #[trigger] old_rooms[i].members@.contains(x);
                        assert(self.rooms@[i].members@.contains(x));
                    }
                    assert forall|i: int, j: int| 0 <= i < j < self.rooms@.len() implies self.rooms@[i].name@ != self.rooms@[j].name@ by {
                        assert(old_rooms[i].name@ != old_rooms[j].name@);
                    }
                }
            },
        }
    }

    /// The position of the room that holds the live session `id`.
    fn find_room_of(&self, id: usize) -> (k: usize)
        requires
            self.wf(),
            self.live().contains(id),
        ensures
            k < self.rooms@.len(),
            self.rooms@[k as int].members@.contains(id),
    {
        proof {
            assert(self.session_ids@.contains(id));
        }
        let mut k: usize = 0;
        loop
            invariant
                self.wf(),
                self.session_ids@.contains(id),
                k <= self.rooms@.len(),
                forall|t: int| 0 <= t < k ==> !(#[trigger] self.rooms@[t]).members@.contains(id),
            decreases self.rooms@.len() - k,
        {
            if k == self.rooms.len() {
                proof {
                    let i = choose|i: int| 0 <= i < self.rooms@.len() && #[trigger] self.rooms@[i].members@.contains(id);
                    assert(!self.rooms@[i].members@.contains(id));
                }
                return 0;
            }
            let members = &self.rooms[k].members;
            let mut j: usize = 0;
            while j < members.len()
                invariant
                    k < self.rooms@.len(),
                    members == &self.rooms@[k as int].members,
                    j <= members@.len(),
                    forall|t: int| 0 <= t < j ==> members@[t] != id,
                decreases members@.len() - j,
            {
                if members[j] == id {
                    return k;
                }
                j += 1;
            }
            k += 1;
        }
    }

    /// Moves a live session into `room_name`, creating the room when it is
    /// not tracked: the session leaves every room it was in, and the rooms
    /// it left stay tracked. Returns the notices owed: the remaining members
    /// of the room it left hear `left_notice`, the other members of the room
    /// it entered hear `entered_notice`, each once. An id that is not live
    /// changes nothing and is owed nothing.
    pub fn join(&mut self, join_message: JoinMessage) -> (r: Vec<Delivery>)
        requires
            old(self).wf(),
        ensures
            final(self).wf(),
            !old(self).live().contains(join_message.session_id) ==> *final(self) == *old(self) && r@.len() == 0,
            old(self).live().contains(join_message.session_id) ==> {
                let id = join_message.session_id;
                let name = join_message.room_name@;
                &&& moved(*old(self), *final(self), id, name)
                &&& delivered(r@).no_duplicates()
                &&& forall|m: usize, t: Seq<char>| #[trigger] delivered(r@).contains((m, t)) <==> m != id && (
                    (t == left_notice() && exists|n: Seq<char>|
                        #[trigger] old(self).members(n).contains(id) && old(self).members(n).contains(m))
                    || (t == entered_notice() && final(self).members(name).contains(m)))
            },
    {
        let JoinMessage { session_id: id, room_name } = join_message;
        let mut r: Vec<Delivery> = Vec::new();
        if self.find_session(id).is_none() {
            return r;
        }
        let k = self.find_room_of(id);
        let ghost name = room_name@;
        let ghost s0 = *self;
        self.leave_all_rooms(id);
        let left = members_except(&self.rooms[k].members, Some(id));
        push_notices(&mut r, &left, "Someone disconnected");
        let ghost s1 = *self;
        let target = room_name.clone();
        self.enter_room(room_name, id);
        proof {
            assert forall|i: int, x: usize| 0 <= i < self.rooms@.len() && #[trigger] self.rooms@[i].members@.contains(x)
                implies self.session_ids@.contains(x) by {
                if x != id {
                    assert(s1.rooms@[i].members@.contains(x));
                    assert(s0.rooms@[i].members@.contains(x));
                }
            }
            assert forall|x: usize| #[trigger] self.session_ids@.contains(x) implies exists|i: int|
                0 <= i < self.rooms@.len() && #[trigger] self.rooms@[i].members@.contains(x) by {
                if x != id {
                    let i = choose|i: int| 0 <= i < s0.rooms@.len() && #[trigger] s0.rooms@[i].members@.contains(x);
                    assert(s1.rooms@[i].members@.contains(x));
                    assert(self.rooms@[i].members@.contains(x));
                } else {
                    let i = choose|i: int| 0 <= i < self.rooms@.len() && #[trigger] self.rooms@[i].name@ == name;
                    assert(self.rooms@[i].members@.contains(x));
                }
            }
            assert forall|i: int, j: int, x: usize|
                0 <= i < self.rooms@.len() && 0 <= j < self.rooms@.len()
                    && #[trigger] self.rooms@[i].members@.contains(x)
                    && #[trigger] self.rooms@[j].members@.contains(x) implies i == j by {
                if x != id {
                    assert(s0.rooms@[i].members@.contains(x));
                    assert(s0.rooms@[j].members@.contains(x));
                } else if i != j {
                    assert(self.rooms@[i].name@ == name);
                    assert(self.rooms@[j].name@ == name);
                }
            }
            assert(self.live() =~= old(self).live());
            assert(self.handles() =~= old(self).handles());
            assert(self.members(name) =~= old(self).members(name).insert(id));
            assert forall|n: Seq<char>| n != name implies #[trigger] self.members(n) == old(self).members(n).remove(id) by {
                assert(s1.members(n) == s0.members(n).remove(id));
            }
            assert(self.room_names() =~= old(self).room_names().insert(name));
        }
        let entered = self.recipients_in(&target, Some(id));
        let ghost r1 = r@;
        push_notices(&mut r, &entered, "Someone connected");
        proof {
            reveal_strlit("Someone connected");
            reveal_strlit("Someone disconnected");
            let a = left@.map_values(|m: usize| (m, "Someone disconnected"@));
            let b = entered@.map_values(|m: usize| (m, "Someone connected"@));
            assert(delivered(r1) =~= a);
            assert(delivered(r@) == a + b);
            assert(a.no_duplicates()) by {
                assert forall|i: int, j: int| 0 <= i < j < a.len() implies a[i] != a[j] by {
                    assert(left@[i] != left@[j]);
                }
            }
            assert(b.no_duplicates()) by {
                assert forall|i: int, j: int| 0 <= i < j < b.len() implies b[i] != b[j] by {
                    assert(entered@[i] != entered@[j]);
                }
            }
            assert forall|i: int, j: int| 0 <= i < a.len() && 0 <= j < b.len() implies a[i] != b[j] by {
                assert(a[i].1.len() != b[j].1.len());
            }
            vstd::seq_lib::lemma_no_dup_in_concat(a, b);
            assert forall|m: usize, t: Seq<char>| #[trigger] delivered(r@).contains((m, t)) <==> m != id && (
                (t == left_notice() && exists|n: Seq<char>|
                    #[trigger] old(self).members(n).contains(id) && old(self).members(n).contains(m))
                || (t == entered_notice() && self.members(name).contains(m))) by {
                let kn = s0.rooms@[k as int].name@;
                if delivered(r@).contains((m, t)) {
                    let q = choose|q: int| 0 <= q < (a + b).len() && (a + b)[q] == (m, t);
                    if q < a.len() {
                        assert(a[q] == (m, t));
                        assert(left@.contains(m));
                        assert(s0.rooms@[k as int].members@.contains(m));
                        assert(s0.members(kn).contains(id));
                        assert(s0.members(kn).contains(m));
                    } else {
                        assert(b[q - a.len()] == (m, t));
                        assert(entered@.contains(m));
                    }
                }
                if m != id && t == left_notice() && exists|n: Seq<char>|
                    #[trigger] old(self).members(n).contains(id) && old(self).members(n).contains(m) {
                    let n = choose|n: Seq<char>| #[trigger] old(self).members(n).contains(id) && old(self).members(n).contains(m);
                    let i = choose|i: int| 0 <= i < s0.rooms@.len() && #[trigger] s0.rooms@[i].name@ == n
                        && s0.rooms@[i].members@.contains(id);
                    let i2 = choose|i2: int| 0 <= i2 < s0.rooms@.len() && #[trigger] s0.rooms@[i2].name@ == n
                        && s0.rooms@[i2].members@.contains(m);
                    assert(i == k);
                    if i2 != i {
                        if i < i2 {
                            assert(s0.rooms@[i].name@ != s0.rooms@[i2].name@);
                        } else {
                            assert(s0.rooms@[i2].name@ != s0.rooms@[i].name@);
                        }
                    }
                    assert(s1.rooms@[k as int].members@.contains(m));
                    assert(left@.contains(m));
                    let q = choose|q: int| 0 <= q < left@.len() && left@[q] == m;
                    assert(a[q] == (m, t));
                    assert((a + b)[q] == (m, t));
                }
                if m != id && t == entered_notice() && self.members(name).contains(m) {
                    assert(entered@.contains(m));
                    let q = choose|q: int| 0 <= q < entered@.len() && entered@[q] == m;
                    assert(b[q] == (m, t));
                    assert((a + b)[q + a.len()] == (m, t));
                }
            }
        }
        r
    }

    /// Hands `payload` to every member of `room_name` but `skip`, once each.
    /// A room that is absent or empty gets nothing.
    pub fn send_message(&self, room_name: &String, payload: &str, skip: Option<usize>) -> (r: Vec<Delivery>)
        requires
            self.wf(),
        ensures
            fan_out(*self, room_name@, payload@, skip, r@),
    {
        let ids = self.recipients_in(room_name, skip);
        let mut r: Vec<Delivery> = Vec::new();
        push_notices(&mut r, &ids, payload);
        proof {
            let d = ids@.map_values(|m: usize| (m, payload@));
            assert(delivered(r@) =~= d);
            assert forall|i: int, j: int| 0 <= i < j < d.len() implies d[i] != d[j] by {
                assert(ids@[i] != ids@[j]);
            }
            assert forall|m: usize, t: Seq<char>| #[trigger] delivered(r@).contains((m, t)) <==>
                (t == payload@ && self.members(room_name@).contains(m) && skip != Some(m)) by {
                if d.contains((m, t)) {
                    let q = choose|q: int| 0 <= q < d.len() && d[q] == (m, t);
                    assert(ids@[q] == m);
                    assert(ids@.contains(m));
                    assert(t == payload@);
                }
                if t == payload@ && self.members(room_name@).contains(m) && skip != Some(m) {
                    assert(ids@.contains(m));
                    let q = choose|q: int| 0 <= q < ids@.len() && ids@[q] == m;
                    assert(d[q] == (m, t));
                }
            }
        }
        r
    }

    /// Relays a session's payload to every other current member of the
    /// named room, and never back to the sender.
    pub fn relay(&self, client_message: &ClientMessage) -> (r: Vec<Delivery>)
        requires
            self.wf(),
        ensures
            fan_out(*self, client_message.room_name@, client_message.message@, Some(client_message.session_id), r@),
    {
        self.send_message(&client_message.room_name, client_message.message.as_str(), Some(client_message.session_id))
    }

    /// Hands the serialised shared state `payload` of a room to all of its
    /// members, with no sender left out.
    pub fn broadcast(&self, broadcast_message: &BroadcastAppStateMessage, payload: &str) -> (r: Vec<Delivery>)
        requires
            self.wf(),
        ensures
            fan_out(*self, broadcast_message.user_id@, payload@, None, r@),
    {
        self.send_message(&broadcast_message.user_id, payload, None)
    }

    /// The names of all tracked rooms, empty ones included, each once.
    pub fn list_rooms(&self, _list_rooms_message: ListRoomsMessage) -> (r: Vec<String>)
        requires
            self.wf(),
        ensures
            r@.map_values(|n: String| n@).no_duplicates(),
            r@.map_values(|n: String| n@).to_set() == self.room_names(),
    {
        let mut r: Vec<String> = Vec::new();
        let mut i: usize = 0;
        while i < self.rooms.len()
            invariant
                self.wf(),
                i <= self.rooms@.len(),
                r@.len() == i,
                forall|t: int| 0 <= t < i ==> (#[trigger] r@[t])@ == self.rooms@[t].name@,
            decreases self.rooms@.len() - i,
        {
            r.push(self.rooms[i].name.clone());
            i += 1;
        }
        proof {
            let names = r@.map_values(|n: String| n@);
            assert forall|a: int, b: int| 0 <= a < b < names.len() implies names[a] != names[b] by {
                assert(names[a] == self.rooms@[a].name@);
                assert(names[b] == self.rooms@[b].name@);
            }
            assert(names.to_set() =~= self.room_names()) by {
                assert forall|n: Seq<char>| #[trigger] names.to_set().contains(n) implies self.room_names().contains(n) by {
                    let q = choose|q: int| 0 <= q < names.len() && names[q] == n;
                    assert(self.rooms@[q].name@ == n);
                }
                assert forall|n: Seq<char>| self.room_names().contains(n) implies #[trigger] names.to_set().contains(n) by {
                    let q = choose|q: int| 0 <= q < self.rooms@.len() && #[trigger] self.rooms@[q].name@ == n;
                    assert(names[q] == n);
                    assert(names.contains(n));
                }
            }
        }
        r
    }

    /// The sink of the live session `id`, if there is one.
    pub fn recipient(&self, id: usize) -> (r: Option<&S>)
        requires
            self.wf(),
        ensures
            r is Some <==> self.handles().contains_key(id),
            r matches Some(h) ==> *h == self.handles()[id],
    {
        match self.find_session(id) {
            None => None,
            Some(k) => {
                proof {
                    lemma_index_of_distinct(self.session_ids@, k as int);
                }
                Some(&self.recipients[k])
            },
        }
    }

    /// In a well-formed coordinator every member of a room is a live session
    /// with a handle, and every live session is a member of exactly one room.
    pub proof fn lemma_membership_consistent(&self, n: Seq<char>, m: Seq<char>, id: usize)
        requires
            self.wf(),
        ensures
            self.members(n).subset_of(self.live()),
            self.live() == self.handles().dom(),
            self.live().contains(id) ==> exists|k: Seq<char>| #[trigger] self.members(k).contains(id),
            self.members(n).contains(id) && self.members(m).contains(id) ==> n == m,
    {
        assert(self.live() =~= self.handles().dom());
        assert forall|x: usize| self.members(n).contains(x) implies self.live().contains(x) by {
            let i = choose|i: int| 0 <= i < self.rooms@.len() && #[trigger] self.rooms@[i].name@ == n
                && self.rooms@[i].members@.contains(x);
        }
        if self.live().contains(id) {
            let i = choose|i: int| 0 <= i < self.rooms@.len() && #[trigger] self.rooms@[i].members@.contains(id);
            let k = self.rooms@[i].name@;
            assert(self.members(k).contains(id));
        }
        if self.members(n).contains(id) && self.members(m).contains(id) {
            let i = choose|i: int| 0 <= i < self.rooms@.len() && #[trigger] self.rooms@[i].name@ == n
                && self.rooms@[i].members@.contains(id);
            let j = choose|j: int| 0 <= j < self.rooms@.len() && #[trigger] self.rooms@[j].name@ == m
                && self.rooms@[j].members@.contains(id);
            assert(i == j);
        }
    }

    /// A coordinator with no sessions and no rooms.
    pub fn new() -> (r: Self)
        ensures
            r.wf(),
            r.live() == Set::<usize>::empty(),
            r.room_names() == Set::<Seq<char>>::empty(),
    {
        let r = WebsocketServerActor { session_ids: Vec::new(), recipients: Vec::new(), rooms: Vec::new() };
        assert(r.live() =~= Set::<usize>::empty());
        assert(r.room_names() =~= Set::<Seq<char>>::empty());
        r
    }
}

} // verus!
