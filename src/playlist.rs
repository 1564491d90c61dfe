use vstd::prelude::*;

verus! {

/// A viewer's request for a song.
#[derive(Debug, Clone, PartialEq, Eq)]
pub struct SongRequest {
    pub viewer_id: String,
    pub viewer_username: String,
    pub song_id: String,
}

/// A song request as plain values: viewer id, viewer name, song id.
pub type RequestView = (Seq<char>, Seq<char>, Seq<char>);

impl View for SongRequest {
    type V = RequestView;

    open spec fn view(&self) -> RequestView {
        (self.viewer_id@, self.viewer_username@, self.song_id@)
    }
}

/// Whether requests are open, and the pending ones in order.
#[derive(Debug, Clone, PartialEq, Eq)]
pub struct Playlist {
    pub song_requests_enabled: bool,
    pub song_requests: Vec<SongRequest>,
}

/// A playlist as plain values.
pub struct PlaylistView {
    pub song_requests_enabled: bool,
    pub song_requests: Seq<RequestView>,
}

impl View for Playlist {
    type V = PlaylistView;

    open spec fn view(&self) -> PlaylistView {
        PlaylistView {
            song_requests_enabled: self.song_requests_enabled,
            song_requests: self.song_requests@.map_values(|q: SongRequest| q@),
        }
    }
}

/// The playlist of a room that has no record yet: closed, with no request.
pub open spec fn default_playlist() -> PlaylistView {
    PlaylistView { song_requests_enabled: false, song_requests: Seq::empty() }
}

fn copy_request(q: &SongRequest) -> (r: SongRequest)
    ensures
        r@ == q@,
{
    SongRequest {
        viewer_id: q.viewer_id.clone(),
        viewer_username: q.viewer_username.clone(),
        song_id: q.song_id.clone(),
    }
}

fn same_request(a: &SongRequest, b: &SongRequest) -> (r: bool)
    ensures
        r == (a@ == b@),
{
    a.viewer_id == b.viewer_id && a.viewer_username == b.viewer_username && a.song_id == b.song_id
}

/// Whether an entry of `reqs` equals `q`.
fn holds_request(reqs: &Vec<SongRequest>, q: &SongRequest) -> (r: bool)
    ensures
        r == reqs@.map_values(|x: SongRequest| x@).contains(q@),
{
    let mut i: usize = 0;
    while i < reqs.len()
        invariant
            i <= reqs@.len(),
            forall|j: int| 0 <= j < i ==> reqs@[j]@ != q@,
        decreases reqs@.len() - i,
    {
        if same_request(&reqs[i], q) {
            assert(reqs@.map_values(|x: SongRequest| x@)[i as int] == q@);
            return true;
        }
        i += 1;
    }
    proof {
        let v = reqs@.map_values(|x: SongRequest| x@);
        if v.contains(q@) {
            let j = choose|j: int| 0 <= j < v.len() && v[j] == q@;
            assert(reqs@[j]@ == q@);
        }
    }
    false
}

/// The position of the first entry of `reqs` for song `song_id`.
fn position_of_song(reqs: &Vec<SongRequest>, song_id: &String) -> (r: Option<usize>)
    ensures
        r matches Some(p) ==> p < reqs@.len() && reqs@[p as int].song_id@ == song_id@ && forall|q: int|
            0 <= q < p ==> reqs@[q].song_id@ != song_id@,
        r is None ==> forall|q: int| 0 <= q < reqs@.len() ==> reqs@[q].song_id@ != song_id@,
{
    let mut i: usize = 0;
    while i < reqs.len()
        invariant
            i <= reqs@.len(),
            forall|q: int| 0 <= q < i ==> reqs@[q].song_id@ != song_id@,
        decreases reqs@.len() - i,
    {
        if reqs[i].song_id == *song_id {
            return Some(i);
        }
        i += 1;
    }
    None
}

/// The position of the first request in `reqs` for song `song`, if any.
pub open spec fn first_for_song(reqs: Seq<RequestView>, song: Seq<char>, p: int) -> bool {
    0 <= p < reqs.len() && reqs[p].2 == song && forall|q: int| 0 <= q < p ==> reqs[q].2 != song
}

impl Playlist {
    /// A closed playlist with no request.
    pub fn empty() -> (r: Self)
        ensures
            r@ == default_playlist(),
    {
        let r = Playlist { song_requests_enabled: false, song_requests: Vec::new() };
        assert(r@.song_requests =~= Seq::<RequestView>::empty());
        r
    }

    /// A copy with the same contents.
    pub fn copy(&self) -> (r: Self)
        ensures
            r@ == self@,
    {
        let mut requests: Vec<SongRequest> = Vec::new();
        let mut i: usize = 0;
        while i < self.song_requests.len()
            invariant
                i <= self.song_requests@.len(),
                requests@.len() == i,
                forall|k: int| 0 <= k < i ==> (#[trigger] requests@[k])@ == self.song_requests@[k]@,
            decreases self.song_requests@.len() - i,
        {
            requests.push(copy_request(&self.song_requests[i]));
            i += 1;
        }
        let r = Playlist { song_requests_enabled: self.song_requests_enabled, song_requests: requests };
        assert(r@.song_requests =~= self@.song_requests);
        r
    }
}

/// A playlist after a request endpoint ran, and whether it changed (which
/// calls for a broadcast to its room).
#[derive(Debug, Clone, PartialEq, Eq)]
pub struct PlaylistChange {
    pub playlist: Playlist,
    pub changed: bool,
}

/// The shared state that the request endpoints own: a playlist per room key
/// (a user id), each key at most once.
pub struct AppState {
    song_requests_by_user_id: Vec<(String, Playlist)>,
}

impl AppState {
    /// The playlist recorded for each key.
    pub closed spec fn playlists(&self) -> Map<Seq<char>, PlaylistView> {
        Map::new(
            |k: Seq<char>| exists|i: int| 0 <= i < self.song_requests_by_user_id@.len() && #[trigger] self.song_requests_by_user_id@[i].0@ == k,
            |k: Seq<char>| self.song_requests_by_user_id@[choose|i: int| 0 <= i < self.song_requests_by_user_id@.len() && #[trigger] self.song_requests_by_user_id@[i].0@ == k].1@,
        )
    }

    /// Keys are unique.
    pub closed spec fn wf(&self) -> bool {
        forall|i: int, j: int|
            0 <= i < j < self.song_requests_by_user_id@.len() ==> self.song_requests_by_user_id@[i].0@
                != self.song_requests_by_user_id@[j].0@
    }

    /// The playlist of `k`, or the default one when none is recorded.
    pub open spec fn recorded(&self, k: Seq<char>) -> PlaylistView {
        if self.playlists().contains_key(k) {
            self.playlists()[k]
        } else {
            default_playlist()
        }
    }

    /// No playlist recorded.
    pub fn new() -> (r: Self)
        ensures
            r.wf(),
            r.playlists() == Map::<Seq<char>, PlaylistView>::empty(),
    {
        let r = AppState { song_requests_by_user_id: Vec::new() };
        assert(r.playlists() =~= Map::<Seq<char>, PlaylistView>::empty());
        r
    }

    fn find(&self, user_id: &String) -> (r: Option<usize>)
        requires
            self.wf(),
        ensures
            r is None <==> !self.playlists().contains_key(user_id@),
            r matches Some(k) ==> k < self.song_requests_by_user_id@.len()
                && self.song_requests_by_user_id@[k as int].0@ == user_id@
                && self.playlists()[user_id@] == self.song_requests_by_user_id@[k as int].1@,
    {
        let mut k: usize = 0;
        while k < self.song_requests_by_user_id.len()
            invariant
                self.wf(),
                k <= self.song_requests_by_user_id@.len(),
                forall|j: int| 0 <= j < k ==> self.song_requests_by_user_id@[j].0@ != user_id@,
            decreases self.song_requests_by_user_id@.len() - k,
        {
            if self.song_requests_by_user_id[k].0 == *user_id {
                proof {
                    let c = choose|i: int| 0 <= i < self.song_requests_by_user_id@.len()
                        && #[trigger] self.song_requests_by_user_id@[i].0@ == user_id@;
                    if c != k as int {
                        if c < k {
                        } else {
                            assert(self.song_requests_by_user_id@[k as int].0@ != self.song_requests_by_user_id@[c].0@);
                        }
                    }
                }
                return Some(k);
            }
            k += 1;
        }
        None
    }

    /// Puts `p` in place of the playlist at position `k` and hands back the
    /// one that was there.
    fn replace_at(&mut self, k: usize, p: Playlist) -> (prev: Playlist)
        requires
            old(self).wf(),
            k < old(self).song_requests_by_user_id@.len(),
        ensures
            final(self).wf(),
            final(self).song_requests_by_user_id@.len() == old(self).song_requests_by_user_id@.len(),
            final(self).song_requests_by_user_id@[k as int].0 == old(self).song_requests_by_user_id@[k as int].0,
            prev@ == old(self).song_requests_by_user_id@[k as int].1@,
            final(self).playlists() == old(self).playlists().insert(old(self).song_requests_by_user_id@[k as int].0@, p@),
    {
        let ghost rows = self.song_requests_by_user_id@;
        let ghost key = rows[k as int].0@;
        let mut prev = p;
        let ghost pv = prev@;
        std::mem::swap(&mut self.song_requests_by_user_id[k].1, &mut prev);
        proof {
            let now = self.song_requests_by_user_id@;
            assert forall|i: int| 0 <= i < now.len() && i != k implies now[i] == rows[i] by {}
            assert(now[k as int].0 == rows[k as int].0);
            assert(self.playlists() =~= old(self).playlists().insert(key, pv)) by {
                assert forall|x: Seq<char>| #[trigger] self.playlists().contains_key(x) <==> old(self).playlists().insert(key, pv).contains_key(x) by {
                    if self.playlists().contains_key(x) {
                        let i = choose|i: int| 0 <= i < now.len() && #[trigger] now[i].0@ == x;
                        assert(rows[i].0@ == x);
                    }
                    if old(self).playlists().contains_key(x) {
                        let i = choose|i: int| 0 <= i < rows.len() && #[trigger] rows[i].0@ == x;
                        assert(now[i].0@ == x);
                    }
                    assert(now[k as int].0@ == key);
                }
                assert forall|x: Seq<char>| #[trigger] self.playlists().contains_key(x) implies self.playlists()[x]
                    == old(self).playlists().insert(key, pv)[x] by {
                    let i = choose|i: int| 0 <= i < now.len() && #[trigger] now[i].0@ == x;
                    let j = choose|j: int| 0 <= j < rows.len() && #[trigger] rows[j].0@ == x;
                    assert(rows[i].0@ == x);
                    if i != j {
                        if i < j {
                            assert(rows[i].0@ != rows[j].0@);
                        } else {
                            assert(rows[j].0@ != rows[i].0@);
                        }
                    }
                }
            }
        }
        prev
    }

    /// The position of the record of `user_id`, created with the default
    /// playlist when there is none.
    fn entry(&mut self, user_id: String) -> (k: usize)
        requires
            old(self).wf(),
        ensures
            final(self).wf(),
            k < final(self).song_requests_by_user_id@.len(),
            final(self).song_requests_by_user_id@[k as int].0@ == user_id@,
            final(self).song_requests_by_user_id@[k as int].1@ == old(self).recorded(user_id@),
            final(self).playlists() == old(self).playlists().insert(user_id@, old(self).recorded(user_id@)),
    {
        match self.find(&user_id) {
            Some(k) => {
                assert(self.playlists() =~= old(self).playlists().insert(user_id@, old(self).recorded(user_id@)));
                k
            },
            None => {
                let ghost rows = self.song_requests_by_user_id@;
                let ghost key = user_id@;
                self.song_requests_by_user_id.push((user_id, Playlist::empty()));
                let k = self.song_requests_by_user_id.len() - 1;
                proof {
                    let now = self.song_requests_by_user_id@;
                    assert(now[k as int].0@ == key);
                    assert forall|i: int| 0 <= i < rows.len() implies now[i] == rows[i] by {}
                    assert forall|i: int| 0 <= i < rows.len() implies rows[i].0@ != key by {
                        if rows[i].0@ == key {
                            assert(old(self).playlists().contains_key(key));
                        }
                    }
                    assert(self.playlists() =~= old(self).playlists().insert(key, default_playlist())) by {
                        assert forall|x: Seq<char>| #[trigger] self.playlists().contains_key(x) <==> old(self).playlists().insert(key, default_playlist()).contains_key(x) by {
                            if self.playlists().contains_key(x) && x != key {
                                let i = choose|i: int| 0 <= i < now.len() && #[trigger] now[i].0@ == x;
                                assert(rows[i].0@ == x);
                            }
                            if old(self).playlists().contains_key(x) {
                                let i = choose|i: int| 0 <= i < rows.len() && #[trigger] rows[i].0@ == x;
                                assert(now[i].0@ == x);
                            }
                        }
                        assert forall|x: Seq<char>| #[trigger] self.playlists().contains_key(x) implies self.playlists()[x]
                            == old(self).playlists().insert(key, default_playlist())[x] by {
                            let i = choose|i: int| 0 <= i < now.len() && #[trigger] now[i].0@ == x;
                            if x == key {
                                assert(i == k);
                            } else {
                                let j = choose|j: int| 0 <= j < rows.len() && #[trigger] rows[j].0@ == x;
                                assert(rows[i].0@ == x);
                                if i != j {
                                    if i < j {
                                        assert(rows[i].0@ != rows[j].0@);
                                    } else {
                                        assert(rows[j].0@ != rows[i].0@);
                                    }
                                }
                            }
                        }
                    }
                }
                k
            },
        }
    }

    /// Opens or closes requests for `user_id`, recording the default
    /// playlist first when there is none. The result is the new playlist; it
    /// always counts as changed.
    pub fn update_playlist(&mut self, user_id: String, song_requests_enabled: bool) -> (r: PlaylistChange)
        requires
            old(self).wf(),
        ensures
            final(self).wf(),
            final(self).playlists() == old(self).playlists().insert(
                user_id@,
                PlaylistView { song_requests_enabled, song_requests: old(self).recorded(user_id@).song_requests },
            ),
            r.playlist@ == final(self).playlists()[user_id@],
            r.changed,
    {
        let ghost key = user_id@;
        let k = self.entry(user_id);
        let mut cur = self.replace_at(k, Playlist::empty());
        cur.song_requests_enabled = song_requests_enabled;
        let snapshot = cur.copy();
        self.replace_at(k, cur);
        proof {
            assert(self.playlists() =~= old(self).playlists().insert(
                key,
                PlaylistView { song_requests_enabled, song_requests: old(self).recorded(key).song_requests },
            ));
        }
        PlaylistChange { playlist: snapshot, changed: true }
    }

    /// Adds `song_request` at the end of the requests of `user_id`, recording
    /// the default playlist first when there is none, unless an equal request
    /// is already pending; then nothing changes.
    pub fn create_song_request(&mut self, user_id: String, song_request: SongRequest) -> (r: PlaylistChange)
        requires
            old(self).wf(),
        ensures
            final(self).wf(),
            r.changed == !old(self).recorded(user_id@).song_requests.contains(song_request@),
            r.changed ==> final(self).playlists() == old(self).playlists().insert(
                user_id@,
                PlaylistView {
                    song_requests_enabled: old(self).recorded(user_id@).song_requests_enabled,
                    song_requests: old(self).recorded(user_id@).song_requests.push(song_request@),
                },
            ),
            !r.changed ==> final(self).playlists() == old(self).playlists(),
            r.playlist@ == final(self).recorded(user_id@),
    {
        let ghost key = user_id@;
        let found = match self.find(&user_id) {
            None => false,
            Some(k) => holds_request(&self.song_requests_by_user_id[k].1.song_requests, &song_request),
        };
        if found {
            let k = self.find(&user_id).unwrap();
            let playlist = self.song_requests_by_user_id[k].1.copy();
            return PlaylistChange { playlist, changed: false };
        }
        let k = self.entry(user_id);
        let mut cur = self.replace_at(k, Playlist::empty());
        let ghost before = cur@;
        cur.song_requests.push(song_request);
        let snapshot = cur.copy();
        self.replace_at(k, cur);
        proof {
            assert(snapshot@.song_requests =~= before.song_requests.push(song_request@));
            assert(self.playlists() =~= old(self).playlists().insert(
                key,
                PlaylistView {
                    song_requests_enabled: old(self).recorded(key).song_requests_enabled,
                    song_requests: old(self).recorded(key).song_requests.push(song_request@),
                },
            ));
        }
        PlaylistChange { playlist: snapshot, changed: true }
    }

    /// Removes the request at position `index` (0 when none is given) from
    /// the playlist of `user_id`; a position past the end changes nothing.
    /// No playlist recorded for `user_id` gives `None`.
    pub fn delete_song_request_at(&mut self, user_id: &String, index: Option<usize>) -> (r: Option<PlaylistChange>)
        requires
            old(self).wf(),
        ensures
            final(self).wf(),
            r is None <==> !old(self).playlists().contains_key(user_id@),
            r is None ==> final(self).playlists() == old(self).playlists(),
            r matches Some(c) ==> {
                let p = old(self).playlists()[user_id@];
                let i = match index { Some(i) => i as int, None => 0 };
                &&& c.changed == (i < p.song_requests.len())
                &&& c.changed ==> final(self).playlists() == old(self).playlists().insert(
                    user_id@,
                    PlaylistView { song_requests_enabled: p.song_requests_enabled, song_requests: p.song_requests.remove(i) },
                )
                &&& !c.changed ==> final(self).playlists() == old(self).playlists()
                &&& c.playlist@ == final(self).playlists()[user_id@]
            },
    {
        let position = match index {
            Some(i) => i,
            None => 0,
        };
        match self.find(user_id) {
            None => None,
            Some(k) => {
                if position >= self.song_requests_by_user_id[k].1.song_requests.len() {
                    let playlist = self.song_requests_by_user_id[k].1.copy();
                    return Some(PlaylistChange { playlist, changed: false });
                }
                let mut cur = self.replace_at(k, Playlist::empty());
                let ghost before = cur@;
                let ghost reqs = cur.song_requests@;
                cur.song_requests.remove(position);
                let snapshot = cur.copy();
                self.replace_at(k, cur);
                proof {
                    assert(snapshot@.song_requests =~= before.song_requests.remove(position as int)) by {
                        assert(snapshot@.song_requests =~= reqs.remove(position as int).map_values(|q: SongRequest| q@));
                    }
                    assert(self.playlists() =~= old(self).playlists().insert(
                        user_id@,
                        PlaylistView {
                            song_requests_enabled: before.song_requests_enabled,
                            song_requests: before.song_requests.remove(position as int),
                        },
                    ));
                }
                Some(PlaylistChange { playlist: snapshot, changed: true })
            },
        }
    }

    /// Removes the first request for song `song_id` from the playlist of
    /// `user_id`; when there is none, nothing changes. No playlist recorded
    /// for `user_id` gives `None`.
    pub fn delete_song_request_by_song_id(&mut self, user_id: &String, song_id: &String) -> (r: Option<PlaylistChange>)
        requires
            old(self).wf(),
        ensures
            final(self).wf(),
            r is None <==> !old(self).playlists().contains_key(user_id@),
            r is None ==> final(self).playlists() == old(self).playlists(),
            r matches Some(c) ==> {
                let p = old(self).playlists()[user_id@];
                &&& c.changed == exists|i: int| 0 <= i < p.song_requests.len() && #[trigger] p.song_requests[i].2 == song_id@
                &&& c.changed ==> exists|i: int| #[trigger] first_for_song(p.song_requests, song_id@, i)
                    && final(self).playlists() == old(self).playlists().insert(
                    user_id@,
                    PlaylistView { song_requests_enabled: p.song_requests_enabled, song_requests: p.song_requests.remove(i) },
                )
                &&& !c.changed ==> final(self).playlists() == old(self).playlists()
                &&& c.playlist@ == final(self).playlists()[user_id@]
            },
    {
        match self.find(user_id) {
            None => None,
            Some(k) => {
                let ghost p = self.song_requests_by_user_id@[k as int].1@;
                match position_of_song(&self.song_requests_by_user_id[k].1.song_requests, song_id) {
                    None => {
                        let playlist = self.song_requests_by_user_id[k].1.copy();
                        proof {
                            assert forall|i: int| 0 <= i < p.song_requests.len() implies #[trigger] p.song_requests[i].2 != song_id@ by {
                                assert(p.song_requests[i] == self.song_requests_by_user_id@[k as int].1.song_requests@[i]@);
                            }
                        }
                        Some(PlaylistChange { playlist, changed: false })
                    },
                    Some(position) => {
                        let mut cur = self.replace_at(k, Playlist::empty());
                        let ghost before = cur@;
                        let ghost reqs = cur.song_requests@;
                        cur.song_requests.remove(position);
                        let snapshot = cur.copy();
                        self.replace_at(k, cur);
                        proof {
                            assert(snapshot@.song_requests =~= before.song_requests.remove(position as int)) by {
                                assert(snapshot@.song_requests =~= reqs.remove(position as int).map_values(|q: SongRequest| q@));
                            }
                            assert(p.song_requests[position as int].2 == song_id@);
                            assert forall|q: int| 0 <= q < position implies p.song_requests[q].2 != song_id@ by {
                                assert(p.song_requests[q] == reqs[q]@);
                            }
                            assert(first_for_song(p.song_requests, song_id@, position as int));
                            assert(self.playlists() =~= old(self).playlists().insert(
                                user_id@,
                                PlaylistView {
                                    song_requests_enabled: p.song_requests_enabled,
                                    song_requests: p.song_requests.remove(position as int),
                                },
                            ));
                        }
                        Some(PlaylistChange { playlist: snapshot, changed: true })
                    },
                }
            },
        }
    }

    /// The current playlist of `user_id`, or the default one (closed, with no
    /// request) when none is recorded.
    pub fn playlist_snapshot(&self, user_id: &String) -> (r: Playlist)
        requires
            self.wf(),
        ensures
            self.playlists().contains_key(user_id@) ==> r@ == self.playlists()[user_id@],
            !self.playlists().contains_key(user_id@) ==> r@ == default_playlist(),
    {
        match self.find(user_id) {
            Some(k) => self.song_requests_by_user_id[k].1.copy(),
            None => Playlist::empty(),
        }
    }
}

} // verus!
