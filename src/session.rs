use vstd::prelude::*;
use vstd::string::*;

verus! {

/// How long a session may go without a liveness probe from its peer before
/// it disconnects itself, in milliseconds.
pub const CLIENT_TIMEOUT_MS: u64 = 10000;

/// How often the liveness timer fires, in milliseconds.
pub const HEARTBEAT_INTERVAL_MS: u64 = 5000;

/// Where a session stands in its lifetime.
#[derive(PartialEq, Eq, Structural, Clone, Copy, Debug)]
pub enum SessionState {
    /// Constructed, waiting for the coordinator to hand out an id.
    Connecting,
    /// Registered and serving frames.
    Active,
    /// Shutting down; the transport is being closed.
    Closing,
    /// Gone; nothing more happens.
    Closed,
}

/// An inbound transport frame.
#[derive(Debug, Clone, PartialEq, Eq)]
pub enum Frame {
    Ping(Vec<u8>),
    Pong,
    Text(String),
    Binary,
    Close,
    Continuation,
    Nop,
    /// The transport reported a protocol violation.
    ProtocolError,
}

/// What a session asks its surroundings to do.
#[derive(Debug, Clone, PartialEq, Eq)]
pub enum SessionAction {
    /// Answer a ping with this payload.
    Pong(Vec<u8>),
    /// Probe the peer.
    Ping,
    /// Write a text frame to the peer.
    Text(String),
    /// Ask the coordinator for the room names and hand them back.
    ListRooms,
    /// Ask the coordinator to move this session into the named room.
    Join(String),
    /// Ask the coordinator to relay a payload to a room: room name, payload.
    Relay(String, String),
    /// Tell the coordinator that this session id is gone.
    Disconnect(usize),
    /// Start the transport's close handshake.
    Close,
    /// Stop the session.
    Stop,
}

/// A `SessionAction` as plain values.
pub enum Step {
    Pong(Seq<u8>),
    Ping,
    Text(Seq<char>),
    ListRooms,
    Join(Seq<char>),
    Relay(Seq<char>, Seq<char>),
    Disconnect(usize),
    Close,
    Stop,
}

impl View for SessionAction {
    type V = Step;

    open spec fn view(&self) -> Step {
        match self {
            SessionAction::Pong(p) => Step::Pong(p@),
            SessionAction::Ping => Step::Ping,
            SessionAction::Text(t) => Step::Text(t@),
            SessionAction::ListRooms => Step::ListRooms,
            SessionAction::Join(n) => Step::Join(n@),
            SessionAction::Relay(n, m) => Step::Relay(n@, m@),
            SessionAction::Disconnect(id) => Step::Disconnect(*id),
            SessionAction::Close => Step::Close,
            SessionAction::Stop => Step::Stop,
        }
    }
}

/// A list of actions as plain values.
pub open spec fn steps(r: Seq<SessionAction>) -> Seq<Step> {
    r.map_values(|a: SessionAction| a@)
}

/// A payload that the coordinator hands to a session for its peer.
#[derive(Debug, Clone, PartialEq, Eq)]
pub struct WebsocketReplyMessage {
    pub message: String,
}

/// The text a string slice has once leading and trailing whitespace is removed.
pub uninterp spec fn trimmed(s: Seq<char>) -> Seq<char>;

/// The text of a string slice as `Debug` writes it: quoted and escaped.
pub uninterp spec fn debug_quoted(s: Seq<char>) -> Seq<char>;

/// Relies on `str::trim`: leading and trailing whitespace removed, which
/// depends on the characters alone.
#[verifier::external_body]
fn trim_text(s: &str) -> (r: &str)
    ensures
        r@ == trimmed(s@),
{
    s.trim()
}

/// Relies on `<str as Debug>::fmt`: the text quoted and escaped, which
/// depends on the characters alone.
#[verifier::external_body]
fn quote_text(s: &str) -> (r: String)
    ensures
        r@ == debug_quoted(s@),
{
    format!("{:?}", s)
}

/// The position of the first space in `t`, or its length when it has none.
pub open spec fn word_end(t: Seq<char>) -> int
    decreases t.len(),
{
    if t.len() == 0 || t[0] == ' ' {
        0
    } else {
        1 + word_end(t.drop_first())
    }
}

proof fn lemma_word_end(t: Seq<char>, i: int)
    requires
        0 <= i <= t.len(),
        forall|k: int| 0 <= k < i ==> t[k] != ' ',
        i == t.len() || t[i] == ' ',
    ensures
        word_end(t) == i,
    decreases i,
{
    if i > 0 {
        lemma_word_end(t.drop_first(), i - 1);
    }
}

/// The marker that starts a command.
pub open spec fn is_command(t: Seq<char>) -> bool {
    t.len() > 0 && t[0] == '/'
}

/// The command word: `t` up to its first space.
pub open spec fn verb(t: Seq<char>) -> Seq<char> {
    t.subrange(0, word_end(t))
}

/// Whether a space follows the command word.
pub open spec fn has_argument(t: Seq<char>) -> bool {
    word_end(t) < t.len()
}

/// What follows the first space of `t`.
pub open spec fn argument(t: Seq<char>) -> Seq<char> {
    t.subrange(word_end(t) + 1, t.len() as int)
}

pub open spec fn joined_reply() -> Seq<char> {
    "joined"@
}

pub open spec fn missing_room_reply() -> Seq<char> {
    "!!! room name is required"@
}

pub open spec fn unknown_command_reply(t: Seq<char>) -> Seq<char> {
    "!!! unknown command: "@ + debug_quoted(t)
}

/// What a session does with trimmed text `t` while in the room named `room`.
pub open spec fn text_steps(room: Seq<char>, t: Seq<char>) -> Seq<Step> {
    if !is_command(t) {
        seq![Step::Relay(room, t)]
    } else if verb(t) == "/list"@ {
        seq![Step::ListRooms]
    } else if verb(t) == "/join"@ {
        if has_argument(t) {
            seq![Step::Join(argument(t)), Step::Text(joined_reply())]
        } else {
            seq![Step::Text(missing_room_reply())]
        }
    } else {
        seq![Step::Text(unknown_command_reply(t))]
    }
}

/// The room a session is in after trimmed text `t` arrived while it was in `room`.
pub open spec fn room_after_text(room: Seq<char>, t: Seq<char>) -> Seq<char> {
    if is_command(t) && verb(t) == "/join"@ && has_argument(t) {
        argument(t)
    } else {
        room
    }
}

/// Whether a probe that last came at `last` is overdue at `now`.
pub open spec fn expired(last: u64, now: u64) -> bool {
    now as int - last as int > CLIENT_TIMEOUT_MS as int
}

/// One connection's liveness and command interpretation.
pub struct WebsocketSessionActor {
    /// The id the coordinator handed out; 0 until then.
    pub session_id: usize,
    /// When the peer last proved alive, in milliseconds of a monotone clock.
    pub last_heartbeat: u64,
    /// The room the session is in.
    pub room_name: String,
    pub state: SessionState,
}

impl WebsocketSessionActor {
    /// A session for `room_name`, waiting to be registered, whose peer is
    /// taken as alive at `now`.
    pub fn new(room_name: String, now: u64) -> (r: Self)
        ensures
            r.state == SessionState::Connecting,
            r.session_id == 0,
            r.last_heartbeat == now,
            r.room_name@ == room_name@,
    {
        WebsocketSessionActor { session_id: 0, last_heartbeat: now, room_name, state: SessionState::Connecting }
    }

    /// Interprets a text frame whose surrounding whitespace is already gone.
    /// A command starts with `/`: `/list` asks for the room names; `/join`
    /// followed by a space moves the session into the room named by the rest
    /// and confirms; `/join` alone is an error reported to the peer, as is
    /// any other command word. Any other text is relayed to the session's room.
    pub fn on_trimmed_text(&mut self, text: &str) -> (r: Vec<SessionAction>)
        ensures
            final(self).session_id == old(self).session_id,
            final(self).last_heartbeat == old(self).last_heartbeat,
            final(self).state == old(self).state,
            final(self).room_name@ == room_after_text(old(self).room_name@, text@),
            steps(r@) == text_steps(old(self).room_name@, text@),
    {
        let mut r: Vec<SessionAction> = Vec::new();
        let n = text.unicode_len();
        if n == 0 || text.get_char(0) != '/' {
            r.push(SessionAction::Relay(self.room_name.clone(), text.to_owned()));
            proof {
                assert(steps(r@) =~= seq![Step::Relay(old(self).room_name@, text@)]);
            }
            return r;
        }
        let mut i: usize = 0;
        while i < n && text.get_char(i) != ' '
            invariant
                n == text@.len(),
                i <= n,
                forall|k: int| 0 <= k < i ==> text@[k] != ' ',
            decreases n - i,
        {
            i += 1;
        }
        proof {
            lemma_word_end(text@, i as int);
            reveal_strlit("/list");
            reveal_strlit("/join");
            assert("/list"@ != "/join"@) by {
                assert("/list"@[1] != "/join"@[1]);
            }
        }
        let word = text.substring_char(0, i).to_owned();
        if word == "/list".to_owned() {
            r.push(SessionAction::ListRooms);
            proof {
                assert(steps(r@) =~= seq![Step::ListRooms]);
            }
        } else if word == "/join".to_owned() {
            if i < n {
                let room = text.substring_char(i + 1, n).to_owned();
                self.room_name = room.clone();
                r.push(SessionAction::Join(room));
                r.push(SessionAction::Text("joined".to_owned()));
                proof {
                    assert(steps(r@) =~= seq![Step::Join(argument(text@)), Step::Text(joined_reply())]);
                }
            } else {
                r.push(SessionAction::Text("!!! room name is required".to_owned()));
                proof {
                    assert(steps(r@) =~= seq![Step::Text(missing_room_reply())]);
                }
            }
        } else {
            let mut reply = "!!! unknown command: ".to_owned();
            let quoted = quote_text(text);
            reply.append(quoted.as_str());
            r.push(SessionAction::Text(reply));
            proof {
                assert(steps(r@) =~= seq![Step::Text(unknown_command_reply(text@))]);
            }
        }
        r
    }

    /// Takes the coordinator's answer to the registration request: an id
    /// makes a waiting session active under that id; no answer closes it.
    /// A session that is not waiting ignores it.
    pub fn on_connect_result(&mut self, result: Option<usize>) -> (r: Vec<SessionAction>)
        ensures
            final(self).last_heartbeat == old(self).last_heartbeat,
            final(self).room_name == old(self).room_name,
            old(self).state == SessionState::Connecting && result is Some ==> final(self).state == SessionState::Active
                && final(self).session_id == result->0 && steps(r@) == Seq::<Step>::empty(),
            old(self).state == SessionState::Connecting && result is None ==> final(self).state == SessionState::Closing
                && final(self).session_id == old(self).session_id && steps(r@) == seq![Step::Stop],
            old(self).state != SessionState::Connecting ==> *final(self) == *old(self) && r@.len() == 0,
    {
        let mut r: Vec<SessionAction> = Vec::new();
        if self.state == SessionState::Connecting {
            match result {
                Some(id) => {
                    self.session_id = id;
                    self.state = SessionState::Active;
                },
                None => {
                    self.state = SessionState::Closing;
                    r.push(SessionAction::Stop);
                },
            }
        }
        proof {
            assert(steps(r@) =~= if old(self).state == SessionState::Connecting && result is None {
                seq![Step::Stop]
            } else {
                Seq::<Step>::empty()
            });
        }
        r
    }

    /// The liveness timer fired at `now`. An active session whose peer has
    /// been silent for longer than the timeout tells the coordinator it is
    /// gone and stops; otherwise it probes the peer. Other sessions do nothing.
    pub fn on_heartbeat_tick(&mut self, now: u64) -> (r: Vec<SessionAction>)
        ensures
            final(self).session_id == old(self).session_id,
            final(self).last_heartbeat == old(self).last_heartbeat,
            final(self).room_name == old(self).room_name,
            old(self).state == SessionState::Active && expired(old(self).last_heartbeat, now) ==> final(self).state
                == SessionState::Closing && steps(r@) == seq![Step::Disconnect(old(self).session_id), Step::Stop],
            old(self).state == SessionState::Active && !expired(old(self).last_heartbeat, now) ==> final(self).state
                == SessionState::Active && steps(r@) == seq![Step::Ping],
            old(self).state != SessionState::Active ==> final(self).state == old(self).state && r@.len() == 0,
    {
        let mut r: Vec<SessionAction> = Vec::new();
        if self.state == SessionState::Active {
            if now > self.last_heartbeat && now - self.last_heartbeat > CLIENT_TIMEOUT_MS {
                r.push(SessionAction::Disconnect(self.session_id));
                r.push(SessionAction::Stop);
                self.state = SessionState::Closing;
                proof {
                    assert(steps(r@) =~= seq![Step::Disconnect(old(self).session_id), Step::Stop]);
                }
            } else {
                r.push(SessionAction::Ping);
                proof {
                    assert(steps(r@) =~= seq![Step::Ping]);
                }
            }
        }
        r
    }

    /// An inbound frame arrived at `now`. While active: a ping or pong
    /// refreshes the heartbeat, and a ping is answered with its payload; text
    /// is trimmed and interpreted; a close frame, a binary or continuation
    /// frame, or a protocol error closes the session. Other sessions ignore
    /// frames.
    pub fn on_frame(&mut self, frame: Frame, now: u64) -> (r: Vec<SessionAction>)
        ensures
            final(self).session_id == old(self).session_id,
            old(self).state != SessionState::Active ==> *final(self) == *old(self) && r@.len() == 0,
            old(self).state == SessionState::Active ==> match frame {
                Frame::Ping(p) => final(self).state == SessionState::Active && final(self).last_heartbeat == now
                    && final(self).room_name == old(self).room_name && steps(r@) == seq![Step::Pong(p@)],
                Frame::Pong => final(self).state == SessionState::Active && final(self).last_heartbeat == now
                    && final(self).room_name == old(self).room_name && r@.len() == 0,
                Frame::Text(t) => final(self).state == SessionState::Active && final(self).last_heartbeat
                    == old(self).last_heartbeat && final(self).room_name@ == room_after_text(
                    old(self).room_name@,
                    trimmed(t@),
                ) && steps(r@) == text_steps(old(self).room_name@, trimmed(t@)),
                Frame::Nop => *final(self) == *old(self) && r@.len() == 0,
                _ => final(self).state == SessionState::Closing && final(self).last_heartbeat == old(
                    self,
                ).last_heartbeat && final(self).room_name == old(self).room_name && steps(r@) == seq![
                    Step::Close,
                    Step::Stop,
                ],
            },
    {
        let mut r: Vec<SessionAction> = Vec::new();
        if self.state != SessionState::Active {
            return r;
        }
        match frame {
            Frame::Ping(p) => {
                self.last_heartbeat = now;
                r.push(SessionAction::Pong(p));
                proof {
                    assert(steps(r@) =~= seq![Step::Pong(p@)]);
                }
            },
            Frame::Pong => {
                self.last_heartbeat = now;
            },
            Frame::Text(t) => {
                let text = trim_text(t.as_str());
                r = self.on_trimmed_text(text);
            },
            Frame::Nop => {},
            _ => {
                self.state = SessionState::Closing;
                r.push(SessionAction::Close);
                r.push(SessionAction::Stop);
                proof {
                    assert(steps(r@) =~= seq![Step::Close, Step::Stop]);
                }
            },
        }
        r
    }

    /// The coordinator answered a room-list request: one text frame per
    /// room name, in the order given.
    pub fn on_room_list(&self, rooms: Vec<String>) -> (r: Vec<SessionAction>)
        ensures
            steps(r@) == rooms@.map_values(|n: String| Step::Text(n@)),
    {
        let mut r: Vec<SessionAction> = Vec::new();
        let mut i: usize = 0;
        while i < rooms.len()
            invariant
                i <= rooms@.len(),
                steps(r@) == rooms@.subrange(0, i as int).map_values(|n: String| Step::Text(n@)),
            decreases rooms@.len() - i,
        {
            let ghost r0 = r@;
            r.push(SessionAction::Text(rooms[i].clone()));
            proof {
                assert(rooms@.subrange(0, i as int + 1) =~= rooms@.subrange(0, i as int).push(rooms@[i as int]));
                assert(steps(r@) =~= steps(r0).push(Step::Text(rooms@[i as int]@)));
                assert(steps(r@) =~= rooms@.subrange(0, i as int + 1).map_values(|n: String| Step::Text(n@)));
            }
            i += 1;
        }
        assert(rooms@.subrange(0, i as int) =~= rooms@);
        r
    }

    /// The coordinator handed over a payload for the peer: an active session
    /// writes it as a text frame; others drop it.
    pub fn on_reply(&self, websocket_reply_message: WebsocketReplyMessage) -> (r: Vec<SessionAction>)
        ensures
            self.state == SessionState::Active ==> steps(r@) == seq![Step::Text(websocket_reply_message.message@)],
            self.state != SessionState::Active ==> r@.len() == 0,
    {
        let mut r: Vec<SessionAction> = Vec::new();
        if self.state == SessionState::Active {
            r.push(SessionAction::Text(websocket_reply_message.message));
            proof {
                assert(steps(r@) =~= seq![Step::Text(websocket_reply_message.message@)]);
            }
        }
        r
    }

    /// The session is stopping: it is closed from now on, and the coordinator
    /// is told that its id is gone, whatever state it was in.
    pub fn stopping(&mut self) -> (r: Vec<SessionAction>)
        ensures
            final(self).state == SessionState::Closed,
            final(self).session_id == old(self).session_id,
            final(self).last_heartbeat == old(self).last_heartbeat,
            final(self).room_name == old(self).room_name,
            steps(r@) == seq![Step::Disconnect(old(self).session_id)],
    {
        self.state = SessionState::Closed;
        let mut r: Vec<SessionAction> = Vec::new();
        r.push(SessionAction::Disconnect(self.session_id));
        proof {
            assert(steps(r@) =~= seq![Step::Disconnect(old(self).session_id)]);
        }
        r
    }
}

} // verus!
