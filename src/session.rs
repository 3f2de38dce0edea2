//! The per-connection protocol state machine.
//!
//! A session takes one event at a time (a text frame, a registry answer, a heartbeat tick or
//! pong, a close) and returns the actions to perform, in order: frames for its own
//! connection, requests to the registry, a transport ping, or closing the connection.
use vstd::prelude::*;

use crate::json::{
    lemma_plain_quoted, plain_text,
    find_member, json_object_members, json_quoted, json_string_value, member_value, members_view,
    object_text, parse_object, parse_string, push_object, quote, str_eq, JsonMember,
};
use crate::message::{CreateGame, GameMessage, GameState, JoinGame, LeaveGame, Message};
use crate::text::{alphanumeric, chars_of, is_alphanumeric, string_of, trim, trimmed};

verus! {

/// Milliseconds between heartbeat checks.
pub const HEARTBEAT_INTERVAL_MS: u64 = 5000;

/// Milliseconds without a pong after which the connection is dropped.
pub const CLIENT_TIMEOUT_MS: u64 = 10000;

/// Liveness of the client; times are milliseconds on the connection's own clock.
pub struct HeartBeat {
    pub last_client_hb: u64,
    pub interval: u64,
    pub timeout: u64,
}

impl Default for HeartBeat {
    fn default() -> (r: HeartBeat)
        ensures
            r.last_client_hb == 0,
            r.interval == HEARTBEAT_INTERVAL_MS,
            r.timeout == CLIENT_TIMEOUT_MS,
    {
        HeartBeat { last_client_hb: 0, interval: HEARTBEAT_INTERVAL_MS, timeout: CLIENT_TIMEOUT_MS }
    }
}

pub enum SessionState {
    Connected,
    InRoom { code: String, player_id: String },
    Closed,
}

pub enum StateView {
    Connected,
    InRoom { code: Seq<char>, player_id: Seq<char> },
    Closed,
}

impl View for SessionState {
    type V = StateView;

    open spec fn view(&self) -> StateView {
        match self {
            SessionState::Connected => StateView::Connected,
            SessionState::InRoom { code, player_id } => StateView::InRoom {
                code: code@,
                player_id: player_id@,
            },
            SessionState::Closed => StateView::Closed,
        }
    }
}

/// What the driver of a session must do.
pub enum SessionAction {
    /// A text frame for this connection.
    Send(Message),
    /// Ask the registry to admit this connection; answer with `on_join_result`.
    Join(JoinGame),
    /// Ask the registry for a new room; answer with `on_create_result`.
    Create(CreateGame),
    Leave(LeaveGame),
    State(GameState),
    Broadcast(GameMessage),
    /// A transport-level ping.
    Ping,
    /// Close the connection.
    Close,
}

pub enum ActionView {
    Send(Seq<char>),
    Join { code: Seq<char>, client: u64 },
    Create { client: u64 },
    Leave { code: Seq<char>, player_id: Seq<char> },
    State { code: Seq<char>, sender: Seq<char>, secret: Seq<char>, payload: Seq<char> },
    Broadcast { code: Seq<char>, sender: Seq<char>, text: Seq<char> },
    Ping,
    Close,
}

impl View for SessionAction {
    type V = ActionView;

    open spec fn view(&self) -> ActionView {
        match self {
            SessionAction::Send(m) => ActionView::Send(m.0@),
            SessionAction::Join(j) => ActionView::Join { code: j.game_name@, client: j.player },
            SessionAction::Create(c) => ActionView::Create { client: c.player },
            SessionAction::Leave(l) => ActionView::Leave { code: l.game_name@, player_id: l.player_id@ },
            SessionAction::State(g) => ActionView::State {
                code: g.game_name@,
                sender: g.sender_id@,
                secret: g.secret@,
                payload: g.payload@,
            },
            SessionAction::Broadcast(m) => ActionView::Broadcast {
                code: m.game_name@,
                sender: m.sender_id@,
                text: m.message@,
            },
            SessionAction::Ping => ActionView::Ping,
            SessionAction::Close => ActionView::Close,
        }
    }
}

pub open spec fn actions_view(v: Seq<SessionAction>) -> Seq<ActionView> {
    v.map_values(|a: SessionAction| a@)
}

// ---- the protocol, as functions of the state and the event ----

/// The `LeaveGame` owed when a session leaves its room.
pub open spec fn leave_if_in_room(st: StateView) -> Seq<ActionView> {
    match st {
        StateView::InRoom { code, player_id } => seq![ActionView::Leave { code, player_id }],
        _ => seq![],
    }
}

/// Terminating the session: leave the room, close the connection.
pub open spec fn shutdown(st: StateView) -> (StateView, Seq<ActionView>) {
    (StateView::Closed, leave_if_in_room(st).push(ActionView::Close))
}

/// The local answer to a join that was not admitted.
pub open spec fn join_refusal(reason: Seq<char>) -> Seq<char> {
    "Event JoinGame:{\"ok\":false,\"reason\":"@ + json_quoted(reason) + "}"@
}

/// `i` is the position of the first `:` of `s`.
pub open spec fn first_colon(s: Seq<char>, i: int) -> bool {
    &&& 0 <= i < s.len()
    &&& s[i] == ':'
    &&& forall|k: int| 0 <= k < i ==> s[k] != ':'
}

/// The frame split once on `:`: the kind, and the payload if there is a colon.
pub open spec fn split_frame(s: Seq<char>) -> (Seq<char>, Option<Seq<char>>) {
    if exists|i: int| first_colon(s, i) {
        let i = choose|i: int| first_colon(s, i);
        (s.take(i), Some(s.skip(i + 1)))
    } else {
        (s, None)
    }
}

pub open spec fn event_prefix() -> Seq<char> {
    seq!['E', 'v', 'e', 'n', 't', ' ']
}

/// The members of `m` without any named `key`, in order.
pub open spec fn without_key(m: Seq<(Seq<char>, Seq<char>)>, key: Seq<char>) -> Seq<(Seq<char>, Seq<char>)>
    decreases m.len(),
{
    if m.len() == 0 {
        seq![]
    } else if m.last().0 == key {
        without_key(m.drop_last(), key)
    } else {
        without_key(m.drop_last(), key).push(m.last())
    }
}

/// A client's player state with its `playerId` set to the sender, whatever it held before.
pub open spec fn with_player_id(m: Seq<(Seq<char>, Seq<char>)>, id: Seq<char>) -> Seq<(Seq<char>, Seq<char>)> {
    without_key(m, "playerId"@).push(("playerId"@, json_quoted(id)))
}

/// A code a client may ask to join: five alphanumeric characters.
pub open spec fn code_acceptable(code: Seq<char>) -> bool {
    code.len() == 5 && forall|i: int| 0 <= i < code.len() ==> alphanumeric(#[trigger] code[i])
}

pub open spec fn state_request(st: StateView, payload: Seq<char>) -> (StateView, Seq<ActionView>) {
    match json_object_members(payload) {
        None => shutdown(st),
        Some(m) => match member_value(m, "secret"@) {
            None => shutdown(st),
            Some(v) => match (json_string_value(v), st) {
                (Some(secret), StateView::InRoom { code, player_id }) => (
                    st,
                    seq![ActionView::State { code, sender: player_id, secret, payload: object_text(m) }],
                ),
                _ => (st, seq![]),
            },
        },
    }
}

pub open spec fn player_state(st: StateView, payload: Seq<char>) -> (StateView, Seq<ActionView>) {
    match json_object_members(payload) {
        None => shutdown(st),
        Some(m) => match st {
            StateView::InRoom { code, player_id } => (
                st,
                seq![
                    ActionView::Broadcast {
                        code,
                        sender: player_id,
                        text: "Event PlayerState:"@ + object_text(with_player_id(m, player_id)),
                    },
                ],
            ),
            _ => (st, seq![]),
        },
    }
}

/// Asking to join room `code`: leave the current room first.
pub open spec fn join_request(st: StateView, client: u64, code: Seq<char>) -> (StateView, Seq<ActionView>) {
    (StateView::Connected, leave_if_in_room(st).push(ActionView::Join { code, client }))
}

pub open spec fn join_frame(st: StateView, client: u64, payload: Seq<char>) -> (StateView, Seq<ActionView>) {
    match json_object_members(payload) {
        None => shutdown(st),
        Some(m) => match member_value(m, "code"@) {
            None => shutdown(st),
            Some(v) => match json_string_value(v) {
                None => (st, seq![]),
                Some(code) => if code.len() != 5 {
                    (st, seq![ActionView::Send(join_refusal("Code should be 5 characters"@))])
                } else if !code_acceptable(code) {
                    (st, seq![ActionView::Send(join_refusal("Code should be alpha numeric"@))])
                } else {
                    join_request(st, client, code)
                },
            },
        },
    }
}

/// The answer to one trimmed text frame.
pub open spec fn frame_outcome(st: StateView, client: u64, msg: Seq<char>) -> (StateView, Seq<ActionView>) {
    if st is Closed || !(msg.len() >= 6 && msg.take(6) == event_prefix()) {
        (st, seq![])
    } else {
        let (kind, payload) = split_frame(msg);
        if kind == "Event GameState"@ {
            match payload {
                Some(p) => state_request(st, p),
                None => (st, seq![]),
            }
        } else if kind == "Event PlayerState"@ {
            match payload {
                Some(p) => player_state(st, p),
                None => (st, seq![]),
            }
        } else if kind == "Event JoinGame"@ {
            match payload {
                Some(p) => join_frame(st, client, p),
                None => (st, seq![]),
            }
        } else if kind == "Event CreateGame"@ {
            (StateView::Connected, leave_if_in_room(st).push(ActionView::Create { client }))
        } else if kind == "Event Ping"@ {
            (st, seq![ActionView::Send(msg)])
        } else {
            (st, seq![ActionView::Send("!!! unknown event: "@ + msg)])
        }
    }
}

/// The registry's answer to a join of room `code`; a session closed meanwhile leaves again.
pub open spec fn join_answer(st: StateView, code: Seq<char>, res: Result<Seq<char>, Seq<char>>) -> (StateView, Seq<ActionView>) {
    match res {
        Ok(id) => match st {
            StateView::Closed => (st, seq![ActionView::Leave { code, player_id: id }]),
            _ => (StateView::InRoom { code, player_id: id }, leave_if_in_room(st)),
        },
        Err(reason) => match st {
            StateView::Closed => (st, seq![]),
            _ => (st, seq![ActionView::Send(join_refusal(reason))]),
        },
    }
}

/// A heartbeat check at time `now`: ping, or give up on a silent client.
pub open spec fn tick_outcome(st: StateView, last: u64, timeout: u64, now: u64) -> (StateView, Seq<ActionView>) {
    if st is Closed {
        (st, seq![])
    } else if now > last && now - last > timeout {
        shutdown(st)
    } else {
        (st, seq![ActionView::Ping])
    }
}

/// The connection closes (a Close frame, a transport error, a server stop).
pub open spec fn close_outcome(st: StateView) -> (StateView, Seq<ActionView>) {
    if st is Closed {
        (st, seq![])
    } else {
        shutdown(st)
    }
}

/// One connection's session.
pub struct PlayerSession {
    pub client: u64,
    pub state: SessionState,
    pub hb: HeartBeat,
}

proof fn lemma_actions_push(v: Seq<SessionAction>, a: SessionAction)
    ensures
        actions_view(v.push(a)) == actions_view(v).push(a@),
{
    assert(actions_view(v.push(a)) =~= actions_view(v).push(a@));
}

fn send(text: String) -> (r: Vec<SessionAction>)
    ensures
        actions_view(r@) == seq![ActionView::Send(text@)],
{
    let r = vec![SessionAction::Send(Message(text))];
    assert(actions_view(r@) =~= seq![ActionView::Send(text@)]);
    r
}

fn nothing() -> (r: Vec<SessionAction>)
    ensures
        actions_view(r@) == Seq::<ActionView>::empty(),
{
    let r: Vec<SessionAction> = Vec::new();
    assert(actions_view(r@) =~= Seq::<ActionView>::empty());
    r
}

fn refusal(reason: &str) -> (r: String)
    ensures
        r@ == join_refusal(reason@),
{
    let mut s = "Event JoinGame:{\"ok\":false,\"reason\":".to_owned();
    s.append(quote(reason).as_str());
    s.append("}");
    s
}

/// The position of the first `:`, if any.
fn find_colon(v: &Vec<char>) -> (r: Option<usize>)
    ensures
        r matches Some(i) ==> first_colon(v@, i as int),
        r is None ==> !exists|i: int| first_colon(v@, i),
{
    let mut i: usize = 0;
    while i < v.len()
        invariant
            i <= v.len(),
            forall|k: int| 0 <= k < i ==> v@[k] != ':',
        decreases v.len() - i,
    {
        if v[i] == ':' {
            return Some(i);
        }
        i = i + 1;
    }
    None
}

proof fn lemma_first_colon_unique(s: Seq<char>, i: int, j: int)
    requires
        first_colon(s, i),
        first_colon(s, j),
    ensures
        i == j,
{
    if i < j {
        assert(s[i] != ':');
    } else if j < i {
        assert(s[j] != ':');
    }
}

fn starts_with_event(v: &Vec<char>) -> (r: bool)
    ensures
        r == (v@.len() >= 6 && v@.take(6) == event_prefix()),
{
    if v.len() < 6 {
        return false;
    }
    let r = v[0] == 'E' && v[1] == 'v' && v[2] == 'e' && v[3] == 'n' && v[4] == 't' && v[5] == ' ';
    assert(r == (v@.take(6) =~= event_prefix()));
    r
}

fn without_player_id(m: &Vec<JsonMember>) -> (r: Vec<JsonMember>)
    ensures
        members_view(r@) == without_key(members_view(m@), "playerId"@),
{
    let ghost mv = members_view(m@);
    let mut r: Vec<JsonMember> = Vec::new();
    let mut i: usize = 0;
    assert(mv.take(0) =~= seq![]);
    assert(members_view(r@) =~= seq![]);
    while i < m.len()
        invariant
            i <= m.len(),
            mv == members_view(m@),
            members_view(r@) == without_key(mv.take(i as int), "playerId"@),
        decreases m.len() - i,
    {
        assert(mv.take(i + 1).drop_last() == mv.take(i as int));
        if !str_eq(m[i].0.as_str(), "playerId") {
            let e = (m[i].0.clone(), m[i].1.clone());
            assert(members_view(r@.push(e)) =~= members_view(r@).push((e.0@, e.1@)));
            r.push(e);
        }
        i = i + 1;
    }
    assert(mv.take(m.len() as int) == mv);
    r
}

fn all_alphanumeric(chars: &Vec<char>) -> (r: bool)
    ensures
        r == forall|i: int| 0 <= i < chars@.len() ==> alphanumeric(#[trigger] chars@[i]),
{
    let mut i: usize = 0;
    while i < chars.len()
        invariant
            i <= chars.len(),
            forall|k: int| 0 <= k < i ==> alphanumeric(#[trigger] chars@[k]),
        decreases chars.len() - i,
    {
        if !is_alphanumeric(chars[i]) {
            assert(!alphanumeric(chars@[i as int]));
            return false;
        }
        i = i + 1;
    }
    true
}

impl PlayerSession {
    /// A fresh connection, not in any room, last heard from at time 0.
    pub fn new(client: u64) -> (r: PlayerSession)
        ensures
            r.client == client,
            r.state@ == StateView::Connected,
            r.hb.last_client_hb == 0,
            r.hb.timeout == CLIENT_TIMEOUT_MS,
    {
        PlayerSession { client, state: SessionState::Connected, hb: HeartBeat::default() }
    }

    fn leave_actions(&self) -> (r: Vec<SessionAction>)
        ensures
            actions_view(r@) == leave_if_in_room(self.state@),
    {
        match &self.state {
            SessionState::InRoom { code, player_id } => {
                let r = vec![SessionAction::Leave(LeaveGame { game_name: code.clone(), player_id: player_id.clone() })];
                assert(actions_view(r@) =~= leave_if_in_room(self.state@));
                r
            },
            _ => nothing(),
        }
    }

    /// Ends the session: leave the room if in one, then close.
    fn shut_down(&mut self) -> (r: Vec<SessionAction>)
        ensures
            (final(self).state@, actions_view(r@)) == shutdown(old(self).state@),
            final(self).client == old(self).client,
            final(self).hb == old(self).hb,
    {
        let mut r = self.leave_actions();
        proof {
            lemma_actions_push(r@, SessionAction::Close);
        }
        r.push(SessionAction::Close);
        self.state = SessionState::Closed;
        r
    }

    /// Leaves the current room, if any, and asks the registry to admit this connection to
    /// room `game_name`.
    pub fn join_game(&mut self, game_name: &str) -> (r: Vec<SessionAction>)
        requires
            !(old(self).state@ is Closed),
        ensures
            (final(self).state@, actions_view(r@)) == join_request(old(self).state@, old(self).client, game_name@),
            final(self).client == old(self).client,
            final(self).hb == old(self).hb,
    {
        let mut r = self.leave_actions();
        let a = SessionAction::Join(JoinGame { game_name: game_name.to_owned(), player: self.client });
        proof {
            lemma_actions_push(r@, a);
        }
        r.push(a);
        self.state = SessionState::Connected;
        r
    }

    /// Best-effort text for the rest of the room; nothing outside a room.
    pub fn send_msg(&self, msg: &str) -> (r: Vec<SessionAction>)
        ensures
            actions_view(r@) == match self.state@ {
                StateView::InRoom { code, player_id } => seq![
                    ActionView::Broadcast { code, sender: player_id, text: msg@ },
                ],
                _ => seq![],
            },
    {
        match &self.state {
            SessionState::InRoom { code, player_id } => {
                let r = vec![
                    SessionAction::Broadcast(GameMessage {
                        game_name: code.clone(),
                        message: msg.to_owned(),
                        sender_id: player_id.clone(),
                    }),
                ];
                assert(actions_view(r@) =~= seq![
                    ActionView::Broadcast { code: code@, sender: player_id@, text: msg@ },
                ]);
                r
            },
            _ => nothing(),
        }
    }

    /// Forwards room-wide state to the registry, which checks the secret; nothing outside a room.
    pub fn send_game_state(&self, payload: String, secret: String) -> (r: Vec<SessionAction>)
        ensures
            actions_view(r@) == match self.state@ {
                StateView::InRoom { code, player_id } => seq![
                    ActionView::State { code, sender: player_id, secret: secret@, payload: payload@ },
                ],
                _ => seq![],
            },
    {
        match &self.state {
            SessionState::InRoom { code, player_id } => {
                let r = vec![
                    SessionAction::State(GameState {
                        game_name: code.clone(),
                        sender_id: player_id.clone(),
                        secret,
                        payload,
                    }),
                ];
                assert(actions_view(r@) =~= seq![
                    ActionView::State { code: code@, sender: player_id@, secret: secret@, payload: payload@ },
                ]);
                r
            },
            _ => nothing(),
        }
    }

    fn handle_state(&mut self, payload: &str) -> (r: Vec<SessionAction>)
        ensures
            (final(self).state@, actions_view(r@)) == state_request(old(self).state@, payload@),
            final(self).client == old(self).client,
            final(self).hb == old(self).hb,
    {
        let members = match parse_object(payload) {
            None => return self.shut_down(),
            Some(m) => m,
        };
        let value = match find_member(&members, "secret") {
            None => return self.shut_down(),
            Some(v) => v,
        };
        match parse_string(value.as_str()) {
            None => nothing(),
            Some(secret) => {
                let mut text = String::new();
                push_object(&mut text, &members);
                assert(text@ =~= object_text(members_view(members@)));
                self.send_game_state(text, secret)
            },
        }
    }

    fn handle_player_state(&mut self, payload: &str) -> (r: Vec<SessionAction>)
        ensures
            (final(self).state@, actions_view(r@)) == player_state(old(self).state@, payload@),
            final(self).client == old(self).client,
            final(self).hb == old(self).hb,
    {
        let members = match parse_object(payload) {
            None => return self.shut_down(),
            Some(m) => m,
        };
        match &self.state {
            SessionState::InRoom { code: _, player_id } => {
                let mut tagged = without_player_id(&members);
                let e = ("playerId".to_owned(), quote(player_id.as_str()));
                assert(members_view(tagged@.push(e)) =~= members_view(tagged@).push((e.0@, e.1@)));
                tagged.push(e);
                let mut text = "Event PlayerState:".to_owned();
                push_object(&mut text, &tagged);
                self.send_msg(text.as_str())
            },
            _ => nothing(),
        }
    }

    fn handle_join(&mut self, payload: &str) -> (r: Vec<SessionAction>)
        requires
            !(old(self).state@ is Closed),
        ensures
            (final(self).state@, actions_view(r@)) == join_frame(old(self).state@, old(self).client, payload@),
            final(self).client == old(self).client,
            final(self).hb == old(self).hb,
    {
        let members = match parse_object(payload) {
            None => return self.shut_down(),
            Some(m) => m,
        };
        let value = match find_member(&members, "code") {
            None => return self.shut_down(),
            Some(v) => v,
        };
        let code = match parse_string(value.as_str()) {
            None => return nothing(),
            Some(c) => c,
        };
        let chars = chars_of(code.as_str());
        if chars.len() != 5 {
            return send(refusal("Code should be 5 characters"));
        }
        if !all_alphanumeric(&chars) {
            return send(refusal("Code should be alpha numeric"));
        }
        self.join_game(code.as_str())
    }

    /// Handles one text frame after trimming.
    pub fn handle_frame(&mut self, msg: &str) -> (r: Vec<SessionAction>)
        ensures
            (final(self).state@, actions_view(r@)) == frame_outcome(old(self).state@, old(self).client, msg@),
            final(self).client == old(self).client,
            final(self).hb == old(self).hb,
    {
        if let SessionState::Closed = self.state {
            return nothing();
        }
        let v = chars_of(msg);
        if !starts_with_event(&v) {
            return nothing();
        }
        let colon = find_colon(&v);
        let (kind, payload) = match colon {
            Some(i) => {
                assert(first_colon(v@, i as int));
                assert(i < v.len());
                proof {
                    let j = choose|j: int| first_colon(v@, j);
                    lemma_first_colon_unique(v@, i as int, j);
                }
                (string_of(&v, 0, i), Some(string_of(&v, i + 1, v.len())))
            },
            None => (string_of(&v, 0, v.len()), None),
        };
        assert(v@.subrange(0, v@.len() as int) == v@);
        proof {
            if let Some(i) = colon {
                assert(v@.subrange(0, i as int) == v@.take(i as int));
                assert(v@.subrange(i + 1, v@.len() as int) == v@.skip(i + 1));
            }
        }
        let k = kind.as_str();
        if str_eq(k, "Event GameState") {
            match payload {
                Some(p) => self.handle_state(p.as_str()),
                None => nothing(),
            }
        } else if str_eq(k, "Event PlayerState") {
            match payload {
                Some(p) => self.handle_player_state(p.as_str()),
                None => nothing(),
            }
        } else if str_eq(k, "Event JoinGame") {
            match payload {
                Some(p) => self.handle_join(p.as_str()),
                None => nothing(),
            }
        } else if str_eq(k, "Event CreateGame") {
            let mut r = self.leave_actions();
            let a = SessionAction::Create(CreateGame { player: self.client });
            proof {
                lemma_actions_push(r@, a);
            }
            r.push(a);
            self.state = SessionState::Connected;
            r
        } else if str_eq(k, "Event Ping") {
            send(msg.to_owned())
        } else {
            let mut text = "!!! unknown event: ".to_owned();
            text.append(msg);
            send(text)
        }
    }

    fn answer(&mut self, code: String, result: Result<String, String>) -> (r: Vec<SessionAction>)
        ensures
            (final(self).state@, actions_view(r@)) == join_answer(
                old(self).state@,
                code@,
                match result {
                    Ok(id) => Ok(id@),
                    Err(e) => Err(e@),
                },
            ),
            final(self).client == old(self).client,
            final(self).hb == old(self).hb,
    {
        match result {
            Ok(id) => {
                if let SessionState::Closed = self.state {
                    let r = vec![SessionAction::Leave(LeaveGame { game_name: code, player_id: id })];
                    assert(actions_view(r@) =~= seq![ActionView::Leave { code: code@, player_id: id@ }]);
                    return r;
                }
                let r = self.leave_actions();
                self.state = SessionState::InRoom { code, player_id: id };
                r
            },
            Err(reason) => {
                if let SessionState::Closed = self.state {
                    return nothing();
                }
                send(refusal(reason.as_str()))
            },
        }
    }

    /// The registry's answer to this session's `Join` of room `game_name`.
    pub fn on_join_result(&mut self, game_name: String, result: Result<String, String>) -> (r: Vec<SessionAction>)
        ensures
            (final(self).state@, actions_view(r@)) == join_answer(
                old(self).state@,
                game_name@,
                match result {
                    Ok(id) => Ok(id@),
                    Err(e) => Err(e@),
                },
            ),
            final(self).client == old(self).client,
            final(self).hb == old(self).hb,
    {
        self.answer(game_name, result)
    }

    /// The registry's answer to this session's `Create`: the player id and the new code.
    pub fn on_create_result(&mut self, result: Result<(String, String), String>) -> (r: Vec<SessionAction>)
        ensures
            match result {
                Ok((id, code)) => (final(self).state@, actions_view(r@)) == join_answer(old(self).state@, code@, Ok(id@)),
                Err(e) => (final(self).state@, actions_view(r@)) == join_answer(old(self).state@, seq![], Err(e@)),
            },
            final(self).client == old(self).client,
            final(self).hb == old(self).hb,
    {
        match result {
            Ok((id, code)) => self.answer(code, Ok(id)),
            Err(e) => self.answer(String::new(), Err(e)),
        }
    }

    /// The periodic heartbeat check at time `now`.
    pub fn on_tick(&mut self, now: u64) -> (r: Vec<SessionAction>)
        ensures
            (final(self).state@, actions_view(r@)) == tick_outcome(
                old(self).state@,
                old(self).hb.last_client_hb,
                old(self).hb.timeout,
                now,
            ),
            final(self).client == old(self).client,
            final(self).hb == old(self).hb,
    {
        if let SessionState::Closed = self.state {
            return nothing();
        }
        if now > self.hb.last_client_hb && now - self.hb.last_client_hb > self.hb.timeout {
            return self.shut_down();
        }
        let r = vec![SessionAction::Ping];
        assert(actions_view(r@) =~= seq![ActionView::Ping]);
        r
    }

    /// A pong arrived at time `now`.
    pub fn on_pong(&mut self, now: u64)
        ensures
            final(self).hb.last_client_hb == now,
            final(self).hb.interval == old(self).hb.interval,
            final(self).hb.timeout == old(self).hb.timeout,
            final(self).state == old(self).state,
            final(self).client == old(self).client,
    {
        self.hb.last_client_hb = now;
    }

    /// The connection is closing: leave the room and close.
    pub fn on_close(&mut self) -> (r: Vec<SessionAction>)
        ensures
            (final(self).state@, actions_view(r@)) == close_outcome(old(self).state@),
            final(self).client == old(self).client,
            final(self).hb == old(self).hb,
    {
        if let SessionState::Closed = self.state {
            return nothing();
        }
        self.shut_down()
    }

    /// The connection has stopped: leave the room if still in one.
    pub fn stopped(&mut self) -> (r: Vec<SessionAction>)
        ensures
            final(self).state@ == StateView::Closed,
            actions_view(r@) == leave_if_in_room(old(self).state@),
            final(self).client == old(self).client,
            final(self).hb == old(self).hb,
    {
        let r = self.leave_actions();
        self.state = SessionState::Closed;
        r
    }

    /// Handles one text frame as received: trimmed, then dispatched.
    pub fn handle_text(&mut self, text: &str) -> (r: Vec<SessionAction>)
        ensures
            (final(self).state@, actions_view(r@)) == frame_outcome(old(self).state@, old(self).client, trimmed(text@)),
            final(self).client == old(self).client,
            final(self).hb == old(self).hb,
    {
        let msg = trim(text);
        self.handle_frame(msg)
    }
}


proof fn lemma_without_key_absent(m: Seq<(Seq<char>, Seq<char>)>, key: Seq<char>)
    ensures
        forall|k: int| 0 <= k < without_key(m, key).len() ==> (#[trigger] without_key(m, key)[k]).0 != key,
    decreases m.len(),
{
    if m.len() > 0 {
        let w = without_key(m.drop_last(), key);
        lemma_without_key_absent(m.drop_last(), key);
        if m.last().0 != key {
            assert forall|k: int| 0 <= k < w.push(m.last()).len() implies (#[trigger] w.push(m.last())[k]).0
                != key by {
                if k < w.len() {
                    assert(w.push(m.last())[k] == w[k]);
                }
            }
        }
    }
}

proof fn lemma_member_value_last(w: Seq<(Seq<char>, Seq<char>)>, e: (Seq<char>, Seq<char>))
    requires
        forall|k: int| 0 <= k < w.len() ==> (#[trigger] w[k]).0 != e.0,
    ensures
        member_value(w.push(e), e.0) == Some(e.1),
    decreases w.len(),
{
    if w.len() > 0 {
        assert(w.push(e).drop_first() == w.drop_first().push(e));
        assert forall|k: int| 0 <= k < w.drop_first().len() implies (#[trigger] w.drop_first()[k]).0 != e.0 by {
            assert(w.drop_first()[k] == w[k + 1]);
        }
        lemma_member_value_last(w.drop_first(), e);
    }
}

/// A rebroadcast player state names its sender: whatever members the client sent, the object
/// has exactly one `playerId` member, the sender's id as a JSON string, and its text ends with
/// `"playerId":<id>}`.
pub proof fn lemma_player_state_names_sender(m: Seq<(Seq<char>, Seq<char>)>, id: Seq<char>)
    ensures
        member_value(with_player_id(m, id), "playerId"@) == Some(json_quoted(id)),
        forall|k: int|
            0 <= k < with_player_id(m, id).len() && (#[trigger] with_player_id(m, id)[k]).0 == "playerId"@
                ==> k == with_player_id(m, id).len() - 1,
        exists|prefix: Seq<char>|
            object_text(with_player_id(m, id)) == prefix + json_quoted("playerId"@) + seq![':']
                + json_quoted(id) + seq!['}'],
{
    let w = without_key(m, "playerId"@);
    let e = ("playerId"@, json_quoted(id));
    let t = w.push(e);
    lemma_without_key_absent(m, "playerId"@);
    lemma_member_value_last(w, e);
    assert forall|k: int| 0 <= k < t.len() && (#[trigger] t[k]).0 == "playerId"@ implies k == t.len() - 1 by {
        if k < w.len() {
            assert(t[k] == w[k]);
        }
    }
    assert(t.drop_last() == w);
    let prefix = if w.len() == 0 {
        seq!['{']
    } else {
        seq!['{'] + crate::json::members_text(w) + seq![',']
    };
    assert(object_text(t) =~= prefix + json_quoted("playerId"@) + seq![':'] + json_quoted(id) + seq!['}']);
}


/// For a player id of plain text (every decimal id is, see `lemma_decimal_plain`), the text
/// of a rebroadcast player state ends with `"playerId":"<id>"}`, whatever the client sent.
pub proof fn lemma_player_state_text(m: Seq<(Seq<char>, Seq<char>)>, id: Seq<char>)
    requires
        plain_text(id),
    ensures
        exists|prefix: Seq<char>|
            object_text(with_player_id(m, id)) == prefix + "\"playerId\":\""@ + id + "\"}"@,
{
    lemma_player_state_names_sender(m, id);
    let prefix = choose|prefix: Seq<char>|
        object_text(with_player_id(m, id)) == prefix + json_quoted("playerId"@) + seq![':']
            + json_quoted(id) + seq!['}'];
    reveal_strlit("playerId");
    reveal_strlit("\"playerId\":\"");
    reveal_strlit("\"}");
    assert(plain_text("playerId"@));
    lemma_plain_quoted("playerId"@);
    lemma_plain_quoted(id);
    assert(object_text(with_player_id(m, id)) =~= prefix + "\"playerId\":\""@ + id + "\"}"@);
}

} // verus!
