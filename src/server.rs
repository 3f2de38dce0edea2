//! The room registry: the single owner of all room state.
//!
//! Every operation returns the frames it produces as `Outbound` deliveries. A delivery that
//! carries `evict` belongs to a broadcast: when sending it fails, the caller hands the pair
//! back to `drop_unreachable`, which treats that player as gone.
use vstd::prelude::*;

use crate::events::{
    game_state_frame, joined_game_frame, player_joined_frame, player_left_frame, room_leader_frame,
    GameStateEvent, MultiplayerEvent, PlayerLeftGameEvent,
};
use crate::game_objects::{GameMap, GameMapView};
use crate::json::str_eq;
use crate::map::generated_map;
use crate::message::{
    CreateGame, GameMessage, GameState, JoinGame, LeaveGame, ListGames, StartGame,
};
use crate::random::random_range;
use crate::room::{
    add_player_to_game, admission_frames, admitted, fan_out, direct, has_id, has_player, ids,
    lemma_outs_push, lemma_without_distinct, lemma_without_members, make_player_leader, roster, outs_view, players_without, push_fan_out,
    room_ok, valid_secret, without, Game, GameView, Outbound, OutboundView, MAX_DRAWS,
};
use crate::text::{push_char, string_of};

verus! {

/// A room code: five letters of `A`..`Z` without `I` and `J`.
pub open spec fn code_letter(c: char) -> bool {
    'A' <= c <= 'Z' && c != 'I' && c != 'J'
}

pub open spec fn valid_code(code: Seq<char>) -> bool {
    code.len() == 5 && forall|i: int| 0 <= i < code.len() ==> code_letter(#[trigger] code[i])
}

/// The code alphabet, in order.
pub open spec fn code_alphabet() -> Seq<char> {
    seq!['A', 'B', 'C', 'D', 'E', 'F', 'G', 'H', 'K', 'L', 'M', 'N', 'O', 'P', 'Q', 'R', 'S', 'T', 'U', 'V', 'W', 'X', 'Y', 'Z']
}

/// Every code letter is in the alphabet.
proof fn lemma_code_letter_in_alphabet(c: char)
    requires
        code_letter(c),
    ensures
        exists|i: int| 0 <= i < 24 && #[trigger] code_alphabet()[i] == c,
{
    if c == 'A' {
        assert(code_alphabet()[0] == c);
    } else if c == 'B' {
        assert(code_alphabet()[1] == c);
    } else if c == 'C' {
        assert(code_alphabet()[2] == c);
    } else if c == 'D' {
        assert(code_alphabet()[3] == c);
    } else if c == 'E' {
        assert(code_alphabet()[4] == c);
    } else if c == 'F' {
        assert(code_alphabet()[5] == c);
    } else if c == 'G' {
        assert(code_alphabet()[6] == c);
    } else if c == 'H' {
        assert(code_alphabet()[7] == c);
    } else if c == 'K' {
        assert(code_alphabet()[8] == c);
    } else if c == 'L' {
        assert(code_alphabet()[9] == c);
    } else if c == 'M' {
        assert(code_alphabet()[10] == c);
    } else if c == 'N' {
        assert(code_alphabet()[11] == c);
    } else if c == 'O' {
        assert(code_alphabet()[12] == c);
    } else if c == 'P' {
        assert(code_alphabet()[13] == c);
    } else if c == 'Q' {
        assert(code_alphabet()[14] == c);
    } else if c == 'R' {
        assert(code_alphabet()[15] == c);
    } else if c == 'S' {
        assert(code_alphabet()[16] == c);
    } else if c == 'T' {
        assert(code_alphabet()[17] == c);
    } else if c == 'U' {
        assert(code_alphabet()[18] == c);
    } else if c == 'V' {
        assert(code_alphabet()[19] == c);
    } else if c == 'W' {
        assert(code_alphabet()[20] == c);
    } else if c == 'X' {
        assert(code_alphabet()[21] == c);
    } else if c == 'Y' {
        assert(code_alphabet()[22] == c);
    } else if c == 'Z' {
        assert(code_alphabet()[23] == c);
    }
}

/// The letter at `i` of the code alphabet `ABCDEFGHKLMNOPQRSTUVWXYZ`.
fn code_char(i: usize) -> (c: char)
    requires
        i < 24,
    ensures
        c == code_alphabet()[i as int],
        code_letter(c),
{
    match i {
        0 => 'A',
        1 => 'B',
        2 => 'C',
        3 => 'D',
        4 => 'E',
        5 => 'F',
        6 => 'G',
        7 => 'H',
        8 => 'K',
        9 => 'L',
        10 => 'M',
        11 => 'N',
        12 => 'O',
        13 => 'P',
        14 => 'Q',
        15 => 'R',
        16 => 'S',
        17 => 'T',
        18 => 'U',
        19 => 'V',
        20 => 'W',
        21 => 'X',
        22 => 'Y',
        _ => 'Z',
    }
}

// ---- the registry ----

pub open spec fn codes_unique(g: Seq<(String, Game)>) -> bool {
    forall|i: int, j: int| 0 <= i < g.len() && 0 <= j < g.len() && i != j ==> #[trigger] g[i].0@ != #[trigger] g[j].0@
}

pub open spec fn has_code(g: Seq<(String, Game)>, code: Seq<char>) -> bool {
    exists|i: int| 0 <= i < g.len() && #[trigger] g[i].0@ == code
}

pub open spec fn rooms_view(g: Seq<(String, Game)>) -> Map<Seq<char>, GameView> {
    Map::new(
        |c: Seq<char>| has_code(g, c),
        |c: Seq<char>| g[choose|i: int| 0 <= i < g.len() && #[trigger] g[i].0@ == c].1@,
    )
}

proof fn lemma_rooms_at(g: Seq<(String, Game)>, i: int)
    requires
        codes_unique(g),
        0 <= i < g.len(),
    ensures
        rooms_view(g).dom().contains(g[i].0@),
        rooms_view(g)[g[i].0@] == g[i].1@,
{
    let c = g[i].0@;
    assert(has_code(g, c));
    let j = choose|j: int| 0 <= j < g.len() && #[trigger] g[j].0@ == c;
    assert(i == j);
}

proof fn lemma_rooms_update(g: Seq<(String, Game)>, i: int, e: (String, Game))
    requires
        codes_unique(g),
        0 <= i < g.len(),
        e.0@ == g[i].0@,
    ensures
        codes_unique(g.update(i, e)),
        rooms_view(g.update(i, e)) == rooms_view(g).insert(e.0@, e.1@),
{
    let h = g.update(i, e);
    assert(codes_unique(h)) by {
        assert forall|a: int, b: int| 0 <= a < h.len() && 0 <= b < h.len() && a != b implies #[trigger] h[a].0@
            != #[trigger] h[b].0@ by {
            assert(h[a].0@ == g[a].0@ && h[b].0@ == g[b].0@);
        }
    }
    lemma_rooms_at(h, i);
    assert forall|c: Seq<char>| #[trigger] rooms_view(h).dom().contains(c) <==> rooms_view(g).insert(e.0@, e.1@).dom().contains(c) by {
        if has_code(h, c) {
            let j = choose|j: int| 0 <= j < h.len() && #[trigger] h[j].0@ == c;
            assert(g[j].0@ == c);
        }
        if has_code(g, c) {
            let j = choose|j: int| 0 <= j < g.len() && #[trigger] g[j].0@ == c;
            assert(h[j].0@ == c);
        }
    }
    assert forall|c: Seq<char>| #[trigger] rooms_view(h).dom().contains(c) && c != e.0@ implies rooms_view(h)[c] == rooms_view(g)[c] by {
        let j = choose|j: int| 0 <= j < h.len() && #[trigger] h[j].0@ == c;
        assert(j != i);
        assert(g[j] == h[j]);
        lemma_rooms_at(h, j);
        lemma_rooms_at(g, j);
    }
    assert(rooms_view(h) =~= rooms_view(g).insert(e.0@, e.1@));
}

proof fn lemma_rooms_remove(g: Seq<(String, Game)>, i: int)
    requires
        codes_unique(g),
        0 <= i < g.len(),
    ensures
        codes_unique(g.remove(i)),
        rooms_view(g.remove(i)) == rooms_view(g).remove(g[i].0@),
        forall|k: int| 0 <= k < g.remove(i).len() ==> exists|m: int| 0 <= m < g.len() && #[trigger] g.remove(i)[k] == g[m],
{
    let h = g.remove(i);
    assert forall|k: int| 0 <= k < h.len() implies exists|m: int| 0 <= m < g.len() && #[trigger] h[k] == g[m] by {
        if k < i {
            assert(h[k] == g[k]);
        } else {
            assert(h[k] == g[k + 1]);
        }
    }
    assert(codes_unique(h)) by {
        assert forall|a: int, b: int| 0 <= a < h.len() && 0 <= b < h.len() && a != b implies #[trigger] h[a].0@
            != #[trigger] h[b].0@ by {
            let a2 = if a < i { a } else { a + 1 };
            let b2 = if b < i { b } else { b + 1 };
            assert(h[a] == g[a2] && h[b] == g[b2]);
        }
    }
    let ci = g[i].0@;
    assert forall|c: Seq<char>| #[trigger] rooms_view(h).dom().contains(c) <==> rooms_view(g).remove(ci).dom().contains(c) by {
        if has_code(h, c) {
            let j = choose|j: int| 0 <= j < h.len() && #[trigger] h[j].0@ == c;
            let j2 = if j < i { j } else { j + 1 };
            assert(g[j2].0@ == c);
            assert(j2 != i);
        }
        if has_code(g, c) && c != ci {
            let j = choose|j: int| 0 <= j < g.len() && #[trigger] g[j].0@ == c;
            assert(j != i);
            let j2 = if j < i { j } else { j - 1 };
            assert(h[j2].0@ == c);
        }
    }
    assert forall|c: Seq<char>| #[trigger] rooms_view(h).dom().contains(c) implies rooms_view(h)[c] == rooms_view(g)[c] by {
        let j = choose|j: int| 0 <= j < h.len() && #[trigger] h[j].0@ == c;
        let j2 = if j < i { j } else { j + 1 };
        assert(h[j] == g[j2]);
        lemma_rooms_at(h, j);
        lemma_rooms_at(g, j2);
    }
    assert(rooms_view(h) =~= rooms_view(g).remove(ci));
}

proof fn lemma_rooms_push(g: Seq<(String, Game)>, e: (String, Game))
    requires
        codes_unique(g),
        !rooms_view(g).dom().contains(e.0@),
    ensures
        codes_unique(g.push(e)),
        rooms_view(g.push(e)) == rooms_view(g).insert(e.0@, e.1@),
{
    let h = g.push(e);
    assert(codes_unique(h)) by {
        assert forall|a: int, b: int| 0 <= a < h.len() && 0 <= b < h.len() && a != b implies #[trigger] h[a].0@
            != #[trigger] h[b].0@ by {
            if a == g.len() {
                assert(h[b] == g[b]);
                assert(!has_code(g, e.0@));
            } else if b == g.len() {
                assert(h[a] == g[a]);
                assert(!has_code(g, e.0@));
            } else {
                assert(h[a] == g[a] && h[b] == g[b]);
            }
        }
    }
    lemma_rooms_at(h, g.len() as int);
    assert forall|c: Seq<char>| #[trigger] rooms_view(h).dom().contains(c) <==> rooms_view(g).insert(e.0@, e.1@).dom().contains(c) by {
        if has_code(h, c) && c != e.0@ {
            let j = choose|j: int| 0 <= j < h.len() && #[trigger] h[j].0@ == c;
            assert(g[j].0@ == c);
        }
        if has_code(g, c) {
            let j = choose|j: int| 0 <= j < g.len() && #[trigger] g[j].0@ == c;
            assert(h[j].0@ == c);
        }
    }
    assert forall|c: Seq<char>| #[trigger] rooms_view(h).dom().contains(c) && c != e.0@ implies rooms_view(h)[c] == rooms_view(g)[c] by {
        let j = choose|j: int| 0 <= j < h.len() && #[trigger] h[j].0@ == c;
        assert(h[j] == g[j]);
        lemma_rooms_at(h, j);
        lemma_rooms_at(g, j);
    }
    assert(rooms_view(h) =~= rooms_view(g).insert(e.0@, e.1@));
}

/// All rooms, keyed by code.
pub struct WsGameServer {
    games: Vec<(String, Game)>,
}

impl View for WsGameServer {
    type V = Map<Seq<char>, GameView>;

    closed spec fn view(&self) -> Map<Seq<char>, GameView> {
        rooms_view(self.games@)
    }
}

pub open spec fn result_view(r: Result<String, String>) -> Result<Seq<char>, Seq<char>> {
    match r {
        Ok(v) => Ok(v@),
        Err(e) => Err(e@),
    }
}

/// The room with no players, no leader and the given map.
pub open spec fn empty_room(m: GameMapView) -> GameView {
    GameView { players: seq![], leader: None, secret: None, map: m, started: false }
}

/// What a join does: the three refusals, or the admission of one player.
pub open spec fn join_outcome(
    s: Map<Seq<char>, GameView>,
    s2: Map<Seq<char>, GameView>,
    code: Seq<char>,
    client: u64,
    r: Result<Seq<char>, Seq<char>>,
    outs: Seq<OutboundView>,
) -> bool {
    if !s.dom().contains(code) {
        r == Err::<Seq<char>, Seq<char>>("code invalid"@) && s2 == s && outs.len() == 0
    } else if s[code].started {
        r == Err::<Seq<char>, Seq<char>>("game is running"@) && s2 == s && outs.len() == 0
    } else if s[code].players.len() == s[code].map.player_cap {
        r == Err::<Seq<char>, Seq<char>>("game is full"@) && s2 == s && outs.len() == 0
    } else {
        &&& s2.dom().contains(code)
        &&& s2 == s.insert(code, s2[code])
        &&& admitted(s[code], s2[code], client)
        &&& r == Ok::<Seq<char>, Seq<char>>(s2[code].players.last().id)
        &&& outs == admission_frames(code, s[code], s2[code])
    }
}

/// What a departure of `pid` from room `code` does; `announce` adds the `PlayerLeftGame`
/// broadcast of an explicit leave.
pub open spec fn departure(
    s: Map<Seq<char>, GameView>,
    s2: Map<Seq<char>, GameView>,
    code: Seq<char>,
    pid: Seq<char>,
    announce: bool,
    outs: Seq<OutboundView>,
) -> bool {
    if !s.dom().contains(code) || !has_player(s[code].players, pid) {
        s2 == s && outs.len() == 0
    } else if without(s[code].players, pid).len() == 0 {
        s2 == s.remove(code) && outs.len() == 0
    } else {
        let g = s[code];
        let rest = without(g.players, pid);
        let g2 = s2[code];
        let announced = if announce {
            fan_out(rest, code, pid, player_left_frame(pid))
        } else {
            seq![]
        };
        &&& s2.dom().contains(code)
        &&& s2 == s.insert(code, g2)
        &&& g2.players == rest
        &&& g2.map == g.map
        &&& g2.started == g.started
        &&& if g.leader == Some(pid) {
            &&& g2.leader == Some(rest[0].id)
            &&& g2.secret matches Some(sec) && valid_secret(sec)
            &&& g2.secret != g.secret
            &&& outs == announced.push(direct(rest[0].client, room_leader_frame(g2.secret->0)))
        } else {
            &&& g2.leader == g.leader
            &&& g2.secret == g.secret
            &&& outs == announced
        }
    }
}

/// The sender leads room `code` and holds its secret.
pub open spec fn authorized(s: Map<Seq<char>, GameView>, code: Seq<char>, sender: Seq<char>, secret: Seq<char>) -> bool {
    &&& s.dom().contains(code)
    &&& s[code].leader == Some(sender)
    &&& s[code].secret == Some(secret)
}

impl WsGameServer {
    /// The registry's invariants: codes unique, every room consistent.
    pub closed spec fn wf(&self) -> bool {
        &&& codes_unique(self.games@)
        &&& forall|i: int| 0 <= i < self.games@.len() ==> room_ok(#[trigger] self.games@[i].1@)
    }

    /// An empty registry.
    pub fn new() -> (r: WsGameServer)
        ensures
            r.wf(),
            r@ == Map::<Seq<char>, GameView>::empty(),
    {
        let r = WsGameServer { games: Vec::new() };
        assert(r@ =~= Map::<Seq<char>, GameView>::empty());
        r
    }

    fn find_room(&self, code: &str) -> (r: Option<usize>)
        requires
            self.wf(),
        ensures
            r matches Some(i) ==> i < self.games@.len() && self.games@[i as int].0@ == code@
                && self@.dom().contains(code@) && self@[code@] == self.games@[i as int].1@,
            r is None ==> !self@.dom().contains(code@),
    {
        let mut i: usize = 0;
        while i < self.games.len()
            invariant
                i <= self.games@.len(),
                codes_unique(self.games@),
                forall|k: int| 0 <= k < i ==> self.games@[k].0@ != code@,
            decreases self.games.len() - i,
        {
            if str_eq(self.games[i].0.as_str(), code) {
                proof {
                    lemma_rooms_at(self.games@, i as int);
                }
                return Some(i);
            }
            i = i + 1;
        }
        assert(!has_code(self.games@, code@));
        None
    }

    /// A random code: five letters drawn uniformly from the code alphabet.
    fn create_code() -> (code: String)
        ensures
            valid_code(code@),
    {
        let mut code = String::new();
        let mut i: usize = 0;
        while i < 5
            invariant
                i <= 5,
                code@.len() == i,
                forall|k: int| 0 <= k < i ==> code_letter(#[trigger] code@[k]),
            decreases 5 - i,
        {
            push_char(&mut code, code_char(random_range(0, 24)));
            i = i + 1;
        }
        code
    }

    /// Takes room `i` out, replaced by `game`, keeping the invariants of every other room.
    proof fn lemma_put_back(old_games: Seq<(String, Game)>, i: int, e: (String, Game), new_games: Seq<(String, Game)>)
        requires
            codes_unique(old_games),
            forall|k: int| 0 <= k < old_games.len() ==> room_ok(#[trigger] old_games[k].1@),
            0 <= i < old_games.len(),
            e.0@ == old_games[i].0@,
            room_ok(e.1@),
            new_games == old_games.remove(i).insert(i, e),
        ensures
            codes_unique(new_games),
            forall|k: int| 0 <= k < new_games.len() ==> room_ok(#[trigger] new_games[k].1@),
            rooms_view(new_games) == rooms_view(old_games).insert(e.0@, e.1@),
    {
        assert(new_games =~= old_games.update(i, e));
        lemma_rooms_update(old_games, i, e);
        assert forall|k: int| 0 <= k < new_games.len() implies room_ok(#[trigger] new_games[k].1@) by {
            if k != i {
                assert(new_games[k] == old_games[k]);
            }
        }
    }

    /// Admits a player to an open room; see `join_outcome` for the refusals.
    pub fn join_game(&mut self, msg: JoinGame) -> (r: (Result<String, String>, Vec<Outbound>))
        requires
            old(self).wf(),
        ensures
            final(self).wf(),
            join_outcome(
                old(self)@,
                final(self)@,
                msg.game_name@,
                msg.player,
                result_view(r.0),
                outs_view(r.1@),
            ),
    {
        match self.find_room(msg.game_name.as_str()) {
            None => (Err("code invalid".to_owned()), Vec::new()),
            Some(i) => {
                if self.games[i].1.started {
                    return (Err("game is running".to_owned()), Vec::new());
                }
                if self.games[i].1.map.player_cap == self.games[i].1.players.len() {
                    return (Err("game is full".to_owned()), Vec::new());
                }
                let ghost old_games = self.games@;
                assert(room_ok(old_games[i as int].1@));
                let (code, mut game) = self.games.remove(i);
                let (id, outs) = add_player_to_game(&mut game, &code, msg.player);
                self.games.insert(i, (code, game));
                proof {
                    Self::lemma_put_back(old_games, i as int, self.games@[i as int], self.games@);
                    lemma_rooms_at(self.games@, i as int);
                }
                (Ok(id), outs)
            },
        }
    }

    /// Creates room `code` with `map` and admits the caller as its leader; refused, with
    /// nothing changed, when `code` is taken.
    pub fn create_game_with_code(&mut self, code: String, map: GameMap, msg: CreateGame) -> (r: (
        Result<(String, String), String>,
        Vec<Outbound>,
    ))
        requires
            old(self).wf(),
            valid_code(code@),
            generated_map(map@),
        ensures
            final(self).wf(),
            !old(self)@.dom().contains(code@) ==> (r.0 matches Ok((id, c)) && c@ == code@ && creation(
                old(self)@,
                final(self)@,
                code@,
                id@,
                msg.player,
                outs_view(r.1@),
            ) && final(self)@[code@].map == map@),
            old(self)@.dom().contains(code@) ==> (r.0 matches Err(e) && e@ == "code in use"@)
                && final(self)@ == old(self)@ && r.1@.len() == 0,
    {
        if self.find_room(code.as_str()).is_some() {
            return (Err("code in use".to_owned()), Vec::new());
        }
        let mut game = Game { players: Vec::new(), leader: None, secret: None, map, started: false };
        assert(game@.players =~= seq![]);
        assert(game@ == empty_room(game.map@));
        let (id, outs) = add_player_to_game(&mut game, &code, msg.player);
        let returned_code = code.clone();
        let ghost old_games = self.games@;
        proof {
            lemma_rooms_push(old_games, (code, game));
        }
        self.games.push((code, game));
        proof {
            assert forall|k: int| 0 <= k < self.games@.len() implies room_ok(#[trigger] self.games@[k].1@) by {
                if k < old_games.len() {
                    assert(self.games@[k] == old_games[k]);
                }
            }
            lemma_rooms_at(self.games@, old_games.len() as int);
        }
        (Ok((id, returned_code)), outs)
    }

    /// Searches the codes that extend `prefix`, in alphabetical order, for one that no room uses.
    fn scan_codes(&self, prefix: &mut Vec<char>) -> (r: Option<String>)
        requires
            self.wf(),
            old(prefix)@.len() <= 5,
            forall|i: int| 0 <= i < old(prefix)@.len() ==> code_letter(#[trigger] old(prefix)@[i]),
        ensures
            final(prefix)@ == old(prefix)@,
            r matches Some(c) ==> valid_code(c@) && !self@.dom().contains(c@),
            r is None ==> forall|c: Seq<char>|
                valid_code(c) && c.take(old(prefix)@.len() as int) == old(prefix)@ ==> #[trigger] self@.dom().contains(c),
        decreases 5 - old(prefix)@.len(),
    {
        let ghost p0 = prefix@;
        let n = prefix.len();
        if n == 5 {
            let code = string_of(prefix, 0, 5);
            assert(prefix@.subrange(0, 5) == prefix@);
            if self.find_room(code.as_str()).is_none() {
                return Some(code);
            }
            assert forall|c: Seq<char>| valid_code(c) && c.take(5) == p0 implies #[trigger] self@.dom().contains(c) by {
                assert(c.take(5) == c);
            }
            return None;
        }
        let mut i: usize = 0;
        while i < 24
            invariant
                i <= 24,
                self.wf(),
                n < 5,
                n == p0.len(),
                p0 == old(prefix)@,
                prefix@ == p0,
                forall|k: int| 0 <= k < p0.len() ==> code_letter(#[trigger] p0[k]),
                forall|j: int, c: Seq<char>|
                    #![trigger self@.dom().contains(c), code_alphabet()[j]]
                    0 <= j < i && valid_code(c) && c.take(n + 1) == p0.push(code_alphabet()[j])
                        ==> self@.dom().contains(c),
            decreases 24 - i,
        {
            let letter = code_char(i);
            prefix.push(letter);
            let ghost pushed = prefix@;
            assert(forall|k: int| 0 <= k < pushed.len() ==> code_letter(#[trigger] pushed[k]));
            let r = self.scan_codes(prefix);
            prefix.pop();
            assert(prefix@ =~= p0);
            if r.is_some() {
                return r;
            }
            assert(pushed == p0.push(code_alphabet()[i as int]));
            i = i + 1;
        }
        assert forall|c: Seq<char>| valid_code(c) && c.take(n as int) == p0 implies #[trigger] self@.dom().contains(c) by {
            lemma_code_letter_in_alphabet(c[n as int]);
            let j = choose|j: int| 0 <= j < 24 && #[trigger] code_alphabet()[j] == c[n as int];
            assert(c.take(n + 1) =~= p0.push(code_alphabet()[j]));
        }
        None
    }

    /// Creates a room with a fresh code and a new map, and admits the caller as its leader.
    /// Codes are drawn at random, again while a drawn code is taken, up to `MAX_DRAWS` times;
    /// then the codes are searched in order. It fails only when every code is taken.
    pub fn create_game(&mut self, msg: CreateGame) -> (r: (Result<(String, String), String>, Vec<Outbound>))
        requires
            old(self).wf(),
        ensures
            final(self).wf(),
            r.0 is Ok <==> exists|c: Seq<char>| valid_code(c) && !old(self)@.dom().contains(c),
            old(self)@.dom() =~= Set::<Seq<char>>::empty() ==> r.0 is Ok,
            match r.0 {
                Ok((id, code)) => creation(old(self)@, final(self)@, code@, id@, msg.player, outs_view(r.1@)),
                Err(e) => e@ == "no free code"@ && final(self)@ == old(self)@ && r.1@.len() == 0,
            },
    {
        proof {
            let a = seq!['A', 'A', 'A', 'A', 'A'];
            assert(valid_code(a));
            if self@.dom() =~= Set::<Seq<char>>::empty() {
                assert(!self@.dom().contains(a));
            }
        }
        let mut draws: usize = 0;
        while draws < MAX_DRAWS
            invariant
                self.wf(),
                self@ == old(self)@,
            decreases MAX_DRAWS - draws,
        {
            let code = Self::create_code();
            if self.find_room(code.as_str()).is_none() {
                return self.create_game_with_code(code, GameMap::create_random(), msg);
            }
            draws = draws + 1;
        }
        let mut prefix: Vec<char> = Vec::new();
        match self.scan_codes(&mut prefix) {
            Some(code) => self.create_game_with_code(code, GameMap::create_random(), msg),
            None => {
                assert forall|c: Seq<char>| valid_code(c) implies #[trigger] self@.dom().contains(c) by {
                    assert(c.take(0) =~= prefix@);
                }
                (Err("no free code".to_owned()), Vec::new())
            },
        }
    }

    /// Removes `pid` from room `code`: hands leadership on, or closes the room when it empties.
    fn depart(&mut self, code: &str, pid: &String, announce: bool) -> (outs: Vec<Outbound>)
        requires
            old(self).wf(),
        ensures
            final(self).wf(),
            departure(old(self)@, final(self)@, code@, pid@, announce, outs_view(outs@)),
    {
        let i = match self.find_room(code) {
            None => return Vec::new(),
            Some(i) => i,
        };
        if !has_id(&self.games[i].1.players, pid.as_str()) {
            return Vec::new();
        }
        let ghost old_games = self.games@;
        let ghost g = old_games[i as int].1@;
        let (c, mut game) = self.games.remove(i);
        let rest = players_without(&game.players, pid.as_str());
        proof {
            lemma_without_members(g.players, pid@);
            lemma_without_distinct(g.players, pid@);
        }
        if rest.len() == 0 {
            proof {
                lemma_rooms_remove(old_games, i as int);
                assert forall|k: int| 0 <= k < self.games@.len() implies room_ok(#[trigger] self.games@[k].1@) by {
                    let m = choose|m: int| 0 <= m < old_games.len() && #[trigger] old_games.remove(i as int)[k] == old_games[m];
                    assert(room_ok(old_games[m].1@));
                }
            }
            return Vec::new();
        }
        let was_leader = match &game.leader {
            Some(l) => str_eq(l.as_str(), pid.as_str()),
            None => false,
        };
        game.players = rest;
        let mut outs: Vec<Outbound> = Vec::new();
        assert(outs_view(outs@) =~= seq![]);
        if announce {
            let text = PlayerLeftGameEvent { player_id: pid.clone() }.to_message();
            push_fan_out(&mut outs, &game.players, &c, pid.as_str(), &text);
        }
        let ghost announced = outs_view(outs@);
        if was_leader {
            let o = make_player_leader(&mut game, 0);
            proof {
                lemma_outs_push(outs@, o);
            }
            outs.push(o);
        }
        proof {
            let g2 = game@;
            if was_leader {
                assert(ids(g2.players)[0] == g2.players[0].id);
            } else if let Some(l) = g.leader {
                let j = choose|j: int| 0 <= j < ids(g.players).len() && ids(g.players)[j] == l;
                let q = g.players[j];
                assert(g.players.contains(q));
                let k = choose|k: int| 0 <= k < g2.players.len() && g2.players[k] == q;
                assert(ids(g2.players)[k] == l);
            }
            assert(room_ok(g2));
        }
        self.games.insert(i, (c, game));
        proof {
            Self::lemma_put_back(old_games, i as int, self.games@[i as int], self.games@);
            lemma_rooms_at(old_games, i as int);
            lemma_rooms_at(self.games@, i as int);
        }
        outs
    }

    /// An explicit leave: the rest of the room hears `PlayerLeftGame`, then a new leader
    /// is elected if the leader left; the last player out closes the room.
    pub fn leave_game(&mut self, msg: LeaveGame) -> (outs: Vec<Outbound>)
        requires
            old(self).wf(),
        ensures
            final(self).wf(),
            departure(old(self)@, final(self)@, msg.game_name@, msg.player_id@, true, outs_view(outs@)),
    {
        self.depart(msg.game_name.as_str(), &msg.player_id, true)
    }

    /// A player whose connection failed a broadcast is dropped without announcement.
    pub fn drop_unreachable(&mut self, game_name: &String, player_id: &String) -> (outs: Vec<Outbound>)
        requires
            old(self).wf(),
        ensures
            final(self).wf(),
            departure(old(self)@, final(self)@, game_name@, player_id@, false, outs_view(outs@)),
    {
        self.depart(game_name.as_str(), player_id, false)
    }

    fn is_authorized(&self, i: usize, sender: &str, secret: &str) -> (r: bool)
        requires
            self.wf(),
            i < self.games@.len(),
        ensures
            r == (self.games@[i as int].1@.leader == Some(sender@)
                && self.games@[i as int].1@.secret == Some(secret@)),
    {
        let g = &self.games[i].1;
        match (&g.leader, &g.secret) {
            (Some(l), Some(s)) => str_eq(l.as_str(), sender) && str_eq(s.as_str(), secret),
            _ => false,
        }
    }

    /// Broadcasts the leader's state to the rest of the room; dropped silently unless the
    /// sender leads the room and holds its secret.
    pub fn game_state(&self, msg: GameState) -> (outs: Vec<Outbound>)
        requires
            self.wf(),
        ensures
            authorized(self@, msg.game_name@, msg.sender_id@, msg.secret@) ==> outs_view(outs@) == fan_out(
                self@[msg.game_name@].players,
                msg.game_name@,
                msg.sender_id@,
                game_state_frame(msg.payload@),
            ),
            !authorized(self@, msg.game_name@, msg.sender_id@, msg.secret@) ==> outs@.len() == 0,
    {
        let mut outs: Vec<Outbound> = Vec::new();
        assert(outs_view(outs@) =~= seq![]);
        if let Some(i) = self.find_room(msg.game_name.as_str()) {
            if self.is_authorized(i, msg.sender_id.as_str(), msg.secret.as_str()) {
                let text = GameStateEvent { payload: msg.payload }.to_message();
                push_fan_out(&mut outs, &self.games[i].1.players, &self.games[i].0, msg.sender_id.as_str(), &text);
            }
        }
        outs
    }

    /// Marks the room started and tells the rest of the room; the same authentication as
    /// `game_state`.
    pub fn start_game(&mut self, msg: StartGame) -> (outs: Vec<Outbound>)
        requires
            old(self).wf(),
        ensures
            final(self).wf(),
            authorized(old(self)@, msg.game_name@, msg.sender_id@, msg.secret@) ==> {
                let g = old(self)@[msg.game_name@];
                &&& final(self)@ == old(self)@.insert(msg.game_name@, GameView { started: true, ..g })
                &&& outs_view(outs@) == fan_out(g.players, msg.game_name@, msg.sender_id@, "Event StartGame:{}"@)
            },
            !authorized(old(self)@, msg.game_name@, msg.sender_id@, msg.secret@) ==> final(self)@ == old(self)@
                && outs@.len() == 0,
    {
        let mut outs: Vec<Outbound> = Vec::new();
        assert(outs_view(outs@) =~= seq![]);
        let i = match self.find_room(msg.game_name.as_str()) {
            None => return outs,
            Some(i) => i,
        };
        if !self.is_authorized(i, msg.sender_id.as_str(), msg.secret.as_str()) {
            return outs;
        }
        let ghost old_games = self.games@;
        let (c, mut game) = self.games.remove(i);
        game.started = true;
        let text = "Event StartGame:{}".to_owned();
        push_fan_out(&mut outs, &game.players, &c, msg.sender_id.as_str(), &text);
        self.games.insert(i, (c, game));
        proof {
            Self::lemma_put_back(old_games, i as int, self.games@[i as int], self.games@);
            lemma_rooms_at(old_games, i as int);
            assert(self.games@[i as int].1@ == (GameView { started: true, ..old_games[i as int].1@ }));
        }
        outs
    }

    /// Best-effort text for every other player of the room.
    pub fn game_message(&self, msg: GameMessage) -> (outs: Vec<Outbound>)
        requires
            self.wf(),
        ensures
            self@.dom().contains(msg.game_name@) ==> outs_view(outs@) == fan_out(
                self@[msg.game_name@].players,
                msg.game_name@,
                msg.sender_id@,
                msg.message@,
            ),
            !self@.dom().contains(msg.game_name@) ==> outs@.len() == 0,
    {
        let mut outs: Vec<Outbound> = Vec::new();
        assert(outs_view(outs@) =~= seq![]);
        if let Some(i) = self.find_room(msg.game_name.as_str()) {
            push_fan_out(&mut outs, &self.games[i].1.players, &self.games[i].0, msg.sender_id.as_str(), &msg.message);
        }
        outs
    }

    /// The codes of all rooms, each once.
    pub fn list_games(&self, msg: ListGames) -> (r: Vec<String>)
        requires
            self.wf(),
        ensures
            codes_view(r@).no_duplicates(),
            forall|c: Seq<char>| self@.dom().contains(c) <==> #[trigger] codes_view(r@).contains(c),
    {
        let mut r: Vec<String> = Vec::new();
        let mut i: usize = 0;
        while i < self.games.len()
            invariant
                i <= self.games@.len(),
                codes_unique(self.games@),
                r@.len() == i,
                forall|k: int| 0 <= k < i ==> #[trigger] r@[k]@ == self.games@[k].0@,
            decreases self.games.len() - i,
        {
            r.push(self.games[i].0.clone());
            i = i + 1;
        }
        proof {
            let cv = codes_view(r@);
            assert forall|a: int, b: int| 0 <= a < cv.len() && 0 <= b < cv.len() && a != b implies cv[a] != cv[b] by {
                assert(cv[a] == self.games@[a].0@ && cv[b] == self.games@[b].0@);
            }
            assert forall|c: Seq<char>| self@.dom().contains(c) <==> #[trigger] cv.contains(c) by {
                if has_code(self.games@, c) {
                    let j = choose|j: int| 0 <= j < self.games@.len() && #[trigger] self.games@[j].0@ == c;
                    assert(cv[j] == c);
                }
                if cv.contains(c) {
                    let j = choose|j: int| 0 <= j < cv.len() && cv[j] == c;
                    assert(self.games@[j].0@ == c);
                }
            }
        }
        r
    }
}

pub open spec fn codes_view(v: Seq<String>) -> Seq<Seq<char>> {
    v.map_values(|s: String| s@)
}

/// What a create does: a fresh, well-formed code and a new room whose only player leads it.
pub open spec fn creation(
    s: Map<Seq<char>, GameView>,
    s2: Map<Seq<char>, GameView>,
    code: Seq<char>,
    id: Seq<char>,
    client: u64,
    outs: Seq<OutboundView>,
) -> bool {
    &&& !s.dom().contains(code)
    &&& valid_code(code)
    &&& s2.dom().contains(code)
    &&& s2 == s.insert(code, s2[code])
    &&& generated_map(s2[code].map)
    &&& admitted(empty_room(s2[code].map), s2[code], client)
    &&& s2[code].players.last().id == id
    &&& outs == admission_frames(code, empty_room(s2[code].map), s2[code])
}

/// Every room of a registry satisfies the room invariants: it has players, ids and types are
/// pairwise distinct, and a leader is set exactly when a secret is, and is one of the players.
pub proof fn lemma_rooms_consistent(s: &WsGameServer)
    requires
        s.wf(),
    ensures
        forall|c: Seq<char>| #[trigger] s@.dom().contains(c) ==> room_ok(s@[c]),
{
    assert forall|c: Seq<char>| #[trigger] s@.dom().contains(c) implies room_ok(s@[c]) by {
        let j = choose|j: int| 0 <= j < s.games@.len() && #[trigger] s.games@[j].0@ == c;
        lemma_rooms_at(s.games@, j);
    }
}


/// A created room admits a second player with a different id; the newcomer first hears of
/// the creator (one `PlayerJoinedGame`), then its own acknowledgement for the same code.
pub proof fn lemma_create_then_join(
    s0: Map<Seq<char>, GameView>,
    s1: Map<Seq<char>, GameView>,
    s2: Map<Seq<char>, GameView>,
    code: Seq<char>,
    id1: Seq<char>,
    c1: u64,
    outs1: Seq<OutboundView>,
    c2: u64,
    r2: Result<Seq<char>, Seq<char>>,
    outs2: Seq<OutboundView>,
)
    requires
        creation(s0, s1, code, id1, c1, outs1),
        join_outcome(s1, s2, code, c2, r2, outs2),
    ensures
        r2 matches Ok(id2) && id2 != id1,
        s2.dom().contains(code),
        s2[code].players.len() == 2,
        outs2.len() >= 2,
        outs2[0] == direct(
            c2,
            player_joined_frame(id1, s1[code].players[0].player_type, s1[code].players[0].spawn),
        ),
        outs2[1] == direct(
            c2,
            joined_game_frame(
                true,
                None,
                Some(code),
                Some(s2[code].players[1].player_type),
                Some(s2[code].players[1].spawn),
            ),
        ),
{
    let g1 = s1[code];
    assert(g1.players == seq![g1.players.last()]);
    assert(g1.players[0].id == id1);
    assert(ids(g1.players) =~= seq![id1]);
    let g2 = s2[code];
    assert(roster(g1.players, c2) =~= seq![
        direct(c2, player_joined_frame(id1, g1.players[0].player_type, g1.players[0].spawn)),
    ]);
    assert(ids(g1.players)[0] == id1);
}

/// The room `code` in state `s` is absent, or has players whose ids all lie in `pids`.
pub open spec fn members_among(s: Map<Seq<char>, GameView>, code: Seq<char>, pids: Seq<Seq<char>>) -> bool {
    s.dom().contains(code) ==> {
        &&& s[code].players.len() > 0
        &&& forall|j: int| 0 <= j < s[code].players.len() ==> pids.contains(#[trigger] s[code].players[j].id)
    }
}

proof fn lemma_join_phase(
    states: Seq<Map<Seq<char>, GameView>>,
    code: Seq<char>,
    pids: Seq<Seq<char>>,
    clients: Seq<u64>,
    outs: Seq<Seq<OutboundView>>,
    k: int,
)
    requires
        1 <= k <= pids.len(),
        states.len() > pids.len(),
        clients.len() == pids.len(),
        outs.len() >= pids.len(),
        creation(states[0], states[1], code, pids[0], clients[0], outs[0]),
        forall|j: int|
            1 <= j < pids.len() ==> join_outcome(
                #[trigger] states[j],
                states[j + 1],
                code,
                clients[j],
                Ok(pids[j]),
                outs[j],
            ),
    ensures
        states[k].dom().contains(code),
        members_among(states[k], code, pids.take(k)),
    decreases k,
{
    if k == 1 {
        let g = states[1][code];
        assert(g.players == seq![g.players.last()]);
        assert(pids.take(1)[0] == pids[0]);
    } else {
        lemma_join_phase(states, code, pids, clients, outs, k - 1);
        let j = k - 1;
        assert(join_outcome(states[j], states[j + 1], code, clients[j], Ok(pids[j]), outs[j]));
        let g = states[j][code];
        let g2 = states[k][code];
        assert forall|m: int| 0 <= m < g2.players.len() implies pids.take(k).contains(#[trigger] g2.players[m].id) by {
            if m < g.players.len() {
                assert(g2.players[m] == g.players[m]);
                let x = choose|x: int| 0 <= x < pids.take(j).len() && pids.take(j)[x] == g.players[m].id;
                assert(pids.take(k)[x] == pids.take(j)[x]);
            } else {
                assert(pids.take(k)[j] == pids[j]);
            }
        }
    }
}

/// The room `code` in `s` is absent, or has players, each of them in `pids` and not in `left`.
pub open spec fn members_remaining(
    s: Map<Seq<char>, GameView>,
    code: Seq<char>,
    pids: Seq<Seq<char>>,
    left: Seq<Seq<char>>,
) -> bool {
    s.dom().contains(code) ==> {
        &&& s[code].players.len() > 0
        &&& forall|j: int|
            0 <= j < s[code].players.len() ==> pids.contains(#[trigger] s[code].players[j].id)
                && !left.contains(s[code].players[j].id)
    }
}

proof fn lemma_leave_phase(
    states: Seq<Map<Seq<char>, GameView>>,
    code: Seq<char>,
    pids: Seq<Seq<char>>,
    leaves: Seq<Seq<char>>,
    outs: Seq<Seq<OutboundView>>,
    k: int,
)
    requires
        0 <= k <= leaves.len(),
        states.len() == pids.len() + leaves.len() + 1,
        outs.len() == pids.len() + leaves.len(),
        members_among(states[pids.len() as int], code, pids),
        forall|j: int|
            0 <= j < leaves.len() ==> departure(
                #[trigger] states[pids.len() + j],
                states[pids.len() + j + 1],
                code,
                leaves[j],
                true,
                outs[pids.len() + j],
            ),
    ensures
        members_remaining(states[pids.len() + k], code, pids, leaves.take(k)),
    decreases k,
{
    let n = pids.len() as int;
    if k == 0 {
        assert(leaves.take(0) =~= Seq::<Seq<char>>::empty());
    } else {
        let j = k - 1;
        lemma_leave_phase(states, code, pids, leaves, outs, j);
        let s = states[n + j];
        let s2 = states[n + k];
        let pid = leaves[j];
        assert(departure(s, s2, code, pid, true, outs[n + j]));
        assert(leaves.take(k) == leaves.take(j).push(pid));
        if s2.dom().contains(code) {
            assert(s.dom().contains(code));
            let g = s[code];
            let g2 = s2[code];
            assert forall|m: int| 0 <= m < g2.players.len() implies pids.contains(#[trigger] g2.players[m].id)
                && !leaves.take(k).contains(g2.players[m].id) by {
                let q = g2.players[m];
                if has_player(g.players, pid) {
                    lemma_without_members(g.players, pid);
                    assert(g2.players == without(g.players, pid));
                    assert(g.players.contains(without(g.players, pid)[m]));
                    assert(without(g.players, pid)[m].id != pid);
                } else {
                    assert(g2 == g);
                    assert(g.players[m] == q);
                    if q.id == pid {
                        assert(ids(g.players)[m] == pid);
                    }
                }
                assert(g.players.contains(q) && q.id != pid);
                let y = choose|y: int| 0 <= y < g.players.len() && g.players[y] == q;
                assert(pids.contains(g.players[y].id) && !leaves.take(j).contains(g.players[y].id));
                if leaves.take(k).contains(q.id) {
                    let x = choose|x: int| 0 <= x < leaves.take(k).len() && leaves.take(k)[x] == q.id;
                    if x < j {
                        assert(leaves.take(j)[x] == q.id);
                    }
                }
            }
        }
    }
}

/// A room joined by `n` players (its creator first) and then left by all of them, in any
/// order and among any other leaves, no longer exists, so `list_games` no longer names it.
pub proof fn lemma_all_leave_closes_room(
    states: Seq<Map<Seq<char>, GameView>>,
    code: Seq<char>,
    pids: Seq<Seq<char>>,
    clients: Seq<u64>,
    leaves: Seq<Seq<char>>,
    outs: Seq<Seq<OutboundView>>,
)
    requires
        pids.len() >= 1,
        states.len() == pids.len() + leaves.len() + 1,
        outs.len() == pids.len() + leaves.len(),
        clients.len() == pids.len(),
        creation(states[0], states[1], code, pids[0], clients[0], outs[0]),
        forall|j: int|
            1 <= j < pids.len() ==> join_outcome(
                #[trigger] states[j],
                states[j + 1],
                code,
                clients[j],
                Ok(pids[j]),
                outs[j],
            ),
        forall|i: int| 0 <= i < pids.len() ==> leaves.contains(#[trigger] pids[i]),
        forall|j: int|
            0 <= j < leaves.len() ==> departure(
                #[trigger] states[pids.len() + j],
                states[pids.len() + j + 1],
                code,
                leaves[j],
                true,
                outs[pids.len() + j],
            ),
    ensures
        !states[pids.len() + leaves.len() as int].dom().contains(code),
{
    let n = pids.len() as int;
    lemma_join_phase(states, code, pids, clients, outs, n);
    assert(pids.take(n) == pids);
    lemma_leave_phase(states, code, pids, leaves, outs, leaves.len() as int);
    assert(leaves.take(leaves.len() as int) == leaves);
    let last = states[n + leaves.len()];
    if last.dom().contains(code) {
        let id = last[code].players[0].id;
        assert(pids.contains(id));
        let i = choose|i: int| 0 <= i < pids.len() && pids[i] == id;
        assert(leaves.contains(pids[i]));
    }
}

} // verus!
