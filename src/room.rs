//! One room: its players, the room invariants, and the operations on a single room
//! (admitting a player, electing a leader, removing a player, broadcasting a frame).
use vstd::prelude::*;

use crate::events::{
    all_player_types, joined_game_frame, player_joined_frame, room_leader_frame, set_map_frame,
    JoinedGame, MultiplayerEvent, PlayerJoinedGameEvent, PlayerType, RoomLeaderEvent,
    SetMapGameEvent,
};
use crate::game_objects::{Coordinates, GameMap, GameMapView};
use crate::json::str_eq;
use crate::map::{generated_map, spawn_for};
use crate::message::Message;
use crate::random::{is_ascii_alphanumeric, random_alphanumeric, random_range, random_usize};
use crate::text::{chars_of, decimal, decimal_string, push_char, string_of};

verus! {

/// How many random draws a rejection sampler makes before it falls back to a scan.
pub const MAX_DRAWS: usize = 256;

/// A member of a room: its id, its connection, its colour and its spawn point.
pub struct Player {
    pub id: String,
    pub client: u64,
    pub player_type: PlayerType,
    pub spawn: Coordinates,
}

pub struct PlayerView {
    pub id: Seq<char>,
    pub client: u64,
    pub player_type: PlayerType,
    pub spawn: Coordinates,
}

impl View for Player {
    type V = PlayerView;

    open spec fn view(&self) -> PlayerView {
        PlayerView {
            id: self.id@,
            client: self.client,
            player_type: self.player_type,
            spawn: self.spawn,
        }
    }
}

/// A room: its players in join order, the leader and its secret, the map, and whether the
/// game has started.
pub struct Game {
    pub players: Vec<Player>,
    pub leader: Option<String>,
    pub secret: Option<String>,
    pub map: GameMap,
    pub started: bool,
}

pub struct GameView {
    pub players: Seq<PlayerView>,
    pub leader: Option<Seq<char>>,
    pub secret: Option<Seq<char>>,
    pub map: GameMapView,
    pub started: bool,
}

pub open spec fn opt_view(o: Option<String>) -> Option<Seq<char>> {
    match o {
        Some(s) => Some(s@),
        None => None,
    }
}

pub open spec fn players_view(ps: Seq<Player>) -> Seq<PlayerView> {
    ps.map_values(|p: Player| p@)
}

impl View for Game {
    type V = GameView;

    open spec fn view(&self) -> GameView {
        GameView {
            players: players_view(self.players@),
            leader: opt_view(self.leader),
            secret: opt_view(self.secret),
            map: self.map@,
            started: self.started,
        }
    }
}

/// A frame for one connection; `evict` names the room and player to drop if it cannot be sent.
pub struct Outbound {
    pub client: u64,
    pub message: Message,
    pub evict: Option<(String, String)>,
}

pub struct OutboundView {
    pub client: u64,
    pub text: Seq<char>,
    pub evict: Option<(Seq<char>, Seq<char>)>,
}

impl View for Outbound {
    type V = OutboundView;

    open spec fn view(&self) -> OutboundView {
        OutboundView {
            client: self.client,
            text: self.message.0@,
            evict: match self.evict {
                Some(e) => Some((e.0@, e.1@)),
                None => None,
            },
        }
    }
}

pub open spec fn outs_view(v: Seq<Outbound>) -> Seq<OutboundView> {
    v.map_values(|o: Outbound| o@)
}

// ---- the model of a room ----

pub open spec fn ids(ps: Seq<PlayerView>) -> Seq<Seq<char>> {
    ps.map_values(|p: PlayerView| p.id)
}

pub open spec fn types(ps: Seq<PlayerView>) -> Seq<PlayerType> {
    ps.map_values(|p: PlayerView| p.player_type)
}

pub open spec fn has_player(ps: Seq<PlayerView>, id: Seq<char>) -> bool {
    ids(ps).contains(id)
}

/// A leader's secret: ten characters of `[A-Za-z0-9]`.
pub open spec fn valid_secret(s: Seq<char>) -> bool {
    &&& s.len() == 10
    &&& forall|i: int| 0 <= i < s.len() ==> is_ascii_alphanumeric(#[trigger] s[i])
}

/// A player id: the decimal numeral of a machine word.
pub open spec fn is_numeral(s: Seq<char>) -> bool {
    exists|n: nat| n <= usize::MAX && s == decimal(n)
}

/// The invariants of a room between registry operations: a generated map, at least one and
/// at most `player_cap` players, distinct ids and types, and a leader that is a player and
/// is set exactly when a secret is.
pub open spec fn room_ok(g: GameView) -> bool {
    &&& generated_map(g.map)
    &&& g.players.len() > 0
    &&& g.players.len() <= g.map.player_cap <= 10
    &&& ids(g.players).no_duplicates()
    &&& types(g.players).no_duplicates()
    &&& (g.leader is Some <==> g.secret is Some)
    &&& (g.leader matches Some(l) ==> has_player(g.players, l))
}

/// The players other than the one with id `id`, in order.
pub open spec fn without(ps: Seq<PlayerView>, id: Seq<char>) -> Seq<PlayerView>
    decreases ps.len(),
{
    if ps.len() == 0 {
        seq![]
    } else if ps.last().id == id {
        without(ps.drop_last(), id)
    } else {
        without(ps.drop_last(), id).push(ps.last())
    }
}

// ---- the frames of the operations ----

pub open spec fn direct(client: u64, text: Seq<char>) -> OutboundView {
    OutboundView { client, text, evict: None }
}

/// `text` for every player but `src`, in order; each delivery evicts its recipient on failure.
pub open spec fn fan_out(ps: Seq<PlayerView>, code: Seq<char>, src: Seq<char>, text: Seq<char>) -> Seq<
    OutboundView,
>
    decreases ps.len(),
{
    if ps.len() == 0 {
        seq![]
    } else if ps.last().id == src {
        fan_out(ps.drop_last(), code, src, text)
    } else {
        fan_out(ps.drop_last(), code, src, text).push(
            OutboundView { client: ps.last().client, text, evict: Some((code, ps.last().id)) },
        )
    }
}

/// One `PlayerJoinedGame` per present player, for a newcomer.
pub open spec fn roster(ps: Seq<PlayerView>, client: u64) -> Seq<OutboundView> {
    ps.map_values(|p: PlayerView| direct(client, player_joined_frame(p.id, p.player_type, p.spawn)))
}

/// What a newcomer and the room receive when `g` admits the last player of `g2`.
pub open spec fn admission_frames(code: Seq<char>, g: GameView, g2: GameView) -> Seq<OutboundView> {
    let p = g2.players.last();
    roster(g.players, p.client) + seq![
        direct(
            p.client,
            joined_game_frame(true, None, Some(code), Some(p.player_type), Some(p.spawn)),
        ),
        direct(p.client, set_map_frame(g.map)),
    ] + (if g.leader is None {
        seq![direct(p.client, room_leader_frame(g2.secret->0))]
    } else {
        seq![]
    }) + fan_out(g2.players, code, p.id, player_joined_frame(p.id, p.player_type, p.spawn))
}

/// `g2` is `g` with one more player, admitted by the rules of a join.
pub open spec fn admitted(g: GameView, g2: GameView, client: u64) -> bool {
    let p = g2.players.last();
    &&& g2.players == g.players.push(p)
    &&& p.client == client
    &&& p.spawn == spawn_for(g.map.spawns, g.players.len() as int)
    &&& is_numeral(p.id)
    &&& !ids(g.players).contains(p.id)
    &&& !types(g.players).contains(p.player_type)
    &&& g2.map == g.map
    &&& g2.started == g.started
    &&& (g.leader is Some ==> g2.leader == g.leader && g2.secret == g.secret)
    &&& (g.leader is None ==> g2.leader == Some(p.id) && (g2.secret matches Some(s) && valid_secret(s)))
}

// ---- lemmas ----

/// Fewer used values than distinct candidates leave some candidate unused.
pub(crate) proof fn lemma_free_candidate<A>(used: Seq<A>, cands: Seq<A>)
    requires
        cands.no_duplicates(),
        used.len() < cands.len(),
    ensures
        exists|i: int| 0 <= i < cands.len() && !used.contains(#[trigger] cands[i]),
{
    if forall|i: int| 0 <= i < cands.len() ==> used.contains(#[trigger] cands[i]) {
        assert(cands.to_set().subset_of(used.to_set())) by {
            assert forall|a: A| cands.to_set().contains(a) implies used.to_set().contains(a) by {
                let i = choose|i: int| 0 <= i < cands.len() && cands[i] == a;
                assert(used.contains(cands[i]));
            }
        }
        used.lemma_cardinality_of_set();
        cands.unique_seq_to_set();
        vstd::seq_lib::seq_to_set_is_finite(used);
        vstd::set_lib::lemma_len_subset(cands.to_set(), used.to_set());
    }
}

pub(crate) proof fn lemma_fan_out_push(ps: Seq<PlayerView>, p: PlayerView, code: Seq<char>, src: Seq<char>, text: Seq<char>)
    ensures
        fan_out(ps.push(p), code, src, text) == if p.id == src {
            fan_out(ps, code, src, text)
        } else {
            fan_out(ps, code, src, text).push(
                OutboundView { client: p.client, text, evict: Some((code, p.id)) },
            )
        },
{
    assert(ps.push(p).drop_last() == ps);
}

pub(crate) proof fn lemma_without_push(ps: Seq<PlayerView>, p: PlayerView, id: Seq<char>)
    ensures
        without(ps.push(p), id) == if p.id == id {
            without(ps, id)
        } else {
            without(ps, id).push(p)
        },
{
    assert(ps.push(p).drop_last() == ps);
}

/// Every player kept by `without` is a player of the room, and no kept player has that id.
pub(crate) proof fn lemma_without_members(ps: Seq<PlayerView>, id: Seq<char>)
    ensures
        without(ps, id).len() <= ps.len(),
        forall|k: int| 0 <= k < without(ps, id).len() ==> ps.contains(#[trigger] without(ps, id)[k]),
        forall|k: int| 0 <= k < without(ps, id).len() ==> (#[trigger] without(ps, id)[k]).id != id,
        forall|q: PlayerView| ps.contains(q) && q.id != id ==> without(ps, id).contains(q),
    decreases ps.len(),
{
    if ps.len() > 0 {
        let init = ps.drop_last();
        lemma_without_members(init, id);
        assert(ps == init.push(ps.last()));
        assert forall|k: int| 0 <= k < without(ps, id).len() implies ps.contains(
            #[trigger] without(ps, id)[k],
        ) by {
            if k < without(init, id).len() {
                let j = choose|j: int| 0 <= j < init.len() && init[j] == without(init, id)[k];
                assert(ps[j] == init[j]);
            } else {
                assert(ps[ps.len() - 1] == ps.last());
            }
        }
        assert forall|q: PlayerView| ps.contains(q) && q.id != id implies without(ps, id).contains(q) by {
            let j = choose|j: int| 0 <= j < ps.len() && ps[j] == q;
            if j < ps.len() - 1 {
                assert(init[j] == q);
                assert(init.contains(q));
                let k = choose|k: int| 0 <= k < without(init, id).len() && without(init, id)[k] == q;
                if ps.last().id == id {
                    assert(without(ps, id) == without(init, id));
                } else {
                    assert(without(ps, id) == without(init, id).push(ps.last()));
                }
                assert(without(ps, id)[k] == q);
            } else {
                assert(without(ps, id).last() == q);
            }
        }
    }
}

/// Removing a player keeps ids and types pairwise distinct.
pub(crate) proof fn lemma_without_distinct(ps: Seq<PlayerView>, id: Seq<char>)
    requires
        ids(ps).no_duplicates(),
        types(ps).no_duplicates(),
    ensures
        ids(without(ps, id)).no_duplicates(),
        types(without(ps, id)).no_duplicates(),
    decreases ps.len(),
{
    if ps.len() > 0 {
        let init = ps.drop_last();
        let last = ps.last();
        assert(ids(init) == ids(ps).drop_last());
        assert(types(init) == types(ps).drop_last());
        lemma_without_distinct(init, id);
        lemma_without_members(init, id);
        if last.id != id {
            let w = without(init, id);
            let w2 = w.push(last);
            assert forall|i: int, j: int|
                0 <= i < w2.len() && 0 <= j < w2.len() && i != j implies ids(w2)[i] != ids(w2)[j]
                && types(w2)[i] != types(w2)[j] by {
                if i < w.len() && j < w.len() {
                    assert(ids(w)[i] == ids(w2)[i] && ids(w)[j] == ids(w2)[j]);
                    assert(types(w)[i] == types(w2)[i] && types(w)[j] == types(w2)[j]);
                } else {
                    let k = if i < w.len() { i } else { j };
                    assert(init.contains(w[k]));
                    let m = choose|m: int| 0 <= m < init.len() && init[m] == w[k];
                    assert(ids(ps)[m] != ids(ps)[ps.len() - 1]);
                    assert(types(ps)[m] != types(ps)[ps.len() - 1]);
                }
            }
        }
    }
}

// ---- room operations ----

pub(crate) fn has_id(players: &Vec<Player>, id: &str) -> (r: bool)
    ensures
        r == ids(players_view(players@)).contains(id@),
{
    let ghost ps = players_view(players@);
    let mut i: usize = 0;
    while i < players.len()
        invariant
            i <= players.len(),
            ps == players_view(players@),
            forall|k: int| 0 <= k < i ==> ps[k].id != id@,
        decreases players.len() - i,
    {
        if str_eq(players[i].id.as_str(), id) {
            assert(ids(ps)[i as int] == id@);
            return true;
        }
        i = i + 1;
    }
    assert(!ids(ps).contains(id@)) by {
        if ids(ps).contains(id@) {
            let k = choose|k: int| 0 <= k < ids(ps).len() && ids(ps)[k] == id@;
            assert(ps[k].id == id@);
        }
    }
    false
}

pub(crate) fn has_type(players: &Vec<Player>, t: PlayerType) -> (r: bool)
    ensures
        r == types(players_view(players@)).contains(t),
{
    let ghost ps = players_view(players@);
    let mut i: usize = 0;
    while i < players.len()
        invariant
            i <= players.len(),
            ps == players_view(players@),
            forall|k: int| 0 <= k < i ==> ps[k].player_type != t,
        decreases players.len() - i,
    {
        if players[i].player_type == t {
            assert(types(ps)[i as int] == t);
            return true;
        }
        i = i + 1;
    }
    assert(!types(ps).contains(t)) by {
        if types(ps).contains(t) {
            let k = choose|k: int| 0 <= k < types(ps).len() && types(ps)[k] == t;
            assert(ps[k].player_type == t);
        }
    }
    false
}

/// A player id not in use: rejection sampling over random machine words, then a scan of
/// the one-digit ids, one of which is free because fewer than ten players are present.
pub(crate) fn fresh_player_id(players: &Vec<Player>) -> (id: String)
    requires
        players.len() < 10,
    ensures
        !ids(players_view(players@)).contains(id@),
        is_numeral(id@),
{
    let mut draws: usize = 0;
    while draws < MAX_DRAWS
        decreases MAX_DRAWS - draws,
    {
        let n = random_usize();
        let id = decimal_string(n);
        if !has_id(players, id.as_str()) {
            return id;
        }
        draws = draws + 1;
    }
    let ghost cands = Seq::new(10, |d: int| decimal(d as nat));
    proof {
        assert forall|i: int, j: int| 0 <= i < 10 && 0 <= j < 10 && i != j implies cands[i]
            != cands[j] by {
            assert(cands[i][0] != cands[j][0]);
        }
        lemma_free_candidate(ids(players_view(players@)), cands);
    }
    let mut d: usize = 0;
    while d < 10
        invariant
            forall|k: int| 0 <= k < d ==> ids(players_view(players@)).contains(#[trigger] cands[k]),
            exists|k: int| 0 <= k < 10 && !ids(players_view(players@)).contains(#[trigger] cands[k]),
            cands == Seq::new(10, |d: int| decimal(d as nat)),
        decreases 10 - d,
    {
        let id = decimal_string(d);
        if !has_id(players, id.as_str()) {
            return id;
        }
        assert(cands[d as int] == id@);
        d = d + 1;
    }
    proof {
        let k = choose|k: int| 0 <= k < 10 && !ids(players_view(players@)).contains(#[trigger] cands[k]);
        assert(ids(players_view(players@)).contains(cands[k]));
    }
    String::new()
}

/// A player type not in use: rejection sampling over uniform rolls, then the first free type
/// in declaration order, which exists because fewer than ten players are present.
pub(crate) fn free_player_type(players: &Vec<Player>) -> (t: PlayerType)
    requires
        players.len() < 10,
    ensures
        !types(players_view(players@)).contains(t),
{
    let mut draws: usize = 0;
    while draws < MAX_DRAWS
        decreases MAX_DRAWS - draws,
    {
        let t = PlayerType::from_roll(random_range(0, 10));
        if !has_type(players, t) {
            return t;
        }
        draws = draws + 1;
    }
    let ghost cands = all_player_types();
    proof {
        assert(cands.no_duplicates());
        lemma_free_candidate(types(players_view(players@)), cands);
    }
    let mut d: usize = 0;
    while d < 10
        invariant
            forall|k: int| 0 <= k < d ==> types(players_view(players@)).contains(#[trigger] cands[k]),
            exists|k: int| 0 <= k < 10 && !types(players_view(players@)).contains(#[trigger] cands[k]),
            cands == all_player_types(),
        decreases 10 - d,
    {
        let t = PlayerType::from_roll(d);
        if !has_type(players, t) {
            return t;
        }
        assert(cands[d as int] == t);
        d = d + 1;
    }
    proof {
        let k = choose|k: int| 0 <= k < 10 && !types(players_view(players@)).contains(#[trigger] cands[k]);
        assert(types(players_view(players@)).contains(cands[k]));
    }
    PlayerType::BLUE
}


pub(crate) proof fn lemma_push_distinct<A>(s: Seq<A>, x: A)
    requires
        s.no_duplicates(),
        !s.contains(x),
    ensures
        s.push(x).no_duplicates(),
{
    assert forall|i: int, j: int|
        0 <= i < s.len() + 1 && 0 <= j < s.len() + 1 && i != j implies s.push(x)[i] != s.push(x)[j] by {
        if i == s.len() {
            assert(s[j] == s.push(x)[j]);
        } else if j == s.len() {
            assert(s[i] == s.push(x)[i]);
        }
    }
}

pub(crate) proof fn lemma_outs_push(v: Seq<Outbound>, o: Outbound)
    ensures
        outs_view(v.push(o)) == outs_view(v).push(o@),
{
    assert(outs_view(v.push(o)) =~= outs_view(v).push(o@));
}

pub(crate) proof fn lemma_players_push(v: Seq<Player>, p: Player)
    ensures
        players_view(v.push(p)) == players_view(v).push(p@),
        ids(players_view(v.push(p))) == ids(players_view(v)).push(p.id@),
        types(players_view(v.push(p))) == types(players_view(v)).push(p.player_type),
{
    assert(players_view(v.push(p)) =~= players_view(v).push(p@));
    assert(ids(players_view(v.push(p))) =~= ids(players_view(v)).push(p.id@));
    assert(types(players_view(v.push(p))) =~= types(players_view(v)).push(p.player_type));
}

/// The invariants of a room that may still admit a player (it may be empty).
pub open spec fn room_open(g: GameView) -> bool {
    &&& generated_map(g.map)
    &&& g.players.len() < g.map.player_cap <= 10
    &&& ids(g.players).no_duplicates()
    &&& types(g.players).no_duplicates()
    &&& (g.leader is Some <==> g.secret is Some)
    &&& (g.leader matches Some(l) ==> has_player(g.players, l))
}

/// Appends `text` for every player but `src`, each delivery marked for eviction on failure.
pub(crate) fn push_fan_out(outs: &mut Vec<Outbound>, players: &Vec<Player>, code: &String, src: &str, text: &String)
    ensures
        outs_view(final(outs)@) == outs_view(old(outs)@) + fan_out(
            players_view(players@),
            code@,
            src@,
            text@,
        ),
{
    let ghost start = outs_view(outs@);
    let ghost ps = players_view(players@);
    let mut i: usize = 0;
    assert(ps.take(0) =~= seq![]);
    while i < players.len()
        invariant
            i <= players.len(),
            ps == players_view(players@),
            outs_view(outs@) == start + fan_out(ps.take(i as int), code@, src@, text@),
        decreases players.len() - i,
    {
        proof {
            assert(ps.take(i + 1) == ps.take(i as int).push(ps[i as int]));
            lemma_fan_out_push(ps.take(i as int), ps[i as int], code@, src@, text@);
        }
        if !str_eq(players[i].id.as_str(), src) {
            let o = Outbound {
                client: players[i].client,
                message: Message(text.clone()),
                evict: Some((code.clone(), players[i].id.clone())),
            };
            proof {
                lemma_outs_push(outs@, o);
            }
            outs.push(o);
        }
        i = i + 1;
    }
    assert(ps.take(players.len() as int) == ps);
}

fn is_previous(previous: &Option<String>, s: &String) -> (r: bool)
    ensures
        r == (opt_view(*previous) == Some(s@)),
{
    match previous {
        Some(p) => str_eq(p.as_str(), s.as_str()),
        None => false,
    }
}

/// A secret other than `previous`: drawn again while it repeats `previous`; should every draw
/// repeat it, its first character is changed.
pub(crate) fn fresh_secret(previous: &Option<String>) -> (s: String)
    ensures
        valid_secret(s@),
        opt_view(*previous) != Some(s@),
{
    let mut secret = random_alphanumeric(10);
    let mut draws: usize = 0;
    while draws < MAX_DRAWS && is_previous(previous, &secret)
        invariant
            valid_secret(secret@),
        decreases MAX_DRAWS - draws,
    {
        secret = random_alphanumeric(10);
        draws = draws + 1;
    }
    if !is_previous(previous, &secret) {
        return secret;
    }
    let v = chars_of(secret.as_str());
    let first = if v[0] == 'A' { 'B' } else { 'A' };
    let mut changed = String::new();
    push_char(&mut changed, first);
    changed.append(string_of(&v, 1, 10).as_str());
    assert(changed@ =~= seq![first] + v@.subrange(1, 10));
    assert(changed@[0] != secret@[0]);
    assert forall|i: int| 0 <= i < changed@.len() implies is_ascii_alphanumeric(#[trigger] changed@[i]) by {
        if i > 0 {
            assert(changed@[i] == secret@[i]);
        }
    }
    changed
}

/// Makes the player at `k` leader with a freshly drawn secret, other than the room's previous
/// one, and returns its `RoomLeader` frame.
pub(crate) fn make_player_leader(game: &mut Game, k: usize) -> (o: Outbound)
    requires
        k < old(game).players.len(),
    ensures
        final(game).players == old(game).players,
        final(game).map == old(game).map,
        final(game).started == old(game).started,
        final(game)@.leader == Some(old(game)@.players[k as int].id),
        final(game)@.secret matches Some(s) && valid_secret(s),
        final(game)@.secret != old(game)@.secret,
        o@ == direct(old(game)@.players[k as int].client, room_leader_frame(final(game)@.secret->0)),
{
    let secret = fresh_secret(&game.secret);
    let text = RoomLeaderEvent { secret: secret.clone() }.to_message();
    let client = game.players[k].client;
    game.leader = Some(game.players[k].id.clone());
    game.secret = Some(secret);
    Outbound { client, message: Message(text), evict: None }
}

/// Admits a new player at connection `client`: fresh id, free type, the next spawn point;
/// elects it leader if the room has none.
pub(crate) fn add_player_to_game(game: &mut Game, code: &String, client: u64) -> (r: (String, Vec<Outbound>))
    requires
        room_open(old(game)@),
    ensures
        room_ok(final(game)@),
        admitted(old(game)@, final(game)@, client),
        final(game)@.players.last().id == r.0@,
        outs_view(r.1@) == admission_frames(code@, old(game)@, final(game)@),
{
    let ghost g = game@;
    let id = fresh_player_id(&game.players);
    let t = free_player_type(&game.players);
    let mut outs: Vec<Outbound> = Vec::new();
    let mut i: usize = 0;
    assert(g.players.take(0) =~= seq![]);
    assert(outs_view(outs@) =~= seq![]);
    while i < game.players.len()
        invariant
            i <= game.players.len(),
            game@ == g,
            outs_view(outs@) == roster(g.players.take(i as int), client),
        decreases game.players.len() - i,
    {
        let p = &game.players[i];
        let text = PlayerJoinedGameEvent {
            player_id: p.id.clone(),
            player_type: p.player_type,
            spawn: p.spawn,
        }.to_message();
        let o = Outbound { client, message: Message(text), evict: None };
        proof {
            lemma_outs_push(outs@, o);
            assert(roster(g.players.take(i + 1), client) =~= roster(g.players.take(i as int), client).push(o@));
        }
        outs.push(o);
        i = i + 1;
    }
    assert(g.players.take(game.players.len() as int) == g.players);
    let spawn = game.map.get_spawn_for_player(game.players.len());
    let ack = JoinedGame {
        ok: true,
        reason: None,
        code: Some(code.clone()),
        player_type: Some(t),
        spawn: Some(spawn),
    }.to_message();
    let set_map = SetMapGameEvent { map: &game.map }.to_message();
    let player = Player { id: id.clone(), client, player_type: t, spawn };
    proof {
        lemma_players_push(game.players@, player);
        lemma_push_distinct(ids(g.players), id@);
        lemma_push_distinct(types(g.players), t);
    }
    game.players.push(player);
    let o1 = Outbound { client, message: Message(ack), evict: None };
    let o2 = Outbound { client, message: Message(set_map), evict: None };
    proof {
        lemma_outs_push(outs@, o1);
        lemma_outs_push(outs@.push(o1), o2);
    }
    outs.push(o1);
    outs.push(o2);
    let ghost before_leader = outs_view(outs@);
    if game.leader.is_none() {
        let k = game.players.len() - 1;
        let o = make_player_leader(game, k);
        proof {
            lemma_outs_push(outs@, o);
        }
        outs.push(o);
    }
    let ghost g2 = game@;
    assert(g2.players.last() == player@);
    proof {
        if let Some(l) = g.leader {
            let j = choose|j: int| 0 <= j < ids(g.players).len() && ids(g.players)[j] == l;
            assert(ids(g2.players)[j] == l);
        } else {
            assert(ids(g2.players)[g2.players.len() - 1] == id@);
        }
    }
    let text = PlayerJoinedGameEvent { player_id: id.clone(), player_type: t, spawn }.to_message();
    push_fan_out(&mut outs, &game.players, code, id.as_str(), &text);
    proof {
        if g.leader is None {
            assert(before_leader + seq![direct(client, room_leader_frame(g2.secret->0))]
                =~= before_leader.push(direct(client, room_leader_frame(g2.secret->0))));
        } else {
            assert(before_leader + seq![] =~= before_leader);
        }
    }
    (id, outs)
}


/// The players of `players` other than `pid`, in order.
pub(crate) fn players_without(players: &Vec<Player>, pid: &str) -> (r: Vec<Player>)
    ensures
        players_view(r@) == without(players_view(players@), pid@),
{
    let ghost ps = players_view(players@);
    let mut r: Vec<Player> = Vec::new();
    let mut i: usize = 0;
    assert(ps.take(0) =~= seq![]);
    assert(players_view(r@) =~= seq![]);
    while i < players.len()
        invariant
            i <= players.len(),
            ps == players_view(players@),
            players_view(r@) == without(ps.take(i as int), pid@),
        decreases players.len() - i,
    {
        proof {
            assert(ps.take(i + 1) == ps.take(i as int).push(ps[i as int]));
            lemma_without_push(ps.take(i as int), ps[i as int], pid@);
        }
        if !str_eq(players[i].id.as_str(), pid) {
            let p = Player {
                id: players[i].id.clone(),
                client: players[i].client,
                player_type: players[i].player_type,
                spawn: players[i].spawn,
            };
            proof {
                lemma_players_push(r@, p);
            }
            r.push(p);
        }
        i = i + 1;
    }
    assert(ps.take(players.len() as int) == ps);
    r
}

} // verus!
