//! Outbound events and their wire frames `Event <Kind>:<json>`, with camelCase field names.
use vstd::prelude::*;

use crate::game_objects::{Coordinates, GameMap, GameMapView, Planet, PlanetType};
use crate::json::{json_quoted, quote};
use crate::text::{decimal, push_char, push_decimal};

verus! {

/// The colour tag of a player, unique within a room.
#[derive(Clone, Copy, Debug, PartialEq, Eq, Structural)]
pub enum PlayerType {
    BLUE,
    RED,
    YELLOW,
    GREEN,
    GRAY,
    LIGHTBLUE,
    ORANGE,
    PINK,
    PURPLE,
    TURQUOISE,
}

/// The ten player types, in declaration order.
pub open spec fn all_player_types() -> Seq<PlayerType> {
    seq![
        PlayerType::BLUE,
        PlayerType::RED,
        PlayerType::YELLOW,
        PlayerType::GREEN,
        PlayerType::GRAY,
        PlayerType::LIGHTBLUE,
        PlayerType::ORANGE,
        PlayerType::PINK,
        PlayerType::PURPLE,
        PlayerType::TURQUOISE,
    ]
}

/// The player type for a roll in `0..10`: uniform over the ten types.
pub open spec fn player_type_for_roll(roll: int) -> PlayerType {
    if 0 <= roll < 10 {
        all_player_types()[roll]
    } else {
        PlayerType::TURQUOISE
    }
}

impl PlayerType {
    pub fn from_roll(roll: usize) -> (t: PlayerType)
        ensures
            t == player_type_for_roll(roll as int),
    {
        match roll {
            0 => PlayerType::BLUE,
            1 => PlayerType::RED,
            2 => PlayerType::YELLOW,
            3 => PlayerType::GREEN,
            4 => PlayerType::GRAY,
            5 => PlayerType::LIGHTBLUE,
            6 => PlayerType::ORANGE,
            7 => PlayerType::PINK,
            8 => PlayerType::PURPLE,
            _ => PlayerType::TURQUOISE,
        }
    }

    /// The tag as it appears on the wire.
    pub fn name(&self) -> (r: &'static str)
        ensures
            r@ == player_type_name(*self),
    {
        match self {
            PlayerType::BLUE => "BLUE",
            PlayerType::RED => "RED",
            PlayerType::YELLOW => "YELLOW",
            PlayerType::GREEN => "GREEN",
            PlayerType::GRAY => "GRAY",
            PlayerType::LIGHTBLUE => "LIGHTBLUE",
            PlayerType::ORANGE => "ORANGE",
            PlayerType::PINK => "PINK",
            PlayerType::PURPLE => "PURPLE",
            PlayerType::TURQUOISE => "TURQUOISE",
        }
    }
}

pub open spec fn player_type_name(t: PlayerType) -> Seq<char> {
    match t {
        PlayerType::BLUE => "BLUE"@,
        PlayerType::RED => "RED"@,
        PlayerType::YELLOW => "YELLOW"@,
        PlayerType::GREEN => "GREEN"@,
        PlayerType::GRAY => "GRAY"@,
        PlayerType::LIGHTBLUE => "LIGHTBLUE"@,
        PlayerType::ORANGE => "ORANGE"@,
        PlayerType::PINK => "PINK"@,
        PlayerType::PURPLE => "PURPLE"@,
        PlayerType::TURQUOISE => "TURQUOISE"@,
    }
}

pub open spec fn planet_type_name(t: PlanetType) -> Seq<char> {
    match t {
        PlanetType::EARTH => "EARTH"@,
        PlanetType::RED => "RED"@,
        PlanetType::YELLOW => "YELLOW"@,
        PlanetType::GAS => "GAS"@,
        PlanetType::WHITE => "WHITE"@,
    }
}

fn planet_type_str(t: PlanetType) -> (r: &'static str)
    ensures
        r@ == planet_type_name(t),
{
    match t {
        PlanetType::EARTH => "EARTH",
        PlanetType::RED => "RED",
        PlanetType::YELLOW => "YELLOW",
        PlanetType::GAS => "GAS",
        PlanetType::WHITE => "WHITE",
    }
}

// ---- JSON text of the payloads ----

pub open spec fn coordinates_text(c: Coordinates) -> Seq<char> {
    "{\"x\":"@ + decimal(c.x as nat) + ",\"y\":"@ + decimal(c.y as nat) + "}"@
}

pub open spec fn planet_text(p: Planet) -> Seq<char> {
    "{\"position\":"@ + coordinates_text(p.position) + ",\"radius\":"@ + decimal(p.radius as nat)
        + ",\"planetType\":\""@ + planet_type_name(p.planet_type) + "\"}"@
}

/// Parts joined by commas.
pub open spec fn joined(parts: Seq<Seq<char>>) -> Seq<char>
    decreases parts.len(),
{
    if parts.len() == 0 {
        seq![]
    } else if parts.len() == 1 {
        parts[0]
    } else {
        joined(parts.drop_last()) + seq![','] + parts.last()
    }
}

pub open spec fn planets_text(ps: Seq<Planet>) -> Seq<char> {
    seq!['['] + joined(ps.map_values(|p: Planet| planet_text(p))) + seq![']']
}

pub open spec fn spawns_text(cs: Seq<Coordinates>) -> Seq<char> {
    seq!['['] + joined(cs.map_values(|c: Coordinates| coordinates_text(c))) + seq![']']
}

/// The full serialized map.
pub open spec fn map_text(m: GameMapView) -> Seq<char> {
    "{\"size\":"@ + coordinates_text(m.size) + ",\"planets\":"@ + planets_text(m.planets)
        + ",\"playerCap\":"@ + decimal(m.player_cap as nat) + ",\"spawns\":"@ + spawns_text(
        m.spawns,
    ) + ",\"enemyPlanet\":"@ + planet_text(m.enemy_planet) + "}"@
}

// ---- frames ----

pub open spec fn room_leader_frame(secret: Seq<char>) -> Seq<char> {
    "Event RoomLeader:{\"secret\":"@ + json_quoted(secret) + "}"@
}

pub open spec fn player_joined_frame(player_id: Seq<char>, t: PlayerType, spawn: Coordinates) -> Seq<
    char,
> {
    "Event PlayerJoinedGame:{\"playerId\":"@ + json_quoted(player_id) + ",\"playerType\":\""@
        + player_type_name(t) + "\",\"spawn\":"@ + coordinates_text(spawn) + "}"@
}

pub open spec fn player_left_frame(player_id: Seq<char>) -> Seq<char> {
    "Event PlayerLeftGame:{\"playerId\":"@ + json_quoted(player_id) + "}"@
}

pub open spec fn set_map_frame(m: GameMapView) -> Seq<char> {
    "Event SetMap:"@ + map_text(m)
}

pub open spec fn game_state_frame(payload: Seq<char>) -> Seq<char> {
    "Event GameState:"@ + payload
}

pub open spec fn optional_text(v: Option<Seq<char>>) -> Seq<char> {
    match v {
        Some(t) => t,
        None => "null"@,
    }
}

pub open spec fn joined_game_frame(
    ok: bool,
    reason: Option<Seq<char>>,
    code: Option<Seq<char>>,
    player_type: Option<PlayerType>,
    spawn: Option<Coordinates>,
) -> Seq<char> {
    "Event JoinGame:{\"ok\":"@ + (if ok {
        "true"@
    } else {
        "false"@
    }) + ",\"reason\":"@ + optional_text(
        match reason {
            Some(r) => Some(json_quoted(r)),
            None => None,
        },
    ) + ",\"code\":"@ + optional_text(
        match code {
            Some(c) => Some(json_quoted(c)),
            None => None,
        },
    ) + ",\"playerType\":"@ + optional_text(
        match player_type {
            Some(t) => Some(seq!['"'] + player_type_name(t) + seq!['"']),
            None => None,
        },
    ) + ",\"spawn\":"@ + optional_text(
        match spawn {
            Some(c) => Some(coordinates_text(c)),
            None => None,
        },
    ) + "}"@
}

/// An event that the server sends as one text frame.
pub trait MultiplayerEvent {
    spec fn frame(&self) -> Seq<char>;

    fn to_message(&self) -> (r: String)
        ensures
            r@ == self.frame(),
    ;
}

/// Tells a player that it leads its room, with the secret that authenticates its state.
pub struct RoomLeaderEvent {
    pub secret: String,
}

pub struct PlayerJoinedGameEvent {
    pub player_id: String,
    pub player_type: PlayerType,
    pub spawn: Coordinates,
}

pub struct PlayerLeftGameEvent {
    pub player_id: String,
}

pub struct SetMapGameEvent<'a> {
    pub map: &'a GameMap,
}

/// Room-wide state from the leader; `payload` is the JSON text of an object.
pub struct GameStateEvent {
    pub payload: String,
}

/// The answer to a join request.
pub struct JoinedGame {
    pub ok: bool,
    pub reason: Option<String>,
    pub code: Option<String>,
    pub player_type: Option<PlayerType>,
    pub spawn: Option<Coordinates>,
}

impl MultiplayerEvent for RoomLeaderEvent {
    open spec fn frame(&self) -> Seq<char> {
        room_leader_frame(self.secret@)
    }

    fn to_message(&self) -> (r: String) {
        let mut s = "Event RoomLeader:{\"secret\":".to_owned();
        s.append(quote(self.secret.as_str()).as_str());
        s.append("}");
        s
    }
}

impl MultiplayerEvent for PlayerJoinedGameEvent {
    open spec fn frame(&self) -> Seq<char> {
        player_joined_frame(self.player_id@, self.player_type, self.spawn)
    }

    fn to_message(&self) -> (r: String) {
        let mut s = "Event PlayerJoinedGame:{\"playerId\":".to_owned();
        s.append(quote(self.player_id.as_str()).as_str());
        s.append(",\"playerType\":\"");
        s.append(self.player_type.name());
        s.append("\",\"spawn\":");
        push_coordinates(&mut s, self.spawn);
        s.append("}");
        s
    }
}

impl MultiplayerEvent for PlayerLeftGameEvent {
    open spec fn frame(&self) -> Seq<char> {
        player_left_frame(self.player_id@)
    }

    fn to_message(&self) -> (r: String) {
        let mut s = "Event PlayerLeftGame:{\"playerId\":".to_owned();
        s.append(quote(self.player_id.as_str()).as_str());
        s.append("}");
        s
    }
}

impl<'a> MultiplayerEvent for SetMapGameEvent<'a> {
    open spec fn frame(&self) -> Seq<char> {
        set_map_frame(self.map@)
    }

    fn to_message(&self) -> (r: String) {
        let mut s = "Event SetMap:".to_owned();
        push_map(&mut s, self.map);
        s
    }
}

impl MultiplayerEvent for GameStateEvent {
    open spec fn frame(&self) -> Seq<char> {
        game_state_frame(self.payload@)
    }

    fn to_message(&self) -> (r: String) {
        let mut s = "Event GameState:".to_owned();
        s.append(self.payload.as_str());
        s
    }
}

impl MultiplayerEvent for JoinedGame {
    open spec fn frame(&self) -> Seq<char> {
        joined_game_frame(
            self.ok,
            match self.reason {
                Some(r) => Some(r@),
                None => None,
            },
            match self.code {
                Some(c) => Some(c@),
                None => None,
            },
            self.player_type,
            self.spawn,
        )
    }

    fn to_message(&self) -> (r: String) {
        let mut s = "Event JoinGame:{\"ok\":".to_owned();
        if self.ok {
            s.append("true");
        } else {
            s.append("false");
        }
        s.append(",\"reason\":");
        match &self.reason {
            Some(r) => s.append(quote(r.as_str()).as_str()),
            None => s.append("null"),
        }
        s.append(",\"code\":");
        match &self.code {
            Some(c) => s.append(quote(c.as_str()).as_str()),
            None => s.append("null"),
        }
        s.append(",\"playerType\":");
        match self.player_type {
            Some(t) => {
                push_char(&mut s, '"');
                s.append(t.name());
                push_char(&mut s, '"');
            },
            None => s.append("null"),
        }
        s.append(",\"spawn\":");
        match self.spawn {
            Some(c) => push_coordinates(&mut s, c),
            None => s.append("null"),
        }
        s.append("}");
        s
    }
}

// ---- writers ----

pub fn push_coordinates(out: &mut String, c: Coordinates)
    ensures
        final(out)@ == old(out)@ + coordinates_text(c),
{
    out.append("{\"x\":");
    push_decimal(out, c.x);
    out.append(",\"y\":");
    push_decimal(out, c.y);
    out.append("}");
}

pub fn push_planet(out: &mut String, p: &Planet)
    ensures
        final(out)@ == old(out)@ + planet_text(*p),
{
    out.append("{\"position\":");
    push_coordinates(out, p.position);
    out.append(",\"radius\":");
    push_decimal(out, p.radius);
    out.append(",\"planetType\":\"");
    out.append(planet_type_str(p.planet_type));
    out.append("\"}");
}

proof fn lemma_joined_push(parts: Seq<Seq<char>>, p: Seq<char>)
    ensures
        joined(parts.push(p)) == if parts.len() == 0 {
            p
        } else {
            joined(parts) + seq![','] + p
        },
{
    assert(parts.push(p).drop_last() == parts);
}

fn push_planets(out: &mut String, ps: &Vec<Planet>)
    ensures
        final(out)@ == old(out)@ + planets_text(ps@),
{
    let ghost f = |p: Planet| planet_text(p);
    push_char(out, '[');
    let ghost start = out@;
    let mut i: usize = 0;
    while i < ps.len()
        invariant
            i <= ps.len(),
            f == (|p: Planet| planet_text(p)),
            out@ == start + joined(ps@.take(i as int).map_values(f)),
        decreases ps.len() - i,
    {
        if i > 0 {
            push_char(out, ',');
        }
        push_planet(out, &ps[i]);
        proof {
            assert(ps@.take(i + 1).map_values(f) == ps@.take(i as int).map_values(f).push(
                planet_text(ps@[i as int]),
            ));
            lemma_joined_push(ps@.take(i as int).map_values(f), planet_text(ps@[i as int]));
        }
        i = i + 1;
    }
    assert(ps@.take(ps.len() as int) == ps@);
    push_char(out, ']');
}

fn push_spawns(out: &mut String, cs: &Vec<Coordinates>)
    ensures
        final(out)@ == old(out)@ + spawns_text(cs@),
{
    let ghost f = |c: Coordinates| coordinates_text(c);
    push_char(out, '[');
    let ghost start = out@;
    let mut i: usize = 0;
    while i < cs.len()
        invariant
            i <= cs.len(),
            f == (|c: Coordinates| coordinates_text(c)),
            out@ == start + joined(cs@.take(i as int).map_values(f)),
        decreases cs.len() - i,
    {
        if i > 0 {
            push_char(out, ',');
        }
        push_coordinates(out, cs[i]);
        proof {
            assert(cs@.take(i + 1).map_values(f) == cs@.take(i as int).map_values(f).push(
                coordinates_text(cs@[i as int]),
            ));
            lemma_joined_push(cs@.take(i as int).map_values(f), coordinates_text(cs@[i as int]));
        }
        i = i + 1;
    }
    assert(cs@.take(cs.len() as int) == cs@);
    push_char(out, ']');
}

pub fn push_map(out: &mut String, m: &GameMap)
    ensures
        final(out)@ == old(out)@ + map_text(m@),
{
    out.append("{\"size\":");
    push_coordinates(out, m.size);
    out.append(",\"planets\":");
    push_planets(out, &m.planets);
    out.append(",\"playerCap\":");
    push_decimal(out, m.player_cap);
    out.append(",\"spawns\":");
    push_spawns(out, &m.spawns);
    out.append(",\"enemyPlanet\":");
    push_planet(out, &m.enemy_planet);
    out.append("}");
}

} // verus!
