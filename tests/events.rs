use game_server::events::{
    GameStateEvent, JoinedGame, MultiplayerEvent, PlayerJoinedGameEvent, PlayerLeftGameEvent,
    PlayerType, RoomLeaderEvent, SetMapGameEvent,
};
use game_server::game_objects::{Coordinates, GameMap, Planet, PlanetType};
use game_server::text::decimal_string;

#[test]
fn room_leader_frame() {
    let e = RoomLeaderEvent { secret: "abcDEF1234".to_string() };
    assert_eq!(e.to_message(), "Event RoomLeader:{\"secret\":\"abcDEF1234\"}");
}

#[test]
fn player_joined_frame() {
    let e = PlayerJoinedGameEvent {
        player_id: "42".to_string(),
        player_type: PlayerType::LIGHTBLUE,
        spawn: Coordinates { x: 1792, y: 2048 },
    };
    assert_eq!(
        e.to_message(),
        "Event PlayerJoinedGame:{\"playerId\":\"42\",\"playerType\":\"LIGHTBLUE\",\"spawn\":{\"x\":1792,\"y\":2048}}"
    );
}

#[test]
fn player_left_frame_escapes_the_id() {
    let e = PlayerLeftGameEvent { player_id: "a\"b\\c".to_string() };
    assert_eq!(e.to_message(), "Event PlayerLeftGame:{\"playerId\":\"a\\\"b\\\\c\"}");
}

#[test]
fn game_state_frame_is_verbatim() {
    let e = GameStateEvent { payload: "{\"secret\":\"s\",\"tick\":1}".to_string() };
    assert_eq!(e.to_message(), "Event GameState:{\"secret\":\"s\",\"tick\":1}");
}

#[test]
fn join_ack_frames() {
    let ok = JoinedGame {
        ok: true,
        reason: None,
        code: Some("ABCDE".to_string()),
        player_type: Some(PlayerType::RED),
        spawn: Some(Coordinates { x: 1792, y: 1792 }),
    };
    assert_eq!(
        ok.to_message(),
        "Event JoinGame:{\"ok\":true,\"reason\":null,\"code\":\"ABCDE\",\"playerType\":\"RED\",\"spawn\":{\"x\":1792,\"y\":1792}}"
    );
    let refused = JoinedGame { ok: false, reason: Some("game is full".to_string()), code: None, player_type: None, spawn: None };
    assert_eq!(
        refused.to_message(),
        "Event JoinGame:{\"ok\":false,\"reason\":\"game is full\",\"code\":null,\"playerType\":null,\"spawn\":null}"
    );
}

#[test]
fn set_map_frame() {
    let map = GameMap {
        size: Coordinates { x: 25600, y: 25600 },
        planets: vec![
            Planet { position: Coordinates { x: 3000, y: 4000 }, radius: 125, planet_type: PlanetType::GAS },
            Planet { position: Coordinates { x: 9000, y: 4000 }, radius: 125, planet_type: PlanetType::WHITE },
        ],
        player_cap: 10,
        spawns: vec![Coordinates { x: 1792, y: 1792 }],
        enemy_planet: Planet { position: Coordinates { x: 12800, y: 12000 }, radius: 125, planet_type: PlanetType::EARTH },
    };
    assert_eq!(
        SetMapGameEvent { map: &map }.to_message(),
        "Event SetMap:{\"size\":{\"x\":25600,\"y\":25600},\"planets\":[{\"position\":{\"x\":3000,\"y\":4000},\"radius\":125,\"planetType\":\"GAS\"},{\"position\":{\"x\":9000,\"y\":4000},\"radius\":125,\"planetType\":\"WHITE\"}],\"playerCap\":10,\"spawns\":[{\"x\":1792,\"y\":1792}],\"enemyPlanet\":{\"position\":{\"x\":12800,\"y\":12000},\"radius\":125,\"planetType\":\"EARTH\"}}"
    );
}

#[test]
fn empty_lists_in_the_map_frame() {
    let map = GameMap {
        size: Coordinates { x: 1, y: 2 },
        planets: vec![],
        player_cap: 0,
        spawns: vec![],
        enemy_planet: Planet { position: Coordinates { x: 0, y: 0 }, radius: 125, planet_type: PlanetType::EARTH },
    };
    assert_eq!(
        SetMapGameEvent { map: &map }.to_message(),
        "Event SetMap:{\"size\":{\"x\":1,\"y\":2},\"planets\":[],\"playerCap\":0,\"spawns\":[],\"enemyPlanet\":{\"position\":{\"x\":0,\"y\":0},\"radius\":125,\"planetType\":\"EARTH\"}}"
    );
}

#[test]
fn decimal_numerals() {
    assert_eq!(decimal_string(0), "0");
    assert_eq!(decimal_string(7), "7");
    assert_eq!(decimal_string(10), "10");
    assert_eq!(decimal_string(1234567890), "1234567890");
    assert_eq!(decimal_string(usize::MAX), usize::MAX.to_string());
}

#[test]
fn player_types_for_rolls() {
    assert_eq!(PlayerType::from_roll(0), PlayerType::BLUE);
    assert_eq!(PlayerType::from_roll(5), PlayerType::LIGHTBLUE);
    assert_eq!(PlayerType::from_roll(9), PlayerType::TURQUOISE);
    assert_eq!(PlayerType::TURQUOISE.name(), "TURQUOISE");
}

#[test]
fn control_characters_are_escaped() {
    let e = PlayerLeftGameEvent { player_id: "a\nb\u{1}\t".to_string() };
    assert_eq!(e.to_message(), "Event PlayerLeftGame:{\"playerId\":\"a\\nb\\u0001\\t\"}");
}
