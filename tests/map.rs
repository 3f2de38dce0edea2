use game_server::game_objects::{Coordinates, GameMap, Planet, PlanetType};
use game_server::map::planet_type_from_roll;

fn centre_enemy() -> Planet {
    Planet {
        planet_type: PlanetType::EARTH,
        position: Coordinates {
            x: GameMap::MAP_SIZE / 2,
            y: GameMap::MAP_SIZE / 2,
        },
        radius: GameMap::PLANET_RADIUS,
    }
}

#[test]
fn planets_are_distance_between_planets_apart_from_each_other() {
    let planets: Vec<Planet> = vec![
        Planet {
            planet_type: PlanetType::EARTH,
            position: Coordinates {
                x: GameMap::OUTER_BOUNDS,
                y: GameMap::OUTER_BOUNDS,
            },
            radius: GameMap::PLANET_RADIUS,
        },
        Planet {
            planet_type: PlanetType::EARTH,
            position: Coordinates {
                x: GameMap::OUTER_BOUNDS,
                y: GameMap::OUTER_BOUNDS - 2 + 2 * GameMap::DISTANCE_BETWEEN_PLANETS,
            },
            radius: GameMap::PLANET_RADIUS,
        },
    ];
    assert_eq!(
        GameMap::does_fit_with_planets(
            &planets,
            &centre_enemy(),
            GameMap::OUTER_BOUNDS,
            GameMap::OUTER_BOUNDS + GameMap::DISTANCE_BETWEEN_PLANETS
        ),
        false
    );
}

#[test]
fn does_not_place_planets_in_outer_bounds() {
    let planets: Vec<Planet> = vec![];
    assert_eq!(
        GameMap::does_fit_with_planets(
            &planets,
            &centre_enemy(),
            GameMap::OUTER_BOUNDS - 1,
            GameMap::OUTER_BOUNDS
        ),
        false,
        "Cannot be too far left"
    );
    assert_eq!(
        GameMap::does_fit_with_planets(
            &planets,
            &centre_enemy(),
            GameMap::MAP_SIZE - GameMap::OUTER_BOUNDS + 1,
            GameMap::OUTER_BOUNDS
        ),
        false,
        "Cannot be too far right"
    );
    assert_eq!(
        GameMap::does_fit_with_planets(
            &planets,
            &centre_enemy(),
            GameMap::OUTER_BOUNDS,
            GameMap::OUTER_BOUNDS - 1
        ),
        false,
        "Cannot be too far up"
    );
    assert_eq!(
        GameMap::does_fit_with_planets(
            &planets,
            &centre_enemy(),
            GameMap::OUTER_BOUNDS,
            GameMap::MAP_SIZE - GameMap::OUTER_BOUNDS + 1
        ),
        false,
        "Cannot be too far down"
    );
}

#[test]
fn fits_exactly_at_the_minimum_distance() {
    let planets = vec![Planet {
        planet_type: PlanetType::RED,
        position: Coordinates { x: 5000, y: 5000 },
        radius: GameMap::PLANET_RADIUS,
    }];
    assert!(GameMap::does_fit_with_planets(&planets, &centre_enemy(), 5600, 5800));
    assert!(!GameMap::does_fit_with_planets(&planets, &centre_enemy(), 5600, 5799));
}

#[test]
fn too_close_to_the_enemy_planet_does_not_fit() {
    let planets: Vec<Planet> = vec![];
    assert!(!GameMap::does_fit_with_planets(&planets, &centre_enemy(), 12800, 13799));
    assert!(GameMap::does_fit_with_planets(&planets, &centre_enemy(), 12800, 13800));
}

#[test]
fn far_planets_with_huge_coordinates_do_not_overflow() {
    let planets = vec![Planet {
        planet_type: PlanetType::GAS,
        position: Coordinates { x: usize::MAX, y: usize::MAX },
        radius: GameMap::PLANET_RADIUS,
    }];
    assert!(GameMap::does_fit_with_planets(&planets, &centre_enemy(), 3000, 3000));
}

fn dist2(a: &Coordinates, b: &Coordinates) -> i64 {
    let dx = a.x as i64 - b.x as i64;
    let dy = a.y as i64 - b.y as i64;
    dx * dx + dy * dy
}

#[test]
fn generated_maps_keep_planets_apart() {
    for _ in 0..20 {
        let map = GameMap::create_random();
        assert_eq!(map.size, Coordinates { x: 25600, y: 25600 });
        assert_eq!(map.player_cap, 10);
        assert_eq!(map.spawns.len(), 10);
        assert!(map.planets.len() <= 25);
        assert_eq!(map.enemy_planet.planet_type, PlanetType::EARTH);
        let e = &map.enemy_planet.position;
        assert!(8960 <= e.x && e.x < 16640 && 8960 <= e.y && e.y < 16640);
        for (i, p) in map.planets.iter().enumerate() {
            assert!(p.position.x >= 2560 && p.position.x <= 23040);
            assert!(p.position.y >= 2560 && p.position.y <= 23040);
            assert_ne!(p.planet_type, PlanetType::EARTH);
            assert_eq!(p.radius, 125);
            assert!(dist2(&p.position, e) >= 1_000_000);
            for q in map.planets.iter().skip(i + 1) {
                assert!(dist2(&p.position, &q.position) >= 1_000_000);
            }
        }
    }
}

#[test]
fn spawn_points_follow_join_order_then_fall_back() {
    let map = GameMap::create_random();
    assert_eq!(map.get_spawn_for_player(0), Coordinates { x: 1792, y: 1792 });
    assert_eq!(map.get_spawn_for_player(1), Coordinates { x: 2048, y: 1792 });
    assert_eq!(map.get_spawn_for_player(9), Coordinates { x: 2560, y: 1792 });
    assert_eq!(map.get_spawn_for_player(10), Coordinates { x: 1280, y: 1280 });
}

#[test]
fn planet_types_for_rolls() {
    assert_eq!(planet_type_from_roll(0), PlanetType::RED);
    assert_eq!(planet_type_from_roll(1), PlanetType::YELLOW);
    assert_eq!(planet_type_from_roll(2), PlanetType::GAS);
    assert_eq!(planet_type_from_roll(3), PlanetType::WHITE);
}

#[test]
fn try_place_keeps_only_fitting_candidates() {
    let enemy = centre_enemy();
    let mut planets: Vec<Planet> = vec![];
    assert!(GameMap::try_place(&mut planets, &enemy, 3000, 3000, 2));
    assert_eq!(planets.len(), 1);
    assert_eq!(planets[0].planet_type, PlanetType::GAS);
    assert_eq!(planets[0].radius, 125);
    assert_eq!(planets[0].position, Coordinates { x: 3000, y: 3000 });
    assert!(!GameMap::try_place(&mut planets, &enemy, 3500, 3500, 0));
    assert!(!GameMap::try_place(&mut planets, &enemy, 100, 3000, 0));
    assert_eq!(planets.len(), 1);
}

#[test]
fn place_planets_keeps_the_first_fitting_candidate_of_each_group() {
    let enemy = centre_enemy();
    let candidates = vec![
        // out of bounds, then too close to the enemy, then fits
        vec![(100, 3000, 0), (12800, 13000, 1), (3000, 3000, 1), (9000, 9000, 2)],
        // too close to the first planet, then fits
        vec![(3500, 3500, 3), (5000, 3000, 2)],
        // nothing fits
        vec![(3000, 3100, 0), (12800, 12800, 0)],
        vec![],
    ];
    let planets = GameMap::place_planets(&enemy, &candidates);
    assert_eq!(planets.len(), 2);
    assert_eq!(planets[0].position, Coordinates { x: 3000, y: 3000 });
    assert_eq!(planets[0].planet_type, PlanetType::YELLOW);
    assert_eq!(planets[1].position, Coordinates { x: 5000, y: 3000 });
    assert_eq!(planets[1].planet_type, PlanetType::GAS);
    assert!(planets.iter().all(|p| p.radius == 125));
}
