use vstd::prelude::*;

use crate::game_objects::{dist2, Coordinates, GameMap, GameMapView, Planet, PlanetType};
use crate::random::random_range;

verus! {

impl GameMap {
    pub const PLANET_RADIUS: usize = 125;
    pub const DISTANCE_BETWEEN_PLANETS: usize = 1000;
    pub const NUMBER_OF_PLANETS: usize = 25;
    pub const MAP_TILE_SIZE: usize = 256;
    pub const MAP_NUMBER_OF_TILES: usize = 100;
    pub const OUTER_BOUNDS: usize = 2560;
    pub const INNER_AREA_START: usize = 8960;
    pub const INNER_AREA_END: usize = 16640;
    pub const MAP_SIZE: usize = 25600;
    pub const PLAYER_CAP: usize = 10;
}

/// Two points are at least `DISTANCE_BETWEEN_PLANETS` apart.
pub open spec fn far_apart(a: Coordinates, b: Coordinates) -> bool {
    dist2(a, b) >= 1000 * 1000
}

/// A point lies inside the outer-bounds margin on both axes.
pub open spec fn within_outer_bounds(c: Coordinates) -> bool {
    &&& 2560 <= c.x <= 25600 - 2560
    &&& 2560 <= c.y <= 25600 - 2560
}

/// A planet may be placed at `c` given the planets already placed and the enemy planet.
pub open spec fn fits_with_planets(planets: Seq<Planet>, enemy_planet: Planet, c: Coordinates) -> bool {
    &&& within_outer_bounds(c)
    &&& far_apart(c, enemy_planet.position)
    &&& forall|i: int| 0 <= i < planets.len() ==> far_apart(c, #[trigger] planets[i].position)
}

/// The layout laws of a generated map: every planet inside the margin, every two planets and
/// every planet and the enemy planet at least `DISTANCE_BETWEEN_PLANETS` apart.
pub open spec fn well_spaced(planets: Seq<Planet>, enemy_planet: Planet) -> bool {
    &&& forall|i: int| 0 <= i < planets.len() ==> within_outer_bounds(#[trigger] planets[i].position)
    &&& forall|i: int|
        0 <= i < planets.len() ==> far_apart(#[trigger] planets[i].position, enemy_planet.position)
    &&& forall|i: int, j: int|
        0 <= i < planets.len() && 0 <= j < planets.len() && i != j ==> far_apart(
            #[trigger] planets[i].position,
            #[trigger] planets[j].position,
        )
}

/// The spawn point for the player with the given join index.
pub open spec fn spawn_for(spawns: Seq<Coordinates>, player_number: int) -> Coordinates {
    if 0 <= player_number < spawns.len() {
        spawns[player_number]
    } else {
        Coordinates { x: 1280, y: 1280 }
    }
}

/// The spawn list of every generated map: ten slots near the top-left corner.
pub open spec fn default_spawns() -> Seq<Coordinates> {
    seq![
        Coordinates { x: 1792, y: 1792 },
        Coordinates { x: 2048, y: 1792 },
        Coordinates { x: 1792, y: 2048 },
        Coordinates { x: 2048, y: 2048 },
        Coordinates { x: 2304, y: 1792 },
        Coordinates { x: 2304, y: 2048 },
        Coordinates { x: 1792, y: 2304 },
        Coordinates { x: 2048, y: 2304 },
        Coordinates { x: 2304, y: 2304 },
        Coordinates { x: 2560, y: 1792 },
    ]
}

/// The planet a candidate `(x, y, roll)` becomes when it is kept.
pub open spec fn candidate_planet(c: (usize, usize, usize)) -> Planet {
    Planet {
        planet_type: planet_type_from_roll_spec(c.2 as int),
        position: Coordinates { x: c.0, y: c.1 },
        radius: 125,
    }
}

/// The planets after one group of candidates: the first that fits is added.
pub open spec fn place_first(planets: Seq<Planet>, enemy_planet: Planet, group: Seq<(usize, usize, usize)>) -> Seq<
    Planet,
>
    decreases group.len(),
{
    if group.len() == 0 {
        planets
    } else if fits_with_planets(planets, enemy_planet, Coordinates { x: group[0].0, y: group[0].1 }) {
        planets.push(candidate_planet(group[0]))
    } else {
        place_first(planets, enemy_planet, group.drop_first())
    }
}

/// The planets after the groups, in order, starting from `planets`.
pub open spec fn placement_from(
    planets: Seq<Planet>,
    enemy_planet: Planet,
    groups: Seq<Seq<(usize, usize, usize)>>,
) -> Seq<Planet>
    decreases groups.len(),
{
    if groups.len() == 0 {
        planets
    } else {
        placement_from(place_first(planets, enemy_planet, groups[0]), enemy_planet, groups.drop_first())
    }
}

/// The planets placed from the groups of candidates, starting from none.
pub open spec fn placement(enemy_planet: Planet, groups: Seq<Seq<(usize, usize, usize)>>) -> Seq<Planet> {
    placement_from(seq![], enemy_planet, groups)
}

pub open spec fn groups_view(v: Seq<Vec<(usize, usize, usize)>>) -> Seq<Seq<(usize, usize, usize)>> {
    v.map_values(|g: Vec<(usize, usize, usize)>| g@)
}

/// A planet placed by the generator: standard radius, one of the four ordinary types.
pub open spec fn ordinary_planet(p: Planet) -> bool {
    p.radius == 125 && p.planet_type != PlanetType::EARTH
}

/// What every generated map satisfies.
pub open spec fn generated_map(m: GameMapView) -> bool {
    &&& m.size == (Coordinates { x: 25600, y: 25600 })
    &&& m.player_cap == 10
    &&& m.spawns == default_spawns()
    &&& m.enemy_planet.planet_type == PlanetType::EARTH
    &&& m.enemy_planet.radius == 125
    &&& 8960 <= m.enemy_planet.position.x < 16640
    &&& 8960 <= m.enemy_planet.position.y < 16640
    &&& m.planets.len() <= 25
    &&& forall|i: int| 0 <= i < m.planets.len() ==> ordinary_planet(#[trigger] m.planets[i])
    &&& well_spaced(m.planets, m.enemy_planet)
}

/// The planet type for a roll in `0..4`: uniform over the four ordinary types.
pub open spec fn planet_type_from_roll_spec(roll: int) -> PlanetType {
    if roll == 0 {
        PlanetType::RED
    } else if roll == 1 {
        PlanetType::YELLOW
    } else if roll == 2 {
        PlanetType::GAS
    } else {
        PlanetType::WHITE
    }
}

pub fn planet_type_from_roll(roll: usize) -> (t: PlanetType)
    ensures
        t == planet_type_from_roll_spec(roll as int),
{
    match roll {
        0 => PlanetType::RED,
        1 => PlanetType::YELLOW,
        2 => PlanetType::GAS,
        _ => PlanetType::WHITE,
    }
}

proof fn lemma_far_apart_symmetric(a: Coordinates, b: Coordinates)
    ensures
        far_apart(a, b) == far_apart(b, a),
{
    assert((a.x - b.x) * (a.x - b.x) == (b.x - a.x) * (b.x - a.x)) by (nonlinear_arith);
    assert((a.y - b.y) * (a.y - b.y) == (b.y - a.y) * (b.y - a.y)) by (nonlinear_arith);
}

/// Adding a planet that fits keeps a layout well spaced.
proof fn lemma_push_fitting(planets: Seq<Planet>, enemy_planet: Planet, p: Planet)
    requires
        well_spaced(planets, enemy_planet),
        fits_with_planets(planets, enemy_planet, p.position),
    ensures
        well_spaced(planets.push(p), enemy_planet),
{
    let q = planets.push(p);
    assert forall|i: int, j: int|
        0 <= i < q.len() && 0 <= j < q.len() && i != j implies far_apart(
        #[trigger] q[i].position,
        #[trigger] q[j].position,
    ) by {
        if j == planets.len() {
            assert(far_apart(p.position, planets[i].position));
            lemma_far_apart_symmetric(p.position, planets[i].position);
        } else if i == planets.len() {
            assert(far_apart(p.position, planets[j].position));
        } else {
            assert(q[i] == planets[i] && q[j] == planets[j]);
        }
    }
    assert forall|i: int| 0 <= i < q.len() implies far_apart(
        #[trigger] q[i].position,
        enemy_planet.position,
    ) by {
        if i < planets.len() {
            assert(q[i] == planets[i]);
        }
    }
    assert forall|i: int| 0 <= i < q.len() implies within_outer_bounds(#[trigger] q[i].position) by {
        if i < planets.len() {
            assert(q[i] == planets[i]);
        }
    }
}

fn abs_diff(a: usize, b: usize) -> (r: usize)
    ensures
        r == if a >= b { a - b } else { b - a },
{
    if a >= b {
        a - b
    } else {
        b - a
    }
}

/// Squared distance against the squared threshold, without overflow for any coordinates.
fn is_far(a: Coordinates, b: Coordinates) -> (r: bool)
    ensures
        r == far_apart(a, b),
{
    let dx = abs_diff(a.x, b.x);
    let dy = abs_diff(a.y, b.y);
    assert((a.x - b.x) * (a.x - b.x) == dx * dx) by (nonlinear_arith)
        requires
            dx == if a.x >= b.x { a.x - b.x } else { b.x - a.x },
    ;
    assert((a.y - b.y) * (a.y - b.y) == dy * dy) by (nonlinear_arith)
        requires
            dy == if a.y >= b.y { a.y - b.y } else { b.y - a.y },
    ;
    if dx >= GameMap::DISTANCE_BETWEEN_PLANETS || dy >= GameMap::DISTANCE_BETWEEN_PLANETS {
        assert(dx * dx + dy * dy >= 1000 * 1000) by (nonlinear_arith)
            requires
                dx >= 1000 || dy >= 1000,
        ;
        true
    } else {
        assert(dx * dx < 1000 * 1000 && dy * dy < 1000 * 1000) by (nonlinear_arith)
            requires
                dx < 1000 && dy < 1000,
        ;
        dx * dx + dy * dy >= GameMap::DISTANCE_BETWEEN_PLANETS * GameMap::DISTANCE_BETWEEN_PLANETS
    }
}

impl GameMap {
    /// Whether a planet may be placed at `(x, y)`.
    pub fn does_fit_with_planets(planets: &Vec<Planet>, enemy_planet: &Planet, x: usize, y: usize) -> (r:
        bool)
        ensures
            r == fits_with_planets(planets@, *enemy_planet, Coordinates { x, y }),
    {
        if x < GameMap::OUTER_BOUNDS || x > GameMap::MAP_SIZE - GameMap::OUTER_BOUNDS {
            return false;
        }
        if y < GameMap::OUTER_BOUNDS || y > GameMap::MAP_SIZE - GameMap::OUTER_BOUNDS {
            return false;
        }
        let c = Coordinates { x, y };
        if !is_far(c, enemy_planet.position) {
            return false;
        }
        let mut i: usize = 0;
        while i < planets.len()
            invariant
                i <= planets.len(),
                c == (Coordinates { x, y }),
                within_outer_bounds(c),
                far_apart(c, enemy_planet.position),
                forall|k: int| 0 <= k < i ==> far_apart(c, #[trigger] planets@[k].position),
            decreases planets.len() - i,
        {
            if !is_far(c, planets[i].position) {
                assert(!far_apart(c, planets@[i as int].position));
                return false;
            }
            i = i + 1;
        }
        true
    }

    /// A random map: the enemy planet in the inner area, up to `NUMBER_OF_PLANETS` planets
    /// placed by rejection sampling, and the fixed spawn list.
    pub fn create_random() -> (r: GameMap)
        ensures
            generated_map(r@),
    {
        let enemy_planet = Planet {
            planet_type: PlanetType::EARTH,
            position: Coordinates {
                x: random_range(GameMap::INNER_AREA_START, GameMap::INNER_AREA_END),
                y: random_range(GameMap::INNER_AREA_START, GameMap::INNER_AREA_END),
            },
            radius: GameMap::PLANET_RADIUS,
        };
        let planets = GameMap::place_random_planets(&enemy_planet);
        let spawns = vec![
            Coordinates { x: 7 * GameMap::MAP_TILE_SIZE, y: 7 * GameMap::MAP_TILE_SIZE },
            Coordinates { x: 8 * GameMap::MAP_TILE_SIZE, y: 7 * GameMap::MAP_TILE_SIZE },
            Coordinates { x: 7 * GameMap::MAP_TILE_SIZE, y: 8 * GameMap::MAP_TILE_SIZE },
            Coordinates { x: 8 * GameMap::MAP_TILE_SIZE, y: 8 * GameMap::MAP_TILE_SIZE },
            Coordinates { x: 9 * GameMap::MAP_TILE_SIZE, y: 7 * GameMap::MAP_TILE_SIZE },
            Coordinates { x: 9 * GameMap::MAP_TILE_SIZE, y: 8 * GameMap::MAP_TILE_SIZE },
            Coordinates { x: 7 * GameMap::MAP_TILE_SIZE, y: 9 * GameMap::MAP_TILE_SIZE },
            Coordinates { x: 8 * GameMap::MAP_TILE_SIZE, y: 9 * GameMap::MAP_TILE_SIZE },
            Coordinates { x: 9 * GameMap::MAP_TILE_SIZE, y: 9 * GameMap::MAP_TILE_SIZE },
            Coordinates { x: 10 * GameMap::MAP_TILE_SIZE, y: 7 * GameMap::MAP_TILE_SIZE },
        ];
        assert(spawns@ == default_spawns());
        GameMap {
            size: Coordinates { x: GameMap::MAP_SIZE, y: GameMap::MAP_SIZE },
            planets,
            player_cap: GameMap::PLAYER_CAP,
            spawns,
            enemy_planet,
        }
    }

    /// One candidate of the placement: a candidate that fits is kept, with the standard radius
    /// and the type of `roll`; one that does not fit leaves the planets unchanged.
    pub fn try_place(planets: &mut Vec<Planet>, enemy_planet: &Planet, x: usize, y: usize, roll: usize) -> (placed:
        bool)
        ensures
            placed == fits_with_planets(old(planets)@, *enemy_planet, Coordinates { x, y }),
            placed ==> final(planets)@ == old(planets)@.push(candidate_planet((x, y, roll))),
            !placed ==> final(planets)@ == old(planets)@,
    {
        if GameMap::does_fit_with_planets(planets, enemy_planet, x, y) {
            planets.push(
                Planet {
                    planet_type: planet_type_from_roll(roll),
                    position: Coordinates { x, y },
                    radius: GameMap::PLANET_RADIUS,
                },
            );
            true
        } else {
            false
        }
    }

    /// Places planets from groups of candidates `(x, y, roll)`: from each group in order, the
    /// first candidate that fits the planets placed so far is kept; a group with no such
    /// candidate places nothing.
    pub fn place_planets(enemy_planet: &Planet, candidates: &Vec<Vec<(usize, usize, usize)>>) -> (planets: Vec<
        Planet,
    >)
        ensures
            planets@ == placement(*enemy_planet, groups_view(candidates@)),
            planets@.len() <= candidates@.len(),
            forall|i: int| 0 <= i < planets@.len() ==> ordinary_planet(#[trigger] planets@[i]),
            well_spaced(planets@, *enemy_planet),
    {
        let ghost groups = groups_view(candidates@);
        let mut planets: Vec<Planet> = Vec::new();
        let mut g: usize = 0;
        assert(groups.skip(0) == groups);
        while g < candidates.len()
            invariant
                g <= candidates.len(),
                groups == groups_view(candidates@),
                planets@.len() <= g,
                placement_from(planets@, *enemy_planet, groups.skip(g as int)) == placement(*enemy_planet, groups),
                forall|i: int| 0 <= i < planets@.len() ==> ordinary_planet(#[trigger] planets@[i]),
                well_spaced(planets@, *enemy_planet),
            decreases candidates.len() - g,
        {
            let group = &candidates[g];
            let ghost start = planets@;
            let ghost target = place_first(start, *enemy_planet, group@);
            let mut k: usize = 0;
            let mut placed = false;
            assert(group@.skip(0) == group@);
            while !placed && k < group.len()
                invariant
                    k <= group.len(),
                    group == &candidates[g as int],
                    planets@.len() <= start.len() + 1,
                    !placed ==> planets@ == start,
                    !placed ==> place_first(start, *enemy_planet, group@.skip(k as int)) == target,
                    placed ==> planets@ == target,
                    forall|i: int| 0 <= i < planets@.len() ==> ordinary_planet(#[trigger] planets@[i]),
                    well_spaced(planets@, *enemy_planet),
                decreases group.len() - k,
            {
                let (x, y, roll) = group[k];
                proof {
                    assert(group@.skip(k as int)[0] == (x, y, roll));
                    assert(group@.skip(k as int).drop_first() == group@.skip(k + 1));
                    if fits_with_planets(planets@, *enemy_planet, Coordinates { x, y }) {
                        lemma_push_fitting(planets@, *enemy_planet, candidate_planet((x, y, roll)));
                    }
                }
                placed = GameMap::try_place(&mut planets, enemy_planet, x, y, roll);
                k = k + 1;
            }
            proof {
                if !placed {
                    assert(group@.skip(k as int).len() == 0);
                }
                assert(groups.skip(g as int)[0] == group@);
                assert(groups.skip(g as int).drop_first() == groups.skip(g + 1));
            }
            g = g + 1;
        }
        planets
    }

    /// Draws `NUMBER_OF_PLANETS` groups of 20 candidate positions inside the margin, each with
    /// a type roll, and places planets from them.
    fn place_random_planets(enemy_planet: &Planet) -> (planets: Vec<Planet>)
        ensures
            planets@.len() <= 25,
            forall|i: int| 0 <= i < planets@.len() ==> ordinary_planet(#[trigger] planets@[i]),
            well_spaced(planets@, *enemy_planet),
    {
        let mut candidates: Vec<Vec<(usize, usize, usize)>> = Vec::new();
        let mut n: usize = 0;
        while n < GameMap::NUMBER_OF_PLANETS
            invariant
                n <= 25,
                candidates@.len() == n,
            decreases 25 - n,
        {
            let mut group: Vec<(usize, usize, usize)> = Vec::new();
            let mut k: usize = 0;
            while k < 20
                decreases 20 - k,
            {
                let y = random_range(GameMap::OUTER_BOUNDS, GameMap::MAP_SIZE - GameMap::OUTER_BOUNDS);
                let x = random_range(GameMap::OUTER_BOUNDS, GameMap::MAP_SIZE - GameMap::OUTER_BOUNDS);
                let roll = random_range(0, 4);
                group.push((x, y, roll));
                k = k + 1;
            }
            candidates.push(group);
            n = n + 1;
        }
        GameMap::place_planets(enemy_planet, &candidates)
    }

    /// The spawn point of the player who joins as number `player_number` (counting from zero).
    pub fn get_spawn_for_player(&self, player_number: usize) -> (r: Coordinates)
        ensures
            r == spawn_for(self.spawns@, player_number as int),
    {
        if player_number < self.spawns.len() {
            let spawn = self.spawns[player_number];
            Coordinates { x: spawn.x, y: spawn.y }
        } else {
            Coordinates { x: 5 * 256, y: 5 * 256 }
        }
    }
}

impl Default for GameMap {
    fn default() -> (r: GameMap)
        ensures
            generated_map(r@),
    {
        GameMap::create_random()
    }
}

} // verus!
