use vstd::prelude::*;

verus! {

/// A point on the map, in map units.
#[derive(Clone, Copy, Debug, PartialEq, Eq, Structural)]
pub struct Coordinates {
    pub x: usize,
    pub y: usize,
}

/// The kind of a planet; `EARTH` is reserved for the enemy planet.
#[derive(Clone, Copy, Debug, PartialEq, Eq, Structural)]
pub enum PlanetType {
    EARTH,
    RED,
    YELLOW,
    GAS,
    WHITE,
}

#[derive(Clone, Copy, Debug, PartialEq, Eq, Structural)]
pub struct Planet {
    pub position: Coordinates,
    pub radius: usize,
    pub planet_type: PlanetType,
}

/// The canonical map of a room.
#[derive(Debug)]
pub struct GameMap {
    pub size: Coordinates,
    pub planets: Vec<Planet>,
    pub player_cap: usize,
    pub spawns: Vec<Coordinates>,
    pub enemy_planet: Planet,
}

/// The mathematical content of a `GameMap`.
pub struct GameMapView {
    pub size: Coordinates,
    pub planets: Seq<Planet>,
    pub player_cap: usize,
    pub spawns: Seq<Coordinates>,
    pub enemy_planet: Planet,
}

impl View for GameMap {
    type V = GameMapView;

    open spec fn view(&self) -> GameMapView {
        GameMapView {
            size: self.size,
            planets: self.planets@,
            player_cap: self.player_cap,
            spawns: self.spawns@,
            enemy_planet: self.enemy_planet,
        }
    }
}

impl Default for Coordinates {
    fn default() -> (r: Coordinates)
        ensures
            r.x == 0 && r.y == 0,
    {
        Coordinates { x: 0, y: 0 }
    }
}

/// Squared Euclidean distance between two points.
pub open spec fn dist2(a: Coordinates, b: Coordinates) -> int {
    (a.x - b.x) * (a.x - b.x) + (a.y - b.y) * (a.y - b.y)
}

} // verus!
