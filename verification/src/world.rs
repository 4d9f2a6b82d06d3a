//! The library's model of the tile world the robot moves in.
use vstd::prelude::*;

verus! {

/// A move of one tile on the grid. Rows grow downwards, columns to the right.
#[derive(Clone, Copy, Debug, PartialEq, Eq, Structural)]
pub enum Direction {
    Up,
    Down,
    Left,
    Right,
}

/// The kind of ground a tile is made of.
#[derive(Clone, Copy, Debug, PartialEq, Eq, Structural)]
pub enum TileType {
    DeepWater,
    ShallowWater,
    Sand,
    Grass,
    Street,
    Hill,
    Mountain,
    Snow,
    Lava,
    Teleport(bool),
    Wall,
}

/// What stands on a tile; the numbers are amounts, the pairs are capacity ranges,
/// and `Nothing` marks an empty tile.
#[derive(Clone, Copy, Debug, PartialEq, Eq, Structural)]
pub enum Content {
    Rock(usize),
    Tree(usize),
    Garbage(usize),
    Fire,
    Coin(usize),
    Bin(usize, usize),
    Crate(usize, usize),
    Bank(usize, usize),
    Water(usize),
    Market(usize),
    Fish(usize),
    Building,
    Bush(usize),
    JollyBlock(usize),
    Scarecrow,
    Nothing,
}

/// One tile of the world as the robot sees it.
#[derive(Clone, Copy, Debug, PartialEq, Eq, Structural)]
pub struct Tile {
    pub tile_type: TileType,
    pub content: Content,
    pub elevation: usize,
}

/// The weather of the world.
#[derive(Clone, Copy, Debug, PartialEq, Eq, Structural)]
pub enum WeatherType {
    Sunny,
    Rainy,
    Foggy,
    TropicalMonsoon,
    TrentinoSnow,
}

/// The part of the day.
#[derive(Clone, Copy, Debug, PartialEq, Eq, Structural)]
pub enum DayTime {
    Morning,
    Afternoon,
    Night,
}

/// The conditions of the world that the display shows: weather and time of day.
#[derive(Clone, Copy, Debug, PartialEq, Eq, Structural)]
pub struct EnvironmentalConditions {
    pub weather: WeatherType,
    pub time_of_day: DayTime,
}

/// The direction that undoes `d`.
pub open spec fn spec_opposite(d: Direction) -> Direction {
    match d {
        Direction::Up => Direction::Down,
        Direction::Down => Direction::Up,
        Direction::Left => Direction::Right,
        Direction::Right => Direction::Left,
    }
}

/// Returns the direction opposite to `dir`.
pub fn opposite_direction(dir: Direction) -> (r: Direction)
    ensures
        r == spec_opposite(dir),
{
    match dir {
        Direction::Up => Direction::Down,
        Direction::Down => Direction::Up,
        Direction::Left => Direction::Right,
        Direction::Right => Direction::Left,
    }
}

/// Taking the opposite twice gives the direction back, and no direction is its own opposite.
pub proof fn lemma_opposite_involution(d: Direction)
    ensures
        spec_opposite(spec_opposite(d)) == d,
        spec_opposite(d) != d,
{
}

/// The robot's map as rows of tiles, one sequence per row.
pub open spec fn grid_view(g: Seq<Vec<Option<Tile>>>) -> Seq<Seq<Option<Tile>>> {
    Seq::new(g.len(), |i: int| g[i]@)
}

} // verus!
