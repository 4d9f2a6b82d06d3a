//! What the display draws for the world: the picture of each content, tile,
//! weather and time of day, the columns of blocks of the 3D map, the slots of
//! the backpack and the cells of the little map.
use vstd::prelude::*;
use crate::world::{Content, DayTime, Tile, TileType, WeatherType};

verus! {

/// The slots the backpack shows.
pub const BACKPACK_SLOTS: usize = 20;

/// The highest number of blocks a column of the 3D map is drawn with.
pub const MAX_COLUMN_BLOCKS: usize = 20;

/// The picture of a content.
pub open spec fn content_picture(c: Content) -> &'static str {
    match c {
        Content::Rock(_) => "contents/rock.png",
        Content::Tree(_) => "contents/tree.png",
        Content::Garbage(_) => "contents/garbage.png",
        Content::Fire => "contents/fire.png",
        Content::Coin(_) => "contents/coin.png",
        Content::Bin(_, _) => "contents/bin.png",
        Content::Crate(_, _) => "contents/crate.png",
        Content::Bank(_, _) => "contents/bank.png",
        Content::Water(_) => "contents/water.png",
        Content::Market(_) => "contents/market.png",
        Content::Fish(_) => "contents/fish.png",
        Content::Building => "contents/building.png",
        Content::Bush(_) => "contents/bush.png",
        Content::JollyBlock(_) => "contents/star.png",
        Content::Scarecrow => "contents/scarecrow.png",
        Content::Nothing => "contents/none.png",
    }
}

/// Returns the picture of a content.
pub fn content_texture(c: Content) -> (r: &'static str)
    ensures
        r == content_picture(c),
{
    match c {
        Content::Rock(_) => "contents/rock.png",
        Content::Tree(_) => "contents/tree.png",
        Content::Garbage(_) => "contents/garbage.png",
        Content::Fire => "contents/fire.png",
        Content::Coin(_) => "contents/coin.png",
        Content::Bin(_, _) => "contents/bin.png",
        Content::Crate(_, _) => "contents/crate.png",
        Content::Bank(_, _) => "contents/bank.png",
        Content::Water(_) => "contents/water.png",
        Content::Market(_) => "contents/market.png",
        Content::Fish(_) => "contents/fish.png",
        Content::Building => "contents/building.png",
        Content::Bush(_) => "contents/bush.png",
        Content::JollyBlock(_) => "contents/star.png",
        Content::Scarecrow => "contents/scarecrow.png",
        Content::Nothing => "contents/none.png",
    }
}

/// Whether a tile's content is drawn as a cube on the 3D map: everything but an empty tile.
pub fn shows_content(c: Content) -> (r: bool)
    ensures
        r == (c != Content::Nothing),
{
    match c {
        Content::Nothing => false,
        _ => true,
    }
}

/// The picture of a kind of ground on the little map.
pub open spec fn map_tile_picture(t: TileType) -> &'static str {
    match t {
        TileType::DeepWater => "tile_texture/deepwater.png",
        TileType::ShallowWater => "tile_texture/shallowater.png",
        TileType::Sand => "tile_texture/sand.png",
        TileType::Grass => "tile_texture/grass.png",
        TileType::Street => "tile_texture/road.png",
        TileType::Hill => "tile_texture/hill.png",
        TileType::Mountain => "tile_texture/mountain.png",
        TileType::Snow => "tile_texture/snow.png",
        TileType::Lava => "tile_texture/lava.png",
        TileType::Teleport(_) => "tile_texture/teleport.png",
        TileType::Wall => "tile_texture/wall.png",
    }
}

/// The picture of a kind of ground on the 3D map; it differs from the little
/// map's only for shallow water.
pub open spec fn block_picture(t: TileType) -> &'static str {
    match t {
        TileType::ShallowWater => "tile_texture/shallow_water.png",
        _ => map_tile_picture(t),
    }
}

/// Returns the picture of a kind of ground on the little map.
pub fn map_tile_texture(t: TileType) -> (r: &'static str)
    ensures
        r == map_tile_picture(t),
{
    match t {
        TileType::DeepWater => "tile_texture/deepwater.png",
        TileType::ShallowWater => "tile_texture/shallowater.png",
        TileType::Sand => "tile_texture/sand.png",
        TileType::Grass => "tile_texture/grass.png",
        TileType::Street => "tile_texture/road.png",
        TileType::Hill => "tile_texture/hill.png",
        TileType::Mountain => "tile_texture/mountain.png",
        TileType::Snow => "tile_texture/snow.png",
        TileType::Lava => "tile_texture/lava.png",
        TileType::Teleport(_) => "tile_texture/teleport.png",
        TileType::Wall => "tile_texture/wall.png",
    }
}

/// Returns the picture of a kind of ground on the 3D map.
pub fn block_texture(t: TileType) -> (r: &'static str)
    ensures
        r == block_picture(t),
{
    match t {
        TileType::ShallowWater => "tile_texture/shallow_water.png",
        _ => map_tile_texture(t),
    }
}

/// The picture of the weather.
pub open spec fn weather_picture(w: WeatherType) -> &'static str {
    match w {
        WeatherType::Sunny => "time_weather_texture/sunny.png",
        WeatherType::Rainy => "time_weather_texture/rain.png",
        WeatherType::Foggy => "time_weather_texture/fog.png",
        WeatherType::TropicalMonsoon => "time_weather_texture/monsoon.png",
        WeatherType::TrentinoSnow => "time_weather_texture/snow.png",
    }
}

/// Returns the picture of the weather.
pub fn weather_texture(w: WeatherType) -> (r: &'static str)
    ensures
        r == weather_picture(w),
{
    match w {
        WeatherType::Sunny => "time_weather_texture/sunny.png",
        WeatherType::Rainy => "time_weather_texture/rain.png",
        WeatherType::Foggy => "time_weather_texture/fog.png",
        WeatherType::TropicalMonsoon => "time_weather_texture/monsoon.png",
        WeatherType::TrentinoSnow => "time_weather_texture/snow.png",
    }
}

/// The picture of the time of day.
pub open spec fn daytime_picture(d: DayTime) -> &'static str {
    match d {
        DayTime::Morning => "time_weather_texture/morning.png",
        DayTime::Afternoon => "time_weather_texture/evening.png",
        DayTime::Night => "time_weather_texture/night.png",
    }
}

/// Returns the picture of the time of day.
pub fn daytime_texture(d: DayTime) -> (r: &'static str)
    ensures
        r == daytime_picture(d),
{
    match d {
        DayTime::Morning => "time_weather_texture/morning.png",
        DayTime::Afternoon => "time_weather_texture/evening.png",
        DayTime::Night => "time_weather_texture/night.png",
    }
}

/// The picture of a cell of the little map: the unknown picture where the
/// robot has not looked, else that of the ground.
pub open spec fn cell_picture(cell: Option<Tile>) -> &'static str {
    match cell {
        None => "tile_texture/none.png",
        Some(t) => map_tile_picture(t.tile_type),
    }
}

/// Returns the picture of a cell of the little map.
pub fn cell_texture(cell: Option<Tile>) -> (r: &'static str)
    ensures
        r == cell_picture(cell),
{
    match cell {
        None => "tile_texture/none.png",
        Some(t) => map_tile_texture(t.tile_type),
    }
}

/// The heights of the blocks a column of the 3D map is drawn with: from the
/// tile's elevation down, one block per level, at most `MAX_COLUMN_BLOCKS`
/// blocks and none below zero.
pub open spec fn column_levels(elevation: usize) -> Seq<usize> {
    let n = if elevation < MAX_COLUMN_BLOCKS { elevation + 1 } else { MAX_COLUMN_BLOCKS as int };
    Seq::new(n as nat, |i: int| (elevation - i) as usize)
}

/// Returns the heights of the blocks of a column of the 3D map, from the top down.
pub fn block_levels(elevation: usize) -> (r: Vec<usize>)
    ensures
        r@ == column_levels(elevation),
{
    let mut r: Vec<usize> = Vec::new();
    let mut i: usize = 0;
    while i < MAX_COLUMN_BLOCKS
        invariant
            0 <= i <= MAX_COLUMN_BLOCKS,
            r@.len() == if i <= elevation { i as int } else { elevation + 1 },
            forall|k: int| 0 <= k < r@.len() ==> r@[k] == elevation - k,
        decreases MAX_COLUMN_BLOCKS - i,
    {
        if i <= elevation {
            r.push(elevation - i);
        }
        i = i + 1;
    }
    assert(r@ =~= column_levels(elevation));
    r
}

/// The backpack's slots: its contents, then empty slots until there are
/// `BACKPACK_SLOTS` of them.
pub open spec fn slots(contents: Seq<Content>) -> Seq<Content> {
    if contents.len() < BACKPACK_SLOTS {
        contents + Seq::new((BACKPACK_SLOTS - contents.len()) as nat, |i: int| Content::Nothing)
    } else {
        contents
    }
}

/// Fills the backpack's contents with empty slots up to `BACKPACK_SLOTS`.
pub fn backpack_slots(contents: Vec<Content>) -> (r: Vec<Content>)
    ensures
        r@ == slots(contents@),
        r@.len() >= BACKPACK_SLOTS,
{
    let mut r = contents;
    let ghost start = r@;
    let mut i: usize = 0;
    while i < BACKPACK_SLOTS
        invariant
            0 <= i <= BACKPACK_SLOTS,
            start == contents@,
            r@ == if start.len() + i < BACKPACK_SLOTS {
                start + Seq::new(i as nat, |k: int| Content::Nothing)
            } else if start.len() < BACKPACK_SLOTS {
                slots(start)
            } else {
                start
            },
        decreases BACKPACK_SLOTS - i,
    {
        if r.len() < BACKPACK_SLOTS {
            r.push(Content::Nothing);
        }
        proof {
            if start.len() + i + 1 <= BACKPACK_SLOTS {
                assert(r@ =~= start + Seq::new((i + 1) as nat, |k: int| Content::Nothing));
            }
            if start.len() + i + 1 == BACKPACK_SLOTS {
                assert(r@ =~= slots(start));
            }
        }
        i = i + 1;
    }
    r
}

/// The pictures of the little map: one per cell of the first `world.len()`
/// columns of each row.
pub fn map_textures(world: &Vec<Vec<Option<Tile>>>) -> (r: Vec<Vec<&'static str>>)
    requires
        forall|i: int| 0 <= i < world@.len() ==> (#[trigger] world@[i])@.len() >= world@.len(),
    ensures
        r@.len() == world@.len(),
        forall|i: int| 0 <= i < world@.len() ==> (#[trigger] r@[i])@.len() == world@.len(),
        forall|i: int, j: int|
            0 <= i < world@.len() && 0 <= j < world@.len() ==> r@[i]@[j] == cell_picture(
                world@[i]@[j],
            ),
{
    let n = world.len();
    let mut r: Vec<Vec<&'static str>> = Vec::new();
    let mut row: usize = 0;
    while row < n
        invariant
            0 <= row <= n,
            n == world@.len(),
            forall|i: int| 0 <= i < world@.len() ==> (#[trigger] world@[i])@.len() >= world@.len(),
            r@.len() == row,
            forall|i: int| 0 <= i < row ==> (#[trigger] r@[i])@.len() == n,
            forall|i: int, j: int|
                0 <= i < row && 0 <= j < n ==> r@[i]@[j] == cell_picture(world@[i]@[j]),
        decreases n - row,
    {
        let mut line: Vec<&'static str> = Vec::new();
        let mut col: usize = 0;
        assert(world@[row as int]@.len() >= n);
        while col < n
            invariant
                0 <= col <= n,
                0 <= row < n,
                n == world@.len(),
                world@[row as int]@.len() >= n,
                line@.len() == col,
                forall|j: int| 0 <= j < col ==> line@[j] == cell_picture(world@[row as int]@[j]),
            decreases n - col,
        {
            line.push(cell_texture(world[row][col]));
            col = col + 1;
        }
        r.push(line);
        row = row + 1;
    }
    r
}

} // verus!
