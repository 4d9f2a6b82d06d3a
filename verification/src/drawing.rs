//! Drawings the robot lays out with materials: free plots found on its map,
//! the pixel blueprint of each kind and size of drawing, and its progress.
use vstd::prelude::*;
use vstd::string::StringExecFns;
use crate::lumberjack::{coords_before, Coords};
use crate::random::random_below;
use crate::world::{grid_view, Content, Tile, TileType};

verus! {

/// A rectangle of the map, given by its top-left and bottom-right corners (row, column).
#[derive(Clone, Copy, Debug)]
pub struct Plot {
    pub top_left: Coords,
    pub bottom_right: Coords,
}

impl Plot {
    /// The plot covering just the origin.
    pub fn new() -> (r: Self)
        ensures
            r.top_left == (0usize, 0usize),
            r.bottom_right == (0usize, 0usize),
    {
        Self { top_left: (0, 0), bottom_right: (0, 0) }
    }
}

/// The kind of a drawing, which is also the material it is drawn with.
#[derive(Clone, Copy, Debug, PartialEq, Eq, Structural)]
pub enum DrawingType {
    Coin,
    Rock,
    Tree,
    JollyBlock,
}

#[derive(Clone, Copy, Debug, PartialEq, Eq, Structural)]
pub enum DrawingSize {
    Small,
    Medium,
    Large,
}

/// The positions to fill, and how many of them are filled already.
#[derive(Debug)]
pub struct Blueprint {
    pub pixels: Vec<Coords>,
    pub pixel_index: usize,
}

impl Blueprint {
    /// An empty blueprint.
    pub fn new() -> (r: Self)
        ensures
            r.pixels@ == Seq::<Coords>::empty(),
            r.pixel_index == 0,
    {
        Self { pixels: Vec::new(), pixel_index: 0 }
    }

    /// The filled count does not run past the pixels.
    pub open spec fn wf(&self) -> bool {
        self.pixel_index <= self.pixels@.len() <= usize::MAX
    }

    /// The next position to fill, if any is left.
    pub open spec fn next_pixel(&self) -> Option<Coords> {
        if self.pixel_index == self.pixels@.len() {
            None
        } else {
            Some(self.pixels@[self.pixel_index as int])
        }
    }

    /// Returns the next position to fill, or `None` once all are filled.
    pub fn get_pixel(&self) -> (r: Option<Coords>)
        requires
            self.wf(),
        ensures
            r == self.next_pixel(),
    {
        if self.pixel_index == self.pixels.len() {
            None
        } else {
            Some(self.pixels[self.pixel_index])
        }
    }
}

/// The pixel offsets, relative to the plot's top-left corner, of each kind and size of drawing.
pub open spec fn blueprint_offsets(kind: DrawingType, size: DrawingSize) -> Seq<(usize, usize)> {
    match (kind, size) {
        (DrawingType::Coin, DrawingSize::Small) => seq![(0, 1), (1, 0), (1, 2), (2, 0), (2, 2), (3, 1)],
        (DrawingType::Coin, DrawingSize::Medium) => seq![(0, 2), (1, 1), (1, 2), (1, 3), (2, 0), (2, 4), (3, 0), (3, 2), (3, 4), (4, 0), (4, 2), (4, 4), (5, 0), (5, 4), (6, 1), (6, 2), (6, 3), (7, 2)],
        (DrawingType::Coin, DrawingSize::Large) => seq![(0, 3), (1, 2), (1, 3), (1, 4), (2, 1), (2, 5), (3, 0), (3, 6), (4, 0), (4, 3), (4, 6), (5, 0), (5, 3), (5, 6), (6, 0), (6, 6), (7, 1), (7, 5), (8, 2), (8, 3), (8, 4), (9, 3)],
        (DrawingType::Rock, DrawingSize::Small) => seq![(0, 2), (0, 3), (1, 0), (1, 1), (1, 3), (2, 0), (2, 1), (2, 2)],
        (DrawingType::Rock, DrawingSize::Medium) => seq![(0, 3), (0, 4), (1, 2), (1, 4), (2, 1), (2, 3), (2, 5), (3, 0), (3, 1), (3, 2), (3, 3), (3, 4), (3, 5)],
        (DrawingType::Rock, DrawingSize::Large) => seq![(0, 2), (0, 3), (0, 4), (1, 1), (1, 3), (1, 5), (1, 6), (2, 0), (2, 2), (2, 5), (3, 0), (3, 2), (3, 4), (3, 5), (4, 0), (4, 3), (4, 5), (4, 6), (5, 1), (5, 2), (5, 3), (5, 4), (5, 5)],
        (DrawingType::Tree, DrawingSize::Small) => seq![(0, 2), (1, 1), (1, 2), (1, 3), (2, 1), (2, 3), (3, 0), (3, 1), (3, 2), (3, 3), (3, 4), (4, 2)],
        (DrawingType::Tree, DrawingSize::Medium) => seq![(0, 1), (0, 2), (0, 3), (0, 4), (1, 0), (1, 5), (2, 0), (2, 5), (3, 1), (3, 4), (3, 5), (4, 0), (4, 2), (4, 3), (5, 1), (5, 2), (5, 3), (5, 4), (6, 2), (6, 3)],
        (DrawingType::Tree, DrawingSize::Large) => seq![(0, 3), (1, 3), (2, 2), (2, 3), (2, 4), (3, 1), (3, 2), (3, 4), (3, 5), (4, 2), (4, 3), (4, 4), (5, 1), (5, 2), (5, 4), (5, 5), (6, 0), (6, 1), (6, 2), (6, 3), (6, 4), (6, 5), (6, 6), (7, 3), (8, 3)],
        (DrawingType::JollyBlock, DrawingSize::Small) => seq![(0, 0), (0, 1), (0, 2), (1, 0), (1, 2), (2, 0), (2, 1), (2, 2)],
        (DrawingType::JollyBlock, DrawingSize::Medium) => seq![(0, 0), (0, 1), (0, 2), (0, 3), (0, 4), (1, 0), (1, 4), (2, 0), (2, 2), (2, 4), (3, 0), (3, 4), (4, 0), (4, 1), (4, 2), (4, 3), (4, 4)],
        (DrawingType::JollyBlock, DrawingSize::Large) => seq![(0, 1), (0, 2), (0, 3), (1, 0), (1, 4), (2, 0), (2, 4), (2, 5), (3, 4), (4, 3), (5, 2), (7, 2)],
    }
}

/// The pixels of a drawing whose plot starts at `top_left`.
pub open spec fn blueprint_pixels(top_left: Coords, kind: DrawingType, size: DrawingSize) -> Seq<Coords> {
    blueprint_offsets(kind, size).map_values(
        |o: (usize, usize)| ((top_left.0 + o.0) as usize, (top_left.1 + o.1) as usize),
    )
}

/// A plot corner far enough from the end of the coordinates for every blueprint offset.
pub open spec fn corner_fits(top_left: Coords) -> bool {
    top_left.0 + 9 <= usize::MAX && top_left.1 + 9 <= usize::MAX
}

/// The coin pictures: the pixels a coin of each size is drawn
/// with, row by row, each as its row and column below and right of the plot's
/// top-left corner `tl`.
pub proof fn lemma_coin_pictures(tl: Coords)
    requires
        corner_fits(tl),
    ensures
        blueprint_pixels(tl, DrawingType::Coin, DrawingSize::Small) == seq![
            ((tl.0 + 0) as usize, (tl.1 + 1) as usize),
            ((tl.0 + 1) as usize, (tl.1 + 0) as usize), ((tl.0 + 1) as usize, (tl.1 + 2) as usize),
            ((tl.0 + 2) as usize, (tl.1 + 0) as usize), ((tl.0 + 2) as usize, (tl.1 + 2) as usize),
            ((tl.0 + 3) as usize, (tl.1 + 1) as usize),
        ],
        blueprint_pixels(tl, DrawingType::Coin, DrawingSize::Medium) == seq![
            ((tl.0 + 0) as usize, (tl.1 + 2) as usize),
            ((tl.0 + 1) as usize, (tl.1 + 1) as usize), ((tl.0 + 1) as usize, (tl.1 + 2) as usize), ((tl.0 + 1) as usize, (tl.1 + 3) as usize),
            ((tl.0 + 2) as usize, (tl.1 + 0) as usize), ((tl.0 + 2) as usize, (tl.1 + 4) as usize),
            ((tl.0 + 3) as usize, (tl.1 + 0) as usize), ((tl.0 + 3) as usize, (tl.1 + 2) as usize), ((tl.0 + 3) as usize, (tl.1 + 4) as usize),
            ((tl.0 + 4) as usize, (tl.1 + 0) as usize), ((tl.0 + 4) as usize, (tl.1 + 2) as usize), ((tl.0 + 4) as usize, (tl.1 + 4) as usize),
            ((tl.0 + 5) as usize, (tl.1 + 0) as usize), ((tl.0 + 5) as usize, (tl.1 + 4) as usize),
            ((tl.0 + 6) as usize, (tl.1 + 1) as usize), ((tl.0 + 6) as usize, (tl.1 + 2) as usize), ((tl.0 + 6) as usize, (tl.1 + 3) as usize),
            ((tl.0 + 7) as usize, (tl.1 + 2) as usize),
        ],
        blueprint_pixels(tl, DrawingType::Coin, DrawingSize::Large) == seq![
            ((tl.0 + 0) as usize, (tl.1 + 3) as usize),
            ((tl.0 + 1) as usize, (tl.1 + 2) as usize), ((tl.0 + 1) as usize, (tl.1 + 3) as usize), ((tl.0 + 1) as usize, (tl.1 + 4) as usize),
            ((tl.0 + 2) as usize, (tl.1 + 1) as usize), ((tl.0 + 2) as usize, (tl.1 + 5) as usize),
            ((tl.0 + 3) as usize, (tl.1 + 0) as usize), ((tl.0 + 3) as usize, (tl.1 + 6) as usize),
            ((tl.0 + 4) as usize, (tl.1 + 0) as usize), ((tl.0 + 4) as usize, (tl.1 + 3) as usize), ((tl.0 + 4) as usize, (tl.1 + 6) as usize),
            ((tl.0 + 5) as usize, (tl.1 + 0) as usize), ((tl.0 + 5) as usize, (tl.1 + 3) as usize), ((tl.0 + 5) as usize, (tl.1 + 6) as usize),
            ((tl.0 + 6) as usize, (tl.1 + 0) as usize), ((tl.0 + 6) as usize, (tl.1 + 6) as usize),
            ((tl.0 + 7) as usize, (tl.1 + 1) as usize), ((tl.0 + 7) as usize, (tl.1 + 5) as usize),
            ((tl.0 + 8) as usize, (tl.1 + 2) as usize), ((tl.0 + 8) as usize, (tl.1 + 3) as usize), ((tl.0 + 8) as usize, (tl.1 + 4) as usize),
            ((tl.0 + 9) as usize, (tl.1 + 3) as usize),
        ],
{
}

/// The rock pictures: the pixels a rock of each size is drawn
/// with, row by row, each as its row and column below and right of the plot's
/// top-left corner `tl`.
pub proof fn lemma_rock_pictures(tl: Coords)
    requires
        corner_fits(tl),
    ensures
        blueprint_pixels(tl, DrawingType::Rock, DrawingSize::Small) == seq![
            ((tl.0 + 0) as usize, (tl.1 + 2) as usize), ((tl.0 + 0) as usize, (tl.1 + 3) as usize),
            ((tl.0 + 1) as usize, (tl.1 + 0) as usize), ((tl.0 + 1) as usize, (tl.1 + 1) as usize), ((tl.0 + 1) as usize, (tl.1 + 3) as usize),
            ((tl.0 + 2) as usize, (tl.1 + 0) as usize), ((tl.0 + 2) as usize, (tl.1 + 1) as usize), ((tl.0 + 2) as usize, (tl.1 + 2) as usize),
        ],
        blueprint_pixels(tl, DrawingType::Rock, DrawingSize::Medium) == seq![
            ((tl.0 + 0) as usize, (tl.1 + 3) as usize), ((tl.0 + 0) as usize, (tl.1 + 4) as usize),
            ((tl.0 + 1) as usize, (tl.1 + 2) as usize), ((tl.0 + 1) as usize, (tl.1 + 4) as usize),
            ((tl.0 + 2) as usize, (tl.1 + 1) as usize), ((tl.0 + 2) as usize, (tl.1 + 3) as usize), ((tl.0 + 2) as usize, (tl.1 + 5) as usize),
            ((tl.0 + 3) as usize, (tl.1 + 0) as usize), ((tl.0 + 3) as usize, (tl.1 + 1) as usize), ((tl.0 + 3) as usize, (tl.1 + 2) as usize), ((tl.0 + 3) as usize, (tl.1 + 3) as usize), ((tl.0 + 3) as usize, (tl.1 + 4) as usize), ((tl.0 + 3) as usize, (tl.1 + 5) as usize),
        ],
        blueprint_pixels(tl, DrawingType::Rock, DrawingSize::Large) == seq![
            ((tl.0 + 0) as usize, (tl.1 + 2) as usize), ((tl.0 + 0) as usize, (tl.1 + 3) as usize), ((tl.0 + 0) as usize, (tl.1 + 4) as usize),
            ((tl.0 + 1) as usize, (tl.1 + 1) as usize), ((tl.0 + 1) as usize, (tl.1 + 3) as usize), ((tl.0 + 1) as usize, (tl.1 + 5) as usize), ((tl.0 + 1) as usize, (tl.1 + 6) as usize),
            ((tl.0 + 2) as usize, (tl.1 + 0) as usize), ((tl.0 + 2) as usize, (tl.1 + 2) as usize), ((tl.0 + 2) as usize, (tl.1 + 5) as usize),
            ((tl.0 + 3) as usize, (tl.1 + 0) as usize), ((tl.0 + 3) as usize, (tl.1 + 2) as usize), ((tl.0 + 3) as usize, (tl.1 + 4) as usize), ((tl.0 + 3) as usize, (tl.1 + 5) as usize),
            ((tl.0 + 4) as usize, (tl.1 + 0) as usize), ((tl.0 + 4) as usize, (tl.1 + 3) as usize), ((tl.0 + 4) as usize, (tl.1 + 5) as usize), ((tl.0 + 4) as usize, (tl.1 + 6) as usize),
            ((tl.0 + 5) as usize, (tl.1 + 1) as usize), ((tl.0 + 5) as usize, (tl.1 + 2) as usize), ((tl.0 + 5) as usize, (tl.1 + 3) as usize), ((tl.0 + 5) as usize, (tl.1 + 4) as usize), ((tl.0 + 5) as usize, (tl.1 + 5) as usize),
        ],
{
}

/// The tree pictures: the pixels a tree of each size is drawn
/// with, row by row, each as its row and column below and right of the plot's
/// top-left corner `tl`.
pub proof fn lemma_tree_pictures(tl: Coords)
    requires
        corner_fits(tl),
    ensures
        blueprint_pixels(tl, DrawingType::Tree, DrawingSize::Small) == seq![
            ((tl.0 + 0) as usize, (tl.1 + 2) as usize),
            ((tl.0 + 1) as usize, (tl.1 + 1) as usize), ((tl.0 + 1) as usize, (tl.1 + 2) as usize), ((tl.0 + 1) as usize, (tl.1 + 3) as usize),
            ((tl.0 + 2) as usize, (tl.1 + 1) as usize), ((tl.0 + 2) as usize, (tl.1 + 3) as usize),
            ((tl.0 + 3) as usize, (tl.1 + 0) as usize), ((tl.0 + 3) as usize, (tl.1 + 1) as usize), ((tl.0 + 3) as usize, (tl.1 + 2) as usize), ((tl.0 + 3) as usize, (tl.1 + 3) as usize), ((tl.0 + 3) as usize, (tl.1 + 4) as usize),
            ((tl.0 + 4) as usize, (tl.1 + 2) as usize),
        ],
        blueprint_pixels(tl, DrawingType::Tree, DrawingSize::Medium) == seq![
            ((tl.0 + 0) as usize, (tl.1 + 1) as usize), ((tl.0 + 0) as usize, (tl.1 + 2) as usize), ((tl.0 + 0) as usize, (tl.1 + 3) as usize), ((tl.0 + 0) as usize, (tl.1 + 4) as usize),
            ((tl.0 + 1) as usize, (tl.1 + 0) as usize), ((tl.0 + 1) as usize, (tl.1 + 5) as usize),
            ((tl.0 + 2) as usize, (tl.1 + 0) as usize), ((tl.0 + 2) as usize, (tl.1 + 5) as usize),
            ((tl.0 + 3) as usize, (tl.1 + 1) as usize), ((tl.0 + 3) as usize, (tl.1 + 4) as usize), ((tl.0 + 3) as usize, (tl.1 + 5) as usize),
            ((tl.0 + 4) as usize, (tl.1 + 0) as usize), ((tl.0 + 4) as usize, (tl.1 + 2) as usize), ((tl.0 + 4) as usize, (tl.1 + 3) as usize),
            ((tl.0 + 5) as usize, (tl.1 + 1) as usize), ((tl.0 + 5) as usize, (tl.1 + 2) as usize), ((tl.0 + 5) as usize, (tl.1 + 3) as usize), ((tl.0 + 5) as usize, (tl.1 + 4) as usize),
            ((tl.0 + 6) as usize, (tl.1 + 2) as usize), ((tl.0 + 6) as usize, (tl.1 + 3) as usize),
        ],
        blueprint_pixels(tl, DrawingType::Tree, DrawingSize::Large) == seq![
            ((tl.0 + 0) as usize, (tl.1 + 3) as usize),
            ((tl.0 + 1) as usize, (tl.1 + 3) as usize),
            ((tl.0 + 2) as usize, (tl.1 + 2) as usize), ((tl.0 + 2) as usize, (tl.1 + 3) as usize), ((tl.0 + 2) as usize, (tl.1 + 4) as usize),
            ((tl.0 + 3) as usize, (tl.1 + 1) as usize), ((tl.0 + 3) as usize, (tl.1 + 2) as usize), ((tl.0 + 3) as usize, (tl.1 + 4) as usize), ((tl.0 + 3) as usize, (tl.1 + 5) as usize),
            ((tl.0 + 4) as usize, (tl.1 + 2) as usize), ((tl.0 + 4) as usize, (tl.1 + 3) as usize), ((tl.0 + 4) as usize, (tl.1 + 4) as usize),
            ((tl.0 + 5) as usize, (tl.1 + 1) as usize), ((tl.0 + 5) as usize, (tl.1 + 2) as usize), ((tl.0 + 5) as usize, (tl.1 + 4) as usize), ((tl.0 + 5) as usize, (tl.1 + 5) as usize),
            ((tl.0 + 6) as usize, (tl.1 + 0) as usize), ((tl.0 + 6) as usize, (tl.1 + 1) as usize), ((tl.0 + 6) as usize, (tl.1 + 2) as usize), ((tl.0 + 6) as usize, (tl.1 + 3) as usize), ((tl.0 + 6) as usize, (tl.1 + 4) as usize), ((tl.0 + 6) as usize, (tl.1 + 5) as usize), ((tl.0 + 6) as usize, (tl.1 + 6) as usize),
            ((tl.0 + 7) as usize, (tl.1 + 3) as usize),
            ((tl.0 + 8) as usize, (tl.1 + 3) as usize),
        ],
{
}

/// The jolly block pictures: the pixels a jolly block of each size is drawn
/// with, row by row, each as its row and column below and right of the plot's
/// top-left corner `tl`.
pub proof fn lemma_jolly_block_pictures(tl: Coords)
    requires
        corner_fits(tl),
    ensures
        blueprint_pixels(tl, DrawingType::JollyBlock, DrawingSize::Small) == seq![
            ((tl.0 + 0) as usize, (tl.1 + 0) as usize), ((tl.0 + 0) as usize, (tl.1 + 1) as usize), ((tl.0 + 0) as usize, (tl.1 + 2) as usize),
            ((tl.0 + 1) as usize, (tl.1 + 0) as usize), ((tl.0 + 1) as usize, (tl.1 + 2) as usize),
            ((tl.0 + 2) as usize, (tl.1 + 0) as usize), ((tl.0 + 2) as usize, (tl.1 + 1) as usize), ((tl.0 + 2) as usize, (tl.1 + 2) as usize),
        ],
        blueprint_pixels(tl, DrawingType::JollyBlock, DrawingSize::Medium) == seq![
            ((tl.0 + 0) as usize, (tl.1 + 0) as usize), ((tl.0 + 0) as usize, (tl.1 + 1) as usize), ((tl.0 + 0) as usize, (tl.1 + 2) as usize), ((tl.0 + 0) as usize, (tl.1 + 3) as usize), ((tl.0 + 0) as usize, (tl.1 + 4) as usize),
            ((tl.0 + 1) as usize, (tl.1 + 0) as usize), ((tl.0 + 1) as usize, (tl.1 + 4) as usize),
            ((tl.0 + 2) as usize, (tl.1 + 0) as usize), ((tl.0 + 2) as usize, (tl.1 + 2) as usize), ((tl.0 + 2) as usize, (tl.1 + 4) as usize),
            ((tl.0 + 3) as usize, (tl.1 + 0) as usize), ((tl.0 + 3) as usize, (tl.1 + 4) as usize),
            ((tl.0 + 4) as usize, (tl.1 + 0) as usize), ((tl.0 + 4) as usize, (tl.1 + 1) as usize), ((tl.0 + 4) as usize, (tl.1 + 2) as usize), ((tl.0 + 4) as usize, (tl.1 + 3) as usize), ((tl.0 + 4) as usize, (tl.1 + 4) as usize),
        ],
        blueprint_pixels(tl, DrawingType::JollyBlock, DrawingSize::Large) == seq![
            ((tl.0 + 0) as usize, (tl.1 + 1) as usize), ((tl.0 + 0) as usize, (tl.1 + 2) as usize), ((tl.0 + 0) as usize, (tl.1 + 3) as usize),
            ((tl.0 + 1) as usize, (tl.1 + 0) as usize), ((tl.0 + 1) as usize, (tl.1 + 4) as usize),
            ((tl.0 + 2) as usize, (tl.1 + 0) as usize), ((tl.0 + 2) as usize, (tl.1 + 4) as usize), ((tl.0 + 2) as usize, (tl.1 + 5) as usize),
            ((tl.0 + 3) as usize, (tl.1 + 4) as usize),
            ((tl.0 + 4) as usize, (tl.1 + 3) as usize),
            ((tl.0 + 5) as usize, (tl.1 + 2) as usize),
            ((tl.0 + 7) as usize, (tl.1 + 2) as usize),
        ],
{
}


/// Returns the pixels of a coin drawing of the given size whose plot starts at `tl`.
fn coin_pixels(tl: Coords, size: DrawingSize) -> (r: Vec<Coords>)
    requires
        corner_fits(tl),
    ensures
        r@ == blueprint_pixels(tl, DrawingType::Coin, size),
{
    let mut input_pixels: Vec<Coords> = Vec::new();
    match size {
        DrawingSize::Small => {
            input_pixels.push((tl.0, tl.1 + 1));
            input_pixels.push((tl.0 + 1, tl.1));
            input_pixels.push((tl.0 + 1, tl.1 + 2));
            input_pixels.push((tl.0 + 2, tl.1));
            input_pixels.push((tl.0 + 2, tl.1 + 2));
            input_pixels.push((tl.0 + 3, tl.1 + 1));
        },
        DrawingSize::Medium => {
            input_pixels.push((tl.0, tl.1 + 2));
            input_pixels.push((tl.0 + 1, tl.1 + 1));
            input_pixels.push((tl.0 + 1, tl.1 + 2));
            input_pixels.push((tl.0 + 1, tl.1 + 3));
            input_pixels.push((tl.0 + 2, tl.1));
            input_pixels.push((tl.0 + 2, tl.1 + 4));
            input_pixels.push((tl.0 + 3, tl.1));
            input_pixels.push((tl.0 + 3, tl.1 + 2));
            input_pixels.push((tl.0 + 3, tl.1 + 4));
            input_pixels.push((tl.0 + 4, tl.1));
            input_pixels.push((tl.0 + 4, tl.1 + 2));
            input_pixels.push((tl.0 + 4, tl.1 + 4));
            input_pixels.push((tl.0 + 5, tl.1));
            input_pixels.push((tl.0 + 5, tl.1 + 4));
            input_pixels.push((tl.0 + 6, tl.1 + 1));
            input_pixels.push((tl.0 + 6, tl.1 + 2));
            input_pixels.push((tl.0 + 6, tl.1 + 3));
            input_pixels.push((tl.0 + 7, tl.1 + 2));
        },
        DrawingSize::Large => {
            input_pixels.push((tl.0, tl.1 + 3));
            input_pixels.push((tl.0 + 1, tl.1 + 2));
            input_pixels.push((tl.0 + 1, tl.1 + 3));
            input_pixels.push((tl.0 + 1, tl.1 + 4));
            input_pixels.push((tl.0 + 2, tl.1 + 1));
            input_pixels.push((tl.0 + 2, tl.1 + 5));
            input_pixels.push((tl.0 + 3, tl.1));
            input_pixels.push((tl.0 + 3, tl.1 + 6));
            input_pixels.push((tl.0 + 4, tl.1));
            input_pixels.push((tl.0 + 4, tl.1 + 3));
            input_pixels.push((tl.0 + 4, tl.1 + 6));
            input_pixels.push((tl.0 + 5, tl.1));
            input_pixels.push((tl.0 + 5, tl.1 + 3));
            input_pixels.push((tl.0 + 5, tl.1 + 6));
            input_pixels.push((tl.0 + 6, tl.1));
            input_pixels.push((tl.0 + 6, tl.1 + 6));
            input_pixels.push((tl.0 + 7, tl.1 + 1));
            input_pixels.push((tl.0 + 7, tl.1 + 5));
            input_pixels.push((tl.0 + 8, tl.1 + 2));
            input_pixels.push((tl.0 + 8, tl.1 + 3));
            input_pixels.push((tl.0 + 8, tl.1 + 4));
            input_pixels.push((tl.0 + 9, tl.1 + 3));
        },
    }
    assert(input_pixels@ =~= blueprint_pixels(tl, DrawingType::Coin, size));
    input_pixels
}

/// Returns the pixels of a rock drawing of the given size whose plot starts at `tl`.
fn rock_pixels(tl: Coords, size: DrawingSize) -> (r: Vec<Coords>)
    requires
        corner_fits(tl),
    ensures
        r@ == blueprint_pixels(tl, DrawingType::Rock, size),
{
    let mut input_pixels: Vec<Coords> = Vec::new();
    match size {
        DrawingSize::Small => {
            input_pixels.push((tl.0, tl.1 + 2));
            input_pixels.push((tl.0, tl.1 + 3));
            input_pixels.push((tl.0 + 1, tl.1));
            input_pixels.push((tl.0 + 1, tl.1 + 1));
            input_pixels.push((tl.0 + 1, tl.1 + 3));
            input_pixels.push((tl.0 + 2, tl.1));
            input_pixels.push((tl.0 + 2, tl.1 + 1));
            input_pixels.push((tl.0 + 2, tl.1 + 2));
        },
        DrawingSize::Medium => {
            input_pixels.push((tl.0, tl.1 + 3));
            input_pixels.push((tl.0, tl.1 + 4));
            input_pixels.push((tl.0 + 1, tl.1 + 2));
            input_pixels.push((tl.0 + 1, tl.1 + 4));
            input_pixels.push((tl.0 + 2, tl.1 + 1));
            input_pixels.push((tl.0 + 2, tl.1 + 3));
            input_pixels.push((tl.0 + 2, tl.1 + 5));
            input_pixels.push((tl.0 + 3, tl.1));
            input_pixels.push((tl.0 + 3, tl.1 + 1));
            input_pixels.push((tl.0 + 3, tl.1 + 2));
            input_pixels.push((tl.0 + 3, tl.1 + 3));
            input_pixels.push((tl.0 + 3, tl.1 + 4));
            input_pixels.push((tl.0 + 3, tl.1 + 5));
        },
        DrawingSize::Large => {
            input_pixels.push((tl.0, tl.1 + 2));
            input_pixels.push((tl.0, tl.1 + 3));
            input_pixels.push((tl.0, tl.1 + 4));
            input_pixels.push((tl.0 + 1, tl.1 + 1));
            input_pixels.push((tl.0 + 1, tl.1 + 3));
            input_pixels.push((tl.0 + 1, tl.1 + 5));
            input_pixels.push((tl.0 + 1, tl.1 + 6));
            input_pixels.push((tl.0 + 2, tl.1));
            input_pixels.push((tl.0 + 2, tl.1 + 2));
            input_pixels.push((tl.0 + 2, tl.1 + 5));
            input_pixels.push((tl.0 + 3, tl.1));
            input_pixels.push((tl.0 + 3, tl.1 + 2));
            input_pixels.push((tl.0 + 3, tl.1 + 4));
            input_pixels.push((tl.0 + 3, tl.1 + 5));
            input_pixels.push((tl.0 + 4, tl.1));
            input_pixels.push((tl.0 + 4, tl.1 + 3));
            input_pixels.push((tl.0 + 4, tl.1 + 5));
            input_pixels.push((tl.0 + 4, tl.1 + 6));
            input_pixels.push((tl.0 + 5, tl.1 + 1));
            input_pixels.push((tl.0 + 5, tl.1 + 2));
            input_pixels.push((tl.0 + 5, tl.1 + 3));
            input_pixels.push((tl.0 + 5, tl.1 + 4));
            input_pixels.push((tl.0 + 5, tl.1 + 5));
        },
    }
    assert(input_pixels@ =~= blueprint_pixels(tl, DrawingType::Rock, size));
    input_pixels
}

/// Returns the pixels of a tree drawing of the given size whose plot starts at `tl`.
fn tree_pixels(tl: Coords, size: DrawingSize) -> (r: Vec<Coords>)
    requires
        corner_fits(tl),
    ensures
        r@ == blueprint_pixels(tl, DrawingType::Tree, size),
{
    let mut input_pixels: Vec<Coords> = Vec::new();
    match size {
        DrawingSize::Small => {
            input_pixels.push((tl.0, tl.1 + 2));
            input_pixels.push((tl.0 + 1, tl.1 + 1));
            input_pixels.push((tl.0 + 1, tl.1 + 2));
            input_pixels.push((tl.0 + 1, tl.1 + 3));
            input_pixels.push((tl.0 + 2, tl.1 + 1));
            input_pixels.push((tl.0 + 2, tl.1 + 3));
            input_pixels.push((tl.0 + 3, tl.1));
            input_pixels.push((tl.0 + 3, tl.1 + 1));
            input_pixels.push((tl.0 + 3, tl.1 + 2));
            input_pixels.push((tl.0 + 3, tl.1 + 3));
            input_pixels.push((tl.0 + 3, tl.1 + 4));
            input_pixels.push((tl.0 + 4, tl.1 + 2));
        },
        DrawingSize::Medium => {
            input_pixels.push((tl.0, tl.1 + 1));
            input_pixels.push((tl.0, tl.1 + 2));
            input_pixels.push((tl.0, tl.1 + 3));
            input_pixels.push((tl.0, tl.1 + 4));
            input_pixels.push((tl.0 + 1, tl.1));
            input_pixels.push((tl.0 + 1, tl.1 + 5));
            input_pixels.push((tl.0 + 2, tl.1));
            input_pixels.push((tl.0 + 2, tl.1 + 5));
            input_pixels.push((tl.0 + 3, tl.1 + 1));
            input_pixels.push((tl.0 + 3, tl.1 + 4));
            input_pixels.push((tl.0 + 3, tl.1 + 5));
            input_pixels.push((tl.0 + 4, tl.1));
            input_pixels.push((tl.0 + 4, tl.1 + 2));
            input_pixels.push((tl.0 + 4, tl.1 + 3));
            input_pixels.push((tl.0 + 5, tl.1 + 1));
            input_pixels.push((tl.0 + 5, tl.1 + 2));
            input_pixels.push((tl.0 + 5, tl.1 + 3));
            input_pixels.push((tl.0 + 5, tl.1 + 4));
            input_pixels.push((tl.0 + 6, tl.1 + 2));
            input_pixels.push((tl.0 + 6, tl.1 + 3));
        },
        DrawingSize::Large => {
            input_pixels.push((tl.0, tl.1 + 3));
            input_pixels.push((tl.0 + 1, tl.1 + 3));
            input_pixels.push((tl.0 + 2, tl.1 + 2));
            input_pixels.push((tl.0 + 2, tl.1 + 3));
            input_pixels.push((tl.0 + 2, tl.1 + 4));
            input_pixels.push((tl.0 + 3, tl.1 + 1));
            input_pixels.push((tl.0 + 3, tl.1 + 2));
            input_pixels.push((tl.0 + 3, tl.1 + 4));
            input_pixels.push((tl.0 + 3, tl.1 + 5));
            input_pixels.push((tl.0 + 4, tl.1 + 2));
            input_pixels.push((tl.0 + 4, tl.1 + 3));
            input_pixels.push((tl.0 + 4, tl.1 + 4));
            input_pixels.push((tl.0 + 5, tl.1 + 1));
            input_pixels.push((tl.0 + 5, tl.1 + 2));
            input_pixels.push((tl.0 + 5, tl.1 + 4));
            input_pixels.push((tl.0 + 5, tl.1 + 5));
            input_pixels.push((tl.0 + 6, tl.1));
            input_pixels.push((tl.0 + 6, tl.1 + 1));
            input_pixels.push((tl.0 + 6, tl.1 + 2));
            input_pixels.push((tl.0 + 6, tl.1 + 3));
            input_pixels.push((tl.0 + 6, tl.1 + 4));
            input_pixels.push((tl.0 + 6, tl.1 + 5));
            input_pixels.push((tl.0 + 6, tl.1 + 6));
            input_pixels.push((tl.0 + 7, tl.1 + 3));
            input_pixels.push((tl.0 + 8, tl.1 + 3));
        },
    }
    assert(input_pixels@ =~= blueprint_pixels(tl, DrawingType::Tree, size));
    input_pixels
}

/// Returns the pixels of a jolly-block drawing of the given size whose plot starts at `tl`.
fn jollyblock_pixels(tl: Coords, size: DrawingSize) -> (r: Vec<Coords>)
    requires
        corner_fits(tl),
    ensures
        r@ == blueprint_pixels(tl, DrawingType::JollyBlock, size),
{
    let mut input_pixels: Vec<Coords> = Vec::new();
    match size {
        DrawingSize::Small => {
            input_pixels.push((tl.0, tl.1));
            input_pixels.push((tl.0, tl.1 + 1));
            input_pixels.push((tl.0, tl.1 + 2));
            input_pixels.push((tl.0 + 1, tl.1));
            input_pixels.push((tl.0 + 1, tl.1 + 2));
            input_pixels.push((tl.0 + 2, tl.1));
            input_pixels.push((tl.0 + 2, tl.1 + 1));
            input_pixels.push((tl.0 + 2, tl.1 + 2));
        },
        DrawingSize::Medium => {
            input_pixels.push((tl.0, tl.1));
            input_pixels.push((tl.0, tl.1 + 1));
            input_pixels.push((tl.0, tl.1 + 2));
            input_pixels.push((tl.0, tl.1 + 3));
            input_pixels.push((tl.0, tl.1 + 4));
            input_pixels.push((tl.0 + 1, tl.1));
            input_pixels.push((tl.0 + 1, tl.1 + 4));
            input_pixels.push((tl.0 + 2, tl.1));
            input_pixels.push((tl.0 + 2, tl.1 + 2));
            input_pixels.push((tl.0 + 2, tl.1 + 4));
            input_pixels.push((tl.0 + 3, tl.1));
            input_pixels.push((tl.0 + 3, tl.1 + 4));
            input_pixels.push((tl.0 + 4, tl.1));
            input_pixels.push((tl.0 + 4, tl.1 + 1));
            input_pixels.push((tl.0 + 4, tl.1 + 2));
            input_pixels.push((tl.0 + 4, tl.1 + 3));
            input_pixels.push((tl.0 + 4, tl.1 + 4));
        },
        DrawingSize::Large => {
            input_pixels.push((tl.0, tl.1 + 1));
            input_pixels.push((tl.0, tl.1 + 2));
            input_pixels.push((tl.0, tl.1 + 3));
            input_pixels.push((tl.0 + 1, tl.1));
            input_pixels.push((tl.0 + 1, tl.1 + 4));
            input_pixels.push((tl.0 + 2, tl.1));
            input_pixels.push((tl.0 + 2, tl.1 + 4));
            input_pixels.push((tl.0 + 2, tl.1 + 5));
            input_pixels.push((tl.0 + 3, tl.1 + 4));
            input_pixels.push((tl.0 + 4, tl.1 + 3));
            input_pixels.push((tl.0 + 5, tl.1 + 2));
            input_pixels.push((tl.0 + 7, tl.1 + 2));
        },
    }
    assert(input_pixels@ =~= blueprint_pixels(tl, DrawingType::JollyBlock, size));
    input_pixels
}

/// A coin drawing laid out on `plot`.
#[derive(Debug)]
pub struct Coin {
    pub plot: Plot,
    pub blueprint: Blueprint,
    pub done: bool,
    pub drawing_type: DrawingType,
    pub drawing_size: DrawingSize,
}

impl Coin {
    /// A coin drawing that is not done yet.
    pub fn new(plot: Plot, blueprint: Blueprint, drawing_size: DrawingSize) -> (r: Self)
        ensures
            r.plot == plot,
            r.blueprint == blueprint,
            !r.done,
            r.drawing_type == DrawingType::Coin,
            r.drawing_size == drawing_size,
    {
        Self { plot, blueprint, done: false, drawing_type: DrawingType::Coin, drawing_size }
    }

    pub fn get_plot(&self) -> (r: &Plot)
        ensures
            *r == self.plot,
    {
        &self.plot
    }

    /// Lays the pixels of a coin of this drawing's size out on its plot.
    /// `self` is `old` with the pixels of a coin of its size laid out on its
    /// plot; everything else, the filled count included, is unchanged.
    pub open spec fn laid_out_from(&self, old: Coin) -> bool {
        &&& self.blueprint.pixels@ == blueprint_pixels(old.plot.top_left, DrawingType::Coin, old.drawing_size)
        &&& self.blueprint.pixel_index == old.blueprint.pixel_index
        &&& self.plot == old.plot
        &&& self.done == old.done
        &&& self.drawing_type == old.drawing_type
        &&& self.drawing_size == old.drawing_size
    }

    pub fn set_blueprint(&mut self)
        requires
            corner_fits(old(self).plot.top_left),
        ensures
            final(self).laid_out_from(*old(self)),
    {
        let drawing_size = self.drawing_size;
        self.blueprint.pixels = coin_pixels(self.plot.top_left, drawing_size);
    }

    /// Returns the next position to fill, or `None` once all are filled.
    pub fn get_pixel(&mut self) -> (r: Option<Coords>)
        requires
            old(self).blueprint.wf(),
        ensures
            r == old(self).blueprint.next_pixel(),
            *final(self) == *old(self),
    {
        self.blueprint.get_pixel()
    }

    /// Counts one more position as filled.
    pub fn increase_pixel_index(&mut self)
        requires
            old(self).blueprint.pixel_index < usize::MAX,
        ensures
            final(self).blueprint.pixel_index == old(self).blueprint.pixel_index + 1,
            final(self).blueprint.pixels == old(self).blueprint.pixels,
            final(self).plot == old(self).plot,
            final(self).done == old(self).done,
            final(self).drawing_type == old(self).drawing_type,
            final(self).drawing_size == old(self).drawing_size,
    {
        self.blueprint.pixel_index = self.blueprint.pixel_index + 1;
    }

    pub fn is_done(&self) -> (r: bool)
        ensures
            r == self.done,
    {
        self.done
    }

    pub fn mark_as_done(&mut self)
        ensures
            final(self).done,
            final(self).plot == old(self).plot,
            final(self).blueprint == old(self).blueprint,
            final(self).drawing_type == old(self).drawing_type,
            final(self).drawing_size == old(self).drawing_size,
    {
        self.done = true;
    }

    pub fn drawing_type(&self) -> (r: DrawingType)
        ensures
            r == self.drawing_type,
    {
        self.drawing_type
    }
}

/// Laying a blueprint out twice gives the drawing the first one gave: the
/// plot, size and kind fix the pixels, and nothing else changes.
pub proof fn lemma_set_blueprint_idempotent(c0: Coin, c1: Coin, c2: Coin)
    requires
        c1.laid_out_from(c0),
        c2.laid_out_from(c1),
    ensures
        c2.blueprint.pixels@ == c1.blueprint.pixels@,
        c2.blueprint.pixel_index == c1.blueprint.pixel_index,
        c2.plot == c1.plot,
        c2.done == c1.done,
        c2.drawing_type == c1.drawing_type,
        c2.drawing_size == c1.drawing_size,
{
}

/// A rock drawing laid out on `plot`.
#[derive(Debug)]
pub struct Rock {
    pub plot: Plot,
    pub blueprint: Blueprint,
    pub done: bool,
    pub drawing_type: DrawingType,
    pub drawing_size: DrawingSize,
}

impl Rock {
    /// A rock drawing that is not done yet.
    pub fn new(plot: Plot, blueprint: Blueprint, drawing_size: DrawingSize) -> (r: Self)
        ensures
            r.plot == plot,
            r.blueprint == blueprint,
            !r.done,
            r.drawing_type == DrawingType::Rock,
            r.drawing_size == drawing_size,
    {
        Self { plot, blueprint, done: false, drawing_type: DrawingType::Rock, drawing_size }
    }

    pub fn get_plot(&self) -> (r: &Plot)
        ensures
            *r == self.plot,
    {
        &self.plot
    }

    /// Lays the pixels of a rock of this drawing's size out on its plot.
    /// `self` is `old` with the pixels of a rock of its size laid out on its
    /// plot; everything else, the filled count included, is unchanged.
    pub open spec fn laid_out_from(&self, old: Rock) -> bool {
        &&& self.blueprint.pixels@ == blueprint_pixels(old.plot.top_left, DrawingType::Rock, old.drawing_size)
        &&& self.blueprint.pixel_index == old.blueprint.pixel_index
        &&& self.plot == old.plot
        &&& self.done == old.done
        &&& self.drawing_type == old.drawing_type
        &&& self.drawing_size == old.drawing_size
    }

    pub fn set_blueprint(&mut self)
        requires
            corner_fits(old(self).plot.top_left),
        ensures
            final(self).laid_out_from(*old(self)),
    {
        let drawing_size = self.drawing_size;
        self.blueprint.pixels = rock_pixels(self.plot.top_left, drawing_size);
    }

    /// Returns the next position to fill, or `None` once all are filled.
    pub fn get_pixel(&mut self) -> (r: Option<Coords>)
        requires
            old(self).blueprint.wf(),
        ensures
            r == old(self).blueprint.next_pixel(),
            *final(self) == *old(self),
    {
        self.blueprint.get_pixel()
    }

    /// Counts one more position as filled.
    pub fn increase_pixel_index(&mut self)
        requires
            old(self).blueprint.pixel_index < usize::MAX,
        ensures
            final(self).blueprint.pixel_index == old(self).blueprint.pixel_index + 1,
            final(self).blueprint.pixels == old(self).blueprint.pixels,
            final(self).plot == old(self).plot,
            final(self).done == old(self).done,
            final(self).drawing_type == old(self).drawing_type,
            final(self).drawing_size == old(self).drawing_size,
    {
        self.blueprint.pixel_index = self.blueprint.pixel_index + 1;
    }

    pub fn is_done(&self) -> (r: bool)
        ensures
            r == self.done,
    {
        self.done
    }

    pub fn mark_as_done(&mut self)
        ensures
            final(self).done,
            final(self).plot == old(self).plot,
            final(self).blueprint == old(self).blueprint,
            final(self).drawing_type == old(self).drawing_type,
            final(self).drawing_size == old(self).drawing_size,
    {
        self.done = true;
    }

    pub fn drawing_type(&self) -> (r: DrawingType)
        ensures
            r == self.drawing_type,
    {
        self.drawing_type
    }
}

/// A tree drawing laid out on `plot`.
#[derive(Debug)]
pub struct Tree {
    pub plot: Plot,
    pub blueprint: Blueprint,
    pub done: bool,
    pub drawing_type: DrawingType,
    pub drawing_size: DrawingSize,
}

impl Tree {
    /// A tree drawing that is not done yet.
    pub fn new(plot: Plot, blueprint: Blueprint, drawing_size: DrawingSize) -> (r: Self)
        ensures
            r.plot == plot,
            r.blueprint == blueprint,
            !r.done,
            r.drawing_type == DrawingType::Tree,
            r.drawing_size == drawing_size,
    {
        Self { plot, blueprint, done: false, drawing_type: DrawingType::Tree, drawing_size }
    }

    pub fn get_plot(&self) -> (r: &Plot)
        ensures
            *r == self.plot,
    {
        &self.plot
    }

    /// Lays the pixels of a tree of this drawing's size out on its plot.
    /// `self` is `old` with the pixels of a tree of its size laid out on its
    /// plot; everything else, the filled count included, is unchanged.
    pub open spec fn laid_out_from(&self, old: Tree) -> bool {
        &&& self.blueprint.pixels@ == blueprint_pixels(old.plot.top_left, DrawingType::Tree, old.drawing_size)
        &&& self.blueprint.pixel_index == old.blueprint.pixel_index
        &&& self.plot == old.plot
        &&& self.done == old.done
        &&& self.drawing_type == old.drawing_type
        &&& self.drawing_size == old.drawing_size
    }

    pub fn set_blueprint(&mut self)
        requires
            corner_fits(old(self).plot.top_left),
        ensures
            final(self).laid_out_from(*old(self)),
    {
        let drawing_size = self.drawing_size;
        self.blueprint.pixels = tree_pixels(self.plot.top_left, drawing_size);
    }

    /// Returns the next position to fill, or `None` once all are filled.
    pub fn get_pixel(&mut self) -> (r: Option<Coords>)
        requires
            old(self).blueprint.wf(),
        ensures
            r == old(self).blueprint.next_pixel(),
            *final(self) == *old(self),
    {
        self.blueprint.get_pixel()
    }

    /// Counts one more position as filled.
    pub fn increase_pixel_index(&mut self)
        requires
            old(self).blueprint.pixel_index < usize::MAX,
        ensures
            final(self).blueprint.pixel_index == old(self).blueprint.pixel_index + 1,
            final(self).blueprint.pixels == old(self).blueprint.pixels,
            final(self).plot == old(self).plot,
            final(self).done == old(self).done,
            final(self).drawing_type == old(self).drawing_type,
            final(self).drawing_size == old(self).drawing_size,
    {
        self.blueprint.pixel_index = self.blueprint.pixel_index + 1;
    }

    pub fn is_done(&self) -> (r: bool)
        ensures
            r == self.done,
    {
        self.done
    }

    pub fn mark_as_done(&mut self)
        ensures
            final(self).done,
            final(self).plot == old(self).plot,
            final(self).blueprint == old(self).blueprint,
            final(self).drawing_type == old(self).drawing_type,
            final(self).drawing_size == old(self).drawing_size,
    {
        self.done = true;
    }

    pub fn drawing_type(&self) -> (r: DrawingType)
        ensures
            r == self.drawing_type,
    {
        self.drawing_type
    }
}

/// A jolly-block drawing laid out on `plot`.
#[derive(Debug)]
pub struct JollyBlock {
    pub plot: Plot,
    pub blueprint: Blueprint,
    pub done: bool,
    pub drawing_type: DrawingType,
    pub drawing_size: DrawingSize,
}

impl JollyBlock {
    /// A jolly-block drawing that is not done yet.
    pub fn new(plot: Plot, blueprint: Blueprint, drawing_size: DrawingSize) -> (r: Self)
        ensures
            r.plot == plot,
            r.blueprint == blueprint,
            !r.done,
            r.drawing_type == DrawingType::JollyBlock,
            r.drawing_size == drawing_size,
    {
        Self { plot, blueprint, done: false, drawing_type: DrawingType::JollyBlock, drawing_size }
    }

    pub fn get_plot(&self) -> (r: &Plot)
        ensures
            *r == self.plot,
    {
        &self.plot
    }

    /// Lays the pixels of a jolly-block of this drawing's size out on its plot.
    /// `self` is `old` with the pixels of a jolly block of its size laid out on its
    /// plot; everything else, the filled count included, is unchanged.
    pub open spec fn laid_out_from(&self, old: JollyBlock) -> bool {
        &&& self.blueprint.pixels@ == blueprint_pixels(old.plot.top_left, DrawingType::JollyBlock, old.drawing_size)
        &&& self.blueprint.pixel_index == old.blueprint.pixel_index
        &&& self.plot == old.plot
        &&& self.done == old.done
        &&& self.drawing_type == old.drawing_type
        &&& self.drawing_size == old.drawing_size
    }

    pub fn set_blueprint(&mut self)
        requires
            corner_fits(old(self).plot.top_left),
        ensures
            final(self).laid_out_from(*old(self)),
    {
        let drawing_size = self.drawing_size;
        self.blueprint.pixels = jollyblock_pixels(self.plot.top_left, drawing_size);
    }

    /// Returns the next position to fill, or `None` once all are filled.
    pub fn get_pixel(&mut self) -> (r: Option<Coords>)
        requires
            old(self).blueprint.wf(),
        ensures
            r == old(self).blueprint.next_pixel(),
            *final(self) == *old(self),
    {
        self.blueprint.get_pixel()
    }

    /// Counts one more position as filled.
    pub fn increase_pixel_index(&mut self)
        requires
            old(self).blueprint.pixel_index < usize::MAX,
        ensures
            final(self).blueprint.pixel_index == old(self).blueprint.pixel_index + 1,
            final(self).blueprint.pixels == old(self).blueprint.pixels,
            final(self).plot == old(self).plot,
            final(self).done == old(self).done,
            final(self).drawing_type == old(self).drawing_type,
            final(self).drawing_size == old(self).drawing_size,
    {
        self.blueprint.pixel_index = self.blueprint.pixel_index + 1;
    }

    pub fn is_done(&self) -> (r: bool)
        ensures
            r == self.done,
    {
        self.done
    }

    pub fn mark_as_done(&mut self)
        ensures
            final(self).done,
            final(self).plot == old(self).plot,
            final(self).blueprint == old(self).blueprint,
            final(self).drawing_type == old(self).drawing_type,
            final(self).drawing_size == old(self).drawing_size,
    {
        self.done = true;
    }

    pub fn drawing_type(&self) -> (r: DrawingType)
        ensures
            r == self.drawing_type,
    {
        self.drawing_type
    }
}

/// A drawing of any kind.
#[derive(Debug)]
pub enum Drawing {
    Coin(Coin),
    Rock(Rock),
    Tree(Tree),
    JollyBlock(JollyBlock),
}

impl Drawing {
    pub open spec fn plot(&self) -> Plot {
        match self {
            Drawing::Coin(d) => d.plot,
            Drawing::Rock(d) => d.plot,
            Drawing::Tree(d) => d.plot,
            Drawing::JollyBlock(d) => d.plot,
        }
    }

    pub open spec fn blueprint(&self) -> Blueprint {
        match self {
            Drawing::Coin(d) => d.blueprint,
            Drawing::Rock(d) => d.blueprint,
            Drawing::Tree(d) => d.blueprint,
            Drawing::JollyBlock(d) => d.blueprint,
        }
    }

    pub open spec fn done(&self) -> bool {
        match self {
            Drawing::Coin(d) => d.done,
            Drawing::Rock(d) => d.done,
            Drawing::Tree(d) => d.done,
            Drawing::JollyBlock(d) => d.done,
        }
    }

    pub open spec fn kind(&self) -> DrawingType {
        match self {
            Drawing::Coin(d) => d.drawing_type,
            Drawing::Rock(d) => d.drawing_type,
            Drawing::Tree(d) => d.drawing_type,
            Drawing::JollyBlock(d) => d.drawing_type,
        }
    }

    /// The blueprint's filled count does not run past its pixels.
    pub open spec fn wf(&self) -> bool {
        self.blueprint().wf()
    }

    /// The drawing is unchanged but for its filled count.
    pub open spec fn advanced_from(&self, old: Drawing) -> bool {
        &&& self.plot() == old.plot()
        &&& self.blueprint().pixels == old.blueprint().pixels
        &&& self.blueprint().pixel_index == old.blueprint().pixel_index + 1
        &&& self.done() == old.done()
        &&& self.kind() == old.kind()
    }

    pub fn get_plot(&self) -> (r: &Plot)
        ensures
            *r == self.plot(),
    {
        match self {
            Drawing::Coin(d) => d.get_plot(),
            Drawing::Rock(d) => d.get_plot(),
            Drawing::Tree(d) => d.get_plot(),
            Drawing::JollyBlock(d) => d.get_plot(),
        }
    }

    /// Returns the next position to fill, or `None` once all are filled.
    pub fn get_pixel(&self) -> (r: Option<Coords>)
        requires
            self.wf(),
        ensures
            r == self.blueprint().next_pixel(),
    {
        match self {
            Drawing::Coin(d) => d.blueprint.get_pixel(),
            Drawing::Rock(d) => d.blueprint.get_pixel(),
            Drawing::Tree(d) => d.blueprint.get_pixel(),
            Drawing::JollyBlock(d) => d.blueprint.get_pixel(),
        }
    }

    /// Counts one more position as filled.
    pub fn increase_pixel_index(&mut self)
        requires
            old(self).blueprint().pixel_index < usize::MAX,
        ensures
            final(self).advanced_from(*old(self)),
    {
        match self {
            Drawing::Coin(d) => d.increase_pixel_index(),
            Drawing::Rock(d) => d.increase_pixel_index(),
            Drawing::Tree(d) => d.increase_pixel_index(),
            Drawing::JollyBlock(d) => d.increase_pixel_index(),
        }
    }

    pub fn is_done(&self) -> (r: bool)
        ensures
            r == self.done(),
    {
        match self {
            Drawing::Coin(d) => d.is_done(),
            Drawing::Rock(d) => d.is_done(),
            Drawing::Tree(d) => d.is_done(),
            Drawing::JollyBlock(d) => d.is_done(),
        }
    }

    pub fn mark_as_done(&mut self)
        ensures
            final(self).done(),
            final(self).plot() == old(self).plot(),
            final(self).blueprint() == old(self).blueprint(),
            final(self).kind() == old(self).kind(),
    {
        match self {
            Drawing::Coin(d) => d.mark_as_done(),
            Drawing::Rock(d) => d.mark_as_done(),
            Drawing::Tree(d) => d.mark_as_done(),
            Drawing::JollyBlock(d) => d.mark_as_done(),
        }
    }

    pub fn drawing_type(&self) -> (r: DrawingType)
        ensures
            r == self.kind(),
    {
        match self {
            Drawing::Coin(d) => d.drawing_type(),
            Drawing::Rock(d) => d.drawing_type(),
            Drawing::Tree(d) => d.drawing_type(),
            Drawing::JollyBlock(d) => d.drawing_type(),
        }
    }
}

/// Returns a new drawing of kind `kind` and size `size` on `plot`, with its
/// blueprint laid out and nothing filled yet.
pub fn make_drawing(kind: DrawingType, plot: Plot, size: DrawingSize) -> (r: Drawing)
    requires
        corner_fits(plot.top_left),
    ensures
        r.kind() == kind,
        r.plot() == plot,
        !r.done(),
        r.blueprint().pixels@ == blueprint_pixels(plot.top_left, kind, size),
        r.blueprint().pixel_index == 0,
        r.wf(),
{
    match kind {
        DrawingType::Coin => {
            let mut d = Coin::new(plot, Blueprint::new(), size);
            d.set_blueprint();
            Drawing::Coin(d)
        },
        DrawingType::Rock => {
            let mut d = Rock::new(plot, Blueprint::new(), size);
            d.set_blueprint();
            Drawing::Rock(d)
        },
        DrawingType::Tree => {
            let mut d = Tree::new(plot, Blueprint::new(), size);
            d.set_blueprint();
            Drawing::Tree(d)
        },
        DrawingType::JollyBlock => {
            let mut d = JollyBlock::new(plot, Blueprint::new(), size);
            d.set_blueprint();
            Drawing::JollyBlock(d)
        },
    }
}

/// `c` lies in the rectangle of `plot`.
pub open spec fn inside_plot(c: Coords, plot: Plot) -> bool {
    &&& plot.top_left.0 <= c.0 <= plot.bottom_right.0
    &&& plot.top_left.1 <= c.1 <= plot.bottom_right.1
}

/// Returns whether the top-left or the bottom-right corner of the first plot
/// lies in the second plot.
pub fn is_plot_inside_other(
    plot_one_top_left: Coords,
    plot_one_bottom_right: Coords,
    plot_two_top_left: Coords,
    plot_two_bottom_right: Coords,
) -> (r: bool)
    ensures
        r == (inside_plot(
            plot_one_top_left,
            Plot { top_left: plot_two_top_left, bottom_right: plot_two_bottom_right },
        ) || inside_plot(
            plot_one_bottom_right,
            Plot { top_left: plot_two_top_left, bottom_right: plot_two_bottom_right },
        )),
{
    let mut output: bool = false;
    if plot_one_top_left.0 >= plot_two_top_left.0 && plot_one_top_left.0 <= plot_two_bottom_right.0 {
        if plot_one_top_left.1 >= plot_two_top_left.1 && plot_one_top_left.1 <= plot_two_bottom_right.1 {
            output = true;
        }
    }
    if plot_one_bottom_right.0 >= plot_two_top_left.0 && plot_one_bottom_right.0
        <= plot_two_bottom_right.0 {
        if plot_one_bottom_right.1 >= plot_two_top_left.1 && plot_one_bottom_right.1
            <= plot_two_bottom_right.1 {
            output = true;
        }
    }
    output
}

/// Returns whether `tile_coords` lies in `plot`.
pub fn is_tile_inside_plot(tile_coords: Coords, plot: &Plot) -> (r: bool)
    ensures
        r == inside_plot(tile_coords, *plot),
{
    let mut out = false;
    if tile_coords.0 >= plot.top_left.0 && tile_coords.0 <= plot.bottom_right.0 {
        if tile_coords.1 >= plot.top_left.1 && tile_coords.1 <= plot.bottom_right.1 {
            out = true;
        }
    }
    out
}

/// `c` lies in the plot of one of the drawings.
pub open spec fn in_some_drawing(drawings: Seq<Drawing>, c: Coords) -> bool {
    exists|i: int| 0 <= i < drawings.len() && inside_plot(c, #[trigger] drawings[i].plot())
}

/// Returns whether `tile_coords` lies in the plot of one of the drawings.
pub fn is_tile_in_drawings(tile_coords: Coords, drawings: &Vec<Drawing>) -> (r: bool)
    ensures
        r == in_some_drawing(drawings@, tile_coords),
{
    let mut out = false;
    let mut i: usize = 0;
    while i < drawings.len()
        invariant
            0 <= i <= drawings@.len(),
            out == exists|k: int| 0 <= k < i && inside_plot(tile_coords, #[trigger] drawings@[k].plot()),
        decreases drawings@.len() - i,
    {
        let here = is_tile_inside_plot(tile_coords, drawings[i].get_plot());
        out = out || here;
        i = i + 1;
    }
    out
}

/// A tile that cannot be part of a plot for a drawing of kind `kind`: deep
/// water, lava, walls and streets, sand and snow for trees, and any tile that
/// holds something.
pub open spec fn cell_blocked(kind: DrawingType, t: Tile) -> bool {
    ||| kind == DrawingType::Tree && (t.tile_type == TileType::Sand || t.tile_type == TileType::Snow)
    ||| t.tile_type == TileType::DeepWater
    ||| t.tile_type == TileType::Lava
    ||| t.tile_type == TileType::Wall
    ||| t.tile_type == TileType::Street
    ||| t.content != Content::Nothing
}

/// `c` lies in the `h` x `w` rectangle whose top-left corner is (`y`, `x`).
pub open spec fn in_rect(y: int, x: int, h: int, w: int, c: Coords) -> bool {
    y <= c.0 < y + h && x <= c.1 < x + w
}

/// `c` is past the last row of `grid` or past the end of its row.
pub open spec fn off_grid(grid: Seq<Seq<Option<Tile>>>, c: Coords) -> bool {
    c.0 >= grid.len() || c.1 >= grid[c.0 as int].len()
}

/// Checking `c` for a plot ends the check of that plot.
pub open spec fn stops_scan(
    grid: Seq<Seq<Option<Tile>>>,
    drawings: Seq<Drawing>,
    kind: DrawingType,
    c: Coords,
) -> bool {
    ||| in_some_drawing(drawings, c)
    ||| off_grid(grid, c)
    ||| grid[c.0 as int][c.1 as int] is None
    ||| cell_blocked(kind, grid[c.0 as int][c.1 as int].unwrap())
}

/// No position of the rectangle ends the check: the plot is free.
pub open spec fn plot_clear(
    grid: Seq<Seq<Option<Tile>>>,
    drawings: Seq<Drawing>,
    kind: DrawingType,
    y: int,
    x: int,
    h: int,
    w: int,
) -> bool {
    forall|c: Coords| #[trigger] in_rect(y, x, h, w, c) ==> !stops_scan(grid, drawings, kind, c)
}

/// Checking the plot at (`y`, `x`) would index past the grid, or the free
/// plot's bottom-right corner would fall before the first row or column.
pub open spec fn plot_check_fails(
    grid: Seq<Seq<Option<Tile>>>,
    drawings: Seq<Drawing>,
    kind: DrawingType,
    y: int,
    x: int,
    h: int,
    w: int,
) -> bool {
    ||| exists|c: Coords|
        {
            &&& #[trigger] in_rect(y, x, h, w, c)
            &&& off_grid(grid, c)
            &&& !in_some_drawing(drawings, c)
            &&& forall|d: Coords|
                in_rect(y, x, h, w, d) && #[trigger] coords_before(d, c) ==> !stops_scan(
                    grid,
                    drawings,
                    kind,
                    d,
                )
        }
    ||| plot_clear(grid, drawings, kind, y, x, h, w) && (y + h == 0 || x + w == 0)
}

/// `c` is a known tile of the part of the grid where plots start: the rows,
/// as far as the first row is long.
pub open spec fn plot_corner(grid: Seq<Seq<Option<Tile>>>, c: Coords) -> bool {
    &&& grid.len() > 0
    &&& c.0 < grid.len()
    &&& c.1 < grid[0].len()
    &&& c.1 < grid[c.0 as int].len()
    &&& grid[c.0 as int][c.1 as int] is Some
}

/// `c` lies in the part of the grid where plots start, but past the end of its row.
pub open spec fn scan_cell_missing(grid: Seq<Seq<Option<Tile>>>, c: Coords) -> bool {
    &&& grid.len() > 0
    &&& c.0 < grid.len()
    &&& c.1 < grid[0].len()
    &&& c.1 >= grid[c.0 as int].len()
}

/// A free plot of size `size` starts at `c`.
pub open spec fn good_plot(
    grid: Seq<Seq<Option<Tile>>>,
    drawings: Seq<Drawing>,
    kind: DrawingType,
    size: (usize, usize),
    c: Coords,
) -> bool {
    &&& plot_corner(grid, c)
    &&& plot_clear(grid, drawings, kind, c.0 as int, c.1 as int, size.0 as int, size.1 as int)
    &&& c.0 + size.0 >= 1
    &&& c.1 + size.1 >= 1
}

/// What `find_plot_from_map` asks of the grid: every position it scans before
/// the first free plot lies on its row (the rows scanned are read as far as
/// the first row is long), room for the plot size, and no check that fails
/// before the first free plot.
pub open spec fn plot_search_ok(
    grid: Seq<Seq<Option<Tile>>>,
    drawings: Seq<Drawing>,
    kind: DrawingType,
    size: (usize, usize),
) -> bool {
    &&& forall|c: Coords|
        #[trigger] scan_cell_missing(grid, c) ==> exists|q: Coords|
            good_plot(grid, drawings, kind, size, q) && #[trigger] coords_before(q, c)
    &&& grid.len() + size.0 <= usize::MAX
    &&& grid.len() > 0 ==> grid[0].len() + size.1 <= usize::MAX
    &&& forall|p: Coords|
        plot_corner(grid, p) && #[trigger] plot_check_fails(
            grid,
            drawings,
            kind,
            p.0 as int,
            p.1 as int,
            size.0 as int,
            size.1 as int,
        ) ==> exists|q: Coords| good_plot(grid, drawings, kind, size, q) && #[trigger] coords_before(q, p)
}

/// Checking the plot at (`y`, `x`) reaches a position past the grid before
/// anything else ends the check.
pub open spec fn plot_scan_off_grid(
    grid: Seq<Seq<Option<Tile>>>,
    drawings: Seq<Drawing>,
    kind: DrawingType,
    y: int,
    x: int,
    h: int,
    w: int,
) -> bool {
    exists|c: Coords|
        {
            &&& #[trigger] in_rect(y, x, h, w, c)
            &&& off_grid(grid, c)
            &&& !in_some_drawing(drawings, c)
            &&& forall|d: Coords|
                in_rect(y, x, h, w, d) && #[trigger] coords_before(d, c) ==> !stops_scan(
                    grid,
                    drawings,
                    kind,
                    d,
                )
        }
}

proof fn lemma_check_fails_parts(
    grid: Seq<Seq<Option<Tile>>>,
    drawings: Seq<Drawing>,
    kind: DrawingType,
    y: int,
    x: int,
    h: int,
    w: int,
)
    ensures
        plot_check_fails(grid, drawings, kind, y, x, h, w) == (plot_scan_off_grid(
            grid,
            drawings,
            kind,
            y,
            x,
            h,
            w,
        ) || (plot_clear(grid, drawings, kind, y, x, h, w) && (y + h == 0 || x + w == 0))),
{
}

/// Returns whether no position of the `h` x `w` rectangle at (`y`, `x`) ends
/// the check, scanning it row by row and stopping at the first position that does.
fn plot_is_free(
    grid: &Vec<Vec<Option<Tile>>>,
    drawings: &Vec<Drawing>,
    kind: DrawingType,
    y: usize,
    x: usize,
    h: usize,
    w: usize,
) -> (r: bool)
    requires
        y + h <= usize::MAX,
        x + w <= usize::MAX,
        !plot_scan_off_grid(grid_view(grid@), drawings@, kind, y as int, x as int, h as int, w as int),
    ensures
        r == plot_clear(grid_view(grid@), drawings@, kind, y as int, x as int, h as int, w as int),
{
    let ghost gy = y as int;
    let ghost gx = x as int;
    let ghost gh = h as int;
    let ghost gw = w as int;
    let end_y = y + h;
    let end_x = x + w;
    let mut is_plot_still_doable = true;
    let mut plot_ok = true;
    let mut y_plot = y;
    while y_plot < end_y
        invariant
            gy == y,
            gx == x,
            gh == h,
            gw == w,
            y <= y_plot <= end_y,
            end_y == y + h,
            end_x == x + w,
            plot_ok == is_plot_still_doable,
            !plot_scan_off_grid(grid_view(grid@), drawings@, kind, gy, gx, gh, gw),
            is_plot_still_doable ==> forall|d: Coords|
                #[trigger] in_rect(gy, gx, gh, gw, d) && d.0 < y_plot ==> !stops_scan(
                    grid_view(grid@),
                    drawings@,
                    kind,
                    d,
                ),
            !is_plot_still_doable ==> !plot_clear(grid_view(grid@), drawings@, kind, gy, gx, gh, gw),
        decreases end_y - y_plot,
    {
        let mut x_plot = x;
        while x_plot < end_x
            invariant
                gy == y,
                gx == x,
                gh == h,
                gw == w,
                y <= y_plot < end_y,
                x <= x_plot <= end_x,
                end_y == y + h,
                end_x == x + w,
                plot_ok == is_plot_still_doable,
                !plot_scan_off_grid(grid_view(grid@), drawings@, kind, gy, gx, gh, gw),
                is_plot_still_doable ==> forall|d: Coords|
                    #[trigger] in_rect(gy, gx, gh, gw, d) && (d.0 < y_plot || (d.0 == y_plot && d.1
                        < x_plot)) ==> !stops_scan(grid_view(grid@), drawings@, kind, d),
                !is_plot_still_doable ==> !plot_clear(grid_view(grid@), drawings@, kind, gy, gx, gh, gw),
            ensures
                plot_ok == is_plot_still_doable,
                is_plot_still_doable ==> forall|d: Coords|
                    #[trigger] in_rect(gy, gx, gh, gw, d) && d.0 <= y_plot ==> !stops_scan(
                        grid_view(grid@),
                        drawings@,
                        kind,
                        d,
                    ),
                !is_plot_still_doable ==> !plot_clear(grid_view(grid@), drawings@, kind, gy, gx, gh, gw),
            decreases end_x - x_plot,
        {
            let c: Coords = (y_plot, x_plot);
            assert(in_rect(gy, gx, gh, gw, c));
            if is_plot_still_doable == true {
                if is_tile_in_drawings(c, drawings) {
                    is_plot_still_doable = false;
                    plot_ok = false;
                    break ;
                } else {
                    if y_plot >= grid.len() || x_plot >= grid[y_plot].len() {
                        proof {
                            assert(off_grid(grid_view(grid@), c));
                            assert forall|d: Coords|
                                in_rect(gy, gx, gh, gw, d) && #[trigger] coords_before(d, c) implies !stops_scan(
                                grid_view(grid@),
                                drawings@,
                                kind,
                                d,
                            ) by {
                                assert(in_rect(gy, gx, gh, gw, d));
                            }
                            assert(plot_scan_off_grid(grid_view(grid@), drawings@, kind, gy, gx, gh, gw));
                        }
                    }
                    match &grid[y_plot][x_plot] {
                        Some(tile_plot) => {
                            match kind {
                                DrawingType::Tree => {
                                    match tile_plot.tile_type {
                                        TileType::Sand | TileType::Snow => {
                                            is_plot_still_doable = false;
                                            plot_ok = false;
                                        },
                                        _ => {},
                                    }
                                },
                                _ => {},
                            }
                            match tile_plot.tile_type {
                                TileType::DeepWater | TileType::Lava | TileType::Wall
                                | TileType::Street => {
                                    is_plot_still_doable = false;
                                    plot_ok = false;
                                },
                                _ => {},
                            }
                            match tile_plot.content {
                                Content::Nothing => {},
                                _ => {
                                    is_plot_still_doable = false;
                                    plot_ok = false;
                                },
                            }
                            assert(is_plot_still_doable == !stops_scan(grid_view(grid@), drawings@, kind, c));
                        },
                        None => {
                            is_plot_still_doable = false;
                            plot_ok = false;
                        },
                    }
                }
            } else {
                break ;
            }
            x_plot = x_plot + 1;
        }
        y_plot = y_plot + 1;
    }
    proof {
        if is_plot_still_doable {
            assert forall|d: Coords| #[trigger] in_rect(gy, gx, gh, gw, d) implies !stops_scan(
                grid_view(grid@),
                drawings@,
                kind,
                d,
            ) by {}
        }
    }
    plot_ok
}

/// Returns the first position, row by row, where a free plot of `plot_size`
/// (rows, columns) starts, or an error when the map holds none.
pub fn find_plot_from_map(
    map: Option<Vec<Vec<Option<Tile>>>>,
    plot_size: (usize, usize),
    drawing_type: DrawingType,
    drawings: &Vec<Drawing>,
) -> (r: Result<Plot, String>)
    requires
        map matches Some(g) ==> plot_search_ok(grid_view(g@), drawings@, drawing_type, plot_size),
    ensures
        r is Ok <==> (map matches Some(g) && exists|q: Coords|
            good_plot(grid_view(g@), drawings@, drawing_type, plot_size, q)),
        r matches Ok(p) ==> {
            &&& map matches Some(g) && good_plot(grid_view(g@), drawings@, drawing_type, plot_size, p.top_left)
                && forall|q: Coords|
                good_plot(grid_view(g@), drawings@, drawing_type, plot_size, q) ==> !coords_before(q, p.top_left)
            &&& p.bottom_right == ((p.top_left.0 + plot_size.0 - 1) as usize, (p.top_left.1
                + plot_size.1 - 1) as usize)
        },
        r matches Ok(p) ==> forall|c: Coords, i: int|
            #![trigger inside_plot(c, p), drawings@[i]]
            inside_plot(c, p) && 0 <= i < drawings@.len() ==> !inside_plot(c, drawings@[i].plot()),
        r matches Ok(p) ==> forall|c: Coords|
            #[trigger] inside_plot(c, p) ==> (grid_view(map->0@)[c.0 as int][c.1 as int] matches Some(t) && {
                &&& t.content == Content::Nothing
                &&& t.tile_type != TileType::DeepWater
                &&& t.tile_type != TileType::Lava
                &&& t.tile_type != TileType::Wall
                &&& t.tile_type != TileType::Street
                &&& drawing_type == DrawingType::Tree ==> t.tile_type != TileType::Sand && t.tile_type
                    != TileType::Snow
            }),
        r matches Ok(p) ==> forall|q: Coords|
            #[trigger] good_plot(grid_view(map->0@), drawings@, drawing_type, plot_size, q) ==> q.0 > p.top_left.0
                || (q.0 == p.top_left.0 && q.1 >= p.top_left.1),
        r matches Err(e) ==> e@ == "couldnt setup the plot"@,
{
    let (plot_height, plot_width) = plot_size;
    if let Some(grid) = &map {
        let ghost g = grid_view(grid@);
        let n = grid.len();
        let mut y: usize = 0;
        while y < n
            invariant
                0 <= y <= n,
                n == g.len(),
                g == grid_view(grid@),
                map == Some(*grid),
                plot_search_ok(g, drawings@, drawing_type, plot_size),
                plot_height == plot_size.0,
                plot_width == plot_size.1,
                forall|q: Coords|
                    #[trigger] good_plot(g, drawings@, drawing_type, plot_size, q) ==> q.0 >= y,
            decreases n - y,
        {
            let width = grid[0].len();
            let mut x: usize = 0;
            while x < width
                invariant
                    0 <= y < n,
                    0 <= x <= width,
                    width == g[0].len(),
                    n == g.len(),
                    g == grid_view(grid@),
                    map == Some(*grid),
                    plot_search_ok(g, drawings@, drawing_type, plot_size),
                    plot_height == plot_size.0,
                    plot_width == plot_size.1,
                    forall|q: Coords|
                        #[trigger] good_plot(g, drawings@, drawing_type, plot_size, q) ==> q.0 > y
                            || (q.0 == y && q.1 >= x),
                decreases width - x,
            {
                proof {
                    if scan_cell_missing(g, (y, x)) {
                        let q = choose|q: Coords|
                            good_plot(g, drawings@, drawing_type, plot_size, q) && #[trigger] coords_before(q, (y, x));
                        assert(good_plot(g, drawings@, drawing_type, plot_size, q));
                    }
                    assert(g[y as int] == grid@[y as int]@);
                }
                match &grid[y][x] {
                    Some(_) => {
                        let ghost p: Coords = (y, x);
                        let start_y = y;
                        let end_y = y + plot_height;
                        let start_x = x;
                        let end_x = x + plot_width;
                        proof {
                            assert(plot_corner(g, p));
                            lemma_check_fails_parts(
                                g,
                                drawings@,
                                drawing_type,
                                y as int,
                                x as int,
                                plot_height as int,
                                plot_width as int,
                            );
                            if plot_check_fails(
                                g,
                                drawings@,
                                drawing_type,
                                y as int,
                                x as int,
                                plot_height as int,
                                plot_width as int,
                            ) {
                                let q = choose|q: Coords|
                                    good_plot(g, drawings@, drawing_type, plot_size, q) && #[trigger] coords_before(q, p);
                                assert(false);
                            }
                        }
                        let plot_ok = plot_is_free(
                            grid,
                            drawings,
                            drawing_type,
                            y,
                            x,
                            plot_height,
                            plot_width,
                        );
                        if plot_ok == true {
                            let new_plot = Plot {
                                top_left: (start_y, start_x),
                                bottom_right: (end_y - 1, end_x - 1),
                            };
                            proof {
                                assert(good_plot(g, drawings@, drawing_type, plot_size, p));
                                assert forall|q: Coords|
                                    good_plot(g, drawings@, drawing_type, plot_size, q) implies !coords_before(
                                    q,
                                    p,
                                ) by {
                                    assert(good_plot(g, drawings@, drawing_type, plot_size, q));
                                }
                                assert(new_plot.top_left == p);
                                lemma_found_plot_is_free(g, drawings@, drawing_type, plot_size, new_plot);
                                assert forall|c: Coords, i: int|
                                    #![trigger inside_plot(c, new_plot), drawings@[i]]
                                    inside_plot(c, new_plot) && 0 <= i < drawings@.len() implies !inside_plot(
                                    c,
                                    drawings@[i].plot(),
                                ) by {
                                    assert(!in_some_drawing(drawings@, c));
                                }
                                assert(map->0 == *grid);
                                assert(good_plot(grid_view(map->0@), drawings@, drawing_type, plot_size, p));
                            }
                            return Ok(new_plot);
                        }
                    },
                    None => {},
                }
                x = x + 1;
            }
            y = y + 1;
        }
    }
    Err(String::from_str("couldnt setup the plot"))
}

/// Every tile of a plot that `find_plot_from_map` returns is known, lies
/// outside the plots of all the drawings, holds nothing, and is neither deep
/// water, lava, a wall nor a street (nor sand or snow for a tree).
pub proof fn lemma_found_plot_is_free(
    grid: Seq<Seq<Option<Tile>>>,
    drawings: Seq<Drawing>,
    kind: DrawingType,
    size: (usize, usize),
    p: Plot,
)
    requires
        good_plot(grid, drawings, kind, size, p.top_left),
        p.bottom_right == ((p.top_left.0 + size.0 - 1) as usize, (p.top_left.1 + size.1 - 1) as usize),
        p.top_left.0 + size.0 <= usize::MAX,
        p.top_left.1 + size.1 <= usize::MAX,
    ensures
        forall|c: Coords|
            #[trigger] inside_plot(c, p) ==> {
                &&& !in_some_drawing(drawings, c)
                &&& grid[c.0 as int][c.1 as int] matches Some(t) && {
                    &&& t.content == Content::Nothing
                    &&& t.tile_type != TileType::DeepWater
                    &&& t.tile_type != TileType::Lava
                    &&& t.tile_type != TileType::Wall
                    &&& t.tile_type != TileType::Street
                    &&& kind == DrawingType::Tree ==> t.tile_type != TileType::Sand && t.tile_type != TileType::Snow
                }
            },
{
    assert forall|c: Coords| #[trigger] inside_plot(c, p) implies {
        &&& !in_some_drawing(drawings, c)
        &&& grid[c.0 as int][c.1 as int] matches Some(t) && {
                    &&& t.content == Content::Nothing
                    &&& t.tile_type != TileType::DeepWater
                    &&& t.tile_type != TileType::Lava
                    &&& t.tile_type != TileType::Wall
                    &&& t.tile_type != TileType::Street
                    &&& kind == DrawingType::Tree ==> t.tile_type != TileType::Sand && t.tile_type != TileType::Snow
                }
    } by {
        assert(in_rect(p.top_left.0 as int, p.top_left.1 as int, size.0 as int, size.1 as int, c));
    }
}

/// Every offset of `s` lies within `h` rows and `w` columns, and each comes
/// before the next in row-major order.
pub open spec fn offsets_fit(s: Seq<(usize, usize)>, h: int, w: int) -> bool
    decreases s.len(),
{
    if s.len() == 0 {
        true
    } else {
        &&& s[0].0 < h
        &&& s[0].1 < w
        &&& (s.len() == 1 || coords_before(s[0], s[1]))
        &&& offsets_fit(s.drop_first(), h, w)
    }
}

proof fn lemma_offsets_fit(s: Seq<(usize, usize)>, h: int, w: int)
    requires
        offsets_fit(s, h, w),
    ensures
        forall|i: int| 0 <= i < s.len() ==> (#[trigger] s[i]).0 < h && s[i].1 < w,
        forall|i: int, j: int| 0 <= i < j < s.len() ==> coords_before(#[trigger] s[i], #[trigger] s[j]),
    decreases s.len(),
{
    if s.len() > 0 {
        let t = s.drop_first();
        lemma_offsets_fit(t, h, w);
        assert forall|i: int| 0 <= i < s.len() implies (#[trigger] s[i]).0 < h && s[i].1 < w by {
            if i > 0 {
                assert(s[i] == t[i - 1]);
            }
        }
        assert forall|i: int, j: int| 0 <= i < j < s.len() implies coords_before(#[trigger] s[i], #[trigger] s[j]) by {
            assert(s[j] == t[j - 1]);
            if i > 0 {
                assert(s[i] == t[i - 1]);
            } else if j > 1 {
                assert(s[1] == t[0]);
                assert(coords_before(t[0], t[j - 1]));
            }
        }
    }
}

/// A tree drawing fits its plot: for every plot size a draw can pick, each
/// pixel lies in the plot of that size at `top_left`, the pixels come in
/// row-major order without repeats, and there are 12, 20 or 25 of them for a
/// small, medium or large tree.
pub proof fn lemma_tree_pixels_in_plot(top_left: Coords, n: int)
    requires
        corner_fits(top_left),
    ensures
        ({
            let (size, dsize) = plot_size_for(DrawingType::Tree, n);
            let plot = Plot {
                top_left,
                bottom_right: ((top_left.0 + size.0 - 1) as usize, (top_left.1 + size.1 - 1) as usize),
            };
            let px = blueprint_pixels(top_left, DrawingType::Tree, dsize);
            &&& px.len() == match dsize {
                DrawingSize::Small => 12int,
                DrawingSize::Medium => 20int,
                DrawingSize::Large => 25int,
            }
            &&& forall|i: int| 0 <= i < px.len() ==> inside_plot(#[trigger] px[i], plot)
            &&& forall|i: int, j: int| 0 <= i < j < px.len() ==> coords_before(#[trigger] px[i], #[trigger] px[j])
        }),
{
    let (size, dsize) = plot_size_for(DrawingType::Tree, n);
    let offs = blueprint_offsets(DrawingType::Tree, dsize);
    match dsize {
        DrawingSize::Small => {
            assert(offsets_fit(blueprint_offsets(DrawingType::Tree, DrawingSize::Small), 5, 5)) by {
                reveal_with_fuel(offsets_fit, 26);
            }
        },
        DrawingSize::Medium => {
            assert(offsets_fit(blueprint_offsets(DrawingType::Tree, DrawingSize::Medium), 7, 6)) by {
                reveal_with_fuel(offsets_fit, 26);
            }
        },
        DrawingSize::Large => {
            assert(offsets_fit(blueprint_offsets(DrawingType::Tree, DrawingSize::Large), 9, 7)) by {
                reveal_with_fuel(offsets_fit, 26);
            }
        },
    }
    lemma_offsets_fit(offs, size.0 as int, size.1 as int);
    let px = blueprint_pixels(top_left, DrawingType::Tree, dsize);
    assert forall|i: int, j: int| 0 <= i < j < px.len() implies coords_before(#[trigger] px[i], #[trigger] px[j]) by {
        assert(coords_before(offs[i], offs[j]));
    }
    assert forall|i: int| 0 <= i < px.len() implies inside_plot(#[trigger] px[i], Plot {
        top_left,
        bottom_right: ((top_left.0 + size.0 - 1) as usize, (top_left.1 + size.1 - 1) as usize),
    }) by {
        assert(offs[i].0 < size.0 && offs[i].1 < size.1);
    }
}

/// A tile that holds at most one unit of the material of kind `kind`: taking
/// from it would take from a finished drawing.
pub open spec fn spent_material(kind: DrawingType, c: Content) -> bool {
    match (kind, c) {
        (DrawingType::Coin, Content::Coin(a)) => a <= 1,
        (DrawingType::Rock, Content::Rock(a)) => a <= 1,
        (DrawingType::Tree, Content::Tree(a)) => a <= 1,
        (DrawingType::JollyBlock, Content::JollyBlock(a)) => a <= 1,
        _ => false,
    }
}

/// Returns whether the tile at `tile_pos` (row, column) is known and does not
/// hold a spent unit of the material of `drawing_type`.
pub fn is_tile_gettable(
    map: Option<Vec<Vec<Option<Tile>>>>,
    tile_pos: Coords,
    drawing_type: DrawingType,
) -> (r: bool)
    requires
        map matches Some(g) ==> tile_pos.0 < grid_view(g@).len() && tile_pos.1 < grid_view(g@)[tile_pos.0 as int].len(),
    ensures
        r == (map matches Some(g) && grid_view(g@)[tile_pos.0 as int][tile_pos.1 as int] matches Some(t)
            && !spent_material(drawing_type, t.content)),
{
    if let Some(grid) = map {
        let (y, x) = tile_pos;
        match &grid[y][x] {
            Some(tile) => {
                match drawing_type {
                    DrawingType::Coin => {
                        match tile.content {
                            Content::Coin(1) | Content::Coin(0) => false,
                            _ => true,
                        }
                    },
                    DrawingType::Rock => {
                        match tile.content {
                            Content::Rock(1) | Content::Rock(0) => false,
                            _ => true,
                        }
                    },
                    DrawingType::Tree => {
                        match tile.content {
                            Content::Tree(1) | Content::Tree(0) => false,
                            _ => true,
                        }
                    },
                    DrawingType::JollyBlock => {
                        match tile.content {
                            Content::JollyBlock(1) | Content::JollyBlock(0) => false,
                            _ => true,
                        }
                    },
                }
            },
            None => false,
        }
    } else {
        false
    }
}

/// Returns whether the robot stands on the pixel.
pub fn is_robot_on_next_pixel(robot_pos: Coords, pixel_pos: Coords) -> (r: bool)
    ensures
        r == (robot_pos == pixel_pos),
{
    if robot_pos.0 == pixel_pos.0 {
        if robot_pos.1 == pixel_pos.1 {
            true
        } else {
            false
        }
    } else {
        false
    }
}

/// The drawing kind a random draw `n` stands for: coin, rock, tree, and jolly block for 3 and above.
pub open spec fn drawing_type_for(n: int) -> DrawingType {
    if n == 0 {
        DrawingType::Coin
    } else if n == 1 {
        DrawingType::Rock
    } else if n == 2 {
        DrawingType::Tree
    } else {
        DrawingType::JollyBlock
    }
}

/// Returns the drawing kind the draw `n` stands for.
pub fn drawing_type_from_draw(n: u32) -> (r: DrawingType)
    ensures
        r == drawing_type_for(n as int),
{
    match n {
        0 => DrawingType::Coin,
        1 => DrawingType::Rock,
        2 => DrawingType::Tree,
        3 => DrawingType::JollyBlock,
        _ => DrawingType::JollyBlock,
    }
}

/// Returns a drawing kind drawn at random.
pub fn get_random_drawing_type() -> (r: DrawingType)
    ensures
        exists|n: int| 0 <= n < 4 && r == drawing_type_for(n),
{
    let n = random_below(4);
    drawing_type_from_draw(n)
}

/// The plot size (rows, columns) and drawing size that the draw `n` (0 to 100)
/// picks for a drawing of kind `kind`.
pub open spec fn plot_size_for(kind: DrawingType, n: int) -> ((usize, usize), DrawingSize) {
    match kind {
        DrawingType::Coin => if n <= 50 {
            ((3, 4), DrawingSize::Small)
        } else if n <= 85 {
            ((5, 8), DrawingSize::Medium)
        } else {
            ((7, 10), DrawingSize::Large)
        },
        DrawingType::Rock => if n <= 40 {
            ((3, 4), DrawingSize::Small)
        } else if n <= 75 {
            ((4, 6), DrawingSize::Medium)
        } else {
            ((6, 7), DrawingSize::Large)
        },
        DrawingType::Tree => if n <= 55 {
            ((5, 5), DrawingSize::Small)
        } else if n <= 85 {
            ((7, 6), DrawingSize::Medium)
        } else {
            ((9, 7), DrawingSize::Large)
        },
        DrawingType::JollyBlock => if n <= 55 {
            ((3, 3), DrawingSize::Small)
        } else if n <= 85 {
            ((5, 5), DrawingSize::Medium)
        } else {
            ((6, 8), DrawingSize::Large)
        },
    }
}

/// Returns the plot size and drawing size the draw `n` picks for `drawing_type`.
pub fn plot_size_from_draw(drawing_type: DrawingType, n: u32) -> (r: ((usize, usize), DrawingSize))
    ensures
        r == plot_size_for(drawing_type, n as int),
{
    let plot_size: (usize, usize);
    let drawing_size: DrawingSize;
    match drawing_type {
        DrawingType::Coin => {
            if n <= 50 {
                plot_size = (3, 4);
                drawing_size = DrawingSize::Small;
            } else if n <= 85 {
                plot_size = (5, 8);
                drawing_size = DrawingSize::Medium;
            } else {
                plot_size = (7, 10);
                drawing_size = DrawingSize::Large;
            }
        },
        DrawingType::Rock => {
            if n <= 40 {
                plot_size = (3, 4);
                drawing_size = DrawingSize::Small;
            } else if n <= 75 {
                plot_size = (4, 6);
                drawing_size = DrawingSize::Medium;
            } else {
                plot_size = (6, 7);
                drawing_size = DrawingSize::Large;
            }
        },
        DrawingType::Tree => {
            if n <= 55 {
                plot_size = (5, 5);
                drawing_size = DrawingSize::Small;
            } else if n <= 85 {
                plot_size = (7, 6);
                drawing_size = DrawingSize::Medium;
            } else {
                plot_size = (9, 7);
                drawing_size = DrawingSize::Large;
            }
        },
        DrawingType::JollyBlock => {
            if n <= 55 {
                plot_size = (3, 3);
                drawing_size = DrawingSize::Small;
            } else if n <= 85 {
                plot_size = (5, 5);
                drawing_size = DrawingSize::Medium;
            } else {
                plot_size = (6, 8);
                drawing_size = DrawingSize::Large;
            }
        },
    }
    (plot_size, drawing_size)
}

/// Returns a plot size and drawing size for `drawing_type`, picked by a random draw from 0 to 100.
pub fn get_random_plot_size(drawing_type: DrawingType) -> (r: ((usize, usize), DrawingSize))
    ensures
        exists|n: int| 0 <= n <= 100 && r == plot_size_for(drawing_type, n),
{
    let n = random_below(101);
    plot_size_from_draw(drawing_type, n)
}


/// How checking a plot ends: free, blocked, or at a position past the grid.
#[derive(Clone, Copy, Debug, PartialEq, Eq, Structural)]
pub enum PlotStatus {
    Clear,
    Blocked,
    OffGrid,
}

/// Returns how checking the `h` x `w` plot at (`y`, `x`) ends, scanning it
/// row by row as `find_plot_from_map` does but reporting a position past the
/// grid instead of indexing it.
pub fn plot_status(
    grid: &Vec<Vec<Option<Tile>>>,
    drawings: &Vec<Drawing>,
    kind: DrawingType,
    y: usize,
    x: usize,
    h: usize,
    w: usize,
) -> (r: PlotStatus)
    requires
        y + h <= usize::MAX,
        x + w <= usize::MAX,
    ensures
        (r == PlotStatus::Clear) == plot_clear(grid_view(grid@), drawings@, kind, y as int, x as int, h as int, w as int),
        (r == PlotStatus::OffGrid) == plot_scan_off_grid(grid_view(grid@), drawings@, kind, y as int, x as int, h as int, w as int),
{
    let ghost gy = y as int;
    let ghost gx = x as int;
    let ghost gh = h as int;
    let ghost gw = w as int;
    let ghost gv = grid_view(grid@);
    let end_y = y + h;
    let end_x = x + w;
    let mut y_plot = y;
    while y_plot < end_y
        invariant
            gy == y,
            gx == x,
            gh == h,
            gw == w,
            gv == grid_view(grid@),
            y <= y_plot <= end_y,
            end_y == y + h,
            end_x == x + w,
            forall|d: Coords|
                #[trigger] in_rect(gy, gx, gh, gw, d) && d.0 < y_plot ==> !stops_scan(gv, drawings@, kind, d),
        decreases end_y - y_plot,
    {
        let mut x_plot = x;
        while x_plot < end_x
            invariant
                gy == y,
                gx == x,
                gh == h,
                gw == w,
                gv == grid_view(grid@),
                y <= y_plot < end_y,
                x <= x_plot <= end_x,
                end_y == y + h,
                end_x == x + w,
                forall|d: Coords|
                    #[trigger] in_rect(gy, gx, gh, gw, d) && (d.0 < y_plot || (d.0 == y_plot && d.1
                        < x_plot)) ==> !stops_scan(gv, drawings@, kind, d),
            decreases end_x - x_plot,
        {
            let c: Coords = (y_plot, x_plot);
            assert(in_rect(gy, gx, gh, gw, c));
            let blocked: bool;
            if is_tile_in_drawings(c, drawings) {
                blocked = true;
            } else if y_plot >= grid.len() || x_plot >= grid[y_plot].len() {
                proof {
                    assert forall|d: Coords|
                        in_rect(gy, gx, gh, gw, d) && #[trigger] coords_before(d, c) implies !stops_scan(
                        gv,
                        drawings@,
                        kind,
                        d,
                    ) by {
                        assert(in_rect(gy, gx, gh, gw, d));
                    }
                    assert(plot_scan_off_grid(gv, drawings@, kind, gy, gx, gh, gw));
                    assert(!plot_clear(gv, drawings@, kind, gy, gx, gh, gw));
                }
                return PlotStatus::OffGrid;
            } else {
                assert(gv[y_plot as int] == grid@[y_plot as int]@);
                match grid[y_plot][x_plot] {
                    Some(tile_plot) => {
                        let tree_ground = match kind {
                            DrawingType::Tree => match tile_plot.tile_type {
                                TileType::Sand | TileType::Snow => true,
                                _ => false,
                            },
                            _ => false,
                        };
                        let bad_ground = match tile_plot.tile_type {
                            TileType::DeepWater | TileType::Lava | TileType::Wall
                            | TileType::Street => true,
                            _ => false,
                        };
                        let occupied = match tile_plot.content {
                            Content::Nothing => false,
                            _ => true,
                        };
                        blocked = tree_ground || bad_ground || occupied;
                    },
                    None => {
                        blocked = true;
                    },
                }
            }
            assert(blocked == stops_scan(gv, drawings@, kind, c));
            if blocked {
                proof {
                    assert(!plot_clear(gv, drawings@, kind, gy, gx, gh, gw));
                    if plot_scan_off_grid(gv, drawings@, kind, gy, gx, gh, gw) {
                        let c2 = choose|c2: Coords|
                            {
                                &&& #[trigger] in_rect(gy, gx, gh, gw, c2)
                                &&& off_grid(gv, c2)
                                &&& !in_some_drawing(drawings@, c2)
                                &&& forall|d: Coords|
                                    in_rect(gy, gx, gh, gw, d) && #[trigger] coords_before(d, c2)
                                        ==> !stops_scan(gv, drawings@, kind, d)
                            };
                        if coords_before(c, c2) {
                            assert(!stops_scan(gv, drawings@, kind, c));
                        } else if c == c2 {
                            assert(!in_some_drawing(drawings@, c));
                            assert(!off_grid(gv, c));
                        } else {
                            assert(coords_before(c2, c));
                            assert(in_rect(gy, gx, gh, gw, c2));
                            assert(stops_scan(gv, drawings@, kind, c2));
                        }
                    }
                }
                return PlotStatus::Blocked;
            }
            x_plot = x_plot + 1;
        }
        y_plot = y_plot + 1;
    }
    proof {
        assert forall|d: Coords| #[trigger] in_rect(gy, gx, gh, gw, d) implies !stops_scan(
            gv,
            drawings@,
            kind,
            d,
        ) by {}
        if plot_scan_off_grid(gv, drawings@, kind, gy, gx, gh, gw) {
            let c2 = choose|c2: Coords|
                {
                    &&& #[trigger] in_rect(gy, gx, gh, gw, c2)
                    &&& off_grid(gv, c2)
                    &&& !in_some_drawing(drawings@, c2)
                    &&& forall|d: Coords|
                        in_rect(gy, gx, gh, gw, d) && #[trigger] coords_before(d, c2) ==> !stops_scan(
                            gv,
                            drawings@,
                            kind,
                            d,
                        )
                };
            assert(stops_scan(gv, drawings@, kind, c2));
        }
    }
    PlotStatus::Clear
}

/// The plot at corner `q` is neither free nor one whose check fails.
pub open spec fn corner_blocked(
    g: Seq<Seq<Option<Tile>>>,
    drawings: Seq<Drawing>,
    kind: DrawingType,
    size: (usize, usize),
    q: Coords,
) -> bool {
    &&& !good_plot(g, drawings, kind, size, q)
    &&& !plot_check_fails(g, drawings, kind, q.0 as int, q.1 as int, size.0 as int, size.1 as int)
}

/// Returns whether `find_plot_from_map` may be called on `map`: without a
/// map, always; else when `plot_search_ok` holds.
pub fn plot_search_safe(
    map: &Option<Vec<Vec<Option<Tile>>>>,
    plot_size: (usize, usize),
    drawing_type: DrawingType,
    drawings: &Vec<Drawing>,
) -> (r: bool)
    ensures
        r == (map is None || plot_search_ok(grid_view(map->0@), drawings@, drawing_type, plot_size)),
{
    match map {
        None => true,
        Some(grid) => {
            let ghost g = grid_view(grid@);
            assert(map->0 == *grid);
            let (h, w) = plot_size;
            let n = grid.len();
            if n > usize::MAX - h {
                return false;
            }
            if n == 0 {
                proof {
                    assert forall|p: Coords|
                        plot_corner(g, p) && #[trigger] plot_check_fails(
                            g,
                            drawings@,
                            drawing_type,
                            p.0 as int,
                            p.1 as int,
                            h as int,
                            w as int,
                        ) implies exists|q: Coords|
                        good_plot(g, drawings@, drawing_type, plot_size, q) && #[trigger] coords_before(q, p) by {
                        assert(plot_corner(g, p));
                    }
                }
                return true;
            }
            let width = grid[0].len();
            if width > usize::MAX - w {
                return false;
            }
            let mut y: usize = 0;
            while y < n
                invariant
                    0 <= y <= n,
                    n == g.len(),
                    n > 0,
                    g == grid_view(grid@),
                    map->0 == *grid,
                    map is Some,
                    width == g[0].len(),
                    h == plot_size.0,
                    w == plot_size.1,
                    n + h <= usize::MAX,
                    width + w <= usize::MAX,
                    forall|c: Coords| #[trigger] scan_cell_missing(g, c) ==> c.0 >= y,
                    forall|q: Coords|
                        plot_corner(g, q) && q.0 < y ==> #[trigger] corner_blocked(g, drawings@, drawing_type, plot_size, q),
                decreases n - y,
            {
                let mut x: usize = 0;
                while x < width
                    invariant
                        0 <= y < n,
                        0 <= x <= width,
                        n == g.len(),
                        g == grid_view(grid@),
                        map->0 == *grid,
                    map is Some,
                        width == g[0].len(),
                        h == plot_size.0,
                        w == plot_size.1,
                        n + h <= usize::MAX,
                        width + w <= usize::MAX,
                        forall|c: Coords|
                            #[trigger] scan_cell_missing(g, c) ==> c.0 > y || (c.0 == y && c.1 >= x),
                        forall|q: Coords|
                            plot_corner(g, q) && (q.0 < y || (q.0 == y && q.1 < x)) ==> #[trigger] corner_blocked(
                                g,
                                drawings@,
                                drawing_type,
                                plot_size,
                                q,
                            ),
                    decreases width - x,
                {
                    let ghost p: Coords = (y, x);
                    assert(g[y as int] == grid@[y as int]@);
                    if x >= grid[y].len() {
                        proof {
                            assert(scan_cell_missing(g, p));
                            lemma_missing_cell_fails(g, drawings@, drawing_type, plot_size, p);
                        }
                        return false;
                    }
                    if grid[y][x].is_some() {
                        assert(plot_corner(g, p));
                        let status = plot_status(grid, drawings, drawing_type, y, x, h, w);
                        proof {
                            lemma_check_fails_parts(g, drawings@, drawing_type, y as int, x as int, h as int, w as int);
                        }
                        match status {
                            PlotStatus::Clear => {
                                if y + h == 0 || x + w == 0 {
                                    proof {
                                        lemma_first_corner_fails(g, drawings@, drawing_type, plot_size, p);
                                        assert(!plot_search_ok(grid_view(map->0@), drawings@, drawing_type, plot_size));
                                    }
                                    return false;
                                }
                                proof {
                                    lemma_first_good_corner(g, drawings@, drawing_type, plot_size, p);
                                    assert forall|c: Coords| #[trigger] scan_cell_missing(g, c) implies exists|q: Coords|
                                        good_plot(g, drawings@, drawing_type, plot_size, q) && #[trigger] coords_before(q, c) by {
                                        assert(coords_before(p, c));
                                    }
                                }
                                return true;
                            },
                            PlotStatus::OffGrid => {
                                proof {
                                    lemma_first_corner_fails(g, drawings@, drawing_type, plot_size, p);
                                }
                                return false;
                            },
                            PlotStatus::Blocked => {
                                assert(corner_blocked(g, drawings@, drawing_type, plot_size, p));
                            },
                        }
                    }
                    x = x + 1;
                }
                y = y + 1;
            }
            proof {
                assert forall|p: Coords|
                    plot_corner(g, p) && #[trigger] plot_check_fails(
                        g,
                        drawings@,
                        drawing_type,
                        p.0 as int,
                        p.1 as int,
                        h as int,
                        w as int,
                    ) implies exists|q: Coords|
                    good_plot(g, drawings@, drawing_type, plot_size, q) && #[trigger] coords_before(q, p) by {
                    assert(plot_corner(g, p));
                    assert(corner_blocked(g, drawings@, drawing_type, plot_size, p));
                }
                assert forall|c: Coords| #[trigger] scan_cell_missing(g, c) implies exists|q: Coords|
                    good_plot(g, drawings@, drawing_type, plot_size, q) && #[trigger] coords_before(q, c) by {
                    assert(scan_cell_missing(g, c));
                }
            }
            true
        },
    }
}

/// A scanned position past the end of its row, with every earlier corner
/// blocked, breaks `plot_search_ok`.
proof fn lemma_missing_cell_fails(
    g: Seq<Seq<Option<Tile>>>,
    drawings: Seq<Drawing>,
    kind: DrawingType,
    size: (usize, usize),
    p: Coords,
)
    requires
        scan_cell_missing(g, p),
        forall|q: Coords|
            plot_corner(g, q) && coords_before(q, p) ==> #[trigger] corner_blocked(g, drawings, kind, size, q),
    ensures
        !plot_search_ok(g, drawings, kind, size),
{
    if plot_search_ok(g, drawings, kind, size) {
        let q = choose|q: Coords| good_plot(g, drawings, kind, size, q) && #[trigger] coords_before(q, p);
        assert(corner_blocked(g, drawings, kind, size, q));
    }
}

/// A corner whose check fails, with every earlier corner blocked, breaks `plot_search_ok`.
proof fn lemma_first_corner_fails(
    g: Seq<Seq<Option<Tile>>>,
    drawings: Seq<Drawing>,
    kind: DrawingType,
    size: (usize, usize),
    p: Coords,
)
    requires
        plot_corner(g, p),
        plot_check_fails(g, drawings, kind, p.0 as int, p.1 as int, size.0 as int, size.1 as int),
        forall|q: Coords|
            plot_corner(g, q) && coords_before(q, p) ==> #[trigger] corner_blocked(g, drawings, kind, size, q),
    ensures
        !plot_search_ok(g, drawings, kind, size),
{
    if plot_search_ok(g, drawings, kind, size) {
        let q = choose|q: Coords| good_plot(g, drawings, kind, size, q) && #[trigger] coords_before(q, p);
        assert(corner_blocked(g, drawings, kind, size, q));
    }
}

/// A free corner, with every earlier corner blocked, makes the search safe
/// apart from the shape of the grid.
proof fn lemma_first_good_corner(
    g: Seq<Seq<Option<Tile>>>,
    drawings: Seq<Drawing>,
    kind: DrawingType,
    size: (usize, usize),
    p: Coords,
)
    requires
        good_plot(g, drawings, kind, size, p),
        !plot_scan_off_grid(g, drawings, kind, p.0 as int, p.1 as int, size.0 as int, size.1 as int),
        forall|q: Coords|
            plot_corner(g, q) && coords_before(q, p) ==> #[trigger] corner_blocked(g, drawings, kind, size, q),
    ensures
        forall|r2: Coords|
            plot_corner(g, r2) && #[trigger] plot_check_fails(
                g,
                drawings,
                kind,
                r2.0 as int,
                r2.1 as int,
                size.0 as int,
                size.1 as int,
            ) ==> exists|q: Coords| good_plot(g, drawings, kind, size, q) && #[trigger] coords_before(q, r2),
{
    assert forall|r2: Coords|
        plot_corner(g, r2) && #[trigger] plot_check_fails(
            g,
            drawings,
            kind,
            r2.0 as int,
            r2.1 as int,
            size.0 as int,
            size.1 as int,
        ) implies exists|q: Coords| good_plot(g, drawings, kind, size, q) && #[trigger] coords_before(q, r2) by {
        lemma_check_fails_parts(g, drawings, kind, r2.0 as int, r2.1 as int, size.0 as int, size.1 as int);
        if coords_before(p, r2) {
        } else if r2 == p {
        } else {
            assert(coords_before(r2, p));
            assert(corner_blocked(g, drawings, kind, size, r2));
        }
    }
}

} // verus!
