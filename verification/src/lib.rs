//! Decision logic of a painting robot that lives on a tile world: path finding,
//! exploration spirals, drawings laid out on free plots, and the per-tick state
//! machines that drive the robots.
pub mod world;
pub mod lumberjack;
pub mod spiral;
pub mod random;
pub mod drawing;
pub mod runner;
pub mod street_maker;
pub mod events;
pub mod display;
pub mod node_order;
pub mod spiral_geometry;
