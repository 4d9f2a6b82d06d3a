//! Random choices of the robot, drawn from the thread's random number generator.
use vstd::prelude::*;
use rand::Rng;
use crate::world::Direction;

verus! {

/// A number drawn uniformly below `bound` by `rand::thread_rng().gen_range(0..bound)`.
///
/// Trusted: `gen_range` returns a value inside the (non-empty) range it is
/// given; nothing is said of which one. Not stated: the generator can panic
/// when the system gives it no seed.
#[verifier::external_body]
pub(crate) fn random_below(bound: u32) -> (r: u32)
    requires
        bound > 0,
    ensures
        r < bound,
{
    rand::thread_rng().gen_range(0..bound)
}

/// The direction a random draw `n` stands for: right, left, up, and down for 3 and above.
pub open spec fn direction_for(n: int) -> Direction {
    if n == 0 {
        Direction::Right
    } else if n == 1 {
        Direction::Left
    } else if n == 2 {
        Direction::Up
    } else {
        Direction::Down
    }
}

/// Returns the direction that the draw `n` stands for.
pub fn direction_from_draw(n: u32) -> (r: Direction)
    ensures
        r == direction_for(n as int),
{
    match n {
        0 => Direction::Right,
        1 => Direction::Left,
        2 => Direction::Up,
        _ => Direction::Down,
    }
}

/// Returns one of the four directions, drawn at random.
pub fn choose_random_direction() -> (r: Direction)
    ensures
        exists|n: int| 0 <= n < 4 && r == direction_for(n),
{
    let n = random_below(4);
    direction_from_draw(n)
}

/// Returns `quantity` directions, each drawn at random.
pub fn choose_multiple_random_directions(quantity: usize) -> (r: Vec<Direction>)
    ensures
        r@.len() == quantity,
{
    let mut vec_out: Vec<Direction> = Vec::new();
    let mut i: usize = 0;
    while i < quantity
        invariant
            0 <= i <= quantity,
            vec_out@.len() == i,
        decreases quantity - i,
    {
        let d = choose_random_direction();
        vec_out.push(d);
        i = i + 1;
    }
    vec_out
}

} // verus!
