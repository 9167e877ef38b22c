use vstd::prelude::*;

pub mod arith;
pub mod brain;
pub mod cell;
pub mod codec;
pub mod config;
pub mod grid;
pub mod organism;
pub mod organism_manager;
pub mod rng;

verus! {

/// A movement outcome for an organism: one of the four cardinal
/// directions, or no movement at all.
#[derive(Clone, Copy, PartialEq, Eq, Structural, Debug)]
pub enum Direction {
    Up,
    Down,
    Left,
    Right,
    Still,
}

impl Direction {
    /// Draws one of the four cardinal directions uniformly at random.
    pub fn random_direction(rng: &mut rand::rngs::StdRng) -> (d: Direction)
        ensures
            d != Direction::Still,
    {
        match crate::rng::rng_below(rng, 4) {
            0u32 => Direction::Up,
            1u32 => Direction::Down,
            2u32 => Direction::Left,
            _ => Direction::Right,
        }
    }
}

} // verus!
