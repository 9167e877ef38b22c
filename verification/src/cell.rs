use vstd::prelude::*;
use crate::Direction;

verus! {

/// The facing of an eye cell.
#[derive(Clone, Copy, PartialEq, Eq, Structural, Debug)]
pub enum EyeType {
    Up,
    Down,
    Left,
    Right,
}

/// A building block of an organism. `Empty` marks an unoccupied world
/// cell in the occupancy map and never appears inside an anatomy built
/// by the simulation; `Body` is a plain structural cell.
#[derive(Clone, Copy, PartialEq, Eq, Structural, Debug)]
pub enum Cell {
    Empty,
    Body,
    Mouth,
    Producer,
    Mover,
    Killer,
    Armor,
    Eye(EyeType),
    Brain,
}

/// True of the cell types that the anatomy text encoding can name, the
/// ones a random mutation can produce.
pub open spec fn recognized(c: Cell) -> bool {
    c != Cell::Empty && c != Cell::Body
}

impl Cell {
    /// Draws one of the seven functional cell types uniformly at random.
    pub fn random_cell(rng: &mut rand::rngs::StdRng) -> (c: Cell)
        ensures
            recognized(c),
    {
        match crate::rng::rng_below(rng, 7) {
            0u32 => Cell::Mouth,
            1u32 => Cell::Producer,
            2u32 => Cell::Mover,
            3u32 => Cell::Killer,
            4u32 => Cell::Armor,
            5u32 => Cell::Eye(Cell::random_eye_type(rng)),
            _ => Cell::Brain,
        }
    }

    /// Draws one of the four eye facings uniformly at random.
    pub fn random_eye_type(rng: &mut rand::rngs::StdRng) -> EyeType {
        match crate::rng::rng_below(rng, 4) {
            0u32 => EyeType::Up,
            1u32 => EyeType::Down,
            2u32 => EyeType::Left,
            _ => EyeType::Right,
        }
    }
}

impl EyeType {
    /// The direction an eye of this facing looks along.
    pub fn to_direction(&self) -> (d: Direction)
        ensures
            d == self.dir_spec(),
    {
        match self {
            EyeType::Up => Direction::Up,
            EyeType::Down => Direction::Down,
            EyeType::Left => Direction::Left,
            EyeType::Right => Direction::Right,
        }
    }

    /// The direction an eye of this facing looks along.
    pub open spec fn dir_spec(self) -> Direction {
        match self {
            EyeType::Up => Direction::Up,
            EyeType::Down => Direction::Down,
            EyeType::Left => Direction::Left,
            EyeType::Right => Direction::Right,
        }
    }
}

} // verus!
