use vstd::prelude::*;

verus! {

/// Width of the world grid, in cells.
pub const WIDTH: usize = 140;

/// Height of the world grid, in cells.
pub const HEIGHT: usize = 90;

/// Seed of the shared pseudo-random stream; the grid's own stream is
/// seeded with `SEED + 1`.
pub const SEED: u64 = 1;

/// Probability, in thousandths, that an active producer cell drops food.
pub const PRODUCER_RATE_MILLI: u32 = 70;

/// Probability, in thousandths, that a cell receives food when food is
/// scattered over the whole grid.
pub const SCATTER_RATE_MILLI: u32 = 100;

/// Probability, in thousandths, that a dead organism's cell leaves food
/// behind.
pub const DROP_FOOD_RATE_MILLI: u32 = 100;

/// Probability, in thousandths, that an anatomy or a brain mutates; also
/// the half-width, in thousandths, of the uniform weight perturbation.
pub const MUTATION_RATE_MILLI: u32 = 600;

/// Lifetime budget granted per anatomy cell.
pub const LIFETIME_MULTIPLIER: i64 = 32;

/// Width of every hidden layer of a brain.
pub const HIDDEN_NEURON_NUM: usize = 3;

/// Number of output neurons of a brain, one per cardinal direction.
pub const BRAIN_OUTPUTS: usize = 4;

/// Maximum distance, in cells, that an eye looks along its ray.
pub const MAX_EYE_DIST: usize = 5;

/// Satiety gained per meal, in thousandths.
pub const FOOD_BENEFIT_MILLI: i64 = 180;

/// Satiety lost per tick and per anatomy cell, in thousandths.
pub const HUNGER_RATE_MILLI: i64 = 6;

/// Satiety an organism is born with, in thousandths.
pub const INITIAL_SATIETY_MILLI: i64 = 1000;

/// Energy required per anatomy cell before reproduction, in hundredths.
pub const REPRODUCTION_COST_CENTI: i64 = 185;

/// Number of seed organisms placed at start and after an extinction.
pub const RESEED_COUNT: usize = 10;

/// Hard cap on the number of cells of one anatomy; keeps every counter
/// computation comfortably inside machine integer ranges.
pub const MAX_CELLS: usize = 100000;

/// Eye reading, in thousandths, when the ray sees nothing.
pub const EYE_NOTHING: i32 = 100;

/// Eye reading, in thousandths, when the ray first hits food.
pub const EYE_FOOD: i32 = 500;

/// Eye reading, in thousandths, when the ray first hits an organism.
pub const EYE_ORGANISM: i32 = -1000;

} // verus!
