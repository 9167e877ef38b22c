use vstd::prelude::*;

verus! {

/// Bound inside which every organism counter (energy, lifetime, satiety)
/// is kept; far beyond any value a run can reach, and small enough that
/// clipped sums never overflow `i64`.
pub const COUNTER_BOUND: i64 = 1000000000000;

/// A value clipped to the inclusive range `[-COUNTER_BOUND, COUNTER_BOUND]`.
pub open spec fn clip(x: int) -> int {
    if x > COUNTER_BOUND as int {
        COUNTER_BOUND as int
    } else if x < -(COUNTER_BOUND as int) {
        -(COUNTER_BOUND as int)
    } else {
        x
    }
}

/// True of a counter that lies inside the clipped range.
pub open spec fn in_counter_range(x: int) -> bool {
    -(COUNTER_BOUND as int) <= x <= COUNTER_BOUND as int
}

/// Adds two in-range counters and clips the sum back into range.
pub fn add_clipped(a: i64, b: i64) -> (r: i64)
    requires
        in_counter_range(a as int),
        in_counter_range(b as int),
    ensures
        r == clip(a + b),
        in_counter_range(r as int),
{
    let s = a + b;
    if s > COUNTER_BOUND {
        COUNTER_BOUND
    } else if s < -COUNTER_BOUND {
        -COUNTER_BOUND
    } else {
        s
    }
}

/// Subtracts one in-range counter from another and clips the difference
/// back into range.
pub fn sub_clipped(a: i64, b: i64) -> (r: i64)
    requires
        in_counter_range(a as int),
        in_counter_range(b as int),
    ensures
        r == clip(a - b),
        in_counter_range(r as int),
{
    let s = a - b;
    if s > COUNTER_BOUND {
        COUNTER_BOUND
    } else if s < -COUNTER_BOUND {
        -COUNTER_BOUND
    } else {
        s
    }
}

/// An `i32` sum saturated at the type's bounds.
pub open spec fn sat_i32(x: int) -> int {
    if x > i32::MAX as int {
        i32::MAX as int
    } else if x < i32::MIN as int {
        i32::MIN as int
    } else {
        x
    }
}

/// Adds two `i32` values, saturating at the type's bounds.
pub fn sat_add_i32(a: i32, b: i32) -> (r: i32)
    ensures
        r == sat_i32(a + b),
{
    match a.checked_add(b) {
        Some(s) => s,
        None => {
            if b > 0 {
                i32::MAX
            } else {
                i32::MIN
            }
        },
    }
}

/// The absolute difference of two `i32` values, as an `i64`.
pub fn abs_diff_i32(a: i32, b: i32) -> (r: i64)
    ensures
        r == if a >= b { a - b } else { b - a },
{
    let d = a as i64 - b as i64;
    if d < 0 {
        -d
    } else {
        d
    }
}

} // verus!
