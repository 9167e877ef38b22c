use vstd::prelude::*;
use crate::cell::Cell;
use crate::config::{
    DROP_FOOD_RATE_MILLI, EYE_FOOD, EYE_NOTHING, EYE_ORGANISM, HEIGHT, MAX_EYE_DIST,
    PRODUCER_RATE_MILLI, SCATTER_RATE_MILLI, SEED, WIDTH,
};
use crate::organism::Organism;
use crate::rng::{rng_below, rng_from_seed};
use crate::Direction;

verus! {

/// What a world cell holds, from the point of view of an eye ray.
#[derive(Clone, Copy, PartialEq, Eq, Structural, Debug)]
pub enum CellContent {
    Empty,
    Food,
    Organism,
}

/// The world: food presence and the per-tick occupancy snapshot over a
/// `WIDTH x HEIGHT` grid (both indexed `[y][x]`), plus the kill sites
/// pending until the next occupancy rebuild. The grid owns its own
/// pseudo-random stream, used for food placement.
pub struct Grid {
    pub rng: rand::rngs::StdRng,
    pub foods: Vec<Vec<bool>>,
    pub organs: Vec<Vec<Cell>>,
    pub pending_kill_coordinates: Vec<(usize, usize)>,
    pub pending_kill_killers: Vec<usize>,
}

/// True of coordinates that lie on the grid.
pub open spec fn in_bounds(x: int, y: int) -> bool {
    0 <= x < WIDTH && 0 <= y < HEIGHT
}

/// An index clamped to `[0, hi]`.
pub open spec fn clamp_idx(v: int, hi: int) -> int {
    if v < 0 {
        0
    } else if v > hi {
        hi
    } else {
        v
    }
}

/// A row of `n` equal values.
pub(crate) fn filled_bools(n: usize, v: bool) -> (r: Vec<bool>)
    ensures
        r@.len() == n,
        forall|i: int| 0 <= i < n ==> r@[i] == v,
{
    let mut r: Vec<bool> = Vec::new();
    let mut i: usize = 0;
    while i < n
        invariant
            i <= n,
            r@.len() == i,
            forall|j: int| 0 <= j < i ==> r@[j] == v,
        decreases n - i,
    {
        r.push(v);
        i = i + 1;
    }
    r
}

/// A row of `n` equal cells.
fn filled_cells(n: usize, c: Cell) -> (r: Vec<Cell>)
    ensures
        r@.len() == n,
        forall|i: int| 0 <= i < n ==> r@[i] == c,
{
    let mut r: Vec<Cell> = Vec::new();
    let mut i: usize = 0;
    while i < n
        invariant
            i <= n,
            r@.len() == i,
            forall|j: int| 0 <= j < i ==> r@[j] == c,
        decreases n - i,
    {
        r.push(c);
        i = i + 1;
    }
    r
}

/// Copies a row of food flags.
fn copy_bools(v: &Vec<bool>) -> (r: Vec<bool>)
    ensures
        r@ == v@,
{
    let mut r: Vec<bool> = Vec::new();
    let mut i: usize = 0;
    while i < v.len()
        invariant
            i <= v.len(),
            r@ == v@.take(i as int),
        decreases v.len() - i,
    {
        r.push(v[i]);
        i = i + 1;
    }
    proof {
        assert(r@ =~= v@);
    }
    r
}

impl Grid {
    /// Both maps cover the whole grid and the two pending lists pair up.
    pub open spec fn wf(self) -> bool {
        &&& self.foods@.len() == HEIGHT
        &&& forall|y: int| 0 <= y < HEIGHT ==> (#[trigger] self.foods@[y])@.len() == WIDTH
        &&& self.organs@.len() == HEIGHT
        &&& forall|y: int| 0 <= y < HEIGHT ==> (#[trigger] self.organs@[y])@.len() == WIDTH
        &&& self.pending_kill_coordinates@.len() == self.pending_kill_killers@.len()
    }

    /// Whether the cell at (x, y) bears food.
    pub open spec fn food_at(self, x: int, y: int) -> bool {
        self.foods@[y]@[x]
    }

    /// The organism cell type written at (x, y) by the last occupancy
    /// rebuild.
    pub open spec fn organ_at(self, x: int, y: int) -> Cell {
        self.organs@[y]@[x]
    }

    /// A cell an organism may move onto: on the grid, not occupied, and
    /// not bearing food.
    pub open spec fn empty_at(self, x: int, y: int) -> bool {
        &&& in_bounds(x, y)
        &&& self.organ_at(x, y) == Cell::Empty
        &&& !self.food_at(x, y)
    }

    /// What an eye ray finds at (x, y): out-of-bounds cells count as empty.
    pub open spec fn contents_at(self, x: int, y: int) -> CellContent {
        if !in_bounds(x, y) {
            CellContent::Empty
        } else if self.organ_at(x, y) != Cell::Empty {
            CellContent::Organism
        } else if self.food_at(x, y) {
            CellContent::Food
        } else {
            CellContent::Empty
        }
    }

    /// A fresh grid: no food, no occupancy, no pending kills, and the
    /// grid's own random stream seeded one past the master seed.
    pub fn new() -> (g: Grid)
        ensures
            g.wf(),
            forall|x: int, y: int| in_bounds(x, y) ==> !#[trigger] g.food_at(x, y),
            forall|x: int, y: int| in_bounds(x, y) ==> #[trigger] g.organ_at(x, y) == Cell::Empty,
            g.pending_kill_coordinates@.len() == 0,
            g.pending_kill_killers@.len() == 0,
    {
        let mut foods: Vec<Vec<bool>> = Vec::new();
        let mut organs: Vec<Vec<Cell>> = Vec::new();
        let mut y: usize = 0;
        while y < HEIGHT
            invariant
                y <= HEIGHT,
                foods@.len() == y,
                organs@.len() == y,
                forall|r: int| 0 <= r < y ==> (#[trigger] foods@[r])@.len() == WIDTH,
                forall|r: int| 0 <= r < y ==> (#[trigger] organs@[r])@.len() == WIDTH,
                forall|r: int, c: int|
                    0 <= r < y && 0 <= c < WIDTH ==> !(#[trigger] foods@[r]@[c]),
                forall|r: int, c: int|
                    0 <= r < y && 0 <= c < WIDTH ==> (#[trigger] organs@[r]@[c]) == Cell::Empty,
            decreases HEIGHT - y,
        {
            let frow = filled_bools(WIDTH, false);
            foods.push(frow);
            let crow = filled_cells(WIDTH, Cell::Empty);
            organs.push(crow);
            y = y + 1;
        }
        Grid {
            rng: rng_from_seed(SEED + 1),
            foods,
            organs,
            pending_kill_coordinates: Vec::new(),
            pending_kill_killers: Vec::new(),
        }
    }

    /// Sets the food flag of one in-bounds cell, leaving everything else
    /// as it was.
    fn set_food(&mut self, x: usize, y: usize, v: bool)
        requires
            old(self).wf(),
            x < WIDTH,
            y < HEIGHT,
        ensures
            final(self).wf(),
            final(self).organs@ == old(self).organs@,
            final(self).pending_kill_coordinates@ == old(self).pending_kill_coordinates@,
            final(self).pending_kill_killers@ == old(self).pending_kill_killers@,
            final(self).rng == old(self).rng,
            forall|p: int, q: int|
                in_bounds(p, q) ==> #[trigger] final(self).food_at(p, q) == if p == x && q == y {
                    v
                } else {
                    old(self).food_at(p, q)
                },
    {
        let mut row = copy_bools(&self.foods[y]);
        row.set(x, v);
        self.foods.set(y, row);
    }

    /// Marks each cell food-bearing with a fixed independent probability;
    /// used only when the population is (re)seeded. Never removes food.
    pub fn scatter_food(&mut self)
        requires
            old(self).wf(),
        ensures
            final(self).wf(),
            final(self).organs@ == old(self).organs@,
            final(self).pending_kill_coordinates@ == old(self).pending_kill_coordinates@,
            final(self).pending_kill_killers@ == old(self).pending_kill_killers@,
            forall|p: int, q: int|
                in_bounds(p, q) && #[trigger] old(self).food_at(p, q) ==> final(self).food_at(p, q),
    {
        let mut y: usize = 0;
        while y < HEIGHT
            invariant
                y <= HEIGHT,
                self.wf(),
                self.organs@ == old(self).organs@,
                self.pending_kill_coordinates@ == old(self).pending_kill_coordinates@,
                self.pending_kill_killers@ == old(self).pending_kill_killers@,
                forall|p: int, q: int|
                    in_bounds(p, q) && #[trigger] old(self).food_at(p, q) ==> self.food_at(p, q),
            decreases HEIGHT - y,
        {
            let mut x: usize = 0;
            while x < WIDTH
                invariant
                    y < HEIGHT,
                    x <= WIDTH,
                    self.wf(),
                    self.organs@ == old(self).organs@,
                    self.pending_kill_coordinates@ == old(self).pending_kill_coordinates@,
                    self.pending_kill_killers@ == old(self).pending_kill_killers@,
                    forall|p: int, q: int|
                        in_bounds(p, q) && #[trigger] old(self).food_at(p, q) ==> self.food_at(
                            p,
                            q,
                        ),
                decreases WIDTH - x,
            {
                if rng_below(&mut self.rng, 1000) < SCATTER_RATE_MILLI {
                    let ghost pre = *self;
                    self.set_food(x, y, true);
                    proof {
                        assert forall|p: int, q: int|
                            in_bounds(p, q) && #[trigger] old(self).food_at(p, q) implies self.food_at(
                            p,
                            q,
                        ) by {
                            assert(pre.food_at(p, q));
                            assert(self.food_at(p, q) == if p == x && q == y {
                                true
                            } else {
                                pre.food_at(p, q)
                            });
                        }
                    }
                }
                x = x + 1;
            }
            y = y + 1;
        }
    }

    /// True of (p, q) if it is one of the four clamped diagonal neighbours
    /// of (x, y), where food production can land.
    pub open spec fn diag_target(x: int, y: int, p: int, q: int) -> bool {
        ||| (p == clamp_idx(x - 1, WIDTH as int - 1) && q == clamp_idx(y - 1, HEIGHT as int - 1))
        ||| (p == clamp_idx(x + 1, WIDTH as int - 1) && q == clamp_idx(y - 1, HEIGHT as int - 1))
        ||| (p == clamp_idx(x - 1, WIDTH as int - 1) && q == clamp_idx(y + 1, HEIGHT as int - 1))
        ||| (p == clamp_idx(x + 1, WIDTH as int - 1) && q == clamp_idx(y + 1, HEIGHT as int - 1))
    }

    /// What one producer activation does to the food map: either nothing,
    /// or exactly one clamped diagonal neighbour of (x, y) becomes
    /// food-bearing. Food is never removed.
    pub open spec fn produce_outcome(g0: Grid, g1: Grid, x: int, y: int) -> bool {
        ||| forall|a: int, b: int| in_bounds(a, b) ==> #[trigger] g1.food_at(a, b) == g0.food_at(a, b)
        ||| exists|p: int, q: int|
            #[trigger] Self::diag_target(x, y, p, q) && forall|a: int, b: int|
                in_bounds(a, b) ==> #[trigger] g1.food_at(a, b) == (if a == p && b == q {
                    true
                } else {
                    g0.food_at(a, b)
                })
    }

    /// With the producer probability, marks one uniformly chosen clamped
    /// diagonal neighbour of (x, y) as food-bearing; otherwise changes
    /// nothing. At most one cell changes, and only from bare to
    /// food-bearing.
    pub fn produce_food(&mut self, x: usize, y: usize)
        requires
            old(self).wf(),
            x < WIDTH,
            y < HEIGHT,
        ensures
            final(self).wf(),
            final(self).organs@ == old(self).organs@,
            final(self).pending_kill_coordinates@ == old(self).pending_kill_coordinates@,
            final(self).pending_kill_killers@ == old(self).pending_kill_killers@,
            Self::produce_outcome(*old(self), *final(self), x as int, y as int),
    {
        if rng_below(&mut self.rng, 1000) >= PRODUCER_RATE_MILLI {
            return ;
        }
        let sy: i64 = if rng_below(&mut self.rng, 2) == 1 {
            1
        } else {
            -1
        };
        let sx: i64 = if rng_below(&mut self.rng, 2) == 1 {
            1
        } else {
            -1
        };
        let ty = y as i64 + sy;
        let tx = x as i64 + sx;
        let fy: usize = if ty < 0 {
            0
        } else if ty > (HEIGHT - 1) as i64 {
            HEIGHT - 1
        } else {
            ty as usize
        };
        let fx: usize = if tx < 0 {
            0
        } else if tx > (WIDTH - 1) as i64 {
            WIDTH - 1
        } else {
            tx as usize
        };
        proof {
            assert(Self::diag_target(x as int, y as int, fx as int, fy as int));
        }
        self.set_food(fx, fy, true);
    }

    /// Whether an organism may occupy (x, y): in bounds, unoccupied, and
    /// free of food.
    pub fn is_cell_empty(&self, x: usize, y: usize) -> (r: bool)
        requires
            self.wf(),
        ensures
            r == self.empty_at(x as int, y as int),
    {
        if x >= WIDTH || y >= HEIGHT {
            return false;
        }
        if self.organs[y][x] != Cell::Empty {
            return false;
        }
        if self.foods[y][x] {
            return false;
        }
        true
    }

    /// What an eye ray finds at (x, y).
    fn cell_contents(&self, x: usize, y: usize) -> (r: CellContent)
        requires
            self.wf(),
        ensures
            r == self.contents_at(x as int, y as int),
    {
        if x >= WIDTH || y >= HEIGHT {
            return CellContent::Empty;
        }
        if self.organs[y][x] != Cell::Empty {
            return CellContent::Organism;
        }
        if self.foods[y][x] {
            return CellContent::Food;
        }
        CellContent::Empty
    }

    /// Appends a pending kill record; it takes effect only at the next
    /// occupancy rebuild.
    pub fn killer_activates(&mut self, x: usize, y: usize, id: usize)
        requires
            old(self).wf(),
        ensures
            final(self).wf(),
            final(self).foods@ == old(self).foods@,
            final(self).organs@ == old(self).organs@,
            final(self).rng == old(self).rng,
            final(self).pending_kill_coordinates@ == old(self).pending_kill_coordinates@.push(
                (x, y),
            ),
            final(self).pending_kill_killers@ == old(self).pending_kill_killers@.push(id),
    {
        self.pending_kill_coordinates.push((x, y));
        self.pending_kill_killers.push(id);
    }

    /// The position one step from (x, y) along `dir` (`Still` stays put);
    /// callers guarantee that the step stays on the non-negative quadrant.
    pub open spec fn ray_step(x: int, y: int, dir: Direction) -> (int, int) {
        match dir {
            Direction::Up => (x, y - 1),
            Direction::Down => (x, y + 1),
            Direction::Left => (x - 1, y),
            Direction::Right => (x + 1, y),
            Direction::Still => (x, y),
        }
    }

    /// What an eye at (x, y) reports after having already spent `depth`
    /// steps: `EYE_NOTHING` once the ray touches the boundary ring or its
    /// budget runs out, otherwise the reading of the first food or
    /// organism cell hit.
    pub open spec fn eye_scan(self, x: int, y: int, dir: Direction, depth: int) -> i32
        decreases MAX_EYE_DIST - depth,
    {
        if x <= 0 || y <= 0 || x >= WIDTH || y >= HEIGHT {
            EYE_NOTHING
        } else {
            let next = Self::ray_step(x, y, dir);
            if self.contents_at(next.0, next.1) == CellContent::Food {
                EYE_FOOD
            } else if self.contents_at(next.0, next.1) == CellContent::Organism {
                EYE_ORGANISM
            } else if depth + 1 >= MAX_EYE_DIST {
                EYE_NOTHING
            } else {
                self.eye_scan(next.0, next.1, dir, depth + 1)
            }
        }
    }

    /// True when two worlds look alike at one cell: same food and same
    /// occupancy.
    pub open spec fn cells_agree(g1: Grid, g2: Grid, p: int, q: int) -> bool {
        g1.food_at(p, q) == g2.food_at(p, q) && g1.organ_at(p, q) == g2.organ_at(p, q)
    }

    /// Law: an eye never reads beyond the configured maximum distance or
    /// the grid bounds — two worlds that agree on every grid cell within
    /// the remaining ray budget of the eye give the same reading.
    pub proof fn lemma_eye_scan_local(g1: Grid, g2: Grid, x: int, y: int, dir: Direction, depth: int)
        requires
            0 <= depth < MAX_EYE_DIST,
            forall|p: int, q: int|
                in_bounds(p, q) && -(MAX_EYE_DIST - depth) <= p - x <= MAX_EYE_DIST - depth && -(
                MAX_EYE_DIST - depth) <= q - y <= MAX_EYE_DIST - depth ==> #[trigger] Self::cells_agree(
                    g1,
                    g2,
                    p,
                    q,
                ),
        ensures
            g1.eye_scan(x, y, dir, depth) == g2.eye_scan(x, y, dir, depth),
        decreases MAX_EYE_DIST - depth,
    {
        if !(x <= 0 || y <= 0 || x >= WIDTH || y >= HEIGHT) {
            let next = Self::ray_step(x, y, dir);
            let nx = next.0;
            let ny = next.1;
            assert(-1 <= nx - x <= 1);
            assert(-1 <= ny - y <= 1);
            if in_bounds(nx, ny) {
                assert(-(MAX_EYE_DIST - depth) <= nx - x <= MAX_EYE_DIST - depth);
                assert(-(MAX_EYE_DIST - depth) <= ny - y <= MAX_EYE_DIST - depth);
                assert(Self::cells_agree(g1, g2, nx, ny));
            }
            assert(g1.contents_at(next.0, next.1) == g2.contents_at(next.0, next.1));
            if g1.contents_at(next.0, next.1) != CellContent::Food && g1.contents_at(
                next.0,
                next.1,
            ) != CellContent::Organism && depth + 1 < MAX_EYE_DIST {
                assert forall|p: int, q: int|
                    in_bounds(p, q) && -(MAX_EYE_DIST - (depth + 1)) <= p - next.0 <= MAX_EYE_DIST
                        - (depth + 1) && -(MAX_EYE_DIST - (depth + 1)) <= q - next.1
                        <= MAX_EYE_DIST - (depth + 1) implies #[trigger] Self::cells_agree(
                    g1,
                    g2,
                    p,
                    q,
                ) by {
                    assert(-(MAX_EYE_DIST - depth) <= p - x <= MAX_EYE_DIST - depth);
                    assert(-(MAX_EYE_DIST - depth) <= q - y <= MAX_EYE_DIST - depth);
                }
                Self::lemma_eye_scan_local(g1, g2, next.0, next.1, dir, depth + 1);
            }
        }
    }

    /// The scan only ever reports one of the three sentinel readings.
    pub proof fn lemma_eye_scan_range(self, x: int, y: int, dir: Direction, depth: int)
        ensures
            self.eye_scan(x, y, dir, depth) == EYE_NOTHING || self.eye_scan(x, y, dir, depth)
                == EYE_FOOD || self.eye_scan(x, y, dir, depth) == EYE_ORGANISM,
        decreases MAX_EYE_DIST - depth,
    {
        if !(x <= 0 || y <= 0 || x >= WIDTH || y >= HEIGHT) {
            let next = Self::ray_step(x, y, dir);
            if self.contents_at(next.0, next.1) != CellContent::Food && self.contents_at(
                next.0,
                next.1,
            ) != CellContent::Organism && depth + 1 < MAX_EYE_DIST {
                self.lemma_eye_scan_range(next.0, next.1, dir, depth + 1);
            }
        }
    }

    /// Casts a ray from (x, y) along `dir`, one cell at a time, never
    /// further than `MAX_EYE_DIST` steps nor past the grid bounds, and
    /// reports the first thing seen: exactly one of `EYE_NOTHING`,
    /// `EYE_FOOD` and `EYE_ORGANISM`.
    pub fn get_eye_data(&self, x: usize, y: usize, dir: Direction) -> (r: i32)
        requires
            self.wf(),
        ensures
            r == self.eye_scan(x as int, y as int, dir, 0),
            r == EYE_NOTHING || r == EYE_FOOD || r == EYE_ORGANISM,
    {
        let mut cx = x;
        let mut cy = y;
        let mut depth: usize = 0;
        let mut data: i32 = EYE_NOTHING;
        loop
            invariant_except_break
                self.wf(),
                depth < MAX_EYE_DIST,
                self.eye_scan(x as int, y as int, dir, 0) == self.eye_scan(
                    cx as int,
                    cy as int,
                    dir,
                    depth as int,
                ),
                data == EYE_NOTHING,
            ensures
                data == self.eye_scan(x as int, y as int, dir, 0),
            decreases MAX_EYE_DIST - depth,
        {
            if cx == 0 || cy == 0 || cx >= WIDTH || cy >= HEIGHT {
                break ;
            }
            let (nx, ny) = match dir {
                Direction::Up => (cx, cy - 1),
                Direction::Down => (cx, cy + 1),
                Direction::Left => (cx - 1, cy),
                Direction::Right => (cx + 1, cy),
                Direction::Still => (cx, cy),
            };
            cx = nx;
            cy = ny;
            match self.cell_contents(cx, cy) {
                CellContent::Food => {
                    data = EYE_FOOD;
                    break ;
                },
                CellContent::Organism => {
                    data = EYE_ORGANISM;
                    break ;
                },
                CellContent::Empty => {},
            }
            depth = depth + 1;
            if depth >= MAX_EYE_DIST {
                break ;
            }
        }
        proof {
            self.lemma_eye_scan_range(x as int, y as int, dir, 0);
        }
        data
    }

    /// Tries, in the fixed priority order self, +x, -x, +y, -y, to find a
    /// food-bearing cell; the first hit, if any.
    pub open spec fn mouth_target(self, x: int, y: int) -> Option<(int, int)> {
        if self.food_at(x, y) {
            Some((x, y))
        } else if x + 1 < WIDTH && self.food_at(x + 1, y) {
            Some((x + 1, y))
        } else if x > 0 && self.food_at(x - 1, y) {
            Some((x - 1, y))
        } else if y + 1 < HEIGHT && self.food_at(x, y + 1) {
            Some((x, y + 1))
        } else if y > 0 && self.food_at(x, y - 1) {
            Some((x, y - 1))
        } else {
            None
        }
    }

    /// Eats at most one food cell near (x, y): searches self and the four
    /// orthogonal neighbours in the fixed priority order self, +x, -x,
    /// +y, -y, clears exactly the first food cell found and reports
    /// success; reports failure and changes nothing when none bears food.
    pub fn mouth_eat(&mut self, x: usize, y: usize) -> (r: bool)
        requires
            old(self).wf(),
            x < WIDTH,
            y < HEIGHT,
        ensures
            final(self).wf(),
            final(self).organs@ == old(self).organs@,
            final(self).pending_kill_coordinates@ == old(self).pending_kill_coordinates@,
            final(self).pending_kill_killers@ == old(self).pending_kill_killers@,
            final(self).rng == old(self).rng,
            r == old(self).mouth_target(x as int, y as int).is_some(),
            match old(self).mouth_target(x as int, y as int) {
                Some(t) => {
                    &&& !final(self).food_at(t.0, t.1)
                    &&& forall|p: int, q: int|
                        in_bounds(p, q) && !(p == t.0 && q == t.1)
                            ==> #[trigger] final(self).food_at(p, q) == old(self).food_at(p, q)
                },
                None => final(self).foods@ == old(self).foods@,
            },
    {
        if self.foods[y][x] {
            self.set_food(x, y, false);
            true
        } else if x + 1 < WIDTH && self.foods[y][x + 1] {
            self.set_food(x + 1, y, false);
            true
        } else if x > 0 && self.foods[y][x - 1] {
            self.set_food(x - 1, y, false);
            true
        } else if y + 1 < HEIGHT && self.foods[y + 1][x] {
            self.set_food(x, y + 1, false);
            true
        } else if y > 0 && self.foods[y - 1][x] {
            self.set_food(x, y - 1, false);
            true
        } else {
            false
        }
    }

    /// True exactly when every anatomy cell of the candidate, translated
    /// to world coordinates, lies on the grid and on an empty cell.
    pub open spec fn spawn_ok(self, organism: Organism) -> bool {
        forall|i: int|
            0 <= i < organism.cells@.len() ==> self.empty_at(
                organism.x + (#[trigger] organism.cells@[i]).0,
                organism.y + organism.cells@[i].1,
            )
    }

    /// Whether the candidate organism can be placed: every cell of its
    /// anatomy must land in bounds and on an empty cell.
    pub fn check_spawn(&self, organism: &Organism) -> (r: bool)
        requires
            self.wf(),
            organism.wf(),
        ensures
            r == self.spawn_ok(*organism),
    {
        let mut i: usize = 0;
        while i < organism.cells.len()
            invariant
                self.wf(),
                organism.wf(),
                i <= organism.cells@.len(),
                forall|t: int|
                    0 <= t < i ==> self.empty_at(
                        organism.x + (#[trigger] organism.cells@[t]).0,
                        organism.y + organism.cells@[t].1,
                    ),
            decreases organism.cells@.len() - i,
        {
            let (dx, dy, _) = organism.cells[i];
            let wx = organism.x as i64 + dx as i64;
            let wy = organism.y as i64 + dy as i64;
            if wx < 0 || wx >= WIDTH as i64 || wy < 0 || wy >= HEIGHT as i64 {
                return false;
            }
            if !self.is_cell_empty(wx as usize, wy as usize) {
                return false;
            }
            i = i + 1;
        }
        true
    }

    /// Sets the occupancy entry of one in-bounds cell, leaving everything
    /// else as it was.
    fn set_organ(&mut self, x: usize, y: usize, c: Cell)
        requires
            old(self).wf(),
            x < WIDTH,
            y < HEIGHT,
        ensures
            final(self).wf(),
            final(self).foods@ == old(self).foods@,
            final(self).pending_kill_coordinates@ == old(self).pending_kill_coordinates@,
            final(self).pending_kill_killers@ == old(self).pending_kill_killers@,
            final(self).rng == old(self).rng,
            forall|p: int, q: int|
                in_bounds(p, q) ==> #[trigger] final(self).organ_at(p, q) == if p == x && q == y {
                    c
                } else {
                    old(self).organ_at(p, q)
                },
    {
        let mut row = copy_cells_row(&self.organs[y]);
        row.set(x, c);
        self.organs.set(y, row);
    }

    /// Scatters food over a dead organism's in-bounds cell positions, each
    /// with a fixed independent probability. Never removes food.
    pub fn make_remains(&mut self, organism: &Organism)
        requires
            old(self).wf(),
            organism.wf(),
        ensures
            final(self).wf(),
            final(self).organs@ == old(self).organs@,
            final(self).pending_kill_coordinates@ == old(self).pending_kill_coordinates@,
            final(self).pending_kill_killers@ == old(self).pending_kill_killers@,
            forall|p: int, q: int|
                in_bounds(p, q) && #[trigger] old(self).food_at(p, q) ==> final(self).food_at(p, q),
            forall|p: int, q: int|
                in_bounds(p, q) && final(self).food_at(p, q) && !#[trigger] old(self).food_at(p, q)
                    ==> exists|i: int|
                    0 <= i < organism.cells@.len() && organism.x + (
                    #[trigger] organism.cells@[i]).0 == p && organism.y + organism.cells@[i].1 == q,
    {
        let mut i: usize = 0;
        while i < organism.cells.len()
            invariant
                organism.wf(),
                i <= organism.cells@.len(),
                self.wf(),
                self.organs@ == old(self).organs@,
                self.pending_kill_coordinates@ == old(self).pending_kill_coordinates@,
                self.pending_kill_killers@ == old(self).pending_kill_killers@,
                forall|p: int, q: int|
                    in_bounds(p, q) && #[trigger] old(self).food_at(p, q) ==> self.food_at(p, q),
                forall|p: int, q: int|
                    in_bounds(p, q) && self.food_at(p, q) && !#[trigger] old(self).food_at(p, q)
                        ==> exists|t: int|
                        0 <= t < organism.cells@.len() && organism.x + (
                        #[trigger] organism.cells@[t]).0 == p && organism.y + organism.cells@[t].1
                            == q,
            decreases organism.cells@.len() - i,
        {
            if rng_below(&mut self.rng, 1000) < DROP_FOOD_RATE_MILLI {
                let (dx, dy, _) = organism.cells[i];
                let wx = organism.x as i64 + dx as i64;
                let wy = organism.y as i64 + dy as i64;
                if wx >= 0 && wx < WIDTH as i64 && wy >= 0 && wy < HEIGHT as i64 {
                    let ghost pre = *self;
                    self.set_food(wx as usize, wy as usize, true);
                    proof {
                        assert forall|p: int, q: int|
                            in_bounds(p, q) && self.food_at(p, q) && !#[trigger] old(self).food_at(
                            p,
                            q,
                        ) implies exists|t: int|
                            0 <= t < organism.cells@.len() && organism.x + (
                            #[trigger] organism.cells@[t]).0 == p && organism.y
                                + organism.cells@[t].1 == q by {
                            if p == wx as int && q == wy as int {
                                assert(organism.x + organism.cells@[i as int].0 == p && organism.y
                                    + organism.cells@[i as int].1 == q);
                            } else {
                                assert(self.food_at(p, q) == pre.food_at(p, q));
                            }
                        }
                    }
                }
            }
            i = i + 1;
        }
    }

    /// Rebuilds the occupancy map from the whole population and resolves
    /// the pending kills against it: every in-bounds anatomy cell is
    /// written in population and anatomy order (the last write wins), an
    /// organism with a non-armor cell next to a kill site of another
    /// organism is marked killed, and the pending lists are cleared.
    /// Out-of-bounds anatomy cells are skipped. Food is untouched.
    pub fn update(&mut self, organisms: &mut Vec<Organism>)
        requires
            old(self).wf(),
            forall|k: int|
                0 <= k < old(organisms)@.len() ==> (#[trigger] old(organisms)@[k]).wf(),
        ensures
            final(self).wf(),
            final(self).foods@ == old(self).foods@,
            final(self).rng == old(self).rng,
            final(self).pending_kill_coordinates@.len() == 0,
            final(self).pending_kill_killers@.len() == 0,
            final(organisms)@.len() == old(organisms)@.len(),
            forall|k: int|
                0 <= k < old(organisms)@.len() ==> same_but_killed(
                    #[trigger] final(organisms)@[k],
                    old(organisms)@[k],
                ),
            forall|k: int|
                0 <= k < old(organisms)@.len() ==> (#[trigger] final(organisms)@[k]).killed == (old(
                    organisms,
                )@[k].killed || org_kill_hit(
                    old(organisms)@[k],
                    old(self).pending_kill_coordinates@,
                    old(self).pending_kill_killers@,
                )),
            forall|x: int, y: int|
                in_bounds(x, y) ==> #[trigger] final(self).organ_at(x, y) == occ_at(
                    final(organisms)@,
                    x,
                    y,
                ),
    {
        let mut organs: Vec<Vec<Cell>> = Vec::new();
        let mut yy: usize = 0;
        while yy < HEIGHT
            invariant
                yy <= HEIGHT,
                organs@.len() == yy,
                forall|r: int| 0 <= r < yy ==> (#[trigger] organs@[r])@.len() == WIDTH,
                forall|r: int, c: int|
                    0 <= r < yy && 0 <= c < WIDTH ==> (#[trigger] organs@[r]@[c]) == Cell::Empty,
            decreases HEIGHT - yy,
        {
            let crow = filled_cells(WIDTH, Cell::Empty);
            organs.push(crow);
            yy = yy + 1;
        }
        self.organs = organs;
        let n = organisms.len();
        let ghost orig = old(organisms)@;
        let mut done: Vec<Organism> = Vec::new();
        let mut oi: usize = 0;
        while oi < n
            invariant
                old(self).wf(),
                self.wf(),
                self.foods@ == old(self).foods@,
                self.rng == old(self).rng,
                self.pending_kill_coordinates@ == old(self).pending_kill_coordinates@,
                self.pending_kill_killers@ == old(self).pending_kill_killers@,
                orig.len() == n,
                forall|k: int| 0 <= k < n ==> (#[trigger] orig[k]).wf(),
                organisms@ =~= orig.skip(oi as int),
                done@.len() == oi,
                oi <= n,
                forall|k: int|
                    0 <= k < oi ==> same_but_killed(#[trigger] done@[k], orig[k]),
                forall|k: int|
                    0 <= k < oi ==> (#[trigger] done@[k]).killed == (orig[k].killed
                        || org_kill_hit(
                        orig[k],
                        old(self).pending_kill_coordinates@,
                        old(self).pending_kill_killers@,
                    )),
                forall|x: int, y: int|
                    in_bounds(x, y) ==> #[trigger] self.organ_at(x, y) == occ_at(done@, x, y),
            decreases n - oi,
        {
            let mut o = organisms.remove(0);
            proof {
                assert(o == orig[oi as int]);
                assert(organisms@ =~= orig.skip(oi as int + 1));
            }
            let ghost obase = o;
            let mut killed_now = o.killed;
            let mut ci: usize = 0;
            while ci < o.cells.len()
                invariant
                    old(self).wf(),
                    self.wf(),
                    o == obase,
                    obase.wf(),
                    ci <= o.cells@.len(),
                    self.foods@ == old(self).foods@,
                    self.rng == old(self).rng,
                    self.pending_kill_coordinates@ == old(self).pending_kill_coordinates@,
                    self.pending_kill_killers@ == old(self).pending_kill_killers@,
                    killed_now == (obase.killed || kill_hit_prefix(
                        obase,
                        old(self).pending_kill_coordinates@,
                        old(self).pending_kill_killers@,
                        ci as int,
                    )),
                    forall|x: int, y: int|
                        in_bounds(x, y) ==> #[trigger] self.organ_at(x, y) == match covering_cell(
                            obase.cells@.take(ci as int),
                            obase.x as int,
                            obase.y as int,
                            x,
                            y,
                        ) {
                            Option::Some(c) => c,
                            Option::None => occ_at(done@, x, y),
                        },
                decreases o.cells@.len() - ci,
            {
                proof {
                    assert(obase.cells@.take(ci + 1).drop_last() =~= obase.cells@.take(ci as int));
                    assert(obase.cells@.take(ci + 1).last() == obase.cells@[ci as int]);
                }
                let (dx, dy, cell) = o.cells[ci];
                let wx = o.x as i64 + dx as i64;
                let wy = o.y as i64 + dy as i64;
                if wx >= 0 && wx < WIDTH as i64 && wy >= 0 && wy < HEIGHT as i64 {
                    if cell != Cell::Armor {
                        if kill_scan(
                            &self.pending_kill_coordinates,
                            &self.pending_kill_killers,
                            wx as usize,
                            wy as usize,
                            o.id,
                        ) {
                            killed_now = true;
                            proof {
                                let k = choose|k: int|
                                    0 <= k < old(self).pending_kill_coordinates@.len()
                                        && kill_adjacent(
                                        (#[trigger] old(self).pending_kill_coordinates@[k]).0
                                            as int,
                                        old(self).pending_kill_coordinates@[k].1 as int,
                                        wx as int,
                                        wy as int,
                                    ) && old(self).pending_kill_killers@[k] != o.id;
                                assert(0 <= ci < ci + 1 && 0 <= k < old(
                                    self,
                                ).pending_kill_coordinates@.len() && ((
                                #[trigger] obase.cells@[ci as int]).2 != Cell::Armor) && in_bounds(
                                    obase.x + obase.cells@[ci as int].0,
                                    obase.y + obase.cells@[ci as int].1,
                                ) && kill_adjacent(
                                    (#[trigger] old(self).pending_kill_coordinates@[k]).0 as int,
                                    old(self).pending_kill_coordinates@[k].1 as int,
                                    obase.x + obase.cells@[ci as int].0,
                                    obase.y + obase.cells@[ci as int].1,
                                ) && old(self).pending_kill_killers@[k] != obase.id);
                            }
                        }
                    }
                    self.set_organ(wx as usize, wy as usize, cell);
                }
                proof {
                    if killed_now && !(obase.killed || kill_hit_prefix(
                        obase,
                        old(self).pending_kill_coordinates@,
                        old(self).pending_kill_killers@,
                        ci + 1,
                    )) {
                        assert(false);
                    }
                    if !killed_now && kill_hit_prefix(
                        obase,
                        old(self).pending_kill_coordinates@,
                        old(self).pending_kill_killers@,
                        ci + 1,
                    ) {
                        let (i2, k2) = choose|i2: int, k2: int|
                            0 <= i2 < ci + 1 && i2 < obase.cells@.len() && 0 <= k2 < old(
                                self,
                            ).pending_kill_coordinates@.len() && ((#[trigger] obase.cells@[i2]).2
                                != Cell::Armor) && in_bounds(
                                obase.x + obase.cells@[i2].0,
                                obase.y + obase.cells@[i2].1,
                            ) && kill_adjacent(
                                (#[trigger] old(self).pending_kill_coordinates@[k2]).0 as int,
                                old(self).pending_kill_coordinates@[k2].1 as int,
                                obase.x + obase.cells@[i2].0,
                                obase.y + obase.cells@[i2].1,
                            ) && old(self).pending_kill_killers@[k2] != obase.id;
                        if i2 < ci {
                            assert(kill_hit_prefix(
                                obase,
                                old(self).pending_kill_coordinates@,
                                old(self).pending_kill_killers@,
                                ci as int,
                            ));
                        }
                        assert(false);
                    }
                }
                ci = ci + 1;
            }
            proof {
                assert(obase.cells@.take(obase.cells@.len() as int) =~= obase.cells@);
            }
            o.killed = killed_now;
            let ghost dpre = done@;
            done.push(o);
            proof {
                assert(done@.last() == o);
                assert(done@.drop_last() =~= dpre);
                assert forall|x: int, y: int| in_bounds(x, y) implies #[trigger] self.organ_at(
                    x,
                    y,
                ) == occ_at(done@, x, y) by {
                    assert(occ_at(done@, x, y) == match covering_cell(
                        o.cells@,
                        o.x as int,
                        o.y as int,
                        x,
                        y,
                    ) {
                        Option::Some(c) => c,
                        Option::None => occ_at(dpre, x, y),
                    });
                }
            }
            oi = oi + 1;
        }
        proof {
            assert(orig.skip(n as int) =~= Seq::<Organism>::empty());
        }
        let ghost dfin = done@;
        let ghost sloop = *self;
        let mut replaced = done;
        core::mem::swap(organisms, &mut replaced);
        self.pending_kill_coordinates.clear();
        self.pending_kill_killers.clear();
        proof {
            assert forall|x: int, y: int| in_bounds(x, y) implies #[trigger] self.organ_at(x, y)
                == occ_at(organisms@, x, y) by {
                assert(sloop.organ_at(x, y) == occ_at(dfin, x, y));
                assert(self.organs@ == sloop.organs@);
            }
        }
    }
}

/// The cell written at (x, y) by the latest-listed anatomy cell of one
/// organism anchored at (bx, by), if any covers that position.
pub open spec fn covering_cell(
    cells: Seq<crate::organism::AnatomyCell>,
    bx: int,
    by: int,
    x: int,
    y: int,
) -> Option<Cell>
    decreases cells.len(),
{
    if cells.len() == 0 {
        Option::None
    } else if bx + cells.last().0 == x && by + cells.last().1 == y {
        Option::Some(cells.last().2)
    } else {
        covering_cell(cells.drop_last(), bx, by, x, y)
    }
}

/// What a full occupancy rebuild writes at (x, y): organisms in
/// population order and each anatomy in cell order, the last write wins;
/// `Empty` where nothing covers the position.
pub open spec fn occ_at(orgs: Seq<Organism>, x: int, y: int) -> Cell
    decreases orgs.len(),
{
    if orgs.len() == 0 {
        Cell::Empty
    } else {
        match covering_cell(
            orgs.last().cells@,
            orgs.last().x as int,
            orgs.last().y as int,
            x,
            y,
        ) {
            Option::Some(c) => c,
            Option::None => occ_at(orgs.drop_last(), x, y),
        }
    }
}

/// The quirky adjacency between a kill site (kx, ky) and a victim cell at
/// (x, y): near the low boundary (either kill coordinate at most 1) only
/// the +x and +y neighbours count; elsewhere all four orthogonal
/// neighbours do.
pub open spec fn kill_adjacent(kx: int, ky: int, x: int, y: int) -> bool {
    if kx <= 1 || ky <= 1 {
        (x == kx + 1 && y == ky) || (x == kx && y == ky + 1)
    } else {
        (x == kx + 1 && y == ky) || (x == kx - 1 && y == ky) || (x == kx && y == ky + 1) || (x == kx
            && y == ky - 1)
    }
}

/// Whether one of the first `m` anatomy cells of `o` is a non-armor cell
/// standing on the grid next to a pending kill site of a different
/// organism.
pub open spec fn kill_hit_prefix(
    o: Organism,
    coords: Seq<(usize, usize)>,
    killers: Seq<usize>,
    m: int,
) -> bool {
    exists|i: int, k: int|
        0 <= i < m && i < o.cells@.len() && 0 <= k < coords.len() && ((#[trigger] o.cells@[i]).2
            != Cell::Armor) && in_bounds(o.x + o.cells@[i].0, o.y + o.cells@[i].1)
            && kill_adjacent(
            (#[trigger] coords[k]).0 as int,
            coords[k].1 as int,
            o.x + o.cells@[i].0,
            o.y + o.cells@[i].1,
        ) && killers[k] != o.id
}

/// Whether any anatomy cell of `o` takes a pending kill.
pub open spec fn org_kill_hit(o: Organism, coords: Seq<(usize, usize)>, killers: Seq<usize>) -> bool {
    kill_hit_prefix(o, coords, killers, o.cells@.len() as int)
}

/// Two organisms that agree on everything but the `killed` flag.
pub open spec fn same_but_killed(a: Organism, b: Organism) -> bool {
    a == (Organism { killed: a.killed, ..b })
}

/// Whether some pending kill site is adjacent (in the quirky sense) to
/// (x, y) and owned by an organism other than `id`.
fn kill_scan(
    coords: &Vec<(usize, usize)>,
    killers: &Vec<usize>,
    x: usize,
    y: usize,
    id: usize,
) -> (r: bool)
    requires
        coords@.len() == killers@.len(),
    ensures
        r == exists|k: int|
            0 <= k < coords@.len() && kill_adjacent(
                (#[trigger] coords@[k]).0 as int,
                coords@[k].1 as int,
                x as int,
                y as int,
            ) && killers@[k] != id,
{
    let mut k: usize = 0;
    while k < coords.len()
        invariant
            coords@.len() == killers@.len(),
            k <= coords@.len(),
            forall|t: int|
                0 <= t < k ==> !(kill_adjacent(
                    (#[trigger] coords@[t]).0 as int,
                    coords@[t].1 as int,
                    x as int,
                    y as int,
                ) && killers@[t] != id),
        decreases coords@.len() - k,
    {
        let (kx, ky) = coords[k];
        let hit = if kx <= 1 || ky <= 1 {
            (x >= 1 && x - 1 == kx && y == ky) || (x == kx && y >= 1 && y - 1 == ky)
        } else {
            (x >= 1 && x - 1 == kx && y == ky) || (x == kx - 1 && y == ky) || (x == kx && y >= 1
                && y - 1 == ky) || (x == kx && y == ky - 1)
        };
        if hit && killers[k] != id {
            return true;
        }
        k = k + 1;
    }
    false
}

/// Copies a row of occupancy cells.
fn copy_cells_row(v: &Vec<Cell>) -> (r: Vec<Cell>)
    ensures
        r@ == v@,
{
    let mut r: Vec<Cell> = Vec::new();
    let mut i: usize = 0;
    while i < v.len()
        invariant
            i <= v.len(),
            r@ == v@.take(i as int),
        decreases v.len() - i,
    {
        r.push(v[i]);
        i = i + 1;
    }
    proof {
        assert(r@ =~= v@);
    }
    r
}

} // verus!
