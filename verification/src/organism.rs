use vstd::prelude::*;
use vstd::seq_lib::*;
use vstd::set_lib::*;
use crate::arith::{abs_diff_i32, add_clipped, clip, in_counter_range, sub_clipped};
use crate::brain::Brain;
use crate::cell::Cell;
use crate::config::{BRAIN_OUTPUTS, EYE_FOOD, EYE_NOTHING, EYE_ORGANISM, FOOD_BENEFIT_MILLI, HEIGHT, HUNGER_RATE_MILLI, INITIAL_SATIETY_MILLI, LIFETIME_MULTIPLIER, MAX_CELLS, MUTATION_RATE_MILLI, REPRODUCTION_COST_CENTI, WIDTH};
use crate::grid::{filled_bools, Grid};
use crate::Direction;
use crate::rng::rng_below;

verus! {

/// One anatomy entry: an offset relative to the anchor, and a cell type.
pub type AnatomyCell = (i32, i32, Cell);

/// Two anatomy cells are adjacent when their offsets differ by at most
/// one in both axes; a cell is adjacent to itself and to a duplicate of
/// its offset.
pub open spec fn adjacent_cells(a: AnatomyCell, b: AnatomyCell) -> bool {
    &&& -1 <= a.0 as int - b.0 as int <= 1
    &&& -1 <= a.1 as int - b.1 as int <= 1
}

/// True when (nx, ny) is one of the four orthogonal neighbours of the
/// offset of `c`; the positions where a mutation may graft a new cell.
pub open spec fn orth_neighbor(c: AnatomyCell, nx: int, ny: int) -> bool {
    ||| (nx == c.0 + 1 && ny == c.1)
    ||| (nx == c.0 - 1 && ny == c.1)
    ||| (nx == c.0 && ny == c.1 + 1)
    ||| (nx == c.0 && ny == c.1 - 1)
}

/// A walk through the anatomy graph: starts at index 0, visits valid
/// indices, and only steps between adjacent cells.
pub open spec fn is_path(cells: Seq<AnatomyCell>, p: Seq<int>) -> bool {
    &&& p.len() >= 1
    &&& p[0] == 0
    &&& forall|k: int| 0 <= k < p.len() ==> 0 <= #[trigger] p[k] < cells.len()
    &&& forall|k: int| 1 <= k < p.len() ==> adjacent_cells(cells[p[k - 1]], cells[#[trigger] p[k]])
}

/// Index `i` can be reached from index 0 through the adjacency relation.
pub open spec fn reachable(cells: Seq<AnatomyCell>, i: int) -> bool {
    exists|p: Seq<int>| is_path(cells, p) && p.last() == i
}

/// The anatomy forms one non-empty connected component.
pub open spec fn connected(cells: Seq<AnatomyCell>) -> bool {
    cells.len() > 0 && forall|i: int| 0 <= i < cells.len() ==> reachable(cells, i)
}

/// Extends a witness path by one adjacent cell.
pub proof fn lemma_reachable_step(cells: Seq<AnatomyCell>, u: int, v: int)
    requires
        reachable(cells, u),
        0 <= v < cells.len(),
        adjacent_cells(cells[u], cells[v]),
    ensures
        reachable(cells, v),
{
    let p = choose|p: Seq<int>| is_path(cells, p) && p.last() == u;
    let q = p.push(v);
    assert(q.last() == v);
    assert(q[0] == p[0]);
    assert forall|k: int| 1 <= k < q.len() implies adjacent_cells(
        cells[q[k - 1]],
        cells[#[trigger] q[k]],
    ) by {
        if k < p.len() {
            assert(q[k - 1] == p[k - 1] && q[k] == p[k]);
        } else {
            assert(q[k - 1] == p.last() && q[k] == v);
        }
    }
    assert(is_path(cells, q));
}

/// Two anatomies with the same adjacency relation are connected alike.
pub proof fn lemma_connected_same_adjacency(c1: Seq<AnatomyCell>, c2: Seq<AnatomyCell>)
    requires
        c1.len() == c2.len(),
        forall|i: int, j: int|
            0 <= i < c1.len() && 0 <= j < c1.len() ==> #[trigger] adjacent_cells(c1[i], c1[j])
                == adjacent_cells(c2[i], c2[j]),
        connected(c1),
    ensures
        connected(c2),
{
    assert forall|i: int| 0 <= i < c2.len() implies reachable(c2, i) by {
        assert(reachable(c1, i));
        let p = choose|p: Seq<int>| is_path(c1, p) && p.last() == i;
        assert forall|k: int| 1 <= k < p.len() implies adjacent_cells(
            c2[p[k - 1]],
            c2[#[trigger] p[k]],
        ) by {
            assert(adjacent_cells(c1[p[k - 1]], c1[p[k]]));
        }
        assert(is_path(c2, p));
        assert(p.last() == i);
    }
}

/// Two anatomies with equal offsets everywhere are connected alike; the
/// cell types play no part in adjacency.
pub proof fn lemma_connected_same_offsets(c1: Seq<AnatomyCell>, c2: Seq<AnatomyCell>)
    requires
        c1.len() == c2.len(),
        forall|i: int|
            0 <= i < c1.len() ==> (#[trigger] c2[i]).0 == c1[i].0 && c2[i].1 == c1[i].1,
        connected(c1),
    ensures
        connected(c2),
{
    assert forall|i: int, j: int|
        0 <= i < c1.len() && 0 <= j < c1.len() implies #[trigger] adjacent_cells(c1[i], c1[j])
        == adjacent_cells(c2[i], c2[j]) by {
        assert(c2[i].0 == c1[i].0 && c2[i].1 == c1[i].1);
        assert(c2[j].0 == c1[j].0 && c2[j].1 == c1[j].1);
    }
    lemma_connected_same_adjacency(c1, c2);
}

/// Appending a cell adjacent to an existing one keeps the anatomy
/// connected.
pub proof fn lemma_connected_push(cells: Seq<AnatomyCell>, newc: AnatomyCell, k: int)
    requires
        connected(cells),
        0 <= k < cells.len(),
        adjacent_cells(newc, cells[k]),
    ensures
        connected(cells.push(newc)),
{
    let c2 = cells.push(newc);
    assert forall|i: int| 0 <= i < c2.len() implies reachable(c2, i) by {
        if i < cells.len() {
            assert(reachable(cells, i));
            let p = choose|p: Seq<int>| is_path(cells, p) && p.last() == i;
            assert forall|t: int| 1 <= t < p.len() implies adjacent_cells(
                c2[p[t - 1]],
                c2[#[trigger] p[t]],
            ) by {
                assert(adjacent_cells(cells[p[t - 1]], cells[p[t]]));
            }
            assert(is_path(c2, p));
        } else {
            assert(reachable(cells, k));
            let p = choose|p: Seq<int>| is_path(cells, p) && p.last() == k;
            assert forall|t: int| 1 <= t < p.len() implies adjacent_cells(
                c2[p[t - 1]],
                c2[#[trigger] p[t]],
            ) by {
                assert(adjacent_cells(cells[p[t - 1]], cells[p[t]]));
            }
            assert(is_path(c2, p));
            lemma_reachable_step(c2, k, cells.len() as int);
        }
    }
}

/// A distinct list of indices below `n` has at most `n` entries.
proof fn lemma_distinct_indices_bound(q: Seq<usize>, n: int)
    requires
        n >= 0,
        forall|a: int, b: int| 0 <= a < b < q.len() ==> q[a] != q[b],
        forall|t: int| 0 <= t < q.len() ==> (#[trigger] q[t]) < n,
    ensures
        q.len() <= n,
{
    let qi = q.map_values(|v: usize| v as int);
    assert(qi.no_duplicates());
    qi.unique_seq_to_set();
    assert(qi.to_set().subset_of(set_int_range(0, n))) by {
        assert forall|e: int| qi.to_set().contains(e) implies set_int_range(0, n).contains(e) by {
            let t = choose|t: int| 0 <= t < qi.len() && qi[t] == e;
            assert(q[t] < n);
        }
    }
    lemma_int_range(0, n);
    lemma_len_subset(qi.to_set(), set_int_range(0, n));
}

/// In a graph whose visited set contains index 0 and is closed under
/// adjacency, every walk stays inside the visited set.
proof fn lemma_closed_path(cells: Seq<AnatomyCell>, visited: Seq<bool>, p: Seq<int>)
    requires
        visited.len() == cells.len(),
        cells.len() > 0,
        visited[0],
        forall|i: int, j: int|
            0 <= i < cells.len() && 0 <= j < cells.len() && visited[i] && #[trigger] adjacent_cells(
                cells[i],
                cells[j],
            ) ==> visited[j],
        is_path(cells, p),
    ensures
        visited[p.last()],
    decreases p.len(),
{
    if p.len() == 1 {
        assert(p.last() == p[0]);
    } else {
        let q = p.drop_last();
        assert(is_path(cells, q));
        lemma_closed_path(cells, visited, q);
        assert(adjacent_cells(cells[p[p.len() - 2]], cells[p[p.len() - 1]]));
    }
}

/// An organism: an anchored anatomy, its counters, and an optional brain.
/// `energy` is the reproduction currency, `satiety` the starvation
/// currency in thousandths, `lifetime` the remaining tick budget. The
/// four extent fields cache the anatomy's bounding offsets as computed at
/// construction (`min_x`/`min_y` hold the magnitudes of the negative
/// extents).
pub struct Organism {
    pub x: usize,
    pub y: usize,
    pub cells: Vec<AnatomyCell>,
    pub brain: Option<Brain>,
    pub id: usize,
    pub energy: i64,
    pub lifetime: i64,
    pub satiety: i64,
    pub killed: bool,
    pub cells_len: usize,
    pub eye_data: Vec<i32>,
    pub min_x: usize,
    pub max_x: usize,
    pub min_y: usize,
    pub max_y: usize,
}

/// Number of eye cells in an anatomy.
pub open spec fn eye_count(cells: Seq<AnatomyCell>) -> int
    decreases cells.len(),
{
    if cells.len() == 0 {
        0
    } else {
        eye_count(cells.drop_last()) + if cells.last().2 is Eye {
            1int
        } else {
            0int
        }
    }
}

/// Number of brain cells in an anatomy.
pub open spec fn brain_cell_count(cells: Seq<AnatomyCell>) -> int
    decreases cells.len(),
{
    if cells.len() == 0 {
        0
    } else {
        brain_cell_count(cells.drop_last()) + if cells.last().2 == Cell::Brain {
            1int
        } else {
            0int
        }
    }
}

/// True when the anatomy holds at least one mover cell.
pub open spec fn has_mover(cells: Seq<AnatomyCell>) -> bool {
    exists|i: int| 0 <= i < cells.len() && (#[trigger] cells[i]).2 == Cell::Mover
}

/// An anatomy qualifies for a brain when it can both see and move.
pub open spec fn qualifies_for_brain(cells: Seq<AnatomyCell>) -> bool {
    eye_count(cells) > 0 && has_mover(cells)
}

/// The smallest x offset of an anatomy (at most 0, as at construction).
pub open spec fn ext_min_x(cells: Seq<AnatomyCell>) -> int
    decreases cells.len(),
{
    if cells.len() == 0 {
        0
    } else {
        let m = ext_min_x(cells.drop_last());
        if cells.last().0 < m {
            cells.last().0 as int
        } else {
            m
        }
    }
}

/// The largest x offset of an anatomy (at least 0, as at construction).
pub open spec fn ext_max_x(cells: Seq<AnatomyCell>) -> int
    decreases cells.len(),
{
    if cells.len() == 0 {
        0
    } else {
        let m = ext_max_x(cells.drop_last());
        if cells.last().0 > m {
            cells.last().0 as int
        } else {
            m
        }
    }
}

/// The smallest y offset of an anatomy (at most 0, as at construction).
pub open spec fn ext_min_y(cells: Seq<AnatomyCell>) -> int
    decreases cells.len(),
{
    if cells.len() == 0 {
        0
    } else {
        let m = ext_min_y(cells.drop_last());
        if cells.last().1 < m {
            cells.last().1 as int
        } else {
            m
        }
    }
}

/// The largest y offset of an anatomy (at least 0, as at construction).
pub open spec fn ext_max_y(cells: Seq<AnatomyCell>) -> int
    decreases cells.len(),
{
    if cells.len() == 0 {
        0
    } else {
        let m = ext_max_y(cells.drop_last());
        if cells.last().1 > m {
            cells.last().1 as int
        } else {
            m
        }
    }
}

/// Truncating integer division by a positive divisor, as machine signed
/// division rounds: towards zero.
pub open spec fn div_trunc(a: int, b: int) -> int {
    if a >= 0 {
        a / b
    } else {
        -((-a) / b)
    }
}

/// The sum of all x offsets of an anatomy.
pub open spec fn sum_dx(cells: Seq<AnatomyCell>) -> int
    decreases cells.len(),
{
    if cells.len() == 0 {
        0
    } else {
        sum_dx(cells.drop_last()) + cells.last().0
    }
}

/// The sum of all y offsets of an anatomy.
pub open spec fn sum_dy(cells: Seq<AnatomyCell>) -> int
    decreases cells.len(),
{
    if cells.len() == 0 {
        0
    } else {
        sum_dy(cells.drop_last()) + cells.last().1
    }
}

/// One cell's offsets reflected 90 degrees about the centroid (cx, cy):
/// clockwise maps (dx, dy) to (cx + (dy - cy), cy - (dx - cx)), and
/// counter-clockwise the inverse.
pub open spec fn rot_cell(c: AnatomyCell, cx: int, cy: int, cw: bool) -> AnatomyCell {
    if cw {
        ((cx + (c.1 - cy)) as i32, (cy - (c.0 - cx)) as i32, c.2)
    } else {
        ((cx - (c.1 - cy)) as i32, (cy + (c.0 - cx)) as i32, c.2)
    }
}

/// The whole anatomy rotated 90 degrees about its integer centroid.
pub open spec fn rotated_anatomy(cells: Seq<AnatomyCell>, cw: bool) -> Seq<AnatomyCell> {
    let cx = div_trunc(sum_dx(cells), cells.len() as int);
    let cy = div_trunc(sum_dy(cells), cells.len() as int);
    Seq::new(cells.len(), |i: int| rot_cell(cells[i], cx, cy, cw))
}

/// The exact (untruncated) x offset of cell `i` after rotation.
pub open spec fn rot_x_int(cells: Seq<AnatomyCell>, i: int, cw: bool) -> int {
    let cx = div_trunc(sum_dx(cells), cells.len() as int);
    let cy = div_trunc(sum_dy(cells), cells.len() as int);
    if cw {
        cx + (cells[i].1 - cy)
    } else {
        cx - (cells[i].1 - cy)
    }
}

/// The exact (untruncated) y offset of cell `i` after rotation.
pub open spec fn rot_y_int(cells: Seq<AnatomyCell>, i: int, cw: bool) -> int {
    let cx = div_trunc(sum_dx(cells), cells.len() as int);
    let cy = div_trunc(sum_dy(cells), cells.len() as int);
    if cw {
        cy - (cells[i].0 - cx)
    } else {
        cy + (cells[i].0 - cx)
    }
}

/// Every rotated offset stays representable in its type.
pub open spec fn rotation_fits(cells: Seq<AnatomyCell>, cw: bool) -> bool {
    forall|i: int|
        0 <= i < cells.len() ==> i32::MIN <= #[trigger] rot_x_int(cells, i, cw) <= i32::MAX
            && i32::MIN <= rot_y_int(cells, i, cw) <= i32::MAX
}

/// Copies an anatomy.
pub(crate) fn copy_cells(v: &Vec<AnatomyCell>) -> (r: Vec<AnatomyCell>)
    ensures
        r@ == v@,
{
    let mut r: Vec<AnatomyCell> = Vec::new();
    let mut i: usize = 0;
    while i < v.len()
        invariant
            i <= v.len(),
            r@ == v@.take(i as int),
        decreases v.len() - i,
    {
        r.push(v[i]);
        i = i + 1;
    }
    proof {
        assert(r@ =~= v@);
    }
    r
}

/// Whether some anatomy cell already sits at offset (x, y).
fn offset_present(cells: &Vec<AnatomyCell>, x: i32, y: i32) -> (r: bool)
    ensures
        r == exists|i: int|
            0 <= i < cells@.len() && (#[trigger] cells@[i]).0 == x && cells@[i].1 == y,
{
    let mut i: usize = 0;
    while i < cells.len()
        invariant
            i <= cells@.len(),
            forall|t: int| 0 <= t < i ==> !((#[trigger] cells@[t]).0 == x && cells@[t].1 == y),
        decreases cells.len() - i,
    {
        if cells[i].0 == x && cells[i].1 == y {
            return true;
        }
        i = i + 1;
    }
    false
}

/// The state one behaviour pass threads through the anatomy, cell by
/// cell: the world, the two meal-driven counters, and the sensor
/// readings gathered so far. A specification-level value only.
pub struct TickState {
    pub grid: Grid,
    pub energy: int,
    pub satiety: int,
    pub eyes: Seq<i32>,
}

/// Both states carry the same world, viewwise.
pub open spec fn grid_unchanged(g0: Grid, g1: Grid) -> bool {
    &&& g1.foods@ == g0.foods@
    &&& g1.organs@ == g0.organs@
    &&& g1.pending_kill_coordinates@ == g0.pending_kill_coordinates@
    &&& g1.pending_kill_killers@ == g0.pending_kill_killers@
}

/// A behaviour step that changes nothing.
pub open spec fn state_same(pre: TickState, post: TickState) -> bool {
    &&& grid_unchanged(pre.grid, post.grid)
    &&& post.energy == pre.energy
    &&& post.satiety == pre.satiety
    &&& post.eyes == pre.eyes
}

/// One mouth bite at world position (wx, wy): if any cell in the mouth's
/// priority order bears food, exactly that cell is cleared and both
/// counters gain; otherwise nothing changes.
pub open spec fn mouth_acts(pre: TickState, post: TickState, wx: int, wy: int) -> bool {
    match pre.grid.mouth_target(wx, wy) {
        Option::Some(t) => {
            &&& forall|p: int, q: int|
                crate::grid::in_bounds(p, q) ==> #[trigger] post.grid.food_at(p, q) == (if p == t.0
                    && q == t.1 {
                    false
                } else {
                    pre.grid.food_at(p, q)
                })
            &&& post.grid.organs@ == pre.grid.organs@
            &&& post.grid.pending_kill_coordinates@ == pre.grid.pending_kill_coordinates@
            &&& post.grid.pending_kill_killers@ == pre.grid.pending_kill_killers@
            &&& post.energy == clip(pre.energy + 1)
            &&& post.satiety == clip(pre.satiety + FOOD_BENEFIT_MILLI)
            &&& post.eyes == pre.eyes
        },
        Option::None => state_same(pre, post),
    }
}

/// One producer activation at (wx, wy): at most one clamped diagonal
/// cell gains food; everything else is untouched.
pub open spec fn producer_acts(pre: TickState, post: TickState, wx: int, wy: int) -> bool {
    &&& Grid::produce_outcome(pre.grid, post.grid, wx, wy)
    &&& post.grid.organs@ == pre.grid.organs@
    &&& post.grid.pending_kill_coordinates@ == pre.grid.pending_kill_coordinates@
    &&& post.grid.pending_kill_killers@ == pre.grid.pending_kill_killers@
    &&& post.energy == pre.energy
    &&& post.satiety == pre.satiety
    &&& post.eyes == pre.eyes
}

/// One killer activation: exactly its world position and owner are
/// appended to the pending-kill lists.
pub open spec fn killer_acts(pre: TickState, post: TickState, wx: int, wy: int, id: usize) -> bool {
    &&& post.grid.foods@ == pre.grid.foods@
    &&& post.grid.organs@ == pre.grid.organs@
    &&& post.grid.pending_kill_coordinates@ == pre.grid.pending_kill_coordinates@.push(
        (wx as usize, wy as usize),
    )
    &&& post.grid.pending_kill_killers@ == pre.grid.pending_kill_killers@.push(id)
    &&& post.energy == pre.energy
    &&& post.satiety == pre.satiety
    &&& post.eyes == pre.eyes
}

/// One eye reading: the ray's verdict on the current world is appended
/// to the sensor buffer (the nothing-seen sentinel off the grid).
pub open spec fn eye_acts(
    pre: TickState,
    post: TickState,
    wx: int,
    wy: int,
    d: Direction,
    inb: bool,
) -> bool {
    &&& grid_unchanged(pre.grid, post.grid)
    &&& post.energy == pre.energy
    &&& post.satiety == pre.satiety
    &&& post.eyes == pre.eyes.push(
        if inb {
            pre.grid.eye_scan(wx, wy, d, 0)
        } else {
            EYE_NOTHING
        },
    )
}

/// What one anatomy cell of an organism anchored at (ox, oy) does to the
/// tick state; cells whose world position is off the grid act on nothing
/// (a mover only raises the movement flag, armor and brain cells are
/// passive).
pub open spec fn cell_acts(
    c: AnatomyCell,
    ox: int,
    oy: int,
    id: usize,
    pre: TickState,
    post: TickState,
) -> bool {
    let wx = ox + c.0;
    let wy = oy + c.1;
    let inb = crate::grid::in_bounds(wx, wy);
    match c.2 {
        Cell::Mouth => if inb {
            mouth_acts(pre, post, wx, wy)
        } else {
            state_same(pre, post)
        },
        Cell::Producer => if inb {
            producer_acts(pre, post, wx, wy)
        } else {
            state_same(pre, post)
        },
        Cell::Killer => if inb {
            killer_acts(pre, post, wx, wy, id)
        } else {
            state_same(pre, post)
        },
        Cell::Eye(e) => eye_acts(pre, post, wx, wy, e.dir_spec(), inb),
        _ => state_same(pre, post),
    }
}

/// The composed effect of an anatomy's cells, in anatomy order: each
/// cell acts on the state the cells before it left behind.
pub open spec fn cells_act(
    cells: Seq<AnatomyCell>,
    ox: int,
    oy: int,
    id: usize,
    pre: TickState,
    post: TickState,
) -> bool
    decreases cells.len(),
{
    if cells.len() == 0 {
        state_same(pre, post)
    } else {
        exists|mid: TickState|
            cells_act(cells.drop_last(), ox, oy, id, pre, mid) && #[trigger] cell_acts(
                cells.last(),
                ox,
                oy,
                id,
                mid,
                post,
            )
    }
}

/// Extends a cell-by-cell behaviour chain by one more cell.
proof fn lemma_cells_act_snoc(
    cells: Seq<AnatomyCell>,
    ox: int,
    oy: int,
    id: usize,
    pre: TickState,
    mid: TickState,
    post: TickState,
)
    requires
        cells.len() > 0,
        cells_act(cells.drop_last(), ox, oy, id, pre, mid),
        cell_acts(cells.last(), ox, oy, id, mid, post),
    ensures
        cells_act(cells, ox, oy, id, pre, post),
{
    assert(cells_act(cells.drop_last(), ox, oy, id, pre, mid) && cell_acts(
        cells.last(),
        ox,
        oy,
        id,
        mid,
        post,
    ));
}

impl Organism {
    /// Counters in range, the cached length honest, the anatomy non-empty
    /// and capped, and any brain well-formed.
    pub open spec fn wf(self) -> bool {
        &&& self.x < WIDTH
        &&& self.y < HEIGHT
        &&& 1 <= self.cells@.len() <= MAX_CELLS
        &&& self.cells_len == self.cells@.len()
        &&& in_counter_range(self.energy as int)
        &&& in_counter_range(self.lifetime as int)
        &&& in_counter_range(self.satiety as int)
        &&& self.min_x <= 0x80000000
        &&& self.max_x <= 0x7fffffff
        &&& self.min_y <= 0x80000000
        &&& self.max_y <= 0x7fffffff
        &&& match self.brain {
            Option::Some(b) => b.wf(),
            Option::None => true,
        }
    }

    /// The cached bounding extents, as width and height of the anatomy's
    /// bounding box.
    pub fn body_range(&self) -> (r: (usize, usize))
        requires
            self.max_x + self.min_x + 1 <= usize::MAX,
            self.max_y + self.min_y + 1 <= usize::MAX,
        ensures
            r.0 == self.max_x + self.min_x + 1,
            r.1 == self.max_y + self.min_y + 1,
    {
        (self.max_x + self.min_x + 1, self.max_y + self.min_y + 1)
    }

    /// Counts eyes and brain cells, and reports them only when the
    /// anatomy qualifies for a brain (at least one eye and one mover).
    pub fn brain_quality(cells: &Vec<AnatomyCell>) -> (r: Option<(usize, usize)>)
        ensures
            r.is_some() == qualifies_for_brain(cells@),
            match r {
                Option::Some(p) => p.0 == eye_count(cells@) && p.1 == brain_cell_count(cells@),
                Option::None => true,
            },
    {
        let mut has_mover_flag = false;
        let mut eye_num: usize = 0;
        let mut brain_num: usize = 0;
        let mut i: usize = 0;
        while i < cells.len()
            invariant
                i <= cells@.len(),
                eye_num == eye_count(cells@.take(i as int)),
                brain_num == brain_cell_count(cells@.take(i as int)),
                has_mover_flag == has_mover(cells@.take(i as int)),
                eye_num <= i,
                brain_num <= i,
            decreases cells@.len() - i,
        {
            proof {
                assert(cells@.take(i + 1).drop_last() =~= cells@.take(i as int));
                assert(cells@.take(i + 1).last() == cells@[i as int]);
            }
            let c = cells[i].2;
            match c {
                Cell::Eye(_) => {
                    eye_num = eye_num + 1;
                },
                Cell::Mover => {
                    has_mover_flag = true;
                },
                Cell::Brain => {
                    brain_num = brain_num + 1;
                },
                _ => {},
            }
            proof {
                if has_mover(cells@.take(i as int)) {
                    let w = choose|t: int|
                        0 <= t < i && (#[trigger] cells@.take(i as int)[t]).2 == Cell::Mover;
                    assert(cells@.take(i + 1)[w].2 == Cell::Mover);
                }
                if cells@[i as int].2 == Cell::Mover {
                    assert(cells@.take(i + 1)[i as int].2 == Cell::Mover);
                }
            }
            i = i + 1;
        }
        proof {
            assert(cells@.take(cells@.len() as int) =~= cells@);
        }
        if eye_num > 0 && has_mover_flag {
            Some((eye_num, brain_num))
        } else {
            None
        }
    }

    /// Breadth-first search over the adjacency relation, starting at cell
    /// 0; true exactly when the anatomy is one connected component.
    pub fn is_connected(&self) -> (r: bool)
        ensures
            r == connected(self.cells@),
    {
        let n = self.cells.len();
        if n == 0 {
            return false;
        }
        let mut visited = filled_bools(n, false);
        let mut queue: Vec<usize> = Vec::new();
        queue.push(0);
        visited.set(0, true);
        proof {
            assert(queue@[0] == 0usize);
            let p0 = seq![0int];
            assert(p0.last() == 0);
            assert(is_path(self.cells@, p0));
            assert(reachable(self.cells@, 0));
        }
        let mut head: usize = 0;
        while head < queue.len()
            invariant
                n == self.cells@.len(),
                1 <= n,
                visited@.len() == n,
                head <= queue@.len(),
                forall|t: int| 0 <= t < queue@.len() ==> (#[trigger] queue@[t]) < n,
                forall|t: int| 0 <= t < queue@.len() ==> visited@[queue@[t] as int],
                visited@[0],
                forall|a: int, b: int| 0 <= a < b < queue@.len() ==> queue@[a] != queue@[b],
                forall|i: int|
                    0 <= i < n && visited@[i] ==> exists|t: int|
                        0 <= t < queue@.len() && #[trigger] queue@[t] == i,
                forall|i: int| 0 <= i < n && visited@[i] ==> reachable(self.cells@, i),
                forall|t: int, j: int|
                    0 <= t < head && 0 <= j < n && #[trigger] adjacent_cells(
                        self.cells@[queue@[t] as int],
                        self.cells@[j],
                    ) ==> visited@[j],
            decreases n - head,
        {
            proof {
                lemma_distinct_indices_bound(queue@, n as int);
            }
            let u = queue[head];
            let mut j: usize = 0;
            while j < n
                invariant
                    n == self.cells@.len(),
                    1 <= n,
                    visited@.len() == n,
                    head < queue@.len(),
                    u == queue@[head as int],
                    u < n,
                    j <= n,
                    forall|t: int| 0 <= t < queue@.len() ==> (#[trigger] queue@[t]) < n,
                    forall|t: int| 0 <= t < queue@.len() ==> visited@[queue@[t] as int],
                    visited@[0],
                    forall|a: int, b: int| 0 <= a < b < queue@.len() ==> queue@[a] != queue@[b],
                    forall|i: int|
                        0 <= i < n && visited@[i] ==> exists|t: int|
                            0 <= t < queue@.len() && #[trigger] queue@[t] == i,
                    forall|i: int| 0 <= i < n && visited@[i] ==> reachable(self.cells@, i),
                    forall|t: int, jj: int|
                        0 <= t < head && 0 <= jj < n && #[trigger] adjacent_cells(
                            self.cells@[queue@[t] as int],
                            self.cells@[jj],
                        ) ==> visited@[jj],
                    forall|jj: int|
                        0 <= jj < j && adjacent_cells(
                            self.cells@[u as int],
                            #[trigger] self.cells@[jj],
                        ) ==> visited@[jj],
                decreases n - j,
            {
                if !visited[j] {
                    let adx = abs_diff_i32(self.cells[u].0, self.cells[j].0);
                    let ady = abs_diff_i32(self.cells[u].1, self.cells[j].1);
                    if adx <= 1 && ady <= 1 {
                        let ghost qpre = queue@;
                        let ghost vpre = visited@;
                        visited.set(j, true);
                        queue.push(j);
                        proof {
                            lemma_reachable_step(self.cells@, u as int, j as int);
                            assert(queue@ == qpre.push(j));
                            assert(queue@[queue@.len() - 1] == j);
                            assert forall|i2: int| 0 <= i2 < n && visited@[i2] implies exists|
                                t: int,
                            |
                                0 <= t < queue@.len() && #[trigger] queue@[t] == i2 by {
                                if i2 == j as int {
                                    assert(queue@[queue@.len() - 1] == j);
                                } else {
                                    assert(vpre[i2]);
                                    let t = choose|t: int|
                                        0 <= t < qpre.len() && #[trigger] qpre[t] == i2;
                                    assert(queue@[t] == i2);
                                }
                            }
                            assert forall|a: int, b: int|
                                0 <= a < b < queue@.len() implies queue@[a] != queue@[b] by {
                                if b == queue@.len() - 1 {
                                    assert(vpre[qpre[a] as int]);
                                    assert(!vpre[j as int]);
                                }
                            }
                        }
                    }
                }
                j = j + 1;
            }
            head = head + 1;
        }
        let mut all = true;
        let mut i: usize = 0;
        while i < n
            invariant
                n == self.cells@.len(),
                visited@.len() == n,
                i <= n,
                all == (forall|t: int| 0 <= t < i ==> visited@[t]),
            decreases n - i,
        {
            if !visited[i] {
                all = false;
            }
            i = i + 1;
        }
        proof {
            if all {
                assert forall|t: int| 0 <= t < n implies reachable(self.cells@, t) by {
                    assert(visited@[t]);
                }
            } else {
                let missing = choose|t: int| 0 <= t < n && !visited@[t];
                if connected(self.cells@) {
                    assert(reachable(self.cells@, missing));
                    let p = choose|p: Seq<int>|
                        is_path(self.cells@, p) && p.last() == missing;
                    assert forall|a: int, b: int|
                        0 <= a < self.cells@.len() && 0 <= b < self.cells@.len() && visited@[a]
                            && #[trigger] adjacent_cells(
                            self.cells@[a],
                            self.cells@[b],
                        ) implies visited@[b] by {
                        let t = choose|t: int| 0 <= t < queue@.len() && #[trigger] queue@[t] == a;
                    }
                    lemma_closed_path(self.cells@, visited@, p);
                }
            }
        }
        all
    }

    /// Whether stored energy suffices to reproduce: at least
    /// `REPRODUCTION_COST_CENTI` hundredths per anatomy cell.
    pub fn can_reproduce(&self) -> (r: bool)
        requires
            self.wf(),
        ensures
            r == (self.energy * 100 >= self.cells@.len() * REPRODUCTION_COST_CENTI),
    {
        self.energy * 100 >= (self.cells_len as i64) * REPRODUCTION_COST_CENTI
    }

    /// Charges the reproduction attempt: one whole energy unit per cell.
    pub fn consume_reproduction_energy(&mut self)
        requires
            old(self).wf(),
        ensures
            *final(self) == (Organism {
                energy: final(self).energy,
                ..*old(self)
            }),
            final(self).energy == crate::arith::clip(
                old(self).energy - old(self).cells@.len(),
            ),
            final(self).wf(),
    {
        let e = crate::arith::sub_clipped(self.energy, self.cells_len as i64);
        self.energy = e;
    }

    /// Lifetime budget of a fresh organism: a fixed share per cell.
    fn lifetime_len(cells: &Vec<AnatomyCell>) -> (r: i64)
        requires
            cells@.len() <= MAX_CELLS,
        ensures
            r == cells@.len() * LIFETIME_MULTIPLIER,
            in_counter_range(r as int),
    {
        (cells.len() as i64) * LIFETIME_MULTIPLIER
    }

    /// Builds an organism anchored at (x, y) with the given anatomy and
    /// identity: full satiety, no energy, a lifetime budget proportional
    /// to the cell count, cached bounding extents, and a fresh random
    /// brain exactly when the anatomy has at least one eye and one mover.
    pub fn new(
        x: usize,
        y: usize,
        cells: Vec<AnatomyCell>,
        id: usize,
        rng: &mut rand::rngs::StdRng,
    ) -> (o: Organism)
        requires
            x < WIDTH,
            y < HEIGHT,
            1 <= cells@.len() <= MAX_CELLS,
        ensures
            o.wf(),
            o.x == x,
            o.y == y,
            o.id == id,
            o.cells@ == cells@,
            o.cells_len == cells@.len(),
            o.energy == 0,
            o.satiety == INITIAL_SATIETY_MILLI,
            o.lifetime == cells@.len() * LIFETIME_MULTIPLIER,
            !o.killed,
            o.brain.is_some() == qualifies_for_brain(cells@),
            o.min_x == -ext_min_x(cells@),
            o.max_x == ext_max_x(cells@),
            o.min_y == -ext_min_y(cells@),
            o.max_y == ext_max_y(cells@),
    {
        let mut mn_x: i64 = 0;
        let mut mx_x: i64 = 0;
        let mut mn_y: i64 = 0;
        let mut mx_y: i64 = 0;
        let mut i: usize = 0;
        while i < cells.len()
            invariant
                i <= cells@.len(),
                mn_x == ext_min_x(cells@.take(i as int)),
                mx_x == ext_max_x(cells@.take(i as int)),
                mn_y == ext_min_y(cells@.take(i as int)),
                mx_y == ext_max_y(cells@.take(i as int)),
                i32::MIN <= mn_x <= 0,
                0 <= mx_x <= i32::MAX,
                i32::MIN <= mn_y <= 0,
                0 <= mx_y <= i32::MAX,
            decreases cells@.len() - i,
        {
            proof {
                assert(cells@.take(i + 1).drop_last() =~= cells@.take(i as int));
                assert(cells@.take(i + 1).last() == cells@[i as int]);
            }
            let (dx, dy, _) = cells[i];
            if (dx as i64) < mn_x {
                mn_x = dx as i64;
            }
            if (dx as i64) > mx_x {
                mx_x = dx as i64;
            }
            if (dy as i64) < mn_y {
                mn_y = dy as i64;
            }
            if (dy as i64) > mx_y {
                mx_y = dy as i64;
            }
            i = i + 1;
        }
        proof {
            assert(cells@.take(cells@.len() as int) =~= cells@);
        }
        let brain: Option<Brain> = match Self::brain_quality(&cells) {
            Option::Some((eye_num, brain_num)) => Some(Brain::new(eye_num, brain_num, rng)),
            Option::None => None,
        };
        let lifetime = Self::lifetime_len(&cells);
        let cells_len = cells.len();
        Organism {
            x,
            y,
            cells,
            brain,
            id,
            energy: 0,
            lifetime,
            satiety: INITIAL_SATIETY_MILLI,
            killed: false,
            cells_len,
            eye_data: Vec::new(),
            min_x: (-mn_x) as usize,
            max_x: mx_x as usize,
            min_y: (-mn_y) as usize,
            max_y: mx_y as usize,
        }
    }

    /// Replaces the type of one uniformly chosen cell with a fresh random
    /// type; the offsets, and so the anatomy graph, never change.
    pub fn change_cell(&mut self, rng: &mut rand::rngs::StdRng)
        requires
            old(self).wf(),
        ensures
            final(self).wf(),
            *final(self) == (Organism { cells: final(self).cells, ..*old(self) }),
            final(self).cells@.len() == old(self).cells@.len(),
exists|i: int, c: Cell|
                0 <= i < old(self).cells@.len() && crate::cell::recognized(c)
                    && #[trigger] final(self).cells@ == old(self).cells@.update(
                    i,
                    (old(self).cells@[i].0, old(self).cells@[i].1, c),
                ),
            connected(old(self).cells@) ==> connected(final(self).cells@),
    {
        let index = rng_below(rng, self.cells_len as u32) as usize;
        let c = Cell::random_cell(rng);
        let (dx, dy, _) = self.cells[index];
        self.cells.set(index, (dx, dy, c));
        proof {
            assert(final(self).cells@ == old(self).cells@.update(
                index as int,
                (old(self).cells@[index as int].0, old(self).cells@[index as int].1, c),
            ));
            if connected(old(self).cells@) {
                lemma_connected_same_offsets(old(self).cells@, self.cells@);
            }
        }
    }

    /// Tries to remove one uniformly chosen cell; the removal is reverted
    /// when it would break the anatomy into pieces, and skipped when only
    /// one cell is left. The cached length is the caller's to maintain.
    pub fn remove_cell(&mut self, rng: &mut rand::rngs::StdRng)
        requires
            old(self).wf(),
        ensures
            *final(self) == (Organism { cells: final(self).cells, ..*old(self) }),
            final(self).cells@ == old(self).cells@ || (exists|i: int|
                0 <= i < old(self).cells@.len() && #[trigger] final(self).cells@ == old(self).cells@.remove(i) && connected(final(self).cells@)),
            old(self).cells@.len() <= 1 ==> final(self).cells@ == old(self).cells@,
            connected(old(self).cells@) ==> connected(final(self).cells@),
    {
        if self.cells_len <= 1 {
            return ;
        }
        let remove_index = rng_below(rng, self.cells_len as u32) as usize;
        let original_cells = copy_cells(&self.cells);
        self.cells.remove(remove_index);
        if !self.is_connected() {
            self.cells = original_cells;
        }
    }

    /// Tries to grow the anatomy by one cell of the given type at a free
    /// position orthogonally adjacent to a uniformly chosen existing
    /// cell; silently does nothing when no such position exists (or the
    /// anatomy already sits at its size cap). The cached length is the
    /// caller's to maintain.
    pub fn add_cell(&mut self, new_cell: Cell, rng: &mut rand::rngs::StdRng)
        requires
            old(self).wf(),
        ensures
            *final(self) == (Organism { cells: final(self).cells, ..*old(self) }),
final(self).cells@ == old(self).cells@ || (final(self).cells@.len() == old(self).cells@.len()
                + 1 && final(self).cells@.len() <= MAX_CELLS && final(self).cells@.take(
                old(self).cells@.len() as int,
            ) == old(self).cells@ && final(self).cells@.last().2 == new_cell && (exists|k: int|
                0 <= k < old(self).cells@.len() && orth_neighbor(
                    #[trigger] old(self).cells@[k],
                    final(self).cells@.last().0 as int,
                    final(self).cells@.last().1 as int,
                )) && (forall|t: int|
                0 <= t < old(self).cells@.len() ==> !((#[trigger] old(self).cells@[t]).0 == final(self).cells@.last().0 && old(self).cells@[t].1 == final(self).cells@.last().1))),
            connected(old(self).cells@) ==> connected(final(self).cells@),
    {
        if self.cells.len() >= MAX_CELLS {
            return ;
        }
        let base_idx = rng_below(rng, self.cells_len as u32) as usize;
        let (base_x, base_y, _) = self.cells[base_idx];
        let mut valid: Vec<(i32, i32)> = Vec::new();
        let cand_x: [i64; 4] = [base_x as i64 + 1, base_x as i64 - 1, base_x as i64, base_x as i64];
        let cand_y: [i64; 4] = [base_y as i64, base_y as i64, base_y as i64 + 1, base_y as i64 - 1];
        let mut c: usize = 0;
        while c < 4
            invariant
                c <= 4,
                valid@.len() <= c,
                self.cells@.len() >= 1,
                base_idx < self.cells@.len(),
                base_x == self.cells@[base_idx as int].0,
                base_y == self.cells@[base_idx as int].1,
                forall|t: int|
                    0 <= t < valid@.len() ==> adjacent_cells(
                        ((#[trigger] valid@[t]).0, valid@[t].1, new_cell),
                        self.cells@[base_idx as int],
                    ),
                forall|t: int|
                    0 <= t < valid@.len() ==> orth_neighbor(
                        self.cells@[base_idx as int],
                        (#[trigger] valid@[t]).0 as int,
                        valid@[t].1 as int,
                    ),
                forall|t: int|
                    0 <= t < valid@.len() ==> !exists|i: int|
                        0 <= i < self.cells@.len() && (#[trigger] self.cells@[i]).0 == (
                        #[trigger] valid@[t]).0 && self.cells@[i].1 == valid@[t].1,
                cand_x@.len() == 4,
                cand_y@.len() == 4,
                cand_x@[0] == base_x + 1 && cand_y@[0] == base_y,
                cand_x@[1] == base_x - 1 && cand_y@[1] == base_y,
                cand_x@[2] == base_x && cand_y@[2] == base_y + 1,
                cand_x@[3] == base_x && cand_y@[3] == base_y - 1,
            decreases 4 - c,
        {
            let cx = cand_x[c];
            let cy = cand_y[c];
            if cx >= i32::MIN as i64 && cx <= i32::MAX as i64 && cy >= i32::MIN as i64 && cy
                <= i32::MAX as i64 {
                let cxi = cx as i32;
                let cyi = cy as i32;
                if !offset_present(&self.cells, cxi, cyi) {
                    valid.push((cxi, cyi));
                }
            }
            c = c + 1;
        }
        if valid.len() > 0 {
            let pick = rng_below(rng, valid.len() as u32) as usize;
            let (nx, ny) = valid[pick];
            let ghost pre = self.cells@;
            self.cells.push((nx, ny, new_cell));
            proof {
                if connected(pre) {
                    lemma_connected_push(pre, (nx, ny, new_cell), base_idx as int);
                }
                assert(final(self).cells@.take(pre.len() as int) =~= pre);
            }
        }
    }

    /// With a fixed probability applies one of three equally likely
    /// anatomical mutations — change a cell's type, remove a cell
    /// (reverted if it would disconnect the anatomy), or add a cell at a
    /// free orthogonal neighbour — adjusting the lifetime budget and the
    /// cached length on structural success. A connected anatomy always
    /// stays connected.
    pub fn mutate(&mut self, rng: &mut rand::rngs::StdRng)
        requires
            old(self).wf(),
        ensures
            final(self).wf(),
            final(self).x == old(self).x,
            final(self).y == old(self).y,
            final(self).id == old(self).id,
            final(self).energy == old(self).energy,
            final(self).satiety == old(self).satiety,
            final(self).killed == old(self).killed,
            final(self).brain == old(self).brain,
            final(self).min_x == old(self).min_x,
            final(self).max_x == old(self).max_x,
            final(self).min_y == old(self).min_y,
            final(self).max_y == old(self).max_y,
            connected(old(self).cells@) ==> connected(final(self).cells@),
            (final(self).cells@.len() == old(self).cells@.len() && final(self).lifetime == old(self).lifetime) || (final(self).cells@.len() == old(self).cells@.len() + 1 && final(self).lifetime == clip(old(self).lifetime + LIFETIME_MULTIPLIER)) || (final(self).cells@.len() == old(self).cells@.len() - 1 && final(self).lifetime == clip(
                old(self).lifetime - LIFETIME_MULTIPLIER,
            )),
    {
        if rng_below(rng, 1000) < MUTATION_RATE_MILLI {
            let val = rng_below(rng, 1000);
            if val < 330 {
                self.change_cell(rng);
            } else if val < 660 && self.cells_len > 1 {
                let before = self.cells.len();
                self.remove_cell(rng);
                if self.cells.len() < before {
                    self.lifetime = sub_clipped(self.lifetime, LIFETIME_MULTIPLIER);
                    self.cells_len = self.cells_len - 1;
                }
            } else {
                let c = Cell::random_cell(rng);
                let before = self.cells.len();
                self.add_cell(c, rng);
                if self.cells.len() > before {
                    self.lifetime = add_clipped(self.lifetime, LIFETIME_MULTIPLIER);
                    self.cells_len = self.cells_len + 1;
                }
            }
        }
    }

    /// A mutated copy of this organism under a new identity: fresh
    /// counters, the parent's anchor and cached extents, and a brain
    /// derived from the parent's (or fresh) exactly when the mutated
    /// anatomy still qualifies.
    pub fn child(&self, id: usize, rng: &mut rand::rngs::StdRng) -> (c: Organism)
        requires
            self.wf(),
        ensures
            c.wf(),
            c.x == self.x,
            c.y == self.y,
            c.id == id,
            c.energy == 0,
            c.satiety == INITIAL_SATIETY_MILLI,
            !c.killed,
            c.min_x == self.min_x,
            c.max_x == self.max_x,
            c.min_y == self.min_y,
            c.max_y == self.max_y,
            connected(self.cells@) ==> connected(c.cells@),
            c.brain.is_some() == qualifies_for_brain(c.cells@),
            c.lifetime == c.cells@.len() * LIFETIME_MULTIPLIER,
            self.cells@.len() - 1 <= c.cells@.len() <= self.cells@.len() + 1,
    {
        let cells = copy_cells(&self.cells);
        let lifetime = Self::lifetime_len(&self.cells);
        let mut child = Organism {
            x: self.x,
            y: self.y,
            id,
            cells,
            brain: None,
            energy: 0,
            lifetime,
            satiety: INITIAL_SATIETY_MILLI,
            killed: false,
            cells_len: self.cells_len,
            eye_data: Vec::new(),
            min_x: self.min_x,
            max_x: self.max_x,
            min_y: self.min_y,
            max_y: self.max_y,
        };
        child.mutate(rng);
        let child_brain: Option<Brain> = match Self::brain_quality(&child.cells) {
            Option::Some((eye_num, brain_num)) => {
                match &self.brain {
                    Option::Some(b) => Some(b.child_brain(brain_num, rng)),
                    Option::None => Some(Brain::new(eye_num, brain_num, rng)),
                }
            },
            Option::None => None,
        };
        child.brain = child_brain;
        child
    }

    /// Whether a move of the anchor by (dx, dy) passes every check: the
    /// move is not null, the cached extents stay inside the world, and
    /// every anatomy cell's destination is empty.
    pub open spec fn move_allowed(self, dx: int, dy: int, grid: Grid) -> bool {
        &&& !(dx == 0 && dy == 0)
        &&& self.x + dx < WIDTH - self.max_x
        &&& self.y + dy < HEIGHT - self.max_y
        &&& self.x + dx > self.min_x
        &&& self.y + dy > self.min_y
        &&& forall|i: int|
            0 <= i < self.cells@.len() ==> grid.empty_at(
                self.x + dx + (#[trigger] self.cells@[i]).0,
                self.y + dy + self.cells@[i].1,
            )
    }

    /// Moves the anchor by (dx, dy) when every check passes; otherwise
    /// leaves the organism exactly as it was.
    pub fn move_org(&mut self, dx: i32, dy: i32, grid: &Grid)
        requires
            old(self).wf(),
            grid.wf(),
        ensures
            final(self).wf(),
            *final(self) == (Organism { x: final(self).x, y: final(self).y, ..*old(self) }),
            if old(self).move_allowed(dx as int, dy as int, *grid) {
                final(self).x == old(self).x + dx && final(self).y == old(self).y + dy
            } else {
                final(self).x == old(self).x && final(self).y == old(self).y
            },
    {
        if dx == 0 && dy == 0 {
            return ;
        }
        let nx = self.x as i64 + dx as i64;
        let ny = self.y as i64 + dy as i64;
        if nx >= WIDTH as i64 - self.max_x as i64 || ny >= HEIGHT as i64 - self.max_y as i64 {
            return ;
        }
        if nx <= self.min_x as i64 || ny <= self.min_y as i64 {
            return ;
        }
        let mut i: usize = 0;
        while i < self.cells.len()
            invariant
                old(self).wf(),
                *self == *old(self),
                nx == old(self).x + dx,
                ny == old(self).y + dy,
                0 <= nx < WIDTH,
                0 <= ny < HEIGHT,
                grid.wf(),
                i <= self.cells@.len(),
                forall|t: int|
                    0 <= t < i ==> grid.empty_at(
                        nx + (#[trigger] self.cells@[t]).0,
                        ny + self.cells@[t].1,
                    ),
            decreases self.cells@.len() - i,
        {
            let (cdx, cdy, _) = self.cells[i];
            let wx = nx + cdx as i64;
            let wy = ny + cdy as i64;
            if wx < 0 || wx >= WIDTH as i64 || wy < 0 || wy >= HEIGHT as i64 {
                return ;
            }
            if !grid.is_cell_empty(wx as usize, wy as usize) {
                return ;
            }
            i = i + 1;
        }
        self.x = nx as usize;
        self.y = ny as usize;
    }

    /// The anchor displacement a direction stands for.
    pub open spec fn dir_offset(dir: Direction) -> (int, int) {
        match dir {
            Direction::Up => (0int, -1int),
            Direction::Down => (0int, 1int),
            Direction::Left => (-1int, 0int),
            Direction::Right => (1int, 0int),
            Direction::Still => (0int, 0int),
        }
    }

    /// Attempts a single-cell move along `dir`; `Still` does nothing.
    pub fn move_dir(&mut self, dir: Direction, grid: &Grid)
        requires
            old(self).wf(),
            grid.wf(),
        ensures
            final(self).wf(),
            *final(self) == (Organism { x: final(self).x, y: final(self).y, ..*old(self) }),
            ({
                let off = Self::dir_offset(dir);
                if dir != Direction::Still && old(self).move_allowed(off.0, off.1, *grid) {
                    final(self).x == old(self).x + off.0 && final(self).y == old(self).y + off.1
                } else {
                    final(self).x == old(self).x && final(self).y == old(self).y
                }
            }),
    {
        match dir {
            Direction::Up => self.move_org(0, -1, grid),
            Direction::Down => self.move_org(0, 1, grid),
            Direction::Left => self.move_org(-1, 0, grid),
            Direction::Right => self.move_org(1, 0, grid),
            Direction::Still => {},
        }
    }

    /// Rotates the whole anatomy 90 degrees about its integer centroid,
    /// but only when every rotated offset fits its type and every rotated
    /// cell's world position is empty; otherwise the anatomy is left
    /// untouched (no partial rotation). Rotation preserves the adjacency
    /// graph, so a connected anatomy stays connected.
    /// Whether a rotation commits: every rotated offset is representable
    /// and every rotated cell's world position is empty.
    pub open spec fn rotation_allowed(self, cw: bool, grid: Grid) -> bool {
        &&& rotation_fits(self.cells@, cw)
        &&& forall|i: int|
            0 <= i < self.cells@.len() ==> grid.empty_at(
                self.x + #[trigger] rot_x_int(self.cells@, i, cw),
                self.y + rot_y_int(self.cells@, i, cw),
            )
    }

    pub fn rotate(&mut self, clockwise: bool, grid: &Grid)
        requires
            old(self).wf(),
            grid.wf(),
        ensures
            final(self).wf(),
            *final(self) == (Organism { cells: final(self).cells, ..*old(self) }),
            final(self).cells@ == if old(self).rotation_allowed(clockwise, *grid) {
                rotated_anatomy(old(self).cells@, clockwise)
            } else {
                old(self).cells@
            },
            final(self).cells@.len() == old(self).cells@.len(),
            connected(old(self).cells@) ==> connected(final(self).cells@),
    {
        let n = self.cells.len();
        let mut sx: i64 = 0;
        let mut sy: i64 = 0;
        let mut i: usize = 0;
        while i < n
            invariant
                old(self).wf(),
                *self == *old(self),
                n == self.cells@.len(),
                1 <= n <= MAX_CELLS,
                i <= n,
                sx == sum_dx(self.cells@.take(i as int)),
                sy == sum_dy(self.cells@.take(i as int)),
                -(i as int) * 0x80000000 <= sx <= (i as int) * 0x80000000,
                -(i as int) * 0x80000000 <= sy <= (i as int) * 0x80000000,
            decreases n - i,
        {
            proof {
                assert(self.cells@.take(i + 1).drop_last() =~= self.cells@.take(i as int));
                assert(self.cells@.take(i + 1).last() == self.cells@[i as int]);
            }
            let (dx, dy, _) = self.cells[i];
            sx = sx + dx as i64;
            sy = sy + dy as i64;
            i = i + 1;
        }
        proof {
            assert(self.cells@.take(n as int) =~= self.cells@);
        }
        let cx: i64 = if sx >= 0 {
            ((sx as u64) / (n as u64)) as i64
        } else {
            -((((-sx) as u64) / (n as u64)) as i64)
        };
        let cy: i64 = if sy >= 0 {
            ((sy as u64) / (n as u64)) as i64
        } else {
            -((((-sy) as u64) / (n as u64)) as i64)
        };
        proof {
            assert(cx == div_trunc(sum_dx(self.cells@), n as int));
            assert(cy == div_trunc(sum_dy(self.cells@), n as int));
        }
        let mut new_cells: Vec<AnatomyCell> = Vec::new();
        let mut i: usize = 0;
        while i < n
            invariant
                old(self).wf(),
                *self == *old(self),
                n == self.cells@.len(),
                1 <= n <= MAX_CELLS,
                i <= n,
                -0x20000000000000 <= cx <= 0x20000000000000,
                -0x20000000000000 <= cy <= 0x20000000000000,
                cx == div_trunc(sum_dx(self.cells@), n as int),
                cy == div_trunc(sum_dy(self.cells@), n as int),
                new_cells@.len() == i,
                forall|t: int|
                    0 <= t < i ==> (#[trigger] new_cells@[t]).0 as int == rot_x_int(
                        self.cells@,
                        t,
                        clockwise,
                    ),
                forall|t: int|
                    0 <= t < i ==> (#[trigger] new_cells@[t]).1 as int == rot_y_int(
                        self.cells@,
                        t,
                        clockwise,
                    ),
                forall|t: int| 0 <= t < i ==> (#[trigger] new_cells@[t]).2 == self.cells@[t].2,
            decreases n - i,
        {
            let (dx, dy, cell) = self.cells[i];
            let ndx64: i64 = if clockwise {
                cx + (dy as i64 - cy)
            } else {
                cx - (dy as i64 - cy)
            };
            let ndy64: i64 = if clockwise {
                cy - (dx as i64 - cx)
            } else {
                cy + (dx as i64 - cx)
            };
            if ndx64 < i32::MIN as i64 || ndx64 > i32::MAX as i64 || ndy64 < i32::MIN as i64
                || ndy64 > i32::MAX as i64 {
                proof {
                    assert(ndx64 == rot_x_int(self.cells@, i as int, clockwise));
                    assert(ndy64 == rot_y_int(self.cells@, i as int, clockwise));
                    assert(!rotation_fits(self.cells@, clockwise));
                }
                return ;
            }
            new_cells.push((ndx64 as i32, ndy64 as i32, cell));
            i = i + 1;
        }
        let mut i: usize = 0;
        while i < n
            invariant
                old(self).wf(),
                *self == *old(self),
                n == self.cells@.len(),
                n == new_cells@.len(),
                i <= n,
                grid.wf(),
                forall|t: int|
                    0 <= t < n ==> (#[trigger] new_cells@[t]).0 as int == rot_x_int(
                        self.cells@,
                        t,
                        clockwise,
                    ),
                forall|t: int|
                    0 <= t < n ==> (#[trigger] new_cells@[t]).1 as int == rot_y_int(
                        self.cells@,
                        t,
                        clockwise,
                    ),
                forall|t: int|
                    0 <= t < i ==> grid.empty_at(
                        self.x + (#[trigger] new_cells@[t]).0,
                        self.y + new_cells@[t].1,
                    ),
            decreases n - i,
        {
            let (ndx, ndy, _) = new_cells[i];
            let wx = self.x as i64 + ndx as i64;
            let wy = self.y as i64 + ndy as i64;
            if wx < 0 || wx >= WIDTH as i64 || wy < 0 || wy >= HEIGHT as i64 {
                proof {
                    assert(!grid.empty_at(
                        self.x + rot_x_int(self.cells@, i as int, clockwise),
                        self.y + rot_y_int(self.cells@, i as int, clockwise),
                    ));
                }
                return ;
            }
            if !grid.is_cell_empty(wx as usize, wy as usize) {
                proof {
                    assert(!grid.empty_at(
                        self.x + rot_x_int(self.cells@, i as int, clockwise),
                        self.y + rot_y_int(self.cells@, i as int, clockwise),
                    ));
                }
                return ;
            }
            i = i + 1;
        }
        let ghost pre = self.cells@;
        proof {
            assert forall|t: int|
                0 <= t < pre.len() implies i32::MIN <= #[trigger] rot_x_int(pre, t, clockwise)
                <= i32::MAX && i32::MIN <= rot_y_int(pre, t, clockwise) <= i32::MAX by {
                assert(new_cells@[t].0 as int == rot_x_int(pre, t, clockwise));
                assert(new_cells@[t].1 as int == rot_y_int(pre, t, clockwise));
            }
            assert forall|t: int|
                0 <= t < pre.len() implies grid.empty_at(
                self.x + #[trigger] rot_x_int(pre, t, clockwise),
                self.y + rot_y_int(pre, t, clockwise),
            ) by {
                assert(grid.empty_at(self.x + new_cells@[t].0, self.y + new_cells@[t].1));
            }
            assert(self.rotation_allowed(clockwise, *grid));
        }
        self.cells = new_cells;
        proof {
            assert(self.cells@ =~= rotated_anatomy(pre, clockwise));
            if connected(pre) {
                let gcx = div_trunc(sum_dx(pre), pre.len() as int);
                let gcy = div_trunc(sum_dy(pre), pre.len() as int);
                assert forall|a: int, b: int|
                    0 <= a < pre.len() && 0 <= b < pre.len() implies #[trigger] adjacent_cells(
                    pre[a],
                    pre[b],
                ) == adjacent_cells(self.cells@[a], self.cells@[b]) by {
                    assert(self.cells@[a].0 as int - self.cells@[b].0 as int == if clockwise {
                        pre[a].1 - pre[b].1
                    } else {
                        -(pre[a].1 - pre[b].1)
                    });
                    assert(self.cells@[a].1 as int - self.cells@[b].1 as int == if clockwise {
                        -(pre[a].0 - pre[b].0)
                    } else {
                        pre[a].0 - pre[b].0
                    });
                }
                lemma_connected_same_adjacency(pre, self.cells@);
            }
        }
    }

    /// The fallback behaviour of a brainless mover: with even odds either
    /// rotate the anatomy a random way or step in a random direction,
    /// each attempt subject to the usual validity checks.
    pub fn random_movement(&mut self, grid: &Grid, rng: &mut rand::rngs::StdRng)
        requires
            old(self).wf(),
            grid.wf(),
        ensures
            final(self).wf(),
            final(self).cells@.len() == old(self).cells@.len(),
            forall|t: int|
                0 <= t < old(self).cells@.len() ==> (#[trigger] final(self).cells@[t]).2 == old(self).cells@[t].2,
            connected(old(self).cells@) ==> connected(final(self).cells@),
            final(self).cells@ == old(self).cells@ || (final(self).x == old(self).x && final(self).y == old(self).y),
            -1 <= final(self).x - old(self).x <= 1,
            -1 <= final(self).y - old(self).y <= 1,
            final(self).x == old(self).x || final(self).y == old(self).y,
            final(self).brain == old(self).brain,
            final(self).energy == old(self).energy,
            final(self).satiety == old(self).satiety,
            final(self).lifetime == old(self).lifetime,
            final(self).killed == old(self).killed,
            final(self).id == old(self).id,
            final(self).cells_len == old(self).cells_len,
            final(self).eye_data == old(self).eye_data,
    {
        if rng_below(rng, 2) == 0 {
            let cw = rng_below(rng, 2) == 1;
            self.rotate(cw, grid);
        } else {
            let dir = Direction::random_direction(rng);
            self.move_dir(dir, grid);
            proof {
                match dir {
                    Direction::Up => assert(self.x == old(self).x),
                    Direction::Down => assert(self.x == old(self).x),
                    Direction::Left => assert(self.y == old(self).y),
                    Direction::Right => assert(self.y == old(self).y),
                    Direction::Still => assert(self.x == old(self).x),
                }
            }
        }
    }

    /// One tick of behaviour. First the countdowns: the lifetime drops by
    /// one and the satiety by the hunger rate per cell; if either reaches
    /// zero the organism is marked killed, nothing else happens, and the
    /// call reports death. Otherwise every anatomy cell acts in anatomy
    /// order — mouths eat (energy and satiety rise per meal), producers
    /// may drop food, killers queue a pending kill, eyes sense — and a
    /// mover cell finally triggers one movement attempt, brain-driven
    /// when a brain is present, random otherwise.
    pub fn update(&mut self, grid: &mut Grid, rng: &mut rand::rngs::StdRng) -> (alive: bool)
        requires
            old(self).wf(),
            old(grid).wf(),
        ensures
            final(self).wf(),
            final(grid).wf(),
            final(self).id == old(self).id,
            final(self).lifetime == clip(old(self).lifetime - 1),
            ({
                let lt = clip(old(self).lifetime - 1);
                let st = clip(
                    old(self).satiety - HUNGER_RATE_MILLI * old(self).cells@.len(),
                );
                if lt <= 0 || st <= 0 {
                    &&& !alive
                    &&& final(self).killed
                    &&& final(self).satiety == st
                    &&& final(self).cells@ == old(self).cells@
                    &&& final(self).x == old(self).x && final(self).y == old(self).y
                    &&& final(self).energy == old(self).energy
                    &&& *final(grid) == *old(grid)
                } else {
                    &&& alive
                    &&& final(self).killed == old(self).killed
                    &&& old(self).energy <= final(self).energy <= old(self).energy + old(self).cells@.len()
                    &&& final(self).satiety >= st
                    &&& final(self).cells@.len() == old(self).cells@.len()
                    &&& forall|t: int|
                        0 <= t < old(self).cells@.len() ==> (#[trigger] final(self).cells@[t]).2
                            == old(self).cells@[t].2
                    &&& (connected(old(self).cells@) ==> connected(final(self).cells@))
                    &&& (final(self).cells@ == old(self).cells@ || (final(self).x == old(self).x
                        && final(self).y == old(self).y))
                    &&& -1 <= final(self).x - old(self).x <= 1
                    &&& -1 <= final(self).y - old(self).y <= 1
                    &&& final(self).brain.is_some() == old(self).brain.is_some()
                    &&& final(self).eye_data@.len() == eye_count(old(self).cells@)
                    &&& forall|t: int|
                        0 <= t < final(self).eye_data@.len() ==> (#[trigger] final(self).eye_data@[t] == EYE_NOTHING || final(self).eye_data@[t] == EYE_FOOD
                            || final(self).eye_data@[t] == EYE_ORGANISM)
                    &&& final(grid).organs@ == old(grid).organs@
                    &&& final(grid).pending_kill_coordinates@.len() == final(grid).pending_kill_killers@.len()
                    &&& final(grid).pending_kill_killers@.len() >= old(grid).pending_kill_killers@.len()
                    &&& final(grid).pending_kill_coordinates@.take(
                        old(grid).pending_kill_coordinates@.len() as int,
                    ) == old(grid).pending_kill_coordinates@
                    &&& final(grid).pending_kill_killers@.take(
                        old(grid).pending_kill_killers@.len() as int,
                    ) == old(grid).pending_kill_killers@
                    &&& forall|t: int|
                        old(grid).pending_kill_killers@.len() <= t < final(grid).pending_kill_killers@.len() ==> #[trigger] final(grid).pending_kill_killers@[t] == old(self).id
                    &&& cells_act(
                        old(self).cells@,
                        old(self).x as int,
                        old(self).y as int,
                        old(self).id,
                        (TickState {
                            grid: *old(grid),
                            energy: old(self).energy as int,
                            satiety: st,
                            eyes: Seq::empty(),
                        }),
                        (TickState {
                            grid: *final(grid),
                            energy: final(self).energy as int,
                            satiety: final(self).satiety as int,
                            eyes: final(self).eye_data@,
                        }),
                    )
                    &&& (final(self).x == old(self).x || final(self).y == old(self).y)
                    &&& if !has_mover(old(self).cells@) {
                        &&& final(self).cells@ == old(self).cells@
                        &&& final(self).x == old(self).x
                        &&& final(self).y == old(self).y
                        &&& final(self).brain == old(self).brain
                    } else {
                        match old(self).brain {
                            Option::Some(b) => {
                                let outs = crate::brain::net_vals(
                                    b.weights@,
                                    final(self).eye_data@,
                                    b.weights@.len() as int,
                                );
                                let dir = crate::brain::dir_of_index(
                                    crate::brain::argmax_first(outs, BRAIN_OUTPUTS as int),
                                );
                                let off = Self::dir_offset(dir);
                                &&& final(self).cells@ == old(self).cells@
                                &&& (final(self).brain matches Option::Some(b2) && b2.weights
                                    == b.weights)
                                &&& if dir != Direction::Still && old(self).move_allowed(
                                    off.0,
                                    off.1,
                                    *final(grid),
                                ) {
                                    final(self).x == old(self).x + off.0 && final(self).y == old(
                                        self,
                                    ).y + off.1
                                } else {
                                    final(self).x == old(self).x && final(self).y == old(self).y
                                }
                            },
                            Option::None => final(self).brain is None,
                        }
                    }
                }
            }),
    {
        self.lifetime = sub_clipped(self.lifetime, 1);
        let hunger = HUNGER_RATE_MILLI * (self.cells_len as i64);
        self.satiety = sub_clipped(self.satiety, hunger);
        if self.lifetime <= 0 {
            self.killed = true;
            return false;
        }
        if self.satiety <= 0 {
            self.killed = true;
            return false;
        }
        self.eye_data = Vec::new();
        let ghost st = self.satiety as int;
        let ghost st0 = TickState {
            grid: *grid,
            energy: self.energy as int,
            satiety: self.satiety as int,
            eyes: Seq::empty(),
        };
        proof {
            assert(self.cells@.take(0) =~= Seq::<AnatomyCell>::empty());
            assert(state_same(st0, st0));
        }
        let mut will_move = false;
        let mut i: usize = 0;
        while i < self.cells.len()
            invariant
                old(self).wf(),
                old(grid).wf(),
                grid.wf(),
                i <= self.cells@.len(),
                self.cells@ == old(self).cells@,
                self.cells_len == old(self).cells_len,
                self.x == old(self).x,
                self.y == old(self).y,
                self.id == old(self).id,
                self.killed == old(self).killed,
                self.lifetime == clip(old(self).lifetime - 1),
                self.brain == old(self).brain,
                self.min_x == old(self).min_x,
                self.max_x == old(self).max_x,
                self.min_y == old(self).min_y,
                self.max_y == old(self).max_y,
                in_counter_range(self.energy as int),
                in_counter_range(self.satiety as int),
                old(self).energy <= self.energy <= old(self).energy + i,
                self.satiety >= st,
                self.eye_data@.len() == eye_count(self.cells@.take(i as int)),
                forall|t: int|
                    0 <= t < self.eye_data@.len() ==> (#[trigger] self.eye_data@[t] == EYE_NOTHING
                        || self.eye_data@[t] == EYE_FOOD || self.eye_data@[t] == EYE_ORGANISM),
                grid.organs@ == old(grid).organs@,
                grid.pending_kill_coordinates@.len() == grid.pending_kill_killers@.len(),
                grid.pending_kill_killers@.len() >= old(grid).pending_kill_killers@.len(),
                grid.pending_kill_coordinates@.take(
                    old(grid).pending_kill_coordinates@.len() as int,
                ) == old(grid).pending_kill_coordinates@,
                grid.pending_kill_killers@.take(old(grid).pending_kill_killers@.len() as int)
                    == old(grid).pending_kill_killers@,
                forall|t: int|
                    old(grid).pending_kill_killers@.len() <= t
                        < grid.pending_kill_killers@.len() ==> #[trigger] grid.pending_kill_killers@[t]
                        == old(self).id,
                will_move == has_mover(self.cells@.take(i as int)),
                st0 == (TickState {
                    grid: *old(grid),
                    energy: old(self).energy as int,
                    satiety: st,
                    eyes: Seq::<i32>::empty(),
                }),
                cells_act(
                    self.cells@.take(i as int),
                    old(self).x as int,
                    old(self).y as int,
                    old(self).id,
                    st0,
                    (TickState {
                        grid: *grid,
                        energy: self.energy as int,
                        satiety: self.satiety as int,
                        eyes: self.eye_data@,
                    }),
                ),
            decreases self.cells@.len() - i,
        {
            proof {
                assert(self.cells@.take(i + 1).drop_last() =~= self.cells@.take(i as int));
                assert(self.cells@.take(i + 1).last() == self.cells@[i as int]);
            }
            let ghost pre_ts = TickState {
                grid: *grid,
                energy: self.energy as int,
                satiety: self.satiety as int,
                eyes: self.eye_data@,
            };
            let (dx, dy, cell) = self.cells[i];
            let wx = self.x as i64 + dx as i64;
            let wy = self.y as i64 + dy as i64;
            let inb = wx >= 0 && wx < WIDTH as i64 && wy >= 0 && wy < HEIGHT as i64;
            match cell {
                Cell::Mouth => {
                    if inb {
                        if grid.mouth_eat(wx as usize, wy as usize) {
                            self.energy = add_clipped(self.energy, 1);
                            self.satiety = add_clipped(self.satiety, FOOD_BENEFIT_MILLI);
                        }
                    }
                },
                Cell::Producer => {
                    if inb {
                        grid.produce_food(wx as usize, wy as usize);
                    }
                },
                Cell::Mover => {
                    will_move = true;
                },
                Cell::Killer => {
                    if inb {
                        let ghost cpre = grid.pending_kill_coordinates@;
                        let ghost kpre = grid.pending_kill_killers@;
                        grid.killer_activates(wx as usize, wy as usize, self.id);
                        proof {
                            assert(grid.pending_kill_coordinates@.take(
                                old(grid).pending_kill_coordinates@.len() as int,
                            ) =~= old(grid).pending_kill_coordinates@);
                            assert(grid.pending_kill_killers@.take(
                                old(grid).pending_kill_killers@.len() as int,
                            ) =~= old(grid).pending_kill_killers@);
                        }
                    }
                },
                Cell::Armor => {},
                Cell::Eye(eye_type) => {
                    if inb {
                        let d = grid.get_eye_data(
                            wx as usize,
                            wy as usize,
                            eye_type.to_direction(),
                        );
                        self.eye_data.push(d);
                    } else {
                        self.eye_data.push(EYE_NOTHING);
                    }
                },
                Cell::Brain => {},
                _ => {},
            }
            proof {
                let cur_ts = TickState {
                    grid: *grid,
                    energy: self.energy as int,
                    satiety: self.satiety as int,
                    eyes: self.eye_data@,
                };
                assert(cell_acts(
                    self.cells@[i as int],
                    old(self).x as int,
                    old(self).y as int,
                    old(self).id,
                    pre_ts,
                    cur_ts,
                ));
                assert(cells_act(
                    self.cells@.take(i + 1).drop_last(),
                    old(self).x as int,
                    old(self).y as int,
                    old(self).id,
                    st0,
                    pre_ts,
                ));
                assert(cell_acts(
                    self.cells@.take(i + 1).last(),
                    old(self).x as int,
                    old(self).y as int,
                    old(self).id,
                    pre_ts,
                    cur_ts,
                ));
                assert(self.cells@.take(i + 1).len() > 0);
                lemma_cells_act_snoc(
                    self.cells@.take(i + 1),
                    old(self).x as int,
                    old(self).y as int,
                    old(self).id,
                    st0,
                    pre_ts,
                    cur_ts,
                );
                if has_mover(self.cells@.take(i as int)) {
                    let w = choose|t: int|
                        0 <= t < i && (#[trigger] self.cells@.take(i as int)[t]).2 == Cell::Mover;
                    assert((self.cells@.take(i + 1)[w]).2 == Cell::Mover);
                }
                if self.cells@[i as int].2 == Cell::Mover {
                    assert((self.cells@.take(i + 1)[i as int]).2 == Cell::Mover);
                }
            }
            i = i + 1;
        }
        proof {
            assert(self.cells@.take(self.cells@.len() as int) =~= self.cells@);
        }
        if will_move {
            let taken = self.brain.take();
            match taken {
                Option::Some(mut b) => {
                    let eye = crate::brain::copy_i32s(&self.eye_data);
                    let dir = b.process_input(eye);
                    self.brain = Some(b);
                    self.move_dir(dir, grid);
                    proof {
                        match dir {
                            Direction::Up => assert(self.x == old(self).x),
                            Direction::Down => assert(self.x == old(self).x),
                            Direction::Left => assert(self.y == old(self).y),
                            Direction::Right => assert(self.y == old(self).y),
                            Direction::Still => assert(self.x == old(self).x),
                        }
                    }
                },
                Option::None => {
                    self.brain = None;
                    self.random_movement(grid, rng);
                },
            }
        }
        proof {
            assert(self.x == old(self).x || self.y == old(self).y);
        }
        true
    }

    /// The half-width of the random displacement window for one axis:
    /// four cells plus the cached bounding extent, capped well inside
    /// machine range.
    pub open spec fn offset_range(self, mx: int, mn: int) -> int {
        if 4 + (mx + mn + 1) > 1000000 {
            1000000
        } else {
            4 + (mx + mn + 1)
        }
    }

    /// Displaces the anchor by a uniform random offset whose range grows
    /// with the anatomy's cached extents, clamped back onto the grid;
    /// used to place a newborn near its parent.
    pub fn random_offset(&mut self, rng: &mut rand::rngs::StdRng)
        requires
            old(self).wf(),
        ensures
            final(self).wf(),
            *final(self) == (Organism { x: final(self).x, y: final(self).y, ..*old(self) }),
            final(self).x < WIDTH,
            final(self).y < HEIGHT,
            ({
                let xr = old(self).offset_range(old(self).max_x as int, old(self).min_x as int);
                let yr = old(self).offset_range(old(self).max_y as int, old(self).min_y as int);
                exists|dx: int, dy: int|
                    -xr <= dx <= xr && -yr <= dy <= yr && final(self).x == #[trigger] crate::grid::clamp_idx(
                        old(self).x + dx,
                        WIDTH as int - 1,
                    ) && final(self).y == #[trigger] crate::grid::clamp_idx(
                        old(self).y + dy,
                        HEIGHT as int - 1,
                    )
            }),
    {
        let mut xr: i64 = 4 + (self.max_x as i64 + self.min_x as i64 + 1);
        let mut yr: i64 = 4 + (self.max_y as i64 + self.min_y as i64 + 1);
        if xr > 1000000 {
            xr = 1000000;
        }
        if yr > 1000000 {
            yr = 1000000;
        }
        let dx = rng_below(rng, (2 * xr + 1) as u32) as i64 - xr;
        let dy = rng_below(rng, (2 * yr + 1) as u32) as i64 - yr;
        let nx = self.x as i64 + dx;
        let ny = self.y as i64 + dy;
        self.x = if nx < 0 {
            0
        } else if nx > (WIDTH - 1) as i64 {
            WIDTH - 1
        } else {
            nx as usize
        };
        self.y = if ny < 0 {
            0
        } else if ny > (HEIGHT - 1) as i64 {
            HEIGHT - 1
        } else {
            ny as usize
        };
        proof {
            assert(xr == old(self).offset_range(old(self).max_x as int, old(self).min_x as int));
            assert(yr == old(self).offset_range(old(self).max_y as int, old(self).min_y as int));
            assert(self.x == crate::grid::clamp_idx(old(self).x + dx, WIDTH as int - 1));
            assert(self.y == crate::grid::clamp_idx(old(self).y + dy, HEIGHT as int - 1));
        }
    }
}

} // verus!
