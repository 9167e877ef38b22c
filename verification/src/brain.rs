use vstd::prelude::*;
use crate::arith::{clip, in_counter_range, sat_add_i32, sat_i32, COUNTER_BOUND};
use crate::config::{BRAIN_OUTPUTS, HIDDEN_NEURON_NUM, MUTATION_RATE_MILLI};
use crate::rng::rng_below;
use crate::Direction;

verus! {

/// One activation unit: activations live in `[-UNIT, UNIT]`, standing for
/// the real interval [-1, 1] in thousandths.
pub const UNIT: i32 = 1000;

/// A small feed-forward network that turns eye readings into a movement
/// direction. Weights and activations are fixed-point values in
/// thousandths. Layer `0` maps the input to the first hidden layer, the
/// following matrices map hidden layer to hidden layer, and the last one
/// maps the last hidden layer to the four outputs, one per direction.
pub struct Brain {
    pub input: Vec<i32>,
    pub hidden_layers: Vec<Vec<i32>>,
    pub weights: Vec<Vec<Vec<i32>>>,
    pub num_hidden_layers: usize,
    pub num_inputs: usize,
}

/// The saturating activation applied to every neuron sum: odd, monotone,
/// and flat at `UNIT` outside `[-UNIT, UNIT]`; a fixed-point stand-in for
/// the hyperbolic tangent.
pub open spec fn squash_spec(x: int) -> int {
    if x > UNIT as int {
        UNIT as int
    } else if x < -(UNIT as int) {
        -(UNIT as int)
    } else {
        x
    }
}

/// Applies the saturating activation.
pub fn squash(x: i64) -> (r: i32)
    ensures
        r as int == squash_spec(x as int),
{
    if x > UNIT as i64 {
        UNIT
    } else if x < -(UNIT as i64) {
        -UNIT
    } else {
        x as i32
    }
}

/// The dot product of the first `n` weight/activation pairs, with every
/// partial sum clipped into the counter range; the clip never binds for
/// the sizes a simulation reaches.
pub open spec fn dot_clip(w: Seq<i32>, v: Seq<i32>, n: int) -> int
    decreases n,
{
    if n <= 0 {
        0
    } else {
        clip(dot_clip(w, v, n - 1) + w[n - 1] * v[n - 1])
    }
}

/// One neuron's activation: the clipped dot product of its weight row
/// with the previous layer (over the shorter of the two), squashed.
pub open spec fn neuron_val(w: Seq<i32>, v: Seq<i32>) -> i32 {
    let n = if w.len() <= v.len() {
        w.len() as int
    } else {
        v.len() as int
    };
    squash_spec(dot_clip(w, v, n)) as i32
}

/// One layer's activations: one neuron per weight row.
pub open spec fn layer_vals(m: Seq<Vec<i32>>, v: Seq<i32>) -> Seq<i32> {
    Seq::new(m.len(), |i: int| neuron_val(m[i]@, v))
}

/// The activations after the first `k` layers of the network.
pub open spec fn net_vals(ws: Seq<Vec<Vec<i32>>>, input: Seq<i32>, k: int) -> Seq<i32>
    decreases k,
{
    if k <= 0 {
        input
    } else {
        layer_vals(ws[k - 1]@, net_vals(ws, input, k - 1))
    }
}

/// The index of the first maximum among the first `n` entries.
pub open spec fn argmax_first(s: Seq<i32>, n: int) -> int
    decreases n,
{
    if n <= 1 {
        0
    } else {
        let p = argmax_first(s, n - 1);
        if s[n - 1] > s[p] {
            n - 1
        } else {
            p
        }
    }
}

/// The direction that an output index selects.
pub open spec fn dir_of_index(i: int) -> Direction {
    if i == 0 {
        Direction::Up
    } else if i == 1 {
        Direction::Down
    } else if i == 2 {
        Direction::Left
    } else if i == 3 {
        Direction::Right
    } else {
        Direction::Still
    }
}

/// Law: a well-formed brain's network produces exactly `BRAIN_OUTPUTS`
/// output activations for any input, whatever its hidden-layer count.
pub proof fn lemma_brain_output_count(b: Brain, input: Seq<i32>)
    requires
        b.wf(),
    ensures
        net_vals(b.weights@, input, b.weights@.len() as int).len() == BRAIN_OUTPUTS,
{
}

/// Adds one weight/activation product onto a clipped accumulator.
fn dot_step(acc: i64, w: i32, v: i32) -> (r: i64)
    requires
        in_counter_range(acc as int),
    ensures
        r as int == clip(acc + w * v),
        in_counter_range(r as int),
{
    proof {
        let wi = w as int;
        let vi = v as int;
        assert(-0x4000000000000000 <= wi * vi <= 0x4000000000000000) by (nonlinear_arith)
            requires
                -0x80000000 <= wi <= 0x80000000,
                -0x80000000 <= vi <= 0x80000000,
        ;
    }
    let prod = (w as i64) * (v as i64);
    let s = acc + prod;
    if s > COUNTER_BOUND {
        COUNTER_BOUND
    } else if s < -COUNTER_BOUND {
        -COUNTER_BOUND
    } else {
        s
    }
}

/// Copies a vector of activations.
pub(crate) fn copy_i32s(v: &Vec<i32>) -> (r: Vec<i32>)
    ensures
        r@ == v@,
{
    let mut r: Vec<i32> = Vec::new();
    let mut i: usize = 0;
    while i < v.len()
        invariant
            i <= v.len(),
            r@ == v@.take(i as int),
        decreases v.len() - i,
    {
        r.push(v[i]);
        i = i + 1;
    }
    proof {
        assert(r@ =~= v@);
    }
    r
}

/// A vector of `n` zero activations.
fn zero_i32s(n: usize) -> (r: Vec<i32>)
    ensures
        r@.len() == n,
        forall|i: int| 0 <= i < n ==> r@[i] == 0i32,
{
    let mut r: Vec<i32> = Vec::new();
    let mut i: usize = 0;
    while i < n
        invariant
            i <= n,
            r@.len() == i,
            forall|j: int| 0 <= j < i ==> r@[j] == 0i32,
        decreases n - i,
    {
        r.push(0i32);
        i = i + 1;
    }
    r
}

/// A fresh weight row of `n` uniform values in `[-UNIT, UNIT)`.
fn random_row(rng: &mut rand::rngs::StdRng, n: usize) -> (r: Vec<i32>)
    ensures
        r@.len() == n,
        forall|i: int| 0 <= i < n ==> fresh_weight(#[trigger] r@[i]),
{
    let mut r: Vec<i32> = Vec::new();
    let mut i: usize = 0;
    while i < n
        invariant
            i <= n,
            r@.len() == i,
            forall|j: int| 0 <= j < i ==> fresh_weight(#[trigger] r@[j]),
        decreases n - i,
    {
        let w = rng_below(rng, 2000) as i32 - UNIT;
        r.push(w);
        i = i + 1;
    }
    r
}

/// Copies a matrix row by row.
fn copy_matrix(m: &Vec<Vec<i32>>) -> (r: Vec<Vec<i32>>)
    ensures
        r@.len() == m@.len(),
        forall|i: int| 0 <= i < m@.len() ==> (#[trigger] r@[i])@ == m@[i]@,
{
    let mut r: Vec<Vec<i32>> = Vec::new();
    let mut i: usize = 0;
    while i < m.len()
        invariant
            i <= m@.len(),
            r@.len() == i,
            forall|j: int| 0 <= j < i ==> (#[trigger] r@[j])@ == m@[j]@,
        decreases m@.len() - i,
    {
        let row = copy_i32s(&m[i]);
        r.push(row);
        i = i + 1;
    }
    r
}

/// True of a weight matrix with the given shape.
pub open spec fn matrix_shape(m: Seq<Vec<i32>>, rows: int, cols: int) -> bool {
    &&& m.len() == rows
    &&& forall|i: int| 0 <= i < rows ==> (#[trigger] m[i])@.len() == cols
}

/// True of a freshly drawn weight.
pub open spec fn fresh_weight(w: i32) -> bool {
    -UNIT <= w < UNIT
}

/// True of a matrix whose every weight was freshly drawn.
pub open spec fn fresh_matrix(m: Seq<Vec<i32>>) -> bool {
    forall|i: int, j: int|
        0 <= i < m.len() && 0 <= j < (#[trigger] m[i])@.len() ==> fresh_weight(
            #[trigger] m[i]@[j],
        )
}

/// One generational weight step: the new weight is the old one moved by
/// a uniform delta of magnitude below `MUTATION_RATE_MILLI`, saturating
/// at the type's bounds.
pub open spec fn weight_stepped(w_new: i32, w_old: i32) -> bool {
    exists|d: int|
        -(MUTATION_RATE_MILLI as int) <= d < MUTATION_RATE_MILLI && w_new as int == #[trigger] sat_i32(
            w_old + d,
        )
}

/// How one kept matrix relates across a mutation: same shape, and every
/// weight either stepped (when the perturbation fired) or bitwise
/// unchanged.
pub open spec fn matrix_stepped(mn: Vec<Vec<i32>>, mo: Vec<Vec<i32>>, perturbed: bool) -> bool {
    &&& mn@.len() == mo@.len()
    &&& forall|j: int| 0 <= j < mn@.len() ==> (#[trigger] mn@[j])@.len() == mo@[j]@.len()
    &&& (perturbed ==> forall|j: int, k: int|
        0 <= j < mn@.len() && 0 <= k < mo@[j]@.len() ==> weight_stepped(
            #[trigger] mn@[j]@[k],
            mo@[j]@[k],
        ))
    &&& (!perturbed ==> forall|j: int, k: int|
        0 <= j < mn@.len() && 0 <= k < mo@[j]@.len() ==> #[trigger] mn@[j]@[k] == mo@[j]@[k])
}

/// How the whole weight stack relates across a mutation: every kept
/// matrix is stepped or unchanged as one block; growing inserts one
/// fresh hidden-to-hidden matrix right after the input matrix, and
/// shrinking removes the matrix feeding the last hidden layer (the
/// output matrix always stays).
pub open spec fn weights_evolved(
    wo: Seq<Vec<Vec<i32>>>,
    wn: Seq<Vec<Vec<i32>>>,
    perturbed: bool,
    target: int,
    layers_before: int,
) -> bool {
    if target > layers_before {
        &&& wn.len() == wo.len() + 1
        &&& wo.len() >= 1
        &&& matrix_stepped(wn[0], wo[0], perturbed)
        &&& matrix_shape(wn[1]@, HIDDEN_NEURON_NUM as int, HIDDEN_NEURON_NUM as int)
        &&& fresh_matrix(wn[1]@)
        &&& forall|i: int|
            2 <= i < wn.len() ==> matrix_stepped(#[trigger] wn[i], wo[i - 1], perturbed)
    } else if target < layers_before {
        &&& wn.len() == wo.len() - 1
        &&& wn.len() >= 1
        &&& forall|i: int|
            0 <= i < wn.len() - 1 ==> matrix_stepped(#[trigger] wn[i], wo[i], perturbed)
        &&& matrix_stepped(wn[wn.len() - 1], wo[wo.len() - 1], perturbed)
    } else {
        &&& wn.len() == wo.len()
        &&& forall|i: int| 0 <= i < wn.len() ==> matrix_stepped(#[trigger] wn[i], wo[i], perturbed)
    }
}

/// A fresh weight matrix of `rows x cols` uniform values in `[-UNIT, UNIT)`.
fn random_matrix(rng: &mut rand::rngs::StdRng, rows: usize, cols: usize) -> (m: Vec<Vec<i32>>)
    ensures
        matrix_shape(m@, rows as int, cols as int),
        fresh_matrix(m@),
{
    let mut m: Vec<Vec<i32>> = Vec::new();
    let mut i: usize = 0;
    while i < rows
        invariant
            i <= rows,
            matrix_shape(m@, i as int, cols as int),
            fresh_matrix(m@),
        decreases rows - i,
    {
        let row = random_row(rng, cols);
        m.push(row);
        i = i + 1;
    }
    m
}

/// `matrix_stepped` reads its old matrix only through views, so it
/// transfers across a deep copy.
proof fn lemma_stepped_transfer(mn: Vec<Vec<i32>>, c: Vec<Vec<i32>>, o: Vec<Vec<i32>>, p: bool)
    requires
        c@.len() == o@.len(),
        forall|j: int| 0 <= j < c@.len() ==> (#[trigger] c@[j])@ == o@[j]@,
        matrix_stepped(mn, c, p),
    ensures
        matrix_stepped(mn, o, p),
{
    assert forall|j: int| 0 <= j < mn@.len() implies (#[trigger] mn@[j])@.len()
        == o@[j]@.len() by {
        assert(c@[j]@ == o@[j]@);
    }
    if p {
        assert forall|j: int, k: int|
            0 <= j < mn@.len() && 0 <= k < o@[j]@.len() implies weight_stepped(
            #[trigger] mn@[j]@[k],
            o@[j]@[k],
        ) by {
            assert(o@[j]@ == c@[j]@);
            assert(weight_stepped(mn@[j]@[k], c@[j]@[k]));
        }
    } else {
        assert forall|j: int, k: int|
            0 <= j < mn@.len() && 0 <= k < o@[j]@.len() implies #[trigger] mn@[j]@[k]
            == o@[j]@[k] by {
            assert(o@[j]@ == c@[j]@);
            assert(mn@[j]@[k] == c@[j]@[k]);
        }
    }
}

/// `weights_evolved` likewise transfers from a deep copy of the old
/// weight stack to the original.
proof fn lemma_evolved_transfer(
    c: Seq<Vec<Vec<i32>>>,
    wo: Seq<Vec<Vec<i32>>>,
    wn: Seq<Vec<Vec<i32>>>,
    p: bool,
    target: int,
    layers_before: int,
)
    requires
        c.len() == wo.len(),
        forall|i: int| 0 <= i < c.len() ==> (#[trigger] c[i])@.len() == wo[i]@.len(),
        forall|i: int, j: int|
            0 <= i < c.len() && 0 <= j < c[i]@.len() ==> (#[trigger] c[i]@[j])@ == wo[i]@[j]@,
        weights_evolved(c, wn, p, target, layers_before),
    ensures
        weights_evolved(wo, wn, p, target, layers_before),
{
    if target > layers_before {
        lemma_stepped_transfer(wn[0], c[0], wo[0], p);
        assert forall|i: int| 2 <= i < wn.len() implies matrix_stepped(
            #[trigger] wn[i],
            wo[i - 1],
            p,
        ) by {
            lemma_stepped_transfer(wn[i], c[i - 1], wo[i - 1], p);
        }
    } else if target < layers_before {
        assert forall|i: int| 0 <= i < wn.len() - 1 implies matrix_stepped(
            #[trigger] wn[i],
            wo[i],
            p,
        ) by {
            lemma_stepped_transfer(wn[i], c[i], wo[i], p);
        }
        lemma_stepped_transfer(wn[wn.len() - 1], c[c.len() - 1], wo[wo.len() - 1], p);
    } else {
        assert forall|i: int| 0 <= i < wn.len() implies matrix_stepped(
            #[trigger] wn[i],
            wo[i],
            p,
        ) by {
            lemma_stepped_transfer(wn[i], c[i], wo[i], p);
        }
    }
}

impl Brain {
    /// Structural well-formedness: one weight matrix per layer transition,
    /// every hidden layer `HIDDEN_NEURON_NUM` wide, the output layer
    /// `BRAIN_OUTPUTS` wide, and matching row widths.
    pub open spec fn wf(self) -> bool {
        &&& 1 <= self.num_hidden_layers
        &&& self.weights@.len() == self.num_hidden_layers + 1
        &&& self.hidden_layers@.len() == self.num_hidden_layers
        &&& forall|i: int|
            0 <= i < self.hidden_layers@.len() ==> (#[trigger] self.hidden_layers@[i])@.len()
                == HIDDEN_NEURON_NUM
        &&& forall|i: int|
            0 <= i < self.weights@.len() - 1 ==> matrix_shape(
                (#[trigger] self.weights@[i])@,
                HIDDEN_NEURON_NUM as int,
                if i == 0 {
                    self.num_inputs as int
                } else {
                    HIDDEN_NEURON_NUM as int
                },
            )
        &&& matrix_shape(
            self.weights@[self.weights@.len() - 1]@,
            BRAIN_OUTPUTS as int,
            HIDDEN_NEURON_NUM as int,
        )
    }

    /// Builds a fresh random brain for `num_inputs` eye readings and the
    /// requested hidden-layer count (floored at one hidden layer, so that
    /// the output layer always follows a hidden layer).
    pub fn new(num_inputs: usize, target_hidden: usize, rng: &mut rand::rngs::StdRng) -> (b: Brain)
        ensures
            b.wf(),
            b.num_inputs == num_inputs,
            b.num_hidden_layers == if target_hidden >= 1 {
                target_hidden as int
            } else {
                1
            },
            b.input@.len() == num_inputs,
            forall|i: int| 0 <= i < b.weights@.len() ==> fresh_matrix((#[trigger] b.weights@[i])@),
    {
        let layers: usize = if target_hidden >= 1 {
            target_hidden
        } else {
            1
        };
        let mut weights: Vec<Vec<Vec<i32>>> = Vec::new();
        let first = random_matrix(rng, HIDDEN_NEURON_NUM, num_inputs);
        weights.push(first);
        let mut i: usize = 1;
        while i < layers
            invariant
                1 <= i <= layers,
                weights@.len() == i,
                forall|p: int|
                    0 <= p < i ==> matrix_shape(
                        (#[trigger] weights@[p])@,
                        HIDDEN_NEURON_NUM as int,
                        if p == 0 {
                            num_inputs as int
                        } else {
                            HIDDEN_NEURON_NUM as int
                        },
                    ),
                forall|p: int| 0 <= p < i ==> fresh_matrix((#[trigger] weights@[p])@),
            decreases layers - i,
        {
            let m = random_matrix(rng, HIDDEN_NEURON_NUM, HIDDEN_NEURON_NUM);
            weights.push(m);
            i = i + 1;
        }
        let out = random_matrix(rng, BRAIN_OUTPUTS, HIDDEN_NEURON_NUM);
        weights.push(out);
        let mut hidden_layers: Vec<Vec<i32>> = Vec::new();
        let mut h: usize = 0;
        while h < layers
            invariant
                h <= layers,
                hidden_layers@.len() == h,
                forall|p: int|
                    0 <= p < h ==> (#[trigger] hidden_layers@[p])@.len() == HIDDEN_NEURON_NUM,
            decreases layers - h,
        {
            let z = zero_i32s(HIDDEN_NEURON_NUM);
            hidden_layers.push(z);
            h = h + 1;
        }
        let input = zero_i32s(num_inputs);
        Brain { input, hidden_layers, weights, num_hidden_layers: layers, num_inputs }
    }

    /// Feeds the eye readings through the network, stores the input and
    /// every hidden layer's activations, and returns the direction of the
    /// first-maximal output; the network always has exactly
    /// `BRAIN_OUTPUTS` outputs.
    pub fn process_input(&mut self, eye_data: Vec<i32>) -> (dir: Direction)
        requires
            old(self).wf(),
        ensures
            final(self).wf(),
            final(self).weights == old(self).weights,
            final(self).num_hidden_layers == old(self).num_hidden_layers,
            final(self).num_inputs == old(self).num_inputs,
            final(self).input@ == eye_data@,
            ({
                let outs = net_vals(old(self).weights@, eye_data@, old(self).weights@.len() as int);
                &&& outs.len() == BRAIN_OUTPUTS
                &&& dir == dir_of_index(argmax_first(outs, BRAIN_OUTPUTS as int))
                &&& dir != Direction::Still
            }),
            forall|i: int|
                0 <= i < final(self).num_hidden_layers ==> (
                #[trigger] final(self).hidden_layers@[i])@ == net_vals(
                    old(self).weights@,
                    eye_data@,
                    i + 1,
                ),
    {
        let mut layer_input = copy_i32s(&eye_data);
        self.input = eye_data;
        let num_layers = self.weights.len();
        let mut li: usize = 0;
        while li < num_layers
            invariant
                old(self).wf(),
                self.weights == old(self).weights,
                self.num_hidden_layers == old(self).num_hidden_layers,
                self.num_inputs == old(self).num_inputs,
                self.input@ == eye_data@,
                num_layers == self.weights@.len(),
                li <= num_layers,
                layer_input@ == net_vals(self.weights@, self.input@, li as int),
                self.hidden_layers@.len() == old(self).hidden_layers@.len(),
                forall|p: int|
                    0 <= p < li && p < self.num_hidden_layers ==> (
                    #[trigger] self.hidden_layers@[p])@ == net_vals(
                        self.weights@,
                        self.input@,
                        p + 1,
                    ),
                forall|p: int|
                    li <= p < self.hidden_layers@.len() ==> (#[trigger] self.hidden_layers@[p])@.len()
                        == HIDDEN_NEURON_NUM,
            decreases num_layers - li,
        {
            let rows = self.weights[li].len();
            let mut new_layer: Vec<i32> = Vec::new();
            let mut ni: usize = 0;
            while ni < rows
                invariant
                    li < num_layers,
                    num_layers == self.weights@.len(),
                    rows == self.weights@[li as int]@.len(),
                    ni <= rows,
                    new_layer@.len() == ni,
                    forall|q: int|
                        0 <= q < ni ==> new_layer@[q] == neuron_val(
                            (#[trigger] self.weights@[li as int]@[q])@,
                            layer_input@,
                        ),
                decreases rows - ni,
            {
                let row = &self.weights[li][ni];
                let n = if row.len() <= layer_input.len() {
                    row.len()
                } else {
                    layer_input.len()
                };
                let mut acc: i64 = 0;
                let mut k: usize = 0;
                while k < n
                    invariant
                        li < num_layers,
                        num_layers == self.weights@.len(),
                        ni < self.weights@[li as int]@.len(),
                        row == self.weights@[li as int]@[ni as int],
                        n == if row@.len() <= layer_input@.len() {
                            row@.len() as int
                        } else {
                            layer_input@.len() as int
                        },
                        k <= n,
                        acc as int == dot_clip(row@, layer_input@, k as int),
                        in_counter_range(acc as int),
                    decreases n - k,
                {
                    acc = dot_step(acc, row[k], layer_input[k]);
                    k = k + 1;
                }
                let a = squash(acc);
                new_layer.push(a);
                ni = ni + 1;
            }
            proof {
                assert(new_layer@ =~= layer_vals(self.weights@[li as int]@, layer_input@));
            }
            if li < self.hidden_layers.len() {
                let cp = copy_i32s(&new_layer);
                self.hidden_layers.set(li, cp);
            }
            layer_input = new_layer;
            li = li + 1;
        }
        let mut best: usize = 0;
        let mut bi: usize = 1;
        while bi < layer_input.len()
            invariant
                layer_input@.len() == net_vals(self.weights@, self.input@, num_layers as int).len(),
                layer_input@ == net_vals(self.weights@, self.input@, num_layers as int),
                1 <= bi <= layer_input@.len(),
                best < bi,
                best as int == argmax_first(layer_input@, bi as int),
            decreases layer_input.len() - bi,
        {
            if layer_input[bi] > layer_input[best] {
                best = bi;
            }
            bi = bi + 1;
        }
        if best == 0 {
            Direction::Up
        } else if best == 1 {
            Direction::Down
        } else if best == 2 {
            Direction::Left
        } else {
            Direction::Right
        }
    }

    /// The hidden-layer count the next generation should have, given the
    /// current one: a single step towards the target, floored at one.
    pub open spec fn stepped_layers(self, target_hidden: usize) -> int {
        let t: int = if target_hidden >= 1 {
            target_hidden as int
        } else {
            1
        };
        if t > self.num_hidden_layers {
            self.num_hidden_layers + 1
        } else if t < self.num_hidden_layers {
            self.num_hidden_layers - 1
        } else {
            self.num_hidden_layers as int
        }
    }

    /// With a fixed probability perturbs every weight by a small uniform
    /// delta; independently moves the hidden-layer count one step towards
    /// the requested one (growing inserts a fresh hidden-to-hidden matrix
    /// right after the input matrix, shrinking removes the matrix feeding
    /// the last hidden layer — the output matrix always stays).
    pub fn mutate(&mut self, target_hidden: usize, rng: &mut rand::rngs::StdRng)
        requires
            old(self).wf(),
        ensures
            final(self).wf(),
            final(self).num_inputs == old(self).num_inputs,
            final(self).num_hidden_layers == old(self).stepped_layers(target_hidden),
            ({
                let t: int = if target_hidden >= 1 {
                    target_hidden as int
                } else {
                    1
                };
                weights_evolved(
                    old(self).weights@,
                    final(self).weights@,
                    true,
                    t,
                    old(self).num_hidden_layers as int,
                ) || weights_evolved(
                    old(self).weights@,
                    final(self).weights@,
                    false,
                    t,
                    old(self).num_hidden_layers as int,
                )
            }),
    {
        let ghost mut did_perturb: bool = false;
        if rng_below(rng, 1000) < MUTATION_RATE_MILLI {
            proof {
                did_perturb = true;
            }
            let mut new_weights: Vec<Vec<Vec<i32>>> = Vec::new();
            let mut i: usize = 0;
            while i < self.weights.len()
                invariant
                    *self == *old(self),
                    i <= self.weights@.len(),
                    new_weights@.len() == i,
                    forall|p: int|
                        0 <= p < i ==> matrix_stepped(
                            #[trigger] new_weights@[p],
                            self.weights@[p],
                            true,
                        ),
                decreases self.weights@.len() - i,
            {
                let mut nm: Vec<Vec<i32>> = Vec::new();
                let mut j: usize = 0;
                while j < self.weights[i].len()
                    invariant
                        i < self.weights@.len(),
                        j <= self.weights@[i as int]@.len(),
                        nm@.len() == j,
                        forall|q: int|
                            0 <= q < j ==> (#[trigger] nm@[q])@.len()
                                == self.weights@[i as int]@[q]@.len(),
                        forall|q: int, k: int|
                            0 <= q < j && 0 <= k < self.weights@[i as int]@[q]@.len()
                                ==> weight_stepped(
                                #[trigger] nm@[q]@[k],
                                self.weights@[i as int]@[q]@[k],
                            ),
                    decreases self.weights@[i as int]@.len() - j,
                {
                    let mut nr: Vec<i32> = Vec::new();
                    let mut k: usize = 0;
                    while k < self.weights[i][j].len()
                        invariant
                            i < self.weights@.len(),
                            j < self.weights@[i as int]@.len(),
                            k <= self.weights@[i as int]@[j as int]@.len(),
                            nr@.len() == k,
                            forall|t: int|
                                0 <= t < k ==> weight_stepped(
                                    #[trigger] nr@[t],
                                    self.weights@[i as int]@[j as int]@[t],
                                ),
                        decreases self.weights@[i as int]@[j as int]@.len() - k,
                    {
                        let delta = rng_below(rng, 2 * MUTATION_RATE_MILLI) as i32
                            - MUTATION_RATE_MILLI as i32;
                        let w = sat_add_i32(self.weights[i][j][k], delta);
                        proof {
                            assert(w as int == sat_i32(
                                self.weights@[i as int]@[j as int]@[k as int] + delta,
                            ));
                            assert(weight_stepped(w, self.weights@[i as int]@[j as int]@[k as int]));
                        }
                        nr.push(w);
                        k = k + 1;
                    }
                    nm.push(nr);
                    j = j + 1;
                }
                new_weights.push(nm);
                proof {
                    assert(matrix_stepped(
                        new_weights@[i as int],
                        self.weights@[i as int],
                        true,
                    ));
                }
                i = i + 1;
            }
            self.weights = new_weights;
        }
        proof {
            assert forall|p: int| 0 <= p < self.weights@.len() implies matrix_stepped(
                #[trigger] self.weights@[p],
                old(self).weights@[p],
                did_perturb,
            ) by {
                if !did_perturb {
                    assert(self.weights@[p] == old(self).weights@[p]);
                }
            }
        }
        let ghost mid = self.weights@;
        let t: usize = if target_hidden >= 1 {
            target_hidden
        } else {
            1
        };
        if t > self.num_hidden_layers {
            let m = random_matrix(rng, HIDDEN_NEURON_NUM, HIDDEN_NEURON_NUM);
            self.weights.insert(1, m);
            let z = zero_i32s(HIDDEN_NEURON_NUM);
            self.hidden_layers.push(z);
            self.num_hidden_layers = self.num_hidden_layers + 1;
            proof {
                assert(self.weights@ == mid.insert(1, m));
                assert(weights_evolved(
                    old(self).weights@,
                    self.weights@,
                    did_perturb,
                    t as int,
                    old(self).num_hidden_layers as int,
                ));
            }
        } else if t < self.num_hidden_layers {
            let idx = self.weights.len() - 2;
            self.weights.remove(idx);
            self.hidden_layers.pop();
            self.num_hidden_layers = self.num_hidden_layers - 1;
            proof {
                assert(self.weights@ == mid.remove(idx as int));
                assert(weights_evolved(
                    old(self).weights@,
                    self.weights@,
                    did_perturb,
                    t as int,
                    old(self).num_hidden_layers as int,
                ));
            }
        } else {
            proof {
                assert(weights_evolved(
                    old(self).weights@,
                    self.weights@,
                    did_perturb,
                    t as int,
                    old(self).num_hidden_layers as int,
                ));
            }
        }
        proof {
            assert(weights_evolved(
                old(self).weights@,
                self.weights@,
                did_perturb,
                if target_hidden >= 1 {
                    target_hidden as int
                } else {
                    1
                },
                old(self).num_hidden_layers as int,
            ));
        }
    }

    /// A mutated deep copy of this brain: the generational step reuses the
    /// parent's weights as the baseline and leaves the parent untouched.
    /// The child's weights relate to the parent's exactly as one `mutate`
    /// call relates a brain to its former self: the parent itself is
    /// untouched, so the child is a fully independent clone-then-mutate.
    pub fn child_brain(&self, target_hidden: usize, rng: &mut rand::rngs::StdRng) -> (b: Brain)
        requires
            self.wf(),
        ensures
            b.wf(),
            b.num_inputs == self.num_inputs,
            b.num_hidden_layers == self.stepped_layers(target_hidden),
            ({
                let t: int = if target_hidden >= 1 {
                    target_hidden as int
                } else {
                    1
                };
                weights_evolved(
                    self.weights@,
                    b.weights@,
                    true,
                    t,
                    self.num_hidden_layers as int,
                ) || weights_evolved(
                    self.weights@,
                    b.weights@,
                    false,
                    t,
                    self.num_hidden_layers as int,
                )
            }),
    {
        let mut weights: Vec<Vec<Vec<i32>>> = Vec::new();
        let mut i: usize = 0;
        while i < self.weights.len()
            invariant
                i <= self.weights@.len(),
                weights@.len() == i,
                forall|p: int|
                    0 <= p < i ==> (#[trigger] weights@[p])@.len() == self.weights@[p]@.len(),
                forall|p: int, j: int|
                    0 <= p < i && 0 <= j < weights@[p]@.len() ==> (#[trigger] weights@[p]@[j])@
                        == self.weights@[p]@[j]@,
            decreases self.weights@.len() - i,
        {
            let m = copy_matrix(&self.weights[i]);
            weights.push(m);
            i = i + 1;
        }
        let hidden_layers = copy_matrix(&self.hidden_layers);
        let input = copy_i32s(&self.input);
        let mut b = Brain {
            input,
            hidden_layers,
            weights,
            num_hidden_layers: self.num_hidden_layers,
            num_inputs: self.num_inputs,
        };
        let ghost copied = b.weights@;
        b.mutate(target_hidden, rng);
        proof {
            let t: int = if target_hidden >= 1 {
                target_hidden as int
            } else {
                1
            };
            if weights_evolved(copied, b.weights@, true, t, self.num_hidden_layers as int) {
                lemma_evolved_transfer(
                    copied,
                    self.weights@,
                    b.weights@,
                    true,
                    t,
                    self.num_hidden_layers as int,
                );
            } else {
                lemma_evolved_transfer(
                    copied,
                    self.weights@,
                    b.weights@,
                    false,
                    t,
                    self.num_hidden_layers as int,
                );
            }
        }
        b
    }
}

} // verus!
