//! The feed-forward neural controller: levels of weights and biases with a
//! hard threshold activation, plus the random mutation operator.

use vstd::prelude::*;
use crate::fixed::{ONE, in_unit, all_in_unit, mag, scaled, scaled_mul, tdiv_ten};

verus! {

/// Widest level this crate supports; keeps every weighted sum far from
/// overflowing an `i64`.
pub const MAX_WIDTH: usize = 10000;

/// Width of the single hidden level built by `CarBrain::new`.
pub const HIDDEN_WIDTH: usize = 6;

/// Largest move a single mutation step can make: a tenth of the widest
/// possible gap between a parameter and a fresh sample, both in [-1.0, 1.0].
pub const MAX_MUTATION_STEP: i64 = 200;

/// One level of the network: a weight matrix (`weights[i][j]` connects input
/// `i` to output unit `j`), one bias per output unit, and scratch copies of
/// the last input and output vectors, overwritten by every forward pass.
pub struct Level {
    pub inputs: Vec<i64>,
    pub outputs: Vec<i64>,
    pub weights: Vec<Vec<i64>>,
    pub biases: Vec<i64>,
}

/// Whether every entry of a weight matrix lies in [-1.0, 1.0].
pub open spec fn rows_in_unit(w: Seq<Seq<i64>>) -> bool {
    forall|i: int| 0 <= i < w.len() ==> all_in_unit(#[trigger] w[i])
}

impl Level {
    /// Number of inputs this level takes.
    pub open spec fn n_in(self) -> nat {
        self.weights@.len()
    }

    /// Number of output units this level has.
    pub open spec fn n_out(self) -> nat {
        self.biases@.len()
    }

    /// Well-formedness: scratch buffers match the matrix dimensions, every
    /// row has one weight per output unit, widths are bounded, and every
    /// parameter and scratch value lies in [-1.0, 1.0].
    pub open spec fn wf(self) -> bool {
        &&& self.inputs@.len() == self.weights@.len()
        &&& self.outputs@.len() == self.biases@.len()
        &&& self.weights@.len() <= MAX_WIDTH as int
        &&& self.biases@.len() <= MAX_WIDTH as int
        &&& forall|i: int|
            0 <= i < self.weights@.len() ==> (#[trigger] self.weights@[i])@.len()
                == self.biases@.len()
        &&& rows_in_unit(self.weights.deep_view())
        &&& all_in_unit(self.biases@)
        &&& all_in_unit(self.inputs@)
        &&& all_in_unit(self.outputs@)
    }

    /// Parameters only, scratch buffers left aside: what mutation acts on
    /// and what a snapshot stores.
    pub open spec fn params(self) -> (Seq<Seq<i64>>, Seq<i64>) {
        (self.weights.deep_view(), self.biases@)
    }
}

/// The weighted sum of the first `n` inputs against column `j` of the weight
/// matrix, each product scaled back to thousandths.
pub open spec fn weighted_sum(x: Seq<i64>, w: Seq<Seq<i64>>, j: int, n: int) -> int
    decreases n,
{
    if n <= 0 {
        0
    } else {
        weighted_sum(x, w, j, n - 1) + scaled(x[n - 1] as int, w[n - 1][j] as int)
    }
}

/// The hard threshold activation: 1.0 when the sum exceeds the bias, else 0.0.
pub open spec fn unit_out(sum: int, bias: int) -> i64 {
    if sum > bias {
        1000i64
    } else {
        0i64
    }
}

/// Output of unit `j` of a level on input `x`.
pub open spec fn level_out(w: Seq<Seq<i64>>, b: Seq<i64>, x: Seq<i64>, j: int) -> i64 {
    unit_out(weighted_sum(x, w, j, x.len() as int), b[j] as int)
}

/// The whole output vector of a level on input `x`.
pub open spec fn level_out_seq(w: Seq<Seq<i64>>, b: Seq<i64>, x: Seq<i64>) -> Seq<i64> {
    Seq::new(b.len(), |j: int| level_out(w, b, x, j))
}

/// Copies a vector of fixed-point words.
pub fn copy_words(v: &Vec<i64>) -> (r: Vec<i64>)
    ensures
        r@ == v@,
{
    let mut r: Vec<i64> = Vec::new();
    let mut i: usize = 0;
    while i < v.len()
        invariant
            i <= v@.len(),
            r@ == v@.take(i as int),
        decreases v@.len() - i,
    {
        r.push(v[i]);
        proof {
            assert(r@ =~= v@.take(i + 1));
        }
        i = i + 1;
    }
    proof {
        assert(r@ =~= v@);
    }
    r
}

/// A vector of `n` zeroes.
pub fn zero_words(n: usize) -> (r: Vec<i64>)
    ensures
        r@ == zero_seq(n as nat),
{
    let mut r: Vec<i64> = Vec::new();
    let mut i: usize = 0;
    while i < n
        invariant
            i <= n,
            r@ == zero_seq(i as nat),
        decreases n - i,
    {
        r.push(0);
        proof {
            assert(r@ =~= zero_seq((i + 1) as nat));
        }
        i = i + 1;
    }
    r
}

/// The all-zero vector of length `n`.
pub open spec fn zero_seq(n: nat) -> Seq<i64> {
    Seq::new(n, |i: int| 0i64)
}

impl Level {
    /// Runs one level of the forward pass: stores the input in the scratch
    /// buffer and computes each output unit by threshold activation. The
    /// parameters are untouched.
    pub fn feed_forward(&mut self, new_inputs: &Vec<i64>)
        requires
            old(self).wf(),
            new_inputs@.len() == old(self).n_in(),
            all_in_unit(new_inputs@),
        ensures
            final(self).wf(),
            final(self).params() == old(self).params(),
            final(self).inputs@ == new_inputs@,
            final(self).outputs@ == level_out_seq(
                old(self).weights.deep_view(),
                old(self).biases@,
                new_inputs@,
            ),
    {
        let n_in = self.weights.len();
        let n_out = self.biases.len();
        let mut outputs: Vec<i64> = Vec::new();
        let mut j: usize = 0;
        while j < n_out
            invariant
                j <= n_out,
                outputs@.len() == j,
                forall|t: int|
                    0 <= t < j ==> outputs@[t] == level_out(
                        self.weights.deep_view(),
                        self.biases@,
                        new_inputs@,
                        t,
                    ),
                all_in_unit(outputs@),
            decreases n_out - j,
        {
            let mut sum: i64 = 0;
            let mut i: usize = 0;
            while i < n_in
                invariant
                    i <= n_in,
                    sum == weighted_sum(new_inputs@, self.weights.deep_view(), j as int, i as int),
                    -1000 * (i as int) <= sum <= 1000 * (i as int),
                decreases n_in - i,
            {
                proof {
                    assert(self.weights.deep_view()[i as int] == self.weights@[i as int]@);
                    assert(in_unit(self.weights@[i as int]@[j as int]));
                }
                let term = scaled_mul(new_inputs[i], self.weights[i][j]);
                sum = sum + term;
                i = i + 1;
            }
            let o: i64 = if sum > self.biases[j] {
                1000
            } else {
                0
            };
            outputs.push(o);
            j = j + 1;
        }
        self.outputs = outputs;
        self.inputs = copy_words(new_inputs);
        proof {
            assert(self.outputs@ =~= level_out_seq(
                self.weights.deep_view(),
                self.biases@,
                new_inputs@,
            ));
        }
    }
}

/// The controller: an ordered sequence of levels, the output of each fed
/// unchanged to the next.
pub struct CarBrain {
    pub levels: Vec<Level>,
}

/// Whether two levels hold the same parameters and the same scratch buffers.
pub open spec fn level_eq(a: Level, b: Level) -> bool {
    &&& a.params() == b.params()
    &&& a.inputs@ == b.inputs@
    &&& a.outputs@ == b.outputs@
}

/// Whether two controllers hold the same levels, value for value.
pub open spec fn same_brain(a: CarBrain, b: CarBrain) -> bool {
    &&& a.levels@.len() == b.levels@.len()
    &&& forall|k: int| 0 <= k < a.levels@.len() ==> level_eq(#[trigger] a.levels@[k], b.levels@[k])
}

impl CarBrain {
    /// Well-formedness: at least one level, every level well formed, and the
    /// output width of each level equal to the input width of the next.
    pub open spec fn wf(self) -> bool {
        &&& self.levels@.len() >= 1
        &&& forall|k: int| 0 <= k < self.levels@.len() ==> (#[trigger] self.levels@[k]).wf()
        &&& forall|k: int|
            0 <= k < self.levels@.len() - 1 ==> (#[trigger] self.levels@[k]).n_out()
                == self.levels@[k + 1].n_in()
    }

    /// Input width of the whole network: the first level's input width.
    pub open spec fn in_width(self) -> nat {
        self.levels@[0].n_in()
    }

    /// Output width of the whole network: the last level's output width.
    pub open spec fn out_width(self) -> nat {
        self.levels@[self.levels@.len() - 1].n_out()
    }

    /// The widths of every level, in order: the network's topology.
    pub open spec fn topology(self) -> Seq<(nat, nat)> {
        Seq::new(self.levels@.len(), |k: int| (self.levels@[k].n_in(), self.levels@[k].n_out()))
    }

    /// The parameters of every level, in order: what a snapshot stores.
    pub open spec fn params(self) -> Seq<(Seq<Seq<i64>>, Seq<i64>)> {
        Seq::new(self.levels@.len(), |k: int| self.levels@[k].params())
    }
}

/// The signal after the first `k` levels of the network have run on input `x`.
pub open spec fn chain_outputs(levels: Seq<Level>, x: Seq<i64>, k: int) -> Seq<i64>
    decreases k,
{
    if k <= 0 {
        x
    } else {
        level_out_seq(
            levels[k - 1].weights.deep_view(),
            levels[k - 1].biases@,
            chain_outputs(levels, x, k - 1),
        )
    }
}

/// The vector the first level is fed: the sensor vector itself, or the
/// all-zero vector when its width disagrees with the first level, so a
/// malformed reading never stalls a tick.
pub open spec fn forward_input(b: CarBrain, x: Seq<i64>) -> Seq<i64> {
    if x.len() == b.in_width() {
        x
    } else {
        zero_seq(b.in_width())
    }
}

/// The action vector the whole network computes on a sensor vector.
pub open spec fn spec_forward(b: CarBrain, x: Seq<i64>) -> Seq<i64> {
    chain_outputs(b.levels@, forward_input(b, x), b.levels@.len() as int)
}

impl CarBrain {
    /// Runs the full forward pass and returns the action vector; each level's
    /// scratch buffers record its last input and output. A sensor vector
    /// whose width disagrees with the first level is replaced by the all-zero
    /// vector. The parameters are untouched.
    pub fn feed_forward(&mut self, new_inputs: Vec<i64>) -> (actions: Vec<i64>)
        requires
            old(self).wf(),
            all_in_unit(new_inputs@),
        ensures
            final(self).wf(),
            final(self).topology() == old(self).topology(),
            final(self).params() == old(self).params(),
            actions@ == spec_forward(*old(self), new_inputs@),
            actions@.len() == old(self).out_width(),
            all_in_unit(actions@),
            forall|k: int|
                0 <= k < final(self).levels@.len() ==> (#[trigger] final(self).levels@[
                k
            ]).inputs@ == chain_outputs(
                old(self).levels@,
                forward_input(*old(self), new_inputs@),
                k,
            ) && final(self).levels@[k].outputs@ == chain_outputs(
                old(self).levels@,
                forward_input(*old(self), new_inputs@),
                k + 1,
            ),
    {
        let n = self.levels.len();
        let expected = self.levels[0].weights.len();
        let signal0: Vec<i64> = if new_inputs.len() == expected {
            new_inputs
        } else {
            zero_words(expected)
        };
        let ghost x0 = signal0@;
        let mut signal: Vec<i64> = signal0;
        let mut done: Vec<Level> = Vec::new();
        let mut k: usize = 0;
        while k < n
            invariant
                k <= n,
                done@.len() == k,
                self.levels@ == old(self).levels@.skip(k as int),
                forall|t: int|
                    0 <= t < k ==> (#[trigger] done@[t]).wf() && done@[t].params() == old(
                        self,
                    ).levels@[t].params() && done@[t].inputs@ == chain_outputs(
                        old(self).levels@,
                        x0,
                        t,
                    ) && done@[t].outputs@ == chain_outputs(old(self).levels@, x0, t + 1),
                signal@ == chain_outputs(old(self).levels@, x0, k as int),
                all_in_unit(signal@),
                signal@.len() == (if k == 0 {
                    old(self).in_width() as int
                } else {
                    old(self).levels@[k - 1].n_out() as int
                }),
            decreases n - k,
        {
            let mut lev: Level = self.levels.remove(0);
            proof {
                assert(lev == old(self).levels@[k as int]);
                assert(self.levels@ =~= old(self).levels@.skip(k as int + 1));
            }
            lev.feed_forward(&signal);
            signal = copy_words(&lev.outputs);
            done.push(lev);
            k = k + 1;
        }
        self.levels = done;
        proof {
            assert(self.topology() =~= old(self).topology());
            assert(self.params() =~= old(self).params());
        }
        signal
    }
}

/// Relies on rand's `thread_rng` and `Rng::gen_range`: a sample drawn
/// uniformly from the inclusive range `lo..=hi`, which panics only on an
/// empty range.
#[verifier::external_body]
fn random_in_range(lo: i64, hi: i64) -> (r: i64)
    requires
        lo <= hi,
    ensures
        lo <= r <= hi,
{
    rand::Rng::gen_range(&mut rand::thread_rng(), lo..=hi)
}

/// One mutation step: blends `a` a tenth of the way toward the fresh sample
/// `b`, rounding toward zero. The result moves by at most a tenth of the gap
/// and stays in [-1.0, 1.0].
pub fn car_lerp(a: i64, b: i64) -> (r: i64)
    requires
        in_unit(a),
        in_unit(b),
    ensures
        r == a + tdiv_ten(b - a),
        in_unit(r),
        10 * mag(r - a) <= mag(b - a),
        mag(r - a) <= MAX_MUTATION_STEP,
{
    let d: i64 = b - a;
    let step: i64 = if d >= 0 {
        d / 10
    } else {
        -((-d) / 10)
    };
    a + step
}

/// Whether `m` is `v` blended a tenth of the way toward some sample in
/// [-1.0, 1.0]: exactly what one `car_lerp` step can produce.
pub open spec fn blend_of(m: i64, v: i64) -> bool {
    exists|s: i64| in_unit(s) && m == v + #[trigger] tdiv_ten(s - v)
}

/// Whether `m` is `v` with every element moved by one mutation step: each
/// entry is one blend toward its own sample, so it stays in [-1.0, 1.0] and
/// within `MAX_MUTATION_STEP` of where it was.
pub open spec fn mutated_words(m: Seq<i64>, v: Seq<i64>) -> bool {
    &&& m.len() == v.len()
    &&& all_in_unit(m)
    &&& forall|i: int| 0 <= i < m.len() ==> mag(#[trigger] m[i] - v[i]) <= MAX_MUTATION_STEP
    &&& forall|i: int| 0 <= i < m.len() ==> blend_of(#[trigger] m[i], v[i])
}

/// Whether `m` is the weight matrix `w` with every entry moved by one
/// mutation step.
pub open spec fn mutated_rows(m: Seq<Seq<i64>>, w: Seq<Seq<i64>>) -> bool {
    &&& m.len() == w.len()
    &&& forall|i: int| 0 <= i < m.len() ==> mutated_words(#[trigger] m[i], w[i])
}

/// Blends every word of a vector toward its own fresh uniform sample.
fn mutate_words(v: &Vec<i64>) -> (r: Vec<i64>)
    requires
        all_in_unit(v@),
    ensures
        mutated_words(r@, v@),
{
    let mut r: Vec<i64> = Vec::new();
    let mut i: usize = 0;
    while i < v.len()
        invariant
            i <= v@.len(),
            r@.len() == i,
            all_in_unit(r@),
            forall|t: int| 0 <= t < i ==> mag(#[trigger] r@[t] - v@[t]) <= MAX_MUTATION_STEP,
            forall|t: int| 0 <= t < i ==> blend_of(#[trigger] r@[t], v@[t]),
        decreases v@.len() - i,
    {
        let s = random_in_range(-ONE, ONE);
        let blended = car_lerp(v[i], s);
        r.push(blended);
        proof {
            assert(in_unit(s));
            assert(blended == v@[i as int] + tdiv_ten(s - v@[i as int]));
            assert(blend_of(blended, v@[i as int]));
        }
        i = i + 1;
    }
    r
}

/// Blends every entry of a weight matrix toward its own fresh uniform sample.
fn mutate_rows(w: &Vec<Vec<i64>>) -> (r: Vec<Vec<i64>>)
    requires
        rows_in_unit(w.deep_view()),
    ensures
        mutated_rows(r.deep_view(), w.deep_view()),
        forall|i: int| 0 <= i < r@.len() ==> (#[trigger] r@[i])@.len() == w@[i]@.len(),
    {
    let mut r: Vec<Vec<i64>> = Vec::new();
    let mut i: usize = 0;
    while i < w.len()
        invariant
            i <= w@.len(),
            r@.len() == i,
            forall|t: int| 0 <= t < i ==> mutated_words((#[trigger] r@[t])@, w@[t]@),
        decreases w@.len() - i,
    {
        proof {
            lemma_rows_view(*w);
            assert(all_in_unit(w.deep_view()[i as int]));
            assert(w.deep_view()[i as int] == w@[i as int]@);
        }
        let row = mutate_words(&w[i]);
        r.push(row);
        i = i + 1;
    }
    proof {
        lemma_rows_view(r);
        lemma_rows_view(*w);
        assert(mutated_rows(r.deep_view(), w.deep_view()));
        assert forall|t: int| 0 <= t < r@.len() implies (#[trigger] r@[t])@.len() == w@[t]@.len() by {
            assert(mutated_words(r@[t]@, w@[t]@));
        }
    }
    r
}

/// Each row of the deep view of a weight matrix is the view of that row.
pub proof fn lemma_rows_view(w: Vec<Vec<i64>>)
    ensures
        w.deep_view().len() == w@.len(),
        forall|i: int| 0 <= i < w@.len() ==> #[trigger] w.deep_view()[i] == w@[i]@,
{
    assert forall|i: int| 0 <= i < w@.len() implies #[trigger] w.deep_view()[i] == w@[i]@ by {
        assert(w.deep_view()[i] =~= w@[i]@);
    }
}

/// Whether controller `m` is a mutated clone of `c`: the same topology, the
/// same scratch buffers, and every parameter one mutation step away.
pub open spec fn mutated_brain(m: CarBrain, c: CarBrain) -> bool {
    &&& m.levels@.len() == c.levels@.len()
    &&& forall|k: int|
        0 <= k < m.levels@.len() ==> mutated_level(#[trigger] m.levels@[k], c.levels@[k])
}

/// Whether level `m` is a mutated copy of level `l`.
pub open spec fn mutated_level(m: Level, l: Level) -> bool {
    &&& mutated_rows(m.weights.deep_view(), l.weights.deep_view())
    &&& mutated_words(m.biases@, l.biases@)
    &&& m.inputs@ == l.inputs@
    &&& m.outputs@ == l.outputs@
    &&& m.n_in() == l.n_in()
    &&& m.n_out() == l.n_out()
    &&& forall|i: int|
        0 <= i < m.weights@.len() ==> (#[trigger] m.weights@[i])@.len() == l.weights@[i]@.len()
}

impl CarBrain {
    /// Deep-copies the network and blends every weight and bias toward its
    /// own fresh uniform sample: the sole operator that breeds a generation.
    /// The clone's topology equals the source's and its storage is its own.
    pub fn clone_randomised(brain: &CarBrain) -> (r: CarBrain)
        requires
            brain.wf(),
        ensures
            r.wf(),
            r.topology() == brain.topology(),
            mutated_brain(r, *brain),
    {
        let n = brain.levels.len();
        let mut levels: Vec<Level> = Vec::new();
        let mut k: usize = 0;
        while k < n
            invariant
                k <= n,
                levels@.len() == k,
                forall|t: int|
                    0 <= t < k ==> mutated_level(#[trigger] levels@[t], brain.levels@[t]),
                forall|t: int| 0 <= t < k ==> (#[trigger] levels@[t]).wf(),
            decreases n - k,
        {
            let src: &Level = &brain.levels[k];
            let lev = Level {
                weights: mutate_rows(&src.weights),
                biases: mutate_words(&src.biases),
                inputs: copy_words(&src.inputs),
                outputs: copy_words(&src.outputs),
            };
            levels.push(lev);
            k = k + 1;
        }
        let r = CarBrain { levels };
        proof {
            assert(r.topology() =~= brain.topology());
        }
        r
    }

    /// Blends every parameter of this network toward its own fresh uniform
    /// sample, in place; the topology and the scratch buffers are untouched.
    pub fn mutate_random(&mut self)
        requires
            old(self).wf(),
        ensures
            final(self).wf(),
            final(self).topology() == old(self).topology(),
            mutated_brain(*final(self), *old(self)),
    {
        let m = Self::clone_randomised(self);
        *self = m;
    }
}

/// Builds a vector of `n` samples drawn uniformly from [0, 1.0].
fn random_words(n: usize) -> (r: Vec<i64>)
    ensures
        r@.len() == n,
        all_in_unit(r@),
        forall|i: int| 0 <= i < n ==> 0 <= #[trigger] r@[i],
{
    let mut r: Vec<i64> = Vec::new();
    let mut i: usize = 0;
    while i < n
        invariant
            i <= n,
            r@.len() == i,
            all_in_unit(r@),
            forall|t: int| 0 <= t < i ==> 0 <= #[trigger] r@[t],
        decreases n - i,
    {
        r.push(random_in_range(0, ONE));
        i = i + 1;
    }
    r
}

impl Level {
    /// Builds a level of the given widths with weights and biases drawn
    /// uniformly from [0, 1.0] and zeroed scratch buffers.
    pub fn new(n_in: usize, n_out: usize) -> (l: Level)
        requires
            n_in <= MAX_WIDTH,
            n_out <= MAX_WIDTH,
        ensures
            l.wf(),
            l.n_in() == n_in,
            l.n_out() == n_out,
            l.inputs@ == zero_seq(n_in as nat),
            l.outputs@ == zero_seq(n_out as nat),
            forall|i: int, j: int|
                0 <= i < n_in && 0 <= j < n_out ==> 0 <= #[trigger] l.weights@[i]@[j],
            forall|j: int| 0 <= j < n_out ==> 0 <= #[trigger] l.biases@[j],
    {
        let mut weights: Vec<Vec<i64>> = Vec::new();
        let mut i: usize = 0;
        while i < n_in
            invariant
                i <= n_in,
                weights@.len() == i,
                forall|t: int| 0 <= t < i ==> (#[trigger] weights@[t])@.len() == n_out,
                forall|t: int| 0 <= t < i ==> all_in_unit((#[trigger] weights@[t])@),
                forall|t: int, j: int|
                    0 <= t < i && 0 <= j < n_out ==> 0 <= #[trigger] weights@[t]@[j],
            decreases n_in - i,
        {
            let row = random_words(n_out);
            weights.push(row);
            i = i + 1;
        }
        proof {
            lemma_rows_view(weights);
            assert(rows_in_unit(weights.deep_view()));
        }
        Level { inputs: zero_words(n_in), outputs: zero_words(n_out), weights, biases: random_words(n_out) }
    }
}

impl CarBrain {
    /// Builds a fresh two-level controller: the sensor width in, a hidden
    /// level of `HIDDEN_WIDTH` units, and the action width out, all
    /// parameters drawn uniformly from [0, 1.0].
    pub fn new(sensor_count: usize, action_count: usize) -> (b: CarBrain)
        requires
            sensor_count <= MAX_WIDTH,
            action_count <= MAX_WIDTH,
        ensures
            b.wf(),
            b.in_width() == sensor_count,
            b.out_width() == action_count,
            b.topology() == seq![(sensor_count as nat, HIDDEN_WIDTH as nat), (HIDDEN_WIDTH as nat, action_count as nat)],
            forall|k: int|
                0 <= k < b.levels@.len() ==> (#[trigger] b.levels@[k]).inputs@ == zero_seq(
                    b.levels@[k].n_in(),
                ) && b.levels@[k].outputs@ == zero_seq(b.levels@[k].n_out()),
    {
        let ins = Level::new(sensor_count, HIDDEN_WIDTH);
        let hidden = Level::new(HIDDEN_WIDTH, action_count);
        let mut levels: Vec<Level> = Vec::new();
        levels.push(ins);
        levels.push(hidden);
        let b = CarBrain { levels };
        proof {
            assert(b.topology() =~= seq![
                (sensor_count as nat, HIDDEN_WIDTH as nat),
                (HIDDEN_WIDTH as nat, action_count as nat),
            ]);
        }
        b
    }
}

/// The signal after `k` levels depends only on the levels' parameters.
proof fn lemma_chain_params_only(la: Seq<Level>, lb: Seq<Level>, x: Seq<i64>, k: int)
    requires
        la.len() == lb.len(),
        forall|t: int| 0 <= t < la.len() ==> (#[trigger] la[t]).params() == lb[t].params(),
        k <= la.len(),
    ensures
        chain_outputs(la, x, k) == chain_outputs(lb, x, k),
    decreases k,
{
    if k > 0 {
        lemma_chain_params_only(la, lb, x, k - 1);
        assert(la[k - 1].weights.deep_view() == lb[k - 1].weights.deep_view());
        assert(la[k - 1].biases@ == lb[k - 1].biases@);
    }
}

/// Forward-pass determinism: the action vector is a pure function of the
/// controller's parameters and the sensor vector — the scratch buffers play
/// no part. A pass leaves the parameters untouched, so repeated passes over
/// one controller, or over any copy of it, give identical outputs.
pub proof fn lemma_forward_deterministic(a: CarBrain, b: CarBrain, x: Seq<i64>)
    requires
        a.params() == b.params(),
        a.levels@.len() == b.levels@.len(),
        a.levels@.len() >= 1,
    ensures
        spec_forward(a, x) == spec_forward(b, x),
{
    assert forall|t: int| 0 <= t < a.levels@.len() implies (#[trigger] a.levels@[t]).params()
        == b.levels@[t].params() by {
        assert(a.params()[t] == a.levels@[t].params());
        assert(b.params()[t] == b.levels@[t].params());
    }
    lemma_rows_view(a.levels@[0].weights);
    lemma_rows_view(b.levels@[0].weights);
    assert(a.in_width() == b.in_width());
    lemma_chain_params_only(a.levels@, b.levels@, x, a.levels@.len() as int);
    lemma_chain_params_only(
        a.levels@,
        b.levels@,
        zero_seq(a.in_width()),
        a.levels@.len() as int,
    );
}

/// Layer-width invariant: in a well-formed controller the output width of
/// every level equals the input width of the one after it.
pub proof fn lemma_layer_widths(b: CarBrain, k: int)
    requires
        b.wf(),
        0 <= k < b.levels@.len() - 1,
    ensures
        b.levels@[k].n_out() == b.levels@[k + 1].n_in(),
{
}

/// Copies a weight matrix.
pub fn copy_rows(w: &Vec<Vec<i64>>) -> (r: Vec<Vec<i64>>)
    ensures
        r@.len() == w@.len(),
        r.deep_view() == w.deep_view(),
        forall|i: int| 0 <= i < w@.len() ==> (#[trigger] r@[i])@ == w@[i]@,
{
    let mut r: Vec<Vec<i64>> = Vec::new();
    let mut i: usize = 0;
    while i < w.len()
        invariant
            i <= w@.len(),
            r@.len() == i,
            forall|t: int| 0 <= t < i ==> (#[trigger] r@[t])@ == w@[t]@,
        decreases w@.len() - i,
    {
        let row = copy_words(&w[i]);
        r.push(row);
        i = i + 1;
    }
    proof {
        lemma_rows_view(r);
        lemma_rows_view(*w);
        assert(r.deep_view() =~= w.deep_view());
    }
    r
}

/// Whether `s` is `b` with its scratch buffers zeroed: the sanitized copy a
/// snapshot persists.
pub open spec fn sanitized_of(s: CarBrain, b: CarBrain) -> bool {
    &&& s.levels@.len() == b.levels@.len()
    &&& s.params() == b.params()
    &&& forall|k: int|
        0 <= k < s.levels@.len() ==> (#[trigger] s.levels@[k]).inputs@ == zero_seq(
            s.levels@[k].n_in(),
        ) && s.levels@[k].outputs@ == zero_seq(s.levels@[k].n_out())
}

impl CarBrain {
    /// Copies this controller, value for value, into fresh storage.
    pub fn duplicate(&self) -> (r: CarBrain)
        requires
            self.wf(),
        ensures
            r.wf(),
            same_brain(r, *self),
            r.topology() == self.topology(),
            r.params() == self.params(),
    {
        let n = self.levels.len();
        let mut levels: Vec<Level> = Vec::new();
        let mut k: usize = 0;
        while k < n
            invariant
                k <= n,
                levels@.len() == k,
                forall|t: int| 0 <= t < k ==> level_eq(#[trigger] levels@[t], self.levels@[t]),
                forall|t: int| 0 <= t < k ==> (#[trigger] levels@[t]).wf(),
                forall|t: int|
                    0 <= t < k ==> (#[trigger] levels@[t]).n_in() == self.levels@[t].n_in()
                        && levels@[t].n_out() == self.levels@[t].n_out(),
            decreases n - k,
        {
            let src: &Level = &self.levels[k];
            let lev = Level {
                weights: copy_rows(&src.weights),
                biases: copy_words(&src.biases),
                inputs: copy_words(&src.inputs),
                outputs: copy_words(&src.outputs),
            };
            levels.push(lev);
            k = k + 1;
        }
        let r = CarBrain { levels };
        proof {
            assert(r.topology() =~= self.topology());
            assert(r.params() =~= self.params());
        }
        r
    }

    /// Copies this controller with its scratch input and output buffers
    /// zeroed: the form a snapshot persists.
    pub fn sanitized(&self) -> (r: CarBrain)
        requires
            self.wf(),
        ensures
            r.wf(),
            sanitized_of(r, *self),
            r.topology() == self.topology(),
    {
        let n = self.levels.len();
        let mut levels: Vec<Level> = Vec::new();
        let mut k: usize = 0;
        while k < n
            invariant
                k <= n,
                levels@.len() == k,
                forall|t: int|
                    0 <= t < k ==> (#[trigger] levels@[t]).params() == self.levels@[t].params(),
                forall|t: int|
                    0 <= t < k ==> (#[trigger] levels@[t]).n_in() == self.levels@[t].n_in()
                        && levels@[t].n_out() == self.levels@[t].n_out(),
                forall|t: int|
                    0 <= t < k ==> (#[trigger] levels@[t]).inputs@ == zero_seq(
                        levels@[t].n_in(),
                    ) && levels@[t].outputs@ == zero_seq(levels@[t].n_out()),
                forall|t: int| 0 <= t < k ==> (#[trigger] levels@[t]).wf(),
            decreases n - k,
        {
            let src: &Level = &self.levels[k];
            let n_in = src.weights.len();
            let n_out = src.biases.len();
            let lev = Level {
                weights: copy_rows(&src.weights),
                biases: copy_words(&src.biases),
                inputs: zero_words(n_in),
                outputs: zero_words(n_out),
            };
            levels.push(lev);
            k = k + 1;
        }
        let r = CarBrain { levels };
        proof {
            assert(r.topology() =~= self.topology());
            assert(r.params() =~= self.params());
        }
        r
    }
}

/// A mutated clone of one controller is a mutated clone of any controller
/// holding the same levels.
pub proof fn lemma_mutated_transfer(m: CarBrain, a: CarBrain, b: CarBrain)
    requires
        mutated_brain(m, a),
        same_brain(a, b),
    ensures
        mutated_brain(m, b),
{
    assert forall|k: int| 0 <= k < m.levels@.len() implies mutated_level(
        #[trigger] m.levels@[k],
        b.levels@[k],
    ) by {
        let ml = m.levels@[k];
        let al = a.levels@[k];
        let bl = b.levels@[k];
        assert(mutated_level(ml, al));
        assert(level_eq(al, bl));
        lemma_rows_view(al.weights);
        lemma_rows_view(bl.weights);
        assert(al.weights.deep_view() == bl.weights.deep_view());
        assert(al.weights@.len() == bl.weights@.len());
        assert forall|i: int| 0 <= i < ml.weights@.len() implies (#[trigger] ml.weights@[i])@.len()
            == bl.weights@[i]@.len() by {
            assert(ml.weights@[i]@.len() == al.weights@[i]@.len());
            assert(al.weights@[i]@ == al.weights.deep_view()[i]);
            assert(bl.weights@[i]@ == bl.weights.deep_view()[i]);
        }
    }
}

/// Holding the same levels also means holding the same parameters.
pub proof fn lemma_same_brain_params(a: CarBrain, b: CarBrain)
    requires
        same_brain(a, b),
    ensures
        a.params() == b.params(),
        a.topology() == b.topology(),
{
    assert forall|k: int| 0 <= k < a.levels@.len() implies (#[trigger] a.levels@[k]).n_in()
        == b.levels@[k].n_in() && a.levels@[k].n_out() == b.levels@[k].n_out() by {
        assert(level_eq(a.levels@[k], b.levels@[k]));
        assert(a.levels@[k].weights.deep_view().len() == a.levels@[k].weights@.len());
        assert(b.levels@[k].weights.deep_view().len() == b.levels@[k].weights@.len());
    }
    assert(a.params() =~= b.params());
    assert(a.topology() =~= b.topology());
}


/// Holding the same levels is transitive.
pub proof fn lemma_same_brain_trans(a: CarBrain, b: CarBrain, c: CarBrain)
    requires
        same_brain(a, b),
        same_brain(b, c),
    ensures
        same_brain(a, c),
{
    assert forall|k: int| 0 <= k < a.levels@.len() implies level_eq(
        #[trigger] a.levels@[k],
        c.levels@[k],
    ) by {
        assert(level_eq(a.levels@[k], b.levels@[k]));
        assert(level_eq(b.levels@[k], c.levels@[k]));
    }
}

/// What one sensor hit contributes to the input vector: a missing hit (no
/// obstacle within range) becomes the -1.0 sentinel, a reading is clamped
/// into [0, 1.0].
pub open spec fn sensor_value(h: Option<i64>) -> i64 {
    match h {
        None => -1000i64,
        Some(d) => if d < 0 {
            0i64
        } else if d > 1000 {
            1000i64
        } else {
            d
        },
    }
}

/// The whole input vector a set of sensor hits yields.
pub open spec fn sensor_inputs(hits: Seq<Option<i64>>) -> Seq<i64> {
    Seq::new(hits.len(), |i: int| sensor_value(hits[i]))
}

/// Turns one agent's sensor hits into a clamped input vector.
pub fn collect_inputs(hits: &Vec<Option<i64>>) -> (r: Vec<i64>)
    ensures
        r@ == sensor_inputs(hits@),
        all_in_unit(r@),
{
    let mut r: Vec<i64> = Vec::new();
    let mut i: usize = 0;
    while i < hits.len()
        invariant
            i <= hits@.len(),
            r@.len() == i,
            forall|t: int| 0 <= t < i ==> r@[t] == sensor_value(#[trigger] hits@[t]),
            all_in_unit(r@),
        decreases hits@.len() - i,
    {
        let v: i64 = match hits[i] {
            None => -1000,
            Some(d) => if d < 0 {
                0
            } else if d > 1000 {
                1000
            } else {
                d
            },
        };
        r.push(v);
        i = i + 1;
    }
    proof {
        assert(r@ =~= sensor_inputs(hits@));
    }
    r
}

/// Whether `newc` is `oldc` after its controller drove it on input `x`: the
/// four raw outputs set throttle, brake and the signed steering
/// (right minus left), the parameters are untouched, and nothing else moves.
pub open spec fn steered_rel(newc: crate::car::Car, oldc: crate::car::Car, x: Seq<i64>) -> bool {
    let out = spec_forward(oldc.brain, x);
    &&& newc.brain.wf()
    &&& newc.brain.params() == oldc.brain.params()
    &&& newc.brain.topology() == oldc.brain.topology()
    &&& newc.gas == out[0]
    &&& newc.brake == out[1]
    &&& newc.steering == out[3] - out[2]
    &&& newc == (crate::car::Car {
        brain: newc.brain,
        gas: newc.gas,
        brake: newc.brake,
        steering: newc.steering,
        ..oldc
    })
}

/// One control tick over the population: for each agent whose control is
/// enabled, clamp its sensor hits into an input vector, run its controller,
/// and map the four raw outputs to throttle, brake and signed steering. An
/// agent with control disabled is left alone.
pub fn car_brain_system(cars: &mut Vec<crate::car::Car>, hits: &Vec<Vec<Option<i64>>>)
    requires
        old(cars)@.len() == hits@.len(),
        forall|i: int| 0 <= i < old(cars)@.len() ==> (#[trigger] old(cars)@[i]).wf(),
        forall|i: int|
            0 <= i < old(cars)@.len() ==> (#[trigger] old(cars)@[i]).brain.out_width() == 4,
    ensures
        final(cars)@.len() == old(cars)@.len(),
        forall|i: int|
            0 <= i < old(cars)@.len() ==> if old(cars)@[i].use_brain {
                steered_rel(#[trigger] final(cars)@[i], old(cars)@[i], sensor_inputs(hits@[i]@))
            } else {
                final(cars)@[i] == old(cars)@[i]
            },
        forall|i: int| 0 <= i < final(cars)@.len() ==> (#[trigger] final(cars)@[i]).wf(),
{
    let n = cars.len();
    let mut done: Vec<crate::car::Car> = Vec::new();
    let mut k: usize = 0;
    while k < n
        invariant
            k <= n,
            done@.len() == k,
            cars@ == old(cars)@.skip(k as int),
            forall|i: int|
                0 <= i < k ==> if old(cars)@[i].use_brain {
                    steered_rel(#[trigger] done@[i], old(cars)@[i], sensor_inputs(hits@[i]@))
                } else {
                    done@[i] == old(cars)@[i]
                },
            forall|i: int| 0 <= i < k ==> (#[trigger] done@[i]).wf(),
        decreases n - k,
    {
        let mut c: crate::car::Car = cars.remove(0);
        proof {
            assert(c == old(cars)@[k as int]);
            assert(cars@ =~= old(cars)@.skip(k as int + 1));
        }
        if c.use_brain {
            let inputs = collect_inputs(&hits[k]);
            let out = c.brain.feed_forward(inputs);
            c.gas = out[0];
            c.brake = out[1];
            c.steering = -out[2] + out[3];
        }
        done.push(c);
        k = k + 1;
    }
    *cars = done;
}

/// A click has picked one agent: its controller is handed back to be
/// persisted as it stands, and every agent's controller is replaced by a
/// fresh mutated clone of it, with every agent put back at the configured
/// spawn pose. Nothing else moves. Without a pick, nothing happens.
pub fn cars_pick_brain_mutate_restart(
    cars: &mut Vec<crate::car::Car>,
    selected: Option<usize>,
    config: &crate::config::Config,
) -> (saved: Option<CarBrain>)
    requires
        forall|i: int| 0 <= i < old(cars)@.len() ==> (#[trigger] old(cars)@[i]).wf(),
        match selected {
            Some(sel) => sel < old(cars)@.len(),
            None => true,
        },
    ensures
        final(cars)@.len() == old(cars)@.len(),
        selected is None ==> final(cars)@ == old(cars)@ && saved is None,
        match selected {
            Some(sel) => {
                &&& (saved matches Some(b) && same_brain(b, old(cars)@[sel as int].brain))
                &&& forall|i: int|
                    0 <= i < old(cars)@.len() ==> {
                        &&& (#[trigger] final(cars)@[i]).brain.wf()
                        &&& mutated_brain(final(cars)@[i].brain, old(cars)@[sel as int].brain)
                        &&& final(cars)@[i] == (crate::car::Car {
                            brain: final(cars)@[i].brain,
                            transform: config.spawn_pose(),
                            ..old(cars)@[i]
                        })
                    }
            },
            None => true,
        },
        forall|i: int| 0 <= i < final(cars)@.len() ==> (#[trigger] final(cars)@[i]).wf(),
{
    let sel: usize = match selected {
        None => {
            return None;
        },
        Some(s) => s,
    };
    let chosen: CarBrain = cars[sel].brain.duplicate();
    let n = cars.len();
    let mut done: Vec<crate::car::Car> = Vec::new();
    let mut k: usize = 0;
    while k < n
        invariant
            k <= n,
            done@.len() == k,
            cars@ == old(cars)@.skip(k as int),
            chosen.wf(),
            same_brain(chosen, old(cars)@[sel as int].brain),
            forall|i: int|
                0 <= i < k ==> {
                    &&& (#[trigger] done@[i]).brain.wf()
                    &&& mutated_brain(done@[i].brain, old(cars)@[sel as int].brain)
                    &&& done@[i] == (crate::car::Car {
                        brain: done@[i].brain,
                        transform: config.spawn_pose(),
                        ..old(cars)@[i]
                    })
                },
            forall|i: int| 0 <= i < k ==> (#[trigger] done@[i]).wf(),
        decreases n - k,
    {
        let mut c: crate::car::Car = cars.remove(0);
        proof {
            assert(c == old(cars)@[k as int]);
            assert(cars@ =~= old(cars)@.skip(k as int + 1));
        }
        c.brain = CarBrain::clone_randomised(&chosen);
        c.transform = crate::car::Pose { translation: config.translation, rotation: config.quat };
        proof {
            lemma_mutated_transfer(c.brain, chosen, old(cars)@[sel as int].brain);
        }
        done.push(c);
        k = k + 1;
    }
    *cars = done;
    Some(chosen)
}

/// The controller a freshly spawned agent starts from: a mutated clone of
/// the loaded snapshot when one exists, else a fresh random network of the
/// configured widths.
pub fn initial_brain(saved: &Option<CarBrain>, sensor_count: usize, action_count: usize) -> (b: CarBrain)
    requires
        sensor_count <= MAX_WIDTH,
        action_count <= MAX_WIDTH,
        (saved matches Some(s) ==> s.wf()),
    ensures
        b.wf(),
        match saved {
            Some(s) => b.topology() == s.topology() && mutated_brain(b, *s),
            None => b.topology() == seq![
                (sensor_count as nat, HIDDEN_WIDTH as nat),
                (HIDDEN_WIDTH as nat, action_count as nat),
            ],
        },
{
    match saved {
        Some(s) => CarBrain::clone_randomised(s),
        None => CarBrain::new(sensor_count, action_count),
    }
}

} // verus!
