//! Mini-batch training: how a batch is cut into chunks for the workers, and
//! how the workers' gradients become one update.
use vstd::prelude::*;
use vstd::arithmetic::div_mod::{lemma_fundamental_div_mod, lemma_fundamental_div_mod_converse};
use crate::activation::Activation;
use crate::gradients::{
    lemma_add_shaped, lemma_gradients_add_associative, lemma_gradients_zero_add, lemma_zero_shaped,
    Gradients, GradientsModel,
};
use crate::network::{Network, NetworkModel};
use crate::scalar::{add_is_associative, zero_is_left_identity, Scalar};

verus! {

/// The number of workers that a batch of `batch >= 1` samples is cut for:
/// `workers`, but at least one and at most one per sample.
pub open spec fn effective_workers(batch: int, workers: int) -> int {
    let at_least_one = if workers < 1 {
        1
    } else {
        workers
    };
    if at_least_one > batch {
        batch
    } else {
        at_least_one
    }
}

/// The length of every chunk but the last: `batch / workers`, rounded up.
pub open spec fn chunk_size(batch: int, workers: int) -> int {
    let e = effective_workers(batch, workers);
    (batch + e - 1) / e
}

/// The number of chunks: `batch / chunk_size`, rounded up; none for an empty
/// batch.
pub open spec fn chunk_count(batch: int, workers: int) -> int {
    if batch <= 0 {
        0
    } else {
        let c = chunk_size(batch, workers);
        (batch + c - 1) / c
    }
}

/// The index of the first sample of chunk `t`.
pub open spec fn chunk_start(batch: int, workers: int, t: int) -> int {
    t * chunk_size(batch, workers)
}

/// The index after the last sample of chunk `t`.
pub open spec fn chunk_end(batch: int, workers: int, t: int) -> int {
    let end = (t + 1) * chunk_size(batch, workers);
    if end > batch {
        batch
    } else {
        end
    }
}

/// Chunk `t` exists and holds the sample `s`.
pub open spec fn covers(batch: int, workers: int, t: int, s: int) -> bool {
    &&& 0 <= t < chunk_count(batch, workers)
    &&& chunk_start(batch, workers, t) <= s < chunk_end(batch, workers, t)
}

/// Rounding `b / c` up gives the least `n` with `n * c >= b`.
proof fn lemma_round_up(b: int, c: int)
    requires
        b >= 1,
        c >= 1,
    ensures
        (b + c - 1) / c >= 1,
        ((b + c - 1) / c) * c >= b,
        ((b + c - 1) / c - 1) * c < b,
{
    let n = (b + c - 1) / c;
    let r = (b + c - 1) % c;
    lemma_fundamental_div_mod(b + c - 1, c);
    assert(0 <= r < c);
    assert(b + c - 1 == c * n + r);
    assert(n * c == c * n && (n - 1) * c == c * n - c) by (nonlinear_arith);
    assert(n >= 1) by (nonlinear_arith)
        requires
            c * n + r >= c,
            0 <= r < c,
            c >= 1,
    ;
}

/// The least `n` with `n * c >= b` is `b / c` rounded up.
proof fn lemma_round_up_unique(b: int, c: int, t: int)
    requires
        b >= 1,
        c >= 1,
        t * c >= b,
        (t - 1) * c < b,
    ensures
        t == (b + c - 1) / c,
{
    let n = (b + c - 1) / c;
    lemma_round_up(b, c);
    assert(t <= n) by (nonlinear_arith)
        requires
            (t - 1) * c < b,
            n * c >= b,
            c >= 1,
    ;
    assert(n <= t) by (nonlinear_arith)
        requires
            (n - 1) * c < b,
            t * c >= b,
            c >= 1,
    ;
}

/// Rounding up can be computed without the sum `b + e - 1`.
proof fn lemma_round_up_split(b: int, e: int)
    requires
        b >= 0,
        e >= 1,
    ensures
        (b + e - 1) / e == b / e + (if b % e == 0 {
            0int
        } else {
            1int
        }),
{
    let q = b / e;
    let r = b % e;
    lemma_fundamental_div_mod(b, e);
    if r == 0 {
        assert(b + e - 1 == q * e + (e - 1)) by (nonlinear_arith)
            requires
                b == e * q + r,
                r == 0,
        ;
        lemma_fundamental_div_mod_converse(b + e - 1, e, q, e - 1);
    } else {
        assert(b + e - 1 == (q + 1) * e + (r - 1)) by (nonlinear_arith)
            requires
                b == e * q + r,
        ;
        lemma_fundamental_div_mod_converse(b + e - 1, e, q + 1, r - 1);
    }
}

/// What the chunk length and the chunk count are to each other and to the
/// number of workers, for a batch that is not empty.
pub proof fn lemma_chunk_facts(batch: int, workers: int)
    requires
        batch >= 1,
    ensures
        1 <= effective_workers(batch, workers) <= batch,
        1 <= chunk_size(batch, workers) <= batch,
        1 <= chunk_count(batch, workers) <= effective_workers(batch, workers),
        chunk_count(batch, workers) * chunk_size(batch, workers) >= batch,
        (chunk_count(batch, workers) - 1) * chunk_size(batch, workers) < batch,
{
    let e = effective_workers(batch, workers);
    let c = chunk_size(batch, workers);
    let n = chunk_count(batch, workers);
    lemma_round_up(batch, e);
    assert(c <= batch) by (nonlinear_arith)
        requires
            (c - 1) * e < batch,
            e >= 1,
            c >= 1,
    ;
    lemma_round_up(batch, c);
    assert(n <= e) by (nonlinear_arith)
        requires
            (n - 1) * c < batch,
            c * e >= batch,
            c >= 1,
    ;
}

/// No gap: every sample of the batch lies in a chunk, namely in chunk
/// `s / chunk_size`.
pub proof fn lemma_partition_covers(batch: int, workers: int, s: int)
    requires
        0 <= s < batch,
    ensures
        covers(batch, workers, s / chunk_size(batch, workers), s),
        exists|t: int| covers(batch, workers, t, s),
{
    let c = chunk_size(batch, workers);
    let n = chunk_count(batch, workers);
    let t = s / c;
    lemma_chunk_facts(batch, workers);
    lemma_fundamental_div_mod(s, c);
    assert(t * c <= s < (t + 1) * c) by (nonlinear_arith)
        requires
            s == c * t + s % c,
            0 <= s % c < c,
    ;
    assert(0 <= t < n) by (nonlinear_arith)
        requires
            t * c <= s,
            s < batch,
            0 <= s,
            s < (t + 1) * c,
            n * c >= batch,
            c >= 1,
    ;
    assert(covers(batch, workers, t, s));
}

/// No overlap: a sample lies in one chunk only.
pub proof fn lemma_partition_disjoint(batch: int, workers: int, t1: int, t2: int, s: int)
    requires
        covers(batch, workers, t1, s),
        covers(batch, workers, t2, s),
    ensures
        t1 == t2,
{
    let c = chunk_size(batch, workers);
    lemma_chunk_facts(batch, workers);
    assert(t1 == t2) by (nonlinear_arith)
        requires
            t1 * c <= s < (t1 + 1) * c,
            t2 * c <= s < (t2 + 1) * c,
            c >= 1,
    ;
}

/// Nothing else: a chunk holds samples of the batch only, is not empty, and
/// begins where the chunk before it ends; the first begins at 0 and the
/// last ends with the batch.
pub proof fn lemma_partition_contiguous(batch: int, workers: int, t: int)
    requires
        0 <= t < chunk_count(batch, workers),
    ensures
        0 <= chunk_start(batch, workers, t) < chunk_end(batch, workers, t) <= batch,
        chunk_end(batch, workers, t) - chunk_start(batch, workers, t) <= chunk_size(batch, workers),
        chunk_start(batch, workers, 0) == 0,
        t + 1 < chunk_count(batch, workers) ==> chunk_end(batch, workers, t) == chunk_start(
            batch,
            workers,
            t + 1,
        ),
        t + 1 == chunk_count(batch, workers) ==> chunk_end(batch, workers, t) == batch,
{
    let c = chunk_size(batch, workers);
    let n = chunk_count(batch, workers);
    lemma_chunk_facts(batch, workers);
    assert(0 <= t * c && t * c < batch && (t + 1) * c == t * c + c) by (nonlinear_arith)
        requires
            0 <= t < n,
            (n - 1) * c < batch,
            c >= 1,
    ;
    if t + 1 < n {
        assert((t + 1) * c < batch) by (nonlinear_arith)
            requires
                t + 1 <= n - 1,
                (n - 1) * c < batch,
                c >= 1,
        ;
    } else {
        assert((t + 1) * c >= batch);
    }
}

/// Cuts a batch of `batch_size` samples into contiguous chunks for at most
/// `num_threads` workers, as pairs of a first index and the index after the
/// last. An empty batch has no chunk.
pub fn partition(batch_size: usize, num_threads: usize) -> (plan: Vec<(usize, usize)>)
    ensures
        plan@.len() == chunk_count(batch_size as int, num_threads as int),
        batch_size > 0 ==> plan@.len() <= effective_workers(batch_size as int, num_threads as int),
        forall|t: int|
            0 <= t < plan@.len() ==> (#[trigger] plan@[t]).0 == chunk_start(
                batch_size as int,
                num_threads as int,
                t,
            ) && plan@[t].1 == chunk_end(batch_size as int, num_threads as int, t),
{
    let mut plan: Vec<(usize, usize)> = Vec::new();
    if batch_size == 0 {
        return plan;
    }
    let at_least_one: usize = if num_threads < 1 {
        1
    } else {
        num_threads
    };
    let threads: usize = if at_least_one > batch_size {
        batch_size
    } else {
        at_least_one
    };
    let ghost b = batch_size as int;
    let ghost w = num_threads as int;
    let whole: usize = batch_size / threads;
    let extra: usize = if batch_size % threads == 0 {
        0
    } else {
        1
    };
    proof {
        lemma_chunk_facts(b, w);
        lemma_round_up_split(b, threads as int);
    }
    let per_chunk: usize = whole + extra;
    let mut start: usize = 0;
    proof {
        assert(0 * per_chunk == 0) by (nonlinear_arith);
    }
    while start < batch_size
        invariant
            b == batch_size,
            w == num_threads,
            b >= 1,
            per_chunk == chunk_size(b, w),
            per_chunk >= 1,
            start <= batch_size,
            start < batch_size ==> start == plan@.len() * per_chunk,
            start == batch_size ==> plan@.len() * per_chunk >= b,
            plan@.len() == 0 || (plan@.len() - 1) * per_chunk < b,
            forall|t: int|
                0 <= t < plan@.len() ==> (#[trigger] plan@[t]).0 == chunk_start(b, w, t) && plan@[t].1
                    == chunk_end(b, w, t),
        decreases batch_size - start,
    {
        let ghost t = plan@.len() as int;
        let end: usize = if batch_size - start <= per_chunk {
            batch_size
        } else {
            start + per_chunk
        };
        proof {
            assert((t + 1) * per_chunk == t * per_chunk + per_chunk) by (nonlinear_arith);
        }
        plan.push((start, end));
        start = end;
    }
    proof {
        lemma_round_up_unique(b, per_chunk as int, plan@.len() as int);
    }
    plan
}

/// There is a target for each input, and every sample has one entry for
/// each unit of the input layer and of the output layer.
pub open spec fn samples_fit<S>(layers: Seq<usize>, inputs: Seq<Vec<S>>, targets: Seq<Vec<S>>) -> bool {
    &&& inputs.len() == targets.len()
    &&& forall|k: int| 0 <= k < inputs.len() ==> (#[trigger] inputs[k])@.len() == layers[0]
    &&& forall|k: int|
        0 <= k < targets.len() ==> (#[trigger] targets[k])@.len() == layers[layers.len() - 1]
}

/// The values of a list of accumulators.
pub open spec fn part_models<S: Scalar>(parts: Seq<Gradients<S>>) -> Seq<GradientsModel<S>> {
    Seq::new(parts.len(), |p: int| parts[p]@)
}

impl<S: Scalar, A: Activation<S>> NetworkModel<S, A> {
    /// The gradients of the samples `start..end`, added in that order to the
    /// zero accumulator.
    pub open spec fn chunk_gradients(
        self,
        inputs: Seq<Vec<S>>,
        targets: Seq<Vec<S>>,
        start: int,
        end: int,
    ) -> GradientsModel<S>
        decreases end - start,
    {
        if end <= start {
            GradientsModel::zero(self.layers)
        } else {
            self.accumulate_sample(
                self.chunk_gradients(inputs, targets, start, end - 1),
                inputs[end - 1]@,
                targets[end - 1]@,
            )
        }
    }

    /// What each worker hands back: the gradients of its chunk.
    pub open spec fn worker_parts(
        self,
        inputs: Seq<Vec<S>>,
        targets: Seq<Vec<S>>,
        workers: int,
    ) -> Seq<GradientsModel<S>> {
        let batch = inputs.len() as int;
        Seq::new(
            chunk_count(batch, workers) as nat,
            |t: int|
                self.chunk_gradients(
                    inputs,
                    targets,
                    chunk_start(batch, workers, t),
                    chunk_end(batch, workers, t),
                ),
        )
    }

    /// The network after the update that a list of worker results gives for
    /// a batch of `batch_size` samples: their sum, in the order of the list,
    /// times `1 / batch_size`, applied with scale one.
    pub open spec fn apply_parts(
        self,
        parts: Seq<GradientsModel<S>>,
        batch_size: usize,
    ) -> NetworkModel<S, A> {
        self.apply(
            GradientsModel::merge(self.layers, parts).scale(S::reciprocal_spec(batch_size)),
            S::one_spec(),
        )
    }

    /// The network after one mini-batch update; an empty batch changes
    /// nothing.
    pub open spec fn train_batch(
        self,
        inputs: Seq<Vec<S>>,
        targets: Seq<Vec<S>>,
        workers: int,
    ) -> NetworkModel<S, A> {
        if inputs.len() == 0 {
            self
        } else {
            self.apply_parts(self.worker_parts(inputs, targets, workers), inputs.len() as usize)
        }
    }
}

/// The gradient of a sample of the right width has the layout of the
/// parameters.
pub proof fn lemma_sample_gradient_shaped<S: Scalar, A: Activation<S>>(
    model: NetworkModel<S, A>,
    x: Seq<S>,
    t: Seq<S>,
)
    requires
        model.wf(),
        x.len() == model.layers[0],
    ensures
        model.sample_gradient(x, t).shaped_for(model.layers),
{
    broadcast use vstd::arithmetic::mul::lemma_mul_nonnegative;

    let g = model.sample_gradient(x, t);
    assert forall|i: int| 0 <= i < g.d_weights.len() implies (#[trigger] g.d_weights[i]).wf()
        && g.d_weights[i].rows == model.layers[i + 1] && g.d_weights[i].cols == model.layers[i] by {
        assert(model.error_of(x, t, (i + 1) as nat).len() == model.layers[i + 1]);
        assert(model.activation_of(x, i as nat).len() == model.layers[i]);
    }
    assert forall|i: int| 0 <= i < g.d_biases.len() implies (#[trigger] g.d_biases[i]).wf()
        && g.d_biases[i].rows == model.layers[i + 1] && g.d_biases[i].cols == 1 by {
        let n = model.error_of(x, t, (i + 1) as nat).len();
        assert(n == model.layers[i + 1]);
        assert(n * 1 == n) by (nonlinear_arith);
    }
}

/// The gradients of a chunk have the layout of the parameters.
pub proof fn lemma_chunk_shaped<S: Scalar, A: Activation<S>>(
    model: NetworkModel<S, A>,
    inputs: Seq<Vec<S>>,
    targets: Seq<Vec<S>>,
    start: int,
    end: int,
)
    requires
        model.wf(),
        samples_fit(model.layers, inputs, targets),
        0 <= start,
        end <= inputs.len(),
    ensures
        model.chunk_gradients(inputs, targets, start, end).shaped_for(model.layers),
    decreases end - start,
{
    if end <= start {
        lemma_zero_shaped::<S>(model.layers);
    } else {
        lemma_chunk_shaped(model, inputs, targets, start, end - 1);
        lemma_add_shaped(
            model.chunk_gradients(inputs, targets, start, end - 1),
            model.sample_gradient(inputs[end - 1]@, targets[end - 1]@),
            model.layers,
        );
    }
}

/// Where sums can be regrouped, the gradients of two chunks that follow
/// each other add up to the gradients of the two taken as one.
pub proof fn lemma_chunks_join<S: Scalar, A: Activation<S>>(
    model: NetworkModel<S, A>,
    inputs: Seq<Vec<S>>,
    targets: Seq<Vec<S>>,
    start: int,
    middle: int,
    end: int,
)
    requires
        add_is_associative::<S>(),
        zero_is_left_identity::<S>(),
        model.wf(),
        samples_fit(model.layers, inputs, targets),
        0 <= start <= middle < end <= inputs.len(),
    ensures
        model.chunk_gradients(inputs, targets, start, middle).add(
            model.chunk_gradients(inputs, targets, middle, end),
        ) == model.chunk_gradients(inputs, targets, start, end),
    decreases end - middle,
{
    let first = model.chunk_gradients(inputs, targets, start, middle);
    let sample = model.sample_gradient(inputs[end - 1]@, targets[end - 1]@);
    let before = model.chunk_gradients(inputs, targets, middle, end - 1);
    lemma_chunk_shaped(model, inputs, targets, start, middle);
    lemma_chunk_shaped(model, inputs, targets, middle, end - 1);
    lemma_sample_gradient_shaped(model, inputs[end - 1]@, targets[end - 1]@);
    if end == middle + 1 {
        assert(before == GradientsModel::<S>::zero(model.layers));
        lemma_gradients_zero_add(sample, model.layers);
    } else {
        lemma_chunks_join(model, inputs, targets, start, middle, end - 1);
        lemma_gradients_add_associative(first, before, sample, model.layers);
    }
}

/// Where sums can be regrouped, the sum of the first `n` workers' results
/// is the gradient sum of the samples before the `n`-th chunk, taken in
/// their order.
proof fn lemma_merge_prefix<S: Scalar, A: Activation<S>>(
    model: NetworkModel<S, A>,
    inputs: Seq<Vec<S>>,
    targets: Seq<Vec<S>>,
    workers: int,
    n: int,
)
    requires
        add_is_associative::<S>(),
        zero_is_left_identity::<S>(),
        model.wf(),
        samples_fit(model.layers, inputs, targets),
        1 <= n <= chunk_count(inputs.len() as int, workers),
    ensures
        GradientsModel::merge(model.layers, model.worker_parts(inputs, targets, workers).take(n))
            == model.chunk_gradients(
            inputs,
            targets,
            0,
            chunk_end(inputs.len() as int, workers, n - 1),
        ),
    decreases n,
{
    let batch = inputs.len() as int;
    let parts = model.worker_parts(inputs, targets, workers);
    let start = chunk_start(batch, workers, n - 1);
    let end = chunk_end(batch, workers, n - 1);
    let part = model.chunk_gradients(inputs, targets, start, end);
    lemma_partition_contiguous(batch, workers, n - 1);
    assert(parts.take(n).drop_last() =~= parts.take(n - 1));
    assert(parts.take(n).last() == part);
    lemma_chunk_shaped(model, inputs, targets, start, end);
    let merged = GradientsModel::merge(model.layers, parts.take(n));
    let merged_before = GradientsModel::merge(model.layers, parts.take(n - 1));
    assert(merged == merged_before.add(part));
    if n == 1 {
        assert(parts.take(0) =~= Seq::<GradientsModel<S>>::empty());
        assert(merged_before == GradientsModel::<S>::zero(model.layers));
        lemma_gradients_zero_add(part, model.layers);
        assert(start == 0);
    } else {
        lemma_merge_prefix(model, inputs, targets, workers, n - 1);
        lemma_partition_contiguous(batch, workers, n - 2);
        assert(chunk_end(batch, workers, n - 2) == start);
        assert(merged_before == model.chunk_gradients(inputs, targets, 0, start));
        lemma_chunks_join(model, inputs, targets, 0, start, end);
    }
}

/// Where sums can be regrouped, the workers' results add up to the
/// gradient sum of the whole batch, taken sample by sample in order: the
/// chunking leaves no trace.
pub proof fn lemma_batch_is_serial<S: Scalar, A: Activation<S>>(
    model: NetworkModel<S, A>,
    inputs: Seq<Vec<S>>,
    targets: Seq<Vec<S>>,
    workers: int,
)
    requires
        add_is_associative::<S>(),
        zero_is_left_identity::<S>(),
        model.wf(),
        samples_fit(model.layers, inputs, targets),
        inputs.len() >= 1,
    ensures
        GradientsModel::merge(model.layers, model.worker_parts(inputs, targets, workers))
            == model.chunk_gradients(inputs, targets, 0, inputs.len() as int),
{
    let batch = inputs.len() as int;
    let n = chunk_count(batch, workers);
    let parts = model.worker_parts(inputs, targets, workers);
    lemma_chunk_facts(batch, workers);
    lemma_partition_contiguous(batch, workers, n - 1);
    lemma_merge_prefix(model, inputs, targets, workers, n);
    assert(parts.take(n) =~= parts);
}

/// Serial and parallel training agree: where sums can be regrouped, a
/// mini-batch update is the same for every number of workers.
///
/// With rounding arithmetic the regrouping shows, and the updates agree up
/// to rounding only.
pub proof fn lemma_worker_count_irrelevant<S: Scalar, A: Activation<S>>(
    model: NetworkModel<S, A>,
    inputs: Seq<Vec<S>>,
    targets: Seq<Vec<S>>,
    workers: int,
    other_workers: int,
)
    requires
        add_is_associative::<S>(),
        zero_is_left_identity::<S>(),
        model.wf(),
        samples_fit(model.layers, inputs, targets),
    ensures
        model.train_batch(inputs, targets, workers) == model.train_batch(
            inputs,
            targets,
            other_workers,
        ),
{
    if inputs.len() >= 1 {
        lemma_batch_is_serial(model, inputs, targets, workers);
        lemma_batch_is_serial(model, inputs, targets, other_workers);
    }
}

impl<S: Scalar, A: Activation<S>> Network<S, A> {
    /// Whether the batch can be trained on: a target for each input, and
    /// every sample of the widths of the input and output layers.
    pub fn accepts_batch(&self, inputs: &[Vec<S>], targets: &[Vec<S>]) -> (b: bool)
        requires
            self.wf(),
        ensures
            b == samples_fit(self@.layers, inputs@, targets@),
    {
        proof {
            self.lemma_wf_shapes();
        }
        if inputs.len() != targets.len() {
            return false;
        }
        let n: usize = inputs.len();
        let mut k: usize = 0;
        while k < n
            invariant
                self.wf(),
                self@.layers.len() >= 2,
                n == inputs@.len(),
                n == targets@.len(),
                k <= n,
                forall|p: int| 0 <= p < k ==> (#[trigger] inputs@[p])@.len() == self@.layers[0],
                forall|p: int|
                    0 <= p < k ==> (#[trigger] targets@[p])@.len() == self@.layers[self@.layers.len()
                        - 1],
            decreases n - k,
        {
            if !self.accepts_input(inputs[k].as_slice()) {
                return false;
            }
            if !self.accepts_target(targets[k].as_slice()) {
                return false;
            }
            k += 1;
        }
        true
    }

    /// One worker's share of a batch: the gradients of the samples
    /// `start..end`, added in that order to a zero accumulator.
    ///
    /// The parameters stay as they were, so every worker computes against
    /// the same state, whether it runs on the network or on a snapshot.
    pub fn chunk_gradients(
        &mut self,
        inputs: &[Vec<S>],
        targets: &[Vec<S>],
        start: usize,
        end: usize,
    ) -> (part: Gradients<S>)
        requires
            old(self).wf(),
            samples_fit(old(self)@.layers, inputs@, targets@),
            start <= end <= inputs@.len(),
        ensures
            final(self).wf(),
            final(self)@ == old(self)@,
            part.shaped_for(old(self)@.layers),
            part@ == old(self)@.chunk_gradients(inputs@, targets@, start as int, end as int),
    {
        proof {
            self.lemma_wf_fits();
            self.lemma_wf_shapes();
        }
        let ghost model = self@;
        let mut part: Gradients<S> = Gradients::new(self.layers().as_slice());
        part.zero();
        let mut k: usize = start;
        while k < end
            invariant
                self.wf(),
                self@ == model,
                model.layers.len() >= 2,
                samples_fit(model.layers, inputs@, targets@),
                start <= k <= end,
                end <= inputs@.len(),
                part.shaped_for(model.layers),
                part@ == model.chunk_gradients(inputs@, targets@, start as int, k as int),
            decreases end - k,
        {
            self.compute_gradients_single(inputs[k].as_slice(), targets[k].as_slice(), &mut part);
            k += 1;
        }
        part
    }

    /// Turns the workers' results into one update: sums them in the order
    /// of the list, takes the mean over the batch, and applies it.
    pub fn apply_batch(&mut self, parts: &Vec<Gradients<S>>, batch_size: usize)
        requires
            old(self).wf(),
            batch_size > 0,
            forall|p: int| 0 <= p < parts@.len() ==> (#[trigger] parts@[p]).shaped_for(old(self)@.layers),
        ensures
            final(self).wf(),
            final(self)@ == old(self)@.apply_parts(part_models(parts@), batch_size),
    {
        proof {
            self.lemma_wf_fits();
            self.lemma_wf_shapes();
        }
        let ghost model = self@;
        let ghost all = part_models(parts@);
        let mut total: Gradients<S> = Gradients::new(self.layers().as_slice());
        total.zero();
        let n: usize = parts.len();
        let mut p: usize = 0;
        proof {
            assert(all.take(0) =~= Seq::<GradientsModel<S>>::empty());
        }
        while p < n
            invariant
                n == parts@.len(),
                all == part_models(parts@),
                forall|q: int| 0 <= q < parts@.len() ==> (#[trigger] parts@[q]).shaped_for(model.layers),
                p <= n,
                total.shaped_for(model.layers),
                total@ == GradientsModel::merge(model.layers, all.take(p as int)),
            decreases n - p,
        {
            proof {
                total.lemma_same_layers_conform(&parts@[p as int], model.layers);
                assert(all.take(p + 1).drop_last() =~= all.take(p as int));
                assert(all.take(p + 1).last() == parts@[p as int]@);
            }
            total.add(&parts[p]);
            p += 1;
        }
        proof {
            assert(all.take(n as int) =~= all);
        }
        total.scale(S::reciprocal(batch_size));
        self.apply_gradients(&total, S::one());
    }

    /// One mini-batch update.
    ///
    /// The batch is cut into contiguous chunks, one for each of at most
    /// `num_threads` workers. Each chunk's gradients are summed on their
    /// own, against the parameters as they are before the update; the sums
    /// are added in the order of the chunks, divided by the batch size, and
    /// applied once. The chunks are computed one after another here; they
    /// do not depend on each other, so a caller with threads may compute
    /// them side by side with [`Network::chunk_gradients`] on snapshots and
    /// finish with [`Network::apply_batch`].
    pub fn train_batch_parallel(&mut self, inputs: &[Vec<S>], targets: &[Vec<S>], num_threads: usize)
        requires
            old(self).wf(),
            samples_fit(old(self)@.layers, inputs@, targets@),
        ensures
            final(self).wf(),
            final(self)@ == old(self)@.train_batch(inputs@, targets@, num_threads as int),
    {
        let batch_size: usize = inputs.len();
        if batch_size == 0 {
            return;
        }
        let ghost model = self@;
        let ghost b = batch_size as int;
        let ghost w = num_threads as int;
        let plan: Vec<(usize, usize)> = partition(batch_size, num_threads);
        let mut parts: Vec<Gradients<S>> = Vec::with_capacity(plan.len());
        let mut t: usize = 0;
        while t < plan.len()
            invariant
                self.wf(),
                self@ == model,
                b == batch_size,
                b == inputs@.len(),
                w == num_threads,
                samples_fit(model.layers, inputs@, targets@),
                plan@.len() == chunk_count(b, w),
                forall|c: int|
                    0 <= c < plan@.len() ==> (#[trigger] plan@[c]).0 == chunk_start(b, w, c)
                        && plan@[c].1 == chunk_end(b, w, c),
                t <= plan@.len(),
                parts@.len() == t,
                forall|c: int| 0 <= c < t ==> (#[trigger] parts@[c]).shaped_for(model.layers),
                forall|c: int|
                    0 <= c < t ==> (#[trigger] parts@[c])@ == model.chunk_gradients(
                        inputs@,
                        targets@,
                        chunk_start(b, w, c),
                        chunk_end(b, w, c),
                    ),
            decreases plan@.len() - t,
        {
            let start: usize = plan[t].0;
            let end: usize = plan[t].1;
            proof {
                lemma_partition_contiguous(b, w, t as int);
            }
            let part: Gradients<S> = self.chunk_gradients(inputs, targets, start, end);
            parts.push(part);
            t += 1;
        }
        proof {
            assert(part_models(parts@) =~= model.worker_parts(inputs@, targets@, w));
        }
        self.apply_batch(&parts, batch_size);
    }
}

} // verus!
