//! How one epoch walks over the training pairs: a fresh random order, cut
//! into consecutive batches, and a tally of hits and misses per batch.

use vstd::prelude::*;
use crate::shapes::rows_of;

verus! {

/// A batch: the pairs at positions `start..end` of the shuffled training set.
#[derive(Clone, Copy, Debug, PartialEq, Eq, Structural)]
pub struct Batch {
    pub start: usize,
    pub end: usize,
}

/// Number of batches needed for `samples` pairs: `samples / batch_size`,
/// rounded up.
pub open spec fn batch_count(samples: nat, batch_size: nat) -> nat
    recommends
        batch_size > 0,
{
    if samples % batch_size == 0 {
        samples / batch_size
    } else {
        samples / batch_size + 1
    }
}

/// Where batch `j` ends: a full batch further on, or at the last pair.
pub open spec fn batch_end(samples: nat, batch_size: nat, j: nat) -> nat {
    if (j + 1) * batch_size <= samples {
        (j + 1) * batch_size
    } else {
        samples
    }
}

/// `plan` cuts `samples` pairs into batches of `batch_size`: batch `j`
/// starts at `j * batch_size` and ends a full batch further on, except that
/// the last one ends with the last pair.
pub open spec fn is_plan(plan: Seq<Batch>, samples: nat, batch_size: nat) -> bool {
    &&& plan.len() == batch_count(samples, batch_size)
    &&& forall|j: int|
        0 <= j < plan.len() ==> {
            &&& (#[trigger] plan[j]).start == j * batch_size
            &&& plan[j].end == batch_end(samples, batch_size, j as nat)
        }
}

/// If the `j`-th batch is the one that reaches the last pair, there are `j`
/// batches.
proof fn lemma_count_from_last(samples: nat, batch_size: nat, j: nat)
    requires
        batch_size > 0,
        j > 0,
        (j - 1) * batch_size < samples <= j * batch_size,
    ensures
        batch_count(samples, batch_size) == j,
{
    let q = samples / batch_size;
    let r = samples % batch_size;
    vstd::arithmetic::div_mod::lemma_fundamental_div_mod(samples as int, batch_size as int);
    assert(0 <= r < batch_size) by {
        vstd::arithmetic::div_mod::lemma_mod_bound(samples as int, batch_size as int);
    }
    if r == 0 {
        assert(q == j) by (nonlinear_arith)
            requires
                batch_size > 0,
                samples == batch_size * q,
                (j - 1) * batch_size < samples <= j * batch_size,
        ;
    } else {
        assert(q + 1 == j) by (nonlinear_arith)
            requires
                batch_size > 0,
                0 < r < batch_size,
                samples == batch_size * q + r,
                (j - 1) * batch_size < samples <= j * batch_size,
        ;
    }
}

/// Every batch of a plan starts before the last pair.
proof fn lemma_batch_starts_inside(samples: nat, batch_size: nat, j: nat)
    requires
        batch_size > 0,
        j < batch_count(samples, batch_size),
    ensures
        j * batch_size < samples,
{
    let q = samples / batch_size;
    let r = samples % batch_size;
    vstd::arithmetic::div_mod::lemma_fundamental_div_mod(samples as int, batch_size as int);
    vstd::arithmetic::div_mod::lemma_mod_bound(samples as int, batch_size as int);
    assert(j * batch_size < samples) by (nonlinear_arith)
        requires
            batch_size > 0,
            0 <= j,
            samples == batch_size * q + r,
            0 <= r < batch_size,
            j < (if r == 0 {
                q
            } else {
                q + 1
            }),
    ;
}

/// The batches of a plan, all taken as full, reach the last pair.
proof fn lemma_batches_reach_end(samples: nat, batch_size: nat)
    requires
        batch_size > 0,
    ensures
        batch_count(samples, batch_size) * batch_size >= samples,
{
    let q = samples / batch_size;
    let r = samples % batch_size;
    let n = batch_count(samples, batch_size);
    vstd::arithmetic::div_mod::lemma_fundamental_div_mod(samples as int, batch_size as int);
    vstd::arithmetic::div_mod::lemma_mod_bound(samples as int, batch_size as int);
    assert(n * batch_size >= samples) by (nonlinear_arith)
        requires
            batch_size > 0,
            samples == batch_size * q + r,
            0 <= r < batch_size,
            n == (if r == 0 {
                q
            } else {
                q + 1
            }),
    ;
}

/// A plan covers the pairs without gaps or overlap: it starts at the first
/// pair, every batch starts where the one before ended, the last ends with
/// the last pair, no batch is empty, and every batch but the last is full.
pub proof fn lemma_plan_partitions(plan: Seq<Batch>, samples: nat, batch_size: nat)
    requires
        batch_size > 0,
        is_plan(plan, samples, batch_size),
    ensures
        samples == 0 <==> plan.len() == 0,
        plan.len() > 0 ==> plan[0].start == 0 && plan.last().end == samples,
        forall|j: int|
            0 <= j && j + 1 < plan.len() ==> (#[trigger] plan[j]).end == plan[j + 1].start,
        forall|j: int|
            0 <= j < plan.len() ==> 0 < (#[trigger] plan[j]).end - plan[j].start <= batch_size,
        forall|j: int|
            0 <= j && j + 1 < plan.len() ==> (#[trigger] plan[j]).end - plan[j].start
                == batch_size,
{
    let n = plan.len() as int;
    if samples == 0 {
        vstd::arithmetic::div_mod::lemma_basic_div(0, batch_size as int);
        vstd::arithmetic::div_mod::lemma_small_mod(0, batch_size);
    }
    assert forall|j: int| 0 <= j < n implies 0 < (#[trigger] plan[j]).end - plan[j].start
        <= batch_size by {
        lemma_batch_starts_inside(samples, batch_size, j as nat);
        assert((j + 1) * batch_size == j * batch_size + batch_size) by (nonlinear_arith);
    }
    assert forall|j: int| 0 <= j && j + 1 < n implies (#[trigger] plan[j]).end == plan[j
        + 1].start && plan[j].end - plan[j].start == batch_size by {
        lemma_batch_starts_inside(samples, batch_size, (j + 1) as nat);
        assert((j + 1) * batch_size == j * batch_size + batch_size) by (nonlinear_arith);
    }
    lemma_batches_reach_end(samples, batch_size);
    assert(0 * batch_size == 0);
    if n > 0 {
        lemma_batch_starts_inside(samples, batch_size, 0);
        assert((n - 1 + 1) * batch_size == n * batch_size);
        assert(plan.last().end == batch_end(samples, batch_size, (n - 1) as nat));
    }
}

/// Cuts `samples` pairs into consecutive batches of `batch_size`.
pub fn plan_batches(samples: usize, batch_size: usize) -> (plan: Vec<Batch>)
    requires
        batch_size > 0,
    ensures
        is_plan(plan@, samples as nat, batch_size as nat),
{
    let mut plan: Vec<Batch> = Vec::new();
    let mut start: usize = 0;
    while start < samples
        invariant
            batch_size > 0,
            start <= samples,
            plan.len() <= start,
            plan.len() == 0 ==> start == 0,
            start < samples ==> start == plan.len() * batch_size,
            start == samples && plan.len() > 0 ==> (plan.len() - 1) * batch_size < samples
                <= plan.len() * batch_size,
            forall|j: int|
                0 <= j < plan.len() ==> {
                    &&& (#[trigger] plan@[j]).start == j * batch_size
                    &&& plan@[j].end == batch_end(samples as nat, batch_size as nat, j as nat)
                },
        decreases samples - start,
    {
        let ghost j = plan.len() as int;
        let end: usize = if samples - start <= batch_size {
            samples
        } else {
            start + batch_size
        };
        assert((j + 1) * batch_size == j * batch_size + batch_size) by (nonlinear_arith);
        assert((j + 1 - 1) * batch_size == j * batch_size);
        plan.push(Batch { start, end });
        start = end;
    }
    proof {
        if plan.len() > 0 {
            lemma_count_from_last(samples as nat, batch_size as nat, plan.len() as nat);
        } else {
            assert(samples == 0);
            vstd::arithmetic::div_mod::lemma_basic_div(0, batch_size as int);
            vstd::arithmetic::div_mod::lemma_small_mod(0, batch_size as nat);
        }
    }
    plan
}

/// Permutes `items` in place with `rand::seq::SliceRandom::shuffle`, drawing
/// from the generator `rand::thread_rng` hands out.
///
/// The shuffle only ever swaps two entries, so whatever order comes out, the
/// entries are the same ones, each as often as before. Nothing is claimed
/// about which order it is. The generator is seeded from the operating
/// system when a thread first uses it, and panics if that fails.
#[verifier::external_body]
fn shuffle_in_place<P>(items: &mut Vec<P>)
    ensures
        final(items)@.to_multiset() == old(items)@.to_multiset(),
{
    rand::seq::SliceRandom::shuffle(items.as_mut_slice(), &mut rand::thread_rng());
}

/// Starts an epoch: puts `pairs` into a fresh random order and cuts them
/// into batches of `batch_size`.
///
/// The pairs are the same afterwards, each as often as before; only their
/// order may differ, from call to call as well.
pub fn next_epoch<P>(pairs: &mut Vec<P>, batch_size: usize) -> (plan: Vec<Batch>)
    requires
        batch_size > 0,
    ensures
        final(pairs)@.to_multiset() == old(pairs)@.to_multiset(),
        final(pairs)@.len() == old(pairs)@.len(),
        is_plan(plan@, old(pairs)@.len(), batch_size as nat),
{
    shuffle_in_place(pairs);
    proof {
        old(pairs)@.to_multiset_ensures();
        pairs@.to_multiset_ensures();
    }
    plan_batches(pairs.len(), batch_size)
}

/// Number of `true` entries in `flags`.
pub open spec fn hits(flags: Seq<bool>) -> nat
    decreases flags.len(),
{
    if flags.len() == 0 {
        0
    } else {
        hits(flags.drop_last()) + if flags.last() {
            1nat
        } else {
            0nat
        }
    }
}

/// There are never more hits than flags.
pub proof fn lemma_hits_bounded(flags: Seq<bool>)
    ensures
        hits(flags) <= flags.len(),
    decreases flags.len(),
{
    if flags.len() > 0 {
        lemma_hits_bounded(flags.drop_last());
    }
}

/// A prediction is a hit when it agrees with what was expected entry by
/// entry, as far as both go.
pub open spec fn agree(predicted: Seq<i64>, expected: Seq<i64>) -> bool {
    forall|i: int| 0 <= i < predicted.len() && i < expected.len() ==> predicted[i] == expected[i]
}

/// For every sample that has both a prediction and an expectation, whether
/// the two agree.
pub open spec fn verdicts(predictions: Seq<Seq<i64>>, expecteds: Seq<Seq<i64>>) -> Seq<bool> {
    Seq::new(
        if predictions.len() <= expecteds.len() {
            predictions.len()
        } else {
            expecteds.len()
        },
        |s: int| agree(predictions[s], expecteds[s]),
    )
}

/// Decides whether a prediction is a hit. Both vectors hold keys: integers
/// that are equal exactly where the values they stand for are.
pub fn is_hit(predicted: &[i64], expected: &[i64]) -> (hit: bool)
    ensures
        hit == agree(predicted@, expected@),
{
    let mut i: usize = 0;
    while i < predicted.len() && i < expected.len()
        invariant
            forall|k: int| 0 <= k < i ==> predicted@[k] == expected@[k],
            i <= predicted@.len(),
            i <= expected@.len(),
        decreases predicted.len() - i,
    {
        if predicted[i] != expected[i] {
            return false;
        }
        i += 1;
    }
    true
}

/// How many predictions matched what was expected and how many did not.
#[derive(Clone, Copy, Debug)]
pub struct Tally {
    hit: usize,
    miss: usize,
}

/// A [`Tally`] as two numbers.
pub struct TallyView {
    pub hit: nat,
    pub miss: nat,
}

impl TallyView {
    /// Number of predictions counted.
    pub open spec fn total(self) -> nat {
        self.hit + self.miss
    }
}

impl View for Tally {
    type V = TallyView;

    closed spec fn view(&self) -> TallyView {
        TallyView { hit: self.hit as nat, miss: self.miss as nat }
    }
}

impl Tally {
    #[verifier::type_invariant]
    spec fn total_fits(&self) -> bool {
        self.hit + self.miss <= usize::MAX
    }

    /// A tally of nothing.
    pub fn new() -> (tally: Tally)
        ensures
            tally@ == (TallyView { hit: 0, miss: 0 }),
    {
        Tally { hit: 0, miss: 0 }
    }

    /// Counts a batch: `flags` holds, for every sample, whether the
    /// prediction matched.
    pub fn of(flags: &[bool]) -> (tally: Tally)
        ensures
            tally@.hit == hits(flags@),
            tally@.total() == flags@.len(),
    {
        let mut hit: usize = 0;
        let mut i: usize = 0;
        while i < flags.len()
            invariant
                i <= flags@.len(),
                hit == hits(flags@.take(i as int)),
                hit <= i,
            decreases flags.len() - i,
        {
            assert(flags@.take(i + 1).drop_last() =~= flags@.take(i as int));
            if flags[i] {
                hit += 1;
            }
            i += 1;
        }
        assert(flags@.take(i as int) =~= flags@);
        Tally { hit, miss: flags.len() - hit }
    }

    /// Counts a batch from the predictions and the expectations themselves,
    /// both given by their keys.
    pub fn of_predictions(predictions: &Vec<Vec<i64>>, expecteds: &Vec<Vec<i64>>) -> (tally: Tally)
        ensures
            tally@.hit == hits(verdicts(rows_of(predictions@), rows_of(expecteds@))),
            tally@.total() == verdicts(rows_of(predictions@), rows_of(expecteds@)).len(),
    {
        let ghost wanted = verdicts(rows_of(predictions@), rows_of(expecteds@));
        let mut flags: Vec<bool> = Vec::new();
        let mut s: usize = 0;
        while s < predictions.len() && s < expecteds.len()
            invariant
                s <= predictions.len(),
                s <= expecteds.len(),
                wanted == verdicts(rows_of(predictions@), rows_of(expecteds@)),
                flags@ == wanted.take(s as int),
            decreases predictions.len() - s,
        {
            let hit = is_hit(predictions[s].as_slice(), expecteds[s].as_slice());
            flags.push(hit);
            s += 1;
            assert(flags@ =~= wanted.take(s as int));
        }
        assert(wanted.take(s as int) =~= wanted);
        Tally::of(flags.as_slice())
    }

    /// Number of predictions that matched.
    pub fn hit(&self) -> (n: usize)
        ensures
            n == self@.hit,
    {
        self.hit
    }

    /// Number of predictions that did not match.
    pub fn miss(&self) -> (n: usize)
        ensures
            n == self@.miss,
    {
        self.miss
    }

    /// Number of predictions counted.
    pub fn total(&self) -> (n: usize)
        ensures
            n == self@.total(),
    {
        proof {
            use_type_invariant(self);
        }
        self.hit + self.miss
    }

    /// The tally of both together, unless there are too many predictions to
    /// count.
    pub fn merge(&self, other: &Tally) -> (sum: Option<Tally>)
        ensures
            sum is Some <==> self@.total() + other@.total() <= usize::MAX,
            sum matches Some(t) ==> t@ == (TallyView {
                hit: self@.hit + other@.hit,
                miss: self@.miss + other@.miss,
            }),
    {
        proof {
            use_type_invariant(self);
            use_type_invariant(other);
        }
        let here = self.hit + self.miss;
        let there = other.hit + other.miss;
        if there > usize::MAX - here {
            None
        } else {
            Some(Tally { hit: self.hit + other.hit, miss: self.miss + other.miss })
        }
    }
}

} // verus!
