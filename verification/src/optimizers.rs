//! Bookkeeping for the parameter-update rules.
//!
//! An optimizer is asked to update one layer at a time, always in the order
//! of the layers. Plain gradient descent keeps nothing between calls. Adam
//! keeps, for every layer it has met, running moment estimates shaped like
//! that layer's gradients, and counts full passes over the network: the
//! count advances whenever the first layer comes round again.

use vstd::prelude::*;
use crate::shapes::{fill, fill_like, filled, filled_like, rows_of};

verus! {

/// Gradient descent with a fixed rate. It carries no state between updates.
pub struct SGD<T> {
    pub learning_rate: T,
}

impl<T> SGD<T> {
    /// An optimizer that steps by `learning_rate` times the gradient.
    pub fn new(learning_rate: T) -> (sgd: Self)
        ensures
            sgd.learning_rate == learning_rate,
    {
        SGD { learning_rate }
    }
}

/// The moment estimates Adam keeps for one layer.
pub struct Moments<T> {
    /// First moment of the weight gradients.
    pub gradient_mt: Vec<Vec<T>>,
    /// First moment of the bias gradients.
    pub bias_gradient_mt: Vec<T>,
    /// Second moment of the weight gradients.
    pub gradient_vt: Vec<Vec<T>>,
    /// Second moment of the bias gradients.
    pub bias_gradient_vt: Vec<T>,
}

/// What a [`Moments`] holds, as sequences.
pub struct MomentsView<T> {
    pub gradient_mt: Seq<Seq<T>>,
    pub bias_gradient_mt: Seq<T>,
    pub gradient_vt: Seq<Seq<T>>,
    pub bias_gradient_vt: Seq<T>,
}

impl<T> View for Moments<T> {
    type V = MomentsView<T>;

    open spec fn view(&self) -> MomentsView<T> {
        MomentsView {
            gradient_mt: rows_of(self.gradient_mt@),
            bias_gradient_mt: self.bias_gradient_mt@,
            gradient_vt: rows_of(self.gradient_vt@),
            bias_gradient_vt: self.bias_gradient_vt@,
        }
    }
}

impl<T> MomentsView<T> {
    /// Fresh estimates for a layer whose gradients look like `gradients` and
    /// `bias_gradients`: the same shapes, `zero` everywhere.
    pub open spec fn fresh(gradients: Seq<Seq<T>>, bias_gradients: Seq<T>, zero: T) -> Self {
        MomentsView {
            gradient_mt: filled_like(gradients, zero),
            bias_gradient_mt: filled(bias_gradients.len(), zero),
            gradient_vt: filled_like(gradients, zero),
            bias_gradient_vt: filled(bias_gradients.len(), zero),
        }
    }
}

/// Adam's hyperparameters and state.
pub struct Adam<T> {
    pub learning_rate: T,
    beta1: T,
    beta2: T,
    eps: T,
    count: u64,
    moments: Vec<Moments<T>>,
}

/// The state of an [`Adam`] optimizer as mathematical values.
pub struct AdamView<T> {
    pub learning_rate: T,
    pub beta1: T,
    pub beta2: T,
    pub eps: T,
    /// Number of full passes over the network begun so far.
    pub count: nat,
    /// Moment estimates of the layers met so far, by layer index.
    pub moments: Seq<MomentsView<T>>,
}

impl<T> AdamView<T> {
    /// The state after being asked to update layer `idx`, before any
    /// arithmetic on the estimates.
    ///
    /// Meeting layer 0 starts a new pass. Meeting the next unseen layer
    /// appends fresh estimates for it. Everything else is kept.
    pub open spec fn observe(
        self,
        idx: nat,
        gradients: Seq<Seq<T>>,
        bias_gradients: Seq<T>,
        zero: T,
    ) -> Self {
        AdamView {
            count: if idx == 0 {
                self.count + 1
            } else {
                self.count
            },
            moments: if self.moments.len() <= idx {
                self.moments.push(MomentsView::fresh(gradients, bias_gradients, zero))
            } else {
                self.moments
            },
            ..self
        }
    }

    /// The state after meeting the first `layers` layers in order, layer `k`
    /// with gradients shaped like `gradients[k]` and `bias_gradients[k]`.
    pub open spec fn pass(
        self,
        gradients: Seq<Seq<Seq<T>>>,
        bias_gradients: Seq<Seq<T>>,
        zero: T,
        layers: nat,
    ) -> Self
        decreases layers,
    {
        if layers == 0 {
            self
        } else {
            self.pass(gradients, bias_gradients, zero, (layers - 1) as nat).observe(
                (layers - 1) as nat,
                gradients[layers - 1],
                bias_gradients[layers - 1],
                zero,
            )
        }
    }

    /// The state with the estimates of layer `idx` replaced.
    pub open spec fn with_moments(self, idx: nat, moments: MomentsView<T>) -> Self {
        AdamView { moments: self.moments.update(idx as int, moments), ..self }
    }
}

/// The pass counter moves exactly when the first layer is met.
pub proof fn lemma_pass_counter<T>(
    state: AdamView<T>,
    idx: nat,
    gradients: Seq<Seq<T>>,
    bias_gradients: Seq<T>,
    zero: T,
)
    ensures
        idx == 0 ==> state.observe(idx, gradients, bias_gradients, zero).count == state.count + 1,
        idx != 0 ==> state.observe(idx, gradients, bias_gradients, zero).count == state.count,
{
}

/// Once a layer has estimates it keeps them: meeting any layer leaves the
/// estimates of every layer met before as they were, and afterwards the
/// layer just met has estimates too, provided layers are met in order.
pub proof fn lemma_estimates_persist<T>(
    state: AdamView<T>,
    idx: nat,
    gradients: Seq<Seq<T>>,
    bias_gradients: Seq<T>,
    zero: T,
)
    requires
        idx <= state.moments.len(),
    ensures
        state.observe(idx, gradients, bias_gradients, zero).moments.len() >= state.moments.len(),
        idx < state.observe(idx, gradients, bias_gradients, zero).moments.len(),
        forall|i: int|
            0 <= i < state.moments.len() ==> state.observe(
                idx,
                gradients,
                bias_gradients,
                zero,
            ).moments[i] == #[trigger] state.moments[i],
        idx == state.moments.len() ==> state.observe(
            idx,
            gradients,
            bias_gradients,
            zero,
        ).moments[idx as int] == MomentsView::fresh(gradients, bias_gradients, zero),
{
}

/// Meeting the layers in their order keeps the optimizer in step with the
/// network: every layer is known or next in line when its turn comes, the
/// pass counter moves once, the estimates there were stay, and the layers met
/// for the first time get fresh ones.
pub proof fn lemma_pass_in_order<T>(
    state: AdamView<T>,
    gradients: Seq<Seq<Seq<T>>>,
    bias_gradients: Seq<Seq<T>>,
    zero: T,
    layers: nat,
)
    requires
        layers <= gradients.len(),
        layers <= bias_gradients.len(),
    ensures
        forall|k: nat|
            k < layers ==> k <= (#[trigger] state.pass(
                gradients,
                bias_gradients,
                zero,
                k,
            )).moments.len(),
        ({
            let after = state.pass(gradients, bias_gradients, zero, layers);
            &&& after.count == state.count + if layers > 0 {
                1nat
            } else {
                0nat
            }
            &&& after.moments.len() == if state.moments.len() < layers {
                layers
            } else {
                state.moments.len()
            }
            &&& forall|i: int|
                0 <= i < state.moments.len() ==> after.moments[i] == #[trigger] state.moments[i]
            &&& forall|i: int|
                state.moments.len() <= i < layers ==> #[trigger] after.moments[i]
                    == MomentsView::fresh(gradients[i], bias_gradients[i], zero)
            &&& after.learning_rate == state.learning_rate
            &&& after.beta1 == state.beta1
            &&& after.beta2 == state.beta2
            &&& after.eps == state.eps
        }),
    decreases layers,
{
    if layers > 0 {
        let before = (layers - 1) as nat;
        lemma_pass_in_order(state, gradients, bias_gradients, zero, before);
        let mid = state.pass(gradients, bias_gradients, zero, before);
        assert forall|k: nat| k < layers implies k <= (#[trigger] state.pass(
            gradients,
            bias_gradients,
            zero,
            k,
        )).moments.len() by {
            if k == before {
                assert(mid.moments.len() >= before);
            }
        }
    }
}

/// Two updates of the first layer in a row find the optimizer in different
/// states even when they are handed the same gradients: the second one runs
/// in a later pass than the first, and on the estimates the first one left
/// rather than on fresh ones.
pub proof fn lemma_same_gradients_different_state<T>(
    state: AdamView<T>,
    gradients: Seq<Seq<T>>,
    bias_gradients: Seq<T>,
    zero: T,
)
    ensures
        ({
            let first = state.observe(0, gradients, bias_gradients, zero);
            let second = first.observe(0, gradients, bias_gradients, zero);
            &&& second.count == first.count + 1
            &&& second != first
            &&& first.moments.len() > 0
            &&& second.moments == first.moments
        }),
{
}

impl<T> View for Adam<T> {
    type V = AdamView<T>;

    closed spec fn view(&self) -> AdamView<T> {
        AdamView {
            learning_rate: self.learning_rate,
            beta1: self.beta1,
            beta2: self.beta2,
            eps: self.eps,
            count: self.count as nat,
            moments: Seq::new(self.moments@.len(), |i: int| self.moments@[i]@),
        }
    }
}

impl<T: Copy> Adam<T> {
    /// An optimizer that has not met any layer yet.
    pub fn new(learning_rate: T, beta1: T, beta2: T, eps: T) -> (adam: Self)
        ensures
            adam@ == (AdamView {
                learning_rate,
                beta1,
                beta2,
                eps,
                count: 0,
                moments: Seq::<MomentsView<T>>::empty(),
            }),
    {
        let adam = Adam { learning_rate, beta1, beta2, eps, count: 0, moments: Vec::new() };
        assert(adam@.moments =~= Seq::<MomentsView<T>>::empty());
        adam
    }

    /// Decay rate of the first moment.
    pub fn beta1(&self) -> (b: T)
        ensures
            b == self@.beta1,
    {
        self.beta1
    }

    /// Decay rate of the second moment.
    pub fn beta2(&self) -> (b: T)
        ensures
            b == self@.beta2,
    {
        self.beta2
    }

    /// The small constant added to the denominator of the update.
    pub fn eps(&self) -> (e: T)
        ensures
            e == self@.eps,
    {
        self.eps
    }

    /// Number of full passes begun so far.
    pub fn count(&self) -> (c: u64)
        ensures
            c == self@.count,
    {
        self.count
    }

    /// Number of layers that have estimates.
    pub fn layers_seen(&self) -> (n: usize)
        ensures
            n == self@.moments.len(),
    {
        self.moments.len()
    }

    /// Whether [`Adam::begin_update`] may be called for layer `idx`: the layer
    /// is known or is the next one, and the pass counter has room.
    pub fn can_begin(&self, idx: usize) -> (ok: bool)
        ensures
            ok == (idx <= self@.moments.len() && (idx == 0 ==> self@.count < u64::MAX)),
    {
        idx <= self.moments.len() && (idx != 0 || self.count < u64::MAX)
    }

    /// Prepares the update of layer `idx` and returns the number of the
    /// current pass.
    pub fn begin_update(
        &mut self,
        idx: usize,
        gradients: &Vec<Vec<T>>,
        bias_gradients: &Vec<T>,
        zero: T,
    ) -> (step: u64)
        requires
            idx <= old(self)@.moments.len(),
            idx == 0 ==> old(self)@.count < u64::MAX,
        ensures
            final(self)@ == old(self)@.observe(
                idx as nat,
                rows_of(gradients@),
                bias_gradients@,
                zero,
            ),
            step == final(self)@.count,
    {
        if idx == 0 {
            self.count = self.count + 1;
        }
        if self.moments.len() <= idx {
            let fresh = Moments {
                gradient_mt: fill_like(gradients, zero),
                bias_gradient_mt: fill(bias_gradients.len(), zero),
                gradient_vt: fill_like(gradients, zero),
                bias_gradient_vt: fill(bias_gradients.len(), zero),
            };
            assert(fresh@ == MomentsView::fresh(rows_of(gradients@), bias_gradients@, zero));
            self.moments.push(fresh);
        }
        assert(self@.moments =~= old(self)@.observe(
            idx as nat,
            rows_of(gradients@),
            bias_gradients@,
            zero,
        ).moments);
        self.count
    }

    /// The estimates kept for layer `idx`.
    pub fn moments(&self, idx: usize) -> (m: &Moments<T>)
        requires
            idx < self@.moments.len(),
        ensures
            m@ == self@.moments[idx as int],
    {
        &self.moments[idx]
    }

    /// Replaces the estimates kept for layer `idx`.
    pub fn set_moments(&mut self, idx: usize, moments: Moments<T>)
        requires
            idx < old(self)@.moments.len(),
        ensures
            final(self)@ == old(self)@.with_moments(idx as nat, moments@),
    {
        self.moments.set(idx, moments);
        assert(self@.moments =~= old(self)@.with_moments(idx as nat, moments@).moments);
    }
}

} // verus!
