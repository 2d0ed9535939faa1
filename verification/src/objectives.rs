//! The objectives a network can be trained against.
//!
//! Each objective reads the raw outputs of the last layer and applies one
//! particular activation to them itself. What is kept here is which
//! activation that is, which output widths the objective can work with, and
//! how class predictions are read off the outputs.

use vstd::prelude::*;
use crate::activators::Activation;
use crate::functions::{argmax, argmax_of, into_onehot, onehot};
use crate::shapes::{cut, cut_at, rows_of};

verus! {

/// What the rest of the library needs to know about an objective.
pub trait Objective {
    /// The activation the objective applies to the raw outputs before it
    /// scores them.
    spec fn paired_activation(&self) -> Activation;

    /// Whether the objective can score outputs of `width` entries.
    spec fn scores_width(&self, width: nat) -> bool;

    /// Executable form of [`Objective::paired_activation`].
    fn output_activation(&self) -> (a: Activation)
        ensures
            a == self.paired_activation(),
    ;

    /// Executable form of [`Objective::scores_width`].
    fn accepts_width(&self, width: usize) -> (ok: bool)
        ensures
            ok == self.scores_width(width as nat),
    ;
}

/// Cross entropy over a single sigmoid output, for yes/no labels.
#[derive(Clone, Copy, Debug)]
pub struct BinaryCrossEntropy;

/// Cross entropy over softmax outputs, for one-hot labels.
#[derive(Clone, Copy, Debug)]
pub struct CrossEntropy;

/// Half the squared error over sigmoid outputs.
#[derive(Clone, Copy, Debug)]
pub struct MeanSquareError;

/// The key of one half in double precision: no sign bit, and the magnitude
/// whose exponent field says "times two to the minus one".
pub const HALF_KEY: i64 = 0x3FE0_0000_0000_0000;

impl BinaryCrossEntropy {
    /// The objective; it has no settings.
    pub fn new() -> (objective: BinaryCrossEntropy)
        ensures
            objective == BinaryCrossEntropy,
    {
        BinaryCrossEntropy
    }

    /// Turns a batch of probabilities into yes/no labels by cutting at one
    /// half: `one` wherever the probability is above it, `zero` elsewhere.
    ///
    /// `keys` holds the key of every probability, as
    /// [`sign_magnitude_key`](crate::functions::sign_magnitude_key) gives it.
    pub fn discretize<T: Copy>(&self, keys: &Vec<Vec<i64>>, zero: T, one: T) -> (labels: Vec<
        Vec<T>,
    >)
        ensures
            rows_of(labels@) == cut(rows_of(keys@), HALF_KEY, zero, one),
    {
        cut_at(keys, HALF_KEY, zero, one)
    }
}

impl Objective for BinaryCrossEntropy {
    open spec fn paired_activation(&self) -> Activation {
        Activation::Sigmoid
    }

    /// There has to be exactly one output.
    open spec fn scores_width(&self, width: nat) -> bool {
        width == 1
    }

    fn output_activation(&self) -> (a: Activation) {
        Activation::Sigmoid
    }

    fn accepts_width(&self, width: usize) -> (ok: bool) {
        width == 1
    }
}

impl CrossEntropy {
    /// The objective; it has no settings.
    pub fn new() -> (objective: CrossEntropy)
        ensures
            objective == CrossEntropy,
    {
        CrossEntropy
    }

    /// The predictions for a batch, one row each: the one-hot vector of the
    /// class with the largest logit.
    pub open spec fn spec_predict<T>(keys: Seq<Seq<i64>>, zero: T, one: T) -> Seq<Seq<T>> {
        Seq::new(keys.len(), |r: int| onehot(argmax_of(keys[r]), keys[r].len(), zero, one))
    }

    /// Turns a batch of logits into one-hot predictions.
    ///
    /// Every row of `keys` orders the classes of one sample the way its
    /// logits do. The prediction is as wide as the row and holds `one` at the
    /// class with the largest key, the last such class among equals, and
    /// `zero` elsewhere.
    pub fn predict_from_logits<T: Copy>(&self, keys: &Vec<Vec<i64>>, zero: T, one: T) -> (predictions:
        Vec<Vec<T>>)
        requires
            forall|r: int| 0 <= r < keys@.len() ==> (#[trigger] keys@[r])@.len() > 0,
        ensures
            rows_of(predictions@) == Self::spec_predict(rows_of(keys@), zero, one),
    {
        let mut predictions: Vec<Vec<T>> = Vec::new();
        let mut r: usize = 0;
        while r < keys.len()
            invariant
                r <= keys.len(),
                predictions.len() == r,
                forall|k: int| 0 <= k < keys@.len() ==> (#[trigger] keys@[k])@.len() > 0,
                forall|k: int|
                    0 <= k < r ==> (#[trigger] predictions@[k])@ == onehot(
                        argmax_of(keys@[k]@),
                        keys@[k]@.len(),
                        zero,
                        one,
                    ),
            decreases keys.len() - r,
        {
            let row = &keys[r];
            let class = argmax(row.as_slice());
            predictions.push(into_onehot(class, row.len(), zero, one));
            r += 1;
        }
        assert(rows_of(predictions@) =~= Self::spec_predict(rows_of(keys@), zero, one));
        predictions
    }
}

impl Objective for CrossEntropy {
    open spec fn paired_activation(&self) -> Activation {
        Activation::Softmax
    }

    /// There has to be at least one class to choose.
    open spec fn scores_width(&self, width: nat) -> bool {
        width > 0
    }

    fn output_activation(&self) -> (a: Activation) {
        Activation::Softmax
    }

    fn accepts_width(&self, width: usize) -> (ok: bool) {
        width > 0
    }
}

impl MeanSquareError {
    /// The objective; it has no settings.
    pub fn new() -> (objective: MeanSquareError)
        ensures
            objective == MeanSquareError,
    {
        MeanSquareError
    }
}

impl Objective for MeanSquareError {
    open spec fn paired_activation(&self) -> Activation {
        Activation::Sigmoid
    }

    /// Any width will do.
    open spec fn scores_width(&self, width: nat) -> bool {
        true
    }

    fn output_activation(&self) -> (a: Activation) {
        Activation::Sigmoid
    }

    fn accepts_width(&self, width: usize) -> (ok: bool) {
        true
    }
}

} // verus!
