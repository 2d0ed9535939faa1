//! The nonlinearities a layer can apply to its weighted sums.

use vstd::prelude::*;
use crate::shapes::{cut, cut_at, fill_like, filled_like, rows_of, same_shape};

verus! {

/// The closed set of activation functions.
#[derive(Clone, Copy, Debug, PartialEq, Eq, Structural)]
pub enum Activation {
    /// The identity: outputs equal the weighted sums.
    Linear,
    /// Rectified linear unit.
    Relu,
    /// Exponential linear unit.
    Elu,
    /// Logistic sigmoid.
    Sigmoid,
    /// Normalised exponentials over a whole output vector.
    Softmax,
}

impl Activation {
    /// Whether the activation has an element-wise derivative of its own.
    ///
    /// Softmax has none: each of its outputs depends on every input, so it can
    /// only sit behind an objective that folds the derivative into its
    /// gradient seed.
    pub open spec fn differentiable(self) -> bool {
        self != Activation::Softmax
    }

    /// Executable form of [`Activation::differentiable`].
    pub fn has_derivative(&self) -> (b: bool)
        ensures
            b == self.differentiable(),
    {
        match self {
            Activation::Softmax => false,
            _ => true,
        }
    }
}

/// Marker for [`Activation::Elu`].
#[derive(Clone, Copy, Debug)]
pub struct Elu;

/// The identity activation, [`Activation::Linear`].
#[derive(Clone, Copy, Debug)]
pub struct Linear;

/// The rectified linear unit, [`Activation::Relu`].
#[derive(Clone, Copy, Debug)]
pub struct Relu;

/// Marker for [`Activation::Sigmoid`].
#[derive(Clone, Copy, Debug)]
pub struct Sigmoid;

/// Marker for [`Activation::Softmax`].
#[derive(Clone, Copy, Debug)]
pub struct Softmax;

impl Elu {
    /// The variant this marker stands for.
    pub fn activation(&self) -> (a: Activation)
        ensures
            a == Activation::Elu,
    {
        Activation::Elu
    }
}

impl Linear {
    /// The variant this marker stands for.
    pub fn activation(&self) -> (a: Activation)
        ensures
            a == Activation::Linear,
    {
        Activation::Linear
    }

    /// The outputs for a batch of weighted sums: the sums themselves.
    pub fn activate<T: Copy>(&self, logits: &Vec<Vec<T>>) -> (outputs: Vec<Vec<T>>)
        ensures
            rows_of(outputs@) == rows_of(logits@),
    {
        let mut outputs: Vec<Vec<T>> = Vec::new();
        let mut r: usize = 0;
        while r < logits.len()
            invariant
                r <= logits.len(),
                outputs.len() == r,
                forall|k: int| 0 <= k < r ==> (#[trigger] outputs@[k])@ == logits@[k]@,
            decreases logits.len() - r,
        {
            let row = &logits[r];
            let mut out: Vec<T> = Vec::new();
            let mut i: usize = 0;
            while i < row.len()
                invariant
                    i <= row.len(),
                    out@ == row@.take(i as int),
                decreases row.len() - i,
            {
                out.push(row[i]);
                i += 1;
                assert(out@ =~= row@.take(i as int));
            }
            assert(row@.take(i as int) =~= row@);
            outputs.push(out);
            r += 1;
        }
        assert(rows_of(outputs@) =~= rows_of(logits@));
        outputs
    }

    /// The derivatives for a batch of outputs: `one` for every one of them.
    pub fn derived<T: Copy>(&self, outputs: &Vec<Vec<T>>, one: T) -> (derivs: Vec<Vec<T>>)
        ensures
            rows_of(derivs@) == filled_like(rows_of(outputs@), one),
    {
        fill_like(outputs, one)
    }
}

impl Relu {
    /// The variant this marker stands for.
    pub fn activation(&self) -> (a: Activation)
        ensures
            a == Activation::Relu,
    {
        Activation::Relu
    }

    /// The outputs for a batch of weighted sums: `zero` in place of every
    /// negative sum, the sum itself otherwise.
    pub open spec fn spec_activate<T>(logits: Seq<Seq<T>>, keys: Seq<Seq<i64>>, zero: T) -> Seq<
        Seq<T>,
    > {
        Seq::new(
            logits.len(),
            |r: int|
                Seq::new(
                    logits[r].len(),
                    |i: int|
                        if keys[r][i] < 0 {
                            zero
                        } else {
                            logits[r][i]
                        },
                ),
        )
    }

    /// Computes the outputs for a batch of weighted sums.
    ///
    /// `keys` holds the key of every sum: an integer that is negative exactly
    /// where the sum is.
    pub fn activate<T: Copy>(&self, logits: &Vec<Vec<T>>, keys: &Vec<Vec<i64>>, zero: T) -> (outputs:
        Vec<Vec<T>>)
        requires
            same_shape(rows_of(logits@), rows_of(keys@)),
        ensures
            rows_of(outputs@) == Self::spec_activate(rows_of(logits@), rows_of(keys@), zero),
    {
        let ghost wanted = Self::spec_activate(rows_of(logits@), rows_of(keys@), zero);
        let mut outputs: Vec<Vec<T>> = Vec::new();
        let mut r: usize = 0;
        while r < logits.len()
            invariant
                r <= logits.len(),
                outputs.len() == r,
                same_shape(rows_of(logits@), rows_of(keys@)),
                wanted == Self::spec_activate(rows_of(logits@), rows_of(keys@), zero),
                forall|k: int| 0 <= k < r ==> (#[trigger] outputs@[k])@ == wanted[k],
            decreases logits.len() - r,
        {
            assert(rows_of(logits@)[r as int].len() == rows_of(keys@)[r as int].len());
            let row = &logits[r];
            let key_row = &keys[r];
            let mut out: Vec<T> = Vec::new();
            let mut i: usize = 0;
            while i < row.len()
                invariant
                    i <= row.len(),
                    r < logits.len(),
                    row == logits@[r as int],
                    key_row == keys@[r as int],
                    row.len() == key_row.len(),
                    same_shape(rows_of(logits@), rows_of(keys@)),
                    wanted == Self::spec_activate(rows_of(logits@), rows_of(keys@), zero),
                    out@ == wanted[r as int].take(i as int),
                decreases row.len() - i,
            {
                if key_row[i] < 0 {
                    out.push(zero);
                } else {
                    out.push(row[i]);
                }
                i += 1;
                assert(out@ =~= wanted[r as int].take(i as int));
            }
            assert(wanted[r as int].take(i as int) =~= wanted[r as int]);
            outputs.push(out);
            r += 1;
        }
        assert(rows_of(outputs@) =~= wanted);
        outputs
    }

    /// The derivatives for a batch of outputs: `one` wherever the output is
    /// above zero, `zero` elsewhere, so also where the output is exactly
    /// zero.
    ///
    /// `keys` holds the key of every output: an integer that is positive
    /// exactly where the output is.
    pub fn derived<T: Copy>(&self, keys: &Vec<Vec<i64>>, zero: T, one: T) -> (derivs: Vec<Vec<T>>)
        ensures
            rows_of(derivs@) == cut(rows_of(keys@), 0, zero, one),
    {
        cut_at(keys, 0, zero, one)
    }
}

impl Sigmoid {
    /// The variant this marker stands for.
    pub fn activation(&self) -> (a: Activation)
        ensures
            a == Activation::Sigmoid,
    {
        Activation::Sigmoid
    }
}

impl Softmax {
    /// The variant this marker stands for.
    pub fn activation(&self) -> (a: Activation)
        ensures
            a == Activation::Softmax,
    {
        Activation::Softmax
    }
}

} // verus!
