//! One dense layer: a weight matrix, a bias vector and an activation.

use vstd::prelude::*;
use crate::activators::Activation;
use crate::shapes::{has_shape, is_matrix, rows_of};

verus! {

/// A dense layer. Row `o` of the weight matrix holds the weights of node `o`,
/// one per input; the bias holds one entry per node.
///
/// The shape is fixed when the layer is made. Parameters can be replaced
/// later, but only by ones of the same shape.
pub struct Layer<T> {
    input_dim: usize,
    weights: Vec<Vec<T>>,
    bias: Vec<T>,
    activator: Activation,
}

/// What a [`Layer`] holds, as mathematical values.
pub struct LayerView<T> {
    /// Number of inputs every node reads.
    pub input_dim: nat,
    /// One row of weights per node.
    pub weights: Seq<Seq<T>>,
    /// One bias per node.
    pub bias: Seq<T>,
    pub activator: Activation,
}

impl<T> LayerView<T> {
    /// Number of nodes, which is also the width of the layer's output.
    pub open spec fn num_nodes(self) -> nat {
        self.bias.len()
    }

    /// The weights form a `num_nodes` by `input_dim` matrix.
    pub open spec fn well_formed(self) -> bool {
        is_matrix(self.weights, self.num_nodes(), self.input_dim)
    }

    /// Whether `weights` and `bias` could stand in for this layer's
    /// parameters without changing its shape.
    pub open spec fn admits(self, weights: Seq<Seq<T>>, bias: Seq<T>) -> bool {
        &&& is_matrix(weights, self.num_nodes(), self.input_dim)
        &&& bias.len() == self.num_nodes()
    }

    /// This layer with its parameters replaced.
    pub open spec fn with_parameters(self, weights: Seq<Seq<T>>, bias: Seq<T>) -> Self {
        LayerView { weights, bias, ..self }
    }
}

impl<T> View for Layer<T> {
    type V = LayerView<T>;

    closed spec fn view(&self) -> LayerView<T> {
        LayerView {
            input_dim: self.input_dim as nat,
            weights: rows_of(self.weights@),
            bias: self.bias@,
            activator: self.activator,
        }
    }
}

impl<T> Layer<T> {
    #[verifier::type_invariant]
    spec fn shape_is_kept(&self) -> bool {
        self@.well_formed()
    }

    /// Whether `weights` and `bias` fit a layer of `num_nodes` nodes that
    /// reads `input_dim` inputs.
    pub open spec fn spec_fits(
        input_dim: nat,
        num_nodes: nat,
        weights: Seq<Seq<T>>,
        bias: Seq<T>,
    ) -> bool {
        &&& is_matrix(weights, num_nodes, input_dim)
        &&& bias.len() == num_nodes
    }

    /// Executable form of [`Layer::spec_fits`].
    pub fn fits(input_dim: usize, num_nodes: usize, weights: &Vec<Vec<T>>, bias: &Vec<T>) -> (ok:
        bool)
        ensures
            ok == Self::spec_fits(input_dim as nat, num_nodes as nat, rows_of(weights@), bias@),
    {
        has_shape(weights, num_nodes, input_dim) && bias.len() == num_nodes
    }

    /// A layer of `num_nodes` nodes over `input_dim` inputs with the given
    /// parameters.
    pub fn new(
        input_dim: usize,
        num_nodes: usize,
        activator: Activation,
        weights: Vec<Vec<T>>,
        bias: Vec<T>,
    ) -> (layer: Self)
        requires
            Self::spec_fits(input_dim as nat, num_nodes as nat, rows_of(weights@), bias@),
        ensures
            layer@ == (LayerView {
                input_dim: input_dim as nat,
                weights: rows_of(weights@),
                bias: bias@,
                activator,
            }),
            layer@.well_formed(),
    {
        Layer { input_dim, weights, bias, activator }
    }

    /// Number of inputs every node reads.
    pub fn input_dim(&self) -> (n: usize)
        ensures
            n == self@.input_dim,
            self@.well_formed(),
    {
        proof {
            use_type_invariant(self);
        }
        self.input_dim
    }

    /// Number of nodes.
    pub fn num_nodes(&self) -> (n: usize)
        ensures
            n == self@.num_nodes(),
            self@.well_formed(),
    {
        proof {
            use_type_invariant(self);
        }
        self.bias.len()
    }

    /// The activation applied to the weighted sums.
    pub fn activator(&self) -> (a: Activation)
        ensures
            a == self@.activator,
    {
        self.activator
    }

    /// The weight matrix, one row per node.
    pub fn weights(&self) -> (w: &Vec<Vec<T>>)
        ensures
            rows_of(w@) == self@.weights,
            self@.well_formed(),
    {
        proof {
            use_type_invariant(self);
        }
        &self.weights
    }

    /// The bias vector, one entry per node.
    pub fn bias(&self) -> (b: &Vec<T>)
        ensures
            b@ == self@.bias,
    {
        &self.bias
    }

    /// Whether `weights` and `bias` have this layer's shape.
    pub fn admits(&self, weights: &Vec<Vec<T>>, bias: &Vec<T>) -> (ok: bool)
        ensures
            ok == self@.admits(rows_of(weights@), bias@),
    {
        has_shape(weights, self.bias.len(), self.input_dim) && bias.len() == self.bias.len()
    }

    /// Replaces the parameters by others of the same shape.
    pub fn set_parameters(&mut self, weights: Vec<Vec<T>>, bias: Vec<T>)
        requires
            old(self)@.admits(rows_of(weights@), bias@),
        ensures
            final(self)@ == old(self)@.with_parameters(rows_of(weights@), bias@),
            final(self)@.well_formed(),
    {
        self.weights = weights;
        self.bias = bias;
    }
}

} // verus!
