//! A network: layers whose widths chain, one objective and one optimizer.

use vstd::prelude::*;
use crate::layers::{Layer, LayerView};
use crate::objectives::Objective;
use crate::shapes::{has_shape, is_matrix, rows_of};

verus! {

/// Every layer is well formed and feeds the next one exactly as many values
/// as that one reads.
pub open spec fn chained<T>(layers: Seq<LayerView<T>>) -> bool {
    &&& forall|i: int| 0 <= i < layers.len() ==> (#[trigger] layers[i]).well_formed()
    &&& forall|i: int, j: int|
        0 <= i && j == i + 1 && j < layers.len() ==> (#[trigger] layers[i]).num_nodes() == (
        #[trigger] layers[j]).input_dim
}

/// The views of a vector of layers.
pub open spec fn views_of<T>(layers: Seq<Layer<T>>) -> Seq<LayerView<T>> {
    Seq::new(layers.len(), |i: int| layers[i]@)
}

/// An ordered list of layers together with the objective it is trained
/// against and the optimizer that updates it.
pub struct Network<T, Obj, Opt> {
    layers: Vec<Layer<T>>,
    objective: Obj,
    optimizer: Opt,
}

/// What a [`Network`] holds, as mathematical values.
pub struct NetworkView<T, Obj, Opt> {
    pub layers: Seq<LayerView<T>>,
    pub objective: Obj,
    pub optimizer: Opt,
}

impl<T, Obj, Opt> NetworkView<T, Obj, Opt> {
    /// There is at least one layer and the layers chain.
    pub open spec fn well_formed(self) -> bool {
        &&& self.layers.len() > 0
        &&& chained(self.layers)
    }

    /// Width of the vectors the network reads.
    pub open spec fn input_dim(self) -> nat
        recommends
            self.layers.len() > 0,
    {
        self.layers[0].input_dim
    }

    /// Width of the vectors the network produces.
    pub open spec fn output_dim(self) -> nat
        recommends
            self.layers.len() > 0,
    {
        self.layers.last().num_nodes()
    }

    /// Width of the `k`-th vector recorded by a forward pass: the input for
    /// `k == 0`, the output of layer `k - 1` otherwise.
    pub open spec fn width(self, k: int) -> nat
        recommends
            0 <= k <= self.layers.len(),
    {
        if k == 0 {
            self.input_dim()
        } else {
            self.layers[k - 1].num_nodes()
        }
    }

    /// Every layer's activation has a derivative of its own, so a backward
    /// pass can go through all of them.
    pub open spec fn differentiable(self) -> bool {
        forall|i: int|
            0 <= i < self.layers.len() ==> (#[trigger] self.layers[i]).activator.differentiable()
    }

    /// The network with the parameters of layer `idx` replaced.
    pub open spec fn with_parameters(self, idx: int, weights: Seq<Seq<T>>, bias: Seq<T>) -> Self {
        NetworkView {
            layers: self.layers.update(idx, self.layers[idx].with_parameters(weights, bias)),
            ..self
        }
    }
}

impl<T, Obj, Opt> View for Network<T, Obj, Opt> {
    type V = NetworkView<T, Obj, Opt>;

    closed spec fn view(&self) -> NetworkView<T, Obj, Opt> {
        NetworkView {
            layers: views_of(self.layers@),
            objective: self.objective,
            optimizer: self.optimizer,
        }
    }
}

/// The widths recorded by a forward pass line up with the layers: layer `k`
/// reads vectors of the `k`-th width and writes vectors of the next one, and
/// the last width is the network's output width.
pub proof fn lemma_widths_chain<T, Obj, Opt>(network: NetworkView<T, Obj, Opt>)
    requires
        network.well_formed(),
    ensures
        forall|k: int|
            0 <= k < network.layers.len() ==> {
                &&& (#[trigger] network.layers[k]).input_dim == network.width(k)
                &&& network.layers[k].num_nodes() == network.width(k + 1)
            },
        network.width(network.layers.len() as int) == network.output_dim(),
{
    assert forall|k: int| 0 <= k < network.layers.len() implies {
        &&& (#[trigger] network.layers[k]).input_dim == network.width(k)
        &&& network.layers[k].num_nodes() == network.width(k + 1)
    } by {
        if k > 0 {
            assert(network.layers[k - 1].num_nodes() == network.layers[k].input_dim);
        }
    }
}

/// Replacing the parameters of a layer by others of its shape changes no
/// width and leaves the network well formed.
pub proof fn lemma_parameters_keep_widths<T, Obj, Opt>(
    network: NetworkView<T, Obj, Opt>,
    idx: int,
    weights: Seq<Seq<T>>,
    bias: Seq<T>,
)
    requires
        network.well_formed(),
        0 <= idx < network.layers.len(),
        network.layers[idx].admits(weights, bias),
    ensures
        network.with_parameters(idx, weights, bias).well_formed(),
        network.with_parameters(idx, weights, bias).layers.len() == network.layers.len(),
        forall|k: int|
            0 <= k <= network.layers.len() ==> network.with_parameters(idx, weights, bias).width(k)
                == #[trigger] network.width(k),
{
    let after = network.with_parameters(idx, weights, bias);
    assert forall|i: int| 0 <= i < after.layers.len() implies (
    #[trigger] after.layers[i]).well_formed() by {
        if i != idx {
            assert(after.layers[i] == network.layers[i]);
        }
    }
    assert forall|i: int, j: int| 0 <= i && j == i + 1 && j < after.layers.len() implies (
    #[trigger] after.layers[i]).num_nodes() == (#[trigger] after.layers[j]).input_dim by {
        assert(network.layers[i].num_nodes() == network.layers[j].input_dim);
    }
    assert forall|k: int| 0 <= k <= network.layers.len() implies after.width(k)
        == #[trigger] network.width(k) by {
        if k > 0 {
            assert(after.layers[k - 1].num_nodes() == network.layers[k - 1].num_nodes());
        }
    }
}

/// Decides whether `layers` can form a network: there is at least one and
/// each feeds the next as many values as that one reads.
pub fn layers_chain<T>(layers: &Vec<Layer<T>>) -> (ok: bool)
    ensures
        ok == (layers.len() > 0 && chained(views_of(layers@))),
{
    if layers.len() == 0 {
        return false;
    }
    let ghost views = views_of(layers@);
    let mut i: usize = 0;
    while i < layers.len()
        invariant
            i <= layers.len(),
            views == views_of(layers@),
            forall|k: int| 0 <= k < i ==> (#[trigger] views[k]).well_formed(),
            forall|k: int, j: int|
                0 <= k < i && j == k + 1 && j < views.len() ==> (#[trigger] views[k]).num_nodes()
                    == (#[trigger] views[j]).input_dim,
        decreases layers.len() - i,
    {
        let nodes = layers[i].num_nodes();
        assert(views[i as int].well_formed());
        if i + 1 < layers.len() && nodes != layers[i + 1].input_dim() {
            assert(views[i as int].num_nodes() != views[i + 1].input_dim);
            return false;
        }
        i += 1;
    }
    true
}

impl<T, Obj, Opt> Network<T, Obj, Opt> {
    /// Puts layers, objective and optimizer together.
    pub fn new(layers: Vec<Layer<T>>, objective: Obj, optimizer: Opt) -> (network: Self)
        requires
            layers.len() > 0,
            chained(views_of(layers@)),
        ensures
            network@ == (NetworkView { layers: views_of(layers@), objective, optimizer }),
            network@.well_formed(),
    {
        Network { layers, objective, optimizer }
    }

    /// Number of layers.
    pub fn num_layers(&self) -> (n: usize)
        ensures
            n == self@.layers.len(),
    {
        self.layers.len()
    }

    /// Width of the vectors the network reads.
    pub fn input_dim(&self) -> (n: usize)
        requires
            self@.well_formed(),
        ensures
            n == self@.input_dim(),
    {
        self.layers[0].input_dim()
    }

    /// Width of the vectors the network produces.
    pub fn output_dim(&self) -> (n: usize)
        requires
            self@.well_formed(),
        ensures
            n == self@.output_dim(),
    {
        self.layers[self.layers.len() - 1].num_nodes()
    }

    /// The layer at position `idx`.
    pub fn layer(&self, idx: usize) -> (layer: &Layer<T>)
        requires
            idx < self@.layers.len(),
        ensures
            layer@ == self@.layers[idx as int],
    {
        &self.layers[idx]
    }

    /// The objective the network is trained against.
    pub fn objective(&self) -> (objective: &Obj)
        ensures
            *objective == self@.objective,
    {
        &self.objective
    }

    /// The optimizer that updates the network.
    pub fn optimizer(&self) -> (optimizer: &Opt)
        ensures
            *optimizer == self@.optimizer,
    {
        &self.optimizer
    }

    /// Whether a backward pass can go through every layer.
    pub fn is_differentiable(&self) -> (ok: bool)
        ensures
            ok == self@.differentiable(),
    {
        let mut i: usize = 0;
        while i < self.layers.len()
            invariant
                i <= self.layers.len(),
                forall|k: int|
                    0 <= k < i ==> (#[trigger] self@.layers[k]).activator.differentiable(),
            decreases self.layers.len() - i,
        {
            if !self.layers[i].activator().has_derivative() {
                assert(!self@.layers[i as int].activator.differentiable());
                return false;
            }
            i += 1;
        }
        true
    }

    /// Whether `input` has the width the first layer reads.
    pub fn accepts_input(&self, input: &Vec<T>) -> (ok: bool)
        requires
            self@.well_formed(),
        ensures
            ok == (input@.len() == self@.input_dim()),
    {
        input.len() == self.input_dim()
    }

    /// Whether `expected` has the width the last layer produces.
    pub fn accepts_expected(&self, expected: &Vec<T>) -> (ok: bool)
        requires
            self@.well_formed(),
        ensures
            ok == (expected@.len() == self@.output_dim()),
    {
        expected.len() == self.output_dim()
    }

    /// Whether every vector of `inputs` has the width the first layer reads.
    pub fn accepts_inputs(&self, inputs: &Vec<Vec<T>>) -> (ok: bool)
        requires
            self@.well_formed(),
        ensures
            ok == is_matrix(rows_of(inputs@), inputs@.len(), self@.input_dim()),
    {
        has_shape(inputs, inputs.len(), self.input_dim())
    }

    /// Whether every vector of `expecteds` has the width the last layer
    /// produces.
    pub fn accepts_expecteds(&self, expecteds: &Vec<Vec<T>>) -> (ok: bool)
        requires
            self@.well_formed(),
        ensures
            ok == is_matrix(rows_of(expecteds@), expecteds@.len(), self@.output_dim()),
    {
        has_shape(expecteds, expecteds.len(), self.output_dim())
    }

    /// Whether `weights` and `bias` have the shape of layer `idx`.
    pub fn admits(&self, idx: usize, weights: &Vec<Vec<T>>, bias: &Vec<T>) -> (ok: bool)
        ensures
            ok == (idx < self@.layers.len() && self@.layers[idx as int].admits(
                rows_of(weights@),
                bias@,
            )),
    {
        idx < self.layers.len() && self.layers[idx].admits(weights, bias)
    }

    /// Replaces the parameters of layer `idx` by others of the same shape.
    pub fn set_parameters(&mut self, idx: usize, weights: Vec<Vec<T>>, bias: Vec<T>)
        requires
            old(self)@.well_formed(),
            idx < old(self)@.layers.len(),
            old(self)@.layers[idx as int].admits(rows_of(weights@), bias@),
        ensures
            final(self)@ == old(self)@.with_parameters(idx as int, rows_of(weights@), bias@),
            final(self)@.well_formed(),
    {
        let input_dim = self.layers[idx].input_dim();
        let activator = self.layers[idx].activator();
        let layer = Layer::new(input_dim, bias.len(), activator, weights, bias);
        self.layers.set(idx, layer);
        assert(self@.layers =~= old(self)@.with_parameters(
            idx as int,
            rows_of(weights@),
            bias@,
        ).layers);
    }

    /// The optimizer, for updating its state in place.
    pub fn optimizer_mut(&mut self) -> (optimizer: &mut Opt)
        ensures
            *optimizer == old(self)@.optimizer,
            final(self)@ == (NetworkView { optimizer: *final(optimizer), ..old(self)@ }),
    {
        &mut self.optimizer
    }
}

impl<T, Obj: Objective, Opt> NetworkView<T, Obj, Opt> {
    /// The network can be trained: a backward pass can go through every
    /// layer, and the objective can score what the last layer produces.
    pub open spec fn trainable(self) -> bool {
        &&& self.differentiable()
        &&& self.objective.scores_width(self.output_dim())
    }
}

impl<T, Obj: Objective, Opt> Network<T, Obj, Opt> {
    /// Executable form of [`NetworkView::trainable`].
    pub fn is_trainable(&self) -> (ok: bool)
        requires
            self@.well_formed(),
        ensures
            ok == self@.trainable(),
    {
        self.is_differentiable() && self.objective.accepts_width(self.output_dim())
    }
}

} // verus!
