//! Assembling a network step by step.
//!
//! The stages follow one another by type: first the input width, then any
//! number of hidden layers, then the output layer, the objective, the
//! optimizer. Each layer is checked against the width the stage before it
//! left, so a network that comes out of [`NetworkBuilderWithOptimizer::build`]
//! always chains.

use vstd::prelude::*;
use crate::activators::Activation;
use crate::layers::{Layer, LayerView};
use crate::network::{chained, views_of, Network, NetworkView};
use crate::shapes::rows_of;

verus! {

/// The layers chain and the last of them, if there is one, produces
/// `input_dim` values.
pub open spec fn leads_to<T>(layers: Seq<LayerView<T>>, input_dim: nat) -> bool {
    &&& chained(layers)
    &&& layers.len() > 0 ==> layers.last().num_nodes() == input_dim
}

/// Appending a layer that fits the width reached so far keeps the chain and
/// moves the width on to that layer's node count.
pub proof fn lemma_push_leads_on<T>(layers: Seq<LayerView<T>>, input_dim: nat, next: LayerView<T>)
    requires
        leads_to(layers, input_dim),
        next.well_formed(),
        next.input_dim == input_dim,
    ensures
        leads_to(layers.push(next), next.num_nodes()),
{
    let grown = layers.push(next);
    assert forall|i: int| 0 <= i < grown.len() implies (#[trigger] grown[i]).well_formed() by {
        if i < layers.len() {
            assert(grown[i] == layers[i]);
        }
    }
    assert forall|i: int, j: int| 0 <= i && j == i + 1 && j < grown.len() implies (
    #[trigger] grown[i]).num_nodes() == (#[trigger] grown[j]).input_dim by {
        assert(grown[i] == layers[i]);
        if j < layers.len() {
            assert(grown[j] == layers[j]);
        }
    }
}

/// The first stage: nothing is known yet.
pub struct NetworkBuilder;

/// The input width is known and hidden layers can be added.
pub struct NetworkBuilderWithInput<T> {
    input_dim: usize,
    layers: Vec<Layer<T>>,
}

/// The output layer is in place.
pub struct NetworkBuilderWithOutput<T> {
    layers: Vec<Layer<T>>,
}

/// The objective is chosen.
pub struct NetworkBuilderWithObjective<T, Obj> {
    layers: Vec<Layer<T>>,
    objective: Obj,
}

/// The optimizer is chosen: the network can be built.
pub struct NetworkBuilderWithOptimizer<T, Obj, Opt> {
    layers: Vec<Layer<T>>,
    objective: Obj,
    optimizer: Opt,
}

impl NetworkBuilder {
    /// Starts a new network.
    pub fn new() -> (builder: NetworkBuilder)
        ensures
            builder == NetworkBuilder,
    {
        NetworkBuilder
    }

    /// Fixes the width of the vectors the network will read.
    pub fn input<T>(self, input_dim: usize) -> (next: NetworkBuilderWithInput<T>)
        ensures
            next.spec_input_dim() == input_dim,
            next.spec_layers() == Seq::<LayerView<T>>::empty(),
    {
        let next = NetworkBuilderWithInput { input_dim, layers: Vec::new() };
        assert(next.spec_layers() =~= Seq::<LayerView<T>>::empty());
        next
    }
}

impl<T> NetworkBuilderWithInput<T> {
    #[verifier::type_invariant]
    spec fn layers_lead_here(&self) -> bool {
        leads_to(views_of(self.layers@), self.input_dim as nat)
    }

    /// The width the next layer has to read.
    pub closed spec fn spec_input_dim(&self) -> nat {
        self.input_dim as nat
    }

    /// The layers added so far.
    pub closed spec fn spec_layers(&self) -> Seq<LayerView<T>> {
        views_of(self.layers@)
    }

    /// The width the next layer has to read.
    pub fn input_dim(&self) -> (n: usize)
        ensures
            n == self.spec_input_dim(),
            leads_to(self.spec_layers(), self.spec_input_dim()),
    {
        proof {
            use_type_invariant(self);
        }
        self.input_dim
    }

    /// Whether a layer of `num_nodes` nodes with these parameters can come
    /// next.
    pub fn accepts(&self, num_nodes: usize, weights: &Vec<Vec<T>>, bias: &Vec<T>) -> (ok: bool)
        ensures
            ok == Layer::<T>::spec_fits(
                self.spec_input_dim(),
                num_nodes as nat,
                rows_of(weights@),
                bias@,
            ),
    {
        Layer::fits(self.input_dim, num_nodes, weights, bias)
    }

    /// Adds a hidden layer with the given activation and parameters.
    pub fn add_layer_with_weights_and_bias(
        self,
        num_nodes: usize,
        activator: Activation,
        seed_weights: Vec<Vec<T>>,
        seed_bias: Vec<T>,
    ) -> (next: NetworkBuilderWithInput<T>)
        requires
            Layer::<T>::spec_fits(
                self.spec_input_dim(),
                num_nodes as nat,
                rows_of(seed_weights@),
                seed_bias@,
            ),
        ensures
            next.spec_input_dim() == num_nodes,
            next.spec_layers() == self.spec_layers().push(
                LayerView {
                    input_dim: self.spec_input_dim(),
                    weights: rows_of(seed_weights@),
                    bias: seed_bias@,
                    activator,
                },
            ),
            leads_to(next.spec_layers(), next.spec_input_dim()),
    {
        proof {
            use_type_invariant(&self);
        }
        let NetworkBuilderWithInput { input_dim, mut layers } = self;
        let layer = Layer::new(input_dim, num_nodes, activator, seed_weights, seed_bias);
        proof {
            lemma_push_leads_on(views_of(layers@), input_dim as nat, layer@);
        }
        layers.push(layer);
        assert(views_of(layers@) =~= self.spec_layers().push(layer@));
        NetworkBuilderWithInput { input_dim: num_nodes, layers }
    }

    /// Adds the output layer with the given parameters. It hands on its
    /// weighted sums as they are.
    pub fn output_with_weights_and_bias(
        self,
        num_nodes: usize,
        seed_weights: Vec<Vec<T>>,
        seed_bias: Vec<T>,
    ) -> (next: NetworkBuilderWithOutput<T>)
        requires
            Layer::<T>::spec_fits(
                self.spec_input_dim(),
                num_nodes as nat,
                rows_of(seed_weights@),
                seed_bias@,
            ),
        ensures
            next.spec_layers() == self.spec_layers().push(
                LayerView {
                    input_dim: self.spec_input_dim(),
                    weights: rows_of(seed_weights@),
                    bias: seed_bias@,
                    activator: Activation::Linear,
                },
            ),
            chained(next.spec_layers()),
    {
        proof {
            use_type_invariant(&self);
        }
        let NetworkBuilderWithInput { input_dim, mut layers } = self;
        let layer = Layer::new(input_dim, num_nodes, Activation::Linear, seed_weights, seed_bias);
        proof {
            lemma_push_leads_on(views_of(layers@), input_dim as nat, layer@);
        }
        layers.push(layer);
        assert(views_of(layers@) =~= self.spec_layers().push(layer@));
        NetworkBuilderWithOutput { layers }
    }
}

impl<T> NetworkBuilderWithOutput<T> {
    #[verifier::type_invariant]
    spec fn layers_chain(&self) -> bool {
        self.layers@.len() > 0 && chained(views_of(self.layers@))
    }

    /// All layers, the output layer last.
    pub closed spec fn spec_layers(&self) -> Seq<LayerView<T>> {
        views_of(self.layers@)
    }

    /// Chooses the objective to minimize.
    pub fn minimize_to<Obj>(self, objective: Obj) -> (next: NetworkBuilderWithObjective<T, Obj>)
        ensures
            next.spec_layers() == self.spec_layers(),
            next.spec_objective() == objective,
    {
        proof {
            use_type_invariant(&self);
        }
        let NetworkBuilderWithOutput { layers } = self;
        NetworkBuilderWithObjective { layers, objective }
    }
}

impl<T, Obj> NetworkBuilderWithObjective<T, Obj> {
    #[verifier::type_invariant]
    spec fn layers_chain(&self) -> bool {
        self.layers@.len() > 0 && chained(views_of(self.layers@))
    }

    /// All layers, the output layer last.
    pub closed spec fn spec_layers(&self) -> Seq<LayerView<T>> {
        views_of(self.layers@)
    }

    /// The objective chosen.
    pub closed spec fn spec_objective(&self) -> Obj {
        self.objective
    }

    /// Chooses the optimizer to train with.
    pub fn optimize_with<Opt>(self, optimizer: Opt) -> (next: NetworkBuilderWithOptimizer<
        T,
        Obj,
        Opt,
    >)
        ensures
            next.spec_layers() == self.spec_layers(),
            next.spec_objective() == self.spec_objective(),
            next.spec_optimizer() == optimizer,
    {
        proof {
            use_type_invariant(&self);
        }
        let NetworkBuilderWithObjective { layers, objective } = self;
        NetworkBuilderWithOptimizer { layers, objective, optimizer }
    }
}

impl<T, Obj, Opt> NetworkBuilderWithOptimizer<T, Obj, Opt> {
    #[verifier::type_invariant]
    spec fn layers_chain(&self) -> bool {
        self.layers@.len() > 0 && chained(views_of(self.layers@))
    }

    /// All layers, the output layer last.
    pub closed spec fn spec_layers(&self) -> Seq<LayerView<T>> {
        views_of(self.layers@)
    }

    /// The objective chosen.
    pub closed spec fn spec_objective(&self) -> Obj {
        self.objective
    }

    /// The optimizer chosen.
    pub closed spec fn spec_optimizer(&self) -> Opt {
        self.optimizer
    }

    /// Builds the network.
    pub fn build(self) -> (network: Network<T, Obj, Opt>)
        ensures
            network@ == (NetworkView {
                layers: self.spec_layers(),
                objective: self.spec_objective(),
                optimizer: self.spec_optimizer(),
            }),
            network@.well_formed(),
    {
        proof {
            use_type_invariant(&self);
        }
        let NetworkBuilderWithOptimizer { layers, objective, optimizer } = self;
        Network::new(layers, objective, optimizer)
    }
}

} // verus!
