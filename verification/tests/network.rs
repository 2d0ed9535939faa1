use ann_rs::activators::Activation;
use ann_rs::layers::Layer;
use ann_rs::network::{layers_chain, Network};
use ann_rs::objectives::{BinaryCrossEntropy, CrossEntropy, MeanSquareError};
use ann_rs::optimizers::{Adam, SGD};
use ann_rs::NetworkBuilder;

fn zeros(rows: usize, cols: usize) -> Vec<Vec<f64>> {
    vec![vec![0.0; cols]; rows]
}

fn layer(input_dim: usize, num_nodes: usize, activator: Activation) -> Layer<f64> {
    Layer::new(
        input_dim,
        num_nodes,
        activator,
        zeros(num_nodes, input_dim),
        vec![0.0; num_nodes],
    )
}

fn xor_network() -> Network<f64, BinaryCrossEntropy, Adam<f64>> {
    NetworkBuilder::new()
        .input(2)
        .add_layer_with_weights_and_bias(10, Activation::Sigmoid, zeros(10, 2), vec![0.0; 10])
        .output_with_weights_and_bias(1, zeros(1, 10), vec![0.0])
        .minimize_to(BinaryCrossEntropy::new())
        .optimize_with(Adam::new(0.01, 0.9, 0.999, 1e-8))
        .build()
}

#[test]
fn layers_chain_when_widths_match() {
    let layers = vec![
        layer(3, 4, Activation::Relu),
        layer(4, 2, Activation::Sigmoid),
        layer(2, 1, Activation::Linear),
    ];
    assert!(layers_chain(&layers));
    assert!(layers_chain(&vec![layer(7, 7, Activation::Elu)]));
}

#[test]
fn layers_do_not_chain_when_a_width_is_off() {
    let layers = vec![layer(3, 4, Activation::Relu), layer(5, 2, Activation::Linear)];
    assert!(!layers_chain(&layers));
    let late = vec![
        layer(3, 4, Activation::Relu),
        layer(4, 2, Activation::Relu),
        layer(3, 1, Activation::Linear),
    ];
    assert!(!layers_chain(&late));
}

#[test]
fn no_layers_make_no_network() {
    let none: Vec<Layer<f64>> = vec![];
    assert!(!layers_chain(&none));
}

#[test]
fn a_network_knows_its_widths() {
    let network = xor_network();
    assert_eq!(network.num_layers(), 2);
    assert_eq!(network.input_dim(), 2);
    assert_eq!(network.output_dim(), 1);
    assert_eq!(network.layer(0).num_nodes(), 10);
    assert_eq!(network.layer(0).activator(), Activation::Sigmoid);
    assert_eq!(network.layer(1).input_dim(), 10);
    assert_eq!(network.layer(1).activator(), Activation::Linear);
    assert_eq!(network.optimizer().learning_rate, 0.01);
}

#[test]
fn new_takes_layers_that_chain() {
    let layers = vec![layer(3, 4, Activation::Relu), layer(4, 2, Activation::Linear)];
    assert!(layers_chain(&layers));
    let network = Network::new(layers, MeanSquareError::new(), SGD::new(0.5));
    assert_eq!(network.num_layers(), 2);
    assert_eq!(network.input_dim(), 3);
    assert_eq!(network.output_dim(), 2);
    assert_eq!(network.optimizer().learning_rate, 0.5);
}

#[test]
fn samples_are_checked_against_the_outer_widths() {
    let network = xor_network();
    assert!(network.accepts_input(&vec![0.0, 1.0]));
    assert!(!network.accepts_input(&vec![0.0]));
    assert!(!network.accepts_input(&vec![0.0, 1.0, 1.0]));
    assert!(network.accepts_expected(&vec![1.0]));
    assert!(!network.accepts_expected(&vec![]));
    assert!(!network.accepts_expected(&vec![1.0, 0.0]));
}

#[test]
fn whole_sets_are_checked_sample_by_sample() {
    let network = xor_network();
    let inputs = vec![vec![0., 0.], vec![0., 1.], vec![1., 0.], vec![1., 1.]];
    let labels = vec![vec![0.], vec![1.], vec![1.], vec![0.]];
    assert!(network.accepts_inputs(&inputs));
    assert!(network.accepts_expecteds(&labels));
    assert!(!network.accepts_inputs(&labels));
    assert!(!network.accepts_expecteds(&inputs));
    assert!(!network.accepts_inputs(&vec![vec![0., 0.], vec![0.]]));
    assert!(network.accepts_inputs(&vec![]));
}

#[test]
fn parameters_of_one_layer_can_be_replaced() {
    let mut network = xor_network();
    let weights = vec![vec![0.5; 10]];
    let bias = vec![-1.0];
    assert!(network.admits(1, &weights, &bias));
    assert!(!network.admits(0, &weights, &bias));
    assert!(!network.admits(2, &weights, &bias));
    assert!(!network.admits(1, &vec![vec![0.5; 9]], &bias));
    network.set_parameters(1, weights.clone(), bias.clone());
    assert_eq!(network.layer(1).weights(), &weights);
    assert_eq!(network.layer(1).bias(), &bias);
    assert_eq!(network.layer(1).activator(), Activation::Linear);
    assert_eq!(network.layer(0).weights(), &zeros(10, 2));
    assert_eq!(network.num_layers(), 2);
    assert_eq!(network.input_dim(), 2);
    assert_eq!(network.output_dim(), 1);
}

#[test]
fn the_optimizer_is_updated_in_place() {
    let mut network = xor_network();
    let step = network
        .optimizer_mut()
        .begin_update(0, &zeros(10, 2), &vec![0.0; 10], 0.0);
    assert_eq!(step, 1);
    assert_eq!(network.optimizer().count(), 1);
    assert_eq!(network.optimizer().layers_seen(), 1);
    assert_eq!(network.num_layers(), 2);
}

#[test]
fn a_softmax_layer_cannot_be_trained_through() {
    let plain = xor_network();
    assert!(plain.is_differentiable());
    assert!(plain.is_trainable());
    let softmax = NetworkBuilder::new()
        .input(2)
        .add_layer_with_weights_and_bias(3, Activation::Softmax, zeros(3, 2), vec![0.0; 3])
        .output_with_weights_and_bias(1, zeros(1, 3), vec![0.0])
        .minimize_to(BinaryCrossEntropy::new())
        .optimize_with(SGD::new(0.1))
        .build();
    assert!(!softmax.is_differentiable());
    assert!(!softmax.is_trainable());
}

#[test]
fn the_objective_has_to_fit_the_output_width() {
    let wide = NetworkBuilder::new()
        .input(2)
        .output_with_weights_and_bias(3, zeros(3, 2), vec![0.0; 3])
        .minimize_to(BinaryCrossEntropy::new())
        .optimize_with(SGD::new(0.1))
        .build();
    assert!(wide.is_differentiable());
    assert!(!wide.is_trainable());
    let classes = NetworkBuilder::new()
        .input(2)
        .output_with_weights_and_bias(3, zeros(3, 2), vec![0.0; 3])
        .minimize_to(CrossEntropy::new())
        .optimize_with(SGD::new(0.1))
        .build();
    assert!(classes.is_trainable());
}
