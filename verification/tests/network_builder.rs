use ann_rs::activators::Activation;
use ann_rs::objectives::{CrossEntropy, MeanSquareError};
use ann_rs::optimizers::SGD;
use ann_rs::NetworkBuilder;

#[test]
fn the_builder_hands_each_width_on() {
    let builder = NetworkBuilder::new().input::<f64>(3);
    assert_eq!(builder.input_dim(), 3);
    let builder = builder.add_layer_with_weights_and_bias(
        4,
        Activation::Relu,
        vec![vec![0.1; 3]; 4],
        vec![0.0; 4],
    );
    assert_eq!(builder.input_dim(), 4);
    let builder = builder.add_layer_with_weights_and_bias(
        2,
        Activation::Elu,
        vec![vec![0.2; 4]; 2],
        vec![0.5; 2],
    );
    assert_eq!(builder.input_dim(), 2);
}

#[test]
fn a_layer_whose_weights_expect_another_width_is_not_accepted() {
    let builder = NetworkBuilder::new()
        .input::<f64>(3)
        .add_layer_with_weights_and_bias(4, Activation::Relu, vec![vec![0.1; 3]; 4], vec![0.0; 4]);
    let five_wide = vec![vec![0.1; 5]; 2];
    let bias = vec![0.0; 2];
    assert!(!builder.accepts(2, &five_wide, &bias));
    assert!(builder.accepts(2, &vec![vec![0.1; 4]; 2], &bias));
}

#[test]
fn seeds_have_to_match_the_declared_node_count() {
    let builder = NetworkBuilder::new().input::<f64>(2);
    assert!(builder.accepts(2, &vec![vec![1.0, 1.0]; 2], &vec![0.0; 2]));
    assert!(!builder.accepts(3, &vec![vec![1.0, 1.0]; 2], &vec![0.0; 3]));
    assert!(!builder.accepts(2, &vec![vec![1.0, 1.0]; 2], &vec![0.0; 3]));
    assert!(!builder.accepts(2, &vec![vec![1.0, 1.0], vec![1.0]], &vec![0.0; 2]));
}

#[test]
fn build_keeps_layers_objective_and_optimizer() {
    let w1 = vec![vec![20., 20.], vec![-20., -20.]];
    let b1 = vec![-10., 30.];
    let w2 = vec![vec![20., 20.]];
    let b2 = vec![-30.];
    let network = NetworkBuilder::new()
        .input(2)
        .add_layer_with_weights_and_bias(2, Activation::Sigmoid, w1.clone(), b1.clone())
        .output_with_weights_and_bias(1, w2.clone(), b2.clone())
        .minimize_to(MeanSquareError::new())
        .optimize_with(SGD::new(0.1))
        .build();
    assert_eq!(network.num_layers(), 2);
    assert_eq!(network.layer(0).weights(), &w1);
    assert_eq!(network.layer(0).bias(), &b1);
    assert_eq!(network.layer(0).activator(), Activation::Sigmoid);
    assert_eq!(network.layer(0).input_dim(), 2);
    assert_eq!(network.layer(1).weights(), &w2);
    assert_eq!(network.layer(1).bias(), &b2);
    assert_eq!(network.layer(1).activator(), Activation::Linear);
    assert_eq!(network.layer(1).input_dim(), 2);
    assert_eq!(network.optimizer().learning_rate, 0.1);
}

#[test]
fn a_network_can_consist_of_the_output_layer_alone() {
    let network = NetworkBuilder::new()
        .input(4)
        .output_with_weights_and_bias(3, vec![vec![0.0; 4]; 3], vec![0.0; 3])
        .minimize_to(CrossEntropy::new())
        .optimize_with(SGD::new(0.0001))
        .build();
    assert_eq!(network.num_layers(), 1);
    assert_eq!(network.input_dim(), 4);
    assert_eq!(network.output_dim(), 3);
}
