use ann_rs::optimizers::{Adam, Moments, SGD};

fn adam() -> Adam<f64> {
    Adam::new(0.01, 0.9, 0.999, 1e-8)
}

#[test]
fn sgd_keeps_its_rate() {
    assert_eq!(SGD::new(0.8).learning_rate, 0.8);
}

#[test]
fn a_new_adam_has_met_no_layer() {
    let adam = adam();
    assert_eq!(adam.learning_rate, 0.01);
    assert_eq!(adam.beta1(), 0.9);
    assert_eq!(adam.beta2(), 0.999);
    assert_eq!(adam.eps(), 1e-8);
    assert_eq!(adam.count(), 0);
    assert_eq!(adam.layers_seen(), 0);
}

#[test]
fn the_first_update_of_a_layer_gives_it_zero_estimates() {
    let mut adam = adam();
    let gradients = vec![vec![0.5, -0.5, 2.0], vec![1.0, 1.0, 1.0]];
    let bias_gradients = vec![0.25, 0.75];
    let step = adam.begin_update(0, &gradients, &bias_gradients, 0.0);
    assert_eq!(step, 1);
    assert_eq!(adam.layers_seen(), 1);
    let moments = adam.moments(0);
    assert_eq!(moments.gradient_mt, vec![vec![0.0; 3]; 2]);
    assert_eq!(moments.gradient_vt, vec![vec![0.0; 3]; 2]);
    assert_eq!(moments.bias_gradient_mt, vec![0.0; 2]);
    assert_eq!(moments.bias_gradient_vt, vec![0.0; 2]);
}

#[test]
fn the_pass_counter_moves_with_the_first_layer_only() {
    let mut adam = adam();
    let g0 = vec![vec![1.0, 2.0]];
    let b0 = vec![1.0];
    let g1 = vec![vec![1.0]];
    let b1 = vec![1.0];
    assert_eq!(adam.begin_update(0, &g0, &b0, 0.0), 1);
    assert_eq!(adam.begin_update(1, &g1, &b1, 0.0), 1);
    assert_eq!(adam.begin_update(0, &g0, &b0, 0.0), 2);
    assert_eq!(adam.begin_update(1, &g1, &b1, 0.0), 2);
    assert_eq!(adam.begin_update(0, &g0, &b0, 0.0), 3);
    assert_eq!(adam.count(), 3);
    assert_eq!(adam.layers_seen(), 2);
}

#[test]
fn two_updates_with_the_same_gradients_run_in_different_states() {
    let mut adam = adam();
    let gradients = vec![vec![0.5]];
    let bias_gradients = vec![0.5];
    let first = adam.begin_update(0, &gradients, &bias_gradients, 0.0);
    adam.set_moments(
        0,
        Moments {
            gradient_mt: vec![vec![0.05]],
            bias_gradient_mt: vec![0.05],
            gradient_vt: vec![vec![0.00025]],
            bias_gradient_vt: vec![0.00025],
        },
    );
    let second = adam.begin_update(0, &gradients, &bias_gradients, 0.0);
    assert_eq!(first, 1);
    assert_eq!(second, 2);
    assert_eq!(adam.layers_seen(), 1);
    assert_eq!(adam.moments(0).gradient_mt, vec![vec![0.05]]);
    assert_eq!(adam.moments(0).bias_gradient_vt, vec![0.00025]);
}

#[test]
fn estimates_stay_until_they_are_replaced() {
    let mut adam = adam();
    adam.begin_update(0, &vec![vec![1.0, 1.0]], &vec![1.0], 0.0);
    adam.begin_update(1, &vec![vec![1.0]], &vec![1.0], 0.0);
    adam.set_moments(
        1,
        Moments {
            gradient_mt: vec![vec![0.1]],
            bias_gradient_mt: vec![0.2],
            gradient_vt: vec![vec![0.3]],
            bias_gradient_vt: vec![0.4],
        },
    );
    adam.begin_update(0, &vec![vec![5.0, 5.0]], &vec![5.0], 0.0);
    adam.begin_update(1, &vec![vec![5.0]], &vec![5.0], 0.0);
    assert_eq!(adam.moments(0).gradient_mt, vec![vec![0.0, 0.0]]);
    assert_eq!(adam.moments(1).gradient_mt, vec![vec![0.1]]);
    assert_eq!(adam.moments(1).bias_gradient_mt, vec![0.2]);
    assert_eq!(adam.moments(1).gradient_vt, vec![vec![0.3]]);
    assert_eq!(adam.moments(1).bias_gradient_vt, vec![0.4]);
    assert_eq!(adam.count(), 2);
}

#[test]
fn only_known_layers_and_the_next_one_can_be_updated() {
    let mut adam = adam();
    assert!(adam.can_begin(0));
    assert!(!adam.can_begin(1));
    adam.begin_update(0, &vec![vec![1.0]], &vec![1.0], 0.0);
    assert!(adam.can_begin(0));
    assert!(adam.can_begin(1));
    assert!(!adam.can_begin(2));
}

#[test]
fn estimates_follow_the_shape_of_ragged_gradients() {
    let mut adam: Adam<i32> = Adam::new(1, 2, 3, 4);
    adam.begin_update(0, &vec![vec![7, 7], vec![], vec![7]], &vec![], -1);
    let moments = adam.moments(0);
    assert_eq!(moments.gradient_mt, vec![vec![-1, -1], vec![], vec![-1]]);
    assert_eq!(moments.gradient_vt, vec![vec![-1, -1], vec![], vec![-1]]);
    assert_eq!(moments.bias_gradient_mt, Vec::<i32>::new());
    assert_eq!(moments.bias_gradient_vt, Vec::<i32>::new());
}
