use avicenna::chain::{output, perceptron, relu, sigmoid, tanh, Chain};
use avicenna::layers::{Activation, ActivationFunction, Layer, Perceptron, ShapeError};
use avicenna::state::LayerState;

fn xor_chain() -> Chain<f32> {
    let tail = perceptron(2, vec![100., 100.], vec![-150.], sigmoid(output(1))).unwrap();
    perceptron(2, vec![100., 100., -100., -100.], vec![-50., 150.], sigmoid(tail)).unwrap()
}

/// An integer stand-in for the layer arithmetic: affine for dense layers, clamping at zero
/// for activations, identity for the terminal.
fn process(layer: &Layer<i64>, x: &[i64]) -> Vec<i64> {
    match layer {
        Layer::Perceptron(p) => (0..p.bias.len())
            .map(|r| (0..p.width).map(|c| p.weight(r, c) * x[c]).sum::<i64>() + p.bias[r])
            .collect(),
        Layer::Activation(_) => x.iter().map(|v| (*v).max(0)).collect(),
        Layer::Output(_) => x.to_vec(),
    }
}

fn process_all(chain: &Chain<i64>, x: &[i64]) -> Vec<i64> {
    let mut v = x.to_vec();
    for i in 0..chain.len() - 1 {
        v = process(chain.layer(i), &v);
    }
    v
}

fn tick(chain: &mut Chain<i64>) {
    let out = match chain.pending(0) {
        Some(k) => process(chain.layer(k), chain.state(k).get_input().unwrap()),
        None => Vec::new(),
    };
    chain.advance(0, out);
}

fn int_chain() -> Chain<i64> {
    let tail = perceptron(3, vec![1, -1, 2], vec![5], output(1)).unwrap();
    perceptron(2, vec![1, 2, 3, 4, -5, -6], vec![0, 1, -1], relu(tail)).unwrap()
}

#[test]
fn xor_chain_has_expected_shape() {
    let c = xor_chain();
    assert_eq!(c.len(), 5);
    assert_eq!(c.width(), 2);
    let widths: Vec<(usize, usize)> =
        (0..c.len()).map(|i| (c.layer(i).width(), c.layer(i).output_width())).collect();
    assert_eq!(widths, vec![(2, 2), (2, 2), (2, 1), (1, 1), (1, 1)]);
    assert!(matches!(c.layer(1), Layer::Activation(a) if a.function == ActivationFunction::Sigmoid));
    assert!(matches!(c.layer(4), Layer::Output(o) if o.width == 1));
    for i in 0..c.len() {
        assert!(matches!(c.state(i), LayerState::NeedsInput));
    }
}

#[test]
fn activation_constructors_keep_width_and_kind() {
    assert_eq!(Activation::sigmoid(3).function, ActivationFunction::Sigmoid);
    assert_eq!(Activation::tanh(4).function, ActivationFunction::Tanh);
    assert_eq!(Activation::relu(5).width, 5);
    let c: Chain<f32> = tanh(relu(output(3)));
    assert_eq!(c.len(), 3);
    assert!(matches!(c.layer(0), Layer::Activation(a) if a.function == ActivationFunction::Tanh && a.width == 3));
    assert!(matches!(c.layer(1), Layer::Activation(a) if a.function == ActivationFunction::Relu));
}

#[test]
fn wrong_weight_length_is_rejected() {
    let r = perceptron::<f32>(2, vec![1., 2., 3.], vec![0., 0.], output(2));
    assert!(matches!(r, Err(ShapeError::WeightsLength { expected: 4, found: 3 })));
}

#[test]
fn wrong_bias_length_is_rejected() {
    let r = perceptron::<f32>(2, vec![1., 2., 3., 4.], vec![0.], output(2));
    assert!(matches!(r, Err(ShapeError::BiasLength { expected: 2, found: 1 })));
}

#[test]
fn overflowing_shape_is_rejected() {
    let r = Perceptron::<u8>::from_array(usize::MAX, 2, vec![], vec![0, 0]);
    assert!(matches!(r, Err(ShapeError::WeightsLength { expected: usize::MAX, found: 0 })));
}

#[test]
fn weights_are_row_major() {
    let p = Perceptron::from_array(2, 2, vec![1, 2, 3, 4], vec![0, 0]).unwrap();
    assert_eq!(p.weight(0, 0), 1);
    assert_eq!(p.weight(0, 1), 2);
    assert_eq!(p.weight(1, 0), 3);
    assert_eq!(p.weight(1, 1), 4);
    let rect = Perceptron::from_array(3, 1, vec![7, 8, 9], vec![0]).unwrap();
    assert_eq!(rect.weight(0, 2), 9);
}

#[test]
fn affine_scenario_with_integer_entries() {
    let c = perceptron(2, vec![1, 2, 3, 4], vec![0, 0], output(2)).unwrap();
    assert_eq!(process(c.layer(0), &[1, 1]), vec![3, 7]);
}

#[test]
fn feed_overwrites_forward_state() {
    let mut c = int_chain();
    c.feed(0, vec![1, 1]);
    tick(&mut c);
    assert!(c.state(0).is_done());
    assert_eq!(c.state(0).get_output(), Some(&vec![3, 8, -12]));
    c.feed(0, vec![2, 0]);
    assert!(matches!(c.state(0), LayerState::HasInput(v) if *v == vec![2, 0]));
    assert_eq!(c.state(0).get_output(), None);
    assert_eq!(c.state(1).get_input(), Some(&vec![3, 8, -12]));
}

#[test]
fn advance_on_empty_chain_changes_nothing() {
    let mut c = int_chain();
    assert_eq!(c.pending(0), None);
    c.advance(0, vec![9, 9, 9]);
    for i in 0..c.len() {
        assert!(matches!(c.state(i), LayerState::NeedsInput));
    }
}

#[test]
fn advance_computes_one_node_per_tick() {
    let mut c = int_chain();
    c.feed(0, vec![1, 1]);
    assert_eq!(c.pending(0), Some(0));
    tick(&mut c);
    assert_eq!(c.pending(0), Some(1));
    assert!(matches!(c.state(2), LayerState::NeedsInput));
    tick(&mut c);
    assert_eq!(c.state(2).get_input(), Some(&vec![3, 8, 0]));
    assert!(c.state(1).is_done());
    assert_eq!(c.pending(0), Some(2));
    tick(&mut c);
    assert_eq!(c.pending(0), None);
    assert_eq!(c.state(3).get_input(), Some(&vec![3 - 8 + 0 + 5]));
}

#[test]
fn staged_evaluation_matches_immediate() {
    for x in [vec![0, 0], vec![0, 1], vec![1, 0], vec![1, 1], vec![-3, 2]] {
        let mut c = int_chain();
        c.feed(2, vec![100, 100, 100]);
        c.feed(0, x.clone());
        for _ in 0..c.len() + 2 {
            tick(&mut c);
        }
        let last = c.len() - 1;
        assert_eq!(c.state(last).get_input(), Some(&process_all(&c, &x)));
    }
}

#[test]
fn reset_cascades_forward_only() {
    let mut c = int_chain();
    c.feed(0, vec![1, 1]);
    tick(&mut c);
    c.feed(2, vec![4, 5, 6]);
    c.reset(1);
    assert!(c.state(0).is_done());
    assert_eq!(c.state(0).get_input(), Some(&vec![1, 1]));
    for i in 1..c.len() {
        assert!(matches!(c.state(i), LayerState::NeedsInput));
    }
    c.reset(1);
    assert!(c.state(0).is_done());
    c.reset(0);
    assert!(!c.state(0).have_input());
}

#[test]
fn set_output_keeps_an_existing_output() {
    let mut s: LayerState<Vec<i64>> = LayerState::HasInput(vec![1]);
    s.set_output(vec![2]);
    assert_eq!(s.get_output(), Some(&vec![2]));
    s.set_output(vec![3]);
    assert_eq!(s.get_output(), Some(&vec![2]));
    assert_eq!(s.get_input(), Some(&vec![1]));
}

#[test]
fn process_all_leaves_states_alone() {
    let mut c = int_chain();
    c.feed(0, vec![1, 1]);
    tick(&mut c);
    let _ = process_all(&c, &[5, 5]);
    assert!(c.state(0).is_done());
    assert!(matches!(c.state(1), LayerState::HasInput(v) if *v == vec![3, 8, -12]));
}
