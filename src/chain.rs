use vstd::prelude::*;

use crate::layers::{Activation, ActivationFunction, Layer, OutputLayer, Perceptron, ShapeError};
use crate::state::{view_state, LayerState};

verus! {

/// The widths of a list of layers fit together: it ends in the one output layer, each layer
/// is well formed, and each layer gives as many entries as the next one takes.
pub open spec fn layers_wf<T>(layers: Seq<Layer<T>>) -> bool {
    &&& layers.len() >= 1
    &&& layers.last() is Output
    &&& forall|i: int| 0 <= i < layers.len() - 1 ==> !(#[trigger] layers[i] is Output)
    &&& forall|i: int| 0 <= i < layers.len() ==> (#[trigger] layers[i]).wf()
    &&& forall|i: int|
        0 <= i < layers.len() - 1 ==> (#[trigger] layers[i]).out_width() == layers[i
            + 1].in_width()
}

/// One state per layer, and every stored vector has the width of the place it is stored in.
pub open spec fn states_fit<T>(layers: Seq<Layer<T>>, states: Seq<LayerState<Seq<T>>>) -> bool {
    &&& states.len() == layers.len()
    &&& forall|i: int|
        0 <= i < states.len() ==> ((#[trigger] states[i]).input_of() matches Some(x) ==> x.len()
            == layers[i].in_width())
    &&& forall|i: int|
        0 <= i < states.len() ==> ((#[trigger] states[i]).output_of() matches Some(y) ==> y.len()
            == layers[i].out_width())
}

/// The node that computes on a tick that reaches node `i`: nodes that are done hand the tick
/// on, a node with a buffered input computes, and an empty node or the terminal stops it.
pub open spec fn pending_from<T>(states: Seq<LayerState<Seq<T>>>, i: int) -> Option<int>
    decreases states.len() - i,
{
    if i < 0 || i >= states.len() - 1 {
        None
    } else {
        match states[i] {
            LayerState::NeedsInput => None,
            LayerState::HasInput(_) => Some(i),
            LayerState::Forward { .. } => pending_from(states, i + 1),
        }
    }
}

/// Node `k` keeps its input beside the output `out`, and its successor is fed `out`.
pub open spec fn commit_at<T>(states: Seq<LayerState<Seq<T>>>, k: int, out: Seq<T>) -> Seq<
    LayerState<Seq<T>>,
> {
    states.update(
        k,
        LayerState::Forward { input: states[k].input_of().unwrap(), output: out },
    ).update(k + 1, LayerState::HasInput(out))
}

/// The states after one tick that reaches node `from`, where `out` is what the computing node
/// produced.
pub open spec fn tick<T>(states: Seq<LayerState<Seq<T>>>, from: int, out: Seq<T>) -> Seq<
    LayerState<Seq<T>>,
> {
    match pending_from(states, from) {
        Some(k) => commit_at(states, k, out),
        None => states,
    }
}

/// The states after node `j` is reset: it and every node after it are empty.
pub open spec fn reset_from<T>(states: Seq<LayerState<Seq<T>>>, j: int) -> Seq<
    LayerState<Seq<T>>,
> {
    Seq::new(
        states.len(),
        |i: int|
            if i >= j {
                LayerState::NeedsInput
            } else {
                states[i]
            },
    )
}

/// A linear chain of layers, first layer at index 0 and the output layer last, with the
/// staged-evaluation state of each node.
pub struct Chain<T> {
    layers: Vec<Layer<T>>,
    states: Vec<LayerState<Vec<T>>>,
}

/// Copies the entries of `v` into a new vector.
fn copy_vec<T: Copy>(v: &Vec<T>) -> (r: Vec<T>)
    ensures
        r@ == v@,
{
    let mut r: Vec<T> = Vec::with_capacity(v.len());
    let mut i: usize = 0;
    while i < v.len()
        invariant
            i <= v.len(),
            r@ == v@.subrange(0, i as int),
        decreases v.len() - i,
    {
        r.push(v[i]);
        i += 1;
    }
    assert(r@ =~= v@);
    r
}

impl<T> Chain<T> {
    pub closed spec fn layers(self) -> Seq<Layer<T>> {
        self.layers@
    }

    pub closed spec fn states(self) -> Seq<LayerState<Seq<T>>> {
        self.states@.map_values(|s: LayerState<Vec<T>>| view_state(s))
    }

    pub open spec fn wf(self) -> bool {
        layers_wf(self.layers()) && states_fit(self.layers(), self.states())
    }

    /// The number of entries the first layer takes.
    pub open spec fn in_width(self) -> nat {
        self.layers()[0].in_width()
    }

    /// The number of nodes, the output layer included.
    pub fn len(&self) -> (r: usize)
        ensures
            r == self.layers().len(),
    {
        self.layers.len()
    }

    /// The number of entries the first layer takes.
    pub fn width(&self) -> (r: usize)
        requires
            self.wf(),
        ensures
            r == self.in_width(),
    {
        self.layers[0].width()
    }

    /// The layer at node `node`.
    pub fn layer(&self, node: usize) -> (r: &Layer<T>)
        requires
            node < self.layers().len(),
        ensures
            *r == self.layers()[node as int],
    {
        &self.layers[node]
    }

    /// The staged-evaluation state of node `node`.
    pub fn state(&self, node: usize) -> (r: &LayerState<Vec<T>>)
        requires
            self.wf(),
            node < self.layers().len(),
        ensures
            view_state(*r) == self.states()[node as int],
    {
        &self.states[node]
    }

    /// Puts `layer` in front of `next`, with nothing buffered at the new node.
    fn prepend(layer: Layer<T>, next: Chain<T>) -> (r: Chain<T>)
        requires
            next.wf(),
            layer.wf(),
            !(layer is Output),
            layer.out_width() == next.in_width(),
        ensures
            r.wf(),
            r.layers() == seq![layer] + next.layers(),
            r.states() == seq![LayerState::NeedsInput] + next.states(),
    {
        let ghost l = layer;
        let mut layers = next.layers;
        let mut states = next.states;
        layers.insert(0, layer);
        states.insert(0, LayerState::NeedsInput);
        let r = Chain { layers, states };
        assert(r.layers() =~= seq![l] + next.layers());
        assert(r.states() =~= seq![LayerState::NeedsInput] + next.states());
        assert forall|i: int| 0 <= i < r.layers().len() - 1 implies (#[trigger] r.layers()[
            i]).out_width() == r.layers()[i + 1].in_width() by {
            if i > 0 {
                assert(r.layers()[i] == next.layers()[i - 1]);
            }
        }
        r
    }

    /// The node that a tick reaching node `from` makes compute, if any.
    pub fn pending(&self, from: usize) -> (r: Option<usize>)
        requires
            self.wf(),
        ensures
            r matches Some(k) ==> pending_from(self.states(), from as int) == Some(k as int),
            r is None <==> pending_from(self.states(), from as int) is None,
    {
        let last = self.layers.len() - 1;
        let mut i: usize = from;
        while i < last && self.states[i].is_done()
            invariant
                self.wf(),
                last == self.states().len() - 1,
                from <= i,
                pending_from(self.states(), from as int) == pending_from(self.states(), i as int),
            decreases last - i,
        {
            i += 1;
        }
        if i < last && self.states[i].have_input() {
            Some(i)
        } else {
            None
        }
    }

    /// Buffers `input` at node `node`, discarding whatever that node held; no other node
    /// changes.
    pub fn feed(&mut self, node: usize, input: Vec<T>)
        requires
            old(self).wf(),
            node < old(self).layers().len(),
            input@.len() == old(self).layers()[node as int].in_width(),
        ensures
            final(self).wf(),
            final(self).layers() == old(self).layers(),
            final(self).states() == old(self).states().update(
                node as int,
                LayerState::HasInput(input@),
            ),
    {
        self.states.set(node, LayerState::HasInput(input));
        assert(self.states() =~= old(self).states().update(node as int, LayerState::HasInput(input@)));
    }

    /// Empties node `node` and every node after it; the nodes before it keep their states.
    pub fn reset(&mut self, node: usize)
        requires
            old(self).wf(),
        ensures
            final(self).wf(),
            final(self).layers() == old(self).layers(),
            final(self).states() == reset_from(old(self).states(), node as int),
    {
        let mut i: usize = node;
        while i < self.states.len()
            invariant
                self.layers() == old(self).layers(),
                self.states().len() == old(self).states().len(),
                node <= i,
                forall|k: int|
                    0 <= k < self.states().len() ==> #[trigger] self.states()[k] == if node <= k
                        < i {
                        LayerState::NeedsInput
                    } else {
                        old(self).states()[k]
                    },
            decreases self.states.len() - i,
        {
            let ghost before = self.states();
            self.states.set(i, LayerState::NeedsInput);
            assert(self.states() =~= before.update(i as int, LayerState::NeedsInput));
            i += 1;
        }
        assert(self.states() =~= reset_from(old(self).states(), node as int));
    }
}

impl<T: Copy> Chain<T> {
    /// One tick of staged evaluation reaching node `from`. Where a node computes on this tick,
    /// `output` is what its layer made of its buffered input: the node keeps input and output,
    /// and its successor is fed the output. Otherwise nothing changes.
    pub fn advance(&mut self, from: usize, output: Vec<T>)
        requires
            old(self).wf(),
            pending_from(old(self).states(), from as int) matches Some(k) ==> output@.len()
                == old(self).layers()[k].out_width(),
        ensures
            final(self).wf(),
            final(self).layers() == old(self).layers(),
            final(self).states() == tick(old(self).states(), from as int, output@),
    {
        match self.pending(from) {
            Some(k) => {
                let n = self.states.len();
                let copy = copy_vec(&output);
                proof {
                    lemma_pending_in_range(self.states(), from as int);
                }
                let next = k + 1;
                self.states[k].set_output(output);
                self.states.set(next, LayerState::HasInput(copy));
                assert(self.states() =~= commit_at(old(self).states(), k as int, output@));
            },
            None => {},
        }
    }
}

/// A chain of one output layer of `width` entries, with nothing buffered.
pub fn output<T>(width: usize) -> (r: Chain<T>)
    ensures
        r.wf(),
        r.layers() == seq![Layer::<T>::Output(OutputLayer { width })],
        r.states() == seq![LayerState::<Seq<T>>::NeedsInput],
{
    let r = Chain { layers: vec![Layer::Output(OutputLayer { width })], states: vec![LayerState::NeedsInput] };
    assert(r.layers() =~= seq![Layer::<T>::Output(OutputLayer { width })]);
    assert(r.states() =~= seq![LayerState::<Seq<T>>::NeedsInput]);
    r
}

/// `next` behind a sigmoid activation of its own width.
pub fn sigmoid<T>(next: Chain<T>) -> (r: Chain<T>)
    requires
        next.wf(),
    ensures
        r.wf(),
        r.layers() == seq![Layer::Activation(Activation::spec_new(ActivationFunction::Sigmoid, next.in_width()))]
            + next.layers(),
        r.states() == seq![LayerState::NeedsInput] + next.states(),
{
    let w = next.width();
    Chain::prepend(Layer::Activation(Activation::sigmoid(w)), next)
}

/// `next` behind a tanh activation of its own width.
pub fn tanh<T>(next: Chain<T>) -> (r: Chain<T>)
    requires
        next.wf(),
    ensures
        r.wf(),
        r.layers() == seq![Layer::Activation(Activation::spec_new(ActivationFunction::Tanh, next.in_width()))]
            + next.layers(),
        r.states() == seq![LayerState::NeedsInput] + next.states(),
{
    let w = next.width();
    Chain::prepend(Layer::Activation(Activation::tanh(w)), next)
}

/// `next` behind a relu activation of its own width.
pub fn relu<T>(next: Chain<T>) -> (r: Chain<T>)
    requires
        next.wf(),
    ensures
        r.wf(),
        r.layers() == seq![Layer::Activation(Activation::spec_new(ActivationFunction::Relu, next.in_width()))]
            + next.layers(),
        r.states() == seq![LayerState::NeedsInput] + next.states(),
{
    let w = next.width();
    Chain::prepend(Layer::Activation(Activation::relu(w)), next)
}

/// `next` behind a dense layer from `width` entries to the width of `next`, built from the
/// row-major `weights` and the `bias`. The arrays are checked as `Perceptron::from_array`
/// checks them; on an error no chain is built.
pub fn perceptron<T>(width: usize, weights: Vec<T>, bias: Vec<T>, next: Chain<T>) -> (r: Result<
    Chain<T>,
    ShapeError,
>)
    requires
        next.wf(),
    ensures
        r is Ok <==> (weights@.len() == width * next.in_width() && bias@.len()
            == next.in_width()),
        r matches Ok(c) ==> c.wf() && c.states() == seq![LayerState::NeedsInput] + next.states()
            && c.layers() == seq![Layer::Perceptron(Perceptron { weights, bias, width })]
            + next.layers(),
        r matches Err(ShapeError::WeightsLength { expected, found }) ==> weights@.len() != width
            * next.in_width() && found == weights@.len() && (width * next.in_width()
            <= usize::MAX ==> expected == width * next.in_width()),
        r matches Err(ShapeError::BiasLength { expected, found }) ==> weights@.len() == width
            * next.in_width() && bias@.len() != next.in_width() && expected == next.in_width()
            && found == bias@.len(),
{
    let out_width = next.width();
    match Perceptron::from_array(width, out_width, weights, bias) {
        Ok(p) => {
            Ok(Chain::prepend(Layer::Perceptron(p), next))
        },
        Err(e) => Err(e),
    }
}

/// A node that computes is one before the terminal and holds a buffered input that it has not
/// transformed yet.
proof fn lemma_pending_in_range<T>(states: Seq<LayerState<Seq<T>>>, i: int)
    ensures
        pending_from(states, i) matches Some(k) ==> i <= k < states.len() - 1 && states[k] is HasInput,
    decreases states.len() - i,
{
    if 0 <= i < states.len() - 1 && states[i] is Forward {
        lemma_pending_in_range(states, i + 1);
    }
}

} // verus!
