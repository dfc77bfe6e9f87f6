use vstd::prelude::*;

use crate::chain::{pending_from, reset_from, tick};
use crate::layers::Layer;
use crate::state::LayerState;

verus! {

/// Immediate evaluation from node `i`: each layer before the terminal transforms the value
/// with `process`, and the terminal hands it back unchanged.
pub open spec fn run_from<T>(
    layers: Seq<Layer<T>>,
    i: int,
    x: Seq<T>,
    process: spec_fn(Layer<T>, Seq<T>) -> Seq<T>,
) -> Seq<T>
    decreases layers.len() - i,
{
    if i < 0 || i >= layers.len() - 1 {
        x
    } else {
        run_from(layers, i + 1, process(layers[i], x), process)
    }
}

/// `x` transformed by the first `j` layers.
pub open spec fn run_upto<T>(
    layers: Seq<Layer<T>>,
    j: nat,
    x: Seq<T>,
    process: spec_fn(Layer<T>, Seq<T>) -> Seq<T>,
) -> Seq<T>
    decreases j,
{
    if j == 0 {
        x
    } else {
        process(layers[j - 1], run_upto(layers, (j - 1) as nat, x, process))
    }
}

/// The states after `n` ticks on the first node, where each node that computes produces what
/// `process` makes of its buffered input.
pub open spec fn ticks<T>(
    layers: Seq<Layer<T>>,
    states: Seq<LayerState<Seq<T>>>,
    n: nat,
    process: spec_fn(Layer<T>, Seq<T>) -> Seq<T>,
) -> Seq<LayerState<Seq<T>>>
    decreases n,
{
    if n == 0 {
        states
    } else {
        let s = ticks(layers, states, (n - 1) as nat, process);
        let out = match pending_from(s, 0) {
            Some(k) => process(layers[k], s[k].input_of().unwrap()),
            None => Seq::empty(),
        };
        tick(s, 0, out)
    }
}

/// Feeding node `k` and then resetting an earlier node `j` leaves `j` and every node after it
/// empty, `k` included, and every node before `j` as it was; resetting `j` again changes
/// nothing.
pub proof fn lemma_reset_cascades_forward_only<T>(
    states: Seq<LayerState<Seq<T>>>,
    k: int,
    x: Seq<T>,
    j: int,
)
    requires
        0 <= j < k < states.len(),
    ensures
        ({
            let after = reset_from(states.update(k, LayerState::HasInput(x)), j);
            &&& after.len() == states.len()
            &&& forall|i: int| j <= i < states.len() ==> #[trigger] after[i] is NeedsInput
            &&& forall|i: int| 0 <= i < j ==> #[trigger] after[i] == states[i]
            &&& reset_from(after, j) == after
        }),
{
    let after = reset_from(states.update(k, LayerState::HasInput(x)), j);
    assert(reset_from(after, j) =~= after);
}

/// Feeding a node that holds an input and its output leaves it holding the new input alone.
pub proof fn lemma_feed_overwrites<T>(states: Seq<LayerState<Seq<T>>>, k: int, x: Seq<T>)
    requires
        0 <= k < states.len(),
        states[k] is Forward,
    ensures
        states.update(k, LayerState::HasInput(x))[k] == LayerState::HasInput(x),
        states.update(k, LayerState::HasInput(x))[k].output_of() is None,
{
}

/// A tick that reaches an empty node changes no node, whatever output is offered.
pub proof fn lemma_advance_empty_is_noop<T>(
    states: Seq<LayerState<Seq<T>>>,
    from: int,
    out: Seq<T>,
)
    requires
        0 <= from < states.len(),
        states[from] is NeedsInput,
    ensures
        tick(states, from, out) == states,
{
}

proof fn lemma_pending_reaches<T>(s: Seq<LayerState<Seq<T>>>, i: int, j: int)
    requires
        0 <= i <= j < s.len() - 1,
        forall|k: int| i <= k < j ==> #[trigger] s[k] is Forward,
        s[j] is HasInput,
    ensures
        pending_from(s, i) == Some(j),
    decreases j - i,
{
    if i < j {
        lemma_pending_reaches(s, i + 1, j);
    }
}

proof fn lemma_pending_none<T>(s: Seq<LayerState<Seq<T>>>, i: int)
    requires
        0 <= i,
        forall|k: int| i <= k < s.len() - 1 ==> #[trigger] s[k] is Forward,
    ensures
        pending_from(s, i) is None,
    decreases s.len() - i,
{
    if i < s.len() - 1 {
        lemma_pending_none(s, i + 1);
    }
}

/// After `j` ticks, the first `j` nodes are done and node `j` holds what the first `j` layers
/// made of `x`.
proof fn lemma_ticks_prefix<T>(
    layers: Seq<Layer<T>>,
    states: Seq<LayerState<Seq<T>>>,
    x: Seq<T>,
    j: nat,
    process: spec_fn(Layer<T>, Seq<T>) -> Seq<T>,
)
    requires
        states.len() == layers.len(),
        states.len() >= 1,
        states[0] == LayerState::HasInput(x),
        j <= layers.len() - 1,
    ensures
        ({
            let s = ticks(layers, states, j, process);
            &&& s.len() == states.len()
            &&& forall|i: int| 0 <= i < j ==> #[trigger] s[i] is Forward
            &&& s[j as int] == LayerState::HasInput(run_upto(layers, j, x, process))
        }),
    decreases j,
{
    if j > 0 {
        let p = (j - 1) as nat;
        lemma_ticks_prefix(layers, states, x, p, process);
        let s = ticks(layers, states, p, process);
        lemma_pending_reaches(s, 0, p as int);
        let t = ticks(layers, states, j, process);
        assert forall|i: int| 0 <= i < j implies #[trigger] t[i] is Forward by {
            if i < p {
                assert(t[i] == s[i]);
            }
        }
    }
}

proof fn lemma_ticks_settled<T>(
    layers: Seq<Layer<T>>,
    states: Seq<LayerState<Seq<T>>>,
    x: Seq<T>,
    n: nat,
    process: spec_fn(Layer<T>, Seq<T>) -> Seq<T>,
)
    requires
        states.len() == layers.len(),
        states.len() >= 1,
        states[0] == LayerState::HasInput(x),
        n >= layers.len() - 1,
    ensures
        ticks(layers, states, n, process) == ticks(
            layers,
            states,
            (layers.len() - 1) as nat,
            process,
        ),
    decreases n,
{
    let m = (layers.len() - 1) as nat;
    if n > m {
        lemma_ticks_settled(layers, states, x, (n - 1) as nat, process);
        lemma_ticks_prefix(layers, states, x, m, process);
        lemma_pending_none(ticks(layers, states, m, process), 0);
    }
}

proof fn lemma_run_split<T>(
    layers: Seq<Layer<T>>,
    x: Seq<T>,
    j: nat,
    process: spec_fn(Layer<T>, Seq<T>) -> Seq<T>,
)
    requires
        layers.len() >= 1,
        j <= layers.len() - 1,
    ensures
        run_from(layers, j as int, run_upto(layers, j, x, process), process) == run_from(
            layers,
            0,
            x,
            process,
        ),
    decreases j,
{
    if j > 0 {
        lemma_run_split(layers, x, (j - 1) as nat, process);
    }
}

/// Staged evaluation agrees with immediate evaluation: once the first node holds `x`, after
/// at least one tick per layer before the terminal, the terminal holds exactly what immediate
/// evaluation of the whole chain makes of `x`, whatever the other nodes held before, for any
/// layer transform `process`.
pub proof fn lemma_staged_matches_immediate<T>(
    layers: Seq<Layer<T>>,
    states: Seq<LayerState<Seq<T>>>,
    x: Seq<T>,
    n: nat,
    process: spec_fn(Layer<T>, Seq<T>) -> Seq<T>,
)
    requires
        states.len() == layers.len(),
        layers.len() >= 1,
        states[0] == LayerState::HasInput(x),
        n >= layers.len() - 1,
    ensures
        ticks(layers, states, n, process)[layers.len() - 1] == LayerState::HasInput(
            run_from(layers, 0, x, process),
        ),
{
    let m = (layers.len() - 1) as nat;
    lemma_ticks_settled(layers, states, x, n, process);
    lemma_ticks_prefix(layers, states, x, m, process);
    lemma_run_split(layers, x, m, process);
}

} // verus!
