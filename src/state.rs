use vstd::prelude::*;

verus! {

/// The staged-evaluation state held by every node of a chain.
pub enum LayerState<V> {
    /// Nothing is buffered.
    NeedsInput,
    /// An input is buffered and has not been transformed yet.
    HasInput(V),
    /// The buffered input and the output computed from it.
    Forward { input: V, output: V },
}

/// The state with each stored vector replaced by the sequence of its entries.
pub open spec fn view_state<T>(s: LayerState<Vec<T>>) -> LayerState<Seq<T>> {
    match s {
        LayerState::NeedsInput => LayerState::NeedsInput,
        LayerState::HasInput(i) => LayerState::HasInput(i@),
        LayerState::Forward { input, output } => LayerState::Forward {
            input: input@,
            output: output@,
        },
    }
}

impl<V> LayerState<V> {
    /// The buffered input, if any.
    pub open spec fn input_of(self) -> Option<V> {
        match self {
            LayerState::NeedsInput => None,
            LayerState::HasInput(i) => Some(i),
            LayerState::Forward { input, .. } => Some(input),
        }
    }

    /// The computed output, if any.
    pub open spec fn output_of(self) -> Option<V> {
        match self {
            LayerState::Forward { output, .. } => Some(output),
            _ => None,
        }
    }

    /// Records `o` as the output computed from the buffered input; a state that already holds
    /// an output keeps it.
    pub fn set_output(&mut self, o: V)
        requires
            !(*old(self) is NeedsInput),
        ensures
            *old(self) matches LayerState::HasInput(i) ==> *final(self) == (LayerState::Forward {
                input: i,
                output: o,
            }),
            *old(self) is Forward ==> *final(self) == *old(self),
    {
        if let LayerState::HasInput(_) = self {
            let mut taken = LayerState::NeedsInput;
            std::mem::swap(self, &mut taken);
            if let LayerState::HasInput(input) = taken {
                *self = LayerState::Forward { input, output: o };
            }
        }
    }

    /// The computed output, or `None` where no output has been computed.
    pub fn get_output(&self) -> (r: Option<&V>)
        ensures
            r matches Some(v) ==> self.output_of() == Some(*v),
            r is None <==> self.output_of() is None,
    {
        match self {
            LayerState::Forward { output, .. } => Some(output),
            _ => None,
        }
    }

    /// Whether an input is buffered.
    pub fn have_input(&self) -> (r: bool)
        ensures
            r == !(*self is NeedsInput),
    {
        !matches!(self, LayerState::NeedsInput)
    }

    /// Whether the output has been computed.
    pub fn is_done(&self) -> (r: bool)
        ensures
            r == (*self is Forward),
    {
        matches!(self, LayerState::Forward { .. })
    }

    /// The buffered input, or `None` where nothing has been fed.
    pub fn get_input(&self) -> (r: Option<&V>)
        ensures
            r matches Some(v) ==> self.input_of() == Some(*v),
            r is None <==> self.input_of() is None,
    {
        match self {
            LayerState::NeedsInput => None,
            LayerState::HasInput(v) => Some(v),
            LayerState::Forward { input, .. } => Some(input),
        }
    }
}

} // verus!
