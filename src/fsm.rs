//! A finite-state machine given by a transition table.
//!
//! States and inputs are plain indices: `transition(s, i)` reads row `s`,
//! column `i` of the table. The machine does not check its table when it is
//! built; a lookup outside the table is excluded by its precondition.

use vstd::prelude::*;

verus! {

/// The mathematical content of an [`FSM`].
pub struct FsmView {
    pub inputs: Seq<usize>,
    pub states: Seq<usize>,
    pub initial_state: usize,
    pub transition_table: Seq<Seq<usize>>,
    pub final_states: Seq<usize>,
}

pub struct FSM {
    inputs: Vec<usize>,
    states: Vec<usize>,
    initial_state: usize,
    transition_table: Vec<Vec<usize>>,
    final_states: Vec<usize>,
}

impl View for FSM {
    type V = FsmView;

    closed spec fn view(&self) -> FsmView {
        FsmView {
            inputs: self.inputs@,
            states: self.states@,
            initial_state: self.initial_state,
            transition_table: self.transition_table@.map_values(|row: Vec<usize>| row@),
            final_states: self.final_states@,
        }
    }
}

impl FSM {
    /// Builds a machine from its parts, as given.
    pub fn new(
        inputs: Vec<usize>,
        states: Vec<usize>,
        initial_state: usize,
        transition_table: Vec<Vec<usize>>,
        final_states: Vec<usize>,
    ) -> (r: Self)
        ensures
            r@.inputs == inputs@,
            r@.states == states@,
            r@.initial_state == initial_state,
            r@.transition_table == transition_table@.map_values(|row: Vec<usize>| row@),
            r@.final_states == final_states@,
    {
        FSM { inputs, states, initial_state, transition_table, final_states }
    }

    /// The state reached from `state` on `input`.
    pub fn transition(&self, state: usize, input: usize) -> (r: usize)
        requires
            state < self@.transition_table.len(),
            input < self@.transition_table[state as int].len(),
        ensures
            r == self@.transition_table[state as int][input as int],
    {
        self.transition_table[state][input]
    }

    /// Whether `state` is one of the accepting states.
    pub fn is_final(&self, state: usize) -> (r: bool)
        ensures
            r == self@.final_states.contains(state),
    {
        let mut i: usize = 0;
        while i < self.final_states.len()
            invariant
                i <= self.final_states@.len(),
                forall|j: int| 0 <= j < i ==> self.final_states@[j] != state,
            decreases self.final_states@.len() - i,
        {
            if self.final_states[i] == state {
                return true;
            }
            i = i + 1;
        }
        false
    }

    /// The state the machine starts in.
    pub fn initial(&self) -> (r: usize)
        ensures
            r == self@.initial_state,
    {
        self.initial_state
    }
}

} // verus!
