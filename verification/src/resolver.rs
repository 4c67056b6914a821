//! Freezing a description: every state name that a transition mentions is
//! looked up once among all the declared states, so that a state may be
//! mentioned before the row that declares it.

use crate::desc::{cell_view, cells_view, State, Transition};
use crate::errors::{ErrorView, TMDescError};
use crate::table::{lemma_frozen, states_view, TMDesc};
use vstd::prelude::*;

verus! {

impl TMDesc {
    /// The row of state `i` with every transition resolved by name, or the
    /// first name in the row that no state bears.
    fn resolve_row(&self, i: usize) -> (r: Result<Vec<Option<Transition>>, TMDescError>)
        requires
            i < self.states.len(),
        ensures
            match r {
                Ok(row) => cells_view(row@) == self@.frozen().states[i as int].transitions
                    && forall|j: int| !#[trigger] self@.dangling(i as int, j),
                Err(e) => exists|j: int| #[trigger]
                    self@.first_dangling_in_row(i as int, j) && e@
                        == ErrorView::UnknownStateReference(self@.transition(i as int, j).state),
            },
    {
        let st = &self.states[i];
        let ghost cells = self@.states[i as int].transitions;
        assert(cells == cells_view(st.transitions@));
        let mut row: Vec<Option<Transition>> = Vec::new();
        let mut j: usize = 0;
        while j < st.transitions.len()
            invariant
                i < self.states.len(),
                st == self.states@[i as int],
                cells == self@.states[i as int].transitions,
                cells == cells_view(st.transitions@),
                j <= st.transitions.len(),
                row.len() == j,
                forall|l: int| 0 <= l < j ==> !#[trigger] self@.dangling(i as int, l),
                forall|l: int|
                    0 <= l < j ==> cell_view(#[trigger] row@[l])
                        == self@.frozen().states[i as int].transitions[l],
            decreases st.transitions.len() - j,
        {
            assert(cells[j as int] == cell_view(st.transitions@[j as int]));
            match &st.transitions[j] {
                None => {
                    row.push(None);
                },
                Some(t) => {
                    assert(self@.has_transition(i as int, j as int));
                    assert(self@.transition(i as int, j as int) == t@);
                    match self.find_state(&t.state) {
                        Some(k) => {
                            let resolved = Transition {
                                state: t.state.clone(),
                                state_index: Some(k),
                                symbol: t.symbol,
                                movement: t.movement,
                            };
                            assert(resolved@ == self@.resolve(t@));
                            row.push(Some(resolved));
                        },
                        None => {
                            assert(self@.first_dangling_in_row(i as int, j as int));
                            return Err(TMDescError::UnknownStateReference(t.state.clone()));
                        },
                    }
                },
            }
            j += 1;
        }
        assert(cells_view(row@) =~= self@.frozen().states[i as int].transitions);
        Ok(row)
    }

    /// Resolves the state name in every transition to the position of the
    /// first state that bears it. Fails, leaving the description as it was,
    /// with the first name in table order that no state bears.
    pub fn resolve_all_state_indices(&mut self) -> (r: Result<(), TMDescError>)
        ensures
            match r {
                Ok(()) => old(self)@.freezes_to(Ok(final(self)@)),
                Err(e) => old(self)@.freezes_to(Err(e@)) && *final(self) == *old(self),
            },
            r is Ok ==> final(self)@.resolved(),
            old(self)@.wf() ==> final(self)@.wf(),
    {
        let mut fresh: Vec<State> = Vec::new();
        let mut i: usize = 0;
        while i < self.states.len()
            invariant
                *self == *old(self),
                i <= self.states.len(),
                fresh.len() == i,
                forall|k: int, l: int| 0 <= k < i ==> !#[trigger] self@.dangling(k, l),
                forall|k: int| 0 <= k < i ==> (#[trigger] fresh@[k])@ == self@.frozen().states[k],
            decreases self.states.len() - i,
        {
            match self.resolve_row(i) {
                Err(e) => {
                    proof {
                        let j = choose|j: int| #[trigger]
                            self@.first_dangling_in_row(i as int, j) && e@
                                == ErrorView::UnknownStateReference(
                                self@.transition(i as int, j).state,
                            );
                        assert(self@.first_dangling(i as int, j));
                    }
                    return Err(e);
                },
                Ok(row) => {
                    let st = State { name: self.states[i].name.clone(), transitions: row };
                    assert(st@ == self@.frozen().states[i as int]);
                    fresh.push(st);
                },
            }
            i += 1;
        }
        proof {
            lemma_frozen(self@);
            assert(states_view(fresh@) =~= self@.frozen().states);
        }
        self.states = fresh;
        Ok(())
    }
}

} // verus!
