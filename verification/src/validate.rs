//! Deciding at run time whether a description can be run.

use crate::desc::cell_view;
use crate::table::TMDesc;
use vstd::prelude::*;

verus! {

impl TMDesc {
    /// Whether no symbol occurs twice in the alphabet.
    pub fn has_distinct_symbols(&self) -> (b: bool)
        ensures
            b == self@.input_symbols.no_duplicates(),
    {
        let n = self.input_symbols.len();
        let mut i: usize = 0;
        while i < n
            invariant
                n == self.input_symbols.len(),
                i <= n,
                forall|p: int, q: int|
                    0 <= p < i && p < q < n ==> self.input_symbols@[p] != self.input_symbols@[q],
            decreases n - i,
        {
            let mut k: usize = i + 1;
            while k < n
                invariant
                    n == self.input_symbols.len(),
                    i < k <= n,
                    forall|q: int|
                        i < q < k ==> self.input_symbols@[i as int] != self.input_symbols@[q],
                decreases n - k,
            {
                if self.input_symbols[i] == self.input_symbols[k] {
                    return false;
                }
                k += 1;
            }
            i += 1;
        }
        assert forall|p: int, q: int|
            0 <= p < n && 0 <= q < n && p != q implies self.input_symbols@[p]
            != self.input_symbols@[q] by {
            if p < q {
            } else {
                assert(self.input_symbols@[q] != self.input_symbols@[p]);
            }
        }
        true
    }

    /// Whether no two states bear the same name.
    pub fn has_distinct_names(&self) -> (b: bool)
        ensures
            b == self@.names().no_duplicates(),
    {
        let ghost names = self@.names();
        let n = self.states.len();
        let mut i: usize = 0;
        while i < n
            invariant
                n == self.states.len(),
                names == self@.names(),
                i <= n,
                forall|p: int, q: int| 0 <= p < i && p < q < n ==> names[p] != names[q],
            decreases n - i,
        {
            let mut k: usize = i + 1;
            while k < n
                invariant
                    n == self.states.len(),
                    names == self@.names(),
                    i < k <= n,
                    forall|q: int| i < q < k ==> names[i as int] != names[q],
                decreases n - k,
            {
                assert(names[i as int] == self.states@[i as int].name@);
                assert(names[k as int] == self.states@[k as int].name@);
                if self.states[i].name.eq(&self.states[k].name) {
                    return false;
                }
                k += 1;
            }
            i += 1;
        }
        assert forall|p: int, q: int| 0 <= p < n && 0 <= q < n && p != q implies names[p]
            != names[q] by {
            if p < q {
            } else {
                assert(names[q] != names[p]);
            }
        }
        true
    }

    /// Whether every state has exactly one slot per symbol.
    pub fn has_uniform_rows(&self) -> (b: bool)
        ensures
            b == (forall|i: int|
                0 <= i < self@.states.len() ==> (#[trigger] self@.states[i]).transitions.len()
                    == self@.input_symbols.len()),
    {
        let mut i: usize = 0;
        while i < self.states.len()
            invariant
                i <= self.states.len(),
                forall|k: int|
                    0 <= k < i ==> (#[trigger] self@.states[k]).transitions.len()
                        == self@.input_symbols.len(),
            decreases self.states.len() - i,
        {
            assert(self@.states[i as int].transitions.len()
                == self.states@[i as int].transitions.len());
            if self.states[i].transitions.len() != self.input_symbols.len() {
                return false;
            }
            i += 1;
        }
        true
    }

    /// Whether the transition in slot `j` of state `i`, if there is one,
    /// carries the position of a state that bears the name it mentions.
    fn slot_is_resolved(&self, i: usize, j: usize) -> (b: bool)
        requires
            i < self.states.len(),
            j < self.states[i as int].transitions.len(),
        ensures
            b == (self@.has_transition(i as int, j as int) ==> self@.points_home(
                i as int,
                j as int,
            )),
    {
        assert(self@.states[i as int].transitions[j as int] == cell_view(
            self.states@[i as int].transitions@[j as int],
        ));
        match &self.states[i].transitions[j] {
            None => true,
            Some(t) => match t.state_index {
                None => false,
                Some(k) => k < self.states.len() && self.states[k].name.eq(&t.state),
            },
        }
    }

    /// Whether every transition carries the position of a declared state
    /// that bears the name the transition mentions.
    pub fn is_resolved(&self) -> (b: bool)
        ensures
            b == self@.resolved(),
    {
        let mut i: usize = 0;
        while i < self.states.len()
            invariant
                i <= self.states.len(),
                forall|p: int, q: int|
                    0 <= p < i && #[trigger] self@.has_transition(p, q) ==> self@.points_home(
                        p,
                        q,
                    ),
            decreases self.states.len() - i,
        {
            let mut j: usize = 0;
            assert(self@.states[i as int].transitions.len()
                == self.states@[i as int].transitions.len());
            while j < self.states[i].transitions.len()
                invariant
                    i < self.states.len(),
                    j <= self.states[i as int].transitions.len(),
                    self@.states[i as int].transitions.len()
                        == self.states@[i as int].transitions.len(),
                    forall|q: int|
                        0 <= q < j && #[trigger] self@.has_transition(i as int, q)
                            ==> self@.points_home(i as int, q),
                decreases self.states[i as int].transitions.len() - j,
            {
                if !self.slot_is_resolved(i, j) {
                    assert(self@.has_transition(i as int, j as int));
                    return false;
                }
                j += 1;
            }
            i += 1;
        }
        true
    }

    /// Whether a machine can be made for this description: it is
    /// well-formed and resolved, and has a start state and a blank symbol.
    pub fn is_runnable(&self) -> (b: bool)
        ensures
            b == self@.runnable(),
    {
        self.states.len() > 0 && self.input_symbols.len() > 0 && self.has_distinct_symbols()
            && self.has_distinct_names() && self.has_uniform_rows() && self.is_resolved()
    }
}

} // verus!
