//! The description of a machine and its builder: an alphabet is set once,
//! states are appended row by row, and a last pass resolves every state name
//! that a transition mentions to the position of that state.

use crate::desc::{cells_parse, parsed_cells, State, StateView, TransitionView};
use crate::errors::{ErrorView, TMDescError};
use vstd::prelude::*;

verus! {

/// A machine description: the ordered alphabet, whose last symbol is the
/// blank, and the ordered states, of which the first is the start state.
#[derive(Debug, Clone)]
pub struct TMDesc {
    pub input_symbols: Vec<char>,
    pub states: Vec<State>,
}

/// The mathematical value of a description.
pub struct DescView {
    pub input_symbols: Seq<char>,
    pub states: Seq<StateView>,
}

/// The mathematical value of a sequence of states.
pub open spec fn states_view(ss: Seq<State>) -> Seq<StateView> {
    Seq::new(ss.len(), |i: int| ss[i]@)
}

impl View for TMDesc {
    type V = DescView;

    open spec fn view(&self) -> DescView {
        DescView { input_symbols: self.input_symbols@, states: states_view(self.states@) }
    }
}

/// Whether every word is exactly one character long.
pub open spec fn single_chars(words: Seq<Seq<char>>) -> bool {
    forall|i: int| 0 <= i < words.len() ==> (#[trigger] words[i]).len() == 1
}

/// The first character of each word.
pub open spec fn first_chars(words: Seq<Seq<char>>) -> Seq<char> {
    Seq::new(words.len(), |i: int| words[i][0])
}

/// A row of `n` absent transitions.
pub open spec fn absent_row(n: nat) -> Seq<Option<TransitionView>> {
    Seq::new(n, |i: int| None)
}

impl DescView {
    /// The description with no symbols and no states.
    pub open spec fn empty() -> DescView {
        DescView { input_symbols: Seq::empty(), states: Seq::empty() }
    }

    /// The names of the states, in table order.
    pub open spec fn names(self) -> Seq<Seq<char>> {
        Seq::new(self.states.len(), |i: int| self.states[i].name)
    }

    /// The structural invariant: no symbol and no state name occurs twice,
    /// and every state has one slot per symbol.
    pub open spec fn wf(self) -> bool {
        &&& self.input_symbols.no_duplicates()
        &&& self.names().no_duplicates()
        &&& forall|i: int|
            0 <= i < self.states.len() ==> (#[trigger] self.states[i]).transitions.len()
                == self.input_symbols.len()
    }

    /// The position of the first state called `name`, if there is one.
    pub open spec fn find_state(self, name: Seq<char>) -> Option<int> {
        self.names().index_of_first(name)
    }

    /// The position of `c` in the alphabet, if it is a symbol.
    pub open spec fn find_symbol(self, c: char) -> Option<int> {
        self.input_symbols.index_of_first(c)
    }

    /// Whether slot `j` of state `i` holds a transition.
    pub open spec fn has_transition(self, i: int, j: int) -> bool {
        &&& 0 <= i < self.states.len()
        &&& 0 <= j < self.states[i].transitions.len()
        &&& self.states[i].transitions[j] is Some
    }

    /// The transition in slot `j` of state `i`.
    pub open spec fn transition(self, i: int, j: int) -> TransitionView {
        self.states[i].transitions[j]->0
    }

    /// Whether slot `j` of state `i` holds a transition to a state that the
    /// table does not declare.
    pub open spec fn dangling(self, i: int, j: int) -> bool {
        self.has_transition(i, j) && self.find_state(self.transition(i, j).state) is None
    }

    /// Whether every transition carries the position of a declared state
    /// that bears the name the transition mentions.
    pub open spec fn resolved(self) -> bool {
        forall|i: int, j: int| #[trigger] self.has_transition(i, j) ==> self.points_home(i, j)
    }

    /// Whether the transition in slot `j` of state `i` carries a position,
    /// and the state at that position bears the name the transition mentions.
    pub open spec fn points_home(self, i: int, j: int) -> bool {
        let t = self.transition(i, j);
        &&& t.state_index is Some
        &&& t.state_index->0 < self.states.len()
        &&& self.states[t.state_index->0 as int].name == t.state
    }

    /// What a machine needs to run: a well-formed, resolved table with a
    /// start state and a blank symbol.
    pub open spec fn runnable(self) -> bool {
        &&& self.wf()
        &&& self.resolved()
        &&& self.states.len() > 0
        &&& self.input_symbols.len() > 0
    }

    /// The blank symbol: the last of the alphabet.
    pub open spec fn blank(self) -> char {
        self.input_symbols.last()
    }

    /// Setting the alphabet. Refused once a state exists, when a word is not
    /// one character, and when a symbol occurs twice.
    pub open spec fn add_alphabet(self, words: Seq<Seq<char>>) -> Result<DescView, ErrorView> {
        if self.states.len() > 0 || !single_chars(words) || !first_chars(words).no_duplicates() {
            Err(ErrorView::MalformedDescription)
        } else {
            Ok(DescView { input_symbols: first_chars(words), ..self })
        }
    }

    /// Appending a state. Refused when the row has not one slot per symbol
    /// and when the name is taken.
    pub open spec fn add_state(self, s: StateView) -> Result<DescView, ErrorView> {
        if s.transitions.len() != self.input_symbols.len() || self.names().contains(s.name) {
            Err(ErrorView::MalformedDescription)
        } else {
            Ok(DescView { states: self.states.push(s), ..self })
        }
    }

    /// Taking in one record. While the alphabet is empty the record is the
    /// alphabet header, whose first field is skipped; afterwards it is a
    /// state: its name, then one field per symbol, or no fields at all for a
    /// state without transitions.
    pub open spec fn handle_line(self, words: Seq<Seq<char>>) -> Result<DescView, ErrorView> {
        if words.len() == 0 {
            Err(ErrorView::MalformedDescription)
        } else if self.input_symbols.len() == 0 {
            self.add_alphabet(words.drop_first())
        } else if !cells_parse(words.drop_first()) {
            Err(ErrorView::MalformedDescription)
        } else {
            self.add_state(
                StateView {
                    name: words[0],
                    transitions: if words.len() == 1 {
                        absent_row(self.input_symbols.len())
                    } else {
                        parsed_cells(words.drop_first())
                    },
                },
            )
        }
    }

    /// The transition `t` with the position of its target filled in.
    pub open spec fn resolve(self, t: TransitionView) -> TransitionView {
        TransitionView { state_index: Some(self.find_state(t.state)->0 as usize), ..t }
    }

    /// The description with every transition resolved.
    pub open spec fn frozen(self) -> DescView {
        DescView {
            input_symbols: self.input_symbols,
            states: Seq::new(
                self.states.len(),
                |i: int|
                    StateView {
                        name: self.states[i].name,
                        transitions: Seq::new(
                            self.states[i].transitions.len(),
                            |j: int|
                                match self.states[i].transitions[j] {
                                    Some(t) => Some(self.resolve(t)),
                                    None => None,
                                },
                        ),
                    },
            ),
        }
    }

    /// Whether slot `(i, j)` comes before slot `(k, l)` in table order.
    pub open spec fn before(i: int, j: int, k: int, l: int) -> bool {
        i < k || (i == k && j < l)
    }

    /// Whether slot `j` is the first of state `i` whose transition mentions
    /// an undeclared state.
    pub open spec fn first_dangling_in_row(self, i: int, j: int) -> bool {
        &&& self.dangling(i, j)
        &&& forall|l: int| l < j ==> !#[trigger] self.dangling(i, l)
    }

    /// Whether slot `j` of state `i` is the first, in table order, whose
    /// transition mentions an undeclared state.
    pub open spec fn first_dangling(self, i: int, j: int) -> bool {
        &&& self.dangling(i, j)
        &&& forall|k: int, l: int| #[trigger]
            self.dangling(k, l) ==> !Self::before(k, l, i, j)
    }

    /// Whether `r` is what freezing this description gives: the frozen
    /// description when every mentioned state is declared, else the first
    /// undeclared name in table order.
    pub open spec fn freezes_to(self, r: Result<DescView, ErrorView>) -> bool {
        match r {
            Ok(d) => d == self.frozen() && forall|i: int, j: int| !#[trigger] self.dangling(i, j),
            Err(e) => exists|i: int, j: int| #[trigger]
                self.first_dangling(i, j) && e == ErrorView::UnknownStateReference(
                    self.transition(i, j).state,
                ),
        }
    }
}

/// Whether a builder call that answered `r` and turned `before` into
/// `after` did what `expected` says: on success the new description, on
/// failure the error with the description untouched.
pub open spec fn built(
    r: Result<(), TMDescError>,
    before: DescView,
    after: DescView,
    expected: Result<DescView, ErrorView>,
) -> bool {
    match expected {
        Ok(d) => r is Ok && after == d,
        Err(e) => r is Err && r->Err_0@ == e && after == before,
    }
}

/// Freezing has one outcome: the frozen description, or the one name that
/// is the first undeclared one in table order.
pub proof fn lemma_freeze_unique(
    d: DescView,
    r1: Result<DescView, ErrorView>,
    r2: Result<DescView, ErrorView>,
)
    requires
        d.freezes_to(r1),
        d.freezes_to(r2),
    ensures
        r1 == r2,
{
    if r1 is Err {
        let (i, j) = choose|i: int, j: int| #[trigger]
            d.first_dangling(i, j) && r1->Err_0 == ErrorView::UnknownStateReference(
                d.transition(i, j).state,
            );
        assert(d.dangling(i, j));
        if r2 is Err {
            let (k, l) = choose|k: int, l: int| #[trigger]
                d.first_dangling(k, l) && r2->Err_0 == ErrorView::UnknownStateReference(
                    d.transition(k, l).state,
                );
            assert(d.dangling(k, l));
            assert(!DescView::before(k, l, i, j));
            assert(!DescView::before(i, j, k, l));
        }
    } else if r2 is Err {
        let (k, l) = choose|k: int, l: int| #[trigger]
            d.first_dangling(k, l) && r2->Err_0 == ErrorView::UnknownStateReference(
                d.transition(k, l).state,
            );
        assert(d.dangling(k, l));
    }
}

/// Freezing a frozen description changes nothing.
pub proof fn lemma_freeze_idempotent(d: DescView)
    ensures
        d.frozen().frozen() == d.frozen(),
{
    let f = d.frozen();
    assert(f.names() =~= d.names());
    assert forall|i: int| 0 <= i < f.states.len() implies f.frozen().states[i] == f.states[i] by {
        assert(f.frozen().states[i].transitions =~= f.states[i].transitions);
    }
    assert(f.frozen().states =~= f.states);
}

/// Setting the alphabet keeps a description well-formed.
pub proof fn lemma_add_alphabet_wf(d: DescView, words: Seq<Seq<char>>)
    requires
        d.wf(),
        d.add_alphabet(words) is Ok,
    ensures
        d.add_alphabet(words)->Ok_0.wf(),
{
    let n = d.add_alphabet(words)->Ok_0;
    assert(n.names() =~= d.names());
}

/// Appending a state keeps a description well-formed.
pub proof fn lemma_add_state_wf(d: DescView, s: StateView)
    requires
        d.wf(),
        d.add_state(s) is Ok,
    ensures
        d.add_state(s)->Ok_0.wf(),
{
    let n = d.add_state(s)->Ok_0;
    assert(n.names() =~= d.names().push(s.name));
    assert forall|i: int, j: int|
        0 <= i < n.names().len() && 0 <= j < n.names().len() && i != j implies n.names()[i]
        != n.names()[j] by {
        if i < d.names().len() && j < d.names().len() {
        } else if i < d.names().len() {
            assert(d.names().contains(d.names()[i]));
        } else {
            assert(d.names().contains(d.names()[j]));
        }
    }
}

/// Taking in a record keeps a description well-formed.
pub proof fn lemma_handle_line_wf(d: DescView, words: Seq<Seq<char>>)
    requires
        d.wf(),
        d.handle_line(words) is Ok,
    ensures
        d.handle_line(words)->Ok_0.wf(),
{
    if d.input_symbols.len() == 0 {
        lemma_add_alphabet_wf(d, words.drop_first());
    } else {
        let s = StateView {
            name: words[0],
            transitions: if words.len() == 1 {
                absent_row(d.input_symbols.len())
            } else {
                parsed_cells(words.drop_first())
            },
        };
        lemma_add_state_wf(d, s);
    }
}

/// Freezing changes no name and no row length, so it keeps a description
/// well-formed; and the frozen description is resolved when no transition
/// mentions an undeclared state (and the positions fit in a `usize`).
pub proof fn lemma_frozen(d: DescView)
    ensures
        d.frozen().input_symbols == d.input_symbols,
        d.frozen().states.len() == d.states.len(),
        d.frozen().names() == d.names(),
        d.wf() ==> d.frozen().wf(),
        d.states.len() <= usize::MAX && (forall|i: int, j: int| !#[trigger] d.dangling(i, j))
            ==> d.frozen().resolved(),
{
    let f = d.frozen();
    assert(f.names() =~= d.names());
    if d.states.len() <= usize::MAX && forall|i: int, j: int| !#[trigger] d.dangling(i, j) {
        assert forall|i: int, j: int| #[trigger] f.has_transition(i, j) implies f.points_home(
            i,
            j,
        ) by {
            assert(d.has_transition(i, j));
            assert(!d.dangling(i, j));
            let t = d.transition(i, j);
            d.names().index_of_first_ensures(t.state);
        }
    }
}

} // verus!
