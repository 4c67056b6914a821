//! The machine description: alphabet, states and transition table, with the
//! builder that folds records into it and the pass that resolves state names.

use crate::errors::{ErrorView, TMDescError};
use crate::text::{chars_of, split_fields, split_on, views_of};
use vstd::prelude::*;

verus! {

/// How the head moves after a write.
#[derive(Debug, Clone, Copy, PartialEq, Eq, Structural)]
pub enum Movement {
    Left,
    Right,
    Stay,
}

/// The movement that a letter of the table stands for, if it stands for one.
pub open spec fn parse_movement(c: char) -> Option<Movement> {
    if c == 'L' {
        Some(Movement::Left)
    } else if c == 'R' {
        Some(Movement::Right)
    } else if c == 'N' {
        Some(Movement::Stay)
    } else {
        None
    }
}

impl Movement {
    /// The change of the head offset: -1, +1 or 0.
    pub open spec fn delta(self) -> int {
        match self {
            Movement::Left => -1,
            Movement::Right => 1,
            Movement::Stay => 0,
        }
    }

    /// Reads a movement letter: `L`, `R` or `N`.
    pub fn from_char(c: char) -> (r: Result<Movement, TMDescError>)
        ensures
            match r {
                Ok(m) => parse_movement(c) == Some(m),
                Err(e) => parse_movement(c) is None && e@ == ErrorView::MalformedDescription,
            },
    {
        if c == 'L' {
            Ok(Movement::Left)
        } else if c == 'R' {
            Ok(Movement::Right)
        } else if c == 'N' {
            Ok(Movement::Stay)
        } else {
            Err(TMDescError::MalformedDescription)
        }
    }

    /// The change of the head offset: -1, +1 or 0.
    pub fn to_delta(&self) -> (d: isize)
        ensures
            d == self.delta(),
    {
        match *self {
            Movement::Left => -1,
            Movement::Stay => 0,
            Movement::Right => 1,
        }
    }
}

/// One rule of the table: the state to go to, the symbol to write, and the
/// movement of the head. `state_index` is the position of `state` in the
/// table once names have been resolved.
#[derive(Debug, Clone)]
pub struct Transition {
    pub state: String,
    pub state_index: Option<usize>,
    pub symbol: char,
    pub movement: Movement,
}

/// The mathematical value of a transition.
pub struct TransitionView {
    pub state: Seq<char>,
    pub state_index: Option<usize>,
    pub symbol: char,
    pub movement: Movement,
}

impl View for Transition {
    type V = TransitionView;

    open spec fn view(&self) -> TransitionView {
        TransitionView {
            state: self.state@,
            state_index: self.state_index,
            symbol: self.symbol,
            movement: self.movement,
        }
    }
}

/// The transition that the text `target,symbol,movement` stands for: three
/// comma-separated parts, the last two of one character each, the last a
/// movement letter. Anything else stands for none.
pub open spec fn parse_transition(w: Seq<char>) -> Option<TransitionView> {
    let parts = split_on(w, ',');
    if parts.len() == 3 && parts[1].len() == 1 && parts[2].len() == 1 && parse_movement(
        parts[2][0],
    ) is Some {
        Some(
            TransitionView {
                state: parts[0],
                state_index: None,
                symbol: parts[1][0],
                movement: parse_movement(parts[2][0])->0,
            },
        )
    } else {
        None
    }
}

/// The table cell that a field stands for: `-` is an absent transition,
/// anything else must be a transition. The outer `None` marks a field that
/// is neither.
pub open spec fn parse_cell(w: Seq<char>) -> Option<Option<TransitionView>> {
    if w.len() == 1 && w[0] == '-' {
        Some(None)
    } else {
        match parse_transition(w) {
            Some(t) => Some(Some(t)),
            None => None,
        }
    }
}

/// Whether every field stands for a table cell.
pub open spec fn cells_parse(ws: Seq<Seq<char>>) -> bool {
    forall|i: int| 0 <= i < ws.len() ==> (#[trigger] parse_cell(ws[i])) is Some
}

/// The table cells that the fields stand for.
pub open spec fn parsed_cells(ws: Seq<Seq<char>>) -> Seq<Option<TransitionView>> {
    Seq::new(ws.len(), |i: int| parse_cell(ws[i])->0)
}

impl Transition {
    /// Reads a transition written as `target,symbol,movement`.
    pub fn from_str(s: &str) -> (r: Result<Transition, TMDescError>)
        ensures
            match r {
                Ok(t) => parse_transition(s@) == Some(t@),
                Err(e) => parse_transition(s@) is None && e@ == ErrorView::MalformedDescription,
            },
    {
        let v = split_fields(s, ',');
        assert(v@.len() == views_of(v@).len());
        if v.len() != 3 {
            return Err(TMDescError::MalformedDescription);
        }
        assert(views_of(v@)[0] == v@[0]@);
        assert(views_of(v@)[1] == v@[1]@);
        assert(views_of(v@)[2] == v@[2]@);
        let sym = chars_of(v[1]);
        let mov = chars_of(v[2]);
        if sym.len() != 1 || mov.len() != 1 {
            return Err(TMDescError::MalformedDescription);
        }
        match Movement::from_char(mov[0]) {
            Ok(movement) => Ok(
                Transition {
                    state: v[0].to_owned(),
                    state_index: None,
                    symbol: sym[0],
                    movement,
                },
            ),
            Err(e) => Err(e),
        }
    }
}

/// The name that marks a state as final.
pub open spec fn final_name() -> Seq<char> {
    seq!['S', 'T', 'O', 'P', 'P']
}

/// One row of the table: a named state and, for each symbol of the alphabet
/// in order, its transition or nothing.
#[derive(Debug, Clone)]
pub struct State {
    pub name: String,
    pub transitions: Vec<Option<Transition>>,
}

/// The mathematical value of a state.
pub struct StateView {
    pub name: Seq<char>,
    pub transitions: Seq<Option<TransitionView>>,
}

impl StateView {
    /// A state is final exactly when it carries the reserved name.
    pub open spec fn is_final(self) -> bool {
        self.name == final_name()
    }
}

/// The mathematical value of a table cell.
pub open spec fn cell_view(c: Option<Transition>) -> Option<TransitionView> {
    match c {
        Some(t) => Some(t@),
        None => None,
    }
}

/// The mathematical value of a row of cells.
pub open spec fn cells_view(cs: Seq<Option<Transition>>) -> Seq<Option<TransitionView>> {
    Seq::new(cs.len(), |i: int| cell_view(cs[i]))
}

impl View for State {
    type V = StateView;

    open spec fn view(&self) -> StateView {
        StateView { name: self.name@, transitions: cells_view(self.transitions@) }
    }
}

impl State {
    /// A state named `name` whose cells are read from `words`, one field per
    /// symbol: `-` for no transition, else `target,symbol,movement`.
    pub fn new(name: String, words: &[&str]) -> (r: Result<State, TMDescError>)
        ensures
            match r {
                Ok(s) => cells_parse(views_of(words@)) && s@ == (StateView {
                    name: name@,
                    transitions: parsed_cells(views_of(words@)),
                }),
                Err(e) => !cells_parse(views_of(words@)) && e@ == ErrorView::MalformedDescription,
            },
    {
        let mut trans: Vec<Option<Transition>> = Vec::new();
        let mut i: usize = 0;
        while i < words.len()
            invariant
                i <= words.len(),
                trans.len() == i,
                forall|k: int| 0 <= k < i ==> (#[trigger] parse_cell(views_of(words@)[k])) is Some,
                forall|k: int|
                    0 <= k < i ==> cell_view(#[trigger] trans@[k]) == parse_cell(
                        views_of(words@)[k],
                    )->0,
            decreases words.len() - i,
        {
            let w = words[i];
            assert(views_of(words@)[i as int] == w@);
            let cs = chars_of(w);
            if cs.len() == 1 && cs[0] == '-' {
                trans.push(None);
            } else {
                match Transition::from_str(w) {
                    Ok(t) => {
                        trans.push(Some(t));
                    },
                    Err(e) => {
                        assert(parse_cell(views_of(words@)[i as int]) is None);
                        return Err(e);
                    },
                }
            }
            i += 1;
        }
        let s = State { name, transitions: trans };
        assert(s@.transitions =~= parsed_cells(views_of(words@)));
        Ok(s)
    }

    /// Whether this is the final state.
    pub fn is_final(&self) -> (b: bool)
        ensures
            b == self@.is_final(),
    {
        let cs = chars_of(self.name.as_str());
        let b = cs.len() == 5 && cs[0] == 'S' && cs[1] == 'T' && cs[2] == 'O' && cs[3] == 'P'
            && cs[4] == 'P';
        assert(b ==> cs@ =~= final_name());
        b
    }
}

} // verus!
