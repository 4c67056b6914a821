//! Building a description record by record.

use crate::desc::{cells_view, State, Transition};
use crate::errors::{ErrorView, TMDescError};
use crate::table::{
    absent_row, built, first_chars, lemma_add_alphabet_wf, lemma_add_state_wf, DescView, TMDesc,
};
use crate::text::{chars_of, views_of};
use vstd::prelude::*;
use vstd::slice::slice_subrange;

verus! {

impl Default for TMDesc {
    /// The empty description.
    fn default() -> (d: TMDesc)
        ensures
            d@ == DescView::empty(),
    {
        TMDesc::new()
    }
}

impl TMDesc {
    /// The empty description: no symbols, no states.
    pub fn new() -> (d: TMDesc)
        ensures
            d@ == DescView::empty(),
            d@.wf(),
    {
        let d = TMDesc { input_symbols: Vec::new(), states: Vec::new() };
        assert(d@.states =~= Seq::empty());
        assert(d@.names() =~= Seq::empty());
        d
    }

    /// The position of the first state called `name`, if there is one.
    pub fn find_state(&self, name: &String) -> (r: Option<usize>)
        ensures
            match r {
                Some(i) => self@.find_state(name@) == Some(i as int) && i < self.states.len(),
                None => self@.find_state(name@) is None,
            },
    {
        let ghost names = self@.names();
        let mut i: usize = 0;
        while i < self.states.len()
            invariant
                i <= self.states.len(),
                names == self@.names(),
                forall|k: int| 0 <= k < i ==> names[k] != name@,
            decreases self.states.len() - i,
        {
            assert(names[i as int] == self.states@[i as int].name@);
            if self.states[i].name.eq(name) {
                proof {
                    names.index_of_first_ensures(name@);
                }
                return Some(i);
            }
            i += 1;
        }
        proof {
            names.index_of_first_ensures(name@);
        }
        None
    }

    /// The position of `c` in the alphabet, if it is a symbol.
    pub fn find_symbol(&self, c: char) -> (r: Option<usize>)
        ensures
            match r {
                Some(i) => self@.find_symbol(c) == Some(i as int) && i < self.input_symbols.len(),
                None => self@.find_symbol(c) is None,
            },
    {
        let mut i: usize = 0;
        while i < self.input_symbols.len()
            invariant
                i <= self.input_symbols.len(),
                forall|k: int| 0 <= k < i ==> self.input_symbols@[k] != c,
            decreases self.input_symbols.len() - i,
        {
            if self.input_symbols[i] == c {
                proof {
                    self.input_symbols@.index_of_first_ensures(c);
                }
                return Some(i);
            }
            i += 1;
        }
        proof {
            self.input_symbols@.index_of_first_ensures(c);
        }
        None
    }

    /// The blank symbol: the last symbol of the alphabet.
    pub fn blank_symbol(&self) -> (c: char)
        requires
            self.input_symbols.len() > 0,
        ensures
            c == self@.blank(),
    {
        self.input_symbols[self.input_symbols.len() - 1]
    }

    /// The position of the state that `trans` leads to: the one recorded in
    /// the transition if there is one, else that of the first state bearing
    /// the name; an error when no state bears it.
    pub fn resolve_state_index(&self, trans: &Transition) -> (r: Result<usize, TMDescError>)
        ensures
            match r {
                Ok(i) => match trans.state_index {
                    Some(k) => i == k,
                    None => self@.find_state(trans.state@) == Some(i as int) && i
                        < self.states.len(),
                },
                Err(e) => trans.state_index is None && self@.find_state(trans.state@) is None
                    && e@ == ErrorView::UnknownStateReference(trans.state@),
            },
    {
        match trans.state_index {
            Some(index) => Ok(index),
            None => match self.find_state(&trans.state) {
                Some(i) => Ok(i),
                None => Err(TMDescError::UnknownStateReference(trans.state.clone())),
            },
        }
    }

    /// Sets the alphabet from one-character words. Fails, leaving the
    /// description as it was, once a state has been added, when a word is
    /// not exactly one character, and when a symbol occurs twice.
    pub fn add_alphabet(&mut self, symbols: &[&str]) -> (r: Result<(), TMDescError>)
        ensures
            built(r, old(self)@, final(self)@, old(self)@.add_alphabet(views_of(symbols@))),
            old(self)@.wf() ==> final(self)@.wf(),
    {
        let ghost words = views_of(symbols@);
        if self.states.len() > 0 {
            return Err(TMDescError::MalformedDescription);
        }
        let mut acc: Vec<char> = Vec::new();
        let mut i: usize = 0;
        while i < symbols.len()
            invariant
                i <= symbols.len(),
                words == views_of(symbols@),
                acc@ =~= first_chars(words).take(i as int),
                forall|k: int| 0 <= k < i ==> (#[trigger] words[k]).len() == 1,
                acc@.no_duplicates(),
            decreases symbols.len() - i,
        {
            let cs = chars_of(symbols[i]);
            assert(words[i as int] == cs@);
            if cs.len() != 1 {
                return Err(TMDescError::MalformedDescription);
            }
            let c = cs[0];
            let mut k: usize = 0;
            while k < acc.len()
                invariant
                    k <= acc.len(),
                    acc.len() == i,
                    i < symbols.len(),
                    words == views_of(symbols@),
                    words[i as int].len() == 1,
                    c == words[i as int][0],
                    acc@ =~= first_chars(words).take(i as int),
                    forall|m: int| 0 <= m < k ==> acc@[m] != c,
                decreases acc.len() - k,
            {
                if acc[k] == c {
                    assert(first_chars(words)[k as int] == first_chars(words)[i as int]);
                    return Err(TMDescError::MalformedDescription);
                }
                k += 1;
            }
            acc.push(c);
            i += 1;
        }
        assert(acc@ =~= first_chars(words));
        self.input_symbols = acc;
        proof {
            if old(self)@.wf() {
                lemma_add_alphabet_wf(old(self)@, words);
            }
        }
        Ok(())
    }

    /// Appends a state. Fails, leaving the description as it was, when the
    /// state has not exactly one slot per symbol and when its name is taken.
    pub fn add_state(&mut self, state: State) -> (r: Result<(), TMDescError>)
        ensures
            built(r, old(self)@, final(self)@, old(self)@.add_state(state@)),
            old(self)@.wf() ==> final(self)@.wf(),
    {
        if state.transitions.len() != self.input_symbols.len() {
            return Err(TMDescError::MalformedDescription);
        }
        proof {
            self@.names().index_of_first_ensures(state.name@);
        }
        if self.find_state(&state.name).is_some() {
            return Err(TMDescError::MalformedDescription);
        }
        self.states.push(state);
        assert(self@.states =~= old(self)@.states.push(state@));
        proof {
            if old(self)@.wf() {
                lemma_add_state_wf(old(self)@, state@);
            }
        }
        Ok(())
    }

    /// Takes in one record of the table. While the alphabet is empty the
    /// record is the alphabet header, whose first field is skipped;
    /// afterwards it is a state: its name, then one field per symbol, or no
    /// field at all for a state without transitions.
    pub fn handle_line(&mut self, words: &[&str]) -> (r: Result<(), TMDescError>)
        ensures
            built(r, old(self)@, final(self)@, old(self)@.handle_line(views_of(words@))),
            old(self)@.wf() ==> final(self)@.wf(),
    {
        if words.len() == 0 {
            return Err(TMDescError::MalformedDescription);
        }
        let rest = slice_subrange(words, 1, words.len());
        assert(views_of(rest@) =~= views_of(words@).drop_first());
        assert(views_of(words@)[0] == words@[0]@);
        if self.input_symbols.len() == 0 {
            self.add_alphabet(rest)
        } else {
            match State::new(words[0].to_owned(), rest) {
                Err(e) => Err(e),
                Ok(parsed) => {
                    let mut state = parsed;
                    if rest.len() == 0 {
                        assert(cells_view(state.transitions@).len() == 0);
                        let mut k: usize = 0;
                        while k < self.input_symbols.len()
                            invariant
                                k <= self.input_symbols.len(),
                                state.name == parsed.name,
                                state.transitions.len() == k,
                                forall|m: int| 0 <= m < k ==> state.transitions@[m] is None,
                            decreases self.input_symbols.len() - k,
                        {
                            state.transitions.push(None);
                            k += 1;
                        }
                        assert(cells_view(state.transitions@) =~= absent_row(
                            self.input_symbols.len() as nat,
                        ));
                    }
                    self.add_state(state)
                },
            }
        }
    }
}

} // verus!
