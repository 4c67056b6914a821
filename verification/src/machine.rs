//! The interpreter: a machine is a description together with a tape, a
//! head offset and a current state, and advances one transition at a time.

use crate::desc::cell_view;
use crate::errors::{ErrorView, TMDescError};
use crate::table::{DescView, TMDesc};
use crate::tape::{lemma_grow_extends, lemma_write_then_read, Tape, TapeView};
use crate::text::string_of;
use vstd::prelude::*;

verus! {

/// The run state of a machine: the position of the current state in the
/// table, the head offset, and the tape.
pub struct TMView {
    pub state: int,
    pub head: int,
    pub tape: TapeView,
}

impl TMView {
    /// The run state a machine starts in: the first state, the head at
    /// offset 0, the input at offsets `0..`, and offset 0 in range even for
    /// an empty input.
    pub open spec fn initial(d: DescView, input: Seq<char>) -> TMView {
        TMView {
            state: 0,
            head: 0,
            tape: (TapeView { left: Seq::empty(), right: input, blank: d.blank() }).grow(0),
        }
    }

    /// Whether this run state belongs to a machine of description `d`: the
    /// state exists, the head is on the tape, and the tape grows by the
    /// blank of `d`.
    pub open spec fn valid_for(self, d: DescView) -> bool {
        &&& 0 <= self.state < d.states.len()
        &&& self.tape.fits()
        &&& self.tape.in_range(self.head)
        &&& self.tape.blank == d.blank()
    }

    /// Whether the current state is final.
    pub open spec fn halted(self, d: DescView) -> bool {
        d.states[self.state].is_final()
    }

    /// What `tape_output` shows: the tape from the head to its right end.
    pub open spec fn output(self) -> Seq<char> {
        self.tape.render(self.head, self.tape.max())
    }
}

/// One step of the machine. A halted machine stays as it is. Otherwise the
/// symbol under the head selects a transition of the current state: its
/// symbol is written, the head moves, the tape grows to hold the head, and
/// the target becomes the current state. A symbol outside the alphabet and
/// an absent transition are errors.
pub open spec fn step(d: DescView, m: TMView) -> Result<TMView, ErrorView> {
    let st = d.states[m.state];
    let sym = m.tape.at(m.head);
    if m.halted(d) {
        Ok(m)
    } else {
        match d.find_symbol(sym) {
            None => Err(ErrorView::UnknownSymbol(sym)),
            Some(k) => match st.transitions[k] {
                None => Err(ErrorView::UndefinedTransition(st.name, sym)),
                Some(t) => {
                    let head = m.head + t.movement.delta();
                    Ok(
                        TMView {
                            state: t.state_index->0 as int,
                            head,
                            tape: m.tape.write(m.head, t.symbol).grow(head),
                        },
                    )
                },
            },
        }
    }
}

/// Whether a step that answered `r` and turned `before` into `after` did
/// what `step` says: on success the next run state, on failure the error
/// with the run state untouched.
pub open spec fn stepped(
    d: DescView,
    before: TMView,
    r: Result<(), TMDescError>,
    after: TMView,
) -> bool {
    match step(d, before) {
        Ok(m) => r is Ok && after == m,
        Err(e) => r is Err && r->Err_0@ == e && after == before,
    }
}

/// Whether a head at offset `head` can move either way and stay an `isize`
/// that the tape can grow to.
pub open spec fn head_can_move(head: int) -> bool {
    isize::MIN + 1 < head < isize::MAX - 1
}

/// The run state after `n` steps, or the first error met on the way.
pub open spec fn run(d: DescView, m: TMView, n: nat) -> Result<TMView, ErrorView>
    decreases n,
{
    if n == 0 {
        Ok(m)
    } else {
        match run(d, m, (n - 1) as nat) {
            Ok(prev) => step(d, prev),
            Err(e) => Err(e),
        }
    }
}

/// A step is a function of the description and the run state alone: equal
/// descriptions and equal run states give the same next state, head and
/// tape, or the same error.
pub proof fn lemma_step_deterministic(d1: DescView, m1: TMView, d2: DescView, m2: TMView)
    requires
        d1 == d2,
        m1.state == m2.state,
        m1.head == m2.head,
        m1.tape.left =~= m2.tape.left,
        m1.tape.right =~= m2.tape.right,
        m1.tape.blank == m2.tape.blank,
    ensures
        step(d1, m1) == step(d2, m2),
        forall|n: nat| run(d1, m1, n) == run(d2, m2, n),
{
    assert(m1.tape == m2.tape);
    assert(m1 == m2);
}

/// Once the machine has halted, any number of further steps leaves the
/// state, the head, the tape and with it the output as they are.
pub proof fn lemma_halted_stays(d: DescView, m: TMView, n: nat)
    requires
        m.halted(d),
    ensures
        step(d, m) == Ok::<TMView, ErrorView>(m),
        run(d, m, n) == Ok::<TMView, ErrorView>(m),
        run(d, m, n)->Ok_0.output() == m.output(),
    decreases n,
{
    if n > 0 {
        lemma_halted_stays(d, m, (n - 1) as nat);
    }
}

/// A step of a machine over a runnable description keeps the run state
/// valid, as long as the head stays clear of the ends of the `isize` range.
pub proof fn lemma_step_valid(d: DescView, m: TMView)
    requires
        d.runnable(),
        m.valid_for(d),
        head_can_move(m.head),
        step(d, m) is Ok,
    ensures
        step(d, m)->Ok_0.valid_for(d),
{
    if !m.halted(d) {
        let sym = m.tape.at(m.head);
        d.input_symbols.index_of_first_ensures(sym);
        let k = d.find_symbol(sym)->0;
        assert(d.has_transition(m.state, k));
        let t = d.transition(m.state, k);
        lemma_write_then_read(m.tape, m.head, t.symbol);
        lemma_grow_extends(m.tape.write(m.head, t.symbol), m.head + t.movement.delta());
    }
}

/// A runnable Turing machine instance.
pub struct TM<'a> {
    desc: &'a TMDesc,
    head: isize,
    tape: Tape,
    state: usize,
}

impl<'a> View for TM<'a> {
    type V = TMView;

    closed spec fn view(&self) -> TMView {
        TMView { state: self.state as int, head: self.head as int, tape: self.tape@ }
    }
}

impl<'a> TM<'a> {
    /// The description that the machine runs.
    pub closed spec fn desc(&self) -> TMDesc {
        *self.desc
    }

    /// The invariant of a machine: its description is runnable and its run
    /// state is valid for it.
    pub open spec fn wf(&self) -> bool {
        self.desc()@.runnable() && self@.valid_for(self.desc()@)
    }

    /// A machine for `desc` in its start state, with `input` on the tape
    /// from offset 0 on and the head at offset 0.
    pub fn new(desc: &'a TMDesc, input: &str) -> (tm: TM<'a>)
        requires
            desc@.runnable(),
            input@.len() <= isize::MAX,
        ensures
            tm.wf(),
            tm.desc() == *desc,
            tm@ == TMView::initial(desc@, input@),
    {
        let mut tape = Tape::with_blank(input, desc.blank_symbol());
        tape.ensure_space(0);
        proof {
            lemma_grow_extends(
                TapeView { left: Seq::empty(), right: input@, blank: desc@.blank() },
                0,
            );
        }
        TM { desc, head: 0, tape, state: 0 }
    }

    /// Advances the machine by one transition. A machine that has finished
    /// stays as it is. An error leaves the machine as it was.
    pub fn run_step(&mut self) -> (r: Result<(), TMDescError>)
        requires
            old(self).wf(),
            head_can_move(old(self)@.head),
        ensures
            final(self).wf(),
            final(self).desc() == old(self).desc(),
            stepped(old(self).desc()@, old(self)@, r, final(self)@),
            old(self)@.halted(old(self).desc()@) ==> r is Ok && final(self)@ == old(self)@,
    {
        let ghost d = self.desc()@;
        let ghost m = self@;
        if self.has_finished() {
            return Ok(());
        }
        let cur_sym = self.tape.read(self.head);
        let input_index = match self.desc.find_symbol(cur_sym) {
            Some(index) => index,
            None => {
                return Err(TMDescError::UnknownSymbol(cur_sym));
            },
        };
        let state = &self.desc.states[self.state];
        assert(state@ == d.states[m.state]);
        assert(state@.transitions[input_index as int] == cell_view(
            state.transitions@[input_index as int],
        ));
        let trans = match &state.transitions[input_index] {
            Some(trans) => trans,
            None => {
                return Err(TMDescError::UndefinedTransition(state.name.clone(), cur_sym));
            },
        };
        assert(d.has_transition(m.state, input_index as int));
        assert(d.transition(m.state, input_index as int) == trans@);
        proof {
            lemma_step_valid(d, m);
        }
        let target = trans.state_index.unwrap();
        self.tape.write(self.head, trans.symbol);
        self.head = self.head + trans.movement.to_delta();
        self.tape.ensure_space(self.head);
        self.state = target;
        Ok(())
    }

    /// Advances the machine by one transition, as `run_step` does, unless
    /// the head stands at the very end of the `isize` range: then nothing
    /// is done and the answer is `None`.
    pub fn try_step(&mut self) -> (r: Option<Result<(), TMDescError>>)
        requires
            old(self).wf(),
        ensures
            final(self).wf(),
            final(self).desc() == old(self).desc(),
            match r {
                Some(res) => head_can_move(old(self)@.head) && stepped(
                    old(self).desc()@,
                    old(self)@,
                    res,
                    final(self)@,
                ),
                None => !head_can_move(old(self)@.head) && final(self)@ == old(self)@,
            },
    {
        if isize::MIN + 1 < self.head && self.head < isize::MAX - 1 {
            Some(self.run_step())
        } else {
            None
        }
    }

    /// Whether the machine has reached the final state.
    pub fn has_finished(&self) -> (b: bool)
        requires
            self.wf(),
        ensures
            b == self@.halted(self.desc()@),
    {
        self.desc.states[self.state].is_final()
    }

    /// The tape from the head to its right end.
    pub fn get_tape_output(&self) -> (s: String)
        requires
            self.wf(),
        ensures
            s@ == self@.output(),
    {
        let cells = self.tape.render(self.head, self.tape.max());
        string_of(&cells)
    }

    /// The head offset.
    pub fn head(&self) -> (h: isize)
        ensures
            h == self@.head,
    {
        self.head
    }

    /// The position of the current state in the table.
    pub fn state_index(&self) -> (i: usize)
        ensures
            i == self@.state,
    {
        self.state
    }

    /// The tape.
    pub fn tape(&self) -> (t: &Tape)
        ensures
            t@ == self@.tape,
    {
        &self.tape
    }
}

} // verus!
