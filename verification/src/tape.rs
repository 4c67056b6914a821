//! The tape: conceptually infinite in both directions, stored as two
//! growable halves, one for the non-negative offsets and one for the
//! negative ones.

use crate::text::{chars_of, string_of};
use vstd::prelude::*;

verus! {

/// The blank symbol of a tape that was made without naming one.
pub const DEFAULT_BLANK: char = 'B';

/// The mathematical tape: the cells at offsets `0, 1, 2, ..` (`right`), the
/// cells at offsets `-1, -2, ..` (`left`), and the symbol that fills new cells.
pub struct TapeView {
    pub left: Seq<char>,
    pub right: Seq<char>,
    pub blank: char,
}

impl TapeView {
    /// The smallest valid offset (inclusive).
    pub open spec fn min(self) -> int {
        -(self.left.len() as int)
    }

    /// One past the largest valid offset.
    pub open spec fn max(self) -> int {
        self.right.len() as int
    }

    /// Whether `o` addresses an existing cell.
    pub open spec fn in_range(self, o: int) -> bool {
        self.min() <= o < self.max()
    }

    /// The symbol at offset `o`.
    pub open spec fn at(self, o: int) -> char {
        if o >= 0 {
            self.right[o]
        } else {
            self.left[-o - 1]
        }
    }

    /// The tape with the cell at `o` overwritten by `s`.
    pub open spec fn write(self, o: int, s: char) -> TapeView {
        if o >= 0 {
            TapeView { right: self.right.update(o, s), ..self }
        } else {
            TapeView { left: self.left.update(-o - 1, s), ..self }
        }
    }

    /// The tape extended by blank cells just far enough to hold offset `o`.
    pub open spec fn grow(self, o: int) -> TapeView {
        if o >= self.max() {
            TapeView {
                right: self.right + Seq::new((o + 1 - self.max()) as nat, |k: int| self.blank),
                ..self
            }
        } else if o < self.min() {
            TapeView {
                left: self.left + Seq::new((self.min() - o) as nat, |k: int| self.blank),
                ..self
            }
        } else {
            self
        }
    }

    /// The symbols at offsets `from, from + 1, .., to - 1`.
    pub open spec fn render(self, from: int, to: int) -> Seq<char> {
        if from < to {
            Seq::new((to - from) as nat, |k: int| self.at(from + k))
        } else {
            Seq::empty()
        }
    }

    /// Every cell of the tape, in address order.
    pub open spec fn contents(self) -> Seq<char> {
        self.render(self.min(), self.max())
    }

    /// Both halves are short enough for every offset to be an `isize`.
    pub open spec fn fits(self) -> bool {
        self.left.len() <= isize::MAX && self.right.len() <= isize::MAX
    }
}

/// A cell that was just written reads back as the written symbol; the
/// extent of the tape and every other cell stay as they were.
pub proof fn lemma_write_then_read(t: TapeView, o: int, s: char)
    requires
        t.in_range(o),
    ensures
        t.write(o, s).at(o) == s,
        t.write(o, s).min() == t.min(),
        t.write(o, s).max() == t.max(),
        t.write(o, s).blank == t.blank,
        forall|p: int| t.in_range(p) && p != o ==> t.write(o, s).at(p) == t.at(p),
{
}

/// Growing never shrinks the tape: the old window lies within the new one,
/// the old cells keep their symbols, the new cells are blank, and the
/// requested offset is in range afterwards.
pub proof fn lemma_grow_extends(t: TapeView, o: int)
    ensures
        t.grow(o).min() == if o < t.min() { o } else { t.min() },
        t.grow(o).max() == if o >= t.max() { o + 1 } else { t.max() },
        t.grow(o).min() <= t.min(),
        t.grow(o).max() >= t.max(),
        t.grow(o).in_range(o),
        t.grow(o).blank == t.blank,
        forall|p: int| t.in_range(p) ==> t.grow(o).at(p) == t.at(p),
        forall|p: int| t.grow(o).in_range(p) && !t.in_range(p) ==> t.grow(o).at(p) == t.blank,
{
}

/// Growing to include an offset that is already in range changes nothing,
/// so growing twice to the same offset is the same as growing once.
pub proof fn lemma_grow_idempotent(t: TapeView, o: int)
    ensures
        t.in_range(o) ==> t.grow(o) == t,
        t.grow(o).grow(o) == t.grow(o),
        t.grow(o).grow(o).min() == t.grow(o).min(),
        t.grow(o).grow(o).max() == t.grow(o).max(),
{
    lemma_grow_extends(t, o);
}

/// A tape of symbols addressed by a signed offset; offset 0 is where the
/// head starts.
#[derive(Debug)]
pub struct Tape {
    left: Vec<char>,
    right: Vec<char>,
    blank: char,
}

impl View for Tape {
    type V = TapeView;

    closed spec fn view(&self) -> TapeView {
        TapeView { left: self.left@, right: self.right@, blank: self.blank }
    }
}

impl Tape {
    /// The representation invariant: every offset of the tape is an `isize`.
    pub open spec fn wf(&self) -> bool {
        self@.fits()
    }

    /// A tape holding `s` at offsets `0..`, with the default blank symbol.
    pub fn from_str(s: &str) -> (t: Tape)
        requires
            s@.len() <= isize::MAX,
        ensures
            t@ == (TapeView { left: Seq::empty(), right: s@, blank: DEFAULT_BLANK }),
            t.wf(),
    {
        Tape::with_blank(s, DEFAULT_BLANK)
    }

    /// A tape holding `s` at offsets `0..`, whose new cells are filled with
    /// `blank`.
    pub fn with_blank(s: &str, blank: char) -> (t: Tape)
        requires
            s@.len() <= isize::MAX,
        ensures
            t@ == (TapeView { left: Seq::empty(), right: s@, blank }),
            t.wf(),
    {
        Tape { left: Vec::new(), right: chars_of(s), blank }
    }

    /// The symbol that fills newly created cells.
    pub fn blank(&self) -> (c: char)
        ensures
            c == self@.blank,
    {
        self.blank
    }

    /// One past the largest valid offset.
    pub fn max(&self) -> (m: isize)
        requires
            self.wf(),
        ensures
            m == self@.max(),
    {
        self.right.len() as isize
    }

    /// The smallest valid offset.
    pub fn min(&self) -> (m: isize)
        requires
            self.wf(),
        ensures
            m == self@.min(),
    {
        -(self.left.len() as isize)
    }

    /// Extends the tape with blanks so that offset `i` is valid. Does nothing
    /// when it already is.
    pub fn ensure_space(&mut self, i: isize)
        requires
            old(self).wf(),
            isize::MIN < i < isize::MAX,
        ensures
            final(self)@ == old(self)@.grow(i as int),
            final(self).wf(),
            final(self)@.in_range(i as int),
    {
        if i >= self.max() {
            let target: usize = i as usize + 1;
            while self.right.len() < target
                invariant
                    self.left == old(self).left,
                    self.blank == old(self).blank,
                    old(self).right.len() <= self.right.len() <= target,
                    target == i + 1,
                    self.right@ =~= old(self).right@ + Seq::new(
                        (self.right.len() - old(self).right.len()) as nat,
                        |k: int| self.blank,
                    ),
                decreases target - self.right.len(),
            {
                self.right.push(self.blank);
            }
        } else if i < self.min() {
            let target: usize = (-i) as usize;
            while self.left.len() < target
                invariant
                    self.right == old(self).right,
                    self.blank == old(self).blank,
                    old(self).left.len() <= self.left.len() <= target,
                    target == -i,
                    self.left@ =~= old(self).left@ + Seq::new(
                        (self.left.len() - old(self).left.len()) as nat,
                        |k: int| self.blank,
                    ),
                decreases target - self.left.len(),
            {
                self.left.push(self.blank);
            }
        }
    }

    /// The symbol at `offset`.
    pub fn read(&self, offset: isize) -> (c: char)
        requires
            self.wf(),
            self@.in_range(offset as int),
        ensures
            c == self@.at(offset as int),
    {
        if offset >= 0 {
            self.right[offset as usize]
        } else {
            self.left[(-offset - 1) as usize]
        }
    }

    /// Overwrites the symbol at `offset`.
    pub fn write(&mut self, offset: isize, symbol: char)
        requires
            old(self).wf(),
            old(self)@.in_range(offset as int),
        ensures
            final(self)@ == old(self)@.write(offset as int, symbol),
            final(self).wf(),
            final(self)@.at(offset as int) == symbol,
    {
        if offset >= 0 {
            self.right.set(offset as usize, symbol);
        } else {
            self.left.set((-offset - 1) as usize, symbol);
        }
    }

    /// The symbols at offsets `from..to`, in address order.
    pub fn render(&self, from: isize, to: isize) -> (out: Vec<char>)
        requires
            self.wf(),
            self@.min() <= from <= self@.max(),
            self@.min() <= to <= self@.max(),
        ensures
            out@ == self@.render(from as int, to as int),
    {
        let mut out: Vec<char> = Vec::new();
        let mut i: isize = from;
        while i < to
            invariant
                self.wf(),
                self@.min() <= from <= self@.max(),
                self@.min() <= to <= self@.max(),
                from <= i,
                i <= to || i == from,
                out@ =~= self@.render(from as int, i as int),
            decreases to - i,
        {
            out.push(self.read(i));
            i += 1;
        }
        assert(out@ =~= self@.render(from as int, to as int));
        out
    }

    /// The whole tape as a string, leftmost cell first.
    pub fn to_string(&self) -> (s: String)
        requires
            self.wf(),
        ensures
            s@ == self@.contents(),
    {
        let all = self.render(self.min(), self.max());
        string_of(&all)
    }
}

} // verus!
