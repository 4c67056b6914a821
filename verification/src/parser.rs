//! The text format of a description: lines of tab-separated fields, the
//! first the alphabet header, each later one a state. Empty lines and lines
//! that start with `#` are skipped.

use crate::errors::{ErrorView, TMDescError};
use crate::table::{lemma_frozen, lemma_handle_line_wf, DescView, TMDesc};
use crate::text::{chars_of, split_fields, split_on, views_of};
use vstd::prelude::*;

verus! {

/// The fields of a line, or nothing for a line to skip: an empty one, or a
/// comment.
pub open spec fn line_fields(line: Seq<char>) -> Option<Seq<Seq<char>>> {
    if line.len() == 0 || line[0] == '#' {
        None
    } else {
        Some(split_on(line, '\t'))
    }
}

/// The line without the carriage return at its end, if it has one.
pub open spec fn strip_cr(line: Seq<char>) -> Seq<char> {
    if line.len() > 0 && line.last() == '\r' {
        line.drop_last()
    } else {
        line
    }
}

/// The lines of a text: the pieces between line feeds, each piece that a
/// line feed ends taken without a carriage return before that line feed.
pub open spec fn text_lines(s: Seq<char>) -> Seq<Seq<char>> {
    let pieces = split_on(s, '\n');
    Seq::new(
        pieces.len(),
        |k: int|
            if k + 1 < pieces.len() {
                strip_cr(pieces[k])
            } else {
                pieces[k]
            },
    )
}

/// The records of a sequence of lines: the fields of each line that is not
/// skipped, in order.
pub open spec fn records(lines: Seq<Seq<char>>) -> Seq<Seq<Seq<char>>>
    decreases lines.len(),
{
    if lines.len() == 0 {
        Seq::empty()
    } else {
        let earlier = records(lines.drop_last());
        match line_fields(lines.last()) {
            Some(fields) => earlier.push(fields),
            None => earlier,
        }
    }
}

/// The description after taking in the records one by one, or the first
/// error met.
pub open spec fn fold_lines(d: DescView, lines: Seq<Seq<Seq<char>>>) -> Result<
    DescView,
    ErrorView,
>
    decreases lines.len(),
{
    if lines.len() == 0 {
        Ok(d)
    } else {
        match fold_lines(d, lines.drop_last()) {
            Ok(so_far) => so_far.handle_line(lines.last()),
            Err(e) => Err(e),
        }
    }
}

/// Whether `r` is what building from the records gives: the first error of
/// taking them in, else what freezing the resulting description gives.
pub open spec fn builds_to(lines: Seq<Seq<Seq<char>>>, r: Result<DescView, ErrorView>) -> bool {
    match fold_lines(DescView::empty(), lines) {
        Ok(d) => d.freezes_to(r),
        Err(e) => r == Err::<DescView, ErrorView>(e),
    }
}

/// The mathematical value of a list of records.
pub open spec fn records_view(lines: Seq<Vec<&str>>) -> Seq<Seq<Seq<char>>> {
    Seq::new(lines.len(), |i: int| views_of(lines[i]@))
}

/// The mathematical value of the result of a build.
pub open spec fn outcome(r: Result<TMDesc, TMDescError>) -> Result<DescView, ErrorView> {
    match r {
        Ok(d) => Ok(d@),
        Err(e) => Err(e@),
    }
}

/// An error met while taking in the first `n` records is the error of
/// taking in all of them.
pub proof fn lemma_fold_error_persists(d: DescView, lines: Seq<Seq<Seq<char>>>, n: int)
    requires
        0 <= n <= lines.len(),
        fold_lines(d, lines.take(n)) is Err,
    ensures
        fold_lines(d, lines) == fold_lines(d, lines.take(n)),
    decreases lines.len() - n,
{
    if n < lines.len() {
        assert(lines.take(n + 1).drop_last() =~= lines.take(n));
        lemma_fold_error_persists(d, lines, n + 1);
    } else {
        assert(lines.take(n) =~= lines);
    }
}

/// Taking in records keeps a description well-formed.
pub proof fn lemma_fold_lines_wf(d: DescView, lines: Seq<Seq<Seq<char>>>)
    requires
        d.wf(),
        fold_lines(d, lines) is Ok,
    ensures
        fold_lines(d, lines)->Ok_0.wf(),
    decreases lines.len(),
{
    if lines.len() > 0 {
        lemma_fold_lines_wf(d, lines.drop_last());
        lemma_handle_line_wf(fold_lines(d, lines.drop_last())->Ok_0, lines.last());
    }
}

/// In a description that building gives, every state has exactly one slot
/// per symbol of the alphabet, no symbol and no name occurs twice, and
/// every transition carries the position of a state of the table, which
/// bears the name that the transition mentions.
pub proof fn lemma_built_is_sound(lines: Seq<Seq<Seq<char>>>, d: DescView)
    requires
        builds_to(lines, Ok(d)),
        d.states.len() <= usize::MAX,
    ensures
        d.wf(),
        d.resolved(),
        forall|i: int|
            0 <= i < d.states.len() ==> (#[trigger] d.states[i]).transitions.len()
                == d.input_symbols.len(),
        forall|i: int, j: int| #[trigger]
            d.has_transition(i, j) ==> d.transition(i, j).state_index is Some && d.transition(
                i,
                j,
            ).state_index->0 < d.states.len(),
{
    let unfrozen = fold_lines(DescView::empty(), lines)->Ok_0;
    assert(DescView::empty().names() =~= Seq::empty());
    lemma_fold_lines_wf(DescView::empty(), lines);
    lemma_frozen(unfrozen);
}

/// The line without the carriage return at its end, if it has one.
fn strip_carriage_return<'a>(line: &'a str) -> (r: &'a str)
    ensures
        r@ == strip_cr(line@),
{
    let cs = chars_of(line);
    if cs.len() > 0 && cs[cs.len() - 1] == '\r' {
        let r = line.substring_char(0, cs.len() - 1);
        assert(r@ =~= line@.drop_last());
        r
    } else {
        line
    }
}

impl TMDesc {
    /// Splits a line into its tab-separated fields. Empty lines and
    /// comments, which start with `#`, give nothing.
    pub fn parse_line(line: &str) -> (r: Option<Vec<&str>>)
        ensures
            match r {
                Some(fields) => line_fields(line@) == Some(views_of(fields@)),
                None => line_fields(line@) is None,
            },
    {
        let cs = chars_of(line);
        if cs.len() == 0 || cs[0] == '#' {
            return None;
        }
        Some(split_fields(line, '\t'))
    }

    /// Builds a description from its records, the alphabet header first,
    /// and freezes it. A description that comes out is well-formed and
    /// resolved.
    pub fn from_lines(lines: &[Vec<&str>]) -> (r: Result<TMDesc, TMDescError>)
        ensures
            builds_to(records_view(lines@), outcome(r)),
            r is Ok ==> r->Ok_0@.wf() && r->Ok_0@.resolved(),
    {
        let ghost all = records_view(lines@);
        let mut desc = TMDesc::new();
        let mut i: usize = 0;
        assert(all.take(0) =~= Seq::empty());
        while i < lines.len()
            invariant
                i <= lines.len(),
                all == records_view(lines@),
                fold_lines(DescView::empty(), all.take(i as int)) == Ok::<DescView, ErrorView>(
                    desc@,
                ),
                desc@.wf(),
            decreases lines.len() - i,
        {
            assert(all.take(i + 1).drop_last() =~= all.take(i as int));
            assert(all.take(i + 1).last() == views_of(lines@[i as int]@));
            match desc.handle_line(lines[i].as_slice()) {
                Err(e) => {
                    proof {
                        lemma_fold_error_persists(DescView::empty(), all, i + 1);
                    }
                    return Err(e);
                },
                Ok(()) => {},
            }
            i += 1;
        }
        assert(all.take(i as int) =~= all);
        match desc.resolve_all_state_indices() {
            Ok(()) => Ok(desc),
            Err(e) => Err(e),
        }
    }

    /// Builds a description from its text and freezes it.
    pub fn from_string(string: &str) -> (r: Result<TMDesc, TMDescError>)
        ensures
            builds_to(records(text_lines(string@)), outcome(r)),
            r is Ok ==> r->Ok_0@.wf() && r->Ok_0@.resolved(),
    {
        let pieces = split_fields(string, '\n');
        let ghost lines = text_lines(string@);
        let mut recs: Vec<Vec<&str>> = Vec::new();
        let mut i: usize = 0;
        assert(lines.take(0) =~= Seq::empty());
        assert(records_view(recs@) =~= records(lines.take(0)));
        while i < pieces.len()
            invariant
                i <= pieces.len(),
                views_of(pieces@) == split_on(string@, '\n'),
                lines == text_lines(string@),
                records_view(recs@) == records(lines.take(i as int)),
            decreases pieces.len() - i,
        {
            assert(views_of(pieces@)[i as int] == pieces@[i as int]@);
            let line = if i + 1 < pieces.len() {
                strip_carriage_return(pieces[i])
            } else {
                pieces[i]
            };
            assert(line@ == lines[i as int]);
            assert(lines.take(i + 1).drop_last() =~= lines.take(i as int));
            assert(lines.take(i + 1).last() == line@);
            let ghost earlier = records_view(recs@);
            match Self::parse_line(line) {
                Some(fields) => {
                    recs.push(fields);
                    assert(records_view(recs@) =~= earlier.push(views_of(fields@)));
                },
                None => {},
            }
            i += 1;
        }
        assert(lines.take(i as int) =~= lines);
        Self::from_lines(recs.as_slice())
    }
}

} // verus!
