//! The code behind a transition: the source lines that the clauses of contracts speak of.

use crate::blocks::{SourceLine, SourceLineView};
use crate::clauses::{Clause, ClauseView, ContractDiff, ContractDiffView};
use crate::ir::{Loc, LocView};
use crate::list::Plain;
use crate::ordered::{lookup, put, SortedMap};
use crate::source::Files;
use crate::text;
use crate::text::Text;
use crate::transition::{Transition, TransitionView};
use vstd::prelude::*;

verus! {

/// The text of a line of the files, counted from one.
pub open spec fn line_text(files: Seq<(Text, Text)>, l: LocView) -> Option<Text> {
    match lookup(files, l.file) {
        Some(t) => {
            let lines = text::pieces(t, "\n"@);
            if 1 <= l.line <= lines.len() {
                Some(lines[l.line - 1])
            } else {
                None
            }
        },
        None => None,
    }
}

/// The lines with that of a place, where the files have it.
pub open spec fn with_line(
    files: Seq<(Text, Text)>,
    l: Option<LocView>,
    acc: Seq<(LocView, Text)>,
) -> Seq<(LocView, Text)> {
    match l {
        Some(l) => match line_text(files, l) {
            Some(t) => put(acc, l, t),
            None => acc,
        },
        None => acc,
    }
}

/// The place that a clause has on one side.
pub open spec fn place_of(c: ClauseView, old_side: bool) -> Option<LocView> {
    if old_side {
        c.evidence_before
    } else {
        c.evidence_after
    }
}

/// The lines of the clauses from index `i` on, added to `acc`.
pub open spec fn clause_lines(
    files: Seq<(Text, Text)>,
    cs: Seq<ClauseView>,
    old_side: bool,
    i: int,
    acc: Seq<(LocView, Text)>,
) -> Seq<(LocView, Text)>
    decreases cs.len() - i,
{
    if 0 <= i < cs.len() {
        clause_lines(
            files,
            cs,
            old_side,
            i + 1,
            with_line(files, place_of(cs[i], old_side), acc),
        )
    } else {
        acc
    }
}

/// The lines of the contracts from index `i` on, added to `acc`.
pub open spec fn lines_from(
    files: Seq<(Text, Text)>,
    cs: Seq<ContractDiffView>,
    old_side: bool,
    i: int,
    acc: Seq<(LocView, Text)>,
) -> Seq<(LocView, Text)>
    decreases cs.len() - i,
{
    if 0 <= i < cs.len() {
        lines_from(
            files,
            cs,
            old_side,
            i + 1,
            clause_lines(files, cs[i].clauses, old_side, 0, acc),
        )
    } else {
        acc
    }
}

/// The source lines that a transition speaks of.
pub open spec fn cited(
    t: TransitionView,
    before: Seq<(Text, Text)>,
    after: Seq<(Text, Text)>,
) -> SourceLineView {
    SourceLineView {
        before: lines_from(before, t.contracts, true, 0, seq![]),
        after: lines_from(after, t.contracts, false, 0, seq![]),
    }
}

fn add_line(files: &Files, l: &Option<Loc>, acc: &mut SortedMap<Loc, String>)
    ensures
        final(acc).deep_view() == with_line(
            files.deep_view(),
            l.deep_view(),
            old(acc).deep_view(),
        ),
{
    if let Some(l) = l {
        if let Some(t) = files.get(&l.file) {
            let lines = text::split(t, "\n");
            if l.line >= 1 && l.line as usize <= lines.len() {
                let i: usize = l.line as usize - 1;
                assert(lines.deep_view()[i as int] == lines@[i as int]@);
                acc.insert(l.dup(), lines[i].dup());
            }
        }
    }
}

fn add_clauses(files: &Files, cs: &Vec<Clause>, old_side: bool, acc: &mut SortedMap<Loc, String>)
    ensures
        final(acc).deep_view() == clause_lines(
            files.deep_view(),
            cs.deep_view(),
            old_side,
            0,
            old(acc).deep_view(),
        ),
{
    let ghost fv = files.deep_view();
    let ghost v = cs.deep_view();
    let ghost start = acc.deep_view();
    let mut i: usize = 0;
    while i < cs.len()
        invariant
            i <= cs@.len(),
            fv == files.deep_view(),
            v == cs.deep_view(),
            clause_lines(fv, v, old_side, i as int, acc.deep_view()) == clause_lines(
                fv,
                v,
                old_side,
                0,
                start,
            ),
        decreases cs@.len() - i,
    {
        assert(v[i as int] == cs@[i as int].deep_view());
        if old_side {
            add_line(files, &cs[i].evidence_before, acc);
        } else {
            add_line(files, &cs[i].evidence_after, acc);
        }
        i += 1;
    }
}

fn lines(files: &Files, cs: &Vec<ContractDiff>, old_side: bool) -> (r: SortedMap<Loc, String>)
    ensures
        r.deep_view() == lines_from(files.deep_view(), cs.deep_view(), old_side, 0, seq![]),
{
    let ghost fv = files.deep_view();
    let ghost v = cs.deep_view();
    let mut out: SortedMap<Loc, String> = SortedMap::new();
    let mut i: usize = 0;
    while i < cs.len()
        invariant
            i <= cs@.len(),
            fv == files.deep_view(),
            v == cs.deep_view(),
            lines_from(fv, v, old_side, i as int, out.deep_view()) == lines_from(
                fv,
                v,
                old_side,
                0,
                seq![],
            ),
        decreases cs@.len() - i,
    {
        assert(v[i as int] == cs@[i as int].deep_view());
        add_clauses(files, &cs[i].clauses, old_side, &mut out);
        i += 1;
    }
    out
}

/// The source lines that a transition speaks of, from the files before and after it.
pub fn cite(t: &Transition, before: &Files, after: &Files) -> (r: SourceLine)
    ensures
        r.deep_view() == cited(t.deep_view(), before.deep_view(), after.deep_view()),
{
    SourceLine { before: lines(before, &t.contracts, true), after: lines(after, &t.contracts, false) }
}

} // verus!
