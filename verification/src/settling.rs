//! What simplifying a predicate comes to: a form that simplifying leaves as it is.

use crate::pred::{
    absorbed, absorbed_all, connected, flattened, merged, simplified, spread, PredView,
};
use vstd::prelude::*;

verus! {

/// A predicate is a connective of the kind.
pub open spec fn is_connective(p: PredView, is_or: bool) -> bool {
    if is_or {
        p is Or
    } else {
        p is And
    }
}

/// No two parts of a connective are equal, or would be merged.
pub open spec fn apart(ps: Seq<PredView>, is_or: bool) -> bool {
    forall|i: int, j: int|
        0 <= i < ps.len() && 0 <= j < ps.len() && i != j ==> #[trigger] merged(ps[i], ps[j], is_or)
            is None && ps[i] != ps[j]
}

/// A predicate with nothing left to flatten or to merge.
pub open spec fn settled(p: PredView) -> bool
    decreases p,
{
    match p {
        PredView::Or(ps) => ps.len() != 1 && apart(ps, true) && forall|i: int|
            0 <= i < ps.len() ==> settled(#[trigger] ps[i]) && !(ps[i] is Or),
        PredView::And(ps) => ps.len() != 1 && apart(ps, false) && forall|i: int|
            0 <= i < ps.len() ==> settled(#[trigger] ps[i]) && !(ps[i] is And),
        _ => true,
    }
}

/// Parts of a connective that are settled themselves and none of which is a connective of the
/// same kind.
pub open spec fn plain_parts(ps: Seq<PredView>, is_or: bool) -> bool {
    forall|i: int|
        0 <= i < ps.len() ==> settled(#[trigger] ps[i]) && !is_connective(ps[i], is_or)
}

proof fn settled_parts(ps: Seq<PredView>)
    ensures
        settled(PredView::Or(ps)) == (ps.len() != 1 && apart(ps, true) && plain_parts(ps, true)),
        settled(PredView::And(ps)) == (ps.len() != 1 && apart(ps, false) && plain_parts(ps, false)),
{
    let any = PredView::Or(ps);
    let all = PredView::And(ps);
    assert(any->Or_0 == ps);
    assert(all->And_0 == ps);
    if settled(any) {
        assert forall|i: int| 0 <= i < ps.len() implies settled(#[trigger] ps[i]) && !is_connective(
            ps[i],
            true,
        ) by {
            assert(any->Or_0[i] == ps[i]);
        }
    }
    if plain_parts(ps, true) {
        assert forall|i: int| 0 <= i < any->Or_0.len() implies settled(#[trigger] any->Or_0[i]) && !(
        any->Or_0[i] is Or) by {
            assert(settled(ps[i]));
        }
    }
    if settled(all) {
        assert forall|i: int| 0 <= i < ps.len() implies settled(#[trigger] ps[i]) && !is_connective(
            ps[i],
            false,
        ) by {
            assert(all->And_0[i] == ps[i]);
        }
    }
    if plain_parts(ps, false) {
        assert forall|i: int| 0 <= i < all->And_0.len() implies settled(#[trigger] all->And_0[i])
            && !(all->And_0[i] is And) by {
            assert(settled(ps[i]));
        }
    }
}

/// A merged part takes what the part took, and nothing else.
proof fn merging_keeps_kind(q: PredView, p: PredView, is_or: bool, x: PredView)
    requires
        merged(q, p, is_or) is Some,
    ensures
        settled(merged(q, p, is_or)->Some_0),
        !is_connective(merged(q, p, is_or)->Some_0, is_or),
        merged(merged(q, p, is_or)->Some_0, x, is_or) is Some == merged(q, x, is_or) is Some,
        merged(x, merged(q, p, is_or)->Some_0, is_or) is Some == merged(x, q, is_or) is Some,
        merged(x, merged(q, p, is_or)->Some_0, is_or) is None ==> x != merged(
            q,
            p,
            is_or,
        )->Some_0,
        merged(x, q, is_or) is Some == merged(q, x, is_or) is Some,
{
}

proof fn merging_goes_both_ways(q: PredView, p: PredView, is_or: bool)
    ensures
        merged(q, p, is_or) is Some == merged(p, q, is_or) is Some,
{
}

proof fn absorbing_settles(out: Seq<PredView>, p: PredView, is_or: bool, i: int)
    requires
        0 <= i <= out.len(),
        apart(out, is_or),
        plain_parts(out, is_or),
        settled(p),
        !is_connective(p, is_or),
        forall|j: int| 0 <= j < i ==> merged(#[trigger] out[j], p, is_or) is None,
    ensures
        apart(absorbed(out, p, is_or, i), is_or),
        plain_parts(absorbed(out, p, is_or, i), is_or),
    decreases out.len() - i,
{
    if i < out.len() {
        match merged(out[i], p, is_or) {
            Some(q) => {
                let next = out.update(i, q);
                merging_keeps_kind(out[i], p, is_or, p);
                assert forall|x: int, y: int|
                    0 <= x < next.len() && 0 <= y < next.len() && x != y implies #[trigger] merged(
                    next[x],
                    next[y],
                    is_or,
                ) is None && next[x] != next[y] by {
                    assert(merged(out[x], out[y], is_or) is None && out[x] != out[y]);
                    assert(merged(out[y], out[x], is_or) is None);
                    if x == i {
                        merging_keeps_kind(out[i], p, is_or, out[y]);
                    } else if y == i {
                        merging_keeps_kind(out[i], p, is_or, out[x]);
                    }
                }
                assert forall|k: int| 0 <= k < next.len() implies settled(#[trigger] next[k])
                    && !is_connective(next[k], is_or) by {
                    if k != i {
                        assert(settled(out[k]));
                    }
                }
            },
            None => {
                absorbing_settles(out, p, is_or, i + 1);
            },
        }
    } else if !out.contains(p) {
        let next = out.push(p);
        assert forall|x: int, y: int|
            0 <= x < next.len() && 0 <= y < next.len() && x != y implies #[trigger] merged(
            next[x],
            next[y],
            is_or,
        ) is None && next[x] != next[y] by {
            if x == out.len() {
                merging_goes_both_ways(out[y], p, is_or);
                assert(merged(out[y], p, is_or) is None);
            } else if y == out.len() {
                assert(merged(out[x], p, is_or) is None);
            } else {
                assert(merged(out[x], out[y], is_or) is None);
            }
        }
        assert forall|k: int| 0 <= k < next.len() implies settled(#[trigger] next[k])
            && !is_connective(next[k], is_or) by {
            if k < out.len() {
                assert(settled(out[k]));
            }
        }
    }
}

proof fn absorbing_all_settles(flat: Seq<PredView>, is_or: bool, i: int, out: Seq<PredView>)
    requires
        0 <= i <= flat.len(),
        plain_parts(flat, is_or),
        apart(out, is_or),
        plain_parts(out, is_or),
    ensures
        apart(absorbed_all(flat, is_or, i, out), is_or),
        plain_parts(absorbed_all(flat, is_or, i, out), is_or),
    decreases flat.len() - i,
{
    if i < flat.len() {
        assert(settled(flat[i]));
        absorbing_settles(out, flat[i], is_or, 0);
        absorbing_all_settles(flat, is_or, i + 1, absorbed(out, flat[i], is_or, 0));
    }
}

proof fn connecting_settles(out: Seq<PredView>, is_or: bool)
    requires
        apart(out, is_or),
        plain_parts(out, is_or),
    ensures
        settled(connected(out, is_or)),
{
    if out.len() == 1 {
        assert(settled(out[0]));
    } else {
        settled_parts(out);
    }
}

proof fn flattening_settles(ps: Seq<PredView>, is_or: bool, i: int)
    requires
        0 <= i <= ps.len(),
    ensures
        plain_parts(flattened(ps, is_or, i), is_or),
    decreases ps, ps.len() - i,
{
    if i < ps.len() {
        let p = simplified(ps[i]);
        simplifying_settles(ps[i]);
        flattening_settles(ps, is_or, i + 1);
        let head = spread(p, is_or);
        let rest = flattened(ps, is_or, i + 1);
        match p {
            PredView::Or(inner) => {
                settled_parts(inner);
            },
            PredView::And(inner) => {
                settled_parts(inner);
            },
            _ => {},
        }
        assert(plain_parts(head, is_or));
        assert forall|k: int| 0 <= k < (head + rest).len() implies settled(
            #[trigger] (head + rest)[k],
        ) && !is_connective((head + rest)[k], is_or) by {
            if k < head.len() {
                assert(settled(head[k]));
            } else {
                assert(settled(rest[k - head.len()]));
            }
        }
    }
}

/// Simplifying leaves nothing to flatten or to merge.
pub proof fn simplifying_settles(p: PredView)
    ensures
        settled(simplified(p)),
    decreases p, 0int,
{
    let none = Seq::<PredView>::empty();
    assert(none =~= seq![]);
    match p {
        PredView::Or(ps) => {
            flattening_settles(ps, true, 0);
            absorbing_all_settles(flattened(ps, true, 0), true, 0, none);
            connecting_settles(absorbed_all(flattened(ps, true, 0), true, 0, none), true);
        },
        PredView::And(ps) => {
            flattening_settles(ps, false, 0);
            absorbing_all_settles(flattened(ps, false, 0), false, 0, none);
            connecting_settles(absorbed_all(flattened(ps, false, 0), false, 0, none), false);
        },
        _ => {},
    }
}

proof fn absorbing_goes_last(out: Seq<PredView>, p: PredView, is_or: bool, i: int)
    requires
        0 <= i <= out.len(),
        forall|j: int| 0 <= j < out.len() ==> merged(#[trigger] out[j], p, is_or) is None,
        !out.contains(p),
    ensures
        absorbed(out, p, is_or, i) == out.push(p),
    decreases out.len() - i,
{
    if i < out.len() {
        assert(merged(out[i], p, is_or) is None);
        absorbing_goes_last(out, p, is_or, i + 1);
    }
}

proof fn apart_parts_stay(ps: Seq<PredView>, is_or: bool, i: int)
    requires
        0 <= i <= ps.len(),
        apart(ps, is_or),
    ensures
        absorbed_all(ps, is_or, i, ps.take(i)) == ps,
    decreases ps.len() - i,
{
    if i < ps.len() {
        let out = ps.take(i);
        assert forall|j: int| 0 <= j < out.len() implies merged(#[trigger] out[j], ps[i], is_or)
            is None by {
            assert(merged(ps[j], ps[i], is_or) is None);
        }
        if out.contains(ps[i]) {
            let j = choose|j: int| 0 <= j < out.len() && out[j] == ps[i];
            assert(merged(ps[j], ps[i], is_or) is None && ps[j] != ps[i]);
        }
        absorbing_goes_last(out, ps[i], is_or, 0);
        assert(out.push(ps[i]) =~= ps.take(i + 1));
        apart_parts_stay(ps, is_or, i + 1);
    } else {
        assert(ps.take(i) =~= ps);
    }
}

proof fn plain_parts_stay(ps: Seq<PredView>, is_or: bool, i: int)
    requires
        0 <= i <= ps.len(),
        plain_parts(ps, is_or),
    ensures
        flattened(ps, is_or, i) == ps.skip(i),
    decreases ps, ps.len() - i,
{
    if i < ps.len() {
        assert(settled(ps[i]));
        settled_stays(ps[i]);
        plain_parts_stay(ps, is_or, i + 1);
        assert(spread(ps[i], is_or) == seq![ps[i]]);
        assert(seq![ps[i]] + ps.skip(i + 1) =~= ps.skip(i));
    } else {
        assert(ps.skip(i) =~= seq![]);
    }
}

/// Simplifying leaves a predicate with nothing to flatten or to merge as it is.
pub proof fn settled_stays(p: PredView)
    requires
        settled(p),
    ensures
        simplified(p) == p,
    decreases p, 0int,
{
    match p {
        PredView::Or(ps) => {
            settled_parts(ps);
            plain_parts_stay(ps, true, 0);
            assert(ps.skip(0) =~= ps);
            assert(ps.take(0) =~= seq![]);
            apart_parts_stay(ps, true, 0);
        },
        PredView::And(ps) => {
            settled_parts(ps);
            plain_parts_stay(ps, false, 0);
            assert(ps.skip(0) =~= ps);
            assert(ps.take(0) =~= seq![]);
            apart_parts_stay(ps, false, 0);
        },
        _ => {},
    }
}

/// Simplifying a predicate twice is simplifying it once.
pub proof fn simplifying_once_is_enough(p: PredView)
    ensures
        simplified(simplified(p)) == simplified(p),
{
    simplifying_settles(p);
    settled_stays(simplified(p));
}

} // verus!
