//! What a transition may claim: a pure refactor is claimed only where it can be backed up, and
//! a change to what code calls or logs is always said.

use crate::additions::subjects_from;
use crate::behaviour::pairs_changed;
use crate::evidence::{is_claim, no_claims, operations_claim_nothing};
use crate::matching::{matched, MatchingView};
use crate::model::{shape_key, CallShapeView, ModelView};
use crate::ops::{Layer, OpView};
use crate::ordered::{
    added, added_keeps_order, added_members, ascending, lookup, lookup_after_put, lookup_of_other,
    put, put_keeps_order, rising, slot_bounds, slot_of_stored,
};
use crate::shapes::{apart, flat, grouped, inlined_shapes, taken};
use crate::text::Text;
use crate::transition::{
    all_ops, bodies_differ, is_pure, is_refactoring, logging_changes, logs_apart, ops_between,
    refactor_op, typed_ops, untyped_change, untyped_changes,
};
use vstd::prelude::*;

verus! {

// ---- calls as multisets

/// How many of the shapes from index `i` on have a key.
pub open spec fn times(shapes: Seq<CallShapeView>, k: Text, i: int) -> nat
    decreases shapes.len() - i,
{
    if 0 <= i < shapes.len() {
        (if shape_key(shapes[i]) == k {
            1nat
        } else {
            0nat
        }) + times(shapes, k, i + 1)
    } else {
        0
    }
}

/// Both lists have the same shapes, each as often as the other.
pub open spec fn same_calls(a: Seq<CallShapeView>, b: Seq<CallShapeView>) -> bool {
    forall|k: Text| #[trigger] times(a, k, 0) == times(b, k, 0)
}

/// How many shapes a group has.
spec fn size_of(groups: Seq<(Text, Seq<CallShapeView>)>, k: Text) -> nat {
    match lookup(groups, k) {
        Some(v) => v.len(),
        None => 0,
    }
}

proof fn put_sets_size(
    groups: Seq<(Text, Seq<CallShapeView>)>,
    k: Text,
    v: Seq<CallShapeView>,
    other: Text,
)
    requires
        ascending(groups),
    ensures
        ascending(put(groups, k, v)),
        size_of(put(groups, k, v), other) == (if other == k {
            v.len()
        } else {
            size_of(groups, other)
        }),
{
    put_keeps_order(groups, k, v);
    lookup_after_put(groups, k, v);
    if other != k {
        lookup_of_other(groups, k, v, other);
    }
}

proof fn groups_count(
    shapes: Seq<CallShapeView>,
    i: int,
    acc: Seq<(Text, Seq<CallShapeView>)>,
    k: Text,
)
    requires
        ascending(acc),
    ensures
        ascending(grouped(shapes, i, acc)),
        size_of(grouped(shapes, i, acc), k) == size_of(acc, k) + times(shapes, k, i),
    decreases shapes.len() - i,
{
    if 0 <= i < shapes.len() {
        let key = shape_key(shapes[i]);
        let v = (match lookup(acc, key) {
            Some(v) => v,
            None => seq![],
        }).push(shapes[i]);
        put_sets_size(acc, key, v, k);
        groups_count(shapes, i + 1, put(acc, key, v), k);
    }
}

/// The groups without as many shapes as another list has.
spec fn rest_of(have: nat, used: nat) -> nat {
    if used <= have {
        (have - used) as nat
    } else {
        0
    }
}

proof fn taking_counts(
    left: Seq<(Text, Seq<CallShapeView>)>,
    shapes: Seq<CallShapeView>,
    i: int,
    only: Seq<CallShapeView>,
)
    requires
        ascending(left),
        0 <= i,
    ensures
        ascending(taken(left, shapes, i, only).0),
        forall|k: Text|
            #[trigger] size_of(taken(left, shapes, i, only).0, k) == rest_of(
                size_of(left, k),
                times(shapes, k, i),
            ),
        taken(left, shapes, i, only).1.len() >= only.len(),
        taken(left, shapes, i, only).1.len() == only.len() <==> forall|k: Text| #[trigger]
            times(shapes, k, i) <= size_of(left, k),
    decreases shapes.len() - i, 1int,
{
    let got = taken(left, shapes, i, only);
    if i < shapes.len() {
        let key = shape_key(shapes[i]);
        match lookup(left, key) {
            Some(v) => {
                if v.len() > 0 {
                    let next = put(left, key, v.drop_last());
                    put_keeps_order(left, key, v.drop_last());
                    taking_counts(next, shapes, i + 1, only);
                    assert(got == taken(next, shapes, i + 1, only));
                    assert forall|k: Text| #[trigger] size_of(got.0, k) == rest_of(
                        size_of(left, k),
                        times(shapes, k, i),
                    ) by {
                        put_sets_size(left, key, v.drop_last(), k);
                    }
                    if forall|k: Text| #[trigger] times(shapes, k, i) <= size_of(left, k) {
                        assert forall|k: Text| #[trigger] times(shapes, k, i + 1) <= size_of(
                            next,
                            k,
                        ) by {
                            put_sets_size(left, key, v.drop_last(), k);
                            assert(times(shapes, k, i) <= size_of(left, k));
                        }
                    }
                    if forall|k: Text| #[trigger] times(shapes, k, i + 1) <= size_of(next, k) {
                        assert forall|k: Text| #[trigger] times(shapes, k, i) <= size_of(
                            left,
                            k,
                        ) by {
                            put_sets_size(left, key, v.drop_last(), k);
                            assert(times(shapes, k, i + 1) <= size_of(next, k));
                        }
                    }
                } else {
                    nothing_to_take(left, shapes, i, only);
                }
            },
            None => {
                nothing_to_take(left, shapes, i, only);
            },
        }
    }
}

proof fn nothing_to_take(
    left: Seq<(Text, Seq<CallShapeView>)>,
    shapes: Seq<CallShapeView>,
    i: int,
    only: Seq<CallShapeView>,
)
    requires
        ascending(left),
        0 <= i < shapes.len(),
        size_of(left, shape_key(shapes[i])) == 0,
    ensures
        ascending(taken(left, shapes, i, only).0),
        forall|k: Text|
            #[trigger] size_of(taken(left, shapes, i, only).0, k) == rest_of(
                size_of(left, k),
                times(shapes, k, i),
            ),
        taken(left, shapes, i, only).1.len() > only.len(),
        !(forall|k: Text| #[trigger] times(shapes, k, i) <= size_of(left, k)),
    decreases shapes.len() - i, 0int,
{
    let key = shape_key(shapes[i]);
    taking_counts(left, shapes, i + 1, only.push(shapes[i]));
    let got = taken(left, shapes, i, only);
    assert(got == taken(left, shapes, i + 1, only.push(shapes[i])));
    assert(times(shapes, key, i) > size_of(left, key));
}

proof fn flat_is_empty(groups: Seq<(Text, Seq<CallShapeView>)>, i: int)
    requires
        0 <= i,
    ensures
        flat(groups, i).len() == 0 <==> forall|n: int|
            i <= n < groups.len() ==> (#[trigger] groups[n]).1.len() == 0,
    decreases groups.len() - i,
{
    if i < groups.len() {
        flat_is_empty(groups, i + 1);
        if flat(groups, i).len() == 0 {
            assert forall|n: int| i <= n < groups.len() implies (#[trigger] groups[n]).1.len()
                == 0 by {
                if n > i {
                    assert(i + 1 <= n);
                }
            }
        }
    }
}

/// Two lists of calls differ in nothing exactly if they have the same calls, each as often.
pub proof fn nothing_apart_is_same_calls(a: Seq<CallShapeView>, b: Seq<CallShapeView>)
    ensures
        apart(a, b).0.len() == 0 && apart(a, b).1.len() == 0 <==> same_calls(a, b),
{
    let none = Seq::<(Text, Seq<CallShapeView>)>::empty();
    assert(none =~= seq![]);
    let start = grouped(a, 0, none);
    groups_count(a, 0, none, Seq::empty());
    assert forall|k: Text| #[trigger] size_of(start, k) == times(a, k, 0) by {
        groups_count(a, 0, none, k);
    }
    let empty = Seq::<CallShapeView>::empty();
    assert(empty =~= seq![]);
    taking_counts(start, b, 0, empty);
    let (left, only) = taken(start, b, 0, empty);
    flat_is_empty(left, 0);
    if flat(left, 0).len() == 0 && only.len() == 0 {
        assert forall|k: Text| #[trigger] times(a, k, 0) == times(b, k, 0) by {
            assert(times(b, k, 0) <= size_of(start, k));
            assert(size_of(left, k) == rest_of(size_of(start, k), times(b, k, 0)));
            slot_bounds(left, k);
        }
    }
    if same_calls(a, b) {
        assert forall|k: Text| #[trigger] times(b, k, 0) <= size_of(start, k) by {
            assert(times(a, k, 0) == times(b, k, 0));
        }
        assert forall|n: int| 0 <= n < left.len() implies (#[trigger] left[n]).1.len() == 0 by {
            let k = left[n].0;
            slot_of_stored(left, n);
            assert(size_of(left, k) == rest_of(size_of(start, k), times(b, k, 0)));
            assert(times(a, k, 0) == times(b, k, 0));
        }
    }
}

// ---- what is always said

/// An operation that is about behaviour or design, and about `subject`.
pub open spec fn tells_of(op: OpView, subject: Text) -> bool {
    op.layer != Layer::Structure && op.subject == subject
}

proof fn subjects_have_operations(ops: Seq<OpView>, i: int, acc: Seq<Text>, x: Text)
    requires
        rising(acc),
        0 <= i,
    ensures
        subjects_from(ops, i, acc).contains(x) ==> acc.contains(x) || exists|j: int|
            i <= j < ops.len() && tells_of(#[trigger] ops[j], x),
    decreases ops.len() - i,
{
    if i < ops.len() {
        let next = if ops[i].layer == Layer::Structure {
            acc
        } else {
            added(acc, ops[i].subject)
        };
        added_keeps_order(acc, ops[i].subject);
        added_members(acc, ops[i].subject, x);
        subjects_have_operations(ops, i + 1, next, x);
        if subjects_from(ops, i, acc).contains(x) && !acc.contains(x) {
            if next.contains(x) {
                assert(tells_of(ops[i], x));
            }
        }
    }
}

proof fn untyped_change_is_there(
    a: ModelView,
    b: ModelView,
    m: MatchingView,
    explained: Seq<Text>,
    i: int,
    k: int,
)
    requires
        0 <= i <= k < m.forward.len(),
        bodies_differ(a, b, m.forward[k]),
        !explained.contains(m.forward[k].1),
        untyped_change(a, b, m, m.forward[k]).len() > 0,
    ensures
        exists|j: int|
            0 <= j < untyped_changes(a, b, m, explained, i).len() && tells_of(
                #[trigger] untyped_changes(a, b, m, explained, i)[j],
                m.forward[k].1,
            ),
    decreases m.forward.len() - i,
{
    let all = untyped_changes(a, b, m, explained, i);
    let head = if bodies_differ(a, b, m.forward[i]) && !explained.contains(m.forward[i].1) {
        untyped_change(a, b, m, m.forward[i])
    } else {
        seq![]
    };
    let rest = untyped_changes(a, b, m, explained, i + 1);
    assert(all == head + rest);
    if k == i {
        assert(all[0] == head[0]);
        assert(tells_of(all[0], m.forward[k].1));
    } else {
        untyped_change_is_there(a, b, m, explained, i + 1, k);
        let j = choose|j: int| 0 <= j < rest.len() && tells_of(#[trigger] rest[j], m.forward[k].1);
        assert(all[head.len() + j] == rest[j]);
        assert(tells_of(all[head.len() + j], m.forward[k].1));
    }
}

/// The calls of a pair, helpers on one side only counted as their bodies, are the same.
pub open spec fn calls_agree(a: ModelView, b: ModelView, m: MatchingView, pair: (Text, Text)) -> bool {
    same_calls(inlined_shapes(a, pair.0, m.forward), inlined_shapes(b, pair.1, m.backward))
}

/// A changed entity that calls other things, or under other conditions, is always told of: an
/// operation on behaviour or design has it as its subject.
pub proof fn changed_calls_are_told(a: ModelView, b: ModelView, k: int)
    requires
        0 <= k < matched(a, b).forward.len(),
        bodies_differ(a, b, matched(a, b).forward[k]),
        !calls_agree(a, b, matched(a, b), matched(a, b).forward[k]),
    ensures
        exists|j: int|
            0 <= j < ops_between(a, b).len() && tells_of(
                #[trigger] ops_between(a, b)[j],
                matched(a, b).forward[k].1,
            ),
{
    let m = matched(a, b);
    let pair = m.forward[k];
    let typed = typed_ops(a, b, m);
    let none = Seq::<Text>::empty();
    assert(none =~= seq![]);
    let explained = subjects_from(typed, 0, none);
    let untyped = untyped_changes(a, b, m, explained, 0);
    let logging = logging_changes(a, b, m.forward, 0);
    let all = all_ops(a, b, m);
    assert(all == typed + untyped + logging);
    nothing_apart_is_same_calls(
        inlined_shapes(a, pair.0, m.forward),
        inlined_shapes(b, pair.1, m.backward),
    );
    subjects_have_operations(typed, 0, none, pair.1);
    if explained.contains(pair.1) {
        let j = choose|j: int| 0 <= j < typed.len() && tells_of(#[trigger] typed[j], pair.1);
        assert(all[j] == typed[j]);
        assert(tells_of(ops_between(a, b)[j], pair.1));
    } else {
        assert(untyped_change(a, b, m, pair).len() > 0);
        untyped_change_is_there(a, b, m, explained, 0, k);
        let j = choose|j: int| 0 <= j < untyped.len() && tells_of(#[trigger] untyped[j], pair.1);
        assert(all[typed.len() + j] == untyped[j]);
        assert(tells_of(ops_between(a, b)[typed.len() + j], pair.1));
    }
}

/// An operation on the logging of an entity.
pub open spec fn tells_of_logging(op: OpView, subject: Text) -> bool {
    op.kind == "LOGGING_CHANGED"@ && op.subject == subject
}

proof fn logging_change_is_there(a: ModelView, b: ModelView, forward: Seq<(Text, Text)>, i: int, k: int)
    requires
        0 <= i <= k < forward.len(),
        bodies_differ(a, b, forward[k]),
        logs_apart(a, b, forward[k]).0.len() > 0 || logs_apart(a, b, forward[k]).1.len() > 0,
    ensures
        exists|j: int|
            0 <= j < logging_changes(a, b, forward, i).len() && tells_of_logging(
                #[trigger] logging_changes(a, b, forward, i)[j],
                forward[k].1,
            ),
    decreases forward.len() - i,
{
    let all = logging_changes(a, b, forward, i);
    let rest = logging_changes(a, b, forward, i + 1);
    let head = all.len() - rest.len();
    if k == i {
        assert(tells_of_logging(all[0], forward[k].1));
    } else {
        logging_change_is_there(a, b, forward, i + 1, k);
        let j = choose|j: int|
            0 <= j < rest.len() && tells_of_logging(#[trigger] rest[j], forward[k].1);
        assert(all[head + j] == rest[j]);
        assert(tells_of_logging(all[head + j], forward[k].1));
    }
}

/// The logging of a pair is the same.
pub open spec fn logs_agree(a: ModelView, b: ModelView, pair: (Text, Text)) -> bool {
    match (lookup(a.entities, pair.0), lookup(b.entities, pair.1)) {
        (Some(ea), Some(eb)) => same_calls(ea.logs, eb.logs),
        _ => true,
    }
}

/// A changed entity that logs other things is always told of.
pub proof fn changed_logging_is_told(a: ModelView, b: ModelView, k: int)
    requires
        0 <= k < matched(a, b).forward.len(),
        bodies_differ(a, b, matched(a, b).forward[k]),
        !logs_agree(a, b, matched(a, b).forward[k]),
    ensures
        exists|j: int|
            0 <= j < ops_between(a, b).len() && tells_of_logging(
                #[trigger] ops_between(a, b)[j],
                matched(a, b).forward[k].1,
            ),
{
    let m = matched(a, b);
    let pair = m.forward[k];
    match (lookup(a.entities, pair.0), lookup(b.entities, pair.1)) {
        (Some(ea), Some(eb)) => {
            nothing_apart_is_same_calls(ea.logs, eb.logs);
        },
        _ => {},
    }
    logging_change_is_there(a, b, m.forward, 0, k);
    let all = all_ops(a, b, m);
    let logging = logging_changes(a, b, m.forward, 0);
    let j = choose|j: int| 0 <= j < logging.len() && tells_of_logging(#[trigger] logging[j], pair.1);
    let n = all.len() - logging.len() + j;
    assert(all[n] == logging[j]);
    assert(tells_of_logging(ops_between(a, b)[n], pair.1));
}

/// A pure refactor is claimed between two models: something changed, and every operation leaves
/// behaviour as it was.
pub open spec fn claims_refactor(a: ModelView, b: ModelView) -> bool {
    is_pure(all_ops(a, b, matched(a, b)), pairs_changed(a, b, matched(a, b).forward, 0))
}

/// A claim of a pure refactor can be backed up. It stands last in the list, and then no
/// operation is about behaviour or design, and every changed entity makes the same calls under
/// the same conditions and logs the same. The claim occurs once: no other operation makes it, and
/// where it is not made no operation makes it.
pub proof fn refactor_claim_is_backed_up(a: ModelView, b: ModelView)
    ensures
        claims_refactor(a, b) ==> ops_between(a, b) == all_ops(a, b, matched(a, b)).push(
            refactor_op(pairs_changed(a, b, matched(a, b).forward, 0)),
        ),
        !claims_refactor(a, b) ==> ops_between(a, b) == all_ops(a, b, matched(a, b)),
        claims_refactor(a, b) ==> forall|j: int|
            0 <= j < ops_between(a, b).len() ==> (#[trigger] ops_between(a, b)[j]).layer
                == Layer::Structure && ops_between(a, b)[j].kind != "LOGGING_CHANGED"@,
        claims_refactor(a, b) ==> forall|k: int|
            0 <= k < matched(a, b).forward.len() && bodies_differ(
                a,
                b,
                #[trigger] matched(a, b).forward[k],
            ) ==> calls_agree(a, b, matched(a, b), matched(a, b).forward[k]) && logs_agree(
                a,
                b,
                matched(a, b).forward[k],
            ),
        no_claims(all_ops(a, b, matched(a, b))),
        forall|j: int|
            0 <= j < ops_between(a, b).len() ==> (is_claim(#[trigger] ops_between(a, b)[j])
                <==> claims_refactor(a, b) && j == ops_between(a, b).len() - 1),
{
    operations_claim_nothing(a, b, matched(a, b));
    assert forall|j: int| 0 <= j < ops_between(a, b).len() implies (is_claim(
        #[trigger] ops_between(a, b)[j],
    ) <==> claims_refactor(a, b) && j == ops_between(a, b).len() - 1) by {
        let all = all_ops(a, b, matched(a, b));
        if j < all.len() {
            assert(ops_between(a, b)[j] == all[j]);
            assert(!is_claim(all[j]));
        }
    }
    if claims_refactor(a, b) {
        let m = matched(a, b);
        let ops = ops_between(a, b);
        let all = all_ops(a, b, m);
        assert("PURE_REFACTOR"@ != "LOGGING_CHANGED"@) by {
            reveal_strlit("PURE_REFACTOR");
            reveal_strlit("LOGGING_CHANGED");
            assert("PURE_REFACTOR"@.len() != "LOGGING_CHANGED"@.len());
        }
        assert forall|j: int| 0 <= j < ops.len() implies (#[trigger] ops[j]).layer
            == Layer::Structure && ops[j].kind != "LOGGING_CHANGED"@ by {
            if j < all.len() {
                assert(ops[j] == all[j]);
                assert(is_refactoring(all[j]));
            }
        }
        assert forall|k: int|
            0 <= k < m.forward.len() && bodies_differ(a, b, #[trigger] m.forward[k]) implies
            calls_agree(a, b, m, m.forward[k]) && logs_agree(a, b, m.forward[k]) by {
            if !calls_agree(a, b, m, m.forward[k]) {
                changed_calls_are_told(a, b, k);
            }
            if !logs_agree(a, b, m.forward[k]) {
                changed_logging_is_told(a, b, k);
            }
        }
    }
}

} // verus!
