//! How entities are paired across a change: a function that moved has the same body, a class that
//! moved the same name and methods, and the pairing reads alike in both directions.

use crate::matching::{
    classes_from, function_from, functions_from, is_free, is_value, kept_from, matched, only_here,
    reversed_from, same_class, same_function, twin_from, unmatched_from, MatchingView,
};
use crate::model::{ClassInfoView, EntityView, ModelView};
use crate::ordered::{
    ascending, lookup, lookup_after_put, lookup_of_other, put, put_keeps_order, put_values,
};
use crate::text;
use crate::text::Text;
use vstd::prelude::*;

verus! {

/// Two entities are one function that moved: neither stands in a class or a function, the bodies
/// are the same, and so is the name or the module.
pub open spec fn is_moved(a: EntityView, b: EntityView) -> bool {
    &&& a.class is None && a.parent is None && b.class is None && b.parent is None
    &&& a.body_hash == b.body_hash
    &&& a.name == b.name || a.module == b.module
}

/// A pair is of a function that moved from one list of entities to another.
pub open spec fn is_move(
    before: Seq<(Text, EntityView)>,
    after: Seq<(Text, EntityView)>,
    p: (Text, Text),
) -> bool {
    exists|i: int, j: int|
        0 <= i < before.len() && 0 <= j < after.len() && (#[trigger] before[i]).0 == p.0 && (
        #[trigger] after[j]).0 == p.1 && is_moved(before[i].1, after[j].1)
}

proof fn function_from_is(unmatched: Seq<(Text, EntityView)>, e: EntityView, i: int)
    requires
        0 <= i,
    ensures
        match function_from(unmatched, e, i) {
            Some(id) => exists|k: int|
                i <= k < unmatched.len() && (#[trigger] unmatched[k]).0 == id && same_function(
                    e,
                    unmatched[k].1,
                ),
            None => forall|k: int|
                i <= k < unmatched.len() ==> !same_function(e, (#[trigger] unmatched[k]).1),
        },
    decreases unmatched.len() - i,
{
    if i < unmatched.len() {
        function_from_is(unmatched, e, i + 1);
        if same_function(e, unmatched[i].1) {
            assert(unmatched[i].0 == unmatched[i].0);
        } else if let Some(id) = function_from(unmatched, e, i + 1) {
            let k = choose|k: int|
                i + 1 <= k < unmatched.len() && (#[trigger] unmatched[k]).0 == id && same_function(
                    e,
                    unmatched[k].1,
                );
            assert(unmatched[k].0 == id);
        }
    }
}

proof fn unmatched_are(after: Seq<(Text, EntityView)>, forward: Seq<(Text, Text)>, i: int)
    requires
        0 <= i,
    ensures
        forall|k: int|
            0 <= k < unmatched_from(after, forward, i).len() ==> after.contains(
                #[trigger] unmatched_from(after, forward, i)[k],
            ) && !is_value(forward, unmatched_from(after, forward, i)[k].0),
        forall|n: int|
            i <= n < after.len() && !is_value(forward, (#[trigger] after[n]).0) ==> unmatched_from(
                after,
                forward,
                i,
            ).contains(after[n]),
    decreases after.len() - i,
{
    if i < after.len() {
        unmatched_are(after, forward, i + 1);
        let rest = unmatched_from(after, forward, i + 1);
        let all = unmatched_from(after, forward, i);
        let h = all.len() - rest.len();
        assert forall|k: int| 0 <= k < all.len() implies after.contains(#[trigger] all[k]) && !is_value(
            forward,
            all[k].0,
        ) by {
            if k >= h {
                assert(all[k] == rest[k - h]);
            } else {
                assert(all[k] == after[i]);
            }
        }
        assert forall|n: int|
            i <= n < after.len() && !is_value(forward, (#[trigger] after[n]).0) implies all.contains(
            after[n],
        ) by {
            if n == i {
                assert(all[0] == after[n]);
            } else {
                assert(rest.contains(after[n]));
                let j = choose|j: int| 0 <= j < rest.len() && rest[j] == after[n];
                assert(all[h + j] == rest[j]);
            }
        }
    }
}

proof fn functions_move(
    before: Seq<(Text, EntityView)>,
    unmatched: Seq<(Text, EntityView)>,
    after: Seq<(Text, EntityView)>,
    i: int,
    m: MatchingView,
)
    requires
        0 <= i,
        forall|k: int| 0 <= k < unmatched.len() ==> after.contains(#[trigger] unmatched[k]),
        forall|k: int|
            0 <= k < m.moved_functions.len() ==> is_move(before, after, #[trigger] m.moved_functions[k]),
    ensures
        forall|k: int|
            0 <= k < functions_from(before, unmatched, i, m).moved_functions.len() ==> is_move(
                before,
                after,
                #[trigger] functions_from(before, unmatched, i, m).moved_functions[k],
            ),
    decreases before.len() - i,
{
    if i < before.len() {
        let (id, e) = before[i];
        function_from_is(unmatched, e, 0);
        if lookup(m.forward, id) is Some || !is_free(e) {
            functions_move(before, unmatched, after, i + 1, m);
            assert(functions_from(before, unmatched, i, m) == functions_from(
                before,
                unmatched,
                i + 1,
                m,
            ));
        } else {
            match function_from(unmatched, e, 0) {
                Some(idb) => {
                    let next = MatchingView {
                        forward: put(m.forward, id, idb),
                        moved_functions: put(m.moved_functions, id, idb),
                        ..m
                    };
                    put_values(m.moved_functions, id, idb);
                    let k = choose|k: int|
                        0 <= k < unmatched.len() && (#[trigger] unmatched[k]).0 == idb && same_function(
                            e,
                            unmatched[k].1,
                        );
                    let j = choose|j: int| 0 <= j < after.len() && after[j] == unmatched[k];
                    assert(before[i].0 == id && after[j].0 == idb);
                    assert(is_move(before, after, (id, idb)));
                    assert forall|n: int| 0 <= n < next.moved_functions.len() implies is_move(
                        before,
                        after,
                        #[trigger] next.moved_functions[n],
                    ) by {
                        if next.moved_functions[n] != (id, idb) {
                            let x = choose|x: int|
                                0 <= x < m.moved_functions.len() && m.moved_functions[x]
                                    == next.moved_functions[n];
                            assert(is_move(before, after, m.moved_functions[x]));
                        }
                    }
                    functions_move(before, unmatched, after, i + 1, next);
                    assert(functions_from(before, unmatched, i, m) == functions_from(
                        before,
                        unmatched,
                        i + 1,
                        next,
                    ));
                },
                None => {
                    functions_move(before, unmatched, after, i + 1, m);
                    assert(functions_from(before, unmatched, i, m) == functions_from(
                        before,
                        unmatched,
                        i + 1,
                        m,
                    ));
                },
            }
        }
    }
}

/// Two classes are one that moved: the name is the same, and so are the names of the methods.
pub open spec fn is_moved_class(a: ClassInfoView, b: ClassInfoView) -> bool {
    a.name == b.name && forall|n: Text|
        #[trigger] has_method(a, n) == has_method(b, n)
}

/// A class has a method of this name.
pub open spec fn has_method(c: ClassInfoView, n: Text) -> bool {
    exists|i: int| 0 <= i < c.methods.len() && text::after_last(#[trigger] c.methods[i], "."@) == n
}

proof fn names_are(methods: Seq<Text>, i: int, acc: Seq<Text>)
    requires
        crate::ordered::rising(acc),
        0 <= i,
    ensures
        forall|n: Text|
            #[trigger] crate::matching::names_from(methods, i, acc).contains(n) <==> acc.contains(n)
                || is_name_from(methods, i, n),
    decreases methods.len() - i,
{
    if i < methods.len() {
        let x = text::after_last(methods[i], "."@);
        let next = crate::ordered::added(acc, x);
        crate::ordered::added_keeps_order(acc, x);
        names_are(methods, i + 1, next);
        assert forall|n: Text|
            #[trigger] crate::matching::names_from(methods, i, acc).contains(n) <==> acc.contains(n)
                || is_name_from(methods, i, n) by {
            crate::ordered::added_members(acc, x, n);
            assert(crate::matching::names_from(methods, i + 1, next).contains(n) <==> next.contains(n)
                || is_name_from(methods, i + 1, n));
            if is_name_from(methods, i, n) {
                let k = choose|k: int|
                    i <= k < methods.len() && text::after_last(#[trigger] methods[k], "."@) == n;
                if k > i {
                    assert(is_name_from(methods, i + 1, n));
                }
            }
            if is_name_from(methods, i + 1, n) {
                let k = choose|k: int|
                    i + 1 <= k < methods.len() && text::after_last(#[trigger] methods[k], "."@) == n;
                assert(text::after_last(methods[k], "."@) == n);
            }
            if n == x {
                assert(text::after_last(methods[i], "."@) == n);
            }
        }
    }
}

spec fn is_name_from(methods: Seq<Text>, i: int, n: Text) -> bool {
    exists|k: int| i <= k < methods.len() && text::after_last(#[trigger] methods[k], "."@) == n
}

proof fn same_is_moved(a: ClassInfoView, b: ClassInfoView)
    requires
        same_class(a, b),
    ensures
        is_moved_class(a, b),
{
    let none = Seq::<Text>::empty();
    assert(none =~= seq![]);
    names_are(a.methods, 0, none);
    names_are(b.methods, 0, none);
    assert forall|n: Text| #[trigger] has_method(a, n) == has_method(b, n) by {
        assert(has_method(a, n) == is_name_from(a.methods, 0, n));
        assert(has_method(b, n) == is_name_from(b.methods, 0, n));
        assert(crate::matching::names_from(a.methods, 0, none).contains(n) == is_name_from(
            a.methods,
            0,
            n,
        ));
        assert(crate::matching::names_from(b.methods, 0, none).contains(n) == is_name_from(
            b.methods,
            0,
            n,
        ));
    }
}

/// A pair is of a class that moved.
pub open spec fn is_class_move(
    gone: Seq<ClassInfoView>,
    fresh: Seq<ClassInfoView>,
    p: (Text, Text),
) -> bool {
    exists|i: int, j: int|
        0 <= i < gone.len() && 0 <= j < fresh.len() && (#[trigger] gone[i]).id == p.0 && (
        #[trigger] fresh[j]).id == p.1 && is_moved_class(gone[i], fresh[j])
}

proof fn twin_from_is(classes: Seq<ClassInfoView>, a: ClassInfoView, i: int)
    requires
        0 <= i,
    ensures
        twin_from(classes, a, i) matches Some(d) ==> exists|k: int|
            i <= k < classes.len() && #[trigger] classes[k] == d && same_class(a, d),
    decreases classes.len() - i,
{
    if i < classes.len() {
        twin_from_is(classes, a, i + 1);
        if same_class(a, classes[i]) {
            assert(classes[i] == classes[i]);
        } else if let Some(d) = twin_from(classes, a, i + 1) {
            let k = choose|k: int|
                i + 1 <= k < classes.len() && #[trigger] classes[k] == d && same_class(a, d);
            assert(classes[k] == d);
        }
    }
}

proof fn classes_move(
    gone: Seq<ClassInfoView>,
    fresh: Seq<ClassInfoView>,
    i: int,
    m: MatchingView,
)
    requires
        0 <= i,
        forall|k: int|
            0 <= k < m.moved_classes.len() ==> is_class_move(gone, fresh, #[trigger] m.moved_classes[k]),
    ensures
        forall|k: int|
            0 <= k < classes_from(gone, fresh, i, m).moved_classes.len() ==> is_class_move(
                gone,
                fresh,
                #[trigger] classes_from(gone, fresh, i, m).moved_classes[k],
            ),
        classes_from(gone, fresh, i, m).moved_functions == m.moved_functions,
    decreases gone.len() - i,
{
    if i < gone.len() {
        let c = gone[i];
        twin_from_is(fresh, c, 0);
        match twin_from(fresh, c, 0) {
            Some(d) => {
                let next = MatchingView {
                    moved_classes: put(m.moved_classes, c.id, d.id),
                    forward: crate::matching::methods_from(c.methods, d.methods, 0, m.forward),
                    ..m
                };
                put_values(m.moved_classes, c.id, d.id);
                let k = choose|k: int|
                    0 <= k < fresh.len() && #[trigger] fresh[k] == d && same_class(c, d);
                same_is_moved(c, d);
                assert(gone[i].id == c.id && fresh[k].id == d.id);
                assert(is_class_move(gone, fresh, (c.id, d.id)));
                assert forall|n: int| 0 <= n < next.moved_classes.len() implies is_class_move(
                    gone,
                    fresh,
                    #[trigger] next.moved_classes[n],
                ) by {
                    if next.moved_classes[n] != (c.id, d.id) {
                        let x = choose|x: int|
                            0 <= x < m.moved_classes.len() && m.moved_classes[x]
                                == next.moved_classes[n];
                        assert(is_class_move(gone, fresh, m.moved_classes[x]));
                    }
                }
                classes_move(gone, fresh, i + 1, next);
            },
            None => {
                classes_move(gone, fresh, i + 1, m);
            },
        }
    }
}

proof fn functions_keep_classes(
    before: Seq<(Text, EntityView)>,
    unmatched: Seq<(Text, EntityView)>,
    i: int,
    m: MatchingView,
)
    ensures
        functions_from(before, unmatched, i, m).moved_classes == m.moved_classes,
    decreases before.len() - i,
{
    if 0 <= i < before.len() {
        let (id, e) = before[i];
        if lookup(m.forward, id) is Some || !is_free(e) {
            functions_keep_classes(before, unmatched, i + 1, m);
        } else {
            match function_from(unmatched, e, 0) {
                Some(idb) => {
                    functions_keep_classes(
                        before,
                        unmatched,
                        i + 1,
                        MatchingView {
                            forward: put(m.forward, id, idb),
                            moved_functions: put(m.moved_functions, id, idb),
                            ..m
                        },
                    );
                },
                None => {
                    functions_keep_classes(before, unmatched, i + 1, m);
                },
            }
        }
    }
}

/// What is said to have moved did: a function has the same body before and after, and a class the
/// same name and the same methods.
pub proof fn moves_are_true(a: ModelView, b: ModelView, n: int)
    ensures
        0 <= n < matched(a, b).moved_functions.len() ==> is_move(
            a.entities,
            b.entities,
            matched(a, b).moved_functions[n],
        ),
        0 <= n < matched(a, b).moved_classes.len() ==> is_class_move(
            only_here(a.classes, b.classes, 0),
            only_here(b.classes, a.classes, 0),
            matched(a, b).moved_classes[n],
        ),
{
    let m0 = MatchingView {
        forward: kept_from(a.entities, b.entities, 0, seq![]),
        ..crate::matching::no_match()
    };
    let gone = only_here(a.classes, b.classes, 0);
    let fresh = only_here(b.classes, a.classes, 0);
    classes_move(gone, fresh, 0, m0);
    let m1 = classes_from(gone, fresh, 0, m0);
    let unmatched = unmatched_from(b.entities, m1.forward, 0);
    unmatched_are(b.entities, m1.forward, 0);
    functions_move(a.entities, unmatched, b.entities, 0, m1);
    functions_keep_classes(a.entities, unmatched, 0, m1);
}

proof fn reversing_keeps_pairs(pairs: Seq<(Text, Text)>, i: int, acc: Seq<(Text, Text)>)
    requires
        ascending(acc),
        0 <= i,
    ensures
        ascending(reversed_from(pairs, i, acc)),
        forall|y: Text|
            #![trigger lookup(reversed_from(pairs, i, acc), y)]
            (lookup(reversed_from(pairs, i, acc), y) is Some) == (lookup(acc, y) is Some || exists|
                n: int,
            | i <= n < pairs.len() && (#[trigger] pairs[n]).1 == y),
        forall|y: Text|
            #![trigger lookup(reversed_from(pairs, i, acc), y)]
            lookup(reversed_from(pairs, i, acc), y) is Some ==> lookup(
                reversed_from(pairs, i, acc),
                y,
            ) == lookup(acc, y) || exists|n: int|
                i <= n < pairs.len() && #[trigger] pairs[n] == (
                    lookup(reversed_from(pairs, i, acc), y)->0,
                    y,
                ),
    decreases pairs.len() - i,
{
    if i < pairs.len() {
        let (x, z) = pairs[i];
        let next = put(acc, z, x);
        put_keeps_order(acc, z, x);
        lookup_after_put(acc, z, x);
        reversing_keeps_pairs(pairs, i + 1, next);
        let all = reversed_from(pairs, i, acc);
        assert forall|y: Text|
            #![trigger lookup(all, y)]
            (lookup(all, y) is Some) == (lookup(acc, y) is Some || exists|n: int|
                i <= n < pairs.len() && (#[trigger] pairs[n]).1 == y) by {
            if y != z {
                lookup_of_other(acc, z, x, y);
            } else {
                assert(pairs[i].1 == y);
            }
            if exists|n: int| i <= n < pairs.len() && (#[trigger] pairs[n]).1 == y {
                let n = choose|n: int| i <= n < pairs.len() && (#[trigger] pairs[n]).1 == y;
                if n > i {
                    assert(i + 1 <= n);
                }
            }
            if exists|n: int| i + 1 <= n < pairs.len() && (#[trigger] pairs[n]).1 == y {
                let n = choose|n: int| i + 1 <= n < pairs.len() && (#[trigger] pairs[n]).1 == y;
                assert(pairs[n].1 == y);
            }
        }
        assert forall|y: Text|
            #![trigger lookup(all, y)]
            lookup(all, y) is Some implies lookup(all, y) == lookup(acc, y) || exists|n: int|
            i <= n < pairs.len() && #[trigger] pairs[n] == (lookup(all, y)->0, y) by {
            if lookup(all, y) == lookup(next, y) {
                if y == z {
                    assert(pairs[i] == (lookup(all, y)->0, y));
                } else {
                    lookup_of_other(acc, z, x, y);
                }
            } else {
                let n = choose|n: int|
                    i + 1 <= n < pairs.len() && #[trigger] pairs[n] == (lookup(all, y)->0, y);
                assert(pairs[n] == (lookup(all, y)->0, y));
            }
        }
    }
}

/// The pairing reads alike in both directions: whatever stands on the new side of a pair has an
/// old side, and what is given as its old side is paired with it.
pub proof fn pairings_read_both_ways(a: ModelView, b: ModelView, y: Text)
    ensures
        lookup(matched(a, b).backward, y) is Some <==> exists|n: int|
            0 <= n < matched(a, b).forward.len() && (#[trigger] matched(a, b).forward[n]).1 == y,
        lookup(matched(a, b).backward, y) matches Some(x) ==> exists|n: int|
            0 <= n < matched(a, b).forward.len() && #[trigger] matched(a, b).forward[n] == (x, y),
{
    let none = Seq::<(Text, Text)>::empty();
    assert(none =~= seq![]);
    let fw = matched(a, b).forward;
    reversing_keeps_pairs(fw, 0, none);
    assert(matched(a, b).backward == reversed_from(fw, 0, none));
    assert(lookup(none, y) is None);
}

} // verus!
