//! What a transition tells beside the behaviour of changed functions: entities, classes,
//! dependencies, entry points, event handlers, schemas, rules, invariants and new code. Each
//! difference is told, and what is told is a difference.

use crate::additions::{
    description, field_gains, field_losses, new_code, old_schema, schema_changes, schema_name,
    subjects_from, was_extracted,
};
use crate::infer::{keys_from, meets, writers_from, writers_in};
use crate::ir::LocView;
use crate::matching::{is_value, matched, MatchingView};
use crate::model::{
    route_key, ClassInfoView, EntityKind, EntityView, InvariantView, ModelView, RequirementView,
    RouteView, SchemaFactView, SubscriptionView, ViolationView, WriteFactView,
};
use crate::ops::{Layer, OpView};
use crate::ordered::{
    added, added_keeps_order, added_members, ascending, lookup, lookup_after_put, lookup_of_other,
    put, put_keeps_order, rising, slot, slot_bounds, slot_of_stored,
};
use crate::pred::{field_of, PredView};
use crate::rules::{
    breaches, breaches_from, by_subject, concerned, details_from, fresh_from, renamed_detail,
    rule_changes, rules_broken, rules_mended, was_broken,
};
use crate::states::state_changes;
use crate::structure::{
    class_gains, class_losses, class_moves, dep_changes, entity_changes, function_moves,
    handler_gains, handler_losses, handlers_from, lost_methods, moved_methods, new_methods,
    reach_of, renamed_deps, route_gains, route_losses, routes_by_key, structure_changes,
    surface_changes,
};
use crate::text;
use crate::text::Text;
use crate::transition::{all_ops, direct_ops, ops_between, typed_ops};
use vstd::prelude::*;

verus! {

// ---- what operations say

/// An operation says this of `subject`.
pub open spec fn tells(
    op: OpView,
    kind: Text,
    layer: Layer,
    subject: Text,
    before: Option<Text>,
    after: Option<Text>,
) -> bool {
    op.kind == kind && op.layer == layer && op.subject == subject && op.before == before && op.after
        == after
}

/// Some operation says this of `subject`.
pub open spec fn is_said(
    ops: Seq<OpView>,
    kind: Text,
    layer: Layer,
    subject: Text,
    before: Option<Text>,
    after: Option<Text>,
) -> bool {
    exists|j: int|
        0 <= j < ops.len() && tells(#[trigger] ops[j], kind, layer, subject, before, after)
}

proof fn said_in_part(
    x: Seq<OpView>,
    y: Seq<OpView>,
    kind: Text,
    layer: Layer,
    subject: Text,
    before: Option<Text>,
    after: Option<Text>,
)
    ensures
        is_said(x, kind, layer, subject, before, after) || is_said(
            y,
            kind,
            layer,
            subject,
            before,
            after,
        ) ==> is_said(x + y, kind, layer, subject, before, after),
{
    let z = x + y;
    if is_said(x, kind, layer, subject, before, after) {
        let j = choose|j: int|
            0 <= j < x.len() && tells(#[trigger] x[j], kind, layer, subject, before, after);
        assert(z[j] == x[j]);
    }
    if is_said(y, kind, layer, subject, before, after) {
        let j = choose|j: int|
            0 <= j < y.len() && tells(#[trigger] y[j], kind, layer, subject, before, after);
        assert(z[x.len() + j] == y[j]);
    }
}

/// What is found of each sort is told by the transition.
proof fn sorts_are_told(
    a: ModelView,
    b: ModelView,
    kind: Text,
    layer: Layer,
    subject: Text,
    before: Option<Text>,
    after: Option<Text>,
)
    ensures
        ({
            let m = matched(a, b);
            let direct = direct_ops(a, b, m);
            is_said(structure_changes(a, b, m), kind, layer, subject, before, after) || is_said(
                surface_changes(a, b, m),
                kind,
                layer,
                subject,
                before,
                after,
            ) || is_said(
                new_code(b, m, subjects_from(direct, 0, seq![]), 0),
                kind,
                layer,
                subject,
                before,
                after,
            ) || is_said(schema_changes(a, b, m.modules, 0), kind, layer, subject, before, after)
                || is_said(breaches(a, b, m, 0), kind, layer, subject, before, after) || is_said(
                rule_changes(a, b, m),
                kind,
                layer,
                subject,
                before,
                after,
            ) ==> is_said(ops_between(a, b), kind, layer, subject, before, after)
        }),
{
    let m = matched(a, b);
    let s = structure_changes(a, b, m);
    let f = surface_changes(a, b, m);
    let p = crate::behaviour::pairs_ops(a, b, m.forward, 0);
    let direct = direct_ops(a, b, m);
    let t1 = new_code(b, m, subjects_from(direct, 0, seq![]), 0);
    let t2 = schema_changes(a, b, m.modules, 0);
    let t3 = state_changes(a, b);
    let t4 = breaches(a, b, m, 0);
    let t5 = rule_changes(a, b, m);
    said_in_part(s, f, kind, layer, subject, before, after);
    said_in_part(s + f, p, kind, layer, subject, before, after);
    said_in_part(direct, t1, kind, layer, subject, before, after);
    said_in_part(direct + t1, t2, kind, layer, subject, before, after);
    said_in_part(direct + t1 + t2, t3, kind, layer, subject, before, after);
    said_in_part(direct + t1 + t2 + t3, t4, kind, layer, subject, before, after);
    said_in_part(direct + t1 + t2 + t3 + t4, t5, kind, layer, subject, before, after);
    let typed = typed_ops(a, b, m);
    let u = crate::transition::untyped_changes(a, b, m, subjects_from(typed, 0, seq![]), 0);
    let l = crate::transition::logging_changes(a, b, m.forward, 0);
    said_in_part(typed, u, kind, layer, subject, before, after);
    said_in_part(typed + u, l, kind, layer, subject, before, after);
    let all = all_ops(a, b, m);
    if is_said(all, kind, layer, subject, before, after) {
        let j = choose|j: int|
            0 <= j < all.len() && tells(#[trigger] all[j], kind, layer, subject, before, after);
        assert(ops_between(a, b)[j] == all[j]);
    }
}

// ---- entities

/// An entity that has no counterpart, is no constructor and does not go with its class.
pub open spec fn stands_alone(
    e: (Text, EntityView),
    known: Seq<(Text, Text)>,
    covered: Seq<Text>,
) -> bool {
    lookup(known, e.0) is None && !covered.contains(e.0) && e.1.kind != EntityKind::Constructor
}

proof fn entities_are_exact(
    kind: Text,
    entities: Seq<(Text, EntityView)>,
    known: Seq<(Text, Text)>,
    covered: Seq<Text>,
    came: bool,
    i: int,
)
    requires
        0 <= i,
    ensures
        forall|n: int|
            i <= n < entities.len() && stands_alone((#[trigger] entities[n]), known, covered) ==> is_said(entity_changes(kind, entities, known, covered, came, i), kind, Layer::Structure, entities[n].0, None, None),
        forall|j: int|
            #![trigger entity_changes(kind, entities, known, covered, came, i)[j]]
            0 <= j < entity_changes(kind, entities, known, covered, came, i).len() ==> exists|n: int|
                i <= n < entities.len() && stands_alone((#[trigger] entities[n]), known, covered) && tells(entity_changes(kind, entities, known, covered, came, i)[j], kind, Layer::Structure, entities[n].0, None, None),
    decreases entities.len() - i,
{
    if i < entities.len() {
        entities_are_exact(kind, entities, known, covered, came, i + 1);
        let rest = entity_changes(kind, entities, known, covered, came, i + 1);
        let all = entity_changes(kind, entities, known, covered, came, i);
        let h = all.len() - rest.len();
        assert forall|n: int| i <= n < entities.len() && stands_alone((#[trigger] entities[n]), known, covered) implies is_said(all, kind, Layer::Structure, entities[n].0, None, None) by {
            if n == i {
                assert(tells(all[0], kind, Layer::Structure, entities[n].0, None, None));
            } else {
                assert(is_said(rest, kind, Layer::Structure, entities[n].0, None, None));
                let j = choose|j: int| 0 <= j < rest.len() && tells(#[trigger] rest[j], kind, Layer::Structure, entities[n].0, None, None);
                assert(all[h + j] == rest[j]);
            }
        }
        assert forall|j: int|
            #![trigger all[j]]
            0 <= j < all.len() implies exists|n: int| i <= n < entities.len() && stands_alone((#[trigger] entities[n]), known, covered) && tells(all[j], kind, Layer::Structure, entities[n].0, None, None) by {
            if j < h {
                assert(stands_alone(entities[i], known, covered) && tells(all[j], kind, Layer::Structure, entities[i].0, None, None));
            } else {
                assert(all[j] == rest[j - h]);
                let n = choose|n: int| i + 1 <= n < entities.len() && stands_alone((#[trigger] entities[n]), known, covered) && tells(rest[j - h], kind, Layer::Structure, entities[n].0, None, None);
                assert(stands_alone(entities[n], known, covered) && tells(all[j], kind, Layer::Structure, entities[n].0, None, None));
            }
        }
    }
}

/// A class that the other version does not have and that did not move from or to it.
pub open spec fn is_new(a: ModelView, m: MatchingView, c: (Text, ClassInfoView)) -> bool {
    lookup(a.classes, c.0) is None && !is_value(m.moved_classes, c.0)
}

/// A class that is gone and did not move.
pub open spec fn is_gone(b: ModelView, m: MatchingView, c: (Text, ClassInfoView)) -> bool {
    lookup(b.classes, c.0) is None && lookup(m.moved_classes, c.0) is None
}

proof fn new_classes_are_exact(
    a: ModelView,
    b: ModelView,
    m: MatchingView,
    i: int,
)
    requires
        0 <= i,
    ensures
        forall|n: int|
            i <= n < b.classes.len() && is_new(a, m, (#[trigger] b.classes[n])) ==> is_said(class_gains(a, b, m, i), "ENTITY_ADDED"@, Layer::Structure, b.classes[n].0, None, None),
        forall|j: int|
            #![trigger class_gains(a, b, m, i)[j]]
            0 <= j < class_gains(a, b, m, i).len() ==> exists|n: int|
                i <= n < b.classes.len() && is_new(a, m, (#[trigger] b.classes[n])) && tells(class_gains(a, b, m, i)[j], "ENTITY_ADDED"@, Layer::Structure, b.classes[n].0, None, None),
    decreases b.classes.len() - i,
{
    if i < b.classes.len() {
        new_classes_are_exact(a, b, m, i + 1);
        let rest = class_gains(a, b, m, i + 1);
        let all = class_gains(a, b, m, i);
        let h = all.len() - rest.len();
        assert forall|n: int| i <= n < b.classes.len() && is_new(a, m, (#[trigger] b.classes[n])) implies is_said(all, "ENTITY_ADDED"@, Layer::Structure, b.classes[n].0, None, None) by {
            if n == i {
                assert(tells(all[0], "ENTITY_ADDED"@, Layer::Structure, b.classes[n].0, None, None));
            } else {
                assert(is_said(rest, "ENTITY_ADDED"@, Layer::Structure, b.classes[n].0, None, None));
                let j = choose|j: int| 0 <= j < rest.len() && tells(#[trigger] rest[j], "ENTITY_ADDED"@, Layer::Structure, b.classes[n].0, None, None);
                assert(all[h + j] == rest[j]);
            }
        }
        assert forall|j: int|
            #![trigger all[j]]
            0 <= j < all.len() implies exists|n: int| i <= n < b.classes.len() && is_new(a, m, (#[trigger] b.classes[n])) && tells(all[j], "ENTITY_ADDED"@, Layer::Structure, b.classes[n].0, None, None) by {
            if j < h {
                assert(is_new(a, m, b.classes[i]) && tells(all[j], "ENTITY_ADDED"@, Layer::Structure, b.classes[i].0, None, None));
            } else {
                assert(all[j] == rest[j - h]);
                let n = choose|n: int| i + 1 <= n < b.classes.len() && is_new(a, m, (#[trigger] b.classes[n])) && tells(rest[j - h], "ENTITY_ADDED"@, Layer::Structure, b.classes[n].0, None, None);
                assert(is_new(a, m, b.classes[n]) && tells(all[j], "ENTITY_ADDED"@, Layer::Structure, b.classes[n].0, None, None));
            }
        }
    }
}

proof fn lost_classes_are_exact(
    a: ModelView,
    b: ModelView,
    m: MatchingView,
    i: int,
)
    requires
        0 <= i,
    ensures
        forall|n: int|
            i <= n < a.classes.len() && is_gone(b, m, (#[trigger] a.classes[n])) ==> is_said(class_losses(a, b, m, i), "ENTITY_REMOVED"@, Layer::Structure, a.classes[n].0, None, None),
        forall|j: int|
            #![trigger class_losses(a, b, m, i)[j]]
            0 <= j < class_losses(a, b, m, i).len() ==> exists|n: int|
                i <= n < a.classes.len() && is_gone(b, m, (#[trigger] a.classes[n])) && tells(class_losses(a, b, m, i)[j], "ENTITY_REMOVED"@, Layer::Structure, a.classes[n].0, None, None),
    decreases a.classes.len() - i,
{
    if i < a.classes.len() {
        lost_classes_are_exact(a, b, m, i + 1);
        let rest = class_losses(a, b, m, i + 1);
        let all = class_losses(a, b, m, i);
        let h = all.len() - rest.len();
        assert forall|n: int| i <= n < a.classes.len() && is_gone(b, m, (#[trigger] a.classes[n])) implies is_said(all, "ENTITY_REMOVED"@, Layer::Structure, a.classes[n].0, None, None) by {
            if n == i {
                assert(tells(all[0], "ENTITY_REMOVED"@, Layer::Structure, a.classes[n].0, None, None));
            } else {
                assert(is_said(rest, "ENTITY_REMOVED"@, Layer::Structure, a.classes[n].0, None, None));
                let j = choose|j: int| 0 <= j < rest.len() && tells(#[trigger] rest[j], "ENTITY_REMOVED"@, Layer::Structure, a.classes[n].0, None, None);
                assert(all[h + j] == rest[j]);
            }
        }
        assert forall|j: int|
            #![trigger all[j]]
            0 <= j < all.len() implies exists|n: int| i <= n < a.classes.len() && is_gone(b, m, (#[trigger] a.classes[n])) && tells(all[j], "ENTITY_REMOVED"@, Layer::Structure, a.classes[n].0, None, None) by {
            if j < h {
                assert(is_gone(b, m, a.classes[i]) && tells(all[j], "ENTITY_REMOVED"@, Layer::Structure, a.classes[i].0, None, None));
            } else {
                assert(all[j] == rest[j - h]);
                let n = choose|n: int| i + 1 <= n < a.classes.len() && is_gone(b, m, (#[trigger] a.classes[n])) && tells(rest[j - h], "ENTITY_REMOVED"@, Layer::Structure, a.classes[n].0, None, None);
                assert(is_gone(b, m, a.classes[n]) && tells(all[j], "ENTITY_REMOVED"@, Layer::Structure, a.classes[n].0, None, None));
            }
        }
    }
}

/// Both sides of a pair are classes.
pub open spec fn are_classes(a: ModelView, b: ModelView, p: (Text, Text)) -> bool {
    lookup(a.classes, p.0) is Some && lookup(b.classes, p.1) is Some
}

/// Both sides of a pair are entities.
pub open spec fn are_entities(a: ModelView, b: ModelView, p: (Text, Text)) -> bool {
    lookup(a.entities, p.0) is Some && lookup(b.entities, p.1) is Some
}

/// What a pair of entities is called: moved where it kept its name, renamed where it did not.
pub open spec fn moved_or_renamed(a: ModelView, b: ModelView, p: (Text, Text)) -> Text {
    if (lookup(a.entities, p.0)->0).name == (lookup(b.entities, p.1)->0).name {
        "ENTITY_MOVED"@
    } else {
        "ENTITY_RENAMED"@
    }
}

proof fn moved_classes_are_exact(
    a: ModelView,
    b: ModelView,
    pairs: Seq<(Text, Text)>,
    i: int,
)
    requires
        0 <= i,
    ensures
        forall|n: int|
            i <= n < pairs.len() && are_classes(a, b, (#[trigger] pairs[n])) ==> is_said(class_moves(a, b, pairs, i), "ENTITY_MOVED"@, Layer::Structure, pairs[n].0, None, Some(pairs[n].1)),
        forall|j: int|
            #![trigger class_moves(a, b, pairs, i)[j]]
            0 <= j < class_moves(a, b, pairs, i).len() ==> exists|n: int|
                i <= n < pairs.len() && are_classes(a, b, (#[trigger] pairs[n])) && tells(class_moves(a, b, pairs, i)[j], "ENTITY_MOVED"@, Layer::Structure, pairs[n].0, None, Some(pairs[n].1)),
    decreases pairs.len() - i,
{
    if i < pairs.len() {
        moved_classes_are_exact(a, b, pairs, i + 1);
        let rest = class_moves(a, b, pairs, i + 1);
        let all = class_moves(a, b, pairs, i);
        let h = all.len() - rest.len();
        assert forall|n: int| i <= n < pairs.len() && are_classes(a, b, (#[trigger] pairs[n])) implies is_said(all, "ENTITY_MOVED"@, Layer::Structure, pairs[n].0, None, Some(pairs[n].1)) by {
            if n == i {
                assert(tells(all[0], "ENTITY_MOVED"@, Layer::Structure, pairs[n].0, None, Some(pairs[n].1)));
            } else {
                assert(is_said(rest, "ENTITY_MOVED"@, Layer::Structure, pairs[n].0, None, Some(pairs[n].1)));
                let j = choose|j: int| 0 <= j < rest.len() && tells(#[trigger] rest[j], "ENTITY_MOVED"@, Layer::Structure, pairs[n].0, None, Some(pairs[n].1));
                assert(all[h + j] == rest[j]);
            }
        }
        assert forall|j: int|
            #![trigger all[j]]
            0 <= j < all.len() implies exists|n: int| i <= n < pairs.len() && are_classes(a, b, (#[trigger] pairs[n])) && tells(all[j], "ENTITY_MOVED"@, Layer::Structure, pairs[n].0, None, Some(pairs[n].1)) by {
            if j < h {
                assert(are_classes(a, b, pairs[i]) && tells(all[j], "ENTITY_MOVED"@, Layer::Structure, pairs[i].0, None, Some(pairs[i].1)));
            } else {
                assert(all[j] == rest[j - h]);
                let n = choose|n: int| i + 1 <= n < pairs.len() && are_classes(a, b, (#[trigger] pairs[n])) && tells(rest[j - h], "ENTITY_MOVED"@, Layer::Structure, pairs[n].0, None, Some(pairs[n].1));
                assert(are_classes(a, b, pairs[n]) && tells(all[j], "ENTITY_MOVED"@, Layer::Structure, pairs[n].0, None, Some(pairs[n].1)));
            }
        }
    }
}

proof fn moved_functions_are_exact(
    a: ModelView,
    b: ModelView,
    pairs: Seq<(Text, Text)>,
    i: int,
)
    requires
        0 <= i,
    ensures
        forall|n: int|
            i <= n < pairs.len() && are_entities(a, b, (#[trigger] pairs[n])) ==> is_said(function_moves(a, b, pairs, i), moved_or_renamed(a, b, pairs[n]), Layer::Structure, pairs[n].0, None, Some(pairs[n].1)),
        forall|j: int|
            #![trigger function_moves(a, b, pairs, i)[j]]
            0 <= j < function_moves(a, b, pairs, i).len() ==> exists|n: int|
                i <= n < pairs.len() && are_entities(a, b, (#[trigger] pairs[n])) && tells(function_moves(a, b, pairs, i)[j], moved_or_renamed(a, b, pairs[n]), Layer::Structure, pairs[n].0, None, Some(pairs[n].1)),
    decreases pairs.len() - i,
{
    if i < pairs.len() {
        moved_functions_are_exact(a, b, pairs, i + 1);
        let rest = function_moves(a, b, pairs, i + 1);
        let all = function_moves(a, b, pairs, i);
        let h = all.len() - rest.len();
        assert forall|n: int| i <= n < pairs.len() && are_entities(a, b, (#[trigger] pairs[n])) implies is_said(all, moved_or_renamed(a, b, pairs[n]), Layer::Structure, pairs[n].0, None, Some(pairs[n].1)) by {
            if n == i {
                assert(tells(all[0], moved_or_renamed(a, b, pairs[n]), Layer::Structure, pairs[n].0, None, Some(pairs[n].1)));
            } else {
                assert(is_said(rest, moved_or_renamed(a, b, pairs[n]), Layer::Structure, pairs[n].0, None, Some(pairs[n].1)));
                let j = choose|j: int| 0 <= j < rest.len() && tells(#[trigger] rest[j], moved_or_renamed(a, b, pairs[n]), Layer::Structure, pairs[n].0, None, Some(pairs[n].1));
                assert(all[h + j] == rest[j]);
            }
        }
        assert forall|j: int|
            #![trigger all[j]]
            0 <= j < all.len() implies exists|n: int| i <= n < pairs.len() && are_entities(a, b, (#[trigger] pairs[n])) && tells(all[j], moved_or_renamed(a, b, pairs[n]), Layer::Structure, pairs[n].0, None, Some(pairs[n].1)) by {
            if j < h {
                assert(are_entities(a, b, pairs[i]) && tells(all[j], moved_or_renamed(a, b, pairs[i]), Layer::Structure, pairs[i].0, None, Some(pairs[i].1)));
            } else {
                assert(all[j] == rest[j - h]);
                let n = choose|n: int| i + 1 <= n < pairs.len() && are_entities(a, b, (#[trigger] pairs[n])) && tells(rest[j - h], moved_or_renamed(a, b, pairs[n]), Layer::Structure, pairs[n].0, None, Some(pairs[n].1));
                assert(are_entities(a, b, pairs[n]) && tells(all[j], moved_or_renamed(a, b, pairs[n]), Layer::Structure, pairs[n].0, None, Some(pairs[n].1)));
            }
        }
    }
}

// ---- dependencies

/// A dependency that the other version does not have.
pub open spec fn is_other_dep(
    d: ((Text, Text), Seq<LocView>),
    there: Seq<((Text, Text), Seq<LocView>)>,
) -> bool {
    lookup(there, d.0) is None
}

proof fn deps_are_exact(
    kind: Text,
    here: Seq<((Text, Text), Seq<LocView>)>,
    there: Seq<((Text, Text), Seq<LocView>)>,
    came: bool,
    i: int,
)
    requires
        0 <= i,
    ensures
        forall|n: int|
            i <= n < here.len() && is_other_dep((#[trigger] here[n]), there) ==> is_said(dep_changes(kind, here, there, came, i), kind, Layer::Structure, here[n].0.0 + " → "@ + here[n].0.1, None, None),
        forall|j: int|
            #![trigger dep_changes(kind, here, there, came, i)[j]]
            0 <= j < dep_changes(kind, here, there, came, i).len() ==> exists|n: int|
                i <= n < here.len() && is_other_dep((#[trigger] here[n]), there) && tells(dep_changes(kind, here, there, came, i)[j], kind, Layer::Structure, here[n].0.0 + " → "@ + here[n].0.1, None, None),
    decreases here.len() - i,
{
    if i < here.len() {
        deps_are_exact(kind, here, there, came, i + 1);
        let rest = dep_changes(kind, here, there, came, i + 1);
        let all = dep_changes(kind, here, there, came, i);
        let h = all.len() - rest.len();
        assert forall|n: int| i <= n < here.len() && is_other_dep((#[trigger] here[n]), there) implies is_said(all, kind, Layer::Structure, here[n].0.0 + " → "@ + here[n].0.1, None, None) by {
            if n == i {
                assert(tells(all[0], kind, Layer::Structure, here[n].0.0 + " → "@ + here[n].0.1, None, None));
            } else {
                assert(is_said(rest, kind, Layer::Structure, here[n].0.0 + " → "@ + here[n].0.1, None, None));
                let j = choose|j: int| 0 <= j < rest.len() && tells(#[trigger] rest[j], kind, Layer::Structure, here[n].0.0 + " → "@ + here[n].0.1, None, None);
                assert(all[h + j] == rest[j]);
            }
        }
        assert forall|j: int|
            #![trigger all[j]]
            0 <= j < all.len() implies exists|n: int| i <= n < here.len() && is_other_dep((#[trigger] here[n]), there) && tells(all[j], kind, Layer::Structure, here[n].0.0 + " → "@ + here[n].0.1, None, None) by {
            if j < h {
                assert(is_other_dep(here[i], there) && tells(all[j], kind, Layer::Structure, here[i].0.0 + " → "@ + here[i].0.1, None, None));
            } else {
                assert(all[j] == rest[j - h]);
                let n = choose|n: int| i + 1 <= n < here.len() && is_other_dep((#[trigger] here[n]), there) && tells(rest[j - h], kind, Layer::Structure, here[n].0.0 + " → "@ + here[n].0.1, None, None);
                assert(is_other_dep(here[n], there) && tells(all[j], kind, Layer::Structure, here[n].0.0 + " → "@ + here[n].0.1, None, None));
            }
        }
    }
}

// ---- entry points and handlers

/// A route that the other version does not have.
pub open spec fn is_other_route(r: (Text, RouteView), there: Seq<(Text, RouteView)>) -> bool {
    lookup(there, r.0) is None
}

proof fn new_routes_are_exact(
    b: ModelView,
    here: Seq<(Text, RouteView)>,
    there: Seq<(Text, RouteView)>,
    i: int,
)
    requires
        0 <= i,
    ensures
        forall|n: int|
            i <= n < here.len() && is_other_route((#[trigger] here[n]), there) ==> is_said(route_gains(b, here, there, i), "ENTRYPOINT_ADDED"@, Layer::Behaviour, here[n].0, None, reach_of(b, here[n].1.handler)),
        forall|j: int|
            #![trigger route_gains(b, here, there, i)[j]]
            0 <= j < route_gains(b, here, there, i).len() ==> exists|n: int|
                i <= n < here.len() && is_other_route((#[trigger] here[n]), there) && tells(route_gains(b, here, there, i)[j], "ENTRYPOINT_ADDED"@, Layer::Behaviour, here[n].0, None, reach_of(b, here[n].1.handler)),
    decreases here.len() - i,
{
    if i < here.len() {
        new_routes_are_exact(b, here, there, i + 1);
        let rest = route_gains(b, here, there, i + 1);
        let all = route_gains(b, here, there, i);
        let h = all.len() - rest.len();
        assert forall|n: int| i <= n < here.len() && is_other_route((#[trigger] here[n]), there) implies is_said(all, "ENTRYPOINT_ADDED"@, Layer::Behaviour, here[n].0, None, reach_of(b, here[n].1.handler)) by {
            if n == i {
                assert(tells(all[0], "ENTRYPOINT_ADDED"@, Layer::Behaviour, here[n].0, None, reach_of(b, here[n].1.handler)));
            } else {
                assert(is_said(rest, "ENTRYPOINT_ADDED"@, Layer::Behaviour, here[n].0, None, reach_of(b, here[n].1.handler)));
                let j = choose|j: int| 0 <= j < rest.len() && tells(#[trigger] rest[j], "ENTRYPOINT_ADDED"@, Layer::Behaviour, here[n].0, None, reach_of(b, here[n].1.handler));
                assert(all[h + j] == rest[j]);
            }
        }
        assert forall|j: int|
            #![trigger all[j]]
            0 <= j < all.len() implies exists|n: int| i <= n < here.len() && is_other_route((#[trigger] here[n]), there) && tells(all[j], "ENTRYPOINT_ADDED"@, Layer::Behaviour, here[n].0, None, reach_of(b, here[n].1.handler)) by {
            if j < h {
                assert(is_other_route(here[i], there) && tells(all[j], "ENTRYPOINT_ADDED"@, Layer::Behaviour, here[i].0, None, reach_of(b, here[i].1.handler)));
            } else {
                assert(all[j] == rest[j - h]);
                let n = choose|n: int| i + 1 <= n < here.len() && is_other_route((#[trigger] here[n]), there) && tells(rest[j - h], "ENTRYPOINT_ADDED"@, Layer::Behaviour, here[n].0, None, reach_of(b, here[n].1.handler));
                assert(is_other_route(here[n], there) && tells(all[j], "ENTRYPOINT_ADDED"@, Layer::Behaviour, here[n].0, None, reach_of(b, here[n].1.handler)));
            }
        }
    }
}

proof fn lost_routes_are_exact(
    here: Seq<(Text, RouteView)>,
    there: Seq<(Text, RouteView)>,
    i: int,
)
    requires
        0 <= i,
    ensures
        forall|n: int|
            i <= n < here.len() && is_other_route((#[trigger] here[n]), there) ==> is_said(route_losses(here, there, i), "ENTRYPOINT_REMOVED"@, Layer::Behaviour, here[n].0, None, None),
        forall|j: int|
            #![trigger route_losses(here, there, i)[j]]
            0 <= j < route_losses(here, there, i).len() ==> exists|n: int|
                i <= n < here.len() && is_other_route((#[trigger] here[n]), there) && tells(route_losses(here, there, i)[j], "ENTRYPOINT_REMOVED"@, Layer::Behaviour, here[n].0, None, None),
    decreases here.len() - i,
{
    if i < here.len() {
        lost_routes_are_exact(here, there, i + 1);
        let rest = route_losses(here, there, i + 1);
        let all = route_losses(here, there, i);
        let h = all.len() - rest.len();
        assert forall|n: int| i <= n < here.len() && is_other_route((#[trigger] here[n]), there) implies is_said(all, "ENTRYPOINT_REMOVED"@, Layer::Behaviour, here[n].0, None, None) by {
            if n == i {
                assert(tells(all[0], "ENTRYPOINT_REMOVED"@, Layer::Behaviour, here[n].0, None, None));
            } else {
                assert(is_said(rest, "ENTRYPOINT_REMOVED"@, Layer::Behaviour, here[n].0, None, None));
                let j = choose|j: int| 0 <= j < rest.len() && tells(#[trigger] rest[j], "ENTRYPOINT_REMOVED"@, Layer::Behaviour, here[n].0, None, None);
                assert(all[h + j] == rest[j]);
            }
        }
        assert forall|j: int|
            #![trigger all[j]]
            0 <= j < all.len() implies exists|n: int| i <= n < here.len() && is_other_route((#[trigger] here[n]), there) && tells(all[j], "ENTRYPOINT_REMOVED"@, Layer::Behaviour, here[n].0, None, None) by {
            if j < h {
                assert(is_other_route(here[i], there) && tells(all[j], "ENTRYPOINT_REMOVED"@, Layer::Behaviour, here[i].0, None, None));
            } else {
                assert(all[j] == rest[j - h]);
                let n = choose|n: int| i + 1 <= n < here.len() && is_other_route((#[trigger] here[n]), there) && tells(rest[j - h], "ENTRYPOINT_REMOVED"@, Layer::Behaviour, here[n].0, None, None);
                assert(is_other_route(here[n], there) && tells(all[j], "ENTRYPOINT_REMOVED"@, Layer::Behaviour, here[n].0, None, None));
            }
        }
    }
}

/// A subscription that is not among those known, by the name that its handler has now.
pub open spec fn is_other_handler(
    s: SubscriptionView,
    renamed: Seq<(Text, Text)>,
    known: Seq<(Text, Text)>,
) -> bool {
    !known.contains((s.event, name_now(renamed, s.handler)))
}

/// What an entity is called after the change.
pub open spec fn name_now(renamed: Seq<(Text, Text)>, id: Text) -> Text {
    match lookup(renamed, id) {
        Some(n) => n,
        None => id,
    }
}

proof fn new_handlers_are_exact(
    b: ModelView,
    known: Seq<(Text, Text)>,
    i: int,
)
    requires
        0 <= i,
    ensures
        forall|n: int|
            i <= n < b.subscriptions.len() && is_other_handler((#[trigger] b.subscriptions[n]), seq![], known) ==> is_said(handler_gains(b, known, i), "EVENT_HANDLER_ADDED"@, Layer::Behaviour, b.subscriptions[n].event, None, reach_of(b, b.subscriptions[n].handler)),
        forall|j: int|
            #![trigger handler_gains(b, known, i)[j]]
            0 <= j < handler_gains(b, known, i).len() ==> exists|n: int|
                i <= n < b.subscriptions.len() && is_other_handler((#[trigger] b.subscriptions[n]), seq![], known) && tells(handler_gains(b, known, i)[j], "EVENT_HANDLER_ADDED"@, Layer::Behaviour, b.subscriptions[n].event, None, reach_of(b, b.subscriptions[n].handler)),
    decreases b.subscriptions.len() - i,
{
    if i < b.subscriptions.len() {
        new_handlers_are_exact(b, known, i + 1);
        let rest = handler_gains(b, known, i + 1);
        let all = handler_gains(b, known, i);
        let h = all.len() - rest.len();
        assert forall|n: int| i <= n < b.subscriptions.len() && is_other_handler((#[trigger] b.subscriptions[n]), seq![], known) implies is_said(all, "EVENT_HANDLER_ADDED"@, Layer::Behaviour, b.subscriptions[n].event, None, reach_of(b, b.subscriptions[n].handler)) by {
            if n == i {
                assert(tells(all[0], "EVENT_HANDLER_ADDED"@, Layer::Behaviour, b.subscriptions[n].event, None, reach_of(b, b.subscriptions[n].handler)));
            } else {
                assert(is_said(rest, "EVENT_HANDLER_ADDED"@, Layer::Behaviour, b.subscriptions[n].event, None, reach_of(b, b.subscriptions[n].handler)));
                let j = choose|j: int| 0 <= j < rest.len() && tells(#[trigger] rest[j], "EVENT_HANDLER_ADDED"@, Layer::Behaviour, b.subscriptions[n].event, None, reach_of(b, b.subscriptions[n].handler));
                assert(all[h + j] == rest[j]);
            }
        }
        assert forall|j: int|
            #![trigger all[j]]
            0 <= j < all.len() implies exists|n: int| i <= n < b.subscriptions.len() && is_other_handler((#[trigger] b.subscriptions[n]), seq![], known) && tells(all[j], "EVENT_HANDLER_ADDED"@, Layer::Behaviour, b.subscriptions[n].event, None, reach_of(b, b.subscriptions[n].handler)) by {
            if j < h {
                assert(is_other_handler(b.subscriptions[i], seq![], known) && tells(all[j], "EVENT_HANDLER_ADDED"@, Layer::Behaviour, b.subscriptions[i].event, None, reach_of(b, b.subscriptions[i].handler)));
            } else {
                assert(all[j] == rest[j - h]);
                let n = choose|n: int| i + 1 <= n < b.subscriptions.len() && is_other_handler((#[trigger] b.subscriptions[n]), seq![], known) && tells(rest[j - h], "EVENT_HANDLER_ADDED"@, Layer::Behaviour, b.subscriptions[n].event, None, reach_of(b, b.subscriptions[n].handler));
                assert(is_other_handler(b.subscriptions[n], seq![], known) && tells(all[j], "EVENT_HANDLER_ADDED"@, Layer::Behaviour, b.subscriptions[n].event, None, reach_of(b, b.subscriptions[n].handler)));
            }
        }
    }
}

proof fn lost_handlers_are_exact(
    a: ModelView,
    renamed: Seq<(Text, Text)>,
    known: Seq<(Text, Text)>,
    i: int,
)
    requires
        0 <= i,
    ensures
        forall|n: int|
            i <= n < a.subscriptions.len() && is_other_handler((#[trigger] a.subscriptions[n]), renamed, known) ==> is_said(handler_losses(a, renamed, known, i), "EVENT_HANDLER_REMOVED"@, Layer::Behaviour, a.subscriptions[n].event, None, None),
        forall|j: int|
            #![trigger handler_losses(a, renamed, known, i)[j]]
            0 <= j < handler_losses(a, renamed, known, i).len() ==> exists|n: int|
                i <= n < a.subscriptions.len() && is_other_handler((#[trigger] a.subscriptions[n]), renamed, known) && tells(handler_losses(a, renamed, known, i)[j], "EVENT_HANDLER_REMOVED"@, Layer::Behaviour, a.subscriptions[n].event, None, None),
    decreases a.subscriptions.len() - i,
{
    if i < a.subscriptions.len() {
        lost_handlers_are_exact(a, renamed, known, i + 1);
        let rest = handler_losses(a, renamed, known, i + 1);
        let all = handler_losses(a, renamed, known, i);
        let h = all.len() - rest.len();
        assert forall|n: int| i <= n < a.subscriptions.len() && is_other_handler((#[trigger] a.subscriptions[n]), renamed, known) implies is_said(all, "EVENT_HANDLER_REMOVED"@, Layer::Behaviour, a.subscriptions[n].event, None, None) by {
            if n == i {
                assert(tells(all[0], "EVENT_HANDLER_REMOVED"@, Layer::Behaviour, a.subscriptions[n].event, None, None));
            } else {
                assert(is_said(rest, "EVENT_HANDLER_REMOVED"@, Layer::Behaviour, a.subscriptions[n].event, None, None));
                let j = choose|j: int| 0 <= j < rest.len() && tells(#[trigger] rest[j], "EVENT_HANDLER_REMOVED"@, Layer::Behaviour, a.subscriptions[n].event, None, None);
                assert(all[h + j] == rest[j]);
            }
        }
        assert forall|j: int|
            #![trigger all[j]]
            0 <= j < all.len() implies exists|n: int| i <= n < a.subscriptions.len() && is_other_handler((#[trigger] a.subscriptions[n]), renamed, known) && tells(all[j], "EVENT_HANDLER_REMOVED"@, Layer::Behaviour, a.subscriptions[n].event, None, None) by {
            if j < h {
                assert(is_other_handler(a.subscriptions[i], renamed, known) && tells(all[j], "EVENT_HANDLER_REMOVED"@, Layer::Behaviour, a.subscriptions[i].event, None, None));
            } else {
                assert(all[j] == rest[j - h]);
                let n = choose|n: int| i + 1 <= n < a.subscriptions.len() && is_other_handler((#[trigger] a.subscriptions[n]), renamed, known) && tells(rest[j - h], "EVENT_HANDLER_REMOVED"@, Layer::Behaviour, a.subscriptions[n].event, None, None);
                assert(is_other_handler(a.subscriptions[n], renamed, known) && tells(all[j], "EVENT_HANDLER_REMOVED"@, Layer::Behaviour, a.subscriptions[n].event, None, None));
            }
        }
    }
}

// ---- schemas

/// What a change of a field of a schema is called; `*` is the schema as a whole.
pub open spec fn schema_word(field: Text, word: Text) -> Text {
    if field == "*"@ {
        "SCHEMA_CHANGED"@
    } else {
        word
    }
}

/// What a change of a field of a schema is about.
pub open spec fn schema_part(key: Text, field: Text) -> Text {
    if field == "*"@ {
        key
    } else {
        key + "."@ + field
    }
}

/// A field that is new, or validated otherwise than before.
pub open spec fn is_checked_anew(f: (Text, Text), sa: SchemaFactView) -> bool {
    lookup(sa.fields, f.0) != Some(f.1)
}

/// What is said of such a field.
pub open spec fn new_check_word(f: (Text, Text), sa: SchemaFactView) -> Text {
    schema_word(
        f.0,
        if lookup(sa.fields, f.0) is None {
            "SCHEMA_FIELD_ADDED"@
        } else {
            "SCHEMA_FIELD_CHANGED"@
        },
    )
}

/// A field that is not validated any more.
pub open spec fn is_unchecked(f: (Text, Text), sb: SchemaFactView) -> bool {
    lookup(sb.fields, f.0) is None
}

proof fn new_fields_are_exact(
    key: Text,
    sa: SchemaFactView,
    sb: SchemaFactView,
    i: int,
)
    requires
        0 <= i,
    ensures
        forall|n: int|
            i <= n < sb.fields.len() && is_checked_anew((#[trigger] sb.fields[n]), sa) ==> is_said(field_gains(key, sa, sb, i), new_check_word(sb.fields[n], sa), Layer::Behaviour, schema_part(key, sb.fields[n].0), lookup(sa.fields, sb.fields[n].0), Some(sb.fields[n].1)),
        forall|j: int|
            #![trigger field_gains(key, sa, sb, i)[j]]
            0 <= j < field_gains(key, sa, sb, i).len() ==> exists|n: int|
                i <= n < sb.fields.len() && is_checked_anew((#[trigger] sb.fields[n]), sa) && tells(field_gains(key, sa, sb, i)[j], new_check_word(sb.fields[n], sa), Layer::Behaviour, schema_part(key, sb.fields[n].0), lookup(sa.fields, sb.fields[n].0), Some(sb.fields[n].1)),
    decreases sb.fields.len() - i,
{
    if i < sb.fields.len() {
        new_fields_are_exact(key, sa, sb, i + 1);
        let rest = field_gains(key, sa, sb, i + 1);
        let all = field_gains(key, sa, sb, i);
        let h = all.len() - rest.len();
        assert forall|n: int| i <= n < sb.fields.len() && is_checked_anew((#[trigger] sb.fields[n]), sa) implies is_said(all, new_check_word(sb.fields[n], sa), Layer::Behaviour, schema_part(key, sb.fields[n].0), lookup(sa.fields, sb.fields[n].0), Some(sb.fields[n].1)) by {
            if n == i {
                assert(tells(all[0], new_check_word(sb.fields[n], sa), Layer::Behaviour, schema_part(key, sb.fields[n].0), lookup(sa.fields, sb.fields[n].0), Some(sb.fields[n].1)));
            } else {
                assert(is_said(rest, new_check_word(sb.fields[n], sa), Layer::Behaviour, schema_part(key, sb.fields[n].0), lookup(sa.fields, sb.fields[n].0), Some(sb.fields[n].1)));
                let j = choose|j: int| 0 <= j < rest.len() && tells(#[trigger] rest[j], new_check_word(sb.fields[n], sa), Layer::Behaviour, schema_part(key, sb.fields[n].0), lookup(sa.fields, sb.fields[n].0), Some(sb.fields[n].1));
                assert(all[h + j] == rest[j]);
            }
        }
        assert forall|j: int|
            #![trigger all[j]]
            0 <= j < all.len() implies exists|n: int| i <= n < sb.fields.len() && is_checked_anew((#[trigger] sb.fields[n]), sa) && tells(all[j], new_check_word(sb.fields[n], sa), Layer::Behaviour, schema_part(key, sb.fields[n].0), lookup(sa.fields, sb.fields[n].0), Some(sb.fields[n].1)) by {
            if j < h {
                assert(is_checked_anew(sb.fields[i], sa) && tells(all[j], new_check_word(sb.fields[i], sa), Layer::Behaviour, schema_part(key, sb.fields[i].0), lookup(sa.fields, sb.fields[i].0), Some(sb.fields[i].1)));
            } else {
                assert(all[j] == rest[j - h]);
                let n = choose|n: int| i + 1 <= n < sb.fields.len() && is_checked_anew((#[trigger] sb.fields[n]), sa) && tells(rest[j - h], new_check_word(sb.fields[n], sa), Layer::Behaviour, schema_part(key, sb.fields[n].0), lookup(sa.fields, sb.fields[n].0), Some(sb.fields[n].1));
                assert(is_checked_anew(sb.fields[n], sa) && tells(all[j], new_check_word(sb.fields[n], sa), Layer::Behaviour, schema_part(key, sb.fields[n].0), lookup(sa.fields, sb.fields[n].0), Some(sb.fields[n].1)));
            }
        }
    }
}

proof fn lost_fields_are_exact(
    key: Text,
    sa: SchemaFactView,
    sb: SchemaFactView,
    i: int,
)
    requires
        0 <= i,
    ensures
        forall|n: int|
            i <= n < sa.fields.len() && is_unchecked((#[trigger] sa.fields[n]), sb) ==> is_said(field_losses(key, sa, sb, i), schema_word(sa.fields[n].0, "SCHEMA_FIELD_REMOVED"@), Layer::Behaviour, schema_part(key, sa.fields[n].0), Some(sa.fields[n].1), None),
        forall|j: int|
            #![trigger field_losses(key, sa, sb, i)[j]]
            0 <= j < field_losses(key, sa, sb, i).len() ==> exists|n: int|
                i <= n < sa.fields.len() && is_unchecked((#[trigger] sa.fields[n]), sb) && tells(field_losses(key, sa, sb, i)[j], schema_word(sa.fields[n].0, "SCHEMA_FIELD_REMOVED"@), Layer::Behaviour, schema_part(key, sa.fields[n].0), Some(sa.fields[n].1), None),
    decreases sa.fields.len() - i,
{
    if i < sa.fields.len() {
        lost_fields_are_exact(key, sa, sb, i + 1);
        let rest = field_losses(key, sa, sb, i + 1);
        let all = field_losses(key, sa, sb, i);
        let h = all.len() - rest.len();
        assert forall|n: int| i <= n < sa.fields.len() && is_unchecked((#[trigger] sa.fields[n]), sb) implies is_said(all, schema_word(sa.fields[n].0, "SCHEMA_FIELD_REMOVED"@), Layer::Behaviour, schema_part(key, sa.fields[n].0), Some(sa.fields[n].1), None) by {
            if n == i {
                assert(tells(all[0], schema_word(sa.fields[n].0, "SCHEMA_FIELD_REMOVED"@), Layer::Behaviour, schema_part(key, sa.fields[n].0), Some(sa.fields[n].1), None));
            } else {
                assert(is_said(rest, schema_word(sa.fields[n].0, "SCHEMA_FIELD_REMOVED"@), Layer::Behaviour, schema_part(key, sa.fields[n].0), Some(sa.fields[n].1), None));
                let j = choose|j: int| 0 <= j < rest.len() && tells(#[trigger] rest[j], schema_word(sa.fields[n].0, "SCHEMA_FIELD_REMOVED"@), Layer::Behaviour, schema_part(key, sa.fields[n].0), Some(sa.fields[n].1), None);
                assert(all[h + j] == rest[j]);
            }
        }
        assert forall|j: int|
            #![trigger all[j]]
            0 <= j < all.len() implies exists|n: int| i <= n < sa.fields.len() && is_unchecked((#[trigger] sa.fields[n]), sb) && tells(all[j], schema_word(sa.fields[n].0, "SCHEMA_FIELD_REMOVED"@), Layer::Behaviour, schema_part(key, sa.fields[n].0), Some(sa.fields[n].1), None) by {
            if j < h {
                assert(is_unchecked(sa.fields[i], sb) && tells(all[j], schema_word(sa.fields[i].0, "SCHEMA_FIELD_REMOVED"@), Layer::Behaviour, schema_part(key, sa.fields[i].0), Some(sa.fields[i].1), None));
            } else {
                assert(all[j] == rest[j - h]);
                let n = choose|n: int| i + 1 <= n < sa.fields.len() && is_unchecked((#[trigger] sa.fields[n]), sb) && tells(rest[j - h], schema_word(sa.fields[n].0, "SCHEMA_FIELD_REMOVED"@), Layer::Behaviour, schema_part(key, sa.fields[n].0), Some(sa.fields[n].1), None);
                assert(is_unchecked(sa.fields[n], sb) && tells(all[j], schema_word(sa.fields[n].0, "SCHEMA_FIELD_REMOVED"@), Layer::Behaviour, schema_part(key, sa.fields[n].0), Some(sa.fields[n].1), None));
            }
        }
    }
}

// ---- new code

/// Code that is new and speaks for itself: a function that is no closure and no constructor, that
/// has something to say, and that is no part of old code which behaves as before.
pub open spec fn is_new_code(
    b: ModelView,
    m: MatchingView,
    changed: Seq<Text>,
    e: (Text, EntityView),
) -> bool {
    lookup(m.backward, e.0) is None && e.1.parent is None && e.1.kind != EntityKind::Constructor
        && !was_extracted(b, m, changed, e.0) && description(b, e.0) is Some
}

proof fn new_code_is_exact(
    b: ModelView,
    m: MatchingView,
    changed: Seq<Text>,
    i: int,
)
    requires
        0 <= i,
    ensures
        forall|n: int|
            i <= n < b.entities.len() && is_new_code(b, m, changed, (#[trigger] b.entities[n])) ==> is_said(new_code(b, m, changed, i), "BEHAVIOUR_ADDED"@, Layer::Behaviour, b.entities[n].0, None, description(b, b.entities[n].0)),
        forall|j: int|
            #![trigger new_code(b, m, changed, i)[j]]
            0 <= j < new_code(b, m, changed, i).len() ==> exists|n: int|
                i <= n < b.entities.len() && is_new_code(b, m, changed, (#[trigger] b.entities[n])) && tells(new_code(b, m, changed, i)[j], "BEHAVIOUR_ADDED"@, Layer::Behaviour, b.entities[n].0, None, description(b, b.entities[n].0)),
    decreases b.entities.len() - i,
{
    if i < b.entities.len() {
        new_code_is_exact(b, m, changed, i + 1);
        let rest = new_code(b, m, changed, i + 1);
        let all = new_code(b, m, changed, i);
        let h = all.len() - rest.len();
        assert forall|n: int| i <= n < b.entities.len() && is_new_code(b, m, changed, (#[trigger] b.entities[n])) implies is_said(all, "BEHAVIOUR_ADDED"@, Layer::Behaviour, b.entities[n].0, None, description(b, b.entities[n].0)) by {
            if n == i {
                assert(tells(all[0], "BEHAVIOUR_ADDED"@, Layer::Behaviour, b.entities[n].0, None, description(b, b.entities[n].0)));
            } else {
                assert(is_said(rest, "BEHAVIOUR_ADDED"@, Layer::Behaviour, b.entities[n].0, None, description(b, b.entities[n].0)));
                let j = choose|j: int| 0 <= j < rest.len() && tells(#[trigger] rest[j], "BEHAVIOUR_ADDED"@, Layer::Behaviour, b.entities[n].0, None, description(b, b.entities[n].0));
                assert(all[h + j] == rest[j]);
            }
        }
        assert forall|j: int|
            #![trigger all[j]]
            0 <= j < all.len() implies exists|n: int| i <= n < b.entities.len() && is_new_code(b, m, changed, (#[trigger] b.entities[n])) && tells(all[j], "BEHAVIOUR_ADDED"@, Layer::Behaviour, b.entities[n].0, None, description(b, b.entities[n].0)) by {
            if j < h {
                assert(is_new_code(b, m, changed, b.entities[i]) && tells(all[j], "BEHAVIOUR_ADDED"@, Layer::Behaviour, b.entities[i].0, None, description(b, b.entities[i].0)));
            } else {
                assert(all[j] == rest[j - h]);
                let n = choose|n: int| i + 1 <= n < b.entities.len() && is_new_code(b, m, changed, (#[trigger] b.entities[n])) && tells(rest[j - h], "BEHAVIOUR_ADDED"@, Layer::Behaviour, b.entities[n].0, None, description(b, b.entities[n].0));
                assert(is_new_code(b, m, changed, b.entities[n]) && tells(all[j], "BEHAVIOUR_ADDED"@, Layer::Behaviour, b.entities[n].0, None, description(b, b.entities[n].0)));
            }
        }
    }
}

// ---- invariants

/// An entity writes a value other than `null` to a field.
pub open spec fn fills(e: EntityView, field: Text) -> bool {
    exists|i: int|
        0 <= i < e.writes.len() && (#[trigger] e.writes[i]).field == field && e.writes[i].value
            != Some("null"@)
}

/// An entity follows an invariant: it also writes the field that goes with the state, or has the
/// guard that the state asks for, which is not on the state itself.
pub open spec fn follows(m: ModelView, inv: InvariantView, e: EntityView, renamed: Seq<(Text, Text)>) -> bool {
    match inv.requirement {
        RequirementView::CoWrite(g) => fills(e, g),
        RequirementView::Guard(key) => lookup(m.summaries, e.id) matches Some(s) && exists|n: int|
            0 <= n < s.requirements.len() && (#[trigger] s.requirements[n]).0
                == crate::behaviour::renamed_key(renamed, key) && field_of(s.requirements[n].1)
                != Some(inv.field),
    }
}

proof fn keys_are_those(rs: Seq<(Text, PredView, LocView)>, field: Text, i: int, key: Text)
    requires
        0 <= i,
    ensures
        crate::infer::has_key(keys_from(rs, field, i), key) <==> exists|n: int|
            i <= n < rs.len() && (#[trigger] rs[n]).0 == key && field_of(rs[n].1) != Some(field),
    decreases rs.len() - i,
{
    if i < rs.len() {
        keys_are_those(rs, field, i + 1, key);
        let rest = keys_from(rs, field, i + 1);
        let all = keys_from(rs, field, i);
        let h = all.len() - rest.len();
        if crate::infer::has_key(all, key) {
            let j = choose|j: int| 0 <= j < all.len() && (#[trigger] all[j]).0 == key;
            if j < h {
                assert(rs[i].0 == key && field_of(rs[i].1) != Some(field));
            } else {
                assert(rest[j - h] == all[j]);
                let n = choose|n: int|
                    i + 1 <= n < rs.len() && (#[trigger] rs[n]).0 == key && field_of(rs[n].1)
                        != Some(field);
                assert(rs[n].0 == key);
            }
        }
        if exists|n: int|
            i <= n < rs.len() && (#[trigger] rs[n]).0 == key && field_of(rs[n].1) != Some(field) {
            let n = choose|n: int|
                i <= n < rs.len() && (#[trigger] rs[n]).0 == key && field_of(rs[n].1) != Some(field);
            if n == i {
                assert(all[0].0 == key);
            } else {
                assert(crate::infer::has_key(rest, key));
                let j = choose|j: int| 0 <= j < rest.len() && (#[trigger] rest[j]).0 == key;
                assert(all[h + j] == rest[j]);
            }
        }
    }
}

proof fn meeting_is_following(m: ModelView, inv: InvariantView, e: EntityView, renamed: Seq<(Text, Text)>)
    ensures
        meets(m, inv, e, renamed) == follows(m, inv, e, renamed),
{
    match inv.requirement {
        RequirementView::CoWrite(g) => {},
        RequirementView::Guard(key) => {
            let k = crate::behaviour::renamed_key(renamed, key);
            if let Some(s) = lookup(m.summaries, e.id) {
                keys_are_those(s.requirements, inv.field, 0, k);
            }
        },
    }
}

/// A write puts a field into the state that an invariant is about. What creates counts only where
/// the invariant is about fields written together.
pub open spec fn enters(w: WriteFactView, inv: InvariantView) -> bool {
    w.field == inv.field && w.value == Some(inv.value) && (inv.requirement is CoWrite || !w.creation)
}

proof fn writers_in_are(e: EntityView, inv: InvariantView, i: int, k: int)
    requires
        0 <= i <= k < e.writes.len(),
        enters(e.writes[k], inv),
    ensures
        writers_in(e, inv.field, inv.value, inv.requirement is CoWrite, i).contains((e, e.writes[k])),
    decreases k - i,
{
    let all = writers_in(e, inv.field, inv.value, inv.requirement is CoWrite, i);
    let rest = writers_in(e, inv.field, inv.value, inv.requirement is CoWrite, i + 1);
    if i == k {
        assert(all[0] == (e, e.writes[k]));
    } else {
        writers_in_are(e, inv, i + 1, k);
        let j = choose|j: int| 0 <= j < rest.len() && rest[j] == (e, e.writes[k]);
        assert(all[all.len() - rest.len() + j] == rest[j]);
    }
}

proof fn writers_are_found(entities: Seq<(Text, EntityView)>, inv: InvariantView, i: int, n: int, k: int)
    requires
        0 <= i <= n < entities.len(),
        0 <= k < entities[n].1.writes.len(),
        enters(entities[n].1.writes[k], inv),
    ensures
        writers_from(entities, inv.field, inv.value, inv.requirement is CoWrite, i).contains(
            (entities[n].1, entities[n].1.writes[k]),
        ),
    decreases n - i,
{
    let all = writers_from(entities, inv.field, inv.value, inv.requirement is CoWrite, i);
    let rest = writers_from(entities, inv.field, inv.value, inv.requirement is CoWrite, i + 1);
    let head = writers_in(entities[i].1, inv.field, inv.value, inv.requirement is CoWrite, 0);
    let x = (entities[n].1, entities[n].1.writes[k]);
    assert(all == head + rest);
    if i == n {
        writers_in_are(entities[n].1, inv, 0, k);
        let j = choose|j: int| 0 <= j < head.len() && head[j] == x;
        assert(all[j] == x);
    } else {
        writers_are_found(entities, inv, i + 1, n, k);
        let j = choose|j: int| 0 <= j < rest.len() && rest[j] == x;
        assert(all[head.len() + j] == x);
    }
}

/// A writer that breaks an invariant now and did not break it before.
pub open spec fn is_breach(
    a: ModelView,
    b: ModelView,
    m: MatchingView,
    inv: InvariantView,
    w: (EntityView, WriteFactView),
) -> bool {
    !follows(b, inv, w.0, m.forward) && !did_break(a, m, inv, w.0.id)
}

/// The old version of an entity entered the state, and did not follow the invariant either.
pub open spec fn did_break(a: ModelView, m: MatchingView, inv: InvariantView, writer: Text) -> bool {
    lookup(m.backward, writer) matches Some(old) && lookup(a.entities, old) matches Some(e)
        && !follows(a, inv, e, seq![]) && exists|k: int|
        0 <= k < e.writes.len() && (#[trigger] e.writes[k]).field == inv.field && e.writes[k].value
            == Some(inv.value)
}

proof fn breaking_is_breaking(a: ModelView, m: MatchingView, inv: InvariantView, writer: Text)
    ensures
        was_broken(a, m, inv, writer) == did_break(a, m, inv, writer),
{
    if let Some(old) = lookup(m.backward, writer) {
        if let Some(e) = lookup(a.entities, old) {
            meeting_is_following(a, inv, e, seq![]);
            if crate::rules::sets_state(e, inv) {
                let k = choose|k: int|
                    0 <= k < e.writes.len() && crate::infer::sets(
                        #[trigger] e.writes[k],
                        inv.field,
                        inv.value,
                        true,
                    );
                assert(e.writes[k].field == inv.field);
            }
            if exists|k: int|
                0 <= k < e.writes.len() && (#[trigger] e.writes[k]).field == inv.field
                    && e.writes[k].value == Some(inv.value) {
                let k = choose|k: int|
                    0 <= k < e.writes.len() && (#[trigger] e.writes[k]).field == inv.field
                        && e.writes[k].value == Some(inv.value);
                assert(crate::infer::sets(e.writes[k], inv.field, inv.value, true));
            }
        }
    }
}

proof fn breaches_are_exact(
    a: ModelView,
    b: ModelView,
    m: MatchingView,
    inv: InvariantView,
    ws: Seq<(EntityView, WriteFactView)>,
    i: int,
)
    requires
        0 <= i,
    ensures
        forall|n: int|
            i <= n < ws.len() && is_breach(a, b, m, inv, (#[trigger] ws[n])) ==> is_said(breaches_from(a, b, m, inv, ws, i), "INVARIANT_VIOLATED"@, Layer::Design, inv.statement, Some("holds for "@ + text::decimal(inv.support as nat) + " writer(s)"@), Some(crate::ops::short_name(ws[n].0.id) + " does not satisfy it"@)),
        forall|j: int|
            #![trigger breaches_from(a, b, m, inv, ws, i)[j]]
            0 <= j < breaches_from(a, b, m, inv, ws, i).len() ==> exists|n: int|
                i <= n < ws.len() && is_breach(a, b, m, inv, (#[trigger] ws[n])) && tells(breaches_from(a, b, m, inv, ws, i)[j], "INVARIANT_VIOLATED"@, Layer::Design, inv.statement, Some("holds for "@ + text::decimal(inv.support as nat) + " writer(s)"@), Some(crate::ops::short_name(ws[n].0.id) + " does not satisfy it"@)),
    decreases ws.len() - i,
{
    if i < ws.len() {
        breaches_are_exact(a, b, m, inv, ws, i + 1);
        meeting_is_following(b, inv, ws[i].0, m.forward);
        breaking_is_breaking(a, m, inv, ws[i].0.id);
        let rest = breaches_from(a, b, m, inv, ws, i + 1);
        let all = breaches_from(a, b, m, inv, ws, i);
        let h = all.len() - rest.len();
        assert forall|n: int| i <= n < ws.len() && is_breach(a, b, m, inv, (#[trigger] ws[n])) implies is_said(all, "INVARIANT_VIOLATED"@, Layer::Design, inv.statement, Some("holds for "@ + text::decimal(inv.support as nat) + " writer(s)"@), Some(crate::ops::short_name(ws[n].0.id) + " does not satisfy it"@)) by {
            if n == i {
                assert(tells(all[0], "INVARIANT_VIOLATED"@, Layer::Design, inv.statement, Some("holds for "@ + text::decimal(inv.support as nat) + " writer(s)"@), Some(crate::ops::short_name(ws[n].0.id) + " does not satisfy it"@)));
            } else {
                assert(is_said(rest, "INVARIANT_VIOLATED"@, Layer::Design, inv.statement, Some("holds for "@ + text::decimal(inv.support as nat) + " writer(s)"@), Some(crate::ops::short_name(ws[n].0.id) + " does not satisfy it"@)));
                let j = choose|j: int| 0 <= j < rest.len() && tells(#[trigger] rest[j], "INVARIANT_VIOLATED"@, Layer::Design, inv.statement, Some("holds for "@ + text::decimal(inv.support as nat) + " writer(s)"@), Some(crate::ops::short_name(ws[n].0.id) + " does not satisfy it"@));
                assert(all[h + j] == rest[j]);
            }
        }
        assert forall|j: int|
            #![trigger all[j]]
            0 <= j < all.len() implies exists|n: int| i <= n < ws.len() && is_breach(a, b, m, inv, (#[trigger] ws[n])) && tells(all[j], "INVARIANT_VIOLATED"@, Layer::Design, inv.statement, Some("holds for "@ + text::decimal(inv.support as nat) + " writer(s)"@), Some(crate::ops::short_name(ws[n].0.id) + " does not satisfy it"@)) by {
            if j < h {
                assert(is_breach(a, b, m, inv, ws[i]) && tells(all[j], "INVARIANT_VIOLATED"@, Layer::Design, inv.statement, Some("holds for "@ + text::decimal(inv.support as nat) + " writer(s)"@), Some(crate::ops::short_name(ws[i].0.id) + " does not satisfy it"@)));
            } else {
                assert(all[j] == rest[j - h]);
                let n = choose|n: int| i + 1 <= n < ws.len() && is_breach(a, b, m, inv, (#[trigger] ws[n])) && tells(rest[j - h], "INVARIANT_VIOLATED"@, Layer::Design, inv.statement, Some("holds for "@ + text::decimal(inv.support as nat) + " writer(s)"@), Some(crate::ops::short_name(ws[n].0.id) + " does not satisfy it"@));
                assert(is_breach(a, b, m, inv, ws[n]) && tells(all[j], "INVARIANT_VIOLATED"@, Layer::Design, inv.statement, Some("holds for "@ + text::decimal(inv.support as nat) + " writer(s)"@), Some(crate::ops::short_name(ws[n].0.id) + " does not satisfy it"@)));
            }
        }
    }
}

/// A group has a violation that was not known.
spec fn is_news(
    g: ((Text, Text), Seq<ViolationView>),
    va: Seq<((Text, Text), Seq<Text>)>,
) -> bool {
    fresh_from(g.1, lookup(va, g.0), 0).len() > 0
}

/// What is said of a group that has one.
spec fn news_text(
    g: ((Text, Text), Seq<ViolationView>),
    va: Seq<((Text, Text), Seq<Text>)>,
) -> Option<Text> {
    Some(
        text::joined(crate::rules::details_of(fresh_from(g.1, lookup(va, g.0), 0)), "; "@),
    )
}

/// A group of violations of which none is left.
spec fn is_mended(
    g: ((Text, Text), Seq<ViolationView>),
    vb: Seq<((Text, Text), Seq<ViolationView>)>,
) -> bool {
    g.1.len() > 0 && !(lookup(vb, g.0) matches Some(vs) && vs.len() > 0)
}

proof fn broken_are_exact(
    vb: Seq<((Text, Text), Seq<ViolationView>)>,
    va: Seq<((Text, Text), Seq<Text>)>,
    i: int,
)
    requires
        0 <= i,
    ensures
        forall|n: int|
            i <= n < vb.len() && is_news((#[trigger] vb[n]), va) ==> is_said(rules_broken(vb, va, i), broken_word(vb[n].0.0), Layer::Design, vb[n].0.1, None, news_text(vb[n], va)),
        forall|j: int|
            #![trigger rules_broken(vb, va, i)[j]]
            0 <= j < rules_broken(vb, va, i).len() ==> exists|n: int|
                i <= n < vb.len() && is_news((#[trigger] vb[n]), va) && tells(rules_broken(vb, va, i)[j], broken_word(vb[n].0.0), Layer::Design, vb[n].0.1, None, news_text(vb[n], va)),
    decreases vb.len() - i,
{
    if i < vb.len() {
        broken_are_exact(vb, va, i + 1);
        let rest = rules_broken(vb, va, i + 1);
        let all = rules_broken(vb, va, i);
        let h = all.len() - rest.len();
        assert forall|n: int| i <= n < vb.len() && is_news((#[trigger] vb[n]), va) implies is_said(all, broken_word(vb[n].0.0), Layer::Design, vb[n].0.1, None, news_text(vb[n], va)) by {
            if n == i {
                assert(tells(all[0], broken_word(vb[n].0.0), Layer::Design, vb[n].0.1, None, news_text(vb[n], va)));
            } else {
                assert(is_said(rest, broken_word(vb[n].0.0), Layer::Design, vb[n].0.1, None, news_text(vb[n], va)));
                let j = choose|j: int| 0 <= j < rest.len() && tells(#[trigger] rest[j], broken_word(vb[n].0.0), Layer::Design, vb[n].0.1, None, news_text(vb[n], va));
                assert(all[h + j] == rest[j]);
            }
        }
        assert forall|j: int|
            #![trigger all[j]]
            0 <= j < all.len() implies exists|n: int| i <= n < vb.len() && is_news((#[trigger] vb[n]), va) && tells(all[j], broken_word(vb[n].0.0), Layer::Design, vb[n].0.1, None, news_text(vb[n], va)) by {
            if j < h {
                assert(is_news(vb[i], va) && tells(all[j], broken_word(vb[i].0.0), Layer::Design, vb[i].0.1, None, news_text(vb[i], va)));
            } else {
                assert(all[j] == rest[j - h]);
                let n = choose|n: int| i + 1 <= n < vb.len() && is_news((#[trigger] vb[n]), va) && tells(rest[j - h], broken_word(vb[n].0.0), Layer::Design, vb[n].0.1, None, news_text(vb[n], va));
                assert(is_news(vb[n], va) && tells(all[j], broken_word(vb[n].0.0), Layer::Design, vb[n].0.1, None, news_text(vb[n], va)));
            }
        }
    }
}

proof fn mended_are_exact(
    oa: Seq<((Text, Text), Seq<ViolationView>)>,
    vb: Seq<((Text, Text), Seq<ViolationView>)>,
    i: int,
)
    requires
        0 <= i,
    ensures
        forall|n: int|
            i <= n < oa.len() && is_mended((#[trigger] oa[n]), vb) ==> is_said(rules_mended(oa, vb, i), mended_word(oa[n].0.0), Layer::Design, oa[n].0.1, None, None),
        forall|j: int|
            #![trigger rules_mended(oa, vb, i)[j]]
            0 <= j < rules_mended(oa, vb, i).len() ==> exists|n: int|
                i <= n < oa.len() && is_mended((#[trigger] oa[n]), vb) && tells(rules_mended(oa, vb, i)[j], mended_word(oa[n].0.0), Layer::Design, oa[n].0.1, None, None),
    decreases oa.len() - i,
{
    if i < oa.len() {
        mended_are_exact(oa, vb, i + 1);
        let rest = rules_mended(oa, vb, i + 1);
        let all = rules_mended(oa, vb, i);
        let h = all.len() - rest.len();
        assert forall|n: int| i <= n < oa.len() && is_mended((#[trigger] oa[n]), vb) implies is_said(all, mended_word(oa[n].0.0), Layer::Design, oa[n].0.1, None, None) by {
            if n == i {
                assert(tells(all[0], mended_word(oa[n].0.0), Layer::Design, oa[n].0.1, None, None));
            } else {
                assert(is_said(rest, mended_word(oa[n].0.0), Layer::Design, oa[n].0.1, None, None));
                let j = choose|j: int| 0 <= j < rest.len() && tells(#[trigger] rest[j], mended_word(oa[n].0.0), Layer::Design, oa[n].0.1, None, None);
                assert(all[h + j] == rest[j]);
            }
        }
        assert forall|j: int|
            #![trigger all[j]]
            0 <= j < all.len() implies exists|n: int| i <= n < oa.len() && is_mended((#[trigger] oa[n]), vb) && tells(all[j], mended_word(oa[n].0.0), Layer::Design, oa[n].0.1, None, None) by {
            if j < h {
                assert(is_mended(oa[i], vb) && tells(all[j], mended_word(oa[i].0.0), Layer::Design, oa[i].0.1, None, None));
            } else {
                assert(all[j] == rest[j - h]);
                let n = choose|n: int| i + 1 <= n < oa.len() && is_mended((#[trigger] oa[n]), vb) && tells(rest[j - h], mended_word(oa[n].0.0), Layer::Design, oa[n].0.1, None, None);
                assert(is_mended(oa[n], vb) && tells(all[j], mended_word(oa[n].0.0), Layer::Design, oa[n].0.1, None, None));
            }
        }
    }
}

// ---- keys

proof fn routes_have_keys(
    routes: Seq<RouteView>,
    i: int,
    acc: Seq<(Text, RouteView)>,
)
    requires
        ascending(acc),
        0 <= i,
    ensures
        ascending(routes_by_key(routes, i, acc)),
        forall|k: Text|
            (#[trigger] lookup(routes_by_key(routes, i, acc), k) is Some) == (lookup(acc, k) is Some || exists|n: int|
                i <= n < routes.len() && route_key((#[trigger] routes[n])) == k),
    decreases routes.len() - i,
{
    if i < routes.len() {
        let key = route_key(routes[i]);
        let next = put(acc, key, routes[i]);
        put_keeps_order(acc, key, routes[i]);
        lookup_after_put(acc, key, routes[i]);
        routes_have_keys(routes, i + 1, next);
        assert forall|k: Text|
            (#[trigger] lookup(routes_by_key(routes, i, acc), k) is Some) == (lookup(acc, k) is Some || exists|n: int|
                i <= n < routes.len() && route_key((#[trigger] routes[n])) == k) by {
            assert(lookup(routes_by_key(routes, i + 1, next), k) is Some == (lookup(next, k) is Some || exists|n: int|
                i + 1 <= n < routes.len() && route_key((#[trigger] routes[n])) == k));
            if k != key {
                lookup_of_other(acc, key, routes[i], k);
            }
            if exists|n: int| i <= n < routes.len() && route_key((#[trigger] routes[n])) == k {
                let n = choose|n: int| i <= n < routes.len() && route_key((#[trigger] routes[n])) == k;
                if n > i {
                    assert(i + 1 <= n);
                }
            }
            if exists|n: int| i + 1 <= n < routes.len() && route_key((#[trigger] routes[n])) == k {
                let n = choose|n: int| i + 1 <= n < routes.len() && route_key((#[trigger] routes[n])) == k;
                assert(route_key(routes[n]) == k);
            }
            if k == key {
                assert(route_key(routes[i]) == k);
            }
        }
    }
}

proof fn deps_are_renamed(
    deps: Seq<((Text, Text), Seq<LocView>)>,
    modules: Seq<(Text, Text)>,
    i: int,
    acc: Seq<((Text, Text), Seq<LocView>)>,
)
    requires
        ascending(acc),
        0 <= i,
    ensures
        ascending(renamed_deps(deps, modules, i, acc)),
        forall|k: (Text, Text)|
            (#[trigger] lookup(renamed_deps(deps, modules, i, acc), k) is Some) == (lookup(acc, k) is Some || exists|n: int|
                i <= n < deps.len() && dep_now(modules, (#[trigger] deps[n]).0) == k),
    decreases deps.len() - i,
{
    if i < deps.len() {
        let key = dep_now(modules, deps[i].0);
        let next = put(acc, key, deps[i].1);
        put_keeps_order(acc, key, deps[i].1);
        lookup_after_put(acc, key, deps[i].1);
        deps_are_renamed(deps, modules, i + 1, next);
        assert forall|k: (Text, Text)|
            (#[trigger] lookup(renamed_deps(deps, modules, i, acc), k) is Some) == (lookup(acc, k) is Some || exists|n: int|
                i <= n < deps.len() && dep_now(modules, (#[trigger] deps[n]).0) == k) by {
            assert(lookup(renamed_deps(deps, modules, i + 1, next), k) is Some == (lookup(next, k) is Some || exists|n: int|
                i + 1 <= n < deps.len() && dep_now(modules, (#[trigger] deps[n]).0) == k));
            if k != key {
                lookup_of_other(acc, key, deps[i].1, k);
            }
            if exists|n: int| i <= n < deps.len() && dep_now(modules, (#[trigger] deps[n]).0) == k {
                let n = choose|n: int| i <= n < deps.len() && dep_now(modules, (#[trigger] deps[n]).0) == k;
                if n > i {
                    assert(i + 1 <= n);
                }
            }
            if exists|n: int| i + 1 <= n < deps.len() && dep_now(modules, (#[trigger] deps[n]).0) == k {
                let n = choose|n: int| i + 1 <= n < deps.len() && dep_now(modules, (#[trigger] deps[n]).0) == k;
                assert(dep_now(modules, deps[n].0) == k);
            }
            if k == key {
                assert(dep_now(modules, deps[i].0) == k);
            }
        }
    }
}

/// A dependency between modules, by the names that they have now.
pub open spec fn dep_now(modules: Seq<(Text, Text)>, d: (Text, Text)) -> (Text, Text) {
    (name_now(modules, d.0), name_now(modules, d.1))
}

proof fn handlers_are_those(
    subs: Seq<SubscriptionView>,
    renamed: Seq<(Text, Text)>,
    i: int,
    acc: Seq<(Text, Text)>,
)
    requires
        rising(acc),
        0 <= i,
    ensures
        rising(handlers_from(subs, renamed, i, acc)),
        forall|x: (Text, Text)|
            #[trigger] handlers_from(subs, renamed, i, acc).contains(x) == (acc.contains(x)
                || is_handled(subs, renamed, i, x)),
    decreases subs.len() - i,
{
    if i < subs.len() {
        let y = (subs[i].event, name_now(renamed, subs[i].handler));
        let next = added(acc, y);
        added_keeps_order(acc, y);
        handlers_are_those(subs, renamed, i + 1, next);
        assert forall|x: (Text, Text)|
            #[trigger] handlers_from(subs, renamed, i, acc).contains(x) == (acc.contains(x)
                || is_handled(subs, renamed, i, x)) by {
            added_members(acc, y, x);
            assert(handlers_from(subs, renamed, i + 1, next).contains(x) == (next.contains(x)
                || is_handled(subs, renamed, i + 1, x)));
            if is_handled(subs, renamed, i, x) {
                let n = choose|n: int| i <= n < subs.len() && handled_by(#[trigger] subs[n], renamed) == x;
                if n > i {
                    assert(is_handled(subs, renamed, i + 1, x));
                }
            }
            if is_handled(subs, renamed, i + 1, x) {
                let n = choose|n: int|
                    i + 1 <= n < subs.len() && handled_by(#[trigger] subs[n], renamed) == x;
                assert(handled_by(subs[n], renamed) == x);
            }
            if x == y {
                assert(handled_by(subs[i], renamed) == x);
            }
        }
    }
}

/// The event and the handler of a subscription, by the name that the handler has now.
pub open spec fn handled_by(s: SubscriptionView, renamed: Seq<(Text, Text)>) -> (Text, Text) {
    (s.event, name_now(renamed, s.handler))
}

/// One of the subscriptions from index `i` on is of this event and handler.
pub open spec fn is_handled(
    subs: Seq<SubscriptionView>,
    renamed: Seq<(Text, Text)>,
    i: int,
    x: (Text, Text),
) -> bool {
    exists|n: int| i <= n < subs.len() && handled_by(#[trigger] subs[n], renamed) == x
}

// ---- laws

/// A route of the new version whose key no route of the old one has is told as an entry point
/// that was added, and the other way round as one that was removed.
pub proof fn changed_routes_are_told(a: ModelView, b: ModelView, key: Text)
    ensures
        has_route(b, key) && !has_route(a, key) ==> exists|reach: Option<Text>|
            #[trigger] is_said(
                ops_between(a, b),
                "ENTRYPOINT_ADDED"@,
                Layer::Behaviour,
                key,
                None,
                reach,
            ),
        has_route(a, key) && !has_route(b, key) ==> is_said(
            ops_between(a, b),
            "ENTRYPOINT_REMOVED"@,
            Layer::Behaviour,
            key,
            None,
            None,
        ),
{
    let m = matched(a, b);
    let none = Seq::<(Text, RouteView)>::empty();
    assert(none =~= seq![]);
    let ra = routes_by_key(a.routes, 0, seq![]);
    let rb = routes_by_key(b.routes, 0, seq![]);
    routes_have_keys(a.routes, 0, none);
    routes_have_keys(b.routes, 0, none);
    assert(lookup(ra, key) is Some == has_route(a, key));
    assert(lookup(rb, key) is Some == has_route(b, key));
    let t0 = route_gains(b, rb, ra, 0);
    let t1 = route_losses(ra, rb, 0);
    let t2 = handler_gains(b, handlers_from(a.subscriptions, m.forward, 0, seq![]), 0);
    let t3 = handler_losses(a, m.forward, handlers_from(b.subscriptions, seq![], 0, seq![]), 0);
    if has_route(b, key) && !has_route(a, key) {
        slot_bounds(rb, key);
        let n = slot(rb, key);
        new_routes_are_exact(b, rb, ra, 0);
        assert(is_other_route(rb[n], ra));
        let reach = reach_of(b, rb[n].1.handler);
        said_in_part(t0, t1, "ENTRYPOINT_ADDED"@, Layer::Behaviour, key, None, reach);
        said_in_part(t0 + t1, t2, "ENTRYPOINT_ADDED"@, Layer::Behaviour, key, None, reach);
        said_in_part(t0 + t1 + t2, t3, "ENTRYPOINT_ADDED"@, Layer::Behaviour, key, None, reach);
        sorts_are_told(a, b, "ENTRYPOINT_ADDED"@, Layer::Behaviour, key, None, reach);
    }
    if has_route(a, key) && !has_route(b, key) {
        slot_bounds(ra, key);
        let n = slot(ra, key);
        lost_routes_are_exact(ra, rb, 0);
        assert(is_other_route(ra[n], rb));
        said_in_part(t0, t1, "ENTRYPOINT_REMOVED"@, Layer::Behaviour, key, None, None);
        said_in_part(t0 + t1, t2, "ENTRYPOINT_REMOVED"@, Layer::Behaviour, key, None, None);
        said_in_part(t0 + t1 + t2, t3, "ENTRYPOINT_REMOVED"@, Layer::Behaviour, key, None, None);
        sorts_are_told(a, b, "ENTRYPOINT_REMOVED"@, Layer::Behaviour, key, None, None);
    }
}

/// A model has a route with a key.
pub open spec fn has_route(m: ModelView, key: Text) -> bool {
    exists|n: int| 0 <= n < m.routes.len() && route_key(#[trigger] m.routes[n]) == key
}

/// What is said of entry points is so.
pub proof fn routes_told_are_so(
    b: ModelView,
    here: Seq<RouteView>,
    there: Seq<RouteView>,
    j: int,
)
    ensures
        ({
            let x = routes_by_key(here, 0, seq![]);
            let y = routes_by_key(there, 0, seq![]);
            &&& 0 <= j < route_gains(b, x, y, 0).len() ==> is_only(
                here,
                there,
                route_gains(b, x, y, 0)[j].subject,
            ) && route_gains(b, x, y, 0)[j].kind == "ENTRYPOINT_ADDED"@
            &&& 0 <= j < route_losses(x, y, 0).len() ==> is_only(
                here,
                there,
                route_losses(x, y, 0)[j].subject,
            ) && route_losses(x, y, 0)[j].kind == "ENTRYPOINT_REMOVED"@
        }),
{
    let none = Seq::<(Text, RouteView)>::empty();
    assert(none =~= seq![]);
    let x = routes_by_key(here, 0, seq![]);
    let y = routes_by_key(there, 0, seq![]);
    routes_have_keys(here, 0, none);
    routes_have_keys(there, 0, none);
    new_routes_are_exact(b, x, y, 0);
    lost_routes_are_exact(x, y, 0);
    if 0 <= j < route_gains(b, x, y, 0).len() {
        let n = choose|n: int|
            0 <= n < x.len() && is_other_route(#[trigger] x[n], y) && tells(
                route_gains(b, x, y, 0)[j],
                "ENTRYPOINT_ADDED"@,
                Layer::Behaviour,
                x[n].0,
                None,
                reach_of(b, x[n].1.handler),
            );
        slot_of_stored(x, n);
        assert(lookup(x, x[n].0) is Some);
        assert(lookup(y, x[n].0) is None);
    }
    if 0 <= j < route_losses(x, y, 0).len() {
        let n = choose|n: int|
            0 <= n < x.len() && is_other_route(#[trigger] x[n], y) && tells(
                route_losses(x, y, 0)[j],
                "ENTRYPOINT_REMOVED"@,
                Layer::Behaviour,
                x[n].0,
                None,
                None,
            );
        slot_of_stored(x, n);
        assert(lookup(x, x[n].0) is Some);
        assert(lookup(y, x[n].0) is None);
    }
}

/// A key is that of a route here and of none there.
pub open spec fn is_only(here: Seq<RouteView>, there: Seq<RouteView>, key: Text) -> bool {
    (exists|n: int| 0 <= n < here.len() && route_key(#[trigger] here[n]) == key) && forall|n: int|
        0 <= n < there.len() ==> route_key(#[trigger] there[n]) != key
}

/// A handler of an event that only the new version has is told as added, and one that only the
/// old version has as removed. Handlers are known by the names that they have now.
pub proof fn changed_handlers_are_told(a: ModelView, b: ModelView, n: int)
    ensures
        0 <= n < b.subscriptions.len() && !is_handled(
            a.subscriptions,
            matched(a, b).forward,
            0,
            (b.subscriptions[n].event, b.subscriptions[n].handler),
        ) ==> exists|reach: Option<Text>|
            #[trigger] is_said(
                ops_between(a, b),
                "EVENT_HANDLER_ADDED"@,
                Layer::Behaviour,
                b.subscriptions[n].event,
                None,
                reach,
            ),
        0 <= n < a.subscriptions.len() && !is_handled(
            b.subscriptions,
            seq![],
            0,
            handled_by(a.subscriptions[n], matched(a, b).forward),
        ) ==> is_said(
            ops_between(a, b),
            "EVENT_HANDLER_REMOVED"@,
            Layer::Behaviour,
            a.subscriptions[n].event,
            None,
            None,
        ),
{
    let m = matched(a, b);
    let none = Seq::<(Text, Text)>::empty();
    assert(none =~= seq![]);
    let ka = handlers_from(a.subscriptions, m.forward, 0, seq![]);
    let kb = handlers_from(b.subscriptions, seq![], 0, seq![]);
    handlers_are_those(a.subscriptions, m.forward, 0, none);
    handlers_are_those(b.subscriptions, none, 0, none);
    let ra = routes_by_key(a.routes, 0, seq![]);
    let rb = routes_by_key(b.routes, 0, seq![]);
    let t0 = route_gains(b, rb, ra, 0);
    let t1 = route_losses(ra, rb, 0);
    let t2 = handler_gains(b, ka, 0);
    let t3 = handler_losses(a, m.forward, kb, 0);
    new_handlers_are_exact(b, ka, 0);
    lost_handlers_are_exact(a, m.forward, kb, 0);
    if 0 <= n < b.subscriptions.len() {
        let s = b.subscriptions[n];
        assert(lookup(none, s.handler) is None);
        if !is_handled(a.subscriptions, m.forward, 0, (s.event, s.handler)) {
            assert(!ka.contains((s.event, s.handler)));
            assert(is_other_handler(b.subscriptions[n], none, ka));
            let reach = reach_of(b, s.handler);
            said_in_part(t0 + t1, t2, "EVENT_HANDLER_ADDED"@, Layer::Behaviour, s.event, None, reach);
            said_in_part(
                t0 + t1 + t2,
                t3,
                "EVENT_HANDLER_ADDED"@,
                Layer::Behaviour,
                s.event,
                None,
                reach,
            );
            sorts_are_told(a, b, "EVENT_HANDLER_ADDED"@, Layer::Behaviour, s.event, None, reach);
        }
    }
    if 0 <= n < a.subscriptions.len() {
        let s = a.subscriptions[n];
        if !is_handled(b.subscriptions, none, 0, handled_by(s, m.forward)) {
            assert(!kb.contains(handled_by(s, m.forward)));
            assert(is_other_handler(a.subscriptions[n], m.forward, kb));
            said_in_part(
                t0 + t1 + t2,
                t3,
                "EVENT_HANDLER_REMOVED"@,
                Layer::Behaviour,
                s.event,
                None,
                None,
            );
            sorts_are_told(a, b, "EVENT_HANDLER_REMOVED"@, Layer::Behaviour, s.event, None, None);
        }
    }
}

proof fn structure_is_told(
    a: ModelView,
    b: ModelView,
    kind: Text,
    subject: Text,
    after: Option<Text>,
)
    ensures
        ({
            let m = matched(a, b);
            let deps = renamed_deps(a.module_deps, m.modules, 0, seq![]);
            let lost = lost_methods(a, b, m, 0, moved_methods(a, m.moved_classes, 0, seq![]));
            let new = new_methods(a, b, m, 0, seq![]);
            is_said(
                class_moves(a, b, m.moved_classes, 0),
                kind,
                Layer::Structure,
                subject,
                None,
                after,
            ) || is_said(
                function_moves(a, b, m.moved_functions, 0),
                kind,
                Layer::Structure,
                subject,
                None,
                after,
            ) || is_said(class_gains(a, b, m, 0), kind, Layer::Structure, subject, None, after)
                || is_said(
                entity_changes("ENTITY_ADDED"@, b.entities, m.backward, new, true, 0),
                kind,
                Layer::Structure,
                subject,
                None,
                after,
            ) || is_said(
                entity_changes("ENTITY_REMOVED"@, a.entities, m.forward, lost, false, 0),
                kind,
                Layer::Structure,
                subject,
                None,
                after,
            ) || is_said(class_losses(a, b, m, 0), kind, Layer::Structure, subject, None, after)
                || is_said(
                dep_changes("DEPENDENCY_ADDED"@, b.module_deps, deps, true, 0),
                kind,
                Layer::Structure,
                subject,
                None,
                after,
            ) || is_said(
                dep_changes("DEPENDENCY_REMOVED"@, deps, b.module_deps, false, 0),
                kind,
                Layer::Structure,
                subject,
                None,
                after,
            ) ==> is_said(ops_between(a, b), kind, Layer::Structure, subject, None, after)
        }),
{
    let m = matched(a, b);
    let deps = renamed_deps(a.module_deps, m.modules, 0, seq![]);
    let s0 = class_moves(a, b, m.moved_classes, 0);
    let s1 = function_moves(a, b, m.moved_functions, 0);
    let s2 = class_gains(a, b, m, 0);
    let new = new_methods(a, b, m, 0, seq![]);
    let s3 = entity_changes("ENTITY_ADDED"@, b.entities, m.backward, new, true, 0);
    let lost = lost_methods(a, b, m, 0, moved_methods(a, m.moved_classes, 0, seq![]));
    let s4 = entity_changes("ENTITY_REMOVED"@, a.entities, m.forward, lost, false, 0);
    let s5 = class_losses(a, b, m, 0);
    let s6 = dep_changes("DEPENDENCY_ADDED"@, b.module_deps, deps, true, 0);
    let s7 = dep_changes("DEPENDENCY_REMOVED"@, deps, b.module_deps, false, 0);
    let l = Layer::Structure;
    said_in_part(s0, s1, kind, l, subject, None, after);
    said_in_part(s0 + s1, s2, kind, l, subject, None, after);
    said_in_part(s0 + s1 + s2, s3, kind, l, subject, None, after);
    said_in_part(s0 + s1 + s2 + s3, s4, kind, l, subject, None, after);
    said_in_part(s0 + s1 + s2 + s3 + s4, s5, kind, l, subject, None, after);
    said_in_part(s0 + s1 + s2 + s3 + s4 + s5, s6, kind, l, subject, None, after);
    said_in_part(s0 + s1 + s2 + s3 + s4 + s5 + s6, s7, kind, l, subject, None, after);
    sorts_are_told(a, b, kind, l, subject, None, after);
}

/// A dependency between modules that only the new version has is told as added, and one that only
/// the old version has as removed. Modules are known by the names that they have now.
pub proof fn changed_dependencies_are_told(a: ModelView, b: ModelView, d: (Text, Text))
    requires
        ascending(b.module_deps),
    ensures
        has_dep(b, seq![], d) && !has_dep(a, matched(a, b).modules, d) ==> is_said(
            ops_between(a, b),
            "DEPENDENCY_ADDED"@,
            Layer::Structure,
            d.0 + " → "@ + d.1,
            None,
            None,
        ),
        has_dep(a, matched(a, b).modules, d) && !has_dep(b, seq![], d) ==> is_said(
            ops_between(a, b),
            "DEPENDENCY_REMOVED"@,
            Layer::Structure,
            d.0 + " → "@ + d.1,
            None,
            None,
        ),
{
    let m = matched(a, b);
    let nil = Seq::<(Text, Text)>::empty();
    assert(nil =~= seq![]);
    let none = Seq::<((Text, Text), Seq<LocView>)>::empty();
    assert(none =~= seq![]);
    let deps = renamed_deps(a.module_deps, m.modules, 0, seq![]);
    deps_are_renamed(a.module_deps, m.modules, 0, none);
    assert(lookup(deps, d) is Some == has_dep(a, m.modules, d));
    slot_bounds(deps, d);
    slot_bounds(b.module_deps, d);
    if lookup(b.module_deps, d) is Some {
        let n = slot(b.module_deps, d);
        assert(dep_now(nil, b.module_deps[n].0) == d);
    }
    if has_dep(b, nil, d) {
        let n = choose|n: int|
            0 <= n < b.module_deps.len() && dep_now(nil, (#[trigger] b.module_deps[n]).0) == d;
        slot_of_stored(b.module_deps, n);
        assert(b.module_deps[n].0 == d);
    }
    deps_are_exact("DEPENDENCY_ADDED"@, b.module_deps, deps, true, 0);
    deps_are_exact("DEPENDENCY_REMOVED"@, deps, b.module_deps, false, 0);
    let s = d.0 + " → "@ + d.1;
    if has_dep(b, nil, d) && !has_dep(a, m.modules, d) {
        assert(is_other_dep(b.module_deps[slot(b.module_deps, d)], deps));
        structure_is_told(a, b, "DEPENDENCY_ADDED"@, s, None);
    }
    if has_dep(a, m.modules, d) && !has_dep(b, nil, d) {
        assert(is_other_dep(deps[slot(deps, d)], b.module_deps));
        structure_is_told(a, b, "DEPENDENCY_REMOVED"@, s, None);
    }
}

/// A model has a dependency, by the names that its modules have now.
pub open spec fn has_dep(m: ModelView, modules: Seq<(Text, Text)>, d: (Text, Text)) -> bool {
    exists|n: int|
        0 <= n < m.module_deps.len() && dep_now(modules, (#[trigger] m.module_deps[n]).0) == d
}

/// Some class of a model has a method.
pub open spec fn is_method(m: ModelView, id: Text) -> bool {
    exists|c: int| 0 <= c < m.classes.len() && (#[trigger] m.classes[c]).1.methods.contains(id)
}

proof fn new_methods_are_methods(
    a: ModelView,
    b: ModelView,
    m: MatchingView,
    i: int,
    acc: Seq<Text>,
    id: Text,
)
    requires
        rising(acc),
        0 <= i,
        new_methods(a, b, m, i, acc).contains(id),
    ensures
        acc.contains(id) || is_method(b, id),
    decreases b.classes.len() - i,
{
    if i < b.classes.len() {
        let c = b.classes[i].1;
        method_joins(acc, c.methods);
        let next = if is_new(a, m, b.classes[i]) {
            crate::ordered::united(acc, crate::ordered::set_of(c.methods))
        } else {
            acc
        };
        new_methods_are_methods(a, b, m, i + 1, next, id);
        if next.contains(id) && !acc.contains(id) {
            assert(b.classes[i].1.methods.contains(id));
        }
    }
}

proof fn method_joins(acc: Seq<Text>, methods: Seq<Text>)
    requires
        rising(acc),
    ensures
        rising(crate::ordered::united(acc, crate::ordered::set_of(methods))),
        forall|x: Text|
            #[trigger] crate::ordered::united(acc, crate::ordered::set_of(methods)).contains(x) == (
            acc.contains(x) || methods.contains(x)),
{
    let none = Seq::<Text>::empty();
    assert(none =~= seq![]);
    crate::ordered::united_members(none, methods);
    crate::ordered::united_members(acc, crate::ordered::set_of(methods));
    assert forall|x: Text|
        #[trigger] crate::ordered::united(acc, crate::ordered::set_of(methods)).contains(x) == (
        acc.contains(x) || methods.contains(x)) by {
        assert(crate::ordered::set_of(methods).contains(x) == methods.contains(x));
    }
}

proof fn lost_methods_are_methods(
    a: ModelView,
    b: ModelView,
    m: MatchingView,
    i: int,
    acc: Seq<Text>,
    id: Text,
)
    requires
        rising(acc),
        0 <= i,
        lost_methods(a, b, m, i, acc).contains(id),
    ensures
        acc.contains(id) || is_method(a, id),
    decreases a.classes.len() - i,
{
    if i < a.classes.len() {
        let c = a.classes[i].1;
        method_joins(acc, c.methods);
        let next = if is_gone(b, m, a.classes[i]) {
            crate::ordered::united(acc, crate::ordered::set_of(c.methods))
        } else {
            acc
        };
        lost_methods_are_methods(a, b, m, i + 1, next, id);
        if next.contains(id) && !acc.contains(id) {
            assert(a.classes[i].1.methods.contains(id));
        }
    }
}

proof fn moved_methods_are_methods(
    a: ModelView,
    pairs: Seq<(Text, Text)>,
    i: int,
    acc: Seq<Text>,
    id: Text,
)
    requires
        rising(acc),
        0 <= i,
    ensures
        rising(moved_methods(a, pairs, i, acc)),
        moved_methods(a, pairs, i, acc).contains(id) ==> acc.contains(id) || is_method(a, id),
    decreases pairs.len() - i,
{
    if i < pairs.len() {
        match lookup(a.classes, pairs[i].0) {
            Some(c) => {
                method_joins(acc, c.methods);
                let next = crate::ordered::united(acc, crate::ordered::set_of(c.methods));
                moved_methods_are_methods(a, pairs, i + 1, next, id);
                slot_bounds(a.classes, pairs[i].0);
                let n = slot(a.classes, pairs[i].0);
                if c.methods.contains(id) {
                    assert(a.classes[n].1.methods.contains(id));
                }
            },
            None => {
                moved_methods_are_methods(a, pairs, i + 1, acc, id);
            },
        }
    }
}

/// A function that is no method, and has no counterpart in the other version, is told as added or
/// as removed; so is a class that did not move.
pub proof fn changed_entities_are_told(a: ModelView, b: ModelView, n: int)
    ensures
        0 <= n < b.entities.len() && lookup(matched(a, b).backward, b.entities[n].0) is None
            && b.entities[n].1.kind != EntityKind::Constructor && !is_method(b, b.entities[n].0)
            ==> is_said(
            ops_between(a, b),
            "ENTITY_ADDED"@,
            Layer::Structure,
            b.entities[n].0,
            None,
            None,
        ),
        0 <= n < a.entities.len() && lookup(matched(a, b).forward, a.entities[n].0) is None
            && a.entities[n].1.kind != EntityKind::Constructor && !is_method(a, a.entities[n].0)
            ==> is_said(
            ops_between(a, b),
            "ENTITY_REMOVED"@,
            Layer::Structure,
            a.entities[n].0,
            None,
            None,
        ),
        0 <= n < b.classes.len() && is_new(a, matched(a, b), b.classes[n]) ==> is_said(
            ops_between(a, b),
            "ENTITY_ADDED"@,
            Layer::Structure,
            b.classes[n].0,
            None,
            None,
        ),
        0 <= n < a.classes.len() && is_gone(b, matched(a, b), a.classes[n]) ==> is_said(
            ops_between(a, b),
            "ENTITY_REMOVED"@,
            Layer::Structure,
            a.classes[n].0,
            None,
            None,
        ),
{
    let m = matched(a, b);
    let nil = Seq::<Text>::empty();
    assert(nil =~= seq![]);
    let new = new_methods(a, b, m, 0, seq![]);
    let moved = moved_methods(a, m.moved_classes, 0, seq![]);
    let lost = lost_methods(a, b, m, 0, moved);
    entities_are_exact("ENTITY_ADDED"@, b.entities, m.backward, new, true, 0);
    entities_are_exact("ENTITY_REMOVED"@, a.entities, m.forward, lost, false, 0);
    new_classes_are_exact(a, b, m, 0);
    lost_classes_are_exact(a, b, m, 0);
    if 0 <= n < b.entities.len() {
        let id = b.entities[n].0;
        if new.contains(id) {
            new_methods_are_methods(a, b, m, 0, nil, id);
        }
        assert(b.entities[n] == b.entities[n]);
        structure_is_told(a, b, "ENTITY_ADDED"@, id, None);
    }
    if 0 <= n < a.entities.len() {
        let id = a.entities[n].0;
        moved_methods_are_methods(a, m.moved_classes, 0, nil, id);
        if lost.contains(id) {
            lost_methods_are_methods(a, b, m, 0, moved, id);
        }
        assert(a.entities[n] == a.entities[n]);
        structure_is_told(a, b, "ENTITY_REMOVED"@, id, None);
    }
    if 0 <= n < b.classes.len() {
        assert(b.classes[n] == b.classes[n]);
        structure_is_told(a, b, "ENTITY_ADDED"@, b.classes[n].0, None);
    }
    if 0 <= n < a.classes.len() {
        assert(a.classes[n] == a.classes[n]);
        structure_is_told(a, b, "ENTITY_REMOVED"@, a.classes[n].0, None);
    }
}

/// A function or a class that moved is told with its old and its new id; a function that did not
/// keep its name is told as renamed.
pub proof fn moves_are_told(a: ModelView, b: ModelView, n: int)
    ensures
        0 <= n < matched(a, b).moved_functions.len() && are_entities(
            a,
            b,
            matched(a, b).moved_functions[n],
        ) ==> is_said(
            ops_between(a, b),
            moved_or_renamed(a, b, matched(a, b).moved_functions[n]),
            Layer::Structure,
            matched(a, b).moved_functions[n].0,
            None,
            Some(matched(a, b).moved_functions[n].1),
        ),
        0 <= n < matched(a, b).moved_classes.len() && are_classes(
            a,
            b,
            matched(a, b).moved_classes[n],
        ) ==> is_said(
            ops_between(a, b),
            "ENTITY_MOVED"@,
            Layer::Structure,
            matched(a, b).moved_classes[n].0,
            None,
            Some(matched(a, b).moved_classes[n].1),
        ),
{
    let m = matched(a, b);
    moved_functions_are_exact(a, b, m.moved_functions, 0);
    moved_classes_are_exact(a, b, m.moved_classes, 0);
    if 0 <= n < m.moved_functions.len() {
        let p = m.moved_functions[n];
        structure_is_told(a, b, moved_or_renamed(a, b, p), p.0, Some(p.1));
    }
    if 0 <= n < m.moved_classes.len() {
        let p = m.moved_classes[n];
        structure_is_told(a, b, "ENTITY_MOVED"@, p.0, Some(p.1));
    }
}

proof fn schema_is_told(
    a: ModelView,
    b: ModelView,
    modules: Seq<(Text, Text)>,
    i: int,
    n: int,
    kind: Text,
    subject: Text,
    before: Option<Text>,
    after: Option<Text>,
)
    requires
        0 <= i <= n < b.schemas.len(),
        old_schema(
            a.schemas,
            modules,
            schema_name(b.schemas[n].0).0,
            schema_name(b.schemas[n].0).1,
            0,
        ) matches Some(sa) && (is_said(
            field_gains(b.schemas[n].0, sa, b.schemas[n].1, 0),
            kind,
            Layer::Behaviour,
            subject,
            before,
            after,
        ) || is_said(
            field_losses(b.schemas[n].0, sa, b.schemas[n].1, 0),
            kind,
            Layer::Behaviour,
            subject,
            before,
            after,
        )),
    ensures
        is_said(
            schema_changes(a, b, modules, i),
            kind,
            Layer::Behaviour,
            subject,
            before,
            after,
        ),
    decreases n - i,
{
    let (key, sb) = b.schemas[i];
    let (module, name) = schema_name(key);
    let head = match old_schema(a.schemas, modules, module, name, 0) {
        Some(sa) => field_gains(key, sa, sb, 0) + field_losses(key, sa, sb, 0),
        None => seq![],
    };
    let l = Layer::Behaviour;
    said_in_part(head, schema_changes(a, b, modules, i + 1), kind, l, subject, before, after);
    if i == n {
        let sa = old_schema(a.schemas, modules, module, name, 0)->0;
        said_in_part(
            field_gains(key, sa, sb, 0),
            field_losses(key, sa, sb, 0),
            kind,
            l,
            subject,
            before,
            after,
        );
    } else {
        schema_is_told(a, b, modules, i + 1, n, kind, subject, before, after);
    }
}

/// A field that a schema validates now and did not, or validates otherwise, is told with its
/// constraints before and after; so is one that it does not validate any more.
pub proof fn changed_schemas_are_told(
    a: ModelView,
    b: ModelView,
    n: int,
    sa: SchemaFactView,
    field: Text,
)
    requires
        0 <= n < b.schemas.len(),
        old_schema(
            a.schemas,
            matched(a, b).modules,
            schema_name(b.schemas[n].0).0,
            schema_name(b.schemas[n].0).1,
            0,
        ) == Some(sa),
    ensures
        lookup(b.schemas[n].1.fields, field) matches Some(c) && lookup(sa.fields, field) != Some(c)
            ==> is_said(
            ops_between(a, b),
            schema_word(
                field,
                if lookup(sa.fields, field) is None {
                    "SCHEMA_FIELD_ADDED"@
                } else {
                    "SCHEMA_FIELD_CHANGED"@
                },
            ),
            Layer::Behaviour,
            schema_part(b.schemas[n].0, field),
            lookup(sa.fields, field),
            lookup(b.schemas[n].1.fields, field),
        ),
        lookup(b.schemas[n].1.fields, field) is None && lookup(sa.fields, field) is Some ==> is_said(
            ops_between(a, b),
            schema_word(field, "SCHEMA_FIELD_REMOVED"@),
            Layer::Behaviour,
            schema_part(b.schemas[n].0, field),
            lookup(sa.fields, field),
            None,
        ),
{
    let m = matched(a, b);
    let (key, sb) = b.schemas[n];
    new_fields_are_exact(key, sa, sb, 0);
    lost_fields_are_exact(key, sa, sb, 0);
    slot_bounds(sb.fields, field);
    slot_bounds(sa.fields, field);
    let s = schema_part(key, field);
    if let Some(c) = lookup(sb.fields, field) {
        if lookup(sa.fields, field) != Some(c) {
            let k = slot(sb.fields, field);
            assert(sb.fields[k] == (field, c));
            assert(is_checked_anew(sb.fields[k], sa));
            let w = new_check_word((field, c), sa);
            let x = lookup(sa.fields, field);
            schema_is_told(a, b, m.modules, 0, n, w, s, x, Some(c));
            sorts_are_told(a, b, w, Layer::Behaviour, s, x, Some(c));
        }
    } else if let Some(c) = lookup(sa.fields, field) {
        let k = slot(sa.fields, field);
        assert(sa.fields[k] == (field, c));
        assert(is_unchecked(sa.fields[k], sb));
        let w = schema_word(field, "SCHEMA_FIELD_REMOVED"@);
        schema_is_told(a, b, m.modules, 0, n, w, s, Some(c), None);
        sorts_are_told(a, b, w, Layer::Behaviour, s, Some(c), None);
    }
}

proof fn breach_is_told(
    a: ModelView,
    b: ModelView,
    m: MatchingView,
    i: int,
    n: int,
    before: Option<Text>,
    after: Option<Text>,
)
    requires
        0 <= i <= n < a.invariants.len(),
        is_said(
            breaches_from(a, b, m, a.invariants[n], concerned(b, a.invariants[n]), 0),
            "INVARIANT_VIOLATED"@,
            Layer::Design,
            a.invariants[n].statement,
            before,
            after,
        ),
    ensures
        is_said(
            breaches(a, b, m, i),
            "INVARIANT_VIOLATED"@,
            Layer::Design,
            a.invariants[n].statement,
            before,
            after,
        ),
    decreases n - i,
{
    said_in_part(
        breaches_from(a, b, m, a.invariants[i], concerned(b, a.invariants[i]), 0),
        breaches(a, b, m, i + 1),
        "INVARIANT_VIOLATED"@,
        Layer::Design,
        a.invariants[n].statement,
        before,
        after,
    );
    if i < n {
        breach_is_told(a, b, m, i + 1, n, before, after);
    }
}

/// An entity that enters a state without following an invariant of the old version, and did not
/// break it before, is told as violating it.
pub proof fn breaches_are_told(a: ModelView, b: ModelView, n: int, e: int, k: int)
    requires
        0 <= n < a.invariants.len(),
        0 <= e < b.entities.len(),
        0 <= k < b.entities[e].1.writes.len(),
        enters(b.entities[e].1.writes[k], a.invariants[n]),
        !follows(b, a.invariants[n], b.entities[e].1, matched(a, b).forward),
        !did_break(a, matched(a, b), a.invariants[n], b.entities[e].1.id),
    ensures
        is_said(
            ops_between(a, b),
            "INVARIANT_VIOLATED"@,
            Layer::Design,
            a.invariants[n].statement,
            Some("holds for "@ + text::decimal(a.invariants[n].support as nat) + " writer(s)"@),
            Some(crate::ops::short_name(b.entities[e].1.id) + " does not satisfy it"@),
        ),
{
    let m = matched(a, b);
    let inv = a.invariants[n];
    let ws = concerned(b, inv);
    let w = (b.entities[e].1, b.entities[e].1.writes[k]);
    writers_are_found(b.entities, inv, 0, e, k);
    let j = choose|j: int| 0 <= j < ws.len() && ws[j] == w;
    breaches_are_exact(a, b, m, inv, ws, 0);
    assert(is_breach(a, b, m, inv, ws[j]));
    let x = Some("holds for "@ + text::decimal(inv.support as nat) + " writer(s)"@);
    let y = Some(crate::ops::short_name(w.0.id) + " does not satisfy it"@);
    breach_is_told(a, b, m, 0, n, x, y);
    sorts_are_told(a, b, "INVARIANT_VIOLATED"@, Layer::Design, inv.statement, x, y);
}

/// What is told of invariants is so: the entity is a writer that breaks the invariant and did not
/// break it before.
pub proof fn breaches_told_are_so(
    a: ModelView,
    b: ModelView,
    m: MatchingView,
    inv: InvariantView,
    j: int,
)
    requires
        0 <= j < breaches_from(a, b, m, inv, concerned(b, inv), 0).len(),
    ensures
        exists|n: int|
            0 <= n < concerned(b, inv).len() && is_breach(a, b, m, inv, #[trigger] concerned(b, inv)[n]),
{
    let ws = concerned(b, inv);
    breaches_are_exact(a, b, m, inv, ws, 0);
    let all = breaches_from(a, b, m, inv, ws, 0);
    assert(all[j] == all[j]);
    let n = choose|n: int|
        0 <= n < ws.len() && is_breach(a, b, m, inv, #[trigger] ws[n]) && tells(
            all[j],
            "INVARIANT_VIOLATED"@,
            Layer::Design,
            inv.statement,
            Some("holds for "@ + text::decimal(inv.support as nat) + " writer(s)"@),
            Some(crate::ops::short_name(ws[n].0.id) + " does not satisfy it"@),
        );
    assert(is_breach(a, b, m, inv, ws[n]));
}

/// New code that speaks for itself is told, with what it does.
pub proof fn new_code_is_told(a: ModelView, b: ModelView, n: int)
    requires
        0 <= n < b.entities.len(),
        is_new_code(
            b,
            matched(a, b),
            subjects_from(direct_ops(a, b, matched(a, b)), 0, seq![]),
            b.entities[n],
        ),
    ensures
        is_said(
            ops_between(a, b),
            "BEHAVIOUR_ADDED"@,
            Layer::Behaviour,
            b.entities[n].0,
            None,
            description(b, b.entities[n].0),
        ),
{
    let m = matched(a, b);
    let changed = subjects_from(direct_ops(a, b, m), 0, seq![]);
    new_code_is_exact(b, m, changed, 0);
    let id = b.entities[n].0;
    assert(b.entities[n] == b.entities[n]);
    sorts_are_told(a, b, "BEHAVIOUR_ADDED"@, Layer::Behaviour, id, None, description(b, id));
}

// ---- rules

/// What a rule is called where it is broken.
pub open spec fn broken_word(kind: Text) -> Text {
    if kind == "layer"@ {
        "LAYER_VIOLATION_INTRODUCED"@
    } else {
        "OWNERSHIP_VIOLATION_INTRODUCED"@
    }
}

/// What a rule is called where it is kept again.
pub open spec fn mended_word(kind: Text) -> Text {
    if kind == "layer"@ {
        "LAYER_VIOLATION_RESOLVED"@
    } else {
        "OWNERSHIP_VIOLATION_RESOLVED"@
    }
}

/// A violation is of a rule and a subject.
pub open spec fn is_of(v: ViolationView, k: (Text, Text)) -> bool {
    v.kind == k.0 && v.subject == k.1
}

/// A group of violations holds one.
pub open spec fn group_has(
    gs: Seq<((Text, Text), Seq<ViolationView>)>,
    k: (Text, Text),
    v: ViolationView,
) -> bool {
    lookup(gs, k) matches Some(vs) && vs.contains(v)
}

proof fn groups_are_those(
    vs: Seq<ViolationView>,
    i: int,
    acc: Seq<((Text, Text), Seq<ViolationView>)>,
)
    requires
        ascending(acc),
        0 <= i,
        forall|k: (Text, Text)|
            (#[trigger] lookup(acc, k)) is Some ==> (lookup(acc, k)->0).len() > 0,
    ensures
        ascending(by_subject(vs, i, acc)),
        forall|k: (Text, Text)|
            (#[trigger] lookup(by_subject(vs, i, acc), k)) is Some ==> (lookup(by_subject(vs, i, acc), k)->0).len() > 0,
        forall|k: (Text, Text), v: ViolationView|
            #[trigger] group_has(by_subject(vs, i, acc), k, v) <==> group_has(acc, k, v) || is_in(
                vs,
                i,
                k,
                v,
            ),
    decreases vs.len() - i,
{
    if i < vs.len() {
        let key = (vs[i].kind, vs[i].subject);
        let had = match lookup(acc, key) {
            Some(d) => d,
            None => seq![],
        };
        let next = put(acc, key, had.push(vs[i]));
        put_keeps_order(acc, key, had.push(vs[i]));
        lookup_after_put(acc, key, had.push(vs[i]));
        assert forall|k: (Text, Text)| (#[trigger] lookup(next, k)) is Some implies (lookup(next, k)->0).len() > 0 by {
            if k != key {
                lookup_of_other(acc, key, had.push(vs[i]), k);
            }
        }
        groups_are_those(vs, i + 1, next);
        assert forall|k: (Text, Text), v: ViolationView|
            #[trigger] group_has(by_subject(vs, i, acc), k, v) <==> group_has(acc, k, v) || is_in(
                vs,
                i,
                k,
                v,
            ) by {
            assert(group_has(by_subject(vs, i + 1, next), k, v) <==> group_has(next, k, v) || is_in(
                vs,
                i + 1,
                k,
                v,
            ));
            if k != key {
                lookup_of_other(acc, key, had.push(vs[i]), k);
            } else {
                pushed_violation(had, vs[i], v);
            }
            if is_in(vs, i, k, v) {
                let n = choose|n: int| i <= n < vs.len() && #[trigger] vs[n] == v && is_of(v, k);
                if n > i {
                    assert(is_in(vs, i + 1, k, v));
                }
            }
            if is_in(vs, i + 1, k, v) {
                let n = choose|n: int| i + 1 <= n < vs.len() && #[trigger] vs[n] == v && is_of(v, k);
                assert(vs[n] == v);
            }
            if v == vs[i] && k == key {
                assert(vs[i] == v && is_of(v, k));
            }
        }
    }
}

proof fn pushed_violation(vs: Seq<ViolationView>, x: ViolationView, v: ViolationView)
    ensures
        vs.push(x).contains(v) == (vs.contains(v) || v == x),
{
    let next = vs.push(x);
    assert(next[vs.len() as int] == x);
    if vs.contains(v) {
        let i = choose|i: int| 0 <= i < vs.len() && vs[i] == v;
        assert(next[i] == v);
    }
    if next.contains(v) {
        let i = choose|i: int| 0 <= i < next.len() && next[i] == v;
        if i < vs.len() {
            assert(vs[i] == v);
        }
    }
}

/// A violation of a rule and a subject is among those from index `i` on.
pub open spec fn is_in(vs: Seq<ViolationView>, i: int, k: (Text, Text), v: ViolationView) -> bool {
    exists|n: int| i <= n < vs.len() && #[trigger] vs[n] == v && is_of(v, k)
}

/// The details of a group hold one.
spec fn detail_has(ds: Seq<((Text, Text), Seq<Text>)>, k: (Text, Text), d: Text) -> bool {
    lookup(ds, k) matches Some(g) && g.contains(d)
}

/// A violation from index `i` on is of a rule and a subject and has a detail, in the names of now.
pub open spec fn was_known(
    vs: Seq<ViolationView>,
    m: MatchingView,
    i: int,
    k: (Text, Text),
    d: Text,
) -> bool {
    exists|n: int|
        i <= n < vs.len() && is_of(#[trigger] vs[n], k) && renamed_detail(m, vs[n].detail) == d
}

proof fn details_are_those(
    vs: Seq<ViolationView>,
    m: MatchingView,
    i: int,
    acc: Seq<((Text, Text), Seq<Text>)>,
)
    requires
        ascending(acc),
        0 <= i,
        forall|k: (Text, Text)| (#[trigger] lookup(acc, k)) is Some ==> rising(lookup(acc, k)->0),
    ensures
        forall|k: (Text, Text), d: Text|
            #[trigger] detail_has(details_from(vs, m, i, acc), k, d) <==> detail_has(acc, k, d)
                || was_known(vs, m, i, k, d),
    decreases vs.len() - i,
{
    if i < vs.len() {
        let key = (vs[i].kind, vs[i].subject);
        let had = match lookup(acc, key) {
            Some(d) => d,
            None => seq![],
        };
        let x = renamed_detail(m, vs[i].detail);
        let more = added(had, x);
        let next = put(acc, key, more);
        added_keeps_order(had, x);
        put_keeps_order(acc, key, more);
        lookup_after_put(acc, key, more);
        assert forall|k: (Text, Text)| (#[trigger] lookup(next, k)) is Some implies rising(lookup(next, k)->0) by {
            if k != key {
                lookup_of_other(acc, key, more, k);
            }
        }
        details_are_those(vs, m, i + 1, next);
        assert forall|k: (Text, Text), d: Text|
            #[trigger] detail_has(details_from(vs, m, i, acc), k, d) <==> detail_has(acc, k, d)
                || was_known(vs, m, i, k, d) by {
            assert(detail_has(details_from(vs, m, i + 1, next), k, d) <==> detail_has(next, k, d)
                || was_known(vs, m, i + 1, k, d));
            added_members(had, x, d);
            if k != key {
                lookup_of_other(acc, key, more, k);
            }
            if was_known(vs, m, i, k, d) {
                let n = choose|n: int|
                    i <= n < vs.len() && is_of(#[trigger] vs[n], k) && renamed_detail(m, vs[n].detail)
                        == d;
                if n > i {
                    assert(was_known(vs, m, i + 1, k, d));
                }
            }
            if was_known(vs, m, i + 1, k, d) {
                let n = choose|n: int|
                    i + 1 <= n < vs.len() && is_of(#[trigger] vs[n], k) && renamed_detail(
                        m,
                        vs[n].detail,
                    ) == d;
                assert(is_of(vs[n], k));
            }
            if k == key && d == x {
                assert(is_of(vs[i], k));
            }
        }
    }
}

proof fn fresh_are_those(vs: Seq<ViolationView>, known: Option<Seq<Text>>, i: int, v: ViolationView)
    requires
        0 <= i,
    ensures
        fresh_from(vs, known, i).contains(v) <==> (exists|n: int|
            i <= n < vs.len() && #[trigger] vs[n] == v) && !(known matches Some(ds) && ds.contains(
            v.detail,
        )),
    decreases vs.len() - i,
{
    if i < vs.len() {
        fresh_are_those(vs, known, i + 1, v);
        let rest = fresh_from(vs, known, i + 1);
        let all = fresh_from(vs, known, i);
        let h = all.len() - rest.len();
        if all.contains(v) {
            let j = choose|j: int| 0 <= j < all.len() && all[j] == v;
            if j < h {
                assert(vs[i] == v);
            } else {
                assert(rest[j - h] == v);
                assert(rest.contains(v));
                let n = choose|n: int| i + 1 <= n < vs.len() && #[trigger] vs[n] == v;
                assert(vs[n] == v);
            }
        }
        if rest.contains(v) {
            let j = choose|j: int| 0 <= j < rest.len() && rest[j] == v;
            assert(all[h + j] == v);
        }
        if exists|n: int| i <= n < vs.len() && #[trigger] vs[n] == v {
            let n = choose|n: int| i <= n < vs.len() && #[trigger] vs[n] == v;
            if n == i && h > 0 {
                assert(all[0] == v);
            } else if n > i {
                assert(i + 1 <= n);
            }
        }
    }
}

/// A violation of a declared rule that the old version did not have, in the names of now, is told
/// as introduced, with its detail.
pub proof fn new_violations_are_told(a: ModelView, b: ModelView, n: int)
    requires
        0 <= n < b.violations.len(),
        !was_known(
            a.violations,
            matched(a, b),
            0,
            (b.violations[n].kind, b.violations[n].subject),
            b.violations[n].detail,
        ),
    ensures
        exists|t: Text|
            text::has_text(t, b.violations[n].detail) && #[trigger] is_said(
                ops_between(a, b),
                broken_word(b.violations[n].kind),
                Layer::Design,
                b.violations[n].subject,
                None,
                Some(t),
            ),
{
    let m = matched(a, b);
    let v = b.violations[n];
    let k = (v.kind, v.subject);
    let none = Seq::<((Text, Text), Seq<ViolationView>)>::empty();
    assert(none =~= seq![]);
    let nil = Seq::<((Text, Text), Seq<Text>)>::empty();
    assert(nil =~= seq![]);
    let va = details_from(a.violations, m, 0, seq![]);
    let vb = by_subject(b.violations, 0, seq![]);
    groups_are_those(b.violations, 0, none);
    details_are_those(a.violations, m, 0, nil);
    assert(b.violations[n] == v && is_of(v, k));
    assert(is_in(b.violations, 0, k, v));
    assert(group_has(vb, k, v));
    assert(!detail_has(nil, k, v.detail));
    assert(!detail_has(va, k, v.detail));
    slot_bounds(vb, k);
    let c = slot(vb, k);
    let vs = vb[c].1;
    let fresh = fresh_from(vs, lookup(va, k), 0);
    let x = choose|x: int| 0 <= x < vs.len() && vs[x] == v;
    fresh_are_those(vs, lookup(va, k), 0, v);
    let y = choose|y: int| 0 <= y < fresh.len() && fresh[y] == v;
    assert(fresh[y] == v);
    broken_are_exact(vb, va, 0);
    assert(vb[c].0 == k);
    assert(is_news(vb[c], va));
    let ds = crate::rules::details_of(fresh);
    let t = text::joined(ds, "; "@);
    crate::hook::part_of_joined(ds, "; "@, 0, y);
    assert(ds[y] == v.detail);
    let oa = by_subject(a.violations, 0, seq![]);
    let w = broken_word(v.kind);
    said_in_part(
        rules_broken(vb, va, 0),
        rules_mended(oa, vb, 0),
        w,
        Layer::Design,
        v.subject,
        None,
        Some(t),
    );
    sorts_are_told(a, b, w, Layer::Design, v.subject, None, Some(t));
}

/// A rule that the old version broke at a subject, and that the new one does not break there at
/// all, is told as kept again.
pub proof fn lost_violations_are_told(a: ModelView, b: ModelView, n: int)
    requires
        0 <= n < a.violations.len(),
        forall|k: int|
            0 <= k < b.violations.len() ==> !is_of(
                #[trigger] b.violations[k],
                (a.violations[n].kind, a.violations[n].subject),
            ),
    ensures
        is_said(
            ops_between(a, b),
            mended_word(a.violations[n].kind),
            Layer::Design,
            a.violations[n].subject,
            None,
            None,
        ),
{
    let m = matched(a, b);
    let v = a.violations[n];
    let k = (v.kind, v.subject);
    let none = Seq::<((Text, Text), Seq<ViolationView>)>::empty();
    assert(none =~= seq![]);
    let va = details_from(a.violations, m, 0, seq![]);
    let vb = by_subject(b.violations, 0, seq![]);
    let oa = by_subject(a.violations, 0, seq![]);
    groups_are_those(a.violations, 0, none);
    groups_are_those(b.violations, 0, none);
    assert(a.violations[n] == v && is_of(v, k));
    assert(is_in(a.violations, 0, k, v));
    assert(group_has(oa, k, v));
    if let Some(g) = lookup(vb, k) {
        assert(g.len() > 0);
        assert(g.contains(g[0]));
        assert(group_has(vb, k, g[0]));
        assert(!group_has(none, k, g[0]));
        let j = choose|j: int|
            0 <= j < b.violations.len() && #[trigger] b.violations[j] == g[0] && is_of(g[0], k);
        assert(is_of(b.violations[j], k));
    }
    slot_bounds(oa, k);
    let c = slot(oa, k);
    assert(oa[c].0 == k);
    mended_are_exact(oa, vb, 0);
    assert(is_mended(oa[c], vb));
    let w = mended_word(v.kind);
    said_in_part(
        rules_broken(vb, va, 0),
        rules_mended(oa, vb, 0),
        w,
        Layer::Design,
        v.subject,
        None,
        None,
    );
    sorts_are_told(a, b, w, Layer::Design, v.subject, None, None);
}

/// What is told of rules is so: what is called introduced has a violation that was not known, and
/// what is called resolved had one and has none.
pub proof fn rules_told_are_so(a: ModelView, b: ModelView, m: MatchingView, j: int)
    ensures
        ({
            let va = details_from(a.violations, m, 0, seq![]);
            let vb = by_subject(b.violations, 0, seq![]);
            let oa = by_subject(a.violations, 0, seq![]);
            &&& 0 <= j < rules_broken(vb, va, 0).len() ==> exists|n: int|
                0 <= n < b.violations.len() && is_news_of(
                    a,
                    m,
                    #[trigger] b.violations[n],
                    rules_broken(vb, va, 0)[j],
                )
            &&& 0 <= j < rules_mended(oa, vb, 0).len() ==> exists|n: int|
                0 <= n < a.violations.len() && is_mended_in(
                    b,
                    #[trigger] a.violations[n],
                    rules_mended(oa, vb, 0)[j],
                )
        }),
{
    let none = Seq::<((Text, Text), Seq<ViolationView>)>::empty();
    assert(none =~= seq![]);
    let nil = Seq::<((Text, Text), Seq<Text>)>::empty();
    assert(nil =~= seq![]);
    let va = details_from(a.violations, m, 0, seq![]);
    let vb = by_subject(b.violations, 0, seq![]);
    let oa = by_subject(a.violations, 0, seq![]);
    groups_are_those(a.violations, 0, none);
    groups_are_those(b.violations, 0, none);
    details_are_those(a.violations, m, 0, nil);
    broken_are_exact(vb, va, 0);
    mended_are_exact(oa, vb, 0);
    if 0 <= j < rules_broken(vb, va, 0).len() {
        let op = rules_broken(vb, va, 0)[j];
        let c = choose|c: int|
            0 <= c < vb.len() && is_news(#[trigger] vb[c], va) && tells(
                op,
                broken_word(vb[c].0.0),
                Layer::Design,
                vb[c].0.1,
                None,
                news_text(vb[c], va),
            );
        let k = vb[c].0;
        let fresh = fresh_from(vb[c].1, lookup(va, k), 0);
        let v = fresh[0];
        assert(fresh.contains(v));
        fresh_are_those(vb[c].1, lookup(va, k), 0, v);
        let x = choose|x: int| 0 <= x < vb[c].1.len() && #[trigger] vb[c].1[x] == v;
        slot_of_stored(vb, c);
        assert(group_has(vb, k, v));
        assert(!group_has(none, k, v));
        let n = choose|n: int|
            0 <= n < b.violations.len() && #[trigger] b.violations[n] == v && is_of(v, k);
        assert(!detail_has(va, k, v.detail));
        assert(is_news_of(a, m, b.violations[n], op));
    }
    if 0 <= j < rules_mended(oa, vb, 0).len() {
        let op = rules_mended(oa, vb, 0)[j];
        let c = choose|c: int|
            0 <= c < oa.len() && is_mended(#[trigger] oa[c], vb) && tells(
                op,
                mended_word(oa[c].0.0),
                Layer::Design,
                oa[c].0.1,
                None,
                None,
            );
        let k = oa[c].0;
        let v = oa[c].1[0];
        assert(oa[c].1.contains(v));
        slot_of_stored(oa, c);
        assert(group_has(oa, k, v));
        assert(!group_has(none, k, v));
        let n = choose|n: int|
            0 <= n < a.violations.len() && #[trigger] a.violations[n] == v && is_of(v, k);
        assert forall|x: int| 0 <= x < b.violations.len() implies !is_of(#[trigger] b.violations[x], k) by {
            if is_of(b.violations[x], k) {
                assert(is_in(b.violations, 0, k, b.violations[x]));
                assert(group_has(vb, k, b.violations[x]));
            }
        }
        assert(is_mended_in(b, a.violations[n], op));
    }
}

/// A violation that was not known, and that an operation tells.
pub open spec fn is_news_of(a: ModelView, m: MatchingView, v: ViolationView, op: OpView) -> bool {
    op.kind == broken_word(v.kind) && op.subject == v.subject && !was_known(
        a.violations,
        m,
        0,
        (v.kind, v.subject),
        v.detail,
    )
}

/// A violation of a rule that is kept again at its subject, as an operation tells.
pub open spec fn is_mended_in(b: ModelView, v: ViolationView, op: OpView) -> bool {
    op.kind == mended_word(v.kind) && op.subject == v.subject && forall|k: int|
        0 <= k < b.violations.len() ==> !is_of(#[trigger] b.violations[k], (v.kind, v.subject))
}

} // verus!
