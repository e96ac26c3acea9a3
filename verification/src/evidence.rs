//! What every operation rests on: a transition claims nothing without a place in the code, and
//! says how each claim came to be known.

use crate::additions::{
    field_gains, field_losses, new_code, old_schema, schema_changes, schema_name, subjects_from,
};
use crate::analysis::{
    deps_from, deps_of, modelled, stated, with_classes, with_entity, with_functions, with_module,
    with_modules, with_schemas, with_site,
};
use crate::behaviour::{
    changed_pair, check_gains, check_losses, data_changes, effect_gains, effect_losses, entity_ops,
    guard_at, guard_changes, guard_gains, guards_held, pair_filters, pair_ops, pairs_ops,
    relevant_guards, renamed_checks, rival_at, rule_change, with_affects,
};
use crate::catalog::extended;
use crate::design::{
    declared, foreign_writes, layer_violations, layers_from, nothing_declared, ownership_violations,
    ConfigView, RuleView,
};
use crate::entity::entity_of;
use crate::envs::envs_of;
use crate::front::program_of;
use crate::infer::{mined, new_name};
use crate::ir::{ClassView, FunctionView, LocView, ModuleView, ProgramView};
use crate::list::deduped_from;
use crate::matching::{matched, MatchingView};
use crate::mining::mined_invariants_hold;
use crate::model::{
    empty_model, entry_points, sources_from, AccessFactView, CallFactView, ClassInfoView,
    EffectFactView, EffectInfoView, EffectKeyView, EntityView, InvariantView, ModelView, Origin, QueryFilterView, RouteView, SchemaFactView, StateEdgeView,
    StateMachineView, SubscriptionView, SummaryView, ViolationView, WriteFactView,
};
use crate::ops::{
    access_changed, auth_changed, auth_pred, facts_only, filter_changes, filter_gains,
    filter_losses, filters_changed, filters_sorted, found, Layer, OpView,
};
use crate::ordered::{
    added, added_from, ascending, keys, lookup, put, put_keeps_order, put_values, seat_bounds,
    set_of, slot_bounds, sorted, sorted_members, united, Rank,
};
use crate::pipeline::{model_of, transition_of};
use crate::pred::{pred_text, PredView};
use crate::query::SceneView;
use crate::resolve::index_of;
use crate::rules;
use crate::rules::{
    breaches, breaches_from, by_subject, details_from, fresh_from, places_from, rule_changes,
    rules_broken, rules_mended,
};
use crate::schema::schemas_in;
use crate::shapes::{apart, inlined_shapes, shape_places};
use crate::spreading::{keys_rise, possible, possible_checks, sets_with_same_members};
use crate::states;
use crate::states::{
    machine_changes, places_to, state_change, state_changes, state_changes_from, states_reached,
    ways_to,
};
use crate::structure::{
    class_gains, class_losses, class_moves, dep_changes, entity_changes, function_moves,
    handler_gains, handler_losses, handlers_from, lost_methods, moved_methods, new_methods,
    renamed_deps, route_gains, route_losses, routes_by_key, structure_changes, surface_changes,
};
use crate::summary::{
    after_calls, after_checks, after_events, after_handlers, check_pass, checks_settled, first_put,
    guards_from, joined_info, no_info, own_access, own_effects, own_summaries, own_summary, pass,
    settled, step, summarised, through_call, through_event, validators_from, with_access,
    with_guards, with_info, with_validations,
};
use crate::text;
use crate::text::Text;
use crate::transition::{
    all_ops, direct_ops, logging_changes, ops_between, typed_ops, untyped_change, untyped_changes,
};
use vstd::prelude::*;

verus! {

/// An operation names a place of either version.
pub open spec fn is_backed(op: OpView) -> bool {
    op.evidence_before.len() > 0 || op.evidence_after.len() > 0
}

/// The kinds of operations about rules that a project declares.
pub open spec fn is_rule_kind(kind: Text) -> bool {
    kind == "LAYER_VIOLATION_INTRODUCED"@ || kind == "OWNERSHIP_VIOLATION_INTRODUCED"@ || kind
        == "LAYER_VIOLATION_RESOLVED"@ || kind == "OWNERSHIP_VIOLATION_RESOLVED"@
}

/// What an operation says of its origin is right: only broken invariants are inferred, only rules
/// are declared, and a confidence is above zero and no more than certain.
pub open spec fn is_honest(op: OpView) -> bool {
    &&& 0 < op.confidence <= 100
    &&& op.origin == Origin::Inferred <==> op.kind == "INVARIANT_VIOLATED"@
    &&& op.origin == Origin::Declared <==> is_rule_kind(op.kind)
    &&& op.origin == Origin::Inferred ==> op.confidence < 100
}

/// Every operation is backed and honest.
pub open spec fn all_told(ops: Seq<OpView>) -> bool {
    forall|i: int| 0 <= i < ops.len() ==> is_backed(#[trigger] ops[i]) && is_honest(ops[i])
}

/// The effects have a place each.
pub open spec fn grounded_effects(es: Seq<(EffectKeyView, EffectInfoView)>) -> bool {
    forall|n: int| 0 <= n < es.len() ==> (#[trigger] es[n]).1.evidence.len() > 0
}

/// The effects of every summary have a place each, and the access rules are in order.
pub open spec fn grounded_summaries(sums: Seq<(Text, SummaryView)>) -> bool {
    forall|n: int|
        0 <= n < sums.len() ==> grounded_effects((#[trigger] sums[n]).1.effects) && ascending(
            sums[n].1.access,
        )
}

/// The dependencies have a place each.
pub open spec fn grounded_deps(deps: Seq<((Text, Text), Seq<LocView>)>) -> bool {
    forall|n: int| 0 <= n < deps.len() ==> (#[trigger] deps[n]).1.len() > 0
}

/// The violations have a place each.
pub open spec fn grounded_violations(vs: Seq<ViolationView>) -> bool {
    forall|n: int| 0 <= n < vs.len() ==> (#[trigger] vs[n]).evidence.len() > 0
}

/// Every fact of a model has a place, and what is inferred is not certain.
pub open spec fn grounded(m: ModelView) -> bool {
    &&& grounded_summaries(m.summaries)
    &&& grounded_deps(m.module_deps)
    &&& grounded_violations(m.violations)
    &&& forall|n: int|
        0 <= n < m.invariants.len() ==> 0 < (#[trigger] m.invariants[n]).confidence < 100
}

// ---- kinds

/// A kind that is neither that of a broken invariant, nor that of a rule, nor the claim of a pure
/// refactoring, by its first letters.
spec fn is_plain_kind(kind: Text) -> bool {
    kind.len() > 1 && kind[0] != 'I' && kind[0] != 'O' && kind[0] != 'P' && !(kind[0] == 'L'
        && kind[1] == 'A')
}

proof fn plain_is_no_rule(kind: Text)
    requires
        is_plain_kind(kind),
    ensures
        kind != "INVARIANT_VIOLATED"@,
        !is_rule_kind(kind),
{
    reveal_strlit("INVARIANT_VIOLATED");
    reveal_strlit("LAYER_VIOLATION_INTRODUCED");
    reveal_strlit("LAYER_VIOLATION_RESOLVED");
    reveal_strlit("OWNERSHIP_VIOLATION_INTRODUCED");
    reveal_strlit("OWNERSHIP_VIOLATION_RESOLVED");
    assert("INVARIANT_VIOLATED"@[0] == 'I');
    assert("LAYER_VIOLATION_INTRODUCED"@[0] == 'L' && "LAYER_VIOLATION_INTRODUCED"@[1] == 'A');
    assert("LAYER_VIOLATION_RESOLVED"@[0] == 'L' && "LAYER_VIOLATION_RESOLVED"@[1] == 'A');
    assert("OWNERSHIP_VIOLATION_INTRODUCED"@[0] == 'O');
    assert("OWNERSHIP_VIOLATION_RESOLVED"@[0] == 'O');
}

proof fn claim_is_no_rule()
    ensures
        "PURE_REFACTOR"@ != "INVARIANT_VIOLATED"@,
        !is_rule_kind("PURE_REFACTOR"@),
        forall|kind: Text| #[trigger] is_plain_kind(kind) ==> kind != "PURE_REFACTOR"@,
{
    reveal_strlit("PURE_REFACTOR");
    reveal_strlit("INVARIANT_VIOLATED");
    reveal_strlit("LAYER_VIOLATION_INTRODUCED");
    reveal_strlit("LAYER_VIOLATION_RESOLVED");
    reveal_strlit("OWNERSHIP_VIOLATION_INTRODUCED");
    reveal_strlit("OWNERSHIP_VIOLATION_RESOLVED");
    assert("PURE_REFACTOR"@[0] == 'P');
    assert("INVARIANT_VIOLATED"@[0] == 'I');
    assert("LAYER_VIOLATION_INTRODUCED"@[0] == 'L');
    assert("LAYER_VIOLATION_RESOLVED"@[0] == 'L');
    assert("OWNERSHIP_VIOLATION_INTRODUCED"@[0] == 'O');
    assert("OWNERSHIP_VIOLATION_RESOLVED"@[0] == 'O');
}

proof fn rules_are_no_invariants(kind: Text)
    requires
        is_rule_kind(kind),
    ensures
        kind != "INVARIANT_VIOLATED"@,
{
    reveal_strlit("INVARIANT_VIOLATED");
    reveal_strlit("LAYER_VIOLATION_INTRODUCED");
    reveal_strlit("LAYER_VIOLATION_RESOLVED");
    reveal_strlit("OWNERSHIP_VIOLATION_INTRODUCED");
    reveal_strlit("OWNERSHIP_VIOLATION_RESOLVED");
    assert("INVARIANT_VIOLATED"@[0] == 'I');
    assert("LAYER_VIOLATION_INTRODUCED"@[0] == 'L');
    assert("LAYER_VIOLATION_RESOLVED"@[0] == 'L');
    assert("OWNERSHIP_VIOLATION_INTRODUCED"@[0] == 'O');
    assert("OWNERSHIP_VIOLATION_RESOLVED"@[0] == 'O');
}

proof fn structure_kinds()
    ensures
        is_plain_kind("ENTITY_MOVED"@),
        is_plain_kind("ENTITY_RENAMED"@),
        is_plain_kind("ENTITY_ADDED"@),
        is_plain_kind("ENTITY_REMOVED"@),
        is_plain_kind("DEPENDENCY_ADDED"@),
        is_plain_kind("DEPENDENCY_REMOVED"@),
        is_plain_kind("ENTRYPOINT_ADDED"@),
        is_plain_kind("ENTRYPOINT_REMOVED"@),
        is_plain_kind("EVENT_HANDLER_ADDED"@),
        is_plain_kind("EVENT_HANDLER_REMOVED"@),
{
    reveal_strlit("ENTITY_MOVED");
    assert("ENTITY_MOVED"@.len() > 1 && "ENTITY_MOVED"@[0] == 'E' && "ENTITY_MOVED"@[1] == 'N');
    reveal_strlit("ENTITY_RENAMED");
    assert("ENTITY_RENAMED"@.len() > 1 && "ENTITY_RENAMED"@[0] == 'E' && "ENTITY_RENAMED"@[1] == 'N');
    reveal_strlit("ENTITY_ADDED");
    assert("ENTITY_ADDED"@.len() > 1 && "ENTITY_ADDED"@[0] == 'E' && "ENTITY_ADDED"@[1] == 'N');
    reveal_strlit("ENTITY_REMOVED");
    assert("ENTITY_REMOVED"@.len() > 1 && "ENTITY_REMOVED"@[0] == 'E' && "ENTITY_REMOVED"@[1] == 'N');
    reveal_strlit("DEPENDENCY_ADDED");
    assert("DEPENDENCY_ADDED"@.len() > 1 && "DEPENDENCY_ADDED"@[0] == 'D' && "DEPENDENCY_ADDED"@[1] == 'E');
    reveal_strlit("DEPENDENCY_REMOVED");
    assert("DEPENDENCY_REMOVED"@.len() > 1 && "DEPENDENCY_REMOVED"@[0] == 'D' && "DEPENDENCY_REMOVED"@[1] == 'E');
    reveal_strlit("ENTRYPOINT_ADDED");
    assert("ENTRYPOINT_ADDED"@.len() > 1 && "ENTRYPOINT_ADDED"@[0] == 'E' && "ENTRYPOINT_ADDED"@[1] == 'N');
    reveal_strlit("ENTRYPOINT_REMOVED");
    assert("ENTRYPOINT_REMOVED"@.len() > 1 && "ENTRYPOINT_REMOVED"@[0] == 'E' && "ENTRYPOINT_REMOVED"@[1] == 'N');
    reveal_strlit("EVENT_HANDLER_ADDED");
    assert("EVENT_HANDLER_ADDED"@.len() > 1 && "EVENT_HANDLER_ADDED"@[0] == 'E' && "EVENT_HANDLER_ADDED"@[1] == 'V');
    reveal_strlit("EVENT_HANDLER_REMOVED");
    assert("EVENT_HANDLER_REMOVED"@.len() > 1 && "EVENT_HANDLER_REMOVED"@[0] == 'E' && "EVENT_HANDLER_REMOVED"@[1] == 'V');
}

proof fn guard_kinds()
    ensures
        is_plain_kind("GUARD_REMOVED"@),
        is_plain_kind("GUARD_ADDED"@),
        is_plain_kind("GUARD_CHANGED"@),
        is_plain_kind("AUTH_WIDENED"@),
        is_plain_kind("AUTH_NARROWED"@),
        is_plain_kind("AUTH_CHANGED"@),
        is_plain_kind("VALIDATION_REMOVED"@),
        is_plain_kind("VALIDATION_ADDED"@),
        is_plain_kind("EFFECT_ADDED"@),
        is_plain_kind("EFFECT_MADE_ASYNC"@),
{
    reveal_strlit("GUARD_REMOVED");
    assert("GUARD_REMOVED"@.len() > 1 && "GUARD_REMOVED"@[0] == 'G' && "GUARD_REMOVED"@[1] == 'U');
    reveal_strlit("GUARD_ADDED");
    assert("GUARD_ADDED"@.len() > 1 && "GUARD_ADDED"@[0] == 'G' && "GUARD_ADDED"@[1] == 'U');
    reveal_strlit("GUARD_CHANGED");
    assert("GUARD_CHANGED"@.len() > 1 && "GUARD_CHANGED"@[0] == 'G' && "GUARD_CHANGED"@[1] == 'U');
    reveal_strlit("AUTH_WIDENED");
    assert("AUTH_WIDENED"@.len() > 1 && "AUTH_WIDENED"@[0] == 'A' && "AUTH_WIDENED"@[1] == 'U');
    reveal_strlit("AUTH_NARROWED");
    assert("AUTH_NARROWED"@.len() > 1 && "AUTH_NARROWED"@[0] == 'A' && "AUTH_NARROWED"@[1] == 'U');
    reveal_strlit("AUTH_CHANGED");
    assert("AUTH_CHANGED"@.len() > 1 && "AUTH_CHANGED"@[0] == 'A' && "AUTH_CHANGED"@[1] == 'U');
    reveal_strlit("VALIDATION_REMOVED");
    assert("VALIDATION_REMOVED"@.len() > 1 && "VALIDATION_REMOVED"@[0] == 'V' && "VALIDATION_REMOVED"@[1] == 'A');
    reveal_strlit("VALIDATION_ADDED");
    assert("VALIDATION_ADDED"@.len() > 1 && "VALIDATION_ADDED"@[0] == 'V' && "VALIDATION_ADDED"@[1] == 'A');
    reveal_strlit("EFFECT_ADDED");
    assert("EFFECT_ADDED"@.len() > 1 && "EFFECT_ADDED"@[0] == 'E' && "EFFECT_ADDED"@[1] == 'F');
    reveal_strlit("EFFECT_MADE_ASYNC");
    assert("EFFECT_MADE_ASYNC"@.len() > 1 && "EFFECT_MADE_ASYNC"@[0] == 'E' && "EFFECT_MADE_ASYNC"@[1] == 'F');
}

proof fn data_kinds()
    ensures
        is_plain_kind("EFFECT_MADE_SYNC"@),
        is_plain_kind("EFFECT_REMOVED"@),
        is_plain_kind("DATAFLOW_EXPANDED"@),
        is_plain_kind("DATAFLOW_RESTRICTED"@),
        is_plain_kind("QUERY_FILTER_CHANGED"@),
        is_plain_kind("QUERY_FILTER_REMOVED"@),
        is_plain_kind("QUERY_FILTER_ADDED"@),
        is_plain_kind("BEHAVIOUR_ADDED"@),
        is_plain_kind("SCHEMA_CHANGED"@),
        is_plain_kind("SCHEMA_FIELD_ADDED"@),
{
    reveal_strlit("EFFECT_MADE_SYNC");
    assert("EFFECT_MADE_SYNC"@.len() > 1 && "EFFECT_MADE_SYNC"@[0] == 'E' && "EFFECT_MADE_SYNC"@[1] == 'F');
    reveal_strlit("EFFECT_REMOVED");
    assert("EFFECT_REMOVED"@.len() > 1 && "EFFECT_REMOVED"@[0] == 'E' && "EFFECT_REMOVED"@[1] == 'F');
    reveal_strlit("DATAFLOW_EXPANDED");
    assert("DATAFLOW_EXPANDED"@.len() > 1 && "DATAFLOW_EXPANDED"@[0] == 'D' && "DATAFLOW_EXPANDED"@[1] == 'A');
    reveal_strlit("DATAFLOW_RESTRICTED");
    assert("DATAFLOW_RESTRICTED"@.len() > 1 && "DATAFLOW_RESTRICTED"@[0] == 'D' && "DATAFLOW_RESTRICTED"@[1] == 'A');
    reveal_strlit("QUERY_FILTER_CHANGED");
    assert("QUERY_FILTER_CHANGED"@.len() > 1 && "QUERY_FILTER_CHANGED"@[0] == 'Q' && "QUERY_FILTER_CHANGED"@[1] == 'U');
    reveal_strlit("QUERY_FILTER_REMOVED");
    assert("QUERY_FILTER_REMOVED"@.len() > 1 && "QUERY_FILTER_REMOVED"@[0] == 'Q' && "QUERY_FILTER_REMOVED"@[1] == 'U');
    reveal_strlit("QUERY_FILTER_ADDED");
    assert("QUERY_FILTER_ADDED"@.len() > 1 && "QUERY_FILTER_ADDED"@[0] == 'Q' && "QUERY_FILTER_ADDED"@[1] == 'U');
    reveal_strlit("BEHAVIOUR_ADDED");
    assert("BEHAVIOUR_ADDED"@.len() > 1 && "BEHAVIOUR_ADDED"@[0] == 'B' && "BEHAVIOUR_ADDED"@[1] == 'E');
    reveal_strlit("SCHEMA_CHANGED");
    assert("SCHEMA_CHANGED"@.len() > 1 && "SCHEMA_CHANGED"@[0] == 'S' && "SCHEMA_CHANGED"@[1] == 'C');
    reveal_strlit("SCHEMA_FIELD_ADDED");
    assert("SCHEMA_FIELD_ADDED"@.len() > 1 && "SCHEMA_FIELD_ADDED"@[0] == 'S' && "SCHEMA_FIELD_ADDED"@[1] == 'C');
}

proof fn state_kinds()
    ensures
        is_plain_kind("SCHEMA_FIELD_CHANGED"@),
        is_plain_kind("SCHEMA_FIELD_REMOVED"@),
        is_plain_kind("STATE_TRANSITION_ADDED"@),
        is_plain_kind("STATE_TRANSITION_REMOVED"@),
        is_plain_kind("STATE_TRANSITION_SOURCE_WIDENED"@),
        is_plain_kind("STATE_TRANSITION_SOURCE_NARROWED"@),
        is_plain_kind("STATE_TRANSITION_CHANGED"@),
        is_plain_kind("UNCLASSIFIED_CHANGE"@),
        is_plain_kind("LOGGING_CHANGED"@),
{
    reveal_strlit("SCHEMA_FIELD_CHANGED");
    assert("SCHEMA_FIELD_CHANGED"@.len() > 1 && "SCHEMA_FIELD_CHANGED"@[0] == 'S' && "SCHEMA_FIELD_CHANGED"@[1] == 'C');
    reveal_strlit("SCHEMA_FIELD_REMOVED");
    assert("SCHEMA_FIELD_REMOVED"@.len() > 1 && "SCHEMA_FIELD_REMOVED"@[0] == 'S' && "SCHEMA_FIELD_REMOVED"@[1] == 'C');
    reveal_strlit("STATE_TRANSITION_ADDED");
    assert("STATE_TRANSITION_ADDED"@.len() > 1 && "STATE_TRANSITION_ADDED"@[0] == 'S' && "STATE_TRANSITION_ADDED"@[1] == 'T');
    reveal_strlit("STATE_TRANSITION_REMOVED");
    assert("STATE_TRANSITION_REMOVED"@.len() > 1 && "STATE_TRANSITION_REMOVED"@[0] == 'S' && "STATE_TRANSITION_REMOVED"@[1] == 'T');
    reveal_strlit("STATE_TRANSITION_SOURCE_WIDENED");
    assert("STATE_TRANSITION_SOURCE_WIDENED"@.len() > 1 && "STATE_TRANSITION_SOURCE_WIDENED"@[0] == 'S' && "STATE_TRANSITION_SOURCE_WIDENED"@[1] == 'T');
    reveal_strlit("STATE_TRANSITION_SOURCE_NARROWED");
    assert("STATE_TRANSITION_SOURCE_NARROWED"@.len() > 1 && "STATE_TRANSITION_SOURCE_NARROWED"@[0] == 'S' && "STATE_TRANSITION_SOURCE_NARROWED"@[1] == 'T');
    reveal_strlit("STATE_TRANSITION_CHANGED");
    assert("STATE_TRANSITION_CHANGED"@.len() > 1 && "STATE_TRANSITION_CHANGED"@[0] == 'S' && "STATE_TRANSITION_CHANGED"@[1] == 'T');
    reveal_strlit("UNCLASSIFIED_CHANGE");
    assert("UNCLASSIFIED_CHANGE"@.len() > 1 && "UNCLASSIFIED_CHANGE"@[0] == 'U' && "UNCLASSIFIED_CHANGE"@[1] == 'N');
    reveal_strlit("LOGGING_CHANGED");
    assert("LOGGING_CHANGED"@.len() > 1 && "LOGGING_CHANGED"@[0] == 'L' && "LOGGING_CHANGED"@[1] == 'O');
}

proof fn kinds_are_plain()
    ensures
        is_plain_kind("ENTITY_MOVED"@),
        is_plain_kind("ENTITY_RENAMED"@),
        is_plain_kind("ENTITY_ADDED"@),
        is_plain_kind("ENTITY_REMOVED"@),
        is_plain_kind("DEPENDENCY_ADDED"@),
        is_plain_kind("DEPENDENCY_REMOVED"@),
        is_plain_kind("ENTRYPOINT_ADDED"@),
        is_plain_kind("ENTRYPOINT_REMOVED"@),
        is_plain_kind("EVENT_HANDLER_ADDED"@),
        is_plain_kind("EVENT_HANDLER_REMOVED"@),
        is_plain_kind("GUARD_REMOVED"@),
        is_plain_kind("GUARD_ADDED"@),
        is_plain_kind("GUARD_CHANGED"@),
        is_plain_kind("AUTH_WIDENED"@),
        is_plain_kind("AUTH_NARROWED"@),
        is_plain_kind("AUTH_CHANGED"@),
        is_plain_kind("VALIDATION_REMOVED"@),
        is_plain_kind("VALIDATION_ADDED"@),
        is_plain_kind("EFFECT_ADDED"@),
        is_plain_kind("EFFECT_MADE_ASYNC"@),
        is_plain_kind("EFFECT_MADE_SYNC"@),
        is_plain_kind("EFFECT_REMOVED"@),
        is_plain_kind("DATAFLOW_EXPANDED"@),
        is_plain_kind("DATAFLOW_RESTRICTED"@),
        is_plain_kind("QUERY_FILTER_CHANGED"@),
        is_plain_kind("QUERY_FILTER_REMOVED"@),
        is_plain_kind("QUERY_FILTER_ADDED"@),
        is_plain_kind("BEHAVIOUR_ADDED"@),
        is_plain_kind("SCHEMA_CHANGED"@),
        is_plain_kind("SCHEMA_FIELD_ADDED"@),
        is_plain_kind("SCHEMA_FIELD_CHANGED"@),
        is_plain_kind("SCHEMA_FIELD_REMOVED"@),
        is_plain_kind("STATE_TRANSITION_ADDED"@),
        is_plain_kind("STATE_TRANSITION_REMOVED"@),
        is_plain_kind("STATE_TRANSITION_SOURCE_WIDENED"@),
        is_plain_kind("STATE_TRANSITION_SOURCE_NARROWED"@),
        is_plain_kind("STATE_TRANSITION_CHANGED"@),
        is_plain_kind("UNCLASSIFIED_CHANGE"@),
        is_plain_kind("LOGGING_CHANGED"@),
{
    structure_kinds();
    guard_kinds();
    data_kinds();
    state_kinds();
}

// ---- operations found in the code

/// An operation that comes from the code alone, with a place.
spec fn is_plain(op: OpView) -> bool {
    is_backed(op) && op.origin == Origin::Static && 0 < op.confidence <= 100 && is_plain_kind(
        op.kind,
    )
}

spec fn all_plain(ops: Seq<OpView>) -> bool {
    forall|i: int| 0 <= i < ops.len() ==> is_plain(#[trigger] ops[i])
}

proof fn plain_is_told(ops: Seq<OpView>)
    requires
        all_plain(ops),
    ensures
        all_told(ops),
{
    assert forall|i: int| 0 <= i < ops.len() implies is_backed(#[trigger] ops[i]) && is_honest(
        ops[i],
    ) by {
        plain_is_no_rule(ops[i].kind);
    }
}

proof fn plain_add_up(a: Seq<OpView>, b: Seq<OpView>)
    requires
        all_plain(a),
        all_plain(b),
    ensures
        all_plain(a + b),
{
    assert forall|i: int| 0 <= i < (a + b).len() implies is_plain(#[trigger] (a + b)[i]) by {
        if i < a.len() {
            assert(is_plain(a[i]));
        } else {
            assert(is_plain(b[i - a.len()]));
        }
    }
}

proof fn told_add_up(a: Seq<OpView>, b: Seq<OpView>)
    requires
        all_told(a),
        all_told(b),
    ensures
        all_told(a + b),
{
    assert forall|i: int| 0 <= i < (a + b).len() implies is_backed(#[trigger] (a + b)[i])
        && is_honest((a + b)[i]) by {
        if i < a.len() {
            assert(is_backed(a[i]));
        } else {
            assert(is_backed(b[i - a.len()]));
        }
    }
}

proof fn class_moves_told(
    a: ModelView,
    b: ModelView,
    pairs: Seq<(Text, Text)>,
    i: int,
)
    ensures
        all_plain(class_moves(a, b, pairs, i)),
    decreases pairs.len() - i,
{
    if 0 <= i < pairs.len() {
        kinds_are_plain();
        class_moves_told(a, b, pairs, i + 1);
        let whole = class_moves(a, b, pairs, i);
        let rest = class_moves(a, b, pairs, i + 1);
        let n = whole.len() - rest.len();
        assert forall|j: int| 0 <= j < whole.len() implies is_plain(#[trigger] whole[j]) by {
            if j >= n {
                assert(whole[j] == rest[j - n]);
                assert(is_plain(rest[j - n]));
            }
        }
    }
}

proof fn function_moves_told(
    a: ModelView,
    b: ModelView,
    pairs: Seq<(Text, Text)>,
    i: int,
)
    ensures
        all_plain(function_moves(a, b, pairs, i)),
    decreases pairs.len() - i,
{
    if 0 <= i < pairs.len() {
        kinds_are_plain();
        function_moves_told(a, b, pairs, i + 1);
        let whole = function_moves(a, b, pairs, i);
        let rest = function_moves(a, b, pairs, i + 1);
        let n = whole.len() - rest.len();
        assert forall|j: int| 0 <= j < whole.len() implies is_plain(#[trigger] whole[j]) by {
            if j >= n {
                assert(whole[j] == rest[j - n]);
                assert(is_plain(rest[j - n]));
            }
        }
    }
}

proof fn class_gains_told(
    a: ModelView,
    b: ModelView,
    m: MatchingView,
    i: int,
)
    ensures
        all_plain(class_gains(a, b, m, i)),
    decreases b.classes.len() - i,
{
    if 0 <= i < b.classes.len() {
        kinds_are_plain();
        class_gains_told(a, b, m, i + 1);
        let whole = class_gains(a, b, m, i);
        let rest = class_gains(a, b, m, i + 1);
        let n = whole.len() - rest.len();
        assert forall|j: int| 0 <= j < whole.len() implies is_plain(#[trigger] whole[j]) by {
            if j >= n {
                assert(whole[j] == rest[j - n]);
                assert(is_plain(rest[j - n]));
            }
        }
    }
}

proof fn class_losses_told(
    a: ModelView,
    b: ModelView,
    m: MatchingView,
    i: int,
)
    ensures
        all_plain(class_losses(a, b, m, i)),
    decreases a.classes.len() - i,
{
    if 0 <= i < a.classes.len() {
        kinds_are_plain();
        class_losses_told(a, b, m, i + 1);
        let whole = class_losses(a, b, m, i);
        let rest = class_losses(a, b, m, i + 1);
        let n = whole.len() - rest.len();
        assert forall|j: int| 0 <= j < whole.len() implies is_plain(#[trigger] whole[j]) by {
            if j >= n {
                assert(whole[j] == rest[j - n]);
                assert(is_plain(rest[j - n]));
            }
        }
    }
}

proof fn entity_changes_told(
    kind: Text,
    entities: Seq<(Text, EntityView)>,
    known: Seq<(Text, Text)>,
    covered: Seq<Text>,
    came: bool,
    i: int,
)
    requires
        is_plain_kind(kind),
    ensures
        all_plain(entity_changes(kind, entities, known, covered, came, i)),
    decreases entities.len() - i,
{
    if 0 <= i < entities.len() {
        kinds_are_plain();
        entity_changes_told(kind, entities, known, covered, came, i + 1);
        let whole = entity_changes(kind, entities, known, covered, came, i);
        let rest = entity_changes(kind, entities, known, covered, came, i + 1);
        let n = whole.len() - rest.len();
        assert forall|j: int| 0 <= j < whole.len() implies is_plain(#[trigger] whole[j]) by {
            if j >= n {
                assert(whole[j] == rest[j - n]);
                assert(is_plain(rest[j - n]));
            }
        }
    }
}

proof fn dep_changes_told(
    kind: Text,
    here: Seq<((Text, Text), Seq<LocView>)>,
    there: Seq<((Text, Text), Seq<LocView>)>,
    came: bool,
    i: int,
)
    requires
        is_plain_kind(kind),
        grounded_deps(here),
    ensures
        all_plain(dep_changes(kind, here, there, came, i)),
    decreases here.len() - i,
{
    if 0 <= i < here.len() {
        kinds_are_plain();
        dep_changes_told(kind, here, there, came, i + 1);
        assert(here[i].1.len() > 0);
        let whole = dep_changes(kind, here, there, came, i);
        let rest = dep_changes(kind, here, there, came, i + 1);
        let n = whole.len() - rest.len();
        assert forall|j: int| 0 <= j < whole.len() implies is_plain(#[trigger] whole[j]) by {
            if j >= n {
                assert(whole[j] == rest[j - n]);
                assert(is_plain(rest[j - n]));
            }
        }
    }
}

proof fn route_gains_told(
    b: ModelView,
    here: Seq<(Text, RouteView)>,
    there: Seq<(Text, RouteView)>,
    i: int,
)
    ensures
        all_plain(route_gains(b, here, there, i)),
    decreases here.len() - i,
{
    if 0 <= i < here.len() {
        kinds_are_plain();
        route_gains_told(b, here, there, i + 1);
        let whole = route_gains(b, here, there, i);
        let rest = route_gains(b, here, there, i + 1);
        let n = whole.len() - rest.len();
        assert forall|j: int| 0 <= j < whole.len() implies is_plain(#[trigger] whole[j]) by {
            if j >= n {
                assert(whole[j] == rest[j - n]);
                assert(is_plain(rest[j - n]));
            }
        }
    }
}

proof fn route_losses_told(
    here: Seq<(Text, RouteView)>,
    there: Seq<(Text, RouteView)>,
    i: int,
)
    ensures
        all_plain(route_losses(here, there, i)),
    decreases here.len() - i,
{
    if 0 <= i < here.len() {
        kinds_are_plain();
        route_losses_told(here, there, i + 1);
        let whole = route_losses(here, there, i);
        let rest = route_losses(here, there, i + 1);
        let n = whole.len() - rest.len();
        assert forall|j: int| 0 <= j < whole.len() implies is_plain(#[trigger] whole[j]) by {
            if j >= n {
                assert(whole[j] == rest[j - n]);
                assert(is_plain(rest[j - n]));
            }
        }
    }
}

proof fn handler_gains_told(
    b: ModelView,
    known: Seq<(Text, Text)>,
    i: int,
)
    ensures
        all_plain(handler_gains(b, known, i)),
    decreases b.subscriptions.len() - i,
{
    if 0 <= i < b.subscriptions.len() {
        kinds_are_plain();
        handler_gains_told(b, known, i + 1);
        let whole = handler_gains(b, known, i);
        let rest = handler_gains(b, known, i + 1);
        let n = whole.len() - rest.len();
        assert forall|j: int| 0 <= j < whole.len() implies is_plain(#[trigger] whole[j]) by {
            if j >= n {
                assert(whole[j] == rest[j - n]);
                assert(is_plain(rest[j - n]));
            }
        }
    }
}

proof fn handler_losses_told(
    a: ModelView,
    renamed: Seq<(Text, Text)>,
    known: Seq<(Text, Text)>,
    i: int,
)
    ensures
        all_plain(handler_losses(a, renamed, known, i)),
    decreases a.subscriptions.len() - i,
{
    if 0 <= i < a.subscriptions.len() {
        kinds_are_plain();
        handler_losses_told(a, renamed, known, i + 1);
        let whole = handler_losses(a, renamed, known, i);
        let rest = handler_losses(a, renamed, known, i + 1);
        let n = whole.len() - rest.len();
        assert forall|j: int| 0 <= j < whole.len() implies is_plain(#[trigger] whole[j]) by {
            if j >= n {
                assert(whole[j] == rest[j - n]);
                assert(is_plain(rest[j - n]));
            }
        }
    }
}

proof fn renamed_deps_grounded(
    deps: Seq<((Text, Text), Seq<LocView>)>,
    modules: Seq<(Text, Text)>,
    i: int,
    acc: Seq<((Text, Text), Seq<LocView>)>,
)
    requires
        grounded_deps(deps),
        grounded_deps(acc),
    ensures
        grounded_deps(renamed_deps(deps, modules, i, acc)),
    decreases deps.len() - i,
{
    if 0 <= i < deps.len() {
        let k = (new_name(modules, deps[i].0.0), new_name(modules, deps[i].0.1));
        let next = put(acc, k, deps[i].1);
        put_values(acc, k, deps[i].1);
        assert(deps[i].1.len() > 0);
        assert forall|n: int| 0 <= n < next.len() implies (#[trigger] next[n]).1.len() > 0 by {
            if next[n].1 != deps[i].1 {
                let o = choose|o: int| 0 <= o < acc.len() && acc[o] == next[n];
                assert(acc[o].1.len() > 0);
            }
        }
        renamed_deps_grounded(deps, modules, i + 1, next);
    }
}

proof fn structure_told(a: ModelView, b: ModelView, m: MatchingView)
    requires
        grounded_deps(a.module_deps),
        grounded_deps(b.module_deps),
    ensures
        all_plain(structure_changes(a, b, m)),
        all_plain(surface_changes(a, b, m)),
{
    kinds_are_plain();
    let none = Seq::<((Text, Text), Seq<LocView>)>::empty();
    assert(none =~= seq![]);
    let deps = renamed_deps(a.module_deps, m.modules, 0, seq![]);
    renamed_deps_grounded(a.module_deps, m.modules, 0, none);
    let s0 = class_moves(a, b, m.moved_classes, 0);
    let s1 = function_moves(a, b, m.moved_functions, 0);
    let s2 = class_gains(a, b, m, 0);
    let new = new_methods(a, b, m, 0, seq![]);
    let s3 = entity_changes("ENTITY_ADDED"@, b.entities, m.backward, new, true, 0);
    let lost = lost_methods(a, b, m, 0, moved_methods(a, m.moved_classes, 0, seq![]));
    let s4 = entity_changes("ENTITY_REMOVED"@, a.entities, m.forward, lost, false, 0);
    let s5 = class_losses(a, b, m, 0);
    let s6 = dep_changes("DEPENDENCY_ADDED"@, b.module_deps, deps, true, 0);
    let s7 = dep_changes("DEPENDENCY_REMOVED"@, deps, b.module_deps, false, 0);
    class_moves_told(a, b, m.moved_classes, 0);
    function_moves_told(a, b, m.moved_functions, 0);
    class_gains_told(a, b, m, 0);
    entity_changes_told("ENTITY_ADDED"@, b.entities, m.backward, new, true, 0);
    entity_changes_told("ENTITY_REMOVED"@, a.entities, m.forward, lost, false, 0);
    class_losses_told(a, b, m, 0);
    dep_changes_told("DEPENDENCY_ADDED"@, b.module_deps, deps, true, 0);
    dep_changes_told("DEPENDENCY_REMOVED"@, deps, b.module_deps, false, 0);
    plain_add_up(s0, s1);
    plain_add_up(s0 + s1, s2);
    plain_add_up(s0 + s1 + s2, s3);
    plain_add_up(s0 + s1 + s2 + s3, s4);
    plain_add_up(s0 + s1 + s2 + s3 + s4, s5);
    plain_add_up(s0 + s1 + s2 + s3 + s4 + s5, s6);
    plain_add_up(s0 + s1 + s2 + s3 + s4 + s5 + s6, s7);
    let ra = routes_by_key(a.routes, 0, seq![]);
    let rb = routes_by_key(b.routes, 0, seq![]);
    let ka = handlers_from(a.subscriptions, m.forward, 0, seq![]);
    let kb = handlers_from(b.subscriptions, seq![], 0, seq![]);
    route_gains_told(b, rb, ra, 0);
    route_losses_told(ra, rb, 0);
    handler_gains_told(b, ka, 0);
    handler_losses_told(a, m.forward, kb, 0);
    let t0 = route_gains(b, rb, ra, 0);
    let t1 = route_losses(ra, rb, 0);
    let t2 = handler_gains(b, ka, 0);
    plain_add_up(t0, t1);
    plain_add_up(t0 + t1, t2);
    plain_add_up(t0 + t1 + t2, handler_losses(a, m.forward, kb, 0));
}

// ---- changed entities

proof fn guards_held_told(
    subject: Text,
    ga: Seq<(Text, PredView, LocView)>,
    gb: Seq<(Text, PredView, LocView)>,
    i: int,
    ops: Seq<OpView>,
    taken: Seq<usize>,
)
    requires
        all_plain(ops),
    ensures
        all_plain(guards_held(subject, ga, gb, i, ops, taken).0),
    decreases ga.len() - i,
{
    if 0 <= i < ga.len() {
        kinds_are_plain();
        let (ka, pa, la) = ga[i];
        let (next, held) = match guard_at(gb, ka, 0) {
            Some(k) => (
                if pa != gb[k].1 && auth_pred(pa) {
                    ops.push(auth_changed(subject, pa, gb[k].1, la, gb[k].2))
                } else {
                    ops
                },
                taken.push(k as usize),
            ),
            None => match rival_at(gb, taken, pa, 0) {
                Some(k) => (
                    ops.push(auth_changed(subject, pa, gb[k].1, la, gb[k].2)),
                    taken.push(k as usize),
                ),
                None => (
                    ops.push(
                        found(
                            "GUARD_REMOVED"@,
                            Layer::Behaviour,
                            subject,
                            Some(pred_text(pa)),
                            None,
                            seq![la],
                            seq![],
                        ),
                    ),
                    taken,
                ),
            },
        };
        assert forall|j: int| 0 <= j < next.len() implies is_plain(#[trigger] next[j]) by {
            if j < ops.len() {
                assert(is_plain(ops[j]));
            }
        }
        guards_held_told(subject, ga, gb, i + 1, next, held);
    }
}

proof fn guard_gains_told(
    subject: Text,
    gb: Seq<(Text, PredView, LocView)>,
    taken: Seq<usize>,
    i: int,
)
    ensures
        all_plain(guard_gains(subject, gb, taken, i)),
    decreases gb.len() - i,
{
    if 0 <= i < gb.len() {
        kinds_are_plain();
        guard_gains_told(subject, gb, taken, i + 1);
        let whole = guard_gains(subject, gb, taken, i);
        let rest = guard_gains(subject, gb, taken, i + 1);
        let n = whole.len() - rest.len();
        assert forall|j: int| 0 <= j < whole.len() implies is_plain(#[trigger] whole[j]) by {
            if j >= n {
                assert(whole[j] == rest[j - n]);
                assert(is_plain(rest[j - n]));
            }
        }
    }
}

proof fn check_losses_told(
    subject: Text,
    va: Seq<(Text, LocView)>,
    vb: Seq<(Text, LocView)>,
    i: int,
)
    ensures
        all_plain(check_losses(subject, va, vb, i)),
    decreases va.len() - i,
{
    if 0 <= i < va.len() {
        kinds_are_plain();
        check_losses_told(subject, va, vb, i + 1);
        let whole = check_losses(subject, va, vb, i);
        let rest = check_losses(subject, va, vb, i + 1);
        let n = whole.len() - rest.len();
        assert forall|j: int| 0 <= j < whole.len() implies is_plain(#[trigger] whole[j]) by {
            if j >= n {
                assert(whole[j] == rest[j - n]);
                assert(is_plain(rest[j - n]));
            }
        }
    }
}

proof fn check_gains_told(
    subject: Text,
    va: Seq<(Text, LocView)>,
    vb: Seq<(Text, LocView)>,
    i: int,
)
    ensures
        all_plain(check_gains(subject, va, vb, i)),
    decreases vb.len() - i,
{
    if 0 <= i < vb.len() {
        kinds_are_plain();
        check_gains_told(subject, va, vb, i + 1);
        let whole = check_gains(subject, va, vb, i);
        let rest = check_gains(subject, va, vb, i + 1);
        let n = whole.len() - rest.len();
        assert forall|j: int| 0 <= j < whole.len() implies is_plain(#[trigger] whole[j]) by {
            if j >= n {
                assert(whole[j] == rest[j - n]);
                assert(is_plain(rest[j - n]));
            }
        }
    }
}

proof fn effect_gains_told(
    subject: Text,
    sa: Seq<(EffectKeyView, EffectInfoView)>,
    sb: Seq<(EffectKeyView, EffectInfoView)>,
    i: int,
)
    requires
        grounded_effects(sb),
    ensures
        all_plain(effect_gains(subject, sa, sb, i)),
    decreases sb.len() - i,
{
    if 0 <= i < sb.len() {
        kinds_are_plain();
        effect_gains_told(subject, sa, sb, i + 1);
        assert(sb[i].1.evidence.len() > 0);
        let whole = effect_gains(subject, sa, sb, i);
        let rest = effect_gains(subject, sa, sb, i + 1);
        let n = whole.len() - rest.len();
        assert forall|j: int| 0 <= j < whole.len() implies is_plain(#[trigger] whole[j]) by {
            if j >= n {
                assert(whole[j] == rest[j - n]);
                assert(is_plain(rest[j - n]));
            }
        }
    }
}

proof fn effect_losses_told(
    subject: Text,
    forward: Seq<(Text, Text)>,
    sa: Seq<(EffectKeyView, EffectInfoView)>,
    sb: Seq<(EffectKeyView, EffectInfoView)>,
    va: Seq<(Text, LocView)>,
    vb: Seq<(Text, LocView)>,
    i: int,
)
    requires
        grounded_effects(sa),
    ensures
        all_plain(effect_losses(subject, forward, sa, sb, va, vb, i)),
    decreases sa.len() - i,
{
    if 0 <= i < sa.len() {
        kinds_are_plain();
        effect_losses_told(subject, forward, sa, sb, va, vb, i + 1);
        assert(sa[i].1.evidence.len() > 0);
        let whole = effect_losses(subject, forward, sa, sb, va, vb, i);
        let rest = effect_losses(subject, forward, sa, sb, va, vb, i + 1);
        let n = whole.len() - rest.len();
        assert forall|j: int| 0 <= j < whole.len() implies is_plain(#[trigger] whole[j]) by {
            if j >= n {
                assert(whole[j] == rest[j - n]);
                assert(is_plain(rest[j - n]));
            }
        }
    }
}

proof fn filter_changes_told(
    subject: Text,
    pairs: Seq<(QueryFilterView, QueryFilterView)>,
    i: int,
)
    ensures
        all_plain(filter_changes(subject, pairs, i)),
    decreases pairs.len() - i,
{
    if 0 <= i < pairs.len() {
        kinds_are_plain();
        filter_changes_told(subject, pairs, i + 1);
        let whole = filter_changes(subject, pairs, i);
        let rest = filter_changes(subject, pairs, i + 1);
        let n = whole.len() - rest.len();
        assert forall|j: int| 0 <= j < whole.len() implies is_plain(#[trigger] whole[j]) by {
            if j >= n {
                assert(whole[j] == rest[j - n]);
                assert(is_plain(rest[j - n]));
            }
        }
    }
}

proof fn filter_losses_told(
    subject: Text,
    gone: Seq<QueryFilterView>,
    i: int,
)
    ensures
        all_plain(filter_losses(subject, gone, i)),
    decreases gone.len() - i,
{
    if 0 <= i < gone.len() {
        kinds_are_plain();
        filter_losses_told(subject, gone, i + 1);
        let whole = filter_losses(subject, gone, i);
        let rest = filter_losses(subject, gone, i + 1);
        let n = whole.len() - rest.len();
        assert forall|j: int| 0 <= j < whole.len() implies is_plain(#[trigger] whole[j]) by {
            if j >= n {
                assert(whole[j] == rest[j - n]);
                assert(is_plain(rest[j - n]));
            }
        }
    }
}

proof fn filter_gains_told(
    subject: Text,
    fresh: Seq<QueryFilterView>,
    i: int,
)
    ensures
        all_plain(filter_gains(subject, fresh, i)),
    decreases fresh.len() - i,
{
    if 0 <= i < fresh.len() {
        kinds_are_plain();
        filter_gains_told(subject, fresh, i + 1);
        let whole = filter_gains(subject, fresh, i);
        let rest = filter_gains(subject, fresh, i + 1);
        let n = whole.len() - rest.len();
        assert forall|j: int| 0 <= j < whole.len() implies is_plain(#[trigger] whole[j]) by {
            if j >= n {
                assert(whole[j] == rest[j - n]);
                assert(is_plain(rest[j - n]));
            }
        }
    }
}

proof fn facts_only_none(here: Seq<(Text, AccessFactView)>, there: Seq<(Text, AccessFactView)>, i: int, k: int)
    requires
        0 <= i <= k < here.len(),
        facts_only(here, there, i).len() == 0,
    ensures
        lookup(there, here[k].0) is Some,
    decreases k - i,
{
    if i < k {
        facts_only_none(here, there, i + 1, k);
    }
}

proof fn access_told(subject: Text, a: Seq<(Text, AccessFactView)>, b: Seq<(Text, AccessFactView)>)
    requires
        ascending(a),
        ascending(b),
    ensures
        all_plain(access_changed(subject, a, b)),
{
    kinds_are_plain();
    if keys(a) != keys(b) {
        let gone = facts_only(a, b, 0);
        let fresh = facts_only(b, a, 0);
        if gone.len() == 0 && fresh.len() == 0 {
            keys_rise(a);
            keys_rise(b);
            assert forall|k: Text| #[trigger] keys(a).contains(k) == keys(b).contains(k) by {
                if keys(a).contains(k) {
                    let n = choose|n: int| 0 <= n < keys(a).len() && keys(a)[n] == k;
                    facts_only_none(a, b, 0, n);
                    assert(a[n].0 == k);
                }
                if keys(b).contains(k) {
                    let n = choose|n: int| 0 <= n < keys(b).len() && keys(b)[n] == k;
                    facts_only_none(b, a, 0, n);
                    assert(b[n].0 == k);
                }
            }
            sets_with_same_members(keys(a), keys(b));
        }
    }
}

proof fn entity_told(
    a: ModelView,
    b: ModelView,
    forward: Seq<(Text, Text)>,
    pair: (Text, Text),
    ea: EntityView,
    eb: EntityView,
    sa: SummaryView,
    sb: SummaryView,
)
    requires
        grounded_effects(sa.effects),
        grounded_effects(sb.effects),
        ascending(sa.access),
        ascending(sb.access),
    ensures
        all_plain(entity_ops(a, b, forward, pair, ea, eb, sa, sb)),
{
    kinds_are_plain();
    let s = pair.1;
    let va = renamed_checks(sa.validations, forward, 0, seq![]);
    let vb = sb.validations;
    let (fa, fb) = pair_filters(a, b, ea, pair);
    let ga = relevant_guards(a, b, ea, eb, forward, sa.requirements, 0);
    let gb = relevant_guards(a, b, ea, eb, seq![], sb.requirements, 0);
    let t0 = rule_change(s, ea, eb);
    assert(all_plain(t0));
    let none = Seq::<OpView>::empty();
    assert(none =~= seq![]);
    guards_held_told(s, ga, gb, 0, none, seq![]);
    let (held, taken) = guards_held(s, ga, gb, 0, seq![], seq![]);
    guard_gains_told(s, gb, taken, 0);
    plain_add_up(held, guard_gains(s, gb, taken, 0));
    let t1 = guard_changes(s, ga, gb);
    let t2 = check_losses(s, va, vb, 0);
    let t3 = check_gains(s, va, vb, 0);
    let t4 = effect_gains(s, sa.effects, sb.effects, 0);
    let t5 = effect_losses(s, forward, sa.effects, sb.effects, va, vb, 0);
    let t6 = data_changes(s, sa, sb, ea.loc, eb.loc);
    assert(all_plain(t6));
    check_losses_told(s, va, vb, 0);
    check_gains_told(s, va, vb, 0);
    effect_gains_told(s, sa.effects, sb.effects, 0);
    effect_losses_told(s, forward, sa.effects, sb.effects, va, vb, 0);
    let (gone, fresh, pairs) = filters_sorted(fa, fb);
    filter_changes_told(s, pairs, 0);
    filter_losses_told(s, gone, 0);
    filter_gains_told(s, fresh, 0);
    plain_add_up(filter_changes(s, pairs, 0), filter_losses(s, gone, 0));
    plain_add_up(
        filter_changes(s, pairs, 0) + filter_losses(s, gone, 0),
        filter_gains(s, fresh, 0),
    );
    let t7 = filters_changed(s, fa, fb);
    access_told(s, sa.access, sb.access);
    let t8 = access_changed(s, sa.access, sb.access);
    plain_add_up(t0, t1);
    plain_add_up(t0 + t1, t2);
    plain_add_up(t0 + t1 + t2, t3);
    plain_add_up(t0 + t1 + t2 + t3, t4);
    plain_add_up(t0 + t1 + t2 + t3 + t4, t5);
    plain_add_up(t0 + t1 + t2 + t3 + t4 + t5, t6);
    plain_add_up(t0 + t1 + t2 + t3 + t4 + t5 + t6, t7);
    plain_add_up(t0 + t1 + t2 + t3 + t4 + t5 + t6 + t7, t8);
}

proof fn summary_is_grounded(sums: Seq<(Text, SummaryView)>, id: Text)
    requires
        grounded_summaries(sums),
    ensures
        lookup(sums, id) matches Some(s) ==> grounded_effects(s.effects) && ascending(s.access),
{
    slot_bounds(sums, id);
}

proof fn pair_told(a: ModelView, b: ModelView, forward: Seq<(Text, Text)>, pair: (Text, Text))
    requires
        grounded_summaries(a.summaries),
        grounded_summaries(b.summaries),
    ensures
        all_plain(pair_ops(a, b, forward, pair)),
{
    match changed_pair(a, b, pair) {
        Some((ea, eb, sa, sb)) => {
            summary_is_grounded(a.summaries, pair.0);
            summary_is_grounded(b.summaries, pair.1);
            entity_told(a, b, forward, pair, ea, eb, sa, sb);
            let ops = entity_ops(a, b, forward, pair, ea, eb, sa, sb);
            let whole = with_affects(ops, entry_points(b, pair.1));
            assert forall|j: int| 0 <= j < whole.len() implies is_plain(#[trigger] whole[j]) by {
                assert(is_plain(ops[j]));
            }
        },
        None => {},
    }
}

proof fn pairs_told(
    a: ModelView,
    b: ModelView,
    forward: Seq<(Text, Text)>,
    i: int,
)
    requires
        grounded_summaries(a.summaries),
        grounded_summaries(b.summaries),
    ensures
        all_plain(pairs_ops(a, b, forward, i)),
    decreases forward.len() - i,
{
    if 0 <= i < forward.len() {
        kinds_are_plain();
        pairs_told(a, b, forward, i + 1);
        pair_told(a, b, forward, forward[i]);
        plain_add_up(pair_ops(a, b, forward, forward[i]), pairs_ops(a, b, forward, i + 1));
        let whole = pairs_ops(a, b, forward, i);
        let rest = pairs_ops(a, b, forward, i + 1);
        let n = whole.len() - rest.len();
        assert forall|j: int| 0 <= j < whole.len() implies is_plain(#[trigger] whole[j]) by {
            if j >= n {
                assert(whole[j] == rest[j - n]);
                assert(is_plain(rest[j - n]));
            }
        }
    }
}

// ---- new code, schemas and states

proof fn new_code_told(
    b: ModelView,
    m: MatchingView,
    changed: Seq<Text>,
    i: int,
)
    ensures
        all_plain(new_code(b, m, changed, i)),
    decreases b.entities.len() - i,
{
    if 0 <= i < b.entities.len() {
        kinds_are_plain();
        new_code_told(b, m, changed, i + 1);
        let whole = new_code(b, m, changed, i);
        let rest = new_code(b, m, changed, i + 1);
        let n = whole.len() - rest.len();
        assert forall|j: int| 0 <= j < whole.len() implies is_plain(#[trigger] whole[j]) by {
            if j >= n {
                assert(whole[j] == rest[j - n]);
                assert(is_plain(rest[j - n]));
            }
        }
    }
}

proof fn field_gains_told(
    key: Text,
    sa: SchemaFactView,
    sb: SchemaFactView,
    i: int,
)
    ensures
        all_plain(field_gains(key, sa, sb, i)),
    decreases sb.fields.len() - i,
{
    if 0 <= i < sb.fields.len() {
        kinds_are_plain();
        field_gains_told(key, sa, sb, i + 1);
        let whole = field_gains(key, sa, sb, i);
        let rest = field_gains(key, sa, sb, i + 1);
        let n = whole.len() - rest.len();
        assert forall|j: int| 0 <= j < whole.len() implies is_plain(#[trigger] whole[j]) by {
            if j >= n {
                assert(whole[j] == rest[j - n]);
                assert(is_plain(rest[j - n]));
            }
        }
    }
}

proof fn field_losses_told(
    key: Text,
    sa: SchemaFactView,
    sb: SchemaFactView,
    i: int,
)
    ensures
        all_plain(field_losses(key, sa, sb, i)),
    decreases sa.fields.len() - i,
{
    if 0 <= i < sa.fields.len() {
        kinds_are_plain();
        field_losses_told(key, sa, sb, i + 1);
        let whole = field_losses(key, sa, sb, i);
        let rest = field_losses(key, sa, sb, i + 1);
        let n = whole.len() - rest.len();
        assert forall|j: int| 0 <= j < whole.len() implies is_plain(#[trigger] whole[j]) by {
            if j >= n {
                assert(whole[j] == rest[j - n]);
                assert(is_plain(rest[j - n]));
            }
        }
    }
}

proof fn schemas_told(a: ModelView, b: ModelView, modules: Seq<(Text, Text)>, i: int)
    ensures
        all_plain(schema_changes(a, b, modules, i)),
    decreases b.schemas.len() - i,
{
    if 0 <= i < b.schemas.len() {
        schemas_told(a, b, modules, i + 1);
        let (key, sb) = b.schemas[i];
        let (module, name) = schema_name(key);
        let head = match old_schema(a.schemas, modules, module, name, 0) {
            Some(sa) => {
                field_gains_told(key, sa, sb, 0);
                field_losses_told(key, sa, sb, 0);
                plain_add_up(field_gains(key, sa, sb, 0), field_losses(key, sa, sb, 0));
                field_gains(key, sa, sb, 0) + field_losses(key, sa, sb, 0)
            },
            None => seq![],
        };
        plain_add_up(head, schema_changes(a, b, modules, i + 1));
    }
}

proof fn sources_have_places(edges: Seq<StateEdgeView>, to: Text, i: int, acc: Seq<Text>)
    requires
        places_to(edges, to, i).len() == 0,
    ensures
        sources_from(edges, to, i, acc) == acc,
    decreases edges.len() - i,
{
    if 0 <= i < edges.len() {
        sources_have_places(edges, to, i + 1, acc);
    }
}

proof fn ways_have_places(sm: Option<StateMachineView>, to: Text)
    ensures
        states::places_of(sm, to).len() == 0 ==> ways_to(sm, to).len() == 0,
{
    match sm {
        Some(s) => {
            let none = Seq::<Text>::empty();
            assert(none =~= seq![]);
            if states::places_of(sm, to).len() == 0 {
                sources_have_places(s.edges, to, 0, none);
            }
        },
        None => {},
    }
}

proof fn state_told(
    b: ModelView,
    field: Text,
    sma: Option<StateMachineView>,
    smb: Option<StateMachineView>,
    to: Text,
)
    ensures
        all_plain(state_change(b, field, sma, smb, to)),
{
    kinds_are_plain();
    ways_have_places(sma, to);
    ways_have_places(smb, to);
    assert(ways_to(sma, to).len() == 0 && ways_to(smb, to).len() == 0 ==> ways_to(sma, to)
        =~= ways_to(smb, to));
}

proof fn machine_told(
    b: ModelView,
    field: Text,
    sma: Option<StateMachineView>,
    smb: Option<StateMachineView>,
    reached: Seq<Text>,
    i: int,
)
    ensures
        all_plain(machine_changes(b, field, sma, smb, reached, i)),
    decreases reached.len() - i,
{
    if 0 <= i < reached.len() {
        kinds_are_plain();
        machine_told(b, field, sma, smb, reached, i + 1);
        state_told(b, field, sma, smb, reached[i]);
        plain_add_up(
            state_change(b, field, sma, smb, reached[i]),
            machine_changes(b, field, sma, smb, reached, i + 1),
        );
        let whole = machine_changes(b, field, sma, smb, reached, i);
        let rest = machine_changes(b, field, sma, smb, reached, i + 1);
        let n = whole.len() - rest.len();
        assert forall|j: int| 0 <= j < whole.len() implies is_plain(#[trigger] whole[j]) by {
            if j >= n {
                assert(whole[j] == rest[j - n]);
                assert(is_plain(rest[j - n]));
            }
        }
    }
}

proof fn states_told(a: ModelView, b: ModelView, fields: Seq<Text>, i: int)
    ensures
        all_plain(state_changes_from(a, b, fields, i)),
    decreases fields.len() - i,
{
    if 0 <= i < fields.len() {
        states_told(a, b, fields, i + 1);
        let sma = lookup(a.state_machines, fields[i]);
        let smb = lookup(b.state_machines, fields[i]);
        let reached = united(states_reached(sma), states_reached(smb));
        machine_told(b, fields[i], sma, smb, reached, 0);
        plain_add_up(
            machine_changes(b, fields[i], sma, smb, reached, 0),
            state_changes_from(a, b, fields, i + 1),
        );
    }
}

// ---- invariants and rules

proof fn breaches_from_told(
    a: ModelView,
    b: ModelView,
    m: MatchingView,
    inv: InvariantView,
    ws: Seq<(EntityView, WriteFactView)>,
    i: int,
)
    requires
        0 < inv.confidence < 100,
    ensures
        all_told(breaches_from(a, b, m, inv, ws, i)),
    decreases ws.len() - i,
{
    if 0 <= i < ws.len() {
        kinds_are_plain();
        breaches_from_told(a, b, m, inv, ws, i + 1);
        assert(!is_rule_kind("INVARIANT_VIOLATED"@)) by {
            if is_rule_kind("INVARIANT_VIOLATED"@) {
                rules_are_no_invariants("INVARIANT_VIOLATED"@);
            }
        }
        let whole = breaches_from(a, b, m, inv, ws, i);
        let rest = breaches_from(a, b, m, inv, ws, i + 1);
        let n = whole.len() - rest.len();
        assert forall|j: int| 0 <= j < whole.len() implies is_backed(#[trigger] whole[j]) && is_honest(whole[j]) by {
            if j >= n {
                assert(whole[j] == rest[j - n]);
                assert(is_backed(rest[j - n]));
            }
        }
    }
}

proof fn breaches_told(a: ModelView, b: ModelView, m: MatchingView, i: int)
    requires
        grounded(a),
    ensures
        all_told(breaches(a, b, m, i)),
    decreases a.invariants.len() - i,
{
    if 0 <= i < a.invariants.len() {
        let inv = a.invariants[i];
        assert(0 < inv.confidence < 100);
        breaches_told(a, b, m, i + 1);
        breaches_from_told(a, b, m, inv, rules::concerned(b, inv), 0);
        told_add_up(
            breaches_from(a, b, m, inv, rules::concerned(b, inv), 0),
            breaches(a, b, m, i + 1),
        );
    }
}

spec fn grounded_groups(gs: Seq<((Text, Text), Seq<ViolationView>)>) -> bool {
    forall|n: int| 0 <= n < gs.len() ==> grounded_violations((#[trigger] gs[n]).1)
}

proof fn groups_grounded(
    vs: Seq<ViolationView>,
    i: int,
    acc: Seq<((Text, Text), Seq<ViolationView>)>,
)
    requires
        grounded_violations(vs),
        grounded_groups(acc),
    ensures
        grounded_groups(by_subject(vs, i, acc)),
    decreases vs.len() - i,
{
    if 0 <= i < vs.len() {
        let k = (vs[i].kind, vs[i].subject);
        let had = match lookup(acc, k) {
            Some(d) => d,
            None => seq![],
        };
        slot_bounds(acc, k);
        let xs = had.push(vs[i]);
        assert(vs[i].evidence.len() > 0);
        assert(grounded_violations(had));
        assert forall|n: int| 0 <= n < xs.len() implies (#[trigger] xs[n]).evidence.len() > 0 by {
            if n < had.len() {
                assert(had[n].evidence.len() > 0);
            }
        }
        let next = put(acc, k, xs);
        put_values(acc, k, xs);
        assert forall|n: int| 0 <= n < next.len() implies grounded_violations(
            (#[trigger] next[n]).1,
        ) by {
            if next[n].1 != xs {
                let o = choose|o: int| 0 <= o < acc.len() && acc[o] == next[n];
                assert(grounded_violations(acc[o].1));
            }
        }
        groups_grounded(vs, i + 1, next);
    }
}

proof fn fresh_grounded(vs: Seq<ViolationView>, known: Option<Seq<Text>>, i: int)
    requires
        grounded_violations(vs),
    ensures
        grounded_violations(fresh_from(vs, known, i)),
    decreases vs.len() - i,
{
    if 0 <= i < vs.len() {
        fresh_grounded(vs, known, i + 1);
        assert(vs[i].evidence.len() > 0);
        let whole = fresh_from(vs, known, i);
        let rest = fresh_from(vs, known, i + 1);
        let n = whole.len() - rest.len();
        assert forall|j: int| 0 <= j < whole.len() implies (#[trigger] whole[j]).evidence.len()
            > 0 by {
            if j >= n {
                assert(whole[j] == rest[j - n]);
                assert(rest[j - n].evidence.len() > 0);
            }
        }
    }
}

proof fn places_are_there(vs: Seq<ViolationView>)
    requires
        grounded_violations(vs),
        vs.len() > 0,
    ensures
        places_from(vs, 0).len() > 0,
{
    assert(vs[0].evidence.len() > 0);
}

proof fn broken_told(
    vb: Seq<((Text, Text), Seq<ViolationView>)>,
    va: Seq<((Text, Text), Seq<Text>)>,
    i: int,
)
    requires
        grounded_groups(vb),
    ensures
        all_told(rules_broken(vb, va, i)),
    decreases vb.len() - i,
{
    if 0 <= i < vb.len() {
        kinds_are_plain();
        broken_told(vb, va, i + 1);
        let (k, vs) = vb[i];
        let fresh = fresh_from(vs, lookup(va, k), 0);
        assert(grounded_violations(vb[i].1));
        fresh_grounded(vs, lookup(va, k), 0);
        if fresh.len() > 0 {
            places_are_there(fresh);
        }
        rules_are_no_invariants("LAYER_VIOLATION_INTRODUCED"@);
        rules_are_no_invariants("OWNERSHIP_VIOLATION_INTRODUCED"@);
        let whole = rules_broken(vb, va, i);
        let rest = rules_broken(vb, va, i + 1);
        let n = whole.len() - rest.len();
        assert forall|j: int| 0 <= j < whole.len() implies is_backed(#[trigger] whole[j]) && is_honest(whole[j]) by {
            if j >= n {
                assert(whole[j] == rest[j - n]);
                assert(is_backed(rest[j - n]));
            }
        }
    }
}

proof fn mended_told(
    oa: Seq<((Text, Text), Seq<ViolationView>)>,
    vb: Seq<((Text, Text), Seq<ViolationView>)>,
    i: int,
)
    requires
        grounded_groups(oa),
    ensures
        all_told(rules_mended(oa, vb, i)),
    decreases oa.len() - i,
{
    if 0 <= i < oa.len() {
        kinds_are_plain();
        mended_told(oa, vb, i + 1);
        assert(grounded_violations(oa[i].1));
        if oa[i].1.len() > 0 {
            places_are_there(oa[i].1);
        }
        rules_are_no_invariants("LAYER_VIOLATION_RESOLVED"@);
        rules_are_no_invariants("OWNERSHIP_VIOLATION_RESOLVED"@);
        let whole = rules_mended(oa, vb, i);
        let rest = rules_mended(oa, vb, i + 1);
        let n = whole.len() - rest.len();
        assert forall|j: int| 0 <= j < whole.len() implies is_backed(#[trigger] whole[j]) && is_honest(whole[j]) by {
            if j >= n {
                assert(whole[j] == rest[j - n]);
                assert(is_backed(rest[j - n]));
            }
        }
    }
}

// ---- the rest

proof fn untyped_told(
    a: ModelView,
    b: ModelView,
    m: MatchingView,
    explained: Seq<Text>,
    i: int,
)
    ensures
        all_plain(untyped_changes(a, b, m, explained, i)),
    decreases m.forward.len() - i,
{
    if 0 <= i < m.forward.len() {
        kinds_are_plain();
        untyped_told(a, b, m, explained, i + 1);
        let pair = m.forward[i];
        let (gone, fresh) = apart(
            inlined_shapes(a, pair.0, m.forward),
            inlined_shapes(b, pair.1, m.backward),
        );
        let head = untyped_change(a, b, m, pair);
        if gone.len() > 0 {
            let xs = shape_places(gone);
            assert(deduped_from(xs, 0) == seq![xs[0]] + deduped_from(xs, 1));
        }
        if fresh.len() > 0 {
            let xs = shape_places(fresh);
            assert(deduped_from(xs, 0) == seq![xs[0]] + deduped_from(xs, 1));
        }
        assert(all_plain(head));
        plain_add_up(head, untyped_changes(a, b, m, explained, i + 1));
        let none = Seq::<OpView>::empty();
        assert(none =~= seq![]);
        plain_add_up(none, untyped_changes(a, b, m, explained, i + 1));
    }
}

proof fn logging_told(
    a: ModelView,
    b: ModelView,
    forward: Seq<(Text, Text)>,
    i: int,
)
    ensures
        all_plain(logging_changes(a, b, forward, i)),
    decreases forward.len() - i,
{
    if 0 <= i < forward.len() {
        kinds_are_plain();
        logging_told(a, b, forward, i + 1);
        let whole = logging_changes(a, b, forward, i);
        let rest = logging_changes(a, b, forward, i + 1);
        let n = whole.len() - rest.len();
        assert forall|j: int| 0 <= j < whole.len() implies is_plain(#[trigger] whole[j]) by {
            if j >= n {
                assert(whole[j] == rest[j - n]);
                assert(is_plain(rest[j - n]));
            }
        }
    }
}

/// Every operation of a transition but the claim of a pure refactoring names a place in the code,
/// and says rightly how it came to be known: what is inferred is about a broken invariant and
/// less than certain, what is declared is about a rule of the project, and the rest comes from
/// the code.
pub proof fn operations_are_told(a: ModelView, b: ModelView)
    requires
        grounded(a),
        grounded(b),
    ensures
        all_told(all_ops(a, b, matched(a, b))),
        forall|i: int|
            0 <= i < ops_between(a, b).len() ==> is_honest(#[trigger] ops_between(a, b)[i]) && (
            is_backed(ops_between(a, b)[i]) || ops_between(a, b)[i].kind == "PURE_REFACTOR"@),
{
    let m = matched(a, b);
    structure_told(a, b, m);
    pairs_told(a, b, m.forward, 0);
    plain_add_up(structure_changes(a, b, m), surface_changes(a, b, m));
    plain_add_up(
        structure_changes(a, b, m) + surface_changes(a, b, m),
        pairs_ops(a, b, m.forward, 0),
    );
    let direct = direct_ops(a, b, m);
    let changed = subjects_from(direct, 0, seq![]);
    let t1 = new_code(b, m, changed, 0);
    let t2 = schema_changes(a, b, m.modules, 0);
    let t3 = state_changes(a, b);
    let t4 = breaches(a, b, m, 0);
    new_code_told(b, m, changed, 0);
    schemas_told(a, b, m.modules, 0);
    states_told(
        a,
        b,
        united(set_of(keys(a.state_machines)), set_of(keys(b.state_machines))),
        0,
    );
    breaches_told(a, b, m, 0);
    plain_add_up(direct, t1);
    plain_add_up(direct + t1, t2);
    plain_add_up(direct + t1 + t2, t3);
    plain_is_told(direct + t1 + t2 + t3);
    told_add_up(direct + t1 + t2 + t3, t4);
    let none = Seq::<((Text, Text), Seq<ViolationView>)>::empty();
    assert(none =~= seq![]);
    groups_grounded(a.violations, 0, none);
    groups_grounded(b.violations, 0, none);
    let va = details_from(a.violations, m, 0, seq![]);
    let vb = by_subject(b.violations, 0, seq![]);
    let oa = by_subject(a.violations, 0, seq![]);
    broken_told(vb, va, 0);
    mended_told(oa, vb, 0);
    told_add_up(rules_broken(vb, va, 0), rules_mended(oa, vb, 0));
    told_add_up(direct + t1 + t2 + t3 + t4, rule_changes(a, b, m));
    let typed = typed_ops(a, b, m);
    let explained = subjects_from(typed, 0, seq![]);
    untyped_told(a, b, m, explained, 0);
    logging_told(a, b, m.forward, 0);
    plain_is_told(untyped_changes(a, b, m, explained, 0));
    plain_is_told(logging_changes(a, b, m.forward, 0));
    told_add_up(typed, untyped_changes(a, b, m, explained, 0));
    told_add_up(
        typed + untyped_changes(a, b, m, explained, 0),
        logging_changes(a, b, m.forward, 0),
    );
    let ops = all_ops(a, b, m);
    assert(all_told(ops));
    let all = ops_between(a, b);
    assert forall|i: int| 0 <= i < all.len() implies is_honest(#[trigger] all[i]) && (is_backed(
        all[i],
    ) || all[i].kind == "PURE_REFACTOR"@) by {
        if i < ops.len() {
            assert(all[i] == ops[i]);
            assert(is_backed(ops[i]));
        } else {
            claim_is_no_rule();
        }
    }
}

// ---- the claim of a refactoring

/// An operation that claims a pure refactoring.
pub open spec fn is_claim(op: OpView) -> bool {
    op.kind == "PURE_REFACTOR"@
}

/// No operation claims a pure refactoring.
pub open spec fn no_claims(ops: Seq<OpView>) -> bool {
    forall|i: int| 0 <= i < ops.len() ==> !is_claim(#[trigger] ops[i])
}

proof fn plain_claims_nothing(ops: Seq<OpView>)
    requires
        all_plain(ops),
    ensures
        no_claims(ops),
{
    claim_is_no_rule();
    assert forall|i: int| 0 <= i < ops.len() implies !is_claim(#[trigger] ops[i]) by {
        assert(is_plain(ops[i]));
    }
}

proof fn no_claims_add_up(a: Seq<OpView>, b: Seq<OpView>)
    requires
        no_claims(a),
        no_claims(b),
    ensures
        no_claims(a + b),
{
    assert forall|i: int| 0 <= i < (a + b).len() implies !is_claim(#[trigger] (a + b)[i]) by {
        if i < a.len() {
            assert(!is_claim(a[i]));
        } else {
            assert(!is_claim(b[i - a.len()]));
        }
    }
}

proof fn dep_changes_claim_nothing(
    kind: Text,
    here: Seq<((Text, Text), Seq<LocView>)>,
    there: Seq<((Text, Text), Seq<LocView>)>,
    came: bool,
    i: int,
)
    requires
        is_plain_kind(kind),
    ensures
        no_claims(dep_changes(kind, here, there, came, i)),
    decreases here.len() - i,
{
    if 0 <= i < here.len() {
        kinds_are_plain();
        claim_is_no_rule();
        dep_changes_claim_nothing(kind, here, there, came, i + 1);
        let whole = dep_changes(kind, here, there, came, i);
        let rest = dep_changes(kind, here, there, came, i + 1);
        let n = whole.len() - rest.len();
        assert forall|j: int| 0 <= j < whole.len() implies !is_claim(#[trigger] whole[j]) by {
            if j >= n {
                assert(whole[j] == rest[j - n]);
                assert(!is_claim(rest[j - n]));
            }
        }
    }
}

proof fn structure_claims_nothing(a: ModelView, b: ModelView, m: MatchingView)
    ensures
        no_claims(structure_changes(a, b, m)),
        no_claims(surface_changes(a, b, m)),
{
    kinds_are_plain();
    let deps = renamed_deps(a.module_deps, m.modules, 0, seq![]);
    let s0 = class_moves(a, b, m.moved_classes, 0);
    let s1 = function_moves(a, b, m.moved_functions, 0);
    let s2 = class_gains(a, b, m, 0);
    let new = new_methods(a, b, m, 0, seq![]);
    let s3 = entity_changes("ENTITY_ADDED"@, b.entities, m.backward, new, true, 0);
    let lost = lost_methods(a, b, m, 0, moved_methods(a, m.moved_classes, 0, seq![]));
    let s4 = entity_changes("ENTITY_REMOVED"@, a.entities, m.forward, lost, false, 0);
    let s5 = class_losses(a, b, m, 0);
    let s6 = dep_changes("DEPENDENCY_ADDED"@, b.module_deps, deps, true, 0);
    let s7 = dep_changes("DEPENDENCY_REMOVED"@, deps, b.module_deps, false, 0);
    class_moves_told(a, b, m.moved_classes, 0);
    function_moves_told(a, b, m.moved_functions, 0);
    class_gains_told(a, b, m, 0);
    entity_changes_told("ENTITY_ADDED"@, b.entities, m.backward, new, true, 0);
    entity_changes_told("ENTITY_REMOVED"@, a.entities, m.forward, lost, false, 0);
    class_losses_told(a, b, m, 0);
    plain_add_up(s0, s1);
    plain_add_up(s0 + s1, s2);
    plain_add_up(s0 + s1 + s2, s3);
    plain_add_up(s0 + s1 + s2 + s3, s4);
    plain_add_up(s0 + s1 + s2 + s3 + s4, s5);
    plain_claims_nothing(s0 + s1 + s2 + s3 + s4 + s5);
    dep_changes_claim_nothing("DEPENDENCY_ADDED"@, b.module_deps, deps, true, 0);
    dep_changes_claim_nothing("DEPENDENCY_REMOVED"@, deps, b.module_deps, false, 0);
    no_claims_add_up(s0 + s1 + s2 + s3 + s4 + s5, s6);
    no_claims_add_up(s0 + s1 + s2 + s3 + s4 + s5 + s6, s7);
    let ra = routes_by_key(a.routes, 0, seq![]);
    let rb = routes_by_key(b.routes, 0, seq![]);
    let ka = handlers_from(a.subscriptions, m.forward, 0, seq![]);
    let kb = handlers_from(b.subscriptions, seq![], 0, seq![]);
    route_gains_told(b, rb, ra, 0);
    route_losses_told(ra, rb, 0);
    handler_gains_told(b, ka, 0);
    handler_losses_told(a, m.forward, kb, 0);
    let t0 = route_gains(b, rb, ra, 0);
    let t1 = route_losses(ra, rb, 0);
    let t2 = handler_gains(b, ka, 0);
    let t3 = handler_losses(a, m.forward, kb, 0);
    plain_add_up(t0, t1);
    plain_add_up(t0 + t1, t2);
    plain_add_up(t0 + t1 + t2, t3);
    plain_claims_nothing(t0 + t1 + t2 + t3);
}

proof fn effect_gains_claim_nothing(
    subject: Text,
    sa: Seq<(EffectKeyView, EffectInfoView)>,
    sb: Seq<(EffectKeyView, EffectInfoView)>,
    i: int,
)
    ensures
        no_claims(effect_gains(subject, sa, sb, i)),
    decreases sb.len() - i,
{
    if 0 <= i < sb.len() {
        kinds_are_plain();
        claim_is_no_rule();
        effect_gains_claim_nothing(subject, sa, sb, i + 1);
        let whole = effect_gains(subject, sa, sb, i);
        let rest = effect_gains(subject, sa, sb, i + 1);
        let n = whole.len() - rest.len();
        assert forall|j: int| 0 <= j < whole.len() implies !is_claim(#[trigger] whole[j]) by {
            if j >= n {
                assert(whole[j] == rest[j - n]);
                assert(!is_claim(rest[j - n]));
            }
        }
    }
}

proof fn effect_losses_claim_nothing(
    subject: Text,
    forward: Seq<(Text, Text)>,
    sa: Seq<(EffectKeyView, EffectInfoView)>,
    sb: Seq<(EffectKeyView, EffectInfoView)>,
    va: Seq<(Text, LocView)>,
    vb: Seq<(Text, LocView)>,
    i: int,
)
    ensures
        no_claims(effect_losses(subject, forward, sa, sb, va, vb, i)),
    decreases sa.len() - i,
{
    if 0 <= i < sa.len() {
        kinds_are_plain();
        claim_is_no_rule();
        effect_losses_claim_nothing(subject, forward, sa, sb, va, vb, i + 1);
        let whole = effect_losses(subject, forward, sa, sb, va, vb, i);
        let rest = effect_losses(subject, forward, sa, sb, va, vb, i + 1);
        let n = whole.len() - rest.len();
        assert forall|j: int| 0 <= j < whole.len() implies !is_claim(#[trigger] whole[j]) by {
            if j >= n {
                assert(whole[j] == rest[j - n]);
                assert(!is_claim(rest[j - n]));
            }
        }
    }
}

proof fn entity_claims_nothing(
    a: ModelView,
    b: ModelView,
    forward: Seq<(Text, Text)>,
    pair: (Text, Text),
    ea: EntityView,
    eb: EntityView,
    sa: SummaryView,
    sb: SummaryView,
)
    ensures
        no_claims(entity_ops(a, b, forward, pair, ea, eb, sa, sb)),
{
    kinds_are_plain();
    claim_is_no_rule();
    let s = pair.1;
    let va = renamed_checks(sa.validations, forward, 0, seq![]);
    let vb = sb.validations;
    let (fa, fb) = pair_filters(a, b, ea, pair);
    let ga = relevant_guards(a, b, ea, eb, forward, sa.requirements, 0);
    let gb = relevant_guards(a, b, ea, eb, seq![], sb.requirements, 0);
    let t0 = rule_change(s, ea, eb);
    assert(all_plain(t0));
    let none = Seq::<OpView>::empty();
    assert(none =~= seq![]);
    guards_held_told(s, ga, gb, 0, none, seq![]);
    let (held, taken) = guards_held(s, ga, gb, 0, seq![], seq![]);
    guard_gains_told(s, gb, taken, 0);
    plain_add_up(held, guard_gains(s, gb, taken, 0));
    let t1 = guard_changes(s, ga, gb);
    let t2 = check_losses(s, va, vb, 0);
    let t3 = check_gains(s, va, vb, 0);
    let t4 = effect_gains(s, sa.effects, sb.effects, 0);
    let t5 = effect_losses(s, forward, sa.effects, sb.effects, va, vb, 0);
    let t6 = data_changes(s, sa, sb, ea.loc, eb.loc);
    assert(all_plain(t6));
    check_losses_told(s, va, vb, 0);
    check_gains_told(s, va, vb, 0);
    effect_gains_claim_nothing(s, sa.effects, sb.effects, 0);
    effect_losses_claim_nothing(s, forward, sa.effects, sb.effects, va, vb, 0);
    let (gone, fresh, pairs) = filters_sorted(fa, fb);
    filter_changes_told(s, pairs, 0);
    filter_losses_told(s, gone, 0);
    filter_gains_told(s, fresh, 0);
    plain_add_up(filter_changes(s, pairs, 0), filter_losses(s, gone, 0));
    plain_add_up(
        filter_changes(s, pairs, 0) + filter_losses(s, gone, 0),
        filter_gains(s, fresh, 0),
    );
    let t7 = filters_changed(s, fa, fb);
    let t8 = access_changed(s, sa.access, sb.access);
    assert(no_claims(t8));
    plain_add_up(t0, t1);
    plain_add_up(t0 + t1, t2);
    plain_add_up(t0 + t1 + t2, t3);
    plain_claims_nothing(t0 + t1 + t2 + t3);
    plain_claims_nothing(t6);
    plain_claims_nothing(t7);
    no_claims_add_up(t0 + t1 + t2 + t3, t4);
    no_claims_add_up(t0 + t1 + t2 + t3 + t4, t5);
    no_claims_add_up(t0 + t1 + t2 + t3 + t4 + t5, t6);
    no_claims_add_up(t0 + t1 + t2 + t3 + t4 + t5 + t6, t7);
    no_claims_add_up(t0 + t1 + t2 + t3 + t4 + t5 + t6 + t7, t8);
}

proof fn pairs_claim_nothing(a: ModelView, b: ModelView, forward: Seq<(Text, Text)>, i: int)
    ensures
        no_claims(pairs_ops(a, b, forward, i)),
    decreases forward.len() - i,
{
    if 0 <= i < forward.len() {
        pairs_claim_nothing(a, b, forward, i + 1);
        let pair = forward[i];
        let whole = pair_ops(a, b, forward, pair);
        if let Some((ea, eb, sa, sb)) = changed_pair(a, b, pair) {
            entity_claims_nothing(a, b, forward, pair, ea, eb, sa, sb);
            let ops = entity_ops(a, b, forward, pair, ea, eb, sa, sb);
            assert forall|j: int| 0 <= j < whole.len() implies !is_claim(#[trigger] whole[j]) by {
                assert(!is_claim(ops[j]));
            }
        }
        no_claims_add_up(whole, pairs_ops(a, b, forward, i + 1));
    }
}

proof fn breaches_from_claim_nothing(
    a: ModelView,
    b: ModelView,
    m: MatchingView,
    inv: InvariantView,
    ws: Seq<(EntityView, WriteFactView)>,
    i: int,
)
    ensures
        no_claims(breaches_from(a, b, m, inv, ws, i)),
    decreases ws.len() - i,
{
    if 0 <= i < ws.len() {
        kinds_are_plain();
        claim_is_no_rule();
        breaches_from_claim_nothing(a, b, m, inv, ws, i + 1);
        let whole = breaches_from(a, b, m, inv, ws, i);
        let rest = breaches_from(a, b, m, inv, ws, i + 1);
        let n = whole.len() - rest.len();
        assert forall|j: int| 0 <= j < whole.len() implies !is_claim(#[trigger] whole[j]) by {
            if j >= n {
                assert(whole[j] == rest[j - n]);
                assert(!is_claim(rest[j - n]));
            }
        }
    }
}

proof fn breaches_claim_nothing(a: ModelView, b: ModelView, m: MatchingView, i: int)
    ensures
        no_claims(breaches(a, b, m, i)),
    decreases a.invariants.len() - i,
{
    if 0 <= i < a.invariants.len() {
        let inv = a.invariants[i];
        let here = breaches_from(a, b, m, inv, rules::concerned(b, inv), 0);
        breaches_claim_nothing(a, b, m, i + 1);
        breaches_from_claim_nothing(a, b, m, inv, rules::concerned(b, inv), 0);
        no_claims_add_up(here, breaches(a, b, m, i + 1));
    }
}

proof fn broken_claim_nothing(
    vb: Seq<((Text, Text), Seq<ViolationView>)>,
    va: Seq<((Text, Text), Seq<Text>)>,
    i: int,
)
    ensures
        no_claims(rules_broken(vb, va, i)),
    decreases vb.len() - i,
{
    if 0 <= i < vb.len() {
        kinds_are_plain();
        claim_is_no_rule();
        broken_claim_nothing(vb, va, i + 1);
        let whole = rules_broken(vb, va, i);
        let rest = rules_broken(vb, va, i + 1);
        let n = whole.len() - rest.len();
        assert forall|j: int| 0 <= j < whole.len() implies !is_claim(#[trigger] whole[j]) by {
            if j >= n {
                assert(whole[j] == rest[j - n]);
                assert(!is_claim(rest[j - n]));
            }
        }
    }
}

proof fn mended_claim_nothing(
    oa: Seq<((Text, Text), Seq<ViolationView>)>,
    vb: Seq<((Text, Text), Seq<ViolationView>)>,
    i: int,
)
    ensures
        no_claims(rules_mended(oa, vb, i)),
    decreases oa.len() - i,
{
    if 0 <= i < oa.len() {
        kinds_are_plain();
        claim_is_no_rule();
        mended_claim_nothing(oa, vb, i + 1);
        let whole = rules_mended(oa, vb, i);
        let rest = rules_mended(oa, vb, i + 1);
        let n = whole.len() - rest.len();
        assert forall|j: int| 0 <= j < whole.len() implies !is_claim(#[trigger] whole[j]) by {
            if j >= n {
                assert(whole[j] == rest[j - n]);
                assert(!is_claim(rest[j - n]));
            }
        }
    }
}

/// What is found between two versions claims no pure refactoring by itself.
pub proof fn operations_claim_nothing(a: ModelView, b: ModelView, m: MatchingView)
    ensures
        no_claims(all_ops(a, b, m)),
{
    structure_claims_nothing(a, b, m);
    pairs_claim_nothing(a, b, m.forward, 0);
    no_claims_add_up(structure_changes(a, b, m), surface_changes(a, b, m));
    no_claims_add_up(
        structure_changes(a, b, m) + surface_changes(a, b, m),
        pairs_ops(a, b, m.forward, 0),
    );
    let direct = direct_ops(a, b, m);
    let changed = subjects_from(direct, 0, seq![]);
    let t1 = new_code(b, m, changed, 0);
    let t2 = schema_changes(a, b, m.modules, 0);
    let t3 = state_changes(a, b);
    let t4 = breaches(a, b, m, 0);
    new_code_told(b, m, changed, 0);
    plain_claims_nothing(t1);
    schemas_told(a, b, m.modules, 0);
    plain_claims_nothing(t2);
    states_told(
        a,
        b,
        united(set_of(keys(a.state_machines)), set_of(keys(b.state_machines))),
        0,
    );
    plain_claims_nothing(t3);
    breaches_claim_nothing(a, b, m, 0);
    no_claims_add_up(direct, t1);
    no_claims_add_up(direct + t1, t2);
    no_claims_add_up(direct + t1 + t2, t3);
    no_claims_add_up(direct + t1 + t2 + t3, t4);
    let va = details_from(a.violations, m, 0, seq![]);
    let vb = by_subject(b.violations, 0, seq![]);
    let oa = by_subject(a.violations, 0, seq![]);
    broken_claim_nothing(vb, va, 0);
    mended_claim_nothing(oa, vb, 0);
    no_claims_add_up(rules_broken(vb, va, 0), rules_mended(oa, vb, 0));
    no_claims_add_up(direct + t1 + t2 + t3 + t4, rule_changes(a, b, m));
    let typed = typed_ops(a, b, m);
    let explained = subjects_from(typed, 0, seq![]);
    untyped_told(a, b, m, explained, 0);
    plain_claims_nothing(untyped_changes(a, b, m, explained, 0));
    logging_told(a, b, m.forward, 0);
    plain_claims_nothing(logging_changes(a, b, m.forward, 0));
    no_claims_add_up(typed, untyped_changes(a, b, m, explained, 0));
    no_claims_add_up(
        typed + untyped_changes(a, b, m, explained, 0),
        logging_changes(a, b, m.forward, 0),
    );
}

// ---- models

spec fn is_grounded(s: SummaryView) -> bool {
    grounded_effects(s.effects) && ascending(s.access)
}

proof fn union_has_some<K: Rank>(s: Seq<K>, ks: Seq<K>, i: int)
    requires
        0 <= i <= ks.len(),
    ensures
        added_from(s, ks, i).len() >= s.len(),
        i < ks.len() ==> added_from(s, ks, i).len() > 0,
    decreases ks.len() - i,
{
    if i < ks.len() {
        seat_bounds(s, ks[i]);
        union_has_some(added(s, ks[i]), ks, i + 1);
    }
}

proof fn info_grounded(
    effects: Seq<(EffectKeyView, EffectInfoView)>,
    k: EffectKeyView,
    info: EffectInfoView,
)
    requires
        grounded_effects(effects),
        info.evidence.len() > 0,
    ensures
        grounded_effects(with_info(effects, k, info)),
{
    let had = match lookup(effects, k) {
        Some(i) => i,
        None => no_info(),
    };
    let v = joined_info(had, info);
    union_has_some(had.evidence, info.evidence, 0);
    put_values(effects, k, v);
    let next = put(effects, k, v);
    assert forall|n: int| 0 <= n < next.len() implies (#[trigger] next[n]).1.evidence.len() > 0 by {
        if next[n] != (k, v) {
            let o = choose|o: int| 0 <= o < effects.len() && effects[o] == next[n];
            assert(effects[o].1.evidence.len() > 0);
        }
    }
}

proof fn own_effects_grounded(
    effects: Seq<EffectFactView>,
    i: int,
    acc: Seq<(EffectKeyView, EffectInfoView)>,
)
    requires
        grounded_effects(acc),
    ensures
        grounded_effects(own_effects(effects, i, acc)),
    decreases effects.len() - i,
{
    if 0 <= i < effects.len() {
        let none = Seq::<LocView>::empty();
        assert(none =~= seq![]);
        seat_bounds(none, effects[i].loc);
        let info = EffectInfoView {
            modes: added(seq![], "sync"@),
            via: added(seq![], "direct"@),
            evidence: added(seq![], effects[i].loc),
        };
        info_grounded(acc, effects[i].key, info);
        own_effects_grounded(effects, i + 1, with_info(acc, effects[i].key, info));
    }
}

proof fn first_put_in_order(m: Seq<(Text, AccessFactView)>, k: Text, v: AccessFactView)
    requires
        ascending(m),
    ensures
        ascending(first_put(m, k, v)),
{
    put_keeps_order(m, k, v);
}

proof fn own_access_in_order(
    access: Seq<AccessFactView>,
    i: int,
    acc: Seq<(Text, AccessFactView)>,
)
    requires
        ascending(acc),
    ensures
        ascending(own_access(access, i, acc)),
    decreases access.len() - i,
{
    if 0 <= i < access.len() {
        first_put_in_order(acc, access[i].requirement, access[i]);
        own_access_in_order(access, i + 1, first_put(acc, access[i].requirement, access[i]));
    }
}

proof fn stored_grounded(sums: Seq<(Text, SummaryView)>, id: Text, s: SummaryView)
    requires
        grounded_summaries(sums),
        is_grounded(s),
    ensures
        grounded_summaries(put(sums, id, s)),
{
    put_values(sums, id, s);
    let next = put(sums, id, s);
    assert forall|n: int| 0 <= n < next.len() implies grounded_effects((#[trigger] next[n]).1.effects)
        && ascending(next[n].1.access) by {
        if next[n] != (id, s) {
            let o = choose|o: int| 0 <= o < sums.len() && sums[o] == next[n];
            assert(grounded_effects(sums[o].1.effects));
        }
    }
}

proof fn own_summaries_grounded(
    entities: Seq<(Text, EntityView)>,
    i: int,
    acc: Seq<(Text, SummaryView)>,
)
    requires
        grounded_summaries(acc),
    ensures
        grounded_summaries(own_summaries(entities, i, acc)),
    decreases entities.len() - i,
{
    if 0 <= i < entities.len() {
        let e = entities[i].1;
        let no_effects = Seq::<(EffectKeyView, EffectInfoView)>::empty();
        let no_access = Seq::<(Text, AccessFactView)>::empty();
        assert(no_effects =~= seq![]);
        assert(no_access =~= seq![]);
        own_effects_grounded(e.effects, 0, no_effects);
        own_access_in_order(e.access, 0, no_access);
        stored_grounded(acc, e.id, own_summary(e));
        own_summaries_grounded(entities, i + 1, put(acc, e.id, own_summary(e)));
    }
}

proof fn call_grounded(
    target: Text,
    theirs: Seq<(EffectKeyView, EffectInfoView)>,
    i: int,
    acc: Seq<(EffectKeyView, EffectInfoView)>,
)
    requires
        grounded_effects(theirs),
        grounded_effects(acc),
    ensures
        grounded_effects(through_call(target, theirs, i, acc)),
    decreases theirs.len() - i,
{
    if 0 <= i < theirs.len() {
        assert(theirs[i].1.evidence.len() > 0);
        let info = EffectInfoView {
            modes: theirs[i].1.modes,
            via: added(seq![], target),
            evidence: theirs[i].1.evidence,
        };
        info_grounded(acc, theirs[i].0, info);
        call_grounded(target, theirs, i + 1, with_info(acc, theirs[i].0, info));
    }
}

proof fn event_grounded(
    event: Text,
    theirs: Seq<(EffectKeyView, EffectInfoView)>,
    i: int,
    acc: Seq<(EffectKeyView, EffectInfoView)>,
)
    requires
        grounded_effects(theirs),
        grounded_effects(acc),
    ensures
        grounded_effects(through_event(event, theirs, i, acc)),
    decreases theirs.len() - i,
{
    if 0 <= i < theirs.len() {
        assert(theirs[i].1.evidence.len() > 0);
        let info = EffectInfoView {
            modes: added(seq![], "async via "@ + event),
            via: added(seq![], "event:"@ + event),
            evidence: theirs[i].1.evidence,
        };
        info_grounded(acc, theirs[i].0, info);
        event_grounded(event, theirs, i + 1, with_info(acc, theirs[i].0, info));
    }
}

proof fn calls_grounded(
    calls: Seq<CallFactView>,
    sums: Seq<(Text, SummaryView)>,
    i: int,
    s: SummaryView,
)
    requires
        grounded_summaries(sums),
        is_grounded(s),
    ensures
        is_grounded(after_calls(calls, sums, i, s)),
    decreases calls.len() - i,
{
    if 0 <= i < calls.len() {
        match lookup(sums, calls[i].target) {
            Some(cs) => {
                summary_is_grounded(sums, calls[i].target);
                call_grounded(calls[i].target, cs.effects, 0, s.effects);
                let next = SummaryView {
                    effects: through_call(calls[i].target, cs.effects, 0, s.effects),
                    reads: united(s.reads, cs.reads),
                    writes: united(s.writes, cs.writes),
                    ..s
                };
                calls_grounded(calls, sums, i + 1, next);
            },
            None => {
                calls_grounded(calls, sums, i + 1, s);
            },
        }
    }
}

proof fn handlers_grounded(
    event: Text,
    subs: Seq<SubscriptionView>,
    sums: Seq<(Text, SummaryView)>,
    i: int,
    acc: Seq<(EffectKeyView, EffectInfoView)>,
)
    requires
        grounded_summaries(sums),
        grounded_effects(acc),
    ensures
        grounded_effects(after_handlers(event, subs, sums, i, acc)),
    decreases subs.len() - i,
{
    if 0 <= i < subs.len() {
        let next = if subs[i].event == event {
            match lookup(sums, subs[i].handler) {
                Some(hs) => {
                    summary_is_grounded(sums, subs[i].handler);
                    event_grounded(event, hs.effects, 0, acc);
                    through_event(event, hs.effects, 0, acc)
                },
                None => acc,
            }
        } else {
            acc
        };
        handlers_grounded(event, subs, sums, i + 1, next);
    }
}

proof fn events_grounded(
    effects: Seq<EffectFactView>,
    subs: Seq<SubscriptionView>,
    sums: Seq<(Text, SummaryView)>,
    i: int,
    acc: Seq<(EffectKeyView, EffectInfoView)>,
)
    requires
        grounded_summaries(sums),
        grounded_effects(acc),
    ensures
        grounded_effects(after_events(effects, subs, sums, i, acc)),
    decreases effects.len() - i,
{
    if 0 <= i < effects.len() {
        handlers_grounded(effects[i].key.target, subs, sums, 0, acc);
        let next = if effects[i].key.kind == "event_emit"@ {
            after_handlers(effects[i].key.target, subs, sums, 0, acc)
        } else {
            acc
        };
        events_grounded(effects, subs, sums, i + 1, next);
    }
}

proof fn pass_grounded(
    entities: Seq<(Text, EntityView)>,
    subs: Seq<SubscriptionView>,
    i: int,
    sums: Seq<(Text, SummaryView)>,
)
    requires
        grounded_summaries(sums),
    ensures
        grounded_summaries(pass(entities, subs, i, sums)),
    decreases entities.len() - i,
{
    if 0 <= i < entities.len() {
        let e = entities[i].1;
        match lookup(sums, e.id) {
            Some(s) => {
                summary_is_grounded(sums, e.id);
                calls_grounded(e.calls, sums, 0, s);
                let t = after_calls(e.calls, sums, 0, s);
                events_grounded(e.effects, subs, sums, 0, t.effects);
                stored_grounded(sums, e.id, step(e, subs, sums, s));
                pass_grounded(entities, subs, i + 1, put(sums, e.id, step(e, subs, sums, s)));
            },
            None => {
                pass_grounded(entities, subs, i + 1, sums);
            },
        }
    }
}

proof fn settled_grounded(
    entities: Seq<(Text, EntityView)>,
    subs: Seq<SubscriptionView>,
    sums: Seq<(Text, SummaryView)>,
    rounds: nat,
)
    requires
        grounded_summaries(sums),
    ensures
        grounded_summaries(settled(entities, subs, sums, rounds)),
    decreases rounds,
{
    let next = pass(entities, subs, 0, sums);
    pass_grounded(entities, subs, 0, sums);
    if next != sums && rounds > 0 {
        settled_grounded(entities, subs, next, (rounds - 1) as nat);
    }
}

proof fn access_in_order(
    theirs: Seq<(Text, AccessFactView)>,
    i: int,
    acc: Seq<(Text, AccessFactView)>,
)
    requires
        ascending(acc),
    ensures
        ascending(with_access(theirs, i, acc)),
    decreases theirs.len() - i,
{
    if 0 <= i < theirs.len() {
        first_put_in_order(acc, theirs[i].0, theirs[i].1);
        access_in_order(
            theirs,
            i + 1,
            if text::ends(theirs[i].1.requirement, "=_"@) {
                acc
            } else {
                first_put(acc, theirs[i].0, theirs[i].1)
            },
        );
    }
}

proof fn checks_grounded(
    calls: Seq<CallFactView>,
    validators: Seq<Text>,
    sums: Seq<(Text, SummaryView)>,
    i: int,
    s: SummaryView,
)
    requires
        is_grounded(s),
    ensures
        is_grounded(after_checks(calls, validators, sums, i, s)),
    decreases calls.len() - i,
{
    if 0 <= i < calls.len() {
        let c = calls[i];
        let next = SummaryView {
            validations: if validators.contains(c.target) {
                first_put(s.validations, c.target, c.loc)
            } else {
                match lookup(sums, c.target) {
                    Some(cs) => with_validations(cs.validations, c.loc, 0, s.validations),
                    None => s.validations,
                }
            },
            access: match lookup(sums, c.target) {
                Some(cs) => with_access(cs.access, 0, s.access),
                None => s.access,
            },
            ..s
        };
        match lookup(sums, c.target) {
            Some(cs) => {
                access_in_order(cs.access, 0, s.access);
            },
            None => {},
        }
        checks_grounded(calls, validators, sums, i + 1, next);
    }
}

proof fn check_pass_grounded(
    entities: Seq<(Text, EntityView)>,
    validators: Seq<Text>,
    i: int,
    sums: Seq<(Text, SummaryView)>,
)
    requires
        grounded_summaries(sums),
    ensures
        grounded_summaries(check_pass(entities, validators, i, sums)),
    decreases entities.len() - i,
{
    if 0 <= i < entities.len() {
        let e = entities[i].1;
        match lookup(sums, e.id) {
            Some(s) => {
                summary_is_grounded(sums, e.id);
                checks_grounded(e.calls, validators, sums, 0, s);
                let t = after_checks(e.calls, validators, sums, 0, s);
                stored_grounded(sums, e.id, t);
                check_pass_grounded(entities, validators, i + 1, put(sums, e.id, t));
            },
            None => {
                check_pass_grounded(entities, validators, i + 1, sums);
            },
        }
    }
}

proof fn checks_settled_grounded(
    entities: Seq<(Text, EntityView)>,
    validators: Seq<Text>,
    sums: Seq<(Text, SummaryView)>,
    rounds: nat,
)
    requires
        grounded_summaries(sums),
    ensures
        grounded_summaries(checks_settled(entities, validators, sums, rounds)),
    decreases rounds,
{
    let next = check_pass(entities, validators, 0, sums);
    check_pass_grounded(entities, validators, 0, sums);
    if next != sums && rounds > 0 {
        checks_settled_grounded(entities, validators, next, (rounds - 1) as nat);
    }
}

proof fn guards_grounded(
    entities: Seq<(Text, EntityView)>,
    i: int,
    sums: Seq<(Text, SummaryView)>,
)
    requires
        grounded_summaries(sums),
    ensures
        grounded_summaries(with_guards(entities, i, sums)),
    decreases entities.len() - i,
{
    if 0 <= i < entities.len() {
        let e = entities[i].1;
        match lookup(sums, e.id) {
            Some(s) => {
                summary_is_grounded(sums, e.id);
                let t = SummaryView {
                    requirements: s.requirements + guards_from(entities, e.guards, 0),
                    ..s
                };
                stored_grounded(sums, e.id, t);
                guards_grounded(entities, i + 1, put(sums, e.id, t));
            },
            None => {
                guards_grounded(entities, i + 1, sums);
            },
        }
    }
}

proof fn summaries_grounded(m: ModelView)
    ensures
        grounded_summaries(summarised(m).summaries),
{
    let none = Seq::<(Text, SummaryView)>::empty();
    assert(none =~= seq![]);
    own_summaries_grounded(m.entities, 0, none);
    let own = own_summaries(m.entities, 0, seq![]);
    let rounds = possible(m.entities).len();
    settled_grounded(m.entities, m.subscriptions, own, rounds);
    let sums = settled(m.entities, m.subscriptions, own, rounds);
    let validators = validators_from(m, sums, 0, seq![]);
    let more = possible_checks(m.entities).len();
    checks_settled_grounded(m.entities, validators, sums, more);
    guards_grounded(m.entities, 0, checks_settled(m.entities, validators, sums, more));
}

proof fn deps_of_grounded(
    entities: Seq<(Text, EntityView)>,
    module: Text,
    calls: Seq<CallFactView>,
    i: int,
    acc: Seq<((Text, Text), Seq<LocView>)>,
)
    requires
        grounded_deps(acc),
    ensures
        grounded_deps(deps_of(entities, module, calls, i, acc)),
    decreases calls.len() - i,
{
    if 0 <= i < calls.len() {
        let next = match lookup(entities, calls[i].target) {
            Some(target) => if target.module != module {
                with_site(acc, (module, target.module), calls[i].loc)
            } else {
                acc
            },
            None => acc,
        };
        match lookup(entities, calls[i].target) {
            Some(target) => {
                let k = (module, target.module);
                let sites = (match lookup(acc, k) {
                    Some(sites) => sites,
                    None => seq![],
                }).push(calls[i].loc);
                put_values(acc, k, sites);
                let with = put(acc, k, sites);
                assert forall|n: int| 0 <= n < with.len() implies (#[trigger] with[n]).1.len()
                    > 0 by {
                    if with[n] != (k, sites) {
                        let o = choose|o: int| 0 <= o < acc.len() && acc[o] == with[n];
                        assert(acc[o].1.len() > 0);
                    }
                }
            },
            None => {},
        }
        deps_of_grounded(entities, module, calls, i + 1, next);
    }
}

proof fn deps_grounded(
    entities: Seq<(Text, EntityView)>,
    i: int,
    acc: Seq<((Text, Text), Seq<LocView>)>,
)
    requires
        grounded_deps(acc),
    ensures
        grounded_deps(deps_from(entities, i, acc)),
    decreases entities.len() - i,
{
    if 0 <= i < entities.len() {
        let e = entities[i].1;
        deps_of_grounded(entities, e.module, e.calls, 0, acc);
        deps_grounded(entities, i + 1, deps_of(entities, e.module, e.calls, 0, acc));
    }
}

proof fn layers_grounded(
    deps: Seq<((Text, Text), Seq<LocView>)>,
    layers: Seq<(Text, Text)>,
    rs: Seq<RuleView>,
    i: int,
)
    requires
        grounded_deps(deps),
    ensures
        grounded_violations(layer_violations(deps, layers, rs, i)),
    decreases deps.len() - i,
{
    if 0 <= i < deps.len() {
        layers_grounded(deps, layers, rs, i + 1);
        assert(deps[i].1.len() > 0);
        let whole = layer_violations(deps, layers, rs, i);
        let rest = layer_violations(deps, layers, rs, i + 1);
        let n = whole.len() - rest.len();
        assert forall|j: int| 0 <= j < whole.len() implies (#[trigger] whole[j]).evidence.len()
            > 0 by {
            if j >= n {
                assert(whole[j] == rest[j - n]);
                assert(rest[j - n].evidence.len() > 0);
            }
        }
    }
}

proof fn foreign_grounded(
    entities: Seq<(Text, EntityView)>,
    field: Text,
    owners: Seq<Text>,
    i: int,
)
    ensures
        grounded_violations(foreign_writes(entities, field, owners, i)),
    decreases entities.len() - i,
{
    if 0 <= i < entities.len() {
        foreign_grounded(entities, field, owners, i + 1);
        let whole = foreign_writes(entities, field, owners, i);
        let rest = foreign_writes(entities, field, owners, i + 1);
        let n = whole.len() - rest.len();
        assert forall|j: int| 0 <= j < whole.len() implies (#[trigger] whole[j]).evidence.len()
            > 0 by {
            if j >= n {
                assert(whole[j] == rest[j - n]);
                assert(rest[j - n].evidence.len() > 0);
            }
        }
    }
}

proof fn grounded_add_up(a: Seq<ViolationView>, b: Seq<ViolationView>)
    requires
        grounded_violations(a),
        grounded_violations(b),
    ensures
        grounded_violations(a + b),
{
    assert forall|i: int| 0 <= i < (a + b).len() implies (#[trigger] (a + b)[i]).evidence.len()
        > 0 by {
        if i < a.len() {
            assert(a[i].evidence.len() > 0);
        } else {
            assert(b[i - a.len()].evidence.len() > 0);
        }
    }
}

proof fn ownership_grounded(
    entities: Seq<(Text, EntityView)>,
    ownership: Seq<(Text, Seq<Text>)>,
    i: int,
)
    ensures
        grounded_violations(ownership_violations(entities, ownership, i)),
    decreases ownership.len() - i,
{
    if 0 <= i < ownership.len() {
        ownership_grounded(entities, ownership, i + 1);
        foreign_grounded(entities, ownership[i].0, ownership[i].1, 0);
        grounded_add_up(
            foreign_writes(entities, ownership[i].0, ownership[i].1, 0),
            ownership_violations(entities, ownership, i + 1),
        );
    }
}

/// Every fact of the model of a program has a place in the code.
pub proof fn models_are_grounded(p: ProgramView, config: ConfigView)
    ensures
        grounded(modelled(p, config)),
{
    let cat = extended(config.catalog);
    let s = stated(p, cat);
    let ix = index_of(p);
    let k = SceneView { ix, cat, envs: envs_of(ix, cat) };
    let e = with_modules(empty_model(), k, p.modules, 0);
    modules_have_no_deps(empty_model(), k, p.modules, 0);
    deps_grounded(e.entities, 0, e.module_deps);
    summaries_grounded(s);
    let m = summarised(s);
    let layers = layers_from(m.entities, config.layers, 0, m.module_layers);
    layers_grounded(m.module_deps, layers, config.rules, 0);
    ownership_grounded(m.entities, config.ownership, 0);
    let one = layer_violations(m.module_deps, layers, config.rules, 0);
    let two = ownership_violations(m.entities, config.ownership, 0);
    grounded_add_up(one, two);
    let vs = sorted(one + two);
    assert forall|n: int| 0 <= n < vs.len() implies (#[trigger] vs[n]).evidence.len() > 0 by {
        sorted_members(one + two, vs[n]);
        assert(vs.contains(vs[n]));
        let o = choose|o: int| 0 <= o < (one + two).len() && (one + two)[o] == vs[n];
        assert((one + two)[o].evidence.len() > 0);
    }
    assert forall|n: int| 0 <= n < mined(m).len() implies 0 < (#[trigger] mined(m)[n]).confidence
        < 100 by {
        mined_invariants_hold(m, n);
    }
}

/// The model of a set of files has a place for every fact.
pub proof fn sources_are_grounded(files: Seq<(Text, Text)>)
    ensures
        model_of(files) matches Ok(m) ==> grounded(m),
{
    match model_of(files) {
        Ok(m) => {
            let p = program_of(files);
            let config = match lookup(files, "merak.toml"@) {
                Some(t) => declared(t)->Ok_0,
                None => nothing_declared(),
            };
            models_are_grounded(p, config);
            assert(m == modelled(p, config));
        },
        Err(_) => {},
    }
}

/// Whatever two sets of files hold, every operation of their transition but the claim of a pure
/// refactoring names a place in one of them, and says rightly how it came to be known.
pub proof fn transitions_are_told(before: Seq<(Text, Text)>, after: Seq<(Text, Text)>)
    ensures
        transition_of(before, after) matches Ok(t) ==> forall|i: int|
            0 <= i < t.ops.len() ==> is_honest(#[trigger] t.ops[i]) && (is_backed(t.ops[i])
                || t.ops[i].kind == "PURE_REFACTOR"@),
{
    sources_are_grounded(before);
    sources_are_grounded(after);
    match (model_of(before), model_of(after)) {
        (Ok(a), Ok(b)) => {
            operations_are_told(a, b);
        },
        _ => {},
    }
}

proof fn modules_have_no_deps(
    m: ModelView,
    k: SceneView,
    modules: Seq<(Text, ModuleView)>,
    i: int,
)
    ensures
        with_modules(m, k, modules, i).module_deps == m.module_deps,
    decreases modules.len() - i,
{
    if 0 <= i < modules.len() {
        let module = modules[i].1;
        let a = with_classes(m, module.classes, module.path, 0);
        let b = with_functions(a, k, module.functions, 0);
        classes_have_no_deps(m, module.classes, module.path, 0);
        functions_have_no_deps(a, k, module.functions, 0);
        schemas_have_no_deps(b, schemas_in(k.ix, k.cat, module), 0);
        modules_have_no_deps(with_module(m, k, module), k, modules, i + 1);
    }
}

proof fn classes_have_no_deps(m: ModelView, classes: Seq<ClassView>, path: Text, i: int)
    ensures
        with_classes(m, classes, path, i).module_deps == m.module_deps,
    decreases classes.len() - i,
{
    if 0 <= i < classes.len() {
        let c = classes[i];
        let info = ClassInfoView {
            id: c.id,
            name: c.name,
            module: path,
            methods: c.methods,
            loc: c.loc,
        };
        classes_have_no_deps(
            ModelView { classes: put(m.classes, c.id, info), ..m },
            classes,
            path,
            i + 1,
        );
    }
}

proof fn functions_have_no_deps(m: ModelView, k: SceneView, fs: Seq<FunctionView>, i: int)
    ensures
        with_functions(m, k, fs, i).module_deps == m.module_deps,
    decreases fs.len() - i,
{
    if 0 <= i < fs.len() {
        functions_have_no_deps(with_entity(m, entity_of(k, fs[i])), k, fs, i + 1);
    }
}

proof fn schemas_have_no_deps(m: ModelView, found: Seq<(Text, SchemaFactView)>, i: int)
    ensures
        with_schemas(m, found, i).module_deps == m.module_deps,
    decreases found.len() - i,
{
    if 0 <= i < found.len() {
        schemas_have_no_deps(
            ModelView { schemas: put(m.schemas, found[i].0, found[i].1), ..m },
            found,
            i + 1,
        );
    }
}

} // verus!
