//! State machines: which writes make an edge, and how a change to the sources of a state is told.

use crate::gains::says;
use crate::matching::matched;
use crate::model::{
    is_source, is_target, leads, sources_are_added, targets_are_added, EntityView, ModelView,
    StateEdgeView, StateMachineView, WriteFactView,
};
use crate::ops::{Layer, OpView};
use crate::ordered::{
    ascending, keys, lookup, lookup_after_put, lookup_of_other, put, put_keeps_order, rising,
    set_of, slot, slot_bounds, slot_of_stored, sorted, sorted_members, united, united_members,
    within,
};
use crate::ir::LocView;
use crate::pred::PredView;
use crate::spreading::sets_with_same_members;
use crate::states::{
    machine_changes, state_change, state_changes, state_changes_from, states_reached, ways_to,
};
use crate::summary::{
    edges_from, edges_of, guarded_states, summarised, with_edge, with_edges_sorted,
};
use crate::text;
use crate::text::Text;
use crate::transition::{all_ops, direct_ops, ops_between, typed_ops};
use vstd::prelude::*;

verus! {

// ---- sources

/// In a model, a field can pass from one state to another.
pub open spec fn passes(m: ModelView, field: Text, from: Text, to: Text) -> bool {
    lookup(m.state_machines, field) matches Some(sm) && exists|k: int|
        0 <= k < sm.edges.len() && (#[trigger] sm.edges[k]).to == to && sm.edges[k].from.contains(from)
}

/// A state of a field can be reached at all.
pub open spec fn is_reached(m: ModelView, field: Text, to: Text) -> bool {
    exists|s: Text| #[trigger] passes(m, field, s, to)
}

/// Wherever a state can be reached from in one model, it can be reached from in another.
pub open spec fn keeps_sources(a: ModelView, b: ModelView, field: Text, to: Text) -> bool {
    forall|s: Text| #[trigger] passes(a, field, s, to) ==> passes(b, field, s, to)
}

/// What a change of the sources of a state is called: the state came or went, it can be reached
/// from more states and still from each that it could, from fewer and from none that is new, or
/// from others.
pub open spec fn is_kind_of_change(
    kind: Text,
    a: ModelView,
    b: ModelView,
    field: Text,
    to: Text,
) -> bool {
    if !is_reached(a, field, to) {
        kind == "STATE_TRANSITION_ADDED"@
    } else if !is_reached(b, field, to) {
        kind == "STATE_TRANSITION_REMOVED"@
    } else if keeps_sources(a, b, field, to) {
        kind == "STATE_TRANSITION_SOURCE_WIDENED"@
    } else if keeps_sources(b, a, field, to) {
        kind == "STATE_TRANSITION_SOURCE_NARROWED"@
    } else {
        kind == "STATE_TRANSITION_CHANGED"@
    }
}

/// A text lists the states from which one can be reached, each once and in order; there is none
/// where it cannot be reached.
pub open spec fn lists_sources(t: Option<Text>, m: ModelView, field: Text, to: Text) -> bool {
    match t {
        None => !is_reached(m, field, to),
        Some(t) => is_reached(m, field, to) && exists|xs: Seq<Text>|
            #[trigger] rising(xs) && t == "{"@ + text::joined(xs, ", "@) + "}"@ && forall|s: Text|
                #[trigger] xs.contains(s) <==> passes(m, field, s, to),
    }
}

/// An operation tells how the sources of a state changed.
pub open spec fn tells_change(
    op: OpView,
    a: ModelView,
    b: ModelView,
    field: Text,
    to: Text,
) -> bool {
    &&& op.layer == Layer::Behaviour
    &&& op.subject == field + " → "@ + to
    &&& is_kind_of_change(op.kind, a, b, field, to)
    &&& lists_sources(op.before, a, field, to)
    &&& lists_sources(op.after, b, field, to)
}

/// The sources of a state differ.
pub open spec fn differs(a: ModelView, b: ModelView, field: Text, to: Text) -> bool {
    exists|s: Text| #[trigger] passes(a, field, s, to) != passes(b, field, s, to)
}

proof fn ways_are_sources(m: ModelView, field: Text, to: Text)
    ensures
        rising(ways_to(lookup(m.state_machines, field), to)),
        forall|s: Text|
            #[trigger] ways_to(lookup(m.state_machines, field), to).contains(s) <==> passes(
                m,
                field,
                s,
                to,
            ),
        ways_to(lookup(m.state_machines, field), to).len() > 0 <==> is_reached(m, field, to),
{
    let xs = ways_to(lookup(m.state_machines, field), to);
    if let Some(sm) = lookup(m.state_machines, field) {
        sources_are_added(sm.edges, to, 0, seq![]);
        assert forall|s: Text| #[trigger] xs.contains(s) <==> passes(m, field, s, to) by {
            if is_source(sm.edges, s, to, 0) {
                let k = choose|k: int|
                    0 <= k < sm.edges.len() && leads(#[trigger] sm.edges[k], s, to);
                assert(sm.edges[k].to == to);
            }
            if passes(m, field, s, to) {
                let k = choose|k: int|
                    0 <= k < sm.edges.len() && (#[trigger] sm.edges[k]).to == to
                        && sm.edges[k].from.contains(s);
                assert(leads(sm.edges[k], s, to));
            }
        }
    }
    if xs.len() > 0 {
        assert(xs.contains(xs[0]));
        assert(passes(m, field, xs[0], to));
    }
    if is_reached(m, field, to) {
        let s = choose|s: Text| #[trigger] passes(m, field, s, to);
        assert(xs.contains(s));
    }
}

proof fn within_is_kept(a: ModelView, b: ModelView, field: Text, to: Text)
    ensures
        within(
            ways_to(lookup(a.state_machines, field), to),
            ways_to(lookup(b.state_machines, field), to),
        ) == keeps_sources(a, b, field, to),
{
    ways_are_sources(a, field, to);
    ways_are_sources(b, field, to);
    let xs = ways_to(lookup(a.state_machines, field), to);
    let ys = ways_to(lookup(b.state_machines, field), to);
    if within(xs, ys) {
        assert forall|s: Text| #[trigger] passes(a, field, s, to) implies passes(b, field, s, to) by {
            assert(xs.contains(s));
            let i = choose|i: int| 0 <= i < xs.len() && xs[i] == s;
            assert(ys.contains(xs[i]));
        }
    }
    if keeps_sources(a, b, field, to) {
        assert forall|i: int| 0 <= i < xs.len() implies ys.contains(#[trigger] xs[i]) by {
            assert(xs.contains(xs[i]));
            assert(passes(a, field, xs[i], to));
        }
    }
}

proof fn one_state_told(a: ModelView, b: ModelView, field: Text, to: Text)
    ensures
        ({
            let ops = state_change(
                b,
                field,
                lookup(a.state_machines, field),
                lookup(b.state_machines, field),
                to,
            );
            &&& differs(a, b, field, to) ==> ops.len() == 1
            &&& !differs(a, b, field, to) ==> ops.len() == 0
            &&& forall|j: int|
                0 <= j < ops.len() ==> tells_change(#[trigger] ops[j], a, b, field, to)
        }),
{
    ways_are_sources(a, field, to);
    ways_are_sources(b, field, to);
    within_is_kept(a, b, field, to);
    within_is_kept(b, a, field, to);
    let xs = ways_to(lookup(a.state_machines, field), to);
    let ys = ways_to(lookup(b.state_machines, field), to);
    if differs(a, b, field, to) {
        let s = choose|s: Text| #[trigger] passes(a, field, s, to) != passes(b, field, s, to);
        assert(xs.contains(s) != ys.contains(s));
    } else {
        assert forall|s: Text| #[trigger] xs.contains(s) == ys.contains(s) by {
            assert(passes(a, field, s, to) == passes(b, field, s, to));
        }
        sets_with_same_members(xs, ys);
    }
    let ops = state_change(
        b,
        field,
        lookup(a.state_machines, field),
        lookup(b.state_machines, field),
        to,
    );
    if ops.len() > 0 {
        assert(ops[0].before == crate::states::sources_text(xs));
        assert(ops[0].after == crate::states::sources_text(ys));
        assert(rising(xs) && rising(ys));
        assert(lists_sources(ops[0].before, a, field, to));
        assert(lists_sources(ops[0].after, b, field, to));
    }
}

proof fn machine_told(
    a: ModelView,
    b: ModelView,
    field: Text,
    states: Seq<Text>,
    i: int,
)
    requires
        0 <= i,
    ensures
        ({
            let ops = machine_changes(
                b,
                field,
                lookup(a.state_machines, field),
                lookup(b.state_machines, field),
                states,
                i,
            );
            &&& forall|n: int|
                i <= n < states.len() && differs(a, b, field, #[trigger] states[n]) ==> some_tells(
                    ops,
                    a,
                    b,
                    field,
                    states[n],
                )
            &&& forall|j: int| 0 <= j < ops.len() ==> is_true_change(#[trigger] ops[j], a, b)
        }),
    decreases states.len() - i,
{
    if i < states.len() {
        machine_told(a, b, field, states, i + 1);
        one_state_told(a, b, field, states[i]);
        let sma = lookup(a.state_machines, field);
        let smb = lookup(b.state_machines, field);
        let head = state_change(b, field, sma, smb, states[i]);
        let rest = machine_changes(b, field, sma, smb, states, i + 1);
        let ops = machine_changes(b, field, sma, smb, states, i);
        assert(ops == head + rest);
        assert forall|n: int|
            i <= n < states.len() && differs(a, b, field, #[trigger] states[n]) implies some_tells(
            ops,
            a,
            b,
            field,
            states[n],
        ) by {
            if n == i {
                assert(ops[0] == head[0]);
            } else {
                tells_in_parts(head, rest, a, b, field, states[n]);
            }
        }
        assert forall|j: int| 0 <= j < ops.len() implies is_true_change(#[trigger] ops[j], a, b) by {
            if j < head.len() {
                assert(ops[j] == head[j]);
                assert(tells_change(ops[j], a, b, field, states[i]));
            } else {
                assert(ops[j] == rest[j - head.len()]);
            }
        }
    }
}

/// Some operation tells how the sources of a state changed.
pub open spec fn some_tells(
    ops: Seq<OpView>,
    a: ModelView,
    b: ModelView,
    field: Text,
    to: Text,
) -> bool {
    exists|j: int| 0 <= j < ops.len() && tells_change(#[trigger] ops[j], a, b, field, to)
}

/// An operation tells a change of sources that there is.
pub open spec fn is_true_change(op: OpView, a: ModelView, b: ModelView) -> bool {
    exists|field: Text, to: Text|
        #[trigger] differs(a, b, field, to) && tells_change(op, a, b, field, to)
}

proof fn tells_in_parts(
    x: Seq<OpView>,
    y: Seq<OpView>,
    a: ModelView,
    b: ModelView,
    field: Text,
    to: Text,
)
    ensures
        some_tells(x, a, b, field, to) ==> some_tells(x + y, a, b, field, to),
        some_tells(y, a, b, field, to) ==> some_tells(x + y, a, b, field, to),
{
    if some_tells(x, a, b, field, to) {
        let j = choose|j: int| 0 <= j < x.len() && tells_change(#[trigger] x[j], a, b, field, to);
        assert((x + y)[j] == x[j]);
    }
    if some_tells(y, a, b, field, to) {
        let j = choose|j: int| 0 <= j < y.len() && tells_change(#[trigger] y[j], a, b, field, to);
        assert((x + y)[x.len() + j] == y[j]);
    }
}

proof fn state_is_among(a: ModelView, b: ModelView, field: Text, to: Text)
    requires
        differs(a, b, field, to),
    ensures
        united(
            states_reached(lookup(a.state_machines, field)),
            states_reached(lookup(b.state_machines, field)),
        ).contains(to),
        keys(a.state_machines).contains(field) || keys(b.state_machines).contains(field),
{
    let x = states_reached(lookup(a.state_machines, field));
    let y = states_reached(lookup(b.state_machines, field));
    reached_are_targets(a, field);
    reached_are_targets(b, field);
    united_members(x, y);
    let s = choose|s: Text| #[trigger] passes(a, field, s, to) != passes(b, field, s, to);
    slot_bounds(a.state_machines, field);
    slot_bounds(b.state_machines, field);
    if passes(a, field, s, to) {
        assert(x.contains(to));
        let n = slot(a.state_machines, field);
        assert(keys(a.state_machines)[n] == field);
    } else {
        assert(y.contains(to));
        let n = slot(b.state_machines, field);
        assert(keys(b.state_machines)[n] == field);
    }
}

proof fn reached_are_targets(m: ModelView, field: Text)
    ensures
        rising(states_reached(lookup(m.state_machines, field))),
        forall|s: Text, to: Text|
            #[trigger] passes(m, field, s, to) ==> states_reached(
                lookup(m.state_machines, field),
            ).contains(to),
{
    if let Some(sm) = lookup(m.state_machines, field) {
        targets_are_added(sm.edges, 0, seq![]);
        assert forall|s: Text, to: Text| #[trigger] passes(m, field, s, to) implies states_reached(
            lookup(m.state_machines, field),
        ).contains(to) by {
            let k = choose|k: int|
                0 <= k < sm.edges.len() && (#[trigger] sm.edges[k]).to == to
                    && sm.edges[k].from.contains(s);
            assert(is_target(sm.edges, to, 0));
        }
    }
}

proof fn fields_told(a: ModelView, b: ModelView, fields: Seq<Text>, i: int)
    requires
        0 <= i,
    ensures
        forall|n: int, to: Text|
            i <= n < fields.len() && #[trigger] differs(a, b, fields[n], to) ==> some_tells(
                state_changes_from(a, b, fields, i),
                a,
                b,
                fields[n],
                to,
            ),
        forall|j: int|
            0 <= j < state_changes_from(a, b, fields, i).len() ==> is_true_change(
                #[trigger] state_changes_from(a, b, fields, i)[j],
                a,
                b,
            ),
    decreases fields.len() - i,
{
    if i < fields.len() {
        fields_told(a, b, fields, i + 1);
        let sma = lookup(a.state_machines, fields[i]);
        let smb = lookup(b.state_machines, fields[i]);
        let states = united(states_reached(sma), states_reached(smb));
        machine_told(a, b, fields[i], states, 0);
        let head = machine_changes(b, fields[i], sma, smb, states, 0);
        let rest = state_changes_from(a, b, fields, i + 1);
        let ops = state_changes_from(a, b, fields, i);
        assert(ops == head + rest);
        assert forall|n: int, to: Text|
            i <= n < fields.len() && #[trigger] differs(a, b, fields[n], to) implies some_tells(
            ops,
            a,
            b,
            fields[n],
            to,
        ) by {
            tells_in_parts(head, rest, a, b, fields[n], to);
            if n == i {
                state_is_among(a, b, fields[i], to);
                let k = choose|k: int| 0 <= k < states.len() && states[k] == to;
                assert(differs(a, b, fields[i], states[k]));
            }
        }
        assert forall|j: int| 0 <= j < ops.len() implies is_true_change(#[trigger] ops[j], a, b) by {
            if j < head.len() {
                assert(ops[j] == head[j]);
            } else {
                assert(ops[j] == rest[j - head.len()]);
            }
        }
    }
}

/// Where a state of a field can be reached from other states than before, the transition tells so
/// with the right kind and the states before and after. Where the new sources are some of the old
/// ones and not all, the kind is a narrowing; where they are all of the old ones and more, it is
/// a widening.
pub proof fn changed_sources_are_told(a: ModelView, b: ModelView, field: Text, to: Text)
    requires
        differs(a, b, field, to),
    ensures
        some_tells(ops_between(a, b), a, b, field, to),
{
    let x = set_of(keys(a.state_machines));
    let y = set_of(keys(b.state_machines));
    let none = Seq::<Text>::empty();
    assert(none =~= seq![]);
    united_members(none, keys(a.state_machines));
    united_members(none, keys(b.state_machines));
    united_members(x, y);
    state_is_among(a, b, field, to);
    let fields = united(x, y);
    assert(x.contains(field) || y.contains(field));
    assert(fields.contains(field));
    let n = choose|n: int| 0 <= n < fields.len() && fields[n] == field;
    fields_told(a, b, fields, 0);
    assert(differs(a, b, fields[n], to));
    let ops = state_changes(a, b);
    let j = choose|j: int| 0 <= j < ops.len() && tells_change(#[trigger] ops[j], a, b, field, to);
    let m = matched(a, b);
    state_op_is_there(a, b, j);
    let k = choose|k: int| 0 <= k < ops_between(a, b).len() && ops_between(a, b)[k] == ops[j];
    assert(tells_change(ops_between(a, b)[k], a, b, field, to));
}

proof fn state_op_is_there(a: ModelView, b: ModelView, j: int)
    requires
        0 <= j < state_changes(a, b).len(),
    ensures
        ops_between(a, b).contains(state_changes(a, b)[j]),
{
    let m = matched(a, b);
    let direct = direct_ops(a, b, m);
    let t1 = crate::additions::new_code(
        b,
        m,
        crate::additions::subjects_from(direct, 0, seq![]),
        0,
    );
    let t2 = crate::additions::schema_changes(a, b, m.modules, 0);
    let d = direct.len() + t1.len() + t2.len() + j;
    let typed = typed_ops(a, b, m);
    assert((direct + t1 + t2 + state_changes(a, b))[d] == state_changes(a, b)[j]);
    assert(typed[d] == state_changes(a, b)[j]);
    let all = all_ops(a, b, m);
    assert(all[d] == typed[d]);
    assert(ops_between(a, b)[d] == all[d]);
}

/// What is told of states is so: each operation is about a state whose sources changed, with the
/// right kind and the right states.
pub proof fn sources_told_are_so(a: ModelView, b: ModelView, j: int)
    requires
        0 <= j < state_changes(a, b).len(),
    ensures
        is_true_change(state_changes(a, b)[j], a, b),
{
    fields_told(
        a,
        b,
        united(set_of(keys(a.state_machines)), set_of(keys(b.state_machines))),
        0,
    );
}

/// A widening keeps every source and adds one, and a narrowing adds none and leaves one out.
pub proof fn widening_is_no_narrowing(
    op: OpView,
    a: ModelView,
    b: ModelView,
    field: Text,
    to: Text,
)
    requires
        differs(a, b, field, to),
        tells_change(op, a, b, field, to),
    ensures
        op.kind == "STATE_TRANSITION_SOURCE_WIDENED"@ ==> keeps_sources(a, b, field, to)
            && !keeps_sources(b, a, field, to),
        op.kind == "STATE_TRANSITION_SOURCE_NARROWED"@ ==> keeps_sources(b, a, field, to)
            && !keeps_sources(a, b, field, to),
        is_reached(b, field, to) && keeps_sources(b, a, field, to) ==> op.kind
            == "STATE_TRANSITION_SOURCE_NARROWED"@,
{
    reveal_strlit("STATE_TRANSITION_ADDED");
    reveal_strlit("STATE_TRANSITION_REMOVED");
    reveal_strlit("STATE_TRANSITION_SOURCE_WIDENED");
    reveal_strlit("STATE_TRANSITION_SOURCE_NARROWED");
    reveal_strlit("STATE_TRANSITION_CHANGED");
    assert("STATE_TRANSITION_SOURCE_WIDENED"@.len() == 31);
    assert("STATE_TRANSITION_SOURCE_NARROWED"@.len() == 32);
    assert("STATE_TRANSITION_ADDED"@.len() == 22);
    assert("STATE_TRANSITION_REMOVED"@.len() == 24);
    assert("STATE_TRANSITION_CHANGED"@.len() == 24);
    let s = choose|s: Text| #[trigger] passes(a, field, s, to) != passes(b, field, s, to);
    assert(keeps_sources(a, b, field, to) && keeps_sources(b, a, field, to) ==> passes(
        a,
        field,
        s,
        to,
    ) == passes(b, field, s, to));
    if is_reached(b, field, to) && keeps_sources(b, a, field, to) {
        let r = choose|r: Text| #[trigger] passes(b, field, r, to);
        assert(passes(a, field, r, to));
    }
}

// ---- derivation

/// The states that a write is guarded to: those of the first requirement that the field is one of
/// some values.
pub open spec fn is_guarded_to(
    requirements: Seq<(Text, PredView, LocView)>,
    field: Text,
    n: int,
    values: Seq<Text>,
) -> bool {
    &&& 0 <= n < requirements.len()
    &&& requirements[n].1 == (PredView::In { field, values })
    &&& forall|k: int| 0 <= k < n ==> !admits_values(#[trigger] requirements[k].1, field)
}

/// A predicate says that a field is one of some values.
pub open spec fn admits_values(p: PredView, field: Text) -> bool {
    p matches PredView::In { field: f, .. } && f == field
}

/// What is required where an entity runs.
pub open spec fn requirements_of(m: ModelView, e: EntityView) -> Seq<(Text, PredView, LocView)> {
    match lookup(m.summaries, e.id) {
        Some(s) => s.requirements,
        None => seq![],
    }
}

/// An edge is the one of a write: it leads to the value written, where the field has that value
/// in its domain. A write that creates leads from nothing (`∅`), a guarded one from the values
/// that its guard admits, and one without a guard from anywhere (`*`).
pub open spec fn is_edge_of(
    m: ModelView,
    e: EntityView,
    w: WriteFactView,
    field: Text,
    x: StateEdgeView,
) -> bool {
    &&& w.field == field
    &&& w.value == Some(x.to)
    &&& lookup(m.field_domains, field) matches Some(domain) && domain.contains(x.to)
    &&& x.writer == e.id
    &&& x.loc == w.loc
    &&& if w.creation {
        x.from == seq!["∅"@]
    } else {
        ||| exists|n: int| #[trigger] is_guarded_to(requirements_of(m, e), field, n, x.from)
        ||| x.from == seq!["*"@] && forall|k: int|
            0 <= k < requirements_of(m, e).len() ==> !admits_values(
                #[trigger] requirements_of(m, e)[k].1,
                field,
            )
    }
}

/// A machine of a field has an edge.
pub open spec fn has_edge(sms: Seq<(Text, StateMachineView)>, field: Text, x: StateEdgeView) -> bool {
    lookup(sms, field) matches Some(sm) && sm.edges.contains(x)
}

proof fn guarded_states_are(
    requirements: Seq<(Text, PredView, LocView)>,
    field: Text,
    i: int,
)
    requires
        0 <= i,
        forall|k: int|
            0 <= k < i && k < requirements.len() ==> !admits_values(
                #[trigger] requirements[k].1,
                field,
            ),
    ensures
        ({
            let xs = guarded_states(requirements, field, i);
            ||| exists|n: int| #[trigger] is_guarded_to(requirements, field, n, xs)
            ||| xs == seq!["*"@] && forall|k: int|
                0 <= k < requirements.len() ==> !admits_values(#[trigger] requirements[k].1, field)
        }),
    decreases requirements.len() - i,
{
    if i < requirements.len() {
        match requirements[i].1 {
            PredView::In { field: f, values } => if f == field {
                assert(is_guarded_to(requirements, field, i, values));
            } else {
                guarded_states_are(requirements, field, i + 1);
            },
            _ => guarded_states_are(requirements, field, i + 1),
        }
    } else {
        one_state("*"@);
    }
}

proof fn one_state(s: Text)
    ensures
        crate::ordered::added(seq![], s) == seq![s],
{
    crate::ordered::seat_bounds(Seq::<Text>::empty(), s);
    assert(crate::ordered::added(Seq::<Text>::empty(), s) =~= seq![s]);
}

proof fn guarded_once(
    requirements: Seq<(Text, PredView, LocView)>,
    field: Text,
    n: int,
    xs: Seq<Text>,
    k: int,
    ys: Seq<Text>,
)
    requires
        is_guarded_to(requirements, field, n, xs),
        is_guarded_to(requirements, field, k, ys),
    ensures
        xs == ys,
{
    assert(admits_values(requirements[n].1, field));
    assert(admits_values(requirements[k].1, field));
}

/// Storing an edge adds the edge of a write and no other.
proof fn with_edge_adds(
    m: ModelView,
    e: EntityView,
    w: WriteFactView,
    acc: Seq<(Text, StateMachineView)>,
)
    requires
        ascending(acc),
    ensures
        ascending(with_edge(m, e, w, acc)),
        forall|field: Text, x: StateEdgeView|
            #[trigger] has_edge(with_edge(m, e, w, acc), field, x) <==> has_edge(acc, field, x)
                || is_edge_of(m, e, w, field, x),
{
    let all = with_edge(m, e, w, acc);
    match (w.value, lookup(m.field_domains, w.field)) {
        (Some(to), Some(domain)) => {
            if domain.contains(to) {
                let rs = requirements_of(m, e);
                guarded_states_are(rs, w.field, 0);
                one_state("∅"@);
                one_state("*"@);
                let from = if w.creation {
                    seq!["∅"@]
                } else {
                    guarded_states(rs, w.field, 0)
                };
                let edge = StateEdgeView { from, to, writer: e.id, loc: w.loc };
                let sm = match lookup(acc, w.field) {
                    Some(sm) => sm,
                    None => StateMachineView { field: w.field, states: domain, edges: seq![] },
                };
                let next = StateMachineView { edges: sm.edges.push(edge), ..sm };
                assert(all == put(acc, w.field, next));
                put_keeps_order(acc, w.field, next);
                lookup_after_put(acc, w.field, next);
                assert forall|field: Text, x: StateEdgeView|
                    #[trigger] has_edge(all, field, x) <==> has_edge(acc, field, x) || is_edge_of(
                        m,
                        e,
                        w,
                        field,
                        x,
                    ) by {
                    if field != w.field {
                        lookup_of_other(acc, w.field, next, field);
                    } else {
                        edge_is_that(m, e, w, x, edge);
                        pushed_edge(sm.edges, edge, x);
                    }
                }
            }
        },
        _ => {},
    }
}

proof fn pushed_edge(edges: Seq<StateEdgeView>, edge: StateEdgeView, x: StateEdgeView)
    ensures
        edges.push(edge).contains(x) == (edges.contains(x) || x == edge),
{
    let next = edges.push(edge);
    assert(next[edges.len() as int] == edge);
    if edges.contains(x) {
        let i = choose|i: int| 0 <= i < edges.len() && edges[i] == x;
        assert(next[i] == x);
    }
    if next.contains(x) {
        let i = choose|i: int| 0 <= i < next.len() && next[i] == x;
        if i < edges.len() {
            assert(edges[i] == x);
        }
    }
}

proof fn edge_is_that(
    m: ModelView,
    e: EntityView,
    w: WriteFactView,
    x: StateEdgeView,
    edge: StateEdgeView,
)
    requires
        w.value == Some(edge.to),
        lookup(m.field_domains, w.field) matches Some(domain) && domain.contains(edge.to),
        edge.writer == e.id,
        edge.loc == w.loc,
        edge.from == (if w.creation {
            seq!["∅"@]
        } else {
            guarded_states(requirements_of(m, e), w.field, 0)
        }),
    ensures
        is_edge_of(m, e, w, w.field, x) <==> x == edge,
{
    let rs = requirements_of(m, e);
    guarded_states_are(rs, w.field, 0);
    if is_edge_of(m, e, w, w.field, x) && !w.creation {
        if exists|n: int| #[trigger] is_guarded_to(rs, w.field, n, x.from) {
            let n = choose|n: int| #[trigger] is_guarded_to(rs, w.field, n, x.from);
            assert(admits_values(rs[n].1, w.field));
            let k = choose|k: int| #[trigger] is_guarded_to(rs, w.field, k, edge.from);
            guarded_once(rs, w.field, n, x.from, k, edge.from);
        } else {
            if exists|k: int| #[trigger] is_guarded_to(rs, w.field, k, edge.from) {
                let k = choose|k: int| #[trigger] is_guarded_to(rs, w.field, k, edge.from);
                assert(admits_values(rs[k].1, w.field));
            }
        }
        assert(x.from == edge.from);
    }
}

/// Some write of an entity, from one of its writes on, makes an edge.
spec fn is_written(m: ModelView, e: EntityView, i: int, field: Text, x: StateEdgeView) -> bool {
    exists|k: int| i <= k < e.writes.len() && is_edge_of(m, e, #[trigger] e.writes[k], field, x)
}

/// Some entity makes an edge.
pub open spec fn is_derived(m: ModelView, i: int, field: Text, x: StateEdgeView) -> bool {
    exists|n: int, k: int|
        #![trigger m.entities[n].1.writes[k]]
        i <= n < m.entities.len() && 0 <= k < m.entities[n].1.writes.len() && is_edge_of(
            m,
            m.entities[n].1,
            m.entities[n].1.writes[k],
            field,
            x,
        )
}

proof fn edges_of_add(
    m: ModelView,
    e: EntityView,
    i: int,
    acc: Seq<(Text, StateMachineView)>,
)
    requires
        ascending(acc),
        0 <= i,
    ensures
        ascending(edges_of(m, e, i, acc)),
        forall|field: Text, x: StateEdgeView|
            #[trigger] has_edge(edges_of(m, e, i, acc), field, x) <==> has_edge(acc, field, x)
                || is_written(m, e, i, field, x),
    decreases e.writes.len() - i,
{
    if i < e.writes.len() {
        let next = with_edge(m, e, e.writes[i], acc);
        with_edge_adds(m, e, e.writes[i], acc);
        edges_of_add(m, e, i + 1, next);
        assert forall|field: Text, x: StateEdgeView|
            #[trigger] has_edge(edges_of(m, e, i, acc), field, x) <==> has_edge(acc, field, x)
                || is_written(m, e, i, field, x) by {
            assert(has_edge(next, field, x) <==> has_edge(acc, field, x) || is_edge_of(
                m,
                e,
                e.writes[i],
                field,
                x,
            ));
            if is_written(m, e, i, field, x) {
                let k = choose|k: int|
                    i <= k < e.writes.len() && is_edge_of(m, e, #[trigger] e.writes[k], field, x);
                if k > i {
                    assert(is_written(m, e, i + 1, field, x));
                }
            }
            if is_written(m, e, i + 1, field, x) {
                let k = choose|k: int|
                    i + 1 <= k < e.writes.len() && is_edge_of(m, e, #[trigger] e.writes[k], field, x);
                assert(is_edge_of(m, e, e.writes[k], field, x));
            }
        }
    }
}

proof fn edges_from_add(m: ModelView, i: int, acc: Seq<(Text, StateMachineView)>)
    requires
        ascending(acc),
        0 <= i,
    ensures
        ascending(edges_from(m, i, acc)),
        forall|field: Text, x: StateEdgeView|
            #[trigger] has_edge(edges_from(m, i, acc), field, x) <==> has_edge(acc, field, x)
                || is_derived(m, i, field, x),
    decreases m.entities.len() - i,
{
    if i < m.entities.len() {
        let e = m.entities[i].1;
        let next = edges_of(m, e, 0, acc);
        edges_of_add(m, e, 0, acc);
        edges_from_add(m, i + 1, next);
        assert forall|field: Text, x: StateEdgeView|
            #[trigger] has_edge(edges_from(m, i, acc), field, x) <==> has_edge(acc, field, x)
                || is_derived(m, i, field, x) by {
            assert(has_edge(next, field, x) <==> has_edge(acc, field, x) || is_written(
                m,
                e,
                0,
                field,
                x,
            ));
            if is_derived(m, i, field, x) {
                let (n, k) = choose|n: int, k: int|
                    #![trigger m.entities[n].1.writes[k]]
                    i <= n < m.entities.len() && 0 <= k < m.entities[n].1.writes.len() && is_edge_of(
                        m,
                        m.entities[n].1,
                        m.entities[n].1.writes[k],
                        field,
                        x,
                    );
                if n == i {
                    assert(is_edge_of(m, e, e.writes[k], field, x));
                } else {
                    assert(is_derived(m, i + 1, field, x));
                }
            }
            if is_written(m, e, 0, field, x) {
                let k = choose|k: int|
                    0 <= k < e.writes.len() && is_edge_of(m, e, #[trigger] e.writes[k], field, x);
                assert(is_edge_of(m, m.entities[i].1, m.entities[i].1.writes[k], field, x));
            }
            if is_derived(m, i + 1, field, x) {
                let (n, k) = choose|n: int, k: int|
                    #![trigger m.entities[n].1.writes[k]]
                    i + 1 <= n < m.entities.len() && 0 <= k < m.entities[n].1.writes.len()
                        && is_edge_of(
                        m,
                        m.entities[n].1,
                        m.entities[n].1.writes[k],
                        field,
                        x,
                    );
                assert(is_edge_of(m, m.entities[n].1, m.entities[n].1.writes[k], field, x));
            }
        }
    }
}

/// The machines from index `i` on have an edge.
spec fn is_edge_from(
    sms: Seq<(Text, StateMachineView)>,
    i: int,
    field: Text,
    x: StateEdgeView,
) -> bool {
    exists|n: int|
        i <= n < sms.len() && (#[trigger] sms[n]).0 == field && sms[n].1.edges.contains(x)
}

proof fn sorting_keeps_edges(
    sms: Seq<(Text, StateMachineView)>,
    i: int,
    acc: Seq<(Text, StateMachineView)>,
)
    requires
        ascending(sms),
        ascending(acc),
        0 <= i,
        forall|n: int| i <= n < sms.len() ==> lookup(acc, (#[trigger] sms[n]).0) is None,
    ensures
        forall|field: Text, x: StateEdgeView|
            #[trigger] has_edge(with_edges_sorted(sms, i, acc), field, x) <==> has_edge(acc, field, x)
                || is_edge_from(sms, i, field, x),
    decreases sms.len() - i,
{
    if i < sms.len() {
        let k = sms[i].0;
        let sm = StateMachineView { edges: sorted(sms[i].1.edges), ..sms[i].1 };
        let next = put(acc, k, sm);
        put_keeps_order(acc, k, sm);
        lookup_after_put(acc, k, sm);
        assert forall|n: int| i + 1 <= n < sms.len() implies lookup(next, (#[trigger] sms[n]).0)
            is None by {
            slot_of_stored(sms, n);
            slot_of_stored(sms, i);
            assert(sms[n].0 != k);
            lookup_of_other(acc, k, sm, sms[n].0);
        }
        sorting_keeps_edges(sms, i + 1, next);
        assert forall|field: Text, x: StateEdgeView|
            #[trigger] has_edge(with_edges_sorted(sms, i, acc), field, x) <==> has_edge(acc, field, x)
                || is_edge_from(sms, i, field, x) by {
            assert(has_edge(with_edges_sorted(sms, i + 1, next), field, x) <==> has_edge(
                next,
                field,
                x,
            ) || is_edge_from(sms, i + 1, field, x));
            sorted_members(sms[i].1.edges, x);
            if field != k {
                lookup_of_other(acc, k, sm, field);
            }
            if is_edge_from(sms, i, field, x) {
                let n = choose|n: int|
                    i <= n < sms.len() && (#[trigger] sms[n]).0 == field && sms[n].1.edges.contains(x);
                if n > i {
                    assert(is_edge_from(sms, i + 1, field, x));
                }
            }
            if is_edge_from(sms, i + 1, field, x) {
                let n = choose|n: int|
                    i + 1 <= n < sms.len() && (#[trigger] sms[n]).0 == field
                        && sms[n].1.edges.contains(x);
                assert(sms[n].0 == field);
            }
        }
    }
}

proof fn edge_needs_only(
    s: ModelView,
    t: ModelView,
    e: EntityView,
    w: WriteFactView,
    field: Text,
    x: StateEdgeView,
)
    requires
        s.summaries == t.summaries,
        s.field_domains == t.field_domains,
    ensures
        is_edge_of(s, e, w, field, x) == is_edge_of(t, e, w, field, x),
{
    assert(requirements_of(s, e) == requirements_of(t, e));
}

/// The state machines of a model have the edges of the writes of its entities, and no others.
pub proof fn machines_have_edges_of_writes(m: ModelView, field: Text, x: StateEdgeView)
    ensures
        has_edge(summarised(m).state_machines, field, x) <==> is_derived(summarised(m), 0, field, x),
{
    let (sums, validators) = crate::summary::summaries_of(m);
    let s = ModelView {
        summaries: crate::summary::with_guards(m.entities, 0, sums),
        validators,
        ..m
    };
    let t = summarised(m);
    let none = Seq::<(Text, StateMachineView)>::empty();
    assert(none =~= seq![]);
    edges_from_add(s, 0, none);
    let sms = edges_from(s, 0, none);
    sorting_keeps_edges(sms, 0, none);
    assert(t.state_machines == with_edges_sorted(sms, 0, none));
    assert(has_edge(t.state_machines, field, x) <==> has_edge(none, field, x) || is_edge_from(
        sms,
        0,
        field,
        x,
    ));
    if is_edge_from(sms, 0, field, x) {
        let n = choose|n: int|
            0 <= n < sms.len() && (#[trigger] sms[n]).0 == field && sms[n].1.edges.contains(x);
        slot_of_stored(sms, n);
        assert(has_edge(sms, field, x));
    }
    if has_edge(sms, field, x) {
        slot_bounds(sms, field);
        assert(sms[slot(sms, field)].0 == field);
    }
    assert(has_edge(sms, field, x) <==> has_edge(none, field, x) || is_derived(s, 0, field, x));
    assert(s.entities == t.entities && s.summaries == t.summaries && s.field_domains
        == t.field_domains);
    if is_derived(s, 0, field, x) {
        let (n, k) = choose|n: int, k: int|
            #![trigger s.entities[n].1.writes[k]]
            0 <= n < s.entities.len() && 0 <= k < s.entities[n].1.writes.len() && is_edge_of(
                s,
                s.entities[n].1,
                s.entities[n].1.writes[k],
                field,
                x,
            );
        edge_needs_only(s, t, t.entities[n].1, t.entities[n].1.writes[k], field, x);
        assert(is_edge_of(t, t.entities[n].1, t.entities[n].1.writes[k], field, x));
    }
    if is_derived(t, 0, field, x) {
        let (n, k) = choose|n: int, k: int|
            #![trigger t.entities[n].1.writes[k]]
            0 <= n < t.entities.len() && 0 <= k < t.entities[n].1.writes.len() && is_edge_of(
                t,
                t.entities[n].1,
                t.entities[n].1.writes[k],
                field,
                x,
            );
        edge_needs_only(s, t, s.entities[n].1, s.entities[n].1.writes[k], field, x);
        assert(is_edge_of(s, s.entities[n].1, s.entities[n].1.writes[k], field, x));
    }
}

} // verus!
