//! Transitive behaviour summaries (a monotone fixpoint over the call graph and
//! event subscriptions), validator detection and state machines.

use crate::ir::{Loc, LocView};
use crate::list;
use crate::list::Plain;
use crate::model::{
    is_write_effect, is_write_kind, AccessFact, AccessFactView, CallFact, CallFactView, EffectFact,
    EffectFactView, EffectInfo, EffectInfoView, EffectKey, EffectKeyView, Entity, EntityView,
    GuardFactView, Model, ModelView, Route, RouteView, StateEdge, StateEdgeView, StateMachine,
    StateMachineView, Subscription, SubscriptionView, Summary, SummaryView, WriteFact,
    WriteFactView,
};
use crate::ordered;
use crate::ordered::{
    added, ascending, keys, lookup, lookup_after_put, lookup_of_other, put, put_keeps_order,
    put_values, set_of, sorted, united, SortedMap, SortedSet,
};
use crate::pred::{negation, pred_text, simplified, Pred, PredView};
use crate::spreading::{
    all_neat, all_tidy, check_pass_makes_room, checks, checks_closed, facts, is_closed,
    own_facts_can_be_found, pass_makes_room, possible, possible_checks, settled_checks_can_be_found,
};
use crate::text;
use crate::text::Text;
use vstd::prelude::*;

verus! {

// ---- own facts

/// How an effect is reached, with more ways to it.
pub open spec fn joined_info(a: EffectInfoView, b: EffectInfoView) -> EffectInfoView {
    EffectInfoView {
        modes: united(a.modes, b.modes),
        via: united(a.via, b.via),
        evidence: united(a.evidence, b.evidence),
    }
}

/// An effect that nothing reaches yet.
pub open spec fn no_info() -> EffectInfoView {
    EffectInfoView { modes: seq![], via: seq![], evidence: seq![] }
}

/// The effects with more ways to `k`.
pub open spec fn with_info(
    effects: Seq<(EffectKeyView, EffectInfoView)>,
    k: EffectKeyView,
    info: EffectInfoView,
) -> Seq<(EffectKeyView, EffectInfoView)> {
    put(
        effects,
        k,
        joined_info(
            match lookup(effects, k) {
                Some(i) => i,
                None => no_info(),
            },
            info,
        ),
    )
}

/// The effects with an entity's own from index `i` on.
pub open spec fn own_effects(
    effects: Seq<EffectFactView>,
    i: int,
    acc: Seq<(EffectKeyView, EffectInfoView)>,
) -> Seq<(EffectKeyView, EffectInfoView)>
    decreases effects.len() - i,
{
    if 0 <= i < effects.len() {
        own_effects(
            effects,
            i + 1,
            with_info(
                acc,
                effects[i].key,
                EffectInfoView {
                    modes: added(seq![], "sync"@),
                    via: added(seq![], "direct"@),
                    evidence: added(seq![], effects[i].loc),
                },
            ),
        )
    } else {
        acc
    }
}

/// The fields that the writes from index `i` on write, added to `acc`.
pub open spec fn own_writes(writes: Seq<WriteFactView>, i: int, acc: Seq<Text>) -> Seq<Text>
    decreases writes.len() - i,
{
    if 0 <= i < writes.len() {
        own_writes(writes, i + 1, added(acc, writes[i].field))
    } else {
        acc
    }
}

/// The access requirements from index `i` on, added to `acc`: the first of each stays.
pub open spec fn own_access(
    access: Seq<AccessFactView>,
    i: int,
    acc: Seq<(Text, AccessFactView)>,
) -> Seq<(Text, AccessFactView)>
    decreases access.len() - i,
{
    if 0 <= i < access.len() {
        own_access(access, i + 1, first_put(acc, access[i].requirement, access[i]))
    } else {
        acc
    }
}

/// The entries with `v` under `k`, unless something is there already.
pub open spec fn first_put<V>(m: Seq<(Text, V)>, k: Text, v: V) -> Seq<(Text, V)> {
    if lookup(m, k) is Some {
        m
    } else {
        put(m, k, v)
    }
}

/// An entity's own facts.
pub open spec fn own_summary(e: EntityView) -> SummaryView {
    SummaryView {
        effects: own_effects(e.effects, 0, seq![]),
        validations: seq![],
        writes: own_writes(e.writes, 0, seq![]),
        reads: set_of(keys(e.reads)),
        requirements: seq![],
        access: own_access(e.access, 0, seq![]),
    }
}

/// The own facts of the entities from index `i` on, added to `acc`.
pub open spec fn own_summaries(
    entities: Seq<(Text, EntityView)>,
    i: int,
    acc: Seq<(Text, SummaryView)>,
) -> Seq<(Text, SummaryView)>
    decreases entities.len() - i,
{
    if 0 <= i < entities.len() {
        own_summaries(
            entities,
            i + 1,
            put(acc, entities[i].1.id, own_summary(entities[i].1)),
        )
    } else {
        acc
    }
}

// ---- effects, reads and writes

/// The effects with those of a callee from index `i` on, reached through `target`.
pub open spec fn through_call(
    target: Text,
    theirs: Seq<(EffectKeyView, EffectInfoView)>,
    i: int,
    acc: Seq<(EffectKeyView, EffectInfoView)>,
) -> Seq<(EffectKeyView, EffectInfoView)>
    decreases theirs.len() - i,
{
    if 0 <= i < theirs.len() {
        through_call(
            target,
            theirs,
            i + 1,
            with_info(
                acc,
                theirs[i].0,
                EffectInfoView {
                    modes: theirs[i].1.modes,
                    via: added(seq![], target),
                    evidence: theirs[i].1.evidence,
                },
            ),
        )
    } else {
        acc
    }
}

/// The effects with those of a handler from index `i` on, reached through `event`.
pub open spec fn through_event(
    event: Text,
    theirs: Seq<(EffectKeyView, EffectInfoView)>,
    i: int,
    acc: Seq<(EffectKeyView, EffectInfoView)>,
) -> Seq<(EffectKeyView, EffectInfoView)>
    decreases theirs.len() - i,
{
    if 0 <= i < theirs.len() {
        through_event(
            event,
            theirs,
            i + 1,
            with_info(
                acc,
                theirs[i].0,
                EffectInfoView {
                    modes: added(seq![], "async via "@ + event),
                    via: added(seq![], "event:"@ + event),
                    evidence: theirs[i].1.evidence,
                },
            ),
        )
    } else {
        acc
    }
}

/// A summary with what the calls from index `i` on reach.
pub open spec fn after_calls(
    calls: Seq<CallFactView>,
    sums: Seq<(Text, SummaryView)>,
    i: int,
    s: SummaryView,
) -> SummaryView
    decreases calls.len() - i,
{
    if 0 <= i < calls.len() {
        after_calls(
            calls,
            sums,
            i + 1,
            match lookup(sums, calls[i].target) {
                Some(cs) => SummaryView {
                    effects: through_call(calls[i].target, cs.effects, 0, s.effects),
                    reads: united(s.reads, cs.reads),
                    writes: united(s.writes, cs.writes),
                    ..s
                },
                None => s,
            },
        )
    } else {
        s
    }
}

/// The effects with what the handlers of `event` among the subscriptions from index `i` on
/// reach.
pub open spec fn after_handlers(
    event: Text,
    subs: Seq<SubscriptionView>,
    sums: Seq<(Text, SummaryView)>,
    i: int,
    acc: Seq<(EffectKeyView, EffectInfoView)>,
) -> Seq<(EffectKeyView, EffectInfoView)>
    decreases subs.len() - i,
{
    if 0 <= i < subs.len() {
        after_handlers(
            event,
            subs,
            sums,
            i + 1,
            if subs[i].event == event {
                match lookup(sums, subs[i].handler) {
                    Some(hs) => through_event(event, hs.effects, 0, acc),
                    None => acc,
                }
            } else {
                acc
            },
        )
    } else {
        acc
    }
}

/// The effects with what the events that the effects from index `i` on emit set off.
pub open spec fn after_events(
    effects: Seq<EffectFactView>,
    subs: Seq<SubscriptionView>,
    sums: Seq<(Text, SummaryView)>,
    i: int,
    acc: Seq<(EffectKeyView, EffectInfoView)>,
) -> Seq<(EffectKeyView, EffectInfoView)>
    decreases effects.len() - i,
{
    if 0 <= i < effects.len() {
        after_events(
            effects,
            subs,
            sums,
            i + 1,
            if effects[i].key.kind == "event_emit"@ {
                after_handlers(effects[i].key.target, subs, sums, 0, acc)
            } else {
                acc
            },
        )
    } else {
        acc
    }
}

/// A summary with what the entity reaches in one step.
pub open spec fn step(
    e: EntityView,
    subs: Seq<SubscriptionView>,
    sums: Seq<(Text, SummaryView)>,
    s: SummaryView,
) -> SummaryView {
    let s = after_calls(e.calls, sums, 0, s);
    SummaryView { effects: after_events(e.effects, subs, sums, 0, s.effects), ..s }
}

/// One pass over the entities from index `i` on: each is summarised again.
pub open spec fn pass(
    entities: Seq<(Text, EntityView)>,
    subs: Seq<SubscriptionView>,
    i: int,
    sums: Seq<(Text, SummaryView)>,
) -> Seq<(Text, SummaryView)>
    decreases entities.len() - i,
{
    if 0 <= i < entities.len() {
        let e = entities[i].1;
        pass(
            entities,
            subs,
            i + 1,
            match lookup(sums, e.id) {
                Some(s) => put(sums, e.id, step(e, subs, sums, s)),
                None => sums,
            },
        )
    } else {
        sums
    }
}

/// Passes until one of them changes nothing, at most `rounds` of them. As many rounds as there
/// are facts to be found are enough: each of them but the last finds one.
pub open spec fn settled(
    entities: Seq<(Text, EntityView)>,
    subs: Seq<SubscriptionView>,
    sums: Seq<(Text, SummaryView)>,
    rounds: nat,
) -> Seq<(Text, SummaryView)>
    decreases rounds,
{
    let next = pass(entities, subs, 0, sums);
    if next == sums || rounds == 0 {
        sums
    } else {
        settled(entities, subs, next, (rounds - 1) as nat)
    }
}

// ---- validators

/// An effect of the entries changes something outside.
pub open spec fn has_write(effects: Seq<(EffectKeyView, EffectInfoView)>) -> bool {
    exists|i: int| 0 <= i < effects.len() && is_write_kind((#[trigger] effects[i]).0.kind)
}

/// A route is handled by `id`.
pub open spec fn is_handler(routes: Seq<RouteView>, id: Text) -> bool {
    exists|i: int| 0 <= i < routes.len() && (#[trigger] routes[i]).handler == id
}

/// An entity that throws on bad input and changes nothing.
pub open spec fn is_validator(m: ModelView, e: EntityView, sums: Seq<(Text, SummaryView)>) -> bool {
    match lookup(sums, e.id) {
        Some(s) => e.throws && e.returns is None && s.writes.len() == 0 && !has_write(s.effects)
            && !is_handler(m.routes, e.id),
        None => false,
    }
}

/// The validators among the entities from index `i` on, added to `acc`.
pub open spec fn validators_from(
    m: ModelView,
    sums: Seq<(Text, SummaryView)>,
    i: int,
    acc: Seq<Text>,
) -> Seq<Text>
    decreases m.entities.len() - i,
{
    if 0 <= i < m.entities.len() {
        let e = m.entities[i].1;
        validators_from(
            m,
            sums,
            i + 1,
            if is_validator(m, e, sums) {
                added(acc, e.id)
            } else {
                acc
            },
        )
    } else {
        acc
    }
}

/// The validations with the keys of `theirs` from index `i` on.
pub open spec fn with_validations(
    theirs: Seq<(Text, LocView)>,
    loc: LocView,
    i: int,
    acc: Seq<(Text, LocView)>,
) -> Seq<(Text, LocView)>
    decreases theirs.len() - i,
{
    if 0 <= i < theirs.len() {
        with_validations(theirs, loc, i + 1, first_put(acc, theirs[i].0, loc))
    } else {
        acc
    }
}

/// The requirements with the constant ones of `theirs` from index `i` on.
pub open spec fn with_access(
    theirs: Seq<(Text, AccessFactView)>,
    i: int,
    acc: Seq<(Text, AccessFactView)>,
) -> Seq<(Text, AccessFactView)>
    decreases theirs.len() - i,
{
    if 0 <= i < theirs.len() {
        with_access(
            theirs,
            i + 1,
            if text::ends(theirs[i].1.requirement, "=_"@) {
                acc
            } else {
                first_put(acc, theirs[i].0, theirs[i].1)
            },
        )
    } else {
        acc
    }
}

/// A summary with the validators and access requirements that the calls from index `i` on
/// reach. Validations of a validator's own are not counted.
pub open spec fn after_checks(
    calls: Seq<CallFactView>,
    validators: Seq<Text>,
    sums: Seq<(Text, SummaryView)>,
    i: int,
    s: SummaryView,
) -> SummaryView
    decreases calls.len() - i,
{
    if 0 <= i < calls.len() {
        let c = calls[i];
        after_checks(
            calls,
            validators,
            sums,
            i + 1,
            SummaryView {
                validations: if validators.contains(c.target) {
                    first_put(s.validations, c.target, c.loc)
                } else {
                    match lookup(sums, c.target) {
                        Some(cs) => with_validations(cs.validations, c.loc, 0, s.validations),
                        None => s.validations,
                    }
                },
                access: match lookup(sums, c.target) {
                    Some(cs) => with_access(cs.access, 0, s.access),
                    None => s.access,
                },
                ..s
            },
        )
    } else {
        s
    }
}

/// One pass of [`after_checks`] over the entities from index `i` on.
pub open spec fn check_pass(
    entities: Seq<(Text, EntityView)>,
    validators: Seq<Text>,
    i: int,
    sums: Seq<(Text, SummaryView)>,
) -> Seq<(Text, SummaryView)>
    decreases entities.len() - i,
{
    if 0 <= i < entities.len() {
        let e = entities[i].1;
        check_pass(
            entities,
            validators,
            i + 1,
            match lookup(sums, e.id) {
                Some(s) => put(sums, e.id, after_checks(e.calls, validators, sums, 0, s)),
                None => sums,
            },
        )
    } else {
        sums
    }
}

/// Passes of [`check_pass`] until one of them changes nothing, at most `rounds` of them. As many
/// rounds as there are checks to be found are enough: each of them but the last finds one.
pub open spec fn checks_settled(
    entities: Seq<(Text, EntityView)>,
    validators: Seq<Text>,
    sums: Seq<(Text, SummaryView)>,
    rounds: nat,
) -> Seq<(Text, SummaryView)>
    decreases rounds,
{
    let next = check_pass(entities, validators, 0, sums);
    if next == sums || rounds == 0 {
        sums
    } else {
        checks_settled(entities, validators, next, (rounds - 1) as nat)
    }
}

// ---- guards

/// Predicate-function calls replaced by what they mean, at most seven levels deep, in the
/// parts from index `i` on.
pub open spec fn expanded_all(
    entities: Seq<(Text, EntityView)>,
    ps: Seq<PredView>,
    depth: int,
    i: int,
) -> Seq<PredView>
    decreases 8 - depth, 1int, ps.len() - i,
{
    if 0 <= i < ps.len() && depth <= 7 {
        seq![expanded(entities, ps[i], depth)] + expanded_all(entities, ps, depth, i + 1)
    } else {
        seq![]
    }
}

/// A predicate with predicate-function calls replaced by what they mean.
pub open spec fn expanded(entities: Seq<(Text, EntityView)>, p: PredView, depth: int) -> PredView
    decreases 8 - depth, 0int, 0int,
{
    if depth > 6 {
        p
    } else {
        match p {
            PredView::Call { entity, negated } => match lookup(entities, entity) {
                Some(e) => match e.returns {
                    Some(r) => {
                        let r = expanded(entities, r, depth + 1);
                        if negated {
                            negation(r)
                        } else {
                            r
                        }
                    },
                    None => p,
                },
                None => p,
            },
            PredView::And(ps) => simplified(
                PredView::And(expanded_all(entities, ps, depth + 1, 0)),
            ),
            PredView::Or(ps) => simplified(
                PredView::Or(expanded_all(entities, ps, depth + 1, 0)),
            ),
            _ => p,
        }
    }
}

/// The key of a guard: stable across versions even when the body of a predicate function
/// changes.
pub open spec fn guard_key(p: PredView) -> Text {
    match p {
        PredView::Call { entity, negated } => if negated {
            "!"@ + "call:"@ + entity
        } else {
            ""@ + "call:"@ + entity
        },
        _ => pred_text(p),
    }
}

/// The guards from index `i` on: key, expanded meaning, place.
pub open spec fn guards_from(
    entities: Seq<(Text, EntityView)>,
    guards: Seq<GuardFactView>,
    i: int,
) -> Seq<(Text, PredView, LocView)>
    decreases guards.len() - i,
{
    if 0 <= i < guards.len() {
        let g = guards[i];
        seq![(guard_key(g.required), expanded(entities, g.required, 0), g.loc)] + guards_from(
            entities,
            guards,
            i + 1,
        )
    } else {
        seq![]
    }
}

/// The summaries with the guards of the entities from index `i` on.
pub open spec fn with_guards(
    entities: Seq<(Text, EntityView)>,
    i: int,
    sums: Seq<(Text, SummaryView)>,
) -> Seq<(Text, SummaryView)>
    decreases entities.len() - i,
{
    if 0 <= i < entities.len() {
        let e = entities[i].1;
        with_guards(
            entities,
            i + 1,
            match lookup(sums, e.id) {
                Some(s) => put(
                    sums,
                    e.id,
                    SummaryView {
                        requirements: s.requirements + guards_from(entities, e.guards, 0),
                        ..s
                    },
                ),
                None => sums,
            },
        )
    } else {
        sums
    }
}

// ---- state machines

/// The values of the first requirement from index `i` on that keeps `field` in a set; any
/// state where there is none.
pub open spec fn guarded_states(
    requirements: Seq<(Text, PredView, LocView)>,
    field: Text,
    i: int,
) -> Seq<Text>
    decreases requirements.len() - i,
{
    if 0 <= i < requirements.len() {
        match requirements[i].1 {
            PredView::In { field: f, values } => if f == field {
                values
            } else {
                guarded_states(requirements, field, i + 1)
            },
            _ => guarded_states(requirements, field, i + 1),
        }
    } else {
        added(seq![], "*"@)
    }
}

/// The state machines with the edge that a write makes, if it writes a state.
pub open spec fn with_edge(
    m: ModelView,
    e: EntityView,
    w: WriteFactView,
    acc: Seq<(Text, StateMachineView)>,
) -> Seq<(Text, StateMachineView)> {
    match (w.value, lookup(m.field_domains, w.field)) {
        (Some(to), Some(domain)) => if domain.contains(to) {
            let from = if w.creation {
                added(seq![], "∅"@)
            } else {
                guarded_states(
                    match lookup(m.summaries, e.id) {
                        Some(s) => s.requirements,
                        None => seq![],
                    },
                    w.field,
                    0,
                )
            };
            let sm = match lookup(acc, w.field) {
                Some(sm) => sm,
                None => StateMachineView { field: w.field, states: domain, edges: seq![] },
            };
            put(
                acc,
                w.field,
                StateMachineView {
                    edges: sm.edges.push(
                        StateEdgeView { from, to, writer: e.id, loc: w.loc },
                    ),
                    ..sm
                },
            )
        } else {
            acc
        },
        _ => acc,
    }
}

/// The state machines with the edges that the writes from index `i` on make.
pub open spec fn edges_of(
    m: ModelView,
    e: EntityView,
    i: int,
    acc: Seq<(Text, StateMachineView)>,
) -> Seq<(Text, StateMachineView)>
    decreases e.writes.len() - i,
{
    if 0 <= i < e.writes.len() {
        edges_of(m, e, i + 1, with_edge(m, e, e.writes[i], acc))
    } else {
        acc
    }
}

/// The state machines with the edges of the entities from index `i` on.
pub open spec fn edges_from(m: ModelView, i: int, acc: Seq<(Text, StateMachineView)>) -> Seq<
    (Text, StateMachineView),
>
    decreases m.entities.len() - i,
{
    if 0 <= i < m.entities.len() {
        edges_from(m, i + 1, edges_of(m, m.entities[i].1, 0, acc))
    } else {
        acc
    }
}

/// The state machines from index `i` on with their edges in order, added to `acc`.
pub open spec fn with_edges_sorted(
    sms: Seq<(Text, StateMachineView)>,
    i: int,
    acc: Seq<(Text, StateMachineView)>,
) -> Seq<(Text, StateMachineView)>
    decreases sms.len() - i,
{
    if 0 <= i < sms.len() {
        with_edges_sorted(
            sms,
            i + 1,
            put(
                acc,
                sms[i].0,
                StateMachineView { edges: sorted(sms[i].1.edges), ..sms[i].1 },
            ),
        )
    } else {
        acc
    }
}

/// The state machines of a model.
pub open spec fn machines_of(m: ModelView) -> Seq<(Text, StateMachineView)> {
    with_edges_sorted(edges_from(m, 0, seq![]), 0, seq![])
}

// ---- the whole

/// The summaries of a model before guards, and its validators.
pub open spec fn summaries_of(m: ModelView) -> (Seq<(Text, SummaryView)>, Seq<Text>) {
    let own = own_summaries(m.entities, 0, seq![]);
    let sums = settled(m.entities, m.subscriptions, own, possible(m.entities).len());
    let validators = validators_from(m, sums, 0, seq![]);
    (checks_settled(m.entities, validators, sums, possible_checks(m.entities).len()), validators)
}

/// A model with its summaries, validators and state machines.
pub open spec fn summarised(m: ModelView) -> ModelView {
    let (sums, validators) = summaries_of(m);
    let m = ModelView { summaries: with_guards(m.entities, 0, sums), validators, ..m };
    ModelView { state_machines: machines_of(m), ..m }
}

/// Every entity of a model has a summary.
pub open spec fn complete(m: ModelView) -> bool {
    forall|i: int|
        0 <= i < m.entities.len() ==> lookup(m.summaries, (#[trigger] m.entities[i]).1.id) is Some
}

/// Every summary is under the id of an entity.
pub open spec fn are_of_entities(
    entities: Seq<(Text, EntityView)>,
    sums: Seq<(Text, SummaryView)>,
) -> bool {
    forall|n: int| 0 <= n < sums.len() ==> is_id(entities, (#[trigger] sums[n]).0)
}

/// An entity has this id.
pub open spec fn is_id(entities: Seq<(Text, EntityView)>, id: Text) -> bool {
    exists|k: int| 0 <= k < entities.len() && (#[trigger] entities[k]).1.id == id
}

proof fn stored_is_of_entity(
    entities: Seq<(Text, EntityView)>,
    i: int,
    sums: Seq<(Text, SummaryView)>,
    s: SummaryView,
)
    requires
        are_of_entities(entities, sums),
        0 <= i < entities.len(),
    ensures
        are_of_entities(entities, put(sums, entities[i].1.id, s)),
{
    let id = entities[i].1.id;
    let next = put(sums, id, s);
    put_values(sums, id, s);
    assert forall|n: int| 0 <= n < next.len() implies is_id(entities, (#[trigger] next[n]).0) by {
        if next[n] != (id, s) {
            let k = choose|k: int| 0 <= k < sums.len() && sums[k] == next[n];
            assert(is_id(entities, sums[k].0));
        }
    }
}

/// A summary stays where another is stored.
proof fn still_there(sums: Seq<(Text, SummaryView)>, k: Text, s: SummaryView, id: Text)
    requires
        ascending(sums),
        lookup(sums, id) is Some || id == k,
    ensures
        lookup(put(sums, k, s), id) is Some,
{
    if id == k {
        lookup_after_put(sums, k, s);
    } else {
        lookup_of_other(sums, k, s, id);
    }
}

/// Each of the entities from index `i` on gets a summary, and none that is there leaves.
proof fn own_summaries_are_there(
    entities: Seq<(Text, EntityView)>,
    i: int,
    acc: Seq<(Text, SummaryView)>,
)
    requires
        ascending(acc),
        0 <= i <= entities.len(),
    ensures
        ascending(own_summaries(entities, i, acc)),
        forall|id: Text|
            lookup(acc, id) is Some ==> (#[trigger] lookup(own_summaries(entities, i, acc), id))
                is Some,
        forall|k: int|
            i <= k < entities.len() ==> lookup(
                own_summaries(entities, i, acc),
                (#[trigger] entities[k]).1.id,
            ) is Some,
        are_of_entities(entities, acc) ==> are_of_entities(entities, own_summaries(entities, i, acc)),
    decreases entities.len() - i,
{
    if i < entities.len() {
        let e = entities[i].1;
        let next = put(acc, e.id, own_summary(e));
        put_keeps_order(acc, e.id, own_summary(e));
        if are_of_entities(entities, acc) {
            stored_is_of_entity(entities, i, acc, own_summary(e));
        }
        own_summaries_are_there(entities, i + 1, next);
        assert forall|id: Text| lookup(acc, id) is Some implies (#[trigger] lookup(
            own_summaries(entities, i, acc),
            id,
        )) is Some by {
            still_there(acc, e.id, own_summary(e), id);
        }
        still_there(acc, e.id, own_summary(e), e.id);
    }
}

proof fn pass_keeps(
    entities: Seq<(Text, EntityView)>,
    subs: Seq<SubscriptionView>,
    i: int,
    sums: Seq<(Text, SummaryView)>,
)
    requires
        ascending(sums),
        0 <= i <= entities.len(),
    ensures
        ascending(pass(entities, subs, i, sums)),
        forall|id: Text|
            lookup(sums, id) is Some ==> (#[trigger] lookup(pass(entities, subs, i, sums), id))
                is Some,
        are_of_entities(entities, sums) ==> are_of_entities(entities, pass(entities, subs, i, sums)),
    decreases entities.len() - i,
{
    if i < entities.len() {
        let e = entities[i].1;
        match lookup(sums, e.id) {
            Some(s) => {
                let t = step(e, subs, sums, s);
                put_keeps_order(sums, e.id, t);
                if are_of_entities(entities, sums) {
                    stored_is_of_entity(entities, i, sums, t);
                }
                pass_keeps(entities, subs, i + 1, put(sums, e.id, t));
                assert forall|id: Text| lookup(sums, id) is Some implies (#[trigger] lookup(
                    pass(entities, subs, i, sums),
                    id,
                )) is Some by {
                    still_there(sums, e.id, t, id);
                }
            },
            None => pass_keeps(entities, subs, i + 1, sums),
        }
    }
}

proof fn settled_keeps(
    entities: Seq<(Text, EntityView)>,
    subs: Seq<SubscriptionView>,
    sums: Seq<(Text, SummaryView)>,
    rounds: nat,
)
    requires
        ascending(sums),
    ensures
        ascending(settled(entities, subs, sums, rounds)),
        forall|id: Text|
            lookup(sums, id) is Some ==> (#[trigger] lookup(
                settled(entities, subs, sums, rounds),
                id,
            )) is Some,
        are_of_entities(entities, sums) ==> are_of_entities(entities, settled(entities, subs, sums, rounds)),
    decreases rounds,
{
    pass_keeps(entities, subs, 0, sums);
    let next = pass(entities, subs, 0, sums);
    if next != sums && rounds != 0 {
        settled_keeps(entities, subs, next, (rounds - 1) as nat);
    }
}

proof fn check_pass_keeps(
    entities: Seq<(Text, EntityView)>,
    validators: Seq<Text>,
    i: int,
    sums: Seq<(Text, SummaryView)>,
)
    requires
        ascending(sums),
        0 <= i <= entities.len(),
    ensures
        ascending(check_pass(entities, validators, i, sums)),
        forall|id: Text|
            lookup(sums, id) is Some ==> (#[trigger] lookup(
                check_pass(entities, validators, i, sums),
                id,
            )) is Some,
        are_of_entities(entities, sums) ==> are_of_entities(entities, check_pass(entities, validators, i, sums)),
    decreases entities.len() - i,
{
    if i < entities.len() {
        let e = entities[i].1;
        match lookup(sums, e.id) {
            Some(s) => {
                let t = after_checks(e.calls, validators, sums, 0, s);
                put_keeps_order(sums, e.id, t);
                if are_of_entities(entities, sums) {
                    stored_is_of_entity(entities, i, sums, t);
                }
                check_pass_keeps(entities, validators, i + 1, put(sums, e.id, t));
                assert forall|id: Text| lookup(sums, id) is Some implies (#[trigger] lookup(
                    check_pass(entities, validators, i, sums),
                    id,
                )) is Some by {
                    still_there(sums, e.id, t, id);
                }
            },
            None => check_pass_keeps(entities, validators, i + 1, sums),
        }
    }
}

proof fn checks_settled_keeps(
    entities: Seq<(Text, EntityView)>,
    validators: Seq<Text>,
    sums: Seq<(Text, SummaryView)>,
    rounds: nat,
)
    requires
        ascending(sums),
    ensures
        ascending(checks_settled(entities, validators, sums, rounds)),
        forall|id: Text|
            lookup(sums, id) is Some ==> (#[trigger] lookup(
                checks_settled(entities, validators, sums, rounds),
                id,
            )) is Some,
        are_of_entities(entities, sums) ==> are_of_entities(entities, checks_settled(entities, validators, sums, rounds)),
    decreases rounds,
{
    check_pass_keeps(entities, validators, 0, sums);
    let next = check_pass(entities, validators, 0, sums);
    if next != sums && rounds != 0 {
        checks_settled_keeps(entities, validators, next, (rounds - 1) as nat);
    }
}

proof fn with_guards_keeps(
    entities: Seq<(Text, EntityView)>,
    i: int,
    sums: Seq<(Text, SummaryView)>,
)
    requires
        ascending(sums),
        0 <= i <= entities.len(),
    ensures
        ascending(with_guards(entities, i, sums)),
        forall|id: Text|
            lookup(sums, id) is Some ==> (#[trigger] lookup(with_guards(entities, i, sums), id))
                is Some,
        are_of_entities(entities, sums) ==> are_of_entities(entities, with_guards(entities, i, sums)),
    decreases entities.len() - i,
{
    if i < entities.len() {
        let e = entities[i].1;
        match lookup(sums, e.id) {
            Some(s) => {
                let t = SummaryView {
                    requirements: s.requirements + guards_from(entities, e.guards, 0),
                    ..s
                };
                put_keeps_order(sums, e.id, t);
                if are_of_entities(entities, sums) {
                    stored_is_of_entity(entities, i, sums, t);
                }
                with_guards_keeps(entities, i + 1, put(sums, e.id, t));
                assert forall|id: Text| lookup(sums, id) is Some implies (#[trigger] lookup(
                    with_guards(entities, i, sums),
                    id,
                )) is Some by {
                    still_there(sums, e.id, t, id);
                }
            },
            None => with_guards_keeps(entities, i + 1, sums),
        }
    }
}

/// Every entity of a summarised model has a summary, and nothing else has one.
pub proof fn every_entity_is_summarised(m: ModelView)
    ensures
        complete(summarised(m)),
        are_of_entities(m.entities, summarised(m).summaries),
{
    let own = own_summaries(m.entities, 0, seq![]);
    own_summaries_are_there(m.entities, 0, seq![]);
    let room = possible(m.entities).len();
    settled_keeps(m.entities, m.subscriptions, own, room);
    let sums = settled(m.entities, m.subscriptions, own, room);
    let validators = validators_from(m, sums, 0, seq![]);
    checks_settled_keeps(m.entities, validators, sums, possible_checks(m.entities).len());
    with_guards_keeps(m.entities, 0, summaries_of(m).0);
}

// ---- execution

fn add_info(effects: &mut SortedMap<EffectKey, EffectInfo>, k: &EffectKey, info: EffectInfo)
    ensures
        final(effects).deep_view() == with_info(
            old(effects).deep_view(),
            k.deep_view(),
            info.deep_view(),
        ),
{
    let mut slot = match effects.get(k) {
        Some(i) => i.dup(),
        None => EffectInfo {
            modes: SortedSet::new(),
            via: SortedSet::new(),
            evidence: SortedSet::new(),
        },
    };
    slot.modes.unite(&info.modes);
    slot.via.unite(&info.via);
    slot.evidence.unite(&info.evidence);
    effects.insert(k.dup(), slot);
}

fn single(s: String) -> (r: SortedSet<String>)
    ensures
        r.deep_view() == added(seq![], s@),
{
    let mut out: SortedSet<String> = SortedSet::new();
    out.insert(s);
    out
}

fn own(e: &Entity) -> (r: Summary)
    ensures
        r.deep_view() == own_summary(e.deep_view()),
{
    let ghost ev = e.deep_view();
    let mut effects: SortedMap<EffectKey, EffectInfo> = SortedMap::new();
    let mut i: usize = 0;
    while i < e.effects.len()
        invariant
            i <= e.effects@.len(),
            ev == e.deep_view(),
            own_effects(ev.effects, i as int, effects.deep_view()) == own_effects(
                ev.effects,
                0,
                seq![],
            ),
        decreases e.effects@.len() - i,
    {
        let eff = &e.effects[i];
        assert(eff.deep_view() == ev.effects[i as int]);
        let mut evidence: SortedSet<Loc> = SortedSet::new();
        evidence.insert(eff.loc.dup());
        add_info(
            &mut effects,
            &eff.key,
            EffectInfo {
                modes: single("sync".to_owned()),
                via: single("direct".to_owned()),
                evidence,
            },
        );
        i += 1;
    }
    let mut writes: SortedSet<String> = SortedSet::new();
    i = 0;
    while i < e.writes.len()
        invariant
            i <= e.writes@.len(),
            ev == e.deep_view(),
            own_writes(ev.writes, i as int, writes.deep_view()) == own_writes(
                ev.writes,
                0,
                seq![],
            ),
        decreases e.writes@.len() - i,
    {
        writes.insert(e.writes[i].field.dup());
        i += 1;
    }
    let mut access: SortedMap<String, AccessFact> = SortedMap::new();
    i = 0;
    while i < e.access.len()
        invariant
            i <= e.access@.len(),
            ev == e.deep_view(),
            own_access(ev.access, i as int, access.deep_view()) == own_access(
                ev.access,
                0,
                seq![],
            ),
        decreases e.access@.len() - i,
    {
        let a = &e.access[i];
        assert(a.deep_view() == ev.access[i as int]);
        if !access.contains_key(&a.requirement) {
            access.insert(a.requirement.dup(), a.dup());
        }
        i += 1;
    }
    Summary {
        effects,
        validations: SortedMap::new(),
        writes,
        reads: SortedSet::of(&e.reads.keys()),
        requirements: list::empty(),
        access,
    }
}

fn by_call(
    target: &String,
    theirs: &SortedMap<EffectKey, EffectInfo>,
    effects: &mut SortedMap<EffectKey, EffectInfo>,
)
    ensures
        final(effects).deep_view() == through_call(
            target@,
            theirs.deep_view(),
            0,
            old(effects).deep_view(),
        ),
{
    let ghost tv = theirs.deep_view();
    let ghost before = effects.deep_view();
    let mut i: usize = 0;
    while i < theirs.len()
        invariant
            i <= tv.len(),
            tv == theirs.deep_view(),
            through_call(target@, tv, i as int, effects.deep_view()) == through_call(
                target@,
                tv,
                0,
                before,
            ),
        decreases tv.len() - i,
    {
        let info = theirs.value(i);
        add_info(
            effects,
            theirs.key(i),
            EffectInfo {
                modes: info.modes.dup(),
                via: single(target.dup()),
                evidence: info.evidence.dup(),
            },
        );
        i += 1;
    }
}

fn by_event(
    event: &String,
    theirs: &SortedMap<EffectKey, EffectInfo>,
    effects: &mut SortedMap<EffectKey, EffectInfo>,
)
    ensures
        final(effects).deep_view() == through_event(
            event@,
            theirs.deep_view(),
            0,
            old(effects).deep_view(),
        ),
{
    let ghost tv = theirs.deep_view();
    let ghost before = effects.deep_view();
    let mut i: usize = 0;
    while i < theirs.len()
        invariant
            i <= tv.len(),
            tv == theirs.deep_view(),
            through_event(event@, tv, i as int, effects.deep_view()) == through_event(
                event@,
                tv,
                0,
                before,
            ),
        decreases tv.len() - i,
    {
        add_info(
            effects,
            theirs.key(i),
            EffectInfo {
                modes: single(text::cat2("async via ", event)),
                via: single(text::cat2("event:", event)),
                evidence: theirs.value(i).evidence.dup(),
            },
        );
        i += 1;
    }
}

fn events(
    effects: &Vec<EffectFact>,
    subs: &Vec<Subscription>,
    sums: &SortedMap<String, Summary>,
    acc: &mut SortedMap<EffectKey, EffectInfo>,
)
    ensures
        final(acc).deep_view() == after_events(
            effects.deep_view(),
            subs.deep_view(),
            sums.deep_view(),
            0,
            old(acc).deep_view(),
        ),
{
    let ghost ev = effects.deep_view();
    let ghost bv = subs.deep_view();
    let ghost sv = sums.deep_view();
    let ghost before = acc.deep_view();
    let mut i: usize = 0;
    while i < effects.len()
        invariant
            i <= effects@.len(),
            ev == effects.deep_view(),
            bv == subs.deep_view(),
            sv == sums.deep_view(),
            after_events(ev, bv, sv, i as int, acc.deep_view()) == after_events(
                ev,
                bv,
                sv,
                0,
                before,
            ),
        decreases effects@.len() - i,
    {
        assert(effects@[i as int].deep_view() == ev[i as int]);
        if text::same(&effects[i].key.kind, "event_emit") {
            let event = &effects[i].key.target;
            let ghost here = acc.deep_view();
            let mut j: usize = 0;
            while j < subs.len()
                invariant
                    j <= subs@.len(),
                    bv == subs.deep_view(),
                    sv == sums.deep_view(),
                    after_handlers(event@, bv, sv, j as int, acc.deep_view()) == after_handlers(
                        event@,
                        bv,
                        sv,
                        0,
                        here,
                    ),
                decreases subs@.len() - j,
            {
                if subs[j].event.alike(event) {
                    if let Some(hs) = sums.get(&subs[j].handler) {
                        by_event(event, &hs.effects, acc);
                    }
                }
                j += 1;
            }
        }
        i += 1;
    }
}

fn stepped(
    e: &Entity,
    subs: &Vec<Subscription>,
    sums: &SortedMap<String, Summary>,
    s: &Summary,
) -> (r: Summary)
    ensures
        r.deep_view() == step(
            e.deep_view(),
            subs.deep_view(),
            sums.deep_view(),
            s.deep_view(),
        ),
{
    let ghost ev = e.deep_view();
    let ghost sv = sums.deep_view();
    let ghost before = s.deep_view();
    let mut out = s.dup();
    let mut i: usize = 0;
    while i < e.calls.len()
        invariant
            i <= e.calls@.len(),
            ev == e.deep_view(),
            sv == sums.deep_view(),
            after_calls(ev.calls, sv, i as int, out.deep_view()) == after_calls(
                ev.calls,
                sv,
                0,
                before,
            ),
        decreases e.calls@.len() - i,
    {
        let target = &e.calls[i].target;
        if let Some(cs) = sums.get(target) {
            by_call(target, &cs.effects, &mut out.effects);
            out.reads.unite(&cs.reads);
            out.writes.unite(&cs.writes);
        }
        i += 1;
    }
    events(&e.effects, subs, sums, &mut out.effects);
    out
}

fn one_pass(
    entities: &SortedMap<String, Entity>,
    subs: &Vec<Subscription>,
    sums: &mut SortedMap<String, Summary>,
)
    ensures
        final(sums).deep_view() == pass(
            entities.deep_view(),
            subs.deep_view(),
            0,
            old(sums).deep_view(),
        ),
{
    let ghost ev = entities.deep_view();
    let ghost bv = subs.deep_view();
    let ghost before = sums.deep_view();
    let mut i: usize = 0;
    while i < entities.len()
        invariant
            i <= ev.len(),
            ev == entities.deep_view(),
            bv == subs.deep_view(),
            pass(ev, bv, i as int, sums.deep_view()) == pass(ev, bv, 0, before),
        decreases ev.len() - i,
    {
        let e = entities.value(i);
        let next = match sums.get(&e.id) {
            Some(s) => Some(stepped(e, subs, sums, s)),
            None => None,
        };
        if let Some(s) = next {
            sums.insert(e.id.dup(), s);
        }
        i += 1;
    }
}

fn settle(
    entities: &SortedMap<String, Entity>,
    subs: &Vec<Subscription>,
    start: SortedMap<String, Summary>,
) -> (r: SortedMap<String, Summary>)
    requires
        start.deep_view() == own_summaries(entities.deep_view(), 0, seq![]),
    ensures
        r.deep_view() == settled(
            entities.deep_view(),
            subs.deep_view(),
            start.deep_view(),
            possible(entities.deep_view()).len(),
        ),
{
    let ghost ev = entities.deep_view();
    let ghost bv = subs.deep_view();
    let ghost first = start.deep_view();
    let ghost all = possible(ev);
    let ghost mut rounds: nat = all.len();
    proof {
        own_facts_can_be_found(ev, bv);
        vstd::set_lib::lemma_set_subset_finite(all, facts(first));
    }
    let mut sums = start;
    loop
        invariant
            ev == entities.deep_view(),
            bv == subs.deep_view(),
            first == start.deep_view(),
            all == possible(ev),
            all.finite(),
            is_closed(ev, bv, all),
            all_neat(sums.deep_view()),
            facts(sums.deep_view()).subset_of(all),
            all.len() <= rounds + facts(sums.deep_view()).len(),
            settled(ev, bv, sums.deep_view(), rounds) == settled(ev, bv, first, all.len()),
        decreases rounds,
    {
        let mut next = sums.dup();
        one_pass(entities, subs, &mut next);
        if next.alike(&sums) {
            return sums;
        }
        proof {
            pass_makes_room(ev, bv, sums.deep_view(), all);
            rounds = (rounds - 1) as nat;
        }
        sums = next;
    }
}

fn any_write(effects: &SortedMap<EffectKey, EffectInfo>) -> (r: bool)
    ensures
        r == has_write(effects.deep_view()),
{
    let ghost ev = effects.deep_view();
    let mut i: usize = 0;
    while i < effects.len()
        invariant
            i <= ev.len(),
            ev == effects.deep_view(),
            forall|j: int| 0 <= j < i ==> !is_write_kind((#[trigger] ev[j]).0.kind),
        decreases ev.len() - i,
    {
        if is_write_effect(&effects.key(i).kind) {
            assert(is_write_kind(ev[i as int].0.kind));
            return true;
        }
        i += 1;
    }
    false
}

fn handles_route(routes: &Vec<Route>, id: &String) -> (r: bool)
    ensures
        r == is_handler(routes.deep_view(), id@),
{
    let ghost rv = routes.deep_view();
    let mut i: usize = 0;
    while i < routes.len()
        invariant
            i <= routes@.len(),
            rv == routes.deep_view(),
            forall|j: int| 0 <= j < i ==> (#[trigger] rv[j]).handler != id@,
        decreases routes@.len() - i,
    {
        if routes[i].handler.alike(id) {
            assert(rv[i as int].handler == id@);
            return true;
        }
        i += 1;
    }
    false
}

fn validators(model: &Model, sums: &SortedMap<String, Summary>) -> (r: SortedSet<String>)
    ensures
        r.deep_view() == validators_from(model.deep_view(), sums.deep_view(), 0, seq![]),
{
    let ghost m = model.deep_view();
    let ghost sv = sums.deep_view();
    let mut out: SortedSet<String> = SortedSet::new();
    let mut i: usize = 0;
    while i < model.entities.len()
        invariant
            i <= m.entities.len(),
            m == model.deep_view(),
            sv == sums.deep_view(),
            validators_from(m, sv, i as int, out.deep_view()) == validators_from(
                m,
                sv,
                0,
                seq![],
            ),
        decreases m.entities.len() - i,
    {
        let e = model.entities.value(i);
        let valid = match sums.get(&e.id) {
            Some(s) => e.throws && e.returns.is_none() && s.writes.len() == 0 && !any_write(
                &s.effects,
            ) && !handles_route(&model.routes, &e.id),
            None => false,
        };
        if valid {
            out.insert(e.id.dup());
        }
        i += 1;
    }
    out
}

fn add_validations(
    theirs: &SortedMap<String, Loc>,
    loc: &Loc,
    acc: &mut SortedMap<String, Loc>,
)
    ensures
        final(acc).deep_view() == with_validations(
            theirs.deep_view(),
            loc.deep_view(),
            0,
            old(acc).deep_view(),
        ),
{
    let ghost tv = theirs.deep_view();
    let ghost lv = loc.deep_view();
    let ghost before = acc.deep_view();
    let mut i: usize = 0;
    while i < theirs.len()
        invariant
            i <= tv.len(),
            tv == theirs.deep_view(),
            lv == loc.deep_view(),
            with_validations(tv, lv, i as int, acc.deep_view()) == with_validations(
                tv,
                lv,
                0,
                before,
            ),
        decreases tv.len() - i,
    {
        let k = theirs.key(i);
        if !acc.contains_key(k) {
            acc.insert(k.dup(), loc.dup());
        }
        i += 1;
    }
}

fn add_access(theirs: &SortedMap<String, AccessFact>, acc: &mut SortedMap<String, AccessFact>)
    ensures
        final(acc).deep_view() == with_access(theirs.deep_view(), 0, old(acc).deep_view()),
{
    let ghost tv = theirs.deep_view();
    let ghost before = acc.deep_view();
    let mut i: usize = 0;
    while i < theirs.len()
        invariant
            i <= tv.len(),
            tv == theirs.deep_view(),
            with_access(tv, i as int, acc.deep_view()) == with_access(tv, 0, before),
        decreases tv.len() - i,
    {
        let fact = theirs.value(i);
        if !fact.dynamic() {
            let k = theirs.key(i);
            if !acc.contains_key(k) {
                acc.insert(k.dup(), fact.dup());
            }
        }
        i += 1;
    }
}

fn checked(
    calls: &Vec<CallFact>,
    validators: &SortedSet<String>,
    sums: &SortedMap<String, Summary>,
    s: &Summary,
) -> (r: Summary)
    ensures
        r.deep_view() == after_checks(
            calls.deep_view(),
            validators.deep_view(),
            sums.deep_view(),
            0,
            s.deep_view(),
        ),
{
    let ghost cv = calls.deep_view();
    let ghost vv = validators.deep_view();
    let ghost sv = sums.deep_view();
    let ghost before = s.deep_view();
    let mut out = s.dup();
    let mut i: usize = 0;
    while i < calls.len()
        invariant
            i <= calls@.len(),
            cv == calls.deep_view(),
            vv == validators.deep_view(),
            sv == sums.deep_view(),
            after_checks(cv, vv, sv, i as int, out.deep_view()) == after_checks(
                cv,
                vv,
                sv,
                0,
                before,
            ),
        decreases calls@.len() - i,
    {
        let c = &calls[i];
        assert(c.deep_view() == cv[i as int]);
        if validators.contains(&c.target) {
            if !out.validations.contains_key(&c.target) {
                out.validations.insert(c.target.dup(), c.loc.dup());
            }
        } else if let Some(cs) = sums.get(&c.target) {
            add_validations(&cs.validations, &c.loc, &mut out.validations);
        }
        if let Some(cs) = sums.get(&c.target) {
            add_access(&cs.access, &mut out.access);
        }
        i += 1;
    }
    out
}

fn one_check_pass(
    entities: &SortedMap<String, Entity>,
    validators: &SortedSet<String>,
    sums: &mut SortedMap<String, Summary>,
)
    ensures
        final(sums).deep_view() == check_pass(
            entities.deep_view(),
            validators.deep_view(),
            0,
            old(sums).deep_view(),
        ),
{
    let ghost ev = entities.deep_view();
    let ghost vv = validators.deep_view();
    let ghost before = sums.deep_view();
    let mut i: usize = 0;
    while i < entities.len()
        invariant
            i <= ev.len(),
            ev == entities.deep_view(),
            vv == validators.deep_view(),
            check_pass(ev, vv, i as int, sums.deep_view()) == check_pass(ev, vv, 0, before),
        decreases ev.len() - i,
    {
        let e = entities.value(i);
        let next = match sums.get(&e.id) {
            Some(s) => Some(checked(&e.calls, validators, sums, s)),
            None => None,
        };
        if let Some(s) = next {
            sums.insert(e.id.dup(), s);
        }
        i += 1;
    }
}

fn settle_checks(
    entities: &SortedMap<String, Entity>,
    validators: &SortedSet<String>,
    start: SortedMap<String, Summary>,
) -> (r: SortedMap<String, Summary>)
    requires
        all_tidy(start.deep_view()),
        checks(start.deep_view()).subset_of(possible_checks(entities.deep_view())),
        checks_closed(
            entities.deep_view(),
            validators.deep_view(),
            possible_checks(entities.deep_view()),
        ),
        possible_checks(entities.deep_view()).finite(),
    ensures
        r.deep_view() == checks_settled(
            entities.deep_view(),
            validators.deep_view(),
            start.deep_view(),
            possible_checks(entities.deep_view()).len(),
        ),
{
    let ghost ev = entities.deep_view();
    let ghost vv = validators.deep_view();
    let ghost first = start.deep_view();
    let ghost all = possible_checks(ev);
    let ghost mut rounds: nat = all.len();
    let mut sums = start;
    loop
        invariant
            ev == entities.deep_view(),
            vv == validators.deep_view(),
            first == start.deep_view(),
            all == possible_checks(ev),
            all.finite(),
            checks_closed(ev, vv, all),
            all_tidy(sums.deep_view()),
            checks(sums.deep_view()).subset_of(all),
            all.len() <= rounds + checks(sums.deep_view()).len(),
            checks_settled(ev, vv, sums.deep_view(), rounds) == checks_settled(
                ev,
                vv,
                first,
                all.len(),
            ),
        decreases rounds,
    {
        let mut next = sums.dup();
        one_check_pass(entities, validators, &mut next);
        if next.alike(&sums) {
            return sums;
        }
        proof {
            check_pass_makes_room(ev, vv, sums.deep_view(), all);
            rounds = (rounds - 1) as nat;
        }
        sums = next;
    }
}

fn expand_all(entities: &SortedMap<String, Entity>, ps: &Vec<Pred>, depth: u32) -> (r: Vec<Pred>)
    requires
        depth <= 7,
    ensures
        r.deep_view() == expanded_all(
            entities.deep_view(),
            ps.deep_view(),
            depth as int,
            0,
        ),
    decreases 8 - depth, 1int, ps@.len() + 1,
{
    let ghost ev = entities.deep_view();
    let ghost v = ps.deep_view();
    let mut out: Vec<Pred> = list::empty();
    let mut i: usize = 0;
    while i < ps.len()
        invariant
            i <= ps@.len(),
            depth <= 7,
            ev == entities.deep_view(),
            v == ps.deep_view(),
            out.deep_view() + expanded_all(ev, v, depth as int, i as int) == expanded_all(
                ev,
                v,
                depth as int,
                0,
            ),
        decreases ps@.len() - i,
    {
        list::push(&mut out, expand(entities, &ps[i], depth));
        i += 1;
    }
    out
}

fn expand(entities: &SortedMap<String, Entity>, p: &Pred, depth: u32) -> (r: Pred)
    requires
        depth <= 7,
    ensures
        r.deep_view() == expanded(entities.deep_view(), p.deep_view(), depth as int),
    decreases 8 - depth, 0int, 0int,
{
    broadcast use crate::pred::pred_list_view_is_deep;

    if depth > 6 {
        return p.dup();
    }
    match p {
        Pred::Call { entity, negated } => match entities.get(entity) {
            Some(e) => match &e.returns {
                Some(r) => {
                    let r = expand(entities, r, depth + 1);
                    if *negated {
                        r.negate()
                    } else {
                        r
                    }
                },
                None => p.dup(),
            },
            None => p.dup(),
        },
        Pred::And(ps) => {
            let ghost v = ps.deep_view();
            Pred::And(expand_all(entities, ps, depth + 1)).simplify()
        },
        Pred::Or(ps) => {
            let ghost v = ps.deep_view();
            Pred::Or(expand_all(entities, ps, depth + 1)).simplify()
        },
        other => other.dup(),
    }
}

/// Stable key for a guard (so it can be matched across versions even when the
/// predicate function's body changes) plus its expanded meaning.
pub fn expand_guard(model: &Model, p: &Pred) -> (r: (String, Pred))
    ensures
        r.deep_view() == (
            guard_key(p.deep_view()),
            expanded(model.deep_view().entities, p.deep_view(), 0),
        ),
{
    let key = match p {
        Pred::Call { entity, negated } => text::cat3(
            if *negated {
                "!"
            } else {
                ""
            },
            "call:",
            entity,
        ),
        other => other.render(),
    };
    (key, expand(&model.entities, p, 0))
}

fn add_guards(model: &Model, sums: &mut SortedMap<String, Summary>)
    ensures
        final(sums).deep_view() == with_guards(
            model.deep_view().entities,
            0,
            old(sums).deep_view(),
        ),
{
    let ghost ev = model.deep_view().entities;
    let ghost before = sums.deep_view();
    let mut i: usize = 0;
    while i < model.entities.len()
        invariant
            i <= ev.len(),
            ev == model.deep_view().entities,
            with_guards(ev, i as int, sums.deep_view()) == with_guards(ev, 0, before),
        decreases ev.len() - i,
    {
        let e = model.entities.value(i);
        let found = match sums.get(&e.id) {
            Some(s) => Some(s.dup()),
            None => None,
        };
        if let Some(s) = found {
            let mut s = s;
            let ghost old_s = s.deep_view();
            let ghost gv = e.guards.deep_view();
            let mut j: usize = 0;
            while j < e.guards.len()
                invariant
                    j <= e.guards@.len(),
                    gv == e.guards.deep_view(),
                    ev == model.deep_view().entities,
                    s.deep_view() == (SummaryView {
                        requirements: s.deep_view().requirements,
                        ..old_s
                    }),
                    s.deep_view().requirements + guards_from(ev, gv, j as int)
                        == old_s.requirements + guards_from(ev, gv, 0),
                decreases e.guards@.len() - j,
            {
                let g = &e.guards[j];
                assert(g.deep_view() == gv[j as int]);
                let (key, meaning) = expand_guard(model, &g.required);
                list::push(&mut s.requirements, (key, meaning, g.loc.dup()));
                j += 1;
            }
            assert(s.deep_view().requirements =~= old_s.requirements + guards_from(ev, gv, 0));
            sums.insert(e.id.dup(), s);
        }
        i += 1;
    }
}

fn states_guarded(requirements: &Vec<(String, Pred, Loc)>, field: &String) -> (r: SortedSet<String>)
    ensures
        r.deep_view() == guarded_states(requirements.deep_view(), field@, 0),
{
    let ghost v = requirements.deep_view();
    let mut i: usize = 0;
    while i < requirements.len()
        invariant
            i <= requirements@.len(),
            v == requirements.deep_view(),
            guarded_states(v, field@, 0) == guarded_states(v, field@, i as int),
        decreases requirements@.len() - i,
    {
        assert(v[i as int].1 == requirements@[i as int].1.deep_view());
        if let Pred::In { field: f, values } = &requirements[i].1 {
            if f.alike(field) {
                return values.dup();
            }
        }
        i += 1;
    }
    single("*".to_owned())
}

fn add_edge(model: &Model, e: &Entity, w: &WriteFact, acc: &mut SortedMap<String, StateMachine>)
    ensures
        final(acc).deep_view() == with_edge(
            model.deep_view(),
            e.deep_view(),
            w.deep_view(),
            old(acc).deep_view(),
        ),
{
    let to = match &w.value {
        Some(v) => v,
        None => {
            return;
        },
    };
    let domain = match model.field_domains.get(&w.field) {
        Some(d) => d,
        None => {
            return;
        },
    };
    if !domain.contains(to) {
        return;
    }
    let from = if w.creation {
        single("∅".to_owned())
    } else {
        match model.summaries.get(&e.id) {
            Some(s) => states_guarded(&s.requirements, &w.field),
            None => single("*".to_owned()),
        }
    };
    let mut sm = match acc.get(&w.field) {
        Some(sm) => sm.dup(),
        None => StateMachine {
            field: w.field.dup(),
            states: domain.dup(),
            edges: list::empty(),
        },
    };
    list::push(
        &mut sm.edges,
        StateEdge { from, to: to.dup(), writer: e.id.dup(), loc: w.loc.dup() },
    );
    acc.insert(w.field.dup(), sm);
}

fn state_machines(model: &Model) -> (r: SortedMap<String, StateMachine>)
    ensures
        r.deep_view() == machines_of(model.deep_view()),
{
    let ghost m = model.deep_view();
    let mut found: SortedMap<String, StateMachine> = SortedMap::new();
    let mut i: usize = 0;
    while i < model.entities.len()
        invariant
            i <= m.entities.len(),
            m == model.deep_view(),
            edges_from(m, i as int, found.deep_view()) == edges_from(m, 0, seq![]),
        decreases m.entities.len() - i,
    {
        let e = model.entities.value(i);
        let ghost ev = e.deep_view();
        let ghost here = found.deep_view();
        let mut j: usize = 0;
        while j < e.writes.len()
            invariant
                j <= e.writes@.len(),
                m == model.deep_view(),
                ev == e.deep_view(),
                edges_of(m, ev, j as int, found.deep_view()) == edges_of(m, ev, 0, here),
            decreases e.writes@.len() - j,
        {
            add_edge(model, e, &e.writes[j], &mut found);
            j += 1;
        }
        i += 1;
    }
    let ghost fv = found.deep_view();
    let mut out: SortedMap<String, StateMachine> = SortedMap::new();
    i = 0;
    while i < found.len()
        invariant
            i <= fv.len(),
            fv == found.deep_view(),
            with_edges_sorted(fv, i as int, out.deep_view()) == with_edges_sorted(fv, 0, seq![]),
        decreases fv.len() - i,
    {
        let sm = found.value(i);
        out.insert(
            found.key(i).dup(),
            StateMachine {
                field: sm.field.dup(),
                states: sm.states.dup(),
                edges: ordered::sort(sm.edges.dup()),
            },
        );
        i += 1;
    }
    out
}

/// Computes the summaries, validators and state machines of a model.
pub fn compute(model: &mut Model)
    ensures
        final(model).deep_view() == summarised(old(model).deep_view()),
        complete(final(model).deep_view()),
        are_of_entities(final(model).deep_view().entities, final(model).deep_view().summaries),
{
    let ghost m = model.deep_view();
    let mut sums: SortedMap<String, Summary> = SortedMap::new();
    let mut i: usize = 0;
    while i < model.entities.len()
        invariant
            i <= m.entities.len(),
            m == model.deep_view(),
            own_summaries(m.entities, i as int, sums.deep_view()) == own_summaries(
                m.entities,
                0,
                seq![],
            ),
        decreases m.entities.len() - i,
    {
        let e = model.entities.value(i);
        sums.insert(e.id.dup(), own(e));
        i += 1;
    }
    let sums = settle(&model.entities, &model.subscriptions, sums);
    let valid = validators(model, &sums);
    proof {
        settled_checks_can_be_found(m.entities, m.subscriptions, valid.deep_view());
    }
    let mut sums = settle_checks(&model.entities, &valid, sums);
    add_guards(model, &mut sums);
    model.summaries = sums;
    model.validators = valid;
    model.state_machines = state_machines(model);
    proof {
        every_entity_is_summarised(m);
    }
}

} // verus!
