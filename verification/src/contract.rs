//! Behaviour contracts: what each changed or new function promises, before and after.
//!
//! A contract has five clauses, computed from the behaviour model: `who` (access
//! requirements), `pre` (guards and checks), `where` (query filters), `post` (fields written)
//! and `effects` (external effects). A [`ContractDiff`] compares them item by item and keeps
//! unchanged items as context. Operations that are not contract clauses are attached to the
//! contract they concern: `lifecycle` (state transitions), `rule` (invariants, layering,
//! ownership), `input` (validation schemas) and `calls` (changes that no type fits).

use crate::additions::{calls, has_call};
use crate::clauses::{
    compare, compared, has_mark, head, head_of, is_untyped, items, items_of, or_empty, Clause,
    ClauseView, ContractDiff, ContractDiffView,
};
use crate::ir::{Loc, LocView};
use crate::list;
use crate::list::Plain;
use crate::matching::{Matching, MatchingView};
use crate::model::{
    entry_points, route_key, EntityKind, EntityView, Model, ModelView, Route, RouteView,
};
use crate::nesting::{closures_by_parent, closures_from, entity_at, holder_of, top_level, top_of};
use crate::ops::{short, short_name, Layer, Op, OpView};
use crate::ordered::{added, lookup, minus, put, without, SortedMap, SortedSet};
use crate::structure::{handlers_from, known_handlers};
use crate::text;
use crate::text::Text;
use vstd::prelude::*;

verus! {

/// Contracts while operations are attached to them.
#[derive(Debug, PartialEq)]
pub struct Draft {
    /// By entity.
    pub contracts: SortedMap<String, ContractDiff>,
    /// By schema.
    pub schemas: SortedMap<String, ContractDiff>,
    /// What concerns no contract, with the id of its operation.
    pub program: Vec<(Clause, String)>,
}

/// The view of [`Draft`].
#[verifier::ext_equal]
pub struct DraftView {
    pub contracts: Seq<(Seq<char>, ContractDiffView)>,
    pub schemas: Seq<(Seq<char>, ContractDiffView)>,
    pub program: Seq<(ClauseView, Seq<char>)>,
}

impl DeepView for Draft {
    type V = DraftView;

    open spec fn deep_view(&self) -> DraftView {
        DraftView { contracts: self.contracts.deep_view(), schemas: self.schemas.deep_view(), program: self.program.deep_view() }
    }
}

// ---- what changed

/// The top-level entities of the pairs from index `i` on whose body changed, added to `acc`.
pub open spec fn changed_bodies(
    a: ModelView,
    b: ModelView,
    forward: Seq<(Text, Text)>,
    i: int,
    acc: Seq<Text>,
) -> Seq<Text>
    decreases forward.len() - i,
{
    if 0 <= i < forward.len() {
        changed_bodies(
            a,
            b,
            forward,
            i + 1,
            match (lookup(a.entities, forward[i].0), lookup(b.entities, forward[i].1)) {
                (Some(ea), Some(eb)) => if ea.body_hash != eb.body_hash {
                    added(acc, top_of(b, forward[i].1))
                } else {
                    acc
                },
                _ => acc,
            },
        )
    } else {
        acc
    }
}

/// The top-level entities that the operations from index `i` on are about, added to `acc`.
pub open spec fn changed_subjects(b: ModelView, ops: Seq<OpView>, i: int, acc: Seq<Text>) -> Seq<Text>
    decreases ops.len() - i,
{
    if 0 <= i < ops.len() {
        let op = ops[i];
        changed_subjects(
            b,
            ops,
            i + 1,
            if op.layer != Layer::Structure && text::has_text(op.subject, "::"@) && lookup(
                b.entities,
                op.subject,
            ) is Some {
                added(acc, top_of(b, op.subject))
            } else {
                acc
            },
        )
    } else {
        acc
    }
}

/// An entity does something: it has outputs, or reaches effects.
pub open spec fn does_something(b: ModelView, id: Text, e: EntityView) -> bool {
    e.outputs.len() > 0 || (match lookup(b.summaries, id) {
        Some(s) => s.effects.len() > 0,
        None => false,
    })
}

/// The new functions from index `i` on that do something, added to `acc`.
pub open spec fn new_functions(b: ModelView, backward: Seq<(Text, Text)>, i: int, acc: Seq<Text>) -> Seq<Text>
    decreases b.entities.len() - i,
{
    if 0 <= i < b.entities.len() {
        let (id, e) = b.entities[i];
        new_functions(
            b,
            backward,
            i + 1,
            if e.parent is None && e.kind != EntityKind::Constructor && lookup(backward, id) is None
                && does_something(b, id, e) {
                added(acc, id)
            } else {
                acc
            },
        )
    } else {
        acc
    }
}

/// The names of handlers and the changed entities, with the new handlers from index `i` on. A
/// handler closure has the behaviour; the function that registers it has none of its own.
pub open spec fn with_handlers(
    b: ModelView,
    known: Seq<(Text, Text)>,
    i: int,
    names: Seq<(Text, Text)>,
    changed: Seq<Text>,
) -> (Seq<(Text, Text)>, Seq<Text>)
    decreases b.subscriptions.len() - i,
{
    if 0 <= i < b.subscriptions.len() {
        let s = b.subscriptions[i];
        if known.contains((s.event, s.handler)) {
            with_handlers(b, known, i + 1, names, changed)
        } else {
            let top = top_of(b, s.handler);
            if top != s.handler {
                with_handlers(
                    b,
                    known,
                    i + 1,
                    put(names, s.handler, short_name(top) + ", on "@ + s.event),
                    added(minus(changed, added(seq![], top)), s.handler),
                )
            } else {
                with_handlers(b, known, i + 1, names, added(changed, s.handler))
            }
        }
    } else {
        (names, changed)
    }
}

/// The handlers' names, and what has a contract: changed bodies, the subjects of operations,
/// new functions, new handlers.
pub open spec fn concerned(a: ModelView, b: ModelView, m: MatchingView, ops: Seq<OpView>) -> (
    Seq<(Text, Text)>,
    Seq<Text>,
) {
    with_handlers(
        b,
        handlers_from(a.subscriptions, m.forward, 0, seq![]),
        0,
        seq![],
        new_functions(
            b,
            m.backward,
            0,
            changed_subjects(b, ops, 0, changed_bodies(a, b, m.forward, 0, seq![])),
        ),
    )
}

// ---- contracts

/// A route with this key.
pub open spec fn has_route(routes: Seq<RouteView>, key: Text) -> bool {
    exists|i: int| 0 <= i < routes.len() && route_key(#[trigger] routes[i]) == key
}

/// The new routes from index `i` on that an entity handles.
pub open spec fn routes_gained(b: Seq<RouteView>, a: Seq<RouteView>, id: Text, i: int) -> Seq<Text>
    decreases b.len() - i,
{
    if 0 <= i < b.len() {
        (if b[i].handler == id && !has_route(a, route_key(b[i])) {
            seq![route_key(b[i])]
        } else {
            seq![]
        }) + routes_gained(b, a, id, i + 1)
    } else {
        seq![]
    }
}

/// The contract of an entity, before operations are attached.
pub open spec fn contract_of(
    a: ModelView,
    b: ModelView,
    m: MatchingView,
    names: Seq<(Text, Text)>,
    id: Text,
    e: EntityView,
) -> ContractDiffView {
    ContractDiffView {
        entity: id,
        name: match lookup(names, id) {
            Some(n) => n,
            None => short_name(id),
        },
        status: if lookup(m.backward, id) is Some {
            "changed"@
        } else {
            "new"@
        },
        loc: e.loc,
        routes: entry_points(b, id),
        new_routes: routes_gained(b.routes, a.routes, id, 0),
        clauses: match lookup(m.backward, id) {
            Some(ida) => compared(items_of(a, ida), items_of(b, id)),
            None => compared(seq![], items_of(b, id)),
        },
        ops: seq![],
    }
}

/// The contracts of the entities from index `i` on, added to `acc`.
pub open spec fn contracts_from(
    a: ModelView,
    b: ModelView,
    m: MatchingView,
    names: Seq<(Text, Text)>,
    ids: Seq<Text>,
    i: int,
    acc: Seq<(Text, ContractDiffView)>,
) -> Seq<(Text, ContractDiffView)>
    decreases ids.len() - i,
{
    if 0 <= i < ids.len() {
        contracts_from(
            a,
            b,
            m,
            names,
            ids,
            i + 1,
            match lookup(b.entities, ids[i]) {
                Some(e) => if e.kind == EntityKind::Constructor {
                    acc
                } else {
                    put(acc, ids[i], contract_of(a, b, m, names, ids[i], e))
                },
                None => acc,
            },
        )
    } else {
        acc
    }
}

/// A list with a text that it has once.
pub open spec fn with_text(xs: Seq<Text>, x: Text) -> Seq<Text> {
    if xs.contains(x) {
        xs
    } else {
        xs.push(x)
    }
}

/// The contracts with one more new route for `id`.
pub open spec fn with_route(cs: Seq<(Text, ContractDiffView)>, id: Text, route: Text) -> Seq<(Text, ContractDiffView)> {
    match lookup(cs, id) {
        Some(c) => put(
            cs,
            id,
            ContractDiffView { new_routes: with_text(c.new_routes, route), ..c },
        ),
        None => cs,
    }
}

/// A new route is handled by a closure in new code.
pub open spec fn names_closure(b: ModelView, cs: Seq<(Text, ContractDiffView)>, r: RouteView) -> bool {
    (match lookup(cs, top_of(b, r.handler)) {
        Some(c) => c.status == "new"@,
        None => false,
    }) && (match lookup(b.entities, r.handler) {
        Some(h) => h.parent is Some,
        None => false,
    })
}

/// The contracts with the new routes from index `i` on that closures handle
/// (`router.post('/x', async (req) => …)`).
pub open spec fn with_routes(
    a: ModelView,
    b: ModelView,
    i: int,
    cs: Seq<(Text, ContractDiffView)>,
) -> Seq<(Text, ContractDiffView)>
    decreases b.routes.len() - i,
{
    if 0 <= i < b.routes.len() {
        let r = b.routes[i];
        with_routes(
            a,
            b,
            i + 1,
            if !has_route(a.routes, route_key(r)) && names_closure(b, cs, r) {
                with_route(cs, top_of(b, r.handler), route_key(r))
            } else {
                cs
            },
        )
    } else {
        cs
    }
}

// ---- operations

/// The first place.
pub open spec fn first(locs: Seq<LocView>) -> Option<LocView> {
    if locs.len() > 0 {
        Some(locs[0])
    } else {
        None
    }
}

/// The entity of the first contract from index `i` on that is called `name`.
pub open spec fn named_from(cs: Seq<(Text, ContractDiffView)>, name: Text, i: int) -> Option<Text>
    decreases cs.len() - i,
{
    if 0 <= i < cs.len() {
        if cs[i].1.name == name || cs[i].1.entity == name {
            Some(cs[i].1.entity)
        } else {
            named_from(cs, name, i + 1)
        }
    } else {
        None
    }
}

/// The contract named so, or the one of the code at the operation's first new place.
pub open spec fn owner_of(b: ModelView, cs: Seq<(Text, ContractDiffView)>, name: Option<Text>, op: OpView) -> Option<Text> {
    let named = match name {
        Some(n) => named_from(cs, n, 0),
        None => None,
    };
    match named {
        Some(id) => Some(id),
        None => at_first(b, op),
    }
}

/// The code at the operation's first new place.
pub open spec fn at_first(b: ModelView, op: OpView) -> Option<Text> {
    match first(op.evidence_after) {
        Some(l) => holder_of(b, l),
        None => None,
    }
}

/// The drafts with a clause on the contract that it concerns.
pub open spec fn attached(d: DraftView, owner: Option<Text>, cl: ClauseView, op: Text) -> DraftView {
    match owner {
        Some(o) => match lookup(d.contracts, o) {
            Some(c) => DraftView {
                contracts: put(
                    d.contracts,
                    o,
                    ContractDiffView {
                        clauses: c.clauses.push(cl),
                        ops: c.ops.push(op),
                        ..c
                    },
                ),
                ..d
            },
            None => DraftView { program: d.program.push((cl, op)), ..d },
        },
        None => DraftView { program: d.program.push((cl, op)), ..d },
    }
}

/// The schema and the field that an operation is about; `*` is the whole schema.
pub open spec fn schema_field(subject: Text) -> (Text, Text) {
    let local = text::after_last(subject, "::"@);
    match text::parted(local, "."@) {
        Some(p) => p,
        None => (local, "*"@),
    }
}

/// The key of the schema that an operation is about.
pub open spec fn schema_key(subject: Text) -> Text {
    match text::parted(subject, "::"@) {
        Some((module, _)) => module + "::"@ + schema_field(subject).0,
        None => schema_field(subject).0,
    }
}

/// A constraint with its field.
pub open spec fn field_label(field: Text, v: Option<Text>) -> Option<Text> {
    match v {
        Some(t) => Some(
            if field == "*"@ {
                t
            } else {
                field + ": "@ + t
            },
        ),
        None => None,
    }
}

/// The clause of an operation on a schema.
pub open spec fn schema_clause(op: OpView) -> ClauseView {
    let field = schema_field(op.subject).1;
    let mark = if op.kind == "SCHEMA_FIELD_ADDED"@ {
        '+'
    } else if op.kind == "SCHEMA_FIELD_REMOVED"@ {
        '-'
    } else {
        '~'
    };
    ClauseView {
        row: "input"@,
        mark,
        before: field_label(field, op.before),
        after: field_label(field, op.after),
        tag: Some(
            if mark == '+' {
                "new field"@
            } else if mark == '-' {
                "field removed"@
            } else if field == "*"@ {
                "whole schema"@
            } else {
                "validated differently"@
            },
        ),
        evidence_before: first(op.evidence_before),
        evidence_after: first(op.evidence_after),
    }
}

/// Where an operation is.
pub open spec fn place_of(op: OpView) -> LocView {
    match first(op.evidence_after) {
        Some(l) => l,
        None => match first(op.evidence_before) {
            Some(l) => l,
            None => LocView { file: ""@, line: 0 },
        },
    }
}

/// The drafts with an operation on a schema.
pub open spec fn with_schema(d: DraftView, op: OpView) -> DraftView {
    let key = schema_key(op.subject);
    let c = match lookup(d.schemas, key) {
        Some(c) => c,
        None => ContractDiffView {
            entity: key,
            name: schema_field(op.subject).0,
            status: "schema"@,
            loc: place_of(op),
            routes: seq![],
            new_routes: seq![],
            clauses: seq![],
            ops: seq![],
        },
    };
    DraftView {
        schemas: put(
            d.schemas,
            key,
            ContractDiffView {
                clauses: c.clauses.push(schema_clause(op)),
                ops: c.ops.push(op.id),
                ..c
            },
        ),
        ..d
    }
}

/// The parts of `x → y`.
pub open spec fn arrow(subject: Text) -> (Text, Text) {
    match text::parted(subject, " → "@) {
        Some(p) => p,
        None => (subject, "?"@),
    }
}

/// A transition from some states.
pub open spec fn states_label(subject: Text, v: Option<Text>) -> Option<Text> {
    match v {
        Some(t) => Some(arrow(subject).0 + " → "@ + arrow(subject).1 + " from "@ + t),
        None => None,
    }
}

/// The clause of an operation on a state machine.
pub open spec fn lifecycle_clause(op: OpView) -> ClauseView {
    ClauseView {
        row: "lifecycle"@,
        mark: if op.before is None {
            '+'
        } else if op.after is None {
            '-'
        } else {
            '~'
        },
        before: states_label(op.subject, op.before),
        after: states_label(op.subject, op.after),
        tag: Some(
            if op.kind == "STATE_TRANSITION_SOURCE_WIDENED"@ || op.kind
                == "STATE_TRANSITION_ADDED"@ {
                "more ways to reach this state"@
            } else if op.kind == "STATE_TRANSITION_SOURCE_NARROWED"@ || op.kind
                == "STATE_TRANSITION_REMOVED"@ {
                "fewer ways to reach this state"@
            } else {
                "different ways to reach this state"@
            },
        ),
        evidence_before: first(op.evidence_before),
        evidence_after: first(op.evidence_after),
    }
}

/// The first writer that a note names.
pub open spec fn noted_writer(note: Option<Text>) -> Option<Text> {
    match note {
        Some(n) => match text::after_prefix(n, "new path via "@) {
            Some(ws) => Some(head(ws, ", "@)),
            None => None,
        },
        None => None,
    }
}

/// The clause of a broken rule.
pub open spec fn rule_clause(said: Text, tag: Text, op: OpView) -> ClauseView {
    ClauseView {
        row: "rule"@,
        mark: '!',
        before: None,
        after: Some(said),
        tag: Some(tag),
        evidence_before: None,
        evidence_after: first(op.evidence_after),
    }
}

/// What is said of a broken invariant.
pub open spec fn invariant_text(op: OpView) -> Text {
    "breaks "@ + op.subject + " ("@ + text::decimal(op.confidence as nat)
        + "% of writers follow it)"@
}

/// The files that the details from index `i` on depend on.
pub open spec fn files_from(details: Seq<Text>, i: int) -> Seq<Text>
    decreases details.len() - i,
{
    if 0 <= i < details.len() {
        (match text::parted(details[i], " → "@) {
            Some((_, t)) => seq![text::after_last(t, "/"@)],
            None => seq![],
        }) + files_from(details, i + 1)
    } else {
        seq![]
    }
}

/// What is said of a broken declared rule.
pub open spec fn violation_text(op: OpView) -> Text {
    if text::begins(op.kind, "LAYER"@) {
        "the "@ + arrow(op.subject).0 + " layer now calls "@ + text::joined(
            files_from(text::pieces(or_empty(op.after), "; "@), 0),
            ", "@,
        ) + " in the "@ + arrow(op.subject).1 + " layer, which merak.toml forbids"@
    } else {
        "writes "@ + op.subject + " outside the code that owns it"@
    }
}

/// The contract that a broken declared rule concerns.
pub open spec fn violation_owner(b: ModelView, d: DraftView, op: OpView) -> Option<Text> {
    if text::begins(op.kind, "OWNERSHIP"@) {
        match op.after {
            Some(w) => {
                let top = top_of(b, head(w, "; "@));
                if lookup(d.contracts, top) is Some {
                    Some(top)
                } else {
                    None
                }
            },
            None => None,
        }
    } else {
        at_first(b, op)
    }
}

/// The clause of a change that no type fits.
pub open spec fn calls_clause(op: OpView) -> ClauseView {
    ClauseView {
        row: "calls"@,
        mark: '?',
        before: op.before,
        after: op.after,
        tag: None,
        evidence_before: first(op.evidence_before),
        evidence_after: first(op.evidence_after),
    }
}

/// The top-level handler of the first route from index `i` on with this key.
pub open spec fn handler_from(b: ModelView, key: Text, i: int) -> Option<Text>
    decreases b.routes.len() - i,
{
    if 0 <= i < b.routes.len() {
        if route_key(b.routes[i]) == key {
            Some(top_of(b, b.routes[i].handler))
        } else {
            handler_from(b, key, i + 1)
        }
    } else {
        None
    }
}

/// The first new contract from index `i` on that a route runs, other than its handler.
pub open spec fn run_from(
    cs: Seq<(Text, ContractDiffView)>,
    route: Text,
    handler: Option<Text>,
    i: int,
) -> Option<Text>
    decreases cs.len() - i,
{
    if 0 <= i < cs.len() {
        let c = cs[i].1;
        if c.status == "new"@ && c.routes.contains(route) && Some(c.entity) != handler {
            Some(c.entity)
        } else {
            run_from(cs, route, handler, i + 1)
        }
    } else {
        None
    }
}

/// A new route belongs to the new code it runs: the handler, or (for a closure registered on a
/// router) the new function that closure calls.
pub open spec fn route_owner(b: ModelView, d: DraftView, op: OpView) -> Option<Text> {
    let handler = handler_from(b, op.subject, 0);
    match run_from(d.contracts, op.subject, handler, 0) {
        Some(id) => Some(id),
        None => handler,
    }
}

/// The contract of the first handler from index `i` on of an event.
pub open spec fn event_owner_from(b: ModelView, d: DraftView, event: Text, i: int) -> Option<Text>
    decreases b.subscriptions.len() - i,
{
    if 0 <= i < b.subscriptions.len() {
        let s = b.subscriptions[i];
        if s.event == event {
            if lookup(d.contracts, s.handler) is Some {
                Some(s.handler)
            } else {
                Some(top_of(b, s.handler))
            }
        } else {
            event_owner_from(b, d, event, i + 1)
        }
    } else {
        None
    }
}

/// The drafts with a new route on the owner's contract.
pub open spec fn routed(d: DraftView, owner: Option<Text>, route: Text) -> DraftView {
    match owner {
        Some(o) => DraftView { contracts: with_route(d.contracts, o, route), ..d },
        None => d,
    }
}

/// The clause of an operation that concerns no contract.
pub open spec fn other_clause(op: OpView) -> ClauseView {
    ClauseView {
        row: "other"@,
        mark: '~',
        before: op.before,
        after: Some(text::replaced(text::lowercase(op.kind), "_"@, " "@) + " "@ + op.subject),
        tag: None,
        evidence_before: first(op.evidence_before),
        evidence_after: first(op.evidence_after),
    }
}

/// An operation that needs no contract: what it says is said where the code was or is.
pub open spec fn speaks_for_itself(kind: Text) -> bool {
    kind == "BEHAVIOUR_ADDED"@ || kind == "ENTRYPOINT_REMOVED"@ || kind
        == "EVENT_HANDLER_REMOVED"@
}

/// The drafts with an operation accounted for. Its clause (auth, guards, filters, effects,
/// dataflow …) is already in the contract.
pub open spec fn counted(d: DraftView, owner: Option<Text>, op: OpView) -> DraftView {
    let held = match owner {
        Some(o) => lookup(d.contracts, o),
        None => None,
    };
    match held {
        Some(c) => DraftView {
            contracts: put(
                d.contracts,
                owner->Some_0,
                ContractDiffView { ops: c.ops.push(op.id), ..c },
            ),
            ..d
        },
        None => if speaks_for_itself(op.kind) {
            d
        } else {
            DraftView { program: d.program.push((other_clause(op), op.id)), ..d }
        },
    }
}

/// A contract of the drafts, if it is there.
pub open spec fn if_held(d: DraftView, id: Text) -> Option<Text> {
    if lookup(d.contracts, id) is Some {
        Some(id)
    } else {
        None
    }
}

/// The drafts with an operation attached to the contract it concerns.
pub open spec fn with_op(b: ModelView, d: DraftView, op: OpView) -> DraftView {
    if text::begins(op.kind, "SCHEMA_"@) {
        with_schema(d, op)
    } else if text::begins(op.kind, "STATE_TRANSITION"@) {
        attached(
            d,
            owner_of(b, d.contracts, noted_writer(op.note), op),
            lifecycle_clause(op),
            op.id,
        )
    } else if op.kind == "INVARIANT_VIOLATED"@ {
        attached(
            d,
            owner_of(
                b,
                d.contracts,
                Some(
                    match op.after {
                        Some(x) => text::replaced(x, " does not satisfy it"@, ""@),
                        None => ""@,
                    },
                ),
                op,
            ),
            rule_clause(invariant_text(op), "inferred pattern"@, op),
            op.id,
        )
    } else if op.kind == "LAYER_VIOLATION_INTRODUCED"@ || op.kind
        == "OWNERSHIP_VIOLATION_INTRODUCED"@ {
        attached(
            d,
            violation_owner(b, d, op),
            rule_clause(violation_text(op), "declared in merak.toml"@, op),
            op.id,
        )
    } else if op.kind == "UNCLASSIFIED_CHANGE"@ {
        attached(d, if_held(d, top_of(b, op.subject)), calls_clause(op), op.id)
    } else if op.kind == "ENTRYPOINT_ADDED"@ {
        let owner = route_owner(b, d, op);
        counted(routed(d, owner, op.subject), owner, op)
    } else if op.kind == "EVENT_HANDLER_ADDED"@ {
        let owner = event_owner_from(b, d, op.subject, 0);
        counted(routed(d, owner, "event "@ + op.subject), owner, op)
    } else {
        counted(
            d,
            if lookup(b.entities, op.subject) is Some {
                Some(top_of(b, op.subject))
            } else {
                None
            },
            op,
        )
    }
}

/// The drafts with the operations from index `i` on that are not about structure.
pub open spec fn with_ops(b: ModelView, ops: Seq<OpView>, i: int, d: DraftView) -> DraftView
    decreases ops.len() - i,
{
    if 0 <= i < ops.len() {
        with_ops(
            b,
            ops,
            i + 1,
            if ops[i].layer == Layer::Structure {
                d
            } else {
                with_op(b, d, ops[i])
            },
        )
    } else {
        d
    }
}

// ---- new code behind new code

/// The place from index `i` on of the first space or colon.
pub open spec fn word_end(s: Text, i: int) -> int
    decreases s.len() - i,
{
    if 0 <= i < s.len() && s[i] != ' ' && s[i] != ':' {
        word_end(s, i + 1)
    } else {
        i
    }
}

/// What an item of a row is about: a field, a requirement, an effect's target.
pub open spec fn subject_of(row: Text, s: Text) -> Text {
    let s = text::replaced(s, " (by a callee)"@, ""@);
    if row == "post"@ {
        s.take(word_end(s, 0))
    } else if row == "effects"@ {
        head(s, " ("@)
    } else {
        s
    }
}

/// Two clauses describe the same thing.
pub open spec fn same_clause(x: ClauseView, y: ClauseView) -> bool {
    y.row == x.row && subject_of(x.row, or_empty(x.after)) == subject_of(
        x.row,
        or_empty(y.after),
    )
}

/// A clause describes the same thing.
pub open spec fn is_said(x: ClauseView, theirs: Seq<ClauseView>) -> bool {
    exists|j: int| 0 <= j < theirs.len() && same_clause(x, #[trigger] theirs[j])
}

/// A contract says all that another says.
pub open spec fn says_all(own: ContractDiffView, theirs: ContractDiffView) -> bool {
    forall|i: int|
        0 <= i < own.clauses.len() ==> is_said(#[trigger] own.clauses[i], theirs.clauses)
}

/// A new caller whose contract says all that the contract of `id` says.
pub open spec fn speaks_for(
    b: ModelView,
    cs: Seq<(Text, ContractDiffView)>,
    c: ContractDiffView,
    e: EntityView,
    id: Text,
) -> bool {
    let caller = top_of(b, e.id);
    calls(e, id) && caller != id && (match lookup(cs, caller) {
        Some(cc) => cc.status == "new"@ && says_all(c, cc),
        None => false,
    })
}

/// The contract of a new caller already says what the contract of `id` says.
pub open spec fn is_covered(
    b: ModelView,
    cs: Seq<(Text, ContractDiffView)>,
    c: ContractDiffView,
    id: Text,
) -> bool {
    exists|i: int| 0 <= i < b.entities.len() && speaks_for(b, cs, c, (#[trigger] b.entities[i]).1, id)
}

/// The new contracts from index `i` on that a new caller's contract covers.
pub open spec fn covered_from(b: ModelView, cs: Seq<(Text, ContractDiffView)>, i: int) -> Seq<Text>
    decreases cs.len() - i,
{
    if 0 <= i < cs.len() {
        let c = cs[i].1;
        (if c.status == "new"@ && is_covered(b, cs, c, c.entity) {
            seq![c.entity]
        } else {
            seq![]
        }) + covered_from(b, cs, i + 1)
    } else {
        seq![]
    }
}

/// Code of an entity calls `id`.
pub open spec fn runs(b: ModelView, entity: Text, id: Text) -> bool {
    exists|i: int|
        0 <= i < b.entities.len() && top_of(b, (#[trigger] b.entities[i]).1.id) == entity && calls(
            b.entities[i].1,
            id,
        )
}

/// The first new contract from index `i` on whose code calls `id`.
pub open spec fn heir_from(b: ModelView, cs: Seq<(Text, ContractDiffView)>, id: Text, i: int) -> Option<int>
    decreases cs.len() - i,
{
    if 0 <= i < cs.len() {
        if cs[i].1.status == "new"@ && runs(b, cs[i].1.entity, id) {
            Some(i)
        } else {
            heir_from(b, cs, id, i + 1)
        }
    } else {
        None
    }
}

/// The contracts without those from index `i` on; a caller accounts for their operations.
pub open spec fn dropped(
    b: ModelView,
    ids: Seq<Text>,
    i: int,
    cs: Seq<(Text, ContractDiffView)>,
) -> Seq<(Text, ContractDiffView)>
    decreases ids.len() - i,
{
    if 0 <= i < ids.len() {
        let rest = without(cs, ids[i]);
        dropped(
            b,
            ids,
            i + 1,
            match lookup(cs, ids[i]) {
                Some(c) => match heir_from(b, rest, ids[i], 0) {
                    Some(k) => put(
                        rest,
                        rest[k].0,
                        ContractDiffView { ops: rest[k].1.ops + c.ops, ..rest[k].1 },
                    ),
                    None => rest,
                },
                None => rest,
            },
        )
    } else {
        cs
    }
}

// ---- what stays

/// A clause on what a function takes, returns or renders changed.
pub open spec fn explains_calls(c: ContractDiffView) -> bool {
    exists|k: int|
        0 <= k < c.clauses.len() && is_surface_change(#[trigger] c.clauses[k])
}

/// A change to what a function takes, returns or renders.
pub open spec fn is_surface_change(x: ClauseView) -> bool {
    (x.row == "takes"@ || x.row == "returns"@ || x.row == "renders"@) && x.mark != ' '
}

/// The clauses from index `i` on that have a type.
pub open spec fn typed_from(cs: Seq<ClauseView>, i: int) -> Seq<ClauseView>
    decreases cs.len() - i,
{
    if 0 <= i < cs.len() {
        (if cs[i].mark != '?' {
            seq![cs[i]]
        } else {
            seq![]
        }) + typed_from(cs, i + 1)
    } else {
        seq![]
    }
}

/// A contract where what a function takes, returns and renders explains a change to its calls:
/// the `?` row is then noise.
pub open spec fn quieted(c: ContractDiffView) -> ContractDiffView {
    if explains_calls(c) {
        ContractDiffView { clauses: typed_from(c.clauses, 0), ..c }
    } else {
        c
    }
}

/// A contract that says something: a changed clause or an attached operation.
pub open spec fn says_something(c: ContractDiffView) -> bool {
    c.ops.len() > 0 || exists|k: int|
        0 <= k < c.clauses.len() && (#[trigger] c.clauses[k]).mark != ' '
}

/// The contracts from index `i` on that say something, without noise, added to `acc`.
pub open spec fn telling(
    cs: Seq<(Text, ContractDiffView)>,
    i: int,
    acc: Seq<(Text, ContractDiffView)>,
) -> Seq<(Text, ContractDiffView)>
    decreases cs.len() - i,
{
    if 0 <= i < cs.len() {
        let c = quieted(cs[i].1);
        telling(
            cs,
            i + 1,
            if says_something(c) {
                put(acc, cs[i].0, c)
            } else {
                acc
            },
        )
    } else {
        acc
    }
}

/// Something that did change calls `id`.
pub open spec fn is_called(b: ModelView, kept: Seq<(Text, ContractDiffView)>, id: Text) -> bool {
    exists|i: int|
        0 <= i < b.entities.len() && calls((#[trigger] b.entities[i]).1, id) && lookup(
            kept,
            top_of(b, b.entities[i].1.id),
        ) is Some && top_of(b, b.entities[i].1.id) != id
}

/// The contracts from index `i` on that belong to the change. A new function no operation
/// speaks for (a pure or extracted helper) does only when something that did change calls it;
/// an extracted helper whose callers behave as before is a refactor.
pub open spec fn belonging(b: ModelView, cs: Seq<(Text, ContractDiffView)>, i: int) -> Seq<ContractDiffView>
    decreases cs.len() - i,
{
    if 0 <= i < cs.len() {
        let (id, c) = cs[i];
        (if c.status != "new"@ || c.ops.len() > 0 || is_called(b, cs, id) {
            seq![c]
        } else {
            seq![]
        }) + belonging(b, cs, i + 1)
    } else {
        seq![]
    }
}

// ---- order

/// The place of a row in a contract.
pub open spec fn row_rank(row: Text) -> int {
    if row == "takes"@ {
        0
    } else if row == "who"@ {
        1
    } else if row == "returns"@ {
        2
    } else if row == "pre"@ {
        3
    } else if row == "where"@ {
        4
    } else if row == "post"@ {
        5
    } else if row == "effects"@ {
        6
    } else if row == "renders"@ {
        7
    } else if row == "lifecycle"@ {
        8
    } else if row == "rule"@ {
        9
    } else if row == "input"@ {
        10
    } else if row == "calls"@ {
        11
    } else if row == "other"@ {
        12
    } else {
        13
    }
}

/// The clauses from index `i` on of the row at `rank`.
pub open spec fn at_rank(cs: Seq<ClauseView>, rank: int, i: int) -> Seq<ClauseView>
    decreases cs.len() - i,
{
    if 0 <= i < cs.len() {
        (if row_rank(cs[i].row) == rank {
            seq![cs[i]]
        } else {
            seq![]
        }) + at_rank(cs, rank, i + 1)
    } else {
        seq![]
    }
}

/// The clauses in the order of their rows, those of a row as they were, from `rank` on.
pub open spec fn by_row(cs: Seq<ClauseView>, rank: int) -> Seq<ClauseView>
    decreases 14 - rank,
{
    if rank <= 13 {
        at_rank(cs, rank, 0) + by_row(cs, rank + 1)
    } else {
        seq![]
    }
}

/// A clause of a row has one of two marks.
pub open spec fn row_marked(c: ContractDiffView, row: Text, m: char, n: char) -> bool {
    exists|k: int|
        0 <= k < c.clauses.len() && (#[trigger] c.clauses[k]).row == row && (c.clauses[k].mark == m
            || c.clauses[k].mark == n)
}

/// A clause is widened.
pub open spec fn is_widened(c: ContractDiffView) -> bool {
    exists|k: int| 0 <= k < c.clauses.len() && (#[trigger] c.clauses[k]).tag == Some("widened"@)
}

/// Read the riskiest first: broken rules, dropped access or checks, wider reach.
pub open spec fn risk_of(c: ContractDiffView) -> int {
    if has_mark(c, '!') {
        0
    } else if row_marked(c, "who"@, '-', '~') || row_marked(c, "pre"@, '-', '-') || row_marked(
        c,
        "where"@,
        '-',
        '-',
    ) || is_widened(c) {
        1
    } else if c.status == "changed"@ && !is_untyped(c) {
        2
    } else if c.status == "new"@ {
        3
    } else if c.status == "schema"@ {
        4
    } else {
        5
    }
}

/// A contract is read before another: it is riskier, or as risky and first by name.
pub open spec fn read_first(c: ContractDiffView, d: ContractDiffView) -> bool {
    risk_of(c) < risk_of(d) || (risk_of(c) == risk_of(d) && text::before(c.name, d.name))
}

/// The place of the first contract from index `i` on that is read after `c`.
pub open spec fn reading_place(cs: Seq<ContractDiffView>, c: ContractDiffView, i: int) -> int
    decreases cs.len() - i,
{
    if 0 <= i < cs.len() && !read_first(c, cs[i]) {
        reading_place(cs, c, i + 1)
    } else {
        i
    }
}

/// The contracts from index `i` on in reading order, placed among `acc`, the clauses of each in
/// the order of their rows.
pub open spec fn in_reading_order(cs: Seq<ContractDiffView>, i: int, acc: Seq<ContractDiffView>) -> Seq<ContractDiffView>
    decreases cs.len() - i,
{
    if 0 <= i < cs.len() {
        let c = ContractDiffView { clauses: by_row(cs[i].clauses, 0), ..cs[i] };
        in_reading_order(cs, i + 1, acc.insert(reading_place(acc, c, 0), c))
    } else {
        acc
    }
}

/// The clauses of the program, and the ids of their operations.
pub open spec fn program_of(program: Seq<(ClauseView, Text)>) -> Seq<ContractDiffView> {
    if program.len() == 0 {
        seq![]
    } else {
        seq![
            ContractDiffView {
                entity: "*"@,
                name: "Program"@,
                status: "changed"@,
                loc: LocView { file: ""@, line: 0 },
                routes: seq![],
                new_routes: seq![],
                clauses: Seq::new(program.len(), |i: int| program[i].0),
                ops: Seq::new(program.len(), |i: int| program[i].1),
            },
        ]
    }
}

/// The contracts of the map.
pub open spec fn values(cs: Seq<(Text, ContractDiffView)>) -> Seq<ContractDiffView> {
    Seq::new(cs.len(), |i: int| cs[i].1)
}

/// The drafts of the contracts, with every operation attached.
pub open spec fn drafted(a: ModelView, b: ModelView, m: MatchingView, ops: Seq<OpView>) -> DraftView {
    let (names, ids) = concerned(a, b, m, ops);
    with_ops(
        b,
        ops,
        0,
        DraftView {
            contracts: with_routes(a, b, 0, contracts_from(a, b, m, names, ids, 0, seq![])),
            schemas: seq![],
            program: seq![],
        },
    )
}

/// The contracts of a change.
pub open spec fn contracts_of(a: ModelView, b: ModelView, m: MatchingView, ops: Seq<OpView>) -> Seq<
    ContractDiffView,
> {
    let d = drafted(a, b, m, ops);
    let kept = telling(dropped(b, covered_from(b, d.contracts, 0), 0, d.contracts), 0, seq![]);
    in_reading_order(
        belonging(b, kept, 0) + values(d.schemas) + program_of(d.program),
        0,
        seq![],
    )
}

// ---- execution

fn bodies(a: &Model, b: &Model, m: &Matching) -> (r: SortedSet<String>)
    ensures
        r.deep_view() == changed_bodies(
            a.deep_view(),
            b.deep_view(),
            m.deep_view().forward,
            0,
            seq![],
        ),
{
    let ghost av = a.deep_view();
    let ghost bv = b.deep_view();
    let ghost fv = m.deep_view().forward;
    let mut out: SortedSet<String> = SortedSet::new();
    let mut i: usize = 0;
    while i < m.forward.len()
        invariant
            i <= fv.len(),
            av == a.deep_view(),
            bv == b.deep_view(),
            fv == m.deep_view().forward,
            changed_bodies(av, bv, fv, i as int, out.deep_view()) == changed_bodies(
                av,
                bv,
                fv,
                0,
                seq![],
            ),
        decreases fv.len() - i,
    {
        if let Some(ea) = a.entities.get(m.forward.key(i)) {
            if let Some(eb) = b.entities.get(m.forward.value(i)) {
                if !ea.body_hash.alike(&eb.body_hash) {
                    out.insert(top_level(b, m.forward.value(i)));
                }
            }
        }
        i += 1;
    }
    out
}

fn add_subjects(b: &Model, ops: &Vec<Op>, out: &mut SortedSet<String>)
    ensures
        final(out).deep_view() == changed_subjects(
            b.deep_view(),
            ops.deep_view(),
            0,
            old(out).deep_view(),
        ),
{
    let ghost bv = b.deep_view();
    let ghost v = ops.deep_view();
    let ghost start = out.deep_view();
    let mut i: usize = 0;
    while i < ops.len()
        invariant
            i <= ops@.len(),
            bv == b.deep_view(),
            v == ops.deep_view(),
            changed_subjects(bv, v, i as int, out.deep_view()) == changed_subjects(
                bv,
                v,
                0,
                start,
            ),
        decreases ops@.len() - i,
    {
        let op = &ops[i];
        assert(v[i as int] == op.deep_view());
        if op.layer != Layer::Structure && text::contains(&op.subject, "::")
            && b.entities.contains_key(&op.subject) {
            out.insert(top_level(b, &op.subject));
        }
        i += 1;
    }
}

fn add_new_functions(b: &Model, m: &Matching, out: &mut SortedSet<String>)
    ensures
        final(out).deep_view() == new_functions(
            b.deep_view(),
            m.deep_view().backward,
            0,
            old(out).deep_view(),
        ),
{
    let ghost bv = b.deep_view();
    let ghost kv = m.deep_view().backward;
    let ghost start = out.deep_view();
    let mut i: usize = 0;
    while i < b.entities.len()
        invariant
            i <= bv.entities.len(),
            bv == b.deep_view(),
            kv == m.deep_view().backward,
            new_functions(bv, kv, i as int, out.deep_view()) == new_functions(bv, kv, 0, start),
        decreases bv.entities.len() - i,
    {
        let id = b.entities.key(i);
        let e = b.entities.value(i);
        let acts = e.outputs.len() > 0 || match b.summaries.get(id) {
            Some(s) => s.effects.len() > 0,
            None => false,
        };
        if e.parent.is_none() && e.kind != EntityKind::Constructor && !m.backward.contains_key(id)
            && acts {
            out.insert(id.dup());
        }
        i += 1;
    }
}

fn single(s: String) -> (r: SortedSet<String>)
    ensures
        r.deep_view() == added(seq![], s@),
{
    let mut out: SortedSet<String> = SortedSet::new();
    out.insert(s);
    out
}

fn subjects(a: &Model, b: &Model, m: &Matching, ops: &Vec<Op>) -> (r: (
    SortedMap<String, String>,
    SortedSet<String>,
))
    ensures
        (r.0.deep_view(), r.1.deep_view()) == concerned(
            a.deep_view(),
            b.deep_view(),
            m.deep_view(),
            ops.deep_view(),
        ),
{
    let mut changed = bodies(a, b, m);
    add_subjects(b, ops, &mut changed);
    add_new_functions(b, m, &mut changed);
    let known = known_handlers(&a.subscriptions, &m.forward);
    let ghost bv = b.deep_view();
    let ghost kv = known.deep_view();
    let ghost start = changed.deep_view();
    let mut names: SortedMap<String, String> = SortedMap::new();
    let mut i: usize = 0;
    while i < b.subscriptions.len()
        invariant
            i <= b.subscriptions@.len(),
            bv == b.deep_view(),
            kv == known.deep_view(),
            with_handlers(bv, kv, i as int, names.deep_view(), changed.deep_view())
                == with_handlers(bv, kv, 0, seq![], start),
        decreases b.subscriptions@.len() - i,
    {
        let s = &b.subscriptions[i];
        assert(bv.subscriptions[i as int] == s.deep_view());
        if !known.contains(&(s.event.dup(), s.handler.dup())) {
            let top = top_level(b, &s.handler);
            if !top.alike(&s.handler) {
                names.insert(s.handler.dup(), text::cat3(&short(&top), ", on ", &s.event));
                changed = changed.difference(&single(top));
            }
            changed.insert(s.handler.dup());
        }
        i += 1;
    }
    (names, changed)
}

fn route_exists(routes: &Vec<Route>, key: &String) -> (r: bool)
    ensures
        r == has_route(routes.deep_view(), key@),
{
    let ghost v = routes.deep_view();
    let mut i: usize = 0;
    while i < routes.len()
        invariant
            i <= routes@.len(),
            v == routes.deep_view(),
            forall|k: int| 0 <= k < i ==> route_key(#[trigger] v[k]) != key@,
        decreases routes@.len() - i,
    {
        assert(v[i as int] == routes@[i as int].deep_view());
        if routes[i].key().alike(key) {
            assert(route_key(v[i as int]) == key@);
            return true;
        }
        i += 1;
    }
    false
}

fn gained_routes(b: &Vec<Route>, a: &Vec<Route>, id: &String) -> (r: Vec<String>)
    ensures
        r.deep_view() == routes_gained(b.deep_view(), a.deep_view(), id@, 0),
{
    let ghost bv = b.deep_view();
    let ghost av = a.deep_view();
    let mut out: Vec<String> = list::empty();
    let mut i: usize = 0;
    while i < b.len()
        invariant
            i <= b@.len(),
            bv == b.deep_view(),
            av == a.deep_view(),
            out.deep_view() + routes_gained(bv, av, id@, i as int) == routes_gained(
                bv,
                av,
                id@,
                0,
            ),
        decreases b@.len() - i,
    {
        assert(bv[i as int] == b@[i as int].deep_view());
        let key = b[i].key();
        if b[i].handler.alike(id) && !route_exists(a, &key) {
            list::push(&mut out, key);
        }
        i += 1;
    }
    out
}

fn start(
    a: &Model,
    b: &Model,
    m: &Matching,
    names: &SortedMap<String, String>,
    ids: &SortedSet<String>,
) -> (r: SortedMap<String, ContractDiff>)
    ensures
        r.deep_view() == contracts_from(
            a.deep_view(),
            b.deep_view(),
            m.deep_view(),
            names.deep_view(),
            ids.deep_view(),
            0,
            seq![],
        ),
{
    let ghost av = a.deep_view();
    let ghost bv = b.deep_view();
    let ghost mv = m.deep_view();
    let ghost nv = names.deep_view();
    let ghost iv = ids.deep_view();
    let kids_a = closures_by_parent(a);
    let kids_b = closures_by_parent(b);
    let mut out: SortedMap<String, ContractDiff> = SortedMap::new();
    let mut i: usize = 0;
    while i < ids.len()
        invariant
            i <= iv.len(),
            av == a.deep_view(),
            bv == b.deep_view(),
            mv == m.deep_view(),
            nv == names.deep_view(),
            iv == ids.deep_view(),
            kids_a.deep_view() == closures_from(av.entities, 0, seq![]),
            kids_b.deep_view() == closures_from(bv.entities, 0, seq![]),
            contracts_from(av, bv, mv, nv, iv, i as int, out.deep_view()) == contracts_from(
                av,
                bv,
                mv,
                nv,
                iv,
                0,
                seq![],
            ),
        decreases iv.len() - i,
    {
        let id = ids.item(i);
        if let Some(e) = b.entities.get(id) {
            if e.kind != EntityKind::Constructor {
                let (status, clauses) = match m.backward.get(id) {
                    Some(ida) => (
                        "changed".to_owned(),
                        compare(&items(a, &kids_a, ida), &items(b, &kids_b, id)),
                    ),
                    None => ("new".to_owned(), compare(&list::empty(), &items(b, &kids_b, id))),
                };
                let name = match names.get(id) {
                    Some(n) => n.dup(),
                    None => short(id),
                };
                out.insert(
                    id.dup(),
                    ContractDiff {
                        entity: id.dup(),
                        name,
                        status,
                        loc: e.loc.dup(),
                        routes: b.entry_points_reaching(id),
                        new_routes: gained_routes(&b.routes, &a.routes, id),
                        clauses,
                        ops: list::empty(),
                    },
                );
            }
        }
        i += 1;
    }
    out
}

fn add_route(cs: &mut SortedMap<String, ContractDiff>, id: &String, route: &String)
    ensures
        final(cs).deep_view() == with_route(old(cs).deep_view(), id@, route@),
{
    let held = match cs.get(id) {
        Some(c) => Some(c.dup()),
        None => None,
    };
    if let Some(c) = held {
        let mut c = c;
        if !list::has(&c.new_routes, route) {
            list::push(&mut c.new_routes, route.dup());
        }
        cs.insert(id.dup(), c);
    }
}

fn add_closure_routes(a: &Model, b: &Model, cs: &mut SortedMap<String, ContractDiff>)
    ensures
        final(cs).deep_view() == with_routes(
            a.deep_view(),
            b.deep_view(),
            0,
            old(cs).deep_view(),
        ),
{
    let ghost av = a.deep_view();
    let ghost bv = b.deep_view();
    let ghost first = cs.deep_view();
    let mut i: usize = 0;
    while i < b.routes.len()
        invariant
            i <= b.routes@.len(),
            av == a.deep_view(),
            bv == b.deep_view(),
            with_routes(av, bv, i as int, cs.deep_view()) == with_routes(av, bv, 0, first),
        decreases b.routes@.len() - i,
    {
        let route = &b.routes[i];
        assert(bv.routes[i as int] == route.deep_view());
        let key = route.key();
        if !route_exists(&a.routes, &key) {
            let top = top_level(b, &route.handler);
            let fresh = match cs.get(&top) {
                Some(c) => text::same(&c.status, "new"),
                None => false,
            };
            let closure = match b.entities.get(&route.handler) {
                Some(h) => h.parent.is_some(),
                None => false,
            };
            if fresh && closure {
                add_route(cs, &top, &key);
            }
        }
        i += 1;
    }
}

fn first_of(locs: &Vec<Loc>) -> (r: Option<Loc>)
    ensures
        r.deep_view() == first(locs.deep_view()),
{
    if locs.len() > 0 {
        assert(locs.deep_view()[0] == locs@[0].deep_view());
        Some(locs[0].dup())
    } else {
        None
    }
}

fn named(cs: &SortedMap<String, ContractDiff>, name: &String) -> (r: Option<String>)
    ensures
        r.deep_view() == named_from(cs.deep_view(), name@, 0),
{
    let ghost v = cs.deep_view();
    let mut i: usize = 0;
    while i < cs.len()
        invariant
            i <= v.len(),
            v == cs.deep_view(),
            named_from(v, name@, 0) == named_from(v, name@, i as int),
        decreases v.len() - i,
    {
        let c = cs.value(i);
        if c.name.alike(name) || c.entity.alike(name) {
            return Some(c.entity.dup());
        }
        i += 1;
    }
    None
}

fn code_at(b: &Model, op: &Op) -> (r: Option<String>)
    ensures
        r.deep_view() == at_first(b.deep_view(), op.deep_view()),
{
    match first_of(&op.evidence_after) {
        Some(l) => entity_at(b, &l),
        None => None,
    }
}

fn owner(b: &Model, cs: &SortedMap<String, ContractDiff>, name: &Option<String>, op: &Op) -> (r:
    Option<String>)
    ensures
        r.deep_view() == owner_of(
            b.deep_view(),
            cs.deep_view(),
            name.deep_view(),
            op.deep_view(),
        ),
{
    let found = match name {
        Some(n) => named(cs, n),
        None => None,
    };
    match found {
        Some(id) => Some(id),
        None => code_at(b, op),
    }
}

fn attach(d: &mut Draft, owner: Option<String>, cl: Clause, op: &String)
    ensures
        final(d).deep_view() == attached(
            old(d).deep_view(),
            owner.deep_view(),
            cl.deep_view(),
            op@,
        ),
{
    if let Some(o) = owner {
        let held = match d.contracts.get(&o) {
            Some(c) => Some(c.dup()),
            None => None,
        };
        if let Some(c) = held {
            let mut c = c;
            list::push(&mut c.clauses, cl);
            list::push(&mut c.ops, op.dup());
            d.contracts.insert(o, c);
            return;
        }
    }
    list::push(&mut d.program, (cl, op.dup()));
}

fn field_of_schema(subject: &String) -> (r: (String, String))
    ensures
        (r.0@, r.1@) == schema_field(subject@),
{
    let local = text::last_piece(subject, "::");
    match text::split_once(&local, ".") {
        Some(p) => p,
        None => (local, "*".to_owned()),
    }
}

fn label(field: &String, v: &Option<String>) -> (r: Option<String>)
    ensures
        r.deep_view() == field_label(field@, v.deep_view()),
{
    match v {
        Some(t) => Some(
            if text::same(field, "*") {
                t.dup()
            } else {
                text::cat3(field, ": ", t)
            },
        ),
        None => None,
    }
}

fn input_clause(op: &Op) -> (r: Clause)
    ensures
        r.deep_view() == schema_clause(op.deep_view()),
{
    let (_, field) = field_of_schema(&op.subject);
    let mark = if text::same(&op.kind, "SCHEMA_FIELD_ADDED") {
        '+'
    } else if text::same(&op.kind, "SCHEMA_FIELD_REMOVED") {
        '-'
    } else {
        '~'
    };
    let tag = if mark == '+' {
        "new field"
    } else if mark == '-' {
        "field removed"
    } else if text::same(&field, "*") {
        "whole schema"
    } else {
        "validated differently"
    };
    Clause {
        row: "input".to_owned(),
        mark,
        before: label(&field, &op.before),
        after: label(&field, &op.after),
        tag: Some(tag.to_owned()),
        evidence_before: first_of(&op.evidence_before),
        evidence_after: first_of(&op.evidence_after),
    }
}

fn add_schema(d: &mut Draft, op: &Op)
    ensures
        final(d).deep_view() == with_schema(old(d).deep_view(), op.deep_view()),
{
    let (schema, _) = field_of_schema(&op.subject);
    let key = match text::split_once(&op.subject, "::") {
        Some((module, _)) => text::cat3(&module, "::", &schema),
        None => schema.dup(),
    };
    let mut c = match d.schemas.get(&key) {
        Some(c) => c.dup(),
        None => ContractDiff {
            entity: key.dup(),
            name: schema,
            status: "schema".to_owned(),
            loc: match first_of(&op.evidence_after) {
                Some(l) => l,
                None => match first_of(&op.evidence_before) {
                    Some(l) => l,
                    None => Loc { file: "".to_owned(), line: 0 },
                },
            },
            routes: list::empty(),
            new_routes: list::empty(),
            clauses: list::empty(),
            ops: list::empty(),
        },
    };
    list::push(&mut c.clauses, input_clause(op));
    list::push(&mut c.ops, op.id.dup());
    d.schemas.insert(key, c);
}

fn ends_of(subject: &String) -> (r: (String, String))
    ensures
        (r.0@, r.1@) == arrow(subject@),
{
    match text::split_once(subject, " → ") {
        Some(p) => p,
        None => (subject.dup(), "?".to_owned()),
    }
}

fn from_states(subject: &String, v: &Option<String>) -> (r: Option<String>)
    ensures
        r.deep_view() == states_label(subject@, v.deep_view()),
{
    match v {
        Some(t) => {
            let (field, to) = ends_of(subject);
            Some(text::cat5(&field, " → ", &to, " from ", t))
        },
        None => None,
    }
}

fn state_clause(op: &Op) -> (r: Clause)
    ensures
        r.deep_view() == lifecycle_clause(op.deep_view()),
{
    let tag = if text::same(&op.kind, "STATE_TRANSITION_SOURCE_WIDENED") || text::same(
        &op.kind,
        "STATE_TRANSITION_ADDED",
    ) {
        "more ways to reach this state"
    } else if text::same(&op.kind, "STATE_TRANSITION_SOURCE_NARROWED") || text::same(
        &op.kind,
        "STATE_TRANSITION_REMOVED",
    ) {
        "fewer ways to reach this state"
    } else {
        "different ways to reach this state"
    };
    Clause {
        row: "lifecycle".to_owned(),
        mark: if op.before.is_none() {
            '+'
        } else if op.after.is_none() {
            '-'
        } else {
            '~'
        },
        before: from_states(&op.subject, &op.before),
        after: from_states(&op.subject, &op.after),
        tag: Some(tag.to_owned()),
        evidence_before: first_of(&op.evidence_before),
        evidence_after: first_of(&op.evidence_after),
    }
}

fn writer_in(note: &Option<String>) -> (r: Option<String>)
    ensures
        r.deep_view() == noted_writer(note.deep_view()),
{
    match note {
        Some(n) => match text::strip_prefix(n, "new path via ") {
            Some(ws) => Some(head_of(&ws, ", ")),
            None => None,
        },
        None => None,
    }
}

fn broken_clause(said: String, tag: &str, op: &Op) -> (r: Clause)
    ensures
        r.deep_view() == rule_clause(said@, tag@, op.deep_view()),
{
    Clause {
        row: "rule".to_owned(),
        mark: '!',
        before: None,
        after: Some(said),
        tag: Some(tag.to_owned()),
        evidence_before: None,
        evidence_after: first_of(&op.evidence_after),
    }
}

fn files(details: &Vec<String>) -> (r: Vec<String>)
    ensures
        r.deep_view() == files_from(details.deep_view(), 0),
{
    let ghost v = details.deep_view();
    let mut out: Vec<String> = list::empty();
    let mut i: usize = 0;
    while i < details.len()
        invariant
            i <= details@.len(),
            v == details.deep_view(),
            out.deep_view() + files_from(v, i as int) == files_from(v, 0),
        decreases details@.len() - i,
    {
        if let Some((_, t)) = text::split_once(&details[i], " → ") {
            list::push(&mut out, text::last_piece(&t, "/"));
        }
        i += 1;
    }
    out
}

fn say_violation(op: &Op) -> (r: String)
    ensures
        r@ == violation_text(op.deep_view()),
{
    if text::starts_with(&op.kind, "LAYER") {
        let (from, to) = ends_of(&op.subject);
        let after = match &op.after {
            Some(a) => a.dup(),
            None => "".to_owned(),
        };
        let called = text::join(&files(&text::split(&after, "; ")), ", ");
        text::cat7(
            "the ",
            &from,
            " layer now calls ",
            &called,
            " in the ",
            &to,
            " layer, which merak.toml forbids",
        )
    } else {
        text::cat3("writes ", &op.subject, " outside the code that owns it")
    }
}

fn who_breaks(b: &Model, d: &Draft, op: &Op) -> (r: Option<String>)
    ensures
        r.deep_view() == violation_owner(b.deep_view(), d.deep_view(), op.deep_view()),
{
    if text::starts_with(&op.kind, "OWNERSHIP") {
        match &op.after {
            Some(w) => {
                let top = top_level(b, &head_of(w, "; "));
                if d.contracts.contains_key(&top) {
                    Some(top)
                } else {
                    None
                }
            },
            None => None,
        }
    } else {
        code_at(b, op)
    }
}

fn untyped_clause(op: &Op) -> (r: Clause)
    ensures
        r.deep_view() == calls_clause(op.deep_view()),
{
    Clause {
        row: "calls".to_owned(),
        mark: '?',
        before: op.before.dup(),
        after: op.after.dup(),
        tag: None,
        evidence_before: first_of(&op.evidence_before),
        evidence_after: first_of(&op.evidence_after),
    }
}

fn handler(b: &Model, key: &String) -> (r: Option<String>)
    ensures
        r.deep_view() == handler_from(b.deep_view(), key@, 0),
{
    let ghost bv = b.deep_view();
    let mut i: usize = 0;
    while i < b.routes.len()
        invariant
            i <= b.routes@.len(),
            bv == b.deep_view(),
            handler_from(bv, key@, 0) == handler_from(bv, key@, i as int),
        decreases b.routes@.len() - i,
    {
        assert(bv.routes[i as int] == b.routes@[i as int].deep_view());
        if b.routes[i].key().alike(key) {
            return Some(top_level(b, &b.routes[i].handler));
        }
        i += 1;
    }
    None
}

fn is_some_text(t: &Option<String>, s: &String) -> (r: bool)
    ensures
        r == (Some(s@) == t.deep_view()),
{
    match t {
        Some(x) => x.alike(s),
        None => false,
    }
}

fn run_by(cs: &SortedMap<String, ContractDiff>, route: &String, handler: &Option<String>) -> (r:
    Option<String>)
    ensures
        r.deep_view() == run_from(cs.deep_view(), route@, handler.deep_view(), 0),
{
    let ghost v = cs.deep_view();
    let ghost hv = handler.deep_view();
    let mut i: usize = 0;
    while i < cs.len()
        invariant
            i <= v.len(),
            v == cs.deep_view(),
            hv == handler.deep_view(),
            run_from(v, route@, hv, 0) == run_from(v, route@, hv, i as int),
        decreases v.len() - i,
    {
        let c = cs.value(i);
        if text::same(&c.status, "new") && list::has(&c.routes, route) && !is_some_text(
            handler,
            &c.entity,
        ) {
            return Some(c.entity.dup());
        }
        i += 1;
    }
    None
}

fn who_routes(b: &Model, d: &Draft, op: &Op) -> (r: Option<String>)
    ensures
        r.deep_view() == route_owner(b.deep_view(), d.deep_view(), op.deep_view()),
{
    let h = handler(b, &op.subject);
    match run_by(&d.contracts, &op.subject, &h) {
        Some(id) => Some(id),
        None => h,
    }
}

fn who_handles(b: &Model, d: &Draft, event: &String) -> (r: Option<String>)
    ensures
        r.deep_view() == event_owner_from(b.deep_view(), d.deep_view(), event@, 0),
{
    let ghost bv = b.deep_view();
    let ghost dv = d.deep_view();
    let mut i: usize = 0;
    while i < b.subscriptions.len()
        invariant
            i <= b.subscriptions@.len(),
            bv == b.deep_view(),
            dv == d.deep_view(),
            event_owner_from(bv, dv, event@, 0) == event_owner_from(bv, dv, event@, i as int),
        decreases b.subscriptions@.len() - i,
    {
        let s = &b.subscriptions[i];
        assert(bv.subscriptions[i as int] == s.deep_view());
        if s.event.alike(event) {
            if d.contracts.contains_key(&s.handler) {
                return Some(s.handler.dup());
            }
            return Some(top_level(b, &s.handler));
        }
        i += 1;
    }
    None
}

fn route_to(d: &mut Draft, owner: &Option<String>, route: &String)
    ensures
        final(d).deep_view() == routed(old(d).deep_view(), owner.deep_view(), route@),
{
    if let Some(o) = owner {
        add_route(&mut d.contracts, o, route);
    }
}

fn misc_clause(op: &Op) -> (r: Clause)
    ensures
        r.deep_view() == other_clause(op.deep_view()),
{
    let kind = text::replace(&text::to_lower(&op.kind), "_", " ");
    Clause {
        row: "other".to_owned(),
        mark: '~',
        before: op.before.dup(),
        after: Some(text::cat3(&kind, " ", &op.subject)),
        tag: None,
        evidence_before: first_of(&op.evidence_before),
        evidence_after: first_of(&op.evidence_after),
    }
}

fn count(d: &mut Draft, owner: Option<String>, op: &Op)
    ensures
        final(d).deep_view() == counted(
            old(d).deep_view(),
            owner.deep_view(),
            op.deep_view(),
        ),
{
    if let Some(o) = owner {
        let held = match d.contracts.get(&o) {
            Some(c) => Some(c.dup()),
            None => None,
        };
        if let Some(c) = held {
            let mut c = c;
            list::push(&mut c.ops, op.id.dup());
            d.contracts.insert(o, c);
            return;
        }
    }
    if !(text::same(&op.kind, "BEHAVIOUR_ADDED") || text::same(&op.kind, "ENTRYPOINT_REMOVED")
        || text::same(&op.kind, "EVENT_HANDLER_REMOVED")) {
        list::push(&mut d.program, (misc_clause(op), op.id.dup()));
    }
}

#[verifier::rlimit(40)]
fn add_op(b: &Model, d: &mut Draft, op: &Op)
    ensures
        final(d).deep_view() == with_op(b.deep_view(), old(d).deep_view(), op.deep_view()),
{
    if text::starts_with(&op.kind, "SCHEMA_") {
        add_schema(d, op);
    } else if text::starts_with(&op.kind, "STATE_TRANSITION") {
        let o = owner(b, &d.contracts, &writer_in(&op.note), op);
        attach(d, o, state_clause(op), &op.id);
    } else if text::same(&op.kind, "INVARIANT_VIOLATED") {
        let who = match &op.after {
            Some(x) => text::replace(x, " does not satisfy it", ""),
            None => "".to_owned(),
        };
        let o = owner(b, &d.contracts, &Some(who), op);
        let said = text::cat5(
            "breaks ",
            &op.subject,
            " (",
            &text::number(op.confidence as u64),
            "% of writers follow it)",
        );
        attach(d, o, broken_clause(said, "inferred pattern", op), &op.id);
    } else if text::same(&op.kind, "LAYER_VIOLATION_INTRODUCED") || text::same(
        &op.kind,
        "OWNERSHIP_VIOLATION_INTRODUCED",
    ) {
        let o = who_breaks(b, d, op);
        let said = say_violation(op);
        attach(d, o, broken_clause(said, "declared in merak.toml", op), &op.id);
    } else if text::same(&op.kind, "UNCLASSIFIED_CHANGE") {
        let top = top_level(b, &op.subject);
        let o = if d.contracts.contains_key(&top) {
            Some(top)
        } else {
            None
        };
        attach(d, o, untyped_clause(op), &op.id);
    } else if text::same(&op.kind, "ENTRYPOINT_ADDED") {
        let o = who_routes(b, d, op);
        route_to(d, &o, &op.subject);
        count(d, o, op);
    } else if text::same(&op.kind, "EVENT_HANDLER_ADDED") {
        let o = who_handles(b, d, &op.subject);
        route_to(d, &o, &text::cat2("event ", &op.subject));
        count(d, o, op);
    } else {
        let o = if b.entities.contains_key(&op.subject) {
            Some(top_level(b, &op.subject))
        } else {
            None
        };
        count(d, o, op);
    }
}

fn draft(a: &Model, b: &Model, m: &Matching, ops: &Vec<Op>) -> (r: Draft)
    ensures
        r.deep_view() == drafted(a.deep_view(), b.deep_view(), m.deep_view(), ops.deep_view()),
{
    let (names, ids) = subjects(a, b, m, ops);
    let mut contracts = start(a, b, m, &names, &ids);
    add_closure_routes(a, b, &mut contracts);
    let mut d = Draft { contracts, schemas: SortedMap::new(), program: list::empty() };
    let ghost bv = b.deep_view();
    let ghost v = ops.deep_view();
    let ghost first = d.deep_view();
    let mut i: usize = 0;
    while i < ops.len()
        invariant
            i <= ops@.len(),
            bv == b.deep_view(),
            v == ops.deep_view(),
            with_ops(bv, v, i as int, d.deep_view()) == with_ops(bv, v, 0, first),
        decreases ops@.len() - i,
    {
        assert(v[i as int] == ops@[i as int].deep_view());
        if ops[i].layer != Layer::Structure {
            add_op(b, &mut d, &ops[i]);
        }
        i += 1;
    }
    d
}

fn leading_word(s: &String) -> (r: String)
    ensures
        r@ == s@.take(word_end(s@, 0)),
{
    let v = text::chars_of(s);
    let mut i: usize = 0;
    while i < v.len() && v[i] != ' ' && v[i] != ':'
        invariant
            i <= v@.len(),
            v@ == s@,
            word_end(s@, 0) == word_end(s@, i as int),
        decreases v@.len() - i,
    {
        i += 1;
    }
    assert(v@.subrange(0, i as int) =~= s@.take(i as int));
    text::text_of(&v, 0, i)
}

fn about(row: &String, s: &str) -> (r: String)
    ensures
        r@ == subject_of(row@, s@),
{
    let s = text::replace(s, " (by a callee)", "");
    if text::same(row, "post") {
        leading_word(&s)
    } else if text::same(row, "effects") {
        head_of(&s, " (")
    } else {
        s
    }
}

fn given(t: &Option<String>) -> (r: &str)
    ensures
        r@ == or_empty(t.deep_view()),
{
    match t {
        Some(s) => s.as_str(),
        None => "",
    }
}

/// Two clauses describe the same thing (same field, requirement or effect target).
fn same_key(x: &Clause, y: &Clause) -> (r: bool)
    ensures
        r == same_clause(x.deep_view(), y.deep_view()),
{
    y.row.alike(&x.row) && about(&x.row, given(&x.after)).alike(&about(&x.row, given(&y.after)))
}

fn says(x: &Clause, theirs: &Vec<Clause>) -> (r: bool)
    ensures
        r == is_said(x.deep_view(), theirs.deep_view()),
{
    let ghost v = theirs.deep_view();
    let ghost xv = x.deep_view();
    let mut i: usize = 0;
    while i < theirs.len()
        invariant
            i <= theirs@.len(),
            v == theirs.deep_view(),
            xv == x.deep_view(),
            forall|j: int| 0 <= j < i ==> !same_clause(xv, #[trigger] v[j]),
        decreases theirs@.len() - i,
    {
        assert(v[i as int] == theirs@[i as int].deep_view());
        if same_key(x, &theirs[i]) {
            assert(same_clause(xv, v[i as int]));
            return true;
        }
        i += 1;
    }
    false
}

fn covers(own: &ContractDiff, theirs: &ContractDiff) -> (r: bool)
    ensures
        r == says_all(own.deep_view(), theirs.deep_view()),
{
    let ghost v = own.deep_view();
    let ghost t = theirs.deep_view();
    let mut i: usize = 0;
    while i < own.clauses.len()
        invariant
            i <= own.clauses@.len(),
            v == own.deep_view(),
            t == theirs.deep_view(),
            forall|k: int| 0 <= k < i ==> is_said(#[trigger] v.clauses[k], t.clauses),
        decreases own.clauses@.len() - i,
    {
        assert(v.clauses[i as int] == own.clauses@[i as int].deep_view());
        if !says(&own.clauses[i], &theirs.clauses) {
            assert(!is_said(v.clauses[i as int], t.clauses));
            return false;
        }
        i += 1;
    }
    true
}

fn covered(b: &Model, cs: &SortedMap<String, ContractDiff>, c: &ContractDiff) -> (r: bool)
    ensures
        r == is_covered(b.deep_view(), cs.deep_view(), c.deep_view(), c.deep_view().entity),
{
    let ghost bv = b.deep_view();
    let ghost v = cs.deep_view();
    let ghost cv = c.deep_view();
    let mut i: usize = 0;
    while i < b.entities.len()
        invariant
            i <= bv.entities.len(),
            bv == b.deep_view(),
            v == cs.deep_view(),
            cv == c.deep_view(),
            forall|k: int|
                0 <= k < i ==> !speaks_for(bv, v, cv, (#[trigger] bv.entities[k]).1, cv.entity),
        decreases bv.entities.len() - i,
    {
        let e = b.entities.value(i);
        if has_call(e, &c.entity) {
            let caller = top_level(b, &e.id);
            if !caller.alike(&c.entity) {
                if let Some(cc) = cs.get(&caller) {
                    if text::same(&cc.status, "new") && covers(c, cc) {
                        assert(speaks_for(bv, v, cv, bv.entities[i as int].1, cv.entity));
                        return true;
                    }
                }
            }
        }
        i += 1;
    }
    false
}

fn covered_ids(b: &Model, cs: &SortedMap<String, ContractDiff>) -> (r: Vec<String>)
    ensures
        r.deep_view() == covered_from(b.deep_view(), cs.deep_view(), 0),
{
    let ghost bv = b.deep_view();
    let ghost v = cs.deep_view();
    let mut out: Vec<String> = list::empty();
    let mut i: usize = 0;
    while i < cs.len()
        invariant
            i <= v.len(),
            bv == b.deep_view(),
            v == cs.deep_view(),
            out.deep_view() + covered_from(bv, v, i as int) == covered_from(bv, v, 0),
        decreases v.len() - i,
    {
        let c = cs.value(i);
        if text::same(&c.status, "new") && covered(b, cs, c) {
            list::push(&mut out, c.entity.dup());
        }
        i += 1;
    }
    out
}

fn calls_from(b: &Model, entity: &String, id: &String) -> (r: bool)
    ensures
        r == runs(b.deep_view(), entity@, id@),
{
    let ghost bv = b.deep_view();
    let mut i: usize = 0;
    while i < b.entities.len()
        invariant
            i <= bv.entities.len(),
            bv == b.deep_view(),
            forall|k: int|
                0 <= k < i ==> !(top_of(bv, (#[trigger] bv.entities[k]).1.id) == entity@ && calls(
                    bv.entities[k].1,
                    id@,
                )),
        decreases bv.entities.len() - i,
    {
        let e = b.entities.value(i);
        if has_call(e, id) && top_level(b, &e.id).alike(entity) {
            assert(top_of(bv, bv.entities[i as int].1.id) == entity@);
            return true;
        }
        i += 1;
    }
    false
}

fn heir(b: &Model, cs: &SortedMap<String, ContractDiff>, id: &String) -> (r: Option<usize>)
    ensures
        match r {
            Some(k) => k < cs.deep_view().len() && heir_from(
                b.deep_view(),
                cs.deep_view(),
                id@,
                0,
            ) == Some(k as int),
            None => heir_from(b.deep_view(), cs.deep_view(), id@, 0) is None,
        },
{
    let ghost bv = b.deep_view();
    let ghost v = cs.deep_view();
    let mut i: usize = 0;
    while i < cs.len()
        invariant
            i <= v.len(),
            bv == b.deep_view(),
            v == cs.deep_view(),
            heir_from(bv, v, id@, 0) == heir_from(bv, v, id@, i as int),
        decreases v.len() - i,
    {
        let c = cs.value(i);
        if text::same(&c.status, "new") && calls_from(b, &c.entity, id) {
            return Some(i);
        }
        i += 1;
    }
    None
}

fn drop_covered(b: &Model, ids: &Vec<String>, cs: &mut SortedMap<String, ContractDiff>)
    ensures
        final(cs).deep_view() == dropped(
            b.deep_view(),
            ids.deep_view(),
            0,
            old(cs).deep_view(),
        ),
{
    let ghost bv = b.deep_view();
    let ghost v = ids.deep_view();
    let ghost start = cs.deep_view();
    let mut i: usize = 0;
    while i < ids.len()
        invariant
            i <= ids@.len(),
            bv == b.deep_view(),
            v == ids.deep_view(),
            dropped(bv, v, i as int, cs.deep_view()) == dropped(bv, v, 0, start),
        decreases ids@.len() - i,
    {
        let id = &ids[i];
        if let Some(c) = cs.remove(id) {
            if let Some(k) = heir(b, cs, id) {
                let key = cs.key(k).dup();
                let mut h = cs.value(k).dup();
                list::extend(&mut h.ops, &c.ops);
                cs.insert(key, h);
            }
        }
        i += 1;
    }
}

fn explained(c: &ContractDiff) -> (r: bool)
    ensures
        r == explains_calls(c.deep_view()),
{
    let ghost v = c.deep_view().clauses;
    let mut i: usize = 0;
    while i < c.clauses.len()
        invariant
            i <= c.clauses@.len(),
            v == c.deep_view().clauses,
            forall|k: int| 0 <= k < i ==> !is_surface_change(#[trigger] v[k]),
        decreases c.clauses@.len() - i,
    {
        let x = &c.clauses[i];
        assert(v[i as int] == x.deep_view());
        if (text::same(&x.row, "takes") || text::same(&x.row, "returns") || text::same(
            &x.row,
            "renders",
        )) && x.mark != ' ' {
            assert(is_surface_change(v[i as int]));
            return true;
        }
        i += 1;
    }
    false
}

fn quiet(c: &ContractDiff) -> (r: ContractDiff)
    ensures
        r.deep_view() == quieted(c.deep_view()),
{
    let mut out = c.dup();
    if explained(c) {
        let ghost v = c.clauses.deep_view();
        let mut typed: Vec<Clause> = list::empty();
        let mut i: usize = 0;
        while i < c.clauses.len()
            invariant
                i <= c.clauses@.len(),
                v == c.clauses.deep_view(),
                typed.deep_view() + typed_from(v, i as int) == typed_from(v, 0),
            decreases c.clauses@.len() - i,
        {
            assert(v[i as int] == c.clauses@[i as int].deep_view());
            if c.clauses[i].mark != '?' {
                list::push(&mut typed, c.clauses[i].dup());
            }
            i += 1;
        }
        out.clauses = typed;
    }
    out
}

fn tells(c: &ContractDiff) -> (r: bool)
    ensures
        r == says_something(c.deep_view()),
{
    if c.ops.len() > 0 {
        return true;
    }
    let ghost v = c.deep_view().clauses;
    let mut i: usize = 0;
    while i < c.clauses.len()
        invariant
            i <= c.clauses@.len(),
            v == c.deep_view().clauses,
            forall|k: int| 0 <= k < i ==> (#[trigger] v[k]).mark == ' ',
        decreases c.clauses@.len() - i,
    {
        assert(v[i as int] == c.clauses@[i as int].deep_view());
        if c.clauses[i].mark != ' ' {
            return true;
        }
        i += 1;
    }
    false
}

fn keep_telling(cs: &SortedMap<String, ContractDiff>) -> (r: SortedMap<String, ContractDiff>)
    ensures
        r.deep_view() == telling(cs.deep_view(), 0, seq![]),
{
    let ghost v = cs.deep_view();
    let mut out: SortedMap<String, ContractDiff> = SortedMap::new();
    let mut i: usize = 0;
    while i < cs.len()
        invariant
            i <= v.len(),
            v == cs.deep_view(),
            telling(v, i as int, out.deep_view()) == telling(v, 0, seq![]),
        decreases v.len() - i,
    {
        let c = quiet(cs.value(i));
        if tells(&c) {
            out.insert(cs.key(i).dup(), c);
        }
        i += 1;
    }
    out
}

fn called_by_kept(b: &Model, kept: &SortedMap<String, ContractDiff>, id: &String) -> (r: bool)
    ensures
        r == is_called(b.deep_view(), kept.deep_view(), id@),
{
    let ghost bv = b.deep_view();
    let ghost kv = kept.deep_view();
    let mut i: usize = 0;
    while i < b.entities.len()
        invariant
            i <= bv.entities.len(),
            bv == b.deep_view(),
            kv == kept.deep_view(),
            forall|k: int|
                0 <= k < i ==> !(calls((#[trigger] bv.entities[k]).1, id@) && lookup(
                    kv,
                    top_of(bv, bv.entities[k].1.id),
                ) is Some && top_of(bv, bv.entities[k].1.id) != id@),
        decreases bv.entities.len() - i,
    {
        let e = b.entities.value(i);
        if has_call(e, id) {
            let top = top_level(b, &e.id);
            if kept.contains_key(&top) && !top.alike(id) {
                assert(calls(bv.entities[i as int].1, id@));
                return true;
            }
        }
        i += 1;
    }
    false
}

fn keep_belonging(b: &Model, cs: &SortedMap<String, ContractDiff>) -> (r: Vec<ContractDiff>)
    ensures
        r.deep_view() == belonging(b.deep_view(), cs.deep_view(), 0),
{
    let ghost bv = b.deep_view();
    let ghost v = cs.deep_view();
    let mut out: Vec<ContractDiff> = list::empty();
    let mut i: usize = 0;
    while i < cs.len()
        invariant
            i <= v.len(),
            bv == b.deep_view(),
            v == cs.deep_view(),
            out.deep_view() + belonging(bv, v, i as int) == belonging(bv, v, 0),
        decreases v.len() - i,
    {
        let c = cs.value(i);
        if !text::same(&c.status, "new") || c.ops.len() > 0 || called_by_kept(b, cs, cs.key(i)) {
            list::push(&mut out, c.dup());
        }
        i += 1;
    }
    out
}

fn rank(row: &String) -> (r: u32)
    ensures
        r == row_rank(row@),
{
    if text::same(row, "takes") {
        0
    } else if text::same(row, "who") {
        1
    } else if text::same(row, "returns") {
        2
    } else if text::same(row, "pre") {
        3
    } else if text::same(row, "where") {
        4
    } else if text::same(row, "post") {
        5
    } else if text::same(row, "effects") {
        6
    } else if text::same(row, "renders") {
        7
    } else if text::same(row, "lifecycle") {
        8
    } else if text::same(row, "rule") {
        9
    } else if text::same(row, "input") {
        10
    } else if text::same(row, "calls") {
        11
    } else if text::same(row, "other") {
        12
    } else {
        13
    }
}

fn sort_clauses(cs: &Vec<Clause>) -> (r: Vec<Clause>)
    ensures
        r.deep_view() == by_row(cs.deep_view(), 0),
{
    let ghost v = cs.deep_view();
    let mut out: Vec<Clause> = list::empty();
    let mut at: u32 = 0;
    while at <= 13
        invariant
            at <= 14,
            v == cs.deep_view(),
            out.deep_view() + by_row(v, at as int) == by_row(v, 0),
        decreases 14 - at,
    {
        let ghost before = out.deep_view();
        let mut i: usize = 0;
        while i < cs.len()
            invariant
                i <= cs@.len(),
                v == cs.deep_view(),
                out.deep_view() + at_rank(v, at as int, i as int) == before + at_rank(
                    v,
                    at as int,
                    0,
                ),
            decreases cs@.len() - i,
        {
            assert(v[i as int] == cs@[i as int].deep_view());
            if rank(&cs[i].row) == at {
                list::push(&mut out, cs[i].dup());
            }
            i += 1;
        }
        assert(out.deep_view() =~= before + at_rank(v, at as int, 0));
        at += 1;
    }
    out
}

fn row_has(c: &ContractDiff, row: &str, m: char, n: char) -> (r: bool)
    ensures
        r == row_marked(c.deep_view(), row@, m, n),
{
    let ghost v = c.deep_view().clauses;
    let mut i: usize = 0;
    while i < c.clauses.len()
        invariant
            i <= c.clauses@.len(),
            v == c.deep_view().clauses,
            forall|k: int|
                0 <= k < i ==> !((#[trigger] v[k]).row == row@ && (v[k].mark == m || v[k].mark
                    == n)),
        decreases c.clauses@.len() - i,
    {
        let x = &c.clauses[i];
        assert(v[i as int] == x.deep_view());
        if text::same(&x.row, row) && (x.mark == m || x.mark == n) {
            return true;
        }
        i += 1;
    }
    false
}

fn widened(c: &ContractDiff) -> (r: bool)
    ensures
        r == is_widened(c.deep_view()),
{
    let ghost v = c.deep_view().clauses;
    let mut i: usize = 0;
    while i < c.clauses.len()
        invariant
            i <= c.clauses@.len(),
            v == c.deep_view().clauses,
            forall|k: int| 0 <= k < i ==> (#[trigger] v[k]).tag != Some("widened"@),
        decreases c.clauses@.len() - i,
    {
        assert(v[i as int] == c.clauses@[i as int].deep_view());
        if let Some(t) = &c.clauses[i].tag {
            if text::same(t, "widened") {
                assert(v[i as int].tag == Some("widened"@));
                return true;
            }
        }
        i += 1;
    }
    false
}

/// Read the riskiest first: broken rules, dropped access or checks, wider reach.
pub fn risk(c: &ContractDiff) -> (r: u8)
    ensures
        r == risk_of(c.deep_view()),
{
    if c.has('!') {
        0
    } else if row_has(c, "who", '-', '~') || row_has(c, "pre", '-', '-') || row_has(
        c,
        "where",
        '-',
        '-',
    ) || widened(c) {
        1
    } else if text::same(&c.status, "changed") && !c.untyped_only() {
        2
    } else if text::same(&c.status, "new") {
        3
    } else if text::same(&c.status, "schema") {
        4
    } else {
        5
    }
}

fn goes_first(c: &ContractDiff, d: &ContractDiff) -> (r: bool)
    ensures
        r == read_first(c.deep_view(), d.deep_view()),
{
    let x: u8 = risk(c);
    let y: u8 = risk(d);
    x < y || (x == y && text::comes_before(&c.name, &d.name))
}

fn reading_order(cs: &Vec<ContractDiff>) -> (r: Vec<ContractDiff>)
    ensures
        r.deep_view() == in_reading_order(cs.deep_view(), 0, seq![]),
{
    let ghost v = cs.deep_view();
    let mut out: Vec<ContractDiff> = list::empty();
    let mut i: usize = 0;
    while i < cs.len()
        invariant
            i <= cs@.len(),
            v == cs.deep_view(),
            in_reading_order(v, i as int, out.deep_view()) == in_reading_order(v, 0, seq![]),
        decreases cs@.len() - i,
    {
        assert(v[i as int] == cs@[i as int].deep_view());
        let mut c = cs[i].dup();
        c.clauses = sort_clauses(&cs[i].clauses);
        let ghost cv = c.deep_view();
        let ghost before = out.deep_view();
        let mut at: usize = 0;
        while at < out.len() && !goes_first(&c, &out[at])
            invariant
                at <= out@.len(),
                before == out.deep_view(),
                cv == c.deep_view(),
                reading_place(before, cv, 0) == reading_place(before, cv, at as int),
            decreases out@.len() - at,
        {
            assert(before[at as int] == out@[at as int].deep_view());
            at += 1;
        }
        assert(at < out@.len() ==> before[at as int] == out@[at as int].deep_view());
        out.insert(at, c);
        assert(out.deep_view() =~= before.insert(at as int, cv));
        i += 1;
    }
    out
}

fn of_program(program: &Vec<(Clause, String)>) -> (r: Vec<ContractDiff>)
    ensures
        r.deep_view() == program_of(program.deep_view()),
{
    if program.len() == 0 {
        return list::empty();
    }
    let ghost v = program.deep_view();
    let ghost cv: Seq<ClauseView> = Seq::new(v.len(), |i: int| v[i].0);
    let ghost ov: Seq<Text> = Seq::new(v.len(), |i: int| v[i].1);
    let mut clauses: Vec<Clause> = list::empty();
    let mut ops: Vec<String> = list::empty();
    let mut i: usize = 0;
    while i < program.len()
        invariant
            i <= program@.len(),
            v == program.deep_view(),
            cv == Seq::new(v.len(), |i: int| v[i].0),
            ov == Seq::new(v.len(), |i: int| v[i].1),
            clauses.deep_view() == cv.take(i as int),
            ops.deep_view() == ov.take(i as int),
        decreases program@.len() - i,
    {
        assert(v[i as int] == program@[i as int].deep_view());
        list::push(&mut clauses, program[i].0.dup());
        list::push(&mut ops, program[i].1.dup());
        i += 1;
        assert(clauses.deep_view() =~= cv.take(i as int));
        assert(ops.deep_view() =~= ov.take(i as int));
    }
    assert(cv.take(v.len() as int) =~= cv);
    assert(ov.take(v.len() as int) =~= ov);
    list::one(
        ContractDiff {
            entity: "*".to_owned(),
            name: "Program".to_owned(),
            status: "changed".to_owned(),
            loc: Loc { file: "".to_owned(), line: 0 },
            routes: list::empty(),
            new_routes: list::empty(),
            clauses,
            ops,
        },
    )
}

fn values_of(cs: &SortedMap<String, ContractDiff>) -> (r: Vec<ContractDiff>)
    ensures
        r.deep_view() == values(cs.deep_view()),
{
    let ghost v = cs.deep_view();
    let mut out: Vec<ContractDiff> = list::empty();
    let mut i: usize = 0;
    while i < cs.len()
        invariant
            i <= v.len(),
            v == cs.deep_view(),
            out.deep_view() == values(v).take(i as int),
        decreases v.len() - i,
    {
        list::push(&mut out, cs.value(i).dup());
        i += 1;
        assert(out.deep_view() =~= values(v).take(i as int));
    }
    assert(values(v).take(v.len() as int) =~= values(v));
    out
}

/// The contracts of a change: what each changed or new function promises, before and after,
/// with every operation attached to the contract it concerns, riskiest first.
pub fn build(a: &Model, b: &Model, m: &Matching, ops: &Vec<Op>) -> (r: Vec<ContractDiff>)
    ensures
        r.deep_view() == contracts_of(
            a.deep_view(),
            b.deep_view(),
            m.deep_view(),
            ops.deep_view(),
        ),
{
    let d = draft(a, b, m, ops);
    let ids = covered_ids(b, &d.contracts);
    let mut contracts = d.contracts;
    drop_covered(b, &ids, &mut contracts);
    let kept = keep_telling(&contracts);
    let mut out = keep_belonging(b, &kept);
    list::append(&mut out, values_of(&d.schemas));
    list::append(&mut out, of_program(&d.program));
    reading_order(&out)
}

} // verus!
