//! Semantic transitions: what changed in a program's behaviour and design between two
//! behaviour models. The models are only the substrate; the list of typed operations, each
//! with its evidence, is the object.

use crate::additions::{
    added_behaviour, changed_schemas, new_code, schema_changes, subjects, subjects_from,
};
use crate::behaviour::{changed_behaviour, pairs_changed, pairs_ops};
use crate::clauses::{ContractDiff, ContractDiffView};
use crate::contract::{build, contracts_of};
use crate::list;
use crate::list::{deduped, Plain};
use crate::matching::{match_entities, matched, Matching, MatchingView};
use crate::model::{entry_points, CallShape, CallShapeView, Model, ModelView};
use crate::nesting::closures_by_parent;
use crate::ops::{found, found_op, list_of, listed, Layer, Op, OpView};
use crate::ordered::{lookup, SortedSet};
use crate::rules::{breaches, broken_invariants, changed_rules, rule_changes};
use crate::shapes::{
    apart, inline_shapes, inlined_shapes, keys_of, multiset_diff, places_of, shape_keys,
    shape_places,
};
use crate::states::{changed_states, state_changes};
use crate::structure::{structural, structure_changes, surface, surface_changes};
use crate::summary::complete;
use crate::text;
use crate::text::Text;
use vstd::prelude::*;

verus! {

/// How much of a program changed.
#[derive(Debug, PartialEq)]
pub struct Stats {
    pub entities_before: usize,
    pub entities_after: usize,
    pub entities_changed: usize,
}

/// The view of [`Stats`].
#[verifier::ext_equal]
pub struct StatsView {
    pub entities_before: usize,
    pub entities_after: usize,
    pub entities_changed: usize,
}

impl DeepView for Stats {
    type V = StatsView;

    open spec fn deep_view(&self) -> StatsView {
        StatsView { entities_before: self.entities_before, entities_after: self.entities_after, entities_changed: self.entities_changed }
    }
}

impl Plain for Stats {
    fn dup(&self) -> (r: Self) {
        Stats { entities_before: self.entities_before, entities_after: self.entities_after, entities_changed: self.entities_changed }
    }

    fn alike(&self, other: &Self) -> (r: bool) {
        self.entities_before == other.entities_before && self.entities_after == other.entities_after && self.entities_changed == other.entities_changed
    }
}

/// What changed in a program's behaviour and design.
#[derive(Debug, PartialEq)]
pub struct Transition {
    pub ops: Vec<Op>,
    pub contracts: Vec<ContractDiff>,
    pub stats: Stats,
}

/// The view of [`Transition`].
#[verifier::ext_equal]
pub struct TransitionView {
    pub ops: Seq<OpView>,
    pub contracts: Seq<ContractDiffView>,
    pub stats: StatsView,
}

impl DeepView for Transition {
    type V = TransitionView;

    open spec fn deep_view(&self) -> TransitionView {
        TransitionView { ops: self.ops.deep_view(), contracts: self.contracts.deep_view(), stats: self.stats.deep_view() }
    }
}

// ---- calls

/// The entities of a pair, if their bodies differ.
pub open spec fn bodies_differ(a: ModelView, b: ModelView, pair: (Text, Text)) -> bool {
    match (lookup(a.entities, pair.0), lookup(b.entities, pair.1)) {
        (Some(ea), Some(eb)) => ea.body_hash != eb.body_hash,
        _ => false,
    }
}

/// The operation on a changed entity whose calls changed and which no typed operation explains.
/// Calls into helpers that exist on one side only (extracted or inlined) count as their bodies.
pub open spec fn untyped_change(a: ModelView, b: ModelView, m: MatchingView, pair: (Text, Text)) -> Seq<OpView> {
    let (gone, fresh) = apart(
        inlined_shapes(a, pair.0, m.forward),
        inlined_shapes(b, pair.1, m.backward),
    );
    if gone.len() == 0 && fresh.len() == 0 {
        seq![]
    } else {
        seq![
            OpView {
                confidence: 50,
                affects: entry_points(b, pair.1),
                note: Some(
                    "calls changed in a way the behaviour model does not classify; review manually"@,
                ),
                ..found(
                    "UNCLASSIFIED_CHANGE"@,
                    Layer::Behaviour,
                    pair.1,
                    listed(shape_keys(gone), "; "@),
                    listed(shape_keys(fresh), "; "@),
                    deduped(shape_places(gone)),
                    deduped(shape_places(fresh)),
                )
            },
        ]
    }
}

/// The untyped changes of the pairs from index `i` on that are not explained: said rather than
/// counted towards a pure refactor.
pub open spec fn untyped_changes(a: ModelView, b: ModelView, m: MatchingView, explained: Seq<Text>, i: int) -> Seq<OpView>
    decreases m.forward.len() - i,
{
    if 0 <= i < m.forward.len() {
        let pair = m.forward[i];
        (if bodies_differ(a, b, pair) && !explained.contains(pair.1) {
            untyped_change(a, b, m, pair)
        } else {
            seq![]
        }) + untyped_changes(a, b, m, explained, i + 1)
    } else {
        seq![]
    }
}

/// The logging of a pair, before and after.
pub open spec fn logs_apart(a: ModelView, b: ModelView, pair: (Text, Text)) -> (Seq<CallShapeView>, Seq<CallShapeView>) {
    match (lookup(a.entities, pair.0), lookup(b.entities, pair.1)) {
        (Some(ea), Some(eb)) => apart(ea.logs, eb.logs),
        _ => (seq![], seq![]),
    }
}

/// The changes to the logging of the pairs from index `i` on.
pub open spec fn logging_changes(a: ModelView, b: ModelView, forward: Seq<(Text, Text)>, i: int) -> Seq<OpView>
    decreases forward.len() - i,
{
    if 0 <= i < forward.len() {
        let pair = forward[i];
        let (gone, fresh) = logs_apart(a, b, pair);
        (if bodies_differ(a, b, pair) && (gone.len() > 0 || fresh.len() > 0) {
            seq![
                found(
                    "LOGGING_CHANGED"@,
                    Layer::Structure,
                    pair.1,
                    listed(shape_keys(gone), "; "@),
                    listed(shape_keys(fresh), "; "@),
                    shape_places(gone),
                    shape_places(fresh),
                ),
            ]
        } else {
            seq![]
        }) + logging_changes(a, b, forward, i + 1)
    } else {
        seq![]
    }
}

// ---- the whole

/// The operations up to new code.
pub open spec fn direct_ops(a: ModelView, b: ModelView, m: MatchingView) -> Seq<OpView> {
    structure_changes(a, b, m) + surface_changes(a, b, m) + pairs_ops(a, b, m.forward, 0)
}

/// The operations that have a type.
pub open spec fn typed_ops(a: ModelView, b: ModelView, m: MatchingView) -> Seq<OpView> {
    let ops = direct_ops(a, b, m);
    ops + new_code(b, m, subjects_from(ops, 0, seq![]), 0) + schema_changes(a, b, m.modules, 0)
        + state_changes(a, b) + breaches(a, b, m, 0) + rule_changes(a, b, m)
}

/// The operations but for the word on refactoring.
pub open spec fn all_ops(a: ModelView, b: ModelView, m: MatchingView) -> Seq<OpView> {
    let ops = typed_ops(a, b, m);
    ops + untyped_changes(a, b, m, subjects_from(ops, 0, seq![]), 0) + logging_changes(
        a,
        b,
        m.forward,
        0,
    )
}

/// An operation that leaves behaviour as it was. Changed logging is not behaviour, but it is
/// not a refactor either.
pub open spec fn is_refactoring(op: OpView) -> bool {
    op.layer == Layer::Structure && op.kind != "LOGGING_CHANGED"@
}

/// Something changed, and nothing that it does.
pub open spec fn is_pure(ops: Seq<OpView>, changed: nat) -> bool {
    (ops.len() > 0 || changed > 0) && forall|i: int|
        0 <= i < ops.len() ==> is_refactoring(#[trigger] ops[i])
}

/// The word on refactoring.
pub open spec fn refactor_op(changed: nat) -> OpView {
    found(
        "PURE_REFACTOR"@,
        Layer::Structure,
        "*"@,
        None,
        Some(text::decimal(changed) + " entities changed; behaviour summaries unchanged"@),
        seq![],
        seq![],
    )
}

/// The operations between two models.
pub open spec fn ops_between(a: ModelView, b: ModelView) -> Seq<OpView> {
    let m = matched(a, b);
    let ops = all_ops(a, b, m);
    let changed = pairs_changed(a, b, m.forward, 0);
    if is_pure(ops, changed) {
        ops.push(refactor_op(changed))
    } else {
        ops
    }
}

/// The transition between two models.
pub open spec fn transition(a: ModelView, b: ModelView) -> TransitionView {
    let m = matched(a, b);
    TransitionView {
        ops: ops_between(a, b),
        contracts: contracts_of(a, b, m, ops_between(a, b)),
        stats: StatsView {
            entities_before: a.entities.len() as usize,
            entities_after: b.entities.len() as usize,
            entities_changed: pairs_changed(a, b, m.forward, 0) as usize,
        },
    }
}

/// The operations from index `i` on that are not about structure.
pub open spec fn behavioural_from(ops: Seq<OpView>, i: int) -> Seq<OpView>
    decreases ops.len() - i,
{
    if 0 <= i < ops.len() {
        (if ops[i].layer == Layer::Structure {
            seq![]
        } else {
            seq![ops[i]]
        }) + behavioural_from(ops, i + 1)
    } else {
        seq![]
    }
}

// ---- execution

fn differ(a: &Model, b: &Model, ida: &String, idb: &String) -> (r: bool)
    ensures
        r == bodies_differ(a.deep_view(), b.deep_view(), (ida@, idb@)),
{
    match (a.entities.get(ida), b.entities.get(idb)) {
        (Some(ea), Some(eb)) => !ea.body_hash.alike(&eb.body_hash),
        _ => false,
    }
}

fn untyped(a: &Model, b: &Model, m: &Matching, ida: &String, idb: &String) -> (r: Vec<Op>)
    ensures
        r.deep_view() == untyped_change(
            a.deep_view(),
            b.deep_view(),
            m.deep_view(),
            (ida@, idb@),
        ),
{
    let sa = inline_shapes(a, ida, &m.forward);
    let sb = inline_shapes(b, idb, &m.backward);
    let (gone, fresh) = multiset_diff(&sa, &sb);
    if gone.len() == 0 && fresh.len() == 0 {
        return list::empty();
    }
    let mut op = found_op(
        "UNCLASSIFIED_CHANGE",
        Layer::Behaviour,
        idb,
        list_of(&keys_of(&gone), "; "),
        list_of(&keys_of(&fresh), "; "),
        list::dedup(&places_of(&gone)),
        list::dedup(&places_of(&fresh)),
    );
    op.confidence = 50;
    op.affects = b.entry_points_reaching(idb);
    op.note = Some(
        "calls changed in a way the behaviour model does not classify; review manually".to_owned(),
    );
    list::one(op)
}

fn unclassified(a: &Model, b: &Model, m: &Matching, explained: &SortedSet<String>) -> (r: Vec<Op>)
    ensures
        r.deep_view() == untyped_changes(
            a.deep_view(),
            b.deep_view(),
            m.deep_view(),
            explained.deep_view(),
            0,
        ),
{
    let ghost av = a.deep_view();
    let ghost bv = b.deep_view();
    let ghost mv = m.deep_view();
    let ghost ev = explained.deep_view();
    let mut out: Vec<Op> = list::empty();
    let mut i: usize = 0;
    while i < m.forward.len()
        invariant
            i <= mv.forward.len(),
            av == a.deep_view(),
            bv == b.deep_view(),
            mv == m.deep_view(),
            ev == explained.deep_view(),
            out.deep_view() + untyped_changes(av, bv, mv, ev, i as int) == untyped_changes(
                av,
                bv,
                mv,
                ev,
                0,
            ),
        decreases mv.forward.len() - i,
    {
        let ida = m.forward.key(i);
        let idb = m.forward.value(i);
        if differ(a, b, ida, idb) && !explained.contains(idb) {
            list::append(&mut out, untyped(a, b, m, ida, idb));
        }
        i += 1;
    }
    out
}

fn changed_logs(a: &Model, b: &Model, ida: &String, idb: &String) -> (r: (
    Vec<CallShape>,
    Vec<CallShape>,
))
    ensures
        (r.0.deep_view(), r.1.deep_view()) == logs_apart(
            a.deep_view(),
            b.deep_view(),
            (ida@, idb@),
        ),
{
    match (a.entities.get(ida), b.entities.get(idb)) {
        (Some(ea), Some(eb)) => multiset_diff(&ea.logs, &eb.logs),
        _ => (list::empty(), list::empty()),
    }
}

fn logging(a: &Model, b: &Model, m: &Matching) -> (r: Vec<Op>)
    ensures
        r.deep_view() == logging_changes(a.deep_view(), b.deep_view(), m.deep_view().forward, 0),
{
    let ghost av = a.deep_view();
    let ghost bv = b.deep_view();
    let ghost fv = m.deep_view().forward;
    let mut out: Vec<Op> = list::empty();
    let mut i: usize = 0;
    while i < m.forward.len()
        invariant
            i <= fv.len(),
            av == a.deep_view(),
            bv == b.deep_view(),
            fv == m.deep_view().forward,
            out.deep_view() + logging_changes(av, bv, fv, i as int) == logging_changes(
                av,
                bv,
                fv,
                0,
            ),
        decreases fv.len() - i,
    {
        let ida = m.forward.key(i);
        let idb = m.forward.value(i);
        if differ(a, b, ida, idb) {
            let (gone, fresh) = changed_logs(a, b, ida, idb);
            if gone.len() > 0 || fresh.len() > 0 {
                list::push(
                    &mut out,
                    found_op(
                        "LOGGING_CHANGED",
                        Layer::Structure,
                        idb,
                        list_of(&keys_of(&gone), "; "),
                        list_of(&keys_of(&fresh), "; "),
                        places_of(&gone),
                        places_of(&fresh),
                    ),
                );
            }
        }
        i += 1;
    }
    out
}

fn only_refactoring(ops: &Vec<Op>) -> (r: bool)
    ensures
        r == (forall|i: int|
            0 <= i < ops.deep_view().len() ==> is_refactoring(#[trigger] ops.deep_view()[i])),
{
    let ghost v = ops.deep_view();
    let mut i: usize = 0;
    while i < ops.len()
        invariant
            i <= ops@.len(),
            v == ops.deep_view(),
            forall|k: int| 0 <= k < i ==> is_refactoring(#[trigger] v[k]),
        decreases ops@.len() - i,
    {
        assert(v[i as int] == ops@[i as int].deep_view());
        if ops[i].layer != Layer::Structure || text::same(&ops[i].kind, "LOGGING_CHANGED") {
            assert(!is_refactoring(v[i as int]));
            return false;
        }
        i += 1;
    }
    true
}

/// The transition between the models of two versions.
pub fn diff(a: &Model, b: &Model) -> (r: Transition)
    requires
        complete(a.deep_view()),
        complete(b.deep_view()),
    ensures
        r.deep_view() == transition(a.deep_view(), b.deep_view()),
{
    let m = match_entities(a, b);
    let kids_a = closures_by_parent(a);
    let kids_b = closures_by_parent(b);
    let mut ops = structural(a, b, &m);
    list::append(&mut ops, surface(a, b, &m));
    let (found, changed) = changed_behaviour(a, b, &m, &kids_a, &kids_b);
    list::append(&mut ops, found);
    let moved = subjects(&ops);
    list::append(&mut ops, added_behaviour(b, &m, &kids_b, &moved));
    list::append(&mut ops, changed_schemas(a, b, &m));
    list::append(&mut ops, changed_states(a, b));
    list::append(&mut ops, broken_invariants(a, b, &m));
    list::append(&mut ops, changed_rules(a, b, &m));
    let explained = subjects(&ops);
    list::append(&mut ops, unclassified(a, b, &m, &explained));
    list::append(&mut ops, logging(a, b, &m));
    if (ops.len() > 0 || changed > 0) && only_refactoring(&ops) {
        let said = text::cat2(
            &text::number(changed as u64),
            " entities changed; behaviour summaries unchanged",
        );
        list::push(
            &mut ops,
            found_op(
                "PURE_REFACTOR",
                Layer::Structure,
                "*",
                None,
                Some(said),
                list::empty(),
                list::empty(),
            ),
        );
    }
    let contracts = build(a, b, &m, &ops);
    Transition {
        ops,
        contracts,
        stats: Stats {
            entities_before: a.entities.len(),
            entities_after: b.entities.len(),
            entities_changed: changed,
        },
    }
}

impl Transition {
    /// The operations that are not about structure.
    pub fn behavioural(&self) -> (r: Vec<&Op>)
        ensures
            r.deep_view() == behavioural_from(self.deep_view().ops, 0),
    {
        let ghost v = self.deep_view().ops;
        let mut out: Vec<&Op> = list::empty();
        let mut i: usize = 0;
        while i < self.ops.len()
            invariant
                i <= self.ops@.len(),
                v == self.deep_view().ops,
                out.deep_view() + behavioural_from(v, i as int) == behavioural_from(v, 0),
            decreases self.ops@.len() - i,
        {
            assert(v[i as int] == self.ops@[i as int].deep_view());
            if self.ops[i].layer != Layer::Structure {
                list::push(&mut out, &self.ops[i]);
            }
            i += 1;
        }
        out
    }
}

} // verus!
