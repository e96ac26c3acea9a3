//! Changes to what an entity does: its rule, guards, checks, effects, data, query filters and
//! access requirements, before and after.

use crate::infer::new_name;
use crate::ir::{Loc, LocView};
use crate::list;
use crate::list::Plain;
use crate::matching::Matching;
use crate::model::{
    effect_text, entry_points, AccessFactView, EffectInfo, EffectInfoView, EffectKey, EffectKeyView,
    Entity, EntityView, Model, ModelView, QueryFilter, QueryFilterView, Summary, SummaryView,
    WriteFact, WriteFactView,
};
use crate::nesting::{closures_from, scoped, scoped_filters};
use crate::ops::{
    access_change, access_changed, auth_change, auth_changed, auth_pred, filters_changed, found,
    found_op, is_auth_pred, query_filters, Layer, Op, OpView,
};
use crate::ordered;
use crate::ordered::{added, lookup, minus, put, sorted, SortedMap, SortedSet};
use crate::pred::{field_of, pred_text, Pred, PredView};
use crate::text;
use crate::text::Text;
use vstd::prelude::*;

verus! {

// ---- guards

/// A write of the field is among the writes.
pub open spec fn writes_field(writes: Seq<WriteFactView>, field: Text) -> bool {
    exists|i: int| 0 <= i < writes.len() && (#[trigger] writes[i]).field == field
}

/// A state field that the entity writes: guards on it are part of the state machine.
pub open spec fn is_state_field(
    a: ModelView,
    b: ModelView,
    ea: EntityView,
    eb: EntityView,
    field: Text,
) -> bool {
    (writes_field(ea.writes, field) || writes_field(eb.writes, field)) && (lookup(
        a.field_domains,
        field,
    ) is Some || lookup(b.field_domains, field) is Some)
}

/// A guard that is not on a state field of the entity.
pub open spec fn is_relevant(
    a: ModelView,
    b: ModelView,
    ea: EntityView,
    eb: EntityView,
    p: PredView,
) -> bool {
    match field_of(p) {
        Some(f) => !is_state_field(a, b, ea, eb, f),
        None => true,
    }
}

/// The key of a guard under the new name of the function that it calls.
pub open spec fn renamed_key(forward: Seq<(Text, Text)>, key: Text) -> Text {
    match text::parted(key, "call:"@) {
        Some((neg, id)) => neg + "call:"@ + new_name(forward, id),
        None => key,
    }
}

/// The relevant guards from index `i` on, their keys under the new names.
pub open spec fn relevant_guards(
    a: ModelView,
    b: ModelView,
    ea: EntityView,
    eb: EntityView,
    forward: Seq<(Text, Text)>,
    guards: Seq<(Text, PredView, LocView)>,
    i: int,
) -> Seq<(Text, PredView, LocView)>
    decreases guards.len() - i,
{
    if 0 <= i < guards.len() {
        let rest = relevant_guards(a, b, ea, eb, forward, guards, i + 1);
        if is_relevant(a, b, ea, eb, guards[i].1) {
            seq![(renamed_key(forward, guards[i].0), guards[i].1, guards[i].2)] + rest
        } else {
            rest
        }
    } else {
        seq![]
    }
}

/// The place from index `i` on of the guard with a key.
pub open spec fn guard_at(guards: Seq<(Text, PredView, LocView)>, key: Text, i: int) -> Option<int>
    decreases guards.len() - i,
{
    if 0 <= i < guards.len() {
        if guards[i].0 == key {
            Some(i)
        } else {
            guard_at(guards, key, i + 1)
        }
    } else {
        None
    }
}

/// The place from index `i` on of a guard on the same field that is not taken.
pub open spec fn rival_at(
    guards: Seq<(Text, PredView, LocView)>,
    taken: Seq<usize>,
    p: PredView,
    i: int,
) -> Option<int>
    decreases guards.len() - i,
{
    if 0 <= i < guards.len() {
        if !taken.contains(i as usize) && auth_pred(p) && field_of(p) == field_of(guards[i].1) {
            Some(i)
        } else {
            rival_at(guards, taken, p, i + 1)
        }
    } else {
        None
    }
}

/// The operations on the old guards from index `i` on, and the new guards that they took: a
/// guard with the same key, or for an access rule one on the same field.
pub open spec fn guards_held(
    subject: Text,
    ga: Seq<(Text, PredView, LocView)>,
    gb: Seq<(Text, PredView, LocView)>,
    i: int,
    ops: Seq<OpView>,
    taken: Seq<usize>,
) -> (Seq<OpView>, Seq<usize>)
    decreases ga.len() - i,
{
    if 0 <= i < ga.len() {
        let (ka, pa, la) = ga[i];
        match guard_at(gb, ka, 0) {
            Some(k) => guards_held(
                subject,
                ga,
                gb,
                i + 1,
                if pa != gb[k].1 && auth_pred(pa) {
                    ops.push(auth_changed(subject, pa, gb[k].1, la, gb[k].2))
                } else {
                    ops
                },
                taken.push(k as usize),
            ),
            None => match rival_at(gb, taken, pa, 0) {
                Some(k) => guards_held(
                    subject,
                    ga,
                    gb,
                    i + 1,
                    ops.push(auth_changed(subject, pa, gb[k].1, la, gb[k].2)),
                    taken.push(k as usize),
                ),
                None => guards_held(
                    subject,
                    ga,
                    gb,
                    i + 1,
                    ops.push(
                        found(
                            "GUARD_REMOVED"@,
                            Layer::Behaviour,
                            subject,
                            Some(pred_text(pa)),
                            None,
                            seq![la],
                            seq![],
                        ),
                    ),
                    taken,
                ),
            },
        }
    } else {
        (ops, taken)
    }
}

/// The new guards from index `i` on that no old guard took.
pub open spec fn guard_gains(
    subject: Text,
    gb: Seq<(Text, PredView, LocView)>,
    taken: Seq<usize>,
    i: int,
) -> Seq<OpView>
    decreases gb.len() - i,
{
    if 0 <= i < gb.len() {
        (if taken.contains(i as usize) {
            seq![]
        } else {
            seq![
                found(
                    "GUARD_ADDED"@,
                    Layer::Behaviour,
                    subject,
                    None,
                    Some(pred_text(gb[i].1)),
                    seq![],
                    seq![gb[i].2],
                ),
            ]
        }) + guard_gains(subject, gb, taken, i + 1)
    } else {
        seq![]
    }
}

/// The changes to guards.
pub open spec fn guard_changes(
    subject: Text,
    ga: Seq<(Text, PredView, LocView)>,
    gb: Seq<(Text, PredView, LocView)>,
) -> Seq<OpView> {
    let (ops, taken) = guards_held(subject, ga, gb, 0, seq![], seq![]);
    ops + guard_gains(subject, gb, taken, 0)
}

// ---- checks

/// The checks from index `i` on under their new names, added to `acc`.
pub open spec fn renamed_checks(
    checks: Seq<(Text, LocView)>,
    forward: Seq<(Text, Text)>,
    i: int,
    acc: Seq<(Text, LocView)>,
) -> Seq<(Text, LocView)>
    decreases checks.len() - i,
{
    if 0 <= i < checks.len() {
        renamed_checks(
            checks,
            forward,
            i + 1,
            put(acc, new_name(forward, checks[i].0), checks[i].1),
        )
    } else {
        acc
    }
}

/// A check that is no longer made.
pub open spec fn is_lost_check(va: Seq<(Text, LocView)>, vb: Seq<(Text, LocView)>, v: Text) -> bool {
    lookup(va, v) is Some && lookup(vb, v) is None
}

/// The checks from index `i` on that are no longer made.
pub open spec fn check_losses(
    subject: Text,
    va: Seq<(Text, LocView)>,
    vb: Seq<(Text, LocView)>,
    i: int,
) -> Seq<OpView>
    decreases va.len() - i,
{
    if 0 <= i < va.len() {
        (if lookup(vb, va[i].0) is Some {
            seq![]
        } else {
            seq![
                found(
                    "VALIDATION_REMOVED"@,
                    Layer::Behaviour,
                    subject,
                    Some(va[i].0),
                    None,
                    seq![va[i].1],
                    seq![],
                ),
            ]
        }) + check_losses(subject, va, vb, i + 1)
    } else {
        seq![]
    }
}

/// The checks from index `i` on that are made now.
pub open spec fn check_gains(
    subject: Text,
    va: Seq<(Text, LocView)>,
    vb: Seq<(Text, LocView)>,
    i: int,
) -> Seq<OpView>
    decreases vb.len() - i,
{
    if 0 <= i < vb.len() {
        (if lookup(va, vb[i].0) is Some {
            seq![]
        } else {
            seq![
                found(
                    "VALIDATION_ADDED"@,
                    Layer::Behaviour,
                    subject,
                    None,
                    Some(vb[i].0),
                    seq![],
                    seq![vb[i].1],
                ),
            ]
        }) + check_gains(subject, va, vb, i + 1)
    } else {
        seq![]
    }
}

// ---- effects

/// An effect and how it is reached.
pub open spec fn effect_line(k: EffectKeyView, info: EffectInfoView) -> Text {
    effect_text(k) + " ("@ + text::joined(info.modes, ", "@) + ")"@
}

/// An effect that happens only on the spot.
pub open spec fn only_sync(info: EffectInfoView) -> bool {
    forall|i: int| 0 <= i < info.modes.len() ==> #[trigger] info.modes[i] == "sync"@
}

/// An effect that happens only later.
pub open spec fn only_async(info: EffectInfoView) -> bool {
    forall|i: int| 0 <= i < info.modes.len() ==> text::begins(#[trigger] info.modes[i], "async"@)
}

/// The operation on an effect of the new version, if there is one.
pub open spec fn effect_gain(
    subject: Text,
    sa: Seq<(EffectKeyView, EffectInfoView)>,
    k: EffectKeyView,
    ib: EffectInfoView,
) -> Seq<OpView> {
    match lookup(sa, k) {
        None => seq![
            found(
                "EFFECT_ADDED"@,
                Layer::Behaviour,
                subject,
                None,
                Some(effect_line(k, ib)),
                seq![],
                ib.evidence,
            ),
        ],
        Some(ia) => if only_sync(ia) && only_async(ib) {
            seq![
                found(
                    "EFFECT_MADE_ASYNC"@,
                    Layer::Behaviour,
                    subject,
                    Some(effect_line(k, ia)),
                    Some(effect_line(k, ib)),
                    ia.evidence,
                    ib.evidence,
                ),
            ]
        } else if only_async(ia) && only_sync(ib) {
            seq![
                found(
                    "EFFECT_MADE_SYNC"@,
                    Layer::Behaviour,
                    subject,
                    Some(effect_line(k, ia)),
                    Some(effect_line(k, ib)),
                    ia.evidence,
                    ib.evidence,
                ),
            ]
        } else {
            seq![]
        },
    }
}

/// The operations on the effects of the new version from index `i` on.
pub open spec fn effect_gains(
    subject: Text,
    sa: Seq<(EffectKeyView, EffectInfoView)>,
    sb: Seq<(EffectKeyView, EffectInfoView)>,
    i: int,
) -> Seq<OpView>
    decreases sb.len() - i,
{
    if 0 <= i < sb.len() {
        effect_gain(subject, sa, sb[i].0, sb[i].1) + effect_gains(subject, sa, sb, i + 1)
    } else {
        seq![]
    }
}

/// The effect came only through checks that are no longer made: it is part of their removal.
pub open spec fn only_through_lost(
    via: Seq<Text>,
    forward: Seq<(Text, Text)>,
    va: Seq<(Text, LocView)>,
    vb: Seq<(Text, LocView)>,
) -> bool {
    (exists|k: int| 0 <= k < va.len() && lookup(vb, (#[trigger] va[k]).0) is None) && forall|i: int|
        0 <= i < via.len() ==> is_lost_check(va, vb, new_name(forward, #[trigger] via[i]))
}

/// The effects of the old version from index `i` on that are gone.
pub open spec fn effect_losses(
    subject: Text,
    forward: Seq<(Text, Text)>,
    sa: Seq<(EffectKeyView, EffectInfoView)>,
    sb: Seq<(EffectKeyView, EffectInfoView)>,
    va: Seq<(Text, LocView)>,
    vb: Seq<(Text, LocView)>,
    i: int,
) -> Seq<OpView>
    decreases sa.len() - i,
{
    if 0 <= i < sa.len() {
        let (k, ia) = sa[i];
        (if lookup(sb, k) is Some || only_through_lost(ia.via, forward, va, vb) {
            seq![]
        } else {
            seq![
                found(
                    "EFFECT_REMOVED"@,
                    Layer::Behaviour,
                    subject,
                    Some(effect_line(k, ia)),
                    None,
                    ia.evidence,
                    seq![],
                ),
            ]
        }) + effect_losses(subject, forward, sa, sb, va, vb, i + 1)
    } else {
        seq![]
    }
}

// ---- data

/// What is written and read more than before, in words.
pub open spec fn expansion(writes: Seq<Text>, reads: Seq<Text>) -> Text {
    let w = "writes "@ + text::joined(writes, ", "@);
    let r = "reads "@ + text::joined(reads, ", "@);
    if reads.len() == 0 {
        w
    } else if writes.len() == 0 {
        r
    } else {
        w + "; "@ + r
    }
}

/// The changes to the data that an entity touches. What it writes does not count as read.
pub open spec fn data_changes(
    subject: Text,
    sa: SummaryView,
    sb: SummaryView,
    la: LocView,
    lb: LocView,
) -> Seq<OpView> {
    let writes = minus(sb.writes, sa.writes);
    let reads = minus(minus(sb.reads, sa.reads), sb.writes);
    let lost = minus(sa.writes, sb.writes);
    (if writes.len() == 0 && reads.len() == 0 {
        seq![]
    } else {
        seq![
            found(
                "DATAFLOW_EXPANDED"@,
                Layer::Behaviour,
                subject,
                None,
                Some(expansion(writes, reads)),
                seq![],
                seq![lb],
            ),
        ]
    }) + (if lost.len() == 0 {
        seq![]
    } else {
        seq![
            found(
                "DATAFLOW_RESTRICTED"@,
                Layer::Behaviour,
                subject,
                Some("writes "@ + text::joined(lost, ", "@)),
                None,
                seq![la],
                seq![],
            ),
        ]
    })
}

// ---- one entity

/// The requirements that an entity states itself, from index `i` on, added to `acc`.
pub open spec fn own_requirements(access: Seq<AccessFactView>, i: int, acc: Seq<Text>) -> Seq<Text>
    decreases access.len() - i,
{
    if 0 <= i < access.len() {
        own_requirements(access, i + 1, added(acc, access[i].requirement))
    } else {
        acc
    }
}

/// The texts of filters.
pub open spec fn filter_texts(filters: Seq<QueryFilterView>) -> Seq<Text> {
    Seq::new(filters.len(), |i: int| filters[i].expr)
}

/// An entity with the same body, the same filters and the same access requirements.
/// Decorators are not in the body hash: `@Authenticated({ public: true })` alone is a change.
pub open spec fn stays_same(
    ea: EntityView,
    eb: EntityView,
    fa: Seq<QueryFilterView>,
    fb: Seq<QueryFilterView>,
) -> bool {
    ea.body_hash == eb.body_hash && sorted(filter_texts(fa)) == sorted(filter_texts(fb))
        && own_requirements(ea.access, 0, seq![]) == own_requirements(eb.access, 0, seq![])
}

/// The filters of both sides of a pair. The old entity says whether it is a closure.
pub open spec fn pair_filters(a: ModelView, b: ModelView, ea: EntityView, pair: (Text, Text)) -> (
    Seq<QueryFilterView>,
    Seq<QueryFilterView>,
) {
    match ea.parent {
        None => (scoped(a, pair.0), scoped(b, pair.1)),
        Some(_) => (seq![], seq![]),
    }
}

/// The change to the rule of a predicate function.
pub open spec fn rule_change(subject: Text, ea: EntityView, eb: EntityView) -> Seq<OpView> {
    match (ea.returns, eb.returns) {
        (Some(pa), Some(pb)) => if pa != pb {
            seq![auth_changed(subject, pa, pb, ea.loc, eb.loc)]
        } else {
            seq![]
        },
        _ => seq![],
    }
}

/// The changes to what an entity does.
pub open spec fn entity_ops(
    a: ModelView,
    b: ModelView,
    forward: Seq<(Text, Text)>,
    pair: (Text, Text),
    ea: EntityView,
    eb: EntityView,
    sa: SummaryView,
    sb: SummaryView,
) -> Seq<OpView> {
    let subject = pair.1;
    let va = renamed_checks(sa.validations, forward, 0, seq![]);
    let (fa, fb) = pair_filters(a, b, ea, pair);
    rule_change(subject, ea, eb) + guard_changes(
        subject,
        relevant_guards(a, b, ea, eb, forward, sa.requirements, 0),
        relevant_guards(a, b, ea, eb, seq![], sb.requirements, 0),
    ) + check_losses(subject, va, sb.validations, 0) + check_gains(subject, va, sb.validations, 0)
        + effect_gains(subject, sa.effects, sb.effects, 0) + effect_losses(
        subject,
        forward,
        sa.effects,
        sb.effects,
        va,
        sb.validations,
        0,
    ) + data_changes(subject, sa, sb, ea.loc, eb.loc) + filters_changed(subject, fa, fb)
        + access_changed(subject, sa.access, sb.access)
}

/// The operations with the entry points that they reach.
pub open spec fn with_affects(ops: Seq<OpView>, affects: Seq<Text>) -> Seq<OpView> {
    Seq::new(ops.len(), |i: int| OpView { affects, ..ops[i] })
}

/// What is known of both sides of a pair, if the entity changed.
pub open spec fn changed_pair(a: ModelView, b: ModelView, pair: (Text, Text)) -> Option<
    (EntityView, EntityView, SummaryView, SummaryView),
> {
    match (
        lookup(a.entities, pair.0),
        lookup(b.entities, pair.1),
        lookup(a.summaries, pair.0),
        lookup(b.summaries, pair.1),
    ) {
        (Some(ea), Some(eb), Some(sa), Some(sb)) => {
            let (fa, fb) = pair_filters(a, b, ea, pair);
            if stays_same(ea, eb, fa, fb) {
                None
            } else {
                Some((ea, eb, sa, sb))
            }
        },
        _ => None,
    }
}

/// The changes to what one entity does, with the entry points that they reach.
pub open spec fn pair_ops(a: ModelView, b: ModelView, forward: Seq<(Text, Text)>, pair: (Text, Text)) -> Seq<OpView> {
    match changed_pair(a, b, pair) {
        Some((ea, eb, sa, sb)) => with_affects(
            entity_ops(a, b, forward, pair, ea, eb, sa, sb),
            entry_points(b, pair.1),
        ),
        None => seq![],
    }
}

/// The changes to what the entities of the pairs from index `i` on do.
pub open spec fn pairs_ops(a: ModelView, b: ModelView, forward: Seq<(Text, Text)>, i: int) -> Seq<OpView>
    decreases forward.len() - i,
{
    if 0 <= i < forward.len() {
        pair_ops(a, b, forward, forward[i]) + pairs_ops(a, b, forward, i + 1)
    } else {
        seq![]
    }
}

/// How many of the pairs from index `i` on changed.
pub open spec fn pairs_changed(a: ModelView, b: ModelView, forward: Seq<(Text, Text)>, i: int) -> nat
    decreases forward.len() - i,
{
    if 0 <= i < forward.len() {
        (if changed_pair(a, b, forward[i]) is Some {
            1nat
        } else {
            0nat
        }) + pairs_changed(a, b, forward, i + 1)
    } else {
        0
    }
}

// ---- execution

fn has_write_of(writes: &Vec<WriteFact>, field: &str) -> (r: bool)
    ensures
        r == writes_field(writes.deep_view(), field@),
{
    let ghost v = writes.deep_view();
    let mut i: usize = 0;
    while i < writes.len()
        invariant
            i <= writes@.len(),
            v == writes.deep_view(),
            forall|k: int| 0 <= k < i ==> (#[trigger] v[k]).field != field@,
        decreases writes@.len() - i,
    {
        assert(v[i as int] == writes@[i as int].deep_view());
        if text::same(&writes[i].field, field) {
            return true;
        }
        i += 1;
    }
    false
}

fn relevant(a: &Model, b: &Model, ea: &Entity, eb: &Entity, p: &Pred) -> (r: bool)
    ensures
        r == is_relevant(
            a.deep_view(),
            b.deep_view(),
            ea.deep_view(),
            eb.deep_view(),
            p.deep_view(),
        ),
{
    match p.field() {
        Some(f) => !((has_write_of(&ea.writes, f) || has_write_of(&eb.writes, f)) && (
        a.field_domains.has(f) || b.field_domains.has(f))),
        None => true,
    }
}

fn rename_key(forward: &SortedMap<String, String>, key: &String) -> (r: String)
    ensures
        r@ == renamed_key(forward.deep_view(), key@),
{
    match text::split_once(key, "call:") {
        Some((neg, id)) => match forward.get(&id) {
            Some(n) => text::cat3(&neg, "call:", n),
            None => text::cat3(&neg, "call:", &id),
        },
        None => key.dup(),
    }
}

fn guards_of(
    a: &Model,
    b: &Model,
    ea: &Entity,
    eb: &Entity,
    forward: &SortedMap<String, String>,
    guards: &Vec<(String, Pred, Loc)>,
) -> (r: Vec<(String, Pred, Loc)>)
    ensures
        r.deep_view() == relevant_guards(
            a.deep_view(),
            b.deep_view(),
            ea.deep_view(),
            eb.deep_view(),
            forward.deep_view(),
            guards.deep_view(),
            0,
        ),
{
    let ghost av = a.deep_view();
    let ghost bv = b.deep_view();
    let ghost eav = ea.deep_view();
    let ghost ebv = eb.deep_view();
    let ghost fv = forward.deep_view();
    let ghost gv = guards.deep_view();
    let mut out: Vec<(String, Pred, Loc)> = list::empty();
    let mut i: usize = 0;
    while i < guards.len()
        invariant
            i <= guards@.len(),
            av == a.deep_view(),
            bv == b.deep_view(),
            eav == ea.deep_view(),
            ebv == eb.deep_view(),
            fv == forward.deep_view(),
            gv == guards.deep_view(),
            out.deep_view() + relevant_guards(av, bv, eav, ebv, fv, gv, i as int)
                == relevant_guards(av, bv, eav, ebv, fv, gv, 0),
        decreases guards@.len() - i,
    {
        let g = &guards[i];
        assert(gv[i as int] == (g.0@, g.1.deep_view(), g.2.deep_view()));
        if relevant(a, b, ea, eb, &g.1) {
            list::push(&mut out, (rename_key(forward, &g.0), g.1.dup(), g.2.dup()));
        }
        i += 1;
    }
    out
}

fn same_guard(guards: &Vec<(String, Pred, Loc)>, key: &String) -> (r: Option<usize>)
    ensures
        match r {
            Some(k) => k < guards@.len() && guard_at(guards.deep_view(), key@, 0) == Some(
                k as int,
            ),
            None => guard_at(guards.deep_view(), key@, 0) is None,
        },
{
    let ghost v = guards.deep_view();
    let mut i: usize = 0;
    while i < guards.len()
        invariant
            i <= guards@.len(),
            v == guards.deep_view(),
            guard_at(v, key@, 0) == guard_at(v, key@, i as int),
        decreases guards@.len() - i,
    {
        assert(v[i as int].0 == guards@[i as int].0@);
        if guards[i].0.alike(key) {
            return Some(i);
        }
        i += 1;
    }
    None
}

fn same_field(p: &Pred, q: &Pred) -> (r: bool)
    ensures
        r == (field_of(p.deep_view()) == field_of(q.deep_view())),
{
    match (p.field(), q.field()) {
        (Some(f), Some(g)) => text::same(f, g),
        (None, None) => true,
        _ => false,
    }
}

fn rival(guards: &Vec<(String, Pred, Loc)>, taken: &Vec<usize>, p: &Pred) -> (r: Option<usize>)
    ensures
        match r {
            Some(k) => k < guards@.len() && rival_at(
                guards.deep_view(),
                taken.deep_view(),
                p.deep_view(),
                0,
            ) == Some(k as int),
            None => rival_at(guards.deep_view(), taken.deep_view(), p.deep_view(), 0) is None,
        },
{
    let ghost v = guards.deep_view();
    let ghost tv = taken.deep_view();
    let ghost pv = p.deep_view();
    let auth = is_auth_pred(p);
    let mut i: usize = 0;
    while i < guards.len()
        invariant
            i <= guards@.len(),
            v == guards.deep_view(),
            tv == taken.deep_view(),
            pv == p.deep_view(),
            auth == auth_pred(pv),
            rival_at(v, tv, pv, 0) == rival_at(v, tv, pv, i as int),
        decreases guards@.len() - i,
    {
        assert(v[i as int].1 == guards@[i as int].1.deep_view());
        if !list::has(taken, &i) && auth && same_field(p, &guards[i].1) {
            return Some(i);
        }
        i += 1;
    }
    None
}

fn changed_guards(
    subject: &str,
    ga: &Vec<(String, Pred, Loc)>,
    gb: &Vec<(String, Pred, Loc)>,
) -> (r: Vec<Op>)
    ensures
        r.deep_view() == guard_changes(subject@, ga.deep_view(), gb.deep_view()),
{
    let ghost av = ga.deep_view();
    let ghost bv = gb.deep_view();
    let mut out: Vec<Op> = list::empty();
    let mut taken: Vec<usize> = list::empty();
    let mut i: usize = 0;
    while i < ga.len()
        invariant
            i <= ga@.len(),
            av == ga.deep_view(),
            bv == gb.deep_view(),
            guards_held(subject@, av, bv, i as int, out.deep_view(), taken.deep_view())
                == guards_held(subject@, av, bv, 0, seq![], seq![]),
        decreases ga@.len() - i,
    {
        let g = &ga[i];
        assert(av[i as int] == (g.0@, g.1.deep_view(), g.2.deep_view()));
        match same_guard(gb, &g.0) {
            Some(k) => {
                let h = &gb[k];
                assert(bv[k as int] == (h.0@, h.1.deep_view(), h.2.deep_view()));
                if !g.1.alike(&h.1) && is_auth_pred(&g.1) {
                    list::push(&mut out, auth_change(subject, &g.1, &h.1, &g.2, &h.2));
                }
                list::push(&mut taken, k);
            },
            None => {
                match rival(gb, &taken, &g.1) {
                    Some(k) => {
                        let h = &gb[k];
                        assert(bv[k as int] == (h.0@, h.1.deep_view(), h.2.deep_view()));
                        list::push(&mut out, auth_change(subject, &g.1, &h.1, &g.2, &h.2));
                        list::push(&mut taken, k);
                    },
                    None => {
                        list::push(
                            &mut out,
                            found_op(
                                "GUARD_REMOVED",
                                Layer::Behaviour,
                                subject,
                                Some(g.1.render()),
                                None,
                                list::one(g.2.dup()),
                                list::empty(),
                            ),
                        );
                    },
                }
            },
        }
        i += 1;
    }
    let ghost tv = taken.deep_view();
    let ghost first = out.deep_view();
    i = 0;
    while i < gb.len()
        invariant
            i <= gb@.len(),
            bv == gb.deep_view(),
            tv == taken.deep_view(),
            out.deep_view() + guard_gains(subject@, bv, tv, i as int) == first + guard_gains(
                subject@,
                bv,
                tv,
                0,
            ),
        decreases gb@.len() - i,
    {
        let h = &gb[i];
        assert(bv[i as int] == (h.0@, h.1.deep_view(), h.2.deep_view()));
        if !list::has(&taken, &i) {
            list::push(
                &mut out,
                found_op(
                    "GUARD_ADDED",
                    Layer::Behaviour,
                    subject,
                    None,
                    Some(h.1.render()),
                    list::empty(),
                    list::one(h.2.dup()),
                ),
            );
        }
        i += 1;
    }
    out
}

fn checks_after(checks: &SortedMap<String, Loc>, m: &Matching) -> (r: SortedMap<String, Loc>)
    ensures
        r.deep_view() == renamed_checks(
            checks.deep_view(),
            m.deep_view().forward,
            0,
            seq![],
        ),
{
    let ghost cv = checks.deep_view();
    let ghost fv = m.deep_view().forward;
    let mut out: SortedMap<String, Loc> = SortedMap::new();
    let mut i: usize = 0;
    while i < checks.len()
        invariant
            i <= cv.len(),
            cv == checks.deep_view(),
            fv == m.deep_view().forward,
            renamed_checks(cv, fv, i as int, out.deep_view()) == renamed_checks(
                cv,
                fv,
                0,
                seq![],
            ),
        decreases cv.len() - i,
    {
        out.insert(m.to_after(checks.key(i)), checks.value(i).dup());
        i += 1;
    }
    out
}

fn changed_checks(subject: &str, va: &SortedMap<String, Loc>, vb: &SortedMap<String, Loc>) -> (r:
    Vec<Op>)
    ensures
        r.deep_view() == check_losses(subject@, va.deep_view(), vb.deep_view(), 0) + check_gains(
            subject@,
            va.deep_view(),
            vb.deep_view(),
            0,
        ),
{
    let ghost av = va.deep_view();
    let ghost bv = vb.deep_view();
    let mut out: Vec<Op> = list::empty();
    let mut i: usize = 0;
    while i < va.len()
        invariant
            i <= av.len(),
            av == va.deep_view(),
            bv == vb.deep_view(),
            out.deep_view() + check_losses(subject@, av, bv, i as int) == check_losses(
                subject@,
                av,
                bv,
                0,
            ),
        decreases av.len() - i,
    {
        if !vb.contains_key(va.key(i)) {
            list::push(
                &mut out,
                found_op(
                    "VALIDATION_REMOVED",
                    Layer::Behaviour,
                    subject,
                    Some(va.key(i).dup()),
                    None,
                    list::one(va.value(i).dup()),
                    list::empty(),
                ),
            );
        }
        i += 1;
    }
    let ghost first = out.deep_view();
    i = 0;
    while i < vb.len()
        invariant
            i <= bv.len(),
            av == va.deep_view(),
            bv == vb.deep_view(),
            out.deep_view() + check_gains(subject@, av, bv, i as int) == first + check_gains(
                subject@,
                av,
                bv,
                0,
            ),
        decreases bv.len() - i,
    {
        if !va.contains_key(vb.key(i)) {
            list::push(
                &mut out,
                found_op(
                    "VALIDATION_ADDED",
                    Layer::Behaviour,
                    subject,
                    None,
                    Some(vb.key(i).dup()),
                    list::empty(),
                    list::one(vb.value(i).dup()),
                ),
            );
        }
        i += 1;
    }
    out
}

fn effect_render(k: &EffectKey, info: &EffectInfo) -> (r: String)
    ensures
        r@ == effect_line(k.deep_view(), info.deep_view()),
{
    text::cat4(&k.render(), " (", &text::join(&info.modes.list(), ", "), ")")
}

fn is_sync_only(info: &EffectInfo) -> (r: bool)
    ensures
        r == only_sync(info.deep_view()),
{
    let ghost v = info.deep_view().modes;
    let mut i: usize = 0;
    while i < info.modes.len()
        invariant
            i <= v.len(),
            v == info.deep_view().modes,
            forall|k: int| 0 <= k < i ==> #[trigger] v[k] == "sync"@,
        decreases v.len() - i,
    {
        if !text::same(info.modes.item(i), "sync") {
            assert(v[i as int] != "sync"@);
            return false;
        }
        i += 1;
    }
    true
}

fn is_async_only(info: &EffectInfo) -> (r: bool)
    ensures
        r == only_async(info.deep_view()),
{
    let ghost v = info.deep_view().modes;
    let mut i: usize = 0;
    while i < info.modes.len()
        invariant
            i <= v.len(),
            v == info.deep_view().modes,
            forall|k: int| 0 <= k < i ==> text::begins(#[trigger] v[k], "async"@),
        decreases v.len() - i,
    {
        if !text::starts_with(info.modes.item(i), "async") {
            assert(!text::begins(v[i as int], "async"@));
            return false;
        }
        i += 1;
    }
    true
}

fn gained_effects(
    subject: &str,
    sa: &SortedMap<EffectKey, EffectInfo>,
    sb: &SortedMap<EffectKey, EffectInfo>,
) -> (r: Vec<Op>)
    ensures
        r.deep_view() == effect_gains(subject@, sa.deep_view(), sb.deep_view(), 0),
{
    let ghost av = sa.deep_view();
    let ghost bv = sb.deep_view();
    let mut out: Vec<Op> = list::empty();
    let mut i: usize = 0;
    while i < sb.len()
        invariant
            i <= bv.len(),
            av == sa.deep_view(),
            bv == sb.deep_view(),
            out.deep_view() + effect_gains(subject@, av, bv, i as int) == effect_gains(
                subject@,
                av,
                bv,
                0,
            ),
        decreases bv.len() - i,
    {
        let k = sb.key(i);
        let ib = sb.value(i);
        match sa.get(k) {
            None => {
                list::push(
                    &mut out,
                    found_op(
                        "EFFECT_ADDED",
                        Layer::Behaviour,
                        subject,
                        None,
                        Some(effect_render(k, ib)),
                        list::empty(),
                        ib.evidence.list(),
                    ),
                );
            },
            Some(ia) => {
                let kind = if is_sync_only(ia) && is_async_only(ib) {
                    Some("EFFECT_MADE_ASYNC")
                } else if is_async_only(ia) && is_sync_only(ib) {
                    Some("EFFECT_MADE_SYNC")
                } else {
                    None
                };
                if let Some(kind) = kind {
                    list::push(
                        &mut out,
                        found_op(
                            kind,
                            Layer::Behaviour,
                            subject,
                            Some(effect_render(k, ia)),
                            Some(effect_render(k, ib)),
                            ia.evidence.list(),
                            ib.evidence.list(),
                        ),
                    );
                }
            },
        }
        i += 1;
    }
    out
}

fn any_lost(va: &SortedMap<String, Loc>, vb: &SortedMap<String, Loc>) -> (r: bool)
    ensures
        r == (exists|k: int|
            0 <= k < va.deep_view().len() && lookup(
                vb.deep_view(),
                (#[trigger] va.deep_view()[k]).0,
            ) is None),
{
    let ghost av = va.deep_view();
    let ghost bv = vb.deep_view();
    let mut i: usize = 0;
    while i < va.len()
        invariant
            i <= av.len(),
            av == va.deep_view(),
            bv == vb.deep_view(),
            forall|k: int| 0 <= k < i ==> lookup(bv, (#[trigger] av[k]).0) is Some,
        decreases av.len() - i,
    {
        if !vb.contains_key(va.key(i)) {
            assert(lookup(bv, av[i as int].0) is None);
            return true;
        }
        i += 1;
    }
    false
}

fn through_lost(
    via: &SortedSet<String>,
    m: &Matching,
    va: &SortedMap<String, Loc>,
    vb: &SortedMap<String, Loc>,
) -> (r: bool)
    ensures
        r == only_through_lost(
            via.deep_view(),
            m.deep_view().forward,
            va.deep_view(),
            vb.deep_view(),
        ),
{
    if !any_lost(va, vb) {
        return false;
    }
    let ghost v = via.deep_view();
    let ghost fv = m.deep_view().forward;
    let ghost av = va.deep_view();
    let ghost bv = vb.deep_view();
    let mut i: usize = 0;
    while i < via.len()
        invariant
            i <= v.len(),
            v == via.deep_view(),
            fv == m.deep_view().forward,
            av == va.deep_view(),
            bv == vb.deep_view(),
            forall|k: int|
                0 <= k < i ==> is_lost_check(av, bv, new_name(fv, #[trigger] v[k])),
        decreases v.len() - i,
    {
        let name = m.to_after(via.item(i));
        if !(va.contains_key(&name) && !vb.contains_key(&name)) {
            assert(!is_lost_check(av, bv, new_name(fv, v[i as int])));
            return false;
        }
        i += 1;
    }
    true
}

fn lost_effects(
    subject: &str,
    m: &Matching,
    sa: &SortedMap<EffectKey, EffectInfo>,
    sb: &SortedMap<EffectKey, EffectInfo>,
    va: &SortedMap<String, Loc>,
    vb: &SortedMap<String, Loc>,
) -> (r: Vec<Op>)
    ensures
        r.deep_view() == effect_losses(
            subject@,
            m.deep_view().forward,
            sa.deep_view(),
            sb.deep_view(),
            va.deep_view(),
            vb.deep_view(),
            0,
        ),
{
    let ghost fv = m.deep_view().forward;
    let ghost ea = sa.deep_view();
    let ghost eb = sb.deep_view();
    let ghost av = va.deep_view();
    let ghost bv = vb.deep_view();
    let mut out: Vec<Op> = list::empty();
    let mut i: usize = 0;
    while i < sa.len()
        invariant
            i <= ea.len(),
            fv == m.deep_view().forward,
            ea == sa.deep_view(),
            eb == sb.deep_view(),
            av == va.deep_view(),
            bv == vb.deep_view(),
            out.deep_view() + effect_losses(subject@, fv, ea, eb, av, bv, i as int)
                == effect_losses(subject@, fv, ea, eb, av, bv, 0),
        decreases ea.len() - i,
    {
        let k = sa.key(i);
        let ia = sa.value(i);
        if !sb.contains_key(k) && !through_lost(&ia.via, m, va, vb) {
            list::push(
                &mut out,
                found_op(
                    "EFFECT_REMOVED",
                    Layer::Behaviour,
                    subject,
                    Some(effect_render(k, ia)),
                    None,
                    ia.evidence.list(),
                    list::empty(),
                ),
            );
        }
        i += 1;
    }
    out
}

fn changed_data(subject: &str, sa: &Summary, sb: &Summary, la: &Loc, lb: &Loc) -> (r: Vec<Op>)
    ensures
        r.deep_view() == data_changes(
            subject@,
            sa.deep_view(),
            sb.deep_view(),
            la.deep_view(),
            lb.deep_view(),
        ),
{
    let mut out: Vec<Op> = list::empty();
    let writes = sb.writes.difference(&sa.writes);
    let reads = sb.reads.difference(&sa.reads).difference(&sb.writes);
    if writes.len() > 0 || reads.len() > 0 {
        let w = text::cat2("writes ", &text::join(&writes.list(), ", "));
        let r = text::cat2("reads ", &text::join(&reads.list(), ", "));
        let said = if reads.len() == 0 {
            w
        } else if writes.len() == 0 {
            r
        } else {
            text::cat3(&w, "; ", &r)
        };
        list::push(
            &mut out,
            found_op(
                "DATAFLOW_EXPANDED",
                Layer::Behaviour,
                subject,
                None,
                Some(said),
                list::empty(),
                list::one(lb.dup()),
            ),
        );
    }
    let lost = sa.writes.difference(&sb.writes);
    if lost.len() > 0 {
        list::push(
            &mut out,
            found_op(
                "DATAFLOW_RESTRICTED",
                Layer::Behaviour,
                subject,
                Some(text::cat2("writes ", &text::join(&lost.list(), ", "))),
                None,
                list::one(la.dup()),
                list::empty(),
            ),
        );
    }
    out
}

/// The requirements that an entity states itself.
fn own_access(e: &Entity) -> (r: SortedSet<String>)
    ensures
        r.deep_view() == own_requirements(e.deep_view().access, 0, seq![]),
{
    let ghost v = e.access.deep_view();
    let mut out: SortedSet<String> = SortedSet::new();
    let mut i: usize = 0;
    while i < e.access.len()
        invariant
            i <= e.access@.len(),
            v == e.access.deep_view(),
            own_requirements(v, i as int, out.deep_view()) == own_requirements(v, 0, seq![]),
        decreases e.access@.len() - i,
    {
        out.insert(e.access[i].requirement.dup());
        i += 1;
    }
    out
}

/// The texts of filters.
pub fn texts_of(filters: &Vec<QueryFilter>) -> (r: Vec<String>)
    ensures
        r.deep_view() == filter_texts(filters.deep_view()),
{
    let ghost v = filters.deep_view();
    let mut out: Vec<String> = list::empty();
    let mut i: usize = 0;
    while i < filters.len()
        invariant
            i <= filters@.len(),
            v == filters.deep_view(),
            out.deep_view() == filter_texts(v).take(i as int),
        decreases filters@.len() - i,
    {
        assert(v[i as int] == filters@[i as int].deep_view());
        list::push(&mut out, filters[i].expr.dup());
        i += 1;
        assert(out.deep_view() =~= filter_texts(v).take(i as int));
    }
    assert(filter_texts(v).take(v.len() as int) =~= filter_texts(v));
    out
}

fn same_filters(fa: &Vec<QueryFilter>, fb: &Vec<QueryFilter>) -> (r: bool)
    ensures
        r == (sorted(filter_texts(fa.deep_view())) == sorted(filter_texts(fb.deep_view()))),
{
    ordered::sort(texts_of(fa)).alike(&ordered::sort(texts_of(fb)))
}

#[verifier::rlimit(40)]
fn changed_entity(
    a: &Model,
    b: &Model,
    m: &Matching,
    idb: &String,
    ea: &Entity,
    eb: &Entity,
    sa: &Summary,
    sb: &Summary,
    fa: &Vec<QueryFilter>,
    fb: &Vec<QueryFilter>,
    Ghost(ida): Ghost<Text>,
) -> (r: Vec<Op>)
    requires
        (fa.deep_view(), fb.deep_view()) == pair_filters(
            a.deep_view(),
            b.deep_view(),
            ea.deep_view(),
            (ida, idb@),
        ),
    ensures
        r.deep_view() == entity_ops(
            a.deep_view(),
            b.deep_view(),
            m.deep_view().forward,
            (ida, idb@),
            ea.deep_view(),
            eb.deep_view(),
            sa.deep_view(),
            sb.deep_view(),
        ),
{
    let mut out: Vec<Op> = list::empty();
    if let Some(pa) = &ea.returns {
        if let Some(pb) = &eb.returns {
            if !pa.alike(pb) {
                list::push(&mut out, auth_change(idb, pa, pb, &ea.loc, &eb.loc));
            }
        }
    }
    assert(out.deep_view() =~= rule_change(idb@, ea.deep_view(), eb.deep_view()));
    let none: SortedMap<String, String> = SortedMap::new();
    let ga = guards_of(a, b, ea, eb, &m.forward, &sa.requirements);
    let gb = guards_of(a, b, ea, eb, &none, &sb.requirements);
    list::append(&mut out, changed_guards(idb, &ga, &gb));
    let va = checks_after(&sa.validations, m);
    list::append(&mut out, changed_checks(idb, &va, &sb.validations));
    list::append(&mut out, gained_effects(idb, &sa.effects, &sb.effects));
    list::append(
        &mut out,
        lost_effects(idb, m, &sa.effects, &sb.effects, &va, &sb.validations),
    );
    list::append(&mut out, changed_data(idb, sa, sb, &ea.loc, &eb.loc));
    list::append(&mut out, query_filters(idb, fa, fb));
    list::append(&mut out, access_change(idb, &sa.access, &sb.access));
    out
}

fn reaching(ops: Vec<Op>, affects: &Vec<String>) -> (r: Vec<Op>)
    ensures
        r.deep_view() == with_affects(ops.deep_view(), affects.deep_view()),
{
    let ghost v = ops.deep_view();
    let ghost av = affects.deep_view();
    let mut out: Vec<Op> = list::empty();
    let mut i: usize = 0;
    while i < ops.len()
        invariant
            i <= ops@.len(),
            v == ops.deep_view(),
            av == affects.deep_view(),
            out.deep_view() == with_affects(v, av).take(i as int),
        decreases ops@.len() - i,
    {
        assert(v[i as int] == ops@[i as int].deep_view());
        let mut op = ops[i].dup();
        op.affects = affects.dup();
        list::push(&mut out, op);
        i += 1;
        assert(out.deep_view() =~= with_affects(v, av).take(i as int));
    }
    assert(with_affects(v, av).take(v.len() as int) =~= with_affects(v, av));
    out
}

#[verifier::rlimit(40)]
fn compare_pair(
    a: &Model,
    b: &Model,
    m: &Matching,
    kids_a: &SortedMap<String, Vec<String>>,
    kids_b: &SortedMap<String, Vec<String>>,
    ida: &String,
    idb: &String,
) -> (r: Option<Vec<Op>>)
    requires
        kids_a.deep_view() == closures_from(a.deep_view().entities, 0, seq![]),
        kids_b.deep_view() == closures_from(b.deep_view().entities, 0, seq![]),
    ensures
        match r {
            Some(ops) => changed_pair(a.deep_view(), b.deep_view(), (ida@, idb@)) is Some
                && ops.deep_view() == pair_ops(
                a.deep_view(),
                b.deep_view(),
                m.deep_view().forward,
                (ida@, idb@),
            ),
            None => changed_pair(a.deep_view(), b.deep_view(), (ida@, idb@)) is None,
        },
{
    let (ea, eb) = match (a.entities.get(ida), b.entities.get(idb)) {
        (Some(ea), Some(eb)) => (ea, eb),
        _ => {
            return None;
        },
    };
    let (sa, sb) = match (a.summaries.get(ida), b.summaries.get(idb)) {
        (Some(sa), Some(sb)) => (sa, sb),
        _ => {
            return None;
        },
    };
    let (fa, fb) = match ea.parent {
        None => (scoped_filters(a, kids_a, ida), scoped_filters(b, kids_b, idb)),
        Some(_) => (list::empty(), list::empty()),
    };
    if ea.body_hash.alike(&eb.body_hash) && same_filters(&fa, &fb) && own_access(ea).alike(
        &own_access(eb),
    ) {
        return None;
    }
    let found = changed_entity(a, b, m, idb, ea, eb, sa, sb, &fa, &fb, Ghost(ida@));
    let affects = b.entry_points_reaching(idb);
    Some(reaching(found, &affects))
}

/// The changes to what entities do, and the number of entities that changed. `kids_a` and
/// `kids_b` are the closures of both versions.
#[verifier::rlimit(60)]
pub fn changed_behaviour(
    a: &Model,
    b: &Model,
    m: &Matching,
    kids_a: &SortedMap<String, Vec<String>>,
    kids_b: &SortedMap<String, Vec<String>>,
) -> (r: (Vec<Op>, usize))
    requires
        kids_a.deep_view() == closures_from(a.deep_view().entities, 0, seq![]),
        kids_b.deep_view() == closures_from(b.deep_view().entities, 0, seq![]),
    ensures
        r.0.deep_view() == pairs_ops(a.deep_view(), b.deep_view(), m.deep_view().forward, 0),
        r.1 == pairs_changed(a.deep_view(), b.deep_view(), m.deep_view().forward, 0),
{
    let ghost av = a.deep_view();
    let ghost bv = b.deep_view();
    let ghost fv = m.deep_view().forward;
    let mut out: Vec<Op> = list::empty();
    let mut changed: usize = 0;
    let mut i: usize = 0;
    while i < m.forward.len()
        invariant
            i <= fv.len(),
            changed <= i,
            av == a.deep_view(),
            bv == b.deep_view(),
            fv == m.deep_view().forward,
            kids_a.deep_view() == closures_from(av.entities, 0, seq![]),
            kids_b.deep_view() == closures_from(bv.entities, 0, seq![]),
            out.deep_view() + pairs_ops(av, bv, fv, i as int) == pairs_ops(av, bv, fv, 0),
            changed + pairs_changed(av, bv, fv, i as int) == pairs_changed(av, bv, fv, 0),
        decreases fv.len() - i,
    {
        let ghost pair = fv[i as int];
        let ghost ops = pair_ops(av, bv, fv, pair);
        let ghost before = out.deep_view();
        let found = compare_pair(a, b, m, kids_a, kids_b, m.forward.key(i), m.forward.value(i));
        assert(pairs_ops(av, bv, fv, i as int) == ops + pairs_ops(av, bv, fv, i + 1));
        if let Some(found) = found {
            assert(found.deep_view() == ops);
            list::append(&mut out, found);
            changed = changed + 1;
        } else {
            assert(ops.len() == 0);
        }
        assert(out.deep_view() =~= before + ops);
        i += 1;
    }
    (out, changed)
}

} // verus!
