//! Design rules that a change breaks or mends: inferred invariants, and the layers and
//! ownership that a project declares.

use crate::infer::{meets, new_name, satisfies, sets, writers, writers_are_entities, writers_from};
use crate::ir::{Loc, LocView};
use crate::list;
use crate::list::Plain;
use crate::matching::{Matching, MatchingView};
use crate::model::{
    entry_points, Entity, EntityView, Invariant, InvariantView, Model, ModelView, Origin,
    Requirement, Violation, ViolationView, WriteFactView,
};
use crate::ops::{found, found_op, short, short_name, Layer, Op, OpView};
use crate::ordered::{added, lookup, put, slot_bounds, SortedMap, SortedSet};
use crate::summary::complete;
use crate::text;
use crate::text::Text;
use vstd::prelude::*;

verus! {

// ---- inferred invariants

/// An entity sets the state that an invariant is about.
pub open spec fn sets_state(e: EntityView, inv: InvariantView) -> bool {
    exists|k: int|
        0 <= k < e.writes.len() && sets(#[trigger] e.writes[k], inv.field, inv.value, true)
}

/// The entity that a writer was before already set the state against the invariant.
pub open spec fn was_broken(a: ModelView, m: MatchingView, inv: InvariantView, writer: Text) -> bool {
    match lookup(m.backward, writer) {
        Some(old) => match lookup(a.entities, old) {
            Some(e) => !meets(a, inv, e, seq![]) && sets_state(e, inv),
            None => false,
        },
        None => false,
    }
}

/// The writers from index `i` on that break an invariant which held before.
pub open spec fn breaches_from(
    a: ModelView,
    b: ModelView,
    m: MatchingView,
    inv: InvariantView,
    ws: Seq<(EntityView, WriteFactView)>,
    i: int,
) -> Seq<OpView>
    decreases ws.len() - i,
{
    if 0 <= i < ws.len() {
        let (w, wf) = ws[i];
        (if meets(b, inv, w, m.forward) || was_broken(a, m, inv, w.id) {
            seq![]
        } else {
            seq![
                OpView {
                    origin: Origin::Inferred,
                    confidence: inv.confidence,
                    affects: entry_points(b, w.id),
                    ..found(
                        "INVARIANT_VIOLATED"@,
                        Layer::Design,
                        inv.statement,
                        Some("holds for "@ + text::decimal(inv.support as nat) + " writer(s)"@),
                        Some(short_name(w.id) + " does not satisfy it"@),
                        inv.evidence,
                        seq![wf.loc],
                    )
                },
            ]
        }) + breaches_from(a, b, m, inv, ws, i + 1)
    } else {
        seq![]
    }
}

/// The writers of the new version that an invariant is about.
pub open spec fn concerned(b: ModelView, inv: InvariantView) -> Seq<(EntityView, WriteFactView)> {
    writers_from(b.entities, inv.field, inv.value, inv.requirement is CoWrite, 0)
}

/// The breaches of the invariants from index `i` on that the change introduced.
pub open spec fn breaches(a: ModelView, b: ModelView, m: MatchingView, i: int) -> Seq<OpView>
    decreases a.invariants.len() - i,
{
    if 0 <= i < a.invariants.len() {
        breaches_from(a, b, m, a.invariants[i], concerned(b, a.invariants[i]), 0) + breaches(
            a,
            b,
            m,
            i + 1,
        )
    } else {
        seq![]
    }
}

proof fn stored_has_summary(m: ModelView, id: Text)
    requires
        complete(m),
        lookup(m.entities, id) is Some,
    ensures
        lookup(m.summaries, lookup(m.entities, id)->Some_0.id) is Some,
{
    slot_bounds(m.entities, id);
}

fn set_before(e: &Entity, inv: &Invariant) -> (r: bool)
    ensures
        r == sets_state(e.deep_view(), inv.deep_view()),
{
    let ghost v = e.deep_view().writes;
    let ghost iv = inv.deep_view();
    let mut i: usize = 0;
    while i < e.writes.len()
        invariant
            i <= e.writes@.len(),
            v == e.deep_view().writes,
            iv == inv.deep_view(),
            forall|k: int| 0 <= k < i ==> !sets(#[trigger] v[k], iv.field, iv.value, true),
        decreases e.writes@.len() - i,
    {
        let w = &e.writes[i];
        assert(v[i as int] == w.deep_view());
        let same_value = match &w.value {
            Some(x) => x.alike(&inv.value),
            None => false,
        };
        if w.field.alike(&inv.field) && same_value {
            assert(sets(v[i as int], iv.field, iv.value, true));
            return true;
        }
        i += 1;
    }
    false
}

fn broken_before(a: &Model, m: &Matching, inv: &Invariant, writer: &String) -> (r: bool)
    requires
        complete(a.deep_view()),
    ensures
        r == was_broken(a.deep_view(), m.deep_view(), inv.deep_view(), writer@),
{
    match m.backward.get(writer) {
        Some(old) => match a.entities.get(old) {
            Some(e) => {
                proof {
                    stored_has_summary(a.deep_view(), old@);
                }
                !satisfies(a, inv, e, &SortedMap::new()) && set_before(e, inv)
            },
            None => false,
        },
        None => false,
    }
}

/// The breaches of inferred invariants that the change introduced.
pub fn broken_invariants(a: &Model, b: &Model, m: &Matching) -> (r: Vec<Op>)
    requires
        complete(a.deep_view()),
        complete(b.deep_view()),
    ensures
        r.deep_view() == breaches(a.deep_view(), b.deep_view(), m.deep_view(), 0),
{
    let ghost av = a.deep_view();
    let ghost bv = b.deep_view();
    let ghost mv = m.deep_view();
    let mut out: Vec<Op> = list::empty();
    let mut i: usize = 0;
    while i < a.invariants.len()
        invariant
            i <= a.invariants@.len(),
            av == a.deep_view(),
            bv == b.deep_view(),
            mv == m.deep_view(),
            complete(av),
            complete(bv),
            out.deep_view() + breaches(av, bv, mv, i as int) == breaches(av, bv, mv, 0),
        decreases a.invariants@.len() - i,
    {
        let inv = &a.invariants[i];
        let ghost iv = inv.deep_view();
        assert(av.invariants[i as int] == iv);
        let cowrite = match &inv.requirement {
            Requirement::CoWrite(_) => true,
            Requirement::Guard(_) => false,
        };
        let ws = writers(b, &inv.field, &inv.value, cowrite);
        let ghost wv = ws.deep_view();
        proof {
            writers_are_entities(bv.entities, iv.field, iv.value, cowrite, 0);
        }
        let ghost before = out.deep_view();
        let mut j: usize = 0;
        while j < ws.len()
            invariant
                j <= ws@.len(),
                av == a.deep_view(),
                bv == b.deep_view(),
                mv == m.deep_view(),
                iv == inv.deep_view(),
                wv == ws.deep_view(),
                complete(av),
                complete(bv),
                forall|k: int|
                    0 <= k < wv.len() ==> exists|n: int|
                        0 <= n < bv.entities.len() && (#[trigger] bv.entities[n]).1 == (
                        #[trigger] wv[k]).0,
                out.deep_view() + breaches_from(av, bv, mv, iv, wv, j as int) == before
                    + breaches_from(av, bv, mv, iv, wv, 0),
            decreases ws@.len() - j,
        {
            let w = ws[j].0;
            assert(wv[j as int] == (w.deep_view(), ws@[j as int].1.deep_view()));
            if !satisfies(b, inv, w, &m.forward) && !broken_before(a, m, inv, &w.id) {
                let mut op = found_op(
                    "INVARIANT_VIOLATED",
                    Layer::Design,
                    &inv.statement,
                    Some(
                        text::cat3("holds for ", &text::number(inv.support as u64), " writer(s)"),
                    ),
                    Some(text::cat2(&short(&w.id), " does not satisfy it")),
                    inv.evidence.dup(),
                    list::one(ws[j].1.loc.dup()),
                );
                op.origin = Origin::Inferred;
                op.confidence = inv.confidence;
                op.affects = b.entry_points_reaching(&w.id);
                list::push(&mut out, op);
            }
            j += 1;
        }
        assert(out.deep_view() =~= before + breaches_from(av, bv, mv, iv, wv, 0));
        i += 1;
    }
    out
}

// ---- declared rules

/// What a violation is about under the new names: `mod → mod` (layer) or an entity id
/// (ownership).
pub open spec fn renamed_detail(m: MatchingView, detail: Text) -> Text {
    match text::parted(detail, " → "@) {
        Some((x, y)) => new_name(m.modules, x) + " → "@ + new_name(m.modules, y),
        None => new_name(m.forward, detail),
    }
}

/// The details of the old violations from index `i` on by kind and subject, added to `acc`.
pub open spec fn details_from(
    vs: Seq<ViolationView>,
    m: MatchingView,
    i: int,
    acc: Seq<((Text, Text), Seq<Text>)>,
) -> Seq<((Text, Text), Seq<Text>)>
    decreases vs.len() - i,
{
    if 0 <= i < vs.len() {
        let k = (vs[i].kind, vs[i].subject);
        details_from(
            vs,
            m,
            i + 1,
            put(
                acc,
                k,
                added(
                    match lookup(acc, k) {
                        Some(d) => d,
                        None => seq![],
                    },
                    renamed_detail(m, vs[i].detail),
                ),
            ),
        )
    } else {
        acc
    }
}

/// The violations from index `i` on by kind and subject, added to `acc`.
pub open spec fn by_subject(
    vs: Seq<ViolationView>,
    i: int,
    acc: Seq<((Text, Text), Seq<ViolationView>)>,
) -> Seq<((Text, Text), Seq<ViolationView>)>
    decreases vs.len() - i,
{
    if 0 <= i < vs.len() {
        let k = (vs[i].kind, vs[i].subject);
        by_subject(
            vs,
            i + 1,
            put(
                acc,
                k,
                (match lookup(acc, k) {
                    Some(d) => d,
                    None => seq![],
                }).push(vs[i]),
            ),
        )
    } else {
        acc
    }
}

/// The violations from index `i` on that were not there.
pub open spec fn fresh_from(vs: Seq<ViolationView>, known: Option<Seq<Text>>, i: int) -> Seq<ViolationView>
    decreases vs.len() - i,
{
    if 0 <= i < vs.len() {
        (if known is Some && known->Some_0.contains(vs[i].detail) {
            seq![]
        } else {
            seq![vs[i]]
        }) + fresh_from(vs, known, i + 1)
    } else {
        seq![]
    }
}

/// The details of violations.
pub open spec fn details_of(vs: Seq<ViolationView>) -> Seq<Text> {
    Seq::new(vs.len(), |i: int| vs[i].detail)
}

/// The places of the violations from index `i` on.
pub open spec fn places_from(vs: Seq<ViolationView>, i: int) -> Seq<LocView>
    decreases vs.len() - i,
{
    if 0 <= i < vs.len() {
        vs[i].evidence + places_from(vs, i + 1)
    } else {
        seq![]
    }
}

/// The rules from index `i` on that the change breaks in new places.
pub open spec fn rules_broken(
    vb: Seq<((Text, Text), Seq<ViolationView>)>,
    va: Seq<((Text, Text), Seq<Text>)>,
    i: int,
) -> Seq<OpView>
    decreases vb.len() - i,
{
    if 0 <= i < vb.len() {
        let (k, vs) = vb[i];
        let fresh = fresh_from(vs, lookup(va, k), 0);
        (if fresh.len() == 0 {
            seq![]
        } else {
            seq![
                OpView {
                    origin: Origin::Declared,
                    ..found(
                        if k.0 == "layer"@ {
                            "LAYER_VIOLATION_INTRODUCED"@
                        } else {
                            "OWNERSHIP_VIOLATION_INTRODUCED"@
                        },
                        Layer::Design,
                        k.1,
                        None,
                        Some(text::joined(details_of(fresh), "; "@)),
                        seq![],
                        places_from(fresh, 0),
                    )
                },
            ]
        }) + rules_broken(vb, va, i + 1)
    } else {
        seq![]
    }
}

/// The rules from index `i` on that were broken and no longer are, with the places where they
/// were.
pub open spec fn rules_mended(
    oa: Seq<((Text, Text), Seq<ViolationView>)>,
    vb: Seq<((Text, Text), Seq<ViolationView>)>,
    i: int,
) -> Seq<OpView>
    decreases oa.len() - i,
{
    if 0 <= i < oa.len() {
        let (k, vs) = oa[i];
        let still = match lookup(vb, k) {
            Some(vs) => vs.len() > 0,
            None => false,
        };
        (if vs.len() > 0 && !still {
            seq![
                OpView {
                    origin: Origin::Declared,
                    ..found(
                        if k.0 == "layer"@ {
                            "LAYER_VIOLATION_RESOLVED"@
                        } else {
                            "OWNERSHIP_VIOLATION_RESOLVED"@
                        },
                        Layer::Design,
                        k.1,
                        None,
                        None,
                        places_from(vs, 0),
                        seq![],
                    )
                },
            ]
        } else {
            seq![]
        }) + rules_mended(oa, vb, i + 1)
    } else {
        seq![]
    }
}

/// The declared rules that the change breaks or mends.
pub open spec fn rule_changes(a: ModelView, b: ModelView, m: MatchingView) -> Seq<OpView> {
    let va = details_from(a.violations, m, 0, seq![]);
    let vb = by_subject(b.violations, 0, seq![]);
    rules_broken(vb, va, 0) + rules_mended(by_subject(a.violations, 0, seq![]), vb, 0)
}

fn map_detail(m: &Matching, detail: &String) -> (r: String)
    ensures
        r@ == renamed_detail(m.deep_view(), detail@),
{
    match text::split_once(detail, " → ") {
        Some((x, y)) => text::cat3(&m.module_to_after(&x), " → ", &m.module_to_after(&y)),
        None => m.to_after(detail),
    }
}

fn old_details(vs: &Vec<Violation>, m: &Matching) -> (r: SortedMap<
    (String, String),
    SortedSet<String>,
>)
    ensures
        r.deep_view() == details_from(vs.deep_view(), m.deep_view(), 0, seq![]),
{
    let ghost v = vs.deep_view();
    let ghost mv = m.deep_view();
    let mut out: SortedMap<(String, String), SortedSet<String>> = SortedMap::new();
    let mut i: usize = 0;
    while i < vs.len()
        invariant
            i <= vs@.len(),
            v == vs.deep_view(),
            mv == m.deep_view(),
            details_from(v, mv, i as int, out.deep_view()) == details_from(v, mv, 0, seq![]),
        decreases vs@.len() - i,
    {
        assert(v[i as int] == vs@[i as int].deep_view());
        let k = (vs[i].kind.dup(), vs[i].subject.dup());
        let mut details = match out.get(&k) {
            Some(d) => d.dup(),
            None => SortedSet::new(),
        };
        details.insert(map_detail(m, &vs[i].detail));
        out.insert(k, details);
        i += 1;
    }
    out
}

fn grouped(vs: &Vec<Violation>) -> (r: SortedMap<(String, String), Vec<Violation>>)
    ensures
        r.deep_view() == by_subject(vs.deep_view(), 0, seq![]),
{
    let ghost v = vs.deep_view();
    let mut out: SortedMap<(String, String), Vec<Violation>> = SortedMap::new();
    let mut i: usize = 0;
    while i < vs.len()
        invariant
            i <= vs@.len(),
            v == vs.deep_view(),
            by_subject(v, i as int, out.deep_view()) == by_subject(v, 0, seq![]),
        decreases vs@.len() - i,
    {
        assert(v[i as int] == vs@[i as int].deep_view());
        let k = (vs[i].kind.dup(), vs[i].subject.dup());
        let mut here = match out.get(&k) {
            Some(d) => d.dup(),
            None => list::empty(),
        };
        list::push(&mut here, vs[i].dup());
        out.insert(k, here);
        i += 1;
    }
    out
}

fn fresh_of(vs: &Vec<Violation>, known: Option<&SortedSet<String>>) -> (r: Vec<Violation>)
    ensures
        r.deep_view() == fresh_from(vs.deep_view(), known.deep_view(), 0),
{
    let ghost v = vs.deep_view();
    let ghost kv = known.deep_view();
    let mut out: Vec<Violation> = list::empty();
    let mut i: usize = 0;
    while i < vs.len()
        invariant
            i <= vs@.len(),
            v == vs.deep_view(),
            kv == known.deep_view(),
            out.deep_view() + fresh_from(v, kv, i as int) == fresh_from(v, kv, 0),
        decreases vs@.len() - i,
    {
        assert(v[i as int] == vs@[i as int].deep_view());
        let old = match known {
            Some(d) => d.contains(&vs[i].detail),
            None => false,
        };
        if !old {
            list::push(&mut out, vs[i].dup());
        }
        i += 1;
    }
    out
}

fn said(vs: &Vec<Violation>) -> (r: (Vec<String>, Vec<Loc>))
    ensures
        r.0.deep_view() == details_of(vs.deep_view()),
        r.1.deep_view() == places_from(vs.deep_view(), 0),
{
    let ghost v = vs.deep_view();
    let mut details: Vec<String> = list::empty();
    let mut places: Vec<Loc> = list::empty();
    let mut i: usize = 0;
    while i < vs.len()
        invariant
            i <= vs@.len(),
            v == vs.deep_view(),
            details.deep_view() == details_of(v).take(i as int),
            places.deep_view() + places_from(v, i as int) == places_from(v, 0),
        decreases vs@.len() - i,
    {
        assert(v[i as int] == vs@[i as int].deep_view());
        list::push(&mut details, vs[i].detail.dup());
        list::extend(&mut places, &vs[i].evidence);
        i += 1;
        assert(details.deep_view() =~= details_of(v).take(i as int));
    }
    assert(details_of(v).take(v.len() as int) =~= details_of(v));
    (details, places)
}

/// The declared rules that the change breaks or mends.
pub fn changed_rules(a: &Model, b: &Model, m: &Matching) -> (r: Vec<Op>)
    ensures
        r.deep_view() == rule_changes(a.deep_view(), b.deep_view(), m.deep_view()),
{
    let va = old_details(&a.violations, m);
    let vb = grouped(&b.violations);
    let oa = grouped(&a.violations);
    let ghost ov = oa.deep_view();
    let ghost av = va.deep_view();
    let ghost bv = vb.deep_view();
    let mut out: Vec<Op> = list::empty();
    let mut i: usize = 0;
    while i < vb.len()
        invariant
            i <= bv.len(),
            av == va.deep_view(),
            bv == vb.deep_view(),
            out.deep_view() + rules_broken(bv, av, i as int) == rules_broken(bv, av, 0),
        decreases bv.len() - i,
    {
        let k = vb.key(i);
        assert(bv[i as int].0 == (k.0@, k.1@));
        let fresh = fresh_of(vb.value(i), va.get(k));
        if fresh.len() > 0 {
            let (details, places) = said(&fresh);
            let kind = if text::same(&k.0, "layer") {
                "LAYER_VIOLATION_INTRODUCED"
            } else {
                "OWNERSHIP_VIOLATION_INTRODUCED"
            };
            let mut op = found_op(
                kind,
                Layer::Design,
                &k.1,
                None,
                Some(text::join(&details, "; ")),
                list::empty(),
                places,
            );
            op.origin = Origin::Declared;
            list::push(&mut out, op);
        }
        i += 1;
    }
    let ghost first = out.deep_view();
    i = 0;
    while i < oa.len()
        invariant
            i <= ov.len(),
            ov == oa.deep_view(),
            bv == vb.deep_view(),
            out.deep_view() + rules_mended(ov, bv, i as int) == first + rules_mended(ov, bv, 0),
        decreases ov.len() - i,
    {
        let k = oa.key(i);
        assert(ov[i as int].0 == (k.0@, k.1@));
        let still = match vb.get(k) {
            Some(vs) => vs.len() > 0,
            None => false,
        };
        if oa.value(i).len() > 0 && !still {
            let (_, places) = said(oa.value(i));
            let kind = if text::same(&k.0, "layer") {
                "LAYER_VIOLATION_RESOLVED"
            } else {
                "OWNERSHIP_VIOLATION_RESOLVED"
            };
            let mut op = found_op(kind, Layer::Design, &k.1, None, None, places, list::empty());
            op.origin = Origin::Declared;
            list::push(&mut out, op);
        }
        i += 1;
    }
    out
}

} // verus!
