//! Invariant inference: mines likely design invariants from how state fields are
//! written across the program. Everything here is inferred, with a confidence.

use crate::ir::{Loc, LocView};
use crate::list;
use crate::list::Plain;
use crate::model::{
    targets_from, Entity, EntityView, Invariant, InvariantView, Model, ModelView, Requirement,
    RequirementView, WriteFact, WriteFactView,
};
use crate::ordered::{added, common, lookup, SortedMap, SortedSet};
use crate::pred::{field_of, pred_text, Pred, PredView};
use crate::summary::complete;
use crate::text;
use crate::text::Text;
use vstd::prelude::*;

verus! {

/// A write sets `field` to `value`.
pub open spec fn sets(w: WriteFactView, field: Text, value: Text, creations: bool) -> bool {
    w.field == field && w.value == Some(value) && (creations || !w.creation)
}

/// The writes of `field := value` in an entity, from index `i` on.
pub open spec fn writers_in(
    e: EntityView,
    field: Text,
    value: Text,
    creations: bool,
    i: int,
) -> Seq<(EntityView, WriteFactView)>
    decreases e.writes.len() - i,
{
    if 0 <= i < e.writes.len() {
        let rest = writers_in(e, field, value, creations, i + 1);
        if sets(e.writes[i], field, value, creations) {
            seq![(e, e.writes[i])] + rest
        } else {
            rest
        }
    } else {
        seq![]
    }
}

/// The writes of `field := value` in the entities from index `i` on.
pub open spec fn writers_from(
    entities: Seq<(Text, EntityView)>,
    field: Text,
    value: Text,
    creations: bool,
    i: int,
) -> Seq<(EntityView, WriteFactView)>
    decreases entities.len() - i,
{
    if 0 <= i < entities.len() {
        writers_in(entities[i].1, field, value, creations, 0) + writers_from(
            entities,
            field,
            value,
            creations,
            i + 1,
        )
    } else {
        seq![]
    }
}

/// An entity writes `field` with something other than null.
pub open spec fn sets_non_null(e: EntityView, field: Text) -> bool {
    exists|i: int|
        0 <= i < e.writes.len() && (#[trigger] e.writes[i]).field == field && e.writes[i].value
            != Some("null"@)
}

/// The requirements from index `i` on that are not about `state_field`.
pub open spec fn keys_from(
    requirements: Seq<(Text, PredView, LocView)>,
    state_field: Text,
    i: int,
) -> Seq<(Text, PredView)>
    decreases requirements.len() - i,
{
    if 0 <= i < requirements.len() {
        let rest = keys_from(requirements, state_field, i + 1);
        if field_of(requirements[i].1) != Some(state_field) {
            seq![(requirements[i].0, requirements[i].1)] + rest
        } else {
            rest
        }
    } else {
        seq![]
    }
}

/// The guards of an entity that are not about `state_field`.
pub open spec fn keys_of(m: ModelView, e: EntityView, state_field: Text) -> Seq<(Text, PredView)> {
    match lookup(m.summaries, e.id) {
        Some(s) => keys_from(s.requirements, state_field, 0),
        None => seq![],
    }
}

/// The confidence in hundredths that `support` writers give: support over support and one,
/// rounded half up, and never certainty.
pub open spec fn confidence_of(support: int) -> int {
    let c = (201 * support + 1) / (2 * support + 2);
    if c < 100 {
        c
    } else {
        99
    }
}

/// What is inferred is never certain: from one writer on, the confidence is at least a half and
/// below one, and it does not fall as more writers agree.
pub proof fn inferred_is_below_certain(support: int, more: int)
    requires
        1 <= support <= more,
    ensures
        50 <= confidence_of(support) <= confidence_of(more) < 100,
{
    let a = (201 * support + 1) / (2 * support + 2);
    let b = (201 * more + 1) / (2 * more + 2);
    assert(a >= 50) by (nonlinear_arith)
        requires
            support >= 1,
            a == (201 * support + 1) / (2 * support + 2),
    ;
    assert(a <= b) by (nonlinear_arith)
        requires
            1 <= support <= more,
            a == (201 * support + 1) / (2 * support + 2),
            b == (201 * more + 1) / (2 * more + 2),
    {
        let x = 2 * support + 2;
        let y = 2 * more + 2;
        assert(a * x <= 201 * support + 1);
        assert((201 * support + 1) * y <= (201 * more + 1) * x);
        assert(a * x * y <= (201 * support + 1) * y);
        assert(a * y * x <= (201 * more + 1) * x);
        assert(a * y <= 201 * more + 1);
    }
}

/// The other fields that an entity writes with something other than null, from write `i` on.
pub open spec fn cowritten(e: EntityView, field: Text, i: int, acc: Seq<Text>) -> Seq<Text>
    decreases e.writes.len() - i,
{
    if 0 <= i < e.writes.len() {
        let w = e.writes[i];
        cowritten(
            e,
            field,
            i + 1,
            if w.field != field && w.value != Some("null"@) {
                added(acc, w.field)
            } else {
                acc
            },
        )
    } else {
        acc
    }
}

/// The fields that every writer from index `i` on, and all before, writes too.
pub open spec fn cowritten_by_all(
    ws: Seq<(EntityView, WriteFactView)>,
    field: Text,
    i: int,
    acc: Option<Seq<Text>>,
) -> Seq<Text>
    decreases ws.len() - i,
{
    if 0 <= i < ws.len() {
        let here = cowritten(ws[i].0, field, 0, seq![]);
        cowritten_by_all(
            ws,
            field,
            i + 1,
            Some(
                match acc {
                    None => here,
                    Some(c) => common(c, here),
                },
            ),
        )
    } else {
        match acc {
            Some(c) => c,
            None => seq![],
        }
    }
}

/// A key is among the keys.
pub open spec fn has_key(keys: Seq<(Text, PredView)>, key: Text) -> bool {
    exists|i: int| 0 <= i < keys.len() && (#[trigger] keys[i]).0 == key
}

/// The keys from index `i` on that `others` has too.
pub open spec fn keys_kept(
    keys: Seq<(Text, PredView)>,
    others: Seq<(Text, PredView)>,
    i: int,
) -> Seq<(Text, PredView)>
    decreases keys.len() - i,
{
    if 0 <= i < keys.len() {
        let rest = keys_kept(keys, others, i + 1);
        if has_key(others, keys[i].0) {
            seq![keys[i]] + rest
        } else {
            rest
        }
    } else {
        seq![]
    }
}

/// The guards that every writer from index `i` on, and all before, has.
pub open spec fn guarded_by_all(
    m: ModelView,
    ws: Seq<(EntityView, WriteFactView)>,
    field: Text,
    i: int,
    acc: Option<Seq<(Text, PredView)>>,
) -> Seq<(Text, PredView)>
    decreases ws.len() - i,
{
    if 0 <= i < ws.len() {
        let here = keys_of(m, ws[i].0, field);
        guarded_by_all(
            m,
            ws,
            field,
            i + 1,
            Some(
                match acc {
                    None => here,
                    Some(c) => keys_kept(c, here, 0),
                },
            ),
        )
    } else {
        match acc {
            Some(c) => c,
            None => seq![],
        }
    }
}

/// The places of the writes.
pub open spec fn places(ws: Seq<(EntityView, WriteFactView)>) -> Seq<LocView> {
    Seq::new(ws.len(), |i: int| ws[i].1.loc)
}

/// The invariant that a write of `field := value` sets `g` too.
pub open spec fn cowrite(
    field: Text,
    value: Text,
    ws: Seq<(EntityView, WriteFactView)>,
    g: Text,
) -> InvariantView {
    InvariantView {
        key: "cowrite:"@ + field + "="@ + value + "=>"@ + g,
        statement: field + " := "@ + value + " ⇒ "@ + g + " is set"@,
        field,
        value,
        requirement: RequirementView::CoWrite(g),
        support: ws.len() as usize,
        confidence: confidence_of(ws.len() as int) as u32,
        evidence: places(ws),
    }
}

/// The invariants that a write of `field := value` sets `gs` from index `i` on.
pub open spec fn cowrites_from(
    field: Text,
    value: Text,
    ws: Seq<(EntityView, WriteFactView)>,
    gs: Seq<Text>,
    i: int,
) -> Seq<InvariantView>
    decreases gs.len() - i,
{
    if 0 <= i < gs.len() {
        seq![cowrite(field, value, ws, gs[i])] + cowrites_from(field, value, ws, gs, i + 1)
    } else {
        seq![]
    }
}

/// The invariant that a write of `field := value` is guarded by `g`.
pub open spec fn guarded(
    field: Text,
    value: Text,
    ws: Seq<(EntityView, WriteFactView)>,
    g: (Text, PredView),
) -> InvariantView {
    InvariantView {
        key: "guard:"@ + field + "="@ + value + "=>"@ + g.0,
        statement: field + " := "@ + value + " requires "@ + pred_text(g.1),
        field,
        value,
        requirement: RequirementView::Guard(g.0),
        support: ws.len() as usize,
        confidence: confidence_of(ws.len() as int) as u32,
        evidence: places(ws),
    }
}

/// The invariants that a write of `field := value` is guarded by `gs` from index `i` on.
pub open spec fn guards_from(
    field: Text,
    value: Text,
    ws: Seq<(EntityView, WriteFactView)>,
    gs: Seq<(Text, PredView)>,
    i: int,
) -> Seq<InvariantView>
    decreases gs.len() - i,
{
    if 0 <= i < gs.len() {
        seq![guarded(field, value, ws, gs[i])] + guards_from(field, value, ws, gs, i + 1)
    } else {
        seq![]
    }
}

/// The invariants of one state value: what all its writers set (where there are two writers
/// at least), and what all its writers but creations check first.
pub open spec fn mined_of(m: ModelView, field: Text, value: Text) -> Seq<InvariantView> {
    let all = writers_from(m.entities, field, value, true, 0);
    let later = writers_from(m.entities, field, value, false, 0);
    (if all.len() >= 2 {
        cowrites_from(field, value, all, cowritten_by_all(all, field, 0, None), 0)
    } else {
        seq![]
    }) + guards_from(field, value, later, guarded_by_all(m, later, field, 0, None), 0)
}

/// The invariants of the values from index `i` on.
pub open spec fn mined_values(m: ModelView, field: Text, values: Seq<Text>, i: int) -> Seq<
    InvariantView,
>
    decreases values.len() - i,
{
    if 0 <= i < values.len() {
        mined_of(m, field, values[i]) + mined_values(m, field, values, i + 1)
    } else {
        seq![]
    }
}

/// The invariants of the state machines from index `i` on.
pub open spec fn mined_from(m: ModelView, i: int) -> Seq<InvariantView>
    decreases m.state_machines.len() - i,
{
    if 0 <= i < m.state_machines.len() {
        let sm = m.state_machines[i].1;
        mined_values(m, sm.field, targets_from(sm.edges, 0, seq![]), 0) + mined_from(m, i + 1)
    } else {
        seq![]
    }
}

/// The invariants of a model.
pub open spec fn mined(m: ModelView) -> Seq<InvariantView> {
    mined_from(m, 0)
}

/// An entity meets an invariant, where `renamed` says what the entities it names are called
/// in the entity's own model.
pub open spec fn meets(
    m: ModelView,
    inv: InvariantView,
    e: EntityView,
    renamed: Seq<(Text, Text)>,
) -> bool {
    match inv.requirement {
        RequirementView::CoWrite(g) => sets_non_null(e, g),
        RequirementView::Guard(key) => has_key(
            keys_of(m, e, inv.field),
            match text::parted(key, "call:"@) {
                Some((neg, id)) => neg + "call:"@ + new_name(renamed, id),
                None => key,
            },
        ),
    }
}

/// What an entity is called after the renames.
pub open spec fn new_name(renamed: Seq<(Text, Text)>, id: Text) -> Text {
    match lookup(renamed, id) {
        Some(n) => n,
        None => id,
    }
}

// ---- execution

/// Writers of `field := value`, creation included or not.
pub fn writers<'m>(
    model: &'m Model,
    field: &str,
    value: &str,
    include_creation: bool,
) -> (r: Vec<(&'m Entity, &'m WriteFact)>)
    ensures
        r.deep_view() == writers_from(
            model.deep_view().entities,
            field@,
            value@,
            include_creation,
            0,
        ),
{
    let ghost ev = model.deep_view().entities;
    let mut out: Vec<(&'m Entity, &'m WriteFact)> = list::empty();
    let mut i: usize = 0;
    while i < model.entities.len()
        invariant
            i <= ev.len(),
            ev == model.deep_view().entities,
            out.deep_view() + writers_from(ev, field@, value@, include_creation, i as int)
                == writers_from(ev, field@, value@, include_creation, 0),
        decreases ev.len() - i,
    {
        let e = model.entities.value(i);
        let ghost v = e.deep_view();
        let ghost before = out.deep_view();
        let mut j: usize = 0;
        while j < e.writes.len()
            invariant
                j <= e.writes@.len(),
                v == e.deep_view(),
                out.deep_view() + writers_in(v, field@, value@, include_creation, j as int)
                    == before + writers_in(v, field@, value@, include_creation, 0),
            decreases e.writes@.len() - j,
        {
            let w = &e.writes[j];
            assert(w.deep_view() == v.writes[j as int]);
            let same_value = match &w.value {
                Some(x) => text::same(x, value),
                None => false,
            };
            if text::same(&w.field, field) && same_value && (include_creation || !w.creation) {
                let ghost prior = out.deep_view();
                list::push(&mut out, (e, w));
                assert(out.deep_view() =~= prior + seq![(v, v.writes[j as int])]);
            }
            j += 1;
        }
        assert(out.deep_view() =~= before + writers_in(v, field@, value@, include_creation, 0));
        i += 1;
    }
    out
}

/// The entity writes `field` with something other than null.
pub fn writes_non_null(e: &Entity, field: &str) -> (r: bool)
    ensures
        r == sets_non_null(e.deep_view(), field@),
{
    let ghost v = e.deep_view();
    let mut i: usize = 0;
    while i < e.writes.len()
        invariant
            i <= e.writes@.len(),
            v == e.deep_view(),
            forall|j: int|
                0 <= j < i ==> !((#[trigger] v.writes[j]).field == field@ && v.writes[j].value
                    != Some("null"@)),
        decreases e.writes@.len() - i,
    {
        let w = &e.writes[i];
        assert(w.deep_view() == v.writes[i as int]);
        let null = match &w.value {
            Some(x) => text::same(x, "null"),
            None => false,
        };
        if text::same(&w.field, field) && !null {
            return true;
        }
        i += 1;
    }
    false
}

/// Guard keys an entity requires, excluding guards on `state_field` itself
/// (those are captured by the state machine).
pub fn guard_keys(model: &Model, e: &Entity, state_field: &str) -> (r: Vec<(String, Pred)>)
    requires
        lookup(model.deep_view().summaries, e.deep_view().id) is Some,
    ensures
        r.deep_view() == keys_of(model.deep_view(), e.deep_view(), state_field@),
{
    let mut out: Vec<(String, Pred)> = list::empty();
    if let Some(s) = model.summaries.get(&e.id) {
        let ghost v = s.requirements.deep_view();
        let mut i: usize = 0;
        while i < s.requirements.len()
            invariant
                i <= s.requirements@.len(),
                v == s.requirements.deep_view(),
                out.deep_view() + keys_from(v, state_field@, i as int) == keys_from(
                    v,
                    state_field@,
                    0,
                ),
            decreases s.requirements@.len() - i,
        {
            let g = &s.requirements[i];
            assert(v[i as int] == (g.0@, g.1.deep_view(), g.2.deep_view()));
            let about = match g.1.field() {
                Some(f) => text::same(f, state_field),
                None => false,
            };
            if !about {
                list::push(&mut out, (g.0.dup(), g.1.dup()));
            }
            i += 1;
        }
    }
    out
}

fn confidence(support: usize) -> (r: u32)
    ensures
        r == confidence_of(support as int),
        support >= 1 ==> 50 <= r < 100,
{
    proof {
        if support >= 1 {
            inferred_is_below_certain(support as int, support as int);
        }
    }
    let s: u128 = support as u128;
    let n: u128 = 201 * s + 1;
    let d: u128 = 2 * s + 2;
    assert(n / d <= 100) by (nonlinear_arith)
        requires
            n == 201 * s + 1,
            d == 2 * s + 2,
    ;
    if n / d < 100 {
        (n / d) as u32
    } else {
        99
    }
}

fn places_of(ws: &Vec<(&Entity, &WriteFact)>) -> (r: Vec<Loc>)
    ensures
        r.deep_view() == places(ws.deep_view()),
{
    let ghost v = ws.deep_view();
    let mut out: Vec<Loc> = list::empty();
    let mut i: usize = 0;
    while i < ws.len()
        invariant
            i <= ws@.len(),
            v == ws.deep_view(),
            out.deep_view() == places(v).take(i as int),
        decreases ws@.len() - i,
    {
        assert(v[i as int] == ws@[i as int].deep_view());
        list::push(&mut out, ws[i].1.loc.dup());
        i += 1;
        assert(out.deep_view() =~= places(v).take(i as int));
    }
    assert(places(v).take(v.len() as int) =~= places(v));
    out
}

fn shared_writes(ws: &Vec<(&Entity, &WriteFact)>, field: &String) -> (r: SortedSet<String>)
    ensures
        r.deep_view() == cowritten_by_all(ws.deep_view(), field@, 0, None),
{
    let ghost v = ws.deep_view();
    let mut acc: Option<SortedSet<String>> = None;
    let mut i: usize = 0;
    while i < ws.len()
        invariant
            i <= ws@.len(),
            v == ws.deep_view(),
            cowritten_by_all(v, field@, i as int, acc.deep_view()) == cowritten_by_all(
                v,
                field@,
                0,
                None,
            ),
        decreases ws@.len() - i,
    {
        let e = ws[i].0;
        let ghost ev = e.deep_view();
        assert(v[i as int].0 == ev);
        let mut here: SortedSet<String> = SortedSet::new();
        let mut j: usize = 0;
        while j < e.writes.len()
            invariant
                j <= e.writes@.len(),
                ev == e.deep_view(),
                cowritten(ev, field@, j as int, here.deep_view()) == cowritten(
                    ev,
                    field@,
                    0,
                    seq![],
                ),
            decreases e.writes@.len() - j,
        {
            let w = &e.writes[j];
            assert(w.deep_view() == ev.writes[j as int]);
            let null = match &w.value {
                Some(x) => text::same(x, "null"),
                None => false,
            };
            if !w.field.alike(field) && !null {
                here.insert(w.field.dup());
            }
            j += 1;
        }
        acc = Some(
            match &acc {
                None => here,
                Some(c) => c.intersection(&here),
            },
        );
        i += 1;
    }
    match acc {
        Some(c) => c,
        None => SortedSet::new(),
    }
}

fn among(keys: &Vec<(String, Pred)>, key: &str) -> (r: bool)
    ensures
        r == has_key(keys.deep_view(), key@),
{
    let ghost v = keys.deep_view();
    let mut i: usize = 0;
    while i < keys.len()
        invariant
            i <= keys@.len(),
            v == keys.deep_view(),
            forall|j: int| 0 <= j < i ==> (#[trigger] v[j]).0 != key@,
        decreases keys@.len() - i,
    {
        assert(v[i as int].0 == keys@[i as int].0@);
        if text::same(&keys[i].0, key) {
            return true;
        }
        i += 1;
    }
    false
}

fn kept(keys: &Vec<(String, Pred)>, others: &Vec<(String, Pred)>) -> (r: Vec<(String, Pred)>)
    ensures
        r.deep_view() == keys_kept(keys.deep_view(), others.deep_view(), 0),
{
    let ghost v = keys.deep_view();
    let ghost o = others.deep_view();
    let mut out: Vec<(String, Pred)> = list::empty();
    let mut i: usize = 0;
    while i < keys.len()
        invariant
            i <= keys@.len(),
            v == keys.deep_view(),
            o == others.deep_view(),
            out.deep_view() + keys_kept(v, o, i as int) == keys_kept(v, o, 0),
        decreases keys@.len() - i,
    {
        assert(v[i as int].0 == keys@[i as int].0@);
        if among(others, &keys[i].0) {
            list::push(&mut out, keys[i].dup());
        }
        i += 1;
    }
    out
}

/// Every writer of a value is an entity of the model.
pub proof fn writers_are_entities(
    entities: Seq<(Text, EntityView)>,
    field: Text,
    value: Text,
    creations: bool,
    i: int,
)
    requires
        0 <= i <= entities.len(),
    ensures
        forall|k: int|
            0 <= k < writers_from(entities, field, value, creations, i).len() ==> exists|n: int|
                0 <= n < entities.len() && (#[trigger] entities[n]).1 == (#[trigger] writers_from(
                    entities,
                    field,
                    value,
                    creations,
                    i,
                )[k]).0,
    decreases entities.len() - i,
{
    if i < entities.len() {
        writers_are_entities(entities, field, value, creations, i + 1);
        writers_in_is(entities[i].1, field, value, creations, 0);
        let head = writers_in(entities[i].1, field, value, creations, 0);
        let rest = writers_from(entities, field, value, creations, i + 1);
        assert forall|k: int| 0 <= k < (head + rest).len() implies exists|n: int|
            0 <= n < entities.len() && (#[trigger] entities[n]).1 == (#[trigger] (head
                + rest)[k]).0 by {
            if k < head.len() {
                assert((head + rest)[k] == head[k]);
                assert(entities[i].1 == (head + rest)[k].0);
            } else {
                assert((head + rest)[k] == rest[k - head.len()]);
            }
        }
    }
}

proof fn writers_in_is(e: EntityView, field: Text, value: Text, creations: bool, i: int)
    requires
        0 <= i <= e.writes.len(),
    ensures
        forall|k: int|
            0 <= k < writers_in(e, field, value, creations, i).len() ==> (
            #[trigger] writers_in(e, field, value, creations, i)[k]).0 == e,
    decreases e.writes.len() - i,
{
    if i < e.writes.len() {
        writers_in_is(e, field, value, creations, i + 1);
    }
}

fn shared_guards(model: &Model, ws: &Vec<(&Entity, &WriteFact)>, field: &String) -> (r: Vec<
    (String, Pred),
>)
    requires
        forall|k: int|
            0 <= k < ws@.len() ==> lookup(
                model.deep_view().summaries,
                (#[trigger] ws.deep_view()[k]).0.id,
            ) is Some,
    ensures
        r.deep_view() == guarded_by_all(model.deep_view(), ws.deep_view(), field@, 0, None),
{
    let ghost m = model.deep_view();
    let ghost v = ws.deep_view();
    let mut acc: Option<Vec<(String, Pred)>> = None;
    let mut i: usize = 0;
    while i < ws.len()
        invariant
            i <= ws@.len(),
            m == model.deep_view(),
            v == ws.deep_view(),
            forall|k: int|
                0 <= k < ws@.len() ==> lookup(m.summaries, (#[trigger] v[k]).0.id) is Some,
            guarded_by_all(m, v, field@, i as int, acc.deep_view()) == guarded_by_all(
                m,
                v,
                field@,
                0,
                None,
            ),
        decreases ws@.len() - i,
    {
        let e = ws[i].0;
        assert(v[i as int].0 == e.deep_view());
        let here = guard_keys(model, e, field);
        acc = Some(
            match &acc {
                None => here,
                Some(c) => kept(c, &here),
            },
        );
        i += 1;
    }
    match acc {
        Some(c) => c,
        None => list::empty(),
    }
}

fn mine_value(model: &Model, field: &String, value: &String) -> (r: Vec<Invariant>)
    requires
        complete(model.deep_view()),
    ensures
        r.deep_view() == mined_of(model.deep_view(), field@, value@),
{
    let ghost m = model.deep_view();
    let mut out: Vec<Invariant> = list::empty();
    let all = writers(model, field, value, true);
    let ghost av = all.deep_view();
    if all.len() >= 2 {
        let gs = shared_writes(&all, field);
        let ghost gv = gs.deep_view();
        let mut i: usize = 0;
        while i < gs.len()
            invariant
                i <= gv.len(),
                av == all.deep_view(),
                gv == gs.deep_view(),
                out.deep_view() + cowrites_from(field@, value@, av, gv, i as int)
                    == cowrites_from(field@, value@, av, gv, 0),
            decreases gv.len() - i,
        {
            let g = gs.item(i);
            list::push(
                &mut out,
                Invariant {
                    key: text::cat6("cowrite:", field, "=", value, "=>", g),
                    statement: text::cat6(field, " := ", value, " ⇒ ", g, " is set"),
                    field: field.dup(),
                    value: value.dup(),
                    requirement: Requirement::CoWrite(g.dup()),
                    support: all.len(),
                    confidence: confidence(all.len()),
                    evidence: places_of(&all),
                },
            );
            i += 1;
        }
    }
    let ghost before = out.deep_view();
    let later = writers(model, field, value, false);
    let ghost lv = later.deep_view();
    proof {
        writers_are_entities(m.entities, field@, value@, false, 0);
    }
    let gs = shared_guards(model, &later, field);
    let ghost gv = gs.deep_view();
    let mut i: usize = 0;
    while i < gs.len()
        invariant
            i <= gs@.len(),
            lv == later.deep_view(),
            gv == gs.deep_view(),
            out.deep_view() + guards_from(field@, value@, lv, gv, i as int) == before
                + guards_from(field@, value@, lv, gv, 0),
        decreases gs@.len() - i,
    {
        let g = &gs[i];
        assert(gv[i as int] == (g.0@, g.1.deep_view()));
        list::push(
            &mut out,
            Invariant {
                key: text::cat6("guard:", field, "=", value, "=>", &g.0),
                statement: text::cat5(field, " := ", value, " requires ", &g.1.render()),
                field: field.dup(),
                value: value.dup(),
                requirement: Requirement::Guard(g.0.dup()),
                support: later.len(),
                confidence: confidence(later.len()),
                evidence: places_of(&later),
            },
        );
        i += 1;
    }
    out
}

/// The invariants that the writers of each state value have in common.
pub fn mine(model: &Model) -> (r: Vec<Invariant>)
    requires
        complete(model.deep_view()),
    ensures
        r.deep_view() == mined(model.deep_view()),
{
    let ghost m = model.deep_view();
    let mut out: Vec<Invariant> = list::empty();
    let mut i: usize = 0;
    while i < model.state_machines.len()
        invariant
            i <= m.state_machines.len(),
            m == model.deep_view(),
            complete(m),
            out.deep_view() + mined_from(m, i as int) == mined_from(m, 0),
        decreases m.state_machines.len() - i,
    {
        let sm = model.state_machines.value(i);
        let values = sm.targets();
        let ghost field = sm.field@;
        let ghost vv = values.deep_view();
        let ghost before = out.deep_view();
        let mut j: usize = 0;
        while j < values.len()
            invariant
                j <= vv.len(),
                m == model.deep_view(),
                complete(m),
                field == sm.field@,
                vv == values.deep_view(),
                out.deep_view() + mined_values(m, field, vv, j as int) == before + mined_values(
                    m,
                    field,
                    vv,
                    0,
                ),
            decreases vv.len() - j,
        {
            let found = mine_value(model, &sm.field, values.item(j));
            list::append(&mut out, found);
            j += 1;
        }
        assert(out.deep_view() =~= before + mined_values(m, field, vv, 0));
        i += 1;
    }
    out
}

/// Does `writer` (in `model`) satisfy `inv`? `rename` maps entity ids of the
/// model the invariant was mined in to ids in `model`; an id it does not name is
/// the same in both.
pub fn satisfies(
    model: &Model,
    inv: &Invariant,
    writer: &Entity,
    rename: &SortedMap<String, String>,
) -> (r: bool)
    requires
        lookup(model.deep_view().summaries, writer.deep_view().id) is Some,
    ensures
        r == meets(
            model.deep_view(),
            inv.deep_view(),
            writer.deep_view(),
            rename.deep_view(),
        ),
{
    match &inv.requirement {
        Requirement::CoWrite(g) => writes_non_null(writer, g),
        Requirement::Guard(key) => {
            let wanted = match text::split_once(key, "call:") {
                Some((neg, id)) => match rename.get(&id) {
                    Some(n) => text::cat3(&neg, "call:", n),
                    None => text::cat3(&neg, "call:", &id),
                },
                None => key.dup(),
            };
            let keys = guard_keys(model, writer, &inv.field);
            among(&keys, &wanted)
        },
    }
}

} // verus!
