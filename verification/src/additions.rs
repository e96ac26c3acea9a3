//! New code, described by what it does, and changes to validation schemas.

use crate::behaviour::{filter_texts, texts_of};
use crate::infer::new_name;
use crate::ir::{Loc, LocView};
use crate::list;
use crate::list::{deduped, Plain};
use crate::matching::{Matching, MatchingView};
use crate::model::{
    entry_points, outside_checks, EffectInfo, EffectKey, Entity, EntityKind, EntityView, Model,
    ModelView, SchemaFact, SchemaFactView, SummaryView,
};
use crate::nesting::{closures_from, scoped, scoped_filters};
use crate::ops::{found, found_op, short, short_name, Layer, Op, OpView};
use crate::ordered;
use crate::ordered::{added, keys, lookup, sorted, SortedMap, SortedSet};
use crate::pred::{pred_text, Pred, PredView};
use crate::structure::effect_texts;
use crate::text;
use crate::text::Text;
use vstd::prelude::*;

verus! {

// ---- description

/// The items after a label, at most eight of them; none where there are no items.
pub open spec fn labelled(label: Text, items: Seq<Text>) -> Seq<Text> {
    let items = deduped(items);
    if items.len() == 0 {
        seq![]
    } else if items.len() > 8 {
        seq![
            label + ": "@ + text::joined(items.take(8), ", "@) + (", +"@ + text::decimal(
                (items.len() - 8) as nat,
            ) + " more"@),
        ]
    } else {
        seq![label + ": "@ + text::joined(items, ", "@) + ""@]
    }
}

/// The meanings of guards.
pub open spec fn guard_texts(guards: Seq<(Text, PredView, LocView)>) -> Seq<Text> {
    Seq::new(guards.len(), |i: int| pred_text(guards[i].1))
}

/// The names of checks.
pub open spec fn check_names(checks: Seq<(Text, LocView)>) -> Seq<Text> {
    Seq::new(checks.len(), |i: int| short_name(checks[i].0))
}

/// What an entity does, part by part: effects reached, access required, query filters
/// (closures included), guards, validations and fields written.
pub open spec fn description_parts(m: ModelView, id: Text, s: SummaryView) -> Seq<Text> {
    labelled("effects"@, effect_texts(outside_checks(m, id))) + labelled("requires"@, keys(s.access))
        + labelled("filters"@, sorted(filter_texts(scoped(m, id)))) + labelled(
        "guards"@,
        guard_texts(s.requirements),
    ) + labelled("validates"@, check_names(s.validations)) + labelled("writes"@, s.writes)
}

/// What an entity does, in one line; nothing when it does none of these.
pub open spec fn description(m: ModelView, id: Text) -> Option<Text> {
    match lookup(m.summaries, id) {
        Some(s) => {
            let parts = description_parts(m, id, s);
            if parts.len() == 0 {
                None
            } else {
                Some(text::joined(parts, "; "@))
            }
        },
        None => None,
    }
}

fn put_label(label: &str, items: &Vec<String>) -> (r: Vec<String>)
    ensures
        r.deep_view() == labelled(label@, items.deep_view()),
{
    let items = list::dedup(items);
    if items.len() == 0 {
        return list::empty();
    }
    if items.len() > 8 {
        let ghost v = items.deep_view();
        let mut first: Vec<String> = list::empty();
        let mut i: usize = 0;
        while i < 8
            invariant
                i <= 8,
                items@.len() > 8,
                v == items.deep_view(),
                first.deep_view() == v.take(i as int),
            decreases 8 - i,
        {
            list::push(&mut first, items[i].dup());
            i += 1;
            assert(first.deep_view() =~= v.take(i as int));
        }
        let more = text::cat3(", +", &text::number((items.len() - 8) as u64), " more");
        list::one(text::cat4(label, ": ", &text::join(&first, ", "), &more))
    } else {
        list::one(text::cat4(label, ": ", &text::join(&items, ", "), ""))
    }
}

fn effect_lines(effects: &Vec<(EffectKey, EffectInfo)>) -> (r: Vec<String>)
    ensures
        r.deep_view() == effect_texts(effects.deep_view()),
{
    let ghost v = effects.deep_view();
    let mut out: Vec<String> = list::empty();
    let mut i: usize = 0;
    while i < effects.len()
        invariant
            i <= effects@.len(),
            v == effects.deep_view(),
            out.deep_view() == effect_texts(v).take(i as int),
        decreases effects@.len() - i,
    {
        assert(v[i as int].0 == effects@[i as int].0.deep_view());
        list::push(&mut out, effects[i].0.render());
        i += 1;
        assert(out.deep_view() =~= effect_texts(v).take(i as int));
    }
    assert(effect_texts(v).take(v.len() as int) =~= effect_texts(v));
    out
}

fn guard_lines(guards: &Vec<(String, Pred, Loc)>) -> (r: Vec<String>)
    ensures
        r.deep_view() == guard_texts(guards.deep_view()),
{
    let ghost v = guards.deep_view();
    let mut out: Vec<String> = list::empty();
    let mut i: usize = 0;
    while i < guards.len()
        invariant
            i <= guards@.len(),
            v == guards.deep_view(),
            out.deep_view() == guard_texts(v).take(i as int),
        decreases guards@.len() - i,
    {
        assert(v[i as int].1 == guards@[i as int].1.deep_view());
        list::push(&mut out, guards[i].1.render());
        i += 1;
        assert(out.deep_view() =~= guard_texts(v).take(i as int));
    }
    assert(guard_texts(v).take(v.len() as int) =~= guard_texts(v));
    out
}

fn names_of(checks: &SortedMap<String, Loc>) -> (r: Vec<String>)
    ensures
        r.deep_view() == check_names(checks.deep_view()),
{
    let ghost v = checks.deep_view();
    let mut out: Vec<String> = list::empty();
    let mut i: usize = 0;
    while i < checks.len()
        invariant
            i <= v.len(),
            v == checks.deep_view(),
            out.deep_view() == check_names(v).take(i as int),
        decreases v.len() - i,
    {
        list::push(&mut out, short(checks.key(i)));
        i += 1;
        assert(out.deep_view() =~= check_names(v).take(i as int));
    }
    assert(check_names(v).take(v.len() as int) =~= check_names(v));
    out
}

/// What an entity does, in one line: effects reached, access required, query filters
/// (closures included), guards, validations and fields written. `None` when it does none of
/// these.
pub fn describe(model: &Model, kids: &SortedMap<String, Vec<String>>, id: &str) -> (r: Option<String>)
    requires
        kids.deep_view() == closures_from(model.deep_view().entities, 0, seq![]),
    ensures
        r.deep_view() == description(model.deep_view(), id@),
{
    let s = match model.summaries.find(id) {
        Some(s) => s,
        None => {
            return None;
        },
    };
    let mut parts = put_label("effects", &effect_lines(&model.effects_outside_checks(id)));
    list::append(&mut parts, put_label("requires", &s.access.keys()));
    let filters = ordered::sort(texts_of(&scoped_filters(model, kids, id)));
    list::append(&mut parts, put_label("filters", &filters));
    list::append(&mut parts, put_label("guards", &guard_lines(&s.requirements)));
    list::append(&mut parts, put_label("validates", &names_of(&s.validations)));
    list::append(&mut parts, put_label("writes", &s.writes.list()));
    if parts.len() == 0 {
        None
    } else {
        Some(text::join(&parts, "; "))
    }
}

// ---- new code

/// The subjects of the operations from index `i` on that are not about structure, added to
/// `acc`.
pub open spec fn subjects_from(ops: Seq<OpView>, i: int, acc: Seq<Text>) -> Seq<Text>
    decreases ops.len() - i,
{
    if 0 <= i < ops.len() {
        subjects_from(
            ops,
            i + 1,
            if ops[i].layer == Layer::Structure {
                acc
            } else {
                added(acc, ops[i].subject)
            },
        )
    } else {
        acc
    }
}

/// An entity calls `id`.
pub open spec fn calls(e: EntityView, id: Text) -> bool {
    exists|j: int| 0 <= j < e.calls.len() && (#[trigger] e.calls[j]).target == id
}

/// A caller that the old version had, and whose behaviour did not change.
pub open spec fn calls_as_before(m: MatchingView, changed: Seq<Text>, caller: EntityView) -> bool {
    lookup(m.backward, caller.id) is Some && !changed.contains(caller.id)
}

/// Code that was only moved into a function of its own: every caller existed before and
/// behaves as it did.
pub open spec fn was_extracted(b: ModelView, m: MatchingView, changed: Seq<Text>, id: Text) -> bool {
    (exists|i: int| 0 <= i < b.entities.len() && calls((#[trigger] b.entities[i]).1, id))
        && forall|i: int|
        0 <= i < b.entities.len() && calls((#[trigger] b.entities[i]).1, id) ==> calls_as_before(
            m,
            changed,
            b.entities[i].1,
        )
}

/// The new entities from index `i` on, each described by what it does, unless it was extracted.
pub open spec fn new_code(b: ModelView, m: MatchingView, changed: Seq<Text>, i: int) -> Seq<OpView>
    decreases b.entities.len() - i,
{
    if 0 <= i < b.entities.len() {
        let (id, e) = b.entities[i];
        (if lookup(m.backward, id) is Some || e.parent is Some || e.kind == EntityKind::Constructor
            || was_extracted(b, m, changed, id) {
            seq![]
        } else {
            match description(b, id) {
                Some(said) => seq![
                    OpView {
                        affects: entry_points(b, id),
                        ..found(
                            "BEHAVIOUR_ADDED"@,
                            Layer::Behaviour,
                            id,
                            None,
                            Some(said),
                            seq![],
                            seq![e.loc],
                        )
                    },
                ],
                None => seq![],
            }
        }) + new_code(b, m, changed, i + 1)
    } else {
        seq![]
    }
}

/// The subjects of the operations that are not about structure.
pub fn subjects(ops: &Vec<Op>) -> (r: SortedSet<String>)
    ensures
        r.deep_view() == subjects_from(ops.deep_view(), 0, seq![]),
{
    let ghost v = ops.deep_view();
    let mut out: SortedSet<String> = SortedSet::new();
    let mut i: usize = 0;
    while i < ops.len()
        invariant
            i <= ops@.len(),
            v == ops.deep_view(),
            subjects_from(v, i as int, out.deep_view()) == subjects_from(v, 0, seq![]),
        decreases ops@.len() - i,
    {
        assert(v[i as int] == ops@[i as int].deep_view());
        if ops[i].layer != Layer::Structure {
            out.insert(ops[i].subject.dup());
        }
        i += 1;
    }
    out
}

/// The entity calls `id`.
pub fn has_call(e: &Entity, id: &str) -> (r: bool)
    ensures
        r == calls(e.deep_view(), id@),
{
    let ghost v = e.deep_view().calls;
    let mut i: usize = 0;
    while i < e.calls.len()
        invariant
            i <= e.calls@.len(),
            v == e.deep_view().calls,
            forall|k: int| 0 <= k < i ==> (#[trigger] v[k]).target != id@,
        decreases e.calls@.len() - i,
    {
        assert(v[i as int] == e.calls@[i as int].deep_view());
        if text::same(&e.calls[i].target, id) {
            return true;
        }
        i += 1;
    }
    false
}

fn extracted(b: &Model, m: &Matching, changed: &SortedSet<String>, id: &String) -> (r: bool)
    ensures
        r == was_extracted(b.deep_view(), m.deep_view(), changed.deep_view(), id@),
{
    let ghost bv = b.deep_view();
    let ghost mv = m.deep_view();
    let ghost cv = changed.deep_view();
    let mut called = false;
    let mut i: usize = 0;
    while i < b.entities.len()
        invariant
            i <= bv.entities.len(),
            bv == b.deep_view(),
            mv == m.deep_view(),
            cv == changed.deep_view(),
            called == (exists|k: int|
                0 <= k < i && calls((#[trigger] bv.entities[k]).1, id@)),
            forall|k: int|
                0 <= k < i && calls((#[trigger] bv.entities[k]).1, id@) ==> calls_as_before(
                    mv,
                    cv,
                    bv.entities[k].1,
                ),
        decreases bv.entities.len() - i,
    {
        let e = b.entities.value(i);
        if has_call(e, id) {
            called = true;
            assert(calls(bv.entities[i as int].1, id@));
            if !(m.backward.contains_key(&e.id) && !changed.contains(&e.id)) {
                assert(!calls_as_before(mv, cv, bv.entities[i as int].1));
                return false;
            }
        }
        i += 1;
    }
    called
}

/// New code, described by what it does. `changed` are the entities whose behaviour changed,
/// `kids` the closures of the new version.
pub fn added_behaviour(
    b: &Model,
    m: &Matching,
    kids: &SortedMap<String, Vec<String>>,
    changed: &SortedSet<String>,
) -> (r: Vec<Op>)
    requires
        kids.deep_view() == closures_from(b.deep_view().entities, 0, seq![]),
    ensures
        r.deep_view() == new_code(b.deep_view(), m.deep_view(), changed.deep_view(), 0),
{
    let ghost bv = b.deep_view();
    let ghost mv = m.deep_view();
    let ghost cv = changed.deep_view();
    let mut out: Vec<Op> = list::empty();
    let mut i: usize = 0;
    while i < b.entities.len()
        invariant
            i <= bv.entities.len(),
            bv == b.deep_view(),
            mv == m.deep_view(),
            cv == changed.deep_view(),
            kids.deep_view() == closures_from(bv.entities, 0, seq![]),
            out.deep_view() + new_code(bv, mv, cv, i as int) == new_code(bv, mv, cv, 0),
        decreases bv.entities.len() - i,
    {
        let id = b.entities.key(i);
        let e = b.entities.value(i);
        if !m.backward.contains_key(id) && e.parent.is_none() && e.kind != EntityKind::Constructor
            && !extracted(b, m, changed, id) {
            if let Some(said) = describe(b, kids, id) {
                let mut op = found_op(
                    "BEHAVIOUR_ADDED",
                    Layer::Behaviour,
                    id,
                    None,
                    Some(said),
                    list::empty(),
                    list::one(e.loc.dup()),
                );
                op.affects = b.entry_points_reaching(id);
                list::push(&mut out, op);
            }
        }
        i += 1;
    }
    out
}

// ---- validation schemas

/// The module and the name of a schema.
pub open spec fn schema_name(key: Text) -> (Text, Text) {
    match text::parted(key, "::"@) {
        Some(p) => p,
        None => (""@, key),
    }
}

/// The schema from index `i` on that has this name and whose module became `module`.
pub open spec fn old_schema(
    schemas: Seq<(Text, SchemaFactView)>,
    modules: Seq<(Text, Text)>,
    module: Text,
    name: Text,
    i: int,
) -> Option<SchemaFactView>
    decreases schemas.len() - i,
{
    if 0 <= i < schemas.len() {
        let here = match text::parted(schemas[i].0, "::"@) {
            Some((ma, na)) => na == name && new_name(modules, ma) == module,
            None => false,
        };
        if here {
            Some(schemas[i].1)
        } else {
            old_schema(schemas, modules, module, name, i + 1)
        }
    } else {
        None
    }
}

/// The subject of a change to a field; `*` is the schema as a whole (refinements, strictness).
pub open spec fn schema_subject(key: Text, field: Text) -> Text {
    if field == "*"@ {
        key
    } else {
        key + "."@ + field
    }
}

/// The kind of a change to a field.
pub open spec fn schema_kind(kind: Text, field: Text) -> Text {
    if field == "*"@ {
        "SCHEMA_CHANGED"@
    } else {
        kind
    }
}

/// The fields of the new schema from index `i` on that came or changed.
pub open spec fn field_gains(key: Text, sa: SchemaFactView, sb: SchemaFactView, i: int) -> Seq<OpView>
    decreases sb.fields.len() - i,
{
    if 0 <= i < sb.fields.len() {
        let (f, cb) = sb.fields[i];
        (match lookup(sa.fields, f) {
            None => seq![
                found(
                    schema_kind("SCHEMA_FIELD_ADDED"@, f),
                    Layer::Behaviour,
                    schema_subject(key, f),
                    None,
                    Some(cb),
                    seq![],
                    seq![sb.loc],
                ),
            ],
            Some(ca) => if ca != cb {
                seq![
                    found(
                        schema_kind("SCHEMA_FIELD_CHANGED"@, f),
                        Layer::Behaviour,
                        schema_subject(key, f),
                        Some(ca),
                        Some(cb),
                        seq![sa.loc],
                        seq![sb.loc],
                    ),
                ]
            } else {
                seq![]
            },
        }) + field_gains(key, sa, sb, i + 1)
    } else {
        seq![]
    }
}

/// The fields of the old schema from index `i` on that left.
pub open spec fn field_losses(key: Text, sa: SchemaFactView, sb: SchemaFactView, i: int) -> Seq<OpView>
    decreases sa.fields.len() - i,
{
    if 0 <= i < sa.fields.len() {
        let (f, ca) = sa.fields[i];
        (if lookup(sb.fields, f) is Some {
            seq![]
        } else {
            seq![
                found(
                    schema_kind("SCHEMA_FIELD_REMOVED"@, f),
                    Layer::Behaviour,
                    schema_subject(key, f),
                    Some(ca),
                    None,
                    seq![sa.loc],
                    seq![],
                ),
            ]
        }) + field_losses(key, sa, sb, i + 1)
    } else {
        seq![]
    }
}

/// The changes to the schemas from index `i` on that both versions have.
pub open spec fn schema_changes(a: ModelView, b: ModelView, modules: Seq<(Text, Text)>, i: int) -> Seq<OpView>
    decreases b.schemas.len() - i,
{
    if 0 <= i < b.schemas.len() {
        let (key, sb) = b.schemas[i];
        let (module, name) = schema_name(key);
        (match old_schema(a.schemas, modules, module, name, 0) {
            Some(sa) => field_gains(key, sa, sb, 0) + field_losses(key, sa, sb, 0),
            None => seq![],
        }) + schema_changes(a, b, modules, i + 1)
    } else {
        seq![]
    }
}

fn find_old<'m>(
    schemas: &'m SortedMap<String, SchemaFact>,
    m: &Matching,
    module: &String,
    name: &String,
) -> (r: Option<&'m SchemaFact>)
    ensures
        r.deep_view() == old_schema(
            schemas.deep_view(),
            m.deep_view().modules,
            module@,
            name@,
            0,
        ),
{
    let ghost v = schemas.deep_view();
    let ghost mv = m.deep_view().modules;
    let mut i: usize = 0;
    while i < schemas.len()
        invariant
            i <= v.len(),
            v == schemas.deep_view(),
            mv == m.deep_view().modules,
            old_schema(v, mv, module@, name@, 0) == old_schema(v, mv, module@, name@, i as int),
        decreases v.len() - i,
    {
        if let Some((ma, na)) = text::split_once(schemas.key(i), "::") {
            if na.alike(name) && m.module_to_after(&ma).alike(module) {
                return Some(schemas.value(i));
            }
        }
        i += 1;
    }
    None
}

fn subject_of(key: &String, field: &String) -> (r: String)
    ensures
        r@ == schema_subject(key@, field@),
{
    if text::same(field, "*") {
        key.dup()
    } else {
        text::cat3(key, ".", field)
    }
}

fn kind_of<'k>(kind: &'k str, field: &String) -> (r: &'k str)
    ensures
        r@ == schema_kind(kind@, field@),
{
    if text::same(field, "*") {
        "SCHEMA_CHANGED"
    } else {
        kind
    }
}

fn changed_fields(key: &String, sa: &SchemaFact, sb: &SchemaFact) -> (r: Vec<Op>)
    ensures
        r.deep_view() == field_gains(key@, sa.deep_view(), sb.deep_view(), 0) + field_losses(
            key@,
            sa.deep_view(),
            sb.deep_view(),
            0,
        ),
{
    let ghost av = sa.deep_view();
    let ghost bv = sb.deep_view();
    let mut out: Vec<Op> = list::empty();
    let mut i: usize = 0;
    while i < sb.fields.len()
        invariant
            i <= bv.fields.len(),
            av == sa.deep_view(),
            bv == sb.deep_view(),
            out.deep_view() + field_gains(key@, av, bv, i as int) == field_gains(key@, av, bv, 0),
        decreases bv.fields.len() - i,
    {
        let f = sb.fields.key(i);
        let cb = sb.fields.value(i);
        match sa.fields.get(f) {
            None => {
                list::push(
                    &mut out,
                    found_op(
                        kind_of("SCHEMA_FIELD_ADDED", f),
                        Layer::Behaviour,
                        &subject_of(key, f),
                        None,
                        Some(cb.dup()),
                        list::empty(),
                        list::one(sb.loc.dup()),
                    ),
                );
            },
            Some(ca) => {
                if !ca.alike(cb) {
                    list::push(
                        &mut out,
                        found_op(
                            kind_of("SCHEMA_FIELD_CHANGED", f),
                            Layer::Behaviour,
                            &subject_of(key, f),
                            Some(ca.dup()),
                            Some(cb.dup()),
                            list::one(sa.loc.dup()),
                            list::one(sb.loc.dup()),
                        ),
                    );
                }
            },
        }
        i += 1;
    }
    let ghost first = out.deep_view();
    i = 0;
    while i < sa.fields.len()
        invariant
            i <= av.fields.len(),
            av == sa.deep_view(),
            bv == sb.deep_view(),
            out.deep_view() + field_losses(key@, av, bv, i as int) == first + field_losses(
                key@,
                av,
                bv,
                0,
            ),
        decreases av.fields.len() - i,
    {
        let f = sa.fields.key(i);
        if !sb.fields.contains_key(f) {
            list::push(
                &mut out,
                found_op(
                    kind_of("SCHEMA_FIELD_REMOVED", f),
                    Layer::Behaviour,
                    &subject_of(key, f),
                    Some(sa.fields.value(i).dup()),
                    None,
                    list::one(sa.loc.dup()),
                    list::empty(),
                ),
            );
        }
        i += 1;
    }
    out
}

/// The changes to validation schemas that both versions have.
pub fn changed_schemas(a: &Model, b: &Model, m: &Matching) -> (r: Vec<Op>)
    ensures
        r.deep_view() == schema_changes(a.deep_view(), b.deep_view(), m.deep_view().modules, 0),
{
    let ghost av = a.deep_view();
    let ghost bv = b.deep_view();
    let ghost mv = m.deep_view().modules;
    let mut out: Vec<Op> = list::empty();
    let mut i: usize = 0;
    while i < b.schemas.len()
        invariant
            i <= bv.schemas.len(),
            av == a.deep_view(),
            bv == b.deep_view(),
            mv == m.deep_view().modules,
            out.deep_view() + schema_changes(av, bv, mv, i as int) == schema_changes(
                av,
                bv,
                mv,
                0,
            ),
        decreases bv.schemas.len() - i,
    {
        let key = b.schemas.key(i);
        let (module, name) = match text::split_once(key, "::") {
            Some(p) => p,
            None => ("".to_owned(), key.dup()),
        };
        if let Some(sa) = find_old(&a.schemas, m, &module, &name) {
            list::append(&mut out, changed_fields(key, sa, b.schemas.value(i)));
        }
        i += 1;
    }
    out
}

} // verus!
