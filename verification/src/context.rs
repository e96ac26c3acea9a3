//! What one function or method does, and what reaches it.

use crate::catalog::outcome;
use crate::ir;
use crate::ir::{Loc, LocView};
use crate::list;
use crate::list::Plain;
use crate::model;
use crate::model::{
    AccessFact, AccessFactView, CallFact, CallFactView, EffectInfo, EffectInfoView, EffectKey,
    EffectKeyView, Entity, EntityKind, EntityView, Model, ModelView, QueryFilter, QueryFilterView,
    SummaryView, Unknown, UnknownView,
};
use crate::ordered;
use crate::ordered::{SortedMap, SortedSet};
use crate::pipeline;
use crate::pred;
use crate::pred::{Pred, PredView};
use crate::render;
use crate::source::Files;
use crate::span;
use crate::summary;
use crate::text;
use crate::text::Text;
use crate::words;
use crate::words::ticked;
use vstd::prelude::*;

verus! {

/// Results are cut here, in bytes.
pub const MAX_OUTPUT: usize = 24_000;

// ---- finding

/// The entities from index `i` on with a qualified name.
pub open spec fn qualified_from(query: Text, xs: Seq<(Text, EntityView)>, i: int) -> Seq<Text>
    decreases xs.len() - i,
{
    if 0 <= i < xs.len() {
        (if text::after_last(xs[i].0, "::"@) == query {
            seq![xs[i].0]
        } else {
            seq![]
        }) + qualified_from(query, xs, i + 1)
    } else {
        seq![]
    }
}

fn qualified(query: &str, xs: &SortedMap<String, Entity>) -> (r: Vec<String>)
    ensures
        r.deep_view() == qualified_from(query@, xs.deep_view(), 0),
{
    let ghost v = xs.deep_view();
    let mut out: Vec<String> = list::empty();
    let mut i: usize = 0;
    while i < xs.len()
        invariant
            i <= v.len(),
            v == xs.deep_view(),
            out.deep_view() + qualified_from(query@, v, i as int) == qualified_from(query@, v, 0),
        decreases v.len() - i,
    {
        if text::same(&text::last_piece(xs.key(i), "::"), query) {
            list::push(&mut out, xs.key(i).dup());
        }
        i += 1;
    }
    out
}

/// The top-level entities from index `i` on with a bare name.
pub open spec fn bare_from(query: Text, xs: Seq<(Text, EntityView)>, i: int) -> Seq<Text>
    decreases xs.len() - i,
{
    if 0 <= i < xs.len() {
        (if xs[i].1.parent is None && xs[i].1.name == query {
            seq![xs[i].1.id]
        } else {
            seq![]
        }) + bare_from(query, xs, i + 1)
    } else {
        seq![]
    }
}

fn bare(query: &str, xs: &SortedMap<String, Entity>) -> (r: Vec<String>)
    ensures
        r.deep_view() == bare_from(query@, xs.deep_view(), 0),
{
    let ghost v = xs.deep_view();
    let mut out: Vec<String> = list::empty();
    let mut i: usize = 0;
    while i < xs.len()
        invariant
            i <= v.len(),
            v == xs.deep_view(),
            out.deep_view() + bare_from(query@, v, i as int) == bare_from(query@, v, 0),
        decreases v.len() - i,
    {
        let e = xs.value(i);
        if e.parent.is_none() && text::same(&e.name, query) {
            list::push(&mut out, e.id.dup());
        }
        i += 1;
    }
    out
}

/// The entities that match a full id, a qualified name or a bare name.
pub open spec fn matches_of(m: ModelView, query: Text) -> Seq<Text> {
    let exact = qualified_from(query, m.entities, 0);
    if ordered::lookup(m.entities, query) is Some {
        seq![query]
    } else if exact.len() > 0 {
        exact
    } else {
        bare_from(query, m.entities, 0)
    }
}

/// Entities matching a full id, a qualified name (`Class.method`) or a bare name.
pub fn find(m: &Model, query: &str) -> (r: Vec<String>)
    ensures
        r.deep_view() == matches_of(m.deep_view(), query@),
{
    if m.entities.has(query) {
        return list::one(query.to_owned());
    }
    let exact = qualified(query, &m.entities);
    if exact.len() > 0 {
        return exact;
    }
    bare(query, &m.entities)
}

// ---- describing

/// A text and its place.
pub open spec fn at(s: Text, l: LocView) -> Text {
    s + " at "@ + ticked(ir::loc_text(l))
}

fn say_at(s: &str, l: &Loc) -> (r: String)
    ensures
        r@ == at(s@, l.deep_view()),
{
    text::cat3(s, " at ", &words::tick(&l.render()))
}

/// The local name of an id.
pub open spec fn local(id: Text) -> Text {
    text::after_last(id, "::"@)
}

/// A section; none without items.
pub open spec fn section_of(title: Text, items: Seq<Text>) -> Seq<Text> {
    if items.len() == 0 {
        seq![]
    } else {
        seq![""@, "**"@ + title + "**"@] + dashed(items)
    }
}

/// Items of a list.
pub open spec fn dashed(items: Seq<Text>) -> Seq<Text> {
    Seq::new(items.len(), |i: int| "- "@ + items[i])
}

fn section(out: &mut Vec<String>, title: &str, items: &Vec<String>)
    ensures
        final(out).deep_view() == old(out).deep_view() + section_of(title@, items.deep_view()),
{
    let ghost before = out.deep_view();
    let ghost v = items.deep_view();
    if items.len() == 0 {
        assert(before + section_of(title@, v) =~= before);
        return ;
    }
    list::push(out, "".to_owned());
    list::push(out, text::cat3("**", title, "**"));
    let ghost lead = out.deep_view();
    assert(lead =~= before + seq![""@, "**"@ + title@ + "**"@]);
    let mut i: usize = 0;
    while i < items.len()
        invariant
            i <= items@.len(),
            v == items.deep_view(),
            out.deep_view() == lead + dashed(v).take(i as int),
        decreases items@.len() - i,
    {
        assert(v[i as int] == items@[i as int]@);
        list::push(out, text::cat2("- ", &items[i]));
        i += 1;
        assert(out.deep_view() =~= lead + dashed(v).take(i as int));
    }
    assert(dashed(v).take(v.len() as int) =~= dashed(v));
    assert(out.deep_view() =~= before + section_of(title@, v));
}

/// The kind of an entity in words.
pub open spec fn kind_text(k: EntityKind) -> Text {
    match k {
        EntityKind::Function => "function"@,
        EntityKind::Method => "method"@,
        EntityKind::Constructor => "constructor"@,
        EntityKind::Closure => "closure"@,
    }
}

fn say_kind(k: EntityKind) -> (r: &'static str)
    ensures
        r@ == kind_text(k),
{
    match k {
        EntityKind::Function => "function",
        EntityKind::Method => "method",
        EntityKind::Constructor => "constructor",
        EntityKind::Closure => "closure",
    }
}

/// Up to two places from index `i` on.
pub open spec fn two_places_from(xs: Seq<LocView>, i: int) -> Seq<Text>
    decreases xs.len() - i,
{
    if 0 <= i < xs.len() {
        (if i < 2 {
            seq![ticked(ir::loc_text(xs[i]))]
        } else {
            seq![]
        }) + two_places_from(xs, i + 1)
    } else {
        seq![]
    }
}

fn two_places(xs: &SortedSet<Loc>) -> (r: Vec<String>)
    ensures
        r.deep_view() == two_places_from(xs.deep_view(), 0),
{
    let ghost v = xs.deep_view();
    let mut out: Vec<String> = list::empty();
    let mut i: usize = 0;
    while i < xs.len()
        invariant
            i <= v.len(),
            v == xs.deep_view(),
            out.deep_view() + two_places_from(v, i as int) == two_places_from(v, 0),
        decreases v.len() - i,
    {
        if i < 2 {
            list::push(&mut out, words::tick(&xs.item(i).render()));
        }
        i += 1;
    }
    out
}

/// An effect with its modes and where it happens.
pub open spec fn effect_line(x: (EffectKeyView, EffectInfoView)) -> Text {
    model::effect_text(x.0) + " ("@ + text::joined(x.1.modes, ", "@) + ") at "@ + text::joined(
        two_places_from(x.1.evidence, 0),
        ", "@,
    )
}

fn say_effect(x: &(EffectKey, EffectInfo)) -> (r: String)
    ensures
        r@ == effect_line(x.deep_view()),
{
    text::cat5(
        &x.0.render(),
        " (",
        &text::join(&x.1.modes.list(), ", "),
        ") at ",
        &text::join(&two_places(&x.1.evidence), ", "),
    )
}

/// The effects from index `i` on.
pub open spec fn effects_from(xs: Seq<(EffectKeyView, EffectInfoView)>, i: int) -> Seq<Text>
    decreases xs.len() - i,
{
    if 0 <= i < xs.len() {
        seq![effect_line(xs[i])] + effects_from(xs, i + 1)
    } else {
        seq![]
    }
}

fn effect_lines(xs: &Vec<(EffectKey, EffectInfo)>) -> (r: Vec<String>)
    ensures
        r.deep_view() == effects_from(xs.deep_view(), 0),
{
    let ghost v = xs.deep_view();
    let mut out: Vec<String> = list::empty();
    let mut i: usize = 0;
    while i < xs.len()
        invariant
            i <= v.len(),
            v == xs.deep_view(),
            out.deep_view() + effects_from(v, i as int) == effects_from(v, 0),
        decreases v.len() - i,
    {
        assert(v[i as int] == xs@[i as int].deep_view());
        list::push(&mut out, say_effect(&xs[i]));
        i += 1;
    }
    out
}

/// The access requirements from index `i` on.
pub open spec fn access_from(xs: Seq<(Text, AccessFactView)>, i: int) -> Seq<Text>
    decreases xs.len() - i,
{
    if 0 <= i < xs.len() {
        seq![at(xs[i].1.requirement, xs[i].1.loc)] + access_from(xs, i + 1)
    } else {
        seq![]
    }
}

fn access_lines(xs: &SortedMap<String, AccessFact>) -> (r: Vec<String>)
    ensures
        r.deep_view() == access_from(xs.deep_view(), 0),
{
    let ghost v = xs.deep_view();
    let mut out: Vec<String> = list::empty();
    let mut i: usize = 0;
    while i < xs.len()
        invariant
            i <= v.len(),
            v == xs.deep_view(),
            out.deep_view() + access_from(v, i as int) == access_from(v, 0),
        decreases v.len() - i,
    {
        let a = xs.value(i);
        list::push(&mut out, say_at(&a.requirement, &a.loc));
        i += 1;
    }
    out
}

/// The guards from index `i` on.
pub open spec fn guards_from(xs: Seq<(Text, PredView, LocView)>, i: int) -> Seq<Text>
    decreases xs.len() - i,
{
    if 0 <= i < xs.len() {
        seq![at(pred::pred_text(xs[i].1), xs[i].2)] + guards_from(xs, i + 1)
    } else {
        seq![]
    }
}

fn guard_lines(xs: &Vec<(String, Pred, Loc)>) -> (r: Vec<String>)
    ensures
        r.deep_view() == guards_from(xs.deep_view(), 0),
{
    let ghost v = xs.deep_view();
    let mut out: Vec<String> = list::empty();
    let mut i: usize = 0;
    while i < xs.len()
        invariant
            i <= v.len(),
            v == xs.deep_view(),
            out.deep_view() + guards_from(v, i as int) == guards_from(v, 0),
        decreases v.len() - i,
    {
        assert(v[i as int] == xs@[i as int].deep_view());
        list::push(&mut out, say_at(&xs[i].1.render(), &xs[i].2));
        i += 1;
    }
    out
}

/// The query filters from index `i` on.
pub open spec fn filters_from(xs: Seq<QueryFilterView>, i: int) -> Seq<Text>
    decreases xs.len() - i,
{
    if 0 <= i < xs.len() {
        seq![at(xs[i].expr, xs[i].loc)] + filters_from(xs, i + 1)
    } else {
        seq![]
    }
}

fn filter_lines(xs: &Vec<QueryFilter>) -> (r: Vec<String>)
    ensures
        r.deep_view() == filters_from(xs.deep_view(), 0),
{
    let ghost v = xs.deep_view();
    let mut out: Vec<String> = list::empty();
    let mut i: usize = 0;
    while i < xs.len()
        invariant
            i <= v.len(),
            v == xs.deep_view(),
            out.deep_view() + filters_from(v, i as int) == filters_from(v, 0),
        decreases v.len() - i,
    {
        assert(v[i as int] == xs@[i as int].deep_view());
        list::push(&mut out, say_at(&xs[i].expr, &xs[i].loc));
        i += 1;
    }
    out
}

/// The query filters of an entity and of what it holds, from index `i` on.
pub open spec fn own_filters_from(id: Text, xs: Seq<(Text, EntityView)>, i: int) -> Seq<Text>
    decreases xs.len() - i,
{
    if 0 <= i < xs.len() {
        (if xs[i].1.id == id || text::begins(xs[i].1.id, id + "."@) {
            filters_from(xs[i].1.filters, 0)
        } else {
            seq![]
        }) + own_filters_from(id, xs, i + 1)
    } else {
        seq![]
    }
}

fn own_filters(id: &str, xs: &SortedMap<String, Entity>) -> (r: Vec<String>)
    ensures
        r.deep_view() == own_filters_from(id@, xs.deep_view(), 0),
{
    let ghost v = xs.deep_view();
    let mut out: Vec<String> = list::empty();
    let mut i: usize = 0;
    while i < xs.len()
        invariant
            i <= v.len(),
            v == xs.deep_view(),
            out.deep_view() + own_filters_from(id@, v, i as int) == own_filters_from(id@, v, 0),
        decreases v.len() - i,
    {
        let e = xs.value(i);
        let ghost before = out.deep_view();
        if text::same(&e.id, id) || text::starts_with(&e.id, &text::cat2(id, ".")) {
            list::append(&mut out, filter_lines(&e.filters));
        }
        assert(before + own_filters_from(id@, v, i as int) =~= out.deep_view() + own_filters_from(
            id@,
            v,
            i + 1,
        ));
        i += 1;
    }
    out
}

/// The checks from index `i` on.
pub open spec fn checks_from(xs: Seq<(Text, LocView)>, i: int) -> Seq<Text>
    decreases xs.len() - i,
{
    if 0 <= i < xs.len() {
        seq![local(xs[i].0) + " (call at "@ + ticked(ir::loc_text(xs[i].1)) + ")"@] + checks_from(xs, i + 1)
    } else {
        seq![]
    }
}

fn check_lines(xs: &SortedMap<String, Loc>) -> (r: Vec<String>)
    ensures
        r.deep_view() == checks_from(xs.deep_view(), 0),
{
    let ghost v = xs.deep_view();
    let mut out: Vec<String> = list::empty();
    let mut i: usize = 0;
    while i < xs.len()
        invariant
            i <= v.len(),
            v == xs.deep_view(),
            out.deep_view() + checks_from(v, i as int) == checks_from(v, 0),
        decreases v.len() - i,
    {
        list::push(
            &mut out,
            text::cat4(
                &text::last_piece(xs.key(i), "::"),
                " (call at ",
                &words::tick(&xs.value(i).render()),
                ")",
            ),
        );
        i += 1;
    }
    out
}

/// One of the calls goes to an entity.
pub open spec fn calls_to(calls: Seq<CallFactView>, id: Text) -> bool {
    exists|k: int| 0 <= k < calls.len() && (#[trigger] calls[k]).target == id
}

fn has_call_to(calls: &Vec<CallFact>, id: &str) -> (r: bool)
    ensures
        r == calls_to(calls.deep_view(), id@),
{
    let ghost v = calls.deep_view();
    let mut k: usize = 0;
    while k < calls.len()
        invariant
            k <= calls@.len(),
            v == calls.deep_view(),
            forall|j: int| 0 <= j < k ==> (#[trigger] v[j]).target != id@,
        decreases calls@.len() - k,
    {
        assert(v[k as int] == calls@[k as int].deep_view());
        if text::same(&calls[k].target, id) {
            return true;
        }
        k += 1;
    }
    false
}

/// The entities from index `i` on that call another.
pub open spec fn callers_from(id: Text, xs: Seq<(Text, EntityView)>, i: int) -> Seq<Text>
    decreases xs.len() - i,
{
    if 0 <= i < xs.len() {
        (if calls_to(xs[i].1.calls, id) {
            seq![local(xs[i].1.id)]
        } else {
            seq![]
        }) + callers_from(id, xs, i + 1)
    } else {
        seq![]
    }
}

fn callers(id: &str, xs: &SortedMap<String, Entity>) -> (r: Vec<String>)
    ensures
        r.deep_view() == callers_from(id@, xs.deep_view(), 0),
{
    let ghost v = xs.deep_view();
    let mut out: Vec<String> = list::empty();
    let mut i: usize = 0;
    while i < xs.len()
        invariant
            i <= v.len(),
            v == xs.deep_view(),
            out.deep_view() + callers_from(id@, v, i as int) == callers_from(id@, v, 0),
        decreases v.len() - i,
    {
        let e = xs.value(i);
        if has_call_to(&e.calls, id) {
            list::push(&mut out, text::last_piece(&e.id, "::"));
        }
        i += 1;
    }
    out
}

/// The entities that the calls from index `i` on go to.
pub open spec fn callees_from(entities: Seq<(Text, EntityView)>, xs: Seq<CallFactView>, i: int) -> Seq<Text>
    decreases xs.len() - i,
{
    if 0 <= i < xs.len() {
        (if ordered::lookup(entities, xs[i].target) is Some {
            seq![local(xs[i].target)]
        } else {
            seq![]
        }) + callees_from(entities, xs, i + 1)
    } else {
        seq![]
    }
}

fn callees(entities: &SortedMap<String, Entity>, xs: &Vec<CallFact>) -> (r: Vec<String>)
    ensures
        r.deep_view() == callees_from(entities.deep_view(), xs.deep_view(), 0),
{
    let ghost v = xs.deep_view();
    let mut out: Vec<String> = list::empty();
    let mut i: usize = 0;
    while i < xs.len()
        invariant
            i <= v.len(),
            v == xs.deep_view(),
            out.deep_view() + callees_from(entities.deep_view(), v, i as int) == callees_from(entities.deep_view(), v, 0),
        decreases v.len() - i,
    {
        assert(v[i as int] == xs@[i as int].deep_view());
        if entities.contains_key(&xs[i].target) {
            list::push(&mut out, text::last_piece(&xs[i].target, "::"));
        }
        i += 1;
    }
    out
}

/// Up to ten questions from index `i` on.
pub open spec fn unknowns_from(xs: Seq<UnknownView>, i: int) -> Seq<Text>
    decreases xs.len() - i,
{
    if 0 <= i < xs.len() {
        (if i < 10 {
            seq![at(xs[i].question, xs[i].loc)]
        } else {
            seq![]
        }) + unknowns_from(xs, i + 1)
    } else {
        seq![]
    }
}

fn unknown_lines(xs: &Vec<Unknown>) -> (r: Vec<String>)
    ensures
        r.deep_view() == unknowns_from(xs.deep_view(), 0),
{
    let ghost v = xs.deep_view();
    let mut out: Vec<String> = list::empty();
    let mut i: usize = 0;
    while i < xs.len()
        invariant
            i <= v.len(),
            v == xs.deep_view(),
            out.deep_view() + unknowns_from(v, i as int) == unknowns_from(v, 0),
        decreases v.len() - i,
    {
        assert(v[i as int] == xs@[i as int].deep_view());
        if i < 10 {
            list::push(&mut out, say_at(&xs[i].question, &xs[i].loc));
        }
        i += 1;
    }
    out
}

/// What an entity does, as lines.
pub open spec fn described_lines(m: ModelView, id: Text, e: EntityView, s: SummaryView) -> Seq<Text> {
    seq!["## "@ + ticked(local(id)), ""@, at(kind_text(e.kind), e.loc)] + section_of(
        "Reached from routes"@,
        words::all_ticked(model::entry_points(m, id)),
    ) + section_of("Effects (transitive)"@, effects_from(model::outside_checks(m, id), 0))
        + section_of("Access requirements"@, access_from(s.access, 0)) + section_of(
        "Guards (must hold to continue)"@,
        guards_from(s.requirements, 0),
    ) + section_of("Query filters"@, ordered::sorted(own_filters_from(id, m.entities, 0)))
        + section_of(
        "Checks reached (their own reads are not listed above)"@,
        checks_from(s.validations, 0),
    ) + section_of("Writes"@, s.writes) + section_of(
        "Called by"@,
        ordered::set_of(callers_from(id, m.entities, 0)),
    ) + section_of("Calls"@, ordered::set_of(callees_from(m.entities, e.calls, 0))) + section_of(
        "Unknowns"@,
        unknowns_from(e.unknowns, 0),
    )
}

/// What an entity does.
pub open spec fn entity_text(m: ModelView, id: Text) -> Text {
    render::unlined(
        described_lines(
            m,
            id,
            ordered::lookup(m.entities, id)->0,
            ordered::lookup(m.summaries, id)->0,
        ),
    )
}

/// What an entity does: the effects it reaches, what it requires and checks, and what reaches it.
#[verifier::rlimit(40)]
pub fn describe_entity(m: &Model, id: &str) -> (r: String)
    requires
        ordered::lookup(m.deep_view().entities, id@) is Some,
        ordered::lookup(m.deep_view().summaries, id@) is Some,
    ensures
        r@ == entity_text(m.deep_view(), id@),
{
    let ghost mv = m.deep_view();
    match (m.entities.find(id), m.summaries.find(id)) {
        (Some(e), Some(s)) => {
            let mut out = list::one(text::cat2("## ", &words::tick(&text::last_piece(id, "::"))));
            list::push(&mut out, "".to_owned());
            list::push(&mut out, say_at(say_kind(e.kind), &e.loc));
            assert(out.deep_view() =~= seq![
                "## "@ + ticked(local(id@)),
                ""@,
                at(kind_text(e.deep_view().kind), e.deep_view().loc),
            ]);
            section(
                &mut out,
                "Reached from routes",
                &words::tick_all(&m.entry_points_reaching(id)),
            );
            section(
                &mut out,
                "Effects (transitive)",
                &effect_lines(&m.effects_outside_checks(id)),
            );
            section(&mut out, "Access requirements", &access_lines(&s.access));
            section(
                &mut out,
                "Guards (must hold to continue)",
                &guard_lines(&s.requirements),
            );
            section(
                &mut out,
                "Query filters",
                &ordered::sort(own_filters(id, &m.entities)),
            );
            section(
                &mut out,
                "Checks reached (their own reads are not listed above)",
                &check_lines(&s.validations),
            );
            section(&mut out, "Writes", &s.writes.list());
            section(
                &mut out,
                "Called by",
                &SortedSet::of(&callers(id, &m.entities)).list(),
            );
            section(
                &mut out,
                "Calls",
                &SortedSet::of(&callees(&m.entities, &e.calls)).list(),
            );
            section(&mut out, "Unknowns", &unknown_lines(&e.unknowns));
            render::unlines(&out)
        },
        _ => "".to_owned(),
    }
}

// ---- answering

/// The answer to a question about a function or method of a model.
pub open spec fn answered(m: ModelView, query: Text) -> Result<Text, Text> {
    let found = matches_of(m, query);
    if found.len() == 0 {
        Err("no function or method matches "@ + ticked(query))
    } else if found.len() == 1 {
        Ok(entity_text(m, found[0]))
    } else {
        Ok(
            ticked(query) + " matches "@ + text::decimal(found.len())
                + " entities; ask again with one of:\n"@ + text::joined(
                dashed(words::all_ticked(found)),
                "\n"@,
            ),
        )
    }
}

proof fn bare_are_entities(m: ModelView, query: Text, i: int, k: int)
    requires
        crate::analysis::keyed(m),
        0 <= i,
        0 <= k < bare_from(query, m.entities, i).len(),
    ensures
        exists|j: int|
            0 <= j < m.entities.len() && (#[trigger] m.entities[j]).0 == bare_from(
                query,
                m.entities,
                i,
            )[k],
    decreases m.entities.len() - i,
{
    if i < m.entities.len() {
        let here = if m.entities[i].1.parent is None && m.entities[i].1.name == query {
            1int
        } else {
            0
        };
        assert(m.entities[i].0 == m.entities[i].1.id);
        if k >= here {
            bare_are_entities(m, query, i + 1, k - here);
        }
    }
}

proof fn qualified_are_entities(m: ModelView, query: Text, i: int, k: int)
    requires
        0 <= i,
        0 <= k < qualified_from(query, m.entities, i).len(),
    ensures
        exists|j: int|
            0 <= j < m.entities.len() && (#[trigger] m.entities[j]).0 == qualified_from(
                query,
                m.entities,
                i,
            )[k],
    decreases m.entities.len() - i,
{
    if i < m.entities.len() {
        let here = if text::after_last(m.entities[i].0, "::"@) == query {
            1int
        } else {
            0
        };
        if k >= here {
            qualified_are_entities(m, query, i + 1, k - here);
        }
    }
}

/// Whatever a query finds is an entity with a summary.
pub proof fn found_is_described(m: ModelView, query: Text, k: int)
    requires
        crate::analysis::keyed(m),
        summary::complete(m),
        ordered::ascending(m.entities),
        0 <= k < matches_of(m, query).len(),
    ensures
        ordered::lookup(m.entities, matches_of(m, query)[k]) is Some,
        ordered::lookup(m.summaries, matches_of(m, query)[k]) is Some,
{
    let id = matches_of(m, query)[k];
    if ordered::lookup(m.entities, query) is Some {
        let j = ordered::slot(m.entities, query);
        ordered::slot_bounds(m.entities, query);
        assert(m.entities[j].0 == m.entities[j].1.id);
    } else {
        if qualified_from(query, m.entities, 0).len() > 0 {
            qualified_are_entities(m, query, 0, k);
        } else {
            bare_are_entities(m, query, 0, k);
        }
        let j = choose|j: int| 0 <= j < m.entities.len() && (#[trigger] m.entities[j]).0 == id;
        ordered::slot_of_stored(m.entities, j);
        assert(m.entities[j].0 == m.entities[j].1.id);
    }
}

/// Answers a question about a function or method of a model: what it does, or which ones are
/// meant.
pub fn answer(m: &Model, query: &str) -> (r: Result<String, String>)
    requires
        crate::analysis::keyed(m.deep_view()),
        summary::complete(m.deep_view()),
    ensures
        outcome(r) == answered(m.deep_view(), query@),
{
    let found = find(m, query);
    let ghost v = found.deep_view();
    if found.len() == 0 {
        Err(text::cat2("no function or method matches ", &words::tick(query)))
    } else if found.len() == 1 {
        assert(v[0] == found@[0]@);
        m.entities.in_order();
        proof {
            found_is_described(m.deep_view(), query@, 0);
        }
        Ok(describe_entity(m, &found[0]))
    } else {
        let ids = words::tick_all(&found);
        let ghost iv = ids.deep_view();
        let mut out: Vec<String> = list::empty();
        let mut i: usize = 0;
        while i < ids.len()
            invariant
                i <= ids@.len(),
                iv == ids.deep_view(),
                out.deep_view() == dashed(iv).take(i as int),
            decreases ids@.len() - i,
        {
            assert(iv[i as int] == ids@[i as int]@);
            list::push(&mut out, text::cat2("- ", &ids[i]));
            i += 1;
            assert(out.deep_view() =~= dashed(iv).take(i as int));
        }
        assert(dashed(iv).take(iv.len() as int) =~= dashed(iv));
        Ok(
            text::cat5(
                &words::tick(query),
                " matches ",
                &text::number(found.len() as u64),
                " entities; ask again with one of:\n",
                &text::join(&out, "\n"),
            ),
        )
    }
}

/// The answer to a question about a function or method of a set of files.
pub open spec fn context_of(files: Seq<(Text, Text)>, query: Text) -> Result<Text, Text> {
    match pipeline::model_of(files) {
        Ok(m) => answered(m, query),
        Err(e) => Err(e),
    }
}

/// Answers a question about a function or method of a set of files.
pub fn context(files: &Files, query: &str) -> (r: Result<String, String>)
    ensures
        outcome(r) == context_of(files.deep_view(), query@),
{
    match pipeline::model(files) {
        Ok(m) => answer(&m, query),
        Err(e) => Err(e),
    }
}

/// A result of bounded length.
pub open spec fn truncated(s: Text) -> Text {
    if span::byte_len(s) > MAX_OUTPUT {
        s.take(span::within(s, MAX_OUTPUT as int, 0))
            + "\n\n… (truncated; narrow the request with `root`, or ask for one entity with merak_context)"@
    } else {
        s
    }
}

/// Cuts a result that is too long at the end of a character.
pub fn truncate(s: String) -> (r: String)
    ensures
        r@ == truncated(s@),
{
    match span::prefix(&s, MAX_OUTPUT as u64) {
        Some(p) => text::cat2(
            &p,
            "\n\n… (truncated; narrow the request with `root`, or ask for one entity with merak_context)",
        ),
        None => s,
    }
}

} // verus!
