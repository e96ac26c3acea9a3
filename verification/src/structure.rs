//! Changes to where code stands, and to the surface of the program: entities, module
//! dependencies, routes and event handlers that came, left or moved.

use crate::infer::new_name;
use crate::ir::{Loc, LocView};
use crate::list;
use crate::list::Plain;
use crate::matching::{is_value, Matching, MatchingView};
use crate::model::{
    effect_text, route_key, EffectInfo, EffectInfoView, EffectKey, EffectKeyView, Entity,
    EntityKind, EntityView, Model, ModelView, Route, RouteView, Subscription, SubscriptionView,
};
use crate::ops::{found, found_op, short, short_name, Layer, Op, OpView};
use crate::ordered::{added, lookup, put, set_of, united, SortedMap, SortedSet};
use crate::text;
use crate::text::Text;
use vstd::prelude::*;

verus! {

// ---- entities

/// An operation on where code stands.
pub open spec fn placed(
    kind: Text,
    subject: Text,
    after: Option<Text>,
    eb: Seq<LocView>,
    ea: Seq<LocView>,
) -> OpView {
    found(kind, Layer::Structure, subject, None, after, eb, ea)
}

/// The classes from index `i` on that moved.
pub open spec fn class_moves(a: ModelView, b: ModelView, pairs: Seq<(Text, Text)>, i: int) -> Seq<OpView>
    decreases pairs.len() - i,
{
    if 0 <= i < pairs.len() {
        (match (lookup(a.classes, pairs[i].0), lookup(b.classes, pairs[i].1)) {
            (Some(c), Some(d)) => seq![
                placed("ENTITY_MOVED"@, pairs[i].0, Some(pairs[i].1), seq![c.loc], seq![d.loc]),
            ],
            _ => seq![],
        }) + class_moves(a, b, pairs, i + 1)
    } else {
        seq![]
    }
}

/// The functions from index `i` on that moved or were renamed.
pub open spec fn function_moves(a: ModelView, b: ModelView, pairs: Seq<(Text, Text)>, i: int) -> Seq<OpView>
    decreases pairs.len() - i,
{
    if 0 <= i < pairs.len() {
        (match (lookup(a.entities, pairs[i].0), lookup(b.entities, pairs[i].1)) {
            (Some(e), Some(f)) => seq![
                placed(
                    if e.name == f.name {
                        "ENTITY_MOVED"@
                    } else {
                        "ENTITY_RENAMED"@
                    },
                    pairs[i].0,
                    Some(pairs[i].1),
                    seq![e.loc],
                    seq![f.loc],
                ),
            ],
            _ => seq![],
        }) + function_moves(a, b, pairs, i + 1)
    } else {
        seq![]
    }
}

/// A class of the new version that no class of the old one is or became.
pub open spec fn is_new_class(a: ModelView, m: MatchingView, id: Text) -> bool {
    lookup(a.classes, id) is None && !is_value(m.moved_classes, id)
}

/// A class of the old version that is gone and became no other.
pub open spec fn is_lost_class(b: ModelView, m: MatchingView, id: Text) -> bool {
    lookup(b.classes, id) is None && lookup(m.moved_classes, id) is None
}

/// The new classes from index `i` on.
pub open spec fn class_gains(a: ModelView, b: ModelView, m: MatchingView, i: int) -> Seq<OpView>
    decreases b.classes.len() - i,
{
    if 0 <= i < b.classes.len() {
        let (id, c) = b.classes[i];
        (if is_new_class(a, m, id) {
            seq![placed("ENTITY_ADDED"@, id, None, seq![], seq![c.loc])]
        } else {
            seq![]
        }) + class_gains(a, b, m, i + 1)
    } else {
        seq![]
    }
}

/// The lost classes from index `i` on.
pub open spec fn class_losses(a: ModelView, b: ModelView, m: MatchingView, i: int) -> Seq<OpView>
    decreases a.classes.len() - i,
{
    if 0 <= i < a.classes.len() {
        let (id, c) = a.classes[i];
        (if is_lost_class(b, m, id) {
            seq![placed("ENTITY_REMOVED"@, id, None, seq![c.loc], seq![])]
        } else {
            seq![]
        }) + class_losses(a, b, m, i + 1)
    } else {
        seq![]
    }
}

/// The methods of the new classes from index `i` on, added to `acc`.
pub open spec fn new_methods(a: ModelView, b: ModelView, m: MatchingView, i: int, acc: Seq<Text>) -> Seq<Text>
    decreases b.classes.len() - i,
{
    if 0 <= i < b.classes.len() {
        let (id, c) = b.classes[i];
        new_methods(
            a,
            b,
            m,
            i + 1,
            if is_new_class(a, m, id) {
                united(acc, set_of(c.methods))
            } else {
                acc
            },
        )
    } else {
        acc
    }
}

/// The methods of the lost classes from index `i` on, added to `acc`.
pub open spec fn lost_methods(a: ModelView, b: ModelView, m: MatchingView, i: int, acc: Seq<Text>) -> Seq<Text>
    decreases a.classes.len() - i,
{
    if 0 <= i < a.classes.len() {
        let (id, c) = a.classes[i];
        lost_methods(
            a,
            b,
            m,
            i + 1,
            if is_lost_class(b, m, id) {
                united(acc, set_of(c.methods))
            } else {
                acc
            },
        )
    } else {
        acc
    }
}

/// The methods of the moved classes from index `i` on, added to `acc`.
pub open spec fn moved_methods(a: ModelView, pairs: Seq<(Text, Text)>, i: int, acc: Seq<Text>) -> Seq<Text>
    decreases pairs.len() - i,
{
    if 0 <= i < pairs.len() {
        moved_methods(
            a,
            pairs,
            i + 1,
            match lookup(a.classes, pairs[i].0) {
                Some(c) => united(acc, set_of(c.methods)),
                None => acc,
            },
        )
    } else {
        acc
    }
}

/// The entities from index `i` on that have no counterpart and that no operation on a class
/// covers. Constructors go with their class.
pub open spec fn entity_changes(
    kind: Text,
    entities: Seq<(Text, EntityView)>,
    known: Seq<(Text, Text)>,
    covered: Seq<Text>,
    came: bool,
    i: int,
) -> Seq<OpView>
    decreases entities.len() - i,
{
    if 0 <= i < entities.len() {
        let (id, e) = entities[i];
        (if lookup(known, id) is Some || covered.contains(id) || e.kind == EntityKind::Constructor {
            seq![]
        } else if came {
            seq![placed(kind, id, None, seq![], seq![e.loc])]
        } else {
            seq![placed(kind, id, None, seq![e.loc], seq![])]
        }) + entity_changes(kind, entities, known, covered, came, i + 1)
    } else {
        seq![]
    }
}

// ---- module dependencies

/// The dependencies from index `i` on under the new names of the modules, added to `acc`.
pub open spec fn renamed_deps(
    deps: Seq<((Text, Text), Seq<LocView>)>,
    modules: Seq<(Text, Text)>,
    i: int,
    acc: Seq<((Text, Text), Seq<LocView>)>,
) -> Seq<((Text, Text), Seq<LocView>)>
    decreases deps.len() - i,
{
    if 0 <= i < deps.len() {
        renamed_deps(
            deps,
            modules,
            i + 1,
            put(
                acc,
                (new_name(modules, deps[i].0.0), new_name(modules, deps[i].0.1)),
                deps[i].1,
            ),
        )
    } else {
        acc
    }
}

/// The dependencies from index `i` on that the other version does not have.
pub open spec fn dep_changes(
    kind: Text,
    here: Seq<((Text, Text), Seq<LocView>)>,
    there: Seq<((Text, Text), Seq<LocView>)>,
    came: bool,
    i: int,
) -> Seq<OpView>
    decreases here.len() - i,
{
    if 0 <= i < here.len() {
        let (k, locs) = here[i];
        (if lookup(there, k) is Some {
            seq![]
        } else if came {
            seq![placed(kind, k.0 + " → "@ + k.1, None, seq![], locs)]
        } else {
            seq![placed(kind, k.0 + " → "@ + k.1, None, locs, seq![])]
        }) + dep_changes(kind, here, there, came, i + 1)
    } else {
        seq![]
    }
}

/// The changes to where code stands.
pub open spec fn structure_changes(a: ModelView, b: ModelView, m: MatchingView) -> Seq<OpView> {
    let deps = renamed_deps(a.module_deps, m.modules, 0, seq![]);
    class_moves(a, b, m.moved_classes, 0) + function_moves(a, b, m.moved_functions, 0) + class_gains(
        a,
        b,
        m,
        0,
    ) + entity_changes(
        "ENTITY_ADDED"@,
        b.entities,
        m.backward,
        new_methods(a, b, m, 0, seq![]),
        true,
        0,
    ) + entity_changes(
        "ENTITY_REMOVED"@,
        a.entities,
        m.forward,
        lost_methods(a, b, m, 0, moved_methods(a, m.moved_classes, 0, seq![])),
        false,
        0,
    ) + class_losses(a, b, m, 0) + dep_changes("DEPENDENCY_ADDED"@, b.module_deps, deps, true, 0)
        + dep_changes("DEPENDENCY_REMOVED"@, deps, b.module_deps, false, 0)
}

// ---- surface

/// The routes from index `i` on by their keys, added to `acc`.
pub open spec fn routes_by_key(routes: Seq<RouteView>, i: int, acc: Seq<(Text, RouteView)>) -> Seq<(Text, RouteView)>
    decreases routes.len() - i,
{
    if 0 <= i < routes.len() {
        routes_by_key(routes, i + 1, put(acc, route_key(routes[i]), routes[i]))
    } else {
        acc
    }
}

/// The texts of effects.
pub open spec fn effect_texts(effects: Seq<(EffectKeyView, EffectInfoView)>) -> Seq<Text> {
    Seq::new(effects.len(), |i: int| effect_text(effects[i].0))
}

/// The effects that an entity reaches, in one line.
pub open spec fn reach_of(m: ModelView, id: Text) -> Option<Text> {
    match lookup(m.summaries, id) {
        Some(s) => Some(text::joined(effect_texts(s.effects), ", "@)),
        None => None,
    }
}

/// The routes from index `i` on that came.
pub open spec fn route_gains(b: ModelView, here: Seq<(Text, RouteView)>, there: Seq<(Text, RouteView)>, i: int) -> Seq<OpView>
    decreases here.len() - i,
{
    if 0 <= i < here.len() {
        let (k, r) = here[i];
        (if lookup(there, k) is Some {
            seq![]
        } else {
            seq![
                found(
                    "ENTRYPOINT_ADDED"@,
                    Layer::Behaviour,
                    k,
                    None,
                    reach_of(b, r.handler),
                    seq![],
                    seq![r.loc],
                ),
            ]
        }) + route_gains(b, here, there, i + 1)
    } else {
        seq![]
    }
}

/// The routes from index `i` on that left.
pub open spec fn route_losses(here: Seq<(Text, RouteView)>, there: Seq<(Text, RouteView)>, i: int) -> Seq<OpView>
    decreases here.len() - i,
{
    if 0 <= i < here.len() {
        let (k, r) = here[i];
        (if lookup(there, k) is Some {
            seq![]
        } else {
            seq![
                found(
                    "ENTRYPOINT_REMOVED"@,
                    Layer::Behaviour,
                    k,
                    None,
                    None,
                    seq![r.loc],
                    seq![],
                ),
            ]
        }) + route_losses(here, there, i + 1)
    } else {
        seq![]
    }
}

/// The events and handlers from index `i` on under the new names of the handlers, added to `acc`.
pub open spec fn handlers_from(
    subs: Seq<SubscriptionView>,
    renamed: Seq<(Text, Text)>,
    i: int,
    acc: Seq<(Text, Text)>,
) -> Seq<(Text, Text)>
    decreases subs.len() - i,
{
    if 0 <= i < subs.len() {
        handlers_from(
            subs,
            renamed,
            i + 1,
            added(acc, (subs[i].event, new_name(renamed, subs[i].handler))),
        )
    } else {
        acc
    }
}

/// The event handlers from index `i` on that came.
pub open spec fn handler_gains(b: ModelView, known: Seq<(Text, Text)>, i: int) -> Seq<OpView>
    decreases b.subscriptions.len() - i,
{
    if 0 <= i < b.subscriptions.len() {
        let s = b.subscriptions[i];
        (if known.contains((s.event, s.handler)) {
            seq![]
        } else {
            seq![
                OpView {
                    note: Some("handled by "@ + short_name(s.handler)),
                    ..found(
                        "EVENT_HANDLER_ADDED"@,
                        Layer::Behaviour,
                        s.event,
                        None,
                        reach_of(b, s.handler),
                        seq![],
                        seq![s.loc],
                    )
                },
            ]
        }) + handler_gains(b, known, i + 1)
    } else {
        seq![]
    }
}

/// The event handlers from index `i` on that left.
pub open spec fn handler_losses(
    a: ModelView,
    renamed: Seq<(Text, Text)>,
    known: Seq<(Text, Text)>,
    i: int,
) -> Seq<OpView>
    decreases a.subscriptions.len() - i,
{
    if 0 <= i < a.subscriptions.len() {
        let s = a.subscriptions[i];
        (if known.contains((s.event, new_name(renamed, s.handler))) {
            seq![]
        } else {
            seq![
                found(
                    "EVENT_HANDLER_REMOVED"@,
                    Layer::Behaviour,
                    s.event,
                    None,
                    None,
                    seq![s.loc],
                    seq![],
                ),
            ]
        }) + handler_losses(a, renamed, known, i + 1)
    } else {
        seq![]
    }
}

/// The changes to the surface of the program.
pub open spec fn surface_changes(a: ModelView, b: ModelView, m: MatchingView) -> Seq<OpView> {
    let routes_a = routes_by_key(a.routes, 0, seq![]);
    let routes_b = routes_by_key(b.routes, 0, seq![]);
    route_gains(b, routes_b, routes_a, 0) + route_losses(routes_a, routes_b, 0) + handler_gains(
        b,
        handlers_from(a.subscriptions, m.forward, 0, seq![]),
        0,
    ) + handler_losses(a, m.forward, handlers_from(b.subscriptions, seq![], 0, seq![]), 0)
}

// ---- execution

fn place(kind: &str, subject: &str, after: Option<String>, eb: Vec<Loc>, ea: Vec<Loc>) -> (r: Op)
    ensures
        r.deep_view() == placed(
            kind@,
            subject@,
            after.deep_view(),
            eb.deep_view(),
            ea.deep_view(),
        ),
{
    found_op(kind, Layer::Structure, subject, None, after, eb, ea)
}

fn moves(a: &Model, b: &Model, m: &Matching) -> (r: Vec<Op>)
    ensures
        r.deep_view() == class_moves(a.deep_view(), b.deep_view(), m.deep_view().moved_classes, 0)
            + function_moves(a.deep_view(), b.deep_view(), m.deep_view().moved_functions, 0),
{
    let ghost av = a.deep_view();
    let ghost bv = b.deep_view();
    let ghost mv = m.deep_view();
    let mut out: Vec<Op> = list::empty();
    let mut i: usize = 0;
    while i < m.moved_classes.len()
        invariant
            i <= mv.moved_classes.len(),
            av == a.deep_view(),
            bv == b.deep_view(),
            mv == m.deep_view(),
            out.deep_view() + class_moves(av, bv, mv.moved_classes, i as int) == class_moves(
                av,
                bv,
                mv.moved_classes,
                0,
            ),
        decreases mv.moved_classes.len() - i,
    {
        let (ca, cb) = (m.moved_classes.key(i), m.moved_classes.value(i));
        if let Some(c) = a.classes.get(ca) {
            if let Some(d) = b.classes.get(cb) {
                list::push(
                    &mut out,
                    place(
                        "ENTITY_MOVED",
                        ca,
                        Some(cb.dup()),
                        list::one(c.loc.dup()),
                        list::one(d.loc.dup()),
                    ),
                );
            }
        }
        i += 1;
    }
    let ghost first = out.deep_view();
    i = 0;
    while i < m.moved_functions.len()
        invariant
            i <= mv.moved_functions.len(),
            av == a.deep_view(),
            bv == b.deep_view(),
            mv == m.deep_view(),
            out.deep_view() + function_moves(av, bv, mv.moved_functions, i as int) == first
                + function_moves(av, bv, mv.moved_functions, 0),
        decreases mv.moved_functions.len() - i,
    {
        let (fa, fb) = (m.moved_functions.key(i), m.moved_functions.value(i));
        if let Some(e) = a.entities.get(fa) {
            if let Some(f) = b.entities.get(fb) {
                let kind = if e.name.alike(&f.name) {
                    "ENTITY_MOVED"
                } else {
                    "ENTITY_RENAMED"
                };
                list::push(
                    &mut out,
                    place(
                        kind,
                        fa,
                        Some(fb.dup()),
                        list::one(e.loc.dup()),
                        list::one(f.loc.dup()),
                    ),
                );
            }
        }
        i += 1;
    }
    out
}

fn is_taken(pairs: &SortedMap<String, String>, id: &String) -> (r: bool)
    ensures
        r == is_value(pairs.deep_view(), id@),
{
    let ghost pv = pairs.deep_view();
    let mut i: usize = 0;
    while i < pairs.len()
        invariant
            i <= pv.len(),
            pv == pairs.deep_view(),
            forall|k: int| 0 <= k < i ==> (#[trigger] pv[k]).1 != id@,
        decreases pv.len() - i,
    {
        if pairs.value(i).alike(id) {
            assert(pv[i as int].1 == id@);
            return true;
        }
        i += 1;
    }
    false
}

fn added_classes(a: &Model, b: &Model, m: &Matching) -> (r: (Vec<Op>, SortedSet<String>))
    ensures
        r.0.deep_view() == class_gains(a.deep_view(), b.deep_view(), m.deep_view(), 0),
        r.1.deep_view() == new_methods(a.deep_view(), b.deep_view(), m.deep_view(), 0, seq![]),
{
    let ghost av = a.deep_view();
    let ghost bv = b.deep_view();
    let ghost mv = m.deep_view();
    let mut out: Vec<Op> = list::empty();
    let mut methods: SortedSet<String> = SortedSet::new();
    let mut i: usize = 0;
    while i < b.classes.len()
        invariant
            i <= bv.classes.len(),
            av == a.deep_view(),
            bv == b.deep_view(),
            mv == m.deep_view(),
            out.deep_view() + class_gains(av, bv, mv, i as int) == class_gains(av, bv, mv, 0),
            new_methods(av, bv, mv, i as int, methods.deep_view()) == new_methods(
                av,
                bv,
                mv,
                0,
                seq![],
            ),
        decreases bv.classes.len() - i,
    {
        let id = b.classes.key(i);
        let c = b.classes.value(i);
        if !a.classes.contains_key(id) && !is_taken(&m.moved_classes, id) {
            list::push(
                &mut out,
                place("ENTITY_ADDED", id, None, list::empty(), list::one(c.loc.dup())),
            );
            methods.unite(&SortedSet::of(&c.methods));
        }
        i += 1;
    }
    (out, methods)
}

fn removed_classes(a: &Model, b: &Model, m: &Matching) -> (r: (Vec<Op>, SortedSet<String>))
    ensures
        r.0.deep_view() == class_losses(a.deep_view(), b.deep_view(), m.deep_view(), 0),
        r.1.deep_view() == lost_methods(
            a.deep_view(),
            b.deep_view(),
            m.deep_view(),
            0,
            moved_methods(a.deep_view(), m.deep_view().moved_classes, 0, seq![]),
        ),
{
    let ghost av = a.deep_view();
    let ghost bv = b.deep_view();
    let ghost mv = m.deep_view();
    let mut methods: SortedSet<String> = SortedSet::new();
    let mut i: usize = 0;
    while i < m.moved_classes.len()
        invariant
            i <= mv.moved_classes.len(),
            av == a.deep_view(),
            mv == m.deep_view(),
            moved_methods(av, mv.moved_classes, i as int, methods.deep_view()) == moved_methods(
                av,
                mv.moved_classes,
                0,
                seq![],
            ),
        decreases mv.moved_classes.len() - i,
    {
        if let Some(c) = a.classes.get(m.moved_classes.key(i)) {
            methods.unite(&SortedSet::of(&c.methods));
        }
        i += 1;
    }
    let ghost start = methods.deep_view();
    let mut out: Vec<Op> = list::empty();
    i = 0;
    while i < a.classes.len()
        invariant
            i <= av.classes.len(),
            av == a.deep_view(),
            bv == b.deep_view(),
            mv == m.deep_view(),
            out.deep_view() + class_losses(av, bv, mv, i as int) == class_losses(av, bv, mv, 0),
            lost_methods(av, bv, mv, i as int, methods.deep_view()) == lost_methods(
                av,
                bv,
                mv,
                0,
                start,
            ),
        decreases av.classes.len() - i,
    {
        let id = a.classes.key(i);
        let c = a.classes.value(i);
        if !b.classes.contains_key(id) && !m.moved_classes.contains_key(id) {
            list::push(
                &mut out,
                place("ENTITY_REMOVED", id, None, list::one(c.loc.dup()), list::empty()),
            );
            methods.unite(&SortedSet::of(&c.methods));
        }
        i += 1;
    }
    (out, methods)
}

fn changed_entities(
    kind: &str,
    entities: &SortedMap<String, Entity>,
    known: &SortedMap<String, String>,
    covered: &SortedSet<String>,
    came: bool,
) -> (r: Vec<Op>)
    ensures
        r.deep_view() == entity_changes(
            kind@,
            entities.deep_view(),
            known.deep_view(),
            covered.deep_view(),
            came,
            0,
        ),
{
    let ghost ev = entities.deep_view();
    let ghost kv = known.deep_view();
    let ghost cv = covered.deep_view();
    let mut out: Vec<Op> = list::empty();
    let mut i: usize = 0;
    while i < entities.len()
        invariant
            i <= ev.len(),
            ev == entities.deep_view(),
            kv == known.deep_view(),
            cv == covered.deep_view(),
            out.deep_view() + entity_changes(kind@, ev, kv, cv, came, i as int)
                == entity_changes(kind@, ev, kv, cv, came, 0),
        decreases ev.len() - i,
    {
        let id = entities.key(i);
        let e = entities.value(i);
        if !known.contains_key(id) && !covered.contains(id) && e.kind != EntityKind::Constructor {
            let here = list::one(e.loc.dup());
            if came {
                list::push(&mut out, place(kind, id, None, list::empty(), here));
            } else {
                list::push(&mut out, place(kind, id, None, here, list::empty()));
            }
        }
        i += 1;
    }
    out
}

fn deps_after(
    deps: &SortedMap<(String, String), Vec<Loc>>,
    m: &Matching,
) -> (r: SortedMap<(String, String), Vec<Loc>>)
    ensures
        r.deep_view() == renamed_deps(deps.deep_view(), m.deep_view().modules, 0, seq![]),
{
    let ghost dv = deps.deep_view();
    let ghost mv = m.deep_view().modules;
    let mut out: SortedMap<(String, String), Vec<Loc>> = SortedMap::new();
    let mut i: usize = 0;
    while i < deps.len()
        invariant
            i <= dv.len(),
            dv == deps.deep_view(),
            mv == m.deep_view().modules,
            renamed_deps(dv, mv, i as int, out.deep_view()) == renamed_deps(dv, mv, 0, seq![]),
        decreases dv.len() - i,
    {
        let k = deps.key(i);
        assert(dv[i as int].0 == (k.0@, k.1@));
        out.insert((m.module_to_after(&k.0), m.module_to_after(&k.1)), deps.value(i).dup());
        i += 1;
    }
    out
}

fn changed_deps(
    kind: &str,
    here: &SortedMap<(String, String), Vec<Loc>>,
    there: &SortedMap<(String, String), Vec<Loc>>,
    came: bool,
) -> (r: Vec<Op>)
    ensures
        r.deep_view() == dep_changes(kind@, here.deep_view(), there.deep_view(), came, 0),
{
    let ghost hv = here.deep_view();
    let ghost tv = there.deep_view();
    let mut out: Vec<Op> = list::empty();
    let mut i: usize = 0;
    while i < here.len()
        invariant
            i <= hv.len(),
            hv == here.deep_view(),
            tv == there.deep_view(),
            out.deep_view() + dep_changes(kind@, hv, tv, came, i as int) == dep_changes(
                kind@,
                hv,
                tv,
                came,
                0,
            ),
        decreases hv.len() - i,
    {
        let k = here.key(i);
        assert(hv[i as int].0 == (k.0@, k.1@));
        if !there.contains_key(k) {
            let subject = text::cat3(&k.0, " → ", &k.1);
            let locs = here.value(i).dup();
            if came {
                list::push(&mut out, place(kind, &subject, None, list::empty(), locs));
            } else {
                list::push(&mut out, place(kind, &subject, None, locs, list::empty()));
            }
        }
        i += 1;
    }
    out
}

/// The changes to where code stands.
pub fn structural(a: &Model, b: &Model, m: &Matching) -> (r: Vec<Op>)
    ensures
        r.deep_view() == structure_changes(a.deep_view(), b.deep_view(), m.deep_view()),
{
    let mut out = moves(a, b, m);
    let (came, fresh) = added_classes(a, b, m);
    let (left, lost) = removed_classes(a, b, m);
    list::append(&mut out, came);
    list::append(
        &mut out,
        changed_entities("ENTITY_ADDED", &b.entities, &m.backward, &fresh, true),
    );
    list::append(
        &mut out,
        changed_entities("ENTITY_REMOVED", &a.entities, &m.forward, &lost, false),
    );
    list::append(&mut out, left);
    let deps = deps_after(&a.module_deps, m);
    list::append(&mut out, changed_deps("DEPENDENCY_ADDED", &b.module_deps, &deps, true));
    list::append(&mut out, changed_deps("DEPENDENCY_REMOVED", &deps, &b.module_deps, false));
    out
}

fn by_key(routes: &Vec<Route>) -> (r: SortedMap<String, Route>)
    ensures
        r.deep_view() == routes_by_key(routes.deep_view(), 0, seq![]),
{
    let ghost v = routes.deep_view();
    let mut out: SortedMap<String, Route> = SortedMap::new();
    let mut i: usize = 0;
    while i < routes.len()
        invariant
            i <= routes@.len(),
            v == routes.deep_view(),
            routes_by_key(v, i as int, out.deep_view()) == routes_by_key(v, 0, seq![]),
        decreases routes@.len() - i,
    {
        out.insert(routes[i].key(), routes[i].dup());
        i += 1;
    }
    out
}

/// The texts of effects.
pub fn render_effects(effects: &SortedMap<EffectKey, EffectInfo>) -> (r: Vec<String>)
    ensures
        r.deep_view() == effect_texts(effects.deep_view()),
{
    let ghost ev = effects.deep_view();
    let mut out: Vec<String> = list::empty();
    let mut i: usize = 0;
    while i < effects.len()
        invariant
            i <= ev.len(),
            ev == effects.deep_view(),
            out.deep_view() == effect_texts(ev).take(i as int),
        decreases ev.len() - i,
    {
        list::push(&mut out, effects.key(i).render());
        i += 1;
        assert(out.deep_view() =~= effect_texts(ev).take(i as int));
    }
    assert(effect_texts(ev).take(ev.len() as int) =~= effect_texts(ev));
    out
}

fn reach(m: &Model, id: &String) -> (r: Option<String>)
    ensures
        r.deep_view() == reach_of(m.deep_view(), id@),
{
    match m.summaries.get(id) {
        Some(s) => Some(text::join(&render_effects(&s.effects), ", ")),
        None => None,
    }
}

/// The events and handlers under the new names of the handlers.
pub fn known_handlers(subs: &Vec<Subscription>, renamed: &SortedMap<String, String>) -> (r: SortedSet<
    (String, String),
>)
    ensures
        r.deep_view() == handlers_from(subs.deep_view(), renamed.deep_view(), 0, seq![]),
{
    let ghost v = subs.deep_view();
    let ghost rv = renamed.deep_view();
    let mut out: SortedSet<(String, String)> = SortedSet::new();
    let mut i: usize = 0;
    while i < subs.len()
        invariant
            i <= subs@.len(),
            v == subs.deep_view(),
            rv == renamed.deep_view(),
            handlers_from(v, rv, i as int, out.deep_view()) == handlers_from(v, rv, 0, seq![]),
        decreases subs@.len() - i,
    {
        let s = &subs[i];
        assert(v[i as int] == s.deep_view());
        out.insert((s.event.dup(), renamed_to(renamed, &s.handler)));
        i += 1;
    }
    out
}

fn renamed_to(renamed: &SortedMap<String, String>, id: &String) -> (r: String)
    ensures
        r@ == new_name(renamed.deep_view(), id@),
{
    match renamed.get(id) {
        Some(n) => n.dup(),
        None => id.dup(),
    }
}

/// The changes to the surface of the program: routes and event handlers.
pub fn surface(a: &Model, b: &Model, m: &Matching) -> (r: Vec<Op>)
    ensures
        r.deep_view() == surface_changes(a.deep_view(), b.deep_view(), m.deep_view()),
{
    let ghost av = a.deep_view();
    let ghost bv = b.deep_view();
    let ghost fv = m.deep_view().forward;
    let routes_a = by_key(&a.routes);
    let routes_b = by_key(&b.routes);
    let ghost ra = routes_a.deep_view();
    let ghost rb = routes_b.deep_view();
    let mut out: Vec<Op> = list::empty();
    let mut i: usize = 0;
    while i < routes_b.len()
        invariant
            i <= rb.len(),
            bv == b.deep_view(),
            ra == routes_a.deep_view(),
            rb == routes_b.deep_view(),
            out.deep_view() + route_gains(bv, rb, ra, i as int) == route_gains(bv, rb, ra, 0),
        decreases rb.len() - i,
    {
        let k = routes_b.key(i);
        if !routes_a.contains_key(k) {
            let route = routes_b.value(i);
            list::push(
                &mut out,
                found_op(
                    "ENTRYPOINT_ADDED",
                    Layer::Behaviour,
                    k,
                    None,
                    reach(b, &route.handler),
                    list::empty(),
                    list::one(route.loc.dup()),
                ),
            );
        }
        i += 1;
    }
    let ghost first = out.deep_view();
    i = 0;
    while i < routes_a.len()
        invariant
            i <= ra.len(),
            ra == routes_a.deep_view(),
            rb == routes_b.deep_view(),
            out.deep_view() + route_losses(ra, rb, i as int) == first + route_losses(ra, rb, 0),
        decreases ra.len() - i,
    {
        let k = routes_a.key(i);
        if !routes_b.contains_key(k) {
            list::push(
                &mut out,
                found_op(
                    "ENTRYPOINT_REMOVED",
                    Layer::Behaviour,
                    k,
                    None,
                    None,
                    list::one(routes_a.value(i).loc.dup()),
                    list::empty(),
                ),
            );
        }
        i += 1;
    }
    let ghost second = out.deep_view();
    let known = known_handlers(&a.subscriptions, &m.forward);
    let ghost kv = known.deep_view();
    i = 0;
    while i < b.subscriptions.len()
        invariant
            i <= b.subscriptions@.len(),
            bv == b.deep_view(),
            kv == known.deep_view(),
            out.deep_view() + handler_gains(bv, kv, i as int) == second + handler_gains(bv, kv, 0),
        decreases b.subscriptions@.len() - i,
    {
        let s = &b.subscriptions[i];
        assert(bv.subscriptions[i as int] == s.deep_view());
        if !known.contains(&(s.event.dup(), s.handler.dup())) {
            let mut op = found_op(
                "EVENT_HANDLER_ADDED",
                Layer::Behaviour,
                &s.event,
                None,
                reach(b, &s.handler),
                list::empty(),
                list::one(s.loc.dup()),
            );
            op.note = Some(text::cat2("handled by ", &short(&s.handler)));
            list::push(&mut out, op);
        }
        i += 1;
    }
    let ghost third = out.deep_view();
    let known = known_handlers(&b.subscriptions, &SortedMap::new());
    let ghost kv = known.deep_view();
    i = 0;
    while i < a.subscriptions.len()
        invariant
            i <= a.subscriptions@.len(),
            av == a.deep_view(),
            fv == m.deep_view().forward,
            kv == known.deep_view(),
            out.deep_view() + handler_losses(av, fv, kv, i as int) == third + handler_losses(
                av,
                fv,
                kv,
                0,
            ),
        decreases a.subscriptions@.len() - i,
    {
        let s = &a.subscriptions[i];
        assert(av.subscriptions[i as int] == s.deep_view());
        if !known.contains(&(s.event.dup(), m.to_after(&s.handler))) {
            list::push(
                &mut out,
                found_op(
                    "EVENT_HANDLER_REMOVED",
                    Layer::Behaviour,
                    &s.event,
                    None,
                    None,
                    list::one(s.loc.dup()),
                    list::empty(),
                ),
            );
        }
        i += 1;
    }
    out
}

} // verus!
