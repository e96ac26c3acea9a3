//! Where nothing changed, nothing is said: a version compared with itself has no transition.

use crate::additions::{
    field_gains, field_losses, new_code, old_schema, schema_changes, schema_name, subjects_from,
};
use crate::analysis;
use crate::behaviour::{pairs_changed, pairs_ops};
use crate::catalog::extended;
use crate::clauses::ContractDiffView;
use crate::contract;
use crate::contract::contracts_of;
use crate::design::{declared, nothing_declared, ConfigView};
use crate::entity::entity_of;
use crate::envs::envs_of;
use crate::front::program_of;
use crate::infer::{meets, new_name, sets, writers_from, writers_in};
use crate::ir::{ClassView, ConstView, ExprView, FunctionView, LocView, ModuleView, ProgramView};
use crate::matching;
use crate::matching::{matched, MatchingView};
use crate::model::{
    empty_model, route_key, CallFactView, ClassInfoView, EntityView, InvariantView, ModelView,
    RequirementView, RouteView, SchemaFactView, StateMachineView, SubscriptionView, ViolationView,
    WriteFactView,
};
use crate::ordered::{
    added, added_keeps_order, added_members, ascending, keys, lookup, lookup_after_put,
    lookup_of_other, put, put_keeps_order, rising, set_of, slot, slot_bounds, slot_of_stored,
    united, Rank,
};
use crate::pipeline;
use crate::query::SceneView;
use crate::resolve::index_of;
use crate::rules;
use crate::schema;
use crate::states;
use crate::structure;
use crate::text;
use crate::text::Text;
use crate::transition;
use crate::typing::module_env;
use vstd::prelude::*;

verus! {

// ---- models as they are built

/// Every entry of a schema's model has its module in its key, and its fields in order.
pub open spec fn is_schema(key: Text, s: SchemaFactView) -> bool {
    ascending(s.fields) && text::parted(key, "::"@) is Some
}

/// The maps of a model are in order, and its entities and classes stand under their ids.
pub open spec fn orderly(m: ModelView) -> bool {
    &&& ascending(m.entities)
    &&& ascending(m.classes)
    &&& ascending(m.module_deps)
    &&& ascending(m.schemas)
    &&& analysis::keyed(m)
    &&& forall|i: int| 0 <= i < m.classes.len() ==> (#[trigger] m.classes[i]).0 == m.classes[i].1.id
    &&& forall|i: int|
        0 <= i < m.schemas.len() ==> is_schema((#[trigger] m.schemas[i]).0, m.schemas[i].1)
}

proof fn classes_orderly(m: ModelView, classes: Seq<ClassView>, path: Text, i: int)
    requires
        orderly(m),
    ensures
        orderly(analysis::with_classes(m, classes, path, i)),
    decreases classes.len() - i,
{
    if 0 <= i < classes.len() {
        let c = classes[i];
        let info = ClassInfoView {
            id: c.id,
            name: c.name,
            module: path,
            methods: c.methods,
            loc: c.loc,
        };
        put_keeps_order(m.classes, c.id, info);
        slot_bounds(m.classes, c.id);
        classes_orderly(
            ModelView { classes: put(m.classes, c.id, info), ..m },
            classes,
            path,
            i + 1,
        );
    }
}

proof fn functions_orderly(m: ModelView, k: SceneView, fs: Seq<FunctionView>, i: int)
    requires
        orderly(m),
    ensures
        orderly(analysis::with_functions(m, k, fs, i)),
    decreases fs.len() - i,
{
    if 0 <= i < fs.len() {
        let e = entity_of(k, fs[i]);
        put_keeps_order(m.entities, e.id, e);
        slot_bounds(m.entities, e.id);
        functions_orderly(analysis::with_entity(m, e), k, fs, i + 1);
    }
}

proof fn schemas_orderly(m: ModelView, found: Seq<(Text, SchemaFactView)>, i: int)
    requires
        orderly(m),
        forall|j: int| 0 <= j < found.len() ==> is_schema((#[trigger] found[j]).0, found[j].1),
    ensures
        orderly(analysis::with_schemas(m, found, i)),
    decreases found.len() - i,
{
    if 0 <= i < found.len() {
        put_keeps_order(m.schemas, found[i].0, found[i].1);
        slot_bounds(m.schemas, found[i].0);
        schemas_orderly(
            ModelView { schemas: put(m.schemas, found[i].0, found[i].1), ..m },
            found,
            i + 1,
        );
    }
}

proof fn occurrence_is_found(s: Text, p: Text, at: int, from: int)
    requires
        text::occurs_at(s, p, at),
        0 <= from <= at,
    ensures
        text::first_from(s, p, from) is Some,
    decreases at - from,
{
    if from < at && !text::occurs_at(s, p, from) {
        occurrence_is_found(s, p, at, from + 1);
    }
}

proof fn shape_in_order(
    r: schema::ReaderView,
    props: Seq<(Text, ExprView)>,
    i: int,
    fields: Seq<(Text, Text)>,
)
    requires
        ascending(fields),
    ensures
        ascending(schema::shape_fields(r, props, i, fields)),
    decreases props.len() - i,
{
    if 0 <= i < props.len() {
        let v = schema::schema_text(r, props[i].1, false, seq![], 0).0;
        put_keeps_order(fields, props[i].0, v);
        shape_in_order(r, props, i + 1, put(fields, props[i].0, v));
    }
}

proof fn chain_in_order(
    r: schema::ReaderView,
    e: ExprView,
    collect: bool,
    fields: Seq<(Text, Text)>,
    fuel: nat,
)
    requires
        ascending(fields),
    ensures
        ascending(schema::schema_chain(r, e, collect, fields, fuel).1),
        ascending(schema::schema_text(r, e, collect, fields, fuel).1),
    decreases (if collect { 1int } else { 0int }), fuel, e,
{
    match e {
        ExprView::Call(c) => match c.callee {
            ExprView::Member { object, property } => {
                chain_in_order(r, *object, collect, fields, fuel);
                let next = schema::schema_text(r, *object, collect, fields, fuel).1;
                match schema::shape_of(r, c.args) {
                    Some(shape) => {
                        shape_in_order(r, shape, 0, next);
                    },
                    None => {},
                }
            },
            _ => {},
        },
        ExprView::Member { object, property } => {
            chain_in_order(r, *object, collect, fields, fuel);
        },
        ExprView::Ident(n) => match schema::initializer(r, n) {
            Some(init) => {
                if collect && fuel > 0 {
                    chain_in_order(r, init, true, fields, (fuel - 1) as nat);
                }
            },
            None => {},
        },
        _ => {},
    }
}

proof fn found_are_schemas(r: schema::ReaderView, cs: Seq<ConstView>, i: int)
    ensures
        forall|j: int|
            0 <= j < schema::schemas_from(r, cs, i).len() ==> is_schema(
                (#[trigger] schema::schemas_from(r, cs, i)[j]).0,
                schema::schemas_from(r, cs, i)[j].1,
            ),
    decreases cs.len() - i,
{
    if 0 <= i < cs.len() {
        found_are_schemas(r, cs, i + 1);
        match schema::schema_of(r, cs[i]) {
            Some(s) => {
                let init = cs[i].init->Some_0;
                let none = Seq::<(Text, Text)>::empty();
                assert(none =~= seq![]);
                chain_in_order(r, init, true, none, r.ix.consts as nat);
                let (whole, fields) = schema::schema_text(r, init, true, none, r.ix.consts as nat);
                put_keeps_order(fields, "*"@, whole);
                let key = r.env.module + "::"@ + cs[i].name;
                let n = r.env.module.len() as int;
                assert(key.subrange(n, n + "::"@.len()) =~= "::"@);
                occurrence_is_found(key, "::"@, n, 0);
                assert(is_schema(s.0, s.1));
            },
            None => {},
        }
        let head = match schema::schema_of(r, cs[i]) {
            Some(s) => seq![s],
            None => seq![],
        };
        let rest = schema::schemas_from(r, cs, i + 1);
        assert forall|j: int| 0 <= j < (head + rest).len() implies is_schema(
            (#[trigger] (head + rest)[j]).0,
            (head + rest)[j].1,
        ) by {
            if j < head.len() {
                assert((head + rest)[j] == head[j]);
            } else {
                assert((head + rest)[j] == rest[j - head.len()]);
            }
        }
    }
}

proof fn modules_orderly(
    m: ModelView,
    k: SceneView,
    modules: Seq<(Text, ModuleView)>,
    i: int,
)
    requires
        orderly(m),
    ensures
        orderly(analysis::with_modules(m, k, modules, i)),
    decreases modules.len() - i,
{
    if 0 <= i < modules.len() {
        let module = modules[i].1;
        classes_orderly(m, module.classes, module.path, 0);
        let a = analysis::with_classes(m, module.classes, module.path, 0);
        functions_orderly(a, k, module.functions, 0);
        let b = analysis::with_functions(a, k, module.functions, 0);
        found_are_schemas(
            schema::ReaderView { ix: k.ix, cat: k.cat, env: module_env(module.path) },
            module.consts,
            0,
        );
        schemas_orderly(b, schema::schemas_in(k.ix, k.cat, module), 0);
        modules_orderly(analysis::with_module(m, k, module), k, modules, i + 1);
    }
}

proof fn calls_in_order(
    entities: Seq<(Text, EntityView)>,
    module: Text,
    calls: Seq<CallFactView>,
    i: int,
    acc: Seq<((Text, Text), Seq<LocView>)>,
)
    requires
        ascending(acc),
    ensures
        ascending(analysis::deps_of(entities, module, calls, i, acc)),
    decreases calls.len() - i,
{
    if 0 <= i < calls.len() {
        let next = match lookup(entities, calls[i].target) {
            Some(target) => if target.module != module {
                analysis::with_site(acc, (module, target.module), calls[i].loc)
            } else {
                acc
            },
            None => acc,
        };
        match lookup(entities, calls[i].target) {
            Some(target) => {
                let key = (module, target.module);
                let sites = (match lookup(acc, key) {
                    Some(sites) => sites,
                    None => seq![],
                }).push(calls[i].loc);
                put_keeps_order(acc, key, sites);
            },
            None => {},
        }
        calls_in_order(entities, module, calls, i + 1, next);
    }
}

proof fn deps_in_order(
    entities: Seq<(Text, EntityView)>,
    i: int,
    acc: Seq<((Text, Text), Seq<LocView>)>,
)
    requires
        ascending(acc),
    ensures
        ascending(analysis::deps_from(entities, i, acc)),
    decreases entities.len() - i,
{
    if 0 <= i < entities.len() {
        let e = entities[i].1;
        calls_in_order(entities, e.module, e.calls, 0, acc);
        deps_in_order(entities, i + 1, analysis::deps_of(entities, e.module, e.calls, 0, acc));
    }
}

/// The model of any program has its maps in order, and its entities and classes under their
/// ids.
pub proof fn models_are_orderly(p: ProgramView, config: ConfigView)
    ensures
        orderly(analysis::modelled(p, config)),
{
    let cat = extended(config.catalog);
    let ix = index_of(p);
    let k = SceneView { ix, cat, envs: envs_of(ix, cat) };
    modules_orderly(empty_model(), k, p.modules, 0);
    let m = analysis::with_modules(empty_model(), k, p.modules, 0);
    deps_in_order(m.entities, 0, m.module_deps);
}

// ---- the matching of a version with itself

/// Every entity is matched with itself, and nothing moved.
pub open spec fn is_still(m: ModelView, w: MatchingView) -> bool {
    &&& forall|i: int| 0 <= i < w.forward.len() ==> (#[trigger] w.forward[i]).0 == w.forward[i].1
    &&& forall|i: int|
        0 <= i < m.entities.len() ==> lookup(w.forward, (#[trigger] m.entities[i]).0) is Some
            && lookup(w.backward, m.entities[i].0) == Some(m.entities[i].0)
    &&& w.modules.len() == 0
    &&& w.moved_classes.len() == 0
    &&& w.moved_functions.len() == 0
}

proof fn put_last<K: Rank, V>(m: Seq<(K, V)>, i: int)
    requires
        ascending(m),
        0 <= i < m.len(),
    ensures
        put(m.take(i), m[i].0, m[i].1) == m.take(i + 1),
{
    let t = m.take(i);
    let k = m[i].0;
    slot_bounds(t, k);
    let j = slot(t, k);
    if j < i {
        assert(t[j] == m[j]);
        assert(m[j].0.precedes(m[i].0));
    }
    assert(put(t, k, m[i].1) =~= m.take(i + 1));
}

/// Where no name changes, an id keeps its name.
pub proof fn name_of_same(pairs: Seq<(Text, Text)>, id: Text)
    requires
        forall|i: int| 0 <= i < pairs.len() ==> (#[trigger] pairs[i]).0 == pairs[i].1,
    ensures
        new_name(pairs, id) == id,
{
    slot_bounds(pairs, id);
}

/// The entities, each paired with itself.
spec fn selves(entities: Seq<(Text, EntityView)>) -> Seq<(Text, Text)> {
    Seq::new(entities.len(), |i: int| (entities[i].0, entities[i].0))
}

proof fn kept_are_selves(es: Seq<(Text, EntityView)>, i: int)
    requires
        ascending(es),
        0 <= i <= es.len(),
    ensures
        matching::kept_from(es, es, i, selves(es).take(i)) == selves(es),
    decreases es.len() - i,
{
    let all = selves(es);
    if i < es.len() {
        slot_of_stored(es, i);
        assert(ascending(all)) by {
            assert forall|x: int, y: int| 0 <= x < y < all.len() implies (
            #[trigger] all[x]).0.precedes((#[trigger] all[y]).0) by {
                assert(es[x].0.precedes(es[y].0));
            }
        }
        put_last(all, i);
        kept_are_selves(es, i + 1);
    } else {
        assert(all.take(i) =~= all);
    }
}

proof fn no_class_only_here(cs: Seq<(Text, ClassInfoView)>, i: int)
    requires
        ascending(cs),
        forall|j: int| 0 <= j < cs.len() ==> (#[trigger] cs[j]).0 == cs[j].1.id,
    ensures
        matching::only_here(cs, cs, i).len() == 0,
    decreases cs.len() - i,
{
    if 0 <= i < cs.len() {
        slot_of_stored(cs, i);
        no_class_only_here(cs, i + 1);
    }
}

proof fn no_function_moves(
    es: Seq<(Text, EntityView)>,
    unmatched: Seq<(Text, EntityView)>,
    i: int,
    w: MatchingView,
)
    requires
        forall|j: int| 0 <= j < es.len() ==> lookup(w.forward, (#[trigger] es[j]).0) is Some,
    ensures
        matching::functions_from(es, unmatched, i, w) == w,
    decreases es.len() - i,
{
    if 0 <= i < es.len() {
        no_function_moves(es, unmatched, i + 1, w);
    }
}

proof fn no_closure_moves(
    es: Seq<(Text, EntityView)>,
    pairs: Seq<(Text, Text)>,
    i: int,
    acc: Seq<(Text, Text)>,
)
    requires
        forall|j: int| 0 <= j < pairs.len() ==> (#[trigger] pairs[j]).0 == pairs[j].1,
    ensures
        matching::closures_from(es, es, pairs, i, acc) == acc,
    decreases pairs.len() - i,
{
    if 0 <= i < pairs.len() {
        no_closure_moves(es, pairs, i + 1, acc);
    }
}

proof fn votes_are_modules(
    es: Seq<(Text, EntityView)>,
    pairs: Seq<(Text, Text)>,
    i: int,
    acc: Seq<(Text, Seq<Text>)>,
)
    requires
        forall|j: int| 0 <= j < acc.len() ==> matching::has_module(es, (#[trigger] acc[j]).0),
    ensures
        forall|j: int|
            0 <= j < matching::votes_from(es, es, pairs, i, acc).len() ==> matching::has_module(
                es,
                (#[trigger] matching::votes_from(es, es, pairs, i, acc)[j]).0,
            ),
    decreases pairs.len() - i,
{
    if 0 <= i < pairs.len() {
        let all = matching::votes_from(es, es, pairs, i, acc);
        match (lookup(es, pairs[i].0), lookup(es, pairs[i].1)) {
            (Some(a), Some(b)) => {
                slot_bounds(es, pairs[i].0);
                let at = slot(es, pairs[i].0);
                assert(es[at].1.module == a.module);
                let v = added(
                    match lookup(acc, a.module) {
                        Some(ms) => ms,
                        None => seq![],
                    },
                    b.module,
                );
                let next = put(acc, a.module, v);
                slot_bounds(acc, a.module);
                let here = slot(acc, a.module);
                assert forall|j: int| 0 <= j < next.len() implies matching::has_module(
                    es,
                    (#[trigger] next[j]).0,
                ) by {
                    if j < here || (j > here && next.len() == acc.len()) {
                        assert(next[j] == acc[j]);
                    } else if j > here {
                        assert(next[j] == acc[j - 1]);
                    }
                }
                votes_are_modules(es, pairs, i + 1, next);
                assert(all == matching::votes_from(es, es, pairs, i + 1, next));
            },
            _ => {
                votes_are_modules(es, pairs, i + 1, acc);
                assert(all == matching::votes_from(es, es, pairs, i + 1, acc));
            },
        }
    }
}

proof fn no_module_moves(
    es: Seq<(Text, EntityView)>,
    votes: Seq<(Text, Seq<Text>)>,
    i: int,
    acc: Seq<(Text, Text)>,
)
    requires
        forall|j: int| 0 <= j < votes.len() ==> matching::has_module(es, (#[trigger] votes[j]).0),
    ensures
        matching::modules_from(es, votes, i, acc) == acc,
    decreases votes.len() - i,
{
    if 0 <= i < votes.len() {
        assert(matching::has_module(es, votes[i].0));
        no_module_moves(es, votes, i + 1, acc);
    }
}

/// A model matched with itself has every entity where it was: nothing moved, and each name stays.
pub proof fn self_match_is_still(m: ModelView)
    requires
        orderly(m),
    ensures
        is_still(m, matched(m, m)),
{
    let es = m.entities;
    let all = selves(es);
    let none = Seq::<(Text, Text)>::empty();
    assert(all.take(0) =~= seq![]);
    kept_are_selves(es, 0);
    no_class_only_here(m.classes, 0);
    let w = MatchingView { forward: all, ..matching::no_match() };
    assert(ascending(all)) by {
        assert forall|x: int, y: int| 0 <= x < y < all.len() implies (#[trigger] all[x]).0.precedes(
            (#[trigger] all[y]).0,
        ) by {
            assert(es[x].0.precedes(es[y].0));
        }
    }
    assert forall|j: int| 0 <= j < es.len() implies lookup(all, (#[trigger] es[j]).0) is Some by {
        slot_of_stored(all, j);
        assert(all[j].0 == es[j].0);
    }
    no_function_moves(es, matching::unmatched_from(es, all, 0), 0, w);
    no_closure_moves(es, all, 0, all);
    votes_are_modules(es, all, 0, seq![]);
    no_module_moves(es, matching::votes_from(es, es, all, 0, seq![]), 0, seq![]);
    let got = matched(m, m);
    assert(got.forward == all);
    assert forall|i: int| 0 <= i < es.len() implies lookup(got.forward, (#[trigger] es[i]).0) is Some
        && lookup(got.backward, es[i].0) == Some(es[i].0) by {
        matching::backward_undoes_forward(m, m, es[i].0);
        assert(all[i].1 == es[i].0);
    }
}

// ---- where code stands

proof fn no_class_comes(m: ModelView, w: MatchingView, i: int)
    requires
        orderly(m),
    ensures
        structure::class_gains(m, m, w, i).len() == 0,
        structure::class_losses(m, m, w, i).len() == 0,
    decreases m.classes.len() - i,
{
    if 0 <= i < m.classes.len() {
        slot_of_stored(m.classes, i);
        no_class_comes(m, w, i + 1);
    }
}

proof fn no_entity_comes(
    kind: Text,
    es: Seq<(Text, EntityView)>,
    known: Seq<(Text, Text)>,
    covered: Seq<Text>,
    came: bool,
    i: int,
)
    requires
        forall|j: int| 0 <= j < es.len() ==> lookup(known, (#[trigger] es[j]).0) is Some,
    ensures
        structure::entity_changes(kind, es, known, covered, came, i).len() == 0,
    decreases es.len() - i,
{
    if 0 <= i < es.len() {
        no_entity_comes(kind, es, known, covered, came, i + 1);
    }
}

proof fn deps_keep_names(
    deps: Seq<((Text, Text), Seq<LocView>)>,
    modules: Seq<(Text, Text)>,
    i: int,
)
    requires
        ascending(deps),
        modules.len() == 0,
        0 <= i <= deps.len(),
    ensures
        structure::renamed_deps(deps, modules, i, deps.take(i)) == deps,
    decreases deps.len() - i,
{
    if i < deps.len() {
        name_of_same(modules, deps[i].0.0);
        name_of_same(modules, deps[i].0.1);
        put_last(deps, i);
        deps_keep_names(deps, modules, i + 1);
    } else {
        assert(deps.take(i) =~= deps);
    }
}

proof fn no_dep_comes(
    kind: Text,
    deps: Seq<((Text, Text), Seq<LocView>)>,
    came: bool,
    i: int,
)
    requires
        ascending(deps),
    ensures
        structure::dep_changes(kind, deps, deps, came, i).len() == 0,
    decreases deps.len() - i,
{
    if 0 <= i < deps.len() {
        slot_of_stored(deps, i);
        no_dep_comes(kind, deps, came, i + 1);
    }
}

proof fn structure_is_still(m: ModelView, w: MatchingView)
    requires
        orderly(m),
        is_still(m, w),
    ensures
        structure::structure_changes(m, m, w).len() == 0,
{
    no_class_comes(m, w, 0);
    no_entity_comes(
        "ENTITY_ADDED"@,
        m.entities,
        w.backward,
        structure::new_methods(m, m, w, 0, seq![]),
        true,
        0,
    );
    no_entity_comes(
        "ENTITY_REMOVED"@,
        m.entities,
        w.forward,
        structure::lost_methods(m, m, w, 0, structure::moved_methods(m, w.moved_classes, 0, seq![])),
        false,
        0,
    );
    assert(m.module_deps.take(0) =~= seq![]);
    deps_keep_names(m.module_deps, w.modules, 0);
    no_dep_comes("DEPENDENCY_ADDED"@, m.module_deps, true, 0);
    no_dep_comes("DEPENDENCY_REMOVED"@, m.module_deps, false, 0);
}

// ---- the surface

proof fn routes_in_order(routes: Seq<RouteView>, i: int, acc: Seq<(Text, RouteView)>)
    requires
        ascending(acc),
    ensures
        ascending(structure::routes_by_key(routes, i, acc)),
    decreases routes.len() - i,
{
    if 0 <= i < routes.len() {
        let k = route_key(routes[i]);
        put_keeps_order(acc, k, routes[i]);
        routes_in_order(routes, i + 1, put(acc, k, routes[i]));
    }
}

proof fn no_route_comes(m: ModelView, rs: Seq<(Text, RouteView)>, i: int)
    requires
        ascending(rs),
    ensures
        structure::route_gains(m, rs, rs, i).len() == 0,
        structure::route_losses(rs, rs, i).len() == 0,
    decreases rs.len() - i,
{
    if 0 <= i < rs.len() {
        slot_of_stored(rs, i);
        no_route_comes(m, rs, i + 1);
    }
}

proof fn handlers_are_known(
    subs: Seq<SubscriptionView>,
    renamed: Seq<(Text, Text)>,
    i: int,
    acc: Seq<(Text, Text)>,
)
    requires
        rising(acc),
        0 <= i <= subs.len(),
        forall|j: int| 0 <= j < renamed.len() ==> (#[trigger] renamed[j]).0 == renamed[j].1,
    ensures
        forall|x: (Text, Text)|
            acc.contains(x) ==> #[trigger] structure::handlers_from(subs, renamed, i, acc).contains(
                x,
            ),
        forall|j: int|
            i <= j < subs.len() ==> structure::handlers_from(subs, renamed, i, acc).contains(
                ((#[trigger] subs[j]).event, subs[j].handler),
            ),
    decreases subs.len() - i,
{
    if i < subs.len() {
        let x = (subs[i].event, subs[i].handler);
        name_of_same(renamed, subs[i].handler);
        added_keeps_order(acc, x);
        added_members(acc, x, x);
        assert forall|y: (Text, Text)| acc.contains(y) implies added(acc, x).contains(y) by {
            added_members(acc, x, y);
        }
        handlers_are_known(subs, renamed, i + 1, added(acc, x));
        let all = structure::handlers_from(subs, renamed, i, acc);
        assert(all == structure::handlers_from(subs, renamed, i + 1, added(acc, x)));
        assert forall|y: (Text, Text)| acc.contains(y) implies #[trigger] all.contains(y) by {
            assert(added(acc, x).contains(y));
        }
        assert forall|j: int| i <= j < subs.len() implies all.contains(
            ((#[trigger] subs[j]).event, subs[j].handler),
        ) by {
            if j == i {
                assert(added(acc, x).contains(x));
            }
        }
    }
}

proof fn no_handler_comes(
    m: ModelView,
    renamed: Seq<(Text, Text)>,
    known: Seq<(Text, Text)>,
    i: int,
)
    requires
        forall|j: int| 0 <= j < renamed.len() ==> (#[trigger] renamed[j]).0 == renamed[j].1,
        forall|j: int|
            0 <= j < m.subscriptions.len() ==> known.contains(
                ((#[trigger] m.subscriptions[j]).event, m.subscriptions[j].handler),
            ),
    ensures
        structure::handler_gains(m, known, i).len() == 0,
        structure::handler_losses(m, renamed, known, i).len() == 0,
    decreases m.subscriptions.len() - i,
{
    if 0 <= i < m.subscriptions.len() {
        let s = m.subscriptions[i];
        name_of_same(renamed, s.handler);
        no_handler_comes(m, renamed, known, i + 1);
    }
}

proof fn surface_is_still(m: ModelView, w: MatchingView)
    requires
        is_still(m, w),
    ensures
        structure::surface_changes(m, m, w).len() == 0,
{
    let none = Seq::<(Text, RouteView)>::empty();
    assert(none =~= seq![]);
    routes_in_order(m.routes, 0, none);
    no_route_comes(m, structure::routes_by_key(m.routes, 0, none), 0);
    let empty = Seq::<(Text, Text)>::empty();
    assert(empty =~= seq![]);
    handlers_are_known(m.subscriptions, w.forward, 0, empty);
    handlers_are_known(m.subscriptions, empty, 0, empty);
    no_handler_comes(m, w.forward, structure::handlers_from(m.subscriptions, w.forward, 0, empty), 0);
    no_handler_comes(m, w.forward, structure::handlers_from(m.subscriptions, empty, 0, empty), 0);
}

// ---- behaviour

proof fn pairs_are_still(m: ModelView, pairs: Seq<(Text, Text)>, i: int)
    requires
        forall|j: int| 0 <= j < pairs.len() ==> (#[trigger] pairs[j]).0 == pairs[j].1,
    ensures
        pairs_ops(m, m, pairs, i).len() == 0,
        pairs_changed(m, m, pairs, i) == 0,
    decreases pairs.len() - i,
{
    if 0 <= i < pairs.len() {
        assert(pairs[i].0 == pairs[i].1);
        pairs_are_still(m, pairs, i + 1);
    }
}

proof fn no_code_is_new(m: ModelView, w: MatchingView, changed: Seq<Text>, i: int)
    requires
        is_still(m, w),
    ensures
        new_code(m, w, changed, i).len() == 0,
    decreases m.entities.len() - i,
{
    if 0 <= i < m.entities.len() {
        assert(lookup(w.backward, m.entities[i].0) is Some);
        no_code_is_new(m, w, changed, i + 1);
    }
}

/// A text is what stands before the first occurrence of `p`, then `p`, then the rest.
pub proof fn parts_rejoin(s: Text, p: Text, from: int)
    ensures
        match text::first_from(s, p, from) {
            Some(i) => s == s.take(i) + p + s.skip(i + p.len()),
            None => true,
        },
    decreases s.len() - from + 1,
{
    if from < 0 || from + p.len() > s.len() {
    } else if text::occurs_at(s, p, from) {
        assert(s.subrange(from, from + p.len()) == p);
        assert(s =~= s.take(from) + s.subrange(from, from + p.len()) + s.skip(from + p.len()));
    } else {
        parts_rejoin(s, p, from + 1);
    }
}

proof fn schema_found_is_itself(
    ss: Seq<(Text, SchemaFactView)>,
    modules: Seq<(Text, Text)>,
    k: int,
    i: int,
)
    requires
        ascending(ss),
        modules.len() == 0,
        0 <= k < ss.len(),
        text::parted(ss[k].0, "::"@) is Some,
    ensures
        match old_schema(ss, modules, schema_name(ss[k].0).0, schema_name(ss[k].0).1, i) {
            Some(s) => s == ss[k].1,
            None => true,
        },
    decreases ss.len() - i,
{
    if 0 <= i < ss.len() {
        schema_found_is_itself(ss, modules, k, i + 1);
        match text::parted(ss[i].0, "::"@) {
            Some((ma, na)) => {
                name_of_same(modules, ma);
                parts_rejoin(ss[i].0, "::"@, 0);
                parts_rejoin(ss[k].0, "::"@, 0);
                if na == schema_name(ss[k].0).1 && ma == schema_name(ss[k].0).0 {
                    assert(ss[i].0 == ss[k].0);
                    slot_of_stored(ss, i);
                    slot_of_stored(ss, k);
                }
            },
            None => {},
        }
    }
}

proof fn no_field_comes(key: Text, s: SchemaFactView, i: int)
    requires
        ascending(s.fields),
    ensures
        field_gains(key, s, s, i).len() == 0,
        field_losses(key, s, s, i).len() == 0,
    decreases s.fields.len() - i,
{
    if 0 <= i < s.fields.len() {
        slot_of_stored(s.fields, i);
        no_field_comes(key, s, i + 1);
    }
}

proof fn schemas_are_still(m: ModelView, modules: Seq<(Text, Text)>, i: int)
    requires
        orderly(m),
        modules.len() == 0,
    ensures
        schema_changes(m, m, modules, i).len() == 0,
    decreases m.schemas.len() - i,
{
    if 0 <= i < m.schemas.len() {
        let (key, s) = m.schemas[i];
        assert(is_schema(key, s));
        schema_found_is_itself(m.schemas, modules, i, 0);
        no_field_comes(key, s, 0);
        schemas_are_still(m, modules, i + 1);
    }
}

proof fn machine_is_still(
    m: ModelView,
    field: Text,
    sm: Option<StateMachineView>,
    ss: Seq<Text>,
    i: int,
)
    ensures
        states::machine_changes(m, field, sm, sm, ss, i).len() == 0,
    decreases ss.len() - i,
{
    if 0 <= i < ss.len() {
        machine_is_still(m, field, sm, ss, i + 1);
    }
}

proof fn states_are_still(m: ModelView, fields: Seq<Text>, i: int)
    ensures
        states::state_changes_from(m, m, fields, i).len() == 0,
    decreases fields.len() - i,
{
    if 0 <= i < fields.len() {
        let sm = lookup(m.state_machines, fields[i]);
        machine_is_still(
            m,
            fields[i],
            sm,
            united(states::states_reached(sm), states::states_reached(sm)),
            0,
        );
        states_are_still(m, fields, i + 1);
    }
}

// ---- design

proof fn writers_in_set(e: EntityView, field: Text, value: Text, creations: bool, i: int)
    ensures
        forall|k: int|
            0 <= k < writers_in(e, field, value, creations, i).len() ==> (
            #[trigger] writers_in(e, field, value, creations, i)[k]).0 == e && exists|j: int|
                0 <= j < e.writes.len() && sets(#[trigger] e.writes[j], field, value, true),
    decreases e.writes.len() - i,
{
    if 0 <= i < e.writes.len() {
        writers_in_set(e, field, value, creations, i + 1);
        if sets(e.writes[i], field, value, creations) {
            assert(sets(e.writes[i], field, value, true));
        }
    }
}

/// An entity of the model sets a field to a value.
spec fn is_writer(m: ModelView, e: EntityView, field: Text, value: Text) -> bool {
    (exists|n: int| 0 <= n < m.entities.len() && (#[trigger] m.entities[n]).1 == e) && exists|j: int|
        0 <= j < e.writes.len() && sets(#[trigger] e.writes[j], field, value, true)
}

proof fn writers_set(m: ModelView, field: Text, value: Text, creations: bool, i: int)
    requires
        0 <= i,
    ensures
        forall|k: int|
            0 <= k < writers_from(m.entities, field, value, creations, i).len() ==> is_writer(
                m,
                (#[trigger] writers_from(m.entities, field, value, creations, i)[k]).0,
                field,
                value,
            ),
    decreases m.entities.len() - i,
{
    if i < m.entities.len() {
        writers_set(m, field, value, creations, i + 1);
        let e = m.entities[i].1;
        writers_in_set(e, field, value, creations, 0);
        let head = writers_in(e, field, value, creations, 0);
        let rest = writers_from(m.entities, field, value, creations, i + 1);
        assert forall|k: int| 0 <= k < (head + rest).len() implies is_writer(
            m,
            (#[trigger] (head + rest)[k]).0,
            field,
            value,
        ) by {
            if k < head.len() {
                assert((head + rest)[k] == head[k]);
            } else {
                assert((head + rest)[k] == rest[k - head.len()]);
            }
        }
    }
}

proof fn writers_are_still(
    m: ModelView,
    w: MatchingView,
    inv: InvariantView,
    ws: Seq<(EntityView, WriteFactView)>,
    i: int,
)
    requires
        orderly(m),
        is_still(m, w),
        forall|k: int|
            0 <= k < ws.len() ==> is_writer(m, (#[trigger] ws[k]).0, inv.field, inv.value),
    ensures
        rules::breaches_from(m, m, w, inv, ws, i).len() == 0,
    decreases ws.len() - i,
{
    if 0 <= i < ws.len() {
        let e = ws[i].0;
        assert(is_writer(m, ws[i].0, inv.field, inv.value));
        let n = choose|n: int| 0 <= n < m.entities.len() && (#[trigger] m.entities[n]).1 == e;
        assert(m.entities[n].0 == e.id);
        slot_of_stored(m.entities, n);
        assert(lookup(w.backward, m.entities[n].0) == Some(e.id));
        assert(lookup(m.entities, e.id) == Some(e));
        assert(rules::sets_state(e, inv));
        assert(meets(m, inv, e, w.forward) == meets(m, inv, e, seq![])) by {
            match inv.requirement {
                RequirementView::Guard(key) => match text::parted(key, "call:"@) {
                    Some((neg, id)) => {
                        name_of_same(w.forward, id);
                        name_of_same(seq![], id);
                    },
                    None => {},
                },
                _ => {},
            }
        }
        writers_are_still(m, w, inv, ws, i + 1);
    }
}

proof fn invariants_are_still(m: ModelView, w: MatchingView, i: int)
    requires
        orderly(m),
        is_still(m, w),
    ensures
        rules::breaches(m, m, w, i).len() == 0,
    decreases m.invariants.len() - i,
{
    if 0 <= i < m.invariants.len() {
        let inv = m.invariants[i];
        writers_set(m, inv.field, inv.value, inv.requirement is CoWrite, 0);
        writers_are_still(m, w, inv, rules::concerned(m, inv), 0);
        invariants_are_still(m, w, i + 1);
    }
}

proof fn detail_keeps_name(w: MatchingView, detail: Text)
    requires
        w.modules.len() == 0,
        forall|i: int| 0 <= i < w.forward.len() ==> (#[trigger] w.forward[i]).0 == w.forward[i].1,
    ensures
        rules::renamed_detail(w, detail) == detail,
{
    name_of_same(w.forward, detail);
    match text::parted(detail, " → "@) {
        Some((x, y)) => {
            name_of_same(w.modules, x);
            name_of_same(w.modules, y);
            parts_rejoin(detail, " → "@, 0);
        },
        None => {},
    }
}

/// The violations of a kind on a subject.
spec fn is_on(v: ViolationView, k: (Text, Text)) -> bool {
    v.kind == k.0 && v.subject == k.1
}

/// The details hold that of every violation before index `i`, and nothing stands without a
/// violation.
spec fn has_details(vs: Seq<ViolationView>, acc: Seq<((Text, Text), Seq<Text>)>, i: int) -> bool {
    &&& ascending(acc)
    &&& forall|j: int|
        0 <= j < i ==> (match lookup(acc, ((#[trigger] vs[j]).kind, vs[j].subject)) {
            Some(ds) => ds.contains(vs[j].detail),
            None => false,
        })
    &&& forall|n: int|
        0 <= n < acc.len() ==> rising((#[trigger] acc[n]).1) && exists|j: int|
            0 <= j < i && is_on(#[trigger] vs[j], acc[n].0)
}

proof fn details_are_known(
    vs: Seq<ViolationView>,
    w: MatchingView,
    i: int,
    acc: Seq<((Text, Text), Seq<Text>)>,
)
    requires
        w.modules.len() == 0,
        forall|j: int| 0 <= j < w.forward.len() ==> (#[trigger] w.forward[j]).0 == w.forward[j].1,
        0 <= i <= vs.len(),
        has_details(vs, acc, i),
    ensures
        has_details(vs, rules::details_from(vs, w, i, acc), vs.len() as int),
    decreases vs.len() - i,
{
    if i < vs.len() {
        let k = (vs[i].kind, vs[i].subject);
        let had = match lookup(acc, k) {
            Some(d) => d,
            None => seq![],
        };
        detail_keeps_name(w, vs[i].detail);
        slot_bounds(acc, k);
        assert(rising(had));
        let ds = added(had, vs[i].detail);
        added_keeps_order(had, vs[i].detail);
        added_members(had, vs[i].detail, vs[i].detail);
        let next = put(acc, k, ds);
        put_keeps_order(acc, k, ds);
        lookup_after_put(acc, k, ds);
        assert forall|j: int| 0 <= j < i + 1 implies (match lookup(
            next,
            ((#[trigger] vs[j]).kind, vs[j].subject),
        ) {
            Some(ds) => ds.contains(vs[j].detail),
            None => false,
        }) by {
            let kj = (vs[j].kind, vs[j].subject);
            if kj == k {
                added_members(had, vs[i].detail, vs[j].detail);
            } else {
                lookup_of_other(acc, k, ds, kj);
            }
        }
        assert forall|n: int| 0 <= n < next.len() implies rising((#[trigger] next[n]).1)
            && exists|j: int| 0 <= j < i + 1 && is_on(#[trigger] vs[j], next[n].0) by {
            assert(is_on(vs[i], k));
            if next[n] != (k, ds) {
                let o = if n < slot(acc, k) || next.len() == acc.len() {
                    n
                } else {
                    n - 1
                };
                assert(next[n] == acc[o]);
            }
        }
        details_are_known(vs, w, i + 1, next);
    }
}

/// The violations hold every one before index `i` under its kind and subject.
spec fn has_violations(
    vs: Seq<ViolationView>,
    acc: Seq<((Text, Text), Seq<ViolationView>)>,
    i: int,
) -> bool {
    &&& ascending(acc)
    &&& forall|j: int|
        0 <= j < i ==> (match lookup(acc, ((#[trigger] vs[j]).kind, vs[j].subject)) {
            Some(xs) => xs.len() > 0,
            None => false,
        })
    &&& forall|n: int, x: int|
        0 <= n < acc.len() && 0 <= x < acc[n].1.len() ==> is_on(
            #[trigger] acc[n].1[x],
            acc[n].0,
        ) && vs.contains(acc[n].1[x])
}

proof fn violations_are_known(
    vs: Seq<ViolationView>,
    i: int,
    acc: Seq<((Text, Text), Seq<ViolationView>)>,
)
    requires
        0 <= i <= vs.len(),
        has_violations(vs, acc, i),
    ensures
        has_violations(vs, rules::by_subject(vs, i, acc), vs.len() as int),
    decreases vs.len() - i,
{
    if i < vs.len() {
        let k = (vs[i].kind, vs[i].subject);
        let had = match lookup(acc, k) {
            Some(d) => d,
            None => seq![],
        };
        slot_bounds(acc, k);
        let at = slot(acc, k);
        let xs = had.push(vs[i]);
        let next = put(acc, k, xs);
        put_keeps_order(acc, k, xs);
        lookup_after_put(acc, k, xs);
        assert forall|j: int| 0 <= j < i + 1 implies (match lookup(
            next,
            ((#[trigger] vs[j]).kind, vs[j].subject),
        ) {
            Some(xs) => xs.len() > 0,
            None => false,
        }) by {
            let kj = (vs[j].kind, vs[j].subject);
            if kj != k {
                lookup_of_other(acc, k, xs, kj);
            }
        }
        assert forall|n: int, x: int|
            0 <= n < next.len() && 0 <= x < next[n].1.len() implies is_on(
            #[trigger] next[n].1[x],
            next[n].0,
        ) && vs.contains(next[n].1[x]) by {
            if n == at {
                assert(next[n] == (k, xs));
                if x < had.len() {
                    assert(had == acc[at].1);
                    assert(is_on(acc[at].1[x], acc[at].0));
                } else {
                    assert(xs[x] == vs[i]);
                }
            } else {
                let o = if n < at || next.len() == acc.len() {
                    n
                } else {
                    n - 1
                };
                assert(next[n] == acc[o]);
                assert(is_on(acc[o].1[x], acc[o].0));
            }
        }
        violations_are_known(vs, i + 1, next);
    }
}

proof fn none_is_fresh(xs: Seq<ViolationView>, known: Seq<Text>, i: int)
    requires
        forall|x: int| 0 <= x < xs.len() ==> known.contains((#[trigger] xs[x]).detail),
    ensures
        rules::fresh_from(xs, Some(known), i).len() == 0,
    decreases xs.len() - i,
{
    if 0 <= i < xs.len() {
        none_is_fresh(xs, known, i + 1);
    }
}

proof fn no_rule_breaks(
    vs: Seq<ViolationView>,
    vb: Seq<((Text, Text), Seq<ViolationView>)>,
    va: Seq<((Text, Text), Seq<Text>)>,
    i: int,
)
    requires
        has_details(vs, va, vs.len() as int),
        has_violations(vs, vb, vs.len() as int),
    ensures
        rules::rules_broken(vb, va, i).len() == 0,
    decreases vb.len() - i,
{
    if 0 <= i < vb.len() {
        let (k, xs) = vb[i];
        if xs.len() == 0 {
        } else {
            assert(is_on(vb[i].1[0], vb[i].0));
            let j = choose|j: int| 0 <= j < vs.len() && vs[j] == xs[0];
            assert(lookup(va, (vs[j].kind, vs[j].subject)) is Some);
            let known = lookup(va, k)->Some_0;
            assert forall|x: int| 0 <= x < xs.len() implies known.contains(
                (#[trigger] xs[x]).detail,
            ) by {
                assert(is_on(vb[i].1[x], vb[i].0));
                let j = choose|j: int| 0 <= j < vs.len() && vs[j] == xs[x];
                assert(lookup(va, (vs[j].kind, vs[j].subject)) is Some);
            }
            none_is_fresh(xs, known, 0);
        }
        no_rule_breaks(vs, vb, va, i + 1);
    }
}

proof fn no_rule_mends(
    vs: Seq<ViolationView>,
    oa: Seq<((Text, Text), Seq<ViolationView>)>,
    vb: Seq<((Text, Text), Seq<ViolationView>)>,
    i: int,
)
    requires
        has_violations(vs, oa, vs.len() as int),
        has_violations(vs, vb, vs.len() as int),
    ensures
        rules::rules_mended(oa, vb, i).len() == 0,
    decreases oa.len() - i,
{
    if 0 <= i < oa.len() {
        if oa[i].1.len() > 0 {
            let x = oa[i].1[0];
            assert(is_on(oa[i].1[0], oa[i].0));
            let j = choose|j: int| 0 <= j < vs.len() && vs[j] == x;
            assert(lookup(vb, (vs[j].kind, vs[j].subject)) is Some);
        }
        no_rule_mends(vs, oa, vb, i + 1);
    }
}

proof fn rules_are_still(m: ModelView, w: MatchingView)
    requires
        is_still(m, w),
    ensures
        rules::rule_changes(m, m, w).len() == 0,
{
    let vs = m.violations;
    let da = Seq::<((Text, Text), Seq<Text>)>::empty();
    let db = Seq::<((Text, Text), Seq<ViolationView>)>::empty();
    assert(da =~= seq![]);
    assert(db =~= seq![]);
    details_are_known(vs, w, 0, da);
    violations_are_known(vs, 0, db);
    no_rule_breaks(vs, rules::by_subject(vs, 0, db), rules::details_from(vs, w, 0, da), 0);
    no_rule_mends(vs, rules::by_subject(vs, 0, db), rules::by_subject(vs, 0, db), 0);
}

// ---- the whole

proof fn untyped_are_still(m: ModelView, w: MatchingView, explained: Seq<Text>, i: int)
    requires
        forall|j: int| 0 <= j < w.forward.len() ==> (#[trigger] w.forward[j]).0 == w.forward[j].1,
    ensures
        transition::untyped_changes(m, m, w, explained, i).len() == 0,
        transition::logging_changes(m, m, w.forward, i).len() == 0,
    decreases w.forward.len() - i,
{
    if 0 <= i < w.forward.len() {
        assert(w.forward[i].0 == w.forward[i].1);
        untyped_are_still(m, w, explained, i + 1);
    }
}

/// A model compared with itself has no operations: nothing that it holds counts as a change.
pub proof fn same_model_has_no_operations(m: ModelView)
    requires
        orderly(m),
    ensures
        transition::ops_between(m, m).len() == 0,
        pairs_changed(m, m, matched(m, m).forward, 0) == 0,
{
    let w = matched(m, m);
    self_match_is_still(m);
    structure_is_still(m, w);
    surface_is_still(m, w);
    pairs_are_still(m, w.forward, 0);
    let direct = transition::direct_ops(m, m, w);
    no_code_is_new(m, w, subjects_from(direct, 0, seq![]), 0);
    schemas_are_still(m, w.modules, 0);
    let machines = set_of(keys(m.state_machines));
    states_are_still(m, united(machines, machines), 0);
    invariants_are_still(m, w, 0);
    rules_are_still(m, w);
    let typed = transition::typed_ops(m, m, w);
    untyped_are_still(m, w, subjects_from(typed, 0, seq![]), 0);
}

proof fn no_body_changes(m: ModelView, pairs: Seq<(Text, Text)>, i: int, acc: Seq<Text>)
    requires
        forall|j: int| 0 <= j < pairs.len() ==> (#[trigger] pairs[j]).0 == pairs[j].1,
    ensures
        contract::changed_bodies(m, m, pairs, i, acc) == acc,
    decreases pairs.len() - i,
{
    if 0 <= i < pairs.len() {
        assert(pairs[i].0 == pairs[i].1);
        no_body_changes(m, pairs, i + 1, acc);
    }
}

proof fn no_function_is_new(m: ModelView, w: MatchingView, i: int, acc: Seq<Text>)
    requires
        is_still(m, w),
    ensures
        contract::new_functions(m, w.backward, i, acc) == acc,
    decreases m.entities.len() - i,
{
    if 0 <= i < m.entities.len() {
        assert(lookup(w.backward, m.entities[i].0) is Some);
        no_function_is_new(m, w, i + 1, acc);
    }
}

proof fn no_handler_is_new(
    m: ModelView,
    known: Seq<(Text, Text)>,
    i: int,
    names: Seq<(Text, Text)>,
    changed: Seq<Text>,
)
    requires
        forall|j: int|
            0 <= j < m.subscriptions.len() ==> known.contains(
                ((#[trigger] m.subscriptions[j]).event, m.subscriptions[j].handler),
            ),
    ensures
        contract::with_handlers(m, known, i, names, changed) == (names, changed),
    decreases m.subscriptions.len() - i,
{
    if 0 <= i < m.subscriptions.len() {
        assert(known.contains((m.subscriptions[i].event, m.subscriptions[i].handler)));
        no_handler_is_new(m, known, i + 1, names, changed);
    }
}

proof fn no_route_is_new(m: ModelView, i: int, cs: Seq<(Text, ContractDiffView)>)
    ensures
        contract::with_routes(m, m, i, cs) == cs,
    decreases m.routes.len() - i,
{
    if 0 <= i < m.routes.len() {
        assert(contract::has_route(m.routes, route_key(m.routes[i])));
        no_route_is_new(m, i + 1, cs);
    }
}

/// A model compared with itself has no contracts to tell of.
pub proof fn same_model_has_no_contracts(m: ModelView)
    requires
        orderly(m),
    ensures
        contracts_of(m, m, matched(m, m), transition::ops_between(m, m)).len() == 0,
{
    let w = matched(m, m);
    let ops = transition::ops_between(m, m);
    self_match_is_still(m);
    same_model_has_no_operations(m);
    let empty = Seq::<(Text, Text)>::empty();
    assert(empty =~= seq![]);
    let none = Seq::<Text>::empty();
    assert(none =~= seq![]);
    no_body_changes(m, w.forward, 0, none);
    no_function_is_new(m, w, 0, none);
    handlers_are_known(m.subscriptions, w.forward, 0, empty);
    no_handler_is_new(
        m,
        structure::handlers_from(m.subscriptions, w.forward, 0, empty),
        0,
        empty,
        none,
    );
    let cs = Seq::<(Text, ContractDiffView)>::empty();
    assert(cs =~= seq![]);
    no_route_is_new(m, 0, cs);
    let d = contract::drafted(m, m, w, ops);
    assert(contract::concerned(m, m, w, ops) == (empty, none));
    assert(d.contracts == cs);
    assert(d.schemas.len() == 0);
    assert(d.program.len() == 0);
}

/// Identical sources have no transition: no operation, no contract and no changed entity.
pub proof fn same_sources_have_no_transition(files: Seq<(Text, Text)>)
    ensures
        match pipeline::transition_of(files, files) {
            Ok(t) => t.ops.len() == 0 && t.contracts.len() == 0 && t.stats.entities_changed == 0,
            Err(_) => pipeline::model_of(files) is Err,
        },
{
    match pipeline::model_of(files) {
        Ok(m) => {
            let p = program_of(files);
            let config = match lookup(files, "merak.toml"@) {
                Some(t) => declared(t)->Ok_0,
                None => nothing_declared(),
            };
            models_are_orderly(p, config);
            assert(m == analysis::modelled(p, config));
            same_model_has_no_operations(m);
            same_model_has_no_contracts(m);
        },
        Err(_) => {},
    }
}

} // verus!
