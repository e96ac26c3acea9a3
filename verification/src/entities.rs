//! What the entity of a function keeps of it: who it is, what its body does, what it takes and what
//! its decorators declare.

use crate::entity::{
    after_stmts, creation_writes, cx_of, entity_of, facts_of, filled, joined_route, kind_of, no_facts,
    param_texts, returns_from, with_decorator, with_decorators,
};
use crate::extract::{CxView, FactsView, PlaceView};
use crate::hook::{part_of_joined, part_of_text};
use crate::ir::{CallView, ExprView, FunctionKind, FunctionView, LocView, ParamView, StmtView};
use crate::model::WriteFactView;
use crate::query::SceneView;
use crate::text;
use crate::text::Text;
use crate::typing::constant;
use vstd::prelude::*;

verus! {

/// Functions, methods, constructors and closures stay told apart.
pub proof fn kinds_are_kept_apart(a: FunctionKind, b: FunctionKind)
    ensures
        kind_of(a) == kind_of(b) <==> a == b,
{
}

/// What the body of a function does, read from its first statement on.
pub open spec fn body_facts(k: SceneView, f: FunctionView) -> FactsView {
    after_stmts(
        cx_of(k, f),
        f.body,
        0,
        true,
        PlaceView {
            path: seq![],
            nested: false,
            filtered: k.envs.filter_callbacks.contains(f.id),
        },
        no_facts(),
    )
}

/// Two lists of facts differ at most in what decorators declare, and the second adds to the first.
pub open spec fn adds_declared(a: FactsView, b: FactsView) -> bool {
    &&& a.calls == b.calls
    &&& a.effects == b.effects
    &&& a.reads == b.reads
    &&& a.writes == b.writes
    &&& a.guards == b.guards
    &&& a.outputs == b.outputs
    &&& a.throws == b.throws
    &&& a.unknowns == b.unknowns
    &&& a.call_shapes == b.call_shapes
    &&& a.filters == b.filters
    &&& a.logs == b.logs
    &&& a.access.is_prefix_of(b.access)
    &&& a.routes.is_prefix_of(b.routes)
    &&& a.subscriptions.is_prefix_of(b.subscriptions)
}

proof fn decorator_adds(cx: CxView, class: Option<Text>, d: CallView, f: FactsView)
    ensures
        adds_declared(f, with_decorator(cx, class, d, f)),
{
}

proof fn decorators_add(cx: CxView, class: Option<Text>, ds: Seq<CallView>, i: int, f: FactsView)
    ensures
        adds_declared(f, with_decorators(cx, class, ds, i, f)),
    decreases ds.len() - i,
{
    if 0 <= i < ds.len() {
        let g = with_decorator(cx, class, ds[i], f);
        let h = with_decorators(cx, class, ds, i + 1, g);
        decorator_adds(cx, class, ds[i], f);
        decorators_add(cx, class, ds, i + 1, g);
        chained(f.access, g.access, h.access);
        chained(f.routes, g.routes, h.routes);
        chained(f.subscriptions, g.subscriptions, h.subscriptions);
    }
}

proof fn chained<T>(a: Seq<T>, b: Seq<T>, c: Seq<T>)
    requires
        a.is_prefix_of(b),
        b.is_prefix_of(c),
    ensures
        a.is_prefix_of(c),
{
    assert(c.subrange(0, a.len() as int) =~= b.subrange(0, a.len() as int));
}

/// The entity of a function is the one of its name, at its place, and keeps all that its body
/// does.
pub proof fn entities_keep_their_functions(k: SceneView, f: FunctionView)
    ensures
        entity_of(k, f).id == f.id,
        entity_of(k, f).name == f.name,
        entity_of(k, f).class == f.class,
        entity_of(k, f).parent == f.parent,
        entity_of(k, f).loc == f.loc,
        entity_of(k, f).end_line == f.end_line,
        entity_of(k, f).body_hash == f.body_hash,
        entity_of(k, f).calls == body_facts(k, f).calls,
        entity_of(k, f).effects == body_facts(k, f).effects,
        entity_of(k, f).reads == body_facts(k, f).reads,
        entity_of(k, f).writes == body_facts(k, f).writes,
        entity_of(k, f).guards == body_facts(k, f).guards,
        entity_of(k, f).outputs == body_facts(k, f).outputs,
        entity_of(k, f).throws == body_facts(k, f).throws,
        entity_of(k, f).unknowns == body_facts(k, f).unknowns,
        entity_of(k, f).call_shapes == body_facts(k, f).call_shapes,
        entity_of(k, f).filters == body_facts(k, f).filters,
        entity_of(k, f).logs == body_facts(k, f).logs,
        body_facts(k, f).access.is_prefix_of(entity_of(k, f).access),
        body_facts(k, f).routes.is_prefix_of(entity_of(k, f).routes),
        body_facts(k, f).subscriptions.is_prefix_of(entity_of(k, f).subscriptions),
{
    decorators_add(cx_of(k, f), f.class, f.decorators, 0, body_facts(k, f));
    assert(facts_of(k, f) == with_decorators(
        cx_of(k, f),
        f.class,
        f.decorators,
        0,
        body_facts(k, f),
    ));
}

proof fn texts_of_params(params: Seq<ParamView>, i: int)
    requires
        0 <= i <= params.len(),
    ensures
        param_texts(params, i).len() == params.len() - i,
        forall|n: int|
            0 <= n < params.len() - i ==> text::begins(
                #[trigger] param_texts(params, i)[n],
                params[i + n].name,
            ),
    decreases params.len() - i,
{
    if i < params.len() {
        texts_of_params(params, i + 1);
        let rest = param_texts(params, i + 1);
        let all = param_texts(params, i);
        assert(text::begins(all[0], params[i].name)) by {
            let x = params[i].name;
            assert(all[0].subrange(0, x.len() as int) =~= x);
        }
        assert forall|n: int| 0 <= n < params.len() - i implies text::begins(
            #[trigger] all[n],
            params[i + n].name,
        ) by {
            if n > 0 {
                assert(all[n] == rest[n - 1]);
                assert(text::begins(rest[n - 1], params[i + 1 + (n - 1)].name));
            }
        }
    }
}

/// What an entity takes are the parameters of its function, in their order and by their names.
pub proof fn parameters_keep_their_names(k: SceneView, f: FunctionView, n: int)
    requires
        0 <= n < f.params.len(),
    ensures
        entity_of(k, f).params.len() == f.params.len(),
        text::begins(entity_of(k, f).params[n], f.params[n].name),
{
    texts_of_params(f.params, 0);
    assert(f.params[0 + n] == f.params[n]);
    assert(param_texts(f.params, 0)[n] == entity_of(k, f).params[n]);
}

proof fn created_from(
    cx: CxView,
    record: Text,
    props: Seq<(Text, ExprView)>,
    loc: LocView,
    i: int,
    k: int,
)
    requires
        0 <= i <= k < props.len(),
        props[k].0 != "..."@,
    ensures
        is_created(
            creation_writes(cx, record, props, loc, i),
            record + "."@ + props[k].0,
            constant(cx.scene.ix, cx.env, props[k].1),
            loc,
        ),
    decreases k - i,
{
    let rest = creation_writes(cx, record, props, loc, i + 1);
    let all = creation_writes(cx, record, props, loc, i);
    let field = record + "."@ + props[k].0;
    let value = constant(cx.scene.ix, cx.env, props[k].1);
    if i == k {
        assert(all[0].field == field);
    } else {
        created_from(cx, record, props, loc, i + 1, k);
        let j = choose|j: int|
            0 <= j < rest.len() && (#[trigger] rest[j]).field == field && rest[j].value == value
                && rest[j].creation && rest[j].loc == loc;
        let h = all.len() - rest.len();
        assert(all[h + j] == rest[j]);
    }
}

/// Some write creates a record with this value of a field.
pub open spec fn is_created(
    writes: Seq<WriteFactView>,
    field: Text,
    value: Option<Text>,
    loc: LocView,
) -> bool {
    exists|j: int|
        0 <= j < writes.len() && (#[trigger] writes[j]).field == field && writes[j].value == value
            && writes[j].creation && writes[j].loc == loc
}

/// A record that is created with a field writes that field, with its value.
pub proof fn creations_write_their_fields(
    cx: CxView,
    record: Text,
    props: Seq<(Text, ExprView)>,
    loc: LocView,
    k: int,
)
    requires
        0 <= k < props.len(),
        props[k].0 != "..."@,
    ensures
        is_created(
            creation_writes(cx, record, props, loc, 0),
            record + "."@ + props[k].0,
            constant(cx.scene.ix, cx.env, props[k].1),
            loc,
        ),
{
    created_from(cx, record, props, loc, 0, k);
}

proof fn filled_keeps(segs: Seq<Text>, i: int, k: int)
    requires
        0 <= i <= k < segs.len(),
        segs[k].len() > 0,
    ensures
        filled(segs, i).contains(segs[k]),
    decreases k - i,
{
    let rest = filled(segs, i + 1);
    let all = filled(segs, i);
    if i == k {
        assert(all[0] == segs[k]);
    } else {
        filled_keeps(segs, i + 1, k);
        let j = choose|j: int| 0 <= j < rest.len() && rest[j] == segs[k];
        let h = all.len() - rest.len();
        assert(all[h + j] == rest[j]);
    }
}

/// A route starts at the root and has every segment of its prefix and of its path.
pub proof fn routes_have_their_segments(prefix: Text, path: Text, k: int)
    ensures
        text::begins(joined_route(prefix, path), "/"@),
        0 <= k < text::pieces(prefix, "/"@).len() && text::pieces(prefix, "/"@)[k].len() > 0
            ==> text::has_text(joined_route(prefix, path), text::pieces(prefix, "/"@)[k]),
        0 <= k < text::pieces(path, "/"@).len() && text::pieces(path, "/"@)[k].len() > 0
            ==> text::has_text(joined_route(prefix, path), text::pieces(path, "/"@)[k]),
{
    let a = text::pieces(prefix, "/"@);
    let b = text::pieces(path, "/"@);
    let parts = filled(a, 0) + filled(b, 0);
    let route = joined_route(prefix, path);
    let rest = text::joined(parts, "/"@);
    assert(route.subrange(0, "/"@.len() as int) =~= "/"@);
    if 0 <= k < a.len() && a[k].len() > 0 {
        filled_keeps(a, 0, k);
        let j = choose|j: int| 0 <= j < filled(a, 0).len() && filled(a, 0)[j] == a[k];
        assert(parts[j] == a[k]);
        part_of_joined(parts, "/"@, 0, j);
        part_of_text("/"@, rest, seq![], a[k]);
        assert("/"@ + rest + Seq::<char>::empty() =~= route);
    }
    if 0 <= k < b.len() && b[k].len() > 0 {
        filled_keeps(b, 0, k);
        let j = choose|j: int| 0 <= j < filled(b, 0).len() && filled(b, 0)[j] == b[k];
        let at = filled(a, 0).len() + j;
        assert(parts[at] == b[k]);
        part_of_joined(parts, "/"@, 0, at);
        part_of_text("/"@, rest, seq![], b[k]);
        assert("/"@ + rest + Seq::<char>::empty() =~= route);
    }
}

proof fn returns_are(body: Seq<StmtView>, i: int, n: int)
    requires
        0 <= i <= n < body.len(),
        body[n] matches StmtView::Return(e, _) && e is Some,
    ensures
        returns_from(body, i).contains((body[n]->Return_0->0, body[n]->Return_1)),
    decreases n - i,
{
    let x = (body[n]->Return_0->0, body[n]->Return_1);
    let rest = returns_from(body, i + 1);
    let all = returns_from(body, i);
    if i == n {
        assert(all[0] == x);
    } else {
        returns_are(body, i + 1, n);
        let j = choose|j: int| 0 <= j < rest.len() && rest[j] == x;
        let h = all.len() - rest.len();
        assert(all[h + j] == rest[j]);
    }
}

/// A function that returns at two places of its body has no single answer.
pub proof fn two_answers_are_none(k: SceneView, f: FunctionView, m: int, n: int)
    requires
        0 <= m < n < f.body.len(),
        f.body[m] matches StmtView::Return(e, _) && e is Some,
        f.body[n] matches StmtView::Return(e, _) && e is Some,
    ensures
        entity_of(k, f).returns is None,
{
    returns_grow(f.body, 0, m);
    returns_grow(f.body, m + 1, n);
    returns_shrink(f.body, 0, m);
}

proof fn returns_grow(body: Seq<StmtView>, i: int, n: int)
    requires
        0 <= i <= n < body.len(),
        body[n] matches StmtView::Return(e, _) && e is Some,
    ensures
        returns_from(body, i).len() >= 1,
{
    returns_are(body, i, n);
}

proof fn returns_shrink(body: Seq<StmtView>, i: int, m: int)
    requires
        0 <= i <= m < body.len(),
        body[m] matches StmtView::Return(e, _) && e is Some,
    ensures
        returns_from(body, i).len() >= 1 + returns_from(body, m + 1).len(),
    decreases m - i,
{
    if i < m {
        returns_shrink(body, i + 1, m);
    }
}

} // verus!
