//! What code does is found: every call, assignment, read and filter in an expression or a
//! statement leaves its fact, wherever it stands, and no later fact takes one away.

use crate::catalog::{any_fits, effect_from, route_from, segments_of, spec_value, subscribe_from};
use crate::entity::{
    after_stmt, after_stmts, creation_writes, exit_of, is_trailing_if, place_after, with_creation,
    with_guard,
};
use crate::extract::{
    access_in_args, after_call, after_expr, after_exprs, after_fields, call_shape_of, condition,
    conditions_at, handler_at, handler_index, inside_region, logs, shape_at, site_at,
    under_condition, value_or, with_call, with_closure, with_external, with_filter, with_read,
    with_shape, CxView, FactsView, PlaceView,
};
use crate::ir::{CallView, ExprView, LocView, StmtView};
use crate::model::{
    AccessFactView, CallFactView, CallShapeView, EffectFactView, EffectKeyView, QueryFilterView,
    RouteView, SubscriptionView, UnknownView, WriteFactView,
};
use crate::ordered::{
    added, added_keeps_order, added_members, ascending, lookup, lookup_after_put, lookup_of_other,
    put, put_keeps_order, rising,
};
use crate::pred::{negation, pred_text};
use crate::query::filter_text;
use crate::resolve::CalleeView;
use crate::text;
use crate::text::Text;
use crate::typing::{called, constant, field_at};
use vstd::prelude::*;

verus! {

// ---- facts stay

/// Reads and consumed closures are in order.
pub open spec fn is_tidy(f: FactsView) -> bool {
    ascending(f.reads) && rising(f.consumed)
}

/// Every fact that was there is there.
#[verifier::opaque]
pub open spec fn keeps(f: FactsView, g: FactsView) -> bool {
    &&& forall|x: CallFactView| #[trigger] f.calls.contains(x) ==> g.calls.contains(x)
    &&& forall|x: EffectFactView| #[trigger] f.effects.contains(x) ==> g.effects.contains(x)
    &&& forall|x: WriteFactView| #[trigger] f.writes.contains(x) ==> g.writes.contains(x)
    &&& forall|x: SubscriptionView|
        #[trigger] f.subscriptions.contains(x) ==> g.subscriptions.contains(x)
    &&& forall|x: RouteView| #[trigger] f.routes.contains(x) ==> g.routes.contains(x)
    &&& forall|x: UnknownView| #[trigger] f.unknowns.contains(x) ==> g.unknowns.contains(x)
    &&& forall|x: CallShapeView| #[trigger] f.call_shapes.contains(x) ==> g.call_shapes.contains(x)
    &&& forall|x: QueryFilterView| #[trigger] f.filters.contains(x) ==> g.filters.contains(x)
    &&& forall|x: CallShapeView| #[trigger] f.logs.contains(x) ==> g.logs.contains(x)
    &&& forall|x: AccessFactView| #[trigger] f.access.contains(x) ==> g.access.contains(x)
    &&& forall|k: Text| (#[trigger] lookup(f.reads, k) is Some) ==> lookup(g.reads, k) is Some
    &&& forall|id: Text| #[trigger] f.consumed.contains(id) ==> g.consumed.contains(id)
}

proof fn keeps_on(f: FactsView, g: FactsView, h: FactsView)
    requires
        keeps(f, g),
        keeps(g, h),
    ensures
        keeps(f, h),
{
    reveal(keeps);
}

proof fn keeps_itself(f: FactsView)
    ensures
        keeps(f, f),
{
    reveal(keeps);
}

/// The facts of one kind stay.
proof fn each_stays(f: FactsView, g: FactsView)
    requires
        keeps(f, g),
    ensures
        forall|x: WriteFactView| #[trigger] f.writes.contains(x) ==> g.writes.contains(x),
        forall|x: CallShapeView| #[trigger] f.call_shapes.contains(x) ==> g.call_shapes.contains(x),
        forall|x: CallShapeView| #[trigger] f.logs.contains(x) ==> g.logs.contains(x),
        forall|x: AccessFactView| #[trigger] f.access.contains(x) ==> g.access.contains(x),
        forall|k: Text| (#[trigger] lookup(f.reads, k) is Some) ==> lookup(g.reads, k) is Some,
{
    reveal(keeps);
}

proof fn pushed<T>(s: Seq<T>, y: T)
    ensures
        s.push(y).contains(y),
        forall|x: T| #[trigger] s.contains(x) ==> s.push(y).contains(x),
{
    assert(s.push(y)[s.len() as int] == y);
    assert forall|x: T| #[trigger] s.contains(x) implies s.push(y).contains(x) by {
        let i = choose|i: int| 0 <= i < s.len() && s[i] == x;
        assert(s.push(y)[i] == x);
    }
}

proof fn joined_up<T>(s: Seq<T>, t: Seq<T>)
    ensures
        forall|x: T| #[trigger] s.contains(x) ==> (s + t).contains(x),
        forall|x: T| #[trigger] t.contains(x) ==> (s + t).contains(x),
{
    assert forall|x: T| #[trigger] s.contains(x) implies (s + t).contains(x) by {
        let i = choose|i: int| 0 <= i < s.len() && s[i] == x;
        assert((s + t)[i] == x);
    }
    assert forall|x: T| #[trigger] t.contains(x) implies (s + t).contains(x) by {
        let i = choose|i: int| 0 <= i < t.len() && t[i] == x;
        assert((s + t)[s.len() + i] == x);
    }
}

// ---- what is found

/// A call of an outside function leaves the fact that the catalog has for it, or else its shape.
pub open spec fn is_recorded(cx: CxView, api: Text, c: CallView, p: PlaceView, f: FactsView) -> bool {
    let site = site_at(cx.scene.ix, cx.env, api, c.args);
    let segs = segments_of(api);
    match effect_from(cx.scene.cat.effect, segs, 0) {
        Some(rule) => (spec_value(rule.target, site) matches Some(t) && cx.ctes.contains(t))
            || f.effects.contains(
            EffectFactView {
                key: EffectKeyView {
                    kind: rule.kind,
                    target: value_or(rule.target, site, "<dynamic>"@),
                    method: match rule.method {
                        Some(m) => spec_value(m, site),
                        None => None,
                    },
                },
                api,
                loc: c.loc,
            },
        ),
        None => match subscribe_from(cx.scene.cat.subscribe, segs, false, 0) {
            Some(rule) => handler_at(cx, c.args, handler_index(rule.handler_arg)) matches Some(handler)
                ==> f.subscriptions.contains(
                SubscriptionView {
                    event: value_or(rule.event, site, "<dynamic>"@),
                    handler,
                    loc: c.loc,
                },
            ),
            None => match route_from(cx.scene.cat.route, segs, false, 0) {
                Some(rule) => handler_at(cx, c.args, handler_index(rule.handler_arg)) matches Some(
                    handler,
                ) ==> f.routes.contains(
                    RouteView {
                        method: value_or(rule.method, site, "?"@),
                        path: value_or(rule.path, site, "<dynamic>"@),
                        handler,
                        loc: c.loc,
                    },
                ),
                None => f.call_shapes.contains(
                    shape_at(p, call_shape_of(cx, c.callee, c.args), None, c.loc),
                ),
            },
        },
    }
}

/// A call itself leaves its fact: a call of the project its target, a filter its predicate, an
/// outside call what the catalog says, an unresolved one a question. All but filters, literals
/// and what the catalog knows leave their shape.
pub open spec fn is_call_found(cx: CxView, c: CallView, p: PlaceView, f: FactsView) -> bool {
    let shape = call_shape_of(cx, c.callee, c.args);
    match called(cx.scene.ix, cx.env, c.callee) {
        CalleeView::Internal(target) => f.calls.contains(
            CallFactView { target, loc: c.loc, conditional: p.nested },
        ) && f.call_shapes.contains(shape_at(p, shape, Some(target), c.loc)),
        CalleeView::Unresolved(t) => f.call_shapes.contains(shape_at(p, shape, None, c.loc))
            && f.unknowns.contains(
            UnknownView { question: "unresolved call `"@ + t + "`"@, loc: c.loc },
        ),
        CalleeView::External(api) => if any_fits(cx.scene.cat.filter, segments_of(api)) {
            p.filtered || f.filters.contains(
                QueryFilterView {
                    expr: filter_text(cx.scene, cx.env, c, cx.scene.ix.functions.len()),
                    loc: c.loc,
                },
            )
        } else {
            (p.filtered && any_fits(cx.scene.cat.literal, segments_of(api))) || is_recorded(
                cx,
                api,
                c,
                p,
                f,
            )
        },
    }
}

/// A call is one of a predicate of a query.
pub open spec fn is_filter_call(cx: CxView, c: CallView) -> bool {
    called(cx.scene.ix, cx.env, c.callee) matches CalleeView::External(api) && any_fits(
        cx.scene.cat.filter,
        segments_of(api),
    )
}

/// Every requirement of access in the arguments of a call is there.
pub open spec fn is_access_found(cx: CxView, c: CallView, f: FactsView) -> bool {
    forall|x: AccessFactView|
        #[trigger] access_in_args(cx, c.args, c.loc, 0).contains(x) ==> f.access.contains(x)
}

/// Every fact of a call and of what stands in it is there.
pub open spec fn finds_call(cx: CxView, c: CallView, p: PlaceView, f: FactsView) -> bool
    decreases c, 0int,
{
    &&& is_access_found(cx, c, f)
    &&& if logs(cx, c.callee) {
        f.logs.contains(shape_at(p, call_shape_of(cx, c.callee, c.args), None, c.loc)) && finds_all(
            cx,
            c.args,
            0,
            c.loc,
            p,
            f,
        )
    } else {
        &&& is_call_found(cx, c, p, f)
        &&& match c.callee {
            ExprView::Member { object, property } => finds(cx, *object, c.loc, p, f),
            _ => true,
        }
        &&& finds_all(
            cx,
            c.args,
            0,
            c.loc,
            if is_filter_call(cx, c) {
                inside_region(p, false, true)
            } else {
                p
            },
            f,
        )
    }
}

/// Every fact of the expressions from index `i` on is there.
pub open spec fn finds_all(
    cx: CxView,
    es: Seq<ExprView>,
    i: int,
    loc: LocView,
    p: PlaceView,
    f: FactsView,
) -> bool
    decreases es, es.len() - i,
{
    if 0 <= i < es.len() {
        finds(cx, es[i], loc, p, f) && finds_all(cx, es, i + 1, loc, p, f)
    } else {
        true
    }
}

/// Every fact of the properties from index `i` on is there.
pub open spec fn finds_fields(
    cx: CxView,
    fs: Seq<(Text, ExprView)>,
    i: int,
    loc: LocView,
    p: PlaceView,
    f: FactsView,
) -> bool
    decreases fs, fs.len() - i,
{
    if 0 <= i < fs.len() {
        finds(cx, fs[i].1, loc, p, f) && finds_fields(cx, fs, i + 1, loc, p, f)
    } else {
        true
    }
}

/// Every fact of an expression and of what stands in it is there: the fields it reads and writes,
/// the calls it makes, the closures it hands on. Both sides of a choice are looked into.
pub open spec fn finds(cx: CxView, e: ExprView, loc: LocView, p: PlaceView, f: FactsView) -> bool
    decreases e, 0int,
{
    match e {
        ExprView::Call(c) => finds_call(cx, *c, p, f),
        ExprView::Member { object, property } => (field_at(
            cx.scene.ix,
            cx.env,
            *object,
            property,
        ) matches Some(path) ==> lookup(f.reads, path) is Some) && finds(cx, *object, loc, p, f),
        ExprView::Assign { target, value, loc: at } => {
            &&& match *target {
                ExprView::Member { object, property } => (field_at(
                    cx.scene.ix,
                    cx.env,
                    *object,
                    property,
                ) matches Some(field) ==> f.writes.contains(
                    WriteFactView {
                        field,
                        value: constant(cx.scene.ix, cx.env, *value),
                        creation: false,
                        loc: at,
                    },
                )) && finds(cx, *object, at, p, f),
                _ => true,
            }
            &&& finds(cx, *value, at, p, f)
        },
        ExprView::New { callee, args, loc: at } => f.call_shapes.contains(
            shape_at(p, "new "@ + call_shape_of(cx, *callee, args), None, at),
        ) && finds_all(cx, args, 0, at, p, f),
        ExprView::Binary { op, left, right } => finds(cx, *left, loc, p, f) && finds(
            cx,
            *right,
            loc,
            p,
            f,
        ),
        ExprView::Logical { op, left, right } => finds(cx, *left, loc, p, f) && finds(
            cx,
            *right,
            loc,
            p,
            f,
        ),
        ExprView::Not(x) => finds(cx, *x, loc, p, f),
        ExprView::Await(x) => finds(cx, *x, loc, p, f),
        ExprView::Index { object, index } => finds(cx, *object, loc, p, f) && finds(
            cx,
            *index,
            loc,
            p,
            f,
        ),
        ExprView::Template { quasis, exprs } => finds_all(cx, exprs, 0, loc, p, f),
        ExprView::Object(props) => finds_fields(cx, props, 0, loc, p, f),
        ExprView::Array(xs) => finds_all(cx, xs, 0, loc, p, f),
        ExprView::Conditional { test, then, otherwise } => finds(cx, *test, loc, p, f) && finds(
            cx,
            *then,
            loc,
            inside_region(p, true, false),
            f,
        ) && finds(cx, *otherwise, loc, inside_region(p, true, false), f),
        ExprView::Jsx(j) => finds_fields(cx, j.attrs, 0, loc, p, f) && finds_all(
            cx,
            j.children,
            0,
            loc,
            p,
            f,
        ),
        ExprView::Closure(id) => f.consumed.contains(id) || f.calls.contains(
            CallFactView { target: id, loc, conditional: true },
        ),
        _ => true,
    }
}

// ---- what is found stays found

proof fn all_stay(
    cx: CxView,
    es: Seq<ExprView>,
    i: int,
    loc: LocView,
    p: PlaceView,
    f: FactsView,
    g: FactsView,
)
    requires
        finds_all(cx, es, i, loc, p, f),
        keeps(f, g),
    ensures
        finds_all(cx, es, i, loc, p, g),
    decreases es, es.len() - i,
{
    if 0 <= i < es.len() {
        stays(cx, es[i], loc, p, f, g);
        all_stay(cx, es, i + 1, loc, p, f, g);
    }
}

proof fn fields_stay(
    cx: CxView,
    fs: Seq<(Text, ExprView)>,
    i: int,
    loc: LocView,
    p: PlaceView,
    f: FactsView,
    g: FactsView,
)
    requires
        finds_fields(cx, fs, i, loc, p, f),
        keeps(f, g),
    ensures
        finds_fields(cx, fs, i, loc, p, g),
    decreases fs, fs.len() - i,
{
    if 0 <= i < fs.len() {
        stays(cx, fs[i].1, loc, p, f, g);
        fields_stay(cx, fs, i + 1, loc, p, f, g);
    }
}

proof fn call_stays(cx: CxView, c: CallView, p: PlaceView, f: FactsView, g: FactsView)
    requires
        finds_call(cx, c, p, f),
        keeps(f, g),
    ensures
        finds_call(cx, c, p, g),
    decreases c, 0int,
{
    reveal(keeps);
    if logs(cx, c.callee) {
        all_stay(cx, c.args, 0, c.loc, p, f, g);
    } else {
        if let ExprView::Member { object, property } = c.callee {
            stays(cx, *object, c.loc, p, f, g);
        }
        let q = if is_filter_call(cx, c) {
            inside_region(p, false, true)
        } else {
            p
        };
        all_stay(cx, c.args, 0, c.loc, q, f, g);
    }
}

proof fn stays(cx: CxView, e: ExprView, loc: LocView, p: PlaceView, f: FactsView, g: FactsView)
    requires
        finds(cx, e, loc, p, f),
        keeps(f, g),
    ensures
        finds(cx, e, loc, p, g),
    decreases e, 0int,
{
    reveal(keeps);
    let q = inside_region(p, true, false);
    match e {
        ExprView::Call(c) => {
            call_stays(cx, *c, p, f, g);
        },
        ExprView::Member { object, property } => {
            stays(cx, *object, loc, p, f, g);
        },
        ExprView::Assign { target, value, loc: at } => {
            if let ExprView::Member { object, property } = *target {
                stays(cx, *object, at, p, f, g);
            }
            stays(cx, *value, at, p, f, g);
        },
        ExprView::New { callee, args, loc: at } => {
            all_stay(cx, args, 0, at, p, f, g);
        },
        ExprView::Binary { op, left, right } => {
            stays(cx, *left, loc, p, f, g);
            stays(cx, *right, loc, p, f, g);
        },
        ExprView::Logical { op, left, right } => {
            stays(cx, *left, loc, p, f, g);
            stays(cx, *right, loc, p, f, g);
        },
        ExprView::Not(x) => {
            stays(cx, *x, loc, p, f, g);
        },
        ExprView::Await(x) => {
            stays(cx, *x, loc, p, f, g);
        },
        ExprView::Index { object, index } => {
            stays(cx, *object, loc, p, f, g);
            stays(cx, *index, loc, p, f, g);
        },
        ExprView::Template { quasis, exprs } => {
            all_stay(cx, exprs, 0, loc, p, f, g);
        },
        ExprView::Object(props) => {
            fields_stay(cx, props, 0, loc, p, f, g);
        },
        ExprView::Array(xs) => {
            all_stay(cx, xs, 0, loc, p, f, g);
        },
        ExprView::Conditional { test, then, otherwise } => {
            stays(cx, *test, loc, p, f, g);
            stays(cx, *then, loc, q, f, g);
            stays(cx, *otherwise, loc, q, f, g);
        },
        ExprView::Jsx(j) => {
            fields_stay(cx, j.attrs, 0, loc, p, f, g);
            all_stay(cx, j.children, 0, loc, p, f, g);
        },
        _ => {},
    }
}

// ---- finding

proof fn read_is_kept(f: FactsView, field: Option<Text>, loc: LocView)
    requires
        is_tidy(f),
    ensures
        is_tidy(with_read(f, field, loc)),
        keeps(f, with_read(f, field, loc)),
        field matches Some(path) ==> lookup(with_read(f, field, loc).reads, path) is Some,
{
    reveal(keeps);
    if let Some(path) = field {
        if lookup(f.reads, path) is None {
            put_keeps_order(f.reads, path, loc);
            lookup_after_put(f.reads, path, loc);
            assert forall|k: Text| (#[trigger] lookup(f.reads, k) is Some) implies lookup(
                put(f.reads, path, loc),
                k,
            ) is Some by {
                lookup_of_other(f.reads, path, loc, k);
            }
        }
    }
}

proof fn consumed_is_kept(f: FactsView, id: Text)
    requires
        is_tidy(f),
    ensures
        rising(added(f.consumed, id)),
        forall|x: Text| #[trigger] f.consumed.contains(x) ==> added(f.consumed, id).contains(x),
{
    added_keeps_order(f.consumed, id);
    assert forall|x: Text| #[trigger] f.consumed.contains(x) implies added(f.consumed, id).contains(
        x,
    ) by {
        added_members(f.consumed, id, x);
    }
}

proof fn external_is_found(cx: CxView, api: Text, c: CallView, p: PlaceView, f: FactsView)
    requires
        is_tidy(f),
    ensures
        ({
            let (g, known) = with_external(cx, api, c.args, c.loc, f);
            let h = if known {
                g
            } else {
                with_shape(g, shape_at(p, call_shape_of(cx, c.callee, c.args), None, c.loc))
            };
            is_tidy(h) && keeps(f, h) && is_recorded(cx, api, c, p, h)
        }),
{
    reveal(keeps);
    let site = site_at(cx.scene.ix, cx.env, api, c.args);
    let segs = segments_of(api);
    let shape = shape_at(p, call_shape_of(cx, c.callee, c.args), None, c.loc);
    pushed(f.call_shapes, shape);
    match effect_from(cx.scene.cat.effect, segs, 0) {
        Some(rule) => {
            let target = spec_value(rule.target, site);
            let x = EffectFactView {
                key: EffectKeyView {
                    kind: rule.kind,
                    target: value_or(rule.target, site, "<dynamic>"@),
                    method: match rule.method {
                        Some(m) => spec_value(m, site),
                        None => None,
                    },
                },
                api,
                loc: c.loc,
            };
            pushed(f.effects, x);
            pushed(
                f.unknowns,
                UnknownView {
                    question: "effect target of `"@ + api + "` is not a constant"@,
                    loc: c.loc,
                },
            );
        },
        None => match subscribe_from(cx.scene.cat.subscribe, segs, false, 0) {
            Some(rule) => {
                if let Some(handler) = handler_at(cx, c.args, handler_index(rule.handler_arg)) {
                    consumed_is_kept(f, handler);
                    pushed(
                        f.subscriptions,
                        SubscriptionView {
                            event: value_or(rule.event, site, "<dynamic>"@),
                            handler,
                            loc: c.loc,
                        },
                    );
                }
            },
            None => match route_from(cx.scene.cat.route, segs, false, 0) {
                Some(rule) => {
                    if let Some(handler) = handler_at(cx, c.args, handler_index(rule.handler_arg)) {
                        consumed_is_kept(f, handler);
                        pushed(
                            f.routes,
                            RouteView {
                                method: value_or(rule.method, site, "?"@),
                                path: value_or(rule.path, site, "<dynamic>"@),
                                handler,
                                loc: c.loc,
                            },
                        );
                    }
                },
                None => {},
            },
        },
    }
}

/// The facts after a call itself is recorded, before what stands in it is looked into.
spec fn with_call_or_filter(cx: CxView, c: CallView, p: PlaceView, f: FactsView) -> FactsView {
    match with_call(cx, c, p, f) {
        Some(g) => g,
        None => with_filter(cx, c, p, f),
    }
}

proof fn call_itself_is_found(cx: CxView, c: CallView, p: PlaceView, f: FactsView)
    requires
        is_tidy(f),
    ensures
        is_tidy(with_call_or_filter(cx, c, p, f)),
        keeps(f, with_call_or_filter(cx, c, p, f)),
        is_call_found(cx, c, p, with_call_or_filter(cx, c, p, f)),
        with_call(cx, c, p, f) is None <==> is_filter_call(cx, c),
{
    reveal(keeps);
    let shape = call_shape_of(cx, c.callee, c.args);
    match called(cx.scene.ix, cx.env, c.callee) {
        CalleeView::Internal(target) => {
            pushed(f.call_shapes, shape_at(p, shape, Some(target), c.loc));
            pushed(f.calls, CallFactView { target, loc: c.loc, conditional: p.nested });
        },
        CalleeView::Unresolved(t) => {
            pushed(f.call_shapes, shape_at(p, shape, None, c.loc));
            pushed(
                f.unknowns,
                UnknownView { question: "unresolved call `"@ + t + "`"@, loc: c.loc },
            );
        },
        CalleeView::External(api) => {
            external_is_found(cx, api, c, p, f);
            pushed(
                f.filters,
                QueryFilterView {
                    expr: filter_text(cx.scene, cx.env, c, cx.scene.ix.functions.len()),
                    loc: c.loc,
                },
            );
        },
    }
}

proof fn all_are_found(
    cx: CxView,
    es: Seq<ExprView>,
    i: int,
    loc: LocView,
    p: PlaceView,
    f: FactsView,
)
    requires
        is_tidy(f),
    ensures
        is_tidy(after_exprs(cx, es, i, loc, p, f)),
        keeps(f, after_exprs(cx, es, i, loc, p, f)),
        finds_all(cx, es, i, loc, p, after_exprs(cx, es, i, loc, p, f)),
    decreases es, es.len() - i,
{
    if 0 <= i < es.len() {
        let g = after_expr(cx, es[i], loc, p, f);
        is_found(cx, es[i], loc, p, f);
        all_are_found(cx, es, i + 1, loc, p, g);
        keeps_on(f, g, after_exprs(cx, es, i, loc, p, f));
        stays(cx, es[i], loc, p, g, after_exprs(cx, es, i, loc, p, f));
    } else {
        keeps_itself(f);
    }
}

proof fn fields_are_found(
    cx: CxView,
    fs: Seq<(Text, ExprView)>,
    i: int,
    loc: LocView,
    p: PlaceView,
    f: FactsView,
)
    requires
        is_tidy(f),
    ensures
        is_tidy(after_fields(cx, fs, i, loc, p, f)),
        keeps(f, after_fields(cx, fs, i, loc, p, f)),
        finds_fields(cx, fs, i, loc, p, after_fields(cx, fs, i, loc, p, f)),
    decreases fs, fs.len() - i,
{
    if 0 <= i < fs.len() {
        let g = after_expr(cx, fs[i].1, loc, p, f);
        is_found(cx, fs[i].1, loc, p, f);
        fields_are_found(cx, fs, i + 1, loc, p, g);
        keeps_on(f, g, after_fields(cx, fs, i, loc, p, f));
        stays(cx, fs[i].1, loc, p, g, after_fields(cx, fs, i, loc, p, f));
    } else {
        keeps_itself(f);
    }
}

proof fn found_call_stays(cx: CxView, c: CallView, p: PlaceView, f: FactsView, g: FactsView)
    requires
        is_call_found(cx, c, p, f),
        keeps(f, g),
    ensures
        is_call_found(cx, c, p, g),
{
    reveal(keeps);
}

/// The facts with the requirements of access in the arguments of a call.
spec fn with_access(cx: CxView, c: CallView, f: FactsView) -> FactsView {
    FactsView { access: f.access + access_in_args(cx, c.args, c.loc, 0), ..f }
}

proof fn access_is_found(cx: CxView, c: CallView, f: FactsView)
    requires
        is_tidy(f),
    ensures
        is_tidy(with_access(cx, c, f)),
        keeps(f, with_access(cx, c, f)),
        is_access_found(cx, c, with_access(cx, c, f)),
{
    reveal(keeps);
    joined_up(f.access, access_in_args(cx, c.args, c.loc, 0));
}

proof fn log_is_found(f: FactsView, x: CallShapeView)
    requires
        is_tidy(f),
    ensures
        is_tidy(FactsView { logs: f.logs.push(x), ..f }),
        keeps(f, FactsView { logs: f.logs.push(x), ..f }),
        f.logs.push(x).contains(x),
{
    reveal(keeps);
    pushed(f.logs, x);
}

proof fn shape_is_found(f: FactsView, x: CallShapeView)
    requires
        is_tidy(f),
    ensures
        is_tidy(with_shape(f, x)),
        keeps(f, with_shape(f, x)),
        with_shape(f, x).call_shapes.contains(x),
{
    reveal(keeps);
    pushed(f.call_shapes, x);
}

proof fn write_is_found(f: FactsView, x: WriteFactView)
    requires
        is_tidy(f),
    ensures
        is_tidy(FactsView { writes: f.writes.push(x), ..f }),
        keeps(f, FactsView { writes: f.writes.push(x), ..f }),
        f.writes.push(x).contains(x),
{
    reveal(keeps);
    pushed(f.writes, x);
}

proof fn closure_is_found(cx: CxView, id: Text, loc: LocView, p: PlaceView, f: FactsView)
    requires
        is_tidy(f),
    ensures
        is_tidy(with_closure(cx, id, loc, p, f)),
        keeps(f, with_closure(cx, id, loc, p, f)),
        finds(cx, ExprView::Closure(id), loc, p, with_closure(cx, id, loc, p, f)),
{
    reveal(keeps);
    let name = match text::after_prefix(id, cx.id + "."@) {
        Some(n) => n,
        None => id,
    };
    pushed(f.calls, CallFactView { target: id, loc, conditional: true });
    pushed(f.call_shapes, shape_at(p, "<fn "@ + name + ">"@, Some(id), loc));
}

proof fn call_is_found(cx: CxView, c: CallView, p: PlaceView, f: FactsView)
    requires
        is_tidy(f),
    ensures
        is_tidy(after_call(cx, c, p, f)),
        keeps(f, after_call(cx, c, p, f)),
        finds_call(cx, c, p, after_call(cx, c, p, f)),
    decreases c, 0int,
{
    let f0 = with_access(cx, c, f);
    access_is_found(cx, c, f);
    let end = after_call(cx, c, p, f);
    if logs(cx, c.callee) {
        let x = shape_at(p, call_shape_of(cx, c.callee, c.args), None, c.loc);
        let f1 = FactsView { logs: f0.logs.push(x), ..f0 };
        log_is_found(f0, x);
        all_are_found(cx, c.args, 0, c.loc, p, f1);
        assert(end == after_exprs(cx, c.args, 0, c.loc, p, f1));
        keeps_on(f0, f1, end);
        keeps_on(f, f0, end);
        each_stays(f0, end);
        each_stays(f1, end);
        assert(f1.logs.contains(x));
        assert(is_access_found(cx, c, end));
    } else {
        let f1 = with_call_or_filter(cx, c, p, f0);
        call_itself_is_found(cx, c, p, f0);
        let q = if is_filter_call(cx, c) {
            inside_region(p, false, true)
        } else {
            p
        };
        let f2 = match c.callee {
            ExprView::Member { object, property } => {
                is_found(cx, *object, c.loc, p, f1);
                after_expr(cx, *object, c.loc, p, f1)
            },
            _ => {
                keeps_itself(f1);
                f1
            },
        };
        all_are_found(cx, c.args, 0, c.loc, q, f2);
        assert(end == after_exprs(cx, c.args, 0, c.loc, q, f2));
        found_call_stays(cx, c, p, f1, f2);
        found_call_stays(cx, c, p, f2, end);
        if let ExprView::Member { object, property } = c.callee {
            stays(cx, *object, c.loc, p, f2, end);
        }
        keeps_on(f0, f1, f2);
        keeps_on(f0, f2, end);
        keeps_on(f, f0, end);
        each_stays(f0, end);
        assert(is_access_found(cx, c, end));
        assert(is_call_found(cx, c, p, end));
        assert(finds_all(cx, c.args, 0, c.loc, q, end));
    }
}

proof fn is_found(cx: CxView, e: ExprView, loc: LocView, p: PlaceView, f: FactsView)
    requires
        is_tidy(f),
    ensures
        is_tidy(after_expr(cx, e, loc, p, f)),
        keeps(f, after_expr(cx, e, loc, p, f)),
        finds(cx, e, loc, p, after_expr(cx, e, loc, p, f)),
    decreases e, 0int,
{
    let end = after_expr(cx, e, loc, p, f);
    match e {
        ExprView::Call(c) => {
            call_is_found(cx, *c, p, f);
        },
        ExprView::Member { object, property } => {
            let field = field_at(cx.scene.ix, cx.env, *object, property);
            read_is_kept(f, field, loc);
            let g = with_read(f, field, loc);
            is_found(cx, *object, loc, p, g);
            keeps_on(f, g, end);
            each_stays(g, end);
        },
        ExprView::Assign { target, value, loc: at } => {
            match *target {
                ExprView::Member { object, property } => {
                    let h = match field_at(cx.scene.ix, cx.env, *object, property) {
                        Some(field) => {
                            let w = WriteFactView {
                                field,
                                value: constant(cx.scene.ix, cx.env, *value),
                                creation: false,
                                loc: at,
                            };
                            write_is_found(f, w);
                            FactsView { writes: f.writes.push(w), ..f }
                        },
                        None => {
                            keeps_itself(f);
                            f
                        },
                    };
                    let g = after_expr(cx, *object, at, p, h);
                    is_found(cx, *object, at, p, h);
                    is_found(cx, *value, at, p, g);
                    stays(cx, *object, at, p, g, end);
                    keeps_on(h, g, end);
                    keeps_on(f, h, end);
                    each_stays(h, end);
                },
                _ => {
                    is_found(cx, *value, at, p, f);
                },
            }
        },
        ExprView::New { callee, args, loc: at } => {
            let shape = shape_at(p, "new "@ + call_shape_of(cx, *callee, args), None, at);
            shape_is_found(f, shape);
            let g = with_shape(f, shape);
            all_are_found(cx, args, 0, at, p, g);
            keeps_on(f, g, end);
            each_stays(g, end);
        },
        ExprView::Binary { op, left, right } => {
            let g = after_expr(cx, *left, loc, p, f);
            is_found(cx, *left, loc, p, f);
            is_found(cx, *right, loc, p, g);
            stays(cx, *left, loc, p, g, end);
            keeps_on(f, g, end);
        },
        ExprView::Logical { op, left, right } => {
            let g = after_expr(cx, *left, loc, p, f);
            is_found(cx, *left, loc, p, f);
            is_found(cx, *right, loc, p, g);
            stays(cx, *left, loc, p, g, end);
            keeps_on(f, g, end);
        },
        ExprView::Not(x) => {
            is_found(cx, *x, loc, p, f);
        },
        ExprView::Await(x) => {
            is_found(cx, *x, loc, p, f);
        },
        ExprView::Index { object, index } => {
            let g = after_expr(cx, *object, loc, p, f);
            is_found(cx, *object, loc, p, f);
            is_found(cx, *index, loc, p, g);
            stays(cx, *object, loc, p, g, end);
            keeps_on(f, g, end);
        },
        ExprView::Template { quasis, exprs } => {
            all_are_found(cx, exprs, 0, loc, p, f);
        },
        ExprView::Object(props) => {
            fields_are_found(cx, props, 0, loc, p, f);
        },
        ExprView::Array(xs) => {
            all_are_found(cx, xs, 0, loc, p, f);
        },
        ExprView::Conditional { test, then, otherwise } => {
            let q = inside_region(p, true, false);
            let g = after_expr(cx, *test, loc, p, f);
            let h = after_expr(cx, *then, loc, q, g);
            is_found(cx, *test, loc, p, f);
            is_found(cx, *then, loc, q, g);
            is_found(cx, *otherwise, loc, q, h);
            keeps_on(g, h, end);
            keeps_on(f, g, end);
            stays(cx, *test, loc, p, g, end);
            stays(cx, *then, loc, q, h, end);
        },
        ExprView::Jsx(j) => {
            let g = after_fields(cx, j.attrs, 0, loc, p, f);
            fields_are_found(cx, j.attrs, 0, loc, p, f);
            all_are_found(cx, j.children, 0, loc, p, g);
            fields_stay(cx, j.attrs, 0, loc, p, g, end);
            keeps_on(f, g, end);
        },
        ExprView::Closure(id) => {
            closure_is_found(cx, id, loc, p, f);
        },
        _ => {
            keeps_itself(f);
        },
    }
}

/// Whatever an expression does is found, wherever it stands in the expression, and facts that were
/// found before stay.
pub proof fn expressions_leave_their_facts(
    cx: CxView,
    e: ExprView,
    loc: LocView,
    p: PlaceView,
    f: FactsView,
)
    requires
        is_tidy(f),
    ensures
        finds(cx, e, loc, p, after_expr(cx, e, loc, p, f)),
        keeps(f, after_expr(cx, e, loc, p, f)),
        is_tidy(after_expr(cx, e, loc, p, f)),
{
    is_found(cx, e, loc, p, f);
}

// ---- statements

/// Statements end by leaving the function.
pub open spec fn leaves(ss: Seq<StmtView>) -> bool {
    ss.len() > 0 && (ss.last() is Throw || ss.last() is Return)
}

/// Statements end by leaving the function or the round of a loop.
pub open spec fn leaves_here(ss: Seq<StmtView>) -> bool {
    leaves(ss) || (ss.len() > 0 && ss.last() is Jump)
}

/// Every fact of the statements from index `i` on is there. What follows a condition that leaves
/// is under the negation of the condition; what a last condition guards is under the condition.
pub open spec fn finds_stmts(
    cx: CxView,
    ss: Seq<StmtView>,
    i: int,
    top: bool,
    p: PlaceView,
    f: FactsView,
) -> bool
    decreases ss, ss.len() - i,
{
    if 0 <= i < ss.len() {
        match ss[i] {
            StmtView::If { test, then, otherwise, loc } => if otherwise.len() == 0 && !leaves(then)
                && top && i + 1 == ss.len() {
                finds(cx, test, loc, p, f) && finds_stmts(
                    cx,
                    then,
                    0,
                    true,
                    under_condition(p, condition(cx, test), true, false),
                    f,
                )
            } else {
                finds_stmt(cx, ss[i], top, p, f) && finds_stmts(
                    cx,
                    ss,
                    i + 1,
                    top,
                    if otherwise.len() == 0 && leaves_here(then) {
                        under_condition(p, negation(condition(cx, test)), top && leaves(then), false)
                    } else {
                        p
                    },
                    f,
                )
            },
            _ => finds_stmt(cx, ss[i], top, p, f) && finds_stmts(cx, ss, i + 1, top, p, f),
        }
    } else {
        true
    }
}

/// Every fact of a statement and of what stands in it is there: both branches of a condition, each
/// under what leads to it, the body of a loop, and all three parts of a `try`.
pub open spec fn finds_stmt(cx: CxView, s: StmtView, top: bool, p: PlaceView, f: FactsView) -> bool
    decreases s, 0int,
{
    match s {
        StmtView::Expr(e, loc) => finds(cx, e, loc, p, f),
        StmtView::Let { name, ty, init, loc } => init matches Some(e) ==> finds(cx, e, loc, p, f),
        StmtView::If { test, then, otherwise, loc } => finds(cx, test, loc, p, f) && finds_stmts(
            cx,
            then,
            0,
            false,
            under_condition(p, condition(cx, test), false, true),
            f,
        ) && finds_stmts(
            cx,
            otherwise,
            0,
            false,
            under_condition(p, negation(condition(cx, test)), false, true),
            f,
        ),
        StmtView::Return(e, loc) => e matches Some(x) ==> finds(cx, x, loc, p, f),
        StmtView::Throw(e, loc) => f.throws && match e {
            ExprView::New { callee, args, loc: at } => finds_all(cx, args, 0, at, p, f),
            _ => finds(cx, e, loc, p, f),
        },
        StmtView::Loop { binding, iter, body, loc } => (iter matches Some(x) ==> finds(
            cx,
            x,
            loc,
            p,
            f,
        )) && finds_stmts(cx, body, 0, false, inside_region(p, true, false), f),
        StmtView::Try { body, handler, finalizer, loc } => finds_stmts(cx, body, 0, false, p, f)
            && finds_stmts(cx, handler, 0, false, inside_region(p, true, false), f) && finds_stmts(
            cx,
            finalizer,
            0,
            false,
            p,
            f,
        ),
        StmtView::Block(b) => finds_stmts(cx, b, 0, top, p, f),
        StmtView::Jump(_) => true,
    }
}

/// Facts stay, and so does whether something is thrown.
pub open spec fn keeps_all(f: FactsView, g: FactsView) -> bool {
    keeps(f, g) && (f.throws ==> g.throws)
}

proof fn throws_stay(cx: CxView, e: ExprView, loc: LocView, p: PlaceView, f: FactsView)
    ensures
        after_expr(cx, e, loc, p, f).throws == f.throws,
    decreases e, 0int,
{
    match e {
        ExprView::Call(c) => {
            throws_stay_in_call(cx, *c, p, f);
        },
        ExprView::Member { object, property } => {
            throws_stay(
                cx,
                *object,
                loc,
                p,
                with_read(f, field_at(cx.scene.ix, cx.env, *object, property), loc),
            );
        },
        ExprView::Assign { target, value, loc: at } => {
            let g = match *target {
                ExprView::Member { object, property } => {
                    let h = match field_at(cx.scene.ix, cx.env, *object, property) {
                        Some(field) => FactsView {
                            writes: f.writes.push(
                                WriteFactView {
                                    field,
                                    value: constant(cx.scene.ix, cx.env, *value),
                                    creation: false,
                                    loc: at,
                                },
                            ),
                            ..f
                        },
                        None => f,
                    };
                    throws_stay(cx, *object, at, p, h);
                    after_expr(cx, *object, at, p, h)
                },
                _ => f,
            };
            throws_stay(cx, *value, at, p, g);
        },
        ExprView::New { callee, args, loc: at } => {
            let shape = "new "@ + call_shape_of(cx, *callee, args);
            throws_stay_in_all(cx, args, 0, at, p, with_shape(f, shape_at(p, shape, None, at)));
        },
        ExprView::Binary { op, left, right } => {
            throws_stay(cx, *left, loc, p, f);
            throws_stay(cx, *right, loc, p, after_expr(cx, *left, loc, p, f));
        },
        ExprView::Logical { op, left, right } => {
            throws_stay(cx, *left, loc, p, f);
            throws_stay(cx, *right, loc, p, after_expr(cx, *left, loc, p, f));
        },
        ExprView::Not(x) => {
            throws_stay(cx, *x, loc, p, f);
        },
        ExprView::Await(x) => {
            throws_stay(cx, *x, loc, p, f);
        },
        ExprView::Index { object, index } => {
            throws_stay(cx, *object, loc, p, f);
            throws_stay(cx, *index, loc, p, after_expr(cx, *object, loc, p, f));
        },
        ExprView::Template { quasis, exprs } => {
            throws_stay_in_all(cx, exprs, 0, loc, p, f);
        },
        ExprView::Object(props) => {
            throws_stay_in_fields(cx, props, 0, loc, p, f);
        },
        ExprView::Array(xs) => {
            throws_stay_in_all(cx, xs, 0, loc, p, f);
        },
        ExprView::Conditional { test, then, otherwise } => {
            let q = inside_region(p, true, false);
            let g = after_expr(cx, *test, loc, p, f);
            throws_stay(cx, *test, loc, p, f);
            throws_stay(cx, *then, loc, q, g);
            throws_stay(cx, *otherwise, loc, q, after_expr(cx, *then, loc, q, g));
        },
        ExprView::Jsx(j) => {
            throws_stay_in_fields(cx, j.attrs, 0, loc, p, f);
            throws_stay_in_all(cx, j.children, 0, loc, p, after_fields(cx, j.attrs, 0, loc, p, f));
        },
        _ => {},
    }
}

proof fn throws_stay_in_all(
    cx: CxView,
    es: Seq<ExprView>,
    i: int,
    loc: LocView,
    p: PlaceView,
    f: FactsView,
)
    ensures
        after_exprs(cx, es, i, loc, p, f).throws == f.throws,
    decreases es, es.len() - i,
{
    if 0 <= i < es.len() {
        throws_stay(cx, es[i], loc, p, f);
        throws_stay_in_all(cx, es, i + 1, loc, p, after_expr(cx, es[i], loc, p, f));
    }
}

proof fn throws_stay_in_fields(
    cx: CxView,
    fs: Seq<(Text, ExprView)>,
    i: int,
    loc: LocView,
    p: PlaceView,
    f: FactsView,
)
    ensures
        after_fields(cx, fs, i, loc, p, f).throws == f.throws,
    decreases fs, fs.len() - i,
{
    if 0 <= i < fs.len() {
        throws_stay(cx, fs[i].1, loc, p, f);
        throws_stay_in_fields(cx, fs, i + 1, loc, p, after_expr(cx, fs[i].1, loc, p, f));
    }
}

proof fn throws_stay_in_call(cx: CxView, c: CallView, p: PlaceView, f: FactsView)
    ensures
        after_call(cx, c, p, f).throws == f.throws,
    decreases c, 0int,
{
    let f0 = FactsView { access: f.access + access_in_args(cx, c.args, c.loc, 0), ..f };
    if logs(cx, c.callee) {
        let shape = call_shape_of(cx, c.callee, c.args);
        let f1 = FactsView { logs: f0.logs.push(shape_at(p, shape, None, c.loc)), ..f0 };
        throws_stay_in_all(cx, c.args, 0, c.loc, p, f1);
    } else {
        let (f1, q) = match with_call(cx, c, p, f0) {
            Some(g) => (g, p),
            None => (with_filter(cx, c, p, f0), inside_region(p, false, true)),
        };
        assert(f1.throws == f.throws);
        let f2 = match c.callee {
            ExprView::Member { object, property } => {
                throws_stay(cx, *object, c.loc, p, f1);
                after_expr(cx, *object, c.loc, p, f1)
            },
            _ => f1,
        };
        throws_stay_in_all(cx, c.args, 0, c.loc, q, f2);
    }
}

proof fn stmts_stay(
    cx: CxView,
    ss: Seq<StmtView>,
    i: int,
    top: bool,
    p: PlaceView,
    f: FactsView,
    g: FactsView,
)
    requires
        finds_stmts(cx, ss, i, top, p, f),
        keeps_all(f, g),
    ensures
        finds_stmts(cx, ss, i, top, p, g),
    decreases ss, ss.len() - i,
{
    if 0 <= i < ss.len() {
        match ss[i] {
            StmtView::If { test, then, otherwise, loc } => {
                let c = condition(cx, test);
                if otherwise.len() == 0 && !leaves(then) && top && i + 1 == ss.len() {
                    stays(cx, test, loc, p, f, g);
                    stmts_stay(cx, then, 0, true, under_condition(p, c, true, false), f, g);
                } else {
                    stmt_stays(cx, ss[i], top, p, f, g);
                    let q = if otherwise.len() == 0 && leaves_here(then) {
                        under_condition(p, negation(c), top && leaves(then), false)
                    } else {
                        p
                    };
                    stmts_stay(cx, ss, i + 1, top, q, f, g);
                }
            },
            _ => {
                stmt_stays(cx, ss[i], top, p, f, g);
                stmts_stay(cx, ss, i + 1, top, p, f, g);
            },
        }
    }
}

proof fn stmt_stays(cx: CxView, s: StmtView, top: bool, p: PlaceView, f: FactsView, g: FactsView)
    requires
        finds_stmt(cx, s, top, p, f),
        keeps_all(f, g),
    ensures
        finds_stmt(cx, s, top, p, g),
    decreases s, 0int,
{
    match s {
        StmtView::Expr(e, loc) => {
            stays(cx, e, loc, p, f, g);
        },
        StmtView::Let { name, ty, init, loc } => {
            if let Some(e) = init {
                stays(cx, e, loc, p, f, g);
            }
        },
        StmtView::If { test, then, otherwise, loc } => {
            let c = condition(cx, test);
            stays(cx, test, loc, p, f, g);
            stmts_stay(cx, then, 0, false, under_condition(p, c, false, true), f, g);
            stmts_stay(cx, otherwise, 0, false, under_condition(p, negation(c), false, true), f, g);
        },
        StmtView::Return(e, loc) => {
            if let Some(x) = e {
                stays(cx, x, loc, p, f, g);
            }
        },
        StmtView::Throw(e, loc) => match e {
            ExprView::New { callee, args, loc: at } => {
                all_stay(cx, args, 0, at, p, f, g);
            },
            _ => {
                stays(cx, e, loc, p, f, g);
            },
        },
        StmtView::Loop { binding, iter, body, loc } => {
            if let Some(x) = iter {
                stays(cx, x, loc, p, f, g);
            }
            stmts_stay(cx, body, 0, false, inside_region(p, true, false), f, g);
        },
        StmtView::Try { body, handler, finalizer, loc } => {
            stmts_stay(cx, body, 0, false, p, f, g);
            stmts_stay(cx, handler, 0, false, inside_region(p, true, false), f, g);
            stmts_stay(cx, finalizer, 0, false, p, f, g);
        },
        StmtView::Block(b) => {
            stmts_stay(cx, b, 0, top, p, f, g);
        },
        StmtView::Jump(_) => {},
    }
}

proof fn expr_found_in_stmt(cx: CxView, e: ExprView, loc: LocView, p: PlaceView, f: FactsView)
    requires
        is_tidy(f),
    ensures
        is_tidy(after_expr(cx, e, loc, p, f)),
        keeps_all(f, after_expr(cx, e, loc, p, f)),
        finds(cx, e, loc, p, after_expr(cx, e, loc, p, f)),
{
    is_found(cx, e, loc, p, f);
    throws_stay(cx, e, loc, p, f);
}

proof fn guard_keeps(
    cx: CxView,
    c: crate::pred::PredView,
    on_fail: crate::model::OnFail,
    loc: LocView,
    v: bool,
    f: FactsView,
)
    requires
        is_tidy(f),
    ensures
        is_tidy(with_guard(cx, c, on_fail, loc, v, f)),
        keeps_all(f, with_guard(cx, c, on_fail, loc, v, f)),
{
    reveal(keeps);
}

/// Facts that differ only in what is returned and thrown.
proof fn same_facts(f: FactsView, g: FactsView)
    requires
        g == (FactsView { outputs: g.outputs, throws: g.throws, ..f }),
    ensures
        keeps(f, g),
        is_tidy(f) ==> is_tidy(g),
{
    reveal(keeps);
}

proof fn stmts_are_found(
    cx: CxView,
    ss: Seq<StmtView>,
    i: int,
    top: bool,
    p: PlaceView,
    f: FactsView,
)
    requires
        is_tidy(f),
    ensures
        is_tidy(after_stmts(cx, ss, i, top, p, f)),
        keeps_all(f, after_stmts(cx, ss, i, top, p, f)),
        finds_stmts(cx, ss, i, top, p, after_stmts(cx, ss, i, top, p, f)),
    decreases ss, ss.len() - i,
{
    if 0 <= i < ss.len() {
        let end = after_stmts(cx, ss, i, top, p, f);
        if is_trailing_if(ss, i, top) {
            match ss[i] {
                StmtView::If { test, then, otherwise, loc } => {
                    let c = condition(cx, test);
                    let g = after_expr(cx, test, loc, p, f);
                    expr_found_in_stmt(cx, test, loc, p, f);
                    let h = with_guard(cx, c, crate::model::OnFail::Return, loc, false, g);
                    guard_keeps(cx, c, crate::model::OnFail::Return, loc, false, g);
                    stmts_are_found(cx, then, 0, true, under_condition(p, c, true, false), h);
                    keeps_on(g, h, end);
                    keeps_on(f, g, end);
                    stays(cx, test, loc, p, g, end);
                },
                _ => {},
            }
        } else {
            let g = after_stmt(cx, ss[i], top, p, f);
            stmt_is_found(cx, ss[i], top, p, f);
            stmts_are_found(cx, ss, i + 1, top, place_after(cx, ss[i], top, p), g);
            stmt_stays(cx, ss[i], top, p, g, end);
            keeps_on(f, g, end);
        }
    } else {
        keeps_itself(f);
    }
}

proof fn stmt_is_found(cx: CxView, s: StmtView, top: bool, p: PlaceView, f: FactsView)
    requires
        is_tidy(f),
    ensures
        is_tidy(after_stmt(cx, s, top, p, f)),
        keeps_all(f, after_stmt(cx, s, top, p, f)),
        finds_stmt(cx, s, top, p, after_stmt(cx, s, top, p, f)),
    decreases s, 0int,
{
    let end = after_stmt(cx, s, top, p, f);
    match s {
        StmtView::Expr(e, loc) => {
            expr_found_in_stmt(cx, e, loc, p, f);
        },
        StmtView::Let { name, ty, init, loc } => {
            if let Some(e) = init {
                let g = after_expr(cx, e, loc, p, f);
                expr_found_in_stmt(cx, e, loc, p, f);
                creation_keeps(cx, ty, e, loc, g);
                stays(cx, e, loc, p, g, end);
                keeps_on(f, g, end);
            } else {
                keeps_itself(f);
            }
        },
        StmtView::If { test, then, otherwise, loc } => {
            let c = condition(cx, test);
            let g = after_expr(cx, test, loc, p, f);
            expr_found_in_stmt(cx, test, loc, p, f);
            let h = match exit_of(then) {
                Some(on_fail) => if top && otherwise.len() == 0 {
                    let v = crate::entity::returns_value(then);
                    guard_keeps(cx, negation(c), on_fail, loc, v, g);
                    with_guard(cx, negation(c), on_fail, loc, v, g)
                } else {
                    keeps_itself(g);
                    g
                },
                None => {
                    keeps_itself(g);
                    g
                },
            };
            let q = under_condition(p, c, false, true);
            let r = under_condition(p, negation(c), false, true);
            stmts_are_found(cx, then, 0, false, q, h);
            let k = after_stmts(cx, then, 0, false, q, h);
            stmts_are_found(cx, otherwise, 0, false, r, k);
            keeps_on(h, k, end);
            keeps_on(g, h, end);
            keeps_on(f, g, end);
            stays(cx, test, loc, p, g, end);
            stmts_stay(cx, then, 0, false, q, k, end);
        },
        StmtView::Return(e, loc) => {
            if let Some(x) = e {
                let g = after_expr(cx, x, loc, p, f);
                expr_found_in_stmt(cx, x, loc, p, f);
                same_facts(g, end);
                stays(cx, x, loc, p, g, end);
                keeps_on(f, g, end);
            } else {
                keeps_itself(f);
            }
        },
        StmtView::Throw(e, loc) => {
            let g = FactsView { throws: true, ..f };
            same_facts(f, g);
            match e {
                ExprView::New { callee, args, loc: at } => {
                    all_are_found(cx, args, 0, at, p, g);
                    throws_stay_in_all(cx, args, 0, at, p, g);
                    keeps_on(f, g, end);
                },
                _ => {
                    expr_found_in_stmt(cx, e, loc, p, g);
                    throws_stay(cx, e, loc, p, g);
                    keeps_on(f, g, end);
                },
            }
        },
        StmtView::Loop { binding, iter, body, loc } => {
            let q = inside_region(p, true, false);
            match iter {
                Some(x) => {
                    let g = after_expr(cx, x, loc, p, f);
                    expr_found_in_stmt(cx, x, loc, p, f);
                    stmts_are_found(cx, body, 0, false, q, g);
                    stays(cx, x, loc, p, g, end);
                    keeps_on(f, g, end);
                },
                None => {
                    stmts_are_found(cx, body, 0, false, q, f);
                },
            }
        },
        StmtView::Try { body, handler, finalizer, loc } => {
            let q = inside_region(p, true, false);
            let g = after_stmts(cx, body, 0, false, p, f);
            stmts_are_found(cx, body, 0, false, p, f);
            let h = after_stmts(cx, handler, 0, false, q, g);
            stmts_are_found(cx, handler, 0, false, q, g);
            stmts_are_found(cx, finalizer, 0, false, p, h);
            keeps_on(g, h, end);
            keeps_on(f, g, end);
            stmts_stay(cx, body, 0, false, p, g, end);
            stmts_stay(cx, handler, 0, false, q, h, end);
        },
        StmtView::Block(b) => {
            stmts_are_found(cx, b, 0, top, p, f);
        },
        StmtView::Jump(_) => {
            keeps_itself(f);
        },
    }
}

proof fn creation_keeps(
    cx: CxView,
    ty: Option<crate::ir::TypeRefView>,
    init: ExprView,
    loc: LocView,
    f: FactsView,
)
    requires
        is_tidy(f),
    ensures
        is_tidy(with_creation(cx, ty, init, loc, f)),
        keeps_all(f, with_creation(cx, ty, init, loc, f)),
{
    reveal(keeps);
    match (ty, init) {
        (Some(t), ExprView::Object(props)) => match crate::resolve::type_in(
            cx.scene.ix.program,
            cx.env.module,
            t,
        ) {
            crate::resolve::TyView::Record { name, module } => {
                joined_up(f.writes, creation_writes(cx, name, props, loc, 0));
            },
            _ => {},
        },
        _ => {},
    }
}

/// Whatever the statements of a body do is found, in every branch, loop and handler, and under the
/// conditions that lead to it; facts that were found before stay.
pub proof fn statements_leave_their_facts(
    cx: CxView,
    ss: Seq<StmtView>,
    top: bool,
    p: PlaceView,
    f: FactsView,
)
    requires
        is_tidy(f),
    ensures
        finds_stmts(cx, ss, 0, top, p, after_stmts(cx, ss, 0, top, p, f)),
        keeps_all(f, after_stmts(cx, ss, 0, top, p, f)),
        is_tidy(after_stmts(cx, ss, 0, top, p, f)),
{
    stmts_are_found(cx, ss, 0, top, p, f);
}

/// A call has the conditions of its place: those that enclose it, and apart from them those that
/// guard the function.
pub proof fn shapes_have_their_conditions(
    p: PlaceView,
    c: crate::pred::PredView,
    guard: bool,
    nested: bool,
    shape: Text,
    target: Option<Text>,
    loc: LocView,
)
    ensures
        ({
            let s = shape_at(under_condition(p, c, guard, nested), shape, target, loc);
            &&& s.shape == shape && s.target == target && s.loc == loc
            &&& (if guard {
                s.guards
            } else {
                s.when
            }).contains(pred_text(c))
        }),
{
    let q = under_condition(p, c, guard, nested);
    path_has_last(p.path, c, guard, 0);
    let none = Seq::<Text>::empty();
    assert(none =~= seq![]);
    crate::ordered::united_members(none, crate::extract::path_texts(q.path, guard, 0));
    assert(conditions_at(q.path, guard).contains(pred_text(c)));
}

proof fn path_has_last(
    path: Seq<(crate::pred::PredView, bool)>,
    c: crate::pred::PredView,
    guard: bool,
    i: int,
)
    requires
        0 <= i <= path.len(),
    ensures
        crate::extract::path_texts(path.push((c, guard)), guard, i).contains(pred_text(c)),
    decreases path.len() - i,
{
    let all = path.push((c, guard));
    let here = crate::extract::path_texts(all, guard, i);
    let rest = crate::extract::path_texts(all, guard, i + 1);
    if i < path.len() {
        path_has_last(path, c, guard, i + 1);
        let j = choose|j: int| 0 <= j < rest.len() && rest[j] == pred_text(c);
        assert(here[here.len() - rest.len() + j] == rest[j]);
    } else {
        assert(all[i] == (c, guard));
        assert(here[0] == pred_text(c));
    }
}

} // verus!
