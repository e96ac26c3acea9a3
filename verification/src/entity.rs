//! Statements, decorators and whole entities: the facts of one function.

use crate::catalog;
use crate::catalog::{pattern_fits, pattern_of, route_from, segments_of, spec_value, subscribe_from};
use crate::envs::{ctes_in_scope, scope_ctes};
use crate::extract::{
    access_in_args, after_expr, after_exprs, api_of, condition, conditions, conditions_at, eval_or,
    inside_region, site_at, under_condition, value_or, Cx, CxView, Facts, FactsView, Place,
    PlaceView, Site,
};
use crate::ir::{
    call_view, expr_fields_view, expr_list_view, expr_view, stmt_list_view, stmt_view, unwrapped,
    Call, CallView, Expr, ExprView, Function, FunctionKind, FunctionView, Loc, LocView, Param,
    ParamView, Stmt, StmtView, TypeRef, TypeRefView,
};
use crate::list;
use crate::list::Plain;
use crate::markup::{markup_parts, rendered, type_text, written_type};
use crate::model::{
    Entity, EntityKind, EntityView, GuardFact, GuardFactView, OnFail, Output, OutputView, Route,
    RouteView, Subscription, SubscriptionView, WriteFact, WriteFactView,
};
use crate::ordered::{lookup, SortedMap, SortedSet};
use crate::pred::{in_domain, negation, Pred, PredView};
use crate::query::{Scene, SceneView};
use crate::resolve::{module_of, module_part, type_in, Ty, TyView};
use crate::text;
use crate::text::Text;
use crate::typing::{constant, env_of_module, expr_text, module_env, render};
use vstd::prelude::*;

verus! {

// ---- statements

/// How a block ends early: by `throw` or by `return`.
pub open spec fn exit_of(then: Seq<StmtView>) -> Option<OnFail> {
    if then.len() == 0 {
        None
    } else {
        match then.last() {
            StmtView::Throw(_, _) => Some(OnFail::Throw),
            StmtView::Return(_, _) => Some(OnFail::Return),
            _ => None,
        }
    }
}

/// A block ends with `break` or `continue`.
pub open spec fn jumps(then: Seq<StmtView>) -> bool {
    then.len() > 0 && then.last() is Jump
}

/// A block ends by returning a value.
pub open spec fn returns_value(then: Seq<StmtView>) -> bool {
    then.len() > 0 && match then.last() {
        StmtView::Return(e, _) => e is Some,
        _ => false,
    }
}

/// The place after a statement: after `if (c) return|throw|continue;` the rest of the block
/// runs under the negation of `c` (after a return or throw at the top level, a guard).
pub open spec fn place_after(cx: CxView, s: StmtView, top: bool, p: PlaceView) -> PlaceView {
    match s {
        StmtView::If { test, then, otherwise, loc } => if otherwise.len() == 0 && (exit_of(
            then,
        ) is Some || jumps(then)) {
            under_condition(p, negation(condition(cx, test)), top && !jumps(then), false)
        } else {
            p
        },
        _ => p,
    }
}

/// The statement is the last one of a function's top level, and an `if` without `else` and
/// without an exit inside: the same as `if (!c) return; …`.
pub open spec fn is_trailing_if(ss: Seq<StmtView>, i: int, top: bool) -> bool {
    top && i + 1 == ss.len() && match ss[i] {
        StmtView::If { test, then, otherwise, loc } => otherwise.len() == 0 && exit_of(
            then,
        ) is None,
        _ => false,
    }
}

/// The facts with a guard.
pub open spec fn with_guard(
    cx: CxView,
    required: PredView,
    on_fail: OnFail,
    loc: LocView,
    returns_value: bool,
    f: FactsView,
) -> FactsView {
    FactsView {
        guards: f.guards.push(
            GuardFactView {
                required: in_domain(required, cx.scene.ix),
                on_fail,
                loc,
                returns_value,
            },
        ),
        ..f
    }
}

/// The writes that constructing a record makes, for the properties from index `i` on.
pub open spec fn creation_writes(
    cx: CxView,
    record: Text,
    props: Seq<(Text, ExprView)>,
    loc: LocView,
    i: int,
) -> Seq<WriteFactView>
    decreases props.len() - i,
{
    if 0 <= i < props.len() {
        (if props[i].0 == "..."@ {
            seq![]
        } else {
            seq![
                WriteFactView {
                    field: record + "."@ + props[i].0,
                    value: constant(cx.scene.ix, cx.env, props[i].1),
                    creation: true,
                    loc,
                },
            ]
        }) + creation_writes(cx, record, props, loc, i + 1)
    } else {
        seq![]
    }
}

/// The facts with a declaration: `const order: Order = { status: …, … }` constructs a record.
pub open spec fn with_creation(
    cx: CxView,
    ty: Option<TypeRefView>,
    init: ExprView,
    loc: LocView,
    f: FactsView,
) -> FactsView {
    match (ty, init) {
        (Some(t), ExprView::Object(props)) => match type_in(cx.scene.ix.program, cx.env.module, t) {
            TyView::Record { name, module } => FactsView {
                writes: f.writes + creation_writes(cx, name, props, loc, 0),
                ..f
            },
            _ => f,
        },
        _ => f,
    }
}

/// The facts after the statements from index `i` on.
pub open spec fn after_stmts(
    cx: CxView,
    ss: Seq<StmtView>,
    i: int,
    top: bool,
    p: PlaceView,
    f: FactsView,
) -> FactsView
    decreases ss, ss.len() - i,
{
    if 0 <= i < ss.len() {
        if is_trailing_if(ss, i, top) {
            match ss[i] {
                StmtView::If { test, then, otherwise, loc } => {
                    let f = after_expr(cx, test, loc, p, f);
                    let c = condition(cx, test);
                    let f = with_guard(cx, c, OnFail::Return, loc, false, f);
                    after_stmts(cx, then, 0, true, under_condition(p, c, true, false), f)
                },
                _ => f,
            }
        } else {
            after_stmts(
                cx,
                ss,
                i + 1,
                top,
                place_after(cx, ss[i], top, p),
                after_stmt(cx, ss[i], top, p, f),
            )
        }
    } else {
        f
    }
}

/// The facts after a statement.
pub open spec fn after_stmt(
    cx: CxView,
    s: StmtView,
    top: bool,
    p: PlaceView,
    f: FactsView,
) -> FactsView
    decreases s, 0int,
{
    match s {
        StmtView::Expr(e, loc) => after_expr(cx, e, loc, p, f),
        StmtView::Let { name, ty, init, loc } => match init {
            Some(e) => with_creation(cx, ty, e, loc, after_expr(cx, e, loc, p, f)),
            None => f,
        },
        StmtView::If { test, then, otherwise, loc } => {
            let f = after_expr(cx, test, loc, p, f);
            let c = condition(cx, test);
            let f = match exit_of(then) {
                Some(on_fail) => if top && otherwise.len() == 0 {
                    with_guard(cx, negation(c), on_fail, loc, returns_value(then), f)
                } else {
                    f
                },
                None => f,
            };
            let f = after_stmts(cx, then, 0, false, under_condition(p, c, false, true), f);
            after_stmts(
                cx,
                otherwise,
                0,
                false,
                under_condition(p, negation(c), false, true),
                f,
            )
        },
        StmtView::Return(e, loc) => match e {
            Some(e) => {
                let f = after_expr(cx, e, loc, p, f);
                FactsView {
                    outputs: f.outputs.push(
                        OutputView {
                            when: conditions_at(p.path, false),
                            value: expr_text(e),
                            renders: markup_parts(e, ""@, seq![]),
                            loc,
                        },
                    ),
                    ..f
                }
            },
            None => f,
        },
        StmtView::Throw(e, loc) => {
            let f = FactsView { throws: true, ..f };
            // The error thrown is part of the guard that throws it, not a call shape.
            match e {
                ExprView::New { callee, args, loc: at } => after_exprs(cx, args, 0, at, p, f),
                _ => after_expr(cx, e, loc, p, f),
            }
        },
        StmtView::Loop { binding, iter, body, loc } => {
            let f = match iter {
                Some(it) => after_expr(cx, it, loc, p, f),
                None => f,
            };
            after_stmts(cx, body, 0, false, inside_region(p, true, false), f)
        },
        StmtView::Try { body, handler, finalizer, loc } => {
            let f = after_stmts(cx, body, 0, false, p, f);
            let f = after_stmts(cx, handler, 0, false, inside_region(p, true, false), f);
            after_stmts(cx, finalizer, 0, false, p, f)
        },
        StmtView::Block(b) => after_stmts(cx, b, 0, top, p, f),
        StmtView::Jump(_) => f,
    }
}

fn early_exit(then: &Vec<Stmt>) -> (r: Option<OnFail>)
    ensures
        r.deep_view() == exit_of(stmt_list_view(then@)),
{
    let ghost v = stmt_list_view(then@);
    if then.len() == 0 {
        return None;
    }
    assert(v.last() == stmt_view(then@.last()));
    match &then[then.len() - 1] {
        Stmt::Throw(_, _) => Some(OnFail::Throw),
        Stmt::Return(_, _) => Some(OnFail::Return),
        _ => None,
    }
}

fn is_jump(then: &Vec<Stmt>) -> (r: bool)
    ensures
        r == jumps(stmt_list_view(then@)),
{
    let ghost v = stmt_list_view(then@);
    if then.len() == 0 {
        return false;
    }
    assert(v.last() == stmt_view(then@.last()));
    match &then[then.len() - 1] {
        Stmt::Jump(_) => true,
        _ => false,
    }
}

fn gives_value(then: &Vec<Stmt>) -> (r: bool)
    ensures
        r == returns_value(stmt_list_view(then@)),
{
    let ghost v = stmt_list_view(then@);
    if then.len() == 0 {
        return false;
    }
    assert(v.last() == stmt_view(then@.last()));
    match &then[then.len() - 1] {
        Stmt::Return(e, _) => e.is_some(),
        _ => false,
    }
}

fn guard(
    cx: &Cx,
    required: Pred,
    on_fail: OnFail,
    loc: &Loc,
    returns_value: bool,
    f: &mut Facts,
)
    ensures
        final(f).deep_view() == with_guard(
            cx.deep_view(),
            required.deep_view(),
            on_fail,
            loc.deep_view(),
            returns_value,
            old(f).deep_view(),
        ),
{
    let required = required.with_domain(cx.scene.ix);
    list::push(&mut f.guards, GuardFact { required, on_fail, loc: loc.dup(), returns_value });
}

fn creation(cx: &Cx, ty: &Option<TypeRef>, init: &Expr, loc: &Loc, f: &mut Facts)
    ensures
        final(f).deep_view() == with_creation(
            cx.deep_view(),
            ty.deep_view(),
            init.deep_view(),
            loc.deep_view(),
            old(f).deep_view(),
        ),
{
    let t = match ty {
        Some(t) => t,
        None => {
            return;
        },
    };
    let props = match init {
        Expr::Object(props) => props,
        _ => {
            return;
        },
    };
    let name = match cx.scene.ix.resolve_type(&cx.env.module, t) {
        Ty::Record { name, module } => name,
        _ => {
            return;
        },
    };
    let ghost k = cx.deep_view();
    let ghost v = expr_fields_view(props@);
    let ghost lv = loc.deep_view();
    let ghost before = f.deep_view();
    let mut i: usize = 0;
    while i < props.len()
        invariant
            i <= props@.len(),
            k == cx.deep_view(),
            v == expr_fields_view(props@),
            lv == loc.deep_view(),
            f.deep_view() == (FactsView { writes: f.deep_view().writes, ..before }),
            f.deep_view().writes + creation_writes(k, name@, v, lv, i as int) == before.writes
                + creation_writes(k, name@, v, lv, 0),
        decreases props@.len() - i,
    {
        assert(v[i as int] == (props@[i as int].0@, expr_view(props@[i as int].1)));
        if !text::same(&props[i].0, "...") {
            list::push(
                &mut f.writes,
                WriteFact {
                    field: text::cat3(&name, ".", &props[i].0),
                    value: cx.constant_of(&props[i].1),
                    creation: true,
                    loc: loc.dup(),
                },
            );
        }
        i += 1;
    }
    assert(f.deep_view().writes =~= before.writes + creation_writes(k, name@, v, lv, 0));
}

#[verifier::loop_isolation(false)]
fn stmts(cx: &Cx, ss: &Vec<Stmt>, top: bool, p: &Place, f: &mut Facts)
    ensures
        final(f).deep_view() == after_stmts(
            cx.deep_view(),
            stmt_list_view(ss@),
            0,
            top,
            p.deep_view(),
            old(f).deep_view(),
        ),
    decreases ss, ss@.len() + 1,
{
    let ghost k = cx.deep_view();
    let ghost v = stmt_list_view(ss@);
    let ghost before = f.deep_view();
    let mut here = p.inside(false, false);
    let mut i: usize = 0;
    let n: usize = ss.len();
    while i < n
        invariant
            i <= n,
            after_stmts(k, v, i as int, top, here.deep_view(), f.deep_view()) == after_stmts(
                k,
                v,
                0,
                top,
                p.deep_view(),
                before,
            ),
        decreases n - i,
    {
        let s = &ss[i];
        assert(v[i as int] == stmt_view(ss@[i as int]));
        if let Stmt::If { test, then, otherwise, loc } = s {
            let ghost tv = stmt_list_view(then@);
            let ghost ov = stmt_list_view(otherwise@);
            let plain = otherwise.len() == 0;
            let exit = early_exit(then);
            if top && i + 1 == n && plain && exit.is_none() {
                cx.expr(test, loc, &here, f);
                guard(cx, cx.pred(test), OnFail::Return, loc, false, f);
                let inner = here.under(cx.pred(test), true, false);
                stmts(cx, then, true, &inner, f);
                return;
            }
            stmt(cx, s, top, &here, f);
            let jump = is_jump(then);
            if plain && (exit.is_some() || jump) {
                here = here.under(cx.pred(test).negate(), top && !jump, false);
            }
        } else {
            stmt(cx, s, top, &here, f);
        }
        i += 1;
    }
}

#[verifier::rlimit(60)]
fn stmt(cx: &Cx, s: &Stmt, top: bool, p: &Place, f: &mut Facts)
    ensures
        final(f).deep_view() == after_stmt(
            cx.deep_view(),
            s.deep_view(),
            top,
            p.deep_view(),
            old(f).deep_view(),
        ),
    decreases s, 0int,
{
    match s {
        Stmt::Expr(e, loc) => cx.expr(e, loc, p, f),
        Stmt::Let { name, ty, init, loc } => {
            if let Some(e) = init {
                cx.expr(e, loc, p, f);
                creation(cx, ty, e, loc, f);
            }
        },
        Stmt::If { test, then, otherwise, loc } => {
            let ghost tv = stmt_list_view(then@);
            let ghost ov = stmt_list_view(otherwise@);
            cx.expr(test, loc, p, f);
            if let Some(on_fail) = early_exit(then) {
                if top && otherwise.len() == 0 {
                    guard(cx, cx.pred(test).negate(), on_fail, loc, gives_value(then), f);
                }
            }
            stmts(cx, then, false, &p.under(cx.pred(test), false, true), f);
            stmts(cx, otherwise, false, &p.under(cx.pred(test).negate(), false, true), f);
        },
        Stmt::Return(e, loc) => {
            if let Some(e) = e {
                cx.expr(e, loc, p, f);
                list::push(
                    &mut f.outputs,
                    Output {
                        when: conditions(&p.path, false),
                        value: render(e),
                        renders: rendered(e, "", &list::empty()),
                        loc: loc.dup(),
                    },
                );
            }
        },
        Stmt::Throw(e, loc) => {
            let ghost ev = expr_view(*e);
            f.throws = true;
            match e {
                Expr::New { callee, args, loc: at } => cx.exprs(args, at, p, f),
                e => cx.expr(e, loc, p, f),
            }
        },
        Stmt::Loop { binding, iter, body, loc } => {
            if let Some(it) = iter {
                cx.expr(it, loc, p, f);
            }
            stmts(cx, body, false, &p.inside(true, false), f);
        },
        Stmt::Try { body, handler, finalizer, loc } => {
            stmts(cx, body, false, p, f);
            stmts(cx, handler, false, &p.inside(true, false), f);
            stmts(cx, finalizer, false, p, f);
        },
        Stmt::Block(b) => stmts(cx, b, top, p, f),
        Stmt::Jump(_) => {},
    }
}

// ---- decorators

/// The segments from index `i` on that are not empty.
pub open spec fn filled(segs: Seq<Text>, i: int) -> Seq<Text>
    decreases segs.len() - i,
{
    if 0 <= i < segs.len() {
        (if segs[i].len() > 0 {
            seq![segs[i]]
        } else {
            seq![]
        }) + filled(segs, i + 1)
    } else {
        seq![]
    }
}

/// `/prefix/path`, without duplicate and trailing slashes.
pub open spec fn joined_route(prefix: Text, path: Text) -> Text {
    "/"@ + text::joined(
        filled(text::pieces(prefix, "/"@), 0) + filled(text::pieces(path, "/"@), 0),
        "/"@,
    )
}

fn fill(segs: &Vec<String>, out: &mut Vec<String>)
    ensures
        final(out).deep_view() == old(out).deep_view() + filled(segs.deep_view(), 0),
{
    let ghost v = segs.deep_view();
    let ghost before = out.deep_view();
    let mut i: usize = 0;
    while i < segs.len()
        invariant
            i <= segs@.len(),
            v == segs.deep_view(),
            out.deep_view() + filled(v, i as int) == before + filled(v, 0),
        decreases segs@.len() - i,
    {
        if !segs[i].as_str().is_empty() {
            list::push(out, segs[i].dup());
        }
        i += 1;
    }
    assert(out.deep_view() =~= before + filled(v, 0));
}

fn join_route(prefix: &str, path: &str) -> (r: String)
    ensures
        r@ == joined_route(prefix@, path@),
{
    let mut segs: Vec<String> = list::empty();
    fill(&text::split(prefix, "/"), &mut segs);
    fill(&text::split(path, "/"), &mut segs);
    assert(segs.deep_view() =~= filled(text::pieces(prefix@, "/"@), 0) + filled(
        text::pieces(path@, "/"@),
        0,
    ));
    text::cat2("/", &text::join(&segs, "/"))
}

/// The first decorator from index `i` on that fits a pattern.
pub open spec fn decorator_fitting(cx: CxView, ds: Seq<CallView>, pattern: Text, i: int) -> Option<
    CallView,
>
    decreases ds.len() - i,
{
    if 0 <= i < ds.len() {
        if api_of(cx, ds[i].callee) matches Some(a) && pattern_fits(
            pattern_of(pattern),
            segments_of(a),
        ) {
            Some(ds[i])
        } else {
            decorator_fitting(cx, ds, pattern, i + 1)
        }
    } else {
        None
    }
}

/// The first property named `key` from index `i` on.
pub open spec fn prop_named(props: Seq<(Text, ExprView)>, key: Text, i: int) -> Option<ExprView>
    decreases props.len() - i,
{
    if 0 <= i < props.len() {
        if props[i].0 == key {
            Some(props[i].1)
        } else {
            prop_named(props, key, i + 1)
        }
    } else {
        None
    }
}

/// Argument 0 of the class decorator that fits `pattern`: empty when there is no such
/// decorator or it has no argument, `None` when it is not a constant.
pub open spec fn class_prefix(cx: CxView, class: Option<Text>, pattern: Text) -> Option<Text> {
    let found = match class {
        Some(c) => match lookup(cx.scene.ix.classes, cx.module + "::"@ + c) {
            Some(k) => decorator_fitting(cx, k.decorators, pattern, 0),
            None => None,
        },
        None => None,
    };
    match found {
        None => Some(seq![]),
        Some(d) => if d.args.len() == 0 {
            Some(seq![])
        } else {
            match d.args[0] {
                ExprView::Object(props) => match prop_named(props, "path"@, 0) {
                    Some(v) => constant(cx.scene.ix, cx.env, v),
                    None => None,
                },
                a => constant(cx.scene.ix, cx.env, a),
            }
        },
    }
}

/// The path of a route with its prefix; `<dynamic>` where either is not constant.
pub open spec fn route_path(prefix: Option<Option<Text>>, path: Option<Text>) -> Text {
    match (prefix, path) {
        (Some(None), _) => "<dynamic>"@,
        (_, None) => "<dynamic>"@,
        (Some(Some(pre)), Some(p)) => joined_route(pre, p),
        (None, Some(p)) => joined_route(seq![], p),
    }
}

/// The facts with a decorator: a route or subscription that it declares, and the access
/// requirements that it states.
pub open spec fn with_decorator(cx: CxView, class: Option<Text>, d: CallView, f: FactsView) -> FactsView {
    let f = FactsView { access: f.access + access_in_args(cx, d.args, d.loc, 0), ..f };
    match api_of(cx, d.callee) {
        None => f,
        Some(api) => {
            let site = site_at(cx.scene.ix, cx.env, api, d.args);
            match route_from(cx.scene.cat.route, segments_of(api), true, 0) {
                Some(rule) => FactsView {
                    routes: f.routes.push(
                        RouteView {
                            method: value_or(rule.method, site, "?"@),
                            path: route_path(
                                match rule.prefix {
                                    Some(p) => Some(class_prefix(cx, class, p)),
                                    None => None,
                                },
                                spec_value(rule.path, site),
                            ),
                            handler: cx.id,
                            loc: d.loc,
                        },
                    ),
                    ..f
                },
                None => match subscribe_from(cx.scene.cat.subscribe, segments_of(api), true, 0) {
                    Some(rule) => FactsView {
                        subscriptions: f.subscriptions.push(
                            SubscriptionView {
                                event: value_or(rule.event, site, "<dynamic>"@),
                                handler: cx.id,
                                loc: d.loc,
                            },
                        ),
                        ..f
                    },
                    None => f,
                },
            }
        },
    }
}

/// The facts with the decorators from index `i` on.
pub open spec fn with_decorators(
    cx: CxView,
    class: Option<Text>,
    ds: Seq<CallView>,
    i: int,
    f: FactsView,
) -> FactsView
    decreases ds.len() - i,
{
    if 0 <= i < ds.len() {
        with_decorators(cx, class, ds, i + 1, with_decorator(cx, class, ds[i], f))
    } else {
        f
    }
}

fn find_decorator<'a>(cx: &Cx, ds: &'a Vec<Call>, pattern: &str) -> (r: Option<&'a Call>)
    ensures
        r.deep_view() == decorator_fitting(cx.deep_view(), ds.deep_view(), pattern@, 0),
{
    let ghost k = cx.deep_view();
    let ghost v = ds.deep_view();
    let mut i: usize = 0;
    while i < ds.len()
        invariant
            i <= ds@.len(),
            k == cx.deep_view(),
            v == ds.deep_view(),
            decorator_fitting(k, v, pattern@, 0) == decorator_fitting(k, v, pattern@, i as int),
        decreases ds@.len() - i,
    {
        assert(v[i as int] == call_view(ds@[i as int]));
        let fits = match cx.api_name(&ds[i].callee) {
            Some(a) => catalog::api_matches(pattern, &a),
            None => false,
        };
        if fits {
            return Some(&ds[i]);
        }
        i += 1;
    }
    None
}

fn find_prop<'a>(props: &'a Vec<(String, Expr)>, key: &str) -> (r: Option<&'a Expr>)
    ensures
        r.deep_view() == prop_named(expr_fields_view(props@), key@, 0),
{
    let ghost v = expr_fields_view(props@);
    let mut i: usize = 0;
    while i < props.len()
        invariant
            i <= props@.len(),
            v == expr_fields_view(props@),
            prop_named(v, key@, 0) == prop_named(v, key@, i as int),
        decreases props@.len() - i,
    {
        assert(v[i as int] == (props@[i as int].0@, expr_view(props@[i as int].1)));
        if text::same(&props[i].0, key) {
            return Some(&props[i].1);
        }
        i += 1;
    }
    None
}

fn class_decorator_arg(cx: &Cx, class: &Option<String>, pattern: &str) -> (r: Option<String>)
    ensures
        r.deep_view() == class_prefix(cx.deep_view(), class.deep_view(), pattern@),
{
    let found = match class {
        Some(c) => match cx.scene.ix.class(&text::cat3(&cx.module, "::", c)) {
            Some(k) => find_decorator(cx, &k.decorators, pattern),
            None => None,
        },
        None => None,
    };
    match found {
        None => Some(String::new()),
        Some(d) => {
            let ghost dv = call_view(*d);
            let ghost av = expr_list_view(d.args@);
            if d.args.len() == 0 {
                return Some(String::new());
            }
            assert(av[0] == expr_view(d.args@[0]));
            match &d.args[0] {
                Expr::Object(props) => {
                    let ghost pv = expr_fields_view(props@);
                    match find_prop(props, "path") {
                        Some(v) => cx.constant_of(v),
                        None => None,
                    }
                },
                a => cx.constant_of(a),
            }
        },
    }
}

fn decorator(cx: &Cx, class: &Option<String>, d: &Call, f: &mut Facts)
    ensures
        final(f).deep_view() == with_decorator(
            cx.deep_view(),
            class.deep_view(),
            call_view(*d),
            old(f).deep_view(),
        ),
{
    let ghost dv = call_view(*d);
    cx.access_of_args(&d.args, &d.loc, &mut f.access);
    let api = match cx.api_name(&d.callee) {
        Some(api) => api,
        None => {
            return;
        },
    };
    let site = Site::new(cx.scene.ix, cx.env, &api, &d.args);
    if let Some(rule) = cx.scene.cat.route_for(&api, true) {
        let path = match &rule.prefix {
            Some(p) => match class_decorator_arg(cx, class, p) {
                None => "<dynamic>".to_owned(),
                Some(pre) => match catalog::eval_spec(&rule.path, &site) {
                    None => "<dynamic>".to_owned(),
                    Some(path) => join_route(&pre, &path),
                },
            },
            None => match catalog::eval_spec(&rule.path, &site) {
                None => "<dynamic>".to_owned(),
                Some(path) => join_route(&String::new(), &path),
            },
        };
        list::push(
            &mut f.routes,
            Route {
                method: eval_or(&rule.method, &site, "?"),
                path,
                handler: cx.id.dup(),
                loc: d.loc.dup(),
            },
        );
    } else if let Some(rule) = cx.scene.cat.subscription_for(&api, true) {
        list::push(
            &mut f.subscriptions,
            Subscription {
                event: eval_or(&rule.event, &site, "<dynamic>"),
                handler: cx.id.dup(),
                loc: d.loc.dup(),
            },
        );
    }
}

fn decorators(cx: &Cx, class: &Option<String>, ds: &Vec<Call>, f: &mut Facts)
    ensures
        final(f).deep_view() == with_decorators(
            cx.deep_view(),
            class.deep_view(),
            ds.deep_view(),
            0,
            old(f).deep_view(),
        ),
{
    let ghost k = cx.deep_view();
    let ghost v = ds.deep_view();
    let ghost before = f.deep_view();
    let mut i: usize = 0;
    while i < ds.len()
        invariant
            i <= ds@.len(),
            k == cx.deep_view(),
            v == ds.deep_view(),
            with_decorators(k, class.deep_view(), v, i as int, f.deep_view()) == with_decorators(
                k,
                class.deep_view(),
                v,
                0,
                before,
            ),
        decreases ds@.len() - i,
    {
        assert(v[i as int] == call_view(ds@[i as int]));
        decorator(cx, class, &ds[i], f);
        i += 1;
    }
}

// ---- entities

/// A name begins with `prefix` and goes on with an upper-case letter.
pub open spec fn named_like(name: Text, prefix: Text) -> bool {
    text::begins(name, prefix) && name.len() > prefix.len() && text::upper_case(name[prefix.len()
        as int])
}

/// A function that answers yes or no: it is declared `boolean`, or it declares nothing and is
/// named like a predicate.
pub open spec fn is_predicate(f: FunctionView) -> bool {
    match f.return_type {
        Some(t) => match unwrapped(t) {
            TypeRefView::Primitive(p) => p == "boolean"@,
            _ => false,
        },
        None => named_like(f.name, "can"@) || named_like(f.name, "is"@) || named_like(
            f.name,
            "has"@,
        ) || named_like(f.name, "should"@) || named_like(f.name, "may"@) || named_like(
            f.name,
            "allow"@,
        ),
    }
}

/// The values that the statements from index `i` on return themselves.
pub open spec fn returns_from(body: Seq<StmtView>, i: int) -> Seq<(ExprView, LocView)>
    decreases body.len() - i,
{
    if 0 <= i < body.len() {
        (match body[i] {
            StmtView::Return(e, l) => match e {
                Some(e) => seq![(e, l)],
                None => seq![],
            },
            _ => seq![],
        }) + returns_from(body, i + 1)
    } else {
        seq![]
    }
}

/// The parameters from index `i` on as written, `name: Type`.
pub open spec fn param_texts(params: Seq<ParamView>, i: int) -> Seq<Text>
    decreases params.len() - i,
{
    if 0 <= i < params.len() {
        seq![
            match params[i].ty {
                Some(t) => params[i].name + ": "@ + written_type(t),
                None => params[i].name,
            },
        ] + param_texts(params, i + 1)
    } else {
        seq![]
    }
}

/// The kind of entity that a function is.
pub open spec fn kind_of(k: FunctionKind) -> EntityKind {
    match k {
        FunctionKind::Function => EntityKind::Function,
        FunctionKind::Method => EntityKind::Method,
        FunctionKind::Constructor => EntityKind::Constructor,
        FunctionKind::Closure => EntityKind::Closure,
    }
}

/// No facts.
pub open spec fn no_facts() -> FactsView {
    FactsView {
        calls: seq![],
        effects: seq![],
        reads: seq![],
        writes: seq![],
        guards: seq![],
        outputs: seq![],
        throws: false,
        subscriptions: seq![],
        routes: seq![],
        unknowns: seq![],
        call_shapes: seq![],
        filters: seq![],
        logs: seq![],
        access: seq![],
        consumed: seq![],
    }
}

/// What a walk over a function knows.
pub open spec fn cx_of(k: SceneView, f: FunctionView) -> CxView {
    CxView {
        scene: k,
        env: match lookup(k.envs.by_fn, f.id) {
            Some(env) => env,
            None => module_env(""@),
        },
        id: f.id,
        module: module_part(f.id),
        ctes: ctes_in_scope(k.ix, f),
    }
}

/// The facts of a function: those of its body, then those of its decorators. The predicate of
/// a filter callback belongs to the call that it is passed to.
pub open spec fn facts_of(k: SceneView, f: FunctionView) -> FactsView {
    let cx = cx_of(k, f);
    with_decorators(
        cx,
        f.class,
        f.decorators,
        0,
        after_stmts(
            cx,
            f.body,
            0,
            true,
            PlaceView {
                path: seq![],
                nested: false,
                filtered: k.envs.filter_callbacks.contains(f.id),
            },
            no_facts(),
        ),
    )
}

/// The entity that a function is.
pub open spec fn entity_of(k: SceneView, f: FunctionView) -> EntityView {
    let facts = facts_of(k, f);
    let given = returns_from(f.body, 0);
    let answers = is_predicate(f) && given.len() == 1;
    EntityView {
        id: f.id,
        name: f.name,
        kind: kind_of(f.kind),
        module: module_part(f.id),
        class: f.class,
        parent: f.parent,
        loc: f.loc,
        end_line: f.end_line,
        body_hash: f.body_hash,
        calls: facts.calls,
        effects: facts.effects,
        reads: facts.reads,
        writes: facts.writes,
        guards: facts.guards,
        returns: if answers {
            Some(condition(cx_of(k, f), given[0].0))
        } else {
            None
        },
        returns_at: if answers {
            Some(given[0].1)
        } else {
            None
        },
        outputs: facts.outputs,
        params: param_texts(f.params, 0),
        throws: facts.throws,
        subscriptions: facts.subscriptions,
        routes: facts.routes,
        unknowns: facts.unknowns,
        call_shapes: facts.call_shapes,
        filters: facts.filters,
        logs: facts.logs,
        access: facts.access,
    }
}

fn has_prefix(name: &str, prefix: &str) -> (r: bool)
    ensures
        r == named_like(name@, prefix@),
{
    if !text::starts_with(name, prefix) {
        return false;
    }
    let v = text::chars_of(name);
    let n: usize = text::chars_of(prefix).len();
    n < v.len() && text::is_upper_case(v[n])
}

fn is_predicate_fn(f: &Function) -> (r: bool)
    ensures
        r == is_predicate(f.deep_view()),
{
    match &f.return_type {
        Some(t) => match t.unwrap_async() {
            TypeRef::Primitive(p) => text::same(p, "boolean"),
            _ => false,
        },
        None => has_prefix(&f.name, "can") || has_prefix(&f.name, "is") || has_prefix(
            &f.name,
            "has",
        ) || has_prefix(&f.name, "should") || has_prefix(&f.name, "may") || has_prefix(
            &f.name,
            "allow",
        ),
    }
}

fn own_returns<'a>(body: &'a Vec<Stmt>) -> (r: Vec<(&'a Expr, &'a Loc)>)
    ensures
        r.deep_view() == returns_from(stmt_list_view(body@), 0),
{
    let ghost v = stmt_list_view(body@);
    let mut out: Vec<(&'a Expr, &'a Loc)> = list::empty();
    let mut i: usize = 0;
    while i < body.len()
        invariant
            i <= body@.len(),
            v == stmt_list_view(body@),
            out.deep_view() + returns_from(v, i as int) == returns_from(v, 0),
        decreases body@.len() - i,
    {
        assert(v[i as int] == stmt_view(body@[i as int]));
        if let Stmt::Return(Some(e), l) = &body[i] {
            list::push(&mut out, (e, l));
        }
        i += 1;
    }
    out
}

fn params_text(params: &Vec<Param>) -> (r: Vec<String>)
    ensures
        r.deep_view() == param_texts(params.deep_view(), 0),
{
    let ghost v = params.deep_view();
    let mut out: Vec<String> = list::empty();
    let mut i: usize = 0;
    while i < params.len()
        invariant
            i <= params@.len(),
            v == params.deep_view(),
            out.deep_view() + param_texts(v, i as int) == param_texts(v, 0),
        decreases params@.len() - i,
    {
        let p = &params[i];
        assert(p.deep_view() == v[i as int]);
        let t = match &p.ty {
            Some(t) => text::cat3(&p.name, ": ", &type_text(t)),
            None => p.name.dup(),
        };
        list::push(&mut out, t);
        i += 1;
    }
    out
}

fn empty_facts() -> (r: Facts)
    ensures
        r.deep_view() == no_facts(),
{
    Facts {
        calls: list::empty(),
        effects: list::empty(),
        reads: SortedMap::new(),
        writes: list::empty(),
        guards: list::empty(),
        outputs: list::empty(),
        throws: false,
        subscriptions: list::empty(),
        routes: list::empty(),
        unknowns: list::empty(),
        call_shapes: list::empty(),
        filters: list::empty(),
        logs: list::empty(),
        access: list::empty(),
        consumed: SortedSet::new(),
    }
}

/// The facts of one function.
pub fn extract_entity(scene: &Scene, f: &Function) -> (r: Entity)
    ensures
        r.deep_view() == entity_of(scene.deep_view(), f.deep_view()),
{
    proof {
        crate::ir::stmt_list_view_is_deep(f.body);
    }
    let fallback = env_of_module("");
    let env = match scene.envs.by_fn.get(&f.id) {
        Some(env) => env,
        None => &fallback,
    };
    let cx = Cx {
        scene,
        env,
        id: &f.id,
        module: module_of(&f.id),
        ctes: scope_ctes(scene.ix, f),
    };
    assert(cx.deep_view() == cx_of(scene.deep_view(), f.deep_view()));
    let place = Place {
        path: list::empty(),
        nested: false,
        filtered: scene.envs.filter_callbacks.contains(&f.id),
    };
    let mut facts = empty_facts();
    stmts(&cx, &f.body, true, &place, &mut facts);
    decorators(&cx, &f.class, &f.decorators, &mut facts);
    assert(facts.deep_view() == facts_of(scene.deep_view(), f.deep_view()));
    let mut answer: Option<Pred> = None;
    let mut returns_at: Option<Loc> = None;
    if is_predicate_fn(f) {
        let values = own_returns(&f.body);
        if values.len() == 1 {
            assert(values.deep_view()[0] == (values@[0].0.deep_view(), values@[0].1.deep_view()));
            answer = Some(cx.pred(values[0].0));
            returns_at = Some(values[0].1.dup());
        }
    }
    Entity {
        id: f.id.dup(),
        name: f.name.dup(),
        kind: match f.kind {
            FunctionKind::Function => EntityKind::Function,
            FunctionKind::Method => EntityKind::Method,
            FunctionKind::Constructor => EntityKind::Constructor,
            FunctionKind::Closure => EntityKind::Closure,
        },
        module: module_of(&f.id),
        class: f.class.dup(),
        parent: f.parent.dup(),
        loc: f.loc.dup(),
        end_line: f.end_line,
        body_hash: f.body_hash.dup(),
        calls: facts.calls,
        effects: facts.effects,
        reads: facts.reads,
        writes: facts.writes,
        guards: facts.guards,
        returns: answer,
        returns_at,
        outputs: facts.outputs,
        params: params_text(&f.params),
        throws: facts.throws,
        subscriptions: facts.subscriptions,
        routes: facts.routes,
        unknowns: facts.unknowns,
        call_shapes: facts.call_shapes,
        filters: facts.filters,
        logs: facts.logs,
        access: facts.access,
    }
}

} // verus!
