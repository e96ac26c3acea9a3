//! Typing environments: what the parameters and locals of every function are.

use crate::catalog::{any_fits, callback_from, segments_of, Catalog, CatalogView};
use crate::ir::{
    call_view, expr_fields_view, expr_list_view, expr_view, functions_from, jsx_view,
    stmt_list_view, Call, CallView, Expr, ExprView, Function, FunctionView, Param, ParamView, Stmt,
    StmtView,
};
use crate::list;
use crate::list::Plain;
use crate::ordered::{added, lookup, put, SortedMap, SortedSet};
use crate::resolve::{
    module_of, module_part, type_in, Callee, CalleeView, Env, EnvView, Index, IndexView, Ty, TyView,
};
use crate::text;
use crate::text::Text;
use crate::typing::{called, env_of_module, module_env, typed};
use vstd::prelude::*;

verus! {

/// Typing environments of every function, plus what was learned of callbacks from their call
/// sites.
#[derive(Debug, PartialEq)]
pub struct Envs {
    pub by_fn: SortedMap<String, Env>,
    /// Closures passed to a query-filter method (`where((eb) => …)`). Their predicate
    /// is recorded at the call site, rendered from what the closure returns.
    pub filter_callbacks: SortedSet<String>,
    /// Types for the untyped first parameter of closures, from the catalog's callback rules.
    pub hints: SortedMap<String, Ty>,
}

/// The view of [`Envs`].
#[verifier::ext_equal]
pub struct EnvsView {
    pub by_fn: Seq<(Seq<char>, EnvView)>,
    pub filter_callbacks: Seq<Seq<char>>,
    pub hints: Seq<(Seq<char>, TyView)>,
}

impl DeepView for Envs {
    type V = EnvsView;

    open spec fn deep_view(&self) -> EnvsView {
        EnvsView { by_fn: self.by_fn.deep_view(), filter_callbacks: self.filter_callbacks.deep_view(), hints: self.hints.deep_view() }
    }
}

// ---- the calls in a body

/// The calls in the expressions from index `i` on.
pub open spec fn calls_in_exprs(es: Seq<ExprView>, i: int) -> Seq<CallView>
    decreases es, es.len() - i,
{
    if 0 <= i < es.len() {
        calls_in_expr(es[i]) + calls_in_exprs(es, i + 1)
    } else {
        seq![]
    }
}

/// The calls in the values from index `i` on.
pub open spec fn calls_in_fields(fs: Seq<(Text, ExprView)>, i: int) -> Seq<CallView>
    decreases fs, fs.len() - i,
{
    if 0 <= i < fs.len() {
        calls_in_expr(fs[i].1) + calls_in_fields(fs, i + 1)
    } else {
        seq![]
    }
}

/// The calls in an expression, outermost first (closure bodies are separate functions).
pub open spec fn calls_in_expr(e: ExprView) -> Seq<CallView>
    decreases e, 0int,
{
    match e {
        ExprView::Call(c) => seq![*c] + calls_in_expr(c.callee) + calls_in_exprs(c.args, 0),
        ExprView::Member { object, property } => calls_in_expr(*object),
        ExprView::Index { object, index } => calls_in_expr(*object) + calls_in_expr(*index),
        ExprView::New { callee, args, loc } => calls_in_expr(*callee) + calls_in_exprs(args, 0),
        ExprView::Binary { op, left, right } => calls_in_expr(*left) + calls_in_expr(*right),
        ExprView::Logical { op, left, right } => calls_in_expr(*left) + calls_in_expr(*right),
        ExprView::Not(x) => calls_in_expr(*x),
        ExprView::Await(x) => calls_in_expr(*x),
        ExprView::Template { quasis, exprs } => calls_in_exprs(exprs, 0),
        ExprView::Array(xs) => calls_in_exprs(xs, 0),
        ExprView::Object(props) => calls_in_fields(props, 0),
        ExprView::Conditional { test, then, otherwise } => calls_in_expr(*test) + calls_in_expr(
            *then,
        ) + calls_in_expr(*otherwise),
        ExprView::Assign { target, value, loc } => calls_in_expr(*target) + calls_in_expr(*value),
        ExprView::Jsx(j) => calls_in_fields(j.attrs, 0) + calls_in_exprs(j.children, 0),
        _ => seq![],
    }
}

/// The calls in the statements from index `i` on.
pub open spec fn calls_in(ss: Seq<StmtView>, i: int) -> Seq<CallView>
    decreases ss, ss.len() - i,
{
    if 0 <= i < ss.len() {
        calls_in_stmt(ss[i]) + calls_in(ss, i + 1)
    } else {
        seq![]
    }
}

/// The calls in a statement.
pub open spec fn calls_in_stmt(s: StmtView) -> Seq<CallView>
    decreases s, 0int,
{
    match s {
        StmtView::Expr(e, _) => calls_in_expr(e),
        StmtView::Throw(e, _) => calls_in_expr(e),
        StmtView::Return(e, _) => match e {
            Some(e) => calls_in_expr(e),
            None => seq![],
        },
        StmtView::Let { name, ty, init, loc } => match init {
            Some(e) => calls_in_expr(e),
            None => seq![],
        },
        StmtView::If { test, then, otherwise, loc } => calls_in_expr(test) + calls_in(then, 0)
            + calls_in(otherwise, 0),
        StmtView::Loop { binding, iter, body, loc } => (match iter {
            Some(it) => calls_in_expr(it),
            None => seq![],
        }) + calls_in(body, 0),
        StmtView::Try { body, handler, finalizer, loc } => calls_in(body, 0) + calls_in(handler, 0)
            + calls_in(finalizer, 0),
        StmtView::Block(b) => calls_in(b, 0),
        StmtView::Jump(_) => seq![],
    }
}

fn visit_exprs<'e>(es: &'e Vec<Expr>, out: &mut Vec<&'e Call>)
    ensures
        final(out).deep_view() == old(out).deep_view() + calls_in_exprs(expr_list_view(es@), 0),
    decreases es,
{
    let ghost v = expr_list_view(es@);
    let ghost before = out.deep_view();
    let mut i: usize = 0;
    while i < es.len()
        invariant
            i <= es@.len(),
            v == expr_list_view(es@),
            out.deep_view() + calls_in_exprs(v, i as int) == before + calls_in_exprs(v, 0),
        decreases es@.len() - i,
    {
        visit_expr(&es[i], out);
        i += 1;
    }
    assert(out.deep_view() =~= before + calls_in_exprs(v, 0));
}

fn visit_fields<'e>(fs: &'e Vec<(String, Expr)>, out: &mut Vec<&'e Call>)
    ensures
        final(out).deep_view() == old(out).deep_view() + calls_in_fields(expr_fields_view(fs@), 0),
    decreases fs,
{
    let ghost v = expr_fields_view(fs@);
    let ghost before = out.deep_view();
    let mut i: usize = 0;
    while i < fs.len()
        invariant
            i <= fs@.len(),
            v == expr_fields_view(fs@),
            out.deep_view() + calls_in_fields(v, i as int) == before + calls_in_fields(v, 0),
        decreases fs@.len() - i,
    {
        visit_expr(&fs[i].1, out);
        i += 1;
    }
    assert(out.deep_view() =~= before + calls_in_fields(v, 0));
}

#[verifier::rlimit(50)]
fn visit_expr<'e>(e: &'e Expr, out: &mut Vec<&'e Call>)
    ensures
        final(out).deep_view() == old(out).deep_view() + calls_in_expr(e.deep_view()),
    decreases e,
{
    match e {
        Expr::Call(c) => {
            let ghost cv = call_view(**c);
            list::push(out, &**c);
            visit_expr(&c.callee, out);
            visit_exprs(&c.args, out);
        },
        Expr::Member { object, property } => visit_expr(object, out),
        Expr::Index { object, index } => {
            visit_expr(object, out);
            visit_expr(index, out);
        },
        Expr::New { callee, args, loc } => {
            visit_expr(callee, out);
            visit_exprs(args, out);
        },
        Expr::Binary { op, left, right } => {
            visit_expr(left, out);
            visit_expr(right, out);
        },
        Expr::Logical { op, left, right } => {
            visit_expr(left, out);
            visit_expr(right, out);
        },
        Expr::Not(x) => visit_expr(x, out),
        Expr::Await(x) => visit_expr(x, out),
        Expr::Template { quasis, exprs } => visit_exprs(exprs, out),
        Expr::Array(xs) => visit_exprs(xs, out),
        Expr::Object(props) => visit_fields(props, out),
        Expr::Conditional { test, then, otherwise } => {
            visit_expr(test, out);
            visit_expr(then, out);
            visit_expr(otherwise, out);
        },
        Expr::Assign { target, value, loc } => {
            visit_expr(target, out);
            visit_expr(value, out);
        },
        Expr::Jsx(j) => {
            let ghost jv = jsx_view(**j);
            visit_fields(&j.attrs, out);
            visit_exprs(&j.children, out);
        },
        _ => {},
    }
}

fn visit_stmts<'e>(ss: &'e Vec<Stmt>, out: &mut Vec<&'e Call>)
    ensures
        final(out).deep_view() == old(out).deep_view() + calls_in(stmt_list_view(ss@), 0),
    decreases ss,
{
    let ghost v = stmt_list_view(ss@);
    let ghost before = out.deep_view();
    let mut i: usize = 0;
    while i < ss.len()
        invariant
            i <= ss@.len(),
            v == stmt_list_view(ss@),
            out.deep_view() + calls_in(v, i as int) == before + calls_in(v, 0),
        decreases ss@.len() - i,
    {
        visit_stmt(&ss[i], out);
        i += 1;
    }
    assert(out.deep_view() =~= before + calls_in(v, 0));
}

fn visit_stmt<'e>(s: &'e Stmt, out: &mut Vec<&'e Call>)
    ensures
        final(out).deep_view() == old(out).deep_view() + calls_in_stmt(s.deep_view()),
    decreases s,
{
    match s {
        Stmt::Expr(e, _) => visit_expr(e, out),
        Stmt::Throw(e, _) => visit_expr(e, out),
        Stmt::Return(e, _) => {
            if let Some(e) = e {
                visit_expr(e, out);
            }
        },
        Stmt::Let { name, ty, init, loc } => {
            if let Some(e) = init {
                visit_expr(e, out);
            }
        },
        Stmt::If { test, then, otherwise, loc } => {
            visit_expr(test, out);
            visit_stmts(then, out);
            visit_stmts(otherwise, out);
        },
        Stmt::Loop { binding, iter, body, loc } => {
            if let Some(it) = iter {
                visit_expr(it, out);
            }
            visit_stmts(body, out);
        },
        Stmt::Try { body, handler, finalizer, loc } => {
            visit_stmts(body, out);
            visit_stmts(handler, out);
            visit_stmts(finalizer, out);
        },
        Stmt::Block(b) => visit_stmts(b, out),
        Stmt::Jump(_) => {},
    }
}

/// Every call in a body, outermost first (closure bodies are separate functions).
pub fn calls_of<'e>(body: &'e Vec<Stmt>) -> (r: Vec<&'e Call>)
    ensures
        r.deep_view() == calls_in(stmt_list_view(body@), 0),
{
    let mut out: Vec<&'e Call> = list::empty();
    visit_stmts(body, &mut out);
    out
}

// ---- locals

/// An environment in which a variable has a type.
pub open spec fn bound(env: EnvView, name: Text, ty: TyView) -> EnvView {
    EnvView { module: env.module, this_class: env.this_class, vars: put(env.vars, name, ty) }
}

/// The type of a local: as declared, or else that of its initializer.
pub open spec fn local_type(
    ix: IndexView,
    env: EnvView,
    ty: Option<crate::ir::TypeRefView>,
    init: Option<ExprView>,
) -> TyView {
    let declared = match ty {
        Some(t) => type_in(ix.program, env.module, t),
        None => TyView::Unknown,
    };
    if declared != TyView::Unknown {
        declared
    } else {
        match init {
            Some(e) => typed(ix, env, e),
            None => TyView::Unknown,
        }
    }
}

/// The environment after the declarations in the statements from index `i` on.
pub open spec fn with_locals(ix: IndexView, ss: Seq<StmtView>, i: int, env: EnvView) -> EnvView
    decreases ss, ss.len() - i,
{
    if 0 <= i < ss.len() {
        with_locals(ix, ss, i + 1, with_local(ix, ss[i], env))
    } else {
        env
    }
}

/// The environment after the declarations in a statement.
pub open spec fn with_local(ix: IndexView, s: StmtView, env: EnvView) -> EnvView
    decreases s, 0int,
{
    match s {
        StmtView::Let { name, ty, init, loc } => bound(env, name, local_type(ix, env, ty, init)),
        StmtView::If { test, then, otherwise, loc } => with_locals(
            ix,
            otherwise,
            0,
            with_locals(ix, then, 0, env),
        ),
        StmtView::Loop { binding, iter, body, loc } => with_locals(
            ix,
            body,
            0,
            match (binding, iter) {
                (Some(b), Some(it)) => bound(
                    env,
                    b,
                    match typed(ix, env, it) {
                        TyView::Array(el) => *el,
                        _ => TyView::Unknown,
                    },
                ),
                _ => env,
            },
        ),
        StmtView::Try { body, handler, finalizer, loc } => with_locals(
            ix,
            finalizer,
            0,
            with_locals(ix, handler, 0, with_locals(ix, body, 0, env)),
        ),
        StmtView::Block(b) => with_locals(ix, b, 0, env),
        _ => env,
    }
}

fn collect_locals(ix: &Index, ss: &Vec<Stmt>, env: &mut Env)
    ensures
        final(env).deep_view() == with_locals(
            ix.deep_view(),
            stmt_list_view(ss@),
            0,
            old(env).deep_view(),
        ),
    decreases ss,
{
    let ghost v = stmt_list_view(ss@);
    let ghost before = env.deep_view();
    let mut i: usize = 0;
    while i < ss.len()
        invariant
            i <= ss@.len(),
            v == stmt_list_view(ss@),
            with_locals(ix.deep_view(), v, i as int, env.deep_view()) == with_locals(
                ix.deep_view(),
                v,
                0,
                before,
            ),
        decreases ss@.len() - i,
    {
        collect_local(ix, &ss[i], env);
        i += 1;
    }
}

fn collect_local(ix: &Index, s: &Stmt, env: &mut Env)
    ensures
        final(env).deep_view() == with_local(ix.deep_view(), s.deep_view(), old(env).deep_view()),
    decreases s,
{
    match s {
        Stmt::Let { name, ty, init, loc } => {
            let declared = match ty {
                Some(t) => ix.resolve_type(&env.module, t),
                None => Ty::Unknown,
            };
            let t = match declared {
                Ty::Unknown => match init {
                    Some(e) => ix.type_of(env, e),
                    None => Ty::Unknown,
                },
                _ => declared,
            };
            env.vars.insert(name.dup(), t);
        },
        Stmt::If { test, then, otherwise, loc } => {
            collect_locals(ix, then, env);
            collect_locals(ix, otherwise, env);
        },
        Stmt::Loop { binding, iter, body, loc } => {
            if let (Some(b), Some(it)) = (binding, iter) {
                let el = match ix.type_of(env, it) {
                    Ty::Array(el) => *el,
                    _ => Ty::Unknown,
                };
                env.vars.insert(b.dup(), el);
            }
            collect_locals(ix, body, env);
        },
        Stmt::Try { body, handler, finalizer, loc } => {
            collect_locals(ix, body, env);
            collect_locals(ix, handler, env);
            collect_locals(ix, finalizer, env);
        },
        Stmt::Block(b) => collect_locals(ix, b, env),
        _ => {},
    }
}

// ---- callbacks

/// The closure that an argument passes, directly or through a local
/// (`const p = (eb) => …; qb.where(p)`).
pub open spec fn closure_passed(ix: IndexView, env: EnvView, a: ExprView) -> Option<Text> {
    match a {
        ExprView::Closure(id) => Some(id),
        ExprView::Ident(n) => match lookup(env.vars, n) {
            Some(TyView::Function(id)) => match lookup(ix.functions, id) {
                Some(f) => if f.parent is Some {
                    Some(id)
                } else {
                    None
                },
                None => None,
            },
            _ => None,
        },
        _ => None,
    }
}

/// The closures that the arguments from index `i` on pass, with the type of their first
/// parameter and whether the call filters a query.
pub open spec fn callbacks_in_args(
    ix: IndexView,
    cat: CatalogView,
    env: EnvView,
    c: CallView,
    api: Text,
    i: int,
) -> Seq<(Text, TyView, bool)>
    decreases c.args.len() - i,
{
    if 0 <= i < c.args.len() {
        (match closure_passed(ix, env, c.args[i]) {
            Some(id) => match callback_from(cat.callback, segments_of(api), i as usize, 0) {
                Some(rule) => seq![
                    (
                        id,
                        if rule.param == "receiver"@ {
                            match c.callee {
                                ExprView::Member { object, property } => typed(ix, env, *object),
                                _ => TyView::Unknown,
                            }
                        } else {
                            TyView::External(rule.param)
                        },
                        any_fits(cat.filter, segments_of(api)),
                    ),
                ],
                None => seq![],
            },
            None => seq![],
        }) + callbacks_in_args(ix, cat, env, c, api, i + 1)
    } else {
        seq![]
    }
}

/// The closures that the calls from index `i` on pass to external methods of the catalog.
pub open spec fn callbacks_in(
    ix: IndexView,
    cat: CatalogView,
    env: EnvView,
    calls: Seq<CallView>,
    i: int,
) -> Seq<(Text, TyView, bool)>
    decreases calls.len() - i,
{
    if 0 <= i < calls.len() {
        (match called(ix, env, calls[i].callee) {
            CalleeView::External(api) => callbacks_in_args(ix, cat, env, calls[i], api, 0),
            _ => seq![],
        }) + callbacks_in(ix, cat, env, calls, i + 1)
    } else {
        seq![]
    }
}

/// The environments with what the callbacks from index `i` on tell: the first type that is
/// known of a closure stays.
pub open spec fn noted(found: Seq<(Text, TyView, bool)>, i: int, envs: EnvsView) -> EnvsView
    decreases found.len() - i,
{
    if 0 <= i < found.len() {
        let (id, ty, filter) = found[i];
        noted(
            found,
            i + 1,
            EnvsView {
                by_fn: envs.by_fn,
                filter_callbacks: if filter {
                    added(envs.filter_callbacks, id)
                } else {
                    envs.filter_callbacks
                },
                hints: if lookup(envs.hints, id) is Some {
                    envs.hints
                } else {
                    put(envs.hints, id, ty)
                },
            },
        )
    } else {
        envs
    }
}

/// The closure that an argument passes.
pub fn passed_closure(ix: &Index, env: &Env, a: &Expr) -> (r: Option<String>)
    ensures
        r.deep_view() == closure_passed(ix.deep_view(), env.deep_view(), a.deep_view()),
{
    match a {
        Expr::Closure(id) => Some(id.dup()),
        Expr::Ident(n) => match env.vars.get(n) {
            Some(Ty::Function(id)) => match ix.function(id) {
                Some(f) => if f.parent.is_some() {
                    Some(id.dup())
                } else {
                    None
                },
                None => None,
            },
            _ => None,
        },
        _ => None,
    }
}

fn arg_callbacks(
    ix: &Index,
    cat: &Catalog,
    env: &Env,
    c: &Call,
    api: &str,
    out: &mut Vec<(String, Ty, bool)>,
)
    ensures
        final(out).deep_view() == old(out).deep_view() + callbacks_in_args(
            ix.deep_view(),
            cat.deep_view(),
            env.deep_view(),
            call_view(*c),
            api@,
            0,
        ),
{
    let ghost xv = ix.deep_view();
    let ghost kv = cat.deep_view();
    let ghost ev = env.deep_view();
    let ghost cv = call_view(*c);
    let ghost before = out.deep_view();
    let ghost av = expr_list_view(c.args@);
    let ghost ce = expr_view(c.callee);
    let mut i: usize = 0;
    while i < c.args.len()
        invariant
            i <= c.args@.len(),
            xv == ix.deep_view(),
            kv == cat.deep_view(),
            ev == env.deep_view(),
            cv == call_view(*c),
            av == expr_list_view(c.args@),
            ce == expr_view(c.callee),
            cv.args == av,
            cv.callee == ce,
            out.deep_view() + callbacks_in_args(xv, kv, ev, cv, api@, i as int) == before
                + callbacks_in_args(xv, kv, ev, cv, api@, 0),
        decreases c.args@.len() - i,
    {
        if let Some(id) = passed_closure(ix, env, &c.args[i]) {
            if let Some(rule) = cat.callback_for(api, i) {
                let ty = if text::same(&rule.param, "receiver") {
                    match &c.callee {
                        Expr::Member { object, property } => ix.type_of(env, object),
                        _ => Ty::Unknown,
                    }
                } else {
                    Ty::External(rule.param.dup())
                };
                list::push(out, (id, ty, cat.is_filter(api)));
            }
        }
        i += 1;
    }
    assert(out.deep_view() =~= before + callbacks_in_args(xv, kv, ev, cv, api@, 0));
}

fn type_callbacks(ix: &Index, cat: &Catalog, env: &Env, body: &Vec<Stmt>, envs: &mut Envs)
    ensures
        final(envs).deep_view() == noted(
            callbacks_in(
                ix.deep_view(),
                cat.deep_view(),
                env.deep_view(),
                calls_in(stmt_list_view(body@), 0),
                0,
            ),
            0,
            old(envs).deep_view(),
        ),
{
    let ghost xv = ix.deep_view();
    let ghost kv = cat.deep_view();
    let ghost ev = env.deep_view();
    let calls = calls_of(body);
    let ghost cv = calls.deep_view();
    let mut found: Vec<(String, Ty, bool)> = list::empty();
    let mut i: usize = 0;
    while i < calls.len()
        invariant
            i <= calls@.len(),
            xv == ix.deep_view(),
            kv == cat.deep_view(),
            ev == env.deep_view(),
            cv == calls.deep_view(),
            found.deep_view() + callbacks_in(xv, kv, ev, cv, i as int) == callbacks_in(
                xv,
                kv,
                ev,
                cv,
                0,
            ),
        decreases calls@.len() - i,
    {
        assert(cv[i as int] == call_view(*calls@[i as int]));
        if let Callee::External(api) = ix.resolve_call(env, &calls[i].callee) {
            arg_callbacks(ix, cat, env, calls[i], &api, &mut found);
        }
        i += 1;
    }
    let ghost fv = found.deep_view();
    assert(fv =~= callbacks_in(xv, kv, ev, cv, 0));
    let ghost before = envs.deep_view();
    i = 0;
    while i < found.len()
        invariant
            i <= found@.len(),
            fv == found.deep_view(),
            noted(fv, i as int, envs.deep_view()) == noted(fv, 0, before),
        decreases found@.len() - i,
    {
        let id = &found[i].0;
        if found[i].2 {
            envs.filter_callbacks.insert(id.dup());
        }
        if !envs.hints.contains_key(id) {
            envs.hints.insert(id.dup(), found[i].1.dup());
        }
        i += 1;
    }
}

// ---- environments

/// The variables with the parameters from index `i` on; the first takes the type that its
/// call site tells where it declares none.
pub open spec fn params_bound(
    ix: IndexView,
    module: Text,
    params: Seq<ParamView>,
    hint: Option<TyView>,
    i: int,
    vars: Seq<(Text, TyView)>,
) -> Seq<(Text, TyView)>
    decreases params.len() - i,
{
    if 0 <= i < params.len() {
        let ty = match params[i].ty {
            Some(t) => type_in(ix.program, module, t),
            None => if i == 0 && hint is Some {
                hint->0
            } else {
                TyView::Unknown
            },
        };
        params_bound(ix, module, params, hint, i + 1, put(vars, params[i].name, ty))
    } else {
        vars
    }
}

/// The environment of a function that has its parent's environment around it.
pub open spec fn env_inside(
    ix: IndexView,
    id: Text,
    f: FunctionView,
    around: EnvView,
    hint: Option<TyView>,
) -> EnvView {
    let module = module_part(id);
    with_locals(
        ix,
        f.body,
        0,
        EnvView {
            module: around.module,
            this_class: match f.class {
                Some(c) => Some(module + "::"@ + c),
                None => around.this_class,
            },
            vars: params_bound(ix, module, f.params, hint, 0, around.vars),
        },
    )
}

/// The environment of a function, and the environments with it: those of the functions around
/// it, at most `fuel` of them, come first.
pub open spec fn env_built(
    ix: IndexView,
    cat: CatalogView,
    id: Text,
    envs: EnvsView,
    fuel: nat,
) -> (EnvView, EnvsView)
    decreases fuel,
{
    match lookup(envs.by_fn, id) {
        Some(e) => (e, envs),
        None => match lookup(ix.functions, id) {
            None => (module_env(""@), envs),
            Some(f) => {
                let (around, envs) = match f.parent {
                    Some(p) => if fuel == 0 {
                        (module_env(""@), envs)
                    } else {
                        env_built(ix, cat, p, envs, (fuel - 1) as nat)
                    },
                    None => (module_env(module_part(id)), envs),
                };
                let env = env_inside(ix, id, f, around, lookup(envs.hints, id));
                let envs = noted(
                    callbacks_in(ix, cat, env, calls_in(f.body, 0), 0),
                    0,
                    envs,
                );
                (
                    env,
                    EnvsView {
                        by_fn: put(envs.by_fn, id, env),
                        filter_callbacks: envs.filter_callbacks,
                        hints: envs.hints,
                    },
                )
            },
        },
    }
}

/// The environments with those of the functions from index `i` on.
pub open spec fn envs_from(
    ix: IndexView,
    cat: CatalogView,
    fs: Seq<FunctionView>,
    i: int,
    envs: EnvsView,
) -> EnvsView
    decreases fs.len() - i,
{
    if 0 <= i < fs.len() {
        envs_from(
            ix,
            cat,
            fs,
            i + 1,
            env_built(ix, cat, fs[i].id, envs, ix.functions.len()).1,
        )
    } else {
        envs
    }
}

/// The environments of all functions of the program.
pub open spec fn envs_of(ix: IndexView, cat: CatalogView) -> EnvsView {
    envs_from(
        ix,
        cat,
        functions_from(ix.program.modules, 0),
        0,
        EnvsView { by_fn: seq![], filter_callbacks: seq![], hints: seq![] },
    )
}

fn bind_params(
    ix: &Index,
    module: &str,
    params: &Vec<Param>,
    hint: &Option<Ty>,
    vars: &mut SortedMap<String, Ty>,
)
    ensures
        final(vars).deep_view() == params_bound(
            ix.deep_view(),
            module@,
            params.deep_view(),
            hint.deep_view(),
            0,
            old(vars).deep_view(),
        ),
{
    let ghost pv = params.deep_view();
    let ghost hv = hint.deep_view();
    let ghost before = vars.deep_view();
    let mut i: usize = 0;
    while i < params.len()
        invariant
            i <= params@.len(),
            pv == params.deep_view(),
            hv == hint.deep_view(),
            params_bound(ix.deep_view(), module@, pv, hv, i as int, vars.deep_view())
                == params_bound(ix.deep_view(), module@, pv, hv, 0, before),
        decreases params@.len() - i,
    {
        let p = &params[i];
        assert(p.deep_view() == pv[i as int]);
        let ty = match &p.ty {
            Some(t) => ix.resolve_type(module, t),
            None => match hint {
                Some(h) => if i == 0 {
                    h.dup()
                } else {
                    Ty::Unknown
                },
                None => Ty::Unknown,
            },
        };
        vars.insert(p.name.dup(), ty);
        i += 1;
    }
}

fn env_for(ix: &Index, cat: &Catalog, id: &str, envs: &mut Envs, fuel: usize) -> (r: Env)
    ensures
        (r.deep_view(), final(envs).deep_view()) == env_built(
            ix.deep_view(),
            cat.deep_view(),
            id@,
            old(envs).deep_view(),
            fuel as nat,
        ),
    decreases fuel,
{
    if let Some(e) = envs.by_fn.find(id) {
        return e.dup();
    }
    let f = match ix.function(id) {
        Some(f) => f,
        None => {
            return env_of_module("");
        },
    };
    let module = module_of(id);
    let mut env = match &f.parent {
        Some(p) => if fuel == 0 {
            env_of_module("")
        } else {
            env_for(ix, cat, p, envs, fuel - 1)
        },
        None => env_of_module(&module),
    };
    if let Some(c) = &f.class {
        env.this_class = Some(text::cat3(&module, "::", c));
    }
    let hint = match envs.hints.find(id) {
        Some(t) => Some(t.dup()),
        None => None,
    };
    bind_params(ix, &module, &f.params, &hint, &mut env.vars);
    proof {
        crate::ir::stmt_list_view_is_deep(f.body);
    }
    collect_locals(ix, &f.body, &mut env);
    type_callbacks(ix, cat, &env, &f.body, envs);
    envs.by_fn.insert(id.to_owned(), env.dup());
    env
}

/// Builds typing environments for every function (closures inherit their parent's).
pub fn build_envs(ix: &Index, cat: &Catalog) -> (r: Envs)
    ensures
        r.deep_view() == envs_of(ix.deep_view(), cat.deep_view()),
{
    let mut envs = Envs {
        by_fn: SortedMap::new(),
        filter_callbacks: SortedSet::new(),
        hints: SortedMap::new(),
    };
    let fs = ix.program.functions();
    let ghost fv = fs.deep_view();
    let fuel: usize = ix.functions.len();
    let mut i: usize = 0;
    while i < fs.len()
        invariant
            i <= fs@.len(),
            fv == fs.deep_view(),
            fuel == ix.deep_view().functions.len(),
            envs_from(ix.deep_view(), cat.deep_view(), fv, i as int, envs.deep_view())
                == envs_from(
                ix.deep_view(),
                cat.deep_view(),
                fv,
                0,
                EnvsView { by_fn: seq![], filter_callbacks: seq![], hints: seq![] },
            ),
        decreases fs@.len() - i,
    {
        let _ = env_for(ix, cat, &fs[i].id, &mut envs, fuel);
        i += 1;
    }
    envs
}

// ---- common table expressions

/// The first word of a text, or all of it.
pub open spec fn first_word(s: Text) -> Text {
    if text::words(s).len() > 0 {
        text::words(s)[0]
    } else {
        s
    }
}

/// The name of the common table expression that a call defines (`with('x', …)`).
pub open spec fn cte_named(c: CallView) -> Option<Text> {
    match c.callee {
        ExprView::Member { object, property } => if (property == "with"@ || property
            == "withRecursive"@) && c.args.len() > 0 {
            match c.args[0] {
                ExprView::Str(name) => Some(first_word(name)),
                _ => None,
            }
        } else {
            None
        },
        _ => None,
    }
}

/// The names that the calls from index `i` on define, added to `acc`.
pub open spec fn ctes_from(calls: Seq<CallView>, i: int, acc: Seq<Text>) -> Seq<Text>
    decreases calls.len() - i,
{
    if 0 <= i < calls.len() {
        ctes_from(
            calls,
            i + 1,
            match cte_named(calls[i]) {
                Some(n) => added(acc, n),
                None => acc,
            },
        )
    } else {
        acc
    }
}

/// The names of the common table expressions that a function and the functions around it
/// define, added to `acc`: one is visible from every callback of its query.
pub open spec fn ctes_around(ix: IndexView, f: FunctionView, fuel: nat, acc: Seq<Text>) -> Seq<Text>
    decreases fuel,
{
    let acc = ctes_from(calls_in(f.body, 0), 0, acc);
    match f.parent {
        Some(p) => match lookup(ix.functions, p) {
            Some(g) => if fuel == 0 {
                acc
            } else {
                ctes_around(ix, g, (fuel - 1) as nat, acc)
            },
            None => acc,
        },
        None => acc,
    }
}

/// The names of the common table expressions in scope of a function.
pub open spec fn ctes_in_scope(ix: IndexView, f: FunctionView) -> Seq<Text> {
    ctes_around(ix, f, ix.functions.len(), seq![])
}

fn cte_name(c: &Call) -> (r: Option<String>)
    ensures
        r.deep_view() == cte_named(call_view(*c)),
{
    let ghost ce = expr_view(c.callee);
    let ghost av = expr_list_view(c.args@);
    match &c.callee {
        Expr::Member { object, property } => {
            if (text::same(property, "with") || text::same(property, "withRecursive"))
                && c.args.len() > 0 {
                assert(call_view(*c).args[0] == expr_view(c.args@[0]));
                match &c.args[0] {
                    Expr::Str(name) => {
                        let words = text::split_words(name);
                        if words.len() > 0 {
                            Some(words[0].dup())
                        } else {
                            Some(name.dup())
                        }
                    },
                    _ => None,
                }
            } else {
                None
            }
        },
        _ => None,
    }
}

fn add_ctes(f: &Function, out: &mut SortedSet<String>)
    ensures
        final(out).deep_view() == ctes_from(
            calls_in(f.deep_view().body, 0),
            0,
            old(out).deep_view(),
        ),
{
    proof {
        crate::ir::stmt_list_view_is_deep(f.body);
    }
    let calls = calls_of(&f.body);
    let ghost cv = calls.deep_view();
    let ghost before = out.deep_view();
    let mut i: usize = 0;
    while i < calls.len()
        invariant
            i <= calls@.len(),
            cv == calls.deep_view(),
            ctes_from(cv, i as int, out.deep_view()) == ctes_from(cv, 0, before),
        decreases calls@.len() - i,
    {
        assert(cv[i as int] == call_view(*calls@[i as int]));
        if let Some(n) = cte_name(calls[i]) {
            out.insert(n);
        }
        i += 1;
    }
}

/// Names of the common table expressions (`with('x', …)`) defined in a function or
/// the functions enclosing it.
pub fn scope_ctes(ix: &Index, f: &Function) -> (r: SortedSet<String>)
    ensures
        r.deep_view() == ctes_in_scope(ix.deep_view(), f.deep_view()),
{
    let ghost xv = ix.deep_view();
    let ghost start = f.deep_view();
    let mut out: SortedSet<String> = SortedSet::new();
    let mut cur: &Function = f;
    let mut fuel: usize = ix.functions.len();
    loop
        invariant
            xv == ix.deep_view(),
            start == f.deep_view(),
            ctes_around(xv, cur.deep_view(), fuel as nat, out.deep_view()) == ctes_in_scope(
                xv,
                start,
            ),
        decreases fuel,
    {
        add_ctes(cur, &mut out);
        match &cur.parent {
            Some(p) => match ix.function(p) {
                Some(g) => {
                    if fuel == 0 {
                        return out;
                    }
                    fuel -= 1;
                    cur = g;
                },
                None => {
                    return out;
                },
            },
            None => {
                return out;
            },
        }
    }
}

} // verus!
