//! Moving code to other lines: the hash of a body does not depend on where the body stands.

use crate::digest::{
    call_json, expr_fields_json, expr_json, exprs_json, hash_of, jsx_json, opt_expr_json, stmt_json,
    stmts_json,
};
use crate::ir::{CallView, ExprView, JsxView, LocView, StmtView};
use crate::text::Text;
use vstd::prelude::*;

verus! {

/// An expression with its places changed.
pub open spec fn moved_expr(e: ExprView, f: spec_fn(LocView) -> LocView) -> ExprView
    decreases e,
{
    match e {
        ExprView::Member { object, property } => ExprView::Member {
            object: Box::new(moved_expr(*object, f)),
            property,
        },
        ExprView::Index { object, index } => ExprView::Index {
            object: Box::new(moved_expr(*object, f)),
            index: Box::new(moved_expr(*index, f)),
        },
        ExprView::Call(c) => ExprView::Call(Box::new(moved_call(*c, f))),
        ExprView::New { callee, args, loc } => ExprView::New {
            callee: Box::new(moved_expr(*callee, f)),
            args: moved_exprs(args, f),
            loc: f(loc),
        },
        ExprView::Binary { op, left, right } => ExprView::Binary {
            op,
            left: Box::new(moved_expr(*left, f)),
            right: Box::new(moved_expr(*right, f)),
        },
        ExprView::Logical { op, left, right } => ExprView::Logical {
            op,
            left: Box::new(moved_expr(*left, f)),
            right: Box::new(moved_expr(*right, f)),
        },
        ExprView::Not(x) => ExprView::Not(Box::new(moved_expr(*x, f))),
        ExprView::Template { quasis, exprs } => ExprView::Template {
            quasis,
            exprs: moved_exprs(exprs, f),
        },
        ExprView::Object(fs) => ExprView::Object(moved_fields(fs, f)),
        ExprView::Array(xs) => ExprView::Array(moved_exprs(xs, f)),
        ExprView::Await(x) => ExprView::Await(Box::new(moved_expr(*x, f))),
        ExprView::Conditional { test, then, otherwise } => ExprView::Conditional {
            test: Box::new(moved_expr(*test, f)),
            then: Box::new(moved_expr(*then, f)),
            otherwise: Box::new(moved_expr(*otherwise, f)),
        },
        ExprView::Assign { target, value, loc } => ExprView::Assign {
            target: Box::new(moved_expr(*target, f)),
            value: Box::new(moved_expr(*value, f)),
            loc: f(loc),
        },
        ExprView::Jsx(j) => ExprView::Jsx(Box::new(moved_jsx(*j, f))),
        _ => e,
    }
}

/// A call with its places changed.
pub open spec fn moved_call(c: CallView, f: spec_fn(LocView) -> LocView) -> CallView
    decreases c,
{
    CallView { callee: moved_expr(c.callee, f), args: moved_exprs(c.args, f), loc: f(c.loc) }
}

/// A markup element with its places changed.
pub open spec fn moved_jsx(j: JsxView, f: spec_fn(LocView) -> LocView) -> JsxView
    decreases j,
{
    JsxView { tag: j.tag, attrs: moved_fields(j.attrs, f), children: moved_exprs(j.children, f) }
}

/// Expressions with their places changed.
pub open spec fn moved_exprs(xs: Seq<ExprView>, f: spec_fn(LocView) -> LocView) -> Seq<ExprView>
    decreases xs,
{
    Seq::new(
        xs.len(),
        |i: int|
            if 0 <= i < xs.len() {
                moved_expr(xs[i], f)
            } else {
                arbitrary()
            },
    )
}

/// Properties with their places changed.
pub open spec fn moved_fields(
    xs: Seq<(Text, ExprView)>,
    f: spec_fn(LocView) -> LocView,
) -> Seq<(Text, ExprView)>
    decreases xs,
{
    Seq::new(
        xs.len(),
        |i: int|
            if 0 <= i < xs.len() {
                (xs[i].0, moved_expr(xs[i].1, f))
            } else {
                arbitrary()
            },
    )
}

/// An expression that may be missing, with its places changed.
pub open spec fn moved_optional(e: Option<ExprView>, f: spec_fn(LocView) -> LocView) -> Option<
    ExprView,
> {
    match e {
        Some(x) => Some(moved_expr(x, f)),
        None => None,
    }
}

/// A statement with its places changed.
pub open spec fn moved_stmt(s: StmtView, f: spec_fn(LocView) -> LocView) -> StmtView
    decreases s,
{
    match s {
        StmtView::Expr(e, loc) => StmtView::Expr(moved_expr(e, f), f(loc)),
        StmtView::Let { name, ty, init, loc } => StmtView::Let {
            name,
            ty,
            init: moved_optional(init, f),
            loc: f(loc),
        },
        StmtView::If { test, then, otherwise, loc } => StmtView::If {
            test: moved_expr(test, f),
            then: moved_stmts(then, f),
            otherwise: moved_stmts(otherwise, f),
            loc: f(loc),
        },
        StmtView::Return(e, loc) => StmtView::Return(moved_optional(e, f), f(loc)),
        StmtView::Throw(e, loc) => StmtView::Throw(moved_expr(e, f), f(loc)),
        StmtView::Loop { binding, iter, body, loc } => StmtView::Loop {
            binding,
            iter: moved_optional(iter, f),
            body: moved_stmts(body, f),
            loc: f(loc),
        },
        StmtView::Try { body, handler, finalizer, loc } => StmtView::Try {
            body: moved_stmts(body, f),
            handler: moved_stmts(handler, f),
            finalizer: moved_stmts(finalizer, f),
            loc: f(loc),
        },
        StmtView::Block(xs) => StmtView::Block(moved_stmts(xs, f)),
        StmtView::Jump(loc) => StmtView::Jump(f(loc)),
    }
}

/// A body with its places changed.
pub open spec fn moved_stmts(xs: Seq<StmtView>, f: spec_fn(LocView) -> LocView) -> Seq<StmtView>
    decreases xs,
{
    Seq::new(
        xs.len(),
        |i: int|
            if 0 <= i < xs.len() {
                moved_stmt(xs[i], f)
            } else {
                arbitrary()
            },
    )
}

proof fn expr_json_stays(e: ExprView, f: spec_fn(LocView) -> LocView)
    ensures
        expr_json(moved_expr(e, f)) == expr_json(e),
    decreases e,
{
    match e {
        ExprView::Member { object, property } => {
            expr_json_stays(*object, f);
        },
        ExprView::Index { object, index } => {
            expr_json_stays(*object, f);
            expr_json_stays(*index, f);
        },
        ExprView::Call(c) => {
            call_json_stays(*c, f);
        },
        ExprView::New { callee, args, loc } => {
            expr_json_stays(*callee, f);
            exprs_json_stay(args, f);
        },
        ExprView::Binary { op, left, right } => {
            expr_json_stays(*left, f);
            expr_json_stays(*right, f);
        },
        ExprView::Logical { op, left, right } => {
            expr_json_stays(*left, f);
            expr_json_stays(*right, f);
        },
        ExprView::Not(x) => {
            expr_json_stays(*x, f);
        },
        ExprView::Template { quasis, exprs } => {
            exprs_json_stay(exprs, f);
        },
        ExprView::Object(fs) => {
            fields_json_stay(fs, f);
        },
        ExprView::Array(xs) => {
            exprs_json_stay(xs, f);
        },
        ExprView::Await(x) => {
            expr_json_stays(*x, f);
        },
        ExprView::Conditional { test, then, otherwise } => {
            expr_json_stays(*test, f);
            expr_json_stays(*then, f);
            expr_json_stays(*otherwise, f);
        },
        ExprView::Assign { target, value, loc } => {
            expr_json_stays(*target, f);
            expr_json_stays(*value, f);
        },
        ExprView::Jsx(j) => {
            jsx_json_stays(*j, f);
        },
        _ => {},
    }
}

proof fn call_json_stays(c: CallView, f: spec_fn(LocView) -> LocView)
    ensures
        call_json(moved_call(c, f)) == call_json(c),
    decreases c,
{
    expr_json_stays(c.callee, f);
    exprs_json_stay(c.args, f);
}

proof fn jsx_json_stays(j: JsxView, f: spec_fn(LocView) -> LocView)
    ensures
        jsx_json(moved_jsx(j, f)) == jsx_json(j),
    decreases j,
{
    fields_json_stay(j.attrs, f);
    exprs_json_stay(j.children, f);
}

proof fn exprs_json_stay(xs: Seq<ExprView>, f: spec_fn(LocView) -> LocView)
    ensures
        exprs_json(moved_exprs(xs, f)) == exprs_json(xs),
    decreases xs,
{
    assert forall|i: int| 0 <= i < xs.len() implies #[trigger] exprs_json(moved_exprs(xs, f))[i]
        == exprs_json(xs)[i] by {
        expr_json_stays(xs[i], f);
    }
    assert(exprs_json(moved_exprs(xs, f)) =~= exprs_json(xs));
}

proof fn fields_json_stay(xs: Seq<(Text, ExprView)>, f: spec_fn(LocView) -> LocView)
    ensures
        expr_fields_json(moved_fields(xs, f)) == expr_fields_json(xs),
    decreases xs,
{
    assert forall|i: int| 0 <= i < xs.len() implies #[trigger] expr_fields_json(
        moved_fields(xs, f),
    )[i] == expr_fields_json(xs)[i] by {
        expr_json_stays(xs[i].1, f);
    }
    assert(expr_fields_json(moved_fields(xs, f)) =~= expr_fields_json(xs));
}

proof fn optional_json_stays(e: Option<ExprView>, f: spec_fn(LocView) -> LocView)
    ensures
        opt_expr_json(moved_optional(e, f)) == opt_expr_json(e),
{
    match e {
        Some(x) => {
            expr_json_stays(x, f);
        },
        None => {},
    }
}

proof fn stmt_json_stays(s: StmtView, f: spec_fn(LocView) -> LocView)
    ensures
        stmt_json(moved_stmt(s, f)) == stmt_json(s),
    decreases s,
{
    match s {
        StmtView::Expr(e, loc) => {
            expr_json_stays(e, f);
        },
        StmtView::Let { name, ty, init, loc } => {
            optional_json_stays(init, f);
        },
        StmtView::If { test, then, otherwise, loc } => {
            expr_json_stays(test, f);
            stmts_json_stay(then, f);
            stmts_json_stay(otherwise, f);
        },
        StmtView::Return(e, loc) => {
            optional_json_stays(e, f);
        },
        StmtView::Throw(e, loc) => {
            expr_json_stays(e, f);
        },
        StmtView::Loop { binding, iter, body, loc } => {
            optional_json_stays(iter, f);
            stmts_json_stay(body, f);
        },
        StmtView::Try { body, handler, finalizer, loc } => {
            stmts_json_stay(body, f);
            stmts_json_stay(handler, f);
            stmts_json_stay(finalizer, f);
        },
        StmtView::Block(xs) => {
            stmts_json_stay(xs, f);
        },
        StmtView::Jump(loc) => {},
    }
}

proof fn stmts_json_stay(xs: Seq<StmtView>, f: spec_fn(LocView) -> LocView)
    ensures
        stmts_json(moved_stmts(xs, f)) == stmts_json(xs),
    decreases xs,
{
    assert forall|i: int| 0 <= i < xs.len() implies #[trigger] stmts_json(moved_stmts(xs, f))[i]
        == stmts_json(xs)[i] by {
        stmt_json_stays(xs[i], f);
    }
    assert(stmts_json(moved_stmts(xs, f)) =~= stmts_json(xs));
}

/// A body keeps its hash wherever it is moved to.
pub proof fn moving_keeps_hash(body: Seq<StmtView>, f: spec_fn(LocView) -> LocView)
    ensures
        hash_of(moved_stmts(body, f)) == hash_of(body),
{
    stmts_json_stay(body, f);
}

} // verus!
