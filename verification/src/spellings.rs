//! Equivalent spellings of the same code give the same facts: negated comparisons, tests of a
//! size, and a trailing condition written as an early return.

use crate::entity::{
    after_stmt, after_stmts, cx_of, entity_of, exit_of, is_trailing_if, no_facts, place_after,
    returns_value, with_decorator, with_decorators, with_guard,
};
use crate::extract::{
    access_in_args, after_call, after_expr, after_exprs, after_fields, call_shape_of,
    comparison_sign, condition, constant_comparison, flipped, inside_region, is_size, logs,
    shape_at, subject_text, under_condition, with_call, with_external, with_filter, with_read,
    with_shape, CxView, FactsView, PlaceView,
};
use crate::ir::{BinOp, CallView, ExprView, FunctionView, LocView, StmtView};
use crate::meaning::{operators_differ, spellings_agree};
use crate::model::{GuardFactView, OnFail, WriteFactView};
use crate::ordered::added;
use crate::pred::{compared, in_domain, negation, PredView};
use crate::query::SceneView;
use crate::resolve::CalleeView;
use crate::text::Text;
use crate::typing::{called, constant, field_at};
use vstd::prelude::*;

verus! {

// ---- comparisons

/// The comparison that holds where `op` does not.
pub open spec fn opposite(op: BinOp) -> BinOp {
    match op {
        BinOp::Eq => BinOp::NotEq,
        BinOp::NotEq => BinOp::Eq,
        BinOp::Lt => BinOp::GtEq,
        BinOp::LtEq => BinOp::Gt,
        BinOp::Gt => BinOp::LtEq,
        BinOp::GtEq => BinOp::Lt,
        BinOp::Other => BinOp::Other,
    }
}

/// `a op b`.
pub open spec fn binary(op: BinOp, a: ExprView, b: ExprView) -> ExprView {
    ExprView::Binary { op, left: Box::new(a), right: Box::new(b) }
}

/// `!e`.
pub open spec fn not(e: ExprView) -> ExprView {
    ExprView::Not(Box::new(e))
}

proof fn numbers_differ()
    ensures
        "0"@ != "1"@,
{
    reveal_strlit("0");
    reveal_strlit("1");
    assert("0"@[0] == '0' && "1"@[0] == '1');
}

/// The test of a comparison with a constant turns with the comparison.
proof fn constant_comparisons_turn(subject: Text, op: BinOp, value: Text, flip: bool)
    requires
        op != BinOp::Other,
    ensures
        ({
            let sign = comparison_sign(op);
            let other = comparison_sign(opposite(op));
            negation(
                constant_comparison(
                    subject,
                    if flip {
                        flipped(sign)
                    } else {
                        sign
                    },
                    value,
                ),
            ) == constant_comparison(
                subject,
                if flip {
                    flipped(other)
                } else {
                    other
                },
                value,
            )
        }),
{
    operators_differ();
    numbers_differ();
    spellings_agree(subject, value);
}

/// A negated comparison is the opposite comparison: `!(a <= b)` is `a > b`, whatever stands on
/// either side; with two operands that are no constants, `a > b` is `b < a`.
pub proof fn negated_comparisons_agree(cx: CxView, op: BinOp, a: ExprView, b: ExprView)
    requires
        op != BinOp::Other,
    ensures
        condition(cx, not(binary(op, a, b))) == condition(cx, binary(opposite(op), a, b)),
        constant(cx.scene.ix, cx.env, a) is None && constant(cx.scene.ix, cx.env, b) is None
            ==> condition(cx, binary(BinOp::Gt, a, b)) == compared(
            subject_text(cx, b),
            "<"@,
            subject_text(cx, a),
        ),
{
    let x = binary(op, a, b);
    assert(condition(cx, not(x)) == negation(condition(cx, x)));
    match (constant(cx.scene.ix, cx.env, a), constant(cx.scene.ix, cx.env, b)) {
        (None, Some(v)) => {
            constant_comparisons_turn(subject_text(cx, a), op, v, false);
        },
        (Some(v), None) => {
            constant_comparisons_turn(subject_text(cx, b), op, v, true);
        },
        _ => {
            operators_differ();
            spellings_agree(subject_text(cx, a), subject_text(cx, b));
        },
    }
    operators_differ();
}

/// The spellings of a size test agree: `xs.length > 0`, `xs.length >= 1`, `xs.length !== 0`,
/// `0 < xs.length`, `1 <= xs.length` and `0 !== xs.length` are one predicate, and so are
/// `xs.length === 0`, `xs.length < 1`, `xs.length <= 0` and `0 === xs.length`.
pub proof fn size_tests_agree(cx: CxView, size: ExprView, zero: ExprView, one: ExprView)
    requires
        constant(cx.scene.ix, cx.env, size) is None,
        is_size(subject_text(cx, size)),
        constant(cx.scene.ix, cx.env, zero) == Some("0"@),
        constant(cx.scene.ix, cx.env, one) == Some("1"@),
    ensures
        ({
            let some = PredView::NotIn {
                field: subject_text(cx, size),
                values: added(seq![], "0"@),
            };
            let none = PredView::In {
                field: subject_text(cx, size),
                values: added(seq![], "0"@),
            };
            &&& condition(cx, binary(BinOp::Gt, size, zero)) == some
            &&& condition(cx, binary(BinOp::GtEq, size, one)) == some
            &&& condition(cx, binary(BinOp::NotEq, size, zero)) == some
            &&& condition(cx, binary(BinOp::Lt, zero, size)) == some
            &&& condition(cx, binary(BinOp::LtEq, one, size)) == some
            &&& condition(cx, binary(BinOp::NotEq, zero, size)) == some
            &&& condition(cx, binary(BinOp::Eq, size, zero)) == none
            &&& condition(cx, binary(BinOp::Lt, size, one)) == none
            &&& condition(cx, binary(BinOp::LtEq, size, zero)) == none
            &&& condition(cx, binary(BinOp::Eq, zero, size)) == none
        }),
{
    operators_differ();
    numbers_differ();
}

// ---- early returns

/// `if (c) { body }`.
pub open spec fn only_if(c: ExprView, body: Seq<StmtView>, loc: LocView) -> StmtView {
    StmtView::If { test: c, then: body, otherwise: seq![], loc }
}

/// `if (!c) return;`.
pub open spec fn unless_return(c: ExprView, loc: LocView, at: LocView) -> StmtView {
    StmtView::If { test: not(c), then: seq![StmtView::Return(None, at)], otherwise: seq![], loc }
}

/// A test that is the same when it is negated twice: a comparison, a name or a member.
pub open spec fn is_simple_test(c: ExprView) -> bool {
    match c {
        ExprView::Binary { op, left, right } => op != BinOp::Other,
        ExprView::Ident(_) => true,
        ExprView::Member { object, property } => true,
        _ => false,
    }
}

proof fn simple_tests_turn_back(cx: CxView, c: ExprView)
    requires
        is_simple_test(c),
    ensures
        negation(condition(cx, not(c))) == condition(cx, c),
{
    assert(condition(cx, not(c)) == negation(condition(cx, c)));
    match c {
        ExprView::Binary { op, left, right } => {
            let (a, b) = (*left, *right);
            assert(c == binary(op, a, b));
            negated_comparisons_agree(cx, op, a, b);
            negated_comparisons_agree(cx, opposite(op), a, b);
            let y = binary(opposite(op), a, b);
            assert(condition(cx, not(y)) == negation(condition(cx, y)));
        },
        _ => {},
    }
}

proof fn later_statements(
    cx: CxView,
    ahead: Seq<StmtView>,
    body: Seq<StmtView>,
    i: int,
    p: PlaceView,
    f: FactsView,
)
    requires
        0 <= i <= body.len(),
    ensures
        after_stmts(cx, ahead + body, ahead.len() + i, true, p, f) == after_stmts(
            cx,
            body,
            i,
            true,
            p,
            f,
        ),
    decreases body.len() - i,
{
    let all = ahead + body;
    if i < body.len() {
        assert(all[ahead.len() + i] == body[i]);
        assert(is_trailing_if(all, ahead.len() + i, true) == is_trailing_if(body, i, true));
        if !is_trailing_if(body, i, true) {
            later_statements(
                cx,
                ahead,
                body,
                i + 1,
                place_after(cx, body[i], true, p),
                after_stmt(cx, body[i], true, p, f),
            );
        }
    }
}

proof fn bare_return_says_nothing(cx: CxView, at: LocView, p: PlaceView, f: FactsView)
    ensures
        after_stmts(cx, seq![StmtView::Return(None, at)], 0, false, p, f) == f,
{
    let back = StmtView::Return(None, at);
    let exit = seq![back];
    assert(exit[0] == back);
    assert(after_stmt(cx, back, false, p, f) == f);
    assert(place_after(cx, back, false, p) == p);
    assert(!is_trailing_if(exit, 0, false));
    assert(after_stmts(cx, exit, 1, false, p, f) == f);
}

/// What an early return leaves: its guard, and the place under its condition.
proof fn early_return_guards(cx: CxView, c: ExprView, loc: LocView, at: LocView, p: PlaceView, f: FactsView)
    requires
        is_simple_test(c),
    ensures
        after_stmt(cx, unless_return(c, loc, at), true, p, f) == with_guard(
            cx,
            condition(cx, c),
            OnFail::Return,
            loc,
            false,
            after_expr(cx, c, loc, p, f),
        ),
        place_after(cx, unless_return(c, loc, at), true, p) == under_condition(
            p,
            condition(cx, c),
            true,
            false,
        ),
        exit_of(seq![StmtView::Return(None, at)]) == Some(OnFail::Return),
{
    let back = StmtView::Return(None, at);
    let exit = seq![back];
    assert(exit.last() == back);
    simple_tests_turn_back(cx, c);
    assert(after_expr(cx, not(c), loc, p, f) == after_expr(cx, c, loc, p, f));
    let g = with_guard(
        cx,
        condition(cx, c),
        OnFail::Return,
        loc,
        false,
        after_expr(cx, c, loc, p, f),
    );
    bare_return_says_nothing(
        cx,
        at,
        under_condition(p, condition(cx, not(c)), false, true),
        g,
    );
}

proof fn earlier_statements(
    cx: CxView,
    ss: Seq<StmtView>,
    c: ExprView,
    body: Seq<StmtView>,
    loc: LocView,
    at: LocView,
    i: int,
    p: PlaceView,
    f: FactsView,
)
    requires
        0 <= i <= ss.len(),
        is_simple_test(c),
        exit_of(body) is None,
    ensures
        after_stmts(cx, ss.push(only_if(c, body, loc)), i, true, p, f) == after_stmts(
            cx,
            ss.push(unless_return(c, loc, at)) + body,
            i,
            true,
            p,
            f,
        ),
    decreases ss.len() - i,
{
    let one = ss.push(only_if(c, body, loc));
    let ahead = ss.push(unless_return(c, loc, at));
    let two = ahead + body;
    if i < ss.len() {
        assert(one[i] == ss[i] && two[i] == ss[i]);
        assert(!is_trailing_if(one, i, true) && !is_trailing_if(two, i, true));
        earlier_statements(
            cx,
            ss,
            c,
            body,
            loc,
            at,
            i + 1,
            place_after(cx, ss[i], true, p),
            after_stmt(cx, ss[i], true, p, f),
        );
    } else {
        assert(one[i] == only_if(c, body, loc));
        assert(two[i] == unless_return(c, loc, at));
        early_return_guards(cx, c, loc, at, p, f);
        assert(is_trailing_if(one, i, true));
        assert(!is_trailing_if(two, i, true));
        later_statements(
            cx,
            ahead,
            body,
            0,
            place_after(cx, two[i], true, p),
            after_stmt(cx, two[i], true, p, f),
        );
    }
}

/// A condition around the rest of a function is an early return: a body that ends with
/// `if (c) { B }` and one that ends with `if (!c) return; B` give the same facts, where `B` does
/// not end with a return or a throw.
pub proof fn early_return_is_condition(
    cx: CxView,
    ss: Seq<StmtView>,
    c: ExprView,
    body: Seq<StmtView>,
    loc: LocView,
    at: LocView,
    p: PlaceView,
    f: FactsView,
)
    requires
        is_simple_test(c),
        exit_of(body) is None,
    ensures
        after_stmts(cx, ss.push(only_if(c, body, loc)), 0, true, p, f) == after_stmts(
            cx,
            ss.push(unless_return(c, loc, at)) + body,
            0,
            true,
            p,
            f,
        ),
{
    earlier_statements(cx, ss, c, body, loc, at, 0, p, f);
}

// ---- guards wherever they stand

proof fn exprs_keep_guards(
    cx: CxView,
    es: Seq<ExprView>,
    i: int,
    loc: LocView,
    p: PlaceView,
    f: FactsView,
)
    ensures
        after_exprs(cx, es, i, loc, p, f).guards == f.guards,
    decreases es, es.len() - i,
{
    if 0 <= i < es.len() {
        expr_keeps_guards(cx, es[i], loc, p, f);
        exprs_keep_guards(cx, es, i + 1, loc, p, after_expr(cx, es[i], loc, p, f));
    }
}

proof fn fields_keep_guards(
    cx: CxView,
    fs: Seq<(Text, ExprView)>,
    i: int,
    loc: LocView,
    p: PlaceView,
    f: FactsView,
)
    ensures
        after_fields(cx, fs, i, loc, p, f).guards == f.guards,
    decreases fs, fs.len() - i,
{
    if 0 <= i < fs.len() {
        expr_keeps_guards(cx, fs[i].1, loc, p, f);
        fields_keep_guards(cx, fs, i + 1, loc, p, after_expr(cx, fs[i].1, loc, p, f));
    }
}

proof fn external_keeps_guards(
    cx: CxView,
    api: Text,
    args: Seq<ExprView>,
    loc: LocView,
    f: FactsView,
)
    ensures
        with_external(cx, api, args, loc, f).0.guards == f.guards,
{
}

proof fn facts_keep_guards(cx: CxView, c: CallView, p: PlaceView, f: FactsView)
    ensures
        with_call(cx, c, p, f) matches Some(g) ==> g.guards == f.guards,
        with_filter(cx, c, p, f).guards == f.guards,
{
    match called(cx.scene.ix, cx.env, c.callee) {
        CalleeView::External(api) => {
            external_keeps_guards(cx, api, c.args, c.loc, f);
        },
        _ => {},
    }
}

proof fn call_keeps_guards(cx: CxView, c: CallView, p: PlaceView, f: FactsView)
    ensures
        after_call(cx, c, p, f).guards == f.guards,
    decreases c, 0int,
{
    let f0 = FactsView { access: f.access + access_in_args(cx, c.args, c.loc, 0), ..f };
    if logs(cx, c.callee) {
        let shape = call_shape_of(cx, c.callee, c.args);
        let f1 = FactsView { logs: f0.logs.push(shape_at(p, shape, None, c.loc)), ..f0 };
        exprs_keep_guards(cx, c.args, 0, c.loc, p, f1);
    } else {
        facts_keep_guards(cx, c, p, f0);
        let (f1, q) = match with_call(cx, c, p, f0) {
            Some(g) => (g, p),
            None => (with_filter(cx, c, p, f0), inside_region(p, false, true)),
        };
        let f2 = match c.callee {
            ExprView::Member { object, property } => {
                expr_keeps_guards(cx, *object, c.loc, p, f1);
                after_expr(cx, *object, c.loc, p, f1)
            },
            _ => f1,
        };
        exprs_keep_guards(cx, c.args, 0, c.loc, q, f2);
    }
}

proof fn expr_keeps_guards(cx: CxView, e: ExprView, loc: LocView, p: PlaceView, f: FactsView)
    ensures
        after_expr(cx, e, loc, p, f).guards == f.guards,
    decreases e, 0int,
{
    match e {
        ExprView::Call(c) => {
            call_keeps_guards(cx, *c, p, f);
        },
        ExprView::Member { object, property } => {
            expr_keeps_guards(
                cx,
                *object,
                loc,
                p,
                with_read(f, field_at(cx.scene.ix, cx.env, *object, property), loc),
            );
        },
        ExprView::Assign { target, value, loc: at } => {
            let g = match *target {
                ExprView::Member { object, property } => {
                    let h = match field_at(cx.scene.ix, cx.env, *object, property) {
                        Some(field) => FactsView {
                            writes: f.writes.push(
                                WriteFactView {
                                    field,
                                    value: constant(cx.scene.ix, cx.env, *value),
                                    creation: false,
                                    loc: at,
                                },
                            ),
                            ..f
                        },
                        None => f,
                    };
                    expr_keeps_guards(cx, *object, at, p, h);
                    after_expr(cx, *object, at, p, h)
                },
                _ => f,
            };
            expr_keeps_guards(cx, *value, at, p, g);
        },
        ExprView::New { callee, args, loc: at } => {
            let shape = "new "@ + call_shape_of(cx, *callee, args);
            exprs_keep_guards(cx, args, 0, at, p, with_shape(f, shape_at(p, shape, None, at)));
        },
        ExprView::Binary { op, left, right } => {
            expr_keeps_guards(cx, *left, loc, p, f);
            expr_keeps_guards(cx, *right, loc, p, after_expr(cx, *left, loc, p, f));
        },
        ExprView::Logical { op, left, right } => {
            expr_keeps_guards(cx, *left, loc, p, f);
            expr_keeps_guards(cx, *right, loc, p, after_expr(cx, *left, loc, p, f));
        },
        ExprView::Not(x) => {
            expr_keeps_guards(cx, *x, loc, p, f);
        },
        ExprView::Await(x) => {
            expr_keeps_guards(cx, *x, loc, p, f);
        },
        ExprView::Index { object, index } => {
            expr_keeps_guards(cx, *object, loc, p, f);
            expr_keeps_guards(cx, *index, loc, p, after_expr(cx, *object, loc, p, f));
        },
        ExprView::Template { quasis, exprs } => {
            exprs_keep_guards(cx, exprs, 0, loc, p, f);
        },
        ExprView::Object(props) => {
            fields_keep_guards(cx, props, 0, loc, p, f);
        },
        ExprView::Array(xs) => {
            exprs_keep_guards(cx, xs, 0, loc, p, f);
        },
        ExprView::Conditional { test, then, otherwise } => {
            let q = inside_region(p, true, false);
            let g = after_expr(cx, *test, loc, p, f);
            expr_keeps_guards(cx, *test, loc, p, f);
            expr_keeps_guards(cx, *then, loc, q, g);
            expr_keeps_guards(cx, *otherwise, loc, q, after_expr(cx, *then, loc, q, g));
        },
        ExprView::Jsx(j) => {
            fields_keep_guards(cx, j.attrs, 0, loc, p, f);
            exprs_keep_guards(
                cx,
                j.children,
                0,
                loc,
                p,
                after_fields(cx, j.attrs, 0, loc, p, f),
            );
        },
        _ => {},
    }
}

/// A guard on `required` as the entity has it.
pub open spec fn guard_on(
    cx: CxView,
    required: PredView,
    on_fail: OnFail,
    loc: LocView,
    returns_value: bool,
) -> GuardFactView {
    GuardFactView { required: in_domain(required, cx.scene.ix), on_fail, loc, returns_value }
}

/// The guards of the statements from index `i` on of a body, or of a block on its top level.
pub open spec fn guards_in(cx: CxView, ss: Seq<StmtView>, i: int) -> Seq<GuardFactView>
    decreases ss, ss.len() - i,
{
    if 0 <= i < ss.len() {
        if is_trailing_if(ss, i, true) {
            match ss[i] {
                StmtView::If { test, then, otherwise, loc } => seq![
                    guard_on(cx, condition(cx, test), OnFail::Return, loc, false),
                ] + guards_in(cx, then, 0),
                _ => seq![],
            }
        } else {
            guards_at(cx, ss[i]) + guards_in(cx, ss, i + 1)
        }
    } else {
        seq![]
    }
}

/// The guards of a statement on the top level of a body.
pub open spec fn guards_at(cx: CxView, s: StmtView) -> Seq<GuardFactView>
    decreases s, 0int,
{
    match s {
        StmtView::If { test, then, otherwise, loc } => match exit_of(then) {
            Some(on_fail) => if otherwise.len() == 0 {
                seq![
                    guard_on(
                        cx,
                        negation(condition(cx, test)),
                        on_fail,
                        loc,
                        returns_value(then),
                    ),
                ]
            } else {
                seq![]
            },
            None => seq![],
        },
        StmtView::Block(b) => guards_in(cx, b, 0),
        _ => seq![],
    }
}

proof fn statements_add_guards(
    cx: CxView,
    ss: Seq<StmtView>,
    i: int,
    top: bool,
    p: PlaceView,
    f: FactsView,
)
    ensures
        after_stmts(cx, ss, i, top, p, f).guards == f.guards + (if top {
            guards_in(cx, ss, i)
        } else {
            seq![]
        }),
    decreases ss, ss.len() - i,
{
    let none = Seq::<GuardFactView>::empty();
    assert(f.guards + none =~= f.guards);
    if 0 <= i < ss.len() {
        if is_trailing_if(ss, i, top) {
            match ss[i] {
                StmtView::If { test, then, otherwise, loc } => {
                    let c = condition(cx, test);
                    let g = after_expr(cx, test, loc, p, f);
                    expr_keeps_guards(cx, test, loc, p, f);
                    let h = with_guard(cx, c, OnFail::Return, loc, false, g);
                    let q = under_condition(p, c, true, false);
                    statements_add_guards(cx, then, 0, true, q, h);
                    assert(h.guards + guards_in(cx, then, 0) =~= f.guards + (seq![
                        guard_on(cx, c, OnFail::Return, loc, false),
                    ] + guards_in(cx, then, 0)));
                },
                _ => {},
            }
        } else {
            let q = place_after(cx, ss[i], top, p);
            let g = after_stmt(cx, ss[i], top, p, f);
            statement_adds_guards(cx, ss[i], top, p, f);
            statements_add_guards(cx, ss, i + 1, top, q, g);
            if top {
                assert((f.guards + guards_at(cx, ss[i])) + guards_in(cx, ss, i + 1) =~= f.guards + (
                guards_at(cx, ss[i]) + guards_in(cx, ss, i + 1)));
            } else {
                assert((f.guards + none) + none =~= f.guards + none);
            }
        }
    }
}

proof fn statement_adds_guards(cx: CxView, s: StmtView, top: bool, p: PlaceView, f: FactsView)
    ensures
        after_stmt(cx, s, top, p, f).guards == f.guards + (if top {
            guards_at(cx, s)
        } else {
            seq![]
        }),
    decreases s, 0int,
{
    let none = Seq::<GuardFactView>::empty();
    assert(f.guards + none =~= f.guards);
    assert(none =~= seq![]);
    match s {
        StmtView::Expr(e, loc) => {
            expr_keeps_guards(cx, e, loc, p, f);
        },
        StmtView::Let { name, ty, init, loc } => match init {
            Some(e) => {
                expr_keeps_guards(cx, e, loc, p, f);
            },
            None => {},
        },
        StmtView::If { test, then, otherwise, loc } => {
            let c = condition(cx, test);
            let f1 = after_expr(cx, test, loc, p, f);
            expr_keeps_guards(cx, test, loc, p, f);
            let f2 = match exit_of(then) {
                Some(on_fail) => if top && otherwise.len() == 0 {
                    with_guard(cx, negation(c), on_fail, loc, returns_value(then), f1)
                } else {
                    f1
                },
                None => f1,
            };
            let q = under_condition(p, c, false, true);
            let r = under_condition(p, negation(c), false, true);
            let f3 = after_stmts(cx, then, 0, false, q, f2);
            statements_add_guards(cx, then, 0, false, q, f2);
            statements_add_guards(cx, otherwise, 0, false, r, f3);
            assert(f2.guards + none =~= f2.guards);
            assert(f2.guards =~= f.guards + (if top {
                guards_at(cx, s)
            } else {
                none
            }));
        },
        StmtView::Return(e, loc) => match e {
            Some(e) => {
                expr_keeps_guards(cx, e, loc, p, f);
            },
            None => {},
        },
        StmtView::Throw(e, loc) => {
            let g = FactsView { throws: true, ..f };
            expr_keeps_guards(cx, e, loc, p, g);
            match e {
                ExprView::New { callee, args, loc: at } => {
                    exprs_keep_guards(cx, args, 0, at, p, g);
                },
                _ => {},
            }
        },
        StmtView::Loop { binding, iter, body, loc } => {
            let g = match iter {
                Some(it) => {
                    expr_keeps_guards(cx, it, loc, p, f);
                    after_expr(cx, it, loc, p, f)
                },
                None => f,
            };
            statements_add_guards(cx, body, 0, false, inside_region(p, true, false), g);
        },
        StmtView::Try { body, handler, finalizer, loc } => {
            let q = inside_region(p, true, false);
            let g = after_stmts(cx, body, 0, false, p, f);
            let h = after_stmts(cx, handler, 0, false, q, g);
            statements_add_guards(cx, body, 0, false, p, f);
            statements_add_guards(cx, handler, 0, false, q, g);
            statements_add_guards(cx, finalizer, 0, false, p, h);
        },
        StmtView::Block(b) => {
            statements_add_guards(cx, b, 0, top, p, f);
        },
        StmtView::Jump(_) => {},
    }
}

proof fn decorators_keep_guards(
    cx: CxView,
    class: Option<Text>,
    ds: Seq<CallView>,
    i: int,
    f: FactsView,
)
    ensures
        with_decorators(cx, class, ds, i, f).guards == f.guards,
    decreases ds.len() - i,
{
    if 0 <= i < ds.len() {
        assert(with_decorator(cx, class, ds[i], f).guards == f.guards);
        decorators_keep_guards(cx, class, ds, i + 1, with_decorator(cx, class, ds[i], f));
    }
}

/// The guards of an entity are those on the top level of its body.
pub proof fn entity_has_its_guards(k: SceneView, f: FunctionView)
    ensures
        entity_of(k, f).guards == guards_in(cx_of(k, f), f.body, 0),
{
    let cx = cx_of(k, f);
    let p = PlaceView {
        path: seq![],
        nested: false,
        filtered: k.envs.filter_callbacks.contains(f.id),
    };
    statements_add_guards(cx, f.body, 0, true, p, no_facts());
    decorators_keep_guards(
        cx,
        f.class,
        f.decorators,
        0,
        after_stmts(cx, f.body, 0, true, p, no_facts()),
    );
    assert(no_facts().guards + guards_in(cx, f.body, 0) =~= guards_in(cx, f.body, 0));
}

/// Two lists of guards ask the same, wherever the guards stand.
pub open spec fn ask_the_same(a: Seq<GuardFactView>, b: Seq<GuardFactView>) -> bool {
    a.len() == b.len() && forall|i: int|
        0 <= i < a.len() ==> (#[trigger] a[i]).required == b[i].required && a[i].on_fail
            == b[i].on_fail && a[i].returns_value == b[i].returns_value
}

proof fn later_guards(cx: CxView, ahead: Seq<StmtView>, body: Seq<StmtView>, i: int)
    requires
        0 <= i <= body.len(),
    ensures
        guards_in(cx, ahead + body, ahead.len() + i) == guards_in(cx, body, i),
    decreases body.len() - i,
{
    let all = ahead + body;
    if i < body.len() {
        assert(all[ahead.len() + i] == body[i]);
        assert(is_trailing_if(all, ahead.len() + i, true) == is_trailing_if(body, i, true));
        if !is_trailing_if(body, i, true) {
            later_guards(cx, ahead, body, i + 1);
        }
    }
}

proof fn asking_adds_up(
    a: Seq<GuardFactView>,
    b: Seq<GuardFactView>,
    c: Seq<GuardFactView>,
    d: Seq<GuardFactView>,
)
    requires
        ask_the_same(a, b),
        ask_the_same(c, d),
    ensures
        ask_the_same(a + c, b + d),
{
    assert forall|i: int| 0 <= i < (a + c).len() implies (#[trigger] (a + c)[i]).required == (b
        + d)[i].required && (a + c)[i].on_fail == (b + d)[i].on_fail && (a + c)[i].returns_value == (
    b + d)[i].returns_value by {
        if i < a.len() {
            assert((a + c)[i] == a[i]);
        } else {
            assert((a + c)[i] == c[i - a.len()]);
        }
    }
}

proof fn guards_ask_the_same(
    cx: CxView,
    ss: Seq<StmtView>,
    c: ExprView,
    body: Seq<StmtView>,
    here: LocView,
    there: LocView,
    at: LocView,
    i: int,
)
    requires
        0 <= i <= ss.len(),
        is_simple_test(c),
        exit_of(body) is None,
    ensures
        ask_the_same(
            guards_in(cx, ss.push(only_if(c, body, here)), i),
            guards_in(cx, ss.push(unless_return(c, there, at)) + body, i),
        ),
    decreases ss.len() - i,
{
    let one = ss.push(only_if(c, body, here));
    let ahead = ss.push(unless_return(c, there, at));
    let two = ahead + body;
    if i < ss.len() {
        assert(one[i] == ss[i] && two[i] == ss[i]);
        assert(!is_trailing_if(one, i, true) && !is_trailing_if(two, i, true));
        guards_ask_the_same(cx, ss, c, body, here, there, at, i + 1);
        asking_adds_up(
            guards_at(cx, ss[i]),
            guards_at(cx, ss[i]),
            guards_in(cx, one, i + 1),
            guards_in(cx, two, i + 1),
        );
    } else {
        let back = StmtView::Return(None, at);
        let exit = seq![back];
        assert(one[i] == only_if(c, body, here));
        assert(two[i] == unless_return(c, there, at));
        assert(exit.last() == back);
        assert(exit_of(exit) == Some(OnFail::Return));
        assert(!returns_value(exit));
        assert(is_trailing_if(one, i, true));
        assert(!is_trailing_if(two, i, true));
        simple_tests_turn_back(cx, c);
        later_guards(cx, ahead, body, 0);
        let a = seq![guard_on(cx, condition(cx, c), OnFail::Return, here, false)];
        let b = seq![guard_on(cx, condition(cx, c), OnFail::Return, there, false)];
        assert(guards_at(cx, two[i]) == b);
        asking_adds_up(a, b, guards_in(cx, body, 0), guards_in(cx, body, 0));
    }
}

/// Two functions that differ only in how the end of their bodies is written, one with
/// `if (c) { B }` and the other with `if (!c) return; B`, have the same guards, wherever the two
/// conditions stand; the one on `c` returns where it fails.
pub proof fn spellings_of_guards_agree(
    k: SceneView,
    f: FunctionView,
    g: FunctionView,
    ss: Seq<StmtView>,
    c: ExprView,
    body: Seq<StmtView>,
    here: LocView,
    there: LocView,
    at: LocView,
)
    requires
        is_simple_test(c),
        exit_of(body) is None,
        f.body == ss.push(only_if(c, body, here)),
        g.body == ss.push(unless_return(c, there, at)) + body,
        cx_of(k, f) == cx_of(k, g),
    ensures
        ask_the_same(entity_of(k, f).guards, entity_of(k, g).guards),
        entity_of(k, f).guards.contains(
            guard_on(cx_of(k, f), condition(cx_of(k, f), c), OnFail::Return, here, false),
        ),
{
    let cx = cx_of(k, f);
    entity_has_its_guards(k, f);
    entity_has_its_guards(k, g);
    guards_ask_the_same(cx, ss, c, body, here, there, at, 0);
    trailing_guard_is_there(cx, ss, c, body, here, 0);
}

proof fn trailing_guard_is_there(
    cx: CxView,
    ss: Seq<StmtView>,
    c: ExprView,
    body: Seq<StmtView>,
    here: LocView,
    i: int,
)
    requires
        0 <= i <= ss.len(),
        exit_of(body) is None,
    ensures
        guards_in(cx, ss.push(only_if(c, body, here)), i).contains(
            guard_on(cx, condition(cx, c), OnFail::Return, here, false),
        ),
    decreases ss.len() - i,
{
    let one = ss.push(only_if(c, body, here));
    let g = guard_on(cx, condition(cx, c), OnFail::Return, here, false);
    if i < ss.len() {
        assert(one[i] == ss[i]);
        assert(!is_trailing_if(one, i, true));
        trailing_guard_is_there(cx, ss, c, body, here, i + 1);
        let rest = guards_in(cx, one, i + 1);
        let j = choose|j: int| 0 <= j < rest.len() && rest[j] == g;
        let head = guards_at(cx, ss[i]);
        assert((head + rest)[head.len() + j] == g);
    } else {
        assert(one[i] == only_if(c, body, here));
        assert(is_trailing_if(one, i, true));
        assert((seq![g] + guards_in(cx, body, 0))[0] == g);
    }
}

} // verus!
