//! What conditions mean: the predicate read from an expression holds exactly where the expression
//! is true, and the guards of a function hold exactly where its body is gone through.

use crate::entity::{entity_of, cx_of, returns_from, is_predicate};
use crate::extract::{
    call_condition, comparison, comparison_sign, condition, constant_comparison, constants_from,
    flipped, is_size, subject_text, CxView,
};
use crate::typing::{expr_text, expr_texts};
use crate::ir::{BinOp, CallView, ExprView, FunctionView, LogicOp, StmtView};
use crate::meaning::{
    comparing_keeps_meaning, domains_keep_meaning, holds, in_bounds, negating_turns_meaning,
    operators_differ, relates, simplifying_keeps_meaning, sound, World,
};
use crate::model::{GuardFactView, OnFail};
use crate::ordered::{added, added_keeps_order, added_members, rising};
use crate::pred::{compared, negation, PredView};
use crate::query::SceneView;
use crate::resolve::CalleeView;
use crate::spellings::{entity_has_its_guards, guard_on, guards_at, guards_in};
use crate::text;
use crate::text::Text;
use crate::typing::{called, constant};
use vstd::prelude::*;

verus! {

// ---- expressions

/// The constant that an expression is, where it is one.
pub open spec fn known(cx: CxView, e: ExprView) -> Option<Text> {
    constant(cx.scene.ix, cx.env, e)
}

/// What stands on one side of a comparison: a constant that is compared with something else by
/// its value, anything else by its name.
pub open spec fn side(cx: CxView, e: ExprView, other: ExprView) -> Text {
    match (known(cx, e), known(cx, other)) {
        (Some(v), None) => v,
        _ => subject_text(cx, e),
    }
}

/// The two sides of a comparison are equal: a field has a constant for its value, or both have
/// one rank.
pub open spec fn are_equal(cx: CxView, a: ExprView, b: ExprView, w: World) -> bool {
    match (known(cx, a), known(cx, b)) {
        (None, Some(v)) => (w.value)(subject_text(cx, a)) == v,
        (Some(v), None) => (w.value)(subject_text(cx, b)) == v,
        _ => (w.rank)(side(cx, a, b)) == (w.rank)(side(cx, b, a)),
    }
}

/// A comparison is true.
pub open spec fn is_so(cx: CxView, op: BinOp, a: ExprView, b: ExprView, w: World) -> bool {
    let x = (w.rank)(side(cx, a, b));
    let y = (w.rank)(side(cx, b, a));
    match op {
        BinOp::Eq => are_equal(cx, a, b, w),
        BinOp::NotEq => !are_equal(cx, a, b, w),
        BinOp::Lt => x < y,
        BinOp::LtEq => x <= y,
        BinOp::Gt => x > y,
        _ => x >= y,
    }
}

/// The items of a list are constants.
pub open spec fn all_known(cx: CxView, items: Seq<ExprView>) -> bool {
    forall|i: int| 0 <= i < items.len() ==> known(cx, #[trigger] items[i]) is Some
}

/// One of the constants of a list is this value.
pub open spec fn is_listed(cx: CxView, items: Seq<ExprView>, v: Text) -> bool {
    exists|i: int| 0 <= i < items.len() && known(cx, #[trigger] items[i]) == Some(v)
}

/// The list that a call tests for a member, where the call is `[…].includes(x)` on constants.
pub open spec fn tested_list(cx: CxView, c: CallView) -> Option<Seq<ExprView>> {
    match c.callee {
        ExprView::Member { object, property } => match *object {
            ExprView::Array(items) => if property == "includes"@ && c.args.len() > 0 && all_known(
                cx,
                items,
            ) {
                Some(items)
            } else {
                None
            },
            _ => None,
        },
        _ => None,
    }
}

/// A call answers yes.
pub open spec fn answers(cx: CxView, c: CallView, w: World) -> bool {
    match tested_list(cx, c) {
        Some(items) => is_listed(cx, items, (w.value)(subject_text(cx, c.args[0]))),
        None => match called(cx.scene.ix, cx.env, c.callee) {
            CalleeView::Internal(entity) => (w.answer)(entity),
            CalleeView::External(canon) => (w.met)(
                text::trimmed_end(canon, "()"@) + "("@ + text::joined(expr_texts(c.args, 0), ", "@)
                    + ")"@,
            ),
            CalleeView::Unresolved(_) => (w.met)(expr_text(ExprView::Call(Box::new(c)))),
        },
    }
}

/// An expression is true in a world.
pub open spec fn is_true(cx: CxView, e: ExprView, w: World) -> bool
    decreases e,
{
    match e {
        ExprView::Binary { op, left, right } => if op == BinOp::Other {
            (w.met)(expr_text(e))
        } else {
            is_so(cx, op, *left, *right, w)
        },
        ExprView::Logical { op, left, right } => match op {
            LogicOp::And => is_true(cx, *left, w) && is_true(cx, *right, w),
            LogicOp::Or => is_true(cx, *left, w) || is_true(cx, *right, w),
            LogicOp::Coalesce => (w.met)(expr_text(e)),
        },
        ExprView::Not(x) => !is_true(cx, *x, w),
        ExprView::Await(x) => is_true(cx, *x, w),
        ExprView::Call(c) => answers(cx, *c, w),
        ExprView::Member { object, property } => (w.truthy)(subject_text(cx, e)),
        ExprView::Ident(_) => (w.truthy)(subject_text(cx, e)),
        ExprView::Bool(b) => b,
        _ => (w.met)(expr_text(e)),
    }
}

/// A field that holds the number of things there are.
pub open spec fn is_number_of_things(s: Text) -> bool {
    text::ends(s, ".length"@) || text::ends(s, ".size"@)
}

/// A world in which numbers of things are numbers: none is below zero, and the value `0` has the
/// rank of zero and no other has.
pub open spec fn counts(w: World) -> bool {
    &&& (w.rank)("0"@) == 0
    &&& (w.rank)("1"@) == 1
    &&& forall|s: Text|
        #[trigger] is_number_of_things(s) ==> (w.rank)(s) >= 0 && ((w.value)(s) == "0"@ <==> (w.rank)(
            s,
        ) == 0)
}

proof fn one_value(v: Text, x: Text)
    ensures
        rising(added(seq![], v)),
        added(seq![], v).contains(x) == (x == v),
{
    let none = Seq::<Text>::empty();
    assert(none =~= seq![]);
    added_keeps_order(none, v);
    added_members(none, v, x);
}

proof fn constants_compare(subject: Text, sign: Text, v: Text, w: World)
    requires
        counts(w),
        sign == "<"@ || sign == "<="@ || sign == ">"@ || sign == ">="@ || sign == "=="@ || sign
            == "!="@,
    ensures
        sound(constant_comparison(subject, sign, v)),
        holds(constant_comparison(subject, sign, v), w) == (if sign == "=="@ {
            (w.value)(subject) == v
        } else if sign == "!="@ {
            (w.value)(subject) != v
        } else {
            relates((w.rank)(subject), sign, (w.rank)(v))
        }),
{
    operators_differ();
    one_value(v, (w.value)(subject));
    one_value("0"@, (w.value)(subject));
    comparing_keeps_meaning(subject, sign, v, w);
    if is_size(subject) {
        assert(is_number_of_things(subject));
    }
}

proof fn comparisons_mean(cx: CxView, op: BinOp, a: ExprView, b: ExprView, w: World)
    requires
        counts(w),
        op != BinOp::Other,
    ensures
        sound(comparison(cx, op, a, b)),
        holds(comparison(cx, op, a, b), w) == is_so(cx, op, a, b, w),
{
    operators_differ();
    let sign = comparison_sign(op);
    match (known(cx, a), known(cx, b)) {
        (None, Some(v)) => {
            constants_compare(subject_text(cx, a), sign, v, w);
        },
        (Some(v), None) => {
            constants_compare(subject_text(cx, b), flipped(sign), v, w);
        },
        _ => {
            comparing_keeps_meaning(subject_text(cx, a), sign, subject_text(cx, b), w);
        },
    }
}

proof fn constants_are_listed(cx: CxView, items: Seq<ExprView>, i: int, acc: Seq<Text>)
    requires
        0 <= i <= items.len(),
        rising(acc),
    ensures
        match constants_from(cx, items, i, acc) {
            Some(vs) => rising(vs) && (forall|k: int|
                i <= k < items.len() ==> known(cx, #[trigger] items[k]) is Some) && forall|x: Text|
                #[trigger] vs.contains(x) <==> acc.contains(x) || is_listed_from(cx, items, i, x),
            None => exists|k: int| i <= k < items.len() && known(cx, #[trigger] items[k]) is None,
        },
    decreases items.len() - i,
{
    if i < items.len() {
        if let Some(v) = known(cx, items[i]) {
            let next = added(acc, v);
            added_keeps_order(acc, v);
            constants_are_listed(cx, items, i + 1, next);
            match constants_from(cx, items, i, acc) {
                Some(vs) => {
                    assert forall|x: Text|
                        #[trigger] vs.contains(x) <==> acc.contains(x) || is_listed_from(
                            cx,
                            items,
                            i,
                            x,
                        ) by {
                        added_members(acc, v, x);
                        if is_listed_from(cx, items, i, x) {
                            let k = choose|k: int|
                                i <= k < items.len() && known(cx, #[trigger] items[k]) == Some(x);
                            if k > i {
                                assert(is_listed_from(cx, items, i + 1, x));
                            }
                        }
                        if is_listed_from(cx, items, i + 1, x) {
                            let k = choose|k: int|
                                i + 1 <= k < items.len() && known(cx, #[trigger] items[k]) == Some(x);
                            assert(known(cx, items[k]) == Some(x));
                        }
                        if x == v {
                            assert(known(cx, items[i]) == Some(x));
                        }
                    }
                    assert forall|k: int| i <= k < items.len() implies known(cx, #[trigger] items[k])
                        is Some by {}
                },
                None => {
                    let k = choose|k: int|
                        i + 1 <= k < items.len() && known(cx, #[trigger] items[k]) is None;
                    assert(known(cx, items[k]) is None);
                },
            }
        } else {
            assert(known(cx, items[i]) is None);
        }
    }
}

spec fn is_listed_from(cx: CxView, items: Seq<ExprView>, i: int, v: Text) -> bool {
    exists|k: int| i <= k < items.len() && known(cx, #[trigger] items[k]) == Some(v)
}

proof fn calls_mean(cx: CxView, c: CallView, w: World)
    ensures
        sound(call_condition(cx, c)),
        holds(call_condition(cx, c), w) == answers(cx, c, w),
{
    let none = Seq::<Text>::empty();
    assert(none =~= seq![]);
    match c.callee {
        ExprView::Member { object, property } => match *object {
            ExprView::Array(items) => {
                constants_are_listed(cx, items, 0, none);
                let v = (w.value)(subject_text(cx, c.args[0]));
                assert(is_listed_from(cx, items, 0, v) == is_listed(cx, items, v));
            },
            _ => {},
        },
        _ => {},
    }
}

/// The predicate that is read from a condition holds exactly where the condition is true:
/// comparisons, tests for a member of a list, connectives and negation mean what they mean in the
/// code.
pub proof fn conditions_hold_where_true(cx: CxView, e: ExprView, w: World)
    requires
        counts(w),
    ensures
        sound(condition(cx, e)),
        holds(condition(cx, e), w) == is_true(cx, e, w),
    decreases e,
{
    match e {
        ExprView::Binary { op, left, right } => {
            if op != BinOp::Other {
                comparisons_mean(cx, op, *left, *right, w);
            }
        },
        ExprView::Logical { op, left, right } => {
            conditions_hold_where_true(cx, *left, w);
            conditions_hold_where_true(cx, *right, w);
            let ps = seq![condition(cx, *left), condition(cx, *right)];
            assert(ps[0] == condition(cx, *left) && ps[1] == condition(cx, *right));
            simplifying_keeps_meaning(PredView::And(ps), w);
            simplifying_keeps_meaning(PredView::Or(ps), w);
            let all = PredView::And(ps);
            let any = PredView::Or(ps);
            assert(holds(all, w) == (holds(ps[0], w) && holds(ps[1], w))) by {
                if holds(all, w) {
                    assert(holds(all->And_0[0], w) && holds(all->And_0[1], w));
                }
            }
            assert(holds(any, w) == (holds(ps[0], w) || holds(ps[1], w))) by {
                assert(any->Or_0[0] == ps[0] && any->Or_0[1] == ps[1]);
            }
        },
        ExprView::Not(x) => {
            conditions_hold_where_true(cx, *x, w);
            negating_turns_meaning(condition(cx, *x), w);
        },
        ExprView::Await(x) => {
            conditions_hold_where_true(cx, *x, w);
        },
        ExprView::Call(c) => {
            calls_mean(cx, *c, w);
        },
        _ => {},
    }
}

/// A test for a member of a list of one constant is the test for that constant:
/// `[c].includes(x)` reads as `x === c`.
pub proof fn list_of_one_is_equality(cx: CxView, c: ExprView, x: ExprView, call: CallView)
    requires
        call.callee == (ExprView::Member {
            object: Box::new(ExprView::Array(seq![c])),
            property: "includes"@,
        }),
        call.args == seq![x],
        known(cx, c) is Some,
        known(cx, x) is None,
    ensures
        condition(cx, ExprView::Call(Box::new(call))) == condition(
            cx,
            ExprView::Binary { op: BinOp::Eq, left: Box::new(x), right: Box::new(c) },
        ),
{
    operators_differ();
    reveal_with_fuel(constants_from, 3);
    let items = seq![c];
    assert(items[0] == c);
    assert(call.args[0] == x);
}

// ---- guards

/// Statements end by leaving the function.
pub open spec fn leaves(ss: Seq<StmtView>) -> bool {
    ss.len() > 0 && (ss.last() is Throw || ss.last() is Return)
}

/// The statements of a body from index `i` on are gone through: no test that leaves the function
/// is met, and the last statement runs, where it is a condition without an alternative.
pub open spec fn goes_through(cx: CxView, ss: Seq<StmtView>, i: int, w: World) -> bool
    decreases ss, ss.len() - i,
{
    if 0 <= i < ss.len() {
        match ss[i] {
            StmtView::If { test, then, otherwise, loc } => if otherwise.len() > 0 {
                goes_through(cx, ss, i + 1, w)
            } else if leaves(then) {
                !is_true(cx, test, w) && goes_through(cx, ss, i + 1, w)
            } else if i + 1 == ss.len() {
                is_true(cx, test, w) && goes_through(cx, then, 0, w)
            } else {
                goes_through(cx, ss, i + 1, w)
            },
            StmtView::Block(b) => goes_through(cx, b, 0, w) && goes_through(cx, ss, i + 1, w),
            _ => goes_through(cx, ss, i + 1, w),
        }
    } else {
        true
    }
}

/// Every guard of a list holds.
pub open spec fn all_hold(gs: Seq<GuardFactView>, w: World) -> bool {
    forall|i: int| 0 <= i < gs.len() ==> holds((#[trigger] gs[i]).required, w)
}

proof fn guards_add_up(a: Seq<GuardFactView>, b: Seq<GuardFactView>, w: World)
    ensures
        all_hold(a + b, w) == (all_hold(a, w) && all_hold(b, w)),
{
    let c = a + b;
    if all_hold(c, w) {
        assert forall|i: int| 0 <= i < a.len() implies holds((#[trigger] a[i]).required, w) by {
            assert(c[i] == a[i]);
        }
        assert forall|i: int| 0 <= i < b.len() implies holds((#[trigger] b[i]).required, w) by {
            assert(c[a.len() + i] == b[i]);
        }
    }
    if all_hold(a, w) && all_hold(b, w) {
        assert forall|i: int| 0 <= i < c.len() implies holds((#[trigger] c[i]).required, w) by {
            if i < a.len() {
                assert(c[i] == a[i]);
            } else {
                assert(c[i] == b[i - a.len()]);
            }
        }
    }
}

proof fn one_guard_holds(g: GuardFactView, w: World)
    ensures
        all_hold(seq![g], w) == holds(g.required, w),
{
    assert(seq![g][0] == g);
}

proof fn guards_hold_on_the_way(cx: CxView, ss: Seq<StmtView>, i: int, w: World)
    requires
        counts(w),
        in_bounds(w, cx.scene.ix),
        0 <= i,
    ensures
        all_hold(guards_in(cx, ss, i), w) == goes_through(cx, ss, i, w),
    decreases ss, ss.len() - i,
{
    if i < ss.len() {
        match ss[i] {
            StmtView::If { test, then, otherwise, loc } => {
                let c = condition(cx, test);
                conditions_hold_where_true(cx, test, w);
                negating_turns_meaning(c, w);
                domains_keep_meaning(c, cx.scene.ix, w);
                domains_keep_meaning(negation(c), cx.scene.ix, w);
                if otherwise.len() == 0 && !leaves(then) && i + 1 == ss.len() {
                    guards_hold_on_the_way(cx, then, 0, w);
                    let g = guard_on(cx, c, OnFail::Return, loc, false);
                    guards_add_up(seq![g], guards_in(cx, then, 0), w);
                    one_guard_holds(g, w);
                } else {
                    guards_hold_on_the_way(cx, ss, i + 1, w);
                    guards_add_up(guards_at(cx, ss[i]), guards_in(cx, ss, i + 1), w);
                    if otherwise.len() == 0 && leaves(then) {
                        one_guard_holds(guards_at(cx, ss[i])[0], w);
                        assert(guards_at(cx, ss[i]) =~= seq![guards_at(cx, ss[i])[0]]);
                    } else {
                        assert(guards_at(cx, ss[i]).len() == 0);
                    }
                }
            },
            StmtView::Block(b) => {
                guards_hold_on_the_way(cx, b, 0, w);
                guards_hold_on_the_way(cx, ss, i + 1, w);
                guards_add_up(guards_at(cx, ss[i]), guards_in(cx, ss, i + 1), w);
            },
            _ => {
                guards_hold_on_the_way(cx, ss, i + 1, w);
                guards_add_up(guards_at(cx, ss[i]), guards_in(cx, ss, i + 1), w);
                assert(guards_at(cx, ss[i]).len() == 0);
            },
        }
    }
}

/// The guards of a function hold together exactly where its body is gone through.
pub proof fn guards_hold_where_gone_through(k: SceneView, f: FunctionView, w: World)
    requires
        counts(w),
        in_bounds(w, k.ix),
    ensures
        all_hold(entity_of(k, f).guards, w) == goes_through(cx_of(k, f), f.body, 0, w),
{
    entity_has_its_guards(k, f);
    guards_hold_on_the_way(cx_of(k, f), f.body, 0, w);
}

/// A guard fails as its statements leave: by throwing where they throw, by returning where they
/// return, with a value where they return one.
pub proof fn guards_fail_as_they_leave(cx: CxView, s: StmtView)
    ensures
        s matches StmtView::If { test, then, otherwise, loc } ==> {
            &&& otherwise.len() == 0 && leaves(then) ==> {
                &&& guards_at(cx, s).len() == 1
                &&& guards_at(cx, s)[0].loc == loc
                &&& guards_at(cx, s)[0].on_fail == OnFail::Throw <==> then.last() is Throw
                &&& guards_at(cx, s)[0].returns_value <==> (then.last() matches StmtView::Return(
                    v,
                    _,
                ) && v is Some)
            }
            &&& otherwise.len() > 0 || !leaves(then) ==> guards_at(cx, s).len() == 0
        },
{
}

/// A function that answers a question answers yes exactly where what it returns is true.
pub proof fn answers_are_what_is_returned(k: SceneView, f: FunctionView, w: World)
    requires
        counts(w),
        is_predicate(f),
        returns_from(f.body, 0).len() == 1,
    ensures
        entity_of(k, f).returns matches Some(p) && holds(p, w) == is_true(
            cx_of(k, f),
            returns_from(f.body, 0)[0].0,
            w,
        ),
{
    conditions_hold_where_true(cx_of(k, f), returns_from(f.body, 0)[0].0, w);
}

} // verus!
