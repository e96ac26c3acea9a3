//! Under which conditions parts of markup are said to be shown.

use crate::hook::{part_of_joined, part_of_text};
use crate::ir::{ExprView, LogicOp};
use crate::markup::{children_parts, element_style, gives_markup, markup_parts};
use crate::model::RenderedView;
use crate::text;
use crate::text::Text;
use crate::typing::expr_text;
use vstd::prelude::*;

verus! {

/// Every part is shown under a condition whose text has this one as a part.
pub open spec fn all_under(parts: Seq<RenderedView>, x: Text) -> bool {
    forall|n: int| 0 <= n < parts.len() ==> text::has_text((#[trigger] parts[n]).when, x)
}

proof fn both_under(a: Seq<RenderedView>, b: Seq<RenderedView>, x: Text)
    requires
        all_under(a, x),
        all_under(b, x),
    ensures
        all_under(a + b, x),
{
    let c = a + b;
    assert forall|n: int| 0 <= n < c.len() implies text::has_text((#[trigger] c[n]).when, x) by {
        if n < a.len() {
            assert(c[n] == a[n]);
        } else {
            assert(c[n] == b[n - a.len()]);
        }
    }
}

proof fn children_are_under(cs: Seq<ExprView>, style: Text, when: Seq<Text>, i: int, k: int)
    requires
        0 <= k < when.len(),
    ensures
        all_under(children_parts(cs, style, when, i), when[k]),
    decreases cs, cs.len() - i,
{
    if 0 <= i < cs.len() {
        parts_are_under(cs[i], style, when, k);
        children_are_under(cs, style, when, i + 1, k);
        both_under(
            markup_parts(cs[i], style, when),
            children_parts(cs, style, when, i + 1),
            when[k],
        );
    }
}

/// What is shown is shown under every condition around it.
pub proof fn parts_are_under(e: ExprView, style: Text, when: Seq<Text>, k: int)
    requires
        0 <= k < when.len(),
    ensures
        all_under(markup_parts(e, style, when), when[k]),
    decreases e, 0int,
{
    let shown = text::joined(when, " ∧ "@);
    part_of_joined(when, " ∧ "@, 0, k);
    match e {
        ExprView::Jsx(j) => {
            let inner = if j.tag.len() == 0 {
                style
            } else {
                element_style(j.tag, j.attrs)
            };
            children_are_under(j.children, inner, when, 0, k);
            let own = if j.children.len() == 0 && j.tag.len() > 0 {
                seq![RenderedView { content: "<"@ + j.tag + ">"@, style: inner, when: shown }]
            } else {
                seq![]
            };
            both_under(own, children_parts(j.children, inner, when, 0), when[k]);
        },
        ExprView::Logical { op, left, right } => {
            if op == LogicOp::And && gives_markup(*right) {
                let inside = when.push(expr_text(*left));
                parts_are_under(*right, style, inside, k);
                assert(inside[k] == when[k]);
            }
        },
        ExprView::Conditional { test, then, otherwise } => {
            if gives_markup(*then) || gives_markup(*otherwise) {
                let a = when.push(expr_text(*test));
                let b = when.push("!("@ + expr_text(*test) + ")"@);
                parts_are_under(*then, style, a, k);
                parts_are_under(*otherwise, style, b, k);
                assert(a[k] == when[k] && b[k] == when[k]);
                both_under(
                    markup_parts(*then, style, a),
                    markup_parts(*otherwise, style, b),
                    when[k],
                );
            }
        },
        _ => {},
    }
}

/// What a choice shows is shown under its test: first the parts of the one branch, under the test,
/// then the parts of the other, under its denial.
pub proof fn choices_are_under_their_tests(
    test: ExprView,
    then: ExprView,
    otherwise: ExprView,
    style: Text,
    when: Seq<Text>,
) -> (m: int)
    requires
        gives_markup(then) || gives_markup(otherwise),
    ensures
        ({
            let parts = markup_parts(
                ExprView::Conditional {
                    test: Box::new(test),
                    then: Box::new(then),
                    otherwise: Box::new(otherwise),
                },
                style,
                when,
            );
            let denied = when.push("!("@ + expr_text(test) + ")"@);
            &&& 0 <= m <= parts.len()
            &&& parts.take(m) == markup_parts(then, style, when.push(expr_text(test)))
            &&& parts.skip(m) == markup_parts(otherwise, style, denied)
            &&& all_under(parts, expr_text(test))
            &&& all_under(parts.skip(m), "!("@ + expr_text(test) + ")"@)
        }),
{
    let n = when.len() as int;
    let yes = when.push(expr_text(test));
    let no = when.push("!("@ + expr_text(test) + ")"@);
    let a = markup_parts(then, style, yes);
    let b = markup_parts(otherwise, style, no);
    parts_are_under(then, style, yes, n);
    parts_are_under(otherwise, style, no, n);
    assert(yes[n] == expr_text(test) && no[n] == "!("@ + expr_text(test) + ")"@);
    let x = expr_text(test);
    assert(text::has_text(x, x)) by {
        assert(x.subrange(0, x.len() as int) =~= x);
        assert(text::occurs_at(x, x, 0));
    }
    part_of_text("!("@, x, ")"@, x);
    assert forall|k: int| 0 <= k < b.len() implies text::has_text((#[trigger] b[k]).when, x) by {
        inner_part(b[k].when, "!("@ + x + ")"@, x);
    }
    both_under(a, b, x);
    let parts = a + b;
    assert(parts.take(a.len() as int) =~= a);
    assert(parts.skip(a.len() as int) =~= b);
    a.len() as int
}

proof fn inner_part(s: Text, p: Text, q: Text)
    requires
        text::has_text(s, p),
        text::has_text(p, q),
    ensures
        text::has_text(s, q),
{
    let n = choose|n: int| text::occurs_at(s, p, n);
    let k = choose|k: int| text::occurs_at(p, q, k);
    assert(s.subrange(n + k, n + k + q.len()) =~= p.subrange(k, k + q.len()));
    assert(text::occurs_at(s, q, n + k));
}

/// What stands behind `&&` is shown under what stands before it.
pub proof fn conjunctions_are_under_their_left(left: ExprView, right: ExprView, style: Text, when: Seq<Text>)
    requires
        gives_markup(right),
    ensures
        all_under(
            markup_parts(
                ExprView::Logical {
                    op: LogicOp::And,
                    left: Box::new(left),
                    right: Box::new(right),
                },
                style,
                when,
            ),
            expr_text(left),
        ),
{
    let inside = when.push(expr_text(left));
    parts_are_under(right, style, inside, when.len() as int);
    assert(inside[when.len() as int] == expr_text(left));
}

} // verus!
