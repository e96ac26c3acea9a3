//! What the texts of query predicates say: a negation is told apart from what it negates, a
//! conjunction from a disjunction, and a query lists its predicates in the order of the code.

use crate::catalog::{any_fits, segments_of};
use crate::hook;
use crate::ir::{CallView, ExprView};
use crate::query::{
    filter_text, is_read, operand_text, predicate_text, predicates_from, query_text, SceneView,
};
use crate::resolve::{CalleeView, EnvView};
use crate::text;
use crate::text::Text;
use crate::typing::called;
use vstd::prelude::*;

verus! {

/// A call of a method of a query builder.
pub open spec fn is_method(c: CallView, method: Text) -> bool {
    c.callee matches ExprView::Member { property, .. } && property == method
}

proof fn methods_differ()
    ensures
        "not"@ != "and"@,
        "not"@ != "or"@,
        "not"@ != "exists"@,
        "and"@ != "or"@,
        "and"@ != "exists"@,
        "or"@ != "exists"@,
{
    reveal_strlit("not");
    reveal_strlit("and");
    reveal_strlit("or");
    reveal_strlit("exists");
    assert("not"@[0] == 'n' && "and"@[0] == 'a' && "or"@[0] == 'o' && "exists"@[0] == 'e');
}

/// The text of `not(p)` is the sign of a negation and the text of `p`. So it is never the text of
/// `p`, and two negations have one text only where what they negate has one text.
pub proof fn negations_are_told_apart(
    k: SceneView,
    env: EnvView,
    c: CallView,
    d: CallView,
    fuel: nat,
)
    requires
        is_method(c, "not"@),
        is_method(d, "not"@),
        c.args.len() == 1,
        d.args.len() == 1,
    ensures
        filter_text(k, env, c, fuel) != predicate_text(k, env, c.args[0], fuel),
        filter_text(k, env, c, fuel).len() > 0,
        filter_text(k, env, c, fuel)[0] == '¬',
        filter_text(k, env, c, fuel).skip(1) == predicate_text(k, env, c.args[0], fuel),
        filter_text(k, env, c, fuel) == filter_text(k, env, d, fuel) <==> predicate_text(
            k,
            env,
            c.args[0],
            fuel,
        ) == predicate_text(k, env, d.args[0], fuel),
{
    methods_differ();
    reveal_strlit("¬");
    assert("¬"@.len() == 1 && "¬"@[0] == '¬');
    let p = predicate_text(k, env, c.args[0], fuel);
    let q = predicate_text(k, env, d.args[0], fuel);
    assert(filter_text(k, env, c, fuel) == "¬"@ + p);
    assert(filter_text(k, env, d, fuel) == "¬"@ + q);
    assert(("¬"@ + p).skip(1) =~= p);
    assert(("¬"@ + q).skip(1) =~= q);
    assert(("¬"@ + p).len() == p.len() + 1);
}

proof fn predicates_are(k: SceneView, env: EnvView, es: Seq<ExprView>, fuel: nat, i: int)
    requires
        0 <= i <= es.len(),
    ensures
        predicates_from(k, env, es, fuel, i).len() == es.len() - i,
        forall|n: int|
            0 <= n < es.len() - i ==> #[trigger] predicates_from(k, env, es, fuel, i)[n]
                == predicate_text(k, env, es[i + n], fuel),
    decreases es.len() - i,
{
    if i < es.len() {
        predicates_are(k, env, es, fuel, i + 1);
        let rest = predicates_from(k, env, es, fuel, i + 1);
        let all = predicates_from(k, env, es, fuel, i);
        assert forall|n: int| 0 <= n < es.len() - i implies #[trigger] all[n] == predicate_text(
            k,
            env,
            es[i + n],
            fuel,
        ) by {
            if n > 0 {
                assert(all[n] == rest[n - 1]);
            }
        }
    }
}

/// Texts joined by one sign are not the same texts joined by another, where there are two or more.
proof fn joined_apart(parts: Seq<Text>, s: Text, t: Text)
    requires
        parts.len() >= 2,
        s.len() == t.len(),
        s != t,
    ensures
        text::joined(parts, s) != text::joined(parts, t),
{
    let n = parts[0].len();
    let x = text::joined(parts, s);
    let y = text::joined(parts, t);
    assert(x == parts[0] + s + text::joined_from(parts, s, 1));
    assert(y == parts[0] + t + text::joined_from(parts, t, 1));
    if x == y {
        assert(x.subrange(n as int, (n + s.len()) as int) =~= s);
        assert(y.subrange(n as int, (n + s.len()) as int) =~= t);
    }
}

/// The text of a connective of a list of predicates holds the text of each, in brackets. A
/// conjunction of two or more is told apart from their disjunction.
pub proof fn connectives_are_told_apart(
    k: SceneView,
    env: EnvView,
    c: CallView,
    d: CallView,
    items: Seq<ExprView>,
    fuel: nat,
)
    requires
        is_method(c, "and"@),
        is_method(d, "or"@),
        c.args == seq![ExprView::Array(items)],
        d.args == seq![ExprView::Array(items)],
    ensures
        forall|i: int|
            0 <= i < items.len() ==> text::has_text(
                filter_text(k, env, c, fuel),
                predicate_text(k, env, #[trigger] items[i], fuel),
            ) && text::has_text(
                filter_text(k, env, d, fuel),
                predicate_text(k, env, items[i], fuel),
            ),
        items.len() >= 2 ==> filter_text(k, env, c, fuel) != filter_text(k, env, d, fuel),
        items.len() == 2 ==> filter_text(k, env, c, fuel) == "("@ + predicate_text(
            k,
            env,
            items[0],
            fuel,
        ) + " ∧ "@ + predicate_text(k, env, items[1], fuel) + ")"@,
        items.len() == 2 ==> filter_text(k, env, d, fuel) == "("@ + predicate_text(
            k,
            env,
            items[0],
            fuel,
        ) + " ∨ "@ + predicate_text(k, env, items[1], fuel) + ")"@,
{
    methods_differ();
    let ps = predicates_from(k, env, items, fuel, 0);
    predicates_are(k, env, items, fuel, 0);
    reveal_strlit(" ∧ ");
    reveal_strlit(" ∨ ");
    assert(" ∧ "@.len() == 3 && " ∨ "@.len() == 3);
    assert(" ∧ "@[1] == '∧' && " ∨ "@[1] == '∨');
    assert(c.args[0] == ExprView::Array(items) && d.args[0] == ExprView::Array(items));
    let x = text::joined(ps, " ∧ "@);
    let y = text::joined(ps, " ∨ "@);
    assert(filter_text(k, env, c, fuel) == "("@ + x + ")"@);
    assert(filter_text(k, env, d, fuel) == "("@ + y + ")"@);
    assert forall|i: int| 0 <= i < items.len() implies text::has_text(
        filter_text(k, env, c, fuel),
        predicate_text(k, env, #[trigger] items[i], fuel),
    ) && text::has_text(
        filter_text(k, env, d, fuel),
        predicate_text(k, env, items[i], fuel),
    ) by {
        hook::part_of_joined(ps, " ∧ "@, 0, i);
        hook::part_of_joined(ps, " ∨ "@, 0, i);
        assert(ps[i] == predicate_text(k, env, items[0 + i], fuel));
        hook::part_of_text("("@, x, ")"@, ps[i]);
        hook::part_of_text("("@, y, ")"@, ps[i]);
    }
    if items.len() >= 2 {
        joined_apart(ps, " ∧ "@, " ∨ "@);
        let n = "("@.len() as int;
        if filter_text(k, env, c, fuel) == filter_text(k, env, d, fuel) {
            let t = "("@ + x + ")"@;
            assert(t.len() == n + x.len() + ")"@.len());
            assert(("("@ + y + ")"@).len() == n + y.len() + ")"@.len());
            assert(t.subrange(n, n + x.len()) =~= x);
            assert(("("@ + y + ")"@).subrange(n, n + y.len()) =~= y);
        }
    }
    if items.len() == 2 {
        reveal_with_fuel(text::joined_from, 3);
        assert(ps[0] == predicate_text(k, env, items[0int + 0int], fuel));
        assert(ps[1] == predicate_text(k, env, items[0int + 1int], fuel));
        assert("("@ + x + ")"@ =~= "("@ + ps[0] + " ∧ "@ + ps[1] + ")"@);
        assert("("@ + y + ")"@ =~= "("@ + ps[0] + " ∨ "@ + ps[1] + ")"@);
    }
}

/// A comparison of a column reads as the column, the operator and the value. So two comparisons of
/// one column by operators of one length have one text only where operator and value have one.
pub proof fn comparisons_are_told_apart(
    k: SceneView,
    env: EnvView,
    c: CallView,
    d: CallView,
    fuel: nat,
)
    requires
        c.args.len() == 3,
        d.args.len() == 3,
    ensures
        filter_text(k, env, c, fuel) == operand_text(k, env, c.args[0], fuel) + " "@ + operand_text(
            k,
            env,
            c.args[1],
            fuel,
        ) + " "@ + operand_text(k, env, c.args[2], fuel),
        operand_text(k, env, c.args[0], fuel) == operand_text(k, env, d.args[0], fuel)
            && operand_text(k, env, c.args[1], fuel).len() == operand_text(
            k,
            env,
            d.args[1],
            fuel,
        ).len() ==> (filter_text(k, env, c, fuel) == filter_text(k, env, d, fuel) <==> operand_text(
            k,
            env,
            c.args[1],
            fuel,
        ) == operand_text(k, env, d.args[1], fuel) && operand_text(k, env, c.args[2], fuel)
            == operand_text(k, env, d.args[2], fuel)),
{
    let a = operand_text(k, env, c.args[0], fuel);
    let o = operand_text(k, env, c.args[1], fuel);
    let v = operand_text(k, env, c.args[2], fuel);
    let p = operand_text(k, env, d.args[1], fuel);
    let u = operand_text(k, env, d.args[2], fuel);
    reveal_strlit(" ");
    assert(" "@.len() == 1);
    let x = a + " "@ + o + " "@ + v;
    let y = a + " "@ + p + " "@ + u;
    assert(x.subrange((a.len() + 1) as int, (a.len() + 1 + o.len()) as int) =~= o);
    assert(y.subrange((a.len() + 1) as int, (a.len() + 1 + p.len()) as int) =~= p);
    assert(x.skip((a.len() + o.len() + 2) as int) =~= v);
    assert(y.skip((a.len() + p.len() + 2) as int) =~= u);
}

/// A test for rows in a sub-query names the sub-query, and a predicate that a clause takes alone
/// reads as itself.
pub proof fn single_predicates_read_as_they_are(
    k: SceneView,
    env: EnvView,
    c: CallView,
    method: Text,
    fuel: nat,
)
    requires
        is_method(c, method),
        c.args.len() == 1,
        method != "not"@,
        method != "and"@,
        method != "or"@,
    ensures
        method == "exists"@ ==> filter_text(k, env, c, fuel) == "exists("@ + (match query_text(
            k,
            env,
            c.args[0],
            seq![],
            fuel,
        ) {
            Some(q) => q,
            None => predicate_text(k, env, c.args[0], fuel),
        }) + ")"@,
        method != "exists"@ ==> filter_text(k, env, c, fuel) == predicate_text(
            k,
            env,
            c.args[0],
            fuel,
        ),
{
}

// ---- queries

/// The table and the predicates of a query, in the order in which they are written.
pub open spec fn written_query(k: SceneView, env: EnvView, e: ExprView, fuel: nat) -> Option<
    (Text, Seq<Text>),
>
    decreases e,
{
    match e {
        ExprView::Call(c) => match c.callee {
            ExprView::Member { object, property } => match called(k.ix, env, c.callee) {
                CalleeView::External(api) => if is_read(k.cat, api) {
                    Some(
                        (
                            if c.args.len() > 0 {
                                operand_text(k, env, c.args[0], fuel)
                            } else {
                                "_"@
                            },
                            seq![],
                        ),
                    )
                } else {
                    match written_query(k, env, *object, fuel) {
                        Some((table, ps)) => Some(
                            (
                                table,
                                if any_fits(k.cat.filter, segments_of(api)) {
                                    ps.push(filter_text(k, env, *c, fuel))
                                } else {
                                    ps
                                },
                            ),
                        ),
                        None => None,
                    }
                },
                _ => None,
            },
            _ => None,
        },
        _ => None,
    }
}

proof fn outer_filters_come_last(
    k: SceneView,
    env: EnvView,
    e: ExprView,
    filters: Seq<Text>,
    fuel: nat,
)
    ensures
        query_text(k, env, e, filters, fuel) == (match written_query(k, env, e, fuel) {
            Some((table, ps)) => Some(
                if ps.len() + filters.len() == 0 {
                    table
                } else {
                    table + " where "@ + text::joined(ps + filters.reverse(), " ∧ "@)
                },
            ),
            None => None,
        }),
    decreases e,
{
    match e {
        ExprView::Call(c) => match c.callee {
            ExprView::Member { object, property } => match called(k.ix, env, c.callee) {
                CalleeView::External(api) => {
                    if is_read(k.cat, api) {
                        assert(Seq::<Text>::empty() + filters.reverse() =~= filters.reverse());
                    } else {
                        let f = filter_text(k, env, *c, fuel);
                        if any_fits(k.cat.filter, segments_of(api)) {
                            outer_filters_come_last(k, env, *object, filters.push(f), fuel);
                            if let Some((table, ps)) = written_query(k, env, *object, fuel) {
                                assert(ps + filters.push(f).reverse() =~= ps.push(f)
                                    + filters.reverse());
                            }
                        } else {
                            outer_filters_come_last(k, env, *object, filters, fuel);
                        }
                    }
                },
                _ => {},
            },
            _ => {},
        },
        _ => {},
    }
}

/// A query reads as its table and its predicates, in the order in which they are written; without
/// predicates it reads as its table.
pub proof fn queries_read_in_order(k: SceneView, env: EnvView, e: ExprView, fuel: nat)
    ensures
        query_text(k, env, e, seq![], fuel) == (match written_query(k, env, e, fuel) {
            Some((table, ps)) => Some(
                if ps.len() == 0 {
                    table
                } else {
                    table + " where "@ + text::joined(ps, " ∧ "@)
                },
            ),
            None => None,
        }),
{
    let none = Seq::<Text>::empty();
    assert(none =~= seq![]);
    outer_filters_come_last(k, env, e, none, fuel);
    if let Some((table, ps)) = written_query(k, env, e, fuel) {
        assert(none.reverse() =~= none);
        assert(ps + none =~= ps);
    }
}

} // verus!
