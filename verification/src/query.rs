//! Query predicates: the canonical text of what a query builder's calls filter by.

use crate::catalog::{any_fits, effect_from, segments_of, Catalog, CatalogView};
use crate::envs::{closure_passed, passed_closure, Envs, EnvsView};
use crate::ir::{
    call_view, expr_list_view, expr_view, stmt_list_view, stmt_view, Call, CallView, Expr, ExprView,
    Stmt, StmtView,
};
use crate::list;
use crate::list::Plain;
use crate::ordered::lookup;
use crate::resolve::{Callee, CalleeView, Env, EnvView, Index, IndexView};
use crate::text;
use crate::text::Text;
use crate::typing::{called, constant, expr_text, render};
use vstd::prelude::*;

verus! {

/// What predicates are read with: the program, the catalog and the environments.
pub struct Scene<'a, 'p> {
    pub ix: &'a Index<'p>,
    pub cat: &'a Catalog,
    pub envs: &'a Envs,
}

/// The view of [`Scene`].
#[verifier::ext_equal]
pub struct SceneView {
    pub ix: IndexView,
    pub cat: CatalogView,
    pub envs: EnvsView,
}

impl<'a, 'p> DeepView for Scene<'a, 'p> {
    type V = SceneView;

    open spec fn deep_view(&self) -> SceneView {
        SceneView {
            ix: self.ix.deep_view(),
            cat: self.cat.deep_view(),
            envs: self.envs.deep_view(),
        }
    }
}

/// The expression that the last `return` among the first `n` statements gives.
pub open spec fn returned_from(body: Seq<StmtView>, n: int) -> Option<ExprView>
    decreases n,
{
    if n <= 0 || n > body.len() {
        None
    } else {
        match body[n - 1] {
            StmtView::Return(Some(r), _) => Some(r),
            _ => returned_from(body, n - 1),
        }
    }
}

/// What a closure returns last: the predicate of `(eb) => { …; return eb.and(ps); }`.
pub open spec fn returned_by(ix: IndexView, id: Text) -> Option<ExprView> {
    match lookup(ix.functions, id) {
        Some(f) => returned_from(f.body, f.body.len() as int),
        None => None,
    }
}

fn returned<'p>(ix: &Index<'p>, id: &str) -> (r: Option<&'p Expr>)
    ensures
        r.deep_view() == returned_by(ix.deep_view(), id@),
{
    match ix.function(id) {
        Some(f) => {
            proof {
                crate::ir::stmt_list_view_is_deep(f.body);
            }
            let ghost bv = stmt_list_view(f.body@);
            let mut n: usize = f.body.len();
            while n > 0
                invariant
                    n <= f.body@.len(),
                    bv == stmt_list_view(f.body@),
                    returned_by(ix.deep_view(), id@) == returned_from(bv, n as int),
                decreases n,
            {
                assert(bv[n - 1] == stmt_view(f.body@[n - 1]));
                if let Stmt::Return(Some(r), _) = &f.body[n - 1] {
                    return Some(r);
                }
                n -= 1;
            }
            None
        },
        None => None,
    }
}

// ---- texts

/// The method of a call, empty where it is not a member call.
pub open spec fn method_of(callee: ExprView) -> Text {
    match callee {
        ExprView::Member { object, property } => property,
        _ => ""@,
    }
}

/// The texts of the predicates from index `i` on.
pub open spec fn predicates_from(
    k: SceneView,
    env: EnvView,
    es: Seq<ExprView>,
    fuel: nat,
    i: int,
) -> Seq<Text>
    decreases fuel, 2int, es, es.len() - i,
{
    if 0 <= i < es.len() {
        seq![predicate_text(k, env, es[i], fuel)] + predicates_from(k, env, es, fuel, i + 1)
    } else {
        seq![]
    }
}

/// The texts of the operands from index `i` on.
pub open spec fn operands_from(
    k: SceneView,
    env: EnvView,
    es: Seq<ExprView>,
    fuel: nat,
    i: int,
) -> Seq<Text>
    decreases fuel, 2int, es, es.len() - i,
{
    if 0 <= i < es.len() {
        seq![operand_text(k, env, es[i], fuel)] + operands_from(k, env, es, fuel, i + 1)
    } else {
        seq![]
    }
}

/// Canonical text of a filter call: `col op value`, `(a ∨ b)`, `¬a`, `exists(subquery)`.
pub open spec fn filter_text(k: SceneView, env: EnvView, c: CallView, fuel: nat) -> Text
    decreases fuel, 2int, c, 0int,
{
    let method = method_of(c.callee);
    let both = method == "and"@ || method == "or"@;
    if c.args.len() == 1 {
        let x = c.args[0];
        match x {
            ExprView::Array(items) => if both {
                "("@ + text::joined(
                    predicates_from(k, env, items, fuel, 0),
                    if method == "and"@ {
                        " ∧ "@
                    } else {
                        " ∨ "@
                    },
                ) + ")"@
            } else {
                filter_of_one(
                    method,
                    query_text(k, env, x, seq![], fuel),
                    predicate_text(k, env, x, fuel),
                )
            },
            _ => filter_of_one(
                method,
                query_text(k, env, x, seq![], fuel),
                predicate_text(k, env, x, fuel),
            ),
        }
    } else if c.args.len() == 3 {
        operand_text(k, env, c.args[0], fuel) + " "@ + operand_text(k, env, c.args[1], fuel) + " "@
            + operand_text(k, env, c.args[2], fuel)
    } else {
        method + "("@ + text::joined(operands_from(k, env, c.args, fuel, 0), ", "@) + ")"@
    }
}

/// The text of a filter call with one argument, given the argument as a subquery (if it is
/// one) and as a predicate.
pub open spec fn filter_of_one(method: Text, query: Option<Text>, predicate: Text) -> Text {
    if method == "not"@ {
        "¬"@ + predicate
    } else if method == "exists"@ {
        "exists("@ + (match query {
            Some(q) => q,
            None => predicate,
        }) + ")"@
    } else if method == "and"@ || method == "or"@ {
        method + "("@ + predicate + ")"@
    } else {
        predicate
    }
}

/// The predicate that a closure returns.
pub open spec fn closure_predicate(k: SceneView, id: Text, fuel: nat) -> Text
    decreases fuel, 1int, ExprView::Null, 0int,
{
    match (returned_by(k.ix, id), lookup(k.envs.by_fn, id)) {
        (Some(r), Some(cenv)) => if fuel == 0 {
            "`<callback>`"@
        } else {
            predicate_text(k, cenv, r, (fuel - 1) as nat)
        },
        _ => "`<callback>`"@,
    }
}

/// A whole predicate: as an operand, but one built dynamically keeps its source text
/// (`eb.and(predicates)`), so that it can be told apart.
pub open spec fn predicate_text(k: SceneView, env: EnvView, e: ExprView, fuel: nat) -> Text
    decreases fuel, 2int, e, 2int,
{
    match e {
        ExprView::Closure(id) => closure_predicate(k, id, fuel),
        _ => {
            let v = operand_text(k, env, e, fuel);
            if v == "_"@ {
                "`"@ + expr_text(e) + "`"@
            } else {
                v
            }
        },
    }
}

/// The operand that a closure returns.
pub open spec fn closure_operand(k: SceneView, id: Text, fuel: nat) -> Text
    decreases fuel, 1int, ExprView::Null, 0int,
{
    match (returned_by(k.ix, id), lookup(k.envs.by_fn, id)) {
        (Some(r), Some(cenv)) => if fuel == 0 {
            "_"@
        } else {
            operand_text(k, cenv, r, (fuel - 1) as nat)
        },
        _ => "_"@,
    }
}

/// A filter operand: a constant, a nested predicate, what a callback returns, or a subquery.
/// Anything else is `_`.
pub open spec fn operand_text(k: SceneView, env: EnvView, e: ExprView, fuel: nat) -> Text
    decreases fuel, 2int, e, 1int,
{
    match constant(k.ix, env, e) {
        Some(v) => v,
        None => match e {
            ExprView::Await(x) => operand_text(k, env, *x, fuel),
            ExprView::Array(xs) => "["@ + text::joined(operands_from(k, env, xs, fuel, 0), ", "@)
                + "]"@,
            ExprView::Closure(id) => closure_operand(k, id, fuel),
            ExprView::Ident(n) => match closure_passed(k.ix, env, e) {
                Some(id) => closure_operand(k, id, fuel),
                None => "_"@,
            },
            ExprView::Call(c) => match query_text(k, env, e, seq![], fuel) {
                Some(q) => "("@ + q + ")"@,
                None => match called(k.ix, env, c.callee) {
                    CalleeView::External(api) => if any_fits(k.cat.filter, segments_of(api)) {
                        filter_text(k, env, *c, fuel)
                    } else if any_fits(k.cat.literal, segments_of(api)) && c.args.len() > 0 {
                        operand_text(k, env, c.args[0], fuel)
                    } else {
                        "_"@
                    },
                    _ => "_"@,
                },
            },
            _ => "_"@,
        },
    }
}

/// Whether a call reads from the database.
pub open spec fn is_read(cat: CatalogView, api: Text) -> bool {
    effect_from(cat.effect, segments_of(api), 0) matches Some(rule) && rule.kind == "db_read"@
}

/// A subquery chain as `table where f1 ∧ f2`, if `e` is one; `filters` are those of the links
/// after `e`, the last one first.
pub open spec fn query_text(
    k: SceneView,
    env: EnvView,
    e: ExprView,
    filters: Seq<Text>,
    fuel: nat,
) -> Option<Text>
    decreases fuel, 2int, e, 0int,
{
    match e {
        ExprView::Call(c) => match c.callee {
            ExprView::Member { object, property } => match called(k.ix, env, c.callee) {
                CalleeView::External(api) => if is_read(k.cat, api) {
                    let table = if c.args.len() > 0 {
                        operand_text(k, env, c.args[0], fuel)
                    } else {
                        "_"@
                    };
                    Some(
                        if filters.len() == 0 {
                            table
                        } else {
                            table + " where "@ + text::joined(filters.reverse(), " ∧ "@)
                        },
                    )
                } else {
                    query_text(
                        k,
                        env,
                        *object,
                        if any_fits(k.cat.filter, segments_of(api)) {
                            filters.push(filter_text(k, env, *c, fuel))
                        } else {
                            filters
                        },
                        fuel,
                    )
                },
                _ => None,
            },
            _ => None,
        },
        _ => None,
    }
}

fn reversed(v: &Vec<String>) -> (r: Vec<String>)
    ensures
        r.deep_view() == v.deep_view().reverse(),
{
    let mut out: Vec<String> = list::empty();
    let mut n: usize = v.len();
    while n > 0
        invariant
            n <= v@.len(),
            out.deep_view() == v.deep_view().skip(n as int).reverse(),
        decreases n,
    {
        list::push(&mut out, v[n - 1].dup());
        n -= 1;
        assert(out.deep_view() =~= v.deep_view().skip(n as int).reverse());
    }
    assert(v.deep_view().skip(0) =~= v.deep_view());
    out
}

impl<'a, 'p> Scene<'a, 'p> {
    fn predicates(&self, env: &Env, es: &Vec<Expr>, fuel: usize) -> (r: Vec<String>)
        ensures
            r.deep_view() == predicates_from(
                self.deep_view(),
                env.deep_view(),
                expr_list_view(es@),
                fuel as nat,
                0,
            ),
        decreases fuel, 2int, es, es@.len() + 1,
    {
        let ghost k = self.deep_view();
        let ghost ev = env.deep_view();
        let ghost v = expr_list_view(es@);
        let mut out: Vec<String> = list::empty();
        let mut i: usize = 0;
        while i < es.len()
            invariant
                i <= es@.len(),
                k == self.deep_view(),
                ev == env.deep_view(),
                v == expr_list_view(es@),
                out.deep_view() + predicates_from(k, ev, v, fuel as nat, i as int)
                    == predicates_from(k, ev, v, fuel as nat, 0),
            decreases es@.len() - i,
        {
            list::push(&mut out, self.predicate(env, &es[i], fuel));
            i += 1;
        }
        out
    }

    fn operands(&self, env: &Env, es: &Vec<Expr>, fuel: usize) -> (r: Vec<String>)
        ensures
            r.deep_view() == operands_from(
                self.deep_view(),
                env.deep_view(),
                expr_list_view(es@),
                fuel as nat,
                0,
            ),
        decreases fuel, 2int, es, es@.len() + 1,
    {
        let ghost k = self.deep_view();
        let ghost ev = env.deep_view();
        let ghost v = expr_list_view(es@);
        let mut out: Vec<String> = list::empty();
        let mut i: usize = 0;
        while i < es.len()
            invariant
                i <= es@.len(),
                k == self.deep_view(),
                ev == env.deep_view(),
                v == expr_list_view(es@),
                out.deep_view() + operands_from(k, ev, v, fuel as nat, i as int) == operands_from(
                    k,
                    ev,
                    v,
                    fuel as nat,
                    0,
                ),
            decreases es@.len() - i,
        {
            list::push(&mut out, self.operand(env, &es[i], fuel));
            i += 1;
        }
        out
    }

    fn filter_one(&self, env: &Env, method: &str, x: &Expr, fuel: usize) -> (r: String)
        ensures
            r@ == filter_of_one(
                method@,
                query_text(self.deep_view(), env.deep_view(), x.deep_view(), seq![], fuel as nat),
                predicate_text(self.deep_view(), env.deep_view(), x.deep_view(), fuel as nat),
            ),
        decreases fuel, 2int, x, 3int,
    {
        if text::same(method, "not") {
            text::cat2("¬", &self.predicate(env, x, fuel))
        } else if text::same(method, "exists") {
            let inner = match self.query(env, x, list::empty(), fuel) {
                Some(q) => q,
                None => self.predicate(env, x, fuel),
            };
            text::cat3("exists(", &inner, ")")
        } else if text::same(method, "and") || text::same(method, "or") {
            text::cat4(method, "(", &self.predicate(env, x, fuel), ")")
        } else {
            self.predicate(env, x, fuel)
        }
    }

    fn filter(&self, env: &Env, c: &Call, fuel: usize) -> (r: String)
        ensures
            r@ == filter_text(self.deep_view(), env.deep_view(), call_view(*c), fuel as nat),
        decreases fuel, 2int, c, 0int,
    {
        let ghost cv = call_view(*c);
        let ghost ce = expr_view(c.callee);
        let ghost av = expr_list_view(c.args@);
        let method = match &c.callee {
            Expr::Member { object, property } => property.as_str(),
            _ => "",
        };
        if c.args.len() == 1 {
            assert(av[0] == expr_view(c.args@[0]));
            match &c.args[0] {
                Expr::Array(items) => {
                    let ghost iv = expr_list_view(items@);
                    if text::same(method, "and") {
                        let parts = self.predicates(env, items, fuel);
                        text::cat3("(", &text::join(&parts, " ∧ "), ")")
                    } else if text::same(method, "or") {
                        let parts = self.predicates(env, items, fuel);
                        text::cat3("(", &text::join(&parts, " ∨ "), ")")
                    } else {
                        self.filter_one(env, method, &c.args[0], fuel)
                    }
                },
                x => self.filter_one(env, method, x, fuel),
            }
        } else if c.args.len() == 3 {
            assert(av[0] == expr_view(c.args@[0]));
            assert(av[1] == expr_view(c.args@[1]));
            assert(av[2] == expr_view(c.args@[2]));
            text::cat5(
                &self.operand(env, &c.args[0], fuel),
                " ",
                &self.operand(env, &c.args[1], fuel),
                " ",
                &self.operand(env, &c.args[2], fuel),
            )
        } else {
            let parts = self.operands(env, &c.args, fuel);
            text::cat4(method, "(", &text::join(&parts, ", "), ")")
        }
    }

    fn predicate_of_closure(&self, id: &str, fuel: usize) -> (r: String)
        ensures
            r@ == closure_predicate(self.deep_view(), id@, fuel as nat),
        decreases fuel, 1int, ExprView::Null, 0int,
    {
        match (returned(self.ix, id), self.envs.by_fn.find(id)) {
            (Some(r), Some(cenv)) => if fuel == 0 {
                "`<callback>`".to_owned()
            } else {
                self.predicate(cenv, r, fuel - 1)
            },
            _ => "`<callback>`".to_owned(),
        }
    }

    fn predicate(&self, env: &Env, e: &Expr, fuel: usize) -> (r: String)
        ensures
            r@ == predicate_text(self.deep_view(), env.deep_view(), e.deep_view(), fuel as nat),
        decreases fuel, 2int, e, 2int,
    {
        match e {
            Expr::Closure(id) => self.predicate_of_closure(id, fuel),
            _ => {
                let v = self.operand(env, e, fuel);
                if text::same(&v, "_") {
                    text::cat3("`", &render(e), "`")
                } else {
                    v
                }
            },
        }
    }

    fn operand_of_closure(&self, id: &str, fuel: usize) -> (r: String)
        ensures
            r@ == closure_operand(self.deep_view(), id@, fuel as nat),
        decreases fuel, 1int, ExprView::Null, 0int,
    {
        match (returned(self.ix, id), self.envs.by_fn.find(id)) {
            (Some(r), Some(cenv)) => if fuel == 0 {
                "_".to_owned()
            } else {
                self.operand(cenv, r, fuel - 1)
            },
            _ => "_".to_owned(),
        }
    }

    #[verifier::rlimit(30)]
    fn operand(&self, env: &Env, e: &Expr, fuel: usize) -> (r: String)
        ensures
            r@ == operand_text(self.deep_view(), env.deep_view(), e.deep_view(), fuel as nat),
        decreases fuel, 2int, e, 1int,
    {
        if let Some(v) = self.ix.const_str(env, e) {
            return v;
        }
        match e {
            Expr::Await(x) => self.operand(env, x, fuel),
            Expr::Array(xs) => text::cat3(
                "[",
                &text::join(&self.operands(env, xs, fuel), ", "),
                "]",
            ),
            Expr::Closure(id) => self.operand_of_closure(id, fuel),
            Expr::Ident(n) => match passed_closure(self.ix, env, e) {
                Some(id) => self.operand_of_closure(&id, fuel),
                None => "_".to_owned(),
            },
            Expr::Call(c) => {
                let ghost cv = call_view(**c);
                let ghost av = expr_list_view(c.args@);
                match self.query(env, e, list::empty(), fuel) {
                    Some(q) => text::cat3("(", &q, ")"),
                    None => match self.ix.resolve_call(env, &c.callee) {
                        Callee::External(api) => if self.cat.is_filter(&api) {
                            self.filter(env, c, fuel)
                        } else if self.cat.is_literal(&api) && c.args.len() > 0 {
                            assert(av[0] == expr_view(c.args@[0]));
                            self.operand(env, &c.args[0], fuel)
                        } else {
                            "_".to_owned()
                        },
                        _ => "_".to_owned(),
                    },
                }
            },
            _ => "_".to_owned(),
        }
    }

    fn query(&self, env: &Env, e: &Expr, filters: Vec<String>, fuel: usize) -> (r: Option<String>)
        ensures
            r.deep_view() == query_text(
                self.deep_view(),
                env.deep_view(),
                e.deep_view(),
                filters.deep_view(),
                fuel as nat,
            ),
        decreases fuel, 2int, e, 0int,
    {
        match e {
            Expr::Call(c) => {
                let ghost cv = call_view(**c);
                let ghost ce = expr_view(c.callee);
                let ghost av = expr_list_view(c.args@);
                match &c.callee {
                    Expr::Member { object, property } => match self.ix.resolve_call(
                        env,
                        &c.callee,
                    ) {
                        Callee::External(api) => {
                            let read = match self.cat.effect_for(&api) {
                                Some(rule) => text::same(&rule.kind, "db_read"),
                                None => false,
                            };
                            if read {
                                let table = if c.args.len() > 0 {
                                    assert(av[0] == expr_view(c.args@[0]));
                                    self.operand(env, &c.args[0], fuel)
                                } else {
                                    "_".to_owned()
                                };
                                if filters.len() == 0 {
                                    Some(table)
                                } else {
                                    let all = text::join(&reversed(&filters), " ∧ ");
                                    Some(text::cat3(&table, " where ", &all))
                                }
                            } else {
                                let mut filters = filters;
                                if self.cat.is_filter(&api) {
                                    list::push(&mut filters, self.filter(env, c, fuel));
                                }
                                self.query(env, object, filters, fuel)
                            }
                        },
                        _ => None,
                    },
                    _ => None,
                }
            },
            _ => None,
        }
    }

    /// Canonical text of a filter call: `col op value`, `(a ∨ b)`, `¬a`, `exists(subquery)`.
    pub fn filter_call(&self, env: &Env, c: &Call) -> (r: String)
        ensures
            r@ == filter_text(
                self.deep_view(),
                env.deep_view(),
                call_view(*c),
                self.deep_view().ix.functions.len(),
            ),
    {
        self.filter(env, c, self.ix.functions.len())
    }
}

} // verus!
