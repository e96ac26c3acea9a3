//! Per-entity fact extraction: walks each lowered function body and records
//! calls, effects, reads, writes, guards, subscriptions and routes.

use crate::catalog;
use crate::catalog::{
    any_fits, effect_from, prop_from, route_from, segments_of, spec_value, subscribe_from, CallSite,
    SiteView,
};
use crate::ir::{
    call_view, expr_fields_view, expr_list_view, expr_view, jsx_view, BinOp, Call, CallView, Expr,
    ExprView, Loc, LocView, LogicOp,
};
use crate::list;
use crate::list::Plain;
use crate::model::{
    AccessFact, AccessFactView, CallFact, CallFactView, CallShape, CallShapeView, EffectFact,
    EffectFactView, EffectKey, EffectKeyView, GuardFact, GuardFactView, Output, OutputView,
    QueryFilter, QueryFilterView, Route, RouteView, Subscription, SubscriptionView, Unknown,
    UnknownView, WriteFact, WriteFactView,
};
use crate::ordered;
use crate::ordered::{added, lookup, put, set_of, sorted, SortedMap, SortedSet};
use crate::pred::{compared, negation, pred_text, simplified, Pred, PredView};
use crate::query::{filter_text, Scene, SceneView};
use crate::resolve::{Callee, CalleeView, Env, EnvView, Index, IndexView};
use crate::text;
use crate::text::Text;
use crate::typing::{called, constant, expr_text, expr_texts, field_at, render, render_list};
use vstd::prelude::*;

verus! {

/// The facts that a walk over a body collects.
#[derive(Debug, PartialEq)]
pub struct Facts {
    pub calls: Vec<CallFact>,
    pub effects: Vec<EffectFact>,
    pub reads: SortedMap<String, Loc>,
    pub writes: Vec<WriteFact>,
    pub guards: Vec<GuardFact>,
    pub outputs: Vec<Output>,
    pub throws: bool,
    pub subscriptions: Vec<Subscription>,
    pub routes: Vec<Route>,
    pub unknowns: Vec<Unknown>,
    pub call_shapes: Vec<CallShape>,
    pub filters: Vec<QueryFilter>,
    pub logs: Vec<CallShape>,
    pub access: Vec<AccessFact>,
    /// Closures registered as handlers or routes.
    pub consumed: SortedSet<String>,
}

/// The view of [`Facts`].
#[verifier::ext_equal]
pub struct FactsView {
    pub calls: Seq<CallFactView>,
    pub effects: Seq<EffectFactView>,
    pub reads: Seq<(Seq<char>, LocView)>,
    pub writes: Seq<WriteFactView>,
    pub guards: Seq<GuardFactView>,
    pub outputs: Seq<OutputView>,
    pub throws: bool,
    pub subscriptions: Seq<SubscriptionView>,
    pub routes: Seq<RouteView>,
    pub unknowns: Seq<UnknownView>,
    pub call_shapes: Seq<CallShapeView>,
    pub filters: Seq<QueryFilterView>,
    pub logs: Seq<CallShapeView>,
    pub access: Seq<AccessFactView>,
    pub consumed: Seq<Seq<char>>,
}

impl DeepView for Facts {
    type V = FactsView;

    open spec fn deep_view(&self) -> FactsView {
        FactsView { calls: self.calls.deep_view(), effects: self.effects.deep_view(), reads: self.reads.deep_view(), writes: self.writes.deep_view(), guards: self.guards.deep_view(), outputs: self.outputs.deep_view(), throws: self.throws, subscriptions: self.subscriptions.deep_view(), routes: self.routes.deep_view(), unknowns: self.unknowns.deep_view(), call_shapes: self.call_shapes.deep_view(), filters: self.filters.deep_view(), logs: self.logs.deep_view(), access: self.access.deep_view(), consumed: self.consumed.deep_view() }
    }
}

/// Where in a body the walk is.
#[derive(Debug, PartialEq)]
pub struct Place {
    /// Conditions under which the current statement runs: enclosing `if` tests and the
    /// negations of earlier early exits. Part of every call shape, so a condition added
    /// around a call is a change, while `if (c) { f() }` and `if (!c) return; f()` agree.
    /// Top-level guards are marked (`true`): guard facts already compare them.
    pub path: Vec<(Pred, bool)>,
    /// Inside a region that runs on some paths only.
    pub nested: bool,
    /// Inside the arguments of a query filter: only the outermost filter is recorded.
    pub filtered: bool,
}

/// The view of [`Place`].
#[verifier::ext_equal]
pub struct PlaceView {
    pub path: Seq<(PredView, bool)>,
    pub nested: bool,
    pub filtered: bool,
}

impl DeepView for Place {
    type V = PlaceView;

    open spec fn deep_view(&self) -> PlaceView {
        PlaceView { path: self.path.deep_view(), nested: self.nested, filtered: self.filtered }
    }
}

/// What a walk knows of the entity.
pub struct Cx<'a, 'p> {
    pub scene: &'a Scene<'a, 'p>,
    pub env: &'a Env,
    pub id: &'a String,
    pub module: String,
    /// Names of common table expressions in scope: reading one is not a table read.
    pub ctes: SortedSet<String>,
}

/// The view of [`Cx`].
#[verifier::ext_equal]
pub struct CxView {
    pub scene: SceneView,
    pub env: EnvView,
    pub id: Text,
    pub module: Text,
    pub ctes: Seq<Text>,
}

impl<'a, 'p> DeepView for Cx<'a, 'p> {
    type V = CxView;

    open spec fn deep_view(&self) -> CxView {
        CxView {
            scene: self.scene.deep_view(),
            env: self.env.deep_view(),
            id: self.id@,
            module: self.module@,
            ctes: self.ctes.deep_view(),
        }
    }
}

// ---- predicates

/// What a predicate is about: a typed field, or the expression itself.
pub open spec fn subject_text(cx: CxView, e: ExprView) -> Text {
    match e {
        ExprView::Member { object, property } => match field_at(
            cx.scene.ix,
            cx.env,
            *object,
            property,
        ) {
            Some(f) => f,
            None => expr_text(e),
        },
        _ => expr_text(e),
    }
}

/// The sign of a comparison.
pub open spec fn comparison_sign(op: BinOp) -> Text {
    match op {
        BinOp::Eq => "=="@,
        BinOp::NotEq => "!="@,
        BinOp::Lt => "<"@,
        BinOp::LtEq => "<="@,
        BinOp::Gt => ">"@,
        _ => ">="@,
    }
}

/// The operator with its operands swapped: `a < b` is `b > a`.
pub open spec fn flipped(op: Text) -> Text {
    if op == "<"@ {
        ">"@
    } else if op == "<="@ {
        ">="@
    } else if op == ">"@ {
        "<"@
    } else if op == ">="@ {
        "<="@
    } else {
        op
    }
}

/// The number of the items of a list, a text or a collection.
pub open spec fn is_size(subject: Text) -> bool {
    text::ends(subject, ".length"@) || text::ends(subject, ".size"@)
}

/// A comparison of a subject with a constant. A size is never negative: `n > 0`, `n >= 1` and
/// `n != 0` all mean `n ∉ {0}`.
pub open spec fn constant_comparison(subject: Text, sign: Text, value: Text) -> PredView {
    if sign == "=="@ {
        PredView::In { field: subject, values: added(seq![], value) }
    } else if sign == "!="@ {
        PredView::NotIn { field: subject, values: added(seq![], value) }
    } else if is_size(subject) && ((sign == ">"@ && value == "0"@) || (sign == ">="@ && value == "1"@)) {
        PredView::NotIn { field: subject, values: added(seq![], "0"@) }
    } else if is_size(subject) && ((sign == "<"@ && value == "1"@) || (sign == "<="@ && value == "0"@)) {
        PredView::In { field: subject, values: added(seq![], "0"@) }
    } else {
        compared(subject, sign, value)
    }
}

/// A comparison, with the constant (if there is one) on the right: `0 < n` is `n > 0`.
pub open spec fn comparison(cx: CxView, op: BinOp, left: ExprView, right: ExprView) -> PredView {
    let sign = comparison_sign(op);
    match (constant(cx.scene.ix, cx.env, left), constant(cx.scene.ix, cx.env, right)) {
        (None, Some(v)) => constant_comparison(subject_text(cx, left), sign, v),
        (Some(v), None) => constant_comparison(subject_text(cx, right), flipped(sign), v),
        _ => compared(subject_text(cx, left), sign, subject_text(cx, right)),
    }
}

/// The constants of the items from index `i` on, added to `acc`, if all are constant.
pub open spec fn constants_from(cx: CxView, items: Seq<ExprView>, i: int, acc: Seq<Text>) -> Option<
    Seq<Text>,
>
    decreases items.len() - i,
{
    if 0 <= i < items.len() {
        match constant(cx.scene.ix, cx.env, items[i]) {
            Some(v) => constants_from(cx, items, i + 1, added(acc, v)),
            None => None,
        }
    } else {
        Some(acc)
    }
}

/// `[A, B].includes(x)` with constants `A`, `B`.
pub open spec fn inclusion(cx: CxView, c: CallView) -> Option<PredView> {
    match c.callee {
        ExprView::Member { object, property } => match *object {
            ExprView::Array(items) => if property == "includes"@ && c.args.len() > 0 {
                match constants_from(cx, items, 0, seq![]) {
                    Some(values) => Some(
                        PredView::In { field: subject_text(cx, c.args[0]), values },
                    ),
                    None => None,
                }
            } else {
                None
            },
            _ => None,
        },
        _ => None,
    }
}

/// What a call says where it stands as a condition. An external one goes by its canonical
/// name, so `semver.satisfies(v)` and `satisfies(v)` agree.
pub open spec fn call_condition(cx: CxView, c: CallView) -> PredView {
    match inclusion(cx, c) {
        Some(p) => p,
        None => match called(cx.scene.ix, cx.env, c.callee) {
            CalleeView::Internal(entity) => PredView::Call { entity, negated: false },
            CalleeView::External(canon) => PredView::Opaque {
                text: text::trimmed_end(canon, "()"@) + "("@ + text::joined(
                    expr_texts(c.args, 0),
                    ", "@,
                ) + ")"@,
                negated: false,
            },
            CalleeView::Unresolved(_) => PredView::Opaque {
                text: expr_text(ExprView::Call(Box::new(c))),
                negated: false,
            },
        },
    }
}

/// The predicate that a condition states.
pub open spec fn condition(cx: CxView, e: ExprView) -> PredView
    decreases e,
{
    match e {
        ExprView::Binary { op, left, right } => if op != BinOp::Other {
            comparison(cx, op, *left, *right)
        } else {
            PredView::Opaque { text: expr_text(e), negated: false }
        },
        ExprView::Logical { op, left, right } => match op {
            LogicOp::And => simplified(
                PredView::And(seq![condition(cx, *left), condition(cx, *right)]),
            ),
            LogicOp::Or => simplified(
                PredView::Or(seq![condition(cx, *left), condition(cx, *right)]),
            ),
            LogicOp::Coalesce => PredView::Opaque { text: expr_text(e), negated: false },
        },
        ExprView::Not(x) => negation(condition(cx, *x)),
        ExprView::Await(x) => condition(cx, *x),
        ExprView::Call(c) => call_condition(cx, *c),
        ExprView::Member { object, property } => PredView::Truthy(subject_text(cx, e)),
        ExprView::Ident(_) => PredView::Truthy(subject_text(cx, e)),
        ExprView::Bool(b) => if b {
            PredView::True
        } else {
            PredView::False
        },
        _ => PredView::Opaque { text: expr_text(e), negated: false },
    }
}

impl<'a, 'p> Cx<'a, 'p> {
    /// The constant value of an expression.
    pub fn constant_of(&self, e: &Expr) -> (r: Option<String>)
        ensures
            r.deep_view() == constant(
                self.deep_view().scene.ix,
                self.deep_view().env,
                e.deep_view(),
            ),
    {
        self.scene.ix.const_str(self.env, e)
    }

    fn subject(&self, e: &Expr) -> (r: String)
        ensures
            r@ == subject_text(self.deep_view(), e.deep_view()),
    {
        match e {
            Expr::Member { object, property } => match self.scene.ix.field_path(
                self.env,
                object,
                property,
            ) {
                Some(f) => f,
                None => render(e),
            },
            other => render(other),
        }
    }

    fn against_constant(&self, subject: String, sign: &str, value: String) -> (r: Pred)
        ensures
            r.deep_view() == constant_comparison(subject@, sign@, value@),
    {
        let is_size = text::ends_with(&subject, ".length") || text::ends_with(&subject, ".size");
        let mut values: SortedSet<String> = SortedSet::new();
        if text::same(sign, "==") {
            values.insert(value);
            Pred::In { field: subject, values }
        } else if text::same(sign, "!=") {
            values.insert(value);
            Pred::NotIn { field: subject, values }
        } else if is_size && ((text::same(sign, ">") && text::same(&value, "0")) || (text::same(
            sign,
            ">=",
        ) && text::same(&value, "1"))) {
            values.insert("0".to_owned());
            Pred::NotIn { field: subject, values }
        } else if is_size && ((text::same(sign, "<") && text::same(&value, "1")) || (text::same(
            sign,
            "<=",
        ) && text::same(&value, "0"))) {
            values.insert("0".to_owned());
            Pred::In { field: subject, values }
        } else {
            Pred::compare(subject, sign, value)
        }
    }

    fn compare(&self, op: BinOp, left: &Expr, right: &Expr) -> (r: Pred)
        ensures
            r.deep_view() == comparison(
                self.deep_view(),
                op,
                left.deep_view(),
                right.deep_view(),
            ),
    {
        let sign = match op {
            BinOp::Eq => "==",
            BinOp::NotEq => "!=",
            BinOp::Lt => "<",
            BinOp::LtEq => "<=",
            BinOp::Gt => ">",
            _ => ">=",
        };
        match (self.constant_of(left), self.constant_of(right)) {
            (None, Some(v)) => self.against_constant(self.subject(left), sign, v),
            (Some(v), None) => self.against_constant(self.subject(right), flip(sign), v),
            _ => Pred::compare(self.subject(left), sign, self.subject(right)),
        }
    }

    fn constants(&self, items: &Vec<Expr>) -> (r: Option<SortedSet<String>>)
        ensures
            r.deep_view() == constants_from(
                self.deep_view(),
                expr_list_view(items@),
                0,
                seq![],
            ),
    {
        let ghost cx = self.deep_view();
        let ghost v = expr_list_view(items@);
        let mut out: SortedSet<String> = SortedSet::new();
        let mut i: usize = 0;
        while i < items.len()
            invariant
                i <= items@.len(),
                cx == self.deep_view(),
                v == expr_list_view(items@),
                constants_from(cx, v, i as int, out.deep_view()) == constants_from(
                    cx,
                    v,
                    0,
                    seq![],
                ),
            decreases items@.len() - i,
        {
            match self.constant_of(&items[i]) {
                Some(c) => {
                    out.insert(c);
                },
                None => {
                    return None;
                },
            }
            i += 1;
        }
        Some(out)
    }

    fn included(&self, c: &Call) -> (r: Option<Pred>)
        ensures
            r.deep_view() == inclusion(self.deep_view(), call_view(*c)),
    {
        let ghost ce = expr_view(c.callee);
        let ghost av = expr_list_view(c.args@);
        match &c.callee {
            Expr::Member { object, property } => {
                let ghost ov = expr_view(**object);
                match &**object {
                    Expr::Array(items) => {
                        let ghost iv = expr_list_view(items@);
                        if text::same(property, "includes") && c.args.len() > 0 {
                            assert(av[0] == expr_view(c.args@[0]));
                            match self.constants(items) {
                                Some(values) => Some(
                                    Pred::In { field: self.subject(&c.args[0]), values },
                                ),
                                None => None,
                            }
                        } else {
                            None
                        }
                    },
                    _ => None,
                }
            },
            _ => None,
        }
    }

    fn call_pred(&self, c: &Call, whole: &Expr) -> (r: Pred)
        requires
            whole.deep_view() == ExprView::Call(Box::new(call_view(*c))),
        ensures
            r.deep_view() == call_condition(self.deep_view(), call_view(*c)),
    {
        let ghost cv = call_view(*c);
        if let Some(p) = self.included(c) {
            return p;
        }
        match self.scene.ix.resolve_call(self.env, &c.callee) {
            Callee::Internal(entity) => Pred::Call { entity, negated: false },
            Callee::External(canon) => {
                let args = text::join(&render_list(&c.args), ", ");
                Pred::Opaque {
                    text: text::cat4(&text::trim_end(&canon, "()"), "(", &args, ")"),
                    negated: false,
                }
            },
            Callee::Unresolved(_) => Pred::Opaque { text: render(whole), negated: false },
        }
    }

    /// The predicate that a condition states.
    pub fn pred(&self, e: &Expr) -> (r: Pred)
        ensures
            r.deep_view() == condition(self.deep_view(), e.deep_view()),
        decreases e,
    {
        broadcast use crate::pred::pred_list_view_is_deep;

        match e {
            Expr::Binary { op, left, right } => if op.is_comparison() {
                self.compare(*op, left, right)
            } else {
                Pred::Opaque { text: render(e), negated: false }
            },
            Expr::Logical { op, left, right } => match op {
                LogicOp::And => {
                    let mut parts: Vec<Pred> = list::one(self.pred(left));
                    list::push(&mut parts, self.pred(right));
                    assert(parts.deep_view() =~= seq![
                        condition(self.deep_view(), left.deep_view()),
                        condition(self.deep_view(), right.deep_view()),
                    ]);
                    Pred::And(parts).simplify()
                },
                LogicOp::Or => {
                    let mut parts: Vec<Pred> = list::one(self.pred(left));
                    list::push(&mut parts, self.pred(right));
                    assert(parts.deep_view() =~= seq![
                        condition(self.deep_view(), left.deep_view()),
                        condition(self.deep_view(), right.deep_view()),
                    ]);
                    Pred::Or(parts).simplify()
                },
                LogicOp::Coalesce => Pred::Opaque { text: render(e), negated: false },
            },
            Expr::Not(x) => self.pred(x).negate(),
            Expr::Await(x) => self.pred(x),
            Expr::Call(c) => self.call_pred(c, e),
            Expr::Member { object, property } => Pred::Truthy(self.subject(e)),
            Expr::Ident(_) => Pred::Truthy(self.subject(e)),
            Expr::Bool(b) => if *b {
                Pred::True
            } else {
                Pred::False
            },
            other => Pred::Opaque { text: render(other), negated: false },
        }
    }
}

fn flip(op: &str) -> (r: &str)
    ensures
        r@ == flipped(op@),
{
    if text::same(op, "<") {
        ">"
    } else if text::same(op, "<=") {
        ">="
    } else if text::same(op, ">") {
        "<"
    } else if text::same(op, ">=") {
        "<="
    } else {
        op
    }
}

// ---- call shapes

/// The texts of the conditions from index `i` on that are guards (or are not).
pub open spec fn path_texts(path: Seq<(PredView, bool)>, guards: bool, i: int) -> Seq<Text>
    decreases path.len() - i,
{
    if 0 <= i < path.len() {
        (if path[i].1 == guards {
            seq![pred_text(path[i].0)]
        } else {
            seq![]
        }) + path_texts(path, guards, i + 1)
    } else {
        seq![]
    }
}

/// The current path conditions (`guards`: the entity's own guards), in order and each once.
pub open spec fn conditions_at(path: Seq<(PredView, bool)>, guards: bool) -> Seq<Text> {
    set_of(path_texts(path, guards, 0))
}

/// A call shape at a place.
pub open spec fn shape_at(p: PlaceView, shape: Text, target: Option<Text>, loc: LocView) -> CallShapeView {
    CallShapeView {
        shape,
        target,
        when: conditions_at(p.path, false),
        guards: conditions_at(p.path, true),
        loc,
    }
}

/// The target of a call by its short name (stable across moves). A fluent chain goes by its
/// root and its last method, so inserting a `.where()` changes one shape rather than every
/// later link of the chain.
pub open spec fn target_text(callee: CalleeView) -> Text {
    match callee {
        CalleeView::Internal(id) => text::after_last(id, "::"@),
        CalleeView::External(canon) => {
            let bare = text::trimmed_end(canon, "()"@);
            let links = text::pieces(bare, "()."@);
            if links.len() >= 2 {
                links[0] + "()…"@ + links[links.len() - 1]
            } else {
                bare
            }
        },
        CalleeView::Unresolved(t) => t,
    }
}

/// The keys of an object argument from index `i` on, with their constant values. Access keys
/// are left out: access facts cover them.
pub open spec fn shape_keys(cx: CxView, props: Seq<(Text, ExprView)>, i: int) -> Seq<Text>
    decreases props.len() - i,
{
    if 0 <= i < props.len() {
        (if cx.scene.cat.access.keys.contains(props[i].0) {
            seq![]
        } else {
            match constant(cx.scene.ix, cx.env, props[i].1) {
                Some(v) => seq![props[i].0 + "="@ + text::quoted(v)],
                None => seq![props[i].0],
            }
        }) + shape_keys(cx, props, i + 1)
    } else {
        seq![]
    }
}

/// A boolean or null, which a call shape has as it is written.
pub open spec fn is_bare(a: ExprView) -> bool {
    a is Bool || a is Null
}

/// An argument in a call shape: a constant by value (quoted, unless it is a boolean or null), an
/// object literal by its keys, anything else as `_`.
pub open spec fn arg_shape(cx: CxView, a: ExprView) -> Text {
    match constant(cx.scene.ix, cx.env, a) {
        Some(v) => if is_bare(a) {
            v
        } else {
            text::quoted(v)
        },
        None => match a {
            ExprView::Object(props) => "{"@ + text::joined(
                sorted(shape_keys(cx, props, 0)),
                ", "@,
            ) + "}"@,
            _ => "_"@,
        },
    }
}

/// The shapes of the arguments from index `i` on.
pub open spec fn arg_shapes(cx: CxView, args: Seq<ExprView>, i: int) -> Seq<Text>
    decreases args.len() - i,
{
    if 0 <= i < args.len() {
        seq![arg_shape(cx, args[i])] + arg_shapes(cx, args, i + 1)
    } else {
        seq![]
    }
}

/// `target(args)`.
pub open spec fn call_shape_of(cx: CxView, callee: ExprView, args: Seq<ExprView>) -> Text {
    target_text(called(cx.scene.ix, cx.env, callee)) + "("@ + text::joined(
        arg_shapes(cx, args, 0),
        ", "@,
    ) + ")"@
}

/// The current path conditions (`guards`: the entity's own guards).
pub fn conditions(path: &Vec<(Pred, bool)>, guards: bool) -> (r: Vec<String>)
    ensures
        r.deep_view() == conditions_at(path.deep_view(), guards),
{
    let ghost v = path.deep_view();
    let mut out: Vec<String> = list::empty();
    let mut i: usize = 0;
    while i < path.len()
        invariant
            i <= path@.len(),
            v == path.deep_view(),
            out.deep_view() + path_texts(v, guards, i as int) == path_texts(v, guards, 0),
        decreases path@.len() - i,
    {
        if path[i].1 == guards {
            list::push(&mut out, path[i].0.render());
        }
        i += 1;
    }
    SortedSet::of(&out).list()
}

impl Place {
    fn shape(&self, shape: String, target: Option<String>, loc: &Loc) -> (r: CallShape)
        ensures
            r.deep_view() == shape_at(
                self.deep_view(),
                shape@,
                target.deep_view(),
                loc.deep_view(),
            ),
    {
        CallShape {
            shape,
            target,
            when: conditions(&self.path, false),
            guards: conditions(&self.path, true),
            loc: loc.dup(),
        }
    }

    /// The place under a further condition.
    pub fn under(&self, p: Pred, guard: bool, nested: bool) -> (r: Place)
        ensures
            r.deep_view() == under_condition(self.deep_view(), p.deep_view(), guard, nested),
    {
        let mut path = self.path.dup();
        list::push(&mut path, (p, guard));
        Place { path, nested: self.nested || nested, filtered: self.filtered }
    }

    /// The place inside a region.
    pub fn inside(&self, nested: bool, filtered: bool) -> (r: Place)
        ensures
            r.deep_view() == inside_region(self.deep_view(), nested, filtered),
    {
        Place {
            path: self.path.dup(),
            nested: self.nested || nested,
            filtered: self.filtered || filtered,
        }
    }
}

/// The place under a further condition.
pub open spec fn under_condition(p: PlaceView, c: PredView, guard: bool, nested: bool) -> PlaceView {
    PlaceView {
        path: p.path.push((c, guard)),
        nested: p.nested || nested,
        filtered: p.filtered,
    }
}

/// The place inside a region.
pub open spec fn inside_region(p: PlaceView, nested: bool, filtered: bool) -> PlaceView {
    PlaceView {
        path: p.path,
        nested: p.nested || nested,
        filtered: p.filtered || filtered,
    }
}

impl<'a, 'p> Cx<'a, 'p> {
    fn target(&self, callee: &Expr) -> (r: String)
        ensures
            r@ == target_text(
                called(self.deep_view().scene.ix, self.deep_view().env, callee.deep_view()),
            ),
    {
        match self.scene.ix.resolve_call(self.env, callee) {
            Callee::Internal(id) => text::last_piece(&id, "::"),
            Callee::External(canon) => {
                let bare = text::trim_end(&canon, "()");
                let links = text::split(&bare, "().");
                if links.len() >= 2 {
                    text::cat3(&links[0], "()…", &links[links.len() - 1])
                } else {
                    bare
                }
            },
            Callee::Unresolved(t) => t,
        }
    }

    fn keys(&self, props: &Vec<(String, Expr)>) -> (r: Vec<String>)
        ensures
            r.deep_view() == shape_keys(self.deep_view(), expr_fields_view(props@), 0),
    {
        let ghost cx = self.deep_view();
        let ghost v = expr_fields_view(props@);
        let mut out: Vec<String> = list::empty();
        let mut i: usize = 0;
        while i < props.len()
            invariant
                i <= props@.len(),
                cx == self.deep_view(),
                v == expr_fields_view(props@),
                out.deep_view() + shape_keys(cx, v, i as int) == shape_keys(cx, v, 0),
            decreases props@.len() - i,
        {
            assert(v[i as int] == (props@[i as int].0@, expr_view(props@[i as int].1)));
            if !self.scene.cat.is_access_key(&props[i].0) {
                match self.constant_of(&props[i].1) {
                    Some(c) => {
                        list::push(&mut out, text::cat3(&props[i].0, "=", &text::quote(&c)));
                    },
                    None => {
                        list::push(&mut out, props[i].0.dup());
                    },
                }
            }
            i += 1;
        }
        out
    }

    fn arg(&self, a: &Expr) -> (r: String)
        ensures
            r@ == arg_shape(self.deep_view(), a.deep_view()),
    {
        match self.constant_of(a) {
            Some(v) => match a {
                Expr::Bool(_) => v,
                Expr::Null => v,
                _ => text::quote(&v),
            },
            None => match a {
                Expr::Object(props) => {
                    let ghost pv = expr_fields_view(props@);
                    let keys = ordered::sort(self.keys(props));
                    text::cat3("{", &text::join(&keys, ", "), "}")
                },
                _ => "_".to_owned(),
            },
        }
    }

    fn call_shape(&self, callee: &Expr, args: &Vec<Expr>) -> (r: String)
        ensures
            r@ == call_shape_of(self.deep_view(), callee.deep_view(), expr_list_view(args@)),
    {
        let ghost cx = self.deep_view();
        let ghost v = expr_list_view(args@);
        let mut out: Vec<String> = list::empty();
        let mut i: usize = 0;
        while i < args.len()
            invariant
                i <= args@.len(),
                cx == self.deep_view(),
                v == expr_list_view(args@),
                out.deep_view() + arg_shapes(cx, v, i as int) == arg_shapes(cx, v, 0),
            decreases args@.len() - i,
        {
            list::push(&mut out, self.arg(&args[i]));
            i += 1;
        }
        assert(out.deep_view() =~= arg_shapes(cx, v, 0));
        text::cat4(&self.target(callee), "(", &text::join(&out, ", "), ")")
    }
}

// ---- access requirements

/// The values that the expressions from index `i` on require, `_` for one that is not constant.
pub open spec fn access_values(cx: CxView, es: Seq<ExprView>, i: int) -> Seq<Text>
    decreases es.len() - i,
{
    if 0 <= i < es.len() {
        seq![access_value(cx, es[i])] + access_values(cx, es, i + 1)
    } else {
        seq![]
    }
}

/// The value that an expression requires, `_` where it is not constant.
pub open spec fn access_value(cx: CxView, e: ExprView) -> Text {
    match constant(cx.scene.ix, cx.env, e) {
        Some(v) => v,
        None => "_"@,
    }
}

/// The requirements `key=value` for the values from index `i` on.
pub open spec fn requirements(
    key: Text,
    values: Seq<Text>,
    grant: bool,
    loc: LocView,
    i: int,
) -> Seq<AccessFactView>
    decreases values.len() - i,
{
    if 0 <= i < values.len() {
        seq![AccessFactView { requirement: key + "="@ + values[i], grant, loc }] + requirements(
            key,
            values,
            grant,
            loc,
            i + 1,
        )
    } else {
        seq![]
    }
}

/// The access requirements that the properties from index `i` on state.
pub open spec fn access_in_props(
    cx: CxView,
    props: Seq<(Text, ExprView)>,
    loc: LocView,
    i: int,
) -> Seq<AccessFactView>
    decreases props.len() - i,
{
    if 0 <= i < props.len() {
        (if cx.scene.cat.access.keys.contains(props[i].0) {
            requirements(
                props[i].0,
                match props[i].1 {
                    ExprView::Array(xs) => access_values(cx, xs, 0),
                    e => seq![access_value(cx, e)],
                },
                cx.scene.cat.access.grants.contains(props[i].0),
                loc,
                0,
            )
        } else {
            seq![]
        }) + access_in_props(cx, props, loc, i + 1)
    } else {
        seq![]
    }
}

/// The access requirements in the object arguments from index `i` on:
/// `{ auth, permission: Permission.AlbumRead }`.
pub open spec fn access_in_args(cx: CxView, args: Seq<ExprView>, loc: LocView, i: int) -> Seq<
    AccessFactView,
>
    decreases args.len() - i,
{
    if 0 <= i < args.len() {
        (match args[i] {
            ExprView::Object(props) => access_in_props(cx, props, loc, 0),
            _ => seq![],
        }) + access_in_args(cx, args, loc, i + 1)
    } else {
        seq![]
    }
}

impl<'a, 'p> Cx<'a, 'p> {
    fn required(&self, e: &Expr) -> (r: String)
        ensures
            r@ == access_value(self.deep_view(), e.deep_view()),
    {
        match self.constant_of(e) {
            Some(v) => v,
            None => "_".to_owned(),
        }
    }

    fn required_values(&self, e: &Expr) -> (r: Vec<String>)
        ensures
            r.deep_view() == match e.deep_view() {
                ExprView::Array(xs) => access_values(self.deep_view(), xs, 0),
                x => seq![access_value(self.deep_view(), x)],
            },
    {
        match e {
            Expr::Array(xs) => {
                let ghost cx = self.deep_view();
                let ghost v = expr_list_view(xs@);
                let mut out: Vec<String> = list::empty();
                let mut i: usize = 0;
                while i < xs.len()
                    invariant
                        i <= xs@.len(),
                        cx == self.deep_view(),
                        v == expr_list_view(xs@),
                        out.deep_view() + access_values(cx, v, i as int) == access_values(
                            cx,
                            v,
                            0,
                        ),
                    decreases xs@.len() - i,
                {
                    list::push(&mut out, self.required(&xs[i]));
                    i += 1;
                }
                assert(out.deep_view() =~= access_values(cx, v, 0));
                out
            },
            x => list::one(self.required(x)),
        }
    }

    fn access_of_props(&self, props: &Vec<(String, Expr)>, loc: &Loc, out: &mut Vec<AccessFact>)
        ensures
            final(out).deep_view() == old(out).deep_view() + access_in_props(
                self.deep_view(),
                expr_fields_view(props@),
                loc.deep_view(),
                0,
            ),
    {
        let ghost cx = self.deep_view();
        let ghost v = expr_fields_view(props@);
        let ghost lv = loc.deep_view();
        let ghost before = out.deep_view();
        let mut i: usize = 0;
        while i < props.len()
            invariant
                i <= props@.len(),
                cx == self.deep_view(),
                v == expr_fields_view(props@),
                lv == loc.deep_view(),
                out.deep_view() + access_in_props(cx, v, lv, i as int) == before
                    + access_in_props(cx, v, lv, 0),
            decreases props@.len() - i,
        {
            assert(v[i as int] == (props@[i as int].0@, expr_view(props@[i as int].1)));
            if self.scene.cat.is_access_key(&props[i].0) {
                let values = self.required_values(&props[i].1);
                let ghost vv = values.deep_view();
                let grant = list::has(&self.scene.cat.access.grants, &props[i].0);
                let ghost here = out.deep_view();
                let ghost key = props@[i as int].0@;
                let mut j: usize = 0;
                while j < values.len()
                    invariant
                        i < props@.len(),
                        j <= values@.len(),
                        vv == values.deep_view(),
                        lv == loc.deep_view(),
                        key == props@[i as int].0@,
                        out.deep_view() + requirements(key, vv, grant, lv, j as int) == here
                            + requirements(key, vv, grant, lv, 0),
                    decreases values@.len() - j,
                {
                    list::push(
                        out,
                        AccessFact {
                            requirement: text::cat3(&props[i].0, "=", &values[j]),
                            grant,
                            loc: loc.dup(),
                        },
                    );
                    j += 1;
                }
                assert(out.deep_view() =~= here + requirements(key, vv, grant, lv, 0));
            }
            i += 1;
        }
        assert(out.deep_view() =~= before + access_in_props(cx, v, lv, 0));
    }

    /// Records the access requirements in object arguments.
    pub fn access_of_args(&self, args: &Vec<Expr>, loc: &Loc, out: &mut Vec<AccessFact>)
        ensures
            final(out).deep_view() == old(out).deep_view() + access_in_args(
                self.deep_view(),
                expr_list_view(args@),
                loc.deep_view(),
                0,
            ),
    {
        let ghost cx = self.deep_view();
        let ghost v = expr_list_view(args@);
        let ghost lv = loc.deep_view();
        let ghost before = out.deep_view();
        let mut i: usize = 0;
        while i < args.len()
            invariant
                i <= args@.len(),
                cx == self.deep_view(),
                v == expr_list_view(args@),
                lv == loc.deep_view(),
                out.deep_view() + access_in_args(cx, v, lv, i as int) == before + access_in_args(
                    cx,
                    v,
                    lv,
                    0,
                ),
            decreases args@.len() - i,
        {
            assert(v[i as int] == expr_view(args@[i as int]));
            if let Expr::Object(props) = &args[i] {
                let ghost pv = expr_fields_view(props@);
                self.access_of_props(props, loc, out);
            }
            i += 1;
        }
        assert(out.deep_view() =~= before + access_in_args(cx, v, lv, 0));
    }
}

// ---- call sites

/// The properties of an object argument with their constant values.
pub open spec fn props_at(ix: IndexView, env: EnvView, e: ExprView) -> Seq<(Text, Option<Text>)> {
    match e {
        ExprView::Object(props) => Seq::new(
            props.len(),
            |j: int| (props[j].0, constant(ix, env, props[j].1)),
        ),
        _ => seq![],
    }
}

/// What can be asked about a call.
pub open spec fn site_at(ix: IndexView, env: EnvView, api: Text, args: Seq<ExprView>) -> SiteView {
    SiteView {
        segments: segments_of(api),
        args: Seq::new(args.len(), |i: int| constant(ix, env, args[i])),
        props: Seq::new(args.len(), |i: int| props_at(ix, env, args[i])),
    }
}

/// A call, as value specs see it.
pub struct Site<'a, 'p> {
    segments: Vec<String>,
    api: &'a str,
    ix: &'a Index<'p>,
    env: &'a Env,
    args: &'a Vec<Expr>,
}

impl<'a, 'p> Site<'a, 'p> {
    #[verifier::type_invariant]
    spec fn well_formed(self) -> bool {
        self.segments.deep_view() == segments_of(self.api@)
    }

    /// The site of a call of `api`.
    pub fn new(ix: &'a Index<'p>, env: &'a Env, api: &'a str, args: &'a Vec<Expr>) -> (r: Self)
        ensures
            r.site() == site_at(
                ix.deep_view(),
                env.deep_view(),
                api@,
                expr_list_view(args@),
            ),
    {
        Site { segments: catalog::split_segments(api), api, ix, env, args }
    }
}

impl<'a, 'p> CallSite for Site<'a, 'p> {
    closed spec fn site(&self) -> SiteView {
        site_at(
            self.ix.deep_view(),
            self.env.deep_view(),
            self.api@,
            expr_list_view(self.args@),
        )
    }

    fn segments(&self) -> (r: &Vec<String>) {
        proof {
            use_type_invariant(self);
        }
        &self.segments
    }

    fn arg_count(&self) -> (r: usize) {
        self.args.len()
    }

    fn arg_str(&self, i: usize) -> (r: Option<String>) {
        if i < self.args.len() {
            self.ix.const_str(self.env, &self.args[i])
        } else {
            None
        }
    }

    fn arg_prop(&self, i: usize, key: &str) -> (r: Option<String>) {
        let ghost av = expr_list_view(self.args@);
        if i >= self.args.len() {
            return None;
        }
        assert(av[i as int] == expr_view(self.args@[i as int]));
        let ghost site = self.site();
        match &self.args[i] {
            Expr::Object(props) => {
                let ghost pv = expr_fields_view(props@);
                let ghost sv = props_at(self.ix.deep_view(), self.env.deep_view(), av[i as int]);
                assert(site.props[i as int] == sv);
                let mut j: usize = 0;
                while j < props.len()
                    invariant
                        i < self.args@.len(),
                        j <= props@.len(),
                        site == self.site(),
                        i < site.props.len(),
                        site.props[i as int] == sv,
                        pv == expr_fields_view(props@),
                        sv.len() == pv.len(),
                        forall|m: int|
                            0 <= m < pv.len() ==> #[trigger] sv[m] == (
                                pv[m].0,
                                constant(self.ix.deep_view(), self.env.deep_view(), pv[m].1),
                            ),
                        prop_from(sv, key@, 0) == prop_from(sv, key@, j as int),
                    decreases props@.len() - j,
                {
                    assert(pv[j as int] == (props@[j as int].0@, expr_view(props@[j as int].1)));
                    assert(sv[j as int].0 == props@[j as int].0@);
                    if text::same(&props[j].0, key) {
                        return self.ix.const_str(self.env, &props[j].1);
                    }
                    j += 1;
                }
                None
            },
            _ => None,
        }
    }
}

// ---- external calls

/// A value spec at a call site, or a word that stands for what is not known.
pub open spec fn value_or(spec: Text, site: SiteView, unknown: Text) -> Text {
    match spec_value(spec, site) {
        Some(v) => v,
        None => unknown,
    }
}

/// The entity that handles a subscription or route: the argument at `at`, counted from the end
/// where `at` is negative.
pub open spec fn handler_at(cx: CxView, args: Seq<ExprView>, at: int) -> Option<Text> {
    let i = if at < 0 { args.len() + at } else { at };
    if 0 <= i < args.len() {
        match args[i] {
            ExprView::Closure(id) => Some(id),
            other => match called(cx.scene.ix, cx.env, other) {
                CalleeView::Internal(id) => Some(id),
                _ => None,
            },
        }
    } else {
        None
    }
}

/// The facts of a call to a catalogued effect.
pub open spec fn with_effect(
    cx: CxView,
    rule: catalog::EffectRuleView,
    api: Text,
    site: SiteView,
    loc: LocView,
    f: FactsView,
) -> FactsView {
    let target = spec_value(rule.target, site);
    if target matches Some(t) && cx.ctes.contains(t) {
        f
    } else {
        let key = EffectKeyView {
            kind: rule.kind,
            target: match target {
                Some(t) => t,
                None => "<dynamic>"@,
            },
            method: match rule.method {
                Some(m) => spec_value(m, site),
                None => None,
            },
        };
        FactsView {
            unknowns: if target is None {
                f.unknowns.push(
                    UnknownView {
                        question: "effect target of `"@ + api + "` is not a constant"@,
                        loc,
                    },
                )
            } else {
                f.unknowns
            },
            effects: f.effects.push(EffectFactView { key, api, loc }),
            ..f
        }
    }
}

/// The facts with what a catalogued external call means; `false` if the catalog does not know
/// it.
pub open spec fn with_external(
    cx: CxView,
    api: Text,
    args: Seq<ExprView>,
    loc: LocView,
    f: FactsView,
) -> (FactsView, bool) {
    let site = site_at(cx.scene.ix, cx.env, api, args);
    let segs = segments_of(api);
    match effect_from(cx.scene.cat.effect, segs, 0) {
        Some(rule) => (with_effect(cx, rule, api, site, loc, f), true),
        None => match subscribe_from(cx.scene.cat.subscribe, segs, false, 0) {
            Some(rule) => (
                match handler_at(cx, args, handler_index(rule.handler_arg)) {
                    Some(handler) => FactsView {
                        consumed: added(f.consumed, handler),
                        subscriptions: f.subscriptions.push(
                            SubscriptionView {
                                event: value_or(rule.event, site, "<dynamic>"@),
                                handler,
                                loc,
                            },
                        ),
                        ..f
                    },
                    None => f,
                },
                true,
            ),
            None => match route_from(cx.scene.cat.route, segs, false, 0) {
                Some(rule) => (
                    match handler_at(cx, args, handler_index(rule.handler_arg)) {
                        Some(handler) => FactsView {
                            consumed: added(f.consumed, handler),
                            routes: f.routes.push(
                                RouteView {
                                    method: value_or(rule.method, site, "?"@),
                                    path: value_or(rule.path, site, "<dynamic>"@),
                                    handler,
                                    loc,
                                },
                            ),
                            ..f
                        },
                        None => f,
                    },
                    true,
                ),
                None => (f, false),
            },
        },
    }
}

/// The index of the handler argument: the last one where the rule names none.
pub open spec fn handler_index(at: Option<i32>) -> int {
    match at {
        Some(i) => i as int,
        None => -1,
    }
}

/// Evaluates a value spec, or gives the word for what is not known.
pub fn eval_or(spec: &str, site: &Site, unknown: &str) -> (r: String)
    ensures
        r@ == value_or(spec@, site.site(), unknown@),
{
    match catalog::eval_spec(spec, site) {
        Some(v) => v,
        None => unknown.to_owned(),
    }
}

impl<'a, 'p> Cx<'a, 'p> {
    fn handler_arg(&self, args: &Vec<Expr>, at: Option<i32>) -> (r: Option<String>)
        ensures
            r.deep_view() == handler_at(
                self.deep_view(),
                expr_list_view(args@),
                handler_index(at),
            ),
    {
        let ghost av = expr_list_view(args@);
        let at: i32 = match at {
            Some(i) => i,
            None => -1,
        };
        let n: usize = args.len();
        let i: i128 = if at < 0 {
            n as i128 + at as i128
        } else {
            at as i128
        };
        if i < 0 || i >= n as i128 {
            return None;
        }
        assert(av[i as int] == expr_view(args@[i as int]));
        match &args[i as usize] {
            Expr::Closure(id) => Some(id.dup()),
            other => match self.scene.ix.resolve_call(self.env, other) {
                Callee::Internal(id) => Some(id),
                _ => None,
            },
        }
    }

    fn external_call(&self, api: &str, args: &Vec<Expr>, loc: &Loc, f: &mut Facts) -> (r: bool)
        ensures
            (final(f).deep_view(), r) == with_external(
                self.deep_view(),
                api@,
                expr_list_view(args@),
                loc.deep_view(),
                old(f).deep_view(),
            ),
    {
        let site = Site::new(self.scene.ix, self.env, api, args);
        if let Some(rule) = self.scene.cat.effect_for(api) {
            let target = catalog::eval_spec(&rule.target, &site);
            if let Some(t) = &target {
                if self.ctes.contains(t) {
                    return true;
                }
            }
            let method = match &rule.method {
                Some(m) => catalog::eval_spec(m, &site),
                None => None,
            };
            let target = match target {
                Some(t) => t,
                None => {
                    list::push(
                        &mut f.unknowns,
                        Unknown {
                            question: text::cat3("effect target of `", api, "` is not a constant"),
                            loc: loc.dup(),
                        },
                    );
                    "<dynamic>".to_owned()
                },
            };
            let key = EffectKey { kind: rule.kind.dup(), target, method };
            list::push(&mut f.effects, EffectFact { key, api: api.to_owned(), loc: loc.dup() });
            return true;
        }
        if let Some(rule) = self.scene.cat.subscription_for(api, false) {
            if let Some(handler) = self.handler_arg(args, rule.handler_arg) {
                f.consumed.insert(handler.dup());
                list::push(
                    &mut f.subscriptions,
                    Subscription {
                        event: eval_or(&rule.event, &site, "<dynamic>"),
                        handler,
                        loc: loc.dup(),
                    },
                );
            }
            return true;
        }
        if let Some(rule) = self.scene.cat.route_for(api, false) {
            if let Some(handler) = self.handler_arg(args, rule.handler_arg) {
                f.consumed.insert(handler.dup());
                list::push(
                    &mut f.routes,
                    Route {
                        method: eval_or(&rule.method, &site, "?"),
                        path: eval_or(&rule.path, &site, "<dynamic>"),
                        handler,
                        loc: loc.dup(),
                    },
                );
            }
            return true;
        }
        false
    }
}

// ---- expressions

/// Canonical name of a decorator or call target, for catalog matching.
pub open spec fn api_of(cx: CxView, callee: ExprView) -> Option<Text> {
    match called(cx.scene.ix, cx.env, callee) {
        CalleeView::External(canon) => Some(canon),
        CalleeView::Internal(id) => Some(id + "()"@),
        CalleeView::Unresolved(_) => None,
    }
}

/// Whether a call logs.
pub open spec fn logs(cx: CxView, callee: ExprView) -> bool {
    api_of(cx, callee) matches Some(api) && any_fits(cx.scene.cat.log, segments_of(api))
}

/// The facts after the expressions from index `i` on.
pub open spec fn after_exprs(
    cx: CxView,
    es: Seq<ExprView>,
    i: int,
    loc: LocView,
    p: PlaceView,
    f: FactsView,
) -> FactsView
    decreases es, es.len() - i,
{
    if 0 <= i < es.len() {
        after_exprs(cx, es, i + 1, loc, p, after_expr(cx, es[i], loc, p, f))
    } else {
        f
    }
}

/// The facts after the values of the properties from index `i` on.
pub open spec fn after_fields(
    cx: CxView,
    fs: Seq<(Text, ExprView)>,
    i: int,
    loc: LocView,
    p: PlaceView,
    f: FactsView,
) -> FactsView
    decreases fs, fs.len() - i,
{
    if 0 <= i < fs.len() {
        after_fields(cx, fs, i + 1, loc, p, after_expr(cx, fs[i].1, loc, p, f))
    } else {
        f
    }
}

/// The facts with a call shape.
pub open spec fn with_shape(f: FactsView, s: CallShapeView) -> FactsView {
    FactsView { call_shapes: f.call_shapes.push(s), ..f }
}

/// The facts with the read of a field, the first place of which is kept.
pub open spec fn with_read(f: FactsView, field: Option<Text>, loc: LocView) -> FactsView {
    match field {
        Some(path) => if lookup(f.reads, path) is Some {
            f
        } else {
            FactsView { reads: put(f.reads, path, loc), ..f }
        },
        None => f,
    }
}

/// The facts with the use of a closure as a value: unless it is registered as a handler, it is
/// taken to run on behalf of the entity. Its shape goes by its name within the entity, so the
/// conditions it is used under count.
pub open spec fn with_closure(
    cx: CxView,
    id: Text,
    loc: LocView,
    p: PlaceView,
    f: FactsView,
) -> FactsView {
    if f.consumed.contains(id) {
        f
    } else {
        let name = match text::after_prefix(id, cx.id + "."@) {
            Some(n) => n,
            None => id,
        };
        with_shape(
            FactsView {
                calls: f.calls.push(CallFactView { target: id, loc, conditional: true }),
                ..f
            },
            shape_at(p, "<fn "@ + name + ">"@, Some(id), loc),
        )
    }
}

/// What a call adds, before what it is called on and its arguments are walked; `None` where it
/// is a filter.
pub open spec fn with_call(cx: CxView, c: CallView, p: PlaceView, f: FactsView) -> Option<FactsView> {
    let shape = call_shape_of(cx, c.callee, c.args);
    match called(cx.scene.ix, cx.env, c.callee) {
        CalleeView::Internal(target) => {
            let f = with_shape(f, shape_at(p, shape, Some(target), c.loc));
            Some(
                FactsView {
                    calls: f.calls.push(
                        CallFactView { target, loc: c.loc, conditional: p.nested },
                    ),
                    ..f
                },
            )
        },
        CalleeView::External(api) => if any_fits(cx.scene.cat.filter, segments_of(api)) {
            None
        } else if p.filtered && any_fits(cx.scene.cat.literal, segments_of(api)) {
            // A literal inside a predicate is part of the predicate's text.
            Some(f)
        } else {
            let (f, known) = with_external(cx, api, c.args, c.loc, f);
            Some(
                if known {
                    f
                } else {
                    with_shape(f, shape_at(p, shape, None, c.loc))
                },
            )
        },
        CalleeView::Unresolved(t) => {
            let f = with_shape(f, shape_at(p, shape, None, c.loc));
            Some(
                FactsView {
                    unknowns: f.unknowns.push(
                        UnknownView { question: "unresolved call `"@ + t + "`"@, loc: c.loc },
                    ),
                    ..f
                },
            )
        },
    }
}

/// The facts with a query filter; only the outermost one is recorded.
pub open spec fn with_filter(cx: CxView, c: CallView, p: PlaceView, f: FactsView) -> FactsView {
    if p.filtered {
        f
    } else {
        FactsView {
            filters: f.filters.push(
                QueryFilterView {
                    expr: filter_text(cx.scene, cx.env, c, cx.scene.ix.functions.len()),
                    loc: c.loc,
                },
            ),
            ..f
        }
    }
}

/// The facts after a call.
pub open spec fn after_call(cx: CxView, c: CallView, p: PlaceView, f: FactsView) -> FactsView
    decreases c, 0int,
{
    let f = FactsView { access: f.access + access_in_args(cx, c.args, c.loc, 0), ..f };
    if logs(cx, c.callee) {
        let shape = call_shape_of(cx, c.callee, c.args);
        let f = FactsView { logs: f.logs.push(shape_at(p, shape, None, c.loc)), ..f };
        after_exprs(cx, c.args, 0, c.loc, p, f)
    } else {
        match with_call(cx, c, p, f) {
            Some(f) => {
                let f = match c.callee {
                    ExprView::Member { object, property } => after_expr(
                        cx,
                        *object,
                        c.loc,
                        p,
                        f,
                    ),
                    _ => f,
                };
                after_exprs(cx, c.args, 0, c.loc, p, f)
            },
            None => {
                // The builder chain is walked as usual; nested predicates are part of this one.
                let f = with_filter(cx, c, p, f);
                let f = match c.callee {
                    ExprView::Member { object, property } => after_expr(
                        cx,
                        *object,
                        c.loc,
                        p,
                        f,
                    ),
                    _ => f,
                };
                after_exprs(cx, c.args, 0, c.loc, inside_region(p, false, true), f)
            },
        }
    }
}

/// The facts after an expression.
pub open spec fn after_expr(
    cx: CxView,
    e: ExprView,
    loc: LocView,
    p: PlaceView,
    f: FactsView,
) -> FactsView
    decreases e, 0int,
{
    match e {
        ExprView::Call(c) => after_call(cx, *c, p, f),
        ExprView::Member { object, property } => after_expr(
            cx,
            *object,
            loc,
            p,
            with_read(f, field_at(cx.scene.ix, cx.env, *object, property), loc),
        ),
        ExprView::Assign { target, value, loc: at } => {
            let f = match *target {
                ExprView::Member { object, property } => {
                    let f = match field_at(cx.scene.ix, cx.env, *object, property) {
                        Some(field) => FactsView {
                            writes: f.writes.push(
                                WriteFactView {
                                    field,
                                    value: constant(cx.scene.ix, cx.env, *value),
                                    creation: false,
                                    loc: at,
                                },
                            ),
                            ..f
                        },
                        None => f,
                    };
                    after_expr(cx, *object, at, p, f)
                },
                _ => f,
            };
            after_expr(cx, *value, at, p, f)
        },
        ExprView::New { callee, args, loc: at } => {
            let shape = "new "@ + call_shape_of(cx, *callee, args);
            after_exprs(cx, args, 0, at, p, with_shape(f, shape_at(p, shape, None, at)))
        },
        ExprView::Binary { op, left, right } => after_expr(
            cx,
            *right,
            loc,
            p,
            after_expr(cx, *left, loc, p, f),
        ),
        ExprView::Logical { op, left, right } => after_expr(
            cx,
            *right,
            loc,
            p,
            after_expr(cx, *left, loc, p, f),
        ),
        ExprView::Not(x) => after_expr(cx, *x, loc, p, f),
        ExprView::Await(x) => after_expr(cx, *x, loc, p, f),
        ExprView::Index { object, index } => after_expr(
            cx,
            *index,
            loc,
            p,
            after_expr(cx, *object, loc, p, f),
        ),
        ExprView::Template { quasis, exprs } => after_exprs(cx, exprs, 0, loc, p, f),
        ExprView::Object(props) => after_fields(cx, props, 0, loc, p, f),
        ExprView::Array(xs) => after_exprs(cx, xs, 0, loc, p, f),
        ExprView::Conditional { test, then, otherwise } => {
            let f = after_expr(cx, *test, loc, p, f);
            let q = inside_region(p, true, false);
            after_expr(cx, *otherwise, loc, q, after_expr(cx, *then, loc, q, f))
        },
        ExprView::Jsx(j) => after_exprs(
            cx,
            j.children,
            0,
            loc,
            p,
            after_fields(cx, j.attrs, 0, loc, p, f),
        ),
        ExprView::Closure(id) => with_closure(cx, id, loc, p, f),
        _ => f,
    }
}

impl<'a, 'p> Cx<'a, 'p> {
    /// Canonical name of a decorator or call target, for catalog matching.
    pub fn api_name(&self, callee: &Expr) -> (r: Option<String>)
        ensures
            r.deep_view() == api_of(self.deep_view(), callee.deep_view()),
    {
        match self.scene.ix.resolve_call(self.env, callee) {
            Callee::External(canon) => Some(canon),
            Callee::Internal(id) => Some(text::cat2(&id, "()")),
            Callee::Unresolved(_) => None,
        }
    }

    /// Walks the expressions of a list.
    pub fn exprs(&self, es: &Vec<Expr>, loc: &Loc, p: &Place, f: &mut Facts)
        ensures
            final(f).deep_view() == after_exprs(
                self.deep_view(),
                expr_list_view(es@),
                0,
                loc.deep_view(),
                p.deep_view(),
                old(f).deep_view(),
            ),
        decreases es, es@.len() + 1,
    {
        let ghost cx = self.deep_view();
        let ghost v = expr_list_view(es@);
        let ghost lv = loc.deep_view();
        let ghost pv = p.deep_view();
        let ghost before = f.deep_view();
        let mut i: usize = 0;
        while i < es.len()
            invariant
                i <= es@.len(),
                cx == self.deep_view(),
                v == expr_list_view(es@),
                lv == loc.deep_view(),
                pv == p.deep_view(),
                after_exprs(cx, v, i as int, lv, pv, f.deep_view()) == after_exprs(
                    cx,
                    v,
                    0,
                    lv,
                    pv,
                    before,
                ),
            decreases es@.len() - i,
        {
            self.expr(&es[i], loc, p, f);
            i += 1;
        }
    }

    fn fields(&self, fs: &Vec<(String, Expr)>, loc: &Loc, p: &Place, f: &mut Facts)
        ensures
            final(f).deep_view() == after_fields(
                self.deep_view(),
                expr_fields_view(fs@),
                0,
                loc.deep_view(),
                p.deep_view(),
                old(f).deep_view(),
            ),
        decreases fs, fs@.len() + 1,
    {
        let ghost cx = self.deep_view();
        let ghost v = expr_fields_view(fs@);
        let ghost lv = loc.deep_view();
        let ghost pv = p.deep_view();
        let ghost before = f.deep_view();
        let mut i: usize = 0;
        while i < fs.len()
            invariant
                i <= fs@.len(),
                cx == self.deep_view(),
                v == expr_fields_view(fs@),
                lv == loc.deep_view(),
                pv == p.deep_view(),
                after_fields(cx, v, i as int, lv, pv, f.deep_view()) == after_fields(
                    cx,
                    v,
                    0,
                    lv,
                    pv,
                    before,
                ),
            decreases fs@.len() - i,
        {
            assert(v[i as int].1 == expr_view(fs@[i as int].1));
            self.expr(&fs[i].1, loc, p, f);
            i += 1;
        }
    }

    fn closure(&self, id: &String, loc: &Loc, p: &Place, f: &mut Facts)
        ensures
            final(f).deep_view() == with_closure(
                self.deep_view(),
                id@,
                loc.deep_view(),
                p.deep_view(),
                old(f).deep_view(),
            ),
    {
        if f.consumed.contains(id) {
            return;
        }
        list::push(
            &mut f.calls,
            CallFact { target: id.dup(), loc: loc.dup(), conditional: true },
        );
        let name = match text::strip_prefix(id, &text::cat2(self.id, ".")) {
            Some(n) => n,
            None => id.dup(),
        };
        let shape = text::cat3("<fn ", &name, ">");
        list::push(&mut f.call_shapes, p.shape(shape, Some(id.dup()), loc));
    }

    /// Records what a call adds; `false` where it is a filter.
    fn call_fact(&self, c: &Call, p: &Place, f: &mut Facts) -> (r: bool)
        ensures
            match with_call(self.deep_view(), call_view(*c), p.deep_view(), old(f).deep_view()) {
                Some(g) => r && final(f).deep_view() == g,
                None => !r && final(f).deep_view() == old(f).deep_view(),
            },
    {
        let ghost cv = call_view(*c);
        let shape = self.call_shape(&c.callee, &c.args);
        match self.scene.ix.resolve_call(self.env, &c.callee) {
            Callee::Internal(target) => {
                list::push(&mut f.call_shapes, p.shape(shape, Some(target.dup()), &c.loc));
                list::push(
                    &mut f.calls,
                    CallFact { target, loc: c.loc.dup(), conditional: p.nested },
                );
                true
            },
            Callee::External(api) => {
                if self.scene.cat.is_filter(&api) {
                    return false;
                }
                if p.filtered && self.scene.cat.is_literal(&api) {
                    return true;
                }
                if !self.external_call(&api, &c.args, &c.loc, f) {
                    list::push(&mut f.call_shapes, p.shape(shape, None, &c.loc));
                }
                true
            },
            Callee::Unresolved(t) => {
                list::push(&mut f.call_shapes, p.shape(shape, None, &c.loc));
                list::push(
                    &mut f.unknowns,
                    Unknown {
                        question: text::cat3("unresolved call `", &t, "`"),
                        loc: c.loc.dup(),
                    },
                );
                true
            },
        }
    }

    fn receiver(&self, c: &Call, p: &Place, f: &mut Facts)
        ensures
            final(f).deep_view() == match call_view(*c).callee {
                ExprView::Member { object, property } => after_expr(
                    self.deep_view(),
                    *object,
                    c.loc.deep_view(),
                    p.deep_view(),
                    old(f).deep_view(),
                ),
                _ => old(f).deep_view(),
            },
        decreases c, 0int,
    {
        let ghost cv = call_view(*c);
        let ghost ce = expr_view(c.callee);
        if let Expr::Member { object, property } = &c.callee {
            self.expr(object, &c.loc, p, f);
        }
    }

    fn call(&self, c: &Call, p: &Place, f: &mut Facts)
        ensures
            final(f).deep_view() == after_call(
                self.deep_view(),
                call_view(*c),
                p.deep_view(),
                old(f).deep_view(),
            ),
        decreases c, 1int,
    {
        let ghost cv = call_view(*c);
        let ghost av = expr_list_view(c.args@);
        self.access_of_args(&c.args, &c.loc, &mut f.access);
        let log = match self.api_name(&c.callee) {
            Some(api) => self.scene.cat.is_log(&api),
            None => false,
        };
        if log {
            let shape = self.call_shape(&c.callee, &c.args);
            list::push(&mut f.logs, p.shape(shape, None, &c.loc));
            self.exprs(&c.args, &c.loc, p, f);
            return;
        }
        if self.call_fact(c, p, f) {
            self.receiver(c, p, f);
            self.exprs(&c.args, &c.loc, p, f);
        } else {
            if !p.filtered {
                let expr = self.scene.filter_call(self.env, c);
                list::push(&mut f.filters, QueryFilter { expr, loc: c.loc.dup() });
            }
            self.receiver(c, p, f);
            self.exprs(&c.args, &c.loc, &p.inside(false, true), f);
        }
    }

    fn assign(&self, target: &Expr, value: &Expr, at: &Loc, p: &Place, f: &mut Facts)
        ensures
            final(f).deep_view() == match target.deep_view() {
                ExprView::Member { object, property } => after_expr(
                    self.deep_view(),
                    *object,
                    at.deep_view(),
                    p.deep_view(),
                    match field_at(
                        self.deep_view().scene.ix,
                        self.deep_view().env,
                        *object,
                        property,
                    ) {
                        Some(field) => FactsView {
                            writes: old(f).deep_view().writes.push(
                                WriteFactView {
                                    field,
                                    value: constant(
                                        self.deep_view().scene.ix,
                                        self.deep_view().env,
                                        value.deep_view(),
                                    ),
                                    creation: false,
                                    loc: at.deep_view(),
                                },
                            ),
                            ..old(f).deep_view()
                        },
                        None => old(f).deep_view(),
                    },
                ),
                _ => old(f).deep_view(),
            },
        decreases target, 1int,
    {
        if let Expr::Member { object, property } = target {
            if let Some(field) = self.scene.ix.field_path(self.env, object, property) {
                list::push(
                    &mut f.writes,
                    WriteFact {
                        field,
                        value: self.constant_of(value),
                        creation: false,
                        loc: at.dup(),
                    },
                );
            }
            self.expr(object, at, p, f);
        }
    }

    /// Walks an expression.
    #[verifier::rlimit(60)]
    pub fn expr(&self, e: &Expr, loc: &Loc, p: &Place, f: &mut Facts)
        ensures
            final(f).deep_view() == after_expr(
                self.deep_view(),
                e.deep_view(),
                loc.deep_view(),
                p.deep_view(),
                old(f).deep_view(),
            ),
        decreases e, 0int,
    {
        match e {
            Expr::Call(c) => self.call(c, p, f),
            Expr::Member { object, property } => {
                if let Some(path) = self.scene.ix.field_path(self.env, object, property) {
                    if !f.reads.contains_key(&path) {
                        f.reads.insert(path, loc.dup());
                    }
                }
                self.expr(object, loc, p, f);
            },
            Expr::Assign { target, value, loc: at } => {
                let ghost tv = expr_view(**target);
                self.assign(target, value, at, p, f);
                self.expr(value, at, p, f);
            },
            Expr::New { callee, args, loc: at } => {
                let shape = text::cat2("new ", &self.call_shape(callee, args));
                list::push(&mut f.call_shapes, p.shape(shape, None, at));
                self.exprs(args, at, p, f);
            },
            Expr::Binary { op, left, right } => {
                self.expr(left, loc, p, f);
                self.expr(right, loc, p, f);
            },
            Expr::Logical { op, left, right } => {
                self.expr(left, loc, p, f);
                self.expr(right, loc, p, f);
            },
            Expr::Not(x) => self.expr(x, loc, p, f),
            Expr::Await(x) => self.expr(x, loc, p, f),
            Expr::Index { object, index } => {
                self.expr(object, loc, p, f);
                self.expr(index, loc, p, f);
            },
            Expr::Template { quasis, exprs } => self.exprs(exprs, loc, p, f),
            Expr::Object(props) => self.fields(props, loc, p, f),
            Expr::Array(xs) => self.exprs(xs, loc, p, f),
            Expr::Conditional { test, then, otherwise } => {
                self.expr(test, loc, p, f);
                let q = p.inside(true, false);
                self.expr(then, loc, &q, f);
                self.expr(otherwise, loc, &q, f);
            },
            Expr::Jsx(j) => {
                let ghost jv = jsx_view(**j);
                self.fields(&j.attrs, loc, p, f);
                self.exprs(&j.children, loc, p, f);
            },
            Expr::Closure(id) => self.closure(id, loc, p, f),
            _ => {},
        }
    }
}

} // verus!
