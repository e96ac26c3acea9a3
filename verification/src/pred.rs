//! Normalized predicates: the vocabulary for guards, authorization rules and
//! state preconditions.

use crate::list;
use crate::list::Plain;
use crate::ordered::{common, minus, united, Rank, SortedSet};
use crate::settling::simplifying_once_is_enough;
use crate::text;
use crate::text::Text;
use vstd::prelude::*;

verus! {

/// A condition in normal form.
#[derive(Debug, PartialEq, Eq)]
pub enum Pred {
    /// `field ∈ values`
    In { field: String, values: SortedSet<String> },
    /// `field ∉ values`
    NotIn { field: String, values: SortedSet<String> },
    Truthy(String),
    Falsy(String),
    /// Result of calling another entity (usually a policy or predicate function).
    Call { entity: String, negated: bool },
    /// `left op right` over operands that are not constant, made canonical by [`Pred::compare`]:
    /// only `<`, `<=`, `==`, `!=`, with the operands of `==` and `!=` in order.
    Compare { left: String, op: String, right: String },
    And(Vec<Pred>),
    Or(Vec<Pred>),
    Opaque { text: String, negated: bool },
    True,
    False,
}

/// The view of [`Pred`].
#[verifier::ext_equal]
pub enum PredView {
    In { field: Seq<char>, values: Seq<Seq<char>> },
    NotIn { field: Seq<char>, values: Seq<Seq<char>> },
    Truthy(Seq<char>),
    Falsy(Seq<char>),
    Call { entity: Seq<char>, negated: bool },
    Compare { left: Seq<char>, op: Seq<char>, right: Seq<char> },
    And(Seq<PredView>),
    Or(Seq<PredView>),
    Opaque { text: Seq<char>, negated: bool },
    True,
    False,
}

/// The view of a condition.
pub open spec fn pred_view(v: Pred) -> PredView
    decreases v,
{
    match v {
        Pred::In { field, values } => PredView::In { field: field@, values: values.deep_view() },
        Pred::NotIn { field, values } => PredView::NotIn { field: field@, values: values.deep_view() },
        Pred::Truthy(x0) => PredView::Truthy(x0@),
        Pred::Falsy(x0) => PredView::Falsy(x0@),
        Pred::Call { entity, negated } => PredView::Call { entity: entity@, negated: negated },
        Pred::Compare { left, op, right } => PredView::Compare { left: left@, op: op@, right: right@ },
        Pred::And(x0) => PredView::And(pred_list_view(x0@)),
        Pred::Or(x0) => PredView::Or(pred_list_view(x0@)),
        Pred::Opaque { text, negated } => PredView::Opaque { text: text@, negated: negated },
        Pred::True => PredView::True,
        Pred::False => PredView::False,
    }
}

impl DeepView for Pred {
    type V = PredView;

    open spec fn deep_view(&self) -> PredView {
        pred_view(*self)
    }
}

fn dup_pred(v: &Pred) -> (r: Pred)
    ensures
        pred_view(r) == pred_view(*v),
    decreases v,
{
    match v {
        Pred::In { field, values } => Pred::In { field: field.dup(), values: values.dup() },
        Pred::NotIn { field, values } => Pred::NotIn { field: field.dup(), values: values.dup() },
        Pred::Truthy(x0) => Pred::Truthy(x0.dup()),
        Pred::Falsy(x0) => Pred::Falsy(x0.dup()),
        Pred::Call { entity, negated } => Pred::Call { entity: entity.dup(), negated: *negated },
        Pred::Compare { left, op, right } => Pred::Compare { left: left.dup(), op: op.dup(), right: right.dup() },
        Pred::And(x0) => Pred::And(dup_pred_list(x0)),
        Pred::Or(x0) => Pred::Or(dup_pred_list(x0)),
        Pred::Opaque { text, negated } => Pred::Opaque { text: text.dup(), negated: *negated },
        Pred::True => Pred::True,
        Pred::False => Pred::False,
    }
}

fn alike_pred(v: &Pred, w: &Pred) -> (r: bool)
    ensures
        r == (pred_view(*v) == pred_view(*w)),
    decreases v,
{
    match (v, w) {
        (Pred::In { field: x0, values: x1 }, Pred::In { field: y0, values: y1 }) => x0.alike(y0) && x1.alike(y1),
        (Pred::NotIn { field: x0, values: x1 }, Pred::NotIn { field: y0, values: y1 }) => x0.alike(y0) && x1.alike(y1),
        (Pred::Truthy(x0), Pred::Truthy(y0)) => x0.alike(y0),
        (Pred::Falsy(x0), Pred::Falsy(y0)) => x0.alike(y0),
        (Pred::Call { entity: x0, negated: x1 }, Pred::Call { entity: y0, negated: y1 }) => x0.alike(y0) && *x1 == *y1,
        (Pred::Compare { left: x0, op: x1, right: x2 }, Pred::Compare { left: y0, op: y1, right: y2 }) => x0.alike(y0) && x1.alike(y1) && x2.alike(y2),
        (Pred::And(x0), Pred::And(y0)) => alike_pred_list(x0, y0),
        (Pred::Or(x0), Pred::Or(y0)) => alike_pred_list(x0, y0),
        (Pred::Opaque { text: x0, negated: x1 }, Pred::Opaque { text: y0, negated: y1 }) => x0.alike(y0) && *x1 == *y1,
        (Pred::True, Pred::True) => true,
        (Pred::False, Pred::False) => true,
        _ => false,
    }
}

impl Plain for Pred {
    fn dup(&self) -> (r: Self) {
        dup_pred(self)
    }

    fn alike(&self, other: &Self) -> (r: bool) {
        alike_pred(self, other)
    }
}

/// The view of a list of conditions.
pub open spec fn pred_list_view(s: Seq<Pred>) -> Seq<PredView>
    decreases s,
{
    Seq::new(
        s.len(),
        |i: int|
            if 0 <= i < s.len() {
                pred_view(s[i])
            } else {
                arbitrary()
            },
    )
}

/// The view of a list is the list of the views.
pub broadcast proof fn pred_list_view_is_deep(v: Vec<Pred>)
    ensures
        #[trigger] v.deep_view() == pred_list_view(v@),
{
    assert(v.deep_view() =~= pred_list_view(v@));
}

fn dup_pred_list(v: &Vec<Pred>) -> (r: Vec<Pred>)
    ensures
        pred_list_view(r@) == pred_list_view(v@),
    decreases v,
{
    let mut out: Vec<Pred> = Vec::new();
    let mut i: usize = 0;
    while i < v.len()
        invariant
            i <= v@.len(),
            pred_list_view(out@) == pred_list_view(v@).take(i as int),
        decreases v@.len() - i,
    {
        let ghost prev = out@;
        out.push(dup_pred(&v[i]));
        assert(pred_list_view(out@) =~= pred_list_view(prev).push(pred_list_view(v@)[i as int]));
        i += 1;
    }
    assert(pred_list_view(v@).take(v@.len() as int) =~= pred_list_view(v@));
    out
}

fn alike_pred_list(v: &Vec<Pred>, w: &Vec<Pred>) -> (r: bool)
    ensures
        r == (pred_list_view(v@) == pred_list_view(w@)),
    decreases v,
{
    if v.len() != w.len() {
        assert(pred_list_view(v@).len() != pred_list_view(w@).len());
        return false;
    }
    let mut i: usize = 0;
    while i < v.len()
        invariant
            i <= v@.len(),
            v@.len() == w@.len(),
            forall|j: int| 0 <= j < i ==> pred_list_view(v@)[j] == #[trigger] pred_list_view(w@)[j],
        decreases v@.len() - i,
    {
        if !(alike_pred(&v[i], &w[i])) {
            assert(pred_list_view(v@)[i as int] != pred_list_view(w@)[i as int]);
            return false;
        }
        i += 1;
    }
    assert(pred_list_view(v@) =~= pred_list_view(w@));
    true
}

// ---- canonical comparisons

/// `left op right` in canonical form: `a > b` is `b < a`, `a >= b` is `b <= a`, and the
/// operands of an equality are in order.
pub open spec fn compared(left: Text, op: Text, right: Text) -> PredView {
    if op == ">"@ {
        PredView::Compare { left: right, op: "<"@, right: left }
    } else if op == ">="@ {
        PredView::Compare { left: right, op: "<="@, right: left }
    } else if (op == "=="@ || op == "!="@) && text::before(right, left) {
        PredView::Compare { left: right, op, right: left }
    } else {
        PredView::Compare { left, op, right }
    }
}

// ---- simplification

/// What becomes of `q` when `p` is merged into it, if the two constrain the same field in a
/// way that one set expresses: under `or`, memberships unite; under `and`, exclusions unite
/// and memberships intersect.
pub open spec fn merged(q: PredView, p: PredView, is_or: bool) -> Option<PredView> {
    match (p, q) {
        (
            PredView::In { field: f1, values: v1 },
            PredView::In { field: f2, values: v2 },
        ) => if f1 != f2 {
            None
        } else if is_or {
            Some(PredView::In { field: f2, values: united(v2, v1) })
        } else {
            Some(PredView::In { field: f2, values: common(v1, v2) })
        },
        (
            PredView::NotIn { field: f1, values: v1 },
            PredView::NotIn { field: f2, values: v2 },
        ) => if f1 != f2 || is_or {
            None
        } else {
            Some(PredView::NotIn { field: f2, values: united(v2, v1) })
        },
        _ => None,
    }
}

/// The parts with `p`: merged into the first part from index `i` on that takes it, or else
/// appended, unless it is there already.
pub open spec fn absorbed(out: Seq<PredView>, p: PredView, is_or: bool, i: int) -> Seq<PredView>
    decreases out.len() - i,
{
    if 0 <= i < out.len() {
        match merged(out[i], p, is_or) {
            Some(q) => out.update(i, q),
            None => absorbed(out, p, is_or, i + 1),
        }
    } else if out.contains(p) {
        out
    } else {
        out.push(p)
    }
}

/// The parts with each of `flat` from index `i` on.
pub open spec fn absorbed_all(
    flat: Seq<PredView>,
    is_or: bool,
    i: int,
    out: Seq<PredView>,
) -> Seq<PredView>
    decreases flat.len() - i,
{
    if 0 <= i < flat.len() {
        absorbed_all(flat, is_or, i + 1, absorbed(out, flat[i], is_or, 0))
    } else {
        out
    }
}

/// The parts of a connective: one part stands for itself.
pub open spec fn connected(out: Seq<PredView>, is_or: bool) -> PredView {
    if out.len() == 1 {
        out[0]
    } else if is_or {
        PredView::Or(out)
    } else {
        PredView::And(out)
    }
}

/// The parts of a simplified part of a connective of the same kind, or the part itself.
pub open spec fn spread(p: PredView, is_or: bool) -> Seq<PredView> {
    match p {
        PredView::Or(inner) => if is_or {
            inner
        } else {
            seq![p]
        },
        PredView::And(inner) => if is_or {
            seq![p]
        } else {
            inner
        },
        _ => seq![p],
    }
}

/// The parts from index `i` on, simplified and with nested connectives of the same kind
/// flattened.
pub open spec fn flattened(ps: Seq<PredView>, is_or: bool, i: int) -> Seq<PredView>
    decreases ps, ps.len() - i,
{
    if 0 <= i < ps.len() {
        spread(simplified(ps[i]), is_or) + flattened(ps, is_or, i + 1)
    } else {
        seq![]
    }
}

/// Same-field set constraints merged, nested connectives flattened.
pub open spec fn simplified(p: PredView) -> PredView
    decreases p, 0int,
{
    match p {
        PredView::Or(ps) => connected(
            absorbed_all(flattened(ps, true, 0), true, 0, seq![]),
            true,
        ),
        PredView::And(ps) => connected(
            absorbed_all(flattened(ps, false, 0), false, 0, seq![]),
            false,
        ),
        _ => p,
    }
}

// ---- negation

/// The negations of the parts from index `i` on.
pub open spec fn negated_all(ps: Seq<PredView>, i: int) -> Seq<PredView>
    decreases ps, ps.len() - i,
{
    if 0 <= i < ps.len() {
        seq![negation(ps[i])] + negated_all(ps, i + 1)
    } else {
        seq![]
    }
}

/// The predicate that holds where `p` does not.
pub open spec fn negation(p: PredView) -> PredView
    decreases p, 0int,
{
    match p {
        PredView::In { field, values } => PredView::NotIn { field, values },
        PredView::NotIn { field, values } => PredView::In { field, values },
        PredView::Truthy(f) => PredView::Falsy(f),
        PredView::Falsy(f) => PredView::Truthy(f),
        PredView::Call { entity, negated } => PredView::Call { entity, negated: !negated },
        PredView::Compare { left, op, right } => if op == "<"@ {
            compared(left, ">="@, right)
        } else if op == "<="@ {
            compared(left, ">"@, right)
        } else if op == "=="@ {
            compared(left, "!="@, right)
        } else {
            compared(left, "=="@, right)
        },
        PredView::Opaque { text, negated } => PredView::Opaque { text, negated: !negated },
        PredView::And(ps) => simplified(PredView::Or(negated_all(ps, 0))),
        PredView::Or(ps) => simplified(PredView::And(negated_all(ps, 0))),
        PredView::True => PredView::False,
        PredView::False => PredView::True,
    }
}

// ---- domains

/// Which values fields can have.
pub trait DomainTable: Sized {
    /// The finite set of values of a field, where there is one.
    spec fn domain_of(self, field: Text) -> Option<Seq<Text>>;
}

/// Knowledge of which values a field can have.
pub trait Domains: DeepView where <Self as DeepView>::V: DomainTable {
    /// The finite set of values of a field, where there is one.
    fn domain(&self, field: &str) -> (r: Option<SortedSet<String>>)
        ensures
            r.deep_view() == self.deep_view().domain_of(field@),
    ;
}

/// `f ∉ S` as `f ∈ (domain − S)` where the field has a finite domain.
pub open spec fn in_domain<D: DomainTable>(p: PredView, d: D) -> PredView
    decreases p, 0int,
{
    match p {
        PredView::NotIn { field, values } => match d.domain_of(field) {
            Some(all) => PredView::In { field, values: minus(all, values) },
            None => p,
        },
        PredView::And(ps) => PredView::And(all_in_domain(ps, d, 0)),
        PredView::Or(ps) => PredView::Or(all_in_domain(ps, d, 0)),
        _ => p,
    }
}

/// [`in_domain`] of the parts from index `i` on.
pub open spec fn all_in_domain<D: DomainTable>(ps: Seq<PredView>, d: D, i: int) -> Seq<PredView>
    decreases ps, ps.len() - i,
{
    if 0 <= i < ps.len() {
        seq![in_domain(ps[i], d)] + all_in_domain(ps, d, i + 1)
    } else {
        seq![]
    }
}

// ---- text

/// `{a, b}`.
pub open spec fn set_text(values: Seq<Text>) -> Text {
    "{"@ + text::joined(values, ", "@) + "}"@
}

/// The texts of the parts from index `i` on.
pub open spec fn pred_texts(ps: Seq<PredView>, i: int) -> Seq<Text>
    decreases ps, ps.len() - i,
{
    if 0 <= i < ps.len() {
        seq![pred_text(ps[i])] + pred_texts(ps, i + 1)
    } else {
        seq![]
    }
}

/// A predicate as a reader sees it.
pub open spec fn pred_text(p: PredView) -> Text
    decreases p, 0int,
{
    match p {
        PredView::In { field, values } => field + " ∈ "@ + set_text(values),
        PredView::NotIn { field, values } => field + " ∉ "@ + set_text(values),
        PredView::Truthy(f) => f + " is set"@,
        PredView::Falsy(f) => f + " is not set"@,
        PredView::Call { entity, negated } => if negated {
            "!"@ + text::after_last(entity, "::"@) + "()"@
        } else {
            text::after_last(entity, "::"@) + "()"@
        },
        PredView::Compare { left, op, right } => left + " "@ + op + " "@ + right,
        PredView::And(ps) => text::joined(pred_texts(ps, 0), " ∧ "@),
        PredView::Or(ps) => text::joined(pred_texts(ps, 0), " ∨ "@),
        PredView::Opaque { text, negated } => if negated {
            "!("@ + text + ")"@
        } else {
            text
        },
        PredView::True => "true"@,
        PredView::False => "false"@,
    }
}

/// The field that a predicate constrains, if it constrains exactly one.
pub open spec fn field_of(p: PredView) -> Option<Text> {
    match p {
        PredView::In { field, .. } => Some(field),
        PredView::NotIn { field, .. } => Some(field),
        PredView::Truthy(field) => Some(field),
        PredView::Falsy(field) => Some(field),
        _ => None,
    }
}

/// Renders a set of values.
pub fn render_set(values: &SortedSet<String>) -> (r: String)
    ensures
        r@ == set_text(values.deep_view()),
{
    text::cat3("{", &text::join(&values.list(), ", "), "}")
}

fn merge_into(q: &Pred, p: &Pred, is_or: bool) -> (r: Option<Pred>)
    ensures
        r.deep_view() == merged(q.deep_view(), p.deep_view(), is_or),
{
    match (p, q) {
        (Pred::In { field: f1, values: v1 }, Pred::In { field: f2, values: v2 }) => if !f1.alike(
            f2,
        ) {
            None
        } else if is_or {
            let mut values = v2.dup();
            values.unite(v1);
            Some(Pred::In { field: f2.dup(), values })
        } else {
            Some(Pred::In { field: f2.dup(), values: v1.intersection(v2) })
        },
        (Pred::NotIn { field: f1, values: v1 }, Pred::NotIn { field: f2, values: v2 }) => if is_or
            || !f1.alike(f2) {
            None
        } else {
            let mut values = v2.dup();
            values.unite(v1);
            Some(Pred::NotIn { field: f2.dup(), values })
        },
        _ => None,
    }
}

fn absorb(parts: Vec<Pred>, p: Pred, is_or: bool) -> (r: Vec<Pred>)
    ensures
        r.deep_view() == absorbed(parts.deep_view(), p.deep_view(), is_or, 0),
{
    let mut out = parts;
    let ghost before = out.deep_view();
    let mut i: usize = 0;
    while i < out.len()
        invariant
            i <= out@.len(),
            out.deep_view() == before,
            before == parts.deep_view(),
            absorbed(before, p.deep_view(), is_or, 0) == absorbed(
                before,
                p.deep_view(),
                is_or,
                i as int,
            ),
        decreases out@.len() - i,
    {
        if let Some(q) = merge_into(&out[i], &p, is_or) {
            let _ = out.remove(i);
            out.insert(i, q);
            assert(out.deep_view() =~= before.update(i as int, q.deep_view()));
            return out;
        }
        i += 1;
    }
    if !list::has(&out, &p) {
        list::push(&mut out, p);
    }
    out
}

fn absorb_all(flat: Vec<Pred>, is_or: bool) -> (r: Vec<Pred>)
    ensures
        r.deep_view() == absorbed_all(flat.deep_view(), is_or, 0, seq![]),
{
    let mut out: Vec<Pred> = list::empty();
    let mut i: usize = 0;
    while i < flat.len()
        invariant
            i <= flat@.len(),
            absorbed_all(flat.deep_view(), is_or, i as int, out.deep_view()) == absorbed_all(
                flat.deep_view(),
                is_or,
                0,
                seq![],
            ),
        decreases flat@.len() - i,
    {
        out = absorb(out, flat[i].dup(), is_or);
        i += 1;
    }
    out
}

fn connect(out: Vec<Pred>, is_or: bool) -> (r: Pred)
    ensures
        r.deep_view() == connected(out.deep_view(), is_or),
{
    broadcast use pred_list_view_is_deep;

    if out.len() == 1 {
        out[0].dup()
    } else if is_or {
        Pred::Or(out)
    } else {
        Pred::And(out)
    }
}

fn flatten(ps: &Vec<Pred>, is_or: bool) -> (r: Vec<Pred>)
    ensures
        r.deep_view() == flattened(pred_list_view(ps@), is_or, 0),
    decreases ps,
{
    broadcast use pred_list_view_is_deep;

    let ghost v = pred_list_view(ps@);
    let mut flat: Vec<Pred> = list::empty();
    let mut i: usize = 0;
    while i < ps.len()
        invariant
            i <= ps@.len(),
            v == pred_list_view(ps@),
            flat.deep_view() + flattened(v, is_or, i as int) == flattened(v, is_or, 0),
        decreases ps@.len() - i,
    {
        let p = simplify_ref(&ps[i]);
        let ghost before = flat.deep_view();
        match p {
            Pred::Or(inner) => if is_or {
                list::append(&mut flat, inner);
            } else {
                list::push(&mut flat, Pred::Or(inner));
            },
            Pred::And(inner) => if is_or {
                list::push(&mut flat, Pred::And(inner));
            } else {
                list::append(&mut flat, inner);
            },
            other => {
                list::push(&mut flat, other);
            },
        }
        assert(flat.deep_view() =~= before + spread(simplified(v[i as int]), is_or));
        i += 1;
    }
    flat
}

fn simplify_ref(p: &Pred) -> (r: Pred)
    ensures
        r.deep_view() == simplified(p.deep_view()),
    decreases p,
{
    match p {
        Pred::Or(ps) => connect(absorb_all(flatten(ps, true), true), true),
        Pred::And(ps) => connect(absorb_all(flatten(ps, false), false), false),
        other => other.dup(),
    }
}

fn negate_all(ps: &Vec<Pred>) -> (r: Vec<Pred>)
    ensures
        r.deep_view() == negated_all(pred_list_view(ps@), 0),
    decreases ps,
{
    let ghost v = pred_list_view(ps@);
    let mut out: Vec<Pred> = list::empty();
    let mut i: usize = 0;
    while i < ps.len()
        invariant
            i <= ps@.len(),
            v == pred_list_view(ps@),
            out.deep_view() + negated_all(v, i as int) == negated_all(v, 0),
        decreases ps@.len() - i,
    {
        list::push(&mut out, negate_ref(&ps[i]));
        i += 1;
    }
    out
}

fn negate_ref(p: &Pred) -> (r: Pred)
    ensures
        r.deep_view() == negation(p.deep_view()),
    decreases p,
{
    broadcast use pred_list_view_is_deep;

    match p {
        Pred::In { field, values } => Pred::NotIn { field: field.dup(), values: values.dup() },
        Pred::NotIn { field, values } => Pred::In { field: field.dup(), values: values.dup() },
        Pred::Truthy(f) => Pred::Falsy(f.dup()),
        Pred::Falsy(f) => Pred::Truthy(f.dup()),
        Pred::Call { entity, negated } => Pred::Call { entity: entity.dup(), negated: !*negated },
        Pred::Compare { left, op, right } => {
            let op = if text::same(op, "<") {
                ">="
            } else if text::same(op, "<=") {
                ">"
            } else if text::same(op, "==") {
                "!="
            } else {
                "=="
            };
            Pred::compare(left.dup(), op, right.dup())
        },
        Pred::Opaque { text, negated } => Pred::Opaque { text: text.dup(), negated: !*negated },
        Pred::And(ps) => simplify_ref(&Pred::Or(negate_all(ps))),
        Pred::Or(ps) => simplify_ref(&Pred::And(negate_all(ps))),
        Pred::True => Pred::False,
        Pred::False => Pred::True,
    }
}

fn all_with_domain<D: Domains>(ps: &Vec<Pred>, domain: &D) -> (r: Vec<Pred>) where
    <D as DeepView>::V: DomainTable,

    ensures
        r.deep_view() == all_in_domain(pred_list_view(ps@), domain.deep_view(), 0),
    decreases ps,
{
    let ghost v = pred_list_view(ps@);
    let mut out: Vec<Pred> = list::empty();
    let mut i: usize = 0;
    while i < ps.len()
        invariant
            i <= ps@.len(),
            v == pred_list_view(ps@),
            out.deep_view() + all_in_domain(v, domain.deep_view(), i as int) == all_in_domain(v, domain.deep_view(), 0),
        decreases ps@.len() - i,
    {
        list::push(&mut out, ref_with_domain(&ps[i], domain));
        i += 1;
    }
    out
}

fn ref_with_domain<D: Domains>(p: &Pred, domain: &D) -> (r: Pred) where
    <D as DeepView>::V: DomainTable,

    ensures
        r.deep_view() == in_domain(p.deep_view(), domain.deep_view()),
    decreases p,
{
    broadcast use pred_list_view_is_deep;

    match p {
        Pred::NotIn { field, values } => match domain.domain(field) {
            Some(all) => Pred::In { values: all.difference(values), field: field.dup() },
            None => p.dup(),
        },
        Pred::And(ps) => Pred::And(all_with_domain(ps, domain)),
        Pred::Or(ps) => Pred::Or(all_with_domain(ps, domain)),
        other => other.dup(),
    }
}

fn render_all(ps: &Vec<Pred>) -> (r: Vec<String>)
    ensures
        r.deep_view() == pred_texts(pred_list_view(ps@), 0),
    decreases ps,
{
    let ghost v = pred_list_view(ps@);
    let mut out: Vec<String> = list::empty();
    let mut i: usize = 0;
    while i < ps.len()
        invariant
            i <= ps@.len(),
            v == pred_list_view(ps@),
            out.deep_view() + pred_texts(v, i as int) == pred_texts(v, 0),
        decreases ps@.len() - i,
    {
        list::push(&mut out, ps[i].render());
        i += 1;
    }
    out
}

impl Pred {
    /// Canonical comparison, so that equivalent spellings compare equal.
    pub fn compare(left: String, op: &str, right: String) -> (r: Pred)
        ensures
            r.deep_view() == compared(left@, op@, right@),
    {
        if text::same(op, ">") {
            Pred::Compare { left: right, op: "<".to_owned(), right: left }
        } else if text::same(op, ">=") {
            Pred::Compare { left: right, op: "<=".to_owned(), right: left }
        } else if (text::same(op, "==") || text::same(op, "!=")) && text::comes_before(
            &right,
            &left,
        ) {
            Pred::Compare { left: right, op: op.to_owned(), right: left }
        } else {
            Pred::Compare { left, op: op.to_owned(), right }
        }
    }

    /// The predicate that holds where this one does not.
    pub fn negate(self) -> (r: Pred)
        ensures
            r.deep_view() == negation(self.deep_view()),
    {
        negate_ref(&self)
    }

    /// Merges same-field set constraints (`a=X || a=Y` is `a ∈ {X,Y}`, `a≠X && a≠Y` is
    /// `a ∉ {X,Y}`) and flattens nested connectives.
    pub fn simplify(self) -> (r: Pred)
        ensures
            r.deep_view() == simplified(self.deep_view()),
            simplified(r.deep_view()) == r.deep_view(),
    {
        proof {
            simplifying_once_is_enough(self.deep_view());
        }
        simplify_ref(&self)
    }

    /// The field that this predicate constrains, if it constrains exactly one.
    pub fn field(&self) -> (r: Option<&str>)
        ensures
            r.deep_view() == field_of(self.deep_view()),
    {
        match self {
            Pred::In { field, .. } => Some(field.as_str()),
            Pred::NotIn { field, .. } => Some(field.as_str()),
            Pred::Truthy(field) => Some(field.as_str()),
            Pred::Falsy(field) => Some(field.as_str()),
            _ => None,
        }
    }

    /// Rewrites `f ∉ S` as `f ∈ (domain − S)` when the field has a known finite domain.
    pub fn with_domain<D: Domains>(self, domain: &D) -> (r: Pred) where
        <D as DeepView>::V: DomainTable,

        ensures
            r.deep_view() == in_domain(self.deep_view(), domain.deep_view()),
    {
        ref_with_domain(&self, domain)
    }

    /// The predicate as a reader sees it.
    pub fn render(&self) -> (r: String)
        ensures
            r@ == pred_text(self.deep_view()),
        decreases self,
    {
        match self {
            Pred::In { field, values } => text::cat3(field, " ∈ ", &render_set(values)),
            Pred::NotIn { field, values } => text::cat3(field, " ∉ ", &render_set(values)),
            Pred::Truthy(f) => text::cat2(f, " is set"),
            Pred::Falsy(f) => text::cat2(f, " is not set"),
            Pred::Call { entity, negated } => {
                let short = text::last_piece(entity, "::");
                if *negated {
                    text::cat3("!", &short, "()")
                } else {
                    text::cat2(&short, "()")
                }
            },
            Pred::Compare { left, op, right } => text::cat5(left, " ", op, " ", right),
            Pred::And(ps) => text::join(&render_all(ps), " ∧ "),
            Pred::Or(ps) => text::join(&render_all(ps), " ∨ "),
            Pred::Opaque { text, negated } => if *negated {
                text::cat3("!(", text, ")")
            } else {
                text.dup()
            },
            Pred::True => "true".to_owned(),
            Pred::False => "false".to_owned(),
        }
    }
}

} // verus!
