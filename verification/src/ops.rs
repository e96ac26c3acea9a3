//! Typed operations: the changes that a transition lists, and how single facts become one.

use crate::ir::{hash_text, stable_hash, Loc, LocView};
use crate::list;
use crate::list::Plain;
use crate::model::{AccessFact, AccessFactView, Origin, QueryFilter, QueryFilterView};
use crate::ordered;
use crate::ordered::{added, keys, lookup, SortedMap};
use crate::pred::{pred_text, Pred, PredView};
use crate::text;
use crate::text::Text;
use vstd::prelude::*;

verus! {

/// What an operation is about.
#[derive(Debug, Clone, Copy, PartialEq, Eq, Structural)]
pub enum Layer {
    /// Where code stands: added, removed, moved.
    Structure,
    Behaviour,
    Design,
}

impl DeepView for Layer {
    type V = Layer;

    open spec fn deep_view(&self) -> Layer {
        *self
    }
}

impl Plain for Layer {
    fn dup(&self) -> (r: Self) {
        *self
    }

    fn alike(&self, other: &Self) -> (r: bool) {
        *self == *other
    }
}

/// One change between two versions.
#[derive(Debug, PartialEq)]
pub struct Op {
    pub id: String,
    pub kind: String,
    pub layer: Layer,
    pub subject: String,
    pub before: Option<String>,
    pub after: Option<String>,
    pub evidence_before: Vec<Loc>,
    pub evidence_after: Vec<Loc>,
    pub origin: Origin,
    /// Confidence in hundredths.
    pub confidence: u32,
    /// HTTP entry points and callers whose behaviour this op reaches.
    pub affects: Vec<String>,
    pub note: Option<String>,
}

/// The view of [`Op`].
#[verifier::ext_equal]
pub struct OpView {
    pub id: Seq<char>,
    pub kind: Seq<char>,
    pub layer: Layer,
    pub subject: Seq<char>,
    pub before: Option<Seq<char>>,
    pub after: Option<Seq<char>>,
    pub evidence_before: Seq<LocView>,
    pub evidence_after: Seq<LocView>,
    pub origin: Origin,
    pub confidence: u32,
    pub affects: Seq<Seq<char>>,
    pub note: Option<Seq<char>>,
}

impl DeepView for Op {
    type V = OpView;

    open spec fn deep_view(&self) -> OpView {
        OpView { id: self.id@, kind: self.kind@, layer: self.layer, subject: self.subject@, before: self.before.deep_view(), after: self.after.deep_view(), evidence_before: self.evidence_before.deep_view(), evidence_after: self.evidence_after.deep_view(), origin: self.origin, confidence: self.confidence, affects: self.affects.deep_view(), note: self.note.deep_view() }
    }
}

impl Plain for Op {
    fn dup(&self) -> (r: Self) {
        Op { id: self.id.dup(), kind: self.kind.dup(), layer: self.layer, subject: self.subject.dup(), before: self.before.dup(), after: self.after.dup(), evidence_before: self.evidence_before.dup(), evidence_after: self.evidence_after.dup(), origin: self.origin, confidence: self.confidence, affects: self.affects.dup(), note: self.note.dup() }
    }

    fn alike(&self, other: &Self) -> (r: bool) {
        self.id.alike(&other.id) && self.kind.alike(&other.kind) && self.layer == other.layer && self.subject.alike(&other.subject) && self.before.alike(&other.before) && self.after.alike(&other.after) && self.evidence_before.alike(&other.evidence_before) && self.evidence_after.alike(&other.evidence_after) && self.origin == other.origin && self.confidence == other.confidence && self.affects.alike(&other.affects) && self.note.alike(&other.note)
    }
}

// ---- operations

/// An optional text as `Debug` shows it.
pub open spec fn shown(t: Option<Text>) -> Text {
    match t {
        Some(s) => "Some("@ + text::quoted(s) + ")"@,
        None => "None"@,
    }
}

/// The id of an operation: its kind and a hash of what it says.
pub open spec fn op_id(kind: Text, subject: Text, before: Option<Text>, after: Option<Text>) -> Text {
    text::lowercase(kind) + ":"@ + hash_text(
        kind + "|"@ + subject + "|"@ + shown(before) + "|"@ + shown(after),
    )
}

/// An operation that was found in the code.
pub open spec fn found(
    kind: Text,
    layer: Layer,
    subject: Text,
    before: Option<Text>,
    after: Option<Text>,
    eb: Seq<LocView>,
    ea: Seq<LocView>,
) -> OpView {
    OpView {
        id: op_id(kind, subject, before, after),
        kind,
        layer,
        subject,
        before,
        after,
        evidence_before: eb,
        evidence_after: ea,
        origin: Origin::Static,
        confidence: 100,
        affects: seq![],
        note: None,
    }
}

fn show(t: &Option<String>) -> (r: String)
    ensures
        r@ == shown(t.deep_view()),
{
    match t {
        Some(s) => text::cat3("Some(", &text::quote(s), ")"),
        None => "None".to_owned(),
    }
}

/// The operation of a kind on a subject, found in the code.
pub fn found_op(
    kind: &str,
    layer: Layer,
    subject: &str,
    before: Option<String>,
    after: Option<String>,
    eb: Vec<Loc>,
    ea: Vec<Loc>,
) -> (r: Op)
    ensures
        r.deep_view() == found(
            kind@,
            layer,
            subject@,
            before.deep_view(),
            after.deep_view(),
            eb.deep_view(),
            ea.deep_view(),
        ),
{
    let said = text::cat7(kind, "|", subject, "|", &show(&before), "|", &show(&after));
    Op {
        id: text::cat3(&text::to_lower(kind), ":", &stable_hash(&said)),
        kind: kind.to_owned(),
        layer,
        subject: subject.to_owned(),
        before,
        after,
        evidence_before: eb,
        evidence_after: ea,
        origin: Origin::Static,
        confidence: 100,
        affects: list::empty(),
        note: None,
    }
}

// ---- names

/// An id without its module.
pub open spec fn short_name(id: Text) -> Text {
    text::after_last(id, "::"@)
}

/// The name of an entity without its file.
pub fn short(id: &str) -> (r: String)
    ensures
        r@ == short_name(id@),
{
    text::last_piece(id, "::")
}

/// A text is one of the names of roles and permissions.
pub open spec fn is_auth_word(w: Text) -> bool {
    w == "role"@ || w == "roles"@ || w == "permission"@ || w == "permissions"@ || w == "scope"@ || w
        == "scopes"@ || w == "isadmin"@ || w == "admin"@ || w == "group"@ || w == "groups"@ || w
        == "claims"@
}

/// A field that says what someone may do.
pub open spec fn auth_field(field: Text) -> bool {
    is_auth_word(text::lowercase(text::after_last(field, "."@)))
}

/// A field holds roles or permissions.
pub fn is_auth_field(field: &str) -> (r: bool)
    ensures
        r == auth_field(field@),
{
    let w = text::to_lower(&text::last_piece(field, "."));
    text::same(&w, "role") || text::same(&w, "roles") || text::same(&w, "permission")
        || text::same(&w, "permissions") || text::same(&w, "scope") || text::same(&w, "scopes")
        || text::same(&w, "isadmin") || text::same(&w, "admin") || text::same(&w, "group")
        || text::same(&w, "groups") || text::same(&w, "claims")
}

/// A predicate from index `i` on tests what someone may do.
pub open spec fn any_auth(ps: Seq<PredView>, i: int) -> bool
    decreases ps, ps.len() - i,
{
    if 0 <= i < ps.len() {
        auth_pred(ps[i]) || any_auth(ps, i + 1)
    } else {
        false
    }
}

/// A predicate that tests what someone may do.
pub open spec fn auth_pred(p: PredView) -> bool
    decreases p, 0int,
{
    match p {
        PredView::In { field, .. } => auth_field(field),
        PredView::NotIn { field, .. } => auth_field(field),
        PredView::And(ps) => any_auth(ps, 0),
        PredView::Or(ps) => any_auth(ps, 0),
        _ => false,
    }
}

fn any_auth_pred(ps: &Vec<Pred>) -> (r: bool)
    ensures
        r == any_auth(crate::pred::pred_list_view(ps@), 0),
    decreases ps, 1int,
{
    let ghost v = crate::pred::pred_list_view(ps@);
    let mut i: usize = 0;
    while i < ps.len()
        invariant
            i <= ps@.len(),
            v == crate::pred::pred_list_view(ps@),
            any_auth(v, 0) == any_auth(v, i as int),
        decreases ps@.len() - i,
    {
        assert(v[i as int] == crate::pred::pred_view(ps@[i as int]));
        if is_auth_pred(&ps[i]) {
            return true;
        }
        i += 1;
    }
    false
}

/// A condition is about roles or permissions.
pub fn is_auth_pred(p: &Pred) -> (r: bool)
    ensures
        r == auth_pred(p.deep_view()),
    decreases p, 0int,
{
    match p {
        Pred::In { field, .. } => is_auth_field(field),
        Pred::NotIn { field, .. } => is_auth_field(field),
        Pred::And(ps) => {
            let ghost v = crate::pred::pred_list_view(ps@);
            any_auth_pred(ps)
        },
        Pred::Or(ps) => {
            let ghost v = crate::pred::pred_list_view(ps@);
            any_auth_pred(ps)
        },
        _ => false,
    }
}

// ---- access and guards

/// The kind of a change from one predicate to another.
pub open spec fn auth_kind(pa: PredView, pb: PredView) -> Text {
    if !auth_pred(pa) && !auth_pred(pb) {
        "GUARD_CHANGED"@
    } else {
        match (pa, pb) {
            (
                PredView::In { field: fa, values: va },
                PredView::In { field: fb, values: vb },
            ) => if fa == fb {
                if ordered::within(va, vb) {
                    "AUTH_WIDENED"@
                } else if ordered::within(vb, va) {
                    "AUTH_NARROWED"@
                } else {
                    "AUTH_CHANGED"@
                }
            } else {
                "AUTH_CHANGED"@
            },
            _ => "AUTH_CHANGED"@,
        }
    }
}

/// The change from one predicate to another: access is widened exactly if every value that
/// was accepted still is, and narrowed exactly if only some of them are.
pub open spec fn auth_changed(
    subject: Text,
    pa: PredView,
    pb: PredView,
    la: LocView,
    lb: LocView,
) -> OpView {
    found(
        auth_kind(pa, pb),
        Layer::Behaviour,
        subject,
        Some(pred_text(pa)),
        Some(pred_text(pb)),
        seq![la],
        seq![lb],
    )
}

/// The operation for a guard that asks for something else than before.
pub fn auth_change(subject: &str, pa: &Pred, pb: &Pred, la: &Loc, lb: &Loc) -> (r: Op)
    ensures
        r.deep_view() == auth_changed(
            subject@,
            pa.deep_view(),
            pb.deep_view(),
            la.deep_view(),
            lb.deep_view(),
        ),
{
    let kind = if !is_auth_pred(pa) && !is_auth_pred(pb) {
        "GUARD_CHANGED"
    } else {
        match (pa, pb) {
            (Pred::In { field: fa, values: va }, Pred::In { field: fb, values: vb }) => {
                if fa.alike(fb) {
                    if va.is_subset(vb) {
                        "AUTH_WIDENED"
                    } else if vb.is_subset(va) {
                        "AUTH_NARROWED"
                    } else {
                        "AUTH_CHANGED"
                    }
                } else {
                    "AUTH_CHANGED"
                }
            },
            _ => "AUTH_CHANGED",
        }
    };
    found_op(
        kind,
        Layer::Behaviour,
        subject,
        Some(pa.render()),
        Some(pb.render()),
        list::one(la.dup()),
        list::one(lb.dup()),
    )
}

/// The facts from index `i` on whose requirement the other side does not have.
pub open spec fn facts_only(
    here: Seq<(Text, AccessFactView)>,
    there: Seq<(Text, AccessFactView)>,
    i: int,
) -> Seq<AccessFactView>
    decreases here.len() - i,
{
    if 0 <= i < here.len() {
        let rest = facts_only(here, there, i + 1);
        if lookup(there, here[i].0) is Some {
            rest
        } else {
            seq![here[i].1] + rest
        }
    } else {
        seq![]
    }
}

/// A fact grants access (or requires it).
pub open spec fn any_grant(facts: Seq<AccessFactView>, grant: bool) -> bool {
    exists|i: int| 0 <= i < facts.len() && (#[trigger] facts[i]).grant == grant
}

/// The texts, if there are any, with `sep` between them.
pub open spec fn listed(texts: Seq<Text>, sep: Text) -> Option<Text> {
    if texts.len() == 0 {
        None
    } else {
        Some(text::joined(texts, sep))
    }
}

/// Access requirements reached before and after. Dropping a requirement or adding
/// a grant widens access; the reverse narrows it.
pub open spec fn access_changed(
    subject: Text,
    a: Seq<(Text, AccessFactView)>,
    b: Seq<(Text, AccessFactView)>,
) -> Seq<OpView> {
    if keys(a) == keys(b) {
        seq![]
    } else {
        let gone = facts_only(a, b, 0);
        let fresh = facts_only(b, a, 0);
        let widens = any_grant(gone, false) || any_grant(fresh, true);
        let narrows = any_grant(fresh, false) || any_grant(gone, true);
        seq![
            found(
                if widens && !narrows {
                    "AUTH_WIDENED"@
                } else if narrows && !widens {
                    "AUTH_NARROWED"@
                } else {
                    "AUTH_CHANGED"@
                },
                Layer::Behaviour,
                subject,
                listed(requirements_of(gone), ", "@),
                listed(requirements_of(fresh), ", "@),
                places_of(gone),
                places_of(fresh),
            ),
        ]
    }
}

/// The requirements of the facts.
pub open spec fn requirements_of(facts: Seq<AccessFactView>) -> Seq<Text> {
    Seq::new(facts.len(), |i: int| facts[i].requirement)
}

/// The places of the facts.
pub open spec fn places_of(facts: Seq<AccessFactView>) -> Seq<LocView> {
    Seq::new(facts.len(), |i: int| facts[i].loc)
}

fn only_facts(
    here: &SortedMap<String, AccessFact>,
    there: &SortedMap<String, AccessFact>,
) -> (r: Vec<AccessFact>)
    ensures
        r.deep_view() == facts_only(here.deep_view(), there.deep_view(), 0),
{
    let ghost hv = here.deep_view();
    let ghost tv = there.deep_view();
    let mut out: Vec<AccessFact> = list::empty();
    let mut i: usize = 0;
    while i < here.len()
        invariant
            i <= hv.len(),
            hv == here.deep_view(),
            tv == there.deep_view(),
            out.deep_view() + facts_only(hv, tv, i as int) == facts_only(hv, tv, 0),
        decreases hv.len() - i,
    {
        if !there.contains_key(here.key(i)) {
            list::push(&mut out, here.value(i).dup());
        }
        i += 1;
    }
    out
}

fn grants(facts: &Vec<AccessFact>, grant: bool) -> (r: bool)
    ensures
        r == any_grant(facts.deep_view(), grant),
{
    let ghost v = facts.deep_view();
    let mut i: usize = 0;
    while i < facts.len()
        invariant
            i <= facts@.len(),
            v == facts.deep_view(),
            forall|k: int| 0 <= k < i ==> (#[trigger] v[k]).grant != grant,
        decreases facts@.len() - i,
    {
        assert(v[i as int] == facts@[i as int].deep_view());
        if facts[i].grant == grant {
            return true;
        }
        i += 1;
    }
    false
}

/// The texts joined by `sep`, if there are any.
pub fn list_of(texts: &Vec<String>, sep: &str) -> (r: Option<String>)
    ensures
        r.deep_view() == listed(texts.deep_view(), sep@),
{
    if texts.len() == 0 {
        None
    } else {
        Some(text::join(texts, sep))
    }
}

fn said(facts: &Vec<AccessFact>) -> (r: (Vec<String>, Vec<Loc>))
    ensures
        r.0.deep_view() == requirements_of(facts.deep_view()),
        r.1.deep_view() == places_of(facts.deep_view()),
{
    let ghost v = facts.deep_view();
    let mut texts: Vec<String> = list::empty();
    let mut locs: Vec<Loc> = list::empty();
    let mut i: usize = 0;
    while i < facts.len()
        invariant
            i <= facts@.len(),
            v == facts.deep_view(),
            texts.deep_view() == requirements_of(v).take(i as int),
            locs.deep_view() == places_of(v).take(i as int),
        decreases facts@.len() - i,
    {
        assert(v[i as int] == facts@[i as int].deep_view());
        list::push(&mut texts, facts[i].requirement.dup());
        list::push(&mut locs, facts[i].loc.dup());
        i += 1;
        assert(texts.deep_view() =~= requirements_of(v).take(i as int));
        assert(locs.deep_view() =~= places_of(v).take(i as int));
    }
    assert(requirements_of(v).take(v.len() as int) =~= requirements_of(v));
    assert(places_of(v).take(v.len() as int) =~= places_of(v));
    (texts, locs)
}

fn same_keys(a: &SortedMap<String, AccessFact>, b: &SortedMap<String, AccessFact>) -> (r: bool)
    ensures
        r == (keys(a.deep_view()) == keys(b.deep_view())),
{
    let ghost av = a.deep_view();
    let ghost bv = b.deep_view();
    if a.len() != b.len() {
        assert(keys(av).len() != keys(bv).len());
        return false;
    }
    let mut i: usize = 0;
    while i < a.len()
        invariant
            i <= av.len(),
            av == a.deep_view(),
            bv == b.deep_view(),
            av.len() == bv.len(),
            forall|k: int| 0 <= k < i ==> keys(av)[k] == #[trigger] keys(bv)[k],
        decreases av.len() - i,
    {
        if !a.key(i).alike(b.key(i)) {
            assert(keys(av)[i as int] != keys(bv)[i as int]);
            return false;
        }
        i += 1;
    }
    assert(keys(av) =~= keys(bv));
    true
}

/// The operations for an entity whose access rules differ from before.
pub fn access_change(
    subject: &str,
    a: &SortedMap<String, AccessFact>,
    b: &SortedMap<String, AccessFact>,
) -> (r: Vec<Op>)
    ensures
        r.deep_view() == access_changed(subject@, a.deep_view(), b.deep_view()),
{
    if same_keys(a, b) {
        return list::empty();
    }
    let gone = only_facts(a, b);
    let fresh = only_facts(b, a);
    let widens = grants(&gone, false) || grants(&fresh, true);
    let narrows = grants(&fresh, false) || grants(&gone, true);
    let kind = if widens && !narrows {
        "AUTH_WIDENED"
    } else if narrows && !widens {
        "AUTH_NARROWED"
    } else {
        "AUTH_CHANGED"
    };
    let (before, eb) = said(&gone);
    let (after, ea) = said(&fresh);
    list::one(
        found_op(
            kind,
            Layer::Behaviour,
            subject,
            list_of(&before, ", "),
            list_of(&after, ", "),
            eb,
            ea,
        ),
    )
}

// ---- query filters

/// The place from index `i` on of the filter with this text.
pub open spec fn filter_at(fs: Seq<QueryFilterView>, expr: Text, i: int) -> Option<int>
    decreases fs.len() - i,
{
    if 0 <= i < fs.len() {
        if fs[i].expr == expr {
            Some(i)
        } else {
            filter_at(fs, expr, i + 1)
        }
    } else {
        None
    }
}

/// The filters that left and those that came, after the filters of the new version from index
/// `i` on were held against what is left of the old ones.
pub open spec fn filters_apart(
    gone: Seq<QueryFilterView>,
    fresh: Seq<QueryFilterView>,
    fb: Seq<QueryFilterView>,
    i: int,
) -> (Seq<QueryFilterView>, Seq<QueryFilterView>)
    decreases fb.len() - i,
{
    if 0 <= i < fb.len() {
        match filter_at(gone, fb[i].expr, 0) {
            Some(k) => filters_apart(gone.remove(k), fresh, fb, i + 1),
            None => filters_apart(gone, fresh.push(fb[i]), fb, i + 1),
        }
    } else {
        (gone, fresh)
    }
}

/// The column that a comparison constrains: `asset.ownerId` for `asset.ownerId = _`.
pub open spec fn column(expr: Text) -> Text {
    text::pieces(expr, " "@)[0]
}

/// The place from index `i` on of the filter on a column.
pub open spec fn column_at(fs: Seq<QueryFilterView>, col: Text, i: int) -> Option<int>
    decreases fs.len() - i,
{
    if 0 <= i < fs.len() {
        if column(fs[i].expr) == col {
            Some(i)
        } else {
            column_at(fs, col, i + 1)
        }
    } else {
        None
    }
}

/// The filters that left, from index `i` on, paired with those that came on the same column:
/// what is left of both, and the pairs.
pub open spec fn filters_paired(
    gone: Seq<QueryFilterView>,
    i: int,
    kept: Seq<QueryFilterView>,
    fresh: Seq<QueryFilterView>,
    pairs: Seq<(QueryFilterView, QueryFilterView)>,
) -> (Seq<QueryFilterView>, Seq<QueryFilterView>, Seq<(QueryFilterView, QueryFilterView)>)
    decreases gone.len() - i,
{
    if 0 <= i < gone.len() {
        match column_at(fresh, column(gone[i].expr), 0) {
            Some(k) => filters_paired(
                gone,
                i + 1,
                kept,
                fresh.remove(k),
                pairs.push((gone[i], fresh[k])),
            ),
            None => filters_paired(gone, i + 1, kept.push(gone[i]), fresh, pairs),
        }
    } else {
        (kept, fresh, pairs)
    }
}

/// What is left and what is paired, where a single one on both sides is a pair as well.
pub open spec fn filters_sorted(fa: Seq<QueryFilterView>, fb: Seq<QueryFilterView>) -> (
    Seq<QueryFilterView>,
    Seq<QueryFilterView>,
    Seq<(QueryFilterView, QueryFilterView)>,
) {
    let (gone, fresh) = filters_apart(fa, seq![], fb, 0);
    let (gone, fresh, pairs) = filters_paired(gone, 0, seq![], fresh, seq![]);
    if gone.len() == 1 && fresh.len() == 1 {
        (seq![], seq![], pairs.push((gone[0], fresh[0])))
    } else {
        (gone, fresh, pairs)
    }
}

/// The operations of the pairs from index `i` on.
pub open spec fn filter_changes(
    subject: Text,
    pairs: Seq<(QueryFilterView, QueryFilterView)>,
    i: int,
) -> Seq<OpView>
    decreases pairs.len() - i,
{
    if 0 <= i < pairs.len() {
        let (g, n) = pairs[i];
        seq![
            found(
                "QUERY_FILTER_CHANGED"@,
                Layer::Behaviour,
                subject,
                Some(g.expr),
                Some(n.expr),
                seq![g.loc],
                seq![n.loc],
            ),
        ] + filter_changes(subject, pairs, i + 1)
    } else {
        seq![]
    }
}

/// The operations of the filters from index `i` on that left.
pub open spec fn filter_losses(subject: Text, gone: Seq<QueryFilterView>, i: int) -> Seq<OpView>
    decreases gone.len() - i,
{
    if 0 <= i < gone.len() {
        seq![
            OpView {
                note: Some(
                    "the query no longer applies this predicate: it can reach more rows"@,
                ),
                ..found(
                    "QUERY_FILTER_REMOVED"@,
                    Layer::Behaviour,
                    subject,
                    Some(gone[i].expr),
                    None,
                    seq![gone[i].loc],
                    seq![],
                )
            },
        ] + filter_losses(subject, gone, i + 1)
    } else {
        seq![]
    }
}

/// The operations of the filters from index `i` on that came.
pub open spec fn filter_gains(subject: Text, fresh: Seq<QueryFilterView>, i: int) -> Seq<OpView>
    decreases fresh.len() - i,
{
    if 0 <= i < fresh.len() {
        seq![
            OpView {
                note: Some("the query now applies this predicate: it reaches fewer rows"@),
                ..found(
                    "QUERY_FILTER_ADDED"@,
                    Layer::Behaviour,
                    subject,
                    None,
                    Some(fresh[i].expr),
                    seq![],
                    seq![fresh[i].loc],
                )
            },
        ] + filter_gains(subject, fresh, i + 1)
    } else {
        seq![]
    }
}

/// Query predicates that appeared or disappeared in one entity. A removed filter
/// widens the rows a query reaches; one replaced on the same column changed it.
pub open spec fn filters_changed(
    subject: Text,
    fa: Seq<QueryFilterView>,
    fb: Seq<QueryFilterView>,
) -> Seq<OpView> {
    let (gone, fresh, pairs) = filters_sorted(fa, fb);
    filter_changes(subject, pairs, 0) + filter_losses(subject, gone, 0) + filter_gains(
        subject,
        fresh,
        0,
    )
}

fn expr_at(fs: &Vec<QueryFilter>, expr: &String) -> (r: Option<usize>)
    ensures
        match r {
            Some(k) => k < fs@.len() && filter_at(fs.deep_view(), expr@, 0) == Some(k as int),
            None => filter_at(fs.deep_view(), expr@, 0) is None,
        },
{
    let ghost v = fs.deep_view();
    let mut i: usize = 0;
    while i < fs.len()
        invariant
            i <= fs@.len(),
            v == fs.deep_view(),
            filter_at(v, expr@, 0) == filter_at(v, expr@, i as int),
        decreases fs@.len() - i,
    {
        assert(v[i as int] == fs@[i as int].deep_view());
        if fs[i].expr.alike(expr) {
            return Some(i);
        }
        i += 1;
    }
    None
}

proof fn first_piece_is_there(s: Text, p: Text)
    ensures
        text::pieces(s, p).len() > 0,
{
}

fn column_of(expr: &String) -> (r: String)
    ensures
        r@ == column(expr@),
{
    let parts = text::split(expr, " ");
    proof {
        first_piece_is_there(expr@, " "@);
    }
    assert(parts.deep_view()[0] == parts@[0]@);
    parts[0].dup()
}

fn same_column_at(fs: &Vec<QueryFilter>, col: &String) -> (r: Option<usize>)
    ensures
        match r {
            Some(k) => k < fs@.len() && column_at(fs.deep_view(), col@, 0) == Some(k as int),
            None => column_at(fs.deep_view(), col@, 0) is None,
        },
{
    let ghost v = fs.deep_view();
    let mut i: usize = 0;
    while i < fs.len()
        invariant
            i <= fs@.len(),
            v == fs.deep_view(),
            column_at(v, col@, 0) == column_at(v, col@, i as int),
        decreases fs@.len() - i,
    {
        assert(v[i as int] == fs@[i as int].deep_view());
        if column_of(&fs[i].expr).alike(col) {
            return Some(i);
        }
        i += 1;
    }
    None
}

fn take_out(fs: &mut Vec<QueryFilter>, k: usize) -> (r: QueryFilter)
    requires
        k < old(fs)@.len(),
    ensures
        r.deep_view() == old(fs).deep_view()[k as int],
        final(fs).deep_view() == old(fs).deep_view().remove(k as int),
{
    let ghost before = fs.deep_view();
    let r = fs.remove(k);
    assert(fs.deep_view() =~= before.remove(k as int));
    r
}

fn sort_filters(fa: &Vec<QueryFilter>, fb: &Vec<QueryFilter>) -> (r: (
    Vec<QueryFilter>,
    Vec<QueryFilter>,
    Vec<(QueryFilter, QueryFilter)>,
))
    ensures
        (r.0.deep_view(), r.1.deep_view(), r.2.deep_view()) == filters_sorted(
            fa.deep_view(),
            fb.deep_view(),
        ),
{
    let ghost av = fa.deep_view();
    let ghost bv = fb.deep_view();
    let mut gone = fa.dup();
    let mut fresh: Vec<QueryFilter> = list::empty();
    let mut i: usize = 0;
    while i < fb.len()
        invariant
            i <= fb@.len(),
            bv == fb.deep_view(),
            filters_apart(gone.deep_view(), fresh.deep_view(), bv, i as int) == filters_apart(
                av,
                seq![],
                bv,
                0,
            ),
        decreases fb@.len() - i,
    {
        assert(bv[i as int] == fb@[i as int].deep_view());
        match expr_at(&gone, &fb[i].expr) {
            Some(k) => {
                let _ = take_out(&mut gone, k);
            },
            None => {
                list::push(&mut fresh, fb[i].dup());
            },
        }
        i += 1;
    }
    let ghost gv = gone.deep_view();
    let ghost nv = fresh.deep_view();
    let mut kept: Vec<QueryFilter> = list::empty();
    let mut pairs: Vec<(QueryFilter, QueryFilter)> = list::empty();
    i = 0;
    while i < gone.len()
        invariant
            i <= gone@.len(),
            gv == gone.deep_view(),
            filters_paired(
                gv,
                i as int,
                kept.deep_view(),
                fresh.deep_view(),
                pairs.deep_view(),
            ) == filters_paired(gv, 0, seq![], nv, seq![]),
        decreases gone@.len() - i,
    {
        let g = &gone[i];
        assert(gv[i as int] == g.deep_view());
        match same_column_at(&fresh, &column_of(&g.expr)) {
            Some(k) => {
                let n = take_out(&mut fresh, k);
                list::push(&mut pairs, (g.dup(), n));
            },
            None => {
                list::push(&mut kept, g.dup());
            },
        }
        i += 1;
    }
    if kept.len() == 1 && fresh.len() == 1 {
        let g = take_out(&mut kept, 0);
        let n = take_out(&mut fresh, 0);
        list::push(&mut pairs, (g, n));
        (list::empty(), list::empty(), pairs)
    } else {
        (kept, fresh, pairs)
    }
}

/// The operations for filters of queries that came, went or changed.
pub fn query_filters(subject: &str, fa: &Vec<QueryFilter>, fb: &Vec<QueryFilter>) -> (r: Vec<Op>)
    ensures
        r.deep_view() == filters_changed(subject@, fa.deep_view(), fb.deep_view()),
{
    let (gone, fresh, pairs) = sort_filters(fa, fb);
    let ghost gv = gone.deep_view();
    let ghost nv = fresh.deep_view();
    let ghost pv = pairs.deep_view();
    let mut out: Vec<Op> = list::empty();
    let mut i: usize = 0;
    while i < pairs.len()
        invariant
            i <= pairs@.len(),
            pv == pairs.deep_view(),
            out.deep_view() + filter_changes(subject@, pv, i as int) == filter_changes(
                subject@,
                pv,
                0,
            ),
        decreases pairs@.len() - i,
    {
        let g = &pairs[i].0;
        let n = &pairs[i].1;
        assert(pv[i as int] == (g.deep_view(), n.deep_view()));
        list::push(
            &mut out,
            found_op(
                "QUERY_FILTER_CHANGED",
                Layer::Behaviour,
                subject,
                Some(g.expr.dup()),
                Some(n.expr.dup()),
                list::one(g.loc.dup()),
                list::one(n.loc.dup()),
            ),
        );
        i += 1;
    }
    let ghost first = out.deep_view();
    i = 0;
    while i < gone.len()
        invariant
            i <= gone@.len(),
            gv == gone.deep_view(),
            out.deep_view() + filter_losses(subject@, gv, i as int) == first + filter_losses(
                subject@,
                gv,
                0,
            ),
        decreases gone@.len() - i,
    {
        let g = &gone[i];
        assert(gv[i as int] == g.deep_view());
        let mut op = found_op(
            "QUERY_FILTER_REMOVED",
            Layer::Behaviour,
            subject,
            Some(g.expr.dup()),
            None,
            list::one(g.loc.dup()),
            list::empty(),
        );
        op.note = Some(
            "the query no longer applies this predicate: it can reach more rows".to_owned(),
        );
        list::push(&mut out, op);
        i += 1;
    }
    let ghost second = out.deep_view();
    i = 0;
    while i < fresh.len()
        invariant
            i <= fresh@.len(),
            nv == fresh.deep_view(),
            out.deep_view() + filter_gains(subject@, nv, i as int) == second + filter_gains(
                subject@,
                nv,
                0,
            ),
        decreases fresh@.len() - i,
    {
        let n = &fresh[i];
        assert(nv[i as int] == n.deep_view());
        let mut op = found_op(
            "QUERY_FILTER_ADDED",
            Layer::Behaviour,
            subject,
            None,
            Some(n.expr.dup()),
            list::empty(),
            list::one(n.loc.dup()),
        );
        op.note = Some("the query now applies this predicate: it reaches fewer rows".to_owned());
        list::push(&mut out, op);
        i += 1;
    }
    out
}

// ---- laws

/// The one side has a requirement (or a grant) that the other does not.
pub open spec fn has_alone(
    here: Seq<(Text, AccessFactView)>,
    there: Seq<(Text, AccessFactView)>,
    grant: bool,
) -> bool {
    exists|i: int|
        0 <= i < here.len() && (#[trigger] here[i]).1.grant == grant && lookup(there, here[i].0)
            is None
}

proof fn alone_is_found(
    here: Seq<(Text, AccessFactView)>,
    there: Seq<(Text, AccessFactView)>,
    grant: bool,
    i: int,
)
    requires
        0 <= i,
    ensures
        any_grant(facts_only(here, there, i), grant) <==> exists|k: int|
            i <= k < here.len() && (#[trigger] here[k]).1.grant == grant && lookup(
                there,
                here[k].0,
            ) is None,
    decreases here.len() - i,
{
    if i < here.len() {
        alone_is_found(here, there, grant, i + 1);
        let all = facts_only(here, there, i);
        let rest = facts_only(here, there, i + 1);
        if lookup(there, here[i].0) is None {
            assert(all == seq![here[i].1] + rest);
            if here[i].1.grant == grant {
                assert(all[0].grant == grant);
            }
            if any_grant(rest, grant) {
                let k = choose|k: int| 0 <= k < rest.len() && (#[trigger] rest[k]).grant == grant;
                assert(all[k + 1] == rest[k]);
            }
            if any_grant(all, grant) {
                let k = choose|k: int| 0 <= k < all.len() && (#[trigger] all[k]).grant == grant;
                if k > 0 {
                    assert(rest[k - 1] == all[k]);
                }
            }
        }
        if exists|k: int|
            i <= k < here.len() && (#[trigger] here[k]).1.grant == grant && lookup(
                there,
                here[k].0,
            ) is None {
            let k = choose|k: int|
                i <= k < here.len() && (#[trigger] here[k]).1.grant == grant && lookup(
                    there,
                    here[k].0,
                ) is None;
            if k > i {
                assert(i + 1 <= k);
            }
        }
    }
}

/// Dropping a requirement or adding a grant widens access; the reverse narrows it; both at once
/// change it. Nothing is said exactly if the requirements are the same.
pub proof fn access_verdict(
    subject: Text,
    a: Seq<(Text, AccessFactView)>,
    b: Seq<(Text, AccessFactView)>,
)
    ensures
        keys(a) == keys(b) <==> access_changed(subject, a, b).len() == 0,
        keys(a) != keys(b) ==> access_changed(subject, a, b).len() == 1 && access_changed(
            subject,
            a,
            b,
        )[0].kind == ({
            let widens = has_alone(a, b, false) || has_alone(b, a, true);
            let narrows = has_alone(b, a, false) || has_alone(a, b, true);
            if widens && !narrows {
                "AUTH_WIDENED"@
            } else if narrows && !widens {
                "AUTH_NARROWED"@
            } else {
                "AUTH_CHANGED"@
            }
        }),
{
    alone_is_found(a, b, false, 0);
    alone_is_found(a, b, true, 0);
    alone_is_found(b, a, false, 0);
    alone_is_found(b, a, true, 0);
}

} // verus!
