//! The clauses of a behaviour contract: what a function takes, who may call it, what it
//! returns, checks, queries, writes, does and renders, before and after.

use crate::ir::{Loc, LocView};
use crate::list;
use crate::list::Plain;
use crate::model::{
    effect_text, outside_checks, AccessFact, AccessFactView, EffectInfo, EffectInfoView, EffectKey,
    EffectKeyView, Entity, EntityView, GuardFact, GuardFactView, Model, ModelView, Output,
    OutputView, QueryFilter, QueryFilterView, Rendered, RenderedView, SummaryView, WriteFact,
    WriteFactView,
};
use crate::nesting::{closures_from, scoped, scoped_filters};
use crate::ops::{auth_pred, is_auth_pred, short, short_name};
use crate::ordered::{added, lookup, set_of, within, SortedMap, SortedSet};
use crate::pred::{field_of, pred_text, Pred, PredView};
use crate::text;
use crate::text::Text;
use vstd::prelude::*;

verus! {

/// One item of a contract, before and after.
#[derive(Debug, PartialEq)]
pub struct Clause {
    /// `who`, `pre`, `where` (query filters), `post`, `effects`, `lifecycle`, `rule`, `input`, `calls`, `other`.
    pub row: String,
    /// ` ` unchanged, `+` added, `-` removed, `~` changed, `!` rule broken, `?` untyped.
    pub mark: char,
    pub before: Option<String>,
    pub after: Option<String>,
    /// What the change means for this clause: `widened`, `reaches more rows`, `new` …
    pub tag: Option<String>,
    pub evidence_before: Option<Loc>,
    pub evidence_after: Option<Loc>,
}

/// The view of [`Clause`].
#[verifier::ext_equal]
pub struct ClauseView {
    pub row: Seq<char>,
    pub mark: char,
    pub before: Option<Seq<char>>,
    pub after: Option<Seq<char>>,
    pub tag: Option<Seq<char>>,
    pub evidence_before: Option<LocView>,
    pub evidence_after: Option<LocView>,
}

impl DeepView for Clause {
    type V = ClauseView;

    open spec fn deep_view(&self) -> ClauseView {
        ClauseView { row: self.row@, mark: self.mark, before: self.before.deep_view(), after: self.after.deep_view(), tag: self.tag.deep_view(), evidence_before: self.evidence_before.deep_view(), evidence_after: self.evidence_after.deep_view() }
    }
}

impl Plain for Clause {
    fn dup(&self) -> (r: Self) {
        Clause { row: self.row.dup(), mark: self.mark, before: self.before.dup(), after: self.after.dup(), tag: self.tag.dup(), evidence_before: self.evidence_before.dup(), evidence_after: self.evidence_after.dup() }
    }

    fn alike(&self, other: &Self) -> (r: bool) {
        self.row.alike(&other.row) && self.mark == other.mark && self.before.alike(&other.before) && self.after.alike(&other.after) && self.tag.alike(&other.tag) && self.evidence_before.alike(&other.evidence_before) && self.evidence_after.alike(&other.evidence_after)
    }
}

/// What a function promises, before and after.
#[derive(Debug, PartialEq)]
pub struct ContractDiff {
    /// Entity id (after the change; before it for removed code), or a schema or route name.
    pub entity: String,
    /// Display name: `OrderService.cancelOrder`, `TagCreateSchema`, `POST /orders`.
    pub name: String,
    /// `changed`, `new` or `schema`.
    pub status: String,
    pub loc: Loc,
    /// Routes that reach it; `new_routes` are the ones this change adds.
    pub routes: Vec<String>,
    pub new_routes: Vec<String>,
    pub clauses: Vec<Clause>,
    /// Ids of the operations this contract accounts for.
    pub ops: Vec<String>,
}

/// The view of [`ContractDiff`].
#[verifier::ext_equal]
pub struct ContractDiffView {
    pub entity: Seq<char>,
    pub name: Seq<char>,
    pub status: Seq<char>,
    pub loc: LocView,
    pub routes: Seq<Seq<char>>,
    pub new_routes: Seq<Seq<char>>,
    pub clauses: Seq<ClauseView>,
    pub ops: Seq<Seq<char>>,
}

impl DeepView for ContractDiff {
    type V = ContractDiffView;

    open spec fn deep_view(&self) -> ContractDiffView {
        ContractDiffView { entity: self.entity@, name: self.name@, status: self.status@, loc: self.loc.deep_view(), routes: self.routes.deep_view(), new_routes: self.new_routes.deep_view(), clauses: self.clauses.deep_view(), ops: self.ops.deep_view() }
    }
}

impl Plain for ContractDiff {
    fn dup(&self) -> (r: Self) {
        ContractDiff { entity: self.entity.dup(), name: self.name.dup(), status: self.status.dup(), loc: self.loc.dup(), routes: self.routes.dup(), new_routes: self.new_routes.dup(), clauses: self.clauses.dup(), ops: self.ops.dup() }
    }

    fn alike(&self, other: &Self) -> (r: bool) {
        self.entity.alike(&other.entity) && self.name.alike(&other.name) && self.status.alike(&other.status) && self.loc.alike(&other.loc) && self.routes.alike(&other.routes) && self.new_routes.alike(&other.new_routes) && self.clauses.alike(&other.clauses) && self.ops.alike(&other.ops)
    }
}

/// One item of a contract clause.
#[derive(Debug, PartialEq)]
pub struct Item {
    pub row: String,
    /// What pairs an item with its counterpart on the other side (a field, a requirement key …).
    pub key: String,
    pub text: String,
    pub loc: Option<Loc>,
}

/// The view of [`Item`].
#[verifier::ext_equal]
pub struct ItemView {
    pub row: Seq<char>,
    pub key: Seq<char>,
    pub text: Seq<char>,
    pub loc: Option<LocView>,
}

impl DeepView for Item {
    type V = ItemView;

    open spec fn deep_view(&self) -> ItemView {
        ItemView { row: self.row@, key: self.key@, text: self.text@, loc: self.loc.deep_view() }
    }
}

impl Plain for Item {
    fn dup(&self) -> (r: Self) {
        Item { row: self.row.dup(), key: self.key.dup(), text: self.text.dup(), loc: self.loc.dup() }
    }

    fn alike(&self, other: &Self) -> (r: bool) {
        self.row.alike(&other.row) && self.key.alike(&other.key) && self.text.alike(&other.text) && self.loc.alike(&other.loc)
    }
}

impl ContractDiff {
    /// True when only context and untyped call changes remain.
    pub fn untyped_only(&self) -> (r: bool)
        ensures
            r == is_untyped(self.deep_view()),
    {
        let ghost v = self.deep_view().clauses;
        let mut i: usize = 0;
        while i < self.clauses.len()
            invariant
                i <= self.clauses@.len(),
                v == self.deep_view().clauses,
                forall|k: int|
                    0 <= k < i ==> (#[trigger] v[k]).mark == ' ' || v[k].mark == '?',
            decreases self.clauses@.len() - i,
        {
            assert(v[i as int] == self.clauses@[i as int].deep_view());
            if self.clauses[i].mark != ' ' && self.clauses[i].mark != '?' {
                return false;
            }
            i += 1;
        }
        true
    }

    /// A clause has this mark.
    pub fn has(&self, mark: char) -> (r: bool)
        ensures
            r == has_mark(self.deep_view(), mark),
    {
        let ghost v = self.deep_view().clauses;
        let mut i: usize = 0;
        while i < self.clauses.len()
            invariant
                i <= self.clauses@.len(),
                v == self.deep_view().clauses,
                forall|k: int| 0 <= k < i ==> (#[trigger] v[k]).mark != mark,
            decreases self.clauses@.len() - i,
        {
            assert(v[i as int] == self.clauses@[i as int].deep_view());
            if self.clauses[i].mark == mark {
                return true;
            }
            i += 1;
        }
        false
    }
}

/// Every clause is unchanged or untyped.
pub open spec fn is_untyped(c: ContractDiffView) -> bool {
    forall|k: int|
        0 <= k < c.clauses.len() ==> (#[trigger] c.clauses[k]).mark == ' ' || c.clauses[k].mark
            == '?'
}

/// A clause has this mark.
pub open spec fn has_mark(c: ContractDiffView, mark: char) -> bool {
    exists|k: int| 0 <= k < c.clauses.len() && (#[trigger] c.clauses[k]).mark == mark
}

// ---- the items of a contract

/// The text before the first `sep`.
pub open spec fn head(s: Text, sep: Text) -> Text {
    text::pieces(s, sep)[0]
}

/// The part of a text before the first `sep`.
pub fn head_of(s: &str, sep: &str) -> (r: String)
    ensures
        r@ == head(s@, sep@),
{
    let parts = text::split(s, sep);
    assert(text::pieces(s@, sep@).len() > 0);
    assert(parts.deep_view()[0] == parts@[0]@);
    parts[0].dup()
}

/// The parameters from index `i` on.
pub open spec fn takes_from(e: EntityView, i: int) -> Seq<ItemView>
    decreases e.params.len() - i,
{
    if 0 <= i < e.params.len() {
        seq![
            ItemView {
                row: "takes"@,
                key: text::trimmed(head(e.params[i], ":"@)),
                text: e.params[i],
                loc: Some(e.loc),
            },
        ] + takes_from(e, i + 1)
    } else {
        seq![]
    }
}

/// The item of an access requirement.
pub open spec fn access_item(a: AccessFactView) -> ItemView {
    let key = head(a.requirement, "="@);
    ItemView {
        row: "who"@,
        key,
        text: if text::ends(a.requirement, "=_"@) {
            key + " chosen by the caller"@
        } else {
            text::replaced(a.requirement, "="@, " = "@)
        },
        loc: Some(a.loc),
    }
}

/// The access requirements from index `i` on.
pub open spec fn access_from(access: Seq<(Text, AccessFactView)>, i: int) -> Seq<ItemView>
    decreases access.len() - i,
{
    if 0 <= i < access.len() {
        seq![access_item(access[i].1)] + access_from(access, i + 1)
    } else {
        seq![]
    }
}

/// The row of a predicate: a role or permission test is an access rule, whatever form it takes.
pub open spec fn row_of(p: PredView, row: Text) -> Text {
    if auth_pred(p) {
        "who"@
    } else {
        row
    }
}

/// What a predicate is about, or `other` where it is about no single field.
pub open spec fn about(p: PredView, other: Text) -> Text {
    match field_of(p) {
        Some(f) => f,
        None => other,
    }
}

/// A predicate function (a policy) is its rule: `canCancel` returns `User.role ∈ {ADMIN}`.
pub open spec fn rule_item(e: EntityView) -> Seq<ItemView> {
    match e.returns {
        Some(r) => seq![
            ItemView {
                row: row_of(r, "returns"@),
                key: about(r, "returns"@),
                text: pred_text(r),
                loc: Some(
                    match e.returns_at {
                        Some(l) => l,
                        None => e.loc,
                    },
                ),
            },
        ],
        None => seq![],
    }
}

/// A guard at this place returns a value: it is an output case (see `returns`), not a
/// precondition.
pub open spec fn is_case(guards: Seq<GuardFactView>, loc: LocView) -> bool {
    exists|k: int|
        0 <= k < guards.len() && (#[trigger] guards[k]).returns_value && guards[k].loc == loc
}

/// The guards from index `i` on.
pub open spec fn guards_from(
    e: EntityView,
    requirements: Seq<(Text, PredView, LocView)>,
    i: int,
) -> Seq<ItemView>
    decreases requirements.len() - i,
{
    if 0 <= i < requirements.len() {
        let (_, p, l) = requirements[i];
        (if is_case(e.guards, l) {
            seq![]
        } else {
            seq![
                ItemView {
                    row: row_of(p, "pre"@),
                    key: about(p, pred_text(p)),
                    text: pred_text(p),
                    loc: Some(l),
                },
            ]
        }) + guards_from(e, requirements, i + 1)
    } else {
        seq![]
    }
}

/// The checks from index `i` on.
pub open spec fn checks_from(checks: Seq<(Text, LocView)>, i: int) -> Seq<ItemView>
    decreases checks.len() - i,
{
    if 0 <= i < checks.len() {
        let name = short_name(checks[i].0);
        seq![
            ItemView {
                row: "pre"@,
                key: "check "@ + name,
                text: "passes "@ + name,
                loc: Some(checks[i].1),
            },
        ] + checks_from(checks, i + 1)
    } else {
        seq![]
    }
}

/// A text without the brackets and negations that it begins with.
pub open spec fn bare(s: Text) -> Text
    decreases s.len(),
{
    if s.len() > 0 && (s[0] == '(' || s[0] == '¬') {
        bare(s.skip(1))
    } else {
        s
    }
}

/// The filters from index `i` on, each once.
pub open spec fn filters_from(filters: Seq<QueryFilterView>, i: int, seen: Seq<Text>) -> Seq<ItemView>
    decreases filters.len() - i,
{
    if 0 <= i < filters.len() {
        let f = filters[i];
        if seen.contains(f.expr) {
            filters_from(filters, i + 1, seen)
        } else {
            seq![
                ItemView {
                    row: "where"@,
                    key: head(bare(f.expr), " "@),
                    text: f.expr,
                    loc: Some(f.loc),
                },
            ] + filters_from(filters, i + 1, added(seen, f.expr))
        }
    } else {
        seq![]
    }
}

/// What a write does.
pub open spec fn write_text(w: WriteFactView) -> Text {
    match w.value {
        Some(v) => w.field + " := "@ + v,
        None => w.field + " is written"@,
    }
}

/// The writes from index `i` on, each once.
pub open spec fn writes_from(writes: Seq<WriteFactView>, i: int, seen: Seq<Text>) -> Seq<ItemView>
    decreases writes.len() - i,
{
    if 0 <= i < writes.len() {
        let w = writes[i];
        if seen.contains(write_text(w)) {
            writes_from(writes, i + 1, seen)
        } else {
            seq![
                ItemView { row: "post"@, key: w.field, text: write_text(w), loc: Some(w.loc) },
            ] + writes_from(writes, i + 1, added(seen, write_text(w)))
        }
    } else {
        seq![]
    }
}

/// The entity itself writes the field.
pub open spec fn writes_itself(writes: Seq<WriteFactView>, field: Text) -> bool {
    exists|k: int| 0 <= k < writes.len() && (#[trigger] writes[k]).field == field
}

/// The fields from index `i` on that only callees write.
pub open spec fn callee_writes_from(e: EntityView, fields: Seq<Text>, i: int) -> Seq<ItemView>
    decreases fields.len() - i,
{
    if 0 <= i < fields.len() {
        (if writes_itself(e.writes, fields[i]) {
            seq![]
        } else {
            seq![
                ItemView {
                    row: "post"@,
                    key: fields[i],
                    text: fields[i] + " is written (by a callee)"@,
                    loc: None,
                },
            ]
        }) + callee_writes_from(e, fields, i + 1)
    } else {
        seq![]
    }
}

/// The case of an output.
pub open spec fn case_text(o: OutputView) -> Text {
    if o.when.len() == 0 {
        "otherwise"@
    } else {
        "when "@ + text::joined(o.when, " ∧ "@)
    }
}

/// What is rendered, with its condition.
pub open spec fn render_text(r: RenderedView) -> Text {
    if r.when.len() == 0 {
        r.content
    } else {
        r.content + " if "@ + r.when
    }
}

/// What an output renders, from index `i` on.
pub open spec fn renders_from(case: Text, loc: LocView, renders: Seq<RenderedView>, i: int) -> Seq<ItemView>
    decreases renders.len() - i,
{
    if 0 <= i < renders.len() {
        let shown = render_text(renders[i]);
        seq![
            ItemView {
                row: "renders"@,
                key: case + "|"@ + shown,
                text: shown + ": "@ + renders[i].style,
                loc: Some(loc),
            },
        ] + renders_from(case, loc, renders, i + 1)
    } else {
        seq![]
    }
}

/// The outputs from index `i` on.
pub open spec fn outputs_from(outputs: Seq<OutputView>, i: int) -> Seq<ItemView>
    decreases outputs.len() - i,
{
    if 0 <= i < outputs.len() {
        let o = outputs[i];
        let case = case_text(o);
        seq![
            ItemView {
                row: "returns"@,
                key: case,
                text: case + ": "@ + o.value,
                loc: Some(o.loc),
            },
        ] + renders_from(case, o.loc, o.renders, 0) + outputs_from(outputs, i + 1)
    } else {
        seq![]
    }
}

/// The modes from index `i` on that are not on the spot.
pub open spec fn later_from(modes: Seq<Text>, i: int) -> Seq<Text>
    decreases modes.len() - i,
{
    if 0 <= i < modes.len() {
        (if text::begins(modes[i], "async"@) {
            seq![modes[i]]
        } else {
            seq![]
        }) + later_from(modes, i + 1)
    } else {
        seq![]
    }
}

/// An effect, and when it happens where it never happens on the spot.
pub open spec fn timed_effect(k: EffectKeyView, info: EffectInfoView) -> Text {
    let later = later_from(info.modes, 0);
    if later.len() == 0 || info.modes.contains("sync"@) {
        effect_text(k)
    } else {
        effect_text(k) + " ("@ + text::joined(later, ", "@) + ")"@
    }
}

/// The effects from index `i` on.
pub open spec fn effects_from(effects: Seq<(EffectKeyView, EffectInfoView)>, i: int) -> Seq<ItemView>
    decreases effects.len() - i,
{
    if 0 <= i < effects.len() {
        let (k, info) = effects[i];
        seq![
            ItemView {
                row: "effects"@,
                key: k.kind + " "@ + k.target,
                text: timed_effect(k, info),
                loc: if info.evidence.len() > 0 {
                    Some(info.evidence[0])
                } else {
                    None
                },
            },
        ] + effects_from(effects, i + 1)
    } else {
        seq![]
    }
}

/// A function with outputs and nothing else says so.
pub open spec fn purity(e: EntityView, s: SummaryView) -> Seq<ItemView> {
    if s.effects.len() == 0 && s.writes.len() == 0 && e.outputs.len() > 0 {
        seq![ItemView { row: "effects"@, key: "none"@, text: "none found"@, loc: None }]
    } else {
        seq![]
    }
}

/// The items of the contract of an entity.
pub open spec fn items_of(m: ModelView, id: Text) -> Seq<ItemView> {
    match (lookup(m.entities, id), lookup(m.summaries, id)) {
        (Some(e), Some(s)) => takes_from(e, 0) + access_from(s.access, 0) + rule_item(e)
            + guards_from(e, s.requirements, 0) + checks_from(s.validations, 0) + filters_from(
            scoped(m, id),
            0,
            seq![],
        ) + writes_from(e.writes, 0, seq![]) + callee_writes_from(e, s.writes, 0) + outputs_from(
            e.outputs,
            0,
        ) + purity(e, s) + effects_from(outside_checks(m, id), 0),
        _ => seq![],
    }
}

fn take_items(e: &Entity) -> (r: Vec<Item>)
    ensures
        r.deep_view() == takes_from(e.deep_view(), 0),
{
    let ghost v = e.deep_view();
    let mut out: Vec<Item> = list::empty();
    let mut i: usize = 0;
    while i < e.params.len()
        invariant
            i <= e.params@.len(),
            v == e.deep_view(),
            out.deep_view() + takes_from(v, i as int) == takes_from(v, 0),
        decreases e.params@.len() - i,
    {
        let p = &e.params[i];
        assert(v.params[i as int] == p@);
        list::push(
            &mut out,
            Item {
                row: "takes".to_owned(),
                key: text::trim(&head_of(p, ":")),
                text: p.dup(),
                loc: Some(e.loc.dup()),
            },
        );
        i += 1;
    }
    out
}

fn access_items(access: &SortedMap<String, AccessFact>) -> (r: Vec<Item>)
    ensures
        r.deep_view() == access_from(access.deep_view(), 0),
{
    let ghost v = access.deep_view();
    let mut out: Vec<Item> = list::empty();
    let mut i: usize = 0;
    while i < access.len()
        invariant
            i <= v.len(),
            v == access.deep_view(),
            out.deep_view() + access_from(v, i as int) == access_from(v, 0),
        decreases v.len() - i,
    {
        let a = access.value(i);
        let key = head_of(&a.requirement, "=");
        let said = if a.dynamic() {
            text::cat2(&key, " chosen by the caller")
        } else {
            text::replace(&a.requirement, "=", " = ")
        };
        list::push(
            &mut out,
            Item { row: "who".to_owned(), key, text: said, loc: Some(a.loc.dup()) },
        );
        i += 1;
    }
    out
}

fn pred_row(p: &Pred, row: &str) -> (r: String)
    ensures
        r@ == row_of(p.deep_view(), row@),
{
    if is_auth_pred(p) {
        "who".to_owned()
    } else {
        row.to_owned()
    }
}

fn pred_about(p: &Pred, other: &str) -> (r: String)
    ensures
        r@ == about(p.deep_view(), other@),
{
    match p.field() {
        Some(f) => f.to_owned(),
        None => other.to_owned(),
    }
}

fn rule_items(e: &Entity) -> (r: Vec<Item>)
    ensures
        r.deep_view() == rule_item(e.deep_view()),
{
    match &e.returns {
        Some(p) => list::one(
            Item {
                row: pred_row(p, "returns"),
                key: pred_about(p, "returns"),
                text: p.render(),
                loc: Some(
                    match &e.returns_at {
                        Some(l) => l.dup(),
                        None => e.loc.dup(),
                    },
                ),
            },
        ),
        None => list::empty(),
    }
}

fn case_at(guards: &Vec<GuardFact>, loc: &Loc) -> (r: bool)
    ensures
        r == is_case(guards.deep_view(), loc.deep_view()),
{
    let ghost v = guards.deep_view();
    let ghost lv = loc.deep_view();
    let mut i: usize = 0;
    while i < guards.len()
        invariant
            i <= guards@.len(),
            v == guards.deep_view(),
            lv == loc.deep_view(),
            forall|k: int| 0 <= k < i ==> !((#[trigger] v[k]).returns_value && v[k].loc == lv),
        decreases guards@.len() - i,
    {
        assert(v[i as int] == guards@[i as int].deep_view());
        if guards[i].returns_value && guards[i].loc.alike(loc) {
            return true;
        }
        i += 1;
    }
    false
}

fn guard_items(e: &Entity, requirements: &Vec<(String, Pred, Loc)>) -> (r: Vec<Item>)
    ensures
        r.deep_view() == guards_from(e.deep_view(), requirements.deep_view(), 0),
{
    let ghost ev = e.deep_view();
    let ghost v = requirements.deep_view();
    let mut out: Vec<Item> = list::empty();
    let mut i: usize = 0;
    while i < requirements.len()
        invariant
            i <= requirements@.len(),
            ev == e.deep_view(),
            v == requirements.deep_view(),
            out.deep_view() + guards_from(ev, v, i as int) == guards_from(ev, v, 0),
        decreases requirements@.len() - i,
    {
        let g = &requirements[i];
        assert(v[i as int] == (g.0@, g.1.deep_view(), g.2.deep_view()));
        if !case_at(&e.guards, &g.2) {
            let said = g.1.render();
            list::push(
                &mut out,
                Item {
                    row: pred_row(&g.1, "pre"),
                    key: pred_about(&g.1, &said),
                    text: said,
                    loc: Some(g.2.dup()),
                },
            );
        }
        i += 1;
    }
    out
}

fn check_items(checks: &SortedMap<String, Loc>) -> (r: Vec<Item>)
    ensures
        r.deep_view() == checks_from(checks.deep_view(), 0),
{
    let ghost v = checks.deep_view();
    let mut out: Vec<Item> = list::empty();
    let mut i: usize = 0;
    while i < checks.len()
        invariant
            i <= v.len(),
            v == checks.deep_view(),
            out.deep_view() + checks_from(v, i as int) == checks_from(v, 0),
        decreases v.len() - i,
    {
        let name = short(checks.key(i));
        list::push(
            &mut out,
            Item {
                row: "pre".to_owned(),
                key: text::cat2("check ", &name),
                text: text::cat2("passes ", &name),
                loc: Some(checks.value(i).dup()),
            },
        );
        i += 1;
    }
    out
}

fn strip_marks(s: &str) -> (r: String)
    ensures
        r@ == bare(s@),
{
    let v = text::chars_of(s);
    let mut i: usize = 0;
    assert(v@.skip(0) =~= v@);
    while i < v.len() && (v[i] == '(' || v[i] == '¬')
        invariant
            i <= v@.len(),
            bare(s@) == bare(v@.skip(i as int)),
        decreases v@.len() - i,
    {
        assert(v@.skip(i as int).skip(1) =~= v@.skip(i + 1));
        i += 1;
    }
    assert(v@.subrange(i as int, v@.len() as int) =~= v@.skip(i as int));
    text::text_of(&v, i, v.len())
}

fn filter_items(filters: &Vec<QueryFilter>) -> (r: Vec<Item>)
    ensures
        r.deep_view() == filters_from(filters.deep_view(), 0, seq![]),
{
    let ghost v = filters.deep_view();
    let mut out: Vec<Item> = list::empty();
    let mut seen: SortedSet<String> = SortedSet::new();
    let mut i: usize = 0;
    while i < filters.len()
        invariant
            i <= filters@.len(),
            v == filters.deep_view(),
            out.deep_view() + filters_from(v, i as int, seen.deep_view()) == filters_from(
                v,
                0,
                seq![],
            ),
        decreases filters@.len() - i,
    {
        let f = &filters[i];
        assert(v[i as int] == f.deep_view());
        if !seen.contains(&f.expr) {
            list::push(
                &mut out,
                Item {
                    row: "where".to_owned(),
                    key: head_of(&strip_marks(&f.expr), " "),
                    text: f.expr.dup(),
                    loc: Some(f.loc.dup()),
                },
            );
            seen.insert(f.expr.dup());
        }
        i += 1;
    }
    out
}

fn write_items(writes: &Vec<WriteFact>) -> (r: Vec<Item>)
    ensures
        r.deep_view() == writes_from(writes.deep_view(), 0, seq![]),
{
    let ghost v = writes.deep_view();
    let mut out: Vec<Item> = list::empty();
    let mut seen: SortedSet<String> = SortedSet::new();
    let mut i: usize = 0;
    while i < writes.len()
        invariant
            i <= writes@.len(),
            v == writes.deep_view(),
            out.deep_view() + writes_from(v, i as int, seen.deep_view()) == writes_from(
                v,
                0,
                seq![],
            ),
        decreases writes@.len() - i,
    {
        let w = &writes[i];
        assert(v[i as int] == w.deep_view());
        let said = match &w.value {
            Some(x) => text::cat3(&w.field, " := ", x),
            None => text::cat2(&w.field, " is written"),
        };
        if !seen.contains(&said) {
            list::push(
                &mut out,
                Item {
                    row: "post".to_owned(),
                    key: w.field.dup(),
                    text: said.dup(),
                    loc: Some(w.loc.dup()),
                },
            );
            seen.insert(said);
        }
        i += 1;
    }
    out
}

fn own_write(writes: &Vec<WriteFact>, field: &String) -> (r: bool)
    ensures
        r == writes_itself(writes.deep_view(), field@),
{
    let ghost v = writes.deep_view();
    let mut i: usize = 0;
    while i < writes.len()
        invariant
            i <= writes@.len(),
            v == writes.deep_view(),
            forall|k: int| 0 <= k < i ==> (#[trigger] v[k]).field != field@,
        decreases writes@.len() - i,
    {
        assert(v[i as int] == writes@[i as int].deep_view());
        if writes[i].field.alike(field) {
            return true;
        }
        i += 1;
    }
    false
}

fn callee_write_items(e: &Entity, fields: &SortedSet<String>) -> (r: Vec<Item>)
    ensures
        r.deep_view() == callee_writes_from(e.deep_view(), fields.deep_view(), 0),
{
    let ghost ev = e.deep_view();
    let ghost v = fields.deep_view();
    let mut out: Vec<Item> = list::empty();
    let mut i: usize = 0;
    while i < fields.len()
        invariant
            i <= v.len(),
            ev == e.deep_view(),
            v == fields.deep_view(),
            out.deep_view() + callee_writes_from(ev, v, i as int) == callee_writes_from(ev, v, 0),
        decreases v.len() - i,
    {
        let f = fields.item(i);
        if !own_write(&e.writes, f) {
            list::push(
                &mut out,
                Item {
                    row: "post".to_owned(),
                    key: f.dup(),
                    text: text::cat2(f, " is written (by a callee)"),
                    loc: None,
                },
            );
        }
        i += 1;
    }
    out
}

fn render_items(case: &String, loc: &Loc, renders: &Vec<Rendered>) -> (r: Vec<Item>)
    ensures
        r.deep_view() == renders_from(case@, loc.deep_view(), renders.deep_view(), 0),
{
    let ghost lv = loc.deep_view();
    let ghost v = renders.deep_view();
    let mut out: Vec<Item> = list::empty();
    let mut i: usize = 0;
    while i < renders.len()
        invariant
            i <= renders@.len(),
            lv == loc.deep_view(),
            v == renders.deep_view(),
            out.deep_view() + renders_from(case@, lv, v, i as int) == renders_from(
                case@,
                lv,
                v,
                0,
            ),
        decreases renders@.len() - i,
    {
        let r = &renders[i];
        assert(v[i as int] == r.deep_view());
        let shown = if r.when.as_str().is_empty() {
            r.content.dup()
        } else {
            text::cat3(&r.content, " if ", &r.when)
        };
        list::push(
            &mut out,
            Item {
                row: "renders".to_owned(),
                key: text::cat3(case, "|", &shown),
                text: text::cat3(&shown, ": ", &r.style),
                loc: Some(loc.dup()),
            },
        );
        i += 1;
    }
    out
}

fn output_items(outputs: &Vec<Output>) -> (r: Vec<Item>)
    ensures
        r.deep_view() == outputs_from(outputs.deep_view(), 0),
{
    let ghost v = outputs.deep_view();
    let mut out: Vec<Item> = list::empty();
    let mut i: usize = 0;
    while i < outputs.len()
        invariant
            i <= outputs@.len(),
            v == outputs.deep_view(),
            out.deep_view() + outputs_from(v, i as int) == outputs_from(v, 0),
        decreases outputs@.len() - i,
    {
        let o = &outputs[i];
        assert(v[i as int] == o.deep_view());
        let case = if o.when.len() == 0 {
            "otherwise".to_owned()
        } else {
            text::cat2("when ", &text::join(&o.when, " ∧ "))
        };
        list::push(
            &mut out,
            Item {
                row: "returns".to_owned(),
                key: case.dup(),
                text: text::cat3(&case, ": ", &o.value),
                loc: Some(o.loc.dup()),
            },
        );
        list::append(&mut out, render_items(&case, &o.loc, &o.renders));
        i += 1;
    }
    out
}

fn later_modes(modes: &SortedSet<String>) -> (r: Vec<String>)
    ensures
        r.deep_view() == later_from(modes.deep_view(), 0),
{
    let ghost v = modes.deep_view();
    let mut out: Vec<String> = list::empty();
    let mut i: usize = 0;
    while i < modes.len()
        invariant
            i <= v.len(),
            v == modes.deep_view(),
            out.deep_view() + later_from(v, i as int) == later_from(v, 0),
        decreases v.len() - i,
    {
        if text::starts_with(modes.item(i), "async") {
            list::push(&mut out, modes.item(i).dup());
        }
        i += 1;
    }
    out
}

fn effect_items(effects: &Vec<(EffectKey, EffectInfo)>) -> (r: Vec<Item>)
    ensures
        r.deep_view() == effects_from(effects.deep_view(), 0),
{
    let ghost v = effects.deep_view();
    let mut out: Vec<Item> = list::empty();
    let mut i: usize = 0;
    while i < effects.len()
        invariant
            i <= effects@.len(),
            v == effects.deep_view(),
            out.deep_view() + effects_from(v, i as int) == effects_from(v, 0),
        decreases effects@.len() - i,
    {
        let k = &effects[i].0;
        let info = &effects[i].1;
        assert(v[i as int] == (k.deep_view(), info.deep_view()));
        let later = later_modes(&info.modes);
        let said = if later.len() == 0 || info.modes.has("sync") {
            k.render()
        } else {
            text::cat4(&k.render(), " (", &text::join(&later, ", "), ")")
        };
        let loc = if info.evidence.len() > 0 {
            Some(info.evidence.item(0).dup())
        } else {
            None
        };
        list::push(
            &mut out,
            Item {
                row: "effects".to_owned(),
                key: text::cat3(&k.kind, " ", &k.target),
                text: said,
                loc,
            },
        );
        i += 1;
    }
    out
}

/// The items of the contract of an entity. `kids` are the closures of the model.
pub fn items(model: &Model, kids: &SortedMap<String, Vec<String>>, id: &str) -> (r: Vec<Item>)
    requires
        kids.deep_view() == closures_from(model.deep_view().entities, 0, seq![]),
    ensures
        r.deep_view() == items_of(model.deep_view(), id@),
{
    let (e, s) = match (model.entities.find(id), model.summaries.find(id)) {
        (Some(e), Some(s)) => (e, s),
        _ => {
            return list::empty();
        },
    };
    let mut out = take_items(e);
    list::append(&mut out, access_items(&s.access));
    list::append(&mut out, rule_items(e));
    list::append(&mut out, guard_items(e, &s.requirements));
    list::append(&mut out, check_items(&s.validations));
    list::append(&mut out, filter_items(&scoped_filters(model, kids, id)));
    list::append(&mut out, write_items(&e.writes));
    list::append(&mut out, callee_write_items(e, &s.writes));
    list::append(&mut out, output_items(&e.outputs));
    if s.effects.len() == 0 && s.writes.len() == 0 && e.outputs.len() > 0 {
        list::push(
            &mut out,
            Item {
                row: "effects".to_owned(),
                key: "none".to_owned(),
                text: "none found".to_owned(),
                loc: None,
            },
        );
    }
    list::append(&mut out, effect_items(&model.effects_outside_checks(id)));
    out
}

// ---- what a change means

/// The field and the values of `field ∈ {A, B}`.
pub open spec fn membership(p: Text) -> Option<(Text, Seq<Text>)> {
    match text::parted(p, " ∈ "@) {
        Some((f, rest)) => match text::after_prefix(text::trimmed(rest), "{"@) {
            Some(inner) => match text::before_suffix(inner, "}"@) {
                Some(values) => Some((f, set_of(text::pieces(values, ", "@)))),
                None => None,
            },
            None => None,
        },
        None => None,
    }
}

/// `x ∈ {A}` to `x ∈ {A, B}`: widened, narrowed or changed.
pub open spec fn set_change_of(before: Text, after: Text) -> Text {
    match (membership(before), membership(after)) {
        (Some((f1, a)), Some((f2, b))) => if f1 == f2 && within(a, b) {
            "widened"@
        } else if f1 == f2 && within(b, a) {
            "narrowed"@
        } else {
            "changed"@
        },
        _ => "changed"@,
    }
}

/// A text that may be missing.
pub open spec fn or_empty(t: Option<Text>) -> Text {
    match t {
        Some(s) => s,
        None => ""@,
    }
}

/// What a change to one clause item means, in a few words.
pub open spec fn tag_of(row: Text, mark: char, before: Option<Text>, after: Option<Text>) -> Option<Text> {
    if row == "who"@ {
        if mark == '+' {
            Some("new requirement"@)
        } else if mark == '-' {
            Some("requirement dropped"@)
        } else if mark == '~' {
            Some(set_change_of(or_empty(before), or_empty(after)))
        } else {
            None
        }
    } else if row == "returns"@ {
        if mark == '~' {
            Some("returns something else"@)
        } else if mark == '+' {
            Some("new output case"@)
        } else if mark == '-' {
            Some("output case removed"@)
        } else {
            None
        }
    } else if row == "takes"@ {
        if mark == '+' {
            Some("new parameter"@)
        } else if mark == '-' {
            Some("parameter removed"@)
        } else if mark == '~' {
            Some("parameter type changed"@)
        } else {
            None
        }
    } else if row == "renders"@ {
        if mark == '+' {
            Some("now rendered"@)
        } else if mark == '-' {
            Some("no longer rendered"@)
        } else {
            None
        }
    } else if row == "pre"@ {
        if mark == '+' {
            Some("new check"@)
        } else if mark == '-' {
            Some("check dropped"@)
        } else if mark == '~' {
            Some(set_change_of(or_empty(before), or_empty(after)))
        } else {
            None
        }
    } else if row == "where"@ {
        if mark == '+' {
            Some("reaches fewer rows"@)
        } else if mark == '-' {
            Some("reaches more rows"@)
        } else if mark == '~' {
            Some("reaches different rows"@)
        } else {
            None
        }
    } else if row == "post"@ {
        if mark == '+' {
            Some("new write"@)
        } else if mark == '-' {
            Some("no longer written"@)
        } else if mark == '~' {
            Some("writes a different value"@)
        } else {
            None
        }
    } else if row == "effects"@ {
        if mark == '+' {
            Some("new effect"@)
        } else if mark == '-' {
            Some("effect dropped"@)
        } else if mark == '~' {
            if after is Some && text::has_text(after->Some_0, "async"@) {
                Some("now happens later"@)
            } else {
                Some("now happens right away"@)
            }
        } else {
            None
        }
    } else {
        None
    }
}

/// The clause of an item before and after.
pub open spec fn clause_of(row: Text, mark: char, a: Option<ItemView>, b: Option<ItemView>) -> ClauseView {
    let before = match a {
        Some(i) => Some(i.text),
        None => None,
    };
    let after = match b {
        Some(i) => Some(i.text),
        None => None,
    };
    ClauseView {
        row,
        mark,
        before: if mark == ' ' {
            None
        } else {
            before
        },
        after,
        tag: tag_of(row, mark, before, after),
        evidence_before: match a {
            Some(i) => i.loc,
            None => None,
        },
        evidence_after: match b {
            Some(i) => i.loc,
            None => None,
        },
    }
}

fn set_in(p: &str) -> (r: Option<(String, SortedSet<String>)>)
    ensures
        r.deep_view() == membership(p@),
{
    match text::split_once(p, " ∈ ") {
        Some((f, rest)) => match text::strip_prefix(&text::trim(&rest), "{") {
            Some(inner) => match text::strip_suffix(&inner, "}") {
                Some(values) => Some((f, SortedSet::of(&text::split(&values, ", ")))),
                None => None,
            },
            None => None,
        },
        None => None,
    }
}

fn set_change(before: &str, after: &str) -> (r: String)
    ensures
        r@ == set_change_of(before@, after@),
{
    match (set_in(before), set_in(after)) {
        (Some((f1, a)), Some((f2, b))) => {
            if f1.alike(&f2) && a.is_subset(&b) {
                "widened".to_owned()
            } else if f1.alike(&f2) && b.is_subset(&a) {
                "narrowed".to_owned()
            } else {
                "changed".to_owned()
            }
        },
        _ => "changed".to_owned(),
    }
}

fn some(s: &str) -> (r: Option<String>)
    ensures
        r.deep_view() == Some(s@),
{
    Some(s.to_owned())
}

fn given(t: &Option<String>) -> (r: &str)
    ensures
        r@ == or_empty(t.deep_view()),
{
    match t {
        Some(s) => s.as_str(),
        None => "",
    }
}

#[verifier::rlimit(40)]
fn tag(row: &str, mark: char, before: &Option<String>, after: &Option<String>) -> (r: Option<String>)
    ensures
        r.deep_view() == tag_of(row@, mark, before.deep_view(), after.deep_view()),
{
    if text::same(row, "who") {
        if mark == '+' {
            some("new requirement")
        } else if mark == '-' {
            some("requirement dropped")
        } else if mark == '~' {
            Some(set_change(given(before), given(after)))
        } else {
            None
        }
    } else if text::same(row, "returns") {
        if mark == '~' {
            some("returns something else")
        } else if mark == '+' {
            some("new output case")
        } else if mark == '-' {
            some("output case removed")
        } else {
            None
        }
    } else if text::same(row, "takes") {
        if mark == '+' {
            some("new parameter")
        } else if mark == '-' {
            some("parameter removed")
        } else if mark == '~' {
            some("parameter type changed")
        } else {
            None
        }
    } else if text::same(row, "renders") {
        if mark == '+' {
            some("now rendered")
        } else if mark == '-' {
            some("no longer rendered")
        } else {
            None
        }
    } else if text::same(row, "pre") {
        if mark == '+' {
            some("new check")
        } else if mark == '-' {
            some("check dropped")
        } else if mark == '~' {
            Some(set_change(given(before), given(after)))
        } else {
            None
        }
    } else if text::same(row, "where") {
        if mark == '+' {
            some("reaches fewer rows")
        } else if mark == '-' {
            some("reaches more rows")
        } else if mark == '~' {
            some("reaches different rows")
        } else {
            None
        }
    } else if text::same(row, "post") {
        if mark == '+' {
            some("new write")
        } else if mark == '-' {
            some("no longer written")
        } else if mark == '~' {
            some("writes a different value")
        } else {
            None
        }
    } else if text::same(row, "effects") {
        if mark == '+' {
            some("new effect")
        } else if mark == '-' {
            some("effect dropped")
        } else if mark == '~' {
            let later = match after {
                Some(a) => text::contains(a, "async"),
                None => false,
            };
            if later {
                some("now happens later")
            } else {
                some("now happens right away")
            }
        } else {
            None
        }
    } else {
        None
    }
}

fn clause(row: &str, mark: char, a: Option<&Item>, b: Option<&Item>) -> (r: Clause)
    ensures
        r.deep_view() == clause_of(row@, mark, a.deep_view(), b.deep_view()),
{
    let (before, eb) = match a {
        Some(i) => (Some(i.text.dup()), i.loc.dup()),
        None => (None, None),
    };
    let (after, ea) = match b {
        Some(i) => (Some(i.text.dup()), i.loc.dup()),
        None => (None, None),
    };
    let tag = tag(row, mark, &before, &after);
    Clause {
        row: row.to_owned(),
        mark,
        before: if mark == ' ' {
            None
        } else {
            before
        },
        after,
        tag,
        evidence_before: eb,
        evidence_after: ea,
    }
}

// ---- comparison

/// The items of a row from index `i` on.
pub open spec fn in_row(items: Seq<ItemView>, row: Text, i: int) -> Seq<ItemView>
    decreases items.len() - i,
{
    if 0 <= i < items.len() {
        (if items[i].row == row {
            seq![items[i]]
        } else {
            seq![]
        }) + in_row(items, row, i + 1)
    } else {
        seq![]
    }
}

/// The place from index `i` on of an item with this text.
pub open spec fn text_at(items: Seq<ItemView>, text: Text, i: int) -> Option<int>
    decreases items.len() - i,
{
    if 0 <= i < items.len() {
        if items[i].text == text {
            Some(i)
        } else {
            text_at(items, text, i + 1)
        }
    } else {
        None
    }
}

/// The place from index `i` on of an item with this key.
pub open spec fn key_at(items: Seq<ItemView>, key: Text, i: int) -> Option<int>
    decreases items.len() - i,
{
    if 0 <= i < items.len() {
        if items[i].key == key {
            Some(i)
        } else {
            key_at(items, key, i + 1)
        }
    } else {
        None
    }
}

/// The old item of the same text for each new item from index `i` on, and what is left of the
/// old ones. An old item stands for one new item only.
pub open spec fn twins_from(left: Seq<ItemView>, after: Seq<ItemView>, i: int) -> (
    Seq<Option<ItemView>>,
    Seq<ItemView>,
)
    decreases after.len() - i,
{
    if 0 <= i < after.len() {
        match text_at(left, after[i].text, 0) {
            Some(p) => {
                let (twins, rest) = twins_from(left.remove(p), after, i + 1);
                (seq![Some(left[p])] + twins, rest)
            },
            None => {
                let (twins, rest) = twins_from(left, after, i + 1);
                (seq![None::<ItemView>] + twins, rest)
            },
        }
    } else {
        (seq![], left)
    }
}

/// The clauses of the items from index `i` on that have no counterpart.
pub open spec fn lost_from(row: Text, left: Seq<ItemView>, i: int) -> Seq<ClauseView>
    decreases left.len() - i,
{
    if 0 <= i < left.len() {
        seq![clause_of(row, '-', Some(left[i]), None)] + lost_from(row, left, i + 1)
    } else {
        seq![]
    }
}

/// The clauses of a row: the new items from index `i` on, unchanged where they have a twin, else
/// changed from what is left of the old ones under the same key, else added; then what is left
/// in the end.
pub open spec fn row_clauses(
    row: Text,
    left: Seq<ItemView>,
    after: Seq<ItemView>,
    twins: Seq<Option<ItemView>>,
    i: int,
) -> Seq<ClauseView>
    decreases after.len() - i,
{
    if 0 <= i < after.len() {
        let b = after[i];
        match twins[i] {
            Some(a) => seq![clause_of(row, ' ', Some(a), Some(b))] + row_clauses(
                row,
                left,
                after,
                twins,
                i + 1,
            ),
            None => match key_at(left, b.key, 0) {
                Some(p) => seq![clause_of(row, '~', Some(left[p]), Some(b))] + row_clauses(
                    row,
                    left.remove(p),
                    after,
                    twins,
                    i + 1,
                ),
                None => seq![clause_of(row, '+', None, Some(b))] + row_clauses(
                    row,
                    left,
                    after,
                    twins,
                    i + 1,
                ),
            },
        }
    } else {
        lost_from(row, left, 0)
    }
}

/// The clauses of one row of two contracts: same text first (unchanged), then same key
/// (changed).
pub open spec fn row_compared(row: Text, before: Seq<ItemView>, after: Seq<ItemView>) -> Seq<ClauseView> {
    let fresh = in_row(after, row, 0);
    let (twins, left) = twins_from(in_row(before, row, 0), fresh, 0);
    row_clauses(row, left, fresh, twins, 0)
}

/// Item-by-item comparison of two contracts, in clause order.
pub open spec fn compared(before: Seq<ItemView>, after: Seq<ItemView>) -> Seq<ClauseView> {
    row_compared("takes"@, before, after) + row_compared("who"@, before, after) + row_compared(
        "returns"@,
        before,
        after,
    ) + row_compared("pre"@, before, after) + row_compared("where"@, before, after) + row_compared(
        "post"@,
        before,
        after,
    ) + row_compared("effects"@, before, after) + row_compared("renders"@, before, after)
}

// ---- what stays

proof fn twins_for_each(left: Seq<ItemView>, after: Seq<ItemView>, i: int)
    requires
        0 <= i <= after.len(),
    ensures
        twins_from(left, after, i).0.len() == after.len() - i,
        forall|j: int|
            0 <= j < after.len() - i ==> (#[trigger] twins_from(left, after, i).0[j] matches Some(a)
                ==> a.text == after[i + j].text),
    decreases after.len() - i,
{
    if i < after.len() {
        text_at_says(left, after[i].text, 0);
        let (x, rest) = match text_at(left, after[i].text, 0) {
            Some(p) => {
                twins_for_each(left.remove(p), after, i + 1);
                (Some(left[p]), twins_from(left.remove(p), after, i + 1).0)
            },
            None => {
                twins_for_each(left, after, i + 1);
                (None::<ItemView>, twins_from(left, after, i + 1).0)
            },
        };
        let all = twins_from(left, after, i).0;
        assert(all == seq![x] + rest);
        assert forall|j: int| 0 <= j < after.len() - i implies (#[trigger] all[j] matches Some(a)
            ==> a.text == after[i + j].text) by {
            if j > 0 {
                assert(all[j] == rest[j - 1]);
            }
        }
    }
}

/// How many of the items from index `i` on say `text`.
pub open spec fn times(items: Seq<ItemView>, text: Text, i: int) -> nat
    decreases items.len() - i,
{
    if 0 <= i < items.len() {
        (if items[i].text == text {
            1nat
        } else {
            0nat
        }) + times(items, text, i + 1)
    } else {
        0
    }
}

/// How many of the clauses from index `i` on keep `text` unchanged in a row.
pub open spec fn times_kept(cs: Seq<ClauseView>, row: Text, text: Text, i: int) -> nat
    decreases cs.len() - i,
{
    if 0 <= i < cs.len() {
        (if cs[i].row == row && cs[i].mark == ' ' && cs[i].after == Some(text) {
            1nat
        } else {
            0nat
        }) + times_kept(cs, row, text, i + 1)
    } else {
        0
    }
}

spec fn times_twinned(twins: Seq<Option<ItemView>>, text: Text, i: int) -> nat
    decreases twins.len() - i,
{
    if 0 <= i < twins.len() {
        (match twins[i] {
            Some(a) => if a.text == text {
                1nat
            } else {
                0nat
            },
            None => 0nat,
        }) + times_twinned(twins, text, i + 1)
    } else {
        0
    }
}

proof fn text_at_says(items: Seq<ItemView>, text: Text, i: int)
    requires
        0 <= i <= items.len(),
    ensures
        match text_at(items, text, i) {
            Some(p) => i <= p < items.len() && items[p].text == text,
            None => times(items, text, i) == 0,
        },
    decreases items.len() - i,
{
    if i < items.len() && items[i].text != text {
        text_at_says(items, text, i + 1);
    }
}

proof fn times_behind(items: Seq<ItemView>, p: int, text: Text, i: int)
    requires
        0 <= p < items.len(),
        p <= i,
    ensures
        times(items.remove(p), text, i) == times(items, text, i + 1),
    decreases items.len() - i,
{
    let rest = items.remove(p);
    if i < rest.len() {
        assert(rest[i] == items[i + 1]);
        times_behind(items, p, text, i + 1);
    }
}

proof fn times_without(items: Seq<ItemView>, p: int, text: Text, i: int)
    requires
        0 <= i <= p < items.len(),
    ensures
        times(items, text, i) == times(items.remove(p), text, i) + (if items[p].text == text {
            1nat
        } else {
            0nat
        }),
    decreases items.len() - i,
{
    if i < p {
        assert(items.remove(p)[i] == items[i]);
        times_without(items, p, text, i + 1);
    } else {
        times_behind(items, p, text, p);
    }
}

proof fn twinned_behind(x: Option<ItemView>, twins: Seq<Option<ItemView>>, text: Text, i: int)
    requires
        0 <= i,
    ensures
        times_twinned(seq![x] + twins, text, i + 1) == times_twinned(twins, text, i),
    decreases twins.len() - i,
{
    if i < twins.len() {
        assert((seq![x] + twins)[i + 1] == twins[i]);
        twinned_behind(x, twins, text, i + 1);
    }
}

proof fn twins_are_as_many(left: Seq<ItemView>, after: Seq<ItemView>, text: Text, i: int)
    requires
        0 <= i <= after.len(),
    ensures
        times_twinned(twins_from(left, after, i).0, text, 0) == if times(left, text, 0) < times(
            after,
            text,
            i,
        ) {
            times(left, text, 0)
        } else {
            times(after, text, i)
        },
    decreases after.len() - i,
{
    if i < after.len() {
        text_at_says(left, after[i].text, 0);
        match text_at(left, after[i].text, 0) {
            Some(p) => {
                let rest = twins_from(left.remove(p), after, i + 1).0;
                twins_are_as_many(left.remove(p), after, text, i + 1);
                times_without(left, p, text, 0);
                twinned_behind(Some(left[p]), rest, text, 0);
                assert((seq![Some(left[p])] + rest)[0] == Some(left[p]));
            },
            None => {
                let rest = twins_from(left, after, i + 1).0;
                twins_are_as_many(left, after, text, i + 1);
                twinned_behind(None, rest, text, 0);
                assert((seq![None::<ItemView>] + rest)[0] is None);
            },
        }
    }
}

proof fn kept_behind(x: Seq<ClauseView>, cs: Seq<ClauseView>, row: Text, text: Text, i: int)
    requires
        0 <= i,
    ensures
        times_kept(x + cs, row, text, x.len() + i) == times_kept(cs, row, text, i),
    decreases cs.len() - i,
{
    if i < cs.len() {
        assert((x + cs)[x.len() + i] == cs[i]);
        kept_behind(x, cs, row, text, i + 1);
    }
}

proof fn kept_add_up(x: Seq<ClauseView>, cs: Seq<ClauseView>, row: Text, text: Text, i: int)
    requires
        0 <= i <= x.len(),
    ensures
        times_kept(x + cs, row, text, i) == times_kept(x, row, text, i) + times_kept(
            cs,
            row,
            text,
            0,
        ),
    decreases x.len() - i,
{
    if i < x.len() {
        assert((x + cs)[i] == x[i]);
        kept_add_up(x, cs, row, text, i + 1);
    } else {
        kept_behind(x, cs, row, text, 0);
    }
}

proof fn lost_keep_nothing(at: Text, left: Seq<ItemView>, i: int, row: Text, text: Text)
    ensures
        times_kept(lost_from(at, left, i), row, text, 0) == 0,
    decreases left.len() - i,
{
    if 0 <= i < left.len() {
        let x = seq![clause_of(at, '-', Some(left[i]), None)];
        lost_keep_nothing(at, left, i + 1, row, text);
        kept_add_up(x, lost_from(at, left, i + 1), row, text, 0);
        assert(x[0].mark == '-');
        assert(times_kept(x, row, text, 1) == 0);
    }
}

proof fn twins_are_kept(
    at: Text,
    left: Seq<ItemView>,
    after: Seq<ItemView>,
    twins: Seq<Option<ItemView>>,
    i: int,
    row: Text,
    text: Text,
)
    requires
        0 <= i <= after.len(),
        twins.len() == after.len(),
        forall|j: int|
            0 <= j < after.len() ==> (#[trigger] twins[j] matches Some(a) ==> a.text
                == after[j].text),
    ensures
        times_kept(row_clauses(at, left, after, twins, i), row, text, 0) == if at == row {
            times_twinned(twins, text, i)
        } else {
            0
        },
    decreases after.len() - i,
{
    if i < after.len() {
        let b = after[i];
        let (c, next) = match twins[i] {
            Some(a) => (clause_of(at, ' ', Some(a), Some(b)), left),
            None => match key_at(left, b.key, 0) {
                Some(p) => (clause_of(at, '~', Some(left[p]), Some(b)), left.remove(p)),
                None => (clause_of(at, '+', None, Some(b)), left),
            },
        };
        let rest = row_clauses(at, next, after, twins, i + 1);
        assert(row_clauses(at, left, after, twins, i) == seq![c] + rest);
        twins_are_kept(at, next, after, twins, i + 1, row, text);
        kept_add_up(seq![c], rest, row, text, 0);
        assert(seq![c][0] == c);
        assert(times_kept(seq![c], row, text, 1) == 0);
    } else {
        lost_keep_nothing(at, left, 0, row, text);
    }
}

proof fn row_keeps(at: Text, before: Seq<ItemView>, after: Seq<ItemView>, row: Text, text: Text)
    ensures
        times_kept(row_compared(at, before, after), row, text, 0) == if at == row {
            times_shared(row, before, after, text)
        } else {
            0
        },
{
    let old = in_row(before, at, 0);
    let fresh = in_row(after, at, 0);
    let (twins, left) = twins_from(old, fresh, 0);
    twins_for_each(old, fresh, 0);
    twins_are_as_many(old, fresh, text, 0);
    assert forall|j: int| 0 <= j < fresh.len() implies (#[trigger] twins[j] matches Some(a)
        ==> a.text == fresh[j].text) by {
        assert(twins_from(old, fresh, 0).0[j] == twins[j]);
    }
    twins_are_kept(at, left, fresh, twins, 0, row, text);
}

/// How many times both contracts say `text` in a row.
pub open spec fn times_shared(
    row: Text,
    before: Seq<ItemView>,
    after: Seq<ItemView>,
    text: Text,
) -> nat {
    let n = times(in_row(before, row, 0), text, 0);
    let k = times(in_row(after, row, 0), text, 0);
    if n < k {
        n
    } else {
        k
    }
}

/// The rows whose items are compared.
pub open spec fn is_item_row(row: Text) -> bool {
    row == "takes"@ || row == "who"@ || row == "returns"@ || row == "pre"@ || row == "where"@ || row
        == "post"@ || row == "effects"@ || row == "renders"@
}

proof fn rows_differ()
    ensures
        seq![
            "takes"@,
            "who"@,
            "returns"@,
            "pre"@,
            "where"@,
            "post"@,
            "effects"@,
            "renders"@,
        ].no_duplicates(),
{
    reveal_strlit("takes");
    reveal_strlit("who");
    reveal_strlit("returns");
    reveal_strlit("pre");
    reveal_strlit("where");
    reveal_strlit("post");
    reveal_strlit("effects");
    reveal_strlit("renders");
    assert("takes"@[0] == 't' && "who"@[1] == 'h' && "returns"@[2] == 't' && "pre"@[1] == 'r');
    assert("where"@[0] == 'w' && "post"@[1] == 'o' && "effects"@[0] == 'e' && "renders"@[2] == 'n');
    assert("takes"@.len() == 5 && "who"@.len() == 3 && "returns"@.len() == 7 && "pre"@.len() == 3);
    assert("where"@.len() == 5 && "post"@.len() == 4 && "effects"@.len() == 7 && "renders"@.len()
        == 7);
    assert("who"@[0] == 'w' && "pre"@[0] == 'p' && "returns"@[0] == 'r');
    let rows = seq![
        "takes"@,
        "who"@,
        "returns"@,
        "pre"@,
        "where"@,
        "post"@,
        "effects"@,
        "renders"@,
    ];
    assert forall|i: int, j: int| 0 <= i < j < 8 implies rows[i] != rows[j] by {}
}

/// What stays is context: an item that both contracts state is unchanged in the comparison, as
/// often as both of them state it, whatever else stands under the same key.
pub proof fn unchanged_items_are_kept(
    row: Text,
    before: Seq<ItemView>,
    after: Seq<ItemView>,
    text: Text,
)
    requires
        is_item_row(row),
    ensures
        times_kept(compared(before, after), row, text, 0) == times_shared(row, before, after, text),
{
    rows_differ();
    let rows = seq![
        "takes"@,
        "who"@,
        "returns"@,
        "pre"@,
        "where"@,
        "post"@,
        "effects"@,
        "renders"@,
    ];
    assert(rows[0] == "takes"@ && rows[1] == "who"@ && rows[2] == "returns"@ && rows[3] == "pre"@);
    assert(rows[4] == "where"@ && rows[5] == "post"@ && rows[6] == "effects"@ && rows[7]
        == "renders"@);
    let c0 = row_compared("takes"@, before, after);
    let c1 = c0 + row_compared("who"@, before, after);
    let c2 = c1 + row_compared("returns"@, before, after);
    let c3 = c2 + row_compared("pre"@, before, after);
    let c4 = c3 + row_compared("where"@, before, after);
    let c5 = c4 + row_compared("post"@, before, after);
    let c6 = c5 + row_compared("effects"@, before, after);
    row_keeps("takes"@, before, after, row, text);
    row_keeps("who"@, before, after, row, text);
    row_keeps("returns"@, before, after, row, text);
    row_keeps("pre"@, before, after, row, text);
    row_keeps("where"@, before, after, row, text);
    row_keeps("post"@, before, after, row, text);
    row_keeps("effects"@, before, after, row, text);
    row_keeps("renders"@, before, after, row, text);
    kept_add_up(c0, row_compared("who"@, before, after), row, text, 0);
    kept_add_up(c1, row_compared("returns"@, before, after), row, text, 0);
    kept_add_up(c2, row_compared("pre"@, before, after), row, text, 0);
    kept_add_up(c3, row_compared("where"@, before, after), row, text, 0);
    kept_add_up(c4, row_compared("post"@, before, after), row, text, 0);
    kept_add_up(c5, row_compared("effects"@, before, after), row, text, 0);
    kept_add_up(c6, row_compared("renders"@, before, after), row, text, 0);
}

fn row_items(items: &Vec<Item>, row: &str) -> (r: Vec<Item>)
    ensures
        r.deep_view() == in_row(items.deep_view(), row@, 0),
{
    let ghost v = items.deep_view();
    let mut out: Vec<Item> = list::empty();
    let mut i: usize = 0;
    while i < items.len()
        invariant
            i <= items@.len(),
            v == items.deep_view(),
            out.deep_view() + in_row(v, row@, i as int) == in_row(v, row@, 0),
        decreases items@.len() - i,
    {
        assert(v[i as int] == items@[i as int].deep_view());
        if text::same(&items[i].row, row) {
            list::push(&mut out, items[i].dup());
        }
        i += 1;
    }
    out
}

fn same_text(items: &Vec<Item>, said: &String) -> (r: Option<usize>)
    ensures
        match r {
            Some(k) => k < items@.len() && text_at(items.deep_view(), said@, 0) == Some(k as int),
            None => text_at(items.deep_view(), said@, 0) is None,
        },
{
    let ghost v = items.deep_view();
    let mut i: usize = 0;
    while i < items.len()
        invariant
            i <= items@.len(),
            v == items.deep_view(),
            text_at(v, said@, 0) == text_at(v, said@, i as int),
        decreases items@.len() - i,
    {
        assert(v[i as int] == items@[i as int].deep_view());
        if items[i].text.alike(said) {
            return Some(i);
        }
        i += 1;
    }
    None
}

fn same_key_at(items: &Vec<Item>, key: &String) -> (r: Option<usize>)
    ensures
        match r {
            Some(k) => k < items@.len() && key_at(items.deep_view(), key@, 0) == Some(k as int),
            None => key_at(items.deep_view(), key@, 0) is None,
        },
{
    let ghost v = items.deep_view();
    let mut i: usize = 0;
    while i < items.len()
        invariant
            i <= items@.len(),
            v == items.deep_view(),
            key_at(v, key@, 0) == key_at(v, key@, i as int),
        decreases items@.len() - i,
    {
        assert(v[i as int] == items@[i as int].deep_view());
        if items[i].key.alike(key) {
            return Some(i);
        }
        i += 1;
    }
    None
}

fn twins_of(left: &mut Vec<Item>, after: &Vec<Item>) -> (r: Vec<Option<Item>>)
    ensures
        (r.deep_view(), final(left).deep_view()) == twins_from(
            old(left).deep_view(),
            after.deep_view(),
            0,
        ),
{
    let ghost all = left.deep_view();
    let ghost av = after.deep_view();
    let mut out: Vec<Option<Item>> = list::empty();
    let mut i: usize = 0;
    while i < after.len()
        invariant
            i <= after@.len(),
            av == after.deep_view(),
            twins_from(all, av, 0) == (
                out.deep_view() + twins_from(left.deep_view(), av, i as int).0,
                twins_from(left.deep_view(), av, i as int).1,
            ),
        decreases after@.len() - i,
    {
        assert(av[i as int] == after@[i as int].deep_view());
        let ghost before = left.deep_view();
        let ghost said = out.deep_view();
        match same_text(left, &after[i].text) {
            Some(p) => {
                let a = left.remove(p);
                assert(left.deep_view() =~= before.remove(p as int));
                assert(a.deep_view() == before[p as int]);
                list::push(&mut out, Some(a));
                assert(out.deep_view() =~= said + seq![Some(before[p as int])]);
            },
            None => {
                list::push(&mut out, None);
                assert(out.deep_view() =~= said + seq![None::<ItemView>]);
            },
        }
        i += 1;
        assert(out.deep_view() + twins_from(left.deep_view(), av, i as int).0 =~= said
            + twins_from(before, av, i - 1).0);
    }
    out
}

fn compare_row(row: &str, before: &Vec<Item>, after: &Vec<Item>) -> (r: Vec<Clause>)
    ensures
        r.deep_view() == row_compared(row@, before.deep_view(), after.deep_view()),
{
    let mut left = row_items(before, row);
    let fresh = row_items(after, row);
    let ghost fv = fresh.deep_view();
    let twins = twins_of(&mut left, &fresh);
    let ghost tv = twins.deep_view();
    let ghost lv = left.deep_view();
    proof {
        twins_for_each(in_row(before.deep_view(), row@, 0), fv, 0);
    }
    let mut out: Vec<Clause> = list::empty();
    let mut i: usize = 0;
    while i < fresh.len()
        invariant
            i <= fresh@.len(),
            fv == fresh.deep_view(),
            tv == twins.deep_view(),
            tv.len() == fv.len(),
            out.deep_view() + row_clauses(row@, left.deep_view(), fv, tv, i as int) == row_clauses(
                row@,
                lv,
                fv,
                tv,
                0,
            ),
        decreases fresh@.len() - i,
    {
        let b = &fresh[i];
        assert(fv[i as int] == b.deep_view());
        assert(tv[i as int] == twins@[i as int].deep_view());
        let ghost before_left = left.deep_view();
        match &twins[i] {
            Some(a) => {
                list::push(&mut out, clause(row, ' ', Some(a), Some(b)));
            },
            None => match same_key_at(&left, &b.key) {
                Some(p) => {
                    let a = left.remove(p);
                    assert(left.deep_view() =~= before_left.remove(p as int));
                    list::push(&mut out, clause(row, '~', Some(&a), Some(b)));
                },
                None => {
                    list::push(&mut out, clause(row, '+', None, Some(b)));
                },
            },
        }
        i += 1;
    }
    let ghost rest = left.deep_view();
    let ghost first = out.deep_view();
    i = 0;
    while i < left.len()
        invariant
            i <= left@.len(),
            rest == left.deep_view(),
            out.deep_view() + lost_from(row@, rest, i as int) == first + lost_from(row@, rest, 0),
        decreases left@.len() - i,
    {
        assert(rest[i as int] == left@[i as int].deep_view());
        list::push(&mut out, clause(row, '-', Some(&left[i]), None));
        i += 1;
    }
    out
}

/// Item-by-item comparison of two contracts, in clause order.
pub fn compare(before: &Vec<Item>, after: &Vec<Item>) -> (r: Vec<Clause>)
    ensures
        r.deep_view() == compared(before.deep_view(), after.deep_view()),
        forall|row: Text, text: Text|
            is_item_row(row) ==> #[trigger] times_kept(r.deep_view(), row, text, 0) == times_shared(
                row,
                before.deep_view(),
                after.deep_view(),
                text,
            ),
{
    proof {
        assert forall|row: Text, text: Text| is_item_row(row) implies #[trigger] times_kept(
            compared(before.deep_view(), after.deep_view()),
            row,
            text,
            0,
        ) == times_shared(row, before.deep_view(), after.deep_view(), text) by {
            unchanged_items_are_kept(row, before.deep_view(), after.deep_view(), text);
        }
    }
    let mut out = compare_row("takes", before, after);
    list::append(&mut out, compare_row("who", before, after));
    list::append(&mut out, compare_row("returns", before, after));
    list::append(&mut out, compare_row("pre", before, after));
    list::append(&mut out, compare_row("where", before, after));
    list::append(&mut out, compare_row("post", before, after));
    list::append(&mut out, compare_row("effects", before, after));
    list::append(&mut out, compare_row("renders", before, after));
    out
}

} // verus!
