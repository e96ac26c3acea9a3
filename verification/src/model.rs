//! The behaviour model: facts about one version of a program.
//!
//! Every fact keeps its evidence (source locations) and its origin, so later
//! layers can separate what was established from what was inferred.

use crate::ir::{Loc, LocView};
use crate::list;
use crate::list::Plain;
use crate::ordered::{
    added, added_keeps_order, added_members, lookup, rising, set_of, united, united_members, Key, Rank,
    SortedMap, SortedSet,
};
use crate::pred::{Pred, PredView};
use crate::text;
use crate::text::Text;
use vstd::prelude::*;

verus! {

/// How a fact came to be known.
#[derive(Debug, Clone, Copy, PartialEq, Eq, Structural)]
pub enum Origin {
    /// Established by deterministic analysis of the code.
    Static,
    /// Mined from patterns in the code; carries a confidence below 1.
    Inferred,
    /// Stated by the project in `merak.toml`.
    Declared,
}

impl DeepView for Origin {
    type V = Origin;

    open spec fn deep_view(&self) -> Origin {
        *self
    }
}

impl Plain for Origin {
    fn dup(&self) -> (r: Self) {
        *self
    }

    fn alike(&self, other: &Self) -> (r: bool) {
        *self == *other
    }
}

/// How the code of an entity was written.
#[derive(Debug, Clone, Copy, PartialEq, Eq, Structural)]
pub enum EntityKind {
    Function,
    Method,
    Constructor,
    Closure,
}

impl DeepView for EntityKind {
    type V = EntityKind;

    open spec fn deep_view(&self) -> EntityKind {
        *self
    }
}

impl Plain for EntityKind {
    fn dup(&self) -> (r: Self) {
        *self
    }

    fn alike(&self, other: &Self) -> (r: bool) {
        *self == *other
    }
}

/// An entity calls another one.
#[derive(Debug, PartialEq)]
pub struct CallFact {
    pub target: String,
    pub loc: Loc,
    /// The call only happens on some paths (inside an `if`, loop, or `catch`).
    pub conditional: bool,
}

/// The view of [`CallFact`].
#[verifier::ext_equal]
pub struct CallFactView {
    pub target: Seq<char>,
    pub loc: LocView,
    pub conditional: bool,
}

impl DeepView for CallFact {
    type V = CallFactView;

    open spec fn deep_view(&self) -> CallFactView {
        CallFactView { target: self.target@, loc: self.loc.deep_view(), conditional: self.conditional }
    }
}

impl Plain for CallFact {
    fn dup(&self) -> (r: Self) {
        CallFact { target: self.target.dup(), loc: self.loc.dup(), conditional: self.conditional }
    }

    fn alike(&self, other: &Self) -> (r: bool) {
        self.target.alike(&other.target) && self.loc.alike(&other.loc) && self.conditional == other.conditional
    }
}

/// What an effect does, and to which resource.
#[derive(Debug, Clone, PartialEq, Eq, PartialOrd, Ord, Hash)]
pub struct EffectKey {
    /// `db_read`, `db_write`, `http`, `event_emit`, `fs_read`, `fs_write`, `cache`, `queue` …
    pub kind: String,
    /// Resource: table or model, host, event name, path …
    pub target: String,
    /// Optional operation detail, e.g. the HTTP method.
    pub method: Option<String>,
}

/// The view of [`EffectKey`].
#[verifier::ext_equal]
pub struct EffectKeyView {
    pub kind: Seq<char>,
    pub target: Seq<char>,
    pub method: Option<Seq<char>>,
}

impl DeepView for EffectKey {
    type V = EffectKeyView;

    open spec fn deep_view(&self) -> EffectKeyView {
        EffectKeyView { kind: self.kind@, target: self.target@, method: self.method.deep_view() }
    }
}

impl Plain for EffectKey {
    fn dup(&self) -> (r: Self) {
        EffectKey { kind: self.kind.dup(), target: self.target.dup(), method: self.method.dup() }
    }

    fn alike(&self, other: &Self) -> (r: bool) {
        self.kind.alike(&other.kind) && self.target.alike(&other.target) && self.method.alike(&other.method)
    }
}

impl Rank for EffectKeyView {
    /// By the fields, in the order of their declaration.
    open spec fn precedes(self, other: Self) -> bool {
        self.kind.precedes(other.kind) || (self.kind == other.kind && (self.target.precedes(other.target) || (self.target == other.target && (self.method.precedes(other.method)))))
    }

    proof fn irreflexive(a: Self) {
        Rank::irreflexive(a.kind); Rank::irreflexive(a.target); Rank::irreflexive(a.method);
    }

    proof fn transitive(a: Self, b: Self, c: Self) {
        if a.kind.precedes(b.kind) && b.kind.precedes(c.kind) {
            Rank::transitive(a.kind, b.kind, c.kind);
        }
        if a.target.precedes(b.target) && b.target.precedes(c.target) {
            Rank::transitive(a.target, b.target, c.target);
        }
        if a.method.precedes(b.method) && b.method.precedes(c.method) {
            Rank::transitive(a.method, b.method, c.method);
        }
    }

    proof fn total(a: Self, b: Self) {
        Rank::total(a.kind, b.kind); Rank::total(a.target, b.target); Rank::total(a.method, b.method);
    }
}

impl Key for EffectKey {
    fn less(&self, other: &Self) -> (r: bool) {
        self.kind.less(&other.kind) || (self.kind.alike(&other.kind) && (self.target.less(&other.target) || (self.target.alike(&other.target) && (self.method.less(&other.method)))))
    }
}

/// An entity has an effect itself.
#[derive(Debug, PartialEq)]
pub struct EffectFact {
    pub key: EffectKey,
    /// The external API that produced this effect, e.g. `axios.post()`.
    pub api: String,
    pub loc: Loc,
}

/// The view of [`EffectFact`].
#[verifier::ext_equal]
pub struct EffectFactView {
    pub key: EffectKeyView,
    pub api: Seq<char>,
    pub loc: LocView,
}

impl DeepView for EffectFact {
    type V = EffectFactView;

    open spec fn deep_view(&self) -> EffectFactView {
        EffectFactView { key: self.key.deep_view(), api: self.api@, loc: self.loc.deep_view() }
    }
}

impl Plain for EffectFact {
    fn dup(&self) -> (r: Self) {
        EffectFact { key: self.key.dup(), api: self.api.dup(), loc: self.loc.dup() }
    }

    fn alike(&self, other: &Self) -> (r: bool) {
        self.key.alike(&other.key) && self.api.alike(&other.api) && self.loc.alike(&other.loc)
    }
}

/// An entity writes a field.
#[derive(Debug, PartialEq)]
pub struct WriteFact {
    /// `Type.field`
    pub field: String,
    /// Constant value written, if known (enum member values are resolved).
    pub value: Option<String>,
    /// Written as part of constructing a new object literal.
    pub creation: bool,
    pub loc: Loc,
}

/// The view of [`WriteFact`].
#[verifier::ext_equal]
pub struct WriteFactView {
    pub field: Seq<char>,
    pub value: Option<Seq<char>>,
    pub creation: bool,
    pub loc: LocView,
}

impl DeepView for WriteFact {
    type V = WriteFactView;

    open spec fn deep_view(&self) -> WriteFactView {
        WriteFactView { field: self.field@, value: self.value.deep_view(), creation: self.creation, loc: self.loc.deep_view() }
    }
}

impl Plain for WriteFact {
    fn dup(&self) -> (r: Self) {
        WriteFact { field: self.field.dup(), value: self.value.dup(), creation: self.creation, loc: self.loc.dup() }
    }

    fn alike(&self, other: &Self) -> (r: bool) {
        self.field.alike(&other.field) && self.value.alike(&other.value) && self.creation == other.creation && self.loc.alike(&other.loc)
    }
}

/// What a guard does where it fails.
#[derive(Debug, Clone, Copy, PartialEq, Eq, Structural)]
pub enum OnFail {
    Throw,
    Return,
}

impl DeepView for OnFail {
    type V = OnFail;

    open spec fn deep_view(&self) -> OnFail {
        *self
    }
}

impl Plain for OnFail {
    fn dup(&self) -> (r: Self) {
        *self
    }

    fn alike(&self, other: &Self) -> (r: bool) {
        *self == *other
    }
}

/// An entity goes on only where a condition holds.
#[derive(Debug, PartialEq)]
pub struct GuardFact {
    /// What must hold for execution to continue past the guard.
    pub required: Pred,
    pub on_fail: OnFail,
    pub loc: Loc,
    /// The guard returns a value where it fails.
    pub returns_value: bool,
}

/// The view of [`GuardFact`].
#[verifier::ext_equal]
pub struct GuardFactView {
    pub required: PredView,
    pub on_fail: OnFail,
    pub loc: LocView,
    pub returns_value: bool,
}

impl DeepView for GuardFact {
    type V = GuardFactView;

    open spec fn deep_view(&self) -> GuardFactView {
        GuardFactView { required: self.required.deep_view(), on_fail: self.on_fail, loc: self.loc.deep_view(), returns_value: self.returns_value }
    }
}

impl Plain for GuardFact {
    fn dup(&self) -> (r: Self) {
        GuardFact { required: self.required.dup(), on_fail: self.on_fail, loc: self.loc.dup(), returns_value: self.returns_value }
    }

    fn alike(&self, other: &Self) -> (r: bool) {
        self.required.alike(&other.required) && self.on_fail == other.on_fail && self.loc.alike(&other.loc) && self.returns_value == other.returns_value
    }
}

/// An entity handles an event.
#[derive(Debug, PartialEq)]
pub struct Subscription {
    pub event: String,
    pub handler: String,
    pub loc: Loc,
}

/// The view of [`Subscription`].
#[verifier::ext_equal]
pub struct SubscriptionView {
    pub event: Seq<char>,
    pub handler: Seq<char>,
    pub loc: LocView,
}

impl DeepView for Subscription {
    type V = SubscriptionView;

    open spec fn deep_view(&self) -> SubscriptionView {
        SubscriptionView { event: self.event@, handler: self.handler@, loc: self.loc.deep_view() }
    }
}

impl Plain for Subscription {
    fn dup(&self) -> (r: Self) {
        Subscription { event: self.event.dup(), handler: self.handler.dup(), loc: self.loc.dup() }
    }

    fn alike(&self, other: &Self) -> (r: bool) {
        self.event.alike(&other.event) && self.handler.alike(&other.handler) && self.loc.alike(&other.loc)
    }
}

/// An entity handles an HTTP route.
#[derive(Debug, PartialEq)]
pub struct Route {
    pub method: String,
    pub path: String,
    pub handler: String,
    pub loc: Loc,
}

/// The view of [`Route`].
#[verifier::ext_equal]
pub struct RouteView {
    pub method: Seq<char>,
    pub path: Seq<char>,
    pub handler: Seq<char>,
    pub loc: LocView,
}

impl DeepView for Route {
    type V = RouteView;

    open spec fn deep_view(&self) -> RouteView {
        RouteView { method: self.method@, path: self.path@, handler: self.handler@, loc: self.loc.deep_view() }
    }
}

impl Plain for Route {
    fn dup(&self) -> (r: Self) {
        Route { method: self.method.dup(), path: self.path.dup(), handler: self.handler.dup(), loc: self.loc.dup() }
    }

    fn alike(&self, other: &Self) -> (r: bool) {
        self.method.alike(&other.method) && self.path.alike(&other.path) && self.handler.alike(&other.handler) && self.loc.alike(&other.loc)
    }
}

/// What the analysis could not tell.
#[derive(Debug, PartialEq)]
pub struct Unknown {
    pub question: String,
    pub loc: Loc,
}

/// The view of [`Unknown`].
#[verifier::ext_equal]
pub struct UnknownView {
    pub question: Seq<char>,
    pub loc: LocView,
}

impl DeepView for Unknown {
    type V = UnknownView;

    open spec fn deep_view(&self) -> UnknownView {
        UnknownView { question: self.question@, loc: self.loc.deep_view() }
    }
}

impl Plain for Unknown {
    fn dup(&self) -> (r: Self) {
        Unknown { question: self.question.dup(), loc: self.loc.dup() }
    }

    fn alike(&self, other: &Self) -> (r: bool) {
        self.question.alike(&other.question) && self.loc.alike(&other.loc)
    }
}

/// A piece of content that markup renders.
#[derive(Debug, PartialEq)]
pub struct Rendered {
    pub content: String,
    /// The element around the content, with its classes.
    pub style: String,
    /// The conditions that show it.
    pub when: String,
}

/// The view of [`Rendered`].
#[verifier::ext_equal]
pub struct RenderedView {
    pub content: Seq<char>,
    pub style: Seq<char>,
    pub when: Seq<char>,
}

impl DeepView for Rendered {
    type V = RenderedView;

    open spec fn deep_view(&self) -> RenderedView {
        RenderedView { content: self.content@, style: self.style@, when: self.when@ }
    }
}

impl Plain for Rendered {
    fn dup(&self) -> (r: Self) {
        Rendered { content: self.content.dup(), style: self.style.dup(), when: self.when.dup() }
    }

    fn alike(&self, other: &Self) -> (r: bool) {
        self.content.alike(&other.content) && self.style.alike(&other.style) && self.when.alike(&other.when)
    }
}

/// A value that an entity returns.
#[derive(Debug, PartialEq)]
pub struct Output {
    /// The conditions under which it is returned.
    pub when: Vec<String>,
    pub value: String,
    pub renders: Vec<Rendered>,
    pub loc: Loc,
}

/// The view of [`Output`].
#[verifier::ext_equal]
pub struct OutputView {
    pub when: Seq<Seq<char>>,
    pub value: Seq<char>,
    pub renders: Seq<RenderedView>,
    pub loc: LocView,
}

impl DeepView for Output {
    type V = OutputView;

    open spec fn deep_view(&self) -> OutputView {
        OutputView { when: self.when.deep_view(), value: self.value@, renders: self.renders.deep_view(), loc: self.loc.deep_view() }
    }
}

impl Plain for Output {
    fn dup(&self) -> (r: Self) {
        Output { when: self.when.dup(), value: self.value.dup(), renders: self.renders.dup(), loc: self.loc.dup() }
    }

    fn alike(&self, other: &Self) -> (r: bool) {
        self.when.alike(&other.when) && self.value.alike(&other.value) && self.renders.alike(&other.renders) && self.loc.alike(&other.loc)
    }
}

/// A predicate that a query applies.
#[derive(Debug, PartialEq)]
pub struct QueryFilter {
    pub expr: String,
    pub loc: Loc,
}

/// The view of [`QueryFilter`].
#[verifier::ext_equal]
pub struct QueryFilterView {
    pub expr: Seq<char>,
    pub loc: LocView,
}

impl DeepView for QueryFilter {
    type V = QueryFilterView;

    open spec fn deep_view(&self) -> QueryFilterView {
        QueryFilterView { expr: self.expr@, loc: self.loc.deep_view() }
    }
}

impl Plain for QueryFilter {
    fn dup(&self) -> (r: Self) {
        QueryFilter { expr: self.expr.dup(), loc: self.loc.dup() }
    }

    fn alike(&self, other: &Self) -> (r: bool) {
        self.expr.alike(&other.expr) && self.loc.alike(&other.loc)
    }
}

/// An access requirement, `key=value`; `key=_` where the value is not constant.
#[derive(Debug, PartialEq)]
pub struct AccessFact {
    pub requirement: String,
    /// The key grants access rather than requiring it.
    pub grant: bool,
    pub loc: Loc,
}

/// The view of [`AccessFact`].
#[verifier::ext_equal]
pub struct AccessFactView {
    pub requirement: Seq<char>,
    pub grant: bool,
    pub loc: LocView,
}

impl DeepView for AccessFact {
    type V = AccessFactView;

    open spec fn deep_view(&self) -> AccessFactView {
        AccessFactView { requirement: self.requirement@, grant: self.grant, loc: self.loc.deep_view() }
    }
}

impl Plain for AccessFact {
    fn dup(&self) -> (r: Self) {
        AccessFact { requirement: self.requirement.dup(), grant: self.grant, loc: self.loc.dup() }
    }

    fn alike(&self, other: &Self) -> (r: bool) {
        self.requirement.alike(&other.requirement) && self.grant == other.grant && self.loc.alike(&other.loc)
    }
}

/// A call not classified by the catalog, as `target(argument shape)`.
#[derive(Debug, PartialEq)]
pub struct CallShape {
    pub shape: String,
    /// The called entity, for program-internal calls.
    pub target: Option<String>,
    /// The conditions under which the call runs.
    pub when: Vec<String>,
    /// The entity's own guards before the call.
    pub guards: Vec<String>,
    pub loc: Loc,
}

/// The view of [`CallShape`].
#[verifier::ext_equal]
pub struct CallShapeView {
    pub shape: Seq<char>,
    pub target: Option<Seq<char>>,
    pub when: Seq<Seq<char>>,
    pub guards: Seq<Seq<char>>,
    pub loc: LocView,
}

impl DeepView for CallShape {
    type V = CallShapeView;

    open spec fn deep_view(&self) -> CallShapeView {
        CallShapeView { shape: self.shape@, target: self.target.deep_view(), when: self.when.deep_view(), guards: self.guards.deep_view(), loc: self.loc.deep_view() }
    }
}

impl Plain for CallShape {
    fn dup(&self) -> (r: Self) {
        CallShape { shape: self.shape.dup(), target: self.target.dup(), when: self.when.dup(), guards: self.guards.dup(), loc: self.loc.dup() }
    }

    fn alike(&self, other: &Self) -> (r: bool) {
        self.shape.alike(&other.shape) && self.target.alike(&other.target) && self.when.alike(&other.when) && self.guards.alike(&other.guards) && self.loc.alike(&other.loc)
    }
}

/// Facts established directly from one entity's own body.
#[derive(Debug, PartialEq)]
pub struct Entity {
    pub id: String,
    pub name: String,
    pub kind: EntityKind,
    pub module: String,
    pub class: Option<String>,
    pub parent: Option<String>,
    pub loc: Loc,
    pub end_line: u32,
    pub body_hash: String,
    pub calls: Vec<CallFact>,
    pub effects: Vec<EffectFact>,
    pub reads: SortedMap<String, Loc>,
    pub writes: Vec<WriteFact>,
    pub guards: Vec<GuardFact>,
    /// For boolean predicate functions: what the return value means.
    pub returns: Option<Pred>,
    pub returns_at: Option<Loc>,
    pub outputs: Vec<Output>,
    /// Parameters as written, `name: Type`.
    pub params: Vec<String>,
    pub throws: bool,
    pub subscriptions: Vec<Subscription>,
    pub routes: Vec<Route>,
    pub unknowns: Vec<Unknown>,
    /// Every call as `target(argument shape)`. Covers what the typed facts above do
    /// not, so a transition never calls an entity unchanged when its calls changed.
    pub call_shapes: Vec<CallShape>,
    pub filters: Vec<QueryFilter>,
    pub logs: Vec<CallShape>,
    pub access: Vec<AccessFact>,
}

/// The view of [`Entity`].
#[verifier::ext_equal]
pub struct EntityView {
    pub id: Seq<char>,
    pub name: Seq<char>,
    pub kind: EntityKind,
    pub module: Seq<char>,
    pub class: Option<Seq<char>>,
    pub parent: Option<Seq<char>>,
    pub loc: LocView,
    pub end_line: u32,
    pub body_hash: Seq<char>,
    pub calls: Seq<CallFactView>,
    pub effects: Seq<EffectFactView>,
    pub reads: Seq<(Seq<char>, LocView)>,
    pub writes: Seq<WriteFactView>,
    pub guards: Seq<GuardFactView>,
    pub returns: Option<PredView>,
    pub returns_at: Option<LocView>,
    pub outputs: Seq<OutputView>,
    pub params: Seq<Seq<char>>,
    pub throws: bool,
    pub subscriptions: Seq<SubscriptionView>,
    pub routes: Seq<RouteView>,
    pub unknowns: Seq<UnknownView>,
    pub call_shapes: Seq<CallShapeView>,
    pub filters: Seq<QueryFilterView>,
    pub logs: Seq<CallShapeView>,
    pub access: Seq<AccessFactView>,
}

impl DeepView for Entity {
    type V = EntityView;

    open spec fn deep_view(&self) -> EntityView {
        EntityView { id: self.id@, name: self.name@, kind: self.kind, module: self.module@, class: self.class.deep_view(), parent: self.parent.deep_view(), loc: self.loc.deep_view(), end_line: self.end_line, body_hash: self.body_hash@, calls: self.calls.deep_view(), effects: self.effects.deep_view(), reads: self.reads.deep_view(), writes: self.writes.deep_view(), guards: self.guards.deep_view(), returns: self.returns.deep_view(), returns_at: self.returns_at.deep_view(), outputs: self.outputs.deep_view(), params: self.params.deep_view(), throws: self.throws, subscriptions: self.subscriptions.deep_view(), routes: self.routes.deep_view(), unknowns: self.unknowns.deep_view(), call_shapes: self.call_shapes.deep_view(), filters: self.filters.deep_view(), logs: self.logs.deep_view(), access: self.access.deep_view() }
    }
}

impl Plain for Entity {
    fn dup(&self) -> (r: Self) {
        Entity { id: self.id.dup(), name: self.name.dup(), kind: self.kind, module: self.module.dup(), class: self.class.dup(), parent: self.parent.dup(), loc: self.loc.dup(), end_line: self.end_line, body_hash: self.body_hash.dup(), calls: self.calls.dup(), effects: self.effects.dup(), reads: self.reads.dup(), writes: self.writes.dup(), guards: self.guards.dup(), returns: self.returns.dup(), returns_at: self.returns_at.dup(), outputs: self.outputs.dup(), params: self.params.dup(), throws: self.throws, subscriptions: self.subscriptions.dup(), routes: self.routes.dup(), unknowns: self.unknowns.dup(), call_shapes: self.call_shapes.dup(), filters: self.filters.dup(), logs: self.logs.dup(), access: self.access.dup() }
    }

    fn alike(&self, other: &Self) -> (r: bool) {
        self.id.alike(&other.id) && self.name.alike(&other.name) && self.kind == other.kind && self.module.alike(&other.module) && self.class.alike(&other.class) && self.parent.alike(&other.parent) && self.loc.alike(&other.loc) && self.end_line == other.end_line && self.body_hash.alike(&other.body_hash) && self.calls.alike(&other.calls) && self.effects.alike(&other.effects) && self.reads.alike(&other.reads) && self.writes.alike(&other.writes) && self.guards.alike(&other.guards) && self.returns.alike(&other.returns) && self.returns_at.alike(&other.returns_at) && self.outputs.alike(&other.outputs) && self.params.alike(&other.params) && self.throws == other.throws && self.subscriptions.alike(&other.subscriptions) && self.routes.alike(&other.routes) && self.unknowns.alike(&other.unknowns) && self.call_shapes.alike(&other.call_shapes) && self.filters.alike(&other.filters) && self.logs.alike(&other.logs) && self.access.alike(&other.access)
    }
}

/// When an effect happens.
#[derive(Debug, Clone, Copy, PartialEq, Eq, PartialOrd, Ord, Hash)]
pub enum Mode {
    Sync,
    /// Happens in a handler of an event.
    Async,
}

/// How an entity comes to have an effect, itself or through what it calls.
#[derive(Debug, PartialEq)]
pub struct EffectInfo {
    /// How the effect is reached: `sync`, or `async via <Event>`.
    pub modes: SortedSet<String>,
    /// First hop from this entity (`direct` or the callee or event it goes through).
    pub via: SortedSet<String>,
    /// Where the effect actually happens.
    pub evidence: SortedSet<Loc>,
}

/// The view of [`EffectInfo`].
#[verifier::ext_equal]
pub struct EffectInfoView {
    pub modes: Seq<Seq<char>>,
    pub via: Seq<Seq<char>>,
    pub evidence: Seq<LocView>,
}

impl DeepView for EffectInfo {
    type V = EffectInfoView;

    open spec fn deep_view(&self) -> EffectInfoView {
        EffectInfoView { modes: self.modes.deep_view(), via: self.via.deep_view(), evidence: self.evidence.deep_view() }
    }
}

impl Plain for EffectInfo {
    fn dup(&self) -> (r: Self) {
        EffectInfo { modes: self.modes.dup(), via: self.via.dup(), evidence: self.evidence.dup() }
    }

    fn alike(&self, other: &Self) -> (r: bool) {
        self.modes.alike(&other.modes) && self.via.alike(&other.via) && self.evidence.alike(&other.evidence)
    }
}

/// Transitive behaviour of an entity: its own facts plus everything reached.
#[derive(Debug, PartialEq)]
pub struct Summary {
    pub effects: SortedMap<EffectKey, EffectInfo>,
    /// Validator entities called on the way (directly or transitively).
    pub validations: SortedMap<String, Loc>,
    /// `Type.field` written anywhere below this entity.
    pub writes: SortedSet<String>,
    /// `Type.field` read anywhere below this entity.
    pub reads: SortedSet<String>,
    /// Own guards with predicate calls expanded: key, meaning, place.
    pub requirements: Vec<(String, Pred, Loc)>,
    /// Own access requirements, and the constant ones of everything reached.
    pub access: SortedMap<String, AccessFact>,
}

/// The view of [`Summary`].
#[verifier::ext_equal]
pub struct SummaryView {
    pub effects: Seq<(EffectKeyView, EffectInfoView)>,
    pub validations: Seq<(Seq<char>, LocView)>,
    pub writes: Seq<Seq<char>>,
    pub reads: Seq<Seq<char>>,
    pub requirements: Seq<(Seq<char>, PredView, LocView)>,
    pub access: Seq<(Seq<char>, AccessFactView)>,
}

impl DeepView for Summary {
    type V = SummaryView;

    open spec fn deep_view(&self) -> SummaryView {
        SummaryView { effects: self.effects.deep_view(), validations: self.validations.deep_view(), writes: self.writes.deep_view(), reads: self.reads.deep_view(), requirements: self.requirements.deep_view(), access: self.access.deep_view() }
    }
}

impl Plain for Summary {
    fn dup(&self) -> (r: Self) {
        Summary { effects: self.effects.dup(), validations: self.validations.dup(), writes: self.writes.dup(), reads: self.reads.dup(), requirements: self.requirements.dup(), access: self.access.dup() }
    }

    fn alike(&self, other: &Self) -> (r: bool) {
        self.effects.alike(&other.effects) && self.validations.alike(&other.validations) && self.writes.alike(&other.writes) && self.reads.alike(&other.reads) && self.requirements.alike(&other.requirements) && self.access.alike(&other.access)
    }
}

/// A write that moves a field from one state to another.
#[derive(Debug, PartialEq)]
pub struct StateEdge {
    /// Source states: concrete values, `*` (unguarded) or `∅` (on creation).
    pub from: SortedSet<String>,
    pub to: String,
    pub writer: String,
    pub loc: Loc,
}

/// The view of [`StateEdge`].
#[verifier::ext_equal]
pub struct StateEdgeView {
    pub from: Seq<Seq<char>>,
    pub to: Seq<char>,
    pub writer: Seq<char>,
    pub loc: LocView,
}

impl DeepView for StateEdge {
    type V = StateEdgeView;

    open spec fn deep_view(&self) -> StateEdgeView {
        StateEdgeView { from: self.from.deep_view(), to: self.to@, writer: self.writer@, loc: self.loc.deep_view() }
    }
}

impl Plain for StateEdge {
    fn dup(&self) -> (r: Self) {
        StateEdge { from: self.from.dup(), to: self.to.dup(), writer: self.writer.dup(), loc: self.loc.dup() }
    }

    fn alike(&self, other: &Self) -> (r: bool) {
        self.from.alike(&other.from) && self.to.alike(&other.to) && self.writer.alike(&other.writer) && self.loc.alike(&other.loc)
    }
}

/// The states of a field and the writes between them.
#[derive(Debug, PartialEq)]
pub struct StateMachine {
    pub field: String,
    pub states: SortedSet<String>,
    pub edges: Vec<StateEdge>,
}

/// The view of [`StateMachine`].
#[verifier::ext_equal]
pub struct StateMachineView {
    pub field: Seq<char>,
    pub states: Seq<Seq<char>>,
    pub edges: Seq<StateEdgeView>,
}

impl DeepView for StateMachine {
    type V = StateMachineView;

    open spec fn deep_view(&self) -> StateMachineView {
        StateMachineView { field: self.field@, states: self.states.deep_view(), edges: self.edges.deep_view() }
    }
}

impl Plain for StateMachine {
    fn dup(&self) -> (r: Self) {
        StateMachine { field: self.field.dup(), states: self.states.dup(), edges: self.edges.dup() }
    }

    fn alike(&self, other: &Self) -> (r: bool) {
        self.field.alike(&other.field) && self.states.alike(&other.states) && self.edges.alike(&other.edges)
    }
}

/// What an invariant asks of a write.
#[derive(Debug, PartialEq)]
pub enum Requirement {
    /// Another field must be written with a non-null value.
    CoWrite(String),
    /// A guard (by key) must hold before the write.
    Guard(String),
}

/// The view of [`Requirement`].
#[verifier::ext_equal]
pub enum RequirementView {
    CoWrite(Seq<char>),
    Guard(Seq<char>),
}

/// The view of a requirement.
pub open spec fn requirement_view(v: Requirement) -> RequirementView
{
    match v {
        Requirement::CoWrite(x0) => RequirementView::CoWrite(x0@),
        Requirement::Guard(x0) => RequirementView::Guard(x0@),
    }
}

impl DeepView for Requirement {
    type V = RequirementView;

    open spec fn deep_view(&self) -> RequirementView {
        requirement_view(*self)
    }
}

fn dup_requirement(v: &Requirement) -> (r: Requirement)
    ensures
        requirement_view(r) == requirement_view(*v),
{
    match v {
        Requirement::CoWrite(x0) => Requirement::CoWrite(x0.dup()),
        Requirement::Guard(x0) => Requirement::Guard(x0.dup()),
    }
}

fn alike_requirement(v: &Requirement, w: &Requirement) -> (r: bool)
    ensures
        r == (requirement_view(*v) == requirement_view(*w)),
{
    match (v, w) {
        (Requirement::CoWrite(x0), Requirement::CoWrite(y0)) => x0.alike(y0),
        (Requirement::Guard(x0), Requirement::Guard(y0)) => x0.alike(y0),
        _ => false,
    }
}

impl Plain for Requirement {
    fn dup(&self) -> (r: Self) {
        dup_requirement(self)
    }

    fn alike(&self, other: &Self) -> (r: bool) {
        alike_requirement(self, other)
    }
}

/// A rule that the writers of a state follow.
#[derive(Debug, PartialEq)]
pub struct Invariant {
    /// Stable key used to match across versions.
    pub key: String,
    /// Human-readable statement.
    pub statement: String,
    /// State write the invariant is about (`Type.field`, value).
    pub field: String,
    pub value: String,
    pub requirement: Requirement,
    pub support: usize,
    /// Confidence in hundredths.
    pub confidence: u32,
    pub evidence: Vec<Loc>,
}

/// The view of [`Invariant`].
#[verifier::ext_equal]
pub struct InvariantView {
    pub key: Seq<char>,
    pub statement: Seq<char>,
    pub field: Seq<char>,
    pub value: Seq<char>,
    pub requirement: RequirementView,
    pub support: usize,
    pub confidence: u32,
    pub evidence: Seq<LocView>,
}

impl DeepView for Invariant {
    type V = InvariantView;

    open spec fn deep_view(&self) -> InvariantView {
        InvariantView { key: self.key@, statement: self.statement@, field: self.field@, value: self.value@, requirement: self.requirement.deep_view(), support: self.support, confidence: self.confidence, evidence: self.evidence.deep_view() }
    }
}

impl Plain for Invariant {
    fn dup(&self) -> (r: Self) {
        Invariant { key: self.key.dup(), statement: self.statement.dup(), field: self.field.dup(), value: self.value.dup(), requirement: self.requirement.dup(), support: self.support, confidence: self.confidence, evidence: self.evidence.dup() }
    }

    fn alike(&self, other: &Self) -> (r: bool) {
        self.key.alike(&other.key) && self.statement.alike(&other.statement) && self.field.alike(&other.field) && self.value.alike(&other.value) && self.requirement.alike(&other.requirement) && self.support == other.support && self.confidence == other.confidence && self.evidence.alike(&other.evidence)
    }
}

/// A place that breaks a rule the project declares.
#[derive(Debug, PartialEq)]
pub struct Violation {
    /// `layer` or `ownership`.
    pub kind: String,
    pub subject: String,
    pub detail: String,
    pub evidence: Vec<Loc>,
}

/// The view of [`Violation`].
#[verifier::ext_equal]
pub struct ViolationView {
    pub kind: Seq<char>,
    pub subject: Seq<char>,
    pub detail: Seq<char>,
    pub evidence: Seq<LocView>,
}

impl DeepView for Violation {
    type V = ViolationView;

    open spec fn deep_view(&self) -> ViolationView {
        ViolationView { kind: self.kind@, subject: self.subject@, detail: self.detail@, evidence: self.evidence.deep_view() }
    }
}

impl Plain for Violation {
    fn dup(&self) -> (r: Self) {
        Violation { kind: self.kind.dup(), subject: self.subject.dup(), detail: self.detail.dup(), evidence: self.evidence.dup() }
    }

    fn alike(&self, other: &Self) -> (r: bool) {
        self.kind.alike(&other.kind) && self.subject.alike(&other.subject) && self.detail.alike(&other.detail) && self.evidence.alike(&other.evidence)
    }
}

/// A class of the program.
#[derive(Debug, PartialEq)]
pub struct ClassInfo {
    pub id: String,
    pub name: String,
    pub module: String,
    pub methods: Vec<String>,
    pub loc: Loc,
}

/// The view of [`ClassInfo`].
#[verifier::ext_equal]
pub struct ClassInfoView {
    pub id: Seq<char>,
    pub name: Seq<char>,
    pub module: Seq<char>,
    pub methods: Seq<Seq<char>>,
    pub loc: LocView,
}

impl DeepView for ClassInfo {
    type V = ClassInfoView;

    open spec fn deep_view(&self) -> ClassInfoView {
        ClassInfoView { id: self.id@, name: self.name@, module: self.module@, methods: self.methods.deep_view(), loc: self.loc.deep_view() }
    }
}

impl Plain for ClassInfo {
    fn dup(&self) -> (r: Self) {
        ClassInfo { id: self.id.dup(), name: self.name.dup(), module: self.module.dup(), methods: self.methods.dup(), loc: self.loc.dup() }
    }

    fn alike(&self, other: &Self) -> (r: bool) {
        self.id.alike(&other.id) && self.name.alike(&other.name) && self.module.alike(&other.module) && self.methods.alike(&other.methods) && self.loc.alike(&other.loc)
    }
}

/// A validation schema: its fields as constraint texts.
#[derive(Debug, PartialEq)]
pub struct SchemaFact {
    pub fields: SortedMap<String, String>,
    pub loc: Loc,
}

/// The view of [`SchemaFact`].
#[verifier::ext_equal]
pub struct SchemaFactView {
    pub fields: Seq<(Seq<char>, Seq<char>)>,
    pub loc: LocView,
}

impl DeepView for SchemaFact {
    type V = SchemaFactView;

    open spec fn deep_view(&self) -> SchemaFactView {
        SchemaFactView { fields: self.fields.deep_view(), loc: self.loc.deep_view() }
    }
}

impl Plain for SchemaFact {
    fn dup(&self) -> (r: Self) {
        SchemaFact { fields: self.fields.dup(), loc: self.loc.dup() }
    }

    fn alike(&self, other: &Self) -> (r: bool) {
        self.fields.alike(&other.fields) && self.loc.alike(&other.loc)
    }
}

/// The behaviour model of one version of a program.
#[derive(Debug, PartialEq)]
pub struct Model {
    pub entities: SortedMap<String, Entity>,
    /// Classes by entity id.
    pub classes: SortedMap<String, ClassInfo>,
    pub summaries: SortedMap<String, Summary>,
    pub validators: SortedSet<String>,
    pub state_machines: SortedMap<String, StateMachine>,
    pub routes: Vec<Route>,
    pub subscriptions: Vec<Subscription>,
    /// (from module, to module) to call sites.
    pub module_deps: SortedMap<(String, String), Vec<Loc>>,
    pub invariants: Vec<Invariant>,
    pub violations: Vec<Violation>,
    pub module_layers: SortedMap<String, String>,
    /// Finite value domains of written enum and literal-union fields (`Type.field`).
    pub field_domains: SortedMap<String, SortedSet<String>>,
    /// Validation schemas by `<file>::<name>`.
    pub schemas: SortedMap<String, SchemaFact>,
}

/// The view of [`Model`].
#[verifier::ext_equal]
pub struct ModelView {
    pub entities: Seq<(Seq<char>, EntityView)>,
    pub classes: Seq<(Seq<char>, ClassInfoView)>,
    pub summaries: Seq<(Seq<char>, SummaryView)>,
    pub validators: Seq<Seq<char>>,
    pub state_machines: Seq<(Seq<char>, StateMachineView)>,
    pub routes: Seq<RouteView>,
    pub subscriptions: Seq<SubscriptionView>,
    pub module_deps: Seq<((Seq<char>, Seq<char>), Seq<LocView>)>,
    pub invariants: Seq<InvariantView>,
    pub violations: Seq<ViolationView>,
    pub module_layers: Seq<(Seq<char>, Seq<char>)>,
    pub field_domains: Seq<(Seq<char>, Seq<Seq<char>>)>,
    pub schemas: Seq<(Seq<char>, SchemaFactView)>,
}

impl DeepView for Model {
    type V = ModelView;

    open spec fn deep_view(&self) -> ModelView {
        ModelView { entities: self.entities.deep_view(), classes: self.classes.deep_view(), summaries: self.summaries.deep_view(), validators: self.validators.deep_view(), state_machines: self.state_machines.deep_view(), routes: self.routes.deep_view(), subscriptions: self.subscriptions.deep_view(), module_deps: self.module_deps.deep_view(), invariants: self.invariants.deep_view(), violations: self.violations.deep_view(), module_layers: self.module_layers.deep_view(), field_domains: self.field_domains.deep_view(), schemas: self.schemas.deep_view() }
    }
}

impl Plain for Model {
    fn dup(&self) -> (r: Self) {
        Model { entities: self.entities.dup(), classes: self.classes.dup(), summaries: self.summaries.dup(), validators: self.validators.dup(), state_machines: self.state_machines.dup(), routes: self.routes.dup(), subscriptions: self.subscriptions.dup(), module_deps: self.module_deps.dup(), invariants: self.invariants.dup(), violations: self.violations.dup(), module_layers: self.module_layers.dup(), field_domains: self.field_domains.dup(), schemas: self.schemas.dup() }
    }

    fn alike(&self, other: &Self) -> (r: bool) {
        self.entities.alike(&other.entities) && self.classes.alike(&other.classes) && self.summaries.alike(&other.summaries) && self.validators.alike(&other.validators) && self.state_machines.alike(&other.state_machines) && self.routes.alike(&other.routes) && self.subscriptions.alike(&other.subscriptions) && self.module_deps.alike(&other.module_deps) && self.invariants.alike(&other.invariants) && self.violations.alike(&other.violations) && self.module_layers.alike(&other.module_layers) && self.field_domains.alike(&other.field_domains) && self.schemas.alike(&other.schemas)
    }
}

impl Rank for StateEdgeView {
    /// By the fields, in the order of their declaration.
    open spec fn precedes(self, other: Self) -> bool {
        self.from.precedes(other.from) || (self.from == other.from && (self.to.precedes(other.to) || (self.to == other.to && (self.writer.precedes(other.writer) || (self.writer == other.writer && (self.loc.precedes(other.loc)))))))
    }

    proof fn irreflexive(a: Self) {
        Rank::irreflexive(a.from); Rank::irreflexive(a.to); Rank::irreflexive(a.writer); Rank::irreflexive(a.loc);
    }

    proof fn transitive(a: Self, b: Self, c: Self) {
        if a.from.precedes(b.from) && b.from.precedes(c.from) {
            Rank::transitive(a.from, b.from, c.from);
        }
        if a.to.precedes(b.to) && b.to.precedes(c.to) {
            Rank::transitive(a.to, b.to, c.to);
        }
        if a.writer.precedes(b.writer) && b.writer.precedes(c.writer) {
            Rank::transitive(a.writer, b.writer, c.writer);
        }
        if a.loc.precedes(b.loc) && b.loc.precedes(c.loc) {
            Rank::transitive(a.loc, b.loc, c.loc);
        }
    }

    proof fn total(a: Self, b: Self) {
        Rank::total(a.from, b.from); Rank::total(a.to, b.to); Rank::total(a.writer, b.writer); Rank::total(a.loc, b.loc);
    }
}

impl Key for StateEdge {
    fn less(&self, other: &Self) -> (r: bool) {
        self.from.less(&other.from) || (self.from.alike(&other.from) && (self.to.less(&other.to) || (self.to.alike(&other.to) && (self.writer.less(&other.writer) || (self.writer.alike(&other.writer) && (self.loc.less(&other.loc)))))))
    }
}

impl Rank for ViolationView {
    /// By the fields, in the order of their declaration.
    open spec fn precedes(self, other: Self) -> bool {
        self.kind.precedes(other.kind) || (self.kind == other.kind && (self.subject.precedes(other.subject) || (self.subject == other.subject && (self.detail.precedes(other.detail) || (self.detail == other.detail && (self.evidence.precedes(other.evidence)))))))
    }

    proof fn irreflexive(a: Self) {
        Rank::irreflexive(a.kind); Rank::irreflexive(a.subject); Rank::irreflexive(a.detail); Rank::irreflexive(a.evidence);
    }

    proof fn transitive(a: Self, b: Self, c: Self) {
        if a.kind.precedes(b.kind) && b.kind.precedes(c.kind) {
            Rank::transitive(a.kind, b.kind, c.kind);
        }
        if a.subject.precedes(b.subject) && b.subject.precedes(c.subject) {
            Rank::transitive(a.subject, b.subject, c.subject);
        }
        if a.detail.precedes(b.detail) && b.detail.precedes(c.detail) {
            Rank::transitive(a.detail, b.detail, c.detail);
        }
        if a.evidence.precedes(b.evidence) && b.evidence.precedes(c.evidence) {
            Rank::transitive(a.evidence, b.evidence, c.evidence);
        }
    }

    proof fn total(a: Self, b: Self) {
        Rank::total(a.kind, b.kind); Rank::total(a.subject, b.subject); Rank::total(a.detail, b.detail); Rank::total(a.evidence, b.evidence);
    }
}

impl Key for Violation {
    fn less(&self, other: &Self) -> (r: bool) {
        self.kind.less(&other.kind) || (self.kind.alike(&other.kind) && (self.subject.less(&other.subject) || (self.subject.alike(&other.subject) && (self.detail.less(&other.detail) || (self.detail.alike(&other.detail) && (self.evidence.less(&other.evidence)))))))
    }
}

// ---- texts

/// An effect as a reader sees it: kind, method if any, target.
pub open spec fn effect_text(k: EffectKeyView) -> Text {
    match k.method {
        Some(m) => k.kind + " "@ + m + " "@ + k.target,
        None => k.kind + " "@ + k.target,
    }
}

impl EffectKey {
    /// The effect as a reader sees it.
    pub fn render(&self) -> (r: String)
        ensures
            r@ == effect_text(self.deep_view()),
    {
        match &self.method {
            Some(m) => text::cat5(&self.kind, " ", m, " ", &self.target),
            None => text::cat3(&self.kind, " ", &self.target),
        }
    }
}

/// `METHOD /path`.
pub open spec fn route_key(r: RouteView) -> Text {
    r.method + " "@ + r.path
}

impl Route {
    /// `METHOD /path`.
    pub fn key(&self) -> (r: String)
        ensures
            r@ == route_key(self.deep_view()),
    {
        text::cat3(&self.method, " ", &self.path)
    }
}

/// The shape of a call and the conditions it runs under.
pub open spec fn shape_key(c: CallShapeView) -> Text {
    if c.when.len() == 0 {
        c.shape
    } else {
        c.shape + " when "@ + text::joined(c.when, " ∧ "@)
    }
}

impl CallShape {
    /// The shape and the conditions it runs under, by which calls are compared.
    pub fn key(&self) -> (r: String)
        ensures
            r@ == shape_key(self.deep_view()),
    {
        if self.when.len() == 0 {
            self.shape.dup()
        } else {
            text::cat3(&self.shape, " when ", &text::join(&self.when, " ∧ "))
        }
    }
}

impl AccessFact {
    /// The required value is not constant.
    pub fn dynamic(&self) -> (r: bool)
        ensures
            r == text::ends(self.requirement@, "=_"@),
    {
        text::ends_with(&self.requirement, "=_")
    }
}

/// Whether an effect of this kind changes something outside.
pub open spec fn is_write_kind(kind: Text) -> bool {
    kind == "db_write"@ || kind == "db_query"@ || kind == "http"@ || kind == "event_emit"@ || kind
        == "fs_write"@ || kind == "queue"@ || kind == "cache_write"@
}

/// Whether an effect of this kind changes something outside.
pub fn is_write_effect(kind: &str) -> (r: bool)
    ensures
        r == is_write_kind(kind@),
{
    text::same(kind, "db_write") || text::same(kind, "db_query") || text::same(kind, "http")
        || text::same(kind, "event_emit") || text::same(kind, "fs_write") || text::same(
        kind,
        "queue",
    ) || text::same(kind, "cache_write")
}

// ---- state machines

/// The sources of the edges to `to` from index `i` on, added to `acc`.
pub open spec fn sources_from(
    edges: Seq<StateEdgeView>,
    to: Text,
    i: int,
    acc: Seq<Text>,
) -> Seq<Text>
    decreases edges.len() - i,
{
    if 0 <= i < edges.len() {
        sources_from(
            edges,
            to,
            i + 1,
            if edges[i].to == to {
                united(acc, edges[i].from)
            } else {
                acc
            },
        )
    } else {
        acc
    }
}

/// The targets of the edges from index `i` on, added to `acc`.
pub open spec fn targets_from(edges: Seq<StateEdgeView>, i: int, acc: Seq<Text>) -> Seq<Text>
    decreases edges.len() - i,
{
    if 0 <= i < edges.len() {
        targets_from(edges, i + 1, added(acc, edges[i].to))
    } else {
        acc
    }
}

/// An edge leads from `s` to `to`.
pub open spec fn leads(e: StateEdgeView, s: Text, to: Text) -> bool {
    e.to == to && e.from.contains(s)
}

/// A state is reached from another by an edge from index `i` on.
pub open spec fn is_source(edges: Seq<StateEdgeView>, s: Text, to: Text, i: int) -> bool {
    exists|k: int| i <= k < edges.len() && leads(#[trigger] edges[k], s, to)
}

/// A state is reached by an edge from index `i` on.
pub open spec fn is_target(edges: Seq<StateEdgeView>, to: Text, i: int) -> bool {
    exists|k: int| i <= k < edges.len() && (#[trigger] edges[k]).to == to
}

/// The sources of a state are added to those that are there.
pub proof fn sources_are_added(edges: Seq<StateEdgeView>, to: Text, i: int, acc: Seq<Text>)
    requires
        rising(acc),
        0 <= i,
    ensures
        rising(sources_from(edges, to, i, acc)),
        forall|s: Text|
            #[trigger] sources_from(edges, to, i, acc).contains(s) <==> acc.contains(s)
                || is_source(edges, s, to, i),
    decreases edges.len() - i,
{
    if i < edges.len() {
        let next = if edges[i].to == to {
            united(acc, edges[i].from)
        } else {
            acc
        };
        united_members(acc, edges[i].from);
        sources_are_added(edges, to, i + 1, next);
        assert forall|s: Text|
            #[trigger] sources_from(edges, to, i, acc).contains(s) <==> acc.contains(s)
                || is_source(edges, s, to, i) by {
            assert(sources_from(edges, to, i, acc).contains(s) <==> next.contains(s) || is_source(
                edges,
                s,
                to,
                i + 1,
            ));
            if is_source(edges, s, to, i) {
                let k = choose|k: int| i <= k < edges.len() && leads(#[trigger] edges[k], s, to);
                if k > i {
                    assert(is_source(edges, s, to, i + 1));
                }
            }
            if is_source(edges, s, to, i + 1) {
                let k = choose|k: int|
                    i + 1 <= k < edges.len() && leads(#[trigger] edges[k], s, to);
                assert(leads(edges[k], s, to));
            }
            if leads(edges[i], s, to) {
                assert(is_source(edges, s, to, i));
            }
        }
    }
}

/// The sources of a state are exactly the states from which an edge leads to it, and a state that
/// no edge leads to has none.
pub proof fn sources_are_those_of_edges(edges: Seq<StateEdgeView>, to: Text)
    ensures
        forall|s: Text|
            #[trigger] sources_from(edges, to, 0, seq![]).contains(s) <==> is_source(
                edges,
                s,
                to,
                0,
            ),
        !is_target(edges, to, 0) ==> sources_from(edges, to, 0, seq![]).len() == 0,
{
    sources_are_added(edges, to, 0, seq![]);
    let all = sources_from(edges, to, 0, seq![]);
    if !is_target(edges, to, 0) && all.len() > 0 {
        assert(all.contains(all[0]));
        let k = choose|k: int| 0 <= k < edges.len() && leads(#[trigger] edges[k], all[0], to);
        assert(edges[k].to == to);
    }
}

/// The targets of the edges are added to those that are there.
pub proof fn targets_are_added(edges: Seq<StateEdgeView>, i: int, acc: Seq<Text>)
    requires
        rising(acc),
        0 <= i,
    ensures
        rising(targets_from(edges, i, acc)),
        forall|t: Text|
            #[trigger] targets_from(edges, i, acc).contains(t) <==> acc.contains(t) || is_target(
                edges,
                t,
                i,
            ),
    decreases edges.len() - i,
{
    if i < edges.len() {
        let next = added(acc, edges[i].to);
        added_keeps_order(acc, edges[i].to);
        targets_are_added(edges, i + 1, next);
        assert forall|t: Text|
            #[trigger] targets_from(edges, i, acc).contains(t) <==> acc.contains(t) || is_target(
                edges,
                t,
                i,
            ) by {
            added_members(acc, edges[i].to, t);
            assert(targets_from(edges, i, acc).contains(t) <==> next.contains(t) || is_target(
                edges,
                t,
                i + 1,
            ));
            if is_target(edges, t, i) {
                let k = choose|k: int| i <= k < edges.len() && (#[trigger] edges[k]).to == t;
                if k > i {
                    assert(is_target(edges, t, i + 1));
                }
            }
            if is_target(edges, t, i + 1) {
                let k = choose|k: int| i + 1 <= k < edges.len() && (#[trigger] edges[k]).to == t;
                assert(edges[k].to == t);
            }
            if edges[i].to == t {
                assert(is_target(edges, t, i));
            }
        }
    }
}

impl StateMachine {
    /// The states from which `to` is reached: those from which an edge leads to it, none where no
    /// edge does.
    pub fn sources_of(&self, to: &str) -> (r: SortedSet<String>)
        ensures
            r.deep_view() == sources_from(self.deep_view().edges, to@, 0, seq![]),
            forall|s: Text|
                #[trigger] r.deep_view().contains(s) <==> is_source(
                    self.deep_view().edges,
                    s,
                    to@,
                    0,
                ),
            !is_target(self.deep_view().edges, to@, 0) ==> r.deep_view().len() == 0,
    {
        proof {
            sources_are_those_of_edges(self.deep_view().edges, to@);
        }
        let mut out: SortedSet<String> = SortedSet::new();
        let mut i: usize = 0;
        while i < self.edges.len()
            invariant
                i <= self.edges@.len(),
                sources_from(self.deep_view().edges, to@, i as int, out.deep_view())
                    == sources_from(self.deep_view().edges, to@, 0, seq![]),
            decreases self.edges@.len() - i,
        {
            if text::same(&self.edges[i].to, to) {
                out.unite(&self.edges[i].from);
            }
            i += 1;
        }
        out
    }

    /// The states that are reached: those that an edge leads to.
    pub fn targets(&self) -> (r: SortedSet<String>)
        ensures
            r.deep_view() == targets_from(self.deep_view().edges, 0, seq![]),
            forall|t: Text|
                #[trigger] r.deep_view().contains(t) <==> is_target(self.deep_view().edges, t, 0),
    {
        proof {
            targets_are_added(self.deep_view().edges, 0, seq![]);
        }
        let mut out: SortedSet<String> = SortedSet::new();
        let mut i: usize = 0;
        while i < self.edges.len()
            invariant
                i <= self.edges@.len(),
                targets_from(self.deep_view().edges, i as int, out.deep_view()) == targets_from(
                    self.deep_view().edges,
                    0,
                    seq![],
                ),
            decreases self.edges@.len() - i,
        {
            out.insert(self.edges[i].to.dup());
            i += 1;
        }
        out
    }
}

// ---- reachability

/// One pass over the links from index `i` on: where the first end has been seen, the second is
/// seen too.
pub open spec fn seen_after(links: Seq<(Text, Text)>, i: int, seen: Seq<Text>) -> Seq<Text>
    decreases links.len() - i,
{
    if 0 <= i < links.len() {
        seen_after(
            links,
            i + 1,
            if seen.contains(links[i].0) {
                added(seen, links[i].1)
            } else {
                seen
            },
        )
    } else {
        seen
    }
}

/// Passes over the links until nothing new is seen, at most `rounds` of them.
pub open spec fn seen_through(links: Seq<(Text, Text)>, seen: Seq<Text>, rounds: nat) -> Seq<Text>
    decreases rounds,
{
    let next = seen_after(links, 0, seen);
    if rounds == 0 || next == seen {
        seen
    } else {
        seen_through(links, next, (rounds - 1) as nat)
    }
}

/// Everything that is reached from `start` along the links. As many passes as there are links
/// are enough: each of them but the last sees a new second end.
pub open spec fn reached(links: Seq<(Text, Text)>, start: Text) -> Seq<Text> {
    seen_through(links, added(seq![], start), links.len() + 1)
}

fn reach(links: &Vec<(String, String)>, start: &str) -> (r: SortedSet<String>)
    ensures
        r.deep_view() == reached(links.deep_view(), start@),
{
    let ghost lv = links.deep_view();
    let mut seen: SortedSet<String> = SortedSet::new();
    seen.insert(start.to_owned());
    let mut rounds: usize = links.len();
    let mut last = false;
    loop
        invariant
            lv == links.deep_view(),
            seen_through(
                lv,
                seen.deep_view(),
                if last {
                    0
                } else {
                    (rounds + 1) as nat
                },
            ) == reached(lv, start@),
        decreases rounds + (if last { 0int } else { 1int }),
    {
        let ghost before = seen.deep_view();
        let mut next = seen.dup();
        let mut i: usize = 0;
        while i < links.len()
            invariant
                i <= links@.len(),
                lv == links.deep_view(),
                seen_after(lv, i as int, next.deep_view()) == seen_after(lv, 0, before),
            decreases links@.len() - i,
        {
            if next.contains(&links[i].0) {
                next.insert(links[i].1.dup());
            }
            i += 1;
        }
        if last || next.alike(&seen) {
            return seen;
        }
        seen = next;
        if rounds == 0 {
            last = true;
        } else {
            rounds -= 1;
        }
    }
}

/// The links from what an entity calls to the entity, for the calls from index `i` on.
pub open spec fn caller_links(id: Text, calls: Seq<CallFactView>, i: int) -> Seq<(Text, Text)>
    decreases calls.len() - i,
{
    if 0 <= i < calls.len() {
        seq![(calls[i].target, id)] + caller_links(id, calls, i + 1)
    } else {
        seq![]
    }
}

/// The links from callees to callers, and from closures to the entity they stand in: an entity
/// with a closure that reaches something is affected too.
pub open spec fn reverse_links(entities: Seq<(Text, EntityView)>, i: int) -> Seq<(Text, Text)>
    decreases entities.len() - i,
{
    if 0 <= i < entities.len() {
        let e = entities[i].1;
        caller_links(e.id, e.calls, 0) + (match e.parent {
            Some(p) => seq![(e.id, p)],
            None => seq![],
        }) + reverse_links(entities, i + 1)
    } else {
        seq![]
    }
}

/// The entities that (transitively) call `id`, and `id` itself.
pub open spec fn callers_of(m: ModelView, id: Text) -> Seq<Text> {
    reached(reverse_links(m.entities, 0), id)
}

/// The keys of the routes from index `i` on whose handler is in `callers`.
pub open spec fn routes_into(routes: Seq<RouteView>, callers: Seq<Text>, i: int) -> Seq<Text>
    decreases routes.len() - i,
{
    if 0 <= i < routes.len() {
        (if callers.contains(routes[i].handler) {
            seq![route_key(routes[i])]
        } else {
            seq![]
        }) + routes_into(routes, callers, i + 1)
    } else {
        seq![]
    }
}

/// The entry points whose handlers reach `id`, in order and each once.
pub open spec fn entry_points(m: ModelView, id: Text) -> Seq<Text> {
    set_of(routes_into(m.routes, callers_of(m, id), 0))
}

// ---- effects outside checks

/// The links from an entity to what it calls, validators left out, for the calls from index
/// `i` on.
pub open spec fn callee_links(
    id: Text,
    calls: Seq<CallFactView>,
    validators: Seq<Text>,
    i: int,
) -> Seq<(Text, Text)>
    decreases calls.len() - i,
{
    if 0 <= i < calls.len() {
        (if validators.contains(calls[i].target) {
            seq![]
        } else {
            seq![(id, calls[i].target)]
        }) + callee_links(id, calls, validators, i + 1)
    } else {
        seq![]
    }
}

/// The links from an entity to the handlers of `event`, for the subscriptions from index `i`
/// on.
pub open spec fn handler_links(
    id: Text,
    event: Text,
    subs: Seq<SubscriptionView>,
    i: int,
) -> Seq<(Text, Text)>
    decreases subs.len() - i,
{
    if 0 <= i < subs.len() {
        (if subs[i].event == event {
            seq![(id, subs[i].handler)]
        } else {
            seq![]
        }) + handler_links(id, event, subs, i + 1)
    } else {
        seq![]
    }
}

/// The links from an entity to the handlers of the events it emits, for the effects from index
/// `i` on.
pub open spec fn event_links(
    id: Text,
    effects: Seq<EffectFactView>,
    subs: Seq<SubscriptionView>,
    i: int,
) -> Seq<(Text, Text)>
    decreases effects.len() - i,
{
    if 0 <= i < effects.len() {
        (if effects[i].key.kind == "event_emit"@ {
            handler_links(id, effects[i].key.target, subs, 0)
        } else {
            seq![]
        }) + event_links(id, effects, subs, i + 1)
    } else {
        seq![]
    }
}

/// The links from entities to what they reach without entering a validator.
pub open spec fn work_links(m: ModelView, i: int) -> Seq<(Text, Text)>
    decreases m.entities.len() - i,
{
    if 0 <= i < m.entities.len() {
        let e = m.entities[i].1;
        callee_links(e.id, e.calls, m.validators, 0) + event_links(
            e.id,
            e.effects,
            m.subscriptions,
            0,
        ) + work_links(m, i + 1)
    } else {
        seq![]
    }
}

/// An entity in `ids` has the effect `k` itself.
pub open spec fn has_own_effect(m: ModelView, ids: Seq<Text>, k: EffectKeyView) -> bool {
    exists|i: int, j: int|
        0 <= i < m.entities.len() && ids.contains(m.entities[i].1.id) && 0 <= j
            < m.entities[i].1.effects.len() && (
        #[trigger] m.entities[i].1.effects[j]).key == k
}

/// The effects from index `i` on that are writes (or are not) and that an entity in `ids` has.
pub open spec fn effects_among(
    m: ModelView,
    effects: Seq<(EffectKeyView, EffectInfoView)>,
    ids: Seq<Text>,
    writes: bool,
    i: int,
) -> Seq<(EffectKeyView, EffectInfoView)>
    decreases effects.len() - i,
{
    if 0 <= i < effects.len() {
        (if is_write_kind(effects[i].0.kind) == writes && has_own_effect(m, ids, effects[i].0) {
            seq![effects[i]]
        } else {
            seq![]
        }) + effects_among(m, effects, ids, writes, i + 1)
    } else {
        seq![]
    }
}

/// The effects that an entity reaches without those that it has only through the validators it
/// calls; writes first.
pub open spec fn outside_checks(m: ModelView, id: Text) -> Seq<(EffectKeyView, EffectInfoView)> {
    match lookup(m.summaries, id) {
        Some(s) => {
            let ids = reached(work_links(m, 0), id);
            effects_among(m, s.effects, ids, true, 0) + effects_among(m, s.effects, ids, false, 0)
        },
        None => seq![],
    }
}

fn add_caller_links(links: &mut Vec<(String, String)>, id: &String, calls: &Vec<CallFact>)
    ensures
        final(links).deep_view() == old(links).deep_view() + caller_links(
            id@,
            calls.deep_view(),
            0,
        ),
{
    let mut i: usize = 0;
    while i < calls.len()
        invariant
            i <= calls@.len(),
            links.deep_view() + caller_links(id@, calls.deep_view(), i as int) == old(
                links,
            ).deep_view() + caller_links(id@, calls.deep_view(), 0),
        decreases calls@.len() - i,
    {
        list::push(links, (calls[i].target.dup(), id.dup()));
        i += 1;
    }
}

fn add_callee_links(
    links: &mut Vec<(String, String)>,
    id: &String,
    calls: &Vec<CallFact>,
    validators: &SortedSet<String>,
)
    ensures
        final(links).deep_view() == old(links).deep_view() + callee_links(
            id@,
            calls.deep_view(),
            validators.deep_view(),
            0,
        ),
{
    let ghost v = validators.deep_view();
    let mut i: usize = 0;
    while i < calls.len()
        invariant
            i <= calls@.len(),
            v == validators.deep_view(),
            links.deep_view() + callee_links(id@, calls.deep_view(), v, i as int) == old(
                links,
            ).deep_view() + callee_links(id@, calls.deep_view(), v, 0),
        decreases calls@.len() - i,
    {
        if !validators.contains(&calls[i].target) {
            list::push(links, (id.dup(), calls[i].target.dup()));
        }
        i += 1;
    }
}

fn add_handler_links(
    links: &mut Vec<(String, String)>,
    id: &String,
    event: &String,
    subs: &Vec<Subscription>,
)
    ensures
        final(links).deep_view() == old(links).deep_view() + handler_links(
            id@,
            event@,
            subs.deep_view(),
            0,
        ),
{
    let mut i: usize = 0;
    while i < subs.len()
        invariant
            i <= subs@.len(),
            links.deep_view() + handler_links(id@, event@, subs.deep_view(), i as int) == old(
                links,
            ).deep_view() + handler_links(id@, event@, subs.deep_view(), 0),
        decreases subs@.len() - i,
    {
        if subs[i].event.alike(event) {
            list::push(links, (id.dup(), subs[i].handler.dup()));
        }
        i += 1;
    }
}

fn add_event_links(
    links: &mut Vec<(String, String)>,
    id: &String,
    effects: &Vec<EffectFact>,
    subs: &Vec<Subscription>,
)
    ensures
        final(links).deep_view() == old(links).deep_view() + event_links(
            id@,
            effects.deep_view(),
            subs.deep_view(),
            0,
        ),
{
    let mut i: usize = 0;
    while i < effects.len()
        invariant
            i <= effects@.len(),
            links.deep_view() + event_links(id@, effects.deep_view(), subs.deep_view(), i as int)
                == old(links).deep_view() + event_links(
                id@,
                effects.deep_view(),
                subs.deep_view(),
                0,
            ),
        decreases effects@.len() - i,
    {
        if text::same(&effects[i].key.kind, "event_emit") {
            add_handler_links(links, id, &effects[i].key.target, subs);
        }
        i += 1;
    }
}

impl Model {
    fn reverse(&self) -> (r: Vec<(String, String)>)
        ensures
            r.deep_view() == reverse_links(self.deep_view().entities, 0),
    {
        let ghost es = self.deep_view().entities;
        let mut links: Vec<(String, String)> = list::empty();
        let mut i: usize = 0;
        while i < self.entities.len()
            invariant
                i <= es.len(),
                es == self.deep_view().entities,
                links.deep_view() + reverse_links(es, i as int) == reverse_links(es, 0),
            decreases es.len() - i,
        {
            let e = self.entities.value(i);
            let ghost before = links.deep_view();
            add_caller_links(&mut links, &e.id, &e.calls);
            if let Some(p) = &e.parent {
                list::push(&mut links, (e.id.dup(), p.dup()));
            }
            assert(links.deep_view() =~= before + (caller_links(
                es[i as int].1.id,
                es[i as int].1.calls,
                0,
            ) + (match es[i as int].1.parent {
                Some(p) => seq![(es[i as int].1.id, p)],
                None => seq![],
            })));
            i += 1;
        }
        links
    }

    /// Entities that (transitively) call `id`, including `id` itself.
    pub fn callers_closure(&self, id: &str) -> (r: SortedSet<String>)
        ensures
            r.deep_view() == callers_of(self.deep_view(), id@),
    {
        reach(&self.reverse(), id)
    }

    /// HTTP entry points whose handlers reach `id`.
    pub fn entry_points_reaching(&self, id: &str) -> (r: Vec<String>)
        ensures
            r.deep_view() == entry_points(self.deep_view(), id@),
    {
        let callers = self.callers_closure(id);
        let ghost cv = callers.deep_view();
        let ghost rv = self.deep_view().routes;
        let mut out: Vec<String> = list::empty();
        let mut i: usize = 0;
        while i < self.routes.len()
            invariant
                i <= self.routes@.len(),
                cv == callers.deep_view(),
                rv == self.deep_view().routes,
                out.deep_view() + routes_into(rv, cv, i as int) == routes_into(rv, cv, 0),
            decreases self.routes@.len() - i,
        {
            if callers.contains(&self.routes[i].handler) {
                list::push(&mut out, self.routes[i].key());
            }
            i += 1;
        }
        SortedSet::of(&out).list()
    }

    fn work(&self) -> (r: Vec<(String, String)>)
        ensures
            r.deep_view() == work_links(self.deep_view(), 0),
    {
        let ghost m = self.deep_view();
        let mut links: Vec<(String, String)> = list::empty();
        let mut i: usize = 0;
        while i < self.entities.len()
            invariant
                i <= m.entities.len(),
                m == self.deep_view(),
                links.deep_view() + work_links(m, i as int) == work_links(m, 0),
            decreases m.entities.len() - i,
        {
            let e = self.entities.value(i);
            add_callee_links(&mut links, &e.id, &e.calls, &self.validators);
            add_event_links(&mut links, &e.id, &e.effects, &self.subscriptions);
            i += 1;
        }
        links
    }

    fn own_effect(&self, ids: &SortedSet<String>, k: &EffectKey) -> (r: bool)
        ensures
            r == has_own_effect(self.deep_view(), ids.deep_view(), k.deep_view()),
    {
        let ghost m = self.deep_view();
        let ghost iv = ids.deep_view();
        let ghost kv = k.deep_view();
        let mut i: usize = 0;
        while i < self.entities.len()
            invariant
                i <= m.entities.len(),
                m == self.deep_view(),
                iv == ids.deep_view(),
                kv == k.deep_view(),
                forall|a: int, b: int|
                    0 <= a < i && iv.contains(m.entities[a].1.id) && 0 <= b
                        < m.entities[a].1.effects.len() ==> (
                    #[trigger] m.entities[a].1.effects[b]).key != kv,
            decreases m.entities.len() - i,
        {
            let e = self.entities.value(i);
            if ids.contains(&e.id) {
                let mut j: usize = 0;
                while j < e.effects.len()
                    invariant
                        i < m.entities.len(),
                        j <= e.effects@.len(),
                        e.deep_view() == m.entities[i as int].1,
                        m == self.deep_view(),
                        iv == ids.deep_view(),
                        kv == k.deep_view(),
                        iv.contains(m.entities[i as int].1.id),
                        forall|b: int|
                            0 <= b < j ==> (#[trigger] m.entities[i as int].1.effects[b]).key
                                != kv,
                    decreases e.effects@.len() - j,
                {
                    if e.effects[j].key.alike(k) {
                        assert(m.entities[i as int].1.effects[j as int].key == kv);
                        return true;
                    }
                    j += 1;
                }
            }
            i += 1;
        }
        false
    }

    fn among(&self, s: &Summary, ids: &SortedSet<String>, writes: bool) -> (r: Vec<
        (EffectKey, EffectInfo),
    >)
        ensures
            r.deep_view() == effects_among(
                self.deep_view(),
                s.deep_view().effects,
                ids.deep_view(),
                writes,
                0,
            ),
    {
        let ghost m = self.deep_view();
        let ghost ev = s.deep_view().effects;
        let ghost iv = ids.deep_view();
        let mut out: Vec<(EffectKey, EffectInfo)> = list::empty();
        let mut i: usize = 0;
        while i < s.effects.len()
            invariant
                i <= ev.len(),
                m == self.deep_view(),
                ev == s.deep_view().effects,
                iv == ids.deep_view(),
                out.deep_view() + effects_among(m, ev, iv, writes, i as int) == effects_among(
                    m,
                    ev,
                    iv,
                    writes,
                    0,
                ),
            decreases ev.len() - i,
        {
            let k = s.effects.key(i);
            if is_write_effect(&k.kind) == writes && self.own_effect(ids, k) {
                list::push(&mut out, (k.dup(), s.effects.value(i).dup()));
            }
            i += 1;
        }
        out
    }

    /// The effects that an entity reaches, writes first, without those that it has only
    /// through the validators it calls.
    pub fn effects_outside_checks(&self, id: &str) -> (r: Vec<(EffectKey, EffectInfo)>)
        ensures
            r.deep_view() == outside_checks(self.deep_view(), id@),
    {
        match self.summaries.find(id) {
            Some(s) => {
                let ids = reach(&self.work(), id);
                let mut out = self.among(s, &ids, true);
                list::append(&mut out, self.among(s, &ids, false));
                out
            },
            None => list::empty(),
        }
    }
}

/// The model of the program without code.
pub open spec fn empty_model() -> ModelView {
    ModelView {
        entities: seq![],
        classes: seq![],
        summaries: seq![],
        validators: seq![],
        state_machines: seq![],
        routes: seq![],
        subscriptions: seq![],
        module_deps: seq![],
        invariants: seq![],
        violations: seq![],
        module_layers: seq![],
        field_domains: seq![],
        schemas: seq![],
    }
}

impl Default for Model {
    fn default() -> (r: Self)
        ensures
            r.deep_view() == empty_model(),
    {
        Model {
            entities: SortedMap::new(),
            classes: SortedMap::new(),
            summaries: SortedMap::new(),
            validators: SortedSet::new(),
            state_machines: SortedMap::new(),
            routes: list::empty(),
            subscriptions: list::empty(),
            module_deps: SortedMap::new(),
            invariants: list::empty(),
            violations: list::empty(),
            module_layers: SortedMap::new(),
            field_domains: SortedMap::new(),
            schemas: SortedMap::new(),
        }
    }
}

} // verus!
