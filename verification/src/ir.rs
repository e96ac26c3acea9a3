//! The structural representation of source code: small, owned and independent of
//! the source language. Front ends lower their syntax trees into these types, and
//! every later layer works on them only.

use crate::list::Plain;
use crate::ordered::{Key, Rank, SortedMap};
use crate::text;
use vstd::prelude::*;

verus! {

/// A source location. `line` is 1-based.
#[derive(Debug, Clone, PartialEq, Eq, PartialOrd, Ord, Hash)]
pub struct Loc {
    pub file: String,
    pub line: u32,
}

/// The view of [`Loc`].
#[verifier::ext_equal]
pub struct LocView {
    pub file: Seq<char>,
    pub line: u32,
}

impl DeepView for Loc {
    type V = LocView;

    open spec fn deep_view(&self) -> LocView {
        LocView { file: self.file@, line: self.line }
    }
}

impl Plain for Loc {
    fn dup(&self) -> (r: Self) {
        Loc { file: self.file.dup(), line: self.line }
    }

    fn alike(&self, other: &Self) -> (r: bool) {
        self.file.alike(&other.file) && self.line == other.line
    }
}

impl Rank for LocView {
    /// By the fields, in the order of their declaration.
    open spec fn precedes(self, other: Self) -> bool {
        self.file.precedes(other.file) || (self.file == other.file && (self.line.precedes(other.line)))
    }

    proof fn irreflexive(a: Self) {
        Rank::irreflexive(a.file); Rank::irreflexive(a.line);
    }

    proof fn transitive(a: Self, b: Self, c: Self) {
        if a.file.precedes(b.file) && b.file.precedes(c.file) {
            Rank::transitive(a.file, b.file, c.file);
        }
        if a.line.precedes(b.line) && b.line.precedes(c.line) {
            Rank::transitive(a.line, b.line, c.line);
        }
    }

    proof fn total(a: Self, b: Self) {
        Rank::total(a.file, b.file); Rank::total(a.line, b.line);
    }
}

impl Key for Loc {
    fn less(&self, other: &Self) -> (r: bool) {
        self.file.less(&other.file) || (self.file.alike(&other.file) && (self.line.less(&other.line)))
    }
}

/// A (possibly generic) type annotation, reduced to what resolution needs.
#[derive(Debug, PartialEq, Eq)]
pub enum TypeRef {
    /// `Foo`; `Promise<Foo>` is `Named("Promise", [Named("Foo")])`.
    Named(String, Vec<TypeRef>),
    Array(Box<TypeRef>),
    /// Union of string literals, e.g. `"ADMIN" | "MANAGER"`.
    StringLiterals(Vec<String>),
    Union(Vec<TypeRef>),
    /// Inline object type `{ a: T; b: U }`.
    Object(Vec<(String, TypeRef)>),
    Primitive(String),
    Unknown,
}

/// The view of [`TypeRef`].
#[verifier::ext_equal]
pub enum TypeRefView {
    Named(Seq<char>, Seq<TypeRefView>),
    Array(Box<TypeRefView>),
    StringLiterals(Seq<Seq<char>>),
    Union(Seq<TypeRefView>),
    Object(Seq<(Seq<char>, TypeRefView)>),
    Primitive(Seq<char>),
    Unknown,
}

/// The view of a type annotation.
pub open spec fn type_ref_view(v: TypeRef) -> TypeRefView
    decreases v,
{
    match v {
        TypeRef::Named(x0, x1) => TypeRefView::Named(x0@, type_ref_list_view(x1@)),
        TypeRef::Array(x0) => TypeRefView::Array(Box::new(type_ref_view(*x0))),
        TypeRef::StringLiterals(x0) => TypeRefView::StringLiterals(x0.deep_view()),
        TypeRef::Union(x0) => TypeRefView::Union(type_ref_list_view(x0@)),
        TypeRef::Object(x0) => TypeRefView::Object(type_ref_fields_view(x0@)),
        TypeRef::Primitive(x0) => TypeRefView::Primitive(x0@),
        TypeRef::Unknown => TypeRefView::Unknown,
    }
}

impl DeepView for TypeRef {
    type V = TypeRefView;

    open spec fn deep_view(&self) -> TypeRefView {
        type_ref_view(*self)
    }
}

fn dup_type_ref(v: &TypeRef) -> (r: TypeRef)
    ensures
        type_ref_view(r) == type_ref_view(*v),
    decreases v,
{
    match v {
        TypeRef::Named(x0, x1) => TypeRef::Named(x0.dup(), dup_type_ref_list(x1)),
        TypeRef::Array(x0) => TypeRef::Array(Box::new(dup_type_ref(x0))),
        TypeRef::StringLiterals(x0) => TypeRef::StringLiterals(x0.dup()),
        TypeRef::Union(x0) => TypeRef::Union(dup_type_ref_list(x0)),
        TypeRef::Object(x0) => TypeRef::Object(dup_type_ref_fields(x0)),
        TypeRef::Primitive(x0) => TypeRef::Primitive(x0.dup()),
        TypeRef::Unknown => TypeRef::Unknown,
    }
}

fn alike_type_ref(v: &TypeRef, w: &TypeRef) -> (r: bool)
    ensures
        r == (type_ref_view(*v) == type_ref_view(*w)),
    decreases v,
{
    match (v, w) {
        (TypeRef::Named(x0, x1), TypeRef::Named(y0, y1)) => x0.alike(y0) && alike_type_ref_list(x1, y1),
        (TypeRef::Array(x0), TypeRef::Array(y0)) => alike_type_ref(x0, y0),
        (TypeRef::StringLiterals(x0), TypeRef::StringLiterals(y0)) => x0.alike(y0),
        (TypeRef::Union(x0), TypeRef::Union(y0)) => alike_type_ref_list(x0, y0),
        (TypeRef::Object(x0), TypeRef::Object(y0)) => alike_type_ref_fields(x0, y0),
        (TypeRef::Primitive(x0), TypeRef::Primitive(y0)) => x0.alike(y0),
        (TypeRef::Unknown, TypeRef::Unknown) => true,
        _ => false,
    }
}

impl Plain for TypeRef {
    fn dup(&self) -> (r: Self) {
        dup_type_ref(self)
    }

    fn alike(&self, other: &Self) -> (r: bool) {
        alike_type_ref(self, other)
    }
}

/// A comparison, or any other binary operator.
#[derive(Debug, Clone, Copy, PartialEq, Eq, Structural)]
pub enum BinOp {
    Eq,
    NotEq,
    Lt,
    LtEq,
    Gt,
    GtEq,
    Other,
}

impl DeepView for BinOp {
    type V = BinOp;

    open spec fn deep_view(&self) -> BinOp {
        *self
    }
}

impl Plain for BinOp {
    fn dup(&self) -> (r: Self) {
        *self
    }

    fn alike(&self, other: &Self) -> (r: bool) {
        *self == *other
    }
}

/// A logical operator: `&&`, `||` or `??`.
#[derive(Debug, Clone, Copy, PartialEq, Eq, Structural)]
pub enum LogicOp {
    And,
    Or,
    Coalesce,
}

impl DeepView for LogicOp {
    type V = LogicOp;

    open spec fn deep_view(&self) -> LogicOp {
        *self
    }
}

impl Plain for LogicOp {
    fn dup(&self) -> (r: Self) {
        *self
    }

    fn alike(&self, other: &Self) -> (r: bool) {
        *self == *other
    }
}

/// A number literal: as it is shown, and as JSON writes it.
#[derive(Debug, PartialEq, Eq)]
pub struct Number {
    pub text: String,
    pub json: String,
}

/// The view of [`Number`].
#[verifier::ext_equal]
pub struct NumberView {
    pub text: Seq<char>,
    pub json: Seq<char>,
}

impl DeepView for Number {
    type V = NumberView;

    open spec fn deep_view(&self) -> NumberView {
        NumberView { text: self.text@, json: self.json@ }
    }
}

impl Plain for Number {
    fn dup(&self) -> (r: Self) {
        Number { text: self.text.dup(), json: self.json.dup() }
    }

    fn alike(&self, other: &Self) -> (r: bool) {
        self.text.alike(&other.text) && self.json.alike(&other.json)
    }
}

/// An expression.
#[derive(Debug, PartialEq)]
#[allow(inconsistent_fields)]
pub enum Expr {
    Str(String),
    Num(Number),
    Bool(bool),
    Null,
    Undefined,
    Ident(String),
    This,
    Member { object: Box<Expr>, property: String },
    /// `a[b]` with a non-literal key.
    Index { object: Box<Expr>, index: Box<Expr> },
    Call(Box<Call>),
    New { callee: Box<Expr>, args: Vec<Expr>, loc: Loc },
    Binary { op: BinOp, left: Box<Expr>, right: Box<Expr> },
    Logical { op: LogicOp, left: Box<Expr>, right: Box<Expr> },
    Not(Box<Expr>),
    Template { quasis: Vec<String>, exprs: Vec<Expr> },
    Object(Vec<(String, Expr)>),
    Array(Vec<Expr>),
    /// A nested function, lowered separately: the entity id of the lowered function.
    Closure(String),
    Await(Box<Expr>),
    Conditional { test: Box<Expr>, then: Box<Expr>, otherwise: Box<Expr> },
    Assign { target: Box<Expr>, value: Box<Expr>, loc: Loc },
    /// A markup element.
    Jsx(Box<Jsx>),
    /// Anything else, with its source text for evidence.
    Opaque(String),
}

/// The view of [`Expr`].
#[verifier::ext_equal]
#[allow(inconsistent_fields)]
pub enum ExprView {
    Str(Seq<char>),
    Num(NumberView),
    Bool(bool),
    Null,
    Undefined,
    Ident(Seq<char>),
    This,
    Member { object: Box<ExprView>, property: Seq<char> },
    Index { object: Box<ExprView>, index: Box<ExprView> },
    Call(Box<CallView>),
    New { callee: Box<ExprView>, args: Seq<ExprView>, loc: LocView },
    Binary { op: BinOp, left: Box<ExprView>, right: Box<ExprView> },
    Logical { op: LogicOp, left: Box<ExprView>, right: Box<ExprView> },
    Not(Box<ExprView>),
    Template { quasis: Seq<Seq<char>>, exprs: Seq<ExprView> },
    Object(Seq<(Seq<char>, ExprView)>),
    Array(Seq<ExprView>),
    Closure(Seq<char>),
    Await(Box<ExprView>),
    Conditional { test: Box<ExprView>, then: Box<ExprView>, otherwise: Box<ExprView> },
    Assign { target: Box<ExprView>, value: Box<ExprView>, loc: LocView },
    Jsx(Box<JsxView>),
    Opaque(Seq<char>),
}

/// The view of an expression.
pub open spec fn expr_view(v: Expr) -> ExprView
    decreases v,
{
    match v {
        Expr::Str(x0) => ExprView::Str(x0@),
        Expr::Num(x0) => ExprView::Num(x0.deep_view()),
        Expr::Bool(x0) => ExprView::Bool(x0),
        Expr::Null => ExprView::Null,
        Expr::Undefined => ExprView::Undefined,
        Expr::Ident(x0) => ExprView::Ident(x0@),
        Expr::This => ExprView::This,
        Expr::Member { object, property } => ExprView::Member { object: Box::new(expr_view(*object)), property: property@ },
        Expr::Index { object, index } => ExprView::Index { object: Box::new(expr_view(*object)), index: Box::new(expr_view(*index)) },
        Expr::Call(x0) => ExprView::Call(Box::new(call_view(*x0))),
        Expr::New { callee, args, loc } => ExprView::New { callee: Box::new(expr_view(*callee)), args: expr_list_view(args@), loc: loc.deep_view() },
        Expr::Binary { op, left, right } => ExprView::Binary { op: op, left: Box::new(expr_view(*left)), right: Box::new(expr_view(*right)) },
        Expr::Logical { op, left, right } => ExprView::Logical { op: op, left: Box::new(expr_view(*left)), right: Box::new(expr_view(*right)) },
        Expr::Not(x0) => ExprView::Not(Box::new(expr_view(*x0))),
        Expr::Template { quasis, exprs } => ExprView::Template { quasis: quasis.deep_view(), exprs: expr_list_view(exprs@) },
        Expr::Object(x0) => ExprView::Object(expr_fields_view(x0@)),
        Expr::Array(x0) => ExprView::Array(expr_list_view(x0@)),
        Expr::Closure(x0) => ExprView::Closure(x0@),
        Expr::Await(x0) => ExprView::Await(Box::new(expr_view(*x0))),
        Expr::Conditional { test, then, otherwise } => ExprView::Conditional { test: Box::new(expr_view(*test)), then: Box::new(expr_view(*then)), otherwise: Box::new(expr_view(*otherwise)) },
        Expr::Assign { target, value, loc } => ExprView::Assign { target: Box::new(expr_view(*target)), value: Box::new(expr_view(*value)), loc: loc.deep_view() },
        Expr::Jsx(x0) => ExprView::Jsx(Box::new(jsx_view(*x0))),
        Expr::Opaque(x0) => ExprView::Opaque(x0@),
    }
}

impl DeepView for Expr {
    type V = ExprView;

    open spec fn deep_view(&self) -> ExprView {
        expr_view(*self)
    }
}

/// A call, or a decorator.
#[derive(Debug, PartialEq)]
pub struct Call {
    pub callee: Expr,
    pub args: Vec<Expr>,
    pub loc: Loc,
}

/// The view of [`Call`].
#[verifier::ext_equal]
pub struct CallView {
    pub callee: ExprView,
    pub args: Seq<ExprView>,
    pub loc: LocView,
}

/// The view of a call.
pub open spec fn call_view(v: Call) -> CallView
    decreases v,
{
    CallView {
        callee: expr_view(v.callee),
        args: expr_list_view(v.args@),
        loc: v.loc.deep_view(),
    }
}

impl DeepView for Call {
    type V = CallView;

    open spec fn deep_view(&self) -> CallView {
        call_view(*self)
    }
}

/// A markup element; `tag` is empty for a fragment.
#[derive(Debug, PartialEq)]
pub struct Jsx {
    pub tag: String,
    pub attrs: Vec<(String, Expr)>,
    pub children: Vec<Expr>,
}

/// The view of [`Jsx`].
#[verifier::ext_equal]
pub struct JsxView {
    pub tag: Seq<char>,
    pub attrs: Seq<(Seq<char>, ExprView)>,
    pub children: Seq<ExprView>,
}

/// The view of a markup element.
pub open spec fn jsx_view(v: Jsx) -> JsxView
    decreases v,
{
    JsxView {
        tag: v.tag@,
        attrs: expr_fields_view(v.attrs@),
        children: expr_list_view(v.children@),
    }
}

impl DeepView for Jsx {
    type V = JsxView;

    open spec fn deep_view(&self) -> JsxView {
        jsx_view(*self)
    }
}

/// A statement.
#[derive(Debug, PartialEq)]
pub enum Stmt {
    Expr(Expr, Loc),
    Let { name: String, ty: Option<TypeRef>, init: Option<Expr>, loc: Loc },
    If { test: Expr, then: Vec<Stmt>, otherwise: Vec<Stmt>, loc: Loc },
    Return(Option<Expr>, Loc),
    Throw(Expr, Loc),
    /// Any loop. `binding` and `iter` are set for `for (const x of xs)`.
    Loop { binding: Option<String>, iter: Option<Expr>, body: Vec<Stmt>, loc: Loc },
    Try { body: Vec<Stmt>, handler: Vec<Stmt>, finalizer: Vec<Stmt>, loc: Loc },
    Block(Vec<Stmt>),
    /// `break` or `continue`.
    Jump(Loc),
}

/// The view of [`Stmt`].
#[verifier::ext_equal]
pub enum StmtView {
    Expr(ExprView, LocView),
    Let { name: Seq<char>, ty: Option<TypeRefView>, init: Option<ExprView>, loc: LocView },
    If { test: ExprView, then: Seq<StmtView>, otherwise: Seq<StmtView>, loc: LocView },
    Return(Option<ExprView>, LocView),
    Throw(ExprView, LocView),
    Loop { binding: Option<Seq<char>>, iter: Option<ExprView>, body: Seq<StmtView>, loc: LocView },
    Try { body: Seq<StmtView>, handler: Seq<StmtView>, finalizer: Seq<StmtView>, loc: LocView },
    Block(Seq<StmtView>),
    Jump(LocView),
}

/// The view of a statement.
pub open spec fn stmt_view(v: Stmt) -> StmtView
    decreases v,
{
    match v {
        Stmt::Expr(x0, x1) => StmtView::Expr(expr_view(x0), x1.deep_view()),
        Stmt::Let { name, ty, init, loc } => StmtView::Let { name: name@, ty: ty.deep_view(), init: match init { Some(x) => Some(expr_view(x)), None => None }, loc: loc.deep_view() },
        Stmt::If { test, then, otherwise, loc } => StmtView::If { test: expr_view(test), then: stmt_list_view(then@), otherwise: stmt_list_view(otherwise@), loc: loc.deep_view() },
        Stmt::Return(x0, x1) => StmtView::Return(match x0 { Some(x) => Some(expr_view(x)), None => None }, x1.deep_view()),
        Stmt::Throw(x0, x1) => StmtView::Throw(expr_view(x0), x1.deep_view()),
        Stmt::Loop { binding, iter, body, loc } => StmtView::Loop { binding: binding.deep_view(), iter: match iter { Some(x) => Some(expr_view(x)), None => None }, body: stmt_list_view(body@), loc: loc.deep_view() },
        Stmt::Try { body, handler, finalizer, loc } => StmtView::Try { body: stmt_list_view(body@), handler: stmt_list_view(handler@), finalizer: stmt_list_view(finalizer@), loc: loc.deep_view() },
        Stmt::Block(x0) => StmtView::Block(stmt_list_view(x0@)),
        Stmt::Jump(x0) => StmtView::Jump(x0.deep_view()),
    }
}

impl DeepView for Stmt {
    type V = StmtView;

    open spec fn deep_view(&self) -> StmtView {
        stmt_view(*self)
    }
}

/// A parameter of a function.
#[derive(Debug, PartialEq)]
pub struct Param {
    pub name: String,
    pub ty: Option<TypeRef>,
}

/// The view of [`Param`].
#[verifier::ext_equal]
pub struct ParamView {
    pub name: Seq<char>,
    pub ty: Option<TypeRefView>,
}

impl DeepView for Param {
    type V = ParamView;

    open spec fn deep_view(&self) -> ParamView {
        ParamView { name: self.name@, ty: self.ty.deep_view() }
    }
}

/// How a function was written.
#[derive(Debug, Clone, Copy, PartialEq, Eq, Structural)]
pub enum FunctionKind {
    Function,
    Method,
    Constructor,
    Closure,
}

impl DeepView for FunctionKind {
    type V = FunctionKind;

    open spec fn deep_view(&self) -> FunctionKind {
        *self
    }
}

impl Plain for FunctionKind {
    fn dup(&self) -> (r: Self) {
        *self
    }

    fn alike(&self, other: &Self) -> (r: bool) {
        *self == *other
    }
}

/// A function, method, constructor or closure, with its body.
#[derive(Debug, PartialEq)]
pub struct Function {
    /// Stable entity id: `<file>::<qualified name>`.
    pub id: String,
    pub name: String,
    pub kind: FunctionKind,
    /// Class the function belongs to (for methods), by simple name.
    pub class: Option<String>,
    /// Entity id of the enclosing function for closures.
    pub parent: Option<String>,
    pub params: Vec<Param>,
    pub return_type: Option<TypeRef>,
    pub body: Vec<Stmt>,
    pub is_async: bool,
    pub exported: bool,
    pub loc: Loc,
    pub end_line: u32,
    /// Hash of the body with locations stripped (used for move detection).
    pub body_hash: String,
    /// Decorators, as calls (`@Get(':id')`; a bare `@Injectable` has no args).
    pub decorators: Vec<Call>,
}

/// The view of [`Function`].
#[verifier::ext_equal]
pub struct FunctionView {
    pub id: Seq<char>,
    pub name: Seq<char>,
    pub kind: FunctionKind,
    pub class: Option<Seq<char>>,
    pub parent: Option<Seq<char>>,
    pub params: Seq<ParamView>,
    pub return_type: Option<TypeRefView>,
    pub body: Seq<StmtView>,
    pub is_async: bool,
    pub exported: bool,
    pub loc: LocView,
    pub end_line: u32,
    pub body_hash: Seq<char>,
    pub decorators: Seq<CallView>,
}

impl DeepView for Function {
    type V = FunctionView;

    open spec fn deep_view(&self) -> FunctionView {
        FunctionView { id: self.id@, name: self.name@, kind: self.kind, class: self.class.deep_view(), parent: self.parent.deep_view(), params: self.params.deep_view(), return_type: self.return_type.deep_view(), body: self.body.deep_view(), is_async: self.is_async, exported: self.exported, loc: self.loc.deep_view(), end_line: self.end_line, body_hash: self.body_hash@, decorators: self.decorators.deep_view() }
    }
}

/// A class.
#[derive(Debug, PartialEq)]
pub struct Class {
    pub id: String,
    pub name: String,
    /// `extends` target, by simple name.
    pub extends: Option<String>,
    /// Fields with declared types, including constructor parameter properties.
    pub fields: SortedMap<String, TypeRef>,
    /// Method entity ids.
    pub methods: Vec<String>,
    pub exported: bool,
    pub loc: Loc,
    /// Decorators, as calls (`@Get(':id')`; a bare `@Injectable` has no args).
    pub decorators: Vec<Call>,
}

/// The view of [`Class`].
#[verifier::ext_equal]
pub struct ClassView {
    pub id: Seq<char>,
    pub name: Seq<char>,
    pub extends: Option<Seq<char>>,
    pub fields: Seq<(Seq<char>, TypeRefView)>,
    pub methods: Seq<Seq<char>>,
    pub exported: bool,
    pub loc: LocView,
    pub decorators: Seq<CallView>,
}

impl DeepView for Class {
    type V = ClassView;

    open spec fn deep_view(&self) -> ClassView {
        ClassView { id: self.id@, name: self.name@, extends: self.extends.deep_view(), fields: self.fields.deep_view(), methods: self.methods.deep_view(), exported: self.exported, loc: self.loc.deep_view(), decorators: self.decorators.deep_view() }
    }
}

/// One name that a module imports.
#[derive(Debug, PartialEq)]
pub struct Import {
    pub local: String,
    /// Imported name; `default` or `*` for default and namespace imports.
    pub imported: String,
    /// Module specifier as written (`../infra/db`, `axios`).
    pub source: String,
}

/// The view of [`Import`].
#[verifier::ext_equal]
pub struct ImportView {
    pub local: Seq<char>,
    pub imported: Seq<char>,
    pub source: Seq<char>,
}

impl DeepView for Import {
    type V = ImportView;

    open spec fn deep_view(&self) -> ImportView {
        ImportView { local: self.local@, imported: self.imported@, source: self.source@ }
    }
}

/// An enum.
#[derive(Debug, PartialEq)]
pub struct Enum {
    pub name: String,
    /// Member name to value (string value, or the member name if none).
    pub members: SortedMap<String, String>,
}

/// The view of [`Enum`].
#[verifier::ext_equal]
pub struct EnumView {
    pub name: Seq<char>,
    pub members: Seq<(Seq<char>, Seq<char>)>,
}

impl DeepView for Enum {
    type V = EnumView;

    open spec fn deep_view(&self) -> EnumView {
        EnumView { name: self.name@, members: self.members.deep_view() }
    }
}

/// A binding at the top level of a module.
#[derive(Debug, PartialEq)]
pub struct Const {
    pub name: String,
    pub ty: Option<TypeRef>,
    pub init: Option<Expr>,
    pub exported: bool,
    pub loc: Loc,
}

/// The view of [`Const`].
#[verifier::ext_equal]
pub struct ConstView {
    pub name: Seq<char>,
    pub ty: Option<TypeRefView>,
    pub init: Option<ExprView>,
    pub exported: bool,
    pub loc: LocView,
}

impl DeepView for Const {
    type V = ConstView;

    open spec fn deep_view(&self) -> ConstView {
        ConstView { name: self.name@, ty: self.ty.deep_view(), init: self.init.deep_view(), exported: self.exported, loc: self.loc.deep_view() }
    }
}

/// An interface, or an alias of an object type.
#[derive(Debug, PartialEq)]
pub struct Interface {
    pub name: String,
    pub fields: SortedMap<String, TypeRef>,
}

/// The view of [`Interface`].
#[verifier::ext_equal]
pub struct InterfaceView {
    pub name: Seq<char>,
    pub fields: Seq<(Seq<char>, TypeRefView)>,
}

impl DeepView for Interface {
    type V = InterfaceView;

    open spec fn deep_view(&self) -> InterfaceView {
        InterfaceView { name: self.name@, fields: self.fields.deep_view() }
    }
}

/// What one source file declares.
#[derive(Debug, PartialEq)]
pub struct Module {
    /// Repository-relative path, `/`-separated.
    pub path: String,
    pub imports: Vec<Import>,
    pub classes: Vec<Class>,
    pub functions: Vec<Function>,
    pub enums: Vec<Enum>,
    pub consts: Vec<Const>,
    pub interfaces: Vec<Interface>,
    /// Aliases like `type Role = "A" | "B"`.
    pub type_aliases: SortedMap<String, TypeRef>,
    pub parse_errors: Vec<String>,
}

/// The view of [`Module`].
#[verifier::ext_equal]
pub struct ModuleView {
    pub path: Seq<char>,
    pub imports: Seq<ImportView>,
    pub classes: Seq<ClassView>,
    pub functions: Seq<FunctionView>,
    pub enums: Seq<EnumView>,
    pub consts: Seq<ConstView>,
    pub interfaces: Seq<InterfaceView>,
    pub type_aliases: Seq<(Seq<char>, TypeRefView)>,
    pub parse_errors: Seq<Seq<char>>,
}

impl DeepView for Module {
    type V = ModuleView;

    open spec fn deep_view(&self) -> ModuleView {
        ModuleView { path: self.path@, imports: self.imports.deep_view(), classes: self.classes.deep_view(), functions: self.functions.deep_view(), enums: self.enums.deep_view(), consts: self.consts.deep_view(), interfaces: self.interfaces.deep_view(), type_aliases: self.type_aliases.deep_view(), parse_errors: self.parse_errors.deep_view() }
    }
}

/// `pattern` (with at most one `*`) maps to repository-relative `targets`, for
/// modules under `scope` (a directory; `""` is the repository root).
#[derive(Debug, PartialEq, Eq)]
pub struct PathAlias {
    pub scope: String,
    pub pattern: String,
    pub targets: Vec<String>,
}

/// The view of [`PathAlias`].
#[verifier::ext_equal]
pub struct PathAliasView {
    pub scope: Seq<char>,
    pub pattern: Seq<char>,
    pub targets: Seq<Seq<char>>,
}

impl DeepView for PathAlias {
    type V = PathAliasView;

    open spec fn deep_view(&self) -> PathAliasView {
        PathAliasView { scope: self.scope@, pattern: self.pattern@, targets: self.targets.deep_view() }
    }
}

/// The structural representation of a whole program (one version of a repository).
#[derive(Debug, PartialEq)]
pub struct Program {
    pub modules: SortedMap<String, Module>,
    /// Non-relative import aliases (e.g. tsconfig `paths` and `baseUrl`).
    pub aliases: Vec<PathAlias>,
}

/// The view of [`Program`].
#[verifier::ext_equal]
pub struct ProgramView {
    pub modules: Seq<(Seq<char>, ModuleView)>,
    pub aliases: Seq<PathAliasView>,
}

impl DeepView for Program {
    type V = ProgramView;

    open spec fn deep_view(&self) -> ProgramView {
        ProgramView { modules: self.modules.deep_view(), aliases: self.aliases.deep_view() }
    }
}

/// The view of the properties of an object literal.
pub open spec fn expr_fields_view(s: Seq<(String, Expr)>) -> Seq<(Seq<char>, ExprView)>
    decreases s,
{
    Seq::new(
        s.len(),
        |i: int|
            if 0 <= i < s.len() {
                (s[i].0@, expr_view(s[i].1))
            } else {
                arbitrary()
            },
    )
}

/// The view of a list is the list of the views.
pub broadcast proof fn expr_fields_view_is_deep(v: Vec<(String, Expr)>)
    ensures
        #[trigger] v.deep_view() == expr_fields_view(v@),
{
    assert(v.deep_view() =~= expr_fields_view(v@));
}

/// The view of a list of expressions.
pub open spec fn expr_list_view(s: Seq<Expr>) -> Seq<ExprView>
    decreases s,
{
    Seq::new(
        s.len(),
        |i: int|
            if 0 <= i < s.len() {
                expr_view(s[i])
            } else {
                arbitrary()
            },
    )
}

/// The view of a list is the list of the views.
pub broadcast proof fn expr_list_view_is_deep(v: Vec<Expr>)
    ensures
        #[trigger] v.deep_view() == expr_list_view(v@),
{
    assert(v.deep_view() =~= expr_list_view(v@));
}

/// The view of a list of statements.
pub open spec fn stmt_list_view(s: Seq<Stmt>) -> Seq<StmtView>
    decreases s,
{
    Seq::new(
        s.len(),
        |i: int|
            if 0 <= i < s.len() {
                stmt_view(s[i])
            } else {
                arbitrary()
            },
    )
}

/// The view of a list is the list of the views.
pub broadcast proof fn stmt_list_view_is_deep(v: Vec<Stmt>)
    ensures
        #[trigger] v.deep_view() == stmt_list_view(v@),
{
    assert(v.deep_view() =~= stmt_list_view(v@));
}

/// The view of the fields of an object type.
pub open spec fn type_ref_fields_view(s: Seq<(String, TypeRef)>) -> Seq<(Seq<char>, TypeRefView)>
    decreases s,
{
    Seq::new(
        s.len(),
        |i: int|
            if 0 <= i < s.len() {
                (s[i].0@, type_ref_view(s[i].1))
            } else {
                arbitrary()
            },
    )
}

/// The view of a list is the list of the views.
pub broadcast proof fn type_ref_fields_view_is_deep(v: Vec<(String, TypeRef)>)
    ensures
        #[trigger] v.deep_view() == type_ref_fields_view(v@),
{
    assert(v.deep_view() =~= type_ref_fields_view(v@));
}

fn dup_type_ref_fields(v: &Vec<(String, TypeRef)>) -> (r: Vec<(String, TypeRef)>)
    ensures
        type_ref_fields_view(r@) == type_ref_fields_view(v@),
    decreases v,
{
    let mut out: Vec<(String, TypeRef)> = Vec::new();
    let mut i: usize = 0;
    while i < v.len()
        invariant
            i <= v@.len(),
            type_ref_fields_view(out@) == type_ref_fields_view(v@).take(i as int),
        decreases v@.len() - i,
    {
        let ghost prev = out@;
        out.push((v[i].0.dup(), dup_type_ref(&v[i].1)));
        assert(type_ref_fields_view(out@) =~= type_ref_fields_view(prev).push(type_ref_fields_view(v@)[i as int]));
        i += 1;
    }
    assert(type_ref_fields_view(v@).take(v@.len() as int) =~= type_ref_fields_view(v@));
    out
}

fn alike_type_ref_fields(v: &Vec<(String, TypeRef)>, w: &Vec<(String, TypeRef)>) -> (r: bool)
    ensures
        r == (type_ref_fields_view(v@) == type_ref_fields_view(w@)),
    decreases v,
{
    if v.len() != w.len() {
        assert(type_ref_fields_view(v@).len() != type_ref_fields_view(w@).len());
        return false;
    }
    let mut i: usize = 0;
    while i < v.len()
        invariant
            i <= v@.len(),
            v@.len() == w@.len(),
            forall|j: int| 0 <= j < i ==> type_ref_fields_view(v@)[j] == #[trigger] type_ref_fields_view(w@)[j],
        decreases v@.len() - i,
    {
        if !(v[i].0.alike(&w[i].0) && alike_type_ref(&v[i].1, &w[i].1)) {
            assert(type_ref_fields_view(v@)[i as int] != type_ref_fields_view(w@)[i as int]);
            return false;
        }
        i += 1;
    }
    assert(type_ref_fields_view(v@) =~= type_ref_fields_view(w@));
    true
}

/// The view of a list of type annotations.
pub open spec fn type_ref_list_view(s: Seq<TypeRef>) -> Seq<TypeRefView>
    decreases s,
{
    Seq::new(
        s.len(),
        |i: int|
            if 0 <= i < s.len() {
                type_ref_view(s[i])
            } else {
                arbitrary()
            },
    )
}

/// The view of a list is the list of the views.
pub broadcast proof fn type_ref_list_view_is_deep(v: Vec<TypeRef>)
    ensures
        #[trigger] v.deep_view() == type_ref_list_view(v@),
{
    assert(v.deep_view() =~= type_ref_list_view(v@));
}

fn dup_type_ref_list(v: &Vec<TypeRef>) -> (r: Vec<TypeRef>)
    ensures
        type_ref_list_view(r@) == type_ref_list_view(v@),
    decreases v,
{
    let mut out: Vec<TypeRef> = Vec::new();
    let mut i: usize = 0;
    while i < v.len()
        invariant
            i <= v@.len(),
            type_ref_list_view(out@) == type_ref_list_view(v@).take(i as int),
        decreases v@.len() - i,
    {
        let ghost prev = out@;
        out.push(dup_type_ref(&v[i]));
        assert(type_ref_list_view(out@) =~= type_ref_list_view(prev).push(type_ref_list_view(v@)[i as int]));
        i += 1;
    }
    assert(type_ref_list_view(v@).take(v@.len() as int) =~= type_ref_list_view(v@));
    out
}

fn alike_type_ref_list(v: &Vec<TypeRef>, w: &Vec<TypeRef>) -> (r: bool)
    ensures
        r == (type_ref_list_view(v@) == type_ref_list_view(w@)),
    decreases v,
{
    if v.len() != w.len() {
        assert(type_ref_list_view(v@).len() != type_ref_list_view(w@).len());
        return false;
    }
    let mut i: usize = 0;
    while i < v.len()
        invariant
            i <= v@.len(),
            v@.len() == w@.len(),
            forall|j: int| 0 <= j < i ==> type_ref_list_view(v@)[j] == #[trigger] type_ref_list_view(w@)[j],
        decreases v@.len() - i,
    {
        if !(alike_type_ref(&v[i], &w[i])) {
            assert(type_ref_list_view(v@)[i as int] != type_ref_list_view(w@)[i as int]);
            return false;
        }
        i += 1;
    }
    assert(type_ref_list_view(v@) =~= type_ref_list_view(w@));
    true
}

// ---- copies

fn dup_expr(v: &Expr) -> (r: Expr)
    ensures
        expr_view(r) == expr_view(*v),
    decreases v,
{
    match v {
        Expr::Str(x0) => Expr::Str(x0.dup()),
        Expr::Num(x0) => Expr::Num(x0.dup()),
        Expr::Bool(x0) => Expr::Bool(*x0),
        Expr::Null => Expr::Null,
        Expr::Undefined => Expr::Undefined,
        Expr::Ident(x0) => Expr::Ident(x0.dup()),
        Expr::This => Expr::This,
        Expr::Member { object, property } => Expr::Member { object: Box::new(dup_expr(object)), property: property.dup() },
        Expr::Index { object, index } => Expr::Index { object: Box::new(dup_expr(object)), index: Box::new(dup_expr(index)) },
        Expr::Call(x0) => Expr::Call(Box::new(dup_call(x0))),
        Expr::New { callee, args, loc } => Expr::New { callee: Box::new(dup_expr(callee)), args: dup_expr_list(args), loc: loc.dup() },
        Expr::Binary { op, left, right } => Expr::Binary { op: *op, left: Box::new(dup_expr(left)), right: Box::new(dup_expr(right)) },
        Expr::Logical { op, left, right } => Expr::Logical { op: *op, left: Box::new(dup_expr(left)), right: Box::new(dup_expr(right)) },
        Expr::Not(x0) => Expr::Not(Box::new(dup_expr(x0))),
        Expr::Template { quasis, exprs } => Expr::Template { quasis: quasis.dup(), exprs: dup_expr_list(exprs) },
        Expr::Object(x0) => Expr::Object(dup_expr_fields(x0)),
        Expr::Array(x0) => Expr::Array(dup_expr_list(x0)),
        Expr::Closure(x0) => Expr::Closure(x0.dup()),
        Expr::Await(x0) => Expr::Await(Box::new(dup_expr(x0))),
        Expr::Conditional { test, then, otherwise } => Expr::Conditional { test: Box::new(dup_expr(test)), then: Box::new(dup_expr(then)), otherwise: Box::new(dup_expr(otherwise)) },
        Expr::Assign { target, value, loc } => Expr::Assign { target: Box::new(dup_expr(target)), value: Box::new(dup_expr(value)), loc: loc.dup() },
        Expr::Jsx(x0) => Expr::Jsx(Box::new(dup_jsx(x0))),
        Expr::Opaque(x0) => Expr::Opaque(x0.dup()),
    }
}

fn dup_call(v: &Call) -> (r: Call)
    ensures
        call_view(r) == call_view(*v),
    decreases v,
{
    Call { callee: dup_expr(&v.callee), args: dup_expr_list(&v.args), loc: v.loc.dup() }
}

fn dup_jsx(v: &Jsx) -> (r: Jsx)
    ensures
        jsx_view(r) == jsx_view(*v),
    decreases v,
{
    Jsx { tag: v.tag.dup(), attrs: dup_expr_fields(&v.attrs), children: dup_expr_list(&v.children) }
}

fn dup_expr_list(v: &Vec<Expr>) -> (r: Vec<Expr>)
    ensures
        expr_list_view(r@) == expr_list_view(v@),
    decreases v,
{
    let mut out: Vec<Expr> = Vec::new();
    let mut i: usize = 0;
    while i < v.len()
        invariant
            i <= v@.len(),
            expr_list_view(out@) == expr_list_view(v@).take(i as int),
        decreases v@.len() - i,
    {
        let ghost prev = out@;
        out.push(dup_expr(&v[i]));
        assert(expr_list_view(out@) =~= expr_list_view(prev).push(expr_list_view(v@)[i as int]));
        i += 1;
    }
    assert(expr_list_view(v@).take(v@.len() as int) =~= expr_list_view(v@));
    out
}

fn dup_expr_fields(v: &Vec<(String, Expr)>) -> (r: Vec<(String, Expr)>)
    ensures
        expr_fields_view(r@) == expr_fields_view(v@),
    decreases v,
{
    let mut out: Vec<(String, Expr)> = Vec::new();
    let mut i: usize = 0;
    while i < v.len()
        invariant
            i <= v@.len(),
            expr_fields_view(out@) == expr_fields_view(v@).take(i as int),
        decreases v@.len() - i,
    {
        let ghost prev = out@;
        out.push((v[i].0.dup(), dup_expr(&v[i].1)));
        assert(expr_fields_view(out@) =~= expr_fields_view(prev).push(expr_fields_view(v@)[i as int]));
        i += 1;
    }
    assert(expr_fields_view(v@).take(v@.len() as int) =~= expr_fields_view(v@));
    out
}

impl Expr {
    /// The same expression once more.
    pub fn dup(&self) -> (r: Expr)
        ensures
            r.deep_view() == self.deep_view(),
    {
        dup_expr(self)
    }
}

impl Loc {
    /// `file:line`.
    pub fn render(&self) -> (r: String)
        ensures
            r@ == loc_text(self.deep_view()),
    {
        text::cat3(&self.file, ":", &text::number(self.line as u64))
    }
}

/// `file:line`.
pub open spec fn loc_text(l: LocView) -> Seq<char> {
    l.file + ":"@ + text::decimal(l.line as nat)
}

impl BinOp {
    /// Every operator but [`BinOp::Other`] compares its operands.
    pub fn is_comparison(self) -> (r: bool)
        ensures
            r == (self != BinOp::Other),
    {
        match self {
            BinOp::Other => false,
            _ => true,
        }
    }
}

/// Whether a part of a union stands for a value: not `null` or `undefined`.
pub open spec fn is_present(t: TypeRefView) -> bool {
    match t {
        TypeRefView::Primitive(p) => p != "null"@ && p != "undefined"@,
        _ => true,
    }
}

/// The index `k` is that of the only part that stands for a value.
pub open spec fn is_sole(parts: Seq<TypeRefView>, k: int) -> bool {
    &&& 0 <= k < parts.len()
    &&& is_present(parts[k])
    &&& forall|j: int| 0 <= j < parts.len() && j != k ==> !is_present(#[trigger] parts[j])
}

/// A type without `Promise<..>` and without the nullable parts of a union around it.
pub open spec fn unwrapped(t: TypeRefView) -> TypeRefView
    decreases t,
{
    match t {
        TypeRefView::Named(n, args) => if n == "Promise"@ && args.len() == 1 {
            unwrapped(args[0])
        } else {
            t
        },
        TypeRefView::Union(parts) => if exists|k: int| is_sole(parts, k) {
            let k = choose|k: int| is_sole(parts, k);
            if 0 <= k < parts.len() {
                unwrapped(parts[k])
            } else {
                t
            }
        } else {
            t
        },
        _ => t,
    }
}

/// The element type of an array type.
pub open spec fn element_type(t: TypeRefView) -> Option<TypeRefView> {
    match unwrapped(t) {
        TypeRefView::Array(el) => Some(*el),
        TypeRefView::Named(n, args) => if (n == "Array"@ || n == "ReadonlyArray"@) && args.len()
            == 1 {
            Some(args[0])
        } else {
            None
        },
        _ => None,
    }
}

/// The name of a named type.
pub open spec fn named_as(t: TypeRefView) -> Option<Seq<char>> {
    match unwrapped(t) {
        TypeRefView::Named(n, _) => Some(n),
        _ => None,
    }
}

fn is_nullish(t: &TypeRef) -> (r: bool)
    ensures
        r == !is_present(t.deep_view()),
{
    match t {
        TypeRef::Primitive(p) => text::same(p, "null") || text::same(p, "undefined"),
        _ => false,
    }
}

fn sole_part(parts: &Vec<TypeRef>) -> (r: Option<usize>)
    ensures
        match r {
            Some(k) => is_sole(type_ref_list_view(parts@), k as int),
            None => forall|k: int| !is_sole(type_ref_list_view(parts@), k),
        },
{
    let ghost v = type_ref_list_view(parts@);
    let mut found: Option<usize> = None;
    let mut i: usize = 0;
    while i < parts.len()
        invariant
            i <= parts@.len(),
            v == type_ref_list_view(parts@),
            match found {
                Some(k) => k < i && is_present(v[k as int]) && forall|j: int|
                    0 <= j < i && j != k ==> !is_present(#[trigger] v[j]),
                None => forall|j: int| 0 <= j < i ==> !is_present(#[trigger] v[j]),
            },
        decreases parts@.len() - i,
    {
        if !is_nullish(&parts[i]) {
            if let Some(k) = found {
                assert forall|m: int| !is_sole(v, m) by {
                    if is_sole(v, m) {
                        assert(is_present(v[k as int]) && is_present(v[i as int]));
                    }
                }
                return None;
            }
            found = Some(i);
        }
        i += 1;
    }
    found
}

impl TypeRef {
    /// Strips `Promise<T>` and nullable unions down to the interesting type.
    pub fn unwrap_async(&self) -> (r: &TypeRef)
        ensures
            r.deep_view() == unwrapped(self.deep_view()),
        decreases self,
    {
        match self {
            TypeRef::Named(n, args) => {
                let ghost parts = type_ref_list_view(args@);
                if text::same(n, "Promise") && args.len() == 1 {
                    args[0].unwrap_async()
                } else {
                    self
                }
            },
            TypeRef::Union(parts) => match sole_part(parts) {
                Some(k) => {
                    proof {
                        let v = type_ref_list_view(parts@);
                        let c = choose|c: int| is_sole(v, c);
                        assert(is_sole(v, c));
                        assert(is_present(v[c]));
                        assert(c == k);
                    }
                    parts[k].unwrap_async()
                },
                None => self,
            },
            _ => self,
        }
    }

    /// The element type of an array type.
    pub fn element(&self) -> (r: Option<&TypeRef>)
        ensures
            r.deep_view() == element_type(self.deep_view()),
    {
        match self.unwrap_async() {
            TypeRef::Array(t) => Some(t),
            TypeRef::Named(n, args) => {
                let ghost parts = type_ref_list_view(args@);
                let array = text::same(n, "Array") || text::same(n, "ReadonlyArray");
                if array && args.len() == 1 {
                    Some(&args[0])
                } else {
                    None
                }
            },
            _ => None,
        }
    }

    /// The name of a named type.
    pub fn name(&self) -> (r: Option<&str>)
        ensures
            r.deep_view() == named_as(self.deep_view()),
    {
        match self.unwrap_async() {
            TypeRef::Named(n, _) => Some(n.as_str()),
            _ => None,
        }
    }
}

/// The first attribute named `className` or `class`, where it is a string.
pub open spec fn class_attr(attrs: Seq<(Seq<char>, ExprView)>, i: int) -> Option<Seq<char>>
    decreases attrs.len() - i,
{
    if 0 <= i < attrs.len() {
        match attrs[i].1 {
            ExprView::Str(s) => if attrs[i].0 == "className"@ || attrs[i].0 == "class"@ {
                Some(s)
            } else {
                class_attr(attrs, i + 1)
            },
            _ => class_attr(attrs, i + 1),
        }
    } else {
        None
    }
}

impl Jsx {
    /// The constant class list of the element.
    pub fn class(&self) -> (r: Option<&str>)
        ensures
            r.deep_view() == class_attr(jsx_view(*self).attrs, 0),
    {
        let mut i: usize = 0;
        while i < self.attrs.len()
            invariant
                i <= self.attrs@.len(),
                class_attr(jsx_view(*self).attrs, 0) == class_attr(
                    jsx_view(*self).attrs,
                    i as int,
                ),
            decreases self.attrs@.len() - i,
        {
            if let Expr::Str(s) = &self.attrs[i].1 {
                if text::same(&self.attrs[i].0, "className") || text::same(
                    &self.attrs[i].0,
                    "class",
                ) {
                    return Some(s.as_str());
                }
            }
            i += 1;
        }
        None
    }
}

/// The functions of the modules from index `i` on, in order.
pub open spec fn functions_from(modules: Seq<(Seq<char>, ModuleView)>, i: int) -> Seq<FunctionView>
    decreases modules.len() - i,
{
    if 0 <= i < modules.len() {
        modules[i].1.functions + functions_from(modules, i + 1)
    } else {
        seq![]
    }
}

impl Program {
    /// All functions, module by module.
    pub fn functions(&self) -> (r: Vec<&Function>)
        ensures
            r.deep_view() == functions_from(self.deep_view().modules, 0),
    {
        let mut out: Vec<&Function> = Vec::new();
        assert(out.deep_view() =~= Seq::<FunctionView>::empty());
        let mut i: usize = 0;
        while i < self.modules.len()
            invariant
                i <= self.deep_view().modules.len(),
                out.deep_view() + functions_from(self.deep_view().modules, i as int)
                    == functions_from(self.deep_view().modules, 0),
            decreases self.deep_view().modules.len() - i,
        {
            let fs = &self.modules.value(i).functions;
            let ghost before = out.deep_view();
            let mut j: usize = 0;
            while j < fs.len()
                invariant
                    j <= fs@.len(),
                    out.deep_view() == before + fs.deep_view().take(j as int),
                decreases fs@.len() - j,
            {
                crate::list::push(&mut out, &fs[j]);
                j += 1;
            }
            assert(fs.deep_view().take(fs@.len() as int) =~= fs.deep_view());
            i += 1;
        }
        out
    }
}

/// FNV-1a over the first `n` bytes.
pub open spec fn fnv(bytes: Seq<u8>, n: int) -> u64
    decreases n,
{
    if n <= 0 {
        0xcbf29ce484222325u64
    } else {
        (fnv(bytes, n - 1) ^ (bytes[n - 1] as u64)).wrapping_mul(0x100000001b3u64)
    }
}

/// The hash of a text, as sixteen hexadecimal digits.
pub open spec fn hash_text(s: Seq<char>) -> Seq<char> {
    let bytes = vstd::utf8::encode_utf8(s);
    text::hexadecimal(fnv(bytes, bytes.len() as int) as nat, 16)
}

/// A hash that depends on the text only (FNV-1a, 64 bits).
pub fn stable_hash(text: &str) -> (r: String)
    ensures
        r@ == hash_text(text@),
{
    let bytes = text.as_bytes();
    let mut h: u64 = 0xcbf29ce484222325;
    let mut i: usize = 0;
    while i < bytes.len()
        invariant
            i <= bytes@.len(),
            h == fnv(bytes@, i as int),
        decreases bytes@.len() - i,
    {
        h = (h ^ (bytes[i] as u64)).wrapping_mul(0x100000001b3);
        i += 1;
    }
    text::hex(h, 16)
}

} // verus!
