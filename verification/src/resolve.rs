//! Program index: module and symbol resolution and lightweight types over the structural
//! representation.

use crate::ir::{
    element_type, is_sole, type_ref_fields_view, unwrapped, Class, ClassView, Const, ConstView,
    Enum, EnumView, Function, FunctionView, Import, ImportView, Interface, InterfaceView, Module,
    ModuleView, Program, ProgramView, TypeRef, TypeRefView,
};
use crate::list;
use crate::list::Plain;
use crate::ordered::{lookup, put, set_of, SortedMap, SortedSet};
use crate::pred::{DomainTable, Domains};
use crate::text;
use crate::text::Text;
use vstd::prelude::*;

verus! {

/// A resolved type, as far as behaviour extraction needs it.
#[derive(Debug, PartialEq)]
pub enum Ty {
    /// Instance of a class in the program (class entity id).
    Class(String),
    /// A named record type (interface, type alias, class used as data), by simple name.
    Record { name: String, module: String },
    /// A value from an external module, by canonical name.
    External(String),
    Array(Box<Ty>),
    Object(Vec<(String, Ty)>),
    /// Reference to an enum object (e.g. `OrderStatus`).
    EnumObject { module: String, name: String },
    /// A function value (entity id).
    Function(String),
    Unknown,
}

/// The view of [`Ty`].
#[verifier::ext_equal]
pub enum TyView {
    Class(Seq<char>),
    Record { name: Seq<char>, module: Seq<char> },
    External(Seq<char>),
    Array(Box<TyView>),
    Object(Seq<(Seq<char>, TyView)>),
    EnumObject { module: Seq<char>, name: Seq<char> },
    Function(Seq<char>),
    Unknown,
}

/// The view of a type.
pub open spec fn ty_view(v: Ty) -> TyView
    decreases v,
{
    match v {
        Ty::Class(x0) => TyView::Class(x0@),
        Ty::Record { name, module } => TyView::Record { name: name@, module: module@ },
        Ty::External(x0) => TyView::External(x0@),
        Ty::Array(x0) => TyView::Array(Box::new(ty_view(*x0))),
        Ty::Object(x0) => TyView::Object(ty_fields_view(x0@)),
        Ty::EnumObject { module, name } => TyView::EnumObject { module: module@, name: name@ },
        Ty::Function(x0) => TyView::Function(x0@),
        Ty::Unknown => TyView::Unknown,
    }
}

impl DeepView for Ty {
    type V = TyView;

    open spec fn deep_view(&self) -> TyView {
        ty_view(*self)
    }
}

fn dup_ty(v: &Ty) -> (r: Ty)
    ensures
        ty_view(r) == ty_view(*v),
    decreases v,
{
    match v {
        Ty::Class(x0) => Ty::Class(x0.dup()),
        Ty::Record { name, module } => Ty::Record { name: name.dup(), module: module.dup() },
        Ty::External(x0) => Ty::External(x0.dup()),
        Ty::Array(x0) => Ty::Array(Box::new(dup_ty(x0))),
        Ty::Object(x0) => Ty::Object(dup_ty_fields(x0)),
        Ty::EnumObject { module, name } => Ty::EnumObject { module: module.dup(), name: name.dup() },
        Ty::Function(x0) => Ty::Function(x0.dup()),
        Ty::Unknown => Ty::Unknown,
    }
}

fn alike_ty(v: &Ty, w: &Ty) -> (r: bool)
    ensures
        r == (ty_view(*v) == ty_view(*w)),
    decreases v,
{
    match (v, w) {
        (Ty::Class(x0), Ty::Class(y0)) => x0.alike(y0),
        (Ty::Record { name: x0, module: x1 }, Ty::Record { name: y0, module: y1 }) => x0.alike(y0) && x1.alike(y1),
        (Ty::External(x0), Ty::External(y0)) => x0.alike(y0),
        (Ty::Array(x0), Ty::Array(y0)) => alike_ty(x0, y0),
        (Ty::Object(x0), Ty::Object(y0)) => alike_ty_fields(x0, y0),
        (Ty::EnumObject { module: x0, name: x1 }, Ty::EnumObject { module: y0, name: y1 }) => x0.alike(y0) && x1.alike(y1),
        (Ty::Function(x0), Ty::Function(y0)) => x0.alike(y0),
        (Ty::Unknown, Ty::Unknown) => true,
        _ => false,
    }
}

impl Plain for Ty {
    fn dup(&self) -> (r: Self) {
        dup_ty(self)
    }

    fn alike(&self, other: &Self) -> (r: bool) {
        alike_ty(self, other)
    }
}

/// What a call resolves to.
#[derive(Debug, PartialEq)]
pub enum Callee {
    Internal(String),
    External(String),
    Unresolved(String),
}

/// The view of [`Callee`].
#[verifier::ext_equal]
pub enum CalleeView {
    Internal(Seq<char>),
    External(Seq<char>),
    Unresolved(Seq<char>),
}

/// The view of the target of a call.
pub open spec fn callee_view(v: Callee) -> CalleeView
{
    match v {
        Callee::Internal(x0) => CalleeView::Internal(x0@),
        Callee::External(x0) => CalleeView::External(x0@),
        Callee::Unresolved(x0) => CalleeView::Unresolved(x0@),
    }
}

impl DeepView for Callee {
    type V = CalleeView;

    open spec fn deep_view(&self) -> CalleeView {
        callee_view(*self)
    }
}

fn dup_callee(v: &Callee) -> (r: Callee)
    ensures
        callee_view(r) == callee_view(*v),
{
    match v {
        Callee::Internal(x0) => Callee::Internal(x0.dup()),
        Callee::External(x0) => Callee::External(x0.dup()),
        Callee::Unresolved(x0) => Callee::Unresolved(x0.dup()),
    }
}

fn alike_callee(v: &Callee, w: &Callee) -> (r: bool)
    ensures
        r == (callee_view(*v) == callee_view(*w)),
{
    match (v, w) {
        (Callee::Internal(x0), Callee::Internal(y0)) => x0.alike(y0),
        (Callee::External(x0), Callee::External(y0)) => x0.alike(y0),
        (Callee::Unresolved(x0), Callee::Unresolved(y0)) => x0.alike(y0),
        _ => false,
    }
}

impl Plain for Callee {
    fn dup(&self) -> (r: Self) {
        dup_callee(self)
    }

    fn alike(&self, other: &Self) -> (r: bool) {
        alike_callee(self, other)
    }
}

/// What a name stands for in a module.
#[derive(Debug, PartialEq)]
pub enum Symbol {
    Class(String),
    Function(String),
    Const { module: String, name: String },
    Enum { module: String, name: String },
    Record { module: String, name: String },
    External(String),
}

/// The view of [`Symbol`].
#[verifier::ext_equal]
pub enum SymbolView {
    Class(Seq<char>),
    Function(Seq<char>),
    Const { module: Seq<char>, name: Seq<char> },
    Enum { module: Seq<char>, name: Seq<char> },
    Record { module: Seq<char>, name: Seq<char> },
    External(Seq<char>),
}

/// The view of what a name stands for.
pub open spec fn symbol_view(v: Symbol) -> SymbolView
{
    match v {
        Symbol::Class(x0) => SymbolView::Class(x0@),
        Symbol::Function(x0) => SymbolView::Function(x0@),
        Symbol::Const { module, name } => SymbolView::Const { module: module@, name: name@ },
        Symbol::Enum { module, name } => SymbolView::Enum { module: module@, name: name@ },
        Symbol::Record { module, name } => SymbolView::Record { module: module@, name: name@ },
        Symbol::External(x0) => SymbolView::External(x0@),
    }
}

impl DeepView for Symbol {
    type V = SymbolView;

    open spec fn deep_view(&self) -> SymbolView {
        symbol_view(*self)
    }
}

/// Per-function typing environment (locals, parameters, captured variables).
#[derive(Debug, PartialEq)]
pub struct Env {
    pub module: String,
    pub this_class: Option<String>,
    pub vars: SortedMap<String, Ty>,
}

/// The view of [`Env`].
#[verifier::ext_equal]
pub struct EnvView {
    pub module: Seq<char>,
    pub this_class: Option<Seq<char>>,
    pub vars: Seq<(Seq<char>, TyView)>,
}

impl DeepView for Env {
    type V = EnvView;

    open spec fn deep_view(&self) -> EnvView {
        EnvView { module: self.module@, this_class: self.this_class.deep_view(), vars: self.vars.deep_view() }
    }
}

impl Plain for Env {
    fn dup(&self) -> (r: Self) {
        Env { module: self.module.dup(), this_class: self.this_class.dup(), vars: self.vars.dup() }
    }

    fn alike(&self, other: &Self) -> (r: bool) {
        self.module.alike(&other.module) && self.this_class.alike(&other.this_class) && self.vars.alike(&other.vars)
    }
}

/// The view of the fields of an object type.
pub open spec fn ty_fields_view(s: Seq<(String, Ty)>) -> Seq<(Seq<char>, TyView)>
    decreases s,
{
    Seq::new(
        s.len(),
        |i: int|
            if 0 <= i < s.len() {
                (s[i].0@, ty_view(s[i].1))
            } else {
                arbitrary()
            },
    )
}

/// The view of a list is the list of the views.
pub broadcast proof fn ty_fields_view_is_deep(v: Vec<(String, Ty)>)
    ensures
        #[trigger] v.deep_view() == ty_fields_view(v@),
{
    assert(v.deep_view() =~= ty_fields_view(v@));
}

fn dup_ty_fields(v: &Vec<(String, Ty)>) -> (r: Vec<(String, Ty)>)
    ensures
        ty_fields_view(r@) == ty_fields_view(v@),
    decreases v,
{
    let mut out: Vec<(String, Ty)> = Vec::new();
    let mut i: usize = 0;
    while i < v.len()
        invariant
            i <= v@.len(),
            ty_fields_view(out@) == ty_fields_view(v@).take(i as int),
        decreases v@.len() - i,
    {
        let ghost prev = out@;
        out.push((v[i].0.dup(), dup_ty(&v[i].1)));
        assert(ty_fields_view(out@) =~= ty_fields_view(prev).push(ty_fields_view(v@)[i as int]));
        i += 1;
    }
    assert(ty_fields_view(v@).take(v@.len() as int) =~= ty_fields_view(v@));
    out
}

fn alike_ty_fields(v: &Vec<(String, Ty)>, w: &Vec<(String, Ty)>) -> (r: bool)
    ensures
        r == (ty_fields_view(v@) == ty_fields_view(w@)),
    decreases v,
{
    if v.len() != w.len() {
        assert(ty_fields_view(v@).len() != ty_fields_view(w@).len());
        return false;
    }
    let mut i: usize = 0;
    while i < v.len()
        invariant
            i <= v@.len(),
            v@.len() == w@.len(),
            forall|j: int| 0 <= j < i ==> ty_fields_view(v@)[j] == #[trigger] ty_fields_view(w@)[j],
        decreases v@.len() - i,
    {
        if !(v[i].0.alike(&w[i].0) && alike_ty(&v[i].1, &w[i].1)) {
            assert(ty_fields_view(v@)[i as int] != ty_fields_view(w@)[i as int]);
            return false;
        }
        i += 1;
    }
    assert(ty_fields_view(v@) =~= ty_fields_view(w@));
    true
}

// ---- the index

/// The functions from index `i` on, stored under their ids.
pub open spec fn functions_by_id(
    fs: Seq<FunctionView>,
    i: int,
    acc: Seq<(Text, FunctionView)>,
) -> Seq<(Text, FunctionView)>
    decreases fs.len() - i,
{
    if 0 <= i < fs.len() {
        functions_by_id(fs, i + 1, put(acc, fs[i].id, fs[i]))
    } else {
        acc
    }
}

/// The classes from index `i` on, stored under their ids.
pub open spec fn classes_by_id(
    cs: Seq<ClassView>,
    i: int,
    acc: Seq<(Text, ClassView)>,
) -> Seq<(Text, ClassView)>
    decreases cs.len() - i,
{
    if 0 <= i < cs.len() {
        classes_by_id(cs, i + 1, put(acc, cs[i].id, cs[i]))
    } else {
        acc
    }
}

/// The functions of the modules from index `i` on, stored under their ids.
pub open spec fn all_functions(
    modules: Seq<(Text, ModuleView)>,
    i: int,
    acc: Seq<(Text, FunctionView)>,
) -> Seq<(Text, FunctionView)>
    decreases modules.len() - i,
{
    if 0 <= i < modules.len() {
        all_functions(modules, i + 1, functions_by_id(modules[i].1.functions, 0, acc))
    } else {
        acc
    }
}

/// The classes of the modules from index `i` on, stored under their ids.
pub open spec fn all_classes(
    modules: Seq<(Text, ModuleView)>,
    i: int,
    acc: Seq<(Text, ClassView)>,
) -> Seq<(Text, ClassView)>
    decreases modules.len() - i,
{
    if 0 <= i < modules.len() {
        all_classes(modules, i + 1, classes_by_id(modules[i].1.classes, 0, acc))
    } else {
        acc
    }
}

/// The sum of two sizes, as far as a `usize` can hold it.
pub open spec fn sum(a: usize, b: nat) -> usize {
    if a + b <= usize::MAX {
        (a + b) as usize
    } else {
        usize::MAX
    }
}

/// The number of constants of the modules from index `i` on, added to `n`.
pub open spec fn const_count(modules: Seq<(Text, ModuleView)>, i: int, n: usize) -> usize
    decreases modules.len() - i,
{
    if 0 <= i < modules.len() {
        const_count(modules, i + 1, sum(n, modules[i].1.consts.len()))
    } else {
        n
    }
}

/// The view of [`Index`].
#[verifier::ext_equal]
pub struct IndexView {
    pub program: ProgramView,
    pub functions: Seq<(Text, FunctionView)>,
    pub classes: Seq<(Text, ClassView)>,
    pub consts: usize,
}

/// The index of a program.
pub open spec fn index_of(p: ProgramView) -> IndexView {
    IndexView {
        program: p,
        functions: all_functions(p.modules, 0, seq![]),
        classes: all_classes(p.modules, 0, seq![]),
        consts: const_count(p.modules, 0, 0),
    }
}

/// A program with its functions and classes by id.
pub struct Index<'p> {
    pub program: &'p Program,
    pub functions: SortedMap<String, &'p Function>,
    pub classes: SortedMap<String, &'p Class>,
    /// The number of module constants: no chain of references between constants is longer.
    pub consts: usize,
}

impl<'p> DeepView for Index<'p> {
    type V = IndexView;

    open spec fn deep_view(&self) -> IndexView {
        IndexView {
            program: self.program.deep_view(),
            functions: self.functions.deep_view(),
            classes: self.classes.deep_view(),
            consts: self.consts,
        }
    }
}

impl<'p> Index<'p> {
    /// The index of a program.
    pub fn new(program: &'p Program) -> (r: Self)
        ensures
            r.deep_view() == index_of(program.deep_view()),
    {
        let ghost ms = program.deep_view().modules;
        let mut functions: SortedMap<String, &'p Function> = SortedMap::new();
        let mut classes: SortedMap<String, &'p Class> = SortedMap::new();
        let mut consts: usize = 0;
        let mut i: usize = 0;
        while i < program.modules.len()
            invariant
                i <= ms.len(),
                ms == program.deep_view().modules,
                all_functions(ms, i as int, functions.deep_view()) == all_functions(ms, 0, seq![]),
                all_classes(ms, i as int, classes.deep_view()) == all_classes(ms, 0, seq![]),
                const_count(ms, i as int, consts) == const_count(ms, 0, 0),
            decreases ms.len() - i,
        {
            let m = program.modules.value(i);
            let ghost fv = m.deep_view().functions;
            let ghost cv = m.deep_view().classes;
            let ghost f0 = functions.deep_view();
            let ghost c0 = classes.deep_view();
            let mut j: usize = 0;
            while j < m.functions.len()
                invariant
                    j <= m.functions@.len(),
                    fv == m.functions.deep_view(),
                    functions_by_id(fv, j as int, functions.deep_view()) == functions_by_id(
                        fv,
                        0,
                        f0,
                    ),
                decreases m.functions@.len() - j,
            {
                let f = &m.functions[j];
                functions.insert(f.id.dup(), f);
                j += 1;
            }
            j = 0;
            while j < m.classes.len()
                invariant
                    j <= m.classes@.len(),
                    cv == m.classes.deep_view(),
                    classes_by_id(cv, j as int, classes.deep_view()) == classes_by_id(cv, 0, c0),
                decreases m.classes@.len() - j,
            {
                let c = &m.classes[j];
                classes.insert(c.id.dup(), c);
                j += 1;
            }
            let n: usize = m.consts.len();
            consts = if n <= usize::MAX - consts {
                consts + n
            } else {
                usize::MAX
            };
            i += 1;
        }
        Index { program, functions, classes, consts }
    }

    /// The function with an id.
    pub fn function(&self, id: &str) -> (r: Option<&'p Function>)
        ensures
            r.deep_view() == lookup(self.deep_view().functions, id@),
    {
        match self.functions.find(id) {
            Some(f) => Some(*f),
            None => None,
        }
    }

    /// The class with an id.
    pub fn class(&self, id: &str) -> (r: Option<&'p Class>)
        ensures
            r.deep_view() == lookup(self.deep_view().classes, id@),
    {
        match self.classes.find(id) {
            Some(c) => Some(*c),
            None => None,
        }
    }

    fn module(&self, path: &str) -> (r: Option<&'p Module>)
        ensures
            r.deep_view() == lookup(self.deep_view().program.modules, path@),
    {
        self.program.modules.find(path)
    }
}

// ---- modules

/// The path segments after following `segs` from index `i` on.
pub open spec fn followed(parts: Seq<Text>, segs: Seq<Text>, i: int) -> Seq<Text>
    decreases segs.len() - i,
{
    if 0 <= i < segs.len() {
        let s = segs[i];
        followed(
            if s == "."@ || s == ""@ {
                parts
            } else if s == ".."@ {
                if parts.len() == 0 {
                    parts
                } else {
                    parts.drop_last()
                }
            } else {
                parts.push(s)
            },
            segs,
            i + 1,
        )
    } else {
        parts
    }
}

/// Follows path segments.
pub fn follow(parts: Vec<String>, segs: &Vec<String>) -> (r: Vec<String>)
    ensures
        r.deep_view() == followed(parts.deep_view(), segs.deep_view(), 0),
{
    let mut out = parts;
    let mut i: usize = 0;
    while i < segs.len()
        invariant
            i <= segs@.len(),
            followed(out.deep_view(), segs.deep_view(), i as int) == followed(
                parts.deep_view(),
                segs.deep_view(),
                0,
            ),
        decreases segs@.len() - i,
    {
        if text::same(&segs[i], ".") || text::same(&segs[i], "") {
        } else if text::same(&segs[i], "..") {
            let ghost before = out.deep_view();
            if out.len() > 0 {
                let _ = out.pop();
                assert(out.deep_view() =~= before.drop_last());
            }
        } else {
            list::push(&mut out, segs[i].dup());
        }
        i += 1;
    }
    out
}

/// The directory of a path.
pub open spec fn directory(path: Text) -> Text {
    match text::parted_last(path, "/"@) {
        Some((d, _)) => d,
        None => ""@,
    }
}

/// The path that a relative specifier names, seen from a module.
pub open spec fn relative_path(from: Text, spec: Text) -> Text {
    let dir = directory(from);
    let start = if dir.len() == 0 {
        Seq::<Text>::empty()
    } else {
        text::pieces(dir, "/"@)
    };
    text::joined(followed(start, text::pieces(spec, "/"@), 0), "/"@)
}

/// The files that a path without extension can stand for.
pub open spec fn candidates(base: Text) -> Seq<Text> {
    let stem = text::trimmed_end(text::trimmed_end(base, ".js"@), ".jsx"@);
    seq![
        base,
        stem + ".ts"@,
        stem + ".tsx"@,
        stem + ".js"@,
        stem + ".jsx"@,
        base + "/index.ts"@,
        base + "/index.js"@,
    ]
}

/// The first candidate from index `i` on that is a module of the program.
pub open spec fn first_module(
    modules: Seq<(Text, ModuleView)>,
    cands: Seq<Text>,
    i: int,
) -> Option<Text>
    decreases cands.len() - i,
{
    if 0 <= i < cands.len() {
        if lookup(modules, cands[i]) is Some {
            Some(cands[i])
        } else {
            first_module(modules, cands, i + 1)
        }
    } else {
        None
    }
}

/// A module is in the scope of an alias.
pub open spec fn in_scope(scope: Text, from: Text) -> bool {
    scope.len() == 0 || text::begins(from, scope + "/"@)
}

/// What the `*` of a pattern stands for in a specifier; empty for a pattern without `*` that
/// is the specifier.
pub open spec fn captured(pattern: Text, spec: Text) -> Option<Text> {
    match text::parted(pattern, "*"@) {
        Some((head, tail)) => if spec.len() >= head.len() + tail.len() && text::begins(spec, head)
            && text::ends(spec, tail) {
            Some(spec.subrange(head.len() as int, spec.len() - tail.len()))
        } else {
            None
        },
        None => if pattern == spec {
            Some(seq![])
        } else {
            None
        },
    }
}

/// The module that the targets from index `i` on stand for, with `star` for their `*`.
pub open spec fn target_module(
    modules: Seq<(Text, ModuleView)>,
    targets: Seq<Text>,
    star: Text,
    i: int,
) -> Option<Text>
    decreases targets.len() - i,
{
    if 0 <= i < targets.len() {
        match first_module(modules, candidates(text::replaced(targets[i], "*"@, star)), 0) {
            Some(m) => Some(m),
            None => target_module(modules, targets, star, i + 1),
        }
    } else {
        None
    }
}

/// The module that the aliases from index `i` on give a specifier.
pub open spec fn aliased_module(p: ProgramView, from: Text, spec: Text, i: int) -> Option<Text>
    decreases p.aliases.len() - i,
{
    if 0 <= i < p.aliases.len() {
        let a = p.aliases[i];
        let found = if in_scope(a.scope, from) {
            match captured(a.pattern, spec) {
                Some(star) => target_module(p.modules, a.targets, star, 0),
                None => None,
            }
        } else {
            None
        };
        if found is Some {
            found
        } else {
            aliased_module(p, from, spec, i + 1)
        }
    } else {
        None
    }
}

/// The module that an import specifier names, seen from a module.
pub open spec fn module_named(p: ProgramView, from: Text, spec: Text) -> Option<Text> {
    if text::begins(spec, "."@) {
        first_module(p.modules, candidates(relative_path(from, spec)), 0)
    } else {
        aliased_module(p, from, spec, 0)
    }
}

impl<'p> Index<'p> {
    fn first_of(&self, base: &str) -> (r: Option<String>)
        ensures
            r.deep_view() == first_module(
                self.deep_view().program.modules,
                candidates(base@),
                0,
            ),
    {
        let stem = text::trim_end(&text::trim_end(base, ".js"), ".jsx");
        let mut cands: Vec<String> = list::empty();
        list::push(&mut cands, base.to_owned());
        list::push(&mut cands, text::cat2(&stem, ".ts"));
        list::push(&mut cands, text::cat2(&stem, ".tsx"));
        list::push(&mut cands, text::cat2(&stem, ".js"));
        list::push(&mut cands, text::cat2(&stem, ".jsx"));
        list::push(&mut cands, text::cat2(base, "/index.ts"));
        list::push(&mut cands, text::cat2(base, "/index.js"));
        let ghost cv = cands.deep_view();
        assert(cv =~= candidates(base@));
        let ghost ms = self.deep_view().program.modules;
        let mut i: usize = 0;
        while i < cands.len()
            invariant
                i <= cands@.len(),
                cv == cands.deep_view(),
                cv == candidates(base@),
                ms == self.deep_view().program.modules,
                first_module(ms, cv, 0) == first_module(ms, cv, i as int),
            decreases cands@.len() - i,
        {
            if self.program.modules.contains_key(&cands[i]) {
                return Some(cands[i].dup());
            }
            i += 1;
        }
        None
    }

    fn first_target(&self, targets: &Vec<String>, star: &str) -> (r: Option<String>)
        ensures
            r.deep_view() == target_module(
                self.deep_view().program.modules,
                targets.deep_view(),
                star@,
                0,
            ),
    {
        let ghost ms = self.deep_view().program.modules;
        let ghost tv = targets.deep_view();
        let mut i: usize = 0;
        while i < targets.len()
            invariant
                i <= targets@.len(),
                tv == targets.deep_view(),
                ms == self.deep_view().program.modules,
                target_module(ms, tv, star@, 0) == target_module(ms, tv, star@, i as int),
            decreases targets@.len() - i,
        {
            let found = self.first_of(&text::replace(&targets[i], "*", star));
            if found.is_some() {
                return found;
            }
            i += 1;
        }
        None
    }

    /// Resolves an import specifier to a module path in the program: a relative one, or one
    /// that an alias maps.
    pub fn resolve_module(&self, from: &str, spec: &str) -> (r: Option<String>)
        ensures
            r.deep_view() == module_named(self.deep_view().program, from@, spec@),
    {
        if text::starts_with(spec, ".") {
            let dir = match text::rsplit_once(from, "/") {
                Some((d, _)) => d,
                None => "".to_owned(),
            };
            let start: Vec<String> = if dir.as_str().is_empty() {
                list::empty()
            } else {
                text::split(&dir, "/")
            };
            let base = text::join(&follow(start, &text::split(spec, "/")), "/");
            return self.first_of(&base);
        }
        let ghost p = self.deep_view().program;
        let mut i: usize = 0;
        while i < self.program.aliases.len()
            invariant
                i <= self.program.aliases@.len(),
                p == self.deep_view().program,
                !text::begins(spec@, "."@),
                aliased_module(p, from@, spec@, 0) == aliased_module(p, from@, spec@, i as int),
            decreases self.program.aliases@.len() - i,
        {
            let a = &self.program.aliases[i];
            assert(a.deep_view() == p.aliases[i as int]);
            if a.scope.as_str().is_empty() || text::starts_with(from, &text::cat2(&a.scope, "/")) {
                if let Some(star) = capture(&a.pattern, spec) {
                    let found = self.first_target(&a.targets, &star);
                    if found.is_some() {
                        return found;
                    }
                }
            }
            i += 1;
        }
        None
    }
}

fn capture(pattern: &str, spec: &str) -> (r: Option<String>)
    ensures
        r.deep_view() == captured(pattern@, spec@),
{
    match text::split_once(pattern, "*") {
        Some((head, tail)) => {
            let v = text::chars_of(spec);
            let h: usize = text::chars_of(&head).len();
            let t: usize = text::chars_of(&tail).len();
            if h <= v.len() && t <= v.len() - h && text::starts_with(spec, &head)
                && text::ends_with(spec, &tail) {
                Some(text::text_of(&v, h, v.len() - t))
            } else {
                None
            }
        },
        None => if text::same(pattern, spec) {
            Some(String::new())
        } else {
            None
        },
    }
}

// ---- symbols

/// The first class named `name` from index `i` on.
pub open spec fn class_named(cs: Seq<ClassView>, name: Text, i: int) -> Option<ClassView>
    decreases cs.len() - i,
{
    if 0 <= i < cs.len() {
        if cs[i].name == name {
            Some(cs[i])
        } else {
            class_named(cs, name, i + 1)
        }
    } else {
        None
    }
}

/// The first function of the module itself (no method, no closure) named `name` from index
/// `i` on.
pub open spec fn function_named(fs: Seq<FunctionView>, name: Text, i: int) -> Option<FunctionView>
    decreases fs.len() - i,
{
    if 0 <= i < fs.len() {
        if fs[i].parent is None && fs[i].class is None && text::after_last(fs[i].id, "::"@)
            == name {
            Some(fs[i])
        } else {
            function_named(fs, name, i + 1)
        }
    } else {
        None
    }
}

/// The first enum named `name` from index `i` on.
pub open spec fn enum_named(es: Seq<EnumView>, name: Text, i: int) -> Option<EnumView>
    decreases es.len() - i,
{
    if 0 <= i < es.len() {
        if es[i].name == name {
            Some(es[i])
        } else {
            enum_named(es, name, i + 1)
        }
    } else {
        None
    }
}

/// The first constant named `name` from index `i` on.
pub open spec fn const_named(cs: Seq<ConstView>, name: Text, i: int) -> Option<ConstView>
    decreases cs.len() - i,
{
    if 0 <= i < cs.len() {
        if cs[i].name == name {
            Some(cs[i])
        } else {
            const_named(cs, name, i + 1)
        }
    } else {
        None
    }
}

/// The first interface named `name` from index `i` on.
pub open spec fn interface_named(is: Seq<InterfaceView>, name: Text, i: int) -> Option<InterfaceView>
    decreases is.len() - i,
{
    if 0 <= i < is.len() {
        if is[i].name == name {
            Some(is[i])
        } else {
            interface_named(is, name, i + 1)
        }
    } else {
        None
    }
}

/// The first import bound to `name` from index `i` on.
pub open spec fn import_named(is: Seq<ImportView>, name: Text, i: int) -> Option<ImportView>
    decreases is.len() - i,
{
    if 0 <= i < is.len() {
        if is[i].local == name {
            Some(is[i])
        } else {
            import_named(is, name, i + 1)
        }
    } else {
        None
    }
}

/// What a name stands for in a module, looked for through at most eight imports.
pub open spec fn symbol_at(p: ProgramView, module: Text, name: Text, depth: int) -> Option<
    SymbolView,
>
    decreases 9 - depth,
{
    if depth > 8 {
        None
    } else {
        match lookup(p.modules, module) {
            None => None,
            Some(m) => if let Some(c) = class_named(m.classes, name, 0) {
                Some(SymbolView::Class(c.id))
            } else if let Some(f) = function_named(m.functions, name, 0) {
                Some(SymbolView::Function(f.id))
            } else if enum_named(m.enums, name, 0) is Some {
                Some(SymbolView::Enum { module, name })
            } else if const_named(m.consts, name, 0) is Some {
                Some(SymbolView::Const { module, name })
            } else if interface_named(m.interfaces, name, 0) is Some || lookup(
                m.type_aliases,
                name,
            ) is Some {
                Some(SymbolView::Record { module, name })
            } else {
                match import_named(m.imports, name, 0) {
                    None => None,
                    Some(imp) => match module_named(p, module, imp.source) {
                        Some(target) => if imp.imported == "*"@ || imp.imported == "default"@ {
                            None
                        } else {
                            symbol_at(p, target, imp.imported, depth + 1)
                        },
                        None => Some(
                            SymbolView::External(
                                if imp.imported == "default"@ || imp.imported == "*"@ {
                                    imp.source
                                } else {
                                    imp.source + "."@ + imp.imported
                                },
                            ),
                        ),
                    },
                }
            },
        }
    }
}

/// What a name stands for in a module.
pub open spec fn symbol(p: ProgramView, module: Text, name: Text) -> Option<SymbolView> {
    symbol_at(p, module, name, 0)
}

fn find_class<'a>(cs: &'a Vec<Class>, name: &str) -> (r: Option<&'a Class>)
    ensures
        r.deep_view() == class_named(cs.deep_view(), name@, 0),
{
    let mut i: usize = 0;
    while i < cs.len()
        invariant
            i <= cs@.len(),
            class_named(cs.deep_view(), name@, 0) == class_named(cs.deep_view(), name@, i as int),
        decreases cs@.len() - i,
    {
        if text::same(&cs[i].name, name) {
            return Some(&cs[i]);
        }
        i += 1;
    }
    None
}

fn find_function<'a>(fs: &'a Vec<Function>, name: &str) -> (r: Option<&'a Function>)
    ensures
        r.deep_view() == function_named(fs.deep_view(), name@, 0),
{
    let mut i: usize = 0;
    while i < fs.len()
        invariant
            i <= fs@.len(),
            function_named(fs.deep_view(), name@, 0) == function_named(
                fs.deep_view(),
                name@,
                i as int,
            ),
        decreases fs@.len() - i,
    {
        if fs[i].parent.is_none() && fs[i].class.is_none() && text::same(
            &text::last_piece(&fs[i].id, "::"),
            name,
        ) {
            return Some(&fs[i]);
        }
        i += 1;
    }
    None
}

/// The first enum with a name.
pub fn find_enum<'a>(es: &'a Vec<Enum>, name: &str) -> (r: Option<&'a Enum>)
    ensures
        r.deep_view() == enum_named(es.deep_view(), name@, 0),
{
    let mut i: usize = 0;
    while i < es.len()
        invariant
            i <= es@.len(),
            enum_named(es.deep_view(), name@, 0) == enum_named(es.deep_view(), name@, i as int),
        decreases es@.len() - i,
    {
        if text::same(&es[i].name, name) {
            return Some(&es[i]);
        }
        i += 1;
    }
    None
}

/// The first constant with a name.
pub fn find_const<'a>(cs: &'a Vec<Const>, name: &str) -> (r: Option<&'a Const>)
    ensures
        r.deep_view() == const_named(cs.deep_view(), name@, 0),
{
    let mut i: usize = 0;
    while i < cs.len()
        invariant
            i <= cs@.len(),
            const_named(cs.deep_view(), name@, 0) == const_named(cs.deep_view(), name@, i as int),
        decreases cs@.len() - i,
    {
        if text::same(&cs[i].name, name) {
            return Some(&cs[i]);
        }
        i += 1;
    }
    None
}

fn find_interface<'a>(is: &'a Vec<Interface>, name: &str) -> (r: Option<&'a Interface>)
    ensures
        r.deep_view() == interface_named(is.deep_view(), name@, 0),
{
    let mut i: usize = 0;
    while i < is.len()
        invariant
            i <= is@.len(),
            interface_named(is.deep_view(), name@, 0) == interface_named(
                is.deep_view(),
                name@,
                i as int,
            ),
        decreases is@.len() - i,
    {
        if text::same(&is[i].name, name) {
            return Some(&is[i]);
        }
        i += 1;
    }
    None
}

fn find_import<'a>(is: &'a Vec<Import>, name: &str) -> (r: Option<&'a Import>)
    ensures
        r.deep_view() == import_named(is.deep_view(), name@, 0),
{
    let mut i: usize = 0;
    while i < is.len()
        invariant
            i <= is@.len(),
            import_named(is.deep_view(), name@, 0) == import_named(
                is.deep_view(),
                name@,
                i as int,
            ),
        decreases is@.len() - i,
    {
        if text::same(&is[i].local, name) {
            return Some(&is[i]);
        }
        i += 1;
    }
    None
}

impl<'p> Index<'p> {
    fn resolve_symbol_depth(&self, module: &str, name: &str, depth: u32) -> (r: Option<Symbol>)
        requires
            depth <= 9,
        ensures
            r.deep_view() == symbol_at(self.deep_view().program, module@, name@, depth as int),
        decreases 9 - depth,
    {
        if depth > 8 {
            return None;
        }
        let m = match self.module(module) {
            Some(m) => m,
            None => {
                return None;
            },
        };
        if let Some(c) = find_class(&m.classes, name) {
            return Some(Symbol::Class(c.id.dup()));
        }
        if let Some(f) = find_function(&m.functions, name) {
            return Some(Symbol::Function(f.id.dup()));
        }
        if find_enum(&m.enums, name).is_some() {
            return Some(Symbol::Enum { module: module.to_owned(), name: name.to_owned() });
        }
        if find_const(&m.consts, name).is_some() {
            return Some(Symbol::Const { module: module.to_owned(), name: name.to_owned() });
        }
        if find_interface(&m.interfaces, name).is_some() || m.type_aliases.has(name) {
            return Some(Symbol::Record { module: module.to_owned(), name: name.to_owned() });
        }
        let imp = match find_import(&m.imports, name) {
            Some(imp) => imp,
            None => {
                return None;
            },
        };
        let all = text::same(&imp.imported, "*") || text::same(&imp.imported, "default");
        match self.resolve_module(module, &imp.source) {
            Some(target) => if all {
                None
            } else {
                self.resolve_symbol_depth(&target, &imp.imported, depth + 1)
            },
            None => Some(
                Symbol::External(
                    if all {
                        imp.source.dup()
                    } else {
                        text::cat3(&imp.source, ".", &imp.imported)
                    },
                ),
            ),
        }
    }

    /// What a name stands for in a module.
    pub fn resolve_symbol(&self, module: &str, name: &str) -> (r: Option<Symbol>)
        ensures
            r.deep_view() == symbol(self.deep_view().program, module@, name@),
    {
        self.resolve_symbol_depth(module, name, 0)
    }
}

// ---- types

/// What stands inside a type is smaller than the type.
pub proof fn unwrapped_is_no_larger(t: TypeRefView)
    ensures
        unwrapped(t) == t || decreases_to!(t => unwrapped(t)),
    decreases t,
{
    match t {
        TypeRefView::Named(n, args) => {
            if n == "Promise"@ && args.len() == 1 {
                unwrapped_is_no_larger(args[0]);
                assert(decreases_to!(t => args[0]));
            }
        },
        TypeRefView::Union(parts) => {
            if exists|k: int| is_sole(parts, k) {
                let k = choose|k: int| is_sole(parts, k);
                unwrapped_is_no_larger(parts[k]);
                assert(decreases_to!(t => parts[k]));
            }
        },
        _ => {},
    }
}

/// The element of an array type is smaller than the type.
pub proof fn element_is_smaller(t: TypeRefView)
    ensures
        element_type(t) matches Some(el) ==> decreases_to!(t => el),
{
    unwrapped_is_no_larger(t);
    match unwrapped(t) {
        TypeRefView::Array(el) => {
            assert(decreases_to!(unwrapped(t) => *el));
        },
        TypeRefView::Named(n, args) => {
            if args.len() == 1 {
                assert(decreases_to!(unwrapped(t) => args[0]));
            }
        },
        _ => {},
    }
}

/// The name that an alias gives an external type, looked for through at most eight aliases.
pub open spec fn external_alias(p: ProgramView, module: Text, name: Text, depth: int) -> Option<
    Text,
>
    decreases 9 - depth,
{
    if depth > 8 {
        None
    } else {
        match lookup(p.modules, module) {
            None => None,
            Some(m) => match lookup(m.type_aliases, name) {
                Some(TypeRefView::Named(n, _)) => match symbol(p, module, n) {
                    Some(SymbolView::External(canon)) => Some(canon + "#"@),
                    Some(SymbolView::Record { module, name }) => external_alias(
                        p,
                        module,
                        name,
                        depth + 1,
                    ),
                    _ => None,
                },
                _ => None,
            },
        }
    }
}

/// A type annotation written in a module.
pub open spec fn type_in(p: ProgramView, module: Text, t: TypeRefView) -> TyView
    decreases t, 1int,
{
    proof {
        unwrapped_is_no_larger(t);
        element_is_smaller(unwrapped(t));
    }
    match element_type(unwrapped(t)) {
        Some(el) => TyView::Array(Box::new(type_in(p, module, el))),
        None => match unwrapped(t) {
            TypeRefView::Named(name, _) => match symbol(p, module, name) {
                Some(SymbolView::Class(id)) => TyView::Class(id),
                Some(SymbolView::Record { module, name }) => match external_alias(
                    p,
                    module,
                    name,
                    0,
                ) {
                    Some(canon) => TyView::External(canon),
                    None => TyView::Record { name, module },
                },
                Some(SymbolView::External(canon)) => TyView::External(canon + "#"@),
                _ => TyView::Unknown,
            },
            TypeRefView::Object(fields) => TyView::Object(field_types_in(p, module, fields, 0)),
            _ => TyView::Unknown,
        },
    }
}

/// The types of the fields from index `i` on.
pub open spec fn field_types_in(
    p: ProgramView,
    module: Text,
    fields: Seq<(Text, TypeRefView)>,
    i: int,
) -> Seq<(Text, TyView)>
    decreases fields, fields.len() - i,
{
    if 0 <= i < fields.len() {
        seq![(fields[i].0, type_in(p, module, fields[i].1))] + field_types_in(
            p,
            module,
            fields,
            i + 1,
        )
    } else {
        seq![]
    }
}

/// The module that an entity id names.
pub open spec fn module_part(id: Text) -> Text {
    match text::parted(id, "::"@) {
        Some((m, _)) => m,
        None => id,
    }
}

/// The module that an entity id names.
pub fn module_of(id: &str) -> (r: String)
    ensures
        r@ == module_part(id@),
{
    match text::split_once(id, "::") {
        Some((m, _)) => m,
        None => id.to_owned(),
    }
}

/// The class and type of a field, on a class or on one of its superclasses in the program,
/// at most sixteen steps up.
pub open spec fn inherited_field(ix: IndexView, id: Text, field: Text, steps: nat) -> Option<
    (Text, TypeRefView),
>
    decreases steps,
{
    if steps == 0 {
        None
    } else {
        match lookup(ix.classes, id) {
            None => None,
            Some(c) => match lookup(c.fields, field) {
                Some(t) => Some((id, t)),
                None => match c.extends {
                    None => None,
                    Some(base) => match symbol(ix.program, module_part(id), base) {
                        Some(SymbolView::Class(up)) => inherited_field(
                            ix,
                            up,
                            field,
                            (steps - 1) as nat,
                        ),
                        _ => None,
                    },
                },
            },
        }
    }
}

/// The last field named `field` among the first `n`.
pub open spec fn last_field(fields: Seq<(Text, TypeRefView)>, field: Text, n: int) -> Option<
    TypeRefView,
>
    decreases n,
{
    if n <= 0 || n > fields.len() {
        None
    } else if fields[n - 1].0 == field {
        Some(fields[n - 1].1)
    } else {
        last_field(fields, field, n - 1)
    }
}

/// The declared type of a field of the record type `name`: `None` where there is no such
/// record, `Some(None)` where it has no such field.
pub open spec fn record_field(p: ProgramView, module: Text, name: Text, field: Text) -> Option<
    Option<TypeRefView>,
> {
    match lookup(p.modules, module) {
        None => None,
        Some(m) => match interface_named(m.interfaces, name, 0) {
            Some(i) => Some(lookup(i.fields, field)),
            None => match lookup(m.type_aliases, name) {
                Some(TypeRefView::Object(fields)) => Some(
                    last_field(fields, field, fields.len() as int),
                ),
                _ => None,
            },
        },
    }
}

/// The first field named `field` from index `i` on.
pub open spec fn object_field(fields: Seq<(Text, TyView)>, field: Text, i: int) -> TyView
    decreases fields.len() - i,
{
    if 0 <= i < fields.len() {
        if fields[i].0 == field {
            fields[i].1
        } else {
            object_field(fields, field, i + 1)
        }
    } else {
        TyView::Unknown
    }
}

/// The type of a field of a value.
pub open spec fn field_type_of(ix: IndexView, ty: TyView, field: Text) -> TyView {
    match ty {
        TyView::Class(id) => match inherited_field(ix, id, field, 16) {
            Some((at, t)) => type_in(ix.program, module_part(at), t),
            None => TyView::Unknown,
        },
        TyView::Record { name, module } => match record_field(ix.program, module, name, field) {
            Some(Some(t)) => type_in(ix.program, module, t),
            _ => TyView::Unknown,
        },
        TyView::Object(fields) => object_field(fields, field, 0),
        TyView::External(canon) => TyView::External(canon + "."@ + field),
        _ => TyView::Unknown,
    }
}

/// The values of an enum's members.
pub open spec fn member_values(members: Seq<(Text, Text)>, i: int) -> Seq<Text>
    decreases members.len() - i,
{
    if 0 <= i < members.len() {
        seq![members[i].1] + member_values(members, i + 1)
    } else {
        seq![]
    }
}

/// The finite set of values of a type written in a module.
pub open spec fn type_domain(p: ProgramView, module: Text, t: TypeRefView) -> Option<Seq<Text>> {
    match t {
        TypeRefView::StringLiterals(v) => Some(set_of(v)),
        TypeRefView::Named(n, _) => match symbol(p, module, n) {
            Some(SymbolView::Enum { module, name }) => match lookup(p.modules, module) {
                None => None,
                Some(m) => match enum_named(m.enums, name, 0) {
                    Some(e) => Some(set_of(member_values(e.members, 0))),
                    None => None,
                },
            },
            Some(SymbolView::Record { module, name }) => match lookup(p.modules, module) {
                None => None,
                Some(m) => match lookup(m.type_aliases, name) {
                    Some(TypeRefView::StringLiterals(v)) => Some(set_of(v)),
                    _ => None,
                },
            },
            _ => None,
        },
        _ => None,
    }
}

/// The finite set of values of a record field, by the first module from index `i` on that
/// declares the record.
pub open spec fn domain_from(p: ProgramView, record: Text, field: Text, i: int) -> Option<
    Seq<Text>,
>
    decreases p.modules.len() - i,
{
    if 0 <= i < p.modules.len() {
        let path = p.modules[i].1.path;
        match record_field(p, path, record, field) {
            None => domain_from(p, record, field, i + 1),
            Some(None) => None,
            Some(Some(t)) => type_domain(p, path, t),
        }
    } else {
        None
    }
}

/// The finite set of values of a field `Type.field`.
pub open spec fn path_domain(p: ProgramView, path: Text) -> Option<Seq<Text>> {
    match text::parted(path, "."@) {
        Some((record, field)) => domain_from(p, record, field, 0),
        None => None,
    }
}

/// Where a method is found, going up from a class.
#[verifier::ext_equal]
pub enum FoundView {
    Method(Text),
    /// The lookup reaches an external base class.
    External(Text),
    Nothing,
}

/// The method of a class or of one of its superclasses in the program, at most `steps` up.
pub open spec fn method_found(ix: IndexView, id: Text, method: Text, steps: nat) -> FoundView
    decreases steps,
{
    if steps == 0 {
        FoundView::Nothing
    } else {
        match lookup(ix.classes, id) {
            None => FoundView::Nothing,
            Some(c) => {
                let candidate = c.id + "."@ + method;
                if lookup(ix.functions, candidate) is Some {
                    FoundView::Method(candidate)
                } else {
                    match c.extends {
                        None => FoundView::Nothing,
                        Some(base) => match symbol(ix.program, module_part(id), base) {
                            Some(SymbolView::Class(up)) => method_found(
                                ix,
                                up,
                                method,
                                (steps - 1) as nat,
                            ),
                            Some(SymbolView::External(canon)) => FoundView::External(
                                canon + "#"@,
                            ),
                            _ => FoundView::Nothing,
                        },
                    }
                }
            },
        }
    }
}

/// The view of a method lookup.
pub open spec fn found_view(r: Result<Option<String>, String>) -> FoundView {
    match r {
        Ok(Some(m)) => FoundView::Method(m@),
        Ok(None) => FoundView::Nothing,
        Err(e) => FoundView::External(e@),
    }
}

fn find_last_field<'a>(fields: &'a Vec<(String, TypeRef)>, field: &str) -> (r: Option<&'a TypeRef>)
    ensures
        r.deep_view() == last_field(
            type_ref_fields_view(fields@),
            field@,
            fields@.len() as int,
        ),
{
    let ghost fv = type_ref_fields_view(fields@);
    let mut n: usize = fields.len();
    while n > 0
        invariant
            n <= fields@.len(),
            fv == type_ref_fields_view(fields@),
            last_field(fv, field@, fields@.len() as int) == last_field(fv, field@, n as int),
        decreases n,
    {
        if text::same(&fields[n - 1].0, field) {
            return Some(&fields[n - 1].1);
        }
        n -= 1;
    }
    None
}

fn find_object_field(fields: &Vec<(String, Ty)>, field: &str) -> (r: Ty)
    ensures
        r.deep_view() == object_field(ty_fields_view(fields@), field@, 0),
{
    let ghost fv = ty_fields_view(fields@);
    let mut i: usize = 0;
    while i < fields.len()
        invariant
            i <= fields@.len(),
            fv == ty_fields_view(fields@),
            object_field(fv, field@, 0) == object_field(fv, field@, i as int),
        decreases fields@.len() - i,
    {
        if text::same(&fields[i].0, field) {
            return fields[i].1.dup();
        }
        i += 1;
    }
    Ty::Unknown
}

impl<'p> Index<'p> {
    fn resolve_alias(&self, module: &str, name: &str, depth: u32) -> (r: Option<String>)
        requires
            depth <= 9,
        ensures
            r.deep_view() == external_alias(
                self.deep_view().program,
                module@,
                name@,
                depth as int,
            ),
        decreases 9 - depth,
    {
        if depth > 8 {
            return None;
        }
        match self.module(module) {
            None => None,
            Some(m) => match m.type_aliases.find(name) {
                Some(TypeRef::Named(n, _)) => match self.resolve_symbol(module, n) {
                    Some(Symbol::External(canon)) => Some(text::cat2(&canon, "#")),
                    Some(Symbol::Record { module, name }) => self.resolve_alias(
                        &module,
                        &name,
                        depth + 1,
                    ),
                    _ => None,
                },
                _ => None,
            },
        }
    }

    /// Resolves a type annotation written in `module`.
    pub fn resolve_type(&self, module: &str, t: &TypeRef) -> (r: Ty)
        ensures
            r.deep_view() == type_in(self.deep_view().program, module@, t.deep_view()),
        decreases t.deep_view(), 1int,
    {
        proof {
            unwrapped_is_no_larger(t.deep_view());
            element_is_smaller(unwrapped(t.deep_view()));
        }
        let t = t.unwrap_async();
        if let Some(el) = t.element() {
            return Ty::Array(Box::new(self.resolve_type(module, el)));
        }
        match t {
            TypeRef::Named(name, _) => match self.resolve_symbol(module, name) {
                Some(Symbol::Class(id)) => Ty::Class(id),
                Some(Symbol::Record { module, name }) => match self.resolve_alias(
                    &module,
                    &name,
                    0,
                ) {
                    Some(canon) => Ty::External(canon),
                    None => Ty::Record { name, module },
                },
                Some(Symbol::External(canon)) => Ty::External(text::cat2(&canon, "#")),
                _ => Ty::Unknown,
            },
            TypeRef::Object(fields) => {
                let ghost fv = type_ref_fields_view(fields@);
                Ty::Object(self.resolve_fields(module, fields))
            },
            _ => Ty::Unknown,
        }
    }

    fn resolve_fields(&self, module: &str, fields: &Vec<(String, TypeRef)>) -> (r: Vec<
        (String, Ty),
    >)
        ensures
            ty_fields_view(r@) == field_types_in(
                self.deep_view().program,
                module@,
                type_ref_fields_view(fields@),
                0,
            ),
        decreases type_ref_fields_view(fields@), fields@.len() + 1,
    {
        broadcast use ty_fields_view_is_deep;

        let ghost p = self.deep_view().program;
        let ghost fv = type_ref_fields_view(fields@);
        let mut out: Vec<(String, Ty)> = list::empty();
        let mut i: usize = 0;
        while i < fields.len()
            invariant
                i <= fields@.len(),
                p == self.deep_view().program,
                fv == type_ref_fields_view(fields@),
                out.deep_view() + field_types_in(p, module@, fv, i as int) == field_types_in(
                    p,
                    module@,
                    fv,
                    0,
                ),
            decreases fields@.len() - i,
        {
            assert(fields@[i as int].1.deep_view() == fv[i as int].1);
            assert(decreases_to!(fv => fv[i as int].1));
            list::push(&mut out, (fields[i].0.dup(), self.resolve_type(module, &fields[i].1)));
            i += 1;
        }
        out
    }

    fn inherited(&self, class_id: &str, field: &str) -> (r: Option<(String, &'p TypeRef)>)
        ensures
            r.deep_view() == inherited_field(self.deep_view(), class_id@, field@, 16),
    {
        let ghost ix = self.deep_view();
        let mut cur = class_id.to_owned();
        let mut steps: usize = 16;
        while steps > 0
            invariant
                ix == self.deep_view(),
                inherited_field(ix, class_id@, field@, 16) == inherited_field(
                    ix,
                    cur@,
                    field@,
                    steps as nat,
                ),
            decreases steps,
        {
            let c = match self.class(&cur) {
                Some(c) => c,
                None => {
                    return None;
                },
            };
            if let Some(t) = c.fields.find(field) {
                return Some((cur, t));
            }
            let base = match &c.extends {
                Some(b) => b,
                None => {
                    return None;
                },
            };
            match self.resolve_symbol(&module_of(&cur), base) {
                Some(Symbol::Class(id)) => {
                    cur = id;
                },
                _ => {
                    return None;
                },
            }
            steps -= 1;
        }
        None
    }

    fn record_member(&self, module: &str, name: &str, field: &str) -> (r: Option<
        Option<&'p TypeRef>,
    >)
        ensures
            r.deep_view() == record_field(self.deep_view().program, module@, name@, field@),
    {
        match self.module(module) {
            None => None,
            Some(m) => match find_interface(&m.interfaces, name) {
                Some(i) => Some(i.fields.find(field)),
                None => match m.type_aliases.find(name) {
                    Some(TypeRef::Object(fields)) => {
                        let ghost fv = type_ref_fields_view(fields@);
                        Some(find_last_field(fields, field))
                    },
                    _ => None,
                },
            },
        }
    }

    /// Declared type of `field` on a record or class type, resolved in its own module. A class
    /// has the fields of its superclasses too.
    pub fn field_type(&self, ty: &Ty, field: &str) -> (r: Ty)
        ensures
            r.deep_view() == field_type_of(self.deep_view(), ty.deep_view(), field@),
    {
        match ty {
            Ty::Class(id) => match self.inherited(id, field) {
                Some((at, t)) => self.resolve_type(&module_of(&at), t),
                None => Ty::Unknown,
            },
            Ty::Record { name, module } => match self.record_member(module, name, field) {
                Some(Some(t)) => self.resolve_type(module, t),
                _ => Ty::Unknown,
            },
            Ty::Object(fields) => {
                let ghost fv = ty_fields_view(fields@);
                find_object_field(fields, field)
            },
            Ty::External(canon) => Ty::External(text::cat3(canon, ".", field)),
            _ => Ty::Unknown,
        }
    }

    fn literal_set(&self, v: &Vec<String>) -> (r: Option<SortedSet<String>>)
        ensures
            r.deep_view() == Some(set_of(v.deep_view())),
    {
        Some(SortedSet::of(v))
    }

    fn domain_of_type(&self, module: &str, t: &TypeRef) -> (r: Option<SortedSet<String>>)
        ensures
            r.deep_view() == type_domain(self.deep_view().program, module@, t.deep_view()),
    {
        match t {
            TypeRef::StringLiterals(v) => self.literal_set(v),
            TypeRef::Named(n, _) => match self.resolve_symbol(module, n) {
                Some(Symbol::Enum { module, name }) => match self.module(&module) {
                    None => None,
                    Some(m) => match find_enum(&m.enums, &name) {
                        Some(e) => {
                            let ghost mv = e.deep_view().members;
                            let mut values: Vec<String> = list::empty();
                            let mut i: usize = 0;
                            while i < e.members.len()
                                invariant
                                    i <= mv.len(),
                                    mv == e.deep_view().members,
                                    values.deep_view() + member_values(mv, i as int)
                                        == member_values(mv, 0),
                                decreases mv.len() - i,
                            {
                                list::push(&mut values, e.members.value(i).dup());
                                i += 1;
                            }
                            assert(values.deep_view() =~= member_values(mv, 0));
                            self.literal_set(&values)
                        },
                        None => None,
                    },
                },
                Some(Symbol::Record { module, name }) => match self.module(&module) {
                    None => None,
                    Some(m) => match m.type_aliases.find(&name) {
                        Some(TypeRef::StringLiterals(v)) => self.literal_set(v),
                        _ => None,
                    },
                },
                _ => None,
            },
            _ => None,
        }
    }

    /// Finite value domain of a record field typed as an enum or string-literal union.
    pub fn field_domain(&self, record: &str, field: &str) -> (r: Option<SortedSet<String>>)
        ensures
            r.deep_view() == domain_from(self.deep_view().program, record@, field@, 0),
    {
        let ghost p = self.deep_view().program;
        let mut i: usize = 0;
        while i < self.program.modules.len()
            invariant
                i <= p.modules.len(),
                p == self.deep_view().program,
                domain_from(p, record@, field@, 0) == domain_from(p, record@, field@, i as int),
            decreases p.modules.len() - i,
        {
            let m = self.program.modules.value(i);
            match self.record_member(&m.path, record, field) {
                None => {},
                Some(None) => {
                    return None;
                },
                Some(Some(t)) => {
                    return self.domain_of_type(&m.path, t);
                },
            }
            i += 1;
        }
        None
    }

    /// Finds a method on a class or its superclasses in the program.
    /// Gives `Err(external_base)` if the lookup reaches an external base class.
    pub fn lookup_method(&self, class_id: &str, method: &str) -> (r: Result<
        Option<String>,
        String,
    >)
        ensures
            found_view(r) == method_found(self.deep_view(), class_id@, method@, 16),
    {
        let ghost ix = self.deep_view();
        let mut cur = class_id.to_owned();
        let mut steps: usize = 16;
        while steps > 0
            invariant
                ix == self.deep_view(),
                method_found(ix, class_id@, method@, 16) == method_found(
                    ix,
                    cur@,
                    method@,
                    steps as nat,
                ),
            decreases steps,
        {
            let c = match self.class(&cur) {
                Some(c) => c,
                None => {
                    return Ok(None);
                },
            };
            let candidate = text::cat3(&c.id, ".", method);
            if self.functions.contains_key(&candidate) {
                return Ok(Some(candidate));
            }
            let base = match &c.extends {
                Some(b) => b,
                None => {
                    return Ok(None);
                },
            };
            match self.resolve_symbol(&module_of(&cur), base) {
                Some(Symbol::Class(id)) => {
                    cur = id;
                },
                Some(Symbol::External(canon)) => {
                    return Err(text::cat2(&canon, "#"));
                },
                _ => {
                    return Ok(None);
                },
            }
            steps -= 1;
        }
        Ok(None)
    }
}

impl DomainTable for IndexView {
    open spec fn domain_of(self, field: Text) -> Option<Seq<Text>> {
        path_domain(self.program, field)
    }
}

impl<'p> Domains for Index<'p> {
    fn domain(&self, field: &str) -> (r: Option<SortedSet<String>>) {
        match text::split_once(field, ".") {
            Some((record, f)) => self.field_domain(&record, &f),
            None => None,
        }
    }
}

} // verus!
