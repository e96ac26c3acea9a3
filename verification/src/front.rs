//! TypeScript and JavaScript sources, parsed by `oxc_parser`, as a structural program.

use crate::aliases;
use crate::annotations;
use crate::ir;
use crate::ir::{
    Call, CallView, Class, ClassView, Const, ConstView, Enum, EnumView, Expr, Function,
    FunctionKind, FunctionView, Import, ImportView, Interface, InterfaceView, Module, ModuleView,
    Program, ProgramView, TypeRef, TypeRefView,
};
use crate::list;
use crate::list::Plain;
use crate::lower;
use crate::lower::{Around, AroundView, Found, FoundView};
use crate::ordered;
use crate::ordered::SortedMap;
use crate::span;
use crate::span::{Source, SourceView};
use crate::syntax;
use crate::syntax::{items, kind, part, word};
use crate::text;
use crate::text::Text;
use crate::tree;
use crate::tree::{Tree, TreeView};
use vstd::prelude::*;

verus! {

// ---- state

/// A module as far as it has been read.
pub struct Draft {
    pub found: Found,
    pub imports: Vec<Import>,
    pub classes: Vec<Class>,
    pub enums: Vec<Enum>,
    pub consts: Vec<Const>,
    pub interfaces: Vec<Interface>,
    pub type_aliases: SortedMap<String, TypeRef>,
}

/// The view of [`Draft`].
#[verifier::ext_equal]
pub struct DraftView {
    pub found: FoundView,
    pub imports: Seq<ImportView>,
    pub classes: Seq<ClassView>,
    pub enums: Seq<EnumView>,
    pub consts: Seq<ConstView>,
    pub interfaces: Seq<InterfaceView>,
    pub type_aliases: Seq<(Text, TypeRefView)>,
}

impl DeepView for Draft {
    type V = DraftView;

    open spec fn deep_view(&self) -> DraftView {
        DraftView {
            found: self.found.deep_view(),
            imports: self.imports.deep_view(),
            classes: self.classes.deep_view(),
            enums: self.enums.deep_view(),
            consts: self.consts.deep_view(),
            interfaces: self.interfaces.deep_view(),
            type_aliases: self.type_aliases.deep_view(),
        }
    }
}

/// A module of which nothing has been read.
pub open spec fn blank() -> DraftView {
    DraftView {
        found: FoundView { functions: seq![], counts: seq![] },
        imports: seq![],
        classes: seq![],
        enums: seq![],
        consts: seq![],
        interfaces: seq![],
        type_aliases: seq![],
    }
}

/// What surrounds a declaration of a module.
pub open spec fn around(src: SourceView, constant: Option<Text>) -> AroundView {
    AroundView { source: src, owner: None, constant }
}

// ---- imports

/// The import of a specifier.
pub open spec fn import_of(source: Text, t: TreeView) -> ImportView {
    let local = match part(t, "local"@) {
        Some(l) => word(l, "name"@),
        None => ""@,
    };
    ImportView {
        local,
        imported: if kind(t) == "ImportDefaultSpecifier"@ {
            "default"@
        } else if kind(t) == "ImportNamespaceSpecifier"@ {
            "*"@
        } else {
            match syntax::string_literal(part(t, "imported"@)) {
                Some(s) => s,
                None => match part(t, "imported"@) {
                    Some(n) => word(n, "name"@),
                    None => ""@,
                },
            }
        },
        source,
    }
}

/// The imports of the specifiers from index `i` on.
pub open spec fn imports_from(source: Text, xs: Seq<TreeView>, i: int) -> Seq<ImportView>
    decreases xs.len() - i,
{
    if 0 <= i < xs.len() {
        seq![import_of(source, xs[i])] + imports_from(source, xs, i + 1)
    } else {
        seq![]
    }
}

/// The module that an import or export names.
pub open spec fn source_of(t: TreeView) -> Text {
    match part(t, "source"@) {
        Some(s) => word(s, "value"@),
        None => ""@,
    }
}

// ---- enums

/// The members from index `i` on: those with a name, under the string they have or their name.
pub open spec fn members_from(xs: Seq<TreeView>, i: int, acc: Seq<(Text, Text)>) -> Seq<(Text, Text)>
    decreases xs.len() - i,
{
    if 0 <= i < xs.len() {
        let id = part(xs[i], "id"@);
        let name = match syntax::ident(id) {
            Some(n) => Some(n),
            None => syntax::string_literal(id),
        };
        members_from(
            xs,
            i + 1,
            match name {
                Some(n) => ordered::put(
                    acc,
                    n,
                    match syntax::string_literal(part(xs[i], "initializer"@)) {
                        Some(v) => v,
                        None => n,
                    },
                ),
                None => acc,
            },
        )
    } else {
        acc
    }
}

// ---- decorators

/// The arguments from index `i` on, without spread ones.
pub open spec fn plain_args_from(
    cx: AroundView,
    st: FoundView,
    xs: Seq<TreeView>,
    i: int,
    acc: Seq<ir::ExprView>,
) -> (FoundView, Seq<ir::ExprView>)
    decreases xs.len() - i,
{
    if 0 <= i < xs.len() {
        if kind(xs[i]) == "SpreadElement"@ {
            plain_args_from(cx, st, xs, i + 1, acc)
        } else {
            let (s, e) = lower::expr_of(cx, st, xs[i]);
            plain_args_from(cx, s, xs, i + 1, acc.push(e))
        }
    } else {
        (st, acc)
    }
}

/// A decorator, as a call.
pub open spec fn decorator_of(cx: AroundView, st: FoundView, t: TreeView) -> (FoundView, CallView) {
    let loc = lower::loc_of(cx, t);
    if syntax::is_kind(part(t, "expression"@), "CallExpression"@) {
        let c = part(t, "expression"@)->0;
        let (s, callee) = lower::expr_at(cx, st, c, "callee"@);
        let (s2, args) = plain_args_from(cx, s, items(c, "arguments"@), 0, seq![]);
        (s2, CallView { callee, args, loc })
    } else {
        let (s, callee) = lower::expr_at(cx, st, t, "expression"@);
        (s, CallView { callee, args: seq![], loc })
    }
}

/// The decorators from index `i` on.
pub open spec fn decorators_from(
    cx: AroundView,
    st: FoundView,
    xs: Seq<TreeView>,
    i: int,
    acc: Seq<CallView>,
) -> (FoundView, Seq<CallView>)
    decreases xs.len() - i,
{
    if 0 <= i < xs.len() {
        let (s, d) = decorator_of(cx, st, xs[i]);
        decorators_from(cx, s, xs, i + 1, acc.push(d))
    } else {
        (st, acc)
    }
}

/// The place of the last function with an id among the first `n`, or `n` below zero.
pub open spec fn last_named(fs: Seq<FunctionView>, id: Text, n: int) -> int
    decreases n,
{
    if n <= 0 {
        -1
    } else if fs[n - 1].id == id {
        n - 1
    } else {
        last_named(fs, id, n - 1)
    }
}

/// The functions with decorators given to the last one with an id.
pub open spec fn decorated(fs: Seq<FunctionView>, id: Text, ds: Seq<CallView>) -> Seq<FunctionView> {
    let k = last_named(fs, id, fs.len() as int);
    if k < 0 {
        fs
    } else {
        fs.update(k, FunctionView { decorators: ds, ..fs[k] })
    }
}

// ---- classes

/// A class as far as its body has been read.
#[verifier::ext_equal]
pub struct BodyView {
    pub found: FoundView,
    pub fields: Seq<(Text, TypeRefView)>,
    pub methods: Seq<Text>,
}

/// The type of a field: the annotation, or the class that its initializer constructs.
pub open spec fn field_type(t: TreeView) -> TypeRefView {
    match annotations::annotation(t) {
        Some(ty) => ty,
        None => if syntax::is_kind(part(t, "value"@), "NewExpression"@) {
            match syntax::simple_name(part(part(t, "value"@)->0, "callee"@)) {
                Some(c) => TypeRefView::Named(c, seq![]),
                None => TypeRefView::Unknown,
            }
        } else {
            TypeRefView::Unknown
        },
    }
}

/// The fields that the constructor parameters from index `i` on declare.
pub open spec fn properties_from(xs: Seq<TreeView>, i: int, acc: Seq<(Text, TypeRefView)>) -> Seq<
    (Text, TypeRefView),
>
    decreases xs.len() - i,
{
    if 0 <= i < xs.len() {
        properties_from(
            xs,
            i + 1,
            match annotations::property_field(xs[i]) {
                Some(f) => ordered::put(acc, f.0, f.1),
                None => acc,
            },
        )
    } else {
        acc
    }
}

/// A constructor.
pub open spec fn is_constructor(t: TreeView) -> bool {
    word(t, "kind"@) == "constructor"@
}

/// The qualified name of a method.
pub open spec fn method_name(class: Text, t: TreeView, key: Text) -> Text {
    class + "."@ + (if is_constructor(t) {
        "constructor"@
    } else {
        key
    })
}

/// A method of a class.
pub open spec fn with_method(src: SourceView, class: Text, exported: bool, b: BodyView, t: TreeView) -> BodyView {
    let cx = around(src, None);
    let value = match part(t, "value"@) {
        Some(f) => f,
        None => TreeView::Null,
    };
    let fields = if is_constructor(t) {
        properties_from(items(value, "params"@), 0, b.fields)
    } else {
        b.fields
    };
    match syntax::key_name(t) {
        Some(key) => {
            let q = method_name(class, t, key);
            let s = lower::function_of(
                cx,
                b.found,
                value,
                q,
                Some(class),
                if is_constructor(t) {
                    FunctionKind::Constructor
                } else {
                    FunctionKind::Method
                },
                exported,
                None,
            );
            let (s2, ds) = decorators_from(cx, s, items(t, "decorators"@), 0, seq![]);
            BodyView {
                found: FoundView {
                    functions: decorated(s2.functions, lower::id_of(cx, q), ds),
                    counts: s2.counts,
                },
                fields,
                methods: b.methods.push(lower::id_of(cx, q)),
            }
        },
        None => BodyView { fields, ..b },
    }
}

/// A class with one more element of its body.
pub open spec fn with_element(src: SourceView, class: Text, exported: bool, b: BodyView, t: TreeView) -> BodyView {
    let k = kind(t);
    if k == "PropertyDefinition"@ || k == "TSAbstractPropertyDefinition"@ {
        match syntax::key_name(t) {
            Some(key) => BodyView { fields: ordered::put(b.fields, key, field_type(t)), ..b },
            None => b,
        }
    } else if k == "MethodDefinition"@ || k == "TSAbstractMethodDefinition"@ {
        with_method(src, class, exported, b, t)
    } else {
        b
    }
}

/// A class with the elements from index `i` on.
pub open spec fn body_from(
    src: SourceView,
    class: Text,
    exported: bool,
    b: BodyView,
    xs: Seq<TreeView>,
    i: int,
) -> BodyView
    decreases xs.len() - i,
{
    if 0 <= i < xs.len() {
        body_from(src, class, exported, with_element(src, class, exported, b, xs[i]), xs, i + 1)
    } else {
        b
    }
}

/// The elements of the body of a class or the members of an enum or interface.
pub open spec fn inner_items(t: TreeView, key: Text) -> Seq<TreeView> {
    match part(t, "body"@) {
        Some(b) => items(b, key),
        None => seq![],
    }
}

/// A class of a module; one without a name is left out.
pub open spec fn with_class(src: SourceView, d: DraftView, t: TreeView, exported: bool) -> DraftView {
    match syntax::ident(part(t, "id"@)) {
        Some(name) => {
            let cx = around(src, None);
            let b = body_from(
                src,
                name,
                exported,
                BodyView { found: d.found, fields: seq![], methods: seq![] },
                inner_items(t, "body"@),
                0,
            );
            let (s, ds) = decorators_from(cx, b.found, items(t, "decorators"@), 0, seq![]);
            DraftView {
                found: s,
                classes: d.classes.push(
                    ClassView {
                        id: lower::id_of(cx, name),
                        name,
                        extends: syntax::simple_name(part(t, "superClass"@)),
                        fields: b.fields,
                        methods: b.methods,
                        exported,
                        loc: lower::loc_of(cx, t),
                        decorators: ds,
                    },
                ),
                ..d
            }
        },
        None => d,
    }
}

// ---- declarations

/// A function of a module; one without a name is left out.
pub open spec fn with_function(src: SourceView, d: DraftView, t: TreeView, exported: bool) -> DraftView {
    match syntax::ident(part(t, "id"@)) {
        Some(name) => DraftView {
            found: lower::function_of(
                around(src, None),
                d.found,
                t,
                name,
                None,
                FunctionKind::Function,
                exported,
                None,
            ),
            ..d
        },
        None => d,
    }
}

/// A variable of a module: a function where it is initialized with one, else a constant.
pub open spec fn with_variable(src: SourceView, d: DraftView, t: TreeView, exported: bool) -> DraftView {
    match syntax::ident(part(t, "id"@)) {
        Some(name) => {
            let init = part(t, "init"@);
            if syntax::is_kind(init, "ArrowFunctionExpression"@) {
                DraftView {
                    found: lower::arrow_of(around(src, None), d.found, init->0, name, exported),
                    ..d
                }
            } else if syntax::is_kind(init, "FunctionExpression"@) {
                DraftView {
                    found: lower::function_of(
                        around(src, None),
                        d.found,
                        init->0,
                        name,
                        None,
                        FunctionKind::Function,
                        exported,
                        None,
                    ),
                    ..d
                }
            } else {
                let (s, e) = lower::optional_expr(around(src, Some(name)), d.found, t, "init"@);
                DraftView {
                    found: s,
                    consts: d.consts.push(
                        ConstView {
                            name,
                            ty: annotations::annotation(part(t, "id"@)->0),
                            init: e,
                            exported,
                            loc: lower::loc_of(around(src, None), t),
                        },
                    ),
                    ..d
                }
            }
        },
        None => d,
    }
}

/// The variables from index `i` on.
pub open spec fn variables_from(
    src: SourceView,
    d: DraftView,
    xs: Seq<TreeView>,
    i: int,
    exported: bool,
) -> DraftView
    decreases xs.len() - i,
{
    if 0 <= i < xs.len() {
        variables_from(src, with_variable(src, d, xs[i], exported), xs, i + 1, exported)
    } else {
        d
    }
}

/// The name that a declaration gives.
pub open spec fn declared_name(t: TreeView) -> Text {
    match part(t, "id"@) {
        Some(i) => word(i, "name"@),
        None => ""@,
    }
}

/// A module with one more declaration.
pub open spec fn with_declaration(src: SourceView, d: DraftView, t: TreeView, exported: bool) -> DraftView {
    let k = kind(t);
    if lower::declares_function(k) {
        with_function(src, d, t, exported)
    } else if k == "ClassDeclaration"@ {
        with_class(src, d, t, exported)
    } else if k == "VariableDeclaration"@ {
        variables_from(src, d, items(t, "declarations"@), 0, exported)
    } else if k == "TSEnumDeclaration"@ {
        DraftView {
            enums: d.enums.push(
                EnumView {
                    name: declared_name(t),
                    members: members_from(inner_items(t, "members"@), 0, seq![]),
                },
            ),
            ..d
        }
    } else if k == "TSInterfaceDeclaration"@ {
        DraftView {
            interfaces: d.interfaces.push(
                InterfaceView {
                    name: declared_name(t),
                    fields: annotations::signatures_from(inner_items(t, "body"@), 0, seq![]),
                },
            ),
            ..d
        }
    } else if k == "TSTypeAliasDeclaration"@ {
        DraftView {
            type_aliases: ordered::put(
                d.type_aliases,
                declared_name(t),
                annotations::type_at(t, "typeAnnotation"@),
            ),
            ..d
        }
    } else {
        d
    }
}

/// A module with one more statement. Only declarations are read.
pub open spec fn with_statement(src: SourceView, d: DraftView, t: TreeView) -> DraftView {
    let k = kind(t);
    if k == "ImportDeclaration"@ {
        DraftView {
            imports: d.imports + imports_from(source_of(t), items(t, "specifiers"@), 0),
            ..d
        }
    } else if k == "ExportNamedDeclaration"@ {
        match part(t, "declaration"@) {
            Some(x) => with_declaration(src, d, x, true),
            None => d,
        }
    } else if k == "ExportDefaultDeclaration"@ {
        match part(t, "declaration"@) {
            Some(x) => if lower::declares_function(kind(x)) {
                with_function(src, d, x, true)
            } else if kind(x) == "ClassDeclaration"@ {
                with_class(src, d, x, true)
            } else {
                d
            },
            None => d,
        }
    } else {
        with_declaration(src, d, t, false)
    }
}

/// A module with the statements from index `i` on.
pub open spec fn statements_from(src: SourceView, d: DraftView, xs: Seq<TreeView>, i: int) -> DraftView
    decreases xs.len() - i,
{
    if 0 <= i < xs.len() {
        statements_from(src, with_statement(src, d, xs[i]), xs, i + 1)
    } else {
        d
    }
}

/// The module of a file with a syntax tree.
pub open spec fn module_of(path: Text, source: Text, errors: Seq<Text>, program: Option<TreeView>) -> ModuleView {
    let src = SourceView { path, text: span::cut(source) };
    let d = statements_from(
        src,
        blank(),
        match program {
            Some(p) => items(p, "body"@),
            None => seq![],
        },
        0,
    );
    ModuleView {
        path,
        imports: d.imports,
        classes: d.classes,
        functions: d.found.functions,
        enums: d.enums,
        consts: d.consts,
        interfaces: d.interfaces,
        type_aliases: d.type_aliases,
        parse_errors: errors,
    }
}

// ---- reading declarations

fn read_import(source: &str, t: &Tree) -> (r: Import)
    ensures
        r.deep_view() == import_of(source@, t.deep_view()),
{
    let local = match syntax::read_part(t, "local") {
        Some(l) => syntax::read_word(l, "name").to_owned(),
        None => "".to_owned(),
    };
    let imported = if syntax::is(t, "ImportDefaultSpecifier") {
        "default".to_owned()
    } else if syntax::is(t, "ImportNamespaceSpecifier") {
        "*".to_owned()
    } else {
        let named = syntax::read_part(t, "imported");
        match syntax::read_string(named) {
            Some(s) => s,
            None => match named {
                Some(n) => syntax::read_word(n, "name").to_owned(),
                None => "".to_owned(),
            },
        }
    };
    Import { local, imported, source: source.to_owned() }
}

fn import(d: &mut Draft, t: &Tree)
    ensures
        final(d).deep_view() == (DraftView {
            imports: old(d).deep_view().imports + imports_from(
                source_of(t.deep_view()),
                items(t.deep_view(), "specifiers"@),
                0,
            ),
            ..old(d).deep_view()
        }),
{
    let source = match syntax::read_part(t, "source") {
        Some(s) => syntax::read_word(s, "value"),
        None => "",
    };
    let ghost first = d.imports.deep_view();
    let ghost v = items(t.deep_view(), "specifiers"@);
    let mut out: Vec<Import> = list::empty();
    if let Some(xs) = syntax::read_list(t, "specifiers") {
        let mut i: usize = 0;
        while i < xs.len()
            invariant
                i <= xs@.len(),
                v == xs.deep_view(),
                out.deep_view() + imports_from(source@, v, i as int) == imports_from(source@, v, 0),
            decreases xs@.len() - i,
        {
            assert(v[i as int] == xs@[i as int].deep_view());
            list::push(&mut out, read_import(source, &xs[i]));
            i += 1;
        }
    }
    list::append(&mut d.imports, out);
}

fn read_members(xs: &Vec<Tree>) -> (r: SortedMap<String, String>)
    ensures
        r.deep_view() == members_from(xs.deep_view(), 0, seq![]),
{
    let ghost v = xs.deep_view();
    let mut out: SortedMap<String, String> = SortedMap::new();
    let mut i: usize = 0;
    while i < xs.len()
        invariant
            i <= xs@.len(),
            v == xs.deep_view(),
            members_from(v, i as int, out.deep_view()) == members_from(v, 0, seq![]),
        decreases xs@.len() - i,
    {
        assert(v[i as int] == xs@[i as int].deep_view());
        let id = syntax::read_part(&xs[i], "id");
        let name = match syntax::read_ident(id) {
            Some(n) => Some(n),
            None => syntax::read_string(id),
        };
        if let Some(n) = name {
            let value = match syntax::read_string(syntax::read_part(&xs[i], "initializer")) {
                Some(s) => s,
                None => n.dup(),
            };
            out.insert(n, value);
        }
        i += 1;
    }
    out
}

fn plain_args(cx: &Around, out: &mut Found, t: &Tree) -> (r: Vec<Expr>)
    requires
        cx.source.wf(),
    ensures
        (final(out).deep_view(), r.deep_view()) == plain_args_from(
            cx.deep_view(),
            old(out).deep_view(),
            items(t.deep_view(), "arguments"@),
            0,
            seq![],
        ),
{
    let ghost c = cx.deep_view();
    let ghost first = out.deep_view();
    let ghost v = items(t.deep_view(), "arguments"@);
    let mut acc: Vec<Expr> = list::empty();
    if let Some(xs) = syntax::read_list(t, "arguments") {
        let mut i: usize = 0;
        while i < xs.len()
            invariant
                i <= xs@.len(),
                cx.source.wf(),
                c == cx.deep_view(),
                v == xs.deep_view(),
                plain_args_from(c, out.deep_view(), v, i as int, acc.deep_view())
                    == plain_args_from(c, first, v, 0, seq![]),
            decreases xs@.len() - i,
        {
            assert(v[i as int] == xs@[i as int].deep_view());
            if !syntax::is(&xs[i], "SpreadElement") {
                let e = lower::expr(cx, out, &xs[i]);
                list::push(&mut acc, e);
            }
            i += 1;
        }
    }
    acc
}

fn decorator(cx: &Around, out: &mut Found, t: &Tree) -> (r: Call)
    requires
        cx.source.wf(),
    ensures
        (final(out).deep_view(), r.deep_view()) == decorator_of(
            cx.deep_view(),
            old(out).deep_view(),
            t.deep_view(),
        ),
{
    broadcast use ir::expr_list_view_is_deep;

    let loc = lower::read_loc(cx, t);
    let inner = syntax::read_part(t, "expression");
    if syntax::has_kind(inner, "CallExpression") {
        if let Some(c) = inner {
            let callee = lower::read_expr_at(cx, out, c, "callee");
            let args = plain_args(cx, out, c);
            return Call { callee, args, loc };
        }
    }
    let callee = lower::read_expr_at(cx, out, t, "expression");
    Call { callee, args: list::empty(), loc }
}

fn decorators(cx: &Around, out: &mut Found, t: &Tree) -> (r: Vec<Call>)
    requires
        cx.source.wf(),
    ensures
        (final(out).deep_view(), r.deep_view()) == decorators_from(
            cx.deep_view(),
            old(out).deep_view(),
            items(t.deep_view(), "decorators"@),
            0,
            seq![],
        ),
{
    let ghost c = cx.deep_view();
    let ghost first = out.deep_view();
    let ghost v = items(t.deep_view(), "decorators"@);
    let mut acc: Vec<Call> = list::empty();
    if let Some(xs) = syntax::read_list(t, "decorators") {
        let mut i: usize = 0;
        while i < xs.len()
            invariant
                i <= xs@.len(),
                cx.source.wf(),
                c == cx.deep_view(),
                v == xs.deep_view(),
                decorators_from(c, out.deep_view(), v, i as int, acc.deep_view())
                    == decorators_from(c, first, v, 0, seq![]),
            decreases xs@.len() - i,
        {
            assert(v[i as int] == xs@[i as int].deep_view());
            let d = decorator(cx, out, &xs[i]);
            list::push(&mut acc, d);
            i += 1;
        }
    }
    acc
}

fn decorate(fs: &mut Vec<Function>, id: &String, ds: Vec<Call>)
    ensures
        final(fs).deep_view() == decorated(old(fs).deep_view(), id@, ds.deep_view()),
{
    let ghost v = fs.deep_view();
    let mut n: usize = fs.len();
    while n > 0
        invariant_except_break
            n <= fs@.len(),
            v == fs.deep_view(),
            last_named(v, id@, v.len() as int) == last_named(v, id@, n as int),
        ensures
            v == fs.deep_view(),
            n <= fs@.len(),
            last_named(v, id@, v.len() as int) == n - 1,
        decreases n,
    {
        assert(v[n - 1] == fs@[n - 1].deep_view());
        if text::same(&fs[n - 1].id, id) {
            break;
        }
        n -= 1;
    }
    if n > 0 {
        assert(v[n - 1] == fs@[n - 1].deep_view());
        let mut f = fs.remove(n - 1);
        f.decorators = ds;
        fs.insert(n - 1, f);
        assert(fs.deep_view() =~= decorated(v, id@, ds.deep_view()));
    }
}

struct Body {
    found: Found,
    fields: SortedMap<String, TypeRef>,
    methods: Vec<String>,
}

spec fn body_view(b: Body) -> BodyView {
    BodyView {
        found: b.found.deep_view(),
        fields: b.fields.deep_view(),
        methods: b.methods.deep_view(),
    }
}

fn read_field_type(t: &Tree) -> (r: TypeRef)
    ensures
        r.deep_view() == field_type(t.deep_view()),
{
    broadcast use ir::type_ref_list_view_is_deep;

    match annotations::read_annotation(t) {
        Some(ty) => ty,
        None => match syntax::read_part(t, "value") {
            Some(v) => if syntax::is(v, "NewExpression") {
                match syntax::read_simple(syntax::read_part(v, "callee")) {
                    Some(c) => TypeRef::Named(c, list::empty()),
                    None => TypeRef::Unknown,
                }
            } else {
                TypeRef::Unknown
            },
            None => TypeRef::Unknown,
        },
    }
}

fn read_properties(fields: &mut SortedMap<String, TypeRef>, t: &Tree)
    ensures
        final(fields).deep_view() == properties_from(
            items(t.deep_view(), "params"@),
            0,
            old(fields).deep_view(),
        ),
{
    let ghost first = fields.deep_view();
    let ghost v = items(t.deep_view(), "params"@);
    if let Some(xs) = syntax::read_list(t, "params") {
        let mut i: usize = 0;
        while i < xs.len()
            invariant
                i <= xs@.len(),
                v == xs.deep_view(),
                properties_from(v, i as int, fields.deep_view()) == properties_from(v, 0, first),
            decreases xs@.len() - i,
        {
            assert(v[i as int] == xs@[i as int].deep_view());
            if let Some((name, ty)) = annotations::read_property_field(&xs[i]) {
                fields.insert(name, ty);
            }
            i += 1;
        }
    }
}

fn method(src: &Source, class: &String, exported: bool, b: &mut Body, t: &Tree)
    requires
        src.wf(),
    ensures
        body_view(*final(b)) == with_method(
            src.deep_view(),
            class@,
            exported,
            body_view(*old(b)),
            t.deep_view(),
        ),
{
    let cx = Around { source: src, owner: None, constant: None };
    let nothing = Tree::Null;
    let value = match syntax::read_part(t, "value") {
        Some(f) => f,
        None => &nothing,
    };
    let ghost before = body_view(*b);
    let constructor = text::same(syntax::read_word(t, "kind"), "constructor");
    if constructor {
        read_properties(&mut b.fields, value);
    }
    match syntax::read_key(t) {
        Some(key) => {
            let q = if constructor {
                text::cat3(class, ".", "constructor")
            } else {
                text::cat3(class, ".", &key)
            };
            let k = if constructor {
                FunctionKind::Constructor
            } else {
                FunctionKind::Method
            };
            lower::function(
                &cx,
                &mut b.found,
                value,
                &q,
                Some(class.dup()),
                k,
                exported,
                None,
            );
            let ds = decorators(&cx, &mut b.found, t);
            let id = lower::entity_id(&cx, &q);
            decorate(&mut b.found.functions, &id, ds);
            list::push(&mut b.methods, id);
        },
        None => {},
    }
}

fn element(src: &Source, class: &String, exported: bool, b: &mut Body, t: &Tree)
    requires
        src.wf(),
    ensures
        body_view(*final(b)) == with_element(
            src.deep_view(),
            class@,
            exported,
            body_view(*old(b)),
            t.deep_view(),
        ),
{
    let k = syntax::read_kind(t);
    if text::same(k, "PropertyDefinition") || text::same(k, "TSAbstractPropertyDefinition") {
        if let Some(key) = syntax::read_key(t) {
            b.fields.insert(key, read_field_type(t));
        }
    } else if text::same(k, "MethodDefinition") || text::same(k, "TSAbstractMethodDefinition") {
        method(src, class, exported, b, t);
    }
}

fn read_inner<'a>(t: &'a Tree, key: &str) -> (r: Option<&'a Vec<Tree>>)
    ensures
        match r {
            Some(xs) => xs.deep_view() == inner_items(t.deep_view(), key@),
            None => inner_items(t.deep_view(), key@).len() == 0,
        },
{
    match syntax::read_part(t, "body") {
        Some(b) => syntax::read_list(b, key),
        None => None,
    }
}

fn take_found(d: &mut Draft) -> (r: Found)
    ensures
        r.deep_view() == old(d).deep_view().found,
        final(d).deep_view() == (DraftView { found: blank().found, ..old(d).deep_view() }),
{
    let mut found = Found { functions: list::empty(), counts: SortedMap::new() };
    std::mem::swap(&mut found, &mut d.found);
    found
}

fn class(src: &Source, d: &mut Draft, t: &Tree, exported: bool)
    requires
        src.wf(),
    ensures
        final(d).deep_view() == with_class(
            src.deep_view(),
            old(d).deep_view(),
            t.deep_view(),
            exported,
        ),
{
    let ghost before = d.deep_view();
    if let Some(name) = syntax::read_ident(syntax::read_part(t, "id")) {
        let cx = Around { source: src, owner: None, constant: None };
        let mut b = Body { found: take_found(d), fields: SortedMap::new(), methods: list::empty() };
        let ghost s = src.deep_view();
        let ghost first = body_view(b);
        let ghost v = inner_items(t.deep_view(), "body"@);
        if let Some(xs) = read_inner(t, "body") {
            let mut i: usize = 0;
            while i < xs.len()
                invariant
                    i <= xs@.len(),
                    src.wf(),
                    s == src.deep_view(),
                    v == xs.deep_view(),
                    body_from(s, name@, exported, body_view(b), v, i as int) == body_from(
                        s,
                        name@,
                        exported,
                        first,
                        v,
                        0,
                    ),
                decreases xs@.len() - i,
            {
                assert(v[i as int] == xs@[i as int].deep_view());
                element(src, &name, exported, &mut b, &xs[i]);
                i += 1;
            }
        }
        assert(body_view(b) == body_from(s, name@, exported, first, v, 0));
        let ds = decorators(&cx, &mut b.found, t);
        let extends = syntax::read_simple(syntax::read_part(t, "superClass"));
        let id = lower::entity_id(&cx, &name);
        let loc = lower::read_loc(&cx, t);
        let Body { found, fields, methods } = b;
        d.found = found;
        list::push(
            &mut d.classes,
            Class { id, name, extends, fields, methods, exported, loc, decorators: ds },
        );
    }
}

fn function_decl(src: &Source, d: &mut Draft, t: &Tree, exported: bool)
    requires
        src.wf(),
    ensures
        final(d).deep_view() == with_function(
            src.deep_view(),
            old(d).deep_view(),
            t.deep_view(),
            exported,
        ),
{
    if let Some(name) = syntax::read_ident(syntax::read_part(t, "id")) {
        let cx = Around { source: src, owner: None, constant: None };
        lower::function(
            &cx,
            &mut d.found,
            t,
            &name,
            None,
            FunctionKind::Function,
            exported,
            None,
        );
    }
}

fn variable(src: &Source, d: &mut Draft, t: &Tree, exported: bool)
    requires
        src.wf(),
    ensures
        final(d).deep_view() == with_variable(
            src.deep_view(),
            old(d).deep_view(),
            t.deep_view(),
            exported,
        ),
{
    let id = syntax::read_part(t, "id");
    if let (Some(name), Some(binding)) = (syntax::read_ident(id), id) {
        let cx = Around { source: src, owner: None, constant: None };
        let init = syntax::read_part(t, "init");
        match init {
            Some(e) => {
                if syntax::is(e, "ArrowFunctionExpression") {
                    lower::arrow(&cx, &mut d.found, e, &name, exported);
                    return ;
                }
                if syntax::is(e, "FunctionExpression") {
                    lower::function(
                        &cx,
                        &mut d.found,
                        e,
                        &name,
                        None,
                        FunctionKind::Function,
                        exported,
                        None,
                    );
                    return ;
                }
            },
            None => {},
        }
        let named = Around { source: src, owner: None, constant: Some(name.dup()) };
        let value = lower::read_optional(&named, &mut d.found, t, "init");
        let ty = annotations::read_annotation(binding);
        let loc = lower::read_loc(&cx, t);
        list::push(&mut d.consts, Const { name, ty, init: value, exported, loc });
    }
}

fn variables(src: &Source, d: &mut Draft, t: &Tree, exported: bool)
    requires
        src.wf(),
    ensures
        final(d).deep_view() == variables_from(
            src.deep_view(),
            old(d).deep_view(),
            items(t.deep_view(), "declarations"@),
            0,
            exported,
        ),
{
    let ghost s = src.deep_view();
    let ghost first = d.deep_view();
    let ghost v = items(t.deep_view(), "declarations"@);
    if let Some(xs) = syntax::read_list(t, "declarations") {
        let mut i: usize = 0;
        while i < xs.len()
            invariant
                i <= xs@.len(),
                src.wf(),
                s == src.deep_view(),
                v == xs.deep_view(),
                variables_from(s, d.deep_view(), v, i as int, exported) == variables_from(
                    s,
                    first,
                    v,
                    0,
                    exported,
                ),
            decreases xs@.len() - i,
        {
            assert(v[i as int] == xs@[i as int].deep_view());
            variable(src, d, &xs[i], exported);
            i += 1;
        }
    }
}

fn read_declared(t: &Tree) -> (r: String)
    ensures
        r@ == declared_name(t.deep_view()),
{
    match syntax::read_part(t, "id") {
        Some(i) => syntax::read_word(i, "name").to_owned(),
        None => "".to_owned(),
    }
}

fn declares(k: &str) -> (r: bool)
    ensures
        r == lower::declares_function(k@),
{
    text::same(k, "FunctionDeclaration") || text::same(k, "TSDeclareFunction")
}

fn declaration(src: &Source, d: &mut Draft, t: &Tree, exported: bool)
    requires
        src.wf(),
    ensures
        final(d).deep_view() == with_declaration(
            src.deep_view(),
            old(d).deep_view(),
            t.deep_view(),
            exported,
        ),
{
    let k = syntax::read_kind(t);
    if declares(k) {
        function_decl(src, d, t, exported);
    } else if text::same(k, "ClassDeclaration") {
        class(src, d, t, exported);
    } else if text::same(k, "VariableDeclaration") {
        variables(src, d, t, exported);
    } else if text::same(k, "TSEnumDeclaration") {
        let members = match read_inner(t, "members") {
            Some(xs) => read_members(xs),
            None => SortedMap::new(),
        };
        list::push(&mut d.enums, Enum { name: read_declared(t), members });
    } else if text::same(k, "TSInterfaceDeclaration") {
        let fields = match syntax::read_part(t, "body") {
            Some(b) => annotations::read_signatures(b, "body"),
            None => SortedMap::new(),
        };
        list::push(&mut d.interfaces, Interface { name: read_declared(t), fields });
    } else if text::same(k, "TSTypeAliasDeclaration") {
        d.type_aliases.insert(read_declared(t), annotations::read_type_at(t, "typeAnnotation"));
    }
}

fn top_level(src: &Source, d: &mut Draft, t: &Tree)
    requires
        src.wf(),
    ensures
        final(d).deep_view() == with_statement(
            src.deep_view(),
            old(d).deep_view(),
            t.deep_view(),
        ),
{
    let k = syntax::read_kind(t);
    if text::same(k, "ImportDeclaration") {
        import(d, t);
    } else if text::same(k, "ExportNamedDeclaration") {
        if let Some(x) = syntax::read_part(t, "declaration") {
            declaration(src, d, x, true);
        }
    } else if text::same(k, "ExportDefaultDeclaration") {
        if let Some(x) = syntax::read_part(t, "declaration") {
            if declares(syntax::read_kind(x)) {
                function_decl(src, d, x, true);
            } else if syntax::is(x, "ClassDeclaration") {
                class(src, d, x, true);
            }
        }
    } else {
        declaration(src, d, t, false);
    }
}

/// The module of a file with a syntax tree.
pub fn module_with(path: &str, source: &str, errors: Vec<String>, program: &Option<Tree>) -> (r: Module)
    ensures
        r.deep_view() == module_of(path@, source@, errors.deep_view(), program.deep_view()),
{
    let src = Source::new(path, source);
    let ghost s = src.deep_view();
    let mut d = Draft {
        found: Found { functions: list::empty(), counts: SortedMap::new() },
        imports: list::empty(),
        classes: list::empty(),
        enums: list::empty(),
        consts: list::empty(),
        interfaces: list::empty(),
        type_aliases: SortedMap::new(),
    };
    assert(d.deep_view() =~= blank());
    if let Some(p) = program {
        let ghost v = items(p.deep_view(), "body"@);
        if let Some(xs) = syntax::read_list(p, "body") {
            let mut i: usize = 0;
            while i < xs.len()
                invariant
                    i <= xs@.len(),
                    src.wf(),
                    s == src.deep_view(),
                    v == xs.deep_view(),
                    statements_from(s, d.deep_view(), v, i as int) == statements_from(
                        s,
                        blank(),
                        v,
                        0,
                    ),
                decreases xs@.len() - i,
            {
                assert(v[i as int] == xs@[i as int].deep_view());
                top_level(&src, &mut d, &xs[i]);
                i += 1;
            }
        }
    }
    Module {
        path: path.to_owned(),
        imports: d.imports,
        classes: d.classes,
        functions: d.found.functions,
        enums: d.enums,
        consts: d.consts,
        interfaces: d.interfaces,
        type_aliases: d.type_aliases,
        parse_errors: errors,
    }
}

// ---- parsing

#[verifier::external_type_specification]
#[verifier::external_body]
pub struct ExSourceType(oxc_span::SourceType);

/// The four fields of a source type (language, module kind, variant and file extension) as
/// `Debug` shows them, with a blank between them.
pub uninterp spec fn language(t: oxc_span::SourceType) -> Seq<char>;

/// The language that `oxc_span::SourceType::from_path` finds for a path, if it knows the
/// extension of the file.
pub uninterp spec fn path_language(path: Seq<char>) -> Option<Seq<char>>;

/// Calls `oxc_span::SourceType::from_path`. The result depends on the path only, and no file is
/// read.
#[verifier::external_body]
fn language_of(path: &str) -> (r: Option<oxc_span::SourceType>)
    ensures
        match r {
            Some(t) => path_language(path@) == Some(language(t)),
            None => path_language(path@) is None,
        },
{
    oxc_span::SourceType::from_path(path).ok()
}

/// Calls `oxc_span::SourceType::ts`: TypeScript, a module or a script as the text shows, without
/// JSX and of no particular file.
#[verifier::external_body]
fn typescript() -> (r: oxc_span::SourceType)
    ensures
        language(r) == "TypeScript Unambiguous Standard None"@,
{
    oxc_span::SourceType::ts()
}

/// The messages and the syntax tree that `oxc_parser` gives for a text in a language: each
/// message as `Display` shows it, the tree in the JSON form of `Program::to_estree_json` with the
/// fields of TypeScript and without ranges.
pub uninterp spec fn syntax_tree(language: Seq<char>, source: Seq<char>) -> (
    Seq<Seq<char>>,
    Seq<char>,
);

/// Parses a text. Calls `oxc_parser::Parser::parse` and, on the program it gives,
/// `Program::to_estree_json`. The result depends on the language and the text only. How the trees of
/// two texts are related, such as those of a text with and without a comment in front of it, is
/// left unsaid.
#[verifier::external_body]
fn parse_source(t: oxc_span::SourceType, source: &str) -> (r: (Vec<String>, String))
    ensures
        (r.0.deep_view(), r.1@) == syntax_tree(language(t), source@),
{
    let allocator = oxc_allocator::Allocator::default();
    let parsed = oxc_parser::Parser::new(&allocator, source, t).parse();
    let messages = parsed.diagnostics.iter().map(|d| d.to_string()).collect();
    (messages, parsed.program.to_estree_json(true, false))
}

/// The language of a file: what its path tells, and TypeScript where it tells none.
pub open spec fn source_language(path: Text) -> Text {
    match path_language(path) {
        Some(l) => l,
        None => "TypeScript Unambiguous Standard None"@,
    }
}

/// The document that `serde_json` reads from a text of any depth.
pub uninterp spec fn deep_document(text: Seq<char>) -> Option<TreeView>;

/// Reads a JSON text of any depth. Calls `Deserialize::deserialize` for `serde_json::Value` on a
/// `serde_json::Deserializer` without recursion limit; the result depends on the text only.
#[verifier::external_body]
fn deep_value(text: &str) -> (r: Option<serde_json::Value>)
    ensures
        match r {
            Some(v) => deep_document(text@) == Some(tree::json_contents(v)),
            None => deep_document(text@) is None,
        },
{
    let mut reader = serde_json::Deserializer::from_str(text);
    reader.disable_recursion_limit();
    <serde_json::Value as serde::Deserialize>::deserialize(&mut reader).ok()
}

/// A digit of a hexadecimal number that can follow `d` in half of a surrogate pair.
pub open spec fn is_surrogate_digit(c: char) -> bool {
    c == '8' || c == '9' || ('a' <= c && c <= 'f')
}

/// Half of a surrogate pair is escaped at index `i`.
pub open spec fn surrogate_at(s: Text, i: int) -> bool {
    0 <= i && i + 3 < s.len() && s[i] == '\\' && s[i + 1] == 'u' && s[i + 2] == 'd'
        && is_surrogate_digit(s[i + 3])
}

/// The string of a JSON text that goes on at index `i` escapes half of a surrogate pair.
pub open spec fn is_torn(s: Text, i: int) -> bool
    decreases s.len() - i,
{
    if 0 <= i < s.len() {
        if surrogate_at(s, i) {
            true
        } else if s[i] == '\\' && i + 1 < s.len() {
            is_torn(s, i + 2)
        } else {
            s[i] != '"' && is_torn(s, i + 1)
        }
    } else {
        false
    }
}

/// A JSON text from index `i` on, `inside` a string or not. In a string that is `torn`, the
/// replacement character stands for the escape of each half of a surrogate pair, whose digits
/// stay, and a replacement character gets the digits of its own.
pub open spec fn mended_from(s: Text, i: int, inside: bool, torn: bool) -> Text
    decreases s.len() - i,
{
    if 0 <= i < s.len() {
        if !inside {
            seq![s[i]] + mended_from(s, i + 1, s[i] == '"', s[i] == '"' && is_torn(s, i + 1))
        } else if surrogate_at(s, i) {
            seq!['\u{fffd}'] + mended_from(s, i + 2, true, torn)
        } else if s[i] == '\\' && i + 1 < s.len() {
            seq![s[i], s[i + 1]] + mended_from(s, i + 2, true, torn)
        } else if s[i] == '\u{fffd}' && torn {
            seq!['\u{fffd}', 'f', 'f', 'f', 'd'] + mended_from(s, i + 1, true, torn)
        } else {
            seq![s[i]] + mended_from(s, i + 1, s[i] != '"', torn)
        }
    } else {
        seq![]
    }
}

/// A JSON text as `serde_json` can read it, with each string as the parser holds it.
pub open spec fn mended(s: Text) -> Text {
    mended_from(s, 0, false, false)
}

fn half_pair(v: &Vec<char>, i: usize) -> (r: bool)
    requires
        i < v@.len(),
    ensures
        r == surrogate_at(v@, i as int),
{
    v.len() - i > 3 && v[i] == '\\' && v[i + 1] == 'u' && v[i + 2] == 'd' && (v[i + 3] == '8' || v[i
        + 3] == '9' || ('a' <= v[i + 3] && v[i + 3] <= 'f'))
}

fn torn_at(v: &Vec<char>, i: usize) -> (r: bool)
    requires
        i <= v@.len(),
    ensures
        r == is_torn(v@, i as int),
{
    let n: usize = v.len();
    let mut j: usize = i;
    while j < n
        invariant
            j <= n,
            n == v@.len(),
            is_torn(v@, i as int) == is_torn(v@, j as int),
        decreases n - j,
    {
        if half_pair(v, j) {
            return true;
        }
        if v[j] == '\\' && n - j > 1 {
            j += 2;
        } else if v[j] == '"' {
            return false;
        } else {
            j += 1;
        }
    }
    false
}

fn mend(s: &str) -> (r: String)
    ensures
        r@ == mended(s@),
{
    let v = text::chars_of(s);
    let n: usize = v.len();
    let mut out: Vec<char> = Vec::new();
    let mut i: usize = 0;
    let mut inside = false;
    let mut torn = false;
    while i < n
        invariant
            i <= n,
            n == v@.len(),
            v@ == s@,
            out@ + mended_from(v@, i as int, inside, torn) == mended(s@),
        decreases n - i,
    {
        let ghost before = out@;
        let c = v[i];
        if !inside {
            out.push(c);
            assert(out@ =~= before + seq![v@[i as int]]);
            inside = c == '"';
            torn = inside && torn_at(&v, i + 1);
            i += 1;
        } else if half_pair(&v, i) {
            out.push('\u{fffd}');
            assert(out@ =~= before + seq!['\u{fffd}']);
            i += 2;
        } else if c == '\\' && n - i > 1 {
            out.push(c);
            out.push(v[i + 1]);
            assert(out@ =~= before + seq![v@[i as int], v@[i + 1]]);
            i += 2;
        } else if c == '\u{fffd}' && torn {
            out.push(c);
            out.push('f');
            out.push('f');
            out.push('f');
            out.push('d');
            assert(out@ =~= before + seq!['\u{fffd}', 'f', 'f', 'f', 'd']);
            i += 1;
        } else {
            out.push(c);
            assert(out@ =~= before + seq![v@[i as int]]);
            inside = c != '"';
            i += 1;
        }
    }
    assert(out@ =~= mended(s@));
    text::text_of(&out, 0, out.len())
}

/// The module of a file.
pub open spec fn lowered(path: Text, source: Text) -> ModuleView {
    let (errors, json) = syntax_tree(source_language(path), source);
    module_of(path, source, errors, deep_document(mended(json)))
}

/// Lowers a source file.
pub fn lower_module(path: &str, text: &str) -> (r: Module)
    ensures
        r.deep_view() == lowered(path@, text@),
{
    let language = match language_of(path) {
        Some(t) => t,
        None => typescript(),
    };
    let (errors, json) = parse_source(language, text);
    let program = match deep_value(&mend(&json)) {
        Some(v) => Some(tree::json_tree(v)),
        None => None,
    };
    module_with(path, text, errors, &program)
}

// ---- programs

/// A program with the files from index `i` on.
pub open spec fn program_from(files: Seq<(Text, Text)>, i: int, acc: ProgramView) -> ProgramView
    decreases files.len() - i,
{
    if 0 <= i < files.len() {
        program_from(
            files,
            i + 1,
            if aliases::is_source(files[i].0) {
                ProgramView {
                    modules: ordered::put(
                        acc.modules,
                        files[i].0,
                        lowered(files[i].0, files[i].1),
                    ),
                    ..acc
                }
            } else if aliases::is_config(files[i].0) {
                ProgramView {
                    aliases: acc.aliases + aliases::config_aliases(
                        files[i].0,
                        tree::json_document(aliases::bare_json(files[i].1)),
                    ),
                    ..acc
                }
            } else {
                acc
            },
        )
    } else {
        acc
    }
}

/// The structural program of a set of files.
pub open spec fn program_of(files: Seq<(Text, Text)>) -> ProgramView {
    program_from(files, 0, ProgramView { modules: seq![], aliases: seq![] })
}

/// Lowers a set of source files (path to text) into a structural program.
pub fn lower_program(files: &SortedMap<String, String>) -> (r: Program)
    ensures
        r.deep_view() == program_of(files.deep_view()),
{
    let ghost v = files.deep_view();
    let mut p = Program { modules: SortedMap::new(), aliases: list::empty() };
    assert(p.deep_view() =~= (ProgramView { modules: seq![], aliases: seq![] }));
    let mut i: usize = 0;
    while i < files.len()
        invariant
            i <= v.len(),
            v == files.deep_view(),
            program_from(v, i as int, p.deep_view()) == program_of(v),
        decreases v.len() - i,
    {
        let path = files.key(i);
        let source = files.value(i);
        assert(v[i as int] == (path@, source@));
        if aliases::is_supported(path) {
            p.modules.insert(path.dup(), lower_module(path, source));
        } else if aliases::is_project_config(path) {
            list::append(&mut p.aliases, aliases::path_aliases(path, source));
        }
        i += 1;
    }
    p
}

} // verus!
