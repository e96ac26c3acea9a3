//! Type annotations of a syntax tree, reduced to what resolution needs.

use crate::ir;
use crate::ir::{Param, ParamView, TypeRef, TypeRefView};
use crate::list;
use crate::list::Plain;
use crate::ordered;
use crate::ordered::SortedMap;
use crate::syntax;
use crate::syntax::{items, items_fit, kind, part, parts_fit, size, sizes, word};
use crate::text;
use crate::text::Text;
use crate::tree::{Tree, TreeView};
use vstd::prelude::*;

verus! {

/// The name of a type, with its qualifiers.
pub open spec fn full_name(t: TreeView) -> Text
    decreases size(t),
{
    proof {
        parts_fit(t);
    }
    if kind(t) == "TSQualifiedName"@ {
        (match part(t, "left"@) {
            Some(l) => full_name(l),
            None => ""@,
        }) + "."@ + (match part(t, "right"@) {
            Some(r) => word(r, "name"@),
            None => ""@,
        })
    } else if kind(t) == "ThisExpression"@ {
        "this"@
    } else {
        word(t, "name"@)
    }
}

/// The primitive type that a keyword stands for.
pub open spec fn primitive(k: Text) -> TypeRefView {
    if k == "TSStringKeyword"@ {
        TypeRefView::Primitive("string"@)
    } else if k == "TSNumberKeyword"@ {
        TypeRefView::Primitive("number"@)
    } else if k == "TSBooleanKeyword"@ {
        TypeRefView::Primitive("boolean"@)
    } else if k == "TSNullKeyword"@ {
        TypeRefView::Primitive("null"@)
    } else if k == "TSUndefinedKeyword"@ {
        TypeRefView::Primitive("undefined"@)
    } else if k == "TSVoidKeyword"@ {
        TypeRefView::Primitive("void"@)
    } else {
        TypeRefView::Unknown
    }
}

/// The single string literals among the types from index `i` on.
pub open spec fn literals_from(parts: Seq<TypeRefView>, i: int) -> Seq<Text>
    decreases parts.len() - i,
{
    if 0 <= i < parts.len() {
        (match parts[i] {
            TypeRefView::StringLiterals(v) => if v.len() == 1 {
                seq![v[0]]
            } else {
                seq![]
            },
            _ => seq![],
        }) + literals_from(parts, i + 1)
    } else {
        seq![]
    }
}

/// A union; one of string literals only is the list of the literals.
pub open spec fn union_of(parts: Seq<TypeRefView>) -> TypeRefView {
    if literals_from(parts, 0).len() == parts.len() {
        TypeRefView::StringLiterals(literals_from(parts, 0))
    } else {
        TypeRefView::Union(parts)
    }
}

/// The type that a node stands for.
pub open spec fn type_of(t: TreeView) -> TypeRefView
    decreases size(t), 1int,
{
    proof {
        parts_fit(t);
    }
    let k = kind(t);
    if k == "TSTypeReference"@ {
        TypeRefView::Named(
            match part(t, "typeName"@) {
                Some(n) => full_name(n),
                None => ""@,
            },
            match part(t, "typeArguments"@) {
                Some(a) => {
                    proof {
                        parts_fit(a);
                    }
                    types_from(items(a, "params"@), 0)
                },
                None => seq![],
            },
        )
    } else if k == "TSArrayType"@ {
        TypeRefView::Array(Box::new(type_at(t, "elementType"@)))
    } else if k == "TSUnionType"@ {
        union_of(types_from(items(t, "types"@), 0))
    } else if k == "TSLiteralType"@ {
        match syntax::string_literal(part(t, "literal"@)) {
            Some(s) => TypeRefView::StringLiterals(seq![s]),
            None => TypeRefView::Primitive("literal"@),
        }
    } else if k == "TSParenthesizedType"@ {
        type_at(t, "typeAnnotation"@)
    } else if k == "TSTypeLiteral"@ {
        TypeRefView::Object(signatures_from(items(t, "members"@), 0, seq![]))
    } else {
        primitive(k)
    }
}

/// The type under a key.
pub open spec fn type_at(t: TreeView, key: Text) -> TypeRefView
    decreases size(t), 0int,
{
    proof {
        parts_fit(t);
    }
    match part(t, key) {
        Some(x) => type_of(x),
        None => TypeRefView::Unknown,
    }
}

/// The types from index `i` on.
pub open spec fn types_from(xs: Seq<TreeView>, i: int) -> Seq<TypeRefView>
    decreases sizes(xs, 0), 10 + xs.len() - i,
{
    proof {
        items_fit(xs);
    }
    if 0 <= i < xs.len() {
        seq![type_of(xs[i])] + types_from(xs, i + 1)
    } else {
        seq![]
    }
}

/// The type that the annotation of a node gives.
pub open spec fn annotation(t: TreeView) -> Option<TypeRefView>
    decreases size(t), 2int,
{
    proof {
        parts_fit(t);
    }
    match part(t, "typeAnnotation"@) {
        Some(a) => Some(type_at(a, "typeAnnotation"@)),
        None => None,
    }
}

/// The fields that the signatures from index `i` on declare.
pub open spec fn signatures_from(xs: Seq<TreeView>, i: int, acc: Seq<(Text, TypeRefView)>) -> Seq<
    (Text, TypeRefView),
>
    decreases sizes(xs, 0), 10 + xs.len() - i,
{
    proof {
        items_fit(xs);
    }
    if 0 <= i < xs.len() {
        signatures_from(
            xs,
            i + 1,
            if kind(xs[i]) == "TSPropertySignature"@ {
                match syntax::key_name(xs[i]) {
                    Some(name) => ordered::put(
                        acc,
                        name,
                        match annotation(xs[i]) {
                            Some(ty) => ty,
                            None => TypeRefView::Unknown,
                        },
                    ),
                    None => acc,
                }
            } else {
                acc
            },
        )
    } else {
        acc
    }
}

/// The type that a function returns, as annotated.
pub open spec fn return_type(t: TreeView) -> Option<TypeRefView> {
    match part(t, "returnType"@) {
        Some(a) => Some(type_at(a, "typeAnnotation"@)),
        None => None,
    }
}

/// The parameter of a node of a parameter list; none for a rest element and for `this`.
pub open spec fn parameter(t: TreeView) -> Option<ParamView> {
    let inner = if kind(t) == "TSParameterProperty"@ {
        part(t, "parameter"@)
    } else {
        Some(t)
    };
    match inner {
        Some(p) => if kind(p) == "RestElement"@ || syntax::ident(Some(p)) == Some("this"@) {
            None
        } else {
            match syntax::bound(p) {
                Some(b) => Some(
                    ParamView {
                        name: match syntax::ident(Some(b)) {
                            Some(n) => n,
                            None => "_"@,
                        },
                        ty: annotation(b),
                    },
                ),
                None => None,
            }
        },
        None => None,
    }
}

/// The parameters from index `i` on.
pub open spec fn params_from(xs: Seq<TreeView>, i: int) -> Seq<ParamView>
    decreases xs.len() - i,
{
    if 0 <= i < xs.len() {
        (match parameter(xs[i]) {
            Some(p) => seq![p],
            None => seq![],
        }) + params_from(xs, i + 1)
    } else {
        seq![]
    }
}

/// The field that a parameter property declares: one with an access modifier or `readonly`, and a
/// name.
pub open spec fn property_field(t: TreeView) -> Option<(Text, TypeRefView)> {
    if kind(t) == "TSParameterProperty"@ && (part(t, "accessibility"@) is Some || syntax::flag(
        t,
        "readonly"@,
    )) {
        match part(t, "parameter"@) {
            Some(p) => match syntax::bound(p) {
                Some(b) => match syntax::ident(Some(b)) {
                    Some(n) => Some(
                        (
                            n,
                            match annotation(b) {
                                Some(ty) => ty,
                                None => TypeRefView::Unknown,
                            },
                        ),
                    ),
                    None => None,
                },
                None => None,
            },
            None => None,
        }
    } else {
        None
    }
}

// ---- reading

fn read_type_name(t: &Tree) -> (r: String)
    ensures
        r@ == full_name(t.deep_view()),
    decreases size(t.deep_view()),
{
    proof {
        parts_fit(t.deep_view());
    }
    if syntax::is(t, "TSQualifiedName") {
        let left = match syntax::read_part(t, "left") {
            Some(l) => read_type_name(l),
            None => "".to_owned(),
        };
        match syntax::read_part(t, "right") {
            Some(r) => text::cat3(&left, ".", syntax::read_word(r, "name")),
            None => text::cat3(&left, ".", ""),
        }
    } else if syntax::is(t, "ThisExpression") {
        "this".to_owned()
    } else {
        syntax::read_word(t, "name").to_owned()
    }
}

fn read_primitive(k: &str) -> (r: TypeRef)
    ensures
        r.deep_view() == primitive(k@),
{
    if text::same(k, "TSStringKeyword") {
        TypeRef::Primitive("string".to_owned())
    } else if text::same(k, "TSNumberKeyword") {
        TypeRef::Primitive("number".to_owned())
    } else if text::same(k, "TSBooleanKeyword") {
        TypeRef::Primitive("boolean".to_owned())
    } else if text::same(k, "TSNullKeyword") {
        TypeRef::Primitive("null".to_owned())
    } else if text::same(k, "TSUndefinedKeyword") {
        TypeRef::Primitive("undefined".to_owned())
    } else if text::same(k, "TSVoidKeyword") {
        TypeRef::Primitive("void".to_owned())
    } else {
        TypeRef::Unknown
    }
}

fn read_union(parts: Vec<TypeRef>) -> (r: TypeRef)
    ensures
        r.deep_view() == union_of(parts.deep_view()),
{
    let ghost v = parts.deep_view();
    let mut lits: Vec<String> = list::empty();
    let mut i: usize = 0;
    while i < parts.len()
        invariant
            i <= parts@.len(),
            v == parts.deep_view(),
            lits.deep_view() + literals_from(v, i as int) == literals_from(v, 0),
        decreases parts@.len() - i,
    {
        assert(v[i as int] == parts@[i as int].deep_view());
        if let TypeRef::StringLiterals(xs) = &parts[i] {
            if xs.len() == 1 {
                list::push(&mut lits, xs[0].dup());
            }
        }
        i += 1;
    }
    if lits.len() == parts.len() {
        TypeRef::StringLiterals(lits)
    } else {
        proof {
            ir::type_ref_list_view_is_deep(parts);
        }
        TypeRef::Union(parts)
    }
}

/// Reads the type that a node stands for.
pub fn read_type(t: &Tree) -> (r: TypeRef)
    ensures
        r.deep_view() == type_of(t.deep_view()),
    decreases size(t.deep_view()), 1int,
{
    broadcast use {ir::type_ref_list_view_is_deep, ir::type_ref_fields_view_is_deep};

    proof {
        parts_fit(t.deep_view());
    }
    let k = syntax::read_kind(t);
    if text::same(k, "TSTypeReference") {
        let name = match syntax::read_part(t, "typeName") {
            Some(n) => read_type_name(n),
            None => "".to_owned(),
        };
        let args = match syntax::read_part(t, "typeArguments") {
            Some(a) => {
                proof {
                    parts_fit(a.deep_view());
                }
                read_types(a, "params")
            },
            None => list::empty(),
        };
        TypeRef::Named(name, args)
    } else if text::same(k, "TSArrayType") {
        TypeRef::Array(Box::new(read_type_at(t, "elementType")))
    } else if text::same(k, "TSUnionType") {
        read_union(read_types(t, "types"))
    } else if text::same(k, "TSLiteralType") {
        match syntax::read_string(syntax::read_part(t, "literal")) {
            Some(s) => TypeRef::StringLiterals(list::one(s)),
            None => TypeRef::Primitive("literal".to_owned()),
        }
    } else if text::same(k, "TSParenthesizedType") {
        read_type_at(t, "typeAnnotation")
    } else if text::same(k, "TSTypeLiteral") {
        let fields = read_signatures(t, "members");
        TypeRef::Object(entries(&fields))
    } else {
        read_primitive(k)
    }
}

/// Reads the type annotation under `key`.
pub fn read_type_at(t: &Tree, key: &str) -> (r: TypeRef)
    ensures
        r.deep_view() == type_at(t.deep_view(), key@),
    decreases size(t.deep_view()), 0int,
{
    proof {
        parts_fit(t.deep_view());
    }
    match syntax::read_part(t, key) {
        Some(x) => read_type(x),
        None => TypeRef::Unknown,
    }
}

fn read_types(t: &Tree, key: &str) -> (r: Vec<TypeRef>)
    ensures
        r.deep_view() == types_from(items(t.deep_view(), key@), 0),
    decreases sizes(items(t.deep_view(), key@), 0), 10int,
{
    let ghost v = items(t.deep_view(), key@);
    let mut out: Vec<TypeRef> = list::empty();
    if let Some(xs) = syntax::read_list(t, key) {
        let mut i: usize = 0;
        while i < xs.len()
            invariant
                i <= xs@.len(),
                v == xs.deep_view(),
                v == items(t.deep_view(), key@),
                out.deep_view() + types_from(v, i as int) == types_from(v, 0),
            decreases xs@.len() - i,
        {
            assert(v[i as int] == xs@[i as int].deep_view());
            proof {
                items_fit(v);
            }
            list::push(&mut out, read_type(&xs[i]));
            i += 1;
        }
    }
    out
}

/// Reads the annotation of a node.
pub fn read_annotation(t: &Tree) -> (r: Option<TypeRef>)
    ensures
        r.deep_view() == annotation(t.deep_view()),
    decreases size(t.deep_view()), 2int,
{
    proof {
        parts_fit(t.deep_view());
    }
    match syntax::read_part(t, "typeAnnotation") {
        Some(a) => Some(read_type_at(a, "typeAnnotation")),
        None => None,
    }
}

/// The fields of a map as a list.
fn entries(m: &SortedMap<String, TypeRef>) -> (r: Vec<(String, TypeRef)>)
    ensures
        r.deep_view() == m.deep_view(),
{
    let ghost v = m.deep_view();
    let mut out: Vec<(String, TypeRef)> = list::empty();
    let mut i: usize = 0;
    while i < m.len()
        invariant
            i <= v.len(),
            v == m.deep_view(),
            out.deep_view() == v.take(i as int),
        decreases v.len() - i,
    {
        list::push(&mut out, (m.key(i).dup(), m.value(i).dup()));
        i += 1;
        assert(out.deep_view() =~= v.take(i as int));
    }
    assert(v.take(v.len() as int) =~= v);
    out
}

/// Reads the fields that a list of signatures declares.
pub fn read_signatures(t: &Tree, key: &str) -> (r: SortedMap<String, TypeRef>)
    ensures
        r.deep_view() == signatures_from(items(t.deep_view(), key@), 0, seq![]),
    decreases sizes(items(t.deep_view(), key@), 0), 10int,
{
    let ghost v = items(t.deep_view(), key@);
    let mut out: SortedMap<String, TypeRef> = SortedMap::new();
    if let Some(xs) = syntax::read_list(t, key) {
        let mut i: usize = 0;
        while i < xs.len()
            invariant
                i <= xs@.len(),
                v == xs.deep_view(),
                v == items(t.deep_view(), key@),
                signatures_from(v, i as int, out.deep_view()) == signatures_from(v, 0, seq![]),
            decreases xs@.len() - i,
        {
            assert(v[i as int] == xs@[i as int].deep_view());
            proof {
                items_fit(v);
            }
            if syntax::is(&xs[i], "TSPropertySignature") {
                if let Some(name) = syntax::read_key(&xs[i]) {
                    let ty = match read_annotation(&xs[i]) {
                        Some(ty) => ty,
                        None => TypeRef::Unknown,
                    };
                    out.insert(name, ty);
                }
            }
            i += 1;
        }
    }
    out
}

/// Reads the type that a function returns.
pub fn read_return(t: &Tree) -> (r: Option<TypeRef>)
    ensures
        r.deep_view() == return_type(t.deep_view()),
{
    match syntax::read_part(t, "returnType") {
        Some(a) => Some(read_type_at(a, "typeAnnotation")),
        None => None,
    }
}

fn read_parameter(t: &Tree) -> (r: Option<Param>)
    ensures
        r.deep_view() == parameter(t.deep_view()),
{
    let inner = if syntax::is(t, "TSParameterProperty") {
        syntax::read_part(t, "parameter")
    } else {
        Some(t)
    };
    match inner {
        Some(p) => {
            let own = match syntax::read_ident(Some(p)) {
                Some(n) => text::same(&n, "this"),
                None => false,
            };
            if syntax::is(p, "RestElement") || own {
                None
            } else {
                match syntax::read_bound(p) {
                    Some(b) => {
                        let name = match syntax::read_ident(Some(b)) {
                            Some(n) => n,
                            None => "_".to_owned(),
                        };
                        Some(Param { name, ty: read_annotation(b) })
                    },
                    None => None,
                }
            }
        },
        None => None,
    }
}

/// Reads the parameters of a function.
pub fn read_params(t: &Tree) -> (r: Vec<Param>)
    ensures
        r.deep_view() == params_from(items(t.deep_view(), "params"@), 0),
{
    let ghost v = items(t.deep_view(), "params"@);
    let mut out: Vec<Param> = list::empty();
    if let Some(xs) = syntax::read_list(t, "params") {
        let mut i: usize = 0;
        while i < xs.len()
            invariant
                i <= xs@.len(),
                v == xs.deep_view(),
                out.deep_view() + params_from(v, i as int) == params_from(v, 0),
            decreases xs@.len() - i,
        {
            assert(v[i as int] == xs@[i as int].deep_view());
            if let Some(p) = read_parameter(&xs[i]) {
                list::push(&mut out, p);
            }
            i += 1;
        }
    }
    out
}

/// Reads the field that a parameter property declares.
pub fn read_property_field(t: &Tree) -> (r: Option<(String, TypeRef)>)
    ensures
        r.deep_view() == property_field(t.deep_view()),
{
    if syntax::is(t, "TSParameterProperty") && (syntax::read_part(t, "accessibility").is_some()
        || syntax::read_flag(t, "readonly")) {
        match syntax::read_part(t, "parameter") {
            Some(p) => match syntax::read_bound(p) {
                Some(b) => match syntax::read_ident(Some(b)) {
                    Some(n) => {
                        let ty = match read_annotation(b) {
                            Some(ty) => ty,
                            None => TypeRef::Unknown,
                        };
                        Some((n, ty))
                    },
                    None => None,
                },
                None => None,
            },
            None => None,
        }
    } else {
        None
    }
}

} // verus!
