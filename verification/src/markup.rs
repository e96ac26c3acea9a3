//! Texts of types, and what markup renders.

use crate::ir::{
    class_attr, expr_list_view, jsx_view, type_ref_fields_view, type_ref_list_view, Expr, ExprView,
    LogicOp, TypeRef, TypeRefView,
};
use crate::list;
use crate::list::Plain;
use crate::model::{Rendered, RenderedView};
use crate::text;
use crate::text::Text;
use crate::typing::{expr_text, render};
use vstd::prelude::*;

verus! {

// ---- types

/// The texts of the types from index `i` on.
pub open spec fn type_texts(ts: Seq<TypeRefView>, i: int) -> Seq<Text>
    decreases ts, ts.len() - i,
{
    if 0 <= i < ts.len() {
        seq![written_type(ts[i])] + type_texts(ts, i + 1)
    } else {
        seq![]
    }
}

/// The texts `field: type` of the fields from index `i` on.
pub open spec fn type_field_texts(fs: Seq<(Text, TypeRefView)>, i: int) -> Seq<Text>
    decreases fs, fs.len() - i,
{
    if 0 <= i < fs.len() {
        seq![fs[i].0 + ": "@ + written_type(fs[i].1)] + type_field_texts(fs, i + 1)
    } else {
        seq![]
    }
}

/// The values from index `i` on in quotes.
pub open spec fn quoted_all(vs: Seq<Text>, i: int) -> Seq<Text>
    decreases vs.len() - i,
{
    if 0 <= i < vs.len() {
        seq![text::quoted(vs[i])] + quoted_all(vs, i + 1)
    } else {
        seq![]
    }
}

/// A type as written: `Promise<Order>`, `string[]`, `"ADMIN" | "MANAGER"`.
pub open spec fn written_type(t: TypeRefView) -> Text
    decreases t, 0int,
{
    match t {
        TypeRefView::Named(n, args) => if args.len() == 0 {
            n
        } else {
            n + "<"@ + text::joined(type_texts(args, 0), ", "@) + ">"@
        },
        TypeRefView::Array(el) => written_type(*el) + "[]"@,
        TypeRefView::StringLiterals(vs) => text::joined(quoted_all(vs, 0), " | "@),
        TypeRefView::Union(ts) => text::joined(type_texts(ts, 0), " | "@),
        TypeRefView::Object(fs) => "{ "@ + text::joined(type_field_texts(fs, 0), "; "@) + " }"@,
        TypeRefView::Primitive(p) => p,
        TypeRefView::Unknown => "?"@,
    }
}

fn types_text(ts: &Vec<TypeRef>) -> (r: Vec<String>)
    ensures
        r.deep_view() == type_texts(type_ref_list_view(ts@), 0),
    decreases ts,
{
    let ghost v = type_ref_list_view(ts@);
    let mut out: Vec<String> = list::empty();
    let mut i: usize = 0;
    while i < ts.len()
        invariant
            i <= ts@.len(),
            v == type_ref_list_view(ts@),
            out.deep_view() + type_texts(v, i as int) == type_texts(v, 0),
        decreases ts@.len() - i,
    {
        list::push(&mut out, type_text(&ts[i]));
        i += 1;
    }
    out
}

fn fields_text(fs: &Vec<(String, TypeRef)>) -> (r: Vec<String>)
    ensures
        r.deep_view() == type_field_texts(type_ref_fields_view(fs@), 0),
    decreases fs,
{
    let ghost v = type_ref_fields_view(fs@);
    let mut out: Vec<String> = list::empty();
    let mut i: usize = 0;
    while i < fs.len()
        invariant
            i <= fs@.len(),
            v == type_ref_fields_view(fs@),
            out.deep_view() + type_field_texts(v, i as int) == type_field_texts(v, 0),
        decreases fs@.len() - i,
    {
        list::push(&mut out, text::cat3(&fs[i].0, ": ", &type_text(&fs[i].1)));
        i += 1;
    }
    out
}

fn quote_all(vs: &Vec<String>) -> (r: Vec<String>)
    ensures
        r.deep_view() == quoted_all(vs.deep_view(), 0),
{
    let mut out: Vec<String> = list::empty();
    let mut i: usize = 0;
    while i < vs.len()
        invariant
            i <= vs@.len(),
            out.deep_view() + quoted_all(vs.deep_view(), i as int) == quoted_all(
                vs.deep_view(),
                0,
            ),
        decreases vs@.len() - i,
    {
        list::push(&mut out, text::quote(&vs[i]));
        i += 1;
    }
    out
}

/// A type as written: `Promise<Order>`, `string[]`, `"ADMIN" | "MANAGER"`.
pub fn type_text(t: &TypeRef) -> (r: String)
    ensures
        r@ == written_type(t.deep_view()),
    decreases t,
{
    match t {
        TypeRef::Named(n, args) => {
            let ghost av = type_ref_list_view(args@);
            if args.len() == 0 {
                n.dup()
            } else {
                text::cat4(n, "<", &text::join(&types_text(args), ", "), ">")
            }
        },
        TypeRef::Array(el) => text::cat2(&type_text(el), "[]"),
        TypeRef::StringLiterals(vs) => text::join(&quote_all(vs), " | "),
        TypeRef::Union(ts) => text::join(&types_text(ts), " | "),
        TypeRef::Object(fs) => text::cat3("{ ", &text::join(&fields_text(fs), "; "), " }"),
        TypeRef::Primitive(p) => p.dup(),
        TypeRef::Unknown => "?".to_owned(),
    }
}

// ---- markup

/// An expression that can give markup.
pub open spec fn gives_markup(e: ExprView) -> bool
    decreases e,
{
    match e {
        ExprView::Jsx(_) => true,
        ExprView::Logical { op, left, right } => gives_markup(*right),
        ExprView::Conditional { test, then, otherwise } => gives_markup(*then) || gives_markup(
            *otherwise,
        ),
        _ => false,
    }
}

/// Each of the words from index `i` on with a dot before it.
pub open spec fn dotted(ws: Seq<Text>, i: int) -> Text
    decreases ws.len() - i,
{
    if 0 <= i < ws.len() {
        "."@ + ws[i] + dotted(ws, i + 1)
    } else {
        seq![]
    }
}

/// The element around a piece of content, with its classes.
pub open spec fn element_style(tag: Text, attrs: Seq<(Text, ExprView)>) -> Text {
    match class_attr(attrs, 0) {
        Some(c) => tag + dotted(text::words(c), 0),
        None => tag,
    }
}

/// What the children from index `i` on render.
pub open spec fn children_parts(
    cs: Seq<ExprView>,
    style: Text,
    when: Seq<Text>,
    i: int,
) -> Seq<RenderedView>
    decreases cs, cs.len() - i,
{
    if 0 <= i < cs.len() {
        markup_parts(cs[i], style, when) + children_parts(cs, style, when, i + 1)
    } else {
        seq![]
    }
}

/// What markup renders: each piece of content with the element around it and the conditions
/// (`a && <x/>`, `a ? <x/> : <y/>`) that show it.
pub open spec fn markup_parts(e: ExprView, style: Text, when: Seq<Text>) -> Seq<RenderedView>
    decreases e, 0int,
{
    let shown = text::joined(when, " ∧ "@);
    match e {
        ExprView::Jsx(j) => {
            let inner = if j.tag.len() == 0 {
                style
            } else {
                element_style(j.tag, j.attrs)
            };
            (if j.children.len() == 0 && j.tag.len() > 0 {
                seq![RenderedView { content: "<"@ + j.tag + ">"@, style: inner, when: shown }]
            } else {
                seq![]
            }) + children_parts(j.children, inner, when, 0)
        },
        ExprView::Logical { op, left, right } => if op == LogicOp::And && gives_markup(*right) {
            markup_parts(*right, style, when.push(expr_text(*left)))
        } else {
            value_part(e, style, shown)
        },
        ExprView::Conditional { test, then, otherwise } => if gives_markup(*then) || gives_markup(
            *otherwise,
        ) {
            markup_parts(*then, style, when.push(expr_text(*test))) + markup_parts(
                *otherwise,
                style,
                when.push("!("@ + expr_text(*test) + ")"@),
            )
        } else {
            value_part(e, style, shown)
        },
        ExprView::Str(s) => if style.len() > 0 {
            seq![RenderedView { content: text::quoted(s), style, when: shown }]
        } else {
            seq![]
        },
        ExprView::Null => seq![],
        ExprView::Undefined => seq![],
        ExprView::Bool(_) => seq![],
        _ => value_part(e, style, shown),
    }
}

/// A value shown inside an element; nothing outside of one.
pub open spec fn value_part(e: ExprView, style: Text, shown: Text) -> Seq<RenderedView> {
    if style.len() > 0 {
        seq![RenderedView { content: "{"@ + expr_text(e) + "}"@, style, when: shown }]
    } else {
        seq![]
    }
}

fn contains_jsx(e: &Expr) -> (r: bool)
    ensures
        r == gives_markup(e.deep_view()),
    decreases e,
{
    match e {
        Expr::Jsx(_) => true,
        Expr::Logical { op, left, right } => contains_jsx(right),
        Expr::Conditional { test, then, otherwise } => contains_jsx(then) || contains_jsx(
            otherwise,
        ),
        _ => false,
    }
}

fn dot_words(ws: &Vec<String>) -> (r: String)
    ensures
        r@ == dotted(ws.deep_view(), 0),
{
    let mut out = String::new();
    let mut i: usize = 0;
    while i < ws.len()
        invariant
            i <= ws@.len(),
            out@ + dotted(ws.deep_view(), i as int) == dotted(ws.deep_view(), 0),
        decreases ws@.len() - i,
    {
        out.append(".");
        out.append(&ws[i]);
        i += 1;
    }
    out
}

fn value_of(e: &Expr, style: &str, shown: String) -> (r: Vec<Rendered>)
    ensures
        r.deep_view() == value_part(e.deep_view(), style@, shown@),
{
    if style.is_empty() {
        list::empty()
    } else {
        list::one(
            Rendered {
                content: text::cat3("{", &render(e), "}"),
                style: style.to_owned(),
                when: shown,
            },
        )
    }
}

fn children(cs: &Vec<Expr>, style: &str, when: &Vec<String>) -> (r: Vec<Rendered>)
    ensures
        r.deep_view() == children_parts(expr_list_view(cs@), style@, when.deep_view(), 0),
    decreases cs,
{
    let ghost v = expr_list_view(cs@);
    let mut out: Vec<Rendered> = list::empty();
    let mut i: usize = 0;
    while i < cs.len()
        invariant
            i <= cs@.len(),
            v == expr_list_view(cs@),
            out.deep_view() + children_parts(v, style@, when.deep_view(), i as int)
                == children_parts(v, style@, when.deep_view(), 0),
        decreases cs@.len() - i,
    {
        list::append(&mut out, rendered(&cs[i], style, when));
        i += 1;
    }
    out
}

/// What markup renders: each piece of content with the element around it and the
/// conditions that show it.
pub fn rendered(e: &Expr, style: &str, when: &Vec<String>) -> (r: Vec<Rendered>)
    ensures
        r.deep_view() == markup_parts(e.deep_view(), style@, when.deep_view()),
    decreases e,
{
    let shown = text::join(when, " ∧ ");
    match e {
        Expr::Jsx(j) => {
            let ghost jv = jsx_view(**j);
            let ghost cv = expr_list_view(j.children@);
            let inner = if j.tag.as_str().is_empty() {
                style.to_owned()
            } else {
                match j.class() {
                    Some(c) => text::cat2(&j.tag, &dot_words(&text::split_words(c))),
                    None => j.tag.dup(),
                }
            };
            let mut out: Vec<Rendered> = list::empty();
            if j.children.len() == 0 && !j.tag.as_str().is_empty() {
                list::push(
                    &mut out,
                    Rendered {
                        content: text::cat3("<", &j.tag, ">"),
                        style: inner.dup(),
                        when: shown,
                    },
                );
            }
            let ghost head = out.deep_view();
            list::append(&mut out, children(&j.children, &inner, when));
            assert(head =~= if cv.len() == 0 && jv.tag.len() > 0 {
                seq![
                    RenderedView {
                        content: "<"@ + jv.tag + ">"@,
                        style: inner@,
                        when: text::joined(when.deep_view(), " ∧ "@),
                    },
                ]
            } else {
                seq![]
            });
            out
        },
        Expr::Logical { op, left, right } => {
            let both = match op {
                LogicOp::And => true,
                _ => false,
            };
            if both && contains_jsx(right) {
                let mut more = when.dup();
                list::push(&mut more, render(left));
                rendered(right, style, &more)
            } else {
                value_of(e, style, shown)
            }
        },
        Expr::Conditional { test, then, otherwise } => {
            if contains_jsx(then) || contains_jsx(otherwise) {
                let mut yes = when.dup();
                list::push(&mut yes, render(test));
                let mut out = rendered(then, style, &yes);
                let mut no = when.dup();
                list::push(&mut no, text::cat3("!(", &render(test), ")"));
                list::append(&mut out, rendered(otherwise, style, &no));
                out
            } else {
                value_of(e, style, shown)
            }
        },
        Expr::Str(s) => if style.is_empty() {
            list::empty()
        } else {
            list::one(Rendered { content: text::quote(s), style: style.to_owned(), when: shown })
        },
        Expr::Null => list::empty(),
        Expr::Undefined => list::empty(),
        Expr::Bool(_) => list::empty(),
        _ => value_of(e, style, shown),
    }
}

} // verus!
