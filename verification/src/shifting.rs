//! Shifting code within its file: what is lowered from two pieces of syntax that differ only in
//! the places they state differs only in its places too.

use crate::annotations;
use crate::front;
use crate::front::{BodyView, DraftView};
use crate::ir::{
    BinOp, CallView, ExprView, FunctionKind, FunctionView, LocView, StmtView, TypeRefView,
};
use crate::lower;
use crate::lower::{AroundView, FoundView};
use crate::ordered;
use crate::relocation::{
    moved_call, moved_expr, moved_exprs, moved_fields, moved_optional, moved_stmt, moved_stmts,
    moving_keeps_hash,
};
use crate::span;
use crate::span::SourceView;
use crate::syntax;
use crate::syntax::{flag, items, items_fit, kind, offset, part, parts_fit, size, sizes, word};
use crate::text;
use crate::text::Text;
use crate::tree;
use crate::tree::TreeView;
use vstd::prelude::*;

verus! {

// ---- syntax

/// A key under which a node states a place.
pub open spec fn is_place(key: Text) -> bool {
    key == "start"@ || key == "end"@
}

/// What a node says in the text of its file.
pub open spec fn cutting(s: Text, t: TreeView) -> Text {
    span::one_line(span::between(s, offset(t, "start"@), offset(t, "end"@)))
}

/// Two trees, each of a text, are the same but for the places that they state, and each node
/// says the same in both texts.
pub open spec fn alike(a: Text, t: TreeView, b: Text, u: TreeView) -> bool
    decreases t,
{
    &&& cutting(a, t) == cutting(b, u)
    &&& match (t, u) {
        (TreeView::List(xs), TreeView::List(ys)) => all_alike(a, xs, b, ys),
        (TreeView::Table(fs), TreeView::Table(gs)) => fields_alike(a, fs, b, gs),
        _ => t == u,
    }
}

/// Two lists of trees are alike, item by item.
pub open spec fn all_alike(a: Text, xs: Seq<TreeView>, b: Text, ys: Seq<TreeView>) -> bool
    decreases xs,
{
    &&& xs.len() == ys.len()
    &&& forall|i: int| 0 <= i < xs.len() ==> alike(a, #[trigger] xs[i], b, ys[i])
}

/// Two tables have the same keys, and what stands under them is alike but for the places.
pub open spec fn fields_alike(
    a: Text,
    fs: Seq<(Text, TreeView)>,
    b: Text,
    gs: Seq<(Text, TreeView)>,
) -> bool
    decreases fs,
{
    &&& fs.len() == gs.len()
    &&& forall|i: int|
        0 <= i < fs.len() ==> (#[trigger] fs[i]).0 == gs[i].0 && (is_place(fs[i].0) || alike(
            a,
            fs[i].1,
            b,
            gs[i].1,
        ))
}

/// Two parts are alike, or both are missing.
pub open spec fn both_alike(a: Text, x: Option<TreeView>, b: Text, y: Option<TreeView>) -> bool {
    match (x, y) {
        (Some(t), Some(u)) => alike(a, t, b, u),
        (None, None) => true,
        _ => false,
    }
}

/// The keys of syntax trees that lowering reads hold no places.
spec fn keys_are_free() -> bool {
    &&& !is_place("type"@)
    &&& !is_place("body"@)
    &&& !is_place("id"@)
    &&& !is_place("init"@)
    &&& !is_place("consequent"@)
    &&& !is_place("test"@)
    &&& !is_place("left"@)
    &&& !is_place("right"@)
    &&& !is_place("block"@)
    &&& !is_place("handler"@)
    &&& !is_place("finalizer"@)
    &&& !is_place("alternate"@)
    &&& !is_place("discriminant"@)
    &&& !is_place("cases"@)
    &&& !is_place("argument"@)
    &&& !is_place("expression"@)
    &&& !is_place("declarations"@)
    &&& !is_place("directive"@)
    &&& !is_place("value"@)
    &&& !is_place("regex"@)
    &&& !is_place("bigint"@)
    &&& !is_place("cooked"@)
    &&& !is_place("expressions"@)
    &&& !is_place("quasis"@)
    &&& !is_place("properties"@)
    &&& !is_place("elements"@)
    &&& !is_place("computed"@)
    &&& !is_place("property"@)
    &&& !is_place("object"@)
    &&& !is_place("callee"@)
    &&& !is_place("arguments"@)
    &&& !is_place("operator"@)
    &&& !is_place("name"@)
    &&& !is_place("key"@)
    &&& !is_place("async"@)
    &&& !is_place("params"@)
    &&& !is_place("returnType"@)
    &&& !is_place("typeAnnotation"@)
    &&& !is_place("typeName"@)
    &&& !is_place("typeArguments"@)
    &&& !is_place("elementType"@)
    &&& !is_place("types"@)
    &&& !is_place("literal"@)
    &&& !is_place("members"@)
    &&& !is_place("parameter"@)
    &&& !is_place("decorators"@)
    &&& !is_place("declaration"@)
    &&& !is_place("kind"@)
}

proof fn keys_are_no_places()
    ensures
        keys_are_free(),
{
    reveal_strlit("start");
    reveal_strlit("end");
    reveal_strlit("type");
    assert("type"@.len() == 4);
    reveal_strlit("body");
    assert("body"@.len() == 4);
    reveal_strlit("id");
    assert("id"@.len() == 2);
    reveal_strlit("init");
    assert("init"@.len() == 4);
    reveal_strlit("consequent");
    assert("consequent"@.len() > 5);
    reveal_strlit("test");
    assert("test"@.len() == 4);
    reveal_strlit("left");
    assert("left"@.len() == 4);
    reveal_strlit("right");
    assert("right"@[0] == 'r');
    reveal_strlit("block");
    assert("block"@[0] == 'b');
    reveal_strlit("handler");
    assert("handler"@.len() > 5);
    reveal_strlit("finalizer");
    assert("finalizer"@.len() > 5);
    reveal_strlit("alternate");
    assert("alternate"@.len() > 5);
    reveal_strlit("discriminant");
    assert("discriminant"@.len() > 5);
    reveal_strlit("cases");
    assert("cases"@[0] == 'c');
    reveal_strlit("argument");
    assert("argument"@.len() > 5);
    reveal_strlit("expression");
    assert("expression"@.len() > 5);
    reveal_strlit("declarations");
    assert("declarations"@.len() > 5);
    reveal_strlit("directive");
    assert("directive"@.len() > 5);
    reveal_strlit("value");
    assert("value"@[0] == 'v');
    reveal_strlit("regex");
    assert("regex"@[0] == 'r');
    reveal_strlit("bigint");
    assert("bigint"@.len() > 5);
    reveal_strlit("cooked");
    assert("cooked"@.len() > 5);
    reveal_strlit("expressions");
    assert("expressions"@.len() > 5);
    reveal_strlit("quasis");
    assert("quasis"@.len() > 5);
    reveal_strlit("properties");
    assert("properties"@.len() > 5);
    reveal_strlit("elements");
    assert("elements"@.len() > 5);
    reveal_strlit("computed");
    assert("computed"@.len() > 5);
    reveal_strlit("property");
    assert("property"@.len() > 5);
    reveal_strlit("object");
    assert("object"@.len() > 5);
    reveal_strlit("callee");
    assert("callee"@.len() > 5);
    reveal_strlit("arguments");
    assert("arguments"@.len() > 5);
    reveal_strlit("operator");
    assert("operator"@.len() > 5);
    reveal_strlit("name");
    assert("name"@.len() == 4);
    reveal_strlit("key");
    assert("key"@[0] == 'k');
    reveal_strlit("async");
    assert("async"@[0] == 'a');
    reveal_strlit("params");
    assert("params"@.len() > 5);
    reveal_strlit("returnType");
    assert("returnType"@.len() > 5);
    reveal_strlit("typeAnnotation");
    assert("typeAnnotation"@.len() > 5);
    reveal_strlit("typeName");
    assert("typeName"@.len() > 5);
    reveal_strlit("typeArguments");
    assert("typeArguments"@.len() > 5);
    reveal_strlit("elementType");
    assert("elementType"@.len() > 5);
    reveal_strlit("types");
    assert("types"@[0] == 't');
    reveal_strlit("literal");
    assert("literal"@.len() > 5);
    reveal_strlit("members");
    assert("members"@.len() > 5);
    reveal_strlit("parameter");
    assert("parameter"@.len() > 5);
    reveal_strlit("decorators");
    assert("decorators"@.len() > 5);
    reveal_strlit("declaration");
    assert("declaration"@.len() > 5);
    reveal_strlit("kind");
    assert("kind"@.len() == 4);
}

proof fn found_alike(
    a: Text,
    fs: Seq<(Text, TreeView)>,
    b: Text,
    gs: Seq<(Text, TreeView)>,
    key: Text,
    i: int,
)
    requires
        fields_alike(a, fs, b, gs),
        !is_place(key),
        0 <= i,
    ensures
        both_alike(a, tree::field_from(fs, key, i), b, tree::field_from(gs, key, i)),
    decreases fs.len() - i,
{
    if i < fs.len() {
        assert(fs[i].0 == gs[i].0);
        found_alike(a, fs, b, gs, key, i + 1);
    }
}

proof fn fields_of_alike(a: Text, t: TreeView, b: Text, u: TreeView, key: Text)
    requires
        alike(a, t, b, u),
        !is_place(key),
    ensures
        both_alike(a, tree::field(t, key), b, tree::field(u, key)),
        both_alike(a, part(t, key), b, part(u, key)),
        all_alike(a, items(t, key), b, items(u, key)),
        word(t, key) == word(u, key),
        tree::str_of(tree::field(t, key)) == tree::str_of(tree::field(u, key)),
        flag(t, key) == flag(u, key),
{
    match (t, u) {
        (TreeView::Table(fs), TreeView::Table(gs)) => {
            found_alike(a, fs, b, gs, key, 0);
        },
        _ => {},
    }
}

/// What two nodes that are alike have in common.
proof fn nodes_alike(a: Text, t: TreeView, b: Text, u: TreeView)
    requires
        alike(a, t, b, u),
    ensures
        forall|k: Text|
            !is_place(k) ==> both_alike(a, #[trigger] tree::field(t, k), b, tree::field(u, k)),
        forall|k: Text| !is_place(k) ==> both_alike(a, #[trigger] part(t, k), b, part(u, k)),
        forall|k: Text| !is_place(k) ==> all_alike(a, #[trigger] items(t, k), b, items(u, k)),
        forall|k: Text| !is_place(k) ==> #[trigger] word(t, k) == word(u, k),
        forall|k: Text| !is_place(k) ==> #[trigger] flag(t, k) == flag(u, k),
        kind(t) == kind(u),
        syntax::key_name(t) == syntax::key_name(u),
        syntax::static_property(t) == syntax::static_property(u),
        keys_are_free(),
{
    keys_are_no_places();
    assert forall|k: Text| !is_place(k) implies both_alike(
        a,
        #[trigger] tree::field(t, k),
        b,
        tree::field(u, k),
    ) by {
        fields_of_alike(a, t, b, u, k);
    }
    assert forall|k: Text| !is_place(k) implies both_alike(
        a,
        #[trigger] part(t, k),
        b,
        part(u, k),
    ) by {
        fields_of_alike(a, t, b, u, k);
    }
    assert forall|k: Text| !is_place(k) implies all_alike(
        a,
        #[trigger] items(t, k),
        b,
        items(u, k),
    ) by {
        fields_of_alike(a, t, b, u, k);
    }
    assert forall|k: Text| !is_place(k) implies #[trigger] word(t, k) == word(u, k) by {
        fields_of_alike(a, t, b, u, k);
    }
    assert forall|k: Text| !is_place(k) implies #[trigger] flag(t, k) == flag(u, k) by {
        fields_of_alike(a, t, b, u, k);
    }
    fields_of_alike(a, t, b, u, "type"@);
    fields_of_alike(a, t, b, u, "key"@);
    fields_of_alike(a, t, b, u, "property"@);
    names_alike(a, part(t, "key"@), b, part(u, "key"@));
    names_alike(a, part(t, "property"@), b, part(u, "property"@));
}

/// The names of two parts that are alike.
proof fn names_alike(a: Text, x: Option<TreeView>, b: Text, y: Option<TreeView>)
    requires
        both_alike(a, x, b, y),
    ensures
        syntax::ident(x) == syntax::ident(y),
        syntax::string_literal(x) == syntax::string_literal(y),
        x is Some ==> word(x->0, "name"@) == word(y->0, "name"@) && kind(x->0) == kind(y->0),
        forall|k: Text| #[trigger] syntax::is_kind(x, k) == syntax::is_kind(y, k),
{
    keys_are_no_places();
    if x is Some {
        fields_of_alike(a, x->0, b, y->0, "type"@);
        fields_of_alike(a, x->0, b, y->0, "name"@);
        fields_of_alike(a, x->0, b, y->0, "value"@);
    }
}

// ---- annotations

proof fn full_names_agree(a: Text, t: TreeView, b: Text, u: TreeView)
    requires
        alike(a, t, b, u),
    ensures
        annotations::full_name(t) == annotations::full_name(u),
    decreases size(t),
{
    parts_fit(t);
    nodes_alike(a, t, b, u);
    if kind(t) == "TSQualifiedName"@ {
        if part(t, "left"@) is Some {
            full_names_agree(a, part(t, "left"@)->0, b, part(u, "left"@)->0);
        }
        names_alike(a, part(t, "right"@), b, part(u, "right"@));
    }
}

proof fn types_agree(a: Text, t: TreeView, b: Text, u: TreeView)
    requires
        alike(a, t, b, u),
    ensures
        annotations::type_of(t) == annotations::type_of(u),
    decreases size(t), 1int,
{
    parts_fit(t);
    nodes_alike(a, t, b, u);
    let k = kind(t);
    if k == "TSTypeReference"@ {
        if part(t, "typeName"@) is Some {
            full_names_agree(a, part(t, "typeName"@)->0, b, part(u, "typeName"@)->0);
        }
        if part(t, "typeArguments"@) is Some {
            let v = part(t, "typeArguments"@)->0;
            let w = part(u, "typeArguments"@)->0;
            parts_fit(v);
            nodes_alike(a, v, b, w);
            all_types_agree(a, items(v, "params"@), b, items(w, "params"@), 0);
        }
    } else if k == "TSArrayType"@ {
        types_at_agree(a, t, b, u, "elementType"@);
    } else if k == "TSUnionType"@ {
        all_types_agree(a, items(t, "types"@), b, items(u, "types"@), 0);
    } else if k == "TSLiteralType"@ {
        names_alike(a, part(t, "literal"@), b, part(u, "literal"@));
    } else if k == "TSParenthesizedType"@ {
        types_at_agree(a, t, b, u, "typeAnnotation"@);
    } else if k == "TSTypeLiteral"@ {
        signatures_agree(a, items(t, "members"@), b, items(u, "members"@), 0, seq![]);
    }
}

proof fn types_at_agree(a: Text, t: TreeView, b: Text, u: TreeView, key: Text)
    requires
        alike(a, t, b, u),
        !is_place(key),
    ensures
        annotations::type_at(t, key) == annotations::type_at(u, key),
    decreases size(t), 0int,
{
    parts_fit(t);
    fields_of_alike(a, t, b, u, key);
    if part(t, key) is Some {
        types_agree(a, part(t, key)->0, b, part(u, key)->0);
    }
}

proof fn all_types_agree(a: Text, xs: Seq<TreeView>, b: Text, ys: Seq<TreeView>, i: int)
    requires
        all_alike(a, xs, b, ys),
        0 <= i,
    ensures
        annotations::types_from(xs, i) == annotations::types_from(ys, i),
    decreases sizes(xs, 0), 10 + xs.len() - i,
{
    items_fit(xs);
    if i < xs.len() {
        types_agree(a, xs[i], b, ys[i]);
        all_types_agree(a, xs, b, ys, i + 1);
    }
}

proof fn annotations_agree(a: Text, t: TreeView, b: Text, u: TreeView)
    requires
        alike(a, t, b, u),
    ensures
        annotations::annotation(t) == annotations::annotation(u),
    decreases size(t), 2int,
{
    parts_fit(t);
    nodes_alike(a, t, b, u);
    if part(t, "typeAnnotation"@) is Some {
        types_at_agree(
            a,
            part(t, "typeAnnotation"@)->0,
            b,
            part(u, "typeAnnotation"@)->0,
            "typeAnnotation"@,
        );
    }
}

proof fn signatures_agree(
    a: Text,
    xs: Seq<TreeView>,
    b: Text,
    ys: Seq<TreeView>,
    i: int,
    acc: Seq<(Text, TypeRefView)>,
)
    requires
        all_alike(a, xs, b, ys),
        0 <= i,
    ensures
        annotations::signatures_from(xs, i, acc) == annotations::signatures_from(ys, i, acc),
    decreases sizes(xs, 0), 10 + xs.len() - i,
{
    items_fit(xs);
    if i < xs.len() {
        nodes_alike(a, xs[i], b, ys[i]);
        annotations_agree(a, xs[i], b, ys[i]);
        let next = if kind(xs[i]) == "TSPropertySignature"@ {
            match syntax::key_name(xs[i]) {
                Some(name) => ordered::put(
                    acc,
                    name,
                    match annotations::annotation(xs[i]) {
                        Some(ty) => ty,
                        None => TypeRefView::Unknown,
                    },
                ),
                None => acc,
            }
        } else {
            acc
        };
        signatures_agree(a, xs, b, ys, i + 1, next);
    }
}

proof fn parameters_agree(a: Text, t: TreeView, b: Text, u: TreeView)
    requires
        alike(a, t, b, u),
    ensures
        annotations::parameter(t) == annotations::parameter(u),
{
    nodes_alike(a, t, b, u);
    let x = if kind(t) == "TSParameterProperty"@ {
        part(t, "parameter"@)
    } else {
        Some(t)
    };
    let y = if kind(t) == "TSParameterProperty"@ {
        part(u, "parameter"@)
    } else {
        Some(u)
    };
    names_alike(a, x, b, y);
    if x is Some {
        nodes_alike(a, x->0, b, y->0);
        let v = syntax::bound(x->0);
        let w = syntax::bound(y->0);
        assert(both_alike(a, v, b, w));
        names_alike(a, v, b, w);
        if v is Some {
            annotations_agree(a, v->0, b, w->0);
        }
    }
}

proof fn all_parameters_agree(a: Text, xs: Seq<TreeView>, b: Text, ys: Seq<TreeView>, i: int)
    requires
        all_alike(a, xs, b, ys),
        0 <= i,
    ensures
        annotations::params_from(xs, i) == annotations::params_from(ys, i),
    decreases xs.len() - i,
{
    if i < xs.len() {
        parameters_agree(a, xs[i], b, ys[i]);
        all_parameters_agree(a, xs, b, ys, i + 1);
    }
}

// ---- lowered code

/// Every place is forgotten.
pub open spec fn nowhere() -> spec_fn(LocView) -> LocView {
    |l: LocView| LocView { file: ""@, line: 0 }
}

/// Calls without their places.
pub open spec fn placeless_calls(cs: Seq<CallView>) -> Seq<CallView> {
    Seq::new(cs.len(), |i: int| moved_call(cs[i], nowhere()))
}

/// A function without its places.
pub open spec fn placeless(f: FunctionView) -> FunctionView {
    FunctionView {
        body: moved_stmts(f.body, nowhere()),
        loc: nowhere()(f.loc),
        end_line: 0,
        decorators: placeless_calls(f.decorators),
        ..f
    }
}

/// Two lists hold the same functions, but for their places.
pub open spec fn same_functions(fs: Seq<FunctionView>, gs: Seq<FunctionView>) -> bool {
    &&& fs.len() == gs.len()
    &&& forall|i: int| 0 <= i < fs.len() ==> placeless(#[trigger] fs[i]) == placeless(gs[i])
}

/// What lowering has found so far is the same, but for its places.
pub open spec fn even(st: FoundView, rt: FoundView) -> bool {
    st.counts == rt.counts && same_functions(st.functions, rt.functions)
}

/// Two nodes stand in the same file and under the same names.
pub open spec fn facing(cx: AroundView, dx: AroundView) -> bool {
    cx.source.path == dx.source.path && cx.owner == dx.owner && cx.constant == dx.constant
}

spec fn twin_exprs(x: (FoundView, ExprView), y: (FoundView, ExprView)) -> bool {
    even(x.0, y.0) && moved_expr(x.1, nowhere()) == moved_expr(y.1, nowhere())
}

spec fn twin_optionals(x: (FoundView, Option<ExprView>), y: (FoundView, Option<ExprView>)) -> bool {
    even(x.0, y.0) && moved_optional(x.1, nowhere()) == moved_optional(y.1, nowhere())
}

spec fn twin_lists(x: (FoundView, Seq<ExprView>), y: (FoundView, Seq<ExprView>)) -> bool {
    even(x.0, y.0) && moved_exprs(x.1, nowhere()) == moved_exprs(y.1, nowhere())
}

spec fn twin_fields(
    x: (FoundView, Seq<(Text, ExprView)>),
    y: (FoundView, Seq<(Text, ExprView)>),
) -> bool {
    even(x.0, y.0) && moved_fields(x.1, nowhere()) == moved_fields(y.1, nowhere())
}

spec fn twin_properties(
    x: (FoundView, Option<(Text, ExprView)>),
    y: (FoundView, Option<(Text, ExprView)>),
) -> bool {
    &&& even(x.0, y.0)
    &&& match (x.1, y.1) {
        (Some(p), Some(q)) => p.0 == q.0 && moved_expr(p.1, nowhere()) == moved_expr(
            q.1,
            nowhere(),
        ),
        (None, None) => true,
        _ => false,
    }
}

spec fn twin_stmts(x: (FoundView, StmtView), y: (FoundView, StmtView)) -> bool {
    even(x.0, y.0) && moved_stmt(x.1, nowhere()) == moved_stmt(y.1, nowhere())
}

spec fn twin_blocks(x: (FoundView, Seq<StmtView>), y: (FoundView, Seq<StmtView>)) -> bool {
    even(x.0, y.0) && moved_stmts(x.1, nowhere()) == moved_stmts(y.1, nowhere())
}

spec fn twin_options(x: (FoundView, Option<StmtView>), y: (FoundView, Option<StmtView>)) -> bool {
    &&& even(x.0, y.0)
    &&& match (x.1, y.1) {
        (Some(p), Some(q)) => moved_stmt(p, nowhere()) == moved_stmt(q, nowhere()),
        (None, None) => true,
        _ => false,
    }
}

proof fn pushed_exprs(xs: Seq<ExprView>, e: ExprView, ys: Seq<ExprView>, d: ExprView)
    requires
        moved_exprs(xs, nowhere()) == moved_exprs(ys, nowhere()),
        moved_expr(e, nowhere()) == moved_expr(d, nowhere()),
    ensures
        moved_exprs(xs.push(e), nowhere()) == moved_exprs(ys.push(d), nowhere()),
{
    let f = nowhere();
    assert(moved_exprs(xs.push(e), f) =~= moved_exprs(xs, f).push(moved_expr(e, f)));
    assert(moved_exprs(ys.push(d), f) =~= moved_exprs(ys, f).push(moved_expr(d, f)));
}

proof fn pushed_fields(
    xs: Seq<(Text, ExprView)>,
    e: (Text, ExprView),
    ys: Seq<(Text, ExprView)>,
    d: (Text, ExprView),
)
    requires
        moved_fields(xs, nowhere()) == moved_fields(ys, nowhere()),
        e.0 == d.0,
        moved_expr(e.1, nowhere()) == moved_expr(d.1, nowhere()),
    ensures
        moved_fields(xs.push(e), nowhere()) == moved_fields(ys.push(d), nowhere()),
{
    let f = nowhere();
    assert(moved_fields(xs.push(e), f) =~= moved_fields(xs, f).push((e.0, moved_expr(e.1, f))));
    assert(moved_fields(ys.push(d), f) =~= moved_fields(ys, f).push((d.0, moved_expr(d.1, f))));
}

proof fn pushed_stmts(xs: Seq<StmtView>, e: StmtView, ys: Seq<StmtView>, d: StmtView)
    requires
        moved_stmts(xs, nowhere()) == moved_stmts(ys, nowhere()),
        moved_stmt(e, nowhere()) == moved_stmt(d, nowhere()),
    ensures
        moved_stmts(xs.push(e), nowhere()) == moved_stmts(ys.push(d), nowhere()),
{
    let f = nowhere();
    assert(moved_stmts(xs.push(e), f) =~= moved_stmts(xs, f).push(moved_stmt(e, f)));
    assert(moved_stmts(ys.push(d), f) =~= moved_stmts(ys, f).push(moved_stmt(d, f)));
}

proof fn one_stmt(e: StmtView, d: StmtView)
    requires
        moved_stmt(e, nowhere()) == moved_stmt(d, nowhere()),
    ensures
        moved_stmts(seq![e], nowhere()) == moved_stmts(seq![d], nowhere()),
{
    assert(moved_stmts(seq![e], nowhere()) =~= moved_stmts(seq![d], nowhere()));
}

proof fn single_stays(xs: Seq<StmtView>, ys: Seq<StmtView>)
    requires
        moved_stmts(xs, nowhere()) == moved_stmts(ys, nowhere()),
    ensures
        moved_stmt(lower::single(xs), nowhere()) == moved_stmt(lower::single(ys), nowhere()),
{
    let f = nowhere();
    assert(moved_stmts(xs, f).len() == moved_stmts(ys, f).len());
    if xs.len() == 1 {
        assert(moved_stmts(xs, f)[0] == moved_stmt(xs[0], f));
        assert(moved_stmts(ys, f)[0] == moved_stmt(ys[0], f));
    }
}

proof fn functions_stay(
    cx: AroundView,
    st: FoundView,
    f: TreeView,
    dx: AroundView,
    rt: FoundView,
    g: TreeView,
    qualified: Text,
    class: Option<Text>,
    k: FunctionKind,
    exported: bool,
    parent: Option<Text>,
    body: Seq<StmtView>,
    other: Seq<StmtView>,
)
    requires
        facing(cx, dx),
        even(st, rt),
        alike(cx.source.text, f, dx.source.text, g),
        moved_stmts(body, nowhere()) == moved_stmts(other, nowhere()),
    ensures
        even(
            lower::with_function(
                st,
                lower::function_with(cx, f, qualified, class, k, exported, parent, body),
            ),
            lower::with_function(
                rt,
                lower::function_with(dx, g, qualified, class, k, exported, parent, other),
            ),
        ),
{
    let a = cx.source.text;
    let b = dx.source.text;
    nodes_alike(a, f, b, g);
    all_parameters_agree(a, items(f, "params"@), b, items(g, "params"@), 0);
    if part(f, "returnType"@) is Some {
        types_at_agree(
            a,
            part(f, "returnType"@)->0,
            b,
            part(g, "returnType"@)->0,
            "typeAnnotation"@,
        );
    }
    moving_keeps_hash(body, nowhere());
    moving_keeps_hash(other, nowhere());
    assert(placeless_calls(seq![]) =~= seq![]);
}

// ---- functions

proof fn closures_named(
    cx: AroundView,
    st: FoundView,
    dx: AroundView,
    rt: FoundView,
    hint: Option<Text>,
)
    requires
        facing(cx, dx),
        even(st, rt),
    ensures
        even(lower::closure_named(cx, st, hint).0, lower::closure_named(dx, rt, hint).0),
        lower::closure_named(cx, st, hint).1 == lower::closure_named(dx, rt, hint).1,
{
}

proof fn function_stays(
    cx: AroundView,
    st: FoundView,
    t: TreeView,
    dx: AroundView,
    rt: FoundView,
    u: TreeView,
    qualified: Text,
    class: Option<Text>,
    k: FunctionKind,
    exported: bool,
    parent: Option<Text>,
)
    requires
        facing(cx, dx),
        even(st, rt),
        alike(cx.source.text, t, dx.source.text, u),
    ensures
        even(
            lower::function_of(cx, st, t, qualified, class, k, exported, parent),
            lower::function_of(dx, rt, u, qualified, class, k, exported, parent),
        ),
    decreases size(t), 6int,
{
    let a = cx.source.text;
    let b = dx.source.text;
    parts_fit(t);
    nodes_alike(a, t, b, u);

    if part(t, "body"@) is Some {
        let v = part(t, "body"@)->0;
        let w = part(u, "body"@)->0;
        parts_fit(v);
        nodes_alike(a, v, b, w);
        let c = lower::inside(cx, qualified);
        let d = lower::inside(dx, qualified);
        stmts_stay(c, st, items(v, "body"@), d, rt, items(w, "body"@), 0, seq![], seq![]);
        let x = lower::stmts_from(c, st, items(v, "body"@), 0, seq![]);
        let y = lower::stmts_from(d, rt, items(w, "body"@), 0, seq![]);
        functions_stay(cx, x.0, t, dx, y.0, u, qualified, class, k, exported, parent, x.1, y.1);
    } else {
        functions_stay(cx, st, t, dx, rt, u, qualified, class, k, exported, parent, seq![], seq![]);
    }
}

proof fn arrow_stays(
    cx: AroundView,
    st: FoundView,
    t: TreeView,
    dx: AroundView,
    rt: FoundView,
    u: TreeView,
    qualified: Text,
    exported: bool,
)
    requires
        facing(cx, dx),
        even(st, rt),
        alike(cx.source.text, t, dx.source.text, u),
    ensures
        even(
            lower::arrow_of(cx, st, t, qualified, exported),
            lower::arrow_of(dx, rt, u, qualified, exported),
        ),
    decreases size(t), 6int,
{
    let a = cx.source.text;
    let b = dx.source.text;
    parts_fit(t);
    nodes_alike(a, t, b, u);

    let parent = lower::owner_id(cx);
    let k = if parent is Some {
        FunctionKind::Closure
    } else {
        FunctionKind::Function
    };
    if part(t, "body"@) is Some {
        let v = part(t, "body"@)->0;
        let w = part(u, "body"@)->0;
        parts_fit(v);
        nodes_alike(a, v, b, w);
        let c = lower::inside(cx, qualified);
        let d = lower::inside(dx, qualified);
        if flag(t, "expression"@) {
            expr_stays(c, st, v, d, rt, w);
            let x = lower::expr_of(c, st, v);
            let y = lower::expr_of(d, rt, w);
            let r = StmtView::Return(Some(x.1), lower::loc_of(cx, v));
            let s = StmtView::Return(Some(y.1), lower::loc_of(dx, w));
            one_stmt(r, s);
            functions_stay(
                cx,
                x.0,
                t,
                dx,
                y.0,
                u,
                qualified,
                None,
                k,
                exported,
                parent,
                seq![r],
                seq![s],
            );
        } else {
            stmts_stay(c, st, items(v, "body"@), d, rt, items(w, "body"@), 0, seq![], seq![]);
            let x = lower::stmts_from(c, st, items(v, "body"@), 0, seq![]);
            let y = lower::stmts_from(d, rt, items(w, "body"@), 0, seq![]);
            functions_stay(cx, x.0, t, dx, y.0, u, qualified, None, k, exported, parent, x.1, y.1);
        }
    } else {
        functions_stay(cx, st, t, dx, rt, u, qualified, None, k, exported, parent, seq![], seq![]);
    }
}

proof fn arrow_closure_stays(
    cx: AroundView,
    st: FoundView,
    t: TreeView,
    dx: AroundView,
    rt: FoundView,
    u: TreeView,
    hint: Option<Text>,
)
    requires
        facing(cx, dx),
        even(st, rt),
        alike(cx.source.text, t, dx.source.text, u),
    ensures
        twin_exprs(
            lower::arrow_closure(cx, st, t, hint),
            lower::arrow_closure(dx, rt, u, hint),
        ),
    decreases size(t), 7int,
{
    parts_fit(t);
    closures_named(cx, st, dx, rt, hint);
    let x = lower::closure_named(cx, st, hint);
    let y = lower::closure_named(dx, rt, hint);
    arrow_stays(cx, x.0, t, dx, y.0, u, x.1, false);
}

proof fn function_closure_stays(
    cx: AroundView,
    st: FoundView,
    t: TreeView,
    dx: AroundView,
    rt: FoundView,
    u: TreeView,
    hint: Option<Text>,
)
    requires
        facing(cx, dx),
        even(st, rt),
        alike(cx.source.text, t, dx.source.text, u),
    ensures
        twin_exprs(
            lower::function_closure(cx, st, t, hint),
            lower::function_closure(dx, rt, u, hint),
        ),
    decreases size(t), 7int,
{
    parts_fit(t);
    closures_named(cx, st, dx, rt, hint);
    let x = lower::closure_named(cx, st, hint);
    let y = lower::closure_named(dx, rt, hint);
    let parent = lower::owner_id(cx);
    function_stays(cx, x.0, t, dx, y.0, u, x.1, None, FunctionKind::Closure, false, parent);
}

// ---- statements

proof fn stmts_stay(
    cx: AroundView,
    st: FoundView,
    xs: Seq<TreeView>,
    dx: AroundView,
    rt: FoundView,
    ys: Seq<TreeView>,
    i: int,
    acc: Seq<StmtView>,
    bcc: Seq<StmtView>,
)
    requires
        facing(cx, dx),
        even(st, rt),
        all_alike(cx.source.text, xs, dx.source.text, ys),
        0 <= i,
        moved_stmts(acc, nowhere()) == moved_stmts(bcc, nowhere()),
    ensures
        twin_blocks(
            lower::stmts_from(cx, st, xs, i, acc),
            lower::stmts_from(dx, rt, ys, i, bcc),
        ),
    decreases sizes(xs, 0), 10 + xs.len() - i,
{
    items_fit(xs);
    if i < xs.len() {
        stmt_stays(cx, st, xs[i], dx, rt, ys[i]);
        let x = lower::stmt_of(cx, st, xs[i]);
        let y = lower::stmt_of(dx, rt, ys[i]);
        if x.1 is Some {
            pushed_stmts(acc, x.1->0, bcc, y.1->0);
            stmts_stay(cx, x.0, xs, dx, y.0, ys, i + 1, acc.push(x.1->0), bcc.push(y.1->0));
        } else {
            stmts_stay(cx, x.0, xs, dx, y.0, ys, i + 1, acc, bcc);
        }
    }
}

proof fn block_stays(
    cx: AroundView,
    st: FoundView,
    t: TreeView,
    dx: AroundView,
    rt: FoundView,
    u: TreeView,
)
    requires
        facing(cx, dx),
        even(st, rt),
        alike(cx.source.text, t, dx.source.text, u),
    ensures
        twin_blocks(
            lower::block_of(cx, st, t),
            lower::block_of(dx, rt, u),
        ),
    decreases size(t), 10int,
{
    let a = cx.source.text;
    let b = dx.source.text;
    parts_fit(t);
    nodes_alike(a, t, b, u);

    if kind(t) == "BlockStatement"@ {
        stmts_stay(cx, st, items(t, "body"@), dx, rt, items(u, "body"@), 0, seq![], seq![]);
    } else {
        stmt_stays(cx, st, t, dx, rt, u);
        let x = lower::stmt_of(cx, st, t);
        let y = lower::stmt_of(dx, rt, u);
        if x.1 is Some {
            one_stmt(x.1->0, y.1->0);
        }
    }
}

proof fn block_at_stays(
    cx: AroundView,
    st: FoundView,
    t: TreeView,
    dx: AroundView,
    rt: FoundView,
    u: TreeView,
    key: Text,
)
    requires
        facing(cx, dx),
        even(st, rt),
        alike(cx.source.text, t, dx.source.text, u),
        !is_place(key),
    ensures
        twin_blocks(
            lower::block_at(cx, st, t, key),
            lower::block_at(dx, rt, u, key),
        ),
    decreases size(t), 5int,
{
    parts_fit(t);
    fields_of_alike(cx.source.text, t, dx.source.text, u, key);
    if part(t, key) is Some {
        block_stays(cx, st, part(t, key)->0, dx, rt, part(u, key)->0);
    }
}

proof fn declarator_stays(
    cx: AroundView,
    st: FoundView,
    t: TreeView,
    dx: AroundView,
    rt: FoundView,
    u: TreeView,
)
    requires
        facing(cx, dx),
        even(st, rt),
        alike(cx.source.text, t, dx.source.text, u),
    ensures
        twin_options(
            lower::declarator(cx, st, t),
            lower::declarator(dx, rt, u),
        ),
    decreases size(t), 8int,
{
    let a = cx.source.text;
    let b = dx.source.text;
    parts_fit(t);
    nodes_alike(a, t, b, u);

    names_alike(a, part(t, "id"@), b, part(u, "id"@));
    names_alike(a, part(t, "init"@), b, part(u, "init"@));
    match syntax::ident(part(t, "id"@)) {
        Some(name) => {
            annotations_agree(a, part(t, "id"@)->0, b, part(u, "id"@)->0);
            if syntax::is_kind(part(t, "init"@), "ArrowFunctionExpression"@) {
                arrow_closure_stays(
                    cx,
                    st,
                    part(t, "init"@)->0,
                    dx,
                    rt,
                    part(u, "init"@)->0,
                    Some(name),
                );
            } else {
                optional_stays(cx, st, t, dx, rt, u, "init"@);
            }
        },
        None => {
            optional_stays(cx, st, t, dx, rt, u, "init"@);
        },
    }
}

proof fn declarators_stay(
    cx: AroundView,
    st: FoundView,
    xs: Seq<TreeView>,
    dx: AroundView,
    rt: FoundView,
    ys: Seq<TreeView>,
    i: int,
    acc: Seq<StmtView>,
    bcc: Seq<StmtView>,
)
    requires
        facing(cx, dx),
        even(st, rt),
        all_alike(cx.source.text, xs, dx.source.text, ys),
        0 <= i,
        moved_stmts(acc, nowhere()) == moved_stmts(bcc, nowhere()),
    ensures
        twin_blocks(
            lower::declarators_from(cx, st, xs, i, acc),
            lower::declarators_from(dx, rt, ys, i, bcc),
        ),
    decreases sizes(xs, 0), 10 + xs.len() - i,
{
    items_fit(xs);
    if i < xs.len() {
        declarator_stays(cx, st, xs[i], dx, rt, ys[i]);
        let x = lower::declarator(cx, st, xs[i]);
        let y = lower::declarator(dx, rt, ys[i]);
        if x.1 is Some {
            pushed_stmts(acc, x.1->0, bcc, y.1->0);
            declarators_stay(cx, x.0, xs, dx, y.0, ys, i + 1, acc.push(x.1->0), bcc.push(y.1->0));
        } else {
            declarators_stay(cx, x.0, xs, dx, y.0, ys, i + 1, acc, bcc);
        }
    }
}

proof fn case_stays(
    cx: AroundView,
    st: FoundView,
    t: TreeView,
    dx: AroundView,
    rt: FoundView,
    u: TreeView,
    disc: ExprView,
    other: ExprView,
)
    requires
        facing(cx, dx),
        even(st, rt),
        alike(cx.source.text, t, dx.source.text, u),
        moved_expr(disc, nowhere()) == moved_expr(other, nowhere()),
    ensures
        twin_stmts(
            lower::case_of(cx, st, disc, t),
            lower::case_of(dx, rt, other, u),
        ),
    decreases size(t), 8int,
{
    let a = cx.source.text;
    let b = dx.source.text;
    parts_fit(t);
    nodes_alike(a, t, b, u);

    let xs = items(t, "consequent"@);
    let ys = items(u, "consequent"@);
    stmts_stay(cx, st, xs, dx, rt, ys, 0, seq![], seq![]);
    let x = lower::stmts_from(cx, st, xs, 0, seq![]);
    let y = lower::stmts_from(dx, rt, ys, 0, seq![]);
    optional_stays(cx, x.0, t, dx, y.0, u, "test"@);
    let p = lower::optional_expr(cx, x.0, t, "test"@);
    let q = lower::optional_expr(dx, y.0, u, "test"@);
    if p.1 is Some {
        let l = ExprView::Binary {
            op: BinOp::Eq,
            left: Box::new(disc),
            right: Box::new(p.1->0),
        };
        let r = ExprView::Binary {
            op: BinOp::Eq,
            left: Box::new(other),
            right: Box::new(q.1->0),
        };
        assert(moved_expr(l, nowhere()) == moved_expr(r, nowhere()));
    }
}

proof fn cases_stay(
    cx: AroundView,
    st: FoundView,
    xs: Seq<TreeView>,
    dx: AroundView,
    rt: FoundView,
    ys: Seq<TreeView>,
    i: int,
    disc: ExprView,
    other: ExprView,
    acc: Seq<StmtView>,
    bcc: Seq<StmtView>,
)
    requires
        facing(cx, dx),
        even(st, rt),
        all_alike(cx.source.text, xs, dx.source.text, ys),
        0 <= i,
        moved_expr(disc, nowhere()) == moved_expr(other, nowhere()),
        moved_stmts(acc, nowhere()) == moved_stmts(bcc, nowhere()),
    ensures
        twin_blocks(
            lower::cases_from(cx, st, disc, xs, i, acc),
            lower::cases_from(dx, rt, other, ys, i, bcc),
        ),
    decreases sizes(xs, 0), 10 + xs.len() - i,
{
    items_fit(xs);
    if i < xs.len() {
        case_stays(cx, st, xs[i], dx, rt, ys[i], disc, other);
        let x = lower::case_of(cx, st, disc, xs[i]);
        let y = lower::case_of(dx, rt, other, ys[i]);
        pushed_stmts(acc, x.1, bcc, y.1);
        cases_stay(cx, x.0, xs, dx, y.0, ys, i + 1, disc, other, acc.push(x.1), bcc.push(y.1));
    }
}

proof fn loop_stays(
    cx: AroundView,
    st: FoundView,
    t: TreeView,
    dx: AroundView,
    rt: FoundView,
    u: TreeView,
    binding: Option<Text>,
    over: Text,
)
    requires
        facing(cx, dx),
        even(st, rt),
        alike(cx.source.text, t, dx.source.text, u),
        !is_place(over),
    ensures
        twin_stmts(
            lower::loop_of(cx, st, t, binding, over),
            lower::loop_of(dx, rt, u, binding, over),
        ),
    decreases size(t), 7int,
{
    let a = cx.source.text;
    let b = dx.source.text;
    parts_fit(t);
    nodes_alike(a, t, b, u);

    expr_at_stays(cx, st, t, dx, rt, u, over);
    let x = lower::expr_at(cx, st, t, over);
    let y = lower::expr_at(dx, rt, u, over);
    block_at_stays(cx, x.0, t, dx, y.0, u, "body"@);
}

proof fn loop_bindings_agree(a: Text, t: TreeView, b: Text, u: TreeView)
    requires
        alike(a, t, b, u),
    ensures
        lower::loop_binding(t) == lower::loop_binding(u),
{
    nodes_alike(a, t, b, u);
    if part(t, "left"@) is Some {
        let v = part(t, "left"@)->0;
        let w = part(u, "left"@)->0;
        nodes_alike(a, v, b, w);
        if items(v, "declarations"@).len() > 0 {
            let x = items(v, "declarations"@)[0];
            let y = items(w, "declarations"@)[0];
            nodes_alike(a, x, b, y);
            names_alike(a, part(x, "id"@), b, part(y, "id"@));
        }
    }
}

proof fn body_within_stays(
    cx: AroundView,
    st: FoundView,
    t: TreeView,
    dx: AroundView,
    rt: FoundView,
    u: TreeView,
    key: Text,
)
    requires
        facing(cx, dx),
        even(st, rt),
        alike(cx.source.text, t, dx.source.text, u),
        !is_place(key),
    ensures
        twin_blocks(
            lower::body_within(cx, st, t, key),
            lower::body_within(dx, rt, u, key),
        ),
    decreases size(t), 5int,
{
    let a = cx.source.text;
    let b = dx.source.text;
    parts_fit(t);
    nodes_alike(a, t, b, u);

    if part(t, key) is Some {
        let v = part(t, key)->0;
        let w = part(u, key)->0;
        parts_fit(v);
        nodes_alike(a, v, b, w);
        stmts_stay(cx, st, items(v, "body"@), dx, rt, items(w, "body"@), 0, seq![], seq![]);
    }
}

proof fn try_stays(
    cx: AroundView,
    st: FoundView,
    t: TreeView,
    dx: AroundView,
    rt: FoundView,
    u: TreeView,
)
    requires
        facing(cx, dx),
        even(st, rt),
        alike(cx.source.text, t, dx.source.text, u),
    ensures
        twin_stmts(
            lower::try_of(cx, st, t),
            lower::try_of(dx, rt, u),
        ),
    decreases size(t), 7int,
{
    let a = cx.source.text;
    let b = dx.source.text;
    parts_fit(t);
    nodes_alike(a, t, b, u);

    body_within_stays(cx, st, t, dx, rt, u, "block"@);
    let x = lower::body_within(cx, st, t, "block"@);
    let y = lower::body_within(dx, rt, u, "block"@);
    if part(t, "handler"@) is Some {
        let v = part(t, "handler"@)->0;
        let w = part(u, "handler"@)->0;
        body_within_stays(cx, x.0, v, dx, y.0, w, "body"@);
        let p = lower::body_within(cx, x.0, v, "body"@);
        let q = lower::body_within(dx, y.0, w, "body"@);
        body_within_stays(cx, p.0, t, dx, q.0, u, "finalizer"@);
    } else {
        body_within_stays(cx, x.0, t, dx, y.0, u, "finalizer"@);
    }
}

proof fn if_stays(
    cx: AroundView,
    st: FoundView,
    t: TreeView,
    dx: AroundView,
    rt: FoundView,
    u: TreeView,
)
    requires
        facing(cx, dx),
        even(st, rt),
        alike(cx.source.text, t, dx.source.text, u),
    ensures
        twin_stmts(
            lower::if_of(cx, st, t),
            lower::if_of(dx, rt, u),
        ),
    decreases size(t), 7int,
{
    let a = cx.source.text;
    let b = dx.source.text;
    parts_fit(t);
    nodes_alike(a, t, b, u);

    expr_at_stays(cx, st, t, dx, rt, u, "test"@);
    let x = lower::expr_at(cx, st, t, "test"@);
    let y = lower::expr_at(dx, rt, u, "test"@);
    block_at_stays(cx, x.0, t, dx, y.0, u, "consequent"@);
    let p = lower::block_at(cx, x.0, t, "consequent"@);
    let q = lower::block_at(dx, y.0, u, "consequent"@);
    block_at_stays(cx, p.0, t, dx, q.0, u, "alternate"@);
}

proof fn switch_stays(
    cx: AroundView,
    st: FoundView,
    t: TreeView,
    dx: AroundView,
    rt: FoundView,
    u: TreeView,
)
    requires
        facing(cx, dx),
        even(st, rt),
        alike(cx.source.text, t, dx.source.text, u),
    ensures
        twin_stmts(
            lower::switch_of(cx, st, t),
            lower::switch_of(dx, rt, u),
        ),
    decreases size(t), 7int,
{
    let a = cx.source.text;
    let b = dx.source.text;
    parts_fit(t);
    nodes_alike(a, t, b, u);

    expr_at_stays(cx, st, t, dx, rt, u, "discriminant"@);
    let x = lower::expr_at(cx, st, t, "discriminant"@);
    let y = lower::expr_at(dx, rt, u, "discriminant"@);
    let xs = items(t, "cases"@);
    let ys = items(u, "cases"@);
    cases_stay(cx, x.0, xs, dx, y.0, ys, 0, x.1, y.1, seq![], seq![]);
}

proof fn inner_function_stays(
    cx: AroundView,
    st: FoundView,
    t: TreeView,
    dx: AroundView,
    rt: FoundView,
    u: TreeView,
)
    requires
        facing(cx, dx),
        even(st, rt),
        alike(cx.source.text, t, dx.source.text, u),
    ensures
        even(
            lower::inner_function(cx, st, t),
            lower::inner_function(dx, rt, u),
        ),
    decreases size(t), 8int,
{
    let a = cx.source.text;
    let b = dx.source.text;
    parts_fit(t);
    nodes_alike(a, t, b, u);

    names_alike(a, part(t, "id"@), b, part(u, "id"@));
    if let Some(name) = syntax::ident(part(t, "id"@)) {
        function_closure_stays(cx, st, t, dx, rt, u, Some(name));
    }
}

proof fn stmt_stays(
    cx: AroundView,
    st: FoundView,
    t: TreeView,
    dx: AroundView,
    rt: FoundView,
    u: TreeView,
)
    requires
        facing(cx, dx),
        even(st, rt),
        alike(cx.source.text, t, dx.source.text, u),
    ensures
        twin_options(
            lower::stmt_of(cx, st, t),
            lower::stmt_of(dx, rt, u),
        ),
    decreases size(t), 9int,
{
    let a = cx.source.text;
    let b = dx.source.text;
    parts_fit(t);
    nodes_alike(a, t, b, u);

    fields_of_alike(a, t, b, u, "directive"@);
    let k = kind(t);
    if k == "ExpressionStatement"@ {
        expr_at_stays(cx, st, t, dx, rt, u, "expression"@);
    } else if k == "VariableDeclaration"@ {
        let xs = items(t, "declarations"@);
        let ys = items(u, "declarations"@);
        declarators_stay(cx, st, xs, dx, rt, ys, 0, seq![], seq![]);
        single_stays(
            lower::declarators_from(cx, st, xs, 0, seq![]).1,
            lower::declarators_from(dx, rt, ys, 0, seq![]).1,
        );
    } else if k == "IfStatement"@ {
        if_stays(cx, st, t, dx, rt, u);
    } else if k == "ReturnStatement"@ {
        optional_stays(cx, st, t, dx, rt, u, "argument"@);
    } else if k == "ThrowStatement"@ {
        expr_at_stays(cx, st, t, dx, rt, u, "argument"@);
    } else if k == "BlockStatement"@ {
        stmts_stay(cx, st, items(t, "body"@), dx, rt, items(u, "body"@), 0, seq![], seq![]);
    } else if k == "ForOfStatement"@ {
        loop_bindings_agree(a, t, b, u);
        loop_stays(cx, st, t, dx, rt, u, lower::loop_binding(t), "right"@);
    } else if k == "ForInStatement"@ {
        loop_stays(cx, st, t, dx, rt, u, None, "right"@);
    } else if k == "ForStatement"@ {
        block_at_stays(cx, st, t, dx, rt, u, "body"@);
    } else if k == "WhileStatement"@ || k == "DoWhileStatement"@ {
        loop_stays(cx, st, t, dx, rt, u, None, "test"@);
    } else if k == "TryStatement"@ {
        try_stays(cx, st, t, dx, rt, u);
    } else if k == "SwitchStatement"@ {
        switch_stays(cx, st, t, dx, rt, u);
    } else if lower::declares_function(k) {
        inner_function_stays(cx, st, t, dx, rt, u);
    }
}

// ---- expressions

proof fn literals_agree(cx: AroundView, t: TreeView, dx: AroundView, u: TreeView)
    requires
        alike(cx.source.text, t, dx.source.text, u),
    ensures
        lower::literal_of(cx, t) == lower::literal_of(dx, u),
{
    nodes_alike(cx.source.text, t, dx.source.text, u);
}

proof fn cooked_agree(a: Text, xs: Seq<TreeView>, b: Text, ys: Seq<TreeView>, i: int)
    requires
        all_alike(a, xs, b, ys),
        0 <= i,
    ensures
        lower::cooked_from(xs, i) == lower::cooked_from(ys, i),
    decreases xs.len() - i,
{
    if i < xs.len() {
        nodes_alike(a, xs[i], b, ys[i]);
        if part(xs[i], "value"@) is Some {
            nodes_alike(a, part(xs[i], "value"@)->0, b, part(ys[i], "value"@)->0);
        }
        cooked_agree(a, xs, b, ys, i + 1);
    }
}

proof fn expr_at_stays(
    cx: AroundView,
    st: FoundView,
    t: TreeView,
    dx: AroundView,
    rt: FoundView,
    u: TreeView,
    key: Text,
)
    requires
        facing(cx, dx),
        even(st, rt),
        alike(cx.source.text, t, dx.source.text, u),
        !is_place(key),
    ensures
        twin_exprs(
            lower::expr_at(cx, st, t, key),
            lower::expr_at(dx, rt, u, key),
        ),
    decreases size(t), 5int,
{
    parts_fit(t);
    fields_of_alike(cx.source.text, t, dx.source.text, u, key);
    if part(t, key) is Some {
        expr_stays(cx, st, part(t, key)->0, dx, rt, part(u, key)->0);
    }
}

proof fn optional_stays(
    cx: AroundView,
    st: FoundView,
    t: TreeView,
    dx: AroundView,
    rt: FoundView,
    u: TreeView,
    key: Text,
)
    requires
        facing(cx, dx),
        even(st, rt),
        alike(cx.source.text, t, dx.source.text, u),
        !is_place(key),
    ensures
        twin_optionals(
            lower::optional_expr(cx, st, t, key),
            lower::optional_expr(dx, rt, u, key),
        ),
    decreases size(t), 5int,
{
    parts_fit(t);
    fields_of_alike(cx.source.text, t, dx.source.text, u, key);
    if part(t, key) is Some {
        expr_stays(cx, st, part(t, key)->0, dx, rt, part(u, key)->0);
    }
}

proof fn exprs_stay(
    cx: AroundView,
    st: FoundView,
    xs: Seq<TreeView>,
    dx: AroundView,
    rt: FoundView,
    ys: Seq<TreeView>,
    i: int,
    acc: Seq<ExprView>,
    bcc: Seq<ExprView>,
)
    requires
        facing(cx, dx),
        even(st, rt),
        all_alike(cx.source.text, xs, dx.source.text, ys),
        0 <= i,
        moved_exprs(acc, nowhere()) == moved_exprs(bcc, nowhere()),
    ensures
        twin_lists(
            lower::exprs_from(cx, st, xs, i, acc),
            lower::exprs_from(dx, rt, ys, i, bcc),
        ),
    decreases sizes(xs, 0), 10 + xs.len() - i,
{
    items_fit(xs);
    if i < xs.len() {
        expr_stays(cx, st, xs[i], dx, rt, ys[i]);
        let x = lower::expr_of(cx, st, xs[i]);
        let y = lower::expr_of(dx, rt, ys[i]);
        pushed_exprs(acc, x.1, bcc, y.1);
        exprs_stay(cx, x.0, xs, dx, y.0, ys, i + 1, acc.push(x.1), bcc.push(y.1));
    }
}

proof fn args_stay(
    cx: AroundView,
    st: FoundView,
    xs: Seq<TreeView>,
    dx: AroundView,
    rt: FoundView,
    ys: Seq<TreeView>,
    i: int,
    hint: Option<Text>,
    acc: Seq<ExprView>,
    bcc: Seq<ExprView>,
)
    requires
        facing(cx, dx),
        even(st, rt),
        all_alike(cx.source.text, xs, dx.source.text, ys),
        0 <= i,
        moved_exprs(acc, nowhere()) == moved_exprs(bcc, nowhere()),
    ensures
        twin_lists(
            lower::args_from(cx, st, xs, i, hint, acc),
            lower::args_from(dx, rt, ys, i, hint, bcc),
        ),
    decreases sizes(xs, 0), 10 + xs.len() - i,
{
    items_fit(xs);
    if i < xs.len() {
        arg_stays(cx, st, xs[i], dx, rt, ys[i], hint);
        let x = lower::arg_of(cx, st, xs[i], hint);
        let y = lower::arg_of(dx, rt, ys[i], hint);
        pushed_exprs(acc, x.1, bcc, y.1);
        args_stay(cx, x.0, xs, dx, y.0, ys, i + 1, hint, acc.push(x.1), bcc.push(y.1));
    }
}

proof fn elements_stay(
    cx: AroundView,
    st: FoundView,
    xs: Seq<TreeView>,
    dx: AroundView,
    rt: FoundView,
    ys: Seq<TreeView>,
    i: int,
    acc: Seq<ExprView>,
    bcc: Seq<ExprView>,
)
    requires
        facing(cx, dx),
        even(st, rt),
        all_alike(cx.source.text, xs, dx.source.text, ys),
        0 <= i,
        moved_exprs(acc, nowhere()) == moved_exprs(bcc, nowhere()),
    ensures
        twin_lists(
            lower::elements_from(cx, st, xs, i, acc),
            lower::elements_from(dx, rt, ys, i, bcc),
        ),
    decreases sizes(xs, 0), 10 + xs.len() - i,
{
    let a = cx.source.text;
    let b = dx.source.text;
    items_fit(xs);
    if i < xs.len() {
        nodes_alike(a, xs[i], b, ys[i]);
        if xs[i] is Null {
            elements_stay(cx, st, xs, dx, rt, ys, i + 1, acc, bcc);
        } else {
            let x = if kind(xs[i]) == "SpreadElement"@ {
                expr_at_stays(cx, st, xs[i], dx, rt, ys[i], "argument"@);
                lower::expr_at(cx, st, xs[i], "argument"@)
            } else {
                expr_stays(cx, st, xs[i], dx, rt, ys[i]);
                lower::expr_of(cx, st, xs[i])
            };
            let y = if kind(xs[i]) == "SpreadElement"@ {
                lower::expr_at(dx, rt, ys[i], "argument"@)
            } else {
                lower::expr_of(dx, rt, ys[i])
            };
            pushed_exprs(acc, x.1, bcc, y.1);
            elements_stay(cx, x.0, xs, dx, y.0, ys, i + 1, acc.push(x.1), bcc.push(y.1));
        }
    }
}

proof fn property_stays(
    cx: AroundView,
    st: FoundView,
    t: TreeView,
    dx: AroundView,
    rt: FoundView,
    u: TreeView,
)
    requires
        facing(cx, dx),
        even(st, rt),
        alike(cx.source.text, t, dx.source.text, u),
    ensures
        twin_properties(
            lower::property_of(cx, st, t),
            lower::property_of(dx, rt, u),
        ),
    decreases size(t), 9int,
{
    let a = cx.source.text;
    let b = dx.source.text;
    parts_fit(t);
    nodes_alike(a, t, b, u);

    expr_at_stays(cx, st, t, dx, rt, u, "argument"@);
    expr_at_stays(cx, st, t, dx, rt, u, "value"@);
}

proof fn properties_stay(
    cx: AroundView,
    st: FoundView,
    xs: Seq<TreeView>,
    dx: AroundView,
    rt: FoundView,
    ys: Seq<TreeView>,
    i: int,
    acc: Seq<(Text, ExprView)>,
    bcc: Seq<(Text, ExprView)>,
)
    requires
        facing(cx, dx),
        even(st, rt),
        all_alike(cx.source.text, xs, dx.source.text, ys),
        0 <= i,
        moved_fields(acc, nowhere()) == moved_fields(bcc, nowhere()),
    ensures
        twin_fields(
            lower::properties_from(cx, st, xs, i, acc),
            lower::properties_from(dx, rt, ys, i, bcc),
        ),
    decreases sizes(xs, 0), 10 + xs.len() - i,
{
    items_fit(xs);
    if i < xs.len() {
        property_stays(cx, st, xs[i], dx, rt, ys[i]);
        let x = lower::property_of(cx, st, xs[i]);
        let y = lower::property_of(dx, rt, ys[i]);
        if x.1 is Some {
            pushed_fields(acc, x.1->0, bcc, y.1->0);
            properties_stay(cx, x.0, xs, dx, y.0, ys, i + 1, acc.push(x.1->0), bcc.push(y.1->0));
        } else {
            properties_stay(cx, x.0, xs, dx, y.0, ys, i + 1, acc, bcc);
        }
    }
}

proof fn member_stays(
    cx: AroundView,
    st: FoundView,
    t: TreeView,
    dx: AroundView,
    rt: FoundView,
    u: TreeView,
)
    requires
        facing(cx, dx),
        even(st, rt),
        alike(cx.source.text, t, dx.source.text, u),
    ensures
        twin_exprs(
            lower::member_of(cx, st, t),
            lower::member_of(dx, rt, u),
        ),
    decreases size(t), 7int,
{
    let a = cx.source.text;
    let b = dx.source.text;
    parts_fit(t);
    nodes_alike(a, t, b, u);

    names_alike(a, part(t, "property"@), b, part(u, "property"@));
    expr_at_stays(cx, st, t, dx, rt, u, "object"@);
    let x = lower::expr_at(cx, st, t, "object"@);
    let y = lower::expr_at(dx, rt, u, "object"@);
    expr_at_stays(cx, x.0, t, dx, y.0, u, "property"@);
}

proof fn hints_agree(
    a: Text,
    xs: Seq<TreeView>,
    b: Text,
    ys: Seq<TreeView>,
    callee: ExprView,
    other: ExprView,
)
    requires
        all_alike(a, xs, b, ys),
        moved_expr(callee, nowhere()) == moved_expr(other, nowhere()),
    ensures
        lower::call_hint(callee, xs) == lower::call_hint(other, ys),
{
    if xs.len() > 0 {
        names_alike(a, Some(xs[0]), b, Some(ys[0]));
    }
}

proof fn calls_agree(c: CallView, d: CallView)
    requires
        moved_expr(c.callee, nowhere()) == moved_expr(d.callee, nowhere()),
        moved_exprs(c.args, nowhere()) == moved_exprs(d.args, nowhere()),
    ensures
        moved_expr(ExprView::Call(Box::new(c)), nowhere()) == moved_expr(
            ExprView::Call(Box::new(d)),
            nowhere(),
        ),
{
    assert(moved_call(c, nowhere()) == moved_call(d, nowhere()));
}

proof fn call_stays(
    cx: AroundView,
    st: FoundView,
    t: TreeView,
    dx: AroundView,
    rt: FoundView,
    u: TreeView,
)
    requires
        facing(cx, dx),
        even(st, rt),
        alike(cx.source.text, t, dx.source.text, u),
    ensures
        twin_exprs(
            lower::call_of(cx, st, t),
            lower::call_of(dx, rt, u),
        ),
    decreases size(t), 7int,
{
    let a = cx.source.text;
    let b = dx.source.text;
    parts_fit(t);
    nodes_alike(a, t, b, u);

    expr_at_stays(cx, st, t, dx, rt, u, "callee"@);
    let x = lower::expr_at(cx, st, t, "callee"@);
    let y = lower::expr_at(dx, rt, u, "callee"@);
    let xs = items(t, "arguments"@);
    let ys = items(u, "arguments"@);
    hints_agree(a, xs, b, ys, x.1, y.1);
    let hint = lower::call_hint(x.1, xs);
    args_stay(cx, x.0, xs, dx, y.0, ys, 0, hint, seq![], seq![]);
    let p = lower::args_from(cx, x.0, xs, 0, hint, seq![]);
    let q = lower::args_from(dx, y.0, ys, 0, hint, seq![]);
    calls_agree(
        CallView { callee: x.1, args: p.1, loc: lower::loc_of(cx, t) },
        CallView { callee: y.1, args: q.1, loc: lower::loc_of(dx, u) },
    );
}

proof fn arg_stays(
    cx: AroundView,
    st: FoundView,
    t: TreeView,
    dx: AroundView,
    rt: FoundView,
    u: TreeView,
    hint: Option<Text>,
)
    requires
        facing(cx, dx),
        even(st, rt),
        alike(cx.source.text, t, dx.source.text, u),
    ensures
        twin_exprs(
            lower::arg_of(cx, st, t, hint),
            lower::arg_of(dx, rt, u, hint),
        ),
    decreases size(t), 9int,
{
    let a = cx.source.text;
    let b = dx.source.text;
    parts_fit(t);
    nodes_alike(a, t, b, u);

    let k = kind(t);
    if k == "SpreadElement"@ {
        expr_at_stays(cx, st, t, dx, rt, u, "argument"@);
    } else if k == "ArrowFunctionExpression"@ {
        arrow_closure_stays(cx, st, t, dx, rt, u, hint);
    } else if k == "FunctionExpression"@ {
        function_closure_stays(cx, st, t, dx, rt, u, hint);
    } else {
        expr_stays(cx, st, t, dx, rt, u);
    }
}

proof fn chain_stays(
    cx: AroundView,
    st: FoundView,
    t: TreeView,
    dx: AroundView,
    rt: FoundView,
    u: TreeView,
)
    requires
        facing(cx, dx),
        even(st, rt),
        alike(cx.source.text, t, dx.source.text, u),
    ensures
        twin_exprs(
            lower::chain_of(cx, st, t),
            lower::chain_of(dx, rt, u),
        ),
    decreases size(t), 7int,
{
    let a = cx.source.text;
    let b = dx.source.text;
    parts_fit(t);
    nodes_alike(a, t, b, u);

    if part(t, "expression"@) is Some {
        let v = part(t, "expression"@)->0;
        let w = part(u, "expression"@)->0;
        nodes_alike(a, v, b, w);
        if kind(v) == "CallExpression"@ {
            call_stays(cx, st, v, dx, rt, w);
        } else if kind(v) == "MemberExpression"@ && syntax::static_property(v) is Some {
            expr_at_stays(cx, st, v, dx, rt, w, "object"@);
        } else if kind(v) == "TSNonNullExpression"@ {
            expr_at_stays(cx, st, v, dx, rt, w, "expression"@);
        }
    }
}

proof fn target_stays(
    cx: AroundView,
    st: FoundView,
    t: TreeView,
    dx: AroundView,
    rt: FoundView,
    u: TreeView,
)
    requires
        facing(cx, dx),
        even(st, rt),
        alike(cx.source.text, t, dx.source.text, u),
    ensures
        twin_exprs(
            lower::target_of(cx, st, t),
            lower::target_of(dx, rt, u),
        ),
    decreases size(t), 8int,
{
    let a = cx.source.text;
    let b = dx.source.text;
    parts_fit(t);
    nodes_alike(a, t, b, u);

    if kind(t) == "MemberExpression"@ {
        member_stays(cx, st, t, dx, rt, u);
    }
}

proof fn assign_stays(
    cx: AroundView,
    st: FoundView,
    t: TreeView,
    dx: AroundView,
    rt: FoundView,
    u: TreeView,
)
    requires
        facing(cx, dx),
        even(st, rt),
        alike(cx.source.text, t, dx.source.text, u),
    ensures
        twin_exprs(
            lower::assign_of(cx, st, t),
            lower::assign_of(dx, rt, u),
        ),
    decreases size(t), 7int,
{
    let a = cx.source.text;
    let b = dx.source.text;
    parts_fit(t);
    nodes_alike(a, t, b, u);

    if part(t, "left"@) is Some {
        let v = part(t, "left"@)->0;
        let w = part(u, "left"@)->0;
        target_stays(cx, st, v, dx, rt, w);
        let x = lower::target_of(cx, st, v);
        let y = lower::target_of(dx, rt, w);
        expr_at_stays(cx, x.0, t, dx, y.0, u, "right"@);
    } else {
        expr_at_stays(cx, st, t, dx, rt, u, "right"@);
    }
}

proof fn new_stays(
    cx: AroundView,
    st: FoundView,
    t: TreeView,
    dx: AroundView,
    rt: FoundView,
    u: TreeView,
)
    requires
        facing(cx, dx),
        even(st, rt),
        alike(cx.source.text, t, dx.source.text, u),
    ensures
        twin_exprs(
            lower::new_of(cx, st, t),
            lower::new_of(dx, rt, u),
        ),
    decreases size(t), 7int,
{
    let a = cx.source.text;
    let b = dx.source.text;
    parts_fit(t);
    nodes_alike(a, t, b, u);

    expr_at_stays(cx, st, t, dx, rt, u, "callee"@);
    let x = lower::expr_at(cx, st, t, "callee"@);
    let y = lower::expr_at(dx, rt, u, "callee"@);
    let xs = items(t, "arguments"@);
    let ys = items(u, "arguments"@);
    args_stay(cx, x.0, xs, dx, y.0, ys, 0, None, seq![], seq![]);
}

proof fn binary_stays(
    cx: AroundView,
    st: FoundView,
    t: TreeView,
    dx: AroundView,
    rt: FoundView,
    u: TreeView,
)
    requires
        facing(cx, dx),
        even(st, rt),
        alike(cx.source.text, t, dx.source.text, u),
    ensures
        twin_exprs(
            lower::binary_of(cx, st, t),
            lower::binary_of(dx, rt, u),
        ),
    decreases size(t), 7int,
{
    let a = cx.source.text;
    let b = dx.source.text;
    parts_fit(t);
    nodes_alike(a, t, b, u);
    names_alike(a, part(t, "left"@), b, part(u, "left"@));
    expr_at_stays(cx, st, t, dx, rt, u, "left"@);
    let x = lower::expr_at(cx, st, t, "left"@);
    let y = lower::expr_at(dx, rt, u, "left"@);
    expr_at_stays(cx, x.0, t, dx, y.0, u, "right"@);
}

proof fn logical_stays(
    cx: AroundView,
    st: FoundView,
    t: TreeView,
    dx: AroundView,
    rt: FoundView,
    u: TreeView,
)
    requires
        facing(cx, dx),
        even(st, rt),
        alike(cx.source.text, t, dx.source.text, u),
    ensures
        twin_exprs(
            lower::logical_of(cx, st, t),
            lower::logical_of(dx, rt, u),
        ),
    decreases size(t), 7int,
{
    let a = cx.source.text;
    let b = dx.source.text;
    parts_fit(t);
    nodes_alike(a, t, b, u);
    expr_at_stays(cx, st, t, dx, rt, u, "left"@);
    let x = lower::expr_at(cx, st, t, "left"@);
    let y = lower::expr_at(dx, rt, u, "left"@);
    expr_at_stays(cx, x.0, t, dx, y.0, u, "right"@);
}

proof fn conditional_stays(
    cx: AroundView,
    st: FoundView,
    t: TreeView,
    dx: AroundView,
    rt: FoundView,
    u: TreeView,
)
    requires
        facing(cx, dx),
        even(st, rt),
        alike(cx.source.text, t, dx.source.text, u),
    ensures
        twin_exprs(
            lower::conditional_of(cx, st, t),
            lower::conditional_of(dx, rt, u),
        ),
    decreases size(t), 7int,
{
    let a = cx.source.text;
    let b = dx.source.text;
    parts_fit(t);
    nodes_alike(a, t, b, u);

    expr_at_stays(cx, st, t, dx, rt, u, "test"@);
    let x = lower::expr_at(cx, st, t, "test"@);
    let y = lower::expr_at(dx, rt, u, "test"@);
    expr_at_stays(cx, x.0, t, dx, y.0, u, "consequent"@);
    let p = lower::expr_at(cx, x.0, t, "consequent"@);
    let q = lower::expr_at(dx, y.0, u, "consequent"@);
    expr_at_stays(cx, p.0, t, dx, q.0, u, "alternate"@);
}

proof fn sequence_stays(
    cx: AroundView,
    st: FoundView,
    t: TreeView,
    dx: AroundView,
    rt: FoundView,
    u: TreeView,
)
    requires
        facing(cx, dx),
        even(st, rt),
        alike(cx.source.text, t, dx.source.text, u),
    ensures
        twin_exprs(
            lower::sequence_of(cx, st, t),
            lower::sequence_of(dx, rt, u),
        ),
    decreases size(t), 7int,
{
    let a = cx.source.text;
    let b = dx.source.text;
    parts_fit(t);
    nodes_alike(a, t, b, u);

    let xs = items(t, "expressions"@);
    let ys = items(u, "expressions"@);
    items_fit(xs);
    if xs.len() > 0 {
        expr_stays(cx, st, xs[xs.len() - 1], dx, rt, ys[xs.len() - 1]);
    }
}

proof fn expr_stays(
    cx: AroundView,
    st: FoundView,
    t: TreeView,
    dx: AroundView,
    rt: FoundView,
    u: TreeView,
)
    requires
        facing(cx, dx),
        even(st, rt),
        alike(cx.source.text, t, dx.source.text, u),
    ensures
        twin_exprs(
            lower::expr_of(cx, st, t),
            lower::expr_of(dx, rt, u),
        ),
    decreases size(t), 8int,
{
    let a = cx.source.text;
    let b = dx.source.text;
    parts_fit(t);
    nodes_alike(a, t, b, u);

    let k = kind(t);
    if k == "Literal"@ {
        literals_agree(cx, t, dx, u);
    } else if k == "TemplateLiteral"@ {
        let xs = items(t, "expressions"@);
        let ys = items(u, "expressions"@);
        exprs_stay(cx, st, xs, dx, rt, ys, 0, seq![], seq![]);
        cooked_agree(a, items(t, "quasis"@), b, items(u, "quasis"@), 0);
    } else if k == "MemberExpression"@ {
        member_stays(cx, st, t, dx, rt, u);
    } else if k == "CallExpression"@ {
        call_stays(cx, st, t, dx, rt, u);
    } else if k == "ChainExpression"@ {
        chain_stays(cx, st, t, dx, rt, u);
    } else if k == "NewExpression"@ {
        new_stays(cx, st, t, dx, rt, u);
    } else if k == "BinaryExpression"@ {
        binary_stays(cx, st, t, dx, rt, u);
    } else if k == "LogicalExpression"@ {
        logical_stays(cx, st, t, dx, rt, u);
    } else if k == "UnaryExpression"@ && word(t, "operator"@) == "!"@ {
        expr_at_stays(cx, st, t, dx, rt, u, "argument"@);
    } else if lower::is_transparent(k) {
        expr_at_stays(cx, st, t, dx, rt, u, "expression"@);
    } else if k == "AwaitExpression"@ {
        expr_at_stays(cx, st, t, dx, rt, u, "argument"@);
    } else if k == "ObjectExpression"@ {
        let xs = items(t, "properties"@);
        let ys = items(u, "properties"@);
        properties_stay(cx, st, xs, dx, rt, ys, 0, seq![], seq![]);
    } else if k == "ArrayExpression"@ {
        let xs = items(t, "elements"@);
        let ys = items(u, "elements"@);
        elements_stay(cx, st, xs, dx, rt, ys, 0, seq![], seq![]);
    } else if k == "ConditionalExpression"@ {
        conditional_stays(cx, st, t, dx, rt, u);
    } else if k == "AssignmentExpression"@ {
        assign_stays(cx, st, t, dx, rt, u);
    } else if k == "ArrowFunctionExpression"@ {
        arrow_closure_stays(cx, st, t, dx, rt, u, None);
    } else if k == "FunctionExpression"@ {
        function_closure_stays(cx, st, t, dx, rt, u, None);
    } else if k == "SequenceExpression"@ {
        sequence_stays(cx, st, t, dx, rt, u);
    }
}


// ---- declarations

proof fn plain_args_stay(
    cx: AroundView,
    st: FoundView,
    xs: Seq<TreeView>,
    dx: AroundView,
    rt: FoundView,
    ys: Seq<TreeView>,
    i: int,
    acc: Seq<ExprView>,
    bcc: Seq<ExprView>,
)
    requires
        facing(cx, dx),
        even(st, rt),
        all_alike(cx.source.text, xs, dx.source.text, ys),
        0 <= i,
        moved_exprs(acc, nowhere()) == moved_exprs(bcc, nowhere()),
    ensures
        twin_lists(
            front::plain_args_from(cx, st, xs, i, acc),
            front::plain_args_from(dx, rt, ys, i, bcc),
        ),
    decreases xs.len() - i,
{
    if i < xs.len() {
        nodes_alike(cx.source.text, xs[i], dx.source.text, ys[i]);
        if kind(xs[i]) == "SpreadElement"@ {
            plain_args_stay(cx, st, xs, dx, rt, ys, i + 1, acc, bcc);
        } else {
            expr_stays(cx, st, xs[i], dx, rt, ys[i]);
            let x = lower::expr_of(cx, st, xs[i]);
            let y = lower::expr_of(dx, rt, ys[i]);
            pushed_exprs(acc, x.1, bcc, y.1);
            plain_args_stay(cx, x.0, xs, dx, y.0, ys, i + 1, acc.push(x.1), bcc.push(y.1));
        }
    }
}

proof fn decorator_stays(
    cx: AroundView,
    st: FoundView,
    t: TreeView,
    dx: AroundView,
    rt: FoundView,
    u: TreeView,
)
    requires
        facing(cx, dx),
        even(st, rt),
        alike(cx.source.text, t, dx.source.text, u),
    ensures
        even(front::decorator_of(cx, st, t).0, front::decorator_of(dx, rt, u).0),
        moved_call(front::decorator_of(cx, st, t).1, nowhere()) == moved_call(
            front::decorator_of(dx, rt, u).1,
            nowhere(),
        ),
{
    let a = cx.source.text;
    let b = dx.source.text;
    nodes_alike(a, t, b, u);
    names_alike(a, part(t, "expression"@), b, part(u, "expression"@));
    if syntax::is_kind(part(t, "expression"@), "CallExpression"@) {
        let v = part(t, "expression"@)->0;
        let w = part(u, "expression"@)->0;
        nodes_alike(a, v, b, w);
        expr_at_stays(cx, st, v, dx, rt, w, "callee"@);
        let x = lower::expr_at(cx, st, v, "callee"@);
        let y = lower::expr_at(dx, rt, w, "callee"@);
        let xs = items(v, "arguments"@);
        let ys = items(w, "arguments"@);
        plain_args_stay(cx, x.0, xs, dx, y.0, ys, 0, seq![], seq![]);
    } else {
        expr_at_stays(cx, st, t, dx, rt, u, "expression"@);
    }
}

proof fn decorators_stay(
    cx: AroundView,
    st: FoundView,
    xs: Seq<TreeView>,
    dx: AroundView,
    rt: FoundView,
    ys: Seq<TreeView>,
    i: int,
    acc: Seq<CallView>,
    bcc: Seq<CallView>,
)
    requires
        facing(cx, dx),
        even(st, rt),
        all_alike(cx.source.text, xs, dx.source.text, ys),
        0 <= i,
        placeless_calls(acc) == placeless_calls(bcc),
    ensures
        even(
            front::decorators_from(cx, st, xs, i, acc).0,
            front::decorators_from(dx, rt, ys, i, bcc).0,
        ),
        placeless_calls(front::decorators_from(cx, st, xs, i, acc).1) == placeless_calls(
            front::decorators_from(dx, rt, ys, i, bcc).1,
        ),
    decreases xs.len() - i,
{
    if i < xs.len() {
        decorator_stays(cx, st, xs[i], dx, rt, ys[i]);
        let x = front::decorator_of(cx, st, xs[i]);
        let y = front::decorator_of(dx, rt, ys[i]);
        let f = nowhere();
        assert(placeless_calls(acc.push(x.1)) =~= placeless_calls(acc).push(moved_call(x.1, f)));
        assert(placeless_calls(bcc.push(y.1)) =~= placeless_calls(bcc).push(moved_call(y.1, f)));
        decorators_stay(cx, x.0, xs, dx, y.0, ys, i + 1, acc.push(x.1), bcc.push(y.1));
    }
}

proof fn last_named_agrees(fs: Seq<FunctionView>, gs: Seq<FunctionView>, id: Text, n: int)
    requires
        same_functions(fs, gs),
        n <= fs.len(),
    ensures
        front::last_named(fs, id, n) == front::last_named(gs, id, n),
        front::last_named(fs, id, n) < fs.len(),
    decreases n,
{
    if n > 0 {
        assert(placeless(fs[n - 1]) == placeless(gs[n - 1]));
        last_named_agrees(fs, gs, id, n - 1);
    }
}

proof fn decorated_stay(
    fs: Seq<FunctionView>,
    gs: Seq<FunctionView>,
    id: Text,
    ds: Seq<CallView>,
    es: Seq<CallView>,
)
    requires
        same_functions(fs, gs),
        placeless_calls(ds) == placeless_calls(es),
    ensures
        same_functions(front::decorated(fs, id, ds), front::decorated(gs, id, es)),
{
    last_named_agrees(fs, gs, id, fs.len() as int);
    let k = front::last_named(fs, id, fs.len() as int);
    if k >= 0 {
        assert(placeless(fs[k]) == placeless(gs[k]));
        let p = front::decorated(fs, id, ds);
        let q = front::decorated(gs, id, es);
        assert forall|i: int| 0 <= i < p.len() implies placeless(#[trigger] p[i]) == placeless(
            q[i],
        ) by {
            assert(placeless(fs[i]) == placeless(gs[i]));
        }
    }
}

proof fn method_stays(
    src: SourceView,
    c: BodyView,
    t: TreeView,
    dst: SourceView,
    d: BodyView,
    u: TreeView,
    class: Text,
    exported: bool,
)
    requires
        src.path == dst.path,
        even(c.found, d.found),
        alike(src.text, t, dst.text, u),
    ensures
        even(
            front::with_method(src, class, exported, c, t).found,
            front::with_method(dst, class, exported, d, u).found,
        ),
{
    let cx = front::around(src, None);
    let dx = front::around(dst, None);
    nodes_alike(src.text, t, dst.text, u);
    let v = match part(t, "value"@) {
        Some(f) => f,
        None => TreeView::Null,
    };
    let w = match part(u, "value"@) {
        Some(f) => f,
        None => TreeView::Null,
    };
    nothing_alike(src.text, dst.text);
    match syntax::key_name(t) {
        Some(key) => {
            let q = front::method_name(class, t, key);
            let k = if front::is_constructor(t) {
                FunctionKind::Constructor
            } else {
                FunctionKind::Method
            };
            function_stays(cx, c.found, v, dx, d.found, w, q, Some(class), k, exported, None);
            let x = lower::function_of(cx, c.found, v, q, Some(class), k, exported, None);
            let y = lower::function_of(dx, d.found, w, q, Some(class), k, exported, None);
            let xs = items(t, "decorators"@);
            let ys = items(u, "decorators"@);
            decorators_stay(cx, x, xs, dx, y, ys, 0, seq![], seq![]);
            let m = front::decorators_from(cx, x, xs, 0, seq![]);
            let n = front::decorators_from(dx, y, ys, 0, seq![]);
            decorated_stay(m.0.functions, n.0.functions, lower::id_of(cx, q), m.1, n.1);
        },
        None => {},
    }
}

/// A missing part says nothing in any text.
proof fn nothing_alike(a: Text, b: Text)
    ensures
        alike(a, TreeView::Null, b, TreeView::Null),
{
    assert(span::between(a, 0, 0) =~= span::between(b, 0, 0));
}

proof fn body_stays(
    src: SourceView,
    c: BodyView,
    xs: Seq<TreeView>,
    dst: SourceView,
    d: BodyView,
    ys: Seq<TreeView>,
    class: Text,
    exported: bool,
    i: int,
)
    requires
        src.path == dst.path,
        even(c.found, d.found),
        all_alike(src.text, xs, dst.text, ys),
        0 <= i,
    ensures
        even(
            front::body_from(src, class, exported, c, xs, i).found,
            front::body_from(dst, class, exported, d, ys, i).found,
        ),
    decreases xs.len() - i,
{
    if i < xs.len() {
        nodes_alike(src.text, xs[i], dst.text, ys[i]);
        method_stays(src, c, xs[i], dst, d, ys[i], class, exported);
        let x = front::with_element(src, class, exported, c, xs[i]);
        let y = front::with_element(dst, class, exported, d, ys[i]);
        body_stays(src, x, xs, dst, y, ys, class, exported, i + 1);
    }
}

proof fn class_stays(
    src: SourceView,
    c: DraftView,
    t: TreeView,
    dst: SourceView,
    d: DraftView,
    u: TreeView,
    exported: bool,
)
    requires
        src.path == dst.path,
        even(c.found, d.found),
        alike(src.text, t, dst.text, u),
    ensures
        even(
            front::with_class(src, c, t, exported).found,
            front::with_class(dst, d, u, exported).found,
        ),
{
    nodes_alike(src.text, t, dst.text, u);
    names_alike(src.text, part(t, "id"@), dst.text, part(u, "id"@));
    if part(t, "body"@) is Some {
        nodes_alike(src.text, part(t, "body"@)->0, dst.text, part(u, "body"@)->0);
    }
    match syntax::ident(part(t, "id"@)) {
        Some(name) => {
            let xs = front::inner_items(t, "body"@);
            let ys = front::inner_items(u, "body"@);
            assert(all_alike(src.text, xs, dst.text, ys));
            let p = BodyView { found: c.found, fields: seq![], methods: seq![] };
            let q = BodyView { found: d.found, fields: seq![], methods: seq![] };
            body_stays(src, p, xs, dst, q, ys, name, exported, 0);
            decorators_stay(
                front::around(src, None),
                front::body_from(src, name, exported, p, xs, 0).found,
                items(t, "decorators"@),
                front::around(dst, None),
                front::body_from(dst, name, exported, q, ys, 0).found,
                items(u, "decorators"@),
                0,
                seq![],
                seq![],
            );
        },
        None => {},
    }
}

proof fn declared_function_stays(
    src: SourceView,
    c: DraftView,
    t: TreeView,
    dst: SourceView,
    d: DraftView,
    u: TreeView,
    exported: bool,
)
    requires
        src.path == dst.path,
        even(c.found, d.found),
        alike(src.text, t, dst.text, u),
    ensures
        even(
            front::with_function(src, c, t, exported).found,
            front::with_function(dst, d, u, exported).found,
        ),
{
    nodes_alike(src.text, t, dst.text, u);
    names_alike(src.text, part(t, "id"@), dst.text, part(u, "id"@));
    if let Some(name) = syntax::ident(part(t, "id"@)) {
        function_stays(
            front::around(src, None),
            c.found,
            t,
            front::around(dst, None),
            d.found,
            u,
            name,
            None,
            FunctionKind::Function,
            exported,
            None,
        );
    }
}

proof fn variable_stays(
    src: SourceView,
    c: DraftView,
    t: TreeView,
    dst: SourceView,
    d: DraftView,
    u: TreeView,
    exported: bool,
)
    requires
        src.path == dst.path,
        even(c.found, d.found),
        alike(src.text, t, dst.text, u),
    ensures
        even(
            front::with_variable(src, c, t, exported).found,
            front::with_variable(dst, d, u, exported).found,
        ),
{
    let cx = front::around(src, None);
    let dx = front::around(dst, None);
    nodes_alike(src.text, t, dst.text, u);
    names_alike(src.text, part(t, "id"@), dst.text, part(u, "id"@));
    let v = part(t, "init"@);
    let w = part(u, "init"@);
    names_alike(src.text, v, dst.text, w);
    if let Some(name) = syntax::ident(part(t, "id"@)) {
        if syntax::is_kind(v, "ArrowFunctionExpression"@) {
            arrow_stays(cx, c.found, v->0, dx, d.found, w->0, name, exported);
        } else if syntax::is_kind(v, "FunctionExpression"@) {
            let k = FunctionKind::Function;
            function_stays(cx, c.found, v->0, dx, d.found, w->0, name, None, k, exported, None);
        } else {
            optional_stays(
                front::around(src, Some(name)),
                c.found,
                t,
                front::around(dst, Some(name)),
                d.found,
                u,
                "init"@,
            );
        }
    }
}

proof fn variables_stay(
    src: SourceView,
    c: DraftView,
    xs: Seq<TreeView>,
    dst: SourceView,
    d: DraftView,
    ys: Seq<TreeView>,
    i: int,
    exported: bool,
)
    requires
        src.path == dst.path,
        even(c.found, d.found),
        all_alike(src.text, xs, dst.text, ys),
        0 <= i,
    ensures
        even(
            front::variables_from(src, c, xs, i, exported).found,
            front::variables_from(dst, d, ys, i, exported).found,
        ),
    decreases xs.len() - i,
{
    if i < xs.len() {
        variable_stays(src, c, xs[i], dst, d, ys[i], exported);
        variables_stay(
            src,
            front::with_variable(src, c, xs[i], exported),
            xs,
            dst,
            front::with_variable(dst, d, ys[i], exported),
            ys,
            i + 1,
            exported,
        );
    }
}

proof fn declaration_stays(
    src: SourceView,
    c: DraftView,
    t: TreeView,
    dst: SourceView,
    d: DraftView,
    u: TreeView,
    exported: bool,
)
    requires
        src.path == dst.path,
        even(c.found, d.found),
        alike(src.text, t, dst.text, u),
    ensures
        even(
            front::with_declaration(src, c, t, exported).found,
            front::with_declaration(dst, d, u, exported).found,
        ),
{
    nodes_alike(src.text, t, dst.text, u);
    let k = kind(t);
    if lower::declares_function(k) {
        declared_function_stays(src, c, t, dst, d, u, exported);
    } else if k == "ClassDeclaration"@ {
        class_stays(src, c, t, dst, d, u, exported);
    } else if k == "VariableDeclaration"@ {
        let xs = items(t, "declarations"@);
        let ys = items(u, "declarations"@);
        variables_stay(src, c, xs, dst, d, ys, 0, exported);
    }
}

proof fn statement_stays(
    src: SourceView,
    c: DraftView,
    t: TreeView,
    dst: SourceView,
    d: DraftView,
    u: TreeView,
)
    requires
        src.path == dst.path,
        even(c.found, d.found),
        alike(src.text, t, dst.text, u),
    ensures
        even(front::with_statement(src, c, t).found, front::with_statement(dst, d, u).found),
{
    nodes_alike(src.text, t, dst.text, u);
    let k = kind(t);
    if k == "ExportNamedDeclaration"@ || k == "ExportDefaultDeclaration"@ {
        if part(t, "declaration"@) is Some {
            let v = part(t, "declaration"@)->0;
            let w = part(u, "declaration"@)->0;
            nodes_alike(src.text, v, dst.text, w);
            declaration_stays(src, c, v, dst, d, w, true);
        }
    } else if k != "ImportDeclaration"@ {
        declaration_stays(src, c, t, dst, d, u, false);
    }
}

proof fn statements_stay(
    src: SourceView,
    c: DraftView,
    xs: Seq<TreeView>,
    dst: SourceView,
    d: DraftView,
    ys: Seq<TreeView>,
    i: int,
)
    requires
        src.path == dst.path,
        even(c.found, d.found),
        all_alike(src.text, xs, dst.text, ys),
        0 <= i,
    ensures
        even(
            front::statements_from(src, c, xs, i).found,
            front::statements_from(dst, d, ys, i).found,
        ),
    decreases xs.len() - i,
{
    if i < xs.len() {
        statement_stays(src, c, xs[i], dst, d, ys[i]);
        statements_stay(
            src,
            front::with_statement(src, c, xs[i]),
            xs,
            dst,
            front::with_statement(dst, d, ys[i]),
            ys,
            i + 1,
        );
    }
}

// ---- laws

/// The statements of a file, as the parser reads them.
pub open spec fn statements_of(path: Text, source: Text) -> Seq<TreeView> {
    match front::deep_document(
        front::mended(front::syntax_tree(front::source_language(path), source).1),
    ) {
        Some(p) => items(p, "body"@),
        None => seq![],
    }
}

/// Shifting code within its file keeps the functions: where the statements of two texts of one
/// file are the same but for the places that they state, the functions that are read from them
/// are the same but for their places. Each has the same id and the same hash of its body.
pub proof fn shifting_keeps_functions(path: Text, before: Text, after: Text)
    requires
        all_alike(
            span::cut(before),
            statements_of(path, before),
            span::cut(after),
            statements_of(path, after),
        ),
    ensures
        ({
            let fs = front::lowered(path, before).functions;
            let gs = front::lowered(path, after).functions;
            &&& same_functions(fs, gs)
            &&& forall|i: int|
                0 <= i < fs.len() ==> (#[trigger] fs[i]).id == gs[i].id && fs[i].body_hash
                    == gs[i].body_hash
        }),
{
    let src = SourceView { path, text: span::cut(before) };
    let dst = SourceView { path, text: span::cut(after) };
    statements_stay(
        src,
        front::blank(),
        statements_of(path, before),
        dst,
        front::blank(),
        statements_of(path, after),
        0,
    );
    let fs = front::lowered(path, before).functions;
    let gs = front::lowered(path, after).functions;
    assert forall|i: int| 0 <= i < fs.len() implies (#[trigger] fs[i]).id == gs[i].id
        && fs[i].body_hash == gs[i].body_hash by {
        assert(placeless(fs[i]) == placeless(gs[i]));
    }
}

// ---- text in front

/// Two trees are the same, but each place in the second stands `n` bytes further on.
pub open spec fn moved_on(n: int, t: TreeView, u: TreeView) -> bool
    decreases t,
{
    match (t, u) {
        (TreeView::List(xs), TreeView::List(ys)) => all_moved_on(n, xs, ys),
        (TreeView::Table(fs), TreeView::Table(gs)) => {
            &&& fields_moved_on(n, fs, gs)
            &&& places_moved_on(n, t, u)
        },
        _ => t == u,
    }
}

/// Each place of the trees in the second list stands `n` bytes further on.
pub open spec fn all_moved_on(n: int, xs: Seq<TreeView>, ys: Seq<TreeView>) -> bool
    decreases xs,
{
    &&& xs.len() == ys.len()
    &&& forall|i: int| 0 <= i < xs.len() ==> moved_on(n, #[trigger] xs[i], ys[i])
}

/// Two tables have the same keys, and each place below the second stands `n` bytes further on.
pub open spec fn fields_moved_on(
    n: int,
    fs: Seq<(Text, TreeView)>,
    gs: Seq<(Text, TreeView)>,
) -> bool
    decreases fs,
{
    &&& fs.len() == gs.len()
    &&& forall|i: int|
        0 <= i < fs.len() ==> (#[trigger] fs[i]).0 == gs[i].0 && (is_place(fs[i].0) || moved_on(
            n,
            fs[i].1,
            gs[i].1,
        ))
}

/// The places that a node states are `n` bytes further on, or it states none.
pub open spec fn places_moved_on(n: int, t: TreeView, u: TreeView) -> bool {
    ||| {
        &&& offset(u, "start"@) == offset(t, "start"@) + n
        &&& offset(u, "end"@) == offset(t, "end"@) + n
    }
    ||| {
        &&& offset(t, "start"@) == 0 && offset(t, "end"@) == 0
        &&& offset(u, "start"@) == 0 && offset(u, "end"@) == 0
    }
}

proof fn offsets_in_front(p: Text, s: Text, i: int)
    requires
        0 <= i <= p.len(),
    ensures
        span::offset_of(p + s, i) == span::offset_of(p, i),
    decreases i,
{
    if i > 0 {
        offsets_in_front(p, s, i - 1);
    }
}

proof fn offsets_behind(p: Text, s: Text, j: int)
    requires
        0 <= j <= s.len(),
    ensures
        span::offset_of(p + s, p.len() + j) == span::byte_len(p) + span::offset_of(s, j),
    decreases j,
{
    if j > 0 {
        offsets_behind(p, s, j - 1);
        assert((p + s)[p.len() + j - 1] == s[j - 1]);
    } else {
        offsets_in_front(p, s, p.len() as int);
    }
}

proof fn offsets_rise(s: Text, i: int, j: int)
    requires
        0 <= i < j <= s.len(),
    ensures
        span::offset_of(s, i) < span::offset_of(s, j),
    decreases j,
{
    if i < j - 1 {
        offsets_rise(s, i, j - 1);
    }
}

proof fn index_in_front(p: Text, s: Text, o: int, i: int)
    requires
        0 <= o,
        0 <= i <= p.len(),
    ensures
        span::index_from(p + s, o + span::byte_len(p), i) == span::index_from(
            p + s,
            o + span::byte_len(p),
            p.len() as int,
        ),
    decreases p.len() - i,
{
    if i < p.len() {
        offsets_in_front(p, s, i);
        offsets_rise(p, i, p.len() as int);
        index_in_front(p, s, o, i + 1);
    }
}

proof fn index_behind(p: Text, s: Text, o: int, j: int)
    requires
        0 <= j <= s.len(),
    ensures
        span::index_from(p + s, o + span::byte_len(p), p.len() + j) == p.len() + span::index_from(
            s,
            o,
            j,
        ),
        j <= span::index_from(s, o, j) <= s.len(),
    decreases s.len() - j,
{
    offsets_behind(p, s, j);
    if j < s.len() {
        index_behind(p, s, o, j + 1);
    }
}

proof fn text_behind(p: Text, s: Text, start: int, end: int)
    requires
        0 <= start,
        0 <= end,
    ensures
        span::between(p + s, start + span::byte_len(p), end + span::byte_len(p)) == span::between(
            s,
            start,
            end,
        ),
{
    index_in_front(p, s, start, 0);
    index_behind(p, s, start, 0);
    index_in_front(p, s, end, 0);
    index_behind(p, s, end, 0);
    let x = span::index_from(s, start, 0);
    let y = span::index_from(s, end, 0);
    if x <= y {
        assert((p + s).subrange(p.len() + x, p.len() + y) =~= s.subrange(x, y));
    }
}

proof fn offset_is_natural(t: TreeView, key: Text)
    ensures
        0 <= offset(t, key),
{
    if let Some(TreeView::Num(n)) = tree::field(t, key) {
        let s = n.text;
        if s.len() > 0 {
            text::digits_value_grows(s, 0, s.len() as int);
            text::digits_value_grows(s.skip(1), 0, s.len() - 1);
        }
    }
}

proof fn moved_on_is_alike(p: Text, s: Text, t: TreeView, u: TreeView)
    requires
        moved_on(span::byte_len(p), t, u),
    ensures
        alike(s, t, p + s, u),
    decreases t,
{
    if t is Table {
        if offset(u, "start"@) == offset(t, "start"@) + span::byte_len(p) && offset(u, "end"@)
            == offset(t, "end"@) + span::byte_len(p) {
            offset_is_natural(t, "start"@);
            offset_is_natural(t, "end"@);
            text_behind(p, s, offset(t, "start"@), offset(t, "end"@));
        } else {
            assert(span::between(s, 0, 0) =~= span::between(p + s, 0, 0));
        }
    } else {
        assert(span::between(s, 0, 0) =~= span::between(p + s, 0, 0));
    }
    match (t, u) {
        (TreeView::List(xs), TreeView::List(ys)) => {
            all_moved_on_are_alike(p, s, xs, ys);
        },
        (TreeView::Table(fs), TreeView::Table(gs)) => {
            assert forall|i: int| 0 <= i < fs.len() implies (#[trigger] fs[i]).0 == gs[i].0 && (
            is_place(fs[i].0) || alike(s, fs[i].1, p + s, gs[i].1)) by {
                if !is_place(fs[i].0) {
                    moved_on_is_alike(p, s, fs[i].1, gs[i].1);
                }
            }
        },
        _ => {},
    }
}

proof fn all_moved_on_are_alike(p: Text, s: Text, xs: Seq<TreeView>, ys: Seq<TreeView>)
    requires
        all_moved_on(span::byte_len(p), xs, ys),
    ensures
        all_alike(s, xs, p + s, ys),
    decreases xs,
{
    assert forall|i: int| 0 <= i < xs.len() implies alike(s, #[trigger] xs[i], p + s, ys[i]) by {
        moved_on_is_alike(p, s, xs[i], ys[i]);
    }
}

/// Text put in front of a file keeps its functions: where the parser finds the same statements,
/// each as many bytes further on as were put in front, the functions that are read are the same
/// but for their places. Each has the same id and the same hash of its body.
pub proof fn text_in_front_keeps_functions(path: Text, head: Text, source: Text)
    requires
        head.len() + source.len() < u32::MAX,
        all_moved_on(
            span::byte_len(head),
            statements_of(path, source),
            statements_of(path, head + source),
        ),
    ensures
        ({
            let fs = front::lowered(path, source).functions;
            let gs = front::lowered(path, head + source).functions;
            &&& same_functions(fs, gs)
            &&& forall|i: int|
                0 <= i < fs.len() ==> (#[trigger] fs[i]).id == gs[i].id && fs[i].body_hash
                    == gs[i].body_hash
        }),
{
    all_moved_on_are_alike(
        head,
        source,
        statements_of(path, source),
        statements_of(path, head + source),
    );
    shifting_keeps_functions(path, source, head + source);
}

} // verus!
