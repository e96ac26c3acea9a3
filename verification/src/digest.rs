//! A hash of a body that does not depend on where the body stands.

use crate::ir;
use crate::ir::{
    BinOp, Call, CallView, Expr, ExprView, Jsx, JsxView, LogicOp, Stmt, StmtView, TypeRef,
    TypeRefView,
};
use crate::list;
use crate::list::Plain;
use crate::text;
use crate::text::Text;
use vstd::prelude::*;

verus! {

// ---- JSON texts

/// A character as JSON writes it in a text: quotes, backslashes and control characters are
/// escaped.
pub open spec fn escaped(c: char) -> Text {
    if c == '"' || c == '\\' {
        seq!['\\', c]
    } else if c == '\n' {
        "\\n"@
    } else if c == '\r' {
        "\\r"@
    } else if c == '\t' {
        "\\t"@
    } else if c == '\u{8}' {
        "\\b"@
    } else if c == '\u{c}' {
        "\\f"@
    } else if (c as u32) < 0x20 {
        "\\u"@ + text::hexadecimal((c as u32) as nat, 4)
    } else {
        seq![c]
    }
}

/// The characters from index `i` on as JSON writes them.
pub open spec fn escaped_from(s: Text, i: int) -> Text
    decreases s.len() - i,
{
    if 0 <= i < s.len() {
        escaped(s[i]) + escaped_from(s, i + 1)
    } else {
        seq![]
    }
}

/// A text as JSON writes it, in quotes.
pub open spec fn json_text(s: Text) -> Text {
    "\""@ + escaped_from(s, 0) + "\""@
}

fn escape(c: char) -> (r: String)
    ensures
        r@ == escaped(c),
{
    if c == '"' || c == '\\' {
        let r = text::text_of(&vec!['\\', c], 0, 2);
        assert(r@ =~= seq!['\\', c]);
        r
    } else if c == '\n' {
        "\\n".to_owned()
    } else if c == '\r' {
        "\\r".to_owned()
    } else if c == '\t' {
        "\\t".to_owned()
    } else if c == '\u{8}' {
        "\\b".to_owned()
    } else if c == '\u{c}' {
        "\\f".to_owned()
    } else if (c as u32) < 0x20 {
        text::cat2("\\u", &text::hex(c as u64, 4))
    } else {
        let r = text::text_of(&vec![c], 0, 1);
        assert(r@ =~= seq![c]);
        r
    }
}

/// Writes a text as JSON.
fn json_quote(s: &str) -> (r: String)
    ensures
        r@ == json_text(s@),
{
    let v = text::chars_of(s);
    let mut out: String = "\"".to_owned();
    let mut i: usize = 0;
    while i < v.len()
        invariant
            i <= v@.len(),
            v@ == s@,
            out@ + escaped_from(s@, i as int) == "\""@ + escaped_from(s@, 0),
        decreases v@.len() - i,
    {
        let ghost before = out@;
        out.append(escape(v[i]).as_str());
        assert(before + escaped_from(s@, i as int) =~= out@ + escaped_from(s@, i + 1));
        i += 1;
    }
    assert(out@ =~= "\""@ + escaped_from(s@, 0));
    text::cat2(&out, "\"")
}

/// A list of values.
pub open spec fn array(items: Seq<Text>) -> Text {
    "["@ + text::joined(items, ","@) + "]"@
}

/// One member of an object.
pub open spec fn member(key: Text, value: Text) -> Text {
    "\""@ + key + "\":"@ + value
}

/// An object with one member.
pub open spec fn tagged(key: Text, value: Text) -> Text {
    "{"@ + member(key, value) + "}"@
}

/// An object with two members.
pub open spec fn object2(k: Text, v: Text, k2: Text, v2: Text) -> Text {
    "{"@ + member(k, v) + ","@ + member(k2, v2) + "}"@
}

/// An object with three members.
pub open spec fn object3(k: Text, v: Text, k2: Text, v2: Text, k3: Text, v3: Text) -> Text {
    "{"@ + member(k, v) + ","@ + member(k2, v2) + ","@ + member(k3, v3) + "}"@
}

fn write_array(items: &Vec<String>) -> (r: String)
    ensures
        r@ == array(items.deep_view()),
{
    text::cat3("[", &text::join(items, ","), "]")
}

fn write_member(key: &str, value: &str) -> (r: String)
    ensures
        r@ == member(key@, value@),
{
    text::cat4("\"", key, "\":", value)
}

fn write_tagged(key: &str, value: &str) -> (r: String)
    ensures
        r@ == tagged(key@, value@),
{
    text::cat3("{", &write_member(key, value), "}")
}

fn write_object2(k: &str, v: &str, k2: &str, v2: &str) -> (r: String)
    ensures
        r@ == object2(k@, v@, k2@, v2@),
{
    text::cat5("{", &write_member(k, v), ",", &write_member(k2, v2), "}")
}

fn write_object3(k: &str, v: &str, k2: &str, v2: &str, k3: &str, v3: &str) -> (r: String)
    ensures
        r@ == object3(k@, v@, k2@, v2@, k3@, v3@),
{
    text::cat7(
        "{",
        &write_member(k, v),
        ",",
        &write_member(k2, v2),
        ",",
        &write_member(k3, v3),
        "}",
    )
}

/// Texts as JSON.
pub open spec fn texts_json(xs: Seq<Text>) -> Seq<Text> {
    Seq::new(xs.len(), |i: int| json_text(xs[i]))
}

fn write_texts(xs: &Vec<String>) -> (r: Vec<String>)
    ensures
        r.deep_view() == texts_json(xs.deep_view()),
{
    let ghost v = xs.deep_view();
    let mut out: Vec<String> = list::empty();
    let mut i: usize = 0;
    while i < xs.len()
        invariant
            i <= xs@.len(),
            v == xs.deep_view(),
            out.deep_view() == texts_json(v).take(i as int),
        decreases xs@.len() - i,
    {
        assert(v[i as int] == xs@[i as int]@);
        list::push(&mut out, json_quote(&xs[i]));
        i += 1;
        assert(out.deep_view() =~= texts_json(v).take(i as int));
    }
    assert(texts_json(v).take(v.len() as int) =~= texts_json(v));
    out
}

/// Two values as a list.
pub open spec fn pair(a: Text, b: Text) -> Text {
    "["@ + a + ","@ + b + "]"@
}

fn write_pair(a: &str, b: &str) -> (r: String)
    ensures
        r@ == pair(a@, b@),
{
    text::cat5("[", a, ",", b, "]")
}

/// `true` or `false`.
pub open spec fn bool_text(b: bool) -> Text {
    if b {
        "true"@
    } else {
        "false"@
    }
}

// ---- types

/// A type as JSON.
pub open spec fn type_json(t: TypeRefView) -> Text
    decreases t,
{
    match t {
        TypeRefView::Named(n, args) => tagged(
            "Named"@,
            pair(json_text(n), array(types_json(args))),
        ),
        TypeRefView::Array(x) => tagged("Array"@, type_json(*x)),
        TypeRefView::StringLiterals(xs) => tagged("StringLiterals"@, array(texts_json(xs))),
        TypeRefView::Union(xs) => tagged("Union"@, array(types_json(xs))),
        TypeRefView::Object(fs) => tagged("Object"@, array(type_fields_json(fs))),
        TypeRefView::Primitive(n) => tagged("Primitive"@, json_text(n)),
        TypeRefView::Unknown => "\"Unknown\""@,
    }
}

/// The JSON text of each type of a list.
pub open spec fn types_json(xs: Seq<TypeRefView>) -> Seq<Text>
    decreases xs,
{
    Seq::new(
        xs.len(),
        |i: int|
            if 0 <= i < xs.len() {
                type_json(xs[i])
            } else {
                arbitrary()
            },
    )
}

/// The JSON text of each field of an object type.
pub open spec fn type_fields_json(xs: Seq<(Text, TypeRefView)>) -> Seq<Text>
    decreases xs,
{
    Seq::new(
        xs.len(),
        |i: int|
            if 0 <= i < xs.len() {
                pair(json_text(xs[i].0), type_json(xs[i].1))
            } else {
                arbitrary()
            },
    )
}

// ---- expressions

/// An operator as JSON.
pub open spec fn operator_json(op: BinOp) -> Text {
    match op {
        BinOp::Eq => "\"Eq\""@,
        BinOp::NotEq => "\"NotEq\""@,
        BinOp::Lt => "\"Lt\""@,
        BinOp::LtEq => "\"LtEq\""@,
        BinOp::Gt => "\"Gt\""@,
        BinOp::GtEq => "\"GtEq\""@,
        BinOp::Other => "\"Other\""@,
    }
}

/// A connective as JSON.
pub open spec fn connective_json(op: LogicOp) -> Text {
    match op {
        LogicOp::And => "\"And\""@,
        LogicOp::Or => "\"Or\""@,
        LogicOp::Coalesce => "\"Coalesce\""@,
    }
}

/// An expression as JSON, without locations.
pub open spec fn expr_json(e: ExprView) -> Text
    decreases e,
{
    match e {
        ExprView::Str(s) => tagged("Str"@, json_text(s)),
        ExprView::Num(n) => tagged("Num"@, n.json),
        ExprView::Bool(b) => tagged("Bool"@, bool_text(b)),
        ExprView::Null => "\"Null\""@,
        ExprView::Undefined => "\"Undefined\""@,
        ExprView::Ident(s) => tagged("Ident"@, json_text(s)),
        ExprView::This => "\"This\""@,
        ExprView::Member { object, property, .. } => tagged(
            "Member"@,
            object2("object"@, expr_json(*object), "property"@, json_text(property)),
        ),
        ExprView::Index { index, object, .. } => tagged(
            "Index"@,
            object2("index"@, expr_json(*index), "object"@, expr_json(*object)),
        ),
        ExprView::Call(c) => tagged("Call"@, call_json(*c)),
        ExprView::New { args, callee, .. } => tagged(
            "New"@,
            object2("args"@, array(exprs_json(args)), "callee"@, expr_json(*callee)),
        ),
        ExprView::Binary { left, op, right, .. } => tagged(
            "Binary"@,
            object3("left"@, expr_json(*left), "op"@, operator_json(op), "right"@, expr_json(*right)),
        ),
        ExprView::Logical { left, op, right, .. } => tagged(
            "Logical"@,
            object3("left"@, expr_json(*left), "op"@, connective_json(op), "right"@, expr_json(*right)),
        ),
        ExprView::Not(x) => tagged("Not"@, expr_json(*x)),
        ExprView::Template { exprs, quasis, .. } => tagged(
            "Template"@,
            object2("exprs"@, array(exprs_json(exprs)), "quasis"@, array(texts_json(quasis))),
        ),
        ExprView::Object(fs) => tagged("Object"@, array(expr_fields_json(fs))),
        ExprView::Array(xs) => tagged("Array"@, array(exprs_json(xs))),
        ExprView::Closure(s) => tagged("Closure"@, json_text(s)),
        ExprView::Await(x) => tagged("Await"@, expr_json(*x)),
        ExprView::Conditional { otherwise, test, then, .. } => tagged(
            "Conditional"@,
            object3("otherwise"@, expr_json(*otherwise), "test"@, expr_json(*test), "then"@, expr_json(*then)),
        ),
        ExprView::Assign { target, value, .. } => tagged(
            "Assign"@,
            object2("target"@, expr_json(*target), "value"@, expr_json(*value)),
        ),
        ExprView::Jsx(j) => tagged("Jsx"@, jsx_json(*j)),
        ExprView::Opaque(s) => tagged("Opaque"@, json_text(s)),
    }
}

/// A call as JSON.
pub open spec fn call_json(c: CallView) -> Text
    decreases c,
{
    object2("args"@, array(exprs_json(c.args)), "callee"@, expr_json(c.callee))
}

/// A markup element as JSON.
pub open spec fn jsx_json(j: JsxView) -> Text
    decreases j,
{
    object3(
        "attrs"@,
        array(expr_fields_json(j.attrs)),
        "children"@,
        array(exprs_json(j.children)),
        "tag"@,
        json_text(j.tag),
    )
}

/// The JSON text of each expression of a list.
pub open spec fn exprs_json(xs: Seq<ExprView>) -> Seq<Text>
    decreases xs,
{
    Seq::new(
        xs.len(),
        |i: int|
            if 0 <= i < xs.len() {
                expr_json(xs[i])
            } else {
                arbitrary()
            },
    )
}

/// The JSON text of each property of an object literal.
pub open spec fn expr_fields_json(xs: Seq<(Text, ExprView)>) -> Seq<Text>
    decreases xs,
{
    Seq::new(
        xs.len(),
        |i: int|
            if 0 <= i < xs.len() {
                pair(json_text(xs[i].0), expr_json(xs[i].1))
            } else {
                arbitrary()
            },
    )
}

// ---- statements

/// A value that may be missing as JSON.
pub open spec fn opt_type_json(x: Option<TypeRefView>) -> Text
{
    match x {
        Some(y) => type_json(y),
        None => "null"@,
    }
}

/// A value that may be missing as JSON.
pub open spec fn opt_expr_json(x: Option<ExprView>) -> Text
{
    match x {
        Some(y) => expr_json(y),
        None => "null"@,
    }
}

/// A value that may be missing as JSON.
pub open spec fn opt_text_json(x: Option<Text>) -> Text
{
    match x {
        Some(y) => json_text(y),
        None => "null"@,
    }
}

/// A statement as JSON, without locations.
pub open spec fn stmt_json(s: StmtView) -> Text
    decreases s,
{
    match s {
        StmtView::Expr(e, _) => tagged("Expr"@, pair(expr_json(e), "null"@)),
        StmtView::Let { init, name, ty, .. } => tagged(
            "Let"@,
            object3("init"@, opt_expr_json(init), "name"@, json_text(name), "ty"@, opt_type_json(ty)),
        ),
        StmtView::If { otherwise, test, then, .. } => tagged(
            "If"@,
            object3("otherwise"@, array(stmts_json(otherwise)), "test"@, expr_json(test), "then"@, array(stmts_json(then))),
        ),
        StmtView::Return(e, _) => tagged("Return"@, pair(opt_expr_json(e), "null"@)),
        StmtView::Throw(e, _) => tagged("Throw"@, pair(expr_json(e), "null"@)),
        StmtView::Loop { binding, body, iter, .. } => tagged(
            "Loop"@,
            object3("binding"@, opt_text_json(binding), "body"@, array(stmts_json(body)), "iter"@, opt_expr_json(iter)),
        ),
        StmtView::Try { body, finalizer, handler, .. } => tagged(
            "Try"@,
            object3("body"@, array(stmts_json(body)), "finalizer"@, array(stmts_json(finalizer)), "handler"@, array(stmts_json(handler))),
        ),
        StmtView::Block(xs) => tagged("Block"@, array(stmts_json(xs))),
        StmtView::Jump(_) => tagged("Jump"@, "null"@),
    }
}

/// The JSON text of each statement of a block.
pub open spec fn stmts_json(xs: Seq<StmtView>) -> Seq<Text>
    decreases xs,
{
    Seq::new(
        xs.len(),
        |i: int|
            if 0 <= i < xs.len() {
                stmt_json(xs[i])
            } else {
                arbitrary()
            },
    )
}

/// A hash of a body that leaves its locations out.
pub open spec fn hash_of(body: Seq<StmtView>) -> Text {
    ir::hash_text(array(stmts_json(body)))
}

// ---- writing

fn write_type(t: &TypeRef) -> (r: String)
    ensures
        r@ == type_json(ir::type_ref_view(*t)),
    decreases t,
{
    match t {
        TypeRef::Named(n, args) => {
            let ghost v = ir::type_ref_list_view(args@);
            write_tagged("Named", &write_pair(&json_quote(n), &write_types(args)))
        },
        TypeRef::Array(x) => write_tagged("Array", &write_type(x)),
        TypeRef::StringLiterals(xs) => write_tagged("StringLiterals", &write_array(&write_texts(xs))),
        TypeRef::Union(xs) => {
            let ghost v = ir::type_ref_list_view(xs@);
            write_tagged("Union", &write_types(xs))
        },
        TypeRef::Object(fs) => {
            let ghost v = ir::type_ref_fields_view(fs@);
            write_tagged("Object", &write_type_fields(fs))
        },
        TypeRef::Primitive(n) => write_tagged("Primitive", &json_quote(n)),
        TypeRef::Unknown => "\"Unknown\"".to_owned(),
    }
}

fn write_types(xs: &Vec<TypeRef>) -> (r: String)
    ensures
        r@ == array(types_json(ir::type_ref_list_view(xs@))),
    decreases xs,
{
    let ghost v = ir::type_ref_list_view(xs@);
    let mut out: Vec<String> = list::empty();
    let mut i: usize = 0;
    while i < xs.len()
        invariant
            i <= xs@.len(),
            v == ir::type_ref_list_view(xs@),
            out.deep_view() == types_json(v).take(i as int),
        decreases xs@.len() - i,
    {
        assert(v[i as int] == ir::type_ref_view(xs@[i as int]));
        list::push(&mut out, write_type(&xs[i]));
        i += 1;
        assert(out.deep_view() =~= types_json(v).take(i as int));
    }
    assert(types_json(v).take(v.len() as int) =~= types_json(v));
    write_array(&out)
}

fn write_type_fields(xs: &Vec<(String, TypeRef)>) -> (r: String)
    ensures
        r@ == array(type_fields_json(ir::type_ref_fields_view(xs@))),
    decreases xs,
{
    let ghost v = ir::type_ref_fields_view(xs@);
    let mut out: Vec<String> = list::empty();
    let mut i: usize = 0;
    while i < xs.len()
        invariant
            i <= xs@.len(),
            v == ir::type_ref_fields_view(xs@),
            out.deep_view() == type_fields_json(v).take(i as int),
        decreases xs@.len() - i,
    {
        assert(v[i as int] == (xs@[i as int].0@, ir::type_ref_view(xs@[i as int].1)));
        list::push(&mut out, write_pair(&json_quote(&xs[i].0), &write_type(&xs[i].1)));
        i += 1;
        assert(out.deep_view() =~= type_fields_json(v).take(i as int));
    }
    assert(type_fields_json(v).take(v.len() as int) =~= type_fields_json(v));
    write_array(&out)
}

fn write_operator(op: BinOp) -> (r: String)
    ensures
        r@ == operator_json(op),
{
    match op {
        BinOp::Eq => "\"Eq\"".to_owned(),
        BinOp::NotEq => "\"NotEq\"".to_owned(),
        BinOp::Lt => "\"Lt\"".to_owned(),
        BinOp::LtEq => "\"LtEq\"".to_owned(),
        BinOp::Gt => "\"Gt\"".to_owned(),
        BinOp::GtEq => "\"GtEq\"".to_owned(),
        BinOp::Other => "\"Other\"".to_owned(),
    }
}

fn write_connective(op: LogicOp) -> (r: String)
    ensures
        r@ == connective_json(op),
{
    match op {
        LogicOp::And => "\"And\"".to_owned(),
        LogicOp::Or => "\"Or\"".to_owned(),
        LogicOp::Coalesce => "\"Coalesce\"".to_owned(),
    }
}

fn write_expr(e: &Expr) -> (r: String)
    ensures
        r@ == expr_json(ir::expr_view(*e)),
    decreases e,
{
    match e {
        Expr::Str(s) => write_tagged("Str", &json_quote(s)),
        Expr::Num(n) => write_tagged("Num", &n.json),
        Expr::Bool(b) => if *b {
            write_tagged("Bool", "true")
        } else {
            write_tagged("Bool", "false")
        },
        Expr::Null => "\"Null\"".to_owned(),
        Expr::Undefined => "\"Undefined\"".to_owned(),
        Expr::Ident(s) => write_tagged("Ident", &json_quote(s)),
        Expr::This => "\"This\"".to_owned(),
        Expr::Member { object, property, .. } => write_tagged("Member", &write_object2("object", &write_expr(object), "property", &json_quote(property))),
        Expr::Index { index, object, .. } => write_tagged("Index", &write_object2("index", &write_expr(index), "object", &write_expr(object))),
        Expr::Call(c) => write_tagged("Call", &write_call(c)),
        Expr::New { args, callee, .. } => {
            let ghost v_args = ir::expr_list_view(args@);
            write_tagged("New", &write_object2("args", &write_exprs(args), "callee", &write_expr(callee)))
        },
        Expr::Binary { left, op, right, .. } => write_tagged("Binary", &write_object3("left", &write_expr(left), "op", &write_operator(*op), "right", &write_expr(right))),
        Expr::Logical { left, op, right, .. } => write_tagged("Logical", &write_object3("left", &write_expr(left), "op", &write_connective(*op), "right", &write_expr(right))),
        Expr::Not(x) => write_tagged("Not", &write_expr(x)),
        Expr::Template { exprs, quasis, .. } => {
            let ghost v_exprs = ir::expr_list_view(exprs@);
            write_tagged("Template", &write_object2("exprs", &write_exprs(exprs), "quasis", &write_array(&write_texts(quasis))))
        },
        Expr::Object(fs) => {
            let ghost v_fs = ir::expr_fields_view(fs@);
            write_tagged("Object", &write_expr_fields(fs))
        },
        Expr::Array(xs) => {
            let ghost v_xs = ir::expr_list_view(xs@);
            write_tagged("Array", &write_exprs(xs))
        },
        Expr::Closure(s) => write_tagged("Closure", &json_quote(s)),
        Expr::Await(x) => write_tagged("Await", &write_expr(x)),
        Expr::Conditional { otherwise, test, then, .. } => write_tagged("Conditional", &write_object3("otherwise", &write_expr(otherwise), "test", &write_expr(test), "then", &write_expr(then))),
        Expr::Assign { target, value, .. } => write_tagged("Assign", &write_object2("target", &write_expr(target), "value", &write_expr(value))),
        Expr::Jsx(j) => write_tagged("Jsx", &write_jsx(j)),
        Expr::Opaque(s) => write_tagged("Opaque", &json_quote(s)),
    }
}

fn write_call(c: &Call) -> (r: String)
    ensures
        r@ == call_json(ir::call_view(*c)),
    decreases c,
{
    let ghost v = ir::expr_list_view(c.args@);
    write_object2("args", &write_exprs(&c.args), "callee", &write_expr(&c.callee))
}

fn write_jsx(j: &Jsx) -> (r: String)
    ensures
        r@ == jsx_json(ir::jsx_view(*j)),
    decreases j,
{
    let ghost v = ir::expr_fields_view(j.attrs@);
    let ghost w = ir::expr_list_view(j.children@);
    write_object3(
        "attrs",
        &write_expr_fields(&j.attrs),
        "children",
        &write_exprs(&j.children),
        "tag",
        &json_quote(&j.tag),
    )
}

fn write_exprs(xs: &Vec<Expr>) -> (r: String)
    ensures
        r@ == array(exprs_json(ir::expr_list_view(xs@))),
    decreases xs,
{
    let ghost v = ir::expr_list_view(xs@);
    let mut out: Vec<String> = list::empty();
    let mut i: usize = 0;
    while i < xs.len()
        invariant
            i <= xs@.len(),
            v == ir::expr_list_view(xs@),
            out.deep_view() == exprs_json(v).take(i as int),
        decreases xs@.len() - i,
    {
        assert(v[i as int] == ir::expr_view(xs@[i as int]));
        list::push(&mut out, write_expr(&xs[i]));
        i += 1;
        assert(out.deep_view() =~= exprs_json(v).take(i as int));
    }
    assert(exprs_json(v).take(v.len() as int) =~= exprs_json(v));
    write_array(&out)
}

fn write_expr_fields(xs: &Vec<(String, Expr)>) -> (r: String)
    ensures
        r@ == array(expr_fields_json(ir::expr_fields_view(xs@))),
    decreases xs,
{
    let ghost v = ir::expr_fields_view(xs@);
    let mut out: Vec<String> = list::empty();
    let mut i: usize = 0;
    while i < xs.len()
        invariant
            i <= xs@.len(),
            v == ir::expr_fields_view(xs@),
            out.deep_view() == expr_fields_json(v).take(i as int),
        decreases xs@.len() - i,
    {
        assert(v[i as int] == (xs@[i as int].0@, ir::expr_view(xs@[i as int].1)));
        list::push(&mut out, write_pair(&json_quote(&xs[i].0), &write_expr(&xs[i].1)));
        i += 1;
        assert(out.deep_view() =~= expr_fields_json(v).take(i as int));
    }
    assert(expr_fields_json(v).take(v.len() as int) =~= expr_fields_json(v));
    write_array(&out)
}

fn write_opt_type(x: &Option<TypeRef>) -> (r: String)
    ensures
        r@ == opt_type_json(x.deep_view()),
{
    match x {
        Some(y) => write_type(y),
        None => "null".to_owned(),
    }
}

fn write_opt_expr(x: &Option<Expr>) -> (r: String)
    ensures
        r@ == opt_expr_json(x.deep_view()),
{
    match x {
        Some(y) => write_expr(y),
        None => "null".to_owned(),
    }
}

fn write_opt_text(x: &Option<String>) -> (r: String)
    ensures
        r@ == opt_text_json(x.deep_view()),
{
    match x {
        Some(y) => json_quote(y),
        None => "null".to_owned(),
    }
}

fn write_stmt(s: &Stmt) -> (r: String)
    ensures
        r@ == stmt_json(ir::stmt_view(*s)),
    decreases s,
{
    match s {
        Stmt::Expr(e, _) => write_tagged("Expr", &write_pair(&write_expr(e), "null")),
        Stmt::Let { init, name, ty, .. } => write_tagged("Let", &write_object3("init", &write_opt_expr(init), "name", &json_quote(name), "ty", &write_opt_type(ty))),
        Stmt::If { otherwise, test, then, .. } => {
            let ghost v_otherwise = ir::stmt_list_view(otherwise@);
            let ghost v_then = ir::stmt_list_view(then@);
            write_tagged("If", &write_object3("otherwise", &write_stmts(otherwise), "test", &write_expr(test), "then", &write_stmts(then)))
        },
        Stmt::Return(e, _) => write_tagged("Return", &write_pair(&write_opt_expr(e), "null")),
        Stmt::Throw(e, _) => write_tagged("Throw", &write_pair(&write_expr(e), "null")),
        Stmt::Loop { binding, body, iter, .. } => {
            let ghost v_body = ir::stmt_list_view(body@);
            write_tagged("Loop", &write_object3("binding", &write_opt_text(binding), "body", &write_stmts(body), "iter", &write_opt_expr(iter)))
        },
        Stmt::Try { body, finalizer, handler, .. } => {
            let ghost v_body = ir::stmt_list_view(body@);
            let ghost v_finalizer = ir::stmt_list_view(finalizer@);
            let ghost v_handler = ir::stmt_list_view(handler@);
            write_tagged("Try", &write_object3("body", &write_stmts(body), "finalizer", &write_stmts(finalizer), "handler", &write_stmts(handler)))
        },
        Stmt::Block(xs) => {
            let ghost v_xs = ir::stmt_list_view(xs@);
            write_tagged("Block", &write_stmts(xs))
        },
        Stmt::Jump(_) => write_tagged("Jump", "null"),
    }
}

fn write_stmts(xs: &Vec<Stmt>) -> (r: String)
    ensures
        r@ == array(stmts_json(ir::stmt_list_view(xs@))),
    decreases xs,
{
    let ghost v = ir::stmt_list_view(xs@);
    let mut out: Vec<String> = list::empty();
    let mut i: usize = 0;
    while i < xs.len()
        invariant
            i <= xs@.len(),
            v == ir::stmt_list_view(xs@),
            out.deep_view() == stmts_json(v).take(i as int),
        decreases xs@.len() - i,
    {
        assert(v[i as int] == ir::stmt_view(xs@[i as int]));
        list::push(&mut out, write_stmt(&xs[i]));
        i += 1;
        assert(out.deep_view() =~= stmts_json(v).take(i as int));
    }
    assert(stmts_json(v).take(v.len() as int) =~= stmts_json(v));
    write_array(&out)
}

/// Location-independent hash of a lowered body, used to find moved and renamed entities.
pub fn body_hash(body: &Vec<Stmt>) -> (r: String)
    ensures
        r@ == hash_of(body.deep_view()),
{
    broadcast use ir::stmt_list_view_is_deep;

    ir::stable_hash(&write_stmts(body))
}

} // verus!
