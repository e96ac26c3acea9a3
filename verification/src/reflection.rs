//! What is lowered reflects the syntax: every node of the structural form says what the node of
//! the syntax tree that it comes from says, part by part and in order.

use crate::ir::{BinOp, ExprView, FunctionKind, FunctionView, LocView, LogicOp, StmtView};
use crate::lower;
use crate::lower::{AroundView, FoundView};
use crate::span;
use crate::span::SourceView;
use crate::syntax;
use crate::syntax::{flag, items, items_fit, kind, offset, part, parts_fit, size, sizes, word};
use crate::text::Text;
use crate::tree;
use crate::tree::TreeView;
use crate::typing;
use vstd::prelude::*;

verus! {

// ---- words

/// A sign of the source language means a comparison. Equality is written with two or three signs,
/// and so is inequality.
pub open spec fn means(op: BinOp, sign: Text) -> bool {
    match op {
        BinOp::Eq => sign == "=="@ || sign == "==="@,
        BinOp::NotEq => sign == "!="@ || sign == "!=="@,
        BinOp::Lt => sign == "<"@,
        BinOp::LtEq => sign == "<="@,
        BinOp::Gt => sign == ">"@,
        BinOp::GtEq => sign == ">="@,
        BinOp::Other => !(sign == "=="@ || sign == "==="@ || sign == "!="@ || sign == "!=="@ || sign
            == "<"@ || sign == "<="@ || sign == ">"@ || sign == ">="@),
    }
}

/// A sign of the source language means a connective.
pub open spec fn connects(op: LogicOp, sign: Text) -> bool {
    match op {
        LogicOp::And => sign == "&&"@,
        LogicOp::Or => sign == "||"@,
        LogicOp::Coalesce => sign != "&&"@ && sign != "||"@,
    }
}

/// Where a node starts.
pub open spec fn start_of(s: SourceView, t: TreeView) -> LocView {
    span::place(s, offset(t, "start"@))
}

/// What a node says in the source.
pub open spec fn said(s: SourceView, t: TreeView) -> Text {
    span::one_line(span::between(s.text, offset(t, "start"@), offset(t, "end"@)))
}

/// A function, written as an arrow or not.
pub open spec fn is_closure(t: TreeView) -> bool {
    kind(t) == "ArrowFunctionExpression"@ || kind(t) == "FunctionExpression"@
}

/// A statement that leaves nothing in the structural form: a directive, a declaration of a
/// function and an empty statement.
pub open spec fn is_silent(t: TreeView) -> bool {
    ||| kind(t) == "ExpressionStatement"@ && tree::str_of(tree::field(t, "directive"@)) is Some
    ||| kind(t) == "FunctionDeclaration"@
    ||| kind(t) == "TSDeclareFunction"@
    ||| kind(t) == "EmptyStatement"@
}

/// A declarator that binds no name and has no initializer.
pub open spec fn is_bare(t: TreeView) -> bool {
    syntax::ident(part(t, "id"@)) is None && part(t, "init"@) is None
}

/// An expression that only says something of the type of another, or groups it.
pub open spec fn is_wrapper(k: Text) -> bool {
    k == "ParenthesizedExpression"@ || k == "TSAsExpression"@ || k == "TSSatisfiesExpression"@ || k
        == "TSNonNullExpression"@ || k == "TSTypeAssertion"@
}

// ---- expressions

/// A literal shows its value.
pub open spec fn shows_literal(s: SourceView, e: ExprView, t: TreeView) -> bool {
    match tree::field(t, "value"@) {
        Some(TreeView::Str(x)) => e == ExprView::Str(x),
        Some(TreeView::Num(n)) => e == ExprView::Num(n),
        Some(TreeView::Bool(b)) => e == ExprView::Bool(b),
        Some(TreeView::Null) => if part(t, "regex"@) is Some || part(t, "bigint"@) is Some {
            e == ExprView::Opaque(said(s, t))
        } else {
            e == ExprView::Null
        },
        _ => e == ExprView::Opaque(said(s, t)),
    }
}

/// The fixed texts of a template are those of its parts.
pub open spec fn shows_texts(quasis: Seq<Text>, xs: Seq<TreeView>) -> bool {
    &&& quasis.len() == xs.len()
    &&& forall|i: int|
        0 <= i < xs.len() ==> #[trigger] quasis[i] == (match part(xs[i], "value"@) {
            Some(v) => word(v, "cooked"@),
            None => Seq::<char>::empty(),
        })
}

/// An expression shows what a node says.
pub open spec fn shows(s: SourceView, e: ExprView, t: TreeView) -> bool
    decreases size(t), 8int,
{
    proof {
        parts_fit(t);
        items_fit(items(t, "expressions"@));
    }
    let k = kind(t);
    if k == "Literal"@ {
        shows_literal(s, e, t)
    } else if k == "Identifier"@ {
        if word(t, "name"@) == "undefined"@ {
            e == ExprView::Undefined
        } else {
            e == ExprView::Ident(word(t, "name"@))
        }
    } else if k == "ThisExpression"@ {
        e == ExprView::This
    } else if k == "TemplateLiteral"@ {
        e matches ExprView::Template { quasis, exprs } && shows_texts(quasis, items(t, "quasis"@))
            && show_all(s, exprs, items(t, "expressions"@), 0)
    } else if k == "MemberExpression"@ {
        shows_member(s, e, t)
    } else if k == "CallExpression"@ {
        shows_call(s, e, t)
    } else if k == "ChainExpression"@ {
        shows_chain(s, e, t)
    } else if k == "NewExpression"@ {
        e matches ExprView::New { callee, args, loc } && shows_at(s, *callee, t, "callee"@)
            && show_args(s, args, items(t, "arguments"@), 0) && loc == start_of(s, t)
    } else if k == "BinaryExpression"@ {
        if syntax::is_kind(part(t, "left"@), "PrivateIdentifier"@) {
            e == ExprView::Opaque(said(s, t))
        } else {
            e matches ExprView::Binary { op, left, right } && means(op, word(t, "operator"@))
                && shows_at(s, *left, t, "left"@) && shows_at(s, *right, t, "right"@)
        }
    } else if k == "LogicalExpression"@ {
        e matches ExprView::Logical { op, left, right } && connects(op, word(t, "operator"@))
            && shows_at(s, *left, t, "left"@) && shows_at(s, *right, t, "right"@)
    } else if k == "UnaryExpression"@ && word(t, "operator"@) == "!"@ {
        e matches ExprView::Not(x) && shows_at(s, *x, t, "argument"@)
    } else if is_wrapper(k) {
        shows_at(s, e, t, "expression"@)
    } else if k == "AwaitExpression"@ {
        e matches ExprView::Await(x) && shows_at(s, *x, t, "argument"@)
    } else if k == "ObjectExpression"@ {
        e matches ExprView::Object(ps) && show_properties(s, ps, 0, items(t, "properties"@), 0)
    } else if k == "ArrayExpression"@ {
        e matches ExprView::Array(xs) && show_elements(s, xs, 0, items(t, "elements"@), 0)
    } else if k == "ConditionalExpression"@ {
        e matches ExprView::Conditional { test, then, otherwise } && shows_at(s, *test, t, "test"@)
            && shows_at(s, *then, t, "consequent"@) && shows_at(s, *otherwise, t, "alternate"@)
    } else if k == "AssignmentExpression"@ {
        e matches ExprView::Assign { target, value, loc } && shows_target(s, *target, t) && shows_at(
            s,
            *value,
            t,
            "right"@,
        ) && loc == start_of(s, t)
    } else if is_closure(t) {
        e is Closure
    } else if k == "SequenceExpression"@ {
        if items(t, "expressions"@).len() > 0 {
            shows(s, e, items(t, "expressions"@)[items(t, "expressions"@).len() - 1])
        } else {
            e == ExprView::Undefined
        }
    } else {
        e == ExprView::Opaque(said(s, t))
    }
}

/// An expression shows the part of a node under a key.
pub open spec fn shows_at(s: SourceView, e: ExprView, t: TreeView, key: Text) -> bool
    decreases size(t), 5int,
{
    proof {
        parts_fit(t);
    }
    match part(t, key) {
        Some(x) => shows(s, e, x),
        None => e == ExprView::Undefined,
    }
}

/// An expression that may be missing shows the part of a node under a key.
pub open spec fn shows_maybe(s: SourceView, e: Option<ExprView>, t: TreeView, key: Text) -> bool {
    match (part(t, key), e) {
        (Some(x), Some(e)) => shows(s, e, x),
        (None, None) => true,
        _ => false,
    }
}

/// Expressions show the nodes from index `i` on, one by one.
pub open spec fn show_all(s: SourceView, es: Seq<ExprView>, xs: Seq<TreeView>, i: int) -> bool
    decreases sizes(xs, 0), 10 + xs.len() - i,
{
    proof {
        items_fit(xs);
    }
    if 0 <= i < xs.len() {
        i < es.len() && shows(s, es[i], xs[i]) && show_all(s, es, xs, i + 1)
    } else {
        es.len() == xs.len()
    }
}

/// Arguments show the nodes from index `i` on, one by one.
pub open spec fn show_args(s: SourceView, es: Seq<ExprView>, xs: Seq<TreeView>, i: int) -> bool
    decreases sizes(xs, 0), 10 + xs.len() - i,
{
    proof {
        items_fit(xs);
    }
    if 0 <= i < xs.len() {
        i < es.len() && shows_arg(s, es[i], xs[i]) && show_args(s, es, xs, i + 1)
    } else {
        es.len() == xs.len()
    }
}

/// An argument shows a node; a spread shows what it spreads.
pub open spec fn shows_arg(s: SourceView, e: ExprView, t: TreeView) -> bool
    decreases size(t), 9int,
{
    if kind(t) == "SpreadElement"@ {
        shows_at(s, e, t, "argument"@)
    } else if is_closure(t) {
        e is Closure
    } else {
        shows(s, e, t)
    }
}

/// The elements of an array from index `j` on show the nodes from index `i` on, but for holes.
pub open spec fn show_elements(
    s: SourceView,
    es: Seq<ExprView>,
    j: int,
    xs: Seq<TreeView>,
    i: int,
) -> bool
    decreases sizes(xs, 0), 10 + xs.len() - i,
{
    proof {
        items_fit(xs);
    }
    if 0 <= i < xs.len() {
        if xs[i] is Null {
            show_elements(s, es, j, xs, i + 1)
        } else {
            j < es.len() && (if kind(xs[i]) == "SpreadElement"@ {
                shows_at(s, es[j], xs[i], "argument"@)
            } else {
                shows(s, es[j], xs[i])
            }) && show_elements(s, es, j + 1, xs, i + 1)
        }
    } else {
        es.len() == j
    }
}

/// A property shows a node: a spread under `...`, any other under its name.
pub open spec fn shows_property(s: SourceView, p: (Text, ExprView), t: TreeView) -> bool
    decreases size(t), 9int,
{
    if kind(t) == "SpreadElement"@ {
        p.0 == "..."@ && shows_at(s, p.1, t, "argument"@)
    } else {
        syntax::key_name(t) == Some(p.0) && shows_at(s, p.1, t, "value"@)
    }
}

/// The properties from index `j` on show the nodes from index `i` on, but for those that have no
/// name.
pub open spec fn show_properties(
    s: SourceView,
    ps: Seq<(Text, ExprView)>,
    j: int,
    xs: Seq<TreeView>,
    i: int,
) -> bool
    decreases sizes(xs, 0), 10 + xs.len() - i,
{
    proof {
        items_fit(xs);
    }
    if 0 <= i < xs.len() {
        if kind(xs[i]) != "SpreadElement"@ && syntax::key_name(xs[i]) is None {
            show_properties(s, ps, j, xs, i + 1)
        } else {
            j < ps.len() && shows_property(s, ps[j], xs[i]) && show_properties(s, ps, j + 1, xs, i + 1)
        }
    } else {
        ps.len() == j
    }
}

/// A member shows the object and the property of a node; an index that is no text is computed.
pub open spec fn shows_member(s: SourceView, e: ExprView, t: TreeView) -> bool
    decreases size(t), 7int,
{
    if !flag(t, "computed"@) {
        e matches ExprView::Member { object, property } && shows_at(s, *object, t, "object"@)
            && property == (match part(t, "property"@) {
            Some(p) => word(p, "name"@),
            None => Seq::<char>::empty(),
        })
    } else {
        match syntax::string_literal(part(t, "property"@)) {
            Some(p) => e matches ExprView::Member { object, property } && shows_at(
                s,
                *object,
                t,
                "object"@,
            ) && property == p,
            None => e matches ExprView::Index { object, index } && shows_at(
                s,
                *object,
                t,
                "object"@,
            ) && shows_at(s, *index, t, "property"@),
        }
    }
}

/// A call shows the callee and every argument of a node.
pub open spec fn shows_call(s: SourceView, e: ExprView, t: TreeView) -> bool
    decreases size(t), 7int,
{
    proof {
        parts_fit(t);
    }
    e matches ExprView::Call(c) && shows_at(s, c.callee, t, "callee"@) && show_args(
        s,
        c.args,
        items(t, "arguments"@),
        0,
    ) && c.loc == start_of(s, t)
}

/// A chain shows what it would be without `?.`.
pub open spec fn shows_chain(s: SourceView, e: ExprView, t: TreeView) -> bool
    decreases size(t), 7int,
{
    proof {
        parts_fit(t);
    }
    match part(t, "expression"@) {
        Some(x) => if kind(x) == "CallExpression"@ {
            shows_call(s, e, x)
        } else if kind(x) == "MemberExpression"@ && syntax::static_property(x) is Some {
            e matches ExprView::Member { object, property } && shows_at(s, *object, x, "object"@)
                && Some(property) == syntax::static_property(x)
        } else if kind(x) == "TSNonNullExpression"@ {
            shows_at(s, e, x, "expression"@)
        } else {
            e == ExprView::Opaque(said(s, t))
        },
        None => e == ExprView::Opaque(said(s, t)),
    }
}

/// The target of an assignment shows the left side of a node.
pub open spec fn shows_target(s: SourceView, e: ExprView, t: TreeView) -> bool
    decreases size(t), 6int,
{
    proof {
        parts_fit(t);
    }
    match part(t, "left"@) {
        Some(x) => if kind(x) == "Identifier"@ {
            e == ExprView::Ident(word(x, "name"@))
        } else if kind(x) == "MemberExpression"@ {
            shows_member(s, e, x)
        } else {
            e == ExprView::Opaque(said(s, x))
        },
        None => e == ExprView::Undefined,
    }
}

// ---- statements

/// A statement shows what a node says.
pub open spec fn shows_stmt(s: SourceView, x: StmtView, t: TreeView) -> bool
    decreases size(t), 9int,
{
    proof {
        parts_fit(t);
    }
    let k = kind(t);
    let at = start_of(s, t);
    if k == "ExpressionStatement"@ {
        x matches StmtView::Expr(e, loc) && shows_at(s, e, t, "expression"@) && loc == at
    } else if k == "VariableDeclaration"@ {
        exists|out: Seq<StmtView>|
            #[trigger] show_declarators(s, out, 0, items(t, "declarations"@), 0) && x == (if out.len()
                == 1 {
                out[0]
            } else {
                StmtView::Block(out)
            })
    } else if k == "IfStatement"@ {
        x matches StmtView::If { test, then, otherwise, loc } && shows_at(s, test, t, "test"@)
            && shows_block_at(s, then, t, "consequent"@) && shows_block_at(
            s,
            otherwise,
            t,
            "alternate"@,
        ) && loc == at
    } else if k == "ReturnStatement"@ {
        x matches StmtView::Return(e, loc) && shows_maybe(s, e, t, "argument"@) && loc == at
    } else if k == "ThrowStatement"@ {
        x matches StmtView::Throw(e, loc) && shows_at(s, e, t, "argument"@) && loc == at
    } else if k == "BlockStatement"@ {
        x matches StmtView::Block(b) && show_stmts(s, b, 0, items(t, "body"@), 0)
    } else if k == "ForOfStatement"@ || k == "ForInStatement"@ {
        x matches StmtView::Loop { binding, iter, body, loc } && iter is Some && shows_at(
            s,
            iter->0,
            t,
            "right"@,
        ) && shows_block_at(s, body, t, "body"@) && loc == at && binding == (if k
            == "ForOfStatement"@ {
            lower::loop_binding(t)
        } else {
            None
        })
    } else if k == "ForStatement"@ {
        x matches StmtView::Loop { binding, iter, body, loc } && iter is None && binding is None
            && shows_block_at(s, body, t, "body"@) && loc == at
    } else if k == "WhileStatement"@ || k == "DoWhileStatement"@ {
        x matches StmtView::Loop { binding, iter, body, loc } && iter is Some && shows_at(
            s,
            iter->0,
            t,
            "test"@,
        ) && shows_block_at(s, body, t, "body"@) && loc == at && binding is None
    } else if k == "TryStatement"@ {
        x matches StmtView::Try { body, handler, finalizer, loc } && shows_body(s, body, t, "block"@)
            && shows_handler(s, handler, t) && shows_body(s, finalizer, t, "finalizer"@) && loc == at
    } else if k == "SwitchStatement"@ {
        x matches StmtView::Block(out) && exists|disc: ExprView|
            #[trigger] shows_at(s, disc, t, "discriminant"@) && show_cases(
                s,
                out,
                disc,
                items(t, "cases"@),
                0,
            )
    } else if k == "BreakStatement"@ || k == "ContinueStatement"@ {
        x == StmtView::Jump(at)
    } else {
        x == StmtView::Expr(ExprView::Opaque(said(s, t)), at)
    }
}

/// Statements from index `j` on show the nodes from index `i` on, but for those that say nothing.
pub open spec fn show_stmts(
    s: SourceView,
    ss: Seq<StmtView>,
    j: int,
    xs: Seq<TreeView>,
    i: int,
) -> bool
    decreases sizes(xs, 0), 10 + xs.len() - i,
{
    proof {
        items_fit(xs);
    }
    if 0 <= i < xs.len() {
        if is_silent(xs[i]) {
            show_stmts(s, ss, j, xs, i + 1)
        } else {
            j < ss.len() && shows_stmt(s, ss[j], xs[i]) && show_stmts(s, ss, j + 1, xs, i + 1)
        }
    } else {
        ss.len() == j
    }
}

/// Statements show a node: those of a block, or one.
pub open spec fn shows_block(s: SourceView, ss: Seq<StmtView>, t: TreeView) -> bool
    decreases size(t), 10int,
{
    proof {
        parts_fit(t);
    }
    if kind(t) == "BlockStatement"@ {
        show_stmts(s, ss, 0, items(t, "body"@), 0)
    } else if is_silent(t) {
        ss.len() == 0
    } else {
        ss.len() == 1 && shows_stmt(s, ss[0], t)
    }
}

/// Statements show the part of a node under a key.
pub open spec fn shows_block_at(s: SourceView, ss: Seq<StmtView>, t: TreeView, key: Text) -> bool
    decreases size(t), 5int,
{
    proof {
        parts_fit(t);
    }
    match part(t, key) {
        Some(x) => shows_block(s, ss, x),
        None => ss.len() == 0,
    }
}

/// Statements show the body of the part of a node under a key.
pub open spec fn shows_body(s: SourceView, ss: Seq<StmtView>, t: TreeView, key: Text) -> bool
    decreases size(t), 5int,
{
    proof {
        parts_fit(t);
    }
    match part(t, key) {
        Some(x) => {
            proof {
                parts_fit(x);
            }
            show_stmts(s, ss, 0, items(x, "body"@), 0)
        },
        None => ss.len() == 0,
    }
}

/// Statements show the handler of a node.
pub open spec fn shows_handler(s: SourceView, ss: Seq<StmtView>, t: TreeView) -> bool
    decreases size(t), 6int,
{
    proof {
        parts_fit(t);
    }
    match part(t, "handler"@) {
        Some(h) => shows_body(s, ss, h, "body"@),
        None => ss.len() == 0,
    }
}

/// A statement shows a declarator: a binding of its name with its type, or the initializer alone.
pub open spec fn shows_declarator(s: SourceView, x: StmtView, t: TreeView) -> bool {
    match syntax::ident(part(t, "id"@)) {
        Some(n) => x matches StmtView::Let { name, ty, init, loc } && name == n && ty
            == crate::annotations::annotation(part(t, "id"@)->0) && loc == start_of(s, t) && (
        if syntax::is_kind(part(t, "init"@), "ArrowFunctionExpression"@) {
            init matches Some(e) && e is Closure
        } else {
            shows_maybe(s, init, t, "init"@)
        }),
        None => x matches StmtView::Expr(e, loc) && shows_maybe(s, Some(e), t, "init"@) && loc
            == start_of(s, t),
    }
}

/// Statements from index `j` on show the declarators from index `i` on.
pub open spec fn show_declarators(
    s: SourceView,
    ss: Seq<StmtView>,
    j: int,
    xs: Seq<TreeView>,
    i: int,
) -> bool
    decreases sizes(xs, 0), 10 + xs.len() - i,
{
    proof {
        items_fit(xs);
    }
    if 0 <= i < xs.len() {
        if is_bare(xs[i]) {
            show_declarators(s, ss, j, xs, i + 1)
        } else {
            j < ss.len() && shows_declarator(s, ss[j], xs[i]) && show_declarators(s, ss, j + 1, xs, i + 1)
        }
    } else {
        ss.len() == j
    }
}

/// A statement shows a case: a test for equality with what is switched on, or the default.
pub open spec fn shows_case(s: SourceView, x: StmtView, disc: ExprView, t: TreeView) -> bool
    decreases size(t), 8int,
{
    proof {
        parts_fit(t);
    }
    match part(t, "test"@) {
        Some(c) => x matches StmtView::If { test, then, otherwise, loc } && otherwise.len() == 0
            && loc == start_of(s, t) && show_stmts(s, then, 0, items(t, "consequent"@), 0) && (
        test matches ExprView::Binary { op, left, right } && op == BinOp::Eq && *left == disc
            && shows(s, *right, c)),
        None => x matches StmtView::Block(b) && show_stmts(s, b, 0, items(t, "consequent"@), 0),
    }
}

/// Statements show the cases from index `i` on, one by one.
pub open spec fn show_cases(
    s: SourceView,
    ss: Seq<StmtView>,
    disc: ExprView,
    xs: Seq<TreeView>,
    i: int,
) -> bool
    decreases sizes(xs, 0), 10 + xs.len() - i,
{
    proof {
        items_fit(xs);
    }
    if 0 <= i < xs.len() {
        i < ss.len() && shows_case(s, ss[i], disc, xs[i]) && show_cases(s, ss, disc, xs, i + 1)
    } else {
        ss.len() == xs.len()
    }
}

// ---- what is found stays found

/// What was found stays, and more may follow it.
pub open spec fn grows(a: FoundView, b: FoundView) -> bool {
    &&& a.functions.len() <= b.functions.len()
    &&& forall|i: int| 0 <= i < a.functions.len() ==> #[trigger] a.functions[i] == b.functions[i]
}

proof fn pushing_grows(st: FoundView, f: FunctionView)
    ensures
        grows(st, lower::with_function(st, f)),
{
}

/// The items of one list are followed by those of another.
spec fn begins_with<T>(all: Seq<T>, acc: Seq<T>) -> bool {
    acc.len() <= all.len() && forall|i: int| 0 <= i < acc.len() ==> #[trigger] acc[i] == all[i]
}

proof fn words_differ()
    ensures
        forall|sign: Text| means(lower::operator_of(sign), sign),
        forall|sign: Text| connects(lower::connective_of(sign), sign),
{
    reveal_strlit("==");
    reveal_strlit("===");
    reveal_strlit("!=");
    reveal_strlit("!==");
    reveal_strlit("<");
    reveal_strlit("<=");
    reveal_strlit(">");
    reveal_strlit(">=");
}

proof fn statement_kinds_differ()
    ensures
        "FunctionDeclaration"@ != "ExpressionStatement"@,
        "FunctionDeclaration"@ != "VariableDeclaration"@,
        "FunctionDeclaration"@ != "IfStatement"@,
        "FunctionDeclaration"@ != "ReturnStatement"@,
        "FunctionDeclaration"@ != "ThrowStatement"@,
        "FunctionDeclaration"@ != "BlockStatement"@,
        "FunctionDeclaration"@ != "ForOfStatement"@,
        "FunctionDeclaration"@ != "ForInStatement"@,
        "FunctionDeclaration"@ != "ForStatement"@,
        "FunctionDeclaration"@ != "WhileStatement"@,
        "FunctionDeclaration"@ != "DoWhileStatement"@,
        "FunctionDeclaration"@ != "TryStatement"@,
        "FunctionDeclaration"@ != "SwitchStatement"@,
        "FunctionDeclaration"@ != "BreakStatement"@,
        "FunctionDeclaration"@ != "ContinueStatement"@,
        "TSDeclareFunction"@ != "ExpressionStatement"@,
        "TSDeclareFunction"@ != "VariableDeclaration"@,
        "TSDeclareFunction"@ != "IfStatement"@,
        "TSDeclareFunction"@ != "ReturnStatement"@,
        "TSDeclareFunction"@ != "ThrowStatement"@,
        "TSDeclareFunction"@ != "BlockStatement"@,
        "TSDeclareFunction"@ != "ForOfStatement"@,
        "TSDeclareFunction"@ != "ForInStatement"@,
        "TSDeclareFunction"@ != "ForStatement"@,
        "TSDeclareFunction"@ != "WhileStatement"@,
        "TSDeclareFunction"@ != "DoWhileStatement"@,
        "TSDeclareFunction"@ != "TryStatement"@,
        "TSDeclareFunction"@ != "SwitchStatement"@,
        "TSDeclareFunction"@ != "BreakStatement"@,
        "TSDeclareFunction"@ != "ContinueStatement"@,
        "EmptyStatement"@ != "ExpressionStatement"@,
        "EmptyStatement"@ != "VariableDeclaration"@,
        "EmptyStatement"@ != "IfStatement"@,
        "EmptyStatement"@ != "ReturnStatement"@,
        "EmptyStatement"@ != "ThrowStatement"@,
        "EmptyStatement"@ != "BlockStatement"@,
        "EmptyStatement"@ != "ForOfStatement"@,
        "EmptyStatement"@ != "ForInStatement"@,
        "EmptyStatement"@ != "ForStatement"@,
        "EmptyStatement"@ != "WhileStatement"@,
        "EmptyStatement"@ != "DoWhileStatement"@,
        "EmptyStatement"@ != "TryStatement"@,
        "EmptyStatement"@ != "SwitchStatement"@,
        "EmptyStatement"@ != "BreakStatement"@,
        "EmptyStatement"@ != "ContinueStatement"@,
{
    reveal_strlit("BlockStatement");
    reveal_strlit("BreakStatement");
    reveal_strlit("ContinueStatement");
    reveal_strlit("DoWhileStatement");
    reveal_strlit("EmptyStatement");
    reveal_strlit("ExpressionStatement");
    reveal_strlit("ForInStatement");
    reveal_strlit("ForOfStatement");
    reveal_strlit("ForStatement");
    reveal_strlit("FunctionDeclaration");
    reveal_strlit("IfStatement");
    reveal_strlit("ReturnStatement");
    reveal_strlit("SwitchStatement");
    reveal_strlit("TSDeclareFunction");
    reveal_strlit("ThrowStatement");
    reveal_strlit("TryStatement");
    reveal_strlit("VariableDeclaration");
    reveal_strlit("WhileStatement");
    assert("FunctionDeclaration"@[0] != "ExpressionStatement"@[0]);
    assert("FunctionDeclaration"@[0] != "VariableDeclaration"@[0]);
    assert("FunctionDeclaration"@.len() != "IfStatement"@.len());
    assert("FunctionDeclaration"@.len() != "ReturnStatement"@.len());
    assert("FunctionDeclaration"@.len() != "ThrowStatement"@.len());
    assert("FunctionDeclaration"@.len() != "BlockStatement"@.len());
    assert("FunctionDeclaration"@.len() != "ForOfStatement"@.len());
    assert("FunctionDeclaration"@.len() != "ForInStatement"@.len());
    assert("FunctionDeclaration"@.len() != "ForStatement"@.len());
    assert("FunctionDeclaration"@.len() != "WhileStatement"@.len());
    assert("FunctionDeclaration"@.len() != "DoWhileStatement"@.len());
    assert("FunctionDeclaration"@.len() != "TryStatement"@.len());
    assert("FunctionDeclaration"@.len() != "SwitchStatement"@.len());
    assert("FunctionDeclaration"@.len() != "BreakStatement"@.len());
    assert("FunctionDeclaration"@.len() != "ContinueStatement"@.len());
    assert("TSDeclareFunction"@.len() != "ExpressionStatement"@.len());
    assert("TSDeclareFunction"@.len() != "VariableDeclaration"@.len());
    assert("TSDeclareFunction"@.len() != "IfStatement"@.len());
    assert("TSDeclareFunction"@.len() != "ReturnStatement"@.len());
    assert("TSDeclareFunction"@.len() != "ThrowStatement"@.len());
    assert("TSDeclareFunction"@.len() != "BlockStatement"@.len());
    assert("TSDeclareFunction"@.len() != "ForOfStatement"@.len());
    assert("TSDeclareFunction"@.len() != "ForInStatement"@.len());
    assert("TSDeclareFunction"@.len() != "ForStatement"@.len());
    assert("TSDeclareFunction"@.len() != "WhileStatement"@.len());
    assert("TSDeclareFunction"@.len() != "DoWhileStatement"@.len());
    assert("TSDeclareFunction"@.len() != "TryStatement"@.len());
    assert("TSDeclareFunction"@.len() != "SwitchStatement"@.len());
    assert("TSDeclareFunction"@.len() != "BreakStatement"@.len());
    assert("TSDeclareFunction"@[0] != "ContinueStatement"@[0]);
    assert("EmptyStatement"@.len() != "ExpressionStatement"@.len());
    assert("EmptyStatement"@.len() != "VariableDeclaration"@.len());
    assert("EmptyStatement"@.len() != "IfStatement"@.len());
    assert("EmptyStatement"@.len() != "ReturnStatement"@.len());
    assert("EmptyStatement"@[0] != "ThrowStatement"@[0]);
    assert("EmptyStatement"@[0] != "BlockStatement"@[0]);
    assert("EmptyStatement"@[0] != "ForOfStatement"@[0]);
    assert("EmptyStatement"@[0] != "ForInStatement"@[0]);
    assert("EmptyStatement"@.len() != "ForStatement"@.len());
    assert("EmptyStatement"@[0] != "WhileStatement"@[0]);
    assert("EmptyStatement"@.len() != "DoWhileStatement"@.len());
    assert("EmptyStatement"@.len() != "TryStatement"@.len());
    assert("EmptyStatement"@.len() != "SwitchStatement"@.len());
    assert("EmptyStatement"@[0] != "BreakStatement"@[0]);
    assert("EmptyStatement"@.len() != "ContinueStatement"@.len());
}

// ---- functions

/// A function is found last, with its id, its flags and the statements of its body.
pub open spec fn ends_with_function(
    cx: AroundView,
    r: FoundView,
    f: TreeView,
    qualified: Text,
    exported: bool,
) -> bool {
    &&& r.functions.len() > 0
    &&& r.functions.last().id == cx.source.path + "::"@ + qualified
    &&& r.functions.last().is_async == flag(f, "async"@)
    &&& r.functions.last().exported == exported
    &&& r.functions.last().loc == start_of(cx.source, f)
    &&& shows_function_body(cx.source, r.functions.last().body, f)
}

/// Statements show the body of a function; a body that is an expression is a single return of it.
pub open spec fn shows_function_body(s: SourceView, ss: Seq<StmtView>, f: TreeView) -> bool {
    match part(f, "body"@) {
        Some(b) => if kind(f) == "ArrowFunctionExpression"@ && flag(f, "expression"@) {
            ss.len() == 1 && (ss[0] matches StmtView::Return(e, loc) && e is Some && shows(s, e->0, b)
                && loc == start_of(s, b))
        } else {
            show_stmts(s, ss, 0, items(b, "body"@), 0)
        },
        None => ss.len() == 0,
    }
}

proof fn function_reflects(
    cx: AroundView,
    st: FoundView,
    t: TreeView,
    qualified: Text,
    class: Option<Text>,
    k: FunctionKind,
    exported: bool,
    parent: Option<Text>,
)
    ensures
        grows(st, lower::function_of(cx, st, t, qualified, class, k, exported, parent)),
        kind(t) != "ArrowFunctionExpression"@ ==> ends_with_function(cx, lower::function_of(cx, st, t, qualified, class, k, exported, parent), t, qualified, exported),
    decreases size(t), 6int,
{
    parts_fit(t);
    let c = lower::inside(cx, qualified);
    if let Some(b) = part(t, "body"@) {
        parts_fit(b);
        stmts_reflect(c, st, items(b, "body"@), 0, seq![]);
        let x = lower::stmts_from(c, st, items(b, "body"@), 0, seq![]);
        pushing_grows(
            x.0,
            lower::function_with(cx, t, qualified, class, k, exported, parent, x.1),
        );
    } else {
        pushing_grows(
            st,
            lower::function_with(cx, t, qualified, class, k, exported, parent, seq![]),
        );
    }
}

proof fn arrow_reflects(
    cx: AroundView,
    st: FoundView,
    t: TreeView,
    qualified: Text,
    exported: bool,
)
    ensures
        grows(st, lower::arrow_of(cx, st, t, qualified, exported)),
        kind(t) == "ArrowFunctionExpression"@ ==> ends_with_function(cx, lower::arrow_of(cx, st, t, qualified, exported), t, qualified, exported),
    decreases size(t), 6int,
{
    parts_fit(t);
    let c = lower::inside(cx, qualified);
    let parent = lower::owner_id(cx);
    let k = if parent is Some {
        FunctionKind::Closure
    } else {
        FunctionKind::Function
    };
    if let Some(b) = part(t, "body"@) {
        parts_fit(b);
        if flag(t, "expression"@) {
            expr_reflects(c, st, b);
            let x = lower::expr_of(c, st, b);
            let ss = seq![StmtView::Return(Some(x.1), lower::loc_of(cx, b))];
            assert(ss[0] == StmtView::Return(Some(x.1), lower::loc_of(cx, b)));
            pushing_grows(x.0, lower::function_with(cx, t, qualified, None, k, exported, parent, ss));
        } else {
            stmts_reflect(c, st, items(b, "body"@), 0, seq![]);
            let x = lower::stmts_from(c, st, items(b, "body"@), 0, seq![]);
            pushing_grows(x.0, lower::function_with(cx, t, qualified, None, k, exported, parent, x.1));
        }
    } else {
        pushing_grows(st, lower::function_with(cx, t, qualified, None, k, exported, parent, seq![]));
    }
}

proof fn arrow_closure_reflects(
    cx: AroundView,
    st: FoundView,
    t: TreeView,
    hint: Option<Text>,
)
    ensures
        lower::arrow_closure(cx, st, t, hint).1 is Closure,
        grows(st, lower::arrow_closure(cx, st, t, hint).0),
    decreases size(t), 7int,
{
    parts_fit(t);
    let x = lower::closure_named(cx, st, hint);
    arrow_reflects(cx, x.0, t, x.1, false);
}

proof fn function_closure_reflects(
    cx: AroundView,
    st: FoundView,
    t: TreeView,
    hint: Option<Text>,
)
    ensures
        lower::function_closure(cx, st, t, hint).1 is Closure,
        grows(st, lower::function_closure(cx, st, t, hint).0),
    decreases size(t), 7int,
{
    parts_fit(t);
    let x = lower::closure_named(cx, st, hint);
    function_reflects(
        cx,
        x.0,
        t,
        x.1,
        None,
        FunctionKind::Closure,
        false,
        lower::owner_id(cx),
    );
}

// ---- statements

proof fn stmts_reflect(
    cx: AroundView,
    st: FoundView,
    xs: Seq<TreeView>,
    i: int,
    acc: Seq<StmtView>,
)
    requires
        0 <= i,
    ensures
        show_stmts(cx.source, lower::stmts_from(cx, st, xs, i, acc).1, acc.len() as int, xs, i),
        begins_with(lower::stmts_from(cx, st, xs, i, acc).1, acc),
        grows(st, lower::stmts_from(cx, st, xs, i, acc).0),
    decreases sizes(xs, 0), 10 + xs.len() - i,
{
    items_fit(xs);
    if i < xs.len() {
        stmt_reflects(cx, st, xs[i]);
        let x = lower::stmt_of(cx, st, xs[i]);
        if x.1 is Some {
            stmts_reflect(cx, x.0, xs, i + 1, acc.push(x.1->0));
            let all = lower::stmts_from(cx, x.0, xs, i + 1, acc.push(x.1->0)).1;
            assert(all[acc.len() as int] == x.1->0) by {
                assert(acc.push(x.1->0)[acc.len() as int] == x.1->0);
            }
            assert forall|n: int| 0 <= n < acc.len() implies #[trigger] acc[n] == all[n] by {
                assert(acc.push(x.1->0)[n] == acc[n]);
            }
        } else {
            stmts_reflect(cx, x.0, xs, i + 1, acc);
        }
    }
}

proof fn block_reflects(
    cx: AroundView,
    st: FoundView,
    t: TreeView,
)
    ensures
        shows_block(cx.source, lower::block_of(cx, st, t).1, t),
        grows(st, lower::block_of(cx, st, t).0),
    decreases size(t), 10int,
{
    parts_fit(t);
    if kind(t) == "BlockStatement"@ {
        stmts_reflect(cx, st, items(t, "body"@), 0, seq![]);
    } else {
        stmt_reflects(cx, st, t);
    }
}

proof fn block_at_reflects(
    cx: AroundView,
    st: FoundView,
    t: TreeView,
    key: Text,
)
    ensures
        shows_block_at(cx.source, lower::block_at(cx, st, t, key).1, t, key),
        grows(st, lower::block_at(cx, st, t, key).0),
    decreases size(t), 5int,
{
    parts_fit(t);
    if let Some(x) = part(t, key) {
        block_reflects(cx, st, x);
    }
}

proof fn declarator_reflects(
    cx: AroundView,
    st: FoundView,
    t: TreeView,
)
    ensures
        lower::declarator(cx, st, t).1 is Some ==> shows_declarator(cx.source, lower::declarator(cx, st, t).1->0, t),
        lower::declarator(cx, st, t).1 is None <==> is_bare(t),
        grows(st, lower::declarator(cx, st, t).0),
    decreases size(t), 8int,
{
    parts_fit(t);
    match syntax::ident(part(t, "id"@)) {
        Some(name) => {
            if syntax::is_kind(part(t, "init"@), "ArrowFunctionExpression"@) {
                arrow_closure_reflects(cx, st, part(t, "init"@)->0, Some(name));
            } else {
                optional_reflects(cx, st, t, "init"@);
            }
        },
        None => {
            optional_reflects(cx, st, t, "init"@);
        },
    }
}

proof fn declarators_reflect(
    cx: AroundView,
    st: FoundView,
    xs: Seq<TreeView>,
    i: int,
    acc: Seq<StmtView>,
)
    requires
        0 <= i,
    ensures
        show_declarators(cx.source, lower::declarators_from(cx, st, xs, i, acc).1, acc.len() as int, xs, i),
        begins_with(lower::declarators_from(cx, st, xs, i, acc).1, acc),
        grows(st, lower::declarators_from(cx, st, xs, i, acc).0),
    decreases sizes(xs, 0), 10 + xs.len() - i,
{
    items_fit(xs);
    if i < xs.len() {
        declarator_reflects(cx, st, xs[i]);
        let x = lower::declarator(cx, st, xs[i]);
        if x.1 is Some {
            declarators_reflect(cx, x.0, xs, i + 1, acc.push(x.1->0));
            let all = lower::declarators_from(cx, x.0, xs, i + 1, acc.push(x.1->0)).1;
            assert(all[acc.len() as int] == x.1->0) by {
                assert(acc.push(x.1->0)[acc.len() as int] == x.1->0);
            }
            assert forall|n: int| 0 <= n < acc.len() implies #[trigger] acc[n] == all[n] by {
                assert(acc.push(x.1->0)[n] == acc[n]);
            }
        } else {
            declarators_reflect(cx, x.0, xs, i + 1, acc);
        }
    }
}

proof fn case_reflects(
    cx: AroundView,
    st: FoundView,
    t: TreeView,
    disc: ExprView,
)
    ensures
        shows_case(cx.source, lower::case_of(cx, st, disc, t).1, disc, t),
        grows(st, lower::case_of(cx, st, disc, t).0),
    decreases size(t), 8int,
{
    parts_fit(t);
    let xs = items(t, "consequent"@);
    stmts_reflect(cx, st, xs, 0, seq![]);
    let x = lower::stmts_from(cx, st, xs, 0, seq![]);
    optional_reflects(cx, x.0, t, "test"@);
}

proof fn cases_reflect(
    cx: AroundView,
    st: FoundView,
    xs: Seq<TreeView>,
    i: int,
    disc: ExprView,
    acc: Seq<StmtView>,
)
    requires
        0 <= i,
        acc.len() == i,
        i <= xs.len(),
    ensures
        show_cases(cx.source, lower::cases_from(cx, st, disc, xs, i, acc).1, disc, xs, i),
        begins_with(lower::cases_from(cx, st, disc, xs, i, acc).1, acc),
        grows(st, lower::cases_from(cx, st, disc, xs, i, acc).0),
    decreases sizes(xs, 0), 10 + xs.len() - i,
{
    items_fit(xs);
    if i < xs.len() {
        case_reflects(cx, st, xs[i], disc);
        let x = lower::case_of(cx, st, disc, xs[i]);
        cases_reflect(cx, x.0, xs, i + 1, disc, acc.push(x.1));
        let all = lower::cases_from(cx, x.0, disc, xs, i + 1, acc.push(x.1)).1;
        assert(all[acc.len() as int] == x.1) by {
            assert(acc.push(x.1)[acc.len() as int] == x.1);
        }
        assert forall|n: int| 0 <= n < acc.len() implies #[trigger] acc[n] == all[n] by {
            assert(acc.push(x.1)[n] == acc[n]);
        }
    }
}

proof fn loop_reflects(
    cx: AroundView,
    st: FoundView,
    t: TreeView,
    binding: Option<Text>,
    over: Text,
)
    ensures
        lower::loop_of(cx, st, t, binding, over).1 matches StmtView::Loop { binding: bd, iter, body, loc } && bd == binding && iter is Some && shows_at(cx.source, iter->0, t, over) && shows_block_at(cx.source, body, t, "body"@) && loc == start_of(cx.source, t),
        grows(st, lower::loop_of(cx, st, t, binding, over).0),
    decreases size(t), 7int,
{
    parts_fit(t);
    expr_at_reflects(cx, st, t, over);
    let x = lower::expr_at(cx, st, t, over);
    block_at_reflects(cx, x.0, t, "body"@);
}

proof fn body_reflects(
    cx: AroundView,
    st: FoundView,
    t: TreeView,
    key: Text,
)
    ensures
        shows_body(cx.source, lower::body_within(cx, st, t, key).1, t, key),
        grows(st, lower::body_within(cx, st, t, key).0),
    decreases size(t), 5int,
{
    parts_fit(t);
    if let Some(x) = part(t, key) {
        parts_fit(x);
        stmts_reflect(cx, st, items(x, "body"@), 0, seq![]);
    }
}

proof fn try_reflects(
    cx: AroundView,
    st: FoundView,
    t: TreeView,
)
    ensures
        lower::try_of(cx, st, t).1 matches StmtView::Try { body, handler, finalizer, loc } && shows_body(cx.source, body, t, "block"@) && shows_handler(cx.source, handler, t) && shows_body(cx.source, finalizer, t, "finalizer"@) && loc == start_of(cx.source, t),
        grows(st, lower::try_of(cx, st, t).0),
    decreases size(t), 7int,
{
    parts_fit(t);
    body_reflects(cx, st, t, "block"@);
    let x = lower::body_within(cx, st, t, "block"@);
    let y = match part(t, "handler"@) {
        Some(h) => {
            body_reflects(cx, x.0, h, "body"@);
            lower::body_within(cx, x.0, h, "body"@)
        },
        None => (x.0, seq![]),
    };
    body_reflects(cx, y.0, t, "finalizer"@);
}

proof fn if_reflects(
    cx: AroundView,
    st: FoundView,
    t: TreeView,
)
    ensures
        lower::if_of(cx, st, t).1 matches StmtView::If { test, then, otherwise, loc } && shows_at(cx.source, test, t, "test"@) && shows_block_at(cx.source, then, t, "consequent"@) && shows_block_at(cx.source, otherwise, t, "alternate"@) && loc == start_of(cx.source, t),
        grows(st, lower::if_of(cx, st, t).0),
    decreases size(t), 7int,
{
    parts_fit(t);
    expr_at_reflects(cx, st, t, "test"@);
    let x = lower::expr_at(cx, st, t, "test"@);
    block_at_reflects(cx, x.0, t, "consequent"@);
    let y = lower::block_at(cx, x.0, t, "consequent"@);
    block_at_reflects(cx, y.0, t, "alternate"@);
}

proof fn switch_reflects(
    cx: AroundView,
    st: FoundView,
    t: TreeView,
)
    ensures
        lower::switch_of(cx, st, t).1 matches StmtView::Block(out) && shows_at(cx.source, lower::expr_at(cx, st, t, "discriminant"@).1, t, "discriminant"@) && show_cases(cx.source, out, lower::expr_at(cx, st, t, "discriminant"@).1, items(t, "cases"@), 0),
        grows(st, lower::switch_of(cx, st, t).0),
    decreases size(t), 7int,
{
    parts_fit(t);
    expr_at_reflects(cx, st, t, "discriminant"@);
    let x = lower::expr_at(cx, st, t, "discriminant"@);
    cases_reflect(cx, x.0, items(t, "cases"@), 0, x.1, seq![]);
}

proof fn inner_function_reflects(
    cx: AroundView,
    st: FoundView,
    t: TreeView,
)
    ensures
        grows(st, lower::inner_function(cx, st, t)),
    decreases size(t), 8int,
{
    parts_fit(t);
    if let Some(name) = syntax::ident(part(t, "id"@)) {
        function_closure_reflects(cx, st, t, Some(name));
    }
}

proof fn stmt_reflects(
    cx: AroundView,
    st: FoundView,
    t: TreeView,
)
    ensures
        lower::stmt_of(cx, st, t).1 is Some ==> shows_stmt(cx.source, lower::stmt_of(cx, st, t).1->0, t),
        lower::stmt_of(cx, st, t).1 is None <==> is_silent(t),
        grows(st, lower::stmt_of(cx, st, t).0),
    decreases size(t), 9int,
{
    parts_fit(t);
    let k = kind(t);
    statement_kinds_differ();
    if k == "ExpressionStatement"@ {
        expr_at_reflects(cx, st, t, "expression"@);
    } else if k == "VariableDeclaration"@ {
        declarators_reflect(cx, st, items(t, "declarations"@), 0, seq![]);
        let out = lower::declarators_from(cx, st, items(t, "declarations"@), 0, seq![]).1;
        assert(show_declarators(cx.source, out, 0, items(t, "declarations"@), 0));
    } else if k == "IfStatement"@ {
        if_reflects(cx, st, t);
    } else if k == "ReturnStatement"@ {
        optional_reflects(cx, st, t, "argument"@);
    } else if k == "ThrowStatement"@ {
        expr_at_reflects(cx, st, t, "argument"@);
    } else if k == "BlockStatement"@ {
        stmts_reflect(cx, st, items(t, "body"@), 0, seq![]);
    } else if k == "ForOfStatement"@ {
        loop_reflects(cx, st, t, lower::loop_binding(t), "right"@);
    } else if k == "ForInStatement"@ {
        loop_reflects(cx, st, t, None, "right"@);
    } else if k == "ForStatement"@ {
        block_at_reflects(cx, st, t, "body"@);
    } else if k == "WhileStatement"@ || k == "DoWhileStatement"@ {
        loop_reflects(cx, st, t, None, "test"@);
    } else if k == "TryStatement"@ {
        try_reflects(cx, st, t);
    } else if k == "SwitchStatement"@ {
        switch_reflects(cx, st, t);
    } else if lower::declares_function(k) {
        inner_function_reflects(cx, st, t);
    }
}

// ---- expressions

proof fn cooked_are_those(xs: Seq<TreeView>, i: int)
    requires
        0 <= i <= xs.len(),
    ensures
        lower::cooked_from(xs, i).len() == xs.len() - i,
        forall|n: int|
            0 <= n < xs.len() - i ==> #[trigger] lower::cooked_from(xs, i)[n] == (match part(
                xs[i + n],
                "value"@,
            ) {
                Some(v) => word(v, "cooked"@),
                None => Seq::<char>::empty(),
            }),
    decreases xs.len() - i,
{
    reveal_strlit("");
    assert(""@ =~= Seq::<char>::empty());
    if i < xs.len() {
        cooked_are_those(xs, i + 1);
        let rest = lower::cooked_from(xs, i + 1);
        let all = lower::cooked_from(xs, i);
        assert forall|n: int| 0 <= n < xs.len() - i implies #[trigger] all[n] == (match part(
            xs[i + n],
            "value"@,
        ) {
            Some(v) => word(v, "cooked"@),
            None => Seq::<char>::empty(),
        }) by {
            if n > 0 {
                assert(all[n] == rest[n - 1]);
            }
        }
    }
}

proof fn expr_at_reflects(
    cx: AroundView,
    st: FoundView,
    t: TreeView,
    key: Text,
)
    ensures
        shows_at(cx.source, lower::expr_at(cx, st, t, key).1, t, key),
        grows(st, lower::expr_at(cx, st, t, key).0),
    decreases size(t), 5int,
{
    parts_fit(t);
    if let Some(x) = part(t, key) {
        expr_reflects(cx, st, x);
    }
}

proof fn optional_reflects(
    cx: AroundView,
    st: FoundView,
    t: TreeView,
    key: Text,
)
    ensures
        shows_maybe(cx.source, lower::optional_expr(cx, st, t, key).1, t, key),
        grows(st, lower::optional_expr(cx, st, t, key).0),
    decreases size(t), 5int,
{
    parts_fit(t);
    if let Some(x) = part(t, key) {
        expr_reflects(cx, st, x);
    }
}

proof fn exprs_reflect(
    cx: AroundView,
    st: FoundView,
    xs: Seq<TreeView>,
    i: int,
    acc: Seq<ExprView>,
)
    requires
        0 <= i,
        acc.len() == i,
        i <= xs.len(),
    ensures
        show_all(cx.source, lower::exprs_from(cx, st, xs, i, acc).1, xs, i),
        begins_with(lower::exprs_from(cx, st, xs, i, acc).1, acc),
        grows(st, lower::exprs_from(cx, st, xs, i, acc).0),
    decreases sizes(xs, 0), 10 + xs.len() - i,
{
    items_fit(xs);
    if i < xs.len() {
        expr_reflects(cx, st, xs[i]);
        let x = lower::expr_of(cx, st, xs[i]);
        exprs_reflect(cx, x.0, xs, i + 1, acc.push(x.1));
        let all = lower::exprs_from(cx, x.0, xs, i + 1, acc.push(x.1)).1;
        assert(all[acc.len() as int] == x.1) by {
            assert(acc.push(x.1)[acc.len() as int] == x.1);
        }
        assert forall|n: int| 0 <= n < acc.len() implies #[trigger] acc[n] == all[n] by {
            assert(acc.push(x.1)[n] == acc[n]);
        }
    }
}

proof fn args_reflect(
    cx: AroundView,
    st: FoundView,
    xs: Seq<TreeView>,
    i: int,
    hint: Option<Text>,
    acc: Seq<ExprView>,
)
    requires
        0 <= i,
        acc.len() == i,
        i <= xs.len(),
    ensures
        show_args(cx.source, lower::args_from(cx, st, xs, i, hint, acc).1, xs, i),
        begins_with(lower::args_from(cx, st, xs, i, hint, acc).1, acc),
        grows(st, lower::args_from(cx, st, xs, i, hint, acc).0),
    decreases sizes(xs, 0), 10 + xs.len() - i,
{
    items_fit(xs);
    if i < xs.len() {
        arg_reflects(cx, st, xs[i], hint);
        let x = lower::arg_of(cx, st, xs[i], hint);
        args_reflect(cx, x.0, xs, i + 1, hint, acc.push(x.1));
        let all = lower::args_from(cx, x.0, xs, i + 1, hint, acc.push(x.1)).1;
        assert(all[acc.len() as int] == x.1) by {
            assert(acc.push(x.1)[acc.len() as int] == x.1);
        }
        assert forall|n: int| 0 <= n < acc.len() implies #[trigger] acc[n] == all[n] by {
            assert(acc.push(x.1)[n] == acc[n]);
        }
    }
}

proof fn elements_reflect(
    cx: AroundView,
    st: FoundView,
    xs: Seq<TreeView>,
    i: int,
    acc: Seq<ExprView>,
)
    requires
        0 <= i,
    ensures
        show_elements(cx.source, lower::elements_from(cx, st, xs, i, acc).1, acc.len() as int, xs, i),
        begins_with(lower::elements_from(cx, st, xs, i, acc).1, acc),
        grows(st, lower::elements_from(cx, st, xs, i, acc).0),
    decreases sizes(xs, 0), 10 + xs.len() - i,
{
    items_fit(xs);
    if i < xs.len() {
        if xs[i] is Null {
            elements_reflect(cx, st, xs, i + 1, acc);
        } else {
            let x = if kind(xs[i]) == "SpreadElement"@ {
                expr_at_reflects(cx, st, xs[i], "argument"@);
                lower::expr_at(cx, st, xs[i], "argument"@)
            } else {
                expr_reflects(cx, st, xs[i]);
                lower::expr_of(cx, st, xs[i])
            };
            elements_reflect(cx, x.0, xs, i + 1, acc.push(x.1));
            let all = lower::elements_from(cx, x.0, xs, i + 1, acc.push(x.1)).1;
            assert(all[acc.len() as int] == x.1) by {
                assert(acc.push(x.1)[acc.len() as int] == x.1);
            }
            assert forall|n: int| 0 <= n < acc.len() implies #[trigger] acc[n] == all[n] by {
                assert(acc.push(x.1)[n] == acc[n]);
            }
        }
    }
}

proof fn property_reflects(
    cx: AroundView,
    st: FoundView,
    t: TreeView,
)
    ensures
        lower::property_of(cx, st, t).1 is Some ==> shows_property(cx.source, lower::property_of(cx, st, t).1->0, t),
        lower::property_of(cx, st, t).1 is None <==> kind(t) != "SpreadElement"@ && syntax::key_name(t) is None,
        grows(st, lower::property_of(cx, st, t).0),
    decreases size(t), 9int,
{
    parts_fit(t);
    expr_at_reflects(cx, st, t, "argument"@);
    expr_at_reflects(cx, st, t, "value"@);
}

proof fn properties_reflect(
    cx: AroundView,
    st: FoundView,
    xs: Seq<TreeView>,
    i: int,
    acc: Seq<(Text, ExprView)>,
)
    requires
        0 <= i,
    ensures
        show_properties(cx.source, lower::properties_from(cx, st, xs, i, acc).1, acc.len() as int, xs, i),
        begins_with(lower::properties_from(cx, st, xs, i, acc).1, acc),
        grows(st, lower::properties_from(cx, st, xs, i, acc).0),
    decreases sizes(xs, 0), 10 + xs.len() - i,
{
    items_fit(xs);
    if i < xs.len() {
        property_reflects(cx, st, xs[i]);
        let x = lower::property_of(cx, st, xs[i]);
        if x.1 is Some {
            properties_reflect(cx, x.0, xs, i + 1, acc.push(x.1->0));
            let all = lower::properties_from(cx, x.0, xs, i + 1, acc.push(x.1->0)).1;
            assert(all[acc.len() as int] == x.1->0) by {
                assert(acc.push(x.1->0)[acc.len() as int] == x.1->0);
            }
            assert forall|n: int| 0 <= n < acc.len() implies #[trigger] acc[n] == all[n] by {
                assert(acc.push(x.1->0)[n] == acc[n]);
            }
        } else {
            properties_reflect(cx, x.0, xs, i + 1, acc);
        }
    }
}

proof fn member_reflects(
    cx: AroundView,
    st: FoundView,
    t: TreeView,
)
    ensures
        shows_member(cx.source, lower::member_of(cx, st, t).1, t),
        grows(st, lower::member_of(cx, st, t).0),
    decreases size(t), 7int,
{
    parts_fit(t);
    reveal_strlit("");
    assert(""@ =~= Seq::<char>::empty());
    expr_at_reflects(cx, st, t, "object"@);
    let x = lower::expr_at(cx, st, t, "object"@);
    expr_at_reflects(cx, x.0, t, "property"@);
}

proof fn call_reflects(
    cx: AroundView,
    st: FoundView,
    t: TreeView,
)
    ensures
        shows_call(cx.source, lower::call_of(cx, st, t).1, t),
        grows(st, lower::call_of(cx, st, t).0),
    decreases size(t), 7int,
{
    parts_fit(t);
    expr_at_reflects(cx, st, t, "callee"@);
    let x = lower::expr_at(cx, st, t, "callee"@);
    let xs = items(t, "arguments"@);
    args_reflect(cx, x.0, xs, 0, lower::call_hint(x.1, xs), seq![]);
}

proof fn arg_reflects(
    cx: AroundView,
    st: FoundView,
    t: TreeView,
    hint: Option<Text>,
)
    ensures
        shows_arg(cx.source, lower::arg_of(cx, st, t, hint).1, t),
        grows(st, lower::arg_of(cx, st, t, hint).0),
    decreases size(t), 9int,
{
    parts_fit(t);
    let k = kind(t);
    if k == "SpreadElement"@ {
        expr_at_reflects(cx, st, t, "argument"@);
    } else if k == "ArrowFunctionExpression"@ {
        arrow_closure_reflects(cx, st, t, hint);
    } else if k == "FunctionExpression"@ {
        function_closure_reflects(cx, st, t, hint);
    } else {
        expr_reflects(cx, st, t);
    }
}

proof fn chain_reflects(
    cx: AroundView,
    st: FoundView,
    t: TreeView,
)
    ensures
        shows_chain(cx.source, lower::chain_of(cx, st, t).1, t),
        grows(st, lower::chain_of(cx, st, t).0),
    decreases size(t), 7int,
{
    parts_fit(t);
    if let Some(x) = part(t, "expression"@) {
        if kind(x) == "CallExpression"@ {
            call_reflects(cx, st, x);
        } else if kind(x) == "MemberExpression"@ && syntax::static_property(x) is Some {
            expr_at_reflects(cx, st, x, "object"@);
        } else if kind(x) == "TSNonNullExpression"@ {
            expr_at_reflects(cx, st, x, "expression"@);
        }
    }
}

proof fn assign_reflects(
    cx: AroundView,
    st: FoundView,
    t: TreeView,
)
    ensures
        lower::assign_of(cx, st, t).1 matches ExprView::Assign { target, value, loc } && shows_target(cx.source, *target, t) && shows_at(cx.source, *value, t, "right"@) && loc == start_of(cx.source, t),
        grows(st, lower::assign_of(cx, st, t).0),
    decreases size(t), 7int,
{
    parts_fit(t);
    let x = match part(t, "left"@) {
        Some(l) => {
            if kind(l) == "MemberExpression"@ {
                member_reflects(cx, st, l);
            }
            lower::target_of(cx, st, l)
        },
        None => (st, ExprView::Undefined),
    };
    expr_at_reflects(cx, x.0, t, "right"@);
}

proof fn new_reflects(
    cx: AroundView,
    st: FoundView,
    t: TreeView,
)
    ensures
        lower::new_of(cx, st, t).1 matches ExprView::New { callee, args, loc } && shows_at(cx.source, *callee, t, "callee"@) && show_args(cx.source, args, items(t, "arguments"@), 0) && loc == start_of(cx.source, t),
        grows(st, lower::new_of(cx, st, t).0),
    decreases size(t), 7int,
{
    parts_fit(t);
    expr_at_reflects(cx, st, t, "callee"@);
    let x = lower::expr_at(cx, st, t, "callee"@);
    args_reflect(cx, x.0, items(t, "arguments"@), 0, None, seq![]);
}

proof fn binary_reflects(
    cx: AroundView,
    st: FoundView,
    t: TreeView,
)
    ensures
        !syntax::is_kind(part(t, "left"@), "PrivateIdentifier"@) ==> (lower::binary_of(cx, st, t).1 matches ExprView::Binary { op, left, right } && means(op, word(t, "operator"@)) && shows_at(cx.source, *left, t, "left"@) && shows_at(cx.source, *right, t, "right"@)),
        syntax::is_kind(part(t, "left"@), "PrivateIdentifier"@) ==> lower::binary_of(cx, st, t).1 == ExprView::Opaque(said(cx.source, t)),
        grows(st, lower::binary_of(cx, st, t).0),
    decreases size(t), 7int,
{
    parts_fit(t);
    words_differ();
    expr_at_reflects(cx, st, t, "left"@);
    let x = lower::expr_at(cx, st, t, "left"@);
    expr_at_reflects(cx, x.0, t, "right"@);
}

proof fn logical_reflects(
    cx: AroundView,
    st: FoundView,
    t: TreeView,
)
    ensures
        lower::logical_of(cx, st, t).1 matches ExprView::Logical { op, left, right } && connects(op, word(t, "operator"@)) && shows_at(cx.source, *left, t, "left"@) && shows_at(cx.source, *right, t, "right"@),
        grows(st, lower::logical_of(cx, st, t).0),
    decreases size(t), 7int,
{
    parts_fit(t);
    words_differ();
    expr_at_reflects(cx, st, t, "left"@);
    let x = lower::expr_at(cx, st, t, "left"@);
    expr_at_reflects(cx, x.0, t, "right"@);
}

proof fn conditional_reflects(
    cx: AroundView,
    st: FoundView,
    t: TreeView,
)
    ensures
        lower::conditional_of(cx, st, t).1 matches ExprView::Conditional { test, then, otherwise } && shows_at(cx.source, *test, t, "test"@) && shows_at(cx.source, *then, t, "consequent"@) && shows_at(cx.source, *otherwise, t, "alternate"@),
        grows(st, lower::conditional_of(cx, st, t).0),
    decreases size(t), 7int,
{
    parts_fit(t);
    expr_at_reflects(cx, st, t, "test"@);
    let x = lower::expr_at(cx, st, t, "test"@);
    expr_at_reflects(cx, x.0, t, "consequent"@);
    let y = lower::expr_at(cx, x.0, t, "consequent"@);
    expr_at_reflects(cx, y.0, t, "alternate"@);
}

proof fn expr_reflects(
    cx: AroundView,
    st: FoundView,
    t: TreeView,
)
    ensures
        shows(cx.source, lower::expr_of(cx, st, t).1, t),
        grows(st, lower::expr_of(cx, st, t).0),
    decreases size(t), 8int,
{
    parts_fit(t);
    let k = kind(t);
    if k == "TemplateLiteral"@ {
        let xs = items(t, "expressions"@);
        exprs_reflect(cx, st, xs, 0, seq![]);
        let qs = items(t, "quasis"@);
        cooked_are_those(qs, 0);
        assert forall|n: int| 0 <= n < qs.len() implies #[trigger] lower::cooked_from(qs, 0)[n] == (
        match part(qs[n], "value"@) {
            Some(v) => word(v, "cooked"@),
            None => Seq::<char>::empty(),
        }) by {
            assert(qs[0 + n] == qs[n]);
        }
    } else if k == "MemberExpression"@ {
        member_reflects(cx, st, t);
    } else if k == "CallExpression"@ {
        call_reflects(cx, st, t);
    } else if k == "ChainExpression"@ {
        chain_reflects(cx, st, t);
    } else if k == "NewExpression"@ {
        new_reflects(cx, st, t);
    } else if k == "BinaryExpression"@ {
        binary_reflects(cx, st, t);
    } else if k == "LogicalExpression"@ {
        logical_reflects(cx, st, t);
    } else if k == "UnaryExpression"@ && word(t, "operator"@) == "!"@ {
        expr_at_reflects(cx, st, t, "argument"@);
    } else if lower::is_transparent(k) {
        expr_at_reflects(cx, st, t, "expression"@);
    } else if k == "AwaitExpression"@ {
        expr_at_reflects(cx, st, t, "argument"@);
    } else if k == "ObjectExpression"@ {
        properties_reflect(cx, st, items(t, "properties"@), 0, seq![]);
    } else if k == "ArrayExpression"@ {
        elements_reflect(cx, st, items(t, "elements"@), 0, seq![]);
    } else if k == "ConditionalExpression"@ {
        conditional_reflects(cx, st, t);
    } else if k == "AssignmentExpression"@ {
        assign_reflects(cx, st, t);
    } else if k == "ArrowFunctionExpression"@ {
        arrow_closure_reflects(cx, st, t, None);
    } else if k == "FunctionExpression"@ {
        function_closure_reflects(cx, st, t, None);
    } else if k == "SequenceExpression"@ {
        let xs = items(t, "expressions"@);
        items_fit(xs);
        if xs.len() > 0 {
            expr_reflects(cx, st, xs[xs.len() - 1]);
        }
    }
}

// ---- laws

/// Every expression that is lowered shows what its node says, whatever was found before it, and
/// what was found before stays found.
pub proof fn expressions_reflect_syntax(cx: AroundView, st: FoundView, t: TreeView)
    ensures
        shows(cx.source, lower::expr_of(cx, st, t).1, t),
        grows(st, lower::expr_of(cx, st, t).0),
{
    expr_reflects(cx, st, t);
}

/// Every statement that is lowered shows what its node says, and one is left out exactly where it
/// says nothing.
pub proof fn statements_reflect_syntax(cx: AroundView, st: FoundView, t: TreeView)
    ensures
        lower::stmt_of(cx, st, t).1 is None <==> is_silent(t),
        lower::stmt_of(cx, st, t).1 matches Some(x) ==> shows_stmt(cx.source, x, t),
        grows(st, lower::stmt_of(cx, st, t).0),
{
    stmt_reflects(cx, st, t);
}

/// Every function that is lowered is found, with its id and with a body that shows its syntax.
pub proof fn functions_reflect_syntax(
    cx: AroundView,
    st: FoundView,
    t: TreeView,
    qualified: Text,
    class: Option<Text>,
    k: FunctionKind,
    exported: bool,
    parent: Option<Text>,
)
    ensures
        kind(t) != "ArrowFunctionExpression"@ ==> ends_with_function(
            cx,
            lower::function_of(cx, st, t, qualified, class, k, exported, parent),
            t,
            qualified,
            exported,
        ),
        kind(t) == "ArrowFunctionExpression"@ ==> ends_with_function(
            cx,
            lower::arrow_of(cx, st, t, qualified, exported),
            t,
            qualified,
            exported,
        ),
        grows(st, lower::function_of(cx, st, t, qualified, class, k, exported, parent)),
        grows(st, lower::arrow_of(cx, st, t, qualified, exported)),
{
    function_reflects(cx, st, t, qualified, class, k, exported, parent);
    arrow_reflects(cx, st, t, qualified, exported);
}

/// A comparison is lowered to the operator that means what its sign means: equality exactly for
/// `==` and `===`, inequality exactly for `!=` and `!==`, and each order for its own sign.
pub proof fn comparisons_mean_their_signs(sign: Text)
    ensures
        lower::operator_of(sign) == BinOp::Eq <==> sign == "=="@ || sign == "==="@,
        lower::operator_of(sign) == BinOp::NotEq <==> sign == "!="@ || sign == "!=="@,
        lower::operator_of(sign) == BinOp::Lt <==> sign == "<"@,
        lower::operator_of(sign) == BinOp::LtEq <==> sign == "<="@,
        lower::operator_of(sign) == BinOp::Gt <==> sign == ">"@,
        lower::operator_of(sign) == BinOp::GtEq <==> sign == ">="@,
        lower::connective_of(sign) == LogicOp::And <==> sign == "&&"@,
        lower::connective_of(sign) == LogicOp::Or <==> sign == "||"@,
{
    crate::meaning::operators_differ();
    reveal_strlit("==");
    reveal_strlit("===");
    reveal_strlit("!=");
    reveal_strlit("!==");
    reveal_strlit("<");
    reveal_strlit("<=");
    reveal_strlit(">");
    reveal_strlit(">=");
    reveal_strlit("&&");
    reveal_strlit("||");
    assert("=="@.len() == 2 && "!="@.len() == 2 && "<="@.len() == 2 && ">="@.len() == 2);
    assert("==="@.len() == 3 && "!=="@.len() == 3 && "<"@.len() == 1 && ">"@.len() == 1);
    assert("==="@[0] == '=' && "!=="@[0] == '!');
    assert("&&"@[0] == '&' && "||"@[0] == '|');
}

/// Two comparisons of the same parts are lowered alike where their signs mean the same, and to
/// opposite operators on the same operands where one sign is an equality and the other is not.
pub proof fn same_signs_are_lowered_alike(cx: AroundView, st: FoundView, t: TreeView, u: TreeView)
    requires
        kind(t) == "BinaryExpression"@,
        kind(u) == "BinaryExpression"@,
        part(t, "left"@) == part(u, "left"@),
        part(t, "right"@) == part(u, "right"@),
        !syntax::is_kind(part(t, "left"@), "PrivateIdentifier"@),
    ensures
        word(t, "operator"@) == "!="@ && word(u, "operator"@) == "!=="@ ==> lower::expr_of(cx, st, t)
            == lower::expr_of(cx, st, u),
        word(t, "operator"@) == "=="@ && word(u, "operator"@) == "==="@ ==> lower::expr_of(cx, st, t)
            == lower::expr_of(cx, st, u),
        (word(t, "operator"@) == "=="@ || word(t, "operator"@) == "==="@) && (word(u, "operator"@)
            == "!="@ || word(u, "operator"@) == "!=="@) ==> {
            &&& lower::expr_of(cx, st, t).0 == lower::expr_of(cx, st, u).0
            &&& lower::expr_of(cx, st, t).1 matches ExprView::Binary { op: p, left: l, right: r }
                && lower::expr_of(cx, st, u).1 matches ExprView::Binary { op: q, left: m, right: n }
                && p == BinOp::Eq && q == BinOp::NotEq && l == m && r == n
        },
{
    comparisons_mean_their_signs(word(t, "operator"@));
    comparisons_mean_their_signs(word(u, "operator"@));
    binary_is_lowered(cx, st, t);
    binary_is_lowered(cx, st, u);
    assert(lower::expr_at(cx, st, t, "left"@) == lower::expr_at(cx, st, u, "left"@));
    let x = lower::expr_at(cx, st, t, "left"@);
    assert(lower::expr_at(cx, x.0, t, "right"@) == lower::expr_at(cx, x.0, u, "right"@));
}

proof fn binary_is_lowered(cx: AroundView, st: FoundView, t: TreeView)
    requires
        kind(t) == "BinaryExpression"@,
    ensures
        lower::expr_of(cx, st, t) == lower::binary_of(cx, st, t),
{
    reveal_strlit("BinaryExpression");
    reveal_strlit("Literal");
    reveal_strlit("Identifier");
    reveal_strlit("ThisExpression");
    reveal_strlit("TemplateLiteral");
    reveal_strlit("MemberExpression");
    reveal_strlit("CallExpression");
    reveal_strlit("ChainExpression");
    reveal_strlit("NewExpression");
    assert("BinaryExpression"@.len() == 16 && "BinaryExpression"@[0] == 'B');
    assert("Literal"@.len() == 7 && "Identifier"@.len() == 10 && "ThisExpression"@.len() == 14);
    assert("TemplateLiteral"@.len() == 15 && "MemberExpression"@[0] == 'M');
    assert("CallExpression"@.len() == 14 && "ChainExpression"@.len() == 15);
    assert("NewExpression"@.len() == 13);
}

/// The sign by which an operator is shown is one that is read as that operator.
pub proof fn shown_signs_are_read_back(op: BinOp, connective: LogicOp)
    ensures
        lower::operator_of(typing::binary_sign(op)) == op,
        lower::connective_of(typing::logic_sign(connective)) == connective,
{
    reveal_strlit("==");
    reveal_strlit("===");
    reveal_strlit("!=");
    reveal_strlit("!==");
    reveal_strlit("<");
    reveal_strlit("<=");
    reveal_strlit(">");
    reveal_strlit(">=");
    reveal_strlit("?");
    reveal_strlit("&&");
    reveal_strlit("||");
    reveal_strlit("??");
    assert("=="@.len() == 2 && "==="@.len() == 3 && "!="@.len() == 2 && "!=="@.len() == 3);
    assert("<"@.len() == 1 && "<="@.len() == 2 && ">"@.len() == 1 && ">="@.len() == 2);
    assert("?"@.len() == 1 && "=="@[0] == '=' && "==="@[0] == '=' && "!="@[0] == '!');
    assert("!=="@[0] == '!' && "<"@[0] == '<' && "<="@[0] == '<' && ">"@[0] == '>');
    assert(">="@[0] == '>' && "?"@[0] == '?' && "&&"@[0] == '&' && "||"@[0] == '|');
    assert("??"@[0] == '?');
}

} // verus!
