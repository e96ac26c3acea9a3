//! Lowering of functions, statements and expressions from a syntax tree to the structural form.

use crate::annotations;
use crate::digest;
use crate::ir;
use crate::ir::{
    BinOp, Call, CallView, Expr, ExprView, Function, FunctionKind, FunctionView, Loc, LocView,
    LogicOp, Stmt, StmtView,
};
use crate::list;
use crate::list::Plain;
use crate::ordered;
use crate::ordered::SortedMap;
use crate::span;
use crate::span::{Source, SourceView};
use crate::syntax;
use crate::syntax::{flag, items, items_fit, kind, offset, part, parts_fit, size, sizes, word};
use crate::text;
use crate::text::Text;
use crate::tree;
use crate::tree::{Tree, TreeView};
use vstd::prelude::*;

verus! {

// ---- state and surroundings

/// What lowering has found so far.
pub struct Found {
    pub functions: Vec<Function>,
    /// How many closures have been given each name.
    pub counts: SortedMap<String, u32>,
}

/// The view of [`Found`].
#[verifier::ext_equal]
pub struct FoundView {
    pub functions: Seq<FunctionView>,
    pub counts: Seq<(Text, u32)>,
}

impl DeepView for Found {
    type V = FoundView;

    open spec fn deep_view(&self) -> FoundView {
        FoundView { functions: self.functions.deep_view(), counts: self.counts.deep_view() }
    }
}

/// What surrounds a node.
pub struct Around<'a> {
    pub source: &'a Source,
    /// Qualified name of the enclosing function.
    pub owner: Option<String>,
    /// The module constant whose initializer is being lowered: it names its closures without
    /// being their parent function.
    pub constant: Option<String>,
}

/// The view of [`Around`].
#[verifier::ext_equal]
pub struct AroundView {
    pub source: SourceView,
    pub owner: Option<Text>,
    pub constant: Option<Text>,
}

impl<'a> DeepView for Around<'a> {
    type V = AroundView;

    open spec fn deep_view(&self) -> AroundView {
        AroundView {
            source: self.source.deep_view(),
            owner: self.owner.deep_view(),
            constant: self.constant.deep_view(),
        }
    }
}

/// The id of an entity of the file.
pub open spec fn id_of(cx: AroundView, qualified: Text) -> Text {
    cx.source.path + "::"@ + qualified
}

/// The id of the enclosing function.
pub open spec fn owner_id(cx: AroundView) -> Option<Text> {
    match cx.owner {
        Some(q) => Some(id_of(cx, q)),
        None => None,
    }
}

/// The location of a node.
pub open spec fn loc_of(cx: AroundView, t: TreeView) -> LocView {
    span::place(cx.source, offset(t, "start"@))
}

/// The source text of a node, on one line.
pub open spec fn excerpt(cx: AroundView, t: TreeView) -> Text {
    span::one_line(
        span::between(cx.source.text, offset(t, "start"@), offset(t, "end"@)),
    )
}

/// Inside a function.
pub open spec fn inside(cx: AroundView, qualified: Text) -> AroundView {
    AroundView { source: cx.source, owner: Some(qualified), constant: cx.constant }
}

/// A name for a closure found here, and the state after giving it: closures with one name are
/// numbered from the second on.
pub open spec fn closure_named(cx: AroundView, st: FoundView, hint: Option<Text>) -> (FoundView, Text) {
    let parent = match cx.owner {
        Some(q) => q,
        None => match cx.constant {
            Some(c) => c,
            None => "<module>"@,
        },
    };
    let base = parent + "."@ + (match hint {
        Some(h) => h,
        None => "<closure>"@,
    });
    let n = match ordered::lookup(st.counts, base) {
        Some(k) => if k < u32::MAX {
            (k + 1) as u32
        } else {
            k
        },
        None => 1,
    };
    (
        FoundView { functions: st.functions, counts: ordered::put(st.counts, base, n) },
        if n == 1 {
            base
        } else {
            base + "#"@ + text::decimal(n as nat)
        },
    )
}

/// A function of the given body.
pub open spec fn function_with(
    cx: AroundView,
    f: TreeView,
    qualified: Text,
    class: Option<Text>,
    k: FunctionKind,
    exported: bool,
    parent: Option<Text>,
    body: Seq<StmtView>,
) -> FunctionView {
    FunctionView {
        id: id_of(cx, qualified),
        name: text::after_last(qualified, "."@),
        kind: k,
        class,
        parent,
        params: annotations::params_from(items(f, "params"@), 0),
        return_type: annotations::return_type(f),
        body,
        is_async: flag(f, "async"@),
        exported,
        loc: loc_of(cx, f),
        end_line: span::line_of(cx.source.text, offset(f, "end"@)) as u32,
        body_hash: digest::hash_of(body),
        decorators: seq![],
    }
}

/// The state after a function is found.
pub open spec fn with_function(st: FoundView, f: FunctionView) -> FoundView {
    FoundView { functions: st.functions.push(f), counts: st.counts }
}

// ---- functions

/// A function is found: the state after its body is lowered.
pub open spec fn function_of(
    cx: AroundView,
    st: FoundView,
    f: TreeView,
    qualified: Text,
    class: Option<Text>,
    k: FunctionKind,
    exported: bool,
    parent: Option<Text>,
) -> FoundView
    decreases size(f), 6int,
{
    proof {
        parts_fit(f);
    }
    let (s, body) = match part(f, "body"@) {
        Some(b) => {
            proof {
                parts_fit(b);
            }
            stmts_from(inside(cx, qualified), st, items(b, "body"@), 0, seq![])
        },
        None => (st, seq![]),
    };
    with_function(s, function_with(cx, f, qualified, class, k, exported, parent, body))
}

/// An arrow function is found: the state after its body is lowered. A body that is an expression
/// is a single return.
pub open spec fn arrow_of(
    cx: AroundView,
    st: FoundView,
    a: TreeView,
    qualified: Text,
    exported: bool,
) -> FoundView
    decreases size(a), 6int,
{
    proof {
        parts_fit(a);
    }
    let (s, body) = match part(a, "body"@) {
        Some(b) => {
            proof {
                parts_fit(b);
            }
            if flag(a, "expression"@) {
                let (s, e) = expr_of(inside(cx, qualified), st, b);
                (s, seq![StmtView::Return(Some(e), loc_of(cx, b))])
            } else {
                stmts_from(inside(cx, qualified), st, items(b, "body"@), 0, seq![])
            }
        },
        None => (st, seq![]),
    };
    let parent = owner_id(cx);
    with_function(
        s,
        function_with(
            cx,
            a,
            qualified,
            None,
            if parent is Some {
                FunctionKind::Closure
            } else {
                FunctionKind::Function
            },
            exported,
            parent,
            body,
        ),
    )
}

/// A closure that is an arrow function.
pub open spec fn arrow_closure(cx: AroundView, st: FoundView, a: TreeView, hint: Option<Text>) -> (
    FoundView,
    ExprView,
)
    decreases size(a), 7int,
{
    let (s, q) = closure_named(cx, st, hint);
    (arrow_of(cx, s, a, q, false), ExprView::Closure(id_of(cx, q)))
}

/// A closure that is a function expression.
pub open spec fn function_closure(cx: AroundView, st: FoundView, f: TreeView, hint: Option<Text>) -> (
    FoundView,
    ExprView,
)
    decreases size(f), 7int,
{
    let (s, q) = closure_named(cx, st, hint);
    (
        function_of(cx, s, f, q, None, FunctionKind::Closure, false, owner_id(cx)),
        ExprView::Closure(id_of(cx, q)),
    )
}

// ---- statements

/// The statements from index `i` on.
pub open spec fn stmts_from(
    cx: AroundView,
    st: FoundView,
    xs: Seq<TreeView>,
    i: int,
    acc: Seq<StmtView>,
) -> (FoundView, Seq<StmtView>)
    decreases sizes(xs, 0), 10 + xs.len() - i,
{
    proof {
        items_fit(xs);
    }
    if 0 <= i < xs.len() {
        let (s, r) = stmt_of(cx, st, xs[i]);
        stmts_from(
            cx,
            s,
            xs,
            i + 1,
            match r {
                Some(x) => acc.push(x),
                None => acc,
            },
        )
    } else {
        (st, acc)
    }
}

/// The statements of a block, or a single statement.
pub open spec fn block_of(cx: AroundView, st: FoundView, t: TreeView) -> (FoundView, Seq<StmtView>)
    decreases size(t), 10int,
{
    proof {
        parts_fit(t);
    }
    if kind(t) == "BlockStatement"@ {
        stmts_from(cx, st, items(t, "body"@), 0, seq![])
    } else {
        let (s, r) = stmt_of(cx, st, t);
        (
            s,
            match r {
                Some(x) => seq![x],
                None => seq![],
            },
        )
    }
}

/// The statements under a key.
pub open spec fn block_at(cx: AroundView, st: FoundView, t: TreeView, key: Text) -> (
    FoundView,
    Seq<StmtView>,
)
    decreases size(t), 5int,
{
    proof {
        parts_fit(t);
    }
    match part(t, key) {
        Some(x) => block_of(cx, st, x),
        None => (st, seq![]),
    }
}

/// The statement of one declarator: a binding of a name, or the initializer alone.
pub open spec fn declarator(cx: AroundView, st: FoundView, d: TreeView) -> (FoundView, Option<StmtView>)
    decreases size(d), 8int,
{
    proof {
        parts_fit(d);
    }
    let loc = loc_of(cx, d);
    match syntax::ident(part(d, "id"@)) {
        Some(name) => {
            let ty = annotations::annotation(part(d, "id"@)->0);
            let (s, init) = if syntax::is_kind(part(d, "init"@), "ArrowFunctionExpression"@) {
                let (s, e) = arrow_closure(cx, st, part(d, "init"@)->0, Some(name));
                (s, Some(e))
            } else {
                optional_expr(cx, st, d, "init"@)
            };
            (s, Some(StmtView::Let { name, ty, init, loc }))
        },
        None => {
            let (s, init) = optional_expr(cx, st, d, "init"@);
            (
                s,
                match init {
                    Some(e) => Some(StmtView::Expr(e, loc)),
                    None => None,
                },
            )
        },
    }
}

/// The statements of the declarators from index `i` on.
pub open spec fn declarators_from(
    cx: AroundView,
    st: FoundView,
    xs: Seq<TreeView>,
    i: int,
    acc: Seq<StmtView>,
) -> (FoundView, Seq<StmtView>)
    decreases sizes(xs, 0), 10 + xs.len() - i,
{
    proof {
        items_fit(xs);
    }
    if 0 <= i < xs.len() {
        let (s, r) = declarator(cx, st, xs[i]);
        declarators_from(
            cx,
            s,
            xs,
            i + 1,
            match r {
                Some(x) => acc.push(x),
                None => acc,
            },
        )
    } else {
        (st, acc)
    }
}

/// One statement as it is, another number of them as a block.
pub open spec fn single(xs: Seq<StmtView>) -> StmtView {
    if xs.len() == 1 {
        xs[0]
    } else {
        StmtView::Block(xs)
    }
}

/// One case of a `switch` on `disc`: an `if` on equality, or the statements of the default.
pub open spec fn case_of(cx: AroundView, st: FoundView, disc: ExprView, c: TreeView) -> (
    FoundView,
    StmtView,
)
    decreases size(c), 8int,
{
    proof {
        parts_fit(c);
    }
    let (s, body) = stmts_from(cx, st, items(c, "consequent"@), 0, seq![]);
    let (s2, test) = optional_expr(cx, s, c, "test"@);
    (
        s2,
        match test {
            Some(e) => StmtView::If {
                test: ExprView::Binary { op: BinOp::Eq, left: Box::new(disc), right: Box::new(e) },
                then: body,
                otherwise: seq![],
                loc: loc_of(cx, c),
            },
            None => StmtView::Block(body),
        },
    )
}

/// The cases from index `i` on.
pub open spec fn cases_from(
    cx: AroundView,
    st: FoundView,
    disc: ExprView,
    xs: Seq<TreeView>,
    i: int,
    acc: Seq<StmtView>,
) -> (FoundView, Seq<StmtView>)
    decreases sizes(xs, 0), 10 + xs.len() - i,
{
    proof {
        items_fit(xs);
    }
    if 0 <= i < xs.len() {
        let (s, c) = case_of(cx, st, disc, xs[i]);
        cases_from(cx, s, disc, xs, i + 1, acc.push(c))
    } else {
        (st, acc)
    }
}

/// A loop over what stands under `over`.
pub open spec fn loop_of(
    cx: AroundView,
    st: FoundView,
    t: TreeView,
    binding: Option<Text>,
    over: Text,
) -> (FoundView, StmtView)
    decreases size(t), 7int,
{
    let (s, e) = expr_at(cx, st, t, over);
    let (s2, body) = block_at(cx, s, t, "body"@);
    (s2, StmtView::Loop { binding, iter: Some(e), body, loc: loc_of(cx, t) })
}

/// The name that a `for` loop binds.
pub open spec fn loop_binding(t: TreeView) -> Option<Text> {
    match part(t, "left"@) {
        Some(l) => if kind(l) == "VariableDeclaration"@ && items(l, "declarations"@).len() > 0 {
            syntax::ident(part(items(l, "declarations"@)[0], "id"@))
        } else {
            None
        },
        None => None,
    }
}

/// The statements of the block under a key of a part.
pub open spec fn body_within(cx: AroundView, st: FoundView, t: TreeView, key: Text) -> (
    FoundView,
    Seq<StmtView>,
)
    decreases size(t), 5int,
{
    proof {
        parts_fit(t);
    }
    match part(t, key) {
        Some(x) => {
            proof {
                parts_fit(x);
            }
            stmts_from(cx, st, items(x, "body"@), 0, seq![])
        },
        None => (st, seq![]),
    }
}

/// A `try` statement.
pub open spec fn try_of(cx: AroundView, st: FoundView, t: TreeView) -> (FoundView, StmtView)
    decreases size(t), 7int,
{
    proof {
        parts_fit(t);
    }
    let (s, body) = body_within(cx, st, t, "block"@);
    let (s2, handler) = match part(t, "handler"@) {
        Some(h) => body_within(cx, s, h, "body"@),
        None => (s, seq![]),
    };
    let (s3, finalizer) = body_within(cx, s2, t, "finalizer"@);
    (s3, StmtView::Try { body, handler, finalizer, loc: loc_of(cx, t) })
}

/// An `if` statement.
pub open spec fn if_of(cx: AroundView, st: FoundView, t: TreeView) -> (FoundView, StmtView)
    decreases size(t), 7int,
{
    let (s, test) = expr_at(cx, st, t, "test"@);
    let (s2, then) = block_at(cx, s, t, "consequent"@);
    let (s3, otherwise) = block_at(cx, s2, t, "alternate"@);
    (s3, StmtView::If { test, then, otherwise, loc: loc_of(cx, t) })
}

/// A `switch` is a chain of ifs on equality with the discriminant.
pub open spec fn switch_of(cx: AroundView, st: FoundView, t: TreeView) -> (FoundView, StmtView)
    decreases size(t), 7int,
{
    proof {
        parts_fit(t);
    }
    let (s, disc) = expr_at(cx, st, t, "discriminant"@);
    let (s2, out) = cases_from(cx, s, disc, items(t, "cases"@), 0, seq![]);
    (s2, StmtView::Block(out))
}

/// The state after a function declared inside another is found.
pub open spec fn inner_function(cx: AroundView, st: FoundView, f: TreeView) -> FoundView
    decreases size(f), 8int,
{
    match syntax::ident(part(f, "id"@)) {
        Some(name) => function_closure(cx, st, f, Some(name)).0,
        None => st,
    }
}

/// A declaration of a function, with a body or without.
pub open spec fn declares_function(k: Text) -> bool {
    k == "FunctionDeclaration"@ || k == "TSDeclareFunction"@
}

/// A statement; none for a function declaration, an empty statement and a directive.
pub open spec fn stmt_of(cx: AroundView, st: FoundView, t: TreeView) -> (FoundView, Option<StmtView>)
    decreases size(t), 9int,
{
    proof {
        parts_fit(t);
    }
    let k = kind(t);
    let loc = loc_of(cx, t);
    if k == "ExpressionStatement"@ {
        if tree::str_of(tree::field(t, "directive"@)) is Some {
            (st, None)
        } else {
            let (s, e) = expr_at(cx, st, t, "expression"@);
            (s, Some(StmtView::Expr(e, loc)))
        }
    } else if k == "VariableDeclaration"@ {
        let (s, out) = declarators_from(cx, st, items(t, "declarations"@), 0, seq![]);
        (s, Some(single(out)))
    } else if k == "IfStatement"@ {
        let (s, x) = if_of(cx, st, t);
        (s, Some(x))
    } else if k == "ReturnStatement"@ {
        let (s, e) = optional_expr(cx, st, t, "argument"@);
        (s, Some(StmtView::Return(e, loc)))
    } else if k == "ThrowStatement"@ {
        let (s, e) = expr_at(cx, st, t, "argument"@);
        (s, Some(StmtView::Throw(e, loc)))
    } else if k == "BlockStatement"@ {
        let (s, out) = stmts_from(cx, st, items(t, "body"@), 0, seq![]);
        (s, Some(StmtView::Block(out)))
    } else if k == "ForOfStatement"@ {
        let (s, x) = loop_of(cx, st, t, loop_binding(t), "right"@);
        (s, Some(x))
    } else if k == "ForInStatement"@ {
        let (s, x) = loop_of(cx, st, t, None, "right"@);
        (s, Some(x))
    } else if k == "ForStatement"@ {
        let (s, body) = block_at(cx, st, t, "body"@);
        (s, Some(StmtView::Loop { binding: None, iter: None, body, loc }))
    } else if k == "WhileStatement"@ || k == "DoWhileStatement"@ {
        let (s, x) = loop_of(cx, st, t, None, "test"@);
        (s, Some(x))
    } else if k == "TryStatement"@ {
        let (s, x) = try_of(cx, st, t);
        (s, Some(x))
    } else if k == "SwitchStatement"@ {
        let (s, x) = switch_of(cx, st, t);
        (s, Some(x))
    } else if declares_function(k) {
        (inner_function(cx, st, t), None)
    } else if k == "EmptyStatement"@ {
        (st, None)
    } else if k == "BreakStatement"@ || k == "ContinueStatement"@ {
        (st, Some(StmtView::Jump(loc)))
    } else {
        (st, Some(StmtView::Expr(ExprView::Opaque(excerpt(cx, t)), loc)))
    }
}

// ---- expressions

/// A literal; one that is no text, number, truth value or `null` is kept as source text.
pub open spec fn literal_of(cx: AroundView, t: TreeView) -> ExprView {
    match tree::field(t, "value"@) {
        Some(TreeView::Str(s)) => ExprView::Str(s),
        Some(TreeView::Num(n)) => ExprView::Num(n),
        Some(TreeView::Bool(b)) => ExprView::Bool(b),
        Some(TreeView::Null) => if part(t, "regex"@) is Some || part(t, "bigint"@) is Some {
            ExprView::Opaque(excerpt(cx, t))
        } else {
            ExprView::Null
        },
        _ => ExprView::Opaque(excerpt(cx, t)),
    }
}

/// The cooked texts of the template elements from index `i` on.
pub open spec fn cooked_from(xs: Seq<TreeView>, i: int) -> Seq<Text>
    decreases xs.len() - i,
{
    if 0 <= i < xs.len() {
        seq![
            match part(xs[i], "value"@) {
                Some(v) => word(v, "cooked"@),
                None => ""@,
            },
        ] + cooked_from(xs, i + 1)
    } else {
        seq![]
    }
}

/// The operator of a comparison; any other is `Other`.
pub open spec fn operator_of(op: Text) -> BinOp {
    if op == "=="@ || op == "==="@ {
        BinOp::Eq
    } else if op == "!="@ || op == "!=="@ {
        BinOp::NotEq
    } else if op == "<"@ {
        BinOp::Lt
    } else if op == "<="@ {
        BinOp::LtEq
    } else if op == ">"@ {
        BinOp::Gt
    } else if op == ">="@ {
        BinOp::GtEq
    } else {
        BinOp::Other
    }
}

/// The connective of a logical expression.
pub open spec fn connective_of(op: Text) -> LogicOp {
    if op == "&&"@ {
        LogicOp::And
    } else if op == "||"@ {
        LogicOp::Or
    } else {
        LogicOp::Coalesce
    }
}

/// The expression under a key.
pub open spec fn expr_at(cx: AroundView, st: FoundView, t: TreeView, key: Text) -> (FoundView, ExprView)
    decreases size(t), 5int,
{
    proof {
        parts_fit(t);
    }
    match part(t, key) {
        Some(x) => expr_of(cx, st, x),
        None => (st, ExprView::Undefined),
    }
}

/// The expression under a key, where there is one.
pub open spec fn optional_expr(cx: AroundView, st: FoundView, t: TreeView, key: Text) -> (
    FoundView,
    Option<ExprView>,
)
    decreases size(t), 5int,
{
    proof {
        parts_fit(t);
    }
    match part(t, key) {
        Some(x) => {
            let (s, e) = expr_of(cx, st, x);
            (s, Some(e))
        },
        None => (st, None),
    }
}

/// The expressions from index `i` on.
pub open spec fn exprs_from(
    cx: AroundView,
    st: FoundView,
    xs: Seq<TreeView>,
    i: int,
    acc: Seq<ExprView>,
) -> (FoundView, Seq<ExprView>)
    decreases sizes(xs, 0), 10 + xs.len() - i,
{
    proof {
        items_fit(xs);
    }
    if 0 <= i < xs.len() {
        let (s, e) = expr_of(cx, st, xs[i]);
        exprs_from(cx, s, xs, i + 1, acc.push(e))
    } else {
        (st, acc)
    }
}

/// The arguments from index `i` on.
pub open spec fn args_from(
    cx: AroundView,
    st: FoundView,
    xs: Seq<TreeView>,
    i: int,
    hint: Option<Text>,
    acc: Seq<ExprView>,
) -> (FoundView, Seq<ExprView>)
    decreases sizes(xs, 0), 10 + xs.len() - i,
{
    proof {
        items_fit(xs);
    }
    if 0 <= i < xs.len() {
        let (s, e) = arg_of(cx, st, xs[i], hint);
        args_from(cx, s, xs, i + 1, hint, acc.push(e))
    } else {
        (st, acc)
    }
}

/// The elements of an array from index `i` on, without holes.
pub open spec fn elements_from(
    cx: AroundView,
    st: FoundView,
    xs: Seq<TreeView>,
    i: int,
    acc: Seq<ExprView>,
) -> (FoundView, Seq<ExprView>)
    decreases sizes(xs, 0), 10 + xs.len() - i,
{
    proof {
        items_fit(xs);
    }
    if 0 <= i < xs.len() {
        if xs[i] is Null {
            elements_from(cx, st, xs, i + 1, acc)
        } else {
            let (s, e) = if kind(xs[i]) == "SpreadElement"@ {
                expr_at(cx, st, xs[i], "argument"@)
            } else {
                expr_of(cx, st, xs[i])
            };
            elements_from(cx, s, xs, i + 1, acc.push(e))
        }
    } else {
        (st, acc)
    }
}

/// A property of an object: a spread, or one with a key that has a name.
pub open spec fn property_of(cx: AroundView, st: FoundView, t: TreeView) -> (
    FoundView,
    Option<(Text, ExprView)>,
)
    decreases size(t), 9int,
{
    if kind(t) == "SpreadElement"@ {
        let (s, e) = expr_at(cx, st, t, "argument"@);
        (s, Some(("..."@, e)))
    } else {
        match syntax::key_name(t) {
            Some(k) => {
                let (s, e) = expr_at(cx, st, t, "value"@);
                (s, Some((k, e)))
            },
            None => (st, None),
        }
    }
}

/// The properties from index `i` on.
pub open spec fn properties_from(
    cx: AroundView,
    st: FoundView,
    xs: Seq<TreeView>,
    i: int,
    acc: Seq<(Text, ExprView)>,
) -> (FoundView, Seq<(Text, ExprView)>)
    decreases sizes(xs, 0), 10 + xs.len() - i,
{
    proof {
        items_fit(xs);
    }
    if 0 <= i < xs.len() {
        let (s, p) = property_of(cx, st, xs[i]);
        properties_from(
            cx,
            s,
            xs,
            i + 1,
            match p {
                Some(x) => acc.push(x),
                None => acc,
            },
        )
    } else {
        (st, acc)
    }
}

/// A member expression: a named property, or an index that is computed.
pub open spec fn member_of(cx: AroundView, st: FoundView, t: TreeView) -> (FoundView, ExprView)
    decreases size(t), 7int,
{
    let (s, o) = expr_at(cx, st, t, "object"@);
    if !flag(t, "computed"@) {
        (
            s,
            ExprView::Member {
                object: Box::new(o),
                property: match part(t, "property"@) {
                    Some(p) => word(p, "name"@),
                    None => ""@,
                },
            },
        )
    } else {
        match syntax::string_literal(part(t, "property"@)) {
            Some(p) => (s, ExprView::Member { object: Box::new(o), property: p }),
            None => {
                let (s2, i) = expr_at(cx, s, t, "property"@);
                (s2, ExprView::Index { object: Box::new(o), index: Box::new(i) })
            },
        }
    }
}

/// The name for closures that are passed to a call: the method or function, and the first
/// argument where it is a string.
pub open spec fn call_hint(callee: ExprView, args: Seq<TreeView>) -> Option<Text> {
    let method = match callee {
        ExprView::Member { property, .. } => Some(property),
        ExprView::Ident(n) => Some(n),
        _ => None,
    };
    match method {
        Some(m) => match (if args.len() > 0 {
            syntax::string_literal(Some(args[0]))
        } else {
            None
        }) {
            Some(s) => Some(m + "("@ + text::quoted(s) + ")"@),
            None => Some(m),
        },
        None => None,
    }
}

/// A call.
pub open spec fn call_of(cx: AroundView, st: FoundView, t: TreeView) -> (FoundView, ExprView)
    decreases size(t), 7int,
{
    proof {
        parts_fit(t);
    }
    let (s, callee) = expr_at(cx, st, t, "callee"@);
    let xs = items(t, "arguments"@);
    let (s2, args) = args_from(cx, s, xs, 0, call_hint(callee, xs), seq![]);
    (s2, ExprView::Call(Box::new(CallView { callee, args, loc: loc_of(cx, t) })))
}

/// An argument; closures are named after the call.
pub open spec fn arg_of(cx: AroundView, st: FoundView, t: TreeView, hint: Option<Text>) -> (
    FoundView,
    ExprView,
)
    decreases size(t), 9int,
{
    let k = kind(t);
    if k == "SpreadElement"@ {
        expr_at(cx, st, t, "argument"@)
    } else if k == "ArrowFunctionExpression"@ {
        arrow_closure(cx, st, t, hint)
    } else if k == "FunctionExpression"@ {
        function_closure(cx, st, t, hint)
    } else {
        expr_of(cx, st, t)
    }
}

/// A chain with `?.`.
pub open spec fn chain_of(cx: AroundView, st: FoundView, t: TreeView) -> (FoundView, ExprView)
    decreases size(t), 7int,
{
    proof {
        parts_fit(t);
    }
    match part(t, "expression"@) {
        Some(e) => if kind(e) == "CallExpression"@ {
            call_of(cx, st, e)
        } else if kind(e) == "MemberExpression"@ && syntax::static_property(e) is Some {
            let (s, o) = expr_at(cx, st, e, "object"@);
            (
                s,
                ExprView::Member { object: Box::new(o), property: syntax::static_property(e)->0 },
            )
        } else if kind(e) == "TSNonNullExpression"@ {
            expr_at(cx, st, e, "expression"@)
        } else {
            (st, ExprView::Opaque(excerpt(cx, t)))
        },
        None => (st, ExprView::Opaque(excerpt(cx, t))),
    }
}

/// The target of an assignment: a name or a member; another is kept as source text.
pub open spec fn target_of(cx: AroundView, st: FoundView, t: TreeView) -> (FoundView, ExprView)
    decreases size(t), 8int,
{
    if kind(t) == "Identifier"@ {
        (st, ExprView::Ident(word(t, "name"@)))
    } else if kind(t) == "MemberExpression"@ {
        member_of(cx, st, t)
    } else {
        (st, ExprView::Opaque(excerpt(cx, t)))
    }
}

/// An assignment.
pub open spec fn assign_of(cx: AroundView, st: FoundView, t: TreeView) -> (FoundView, ExprView)
    decreases size(t), 7int,
{
    proof {
        parts_fit(t);
    }
    let (s, target) = match part(t, "left"@) {
        Some(l) => target_of(cx, st, l),
        None => (st, ExprView::Undefined),
    };
    let (s2, value) = expr_at(cx, s, t, "right"@);
    (
        s2,
        ExprView::Assign { target: Box::new(target), value: Box::new(value), loc: loc_of(cx, t) },
    )
}

/// A construction.
pub open spec fn new_of(cx: AroundView, st: FoundView, t: TreeView) -> (FoundView, ExprView)
    decreases size(t), 7int,
{
    proof {
        parts_fit(t);
    }
    let (s, callee) = expr_at(cx, st, t, "callee"@);
    let (s2, args) = args_from(cx, s, items(t, "arguments"@), 0, None, seq![]);
    (s2, ExprView::New { callee: Box::new(callee), args, loc: loc_of(cx, t) })
}

/// A binary expression; a test for a private name is kept as source text.
pub open spec fn binary_of(cx: AroundView, st: FoundView, t: TreeView) -> (FoundView, ExprView)
    decreases size(t), 7int,
{
    if syntax::is_kind(part(t, "left"@), "PrivateIdentifier"@) {
        (st, ExprView::Opaque(excerpt(cx, t)))
    } else {
        let (s, l) = expr_at(cx, st, t, "left"@);
        let (s2, r) = expr_at(cx, s, t, "right"@);
        (
            s2,
            ExprView::Binary {
                op: operator_of(word(t, "operator"@)),
                left: Box::new(l),
                right: Box::new(r),
            },
        )
    }
}

/// A logical expression.
pub open spec fn logical_of(cx: AroundView, st: FoundView, t: TreeView) -> (FoundView, ExprView)
    decreases size(t), 7int,
{
    let (s, l) = expr_at(cx, st, t, "left"@);
    let (s2, r) = expr_at(cx, s, t, "right"@);
    (
        s2,
        ExprView::Logical {
            op: connective_of(word(t, "operator"@)),
            left: Box::new(l),
            right: Box::new(r),
        },
    )
}

/// A conditional expression.
pub open spec fn conditional_of(cx: AroundView, st: FoundView, t: TreeView) -> (FoundView, ExprView)
    decreases size(t), 7int,
{
    let (s, test) = expr_at(cx, st, t, "test"@);
    let (s2, then) = expr_at(cx, s, t, "consequent"@);
    let (s3, otherwise) = expr_at(cx, s2, t, "alternate"@);
    (
        s3,
        ExprView::Conditional {
            test: Box::new(test),
            then: Box::new(then),
            otherwise: Box::new(otherwise),
        },
    )
}

/// The last expression of a sequence.
pub open spec fn sequence_of(cx: AroundView, st: FoundView, t: TreeView) -> (FoundView, ExprView)
    decreases size(t), 7int,
{
    proof {
        parts_fit(t);
        items_fit(items(t, "expressions"@));
    }
    let xs = items(t, "expressions"@);
    if xs.len() > 0 {
        expr_of(cx, st, xs[xs.len() - 1])
    } else {
        (st, ExprView::Undefined)
    }
}

/// An expression that only says something of the type of another.
pub open spec fn is_transparent(k: Text) -> bool {
    k == "ParenthesizedExpression"@ || k == "TSAsExpression"@ || k == "TSSatisfiesExpression"@ || k
        == "TSNonNullExpression"@ || k == "TSTypeAssertion"@
}

/// An expression. What is not modelled is kept as source text.
pub open spec fn expr_of(cx: AroundView, st: FoundView, t: TreeView) -> (FoundView, ExprView)
    decreases size(t), 8int,
{
    proof {
        parts_fit(t);
    }
    let k = kind(t);
    if k == "Literal"@ {
        (st, literal_of(cx, t))
    } else if k == "Identifier"@ {
        (
            st,
            if word(t, "name"@) == "undefined"@ {
                ExprView::Undefined
            } else {
                ExprView::Ident(word(t, "name"@))
            },
        )
    } else if k == "ThisExpression"@ {
        (st, ExprView::This)
    } else if k == "TemplateLiteral"@ {
        let (s, exprs) = exprs_from(cx, st, items(t, "expressions"@), 0, seq![]);
        (s, ExprView::Template { quasis: cooked_from(items(t, "quasis"@), 0), exprs })
    } else if k == "MemberExpression"@ {
        member_of(cx, st, t)
    } else if k == "CallExpression"@ {
        call_of(cx, st, t)
    } else if k == "ChainExpression"@ {
        chain_of(cx, st, t)
    } else if k == "NewExpression"@ {
        new_of(cx, st, t)
    } else if k == "BinaryExpression"@ {
        binary_of(cx, st, t)
    } else if k == "LogicalExpression"@ {
        logical_of(cx, st, t)
    } else if k == "UnaryExpression"@ && word(t, "operator"@) == "!"@ {
        let (s, e) = expr_at(cx, st, t, "argument"@);
        (s, ExprView::Not(Box::new(e)))
    } else if is_transparent(k) {
        expr_at(cx, st, t, "expression"@)
    } else if k == "AwaitExpression"@ {
        let (s, e) = expr_at(cx, st, t, "argument"@);
        (s, ExprView::Await(Box::new(e)))
    } else if k == "ObjectExpression"@ {
        let (s, ps) = properties_from(cx, st, items(t, "properties"@), 0, seq![]);
        (s, ExprView::Object(ps))
    } else if k == "ArrayExpression"@ {
        let (s, xs) = elements_from(cx, st, items(t, "elements"@), 0, seq![]);
        (s, ExprView::Array(xs))
    } else if k == "ConditionalExpression"@ {
        conditional_of(cx, st, t)
    } else if k == "AssignmentExpression"@ {
        assign_of(cx, st, t)
    } else if k == "ArrowFunctionExpression"@ {
        arrow_closure(cx, st, t, None)
    } else if k == "FunctionExpression"@ {
        function_closure(cx, st, t, None)
    } else if k == "SequenceExpression"@ {
        sequence_of(cx, st, t)
    } else {
        (st, ExprView::Opaque(excerpt(cx, t)))
    }
}

// ---- reading

/// The place where a node of the syntax tree starts.
pub fn read_loc(cx: &Around, t: &Tree) -> (r: Loc)
    requires
        cx.source.wf(),
    ensures
        r.deep_view() == loc_of(cx.deep_view(), t.deep_view()),
{
    cx.source.loc(syntax::read_offset(t, "start"))
}

fn read_excerpt(cx: &Around, t: &Tree) -> (r: String)
    requires
        cx.source.wf(),
    ensures
        r@ == excerpt(cx.deep_view(), t.deep_view()),
{
    cx.source.excerpt(syntax::read_offset(t, "start"), syntax::read_offset(t, "end"))
}

fn opaque(cx: &Around, t: &Tree) -> (r: Expr)
    requires
        cx.source.wf(),
    ensures
        r.deep_view() == ExprView::Opaque(excerpt(cx.deep_view(), t.deep_view())),
{
    Expr::Opaque(read_excerpt(cx, t))
}

/// The id of an entity of the file that is read.
pub fn entity_id(cx: &Around, qualified: &str) -> (r: String)
    ensures
        r@ == id_of(cx.deep_view(), qualified@),
{
    text::cat3(&cx.source.path, "::", qualified)
}

fn read_owner(cx: &Around) -> (r: Option<String>)
    ensures
        r.deep_view() == owner_id(cx.deep_view()),
{
    match &cx.owner {
        Some(q) => Some(entity_id(cx, q)),
        None => None,
    }
}

fn enter<'a>(cx: &Around<'a>, qualified: &str) -> (r: Around<'a>)
    requires
        cx.source.wf(),
    ensures
        r.deep_view() == inside(cx.deep_view(), qualified@),
        r.source.wf(),
{
    Around { source: cx.source, owner: Some(qualified.to_owned()), constant: cx.constant.dup() }
}

/// Name for a closure found inside the current function.
fn closure_name(cx: &Around, out: &mut Found, hint: &Option<String>) -> (r: String)
    ensures
        (final(out).deep_view(), r@) == closure_named(
            cx.deep_view(),
            old(out).deep_view(),
            hint.deep_view(),
        ),
{
    let parent = match &cx.owner {
        Some(q) => q.as_str(),
        None => match &cx.constant {
            Some(c) => c.as_str(),
            None => "<module>",
        },
    };
    let base = match hint {
        Some(h) => text::cat3(parent, ".", h),
        None => text::cat3(parent, ".", "<closure>"),
    };
    let n: u32 = match out.counts.get(&base) {
        Some(k) => if *k < u32::MAX {
            *k + 1
        } else {
            *k
        },
        None => 1,
    };
    out.counts.insert(base.dup(), n);
    if n == 1 {
        base
    } else {
        text::cat3(&base, "#", &text::number(n as u64))
    }
}

fn push_function(
    cx: &Around,
    out: &mut Found,
    f: &Tree,
    qualified: &str,
    class: Option<String>,
    k: FunctionKind,
    exported: bool,
    parent: Option<String>,
    body: Vec<Stmt>,
)
    requires
        cx.source.wf(),
    ensures
        final(out).deep_view() == with_function(
            old(out).deep_view(),
            function_with(
                cx.deep_view(),
                f.deep_view(),
                qualified@,
                class.deep_view(),
                k,
                exported,
                parent.deep_view(),
                body.deep_view(),
            ),
        ),
{
    let body_hash = digest::body_hash(&body);
    let found = Function {
        id: entity_id(cx, qualified),
        name: text::last_piece(qualified, "."),
        kind: k,
        class,
        parent,
        params: annotations::read_params(f),
        return_type: annotations::read_return(f),
        body,
        is_async: syntax::read_flag(f, "async"),
        exported,
        loc: read_loc(cx, f),
        end_line: cx.source.line(syntax::read_offset(f, "end")),
        body_hash,
        decorators: list::empty(),
    };
    list::push(&mut out.functions, found);
}

/// Lowers a function under a qualified name.
pub fn function(
    cx: &Around,
    out: &mut Found,
    f: &Tree,
    qualified: &str,
    class: Option<String>,
    k: FunctionKind,
    exported: bool,
    parent: Option<String>,
)
    requires
        cx.source.wf(),
    ensures
        final(out).deep_view() == function_of(
            cx.deep_view(),
            old(out).deep_view(),
            f.deep_view(),
            qualified@,
            class.deep_view(),
            k,
            exported,
            parent.deep_view(),
        ),
    decreases size(f.deep_view()), 6int,
{
    proof {
        parts_fit(f.deep_view());
    }
    let inner = enter(cx, qualified);
    let body = match syntax::read_part(f, "body") {
        Some(b) => {
            proof {
                parts_fit(b.deep_view());
            }
            stmts(&inner, out, b, "body")
        },
        None => list::empty(),
    };
    push_function(cx, out, f, qualified, class, k, exported, parent, body);
}

/// Lowers an arrow function under a qualified name.
pub fn arrow(cx: &Around, out: &mut Found, a: &Tree, qualified: &str, exported: bool)
    requires
        cx.source.wf(),
    ensures
        final(out).deep_view() == arrow_of(
            cx.deep_view(),
            old(out).deep_view(),
            a.deep_view(),
            qualified@,
            exported,
        ),
    decreases size(a.deep_view()), 6int,
{
    proof {
        parts_fit(a.deep_view());
    }
    let inner = enter(cx, qualified);
    let body = match syntax::read_part(a, "body") {
        Some(b) => {
            proof {
                parts_fit(b.deep_view());
            }
            if syntax::read_flag(a, "expression") {
                let e = expr(&inner, out, b);
                list::one(Stmt::Return(Some(e), read_loc(cx, b)))
            } else {
                stmts(&inner, out, b, "body")
            }
        },
        None => list::empty(),
    };
    let parent = read_owner(cx);
    let k = if parent.is_some() {
        FunctionKind::Closure
    } else {
        FunctionKind::Function
    };
    push_function(cx, out, a, qualified, None, k, exported, parent, body);
}

fn read_arrow_closure(cx: &Around, out: &mut Found, a: &Tree, hint: &Option<String>) -> (r: Expr)
    requires
        cx.source.wf(),
    ensures
        (final(out).deep_view(), r.deep_view()) == arrow_closure(
            cx.deep_view(),
            old(out).deep_view(),
            a.deep_view(),
            hint.deep_view(),
        ),
    decreases size(a.deep_view()), 7int,
{
    let q = closure_name(cx, out, hint);
    arrow(cx, out, a, &q, false);
    Expr::Closure(entity_id(cx, &q))
}

fn read_function_closure(cx: &Around, out: &mut Found, f: &Tree, hint: &Option<String>) -> (r: Expr)
    requires
        cx.source.wf(),
    ensures
        (final(out).deep_view(), r.deep_view()) == function_closure(
            cx.deep_view(),
            old(out).deep_view(),
            f.deep_view(),
            hint.deep_view(),
        ),
    decreases size(f.deep_view()), 7int,
{
    let q = closure_name(cx, out, hint);
    function(cx, out, f, &q, None, FunctionKind::Closure, false, read_owner(cx));
    Expr::Closure(entity_id(cx, &q))
}

// ---- reading statements

fn stmts(cx: &Around, out: &mut Found, t: &Tree, key: &str) -> (r: Vec<Stmt>)
    requires
        cx.source.wf(),
    ensures
        (final(out).deep_view(), r.deep_view()) == stmts_from(
            cx.deep_view(),
            old(out).deep_view(),
            items(t.deep_view(), key@),
            0,
            seq![],
        ),
    decreases sizes(items(t.deep_view(), key@), 0), 10int,
{
    let ghost c = cx.deep_view();
    let ghost first = out.deep_view();
    let ghost v = items(t.deep_view(), key@);
    let mut acc: Vec<Stmt> = list::empty();
    if let Some(xs) = syntax::read_list(t, key) {
        let mut i: usize = 0;
        while i < xs.len()
            invariant
                i <= xs@.len(),
                cx.source.wf(),
                c == cx.deep_view(),
                v == xs.deep_view(),
                v == items(t.deep_view(), key@),
                stmts_from(c, out.deep_view(), v, i as int, acc.deep_view()) == stmts_from(
                    c,
                    first,
                    v,
                    0,
                    seq![],
                ),
            decreases xs@.len() - i,
        {
            assert(v[i as int] == xs@[i as int].deep_view());
            proof {
                items_fit(v);
            }
            if let Some(s) = stmt(cx, out, &xs[i]) {
                list::push(&mut acc, s);
            }
            i += 1;
        }
    }
    acc
}

fn block(cx: &Around, out: &mut Found, t: &Tree) -> (r: Vec<Stmt>)
    requires
        cx.source.wf(),
    ensures
        (final(out).deep_view(), r.deep_view()) == block_of(
            cx.deep_view(),
            old(out).deep_view(),
            t.deep_view(),
        ),
    decreases size(t.deep_view()), 10int,
{
    proof {
        parts_fit(t.deep_view());
    }
    if syntax::is(t, "BlockStatement") {
        stmts(cx, out, t, "body")
    } else {
        match stmt(cx, out, t) {
            Some(s) => list::one(s),
            None => list::empty(),
        }
    }
}

fn read_block_at(cx: &Around, out: &mut Found, t: &Tree, key: &str) -> (r: Vec<Stmt>)
    requires
        cx.source.wf(),
    ensures
        (final(out).deep_view(), r.deep_view()) == block_at(
            cx.deep_view(),
            old(out).deep_view(),
            t.deep_view(),
            key@,
        ),
    decreases size(t.deep_view()), 5int,
{
    proof {
        parts_fit(t.deep_view());
    }
    match syntax::read_part(t, key) {
        Some(x) => block(cx, out, x),
        None => list::empty(),
    }
}

fn read_declarator(cx: &Around, out: &mut Found, d: &Tree) -> (r: Option<Stmt>)
    requires
        cx.source.wf(),
    ensures
        (final(out).deep_view(), r.deep_view()) == declarator(
            cx.deep_view(),
            old(out).deep_view(),
            d.deep_view(),
        ),
    decreases size(d.deep_view()), 8int,
{
    proof {
        parts_fit(d.deep_view());
    }
    let loc = read_loc(cx, d);
    let id = syntax::read_part(d, "id");
    match (syntax::read_ident(id), id) {
        (Some(name), Some(binding)) => {
            let ty = annotations::read_annotation(binding);
            let value = syntax::read_part(d, "init");
            let init = match value {
                Some(e) => if syntax::is(e, "ArrowFunctionExpression") {
                    let hint = Some(name.dup());
                    Some(read_arrow_closure(cx, out, e, &hint))
                } else {
                    read_optional(cx, out, d, "init")
                },
                None => read_optional(cx, out, d, "init"),
            };
            Some(Stmt::Let { name, ty, init, loc })
        },
        _ => match read_optional(cx, out, d, "init") {
            Some(e) => Some(Stmt::Expr(e, loc)),
            None => None,
        },
    }
}

fn declarators(cx: &Around, out: &mut Found, t: &Tree) -> (r: Vec<Stmt>)
    requires
        cx.source.wf(),
    ensures
        (final(out).deep_view(), r.deep_view()) == declarators_from(
            cx.deep_view(),
            old(out).deep_view(),
            items(t.deep_view(), "declarations"@),
            0,
            seq![],
        ),
    decreases sizes(items(t.deep_view(), "declarations"@), 0), 10int,
{
    let ghost c = cx.deep_view();
    let ghost first = out.deep_view();
    let ghost v = items(t.deep_view(), "declarations"@);
    let mut acc: Vec<Stmt> = list::empty();
    if let Some(xs) = syntax::read_list(t, "declarations") {
        let mut i: usize = 0;
        while i < xs.len()
            invariant
                i <= xs@.len(),
                cx.source.wf(),
                c == cx.deep_view(),
                v == xs.deep_view(),
                v == items(t.deep_view(), "declarations"@),
                declarators_from(c, out.deep_view(), v, i as int, acc.deep_view())
                    == declarators_from(c, first, v, 0, seq![]),
            decreases xs@.len() - i,
        {
            assert(v[i as int] == xs@[i as int].deep_view());
            proof {
                items_fit(v);
            }
            if let Some(s) = read_declarator(cx, out, &xs[i]) {
                list::push(&mut acc, s);
            }
            i += 1;
        }
    }
    acc
}

fn read_single(xs: Vec<Stmt>) -> (r: Stmt)
    ensures
        r.deep_view() == single(xs.deep_view()),
{
    broadcast use ir::stmt_list_view_is_deep;

    let mut xs = xs;
    let ghost v = xs.deep_view();
    if xs.len() == 1 {
        let ghost first = xs@[0];
        match xs.pop() {
            Some(s) => {
                assert(v[0] == first.deep_view());
                return s;
            },
            None => {},
        }
    }
    Stmt::Block(xs)
}

fn read_case(cx: &Around, out: &mut Found, disc: &Expr, c: &Tree) -> (r: Stmt)
    requires
        cx.source.wf(),
    ensures
        (final(out).deep_view(), r.deep_view()) == case_of(
            cx.deep_view(),
            old(out).deep_view(),
            disc.deep_view(),
            c.deep_view(),
        ),
    decreases size(c.deep_view()), 8int,
{
    broadcast use ir::stmt_list_view_is_deep;

    proof {
        parts_fit(c.deep_view());
    }
    let body = stmts(cx, out, c, "consequent");
    match read_optional(cx, out, c, "test") {
        Some(e) => {
            let test = Expr::Binary {
                op: BinOp::Eq,
                left: Box::new(disc.dup()),
                right: Box::new(e),
            };
            Stmt::If { test, then: body, otherwise: list::empty(), loc: read_loc(cx, c) }
        },
        None => Stmt::Block(body),
    }
}

fn cases(cx: &Around, out: &mut Found, disc: &Expr, t: &Tree) -> (r: Vec<Stmt>)
    requires
        cx.source.wf(),
    ensures
        (final(out).deep_view(), r.deep_view()) == cases_from(
            cx.deep_view(),
            old(out).deep_view(),
            disc.deep_view(),
            items(t.deep_view(), "cases"@),
            0,
            seq![],
        ),
    decreases sizes(items(t.deep_view(), "cases"@), 0), 10int,
{
    let ghost c = cx.deep_view();
    let ghost first = out.deep_view();
    let ghost v = items(t.deep_view(), "cases"@);
    let mut acc: Vec<Stmt> = list::empty();
    if let Some(xs) = syntax::read_list(t, "cases") {
        let mut i: usize = 0;
        while i < xs.len()
            invariant
                i <= xs@.len(),
                cx.source.wf(),
                c == cx.deep_view(),
                v == xs.deep_view(),
                v == items(t.deep_view(), "cases"@),
                cases_from(c, out.deep_view(), disc.deep_view(), v, i as int, acc.deep_view())
                    == cases_from(c, first, disc.deep_view(), v, 0, seq![]),
            decreases xs@.len() - i,
        {
            assert(v[i as int] == xs@[i as int].deep_view());
            proof {
                items_fit(v);
            }
            let s = read_case(cx, out, disc, &xs[i]);
            list::push(&mut acc, s);
            i += 1;
        }
    }
    acc
}

fn read_loop(cx: &Around, out: &mut Found, t: &Tree, binding: Option<String>, over: &str) -> (r: Stmt)
    requires
        cx.source.wf(),
    ensures
        (final(out).deep_view(), r.deep_view()) == loop_of(
            cx.deep_view(),
            old(out).deep_view(),
            t.deep_view(),
            binding.deep_view(),
            over@,
        ),
    decreases size(t.deep_view()), 7int,
{
    broadcast use ir::stmt_list_view_is_deep;

    let e = read_expr_at(cx, out, t, over);
    let body = read_block_at(cx, out, t, "body");
    Stmt::Loop { binding, iter: Some(e), body, loc: read_loc(cx, t) }
}

fn read_binding(t: &Tree) -> (r: Option<String>)
    ensures
        r.deep_view() == loop_binding(t.deep_view()),
{
    match syntax::read_part(t, "left") {
        Some(l) => if syntax::is(l, "VariableDeclaration") {
            match syntax::read_list(l, "declarations") {
                Some(ds) => if ds.len() > 0 {
                    assert(ds.deep_view()[0] == ds@[0].deep_view());
                    syntax::read_ident(syntax::read_part(&ds[0], "id"))
                } else {
                    None
                },
                None => None,
            }
        } else {
            None
        },
        None => None,
    }
}

fn read_within(cx: &Around, out: &mut Found, t: &Tree, key: &str) -> (r: Vec<Stmt>)
    requires
        cx.source.wf(),
    ensures
        (final(out).deep_view(), r.deep_view()) == body_within(
            cx.deep_view(),
            old(out).deep_view(),
            t.deep_view(),
            key@,
        ),
    decreases size(t.deep_view()), 5int,
{
    proof {
        parts_fit(t.deep_view());
    }
    match syntax::read_part(t, key) {
        Some(x) => {
            proof {
                parts_fit(x.deep_view());
            }
            stmts(cx, out, x, "body")
        },
        None => list::empty(),
    }
}

fn read_try(cx: &Around, out: &mut Found, t: &Tree) -> (r: Stmt)
    requires
        cx.source.wf(),
    ensures
        (final(out).deep_view(), r.deep_view()) == try_of(
            cx.deep_view(),
            old(out).deep_view(),
            t.deep_view(),
        ),
    decreases size(t.deep_view()), 7int,
{
    broadcast use ir::stmt_list_view_is_deep;

    proof {
        parts_fit(t.deep_view());
    }
    let body = read_within(cx, out, t, "block");
    let handler = match syntax::read_part(t, "handler") {
        Some(h) => read_within(cx, out, h, "body"),
        None => list::empty(),
    };
    let finalizer = read_within(cx, out, t, "finalizer");
    Stmt::Try { body, handler, finalizer, loc: read_loc(cx, t) }
}

fn read_if(cx: &Around, out: &mut Found, t: &Tree) -> (r: Stmt)
    requires
        cx.source.wf(),
    ensures
        (final(out).deep_view(), r.deep_view()) == if_of(
            cx.deep_view(),
            old(out).deep_view(),
            t.deep_view(),
        ),
    decreases size(t.deep_view()), 7int,
{
    broadcast use ir::stmt_list_view_is_deep;

    let test = read_expr_at(cx, out, t, "test");
    let then = read_block_at(cx, out, t, "consequent");
    let otherwise = read_block_at(cx, out, t, "alternate");
    Stmt::If { test, then, otherwise, loc: read_loc(cx, t) }
}

fn read_switch(cx: &Around, out: &mut Found, t: &Tree) -> (r: Stmt)
    requires
        cx.source.wf(),
    ensures
        (final(out).deep_view(), r.deep_view()) == switch_of(
            cx.deep_view(),
            old(out).deep_view(),
            t.deep_view(),
        ),
    decreases size(t.deep_view()), 7int,
{
    broadcast use ir::stmt_list_view_is_deep;

    proof {
        parts_fit(t.deep_view());
    }
    let disc = read_expr_at(cx, out, t, "discriminant");
    Stmt::Block(cases(cx, out, &disc, t))
}

fn read_inner_function(cx: &Around, out: &mut Found, f: &Tree)
    requires
        cx.source.wf(),
    ensures
        final(out).deep_view() == inner_function(
            cx.deep_view(),
            old(out).deep_view(),
            f.deep_view(),
        ),
    decreases size(f.deep_view()), 8int,
{
    let name = syntax::read_ident(syntax::read_part(f, "id"));
    if name.is_some() {
        let _ = read_function_closure(cx, out, f, &name);
    }
}

/// Lowers a statement; none for a function declaration, an empty statement and a directive.
#[verifier::rlimit(40)]
pub fn stmt(cx: &Around, out: &mut Found, t: &Tree) -> (r: Option<Stmt>)
    requires
        cx.source.wf(),
    ensures
        (final(out).deep_view(), r.deep_view()) == stmt_of(
            cx.deep_view(),
            old(out).deep_view(),
            t.deep_view(),
        ),
    decreases size(t.deep_view()), 9int,
{
    broadcast use ir::stmt_list_view_is_deep;

    proof {
        parts_fit(t.deep_view());
    }
    let k = syntax::read_kind(t);
    let loc = read_loc(cx, t);
    if text::same(k, "ExpressionStatement") {
        if t.get_str("directive").is_some() {
            None
        } else {
            let e = read_expr_at(cx, out, t, "expression");
            Some(Stmt::Expr(e, loc))
        }
    } else if text::same(k, "VariableDeclaration") {
        let xs = declarators(cx, out, t);
        Some(read_single(xs))
    } else if text::same(k, "IfStatement") {
        Some(read_if(cx, out, t))
    } else if text::same(k, "ReturnStatement") {
        let e = read_optional(cx, out, t, "argument");
        Some(Stmt::Return(e, loc))
    } else if text::same(k, "ThrowStatement") {
        let e = read_expr_at(cx, out, t, "argument");
        Some(Stmt::Throw(e, loc))
    } else if text::same(k, "BlockStatement") {
        let xs = stmts(cx, out, t, "body");
        Some(Stmt::Block(xs))
    } else if text::same(k, "ForOfStatement") {
        Some(read_loop(cx, out, t, read_binding(t), "right"))
    } else if text::same(k, "ForInStatement") {
        Some(read_loop(cx, out, t, None, "right"))
    } else if text::same(k, "ForStatement") {
        let body = read_block_at(cx, out, t, "body");
        Some(Stmt::Loop { binding: None, iter: None, body, loc })
    } else if text::same(k, "WhileStatement") || text::same(k, "DoWhileStatement") {
        Some(read_loop(cx, out, t, None, "test"))
    } else if text::same(k, "TryStatement") {
        Some(read_try(cx, out, t))
    } else if text::same(k, "SwitchStatement") {
        Some(read_switch(cx, out, t))
    } else if text::same(k, "FunctionDeclaration") || text::same(k, "TSDeclareFunction") {
        read_inner_function(cx, out, t);
        None
    } else if text::same(k, "EmptyStatement") {
        None
    } else if text::same(k, "BreakStatement") || text::same(k, "ContinueStatement") {
        Some(Stmt::Jump(loc))
    } else {
        Some(Stmt::Expr(opaque(cx, t), loc))
    }
}

// ---- reading expressions

fn read_literal(cx: &Around, t: &Tree) -> (r: Expr)
    requires
        cx.source.wf(),
    ensures
        r.deep_view() == literal_of(cx.deep_view(), t.deep_view()),
{
    match t.get("value") {
        Some(Tree::Str(s)) => Expr::Str(s.dup()),
        Some(Tree::Num(n)) => Expr::Num(n.dup()),
        Some(Tree::Bool(b)) => Expr::Bool(*b),
        Some(Tree::Null) => if syntax::read_part(t, "regex").is_some() || syntax::read_part(
            t,
            "bigint",
        ).is_some() {
            opaque(cx, t)
        } else {
            Expr::Null
        },
        _ => opaque(cx, t),
    }
}

fn read_cooked(t: &Tree) -> (r: Vec<String>)
    ensures
        r.deep_view() == cooked_from(items(t.deep_view(), "quasis"@), 0),
{
    let ghost v = items(t.deep_view(), "quasis"@);
    let mut acc: Vec<String> = list::empty();
    if let Some(xs) = syntax::read_list(t, "quasis") {
        let mut i: usize = 0;
        while i < xs.len()
            invariant
                i <= xs@.len(),
                v == xs.deep_view(),
                acc.deep_view() + cooked_from(v, i as int) == cooked_from(v, 0),
            decreases xs@.len() - i,
        {
            assert(v[i as int] == xs@[i as int].deep_view());
            let cooked = match syntax::read_part(&xs[i], "value") {
                Some(x) => syntax::read_word(x, "cooked").to_owned(),
                None => "".to_owned(),
            };
            list::push(&mut acc, cooked);
            i += 1;
        }
    }
    acc
}

fn read_operator(op: &str) -> (r: BinOp)
    ensures
        r == operator_of(op@),
{
    if text::same(op, "==") || text::same(op, "===") {
        BinOp::Eq
    } else if text::same(op, "!=") || text::same(op, "!==") {
        BinOp::NotEq
    } else if text::same(op, "<") {
        BinOp::Lt
    } else if text::same(op, "<=") {
        BinOp::LtEq
    } else if text::same(op, ">") {
        BinOp::Gt
    } else if text::same(op, ">=") {
        BinOp::GtEq
    } else {
        BinOp::Other
    }
}

fn read_connective(op: &str) -> (r: LogicOp)
    ensures
        r == connective_of(op@),
{
    if text::same(op, "&&") {
        LogicOp::And
    } else if text::same(op, "||") {
        LogicOp::Or
    } else {
        LogicOp::Coalesce
    }
}

/// Reads the expression under `key`.
pub fn read_expr_at(cx: &Around, out: &mut Found, t: &Tree, key: &str) -> (r: Expr)
    requires
        cx.source.wf(),
    ensures
        (final(out).deep_view(), r.deep_view()) == expr_at(
            cx.deep_view(),
            old(out).deep_view(),
            t.deep_view(),
            key@,
        ),
    decreases size(t.deep_view()), 5int,
{
    proof {
        parts_fit(t.deep_view());
    }
    match syntax::read_part(t, key) {
        Some(x) => expr(cx, out, x),
        None => Expr::Undefined,
    }
}

/// Reads the expression under `key`, if there is one.
pub fn read_optional(cx: &Around, out: &mut Found, t: &Tree, key: &str) -> (r: Option<Expr>)
    requires
        cx.source.wf(),
    ensures
        (final(out).deep_view(), r.deep_view()) == optional_expr(
            cx.deep_view(),
            old(out).deep_view(),
            t.deep_view(),
            key@,
        ),
    decreases size(t.deep_view()), 5int,
{
    proof {
        parts_fit(t.deep_view());
    }
    match syntax::read_part(t, key) {
        Some(x) => Some(expr(cx, out, x)),
        None => None,
    }
}

fn exprs(cx: &Around, out: &mut Found, t: &Tree) -> (r: Vec<Expr>)
    requires
        cx.source.wf(),
    ensures
        (final(out).deep_view(), r.deep_view()) == exprs_from(
            cx.deep_view(),
            old(out).deep_view(),
            items(t.deep_view(), "expressions"@),
            0,
            seq![],
        ),
    decreases sizes(items(t.deep_view(), "expressions"@), 0), 10int,
{
    let ghost c = cx.deep_view();
    let ghost first = out.deep_view();
    let ghost v = items(t.deep_view(), "expressions"@);
    let mut acc: Vec<Expr> = list::empty();
    if let Some(xs) = syntax::read_list(t, "expressions") {
        let mut i: usize = 0;
        while i < xs.len()
            invariant
                i <= xs@.len(),
                cx.source.wf(),
                c == cx.deep_view(),
                v == xs.deep_view(),
                v == items(t.deep_view(), "expressions"@),
                exprs_from(c, out.deep_view(), v, i as int, acc.deep_view()) == exprs_from(
                    c,
                    first,
                    v,
                    0,
                    seq![],
                ),
            decreases xs@.len() - i,
        {
            assert(v[i as int] == xs@[i as int].deep_view());
            proof {
                items_fit(v);
            }
            let e = expr(cx, out, &xs[i]);
            list::push(&mut acc, e);
            i += 1;
        }
    }
    acc
}

fn args(cx: &Around, out: &mut Found, t: &Tree, hint: &Option<String>) -> (r: Vec<Expr>)
    requires
        cx.source.wf(),
    ensures
        (final(out).deep_view(), r.deep_view()) == args_from(
            cx.deep_view(),
            old(out).deep_view(),
            items(t.deep_view(), "arguments"@),
            0,
            hint.deep_view(),
            seq![],
        ),
    decreases sizes(items(t.deep_view(), "arguments"@), 0), 10int,
{
    let ghost c = cx.deep_view();
    let ghost h = hint.deep_view();
    let ghost first = out.deep_view();
    let ghost v = items(t.deep_view(), "arguments"@);
    let mut acc: Vec<Expr> = list::empty();
    if let Some(xs) = syntax::read_list(t, "arguments") {
        let mut i: usize = 0;
        while i < xs.len()
            invariant
                i <= xs@.len(),
                cx.source.wf(),
                c == cx.deep_view(),
                h == hint.deep_view(),
                v == xs.deep_view(),
                v == items(t.deep_view(), "arguments"@),
                args_from(c, out.deep_view(), v, i as int, h, acc.deep_view()) == args_from(
                    c,
                    first,
                    v,
                    0,
                    h,
                    seq![],
                ),
            decreases xs@.len() - i,
        {
            assert(v[i as int] == xs@[i as int].deep_view());
            proof {
                items_fit(v);
            }
            let e = arg(cx, out, &xs[i], hint);
            list::push(&mut acc, e);
            i += 1;
        }
    }
    acc
}

fn elements(cx: &Around, out: &mut Found, t: &Tree) -> (r: Vec<Expr>)
    requires
        cx.source.wf(),
    ensures
        (final(out).deep_view(), r.deep_view()) == elements_from(
            cx.deep_view(),
            old(out).deep_view(),
            items(t.deep_view(), "elements"@),
            0,
            seq![],
        ),
    decreases sizes(items(t.deep_view(), "elements"@), 0), 10int,
{
    let ghost c = cx.deep_view();
    let ghost first = out.deep_view();
    let ghost v = items(t.deep_view(), "elements"@);
    let mut acc: Vec<Expr> = list::empty();
    if let Some(xs) = syntax::read_list(t, "elements") {
        let mut i: usize = 0;
        while i < xs.len()
            invariant
                i <= xs@.len(),
                cx.source.wf(),
                c == cx.deep_view(),
                v == xs.deep_view(),
                v == items(t.deep_view(), "elements"@),
                elements_from(c, out.deep_view(), v, i as int, acc.deep_view()) == elements_from(
                    c,
                    first,
                    v,
                    0,
                    seq![],
                ),
            decreases xs@.len() - i,
        {
            assert(v[i as int] == xs@[i as int].deep_view());
            proof {
                items_fit(v);
            }
            let hole = matches!(&xs[i], Tree::Null);
            if !hole {
                let e = if syntax::is(&xs[i], "SpreadElement") {
                    read_expr_at(cx, out, &xs[i], "argument")
                } else {
                    expr(cx, out, &xs[i])
                };
                list::push(&mut acc, e);
            }
            i += 1;
        }
    }
    acc
}

fn read_property(cx: &Around, out: &mut Found, t: &Tree) -> (r: Option<(String, Expr)>)
    requires
        cx.source.wf(),
    ensures
        (final(out).deep_view(), r.deep_view()) == property_of(
            cx.deep_view(),
            old(out).deep_view(),
            t.deep_view(),
        ),
    decreases size(t.deep_view()), 9int,
{
    if syntax::is(t, "SpreadElement") {
        let e = read_expr_at(cx, out, t, "argument");
        Some(("...".to_owned(), e))
    } else {
        match syntax::read_key(t) {
            Some(k) => {
                let e = read_expr_at(cx, out, t, "value");
                Some((k, e))
            },
            None => None,
        }
    }
}

fn properties(cx: &Around, out: &mut Found, t: &Tree) -> (r: Vec<(String, Expr)>)
    requires
        cx.source.wf(),
    ensures
        (final(out).deep_view(), r.deep_view()) == properties_from(
            cx.deep_view(),
            old(out).deep_view(),
            items(t.deep_view(), "properties"@),
            0,
            seq![],
        ),
    decreases sizes(items(t.deep_view(), "properties"@), 0), 10int,
{
    let ghost c = cx.deep_view();
    let ghost first = out.deep_view();
    let ghost v = items(t.deep_view(), "properties"@);
    let mut acc: Vec<(String, Expr)> = list::empty();
    if let Some(xs) = syntax::read_list(t, "properties") {
        let mut i: usize = 0;
        while i < xs.len()
            invariant
                i <= xs@.len(),
                cx.source.wf(),
                c == cx.deep_view(),
                v == xs.deep_view(),
                v == items(t.deep_view(), "properties"@),
                properties_from(c, out.deep_view(), v, i as int, acc.deep_view())
                    == properties_from(c, first, v, 0, seq![]),
            decreases xs@.len() - i,
        {
            assert(v[i as int] == xs@[i as int].deep_view());
            proof {
                items_fit(v);
            }
            if let Some(p) = read_property(cx, out, &xs[i]) {
                list::push(&mut acc, p);
            }
            i += 1;
        }
    }
    acc
}

fn read_member(cx: &Around, out: &mut Found, t: &Tree) -> (r: Expr)
    requires
        cx.source.wf(),
    ensures
        (final(out).deep_view(), r.deep_view()) == member_of(
            cx.deep_view(),
            old(out).deep_view(),
            t.deep_view(),
        ),
    decreases size(t.deep_view()), 7int,
{
    let o = read_expr_at(cx, out, t, "object");
    if !syntax::read_flag(t, "computed") {
        let property = match syntax::read_part(t, "property") {
            Some(p) => syntax::read_word(p, "name").to_owned(),
            None => "".to_owned(),
        };
        Expr::Member { object: Box::new(o), property }
    } else {
        match syntax::read_string(syntax::read_part(t, "property")) {
            Some(p) => Expr::Member { object: Box::new(o), property: p },
            None => {
                let i = read_expr_at(cx, out, t, "property");
                Expr::Index { object: Box::new(o), index: Box::new(i) }
            },
        }
    }
}

fn read_hint(callee: &Expr, t: &Tree) -> (r: Option<String>)
    ensures
        r.deep_view() == call_hint(callee.deep_view(), items(t.deep_view(), "arguments"@)),
{
    let method = match callee {
        Expr::Member { property, .. } => Some(property.dup()),
        Expr::Ident(n) => Some(n.dup()),
        _ => None,
    };
    let first = match syntax::read_list(t, "arguments") {
        Some(xs) => if xs.len() > 0 {
            assert(xs.deep_view()[0] == xs@[0].deep_view());
            syntax::read_string(Some(&xs[0]))
        } else {
            None
        },
        None => None,
    };
    match method {
        Some(m) => match first {
            Some(s) => Some(text::cat4(&m, "(", &text::quote(&s), ")")),
            None => Some(m),
        },
        None => None,
    }
}

fn call(cx: &Around, out: &mut Found, t: &Tree) -> (r: Expr)
    requires
        cx.source.wf(),
    ensures
        (final(out).deep_view(), r.deep_view()) == call_of(
            cx.deep_view(),
            old(out).deep_view(),
            t.deep_view(),
        ),
    decreases size(t.deep_view()), 7int,
{
    broadcast use ir::expr_list_view_is_deep;

    proof {
        parts_fit(t.deep_view());
    }
    let callee = read_expr_at(cx, out, t, "callee");
    let hint = read_hint(&callee, t);
    let args = args(cx, out, t, &hint);
    let ghost parts = (callee.deep_view(), args.deep_view());
    let found = Call { callee, args, loc: read_loc(cx, t) };
    assert(found.deep_view() == (CallView {
        callee: parts.0,
        args: parts.1,
        loc: loc_of(cx.deep_view(), t.deep_view()),
    }));
    Expr::Call(Box::new(found))
}

fn arg(cx: &Around, out: &mut Found, t: &Tree, hint: &Option<String>) -> (r: Expr)
    requires
        cx.source.wf(),
    ensures
        (final(out).deep_view(), r.deep_view()) == arg_of(
            cx.deep_view(),
            old(out).deep_view(),
            t.deep_view(),
            hint.deep_view(),
        ),
    decreases size(t.deep_view()), 9int,
{
    let k = syntax::read_kind(t);
    if text::same(k, "SpreadElement") {
        read_expr_at(cx, out, t, "argument")
    } else if text::same(k, "ArrowFunctionExpression") {
        read_arrow_closure(cx, out, t, hint)
    } else if text::same(k, "FunctionExpression") {
        read_function_closure(cx, out, t, hint)
    } else {
        expr(cx, out, t)
    }
}

fn read_chain(cx: &Around, out: &mut Found, t: &Tree) -> (r: Expr)
    requires
        cx.source.wf(),
    ensures
        (final(out).deep_view(), r.deep_view()) == chain_of(
            cx.deep_view(),
            old(out).deep_view(),
            t.deep_view(),
        ),
    decreases size(t.deep_view()), 7int,
{
    proof {
        parts_fit(t.deep_view());
    }
    match syntax::read_part(t, "expression") {
        Some(e) => if syntax::is(e, "CallExpression") {
            call(cx, out, e)
        } else {
            let property = syntax::read_property(e);
            match (syntax::is(e, "MemberExpression"), property) {
                (true, Some(p)) => {
                    let o = read_expr_at(cx, out, e, "object");
                    Expr::Member { object: Box::new(o), property: p }
                },
                _ => if syntax::is(e, "TSNonNullExpression") {
                    read_expr_at(cx, out, e, "expression")
                } else {
                    opaque(cx, t)
                },
            }
        },
        None => opaque(cx, t),
    }
}

fn read_target(cx: &Around, out: &mut Found, t: &Tree) -> (r: Expr)
    requires
        cx.source.wf(),
    ensures
        (final(out).deep_view(), r.deep_view()) == target_of(
            cx.deep_view(),
            old(out).deep_view(),
            t.deep_view(),
        ),
    decreases size(t.deep_view()), 8int,
{
    if syntax::is(t, "Identifier") {
        Expr::Ident(syntax::read_word(t, "name").to_owned())
    } else if syntax::is(t, "MemberExpression") {
        read_member(cx, out, t)
    } else {
        opaque(cx, t)
    }
}

fn read_assign(cx: &Around, out: &mut Found, t: &Tree) -> (r: Expr)
    requires
        cx.source.wf(),
    ensures
        (final(out).deep_view(), r.deep_view()) == assign_of(
            cx.deep_view(),
            old(out).deep_view(),
            t.deep_view(),
        ),
    decreases size(t.deep_view()), 7int,
{
    proof {
        parts_fit(t.deep_view());
    }
    let target = match syntax::read_part(t, "left") {
        Some(l) => read_target(cx, out, l),
        None => Expr::Undefined,
    };
    let value = read_expr_at(cx, out, t, "right");
    let ghost parts = (target.deep_view(), value.deep_view());
    let found = Expr::Assign {
        target: Box::new(target),
        value: Box::new(value),
        loc: read_loc(cx, t),
    };
    assert(found.deep_view() == (ExprView::Assign {
        target: Box::new(parts.0),
        value: Box::new(parts.1),
        loc: loc_of(cx.deep_view(), t.deep_view()),
    }));
    found
}

fn read_new(cx: &Around, out: &mut Found, t: &Tree) -> (r: Expr)
    requires
        cx.source.wf(),
    ensures
        (final(out).deep_view(), r.deep_view()) == new_of(
            cx.deep_view(),
            old(out).deep_view(),
            t.deep_view(),
        ),
    decreases size(t.deep_view()), 7int,
{
    broadcast use ir::expr_list_view_is_deep;

    proof {
        parts_fit(t.deep_view());
    }
    let callee = read_expr_at(cx, out, t, "callee");
    let args = args(cx, out, t, &None);
    Expr::New { callee: Box::new(callee), args, loc: read_loc(cx, t) }
}

fn read_binary(cx: &Around, out: &mut Found, t: &Tree) -> (r: Expr)
    requires
        cx.source.wf(),
    ensures
        (final(out).deep_view(), r.deep_view()) == binary_of(
            cx.deep_view(),
            old(out).deep_view(),
            t.deep_view(),
        ),
    decreases size(t.deep_view()), 7int,
{
    if syntax::has_kind(syntax::read_part(t, "left"), "PrivateIdentifier") {
        opaque(cx, t)
    } else {
        let l = read_expr_at(cx, out, t, "left");
        let r = read_expr_at(cx, out, t, "right");
        let op = read_operator(syntax::read_word(t, "operator"));
        Expr::Binary { op, left: Box::new(l), right: Box::new(r) }
    }
}

fn read_logical(cx: &Around, out: &mut Found, t: &Tree) -> (r: Expr)
    requires
        cx.source.wf(),
    ensures
        (final(out).deep_view(), r.deep_view()) == logical_of(
            cx.deep_view(),
            old(out).deep_view(),
            t.deep_view(),
        ),
    decreases size(t.deep_view()), 7int,
{
    let l = read_expr_at(cx, out, t, "left");
    let r = read_expr_at(cx, out, t, "right");
    let op = read_connective(syntax::read_word(t, "operator"));
    Expr::Logical { op, left: Box::new(l), right: Box::new(r) }
}

fn read_conditional(cx: &Around, out: &mut Found, t: &Tree) -> (r: Expr)
    requires
        cx.source.wf(),
    ensures
        (final(out).deep_view(), r.deep_view()) == conditional_of(
            cx.deep_view(),
            old(out).deep_view(),
            t.deep_view(),
        ),
    decreases size(t.deep_view()), 7int,
{
    let test = read_expr_at(cx, out, t, "test");
    let then = read_expr_at(cx, out, t, "consequent");
    let otherwise = read_expr_at(cx, out, t, "alternate");
    Expr::Conditional { test: Box::new(test), then: Box::new(then), otherwise: Box::new(otherwise) }
}

fn read_sequence(cx: &Around, out: &mut Found, t: &Tree) -> (r: Expr)
    requires
        cx.source.wf(),
    ensures
        (final(out).deep_view(), r.deep_view()) == sequence_of(
            cx.deep_view(),
            old(out).deep_view(),
            t.deep_view(),
        ),
    decreases size(t.deep_view()), 7int,
{
    proof {
        parts_fit(t.deep_view());
        items_fit(items(t.deep_view(), "expressions"@));
    }
    match syntax::read_list(t, "expressions") {
        Some(xs) => if xs.len() > 0 {
            let n: usize = xs.len() - 1;
            assert(xs.deep_view()[n as int] == xs@[n as int].deep_view());
            expr(cx, out, &xs[n])
        } else {
            Expr::Undefined
        },
        None => Expr::Undefined,
    }
}

fn transparent(k: &str) -> (r: bool)
    ensures
        r == is_transparent(k@),
{
    text::same(k, "ParenthesizedExpression") || text::same(k, "TSAsExpression") || text::same(
        k,
        "TSSatisfiesExpression",
    ) || text::same(k, "TSNonNullExpression") || text::same(k, "TSTypeAssertion")
}

/// Lowers an expression. What is not modelled is kept as source text.
#[verifier::rlimit(40)]
pub fn expr(cx: &Around, out: &mut Found, t: &Tree) -> (r: Expr)
    requires
        cx.source.wf(),
    ensures
        (final(out).deep_view(), r.deep_view()) == expr_of(
            cx.deep_view(),
            old(out).deep_view(),
            t.deep_view(),
        ),
    decreases size(t.deep_view()), 8int,
{
    broadcast use {ir::expr_list_view_is_deep, ir::expr_fields_view_is_deep};

    proof {
        parts_fit(t.deep_view());
    }
    let k = syntax::read_kind(t);
    if text::same(k, "Literal") {
        read_literal(cx, t)
    } else if text::same(k, "Identifier") {
        let name = syntax::read_word(t, "name");
        if text::same(name, "undefined") {
            Expr::Undefined
        } else {
            Expr::Ident(name.to_owned())
        }
    } else if text::same(k, "ThisExpression") {
        Expr::This
    } else if text::same(k, "TemplateLiteral") {
        let xs = exprs(cx, out, t);
        Expr::Template { quasis: read_cooked(t), exprs: xs }
    } else if text::same(k, "MemberExpression") {
        read_member(cx, out, t)
    } else if text::same(k, "CallExpression") {
        call(cx, out, t)
    } else if text::same(k, "ChainExpression") {
        read_chain(cx, out, t)
    } else if text::same(k, "NewExpression") {
        read_new(cx, out, t)
    } else if text::same(k, "BinaryExpression") {
        read_binary(cx, out, t)
    } else if text::same(k, "LogicalExpression") {
        read_logical(cx, out, t)
    } else if text::same(k, "UnaryExpression") && text::same(syntax::read_word(t, "operator"), "!") {
        let e = read_expr_at(cx, out, t, "argument");
        Expr::Not(Box::new(e))
    } else if transparent(k) {
        read_expr_at(cx, out, t, "expression")
    } else if text::same(k, "AwaitExpression") {
        let e = read_expr_at(cx, out, t, "argument");
        Expr::Await(Box::new(e))
    } else if text::same(k, "ObjectExpression") {
        let ps = properties(cx, out, t);
        Expr::Object(ps)
    } else if text::same(k, "ArrayExpression") {
        let xs = elements(cx, out, t);
        Expr::Array(xs)
    } else if text::same(k, "ConditionalExpression") {
        read_conditional(cx, out, t)
    } else if text::same(k, "AssignmentExpression") {
        read_assign(cx, out, t)
    } else if text::same(k, "ArrowFunctionExpression") {
        read_arrow_closure(cx, out, t, &None)
    } else if text::same(k, "FunctionExpression") {
        read_function_closure(cx, out, t, &None)
    } else if text::same(k, "SequenceExpression") {
        read_sequence(cx, out, t)
    } else {
        opaque(cx, t)
    }
}

} // verus!
