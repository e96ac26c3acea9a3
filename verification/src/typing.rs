//! What expressions are: their types, what calls resolve to, constant values, and a compact
//! text of any expression.

use crate::ir::{
    call_view, expr_fields_view, expr_list_view, expr_view, jsx_view, BinOp, Expr, ExprView,
    LogicOp,
};
use crate::list;
use crate::list::Plain;
use crate::ordered::{lookup, SortedMap};
use crate::resolve::{
    const_named, enum_named, field_type_of, find_const, method_found, module_of, module_part,
    symbol, ty_fields_view, ty_fields_view_is_deep, type_in, Callee, CalleeView, Env, EnvView,
    FoundView, Index, IndexView, Symbol, SymbolView, Ty, TyView,
};
use crate::text;
use crate::text::Text;
use vstd::prelude::*;

verus! {

// ---- text

/// The sign of a binary operator.
pub open spec fn binary_sign(op: BinOp) -> Text {
    match op {
        BinOp::Eq => "==="@,
        BinOp::NotEq => "!=="@,
        BinOp::Lt => "<"@,
        BinOp::LtEq => "<="@,
        BinOp::Gt => ">"@,
        BinOp::GtEq => ">="@,
        BinOp::Other => "?"@,
    }
}

/// The sign of a logical operator.
pub open spec fn logic_sign(op: LogicOp) -> Text {
    match op {
        LogicOp::And => "&&"@,
        LogicOp::Or => "||"@,
        LogicOp::Coalesce => "??"@,
    }
}

/// `true` or `false`.
pub open spec fn bool_text(b: bool) -> Text {
    if b {
        "true"@
    } else {
        "false"@
    }
}

/// The texts of the expressions from index `i` on.
pub open spec fn expr_texts(es: Seq<ExprView>, i: int) -> Seq<Text>
    decreases es, es.len() - i,
{
    if 0 <= i < es.len() {
        seq![expr_text(es[i])] + expr_texts(es, i + 1)
    } else {
        seq![]
    }
}

/// An expression as compact source-like text.
pub open spec fn expr_text(e: ExprView) -> Text
    decreases e, 0int,
{
    match e {
        ExprView::Str(s) => text::quoted(s),
        ExprView::Num(n) => n.text,
        ExprView::Bool(b) => bool_text(b),
        ExprView::Null => "null"@,
        ExprView::Undefined => "undefined"@,
        ExprView::Ident(n) => n,
        ExprView::This => "this"@,
        ExprView::Member { object, property } => expr_text(*object) + "."@ + property,
        ExprView::Index { object, index } => expr_text(*object) + "["@ + expr_text(*index) + "]"@,
        ExprView::Call(c) => expr_text(c.callee) + "("@ + text::joined(expr_texts(c.args, 0), ", "@)
            + ")"@,
        ExprView::New { callee, args, loc } => "new "@ + expr_text(*callee) + "("@ + text::joined(
            expr_texts(args, 0),
            ", "@,
        ) + ")"@,
        ExprView::Binary { op, left, right } => expr_text(*left) + " "@ + binary_sign(op) + " "@
            + expr_text(*right),
        ExprView::Logical { op, left, right } => expr_text(*left) + " "@ + logic_sign(op) + " "@
            + expr_text(*right),
        ExprView::Not(x) => "!"@ + expr_text(*x),
        ExprView::Template { quasis, exprs } => "`…`"@,
        ExprView::Object(_) => "{…}"@,
        ExprView::Array(xs) => "["@ + text::joined(expr_texts(xs, 0), ", "@) + "]"@,
        ExprView::Closure(id) => "<fn "@ + text::after_last(id, "::"@) + ">"@,
        ExprView::Await(x) => "await "@ + expr_text(*x),
        ExprView::Conditional { test, then, otherwise } => expr_text(*test) + " ? "@ + expr_text(
            *then,
        ) + " : "@ + expr_text(*otherwise),
        ExprView::Assign { target, value, loc } => expr_text(*target) + " = "@ + expr_text(*value),
        ExprView::Jsx(j) => "<"@ + j.tag + ">"@,
        ExprView::Opaque(t) => t,
    }
}

fn bool_str(b: bool) -> (r: String)
    ensures
        r@ == bool_text(b),
{
    if b {
        "true".to_owned()
    } else {
        "false".to_owned()
    }
}

/// Renders the expressions of a list.
pub fn render_list(es: &Vec<Expr>) -> (r: Vec<String>)
    ensures
        r.deep_view() == expr_texts(expr_list_view(es@), 0),
    decreases es,
{
    let ghost v = expr_list_view(es@);
    let mut out: Vec<String> = list::empty();
    let mut i: usize = 0;
    while i < es.len()
        invariant
            i <= es@.len(),
            v == expr_list_view(es@),
            out.deep_view() + expr_texts(v, i as int) == expr_texts(v, 0),
        decreases es@.len() - i,
    {
        list::push(&mut out, render(&es[i]));
        i += 1;
    }
    out
}

/// Compact source-like rendering of an expression (for evidence and opaque predicates).
pub fn render(e: &Expr) -> (r: String)
    ensures
        r@ == expr_text(e.deep_view()),
    decreases e,
{
    match e {
        Expr::Str(s) => text::quote(s),
        Expr::Num(n) => n.text.dup(),
        Expr::Bool(b) => bool_str(*b),
        Expr::Null => "null".to_owned(),
        Expr::Undefined => "undefined".to_owned(),
        Expr::Ident(n) => n.dup(),
        Expr::This => "this".to_owned(),
        Expr::Member { object, property } => text::cat3(&render(object), ".", property),
        Expr::Index { object, index } => text::cat4(&render(object), "[", &render(index), "]"),
        Expr::Call(c) => {
            let ghost cv = call_view(**c);
            text::cat4(
                &render(&c.callee),
                "(",
                &text::join(&render_list(&c.args), ", "),
                ")",
            )
        },
        Expr::New { callee, args, loc } => text::cat5(
            "new ",
            &render(callee),
            "(",
            &text::join(&render_list(args), ", "),
            ")",
        ),
        Expr::Binary { op, left, right } => {
            let o = match op {
                BinOp::Eq => "===",
                BinOp::NotEq => "!==",
                BinOp::Lt => "<",
                BinOp::LtEq => "<=",
                BinOp::Gt => ">",
                BinOp::GtEq => ">=",
                BinOp::Other => "?",
            };
            text::cat5(&render(left), " ", o, " ", &render(right))
        },
        Expr::Logical { op, left, right } => {
            let o = match op {
                LogicOp::And => "&&",
                LogicOp::Or => "||",
                LogicOp::Coalesce => "??",
            };
            text::cat5(&render(left), " ", o, " ", &render(right))
        },
        Expr::Not(x) => text::cat2("!", &render(x)),
        Expr::Template { quasis, exprs } => "`…`".to_owned(),
        Expr::Object(_) => "{…}".to_owned(),
        Expr::Array(xs) => text::cat3("[", &text::join(&render_list(xs), ", "), "]"),
        Expr::Closure(id) => text::cat3("<fn ", &text::last_piece(id, "::"), ">"),
        Expr::Await(x) => text::cat2("await ", &render(x)),
        Expr::Conditional { test, then, otherwise } => text::cat5(
            &render(test),
            " ? ",
            &render(then),
            " : ",
            &render(otherwise),
        ),
        Expr::Assign { target, value, loc } => text::cat3(
            &render(target),
            " = ",
            &render(value),
        ),
        Expr::Jsx(j) => {
            let ghost jv = jsx_view(**j);
            text::cat3("<", &j.tag, ">")
        },
        Expr::Opaque(t) => t.dup(),
    }
}

// ---- types and calls

/// The environment of a module's own initializers.
pub open spec fn module_env(module: Text) -> EnvView {
    EnvView { module, this_class: None, vars: seq![] }
}

/// The environment of a module's own initializers.
pub fn env_of_module(module: &str) -> (r: Env)
    ensures
        r.deep_view() == module_env(module@),
{
    Env { module: module.to_owned(), this_class: None, vars: SortedMap::new() }
}

/// The type of a constant, found through at most `fuel` constants: its declared type, or else
/// that of its initializer.
pub open spec fn const_type_at(ix: IndexView, module: Text, name: Text, fuel: nat) -> TyView
    decreases fuel, 0int, ExprView::Null, 0int,
{
    if fuel == 0 {
        TyView::Unknown
    } else {
        match lookup(ix.program.modules, module) {
            None => TyView::Unknown,
            Some(m) => match const_named(m.consts, name, 0) {
                None => TyView::Unknown,
                Some(c) => {
                    let declared = match c.ty {
                        Some(t) => type_in(ix.program, module, t),
                        None => TyView::Unknown,
                    };
                    if declared != TyView::Unknown {
                        declared
                    } else {
                        match c.init {
                            Some(init) => type_at(
                                ix,
                                module_env(module),
                                init,
                                (fuel - 1) as nat,
                            ),
                            None => TyView::Unknown,
                        }
                    }
                },
            },
        }
    }
}

/// The type of a name: that of a variable, or what the module knows.
pub open spec fn ident_type_at(ix: IndexView, env: EnvView, n: Text, fuel: nat) -> TyView
    decreases fuel, 1int, ExprView::Null, 0int,
{
    match lookup(env.vars, n) {
        Some(t) => t,
        None => match symbol(ix.program, env.module, n) {
            Some(SymbolView::Const { module, name }) => const_type_at(ix, module, name, fuel),
            Some(SymbolView::Enum { module, name }) => TyView::EnumObject { module, name },
            Some(SymbolView::External(canon)) => TyView::External(canon),
            Some(SymbolView::Function(id)) => TyView::Function(id),
            _ => TyView::Unknown,
        },
    }
}

/// The type of a member of a value of type `ot`.
pub open spec fn member_type(ix: IndexView, ot: TyView, property: Text) -> TyView {
    match ot {
        TyView::Class(id) => match method_found(ix, id, property, 16) {
            FoundView::Method(_) => TyView::Unknown,
            FoundView::External(ext) => {
                let ft = field_type_of(ix, ot, property);
                if ft == TyView::Unknown {
                    TyView::External(ext + "."@ + property)
                } else {
                    ft
                }
            },
            FoundView::Nothing => field_type_of(ix, ot, property),
        },
        _ => field_type_of(ix, ot, property),
    }
}

/// The types of the properties from index `i` on.
pub open spec fn prop_types_at(
    ix: IndexView,
    env: EnvView,
    props: Seq<(Text, ExprView)>,
    fuel: nat,
    i: int,
) -> Seq<(Text, TyView)>
    decreases fuel, 2int, props, props.len() - i,
{
    if 0 <= i < props.len() {
        seq![(props[i].0, type_at(ix, env, props[i].1, fuel))] + prop_types_at(
            ix,
            env,
            props,
            fuel,
            i + 1,
        )
    } else {
        seq![]
    }
}

/// The type of an expression, found through at most `fuel` constants.
pub open spec fn type_at(ix: IndexView, env: EnvView, e: ExprView, fuel: nat) -> TyView
    decreases fuel, 2int, e, 0int,
{
    match e {
        ExprView::This => match env.this_class {
            Some(c) => TyView::Class(c),
            None => TyView::Unknown,
        },
        ExprView::Ident(n) => ident_type_at(ix, env, n, fuel),
        ExprView::Member { object, property } => member_type(
            ix,
            type_at(ix, env, *object, fuel),
            property,
        ),
        ExprView::Index { object, index } => match type_at(ix, env, *object, fuel) {
            TyView::Array(el) => *el,
            _ => TyView::Unknown,
        },
        ExprView::Await(inner) => type_at(ix, env, *inner, fuel),
        ExprView::New { callee, args, loc } => match *callee {
            ExprView::Ident(n) => match symbol(ix.program, env.module, n) {
                Some(SymbolView::Class(id)) => TyView::Class(id),
                Some(SymbolView::External(canon)) => TyView::External(canon + "#"@),
                _ => TyView::Unknown,
            },
            _ => TyView::Unknown,
        },
        ExprView::Call(call) => match callee_at(ix, env, call.callee, fuel) {
            CalleeView::Internal(id) => match lookup(ix.functions, id) {
                Some(f) => match f.return_type {
                    Some(rt) => type_in(ix.program, module_part(id), rt),
                    None => TyView::Unknown,
                },
                None => TyView::Unknown,
            },
            CalleeView::External(canon) => TyView::External(canon),
            CalleeView::Unresolved(_) => TyView::Unknown,
        },
        ExprView::Closure(id) => TyView::Function(id),
        ExprView::Object(props) => TyView::Object(prop_types_at(ix, env, props, fuel, 0)),
        _ => TyView::Unknown,
    }
}

/// What a call of a member of a value of type `ot` resolves to.
pub open spec fn member_callee(
    ix: IndexView,
    ot: TyView,
    callee: ExprView,
    object: ExprView,
    property: Text,
) -> CalleeView {
    match ot {
        TyView::Class(id) => match method_found(ix, id, property, 16) {
            FoundView::Method(m) => CalleeView::Internal(m),
            FoundView::Nothing => match field_type_of(ix, ot, property) {
                TyView::Function(f) => CalleeView::Internal(f),
                _ => CalleeView::Unresolved(expr_text(callee)),
            },
            FoundView::External(ext) => CalleeView::External(ext + "."@ + property + "()"@),
        },
        TyView::External(canon) => CalleeView::External(canon + "."@ + property + "()"@),
        TyView::Array(_) => CalleeView::External("Array#."@ + property + "()"@),
        TyView::Unknown => match object {
            // A global such as `JSON.stringify`, `Math.max`, `console.log`.
            ExprView::Ident(n) => CalleeView::External(n + "."@ + property + "()"@),
            _ => CalleeView::Unresolved(expr_text(callee)),
        },
        _ => CalleeView::Unresolved(expr_text(callee)),
    }
}

/// What a call resolves to, found through at most `fuel` constants.
pub open spec fn callee_at(ix: IndexView, env: EnvView, callee: ExprView, fuel: nat) -> CalleeView
    decreases fuel, 2int, callee, 1int,
{
    match callee {
        ExprView::Member { object, property } => member_callee(
            ix,
            type_at(ix, env, *object, fuel),
            callee,
            *object,
            property,
        ),
        ExprView::Ident(n) => match ident_type_at(ix, env, n, fuel) {
            TyView::Function(id) => CalleeView::Internal(id),
            TyView::External(canon) => CalleeView::External(canon + "()"@),
            _ => if lookup(env.vars, n) is Some {
                CalleeView::Unresolved(n)
            } else {
                // An unbound name: a global such as `fetch`.
                CalleeView::External(n + "()"@)
            },
        },
        _ => CalleeView::Unresolved(expr_text(callee)),
    }
}

/// The type of an expression.
pub open spec fn typed(ix: IndexView, env: EnvView, e: ExprView) -> TyView {
    type_at(ix, env, e, ix.consts as nat)
}

/// What a call of `callee` resolves to.
pub open spec fn called(ix: IndexView, env: EnvView, callee: ExprView) -> CalleeView {
    callee_at(ix, env, callee, ix.consts as nat)
}

impl<'p> Index<'p> {
    fn const_type(&self, module: &str, name: &str, fuel: usize) -> (r: Ty)
        ensures
            r.deep_view() == const_type_at(self.deep_view(), module@, name@, fuel as nat),
        decreases fuel, 0int, ExprView::Null, 0int,
    {
        if fuel == 0 {
            return Ty::Unknown;
        }
        let m = match self.program.modules.find(module) {
            Some(m) => m,
            None => {
                return Ty::Unknown;
            },
        };
        let c = match find_const(&m.consts, name) {
            Some(c) => c,
            None => {
                return Ty::Unknown;
            },
        };
        if let Some(t) = &c.ty {
            let ty = self.resolve_type(module, t);
            match ty {
                Ty::Unknown => {},
                _ => {
                    return ty;
                },
            }
        }
        match &c.init {
            Some(init) => self.type_depth(&env_of_module(module), init, fuel - 1),
            None => Ty::Unknown,
        }
    }

    fn ident_type(&self, env: &Env, n: &str, fuel: usize) -> (r: Ty)
        ensures
            r.deep_view() == ident_type_at(self.deep_view(), env.deep_view(), n@, fuel as nat),
        decreases fuel, 1int, ExprView::Null, 0int,
    {
        if let Some(t) = env.vars.find(n) {
            return t.dup();
        }
        match self.resolve_symbol(&env.module, n) {
            Some(Symbol::Const { module, name }) => self.const_type(&module, &name, fuel),
            Some(Symbol::Enum { module, name }) => Ty::EnumObject { module, name },
            Some(Symbol::External(canon)) => Ty::External(canon),
            Some(Symbol::Function(id)) => Ty::Function(id),
            _ => Ty::Unknown,
        }
    }

    fn type_of_member(&self, ot: Ty, property: &str) -> (r: Ty)
        ensures
            r.deep_view() == member_type(self.deep_view(), ot.deep_view(), property@),
    {
        match &ot {
            Ty::Class(id) => match self.lookup_method(id, property) {
                Ok(Some(_)) => Ty::Unknown,
                Err(ext) => {
                    let ft = self.field_type(&ot, property);
                    match ft {
                        Ty::Unknown => Ty::External(text::cat3(&ext, ".", property)),
                        _ => ft,
                    }
                },
                Ok(None) => self.field_type(&ot, property),
            },
            _ => self.field_type(&ot, property),
        }
    }

    fn prop_types(&self, env: &Env, props: &Vec<(String, Expr)>, fuel: usize) -> (r: Vec<
        (String, Ty),
    >)
        ensures
            ty_fields_view(r@) == prop_types_at(
                self.deep_view(),
                env.deep_view(),
                expr_fields_view(props@),
                fuel as nat,
                0,
            ),
        decreases fuel, 2int, props, props@.len() + 1,
    {
        broadcast use ty_fields_view_is_deep;

        let ghost ix = self.deep_view();
        let ghost ev = env.deep_view();
        let ghost pv = expr_fields_view(props@);
        let mut out: Vec<(String, Ty)> = list::empty();
        let mut i: usize = 0;
        while i < props.len()
            invariant
                i <= props@.len(),
                ix == self.deep_view(),
                ev == env.deep_view(),
                pv == expr_fields_view(props@),
                out.deep_view() + prop_types_at(ix, ev, pv, fuel as nat, i as int)
                    == prop_types_at(ix, ev, pv, fuel as nat, 0),
            decreases props@.len() - i,
        {
            assert(pv[i as int].1 == expr_view(props@[i as int].1));
            list::push(&mut out, (props[i].0.dup(), self.type_depth(env, &props[i].1, fuel)));
            i += 1;
        }
        out
    }

    #[verifier::rlimit(30)]
    fn type_depth(&self, env: &Env, e: &Expr, fuel: usize) -> (r: Ty)
        ensures
            r.deep_view() == type_at(
                self.deep_view(),
                env.deep_view(),
                e.deep_view(),
                fuel as nat,
            ),
        decreases fuel, 2int, e, 0int,
    {
        match e {
            Expr::This => match &env.this_class {
                Some(c) => Ty::Class(c.dup()),
                None => Ty::Unknown,
            },
            Expr::Ident(n) => self.ident_type(env, n, fuel),
            Expr::Member { object, property } => {
                let ot = self.type_depth(env, object, fuel);
                self.type_of_member(ot, property)
            },
            Expr::Index { object, index } => match self.type_depth(env, object, fuel) {
                Ty::Array(el) => *el,
                _ => Ty::Unknown,
            },
            Expr::Await(inner) => self.type_depth(env, inner, fuel),
            Expr::New { callee, args, loc } => {
                let ghost cv = expr_view(**callee);
                match &**callee {
                    Expr::Ident(n) => match self.resolve_symbol(&env.module, n) {
                        Some(Symbol::Class(id)) => Ty::Class(id),
                        Some(Symbol::External(canon)) => Ty::External(text::cat2(&canon, "#")),
                        _ => Ty::Unknown,
                    },
                    _ => Ty::Unknown,
                }
            },
            Expr::Call(call) => {
                let ghost cv = call_view(**call);
                match self.callee_depth(env, &call.callee, fuel) {
                    Callee::Internal(id) => match self.function(&id) {
                        Some(f) => match &f.return_type {
                            Some(rt) => self.resolve_type(&module_of(&id), rt),
                            None => Ty::Unknown,
                        },
                        None => Ty::Unknown,
                    },
                    Callee::External(canon) => Ty::External(canon),
                    Callee::Unresolved(_) => Ty::Unknown,
                }
            },
            Expr::Closure(id) => Ty::Function(id.dup()),
            Expr::Object(props) => Ty::Object(self.prop_types(env, props, fuel)),
            _ => Ty::Unknown,
        }
    }

    fn callee_of_member(&self, ot: Ty, callee: &Expr, object: &Expr, property: &str) -> (r: Callee)
        ensures
            r.deep_view() == member_callee(
                self.deep_view(),
                ot.deep_view(),
                callee.deep_view(),
                object.deep_view(),
                property@,
            ),
    {
        match &ot {
            Ty::Class(id) => match self.lookup_method(id, property) {
                Ok(Some(m)) => Callee::Internal(m),
                Ok(None) => match self.field_type(&ot, property) {
                    Ty::Function(f) => Callee::Internal(f),
                    _ => Callee::Unresolved(render(callee)),
                },
                Err(ext) => Callee::External(text::cat4(&ext, ".", property, "()")),
            },
            Ty::External(canon) => Callee::External(text::cat4(canon, ".", property, "()")),
            Ty::Array(_) => Callee::External(text::cat3("Array#.", property, "()")),
            Ty::Unknown => match object {
                Expr::Ident(n) => Callee::External(text::cat4(n, ".", property, "()")),
                _ => Callee::Unresolved(render(callee)),
            },
            _ => Callee::Unresolved(render(callee)),
        }
    }

    fn callee_depth(&self, env: &Env, callee: &Expr, fuel: usize) -> (r: Callee)
        ensures
            r.deep_view() == callee_at(
                self.deep_view(),
                env.deep_view(),
                callee.deep_view(),
                fuel as nat,
            ),
        decreases fuel, 2int, callee, 1int,
    {
        match callee {
            Expr::Member { object, property } => {
                let ot = self.type_depth(env, object, fuel);
                self.callee_of_member(ot, callee, object, property)
            },
            Expr::Ident(n) => match self.ident_type(env, n, fuel) {
                Ty::Function(id) => Callee::Internal(id),
                Ty::External(canon) => Callee::External(text::cat2(&canon, "()")),
                _ => if env.vars.contains_key(n) {
                    Callee::Unresolved(n.dup())
                } else {
                    Callee::External(text::cat2(n, "()"))
                },
            },
            other => Callee::Unresolved(render(other)),
        }
    }

    /// The type of an expression.
    pub fn type_of(&self, env: &Env, e: &Expr) -> (r: Ty)
        ensures
            r.deep_view() == typed(self.deep_view(), env.deep_view(), e.deep_view()),
    {
        self.type_depth(env, e, self.consts)
    }

    /// What a call of `callee` resolves to.
    pub fn resolve_call(&self, env: &Env, callee: &Expr) -> (r: Callee)
        ensures
            r.deep_view() == called(self.deep_view(), env.deep_view(), callee.deep_view()),
    {
        self.callee_depth(env, callee, self.consts)
    }
}

// ---- constants

/// The text of a template from index `i` on, after `acc`, where its expressions are constant.
pub open spec fn template_at(
    ix: IndexView,
    env: EnvView,
    quasis: Seq<Text>,
    exprs: Seq<ExprView>,
    depth: int,
    i: int,
    acc: Text,
) -> Option<Text>
    decreases 9 - depth, 0int, quasis.len() - i,
{
    if depth > 8 {
        None
    } else if 0 <= i < quasis.len() {
        if i < exprs.len() {
            match constant_at(ix, env, exprs[i], depth + 1) {
                Some(v) => template_at(
                    ix,
                    env,
                    quasis,
                    exprs,
                    depth,
                    i + 1,
                    acc + quasis[i] + v,
                ),
                None => None,
            }
        } else {
            template_at(ix, env, quasis, exprs, depth, i + 1, acc + quasis[i])
        }
    } else {
        Some(acc)
    }
}

/// The constant text that an expression stands for, found in at most eight steps through
/// templates and constants.
pub open spec fn constant_at(ix: IndexView, env: EnvView, e: ExprView, depth: int) -> Option<Text>
    decreases 9 - depth, 1int, 0int,
{
    if depth > 8 {
        None
    } else {
        match e {
            ExprView::Str(s) => Some(s),
            ExprView::Num(n) => Some(n.text),
            ExprView::Bool(b) => Some(bool_text(b)),
            ExprView::Null => Some("null"@),
            ExprView::Template { quasis, exprs } => template_at(
                ix,
                env,
                quasis,
                exprs,
                depth,
                0,
                seq![],
            ),
            ExprView::Ident(n) => if lookup(env.vars, n) is Some {
                None
            } else {
                match symbol(ix.program, env.module, n) {
                    Some(SymbolView::Const { module, name }) => match lookup(
                        ix.program.modules,
                        module,
                    ) {
                        None => None,
                        Some(m) => match const_named(m.consts, name, 0) {
                            None => None,
                            Some(c) => match c.init {
                                None => None,
                                Some(init) => constant_at(
                                    ix,
                                    module_env(module),
                                    init,
                                    depth + 1,
                                ),
                            },
                        },
                    },
                    _ => None,
                }
            },
            ExprView::Member { object, property } => match typed(ix, env, *object) {
                TyView::EnumObject { module, name } => match lookup(ix.program.modules, module) {
                    None => None,
                    Some(m) => match enum_named(m.enums, name, 0) {
                        None => None,
                        Some(en) => lookup(en.members, property),
                    },
                },
                _ => None,
            },
            _ => None,
        }
    }
}

/// The constant text that an expression stands for.
pub open spec fn constant(ix: IndexView, env: EnvView, e: ExprView) -> Option<Text> {
    constant_at(ix, env, e, 0)
}

/// `Type.field` for a member of a value of type `ty`: of a record, or of a class where the
/// field is data, not an injected collaborator.
pub open spec fn data_field(ix: IndexView, ty: TyView, property: Text) -> Option<Text> {
    match ty {
        TyView::Record { name, module } => Some(name + "."@ + property),
        TyView::Class(id) => match lookup(ix.classes, id) {
            None => None,
            Some(c) => match lookup(c.fields, property) {
                None => None,
                Some(t) => match type_in(ix.program, module_part(id), t) {
                    TyView::Class(_) => None,
                    TyView::External(_) => None,
                    _ => Some(c.name + "."@ + property),
                },
            },
        },
        _ => None,
    }
}

/// `Type.field` for a member access on a typed record.
pub open spec fn field_at(ix: IndexView, env: EnvView, object: ExprView, property: Text) -> Option<
    Text,
> {
    data_field(ix, typed(ix, env, object), property)
}

impl<'p> Index<'p> {
    fn template_depth(
        &self,
        env: &Env,
        quasis: &Vec<String>,
        exprs: &Vec<Expr>,
        depth: u32,
    ) -> (r: Option<String>)
        requires
            depth <= 8,
        ensures
            r.deep_view() == template_at(
                self.deep_view(),
                env.deep_view(),
                quasis.deep_view(),
                expr_list_view(exprs@),
                depth as int,
                0,
                seq![],
            ),
        decreases 9 - depth, 0int, 0int,
    {
        let ghost ix = self.deep_view();
        let ghost ev = env.deep_view();
        let ghost qv = quasis.deep_view();
        let ghost xv = expr_list_view(exprs@);
        let mut out = String::new();
        let mut i: usize = 0;
        while i < quasis.len()
            invariant
                i <= quasis@.len(),
                depth <= 8,
                ix == self.deep_view(),
                ev == env.deep_view(),
                qv == quasis.deep_view(),
                xv == expr_list_view(exprs@),
                template_at(ix, ev, qv, xv, depth as int, i as int, out@) == template_at(
                    ix,
                    ev,
                    qv,
                    xv,
                    depth as int,
                    0,
                    seq![],
                ),
            decreases quasis@.len() - i,
        {
            out.append(&quasis[i]);
            if i < exprs.len() {
                match self.const_str_depth(env, &exprs[i], depth + 1) {
                    Some(v) => {
                        out.append(&v);
                    },
                    None => {
                        return None;
                    },
                }
            }
            i += 1;
        }
        Some(out)
    }

    fn const_str_depth(&self, env: &Env, e: &Expr, depth: u32) -> (r: Option<String>)
        requires
            depth <= 9,
        ensures
            r.deep_view() == constant_at(
                self.deep_view(),
                env.deep_view(),
                e.deep_view(),
                depth as int,
            ),
        decreases 9 - depth, 1int, 0int,
    {
        if depth > 8 {
            return None;
        }
        match e {
            Expr::Str(s) => Some(s.dup()),
            Expr::Num(n) => Some(n.text.dup()),
            Expr::Bool(b) => Some(bool_str(*b)),
            Expr::Null => Some("null".to_owned()),
            Expr::Template { quasis, exprs } => self.template_depth(env, quasis, exprs, depth),
            Expr::Ident(n) => {
                if env.vars.contains_key(n) {
                    return None;
                }
                match self.resolve_symbol(&env.module, n) {
                    Some(Symbol::Const { module, name }) => match self.program.modules.find(
                        &module,
                    ) {
                        None => None,
                        Some(m) => match find_const(&m.consts, &name) {
                            None => None,
                            Some(c) => match &c.init {
                                None => None,
                                Some(init) => self.const_str_depth(
                                    &env_of_module(&module),
                                    init,
                                    depth + 1,
                                ),
                            },
                        },
                    },
                    _ => None,
                }
            },
            Expr::Member { object, property } => match self.type_of(env, object) {
                Ty::EnumObject { module, name } => match self.program.modules.find(&module) {
                    None => None,
                    Some(m) => match crate::resolve::find_enum(&m.enums, &name) {
                        None => None,
                        Some(en) => match en.members.get(property) {
                            Some(v) => Some(v.dup()),
                            None => None,
                        },
                    },
                },
                _ => None,
            },
            _ => None,
        }
    }

    /// Evaluates an expression to a constant string, following constants and enum members.
    pub fn const_str(&self, env: &Env, e: &Expr) -> (r: Option<String>)
        ensures
            r.deep_view() == constant(self.deep_view(), env.deep_view(), e.deep_view()),
    {
        self.const_str_depth(env, e, 0)
    }

    /// `Type.field` for a member access on a typed record, if any.
    pub fn field_path(&self, env: &Env, object: &Expr, property: &str) -> (r: Option<String>)
        ensures
            r.deep_view() == field_at(
                self.deep_view(),
                env.deep_view(),
                object.deep_view(),
                property@,
            ),
    {
        match self.type_of(env, object) {
            Ty::Record { name, module } => Some(text::cat3(&name, ".", property)),
            Ty::Class(id) => match self.class(&id) {
                None => None,
                Some(c) => match c.fields.find(property) {
                    None => None,
                    Some(t) => match self.resolve_type(&module_of(&id), t) {
                        Ty::Class(_) => None,
                        Ty::External(_) => None,
                        _ => Some(text::cat3(&c.name, ".", property)),
                    },
                },
            },
            _ => None,
        }
    }
}

} // verus!
