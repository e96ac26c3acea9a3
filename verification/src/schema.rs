//! Validation schemas declared as module constants (`export const XSchema = z.object({…})`).
//! Each field is rendered as its constraints, with documentation-only calls
//! (`describe`, `meta`, …) left out, so a transition sees what input is accepted.

use crate::catalog::{Catalog, CatalogView};
use crate::ir::{
    call_view, expr_fields_view, expr_list_view, expr_view, Call, Const, ConstView, Expr, ExprView,
    Module, ModuleView,
};
use crate::list;
use crate::list::Plain;
use crate::model::{SchemaFact, SchemaFactView};
use crate::ordered;
use crate::ordered::{lookup, put, sorted, SortedMap};
use crate::resolve::{const_named, find_const, Env, EnvView, Index, IndexView, Ty, TyView};
use crate::text;
use crate::text::Text;
use crate::typing::{constant, env_of_module, expr_text, module_env, render, typed};
use vstd::prelude::*;

verus! {

/// What schemas are read with.
pub struct Reader<'a, 'p> {
    pub ix: &'a Index<'p>,
    pub cat: &'a Catalog,
    pub env: &'a Env,
}

/// The view of [`Reader`].
#[verifier::ext_equal]
pub struct ReaderView {
    pub ix: IndexView,
    pub cat: CatalogView,
    pub env: EnvView,
}

impl<'a, 'p> DeepView for Reader<'a, 'p> {
    type V = ReaderView;

    open spec fn deep_view(&self) -> ReaderView {
        ReaderView {
            ix: self.ix.deep_view(),
            cat: self.cat.deep_view(),
            env: self.env.deep_view(),
        }
    }
}

/// The name at the root of a chain of members and calls.
pub open spec fn chain_root(e: ExprView) -> Option<ExprView>
    decreases e,
{
    match e {
        ExprView::Call(c) => chain_root(c.callee),
        ExprView::Member { object, property } => chain_root(*object),
        ExprView::Ident(_) => Some(e),
        _ => None,
    }
}

/// A canonical name belongs to a schema library.
pub open spec fn is_library(cat: CatalogView, canon: Text) -> bool {
    exists|i: int|
        0 <= i < cat.schema.roots.len() && (canon == #[trigger] cat.schema.roots[i] || text::begins(
            canon,
            cat.schema.roots[i] + "."@,
        ))
}

/// An expression is a chain rooted at a schema library (directly or through another schema).
pub open spec fn is_schema_chain(r: ReaderView, e: ExprView) -> bool {
    match chain_root(e) {
        Some(root) => match typed(r.ix, r.env, root) {
            TyView::External(canon) => is_library(r.cat, canon),
            _ => false,
        },
        None => false,
    }
}

/// The initializer of a constant of the module.
pub open spec fn initializer(r: ReaderView, name: Text) -> Option<ExprView> {
    match lookup(r.ix.program.modules, r.env.module) {
        Some(m) => match const_named(m.consts, name, 0) {
            Some(c) => c.init,
            None => None,
        },
        None => None,
    }
}

/// The object literal that the only argument is, directly or as a constant of the module.
pub open spec fn shape_of(r: ReaderView, args: Seq<ExprView>) -> Option<Seq<(Text, ExprView)>> {
    if args.len() == 1 {
        match args[0] {
            ExprView::Ident(n) => match initializer(r, n) {
                Some(ExprView::Object(props)) => Some(props),
                _ => None,
            },
            ExprView::Object(props) => Some(props),
            _ => None,
        }
    } else {
        None
    }
}

/// The name of a method that takes an object shape.
pub open spec fn takes_shape(method: Text) -> bool {
    method == "object"@ || method == "strictObject"@ || method == "looseObject"@ || method
        == "extend"@
}

/// The fields with those of a shape from index `i` on.
pub open spec fn shape_fields(
    r: ReaderView,
    props: Seq<(Text, ExprView)>,
    i: int,
    fields: Seq<(Text, Text)>,
) -> Seq<(Text, Text)>
    decreases 0int, 1nat, props, props.len() - i,
{
    if 0 <= i < props.len() {
        shape_fields(
            r,
            props,
            i + 1,
            put(fields, props[i].0, schema_text(r, props[i].1, false, seq![], 0).0),
        )
    } else {
        fields
    }
}

/// The texts of the arguments from index `i` on.
pub open spec fn schema_args(r: ReaderView, es: Seq<ExprView>, i: int) -> Seq<Text>
    decreases 0int, 1nat, es, es.len() - i,
{
    if 0 <= i < es.len() {
        seq![schema_arg(r, es[i])] + schema_args(r, es, i + 1)
    } else {
        seq![]
    }
}

/// The texts `key: value` of the properties from index `i` on.
pub open spec fn schema_props(r: ReaderView, props: Seq<(Text, ExprView)>, i: int) -> Seq<Text>
    decreases 0int, 1nat, props, props.len() - i,
{
    if 0 <= i < props.len() {
        seq![props[i].0 + ": "@ + schema_text(r, props[i].1, false, seq![], 0).0] + schema_props(
            r,
            props,
            i + 1,
        )
    } else {
        seq![]
    }
}

/// An argument in a constraint: strings quoted, numbers and booleans as written.
pub open spec fn schema_arg(r: ReaderView, a: ExprView) -> Text
    decreases 0int, 1nat, a, 1int,
{
    match constant(r.ix, r.env, a) {
        Some(v) => match a {
            ExprView::Num(_) => v,
            ExprView::Bool(_) => v,
            ExprView::Null => v,
            _ => text::quoted(v),
        },
        None => match a {
            ExprView::Object(props) => "{"@ + text::joined(
                sorted(schema_props(r, props, 0)),
                ", "@,
            ) + "}"@,
            ExprView::Array(xs) => "["@ + text::joined(schema_args(r, xs, 0), ", "@) + "]"@,
            ExprView::Call(_) => schema_chain(r, a, false, seq![], 0).0,
            ExprView::Member { object, property } => schema_chain(r, a, false, seq![], 0).0,
            ExprView::Closure(_) => "<fn>"@,
            _ => expr_text(a),
        },
    }
}

/// The constraint text of a link of a chain, and the fields that the chain has so far. Where
/// `collect` holds, the members of the chain's object shape (`object({…})`, `.extend({…})`, and
/// those of a schema constant it is built from) go to the fields, and the shape is `{…}` in
/// the text.
pub open spec fn schema_chain(
    r: ReaderView,
    e: ExprView,
    collect: bool,
    fields: Seq<(Text, Text)>,
    fuel: nat,
) -> (Text, Seq<(Text, Text)>)
    decreases (if collect { 1int } else { 0int }), fuel + 1, e, 0int,
{
    match e {
        ExprView::Call(c) => match c.callee {
            ExprView::Member { object, property } => {
                let (head, fields) = schema_text(r, *object, collect, fields, fuel);
                if r.cat.schema.docs.contains(property) {
                    (head, fields)
                } else {
                    let shape = shape_of(r, c.args);
                    let shaped = collect && takes_shape(property) && shape is Some;
                    let args = if shaped {
                        "{…}"@
                    } else {
                        text::joined(schema_args(r, c.args, 0), ", "@)
                    };
                    let fields = if shaped {
                        shape_fields(r, shape->0, 0, fields)
                    } else {
                        fields
                    };
                    (
                        if head.len() == 0 {
                            property + "("@ + args + ")"@
                        } else {
                            head + "."@ + property + "("@ + args + ")"@
                        },
                        fields,
                    )
                }
            },
            _ => (expr_text(e), fields),
        },
        ExprView::Member { object, property } => {
            let (head, fields) = schema_text(r, *object, collect, fields, fuel);
            (
                if head.len() == 0 {
                    property
                } else {
                    head + "."@ + property
                },
                fields,
            )
        },
        ExprView::Ident(n) => if is_root_import(r, typed(r.ix, r.env, e)) {
            (seq![], fields)
        } else {
            let fields = match initializer(r, n) {
                Some(init) => if collect && fuel > 0 && is_schema_chain(r, init) {
                    schema_text(r, init, true, fields, (fuel - 1) as nat).1
                } else {
                    fields
                },
                None => fields,
            };
            (n, fields)
        },
        _ => (seq![], fields),
    }
}

/// The library root (`z`, a plain import), which the text leaves out: `z.string()` is
/// `string()`. Schema constants built from it keep their name.
pub open spec fn is_root_import(r: ReaderView, ty: TyView) -> bool {
    match ty {
        TyView::External(canon) => is_library(r.cat, canon) && !text::has_text(canon, "("@),
        _ => false,
    }
}

/// The canonical constraint text of an expression, and the fields of its object shape.
pub open spec fn schema_text(
    r: ReaderView,
    e: ExprView,
    collect: bool,
    fields: Seq<(Text, Text)>,
    fuel: nat,
) -> (Text, Seq<(Text, Text)>)
    decreases (if collect { 1int } else { 0int }), fuel + 1, e, 2int,
{
    match e {
        ExprView::Call(_) => schema_chain(r, e, collect, fields, fuel),
        ExprView::Member { object, property } => schema_chain(r, e, collect, fields, fuel),
        ExprView::Ident(_) => schema_chain(r, e, collect, fields, fuel),
        _ => (schema_arg(r, e), fields),
    }
}

/// The schema that a constant is, with its fields. Anything beyond the plain object
/// (refinements, `.strict()`, a schema that is no object) is kept under `*`.
pub open spec fn schema_of(r: ReaderView, c: ConstView) -> Option<(Text, SchemaFactView)> {
    match c.init {
        Some(init) => if is_schema_chain(r, init) {
            let (whole, fields) = schema_text(r, init, true, seq![], r.ix.consts as nat);
            Some(
                (
                    r.env.module + "::"@ + c.name,
                    SchemaFactView {
                        fields: if whole == "object({…})"@ && fields.len() > 0 {
                            fields
                        } else {
                            put(fields, "*"@, whole)
                        },
                        loc: c.loc,
                    },
                ),
            )
        } else {
            None
        },
        None => None,
    }
}

/// The schemas among the constants from index `i` on.
pub open spec fn schemas_from(r: ReaderView, cs: Seq<ConstView>, i: int) -> Seq<
    (Text, SchemaFactView),
>
    decreases cs.len() - i,
{
    if 0 <= i < cs.len() {
        (match schema_of(r, cs[i]) {
            Some(s) => seq![s],
            None => seq![],
        }) + schemas_from(r, cs, i + 1)
    } else {
        seq![]
    }
}

/// The schemas of a module.
pub open spec fn schemas_in(ix: IndexView, cat: CatalogView, m: ModuleView) -> Seq<
    (Text, SchemaFactView),
> {
    schemas_from(ReaderView { ix, cat, env: module_env(m.path) }, m.consts, 0)
}

fn root_of(e: &Expr) -> (r: Option<&Expr>)
    ensures
        r.deep_view() == chain_root(e.deep_view()),
    decreases e,
{
    match e {
        Expr::Call(c) => {
            let ghost cv = call_view(**c);
            root_of(&c.callee)
        },
        Expr::Member { object, property } => root_of(object),
        Expr::Ident(_) => Some(e),
        _ => None,
    }
}

impl<'a, 'p> Reader<'a, 'p> {
    fn is_root(&self, canon: &str) -> (r: bool)
        ensures
            r == is_library(self.deep_view().cat, canon@),
    {
        let ghost roots = self.deep_view().cat.schema.roots;
        let mut i: usize = 0;
        while i < self.cat.schema.roots.len()
            invariant
                i <= self.cat.schema.roots@.len(),
                roots == self.deep_view().cat.schema.roots,
                forall|j: int|
                    0 <= j < i ==> !(canon@ == #[trigger] roots[j] || text::begins(
                        canon@,
                        roots[j] + "."@,
                    )),
            decreases self.cat.schema.roots@.len() - i,
        {
            let root = &self.cat.schema.roots[i];
            if text::same(canon, root) || text::starts_with(canon, &text::cat2(root, ".")) {
                assert(canon@ == roots[i as int] || text::begins(canon@, roots[i as int] + "."@));
                return true;
            }
            i += 1;
        }
        false
    }

    fn is_schema(&self, e: &Expr) -> (r: bool)
        ensures
            r == is_schema_chain(self.deep_view(), e.deep_view()),
    {
        match root_of(e) {
            Some(root) => match self.ix.type_of(self.env, root) {
                Ty::External(canon) => self.is_root(&canon),
                _ => false,
            },
            None => false,
        }
    }

    fn const_init(&self, name: &str) -> (r: Option<&'p Expr>)
        ensures
            r.deep_view() == initializer(self.deep_view(), name@),
    {
        match self.ix.program.modules.get(&self.env.module) {
            Some(m) => match find_const(&m.consts, name) {
                Some(c) => match &c.init {
                    Some(init) => Some(init),
                    None => None,
                },
                None => None,
            },
            None => None,
        }
    }

    fn shape<'b>(&self, args: &'b Vec<Expr>) -> (r: Option<&'b Vec<(String, Expr)>>) where 'p: 'b
        ensures
            match r {
                Some(props) => shape_of(self.deep_view(), expr_list_view(args@)) == Some(
                    expr_fields_view(props@),
                ),
                None => shape_of(self.deep_view(), expr_list_view(args@)) is None,
            },
    {
        let ghost av = expr_list_view(args@);
        if args.len() != 1 {
            return None;
        }
        assert(av[0] == expr_view(args@[0]));
        match &args[0] {
            Expr::Ident(n) => match self.const_init(n) {
                Some(init) => {
                    let ghost iv = expr_view(*init);
                    match init {
                        Expr::Object(props) => Some(props),
                        _ => None,
                    }
                },
                None => None,
            },
            Expr::Object(props) => Some(props),
            _ => None,
        }
    }

    fn shape_members(&self, props: &Vec<(String, Expr)>, fields: &mut SortedMap<String, String>)
        ensures
            final(fields).deep_view() == shape_fields(
                self.deep_view(),
                expr_fields_view(props@),
                0,
                old(fields).deep_view(),
            ),
        decreases 0int, 1nat, props, props@.len() + 1,
    {
        let ghost k = self.deep_view();
        let ghost v = expr_fields_view(props@);
        let ghost before = fields.deep_view();
        let mut i: usize = 0;
        while i < props.len()
            invariant
                i <= props@.len(),
                k == self.deep_view(),
                v == expr_fields_view(props@),
                shape_fields(k, v, i as int, fields.deep_view()) == shape_fields(k, v, 0, before),
            decreases props@.len() - i,
        {
            assert(v[i as int] == (props@[i as int].0@, expr_view(props@[i as int].1)));
            let mut none: SortedMap<String, String> = SortedMap::new();
            let t = self.text(&props[i].1, false, &mut none, 0);
            fields.insert(props[i].0.dup(), t);
            i += 1;
        }
    }

    fn args(&self, es: &Vec<Expr>) -> (r: Vec<String>)
        ensures
            r.deep_view() == schema_args(self.deep_view(), expr_list_view(es@), 0),
        decreases 0int, 1nat, es, es@.len() + 1,
    {
        let ghost k = self.deep_view();
        let ghost v = expr_list_view(es@);
        let mut out: Vec<String> = list::empty();
        let mut i: usize = 0;
        while i < es.len()
            invariant
                i <= es@.len(),
                k == self.deep_view(),
                v == expr_list_view(es@),
                out.deep_view() + schema_args(k, v, i as int) == schema_args(k, v, 0),
            decreases es@.len() - i,
        {
            list::push(&mut out, self.arg(&es[i]));
            i += 1;
        }
        out
    }

    fn props(&self, props: &Vec<(String, Expr)>) -> (r: Vec<String>)
        ensures
            r.deep_view() == schema_props(self.deep_view(), expr_fields_view(props@), 0),
        decreases 0int, 1nat, props, props@.len() + 1,
    {
        let ghost k = self.deep_view();
        let ghost v = expr_fields_view(props@);
        let mut out: Vec<String> = list::empty();
        let mut i: usize = 0;
        while i < props.len()
            invariant
                i <= props@.len(),
                k == self.deep_view(),
                v == expr_fields_view(props@),
                out.deep_view() + schema_props(k, v, i as int) == schema_props(k, v, 0),
            decreases props@.len() - i,
        {
            assert(v[i as int] == (props@[i as int].0@, expr_view(props@[i as int].1)));
            let mut none: SortedMap<String, String> = SortedMap::new();
            let t = self.text(&props[i].1, false, &mut none, 0);
            list::push(&mut out, text::cat3(&props[i].0, ": ", &t));
            i += 1;
        }
        out
    }

    fn arg(&self, a: &Expr) -> (r: String)
        ensures
            r@ == schema_arg(self.deep_view(), a.deep_view()),
        decreases 0int, 1nat, a, 1int,
    {
        if let Some(v) = self.ix.const_str(self.env, a) {
            return match a {
                Expr::Num(_) => v,
                Expr::Bool(_) => v,
                Expr::Null => v,
                _ => text::quote(&v),
            };
        }
        let mut none: SortedMap<String, String> = SortedMap::new();
        match a {
            Expr::Object(props) => {
                let kv = ordered::sort(self.props(props));
                text::cat3("{", &text::join(&kv, ", "), "}")
            },
            Expr::Array(xs) => text::cat3("[", &text::join(&self.args(xs), ", "), "]"),
            Expr::Call(_) => self.chain(a, false, &mut none, 0),
            Expr::Member { object, property } => self.chain(a, false, &mut none, 0),
            Expr::Closure(_) => "<fn>".to_owned(),
            other => render(other),
        }
    }

    fn call_text(
        &self,
        c: &Call,
        head: String,
        property: &str,
        collect: bool,
        fields: &mut SortedMap<String, String>,
        Ghost(fuel): Ghost<nat>,
    ) -> (r: String)
        ensures
            ({
                let args = expr_list_view(c.args@);
                let shape = shape_of(self.deep_view(), args);
                let shaped = collect && takes_shape(property@) && shape is Some;
                let inner = if shaped {
                    "{…}"@
                } else {
                    text::joined(schema_args(self.deep_view(), args, 0), ", "@)
                };
                &&& final(fields).deep_view() == if shaped {
                    shape_fields(self.deep_view(), shape->0, 0, old(fields).deep_view())
                } else {
                    old(fields).deep_view()
                }
                &&& r@ == if head@.len() == 0 {
                    property@ + "("@ + inner + ")"@
                } else {
                    head@ + "."@ + property@ + "("@ + inner + ")"@
                }
            }),
        decreases (if collect { 1int } else { 0int }), fuel + 1, c, 0int,
    {
        let method = text::same(property, "object") || text::same(property, "strictObject")
            || text::same(property, "looseObject") || text::same(property, "extend");
        let shape = if collect && method {
            self.shape(&c.args)
        } else {
            None
        };
        let args = match shape {
            Some(props) => {
                self.shape_members(props, fields);
                "{…}".to_owned()
            },
            None => text::join(&self.args(&c.args), ", "),
        };
        if head.as_str().is_empty() {
            text::cat4(property, "(", &args, ")")
        } else {
            text::cat6(&head, ".", property, "(", &args, ")")
        }
    }

    #[verifier::rlimit(40)]
    fn chain(
        &self,
        e: &Expr,
        collect: bool,
        fields: &mut SortedMap<String, String>,
        fuel: usize,
    ) -> (r: String)
        ensures
            (r@, final(fields).deep_view()) == schema_chain(
                self.deep_view(),
                e.deep_view(),
                collect,
                old(fields).deep_view(),
                fuel as nat,
            ),
        decreases (if collect { 1int } else { 0int }), fuel + 1, e, 0int,
    {
        match e {
            Expr::Call(c) => {
                let ghost cv = call_view(**c);
                let ghost ce = expr_view(c.callee);
                match &c.callee {
                    Expr::Member { object, property } => {
                        let head = self.text(object, collect, fields, fuel);
                        if list::has(&self.cat.schema.docs, property) {
                            head
                        } else {
                            self.call_text(c, head, property, collect, fields, Ghost(fuel as nat))
                        }
                    },
                    _ => render(e),
                }
            },
            Expr::Member { object, property } => {
                let head = self.text(object, collect, fields, fuel);
                if head.as_str().is_empty() {
                    property.dup()
                } else {
                    text::cat3(&head, ".", property)
                }
            },
            Expr::Ident(n) => {
                if let Ty::External(canon) = self.ix.type_of(self.env, e) {
                    if self.is_root(&canon) && !text::contains(&canon, "(") {
                        return String::new();
                    }
                }
                if collect && fuel > 0 {
                    if let Some(init) = self.const_init(n) {
                        if self.is_schema(init) {
                            let _ = self.text(init, true, fields, fuel - 1);
                        }
                    }
                }
                n.dup()
            },
            _ => String::new(),
        }
    }

    fn text(
        &self,
        e: &Expr,
        collect: bool,
        fields: &mut SortedMap<String, String>,
        fuel: usize,
    ) -> (r: String)
        ensures
            (r@, final(fields).deep_view()) == schema_text(
                self.deep_view(),
                e.deep_view(),
                collect,
                old(fields).deep_view(),
                fuel as nat,
            ),
        decreases (if collect { 1int } else { 0int }), fuel + 1, e, 2int,
    {
        match e {
            Expr::Call(_) => self.chain(e, collect, fields, fuel),
            Expr::Member { object, property } => self.chain(e, collect, fields, fuel),
            Expr::Ident(_) => self.chain(e, collect, fields, fuel),
            _ => self.arg(e),
        }
    }

    fn schema(&self, c: &Const) -> (r: Option<(String, SchemaFact)>)
        ensures
            r.deep_view() == schema_of(self.deep_view(), c.deep_view()),
    {
        let init = match &c.init {
            Some(init) => init,
            None => {
                return None;
            },
        };
        if !self.is_schema(init) {
            return None;
        }
        let mut fields: SortedMap<String, String> = SortedMap::new();
        let whole = self.text(init, true, &mut fields, self.ix.consts);
        if !(text::same(&whole, "object({…})") && fields.len() > 0) {
            fields.insert("*".to_owned(), whole);
        }
        Some(
            (
                text::cat3(&self.env.module, "::", &c.name),
                SchemaFact { fields, loc: c.loc.dup() },
            ),
        )
    }
}

/// The schemas that a module declares, by `<file>::<name>`.
pub fn extract(ix: &Index, cat: &Catalog, module: &Module) -> (r: Vec<(String, SchemaFact)>)
    ensures
        r.deep_view() == schemas_in(ix.deep_view(), cat.deep_view(), module.deep_view()),
{
    let env = env_of_module(&module.path);
    let reader = Reader { ix, cat, env: &env };
    let ghost k = reader.deep_view();
    let ghost v = module.consts.deep_view();
    let mut out: Vec<(String, SchemaFact)> = list::empty();
    let mut i: usize = 0;
    while i < module.consts.len()
        invariant
            i <= module.consts@.len(),
            k == reader.deep_view(),
            v == module.consts.deep_view(),
            out.deep_view() + schemas_from(k, v, i as int) == schemas_from(k, v, 0),
        decreases module.consts@.len() - i,
    {
        if let Some(s) = reader.schema(&module.consts[i]) {
            list::push(&mut out, s);
        }
        i += 1;
    }
    out
}

} // verus!
