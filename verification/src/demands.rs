//! What the options of a call demand of its callers, and what a schema demands of its values.

use crate::extract::{access_in_args, access_in_props, access_value, access_values, requirements, CxView};
use crate::ir::{CallView, ExprView, LocView};
use crate::model::AccessFactView;
use crate::resolve::{EnvView, IndexView};
use crate::schema::{schema_chain, schema_text, ReaderView};
use crate::text;
use crate::text::Text;
use crate::typing::constant;
use vstd::prelude::*;

verus! {

// ---- access

/// The expressions that an option gives: each of a list, or the one.
pub open spec fn given(e: ExprView) -> Seq<ExprView> {
    match e {
        ExprView::Array(xs) => xs,
        _ => seq![e],
    }
}

/// A demand stands among others.
pub open spec fn is_demanded(xs: Seq<AccessFactView>, requirement: Text, grant: bool, loc: LocView) -> bool {
    exists|i: int|
        0 <= i < xs.len() && (#[trigger] xs[i]).requirement == requirement && xs[i].grant == grant
            && xs[i].loc == loc
}

proof fn demanded_in_sum(
    a: Seq<AccessFactView>,
    b: Seq<AccessFactView>,
    requirement: Text,
    grant: bool,
    loc: LocView,
)
    ensures
        is_demanded(a, requirement, grant, loc) || is_demanded(b, requirement, grant, loc)
            ==> is_demanded(a + b, requirement, grant, loc),
{
    let c = a + b;
    if is_demanded(a, requirement, grant, loc) {
        let i = choose|i: int|
            0 <= i < a.len() && (#[trigger] a[i]).requirement == requirement && a[i].grant == grant
                && a[i].loc == loc;
        assert(c[i] == a[i]);
    }
    if is_demanded(b, requirement, grant, loc) {
        let i = choose|i: int|
            0 <= i < b.len() && (#[trigger] b[i]).requirement == requirement && b[i].grant == grant
                && b[i].loc == loc;
        assert(c[a.len() + i] == b[i]);
    }
}

proof fn values_are(cx: CxView, es: Seq<ExprView>, i: int, n: int)
    requires
        0 <= i <= n < es.len(),
    ensures
        access_values(cx, es, i).len() == es.len() - i,
        access_values(cx, es, i)[n - i] == access_value(cx, es[n]),
    decreases es.len() - i,
{
    if i < n {
        values_are(cx, es, i + 1, n);
    } else if i + 1 < es.len() {
        values_are(cx, es, i + 1, i + 1);
    } else {
        assert(access_values(cx, es, i + 1).len() == 0);
    }
}

proof fn required_from(key: Text, values: Seq<Text>, grant: bool, loc: LocView, i: int, n: int)
    requires
        0 <= i <= n < values.len(),
    ensures
        is_demanded(requirements(key, values, grant, loc, i), key + "="@ + values[n], grant, loc),
    decreases n - i,
{
    let first = seq![AccessFactView { requirement: key + "="@ + values[i], grant, loc }];
    let rest = requirements(key, values, grant, loc, i + 1);
    demanded_in_sum(first, rest, key + "="@ + values[n], grant, loc);
    if i < n {
        required_from(key, values, grant, loc, i + 1, n);
    } else {
        assert(first[0].requirement == key + "="@ + values[n]);
    }
}

proof fn demanded_in_props(cx: CxView, props: Seq<(Text, ExprView)>, loc: LocView, i: int, k: int, n: int)
    requires
        0 <= i <= k < props.len(),
        cx.scene.cat.access.keys.contains(props[k].0),
        0 <= n < given(props[k].1).len(),
    ensures
        is_demanded(
            access_in_props(cx, props, loc, i),
            props[k].0 + "="@ + access_value(cx, given(props[k].1)[n]),
            cx.scene.cat.access.grants.contains(props[k].0),
            loc,
        ),
    decreases k - i,
{
    let requirement = props[k].0 + "="@ + access_value(cx, given(props[k].1)[n]);
    let grant = cx.scene.cat.access.grants.contains(props[k].0);
    let rest = access_in_props(cx, props, loc, i + 1);
    let all = access_in_props(cx, props, loc, i);
    let here = all.take(all.len() - rest.len());
    assert(all =~= here + rest);
    demanded_in_sum(here, rest, requirement, grant, loc);
    if i < k {
        demanded_in_props(cx, props, loc, i + 1, k, n);
    } else {
        let values = match props[k].1 {
            ExprView::Array(xs) => access_values(cx, xs, 0),
            e => seq![access_value(cx, e)],
        };
        match props[k].1 {
            ExprView::Array(xs) => {
                values_are(cx, xs, 0, n);
            },
            _ => {},
        }
        assert(values[n] == access_value(cx, given(props[k].1)[n]));
        assert(here =~= requirements(props[k].0, values, grant, loc, 0));
        required_from(props[k].0, values, grant, loc, 0, n);
    }
}

proof fn demanded_in_args(
    cx: CxView,
    args: Seq<ExprView>,
    props: Seq<(Text, ExprView)>,
    loc: LocView,
    i: int,
    a: int,
    k: int,
    n: int,
)
    requires
        0 <= i <= a < args.len(),
        args[a] == ExprView::Object(props),
        0 <= k < props.len(),
        cx.scene.cat.access.keys.contains(props[k].0),
        0 <= n < given(props[k].1).len(),
    ensures
        is_demanded(
            access_in_args(cx, args, loc, i),
            props[k].0 + "="@ + access_value(cx, given(props[k].1)[n]),
            cx.scene.cat.access.grants.contains(props[k].0),
            loc,
        ),
    decreases a - i,
{
    let requirement = props[k].0 + "="@ + access_value(cx, given(props[k].1)[n]);
    let grant = cx.scene.cat.access.grants.contains(props[k].0);
    let rest = access_in_args(cx, args, loc, i + 1);
    let all = access_in_args(cx, args, loc, i);
    let here = all.take(all.len() - rest.len());
    assert(all =~= here + rest);
    demanded_in_sum(here, rest, requirement, grant, loc);
    if i < a {
        demanded_in_args(cx, args, props, loc, i + 1, a, k, n);
    } else {
        assert(here =~= access_in_props(cx, props, loc, 0));
        demanded_in_props(cx, props, loc, 0, k, n);
    }
}

/// Every value that an option of access gives is demanded, as a grant where the option is one of
/// those that grant.
pub proof fn options_of_access_are_demanded(
    cx: CxView,
    args: Seq<ExprView>,
    props: Seq<(Text, ExprView)>,
    loc: LocView,
    a: int,
    k: int,
    n: int,
)
    requires
        0 <= a < args.len(),
        args[a] == ExprView::Object(props),
        0 <= k < props.len(),
        cx.scene.cat.access.keys.contains(props[k].0),
        0 <= n < given(props[k].1).len(),
    ensures
        is_demanded(
            access_in_args(cx, args, loc, 0),
            props[k].0 + "="@ + access_value(cx, given(props[k].1)[n]),
            cx.scene.cat.access.grants.contains(props[k].0),
            loc,
        ),
{
    demanded_in_args(cx, args, props, loc, 0, a, k, n);
}

/// Options that are none of access demand nothing.
pub proof fn other_options_demand_nothing(cx: CxView, props: Seq<(Text, ExprView)>, loc: LocView, i: int)
    requires
        forall|k: int| 0 <= k < props.len() ==> !cx.scene.cat.access.keys.contains((#[trigger] props[k]).0),
    ensures
        access_in_props(cx, props, loc, i).len() == 0,
    decreases props.len() - i,
{
    if 0 <= i < props.len() {
        other_options_demand_nothing(cx, props, loc, i + 1);
        assert(!cx.scene.cat.access.keys.contains(props[i].0));
    }
}

/// A literal is the constant that it writes.
pub proof fn literals_are_constants(ix: IndexView, env: EnvView, s: Text)
    ensures
        constant(ix, env, ExprView::Str(s)) == Some(s),
        constant(ix, env, ExprView::Bool(true)) == Some("true"@),
        constant(ix, env, ExprView::Bool(false)) == Some("false"@),
        constant(ix, env, ExprView::Null) == Some("null"@),
{
}

// ---- schemas

/// A step of a schema is said behind what comes before it, unless it only describes; then nothing
/// is said of it.
pub proof fn steps_of_schemas_are_said(
    r: ReaderView,
    c: CallView,
    object: ExprView,
    property: Text,
    collect: bool,
    fields: Seq<(Text, Text)>,
    fuel: nat,
)
    requires
        c.callee == (ExprView::Member { object: Box::new(object), property }),
    ensures
        ({
            let said = schema_chain(r, ExprView::Call(Box::new(c)), collect, fields, fuel);
            let head = schema_text(r, object, collect, fields, fuel);
            &&& r.cat.schema.docs.contains(property) ==> said == head
            &&& !r.cat.schema.docs.contains(property) ==> text::begins(said.0, head.0)
                && text::has_text(said.0, property + "("@) && said.0.len() > head.0.len()
        }),
{
    let said = schema_chain(r, ExprView::Call(Box::new(c)), collect, fields, fuel);
    let head = schema_text(r, object, collect, fields, fuel).0;
    let p = property + "("@;
    reveal_strlit("(");
    assert("("@.len() == 1);
    if !r.cat.schema.docs.contains(property) {
        let at = if head.len() == 0 {
            0int
        } else {
            (head + "."@).len() as int
        };
        assert(said.0.subrange(0, head.len() as int) =~= head);
        assert(text::begins(said.0, head));
        assert(said.0.subrange(at, at + p.len()) =~= p);
        assert(text::occurs_at(said.0, p, at));
    }
}

} // verus!
