//! Call shapes of two versions held against each other.

use crate::ir::{Loc, LocView};
use crate::list;
use crate::list::Plain;
use crate::model::{shape_key, CallShape, CallShapeView, EntityView, Model, ModelView};
use crate::ordered::{
    added, added_keeps_order, added_members, lookup, put, rising, set_of, slot, slot_bounds, SortedMap,
    SortedSet,
};
use crate::text::Text;
use vstd::prelude::*;

verus! {

/// What a walk over call shapes has met: the entities it went into, and the shapes.
#[verifier::ext_equal]
pub struct WalkView {
    pub seen: Seq<Text>,
    pub out: Seq<CallShapeView>,
}

/// The conditions of a call: its own, those around the caller and, for a helper seen from its
/// caller, the helper's own guards before the call.
pub open spec fn conditions(c: CallShapeView, outer: Seq<Text>, inlined: bool) -> Seq<Text> {
    set_of(
        c.when + outer + (if inlined {
            c.guards
        } else {
            seq![]
        }),
    )
}

/// The helper that a call goes into: an entity that the other version does not have and that
/// the walk has not been in.
pub open spec fn helper(m: ModelView, known: Seq<(Text, Text)>, seen: Seq<Text>, c: CallShapeView) -> Option<Text> {
    match c.target {
        Some(t) => if lookup(known, t) is None && lookup(m.entities, t) is Some && !seen.contains(t) {
            Some(t)
        } else {
            None
        },
        None => None,
    }
}

/// The walk after the shapes from index `i` on, at most `depth` helpers deep.
pub open spec fn walked_from(
    m: ModelView,
    known: Seq<(Text, Text)>,
    shapes: Seq<CallShapeView>,
    outer: Seq<Text>,
    inlined: bool,
    depth: nat,
    i: int,
    w: WalkView,
) -> WalkView
    decreases depth, shapes.len() - i,
{
    if 0 <= i < shapes.len() {
        let c = shapes[i];
        let when = conditions(c, outer, inlined);
        let plain = WalkView { out: w.out.push(CallShapeView { when, ..c }), ..w };
        let next = match helper(m, known, w.seen, c) {
            Some(t) => if depth == 0 {
                plain
            } else {
                walked_from(
                    m,
                    known,
                    match lookup(m.entities, t) {
                        Some(e) => e.call_shapes,
                        None => seq![],
                    },
                    when,
                    true,
                    (depth - 1) as nat,
                    0,
                    WalkView { seen: added(w.seen, t), ..w },
                )
            },
            None => plain,
        };
        walked_from(m, known, shapes, outer, inlined, depth, i + 1, next)
    } else {
        w
    }
}

/// Call shapes of `id`, with calls to entities absent from the other version (not in `known`)
/// replaced by those entities' own shapes, under the conditions of the call site as well as
/// their own. A walk goes into each entity once, so it is never deeper than the model is large.
pub open spec fn inlined_shapes(m: ModelView, id: Text, known: Seq<(Text, Text)>) -> Seq<CallShapeView> {
    match lookup(m.entities, id) {
        Some(e) => walked_from(
            m,
            known,
            e.call_shapes,
            seq![],
            false,
            m.entities.len(),
            0,
            WalkView { seen: added(seq![], id), out: seq![] },
        ).out,
        None => seq![],
    }
}

/// The shapes from index `i` on by their keys, added to `acc`.
pub open spec fn grouped(
    shapes: Seq<CallShapeView>,
    i: int,
    acc: Seq<(Text, Seq<CallShapeView>)>,
) -> Seq<(Text, Seq<CallShapeView>)>
    decreases shapes.len() - i,
{
    if 0 <= i < shapes.len() {
        let k = shape_key(shapes[i]);
        grouped(
            shapes,
            i + 1,
            put(
                acc,
                k,
                (match lookup(acc, k) {
                    Some(v) => v,
                    None => seq![],
                }).push(shapes[i]),
            ),
        )
    } else {
        acc
    }
}

/// What is left of the groups, and the shapes that no group has, after the shapes from index
/// `i` on each took one of their group.
pub open spec fn taken(
    left: Seq<(Text, Seq<CallShapeView>)>,
    shapes: Seq<CallShapeView>,
    i: int,
    only: Seq<CallShapeView>,
) -> (Seq<(Text, Seq<CallShapeView>)>, Seq<CallShapeView>)
    decreases shapes.len() - i,
{
    if 0 <= i < shapes.len() {
        let k = shape_key(shapes[i]);
        match lookup(left, k) {
            Some(v) => if v.len() > 0 {
                taken(put(left, k, v.drop_last()), shapes, i + 1, only)
            } else {
                taken(left, shapes, i + 1, only.push(shapes[i]))
            },
            None => taken(left, shapes, i + 1, only.push(shapes[i])),
        }
    } else {
        (left, only)
    }
}

/// The shapes of the groups from index `i` on.
pub open spec fn flat(groups: Seq<(Text, Seq<CallShapeView>)>, i: int) -> Seq<CallShapeView>
    decreases groups.len() - i,
{
    if 0 <= i < groups.len() {
        groups[i].1 + flat(groups, i + 1)
    } else {
        seq![]
    }
}

/// Items only in `a`, and only in `b`, comparing shapes as multisets (locations ignored).
pub open spec fn apart(a: Seq<CallShapeView>, b: Seq<CallShapeView>) -> (
    Seq<CallShapeView>,
    Seq<CallShapeView>,
) {
    let (left, only) = taken(grouped(a, 0, seq![]), b, 0, seq![]);
    (flat(left, 0), only)
}

/// The keys of shapes.
pub open spec fn shape_keys(shapes: Seq<CallShapeView>) -> Seq<Text> {
    Seq::new(shapes.len(), |i: int| shape_key(shapes[i]))
}

/// The places of shapes.
pub open spec fn shape_places(shapes: Seq<CallShapeView>) -> Seq<LocView> {
    Seq::new(shapes.len(), |i: int| shapes[i].loc)
}

// ---- execution

/// What a walk over call shapes has met.
pub struct Walk {
    pub seen: SortedSet<String>,
    pub out: Vec<CallShape>,
}

impl DeepView for Walk {
    type V = WalkView;

    open spec fn deep_view(&self) -> WalkView {
        WalkView { seen: self.seen.deep_view(), out: self.out.deep_view() }
    }
}

fn conditions_of(c: &CallShape, outer: &Vec<String>, inlined: bool) -> (r: Vec<String>)
    ensures
        r.deep_view() == conditions(c.deep_view(), outer.deep_view(), inlined),
{
    let mut all = c.when.dup();
    list::extend(&mut all, outer);
    if inlined {
        list::extend(&mut all, &c.guards);
    }
    assert(all.deep_view() =~= c.when.deep_view() + outer.deep_view() + (if inlined {
        c.guards.deep_view()
    } else {
        seq![]
    }));
    SortedSet::of(&all).list()
}

fn walk(
    model: &Model,
    known: &SortedMap<String, String>,
    shapes: &Vec<CallShape>,
    outer: &Vec<String>,
    inlined: bool,
    depth: usize,
    w: Walk,
) -> (r: Walk)
    ensures
        r.deep_view() == walked_from(
            model.deep_view(),
            known.deep_view(),
            shapes.deep_view(),
            outer.deep_view(),
            inlined,
            depth as nat,
            0,
            w.deep_view(),
        ),
    decreases depth,
{
    let ghost m = model.deep_view();
    let ghost kv = known.deep_view();
    let ghost sv = shapes.deep_view();
    let ghost ov = outer.deep_view();
    let ghost start = w.deep_view();
    let mut w = w;
    let mut i: usize = 0;
    while i < shapes.len()
        invariant
            i <= shapes@.len(),
            m == model.deep_view(),
            kv == known.deep_view(),
            sv == shapes.deep_view(),
            ov == outer.deep_view(),
            walked_from(m, kv, sv, ov, inlined, depth as nat, i as int, w.deep_view())
                == walked_from(m, kv, sv, ov, inlined, depth as nat, 0, start),
        decreases shapes@.len() - i,
    {
        let c = &shapes[i];
        assert(sv[i as int] == c.deep_view());
        let ghost wv = w.deep_view();
        let when = conditions_of(c, outer, inlined);
        let into = match &c.target {
            Some(t) => if !known.contains_key(t) && model.entities.contains_key(t)
                && !w.seen.contains(t) && depth > 0 {
                Some(t)
            } else {
                None
            },
            None => None,
        };
        match into {
            Some(t) => {
                w.seen.insert(t.dup());
                if let Some(e) = model.entities.get(t) {
                    w = walk(model, known, &e.call_shapes, &when, true, depth - 1, w);
                }
            },
            None => {
                list::push(
                    &mut w.out,
                    CallShape {
                        shape: c.shape.dup(),
                        target: c.target.dup(),
                        when,
                        guards: c.guards.dup(),
                        loc: c.loc.dup(),
                    },
                );
            },
        }
        i += 1;
    }
    w
}

/// Call shapes of `id`, with calls to entities absent from the other version replaced by those
/// entities' own shapes.
pub fn inline_shapes(model: &Model, id: &str, known: &SortedMap<String, String>) -> (r: Vec<
    CallShape,
>)
    ensures
        r.deep_view() == inlined_shapes(model.deep_view(), id@, known.deep_view()),
{
    match model.entities.find(id) {
        Some(e) => {
            let mut seen: SortedSet<String> = SortedSet::new();
            seen.insert(id.to_owned());
            let w = walk(
                model,
                known,
                &e.call_shapes,
                &list::empty(),
                false,
                model.entities.len(),
                Walk { seen, out: list::empty() },
            );
            w.out
        },
        None => list::empty(),
    }
}

/// Items only in `a`, and only in `b`, comparing shapes as multisets (locations ignored).
pub fn multiset_diff(a: &Vec<CallShape>, b: &Vec<CallShape>) -> (r: (Vec<CallShape>, Vec<CallShape>))
    ensures
        (r.0.deep_view(), r.1.deep_view()) == apart(a.deep_view(), b.deep_view()),
{
    let ghost av = a.deep_view();
    let ghost bv = b.deep_view();
    let mut left: SortedMap<String, Vec<CallShape>> = SortedMap::new();
    let mut i: usize = 0;
    while i < a.len()
        invariant
            i <= a@.len(),
            av == a.deep_view(),
            grouped(av, i as int, left.deep_view()) == grouped(av, 0, seq![]),
        decreases a@.len() - i,
    {
        assert(av[i as int] == a@[i as int].deep_view());
        let k = a[i].key();
        let mut v = match left.get(&k) {
            Some(v) => v.dup(),
            None => list::empty(),
        };
        list::push(&mut v, a[i].dup());
        left.insert(k, v);
        i += 1;
    }
    let ghost groups = left.deep_view();
    let mut only: Vec<CallShape> = list::empty();
    i = 0;
    while i < b.len()
        invariant
            i <= b@.len(),
            bv == b.deep_view(),
            taken(left.deep_view(), bv, i as int, only.deep_view()) == taken(
                groups,
                bv,
                0,
                seq![],
            ),
        decreases b@.len() - i,
    {
        assert(bv[i as int] == b@[i as int].deep_view());
        let k = b[i].key();
        let mut v = match left.get(&k) {
            Some(v) => v.dup(),
            None => list::empty(),
        };
        if v.len() > 0 {
            let ghost before = v.deep_view();
            let _ = v.pop();
            assert(v.deep_view() =~= before.drop_last());
            left.insert(k, v);
        } else {
            list::push(&mut only, b[i].dup());
        }
        i += 1;
    }
    let ghost lv = left.deep_view();
    let mut gone: Vec<CallShape> = list::empty();
    i = 0;
    while i < left.len()
        invariant
            i <= lv.len(),
            lv == left.deep_view(),
            gone.deep_view() + flat(lv, i as int) == flat(lv, 0),
        decreases lv.len() - i,
    {
        list::extend(&mut gone, left.value(i));
        i += 1;
    }
    (gone, only)
}

/// The keys of shapes.
pub fn keys_of(shapes: &Vec<CallShape>) -> (r: Vec<String>)
    ensures
        r.deep_view() == shape_keys(shapes.deep_view()),
{
    let ghost v = shapes.deep_view();
    let mut out: Vec<String> = list::empty();
    let mut i: usize = 0;
    while i < shapes.len()
        invariant
            i <= shapes@.len(),
            v == shapes.deep_view(),
            out.deep_view() == shape_keys(v).take(i as int),
        decreases shapes@.len() - i,
    {
        assert(v[i as int] == shapes@[i as int].deep_view());
        list::push(&mut out, shapes[i].key());
        i += 1;
        assert(out.deep_view() =~= shape_keys(v).take(i as int));
    }
    assert(shape_keys(v).take(v.len() as int) =~= shape_keys(v));
    out
}

/// The places of shapes.
pub fn places_of(shapes: &Vec<CallShape>) -> (r: Vec<Loc>)
    ensures
        r.deep_view() == shape_places(shapes.deep_view()),
{
    let ghost v = shapes.deep_view();
    let mut out: Vec<Loc> = list::empty();
    let mut i: usize = 0;
    while i < shapes.len()
        invariant
            i <= shapes@.len(),
            v == shapes.deep_view(),
            out.deep_view() == shape_places(v).take(i as int),
        decreases shapes@.len() - i,
    {
        assert(v[i as int] == shapes@[i as int].deep_view());
        list::push(&mut out, shapes[i].loc.dup());
        i += 1;
        assert(out.deep_view() =~= shape_places(v).take(i as int));
    }
    assert(shape_places(v).take(v.len() as int) =~= shape_places(v));
    out
}

/// How many of the entities from index `i` on a walk has not been in.
pub open spec fn unseen_from(entities: Seq<(Text, EntityView)>, seen: Seq<Text>, i: int) -> nat
    decreases entities.len() - i,
{
    if 0 <= i < entities.len() {
        (if seen.contains(entities[i].0) {
            0nat
        } else {
            1nat
        }) + unseen_from(entities, seen, i + 1)
    } else {
        0
    }
}

/// The more entities a walk has been in, the fewer are left.
pub proof fn more_seen_less_unseen(
    entities: Seq<(Text, EntityView)>,
    seen: Seq<Text>,
    more: Seq<Text>,
    i: int,
)
    requires
        forall|x: Text| #[trigger] seen.contains(x) ==> more.contains(x),
    ensures
        unseen_from(entities, more, i) <= unseen_from(entities, seen, i),
    decreases entities.len() - i,
{
    if 0 <= i < entities.len() {
        more_seen_less_unseen(entities, seen, more, i + 1);
    }
}

/// Going into an entity leaves fewer of them.
pub proof fn entering_leaves_fewer(
    entities: Seq<(Text, EntityView)>,
    seen: Seq<Text>,
    more: Seq<Text>,
    k: int,
    i: int,
)
    requires
        0 <= i <= k < entities.len(),
        !seen.contains(entities[k].0),
        more.contains(entities[k].0),
        forall|x: Text| #[trigger] seen.contains(x) ==> more.contains(x),
    ensures
        unseen_from(entities, more, i) < unseen_from(entities, seen, i),
    decreases entities.len() - i,
{
    if i < k {
        entering_leaves_fewer(entities, seen, more, k, i + 1);
    } else {
        more_seen_less_unseen(entities, seen, more, i + 1);
    }
}

/// No more entities are left than there are.
pub proof fn unseen_is_bounded(entities: Seq<(Text, EntityView)>, seen: Seq<Text>, i: int)
    requires
        0 <= i <= entities.len(),
    ensures
        unseen_from(entities, seen, i) <= entities.len() - i,
    decreases entities.len() - i,
{
    if i < entities.len() {
        unseen_is_bounded(entities, seen, i + 1);
    }
}

/// A walk with room for every entity it has not been in gives the same whatever its depth, and
/// forgets no entity it was in.
proof fn walks_agree(
    m: ModelView,
    known: Seq<(Text, Text)>,
    shapes: Seq<CallShapeView>,
    outer: Seq<Text>,
    inlined: bool,
    depth: nat,
    deeper: nat,
    i: int,
    w: WalkView,
)
    requires
        rising(w.seen),
        unseen_from(m.entities, w.seen, 0) <= depth,
        unseen_from(m.entities, w.seen, 0) <= deeper,
    ensures
        walked_from(m, known, shapes, outer, inlined, depth, i, w) == walked_from(
            m,
            known,
            shapes,
            outer,
            inlined,
            deeper,
            i,
            w,
        ),
        rising(walked_from(m, known, shapes, outer, inlined, depth, i, w).seen),
        forall|x: Text| #[trigger]
            w.seen.contains(x) ==> walked_from(
                m,
                known,
                shapes,
                outer,
                inlined,
                depth,
                i,
                w,
            ).seen.contains(x),
    decreases depth, shapes.len() - i,
{
    if 0 <= i < shapes.len() {
        let c = shapes[i];
        let when = conditions(c, outer, inlined);
        let plain = WalkView { out: w.out.push(CallShapeView { when, ..c }), ..w };
        match helper(m, known, w.seen, c) {
            Some(t) => {
                let k = slot(m.entities, t);
                slot_bounds(m.entities, t);
                let seen = added(w.seen, t);
                added_keeps_order(w.seen, t);
                assert forall|x: Text| #[trigger] w.seen.contains(x) implies seen.contains(x) by {
                    added_members(w.seen, t, x);
                }
                added_members(w.seen, t, t);
                entering_leaves_fewer(m.entities, w.seen, seen, k, 0);
                let theirs = match lookup(m.entities, t) {
                    Some(e) => e.call_shapes,
                    None => seq![],
                };
                let inner = WalkView { seen, ..w };
                walks_agree(
                    m,
                    known,
                    theirs,
                    when,
                    true,
                    (depth - 1) as nat,
                    (deeper - 1) as nat,
                    0,
                    inner,
                );
                let next = walked_from(m, known, theirs, when, true, (depth - 1) as nat, 0, inner);
                assert forall|x: Text| #[trigger] w.seen.contains(x) implies next.seen.contains(
                    x,
                ) by {
                    assert(inner.seen.contains(x));
                }
                more_seen_less_unseen(m.entities, w.seen, next.seen, 0);
                walks_agree(m, known, shapes, outer, inlined, depth, deeper, i + 1, next);
            },
            None => {
                walks_agree(m, known, shapes, outer, inlined, depth, deeper, i + 1, plain);
            },
        }
    }
}

/// Every helper on the way is gone into: the call shapes of an entity are those of a walk of
/// any depth from the size of the model up.
pub proof fn every_helper_is_opened(m: ModelView, id: Text, known: Seq<(Text, Text)>, depth: nat)
    requires
        depth >= m.entities.len(),
    ensures
        lookup(m.entities, id) matches Some(e) ==> inlined_shapes(m, id, known) == walked_from(
            m,
            known,
            e.call_shapes,
            seq![],
            false,
            depth,
            0,
            WalkView { seen: added(seq![], id), out: seq![] },
        ).out,
{
    match lookup(m.entities, id) {
        Some(e) => {
            let w = WalkView { seen: added(seq![], id), out: seq![] };
            added_keeps_order(seq![], id);
            unseen_is_bounded(m.entities, w.seen, 0);
            walks_agree(m, known, e.call_shapes, seq![], false, m.entities.len(), depth, 0, w);
        },
        None => {},
    }
}

} // verus!
