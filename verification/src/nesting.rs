//! Entities inside entities: closures and the functions that hold them.

use crate::ir::{Loc, LocView};
use crate::list;
use crate::list::Plain;
use crate::model::{Entity, EntityView, Model, ModelView, QueryFilter, QueryFilterView};
use crate::ordered::{
    ascending, lookup, lookup_after_put, lookup_of_other, put, put_keeps_order, slot, slot_bounds,
    slot_of_stored, SortedMap,
};
use crate::shapes::{
    entering_leaves_fewer, more_seen_less_unseen, unseen_from, unseen_is_bounded,
};
use crate::text::Text;
use vstd::prelude::*;

verus! {

/// The closures of the entities from index `i` on by the entity that holds them, added to `acc`.
pub open spec fn closures_from(
    entities: Seq<(Text, EntityView)>,
    i: int,
    acc: Seq<(Text, Seq<Text>)>,
) -> Seq<(Text, Seq<Text>)>
    decreases entities.len() - i,
{
    if 0 <= i < entities.len() {
        let e = entities[i].1;
        closures_from(
            entities,
            i + 1,
            match e.parent {
                Some(p) => put(acc, p, closures_of(acc, p).push(e.id)),
                None => acc,
            },
        )
    } else {
        acc
    }
}

/// The closures that an entity holds.
pub open spec fn closures_of(kids: Seq<(Text, Seq<Text>)>, id: Text) -> Seq<Text> {
    match lookup(kids, id) {
        Some(ids) => ids,
        None => seq![],
    }
}

/// The query filters of an entity itself.
pub open spec fn own_filters(entities: Seq<(Text, EntityView)>, id: Text) -> Seq<QueryFilterView> {
    match lookup(entities, id) {
        Some(e) => e.filters,
        None => seq![],
    }
}

/// The query filters met when the entities on the stack are visited, each before the closures
/// it holds, at most `steps` of them.
pub open spec fn filters_below(
    entities: Seq<(Text, EntityView)>,
    kids: Seq<(Text, Seq<Text>)>,
    stack: Seq<Text>,
    steps: nat,
) -> Seq<QueryFilterView>
    decreases steps,
{
    if steps == 0 || stack.len() == 0 {
        seq![]
    } else {
        own_filters(entities, stack.last()) + filters_below(
            entities,
            kids,
            stack.drop_last() + closures_of(kids, stack.last()),
            (steps - 1) as nat,
        )
    }
}

/// Filters of `id` and of every closure nested in it. No more entities than the model has are
/// visited.
pub open spec fn scoped(m: ModelView, id: Text) -> Seq<QueryFilterView> {
    filters_below(
        m.entities,
        closures_from(m.entities, 0, seq![]),
        seq![id],
        (m.entities.len() + 1) as nat,
    )
}

/// The entity at the top of what holds `id`, at most `steps` levels up.
pub open spec fn top_from(entities: Seq<(Text, EntityView)>, id: Text, steps: nat) -> Text
    decreases steps,
{
    match lookup(entities, id) {
        Some(e) => match e.parent {
            Some(p) => if steps == 0 {
                id
            } else {
                top_from(entities, p, (steps - 1) as nat)
            },
            None => id,
        },
        None => id,
    }
}

/// The entity at the top of what holds `id`: `src/a.ts::OrderService.cancel` for
/// `src/a.ts::OrderService.cancel.$if#2`.
pub open spec fn top_of(m: ModelView, id: Text) -> Text {
    top_from(m.entities, id, m.entities.len())
}

/// An entity that is no closure and whose body contains `loc`.
pub open spec fn holds_place(e: EntityView, loc: LocView) -> bool {
    e.parent is None && e.loc.file == loc.file && e.loc.line <= loc.line && loc.line <= e.end_line
}

/// The number of lines below the first.
pub open spec fn extent(e: EntityView) -> int {
    e.end_line - e.loc.line
}

/// The entity with the shortest body that contains `loc`, of `best` and the entities from index
/// `i` on; the first of these.
pub open spec fn holder_from(
    entities: Seq<(Text, EntityView)>,
    loc: LocView,
    i: int,
    best: Option<EntityView>,
) -> Option<EntityView>
    decreases entities.len() - i,
{
    if 0 <= i < entities.len() {
        let e = entities[i].1;
        holder_from(
            entities,
            loc,
            i + 1,
            if holds_place(e, loc) && (match best {
                Some(b) => extent(e) < extent(b),
                None => true,
            }) {
                Some(e)
            } else {
                best
            },
        )
    } else {
        best
    }
}

/// The top-level entity whose body contains `loc`.
pub open spec fn holder_of(m: ModelView, loc: LocView) -> Option<Text> {
    match holder_from(m.entities, loc, 0, None) {
        Some(e) => Some(e.id),
        None => None,
    }
}

// ---- execution

/// The closures of a model by the entity that holds them.
pub fn closures_by_parent(model: &Model) -> (r: SortedMap<String, Vec<String>>)
    ensures
        r.deep_view() == closures_from(model.deep_view().entities, 0, seq![]),
{
    let ghost ev = model.deep_view().entities;
    let mut out: SortedMap<String, Vec<String>> = SortedMap::new();
    let mut i: usize = 0;
    while i < model.entities.len()
        invariant
            i <= ev.len(),
            ev == model.deep_view().entities,
            closures_from(ev, i as int, out.deep_view()) == closures_from(ev, 0, seq![]),
        decreases ev.len() - i,
    {
        let e = model.entities.value(i);
        if let Some(p) = &e.parent {
            let mut ids = match out.get(p) {
                Some(ids) => ids.dup(),
                None => list::empty(),
            };
            list::push(&mut ids, e.id.dup());
            out.insert(p.dup(), ids);
        }
        i += 1;
    }
    out
}

/// Filters of `id` and of every closure nested in it. `kids` are the model's closures by the
/// entity that holds them.
pub fn scoped_filters(model: &Model, kids: &SortedMap<String, Vec<String>>, id: &str) -> (r: Vec<
    QueryFilter,
>)
    requires
        kids.deep_view() == closures_from(model.deep_view().entities, 0, seq![]),
    ensures
        r.deep_view() == scoped(model.deep_view(), id@),
{
    let ghost m = model.deep_view();
    let ghost ev = m.entities;
    let ghost kv = kids.deep_view();
    let mut out: Vec<QueryFilter> = list::empty();
    let mut stack: Vec<String> = list::one(id.to_owned());
    let mut more: usize = model.entities.len();
    loop
        invariant
            m == model.deep_view(),
            ev == m.entities,
            kv == kids.deep_view(),
            out.deep_view() + filters_below(ev, kv, stack.deep_view(), (more + 1) as nat)
                == scoped(m, id@),
        decreases more,
    {
        let ghost sv = stack.deep_view();
        let ghost done = out.deep_view();
        let cur = match stack.pop() {
            Some(cur) => cur,
            None => {
                return out;
            },
        };
        assert(sv.last() == cur@);
        assert(stack.deep_view() =~= sv.drop_last());
        if let Some(e) = model.entities.get(&cur) {
            list::extend(&mut out, &e.filters);
        }
        if let Some(ids) = kids.get(&cur) {
            list::extend(&mut stack, ids);
        }
        assert(stack.deep_view() =~= sv.drop_last() + closures_of(kv, cur@));
        assert(out.deep_view() =~= done + own_filters(ev, cur@));
        if more == 0 {
            assert(filters_below(ev, kv, stack.deep_view(), 0) =~= seq![]);
            return out;
        }
        more -= 1;
    }
}

/// The entity at the top of what holds `id`.
pub fn top_level(model: &Model, id: &str) -> (r: String)
    ensures
        r@ == top_of(model.deep_view(), id@),
{
    let ghost m = model.deep_view();
    let mut cur = id.to_owned();
    let mut steps: usize = model.entities.len();
    loop
        invariant
            m == model.deep_view(),
            top_from(m.entities, cur@, steps as nat) == top_of(m, id@),
        decreases steps,
    {
        let up = match model.entities.get(&cur) {
            Some(e) => e.parent.dup(),
            None => None,
        };
        match up {
            Some(p) => {
                if steps == 0 {
                    return cur;
                }
                cur = p;
                steps -= 1;
            },
            None => {
                return cur;
            },
        }
    }
}

/// The top-level entity whose body contains `loc`.
pub fn entity_at(model: &Model, loc: &Loc) -> (r: Option<String>)
    ensures
        r.deep_view() == holder_of(model.deep_view(), loc.deep_view()),
{
    let ghost m = model.deep_view();
    let ghost lv = loc.deep_view();
    let mut best: Option<&Entity> = None;
    let mut i: usize = 0;
    while i < model.entities.len()
        invariant
            i <= m.entities.len(),
            m == model.deep_view(),
            lv == loc.deep_view(),
            best is Some ==> holds_place(best.deep_view()->Some_0, lv),
            holder_from(m.entities, lv, i as int, best.deep_view()) == holder_from(
                m.entities,
                lv,
                0,
                None,
            ),
        decreases m.entities.len() - i,
    {
        let e = model.entities.value(i);
        if e.parent.is_none() && e.loc.file.alike(&loc.file) && e.loc.line <= loc.line && loc.line
            <= e.end_line {
            let shorter = match best {
                Some(b) => e.end_line - e.loc.line < b.end_line - b.loc.line,
                None => true,
            };
            if shorter {
                best = Some(e);
            }
        }
        i += 1;
    }
    match best {
        Some(e) => Some(e.id.dup()),
        None => None,
    }
}

// ---- how far the levels reach

/// Every entity stands under its own id, and what holds a closure ranks below the closure, so
/// that nothing holds itself.
pub open spec fn well_nested(entities: Seq<(Text, EntityView)>, rank: spec_fn(Text) -> nat) -> bool {
    &&& ascending(entities)
    &&& forall|i: int|
        0 <= i < entities.len() ==> (#[trigger] entities[i]).1.id == entities[i].0
    &&& forall|i: int|
        0 <= i < entities.len() ==> ((#[trigger] entities[i]).1.parent matches Some(p) ==> rank(p)
            < rank(entities[i].0))
}

proof fn found_is_stored(entities: Seq<(Text, EntityView)>, id: Text) -> (k: int)
    requires
        lookup(entities, id) is Some,
    ensures
        0 <= k < entities.len(),
        entities[k].0 == id,
        lookup(entities, id) == Some(entities[k].1),
{
    slot_bounds(entities, id);
    slot(entities, id)
}

/// The ids of the closures that `id` holds, of the entities from index `i` on.
pub open spec fn held_from(entities: Seq<(Text, EntityView)>, id: Text, i: int) -> Seq<Text>
    decreases entities.len() - i,
{
    if 0 <= i < entities.len() {
        (if entities[i].1.parent == Some(id) {
            seq![entities[i].1.id]
        } else {
            seq![]
        }) + held_from(entities, id, i + 1)
    } else {
        seq![]
    }
}

proof fn closures_are_held(
    entities: Seq<(Text, EntityView)>,
    i: int,
    acc: Seq<(Text, Seq<Text>)>,
    id: Text,
)
    requires
        0 <= i <= entities.len(),
        ascending(acc),
    ensures
        closures_of(closures_from(entities, i, acc), id) == closures_of(acc, id) + held_from(
            entities,
            id,
            i,
        ),
    decreases entities.len() - i,
{
    if i < entities.len() {
        let e = entities[i].1;
        match e.parent {
            Some(p) => {
                let v = closures_of(acc, p).push(e.id);
                let next = put(acc, p, v);
                put_keeps_order(acc, p, v);
                closures_are_held(entities, i + 1, next, id);
                if p == id {
                    lookup_after_put(acc, p, v);
                    assert(closures_of(acc, id).push(e.id) + held_from(entities, id, i + 1)
                        =~= closures_of(acc, id) + (seq![e.id] + held_from(entities, id, i + 1)));
                } else {
                    lookup_of_other(acc, p, v, id);
                    assert(seq![] + held_from(entities, id, i + 1) =~= held_from(
                        entities,
                        id,
                        i + 1,
                    ));
                }
            },
            None => {
                closures_are_held(entities, i + 1, acc, id);
                assert(seq![] + held_from(entities, id, i + 1) =~= held_from(entities, id, i + 1));
            },
        }
    } else {
        assert(closures_of(acc, id) + seq![] =~= closures_of(acc, id));
    }
}

proof fn held_are_entities(
    entities: Seq<(Text, EntityView)>,
    rank: spec_fn(Text) -> nat,
    id: Text,
    i: int,
)
    requires
        0 <= i <= entities.len(),
        well_nested(entities, rank),
    ensures
        forall|x: Text| #[trigger]
            held_from(entities, id, i).contains(x) ==> exists|k: int|
                i <= k < entities.len() && (#[trigger] entities[k]).0 == x && entities[k].1.parent
                    == Some(id),
        held_from(entities, id, i).no_duplicates(),
    decreases entities.len() - i,
{
    if i < entities.len() {
        held_are_entities(entities, rank, id, i + 1);
        let rest = held_from(entities, id, i + 1);
        let here = held_from(entities, id, i);
        assert(entities[i].1.id == entities[i].0);
        if entities[i].1.parent == Some(id) {
            assert(here[0] == entities[i].0);
            assert forall|j: int| 0 <= j < rest.len() implies here[j + 1] == #[trigger] rest[j] by {}
            assert forall|x: Text| #[trigger] here.contains(x) implies exists|k: int|
                i <= k < entities.len() && (#[trigger] entities[k]).0 == x && entities[k].1.parent
                    == Some(id) by {
                let j = choose|j: int| 0 <= j < here.len() && here[j] == x;
                if j == 0 {
                    assert(entities[i].0 == x);
                } else {
                    assert(rest[j - 1] == x);
                    assert(rest.contains(x));
                }
            }
            assert forall|j: int, l: int|
                0 <= j < here.len() && 0 <= l < here.len() && j != l implies here[j] != here[l] by {
                if j > 0 && l > 0 {
                    assert(rest[j - 1] != rest[l - 1]);
                } else {
                    let o = if j > 0 {
                        j
                    } else {
                        l
                    };
                    assert(rest.contains(rest[o - 1]));
                    let k = choose|k: int|
                        i + 1 <= k < entities.len() && (#[trigger] entities[k]).0 == rest[o - 1]
                            && entities[k].1.parent == Some(id);
                    slot_of_stored(entities, i);
                    slot_of_stored(entities, k);
                }
            }
        } else {
            assert(here =~= rest);
        }
    }
}

/// The entity of index `k` is `x`, held by one that was visited.
pub open spec fn hangs_at(entities: Seq<(Text, EntityView)>, x: Text, visited: Seq<Text>, k: int) -> bool {
    0 <= k < entities.len() && entities[k].0 == x && (entities[k].1.parent matches Some(p)
        && visited.contains(p))
}

/// What the visit of everything below `root` knows of an entity that it met.
pub open spec fn was_met(
    entities: Seq<(Text, EntityView)>,
    rank: spec_fn(Text) -> nat,
    root: Text,
    visited: Seq<Text>,
    x: Text,
) -> bool {
    rank(root) <= rank(x) && (x == root || exists|k: int| hangs_at(entities, x, visited, k))
}

/// The visit of everything below `root` under way: nothing waits twice, nor after its visit.
pub open spec fn visiting(
    entities: Seq<(Text, EntityView)>,
    rank: spec_fn(Text) -> nat,
    root: Text,
    stack: Seq<Text>,
    visited: Seq<Text>,
) -> bool {
    &&& stack.no_duplicates()
    &&& forall|x: Text| #[trigger]
        stack.contains(x) ==> !visited.contains(x) && was_met(entities, rank, root, visited, x)
    &&& forall|x: Text| #[trigger]
        visited.contains(x) ==> was_met(entities, rank, root, visited, x)
}

/// How many visits are left at most.
pub open spec fn visits_left(entities: Seq<(Text, EntityView)>, root: Text, visited: Seq<Text>) -> nat {
    unseen_from(entities, visited, 0) + (if visited.contains(root) {
        0nat
    } else {
        1nat
    })
}

proof fn pushed_members(s: Seq<Text>, a: Text)
    ensures
        forall|x: Text| #[trigger] s.push(a).contains(x) <==> x == a || s.contains(x),
{
    assert forall|x: Text| #[trigger] s.push(a).contains(x) <==> x == a || s.contains(x) by {
        let n = s.push(a);
        assert(n[s.len() as int] == a);
        if s.contains(x) {
            let j = choose|j: int| 0 <= j < s.len() && s[j] == x;
            assert(n[j] == x);
        }
        if n.contains(x) && x != a {
            let j = choose|j: int| 0 <= j < n.len() && n[j] == x;
            assert(s[j] == x);
        }
    }
}

proof fn still_met(
    entities: Seq<(Text, EntityView)>,
    rank: spec_fn(Text) -> nat,
    root: Text,
    visited: Seq<Text>,
    s: Text,
    x: Text,
)
    requires
        was_met(entities, rank, root, visited, x),
    ensures
        was_met(entities, rank, root, visited.push(s), x),
{
    pushed_members(visited, s);
    if x != root {
        let k = choose|k: int| hangs_at(entities, x, visited, k);
        assert(hangs_at(entities, x, visited.push(s), k));
    }
}

/// A closure of the entity that is visited was not met before.
proof fn held_is_new(
    entities: Seq<(Text, EntityView)>,
    rank: spec_fn(Text) -> nat,
    root: Text,
    stack: Seq<Text>,
    visited: Seq<Text>,
    c: Text,
)
    requires
        well_nested(entities, rank),
        visiting(entities, rank, root, stack, visited),
        stack.len() > 0,
        held_from(entities, stack.last(), 0).contains(c),
    ensures
        !visited.contains(c),
        !stack.contains(c),
        was_met(entities, rank, root, visited.push(stack.last()), c),
{
    let s = stack.last();
    assert(stack.contains(s));
    held_are_entities(entities, rank, s, 0);
    let k = choose|k: int|
        0 <= k < entities.len() && (#[trigger] entities[k]).0 == c && entities[k].1.parent == Some(
            s,
        );
    assert(rank(s) < rank(c));
    if was_met(entities, rank, root, visited, c) {
        if c != root {
            let j = choose|j: int| hangs_at(entities, c, visited, j);
            slot_of_stored(entities, j);
            slot_of_stored(entities, k);
            assert(visited.contains(s));
        }
        assert(false);
    }
    pushed_members(visited, s);
    assert(hangs_at(entities, c, visited.push(s), k));
}

proof fn visit_goes_on(
    entities: Seq<(Text, EntityView)>,
    rank: spec_fn(Text) -> nat,
    root: Text,
    stack: Seq<Text>,
    visited: Seq<Text>,
)
    requires
        well_nested(entities, rank),
        visiting(entities, rank, root, stack, visited),
        stack.len() > 0,
    ensures
        visiting(
            entities,
            rank,
            root,
            stack.drop_last() + held_from(entities, stack.last(), 0),
            visited.push(stack.last()),
        ),
        visits_left(entities, root, visited.push(stack.last())) < visits_left(
            entities,
            root,
            visited,
        ),
{
    let s = stack.last();
    let held = held_from(entities, s, 0);
    let rest = stack.drop_last();
    let next = rest + held;
    let more = visited.push(s);
    assert(stack.contains(s));
    pushed_members(visited, s);
    held_are_entities(entities, rank, s, 0);
    assert forall|x: Text| #[trigger] rest.contains(x) implies stack.contains(x) && x != s by {
        let j = choose|j: int| 0 <= j < rest.len() && rest[j] == x;
        assert(stack[j] == x);
    }
    assert forall|x: Text| #[trigger] held.contains(x) implies !visited.contains(x)
        && !stack.contains(x) && was_met(entities, rank, root, more, x) by {
        held_is_new(entities, rank, root, stack, visited, x);
    }
    assert forall|x: Text| #[trigger] next.contains(x) implies !more.contains(x) && was_met(
        entities,
        rank,
        root,
        more,
        x,
    ) by {
        let j = choose|j: int| 0 <= j < next.len() && next[j] == x;
        if j < rest.len() {
            assert(rest[j] == x);
            assert(rest.contains(x));
            still_met(entities, rank, root, visited, s, x);
        } else {
            assert(held[j - rest.len()] == x);
            assert(held.contains(x));
        }
    }
    assert forall|x: Text| #[trigger] more.contains(x) implies was_met(
        entities,
        rank,
        root,
        more,
        x,
    ) by {
        still_met(entities, rank, root, visited, s, x);
    }
    assert forall|j: int, l: int|
        0 <= j < next.len() && 0 <= l < next.len() && j != l implies next[j] != next[l] by {
        if j < rest.len() && l < rest.len() {
            assert(stack[j] != stack[l]);
        } else if j >= rest.len() && l >= rest.len() {
            assert(held[j - rest.len()] != held[l - rest.len()]);
        } else {
            let (r, h) = if j < rest.len() {
                (j, l - rest.len())
            } else {
                (l, j - rest.len())
            };
            assert(rest.contains(rest[r]));
            assert(held.contains(held[h]));
        }
    }
    more_seen_less_unseen(entities, visited, more, 0);
    if s != root {
        let k = choose|k: int| hangs_at(entities, s, visited, k);
        entering_leaves_fewer(entities, visited, more, k, 0);
    }
}

proof fn visits_agree(
    entities: Seq<(Text, EntityView)>,
    rank: spec_fn(Text) -> nat,
    root: Text,
    stack: Seq<Text>,
    visited: Seq<Text>,
    steps: nat,
    more: nat,
)
    requires
        well_nested(entities, rank),
        visiting(entities, rank, root, stack, visited),
        visits_left(entities, root, visited) <= steps,
        visits_left(entities, root, visited) <= more,
    ensures
        filters_below(entities, closures_from(entities, 0, seq![]), stack, steps) == filters_below(
            entities,
            closures_from(entities, 0, seq![]),
            stack,
            more,
        ),
    decreases steps,
{
    if stack.len() > 0 {
        let kids = closures_from(entities, 0, seq![]);
        let s = stack.last();
        visit_goes_on(entities, rank, root, stack, visited);
        closures_are_held(entities, 0, seq![], s);
        assert(closures_of(seq![], s) + held_from(entities, s, 0) =~= held_from(entities, s, 0));
        visits_agree(
            entities,
            rank,
            root,
            stack.drop_last() + closures_of(kids, s),
            visited.push(s),
            (steps - 1) as nat,
            (more - 1) as nat,
        );
    }
}

/// No closure is left out of the filters of an entity: visiting more entities than the model
/// has finds no other filter, where no entity holds itself.
pub proof fn every_closure_is_visited(
    m: ModelView,
    rank: spec_fn(Text) -> nat,
    id: Text,
    steps: nat,
)
    requires
        well_nested(m.entities, rank),
        steps > m.entities.len(),
    ensures
        scoped(m, id) == filters_below(
            m.entities,
            closures_from(m.entities, 0, seq![]),
            seq![id],
            steps,
        ),
{
    let stack: Seq<Text> = seq![id];
    assert(stack[0] == id);
    unseen_is_bounded(m.entities, seq![], 0);
    visits_agree(
        m.entities,
        rank,
        id,
        stack,
        seq![],
        (m.entities.len() + 1) as nat,
        steps,
    );
}

proof fn top_is_near(
    entities: Seq<(Text, EntityView)>,
    rank: spec_fn(Text) -> nat,
    id: Text,
    passed: Seq<Text>,
    steps: nat,
)
    requires
        well_nested(entities, rank),
        forall|x: Text| #[trigger] passed.contains(x) ==> rank(id) < rank(x),
        unseen_from(entities, passed, 0) <= steps,
    ensures
        lookup(entities, top_from(entities, id, steps)) matches Some(e) ==> e.parent is None,
    decreases steps,
{
    match lookup(entities, id) {
        Some(e) => {
            let k = found_is_stored(entities, id);
            match e.parent {
                Some(p) => {
                    let more = passed.push(id);
                    pushed_members(passed, id);
                    assert(rank(p) < rank(entities[k].0));
                    entering_leaves_fewer(entities, passed, more, k, 0);
                    top_is_near(entities, rank, p, more, (steps - 1) as nat);
                },
                None => {},
            }
        },
        None => {},
    }
}

/// The entity at the top is held by none, where no entity holds itself.
pub proof fn top_is_held_by_none(m: ModelView, rank: spec_fn(Text) -> nat, id: Text)
    requires
        well_nested(m.entities, rank),
    ensures
        lookup(m.entities, top_of(m, id)) matches Some(e) ==> e.parent is None,
{
    unseen_is_bounded(m.entities, seq![], 0);
    top_is_near(m.entities, rank, id, seq![], m.entities.len());
}

} // verus!
