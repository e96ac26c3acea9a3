//! Who calls what, directly or through others: the callers of an entity are all there, and
//! nothing else is.

use crate::model::{
    caller_links, callers_of, entry_points, reached, reverse_links, route_key, routes_into,
    seen_after, seen_through, CallFactView, EntityView, ModelView, RouteView,
};
use crate::ordered::{
    added, added_keeps_order, added_members, rising, seat_of_member, set_of, united_members,
};
use crate::text::Text;
use vstd::prelude::*;

verus! {

/// How many of the links from index `i` on lead to something that has not been seen.
spec fn unseen(links: Seq<(Text, Text)>, seen: Seq<Text>, i: int) -> nat
    decreases links.len() - i,
{
    if 0 <= i < links.len() {
        (if seen.contains(links[i].1) {
            0nat
        } else {
            1nat
        }) + unseen(links, seen, i + 1)
    } else {
        0
    }
}

/// Every member of the one is a member of the other.
spec fn covers(s: Seq<Text>, t: Seq<Text>) -> bool {
    forall|x: Text| s.contains(x) ==> #[trigger] t.contains(x)
}

proof fn unseen_falls(links: Seq<(Text, Text)>, s: Seq<Text>, t: Seq<Text>, i: int)
    requires
        covers(s, t),
        0 <= i,
    ensures
        unseen(links, t, i) <= unseen(links, s, i),
        (exists|j: int|
            i <= j < links.len() && t.contains((#[trigger] links[j]).1) && !s.contains(links[j].1))
            ==> unseen(links, t, i) < unseen(links, s, i),
        unseen(links, s, i) <= links.len() - i || i > links.len(),
    decreases links.len() - i,
{
    if i < links.len() {
        unseen_falls(links, s, t, i + 1);
        if exists|j: int|
            i <= j < links.len() && t.contains((#[trigger] links[j]).1) && !s.contains(
                links[j].1,
            ) {
            let j = choose|j: int|
                i <= j < links.len() && t.contains((#[trigger] links[j]).1) && !s.contains(
                    links[j].1,
                );
            if j > i {
                assert(i + 1 <= j < links.len());
            }
        }
    }
}

proof fn pass_sees(links: Seq<(Text, Text)>, i: int, seen: Seq<Text>)
    requires
        rising(seen),
        0 <= i,
    ensures
        rising(seen_after(links, i, seen)),
        covers(seen, seen_after(links, i, seen)),
        seen_after(links, i, seen) == seen || exists|j: int|
            i <= j < links.len() && seen_after(links, i, seen).contains((#[trigger] links[j]).1)
                && !seen.contains(links[j].1),
        forall|j: int|
            i <= j < links.len() && seen.contains((#[trigger] links[j]).0) ==> seen_after(
                links,
                i,
                seen,
            ).contains(links[j].1),
    decreases links.len() - i,
{
    if i < links.len() {
        let (x, y) = links[i];
        let next = if seen.contains(x) {
            added(seen, y)
        } else {
            seen
        };
        added_keeps_order(seen, y);
        assert forall|z: Text| seen.contains(z) implies #[trigger] next.contains(z) by {
            added_members(seen, y, z);
        }
        added_members(seen, y, y);
        pass_sees(links, i + 1, next);
        let all = seen_after(links, i, seen);
        assert(all == seen_after(links, i + 1, next));
        assert(covers(seen, all)) by {
            assert forall|z: Text| seen.contains(z) implies #[trigger] all.contains(z) by {
                assert(next.contains(z));
            }
        }
        if next != seen {
            assert(!seen.contains(y)) by {
                if seen.contains(y) {
                    seat_of_member(seen, y);
                }
            }
            assert(next.contains(y));
            assert(all.contains(links[i].1));
        }
        assert forall|j: int| i <= j < links.len() && seen.contains((#[trigger] links[j]).0)
            implies all.contains(links[j].1) by {
            if j == i {
                assert(next.contains(y));
            } else {
                assert(next.contains(links[j].0));
            }
        }
    }
}

/// Along every link whose first end is seen, the second is seen.
pub open spec fn is_closed(links: Seq<(Text, Text)>, seen: Seq<Text>) -> bool {
    forall|j: int|
        0 <= j < links.len() && seen.contains((#[trigger] links[j]).0) ==> seen.contains(links[j].1)
}

proof fn passes_close(links: Seq<(Text, Text)>, seen: Seq<Text>, rounds: nat)
    requires
        rising(seen),
        unseen(links, seen, 0) <= rounds,
    ensures
        covers(seen, seen_through(links, seen, rounds)),
        is_closed(links, seen_through(links, seen, rounds)),
        rising(seen_through(links, seen, rounds)),
    decreases rounds,
{
    pass_sees(links, 0, seen);
    let next = seen_after(links, 0, seen);
    if next == seen {
    } else {
        unseen_falls(links, seen, next, 0);
        assert(rounds > 0);
        passes_close(links, next, (rounds - 1) as nat);
        let all = seen_through(links, seen, rounds);
        assert forall|z: Text| seen.contains(z) implies #[trigger] all.contains(z) by {
            assert(next.contains(z));
        }
    }
}

proof fn pass_stays_inside(links: Seq<(Text, Text)>, i: int, seen: Seq<Text>, bound: Set<Text>)
    requires
        rising(seen),
        forall|x: Text| #[trigger] seen.contains(x) ==> bound.contains(x),
        forall|j: int|
            0 <= j < links.len() && bound.contains((#[trigger] links[j]).0) ==> bound.contains(
                links[j].1,
            ),
    ensures
        rising(seen_after(links, i, seen)),
        forall|x: Text| #[trigger] seen_after(links, i, seen).contains(x) ==> bound.contains(x),
    decreases links.len() - i,
{
    if 0 <= i < links.len() {
        let (x, y) = links[i];
        let next = if seen.contains(x) {
            added(seen, y)
        } else {
            seen
        };
        added_keeps_order(seen, y);
        assert forall|z: Text| #[trigger] next.contains(z) implies bound.contains(z) by {
            added_members(seen, y, z);
            if seen.contains(x) {
                assert(bound.contains(links[i].0));
            }
        }
        pass_stays_inside(links, i + 1, next, bound);
    }
}

proof fn passes_stay_inside(
    links: Seq<(Text, Text)>,
    seen: Seq<Text>,
    rounds: nat,
    bound: Set<Text>,
)
    requires
        rising(seen),
        forall|x: Text| #[trigger] seen.contains(x) ==> bound.contains(x),
        forall|j: int|
            0 <= j < links.len() && bound.contains((#[trigger] links[j]).0) ==> bound.contains(
                links[j].1,
            ),
    ensures
        forall|x: Text| #[trigger] seen_through(links, seen, rounds).contains(x) ==> bound.contains(
            x,
        ),
    decreases rounds,
{
    pass_stays_inside(links, 0, seen, bound);
    let next = seen_after(links, 0, seen);
    if rounds > 0 && next != seen {
        passes_stay_inside(links, next, (rounds - 1) as nat, bound);
        assert(seen_through(links, seen, rounds) == seen_through(
            links,
            next,
            (rounds - 1) as nat,
        ));
    } else {
        assert(seen_through(links, seen, rounds) == seen);
    }
}

/// What is reached from a start has the start, is closed under the links, and lies within
/// everything else that has the start and is closed under the links.
pub proof fn reached_is_least(links: Seq<(Text, Text)>, start: Text, bound: Set<Text>)
    ensures
        reached(links, start).contains(start),
        is_closed(links, reached(links, start)),
        bound.contains(start) && (forall|j: int|
            0 <= j < links.len() && bound.contains((#[trigger] links[j]).0) ==> bound.contains(
                links[j].1,
            )) ==> forall|x: Text| #[trigger] reached(links, start).contains(x) ==> bound.contains(
            x,
        ),
{
    let none = Seq::<Text>::empty();
    assert(none =~= seq![]);
    let one = added(none, start);
    added_keeps_order(none, start);
    added_members(none, start, start);
    unseen_falls(links, one, one, 0);
    passes_close(links, one, links.len() + 1);
    assert(reached(links, start).contains(start));
    if bound.contains(start) && (forall|j: int|
        0 <= j < links.len() && bound.contains((#[trigger] links[j]).0) ==> bound.contains(
            links[j].1,
        )) {
        assert forall|x: Text| #[trigger] one.contains(x) implies bound.contains(x) by {
            added_members(none, start, x);
        }
        passes_stay_inside(links, one, links.len() + 1, bound);
    }
}

proof fn call_is_linked(id: Text, calls: Seq<CallFactView>, i: int, c: int)
    requires
        0 <= i <= c < calls.len(),
    ensures
        caller_links(id, calls, i).contains((calls[c].target, id)),
    decreases calls.len() - i,
{
    let rest = caller_links(id, calls, i + 1);
    let all = seq![(calls[i].target, id)] + rest;
    if c == i {
        assert(all[0] == (calls[c].target, id));
    } else {
        call_is_linked(id, calls, i + 1, c);
        let j = choose|j: int| 0 <= j < rest.len() && rest[j] == (calls[c].target, id);
        assert(all[j + 1] == rest[j]);
    }
}

proof fn entity_is_linked(es: Seq<(Text, EntityView)>, i: int, n: int, link: (Text, Text))
    requires
        0 <= i <= n < es.len(),
        caller_links(es[n].1.id, es[n].1.calls, 0).contains(link) || (es[n].1.parent is Some && link
            == (es[n].1.id, es[n].1.parent->Some_0)),
    ensures
        reverse_links(es, i).contains(link),
    decreases es.len() - i,
{
    let e = es[i].1;
    let own = caller_links(e.id, e.calls, 0);
    let up = match e.parent {
        Some(p) => seq![(e.id, p)],
        None => seq![],
    };
    let rest = reverse_links(es, i + 1);
    let all = own + up + rest;
    assert(all == reverse_links(es, i));
    if n == i {
        if own.contains(link) {
            let j = choose|j: int| 0 <= j < own.len() && own[j] == link;
            assert(all[j] == link);
        } else {
            assert(up[0] == link);
            assert(all[own.len() as int] == link);
        }
    } else {
        entity_is_linked(es, i + 1, n, link);
        let j = choose|j: int| 0 <= j < rest.len() && rest[j] == link;
        assert(all[own.len() + up.len() + j] == link);
    }
}

/// The callers of an entity are complete: the entity is among them, whoever calls one of them
/// is among them, and so is what a closure among them stands in.
pub proof fn callers_are_complete(m: ModelView, id: Text, n: int, c: int)
    requires
        0 <= n < m.entities.len(),
    ensures
        callers_of(m, id).contains(id),
        0 <= c < m.entities[n].1.calls.len() && callers_of(m, id).contains(
            m.entities[n].1.calls[c].target,
        ) ==> callers_of(m, id).contains(m.entities[n].1.id),
        m.entities[n].1.parent is Some && callers_of(m, id).contains(m.entities[n].1.id)
            ==> callers_of(m, id).contains(m.entities[n].1.parent->Some_0),
{
    let links = reverse_links(m.entities, 0);
    let e = m.entities[n].1;
    reached_is_least(links, id, Set::empty());
    if 0 <= c < e.calls.len() {
        call_is_linked(e.id, e.calls, 0, c);
        let link = (e.calls[c].target, e.id);
        entity_is_linked(m.entities, 0, n, link);
        let j = choose|j: int| 0 <= j < links.len() && links[j] == link;
        assert(links[j].0 == link.0);
    }
    if e.parent is Some {
        let link = (e.id, e.parent->Some_0);
        entity_is_linked(m.entities, 0, n, link);
        let j = choose|j: int| 0 <= j < links.len() && links[j] == link;
        assert(links[j].0 == link.0);
    }
}

/// Whatever has the entity, whoever calls one of its members, and what its closures stand in.
pub open spec fn takes_in_callers(m: ModelView, bound: Set<Text>) -> bool {
    forall|n: int|
        0 <= n < m.entities.len() ==> #[trigger] takes_in_caller(m.entities[n].1, bound)
}

/// The entity is in the set if it calls something in it, and what it stands in is, if it is.
pub open spec fn takes_in_caller(e: EntityView, bound: Set<Text>) -> bool {
    &&& forall|c: int|
        0 <= c < e.calls.len() && bound.contains((#[trigger] e.calls[c]).target) ==> bound.contains(
            e.id,
        )
    &&& e.parent is Some && bound.contains(e.id) ==> bound.contains(e.parent->Some_0)
}

proof fn links_stay_inside(e: EntityView, i: int, bound: Set<Text>, j: int)
    requires
        takes_in_caller(e, bound),
        0 <= i,
        0 <= j < caller_links(e.id, e.calls, i).len(),
        bound.contains(caller_links(e.id, e.calls, i)[j].0),
    ensures
        bound.contains(caller_links(e.id, e.calls, i)[j].1),
    decreases e.calls.len() - i,
{
    if i < e.calls.len() {
        let rest = caller_links(e.id, e.calls, i + 1);
        let all = seq![(e.calls[i].target, e.id)] + rest;
        assert(all == caller_links(e.id, e.calls, i));
        if j > 0 {
            assert(all[j] == rest[j - 1]);
            links_stay_inside(e, i + 1, bound, j - 1);
        } else {
            assert(all[0] == (e.calls[i].target, e.id));
        }
    }
}

proof fn all_links_stay_inside(es: Seq<(Text, EntityView)>, i: int, bound: Set<Text>, j: int)
    requires
        forall|n: int| 0 <= n < es.len() ==> #[trigger] takes_in_caller(es[n].1, bound),
        0 <= i,
        0 <= j < reverse_links(es, i).len(),
        bound.contains(reverse_links(es, i)[j].0),
    ensures
        bound.contains(reverse_links(es, i)[j].1),
    decreases es.len() - i,
{
    if i < es.len() {
        let e = es[i].1;
        assert(takes_in_caller(es[i].1, bound));
        let own = caller_links(e.id, e.calls, 0);
        let up = match e.parent {
            Some(p) => seq![(e.id, p)],
            None => seq![],
        };
        let rest = reverse_links(es, i + 1);
        let all = own + up + rest;
        assert(all == reverse_links(es, i));
        if j < own.len() {
            assert(all[j] == own[j]);
            links_stay_inside(e, 0, bound, j);
        } else if j < own.len() + up.len() {
            assert(all[j] == up[j - own.len()]);
        } else {
            let k = j - own.len() - up.len();
            assert(all[j] == rest[k]);
            all_links_stay_inside(es, i + 1, bound, k);
        }
    }
}

/// Nothing else is among the callers of an entity: they lie within every set that has the
/// entity and takes in its callers.
pub proof fn callers_are_only_callers(m: ModelView, id: Text, bound: Set<Text>)
    requires
        bound.contains(id),
        takes_in_callers(m, bound),
    ensures
        forall|x: Text| #[trigger] callers_of(m, id).contains(x) ==> bound.contains(x),
{
    let links = reverse_links(m.entities, 0);
    assert forall|j: int| 0 <= j < links.len() && bound.contains((#[trigger] links[j]).0)
        implies bound.contains(links[j].1) by {
        all_links_stay_inside(m.entities, 0, bound, j);
    }
    reached_is_least(links, id, bound);
}

proof fn routes_are_into(routes: Seq<RouteView>, callers: Seq<Text>, i: int, key: Text)
    requires
        0 <= i,
    ensures
        routes_into(routes, callers, i).contains(key) <==> exists|n: int|
            i <= n < routes.len() && callers.contains((#[trigger] routes[n]).handler) && route_key(
                routes[n],
            ) == key,
    decreases routes.len() - i,
{
    if i < routes.len() {
        routes_are_into(routes, callers, i + 1, key);
        let head = if callers.contains(routes[i].handler) {
            seq![route_key(routes[i])]
        } else {
            seq![]
        };
        let rest = routes_into(routes, callers, i + 1);
        let all = head + rest;
        assert(all == routes_into(routes, callers, i));
        if all.contains(key) {
            let j = choose|j: int| 0 <= j < all.len() && all[j] == key;
            if j < head.len() {
                assert(route_key(routes[i]) == key);
            } else {
                assert(rest[j - head.len()] == key);
            }
        }
        if exists|n: int|
            i <= n < routes.len() && callers.contains((#[trigger] routes[n]).handler) && route_key(
                routes[n],
            ) == key {
            let n = choose|n: int|
                i <= n < routes.len() && callers.contains((#[trigger] routes[n]).handler)
                    && route_key(routes[n]) == key;
            if n == i {
                assert(head[0] == key);
                assert(all[0] == key);
            } else {
                assert(i + 1 <= n);
                assert(rest.contains(key));
                let j = choose|j: int| 0 <= j < rest.len() && rest[j] == key;
                assert(all[head.len() + j] == key);
            }
        }
    }
}

/// The entry points that a change affects are exactly the routes whose handler reaches it.
pub proof fn entry_points_are_exact(m: ModelView, id: Text, key: Text)
    ensures
        entry_points(m, id).contains(key) <==> exists|n: int|
            0 <= n < m.routes.len() && callers_of(m, id).contains((#[trigger] m.routes[n]).handler)
                && route_key(m.routes[n]) == key,
{
    let callers = callers_of(m, id);
    routes_are_into(m.routes, callers, 0, key);
    let none = Seq::<Text>::empty();
    assert(none =~= seq![]);
    united_members(none, routes_into(m.routes, callers, 0));
    assert(entry_points(m, id).contains(key) == set_of(
        routes_into(m.routes, callers, 0),
    ).contains(key));
}

} // verus!
