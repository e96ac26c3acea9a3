//! What predicates mean: a predicate holds or does not hold in a world, and rewriting it into
//! canonical form does not change where it holds.

use crate::ordered::{common_members, minus_members, rising, united_members};
use crate::pred::{
    absorbed, absorbed_all, all_in_domain, compared, connected, flattened, in_domain, merged,
    negated_all, negation, simplified, spread, DomainTable, PredView,
};
use crate::text::{before, before_irreflexive, before_total, before_transitive, Text};
use vstd::prelude::*;

verus! {

/// What a predicate speaks of: the values of fields, what is truthy, what calls answer, the
/// order of operands, and which opaque conditions are met.
pub struct World {
    pub value: spec_fn(Text) -> Text,
    pub truthy: spec_fn(Text) -> bool,
    pub answer: spec_fn(Text) -> bool,
    pub rank: spec_fn(Text) -> int,
    pub met: spec_fn(Text) -> bool,
}

/// A comparison holds between the ranks of its operands.
pub open spec fn relates(a: int, op: Text, b: int) -> bool {
    if op == "<"@ {
        a < b
    } else if op == "<="@ {
        a <= b
    } else if op == ">"@ {
        a > b
    } else if op == ">="@ {
        a >= b
    } else if op == "=="@ {
        a == b
    } else {
        a != b
    }
}

/// A predicate holds in a world.
pub open spec fn holds(p: PredView, w: World) -> bool
    decreases p,
{
    match p {
        PredView::In { field, values } => values.contains((w.value)(field)),
        PredView::NotIn { field, values } => !values.contains((w.value)(field)),
        PredView::Truthy(f) => (w.truthy)(f),
        PredView::Falsy(f) => !(w.truthy)(f),
        PredView::Call { entity, negated } => (w.answer)(entity) != negated,
        PredView::Compare { left, op, right } => relates((w.rank)(left), op, (w.rank)(right)),
        PredView::And(ps) => forall|i: int| 0 <= i < ps.len() ==> holds(#[trigger] ps[i], w),
        PredView::Or(ps) => exists|i: int| 0 <= i < ps.len() && holds(#[trigger] ps[i], w),
        PredView::Opaque { text, negated } => (w.met)(text) != negated,
        PredView::True => true,
        PredView::False => false,
    }
}

/// The parts of a connective hold together.
pub open spec fn hold_together(ps: Seq<PredView>, is_or: bool, w: World) -> bool {
    if is_or {
        exists|i: int| 0 <= i < ps.len() && holds(#[trigger] ps[i], w)
    } else {
        forall|i: int| 0 <= i < ps.len() ==> holds(#[trigger] ps[i], w)
    }
}

/// A predicate whose sets are sets, and whose comparisons are among those of the canonical form.
pub open spec fn sound(p: PredView) -> bool
    decreases p,
{
    match p {
        PredView::In { field, values } => rising(values),
        PredView::NotIn { field, values } => rising(values),
        PredView::Compare { left, op, right } => op == "<"@ || op == "<="@ || op == "=="@ || op
            == "!="@,
        PredView::And(ps) => forall|i: int| 0 <= i < ps.len() ==> sound(#[trigger] ps[i]),
        PredView::Or(ps) => forall|i: int| 0 <= i < ps.len() ==> sound(#[trigger] ps[i]),
        _ => true,
    }
}

/// Every part is sound.
pub open spec fn all_sound(ps: Seq<PredView>) -> bool {
    forall|i: int| 0 <= i < ps.len() ==> sound(#[trigger] ps[i])
}

proof fn connective_means(ps: Seq<PredView>, w: World)
    ensures
        holds(PredView::And(ps), w) == hold_together(ps, false, w),
        holds(PredView::Or(ps), w) == hold_together(ps, true, w),
{
    let all = PredView::And(ps);
    let any = PredView::Or(ps);
    if holds(all, w) {
        assert forall|i: int| 0 <= i < ps.len() implies holds(#[trigger] ps[i], w) by {
            assert(all->And_0[i] == ps[i]);
        }
    } else {
        let i = choose|i: int| 0 <= i < all->And_0.len() && !holds(#[trigger] all->And_0[i], w);
        assert(!holds(ps[i], w));
    }
    if holds(any, w) {
        let i = choose|i: int| 0 <= i < any->Or_0.len() && holds(#[trigger] any->Or_0[i], w);
        assert(holds(ps[i], w));
    } else {
        assert forall|i: int| 0 <= i < ps.len() implies !holds(#[trigger] ps[i], w) by {
            assert(any->Or_0[i] == ps[i]);
        }
    }
}

/// The operators are six.
pub proof fn operators_differ()
    ensures
        "<"@ != "<="@,
        "<"@ != ">"@,
        "<"@ != ">="@,
        "<"@ != "=="@,
        "<"@ != "!="@,
        "<="@ != ">"@,
        "<="@ != ">="@,
        "<="@ != "=="@,
        "<="@ != "!="@,
        ">"@ != ">="@,
        ">"@ != "=="@,
        ">"@ != "!="@,
        ">="@ != "=="@,
        ">="@ != "!="@,
        "=="@ != "!="@,
{
    reveal_strlit("<");
    reveal_strlit("<=");
    reveal_strlit(">");
    reveal_strlit(">=");
    reveal_strlit("==");
    reveal_strlit("!=");
    assert("<"@.len() == 1 && ">"@.len() == 1);
    assert("<="@.len() == 2 && ">="@.len() == 2 && "=="@.len() == 2 && "!="@.len() == 2);
    assert("<"@[0] == '<' && ">"@[0] == '>');
    assert("<="@[0] == '<' && ">="@[0] == '>' && "=="@[0] == '=' && "!="@[0] == '!');
}

/// A comparison in canonical form means what it says.
pub proof fn comparing_keeps_meaning(left: Text, op: Text, right: Text, w: World)
    requires
        op == "<"@ || op == "<="@ || op == ">"@ || op == ">="@ || op == "=="@ || op == "!="@,
    ensures
        sound(compared(left, op, right)),
        holds(compared(left, op, right), w) == relates((w.rank)(left), op, (w.rank)(right)),
{
    operators_differ();
}

/// Equivalent spellings of a comparison are one predicate: `!(a <= b)` is `a > b`, `!(a < b)` is
/// `a >= b`, and an equality has no direction.
pub proof fn spellings_agree(a: Text, b: Text)
    ensures
        negation(compared(a, "<="@, b)) == compared(a, ">"@, b),
        negation(compared(a, "<"@, b)) == compared(a, ">="@, b),
        negation(compared(a, ">"@, b)) == compared(a, "<="@, b),
        negation(compared(a, ">="@, b)) == compared(a, "<"@, b),
        compared(a, "=="@, b) == compared(b, "=="@, a),
        compared(a, "!="@, b) == compared(b, "!="@, a),
        negation(compared(a, "=="@, b)) == compared(a, "!="@, b),
        negation(compared(a, "!="@, b)) == compared(a, "=="@, b),
{
    operators_differ();
    before_total(a, b);
    if before(a, b) && before(b, a) {
        before_transitive(a, b, a);
        before_irreflexive(a);
    }
    before_irreflexive(a);
}

// ---- simplification

proof fn merging_keeps_meaning(q: PredView, p: PredView, is_or: bool, w: World)
    requires
        sound(q),
        sound(p),
        merged(q, p, is_or) is Some,
    ensures
        sound(merged(q, p, is_or)->Some_0),
        holds(merged(q, p, is_or)->Some_0, w) == (if is_or {
            holds(q, w) || holds(p, w)
        } else {
            holds(q, w) && holds(p, w)
        }),
{
    match (p, q) {
        (PredView::In { field: f1, values: v1 }, PredView::In { field: f2, values: v2 }) => {
            united_members(v2, v1);
            common_members(v1, v2);
        },
        (PredView::NotIn { field: f1, values: v1 }, PredView::NotIn { field: f2, values: v2 }) => {
            united_members(v2, v1);
        },
        _ => {},
    }
}

proof fn absorbing_keeps_meaning(
    out: Seq<PredView>,
    p: PredView,
    is_or: bool,
    i: int,
    w: World,
)
    requires
        all_sound(out),
        sound(p),
        0 <= i <= out.len(),
    ensures
        all_sound(absorbed(out, p, is_or, i)),
        hold_together(absorbed(out, p, is_or, i), is_or, w) == (if is_or {
            hold_together(out, is_or, w) || holds(p, w)
        } else {
            hold_together(out, is_or, w) && holds(p, w)
        }),
    decreases out.len() - i,
{
    let next = absorbed(out, p, is_or, i);
    if i < out.len() {
        match merged(out[i], p, is_or) {
            Some(q) => {
                merging_keeps_meaning(out[i], p, is_or, w);
                assert(next == out.update(i, q));
                assert(next[i] == q);
                if is_or {
                    if hold_together(next, is_or, w) {
                        let j = choose|j: int| 0 <= j < next.len() && holds(#[trigger] next[j], w);
                        if j != i {
                            assert(out[j] == next[j]);
                        } else {
                            assert(holds(out[i], w) || holds(p, w));
                        }
                    }
                    if hold_together(out, is_or, w) {
                        let j = choose|j: int| 0 <= j < out.len() && holds(#[trigger] out[j], w);
                        if j != i {
                            assert(next[j] == out[j]);
                        } else {
                            assert(holds(next[i], w));
                        }
                    }
                    if holds(p, w) {
                        assert(holds(next[i], w));
                    }
                } else {
                    if hold_together(next, is_or, w) {
                        assert(holds(next[i], w));
                        assert forall|j: int| 0 <= j < out.len() implies holds(
                            #[trigger] out[j],
                            w,
                        ) by {
                            if j != i {
                                assert(next[j] == out[j]);
                            }
                        }
                    }
                    if hold_together(out, is_or, w) && holds(p, w) {
                        assert(holds(out[i], w));
                        assert forall|j: int| 0 <= j < next.len() implies holds(
                            #[trigger] next[j],
                            w,
                        ) by {
                            if j != i {
                                assert(next[j] == out[j]);
                            }
                        }
                    }
                }
            },
            None => {
                absorbing_keeps_meaning(out, p, is_or, i + 1, w);
            },
        }
    } else if out.contains(p) {
        let j = choose|j: int| 0 <= j < out.len() && out[j] == p;
        assert(holds(out[j], w) == holds(p, w));
    } else {
        assert(next == out.push(p));
        assert(next[out.len() as int] == p);
        if is_or {
            if hold_together(out, is_or, w) {
                let j = choose|j: int| 0 <= j < out.len() && holds(#[trigger] out[j], w);
                assert(next[j] == out[j]);
            }
            if hold_together(next, is_or, w) {
                let j = choose|j: int| 0 <= j < next.len() && holds(#[trigger] next[j], w);
                if j < out.len() {
                    assert(out[j] == next[j]);
                }
            }
        } else {
            if hold_together(next, is_or, w) {
                assert(holds(next[out.len() as int], w));
                assert forall|j: int| 0 <= j < out.len() implies holds(#[trigger] out[j], w) by {
                    assert(next[j] == out[j]);
                }
            }
        }
    }
}

proof fn absorbing_all_keeps_meaning(
    flat: Seq<PredView>,
    is_or: bool,
    i: int,
    out: Seq<PredView>,
    w: World,
)
    requires
        all_sound(flat),
        all_sound(out),
        0 <= i <= flat.len(),
    ensures
        all_sound(absorbed_all(flat, is_or, i, out)),
        hold_together(absorbed_all(flat, is_or, i, out), is_or, w) == (if is_or {
            hold_together(out, is_or, w) || hold_together(flat.skip(i), is_or, w)
        } else {
            hold_together(out, is_or, w) && hold_together(flat.skip(i), is_or, w)
        }),
    decreases flat.len() - i,
{
    if i < flat.len() {
        absorbing_keeps_meaning(out, flat[i], is_or, 0, w);
        absorbing_all_keeps_meaning(flat, is_or, i + 1, absorbed(out, flat[i], is_or, 0), w);
        assert(flat.skip(i) =~= seq![flat[i]] + flat.skip(i + 1));
        parts_hold_together(seq![flat[i]], flat.skip(i + 1), is_or, w);
        one_holds(flat[i], is_or, w);
    } else {
        assert(flat.skip(i).len() == 0);
    }
}

proof fn one_holds(p: PredView, is_or: bool, w: World)
    ensures
        hold_together(seq![p], is_or, w) == holds(p, w),
{
    assert(seq![p][0] == p);
}

proof fn parts_hold_together(a: Seq<PredView>, b: Seq<PredView>, is_or: bool, w: World)
    ensures
        hold_together(a + b, is_or, w) == (if is_or {
            hold_together(a, is_or, w) || hold_together(b, is_or, w)
        } else {
            hold_together(a, is_or, w) && hold_together(b, is_or, w)
        }),
{
    let c = a + b;
    assert forall|i: int| 0 <= i < a.len() implies #[trigger] a[i] == c[i] by {}
    assert forall|i: int| 0 <= i < b.len() implies #[trigger] b[i] == c[a.len() + i] by {}
    if is_or {
        if hold_together(a, is_or, w) {
            let j = choose|j: int| 0 <= j < a.len() && holds(#[trigger] a[j], w);
            assert(holds(c[j], w));
        }
        if hold_together(b, is_or, w) {
            let j = choose|j: int| 0 <= j < b.len() && holds(#[trigger] b[j], w);
            assert(holds(c[a.len() + j], w));
        }
        if hold_together(c, is_or, w) {
            let j = choose|j: int| 0 <= j < c.len() && holds(#[trigger] c[j], w);
            if j < a.len() {
                assert(holds(a[j], w));
            } else {
                assert(holds(b[j - a.len()], w));
            }
        }
    } else {
        if hold_together(c, is_or, w) {
            assert forall|i: int| 0 <= i < a.len() implies holds(#[trigger] a[i], w) by {
                assert(holds(c[i], w));
            }
            assert forall|i: int| 0 <= i < b.len() implies holds(#[trigger] b[i], w) by {
                assert(holds(c[a.len() + i], w));
            }
        }
        if hold_together(a, is_or, w) && hold_together(b, is_or, w) {
            assert forall|i: int| 0 <= i < c.len() implies holds(#[trigger] c[i], w) by {
                if i < a.len() {
                    assert(c[i] == a[i]);
                } else {
                    assert(c[i] == b[i - a.len()]);
                }
            }
        }
    }
}

proof fn spreading_keeps_meaning(p: PredView, is_or: bool, w: World)
    requires
        sound(p),
    ensures
        all_sound(spread(p, is_or)),
        hold_together(spread(p, is_or), is_or, w) == holds(p, w),
{
    one_holds(p, is_or, w);
}

proof fn connecting_keeps_meaning(out: Seq<PredView>, is_or: bool, w: World)
    requires
        all_sound(out),
    ensures
        sound(connected(out, is_or)),
        holds(connected(out, is_or), w) == hold_together(out, is_or, w),
{
    if out.len() == 1 {
        assert(out =~= seq![out[0]]);
        one_holds(out[0], is_or, w);
    } else {
        connective_means(out, w);
    }
}

proof fn flattening_keeps_meaning(ps: Seq<PredView>, is_or: bool, i: int, w: World)
    requires
        all_sound(ps),
        0 <= i <= ps.len(),
    ensures
        all_sound(flattened(ps, is_or, i)),
        hold_together(flattened(ps, is_or, i), is_or, w) == hold_together(ps.skip(i), is_or, w),
    decreases ps, ps.len() - i,
{
    if i < ps.len() {
        simplifying_keeps_meaning(ps[i], w);
        spreading_keeps_meaning(simplified(ps[i]), is_or, w);
        flattening_keeps_meaning(ps, is_or, i + 1, w);
        let head = spread(simplified(ps[i]), is_or);
        let rest = flattened(ps, is_or, i + 1);
        parts_hold_together(head, rest, is_or, w);
        assert(ps.skip(i) =~= seq![ps[i]] + ps.skip(i + 1));
        parts_hold_together(seq![ps[i]], ps.skip(i + 1), is_or, w);
        one_holds(ps[i], is_or, w);
        assert forall|k: int| 0 <= k < (head + rest).len() implies sound(
            #[trigger] (head + rest)[k],
        ) by {
            if k < head.len() {
                assert((head + rest)[k] == head[k]);
            } else {
                assert((head + rest)[k] == rest[k - head.len()]);
            }
        }
    } else {
        assert(ps.skip(i).len() == 0);
    }
}

/// Simplifying a predicate does not change where it holds.
pub proof fn simplifying_keeps_meaning(p: PredView, w: World)
    requires
        sound(p),
    ensures
        sound(simplified(p)),
        holds(simplified(p), w) == holds(p, w),
    decreases p, 0int,
{
    let none = Seq::<PredView>::empty();
    assert(none =~= seq![]);
    match p {
        PredView::Or(ps) => {
            flattening_keeps_meaning(ps, true, 0, w);
            let flat = flattened(ps, true, 0);
            absorbing_all_keeps_meaning(flat, true, 0, none, w);
            assert(flat.skip(0) =~= flat);
            assert(ps.skip(0) =~= ps);
            connecting_keeps_meaning(absorbed_all(flat, true, 0, none), true, w);
        },
        PredView::And(ps) => {
            flattening_keeps_meaning(ps, false, 0, w);
            let flat = flattened(ps, false, 0);
            absorbing_all_keeps_meaning(flat, false, 0, none, w);
            assert(flat.skip(0) =~= flat);
            assert(ps.skip(0) =~= ps);
            connecting_keeps_meaning(absorbed_all(flat, false, 0, none), false, w);
        },
        _ => {},
    }
}

// ---- negation

proof fn negating_all_turns_meaning(ps: Seq<PredView>, i: int, w: World)
    requires
        all_sound(ps),
        0 <= i <= ps.len(),
    ensures
        negated_all(ps, i).len() == ps.len() - i,
        forall|k: int|
            0 <= k < ps.len() - i ==> sound(#[trigger] negated_all(ps, i)[k]) && holds(
                negated_all(ps, i)[k],
                w,
            ) == !holds(ps[i + k], w),
    decreases ps, ps.len() - i,
{
    if i < ps.len() {
        negating_turns_meaning(ps[i], w);
        negating_all_turns_meaning(ps, i + 1, w);
        let rest = negated_all(ps, i + 1);
        let all = seq![negation(ps[i])] + rest;
        assert forall|k: int| 0 <= k < ps.len() - i implies sound(#[trigger] all[k]) && holds(
            all[k],
            w,
        ) == !holds(ps[i + k], w) by {
            if k > 0 {
                assert(all[k] == rest[k - 1]);
            }
        }
    }
}

/// The negation of a predicate holds exactly where the predicate does not.
pub proof fn negating_turns_meaning(p: PredView, w: World)
    requires
        sound(p),
    ensures
        sound(negation(p)),
        holds(negation(p), w) == !holds(p, w),
    decreases p, 0int,
{
    operators_differ();
    match p {
        PredView::And(ps) => {
            negating_all_turns_meaning(ps, 0, w);
            let ns = negated_all(ps, 0);
            assert(all_sound(ns));
            simplifying_keeps_meaning(PredView::Or(ns), w);
            if holds(PredView::Or(ns), w) {
                let k = choose|k: int| 0 <= k < ns.len() && holds(#[trigger] ns[k], w);
                assert(!holds(ps[k], w));
            }
            if !holds(p, w) {
                let k = choose|k: int| 0 <= k < ps.len() && !holds(#[trigger] ps[k], w);
                assert(holds(ns[k], w) == !holds(ps[0 + k], w));
            }
        },
        PredView::Or(ps) => {
            negating_all_turns_meaning(ps, 0, w);
            let ns = negated_all(ps, 0);
            assert(all_sound(ns));
            simplifying_keeps_meaning(PredView::And(ns), w);
            if holds(p, w) {
                let k = choose|k: int| 0 <= k < ps.len() && holds(#[trigger] ps[k], w);
                assert(holds(ns[k], w) == !holds(ps[0 + k], w));
            }
            if !holds(p, w) {
                assert forall|k: int| 0 <= k < ns.len() implies holds(#[trigger] ns[k], w) by {
                    assert(!holds(ps[k], w));
                }
            }
        },
        _ => {},
    }
}

// ---- domains

/// Every field with a finite domain has a value of it.
pub open spec fn in_bounds<D: DomainTable>(w: World, d: D) -> bool {
    forall|field: Text|
        match #[trigger] d.domain_of(field) {
            Some(all) => all.contains((w.value)(field)),
            None => true,
        }
}

/// Reading an exclusion as membership in the rest of a finite domain does not change where the
/// predicate holds, in any world that keeps to the domains.
pub proof fn domains_keep_meaning<D: DomainTable>(p: PredView, d: D, w: World)
    requires
        in_bounds(w, d),
    ensures
        holds(in_domain(p, d), w) == holds(p, w),
    decreases p, 0int,
{
    match p {
        PredView::NotIn { field, values } => match d.domain_of(field) {
            Some(all) => {
                minus_members(all, values);
            },
            None => {},
        },
        PredView::And(ps) => {
            all_domains_keep_meaning(ps, d, 0, w);
            let qs = all_in_domain(ps, d, 0);
            connective_means(ps, w);
            connective_means(qs, w);
            assert forall|i: int| 0 <= i < ps.len() implies holds(#[trigger] ps[i], w) == holds(
                qs[i],
                w,
            ) by {
                assert(holds(qs[i], w) == holds(ps[0 + i], w));
            }
            if holds(p, w) {
                assert forall|i: int| 0 <= i < qs.len() implies holds(#[trigger] qs[i], w) by {
                    assert(holds(ps[i], w));
                }
            }
            if holds(PredView::And(qs), w) {
                assert forall|i: int| 0 <= i < ps.len() implies holds(#[trigger] ps[i], w) by {
                    assert(holds(qs[i], w));
                }
            }
        },
        PredView::Or(ps) => {
            all_domains_keep_meaning(ps, d, 0, w);
            let qs = all_in_domain(ps, d, 0);
            connective_means(ps, w);
            connective_means(qs, w);
            if holds(p, w) {
                let i = choose|i: int| 0 <= i < ps.len() && holds(#[trigger] ps[i], w);
                assert(holds(qs[i], w) == holds(ps[0 + i], w));
            }
            if holds(PredView::Or(qs), w) {
                let i = choose|i: int| 0 <= i < qs.len() && holds(#[trigger] qs[i], w);
                assert(holds(ps[i], w));
            }
        },
        _ => {},
    }
}

proof fn all_domains_keep_meaning<D: DomainTable>(ps: Seq<PredView>, d: D, i: int, w: World)
    requires
        in_bounds(w, d),
        0 <= i <= ps.len(),
    ensures
        all_in_domain(ps, d, i).len() == ps.len() - i,
        forall|k: int|
            0 <= k < ps.len() - i ==> holds(#[trigger] all_in_domain(ps, d, i)[k], w) == holds(
                ps[i + k],
                w,
            ),
    decreases ps, ps.len() - i,
{
    if i < ps.len() {
        domains_keep_meaning(ps[i], d, w);
        all_domains_keep_meaning(ps, d, i + 1, w);
        let rest = all_in_domain(ps, d, i + 1);
        let all = seq![in_domain(ps[i], d)] + rest;
        assert forall|k: int| 0 <= k < ps.len() - i implies holds(#[trigger] all[k], w) == holds(
            ps[i + k],
            w,
        ) by {
            if k > 0 {
                assert(all[k] == rest[k - 1]);
            }
        }
    }
}

} // verus!
