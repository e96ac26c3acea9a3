//! What the inferred invariants are worth: each holds of every writer it was found in, and what
//! every writer does is found.

use crate::infer::{
    confidence_of, cowrite, cowrites_from, cowritten, cowritten_by_all, guarded, guarded_by_all,
    guards_from, has_key, inferred_is_below_certain, keys_kept, keys_of, meets, mined, mined_from,
    mined_of, mined_values, places, sets_non_null, writers_from,
};
use crate::model::{
    targets_from, EntityView, InvariantView, ModelView, RequirementView, WriteFactView,
};
use crate::ordered::{added, added_keeps_order, added_members, common, common_members, rising};
use crate::pred::PredView;
use crate::stillness::{name_of_same, parts_rejoin};
use crate::text;
use crate::text::Text;
use vstd::prelude::*;

verus! {

/// The writers that an invariant is about.
pub open spec fn concerned(m: ModelView, inv: InvariantView) -> Seq<(EntityView, WriteFactView)> {
    writers_from(m.entities, inv.field, inv.value, inv.requirement is CoWrite, 0)
}

/// An invariant that every writer follows, with as much support as it has writers.
pub open spec fn is_unbroken(m: ModelView, inv: InvariantView) -> bool {
    let ws = concerned(m, inv);
    &&& ws.len() >= 1
    &&& inv.requirement is CoWrite ==> ws.len() >= 2
    &&& inv.support == ws.len() as usize
    &&& inv.confidence == confidence_of(ws.len() as int)
    &&& inv.evidence == places(ws)
    &&& forall|j: int| 0 <= j < ws.len() ==> meets(m, inv, (#[trigger] ws[j]).0, seq![])
}

spec fn all_unbroken(m: ModelView, invs: Seq<InvariantView>) -> bool {
    forall|i: int| 0 <= i < invs.len() ==> is_unbroken(m, #[trigger] invs[i])
}

proof fn unbroken_add_up(m: ModelView, a: Seq<InvariantView>, b: Seq<InvariantView>)
    requires
        all_unbroken(m, a),
        all_unbroken(m, b),
    ensures
        all_unbroken(m, a + b),
{
    assert forall|i: int| 0 <= i < (a + b).len() implies is_unbroken(m, #[trigger] (a + b)[i]) by {
        if i < a.len() {
            assert(is_unbroken(m, a[i]));
        } else {
            assert(is_unbroken(m, b[i - a.len()]));
        }
    }
}

// ---- fields written together

proof fn cowritten_are_set(e: EntityView, field: Text, i: int, acc: Seq<Text>, g: Text)
    requires
        0 <= i,
        rising(acc),
        acc.contains(g) ==> sets_non_null(e, g),
    ensures
        cowritten(e, field, i, acc).contains(g) ==> sets_non_null(e, g),
    decreases e.writes.len() - i,
{
    if i < e.writes.len() {
        let w = e.writes[i];
        if w.field != field && w.value != Some("null"@) {
            added_keeps_order(acc, w.field);
            added_members(acc, w.field, g);
            if g == w.field {
                assert(e.writes[i].field == g);
                assert(sets_non_null(e, g));
            }
            cowritten_are_set(e, field, i + 1, added(acc, w.field), g);
        } else {
            cowritten_are_set(e, field, i + 1, acc, g);
        }
    }
}

proof fn cowritten_by_each(
    ws: Seq<(EntityView, WriteFactView)>,
    field: Text,
    i: int,
    acc: Option<Seq<Text>>,
    g: Text,
)
    requires
        0 <= i <= ws.len(),
        cowritten_by_all(ws, field, i, acc).contains(g),
    ensures
        acc matches Some(c) ==> c.contains(g),
        forall|j: int| i <= j < ws.len() ==> sets_non_null((#[trigger] ws[j]).0, g),
    decreases ws.len() - i,
{
    if i < ws.len() {
        let here = cowritten(ws[i].0, field, 0, seq![]);
        let next = match acc {
            None => here,
            Some(c) => common(c, here),
        };
        cowritten_by_each(ws, field, i + 1, Some(next), g);
        match acc {
            None => {},
            Some(c) => {
                common_members(c, here);
            },
        }
        let none = Seq::<Text>::empty();
        assert(none =~= seq![]);
        cowritten_are_set(ws[i].0, field, 0, none, g);
    }
}

proof fn cowrites_hold(m: ModelView, field: Text, value: Text, gs: Seq<Text>, i: int)
    requires
        0 <= i <= gs.len(),
        writers_from(m.entities, field, value, true, 0).len() >= 2,
        forall|k: int, j: int|
            0 <= k < gs.len() && 0 <= j < writers_from(m.entities, field, value, true, 0).len()
                ==> sets_non_null(
                #[trigger] writers_from(m.entities, field, value, true, 0)[j].0,
                #[trigger] gs[k],
            ),
    ensures
        all_unbroken(
            m,
            cowrites_from(field, value, writers_from(m.entities, field, value, true, 0), gs, i),
        ),
    decreases gs.len() - i,
{
    let ws = writers_from(m.entities, field, value, true, 0);
    if i < gs.len() {
        cowrites_hold(m, field, value, gs, i + 1);
        let inv = cowrite(field, value, ws, gs[i]);
        inferred_is_below_certain(ws.len() as int, ws.len() as int);
        assert(concerned(m, inv) == ws);
        assert forall|j: int| 0 <= j < ws.len() implies meets(
            m,
            inv,
            (#[trigger] ws[j]).0,
            seq![],
        ) by {
            assert(sets_non_null(ws[j].0, gs[i]));
        }
        assert(is_unbroken(m, inv));
        assert(all_unbroken(m, seq![inv]));
        unbroken_add_up(m, seq![inv], cowrites_from(field, value, ws, gs, i + 1));
    }
}

// ---- guards in common

proof fn kept_keys(
    keys: Seq<(Text, PredView)>,
    others: Seq<(Text, PredView)>,
    i: int,
    x: (Text, PredView),
)
    requires
        0 <= i <= keys.len(),
        keys_kept(keys, others, i).contains(x),
    ensures
        keys.contains(x),
        has_key(others, x.0),
    decreases keys.len() - i,
{
    if i < keys.len() {
        let rest = keys_kept(keys, others, i + 1);
        let all = keys_kept(keys, others, i);
        let k = choose|k: int| 0 <= k < all.len() && all[k] == x;
        if has_key(others, keys[i].0) {
            if k == 0 {
                assert(keys[i] == x);
            } else {
                assert(rest[k - 1] == x);
                kept_keys(keys, others, i + 1, x);
            }
        } else {
            assert(rest[k] == x);
            kept_keys(keys, others, i + 1, x);
        }
    }
}

proof fn guarded_by_each(
    m: ModelView,
    ws: Seq<(EntityView, WriteFactView)>,
    field: Text,
    i: int,
    acc: Option<Seq<(Text, PredView)>>,
    x: (Text, PredView),
)
    requires
        0 <= i <= ws.len(),
        guarded_by_all(m, ws, field, i, acc).contains(x),
    ensures
        acc matches Some(c) ==> c.contains(x),
        forall|j: int|
            i <= j < ws.len() ==> has_key(keys_of(m, (#[trigger] ws[j]).0, field), x.0),
    decreases ws.len() - i,
{
    if i < ws.len() {
        let here = keys_of(m, ws[i].0, field);
        let next = match acc {
            None => here,
            Some(c) => keys_kept(c, here, 0),
        };
        guarded_by_each(m, ws, field, i + 1, Some(next), x);
        match acc {
            None => {
                let k = choose|k: int| 0 <= k < here.len() && here[k] == x;
                assert(here[k].0 == x.0);
            },
            Some(c) => {
                kept_keys(c, here, 0, x);
            },
        }
    }
}

proof fn guards_hold(m: ModelView, field: Text, value: Text, gs: Seq<(Text, PredView)>, i: int)
    requires
        0 <= i <= gs.len(),
        gs.len() > 0 ==> writers_from(m.entities, field, value, false, 0).len() >= 1,
        forall|k: int, j: int|
            0 <= k < gs.len() && 0 <= j < writers_from(m.entities, field, value, false, 0).len()
                ==> has_key(
                keys_of(
                    m,
                    #[trigger] writers_from(m.entities, field, value, false, 0)[j].0,
                    field,
                ),
                (#[trigger] gs[k]).0,
            ),
    ensures
        all_unbroken(
            m,
            guards_from(field, value, writers_from(m.entities, field, value, false, 0), gs, i),
        ),
    decreases gs.len() - i,
{
    let ws = writers_from(m.entities, field, value, false, 0);
    if i < gs.len() {
        guards_hold(m, field, value, gs, i + 1);
        let inv = guarded(field, value, ws, gs[i]);
        inferred_is_below_certain(ws.len() as int, ws.len() as int);
        assert(concerned(m, inv) == ws);
        let none = Seq::<(Text, Text)>::empty();
        assert(none =~= seq![]);
        match text::parted(gs[i].0, "call:"@) {
            Some((neg, id)) => {
                parts_rejoin(gs[i].0, "call:"@, 0);
                name_of_same(none, id);
            },
            None => {},
        }
        assert forall|j: int| 0 <= j < ws.len() implies meets(
            m,
            inv,
            (#[trigger] ws[j]).0,
            none,
        ) by {
            assert(has_key(keys_of(m, ws[j].0, field), gs[i].0));
        }
        assert(is_unbroken(m, inv));
        assert(all_unbroken(m, seq![inv]));
        unbroken_add_up(m, seq![inv], guards_from(field, value, ws, gs, i + 1));
    }
}

// ---- all of them

proof fn mined_of_holds(m: ModelView, field: Text, value: Text)
    ensures
        all_unbroken(m, mined_of(m, field, value)),
{
    let all = writers_from(m.entities, field, value, true, 0);
    let later = writers_from(m.entities, field, value, false, 0);
    let gs = cowritten_by_all(all, field, 0, None);
    let ks = guarded_by_all(m, later, field, 0, None);
    let first = if all.len() >= 2 {
        cowrites_from(field, value, all, gs, 0)
    } else {
        seq![]
    };
    if all.len() >= 2 {
        assert forall|k: int, j: int| 0 <= k < gs.len() && 0 <= j < all.len() implies sets_non_null(
            #[trigger] all[j].0,
            #[trigger] gs[k],
        ) by {
            assert(gs.contains(gs[k]));
            cowritten_by_each(all, field, 0, None, gs[k]);
        }
        cowrites_hold(m, field, value, gs, 0);
    }
    assert forall|k: int, j: int| 0 <= k < ks.len() && 0 <= j < later.len() implies has_key(
        keys_of(m, #[trigger] later[j].0, field),
        (#[trigger] ks[k]).0,
    ) by {
        assert(ks.contains(ks[k]));
        guarded_by_each(m, later, field, 0, None, ks[k]);
    }
    guards_hold(m, field, value, ks, 0);
    unbroken_add_up(m, first, guards_from(field, value, later, ks, 0));
}

proof fn mined_values_hold(m: ModelView, field: Text, values: Seq<Text>, i: int)
    ensures
        all_unbroken(m, mined_values(m, field, values, i)),
    decreases values.len() - i,
{
    if 0 <= i < values.len() {
        mined_of_holds(m, field, values[i]);
        mined_values_hold(m, field, values, i + 1);
        unbroken_add_up(
            m,
            mined_of(m, field, values[i]),
            mined_values(m, field, values, i + 1),
        );
    }
}

proof fn mined_from_holds(m: ModelView, i: int)
    ensures
        all_unbroken(m, mined_from(m, i)),
    decreases m.state_machines.len() - i,
{
    if 0 <= i < m.state_machines.len() {
        let sm = m.state_machines[i].1;
        let values = targets_from(sm.edges, 0, seq![]);
        mined_values_hold(m, sm.field, values, 0);
        mined_from_holds(m, i + 1);
        unbroken_add_up(m, mined_values(m, sm.field, values, 0), mined_from(m, i + 1));
    }
}

/// An inferred invariant has no counterexample in the model it was found in: every writer that
/// it is about follows it, and its support is their number, one at least and two where it is
/// about fields written together.
pub proof fn mined_invariants_hold(m: ModelView, i: int)
    requires
        0 <= i < mined(m).len(),
    ensures
        is_unbroken(m, mined(m)[i]),
        50 <= mined(m)[i].confidence < 100,
{
    mined_from_holds(m, 0);
    let n = concerned(m, mined(m)[i]).len() as int;
    inferred_is_below_certain(n, n);
}

// ---- what is found

/// An entity writes a field other than the one of the state, and not `null`.
pub open spec fn writes_too(e: EntityView, field: Text, g: Text) -> bool {
    g != field && exists|k: int|
        0 <= k < e.writes.len() && (#[trigger] e.writes[k]).field == g && e.writes[k].value != Some(
            "null"@,
        )
}

proof fn cowritten_are_those(e: EntityView, field: Text, i: int, acc: Seq<Text>)
    requires
        rising(acc),
        0 <= i,
    ensures
        rising(cowritten(e, field, i, acc)),
        forall|g: Text|
            #[trigger] cowritten(e, field, i, acc).contains(g) <==> acc.contains(g) || writes_too_from(
                e,
                field,
                i,
                g,
            ),
    decreases e.writes.len() - i,
{
    if i < e.writes.len() {
        let w = e.writes[i];
        let next = if w.field != field && w.value != Some("null"@) {
            added(acc, w.field)
        } else {
            acc
        };
        added_keeps_order(acc, w.field);
        cowritten_are_those(e, field, i + 1, next);
        assert forall|g: Text|
            #[trigger] cowritten(e, field, i, acc).contains(g) <==> acc.contains(g) || writes_too_from(
                e,
                field,
                i,
                g,
            ) by {
            added_members(acc, w.field, g);
            assert(cowritten(e, field, i + 1, next).contains(g) <==> next.contains(g)
                || writes_too_from(e, field, i + 1, g));
            if writes_too_from(e, field, i, g) {
                let k = choose|k: int|
                    i <= k < e.writes.len() && (#[trigger] e.writes[k]).field == g && e.writes[k].value
                        != Some("null"@);
                if k > i {
                    assert(writes_too_from(e, field, i + 1, g));
                }
            }
            if writes_too_from(e, field, i + 1, g) {
                let k = choose|k: int|
                    i + 1 <= k < e.writes.len() && (#[trigger] e.writes[k]).field == g
                        && e.writes[k].value != Some("null"@);
                assert(e.writes[k].field == g);
            }
            if w.field == g && w.value != Some("null"@) && g != field {
                assert(e.writes[i].field == g);
            }
        }
    }
}

spec fn writes_too_from(e: EntityView, field: Text, i: int, g: Text) -> bool {
    g != field && exists|k: int|
        i <= k < e.writes.len() && (#[trigger] e.writes[k]).field == g && e.writes[k].value != Some(
            "null"@,
        )
}

proof fn written_by_all_is_kept(
    ws: Seq<(EntityView, WriteFactView)>,
    field: Text,
    i: int,
    acc: Option<Seq<Text>>,
    g: Text,
)
    requires
        0 <= i,
        acc matches Some(c) ==> c.contains(g),
        acc is None ==> i < ws.len(),
        forall|n: int| i <= n < ws.len() ==> writes_too((#[trigger] ws[n]).0, field, g),
    ensures
        cowritten_by_all(ws, field, i, acc).contains(g),
    decreases ws.len() - i,
{
    if i < ws.len() {
        let none = Seq::<Text>::empty();
        assert(none =~= seq![]);
        let here = cowritten(ws[i].0, field, 0, seq![]);
        cowritten_are_those(ws[i].0, field, 0, none);
        assert(writes_too(ws[i].0, field, g));
        assert(writes_too_from(ws[i].0, field, 0, g));
        assert(here.contains(g));
        let next = match acc {
            None => here,
            Some(c) => common(c, here),
        };
        if let Some(c) = acc {
            common_members(c, here);
        }
        written_by_all_is_kept(ws, field, i + 1, Some(next), g);
    }
}

proof fn key_kept(keys: Seq<(Text, PredView)>, others: Seq<(Text, PredView)>, i: int, key: Text)
    requires
        0 <= i,
        exists|n: int| i <= n < keys.len() && (#[trigger] keys[n]).0 == key,
        has_key(others, key),
    ensures
        has_key(keys_kept(keys, others, i), key),
    decreases keys.len() - i,
{
    let n = choose|n: int| i <= n < keys.len() && (#[trigger] keys[n]).0 == key;
    let rest = keys_kept(keys, others, i + 1);
    let all = keys_kept(keys, others, i);
    if n == i {
        assert(all[0].0 == key);
    } else {
        assert(i + 1 <= n && keys[n].0 == key);
        key_kept(keys, others, i + 1, key);
        let j = choose|j: int| 0 <= j < rest.len() && (#[trigger] rest[j]).0 == key;
        assert(all[all.len() - rest.len() + j] == rest[j]);
    }
}

proof fn guarded_by_all_is_kept(
    m: ModelView,
    ws: Seq<(EntityView, WriteFactView)>,
    field: Text,
    i: int,
    acc: Option<Seq<(Text, PredView)>>,
    key: Text,
)
    requires
        0 <= i,
        acc matches Some(c) ==> has_key(c, key),
        acc is None ==> i < ws.len(),
        forall|n: int| i <= n < ws.len() ==> has_key(keys_of(m, (#[trigger] ws[n]).0, field), key),
    ensures
        has_key(guarded_by_all(m, ws, field, i, acc), key),
    decreases ws.len() - i,
{
    if i < ws.len() {
        let here = keys_of(m, ws[i].0, field);
        assert(has_key(here, key));
        let next = match acc {
            None => here,
            Some(c) => keys_kept(c, here, 0),
        };
        if let Some(c) = acc {
            let n = choose|n: int| 0 <= n < c.len() && (#[trigger] c[n]).0 == key;
            assert(c[n].0 == key);
            key_kept(c, here, 0, key);
        }
        guarded_by_all_is_kept(m, ws, field, i + 1, Some(next), key);
    }
}

/// Some invariant says that a state of a field asks for something.
pub open spec fn is_found(
    invs: Seq<InvariantView>,
    field: Text,
    value: Text,
    requirement: RequirementView,
) -> bool {
    exists|i: int|
        0 <= i < invs.len() && (#[trigger] invs[i]).field == field && invs[i].value == value
            && invs[i].requirement == requirement
}

proof fn found_in_part(
    a: Seq<InvariantView>,
    b: Seq<InvariantView>,
    field: Text,
    value: Text,
    r: RequirementView,
)
    ensures
        is_found(a, field, value, r) || is_found(b, field, value, r) ==> is_found(
            a + b,
            field,
            value,
            r,
        ),
{
    if is_found(a, field, value, r) {
        let i = choose|i: int|
            0 <= i < a.len() && (#[trigger] a[i]).field == field && a[i].value == value
                && a[i].requirement == r;
        assert((a + b)[i] == a[i]);
    }
    if is_found(b, field, value, r) {
        let i = choose|i: int|
            0 <= i < b.len() && (#[trigger] b[i]).field == field && b[i].value == value
                && b[i].requirement == r;
        assert((a + b)[a.len() + i] == b[i]);
    }
}

proof fn cowrite_is_listed(
    field: Text,
    value: Text,
    ws: Seq<(EntityView, WriteFactView)>,
    gs: Seq<Text>,
    i: int,
    k: int,
)
    requires
        0 <= i <= k < gs.len(),
    ensures
        is_found(
            cowrites_from(field, value, ws, gs, i),
            field,
            value,
            RequirementView::CoWrite(gs[k]),
        ),
    decreases k - i,
{
    let head = seq![cowrite(field, value, ws, gs[i])];
    assert(head[0] == cowrite(field, value, ws, gs[i]));
    found_in_part(
        head,
        cowrites_from(field, value, ws, gs, i + 1),
        field,
        value,
        RequirementView::CoWrite(gs[k]),
    );
    if i < k {
        cowrite_is_listed(field, value, ws, gs, i + 1, k);
    }
}

proof fn guard_is_listed(
    field: Text,
    value: Text,
    ws: Seq<(EntityView, WriteFactView)>,
    gs: Seq<(Text, PredView)>,
    i: int,
    k: int,
)
    requires
        0 <= i <= k < gs.len(),
    ensures
        is_found(
            guards_from(field, value, ws, gs, i),
            field,
            value,
            RequirementView::Guard(gs[k].0),
        ),
    decreases k - i,
{
    let head = seq![guarded(field, value, ws, gs[i])];
    assert(head[0] == guarded(field, value, ws, gs[i]));
    found_in_part(
        head,
        guards_from(field, value, ws, gs, i + 1),
        field,
        value,
        RequirementView::Guard(gs[k].0),
    );
    if i < k {
        guard_is_listed(field, value, ws, gs, i + 1, k);
    }
}

proof fn found_of_value(
    m: ModelView,
    field: Text,
    values: Seq<Text>,
    i: int,
    k: int,
    r: RequirementView,
)
    requires
        0 <= i <= k < values.len(),
        is_found(mined_of(m, field, values[k]), field, values[k], r),
    ensures
        is_found(mined_values(m, field, values, i), field, values[k], r),
    decreases k - i,
{
    found_in_part(
        mined_of(m, field, values[i]),
        mined_values(m, field, values, i + 1),
        field,
        values[k],
        r,
    );
    if i < k {
        found_of_value(m, field, values, i + 1, k, r);
    }
}

proof fn found_of_machine(m: ModelView, i: int, n: int, value: Text, r: RequirementView)
    requires
        0 <= i <= n < m.state_machines.len(),
        targets_from(m.state_machines[n].1.edges, 0, seq![]).contains(value),
        is_found(
            mined_of(m, m.state_machines[n].1.field, value),
            m.state_machines[n].1.field,
            value,
            r,
        ),
    ensures
        is_found(mined_from(m, i), m.state_machines[n].1.field, value, r),
    decreases n - i,
{
    let sm = m.state_machines[i].1;
    let values = targets_from(sm.edges, 0, seq![]);
    found_in_part(
        mined_values(m, sm.field, values, 0),
        mined_from(m, i + 1),
        m.state_machines[n].1.field,
        value,
        r,
    );
    if i == n {
        let k = choose|k: int| 0 <= k < values.len() && values[k] == value;
        found_of_value(m, sm.field, values, 0, k, r);
    } else {
        found_of_machine(m, i + 1, n, value, r);
    }
}

/// A field that every writer of a state fills, of two or more, is found as an invariant of that
/// state; so is a guard that every later writer has, of one or more.
pub proof fn shared_habits_are_found(m: ModelView, n: int, value: Text)
    requires
        0 <= n < m.state_machines.len(),
        exists|k: int|
            0 <= k < m.state_machines[n].1.edges.len() && (#[trigger] m.state_machines[n].1.edges[k]).to
                == value,
    ensures
        ({
            let field = m.state_machines[n].1.field;
            let all = writers_from(m.entities, field, value, true, 0);
            let later = writers_from(m.entities, field, value, false, 0);
            &&& forall|g: Text|
                all.len() >= 2 && (forall|j: int|
                    0 <= j < all.len() ==> #[trigger] writes_too(all[j].0, field, g)) ==> #[trigger]
                    is_found(mined(m), field, value, RequirementView::CoWrite(g))
            &&& forall|key: Text|
                later.len() >= 1 && (forall|j: int|
                    0 <= j < later.len() ==> #[trigger] has_key(keys_of(m, later[j].0, field), key))
                    ==> #[trigger] is_found(mined(m), field, value, RequirementView::Guard(key))
        }),
{
    let sm = m.state_machines[n].1;
    let field = sm.field;
    let all = writers_from(m.entities, field, value, true, 0);
    let later = writers_from(m.entities, field, value, false, 0);
    crate::model::targets_are_added(sm.edges, 0, seq![]);
    let k = choose|k: int| 0 <= k < sm.edges.len() && (#[trigger] sm.edges[k]).to == value;
    assert(crate::model::is_target(sm.edges, value, 0));
    let gs = cowritten_by_all(all, field, 0, None);
    let ks = guarded_by_all(m, later, field, 0, None);
    let t0 = if all.len() >= 2 {
        cowrites_from(field, value, all, gs, 0)
    } else {
        seq![]
    };
    let t1 = guards_from(field, value, later, ks, 0);
    assert(mined_of(m, field, value) == t0 + t1);
    assert forall|g: Text|
        all.len() >= 2 && (forall|j: int|
            0 <= j < all.len() ==> #[trigger] writes_too(all[j].0, field, g)) implies #[trigger]
        is_found(mined(m), field, value, RequirementView::CoWrite(g)) by {
        assert forall|j: int| 0 <= j < all.len() implies writes_too((#[trigger] all[j]).0, field, g) by {}
        written_by_all_is_kept(all, field, 0, None, g);
        let x = choose|x: int| 0 <= x < gs.len() && gs[x] == g;
        cowrite_is_listed(field, value, all, gs, 0, x);
        found_in_part(t0, t1, field, value, RequirementView::CoWrite(g));
        found_of_machine(m, 0, n, value, RequirementView::CoWrite(g));
    }
    assert forall|key: Text|
        later.len() >= 1 && (forall|j: int|
            0 <= j < later.len() ==> #[trigger] has_key(keys_of(m, later[j].0, field), key))
        implies #[trigger] is_found(mined(m), field, value, RequirementView::Guard(key)) by {
        assert forall|j: int| 0 <= j < later.len() implies has_key(
            keys_of(m, (#[trigger] later[j]).0, field),
            key,
        ) by {}
        guarded_by_all_is_kept(m, later, field, 0, None, key);
        let x = choose|x: int| 0 <= x < ks.len() && (#[trigger] ks[x]).0 == key;
        guard_is_listed(field, value, later, ks, 0, x);
        found_in_part(t0, t1, field, value, RequirementView::Guard(key));
        found_of_machine(m, 0, n, value, RequirementView::Guard(key));
    }
}

} // verus!
