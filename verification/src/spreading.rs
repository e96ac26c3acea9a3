//! How facts spread along calls and events: what a callee or the handler of an event does, its
//! caller or emitter does too, and nothing else is said of either.

use crate::analysis::keyed;
use crate::ir::LocView;
use crate::model::{
    AccessFactView, CallFactView, EffectFactView, EffectInfoView, EffectKeyView, EntityView,
    ModelView, SubscriptionView, SummaryView, WriteFactView,
};
use crate::ordered::{
    added, added_keeps_order, added_members, ascending, keys, lookup, lookup_after_put,
    lookup_of_other, put, put_keeps_order, rising, set_of, slot, slot_bounds, slot_of_stored,
    united, united_members, Rank,
};
use crate::summary::{
    after_calls, after_checks, after_events, after_handlers, check_pass, checks_settled, first_put,
    guards_from, joined_info, no_info, own_access, own_effects, own_summaries, own_summary,
    own_writes, pass, settled, step, summaries_of, summarised, through_call, through_event,
    with_access, with_guards, with_info, with_validations,
};
use crate::text;
use crate::text::Text;
use vstd::prelude::*;

verus! {

// ---- facts

/// One thing that a summary says: an effect is reached, how, through what, and where; a field
/// is read or written.
pub enum Fact {
    Effect(EffectKeyView),
    Mode(EffectKeyView, Text),
    Via(EffectKeyView, Text),
    Evidence(EffectKeyView, LocView),
    Read(Text),
    Write(Text),
}

/// The effects say a thing.
pub open spec fn effects_say(es: Seq<(EffectKeyView, EffectInfoView)>, f: Fact) -> bool {
    match f {
        Fact::Effect(k) => lookup(es, k) is Some,
        Fact::Mode(k, x) => lookup(es, k) is Some && lookup(es, k)->Some_0.modes.contains(x),
        Fact::Via(k, x) => lookup(es, k) is Some && lookup(es, k)->Some_0.via.contains(x),
        Fact::Evidence(k, l) => lookup(es, k) is Some && lookup(es, k)->Some_0.evidence.contains(
            l,
        ),
        _ => false,
    }
}

/// A summary says a thing.
pub open spec fn says(s: SummaryView, f: Fact) -> bool {
    match f {
        Fact::Read(x) => s.reads.contains(x),
        Fact::Write(x) => s.writes.contains(x),
        _ => effects_say(s.effects, f),
    }
}

/// What the summaries say of each entity.
pub open spec fn facts(sums: Seq<(Text, SummaryView)>) -> Set<(Text, Fact)> {
    Set::new(|p: (Text, Fact)| lookup(sums, p.0) is Some && says(lookup(sums, p.0)->Some_0, p.1))
}

/// What a call of `target` makes of the facts.
pub open spec fn from_call(b: Set<(Text, Fact)>, target: Text, f: Fact) -> bool {
    match f {
        Fact::Via(k, x) => x == target && b.contains((target, Fact::Effect(k))),
        _ => b.contains((target, f)),
    }
}

/// What an event that `handler` handles makes of the facts.
pub open spec fn from_event(b: Set<(Text, Fact)>, handler: Text, event: Text, f: Fact) -> bool {
    match f {
        Fact::Effect(k) => b.contains((handler, f)),
        Fact::Mode(k, x) => x == "async via "@ + event && b.contains((handler, Fact::Effect(k))),
        Fact::Via(k, x) => x == "event:"@ + event && b.contains((handler, Fact::Effect(k))),
        Fact::Evidence(k, l) => b.contains((handler, f)),
        _ => false,
    }
}

/// A call of an entity makes a fact of the facts.
pub open spec fn by_call(b: Set<(Text, Fact)>, calls: Seq<CallFactView>, c: int, f: Fact) -> bool {
    0 <= c < calls.len() && from_call(b, calls[c].target, f)
}

/// An event that an entity emits makes a fact of the facts.
pub open spec fn by_event(
    b: Set<(Text, Fact)>,
    effects: Seq<EffectFactView>,
    subs: Seq<SubscriptionView>,
    n: int,
    j: int,
    f: Fact,
) -> bool {
    0 <= n < effects.len() && effects[n].key.kind == "event_emit"@ && 0 <= j < subs.len()
        && subs[j].event == effects[n].key.target && from_event(
        b,
        subs[j].handler,
        effects[n].key.target,
        f,
    )
}

/// A fact of an entity follows from the facts of what it calls and sets off.
pub open spec fn follows(
    b: Set<(Text, Fact)>,
    e: EntityView,
    subs: Seq<SubscriptionView>,
    f: Fact,
) -> bool {
    (exists|c: int| #[trigger] by_call(b, e.calls, c, f)) || (exists|n: int, j: int| #[trigger]
        by_event(b, e.effects, subs, n, j, f))
}

/// Whatever follows for one of the entities is among the facts.
pub open spec fn is_closed(
    entities: Seq<(Text, EntityView)>,
    subs: Seq<SubscriptionView>,
    b: Set<(Text, Fact)>,
) -> bool {
    forall|n: int, f: Fact|
        0 <= n < entities.len() && #[trigger] follows(b, entities[n].1, subs, f) ==> b.contains(
            (entities[n].1.id, f),
        )
}

/// The own facts of the entities are among the facts.
pub open spec fn has_own(entities: Seq<(Text, EntityView)>, b: Set<(Text, Fact)>) -> bool {
    forall|n: int, f: Fact|
        0 <= n < entities.len() && #[trigger] says(own_summary(entities[n].1), f) ==> b.contains(
            (entities[n].1.id, f),
        )
}

// ---- summaries in order

/// The ways to an effect are sets.
pub open spec fn neat_info(i: EffectInfoView) -> bool {
    rising(i.modes) && rising(i.via) && rising(i.evidence)
}

/// The effects are in order, each with its ways.
pub open spec fn neat_effects(es: Seq<(EffectKeyView, EffectInfoView)>) -> bool {
    ascending(es) && forall|n: int| 0 <= n < es.len() ==> neat_info((#[trigger] es[n]).1)
}

/// The effects, reads and writes of a summary are in order.
pub open spec fn neat(s: SummaryView) -> bool {
    neat_effects(s.effects) && rising(s.reads) && rising(s.writes)
}

/// Summaries in order, each of them in order.
pub open spec fn all_neat(sums: Seq<(Text, SummaryView)>) -> bool {
    ascending(sums) && forall|n: int| 0 <= n < sums.len() ==> neat((#[trigger] sums[n]).1)
}

/// What a way to the effect `k` says.
spec fn info_says(k: EffectKeyView, i: EffectInfoView, f: Fact) -> bool {
    match f {
        Fact::Effect(q) => q == k,
        Fact::Mode(q, x) => q == k && i.modes.contains(x),
        Fact::Via(q, x) => q == k && i.via.contains(x),
        Fact::Evidence(q, l) => q == k && i.evidence.contains(l),
        _ => false,
    }
}

proof fn same_members<K: Rank>(a: Seq<K>, b: Seq<K>, n: int)
    requires
        rising(a),
        rising(b),
        forall|x: K| #[trigger] a.contains(x) == b.contains(x),
        0 <= n <= a.len(),
    ensures
        n <= b.len(),
        forall|i: int| 0 <= i < n ==> a[i] == b[i],
    decreases n,
{
    if n > 0 {
        same_members(a, b, n - 1);
        let i = n - 1;
        assert(a.contains(a[i]));
        let j = choose|j: int| 0 <= j < b.len() && b[j] == a[i];
        if j < i {
            assert(a[j] == b[j]);
            assert(a[j].precedes(a[i]));
            K::irreflexive(a[i]);
        }
        assert(i < b.len());
        if a[i] != b[i] {
            assert(j > i);
            assert(b[i].precedes(b[j]));
            assert(b.contains(b[i]));
            assert(a.contains(b[i]));
            let k = choose|k: int| 0 <= k < a.len() && a[k] == b[i];
            if k < i {
                assert(a[k] == b[k]);
                assert(b[k].precedes(b[i]));
                K::irreflexive(b[i]);
            } else if k > i {
                assert(a[i].precedes(a[k]));
                K::transitive(a[i], b[i], a[i]);
                K::irreflexive(a[i]);
            }
        }
    }
}

/// Two sets with the same members are the same.
pub proof fn sets_with_same_members<K: Rank>(a: Seq<K>, b: Seq<K>)
    requires
        rising(a),
        rising(b),
        forall|x: K| #[trigger] a.contains(x) == b.contains(x),
    ensures
        a == b,
{
    same_members(a, b, a.len() as int);
    same_members(b, a, b.len() as int);
    assert(a =~= b);
}

/// The keys of a map are a set: those under which something is stored.
pub proof fn keys_rise<K: Rank, V>(m: Seq<(K, V)>)
    requires
        ascending(m),
    ensures
        rising(keys(m)),
        forall|k: K| #[trigger] keys(m).contains(k) == (lookup(m, k) is Some),
{
    let ks = keys(m);
    assert forall|i: int, j: int| 0 <= i < j < ks.len() implies (#[trigger] ks[i]).precedes(
        #[trigger] ks[j],
    ) by {
        assert(m[i].0.precedes(m[j].0));
    }
    assert forall|k: K| #[trigger] ks.contains(k) == (lookup(m, k) is Some) by {
        slot_bounds(m, k);
        if ks.contains(k) {
            let i = choose|i: int| 0 <= i < ks.len() && ks[i] == k;
            slot_of_stored(m, i);
            assert(m[i].0 == k);
        }
        if lookup(m, k) is Some {
            assert(ks[slot(m, k)] == k);
        }
    }
}

/// Two maps with the same entries are the same.
pub proof fn maps_with_same_entries<K: Rank, V>(a: Seq<(K, V)>, b: Seq<(K, V)>)
    requires
        ascending(a),
        ascending(b),
        forall|k: K| #[trigger] lookup(a, k) == lookup(b, k),
    ensures
        a == b,
{
    keys_rise(a);
    keys_rise(b);
    assert forall|k: K| #[trigger] keys(a).contains(k) == keys(b).contains(k) by {
        assert(lookup(a, k) == lookup(b, k));
    }
    sets_with_same_members(keys(a), keys(b));
    assert(a.len() == keys(a).len());
    assert(b.len() == keys(b).len());
    assert forall|i: int| 0 <= i < a.len() implies a[i] == b[i] by {
        slot_of_stored(a, i);
        slot_of_stored(b, i);
        assert(keys(a)[i] == a[i].0);
        assert(keys(b)[i] == b[i].0);
        assert(lookup(a, a[i].0) == lookup(b, a[i].0));
    }
    assert(a =~= b);
}

proof fn stored_is_neat(es: Seq<(EffectKeyView, EffectInfoView)>, k: EffectKeyView)
    requires
        neat_effects(es),
    ensures
        lookup(es, k) is Some ==> neat_info(lookup(es, k)->Some_0),
{
    slot_bounds(es, k);
}

proof fn summary_is_neat(sums: Seq<(Text, SummaryView)>, id: Text)
    requires
        all_neat(sums),
    ensures
        lookup(sums, id) is Some ==> neat(lookup(sums, id)->Some_0),
{
    slot_bounds(sums, id);
}

proof fn info_is_added(
    es: Seq<(EffectKeyView, EffectInfoView)>,
    k: EffectKeyView,
    info: EffectInfoView,
)
    requires
        neat_effects(es),
    ensures
        neat_effects(with_info(es, k, info)),
        forall|f: Fact|
            #[trigger] effects_say(with_info(es, k, info), f) == (effects_say(es, f) || info_says(
                k,
                info,
                f,
            )),
{
    stored_is_neat(es, k);
    let had = match lookup(es, k) {
        Some(i) => i,
        None => no_info(),
    };
    assert(neat_info(had));
    united_members(had.modes, info.modes);
    united_members(had.via, info.via);
    united_members(had.evidence, info.evidence);
    let v = joined_info(had, info);
    let next = put(es, k, v);
    put_keeps_order(es, k, v);
    lookup_after_put(es, k, v);
    slot_bounds(es, k);
    let at = slot(es, k);
    assert forall|n: int| 0 <= n < next.len() implies neat_info((#[trigger] next[n]).1) by {
        if n < at || (n > at && next.len() == es.len()) {
            assert(next[n] == es[n]);
        } else if n > at {
            assert(next[n] == es[n - 1]);
        }
    }
    assert forall|f: Fact| #[trigger] effects_say(next, f) == (effects_say(es, f) || info_says(
        k,
        info,
        f,
    )) by {
        match f {
            Fact::Effect(q) => {
                if q != k {
                    lookup_of_other(es, k, v, q);
                }
            },
            Fact::Mode(q, x) => {
                if q != k {
                    lookup_of_other(es, k, v, q);
                }
            },
            Fact::Via(q, x) => {
                if q != k {
                    lookup_of_other(es, k, v, q);
                }
            },
            Fact::Evidence(q, l) => {
                if q != k {
                    lookup_of_other(es, k, v, q);
                }
            },
            _ => {},
        }
    }
}

// ---- one step

spec fn called(target: Text, i: EffectInfoView) -> EffectInfoView {
    EffectInfoView { modes: i.modes, via: added(seq![], target), evidence: i.evidence }
}

spec fn handled(event: Text, i: EffectInfoView) -> EffectInfoView {
    EffectInfoView {
        modes: added(seq![], "async via "@ + event),
        via: added(seq![], "event:"@ + event),
        evidence: i.evidence,
    }
}

/// One of the entries from index `i` on says a thing, once it was called or handled.
spec fn some_says(
    theirs: Seq<(EffectKeyView, EffectInfoView)>,
    g: spec_fn(EffectInfoView) -> EffectInfoView,
    i: int,
    f: Fact,
) -> bool {
    exists|n: int| i <= n < theirs.len() && info_says((#[trigger] theirs[n]).0, g(theirs[n].1), f)
}

proof fn some_says_next(
    theirs: Seq<(EffectKeyView, EffectInfoView)>,
    g: spec_fn(EffectInfoView) -> EffectInfoView,
    i: int,
    f: Fact,
)
    requires
        0 <= i < theirs.len(),
    ensures
        some_says(theirs, g, i, f) == (info_says(theirs[i].0, g(theirs[i].1), f) || some_says(
            theirs,
            g,
            i + 1,
            f,
        )),
{
    if some_says(theirs, g, i, f) {
        let n = choose|n: int|
            i <= n < theirs.len() && info_says((#[trigger] theirs[n]).0, g(theirs[n].1), f);
        if n > i {
            assert(i + 1 <= n < theirs.len());
        }
    }
}

proof fn call_is_passed_on(
    target: Text,
    theirs: Seq<(EffectKeyView, EffectInfoView)>,
    i: int,
    acc: Seq<(EffectKeyView, EffectInfoView)>,
)
    requires
        neat_effects(acc),
        0 <= i,
    ensures
        neat_effects(through_call(target, theirs, i, acc)),
        forall|f: Fact|
            #[trigger] effects_say(through_call(target, theirs, i, acc), f) == (effects_say(acc, f)
                || some_says(theirs, |x: EffectInfoView| called(target, x), i, f)),
    decreases theirs.len() - i,
{
    let g = |x: EffectInfoView| called(target, x);
    let all = through_call(target, theirs, i, acc);
    if i < theirs.len() {
        let info = called(target, theirs[i].1);
        info_is_added(acc, theirs[i].0, info);
        let next = with_info(acc, theirs[i].0, info);
        call_is_passed_on(target, theirs, i + 1, next);
        assert(all == through_call(target, theirs, i + 1, next));
        assert forall|f: Fact| #[trigger] effects_say(all, f) == (effects_say(acc, f) || some_says(
            theirs,
            g,
            i,
            f,
        )) by {
            some_says_next(theirs, g, i, f);
            assert(effects_say(next, f) == (effects_say(acc, f) || info_says(
                theirs[i].0,
                info,
                f,
            )));
        }
    }
}

proof fn event_is_passed_on(
    event: Text,
    theirs: Seq<(EffectKeyView, EffectInfoView)>,
    i: int,
    acc: Seq<(EffectKeyView, EffectInfoView)>,
)
    requires
        neat_effects(acc),
        0 <= i,
    ensures
        neat_effects(through_event(event, theirs, i, acc)),
        forall|f: Fact|
            #[trigger] effects_say(through_event(event, theirs, i, acc), f) == (effects_say(acc, f)
                || some_says(theirs, |x: EffectInfoView| handled(event, x), i, f)),
    decreases theirs.len() - i,
{
    let g = |x: EffectInfoView| handled(event, x);
    let all = through_event(event, theirs, i, acc);
    if i < theirs.len() {
        let info = handled(event, theirs[i].1);
        info_is_added(acc, theirs[i].0, info);
        let next = with_info(acc, theirs[i].0, info);
        event_is_passed_on(event, theirs, i + 1, next);
        assert(all == through_event(event, theirs, i + 1, next));
        assert forall|f: Fact| #[trigger] effects_say(all, f) == (effects_say(acc, f) || some_says(
            theirs,
            g,
            i,
            f,
        )) by {
            some_says_next(theirs, g, i, f);
            assert(effects_say(next, f) == (effects_say(acc, f) || info_says(
                theirs[i].0,
                info,
                f,
            )));
        }
    }
}

/// What the effects of a callee say of the caller.
spec fn effects_called(
    theirs: Seq<(EffectKeyView, EffectInfoView)>,
    target: Text,
    f: Fact,
) -> bool {
    match f {
        Fact::Via(k, x) => x == target && lookup(theirs, k) is Some,
        _ => effects_say(theirs, f),
    }
}

/// What the effects of a handler say of the emitter.
spec fn effects_handled(
    theirs: Seq<(EffectKeyView, EffectInfoView)>,
    event: Text,
    f: Fact,
) -> bool {
    match f {
        Fact::Mode(k, x) => x == "async via "@ + event && lookup(theirs, k) is Some,
        Fact::Via(k, x) => x == "event:"@ + event && lookup(theirs, k) is Some,
        _ => effects_say(theirs, f),
    }
}

proof fn only_member(x: Text, y: Text)
    ensures
        added(Seq::<Text>::empty(), x).contains(y) == (y == x),
{
    added_members(Seq::<Text>::empty(), x, y);
}

/// The effect that a fact is about.
spec fn key_of(f: Fact) -> EffectKeyView {
    match f {
        Fact::Effect(k) => k,
        Fact::Mode(k, x) => k,
        Fact::Via(k, x) => k,
        Fact::Evidence(k, l) => k,
        _ => arbitrary(),
    }
}

proof fn called_facts(theirs: Seq<(EffectKeyView, EffectInfoView)>, target: Text, f: Fact)
    requires
        neat_effects(theirs),
    ensures
        some_says(theirs, |x: EffectInfoView| called(target, x), 0, f) == effects_called(
            theirs,
            target,
            f,
        ),
{
    let g = |x: EffectInfoView| called(target, x);
    let k = key_of(f);
    assert(Seq::<Text>::empty() =~= seq![]);
    match f {
        Fact::Via(q, x) => {
            only_member(target, x);
        },
        _ => {},
    }
    if some_says(theirs, g, 0, f) {
        let n = choose|n: int|
            0 <= n < theirs.len() && info_says((#[trigger] theirs[n]).0, g(theirs[n].1), f);
        slot_of_stored(theirs, n);
    }
    if effects_called(theirs, target, f) {
        slot_bounds(theirs, k);
        let n = slot(theirs, k);
        assert(theirs[n].0 == k);
        assert(info_says(theirs[n].0, g(theirs[n].1), f));
    }
}

proof fn handled_facts(theirs: Seq<(EffectKeyView, EffectInfoView)>, event: Text, f: Fact)
    requires
        neat_effects(theirs),
    ensures
        some_says(theirs, |x: EffectInfoView| handled(event, x), 0, f) == effects_handled(
            theirs,
            event,
            f,
        ),
{
    let g = |x: EffectInfoView| handled(event, x);
    let k = key_of(f);
    assert(Seq::<Text>::empty() =~= seq![]);
    match f {
        Fact::Via(q, x) => {
            only_member("event:"@ + event, x);
        },
        Fact::Mode(q, x) => {
            only_member("async via "@ + event, x);
        },
        _ => {},
    }
    if some_says(theirs, g, 0, f) {
        let n = choose|n: int|
            0 <= n < theirs.len() && info_says((#[trigger] theirs[n]).0, g(theirs[n].1), f);
        slot_of_stored(theirs, n);
    }
    if effects_handled(theirs, event, f) {
        slot_bounds(theirs, k);
        let n = slot(theirs, k);
        assert(theirs[n].0 == k);
        assert(info_says(theirs[n].0, g(theirs[n].1), f));
    }
}

/// A call from index `i` on makes a fact.
spec fn some_call(b: Set<(Text, Fact)>, calls: Seq<CallFactView>, i: int, f: Fact) -> bool {
    exists|c: int| i <= c && #[trigger] by_call(b, calls, c, f)
}

/// What is left as it was by what an entity reaches.
spec fn same_checks(s: SummaryView, t: SummaryView) -> bool {
    s.validations == t.validations && s.requirements == t.requirements && s.access == t.access
}

proof fn calls_add(
    calls: Seq<CallFactView>,
    sums: Seq<(Text, SummaryView)>,
    i: int,
    s: SummaryView,
)
    requires
        all_neat(sums),
        neat(s),
        0 <= i,
    ensures
        neat(after_calls(calls, sums, i, s)),
        same_checks(s, after_calls(calls, sums, i, s)),
        forall|f: Fact|
            #[trigger] says(after_calls(calls, sums, i, s), f) == (says(s, f) || some_call(
                facts(sums),
                calls,
                i,
                f,
            )),
    decreases calls.len() - i,
{
    let b = facts(sums);
    let all = after_calls(calls, sums, i, s);
    if i < calls.len() {
        let target = calls[i].target;
        let next = match lookup(sums, target) {
            Some(cs) => SummaryView {
                effects: through_call(target, cs.effects, 0, s.effects),
                reads: united(s.reads, cs.reads),
                writes: united(s.writes, cs.writes),
                ..s
            },
            None => s,
        };
        summary_is_neat(sums, target);
        match lookup(sums, target) {
            Some(cs) => {
                call_is_passed_on(target, cs.effects, 0, s.effects);
                united_members(s.reads, cs.reads);
                united_members(s.writes, cs.writes);
            },
            None => {},
        }
        assert forall|f: Fact| #[trigger] says(next, f) == (says(s, f) || from_call(
            b,
            target,
            f,
        )) by {
            match lookup(sums, target) {
                Some(cs) => {
                    called_facts(cs.effects, target, f);
                    match f {
                        Fact::Read(x) => {},
                        Fact::Write(x) => {},
                        _ => {
                            assert(effects_say(next.effects, f) == (effects_say(s.effects, f)
                                || some_says(
                                cs.effects,
                                |x: EffectInfoView| called(target, x),
                                0,
                                f,
                            )));
                        },
                    }
                },
                None => {},
            }
        }
        calls_add(calls, sums, i + 1, next);
        assert(all == after_calls(calls, sums, i + 1, next));
        assert forall|f: Fact| #[trigger] says(all, f) == (says(s, f) || some_call(
            b,
            calls,
            i,
            f,
        )) by {
            assert(says(next, f) == (says(s, f) || from_call(b, target, f)));
            if from_call(b, target, f) {
                assert(by_call(b, calls, i, f));
            }
            if some_call(b, calls, i, f) {
                let c = choose|c: int| i <= c && #[trigger] by_call(b, calls, c, f);
                if c > i {
                    assert(i + 1 <= c && by_call(b, calls, c, f));
                }
            }
            if some_call(b, calls, i + 1, f) {
                let c = choose|c: int| i + 1 <= c && #[trigger] by_call(b, calls, c, f);
                assert(i <= c && by_call(b, calls, c, f));
            }
        }
    } else {
        assert forall|f: Fact| #[trigger] says(all, f) == (says(s, f) || some_call(
            b,
            calls,
            i,
            f,
        )) by {}
    }
}

/// A subscription from index `i` on makes a fact of the event.
spec fn some_handler(
    b: Set<(Text, Fact)>,
    event: Text,
    subs: Seq<SubscriptionView>,
    i: int,
    f: Fact,
) -> bool {
    exists|j: int|
        i <= j < subs.len() && (#[trigger] subs[j]).event == event && from_event(
            b,
            subs[j].handler,
            event,
            f,
        )
}

proof fn handlers_add(
    event: Text,
    subs: Seq<SubscriptionView>,
    sums: Seq<(Text, SummaryView)>,
    i: int,
    acc: Seq<(EffectKeyView, EffectInfoView)>,
)
    requires
        all_neat(sums),
        neat_effects(acc),
        0 <= i,
    ensures
        neat_effects(after_handlers(event, subs, sums, i, acc)),
        forall|f: Fact|
            #[trigger] effects_say(after_handlers(event, subs, sums, i, acc), f) == (effects_say(
                acc,
                f,
            ) || some_handler(facts(sums), event, subs, i, f)),
    decreases subs.len() - i,
{
    let b = facts(sums);
    let all = after_handlers(event, subs, sums, i, acc);
    if i < subs.len() {
        let handler = subs[i].handler;
        let next = if subs[i].event == event {
            match lookup(sums, handler) {
                Some(hs) => through_event(event, hs.effects, 0, acc),
                None => acc,
            }
        } else {
            acc
        };
        summary_is_neat(sums, handler);
        match lookup(sums, handler) {
            Some(hs) => {
                event_is_passed_on(event, hs.effects, 0, acc);
            },
            None => {},
        }
        assert forall|f: Fact| #[trigger] effects_say(next, f) == (effects_say(acc, f) || (
        subs[i].event == event && from_event(b, handler, event, f))) by {
            match lookup(sums, handler) {
                Some(hs) => {
                    handled_facts(hs.effects, event, f);
                    if subs[i].event == event {
                        assert(effects_say(next, f) == (effects_say(acc, f) || some_says(
                            hs.effects,
                            |x: EffectInfoView| handled(event, x),
                            0,
                            f,
                        )));
                    }
                },
                None => {},
            }
        }
        handlers_add(event, subs, sums, i + 1, next);
        assert(all == after_handlers(event, subs, sums, i + 1, next));
        assert forall|f: Fact| #[trigger] effects_say(all, f) == (effects_say(acc, f)
            || some_handler(b, event, subs, i, f)) by {
            assert(effects_say(next, f) == (effects_say(acc, f) || (subs[i].event == event
                && from_event(b, handler, event, f))));
            if some_handler(b, event, subs, i, f) {
                let j = choose|j: int|
                    i <= j < subs.len() && (#[trigger] subs[j]).event == event && from_event(
                        b,
                        subs[j].handler,
                        event,
                        f,
                    );
                if j > i {
                    assert(i + 1 <= j < subs.len());
                }
            }
        }
    }
}

/// An effect from index `i` on emits an event that makes a fact.
spec fn some_event(
    b: Set<(Text, Fact)>,
    effects: Seq<EffectFactView>,
    subs: Seq<SubscriptionView>,
    i: int,
    f: Fact,
) -> bool {
    exists|n: int, j: int| i <= n && #[trigger] by_event(b, effects, subs, n, j, f)
}

proof fn events_add(
    effects: Seq<EffectFactView>,
    subs: Seq<SubscriptionView>,
    sums: Seq<(Text, SummaryView)>,
    i: int,
    acc: Seq<(EffectKeyView, EffectInfoView)>,
)
    requires
        all_neat(sums),
        neat_effects(acc),
        0 <= i,
    ensures
        neat_effects(after_events(effects, subs, sums, i, acc)),
        forall|f: Fact|
            #[trigger] effects_say(after_events(effects, subs, sums, i, acc), f) == (effects_say(
                acc,
                f,
            ) || some_event(facts(sums), effects, subs, i, f)),
    decreases effects.len() - i,
{
    let b = facts(sums);
    let all = after_events(effects, subs, sums, i, acc);
    if i < effects.len() {
        let emits = effects[i].key.kind == "event_emit"@;
        let event = effects[i].key.target;
        let next = if emits {
            after_handlers(event, subs, sums, 0, acc)
        } else {
            acc
        };
        handlers_add(event, subs, sums, 0, acc);
        events_add(effects, subs, sums, i + 1, next);
        assert(all == after_events(effects, subs, sums, i + 1, next));
        assert forall|f: Fact| #[trigger] effects_say(all, f) == (effects_say(acc, f) || some_event(
            b,
            effects,
            subs,
            i,
            f,
        )) by {
            if emits {
                assert(effects_say(next, f) == (effects_say(acc, f) || some_handler(
                    b,
                    event,
                    subs,
                    0,
                    f,
                )));
                if some_handler(b, event, subs, 0, f) {
                    let j = choose|j: int|
                        0 <= j < subs.len() && (#[trigger] subs[j]).event == event && from_event(
                            b,
                            subs[j].handler,
                            event,
                            f,
                        );
                    assert(by_event(b, effects, subs, i, j, f));
                }
            }
            if some_event(b, effects, subs, i + 1, f) {
                let (n, j) = choose|n: int, j: int|
                    i + 1 <= n && #[trigger] by_event(b, effects, subs, n, j, f);
                assert(i <= n && by_event(b, effects, subs, n, j, f));
            }
            if some_event(b, effects, subs, i, f) {
                let (n, j) = choose|n: int, j: int|
                    i <= n && #[trigger] by_event(b, effects, subs, n, j, f);
                if n == i {
                    assert(subs[j].event == event);
                    assert(some_handler(b, event, subs, 0, f));
                } else {
                    assert(i + 1 <= n && by_event(b, effects, subs, n, j, f));
                }
            }
        }
    }
}

/// One step adds exactly what follows.
proof fn step_adds(
    e: EntityView,
    subs: Seq<SubscriptionView>,
    sums: Seq<(Text, SummaryView)>,
    s: SummaryView,
)
    requires
        all_neat(sums),
        neat(s),
    ensures
        neat(step(e, subs, sums, s)),
        same_checks(s, step(e, subs, sums, s)),
        forall|f: Fact|
            #[trigger] says(step(e, subs, sums, s), f) == (says(s, f) || follows(
                facts(sums),
                e,
                subs,
                f,
            )),
{
    let b = facts(sums);
    calls_add(e.calls, sums, 0, s);
    let mid = after_calls(e.calls, sums, 0, s);
    events_add(e.effects, subs, sums, 0, mid.effects);
    let all = step(e, subs, sums, s);
    assert forall|f: Fact| #[trigger] says(all, f) == (says(s, f) || follows(b, e, subs, f)) by {
        assert(says(mid, f) == (says(s, f) || some_call(b, e.calls, 0, f)));
        match f {
            Fact::Read(x) => {},
            Fact::Write(x) => {},
            _ => {
                assert(effects_say(all.effects, f) == (effects_say(mid.effects, f) || some_event(
                    b,
                    e.effects,
                    subs,
                    0,
                    f,
                )));
            },
        }
        if some_call(b, e.calls, 0, f) {
            let c = choose|c: int| 0 <= c && #[trigger] by_call(b, e.calls, c, f);
            assert(by_call(b, e.calls, c, f));
        }
        if some_event(b, e.effects, subs, 0, f) {
            let (n, j) = choose|n: int, j: int|
                0 <= n && #[trigger] by_event(b, e.effects, subs, n, j, f);
            assert(by_event(b, e.effects, subs, n, j, f));
        }
        if follows(b, e, subs, f) {
            if exists|c: int| #[trigger] by_call(b, e.calls, c, f) {
                let c = choose|c: int| #[trigger] by_call(b, e.calls, c, f);
                assert(0 <= c && by_call(b, e.calls, c, f));
            } else {
                let (n, j) = choose|n: int, j: int| #[trigger]
                    by_event(b, e.effects, subs, n, j, f);
                assert(0 <= n && by_event(b, e.effects, subs, n, j, f));
            }
        }
    }
}

// ---- passes

/// The same entities, with the same checks.
spec fn same_frame(a: Seq<(Text, SummaryView)>, b: Seq<(Text, SummaryView)>) -> bool {
    a.len() == b.len() && forall|n: int|
        0 <= n < a.len() ==> (#[trigger] a[n]).0 == b[n].0 && same_checks(a[n].1, b[n].1)
}

proof fn same_facts_same_effects(
    a: Seq<(EffectKeyView, EffectInfoView)>,
    b: Seq<(EffectKeyView, EffectInfoView)>,
)
    requires
        neat_effects(a),
        neat_effects(b),
        forall|f: Fact| #[trigger] effects_say(a, f) == effects_say(b, f),
    ensures
        a == b,
{
    assert forall|k: EffectKeyView| #[trigger] lookup(a, k) == lookup(b, k) by {
        assert(effects_say(a, Fact::Effect(k)) == effects_say(b, Fact::Effect(k)));
        stored_is_neat(a, k);
        stored_is_neat(b, k);
        if lookup(a, k) is Some {
            let x = lookup(a, k)->Some_0;
            let y = lookup(b, k)->Some_0;
            assert forall|t: Text| #[trigger] x.modes.contains(t) == y.modes.contains(t) by {
                assert(effects_say(a, Fact::Mode(k, t)) == effects_say(b, Fact::Mode(k, t)));
            }
            assert forall|t: Text| #[trigger] x.via.contains(t) == y.via.contains(t) by {
                assert(effects_say(a, Fact::Via(k, t)) == effects_say(b, Fact::Via(k, t)));
            }
            assert forall|l: LocView| #[trigger]
                x.evidence.contains(l) == y.evidence.contains(l) by {
                assert(effects_say(a, Fact::Evidence(k, l)) == effects_say(b, Fact::Evidence(k, l)));
            }
            sets_with_same_members(x.modes, y.modes);
            sets_with_same_members(x.via, y.via);
            sets_with_same_members(x.evidence, y.evidence);
            assert(x == y);
        }
    }
    maps_with_same_entries(a, b);
}

proof fn same_facts_same_summary(a: SummaryView, b: SummaryView)
    requires
        neat(a),
        neat(b),
        same_checks(a, b),
        forall|f: Fact| #[trigger] says(a, f) == says(b, f),
    ensures
        a == b,
{
    assert forall|f: Fact| #[trigger] effects_say(a.effects, f) == effects_say(b.effects, f) by {
        assert(says(a, f) == says(b, f));
    }
    same_facts_same_effects(a.effects, b.effects);
    assert forall|x: Text| #[trigger] a.reads.contains(x) == b.reads.contains(x) by {
        assert(says(a, Fact::Read(x)) == says(b, Fact::Read(x)));
    }
    assert forall|x: Text| #[trigger] a.writes.contains(x) == b.writes.contains(x) by {
        assert(says(a, Fact::Write(x)) == says(b, Fact::Write(x)));
    }
    sets_with_same_members(a.reads, b.reads);
    sets_with_same_members(a.writes, b.writes);
}

proof fn same_facts_same_summaries(a: Seq<(Text, SummaryView)>, b: Seq<(Text, SummaryView)>)
    requires
        all_neat(a),
        all_neat(b),
        same_frame(a, b),
        facts(a) == facts(b),
    ensures
        a == b,
{
    assert forall|n: int| 0 <= n < a.len() implies a[n] == b[n] by {
        let id = a[n].0;
        assert(b[n].0 == id);
        slot_of_stored(a, n);
        slot_of_stored(b, n);
        assert forall|f: Fact| #[trigger] says(a[n].1, f) == says(b[n].1, f) by {
            let p = (id, f);
            assert(lookup(a, id) == Some(a[n].1));
            assert(lookup(b, id) == Some(b[n].1));
            assert(facts(a).contains(p) == says(a[n].1, f));
            assert(facts(b).contains(p) == says(b[n].1, f));
        }
        same_facts_same_summary(a[n].1, b[n].1);
    }
    assert(a =~= b);
}

/// An entity's summary replaced by one step.
proof fn one_entity_steps(
    e: EntityView,
    subs: Seq<SubscriptionView>,
    sums: Seq<(Text, SummaryView)>,
    s: SummaryView,
)
    requires
        all_neat(sums),
        lookup(sums, e.id) == Some(s),
    ensures
        all_neat(put(sums, e.id, step(e, subs, sums, s))),
        same_frame(sums, put(sums, e.id, step(e, subs, sums, s))),
        forall|p: (Text, Fact)|
            #[trigger] facts(put(sums, e.id, step(e, subs, sums, s))).contains(p) == (facts(
                sums,
            ).contains(p) || (p.0 == e.id && follows(facts(sums), e, subs, p.1))),
{
    summary_is_neat(sums, e.id);
    step_adds(e, subs, sums, s);
    let t = step(e, subs, sums, s);
    let next = put(sums, e.id, t);
    put_keeps_order(sums, e.id, t);
    lookup_after_put(sums, e.id, t);
    slot_bounds(sums, e.id);
    let at = slot(sums, e.id);
    assert(next == sums.update(at, (e.id, t)));
    assert forall|p: (Text, Fact)| #[trigger] facts(next).contains(p) == (facts(sums).contains(p)
        || (p.0 == e.id && follows(facts(sums), e, subs, p.1))) by {
        if p.0 == e.id {
            assert(says(t, p.1) == (says(s, p.1) || follows(facts(sums), e, subs, p.1)));
        } else {
            lookup_of_other(sums, e.id, t, p.0);
        }
    }
}

proof fn pass_grows(
    entities: Seq<(Text, EntityView)>,
    subs: Seq<SubscriptionView>,
    i: int,
    sums: Seq<(Text, SummaryView)>,
)
    requires
        all_neat(sums),
    ensures
        all_neat(pass(entities, subs, i, sums)),
        same_frame(sums, pass(entities, subs, i, sums)),
        facts(sums).subset_of(facts(pass(entities, subs, i, sums))),
    decreases entities.len() - i,
{
    if 0 <= i < entities.len() {
        let e = entities[i].1;
        match lookup(sums, e.id) {
            Some(s) => {
                one_entity_steps(e, subs, sums, s);
                let next = put(sums, e.id, step(e, subs, sums, s));
                pass_grows(entities, subs, i + 1, next);
                let all = pass(entities, subs, i, sums);
                assert(all == pass(entities, subs, i + 1, next));
                assert forall|n: int| 0 <= n < sums.len() implies (#[trigger] sums[n]).0
                    == all[n].0 && same_checks(sums[n].1, all[n].1) by {
                    assert(next[n].0 == all[n].0);
                }
            },
            None => {
                pass_grows(entities, subs, i + 1, sums);
            },
        }
    }
}

proof fn following_grows(
    a: Set<(Text, Fact)>,
    b: Set<(Text, Fact)>,
    e: EntityView,
    subs: Seq<SubscriptionView>,
    f: Fact,
)
    requires
        a.subset_of(b),
        follows(a, e, subs, f),
    ensures
        follows(b, e, subs, f),
{
    if exists|c: int| #[trigger] by_call(a, e.calls, c, f) {
        let c = choose|c: int| #[trigger] by_call(a, e.calls, c, f);
        assert(by_call(b, e.calls, c, f));
    } else {
        let (n, j) = choose|n: int, j: int| #[trigger] by_event(a, e.effects, subs, n, j, f);
        assert(by_event(b, e.effects, subs, n, j, f));
    }
}

proof fn pass_stays_inside(
    entities: Seq<(Text, EntityView)>,
    subs: Seq<SubscriptionView>,
    i: int,
    sums: Seq<(Text, SummaryView)>,
    b: Set<(Text, Fact)>,
)
    requires
        all_neat(sums),
        is_closed(entities, subs, b),
        facts(sums).subset_of(b),
    ensures
        facts(pass(entities, subs, i, sums)).subset_of(b),
    decreases entities.len() - i,
{
    if 0 <= i < entities.len() {
        let e = entities[i].1;
        match lookup(sums, e.id) {
            Some(s) => {
                one_entity_steps(e, subs, sums, s);
                let next = put(sums, e.id, step(e, subs, sums, s));
                assert forall|p: (Text, Fact)| facts(next).contains(p) implies b.contains(p) by {
                    if !facts(sums).contains(p) {
                        following_grows(facts(sums), b, e, subs, p.1);
                        assert(follows(b, entities[i].1, subs, p.1));
                    }
                }
                pass_stays_inside(entities, subs, i + 1, next, b);
            },
            None => {
                pass_stays_inside(entities, subs, i + 1, sums, b);
            },
        }
    }
}

proof fn still_pass_is_closed(
    entities: Seq<(Text, EntityView)>,
    subs: Seq<SubscriptionView>,
    i: int,
    sums: Seq<(Text, SummaryView)>,
    n: int,
    f: Fact,
)
    requires
        all_neat(sums),
        pass(entities, subs, i, sums) == sums,
        0 <= i <= n < entities.len(),
        lookup(sums, entities[n].1.id) is Some,
        follows(facts(sums), entities[n].1, subs, f),
    ensures
        facts(sums).contains((entities[n].1.id, f)),
    decreases entities.len() - i,
{
    let e = entities[i].1;
    match lookup(sums, e.id) {
        Some(s) => {
            one_entity_steps(e, subs, sums, s);
            let next = put(sums, e.id, step(e, subs, sums, s));
            pass_grows(entities, subs, i + 1, next);
            assert(pass(entities, subs, i + 1, next) == sums);
            assert(facts(next) =~= facts(sums)) by {
                assert forall|p: (Text, Fact)| facts(sums).contains(p) implies facts(next).contains(
                    p,
                ) by {}
            }
            same_facts_same_summaries(sums, next);
            if n == i {
                assert(facts(next).contains((e.id, f)));
            } else {
                still_pass_is_closed(entities, subs, i + 1, sums, n, f);
            }
        },
        None => {
            still_pass_is_closed(entities, subs, i + 1, sums, n, f);
        },
    }
}

/// Passes go on until one changes nothing, if there is room for every fact that can be found.
proof fn passes_settle(
    entities: Seq<(Text, EntityView)>,
    subs: Seq<SubscriptionView>,
    sums: Seq<(Text, SummaryView)>,
    rounds: nat,
    b: Set<(Text, Fact)>,
)
    requires
        all_neat(sums),
        is_closed(entities, subs, b),
        b.finite(),
        facts(sums).subset_of(b),
        b.len() <= rounds + facts(sums).len(),
    ensures
        all_neat(settled(entities, subs, sums, rounds)),
        same_frame(sums, settled(entities, subs, sums, rounds)),
        pass(entities, subs, 0, settled(entities, subs, sums, rounds)) == settled(
            entities,
            subs,
            sums,
            rounds,
        ),
        facts(sums).subset_of(facts(settled(entities, subs, sums, rounds))),
    decreases rounds,
{
    let next = pass(entities, subs, 0, sums);
    pass_grows(entities, subs, 0, sums);
    if next == sums {
    } else {
        pass_makes_room(entities, subs, sums, b);
        passes_settle(entities, subs, next, (rounds - 1) as nat, b);
        let all = settled(entities, subs, sums, rounds);
        assert(all == settled(entities, subs, next, (rounds - 1) as nat));
        assert forall|n: int| 0 <= n < sums.len() implies (#[trigger] sums[n]).0 == all[n].0
            && same_checks(sums[n].1, all[n].1) by {
            assert(next[n].0 == all[n].0);
        }
    }
}

/// A pass that changes something finds a fact that was not known.
pub proof fn pass_makes_room(
    entities: Seq<(Text, EntityView)>,
    subs: Seq<SubscriptionView>,
    sums: Seq<(Text, SummaryView)>,
    b: Set<(Text, Fact)>,
)
    requires
        all_neat(sums),
        is_closed(entities, subs, b),
        b.finite(),
        facts(sums).subset_of(b),
        pass(entities, subs, 0, sums) != sums,
    ensures
        all_neat(pass(entities, subs, 0, sums)),
        facts(pass(entities, subs, 0, sums)).subset_of(b),
        facts(sums).len() < facts(pass(entities, subs, 0, sums)).len(),
        facts(pass(entities, subs, 0, sums)).len() <= b.len(),
{
    let next = pass(entities, subs, 0, sums);
    pass_grows(entities, subs, 0, sums);
    pass_stays_inside(entities, subs, 0, sums, b);
    vstd::set_lib::lemma_set_subset_finite(b, facts(next));
    vstd::set_lib::lemma_len_subset(facts(next), b);
    vstd::set_lib::lemma_len_subset(facts(sums), facts(next));
    if facts(sums).len() == facts(next).len() {
        vstd::set_lib::lemma_subset_equality(facts(sums), facts(next));
        same_facts_same_summaries(sums, next);
    }
}

proof fn passes_stay_inside(
    entities: Seq<(Text, EntityView)>,
    subs: Seq<SubscriptionView>,
    sums: Seq<(Text, SummaryView)>,
    rounds: nat,
    b: Set<(Text, Fact)>,
)
    requires
        all_neat(sums),
        is_closed(entities, subs, b),
        facts(sums).subset_of(b),
    ensures
        facts(settled(entities, subs, sums, rounds)).subset_of(b),
    decreases rounds,
{
    let next = pass(entities, subs, 0, sums);
    pass_grows(entities, subs, 0, sums);
    pass_stays_inside(entities, subs, 0, sums, b);
    if next != sums && rounds > 0 {
        passes_stay_inside(entities, subs, next, (rounds - 1) as nat, b);
    }
}

// ---- everything that can be found

/// What the entities from index `i` on have, one after the other.
pub open spec fn gathered<A>(
    entities: Seq<(Text, EntityView)>,
    g: spec_fn(EntityView) -> Seq<A>,
    i: int,
) -> Seq<A>
    decreases entities.len() - i,
{
    if 0 <= i < entities.len() {
        g(entities[i].1) + gathered(entities, g, i + 1)
    } else {
        seq![]
    }
}

proof fn gathered_has<A>(
    entities: Seq<(Text, EntityView)>,
    g: spec_fn(EntityView) -> Seq<A>,
    i: int,
    n: int,
    x: A,
)
    requires
        0 <= i <= n < entities.len(),
        g(entities[n].1).contains(x),
    ensures
        gathered(entities, g, i).contains(x),
    decreases entities.len() - i,
{
    let head = g(entities[i].1);
    let rest = gathered(entities, g, i + 1);
    let all = head + rest;
    if n == i {
        let j = choose|j: int| 0 <= j < head.len() && head[j] == x;
        assert(all[j] == x);
    } else {
        gathered_has(entities, g, i + 1, n, x);
        let j = choose|j: int| 0 <= j < rest.len() && rest[j] == x;
        assert(all[head.len() + j] == x);
    }
}

/// The effects of an entity.
pub open spec fn effects_in(e: EntityView) -> Seq<EffectKeyView> {
    Seq::new(e.effects.len(), |i: int| e.effects[i].key)
}

/// The ways in which the effects of an entity can be reached.
pub open spec fn modes_in(e: EntityView) -> Seq<Text> {
    Seq::new(e.effects.len(), |i: int| "async via "@ + e.effects[i].key.target).push("sync"@)
}

/// What effects can be reached through, as far as an entity says.
pub open spec fn ways_in(e: EntityView) -> Seq<Text> {
    Seq::new(e.effects.len(), |i: int| "event:"@ + e.effects[i].key.target) + Seq::new(
        e.calls.len(),
        |i: int| e.calls[i].target,
    ).push("direct"@)
}

/// The places of the effects of an entity.
pub open spec fn places_in(e: EntityView) -> Seq<LocView> {
    Seq::new(e.effects.len(), |i: int| e.effects[i].loc)
}

/// The fields that an entity reads.
pub open spec fn reads_in(e: EntityView) -> Seq<Text> {
    set_of(keys(e.reads))
}

/// The fields that an entity writes.
pub open spec fn writes_in(e: EntityView) -> Seq<Text> {
    Seq::new(e.writes.len(), |i: int| e.writes[i].field)
}

/// The id of an entity.
pub open spec fn ids_in(e: EntityView) -> Seq<Text> {
    seq![e.id]
}

/// A fact that some entity can have.
pub open spec fn can_be(entities: Seq<(Text, EntityView)>, f: Fact) -> bool {
    match f {
        Fact::Effect(k) => gathered(entities, |e: EntityView| effects_in(e), 0).contains(k),
        Fact::Mode(k, x) => gathered(entities, |e: EntityView| effects_in(e), 0).contains(k)
            && gathered(entities, |e: EntityView| modes_in(e), 0).contains(x),
        Fact::Via(k, x) => gathered(entities, |e: EntityView| effects_in(e), 0).contains(k)
            && gathered(entities, |e: EntityView| ways_in(e), 0).contains(x),
        Fact::Evidence(k, l) => gathered(entities, |e: EntityView| effects_in(e), 0).contains(k)
            && gathered(entities, |e: EntityView| places_in(e), 0).contains(l),
        Fact::Read(x) => gathered(entities, |e: EntityView| reads_in(e), 0).contains(x),
        Fact::Write(x) => gathered(entities, |e: EntityView| writes_in(e), 0).contains(x),
    }
}

/// Everything that can be found of the entities.
pub open spec fn possible(entities: Seq<(Text, EntityView)>) -> Set<(Text, Fact)> {
    Set::new(
        |p: (Text, Fact)|
            gathered(entities, |e: EntityView| ids_in(e), 0).contains(p.0) && can_be(
                entities,
                p.1,
            ),
    )
}

/// The pairs of two sets.
spec fn pairs<A, B>(a: Set<A>, b: Set<B>) -> Set<(A, B)> {
    Set::new(|p: (A, B)| a.contains(p.0) && b.contains(p.1))
}

proof fn pairs_are_finite<A, B>(a: Set<A>, b: Set<B>)
    requires
        a.finite(),
        b.finite(),
    ensures
        pairs(a, b).finite(),
    decreases a.len(),
{
    if a.len() == 0 {
        assert(a =~= Set::empty());
        assert(pairs(a, b) =~= Set::empty());
    } else {
        let x = a.choose();
        pairs_are_finite(a.remove(x), b);
        let f = |y: B| (x, y);
        b.lemma_map_finite(f);
        let row = b.map(f);
        assert(pairs(a, b) =~= pairs(a.remove(x), b).union(row)) by {
            assert forall|p: (A, B)| pairs(a, b).contains(p) implies pairs(
                a.remove(x),
                b,
            ).union(row).contains(p) by {
                if p.0 == x {
                    assert(f(p.1) == p);
                    assert(row.contains(p));
                }
            }
        }
    }
}

proof fn possible_is_finite(entities: Seq<(Text, EntityView)>)
    ensures
        possible(entities).finite(),
{
    let ids = gathered(entities, |e: EntityView| ids_in(e), 0).to_set();
    let ks = gathered(entities, |e: EntityView| effects_in(e), 0).to_set();
    let modes = gathered(entities, |e: EntityView| modes_in(e), 0).to_set();
    let ways = gathered(entities, |e: EntityView| ways_in(e), 0).to_set();
    let places = gathered(entities, |e: EntityView| places_in(e), 0).to_set();
    let reads = gathered(entities, |e: EntityView| reads_in(e), 0).to_set();
    let writes = gathered(entities, |e: EntityView| writes_in(e), 0).to_set();
    vstd::seq_lib::seq_to_set_is_finite(gathered(entities, |e: EntityView| ids_in(e), 0));
    vstd::seq_lib::seq_to_set_is_finite(gathered(entities, |e: EntityView| effects_in(e), 0));
    vstd::seq_lib::seq_to_set_is_finite(gathered(entities, |e: EntityView| modes_in(e), 0));
    vstd::seq_lib::seq_to_set_is_finite(gathered(entities, |e: EntityView| ways_in(e), 0));
    vstd::seq_lib::seq_to_set_is_finite(gathered(entities, |e: EntityView| places_in(e), 0));
    vstd::seq_lib::seq_to_set_is_finite(gathered(entities, |e: EntityView| reads_in(e), 0));
    vstd::seq_lib::seq_to_set_is_finite(gathered(entities, |e: EntityView| writes_in(e), 0));
    pairs_are_finite(ks, modes);
    pairs_are_finite(ks, ways);
    pairs_are_finite(ks, places);
    let f1 = |k: EffectKeyView| Fact::Effect(k);
    let f2 = |p: (EffectKeyView, Text)| Fact::Mode(p.0, p.1);
    let f3 = |p: (EffectKeyView, Text)| Fact::Via(p.0, p.1);
    let f4 = |p: (EffectKeyView, LocView)| Fact::Evidence(p.0, p.1);
    let f5 = |x: Text| Fact::Read(x);
    let f6 = |x: Text| Fact::Write(x);
    ks.lemma_map_finite(f1);
    pairs(ks, modes).lemma_map_finite(f2);
    pairs(ks, ways).lemma_map_finite(f3);
    pairs(ks, places).lemma_map_finite(f4);
    reads.lemma_map_finite(f5);
    writes.lemma_map_finite(f6);
    let all = ks.map(f1).union(pairs(ks, modes).map(f2)).union(pairs(ks, ways).map(f3)).union(
        pairs(ks, places).map(f4),
    ).union(reads.map(f5)).union(writes.map(f6));
    pairs_are_finite(ids, all);
    assert forall|p: (Text, Fact)| possible(entities).contains(p) implies pairs(ids, all).contains(
        p,
    ) by {
        match p.1 {
            Fact::Effect(k) => {
                assert(ks.contains(k));
                assert(f1(k) == p.1);
                assert(ks.map(f1).contains(p.1));
            },
            Fact::Mode(k, x) => {
                assert(pairs(ks, modes).contains((k, x)));
                assert(f2((k, x)) == p.1);
                assert(pairs(ks, modes).map(f2).contains(p.1));
            },
            Fact::Via(k, x) => {
                assert(pairs(ks, ways).contains((k, x)));
                assert(f3((k, x)) == p.1);
                assert(pairs(ks, ways).map(f3).contains(p.1));
            },
            Fact::Evidence(k, l) => {
                assert(pairs(ks, places).contains((k, l)));
                assert(f4((k, l)) == p.1);
                assert(pairs(ks, places).map(f4).contains(p.1));
            },
            Fact::Read(x) => {
                assert(reads.contains(x));
                assert(f5(x) == p.1);
                assert(reads.map(f5).contains(p.1));
            },
            Fact::Write(x) => {
                assert(writes.contains(x));
                assert(f6(x) == p.1);
                assert(writes.map(f6).contains(p.1));
            },
        }
    }
    vstd::set_lib::lemma_set_subset_finite(pairs(ids, all), possible(entities));
}

proof fn possible_is_closed(entities: Seq<(Text, EntityView)>, subs: Seq<SubscriptionView>)
    ensures
        is_closed(entities, subs, possible(entities)),
{
    let b = possible(entities);
    assert forall|n: int, f: Fact|
        0 <= n < entities.len() && #[trigger] follows(b, entities[n].1, subs, f) implies b.contains(
        (entities[n].1.id, f),
    ) by {
        let e = entities[n].1;
        assert(ids_in(e)[0] == e.id);
        gathered_has(entities, |e: EntityView| ids_in(e), 0, n, e.id);
        if exists|c: int| #[trigger] by_call(b, e.calls, c, f) {
            let c = choose|c: int| #[trigger] by_call(b, e.calls, c, f);
            let x = e.calls[c].target;
            assert(ways_in(e)[e.effects.len() + c] == x);
            gathered_has(entities, |e: EntityView| ways_in(e), 0, n, x);
        } else {
            let (k, j) = choose|k: int, j: int| #[trigger] by_event(b, e.effects, subs, k, j, f);
            let event = e.effects[k].key.target;
            assert(modes_in(e)[k] == "async via "@ + event);
            gathered_has(entities, |e: EntityView| modes_in(e), 0, n, "async via "@ + event);
            assert(ways_in(e)[k] == "event:"@ + event);
            gathered_has(entities, |e: EntityView| ways_in(e), 0, n, "event:"@ + event);
        }
    }
}

proof fn own_effects_say(
    effects: Seq<EffectFactView>,
    i: int,
    acc: Seq<(EffectKeyView, EffectInfoView)>,
    f: Fact,
)
    requires
        neat_effects(acc),
        0 <= i,
        effects_say(own_effects(effects, i, acc), f),
    ensures
        effects_say(acc, f) || exists|n: int|
            i <= n < effects.len() && own_says(#[trigger] effects[n], f),
    decreases effects.len() - i,
{
    if i < effects.len() {
        let info = EffectInfoView {
            modes: added(seq![], "sync"@),
            via: added(seq![], "direct"@),
            evidence: added(seq![], effects[i].loc),
        };
        info_is_added(acc, effects[i].key, info);
        let next = with_info(acc, effects[i].key, info);
        own_effects_say(effects, i + 1, next, f);
        if effects_say(next, f) && !effects_say(acc, f) {
            assert(info_says(effects[i].key, info, f));
            let none = Seq::<Text>::empty();
            assert(none =~= seq![]);
            match f {
                Fact::Mode(k, x) => {
                    added_members(none, "sync"@, x);
                },
                Fact::Via(k, x) => {
                    added_members(none, "direct"@, x);
                },
                Fact::Evidence(k, l) => {
                    let nowhere = Seq::<LocView>::empty();
                    assert(nowhere =~= seq![]);
                    added_members(nowhere, effects[i].loc, l);
                },
                _ => {},
            }
            assert(own_says(effects[i], f));
        }
    }
}

/// What an effect of its own says of an entity.
spec fn own_says(x: EffectFactView, f: Fact) -> bool {
    match f {
        Fact::Effect(k) => x.key == k,
        Fact::Mode(k, m) => x.key == k && m == "sync"@,
        Fact::Via(k, v) => x.key == k && v == "direct"@,
        Fact::Evidence(k, l) => x.key == k && x.loc == l,
        _ => false,
    }
}

proof fn own_effects_are_neat(
    effects: Seq<EffectFactView>,
    i: int,
    acc: Seq<(EffectKeyView, EffectInfoView)>,
)
    requires
        neat_effects(acc),
    ensures
        neat_effects(own_effects(effects, i, acc)),
    decreases effects.len() - i,
{
    if 0 <= i < effects.len() {
        let info = EffectInfoView {
            modes: added(seq![], "sync"@),
            via: added(seq![], "direct"@),
            evidence: added(seq![], effects[i].loc),
        };
        info_is_added(acc, effects[i].key, info);
        own_effects_are_neat(effects, i + 1, with_info(acc, effects[i].key, info));
    }
}

proof fn own_writes_are(writes: Seq<WriteFactView>, i: int, acc: Seq<Text>, x: Text)
    requires
        rising(acc),
        0 <= i,
    ensures
        rising(own_writes(writes, i, acc)),
        own_writes(writes, i, acc).contains(x) ==> acc.contains(x) || exists|n: int|
            i <= n < writes.len() && (#[trigger] writes[n]).field == x,
    decreases writes.len() - i,
{
    if i < writes.len() {
        added_keeps_order(acc, writes[i].field);
        added_members(acc, writes[i].field, x);
        own_writes_are(writes, i + 1, added(acc, writes[i].field), x);
    }
}

proof fn own_is_neat(e: EntityView)
    ensures
        neat(own_summary(e)),
{
    let none = Seq::<(EffectKeyView, EffectInfoView)>::empty();
    assert(none =~= seq![]);
    own_effects_are_neat(e.effects, 0, none);
    let empty = Seq::<Text>::empty();
    assert(empty =~= seq![]);
    own_writes_are(e.writes, 0, empty, Seq::empty());
    united_members(empty, keys(e.reads));
}

proof fn possible_has_own(entities: Seq<(Text, EntityView)>)
    ensures
        has_own(entities, possible(entities)),
{
    assert forall|n: int, f: Fact|
        0 <= n < entities.len() && #[trigger] says(own_summary(entities[n].1), f) implies possible(
        entities,
    ).contains((entities[n].1.id, f)) by {
        let e = entities[n].1;
        assert(ids_in(e)[0] == e.id);
        gathered_has(entities, |e: EntityView| ids_in(e), 0, n, e.id);
        let empty = Seq::<Text>::empty();
        assert(empty =~= seq![]);
        match f {
            Fact::Read(x) => {
                gathered_has(entities, |e: EntityView| reads_in(e), 0, n, x);
            },
            Fact::Write(x) => {
                own_writes_are(e.writes, 0, empty, x);
                let i = choose|i: int| 0 <= i < e.writes.len() && (#[trigger] e.writes[i]).field == x;
                assert(writes_in(e)[i] == x);
                gathered_has(entities, |e: EntityView| writes_in(e), 0, n, x);
            },
            _ => {
                let none = Seq::<(EffectKeyView, EffectInfoView)>::empty();
                assert(none =~= seq![]);
                own_effects_say(e.effects, 0, none, f);
                let i = choose|i: int|
                    0 <= i < e.effects.len() && own_says(#[trigger] e.effects[i], f);
                assert(effects_in(e)[i] == e.effects[i].key);
                gathered_has(entities, |e: EntityView| effects_in(e), 0, n, e.effects[i].key);
                assert(modes_in(e)[e.effects.len() as int] == "sync"@);
                gathered_has(entities, |e: EntityView| modes_in(e), 0, n, "sync"@);
                assert(ways_in(e)[(e.effects.len() + e.calls.len()) as int] == "direct"@);
                gathered_has(entities, |e: EntityView| ways_in(e), 0, n, "direct"@);
                assert(places_in(e)[i] == e.effects[i].loc);
                gathered_has(entities, |e: EntityView| places_in(e), 0, n, e.effects[i].loc);
            },
        }
    }
}

proof fn own_summaries_are_own(
    entities: Seq<(Text, EntityView)>,
    i: int,
    acc: Seq<(Text, SummaryView)>,
)
    requires
        0 <= i,
        all_neat(acc),
        facts(acc).subset_of(possible(entities)),
    ensures
        all_neat(own_summaries(entities, i, acc)),
        facts(own_summaries(entities, i, acc)).subset_of(possible(entities)),
    decreases entities.len() - i,
{
    if i < entities.len() {
        let e = entities[i].1;
        let s = own_summary(e);
        own_is_neat(e);
        possible_has_own(entities);
        let next = put(acc, e.id, s);
        put_keeps_order(acc, e.id, s);
        lookup_after_put(acc, e.id, s);
        slot_bounds(acc, e.id);
        let at = slot(acc, e.id);
        assert forall|n: int| 0 <= n < next.len() implies neat((#[trigger] next[n]).1) by {
            if n < at || (n > at && next.len() == acc.len()) {
                assert(next[n] == acc[n]);
            } else if n > at {
                assert(next[n] == acc[n - 1]);
            }
        }
        assert forall|p: (Text, Fact)| facts(next).contains(p) implies possible(entities).contains(
            p,
        ) by {
            if p.0 == e.id {
                assert(says(own_summary(entities[i].1), p.1));
                assert(p == (entities[i].1.id, p.1));
            } else {
                lookup_of_other(acc, e.id, s, p.0);
                assert(facts(acc).contains(p));
            }
        }
        own_summaries_are_own(entities, i + 1, next);
    }
}

/// The own facts are in order and can all be found, and whatever follows from what can be found
/// can be found.
pub proof fn own_facts_can_be_found(
    entities: Seq<(Text, EntityView)>,
    subs: Seq<SubscriptionView>,
)
    ensures
        all_neat(own_summaries(entities, 0, seq![])),
        facts(own_summaries(entities, 0, seq![])).subset_of(possible(entities)),
        is_closed(entities, subs, possible(entities)),
        possible(entities).finite(),
{
    let none = Seq::<(Text, SummaryView)>::empty();
    assert(none =~= seq![]);
    possible_is_finite(entities);
    possible_is_closed(entities, subs);
    own_summaries_are_own(entities, 0, none);
}

proof fn own_summaries_keep(
    entities: Seq<(Text, EntityView)>,
    i: int,
    acc: Seq<(Text, SummaryView)>,
    id: Text,
)
    requires
        0 <= i,
        ascending(acc),
        forall|n: int| i <= n < entities.len() ==> (#[trigger] entities[n]).1.id != id,
    ensures
        lookup(own_summaries(entities, i, acc), id) == lookup(acc, id),
    decreases entities.len() - i,
{
    if i < entities.len() {
        let e = entities[i].1;
        put_keeps_order(acc, e.id, own_summary(e));
        lookup_of_other(acc, e.id, own_summary(e), id);
        own_summaries_keep(entities, i + 1, put(acc, e.id, own_summary(e)), id);
    }
}

proof fn own_summary_is_stored(
    entities: Seq<(Text, EntityView)>,
    i: int,
    acc: Seq<(Text, SummaryView)>,
    n: int,
)
    requires
        ascending(acc),
        ascending(entities),
        forall|k: int| 0 <= k < entities.len() ==> (#[trigger] entities[k]).0 == entities[k].1.id,
        0 <= i <= n < entities.len(),
    ensures
        lookup(own_summaries(entities, i, acc), entities[n].1.id) == Some(
            own_summary(entities[n].1),
        ),
    decreases entities.len() - i,
{
    let e = entities[i].1;
    let next = put(acc, e.id, own_summary(e));
    put_keeps_order(acc, e.id, own_summary(e));
    if n == i {
        lookup_after_put(acc, e.id, own_summary(e));
        assert forall|k: int| i + 1 <= k < entities.len() implies (#[trigger] entities[k]).1.id
            != e.id by {
            assert(entities[i].0.precedes(entities[k].0));
            Text::irreflexive(e.id);
        }
        own_summaries_keep(entities, i + 1, next, e.id);
    } else {
        own_summary_is_stored(entities, i + 1, next, n);
    }
}

/// The summaries before checks, of entities under their ids: each entity's own facts are there,
/// whatever follows from what is there is there, and nothing else is.
proof fn settled_is_least(
    entities: Seq<(Text, EntityView)>,
    subs: Seq<SubscriptionView>,
    b: Set<(Text, Fact)>,
)
    requires
        ascending(entities),
        forall|k: int| 0 <= k < entities.len() ==> (#[trigger] entities[k]).0 == entities[k].1.id,
    ensures
        has_own(
            entities,
            facts(
                settled(
                    entities,
                    subs,
                    own_summaries(entities, 0, seq![]),
                    possible(entities).len(),
                ),
            ),
        ),
        is_closed(
            entities,
            subs,
            facts(
                settled(
                    entities,
                    subs,
                    own_summaries(entities, 0, seq![]),
                    possible(entities).len(),
                ),
            ),
        ),
        has_own(entities, b) && is_closed(entities, subs, b) ==> facts(
            settled(
                entities,
                subs,
                own_summaries(entities, 0, seq![]),
                possible(entities).len(),
            ),
        ).subset_of(b),
{
    let none = Seq::<(Text, SummaryView)>::empty();
    assert(none =~= seq![]);
    let own = own_summaries(entities, 0, none);
    let room = possible(entities).len();
    own_facts_can_be_found(entities, subs);
    passes_settle(entities, subs, own, room, possible(entities));
    let all = settled(entities, subs, own, room);
    assert forall|n: int, f: Fact|
        0 <= n < entities.len() && #[trigger] says(own_summary(entities[n].1), f) implies facts(
        all,
    ).contains((entities[n].1.id, f)) by {
        own_summary_is_stored(entities, 0, none, n);
        assert(facts(own).contains((entities[n].1.id, f)));
    }
    assert forall|n: int, f: Fact|
        0 <= n < entities.len() && #[trigger] follows(facts(all), entities[n].1, subs, f) implies
        facts(all).contains((entities[n].1.id, f)) by {
        own_summary_is_stored(entities, 0, none, n);
        let id = entities[n].1.id;
        slot_bounds(own, id);
        let at = slot(own, id);
        assert(own[at].0 == all[at].0);
        slot_of_stored(all, at);
        still_pass_is_closed(entities, subs, 0, all, n, f);
    }
    if has_own(entities, b) && is_closed(entities, subs, b) {
        assert forall|p: (Text, Fact)| facts(own).contains(p) implies b.contains(p) by {
            own_facts_are_own(entities, 0, none, p);
            let n = choose|n: int|
                0 <= n < entities.len() && (#[trigger] entities[n]).1.id == p.0 && says(
                    own_summary(entities[n].1),
                    p.1,
                );
            assert(says(own_summary(entities[n].1), p.1));
            assert(p == (entities[n].1.id, p.1));
        }
        passes_stay_inside(entities, subs, own, room, b);
    }
}

proof fn own_facts_are_own(
    entities: Seq<(Text, EntityView)>,
    i: int,
    acc: Seq<(Text, SummaryView)>,
    p: (Text, Fact),
)
    requires
        0 <= i,
        ascending(acc),
        facts(own_summaries(entities, i, acc)).contains(p),
    ensures
        facts(acc).contains(p) || exists|n: int|
            i <= n < entities.len() && (#[trigger] entities[n]).1.id == p.0 && says(
                own_summary(entities[n].1),
                p.1,
            ),
    decreases entities.len() - i,
{
    if i < entities.len() {
        let e = entities[i].1;
        let s = own_summary(e);
        let next = put(acc, e.id, s);
        put_keeps_order(acc, e.id, s);
        lookup_after_put(acc, e.id, s);
        own_facts_are_own(entities, i + 1, next, p);
        if facts(next).contains(p) {
            if p.0 == e.id {
                assert(entities[i].1.id == p.0 && says(own_summary(entities[i].1), p.1));
            } else {
                lookup_of_other(acc, e.id, s, p.0);
            }
        }
    }
}

// ---- checks

/// One thing that a summary says of what is checked: a validation runs, an access requirement
/// holds.
pub enum Check {
    Validation(Text),
    Access(Text),
}

/// A summary has a check.
pub open spec fn checked(s: SummaryView, c: Check) -> bool {
    match c {
        Check::Validation(x) => lookup(s.validations, x) is Some,
        Check::Access(x) => lookup(s.access, x) is Some,
    }
}

/// What the summaries say of what each entity checks.
pub open spec fn checks(sums: Seq<(Text, SummaryView)>) -> Set<(Text, Check)> {
    Set::new(
        |p: (Text, Check)| lookup(sums, p.0) is Some && checked(lookup(sums, p.0)->Some_0, p.1),
    )
}

/// What a call of `target` makes of the checks: a validator is a validation itself, and only
/// constant requirements are passed on.
pub open spec fn check_from_call(
    b: Set<(Text, Check)>,
    validators: Seq<Text>,
    target: Text,
    c: Check,
) -> bool {
    match c {
        Check::Validation(x) => if validators.contains(target) {
            x == target
        } else {
            b.contains((target, c))
        },
        Check::Access(x) => b.contains((target, c)) && !text::ends(x, "=_"@),
    }
}

/// A call of an entity makes a check of the checks.
pub open spec fn check_by_call(
    b: Set<(Text, Check)>,
    validators: Seq<Text>,
    calls: Seq<CallFactView>,
    i: int,
    c: Check,
) -> bool {
    0 <= i < calls.len() && check_from_call(b, validators, calls[i].target, c)
}

/// A check of an entity follows from those of what it calls.
pub open spec fn check_follows(
    b: Set<(Text, Check)>,
    validators: Seq<Text>,
    e: EntityView,
    c: Check,
) -> bool {
    exists|i: int| #[trigger] check_by_call(b, validators, e.calls, i, c)
}

/// Whatever check follows for one of the entities is among the checks.
pub open spec fn checks_closed(
    entities: Seq<(Text, EntityView)>,
    validators: Seq<Text>,
    b: Set<(Text, Check)>,
) -> bool {
    forall|n: int, c: Check|
        0 <= n < entities.len() && #[trigger] check_follows(b, validators, entities[n].1, c)
            ==> b.contains((entities[n].1.id, c))
}

/// The access requirements stand under their names, and both maps are in order.
pub open spec fn tidy(s: SummaryView) -> bool {
    ascending(s.validations) && ascending(s.access) && forall|n: int|
        0 <= n < s.access.len() ==> (#[trigger] s.access[n]).0 == s.access[n].1.requirement
}

/// Summaries in order, each of them with its checks in order.
pub open spec fn all_tidy(sums: Seq<(Text, SummaryView)>) -> bool {
    ascending(sums) && forall|n: int| 0 <= n < sums.len() ==> tidy((#[trigger] sums[n]).1)
}

/// The entries of the one are in the other.
spec fn kept<V>(a: Seq<(Text, V)>, b: Seq<(Text, V)>) -> bool {
    forall|k: Text| lookup(a, k) is Some ==> #[trigger] lookup(b, k) == lookup(a, k)
}

/// The checks are kept, and the rest is as it was.
spec fn extends(s: SummaryView, t: SummaryView) -> bool {
    kept(s.validations, t.validations) && kept(s.access, t.access) && s.effects == t.effects
        && s.reads == t.reads && s.writes == t.writes && s.requirements == t.requirements
}

proof fn first_put_keeps<V>(m: Seq<(Text, V)>, k: Text, v: V)
    requires
        ascending(m),
    ensures
        ascending(first_put(m, k, v)),
        kept(m, first_put(m, k, v)),
        forall|x: Text|
            (#[trigger] lookup(first_put(m, k, v), x)) is Some == (lookup(m, x) is Some || x == k),
{
    if lookup(m, k) is None {
        put_keeps_order(m, k, v);
        lookup_after_put(m, k, v);
        assert forall|x: Text| (#[trigger] lookup(put(m, k, v), x)) is Some == (lookup(m, x) is Some
            || x == k) by {
            if x != k {
                lookup_of_other(m, k, v, x);
            }
        }
        assert forall|x: Text| lookup(m, x) is Some implies #[trigger] lookup(put(m, k, v), x)
            == lookup(m, x) by {
            lookup_of_other(m, k, v, x);
        }
    }
}

/// An entry from index `i` on has the key.
spec fn some_key<V>(m: Seq<(Text, V)>, i: int, k: Text) -> bool {
    exists|n: int| i <= n < m.len() && (#[trigger] m[n]).0 == k
}

proof fn some_key_is_stored<V>(m: Seq<(Text, V)>, k: Text)
    requires
        ascending(m),
    ensures
        some_key(m, 0, k) == (lookup(m, k) is Some),
{
    slot_bounds(m, k);
    if some_key(m, 0, k) {
        let n = choose|n: int| 0 <= n < m.len() && (#[trigger] m[n]).0 == k;
        slot_of_stored(m, n);
    }
    if lookup(m, k) is Some {
        assert(m[slot(m, k)].0 == k);
    }
}

proof fn validations_add(
    theirs: Seq<(Text, LocView)>,
    loc: LocView,
    i: int,
    acc: Seq<(Text, LocView)>,
)
    requires
        ascending(acc),
        0 <= i,
    ensures
        ascending(with_validations(theirs, loc, i, acc)),
        kept(acc, with_validations(theirs, loc, i, acc)),
        forall|k: Text|
            (#[trigger] lookup(with_validations(theirs, loc, i, acc), k)) is Some == (lookup(acc, k)
                is Some || some_key(theirs, i, k)),
    decreases theirs.len() - i,
{
    if i < theirs.len() {
        first_put_keeps(acc, theirs[i].0, loc);
        let next = first_put(acc, theirs[i].0, loc);
        validations_add(theirs, loc, i + 1, next);
        let all = with_validations(theirs, loc, i, acc);
        assert(all == with_validations(theirs, loc, i + 1, next));
        assert forall|k: Text| lookup(acc, k) is Some implies #[trigger] lookup(all, k) == lookup(
            acc,
            k,
        ) by {
            assert(lookup(next, k) == lookup(acc, k));
        }
        assert forall|k: Text| (#[trigger] lookup(all, k)) is Some == (lookup(acc, k) is Some
            || some_key(theirs, i, k)) by {
            assert(lookup(next, k) is Some == (lookup(acc, k) is Some || k == theirs[i].0));
            if some_key(theirs, i, k) {
                let n = choose|n: int| i <= n < theirs.len() && (#[trigger] theirs[n]).0 == k;
                if n > i {
                    assert(i + 1 <= n);
                    assert(some_key(theirs, i + 1, k));
                }
            }
            if some_key(theirs, i + 1, k) {
                let n = choose|n: int| i + 1 <= n < theirs.len() && (#[trigger] theirs[n]).0 == k;
                assert(i <= n);
            }
        }
    }
}

/// A constant requirement from index `i` on has the name.
spec fn some_access(m: Seq<(Text, AccessFactView)>, i: int, k: Text) -> bool {
    exists|n: int|
        i <= n < m.len() && (#[trigger] m[n]).0 == k && !text::ends(m[n].1.requirement, "=_"@)
}

proof fn access_adds(
    theirs: Seq<(Text, AccessFactView)>,
    i: int,
    acc: Seq<(Text, AccessFactView)>,
)
    requires
        ascending(acc),
        forall|n: int| 0 <= n < acc.len() ==> (#[trigger] acc[n]).0 == acc[n].1.requirement,
        forall|n: int| 0 <= n < theirs.len() ==> (#[trigger] theirs[n]).0 == theirs[n].1.requirement,
        0 <= i,
    ensures
        ascending(with_access(theirs, i, acc)),
        kept(acc, with_access(theirs, i, acc)),
        forall|n: int|
            0 <= n < with_access(theirs, i, acc).len() ==> (#[trigger] with_access(
                theirs,
                i,
                acc,
            )[n]).0 == with_access(theirs, i, acc)[n].1.requirement,
        forall|k: Text|
            (#[trigger] lookup(with_access(theirs, i, acc), k)) is Some == (lookup(acc, k) is Some
                || some_access(theirs, i, k)),
    decreases theirs.len() - i,
{
    if i < theirs.len() {
        let (key, v) = theirs[i];
        assert(key == v.requirement);
        first_put_keeps(acc, key, v);
        slot_bounds(acc, key);
        let constant = !text::ends(v.requirement, "=_"@);
        let next = if constant {
            first_put(acc, key, v)
        } else {
            acc
        };
        assert forall|n: int| 0 <= n < next.len() implies (#[trigger] next[n]).0
            == next[n].1.requirement by {
            let at = slot(acc, key);
            if next.len() == acc.len() {
                assert(next == acc);
            } else if n < at {
                assert(next[n] == acc[n]);
            } else if n > at {
                assert(next[n] == acc[n - 1]);
            }
        }
        access_adds(theirs, i + 1, next);
        let all = with_access(theirs, i, acc);
        assert(all == with_access(theirs, i + 1, next));
        assert forall|k: Text| lookup(acc, k) is Some implies #[trigger] lookup(all, k) == lookup(
            acc,
            k,
        ) by {
            assert(lookup(next, k) == lookup(acc, k));
        }
        assert forall|k: Text| (#[trigger] lookup(all, k)) is Some == (lookup(acc, k) is Some
            || some_access(theirs, i, k)) by {
            assert(lookup(next, k) is Some == (lookup(acc, k) is Some || (constant && k == key)));
            if some_access(theirs, i, k) {
                let n = choose|n: int|
                    i <= n < theirs.len() && (#[trigger] theirs[n]).0 == k && !text::ends(
                        theirs[n].1.requirement,
                        "=_"@,
                    );
                if n > i {
                    assert(i + 1 <= n);
                    assert(some_access(theirs, i + 1, k));
                }
            }
            if some_access(theirs, i + 1, k) {
                let n = choose|n: int|
                    i + 1 <= n < theirs.len() && (#[trigger] theirs[n]).0 == k && !text::ends(
                        theirs[n].1.requirement,
                        "=_"@,
                    );
                assert(i <= n);
            }
        }
    }
}

proof fn some_access_is_stored(m: Seq<(Text, AccessFactView)>, k: Text)
    requires
        ascending(m),
        forall|n: int| 0 <= n < m.len() ==> (#[trigger] m[n]).0 == m[n].1.requirement,
    ensures
        some_access(m, 0, k) == (lookup(m, k) is Some && !text::ends(k, "=_"@)),
{
    slot_bounds(m, k);
    if some_access(m, 0, k) {
        let n = choose|n: int|
            0 <= n < m.len() && (#[trigger] m[n]).0 == k && !text::ends(
                m[n].1.requirement,
                "=_"@,
            );
        slot_of_stored(m, n);
    }
    if lookup(m, k) is Some && !text::ends(k, "=_"@) {
        assert(m[slot(m, k)].0 == k);
    }
}

/// A call from index `i` on makes a check.
spec fn some_check(
    b: Set<(Text, Check)>,
    validators: Seq<Text>,
    calls: Seq<CallFactView>,
    i: int,
    c: Check,
) -> bool {
    exists|n: int| i <= n && #[trigger] check_by_call(b, validators, calls, n, c)
}

/// A summary with what one call makes of the checks.
spec fn after_check(
    call: CallFactView,
    validators: Seq<Text>,
    sums: Seq<(Text, SummaryView)>,
    s: SummaryView,
) -> SummaryView {
    SummaryView {
        validations: if validators.contains(call.target) {
            first_put(s.validations, call.target, call.loc)
        } else {
            match lookup(sums, call.target) {
                Some(cs) => with_validations(cs.validations, call.loc, 0, s.validations),
                None => s.validations,
            }
        },
        access: match lookup(sums, call.target) {
            Some(cs) => with_access(cs.access, 0, s.access),
            None => s.access,
        },
        ..s
    }
}

proof fn check_adds(
    call: CallFactView,
    validators: Seq<Text>,
    sums: Seq<(Text, SummaryView)>,
    s: SummaryView,
)
    requires
        all_tidy(sums),
        tidy(s),
    ensures
        tidy(after_check(call, validators, sums, s)),
        extends(s, after_check(call, validators, sums, s)),
        forall|c: Check|
            #[trigger] checked(after_check(call, validators, sums, s), c) == (checked(s, c)
                || check_from_call(checks(sums), validators, call.target, c)),
{
    let target = call.target;
    slot_bounds(sums, target);
    first_put_keeps(s.validations, target, call.loc);
    match lookup(sums, target) {
        Some(cs) => {
            assert(tidy(cs));
            validations_add(cs.validations, call.loc, 0, s.validations);
            access_adds(cs.access, 0, s.access);
        },
        None => {},
    }
    let t = after_check(call, validators, sums, s);
    assert forall|c: Check| #[trigger] checked(t, c) == (checked(s, c) || check_from_call(
        checks(sums),
        validators,
        target,
        c,
    )) by {
        match lookup(sums, target) {
            Some(cs) => {
                match c {
                    Check::Validation(x) => {
                        some_key_is_stored(cs.validations, x);
                    },
                    Check::Access(x) => {
                        some_access_is_stored(cs.access, x);
                    },
                }
            },
            None => {},
        }
    }
}

proof fn checks_add(
    calls: Seq<CallFactView>,
    validators: Seq<Text>,
    sums: Seq<(Text, SummaryView)>,
    i: int,
    s: SummaryView,
)
    requires
        all_tidy(sums),
        tidy(s),
        0 <= i,
    ensures
        tidy(after_checks(calls, validators, sums, i, s)),
        extends(s, after_checks(calls, validators, sums, i, s)),
        forall|c: Check|
            #[trigger] checked(after_checks(calls, validators, sums, i, s), c) == (checked(s, c)
                || some_check(checks(sums), validators, calls, i, c)),
    decreases calls.len() - i,
{
    let b = checks(sums);
    let all = after_checks(calls, validators, sums, i, s);
    if i < calls.len() {
        check_adds(calls[i], validators, sums, s);
        let next = after_check(calls[i], validators, sums, s);
        checks_add(calls, validators, sums, i + 1, next);
        assert(all == after_checks(calls, validators, sums, i + 1, next));
        assert forall|k: Text| lookup(s.validations, k) is Some implies #[trigger] lookup(
            all.validations,
            k,
        ) == lookup(s.validations, k) by {
            assert(lookup(next.validations, k) == lookup(s.validations, k));
        }
        assert forall|k: Text| lookup(s.access, k) is Some implies #[trigger] lookup(all.access, k)
            == lookup(s.access, k) by {
            assert(lookup(next.access, k) == lookup(s.access, k));
        }
        assert forall|c: Check| #[trigger] checked(all, c) == (checked(s, c) || some_check(
            b,
            validators,
            calls,
            i,
            c,
        )) by {
            assert(checked(next, c) == (checked(s, c) || check_from_call(
                b,
                validators,
                calls[i].target,
                c,
            )));
            if check_from_call(b, validators, calls[i].target, c) {
                assert(check_by_call(b, validators, calls, i, c));
            }
            if some_check(b, validators, calls, i, c) {
                let n = choose|n: int|
                    i <= n && #[trigger] check_by_call(b, validators, calls, n, c);
                if n > i {
                    assert(i + 1 <= n && check_by_call(b, validators, calls, n, c));
                }
            }
            if some_check(b, validators, calls, i + 1, c) {
                let n = choose|n: int|
                    i + 1 <= n && #[trigger] check_by_call(b, validators, calls, n, c);
                assert(i <= n && check_by_call(b, validators, calls, n, c));
            }
        }
    }
}

/// The same entities, with their checks kept and the rest as it was.
spec fn checks_kept(a: Seq<(Text, SummaryView)>, b: Seq<(Text, SummaryView)>) -> bool {
    a.len() == b.len() && forall|n: int|
        0 <= n < a.len() ==> (#[trigger] a[n]).0 == b[n].0 && extends(a[n].1, b[n].1)
}

proof fn extending_is_transitive(a: SummaryView, b: SummaryView, c: SummaryView)
    requires
        extends(a, b),
        extends(b, c),
    ensures
        extends(a, c),
{
    assert forall|k: Text| lookup(a.validations, k) is Some implies #[trigger] lookup(
        c.validations,
        k,
    ) == lookup(a.validations, k) by {
        assert(lookup(b.validations, k) == lookup(a.validations, k));
    }
    assert forall|k: Text| lookup(a.access, k) is Some implies #[trigger] lookup(c.access, k)
        == lookup(a.access, k) by {
        assert(lookup(b.access, k) == lookup(a.access, k));
    }
}

proof fn one_entity_checks(
    e: EntityView,
    validators: Seq<Text>,
    sums: Seq<(Text, SummaryView)>,
    s: SummaryView,
)
    requires
        all_tidy(sums),
        lookup(sums, e.id) == Some(s),
    ensures
        all_tidy(put(sums, e.id, after_checks(e.calls, validators, sums, 0, s))),
        checks_kept(sums, put(sums, e.id, after_checks(e.calls, validators, sums, 0, s))),
        forall|p: (Text, Check)|
            #[trigger] checks(
                put(sums, e.id, after_checks(e.calls, validators, sums, 0, s)),
            ).contains(p) == (checks(sums).contains(p) || (p.0 == e.id && check_follows(
                checks(sums),
                validators,
                e,
                p.1,
            ))),
{
    slot_bounds(sums, e.id);
    let at = slot(sums, e.id);
    assert(tidy(s));
    checks_add(e.calls, validators, sums, 0, s);
    let t = after_checks(e.calls, validators, sums, 0, s);
    let next = put(sums, e.id, t);
    put_keeps_order(sums, e.id, t);
    lookup_after_put(sums, e.id, t);
    assert(next == sums.update(at, (e.id, t)));
    assert forall|p: (Text, Check)| #[trigger] checks(next).contains(p) == (checks(sums).contains(p)
        || (p.0 == e.id && check_follows(checks(sums), validators, e, p.1))) by {
        if p.0 == e.id {
            assert(checked(t, p.1) == (checked(s, p.1) || some_check(
                checks(sums),
                validators,
                e.calls,
                0,
                p.1,
            )));
            if check_follows(checks(sums), validators, e, p.1) {
                let i = choose|i: int| #[trigger]
                    check_by_call(checks(sums), validators, e.calls, i, p.1);
                assert(0 <= i && check_by_call(checks(sums), validators, e.calls, i, p.1));
            }
            if some_check(checks(sums), validators, e.calls, 0, p.1) {
                let i = choose|i: int|
                    0 <= i && #[trigger] check_by_call(
                        checks(sums),
                        validators,
                        e.calls,
                        i,
                        p.1,
                    );
                assert(check_by_call(checks(sums), validators, e.calls, i, p.1));
            }
        } else {
            lookup_of_other(sums, e.id, t, p.0);
        }
    }
}

proof fn check_pass_grows(
    entities: Seq<(Text, EntityView)>,
    validators: Seq<Text>,
    i: int,
    sums: Seq<(Text, SummaryView)>,
)
    requires
        all_tidy(sums),
    ensures
        all_tidy(check_pass(entities, validators, i, sums)),
        checks_kept(sums, check_pass(entities, validators, i, sums)),
        checks(sums).subset_of(checks(check_pass(entities, validators, i, sums))),
    decreases entities.len() - i,
{
    if 0 <= i < entities.len() {
        let e = entities[i].1;
        match lookup(sums, e.id) {
            Some(s) => {
                one_entity_checks(e, validators, sums, s);
                let next = put(sums, e.id, after_checks(e.calls, validators, sums, 0, s));
                check_pass_grows(entities, validators, i + 1, next);
                let all = check_pass(entities, validators, i, sums);
                assert(all == check_pass(entities, validators, i + 1, next));
                assert forall|n: int| 0 <= n < sums.len() implies (#[trigger] sums[n]).0
                    == all[n].0 && extends(sums[n].1, all[n].1) by {
                    assert(next[n].0 == all[n].0);
                    extending_is_transitive(sums[n].1, next[n].1, all[n].1);
                }
            },
            None => {
                check_pass_grows(entities, validators, i + 1, sums);
            },
        }
    }
}

proof fn check_pass_stays_inside(
    entities: Seq<(Text, EntityView)>,
    validators: Seq<Text>,
    i: int,
    sums: Seq<(Text, SummaryView)>,
    b: Set<(Text, Check)>,
)
    requires
        all_tidy(sums),
        checks_closed(entities, validators, b),
        checks(sums).subset_of(b),
    ensures
        checks(check_pass(entities, validators, i, sums)).subset_of(b),
    decreases entities.len() - i,
{
    if 0 <= i < entities.len() {
        let e = entities[i].1;
        match lookup(sums, e.id) {
            Some(s) => {
                one_entity_checks(e, validators, sums, s);
                let next = put(sums, e.id, after_checks(e.calls, validators, sums, 0, s));
                assert forall|p: (Text, Check)| checks(next).contains(p) implies b.contains(p) by {
                    if !checks(sums).contains(p) {
                        let k = choose|k: int| #[trigger]
                            check_by_call(checks(sums), validators, e.calls, k, p.1);
                        assert(check_by_call(b, validators, e.calls, k, p.1));
                        assert(check_follows(b, validators, entities[i].1, p.1));
                    }
                }
                check_pass_stays_inside(entities, validators, i + 1, next, b);
            },
            None => {
                check_pass_stays_inside(entities, validators, i + 1, sums, b);
            },
        }
    }
}

proof fn same_checks_same_map<V>(a: Seq<(Text, V)>, b: Seq<(Text, V)>)
    requires
        ascending(a),
        ascending(b),
        kept(a, b),
        forall|k: Text| (#[trigger] lookup(a, k)) is Some == lookup(b, k) is Some,
    ensures
        a == b,
{
    assert forall|k: Text| #[trigger] lookup(a, k) == lookup(b, k) by {
        assert(lookup(a, k) is Some == lookup(b, k) is Some);
    }
    maps_with_same_entries(a, b);
}

proof fn same_checks_same_summaries(a: Seq<(Text, SummaryView)>, b: Seq<(Text, SummaryView)>)
    requires
        all_tidy(a),
        all_tidy(b),
        checks_kept(a, b),
        checks(a) == checks(b),
    ensures
        a == b,
{
    assert forall|n: int| 0 <= n < a.len() implies a[n] == b[n] by {
        let id = a[n].0;
        slot_of_stored(a, n);
        slot_of_stored(b, n);
        let s = a[n].1;
        let t = b[n].1;
        assert(extends(s, t));
        assert(tidy(s) && tidy(t));
        assert forall|k: Text| (#[trigger] lookup(s.validations, k)) is Some == lookup(
            t.validations,
            k,
        ) is Some by {
            let p = (id, Check::Validation(k));
            assert(checks(a).contains(p) == checked(s, p.1));
            assert(checks(b).contains(p) == checked(t, p.1));
        }
        assert forall|k: Text| (#[trigger] lookup(s.access, k)) is Some == lookup(t.access, k)
            is Some by {
            let p = (id, Check::Access(k));
            assert(checks(a).contains(p) == checked(s, p.1));
            assert(checks(b).contains(p) == checked(t, p.1));
        }
        same_checks_same_map(s.validations, t.validations);
        same_checks_same_map(s.access, t.access);
        assert(s == t);
    }
    assert(a =~= b);
}

proof fn still_check_pass_is_closed(
    entities: Seq<(Text, EntityView)>,
    validators: Seq<Text>,
    i: int,
    sums: Seq<(Text, SummaryView)>,
    n: int,
    c: Check,
)
    requires
        all_tidy(sums),
        check_pass(entities, validators, i, sums) == sums,
        0 <= i <= n < entities.len(),
        lookup(sums, entities[n].1.id) is Some,
        check_follows(checks(sums), validators, entities[n].1, c),
    ensures
        checks(sums).contains((entities[n].1.id, c)),
    decreases entities.len() - i,
{
    let e = entities[i].1;
    match lookup(sums, e.id) {
        Some(s) => {
            one_entity_checks(e, validators, sums, s);
            let next = put(sums, e.id, after_checks(e.calls, validators, sums, 0, s));
            check_pass_grows(entities, validators, i + 1, next);
            assert(check_pass(entities, validators, i + 1, next) == sums);
            assert(checks(next) =~= checks(sums)) by {
                assert forall|p: (Text, Check)| checks(sums).contains(p) implies checks(
                    next,
                ).contains(p) by {}
            }
            same_checks_same_summaries(sums, next);
            if n == i {
                assert(checks(next).contains((e.id, c)));
            } else {
                still_check_pass_is_closed(entities, validators, i + 1, sums, n, c);
            }
        },
        None => {
            still_check_pass_is_closed(entities, validators, i + 1, sums, n, c);
        },
    }
}

/// A pass that changes something finds a check that was not known.
pub proof fn check_pass_makes_room(
    entities: Seq<(Text, EntityView)>,
    validators: Seq<Text>,
    sums: Seq<(Text, SummaryView)>,
    b: Set<(Text, Check)>,
)
    requires
        all_tidy(sums),
        checks_closed(entities, validators, b),
        b.finite(),
        checks(sums).subset_of(b),
        check_pass(entities, validators, 0, sums) != sums,
    ensures
        all_tidy(check_pass(entities, validators, 0, sums)),
        checks(check_pass(entities, validators, 0, sums)).subset_of(b),
        checks(sums).len() < checks(check_pass(entities, validators, 0, sums)).len(),
        checks(check_pass(entities, validators, 0, sums)).len() <= b.len(),
{
    let next = check_pass(entities, validators, 0, sums);
    check_pass_grows(entities, validators, 0, sums);
    check_pass_stays_inside(entities, validators, 0, sums, b);
    vstd::set_lib::lemma_set_subset_finite(b, checks(next));
    vstd::set_lib::lemma_len_subset(checks(next), b);
    vstd::set_lib::lemma_len_subset(checks(sums), checks(next));
    if checks(sums).len() == checks(next).len() {
        vstd::set_lib::lemma_subset_equality(checks(sums), checks(next));
        same_checks_same_summaries(sums, next);
    }
}

proof fn check_passes_settle(
    entities: Seq<(Text, EntityView)>,
    validators: Seq<Text>,
    sums: Seq<(Text, SummaryView)>,
    rounds: nat,
    b: Set<(Text, Check)>,
)
    requires
        all_tidy(sums),
        checks_closed(entities, validators, b),
        b.finite(),
        checks(sums).subset_of(b),
        b.len() <= rounds + checks(sums).len(),
    ensures
        all_tidy(checks_settled(entities, validators, sums, rounds)),
        checks_kept(sums, checks_settled(entities, validators, sums, rounds)),
        check_pass(entities, validators, 0, checks_settled(entities, validators, sums, rounds))
            == checks_settled(entities, validators, sums, rounds),
        checks(sums).subset_of(checks(checks_settled(entities, validators, sums, rounds))),
    decreases rounds,
{
    let next = check_pass(entities, validators, 0, sums);
    check_pass_grows(entities, validators, 0, sums);
    if next == sums {
    } else {
        check_pass_makes_room(entities, validators, sums, b);
        check_passes_settle(entities, validators, next, (rounds - 1) as nat, b);
        let all = checks_settled(entities, validators, sums, rounds);
        assert(all == checks_settled(entities, validators, next, (rounds - 1) as nat));
        assert forall|n: int| 0 <= n < sums.len() implies (#[trigger] sums[n]).0 == all[n].0
            && extends(sums[n].1, all[n].1) by {
            assert(next[n].0 == all[n].0);
            extending_is_transitive(sums[n].1, next[n].1, all[n].1);
        }
    }
}

proof fn check_passes_stay_inside(
    entities: Seq<(Text, EntityView)>,
    validators: Seq<Text>,
    sums: Seq<(Text, SummaryView)>,
    rounds: nat,
    b: Set<(Text, Check)>,
)
    requires
        all_tidy(sums),
        checks_closed(entities, validators, b),
        checks(sums).subset_of(b),
    ensures
        checks(checks_settled(entities, validators, sums, rounds)).subset_of(b),
    decreases rounds,
{
    let next = check_pass(entities, validators, 0, sums);
    check_pass_grows(entities, validators, 0, sums);
    check_pass_stays_inside(entities, validators, 0, sums, b);
    if next != sums && rounds > 0 {
        check_passes_stay_inside(entities, validators, next, (rounds - 1) as nat, b);
    }
}

// ---- every check that can be found

/// The targets of the calls of an entity.
pub open spec fn targets_in(e: EntityView) -> Seq<Text> {
    Seq::new(e.calls.len(), |i: int| e.calls[i].target)
}

/// The access requirements of an entity.
pub open spec fn access_in(e: EntityView) -> Seq<Text> {
    Seq::new(e.access.len(), |i: int| e.access[i].requirement)
}

/// Every check that can be found of the entities.
pub open spec fn possible_checks(entities: Seq<(Text, EntityView)>) -> Set<(Text, Check)> {
    Set::new(
        |p: (Text, Check)|
            gathered(entities, |e: EntityView| ids_in(e), 0).contains(p.0) && (match p.1 {
                Check::Validation(x) => gathered(
                    entities,
                    |e: EntityView| targets_in(e),
                    0,
                ).contains(x),
                Check::Access(x) => gathered(entities, |e: EntityView| access_in(e), 0).contains(x),
            }),
    )
}

proof fn possible_checks_are_finite(entities: Seq<(Text, EntityView)>)
    ensures
        possible_checks(entities).finite(),
{
    let ids = gathered(entities, |e: EntityView| ids_in(e), 0).to_set();
    let targets = gathered(entities, |e: EntityView| targets_in(e), 0).to_set();
    let names = gathered(entities, |e: EntityView| access_in(e), 0).to_set();
    vstd::seq_lib::seq_to_set_is_finite(gathered(entities, |e: EntityView| ids_in(e), 0));
    vstd::seq_lib::seq_to_set_is_finite(gathered(entities, |e: EntityView| targets_in(e), 0));
    vstd::seq_lib::seq_to_set_is_finite(gathered(entities, |e: EntityView| access_in(e), 0));
    let f1 = |x: Text| Check::Validation(x);
    let f2 = |x: Text| Check::Access(x);
    targets.lemma_map_finite(f1);
    names.lemma_map_finite(f2);
    let all = targets.map(f1).union(names.map(f2));
    pairs_are_finite(ids, all);
    assert forall|p: (Text, Check)| possible_checks(entities).contains(p) implies pairs(
        ids,
        all,
    ).contains(p) by {
        match p.1 {
            Check::Validation(x) => {
                assert(targets.contains(x));
                assert(f1(x) == p.1);
                assert(targets.map(f1).contains(p.1));
            },
            Check::Access(x) => {
                assert(names.contains(x));
                assert(f2(x) == p.1);
                assert(names.map(f2).contains(p.1));
            },
        }
    }
    vstd::set_lib::lemma_set_subset_finite(pairs(ids, all), possible_checks(entities));
}

proof fn possible_checks_are_closed(entities: Seq<(Text, EntityView)>, validators: Seq<Text>)
    ensures
        checks_closed(entities, validators, possible_checks(entities)),
{
    let b = possible_checks(entities);
    assert forall|n: int, c: Check|
        0 <= n < entities.len() && #[trigger] check_follows(
            b,
            validators,
            entities[n].1,
            c,
        ) implies b.contains((entities[n].1.id, c)) by {
        let e = entities[n].1;
        assert(ids_in(e)[0] == e.id);
        gathered_has(entities, |e: EntityView| ids_in(e), 0, n, e.id);
        let i = choose|i: int| #[trigger] check_by_call(b, validators, e.calls, i, c);
        assert(targets_in(e)[i] == e.calls[i].target);
        gathered_has(entities, |e: EntityView| targets_in(e), 0, n, e.calls[i].target);
    }
}

proof fn own_access_is_own(
    access: Seq<AccessFactView>,
    i: int,
    acc: Seq<(Text, AccessFactView)>,
)
    requires
        0 <= i,
        ascending(acc),
        forall|n: int| 0 <= n < acc.len() ==> (#[trigger] acc[n]).0 == acc[n].1.requirement,
    ensures
        ascending(own_access(access, i, acc)),
        forall|n: int|
            0 <= n < own_access(access, i, acc).len() ==> (#[trigger] own_access(
                access,
                i,
                acc,
            )[n]).0 == own_access(access, i, acc)[n].1.requirement,
        forall|k: Text|
            (#[trigger] lookup(own_access(access, i, acc), k)) is Some ==> lookup(acc, k) is Some
                || exists|n: int| i <= n < access.len() && (#[trigger] access[n]).requirement == k,
        forall|n: int|
            i <= n < access.len() ==> lookup(
                own_access(access, i, acc),
                (#[trigger] access[n]).requirement,
            ) is Some,
        kept(acc, own_access(access, i, acc)),
    decreases access.len() - i,
{
    if i < access.len() {
        let key = access[i].requirement;
        first_put_keeps(acc, key, access[i]);
        slot_bounds(acc, key);
        let next = first_put(acc, key, access[i]);
        let at = slot(acc, key);
        assert forall|n: int| 0 <= n < next.len() implies (#[trigger] next[n]).0
            == next[n].1.requirement by {
            if next.len() == acc.len() {
                assert(next == acc);
            } else if n < at {
                assert(next[n] == acc[n]);
            } else if n > at {
                assert(next[n] == acc[n - 1]);
            }
        }
        own_access_is_own(access, i + 1, next);
        let all = own_access(access, i, acc);
        assert(all == own_access(access, i + 1, next));
        assert(lookup(next, key) is Some);
        assert(lookup(all, key) == lookup(next, key));
        assert forall|k: Text| lookup(acc, k) is Some implies #[trigger] lookup(all, k) == lookup(
            acc,
            k,
        ) by {
            assert(lookup(next, k) == lookup(acc, k));
        }
        assert forall|k: Text| (#[trigger] lookup(all, k)) is Some implies lookup(acc, k) is Some
            || exists|n: int| i <= n < access.len() && (#[trigger] access[n]).requirement == k by {
            if lookup(next, k) is Some && !(lookup(acc, k) is Some) {
                assert(access[i].requirement == k);
            }
        }
    }
}

proof fn own_is_tidy(e: EntityView)
    ensures
        tidy(own_summary(e)),
        forall|c: Check|
            #[trigger] checked(own_summary(e), c) <==> (match c {
                Check::Validation(x) => false,
                Check::Access(x) => access_in(e).contains(x),
            }),
{
    let none = Seq::<(Text, AccessFactView)>::empty();
    assert(none =~= seq![]);
    own_access_is_own(e.access, 0, none);
    let s = own_summary(e);
    assert forall|c: Check| #[trigger] checked(s, c) <==> (match c {
        Check::Validation(x) => false,
        Check::Access(x) => access_in(e).contains(x),
    }) by {
        match c {
            Check::Validation(x) => {},
            Check::Access(x) => {
                if lookup(s.access, x) is Some {
                    let n = choose|n: int|
                        0 <= n < e.access.len() && (#[trigger] e.access[n]).requirement == x;
                    assert(access_in(e)[n] == x);
                }
                if access_in(e).contains(x) {
                    let n = choose|n: int| 0 <= n < access_in(e).len() && access_in(e)[n] == x;
                    assert(e.access[n].requirement == x);
                }
            },
        }
    }
}

proof fn own_summaries_are_tidy(
    entities: Seq<(Text, EntityView)>,
    i: int,
    acc: Seq<(Text, SummaryView)>,
)
    requires
        0 <= i,
        all_tidy(acc),
        checks(acc).subset_of(possible_checks(entities)),
    ensures
        all_tidy(own_summaries(entities, i, acc)),
        checks(own_summaries(entities, i, acc)).subset_of(possible_checks(entities)),
    decreases entities.len() - i,
{
    if i < entities.len() {
        let e = entities[i].1;
        let s = own_summary(e);
        own_is_tidy(e);
        let next = put(acc, e.id, s);
        put_keeps_order(acc, e.id, s);
        lookup_after_put(acc, e.id, s);
        slot_bounds(acc, e.id);
        let at = slot(acc, e.id);
        assert forall|n: int| 0 <= n < next.len() implies tidy((#[trigger] next[n]).1) by {
            if n < at || (n > at && next.len() == acc.len()) {
                assert(next[n] == acc[n]);
            } else if n > at {
                assert(next[n] == acc[n - 1]);
            }
        }
        assert forall|p: (Text, Check)| checks(next).contains(p) implies possible_checks(
            entities,
        ).contains(p) by {
            if p.0 == e.id {
                assert(checked(s, p.1));
                assert(ids_in(e)[0] == e.id);
                gathered_has(entities, |e: EntityView| ids_in(e), 0, i, e.id);
                match p.1 {
                    Check::Validation(x) => {},
                    Check::Access(x) => {
                        gathered_has(entities, |e: EntityView| access_in(e), 0, i, x);
                    },
                }
            } else {
                lookup_of_other(acc, e.id, s, p.0);
                assert(checks(acc).contains(p));
            }
        }
        own_summaries_are_tidy(entities, i + 1, next);
    }
}

proof fn same_frame_same_checks(a: Seq<(Text, SummaryView)>, b: Seq<(Text, SummaryView)>)
    requires
        all_tidy(a),
        ascending(b),
        same_frame(a, b),
    ensures
        all_tidy(b),
        checks(a) == checks(b),
{
    assert forall|n: int| 0 <= n < b.len() implies tidy((#[trigger] b[n]).1) by {
        assert(tidy(a[n].1));
        assert(same_checks(a[n].1, b[n].1));
    }
    assert forall|p: (Text, Check)| checks(a).contains(p) == checks(b).contains(p) by {
        slot_bounds(a, p.0);
        slot_bounds(b, p.0);
        if lookup(a, p.0) is Some {
            let n = slot(a, p.0);
            assert(a[n].0 == b[n].0);
            slot_of_stored(a, n);
            slot_of_stored(b, n);
        }
        if lookup(b, p.0) is Some {
            let n = slot(b, p.0);
            assert(a[n].0 == b[n].0);
            slot_of_stored(a, n);
            slot_of_stored(b, n);
        }
    }
    assert(checks(a) =~= checks(b));
}

/// What the entities check once their effects are settled is in order and can all be found, and
/// whatever check follows from what can be found can be found.
pub proof fn settled_checks_can_be_found(
    entities: Seq<(Text, EntityView)>,
    subs: Seq<SubscriptionView>,
    validators: Seq<Text>,
)
    ensures
        all_tidy(
            settled(entities, subs, own_summaries(entities, 0, seq![]), possible(entities).len()),
        ),
        checks(
            settled(entities, subs, own_summaries(entities, 0, seq![]), possible(entities).len()),
        ).subset_of(possible_checks(entities)),
        checks_closed(entities, validators, possible_checks(entities)),
        possible_checks(entities).finite(),
{
    let none = Seq::<(Text, SummaryView)>::empty();
    assert(none =~= seq![]);
    let own = own_summaries(entities, 0, none);
    own_facts_can_be_found(entities, subs);
    passes_settle(entities, subs, own, possible(entities).len(), possible(entities));
    own_summaries_are_tidy(entities, 0, none);
    same_frame_same_checks(own, settled(entities, subs, own, possible(entities).len()));
    possible_checks_are_finite(entities);
    possible_checks_are_closed(entities, validators);
}

// ---- the whole

/// The same entities, with everything but the guards as it was.
spec fn guards_only(a: Seq<(Text, SummaryView)>, b: Seq<(Text, SummaryView)>) -> bool {
    forall|id: Text|
        match lookup(a, id) {
            Some(s) => (#[trigger] lookup(b, id)) is Some && lookup(b, id)->Some_0 == (SummaryView {
                requirements: lookup(b, id)->Some_0.requirements,
                ..s
            }),
            None => lookup(b, id) is None,
        }
}

proof fn guards_leave_the_rest(
    entities: Seq<(Text, EntityView)>,
    i: int,
    sums: Seq<(Text, SummaryView)>,
)
    requires
        ascending(sums),
    ensures
        guards_only(sums, with_guards(entities, i, sums)),
    decreases entities.len() - i,
{
    if 0 <= i < entities.len() {
        let e = entities[i].1;
        match lookup(sums, e.id) {
            Some(s) => {
                let t = SummaryView {
                    requirements: s.requirements + guards_from(entities, e.guards, 0),
                    ..s
                };
                let next = put(sums, e.id, t);
                put_keeps_order(sums, e.id, t);
                lookup_after_put(sums, e.id, t);
                guards_leave_the_rest(entities, i + 1, next);
                let all = with_guards(entities, i, sums);
                assert(all == with_guards(entities, i + 1, next));
                assert forall|id: Text|
                    match lookup(sums, id) {
                        Some(s) => (#[trigger] lookup(all, id)) is Some && lookup(all, id)->Some_0
                            == (SummaryView {
                            requirements: lookup(all, id)->Some_0.requirements,
                            ..s
                        }),
                        None => lookup(all, id) is None,
                    } by {
                    if id != e.id {
                        lookup_of_other(sums, e.id, t, id);
                    }
                    assert(lookup(next, id) is Some == lookup(all, id) is Some);
                }
            },
            None => {
                guards_leave_the_rest(entities, i + 1, sums);
            },
        }
    }
}

proof fn checks_keep_facts(a: Seq<(Text, SummaryView)>, b: Seq<(Text, SummaryView)>)
    requires
        ascending(a),
        ascending(b),
        checks_kept(a, b),
    ensures
        facts(a) == facts(b),
{
    assert forall|p: (Text, Fact)| facts(a).contains(p) == facts(b).contains(p) by {
        slot_bounds(a, p.0);
        slot_bounds(b, p.0);
        if lookup(a, p.0) is Some {
            let n = slot(a, p.0);
            assert(a[n].0 == b[n].0);
            slot_of_stored(a, n);
            slot_of_stored(b, n);
        }
        if lookup(b, p.0) is Some {
            let n = slot(b, p.0);
            assert(a[n].0 == b[n].0);
            slot_of_stored(a, n);
            slot_of_stored(b, n);
        }
    }
    assert(facts(a) =~= facts(b));
}

proof fn guards_keep_facts(a: Seq<(Text, SummaryView)>, b: Seq<(Text, SummaryView)>)
    requires
        guards_only(a, b),
    ensures
        facts(a) == facts(b),
        checks(a) == checks(b),
{
    assert forall|p: (Text, Fact)| facts(a).contains(p) == facts(b).contains(p) by {
        assert(lookup(b, p.0) is Some == lookup(a, p.0) is Some);
    }
    assert(facts(a) =~= facts(b));
    assert forall|p: (Text, Check)| checks(a).contains(p) == checks(b).contains(p) by {
        assert(lookup(b, p.0) is Some == lookup(a, p.0) is Some);
    }
    assert(checks(a) =~= checks(b));
}

/// Effects, reads and writes are transitive and follow event subscriptions. In a summarised
/// model, every entity has its own facts; it has what each of its callees has, reached through
/// that callee; it has the effects of each handler of an event that it emits, reached
/// asynchronously through that event; and nothing is said that lies outside some set of facts
/// with these properties.
pub proof fn effects_spread(m: ModelView, b: Set<(Text, Fact)>)
    requires
        ascending(m.entities),
        keyed(m),
    ensures
        has_own(m.entities, facts(summarised(m).summaries)),
        is_closed(m.entities, m.subscriptions, facts(summarised(m).summaries)),
        has_own(m.entities, b) && is_closed(m.entities, m.subscriptions, b) ==> facts(
            summarised(m).summaries,
        ).subset_of(b),
{
    let es = m.entities;
    let none = Seq::<(Text, SummaryView)>::empty();
    assert(none =~= seq![]);
    let own = own_summaries(es, 0, none);
    let first = settled(es, m.subscriptions, own, possible(es).len());
    let (second, validators) = summaries_of(m);
    settled_is_least(es, m.subscriptions, b);
    settled_checks_can_be_found(es, m.subscriptions, validators);
    check_passes_settle(es, validators, first, possible_checks(es).len(), possible_checks(es));
    checks_keep_facts(first, second);
    guards_leave_the_rest(es, 0, second);
    guards_keep_facts(second, summarised(m).summaries);
}

/// Validations and access requirements are transitive. In a summarised model, an entity has its
/// own access requirements, the constant ones of each of its callees, each validator that it
/// calls, and the validations of each callee that is no validator; and nothing is said that lies
/// outside some set of checks with these properties.
pub proof fn checks_spread(m: ModelView, b: Set<(Text, Check)>)
    requires
        ascending(m.entities),
        keyed(m),
    ensures
        forall|n: int, x: Text|
            0 <= n < m.entities.len() && #[trigger] access_in(m.entities[n].1).contains(x)
                ==> checks(summarised(m).summaries).contains(
                (m.entities[n].1.id, Check::Access(x)),
            ),
        checks_closed(m.entities, summarised(m).validators, checks(summarised(m).summaries)),
        (forall|n: int, x: Text|
            0 <= n < m.entities.len() && #[trigger] access_in(m.entities[n].1).contains(x)
                ==> b.contains((m.entities[n].1.id, Check::Access(x)))) && checks_closed(
            m.entities,
            summarised(m).validators,
            b,
        ) ==> checks(summarised(m).summaries).subset_of(b),
{
    let es = m.entities;
    let none = Seq::<(Text, SummaryView)>::empty();
    assert(none =~= seq![]);
    let own = own_summaries(es, 0, none);
    let first = settled(es, m.subscriptions, own, possible(es).len());
    let (second, validators) = summaries_of(m);
    own_facts_can_be_found(es, m.subscriptions);
    passes_settle(es, m.subscriptions, own, possible(es).len(), possible(es));
    own_summaries_are_tidy(es, 0, none);
    same_frame_same_checks(own, first);
    settled_checks_can_be_found(es, m.subscriptions, validators);
    check_passes_settle(es, validators, first, possible_checks(es).len(), possible_checks(es));
    guards_leave_the_rest(es, 0, second);
    guards_keep_facts(second, summarised(m).summaries);
    let all = checks(second);
    assert forall|n: int, x: Text|
        0 <= n < es.len() && #[trigger] access_in(es[n].1).contains(x) implies all.contains(
        (es[n].1.id, Check::Access(x)),
    ) by {
        own_summary_is_stored(es, 0, none, n);
        own_is_tidy(es[n].1);
        assert(checked(own_summary(es[n].1), Check::Access(x)));
        assert(checks(own).contains((es[n].1.id, Check::Access(x))));
    }
    assert forall|n: int, c: Check|
        0 <= n < es.len() && #[trigger] check_follows(all, validators, es[n].1, c) implies
        all.contains((es[n].1.id, c)) by {
        own_summary_is_stored(es, 0, none, n);
        let id = es[n].1.id;
        slot_bounds(own, id);
        let at = slot(own, id);
        assert(own[at].0 == first[at].0);
        assert(first[at].0 == second[at].0);
        slot_of_stored(second, at);
        still_check_pass_is_closed(es, validators, 0, second, n, c);
    }
    if (forall|n: int, x: Text|
        0 <= n < es.len() && #[trigger] access_in(es[n].1).contains(x) ==> b.contains(
            (es[n].1.id, Check::Access(x)),
        )) && checks_closed(es, validators, b) {
        assert forall|p: (Text, Check)| checks(first).contains(p) implies b.contains(p) by {
            assert(checks(own).contains(p));
            own_checks_are_own(es, 0, none, p);
            let n = choose|n: int|
                0 <= n < es.len() && (#[trigger] es[n]).1.id == p.0 && checked(
                    own_summary(es[n].1),
                    p.1,
                );
            own_is_tidy(es[n].1);
            match p.1 {
                Check::Validation(x) => {},
                Check::Access(x) => {
                    assert(access_in(es[n].1).contains(x));
                },
            }
        }
        check_passes_stay_inside(es, validators, first, possible_checks(es).len(), b);
    }
}

proof fn own_checks_are_own(
    entities: Seq<(Text, EntityView)>,
    i: int,
    acc: Seq<(Text, SummaryView)>,
    p: (Text, Check),
)
    requires
        0 <= i,
        ascending(acc),
        checks(own_summaries(entities, i, acc)).contains(p),
    ensures
        checks(acc).contains(p) || exists|n: int|
            i <= n < entities.len() && (#[trigger] entities[n]).1.id == p.0 && checked(
                own_summary(entities[n].1),
                p.1,
            ),
    decreases entities.len() - i,
{
    if i < entities.len() {
        let e = entities[i].1;
        let s = own_summary(e);
        let next = put(acc, e.id, s);
        put_keeps_order(acc, e.id, s);
        lookup_after_put(acc, e.id, s);
        own_checks_are_own(entities, i + 1, next, p);
        if checks(next).contains(p) {
            if p.0 == e.id {
                assert(entities[i].1.id == p.0 && checked(own_summary(entities[i].1), p.1));
            } else {
                lookup_of_other(acc, e.id, s, p.0);
            }
        }
    }
}

} // verus!
