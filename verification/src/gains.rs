//! What a changed function gained, lost and kept: each effect, check, guard, field and rule that
//! differs between its two versions is told, and nothing else is.

use crate::behaviour::{
    changed_pair, check_gains, check_losses, data_changes, effect_gains, effect_losses, entity_ops,
    filter_texts, guard_at, guard_changes, guard_gains, guards_held, pair_filters, pair_ops,
    pairs_ops, relevant_guards, renamed_checks, rival_at, rule_change,
};
use crate::claims::claims_refactor;
use crate::hook;
use crate::matching::matched;
use crate::meaning::{holds, World};
use crate::nesting::scoped;
use crate::model::{
    effect_text, AccessFactView, EffectInfoView, EffectKeyView, EntityView, ModelView,
    QueryFilterView, SummaryView,
};
use crate::ops::{
    access_changed, auth_changed, auth_pred, facts_only, filter_at, filter_changes, filter_gains,
    filter_losses, filters_apart, filters_changed, filters_paired, filters_sorted, column,
    column_at, found, Layer, OpView,
};
use crate::ordered::{
    ascending, lookup, lookup_after_put, lookup_of_other, minus, minus_members, put,
    put_keeps_order, slot_bounds, sorted_is_in_sequence,
};
use crate::pred::{field_of, pred_text, PredView};
use crate::ir::LocView;
use crate::text;
use crate::text::Text;
use crate::transition::{all_ops, direct_ops, ops_between, typed_ops};
use vstd::prelude::*;

verus! {

// ---- what operations say

/// An operation on the behaviour of `subject` says what stood before and what stands after.
pub open spec fn says(
    op: OpView,
    kind: Text,
    subject: Text,
    before: Option<Text>,
    after: Option<Text>,
) -> bool {
    op.kind == kind && op.layer == Layer::Behaviour && op.subject == subject && op.before == before
        && op.after == after
}

/// Some operation says so.
pub open spec fn is_told(
    ops: Seq<OpView>,
    kind: Text,
    subject: Text,
    before: Option<Text>,
    after: Option<Text>,
) -> bool {
    exists|j: int| 0 <= j < ops.len() && says(#[trigger] ops[j], kind, subject, before, after)
}

proof fn told_in_parts(
    a: Seq<OpView>,
    b: Seq<OpView>,
    kind: Text,
    subject: Text,
    before: Option<Text>,
    after: Option<Text>,
)
    ensures
        is_told(a + b, kind, subject, before, after) == (is_told(a, kind, subject, before, after)
            || is_told(b, kind, subject, before, after)),
{
    let c = a + b;
    if is_told(a, kind, subject, before, after) {
        let j = choose|j: int|
            0 <= j < a.len() && says(#[trigger] a[j], kind, subject, before, after);
        assert(c[j] == a[j]);
    }
    if is_told(b, kind, subject, before, after) {
        let j = choose|j: int|
            0 <= j < b.len() && says(#[trigger] b[j], kind, subject, before, after);
        assert(c[a.len() + j] == b[j]);
    }
    if is_told(c, kind, subject, before, after) {
        let j = choose|j: int|
            0 <= j < c.len() && says(#[trigger] c[j], kind, subject, before, after);
        if j < a.len() {
            assert(c[j] == a[j]);
        } else {
            assert(c[j] == b[j - a.len()]);
        }
    }
}

// ---- names

/// What an entity is called after the change.
pub open spec fn name_now(forward: Seq<(Text, Text)>, id: Text) -> Text {
    match lookup(forward, id) {
        Some(n) => n,
        None => id,
    }
}

/// An effect with the ways in which it is reached.
pub open spec fn effect_with_modes(e: (EffectKeyView, EffectInfoView)) -> Text {
    effect_text(e.0) + " ("@ + text::joined(e.1.modes, ", "@) + ")"@
}

// ---- effects

/// An effect that the other version does not have.
pub open spec fn is_missing(e: (EffectKeyView, EffectInfoView), other: Seq<(EffectKeyView, EffectInfoView)>) -> bool {
    lookup(other, e.0) is None
}

/// A check that was there and is not there any more.
pub open spec fn is_gone(va: Seq<(Text, LocView)>, vb: Seq<(Text, LocView)>, check: Text) -> bool {
    lookup(va, check) is Some && lookup(vb, check) is None
}

/// An effect that was reached only through checks that are gone: the loss of the check tells it.
pub open spec fn is_excused(e: (EffectKeyView, EffectInfoView), forward: Seq<(Text, Text)>, va: Seq<(Text, LocView)>, vb: Seq<(Text, LocView)>) -> bool {
    &&& exists|c: int| 0 <= c < va.len() && lookup(vb, (#[trigger] va[c]).0) is None
    &&& forall|i: int|
        0 <= i < e.1.via.len() ==> is_gone(va, vb, name_now(forward, #[trigger] e.1.via[i]))
}

/// An effect that the new version lost, for which no lost check accounts.
pub open spec fn is_lost(
    e: (EffectKeyView, EffectInfoView),
    sb: Seq<(EffectKeyView, EffectInfoView)>,
    forward: Seq<(Text, Text)>,
    va: Seq<(Text, LocView)>,
    vb: Seq<(Text, LocView)>,
) -> bool {
    is_missing(e, sb) && !is_excused(e, forward, va, vb)
}

/// An effect happens while the caller waits, and only so.
pub open spec fn is_awaited(i: EffectInfoView) -> bool {
    forall|n: int| 0 <= n < i.modes.len() ==> #[trigger] i.modes[n] == "sync"@
}

/// An effect happens without the caller, and only so.
pub open spec fn is_deferred(i: EffectInfoView) -> bool {
    forall|n: int| 0 <= n < i.modes.len() ==> text::begins(#[trigger] i.modes[n], "async"@)
}

/// An effect that moved from the caller's turn to a later one.
pub open spec fn is_put_off(e: (EffectKeyView, EffectInfoView), sa: Seq<(EffectKeyView, EffectInfoView)>) -> bool {
    lookup(sa, e.0) matches Some(ia) && is_awaited(ia) && is_deferred(e.1)
}

/// An effect that moved into the caller's turn.
pub open spec fn is_drawn_in(e: (EffectKeyView, EffectInfoView), sa: Seq<(EffectKeyView, EffectInfoView)>) -> bool {
    lookup(sa, e.0) matches Some(ia) && !(is_awaited(ia) && is_deferred(e.1)) && is_deferred(ia)
        && is_awaited(e.1)
}

/// What is said of an effect of the new version.
pub open spec fn says_of_effect(
    op: OpView,
    subject: Text,
    e: (EffectKeyView, EffectInfoView),
    sa: Seq<(EffectKeyView, EffectInfoView)>,
) -> bool {
    let line = Some(effect_with_modes(e));
    match lookup(sa, e.0) {
        None => says(op, "EFFECT_ADDED"@, subject, None, line),
        Some(ia) => {
            let was = Some(effect_with_modes((e.0, ia)));
            ||| is_put_off(e, sa) && says(op, "EFFECT_MADE_ASYNC"@, subject, was, line)
            ||| is_drawn_in(e, sa) && says(op, "EFFECT_MADE_SYNC"@, subject, was, line)
        },
    }
}

proof fn lost_effects_are_exact(
    subject: Text,
    forward: Seq<(Text, Text)>,
    sa: Seq<(EffectKeyView, EffectInfoView)>,
    sb: Seq<(EffectKeyView, EffectInfoView)>,
    va: Seq<(Text, LocView)>,
    vb: Seq<(Text, LocView)>,
    i: int,
)
    requires
        0 <= i,
    ensures
        forall|n: int|
            i <= n < sa.len() && is_lost((#[trigger] sa[n]), sb, forward, va, vb) ==> is_told(effect_losses(subject, forward, sa, sb, va, vb, i), "EFFECT_REMOVED"@, subject, Some(effect_with_modes(sa[n])), None),
        forall|j: int|
            #![trigger effect_losses(subject, forward, sa, sb, va, vb, i)[j]]
            0 <= j < effect_losses(subject, forward, sa, sb, va, vb, i).len() ==> exists|n: int|
                i <= n < sa.len() && is_lost((#[trigger] sa[n]), sb, forward, va, vb) && says(effect_losses(subject, forward, sa, sb, va, vb, i)[j], "EFFECT_REMOVED"@, subject, Some(effect_with_modes(sa[n])), None),
    decreases sa.len() - i,
{
    if i < sa.len() {
        lost_effects_are_exact(subject, forward, sa, sb, va, vb, i + 1);
        let rest = effect_losses(subject, forward, sa, sb, va, vb, i + 1);
        let all = effect_losses(subject, forward, sa, sb, va, vb, i);
        let h = all.len() - rest.len();
        assert forall|n: int| i <= n < sa.len() && is_lost((#[trigger] sa[n]), sb, forward, va, vb) implies is_told(all, "EFFECT_REMOVED"@, subject, Some(effect_with_modes(sa[n])), None) by {
            if n == i {
                assert(says(all[0], "EFFECT_REMOVED"@, subject, Some(effect_with_modes(sa[n])), None));
            } else {
                assert(is_told(rest, "EFFECT_REMOVED"@, subject, Some(effect_with_modes(sa[n])), None));
                let j = choose|j: int| 0 <= j < rest.len() && says(#[trigger] rest[j], "EFFECT_REMOVED"@, subject, Some(effect_with_modes(sa[n])), None);
                assert(all[h + j] == rest[j]);
            }
        }
        assert forall|j: int|
            #![trigger all[j]]
            0 <= j < all.len() implies exists|n: int| i <= n < sa.len() && is_lost((#[trigger] sa[n]), sb, forward, va, vb) && says(all[j], "EFFECT_REMOVED"@, subject, Some(effect_with_modes(sa[n])), None) by {
            if j < h {
                assert(is_lost(sa[i], sb, forward, va, vb) && says(all[j], "EFFECT_REMOVED"@, subject, Some(effect_with_modes(sa[i])), None));
            } else {
                assert(all[j] == rest[j - h]);
                let n = choose|n: int| i + 1 <= n < sa.len() && is_lost((#[trigger] sa[n]), sb, forward, va, vb) && says(rest[j - h], "EFFECT_REMOVED"@, subject, Some(effect_with_modes(sa[n])), None);
                assert(is_lost(sa[n], sb, forward, va, vb) && says(all[j], "EFFECT_REMOVED"@, subject, Some(effect_with_modes(sa[n])), None));
            }
        }
    }
}

proof fn new_effects_are_exact(subject: Text, sa: Seq<(EffectKeyView, EffectInfoView)>, sb: Seq<(EffectKeyView, EffectInfoView)>, i: int)
    requires
        0 <= i,
    ensures
        forall|n: int|
            i <= n < sb.len() && is_missing(#[trigger] sb[n], sa) ==> is_told(
                effect_gains(subject, sa, sb, i),
                "EFFECT_ADDED"@,
                subject,
                None,
                Some(effect_with_modes(sb[n])),
            ),
        forall|n: int|
            i <= n < sb.len() && is_put_off(#[trigger] sb[n], sa) ==> is_told(
                effect_gains(subject, sa, sb, i),
                "EFFECT_MADE_ASYNC"@,
                subject,
                Some(effect_with_modes((sb[n].0, lookup(sa, sb[n].0)->0))),
                Some(effect_with_modes(sb[n])),
            ),
        forall|n: int|
            i <= n < sb.len() && is_drawn_in(#[trigger] sb[n], sa) ==> is_told(
                effect_gains(subject, sa, sb, i),
                "EFFECT_MADE_SYNC"@,
                subject,
                Some(effect_with_modes((sb[n].0, lookup(sa, sb[n].0)->0))),
                Some(effect_with_modes(sb[n])),
            ),
        forall|j: int|
            #![trigger effect_gains(subject, sa, sb, i)[j]]
            0 <= j < effect_gains(subject, sa, sb, i).len() ==> exists|n: int|
                i <= n < sb.len() && says_of_effect(
                    effect_gains(subject, sa, sb, i)[j],
                    subject,
                    #[trigger] sb[n],
                    sa,
                ),
    decreases sb.len() - i,
{
    if i < sb.len() {
        new_effects_are_exact(subject, sa, sb, i + 1);
        let rest = effect_gains(subject, sa, sb, i + 1);
        let all = effect_gains(subject, sa, sb, i);
        let h = all.len() - rest.len();
        let head = all.take(h as int);
        assert(all =~= head + rest);
        if h > 0 {
            assert(head[0] == all[0]);
        }
        assert forall|n: int| i <= n < sb.len() && is_missing(#[trigger] sb[n], sa) implies is_told(
            all,
            "EFFECT_ADDED"@,
            subject,
            None,
            Some(effect_with_modes(sb[n])),
        ) by {
            told_in_parts(head, rest, "EFFECT_ADDED"@, subject, None, Some(effect_with_modes(sb[n])));
            if n == i {
                assert(says(
                    head[0],
                    "EFFECT_ADDED"@,
                    subject,
                    None,
                    Some(effect_with_modes(sb[n])),
                ));
            }
        }
        assert forall|n: int| i <= n < sb.len() && is_put_off(#[trigger] sb[n], sa) implies is_told(
            all,
            "EFFECT_MADE_ASYNC"@,
            subject,
            Some(effect_with_modes((sb[n].0, lookup(sa, sb[n].0)->0))),
            Some(effect_with_modes(sb[n])),
        ) by {
            let was = Some(effect_with_modes((sb[n].0, lookup(sa, sb[n].0)->0)));
            let line = Some(effect_with_modes(sb[n]));
            told_in_parts(head, rest, "EFFECT_MADE_ASYNC"@, subject, was, line);
            if n == i {
                assert(says(head[0], "EFFECT_MADE_ASYNC"@, subject, was, line));
            }
        }
        assert forall|n: int| i <= n < sb.len() && is_drawn_in(#[trigger] sb[n], sa) implies is_told(
            all,
            "EFFECT_MADE_SYNC"@,
            subject,
            Some(effect_with_modes((sb[n].0, lookup(sa, sb[n].0)->0))),
            Some(effect_with_modes(sb[n])),
        ) by {
            let was = Some(effect_with_modes((sb[n].0, lookup(sa, sb[n].0)->0)));
            let line = Some(effect_with_modes(sb[n]));
            told_in_parts(head, rest, "EFFECT_MADE_SYNC"@, subject, was, line);
            if n == i {
                assert(says(head[0], "EFFECT_MADE_SYNC"@, subject, was, line));
            }
        }
        assert forall|j: int|
            #![trigger all[j]]
            0 <= j < all.len() implies exists|n: int|
            i <= n < sb.len() && says_of_effect(all[j], subject, #[trigger] sb[n], sa) by {
            if j < h {
                assert(says_of_effect(all[j], subject, sb[i], sa));
            } else {
                assert(all[j] == rest[j - h]);
                let n = choose|n: int|
                    i + 1 <= n < sb.len() && says_of_effect(
                        rest[j - h],
                        subject,
                        #[trigger] sb[n],
                        sa,
                    );
                assert(says_of_effect(all[j], subject, sb[n], sa));
            }
        }
    }
}

// ---- checks

/// The check that an entry is about is not among the others.
pub open spec fn is_unknown(c: (Text, LocView), other: Seq<(Text, LocView)>) -> bool {
    lookup(other, c.0) is None
}

proof fn lost_checks_are_exact(
    subject: Text,
    va: Seq<(Text, LocView)>,
    vb: Seq<(Text, LocView)>,
    i: int,
)
    requires
        0 <= i,
    ensures
        forall|n: int|
            i <= n < va.len() && is_unknown((#[trigger] va[n]), vb) ==> is_told(check_losses(subject, va, vb, i), "VALIDATION_REMOVED"@, subject, Some(va[n].0), None),
        forall|j: int|
            #![trigger check_losses(subject, va, vb, i)[j]]
            0 <= j < check_losses(subject, va, vb, i).len() ==> exists|n: int|
                i <= n < va.len() && is_unknown((#[trigger] va[n]), vb) && says(check_losses(subject, va, vb, i)[j], "VALIDATION_REMOVED"@, subject, Some(va[n].0), None),
    decreases va.len() - i,
{
    if i < va.len() {
        lost_checks_are_exact(subject, va, vb, i + 1);
        let rest = check_losses(subject, va, vb, i + 1);
        let all = check_losses(subject, va, vb, i);
        let h = all.len() - rest.len();
        assert forall|n: int| i <= n < va.len() && is_unknown((#[trigger] va[n]), vb) implies is_told(all, "VALIDATION_REMOVED"@, subject, Some(va[n].0), None) by {
            if n == i {
                assert(says(all[0], "VALIDATION_REMOVED"@, subject, Some(va[n].0), None));
            } else {
                assert(is_told(rest, "VALIDATION_REMOVED"@, subject, Some(va[n].0), None));
                let j = choose|j: int| 0 <= j < rest.len() && says(#[trigger] rest[j], "VALIDATION_REMOVED"@, subject, Some(va[n].0), None);
                assert(all[h + j] == rest[j]);
            }
        }
        assert forall|j: int|
            #![trigger all[j]]
            0 <= j < all.len() implies exists|n: int| i <= n < va.len() && is_unknown((#[trigger] va[n]), vb) && says(all[j], "VALIDATION_REMOVED"@, subject, Some(va[n].0), None) by {
            if j < h {
                assert(is_unknown(va[i], vb) && says(all[j], "VALIDATION_REMOVED"@, subject, Some(va[i].0), None));
            } else {
                assert(all[j] == rest[j - h]);
                let n = choose|n: int| i + 1 <= n < va.len() && is_unknown((#[trigger] va[n]), vb) && says(rest[j - h], "VALIDATION_REMOVED"@, subject, Some(va[n].0), None);
                assert(is_unknown(va[n], vb) && says(all[j], "VALIDATION_REMOVED"@, subject, Some(va[n].0), None));
            }
        }
    }
}

proof fn new_checks_are_exact(
    subject: Text,
    va: Seq<(Text, LocView)>,
    vb: Seq<(Text, LocView)>,
    i: int,
)
    requires
        0 <= i,
    ensures
        forall|n: int|
            i <= n < vb.len() && is_unknown((#[trigger] vb[n]), va) ==> is_told(check_gains(subject, va, vb, i), "VALIDATION_ADDED"@, subject, None, Some(vb[n].0)),
        forall|j: int|
            #![trigger check_gains(subject, va, vb, i)[j]]
            0 <= j < check_gains(subject, va, vb, i).len() ==> exists|n: int|
                i <= n < vb.len() && is_unknown((#[trigger] vb[n]), va) && says(check_gains(subject, va, vb, i)[j], "VALIDATION_ADDED"@, subject, None, Some(vb[n].0)),
    decreases vb.len() - i,
{
    if i < vb.len() {
        new_checks_are_exact(subject, va, vb, i + 1);
        let rest = check_gains(subject, va, vb, i + 1);
        let all = check_gains(subject, va, vb, i);
        let h = all.len() - rest.len();
        assert forall|n: int| i <= n < vb.len() && is_unknown((#[trigger] vb[n]), va) implies is_told(all, "VALIDATION_ADDED"@, subject, None, Some(vb[n].0)) by {
            if n == i {
                assert(says(all[0], "VALIDATION_ADDED"@, subject, None, Some(vb[n].0)));
            } else {
                assert(is_told(rest, "VALIDATION_ADDED"@, subject, None, Some(vb[n].0)));
                let j = choose|j: int| 0 <= j < rest.len() && says(#[trigger] rest[j], "VALIDATION_ADDED"@, subject, None, Some(vb[n].0));
                assert(all[h + j] == rest[j]);
            }
        }
        assert forall|j: int|
            #![trigger all[j]]
            0 <= j < all.len() implies exists|n: int| i <= n < vb.len() && is_unknown((#[trigger] vb[n]), va) && says(all[j], "VALIDATION_ADDED"@, subject, None, Some(vb[n].0)) by {
            if j < h {
                assert(is_unknown(vb[i], va) && says(all[j], "VALIDATION_ADDED"@, subject, None, Some(vb[i].0)));
            } else {
                assert(all[j] == rest[j - h]);
                let n = choose|n: int| i + 1 <= n < vb.len() && is_unknown((#[trigger] vb[n]), va) && says(rest[j - h], "VALIDATION_ADDED"@, subject, None, Some(vb[n].0));
                assert(is_unknown(vb[n], va) && says(all[j], "VALIDATION_ADDED"@, subject, None, Some(vb[n].0)));
            }
        }
    }
}

/// A check that is among these, by the name that it has after the change.
pub open spec fn had_check(checks: Seq<(Text, LocView)>, forward: Seq<(Text, Text)>, n: Text) -> bool {
    exists|c: int| 0 <= c < checks.len() && name_now(forward, (#[trigger] checks[c]).0) == n
}

proof fn renamed_are_those(checks: Seq<(Text, LocView)>, forward: Seq<(Text, Text)>, i: int, acc: Seq<(Text, LocView)>)
    requires
        ascending(acc),
        0 <= i <= checks.len(),
    ensures
        ascending(renamed_checks(checks, forward, i, acc)),
        forall|n: Text|
            (#[trigger] lookup(renamed_checks(checks, forward, i, acc), n) is Some) == (lookup(acc, n)
                is Some || exists|c: int|
                i <= c < checks.len() && name_now(forward, (#[trigger] checks[c]).0) == n),
    decreases checks.len() - i,
{
    if i < checks.len() {
        let k = name_now(forward, checks[i].0);
        let next = put(acc, k, checks[i].1);
        put_keeps_order(acc, k, checks[i].1);
        renamed_are_those(checks, forward, i + 1, next);
        assert forall|n: Text|
            (#[trigger] lookup(renamed_checks(checks, forward, i, acc), n) is Some) == (lookup(acc, n)
                is Some || exists|c: int|
                i <= c < checks.len() && name_now(forward, (#[trigger] checks[c]).0) == n) by {
            lookup_after_put(acc, k, checks[i].1);
            if n != k {
                lookup_of_other(acc, k, checks[i].1, n);
            }
            if lookup(renamed_checks(checks, forward, i + 1, next), n) is Some && lookup(next, n)
                is None {
                let c = choose|c: int|
                    i + 1 <= c < checks.len() && name_now(forward, (#[trigger] checks[c]).0) == n;
                assert(name_now(forward, checks[c].0) == n);
            }
            if exists|c: int|
                i <= c < checks.len() && name_now(forward, (#[trigger] checks[c]).0) == n {
                let c = choose|c: int|
                    i <= c < checks.len() && name_now(forward, (#[trigger] checks[c]).0) == n;
                if c > i {
                    assert(i + 1 <= c);
                }
            }
        }
    }
}

// ---- where the operations of a pair stand

/// The operations of a changed entity are among those of the transition.
#[verifier::spinoff_prover]
#[verifier::rlimit(60)]
proof fn told_of_pair(
    a: ModelView,
    b: ModelView,
    k: int,
    kind: Text,
    before: Option<Text>,
    after: Option<Text>,
)
    requires
        0 <= k < matched(a, b).forward.len(),
        changed_pair(a, b, matched(a, b).forward[k]) is Some,
        ({
            let (ea, eb, sa, sb) = changed_pair(a, b, matched(a, b).forward[k])->0;
            is_told(
                entity_ops(a, b, matched(a, b).forward, matched(a, b).forward[k], ea, eb, sa, sb),
                kind,
                matched(a, b).forward[k].1,
                before,
                after,
            )
        }),
    ensures
        is_told(ops_between(a, b), kind, matched(a, b).forward[k].1, before, after),
{
    let m = matched(a, b);
    let pair = m.forward[k];
    let s = pair.1;
    let (ea, eb, sa, sb) = changed_pair(a, b, pair)->0;
    let ops = entity_ops(a, b, m.forward, pair, ea, eb, sa, sb);
    let j = choose|j: int| 0 <= j < ops.len() && says(#[trigger] ops[j], kind, s, before, after);
    let here = pair_ops(a, b, m.forward, pair);
    assert(says(here[j], kind, s, before, after));
    assert(is_told(here, kind, s, before, after));
    told_of_pairs(a, b, m.forward, 0, k, kind, s, before, after);
    told_from_pairs(a, b, kind, s, before, after);
}

#[verifier::spinoff_prover]
#[verifier::rlimit(60)]
proof fn told_from_pairs(
    a: ModelView,
    b: ModelView,
    kind: Text,
    s: Text,
    before: Option<Text>,
    after: Option<Text>,
)
    requires
        is_told(pairs_ops(a, b, matched(a, b).forward, 0), kind, s, before, after),
    ensures
        is_told(ops_between(a, b), kind, s, before, after),
{
    let m = matched(a, b);
    let x = pairs_ops(a, b, m.forward, 0);
    let direct = direct_ops(a, b, m);
    let n = choose|n: int| 0 <= n < x.len() && says(#[trigger] x[n], kind, s, before, after);
    let d = direct.len() - x.len() + n;
    assert(direct[d] == x[n]);
    let typed = typed_ops(a, b, m);
    assert(typed[d] == direct[d]);
    let all = all_ops(a, b, m);
    assert(all[d] == typed[d]);
    assert(ops_between(a, b)[d] == all[d]);
}

proof fn told_of_pairs(
    a: ModelView,
    b: ModelView,
    forward: Seq<(Text, Text)>,
    i: int,
    k: int,
    kind: Text,
    subject: Text,
    before: Option<Text>,
    after: Option<Text>,
)
    requires
        0 <= i <= k < forward.len(),
        is_told(pair_ops(a, b, forward, forward[k]), kind, subject, before, after),
    ensures
        is_told(pairs_ops(a, b, forward, i), kind, subject, before, after),
    decreases k - i,
{
    told_in_parts(
        pair_ops(a, b, forward, forward[i]),
        pairs_ops(a, b, forward, i + 1),
        kind,
        subject,
        before,
        after,
    );
    if i < k {
        told_of_pairs(a, b, forward, i + 1, k, kind, subject, before, after);
    }
}

/// The parts of what is told of an entity.
proof fn told_of_entity(
    a: ModelView,
    b: ModelView,
    forward: Seq<(Text, Text)>,
    pair: (Text, Text),
    ea: EntityView,
    eb: EntityView,
    sa: SummaryView,
    sb: SummaryView,
    kind: Text,
    before: Option<Text>,
    after: Option<Text>,
)
    ensures
        ({
            let s = pair.1;
            let va = renamed_checks(sa.validations, forward, 0, seq![]);
            let vb = sb.validations;
            let (fa, fb) = pair_filters(a, b, ea, pair);
            let ga = relevant_guards(a, b, ea, eb, forward, sa.requirements, 0);
            let gb = relevant_guards(a, b, ea, eb, seq![], sb.requirements, 0);
            let ops = entity_ops(a, b, forward, pair, ea, eb, sa, sb);
            is_told(ops, kind, s, before, after) == (is_told(
                rule_change(s, ea, eb),
                kind,
                s,
                before,
                after,
            ) || is_told(guard_changes(s, ga, gb), kind, s, before, after) || is_told(
                check_losses(s, va, vb, 0),
                kind,
                s,
                before,
                after,
            ) || is_told(check_gains(s, va, vb, 0), kind, s, before, after) || is_told(
                effect_gains(s, sa.effects, sb.effects, 0),
                kind,
                s,
                before,
                after,
            ) || is_told(
                effect_losses(s, forward, sa.effects, sb.effects, va, vb, 0),
                kind,
                s,
                before,
                after,
            ) || is_told(data_changes(s, sa, sb, ea.loc, eb.loc), kind, s, before, after) || is_told(
                filters_changed(s, fa, fb),
                kind,
                s,
                before,
                after,
            ) || is_told(access_changed(s, sa.access, sb.access), kind, s, before, after))
        }),
{
    let s = pair.1;
    let va = renamed_checks(sa.validations, forward, 0, seq![]);
    let vb = sb.validations;
    let (fa, fb) = pair_filters(a, b, ea, pair);
    let ga = relevant_guards(a, b, ea, eb, forward, sa.requirements, 0);
    let gb = relevant_guards(a, b, ea, eb, seq![], sb.requirements, 0);
    let t0 = rule_change(s, ea, eb);
    let t1 = guard_changes(s, ga, gb);
    let t2 = check_losses(s, va, vb, 0);
    let t3 = check_gains(s, va, vb, 0);
    let t4 = effect_gains(s, sa.effects, sb.effects, 0);
    let t5 = effect_losses(s, forward, sa.effects, sb.effects, va, vb, 0);
    let t6 = data_changes(s, sa, sb, ea.loc, eb.loc);
    let t7 = filters_changed(s, fa, fb);
    let t8 = access_changed(s, sa.access, sb.access);
    told_in_parts(t0, t1, kind, s, before, after);
    told_in_parts(t0 + t1, t2, kind, s, before, after);
    told_in_parts(t0 + t1 + t2, t3, kind, s, before, after);
    told_in_parts(t0 + t1 + t2 + t3, t4, kind, s, before, after);
    told_in_parts(t0 + t1 + t2 + t3 + t4, t5, kind, s, before, after);
    told_in_parts(t0 + t1 + t2 + t3 + t4 + t5, t6, kind, s, before, after);
    told_in_parts(t0 + t1 + t2 + t3 + t4 + t5 + t6, t7, kind, s, before, after);
    told_in_parts(t0 + t1 + t2 + t3 + t4 + t5 + t6 + t7, t8, kind, s, before, after);
}

// ---- versions

/// The two versions of an entity that changed, with their summaries.
pub struct Versions {
    pub ea: EntityView,
    pub eb: EntityView,
    pub sa: SummaryView,
    pub sb: SummaryView,
}

/// A pair of entities that are one before and after the change.
pub open spec fn is_pair(a: ModelView, b: ModelView, k: int, v: Versions) -> bool {
    let pair = matched(a, b).forward[k];
    &&& 0 <= k < matched(a, b).forward.len()
    &&& lookup(a.entities, pair.0) == Some(v.ea)
    &&& lookup(b.entities, pair.1) == Some(v.eb)
    &&& lookup(a.summaries, pair.0) == Some(v.sa)
    &&& lookup(b.summaries, pair.1) == Some(v.sb)
}

/// A pair of entities that are one before and after the change, and whose bodies differ.
pub open spec fn is_changed(a: ModelView, b: ModelView, k: int, v: Versions) -> bool {
    is_pair(a, b, k, v) && v.ea.body_hash != v.eb.body_hash
}

/// A check of the old version that the new version does not have.
pub open spec fn lost_check(v: Versions, forward: Seq<(Text, Text)>, n: Text) -> bool {
    had_check(v.sa.validations, forward, n) && lookup(v.sb.validations, n) is None
}

/// Every way to an effect of the old version led through a check that is lost.
pub open spec fn went_with_checks(v: Versions, forward: Seq<(Text, Text)>, via: Seq<Text>) -> bool {
    &&& exists|n: Text| #[trigger] lost_check(v, forward, n)
    &&& forall|i: int|
        0 <= i < via.len() ==> lost_check(v, forward, name_now(forward, #[trigger] via[i]))
}

/// An effect that a changed function lost is told as removed, unless every way to it led through
/// a check that is lost too.
pub proof fn lost_effects_are_told(
    a: ModelView,
    b: ModelView,
    k: int,
    v: Versions,
    key: EffectKeyView,
    info: EffectInfoView,
)
    requires
        is_changed(a, b, k, v),
        lookup(v.sa.effects, key) == Some(info),
        lookup(v.sb.effects, key) is None,
        !went_with_checks(v, matched(a, b).forward, info.via),
    ensures
        is_told(
            ops_between(a, b),
            "EFFECT_REMOVED"@,
            matched(a, b).forward[k].1,
            Some(effect_with_modes((key, info))),
            None,
        ),
{
    let fw = matched(a, b).forward;
    let s = fw[k].1;
    let none = Seq::<(Text, LocView)>::empty();
    assert(none =~= seq![]);
    let va = renamed_checks(v.sa.validations, fw, 0, seq![]);
    renamed_are_those(v.sa.validations, fw, 0, none);
    slot_bounds(v.sa.effects, key);
    let n = crate::ordered::slot(v.sa.effects, key);
    assert(v.sa.effects[n] == (key, info));
    lost_effects_are_exact(s, fw, v.sa.effects, v.sb.effects, va, v.sb.validations, 0);
    assert(is_lost(v.sa.effects[n], v.sb.effects, fw, va, v.sb.validations)) by {
        if is_excused((key, info), fw, va, v.sb.validations) {
            let c = choose|c: int|
                0 <= c < va.len() && lookup(v.sb.validations, (#[trigger] va[c]).0) is None;
            crate::ordered::slot_of_stored(va, c);
            assert(lookup(va, va[c].0) is Some);
            assert(lost_check(v, fw, va[c].0));
            assert forall|i: int| 0 <= i < info.via.len() implies lost_check(
                v,
                fw,
                name_now(fw, #[trigger] info.via[i]),
            ) by {
                assert(is_gone(va, v.sb.validations, name_now(fw, info.via[i])));
            }
        }
    }
    let before = Some(effect_with_modes((key, info)));
    told_of_entity(a, b, fw, fw[k], v.ea, v.eb, v.sa, v.sb, "EFFECT_REMOVED"@, before, None);
    told_of_pair(a, b, k, "EFFECT_REMOVED"@, before, None);
}

/// An effect that only the new version of a changed function has is told as added.
pub proof fn new_effects_are_told(
    a: ModelView,
    b: ModelView,
    k: int,
    v: Versions,
    key: EffectKeyView,
    info: EffectInfoView,
)
    requires
        is_changed(a, b, k, v),
        lookup(v.sb.effects, key) == Some(info),
        lookup(v.sa.effects, key) is None,
    ensures
        is_told(
            ops_between(a, b),
            "EFFECT_ADDED"@,
            matched(a, b).forward[k].1,
            None,
            Some(effect_with_modes((key, info))),
        ),
{
    let fw = matched(a, b).forward;
    slot_bounds(v.sb.effects, key);
    let n = crate::ordered::slot(v.sb.effects, key);
    assert(v.sb.effects[n] == (key, info));
    new_effects_are_exact(fw[k].1, v.sa.effects, v.sb.effects, 0);
    assert(is_missing(v.sb.effects[n], v.sa.effects));
    let after = Some(effect_with_modes((key, info)));
    told_of_entity(a, b, fw, fw[k], v.ea, v.eb, v.sa, v.sb, "EFFECT_ADDED"@, None, after);
    told_of_pair(a, b, k, "EFFECT_ADDED"@, None, after);
}

/// An effect that both versions of a changed function have is told as moved where it was awaited
/// and is now left to others, or the other way round.
pub proof fn moved_effects_are_told(
    a: ModelView,
    b: ModelView,
    k: int,
    v: Versions,
    key: EffectKeyView,
    was: EffectInfoView,
    is: EffectInfoView,
)
    requires
        is_changed(a, b, k, v),
        lookup(v.sa.effects, key) == Some(was),
        lookup(v.sb.effects, key) == Some(is),
    ensures
        is_awaited(was) && is_deferred(is) ==> is_told(
            ops_between(a, b),
            "EFFECT_MADE_ASYNC"@,
            matched(a, b).forward[k].1,
            Some(effect_with_modes((key, was))),
            Some(effect_with_modes((key, is))),
        ),
        is_deferred(was) && is_awaited(is) && !(is_awaited(was) && is_deferred(is)) ==> is_told(
            ops_between(a, b),
            "EFFECT_MADE_SYNC"@,
            matched(a, b).forward[k].1,
            Some(effect_with_modes((key, was))),
            Some(effect_with_modes((key, is))),
        ),
{
    let fw = matched(a, b).forward;
    slot_bounds(v.sb.effects, key);
    let n = crate::ordered::slot(v.sb.effects, key);
    assert(v.sb.effects[n] == (key, is));
    new_effects_are_exact(fw[k].1, v.sa.effects, v.sb.effects, 0);
    let before = Some(effect_with_modes((key, was)));
    let after = Some(effect_with_modes((key, is)));
    if is_awaited(was) && is_deferred(is) {
        assert(is_put_off(v.sb.effects[n], v.sa.effects));
        told_of_entity(a, b, fw, fw[k], v.ea, v.eb, v.sa, v.sb, "EFFECT_MADE_ASYNC"@, before, after);
        told_of_pair(a, b, k, "EFFECT_MADE_ASYNC"@, before, after);
    } else if is_deferred(was) && is_awaited(is) {
        assert(is_drawn_in(v.sb.effects[n], v.sa.effects));
        told_of_entity(a, b, fw, fw[k], v.ea, v.eb, v.sa, v.sb, "EFFECT_MADE_SYNC"@, before, after);
        told_of_pair(a, b, k, "EFFECT_MADE_SYNC"@, before, after);
    }
}

/// An operation tells the loss of an effect that was there and is not.
pub open spec fn is_true_loss(op: OpView, subject: Text, sa: SummaryView, sb: SummaryView) -> bool {
    exists|n: int|
        0 <= n < sa.effects.len() && lookup(sb.effects, (#[trigger] sa.effects[n]).0) is None && says(
            op,
            "EFFECT_REMOVED"@,
            subject,
            Some(effect_with_modes(sa.effects[n])),
            None,
        )
}

/// An operation tells of an effect that is there: as added where it was not, as moved where it was
/// awaited before or is awaited now, and not both.
pub open spec fn is_true_gain(op: OpView, subject: Text, sa: SummaryView, sb: SummaryView) -> bool {
    exists|n: int|
        0 <= n < sb.effects.len() && says_of_effect(op, subject, #[trigger] sb.effects[n], sa.effects)
}

/// What is said of the effects of a changed function is so: what is called removed was there and
/// is not, what is called added is there and was not, and what is called moved is there before
/// and after, awaited on one side only.
pub proof fn effects_told_are_so(
    subject: Text,
    forward: Seq<(Text, Text)>,
    sa: SummaryView,
    sb: SummaryView,
    va: Seq<(Text, LocView)>,
)
    ensures
        forall|j: int|
            0 <= j < effect_losses(subject, forward, sa.effects, sb.effects, va, sb.validations, 0).len()
                ==> is_true_loss(
                #[trigger] effect_losses(
                    subject,
                    forward,
                    sa.effects,
                    sb.effects,
                    va,
                    sb.validations,
                    0,
                )[j],
                subject,
                sa,
                sb,
            ),
        forall|j: int|
            0 <= j < effect_gains(subject, sa.effects, sb.effects, 0).len() ==> is_true_gain(
                #[trigger] effect_gains(subject, sa.effects, sb.effects, 0)[j],
                subject,
                sa,
                sb,
            ),
{
    losses_told_are_so(subject, forward, sa, sb, va);
    new_effects_are_exact(subject, sa.effects, sb.effects, 0);
}

proof fn losses_told_are_so(
    subject: Text,
    forward: Seq<(Text, Text)>,
    sa: SummaryView,
    sb: SummaryView,
    va: Seq<(Text, LocView)>,
)
    ensures
        forall|j: int|
            0 <= j < effect_losses(subject, forward, sa.effects, sb.effects, va, sb.validations, 0).len()
                ==> is_true_loss(
                #[trigger] effect_losses(
                    subject,
                    forward,
                    sa.effects,
                    sb.effects,
                    va,
                    sb.validations,
                    0,
                )[j],
                subject,
                sa,
                sb,
            ),
{
    lost_effects_are_exact(subject, forward, sa.effects, sb.effects, va, sb.validations, 0);
    let all = effect_losses(subject, forward, sa.effects, sb.effects, va, sb.validations, 0);
    assert forall|j: int| 0 <= j < all.len() implies is_true_loss(
        #[trigger] all[j],
        subject,
        sa,
        sb,
    ) by {
        let n = choose|n: int|
            0 <= n < sa.effects.len() && is_lost(
                #[trigger] sa.effects[n],
                sb.effects,
                forward,
                va,
                sb.validations,
            ) && says(
                all[j],
                "EFFECT_REMOVED"@,
                subject,
                Some(effect_with_modes(sa.effects[n])),
                None,
            );
        assert(lookup(sb.effects, sa.effects[n].0) is None);
    }
}

/// A check that a changed function lost is told as removed, and one that it gained as added.
pub proof fn changed_checks_are_told(a: ModelView, b: ModelView, k: int, v: Versions, n: Text)
    requires
        is_changed(a, b, k, v),
    ensures
        lost_check(v, matched(a, b).forward, n) ==> is_told(
            ops_between(a, b),
            "VALIDATION_REMOVED"@,
            matched(a, b).forward[k].1,
            Some(n),
            None,
        ),
        !had_check(v.sa.validations, matched(a, b).forward, n) && lookup(v.sb.validations, n) is Some
            ==> is_told(
            ops_between(a, b),
            "VALIDATION_ADDED"@,
            matched(a, b).forward[k].1,
            None,
            Some(n),
        ),
{
    let fw = matched(a, b).forward;
    let s = fw[k].1;
    let none = Seq::<(Text, LocView)>::empty();
    assert(none =~= seq![]);
    let va = renamed_checks(v.sa.validations, fw, 0, seq![]);
    let vb = v.sb.validations;
    renamed_are_those(v.sa.validations, fw, 0, none);
    slot_bounds(va, n);
    slot_bounds(vb, n);
    lost_checks_are_exact(s, va, vb, 0);
    new_checks_are_exact(s, va, vb, 0);
    assert(lookup(va, n) is Some == had_check(v.sa.validations, fw, n));
    if lost_check(v, fw, n) {
        let c = crate::ordered::slot(va, n);
        assert(va[c].0 == n);
        assert(is_unknown(va[c], vb));
        told_of_entity(a, b, fw, fw[k], v.ea, v.eb, v.sa, v.sb, "VALIDATION_REMOVED"@, Some(n), None);
        told_of_pair(a, b, k, "VALIDATION_REMOVED"@, Some(n), None);
    }
    if !had_check(v.sa.validations, fw, n) && lookup(vb, n) is Some {
        let c = crate::ordered::slot(vb, n);
        assert(vb[c].0 == n);
        assert(is_unknown(vb[c], va));
        told_of_entity(a, b, fw, fw[k], v.ea, v.eb, v.sa, v.sb, "VALIDATION_ADDED"@, None, Some(n));
        told_of_pair(a, b, k, "VALIDATION_ADDED"@, None, Some(n));
    }
}

// ---- data

/// Some operation of a kind on `subject` speaks only of what is gone, with `part` in its text.
pub open spec fn is_loss_with(ops: Seq<OpView>, kind: Text, subject: Text, part: Text) -> bool {
    exists|t: Text| text::has_text(t, part) && #[trigger] is_told(ops, kind, subject, Some(t), None)
}

/// Some operation of a kind on `subject` speaks only of what is new, with `part` in its text.
pub open spec fn is_gain_with(ops: Seq<OpView>, kind: Text, subject: Text, part: Text) -> bool {
    exists|t: Text| text::has_text(t, part) && #[trigger] is_told(ops, kind, subject, None, Some(t))
}

/// A field that only the new version of a changed function writes, or reads, is told as an
/// expansion; one that only the old version writes is told as a restriction. Where the fields are
/// the same, nothing is said.
pub proof fn changed_fields_are_told(a: ModelView, b: ModelView, k: int, v: Versions, field: Text)
    requires
        is_changed(a, b, k, v),
    ensures
        v.sb.writes.contains(field) && !v.sa.writes.contains(field) ==> is_gain_with(
            ops_between(a, b),
            "DATAFLOW_EXPANDED"@,
            matched(a, b).forward[k].1,
            field,
        ),
        v.sb.reads.contains(field) && !v.sa.reads.contains(field) && !v.sb.writes.contains(field)
            ==> is_gain_with(
            ops_between(a, b),
            "DATAFLOW_EXPANDED"@,
            matched(a, b).forward[k].1,
            field,
        ),
        v.sa.writes.contains(field) && !v.sb.writes.contains(field) ==> is_loss_with(
            ops_between(a, b),
            "DATAFLOW_RESTRICTED"@,
            matched(a, b).forward[k].1,
            field,
        ),
{
    let fw = matched(a, b).forward;
    let s = fw[k].1;
    let writes = minus(v.sb.writes, v.sa.writes);
    let fresh = minus(v.sb.reads, v.sa.reads);
    let reads = minus(fresh, v.sb.writes);
    let lost = minus(v.sa.writes, v.sb.writes);
    minus_members(v.sb.writes, v.sa.writes);
    minus_members(v.sb.reads, v.sa.reads);
    minus_members(fresh, v.sb.writes);
    minus_members(v.sa.writes, v.sb.writes);
    let ops = data_changes(s, v.sa, v.sb, v.ea.loc, v.eb.loc);
    if writes.contains(field) || reads.contains(field) {
        let t = crate::behaviour::expansion(writes, reads);
        assert(says(ops[0], "DATAFLOW_EXPANDED"@, s, None, Some(t)));
        if writes.contains(field) {
            let n = choose|n: int| 0 <= n < writes.len() && writes[n] == field;
            let list = text::joined(writes, ", "@);
            hook::part_of_joined(writes, ", "@, 0, n);
            let tail = t.skip((("writes "@).len() + list.len()) as int);
            assert(t =~= "writes "@ + list + tail);
            hook::part_of_text("writes "@, list, tail, field);
        } else {
            let n = choose|n: int| 0 <= n < reads.len() && reads[n] == field;
            let list = text::joined(reads, ", "@);
            hook::part_of_joined(reads, ", "@, 0, n);
            let head = t.take(t.len() - list.len());
            assert(t =~= head + list + seq![]);
            hook::part_of_text(head, list, seq![], field);
        }
        told_of_entity(a, b, fw, fw[k], v.ea, v.eb, v.sa, v.sb, "DATAFLOW_EXPANDED"@, None, Some(t));
        told_of_pair(a, b, k, "DATAFLOW_EXPANDED"@, None, Some(t));
    }
    if lost.contains(field) {
        let list = text::joined(lost, ", "@);
        let t = "writes "@ + list;
        let at = ops.len() - 1;
        assert(says(ops[at], "DATAFLOW_RESTRICTED"@, s, Some(t), None));
        let n = choose|n: int| 0 <= n < lost.len() && lost[n] == field;
        hook::part_of_joined(lost, ", "@, 0, n);
        assert(t =~= "writes "@ + list + seq![]);
        hook::part_of_text("writes "@, list, seq![], field);
        told_of_entity(
            a,
            b,
            fw,
            fw[k],
            v.ea,
            v.eb,
            v.sa,
            v.sb,
            "DATAFLOW_RESTRICTED"@,
            Some(t),
            None,
        );
        told_of_pair(a, b, k, "DATAFLOW_RESTRICTED"@, Some(t), None);
    }
}

/// A field that the new version writes, or reads without writing it, and the old one did not.
pub open spec fn is_new_field(sa: SummaryView, sb: SummaryView, f: Text) -> bool {
    (sb.writes.contains(f) && !sa.writes.contains(f)) || (sb.reads.contains(f) && !sa.reads.contains(
        f,
    ) && !sb.writes.contains(f))
}

/// A field that the old version writes and the new one does not.
pub open spec fn is_old_field(sa: SummaryView, sb: SummaryView, f: Text) -> bool {
    sa.writes.contains(f) && !sb.writes.contains(f)
}

/// What is said of the fields of a changed function is so: there is an expansion exactly where a
/// field is new, a restriction exactly where one is lost, and each is said once.
pub proof fn fields_told_are_so(
    subject: Text,
    sa: SummaryView,
    sb: SummaryView,
    la: LocView,
    lb: LocView,
)
    ensures
        data_changes(subject, sa, sb, la, lb).len() == (if exists|f: Text|
            #[trigger] is_new_field(sa, sb, f) {
            1nat
        } else {
            0nat
        }) + (if exists|f: Text| #[trigger] is_old_field(sa, sb, f) {
            1nat
        } else {
            0nat
        }),
{
    let writes = minus(sb.writes, sa.writes);
    let fresh = minus(sb.reads, sa.reads);
    let reads = minus(fresh, sb.writes);
    let lost = minus(sa.writes, sb.writes);
    minus_members(sb.writes, sa.writes);
    minus_members(sb.reads, sa.reads);
    minus_members(fresh, sb.writes);
    minus_members(sa.writes, sb.writes);
    if writes.len() > 0 {
        assert(writes.contains(writes[0]));
        assert(is_new_field(sa, sb, writes[0]));
    }
    if reads.len() > 0 {
        assert(reads.contains(reads[0]));
        assert(fresh.contains(reads[0]));
        assert(is_new_field(sa, sb, reads[0]));
    }
    if exists|f: Text| #[trigger] is_new_field(sa, sb, f) {
        let f = choose|f: Text| #[trigger] is_new_field(sa, sb, f);
        assert(writes.contains(f) || fresh.contains(f));
        assert(writes.contains(f) || reads.contains(f));
    }
    if lost.len() > 0 {
        assert(lost.contains(lost[0]));
        assert(is_old_field(sa, sb, lost[0]));
    }
    if exists|f: Text| #[trigger] is_old_field(sa, sb, f) {
        let f = choose|f: Text| #[trigger] is_old_field(sa, sb, f);
        assert(lost.contains(f));
    }
}

// ---- access

/// Every value of one set is in another.
pub open spec fn all_among(xs: Seq<Text>, ys: Seq<Text>) -> bool {
    forall|x: Text| #[trigger] xs.contains(x) ==> ys.contains(x)
}

/// Two predicates that admit sets of values of one field, the second every value of the first.
pub open spec fn admits_all(pa: PredView, pb: PredView) -> bool {
    match (pa, pb) {
        (PredView::In { field: f, values: x }, PredView::In { field: g, values: y }) => f == g
            && all_among(x, y),
        _ => false,
    }
}

/// What a change of a rule of access is called. It is widened where the new rule admits every
/// value that the old one admits, narrowed where it is the other way round, and changed where
/// neither can be seen.
pub open spec fn is_rightly_called(kind: Text, pa: PredView, pb: PredView) -> bool {
    if !auth_pred(pa) && !auth_pred(pb) {
        kind == "GUARD_CHANGED"@
    } else if admits_all(pa, pb) {
        kind == "AUTH_WIDENED"@
    } else if admits_all(pb, pa) {
        kind == "AUTH_NARROWED"@
    } else {
        kind == "AUTH_CHANGED"@
    }
}

/// A change of a rule is told with the right kind and the texts of both rules. Widened access
/// admits whatever was admitted before, and narrowed access admits nothing that was not.
pub proof fn rule_changes_are_called_rightly(
    subject: Text,
    pa: PredView,
    pb: PredView,
    la: LocView,
    lb: LocView,
    w: World,
)
    ensures
        is_rightly_called(auth_changed(subject, pa, pb, la, lb).kind, pa, pb),
        says(
            auth_changed(subject, pa, pb, la, lb),
            auth_changed(subject, pa, pb, la, lb).kind,
            subject,
            Some(pred_text(pa)),
            Some(pred_text(pb)),
        ),
        auth_changed(subject, pa, pb, la, lb).kind == "AUTH_WIDENED"@ && holds(pa, w) ==> holds(
            pb,
            w,
        ),
        auth_changed(subject, pa, pb, la, lb).kind == "AUTH_NARROWED"@ && holds(pb, w) ==> holds(
            pa,
            w,
        ),
{
    kinds_of_access_differ();
    match (pa, pb) {
        (PredView::In { field: f, values: x }, PredView::In { field: g, values: y }) => {
            within_is_among(x, y);
            within_is_among(y, x);
        },
        _ => {},
    }
}

proof fn within_is_among(xs: Seq<Text>, ys: Seq<Text>)
    ensures
        crate::ordered::within(xs, ys) == all_among(xs, ys),
{
    if crate::ordered::within(xs, ys) {
        assert forall|x: Text| #[trigger] xs.contains(x) implies ys.contains(x) by {
            let i = choose|i: int| 0 <= i < xs.len() && xs[i] == x;
            assert(ys.contains(xs[i]));
        }
    }
    if all_among(xs, ys) {
        assert forall|i: int| 0 <= i < xs.len() implies ys.contains(#[trigger] xs[i]) by {
            assert(xs.contains(xs[i]));
        }
    }
}

proof fn kinds_of_access_differ()
    ensures
        "AUTH_WIDENED"@ != "AUTH_NARROWED"@,
        "AUTH_WIDENED"@ != "AUTH_CHANGED"@,
        "AUTH_NARROWED"@ != "AUTH_CHANGED"@,
        "GUARD_CHANGED"@ != "AUTH_WIDENED"@,
        "GUARD_CHANGED"@ != "AUTH_NARROWED"@,
        "GUARD_CHANGED"@ != "AUTH_CHANGED"@,
{
    reveal_strlit("AUTH_WIDENED");
    reveal_strlit("AUTH_NARROWED");
    reveal_strlit("AUTH_CHANGED");
    reveal_strlit("GUARD_CHANGED");
    assert("AUTH_WIDENED"@[5] == 'W' && "AUTH_NARROWED"@[5] == 'N' && "AUTH_CHANGED"@[5] == 'C');
    assert("GUARD_CHANGED"@[0] == 'G' && "AUTH_WIDENED"@[0] == 'A' && "AUTH_NARROWED"@[0] == 'A'
        && "AUTH_CHANGED"@[0] == 'A');
}

/// Where a function that answers a question answers another one, that is told, rightly called.
pub proof fn changed_answers_are_told(
    a: ModelView,
    b: ModelView,
    k: int,
    v: Versions,
    pa: PredView,
    pb: PredView,
)
    requires
        is_changed(a, b, k, v),
        v.ea.returns == Some(pa),
        v.eb.returns == Some(pb),
        pa != pb,
    ensures
        exists|kind: Text|
            is_rightly_called(kind, pa, pb) && #[trigger] is_told(
                ops_between(a, b),
                kind,
                matched(a, b).forward[k].1,
                Some(pred_text(pa)),
                Some(pred_text(pb)),
            ),
{
    let fw = matched(a, b).forward;
    let s = fw[k].1;
    let op = auth_changed(s, pa, pb, v.ea.loc, v.eb.loc);
    rule_changes_are_called_rightly(s, pa, pb, v.ea.loc, v.eb.loc, arbitrary());
    let ops = rule_change(s, v.ea, v.eb);
    assert(ops[0] == op);
    let x = Some(pred_text(pa));
    let y = Some(pred_text(pb));
    told_of_entity(a, b, fw, fw[k], v.ea, v.eb, v.sa, v.sb, op.kind, x, y);
    told_of_pair(a, b, k, op.kind, x, y);
}

/// A requirement, or a grant, stands in one version only.
pub open spec fn stands_alone(
    here: Seq<(Text, AccessFactView)>,
    there: Seq<(Text, AccessFactView)>,
    grant: bool,
) -> bool {
    exists|i: int|
        0 <= i < here.len() && (#[trigger] here[i]).1.grant == grant && lookup(there, here[i].0)
            is None
}

/// More is admitted: a requirement is gone, or a grant is new.
pub open spec fn opens(a: Seq<(Text, AccessFactView)>, b: Seq<(Text, AccessFactView)>) -> bool {
    stands_alone(a, b, false) || stands_alone(b, a, true)
}

/// What a change of requirements is called: widened where more is admitted and nothing less,
/// narrowed where less is admitted and nothing more, changed otherwise.
pub open spec fn access_word(
    a: Seq<(Text, AccessFactView)>,
    b: Seq<(Text, AccessFactView)>,
) -> Text {
    if opens(a, b) && !opens(b, a) {
        "AUTH_WIDENED"@
    } else if opens(b, a) && !opens(a, b) {
        "AUTH_NARROWED"@
    } else {
        "AUTH_CHANGED"@
    }
}

/// A fact stands under a name from index `i` on that the other list lacks.
spec fn is_fact_alone(
    here: Seq<(Text, AccessFactView)>,
    there: Seq<(Text, AccessFactView)>,
    i: int,
    x: AccessFactView,
) -> bool {
    exists|n: int|
        i <= n < here.len() && lookup(there, (#[trigger] here[n]).0) is None && here[n].1 == x
}

#[verifier::spinoff_prover]
proof fn facts_only_are(
    here: Seq<(Text, AccessFactView)>,
    there: Seq<(Text, AccessFactView)>,
    i: int,
)
    requires
        0 <= i,
    ensures
        forall|n: int|
            i <= n < here.len() && lookup(there, (#[trigger] here[n]).0) is None ==> facts_only(
                here,
                there,
                i,
            ).contains(here[n].1),
        forall|j: int|
            0 <= j < facts_only(here, there, i).len() ==> is_fact_alone(
                here,
                there,
                i,
                #[trigger] facts_only(here, there, i)[j],
            ),
    decreases here.len() - i,
{
    if i < here.len() {
        facts_only_are(here, there, i + 1);
        let rest = facts_only(here, there, i + 1);
        let all = facts_only(here, there, i);
        let h = all.len() - rest.len();
        assert forall|n: int|
            i <= n < here.len() && lookup(there, (#[trigger] here[n]).0) is None implies all.contains(
            here[n].1,
        ) by {
            if n == i {
                assert(all[0] == here[n].1);
            } else {
                assert(rest.contains(here[n].1));
                let j = choose|j: int| 0 <= j < rest.len() && rest[j] == here[n].1;
                assert(all[h + j] == rest[j]);
            }
        }
        assert forall|j: int| 0 <= j < all.len() implies is_fact_alone(
            here,
            there,
            i,
            #[trigger] all[j],
        ) by {
            if j < h {
                assert(lookup(there, here[i].0) is None && all[j] == here[i].1);
            } else {
                assert(all[j] == rest[j - h]);
                assert(is_fact_alone(here, there, i + 1, rest[j - h]));
                let n = choose|n: int|
                    i + 1 <= n < here.len() && lookup(there, (#[trigger] here[n]).0) is None
                        && here[n].1 == rest[j - h];
                assert(lookup(there, here[n].0) is None && here[n].1 == all[j]);
            }
        }
    }
}

proof fn grants_alone(
    here: Seq<(Text, AccessFactView)>,
    there: Seq<(Text, AccessFactView)>,
    grant: bool,
)
    ensures
        crate::ops::any_grant(facts_only(here, there, 0), grant) == stands_alone(here, there, grant),
{
    facts_only_are(here, there, 0);
    let all = facts_only(here, there, 0);
    if crate::ops::any_grant(all, grant) {
        let j = choose|j: int| 0 <= j < all.len() && (#[trigger] all[j]).grant == grant;
        assert(is_fact_alone(here, there, 0, all[j]));
        let n = choose|n: int|
            0 <= n < here.len() && lookup(there, (#[trigger] here[n]).0) is None && here[n].1
                == all[j];
        assert(here[n].1.grant == grant);
    }
    if stands_alone(here, there, grant) {
        let n = choose|n: int|
            0 <= n < here.len() && (#[trigger] here[n]).1.grant == grant && lookup(there, here[n].0)
                is None;
        let j = choose|j: int| 0 <= j < all.len() && all[j] == here[n].1;
        assert(all[j].grant == grant);
    }
}

/// Where the requirements of access of a changed function differ, that is told once: as widened
/// where more is admitted and nothing less, as narrowed where less is admitted and nothing more,
/// as changed otherwise.
pub proof fn changed_access_is_told(a: ModelView, b: ModelView, k: int, v: Versions)
    requires
        is_changed(a, b, k, v),
        crate::ordered::keys(v.sa.access) != crate::ordered::keys(v.sb.access),
    ensures
        exists|before: Option<Text>, after: Option<Text>|
            #[trigger] is_told(
                ops_between(a, b),
                access_word(v.sa.access, v.sb.access),
                matched(a, b).forward[k].1,
                before,
                after,
            ),
        access_changed(matched(a, b).forward[k].1, v.sa.access, v.sb.access).len() == 1,
{
    let fw = matched(a, b).forward;
    let s = fw[k].1;
    let ops = access_changed(s, v.sa.access, v.sb.access);
    grants_alone(v.sa.access, v.sb.access, false);
    grants_alone(v.sa.access, v.sb.access, true);
    grants_alone(v.sb.access, v.sa.access, false);
    grants_alone(v.sb.access, v.sa.access, true);
    let kind = access_word(v.sa.access, v.sb.access);
    assert(says(ops[0], kind, s, ops[0].before, ops[0].after));
    told_of_entity(
        a,
        b,
        fw,
        fw[k],
        v.ea,
        v.eb,
        v.sa,
        v.sb,
        kind,
        ops[0].before,
        ops[0].after,
    );
    told_of_pair(a, b, k, kind, ops[0].before, ops[0].after);
}

// ---- guards

/// A guard on a field that either version writes, and whose values are known: state machines tell
/// of these.
pub open spec fn is_of_state(
    a: ModelView,
    b: ModelView,
    ea: EntityView,
    eb: EntityView,
    p: PredView,
) -> bool {
    field_of(p) matches Some(f) && (writes(ea, f) || writes(eb, f)) && (lookup(a.field_domains, f)
        is Some || lookup(b.field_domains, f) is Some)
}

/// An entity writes a field.
pub open spec fn writes(e: EntityView, f: Text) -> bool {
    exists|i: int| 0 <= i < e.writes.len() && (#[trigger] e.writes[i]).field == f
}

/// Two guards that are one: they have one key, or they restrict access by one field.
pub open spec fn is_same_guard(
    old: (Text, PredView, LocView),
    new: (Text, PredView, LocView),
) -> bool {
    old.0 == new.0 || is_rival(old, new)
}

/// Two guards on one field, the old one a rule of access.
pub open spec fn is_rival(old: (Text, PredView, LocView), new: (Text, PredView, LocView)) -> bool {
    auth_pred(old.1) && field_of(old.1) == field_of(new.1)
}

/// A guard is one of those from index `i` on that are not on state, in the names of now.
spec fn is_one_of(
    a: ModelView,
    b: ModelView,
    ea: EntityView,
    eb: EntityView,
    forward: Seq<(Text, Text)>,
    guards: Seq<(Text, PredView, LocView)>,
    i: int,
    g: (Text, PredView, LocView),
) -> bool {
    exists|n: int|
        i <= n < guards.len() && !is_of_state(a, b, ea, eb, (#[trigger] guards[n]).1) && guard_now(
            forward,
            guards[n],
        ) == g
}

proof fn relevant_are_those(
    a: ModelView,
    b: ModelView,
    ea: EntityView,
    eb: EntityView,
    forward: Seq<(Text, Text)>,
    guards: Seq<(Text, PredView, LocView)>,
    i: int,
)
    requires
        0 <= i,
    ensures
        relevant_guards(a, b, ea, eb, forward, guards, i).len() <= guards.len(),
        forall|n: int|
            i <= n < guards.len() && !is_of_state(a, b, ea, eb, (#[trigger] guards[n]).1)
                ==> relevant_guards(a, b, ea, eb, forward, guards, i).contains(
                guard_now(forward, guards[n]),
            ),
        forall|j: int|
            0 <= j < relevant_guards(a, b, ea, eb, forward, guards, i).len() ==> is_one_of(
                a,
                b,
                ea,
                eb,
                forward,
                guards,
                i,
                #[trigger] relevant_guards(a, b, ea, eb, forward, guards, i)[j],
            ),
        relevant_guards(a, b, ea, eb, forward, guards, i).len() <= if i < guards.len() {
            guards.len() - i
        } else {
            0
        },
    decreases guards.len() - i,
{
    if i < guards.len() {
        relevant_are_those(a, b, ea, eb, forward, guards, i + 1);
        let rest = relevant_guards(a, b, ea, eb, forward, guards, i + 1);
        let all = relevant_guards(a, b, ea, eb, forward, guards, i);
        let h = all.len() - rest.len();
        assert(crate::behaviour::is_relevant(a, b, ea, eb, guards[i].1) == !is_of_state(
            a,
            b,
            ea,
            eb,
            guards[i].1,
        ));
        assert forall|n: int|
            i <= n < guards.len() && !is_of_state(a, b, ea, eb, (#[trigger] guards[n]).1) implies
            all.contains(
                guard_now(forward, guards[n]),
            ) by {
            let g = guard_now(forward, guards[n]);
            if n == i {
                assert(all[0] == g);
            } else {
                assert(rest.contains(g));
                let j = choose|j: int| 0 <= j < rest.len() && rest[j] == g;
                assert(all[h + j] == g);
            }
        }
        assert forall|j: int| 0 <= j < all.len() implies is_one_of(
            a,
            b,
            ea,
            eb,
            forward,
            guards,
            i,
            #[trigger] all[j],
        ) by {
            if j < h {
                assert(all[j] == guard_now(forward, guards[i]));
                assert(!is_of_state(a, b, ea, eb, guards[i].1));
            } else {
                assert(all[j] == rest[j - h]);
                assert(is_one_of(a, b, ea, eb, forward, guards, i + 1, rest[j - h]));
                let n = choose|n: int|
                    i + 1 <= n < guards.len() && !is_of_state(a, b, ea, eb, (#[trigger] guards[n]).1)
                        && guard_now(forward, guards[n]) == rest[j - h];
                assert(!is_of_state(a, b, ea, eb, guards[n].1));
            }
        }
    }
}

proof fn guard_at_is(gs: Seq<(Text, PredView, LocView)>, key: Text, i: int)
    requires
        0 <= i,
    ensures
        match guard_at(gs, key, i) {
            Some(k) => i <= k < gs.len() && gs[k].0 == key && forall|n: int|
                i <= n < k ==> (#[trigger] gs[n]).0 != key,
            None => forall|n: int| i <= n < gs.len() ==> (#[trigger] gs[n]).0 != key,
        },
    decreases gs.len() - i,
{
    if i < gs.len() {
        guard_at_is(gs, key, i + 1);
    }
}

proof fn rival_at_is(gs: Seq<(Text, PredView, LocView)>, taken: Seq<usize>, p: PredView, i: int)
    requires
        0 <= i,
    ensures
        match rival_at(gs, taken, p, i) {
            Some(k) => i <= k < gs.len() && auth_pred(p) && field_of(p) == field_of(gs[k].1),
            None => forall|n: int|
                i <= n < gs.len() ==> taken.contains(n as usize) || !auth_pred(p) || field_of(p)
                    != field_of((#[trigger] gs[n]).1),
        },
    decreases gs.len() - i,
{
    if i < gs.len() {
        rival_at_is(gs, taken, p, i + 1);
    }
}

/// What is said of an old guard: it is removed, or another rule of access stands for it.
pub open spec fn is_accounted_for(
    ops: Seq<OpView>,
    subject: Text,
    old: (Text, PredView, LocView),
    gb: Seq<(Text, PredView, LocView)>,
) -> bool {
    ||| is_told(ops, "GUARD_REMOVED"@, subject, Some(pred_text(old.1)), None)
    ||| exists|n: int|
        0 <= n < gb.len() && is_rival(old, #[trigger] gb[n]) && is_replaced(ops, subject, old, gb[n])
}

/// An old guard is told as replaced by a new one, rightly called.
pub open spec fn is_replaced(
    ops: Seq<OpView>,
    subject: Text,
    old: (Text, PredView, LocView),
    new: (Text, PredView, LocView),
) -> bool {
    exists|kind: Text|
        is_rightly_called(kind, old.1, new.1) && #[trigger] is_told(
            ops,
            kind,
            subject,
            Some(pred_text(old.1)),
            Some(pred_text(new.1)),
        )
}

/// No guard of a list has this key.
pub open spec fn has_no_key(gs: Seq<(Text, PredView, LocView)>, key: Text) -> bool {
    forall|n: int| 0 <= n < gs.len() ==> (#[trigger] gs[n]).0 != key
}

/// The first guard of a list with its key.
pub open spec fn is_first(gs: Seq<(Text, PredView, LocView)>, k: int) -> bool {
    0 <= k < gs.len() && forall|n: int| 0 <= n < k ==> (#[trigger] gs[n]).0 != gs[k].0
}

/// A list of operations goes on where another ends.
spec fn goes_on(ops: Seq<OpView>, more: Seq<OpView>) -> bool {
    ops.len() <= more.len() && more.take(ops.len() as int) == ops
}

proof fn told_stays(
    ops: Seq<OpView>,
    more: Seq<OpView>,
    kind: Text,
    subject: Text,
    before: Option<Text>,
    after: Option<Text>,
)
    requires
        is_told(ops, kind, subject, before, after),
        goes_on(ops, more),
    ensures
        is_told(more, kind, subject, before, after),
{
    let j = choose|j: int|
        0 <= j < ops.len() && says(#[trigger] ops[j], kind, subject, before, after);
    assert(more.take(ops.len() as int)[j] == more[j]);
}

/// What one old guard adds to what is said, and to the new guards that are accounted for.
spec fn is_one_step(
    subject: Text,
    g: (Text, PredView, LocView),
    gb: Seq<(Text, PredView, LocView)>,
    ops: Seq<OpView>,
    taken: Seq<usize>,
    next: Seq<OpView>,
    held: Seq<usize>,
) -> bool {
    &&& goes_on(ops, next)
    &&& forall|x: int|
        0 <= x < gb.len() && held.contains(x as usize) && !taken.contains(x as usize)
            ==> is_same_guard(g, #[trigger] gb[x])
    &&& forall|x: usize| #[trigger] taken.contains(x) ==> held.contains(x)
    &&& has_no_key(gb, g.0) ==> is_accounted_for(next, subject, g, gb)
    &&& forall|x: int|
        #![trigger gb[x]]
        is_first(gb, x) && gb[x].0 == g.0 ==> held.contains(x as usize) && (gb[x].1 != g.1
            && auth_pred(g.1) ==> is_replaced(next, subject, g, gb[x]))
    &&& next.len() > ops.len() ==> next.len() == ops.len() + 1 && is_said_of_guard(
        next.last(),
        subject,
        g,
        gb,
    )
}

proof fn one_guard_kept(
    subject: Text,
    g: (Text, PredView, LocView),
    gb: Seq<(Text, PredView, LocView)>,
    ops: Seq<OpView>,
    taken: Seq<usize>,
    k: int,
)
    requires
        gb.len() <= usize::MAX,
        is_first(gb, k),
        gb[k].0 == g.0,
    ensures
        is_one_step(
            subject,
            g,
            gb,
            ops,
            taken,
            if g.1 != gb[k].1 && auth_pred(g.1) {
                ops.push(auth_changed(subject, g.1, gb[k].1, g.2, gb[k].2))
            } else {
                ops
            },
            taken.push(k as usize),
        ),
{
    let op = auth_changed(subject, g.1, gb[k].1, g.2, gb[k].2);
    let held = taken.push(k as usize);
    let next = if g.1 != gb[k].1 && auth_pred(g.1) {
        ops.push(op)
    } else {
        ops
    };
    rule_changes_are_called_rightly(subject, g.1, gb[k].1, g.2, gb[k].2, arbitrary());
    pushed_one(taken, k as usize);
    assert(next.take(ops.len() as int) =~= ops);
    let x = Some(pred_text(g.1));
    let y = Some(pred_text(gb[k].1));
    if gb[k].1 != g.1 && auth_pred(g.1) {
        assert(says(next[ops.len() as int], op.kind, subject, x, y));
        assert(is_told(next, op.kind, subject, x, y));
        assert(is_replaced(next, subject, g, gb[k]));
        assert(is_same_guard(g, gb[k]));
        assert(is_said_of_guard(next.last(), subject, g, gb));
    }
    assert(!has_no_key(gb, g.0));
    assert forall|x: int|
        #![trigger gb[x]]
        is_first(gb, x) && gb[x].0 == g.0 implies held.contains(x as usize) && (gb[x].1 != g.1
        && auth_pred(g.1) ==> is_replaced(next, subject, g, gb[x])) by {
        assert(gb[k].0 == gb[x].0);
        assert(x == k);
    }
}

proof fn one_guard_replaced(
    subject: Text,
    g: (Text, PredView, LocView),
    gb: Seq<(Text, PredView, LocView)>,
    ops: Seq<OpView>,
    taken: Seq<usize>,
    k: int,
)
    requires
        gb.len() <= usize::MAX,
        has_no_key(gb, g.0),
        0 <= k < gb.len(),
        is_rival(g, gb[k]),
    ensures
        is_one_step(
            subject,
            g,
            gb,
            ops,
            taken,
            ops.push(auth_changed(subject, g.1, gb[k].1, g.2, gb[k].2)),
            taken.push(k as usize),
        ),
{
    let op = auth_changed(subject, g.1, gb[k].1, g.2, gb[k].2);
    let next = ops.push(op);
    rule_changes_are_called_rightly(subject, g.1, gb[k].1, g.2, gb[k].2, arbitrary());
    pushed_one(taken, k as usize);
    assert(next.take(ops.len() as int) =~= ops);
    let x = Some(pred_text(g.1));
    let y = Some(pred_text(gb[k].1));
    assert(says(next[ops.len() as int], op.kind, subject, x, y));
    assert(is_told(next, op.kind, subject, x, y));
    assert(is_replaced(next, subject, g, gb[k]));
    assert(is_same_guard(g, gb[k]));
    assert(gb[k].0 != g.0);
    assert(is_said_of_guard(next.last(), subject, g, gb));
}

proof fn one_guard_lost(
    subject: Text,
    g: (Text, PredView, LocView),
    gb: Seq<(Text, PredView, LocView)>,
    ops: Seq<OpView>,
    taken: Seq<usize>,
    op: OpView,
)
    requires
        has_no_key(gb, g.0),
        says(op, "GUARD_REMOVED"@, subject, Some(pred_text(g.1)), None),
    ensures
        is_one_step(subject, g, gb, ops, taken, ops.push(op), taken),
{
    let next = ops.push(op);
    assert(next.take(ops.len() as int) =~= ops);
    assert(says(next[ops.len() as int], "GUARD_REMOVED"@, subject, Some(pred_text(g.1)), None));
}

proof fn one_guard_held(
    subject: Text,
    g: (Text, PredView, LocView),
    gb: Seq<(Text, PredView, LocView)>,
    ops: Seq<OpView>,
    taken: Seq<usize>,
)
    requires
        gb.len() <= usize::MAX,
    ensures
        is_one_step(
            subject,
            g,
            gb,
            ops,
            taken,
            one_held(subject, g, gb, ops, taken).0,
            one_held(subject, g, gb, ops, taken).1,
        ),
{
    guard_at_is(gb, g.0, 0);
    rival_at_is(gb, taken, g.1, 0);
    match guard_at(gb, g.0, 0) {
        Some(k) => {
            one_guard_kept(subject, g, gb, ops, taken, k);
        },
        None => match rival_at(gb, taken, g.1, 0) {
            Some(k) => {
                one_guard_replaced(subject, g, gb, ops, taken, k);
            },
            None => {
                let op = found(
                    "GUARD_REMOVED"@,
                    Layer::Behaviour,
                    subject,
                    Some(pred_text(g.1)),
                    None,
                    seq![g.2],
                    seq![],
                );
                one_guard_lost(subject, g, gb, ops, taken, op);
            },
        },
    }
}

proof fn pushed_one(taken: Seq<usize>, k: usize)
    ensures
        forall|x: usize| #[trigger] taken.push(k).contains(x) == (taken.contains(x) || x == k),
{
    assert forall|x: usize| #[trigger] taken.push(k).contains(x) == (taken.contains(x) || x == k) by {
        let next = taken.push(k);
        if taken.contains(x) {
            let i = choose|i: int| 0 <= i < taken.len() && taken[i] == x;
            assert(next[i] == x);
        }
        assert(next[taken.len() as int] == k);
        if next.contains(x) && x != k {
            let i = choose|i: int| 0 <= i < next.len() && next[i] == x;
            assert(taken[i] == x);
        }
    }
}

/// What may be said of an old guard: that it is removed, where no new guard has its key, or that
/// a new guard with its key or on its field stands for it and differs from it.
pub open spec fn is_said_of_guard(
    op: OpView,
    subject: Text,
    g: (Text, PredView, LocView),
    gb: Seq<(Text, PredView, LocView)>,
) -> bool {
    ||| has_no_key(gb, g.0) && says(op, "GUARD_REMOVED"@, subject, Some(pred_text(g.1)), None)
    ||| exists|n: int|
        0 <= n < gb.len() && is_same_guard(g, #[trigger] gb[n]) && (gb[n].0 == g.0 ==> gb[n].1 != g.1)
            && is_rightly_called(op.kind, g.1, gb[n].1) && says(
            op,
            op.kind,
            subject,
            Some(pred_text(g.1)),
            Some(pred_text(gb[n].1)),
        )
}

spec fn one_held(
    subject: Text,
    g: (Text, PredView, LocView),
    gb: Seq<(Text, PredView, LocView)>,
    ops: Seq<OpView>,
    taken: Seq<usize>,
) -> (Seq<OpView>, Seq<usize>) {
    match guard_at(gb, g.0, 0) {
        Some(k) => (
            if g.1 != gb[k].1 && auth_pred(g.1) {
                ops.push(auth_changed(subject, g.1, gb[k].1, g.2, gb[k].2))
            } else {
                ops
            },
            taken.push(k as usize),
        ),
        None => match rival_at(gb, taken, g.1, 0) {
            Some(k) => (
                ops.push(auth_changed(subject, g.1, gb[k].1, g.2, gb[k].2)),
                taken.push(k as usize),
            ),
            None => (
                ops.push(
                    found(
                        "GUARD_REMOVED"@,
                        Layer::Behaviour,
                        subject,
                        Some(pred_text(g.1)),
                        None,
                        seq![g.2],
                        seq![],
                    ),
                ),
                taken,
            ),
        },
    }
}

proof fn held_step(
    subject: Text,
    ga: Seq<(Text, PredView, LocView)>,
    gb: Seq<(Text, PredView, LocView)>,
    i: int,
    ops: Seq<OpView>,
    taken: Seq<usize>,
)
    requires
        0 <= i < ga.len(),
    ensures
        guards_held(subject, ga, gb, i, ops, taken) == guards_held(
            subject,
            ga,
            gb,
            i + 1,
            one_held(subject, ga[i], gb, ops, taken).0,
            one_held(subject, ga[i], gb, ops, taken).1,
        ),
{
}

/// One of the old guards from index `i` on is the same as a new one.
spec fn is_met(ga: Seq<(Text, PredView, LocView)>, i: int, new: (Text, PredView, LocView)) -> bool {
    exists|n: int| i <= n < ga.len() && is_same_guard(#[trigger] ga[n], new)
}

/// An operation is about one of the old guards from index `i` on.
spec fn is_about_one(
    op: OpView,
    subject: Text,
    ga: Seq<(Text, PredView, LocView)>,
    gb: Seq<(Text, PredView, LocView)>,
    i: int,
) -> bool {
    exists|n: int| i <= n < ga.len() && is_said_of_guard(op, subject, #[trigger] ga[n], gb)
}

/// What the old guards from index `i` on add to what is said, and to the new guards that are
/// accounted for.
spec fn are_all_steps(
    subject: Text,
    ga: Seq<(Text, PredView, LocView)>,
    gb: Seq<(Text, PredView, LocView)>,
    i: int,
    ops: Seq<OpView>,
    taken: Seq<usize>,
    o: Seq<OpView>,
    t: Seq<usize>,
) -> bool {
    &&& goes_on(ops, o)
    &&& forall|x: int|
        0 <= x < gb.len() && t.contains(x as usize) && !taken.contains(x as usize) ==> is_met(
            ga,
            i,
            #[trigger] gb[x],
        )
    &&& forall|x: usize| #[trigger] taken.contains(x) ==> t.contains(x)
    &&& forall|n: int|
        i <= n < ga.len() && has_no_key(gb, (#[trigger] ga[n]).0) ==> is_accounted_for(
            o,
            subject,
            ga[n],
            gb,
        )
    &&& forall|n: int, x: int|
        #![trigger ga[n], gb[x]]
        i <= n < ga.len() && is_first(gb, x) && gb[x].0 == ga[n].0 ==> t.contains(x as usize)
    &&& forall|n: int, x: int|
        #![trigger ga[n], gb[x]]
        i <= n < ga.len() && is_first(gb, x) && gb[x].0 == ga[n].0 && gb[x].1 != ga[n].1
            && auth_pred(ga[n].1) ==> is_replaced(o, subject, ga[n], gb[x])
    &&& forall|j: int|
        ops.len() <= j < o.len() ==> is_about_one(#[trigger] o[j], subject, ga, gb, i)
}

proof fn steps_add_up(
    subject: Text,
    ga: Seq<(Text, PredView, LocView)>,
    gb: Seq<(Text, PredView, LocView)>,
    i: int,
    ops: Seq<OpView>,
    taken: Seq<usize>,
    next: Seq<OpView>,
    held: Seq<usize>,
    o: Seq<OpView>,
    t: Seq<usize>,
)
    requires
        0 <= i < ga.len(),
        is_one_step(subject, ga[i], gb, ops, taken, next, held),
        are_all_steps(subject, ga, gb, i + 1, next, held, o, t),
    ensures
        are_all_steps(subject, ga, gb, i, ops, taken, o, t),
{
    assert(o.take(ops.len() as int) =~= o.take(next.len() as int).take(ops.len() as int));
    assert forall|x: int|
        0 <= x < gb.len() && t.contains(x as usize) && !taken.contains(x as usize) implies is_met(
        ga,
        i,
        #[trigger] gb[x],
    ) by {
        if held.contains(x as usize) {
            assert(is_same_guard(ga[i], gb[x]));
        } else {
            assert(is_met(ga, i + 1, gb[x]));
            let n = choose|n: int| i + 1 <= n < ga.len() && is_same_guard(#[trigger] ga[n], gb[x]);
            assert(is_same_guard(ga[n], gb[x]));
        }
    }
    assert forall|n: int|
        i <= n < ga.len() && has_no_key(gb, (#[trigger] ga[n]).0) implies is_accounted_for(
        o,
        subject,
        ga[n],
        gb,
    ) by {
        if n == i {
            accounted_stays(next, o, subject, ga[i], gb);
        }
    }
    assert forall|n: int, x: int|
        #![trigger ga[n], gb[x]]
        i <= n < ga.len() && is_first(gb, x) && gb[x].0 == ga[n].0 && gb[x].1 != ga[n].1 && auth_pred(
            ga[n].1,
        ) implies is_replaced(o, subject, ga[n], gb[x]) by {
        if n == i {
            replaced_stays(next, o, subject, ga[i], gb[x]);
        }
    }
    assert forall|j: int| ops.len() <= j < o.len() implies is_about_one(
        #[trigger] o[j],
        subject,
        ga,
        gb,
        i,
    ) by {
        if j < next.len() {
            assert(o[j] == o.take(next.len() as int)[j]);
            assert(next[j] == next.last());
            assert(is_said_of_guard(o[j], subject, ga[i], gb));
        } else {
            assert(is_about_one(o[j], subject, ga, gb, i + 1));
            let n = choose|n: int|
                i + 1 <= n < ga.len() && is_said_of_guard(o[j], subject, #[trigger] ga[n], gb);
            assert(is_said_of_guard(o[j], subject, ga[n], gb));
        }
    }
}

proof fn all_guards_held(
    subject: Text,
    ga: Seq<(Text, PredView, LocView)>,
    gb: Seq<(Text, PredView, LocView)>,
    i: int,
    ops: Seq<OpView>,
    taken: Seq<usize>,
)
    requires
        gb.len() <= usize::MAX,
        0 <= i,
    ensures
        are_all_steps(
            subject,
            ga,
            gb,
            i,
            ops,
            taken,
            guards_held(subject, ga, gb, i, ops, taken).0,
            guards_held(subject, ga, gb, i, ops, taken).1,
        ),
    decreases ga.len() - i,
{
    if i < ga.len() {
        let (next, held) = one_held(subject, ga[i], gb, ops, taken);
        one_guard_held(subject, ga[i], gb, ops, taken);
        held_step(subject, ga, gb, i, ops, taken);
        all_guards_held(subject, ga, gb, i + 1, next, held);
        let (o, t) = guards_held(subject, ga, gb, i, ops, taken);
        steps_add_up(subject, ga, gb, i, ops, taken, next, held, o, t);
    } else {
        assert(ops.take(ops.len() as int) =~= ops);
    }
}

proof fn replaced_stays(
    ops: Seq<OpView>,
    more: Seq<OpView>,
    subject: Text,
    old: (Text, PredView, LocView),
    new: (Text, PredView, LocView),
)
    requires
        is_replaced(ops, subject, old, new),
        goes_on(ops, more),
    ensures
        is_replaced(more, subject, old, new),
{
    let x = Some(pred_text(old.1));
    let y = Some(pred_text(new.1));
    let kind = choose|kind: Text|
        is_rightly_called(kind, old.1, new.1) && #[trigger] is_told(ops, kind, subject, x, y);
    told_stays(ops, more, kind, subject, x, y);
}

proof fn accounted_stays(
    ops: Seq<OpView>,
    more: Seq<OpView>,
    subject: Text,
    old: (Text, PredView, LocView),
    gb: Seq<(Text, PredView, LocView)>,
)
    requires
        is_accounted_for(ops, subject, old, gb),
        goes_on(ops, more),
    ensures
        is_accounted_for(more, subject, old, gb),
{
    if is_told(ops, "GUARD_REMOVED"@, subject, Some(pred_text(old.1)), None) {
        told_stays(ops, more, "GUARD_REMOVED"@, subject, Some(pred_text(old.1)), None);
    } else {
        let n = choose|n: int|
            0 <= n < gb.len() && is_rival(old, #[trigger] gb[n]) && is_replaced(
                ops,
                subject,
                old,
                gb[n],
            );
        replaced_stays(ops, more, subject, old, gb[n]);
        assert(is_rival(old, gb[n]));
    }
}

/// A new guard that no old guard accounts for.
spec fn is_free(taken: Seq<usize>, n: int) -> bool {
    !taken.contains(n as usize)
}

proof fn new_guards_are_exact(
    subject: Text,
    gb: Seq<(Text, PredView, LocView)>,
    taken: Seq<usize>,
    i: int,
)
    requires
        0 <= i,
    ensures
        forall|n: int|
            i <= n < gb.len() && is_free(taken, n) && (#[trigger] gb[n]).0 == gb[n].0 ==> is_told(guard_gains(subject, gb, taken, i), "GUARD_ADDED"@, subject, None, Some(pred_text(gb[n].1))),
        forall|j: int|
            #![trigger guard_gains(subject, gb, taken, i)[j]]
            0 <= j < guard_gains(subject, gb, taken, i).len() ==> exists|n: int|
                i <= n < gb.len() && is_free(taken, n) && (#[trigger] gb[n]).0 == gb[n].0 && says(guard_gains(subject, gb, taken, i)[j], "GUARD_ADDED"@, subject, None, Some(pred_text(gb[n].1))),
    decreases gb.len() - i,
{
    if i < gb.len() {
        new_guards_are_exact(subject, gb, taken, i + 1);
        let rest = guard_gains(subject, gb, taken, i + 1);
        let all = guard_gains(subject, gb, taken, i);
        let h = all.len() - rest.len();
        assert forall|n: int| i <= n < gb.len() && is_free(taken, n) && (#[trigger] gb[n]).0 == gb[n].0 implies is_told(all, "GUARD_ADDED"@, subject, None, Some(pred_text(gb[n].1))) by {
            if n == i {
                assert(says(all[0], "GUARD_ADDED"@, subject, None, Some(pred_text(gb[n].1))));
            } else {
                assert(is_told(rest, "GUARD_ADDED"@, subject, None, Some(pred_text(gb[n].1))));
                let j = choose|j: int| 0 <= j < rest.len() && says(#[trigger] rest[j], "GUARD_ADDED"@, subject, None, Some(pred_text(gb[n].1)));
                assert(all[h + j] == rest[j]);
            }
        }
        assert forall|j: int|
            #![trigger all[j]]
            0 <= j < all.len() implies exists|n: int| i <= n < gb.len() && is_free(taken, n) && (#[trigger] gb[n]).0 == gb[n].0 && says(all[j], "GUARD_ADDED"@, subject, None, Some(pred_text(gb[n].1))) by {
            if j < h {
                assert(is_free(taken, i) && says(all[j], "GUARD_ADDED"@, subject, None, Some(pred_text(gb[i].1))));
            } else {
                assert(all[j] == rest[j - h]);
                let n = choose|n: int| i + 1 <= n < gb.len() && is_free(taken, n) && (#[trigger] gb[n]).0 == gb[n].0 && says(rest[j - h], "GUARD_ADDED"@, subject, None, Some(pred_text(gb[n].1)));
                assert(is_free(taken, n) && says(all[j], "GUARD_ADDED"@, subject, None, Some(pred_text(gb[n].1))));
            }
        }
    }
}

/// A guard of the new version that no guard of the old one accounts for is told as added, and a
/// guard of the old version that no guard of the new one accounts for is told as removed. Guards
/// on state are left to the state machines.
pub proof fn changed_guards_are_told(a: ModelView, b: ModelView, k: int, v: Versions)
    requires
        is_changed(a, b, k, v),
        v.sb.requirements.len() <= usize::MAX,
    ensures
        forall|n: int|
            0 <= n < v.sb.requirements.len() && is_fresh_guard(
                a,
                b,
                v,
                matched(a, b).forward,
                #[trigger] v.sb.requirements[n],
            ) ==> is_told(
                ops_between(a, b),
                "GUARD_ADDED"@,
                matched(a, b).forward[k].1,
                None,
                Some(pred_text(v.sb.requirements[n].1)),
            ),
        forall|n: int|
            0 <= n < v.sa.requirements.len() && is_stale_guard(
                a,
                b,
                v,
                matched(a, b).forward,
                #[trigger] v.sa.requirements[n],
            ) ==> is_told(
                ops_between(a, b),
                "GUARD_REMOVED"@,
                matched(a, b).forward[k].1,
                Some(pred_text(v.sa.requirements[n].1)),
                None,
            ),
{
    let fw = matched(a, b).forward;
    let s = fw[k].1;
    let ga = relevant_guards(a, b, v.ea, v.eb, fw, v.sa.requirements, 0);
    let gb = relevant_guards(a, b, v.ea, v.eb, seq![], v.sb.requirements, 0);
    relevant_are_those(a, b, v.ea, v.eb, fw, v.sa.requirements, 0);
    relevant_are_those(a, b, v.ea, v.eb, seq![], v.sb.requirements, 0);
    let none = Seq::<OpView>::empty();
    assert(none =~= seq![]);
    all_guards_held(s, ga, gb, 0, none, seq![]);
    let (held, taken) = guards_held(s, ga, gb, 0, seq![], seq![]);
    new_guards_are_exact(s, gb, taken, 0);
    let gains = guard_gains(s, gb, taken, 0);
    assert forall|n: int|
        0 <= n < v.sb.requirements.len() && is_fresh_guard(
            a,
            b,
            v,
            fw,
            #[trigger] v.sb.requirements[n],
        ) implies is_told(
        ops_between(a, b),
        "GUARD_ADDED"@,
        s,
        None,
        Some(pred_text(v.sb.requirements[n].1)),
    ) by {
        let g = guard_now(seq![], v.sb.requirements[n]);
        let y = Some(pred_text(g.1));
        assert(gb.contains(g));
        let x = choose|x: int| 0 <= x < gb.len() && gb[x] == g;
        if taken.contains(x as usize) {
            assert(is_met(ga, 0, gb[x]));
            let m = choose|m: int| 0 <= m < ga.len() && is_same_guard(#[trigger] ga[m], gb[x]);
            assert(is_one_of(a, b, v.ea, v.eb, fw, v.sa.requirements, 0, ga[m]));
            let c = choose|c: int|
                0 <= c < v.sa.requirements.len() && !is_of_state(
                    a,
                    b,
                    v.ea,
                    v.eb,
                    (#[trigger] v.sa.requirements[c]).1,
                ) && guard_now(fw, v.sa.requirements[c]) == ga[m];
            assert(is_same_guard(guard_now(fw, v.sa.requirements[c]), g));
        }
        assert(is_free(taken, x) && gb[x].0 == gb[x].0);
        told_in_parts(held, gains, "GUARD_ADDED"@, s, None, y);
        told_of_entity(a, b, fw, fw[k], v.ea, v.eb, v.sa, v.sb, "GUARD_ADDED"@, None, y);
        told_of_pair(a, b, k, "GUARD_ADDED"@, None, y);
    }
    assert forall|n: int|
        0 <= n < v.sa.requirements.len() && is_stale_guard(
            a,
            b,
            v,
            fw,
            #[trigger] v.sa.requirements[n],
        ) implies is_told(
        ops_between(a, b),
        "GUARD_REMOVED"@,
        s,
        Some(pred_text(v.sa.requirements[n].1)),
        None,
    ) by {
        let g = guard_now(fw, v.sa.requirements[n]);
        let y = Some(pred_text(g.1));
        assert(ga.contains(g));
        let x = choose|x: int| 0 <= x < ga.len() && ga[x] == g;
        assert forall|m: int| 0 <= m < gb.len() implies !is_same_guard(g, #[trigger] gb[m]) by {
            assert(is_one_of(a, b, v.ea, v.eb, seq![], v.sb.requirements, 0, gb[m]));
            let c = choose|c: int|
                0 <= c < v.sb.requirements.len() && !is_of_state(
                    a,
                    b,
                    v.ea,
                    v.eb,
                    (#[trigger] v.sb.requirements[c]).1,
                ) && guard_now(seq![], v.sb.requirements[c]) == gb[m];
            assert(!is_same_guard(g, guard_now(seq![], v.sb.requirements[c])));
        }
        assert(has_no_key(gb, ga[x].0));
        assert(is_accounted_for(held, s, ga[x], gb));
        told_in_parts(held, gains, "GUARD_REMOVED"@, s, y, None);
        told_of_entity(a, b, fw, fw[k], v.ea, v.eb, v.sa, v.sb, "GUARD_REMOVED"@, y, None);
        told_of_pair(a, b, k, "GUARD_REMOVED"@, y, None);
    }
}

/// A guard with its key in the names of the new version.
pub open spec fn guard_now(
    forward: Seq<(Text, Text)>,
    g: (Text, PredView, LocView),
) -> (Text, PredView, LocView) {
    (crate::behaviour::renamed_key(forward, g.0), g.1, g.2)
}

/// A guard of the new version that is not on state, and that no guard of the old one is.
pub open spec fn is_fresh_guard(
    a: ModelView,
    b: ModelView,
    v: Versions,
    forward: Seq<(Text, Text)>,
    g: (Text, PredView, LocView),
) -> bool {
    &&& !is_of_state(a, b, v.ea, v.eb, g.1)
    &&& forall|c: int|
        0 <= c < v.sa.requirements.len() && !is_of_state(
            a,
            b,
            v.ea,
            v.eb,
            (#[trigger] v.sa.requirements[c]).1,
        ) ==> !is_same_guard(guard_now(forward, v.sa.requirements[c]), guard_now(seq![], g))
}

/// A guard of the old version that is not on state, and that no guard of the new one is.
pub open spec fn is_stale_guard(
    a: ModelView,
    b: ModelView,
    v: Versions,
    forward: Seq<(Text, Text)>,
    g: (Text, PredView, LocView),
) -> bool {
    &&& !is_of_state(a, b, v.ea, v.eb, g.1)
    &&& forall|c: int|
        0 <= c < v.sb.requirements.len() && !is_of_state(
            a,
            b,
            v.ea,
            v.eb,
            (#[trigger] v.sb.requirements[c]).1,
        ) ==> !is_same_guard(guard_now(forward, g), guard_now(seq![], v.sb.requirements[c]))
}

/// What is said of the guards of a changed function is so. A removed guard has no new guard with
/// its key; a changed one stands beside a new guard with its key, or on its field, that differs
/// from it, and is rightly called; an added guard is one of the new guards, and no old guard has
/// its key where it is the first with that key. A rule of access that differs under one key is
/// always told.
pub proof fn guards_told_are_so(
    subject: Text,
    ga: Seq<(Text, PredView, LocView)>,
    gb: Seq<(Text, PredView, LocView)>,
)
    requires
        gb.len() <= usize::MAX,
    ensures
        forall|j: int|
            #![trigger guard_changes(subject, ga, gb)[j]]
            0 <= j < guard_changes(subject, ga, gb).len() ==> {
                ||| exists|n: int|
                    0 <= n < ga.len() && is_said_of_guard(
                        guard_changes(subject, ga, gb)[j],
                        subject,
                        #[trigger] ga[n],
                        gb,
                    )
                ||| exists|n: int|
                    0 <= n < gb.len() && (is_first(gb, n) ==> has_no_key(ga, (#[trigger] gb[n]).0))
                        && says(
                        guard_changes(subject, ga, gb)[j],
                        "GUARD_ADDED"@,
                        subject,
                        None,
                        Some(pred_text(gb[n].1)),
                    )
            },
        forall|n: int, x: int|
            #![trigger ga[n], gb[x]]
            0 <= n < ga.len() && is_first(gb, x) && gb[x].0 == ga[n].0 && gb[x].1 != ga[n].1
                && auth_pred(ga[n].1) ==> is_replaced(
                guard_changes(subject, ga, gb),
                subject,
                ga[n],
                gb[x],
            ),
{
    let none = Seq::<OpView>::empty();
    assert(none =~= seq![]);
    all_guards_held(subject, ga, gb, 0, none, seq![]);
    let (held, taken) = guards_held(subject, ga, gb, 0, seq![], seq![]);
    new_guards_are_exact(subject, gb, taken, 0);
    let gains = guard_gains(subject, gb, taken, 0);
    let all = guard_changes(subject, ga, gb);
    assert(all == held + gains);
    assert forall|j: int|
        #![trigger all[j]]
        0 <= j < all.len() implies {
        ||| exists|n: int|
            0 <= n < ga.len() && is_said_of_guard(all[j], subject, #[trigger] ga[n], gb)
        ||| exists|n: int|
            0 <= n < gb.len() && (is_first(gb, n) ==> has_no_key(ga, (#[trigger] gb[n]).0)) && says(
                all[j],
                "GUARD_ADDED"@,
                subject,
                None,
                Some(pred_text(gb[n].1)),
            )
    } by {
        if j < held.len() {
            assert(all[j] == held[j]);
            assert(is_about_one(held[j], subject, ga, gb, 0));
        } else {
            assert(all[j] == gains[j - held.len()]);
            let n = choose|n: int|
                0 <= n < gb.len() && is_free(taken, n) && (#[trigger] gb[n]).0 == gb[n].0 && says(
                    gains[j - held.len()],
                    "GUARD_ADDED"@,
                    subject,
                    None,
                    Some(pred_text(gb[n].1)),
                );
            if is_first(gb, n) {
                assert forall|m: int| 0 <= m < ga.len() implies (#[trigger] ga[m]).0 != gb[n].0 by {}
            }
            assert(is_first(gb, n) ==> has_no_key(ga, gb[n].0));
        }
    }
    assert forall|n: int, x: int|
        #![trigger ga[n], gb[x]]
        0 <= n < ga.len() && is_first(gb, x) && gb[x].0 == ga[n].0 && gb[x].1 != ga[n].1 && auth_pred(
            ga[n].1,
        ) implies is_replaced(all, subject, ga[n], gb[x]) by {
        assert(all.take(held.len() as int) =~= held);
        replaced_stays(held, all, subject, ga[n], gb[x]);
    }
}

spec fn is_any(p: (QueryFilterView, QueryFilterView)) -> bool {
    true
}

spec fn is_some_filter(f: QueryFilterView) -> bool {
    true
}

proof fn changed_filters_are_exact(
    subject: Text,
    pairs: Seq<(QueryFilterView, QueryFilterView)>,
    i: int,
)
    requires
        0 <= i,
    ensures
        forall|n: int|
            i <= n < pairs.len() && is_any((#[trigger] pairs[n])) ==> is_told(filter_changes(subject, pairs, i), "QUERY_FILTER_CHANGED"@, subject, Some(pairs[n].0.expr), Some(pairs[n].1.expr)),
        forall|j: int|
            #![trigger filter_changes(subject, pairs, i)[j]]
            0 <= j < filter_changes(subject, pairs, i).len() ==> exists|n: int|
                i <= n < pairs.len() && is_any((#[trigger] pairs[n])) && says(filter_changes(subject, pairs, i)[j], "QUERY_FILTER_CHANGED"@, subject, Some(pairs[n].0.expr), Some(pairs[n].1.expr)),
    decreases pairs.len() - i,
{
    if i < pairs.len() {
        changed_filters_are_exact(subject, pairs, i + 1);
        let rest = filter_changes(subject, pairs, i + 1);
        let all = filter_changes(subject, pairs, i);
        let h = all.len() - rest.len();
        assert forall|n: int| i <= n < pairs.len() && is_any((#[trigger] pairs[n])) implies is_told(all, "QUERY_FILTER_CHANGED"@, subject, Some(pairs[n].0.expr), Some(pairs[n].1.expr)) by {
            if n == i {
                assert(says(all[0], "QUERY_FILTER_CHANGED"@, subject, Some(pairs[n].0.expr), Some(pairs[n].1.expr)));
            } else {
                assert(is_told(rest, "QUERY_FILTER_CHANGED"@, subject, Some(pairs[n].0.expr), Some(pairs[n].1.expr)));
                let j = choose|j: int| 0 <= j < rest.len() && says(#[trigger] rest[j], "QUERY_FILTER_CHANGED"@, subject, Some(pairs[n].0.expr), Some(pairs[n].1.expr));
                assert(all[h + j] == rest[j]);
            }
        }
        assert forall|j: int|
            #![trigger all[j]]
            0 <= j < all.len() implies exists|n: int| i <= n < pairs.len() && is_any((#[trigger] pairs[n])) && says(all[j], "QUERY_FILTER_CHANGED"@, subject, Some(pairs[n].0.expr), Some(pairs[n].1.expr)) by {
            if j < h {
                assert(is_any(pairs[i]) && says(all[j], "QUERY_FILTER_CHANGED"@, subject, Some(pairs[i].0.expr), Some(pairs[i].1.expr)));
            } else {
                assert(all[j] == rest[j - h]);
                let n = choose|n: int| i + 1 <= n < pairs.len() && is_any((#[trigger] pairs[n])) && says(rest[j - h], "QUERY_FILTER_CHANGED"@, subject, Some(pairs[n].0.expr), Some(pairs[n].1.expr));
                assert(is_any(pairs[n]) && says(all[j], "QUERY_FILTER_CHANGED"@, subject, Some(pairs[n].0.expr), Some(pairs[n].1.expr)));
            }
        }
    }
}

proof fn lost_filters_are_exact(
    subject: Text,
    gone: Seq<QueryFilterView>,
    i: int,
)
    requires
        0 <= i,
    ensures
        forall|n: int|
            i <= n < gone.len() && is_some_filter((#[trigger] gone[n])) ==> is_told(filter_losses(subject, gone, i), "QUERY_FILTER_REMOVED"@, subject, Some(gone[n].expr), None),
        forall|j: int|
            #![trigger filter_losses(subject, gone, i)[j]]
            0 <= j < filter_losses(subject, gone, i).len() ==> exists|n: int|
                i <= n < gone.len() && is_some_filter((#[trigger] gone[n])) && says(filter_losses(subject, gone, i)[j], "QUERY_FILTER_REMOVED"@, subject, Some(gone[n].expr), None),
    decreases gone.len() - i,
{
    if i < gone.len() {
        lost_filters_are_exact(subject, gone, i + 1);
        let rest = filter_losses(subject, gone, i + 1);
        let all = filter_losses(subject, gone, i);
        let h = all.len() - rest.len();
        assert forall|n: int| i <= n < gone.len() && is_some_filter((#[trigger] gone[n])) implies is_told(all, "QUERY_FILTER_REMOVED"@, subject, Some(gone[n].expr), None) by {
            if n == i {
                assert(says(all[0], "QUERY_FILTER_REMOVED"@, subject, Some(gone[n].expr), None));
            } else {
                assert(is_told(rest, "QUERY_FILTER_REMOVED"@, subject, Some(gone[n].expr), None));
                let j = choose|j: int| 0 <= j < rest.len() && says(#[trigger] rest[j], "QUERY_FILTER_REMOVED"@, subject, Some(gone[n].expr), None);
                assert(all[h + j] == rest[j]);
            }
        }
        assert forall|j: int|
            #![trigger all[j]]
            0 <= j < all.len() implies exists|n: int| i <= n < gone.len() && is_some_filter((#[trigger] gone[n])) && says(all[j], "QUERY_FILTER_REMOVED"@, subject, Some(gone[n].expr), None) by {
            if j < h {
                assert(is_some_filter(gone[i]) && says(all[j], "QUERY_FILTER_REMOVED"@, subject, Some(gone[i].expr), None));
            } else {
                assert(all[j] == rest[j - h]);
                let n = choose|n: int| i + 1 <= n < gone.len() && is_some_filter((#[trigger] gone[n])) && says(rest[j - h], "QUERY_FILTER_REMOVED"@, subject, Some(gone[n].expr), None);
                assert(is_some_filter(gone[n]) && says(all[j], "QUERY_FILTER_REMOVED"@, subject, Some(gone[n].expr), None));
            }
        }
    }
}

proof fn new_filters_are_exact(
    subject: Text,
    fresh: Seq<QueryFilterView>,
    i: int,
)
    requires
        0 <= i,
    ensures
        forall|n: int|
            i <= n < fresh.len() && is_some_filter((#[trigger] fresh[n])) ==> is_told(filter_gains(subject, fresh, i), "QUERY_FILTER_ADDED"@, subject, None, Some(fresh[n].expr)),
        forall|j: int|
            #![trigger filter_gains(subject, fresh, i)[j]]
            0 <= j < filter_gains(subject, fresh, i).len() ==> exists|n: int|
                i <= n < fresh.len() && is_some_filter((#[trigger] fresh[n])) && says(filter_gains(subject, fresh, i)[j], "QUERY_FILTER_ADDED"@, subject, None, Some(fresh[n].expr)),
    decreases fresh.len() - i,
{
    if i < fresh.len() {
        new_filters_are_exact(subject, fresh, i + 1);
        let rest = filter_gains(subject, fresh, i + 1);
        let all = filter_gains(subject, fresh, i);
        let h = all.len() - rest.len();
        assert forall|n: int| i <= n < fresh.len() && is_some_filter((#[trigger] fresh[n])) implies is_told(all, "QUERY_FILTER_ADDED"@, subject, None, Some(fresh[n].expr)) by {
            if n == i {
                assert(says(all[0], "QUERY_FILTER_ADDED"@, subject, None, Some(fresh[n].expr)));
            } else {
                assert(is_told(rest, "QUERY_FILTER_ADDED"@, subject, None, Some(fresh[n].expr)));
                let j = choose|j: int| 0 <= j < rest.len() && says(#[trigger] rest[j], "QUERY_FILTER_ADDED"@, subject, None, Some(fresh[n].expr));
                assert(all[h + j] == rest[j]);
            }
        }
        assert forall|j: int|
            #![trigger all[j]]
            0 <= j < all.len() implies exists|n: int| i <= n < fresh.len() && is_some_filter((#[trigger] fresh[n])) && says(all[j], "QUERY_FILTER_ADDED"@, subject, None, Some(fresh[n].expr)) by {
            if j < h {
                assert(is_some_filter(fresh[i]) && says(all[j], "QUERY_FILTER_ADDED"@, subject, None, Some(fresh[i].expr)));
            } else {
                assert(all[j] == rest[j - h]);
                let n = choose|n: int| i + 1 <= n < fresh.len() && is_some_filter((#[trigger] fresh[n])) && says(rest[j - h], "QUERY_FILTER_ADDED"@, subject, None, Some(fresh[n].expr));
                assert(is_some_filter(fresh[n]) && says(all[j], "QUERY_FILTER_ADDED"@, subject, None, Some(fresh[n].expr)));
            }
        }
    }
}

// ---- filters

/// How many of the filters from index `i` on have a text.
pub open spec fn times(fs: Seq<QueryFilterView>, x: Text, i: int) -> nat
    decreases fs.len() - i,
{
    if 0 <= i < fs.len() {
        (if fs[i].expr == x {
            1nat
        } else {
            0nat
        }) + times(fs, x, i + 1)
    } else {
        0
    }
}

proof fn times_with(fs: Seq<QueryFilterView>, f: QueryFilterView, x: Text, i: int)
    requires
        0 <= i <= fs.len(),
    ensures
        times(fs.push(f), x, i) == times(fs, x, i) + if f.expr == x {
            1nat
        } else {
            0nat
        },
    decreases fs.len() - i,
{
    let next = fs.push(f);
    if i < fs.len() {
        assert(next[i] == fs[i]);
        times_with(fs, f, x, i + 1);
    } else {
        assert(next[i] == f);
        assert(times(next, x, i + 1) == 0);
    }
}

proof fn times_without(fs: Seq<QueryFilterView>, k: int, x: Text, i: int)
    requires
        0 <= k < fs.len(),
        0 <= i,
    ensures
        i <= k ==> times(fs, x, i) == times(fs.remove(k), x, i) + if fs[k].expr == x {
            1nat
        } else {
            0nat
        },
        i > k ==> times(fs.remove(k), x, i) == times(fs, x, i + 1),
    decreases fs.len() - i,
{
    let next = fs.remove(k);
    if i < fs.len() {
        times_without(fs, k, x, i + 1);
        if i < k {
            assert(next[i] == fs[i]);
        } else if i == k {
            if k < next.len() {
                assert(next[k] == fs[k + 1]);
                assert(times(next, x, k) == times(fs, x, k + 1));
            } else {
                assert(times(next, x, k) == 0 && times(fs, x, k + 1) == 0);
            }
        } else if i < next.len() {
            assert(next[i] == fs[i + 1]);
        }
    }
}

proof fn filter_at_is(fs: Seq<QueryFilterView>, x: Text, i: int)
    requires
        0 <= i,
    ensures
        match filter_at(fs, x, i) {
            Some(k) => i <= k < fs.len() && fs[k].expr == x,
            None => times(fs, x, i) == 0,
        },
    decreases fs.len() - i,
{
    if i < fs.len() {
        filter_at_is(fs, x, i + 1);
    }
}

/// What is left of one number after another is taken from it.
pub open spec fn beyond(n: nat, k: nat) -> nat {
    if n > k {
        (n - k) as nat
    } else {
        0
    }
}

proof fn filters_apart_are(
    gone: Seq<QueryFilterView>,
    fresh: Seq<QueryFilterView>,
    fb: Seq<QueryFilterView>,
    i: int,
    x: Text,
)
    requires
        0 <= i,
    ensures
        times(filters_apart(gone, fresh, fb, i).0, x, 0) == beyond(
            times(gone, x, 0),
            times(fb, x, i),
        ),
        times(filters_apart(gone, fresh, fb, i).1, x, 0) == times(fresh, x, 0) + beyond(
            times(fb, x, i),
            times(gone, x, 0),
        ),
    decreases fb.len() - i,
{
    if i < fb.len() {
        filter_at_is(gone, fb[i].expr, 0);
        match filter_at(gone, fb[i].expr, 0) {
            Some(k) => {
                times_without(gone, k, x, 0);
                filters_apart_are(gone.remove(k), fresh, fb, i + 1, x);
            },
            None => {
                times_with(fresh, fb[i], x, 0);
                filters_apart_are(gone, fresh.push(fb[i]), fb, i + 1, x);
            },
        }
    }
}

spec fn olds(pairs: Seq<(QueryFilterView, QueryFilterView)>) -> Seq<QueryFilterView> {
    Seq::new(pairs.len(), |i: int| pairs[i].0)
}

spec fn news(pairs: Seq<(QueryFilterView, QueryFilterView)>) -> Seq<QueryFilterView> {
    Seq::new(pairs.len(), |i: int| pairs[i].1)
}

proof fn pair_counts(pairs: Seq<(QueryFilterView, QueryFilterView)>, p: (QueryFilterView, QueryFilterView), x: Text)
    ensures
        times(olds(pairs.push(p)), x, 0) == times(olds(pairs), x, 0) + if p.0.expr == x {
            1nat
        } else {
            0nat
        },
        times(news(pairs.push(p)), x, 0) == times(news(pairs), x, 0) + if p.1.expr == x {
            1nat
        } else {
            0nat
        },
{
    assert(olds(pairs.push(p)) =~= olds(pairs).push(p.0));
    assert(news(pairs.push(p)) =~= news(pairs).push(p.1));
    times_with(olds(pairs), p.0, x, 0);
    times_with(news(pairs), p.1, x, 0);
}

proof fn column_at_is(fs: Seq<QueryFilterView>, col: Text, i: int)
    requires
        0 <= i,
    ensures
        column_at(fs, col, i) matches Some(k) ==> i <= k < fs.len(),
    decreases fs.len() - i,
{
    if i < fs.len() {
        column_at_is(fs, col, i + 1);
    }
}

proof fn filters_paired_are(
    gone: Seq<QueryFilterView>,
    i: int,
    kept: Seq<QueryFilterView>,
    fresh: Seq<QueryFilterView>,
    pairs: Seq<(QueryFilterView, QueryFilterView)>,
    x: Text,
)
    requires
        0 <= i,
    ensures
        ({
            let (k, f, p) = filters_paired(gone, i, kept, fresh, pairs);
            &&& times(k, x, 0) + times(olds(p), x, 0) == times(kept, x, 0) + times(gone, x, i) + times(
                olds(pairs),
                x,
                0,
            )
            &&& times(f, x, 0) + times(news(p), x, 0) == times(fresh, x, 0) + times(news(pairs), x, 0)
        }),
    decreases gone.len() - i,
{
    if i < gone.len() {
        column_at_is(fresh, column(gone[i].expr), 0);
        match column_at(fresh, column(gone[i].expr), 0) {
            Some(k) => {
                times_without(fresh, k, x, 0);
                pair_counts(pairs, (gone[i], fresh[k]), x);
                filters_paired_are(
                    gone,
                    i + 1,
                    kept,
                    fresh.remove(k),
                    pairs.push((gone[i], fresh[k])),
                    x,
                );
            },
            None => {
                times_with(kept, gone[i], x, 0);
                filters_paired_are(gone, i + 1, kept.push(gone[i]), fresh, pairs, x);
            },
        }
    }
}

proof fn filters_sorted_are(fa: Seq<QueryFilterView>, fb: Seq<QueryFilterView>, x: Text)
    ensures
        ({
            let (g, f, p) = filters_sorted(fa, fb);
            &&& times(g, x, 0) + times(olds(p), x, 0) == beyond(times(fa, x, 0), times(fb, x, 0))
            &&& times(f, x, 0) + times(news(p), x, 0) == beyond(times(fb, x, 0), times(fa, x, 0))
        }),
{
    let none = Seq::<QueryFilterView>::empty();
    assert(none =~= seq![]);
    let nil = Seq::<(QueryFilterView, QueryFilterView)>::empty();
    assert(nil =~= seq![]);
    filters_apart_are(fa, none, fb, 0, x);
    let (gone, fresh) = filters_apart(fa, seq![], fb, 0);
    filters_paired_are(gone, 0, none, fresh, nil, x);
    let (g, f, p) = filters_paired(gone, 0, seq![], fresh, seq![]);
    assert(olds(nil) =~= none);
    assert(news(nil) =~= none);
    if g.len() == 1 && f.len() == 1 {
        pair_counts(p, (g[0], f[0]), x);
        assert(times(g, x, 1) == 0);
        assert(times(f, x, 1) == 0);
        assert(filters_sorted(fa, fb) == (none, none, p.push((g[0], f[0]))));
    }
}

proof fn some_has(fs: Seq<QueryFilterView>, x: Text, i: int)
    requires
        0 <= i,
    ensures
        times(fs, x, i) > 0 <==> exists|n: int| i <= n < fs.len() && (#[trigger] fs[n]).expr == x,
    decreases fs.len() - i,
{
    if i < fs.len() {
        some_has(fs, x, i + 1);
        if times(fs, x, i + 1) > 0 {
            let n = choose|n: int| i + 1 <= n < fs.len() && (#[trigger] fs[n]).expr == x;
            assert(fs[n].expr == x);
        }
        if exists|n: int| i <= n < fs.len() && (#[trigger] fs[n]).expr == x {
            let n = choose|n: int| i <= n < fs.len() && (#[trigger] fs[n]).expr == x;
            if n > i {
                assert(i + 1 <= n);
            }
        }
    }
}

/// A filter's text is told as gone: removed, or changed to one that is new.
pub open spec fn is_filter_gone(ops: Seq<OpView>, subject: Text, x: Text) -> bool {
    ||| is_told(ops, "QUERY_FILTER_REMOVED"@, subject, Some(x), None)
    ||| exists|y: Text| #[trigger]
        is_told(ops, "QUERY_FILTER_CHANGED"@, subject, Some(x), Some(y))
}

/// A filter's text is told as new: added, or what an old one was changed to.
pub open spec fn is_filter_new(ops: Seq<OpView>, subject: Text, y: Text) -> bool {
    ||| is_told(ops, "QUERY_FILTER_ADDED"@, subject, None, Some(y))
    ||| exists|x: Text| #[trigger]
        is_told(ops, "QUERY_FILTER_CHANGED"@, subject, Some(x), Some(y))
}

/// A text is told as gone exactly where the old version applied it more often than the new one
/// does, and as new exactly where the new version applies it more often.
pub proof fn filters_told_are_so(
    subject: Text,
    fa: Seq<QueryFilterView>,
    fb: Seq<QueryFilterView>,
    x: Text,
)
    ensures
        is_filter_gone(filters_changed(subject, fa, fb), subject, x) <==> times(fa, x, 0) > times(
            fb,
            x,
            0,
        ),
        is_filter_new(filters_changed(subject, fa, fb), subject, x) <==> times(fb, x, 0) > times(
            fa,
            x,
            0,
        ),
{
    let (g, f, p) = filters_sorted(fa, fb);
    filters_sorted_are(fa, fb, x);
    let t0 = filter_changes(subject, p, 0);
    let t1 = filter_losses(subject, g, 0);
    let t2 = filter_gains(subject, f, 0);
    let all = filters_changed(subject, fa, fb);
    assert(all == t0 + t1 + t2);
    changed_filters_are_exact(subject, p, 0);
    lost_filters_are_exact(subject, g, 0);
    new_filters_are_exact(subject, f, 0);
    some_has(g, x, 0);
    some_has(f, x, 0);
    some_has(olds(p), x, 0);
    some_has(news(p), x, 0);
    reveal_strlit("QUERY_FILTER_CHANGED");
    reveal_strlit("QUERY_FILTER_REMOVED");
    reveal_strlit("QUERY_FILTER_ADDED");
    assert("QUERY_FILTER_CHANGED"@[13] == 'C' && "QUERY_FILTER_REMOVED"@[13] == 'R'
        && "QUERY_FILTER_ADDED"@[13] == 'A');
    parted_told(t0, t1, t2, "QUERY_FILTER_REMOVED"@, subject, Some(x), None);
    parted_told(t0, t1, t2, "QUERY_FILTER_ADDED"@, subject, None, Some(x));
    if times(g, x, 0) > 0 {
        let n = choose|n: int| 0 <= n < g.len() && (#[trigger] g[n]).expr == x;
        assert(is_told(t1, "QUERY_FILTER_REMOVED"@, subject, Some(g[n].expr), None));
    }
    if times(f, x, 0) > 0 {
        let n = choose|n: int| 0 <= n < f.len() && (#[trigger] f[n]).expr == x;
        assert(is_told(t2, "QUERY_FILTER_ADDED"@, subject, None, Some(f[n].expr)));
    }
    if times(olds(p), x, 0) > 0 {
        let n = choose|n: int| 0 <= n < olds(p).len() && (#[trigger] olds(p)[n]).expr == x;
        assert(p[n].0.expr == x);
        let y = p[n].1.expr;
        assert(is_told(t0, "QUERY_FILTER_CHANGED"@, subject, Some(x), Some(y)));
        parted_told(t0, t1, t2, "QUERY_FILTER_CHANGED"@, subject, Some(x), Some(y));
        assert(is_told(all, "QUERY_FILTER_CHANGED"@, subject, Some(x), Some(y)));
    }
    if times(news(p), x, 0) > 0 {
        let n = choose|n: int| 0 <= n < news(p).len() && (#[trigger] news(p)[n]).expr == x;
        assert(p[n].1.expr == x);
        let y = p[n].0.expr;
        assert(is_told(t0, "QUERY_FILTER_CHANGED"@, subject, Some(y), Some(x)));
        parted_told(t0, t1, t2, "QUERY_FILTER_CHANGED"@, subject, Some(y), Some(x));
        assert(is_told(all, "QUERY_FILTER_CHANGED"@, subject, Some(y), Some(x)));
    }
    if is_told(all, "QUERY_FILTER_REMOVED"@, subject, Some(x), None) {
        told_loss_is_there(subject, p, g, f, x);
        let n = choose|n: int| 0 <= n < g.len() && (#[trigger] g[n]).expr == x;
        assert(g[n].expr == x);
    }
    if is_told(all, "QUERY_FILTER_ADDED"@, subject, None, Some(x)) {
        told_gain_is_there(subject, p, g, f, x);
        let n = choose|n: int| 0 <= n < f.len() && (#[trigger] f[n]).expr == x;
        assert(f[n].expr == x);
    }
    if exists|y: Text| #[trigger]
        is_told(all, "QUERY_FILTER_CHANGED"@, subject, Some(x), Some(y)) {
        let y = choose|y: Text| #[trigger]
            is_told(all, "QUERY_FILTER_CHANGED"@, subject, Some(x), Some(y));
        told_change_is_there(subject, p, g, f, x, y);
        let n = choose|n: int|
            0 <= n < p.len() && (#[trigger] p[n]).0.expr == x && p[n].1.expr == y;
        assert(olds(p)[n].expr == x);
    }
    if exists|y: Text| #[trigger]
        is_told(all, "QUERY_FILTER_CHANGED"@, subject, Some(y), Some(x)) {
        let y = choose|y: Text| #[trigger]
            is_told(all, "QUERY_FILTER_CHANGED"@, subject, Some(y), Some(x));
        told_change_is_there(subject, p, g, f, y, x);
        let n = choose|n: int|
            0 <= n < p.len() && (#[trigger] p[n]).0.expr == y && p[n].1.expr == x;
        assert(news(p)[n].expr == x);
    }
}

proof fn parted_told(
    t0: Seq<OpView>,
    t1: Seq<OpView>,
    t2: Seq<OpView>,
    kind: Text,
    subject: Text,
    before: Option<Text>,
    after: Option<Text>,
)
    ensures
        is_told(t0 + t1 + t2, kind, subject, before, after) == (is_told(
            t0,
            kind,
            subject,
            before,
            after,
        ) || is_told(t1, kind, subject, before, after) || is_told(t2, kind, subject, before, after)),
{
    told_in_parts(t0, t1, kind, subject, before, after);
    told_in_parts(t0 + t1, t2, kind, subject, before, after);
}

proof fn filter_kinds_differ()
    ensures
        "QUERY_FILTER_CHANGED"@ != "QUERY_FILTER_REMOVED"@,
        "QUERY_FILTER_CHANGED"@ != "QUERY_FILTER_ADDED"@,
        "QUERY_FILTER_REMOVED"@ != "QUERY_FILTER_ADDED"@,
{
    reveal_strlit("QUERY_FILTER_CHANGED");
    reveal_strlit("QUERY_FILTER_REMOVED");
    reveal_strlit("QUERY_FILTER_ADDED");
    assert("QUERY_FILTER_CHANGED"@[13] == 'C' && "QUERY_FILTER_REMOVED"@[13] == 'R'
        && "QUERY_FILTER_ADDED"@[13] == 'A');
}

proof fn told_loss_is_there(
    subject: Text,
    p: Seq<(QueryFilterView, QueryFilterView)>,
    g: Seq<QueryFilterView>,
    f: Seq<QueryFilterView>,
    x: Text,
)
    requires
        is_told(
            filter_changes(subject, p, 0) + filter_losses(subject, g, 0) + filter_gains(subject, f, 0),
            "QUERY_FILTER_REMOVED"@,
            subject,
            Some(x),
            None,
        ),
    ensures
        exists|n: int| 0 <= n < g.len() && (#[trigger] g[n]).expr == x,
{
    filter_kinds_differ();
    let t0 = filter_changes(subject, p, 0);
    let t1 = filter_losses(subject, g, 0);
    let t2 = filter_gains(subject, f, 0);
    parted_told(t0, t1, t2, "QUERY_FILTER_REMOVED"@, subject, Some(x), None);
    changed_filters_are_exact(subject, p, 0);
    lost_filters_are_exact(subject, g, 0);
    new_filters_are_exact(subject, f, 0);
    if is_told(t1, "QUERY_FILTER_REMOVED"@, subject, Some(x), None) {
        let j = choose|j: int|
            0 <= j < t1.len() && says(
                #[trigger] t1[j],
                "QUERY_FILTER_REMOVED"@,
                subject,
                Some(x),
                None,
            );
        assert(t1[j].before == Some(x));
    }
}

proof fn told_gain_is_there(
    subject: Text,
    p: Seq<(QueryFilterView, QueryFilterView)>,
    g: Seq<QueryFilterView>,
    f: Seq<QueryFilterView>,
    x: Text,
)
    requires
        is_told(
            filter_changes(subject, p, 0) + filter_losses(subject, g, 0) + filter_gains(subject, f, 0),
            "QUERY_FILTER_ADDED"@,
            subject,
            None,
            Some(x),
        ),
    ensures
        exists|n: int| 0 <= n < f.len() && (#[trigger] f[n]).expr == x,
{
    filter_kinds_differ();
    let t0 = filter_changes(subject, p, 0);
    let t1 = filter_losses(subject, g, 0);
    let t2 = filter_gains(subject, f, 0);
    parted_told(t0, t1, t2, "QUERY_FILTER_ADDED"@, subject, None, Some(x));
    changed_filters_are_exact(subject, p, 0);
    lost_filters_are_exact(subject, g, 0);
    new_filters_are_exact(subject, f, 0);
    if is_told(t2, "QUERY_FILTER_ADDED"@, subject, None, Some(x)) {
        let j = choose|j: int|
            0 <= j < t2.len() && says(
                #[trigger] t2[j],
                "QUERY_FILTER_ADDED"@,
                subject,
                None,
                Some(x),
            );
        assert(t2[j].after == Some(x));
    }
}

proof fn told_change_is_there(
    subject: Text,
    p: Seq<(QueryFilterView, QueryFilterView)>,
    g: Seq<QueryFilterView>,
    f: Seq<QueryFilterView>,
    x: Text,
    y: Text,
)
    requires
        is_told(
            filter_changes(subject, p, 0) + filter_losses(subject, g, 0) + filter_gains(subject, f, 0),
            "QUERY_FILTER_CHANGED"@,
            subject,
            Some(x),
            Some(y),
        ),
    ensures
        exists|n: int| 0 <= n < p.len() && (#[trigger] p[n]).0.expr == x && p[n].1.expr == y,
{
    filter_kinds_differ();
    let t0 = filter_changes(subject, p, 0);
    let t1 = filter_losses(subject, g, 0);
    let t2 = filter_gains(subject, f, 0);
    parted_told(t0, t1, t2, "QUERY_FILTER_CHANGED"@, subject, Some(x), Some(y));
    changed_filters_are_exact(subject, p, 0);
    lost_filters_are_exact(subject, g, 0);
    new_filters_are_exact(subject, f, 0);
    if is_told(t0, "QUERY_FILTER_CHANGED"@, subject, Some(x), Some(y)) {
        let j = choose|j: int|
            0 <= j < t0.len() && says(
                #[trigger] t0[j],
                "QUERY_FILTER_CHANGED"@,
                subject,
                Some(x),
                Some(y),
            );
        assert(t0[j].before == Some(x) && t0[j].after == Some(y));
    }
}

/// A predicate that a query of a function applies more often before the change than after it is
/// told as gone, and one that it applies more often after it is told as new, whether the body of
/// the function changed or not.
pub proof fn changed_filters_are_told(a: ModelView, b: ModelView, k: int, v: Versions, x: Text)
    requires
        is_pair(a, b, k, v),
        v.ea.parent is None,
    ensures
        times(scoped(a, matched(a, b).forward[k].0), x, 0) > times(
            scoped(b, matched(a, b).forward[k].1),
            x,
            0,
        ) ==> is_filter_gone(ops_between(a, b), matched(a, b).forward[k].1, x),
        times(scoped(b, matched(a, b).forward[k].1), x, 0) > times(
            scoped(a, matched(a, b).forward[k].0),
            x,
            0,
        ) ==> is_filter_new(ops_between(a, b), matched(a, b).forward[k].1, x),
{
    let fw = matched(a, b).forward;
    let s = fw[k].1;
    let fa = scoped(a, fw[k].0);
    let fb = scoped(b, s);
    filters_told_are_so(s, fa, fb, x);
    if times(fa, x, 0) != times(fb, x, 0) {
        times_are_counts(fa, x, 0);
        times_are_counts(fb, x, 0);
        assert(filter_texts(fa).skip(0) =~= filter_texts(fa));
        assert(filter_texts(fb).skip(0) =~= filter_texts(fb));
        sorted_is_in_sequence(filter_texts(fa));
        sorted_is_in_sequence(filter_texts(fb));
        assert(changed_pair(a, b, fw[k]) == Some((v.ea, v.eb, v.sa, v.sb)));
    }
    let all = filters_changed(s, fa, fb);
    if times(fa, x, 0) > times(fb, x, 0) {
        if is_told(all, "QUERY_FILTER_REMOVED"@, s, Some(x), None) {
            told_of_entity(
                a,
                b,
                fw,
                fw[k],
                v.ea,
                v.eb,
                v.sa,
                v.sb,
                "QUERY_FILTER_REMOVED"@,
                Some(x),
                None,
            );
            told_of_pair(a, b, k, "QUERY_FILTER_REMOVED"@, Some(x), None);
        } else {
            let y = choose|y: Text| #[trigger]
                is_told(all, "QUERY_FILTER_CHANGED"@, s, Some(x), Some(y));
            told_of_entity(
                a,
                b,
                fw,
                fw[k],
                v.ea,
                v.eb,
                v.sa,
                v.sb,
                "QUERY_FILTER_CHANGED"@,
                Some(x),
                Some(y),
            );
            told_of_pair(a, b, k, "QUERY_FILTER_CHANGED"@, Some(x), Some(y));
        }
    }
    if times(fb, x, 0) > times(fa, x, 0) {
        if is_told(all, "QUERY_FILTER_ADDED"@, s, None, Some(x)) {
            told_of_entity(
                a,
                b,
                fw,
                fw[k],
                v.ea,
                v.eb,
                v.sa,
                v.sb,
                "QUERY_FILTER_ADDED"@,
                None,
                Some(x),
            );
            told_of_pair(a, b, k, "QUERY_FILTER_ADDED"@, None, Some(x));
        } else {
            let y = choose|y: Text| #[trigger]
                is_told(all, "QUERY_FILTER_CHANGED"@, s, Some(y), Some(x));
            told_of_entity(
                a,
                b,
                fw,
                fw[k],
                v.ea,
                v.eb,
                v.sa,
                v.sb,
                "QUERY_FILTER_CHANGED"@,
                Some(y),
                Some(x),
            );
            told_of_pair(a, b, k, "QUERY_FILTER_CHANGED"@, Some(y), Some(x));
        }
    }
}

proof fn times_are_counts(fs: Seq<QueryFilterView>, x: Text, i: int)
    requires
        0 <= i <= fs.len(),
    ensures
        times(fs, x, i) == filter_texts(fs).skip(i).to_multiset().count(x),
    decreases fs.len() - i,
{
    broadcast use vstd::multiset::group_multiset_axioms;

    let ts = filter_texts(fs);
    if i < fs.len() {
        times_are_counts(fs, x, i + 1);
        assert(ts.skip(i) =~= ts.skip(i + 1).insert(0, ts[i]));
        vstd::seq_lib::to_multiset_insert(ts.skip(i + 1), 0, ts[i]);
    } else {
        let none = ts.skip(i);
        none.to_multiset_ensures();
        if none.to_multiset().count(x) > 0 {
            assert(none.contains(x));
        }
    }
}

// ---- pure refactorings

/// A transition claims to be a pure refactoring.
pub open spec fn is_claimed(a: ModelView, b: ModelView) -> bool {
    exists|j: int| 0 <= j < ops_between(a, b).len() && (#[trigger] ops_between(a, b)[j]).kind
        == "PURE_REFACTOR"@
}

proof fn claim_excludes(
    a: ModelView,
    b: ModelView,
    kind: Text,
    subject: Text,
    before: Option<Text>,
    after: Option<Text>,
)
    requires
        is_claimed(a, b),
    ensures
        !is_told(ops_between(a, b), kind, subject, before, after),
{
    crate::claims::refactor_claim_is_backed_up(a, b);
    let j = choose|j: int| 0 <= j < ops_between(a, b).len() && (#[trigger] ops_between(a, b)[j]).kind
        == "PURE_REFACTOR"@;
    assert(crate::evidence::is_claim(ops_between(a, b)[j]));
}

/// A pure refactoring is claimed only where every changed function has the same effects, checks,
/// written fields, requirements of access, answer and query predicates before and after, reads no
/// field that it did not read or write, and moves no effect in time.
pub proof fn refactorings_keep_behaviour(a: ModelView, b: ModelView, k: int, v: Versions)
    requires
        is_claimed(a, b),
        is_changed(a, b, k, v),
    ensures
        forall|e: EffectKeyView|
            (#[trigger] lookup(v.sa.effects, e) is Some) == (lookup(v.sb.effects, e) is Some),
        forall|e: EffectKeyView|
            (#[trigger] lookup(v.sa.effects, e) is Some) ==> !(is_awaited(
                lookup(v.sa.effects, e)->0,
            ) && is_deferred(lookup(v.sb.effects, e)->0)),
        forall|n: Text|
            had_check(v.sa.validations, matched(a, b).forward, n) == (#[trigger] lookup(
                v.sb.validations,
                n,
            ) is Some),
        forall|f: Text| #[trigger] v.sa.writes.contains(f) == v.sb.writes.contains(f),
        forall|f: Text|
            #[trigger] v.sb.reads.contains(f) ==> v.sa.reads.contains(f) || v.sb.writes.contains(f),
        crate::ordered::keys(v.sa.access) == crate::ordered::keys(v.sb.access),
        v.ea.returns is Some && v.eb.returns is Some ==> v.ea.returns == v.eb.returns,
        v.ea.parent is None ==> forall|x: Text|
            #[trigger] times(scoped(a, matched(a, b).forward[k].0), x, 0) == times(
                scoped(b, matched(a, b).forward[k].1),
                x,
                0,
            ),
{
    let fw = matched(a, b).forward;
    let s = fw[k].1;
    assert forall|n: Text|
        had_check(v.sa.validations, fw, n) == (#[trigger] lookup(v.sb.validations, n) is Some) by {
        changed_checks_are_told(a, b, k, v, n);
        claim_excludes(a, b, "VALIDATION_REMOVED"@, s, Some(n), None);
        claim_excludes(a, b, "VALIDATION_ADDED"@, s, None, Some(n));
    }
    assert forall|e: EffectKeyView|
        (#[trigger] lookup(v.sa.effects, e) is Some) == (lookup(v.sb.effects, e) is Some) by {
        if let Some(i) = lookup(v.sa.effects, e) {
            if lookup(v.sb.effects, e) is None {
                if went_with_checks(v, fw, i.via) {
                    let n = choose|n: Text| #[trigger] lost_check(v, fw, n);
                    assert(lookup(v.sb.validations, n) is None);
                }
                lost_effects_are_told(a, b, k, v, e, i);
                claim_excludes(a, b, "EFFECT_REMOVED"@, s, Some(effect_with_modes((e, i))), None);
            }
        }
        if let Some(i) = lookup(v.sb.effects, e) {
            if lookup(v.sa.effects, e) is None {
                new_effects_are_told(a, b, k, v, e, i);
                claim_excludes(a, b, "EFFECT_ADDED"@, s, None, Some(effect_with_modes((e, i))));
            }
        }
    }
    assert forall|e: EffectKeyView| (#[trigger] lookup(v.sa.effects, e) is Some) implies !(
    is_awaited(lookup(v.sa.effects, e)->0) && is_deferred(lookup(v.sb.effects, e)->0)) by {
        let was = lookup(v.sa.effects, e)->0;
        let is = lookup(v.sb.effects, e)->0;
        moved_effects_are_told(a, b, k, v, e, was, is);
        claim_excludes(
            a,
            b,
            "EFFECT_MADE_ASYNC"@,
            s,
            Some(effect_with_modes((e, was))),
            Some(effect_with_modes((e, is))),
        );
    }
    assert forall|f: Text| #[trigger] v.sa.writes.contains(f) == v.sb.writes.contains(f) by {
        changed_fields_are_told(a, b, k, v, f);
        no_data_told(a, b, s, f);
    }
    assert forall|f: Text| #[trigger] v.sb.reads.contains(f) implies v.sa.reads.contains(f)
        || v.sb.writes.contains(f) by {
        changed_fields_are_told(a, b, k, v, f);
        no_data_told(a, b, s, f);
    }
    if crate::ordered::keys(v.sa.access) != crate::ordered::keys(v.sb.access) {
        changed_access_is_told(a, b, k, v);
        let kind = access_word(v.sa.access, v.sb.access);
        let (x, y) = choose|x: Option<Text>, y: Option<Text>|
            #[trigger] is_told(ops_between(a, b), kind, s, x, y);
        claim_excludes(a, b, kind, s, x, y);
    }
    if v.ea.returns is Some && v.eb.returns is Some && v.ea.returns != v.eb.returns {
        let pa = v.ea.returns->0;
        let pb = v.eb.returns->0;
        changed_answers_are_told(a, b, k, v, pa, pb);
        let kind = choose|kind: Text|
            is_rightly_called(kind, pa, pb) && #[trigger] is_told(
                ops_between(a, b),
                kind,
                s,
                Some(pred_text(pa)),
                Some(pred_text(pb)),
            );
        claim_excludes(a, b, kind, s, Some(pred_text(pa)), Some(pred_text(pb)));
    }
    if v.ea.parent is None {
        assert forall|x: Text|
            #[trigger] times(scoped(a, fw[k].0), x, 0) == times(scoped(b, s), x, 0) by {
            changed_filters_are_told(a, b, k, v, x);
            no_filter_told(a, b, s, x);
        }
    }
}

proof fn no_data_told(a: ModelView, b: ModelView, s: Text, f: Text)
    requires
        is_claimed(a, b),
    ensures
        !is_gain_with(ops_between(a, b), "DATAFLOW_EXPANDED"@, s, f),
        !is_loss_with(ops_between(a, b), "DATAFLOW_RESTRICTED"@, s, f),
{
    if is_gain_with(ops_between(a, b), "DATAFLOW_EXPANDED"@, s, f) {
        let t = choose|t: Text|
            text::has_text(t, f) && #[trigger] is_told(
                ops_between(a, b),
                "DATAFLOW_EXPANDED"@,
                s,
                None,
                Some(t),
            );
        claim_excludes(a, b, "DATAFLOW_EXPANDED"@, s, None, Some(t));
    }
    if is_loss_with(ops_between(a, b), "DATAFLOW_RESTRICTED"@, s, f) {
        let t = choose|t: Text|
            text::has_text(t, f) && #[trigger] is_told(
                ops_between(a, b),
                "DATAFLOW_RESTRICTED"@,
                s,
                Some(t),
                None,
            );
        claim_excludes(a, b, "DATAFLOW_RESTRICTED"@, s, Some(t), None);
    }
}

proof fn no_filter_told(a: ModelView, b: ModelView, s: Text, x: Text)
    requires
        is_claimed(a, b),
    ensures
        !is_filter_gone(ops_between(a, b), s, x),
        !is_filter_new(ops_between(a, b), s, x),
{
    claim_excludes(a, b, "QUERY_FILTER_REMOVED"@, s, Some(x), None);
    claim_excludes(a, b, "QUERY_FILTER_ADDED"@, s, None, Some(x));
    assert forall|y: Text|
        !(#[trigger] is_told(ops_between(a, b), "QUERY_FILTER_CHANGED"@, s, Some(x), Some(y))) by {
        claim_excludes(a, b, "QUERY_FILTER_CHANGED"@, s, Some(x), Some(y));
    }
    assert forall|y: Text|
        !(#[trigger] is_told(ops_between(a, b), "QUERY_FILTER_CHANGED"@, s, Some(y), Some(x))) by {
        claim_excludes(a, b, "QUERY_FILTER_CHANGED"@, s, Some(y), Some(x));
    }
}

/// A pure refactoring is claimed wherever there is something to tell, or a changed function, and
/// all that is told is about structure and nothing about logging.
pub proof fn refactorings_are_claimed(a: ModelView, b: ModelView)
    requires
        forall|j: int|
            0 <= j < ops_between(a, b).len() ==> (#[trigger] ops_between(a, b)[j]).layer
                == Layer::Structure && ops_between(a, b)[j].kind != "LOGGING_CHANGED"@,
        ops_between(a, b).len() > 0 || exists|k: int, v: Versions| is_changed(a, b, k, v),
    ensures
        is_claimed(a, b),
{
    let m = matched(a, b);
    crate::claims::refactor_claim_is_backed_up(a, b);
    if !claims_refactor(a, b) {
        if ops_between(a, b).len() == 0 {
            let (k, v) = choose|k: int, v: Versions| is_changed(a, b, k, v);
            some_pair_changed(a, b, m.forward, 0, k);
        }
        all_structure_is_pure(
            ops_between(a, b),
            crate::behaviour::pairs_changed(a, b, m.forward, 0),
        );
    }
    let at = ops_between(a, b).len() - 1;
    assert(crate::evidence::is_claim(ops_between(a, b)[at]));
}

proof fn all_structure_is_pure(ops: Seq<OpView>, changed: nat)
    requires
        forall|j: int|
            0 <= j < ops.len() ==> (#[trigger] ops[j]).layer == Layer::Structure && ops[j].kind
                != "LOGGING_CHANGED"@,
        ops.len() > 0 || changed > 0,
    ensures
        crate::transition::is_pure(ops, changed),
{
}

proof fn some_pair_changed(
    a: ModelView,
    b: ModelView,
    forward: Seq<(Text, Text)>,
    i: int,
    k: int,
)
    requires
        0 <= i <= k < forward.len(),
        changed_pair(a, b, forward[k]) is Some,
    ensures
        crate::behaviour::pairs_changed(a, b, forward, i) > 0,
    decreases k - i,
{
    if i < k {
        some_pair_changed(a, b, forward, i + 1, k);
    }
}

} // verus!
