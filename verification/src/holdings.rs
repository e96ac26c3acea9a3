//! What a contract holds: each parameter, requirement, check, filter, write, output and effect of
//! an entity has its item, in the row where it belongs.

use crate::clauses::{
    access_from, access_item, callee_writes_from, case_text, checks_from, effects_from,
    filters_from, guards_from, is_case, items_of, later_from, outputs_from, purity, renders_from,
    rule_item, set_change_of, takes_from, timed_effect, write_text, writes_from, writes_itself,
    ItemView,
};
use crate::ir::LocView;
use crate::model::{
    effect_text, outside_checks, AccessFactView, EffectInfoView, EffectKeyView, EntityView,
    ModelView, OutputView, QueryFilterView, SummaryView, WriteFactView,
};
use crate::nesting::scoped;
use crate::ops::{auth_pred, short_name};
use crate::ordered::{added, added_keeps_order, added_members, lookup, rising};
use crate::pred::{pred_text, PredView};
use crate::text;
use crate::text::Text;
use vstd::prelude::*;

verus! {

/// Some item of a row has this text.
pub open spec fn has_item(items: Seq<ItemView>, row: Text, said: Text) -> bool {
    exists|i: int|
        0 <= i < items.len() && (#[trigger] items[i]).row == row && items[i].text == said
}

proof fn joins(a: Seq<ItemView>, b: Seq<ItemView>, row: Text, said: Text)
    ensures
        has_item(a, row, said) || has_item(b, row, said) ==> has_item(a + b, row, said),
{
    let c = a + b;
    if has_item(a, row, said) {
        let i = choose|i: int|
            0 <= i < a.len() && (#[trigger] a[i]).row == row && a[i].text == said;
        assert(c[i] == a[i]);
    }
    if has_item(b, row, said) {
        let i = choose|i: int|
            0 <= i < b.len() && (#[trigger] b[i]).row == row && b[i].text == said;
        assert(c[a.len() + i] == b[i]);
    }
}

proof fn is_item(x: ItemView, row: Text, said: Text)
    requires
        x.row == row,
        x.text == said,
    ensures
        has_item(seq![x], row, said),
{
    assert(seq![x][0] == x);
}

proof fn takes_are_held(e: EntityView, i: int, k: int)
    requires
        0 <= i <= k < e.params.len(),
    ensures
        has_item(takes_from(e, i), "takes"@, e.params[k]),
    decreases k - i,
{
    let rest = takes_from(e, i + 1);
    let x = takes_from(e, i)[0];
    assert(takes_from(e, i) =~= seq![x] + rest);
    joins(seq![x], rest, "takes"@, e.params[k]);
    if i < k {
        takes_are_held(e, i + 1, k);
    } else {
        is_item(x, "takes"@, e.params[k]);
    }
}

proof fn access_is_held(access: Seq<(Text, AccessFactView)>, i: int, k: int)
    requires
        0 <= i <= k < access.len(),
    ensures
        has_item(access_from(access, i), "who"@, access_item(access[k].1).text),
    decreases k - i,
{
    let rest = access_from(access, i + 1);
    let x = access_item(access[i].1);
    let said = access_item(access[k].1).text;
    joins(seq![x], rest, "who"@, said);
    if i < k {
        access_is_held(access, i + 1, k);
    } else {
        is_item(x, "who"@, said);
    }
}

/// The row in which a condition stands.
pub open spec fn condition_row(p: PredView, row: Text) -> Text {
    if auth_pred(p) {
        "who"@
    } else {
        row
    }
}

proof fn guards_are_held(e: EntityView, rs: Seq<(Text, PredView, LocView)>, i: int, k: int)
    requires
        0 <= i <= k < rs.len(),
        !is_case(e.guards, rs[k].2),
    ensures
        has_item(guards_from(e, rs, i), condition_row(rs[k].1, "pre"@), pred_text(rs[k].1)),
    decreases k - i,
{
    let row = condition_row(rs[k].1, "pre"@);
    let said = pred_text(rs[k].1);
    let rest = guards_from(e, rs, i + 1);
    let all = guards_from(e, rs, i);
    if is_case(e.guards, rs[i].2) {
        assert(all =~= rest);
        guards_are_held(e, rs, i + 1, k);
    } else {
        let x = all[0];
        assert(all =~= seq![x] + rest);
        joins(seq![x], rest, row, said);
        if i < k {
            guards_are_held(e, rs, i + 1, k);
        } else {
            is_item(x, row, said);
        }
    }
}

proof fn checks_are_held(checks: Seq<(Text, LocView)>, i: int, k: int)
    requires
        0 <= i <= k < checks.len(),
    ensures
        has_item(checks_from(checks, i), "pre"@, "passes "@ + short_name(checks[k].0)),
    decreases k - i,
{
    let said = "passes "@ + short_name(checks[k].0);
    let rest = checks_from(checks, i + 1);
    let x = checks_from(checks, i)[0];
    assert(checks_from(checks, i) =~= seq![x] + rest);
    joins(seq![x], rest, "pre"@, said);
    if i < k {
        checks_are_held(checks, i + 1, k);
    } else {
        is_item(x, "pre"@, said);
    }
}

proof fn filters_are_held(filters: Seq<QueryFilterView>, i: int, seen: Seq<Text>, k: int)
    requires
        0 <= i <= k < filters.len(),
        rising(seen),
    ensures
        seen.contains(filters[k].expr) || has_item(
            filters_from(filters, i, seen),
            "where"@,
            filters[k].expr,
        ),
    decreases filters.len() - i,
{
    let said = filters[k].expr;
    let f = filters[i];
    if seen.contains(f.expr) {
        if i < k {
            filters_are_held(filters, i + 1, seen, k);
        }
    } else {
        let next = added(seen, f.expr);
        added_keeps_order(seen, f.expr);
        added_members(seen, f.expr, said);
        let rest = filters_from(filters, i + 1, next);
        let x = filters_from(filters, i, seen)[0];
        assert(filters_from(filters, i, seen) =~= seq![x] + rest);
        joins(seq![x], rest, "where"@, said);
        if said == f.expr {
            is_item(x, "where"@, said);
        } else {
            filters_are_held(filters, i + 1, next, k);
        }
    }
}

proof fn writes_are_held(writes: Seq<WriteFactView>, i: int, seen: Seq<Text>, k: int)
    requires
        0 <= i <= k < writes.len(),
        rising(seen),
    ensures
        seen.contains(write_text(writes[k])) || has_item(
            writes_from(writes, i, seen),
            "post"@,
            write_text(writes[k]),
        ),
    decreases writes.len() - i,
{
    let said = write_text(writes[k]);
    let here = write_text(writes[i]);
    if seen.contains(here) {
        if i < k {
            writes_are_held(writes, i + 1, seen, k);
        }
    } else {
        let next = added(seen, here);
        added_keeps_order(seen, here);
        added_members(seen, here, said);
        let rest = writes_from(writes, i + 1, next);
        let x = writes_from(writes, i, seen)[0];
        assert(writes_from(writes, i, seen) =~= seq![x] + rest);
        joins(seq![x], rest, "post"@, said);
        if said == here {
            is_item(x, "post"@, said);
        } else {
            writes_are_held(writes, i + 1, next, k);
        }
    }
}

proof fn callee_writes_are_held(e: EntityView, fields: Seq<Text>, i: int, k: int)
    requires
        0 <= i <= k < fields.len(),
        !writes_itself(e.writes, fields[k]),
    ensures
        has_item(
            callee_writes_from(e, fields, i),
            "post"@,
            fields[k] + " is written (by a callee)"@,
        ),
    decreases k - i,
{
    let said = fields[k] + " is written (by a callee)"@;
    let rest = callee_writes_from(e, fields, i + 1);
    let all = callee_writes_from(e, fields, i);
    if writes_itself(e.writes, fields[i]) {
        assert(all =~= rest);
        callee_writes_are_held(e, fields, i + 1, k);
    } else {
        let x = all[0];
        assert(all =~= seq![x] + rest);
        joins(seq![x], rest, "post"@, said);
        if i < k {
            callee_writes_are_held(e, fields, i + 1, k);
        } else {
            is_item(x, "post"@, said);
        }
    }
}

proof fn outputs_are_held(outputs: Seq<OutputView>, i: int, k: int)
    requires
        0 <= i <= k < outputs.len(),
    ensures
        has_item(
            outputs_from(outputs, i),
            "returns"@,
            case_text(outputs[k]) + ": "@ + outputs[k].value,
        ),
    decreases k - i,
{
    let o = outputs[i];
    let said = case_text(outputs[k]) + ": "@ + outputs[k].value;
    let rest = outputs_from(outputs, i + 1);
    let shown = renders_from(case_text(o), o.loc, o.renders, 0);
    let x = outputs_from(outputs, i)[0];
    assert(outputs_from(outputs, i) =~= seq![x] + shown + rest);
    joins(seq![x], shown, "returns"@, said);
    joins(seq![x] + shown, rest, "returns"@, said);
    if i < k {
        outputs_are_held(outputs, i + 1, k);
    } else {
        is_item(x, "returns"@, said);
    }
}

proof fn effects_are_held(effects: Seq<(EffectKeyView, EffectInfoView)>, i: int, k: int)
    requires
        0 <= i <= k < effects.len(),
    ensures
        has_item(
            effects_from(effects, i),
            "effects"@,
            timed_effect(effects[k].0, effects[k].1),
        ),
    decreases k - i,
{
    let said = timed_effect(effects[k].0, effects[k].1);
    let rest = effects_from(effects, i + 1);
    let x = effects_from(effects, i)[0];
    assert(effects_from(effects, i) =~= seq![x] + rest);
    joins(seq![x], rest, "effects"@, said);
    if i < k {
        effects_are_held(effects, i + 1, k);
    } else {
        is_item(x, "effects"@, said);
    }
}

proof fn parts_are_held(
    takes: Seq<ItemView>,
    access: Seq<ItemView>,
    rule: Seq<ItemView>,
    guards: Seq<ItemView>,
    checks: Seq<ItemView>,
    filters: Seq<ItemView>,
    writes: Seq<ItemView>,
    callee: Seq<ItemView>,
    outputs: Seq<ItemView>,
    pure: Seq<ItemView>,
    effects: Seq<ItemView>,
    row: Text,
    said: Text,
)
    requires
        has_item(takes, row, said)
            || has_item(access, row, said)
            || has_item(rule, row, said)
            || has_item(guards, row, said)
            || has_item(checks, row, said)
            || has_item(filters, row, said)
            || has_item(writes, row, said)
            || has_item(callee, row, said)
            || has_item(outputs, row, said)
            || has_item(pure, row, said)
            || has_item(effects, row, said),
    ensures
        has_item(
            takes + access + rule + guards + checks + filters + writes + callee + outputs + pure + effects,
            row,
            said,
        ),
{
    joins(takes, access, row, said);
    joins(takes + access, rule, row, said);
    joins(takes + access + rule, guards, row, said);
    joins(takes + access + rule + guards, checks, row, said);
    joins(takes + access + rule + guards + checks, filters, row, said);
    joins(takes + access + rule + guards + checks + filters, writes, row, said);
    joins(takes + access + rule + guards + checks + filters + writes, callee, row, said);
    joins(takes + access + rule + guards + checks + filters + writes + callee, outputs, row, said);
    joins(takes + access + rule + guards + checks + filters + writes + callee + outputs, pure, row, said);
    joins(takes + access + rule + guards + checks + filters + writes + callee + outputs + pure, effects, row, said);
}

proof fn items_are_parts(m: ModelView, id: Text, e: EntityView, s: SummaryView, row: Text, said: Text)
    requires
        lookup(m.entities, id) == Some(e),
        lookup(m.summaries, id) == Some(s),
        has_item(takes_from(e, 0), row, said) || has_item(access_from(s.access, 0), row, said)
            || has_item(rule_item(e), row, said) || has_item(
            guards_from(e, s.requirements, 0),
            row,
            said,
        ) || has_item(checks_from(s.validations, 0), row, said) || has_item(
            filters_from(scoped(m, id), 0, seq![]),
            row,
            said,
        ) || has_item(writes_from(e.writes, 0, seq![]), row, said) || has_item(
            callee_writes_from(e, s.writes, 0),
            row,
            said,
        ) || has_item(outputs_from(e.outputs, 0), row, said) || has_item(
            effects_from(outside_checks(m, id), 0),
            row,
            said,
        ),
    ensures
        has_item(items_of(m, id), row, said),
{
    parts_are_held(
        takes_from(e, 0),
        access_from(s.access, 0),
        rule_item(e),
        guards_from(e, s.requirements, 0),
        checks_from(s.validations, 0),
        filters_from(scoped(m, id), 0, seq![]),
        writes_from(e.writes, 0, seq![]),
        callee_writes_from(e, s.writes, 0),
        outputs_from(e.outputs, 0),
        purity(e, s),
        effects_from(outside_checks(m, id), 0),
        row,
        said,
    );
}

/// A parameter stands among what a function takes.
pub proof fn parameters_are_held(m: ModelView, id: Text, e: EntityView, s: SummaryView, k: int)
    requires
        lookup(m.entities, id) == Some(e),
        lookup(m.summaries, id) == Some(s),
        0 <= k < e.params.len(),
    ensures
        has_item(items_of(m, id), "takes"@, e.params[k]),
{
    takes_are_held(e, 0, k);
    items_are_parts(m, id, e, s, "takes"@, e.params[k]);
}

/// A requirement of access stands among who may call.
pub proof fn requirements_are_held(m: ModelView, id: Text, e: EntityView, s: SummaryView, k: int)
    requires
        lookup(m.entities, id) == Some(e),
        lookup(m.summaries, id) == Some(s),
        0 <= k < s.access.len(),
    ensures
        has_item(items_of(m, id), "who"@, access_item(s.access[k].1).text),
{
    access_is_held(s.access, 0, k);
    items_are_parts(m, id, e, s, "who"@, access_item(s.access[k].1).text);
}

/// A condition that calls go through stands among what is checked first, or among who may call
/// where it speaks of the caller, unless it chooses what is returned.
pub proof fn conditions_are_held(m: ModelView, id: Text, e: EntityView, s: SummaryView, k: int)
    requires
        lookup(m.entities, id) == Some(e),
        lookup(m.summaries, id) == Some(s),
        0 <= k < s.requirements.len(),
        !is_case(e.guards, s.requirements[k].2),
    ensures
        has_item(items_of(m, id), condition_row(s.requirements[k].1, "pre"@), pred_text(s.requirements[k].1)),
{
    guards_are_held(e, s.requirements, 0, k);
    items_are_parts(m, id, e, s, condition_row(s.requirements[k].1, "pre"@), pred_text(s.requirements[k].1));
}

/// A check stands by its name among what is checked first.
pub proof fn checks_are_held_by_name(m: ModelView, id: Text, e: EntityView, s: SummaryView, k: int)
    requires
        lookup(m.entities, id) == Some(e),
        lookup(m.summaries, id) == Some(s),
        0 <= k < s.validations.len(),
    ensures
        has_item(items_of(m, id), "pre"@, "passes "@ + short_name(s.validations[k].0)),
{
    checks_are_held(s.validations, 0, k);
    items_are_parts(m, id, e, s, "pre"@, "passes "@ + short_name(s.validations[k].0));
}

/// A filter of a query stands among what rows are reached.
pub proof fn filters_of_queries_are_held(m: ModelView, id: Text, e: EntityView, s: SummaryView, k: int)
    requires
        lookup(m.entities, id) == Some(e),
        lookup(m.summaries, id) == Some(s),
        0 <= k < scoped(m, id).len(),
    ensures
        has_item(items_of(m, id), "where"@, scoped(m, id)[k].expr),
{
    let none = Seq::<Text>::empty();
    assert(none =~= seq![]);
    filters_are_held(scoped(m, id), 0, none, k);
    items_are_parts(m, id, e, s, "where"@, scoped(m, id)[k].expr);
}

/// A write stands among what holds afterwards.
pub proof fn own_writes_are_held(m: ModelView, id: Text, e: EntityView, s: SummaryView, k: int)
    requires
        lookup(m.entities, id) == Some(e),
        lookup(m.summaries, id) == Some(s),
        0 <= k < e.writes.len(),
    ensures
        has_item(items_of(m, id), "post"@, write_text(e.writes[k])),
{
    let none = Seq::<Text>::empty();
    assert(none =~= seq![]);
    writes_are_held(e.writes, 0, none, k);
    items_are_parts(m, id, e, s, "post"@, write_text(e.writes[k]));
}

/// A field that only callees write stands among what holds afterwards.
pub proof fn writes_of_callees_are_held(m: ModelView, id: Text, e: EntityView, s: SummaryView, k: int)
    requires
        lookup(m.entities, id) == Some(e),
        lookup(m.summaries, id) == Some(s),
        0 <= k < s.writes.len(),
        !writes_itself(e.writes, s.writes[k]),
    ensures
        has_item(items_of(m, id), "post"@, s.writes[k] + " is written (by a callee)"@),
{
    callee_writes_are_held(e, s.writes, 0, k);
    items_are_parts(m, id, e, s, "post"@, s.writes[k] + " is written (by a callee)"@);
}

/// A value that is returned stands with its case among what is returned.
pub proof fn returned_values_are_held(m: ModelView, id: Text, e: EntityView, s: SummaryView, k: int)
    requires
        lookup(m.entities, id) == Some(e),
        lookup(m.summaries, id) == Some(s),
        0 <= k < e.outputs.len(),
    ensures
        has_item(items_of(m, id), "returns"@, case_text(e.outputs[k]) + ": "@ + e.outputs[k].value),
{
    outputs_are_held(e.outputs, 0, k);
    items_are_parts(m, id, e, s, "returns"@, case_text(e.outputs[k]) + ": "@ + e.outputs[k].value);
}

/// An effect stands among the effects, with its time.
pub proof fn effects_outside_checks_are_held(m: ModelView, id: Text, e: EntityView, s: SummaryView, k: int)
    requires
        lookup(m.entities, id) == Some(e),
        lookup(m.summaries, id) == Some(s),
        0 <= k < outside_checks(m, id).len(),
    ensures
        has_item(items_of(m, id), "effects"@, timed_effect(outside_checks(m, id)[k].0, outside_checks(m, id)[k].1)),
{
    effects_are_held(outside_checks(m, id), 0, k);
    items_are_parts(m, id, e, s, "effects"@, timed_effect(outside_checks(m, id)[k].0, outside_checks(m, id)[k].1));
}

/// The returned rule stands in its row with its text.
pub proof fn returned_rules_are_held(m: ModelView, id: Text, e: EntityView, s: SummaryView, r: PredView)
    requires
        lookup(m.entities, id) == Some(e),
        lookup(m.summaries, id) == Some(s),
        e.returns == Some(r),
    ensures
        has_item(items_of(m, id), condition_row(r, "returns"@), pred_text(r)),
{
    let x = rule_item(e)[0];
    assert(rule_item(e) =~= seq![x]);
    is_item(x, condition_row(r, "returns"@), pred_text(r));
    items_are_parts(m, id, e, s, condition_row(r, "returns"@), pred_text(r));
}

/// A change of a set of values is called widened where every value before is one after, and
/// narrowed where that fails and every value after was one before.
pub proof fn set_changes_are_called_rightly(before: Text, after: Text, f: Text, a: Seq<Text>, b: Seq<Text>)
    requires
        crate::clauses::membership(before) == Some((f, a)),
        crate::clauses::membership(after) == Some((f, b)),
    ensures
        set_change_of(before, after) == "widened"@ <==> forall|v: Text|
            #[trigger] a.contains(v) ==> b.contains(v),
        set_change_of(before, after) == "narrowed"@ <==> (forall|v: Text|
            #[trigger] b.contains(v) ==> a.contains(v)) && exists|v: Text|
            #[trigger] a.contains(v) && !b.contains(v),
{
    reveal_strlit("widened");
    reveal_strlit("narrowed");
    reveal_strlit("changed");
    assert("widened"@[0] == 'w' && "narrowed"@[0] == 'n' && "changed"@[0] == 'c');
    all_within(a, b);
    all_within(b, a);
}

proof fn all_within(a: Seq<Text>, b: Seq<Text>)
    ensures
        crate::ordered::within(a, b) <==> forall|v: Text| #[trigger] a.contains(v) ==> b.contains(v),
{
    if forall|v: Text| #[trigger] a.contains(v) ==> b.contains(v) {
        assert forall|i: int| 0 <= i < a.len() implies b.contains(#[trigger] a[i]) by {
            assert(a.contains(a[i]));
        }
    }
}

proof fn later_is_any(modes: Seq<Text>, i: int)
    requires
        0 <= i,
    ensures
        later_from(modes, i).len() == 0 <==> forall|k: int|
            i <= k < modes.len() ==> !text::begins(#[trigger] modes[k], "async"@),
    decreases modes.len() - i,
{
    if i < modes.len() {
        later_is_any(modes, i + 1);
        if later_from(modes, i).len() == 0 {
            assert(!text::begins(modes[i], "async"@));
        }
    }
}

/// An effect that never happens right away is told apart from one that does.
pub proof fn delays_are_said(k: EffectKeyView, info: EffectInfoView)
    ensures
        text::begins(timed_effect(k, info), effect_text(k)),
        timed_effect(k, info) == effect_text(k) <==> info.modes.contains("sync"@) || forall|j: int|
            0 <= j < info.modes.len() ==> !text::begins(#[trigger] info.modes[j], "async"@),
{
    later_is_any(info.modes, 0);
    let said = timed_effect(k, info);
    let x = effect_text(k);
    reveal_strlit(" (");
    assert(" ("@.len() == 2);
    assert(said.subrange(0, x.len() as int) =~= x);
    assert(text::occurs_at(said, x, 0));
    if !(later_from(info.modes, 0).len() == 0 || info.modes.contains("sync"@)) {
        assert(said.len() > x.len());
    }
}

} // verus!
