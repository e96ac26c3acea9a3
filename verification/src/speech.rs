//! How operations are told in sentences: what came is said to hold now, what went no longer to
//! hold, and the sentence names what it speaks of.

use crate::clauses;
use crate::ops::OpView;
use crate::phrases;
use crate::phrases::sentence_of;
use crate::text;
use crate::text::Text;
use crate::words::{
    allowed, blanked, code_lists_text, effect_text, listed, only_here, subject_name, ticked, who_of,
};
use vstd::prelude::*;

verus! {

/// The subject of an operation, as its sentence names it.
pub open spec fn subject_said(op: OpView) -> Text {
    ticked(subject_name(op.subject))
}

/// What stood before an operation.
pub open spec fn before_text(op: OpView) -> Text {
    blanked(clauses::or_empty(op.before))
}

/// What stands after an operation.
pub open spec fn after_text(op: OpView) -> Text {
    blanked(clauses::or_empty(op.after))
}

/// What stood before, as a sentence shows it.
pub open spec fn before_said(op: OpView) -> Text {
    ticked(before_text(op))
}

/// What stands after, as a sentence shows it.
pub open spec fn after_said(op: OpView) -> Text {
    ticked(after_text(op))
}

/// Operations by which a subject gains something.
pub open spec fn is_gain(kind: Text) -> bool {
    ||| kind == "QUERY_FILTER_ADDED"@
    ||| kind == "DATAFLOW_EXPANDED"@
    ||| kind == "EFFECT_ADDED"@
    ||| kind == "GUARD_ADDED"@
    ||| kind == "VALIDATION_ADDED"@
}

/// Operations by which a subject loses something.
pub open spec fn is_loss(kind: Text) -> bool {
    ||| kind == "QUERY_FILTER_REMOVED"@
    ||| kind == "DATAFLOW_RESTRICTED"@
    ||| kind == "EFFECT_REMOVED"@
    ||| kind == "GUARD_REMOVED"@
    ||| kind == "VALIDATION_REMOVED"@
}

proof fn begins_alike(s: Text, p: Text)
    requires
        p.len() > 0,
    ensures
        text::begins(s, p) ==> s[0] == p[0],
{
    if text::begins(s, p) {
        assert(s.subrange(0, p.len() as int)[0] == s[0]);
    }
}

proof fn leads(subject: Text, lead: Text, word: Text, item: Text, tail: Text)
    requires
        word.len() <= lead.len(),
        lead.take(word.len() as int) == word,
    ensures
        text::begins(subject + lead + item + tail, subject + word),
        text::has_text(subject + lead + item + tail, item),
{
    let said = subject + lead + item + tail;
    let p = subject + word;
    assert forall|i: int| 0 <= i < word.len() implies lead[i] == #[trigger] word[i] by {
        assert(lead.take(word.len() as int)[i] == lead[i]);
    }
    assert(said.subrange(0, p.len() as int) =~= p);
    let at = (subject + lead).len() as int;
    assert(said.subrange(at, at + item.len()) =~= item);
    assert(text::occurs_at(said, item, at));
}

proof fn tells_query_filter_added(op: OpView)
    requires
        op.kind == "QUERY_FILTER_ADDED"@,
    ensures
        text::begins(sentence_of(op), subject_said(op) + " now "@),
        text::has_text(sentence_of(op), after_said(op)),
{
    reveal_strlit("QUERY_FILTER_ADDED");
    reveal_strlit("AUTH_WIDENED");
    reveal_strlit("AUTH_NARROWED");
    reveal_strlit("AUTH_CHANGED");
    assert("QUERY_FILTER_ADDED"@.len() != "AUTH_WIDENED"@.len());
    assert("QUERY_FILTER_ADDED"@.len() != "AUTH_NARROWED"@.len());
    assert("QUERY_FILTER_ADDED"@.len() != "AUTH_CHANGED"@.len());
    reveal_strlit(" now only reaches rows where ");
    reveal_strlit(" now ");
    assert(" now only reaches rows where "@.take(5) =~= " now "@);
    let said = subject_said(op) + " now only reaches rows where "@ + ticked(after_text(op)) + "."@;
    assert(sentence_of(op) == said);
    leads(subject_said(op), " now only reaches rows where "@, " now "@, ticked(after_text(op)), "."@);
}

proof fn tells_query_filter_removed(op: OpView)
    requires
        op.kind == "QUERY_FILTER_REMOVED"@,
    ensures
        text::begins(sentence_of(op), subject_said(op) + " no longer "@),
        text::has_text(sentence_of(op), before_said(op)),
{
    reveal_strlit("QUERY_FILTER_REMOVED");
    reveal_strlit("AUTH_WIDENED");
    reveal_strlit("AUTH_NARROWED");
    reveal_strlit("AUTH_CHANGED");
    reveal_strlit("QUERY_FILTER_ADDED");
    assert("QUERY_FILTER_REMOVED"@.len() != "AUTH_WIDENED"@.len());
    assert("QUERY_FILTER_REMOVED"@.len() != "AUTH_NARROWED"@.len());
    assert("QUERY_FILTER_REMOVED"@.len() != "AUTH_CHANGED"@.len());
    assert("QUERY_FILTER_REMOVED"@.len() != "QUERY_FILTER_ADDED"@.len());
    reveal_strlit(" no longer filters on ");
    reveal_strlit(" no longer ");
    assert(" no longer filters on "@.take(11) =~= " no longer "@);
    let said = subject_said(op) + " no longer filters on "@ + ticked(before_text(op)) + ", so it can reach more rows."@;
    assert(sentence_of(op) == said);
    leads(subject_said(op), " no longer filters on "@, " no longer "@, ticked(before_text(op)), ", so it can reach more rows."@);
}

proof fn tells_dataflow_expanded(op: OpView)
    requires
        op.kind == "DATAFLOW_EXPANDED"@,
    ensures
        text::begins(sentence_of(op), subject_said(op) + " now "@),
{
    reveal_strlit("DATAFLOW_EXPANDED");
    reveal_strlit("AUTH_WIDENED");
    reveal_strlit("AUTH_NARROWED");
    reveal_strlit("AUTH_CHANGED");
    reveal_strlit("QUERY_FILTER_ADDED");
    reveal_strlit("QUERY_FILTER_REMOVED");
    reveal_strlit("QUERY_FILTER_CHANGED");
    assert("DATAFLOW_EXPANDED"@.len() != "AUTH_WIDENED"@.len());
    assert("DATAFLOW_EXPANDED"@.len() != "AUTH_NARROWED"@.len());
    assert("DATAFLOW_EXPANDED"@.len() != "AUTH_CHANGED"@.len());
    assert("DATAFLOW_EXPANDED"@.len() != "QUERY_FILTER_ADDED"@.len());
    assert("DATAFLOW_EXPANDED"@.len() != "QUERY_FILTER_REMOVED"@.len());
    assert("DATAFLOW_EXPANDED"@.len() != "QUERY_FILTER_CHANGED"@.len());
    reveal_strlit(" now also ");
    reveal_strlit(" now ");
    assert(" now also "@.take(5) =~= " now "@);
    let said = subject_said(op) + " now also "@ + code_lists_text(after_text(op)) + "."@;
    assert(sentence_of(op) == said);
    leads(subject_said(op), " now also "@, " now "@, code_lists_text(after_text(op)), "."@);
}

proof fn tells_dataflow_restricted(op: OpView)
    requires
        op.kind == "DATAFLOW_RESTRICTED"@,
    ensures
        text::begins(sentence_of(op), subject_said(op) + " no longer "@),
{
    reveal_strlit("DATAFLOW_RESTRICTED");
    reveal_strlit("AUTH_WIDENED");
    reveal_strlit("AUTH_NARROWED");
    reveal_strlit("AUTH_CHANGED");
    reveal_strlit("QUERY_FILTER_ADDED");
    reveal_strlit("QUERY_FILTER_REMOVED");
    reveal_strlit("QUERY_FILTER_CHANGED");
    reveal_strlit("DATAFLOW_EXPANDED");
    assert("DATAFLOW_RESTRICTED"@.len() != "AUTH_WIDENED"@.len());
    assert("DATAFLOW_RESTRICTED"@.len() != "AUTH_NARROWED"@.len());
    assert("DATAFLOW_RESTRICTED"@.len() != "AUTH_CHANGED"@.len());
    assert("DATAFLOW_RESTRICTED"@.len() != "QUERY_FILTER_ADDED"@.len());
    assert("DATAFLOW_RESTRICTED"@.len() != "QUERY_FILTER_REMOVED"@.len());
    assert("DATAFLOW_RESTRICTED"@.len() != "QUERY_FILTER_CHANGED"@.len());
    assert("DATAFLOW_RESTRICTED"@.len() != "DATAFLOW_EXPANDED"@.len());
    reveal_strlit(" no longer ");
    reveal_strlit(" no longer ");
    assert(" no longer "@.take(11) =~= " no longer "@);
    let said = subject_said(op) + " no longer "@ + code_lists_text(before_text(op)) + "."@;
    assert(sentence_of(op) == said);
    leads(subject_said(op), " no longer "@, " no longer "@, code_lists_text(before_text(op)), "."@);
}

proof fn tells_effect_added(op: OpView)
    requires
        op.kind == "EFFECT_ADDED"@,
    ensures
        text::begins(sentence_of(op), subject_said(op) + " now "@),
{
    reveal_strlit("EFFECT_ADDED");
    reveal_strlit("AUTH_WIDENED");
    reveal_strlit("AUTH_NARROWED");
    reveal_strlit("AUTH_CHANGED");
    reveal_strlit("QUERY_FILTER_ADDED");
    reveal_strlit("QUERY_FILTER_REMOVED");
    reveal_strlit("QUERY_FILTER_CHANGED");
    reveal_strlit("DATAFLOW_EXPANDED");
    reveal_strlit("DATAFLOW_RESTRICTED");
    assert("EFFECT_ADDED"@[0] != "AUTH_WIDENED"@[0]);
    assert("EFFECT_ADDED"@.len() != "AUTH_NARROWED"@.len());
    assert("EFFECT_ADDED"@[0] != "AUTH_CHANGED"@[0]);
    assert("EFFECT_ADDED"@.len() != "QUERY_FILTER_ADDED"@.len());
    assert("EFFECT_ADDED"@.len() != "QUERY_FILTER_REMOVED"@.len());
    assert("EFFECT_ADDED"@.len() != "QUERY_FILTER_CHANGED"@.len());
    assert("EFFECT_ADDED"@.len() != "DATAFLOW_EXPANDED"@.len());
    assert("EFFECT_ADDED"@.len() != "DATAFLOW_RESTRICTED"@.len());
    reveal_strlit("STATE_TRANSITION");
    assert("EFFECT_ADDED"@[0] != "STATE_TRANSITION"@[0]);
    begins_alike(op.kind, "STATE_TRANSITION"@);
    reveal_strlit(" now ");
    reveal_strlit(" now ");
    assert(" now "@.take(5) =~= " now "@);
    let said = subject_said(op) + " now "@ + effect_text(after_text(op)) + "."@;
    assert(sentence_of(op) == said);
    leads(subject_said(op), " now "@, " now "@, effect_text(after_text(op)), "."@);
}

proof fn tells_effect_removed(op: OpView)
    requires
        op.kind == "EFFECT_REMOVED"@,
    ensures
        text::begins(sentence_of(op), subject_said(op) + " no longer "@),
{
    reveal_strlit("EFFECT_REMOVED");
    reveal_strlit("AUTH_WIDENED");
    reveal_strlit("AUTH_NARROWED");
    reveal_strlit("AUTH_CHANGED");
    reveal_strlit("QUERY_FILTER_ADDED");
    reveal_strlit("QUERY_FILTER_REMOVED");
    reveal_strlit("QUERY_FILTER_CHANGED");
    reveal_strlit("DATAFLOW_EXPANDED");
    reveal_strlit("DATAFLOW_RESTRICTED");
    reveal_strlit("EFFECT_ADDED");
    assert("EFFECT_REMOVED"@.len() != "AUTH_WIDENED"@.len());
    assert("EFFECT_REMOVED"@.len() != "AUTH_NARROWED"@.len());
    assert("EFFECT_REMOVED"@.len() != "AUTH_CHANGED"@.len());
    assert("EFFECT_REMOVED"@.len() != "QUERY_FILTER_ADDED"@.len());
    assert("EFFECT_REMOVED"@.len() != "QUERY_FILTER_REMOVED"@.len());
    assert("EFFECT_REMOVED"@.len() != "QUERY_FILTER_CHANGED"@.len());
    assert("EFFECT_REMOVED"@.len() != "DATAFLOW_EXPANDED"@.len());
    assert("EFFECT_REMOVED"@.len() != "DATAFLOW_RESTRICTED"@.len());
    assert("EFFECT_REMOVED"@.len() != "EFFECT_ADDED"@.len());
    reveal_strlit("STATE_TRANSITION");
    assert("EFFECT_REMOVED"@[0] != "STATE_TRANSITION"@[0]);
    begins_alike(op.kind, "STATE_TRANSITION"@);
    reveal_strlit(" no longer ");
    reveal_strlit(" no longer ");
    assert(" no longer "@.take(11) =~= " no longer "@);
    let said = subject_said(op) + " no longer "@ + effect_text(before_text(op)) + "."@;
    assert(sentence_of(op) == said);
    leads(subject_said(op), " no longer "@, " no longer "@, effect_text(before_text(op)), "."@);
}

proof fn tells_guard_added(op: OpView)
    requires
        op.kind == "GUARD_ADDED"@,
    ensures
        text::begins(sentence_of(op), subject_said(op) + " now "@),
        text::has_text(sentence_of(op), after_said(op)),
{
    reveal_strlit("GUARD_ADDED");
    reveal_strlit("AUTH_WIDENED");
    reveal_strlit("AUTH_NARROWED");
    reveal_strlit("AUTH_CHANGED");
    reveal_strlit("QUERY_FILTER_ADDED");
    reveal_strlit("QUERY_FILTER_REMOVED");
    reveal_strlit("QUERY_FILTER_CHANGED");
    reveal_strlit("DATAFLOW_EXPANDED");
    reveal_strlit("DATAFLOW_RESTRICTED");
    reveal_strlit("EFFECT_ADDED");
    reveal_strlit("EFFECT_REMOVED");
    reveal_strlit("EFFECT_MADE_ASYNC");
    reveal_strlit("EFFECT_MADE_SYNC");
    reveal_strlit("ENTRYPOINT_ADDED");
    reveal_strlit("ENTRYPOINT_REMOVED");
    reveal_strlit("EVENT_HANDLER_ADDED");
    reveal_strlit("EVENT_HANDLER_REMOVED");
    assert("GUARD_ADDED"@.len() != "AUTH_WIDENED"@.len());
    assert("GUARD_ADDED"@.len() != "AUTH_NARROWED"@.len());
    assert("GUARD_ADDED"@.len() != "AUTH_CHANGED"@.len());
    assert("GUARD_ADDED"@.len() != "QUERY_FILTER_ADDED"@.len());
    assert("GUARD_ADDED"@.len() != "QUERY_FILTER_REMOVED"@.len());
    assert("GUARD_ADDED"@.len() != "QUERY_FILTER_CHANGED"@.len());
    assert("GUARD_ADDED"@.len() != "DATAFLOW_EXPANDED"@.len());
    assert("GUARD_ADDED"@.len() != "DATAFLOW_RESTRICTED"@.len());
    assert("GUARD_ADDED"@.len() != "EFFECT_ADDED"@.len());
    assert("GUARD_ADDED"@.len() != "EFFECT_REMOVED"@.len());
    assert("GUARD_ADDED"@.len() != "EFFECT_MADE_ASYNC"@.len());
    assert("GUARD_ADDED"@.len() != "EFFECT_MADE_SYNC"@.len());
    assert("GUARD_ADDED"@.len() != "ENTRYPOINT_ADDED"@.len());
    assert("GUARD_ADDED"@.len() != "ENTRYPOINT_REMOVED"@.len());
    assert("GUARD_ADDED"@.len() != "EVENT_HANDLER_ADDED"@.len());
    assert("GUARD_ADDED"@.len() != "EVENT_HANDLER_REMOVED"@.len());
    reveal_strlit("STATE_TRANSITION");
    assert("GUARD_ADDED"@[0] != "STATE_TRANSITION"@[0]);
    begins_alike(op.kind, "STATE_TRANSITION"@);
    reveal_strlit(" now only continues if ");
    reveal_strlit(" now ");
    assert(" now only continues if "@.take(5) =~= " now "@);
    let said = subject_said(op) + " now only continues if "@ + ticked(after_text(op)) + "."@;
    assert(sentence_of(op) == said);
    leads(subject_said(op), " now only continues if "@, " now "@, ticked(after_text(op)), "."@);
}

proof fn tells_guard_removed(op: OpView)
    requires
        op.kind == "GUARD_REMOVED"@,
    ensures
        text::begins(sentence_of(op), subject_said(op) + " no longer "@),
        text::has_text(sentence_of(op), before_said(op)),
{
    reveal_strlit("GUARD_REMOVED");
    reveal_strlit("AUTH_WIDENED");
    reveal_strlit("AUTH_NARROWED");
    reveal_strlit("AUTH_CHANGED");
    reveal_strlit("QUERY_FILTER_ADDED");
    reveal_strlit("QUERY_FILTER_REMOVED");
    reveal_strlit("QUERY_FILTER_CHANGED");
    reveal_strlit("DATAFLOW_EXPANDED");
    reveal_strlit("DATAFLOW_RESTRICTED");
    reveal_strlit("EFFECT_ADDED");
    reveal_strlit("EFFECT_REMOVED");
    reveal_strlit("EFFECT_MADE_ASYNC");
    reveal_strlit("EFFECT_MADE_SYNC");
    reveal_strlit("ENTRYPOINT_ADDED");
    reveal_strlit("ENTRYPOINT_REMOVED");
    reveal_strlit("EVENT_HANDLER_ADDED");
    reveal_strlit("EVENT_HANDLER_REMOVED");
    reveal_strlit("GUARD_ADDED");
    assert("GUARD_REMOVED"@.len() != "AUTH_WIDENED"@.len());
    assert("GUARD_REMOVED"@[0] != "AUTH_NARROWED"@[0]);
    assert("GUARD_REMOVED"@.len() != "AUTH_CHANGED"@.len());
    assert("GUARD_REMOVED"@.len() != "QUERY_FILTER_ADDED"@.len());
    assert("GUARD_REMOVED"@.len() != "QUERY_FILTER_REMOVED"@.len());
    assert("GUARD_REMOVED"@.len() != "QUERY_FILTER_CHANGED"@.len());
    assert("GUARD_REMOVED"@.len() != "DATAFLOW_EXPANDED"@.len());
    assert("GUARD_REMOVED"@.len() != "DATAFLOW_RESTRICTED"@.len());
    assert("GUARD_REMOVED"@.len() != "EFFECT_ADDED"@.len());
    assert("GUARD_REMOVED"@.len() != "EFFECT_REMOVED"@.len());
    assert("GUARD_REMOVED"@.len() != "EFFECT_MADE_ASYNC"@.len());
    assert("GUARD_REMOVED"@.len() != "EFFECT_MADE_SYNC"@.len());
    assert("GUARD_REMOVED"@.len() != "ENTRYPOINT_ADDED"@.len());
    assert("GUARD_REMOVED"@.len() != "ENTRYPOINT_REMOVED"@.len());
    assert("GUARD_REMOVED"@.len() != "EVENT_HANDLER_ADDED"@.len());
    assert("GUARD_REMOVED"@.len() != "EVENT_HANDLER_REMOVED"@.len());
    assert("GUARD_REMOVED"@.len() != "GUARD_ADDED"@.len());
    reveal_strlit("STATE_TRANSITION");
    assert("GUARD_REMOVED"@[0] != "STATE_TRANSITION"@[0]);
    begins_alike(op.kind, "STATE_TRANSITION"@);
    reveal_strlit(" no longer checks that ");
    reveal_strlit(" no longer ");
    assert(" no longer checks that "@.take(11) =~= " no longer "@);
    let said = subject_said(op) + " no longer checks that "@ + ticked(before_text(op)) + "."@;
    assert(sentence_of(op) == said);
    leads(subject_said(op), " no longer checks that "@, " no longer "@, ticked(before_text(op)), "."@);
}

proof fn tells_validation_added(op: OpView)
    requires
        op.kind == "VALIDATION_ADDED"@,
    ensures
        text::begins(sentence_of(op), subject_said(op) + " now "@),
        text::has_text(sentence_of(op), ticked(subject_name(after_text(op)))),
{
    reveal_strlit("VALIDATION_ADDED");
    reveal_strlit("AUTH_WIDENED");
    reveal_strlit("AUTH_NARROWED");
    reveal_strlit("AUTH_CHANGED");
    reveal_strlit("QUERY_FILTER_ADDED");
    reveal_strlit("QUERY_FILTER_REMOVED");
    reveal_strlit("QUERY_FILTER_CHANGED");
    reveal_strlit("DATAFLOW_EXPANDED");
    reveal_strlit("DATAFLOW_RESTRICTED");
    reveal_strlit("EFFECT_ADDED");
    reveal_strlit("EFFECT_REMOVED");
    reveal_strlit("EFFECT_MADE_ASYNC");
    reveal_strlit("EFFECT_MADE_SYNC");
    reveal_strlit("ENTRYPOINT_ADDED");
    reveal_strlit("ENTRYPOINT_REMOVED");
    reveal_strlit("EVENT_HANDLER_ADDED");
    reveal_strlit("EVENT_HANDLER_REMOVED");
    reveal_strlit("GUARD_ADDED");
    reveal_strlit("GUARD_REMOVED");
    reveal_strlit("GUARD_CHANGED");
    assert("VALIDATION_ADDED"@.len() != "AUTH_WIDENED"@.len());
    assert("VALIDATION_ADDED"@.len() != "AUTH_NARROWED"@.len());
    assert("VALIDATION_ADDED"@.len() != "AUTH_CHANGED"@.len());
    assert("VALIDATION_ADDED"@.len() != "QUERY_FILTER_ADDED"@.len());
    assert("VALIDATION_ADDED"@.len() != "QUERY_FILTER_REMOVED"@.len());
    assert("VALIDATION_ADDED"@.len() != "QUERY_FILTER_CHANGED"@.len());
    assert("VALIDATION_ADDED"@.len() != "DATAFLOW_EXPANDED"@.len());
    assert("VALIDATION_ADDED"@.len() != "DATAFLOW_RESTRICTED"@.len());
    assert("VALIDATION_ADDED"@.len() != "EFFECT_ADDED"@.len());
    assert("VALIDATION_ADDED"@.len() != "EFFECT_REMOVED"@.len());
    assert("VALIDATION_ADDED"@.len() != "EFFECT_MADE_ASYNC"@.len());
    assert("VALIDATION_ADDED"@[0] != "EFFECT_MADE_SYNC"@[0]);
    assert("VALIDATION_ADDED"@[0] != "ENTRYPOINT_ADDED"@[0]);
    assert("VALIDATION_ADDED"@.len() != "ENTRYPOINT_REMOVED"@.len());
    assert("VALIDATION_ADDED"@.len() != "EVENT_HANDLER_ADDED"@.len());
    assert("VALIDATION_ADDED"@.len() != "EVENT_HANDLER_REMOVED"@.len());
    assert("VALIDATION_ADDED"@.len() != "GUARD_ADDED"@.len());
    assert("VALIDATION_ADDED"@.len() != "GUARD_REMOVED"@.len());
    assert("VALIDATION_ADDED"@.len() != "GUARD_CHANGED"@.len());
    reveal_strlit("STATE_TRANSITION");
    assert("VALIDATION_ADDED"@[0] != "STATE_TRANSITION"@[0]);
    begins_alike(op.kind, "STATE_TRANSITION"@);
    reveal_strlit(" now runs the ");
    reveal_strlit(" now ");
    assert(" now runs the "@.take(5) =~= " now "@);
    let said = subject_said(op) + " now runs the "@ + ticked(subject_name(after_text(op))) + " check."@;
    assert(sentence_of(op) == said);
    leads(subject_said(op), " now runs the "@, " now "@, ticked(subject_name(after_text(op))), " check."@);
}

proof fn tells_validation_removed(op: OpView)
    requires
        op.kind == "VALIDATION_REMOVED"@,
    ensures
        text::begins(sentence_of(op), subject_said(op) + " no longer "@),
        text::has_text(sentence_of(op), ticked(subject_name(before_text(op)))),
{
    reveal_strlit("VALIDATION_REMOVED");
    reveal_strlit("AUTH_WIDENED");
    reveal_strlit("AUTH_NARROWED");
    reveal_strlit("AUTH_CHANGED");
    reveal_strlit("QUERY_FILTER_ADDED");
    reveal_strlit("QUERY_FILTER_REMOVED");
    reveal_strlit("QUERY_FILTER_CHANGED");
    reveal_strlit("DATAFLOW_EXPANDED");
    reveal_strlit("DATAFLOW_RESTRICTED");
    reveal_strlit("EFFECT_ADDED");
    reveal_strlit("EFFECT_REMOVED");
    reveal_strlit("EFFECT_MADE_ASYNC");
    reveal_strlit("EFFECT_MADE_SYNC");
    reveal_strlit("ENTRYPOINT_ADDED");
    reveal_strlit("ENTRYPOINT_REMOVED");
    reveal_strlit("EVENT_HANDLER_ADDED");
    reveal_strlit("EVENT_HANDLER_REMOVED");
    reveal_strlit("GUARD_ADDED");
    reveal_strlit("GUARD_REMOVED");
    reveal_strlit("GUARD_CHANGED");
    reveal_strlit("VALIDATION_ADDED");
    assert("VALIDATION_REMOVED"@.len() != "AUTH_WIDENED"@.len());
    assert("VALIDATION_REMOVED"@.len() != "AUTH_NARROWED"@.len());
    assert("VALIDATION_REMOVED"@.len() != "AUTH_CHANGED"@.len());
    assert("VALIDATION_REMOVED"@[0] != "QUERY_FILTER_ADDED"@[0]);
    assert("VALIDATION_REMOVED"@.len() != "QUERY_FILTER_REMOVED"@.len());
    assert("VALIDATION_REMOVED"@.len() != "QUERY_FILTER_CHANGED"@.len());
    assert("VALIDATION_REMOVED"@.len() != "DATAFLOW_EXPANDED"@.len());
    assert("VALIDATION_REMOVED"@.len() != "DATAFLOW_RESTRICTED"@.len());
    assert("VALIDATION_REMOVED"@.len() != "EFFECT_ADDED"@.len());
    assert("VALIDATION_REMOVED"@.len() != "EFFECT_REMOVED"@.len());
    assert("VALIDATION_REMOVED"@.len() != "EFFECT_MADE_ASYNC"@.len());
    assert("VALIDATION_REMOVED"@.len() != "EFFECT_MADE_SYNC"@.len());
    assert("VALIDATION_REMOVED"@.len() != "ENTRYPOINT_ADDED"@.len());
    assert("VALIDATION_REMOVED"@[0] != "ENTRYPOINT_REMOVED"@[0]);
    assert("VALIDATION_REMOVED"@.len() != "EVENT_HANDLER_ADDED"@.len());
    assert("VALIDATION_REMOVED"@.len() != "EVENT_HANDLER_REMOVED"@.len());
    assert("VALIDATION_REMOVED"@.len() != "GUARD_ADDED"@.len());
    assert("VALIDATION_REMOVED"@.len() != "GUARD_REMOVED"@.len());
    assert("VALIDATION_REMOVED"@.len() != "GUARD_CHANGED"@.len());
    assert("VALIDATION_REMOVED"@.len() != "VALIDATION_ADDED"@.len());
    reveal_strlit("STATE_TRANSITION");
    assert("VALIDATION_REMOVED"@[0] != "STATE_TRANSITION"@[0]);
    begins_alike(op.kind, "STATE_TRANSITION"@);
    reveal_strlit(" no longer runs the ");
    reveal_strlit(" no longer ");
    assert(" no longer runs the "@.take(11) =~= " no longer "@);
    let said = subject_said(op) + " no longer runs the "@ + ticked(subject_name(before_text(op))) + " check."@;
    assert(sentence_of(op) == said);
    leads(subject_said(op), " no longer runs the "@, " no longer "@, ticked(subject_name(before_text(op))), " check."@);
}

/// The sentence of a gain says of the subject what it does now, that of a loss what it no longer
/// does.
pub proof fn gains_and_losses_are_said(op: OpView)
    ensures
        is_gain(op.kind) ==> text::begins(sentence_of(op), subject_said(op) + " now "@),
        is_loss(op.kind) ==> text::begins(sentence_of(op), subject_said(op) + " no longer "@),
{
    if op.kind == "QUERY_FILTER_ADDED"@ {
        tells_query_filter_added(op);
    }
    if op.kind == "QUERY_FILTER_REMOVED"@ {
        tells_query_filter_removed(op);
    }
    if op.kind == "DATAFLOW_EXPANDED"@ {
        tells_dataflow_expanded(op);
    }
    if op.kind == "DATAFLOW_RESTRICTED"@ {
        tells_dataflow_restricted(op);
    }
    if op.kind == "EFFECT_ADDED"@ {
        tells_effect_added(op);
    }
    if op.kind == "EFFECT_REMOVED"@ {
        tells_effect_removed(op);
    }
    if op.kind == "GUARD_ADDED"@ {
        tells_guard_added(op);
    }
    if op.kind == "GUARD_REMOVED"@ {
        tells_guard_removed(op);
    }
    if op.kind == "VALIDATION_ADDED"@ {
        tells_validation_added(op);
    }
    if op.kind == "VALIDATION_REMOVED"@ {
        tells_validation_removed(op);
    }
}

/// What is gained and what is lost is named in the sentence.
pub proof fn what_changed_is_named(op: OpView)
    ensures
        op.kind == "GUARD_ADDED"@ || op.kind == "QUERY_FILTER_ADDED"@ ==> text::has_text(
            sentence_of(op),
            after_said(op),
        ),
        op.kind == "GUARD_REMOVED"@ || op.kind == "QUERY_FILTER_REMOVED"@ ==> text::has_text(
            sentence_of(op),
            before_said(op),
        ),
        op.kind == "VALIDATION_ADDED"@ ==> text::has_text(
            sentence_of(op),
            ticked(subject_name(after_text(op))),
        ),
        op.kind == "VALIDATION_REMOVED"@ ==> text::has_text(
            sentence_of(op),
            ticked(subject_name(before_text(op))),
        ),
{
    if op.kind == "QUERY_FILTER_ADDED"@ {
        tells_query_filter_added(op);
    }
    if op.kind == "QUERY_FILTER_REMOVED"@ {
        tells_query_filter_removed(op);
    }
    if op.kind == "GUARD_ADDED"@ {
        tells_guard_added(op);
    }
    if op.kind == "GUARD_REMOVED"@ {
        tells_guard_removed(op);
    }
    if op.kind == "VALIDATION_ADDED"@ {
        tells_validation_added(op);
    }
    if op.kind == "VALIDATION_REMOVED"@ {
        tells_validation_removed(op);
    }
}

/// A gain and a loss are never told by one sentence of one subject.
pub proof fn gain_and_loss_read_apart(p: OpView, q: OpView)
    requires
        is_gain(p.kind),
        is_loss(q.kind),
        p.subject == q.subject,
    ensures
        sentence_of(p) != sentence_of(q),
{
    gains_and_losses_are_said(p);
    gains_and_losses_are_said(q);
    reveal_strlit(" now ");
    reveal_strlit(" no longer ");
    assert(" now "@[3] == 'w' && " no longer "@[3] == ' ');
    let n = subject_said(p);
    let x = n + " now "@;
    let y = n + " no longer "@;
    let at = n.len() as int + 3;
    assert(x[at] == 'w' && y[at] == ' ');
    assert(sentence_of(p).subrange(0, x.len() as int)[at] == sentence_of(p)[at]);
    assert(sentence_of(q).subrange(0, y.len() as int)[at] == sentence_of(q)[at]);
}

/// What a state can do is said by its sentence: that it can be reached now, no longer, or only from
/// fewer states.
pub proof fn state_changes_are_said(op: OpView)
    ensures
        op.kind == "STATE_TRANSITION_ADDED"@ || op.kind == "STATE_TRANSITION_SOURCE_WIDENED"@
            ==> text::has_text(sentence_of(op), " can now become "@),
        op.kind == "STATE_TRANSITION_REMOVED"@ ==> text::has_text(
            sentence_of(op),
            " can no longer become "@,
        ),
        op.kind == "STATE_TRANSITION_SOURCE_NARROWED"@ ==> text::has_text(
            sentence_of(op),
            " only from "@,
        ),
{
    if op.kind == "STATE_TRANSITION_ADDED"@ || op.kind == "STATE_TRANSITION_SOURCE_WIDENED"@ || op.kind
        == "STATE_TRANSITION_REMOVED"@ || op.kind == "STATE_TRANSITION_SOURCE_NARROWED"@ {
        states_are_stated(op);
        state_kinds_differ();
        let (field, to) = match text::parted(op.subject, " → "@) {
            Some(p) => p,
            None => (op.subject, "?"@),
        };
        let b = phrases::or_no_set(op.before);
        let a = phrases::or_no_set(op.after);
        let via = phrases::path_of(op.note);
        if op.kind == "STATE_TRANSITION_SOURCE_WIDENED"@ {
            let x = ticked(field) + " can now become "@;
            let fresh = "{"@ + text::joined(
                only_here(phrases::states_in(a), phrases::states_in(b)),
                ", "@,
            ) + "}"@;
            second_is_said(
                ticked(field),
                " can now become "@,
                ticked(to) + " from "@ + phrases::sources(fresh) + " too"@ + via + (
                "; before, only from "@ + phrases::sources(b) + "."@),
            );
            assert(sentence_of(op) =~= x + (ticked(to) + " from "@ + phrases::sources(fresh) + " too"@
                + via + ("; before, only from "@ + phrases::sources(b) + "."@)));
        } else if op.kind == "STATE_TRANSITION_ADDED"@ {
            let rest = ticked(to) + ", from "@ + phrases::sources(a) + via + "."@;
            second_is_said(ticked(field), " can now become "@, rest);
            assert(sentence_of(op) =~= ticked(field) + " can now become "@ + rest);
        } else if op.kind == "STATE_TRANSITION_REMOVED"@ {
            let rest = ticked(to) + "."@;
            second_is_said(ticked(field), " can no longer become "@, rest);
            assert(sentence_of(op) =~= ticked(field) + " can no longer become "@ + rest);
        } else {
            let head = ticked(field) + " can become "@ + ticked(to);
            let rest = phrases::sources(a) + " now (before: "@ + (phrases::sources(b) + ")."@);
            second_is_said(head, " only from "@, rest);
            assert(sentence_of(op) =~= head + " only from "@ + rest);
        }
    }
}

proof fn second_is_said(head: Text, x: Text, rest: Text)
    ensures
        text::has_text(head + x + rest, x),
{
    let whole = head + x + rest;
    let at = head.len() as int;
    assert(whole.subrange(at, at + x.len()) =~= x);
    assert(text::occurs_at(whole, x, at));
}

proof fn state_kinds_differ()
    ensures
        "STATE_TRANSITION_ADDED"@ != "STATE_TRANSITION_SOURCE_WIDENED"@,
        "STATE_TRANSITION_ADDED"@ != "STATE_TRANSITION_SOURCE_NARROWED"@,
        "STATE_TRANSITION_REMOVED"@ != "STATE_TRANSITION_SOURCE_WIDENED"@,
        "STATE_TRANSITION_REMOVED"@ != "STATE_TRANSITION_SOURCE_NARROWED"@,
        "STATE_TRANSITION_REMOVED"@ != "STATE_TRANSITION_ADDED"@,
        "STATE_TRANSITION_SOURCE_NARROWED"@ != "STATE_TRANSITION_SOURCE_WIDENED"@,
{
    reveal_strlit("STATE_TRANSITION_ADDED");
    reveal_strlit("STATE_TRANSITION_REMOVED");
    reveal_strlit("STATE_TRANSITION_SOURCE_WIDENED");
    reveal_strlit("STATE_TRANSITION_SOURCE_NARROWED");
    assert("STATE_TRANSITION_ADDED"@.len() == 22 && "STATE_TRANSITION_REMOVED"@.len() == 24);
    assert("STATE_TRANSITION_SOURCE_WIDENED"@.len() == 31);
    assert("STATE_TRANSITION_SOURCE_NARROWED"@.len() == 32);
}

proof fn states_are_stated(op: OpView)
    requires
        op.kind == "STATE_TRANSITION_ADDED"@ || op.kind == "STATE_TRANSITION_SOURCE_WIDENED"@ || op.kind
            == "STATE_TRANSITION_REMOVED"@ || op.kind == "STATE_TRANSITION_SOURCE_NARROWED"@,
    ensures
        sentence_of(op) == phrases::state_said(op),
{
    let k = op.kind;
    reveal_strlit("STATE_TRANSITION");
    reveal_strlit("STATE_TRANSITION_ADDED");
    reveal_strlit("STATE_TRANSITION_REMOVED");
    reveal_strlit("STATE_TRANSITION_SOURCE_WIDENED");
    reveal_strlit("STATE_TRANSITION_SOURCE_NARROWED");
    assert(k.subrange(0, 16) =~= "STATE_TRANSITION"@);
    assert(text::begins(k, "STATE_TRANSITION"@));
    assert(k[0] == 'S');
    reveal_strlit("AUTH_WIDENED");
    assert("AUTH_WIDENED"@[0] == 'A');
    reveal_strlit("AUTH_NARROWED");
    assert("AUTH_NARROWED"@[0] == 'A');
    reveal_strlit("AUTH_CHANGED");
    assert("AUTH_CHANGED"@[0] == 'A');
    reveal_strlit("QUERY_FILTER_ADDED");
    assert("QUERY_FILTER_ADDED"@[0] == 'Q');
    reveal_strlit("QUERY_FILTER_REMOVED");
    assert("QUERY_FILTER_REMOVED"@[0] == 'Q');
    reveal_strlit("QUERY_FILTER_CHANGED");
    assert("QUERY_FILTER_CHANGED"@[0] == 'Q');
    reveal_strlit("DATAFLOW_EXPANDED");
    assert("DATAFLOW_EXPANDED"@[0] == 'D');
    reveal_strlit("DATAFLOW_RESTRICTED");
    assert("DATAFLOW_RESTRICTED"@[0] == 'D');
}

/// More and less access are called so.
pub proof fn access_changes_are_said(op: OpView)
    ensures
        op.kind == "AUTH_WIDENED"@ ==> text::has_text(sentence_of(op), "More access"@),
        op.kind == "AUTH_NARROWED"@ ==> text::has_text(sentence_of(op), "Less access"@),
        op.kind == "AUTH_CHANGED"@ ==> text::has_text(sentence_of(op), "Access changed"@),
{
    reveal_strlit("AUTH_WIDENED");
    reveal_strlit("AUTH_NARROWED");
    reveal_strlit("AUTH_CHANGED");
    assert("AUTH_WIDENED"@.len() == 12 && "AUTH_NARROWED"@.len() == 13 && "AUTH_CHANGED"@.len() == 12);
    assert("AUTH_WIDENED"@[5] == 'W' && "AUTH_CHANGED"@[5] == 'C');
    let n = subject_said(op);
    let b = before_text(op);
    let a = after_text(op);
    if op.kind == "AUTH_WIDENED"@ {
        assert(sentence_of(op) == phrases::widened_said(n, b, a));
        label_is_said("More access"@, n, b, a);
        reveal_strlit("**More access:** ");
        reveal_strlit("More access");
        assert("**More access:** "@.subrange(2, 13) =~= "More access"@);
        if let (Some((f, bv)), Some((f2, av))) = (allowed(b), allowed(a)) {
            if f == f2 {
                let rest = n + " now also allows "@ + who_of(f) + listed(only_here(av, bv))
                    + " (before: only "@ + listed(bv) + ")."@;
                assert(sentence_of(op) =~= "**More access:** "@ + rest);
                assert(sentence_of(op).subrange(2, 13) =~= "More access"@);
                assert(text::occurs_at(sentence_of(op), "More access"@, 2));
            }
        }
    } else if op.kind == "AUTH_NARROWED"@ {
        assert(sentence_of(op) == phrases::narrowed_said(n, b, a));
        label_is_said("Less access"@, n, b, a);
        reveal_strlit("**Less access:** ");
        reveal_strlit("Less access");
        assert("**Less access:** "@.subrange(2, 13) =~= "Less access"@);
        if let (Some((f, bv)), Some((f2, av))) = (allowed(b), allowed(a)) {
            if f == f2 {
                let rest = n + " no longer allows "@ + who_of(f) + listed(only_here(bv, av))
                    + " (now: only "@ + listed(av) + ")."@;
                assert(sentence_of(op) =~= "**Less access:** "@ + rest);
                assert(sentence_of(op).subrange(2, 13) =~= "Less access"@);
                assert(text::occurs_at(sentence_of(op), "Less access"@, 2));
            }
        }
    } else if op.kind == "AUTH_CHANGED"@ {
        label_is_said("Access changed"@, n, b, a);
    }
}

proof fn label_is_said(label: Text, n: Text, b: Text, a: Text)
    ensures
        text::has_text(phrases::access_said(label, n, b, a), label),
{
    let said = phrases::access_said(label, n, b, a);
    let lead = "**"@ + label + ":** "@ + n;
    let at = "**"@.len() as int;
    assert(lead.subrange(at, at + label.len()) =~= label);
    assert(said.len() >= lead.len());
    assert(said.take(lead.len() as int) =~= lead);
    assert forall|i: int| 0 <= i < lead.len() implies said[i] == #[trigger] lead[i] by {
        assert(said.take(lead.len() as int)[i] == said[i]);
    }
    assert(said.subrange(at, at + label.len()) =~= label);
    assert(text::occurs_at(said, label, at));
}

} // verus!
