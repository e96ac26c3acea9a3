//! What a turn of an agent's edits changed: the message that is handed back to it.

use crate::blocks;
use crate::catalog::outcome;
use crate::ir;
use crate::list;
use crate::list::Plain;
use crate::ops::{Layer, Op, OpView};
use crate::ordered;
use crate::pipeline;
use crate::render;
use crate::source::Files;
use crate::text;
use crate::text::Text;
use crate::transition::{Transition, TransitionView};
use crate::tree;
use crate::tree::{Tree, TreeView};
use crate::words;
use vstd::prelude::*;

verus! {

/// Lines of the report handed back to the agent.
pub const MAX_LINES: usize = 30;

/// What a hook has to say.
#[derive(Debug, PartialEq)]
pub enum Outcome {
    /// Nothing to say; the agent may stop.
    Quiet,
    /// Continue the turn with this message for the agent.
    Review(String),
}

/// The view of [`Outcome`].
#[verifier::ext_equal]
pub enum OutcomeView {
    Quiet,
    Review(Text),
}

impl DeepView for Outcome {
    type V = OutcomeView;

    open spec fn deep_view(&self) -> OutcomeView {
        match self {
            Outcome::Quiet => OutcomeView::Quiet,
            Outcome::Review(m) => OutcomeView::Review(m@),
        }
    }
}

// ---- the hook's input

/// A character that stays in the name of a snapshot.
pub open spec fn is_kept(c: char) -> bool {
    ('a' <= c && c <= 'z') || ('A' <= c && c <= 'Z') || ('0' <= c && c <= '9') || c == '-'
}

/// The characters from index `i` on that stay.
pub open spec fn kept_from(s: Text, i: int) -> Text
    decreases s.len() - i,
{
    if 0 <= i < s.len() {
        (if is_kept(s[i]) {
            seq![s[i]]
        } else {
            seq![]
        }) + kept_from(s, i + 1)
    } else {
        seq![]
    }
}

/// The file name of a session's snapshot.
pub open spec fn snapshot_of(input: TreeView) -> Text {
    kept_from(
        match tree::str_of(tree::field(input, "session_id"@)) {
            Some(s) => s,
            None => "default"@,
        },
        0,
    ) + ".json"@
}

/// The file name of a session's snapshot: the session's id as far as it is fit for one.
pub fn snapshot_name(input: &Tree) -> (r: String)
    ensures
        r@ == snapshot_of(input.deep_view()),
{
    let session = match input.get_str("session_id") {
        Some(s) => s,
        None => "default",
    };
    let v = text::chars_of(session);
    let mut out: Vec<char> = Vec::new();
    let mut i: usize = 0;
    while i < v.len()
        invariant
            i <= v@.len(),
            v@ == session@,
            out@ + kept_from(v@, i as int) == kept_from(session@, 0),
        decreases v@.len() - i,
    {
        let c = v[i];
        let ghost before = out@;
        if ('a' <= c && c <= 'z') || ('A' <= c && c <= 'Z') || ('0' <= c && c <= '9') || c == '-' {
            out.push(c);
            assert(out@ =~= before + seq![c]);
        } else {
            assert(before =~= before + Seq::<char>::empty());
        }
        assert(before + kept_from(v@, i as int) =~= out@ + kept_from(v@, i + 1));
        i += 1;
    }
    assert(out@ =~= kept_from(session@, 0));
    text::cat2(&text::text_of(&out, 0, out.len()), ".json")
}

/// The turn already goes on because of a hook.
pub open spec fn is_going_on(input: TreeView) -> bool {
    tree::field(input, "stop_hook_active"@) == Some(TreeView::Bool(true))
}

/// The turn already goes on because of a hook: it reports at most once per turn.
pub fn going_on(input: &Tree) -> (r: bool)
    ensures
        r == is_going_on(input.deep_view()),
{
    match input.get("stop_hook_active") {
        Some(Tree::Bool(b)) => *b,
        _ => false,
    }
}

// ---- the message

/// The operations from index `i` on that have a name of their own.
pub open spec fn named_from(ops: Seq<OpView>, i: int) -> Seq<OpView>
    decreases ops.len() - i,
{
    if 0 <= i < ops.len() {
        (if ops[i].layer != Layer::Structure && ops[i].kind != "UNCLASSIFIED_CHANGE"@ {
            seq![ops[i]]
        } else {
            seq![]
        }) + named_from(ops, i + 1)
    } else {
        seq![]
    }
}

/// What an operation changed: the text before and the one after, or the one that there is.
pub open spec fn change_text(op: OpView) -> Text {
    match (op.before, op.after) {
        (Some(b), Some(a)) => ": "@ + b + " → "@ + a,
        (None, Some(a)) => ": "@ + a,
        (Some(b), None) => ": "@ + b,
        (None, None) => ""@,
    }
}

fn say_change(op: &Op) -> (r: String)
    ensures
        r@ == change_text(op.deep_view()),
{
    match (&op.before, &op.after) {
        (Some(b), Some(a)) => text::cat4(": ", b, " → ", a),
        (None, Some(a)) => text::cat2(": ", a),
        (Some(b), None) => text::cat2(": ", b),
        (None, None) => "".to_owned(),
    }
}

/// The routes that an operation affects.
pub open spec fn routes_text(op: OpView) -> Text {
    if op.affects.len() > 0 {
        " [affects "@ + text::joined(op.affects, ", "@) + "]"@
    } else {
        ""@
    }
}

fn say_routes(op: &Op) -> (r: String)
    ensures
        r@ == routes_text(op.deep_view()),
{
    if op.affects.len() > 0 {
        text::cat3(" [affects ", &text::join(&op.affects, ", "), "]")
    } else {
        "".to_owned()
    }
}

/// The first place of an operation: after the change, else before it.
pub open spec fn place_text(op: OpView) -> Text {
    if op.evidence_after.len() > 0 {
        " ("@ + ir::loc_text(op.evidence_after[0]) + ")"@
    } else if op.evidence_before.len() > 0 {
        " ("@ + ir::loc_text(op.evidence_before[0]) + ")"@
    } else {
        ""@
    }
}

fn say_place(op: &Op) -> (r: String)
    ensures
        r@ == place_text(op.deep_view()),
{
    if op.evidence_after.len() > 0 {
        assert(op.evidence_after.deep_view()[0] == op.evidence_after@[0].deep_view());
        text::cat3(" (", &op.evidence_after[0].render(), ")")
    } else if op.evidence_before.len() > 0 {
        assert(op.evidence_before.deep_view()[0] == op.evidence_before@[0].deep_view());
        text::cat3(" (", &op.evidence_before[0].render(), ")")
    } else {
        "".to_owned()
    }
}

/// The line of an operation: its kind and subject, what changed, the routes that it affects and
/// its place.
pub open spec fn op_line(op: OpView) -> Text {
    "- "@ + op.kind + " "@ + render::short_subject(op.subject) + change_text(op) + routes_text(op)
        + place_text(op)
}

fn say_op(op: &Op) -> (r: String)
    ensures
        r@ == op_line(op.deep_view()),
{
    text::cat7(
        "- ",
        &op.kind,
        " ",
        &render::short(&op.subject),
        &say_change(op),
        &say_routes(op),
        &say_place(op),
    )
}

/// A line for each operation.
pub open spec fn op_lines(ops: Seq<OpView>) -> Seq<Text> {
    Seq::new(ops.len(), |i: int| op_line(ops[i]))
}

fn say_named(ops: &Vec<Op>) -> (r: Vec<String>)
    ensures
        r.deep_view() == op_lines(named_from(ops.deep_view(), 0)),
{
    let ghost v = ops.deep_view();
    let mut out: Vec<String> = list::empty();
    let mut i: usize = 0;
    while i < ops.len()
        invariant
            i <= ops@.len(),
            v == ops.deep_view(),
            out.deep_view() + op_lines(named_from(v, i as int)) == op_lines(named_from(v, 0)),
        decreases ops@.len() - i,
    {
        assert(v[i as int] == ops@[i as int].deep_view());
        let ghost before = out.deep_view();
        let ghost rest = named_from(v, i + 1);
        if !ops[i].layer.alike(&Layer::Structure) && !text::same(&ops[i].kind, "UNCLASSIFIED_CHANGE") {
            list::push(&mut out, say_op(&ops[i]));
            assert(op_lines(seq![v[i as int]] + rest) =~= seq![op_line(v[i as int])] + op_lines(rest));
            assert(before + op_lines(named_from(v, i as int)) =~= out.deep_view() + op_lines(rest));
        } else {
            assert(Seq::<OpView>::empty() + rest =~= rest);
        }
        i += 1;
    }
    assert(out.deep_view() =~= op_lines(named_from(v, 0)));
    out
}

/// Bullets as plain text.
pub open spec fn plain_bullets(xs: Seq<Text>) -> Seq<Text> {
    Seq::new(xs.len(), |i: int| "- "@ + text::replaced(xs[i], "**"@, ""@))
}

fn say_bullets(xs: &Vec<String>) -> (r: Vec<String>)
    ensures
        r.deep_view() == plain_bullets(xs.deep_view()),
{
    let ghost v = xs.deep_view();
    let mut out: Vec<String> = list::empty();
    let mut i: usize = 0;
    while i < xs.len()
        invariant
            i <= xs@.len(),
            v == xs.deep_view(),
            out.deep_view() == plain_bullets(v).take(i as int),
        decreases xs@.len() - i,
    {
        assert(v[i as int] == xs@[i as int]@);
        list::push(&mut out, text::cat2("- ", &text::replace(&xs[i], "**", "")));
        i += 1;
        assert(out.deep_view() =~= plain_bullets(v).take(i as int));
    }
    assert(plain_bullets(v).take(v.len() as int) =~= plain_bullets(v));
    out
}

/// What a report tells first: the contracts, or plain sentences where none accounts for the
/// change.
pub open spec fn told_first(t: TransitionView) -> Seq<Text> {
    let lines = blocks::contract_lines_from(t.contracts, 0);
    if lines.len() > 0 {
        lines
    } else {
        plain_bullets(render::bullets_of(t))
    }
}

/// The lines of a report: the contracts or sentences, and then each operation that has a name of
/// its own.
pub open spec fn report_lines(t: TransitionView) -> Seq<Text> {
    told_first(t) + op_lines(named_from(t.ops, 0))
}

/// The first lines, and how many more there are.
pub open spec fn cut_lines(lines: Seq<Text>) -> Seq<Text> {
    if lines.len() > MAX_LINES {
        lines.take(MAX_LINES as int).push(
            "- … and "@ + text::decimal((lines.len() - MAX_LINES) as nat)
                + " more (call merak_transition for all of them)"@,
        )
    } else {
        lines
    }
}

fn cut(lines: &Vec<String>) -> (r: Vec<String>)
    ensures
        r.deep_view() == cut_lines(lines.deep_view()),
{
    let n: usize = lines.len();
    let mut out = words::take_first(lines, MAX_LINES);
    if n > MAX_LINES {
        list::push(
            &mut out,
            text::cat3(
                "- … and ",
                &text::number((n - MAX_LINES) as u64),
                " more (call merak_transition for all of them)",
            ),
        );
    }
    out
}

/// The message for the agent, if the turn changed behaviour or design.
pub open spec fn reported(t: TransitionView) -> Option<Text> {
    let n = named_from(t.ops, 0).len();
    if n == 0 {
        None
    } else {
        Some(
            "Merak checked what this turn's edits do. "@ + words::counted(
                n,
                "behaviour change"@,
                "behaviour changes"@,
            ) + " the user should know about:\n"@ + text::joined(cut_lines(report_lines(t)), "\n"@)
                + "\n\nCompare these with what the user asked. Fix any that are unintended (for example access that was widened, a query filter that was removed, or a new side effect). Otherwise finish, and mention the ones that matter in your reply in plain words. Changes Merak can't classify need your own judgement. This note comes once per turn."@,
        )
    }
}

/// The message for the agent, if the turn changed behaviour or design.
///
/// Only typed changes interrupt the agent. A turn whose only residue is not classified stays
/// quiet; it is still shown on request.
pub fn report(t: &Transition) -> (r: Option<String>)
    ensures
        r.deep_view() == reported(t.deep_view()),
{
    let named = say_named(&t.ops);
    let n: usize = named.len();
    assert(named.deep_view().len() == n);
    if n == 0 {
        return None;
    }
    let mut lines = blocks::contract_lines(t);
    if lines.len() == 0 {
        lines = say_bullets(&render::bullets(t));
    }
    list::append(&mut lines, named);
    Some(
        text::cat5(
            "Merak checked what this turn's edits do. ",
            &words::plural(n, "behaviour change", "behaviour changes"),
            " the user should know about:\n",
            &text::join(&cut(&lines), "\n"),
            "\n\nCompare these with what the user asked. Fix any that are unintended (for example access that was widened, a query filter that was removed, or a new side effect). Otherwise finish, and mention the ones that matter in your reply in plain words. Changes Merak can't classify need your own judgement. This note comes once per turn.",
        ),
    )
}

// ---- a turn

/// The number of paths from index `i` on that another tree has too.
pub open spec fn shared_from(before: Seq<(Text, Text)>, after: Seq<(Text, Text)>, i: int) -> nat
    decreases before.len() - i,
{
    if 0 <= i < before.len() {
        (if ordered::lookup(after, before[i].0) is Some {
            1nat
        } else {
            0
        }) + shared_from(before, after, i + 1)
    } else {
        0
    }
}

/// Two trees are versions of one: at least half of the paths of the smaller are in both. A turn
/// edits some files; it does not replace the tree.
pub open spec fn is_one_tree(before: Seq<(Text, Text)>, after: Seq<(Text, Text)>) -> bool {
    let least = if before.len() < after.len() {
        before.len()
    } else {
        after.len()
    };
    shared_from(before, after, 0) * 2 >= least
}

fn one_tree(before: &Files, after: &Files) -> (r: bool)
    ensures
        r == is_one_tree(before.deep_view(), after.deep_view()),
{
    let ghost v = before.deep_view();
    let ghost w = after.deep_view();
    let mut n: usize = 0;
    let mut i: usize = 0;
    while i < before.len()
        invariant
            i <= v.len(),
            n <= i,
            v == before.deep_view(),
            w == after.deep_view(),
            n + shared_from(v, w, i as int) == shared_from(v, w, 0),
        decreases v.len() - i,
    {
        if after.contains_key(before.key(i)) {
            n += 1;
        }
        i += 1;
    }
    let least: usize = if before.len() < after.len() {
        before.len()
    } else {
        after.len()
    };
    n >= least || n >= least - n
}

/// What a turn has to be told of, from the files before and after it.
pub open spec fn reviewed(before: Seq<(Text, Text)>, after: Seq<(Text, Text)>) -> Result<
    OutcomeView,
    Text,
> {
    if before == after || !is_one_tree(before, after) {
        Ok(OutcomeView::Quiet)
    } else {
        match pipeline::transition_of(before, after) {
            Ok(t) => match reported(t) {
                Some(m) => Ok(OutcomeView::Review(m)),
                None => Ok(OutcomeView::Quiet),
            },
            Err(e) => Err(e),
        }
    }
}

/// What a turn has to be told of. Where most paths differ, the files are not those of one tree:
/// nothing is said rather than that every file is new.
pub fn review(before: &Files, after: &Files) -> (r: Result<Outcome, String>)
    ensures
        outcome(r) == reviewed(before.deep_view(), after.deep_view()),
{
    if before.alike(after) || !one_tree(before, after) {
        return Ok(Outcome::Quiet);
    }
    match pipeline::diff(before, after) {
        Ok(t) => match report(&t) {
            Some(m) => Ok(Outcome::Review(m)),
            None => Ok(Outcome::Quiet),
        },
        Err(e) => Err(e),
    }
}

// ---- laws

proof fn named_are_typed(ops: Seq<OpView>, i: int)
    requires
        0 <= i,
    ensures
        named_from(ops, i).len() == 0 <==> forall|k: int|
            i <= k < ops.len() ==> (#[trigger] ops[k]).layer == Layer::Structure || ops[k].kind
                == "UNCLASSIFIED_CHANGE"@,
    decreases ops.len() - i,
{
    if i < ops.len() {
        named_are_typed(ops, i + 1);
        if named_from(ops, i).len() == 0 {
            assert forall|k: int| i <= k < ops.len() implies (#[trigger] ops[k]).layer
                == Layer::Structure || ops[k].kind == "UNCLASSIFIED_CHANGE"@ by {
                if k > i {
                    assert(i + 1 <= k);
                }
            }
        }
    }
}

/// Only typed changes interrupt a turn. Structure, logging and refactors stay quiet, and so does
/// what is not classified.
pub proof fn only_typed_changes_interrupt(t: TransitionView)
    ensures
        reported(t) is None <==> forall|k: int|
            0 <= k < t.ops.len() ==> (#[trigger] t.ops[k]).layer == Layer::Structure
                || t.ops[k].kind == "UNCLASSIFIED_CHANGE"@,
{
    named_are_typed(t.ops, 0);
}

proof fn named_stay(ops: Seq<OpView>, i: int, k: int)
    requires
        0 <= i <= k < ops.len(),
        ops[k].layer != Layer::Structure,
        ops[k].kind != "UNCLASSIFIED_CHANGE"@,
    ensures
        named_from(ops, i).contains(ops[k]),
    decreases k - i,
{
    let rest = named_from(ops, i + 1);
    let all = named_from(ops, i);
    if i == k {
        assert(all[0] == ops[k]);
    } else {
        named_stay(ops, i + 1, k);
        let j = choose|j: int| 0 <= j < rest.len() && rest[j] == ops[k];
        assert(all[all.len() - rest.len() + j] == ops[k]);
    }
}

/// Each part stands in the joined text.
pub proof fn part_of_joined(parts: Seq<Text>, sep: Text, i: int, k: int)
    requires
        0 <= i <= k < parts.len(),
    ensures
        text::has_text(text::joined_from(parts, sep, i), parts[k]),
    decreases k - i,
{
    let whole = text::joined_from(parts, sep, i);
    if i == k {
        assert(whole.subrange(0, parts[k].len() as int) =~= parts[k]);
        assert(text::occurs_at(whole, parts[k], 0));
    } else {
        part_of_joined(parts, sep, i + 1, k);
        part_of_text(parts[i] + sep, text::joined_from(parts, sep, i + 1), seq![], parts[k]);
        assert(whole =~= parts[i] + sep + text::joined_from(parts, sep, i + 1) + seq![]);
    }
}

/// What stands in a text stands in a longer one.
pub proof fn part_of_text(before: Text, s: Text, after: Text, p: Text)
    requires
        text::has_text(s, p),
    ensures
        text::has_text(before + s + after, p),
{
    let n = choose|n: int| text::occurs_at(s, p, n);
    let whole = before + s + after;
    let at = before.len() + n;
    assert(whole.subrange(at, at + p.len()) =~= s.subrange(n, n + p.len()));
    assert(text::occurs_at(whole, p, at));
}

/// The message names each typed change, with its kind and subject, what stood before and what
/// stands after, the routes and the place, unless it is cut for its length.
pub proof fn typed_changes_are_named(t: TransitionView, k: int)
    requires
        0 <= k < t.ops.len(),
        t.ops[k].layer != Layer::Structure,
        t.ops[k].kind != "UNCLASSIFIED_CHANGE"@,
        report_lines(t).len() <= MAX_LINES,
    ensures
        reported(t) matches Some(m) && text::has_text(m, op_line(t.ops[k])),
{
    named_stay(t.ops, 0, k);
    let named = named_from(t.ops, 0);
    let j = choose|j: int| 0 <= j < named.len() && named[j] == t.ops[k];
    let lines = report_lines(t);
    let at = told_first(t).len() + j;
    assert(lines[at] == op_line(t.ops[k]));
    part_of_joined(lines, "\n"@, 0, at);
    let head = "Merak checked what this turn's edits do. "@ + words::counted(
        named.len(),
        "behaviour change"@,
        "behaviour changes"@,
    ) + " the user should know about:\n"@;
    let m = reported(t)->0;
    let body = text::joined(lines, "\n"@);
    let tail = m.skip((head.len() + body.len()) as int);
    assert(m =~= head + body + tail);
    part_of_text(head, body, tail, op_line(t.ops[k]));
}

/// A turn that changed no file is not interrupted.
pub proof fn idle_turns_are_quiet(files: Seq<(Text, Text)>)
    ensures
        reviewed(files, files) == Ok::<OutcomeView, Text>(OutcomeView::Quiet),
{
}

} // verus!
