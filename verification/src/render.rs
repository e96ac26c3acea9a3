//! A transition for people.
//!
//! [`markdown`] is the default view: a one-line summary, then plain sentences grouped by what a
//! reader cares about (access, data, effects, checks, new code), with the routes that each change
//! reaches and one place to look. [`detailed`] lists every operation as it was derived.

use crate::clauses;
use crate::ir;
use crate::ir::{Loc, LocView};
use crate::list;
use crate::list::Plain;
use crate::model::Origin;
use crate::ops::{Layer, Op, OpView};
use crate::ordered;
use crate::ordered::{SortedMap, SortedSet};
use crate::phrases;
use crate::text;
use crate::text::Text;
use crate::transition;
use crate::transition::{Transition, TransitionView};
use crate::words;
use crate::words::{all_ticked, counted, described, first, more_than, subject_name, ticked};
use vstd::prelude::*;

verus! {

// ---- lines

/// The lines from index `i` on, each with its end.
pub open spec fn lines_from(lines: Seq<Text>, i: int) -> Text
    decreases lines.len() - i,
{
    if 0 <= i < lines.len() {
        lines[i] + "\n"@ + lines_from(lines, i + 1)
    } else {
        seq![]
    }
}

/// Lines as a text.
pub open spec fn unlined(lines: Seq<Text>) -> Text {
    lines_from(lines, 0)
}

/// Lines as a text.
pub fn unlines(lines: &Vec<String>) -> (r: String)
    ensures
        r@ == unlined(lines.deep_view()),
{
    let ghost v = lines.deep_view();
    let mut out = String::new();
    let mut i: usize = 0;
    while i < lines.len()
        invariant
            i <= lines@.len(),
            v == lines.deep_view(),
            out@ + lines_from(v, i as int) == unlined(v),
        decreases lines@.len() - i,
    {
        assert(v[i as int] == lines@[i as int]@);
        let ghost before = out@;
        out = text::cat3(&out, &lines[i], "\n");
        assert(before + lines_from(v, i as int) =~= out@ + lines_from(v, i + 1));
        i += 1;
    }
    assert(out@ =~= unlined(v));
    out
}

/// Texts as a list.
fn texts(xs: Vec<&str>) -> (r: Vec<String>)
    ensures
        r.deep_view() == Seq::new(xs@.len(), |i: int| xs@[i]@),
{
    let mut out: Vec<String> = list::empty();
    let mut i: usize = 0;
    while i < xs.len()
        invariant
            i <= xs@.len(),
            out.deep_view() == Seq::new(i as nat, |i: int| xs@[i]@),
        decreases xs@.len() - i,
    {
        list::push(&mut out, xs[i].to_owned());
        i += 1;
        assert(out.deep_view() =~= Seq::new(i as nat, |i: int| xs@[i]@));
    }
    out
}

// ---- every operation

/// The heading of a layer.
pub open spec fn layer_title(l: Layer) -> Text {
    match l {
        Layer::Behaviour => "Behaviour"@,
        Layer::Design => "Design"@,
        Layer::Structure => "Structure"@,
    }
}

/// Names without their files.
pub open spec fn locals(xs: Seq<Text>) -> Seq<Text> {
    Seq::new(xs.len(), |i: int| text::after_last(xs[i], "::"@))
}

fn local_names(xs: &Vec<String>) -> (r: Vec<String>)
    ensures
        r.deep_view() == locals(xs.deep_view()),
{
    let ghost v = xs.deep_view();
    let mut out: Vec<String> = list::empty();
    let mut i: usize = 0;
    while i < xs.len()
        invariant
            i <= xs@.len(),
            v == xs.deep_view(),
            out.deep_view() == locals(v).take(i as int),
        decreases xs@.len() - i,
    {
        assert(v[i as int] == xs@[i as int]@);
        list::push(&mut out, text::last_piece(&xs[i], "::"));
        i += 1;
        assert(out.deep_view() =~= locals(v).take(i as int));
    }
    assert(locals(v).take(v.len() as int) =~= locals(v));
    out
}

/// A subject without files.
pub open spec fn short_subject(s: Text) -> Text {
    text::joined(locals(text::pieces(s, " → "@)), " → "@)
}

/// A subject without files.
pub fn short(s: &str) -> (r: String)
    ensures
        r@ == short_subject(s@),
{
    text::join(&local_names(&text::split(s, " → ")), " → ")
}

/// Places in code font, each followed by `mark`.
pub open spec fn places(locs: Seq<LocView>, mark: Text) -> Seq<Text> {
    Seq::new(locs.len(), |i: int| ticked(ir::loc_text(locs[i])) + mark)
}

fn say_places(locs: &Vec<Loc>, mark: &str) -> (r: Vec<String>)
    ensures
        r.deep_view() == places(locs.deep_view(), mark@),
{
    let ghost v = locs.deep_view();
    let mut out: Vec<String> = list::empty();
    let mut i: usize = 0;
    while i < locs.len()
        invariant
            i <= locs@.len(),
            v == locs.deep_view(),
            out.deep_view() == places(v, mark@).take(i as int),
        decreases locs@.len() - i,
    {
        assert(v[i as int] == locs@[i as int].deep_view());
        list::push(&mut out, text::cat2(&words::tick(&locs[i].render()), mark));
        i += 1;
        assert(out.deep_view() =~= places(v, mark@).take(i as int));
    }
    assert(places(v, mark@).take(v.len() as int) =~= places(v, mark@));
    out
}

/// The lines for what an operation was and is.
pub open spec fn change_lines(b: Option<Text>, a: Option<Text>) -> Seq<Text> {
    match (b, a) {
        (Some(b), Some(a)) => seq!["  - before: "@ + b, "  - after: "@ + a],
        (Some(b), None) => seq!["  - was: "@ + b],
        (None, Some(a)) => seq!["  - now: "@ + a],
        (None, None) => seq![],
    }
}

fn say_change(b: &Option<String>, a: &Option<String>) -> (r: Vec<String>)
    ensures
        r.deep_view() == change_lines(b.deep_view(), a.deep_view()),
{
    match (b, a) {
        (Some(b), Some(a)) => {
            let mut out = list::one(text::cat2("  - before: ", b));
            list::push(&mut out, text::cat2("  - after: ", a));
            assert(out.deep_view() =~= seq!["  - before: "@ + b@, "  - after: "@ + a@]);
            out
        },
        (Some(b), None) => list::one(text::cat2("  - was: ", b)),
        (None, Some(a)) => list::one(text::cat2("  - now: ", a)),
        (None, None) => list::empty(),
    }
}

/// The line for the evidence of an operation: up to four places after the change, else before.
pub open spec fn evidence_lines(op: OpView) -> Seq<Text> {
    let ev = if op.evidence_after.len() > 0 {
        places(op.evidence_after, ""@)
    } else {
        places(op.evidence_before, " (before)"@)
    };
    if ev.len() > 0 {
        seq!["  - evidence: "@ + text::joined(first(ev, 4), ", "@)]
    } else {
        seq![]
    }
}

fn say_evidence(op: &Op) -> (r: Vec<String>)
    ensures
        r.deep_view() == evidence_lines(op.deep_view()),
{
    let ev = if op.evidence_after.len() > 0 {
        say_places(&op.evidence_after, "")
    } else {
        say_places(&op.evidence_before, " (before)")
    };
    if ev.len() > 0 {
        list::one(text::cat2("  - evidence: ", &text::join(&words::take_first(&ev, 4), ", ")))
    } else {
        list::empty()
    }
}

/// A number of hundredths as a decimal fraction.
pub open spec fn fraction(hundredths: nat) -> Text {
    text::decimal(hundredths / 100) + "."@ + text::decimal((hundredths / 10) % 10) + text::decimal(
        hundredths % 10,
    )
}

fn say_fraction(hundredths: u32) -> (r: String)
    ensures
        r@ == fraction(hundredths as nat),
{
    let n: u64 = hundredths as u64;
    text::cat4(
        &text::number(n / 100),
        ".",
        &text::number((n / 10) % 10),
        &text::number(n % 10),
    )
}

/// The line for where an operation comes from.
pub open spec fn origin_lines(op: OpView) -> Seq<Text> {
    match op.origin {
        Origin::Static => seq![],
        Origin::Declared => seq!["  - origin: declared in merak.toml"@],
        Origin::Inferred => seq![
            "  - origin: inferred, confidence "@ + fraction(op.confidence as nat),
        ],
    }
}

fn say_origin(op: &Op) -> (r: Vec<String>)
    ensures
        r.deep_view() == origin_lines(op.deep_view()),
{
    match op.origin {
        Origin::Static => list::empty(),
        Origin::Declared => list::one("  - origin: declared in merak.toml".to_owned()),
        Origin::Inferred => list::one(
            text::cat2("  - origin: inferred, confidence ", &say_fraction(op.confidence)),
        ),
    }
}

/// The line for the note of an operation, and the one for the routes that it affects.
pub open spec fn note_lines(op: OpView) -> Seq<Text> {
    (match op.note {
        Some(n) => seq!["  - "@ + n],
        None => seq![],
    }) + (if op.affects.len() > 0 {
        seq!["  - affects: "@ + text::joined(all_ticked(op.affects), ", "@)]
    } else {
        seq![]
    })
}

fn say_note(op: &Op) -> (r: Vec<String>)
    ensures
        r.deep_view() == note_lines(op.deep_view()),
{
    let mut out: Vec<String> = match &op.note {
        Some(n) => list::one(text::cat2("  - ", n)),
        None => list::empty(),
    };
    if op.affects.len() > 0 {
        list::push(
            &mut out,
            text::cat2("  - affects: ", &text::join(&words::tick_all(&op.affects), ", ")),
        );
    }
    assert(out.deep_view() =~= note_lines(op.deep_view()));
    out
}

/// The lines of one operation.
pub open spec fn op_lines(op: OpView) -> Seq<Text> {
    seq![
        "- **"@ + phrases::kind_title(op.kind) + "** "@ + ticked(short_subject(op.subject)),
    ] + change_lines(op.before, op.after) + note_lines(op) + evidence_lines(op) + origin_lines(op)
}

fn say_op(op: &Op) -> (r: Vec<String>)
    ensures
        r.deep_view() == op_lines(op.deep_view()),
{
    let mut out = list::one(
        text::cat4("- **", &phrases::title(&op.kind), "** ", &words::tick(&short(&op.subject))),
    );
    list::append(&mut out, say_change(&op.before, &op.after));
    list::append(&mut out, say_note(op));
    list::append(&mut out, say_evidence(op));
    list::append(&mut out, say_origin(op));
    out
}

/// The operations of a layer from index `i` on.
pub open spec fn of_layer_from(ops: Seq<OpView>, l: Layer, i: int) -> Seq<OpView>
    decreases ops.len() - i,
{
    if 0 <= i < ops.len() {
        (if ops[i].layer == l {
            seq![ops[i]]
        } else {
            seq![]
        }) + of_layer_from(ops, l, i + 1)
    } else {
        seq![]
    }
}

fn of_layer<'a>(ops: &'a Vec<Op>, l: Layer) -> (r: Vec<&'a Op>)
    ensures
        r.deep_view() == of_layer_from(ops.deep_view(), l, 0),
{
    let ghost v = ops.deep_view();
    let mut out: Vec<&'a Op> = list::empty();
    let mut i: usize = 0;
    while i < ops.len()
        invariant
            i <= ops@.len(),
            v == ops.deep_view(),
            out.deep_view() + of_layer_from(v, l, i as int) == of_layer_from(v, l, 0),
        decreases ops@.len() - i,
    {
        assert(v[i as int] == ops@[i as int].deep_view());
        if ops[i].layer.alike(&l) {
            list::push(&mut out, &ops[i]);
        }
        i += 1;
    }
    out
}

/// The lines of the operations from index `i` on.
pub open spec fn all_lines_from(ops: Seq<OpView>, i: int) -> Seq<Text>
    decreases ops.len() - i,
{
    if 0 <= i < ops.len() {
        op_lines(ops[i]) + all_lines_from(ops, i + 1)
    } else {
        seq![]
    }
}

/// The lines of a layer; none where it has no operations.
pub open spec fn layer_lines(ops: Seq<OpView>, l: Layer) -> Seq<Text> {
    let inside = of_layer_from(ops, l, 0);
    if inside.len() == 0 {
        seq![]
    } else {
        seq!["### "@ + layer_title(l), ""@] + all_lines_from(inside, 0) + seq![""@]
    }
}

fn say_layer(ops: &Vec<Op>, l: Layer) -> (r: Vec<String>)
    ensures
        r.deep_view() == layer_lines(ops.deep_view(), l),
{
    let inside = of_layer(ops, l);
    if inside.len() == 0 {
        return list::empty();
    }
    let name = match l {
        Layer::Behaviour => "Behaviour",
        Layer::Design => "Design",
        Layer::Structure => "Structure",
    };
    let mut out = list::one(text::cat2("### ", name));
    list::push(&mut out, "".to_owned());
    assert(out.deep_view() =~= seq!["### "@ + layer_title(l), ""@]);
    let ghost lead = out.deep_view();
    let ghost v = inside.deep_view();
    let mut i: usize = 0;
    while i < inside.len()
        invariant
            i <= inside@.len(),
            v == inside.deep_view(),
            out.deep_view() + all_lines_from(v, i as int) == lead + all_lines_from(v, 0),
        decreases inside@.len() - i,
    {
        assert(v[i as int] == inside@[i as int].deep_view());
        let ghost before = out.deep_view();
        list::append(&mut out, say_op(inside[i]));
        assert(before + all_lines_from(v, i as int) =~= out.deep_view() + all_lines_from(v, i + 1));
        i += 1;
    }
    assert(out.deep_view() =~= lead + all_lines_from(v, 0));
    list::push(&mut out, "".to_owned());
    assert(out.deep_view() =~= lead + all_lines_from(v, 0) + seq![""@]);
    out
}

/// A header behind a title.
pub open spec fn headed(title: Text, header: Option<Text>, open: Text, close: Text) -> Text {
    title + (match header {
        Some(h) => open + h + close,
        None => ""@,
    })
}

/// A header behind a title.
pub fn with_header(title: &str, header: Option<&str>, open: &str, close: &str) -> (r: String)
    ensures
        r@ == headed(title@, header.deep_view(), open@, close@),
{
    match header {
        Some(h) => text::cat2(title, &text::cat3(open, h, close)),
        None => text::cat2(title, ""),
    }
}

/// Every operation, as lines.
pub open spec fn detailed_lines(t: TransitionView, header: Option<Text>) -> Seq<Text> {
    seq![
        headed("## Semantic transition"@, header, " — "@, ""@),
        ""@,
        text::decimal(transition::behavioural_from(t.ops, 0).len())
            + " behavioural/design change(s) across "@ + text::decimal(
            t.stats.entities_changed as nat,
        ) + " changed entit"@ + (if t.stats.entities_changed == 1 {
            "y"@
        } else {
            "ies"@
        }) + "."@,
        ""@,
    ] + (if t.ops.len() == 0 {
        seq!["_No semantic change detected._"@]
    } else {
        layer_lines(t.ops, Layer::Behaviour) + layer_lines(t.ops, Layer::Design) + layer_lines(
            t.ops,
            Layer::Structure,
        )
    })
}

/// Every operation, as derived.
pub fn detailed(t: &Transition, header: Option<&str>) -> (r: String)
    ensures
        r@ == unlined(detailed_lines(t.deep_view(), header.deep_view())),
{
    let n: usize = t.stats.entities_changed;
    let end = if n == 1 {
        "y"
    } else {
        "ies"
    };
    let count = text::cat6(
        &text::number(t.behavioural().len() as u64),
        " behavioural/design change(s) across ",
        &text::number(n as u64),
        " changed entit",
        end,
        ".",
    );
    let mut out = list::one(with_header("## Semantic transition", header, " — ", ""));
    let ghost line = out.deep_view()[0];
    list::push(&mut out, "".to_owned());
    list::push(&mut out, count);
    list::push(&mut out, "".to_owned());
    assert(out.deep_view() =~= seq![line, ""@, count@, ""@]);
    if t.ops.len() == 0 {
        list::push(&mut out, "_No semantic change detected._".to_owned());
        assert(out.deep_view() =~= detailed_lines(t.deep_view(), header.deep_view()));
    } else {
        list::append(&mut out, say_layer(&t.ops, Layer::Behaviour));
        list::append(&mut out, say_layer(&t.ops, Layer::Design));
        list::append(&mut out, say_layer(&t.ops, Layer::Structure));
        assert(out.deep_view() =~= detailed_lines(t.deep_view(), header.deep_view()));
    }
    unlines(&out)
}

// ---- sections of the plain view

/// How many sections the plain view has.
pub const SECTIONS: usize = 7;

/// The heading of a section, in the order in which they are read.
pub open spec fn section_title(i: int) -> Text {
    if i == 0 {
        "Who can do what"@
    } else if i == 1 {
        "Which data it reads and changes"@
    } else if i == 2 {
        "What it does"@
    } else if i == 3 {
        "What it checks"@
    } else if i == 4 {
        "New code"@
    } else if i == 5 {
        "Design rules"@
    } else {
        "Needs a human look"@
    }
}

/// The kinds of operations of a section, most important first.
pub open spec fn section_kinds(i: int) -> Seq<Text> {
    if i == 0 {
        seq!["AUTH_WIDENED"@, "AUTH_NARROWED"@, "AUTH_CHANGED"@]
    } else if i == 1 {
        seq![
            "QUERY_FILTER_REMOVED"@,
            "QUERY_FILTER_CHANGED"@,
            "QUERY_FILTER_ADDED"@,
            "DATAFLOW_EXPANDED"@,
            "DATAFLOW_RESTRICTED"@,
            "STATE_TRANSITION_SOURCE_WIDENED"@,
            "STATE_TRANSITION_ADDED"@,
            "STATE_TRANSITION_CHANGED"@,
            "STATE_TRANSITION_SOURCE_NARROWED"@,
            "STATE_TRANSITION_REMOVED"@,
        ]
    } else if i == 2 {
        seq![
            "ENTRYPOINT_ADDED"@,
            "ENTRYPOINT_REMOVED"@,
            "EFFECT_ADDED"@,
            "EFFECT_REMOVED"@,
            "EFFECT_MADE_ASYNC"@,
            "EFFECT_MADE_SYNC"@,
            "EVENT_HANDLER_ADDED"@,
            "EVENT_HANDLER_REMOVED"@,
        ]
    } else if i == 3 {
        seq![
            "GUARD_REMOVED"@,
            "GUARD_CHANGED"@,
            "GUARD_ADDED"@,
            "VALIDATION_REMOVED"@,
            "VALIDATION_ADDED"@,
            "SCHEMA_FIELD_REMOVED"@,
            "SCHEMA_FIELD_CHANGED"@,
            "SCHEMA_FIELD_ADDED"@,
            "SCHEMA_CHANGED"@,
        ]
    } else if i == 4 {
        seq!["BEHAVIOUR_ADDED"@]
    } else if i == 5 {
        seq![
            "INVARIANT_VIOLATED"@,
            "LAYER_VIOLATION_INTRODUCED"@,
            "OWNERSHIP_VIOLATION_INTRODUCED"@,
            "LAYER_VIOLATION_RESOLVED"@,
            "OWNERSHIP_VIOLATION_RESOLVED"@,
        ]
    } else {
        seq!["UNCLASSIFIED_CHANGE"@]
    }
}

fn read_title(i: usize) -> (r: &'static str)
    ensures
        r@ == section_title(i as int),
{
    if i == 0 {
        "Who can do what"
    } else if i == 1 {
        "Which data it reads and changes"
    } else if i == 2 {
        "What it does"
    } else if i == 3 {
        "What it checks"
    } else if i == 4 {
        "New code"
    } else if i == 5 {
        "Design rules"
    } else {
        "Needs a human look"
    }
}

fn read_kinds(i: usize) -> (r: Vec<String>)
    ensures
        r.deep_view() == section_kinds(i as int),
{
    let out = if i == 0 {
        texts(vec!["AUTH_WIDENED", "AUTH_NARROWED", "AUTH_CHANGED"])
    } else if i == 1 {
        texts(
            vec![
                "QUERY_FILTER_REMOVED",
                "QUERY_FILTER_CHANGED",
                "QUERY_FILTER_ADDED",
                "DATAFLOW_EXPANDED",
                "DATAFLOW_RESTRICTED",
                "STATE_TRANSITION_SOURCE_WIDENED",
                "STATE_TRANSITION_ADDED",
                "STATE_TRANSITION_CHANGED",
                "STATE_TRANSITION_SOURCE_NARROWED",
                "STATE_TRANSITION_REMOVED",
            ],
        )
    } else if i == 2 {
        texts(
            vec![
                "ENTRYPOINT_ADDED",
                "ENTRYPOINT_REMOVED",
                "EFFECT_ADDED",
                "EFFECT_REMOVED",
                "EFFECT_MADE_ASYNC",
                "EFFECT_MADE_SYNC",
                "EVENT_HANDLER_ADDED",
                "EVENT_HANDLER_REMOVED",
            ],
        )
    } else if i == 3 {
        texts(
            vec![
                "GUARD_REMOVED",
                "GUARD_CHANGED",
                "GUARD_ADDED",
                "VALIDATION_REMOVED",
                "VALIDATION_ADDED",
                "SCHEMA_FIELD_REMOVED",
                "SCHEMA_FIELD_CHANGED",
                "SCHEMA_FIELD_ADDED",
                "SCHEMA_CHANGED",
            ],
        )
    } else if i == 4 {
        texts(vec!["BEHAVIOUR_ADDED"])
    } else if i == 5 {
        texts(
            vec![
                "INVARIANT_VIOLATED",
                "LAYER_VIOLATION_INTRODUCED",
                "OWNERSHIP_VIOLATION_INTRODUCED",
                "LAYER_VIOLATION_RESOLVED",
                "OWNERSHIP_VIOLATION_RESOLVED",
            ],
        )
    } else {
        texts(vec!["UNCLASSIFIED_CHANGE"])
    };
    assert(out.deep_view() =~= section_kinds(i as int));
    out
}

/// The operations of a kind from index `i` on.
pub open spec fn of_kind_from(ops: Seq<OpView>, k: Text, i: int) -> Seq<OpView>
    decreases ops.len() - i,
{
    if 0 <= i < ops.len() {
        (if ops[i].kind == k {
            seq![ops[i]]
        } else {
            seq![]
        }) + of_kind_from(ops, k, i + 1)
    } else {
        seq![]
    }
}

fn of_kind<'a>(ops: &'a Vec<Op>, k: &str) -> (r: Vec<&'a Op>)
    ensures
        r.deep_view() == of_kind_from(ops.deep_view(), k@, 0),
{
    let ghost v = ops.deep_view();
    let mut out: Vec<&'a Op> = list::empty();
    let mut i: usize = 0;
    while i < ops.len()
        invariant
            i <= ops@.len(),
            v == ops.deep_view(),
            out.deep_view() + of_kind_from(v, k@, i as int) == of_kind_from(v, k@, 0),
        decreases ops@.len() - i,
    {
        assert(v[i as int] == ops@[i as int].deep_view());
        if text::same(&ops[i].kind, k) {
            list::push(&mut out, &ops[i]);
        }
        i += 1;
    }
    out
}

/// The operations of a kind from index `i` on that are not shown with another.
pub open spec fn shown_from(ops: Seq<OpView>, k: Text, folded: Seq<Text>, i: int) -> Seq<OpView>
    decreases ops.len() - i,
{
    if 0 <= i < ops.len() {
        (if ops[i].kind == k && !folded.contains(ops[i].id) {
            seq![ops[i]]
        } else {
            seq![]
        }) + shown_from(ops, k, folded, i + 1)
    } else {
        seq![]
    }
}

fn shown_of<'a>(ops: &'a Vec<Op>, k: &str, folded: &SortedSet<String>) -> (r: Vec<&'a Op>)
    ensures
        r.deep_view() == shown_from(ops.deep_view(), k@, folded.deep_view(), 0),
{
    let ghost v = ops.deep_view();
    let mut out: Vec<&'a Op> = list::empty();
    let mut i: usize = 0;
    while i < ops.len()
        invariant
            i <= ops@.len(),
            v == ops.deep_view(),
            out.deep_view() + shown_from(v, k@, folded.deep_view(), i as int) == shown_from(v, k@, folded.deep_view(), 0),
        decreases ops@.len() - i,
    {
        assert(v[i as int] == ops@[i as int].deep_view());
        if text::same(&ops[i].kind, k) && !folded.contains(&ops[i].id) {
            list::push(&mut out, &ops[i]);
        }
        i += 1;
    }
    out
}

/// The operations shown for the kinds from index `i` on.
pub open spec fn section_from(ops: Seq<OpView>, folded: Seq<Text>, kinds: Seq<Text>, i: int) -> Seq<OpView>
    decreases kinds.len() - i,
{
    if 0 <= i < kinds.len() {
        shown_from(ops, kinds[i], folded, 0) + section_from(ops, folded, kinds, i + 1)
    } else {
        seq![]
    }
}

fn section<'a>(ops: &'a Vec<Op>, folded: &SortedSet<String>, kinds: &Vec<String>) -> (r: Vec<&'a Op>)
    ensures
        r.deep_view() == section_from(ops.deep_view(), folded.deep_view(), kinds.deep_view(), 0),
{
    let ghost v = ops.deep_view();
    let ghost f = folded.deep_view();
    let ghost ks = kinds.deep_view();
    let mut out: Vec<&'a Op> = list::empty();
    let mut i: usize = 0;
    while i < kinds.len()
        invariant
            i <= kinds@.len(),
            v == ops.deep_view(),
            f == folded.deep_view(),
            ks == kinds.deep_view(),
            out.deep_view() + section_from(v, f, ks, i as int) == section_from(v, f, ks, 0),
        decreases kinds@.len() - i,
    {
        assert(ks[i as int] == kinds@[i as int]@);
        let ghost before = out.deep_view();
        list::append(&mut out, shown_of(ops, kinds[i].as_str(), folded));
        assert(before + section_from(v, f, ks, i as int) =~= out.deep_view() + section_from(
            v,
            f,
            ks,
            i + 1,
        ));
        i += 1;
    }
    out
}

// ---- new code

/// How new code is presented: a new endpoint is described by its handler, and other new
/// functions behind new endpoints show only what they add to that description.
pub struct NewCode {
    /// Operations shown as part of the sentence of another.
    pub folded: SortedSet<String>,
    /// Endpoint operation to the description of its handler.
    pub endpoints: SortedMap<String, String>,
    /// New-code operation to the routes that it is behind and what it adds.
    pub extra: SortedMap<String, (Vec<String>, String)>,
}

/// The view of [`NewCode`].
#[verifier::ext_equal]
pub struct NewCodeView {
    pub folded: Seq<Text>,
    pub endpoints: Seq<(Text, Text)>,
    pub extra: Seq<(Text, (Seq<Text>, Text))>,
}

impl DeepView for NewCode {
    type V = NewCodeView;

    open spec fn deep_view(&self) -> NewCodeView {
        NewCodeView {
            folded: self.folded.deep_view(),
            endpoints: self.endpoints.deep_view(),
            extra: self.extra.deep_view(),
        }
    }
}

/// The file of the first place after the change.
pub open spec fn file_of(o: OpView) -> Option<Text> {
    if o.evidence_after.len() > 0 {
        Some(o.evidence_after[0].file)
    } else {
        None
    }
}

fn same_file(a: &Op, b: &Op) -> (r: bool)
    ensures
        r == (file_of(a.deep_view()) == file_of(b.deep_view())),
{
    if a.evidence_after.len() > 0 && b.evidence_after.len() > 0 {
        assert(a.evidence_after.deep_view()[0] == a.evidence_after@[0].deep_view());
        assert(b.evidence_after.deep_view()[0] == b.evidence_after@[0].deep_view());
        a.evidence_after[0].file.alike(&b.evidence_after[0].file)
    } else {
        a.evidence_after.len() == 0 && b.evidence_after.len() == 0
    }
}

/// New code that only the given route reaches.
pub open spec fn is_only_behind(o: OpView, route: Text) -> bool {
    o.kind == "BEHAVIOUR_ADDED"@ && o.affects == seq![route]
}

fn only_behind(o: &Op, route: &String) -> (r: bool)
    ensures
        r == is_only_behind(o.deep_view(), route@),
{
    if text::same(&o.kind, "BEHAVIOUR_ADDED") && o.affects.len() == 1 {
        assert(o.affects.deep_view()[0] == o.affects@[0]@);
        let same = o.affects[0].alike(route);
        assert(same == (o.affects.deep_view() =~= seq![route@]));
        same
    } else {
        assert(o.affects.deep_view().len() != seq![route@].len() || o.kind@ != "BEHAVIOUR_ADDED"@);
        false
    }
}

/// The new code from index `i` on that only a route reaches.
pub open spec fn behind_from(ops: Seq<OpView>, route: Text, i: int) -> Seq<OpView>
    decreases ops.len() - i,
{
    if 0 <= i < ops.len() {
        (if is_only_behind(ops[i], route) {
            seq![ops[i]]
        } else {
            seq![]
        }) + behind_from(ops, route, i + 1)
    } else {
        seq![]
    }
}

fn behind<'a>(ops: &'a Vec<Op>, route: &String) -> (r: Vec<&'a Op>)
    ensures
        r.deep_view() == behind_from(ops.deep_view(), route@, 0),
{
    let ghost v = ops.deep_view();
    let mut out: Vec<&'a Op> = list::empty();
    let mut i: usize = 0;
    while i < ops.len()
        invariant
            i <= ops@.len(),
            v == ops.deep_view(),
            out.deep_view() + behind_from(v, route@, i as int) == behind_from(v, route@, 0),
        decreases ops@.len() - i,
    {
        assert(v[i as int] == ops@[i as int].deep_view());
        if only_behind(&ops[i], route) {
            list::push(&mut out, &ops[i]);
        }
        i += 1;
    }
    out
}

/// The first operation from index `i` on in the same file as another.
pub open spec fn in_file_from(xs: Seq<OpView>, route: OpView, i: int) -> Option<OpView>
    decreases xs.len() - i,
{
    if 0 <= i < xs.len() {
        if file_of(xs[i]) == file_of(route) {
            Some(xs[i])
        } else {
            in_file_from(xs, route, i + 1)
        }
    } else {
        None
    }
}

/// The handler of a new route: new code that only it reaches, in the same file where there is
/// such, else the only such code.
pub open spec fn handler(ops: Seq<OpView>, route: OpView) -> Option<OpView> {
    let only = behind_from(ops, route.subject, 0);
    match in_file_from(only, route, 0) {
        Some(h) => Some(h),
        None => if only.len() == 1 {
            Some(only[0])
        } else {
            None
        },
    }
}

fn find_handler<'a>(ops: &'a Vec<Op>, route: &Op) -> (r: Option<&'a Op>)
    ensures
        r.deep_view() == handler(ops.deep_view(), route.deep_view()),
{
    let only = behind(ops, &route.subject);
    let ghost v = only.deep_view();
    let mut i: usize = 0;
    while i < only.len()
        invariant
            i <= only@.len(),
            v == only.deep_view(),
            v == behind_from(ops.deep_view(), route.subject@, 0),
            in_file_from(v, route.deep_view(), 0) == in_file_from(v, route.deep_view(), i as int),
        decreases only@.len() - i,
    {
        assert(v[i as int] == only@[i as int].deep_view());
        if same_file(only[i], route) {
            return Some(only[i]);
        }
        i += 1;
    }
    if only.len() == 1 {
        assert(v[0] == only@[0].deep_view());
        Some(only[0])
    } else {
        None
    }
}

/// What the endpoints show: the operations folded into them, the descriptions of their handlers
/// and the clauses said of each route.
#[verifier::ext_equal]
pub struct ShownView {
    pub folded: Seq<Text>,
    pub endpoints: Seq<(Text, Text)>,
    pub said: Seq<(Text, Seq<(Text, Text)>)>,
}

/// What the endpoints among the operations from index `i` on show.
pub open spec fn endpoints_from(ops: Seq<OpView>, i: int, acc: ShownView) -> ShownView
    decreases ops.len() - i,
{
    if 0 <= i < ops.len() {
        let next = if ops[i].kind == "ENTRYPOINT_ADDED"@ {
            match handler(ops, ops[i]) {
                Some(h) => match h.after {
                    Some(desc) => ShownView {
                        folded: ordered::added(acc.folded, h.id),
                        endpoints: ordered::put(acc.endpoints, ops[i].id, desc),
                        said: ordered::put(acc.said, ops[i].subject, words::clauses_in(desc)),
                    },
                    None => acc,
                },
                None => acc,
            }
        } else {
            acc
        };
        endpoints_from(ops, i + 1, next)
    } else {
        acc
    }
}

/// What the endpoints show.
pub open spec fn endpoints_shown(ops: Seq<OpView>) -> ShownView {
    endpoints_from(ops, 0, ShownView { folded: seq![], endpoints: seq![], said: seq![] })
}

struct Shown {
    folded: SortedSet<String>,
    endpoints: SortedMap<String, String>,
    said: SortedMap<String, Vec<(String, String)>>,
}

spec fn shown_view(s: Shown) -> ShownView {
    ShownView {
        folded: s.folded.deep_view(),
        endpoints: s.endpoints.deep_view(),
        said: s.said.deep_view(),
    }
}

fn show_endpoints(ops: &Vec<Op>) -> (r: Shown)
    ensures
        shown_view(r) == endpoints_shown(ops.deep_view()),
{
    let ghost v = ops.deep_view();
    let mut s = Shown {
        folded: SortedSet::new(),
        endpoints: SortedMap::new(),
        said: SortedMap::new(),
    };
    assert(shown_view(s) =~= (ShownView { folded: seq![], endpoints: seq![], said: seq![] }));
    let mut i: usize = 0;
    while i < ops.len()
        invariant
            i <= ops@.len(),
            v == ops.deep_view(),
            endpoints_from(v, i as int, shown_view(s)) == endpoints_shown(v),
        decreases ops@.len() - i,
    {
        assert(v[i as int] == ops@[i as int].deep_view());
        if text::same(&ops[i].kind, "ENTRYPOINT_ADDED") {
            if let Some(h) = find_handler(ops, &ops[i]) {
                if let Some(desc) = &h.after {
                    s.folded.insert(h.id.dup());
                    s.endpoints.insert(ops[i].id.dup(), desc.dup());
                    s.said.insert(ops[i].subject.dup(), words::split_clauses(desc));
                }
            }
        }
        i += 1;
    }
    s
}

/// Each of the routes is a new endpoint that has been described.
pub open spec fn all_shown(said: Seq<(Text, Seq<(Text, Text)>)>, routes: Seq<Text>) -> bool {
    forall|k: int|
        0 <= k < routes.len() ==> ordered::lookup(said, #[trigger] routes[k]) is Some
}

/// A clause has been said of one of the routes.
pub open spec fn is_said(said: Seq<(Text, Seq<(Text, Text)>)>, routes: Seq<Text>, c: (Text, Text)) -> bool {
    exists|k: int| 0 <= k < routes.len() && said_of(said, #[trigger] routes[k], c)
}

/// A clause has been said of a route.
pub open spec fn said_of(said: Seq<(Text, Seq<(Text, Text)>)>, route: Text, c: (Text, Text)) -> bool {
    match ordered::lookup(said, route) {
        Some(cs) => cs.contains(c),
        None => false,
    }
}

/// The clauses from index `i` on that have not been said of the routes.
pub open spec fn unsaid_from(
    said: Seq<(Text, Seq<(Text, Text)>)>,
    routes: Seq<Text>,
    cs: Seq<(Text, Text)>,
    i: int,
) -> Seq<(Text, Text)>
    decreases cs.len() - i,
{
    if 0 <= i < cs.len() {
        (if is_said(said, routes, cs[i]) {
            seq![]
        } else {
            seq![cs[i]]
        }) + unsaid_from(said, routes, cs, i + 1)
    } else {
        seq![]
    }
}

fn shown_all(said: &SortedMap<String, Vec<(String, String)>>, routes: &Vec<String>) -> (r: bool)
    ensures
        r == all_shown(said.deep_view(), routes.deep_view()),
{
    let ghost v = routes.deep_view();
    let mut k: usize = 0;
    while k < routes.len()
        invariant
            k <= routes@.len(),
            v == routes.deep_view(),
            forall|j: int|
                0 <= j < k ==> ordered::lookup(said.deep_view(), #[trigger] v[j]) is Some,
        decreases routes@.len() - k,
    {
        assert(v[k as int] == routes@[k as int]@);
        if said.get(&routes[k]).is_none() {
            assert(ordered::lookup(said.deep_view(), v[k as int]) is None);
            return false;
        }
        k += 1;
    }
    true
}

fn already_said(
    said: &SortedMap<String, Vec<(String, String)>>,
    routes: &Vec<String>,
    c: &(String, String),
) -> (r: bool)
    ensures
        r == is_said(said.deep_view(), routes.deep_view(), c.deep_view()),
{
    let ghost v = routes.deep_view();
    let mut k: usize = 0;
    while k < routes.len()
        invariant
            k <= routes@.len(),
            v == routes.deep_view(),
            forall|j: int|
                0 <= j < k ==> !said_of(said.deep_view(), #[trigger] v[j], c.deep_view()),
        decreases routes@.len() - k,
    {
        assert(v[k as int] == routes@[k as int]@);
        if let Some(cs) = said.get(&routes[k]) {
            if list::has(cs, c) {
                assert(said_of(said.deep_view(), v[k as int], c.deep_view()));
                return true;
            }
        }
        k += 1;
    }
    false
}

fn unsaid(
    said: &SortedMap<String, Vec<(String, String)>>,
    routes: &Vec<String>,
    cs: &Vec<(String, String)>,
) -> (r: Vec<(String, String)>)
    ensures
        r.deep_view() == unsaid_from(
            said.deep_view(),
            routes.deep_view(),
            cs.deep_view(),
            0,
        ),
{
    let ghost s = said.deep_view();
    let ghost rs = routes.deep_view();
    let ghost v = cs.deep_view();
    let mut out: Vec<(String, String)> = list::empty();
    let mut i: usize = 0;
    while i < cs.len()
        invariant
            i <= cs@.len(),
            s == said.deep_view(),
            rs == routes.deep_view(),
            v == cs.deep_view(),
            out.deep_view() + unsaid_from(s, rs, v, i as int) == unsaid_from(s, rs, v, 0),
        decreases cs@.len() - i,
    {
        assert(v[i as int] == cs@[i as int].deep_view());
        if !already_said(said, routes, &cs[i]) {
            list::push(&mut out, cs[i].dup());
        }
        i += 1;
    }
    out
}

/// New code that is not a handler and lies behind described endpoints only.
pub open spec fn is_behind(shown: ShownView, o: OpView) -> bool {
    o.kind == "BEHAVIOUR_ADDED"@ && !shown.folded.contains(o.id) && o.affects.len() > 0 && all_shown(
        shown.said,
        o.affects,
    )
}

/// The plan with the new code among the operations from index `i` on.
pub open spec fn extra_from(ops: Seq<OpView>, shown: ShownView, i: int, acc: NewCodeView) -> NewCodeView
    decreases ops.len() - i,
{
    if 0 <= i < ops.len() {
        let o = ops[i];
        let next = if is_behind(shown, o) {
            let rest = unsaid_from(
                shown.said,
                o.affects,
                words::clauses_in(clauses::or_empty(o.after)),
                0,
            );
            if rest.len() == 0 {
                NewCodeView { folded: ordered::added(acc.folded, o.id), ..acc }
            } else {
                NewCodeView {
                    extra: ordered::put(acc.extra, o.id, (o.affects, words::summary_of(rest))),
                    ..acc
                }
            }
        } else {
            acc
        };
        extra_from(ops, shown, i + 1, next)
    } else {
        acc
    }
}

/// How the new code of a transition is presented.
pub open spec fn planned(ops: Seq<OpView>) -> NewCodeView {
    let shown = endpoints_shown(ops);
    extra_from(
        ops,
        shown,
        0,
        NewCodeView { folded: shown.folded, endpoints: shown.endpoints, extra: seq![] },
    )
}

/// New code in words: an endpoint with what its handler does, or what it adds.
pub open spec fn planned_sentence(p: NewCodeView, op: OpView) -> Text {
    match ordered::lookup(p.endpoints, op.id) {
        Some(desc) => "New endpoint "@ + ticked(op.subject) + ": it "@ + described(desc) + "."@
            + unchecked_note(desc),
        None => match ordered::lookup(p.extra, op.id) {
            Some(x) => "New "@ + ticked(subject_name(op.subject)) + " behind "@ + text::joined(
                all_ticked(x.0),
                ", "@,
            ) + " also "@ + described(x.1) + "."@,
            None => phrases::sentence_of(op),
        },
    }
}

/// Middleware and global guards are not modelled: what was found is said, not more.
pub open spec fn unchecked_note(desc: Text) -> Text {
    if text::has_text(desc, "requires: "@) || text::has_text(desc, "guards: "@) || text::has_text(
        desc,
        "validates: "@,
    ) {
        ""@
    } else {
        " **Merak found no access check on it.**"@
    }
}

impl NewCode {
    /// How the new code of a transition is presented.
    pub fn plan(t: &Transition) -> (r: NewCode)
        ensures
            r.deep_view() == planned(t.deep_view().ops),
    {
        let ghost v = t.ops.deep_view();
        let s = show_endpoints(&t.ops);
        let ghost shown = shown_view(s);
        let mut p = NewCode {
            folded: s.folded.dup(),
            endpoints: s.endpoints,
            extra: SortedMap::new(),
        };
        let handlers = s.folded;
        let said = s.said;
        let mut i: usize = 0;
        assert(p.deep_view() =~= (NewCodeView {
            folded: shown.folded,
            endpoints: shown.endpoints,
            extra: seq![],
        }));
        while i < t.ops.len()
            invariant
                i <= t.ops@.len(),
                v == t.ops.deep_view(),
                shown == endpoints_shown(v),
                shown.folded == handlers.deep_view(),
                shown.said == said.deep_view(),
                extra_from(v, shown, i as int, p.deep_view()) == planned(v),
            decreases t.ops@.len() - i,
        {
            assert(v[i as int] == t.ops@[i as int].deep_view());
            let o = &t.ops[i];
            if text::same(&o.kind, "BEHAVIOUR_ADDED") && !handlers.contains(&o.id) && o.affects.len()
                > 0 && shown_all(&said, &o.affects) {
                let summary = match &o.after {
                    Some(a) => a.as_str(),
                    None => "",
                };
                let rest = unsaid(&said, &o.affects, &words::split_clauses(summary));
                if rest.len() == 0 {
                    p.folded.insert(o.id.dup());
                } else {
                    p.extra.insert(o.id.dup(), (o.affects.dup(), words::unclauses(&rest)));
                }
            }
            i += 1;
        }
        p
    }

    /// An operation as a sentence, new code as planned.
    pub fn sentence(&self, op: &Op) -> (r: String)
        ensures
            r@ == planned_sentence(self.deep_view(), op.deep_view()),
    {
        if let Some(desc) = self.endpoints.get(&op.id) {
            let checked = text::contains(desc, "requires: ") || text::contains(desc, "guards: ")
                || text::contains(desc, "validates: ");
            let note = if checked {
                ""
            } else {
                " **Merak found no access check on it.**"
            };
            return text::cat6(
                "New endpoint ",
                &words::tick(&op.subject),
                ": it ",
                &words::describe(desc),
                ".",
                note,
            );
        }
        if let Some(x) = self.extra.get(&op.id) {
            return text::cat7(
                "New ",
                &words::tick(&words::name(&op.subject)),
                " behind ",
                &text::join(&words::tick_all(&x.0), ", "),
                " also ",
                &words::describe(&x.1),
                ".",
            );
        }
        phrases::sentence(op)
    }
}

// ---- the plain view

/// The routes that a change reaches.
pub open spec fn reach_said(routes: Seq<Text>) -> Seq<Text> {
    if routes.len() > 0 {
        seq![
            "Affects "@ + text::joined(all_ticked(first(routes, 3)), ", "@) + more_than(
                routes.len(),
                3,
            ),
        ]
    } else {
        seq![]
    }
}

/// One place to look at, after the change where there is one.
pub open spec fn place_said(op: OpView) -> Seq<Text> {
    if op.evidence_after.len() > 0 {
        seq![ticked(ir::loc_text(op.evidence_after[0]))]
    } else if op.evidence_before.len() > 0 {
        seq![ticked(ir::loc_text(op.evidence_before[0]))]
    } else {
        seq![]
    }
}

/// The routes that a change reaches and one place to look.
pub open spec fn whereabouts_of(op: OpView) -> Option<Text> {
    let parts = reach_said(op.affects) + place_said(op);
    if parts.len() > 0 {
        Some(text::joined(parts, " · "@))
    } else {
        None
    }
}

fn whereabouts(op: &Op) -> (r: Option<String>)
    ensures
        r.deep_view() == whereabouts_of(op.deep_view()),
{
    let mut parts: Vec<String> = list::empty();
    if op.affects.len() > 0 {
        list::push(
            &mut parts,
            text::cat3(
                "Affects ",
                &text::join(&words::tick_all(&words::take_first(&op.affects, 3)), ", "),
                &words::and_more(op.affects.len(), 3),
            ),
        );
    }
    assert(parts.deep_view() =~= reach_said(op.deep_view().affects));
    if op.evidence_after.len() > 0 {
        assert(op.evidence_after.deep_view()[0] == op.evidence_after@[0].deep_view());
        list::push(&mut parts, words::tick(&op.evidence_after[0].render()));
    } else if op.evidence_before.len() > 0 {
        assert(op.evidence_before.deep_view()[0] == op.evidence_before@[0].deep_view());
        list::push(&mut parts, words::tick(&op.evidence_before[0].render()));
    }
    assert(parts.deep_view() =~= reach_said(op.deep_view().affects) + place_said(op.deep_view()));
    if parts.len() > 0 {
        Some(text::join(&parts, " · "))
    } else {
        None
    }
}

/// The lines of the operations from index `i` on in the plain view.
pub open spec fn plain_from(p: NewCodeView, ops: Seq<OpView>, i: int) -> Seq<Text>
    decreases ops.len() - i,
{
    if 0 <= i < ops.len() {
        seq!["- "@ + planned_sentence(p, ops[i])] + (match whereabouts_of(ops[i]) {
            Some(w) => seq!["  "@ + w],
            None => seq![],
        }) + plain_from(p, ops, i + 1)
    } else {
        seq![]
    }
}

/// The lines of a section; none where nothing is shown in it.
pub open spec fn section_lines(p: NewCodeView, ops: Seq<OpView>, k: int) -> Seq<Text> {
    let inside = section_from(ops, p.folded, section_kinds(k), 0);
    if inside.len() == 0 {
        seq![]
    } else {
        seq!["### "@ + section_title(k), ""@] + plain_from(p, inside, 0) + seq![""@]
    }
}

/// The lines of the sections from the `k`th on.
pub open spec fn sections_from(p: NewCodeView, ops: Seq<OpView>, k: int) -> Seq<Text>
    decreases SECTIONS - k,
{
    if 0 <= k < SECTIONS {
        section_lines(p, ops, k) + sections_from(p, ops, k + 1)
    } else {
        seq![]
    }
}

fn say_section(p: &NewCode, ops: &Vec<Op>, k: usize) -> (r: Vec<String>)
    ensures
        r.deep_view() == section_lines(p.deep_view(), ops.deep_view(), k as int),
{
    let inside = section(ops, &p.folded, &read_kinds(k));
    if inside.len() == 0 {
        return list::empty();
    }
    let mut out = list::one(text::cat2("### ", read_title(k)));
    list::push(&mut out, "".to_owned());
    assert(out.deep_view() =~= seq!["### "@ + section_title(k as int), ""@]);
    let ghost lead = out.deep_view();
    let ghost pv = p.deep_view();
    let ghost v = inside.deep_view();
    let mut i: usize = 0;
    while i < inside.len()
        invariant
            i <= inside@.len(),
            pv == p.deep_view(),
            v == inside.deep_view(),
            out.deep_view() + plain_from(pv, v, i as int) == lead + plain_from(pv, v, 0),
        decreases inside@.len() - i,
    {
        assert(v[i as int] == inside@[i as int].deep_view());
        let ghost before = out.deep_view();
        list::push(&mut out, text::cat2("- ", &p.sentence(inside[i])));
        if let Some(w) = whereabouts(inside[i]) {
            list::push(&mut out, text::cat2("  ", &w));
        }
        assert(before + plain_from(pv, v, i as int) =~= out.deep_view() + plain_from(pv, v, i + 1));
        i += 1;
    }
    assert(out.deep_view() =~= lead + plain_from(pv, v, 0));
    list::push(&mut out, "".to_owned());
    assert(out.deep_view() =~= lead + plain_from(pv, v, 0) + seq![""@]);
    out
}

/// The default view, as lines.
pub open spec fn markdown_lines(t: TransitionView, header: Option<Text>) -> Seq<Text> {
    let p = planned(t.ops);
    seq![headed("## What this change does"@, header, " ("@, ")"@), ""@, headline_of(t, p), ""@]
        + sections_from(p, t.ops, 0) + (match also_of(t.ops) {
        Some(a) => seq![a],
        None => seq![],
    })
}

/// The default view: what the change does, in plain language.
pub fn markdown(t: &Transition, header: Option<&str>) -> (r: String)
    ensures
        r@ == unlined(markdown_lines(t.deep_view(), header.deep_view())),
{
    let p = NewCode::plan(t);
    let ghost pv = p.deep_view();
    let ghost v = t.ops.deep_view();
    let mut out = list::one(with_header("## What this change does", header, " (", ")"));
    let ghost line = out.deep_view()[0];
    let head = headline(t, &p);
    let ghost headv = head@;
    list::push(&mut out, "".to_owned());
    list::push(&mut out, head);
    list::push(&mut out, "".to_owned());
    assert(out.deep_view() =~= seq![line, ""@, headv, ""@]);
    let ghost lead = out.deep_view();
    let mut k: usize = 0;
    while k < SECTIONS
        invariant
            k <= SECTIONS,
            pv == p.deep_view(),
            v == t.ops.deep_view(),
            out.deep_view() + sections_from(pv, v, k as int) == lead + sections_from(pv, v, 0),
        decreases SECTIONS - k,
    {
        let ghost before = out.deep_view();
        list::append(&mut out, say_section(&p, &t.ops, k));
        assert(before + sections_from(pv, v, k as int) =~= out.deep_view() + sections_from(
            pv,
            v,
            k + 1,
        ));
        k += 1;
    }
    assert(out.deep_view() =~= lead + sections_from(pv, v, 0));
    if let Some(a) = also(&t.ops) {
        list::push(&mut out, a);
    }
    assert(out.deep_view() =~= markdown_lines(t.deep_view(), header.deep_view()));
    unlines(&out)
}

/// The sentences of the operations from index `i` on, each with its whereabouts.
pub open spec fn bullets_from(p: NewCodeView, ops: Seq<OpView>, i: int) -> Seq<Text>
    decreases ops.len() - i,
{
    if 0 <= i < ops.len() {
        seq![
            match whereabouts_of(ops[i]) {
                Some(w) => planned_sentence(p, ops[i]) + " ("@ + w + ")"@,
                None => planned_sentence(p, ops[i]),
            },
        ] + bullets_from(p, ops, i + 1)
    } else {
        seq![]
    }
}

/// The sentences of the sections from the `k`th on.
pub open spec fn all_bullets_from(p: NewCodeView, ops: Seq<OpView>, k: int) -> Seq<Text>
    decreases SECTIONS - k,
{
    if 0 <= k < SECTIONS {
        bullets_from(p, section_from(ops, p.folded, section_kinds(k), 0), 0) + all_bullets_from(
            p,
            ops,
            k + 1,
        )
    } else {
        seq![]
    }
}

/// The behaviour and design changes as one-line sentences.
pub open spec fn bullets_of(t: TransitionView) -> Seq<Text> {
    all_bullets_from(planned(t.ops), t.ops, 0)
}

fn say_bullets(p: &NewCode, ops: &Vec<&Op>) -> (r: Vec<String>)
    ensures
        r.deep_view() == bullets_from(p.deep_view(), ops.deep_view(), 0),
{
    let ghost pv = p.deep_view();
    let ghost v = ops.deep_view();
    let mut out: Vec<String> = list::empty();
    let mut i: usize = 0;
    while i < ops.len()
        invariant
            i <= ops@.len(),
            pv == p.deep_view(),
            v == ops.deep_view(),
            out.deep_view() + bullets_from(pv, v, i as int) == bullets_from(pv, v, 0),
        decreases ops@.len() - i,
    {
        assert(v[i as int] == ops@[i as int].deep_view());
        let s = p.sentence(ops[i]);
        match whereabouts(ops[i]) {
            Some(w) => list::push(&mut out, text::cat4(&s, " (", &w, ")")),
            None => list::push(&mut out, s),
        }
        i += 1;
    }
    out
}

/// The behaviour and design changes as one-line sentences, most important first, grouped the
/// same way as [`markdown`].
pub fn bullets(t: &Transition) -> (r: Vec<String>)
    ensures
        r.deep_view() == bullets_of(t.deep_view()),
{
    let p = NewCode::plan(t);
    let ghost pv = p.deep_view();
    let ghost v = t.ops.deep_view();
    let mut out: Vec<String> = list::empty();
    let mut k: usize = 0;
    while k < SECTIONS
        invariant
            k <= SECTIONS,
            pv == p.deep_view(),
            v == t.ops.deep_view(),
            out.deep_view() + all_bullets_from(pv, v, k as int) == all_bullets_from(pv, v, 0),
        decreases SECTIONS - k,
    {
        let ghost before = out.deep_view();
        let inside = section(&t.ops, &p.folded, &read_kinds(k));
        list::append(&mut out, say_bullets(&p, &inside));
        assert(before + all_bullets_from(pv, v, k as int) =~= out.deep_view() + all_bullets_from(
            pv,
            v,
            k + 1,
        ));
        k += 1;
    }
    out
}

// ---- headlines

/// The operations from index `i` on that are named and shown on their own.
pub open spec fn named_from(ops: Seq<OpView>, folded: Seq<Text>, i: int) -> Seq<OpView>
    decreases ops.len() - i,
{
    if 0 <= i < ops.len() {
        (if ops[i].layer != Layer::Structure && ops[i].kind != "UNCLASSIFIED_CHANGE"@ && !folded.contains(ops[i].id) {
            seq![ops[i]]
        } else {
            seq![]
        }) + named_from(ops, folded, i + 1)
    } else {
        seq![]
    }
}

fn named_ops<'a>(ops: &'a Vec<Op>, folded: &SortedSet<String>) -> (r: Vec<&'a Op>)
    ensures
        r.deep_view() == named_from(ops.deep_view(), folded.deep_view(), 0),
{
    let ghost v = ops.deep_view();
    let mut out: Vec<&'a Op> = list::empty();
    let mut i: usize = 0;
    while i < ops.len()
        invariant
            i <= ops@.len(),
            v == ops.deep_view(),
            out.deep_view() + named_from(v, folded.deep_view(), i as int) == named_from(v, folded.deep_view(), 0),
        decreases ops@.len() - i,
    {
        assert(v[i as int] == ops@[i as int].deep_view());
        if !ops[i].layer.alike(&Layer::Structure) && !text::same(&ops[i].kind, "UNCLASSIFIED_CHANGE") && !folded.contains(&ops[i].id) {
            list::push(&mut out, &ops[i]);
        }
        i += 1;
    }
    out
}

/// What is left to look at by hand.
pub open spec fn by_hand(n: nat) -> Text {
    counted(n, "change"@, "changes"@) + " Merak can't classify: review "@ + (if n == 1 {
        "it"@
    } else {
        "them"@
    }) + " by hand."@
}

fn say_by_hand(n: usize) -> (r: String)
    ensures
        r@ == by_hand(n as nat),
{
    let which = if n == 1 {
        "it"
    } else {
        "them"
    };
    text::cat4(
        &words::plural(n, "change", "changes"),
        " Merak can't classify: review ",
        which,
        " by hand.",
    )
}

/// The change in one line. What is shown is counted: a handler folded into the line of its
/// endpoint is one change.
pub open spec fn headline_of(t: TransitionView, p: NewCodeView) -> Text {
    let u = of_kind_from(t.ops, "UNCLASSIFIED_CHANGE"@, 0).len();
    let n = named_from(t.ops, p.folded, 0).len();
    let changed = t.stats.entities_changed as nat;
    if t.ops.len() == 0 {
        "No change to the code Merak analyses."@
    } else if of_kind_from(t.ops, "PURE_REFACTOR"@, 0).len() > 0 {
        "**No behaviour change.** "@ + counted(
            if changed == 0 {
                1
            } else {
                changed
            },
            "function was"@,
            "functions were"@,
        ) + " restructured (moved, renamed or extracted), and each does what it did before."@
    } else if n == 0 && u == 0 {
        if of_kind_from(t.ops, "LOGGING_CHANGED"@, 0).len() > 0 {
            "**No behaviour change.** Only logging changed."@
        } else {
            "**No behaviour change.** Only the code's structure changed."@
        }
    } else if n == 0 {
        "**No behaviour change Merak can name.** "@ + by_hand(u)
    } else if u == 0 {
        "**"@ + counted(n, "behaviour change"@, "behaviour changes"@) + ".**"@
    } else {
        "**"@ + counted(n, "behaviour change"@, "behaviour changes"@) + ".** Also "@ + by_hand(u)
    }
}

/// The change in one line.
pub fn headline(t: &Transition, p: &NewCode) -> (r: String)
    ensures
        r@ == headline_of(t.deep_view(), p.deep_view()),
{
    let u: usize = of_kind(&t.ops, "UNCLASSIFIED_CHANGE").len();
    let n: usize = named_ops(&t.ops, &p.folded).len();
    if t.ops.len() == 0 {
        return "No change to the code Merak analyses.".to_owned();
    }
    if of_kind(&t.ops, "PURE_REFACTOR").len() > 0 {
        let changed: usize = if t.stats.entities_changed == 0 {
            1
        } else {
            t.stats.entities_changed
        };
        return text::cat3(
            "**No behaviour change.** ",
            &words::plural(changed, "function was", "functions were"),
            " restructured (moved, renamed or extracted), and each does what it did before.",
        );
    }
    if n == 0 && u == 0 {
        if of_kind(&t.ops, "LOGGING_CHANGED").len() > 0 {
            "**No behaviour change.** Only logging changed.".to_owned()
        } else {
            "**No behaviour change.** Only the code's structure changed.".to_owned()
        }
    } else if n == 0 {
        text::cat2("**No behaviour change Merak can name.** ", &say_by_hand(u))
    } else if u == 0 {
        text::cat3("**", &words::plural(n, "behaviour change", "behaviour changes"), ".**")
    } else {
        text::cat4(
            "**",
            &words::plural(n, "behaviour change", "behaviour changes"),
            ".** Also ",
            &say_by_hand(u),
        )
    }
}

// ---- the rest

/// The subjects from index `i` on of new code that is described.
pub open spec fn described_from(ops: Seq<OpView>, i: int) -> Seq<Text>
    decreases ops.len() - i,
{
    if 0 <= i < ops.len() {
        (if ops[i].kind == "BEHAVIOUR_ADDED"@ {
            seq![ops[i].subject]
        } else {
            seq![]
        }) + described_from(ops, i + 1)
    } else {
        seq![]
    }
}

fn described_subjects(ops: &Vec<Op>) -> (r: Vec<String>)
    ensures
        r.deep_view() == described_from(ops.deep_view(), 0),
{
    let ghost v = ops.deep_view();
    let mut out: Vec<String> = list::empty();
    let mut i: usize = 0;
    while i < ops.len()
        invariant
            i <= ops@.len(),
            v == ops.deep_view(),
            out.deep_view() + described_from(v, i as int) == described_from(v, 0),
        decreases ops@.len() - i,
    {
        assert(v[i as int] == ops@[i as int].deep_view());
        if text::same(&ops[i].kind, "BEHAVIOUR_ADDED") {
            list::push(&mut out, ops[i].subject.dup());
        }
        i += 1;
    }
    out
}

/// A function or method, no callback inside one, that is not described elsewhere.
pub open spec fn is_top(subject: Text, described: Seq<Text>) -> bool {
    let local = text::after_last(subject, "::"@);
    subject_name(subject) == local && text::pieces(local, "."@).len() <= 2 && !described.contains(
        subject,
    )
}

fn top(subject: &String, described: &Vec<String>) -> (r: bool)
    ensures
        r == is_top(subject@, described.deep_view()),
{
    let local = text::last_piece(subject, "::");
    words::name(subject).alike(&local) && text::split(&local, ".").len() <= 2 && !list::has(
        described,
        subject,
    )
}

/// The names of the operations of a kind from index `i` on, each once.
pub open spec fn tops_from(ops: Seq<OpView>, k: Text, described: Seq<Text>, i: int, acc: Seq<Text>) -> Seq<Text>
    decreases ops.len() - i,
{
    if 0 <= i < ops.len() {
        let n = ticked(subject_name(ops[i].subject));
        tops_from(
            ops,
            k,
            described,
            i + 1,
            if ops[i].kind == k && is_top(ops[i].subject, described) && !acc.contains(n) {
                acc.push(n)
            } else {
                acc
            },
        )
    } else {
        acc
    }
}

fn tops(ops: &Vec<Op>, k: &str, described: &Vec<String>) -> (r: Vec<String>)
    ensures
        r.deep_view() == tops_from(ops.deep_view(), k@, described.deep_view(), 0, seq![]),
{
    let ghost v = ops.deep_view();
    let ghost d = described.deep_view();
    let mut acc: Vec<String> = list::empty();
    let mut i: usize = 0;
    while i < ops.len()
        invariant
            i <= ops@.len(),
            v == ops.deep_view(),
            d == described.deep_view(),
            tops_from(v, k@, d, i as int, acc.deep_view()) == tops_from(v, k@, d, 0, seq![]),
        decreases ops@.len() - i,
    {
        assert(v[i as int] == ops@[i as int].deep_view());
        if text::same(&ops[i].kind, k) && top(&ops[i].subject, described) {
            let n = words::tick(&words::name(&ops[i].subject));
            if !list::has(&acc, &n) {
                list::push(&mut acc, n);
            }
        }
        i += 1;
    }
    acc
}

/// Up to five names, and how many more there are.
pub open spec fn few(xs: Seq<Text>) -> Text {
    text::joined(first(xs, 5), ", "@) + more_than(xs.len(), 5)
}

/// A part about some names; none without names.
pub open spec fn about_names(lead: Text, xs: Seq<Text>) -> Seq<Text> {
    if xs.len() > 0 {
        seq![lead + few(xs)]
    } else {
        seq![]
    }
}

/// A part about a number of things; none without things.
pub open spec fn about_count(n: nat, one: Text, many: Text, end: Text) -> Seq<Text> {
    if n > 0 {
        seq![counted(n, one, many) + end]
    } else {
        seq![]
    }
}

fn say_names(parts: &mut Vec<String>, lead: &str, xs: &Vec<String>)
    ensures
        final(parts).deep_view() == old(parts).deep_view() + about_names(lead@, xs.deep_view()),
{
    if xs.len() > 0 {
        let shown = text::cat2(
            &text::join(&words::take_first(xs, 5), ", "),
            &words::and_more(xs.len(), 5),
        );
        list::push(parts, text::cat2(lead, &shown));
    }
    assert(parts.deep_view() =~= old(parts).deep_view() + about_names(lead@, xs.deep_view()));
}

fn say_count(parts: &mut Vec<String>, n: usize, one: &str, many: &str, end: &str)
    ensures
        final(parts).deep_view() == old(parts).deep_view() + about_count(
            n as nat,
            one@,
            many@,
            end@,
        ),
{
    if n > 0 {
        list::push(parts, text::cat2(&words::plural(n, one, many), end));
    }
    assert(parts.deep_view() =~= old(parts).deep_view() + about_count(
        n as nat,
        one@,
        many@,
        end@,
    ));
}

/// The operations from index `i` on of either of two kinds.
pub open spec fn of_either_from(ops: Seq<OpView>, k: Text, k2: Text, i: int) -> Seq<OpView>
    decreases ops.len() - i,
{
    if 0 <= i < ops.len() {
        (if ops[i].kind == k || ops[i].kind == k2 {
            seq![ops[i]]
        } else {
            seq![]
        }) + of_either_from(ops, k, k2, i + 1)
    } else {
        seq![]
    }
}

fn of_either<'a>(ops: &'a Vec<Op>, k: &str, k2: &str) -> (r: Vec<&'a Op>)
    ensures
        r.deep_view() == of_either_from(ops.deep_view(), k@, k2@, 0),
{
    let ghost v = ops.deep_view();
    let mut out: Vec<&'a Op> = list::empty();
    let mut i: usize = 0;
    while i < ops.len()
        invariant
            i <= ops@.len(),
            v == ops.deep_view(),
            out.deep_view() + of_either_from(v, k@, k2@, i as int) == of_either_from(v, k@, k2@, 0),
        decreases ops@.len() - i,
    {
        assert(v[i as int] == ops@[i as int].deep_view());
        if text::same(&ops[i].kind, k) || text::same(&ops[i].kind, k2) {
            list::push(&mut out, &ops[i]);
        }
        i += 1;
    }
    out
}

/// The structural remainder, part by part.
pub open spec fn remainder(ops: Seq<OpView>) -> Seq<Text> {
    let d = described_from(ops, 0);
    about_names("added "@, tops_from(ops, "ENTITY_ADDED"@, d, 0, seq![])) + about_names(
        "removed "@,
        tops_from(ops, "ENTITY_REMOVED"@, d, 0, seq![]),
    ) + about_count(
        of_either_from(ops, "ENTITY_MOVED"@, "ENTITY_RENAMED"@, 0).len(),
        "function or class"@,
        "functions or classes"@,
        " moved or renamed"@,
    ) + about_names("logging changed in "@, tops_from(ops, "LOGGING_CHANGED"@, d, 0, seq![]))
        + about_count(
        of_either_from(ops, "DEPENDENCY_ADDED"@, "DEPENDENCY_REMOVED"@, 0).len(),
        "dependency"@,
        "dependencies"@,
        " between files changed"@,
    )
}

/// The structural remainder in one line.
pub open spec fn also_of(ops: Seq<OpView>) -> Option<Text> {
    if remainder(ops).len() > 0 {
        Some("Also: "@ + text::joined(remainder(ops), "; "@) + "."@)
    } else {
        None
    }
}

/// The structural remainder in one line.
pub fn also(ops: &Vec<Op>) -> (r: Option<String>)
    ensures
        r.deep_view() == also_of(ops.deep_view()),
{
    let d = described_subjects(ops);
    let mut parts: Vec<String> = list::empty();
    say_names(&mut parts, "added ", &tops(ops, "ENTITY_ADDED", &d));
    say_names(&mut parts, "removed ", &tops(ops, "ENTITY_REMOVED", &d));
    say_count(
        &mut parts,
        of_either(ops, "ENTITY_MOVED", "ENTITY_RENAMED").len(),
        "function or class",
        "functions or classes",
        " moved or renamed",
    );
    say_names(&mut parts, "logging changed in ", &tops(ops, "LOGGING_CHANGED", &d));
    say_count(
        &mut parts,
        of_either(ops, "DEPENDENCY_ADDED", "DEPENDENCY_REMOVED").len(),
        "dependency",
        "dependencies",
        " between files changed",
    );
    assert(parts.deep_view() =~= remainder(ops.deep_view()));
    if parts.len() > 0 {
        Some(text::cat3("Also: ", &text::join(&parts, "; "), "."))
    } else {
        None
    }
}

} // verus!
