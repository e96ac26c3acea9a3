//! Each operation as a plain sentence.

use crate::clauses;
use crate::list;
use crate::list::Plain;
use crate::ops::{Op, OpView};
use crate::text;
use crate::text::Text;
use crate::words;
use crate::words::{
    allowed, blanked, code_lists_text, described, effect_text, effects_said, in_words, listed,
    only_here, requirement_key, requirements_text, schema_and_field, subject_name, ticked,
    values_of, via_text, who_of, without_mode,
};
use vstd::prelude::*;

verus! {

// ---- access

/// A list of requirements that callers choose.
pub open spec fn is_chosen(s: Text) -> bool {
    s.len() > 0 && forall|i: int|
        0 <= i < text::pieces(s, ", "@).len() ==> text::ends(
            #[trigger] text::pieces(s, ", "@)[i],
            "=_"@,
        )
}

fn chosen(s: &str) -> (r: bool)
    ensures
        r == is_chosen(s@),
{
    if s.is_empty() {
        return false;
    }
    let parts = text::split(s, ", ");
    let ghost v = parts.deep_view();
    let mut i: usize = 0;
    while i < parts.len()
        invariant
            i <= parts@.len(),
            v == parts.deep_view(),
            v == text::pieces(s@, ", "@),
            forall|k: int| 0 <= k < i ==> text::ends(#[trigger] v[k], "=_"@),
        decreases parts@.len() - i,
    {
        assert(v[i as int] == parts@[i as int]@);
        if !text::ends_with(&parts[i], "=_") {
            assert(!text::ends(text::pieces(s@, ", "@)[i as int], "=_"@));
            return false;
        }
        i += 1;
    }
    true
}

/// A change of access requirements.
pub open spec fn access_said(label: Text, n: Text, b: Text, a: Text) -> Text {
    let lead = "**"@ + label + ":** "@ + n;
    if b.len() == 0 {
        lead + " now requires "@ + requirements_text(a) + "."@
    } else if a.len() == 0 {
        lead + " no longer requires "@ + requirements_text(b) + "."@
    } else if is_chosen(a) {
        lead + " no longer requires "@ + requirements_text(b) + " itself; its callers now choose the "@
            + requirement_key(a) + "."@
    } else {
        lead + " now requires "@ + requirements_text(a) + " instead of "@ + requirements_text(b)
            + "."@
    }
}

fn access_change(label: &str, n: &str, b: &str, a: &str) -> (r: String)
    ensures
        r@ == access_said(label@, n@, b@, a@),
{
    let lead = text::cat4("**", label, ":** ", n);
    if b.is_empty() {
        text::cat4(&lead, " now requires ", &words::requirements(a), ".")
    } else if a.is_empty() {
        text::cat4(&lead, " no longer requires ", &words::requirements(b), ".")
    } else if chosen(a) {
        text::cat6(
            &lead,
            " no longer requires ",
            &words::requirements(b),
            " itself; its callers now choose the ",
            &words::key_of(a),
            ".",
        )
    } else {
        text::cat6(
            &lead,
            " now requires ",
            &words::requirements(a),
            " instead of ",
            &words::requirements(b),
            ".",
        )
    }
}

/// Access that was widened: by values of one field, or by other requirements.
pub open spec fn widened_said(n: Text, b: Text, a: Text) -> Text {
    match (allowed(b), allowed(a)) {
        (Some((f, bv)), Some((f2, av))) => if f == f2 {
            "**More access:** "@ + n + " now also allows "@ + who_of(f) + listed(only_here(av, bv))
                + " (before: only "@ + listed(bv) + ")."@
        } else {
            access_said("More access"@, n, b, a)
        },
        _ => access_said("More access"@, n, b, a),
    }
}

fn widened(n: &str, b: &str, a: &str) -> (r: String)
    ensures
        r@ == widened_said(n@, b@, a@),
{
    match (words::parse_set(b), words::parse_set(a)) {
        (Some((f, bv)), Some((f2, av))) => if f.alike(&f2) {
            let lead = text::cat3("**More access:** ", n, " now also allows ");
            text::cat6(
                &lead,
                &words::who(&f),
                &words::list_values(&words::not_in(&av, &bv)),
                " (before: only ",
                &words::list_values(&bv),
                ").",
            )
        } else {
            access_change("More access", n, b, a)
        },
        _ => access_change("More access", n, b, a),
    }
}

/// Access that was narrowed: by values of one field, or by other requirements.
pub open spec fn narrowed_said(n: Text, b: Text, a: Text) -> Text {
    match (allowed(b), allowed(a)) {
        (Some((f, bv)), Some((f2, av))) => if f == f2 {
            "**Less access:** "@ + n + " no longer allows "@ + who_of(f) + listed(only_here(bv, av))
                + " (now: only "@ + listed(av) + ")."@
        } else {
            access_said("Less access"@, n, b, a)
        },
        _ => access_said("Less access"@, n, b, a),
    }
}

fn narrowed(n: &str, b: &str, a: &str) -> (r: String)
    ensures
        r@ == narrowed_said(n@, b@, a@),
{
    match (words::parse_set(b), words::parse_set(a)) {
        (Some((f, bv)), Some((f2, av))) => if f.alike(&f2) {
            let lead = text::cat3("**Less access:** ", n, " no longer allows ");
            text::cat6(
                &lead,
                &words::who(&f),
                &words::list_values(&words::not_in(&bv, &av)),
                " (now: only ",
                &words::list_values(&av),
                ").",
            )
        } else {
            access_change("Less access", n, b, a)
        },
        _ => access_change("Less access", n, b, a),
    }
}

// ---- states

/// A state in words.
pub open spec fn state_name(v: Text) -> Text {
    if v == "∅"@ {
        "creation"@
    } else if v == "*"@ {
        "any state"@
    } else {
        ticked(v)
    }
}

fn say_state(v: &str) -> (r: String)
    ensures
        r@ == state_name(v@),
{
    if text::same(v, "∅") {
        "creation".to_owned()
    } else if text::same(v, "*") {
        "any state".to_owned()
    } else {
        words::tick(v)
    }
}

/// States in words.
pub open spec fn each_state(xs: Seq<Text>) -> Seq<Text> {
    Seq::new(xs.len(), |i: int| state_name(xs[i]))
}

fn say_states(xs: &Vec<String>) -> (r: Vec<String>)
    ensures
        r.deep_view() == each_state(xs.deep_view()),
{
    let ghost v = xs.deep_view();
    let mut out: Vec<String> = list::empty();
    let mut i: usize = 0;
    while i < xs.len()
        invariant
            i <= xs@.len(),
            v == xs.deep_view(),
            out.deep_view() == each_state(v).take(i as int),
        decreases xs@.len() - i,
    {
        assert(v[i as int] == xs@[i as int]@);
        list::push(&mut out, say_state(&xs[i]));
        i += 1;
        assert(out.deep_view() =~= each_state(v).take(i as int));
    }
    assert(each_state(v).take(v.len() as int) =~= each_state(v));
    out
}

/// The values of a set; none where it is no set.
pub open spec fn states_in(s: Text) -> Seq<Text> {
    match values_of(s) {
        Some(vs) => vs,
        None => seq![],
    }
}

fn read_states(s: &str) -> (r: Vec<String>)
    ensures
        r.deep_view() == states_in(s@),
{
    match words::set_values(s) {
        Some(vs) => vs,
        None => list::empty(),
    }
}

/// The states that a set names.
pub open spec fn sources(s: Text) -> Text {
    text::joined(each_state(states_in(s)), ", "@)
}

fn say_sources(s: &str) -> (r: String)
    ensures
        r@ == sources(s@),
{
    text::join(&say_states(&read_states(s)), ", ")
}

/// The path that a note gives for a change of states.
pub open spec fn path_of(note: Option<Text>) -> Text {
    match note {
        Some(n) => match text::after_prefix(n, "new path via "@) {
            Some(w) => " (through "@ + ticked(w) + ")"@,
            None => ""@,
        },
        None => ""@,
    }
}

fn say_path(note: &Option<String>) -> (r: String)
    ensures
        r@ == path_of(note.deep_view()),
{
    match note {
        Some(n) => match text::strip_prefix(n, "new path via ") {
            Some(w) => text::cat3(" (through ", &words::tick(&w), ")"),
            None => "".to_owned(),
        },
        None => "".to_owned(),
    }
}

/// A set, or the empty one.
pub open spec fn or_no_set(s: Option<Text>) -> Text {
    match s {
        Some(t) => t,
        None => "{}"@,
    }
}

fn set_or_none(s: &Option<String>) -> (r: String)
    ensures
        r@ == or_no_set(s.deep_view()),
{
    match s {
        Some(t) => t.dup(),
        None => "{}".to_owned(),
    }
}

/// A change of the states from which a field can change.
pub open spec fn state_said(op: OpView) -> Text {
    let (field, to) = match text::parted(op.subject, " → "@) {
        Some(p) => p,
        None => (op.subject, "?"@),
    };
    let b = or_no_set(op.before);
    let a = or_no_set(op.after);
    let via = path_of(op.note);
    if op.kind == "STATE_TRANSITION_SOURCE_WIDENED"@ {
        let fresh = "{"@ + text::joined(only_here(states_in(a), states_in(b)), ", "@) + "}"@;
        ticked(field) + " can now become "@ + ticked(to) + " from "@ + sources(fresh) + " too"@ + via
            + ("; before, only from "@ + sources(b) + "."@)
    } else if op.kind == "STATE_TRANSITION_SOURCE_NARROWED"@ {
        ticked(field) + " can become "@ + ticked(to) + " only from "@ + sources(a)
            + " now (before: "@ + (sources(b) + ")."@)
    } else if op.kind == "STATE_TRANSITION_ADDED"@ {
        ticked(field) + " can now become "@ + ticked(to) + ", from "@ + sources(a) + via + "."@
    } else if op.kind == "STATE_TRANSITION_REMOVED"@ {
        ticked(field) + " can no longer become "@ + ticked(to) + "."@
    } else {
        ticked(field) + " becomes "@ + ticked(to) + " from "@ + sources(a) + " instead of "@ + (sources(
            b,
        ) + via + "."@)
    }
}

fn state(op: &Op) -> (r: String)
    ensures
        r@ == state_said(op.deep_view()),
{
    let (field, to) = match text::split_once(&op.subject, " → ") {
        Some(p) => p,
        None => (op.subject.dup(), "?".to_owned()),
    };
    let b = set_or_none(&op.before);
    let a = set_or_none(&op.after);
    let via = say_path(&op.note);
    let field = words::tick(&field);
    let to = words::tick(&to);
    if text::same(&op.kind, "STATE_TRANSITION_SOURCE_WIDENED") {
        let fresh = text::cat3(
            "{",
            &text::join(&words::not_in(&read_states(&a), &read_states(&b)), ", "),
            "}",
        );
        let end = text::cat3("; before, only from ", &say_sources(&b), ".");
        let lead = text::cat4(&field, " can now become ", &to, " from ");
        text::cat5(&lead, &say_sources(&fresh), " too", &via, &end)
    } else if text::same(&op.kind, "STATE_TRANSITION_SOURCE_NARROWED") {
        let end = text::cat2(&say_sources(&b), ").");
        text::cat7(
            &field,
            " can become ",
            &to,
            " only from ",
            &say_sources(&a),
            " now (before: ",
            &end,
        )
    } else if text::same(&op.kind, "STATE_TRANSITION_ADDED") {
        text::cat7(&field, " can now become ", &to, ", from ", &say_sources(&a), &via, ".")
    } else if text::same(&op.kind, "STATE_TRANSITION_REMOVED") {
        text::cat4(&field, " can no longer become ", &to, ".")
    } else {
        let end = text::cat3(&say_sources(&b), &via, ".");
        text::cat7(&field, " becomes ", &to, " from ", &say_sources(&a), " instead of ", &end)
    }
}

// ---- rules

/// The field and the value that a rule is about.
pub open spec fn written(write: Text) -> (Text, Text) {
    match text::parted(write, " := "@) {
        Some(p) => p,
        None => (write, "?"@),
    }
}

fn read_written(write: &str) -> (r: (String, String))
    ensures
        (r.0@, r.1@) == written(write@),
{
    match text::split_once(write, " := ") {
        Some(p) => p,
        None => (write.to_owned(), "?".to_owned()),
    }
}

/// A pattern that the rest of the code follows.
pub open spec fn pattern_said(rule: Text, who: Text) -> Text {
    match text::parted(rule, " requires "@) {
        Some((write, cond)) => {
            let (field, value) = written(write);
            "everywhere else, "@ + ticked(field) + " becomes "@ + ticked(value)
                + " only after checking "@ + ticked(cond) + ("; "@ + ticked(who) + " doesn't check it"@)
        },
        None => match text::parted(rule, " ⇒ "@) {
            Some((write, then)) => {
                let (field, value) = written(write);
                let other = text::trimmed_end(then, " is set"@);
                "everywhere else, setting "@ + ticked(field) + " to "@ + ticked(value)
                    + " also sets "@ + ticked(other) + ("; "@ + ticked(who) + " doesn't"@)
            },
            None => rule + "; "@ + ticked(who) + " doesn't follow it"@,
        },
    }
}

fn say_pattern(rule: &str, who: &str) -> (r: String)
    ensures
        r@ == pattern_said(rule@, who@),
{
    match text::split_once(rule, " requires ") {
        Some((write, cond)) => {
            let (field, value) = read_written(&write);
            let end = text::cat3("; ", &words::tick(who), " doesn't check it");
            text::cat7(
                "everywhere else, ",
                &words::tick(&field),
                " becomes ",
                &words::tick(&value),
                " only after checking ",
                &words::tick(&cond),
                &end,
            )
        },
        None => match text::split_once(rule, " ⇒ ") {
            Some((write, then)) => {
                let (field, value) = read_written(&write);
                let other = text::trim_end(&then, " is set");
                let end = text::cat3("; ", &words::tick(who), " doesn't");
                text::cat7(
                    "everywhere else, setting ",
                    &words::tick(&field),
                    " to ",
                    &words::tick(&value),
                    " also sets ",
                    &words::tick(&other),
                    &end,
                )
            },
            None => text::cat4(rule, "; ", &words::tick(who), " doesn't follow it"),
        },
    }
}

/// A broken invariant in words.
pub open spec fn invariant_said(op: OpView) -> Text {
    let who = match op.after {
        Some(a) => text::replaced(a, " does not satisfy it"@, ""@),
        None => ""@,
    };
    "**Breaks a pattern the rest of the code follows** ("@ + text::decimal(op.confidence as nat)
        + "% sure): "@ + pattern_said(op.subject, who) + "."@
}

fn say_invariant(op: &Op) -> (r: String)
    ensures
        r@ == invariant_said(op.deep_view()),
{
    let who = match &op.after {
        Some(a) => text::replace(a, " does not satisfy it", ""),
        None => "".to_owned(),
    };
    text::cat5(
        "**Breaks a pattern the rest of the code follows** (",
        &text::number(op.confidence as u64),
        "% sure): ",
        &say_pattern(&op.subject, &who),
        ".",
    )
}

/// The layer at one end of a rule.
pub open spec fn layer_said(rule: Text, i: int) -> Text {
    let parts = text::pieces(rule, " → "@);
    "the "@ + (if i < parts.len() {
        parts[i]
    } else {
        "?"@
    }) + " layer"@
}

fn layer_of(rule: &str, i: usize) -> (r: String)
    ensures
        r@ == layer_said(rule@, i as int),
{
    let parts = text::split(rule, " → ");
    if i < parts.len() {
        assert(parts.deep_view()[i as int] == parts@[i as int]@);
        text::cat3("the ", &parts[i], " layer")
    } else {
        text::cat3("the ", "?", " layer")
    }
}

/// The name of a file.
pub open spec fn file_ticked(f: Text) -> Text {
    ticked(text::after_last(f, "/"@))
}

fn tick_file(f: &str) -> (r: String)
    ensures
        r@ == file_ticked(f@),
{
    words::tick(&text::last_piece(f, "/"))
}

/// Names of files.
pub open spec fn files_ticked(xs: Seq<Text>) -> Seq<Text> {
    Seq::new(xs.len(), |i: int| file_ticked(xs[i]))
}

fn tick_files(xs: &Vec<String>) -> (r: Vec<String>)
    ensures
        r.deep_view() == files_ticked(xs.deep_view()),
{
    let ghost v = xs.deep_view();
    let mut out: Vec<String> = list::empty();
    let mut i: usize = 0;
    while i < xs.len()
        invariant
            i <= xs@.len(),
            v == xs.deep_view(),
            out.deep_view() == files_ticked(v).take(i as int),
        decreases xs@.len() - i,
    {
        assert(v[i as int] == xs@[i as int]@);
        list::push(&mut out, tick_file(&xs[i]));
        i += 1;
        assert(out.deep_view() =~= files_ticked(v).take(i as int));
    }
    assert(files_ticked(v).take(v.len() as int) =~= files_ticked(v));
    out
}

/// One use of a file by another.
pub open spec fn use_said(d: Text) -> Text {
    text::joined(files_ticked(text::pieces(d, " → "@)), " now uses "@)
}

fn say_use(d: &str) -> (r: String)
    ensures
        r@ == use_said(d@),
{
    text::join(&tick_files(&text::split(d, " → ")), " now uses ")
}

/// Uses of files by others.
pub open spec fn each_use(xs: Seq<Text>) -> Seq<Text> {
    Seq::new(xs.len(), |i: int| use_said(xs[i]))
}

fn say_uses(xs: &Vec<String>) -> (r: Vec<String>)
    ensures
        r.deep_view() == each_use(xs.deep_view()),
{
    let ghost v = xs.deep_view();
    let mut out: Vec<String> = list::empty();
    let mut i: usize = 0;
    while i < xs.len()
        invariant
            i <= xs@.len(),
            v == xs.deep_view(),
            out.deep_view() == each_use(v).take(i as int),
        decreases xs@.len() - i,
    {
        assert(v[i as int] == xs@[i as int]@);
        list::push(&mut out, say_use(&xs[i]));
        i += 1;
        assert(out.deep_view() =~= each_use(v).take(i as int));
    }
    assert(each_use(v).take(v.len() as int) =~= each_use(v));
    out
}

/// Names of subjects.
pub open spec fn names_ticked(xs: Seq<Text>) -> Seq<Text> {
    Seq::new(xs.len(), |i: int| ticked(subject_name(xs[i])))
}

fn tick_names(xs: &Vec<String>) -> (r: Vec<String>)
    ensures
        r.deep_view() == names_ticked(xs.deep_view()),
{
    let ghost v = xs.deep_view();
    let mut out: Vec<String> = list::empty();
    let mut i: usize = 0;
    while i < xs.len()
        invariant
            i <= xs@.len(),
            v == xs.deep_view(),
            out.deep_view() == names_ticked(v).take(i as int),
        decreases xs@.len() - i,
    {
        assert(v[i as int] == xs@[i as int]@);
        list::push(&mut out, words::tick(&words::name(&xs[i])));
        i += 1;
        assert(out.deep_view() =~= names_ticked(v).take(i as int));
    }
    assert(names_ticked(v).take(v.len() as int) =~= names_ticked(v));
    out
}

/// A layering rule that is broken.
pub open spec fn layering_said(rule: Text, a: Text) -> Text {
    "**Breaks a layering rule** (merak.toml says "@ + layer_said(rule, 0) + " may not use "@
        + layer_said(rule, 1) + "): "@ + text::joined(each_use(text::pieces(a, "; "@)), "; "@) + "."@
}

fn layering(rule: &str, a: &str) -> (r: String)
    ensures
        r@ == layering_said(rule@, a@),
{
    text::cat7(
        "**Breaks a layering rule** (merak.toml says ",
        &layer_of(rule, 0),
        " may not use ",
        &layer_of(rule, 1),
        "): ",
        &text::join(&say_uses(&text::split(a, "; ")), "; "),
        ".",
    )
}

/// An ownership rule that is broken.
pub open spec fn ownership_said(subject: Text, a: Text) -> Text {
    "**Breaks an ownership rule** (merak.toml): "@ + ticked(subject) + " is now also written by "@
        + in_words(names_ticked(text::pieces(a, "; "@))) + ", outside the code that owns it."@
}

fn ownership(subject: &str, a: &str) -> (r: String)
    ensures
        r@ == ownership_said(subject@, a@),
{
    text::cat5(
        "**Breaks an ownership rule** (merak.toml): ",
        &words::tick(subject),
        " is now also written by ",
        &words::join_and(&tick_names(&text::split(a, "; "))),
        ", outside the code that owns it.",
    )
}

// ---- endpoints and handlers

/// A new thing, with what it does where that is known.
pub open spec fn doing(lead: Text, a: Text) -> Text {
    match effects_said(a) {
        Some(e) => lead + ": it "@ + e + "."@,
        None => lead + "."@,
    }
}

fn say_doing(lead: &str, a: &str) -> (r: String)
    ensures
        r@ == doing(lead@, a@),
{
    match words::effects_list(a) {
        Some(e) => text::cat4(lead, ": it ", &e, "."),
        None => text::cat2(lead, "."),
    }
}

/// The handler that a note names.
pub open spec fn handler_of(note: Option<Text>) -> Text {
    match note {
        Some(n) => match text::after_prefix(n, "handled by "@) {
            Some(h) => " ("@ + ticked(h) + ")"@,
            None => ""@,
        },
        None => ""@,
    }
}

fn say_handler(note: &Option<String>) -> (r: String)
    ensures
        r@ == handler_of(note.deep_view()),
{
    match note {
        Some(n) => match text::strip_prefix(n, "handled by ") {
            Some(h) => text::cat3(" (", &words::tick(&h), ")"),
            None => "".to_owned(),
        },
        None => "".to_owned(),
    }
}

// ---- sentences

/// A text before and after a change.
pub open spec fn arrow(b: Text, a: Text) -> Text {
    ticked(b) + " → "@ + ticked(a)
}

fn say_arrow(b: &str, a: &str) -> (r: String)
    ensures
        r@ == arrow(b@, a@),
{
    text::cat3(&words::tick(b), " → ", &words::tick(a))
}

/// Access and data: the sentence of an operation of such a kind.
pub open spec fn data_sentence(k: Text, n: Text, b: Text, a: Text) -> Option<Text> {
    if k == "AUTH_WIDENED"@ {
        Some(widened_said(n, b, a))
    } else if k == "AUTH_NARROWED"@ {
        Some(narrowed_said(n, b, a))
    } else if k == "AUTH_CHANGED"@ {
        Some(access_said("Access changed"@, n, b, a))
    } else if k == "QUERY_FILTER_ADDED"@ {
        Some(n + " now only reaches rows where "@ + ticked(a) + "."@)
    } else if k == "QUERY_FILTER_REMOVED"@ {
        Some(n + " no longer filters on "@ + ticked(b) + ", so it can reach more rows."@)
    } else if k == "QUERY_FILTER_CHANGED"@ {
        Some(n + " filters rows differently: "@ + arrow(b, a) + "."@)
    } else if k == "DATAFLOW_EXPANDED"@ {
        Some(n + " now also "@ + code_lists_text(a) + "."@)
    } else if k == "DATAFLOW_RESTRICTED"@ {
        Some(n + " no longer "@ + code_lists_text(b) + "."@)
    } else {
        None
    }
}

fn say_data(k: &str, n: &str, b: &str, a: &str) -> (r: Option<String>)
    ensures
        r.deep_view() == data_sentence(k@, n@, b@, a@),
{
    if text::same(k, "AUTH_WIDENED") {
        Some(widened(n, b, a))
    } else if text::same(k, "AUTH_NARROWED") {
        Some(narrowed(n, b, a))
    } else if text::same(k, "AUTH_CHANGED") {
        Some(access_change("Access changed", n, b, a))
    } else if text::same(k, "QUERY_FILTER_ADDED") {
        Some(text::cat4(n, " now only reaches rows where ", &words::tick(a), "."))
    } else if text::same(k, "QUERY_FILTER_REMOVED") {
        Some(
            text::cat4(
                n,
                " no longer filters on ",
                &words::tick(b),
                ", so it can reach more rows.",
            ),
        )
    } else if text::same(k, "QUERY_FILTER_CHANGED") {
        Some(text::cat4(n, " filters rows differently: ", &say_arrow(b, a), "."))
    } else if text::same(k, "DATAFLOW_EXPANDED") {
        Some(text::cat4(n, " now also ", &words::code_lists(a), "."))
    } else if text::same(k, "DATAFLOW_RESTRICTED") {
        Some(text::cat4(n, " no longer ", &words::code_lists(b), "."))
    } else {
        None
    }
}

/// Effects and endpoints: the sentence of an operation of such a kind.
pub open spec fn effect_sentence(k: Text, n: Text, b: Text, a: Text, op: OpView) -> Option<Text> {
    if k == "EFFECT_ADDED"@ {
        Some(n + " now "@ + effect_text(a) + "."@)
    } else if k == "EFFECT_REMOVED"@ {
        Some(n + " no longer "@ + effect_text(b) + "."@)
    } else if k == "EFFECT_MADE_ASYNC"@ {
        Some(
            n + " now "@ + effect_text(without_mode(a)) + " later, via "@ + via_text(a)
                + ", instead of right away."@,
        )
    } else if k == "EFFECT_MADE_SYNC"@ {
        Some(
            n + " now "@ + effect_text(without_mode(a)) + " right away instead of later via "@
                + via_text(b) + "."@,
        )
    } else if k == "ENTRYPOINT_ADDED"@ {
        Some(doing("New endpoint "@ + ticked(op.subject), a))
    } else if k == "ENTRYPOINT_REMOVED"@ {
        Some("Endpoint "@ + ticked(op.subject) + " was removed."@)
    } else if k == "EVENT_HANDLER_ADDED"@ {
        Some(
            doing(
                "New handler for the "@ + ticked(op.subject) + " event"@ + handler_of(op.note),
                a,
            ),
        )
    } else if k == "EVENT_HANDLER_REMOVED"@ {
        Some("The "@ + ticked(op.subject) + " event is no longer handled here."@)
    } else {
        None
    }
}

fn say_effect(k: &str, n: &str, b: &str, a: &str, op: &Op) -> (r: Option<String>)
    ensures
        r.deep_view() == effect_sentence(k@, n@, b@, a@, op.deep_view()),
{
    if text::same(k, "EFFECT_ADDED") {
        Some(text::cat4(n, " now ", &words::effect(a), "."))
    } else if text::same(k, "EFFECT_REMOVED") {
        Some(text::cat4(n, " no longer ", &words::effect(b), "."))
    } else if text::same(k, "EFFECT_MADE_ASYNC") {
        Some(
            text::cat6(
                n,
                " now ",
                &words::effect(&words::strip_mode(a)),
                " later, via ",
                &words::via(a),
                ", instead of right away.",
            ),
        )
    } else if text::same(k, "EFFECT_MADE_SYNC") {
        Some(
            text::cat6(
                n,
                " now ",
                &words::effect(&words::strip_mode(a)),
                " right away instead of later via ",
                &words::via(b),
                ".",
            ),
        )
    } else if text::same(k, "ENTRYPOINT_ADDED") {
        Some(say_doing(&text::cat2("New endpoint ", &words::tick(&op.subject)), a))
    } else if text::same(k, "ENTRYPOINT_REMOVED") {
        Some(text::cat3("Endpoint ", &words::tick(&op.subject), " was removed."))
    } else if text::same(k, "EVENT_HANDLER_ADDED") {
        let lead = text::cat4(
            "New handler for the ",
            &words::tick(&op.subject),
            " event",
            &say_handler(&op.note),
        );
        Some(say_doing(&lead, a))
    } else if text::same(k, "EVENT_HANDLER_REMOVED") {
        Some(text::cat3("The ", &words::tick(&op.subject), " event is no longer handled here."))
    } else {
        None
    }
}

/// Checks and schemas: the sentence of an operation of such a kind.
pub open spec fn check_sentence(k: Text, n: Text, b: Text, a: Text, subject: Text) -> Option<Text> {
    let (schema, field) = schema_and_field(subject);
    if k == "GUARD_ADDED"@ {
        Some(n + " now only continues if "@ + ticked(a) + "."@)
    } else if k == "GUARD_REMOVED"@ {
        Some(n + " no longer checks that "@ + ticked(b) + "."@)
    } else if k == "GUARD_CHANGED"@ {
        Some(n + " checks something different: "@ + arrow(b, a) + "."@)
    } else if k == "VALIDATION_ADDED"@ {
        Some(n + " now runs the "@ + ticked(subject_name(a)) + " check."@)
    } else if k == "VALIDATION_REMOVED"@ {
        Some(n + " no longer runs the "@ + ticked(subject_name(b)) + " check."@)
    } else if k == "SCHEMA_FIELD_ADDED"@ {
        Some(ticked(schema) + " has a new field "@ + ticked(field) + ": "@ + ticked(a) + "."@)
    } else if k == "SCHEMA_FIELD_REMOVED"@ {
        Some(
            ticked(schema) + " no longer has the field "@ + ticked(field) + " (was "@ + ticked(b)
                + ")."@,
        )
    } else if k == "SCHEMA_FIELD_CHANGED"@ {
        Some(
            ticked(schema) + " validates "@ + ticked(field) + " differently: "@ + arrow(b, a)
                + "."@,
        )
    } else if k == "SCHEMA_CHANGED"@ {
        if b.len() == 0 {
            Some(n + " as a whole is now "@ + ticked(a) + "."@)
        } else {
            Some(n + " as a whole changed: "@ + arrow(b, a) + "."@)
        }
    } else {
        None
    }
}

fn say_check(k: &str, n: &str, b: &str, a: &str, subject: &str) -> (r: Option<String>)
    ensures
        r.deep_view() == check_sentence(k@, n@, b@, a@, subject@),
{
    let (schema, field) = words::schema_field(subject);
    let schema = words::tick(&schema);
    let field = words::tick(&field);
    if text::same(k, "GUARD_ADDED") {
        Some(text::cat4(n, " now only continues if ", &words::tick(a), "."))
    } else if text::same(k, "GUARD_REMOVED") {
        Some(text::cat4(n, " no longer checks that ", &words::tick(b), "."))
    } else if text::same(k, "GUARD_CHANGED") {
        Some(text::cat4(n, " checks something different: ", &say_arrow(b, a), "."))
    } else if text::same(k, "VALIDATION_ADDED") {
        Some(text::cat4(n, " now runs the ", &words::tick(&words::name(a)), " check."))
    } else if text::same(k, "VALIDATION_REMOVED") {
        Some(text::cat4(n, " no longer runs the ", &words::tick(&words::name(b)), " check."))
    } else if text::same(k, "SCHEMA_FIELD_ADDED") {
        Some(text::cat6(&schema, " has a new field ", &field, ": ", &words::tick(a), "."))
    } else if text::same(k, "SCHEMA_FIELD_REMOVED") {
        Some(
            text::cat6(
                &schema,
                " no longer has the field ",
                &field,
                " (was ",
                &words::tick(b),
                ").",
            ),
        )
    } else if text::same(k, "SCHEMA_FIELD_CHANGED") {
        Some(
            text::cat6(&schema, " validates ", &field, " differently: ", &say_arrow(b, a), "."),
        )
    } else if text::same(k, "SCHEMA_CHANGED") {
        if b.is_empty() {
            Some(text::cat4(n, " as a whole is now ", &words::tick(a), "."))
        } else {
            Some(text::cat4(n, " as a whole changed: ", &say_arrow(b, a), "."))
        }
    } else {
        None
    }
}

/// A kind in plain words.
pub open spec fn kind_title(k: Text) -> Text {
    text::lowercase(text::replaced(k, "_"@, " "@))
}

/// A kind in plain words.
pub fn title(k: &str) -> (r: String)
    ensures
        r@ == kind_title(k@),
{
    text::to_lower(&text::replace(k, "_", " "))
}

/// New code, rules and the rest: the sentence of an operation.
pub open spec fn other_sentence(n: Text, b: Text, a: Text, op: OpView) -> Text {
    let k = op.kind;
    if k == "BEHAVIOUR_ADDED"@ {
        "New "@ + n + ": "@ + described(a) + "."@
    } else if k == "INVARIANT_VIOLATED"@ {
        invariant_said(op)
    } else if k == "LAYER_VIOLATION_INTRODUCED"@ {
        layering_said(op.subject, a)
    } else if k == "OWNERSHIP_VIOLATION_INTRODUCED"@ {
        ownership_said(op.subject, a)
    } else if k == "LAYER_VIOLATION_RESOLVED"@ || k == "OWNERSHIP_VIOLATION_RESOLVED"@ {
        "A declared rule is no longer broken in "@ + ticked(op.subject) + "."@
    } else if k == "UNCLASSIFIED_CHANGE"@ {
        n + " changed in a way Merak can't classify"@ + words::calls_said(b, a) + "."@
    } else {
        kind_title(k) + " "@ + n
    }
}

fn say_other(n: &str, b: &str, a: &str, op: &Op) -> (r: String)
    ensures
        r@ == other_sentence(n@, b@, a@, op.deep_view()),
{
    let k = op.kind.as_str();
    if text::same(k, "BEHAVIOUR_ADDED") {
        text::cat5("New ", n, ": ", &words::describe(a), ".")
    } else if text::same(k, "INVARIANT_VIOLATED") {
        say_invariant(op)
    } else if text::same(k, "LAYER_VIOLATION_INTRODUCED") {
        layering(&op.subject, a)
    } else if text::same(k, "OWNERSHIP_VIOLATION_INTRODUCED") {
        ownership(&op.subject, a)
    } else if text::same(k, "LAYER_VIOLATION_RESOLVED") || text::same(
        k,
        "OWNERSHIP_VIOLATION_RESOLVED",
    ) {
        text::cat3("A declared rule is no longer broken in ", &words::tick(&op.subject), ".")
    } else if text::same(k, "UNCLASSIFIED_CHANGE") {
        text::cat4(n, " changed in a way Merak can't classify", &words::calls_summary(b, a), ".")
    } else {
        text::cat3(&title(k), " ", n)
    }
}

/// An operation as a sentence.
pub open spec fn sentence_of(op: OpView) -> Text {
    let n = ticked(subject_name(op.subject));
    let b = blanked(clauses::or_empty(op.before));
    let a = blanked(clauses::or_empty(op.after));
    match data_sentence(op.kind, n, b, a) {
        Some(s) => s,
        None => if text::begins(op.kind, "STATE_TRANSITION"@) {
            state_said(op)
        } else {
            match effect_sentence(op.kind, n, b, a, op) {
                Some(s) => s,
                None => match check_sentence(op.kind, n, b, a, op.subject) {
                    Some(s) => s,
                    None => other_sentence(n, b, a, op),
                },
            }
        },
    }
}

/// An operation as a sentence.
pub fn sentence(op: &Op) -> (r: String)
    ensures
        r@ == sentence_of(op.deep_view()),
{
    let n = words::tick(&words::name(&op.subject));
    let b = match &op.before {
        Some(t) => words::blanks(t),
        None => words::blanks(""),
    };
    let a = match &op.after {
        Some(t) => words::blanks(t),
        None => words::blanks(""),
    };
    if let Some(s) = say_data(&op.kind, &n, &b, &a) {
        return s;
    }
    if text::starts_with(&op.kind, "STATE_TRANSITION") {
        return state(op);
    }
    if let Some(s) = say_effect(&op.kind, &n, &b, &a, op) {
        return s;
    }
    if let Some(s) = say_check(&op.kind, &n, &b, &a, &op.subject) {
        return s;
    }
    say_other(&n, &b, &a, op)
}

} // verus!
