//! Changes to state machines: the states from which a state is reached.

use crate::ir::{Loc, LocView};
use crate::list;
use crate::list::Plain;
use crate::model::{
    entry_points, sources_from, targets_from, Model, ModelView, StateEdgeView, StateMachine,
    StateMachineView,
};
use crate::ops::{found, found_op, short, short_name, Layer, Op, OpView};
use crate::ordered::{keys, lookup, set_of, united, within, SortedSet};
use crate::pred::{render_set, set_text};
use crate::text;
use crate::text::Text;
use vstd::prelude::*;

verus! {

/// The states that a machine reaches; none without a machine.
pub open spec fn states_reached(sm: Option<StateMachineView>) -> Seq<Text> {
    match sm {
        Some(s) => targets_from(s.edges, 0, seq![]),
        None => seq![],
    }
}

/// The states from which a machine reaches `to`; none without a machine.
pub open spec fn ways_to(sm: Option<StateMachineView>, to: Text) -> Seq<Text> {
    match sm {
        Some(s) => sources_from(s.edges, to, 0, seq![]),
        None => seq![],
    }
}

/// The places of the edges to `to` from index `i` on.
pub open spec fn places_to(edges: Seq<StateEdgeView>, to: Text, i: int) -> Seq<LocView>
    decreases edges.len() - i,
{
    if 0 <= i < edges.len() {
        (if edges[i].to == to {
            seq![edges[i].loc]
        } else {
            seq![]
        }) + places_to(edges, to, i + 1)
    } else {
        seq![]
    }
}

/// Where a machine reaches `to`.
pub open spec fn places_of(sm: Option<StateMachineView>, to: Text) -> Seq<LocView> {
    match sm {
        Some(s) => places_to(s.edges, to, 0),
        None => seq![],
    }
}

/// The kind of a change from some sources to others. Sources are widened exactly if all old
/// ones are still there, and narrowed exactly if only some of them are.
pub open spec fn transition_kind(src_a: Seq<Text>, src_b: Seq<Text>) -> Text {
    if src_a.len() == 0 {
        "STATE_TRANSITION_ADDED"@
    } else if src_b.len() == 0 {
        "STATE_TRANSITION_REMOVED"@
    } else if within(src_a, src_b) {
        "STATE_TRANSITION_SOURCE_WIDENED"@
    } else if within(src_b, src_a) {
        "STATE_TRANSITION_SOURCE_NARROWED"@
    } else {
        "STATE_TRANSITION_CHANGED"@
    }
}

/// The sources as text; nothing where there are none.
pub open spec fn sources_text(sources: Seq<Text>) -> Option<Text> {
    if sources.len() == 0 {
        None
    } else {
        Some(set_text(sources))
    }
}

/// The writers of the edges to `to` from index `i` on that have a source which is new.
pub open spec fn new_writers(edges: Seq<StateEdgeView>, to: Text, src_a: Seq<Text>, i: int) -> Seq<Text>
    decreases edges.len() - i,
{
    if 0 <= i < edges.len() {
        (if edges[i].to == to && !within(edges[i].from, src_a) {
            seq![edges[i].writer]
        } else {
            seq![]
        }) + new_writers(edges, to, src_a, i + 1)
    } else {
        seq![]
    }
}

/// The writers that a machine has for new ways to `to`.
pub open spec fn writers_of(sm: Option<StateMachineView>, to: Text, src_a: Seq<Text>) -> Seq<Text> {
    match sm {
        Some(s) => new_writers(s.edges, to, src_a, 0),
        None => seq![],
    }
}

/// The entry points that reach the entities from index `i` on, added to `acc`.
pub open spec fn entries_from(m: ModelView, ids: Seq<Text>, i: int, acc: Seq<Text>) -> Seq<Text>
    decreases ids.len() - i,
{
    if 0 <= i < ids.len() {
        entries_from(m, ids, i + 1, united(acc, set_of(entry_points(m, ids[i]))))
    } else {
        acc
    }
}

/// The names of entities.
pub open spec fn short_names(ids: Seq<Text>) -> Seq<Text> {
    Seq::new(ids.len(), |i: int| short_name(ids[i]))
}

/// The change to the ways to one state.
pub open spec fn state_change(
    b: ModelView,
    field: Text,
    sma: Option<StateMachineView>,
    smb: Option<StateMachineView>,
    to: Text,
) -> Seq<OpView> {
    let src_a = ways_to(sma, to);
    let src_b = ways_to(smb, to);
    if src_a == src_b {
        seq![]
    } else {
        let writers = writers_of(smb, to, src_a);
        seq![
            OpView {
                affects: entries_from(b, writers, 0, seq![]),
                note: if writers.len() == 0 {
                    None
                } else {
                    Some("new path via "@ + text::joined(short_names(writers), ", "@))
                },
                ..found(
                    transition_kind(src_a, src_b),
                    Layer::Behaviour,
                    field + " → "@ + to,
                    sources_text(src_a),
                    sources_text(src_b),
                    places_of(sma, to),
                    places_of(smb, to),
                )
            },
        ]
    }
}

/// The changes to the ways to the states from index `i` on.
pub open spec fn machine_changes(
    b: ModelView,
    field: Text,
    sma: Option<StateMachineView>,
    smb: Option<StateMachineView>,
    states: Seq<Text>,
    i: int,
) -> Seq<OpView>
    decreases states.len() - i,
{
    if 0 <= i < states.len() {
        state_change(b, field, sma, smb, states[i]) + machine_changes(
            b,
            field,
            sma,
            smb,
            states,
            i + 1,
        )
    } else {
        seq![]
    }
}

/// The changes to the machines of the fields from index `i` on.
pub open spec fn state_changes_from(a: ModelView, b: ModelView, fields: Seq<Text>, i: int) -> Seq<OpView>
    decreases fields.len() - i,
{
    if 0 <= i < fields.len() {
        let sma = lookup(a.state_machines, fields[i]);
        let smb = lookup(b.state_machines, fields[i]);
        machine_changes(
            b,
            fields[i],
            sma,
            smb,
            united(states_reached(sma), states_reached(smb)),
            0,
        ) + state_changes_from(a, b, fields, i + 1)
    } else {
        seq![]
    }
}

/// The changes to state machines.
pub open spec fn state_changes(a: ModelView, b: ModelView) -> Seq<OpView> {
    state_changes_from(
        a,
        b,
        united(set_of(keys(a.state_machines)), set_of(keys(b.state_machines))),
        0,
    )
}

// ---- execution

fn targets(sm: Option<&StateMachine>) -> (r: SortedSet<String>)
    ensures
        r.deep_view() == states_reached(sm.deep_view()),
{
    match sm {
        Some(s) => s.targets(),
        None => SortedSet::new(),
    }
}

fn sources(sm: Option<&StateMachine>, to: &String) -> (r: SortedSet<String>)
    ensures
        r.deep_view() == ways_to(sm.deep_view(), to@),
{
    match sm {
        Some(s) => s.sources_of(to),
        None => SortedSet::new(),
    }
}

fn evidence(sm: Option<&StateMachine>, to: &String) -> (r: Vec<Loc>)
    ensures
        r.deep_view() == places_of(sm.deep_view(), to@),
{
    let mut out: Vec<Loc> = list::empty();
    if let Some(s) = sm {
        let ghost v = s.edges.deep_view();
        let mut i: usize = 0;
        while i < s.edges.len()
            invariant
                i <= s.edges@.len(),
                v == s.edges.deep_view(),
                out.deep_view() + places_to(v, to@, i as int) == places_to(v, to@, 0),
            decreases s.edges@.len() - i,
        {
            assert(v[i as int] == s.edges@[i as int].deep_view());
            if s.edges[i].to.alike(to) {
                list::push(&mut out, s.edges[i].loc.dup());
            }
            i += 1;
        }
    }
    out
}

fn fresh_writers(sm: Option<&StateMachine>, to: &String, src_a: &SortedSet<String>) -> (r: Vec<String>)
    ensures
        r.deep_view() == writers_of(sm.deep_view(), to@, src_a.deep_view()),
{
    let mut out: Vec<String> = list::empty();
    if let Some(s) = sm {
        let ghost v = s.edges.deep_view();
        let ghost av = src_a.deep_view();
        let mut i: usize = 0;
        while i < s.edges.len()
            invariant
                i <= s.edges@.len(),
                v == s.edges.deep_view(),
                av == src_a.deep_view(),
                out.deep_view() + new_writers(v, to@, av, i as int) == new_writers(v, to@, av, 0),
            decreases s.edges@.len() - i,
        {
            assert(v[i as int] == s.edges@[i as int].deep_view());
            if s.edges[i].to.alike(to) && !s.edges[i].from.is_subset(src_a) {
                list::push(&mut out, s.edges[i].writer.dup());
            }
            i += 1;
        }
    }
    out
}

fn entries(m: &Model, ids: &Vec<String>) -> (r: Vec<String>)
    ensures
        r.deep_view() == entries_from(m.deep_view(), ids.deep_view(), 0, seq![]),
{
    let ghost mv = m.deep_view();
    let ghost v = ids.deep_view();
    let mut out: SortedSet<String> = SortedSet::new();
    let mut i: usize = 0;
    while i < ids.len()
        invariant
            i <= ids@.len(),
            mv == m.deep_view(),
            v == ids.deep_view(),
            entries_from(mv, v, i as int, out.deep_view()) == entries_from(mv, v, 0, seq![]),
        decreases ids@.len() - i,
    {
        out.unite(&SortedSet::of(&m.entry_points_reaching(&ids[i])));
        i += 1;
    }
    out.list()
}

/// The names of entities.
pub fn names(ids: &Vec<String>) -> (r: Vec<String>)
    ensures
        r.deep_view() == short_names(ids.deep_view()),
{
    let ghost v = ids.deep_view();
    let mut out: Vec<String> = list::empty();
    let mut i: usize = 0;
    while i < ids.len()
        invariant
            i <= ids@.len(),
            v == ids.deep_view(),
            out.deep_view() == short_names(v).take(i as int),
        decreases ids@.len() - i,
    {
        list::push(&mut out, short(&ids[i]));
        i += 1;
        assert(out.deep_view() =~= short_names(v).take(i as int));
    }
    assert(short_names(v).take(v.len() as int) =~= short_names(v));
    out
}

fn shown(sources: &SortedSet<String>) -> (r: Option<String>)
    ensures
        r.deep_view() == sources_text(sources.deep_view()),
{
    if sources.len() == 0 {
        None
    } else {
        Some(render_set(sources))
    }
}

fn changed_state(
    b: &Model,
    field: &String,
    sma: Option<&StateMachine>,
    smb: Option<&StateMachine>,
    to: &String,
) -> (r: Vec<Op>)
    ensures
        r.deep_view() == state_change(
            b.deep_view(),
            field@,
            sma.deep_view(),
            smb.deep_view(),
            to@,
        ),
{
    let src_a = sources(sma, to);
    let src_b = sources(smb, to);
    if src_a.alike(&src_b) {
        return list::empty();
    }
    let kind = if src_a.len() == 0 {
        "STATE_TRANSITION_ADDED"
    } else if src_b.len() == 0 {
        "STATE_TRANSITION_REMOVED"
    } else if src_a.is_subset(&src_b) {
        "STATE_TRANSITION_SOURCE_WIDENED"
    } else if src_b.is_subset(&src_a) {
        "STATE_TRANSITION_SOURCE_NARROWED"
    } else {
        "STATE_TRANSITION_CHANGED"
    };
    let writers = fresh_writers(smb, to, &src_a);
    let mut op = found_op(
        kind,
        Layer::Behaviour,
        &text::cat3(field, " → ", to),
        shown(&src_a),
        shown(&src_b),
        evidence(sma, to),
        evidence(smb, to),
    );
    op.affects = entries(b, &writers);
    if writers.len() > 0 {
        op.note = Some(text::cat2("new path via ", &text::join(&names(&writers), ", ")));
    }
    list::one(op)
}

/// The changes to state machines.
pub fn changed_states(a: &Model, b: &Model) -> (r: Vec<Op>)
    ensures
        r.deep_view() == state_changes(a.deep_view(), b.deep_view()),
{
    let ghost av = a.deep_view();
    let ghost bv = b.deep_view();
    let mut fields = SortedSet::of(&a.state_machines.keys());
    fields.unite(&SortedSet::of(&b.state_machines.keys()));
    let ghost fv = fields.deep_view();
    let mut out: Vec<Op> = list::empty();
    let mut i: usize = 0;
    while i < fields.len()
        invariant
            i <= fv.len(),
            av == a.deep_view(),
            bv == b.deep_view(),
            fv == fields.deep_view(),
            out.deep_view() + state_changes_from(av, bv, fv, i as int) == state_changes_from(
                av,
                bv,
                fv,
                0,
            ),
        decreases fv.len() - i,
    {
        let f = fields.item(i);
        let sma = a.state_machines.get(f);
        let smb = b.state_machines.get(f);
        let ghost sav = sma.deep_view();
        let ghost sbv = smb.deep_view();
        let mut states = targets(sma);
        states.unite(&targets(smb));
        let ghost tv = states.deep_view();
        let ghost before = out.deep_view();
        let mut j: usize = 0;
        while j < states.len()
            invariant
                j <= tv.len(),
                bv == b.deep_view(),
                sav == sma.deep_view(),
                sbv == smb.deep_view(),
                tv == states.deep_view(),
                out.deep_view() + machine_changes(bv, f@, sav, sbv, tv, j as int) == before
                    + machine_changes(bv, f@, sav, sbv, tv, 0),
            decreases tv.len() - j,
        {
            list::append(&mut out, changed_state(b, f, sma, smb, states.item(j)));
            j += 1;
        }
        assert(out.deep_view() =~= before + machine_changes(bv, f@, sav, sbv, tv, 0));
        i += 1;
    }
    out
}

} // verus!
