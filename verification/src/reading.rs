//! How the contracts of a change read: in which order, what each says, and what it is about.

use crate::clauses::{ClauseView, ContractDiffView};
use crate::contract::{
    at_rank, attached, belonging, by_row, calls_clause, concerned, contract_of, contracts_from,
    contracts_of, counted, covered_from, drafted, dropped, event_owner_from, explains_calls,
    heir_from, if_held, in_reading_order, invariant_text, is_surface_change, lifecycle_clause,
    noted_writer, other_clause, owner_of, place_of, program_of, quieted, read_first,
    reading_place, risk_of, route_owner, routed, row_rank, rule_clause, says_something,
    schema_clause, schema_field, schema_key, telling, typed_from, values, violation_owner,
    violation_text, with_op, with_ops, with_route, with_routes, with_schema, with_text, DraftView,
};
use crate::matching::MatchingView;
use crate::model::{route_key, EntityKind, ModelView};
use crate::nesting::top_of;
use crate::ops::OpView;
use crate::ordered::{lookup, put, put_values, slot, slot_bounds, without};
use crate::text;
use crate::text::Text;
use vstd::prelude::*;

verus! {

// ---- the order of contracts

/// Of two contracts, the one that stands first is not read after the other.
pub open spec fn reads_well(cs: Seq<ContractDiffView>) -> bool {
    forall|i: int, j: int| 0 <= i < j < cs.len() ==> !read_first(#[trigger] cs[j], #[trigger] cs[i])
}

proof fn reading_place_is(cs: Seq<ContractDiffView>, c: ContractDiffView, i: int)
    requires
        0 <= i <= cs.len(),
    ensures
        i <= reading_place(cs, c, i) <= cs.len(),
        forall|j: int| i <= j < reading_place(cs, c, i) ==> !read_first(c, #[trigger] cs[j]),
        reading_place(cs, c, i) < cs.len() ==> read_first(c, cs[reading_place(cs, c, i)]),
    decreases cs.len() - i,
{
    if i < cs.len() && !read_first(c, cs[i]) {
        reading_place_is(cs, c, i + 1);
    }
}

proof fn reading_is_transitive(c: ContractDiffView, d: ContractDiffView, e: ContractDiffView)
    requires
        read_first(c, d),
        read_first(d, e),
    ensures
        read_first(c, e),
{
    if risk_of(c) == risk_of(d) && risk_of(d) == risk_of(e) {
        text::before_transitive(c.name, d.name, e.name);
    }
}

proof fn reading_on_reads_well(cs: Seq<ContractDiffView>, i: int, acc: Seq<ContractDiffView>)
    requires
        reads_well(acc),
    ensures
        reads_well(in_reading_order(cs, i, acc)),
        0 <= i <= cs.len() ==> in_reading_order(cs, i, acc).len() == acc.len() + cs.len() - i,
    decreases cs.len() - i,
{
    if 0 <= i < cs.len() {
        let c = ContractDiffView { clauses: by_row(cs[i].clauses, 0), ..cs[i] };
        reading_place_is(acc, c, 0);
        let u = reading_place(acc, c, 0);
        let next = acc.insert(u, c);
        assert forall|a: int, b: int| 0 <= a < b < next.len() implies !read_first(
            #[trigger] next[b],
            #[trigger] next[a],
        ) by {
            if a < u && b == u {
                assert(next[a] == acc[a]);
            } else if a == u {
                assert(next[b] == acc[b - 1]);
                if read_first(acc[b - 1], c) {
                    if b - 1 == u {
                        reading_is_transitive(c, acc[u], c);
                        text::before_irreflexive(c.name);
                    } else {
                        reading_is_transitive(acc[b - 1], c, acc[u]);
                    }
                }
            } else {
                let x = if a < u {
                    a
                } else {
                    a - 1
                };
                let y = if b < u {
                    b
                } else {
                    b - 1
                };
                assert(next[a] == acc[x] && next[b] == acc[y]);
            }
        }
        reading_on_reads_well(cs, i + 1, next);
    }
}

// ---- the order of clauses

/// Clauses follow the order of their rows.
pub open spec fn rows_in_order(cs: Seq<ClauseView>) -> bool {
    forall|i: int, j: int|
        0 <= i < j < cs.len() ==> row_rank((#[trigger] cs[i]).row) <= row_rank(
            (#[trigger] cs[j]).row,
        )
}

proof fn at_rank_is(cs: Seq<ClauseView>, rank: int, i: int)
    requires
        0 <= i <= cs.len(),
    ensures
        forall|k: int|
            0 <= k < at_rank(cs, rank, i).len() ==> cs.contains(#[trigger] at_rank(cs, rank, i)[k])
                && row_rank(at_rank(cs, rank, i)[k].row) == rank,
        forall|k: int|
            i <= k < cs.len() && row_rank((#[trigger] cs[k]).row) == rank ==> at_rank(
                cs,
                rank,
                i,
            ).contains(cs[k]),
    decreases cs.len() - i,
{
    if i < cs.len() {
        at_rank_is(cs, rank, i + 1);
        let rest = at_rank(cs, rank, i + 1);
        let all = at_rank(cs, rank, i);
        let head = all.len() - rest.len();
        assert forall|k: int| 0 <= k < all.len() implies cs.contains(#[trigger] all[k]) && row_rank(
            all[k].row,
        ) == rank by {
            if k < head {
                assert(all[k] == cs[i]);
            } else {
                assert(all[k] == rest[k - head]);
            }
        }
        assert forall|k: int|
            i <= k < cs.len() && row_rank((#[trigger] cs[k]).row) == rank implies all.contains(
            cs[k],
        ) by {
            if k == i {
                assert(all[0] == cs[k]);
            } else {
                let n = choose|n: int| 0 <= n < rest.len() && rest[n] == cs[k];
                assert(all[head + n] == cs[k]);
            }
        }
    }
}

proof fn by_row_is(cs: Seq<ClauseView>, rank: int)
    requires
        0 <= rank <= 14,
    ensures
        rows_in_order(by_row(cs, rank)),
        forall|k: int|
            0 <= k < by_row(cs, rank).len() ==> cs.contains(#[trigger] by_row(cs, rank)[k])
                && row_rank(by_row(cs, rank)[k].row) >= rank,
        forall|k: int|
            0 <= k < cs.len() && row_rank((#[trigger] cs[k]).row) >= rank ==> by_row(
                cs,
                rank,
            ).contains(cs[k]),
    decreases 14 - rank,
{
    if rank <= 13 {
        by_row_is(cs, rank + 1);
        at_rank_is(cs, rank, 0);
        let here = at_rank(cs, rank, 0);
        let rest = by_row(cs, rank + 1);
        let all = by_row(cs, rank);
        assert(all == here + rest);
        assert forall|k: int| 0 <= k < all.len() implies cs.contains(#[trigger] all[k]) && row_rank(
            all[k].row,
        ) >= rank by {
            if k < here.len() {
                assert(all[k] == here[k]);
            } else {
                assert(all[k] == rest[k - here.len()]);
            }
        }
        assert forall|i: int, j: int| 0 <= i < j < all.len() implies row_rank(
            (#[trigger] all[i]).row,
        ) <= row_rank((#[trigger] all[j]).row) by {
            if j < here.len() {
                assert(all[i] == here[i] && all[j] == here[j]);
            } else if i < here.len() {
                assert(all[i] == here[i]);
                assert(row_rank(here[i].row) == rank);
            } else {
                assert(all[i] == rest[i - here.len()] && all[j] == rest[j - here.len()]);
            }
        }
        assert forall|k: int|
            0 <= k < cs.len() && row_rank((#[trigger] cs[k]).row) >= rank implies all.contains(
            cs[k],
        ) by {
            if row_rank(cs[k].row) == rank {
                let n = choose|n: int| 0 <= n < here.len() && here[n] == cs[k];
                assert(all[n] == cs[k]);
            } else {
                let n = choose|n: int| 0 <= n < rest.len() && rest[n] == cs[k];
                assert(all[here.len() + n] == cs[k]);
            }
        }
    }
}

// ---- what a contract says

/// A clause that no type fits does not stand beside a change to what a function takes, returns
/// or renders.
pub open spec fn is_quiet(c: ContractDiffView) -> bool {
    explains_calls(c) ==> forall|k: int|
        0 <= k < c.clauses.len() ==> (#[trigger] c.clauses[k]).mark != '?'
}

/// A contract is about an entity that is no constructor.
pub open spec fn is_of_function(b: ModelView, c: ContractDiffView) -> bool {
    lookup(b.entities, c.entity) matches Some(e) && e.kind != EntityKind::Constructor
}

/// A contract is about the program as a whole.
pub open spec fn is_of_program(c: ContractDiffView) -> bool {
    c.entity == "*"@ && c.name == "Program"@
}

/// What a contract is about: an entity that is no constructor, a schema, or the program.
pub open spec fn has_subject(b: ModelView, c: ContractDiffView) -> bool {
    is_of_function(b, c) || c.status == "schema"@ || is_of_program(c)
}

/// A contract that is fit to be read.
pub open spec fn is_well_told(b: ModelView, c: ContractDiffView) -> bool {
    &&& rows_in_order(c.clauses)
    &&& says_something(c)
    &&& is_quiet(c)
    &&& has_subject(b, c)
}

/// A contract that is fit to be read once its clauses are in order.
spec fn is_fit(b: ModelView, c: ContractDiffView) -> bool {
    says_something(c) && is_quiet(c) && has_subject(b, c)
}

proof fn ordering_keeps_fit(b: ModelView, c: ContractDiffView)
    requires
        is_fit(b, c),
    ensures
        is_well_told(b, ContractDiffView { clauses: by_row(c.clauses, 0), ..c }),
{
    let d = ContractDiffView { clauses: by_row(c.clauses, 0), ..c };
    by_row_is(c.clauses, 0);
    if c.ops.len() == 0 {
        let k = choose|k: int| 0 <= k < c.clauses.len() && (#[trigger] c.clauses[k]).mark != ' ';
        let n = choose|n: int| 0 <= n < d.clauses.len() && d.clauses[n] == c.clauses[k];
        assert(d.clauses[n].mark != ' ');
    }
    if explains_calls(d) {
        let k = choose|k: int| 0 <= k < d.clauses.len() && is_surface_change(#[trigger] d.clauses[k]);
        let n = choose|n: int| 0 <= n < c.clauses.len() && c.clauses[n] == d.clauses[k];
        assert(is_surface_change(c.clauses[n]));
        assert forall|k: int| 0 <= k < d.clauses.len() implies (#[trigger] d.clauses[k]).mark
            != '?' by {
            let n = choose|n: int| 0 <= n < c.clauses.len() && c.clauses[n] == d.clauses[k];
            assert(c.clauses[n].mark != '?');
        }
    }
}

proof fn reading_on_tells_well(
    b: ModelView,
    cs: Seq<ContractDiffView>,
    i: int,
    acc: Seq<ContractDiffView>,
)
    requires
        forall|k: int| 0 <= k < cs.len() ==> is_fit(b, #[trigger] cs[k]),
        forall|k: int| 0 <= k < acc.len() ==> is_well_told(b, #[trigger] acc[k]),
    ensures
        forall|k: int|
            0 <= k < in_reading_order(cs, i, acc).len() ==> is_well_told(
                b,
                #[trigger] in_reading_order(cs, i, acc)[k],
            ),
    decreases cs.len() - i,
{
    if 0 <= i < cs.len() {
        let c = ContractDiffView { clauses: by_row(cs[i].clauses, 0), ..cs[i] };
        ordering_keeps_fit(b, cs[i]);
        reading_place_is(acc, c, 0);
        let u = reading_place(acc, c, 0);
        let next = acc.insert(u, c);
        assert forall|k: int| 0 <= k < next.len() implies is_well_told(b, #[trigger] next[k]) by {
            if k < u {
                assert(next[k] == acc[k]);
            } else if k > u {
                assert(next[k] == acc[k - 1]);
            }
        }
        reading_on_tells_well(b, cs, i + 1, next);
        assert(in_reading_order(cs, i, acc) == in_reading_order(cs, i + 1, next));
    }
}

// ---- contracts of entities

/// Every contract of the map is about an entity that is no constructor.
spec fn are_of_functions(b: ModelView, cs: Seq<(Text, ContractDiffView)>) -> bool {
    forall|k: int| 0 <= k < cs.len() ==> is_of_function(b, (#[trigger] cs[k]).1)
}

proof fn stored_is_of_function(
    b: ModelView,
    cs: Seq<(Text, ContractDiffView)>,
    id: Text,
    c: ContractDiffView,
)
    requires
        are_of_functions(b, cs),
        is_of_function(b, c),
    ensures
        are_of_functions(b, put(cs, id, c)),
{
    put_values(cs, id, c);
    let next = put(cs, id, c);
    assert forall|k: int| 0 <= k < next.len() implies is_of_function(b, (#[trigger] next[k]).1) by {
        if next[k] != (id, c) {
            let n = choose|n: int| 0 <= n < cs.len() && cs[n] == next[k];
            assert(is_of_function(b, cs[n].1));
        }
    }
}

proof fn held_is_of_function(b: ModelView, cs: Seq<(Text, ContractDiffView)>, id: Text)
    requires
        are_of_functions(b, cs),
    ensures
        lookup(cs, id) matches Some(c) ==> is_of_function(b, c),
        are_of_functions(b, without(cs, id)),
{
    slot_bounds(cs, id);
    let rest = without(cs, id);
    assert forall|k: int| 0 <= k < rest.len() implies is_of_function(b, (#[trigger] rest[k]).1) by {
        assert(cs.contains(rest[k])) by {
            if rest.len() < cs.len() && k >= slot(cs, id) {
                assert(rest[k] == cs[k + 1]);
            } else {
                assert(rest[k] == cs[k]);
            }
        }
        let n = choose|n: int| 0 <= n < cs.len() && cs[n] == rest[k];
        assert(is_of_function(b, cs[n].1));
    }
}

proof fn contracts_are_of_functions(
    a: ModelView,
    b: ModelView,
    m: MatchingView,
    names: Seq<(Text, Text)>,
    ids: Seq<Text>,
    i: int,
    acc: Seq<(Text, ContractDiffView)>,
)
    requires
        are_of_functions(b, acc),
    ensures
        are_of_functions(b, contracts_from(a, b, m, names, ids, i, acc)),
    decreases ids.len() - i,
{
    if 0 <= i < ids.len() {
        let next = match lookup(b.entities, ids[i]) {
            Some(e) => if e.kind == EntityKind::Constructor {
                acc
            } else {
                put(acc, ids[i], contract_of(a, b, m, names, ids[i], e))
            },
            None => acc,
        };
        if let Some(e) = lookup(b.entities, ids[i]) {
            if e.kind != EntityKind::Constructor {
                stored_is_of_function(b, acc, ids[i], contract_of(a, b, m, names, ids[i], e));
            }
        }
        contracts_are_of_functions(a, b, m, names, ids, i + 1, next);
    }
}

proof fn route_keeps_functions(
    b: ModelView,
    cs: Seq<(Text, ContractDiffView)>,
    id: Text,
    route: Text,
)
    requires
        are_of_functions(b, cs),
    ensures
        are_of_functions(b, with_route(cs, id, route)),
{
    held_is_of_function(b, cs, id);
    if let Some(c) = lookup(cs, id) {
        let d = ContractDiffView {
            new_routes: with_text(c.new_routes, route),
            ..c
        };
        stored_is_of_function(b, cs, id, d);
    }
}

proof fn routes_keep_functions(
    a: ModelView,
    b: ModelView,
    i: int,
    cs: Seq<(Text, ContractDiffView)>,
)
    requires
        are_of_functions(b, cs),
    ensures
        are_of_functions(b, with_routes(a, b, i, cs)),
    decreases b.routes.len() - i,
{
    if 0 <= i < b.routes.len() {
        let r = b.routes[i];
        let top = top_of(b, r.handler);
        let key = route_key(r);
        route_keeps_functions(b, cs, top, key);
        routes_keep_functions(a, b, i + 1, cs);
        routes_keep_functions(a, b, i + 1, with_route(cs, top, key));
    }
}

// ---- drafts

/// A clause is not about what a function takes, returns or renders.
spec fn is_elsewhere(x: ClauseView) -> bool {
    x.row != "takes"@ && x.row != "returns"@ && x.row != "renders"@
}

/// The contract of a schema says something, and nothing of a function's surface.
spec fn is_of_schema(c: ContractDiffView) -> bool {
    &&& c.status == "schema"@
    &&& c.ops.len() > 0
    &&& forall|k: int| 0 <= k < c.clauses.len() ==> is_elsewhere(#[trigger] c.clauses[k])
}

/// Drafts whose parts are about what they should be.
spec fn is_sound(b: ModelView, d: DraftView) -> bool {
    &&& are_of_functions(b, d.contracts)
    &&& forall|k: int| 0 <= k < d.schemas.len() ==> is_of_schema((#[trigger] d.schemas[k]).1)
    &&& forall|k: int| 0 <= k < d.program.len() ==> is_elsewhere((#[trigger] d.program[k]).0)
}

proof fn rows_are_elsewhere()
    ensures
        forall|x: ClauseView|
            (#[trigger] x.row) == "lifecycle"@ || x.row == "rule"@ || x.row == "input"@ || x.row
                == "calls"@ || x.row == "other"@ ==> is_elsewhere(x),
{
    reveal_strlit("takes");
    reveal_strlit("returns");
    reveal_strlit("renders");
    reveal_strlit("lifecycle");
    reveal_strlit("rule");
    reveal_strlit("input");
    reveal_strlit("calls");
    reveal_strlit("other");
    assert("takes"@.len() == 5 && "returns"@.len() == 7 && "renders"@.len() == 7);
    assert("lifecycle"@.len() == 9 && "rule"@.len() == 4);
    assert("takes"@[0] == 't' && "input"@[0] == 'i' && "calls"@[0] == 'c' && "other"@[0] == 'o');
    assert("input"@.len() == 5 && "calls"@.len() == 5 && "other"@.len() == 5);
}

proof fn attaching_is_sound(
    b: ModelView,
    d: DraftView,
    owner: Option<Text>,
    cl: ClauseView,
    op: Text,
)
    requires
        is_sound(b, d),
        is_elsewhere(cl),
    ensures
        is_sound(b, attached(d, owner, cl, op)),
{
    if let Some(o) = owner {
        held_is_of_function(b, d.contracts, o);
        if let Some(c) = lookup(d.contracts, o) {
            let next = ContractDiffView { clauses: c.clauses.push(cl), ops: c.ops.push(op), ..c };
            stored_is_of_function(b, d.contracts, o, next);
        }
    }
}

proof fn counting_is_sound(b: ModelView, d: DraftView, owner: Option<Text>, op: OpView)
    requires
        is_sound(b, d),
    ensures
        is_sound(b, counted(d, owner, op)),
{
    rows_are_elsewhere();
    assert(is_elsewhere(other_clause(op)));
    if let Some(o) = owner {
        held_is_of_function(b, d.contracts, o);
        if let Some(c) = lookup(d.contracts, o) {
            let next = ContractDiffView { ops: c.ops.push(op.id), ..c };
            stored_is_of_function(b, d.contracts, o, next);
        }
    }
}

proof fn routing_is_sound(b: ModelView, d: DraftView, owner: Option<Text>, route: Text)
    requires
        is_sound(b, d),
    ensures
        is_sound(b, routed(d, owner, route)),
{
    if let Some(o) = owner {
        route_keeps_functions(b, d.contracts, o, route);
    }
}

proof fn schema_is_sound(b: ModelView, d: DraftView, op: OpView)
    requires
        is_sound(b, d),
    ensures
        is_sound(b, with_schema(d, op)),
{
    rows_are_elsewhere();
    let key = schema_key(op.subject);
    slot_bounds(d.schemas, key);
    let next = with_schema(d, op).schemas;
    let cl = schema_clause(op);
    assert(is_elsewhere(cl));
    let had = match lookup(d.schemas, key) {
        Some(c) => c,
        None => ContractDiffView {
            entity: key,
            name: schema_field(op.subject).0,
            status: "schema"@,
            loc: place_of(op),
            routes: seq![],
            new_routes: seq![],
            clauses: seq![],
            ops: seq![],
        },
    };
    let one = ContractDiffView { clauses: had.clauses.push(cl), ops: had.ops.push(op.id), ..had };
    assert(next == put(d.schemas, key, one));
    assert(is_of_schema(one));
    put_values(d.schemas, key, one);
    assert forall|k: int| 0 <= k < next.len() implies is_of_schema((#[trigger] next[k]).1) by {
        if next[k] != (key, one) {
            let n = choose|n: int| 0 <= n < d.schemas.len() && d.schemas[n] == next[k];
            assert(is_of_schema(d.schemas[n].1));
        }
    }
}

proof fn op_is_sound(b: ModelView, d: DraftView, op: OpView)
    requires
        is_sound(b, d),
    ensures
        is_sound(b, with_op(b, d, op)),
{
    rows_are_elsewhere();
    if text::begins(op.kind, "SCHEMA_"@) {
        schema_is_sound(b, d, op);
    } else if text::begins(op.kind, "STATE_TRANSITION"@) {
        let owner = owner_of(
            b,
            d.contracts,
            noted_writer(op.note),
            op,
        );
        attaching_is_sound(b, d, owner, lifecycle_clause(op), op.id);
    } else if op.kind == "INVARIANT_VIOLATED"@ {
        let writer = match op.after {
            Some(x) => text::replaced(x, " does not satisfy it"@, ""@),
            None => ""@,
        };
        attaching_is_sound(
            b,
            d,
            owner_of(b, d.contracts, Some(writer), op),
            rule_clause(
                invariant_text(op),
                "inferred pattern"@,
                op,
            ),
            op.id,
        );
    } else if op.kind == "LAYER_VIOLATION_INTRODUCED"@ || op.kind
        == "OWNERSHIP_VIOLATION_INTRODUCED"@ {
        attaching_is_sound(
            b,
            d,
            violation_owner(b, d, op),
            rule_clause(
                violation_text(op),
                "declared in merak.toml"@,
                op,
            ),
            op.id,
        );
    } else if op.kind == "UNCLASSIFIED_CHANGE"@ {
        attaching_is_sound(
            b,
            d,
            if_held(d, top_of(b, op.subject)),
            calls_clause(op),
            op.id,
        );
    } else if op.kind == "ENTRYPOINT_ADDED"@ {
        let owner = route_owner(b, d, op);
        routing_is_sound(b, d, owner, op.subject);
        counting_is_sound(b, routed(d, owner, op.subject), owner, op);
    } else if op.kind == "EVENT_HANDLER_ADDED"@ {
        let owner = event_owner_from(b, d, op.subject, 0);
        let route = "event "@ + op.subject;
        routing_is_sound(b, d, owner, route);
        counting_is_sound(b, routed(d, owner, route), owner, op);
    } else {
        let owner = if lookup(b.entities, op.subject) is Some {
            Some(top_of(b, op.subject))
        } else {
            None
        };
        counting_is_sound(b, d, owner, op);
    }
}

proof fn ops_are_sound(b: ModelView, ops: Seq<OpView>, i: int, d: DraftView)
    requires
        is_sound(b, d),
    ensures
        is_sound(b, with_ops(b, ops, i, d)),
    decreases ops.len() - i,
{
    if 0 <= i < ops.len() {
        op_is_sound(b, d, ops[i]);
        ops_are_sound(b, ops, i + 1, d);
        ops_are_sound(b, ops, i + 1, with_op(b, d, ops[i]));
    }
}

// ---- what stays

proof fn heir_is_there(b: ModelView, cs: Seq<(Text, ContractDiffView)>, id: Text, i: int)
    requires
        0 <= i,
    ensures
        heir_from(b, cs, id, i) matches Some(k) ==> 0 <= k < cs.len(),
    decreases cs.len() - i,
{
    if i < cs.len() {
        heir_is_there(b, cs, id, i + 1);
    }
}

proof fn dropping_keeps_functions(
    b: ModelView,
    ids: Seq<Text>,
    i: int,
    cs: Seq<(Text, ContractDiffView)>,
)
    requires
        are_of_functions(b, cs),
    ensures
        are_of_functions(b, dropped(b, ids, i, cs)),
    decreases ids.len() - i,
{
    if 0 <= i < ids.len() {
        held_is_of_function(b, cs, ids[i]);
        let rest = without(cs, ids[i]);
        dropping_keeps_functions(b, ids, i + 1, rest);
        heir_is_there(b, rest, ids[i], 0);
        if let Some(c) = lookup(cs, ids[i]) {
            if let Some(k) = heir_from(b, rest, ids[i], 0) {
                let d = ContractDiffView { ops: rest[k].1.ops + c.ops, ..rest[k].1 };
                assert(is_of_function(b, rest[k].1));
                stored_is_of_function(b, rest, rest[k].0, d);
                dropping_keeps_functions(b, ids, i + 1, put(rest, rest[k].0, d));
            }
        }
    }
}

proof fn typed_have_marks(cs: Seq<ClauseView>, i: int)
    requires
        0 <= i,
    ensures
        forall|k: int|
            0 <= k < typed_from(cs, i).len() ==> (#[trigger] typed_from(cs, i)[k]).mark != '?',
    decreases cs.len() - i,
{
    if i < cs.len() {
        typed_have_marks(cs, i + 1);
        let rest = typed_from(cs, i + 1);
        let all = typed_from(cs, i);
        let head = all.len() - rest.len();
        assert forall|k: int| 0 <= k < all.len() implies (#[trigger] all[k]).mark != '?' by {
            if k >= head {
                assert(all[k] == rest[k - head]);
            }
        }
    }
}

/// Every contract of the map is fit to be read.
spec fn are_fit(b: ModelView, cs: Seq<(Text, ContractDiffView)>) -> bool {
    forall|k: int| 0 <= k < cs.len() ==> is_fit(b, (#[trigger] cs[k]).1)
}

proof fn telling_are_fit(
    b: ModelView,
    cs: Seq<(Text, ContractDiffView)>,
    i: int,
    acc: Seq<(Text, ContractDiffView)>,
)
    requires
        are_of_functions(b, cs),
        are_fit(b, acc),
    ensures
        are_fit(b, telling(cs, i, acc)),
    decreases cs.len() - i,
{
    if 0 <= i < cs.len() {
        let c = quieted(cs[i].1);
        typed_have_marks(cs[i].1.clauses, 0);
        assert(is_of_function(b, cs[i].1));
        telling_are_fit(b, cs, i + 1, acc);
        if says_something(c) {
            assert(is_fit(b, c));
            let next = put(acc, cs[i].0, c);
            put_values(acc, cs[i].0, c);
            assert forall|k: int| 0 <= k < next.len() implies is_fit(b, (#[trigger] next[k]).1) by {
                if next[k] != (cs[i].0, c) {
                    let n = choose|n: int| 0 <= n < acc.len() && acc[n] == next[k];
                    assert(is_fit(b, acc[n].1));
                }
            }
            telling_are_fit(b, cs, i + 1, next);
        }
    }
}

proof fn belonging_are_fit(b: ModelView, cs: Seq<(Text, ContractDiffView)>, i: int)
    requires
        are_fit(b, cs),
        0 <= i,
    ensures
        forall|k: int|
            0 <= k < belonging(b, cs, i).len() ==> is_fit(b, #[trigger] belonging(b, cs, i)[k]),
    decreases cs.len() - i,
{
    if i < cs.len() {
        belonging_are_fit(b, cs, i + 1);
        let rest = belonging(b, cs, i + 1);
        let all = belonging(b, cs, i);
        let head = all.len() - rest.len();
        assert(is_fit(b, cs[i].1));
        assert forall|k: int| 0 <= k < all.len() implies is_fit(b, #[trigger] all[k]) by {
            if k >= head {
                assert(all[k] == rest[k - head]);
            } else {
                assert(all[k] == cs[i].1);
            }
        }
    }
}

// ---- the law

/// The contracts of a change are read the riskiest first, those of one risk by name. The clauses
/// of each follow the order of the rows, each says something, none has a clause that no type fits
/// beside a change to what a function takes, returns or renders, and none is about a constructor.
pub proof fn contracts_read_well(a: ModelView, b: ModelView, m: MatchingView, ops: Seq<OpView>)
    ensures
        reads_well(contracts_of(a, b, m, ops)),
        forall|k: int|
            0 <= k < contracts_of(a, b, m, ops).len() ==> is_well_told(
                b,
                #[trigger] contracts_of(a, b, m, ops)[k],
            ),
{
    let d = drafted(a, b, m, ops);
    let left = dropped(b, covered_from(b, d.contracts, 0), 0, d.contracts);
    let kept = telling(left, 0, seq![]);
    let none = Seq::<ContractDiffView>::empty();
    assert(none =~= seq![]);
    let all = belonging(b, kept, 0) + values(d.schemas) + program_of(d.program);
    reading_on_reads_well(all, 0, none);
    let (names, ids) = concerned(a, b, m, ops);
    let first = contracts_from(a, b, m, names, ids, 0, seq![]);
    contracts_are_of_functions(a, b, m, names, ids, 0, seq![]);
    routes_keep_functions(a, b, 0, first);
    let start = DraftView {
        contracts: with_routes(a, b, 0, first),
        schemas: seq![],
        program: seq![],
    };
    ops_are_sound(b, ops, 0, start);
    dropping_keeps_functions(b, covered_from(b, d.contracts, 0), 0, d.contracts);
    telling_are_fit(b, left, 0, seq![]);
    belonging_are_fit(b, kept, 0);
    assert forall|k: int| 0 <= k < all.len() implies is_fit(b, #[trigger] all[k]) by {
        let n = belonging(b, kept, 0).len();
        let s = values(d.schemas).len();
        if k < n {
            assert(all[k] == belonging(b, kept, 0)[k]);
        } else if k < n + s {
            assert(all[k] == d.schemas[k - n].1);
            assert(is_of_schema(d.schemas[k - n].1));
        } else {
            let c = program_of(d.program)[0];
            assert(all[k] == c);
            assert forall|j: int| 0 <= j < c.clauses.len() implies is_elsewhere(
                #[trigger] c.clauses[j],
            ) by {
                assert(is_elsewhere(d.program[j].0));
            }
        }
    }
    reading_on_tells_well(b, all, 0, none);
}

} // verus!
