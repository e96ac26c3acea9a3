//! Transitions in words.

use merak::blocks::{contract_lines, contracts};
use merak::citation::cite;
use merak::list::Plain;
use merak::ops::Op;
use merak::ordered::SortedMap;
use merak::phrases::{sentence, title};
use merak::pipeline;
use merak::render::{also, bullets, detailed, headline, markdown, NewCode};
use merak::words::{
    blanks, call_name, calls_summary, code_lists, describe, effect, effects_list, join_and, key_of,
    list_values, name, parse_set, plural, requirements, schema_field, set_values, split_clauses,
    strip_mode, unclauses, who,
};

type Files = SortedMap<String, String>;

fn s(x: &str) -> String {
    x.to_string()
}

#[test]
fn names_stop_at_closures() {
    assert_eq!(name("src/a.ts::OrderService.cancel.$if#2"), "OrderService.cancel");
    assert_eq!(name("src/a.ts::<anonymous>"), "<anonymous>");
    assert_eq!(name("f"), "f");
}

#[test]
fn unknown_values_are_ellipses() {
    assert_eq!(blanks("asset.ownerId = _"), "asset.ownerId = …");
    assert_eq!(blanks("permission=_"), "permission=_");
    assert_eq!(blanks("a_b _ __"), "a_b … __");
}

#[test]
fn requirements_are_spelled_out() {
    assert_eq!(
        requirements("permission=asset.share, public=true"),
        "the `asset.share` permission and public access (no login)"
    );
    assert_eq!(requirements("admin=true"), "an admin");
    assert_eq!(requirements("roles=ADMIN"), "role `ADMIN`");
    assert_eq!(requirements("scope=read"), "the `read` scope");
    assert_eq!(requirements("permissions=_"), "a permission chosen by its callers");
    assert_eq!(requirements("tenant=x"), "`tenant=x`");
    assert_eq!(key_of("permissions=_"), "permission");
}

#[test]
fn sets_are_read_back() {
    assert_eq!(set_values("{A, B}"), Some(vec![s("A"), s("B")]));
    assert_eq!(set_values("{}"), Some(vec![]));
    assert_eq!(set_values("A"), None);
    assert_eq!(parse_set("User.role ∈ {ADMIN, MANAGER}").map(|p| p.0), Some(s("User.role")));
    assert_eq!(parse_set("User.role"), None);
    assert_eq!(who("User.role"), "role ");
    assert_eq!(who("User.permissions"), "permission ");
    assert_eq!(who("Order.owner"), "`Order.owner` = ");
}

#[test]
fn lists_end_in_and() {
    assert_eq!(join_and(&vec![]), "");
    assert_eq!(join_and(&vec![s("a")]), "a");
    assert_eq!(join_and(&vec![s("a"), s("b"), s("c")]), "a, b and c");
    assert_eq!(list_values(&vec![]), "nothing");
    assert_eq!(list_values(&vec![s("a"), s("b")]), "`a` and `b`");
    assert_eq!(plural(1, "change", "changes"), "1 change");
    assert_eq!(plural(0, "change", "changes"), "0 changes");
}

#[test]
fn effects_are_verbs() {
    assert_eq!(effect("db_write order (sync)"), "writes the `order` table");
    assert_eq!(effect("db_read <dynamic>"), "reads a table chosen at runtime");
    assert_eq!(effect("http POST payments.example.com"), "calls `POST payments.example.com`");
    assert_eq!(effect("http GET <dynamic>"), "makes a GET HTTP request");
    assert_eq!(effect("http "), "makes an HTTP request");
    assert_eq!(effect("queue mail"), "queues `mail` jobs");
    assert_eq!(effect("fs_write "), "writes files");
    assert_eq!(effect("mystery x"), "`mystery x`");
    assert_eq!(strip_mode("http POST x (async via E)"), "http POST x");
    assert_eq!(merak::words::via("http POST x (async via OrderCancelled)"), "the `OrderCancelled` event");
    assert_eq!(merak::words::via("http POST x"), "an event");
    assert_eq!(effects_list("db_read order, db_write order"), Some(s("reads and writes the `order` table")));
    assert_eq!(effects_list(""), None);
}

#[test]
fn summaries_are_described_and_split() {
    assert_eq!(
        describe("effects: db_write order; requires: permission=order.write; guards: a, b"),
        "writes the `order` table; requires the `order.write` permission; only continues if `a` and `b`"
    );
    let parts = split_clauses("effects: a, b; requires: c");
    assert_eq!(parts, [(s("effects"), s("a")), (s("effects"), s("b")), (s("requires"), s("c"))]);
    assert_eq!(unclauses(&parts), "effects: a, b; requires: c");
    assert_eq!(code_lists("writes Order.status, Order.id; reads User.id"), "writes `Order.status`, `Order.id` and reads `User.id`");
    assert_eq!(schema_field("src/t.ts::Tag.name"), (s("Tag"), s("name")));
    assert_eq!(schema_field("src/t.ts::Tag"), (s("Tag"), s("")));
}

#[test]
fn calls_are_named() {
    assert_eq!(call_name("typed.trim()…toLowerCase() when x"), "toLowerCase");
    assert_eq!(call_name("UserRepository.update(_)"), "UserRepository.update");
    assert_eq!(call_name("a.toLowerCase().indexOf(_)"), "indexOf");
    assert_eq!(calls_summary("f(_)", "f(_); g(_)"), ": it now also calls `g`");
    assert_eq!(calls_summary("f(_); g(_)", "f(_)"), ": it no longer calls `g`");
    assert_eq!(calls_summary("f(_)", "f(_, _)"), ": it now calls `f` with 2 arguments instead of 1");
    assert_eq!(calls_summary("f(_)", "f(_) when x"), ": the arguments or conditions of its calls to `f` changed");
    assert_eq!(calls_summary("", ""), "");
}

fn policy(rule: &str) -> Files {
    let mut files = SortedMap::new();
    files.insert(
        s("src/policy.ts"),
        format!("export class OrderPolicy {{\n  canCancel(user: {{ role: string }}): boolean {{\n    return {rule};\n  }}\n}}\n"),
    );
    files
}

fn widened() -> (Files, Files) {
    (policy("user.role === 'ADMIN'"), policy("user.role === 'ADMIN' || user.role === 'MANAGER'"))
}

fn like(op: &Op, kind: &str, before: Option<&str>, after: Option<&str>) -> Op {
    let mut out = op.dup();
    out.kind = s(kind);
    out.before = before.map(s);
    out.after = after.map(s);
    out
}

#[test]
fn every_kind_has_its_sentence() {
    let (a, b) = widened();
    let op = pipeline::diff(&a, &b).unwrap().ops.remove(0);
    assert_eq!(
        sentence(&op),
        "**More access:** `OrderPolicy.canCancel` now also allows `user.role` = `MANAGER` (before: only `ADMIN`)."
            .replace("`user.role` = ", "role ")
    );
    let n = "`OrderPolicy.canCancel`";
    let cases = [
        ("AUTH_CHANGED", Some("permission=a"), Some("permission=b"), format!("**Access changed:** {n} now requires the `b` permission instead of the `a` permission.")),
        ("AUTH_WIDENED", Some("permission=a"), None, format!("**More access:** {n} no longer requires the `a` permission.")),
        ("AUTH_NARROWED", None, Some("permission=a"), format!("**Less access:** {n} now requires the `a` permission.")),
        ("QUERY_FILTER_ADDED", None, Some("a = _"), format!("{n} now only reaches rows where `a = …`.")),
        ("QUERY_FILTER_REMOVED", Some("a = 1"), None, format!("{n} no longer filters on `a = 1`, so it can reach more rows.")),
        ("EFFECT_ADDED", None, Some("db_write order (sync)"), format!("{n} now writes the `order` table.")),
        ("EFFECT_MADE_ASYNC", Some("http POST x (sync)"), Some("http POST x (async via E)"), format!("{n} now calls `POST x` later, via the `E` event, instead of right away.")),
        ("GUARD_REMOVED", Some("x"), None, format!("{n} no longer checks that `x`.")),
        ("VALIDATION_REMOVED", Some("src/a.ts::Inventory.check"), None, format!("{n} no longer runs the `Inventory.check` check.")),
        ("ENTITY_ADDED", None, None, format!("entity added {n}")),
    ];
    for (kind, before, after, want) in cases {
        assert_eq!(sentence(&like(&op, kind, before, after)), want);
    }
    assert_eq!(title("STATE_TRANSITION_ADDED"), "state transition added");
}

#[test]
fn a_transition_is_shown_in_plain_words() {
    let (a, b) = widened();
    let t = pipeline::diff(&a, &b).unwrap();
    assert_eq!(
        markdown(&t, Some("main..topic")),
        "## What this change does (main..topic)\n\n**1 behaviour change.**\n\n### Who can do what\n\n- **More access:** `OrderPolicy.canCancel` now also allows role `MANAGER` (before: only `ADMIN`).\n  `src/policy.ts:2`\n\n"
    );
    assert_eq!(bullets(&t).len(), 1);
    assert_eq!(headline(&t, &NewCode::plan(&t)), "**1 behaviour change.**");
    assert_eq!(also(&t.ops), None);
}

#[test]
fn a_transition_is_shown_in_detail() {
    let (a, b) = widened();
    let t = pipeline::diff(&a, &b).unwrap();
    assert_eq!(
        detailed(&t, None),
        "## Semantic transition\n\n1 behavioural/design change(s) across 1 changed entity.\n\n### Behaviour\n\n- **auth widened** `OrderPolicy.canCancel`\n  - before: user.role ∈ {ADMIN}\n  - after: user.role ∈ {ADMIN, MANAGER}\n  - evidence: `src/policy.ts:2`\n\n"
    );
    let none = pipeline::diff(&a, &a).unwrap();
    assert_eq!(
        detailed(&none, Some("x")),
        "## Semantic transition — x\n\n0 behavioural/design change(s) across 0 changed entities.\n\n_No semantic change detected._\n"
    );
    assert_eq!(markdown(&none, None), "## What this change does\n\nNo change to the code Merak analyses.\n\n");
}

#[test]
fn contracts_cite_the_code_behind_them() {
    let (a, b) = widened();
    let t = pipeline::diff(&a, &b).unwrap();
    let lines = contract_lines(&t);
    assert_eq!(lines[0], "OrderPolicy.canCancel · changed");
    assert!(
        lines.iter().any(|l| l.starts_with("  ~ who       user.role ∈ {ADMIN} → user.role ∈ {ADMIN, MANAGER}  (widened)")),
        "{lines:#?}"
    );
    let shown = contracts(&t, Some("x"), &cite(&t, &a, &b));
    assert!(shown.starts_with("## Contract diff · x\n\n**1 contract changed.**"), "{shown}");
    assert!(shown.contains("### `OrderPolicy.canCancel` · changed\n"), "{shown}");
    assert!(
        shown.contains(
            "    ~ who       user.role ∈ {ADMIN}  →  user.role ∈ {ADMIN, MANAGER}   ← widened\n                   3 - return user.role === 'ADMIN';\n                   3 + return user.role === 'ADMIN' || user.role === 'MANAGER';\n"
        ),
        "{shown}"
    );
}
