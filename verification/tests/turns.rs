//! What a turn of an agent is told.

use merak::hook::{going_on, report, review, snapshot_name, Outcome};
use merak::ordered::SortedMap;
use merak::pipeline;
use merak::tree::parse_json;

type Files = SortedMap<String, String>;

fn policy(rule: &str) -> Files {
    let mut files = SortedMap::new();
    files.insert(
        "src/policy.ts".to_string(),
        format!("export class OrderPolicy {{ canCancel(user: {{ role: string }}): boolean {{ return {rule}; }} }}"),
    );
    files
}

#[test]
fn a_turn_without_edits_is_quiet() {
    let files = policy("user.role === 'ADMIN'");
    assert_eq!(review(&files, &files), Ok(Outcome::Quiet));
}

#[test]
fn a_turn_that_widens_access_is_reviewed() {
    let before = policy("user.role === 'ADMIN'");
    let after = policy("user.role === 'ADMIN' || user.role === 'MANAGER'");
    let Ok(Outcome::Review(said)) = review(&before, &after) else { panic!("expected a review") };
    assert!(
        said.starts_with("Merak checked what this turn's edits do. 1 behaviour change the user should know about:\n"),
        "{said}"
    );
    assert!(said.contains("OrderPolicy.canCancel · changed\n"), "{said}");
    assert!(said.contains("user.role ∈ {ADMIN} → user.role ∈ {ADMIN, MANAGER}  (widened)  src/policy.ts:1"), "{said}");
    assert!(said.ends_with("This note comes once per turn."), "{said}");
}

#[test]
fn hooks_report_a_turns_behaviour_change_once() {
    let input = |active: bool| {
        parse_json(&format!(r#"{{"session_id": "s1", "cwd": "/proj", "stop_hook_active": {active}}}"#)).unwrap()
    };
    let before = policy("user.role === 'ADMIN'");
    assert_eq!(snapshot_name(&input(false)), "s1.json");
    assert!(!going_on(&input(false)));
    assert!(matches!(review(&before, &before), Ok(Outcome::Quiet)), "no edits, nothing to say");

    let after = policy("user.role === 'ADMIN' || user.role === 'MANAGER'");
    let Ok(Outcome::Review(msg)) = review(&before, &after) else { panic!("expected a review") };
    assert!(msg.contains("AUTH_WIDENED OrderPolicy.canCancel: user.role ∈ {ADMIN} → user.role ∈ {ADMIN, MANAGER}"), "{msg}");
    assert!(going_on(&input(true)), "once per turn");
}

#[test]
fn an_operation_is_named_with_its_routes_and_place() {
    let file = |role: &str| {
        let mut files = SortedMap::new();
        files.insert(
            "src/orders.controller.ts".to_string(),
            format!("import {{ Controller, Post }} from '@nestjs/common';\n@Controller('orders')\nexport class OrdersController {{\n  @Post(':id/cancel')\n  async cancel(user: {{ role: string }}) {{\n    if ({role}) {{ throw new Error('no'); }}\n    await fetch('https://x.example.com/cancel', {{ method: 'POST' }});\n  }}\n}}\n"),
        );
        files
    };
    let before = file("user.role !== 'ADMIN'");
    let after = file("user.role !== 'ADMIN' && user.role !== 'MANAGER'");
    let Ok(Outcome::Review(msg)) = review(&before, &after) else { panic!("expected a review") };
    assert!(
        msg.contains("\n- AUTH_WIDENED OrdersController.cancel: user.role ∈ {ADMIN} → user.role ∈ {ADMIN, MANAGER} [affects POST /orders/:id/cancel] (src/orders.controller.ts:6)\n"),
        "{msg}"
    );
}

#[test]
fn a_long_message_is_cut() {
    let file = |n: usize| {
        let mut text = String::new();
        for i in 0..n {
            text.push_str(&format!("export async function f{i}() {{ await fetch('https://x.example.com/{i}', {{ method: 'POST' }}); }}\n"));
        }
        let mut files = SortedMap::new();
        files.insert("src/a.ts".to_string(), text);
        files
    };
    let Ok(Outcome::Review(msg)) = review(&file(1), &file(40)) else { panic!("expected a review") };
    let said = msg.split("\n\n").next().unwrap();
    assert_eq!(said.lines().count(), 1 + 30 + 1, "{msg}");
    assert!(said.lines().last().unwrap().starts_with("- … and "), "{msg}");
    assert!(said.ends_with(" more (call merak_transition for all of them)"), "{msg}");
}

#[test]
fn unclassified_residue_stays_quiet() {
    let file = |arg: &str| {
        let mut files = SortedMap::new();
        files.insert("src/a.ts".to_string(), format!("export function f(x: any) {{ return x.show({arg}); }}"));
        files
    };
    let t = pipeline::diff(&file("'a'"), &file("'b'")).unwrap();
    assert_eq!(t.ops.iter().map(|o| o.kind.as_str()).collect::<Vec<_>>(), ["UNCLASSIFIED_CHANGE"]);
    assert_eq!(t.ops[0].confidence, 50);
    assert_eq!(report(&t), None);
    assert_eq!(review(&file("'a'"), &file("'b'")), Ok(Outcome::Quiet));
}

#[test]
fn another_tree_is_not_reviewed() {
    let tree = |dir: &str| {
        let mut files = SortedMap::new();
        for name in ["a", "b", "c"] {
            files.insert(
                format!("{dir}/{name}.ts"),
                format!("export async function {name}() {{ await fetch('https://x.example.com/{dir}', {{ method: 'POST' }}); }}"),
            );
        }
        files
    };
    assert_eq!(review(&tree("one"), &tree("two")), Ok(Outcome::Quiet));
}

#[test]
fn a_broken_design_is_an_error_of_the_review() {
    let before = policy("user.role === 'ADMIN'");
    let mut after = policy("user.role === 'ADMIN'");
    after.insert("merak.toml".to_string(), "rules = 3".to_string());
    assert!(review(&before, &after).is_err());
}

#[test]
fn snapshots_are_named_after_their_session() {
    let name = |s: &str| snapshot_name(&parse_json(s).unwrap());
    assert_eq!(name(r#"{"session_id": "s-1/../x y"}"#), "s-1xy.json");
    assert_eq!(name(r#"{}"#), "default.json");
    assert_eq!(name(r#"{"session_id": 3}"#), "default.json");
}

#[test]
fn a_turn_is_told_once() {
    let active = |s: &str| going_on(&parse_json(s).unwrap());
    assert!(active(r#"{"stop_hook_active": true}"#));
    assert!(!active(r#"{"stop_hook_active": false}"#));
    assert!(!active(r#"{"stop_hook_active": "true"}"#));
    assert!(!active("null"));
}
