//! Requests of coding agents, and what one function is said to do.

use merak::context::{answer, context, find, truncate, MAX_OUTPUT};
use merak::mcp::{label, read_request, ContextArgs, Presentation, Request, TransitionArgs};
use merak::ordered::SortedMap;
use merak::pipeline;
use merak::tree::parse_json;

type Files = SortedMap<String, String>;

fn asked(s: &str) -> Option<Request> {
    read_request(&parse_json(s).unwrap())
}

fn text(s: &str) -> String {
    s.to_string()
}

#[test]
fn notifications_ask_for_nothing() {
    assert_eq!(asked(r#"{"method": "ping"}"#), None);
    assert_eq!(asked(r#"{"id": null, "method": "ping"}"#), Some(Request::Ping));
    assert_eq!(asked(r#"{"id": 1, "method": "tools/list"}"#), Some(Request::ListTools));
}

#[test]
fn the_protocol_version_is_echoed() {
    assert_eq!(
        asked(r#"{"id": 1, "method": "initialize", "params": {"protocolVersion": "v9"}}"#),
        Some(Request::Initialize(text("v9")))
    );
    assert_eq!(asked(r#"{"id": 1, "method": "initialize"}"#), Some(Request::Initialize(text("2025-06-18"))));
}

#[test]
fn transitions_default_to_uncommitted_work() {
    let call = r#"{"id": 1, "method": "tools/call", "params": {"name": "merak_transition", "arguments": {}}}"#;
    assert_eq!(
        asked(call),
        Some(Request::Transition(TransitionArgs {
            repo: None,
            root: text(""),
            base: text("HEAD"),
            head: text(""),
            view: Presentation::Contracts,
            json: false,
        }))
    );
    let call = r#"{"id": 1, "method": "tools/call", "params": {"name": "merak_transition", "arguments":
        {"repo": "/r", "root": "/server/", "base": "main", "head": "topic", "view": "plain", "json": true}}}"#;
    assert_eq!(
        asked(call),
        Some(Request::Transition(TransitionArgs {
            repo: Some(text("/r")),
            root: text("server"),
            base: text("main"),
            head: text("topic"),
            view: Presentation::Plain,
            json: true,
        }))
    );
    let call = r#"{"id": 1, "method": "tools/call", "params": {"name": "merak_transition", "arguments": {"view": "ops"}}}"#;
    assert!(matches!(asked(call), Some(Request::Transition(a)) if a.view == Presentation::Ops));
}

#[test]
fn context_needs_an_entity() {
    let call = r#"{"id": 1, "method": "tools/call", "params": {"name": "merak_context", "arguments": {"entity": "f"}}}"#;
    assert_eq!(
        asked(call),
        Some(Request::Context(ContextArgs { repo: None, root: text(""), entity: text("f") }))
    );
    let call = r#"{"id": 1, "method": "tools/call", "params": {"name": "merak_context"}}"#;
    assert_eq!(asked(call), Some(Request::Failing(text("`entity` is required"))));
}

#[test]
fn unknown_tools_and_methods_are_named() {
    let call = r#"{"id": 1, "method": "tools/call", "params": {"name": "x"}}"#;
    assert_eq!(asked(call), Some(Request::Failing(text("unknown tool `x`"))));
    assert_eq!(asked(r#"{"id": 1, "method": "x"}"#), Some(Request::NotFound(text("method not found: x"))));
    assert_eq!(asked(r#"{"id": 1}"#), Some(Request::NotFound(text("method not found: "))));
}

#[test]
fn ranges_have_labels() {
    assert_eq!(label("HEAD", ""), "HEAD..working tree");
    assert_eq!(label("main", "topic"), "main..topic");
}

fn shop() -> Files {
    let mut files = SortedMap::new();
    files.insert(
        text("src/a.ts"),
        text("export class Shop {\n  async pay(id: string) {\n    if (id === '') { throw new Error('x'); }\n    await fetch('https://pay.example.com/x', { method: 'POST' });\n  }\n  async both() { await this.pay('1'); }\n}\nexport function pay() { return 1; }\n"),
    );
    files
}

#[test]
fn entities_are_found_by_id_name_or_bare_name() {
    let m = pipeline::model(&shop()).unwrap();
    assert_eq!(find(&m, "src/a.ts::Shop.pay"), ["src/a.ts::Shop.pay"]);
    assert_eq!(find(&m, "Shop.pay"), ["src/a.ts::Shop.pay"]);
    assert_eq!(find(&m, "pay"), ["src/a.ts::pay"]);
    assert_eq!(find(&m, "both"), ["src/a.ts::Shop.both"]);
    assert!(find(&m, "nothing").is_empty());
}

#[test]
fn a_function_is_described() {
    let said = context(&shop(), "Shop.pay").unwrap();
    assert!(said.starts_with("## `Shop.pay`\n\nmethod at `src/a.ts:2`\n"), "{said}");
    assert!(said.contains("\n**Effects (transitive)**\n- http POST pay.example.com (sync) at `src/a.ts:4`\n"), "{said}");
    assert!(said.contains("\n**Called by**\n- Shop.both\n"), "{said}");
    let said = context(&shop(), "Shop.both").unwrap();
    assert!(said.contains("\n**Calls**\n- Shop.pay\n"), "{said}");
    assert!(said.contains("- http POST pay.example.com (sync)"), "{said}");
}

#[test]
fn what_is_not_found_is_said() {
    let m = pipeline::model(&shop()).unwrap();
    assert_eq!(answer(&m, "gone"), Err(text("no function or method matches `gone`")));
    let mut two = shop();
    two.insert(text("src/b.ts"), text("export class Shop { pay() { return 2; } }"));
    let said = context(&two, "Shop.pay").unwrap();
    assert_eq!(
        said,
        "`Shop.pay` matches 2 entities; ask again with one of:\n- `src/a.ts::Shop.pay`\n- `src/b.ts::Shop.pay`"
    );
}

#[test]
fn long_replies_are_cut_at_a_character() {
    assert_eq!(truncate(text("short")), "short");
    let whole = "x".repeat(MAX_OUTPUT as usize);
    assert_eq!(truncate(whole.clone()), whole);
    let long = format!("{}é and more", "x".repeat(MAX_OUTPUT as usize - 1));
    let cut = truncate(long);
    assert!(cut.starts_with(&format!("{}\n\n… (truncated;", "x".repeat(MAX_OUTPUT as usize - 1))));
}
