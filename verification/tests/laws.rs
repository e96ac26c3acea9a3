//! What holds of every program and change, on chosen ones.

use merak::catalog::{ApiPattern, Catalog, EffectRule};
use merak::clauses::{compare, Item};
use merak::digest::body_hash;
use merak::design::Config;
use merak::ir::{stable_hash, Expr, Loc, Stmt};
use merak::matching::match_entities;
use merak::ops::{access_change, Layer};
use merak::ordered::{sort, SortedMap, SortedSet};
use merak::pipeline;
use merak::pred::Pred;
use merak::nesting::{closures_by_parent, scoped_filters, top_level};
use merak::shapes::{inline_shapes, keys_of, multiset_diff};
use merak::model::{AccessFact, CallShape, OnFail, Origin, StateEdge, StateMachine};

type Files = SortedMap<String, String>;

fn files(entries: &[(&str, &str)]) -> Files {
    let mut files = SortedMap::new();
    for (p, t) in entries {
        files.insert(p.to_string(), t.to_string());
    }
    files
}

fn set(values: &[&str]) -> SortedSet<String> {
    let mut out = SortedSet::new();
    for v in values {
        out.insert(v.to_string());
    }
    out
}

fn loc(line: u32) -> Loc {
    Loc { file: "a.ts".to_string(), line }
}

#[test]
fn sets_have_their_members_once_and_in_order() {
    let mut a = set(&["b", "a", "b"]);
    assert_eq!(a.list(), ["a", "b"]);
    a.unite(&set(&["c", "a"]));
    assert_eq!(a.list(), ["a", "b", "c"]);
    assert_eq!(a.difference(&set(&["b", "x"])).list(), ["a", "c"]);
    assert_eq!(a.intersection(&set(&["c", "x", "a"])).list(), ["a", "c"]);
    assert!(set(&["a"]).is_subset(&a));
    assert_eq!(sort(vec!["b".to_string(), "a".to_string(), "b".to_string()]), ["a", "b", "b"]);
}

#[test]
fn maps_give_back_what_was_stored() {
    let mut m: SortedMap<String, String> = SortedMap::new();
    m.insert("k".to_string(), "1".to_string());
    m.insert("j".to_string(), "2".to_string());
    m.insert("k".to_string(), "3".to_string());
    assert_eq!(m.keys(), ["j", "k"]);
    assert_eq!(m.get(&"k".to_string()), Some(&"3".to_string()));
    assert_eq!(m.remove(&"j".to_string()), Some("2".to_string()));
    assert_eq!(m.get(&"j".to_string()), None);
}

#[test]
fn negating_twice_gives_the_predicate_back() {
    let p = Pred::And(vec![
        Pred::In { field: "Order.status".into(), values: set(&["PAID"]) },
        Pred::Truthy("Order.paymentId".into()),
        Pred::compare("a".into(), "<", "b".into()),
    ]);
    assert_eq!(p.negate().negate().render(), "Order.status ∈ {PAID} ∧ Order.paymentId is set ∧ a < b");
    assert_eq!(Pred::True.negate(), Pred::False);
    let q = Pred::Opaque { text: "x".into(), negated: false };
    assert_eq!(q.negate().negate(), Pred::Opaque { text: "x".into(), negated: false });
}

#[test]
fn bodies_keep_their_hash_on_other_lines() {
    let body = |line: u32| {
        vec![
            Stmt::Expr(
                Expr::Assign {
                    target: Box::new(Expr::Ident("x".to_string())),
                    value: Box::new(Expr::Str("v".to_string())),
                    loc: loc(line),
                },
                loc(line),
            ),
            Stmt::Jump(loc(line + 1)),
        ]
    };
    assert_eq!(body_hash(&body(1)), body_hash(&body(70)));
    assert_ne!(body_hash(&body(1)), body_hash(&vec![Stmt::Jump(loc(1))]));
}

#[test]
fn calls_are_compared_as_multisets() {
    let call = |s: &str, line: u32| CallShape { shape: s.to_string(), target: None, when: vec![], guards: vec![], loc: loc(line) };
    let (gone, fresh) = multiset_diff(&vec![call("f()", 1), call("g()", 2)], &vec![call("g()", 9), call("f()", 8)]);
    assert!(gone.is_empty() && fresh.is_empty());
    let (gone, fresh) = multiset_diff(&vec![call("f()", 1), call("f()", 2)], &vec![call("f()", 1), call("g()", 2)]);
    assert_eq!(gone.len(), 1);
    assert_eq!(gone[0].shape, "f()");
    assert_eq!(fresh[0].shape, "g()");
}

#[test]
fn access_is_widened_narrowed_or_changed() {
    let access = |facts: &[(&str, bool)]| {
        let mut m = SortedMap::new();
        for (r, grant) in facts {
            m.insert(r.to_string(), AccessFact { requirement: r.to_string(), grant: *grant, loc: loc(1) });
        }
        m
    };
    let kind = |a: &[(&str, bool)], b: &[(&str, bool)]| {
        access_change("s", &access(a), &access(b)).into_iter().map(|o| o.kind).collect::<Vec<_>>()
    };
    assert_eq!(kind(&[("permission=a", false)], &[]), ["AUTH_WIDENED"]);
    assert_eq!(kind(&[], &[("public=true", true)]), ["AUTH_WIDENED"]);
    assert_eq!(kind(&[], &[("permission=a", false)]), ["AUTH_NARROWED"]);
    assert_eq!(kind(&[("public=true", true)], &[]), ["AUTH_NARROWED"]);
    assert_eq!(kind(&[("permission=a", false)], &[("permission=b", false)]), ["AUTH_CHANGED"]);
    assert!(kind(&[("permission=a", false)], &[("permission=a", false)]).is_empty());
}

const CHAIN: &str = r#"
export async function leaf() { await fetch('https://x.example.com/', { method: 'POST' }); }
export async function middle() { await leaf(); }
export async function top() { await middle(); }
export function apart() { return 1; }
"#;

#[test]
fn callers_are_found_through_others() {
    let m = pipeline::model(&files(&[("src/a.ts", CHAIN)])).unwrap();
    assert_eq!(
        m.callers_closure("src/a.ts::leaf").list(),
        ["src/a.ts::leaf", "src/a.ts::middle", "src/a.ts::top"]
    );
    assert_eq!(m.callers_closure("src/a.ts::top").list(), ["src/a.ts::top"]);
}

#[test]
fn effects_spread_to_callers_and_nowhere_else() {
    let m = pipeline::model(&files(&[("src/a.ts", CHAIN)])).unwrap();
    for id in ["src/a.ts::leaf", "src/a.ts::middle", "src/a.ts::top"] {
        let s = m.summaries.find(id).unwrap();
        assert_eq!(s.effects.len(), 1, "{id}");
        assert_eq!(s.effects.key(0).render(), "http POST x.example.com");
    }
    let via = |id: &str| m.summaries.find(id).unwrap().effects.value(0).via.list();
    assert_eq!(via("src/a.ts::leaf"), ["direct"]);
    assert_eq!(via("src/a.ts::top"), ["src/a.ts::middle"]);
    assert_eq!(m.summaries.find("src/a.ts::apart").unwrap().effects.len(), 0);
}

#[test]
fn recursion_settles() {
    let source = "export async function a() { await b(); }\nexport async function b() { await a(); await fetch('https://x.example.com/'); }\n";
    let m = pipeline::model(&files(&[("src/a.ts", source)])).unwrap();
    for id in ["src/a.ts::a", "src/a.ts::b"] {
        assert_eq!(m.summaries.find(id).unwrap().effects.len(), 1, "{id}");
    }
}

#[test]
fn matching_goes_both_ways() {
    let a = pipeline::model(&files(&[("src/a.ts", CHAIN)])).unwrap();
    let b = pipeline::model(&files(&[("src/b.ts", CHAIN)])).unwrap();
    let m = match_entities(&a, &b);
    assert_eq!(m.to_after("src/a.ts::leaf"), "src/b.ts::leaf");
    assert_eq!(m.backward.find("src/b.ts::leaf").map(String::as_str), Some("src/a.ts::leaf"));
    assert_eq!(m.module_to_after("src/a.ts"), "src/b.ts");
    assert_eq!(m.forward.len(), m.backward.len());
}

#[test]
fn a_moved_module_is_only_structure() {
    let t = pipeline::diff(&files(&[("src/a.ts", CHAIN)]), &files(&[("src/b.ts", CHAIN)])).unwrap();
    assert!(t.ops.iter().all(|o| o.layer == Layer::Structure));
    assert_eq!(t.ops.last().unwrap().kind, "PURE_REFACTOR");
}

#[test]
fn helpers_are_opened_all_the_way_down() {
    let source = "import { frob } from 'lib';\nexport function leaf() { frob(1); }\nexport function middle() { leaf(); }\nexport function top() { middle(); }\n";
    let m = pipeline::model(&files(&[("src/a.ts", source)])).unwrap();
    let shapes = |known: &SortedMap<String, String>| keys_of(&inline_shapes(&m, "src/a.ts::top", known));
    let inlined = shapes(&SortedMap::new());
    assert_eq!(inlined, keys_of(&m.entities.find("src/a.ts::leaf").unwrap().call_shapes));
    assert_eq!(inlined.len(), 1);
    let mut known = SortedMap::new();
    known.insert("src/a.ts::middle".to_string(), "src/a.ts::middle".to_string());
    assert_eq!(shapes(&known), keys_of(&m.entities.find("src/a.ts::top").unwrap().call_shapes));
}

const NESTED: &str = r#"
import { Kysely } from 'kysely';
export class Memories {
  constructor(private db: Kysely<any>) {}
  get(a: boolean, id: string) {
    return this.db.selectFrom('memory')
      .where('memory.deletedAt', 'is', null)
      .$if(a, (qb) => qb.where('memory.ownerId', '=', id).$if(a, (inner) => inner.where('memory.kind', '=', 'x')))
      .execute();
  }
}
"#;

#[test]
fn closures_within_closures_belong_to_the_method() {
    let m = pipeline::model(&files(&[("src/m.ts", NESTED)])).unwrap();
    let id = "src/m.ts::Memories.get";
    let mut levels = vec![];
    for i in 0..m.entities.len() {
        let e = m.entities.value(i);
        assert_eq!(top_level(&m, &e.id), if e.parent.is_some() { id.to_string() } else { e.id.to_string() });
        if e.parent.is_some() {
            levels.push(e.id.to_string());
        }
    }
    assert_eq!(levels.len(), 2);
    let mut found: Vec<String> = scoped_filters(&m, &closures_by_parent(&m), id).into_iter().map(|f| f.expr).collect();
    found.sort();
    assert_eq!(found, ["memory.deletedAt is null", "memory.kind = x", "memory.ownerId = _"]);
}

fn guards(body: &str) -> Vec<(String, OnFail)> {
    let source = format!("import {{ g }} from 'lib';\nexport function f(a: number, b: number, xs: string[]) {{\n{body}\n}}\n");
    let m = pipeline::model(&files(&[("src/f.ts", &source)])).unwrap();
    m.entities.find("src/f.ts::f").unwrap().guards.iter().map(|x| (x.required.render(), x.on_fail)).collect()
}

#[test]
fn a_trailing_condition_is_an_early_return() {
    let expected = vec![("a <= b".to_string(), OnFail::Return), ("xs is set".to_string(), OnFail::Throw)];
    let rest = "if (!xs) { throw new Error('x'); }\n g(a);";
    assert_eq!(guards(&format!("if (a <= b) {{ {rest} }}")), expected);
    assert_eq!(guards(&format!("if (!(a <= b)) return;\n {rest}")), expected);
    assert_eq!(guards(&format!("if (a > b) {{ return; }}\n {rest}")), expected);
}

#[test]
fn spellings_of_a_size_test_are_one() {
    for test in ["xs.length > 0", "xs.length >= 1", "xs.length !== 0", "0 < xs.length", "1 <= xs.length"] {
        assert_eq!(guards(&format!("if (!({test})) {{ throw new Error('x'); }}")), [("xs.length \u{2209} {0}".to_string(), OnFail::Throw)], "{test}");
    }
    for test in ["xs.length === 0", "xs.length < 1", "xs.length <= 0", "0 === xs.length"] {
        assert_eq!(guards(&format!("if (!({test})) {{ throw new Error('x'); }}")), [("xs.length \u{2208} {0}".to_string(), OnFail::Throw)], "{test}");
    }
}

#[test]
fn simplifying_twice_changes_nothing() {
    let part = |v: &str| Pred::In { field: "Order.status".into(), values: set(&[v]) };
    let p = || Pred::Or(vec![part("a"), Pred::And(vec![Pred::Or(vec![part("b"), Pred::Truthy("x".into())])]), part("c")]);
    let once = p().simplify();
    assert_eq!(once.render(), "Order.status \u{2208} {a, b, c} \u{2228} x is set");
    assert_eq!(once.simplify(), p().simplify());
}

#[test]
fn inferred_invariants_hold_and_are_never_certain() {
    let source = |n: usize| {
        let mut out = String::from("export enum Status { PAID = 'PAID', NEW = 'NEW' }\nexport interface Order { status: Status; paymentId: string }\n");
        for i in 0..n {
            out.push_str(&format!("export function w{i}(o: Order) {{ o.status = Status.PAID; o.paymentId = 'p'; }}\n"));
        }
        out
    };
    for (n, confidence) in [(2, 67), (9, 90), (250, 99)] {
        let m = pipeline::model(&files(&[("src/o.ts", &source(n))])).unwrap();
        let inv = m.invariants.iter().find(|i| i.key == "cowrite:Order.status=PAID=>Order.paymentId").unwrap();
        assert_eq!((inv.support, inv.confidence, inv.evidence.len()), (n, confidence, n));
    }
    let m = pipeline::model(&files(&[("src/o.ts", &source(1))])).unwrap();
    assert!(m.invariants.is_empty());
}

#[test]
fn every_operation_has_a_place() {
    let config = "[layers]\napi = [\"src/api/**\"]\ndb = [\"src/db/**\"]\n[[rules]]\nfrom = \"api\"\ndeny = [\"db\"]\n";
    let tree = |body: &str| {
        files(&[
            ("merak.toml", config),
            ("src/db/d.ts", "export function save() { return 1; }\n"),
            ("src/api/a.ts", &format!("import {{ save }} from '../db/d';\nexport function run() {{ {body} }}\n")),
        ])
    };
    let t = pipeline::diff(&tree("return save();"), &tree("return 2;")).unwrap();
    let op = t.ops.iter().find(|o| o.kind == "LAYER_VIOLATION_RESOLVED").unwrap();
    assert_eq!(op.origin, Origin::Declared);
    assert_eq!(op.evidence_before.len(), 1);
    assert_eq!((op.evidence_before[0].file.as_str(), op.evidence_before[0].line), ("src/api/a.ts", 2));
    let back = pipeline::diff(&tree("return 2;"), &tree("return save();")).unwrap();
    assert!(back.ops.iter().any(|o| o.kind == "LAYER_VIOLATION_INTRODUCED"));
    for o in t.ops.iter().chain(&back.ops) {
        assert!(!o.evidence_before.is_empty() || !o.evidence_after.is_empty() || o.kind == "PURE_REFACTOR", "{}", o.kind);
        assert!(0 < o.confidence && o.confidence <= 100);
    }
}

#[test]
fn what_both_contracts_state_is_unchanged() {
    let item = |t: &str| Item { row: "who".into(), key: "permission".into(), text: t.into(), loc: None };
    let shown = |before: &[&str], after: &[&str]| {
        compare(&before.iter().map(|t| item(t)).collect(), &after.iter().map(|t| item(t)).collect())
            .into_iter()
            .map(|c| (c.mark, c.before, c.after))
            .collect::<Vec<_>>()
    };
    let some = |t: &str| Some(t.to_string());
    assert_eq!(
        shown(&["permission = b"], &["permission = a", "permission = b"]),
        [('+', None, some("permission = a")), (' ', None, some("permission = b"))]
    );
    assert_eq!(
        shown(&["x", "b", "c"], &["a", "b"]),
        [('~', some("x"), some("a")), (' ', None, some("b")), ('-', some("c"), None)]
    );
}

#[test]
fn extensions_match_by_their_names() {
    let rule = EffectRule {
        api: "acme.{put,post}()".into(),
        pattern: ApiPattern::new("something.else()"),
        kind: "http".into(),
        target: "acme".into(),
        method: None,
    };
    let n = Catalog::default_catalog().effect.len();
    let c = Catalog::with_extensions(Some(Catalog { effect: vec![rule], ..Catalog::default() }));
    assert_eq!(c.effect.len(), n + 1);
    assert_eq!(c.effect[n].pattern, ApiPattern::new("acme.{put,post}()"));
    assert_eq!(c.effect_for("acme.post()").map(|r| r.target.as_str()), Some("acme"));
    assert!(c.effect_for("something.else()").is_none());
    assert_eq!(Catalog::with_extensions(None), Catalog::default_catalog());
}

#[test]
fn booleans_and_null_are_not_texts() {
    let source = |arg: &str| files(&[("src/a.ts", &format!("import {{ frob }} from 'lib';\nexport function run() {{ frob({arg}); }}\n"))]);
    let shape = |arg: &str| keys_of(&pipeline::model(&source(arg)).unwrap().entities.find("src/a.ts::run").unwrap().call_shapes);
    assert_eq!(shape("true"), ["lib.frob(true)"]);
    assert_eq!(shape("null"), ["lib.frob(null)"]);
    assert_eq!(shape("'true'"), ["lib.frob(\"true\")"]);
    assert_eq!(shape("7"), ["lib.frob(\"7\")"]);
    let t = pipeline::diff(&source("'true'"), &source("true")).unwrap();
    assert_eq!(t.ops[0].kind, "UNCLASSIFIED_CHANGE");
}

#[test]
fn texts_are_hashed_as_json_writes_them() {
    let said = "a\"b\\c/\n\r\t\u{8}\u{c}\u{0}\u{1f}\u{7f}é…𝄞";
    let body = vec![Stmt::Expr(Expr::Str(said.to_string()), Loc { file: "src/a.ts".to_string(), line: 1 })];
    let quoted = serde_json::Value::from(said).to_string();
    assert_eq!(quoted, "\"a\\\"b\\\\c/\\n\\r\\t\\b\\f\\u0000\\u001f\u{7f}é…𝄞\"");
    assert_eq!(body_hash(&body), stable_hash(&format!("[{{\"Expr\":[{{\"Str\":{quoted}}},null]}}]")));
}

#[test]
fn the_first_layer_of_the_file_wins() {
    let text = "[layers]\nweb = [\"src/**\"]\napi = [\"src/**\", \"lib/**\"]\n";
    let c = Config::parse(text).unwrap();
    assert_eq!(c.layers.iter().map(|l| l.0.as_str()).collect::<Vec<_>>(), ["web", "api"]);
    let mut files = SortedMap::new();
    files.insert("merak.toml".to_string(), text.to_string());
    files.insert("src/a.ts".to_string(), "export function f() { return 1; }".to_string());
    files.insert("lib/b.ts".to_string(), "export function g() { return 1; }".to_string());
    let m = pipeline::model(&files).unwrap();
    assert_eq!(m.module_layers.get(&"src/a.ts".to_string()), Some(&"web".to_string()));
    assert_eq!(m.module_layers.get(&"lib/b.ts".to_string()), Some(&"api".to_string()));
}

#[test]
fn sources_of_a_state_are_those_of_its_edges() {
    let states = |xs: &[&str]| {
        let mut set = SortedSet::new();
        for x in xs {
            set.insert(x.to_string());
        }
        set
    };
    let edge = |from: &[&str], to: &str| StateEdge {
        from: states(from),
        to: to.to_string(),
        writer: "src/a.ts::f".to_string(),
        loc: Loc { file: "src/a.ts".to_string(), line: 1 },
    };
    let m = StateMachine {
        field: "Order.status".to_string(),
        states: states(&["A", "B", "C", "D"]),
        edges: vec![edge(&["B", "A"], "C"), edge(&["C"], "D"), edge(&["D", "A"], "C")],
    };
    assert_eq!(m.sources_of("C"), states(&["A", "B", "D"]));
    assert_eq!(m.sources_of("A"), states(&[]));
    assert_eq!(m.targets(), states(&["C", "D"]));
}

#[test]
fn every_entity_and_nothing_else_is_summarised() {
    let mut files = SortedMap::new();
    files.insert("src/a.ts".to_string(), "export class A { constructor() { this.go(); } go() { return [1].map((x) => x); } }".to_string());
    let m = pipeline::model(&files).unwrap();
    assert_eq!(m.summaries.len(), m.entities.len());
    for i in 0..m.summaries.len() {
        assert!(m.entities.get(m.summaries.key(i)).is_some());
    }
}

#[test]
fn a_refactor_is_claimed_once_and_last() {
    let mut before = SortedMap::new();
    before.insert("src/a.ts".to_string(), "export function f(x: number) { return g(x); }\nfunction g(x: number) { return fetch('https://x.example.com/' + x); }".to_string());
    let mut after = SortedMap::new();
    after.insert("src/a.ts".to_string(), "export function f(y: number) { const z = y; return g(z); }\nfunction g(x: number) { return fetch('https://x.example.com/' + x); }".to_string());
    let t = pipeline::diff(&before, &after).unwrap();
    let claims: Vec<usize> = (0..t.ops.len()).filter(|i| t.ops[*i].kind == "PURE_REFACTOR").collect();
    assert_eq!(claims, [t.ops.len() - 1], "{:#?}", t.ops);
}

#[test]
fn contracts_are_never_about_constructors() {
    let file = |body: &str| {
        let mut files = SortedMap::new();
        files.insert(
            "src/a.ts".to_string(),
            format!("export class A {{ constructor() {{ {body} }}\n  go(x: string) {{ {body} return x; }} }}"),
        );
        files
    };
    let t = pipeline::diff(&file(""), &file("fetch('https://x.example.com/a', { method: 'POST' });")).unwrap();
    assert_eq!(t.contracts.iter().map(|c| c.name.as_str()).filter(|n| *n != "Program").collect::<Vec<_>>(), ["A.go"], "{:#?}", t.contracts);
    assert!(t.contracts.iter().all(|c| !c.ops.is_empty() || c.clauses.iter().any(|x| x.mark != ' ')));
}
