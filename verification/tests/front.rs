//! Lowering of source files.

use merak::aliases::path_aliases;
use merak::front::lower_module;
use merak::ir;

#[test]
fn lowers_class_with_parameter_properties() {
    let m = lower_module(
        "src/a.ts",
        "import { B } from './b';\nexport class A {\n  constructor(private readonly b: B) {}\n  async run(x: string): Promise<void> {\n    if (!x) { throw new Error('no'); }\n    await this.b.go(x);\n  }\n}\n",
    );
    assert!(m.parse_errors.is_empty(), "{:?}", m.parse_errors);
    let class = &m.classes[0];
    assert_eq!(class.fields.find("b"), Some(&ir::TypeRef::Named("B".into(), vec![])));
    let run = m.functions.iter().find(|f| f.id == "src/a.ts::A.run").unwrap();
    assert_eq!(run.body.len(), 2);
    assert!(matches!(run.body[0], ir::Stmt::If { .. }));
}

#[test]
fn body_hash_ignores_line_shifts() {
    let a = lower_module("src/a.ts", "export function f(x: number) {\n  if (x) { throw new Error('x'); }\n  return g(x);\n}\n");
    let b = lower_module("src/a.ts", "\n\n// moved down\nexport function f(x: number) {\n  if (x) { throw new Error('x'); }\n  return g(x);\n}\n");
    assert_eq!(a.functions[0].body_hash, b.functions[0].body_hash);
}

#[test]
fn text_in_front_keeps_functions() {
    let source = "@Injectable()\nexport class Box {\n  @Post('/x') put(x: number) { return this.repo.save({ x, ...rest }).map((y) => y?.id ?? `n${x}`); }\n}\nexport const go = async (a: string) => { for (const b of a) { try { await run(b); } catch { switch (b) { case 'x': break; } } } };\n";
    let moved = format!("// é\n\n// moved down\n{}", source);
    let a = lower_module("src/a.ts", source);
    let b = lower_module("src/a.ts", &moved);
    assert_eq!(a.functions.len(), 3);
    assert_eq!(b.functions.len(), 3);
    for i in 0..3 {
        assert_eq!(a.functions[i].id, b.functions[i].id);
        assert_eq!(a.functions[i].body_hash, b.functions[i].body_hash);
        assert_eq!(a.functions[i].params, b.functions[i].params);
        assert_eq!(a.functions[i].loc.line + 3, b.functions[i].loc.line);
    }
}

#[test]
fn names_callback_closures_after_their_call() {
    let m = lower_module("src/h.ts", "export function reg(events: Bus) {\n  events.on(\"Evt\", async (e) => { await x(e); });\n}\n");
    assert!(m.functions.iter().any(|f| f.id == "src/h.ts::reg.on(\"Evt\")"), "{:?}", m.functions.iter().map(|f| &f.id).collect::<Vec<_>>());
}

#[test]
fn torn_strings_keep_their_digits() {
    let m = lower_module("src/s.ts", "export const a = '\\ud800\\ufffd';\nexport const b = '\\ufffd';\n");
    assert_eq!(m.consts[0].init, Some(ir::Expr::Str("\u{fffd}d800\u{fffd}fffd".into())));
    assert_eq!(m.consts[1].init, Some(ir::Expr::Str("\u{fffd}".into())));
}

#[test]
fn a_file_of_no_known_kind_is_typescript() {
    let m = lower_module("src/s.txt", "export function f(x: number): string { return g(x); }\n");
    assert!(m.parse_errors.is_empty(), "{:?}", m.parse_errors);
    assert_eq!(m.functions[0].id, "src/s.txt::f");
    let markup = "export function f() { return <b/>; }\n";
    assert!(lower_module("src/s.tsx", markup).parse_errors.is_empty());
    assert!(!lower_module("src/s.txt", markup).parse_errors.is_empty());
}

#[test]
fn trailing_commas_go_before_comments_too() {
    let config = "{\"compilerOptions\": {\"paths\": {\"@/*\": [\"src/*\", /* last */], // note\n}, /* and */ // so on\n}, // end\n}";
    let found = path_aliases("tsconfig.json", config);
    assert_eq!(found.len(), 1);
    assert_eq!(found[0].pattern, "@/*");
    assert_eq!(found[0].targets, ["src/*"]);
    assert!(path_aliases("tsconfig.json", "{\"compilerOptions\": {\"paths\": {\"@/*\": [\"src/*\"], /* open }}}").is_empty());
}
