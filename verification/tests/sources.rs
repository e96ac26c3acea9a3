//! Which files are analyzed, and how source trees are put together.

use merak::aliases::{is_project_config, is_supported, path_aliases};
use merak::ordered::SortedMap;
use merak::source::{
    blob_size, overlay, skipped, split_range, tree_entries, trim_slashes, wanted, with_overlay,
    HeaderError,
};

type Files = SortedMap<String, String>;

fn files(entries: &[(&str, &str)]) -> Files {
    let mut files = SortedMap::new();
    for (p, t) in entries {
        files.insert(p.to_string(), t.to_string());
    }
    files
}

#[test]
fn test_files_are_not_analyzed() {
    let paths = ["src/a.ts", "src/a.spec.ts", "src/b.test.ts", "test/fixtures.ts", "src/__mocks__/m.ts"];
    let loaded: Vec<&str> = paths.into_iter().filter(|p| wanted(p)).collect();
    assert_eq!(loaded, ["src/a.ts"]);
}

#[test]
fn configurations_are_read_wherever_they_stand() {
    assert!(wanted("merak.toml"));
    assert!(!wanted("docs/merak.toml"));
    assert!(wanted("test/tsconfig.json"));
    assert!(!wanted("package.json"));
    assert!(skipped("node_modules"));
    assert!(!skipped("src"));
}

#[test]
fn extensions_decide_what_is_source() {
    for p in ["a.ts", "a.tsx", "a.js", "a.jsx", "A.MJS", "a.cjs"] {
        assert!(is_supported(p), "{p}");
    }
    for p in ["a.d.ts", "a.D.TS", "a.mts", "a.json", "a.md", "ts"] {
        assert!(!is_supported(p), "{p}");
    }
    assert!(is_project_config("server/tsconfig.json"));
    assert!(is_project_config("jsconfig.json"));
    assert!(!is_project_config("tsconfig.build.json"));
}

#[test]
fn git_prefixes_match_whole_segments() {
    let listing = "100644 blob aaa\tapp/src/a.ts\0100644 blob bbb\tapple/src/b.ts\0\
                   160000 commit ccc\tapp/lib\0100644 blob ddd\tapp/node_modules/x/i.ts\0\
                   100644 blob eee\tapp/src/a.test.ts\0";
    let entry = |p: &str, id: &str| (p.to_string(), id.to_string());
    assert_eq!(tree_entries(listing, "app"), [entry("src/a.ts", "aaa")]);
    assert_eq!(tree_entries(listing, ""), [entry("app/src/a.ts", "aaa"), entry("apple/src/b.ts", "bbb")]);
    assert!(tree_entries(listing, "ap").is_empty());
    assert_eq!(trim_slashes("/server/src//"), "server/src");
}

#[test]
fn blob_headers_give_sizes() {
    assert_eq!(blob_size("abc blob 12\n"), Ok(12));
    assert_eq!(blob_size("abc missing\n"), Err(HeaderError::Missing));
    assert_eq!(blob_size(""), Err(HeaderError::Missing));
    assert_eq!(blob_size("abc blob x\n"), Err(HeaderError::Unreadable));
    assert_eq!(blob_size("abc blob 99999999999999999999\n"), Err(HeaderError::Unreadable));
}

#[test]
fn ranges_split_at_the_dots() {
    assert_eq!(split_range("main..topic"), ("main".to_string(), "topic".to_string()));
    assert_eq!(split_range("main.."), ("main".to_string(), String::new()));
    assert_eq!(split_range("main"), ("main".to_string(), String::new()));
}

#[test]
fn overlays_win_over_the_base() {
    let base = files(&[("a.ts", "1"), ("b.ts", "2"), ("c.ts", "3")]);
    let over = files(&[("b.ts", "two"), ("d.ts", "4")]);
    let out = overlay(&base, &vec!["a.ts".to_string(), "b.ts".to_string(), "z.ts".to_string()], &over);
    assert_eq!(out, files(&[("b.ts", "two"), ("c.ts", "3"), ("d.ts", "4")]));
    let out = with_overlay(&base, "delete = [\"c.ts\", 7]\n", &over);
    assert_eq!(out, files(&[("a.ts", "1"), ("b.ts", "two"), ("d.ts", "4")]));
    assert_eq!(with_overlay(&base, "not toml [", &files(&[])), base);
}

#[test]
fn path_aliases_come_from_commented_json() {
    let text = "{\n  // paths\n  \"compilerOptions\": { \"baseUrl\": \"./src\", \"paths\": { \"@app/*\": [\"./app/*\", \"lib/*\"], }, },\n}";
    let found: Vec<(String, String, Vec<String>)> = path_aliases("server/tsconfig.json", text)
        .into_iter()
        .map(|a| (a.scope, a.pattern, a.targets))
        .collect();
    assert!(
        found.contains(&(
            "server".to_string(),
            "@app/*".to_string(),
            vec!["server/src/app/*".to_string(), "server/src/lib/*".to_string()]
        )),
        "{found:?}"
    );
    assert!(path_aliases("tsconfig.json", "{").is_empty());
}
