//! Which files are read, and the import aliases that a project's configuration declares.

use crate::ir::{PathAlias, PathAliasView};
use crate::list;
use crate::list::Plain;
use crate::text;
use crate::text::Text;
use crate::tree;
use crate::tree::{Tree, TreeView};
use vstd::prelude::*;

verus! {

// ---- files

/// A letter of the Latin alphabet in lower case; any other character as it is.
pub open spec fn ascii_lower(c: char) -> char {
    if 'A' <= c && c <= 'Z' {
        (c as u32 + 32) as char
    } else {
        c
    }
}

/// A text ends in `suffix`, upper and lower case taken as the same.
pub open spec fn ends_like(s: Text, suffix: Text) -> bool {
    s.len() >= suffix.len() && forall|k: int|
        0 <= k < suffix.len() ==> ascii_lower(s[s.len() - suffix.len() + k])
            == #[trigger] suffix[k]
}

/// A TypeScript or JavaScript file that is no declaration file.
pub open spec fn is_source(path: Text) -> bool {
    (ends_like(path, ".ts"@) || ends_like(path, ".tsx"@) || ends_like(path, ".js"@) || ends_like(
        path,
        ".jsx"@,
    ) || ends_like(path, ".mjs"@) || ends_like(path, ".cjs"@)) && !ends_like(path, ".d.ts"@)
}

/// `tsconfig.json` or `jsconfig.json` at any depth.
pub open spec fn is_config(path: Text) -> bool {
    let name = text::after_last(path, "/"@);
    name == "tsconfig.json"@ || name == "jsconfig.json"@
}

fn has_ending(v: &Vec<char>, suffix: &str) -> (r: bool)
    ensures
        r == ends_like(v@, suffix@),
{
    let w = text::chars_of(suffix);
    if v.len() < w.len() {
        return false;
    }
    let n: usize = v.len();
    let start: usize = n - w.len();
    let mut k: usize = 0;
    while k < w.len()
        invariant
            k <= w@.len(),
            w@ == suffix@,
            n == v@.len(),
            start + w@.len() == n,
            forall|j: int|
                0 <= j < k ==> ascii_lower(v@[v@.len() - suffix@.len() + j])
                    == #[trigger] suffix@[j],
        decreases w@.len() - k,
    {
        let c: char = v[start + k];
        let d: char = w[k];
        let alike = if 'A' <= c && c <= 'Z' {
            'a' <= d && d <= 'z' && d as u32 == c as u32 + 32
        } else {
            c == d
        };
        assert(alike == (ascii_lower(v@[v@.len() - suffix@.len() + k]) == suffix@[k as int]));
        if !alike {
            return false;
        }
        k += 1;
    }
    true
}

/// A TypeScript or JavaScript file that is no declaration file.
pub fn is_supported(path: &str) -> (r: bool)
    ensures
        r == is_source(path@),
{
    let v = text::chars_of(path);
    (has_ending(&v, ".ts") || has_ending(&v, ".tsx") || has_ending(&v, ".js") || has_ending(
        &v,
        ".jsx",
    ) || has_ending(&v, ".mjs") || has_ending(&v, ".cjs")) && !has_ending(&v, ".d.ts")
}

/// `tsconfig.json` or `jsconfig.json` at any depth.
pub fn is_project_config(path: &str) -> (r: bool)
    ensures
        r == is_config(path@),
{
    let name = text::last_piece(path, "/");
    text::same(&name, "tsconfig.json") || text::same(&name, "jsconfig.json")
}

// ---- paths

/// The segments of a directory from index `i` on that are not empty.
pub open spec fn filled_from(parts: Seq<Text>, i: int) -> Seq<Text>
    decreases parts.len() - i,
{
    if 0 <= i < parts.len() {
        (if parts[i].len() == 0 {
            seq![]
        } else {
            seq![parts[i]]
        }) + filled_from(parts, i + 1)
    } else {
        seq![]
    }
}

/// The directory after the segments from index `i` on: `.` stays, `..` goes up.
pub open spec fn walked_from(segs: Seq<Text>, i: int, parts: Seq<Text>) -> Seq<Text>
    decreases segs.len() - i,
{
    if 0 <= i < segs.len() {
        walked_from(
            segs,
            i + 1,
            if segs[i] == "."@ || segs[i].len() == 0 {
                parts
            } else if segs[i] == ".."@ {
                if parts.len() > 0 {
                    parts.drop_last()
                } else {
                    parts
                }
            } else {
                parts.push(segs[i])
            },
        )
    } else {
        parts
    }
}

/// A repository-relative directory and a relative path, without `.` and `..`.
pub open spec fn joined_path(dir: Text, rel: Text) -> Text {
    text::joined(
        walked_from(text::pieces(rel, "/"@), 0, filled_from(text::pieces(dir, "/"@), 0)),
        "/"@,
    )
}

fn join_path(dir: &str, rel: &str) -> (r: String)
    ensures
        r@ == joined_path(dir@, rel@),
{
    let dirs = text::split(dir, "/");
    let ghost dv = dirs.deep_view();
    let mut parts: Vec<String> = list::empty();
    let mut i: usize = 0;
    while i < dirs.len()
        invariant
            i <= dirs@.len(),
            dv == dirs.deep_view(),
            parts.deep_view() + filled_from(dv, i as int) == filled_from(dv, 0),
        decreases dirs@.len() - i,
    {
        assert(dv[i as int] == dirs@[i as int]@);
        if !dirs[i].as_str().is_empty() {
            list::push(&mut parts, dirs[i].dup());
        }
        i += 1;
    }
    let segs = text::split(rel, "/");
    let ghost sv = segs.deep_view();
    let ghost start = parts.deep_view();
    i = 0;
    while i < segs.len()
        invariant
            i <= segs@.len(),
            sv == segs.deep_view(),
            walked_from(sv, i as int, parts.deep_view()) == walked_from(sv, 0, start),
        decreases segs@.len() - i,
    {
        assert(sv[i as int] == segs@[i as int]@);
        if text::same(&segs[i], ".") || segs[i].as_str().is_empty() {
        } else if text::same(&segs[i], "..") {
            let ghost before = parts.deep_view();
            let _ = parts.pop();
            assert(parts.deep_view() =~= if before.len() > 0 {
                before.drop_last()
            } else {
                before
            });
        } else {
            list::push(&mut parts, segs[i].dup());
        }
        i += 1;
    }
    text::join(&parts, "/")
}

// ---- JSON with comments

/// The place from index `i` on of the end of the line.
pub open spec fn line_end(s: Text, i: int) -> int
    decreases s.len() - i,
{
    if 0 <= i < s.len() && s[i] != '\n' {
        line_end(s, i + 1)
    } else {
        i
    }
}

/// Two characters stand at index `i`.
pub open spec fn pair_at(s: Text, a: char, b: char, i: int) -> bool {
    0 <= i && i + 1 < s.len() && s[i] == a && s[i + 1] == b
}

/// The place from index `i` on of the end of the comment.
pub open spec fn comment_end(s: Text, i: int) -> int
    decreases s.len() - i,
{
    if 0 <= i < s.len() && !pair_at(s, '*', '/', i) {
        comment_end(s, i + 1)
    } else {
        i
    }
}

proof fn line_end_bounds(s: Text, i: int)
    requires
        0 <= i,
    ensures
        i <= line_end(s, i),
    decreases s.len() - i,
{
    if i < s.len() && s[i] != '\n' {
        line_end_bounds(s, i + 1);
    }
}

proof fn comment_end_bounds(s: Text, i: int)
    requires
        0 <= i,
    ensures
        i <= comment_end(s, i),
    decreases s.len() - i,
{
    if i < s.len() && !pair_at(s, '*', '/', i) {
        comment_end_bounds(s, i + 1);
    }
}

/// The place from index `i` on of the first character that is neither white space nor part of a
/// comment.
pub open spec fn code_from(s: Text, i: int) -> int
    decreases
            if i < s.len() {
                s.len() - i
            } else {
                0
            },
    via code_from_ends
{
    if !(0 <= i < s.len()) {
        i
    } else if text::white_space(s[i]) {
        code_from(s, i + 1)
    } else if pair_at(s, '/', '/', i) {
        code_from(s, line_end(s, i + 2))
    } else if pair_at(s, '/', '*', i) {
        code_from(s, comment_end(s, i + 2) + 2)
    } else {
        i
    }
}

#[via_fn]
proof fn code_from_ends(s: Text, i: int) {
    if 0 <= i {
        line_end_bounds(s, i + 2);
        comment_end_bounds(s, i + 2);
    }
}

/// A comma at index `i` has nothing but comments after it in its list.
pub open spec fn is_trailing(s: Text, i: int) -> bool {
    let j = code_from(s, i + 1);
    j < s.len() && (s[j] == '}' || s[j] == ']')
}

/// The text from index `i` on without `//` and `/* */` comments and trailing commas; `inside` a
/// string or not.
pub open spec fn bare_from(s: Text, i: int, inside: bool) -> Text
    decreases
            if i < s.len() {
                s.len() - i
            } else {
                0
            },
    via bare_from_ends
{
    if !(0 <= i < s.len()) {
        seq![]
    } else if inside {
        if s[i] == '\\' && i + 1 < s.len() {
            seq![s[i], s[i + 1]] + bare_from(s, i + 2, true)
        } else {
            seq![s[i]] + bare_from(s, i + 1, s[i] != '"')
        }
    } else if s[i] == '"' {
        seq![s[i]] + bare_from(s, i + 1, true)
    } else if pair_at(s, '/', '/', i) {
        bare_from(s, line_end(s, i + 2), false)
    } else if pair_at(s, '/', '*', i) {
        bare_from(s, comment_end(s, i + 2) + 2, false)
    } else if s[i] == ',' && is_trailing(s, i) {
        bare_from(s, i + 1, false)
    } else {
        seq![s[i]] + bare_from(s, i + 1, false)
    }
}

#[via_fn]
proof fn bare_from_ends(s: Text, i: int, inside: bool) {
    if 0 <= i {
        line_end_bounds(s, i + 2);
        comment_end_bounds(s, i + 2);
    }
}

/// A text with comments and trailing commas as JSON.
pub open spec fn bare_json(s: Text) -> Text {
    bare_from(s, 0, false)
}

fn after_line(v: &Vec<char>, i: usize) -> (r: usize)
    requires
        i <= v@.len(),
    ensures
        r == line_end(v@, i as int),
        i <= r <= v@.len(),
{
    let mut j: usize = i;
    while j < v.len() && v[j] != '\n'
        invariant
            i <= j <= v@.len(),
            line_end(v@, i as int) == line_end(v@, j as int),
        decreases v@.len() - j,
    {
        j += 1;
    }
    j
}

fn after_comment(v: &Vec<char>, i: usize) -> (r: usize)
    requires
        i <= v@.len(),
    ensures
        r == comment_end(v@, i as int),
        i <= r <= v@.len(),
{
    let mut j: usize = i;
    while j < v.len() && !(v.len() - j >= 2 && v[j] == '*' && v[j + 1] == '/')
        invariant
            i <= j <= v@.len(),
            comment_end(v@, i as int) == comment_end(v@, j as int),
        decreases v@.len() - j,
    {
        j += 1;
    }
    j
}

fn trailing(v: &Vec<char>, i: usize) -> (r: bool)
    requires
        i < v@.len(),
    ensures
        r == is_trailing(v@, i as int),
{
    let n: usize = v.len();
    let mut j: usize = i + 1;
    while j < n
        invariant
            j <= n,
            n == v@.len(),
            i < n,
            code_from(v@, i + 1) == code_from(v@, j as int),
        decreases n - j,
    {
        if text::is_white_space(v[j]) {
            j += 1;
        } else if n - j >= 2 && v[j] == '/' && v[j + 1] == '/' {
            j = after_line(v, j + 2);
        } else if n - j >= 2 && v[j] == '/' && v[j + 1] == '*' {
            let end: usize = after_comment(v, j + 2);
            if n - end >= 2 {
                j = end + 2;
            } else {
                assert(code_from(v@, end + 2) == end + 2);
                return false;
            }
        } else {
            return v[j] == '}' || v[j] == ']';
        }
    }
    false
}

/// Removes `//` and `/* */` comments and trailing commas, so that the text is JSON.
fn strip_jsonc(s: &str) -> (r: String)
    ensures
        r@ == bare_json(s@),
{
    let v = text::chars_of(s);
    let n: usize = v.len();
    let mut out: Vec<char> = Vec::new();
    let mut i: usize = 0;
    let mut inside = false;
    while i < n
        invariant
            i <= n,
            n == v@.len(),
            v@ == s@,
            out@ + bare_from(v@, i as int, inside) == bare_json(s@),
        decreases n - i,
    {
        let c = v[i];
        let ghost before = out@;
        if inside {
            out.push(c);
            if c == '\\' && n - i >= 2 {
                out.push(v[i + 1]);
                assert(out@ =~= before + seq![v@[i as int], v@[i + 1]]);
                i += 2;
            } else {
                inside = c != '"';
                assert(out@ =~= before + seq![v@[i as int]]);
                i += 1;
            }
        } else if c == '"' {
            out.push(c);
            assert(out@ =~= before + seq![v@[i as int]]);
            inside = true;
            i += 1;
        } else if n - i >= 2 && c == '/' && v[i + 1] == '/' {
            i = after_line(&v, i + 2);
        } else if n - i >= 2 && c == '/' && v[i + 1] == '*' {
            let end: usize = after_comment(&v, i + 2);
            if n - end >= 2 {
                i = end + 2;
            } else {
                assert(bare_from(v@, end + 2, false) =~= seq![]);
                assert(bare_from(v@, n as int, false) =~= seq![]);
                i = n;
            }
        } else if c == ',' && trailing(&v, i) {
            i += 1;
        } else {
            out.push(c);
            assert(out@ =~= before + seq![v@[i as int]]);
            i += 1;
        }
    }
    assert(out@ =~= bare_json(s@));
    text::text_of(&out, 0, out.len())
}

// ---- aliases

/// The directory of a file.
pub open spec fn directory_of(path: Text) -> Text {
    match text::parted_last(path, "/"@) {
        Some((d, _)) => d,
        None => ""@,
    }
}

/// The targets from index `i` on that are texts, as paths under `base`.
pub open spec fn targets_from(base: Text, items: Seq<TreeView>, i: int) -> Seq<Text>
    decreases items.len() - i,
{
    if 0 <= i < items.len() {
        (match items[i] {
            TreeView::Str(t) => seq![joined_path(base, t)],
            _ => seq![],
        }) + targets_from(base, items, i + 1)
    } else {
        seq![]
    }
}

/// The aliases that the patterns from index `i` on declare.
pub open spec fn patterns_from(scope: Text, base: Text, paths: Seq<(Text, TreeView)>, i: int) -> Seq<PathAliasView>
    decreases paths.len() - i,
{
    if 0 <= i < paths.len() {
        seq![
            PathAliasView {
                scope,
                pattern: paths[i].0,
                targets: targets_from(base, tree::items_of(Some(paths[i].1)), 0),
            },
        ] + patterns_from(scope, base, paths, i + 1)
    } else {
        seq![]
    }
}

/// The aliases of the options of a configuration. Bare specifiers resolve against `baseUrl`,
/// after `paths`.
pub open spec fn options_aliases(scope: Text, opts: TreeView) -> Seq<PathAliasView> {
    let given = tree::field(opts, "baseUrl"@);
    let base = joined_path(
        scope,
        match tree::str_of(given) {
            Some(b) => b,
            None => "."@,
        },
    );
    (match tree::field(opts, "paths"@) {
        Some(TreeView::Table(paths)) => patterns_from(scope, base, paths, 0),
        _ => seq![],
    }) + (if given is Some {
        seq![PathAliasView { scope, pattern: "*"@, targets: seq![joined_path(base, "*"@)] }]
    } else {
        seq![]
    })
}

/// The aliases that a configuration declares.
pub open spec fn config_aliases(path: Text, doc: Option<TreeView>) -> Seq<PathAliasView> {
    match doc {
        Some(json) => match tree::field(json, "compilerOptions"@) {
            Some(opts) => options_aliases(directory_of(path), opts),
            None => seq![],
        },
        None => seq![],
    }
}

fn targets(base: &String, item: &Tree) -> (r: Vec<String>)
    ensures
        r.deep_view() == targets_from(base@, tree::items_of(Some(item.deep_view())), 0),
{
    let mut out: Vec<String> = list::empty();
    if let Tree::List(items) = item {
        let ghost v = tree::tree_list_view(items@);
        let mut i: usize = 0;
        while i < items.len()
            invariant
                i <= items@.len(),
                v == tree::tree_list_view(items@),
                out.deep_view() + targets_from(base@, v, i as int) == targets_from(base@, v, 0),
            decreases items@.len() - i,
        {
            assert(v[i as int] == tree::tree_view(items@[i as int]));
            if let Tree::Str(t) = &items[i] {
                list::push(&mut out, join_path(base, t));
            }
            i += 1;
        }
    }
    out
}

fn aliases_of(scope: &String, opts: &Tree) -> (r: Vec<PathAlias>)
    ensures
        r.deep_view() == options_aliases(scope@, opts.deep_view()),
{
    let given = opts.get("baseUrl");
    let base = match opts.get_str("baseUrl") {
        Some(b) => join_path(scope, b),
        None => join_path(scope, "."),
    };
    let mut out: Vec<PathAlias> = list::empty();
    if let Some(Tree::Table(paths)) = opts.get("paths") {
        let ghost v = tree::tree_fields_view(paths@);
        let mut i: usize = 0;
        while i < paths.len()
            invariant
                i <= paths@.len(),
                v == tree::tree_fields_view(paths@),
                out.deep_view() + patterns_from(scope@, base@, v, i as int) == patterns_from(
                    scope@,
                    base@,
                    v,
                    0,
                ),
            decreases paths@.len() - i,
        {
            assert(v[i as int] == (paths@[i as int].0@, tree::tree_view(paths@[i as int].1)));
            list::push(
                &mut out,
                PathAlias {
                    scope: scope.dup(),
                    pattern: paths[i].0.dup(),
                    targets: targets(&base, &paths[i].1),
                },
            );
            i += 1;
        }
    }
    let ghost first = out.deep_view();
    if given.is_some() {
        list::push(
            &mut out,
            PathAlias {
                scope: scope.dup(),
                pattern: "*".to_owned(),
                targets: list::one(join_path(&base, "*")),
            },
        );
    }
    out
}

/// The aliases that a parsed configuration declares.
pub fn aliases_in(path: &str, doc: &Option<Tree>) -> (r: Vec<PathAlias>)
    ensures
        r.deep_view() == config_aliases(path@, doc.deep_view()),
{
    match doc {
        Some(json) => match json.get("compilerOptions") {
            Some(opts) => {
                let scope = match text::rsplit_once(path, "/") {
                    Some((d, _)) => d,
                    None => "".to_owned(),
                };
                aliases_of(&scope, opts)
            },
            None => list::empty(),
        },
        None => list::empty(),
    }
}

/// Import aliases declared by a tsconfig's `compilerOptions.paths` and `baseUrl`.
/// `extends` is not followed.
pub fn path_aliases(config_path: &str, text: &str) -> (r: Vec<PathAlias>)
    ensures
        r.deep_view() == config_aliases(config_path@, tree::json_document(bare_json(text@))),
{
    aliases_in(config_path, &tree::parse_json(&strip_jsonc(text)))
}

} // verus!
