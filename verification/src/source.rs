//! Which files of a source tree are analyzed, and how listings of revisions are read.

use crate::aliases;
use crate::list;
use crate::list::Plain;
use crate::ordered;
use crate::ordered::{Rank, SortedMap};
use crate::text;
use crate::text::Text;
use crate::tree;
use crate::tree::{Tree, TreeView};
use vstd::prelude::*;

verus! {

/// Source files: path to text.
pub type Files = SortedMap<String, String>;

// ---- paths

/// A directory that holds no sources of the project.
pub open spec fn is_skipped(name: Text) -> bool {
    name == "node_modules"@ || name == ".git"@ || name == "dist"@ || name == "build"@ || name
        == "target"@ || name == ".next"@ || name == "coverage"@
}

/// A directory that holds no sources of the project.
pub fn skipped(name: &str) -> (r: bool)
    ensures
        r == is_skipped(name@),
{
    text::same(name, "node_modules") || text::same(name, ".git") || text::same(name, "dist")
        || text::same(name, "build") || text::same(name, "target") || text::same(name, ".next")
        || text::same(name, "coverage")
}

/// A directory of test code, which is no behaviour of the product.
pub open spec fn is_test_dir(name: Text) -> bool {
    name == "test"@ || name == "tests"@ || name == "__tests__"@ || name == "__mocks__"@ || name
        == "e2e"@
}

fn test_dir(name: &str) -> (r: bool)
    ensures
        r == is_test_dir(name@),
{
    text::same(name, "test") || text::same(name, "tests") || text::same(name, "__tests__")
        || text::same(name, "__mocks__") || text::same(name, "e2e")
}

/// A segment of a path is a directory of test code.
pub open spec fn in_tests(path: Text) -> bool {
    exists|i: int|
        0 <= i < text::pieces(path, "/"@).len() && is_test_dir(
            #[trigger] text::pieces(path, "/"@)[i],
        )
}

/// A segment of a path is a directory that holds no sources.
pub open spec fn in_skipped(path: Text) -> bool {
    exists|i: int|
        0 <= i < text::pieces(path, "/"@).len() && is_skipped(
            #[trigger] text::pieces(path, "/"@)[i],
        )
}

fn within_tests(path: &str) -> (r: bool)
    ensures
        r == in_tests(path@),
{
    let segs = text::split(path, "/");
    let ghost v = segs.deep_view();
    let mut i: usize = 0;
    while i < segs.len()
        invariant
            i <= segs@.len(),
            v == segs.deep_view(),
            v == text::pieces(path@, "/"@),
            forall|k: int| 0 <= k < i ==> !is_test_dir(#[trigger] v[k]),
        decreases segs@.len() - i,
    {
        assert(v[i as int] == segs@[i as int]@);
        if test_dir(&segs[i]) {
            assert(is_test_dir(text::pieces(path@, "/"@)[i as int]));
            return true;
        }
        i += 1;
    }
    false
}

fn within_skipped(path: &str) -> (r: bool)
    ensures
        r == in_skipped(path@),
{
    let segs = text::split(path, "/");
    let ghost v = segs.deep_view();
    let mut i: usize = 0;
    while i < segs.len()
        invariant
            i <= segs@.len(),
            v == segs.deep_view(),
            v == text::pieces(path@, "/"@),
            forall|k: int| 0 <= k < i ==> !is_skipped(#[trigger] v[k]),
        decreases segs@.len() - i,
    {
        assert(v[i as int] == segs@[i as int]@);
        if skipped(&segs[i]) {
            assert(is_skipped(text::pieces(path@, "/"@)[i as int]));
            return true;
        }
        i += 1;
    }
    false
}

/// A file that is analyzed: configuration, or a source that is no test.
pub open spec fn is_wanted(path: Text) -> bool {
    let name = text::after_last(path, "/"@);
    aliases::is_config(path) || path == "merak.toml"@ || (aliases::is_source(path)
        && !text::has_text(name, ".spec."@) && !text::has_text(name, ".test."@) && !in_tests(path))
}

/// A file that is analyzed.
pub fn wanted(path: &str) -> (r: bool)
    ensures
        r == is_wanted(path@),
{
    if aliases::is_project_config(path) || text::same(path, "merak.toml") {
        return true;
    }
    let name = text::last_piece(path, "/");
    aliases::is_supported(path) && !text::contains(&name, ".spec.") && !text::contains(
        &name,
        ".test.",
    ) && !within_tests(path)
}

// ---- listings of revisions

/// A path without slashes around it.
pub open spec fn bare_prefix(p: Text) -> Text {
    text::trimmed_end(text::trimmed_start(p, "/"@), "/"@)
}

/// A path without slashes around it.
pub fn trim_slashes(p: &str) -> (r: String)
    ensures
        r@ == bare_prefix(p@),
{
    text::trim_end(&text::trim_start(p, "/"), "/")
}

/// A path relative to a prefix of whole segments; none where it lies elsewhere.
pub open spec fn relative(path: Text, prefix: Text) -> Option<Text> {
    if prefix.len() == 0 {
        Some(path)
    } else {
        match text::after_prefix(path, prefix) {
            Some(rest) => text::after_prefix(rest, "/"@),
            None => None,
        }
    }
}

fn strip_base(path: &str, prefix: &str) -> (r: Option<String>)
    ensures
        r.deep_view() == relative(path@, prefix@),
{
    if prefix.is_empty() {
        Some(path.to_owned())
    } else {
        match text::strip_prefix(path, prefix) {
            Some(rest) => text::strip_prefix(&rest, "/"),
            None => None,
        }
    }
}

/// The path and the blob id of an entry `<mode> blob <id>\t<path>` that is analyzed.
pub open spec fn entry_of(entry: Text, prefix: Text) -> Option<(Text, Text)> {
    match text::parted(entry, "\t"@) {
        Some((about, path)) => {
            let parts = text::pieces(about, " "@);
            if parts.len() >= 3 && parts[1] == "blob"@ {
                match relative(path, prefix) {
                    Some(rel) => if is_wanted(rel) && !in_skipped(rel) {
                        Some((rel, parts[2]))
                    } else {
                        None
                    },
                    None => None,
                }
            } else {
                None
            }
        },
        None => None,
    }
}

fn read_entry(entry: &str, prefix: &str) -> (r: Option<(String, String)>)
    ensures
        r.deep_view() == entry_of(entry@, prefix@),
{
    match text::split_once(entry, "\t") {
        Some((about, path)) => {
            let parts = text::split(&about, " ");
            let ghost v = parts.deep_view();
            if parts.len() >= 3 {
                assert(v[1] == parts@[1]@);
                assert(v[2] == parts@[2]@);
                if text::same(&parts[1], "blob") {
                    if let Some(rel) = strip_base(&path, prefix) {
                        if wanted(&rel) && !within_skipped(&rel) {
                            return Some((rel, parts[2].dup()));
                        }
                    }
                }
            }
            None
        },
        None => None,
    }
}

/// The entries from index `i` on that are analyzed.
pub open spec fn entries_from(entries: Seq<Text>, prefix: Text, i: int) -> Seq<(Text, Text)>
    decreases entries.len() - i,
{
    if 0 <= i < entries.len() {
        (match entry_of(entries[i], prefix) {
            Some(e) => seq![e],
            None => seq![],
        }) + entries_from(entries, prefix, i + 1)
    } else {
        seq![]
    }
}

/// `(path relative to prefix, blob id)` of every analyzed file in a listing whose entries end in
/// a zero character.
pub fn tree_entries(listing: &str, prefix: &str) -> (r: Vec<(String, String)>)
    ensures
        r.deep_view() == entries_from(text::pieces(listing@, "\0"@), bare_prefix(prefix@), 0),
{
    let prefix = trim_slashes(prefix);
    let entries = text::split(listing, "\0");
    let ghost v = entries.deep_view();
    let mut out: Vec<(String, String)> = list::empty();
    let mut i: usize = 0;
    while i < entries.len()
        invariant
            i <= entries@.len(),
            v == entries.deep_view(),
            out.deep_view() + entries_from(v, prefix@, i as int) == entries_from(v, prefix@, 0),
        decreases entries@.len() - i,
    {
        assert(v[i as int] == entries@[i as int]@);
        if let Some(e) = read_entry(&entries[i], &prefix) {
            list::push(&mut out, e);
        }
        i += 1;
    }
    out
}

/// Why the header of a blob gives no size.
#[derive(Debug, Clone, Copy, PartialEq, Eq)]
pub enum HeaderError {
    /// There is no such blob.
    Missing,
    /// What stands for the size is no number.
    Unreadable,
}

/// The size in a header `<id> blob <size>`.
pub open spec fn size_of(header: Text) -> Result<int, HeaderError> {
    let line = header.take(text::black_end(header, header.len() as int, 0));
    match text::parted_last(line, " "@) {
        Some((_, n)) => if text::has_text(header, " missing"@) {
            Err(HeaderError::Missing)
        } else {
            match text::index_value(n) {
                Some(k) => Ok(k),
                None => Err(HeaderError::Unreadable),
            }
        },
        None => Err(HeaderError::Missing),
    }
}

fn trim_line(s: &str) -> (r: String)
    ensures
        r@ == s@.take(text::black_end(s@, s@.len() as int, 0)),
{
    let v = text::chars_of(s);
    let mut n: usize = v.len();
    while n > 0 && text::is_white_space(v[n - 1])
        invariant
            n <= v@.len(),
            v@ == s@,
            text::black_end(s@, s@.len() as int, 0) == text::black_end(s@, n as int, 0),
        decreases n,
    {
        n -= 1;
    }
    let out = text::text_of(&v, 0, n);
    assert(out@ =~= s@.take(n as int));
    out
}

/// The size in a header `<id> blob <size>`, or why there is none.
pub fn blob_size(header: &str) -> (r: Result<usize, HeaderError>)
    ensures
        match r {
            Ok(n) => size_of(header@) == Ok::<int, HeaderError>(n as int),
            Err(e) => size_of(header@) == Err::<int, HeaderError>(e),
        },
{
    let line = trim_line(header);
    match text::rsplit_once(&line, " ") {
        Some((_, n)) => if text::contains(header, " missing") {
            Err(HeaderError::Missing)
        } else {
            match text::parse_index(&n) {
                Some(k) => Ok(k),
                None => Err(HeaderError::Unreadable),
            }
        },
        None => Err(HeaderError::Missing),
    }
}

// ---- ranges

/// The revisions of a range `base..head`; the head is empty for the working tree.
pub open spec fn range_of(range: Text) -> (Text, Text) {
    match text::parted(range, ".."@) {
        Some(p) => p,
        None => (range, ""@),
    }
}

/// The revisions of a range `base..head`; the head is empty for the working tree.
pub fn split_range(range: &str) -> (r: (String, String))
    ensures
        (r.0@, r.1@) == range_of(range@),
{
    match text::split_once(range, "..") {
        Some(p) => p,
        None => (range.to_owned(), "".to_owned()),
    }
}

// ---- overlays

/// The texts among the items from index `i` on.
pub open spec fn texts_from(items: Seq<TreeView>, i: int) -> Seq<Text>
    decreases items.len() - i,
{
    if 0 <= i < items.len() {
        (match items[i] {
            TreeView::Str(s) => seq![s],
            _ => seq![],
        }) + texts_from(items, i + 1)
    } else {
        seq![]
    }
}

/// The paths that a scenario deletes.
pub open spec fn deletions(doc: Result<TreeView, Text>) -> Seq<Text> {
    match doc {
        Ok(t) => texts_from(tree::items_of(tree::field(t, "delete"@)), 0),
        Err(_) => seq![],
    }
}

/// Files without the paths from index `i` on.
pub open spec fn deleted_from(files: Seq<(Text, Text)>, paths: Seq<Text>, i: int) -> Seq<(Text, Text)>
    decreases paths.len() - i,
{
    if 0 <= i < paths.len() {
        deleted_from(ordered::without(files, paths[i]), paths, i + 1)
    } else {
        files
    }
}

/// Files with those of an overlay from index `i` on.
pub open spec fn laid_from(files: Seq<(Text, Text)>, over: Seq<(Text, Text)>, i: int) -> Seq<(Text, Text)>
    decreases over.len() - i,
{
    if 0 <= i < over.len() {
        laid_from(ordered::put(files, over[i].0, over[i].1), over, i + 1)
    } else {
        files
    }
}

/// Files with an overlay applied and paths removed.
pub open spec fn overlaid(files: Seq<(Text, Text)>, paths: Seq<Text>, over: Seq<(Text, Text)>) -> Seq<(Text, Text)> {
    laid_from(deleted_from(files, paths, 0), over, 0)
}

fn read_deletions(doc: &Result<Tree, String>) -> (r: Vec<String>)
    ensures
        r.deep_view() == deletions(
            match *doc {
                Ok(t) => Ok(t.deep_view()),
                Err(e) => Err(e@),
            },
        ),
{
    let mut out: Vec<String> = list::empty();
    if let Ok(t) = doc {
        if let Some(Tree::List(items)) = t.get("delete") {
            let ghost v = tree::tree_list_view(items@);
            let mut i: usize = 0;
            while i < items.len()
                invariant
                    i <= items@.len(),
                    v == tree::tree_list_view(items@),
                    out.deep_view() + texts_from(v, i as int) == texts_from(v, 0),
                decreases items@.len() - i,
            {
                assert(v[i as int] == tree::tree_view(items@[i as int]));
                if let Tree::Str(s) = &items[i] {
                    list::push(&mut out, s.dup());
                }
                i += 1;
            }
        }
    }
    out
}

/// Files with paths removed and an overlay applied.
pub fn overlay(base: &Files, paths: &Vec<String>, over: &Files) -> (r: Files)
    ensures
        r.deep_view() == overlaid(base.deep_view(), paths.deep_view(), over.deep_view()),
{
    let mut files = base.dup();
    let ghost start = files.deep_view();
    let ghost ps = paths.deep_view();
    let mut i: usize = 0;
    while i < paths.len()
        invariant
            i <= paths@.len(),
            ps == paths.deep_view(),
            deleted_from(files.deep_view(), ps, i as int) == deleted_from(start, ps, 0),
        decreases paths@.len() - i,
    {
        assert(ps[i as int] == paths@[i as int]@);
        let _ = files.remove(&paths[i]);
        i += 1;
    }
    let ghost kept = files.deep_view();
    let ghost ov = over.deep_view();
    i = 0;
    while i < over.len()
        invariant
            i <= ov.len(),
            ov == over.deep_view(),
            laid_from(files.deep_view(), ov, i as int) == laid_from(kept, ov, 0),
        decreases ov.len() - i,
    {
        files.insert(over.key(i).dup(), over.value(i).dup());
        i += 1;
    }
    files
}

/// `base` with an overlay applied and the paths removed that the scenario's `delete = [...]`
/// names.
pub fn with_overlay(base: &Files, scenario: &str, over: &Files) -> (r: Files)
    ensures
        r.deep_view() == overlaid(
            base.deep_view(),
            deletions(tree::toml_document(scenario@)),
            over.deep_view(),
        ),
{
    let doc = tree::parse_toml(scenario);
    overlay(base, &read_deletions(&doc), over)
}

// ---- laws

/// A path lies under a prefix exactly if the prefix is made of its first segments: `src` has
/// `src/a.ts` and not `srcs/a.ts`.
pub proof fn prefixes_are_whole_segments(path: Text, prefix: Text, rest: Text)
    requires
        prefix.len() > 0,
    ensures
        relative(path, prefix) == Some(rest) <==> path == prefix + "/"@ + rest,
{
    reveal_strlit("/");
    let slash = "/"@;
    if relative(path, prefix) == Some(rest) {
        let tail = path.skip(prefix.len() as int);
        assert(path =~= path.take(prefix.len() as int) + tail);
        assert(path.take(prefix.len() as int) == prefix);
        assert(tail =~= tail.take(slash.len() as int) + tail.skip(slash.len() as int));
        assert(tail.take(slash.len() as int) == slash);
        assert(path =~= prefix + slash + rest);
    }
    if path == prefix + slash + rest {
        assert(path.take(prefix.len() as int) =~= prefix);
        let tail = path.skip(prefix.len() as int);
        assert(tail =~= slash + rest);
        assert(tail.take(slash.len() as int) =~= slash);
        assert(tail.skip(slash.len() as int) =~= rest);
    }
}

proof fn without_keeps(files: Seq<(Text, Text)>, path: Text, other: Text)
    requires
        ordered::ascending(files),
    ensures
        ordered::ascending(ordered::without(files, path)),
        ordered::lookup(ordered::without(files, path), other) == (if other == path {
            None
        } else {
            ordered::lookup(files, other)
        }),
{
    let rest = ordered::without(files, path);
    ordered::slot_bounds(files, path);
    let at = ordered::slot(files, path);
    if at < files.len() && files[at].0 == path {
        assert forall|i: int, j: int| 0 <= i < j < rest.len() implies (
        #[trigger] rest[i]).0.precedes((#[trigger] rest[j]).0) by {
            let x = if i < at {
                i
            } else {
                i + 1
            };
            let y = if j < at {
                j
            } else {
                j + 1
            };
            assert(rest[i] == files[x] && rest[j] == files[y]);
        }
    }
    ordered::slot_bounds(files, other);
    ordered::slot_bounds(rest, other);
    if ordered::lookup(rest, other) is Some {
        let n = ordered::slot(rest, other);
        let x = if at < files.len() && files[at].0 == path && n >= at {
            n + 1
        } else {
            n
        };
        assert(rest[n] == files[x]);
        ordered::slot_of_stored(files, x);
        if other == path {
            ordered::slot_of_stored(files, at);
        }
    } else if ordered::lookup(files, other) is Some && other != path {
        let n = ordered::slot(files, other);
        let y = if at < files.len() && files[at].0 == path && n > at {
            n - 1
        } else {
            n
        };
        assert(rest[y] == files[n]);
        ordered::slot_of_stored(rest, y);
    }
}

proof fn deleting_deletes(files: Seq<(Text, Text)>, paths: Seq<Text>, i: int, path: Text)
    requires
        ordered::ascending(files),
        0 <= i <= paths.len(),
    ensures
        ordered::ascending(deleted_from(files, paths, i)),
        ordered::lookup(deleted_from(files, paths, i), path) == (if paths.skip(i).contains(path) {
            None
        } else {
            ordered::lookup(files, path)
        }),
    decreases paths.len() - i,
{
    if i < paths.len() {
        without_keeps(files, paths[i], path);
        deleting_deletes(ordered::without(files, paths[i]), paths, i + 1, path);
        let here = paths.skip(i);
        let next = paths.skip(i + 1);
        assert(here[0] == paths[i]);
        if here.contains(path) {
            let k = choose|k: int| 0 <= k < here.len() && here[k] == path;
            if k > 0 {
                assert(next[k - 1] == path);
            }
        }
        if next.contains(path) {
            let k = choose|k: int| 0 <= k < next.len() && next[k] == path;
            assert(here[k + 1] == path);
        }
    }
}

proof fn laying_lays(files: Seq<(Text, Text)>, over: Seq<(Text, Text)>, i: int, path: Text)
    requires
        ordered::ascending(files),
        ordered::ascending(over),
        0 <= i <= over.len(),
    ensures
        ordered::lookup(laid_from(files, over, i), path) == (if ordered::lookup(over, path) is Some
            && ordered::slot(over, path) >= i {
            ordered::lookup(over, path)
        } else {
            ordered::lookup(files, path)
        }),
    decreases over.len() - i,
{
    ordered::slot_bounds(over, path);
    if i < over.len() {
        let (k, v) = over[i];
        ordered::put_keeps_order(files, k, v);
        laying_lays(ordered::put(files, k, v), over, i + 1, path);
        ordered::slot_of_stored(over, i);
        if path == k {
            ordered::lookup_after_put(files, k, v);
        } else {
            ordered::lookup_of_other(files, k, v, path);
        }
    }
}

/// With an overlay, a file is the overlay's where the overlay has it, gone where it is deleted,
/// and as it was everywhere else.
pub proof fn overlay_wins(
    files: Seq<(Text, Text)>,
    paths: Seq<Text>,
    over: Seq<(Text, Text)>,
    path: Text,
)
    requires
        ordered::ascending(files),
        ordered::ascending(over),
    ensures
        ordered::lookup(overlaid(files, paths, over), path) == (if ordered::lookup(over, path)
            is Some {
            ordered::lookup(over, path)
        } else if paths.contains(path) {
            None
        } else {
            ordered::lookup(files, path)
        }),
{
    deleting_deletes(files, paths, 0, path);
    assert(paths.skip(0) =~= paths);
    laying_lays(deleted_from(files, paths, 0), over, 0, path);
    ordered::slot_bounds(over, path);
}

} // verus!
