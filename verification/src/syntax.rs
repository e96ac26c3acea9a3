//! Nodes of a syntax tree: kinds, parts, flags and places.

use crate::text;
use crate::text::Text;
use crate::tree;
use crate::tree::{Tree, TreeView};
use vstd::prelude::*;

verus! {

// ---- measure

/// The number of values in a tree.
pub open spec fn size(t: TreeView) -> nat
    decreases t, 0int,
{
    match t {
        TreeView::List(xs) => 1 + sizes(xs, 0),
        TreeView::Table(fs) => 1 + field_sizes(fs, 0),
        _ => 1,
    }
}

/// The number of values in the trees from index `i` on.
pub open spec fn sizes(xs: Seq<TreeView>, i: int) -> nat
    decreases xs, xs.len() - i,
{
    if 0 <= i < xs.len() {
        size(xs[i]) + sizes(xs, i + 1)
    } else {
        0
    }
}

/// The number of values in the fields from index `i` on.
pub open spec fn field_sizes(fs: Seq<(Text, TreeView)>, i: int) -> nat
    decreases fs, fs.len() - i,
{
    if 0 <= i < fs.len() {
        size(fs[i].1) + field_sizes(fs, i + 1)
    } else {
        0
    }
}

proof fn found_field_fits(fs: Seq<(Text, TreeView)>, key: Text, i: int)
    requires
        0 <= i,
    ensures
        match tree::field_from(fs, key, i) {
            Some(x) => size(x) <= field_sizes(fs, i),
            None => true,
        },
    decreases fs.len() - i,
{
    if i < fs.len() {
        found_field_fits(fs, key, i + 1);
    }
}

proof fn item_fits(xs: Seq<TreeView>, i: int, k: int)
    requires
        0 <= i <= k < xs.len(),
    ensures
        size(xs[k]) <= sizes(xs, i),
    decreases k - i,
{
    if i < k {
        item_fits(xs, i + 1, k);
    }
}

/// A part of a node is smaller than the node.
pub proof fn parts_fit(t: TreeView)
    ensures
        forall|k: Text|
            match #[trigger] part(t, k) {
                Some(x) => size(x) < size(t),
                None => true,
            },
        forall|k: Text| sizes(#[trigger] items(t, k), 0) < size(t),
{
    assert forall|k: Text|
        match #[trigger] part(t, k) {
            Some(x) => size(x) < size(t),
            None => true,
        } by {
        if let TreeView::Table(fs) = t {
            found_field_fits(fs, k, 0);
        }
    }
    assert forall|k: Text| sizes(#[trigger] items(t, k), 0) < size(t) by {
        if let TreeView::Table(fs) = t {
            found_field_fits(fs, k, 0);
        }
    }
}

/// An item of a list is no larger than the list.
pub proof fn items_fit(xs: Seq<TreeView>)
    ensures
        forall|k: int| 0 <= k < xs.len() ==> size(#[trigger] xs[k]) <= sizes(xs, 0),
{
    assert forall|k: int| 0 <= k < xs.len() implies size(#[trigger] xs[k]) <= sizes(xs, 0) by {
        item_fits(xs, 0, k);
    }
}

// ---- parts

/// The kind of a node.
pub open spec fn kind(t: TreeView) -> Text {
    match tree::str_of(tree::field(t, "type"@)) {
        Some(k) => k,
        None => ""@,
    }
}

/// The part of a node under a key; none where it is missing or `null`.
pub open spec fn part(t: TreeView, key: Text) -> Option<TreeView> {
    match tree::field(t, key) {
        Some(TreeView::Null) => None,
        x => x,
    }
}

/// The list of parts under a key.
pub open spec fn items(t: TreeView, key: Text) -> Seq<TreeView> {
    tree::items_of(tree::field(t, key))
}

/// The flag under a key.
pub open spec fn flag(t: TreeView, key: Text) -> bool {
    tree::field(t, key) == Some(TreeView::Bool(true))
}

/// The text under a key; empty where there is none.
pub open spec fn word(t: TreeView, key: Text) -> Text {
    match tree::str_of(tree::field(t, key)) {
        Some(s) => s,
        None => ""@,
    }
}

/// The byte offset under a key.
pub open spec fn offset(t: TreeView, key: Text) -> int {
    match tree::field(t, key) {
        Some(TreeView::Num(n)) => match text::index_value(n.text) {
            Some(k) => k,
            None => 0,
        },
        _ => 0,
    }
}

/// A node is of a kind.
pub open spec fn is_kind(t: Option<TreeView>, k: Text) -> bool {
    match t {
        Some(x) => kind(x) == k,
        None => false,
    }
}

/// The name of an identifier; none for another node.
pub open spec fn ident(t: Option<TreeView>) -> Option<Text> {
    match t {
        Some(x) => if kind(x) == "Identifier"@ {
            Some(word(x, "name"@))
        } else {
            None
        },
        None => None,
    }
}

/// The text of a string literal; none for another node.
pub open spec fn string_literal(t: Option<TreeView>) -> Option<Text> {
    match t {
        Some(x) => if kind(x) == "Literal"@ {
            tree::str_of(tree::field(x, "value"@))
        } else {
            None
        },
        None => None,
    }
}

/// The name that a property key stands for: an identifier that is not computed, a private name
/// or a string.
pub open spec fn key_name(t: TreeView) -> Option<Text> {
    let key = part(t, "key"@);
    if is_kind(key, "PrivateIdentifier"@) {
        Some(word(key->0, "name"@))
    } else {
        match string_literal(key) {
            Some(s) => Some(s),
            None => if flag(t, "computed"@) {
                None
            } else {
                ident(key)
            },
        }
    }
}

/// The property that a member expression names without computing it.
pub open spec fn static_property(t: TreeView) -> Option<Text> {
    if flag(t, "computed"@) {
        None
    } else {
        ident(part(t, "property"@))
    }
}

/// The simple name of a callee or a base class.
pub open spec fn simple_name(t: Option<TreeView>) -> Option<Text> {
    if is_kind(t, "MemberExpression"@) {
        static_property(t->0)
    } else {
        ident(t)
    }
}

/// A pattern without its default value.
pub open spec fn bound(t: TreeView) -> Option<TreeView> {
    if kind(t) == "AssignmentPattern"@ {
        part(t, "left"@)
    } else {
        Some(t)
    }
}

// ---- reading

/// Reads the kind of a node.
pub fn read_kind(t: &Tree) -> (r: &str)
    ensures
        r@ == kind(t.deep_view()),
{
    match t.get_str("type") {
        Some(k) => k,
        None => "",
    }
}

/// A node is of a kind.
pub fn is(t: &Tree, k: &str) -> (r: bool)
    ensures
        r == (kind(t.deep_view()) == k@),
{
    text::same(read_kind(t), k)
}

/// Reads the part of a node under a key.
pub fn read_part<'a>(t: &'a Tree, key: &str) -> (r: Option<&'a Tree>)
    ensures
        r.deep_view() == part(t.deep_view(), key@),
{
    match t.get(key) {
        Some(Tree::Null) => None,
        x => x,
    }
}

/// Reads the list of parts under a key; none where there is no list.
pub fn read_list<'a>(t: &'a Tree, key: &str) -> (r: Option<&'a Vec<Tree>>)
    ensures
        match r {
            Some(xs) => xs.deep_view() == items(t.deep_view(), key@),
            None => items(t.deep_view(), key@).len() == 0,
        },
{
    broadcast use tree::tree_list_view_is_deep;

    match t.get(key) {
        Some(Tree::List(xs)) => Some(xs),
        _ => None,
    }
}

/// Reads the flag under a key.
pub fn read_flag(t: &Tree, key: &str) -> (r: bool)
    ensures
        r == flag(t.deep_view(), key@),
{
    match t.get(key) {
        Some(Tree::Bool(b)) => *b,
        _ => false,
    }
}

/// Reads the text under a key.
pub fn read_word<'a>(t: &'a Tree, key: &str) -> (r: &'a str)
    ensures
        r@ == word(t.deep_view(), key@),
{
    match t.get_str(key) {
        Some(s) => s,
        None => "",
    }
}

/// Reads the byte offset under a key.
pub fn read_offset(t: &Tree, key: &str) -> (r: u64)
    ensures
        r == offset(t.deep_view(), key@),
{
    match t.get(key) {
        Some(Tree::Num(n)) => match text::parse_index(&n.text) {
            Some(k) => k as u64,
            None => 0,
        },
        _ => 0,
    }
}

/// A part is there and is of a kind.
pub fn has_kind(t: Option<&Tree>, k: &str) -> (r: bool)
    ensures
        r == is_kind(t.deep_view(), k@),
{
    match t {
        Some(x) => is(x, k),
        None => false,
    }
}

/// Reads the name of an identifier.
pub fn read_ident(t: Option<&Tree>) -> (r: Option<String>)
    ensures
        r.deep_view() == ident(t.deep_view()),
{
    match t {
        Some(x) => if is(x, "Identifier") {
            Some(read_word(x, "name").to_owned())
        } else {
            None
        },
        None => None,
    }
}

/// Reads a string literal.
pub fn read_string(t: Option<&Tree>) -> (r: Option<String>)
    ensures
        r.deep_view() == string_literal(t.deep_view()),
{
    match t {
        Some(x) => if is(x, "Literal") {
            match x.get_str("value") {
                Some(s) => Some(s.to_owned()),
                None => None,
            }
        } else {
            None
        },
        None => None,
    }
}

/// Reads the name that a property key stands for.
pub fn read_key(t: &Tree) -> (r: Option<String>)
    ensures
        r.deep_view() == key_name(t.deep_view()),
{
    let key = read_part(t, "key");
    if has_kind(key, "PrivateIdentifier") {
        match key {
            Some(k) => Some(read_word(k, "name").to_owned()),
            None => None,
        }
    } else {
        match read_string(key) {
            Some(s) => Some(s),
            None => if read_flag(t, "computed") {
                None
            } else {
                read_ident(key)
            },
        }
    }
}

/// Reads the property that a member expression names.
pub fn read_property(t: &Tree) -> (r: Option<String>)
    ensures
        r.deep_view() == static_property(t.deep_view()),
{
    if read_flag(t, "computed") {
        None
    } else {
        read_ident(read_part(t, "property"))
    }
}

/// Reads the simple name of a callee or a base class.
pub fn read_simple(t: Option<&Tree>) -> (r: Option<String>)
    ensures
        r.deep_view() == simple_name(t.deep_view()),
{
    if has_kind(t, "MemberExpression") {
        match t {
            Some(x) => read_property(x),
            None => None,
        }
    } else {
        read_ident(t)
    }
}

/// A pattern without its default value.
pub fn read_bound(t: &Tree) -> (r: Option<&Tree>)
    ensures
        r.deep_view() == bound(t.deep_view()),
{
    if is(t, "AssignmentPattern") {
        read_part(t, "left")
    } else {
        Some(t)
    }
}

} // verus!
