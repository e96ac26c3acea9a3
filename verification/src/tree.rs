//! Documents as plain values: JSON and TOML texts, read by `serde_json` and `toml`.

use crate::ir::{Number, NumberView};
use crate::list::Plain;
use crate::text;
use crate::text::Text;
use vstd::prelude::*;

verus! {

/// A document read from text.
#[derive(Debug, PartialEq)]
pub enum Tree {
    Null,
    Bool(bool),
    Num(Number),
    Str(String),
    List(Vec<Tree>),
    Table(Vec<(String, Tree)>),
    /// A value of another kind, as text.
    Other(String),
}

/// The view of [`Tree`].
#[verifier::ext_equal]
pub enum TreeView {
    Null,
    Bool(bool),
    Num(NumberView),
    Str(Seq<char>),
    List(Seq<TreeView>),
    Table(Seq<(Seq<char>, TreeView)>),
    Other(Seq<char>),
}

/// The view of a document.
pub open spec fn tree_view(v: Tree) -> TreeView
    decreases v,
{
    match v {
        Tree::Null => TreeView::Null,
        Tree::Bool(x0) => TreeView::Bool(x0),
        Tree::Num(x0) => TreeView::Num(x0.deep_view()),
        Tree::Str(x0) => TreeView::Str(x0@),
        Tree::List(x0) => TreeView::List(tree_list_view(x0@)),
        Tree::Table(x0) => TreeView::Table(tree_fields_view(x0@)),
        Tree::Other(x0) => TreeView::Other(x0@),
    }
}

impl DeepView for Tree {
    type V = TreeView;

    open spec fn deep_view(&self) -> TreeView {
        tree_view(*self)
    }
}

fn dup_tree(v: &Tree) -> (r: Tree)
    ensures
        tree_view(r) == tree_view(*v),
    decreases v,
{
    match v {
        Tree::Null => Tree::Null,
        Tree::Bool(x0) => Tree::Bool(*x0),
        Tree::Num(x0) => Tree::Num(x0.dup()),
        Tree::Str(x0) => Tree::Str(x0.dup()),
        Tree::List(x0) => Tree::List(dup_tree_list(x0)),
        Tree::Table(x0) => Tree::Table(dup_tree_fields(x0)),
        Tree::Other(x0) => Tree::Other(x0.dup()),
    }
}

fn alike_tree(v: &Tree, w: &Tree) -> (r: bool)
    ensures
        r == (tree_view(*v) == tree_view(*w)),
    decreases v,
{
    match (v, w) {
        (Tree::Null, Tree::Null) => true,
        (Tree::Bool(x0), Tree::Bool(y0)) => *x0 == *y0,
        (Tree::Num(x0), Tree::Num(y0)) => x0.alike(y0),
        (Tree::Str(x0), Tree::Str(y0)) => x0.alike(y0),
        (Tree::List(x0), Tree::List(y0)) => alike_tree_list(x0, y0),
        (Tree::Table(x0), Tree::Table(y0)) => alike_tree_fields(x0, y0),
        (Tree::Other(x0), Tree::Other(y0)) => x0.alike(y0),
        _ => false,
    }
}

impl Plain for Tree {
    fn dup(&self) -> (r: Self) {
        dup_tree(self)
    }

    fn alike(&self, other: &Self) -> (r: bool) {
        alike_tree(self, other)
    }
}

/// The view of the entries of a table.
pub open spec fn tree_fields_view(s: Seq<(String, Tree)>) -> Seq<(Seq<char>, TreeView)>
    decreases s,
{
    Seq::new(
        s.len(),
        |i: int|
            if 0 <= i < s.len() {
                (s[i].0@, tree_view(s[i].1))
            } else {
                arbitrary()
            },
    )
}

fn dup_tree_fields(v: &Vec<(String, Tree)>) -> (r: Vec<(String, Tree)>)
    ensures
        tree_fields_view(r@) == tree_fields_view(v@),
    decreases v,
{
    let mut out: Vec<(String, Tree)> = Vec::new();
    let mut i: usize = 0;
    while i < v.len()
        invariant
            i <= v@.len(),
            tree_fields_view(out@) == tree_fields_view(v@).take(i as int),
        decreases v@.len() - i,
    {
        let ghost prev = out@;
        out.push((v[i].0.dup(), dup_tree(&v[i].1)));
        assert(tree_fields_view(out@) =~= tree_fields_view(prev).push(tree_fields_view(v@)[i as int]));
        i += 1;
    }
    assert(tree_fields_view(v@).take(v@.len() as int) =~= tree_fields_view(v@));
    out
}

fn alike_tree_fields(v: &Vec<(String, Tree)>, w: &Vec<(String, Tree)>) -> (r: bool)
    ensures
        r == (tree_fields_view(v@) == tree_fields_view(w@)),
    decreases v,
{
    if v.len() != w.len() {
        assert(tree_fields_view(v@).len() != tree_fields_view(w@).len());
        return false;
    }
    let mut i: usize = 0;
    while i < v.len()
        invariant
            i <= v@.len(),
            v@.len() == w@.len(),
            forall|j: int| 0 <= j < i ==> tree_fields_view(v@)[j] == #[trigger] tree_fields_view(w@)[j],
        decreases v@.len() - i,
    {
        if !(v[i].0.alike(&w[i].0) && alike_tree(&v[i].1, &w[i].1)) {
            assert(tree_fields_view(v@)[i as int] != tree_fields_view(w@)[i as int]);
            return false;
        }
        i += 1;
    }
    assert(tree_fields_view(v@) =~= tree_fields_view(w@));
    true
}

/// The view of a list of documents.
pub open spec fn tree_list_view(s: Seq<Tree>) -> Seq<TreeView>
    decreases s,
{
    Seq::new(
        s.len(),
        |i: int|
            if 0 <= i < s.len() {
                tree_view(s[i])
            } else {
                arbitrary()
            },
    )
}

/// The view of a list is the list of the views.
pub broadcast proof fn tree_list_view_is_deep(v: Vec<Tree>)
    ensures
        #[trigger] v.deep_view() == tree_list_view(v@),
{
    assert(v.deep_view() =~= tree_list_view(v@));
}

fn dup_tree_list(v: &Vec<Tree>) -> (r: Vec<Tree>)
    ensures
        tree_list_view(r@) == tree_list_view(v@),
    decreases v,
{
    let mut out: Vec<Tree> = Vec::new();
    let mut i: usize = 0;
    while i < v.len()
        invariant
            i <= v@.len(),
            tree_list_view(out@) == tree_list_view(v@).take(i as int),
        decreases v@.len() - i,
    {
        let ghost prev = out@;
        out.push(dup_tree(&v[i]));
        assert(tree_list_view(out@) =~= tree_list_view(prev).push(tree_list_view(v@)[i as int]));
        i += 1;
    }
    assert(tree_list_view(v@).take(v@.len() as int) =~= tree_list_view(v@));
    out
}

fn alike_tree_list(v: &Vec<Tree>, w: &Vec<Tree>) -> (r: bool)
    ensures
        r == (tree_list_view(v@) == tree_list_view(w@)),
    decreases v,
{
    if v.len() != w.len() {
        assert(tree_list_view(v@).len() != tree_list_view(w@).len());
        return false;
    }
    let mut i: usize = 0;
    while i < v.len()
        invariant
            i <= v@.len(),
            v@.len() == w@.len(),
            forall|j: int| 0 <= j < i ==> tree_list_view(v@)[j] == #[trigger] tree_list_view(w@)[j],
        decreases v@.len() - i,
    {
        if !(alike_tree(&v[i], &w[i])) {
            assert(tree_list_view(v@)[i as int] != tree_list_view(w@)[i as int]);
            return false;
        }
        i += 1;
    }
    assert(tree_list_view(v@) =~= tree_list_view(w@));
    true
}

// ---- JSON

/// A parsed JSON document, as `serde_json` holds it.
#[verifier::external_type_specification]
#[verifier::external_body]
pub struct ExJsonValue(serde_json::Value);

/// What a JSON value holds.
pub uninterp spec fn json_contents(v: serde_json::Value) -> TreeView;

/// The document that `serde_json::from_str` reads from a text.
pub uninterp spec fn json_document(text: Seq<char>) -> Option<TreeView>;

/// Reads a JSON text. Calls `serde_json::from_str`, whose result depends on the text only.
#[verifier::external_body]
fn json_value(text: &str) -> (r: Option<serde_json::Value>)
    ensures
        match r {
            Some(v) => json_document(text@) == Some(json_contents(v)),
            None => json_document(text@) is None,
        },
{
    serde_json::from_str::<serde_json::Value>(text).ok()
}

/// Moves the contents of a `serde_json::Value` into a [`Tree`], variant by variant. A number is
/// kept as `Display` shows it and as `serde_json` writes it, both taken as a double; one that
/// `serde_json::Number::as_f64` finds too large is `inf` and `null`.
#[verifier::external_body]
pub(crate) fn json_tree(v: serde_json::Value) -> (r: Tree)
    ensures
        r.deep_view() == json_contents(v),
{
    match v {
        serde_json::Value::Null => Tree::Null,
        serde_json::Value::Bool(b) => Tree::Bool(b),
        serde_json::Value::Number(n) => Tree::Num(Number {
            text: n.as_f64().map_or("inf".to_string(), |x| x.to_string()),
            json: serde_json::Value::from(n.as_f64()).to_string(),
        }),
        serde_json::Value::String(s) => Tree::Str(s),
        serde_json::Value::Array(xs) => Tree::List(xs.into_iter().map(json_tree).collect()),
        serde_json::Value::Object(m) => Tree::Table(m.into_iter().map(|(k, x)| (k, json_tree(x))).collect()),
    }
}

/// Reads a JSON text; `None` where it is not JSON.
pub fn parse_json(text: &str) -> (r: Option<Tree>)
    ensures
        r.deep_view() == json_document(text@),
{
    match json_value(text) {
        Some(v) => Some(json_tree(v)),
        None => None,
    }
}

// ---- TOML

/// A parsed TOML document, as `toml` holds it.
#[verifier::external_type_specification]
#[verifier::external_body]
pub struct ExTomlValue(toml::Value);

/// What a TOML value holds.
pub uninterp spec fn toml_contents(v: toml::Value) -> TreeView;

/// The document that `toml::from_str` reads from a text, or the message of its error.
pub uninterp spec fn toml_document(text: Seq<char>) -> Result<TreeView, Seq<char>>;

/// Reads a TOML text. Calls `toml::from_str`, whose result depends on the text only.
#[verifier::external_body]
fn toml_value(text: &str) -> (r: Result<toml::Value, String>)
    ensures
        match r {
            Ok(v) => toml_document(text@) == Ok::<TreeView, Seq<char>>(toml_contents(v)),
            Err(e) => toml_document(text@) == Err::<TreeView, Seq<char>>(e@),
        },
{
    toml::from_str::<toml::Table>(text).map(toml::Value::Table).map_err(|e| e.to_string())
}

/// Moves the contents of a `toml::Value` into a [`Tree`], variant by variant.
#[verifier::external_body]
fn toml_tree(v: toml::Value) -> (r: Tree)
    ensures
        r.deep_view() == toml_contents(v),
{
    match v {
        toml::Value::Boolean(b) => Tree::Bool(b),
        toml::Value::Integer(n) => Tree::Num(Number { text: n.to_string(), json: n.to_string() }),
        toml::Value::String(s) => Tree::Str(s),
        toml::Value::Array(xs) => Tree::List(xs.into_iter().map(toml_tree).collect()),
        toml::Value::Table(m) => Tree::Table(m.into_iter().map(|(k, x)| (k, toml_tree(x))).collect()),
        toml::Value::Float(x) => Tree::Other(x.to_string()),
        toml::Value::Datetime(d) => Tree::Other(d.to_string()),
    }
}

/// Reads a TOML text.
pub fn parse_toml(text: &str) -> (r: Result<Tree, String>)
    ensures
        match r {
            Ok(t) => toml_document(text@) == Ok::<TreeView, Seq<char>>(t.deep_view()),
            Err(e) => toml_document(text@) == Err::<TreeView, Seq<char>>(e@),
        },
{
    match toml_value(text) {
        Ok(v) => Ok(toml_tree(v)),
        Err(e) => Err(e),
    }
}

// ---- access

/// The value of the first field named `key` from index `i` on.
pub open spec fn field_from(fields: Seq<(Text, TreeView)>, key: Text, i: int) -> Option<TreeView>
    decreases fields.len() - i,
{
    if 0 <= i < fields.len() {
        if fields[i].0 == key {
            Some(fields[i].1)
        } else {
            field_from(fields, key, i + 1)
        }
    } else {
        None
    }
}

/// The field `key` of a table.
pub open spec fn field(t: TreeView, key: Text) -> Option<TreeView> {
    match t {
        TreeView::Table(fields) => field_from(fields, key, 0),
        _ => None,
    }
}

/// The text of a string.
pub open spec fn str_of(t: Option<TreeView>) -> Option<Text> {
    match t {
        Some(TreeView::Str(s)) => Some(s),
        _ => None,
    }
}

/// The items of a list; none for anything else.
pub open spec fn items_of(t: Option<TreeView>) -> Seq<TreeView> {
    match t {
        Some(TreeView::List(xs)) => xs,
        _ => seq![],
    }
}

impl Tree {
    /// The field `key` of a table.
    #[verifier::loop_isolation(false)]
    pub fn get(&self, key: &str) -> (r: Option<&Tree>)
        ensures
            r.deep_view() == field(self.deep_view(), key@),
    {
        match self {
            Tree::Table(fields) => {
                let ghost v = tree_fields_view(fields@);
                let mut i: usize = 0;
                while i < fields.len()
                    invariant
                        i <= fields@.len(),
                        v == tree_fields_view(fields@),
                        field_from(v, key@, 0) == field_from(v, key@, i as int),
                    decreases fields@.len() - i,
                {
                    if text::same(&fields[i].0, key) {
                        return Some(&fields[i].1);
                    }
                    i += 1;
                }
                None
            },
            _ => None,
        }
    }

    /// The text of the string field `key`.
    pub fn get_str(&self, key: &str) -> (r: Option<&str>)
        ensures
            r.deep_view() == str_of(field(self.deep_view(), key@)),
    {
        match self.get(key) {
            Some(Tree::Str(s)) => Some(s.as_str()),
            _ => None,
        }
    }
}

} // verus!
