//! Declared design: layers, dependency rules and field ownership from `merak.toml`.

use crate::catalog::{
    catalog_of, item_list, outcome, read_catalog, read_items, read_text, read_texts, text_field,
    text_list, texts_from, wrong_kind, Catalog, CatalogView,
};
use crate::ir::{Loc, LocView};
use crate::list;
use crate::list::Plain;
use crate::model::{
    EntityView, Model, ModelView, Violation, ViolationView, WriteFact, WriteFactView,
};
use crate::ordered;
use crate::ordered::{lookup, put, sorted, SortedMap};
use crate::text;
use crate::text::Text;
use crate::tree;
use crate::tree::{Tree, TreeView};
use vstd::prelude::*;

verus! {

/// A dependency rule between layers.
#[derive(Debug, PartialEq)]
pub struct Rule {
    pub from: String,
    /// Layers that `from` may not depend on.
    pub deny: Vec<String>,
}

/// The view of [`Rule`].
#[verifier::ext_equal]
pub struct RuleView {
    pub from: Seq<char>,
    pub deny: Seq<Seq<char>>,
}

impl DeepView for Rule {
    type V = RuleView;

    open spec fn deep_view(&self) -> RuleView {
        RuleView { from: self.from@, deny: self.deny.deep_view() }
    }
}

/// The declared design of a project.
#[derive(Debug, PartialEq)]
pub struct Config {
    /// Layer name and the globs of its modules, in the order of the file: a module belongs to the
    /// first layer that covers it.
    pub layers: Vec<(String, Vec<String>)>,
    pub rules: Vec<Rule>,
    /// `Type.field` to the globs of the modules that may write it.
    pub ownership: SortedMap<String, Vec<String>>,
    pub catalog: Option<Catalog>,
}

/// The view of [`Config`].
#[verifier::ext_equal]
pub struct ConfigView {
    pub layers: Seq<(Seq<char>, Seq<Seq<char>>)>,
    pub rules: Seq<RuleView>,
    pub ownership: Seq<(Seq<char>, Seq<Seq<char>>)>,
    pub catalog: Option<CatalogView>,
}

impl DeepView for Config {
    type V = ConfigView;

    open spec fn deep_view(&self) -> ConfigView {
        ConfigView { layers: self.layers.deep_view(), rules: self.rules.deep_view(), ownership: self.ownership.deep_view(), catalog: self.catalog.deep_view() }
    }
}

// ---- reading

/// The lists of texts in the fields from index `i` on, added to `acc`.
pub open spec fn lists_from(
    fields: Seq<(Text, TreeView)>,
    i: int,
    acc: Seq<(Text, Seq<Text>)>,
) -> Result<Seq<(Text, Seq<Text>)>, Text>
    decreases fields.len() - i,
{
    if 0 <= i < fields.len() {
        match fields[i].1 {
            TreeView::List(items) => match texts_from(items, fields[i].0, 0, seq![]) {
                Ok(texts) => lists_from(fields, i + 1, put(acc, fields[i].0, texts)),
                Err(e) => Err(e),
            },
            _ => Err(wrong_kind(fields[i].0)),
        }
    } else {
        Ok(acc)
    }
}

/// The lists of texts in the table field `key`, by their names; none where it is not there.
pub open spec fn lists_of(t: TreeView, key: Text) -> Result<Seq<(Text, Seq<Text>)>, Text> {
    match tree::field(t, key) {
        Some(TreeView::Table(fields)) => lists_from(fields, 0, seq![]),
        Some(_) => Err(wrong_kind(key)),
        None => Ok(seq![]),
    }
}

/// The lists of texts in the fields from index `i` on, after those of `acc`.
pub open spec fn rows_from(
    fields: Seq<(Text, TreeView)>,
    i: int,
    acc: Seq<(Text, Seq<Text>)>,
) -> Result<Seq<(Text, Seq<Text>)>, Text>
    decreases fields.len() - i,
{
    if 0 <= i < fields.len() {
        match fields[i].1 {
            TreeView::List(items) => match texts_from(items, fields[i].0, 0, seq![]) {
                Ok(texts) => rows_from(fields, i + 1, acc.push((fields[i].0, texts))),
                Err(e) => Err(e),
            },
            _ => Err(wrong_kind(fields[i].0)),
        }
    } else {
        Ok(acc)
    }
}

/// The lists of texts in the table field `key`, in the order of the table; none where it is not
/// there.
pub open spec fn rows_of(t: TreeView, key: Text) -> Result<Seq<(Text, Seq<Text>)>, Text> {
    match tree::field(t, key) {
        Some(TreeView::Table(fields)) => rows_from(fields, 0, seq![]),
        Some(_) => Err(wrong_kind(key)),
        None => Ok(seq![]),
    }
}

/// The rule that a table writes.
pub open spec fn rule_of(t: TreeView) -> Result<RuleView, Text> {
    match text_field(t, "from"@) {
        Err(e) => Err(e),
        Ok(from) => match text_list(t, "deny"@) {
            Err(e) => Err(e),
            Ok(deny) => Ok(RuleView { from, deny }),
        },
    }
}

/// The rules that the items from index `i` on write, added to `acc`.
pub open spec fn rules_from(items: Seq<TreeView>, i: int, acc: Seq<RuleView>) -> Result<
    Seq<RuleView>,
    Text,
>
    decreases items.len() - i,
{
    if 0 <= i < items.len() {
        match rule_of(items[i]) {
            Ok(rule) => rules_from(items, i + 1, acc.push(rule)),
            Err(e) => Err(e),
        }
    } else {
        Ok(acc)
    }
}

/// The rules that a document writes.
pub open spec fn rules_of(t: TreeView) -> Result<Seq<RuleView>, Text> {
    match item_list(t, "rules"@) {
        Ok(items) => rules_from(items, 0, seq![]),
        Err(e) => Err(e),
    }
}

/// The catalog that a document adds.
pub open spec fn own_catalog(t: TreeView) -> Result<Option<CatalogView>, Text> {
    match tree::field(t, "catalog"@) {
        Some(TreeView::Table(fields)) => match catalog_of(TreeView::Table(fields)) {
            Ok(c) => Ok(Some(c)),
            Err(e) => Err(e),
        },
        Some(_) => Err(wrong_kind("catalog"@)),
        None => Ok(None),
    }
}

/// The design that a document declares. Unknown fields are left out.
pub open spec fn config_of(t: TreeView) -> Result<ConfigView, Text> {
    match rows_of(t, "layers"@) {
        Err(e) => Err(e),
        Ok(layers) => match rules_of(t) {
            Err(e) => Err(e),
            Ok(rules) => match lists_of(t, "ownership"@) {
                Err(e) => Err(e),
                Ok(ownership) => match own_catalog(t) {
                    Err(e) => Err(e),
                    Ok(catalog) => Ok(ConfigView { layers, rules, ownership, catalog }),
                },
            },
        },
    }
}

/// The design that a text declares, or what is wrong with the text.
pub open spec fn declared(text: Text) -> Result<ConfigView, Text> {
    match tree::toml_document(text) {
        Ok(t) => config_of(t),
        Err(e) => Err(e),
    }
}

/// The design without any declaration.
pub open spec fn nothing_declared() -> ConfigView {
    ConfigView { layers: seq![], rules: seq![], ownership: seq![], catalog: None }
}

#[verifier::loop_isolation(false)]
fn read_list(items: &Vec<Tree>, key: &str) -> (r: Result<Vec<String>, String>)
    ensures
        outcome(r) == texts_from(tree::tree_list_view(items@), key@, 0, seq![]),
{
    let ghost v = tree::tree_list_view(items@);
    let mut out: Vec<String> = list::empty();
    let mut i: usize = 0;
    while i < items.len()
        invariant
            i <= items@.len(),
            texts_from(v, key@, i as int, out.deep_view()) == texts_from(v, key@, 0, seq![]),
        decreases items@.len() - i,
    {
        match &items[i] {
            Tree::Str(s) => {
                list::push(&mut out, s.dup());
            },
            _ => {
                return Err(text::cat3("invalid type for field `", key, "`"));
            },
        }
        i += 1;
    }
    Ok(out)
}

#[verifier::loop_isolation(false)]
fn read_lists(t: &Tree, key: &str) -> (r: Result<SortedMap<String, Vec<String>>, String>)
    ensures
        outcome(r) == lists_of(t.deep_view(), key@),
{
    match t.get(key) {
        Some(Tree::Table(fields)) => {
            let ghost v = tree::tree_fields_view(fields@);
            let mut out: SortedMap<String, Vec<String>> = SortedMap::new();
            let mut i: usize = 0;
            while i < fields.len()
                invariant
                    i <= fields@.len(),
                    lists_from(v, i as int, out.deep_view()) == lists_from(v, 0, seq![]),
                decreases fields@.len() - i,
            {
                assert(v[i as int] == (fields@[i as int].0@, tree::tree_view(
                    fields@[i as int].1,
                )));
                let name = &fields[i].0;
                match &fields[i].1 {
                    Tree::List(items) => {
                        match read_list(items, name) {
                            Ok(texts) => {
                                out.insert(name.dup(), texts);
                            },
                            Err(e) => {
                                return Err(e);
                            },
                        }
                    },
                    _ => {
                        return Err(text::cat3("invalid type for field `", name, "`"));
                    },
                }
                i += 1;
            }
            Ok(out)
        },
        Some(_) => Err(text::cat3("invalid type for field `", key, "`")),
        None => Ok(SortedMap::new()),
    }
}

#[verifier::loop_isolation(false)]
fn read_rows(t: &Tree, key: &str) -> (r: Result<Vec<(String, Vec<String>)>, String>)
    ensures
        outcome(r) == rows_of(t.deep_view(), key@),
{
    match t.get(key) {
        Some(Tree::Table(fields)) => {
            let ghost v = tree::tree_fields_view(fields@);
            let mut out: Vec<(String, Vec<String>)> = list::empty();
            let mut i: usize = 0;
            while i < fields.len()
                invariant
                    i <= fields@.len(),
                    rows_from(v, i as int, out.deep_view()) == rows_from(v, 0, seq![]),
                decreases fields@.len() - i,
            {
                assert(v[i as int] == (fields@[i as int].0@, tree::tree_view(
                    fields@[i as int].1,
                )));
                let name = &fields[i].0;
                match &fields[i].1 {
                    Tree::List(items) => {
                        match read_list(items, name) {
                            Ok(texts) => {
                                list::push(&mut out, (name.dup(), texts));
                            },
                            Err(e) => {
                                return Err(e);
                            },
                        }
                    },
                    _ => {
                        return Err(text::cat3("invalid type for field `", name, "`"));
                    },
                }
                i += 1;
            }
            Ok(out)
        },
        Some(_) => Err(text::cat3("invalid type for field `", key, "`")),
        None => Ok(list::empty()),
    }
}

fn read_rule(t: &Tree) -> (r: Result<Rule, String>)
    ensures
        outcome(r) == rule_of(t.deep_view()),
{
    match read_text(t, "from") {
        Err(e) => Err(e),
        Ok(from) => match read_texts(t, "deny") {
            Err(e) => Err(e),
            Ok(deny) => Ok(Rule { from, deny }),
        },
    }
}

fn read_rules(t: &Tree) -> (r: Result<Vec<Rule>, String>)
    ensures
        outcome(r) == rules_of(t.deep_view()),
{
    let items = match read_items(t, "rules") {
        Ok(items) => items,
        Err(e) => {
            return Err(e);
        },
    };
    let ghost v = items.deep_view();
    let ghost doc = t.deep_view();
    let mut out: Vec<Rule> = list::empty();
    let mut i: usize = 0;
    while i < items.len()
        invariant
            i <= items@.len(),
            v == items.deep_view(),
            doc == t.deep_view(),
            rules_of(doc) == rules_from(v, 0, seq![]),
            rules_from(v, i as int, out.deep_view()) == rules_from(v, 0, seq![]),
        decreases items@.len() - i,
    {
        match read_rule(&items[i]) {
            Ok(rule) => {
                list::push(&mut out, rule);
            },
            Err(e) => {
                return Err(e);
            },
        }
        i += 1;
    }
    Ok(out)
}

fn read_own_catalog(t: &Tree) -> (r: Result<Option<Catalog>, String>)
    ensures
        outcome(r) == own_catalog(t.deep_view()),
{
    match t.get("catalog") {
        Some(c) => match c {
            Tree::Table(_) => match read_catalog(c) {
                Ok(c) => Ok(Some(c)),
                Err(e) => Err(e),
            },
            _ => Err(text::cat3("invalid type for field `", "catalog", "`")),
        },
        None => Ok(None),
    }
}

impl Default for Config {
    /// Nothing declared.
    fn default() -> (r: Self)
        ensures
            r.deep_view() == nothing_declared(),
    {
        Config {
            layers: list::empty(),
            rules: list::empty(),
            ownership: SortedMap::new(),
            catalog: None,
        }
    }
}

impl Config {
    /// Reads the design from the text of `merak.toml`.
    pub fn parse(text: &str) -> (r: Result<Config, String>)
        ensures
            outcome(r) == declared(text@),
    {
        match tree::parse_toml(text) {
            Ok(t) => Config::of_tree(&t),
            Err(e) => Err(e),
        }
    }

    /// Reads the design from a parsed document.
    pub fn of_tree(t: &Tree) -> (r: Result<Config, String>)
        ensures
            outcome(r) == config_of(t.deep_view()),
    {
        let layers = match read_rows(t, "layers") {
            Ok(layers) => layers,
            Err(e) => {
                return Err(e);
            },
        };
        let rules = match read_rules(t) {
            Ok(rules) => rules,
            Err(e) => {
                return Err(e);
            },
        };
        let ownership = match read_lists(t, "ownership") {
            Ok(ownership) => ownership,
            Err(e) => {
                return Err(e);
            },
        };
        match read_own_catalog(t) {
            Ok(catalog) => Ok(Config { layers, rules, ownership, catalog }),
            Err(e) => Err(e),
        }
    }
}

// ---- globs

/// A compiled pattern.
#[verifier::external_type_specification]
#[verifier::external_body]
pub struct ExGlob(globset::Glob);

/// Patterns that are being collected.
#[verifier::external_type_specification]
#[verifier::external_body]
pub struct ExGlobSetBuilder(globset::GlobSetBuilder);

/// Patterns that are matched together.
#[verifier::external_type_specification]
#[verifier::external_body]
pub struct ExGlobSet(globset::GlobSet);

/// `globset::Glob::new` accepts the text as a pattern.
pub uninterp spec fn is_glob(pattern: Seq<char>) -> bool;

/// The text of a compiled pattern.
pub uninterp spec fn glob_text(g: globset::Glob) -> Seq<char>;

/// The patterns that a builder has collected, in order.
pub uninterp spec fn collected(b: globset::GlobSetBuilder) -> Seq<Seq<char>>;

/// The patterns that a set was built from.
pub uninterp spec fn set_globs(s: globset::GlobSet) -> Seq<Seq<char>>;

/// `globset::GlobSetBuilder::build` accepts the patterns.
pub uninterp spec fn builds(patterns: Seq<Seq<char>>) -> bool;

/// One pattern matches a path, as `globset` understands it.
pub uninterp spec fn glob_matches(pattern: Seq<char>, path: Seq<char>) -> bool;

/// Compiles a pattern. Calls `globset::Glob::new`, which keeps the pattern's text and rejects
/// what is no glob.
#[verifier::external_body]
fn glob(pattern: &str) -> (r: Option<globset::Glob>)
    ensures
        r is Some == is_glob(pattern@),
        r is Some ==> glob_text(r->Some_0) == pattern@,
{
    globset::Glob::new(pattern).ok()
}

/// A builder without patterns. Calls `globset::GlobSetBuilder::new`.
#[verifier::external_body]
fn builder() -> (r: globset::GlobSetBuilder)
    ensures
        collected(r) == Seq::<Seq<char>>::empty(),
{
    globset::GlobSetBuilder::new()
}

/// Adds a pattern at the end. Calls `globset::GlobSetBuilder::add`.
#[verifier::external_body]
fn collect(b: &mut globset::GlobSetBuilder, g: globset::Glob)
    ensures
        collected(*final(b)) == collected(*old(b)).push(glob_text(g)),
{
    b.add(g);
}

/// Builds a set of the collected patterns. Calls `globset::GlobSetBuilder::build`, whose
/// result depends on the patterns only.
#[verifier::external_body]
fn build(b: &globset::GlobSetBuilder) -> (r: Option<globset::GlobSet>)
    ensures
        r is Some == builds(collected(*b)),
        r is Some ==> set_globs(r->Some_0) == collected(*b),
{
    b.build().ok()
}

/// Any pattern of the set matches the path. Calls `globset::GlobSet::is_match`.
#[verifier::external_body]
fn is_match(s: &globset::GlobSet, path: &str) -> (r: bool)
    ensures
        r == (exists|i: int|
            0 <= i < set_globs(*s).len() && #[trigger] glob_matches(set_globs(*s)[i], path@)),
{
    s.is_match(path)
}

/// The texts from index `i` on that are patterns.
pub open spec fn valid_globs(patterns: Seq<Text>, i: int) -> Seq<Text>
    decreases patterns.len() - i,
{
    if 0 <= i < patterns.len() {
        let rest = valid_globs(patterns, i + 1);
        if is_glob(patterns[i]) {
            seq![patterns[i]] + rest
        } else {
            rest
        }
    } else {
        seq![]
    }
}

/// One of the valid patterns matches the path. Patterns that cannot be built together match
/// nothing.
pub open spec fn covers(patterns: Seq<Text>, path: Text) -> bool {
    let kept = valid_globs(patterns, 0);
    builds(kept) && exists|i: int| 0 <= i < kept.len() && #[trigger] glob_matches(kept[i], path)
}

/// The set that stands for the patterns.
pub open spec fn stands_for(s: Option<globset::GlobSet>, patterns: Seq<Text>) -> bool {
    let kept = valid_globs(patterns, 0);
    match s {
        Some(s) => builds(kept) && set_globs(s) == kept,
        None => !builds(kept),
    }
}

fn globs(patterns: &Vec<String>) -> (r: Option<globset::GlobSet>)
    ensures
        stands_for(r, patterns.deep_view()),
{
    let ghost v = patterns.deep_view();
    let mut b = builder();
    let mut i: usize = 0;
    while i < patterns.len()
        invariant
            i <= patterns@.len(),
            v == patterns.deep_view(),
            collected(b) + valid_globs(v, i as int) == valid_globs(v, 0),
        decreases patterns@.len() - i,
    {
        if let Some(g) = glob(&patterns[i]) {
            collect(&mut b, g);
        }
        i += 1;
    }
    assert(collected(b) =~= valid_globs(v, 0));
    build(&b)
}

fn matches_any(s: &Option<globset::GlobSet>, Ghost(patterns): Ghost<Seq<Text>>, path: &str) -> (r:
    bool)
    requires
        stands_for(*s, patterns),
    ensures
        r == covers(patterns, path@),
{
    match s {
        Some(s) => is_match(s, path),
        None => false,
    }
}

// ---- the model

/// The first layer from index `i` on, in the order of the file, that covers a module.
pub open spec fn layer_from(layers: Seq<(Text, Seq<Text>)>, module: Text, i: int) -> Option<Text>
    decreases layers.len() - i,
{
    if 0 <= i < layers.len() {
        if covers(layers[i].1, module) {
            Some(layers[i].0)
        } else {
            layer_from(layers, module, i + 1)
        }
    } else {
        None
    }
}

/// The layers of the modules of the entities from index `i` on, added to `acc`.
pub open spec fn layers_from(
    entities: Seq<(Text, EntityView)>,
    layers: Seq<(Text, Seq<Text>)>,
    i: int,
    acc: Seq<(Text, Text)>,
) -> Seq<(Text, Text)>
    decreases entities.len() - i,
{
    if 0 <= i < entities.len() {
        let module = entities[i].1.module;
        layers_from(
            entities,
            layers,
            i + 1,
            match layer_from(layers, module, 0) {
                Some(l) => put(acc, module, l),
                None => acc,
            },
        )
    } else {
        acc
    }
}

/// A rule keeps `from` from depending on `to`.
pub open spec fn denied(rules: Seq<RuleView>, from: Text, to: Text) -> bool {
    exists|i: int|
        0 <= i < rules.len() && (#[trigger] rules[i]).from == from && rules[i].deny.contains(to)
}

/// The dependencies from index `i` on that a rule denies.
pub open spec fn layer_violations(
    deps: Seq<((Text, Text), Seq<LocView>)>,
    layers: Seq<(Text, Text)>,
    rules: Seq<RuleView>,
    i: int,
) -> Seq<ViolationView>
    decreases deps.len() - i,
{
    if 0 <= i < deps.len() {
        let rest = layer_violations(deps, layers, rules, i + 1);
        match (lookup(layers, deps[i].0.0), lookup(layers, deps[i].0.1)) {
            (Some(lf), Some(lt)) => if denied(rules, lf, lt) {
                seq![
                    ViolationView {
                        kind: "layer"@,
                        subject: lf + " → "@ + lt,
                        detail: deps[i].0.0 + " → "@ + deps[i].0.1,
                        evidence: deps[i].1,
                    },
                ] + rest
            } else {
                rest
            },
            _ => rest,
        }
    } else {
        seq![]
    }
}

/// The places of the writes of `field` from index `i` on.
pub open spec fn writes_of(writes: Seq<WriteFactView>, field: Text, i: int) -> Seq<LocView>
    decreases writes.len() - i,
{
    if 0 <= i < writes.len() {
        let rest = writes_of(writes, field, i + 1);
        if writes[i].field == field {
            seq![writes[i].loc] + rest
        } else {
            rest
        }
    } else {
        seq![]
    }
}

/// The entities from index `i` on that write a field which others own.
pub open spec fn foreign_writes(
    entities: Seq<(Text, EntityView)>,
    field: Text,
    owners: Seq<Text>,
    i: int,
) -> Seq<ViolationView>
    decreases entities.len() - i,
{
    if 0 <= i < entities.len() {
        let rest = foreign_writes(entities, field, owners, i + 1);
        let e = entities[i].1;
        let places = writes_of(e.writes, field, 0);
        if !covers(owners, e.module) && places.len() > 0 {
            seq![
                ViolationView { kind: "ownership"@, subject: field, detail: e.id, evidence: places },
            ] + rest
        } else {
            rest
        }
    } else {
        seq![]
    }
}

/// The writes of owned fields from index `i` on by entities of other modules.
pub open spec fn ownership_violations(
    entities: Seq<(Text, EntityView)>,
    ownership: Seq<(Text, Seq<Text>)>,
    i: int,
) -> Seq<ViolationView>
    decreases ownership.len() - i,
{
    if 0 <= i < ownership.len() {
        foreign_writes(entities, ownership[i].0, ownership[i].1, 0) + ownership_violations(
            entities,
            ownership,
            i + 1,
        )
    } else {
        seq![]
    }
}

/// A model held against its declared design.
pub open spec fn applied(m: ModelView, config: ConfigView) -> ModelView {
    let module_layers = layers_from(m.entities, config.layers, 0, m.module_layers);
    ModelView {
        module_layers,
        violations: sorted(
            layer_violations(m.module_deps, module_layers, config.rules, 0)
                + ownership_violations(m.entities, config.ownership, 0),
        ),
        ..m
    }
}

fn layer_of(
    layers: &Vec<(String, Vec<String>)>,
    sets: &Vec<Option<globset::GlobSet>>,
    module: &str,
) -> (r: Option<String>)
    requires
        sets@.len() == layers.deep_view().len(),
        forall|k: int|
            0 <= k < sets@.len() ==> stands_for(
                #[trigger] sets@[k],
                layers.deep_view()[k].1,
            ),
    ensures
        r.deep_view() == layer_from(layers.deep_view(), module@, 0),
{
    let ghost lv = layers.deep_view();
    let mut i: usize = 0;
    while i < sets.len()
        invariant
            i <= sets@.len(),
            lv == layers.deep_view(),
            sets@.len() == lv.len(),
            forall|k: int| 0 <= k < sets@.len() ==> stands_for(#[trigger] sets@[k], lv[k].1),
            layer_from(lv, module@, 0) == layer_from(lv, module@, i as int),
        decreases sets@.len() - i,
    {
        if matches_any(&sets[i], Ghost(lv[i as int].1), module) {
            assert(lv[i as int] == layers@[i as int].deep_view());
            return Some(layers[i].0.dup());
        }
        i += 1;
    }
    None
}

fn set_layers(model: &mut Model, layers: &Vec<(String, Vec<String>)>)
    ensures
        final(model).deep_view() == (ModelView {
            module_layers: layers_from(
                old(model).deep_view().entities,
                layers.deep_view(),
                0,
                old(model).deep_view().module_layers,
            ),
            ..old(model).deep_view()
        }),
{
    let ghost m = model.deep_view();
    let ghost lv = layers.deep_view();
    let mut sets: Vec<Option<globset::GlobSet>> = Vec::new();
    let mut i: usize = 0;
    while i < layers.len()
        invariant
            i <= lv.len(),
            lv == layers.deep_view(),
            sets@.len() == i,
            forall|k: int| 0 <= k < i ==> stands_for(#[trigger] sets@[k], lv[k].1),
        decreases lv.len() - i,
    {
        assert(lv[i as int] == layers@[i as int].deep_view());
        sets.push(globs(&layers[i].1));
        i += 1;
    }
    i = 0;
    while i < model.entities.len()
        invariant
            i <= m.entities.len(),
            lv == layers.deep_view(),
            sets@.len() == lv.len(),
            forall|k: int| 0 <= k < sets@.len() ==> stands_for(#[trigger] sets@[k], lv[k].1),
            model.deep_view() == (ModelView {
                module_layers: model.deep_view().module_layers,
                ..m
            }),
            layers_from(m.entities, lv, i as int, model.deep_view().module_layers) == layers_from(
                m.entities,
                lv,
                0,
                m.module_layers,
            ),
        decreases m.entities.len() - i,
    {
        let module = model.entities.value(i).module.dup();
        if let Some(l) = layer_of(layers, &sets, &module) {
            model.module_layers.insert(module, l);
        }
        i += 1;
    }
}

fn is_denied(rules: &Vec<Rule>, from: &String, to: &String) -> (r: bool)
    ensures
        r == denied(rules.deep_view(), from@, to@),
{
    let ghost v = rules.deep_view();
    let mut i: usize = 0;
    while i < rules.len()
        invariant
            i <= rules@.len(),
            v == rules.deep_view(),
            forall|k: int|
                0 <= k < i ==> !((#[trigger] v[k]).from == from@ && v[k].deny.contains(to@)),
        decreases rules@.len() - i,
    {
        assert(v[i as int] == rules@[i as int].deep_view());
        if rules[i].from.alike(from) && list::has(&rules[i].deny, to) {
            return true;
        }
        i += 1;
    }
    false
}

fn denied_dependencies(model: &Model, rules: &Vec<Rule>) -> (r: Vec<Violation>)
    ensures
        r.deep_view() == layer_violations(
            model.deep_view().module_deps,
            model.deep_view().module_layers,
            rules.deep_view(),
            0,
        ),
{
    let ghost dv = model.deep_view().module_deps;
    let ghost lv = model.deep_view().module_layers;
    let ghost rv = rules.deep_view();
    let mut out: Vec<Violation> = list::empty();
    let mut i: usize = 0;
    while i < model.module_deps.len()
        invariant
            i <= dv.len(),
            dv == model.deep_view().module_deps,
            lv == model.deep_view().module_layers,
            rv == rules.deep_view(),
            out.deep_view() + layer_violations(dv, lv, rv, i as int) == layer_violations(
                dv,
                lv,
                rv,
                0,
            ),
        decreases dv.len() - i,
    {
        let k = model.module_deps.key(i);
        assert(dv[i as int].0 == (k.0@, k.1@));
        if let Some(lf) = model.module_layers.get(&k.0) {
            if let Some(lt) = model.module_layers.get(&k.1) {
                if is_denied(rules, lf, lt) {
                    list::push(
                        &mut out,
                        Violation {
                            kind: "layer".to_owned(),
                            subject: text::cat3(lf, " → ", lt),
                            detail: text::cat3(&k.0, " → ", &k.1),
                            evidence: model.module_deps.value(i).dup(),
                        },
                    );
                }
            }
        }
        i += 1;
    }
    out
}

fn places_of(writes: &Vec<WriteFact>, field: &String) -> (r: Vec<Loc>)
    ensures
        r.deep_view() == writes_of(writes.deep_view(), field@, 0),
{
    let ghost v = writes.deep_view();
    let mut out: Vec<Loc> = list::empty();
    let mut i: usize = 0;
    while i < writes.len()
        invariant
            i <= writes@.len(),
            v == writes.deep_view(),
            out.deep_view() + writes_of(v, field@, i as int) == writes_of(v, field@, 0),
        decreases writes@.len() - i,
    {
        assert(v[i as int] == writes@[i as int].deep_view());
        if writes[i].field.alike(field) {
            list::push(&mut out, writes[i].loc.dup());
        }
        i += 1;
    }
    out
}

fn foreign(model: &Model, field: &String, owners: &Vec<String>) -> (r: Vec<Violation>)
    ensures
        r.deep_view() == foreign_writes(
            model.deep_view().entities,
            field@,
            owners.deep_view(),
            0,
        ),
{
    let ghost ev = model.deep_view().entities;
    let ghost ov = owners.deep_view();
    let set = globs(owners);
    let mut out: Vec<Violation> = list::empty();
    let mut i: usize = 0;
    while i < model.entities.len()
        invariant
            i <= ev.len(),
            ev == model.deep_view().entities,
            ov == owners.deep_view(),
            stands_for(set, ov),
            out.deep_view() + foreign_writes(ev, field@, ov, i as int) == foreign_writes(
                ev,
                field@,
                ov,
                0,
            ),
        decreases ev.len() - i,
    {
        let e = model.entities.value(i);
        let places = places_of(&e.writes, field);
        if !matches_any(&set, Ghost(ov), &e.module) && places.len() > 0 {
            list::push(
                &mut out,
                Violation {
                    kind: "ownership".to_owned(),
                    subject: field.dup(),
                    detail: e.id.dup(),
                    evidence: places,
                },
            );
        }
        i += 1;
    }
    out
}

/// Places the modules of a model in layers, and lists where the model breaks its design.
pub fn apply(model: &mut Model, config: &Config)
    ensures
        final(model).deep_view() == applied(old(model).deep_view(), config.deep_view()),
{
    let ghost cv = config.deep_view();
    set_layers(model, &config.layers);
    let ghost m = model.deep_view();
    let mut out = denied_dependencies(model, &config.rules);
    let ghost first = out.deep_view();
    let mut i: usize = 0;
    while i < config.ownership.len()
        invariant
            i <= cv.ownership.len(),
            m == model.deep_view(),
            cv == config.deep_view(),
            out.deep_view() + ownership_violations(m.entities, cv.ownership, i as int) == first
                + ownership_violations(m.entities, cv.ownership, 0),
        decreases cv.ownership.len() - i,
    {
        let found = foreign(model, config.ownership.key(i), config.ownership.value(i));
        list::append(&mut out, found);
        i += 1;
    }
    model.violations = ordered::sort(out);
}

} // verus!
