//! Effect catalog: maps canonical external API names to behavioural effects,
//! event subscriptions and HTTP entry points.

use crate::list;
use crate::list::Plain;
use crate::text;
use crate::text::Text;
use crate::tree;
use crate::tree::{Tree, TreeView};
use vstd::prelude::*;

verus! {

/// The built-in rules, in TOML.
///
/// A rule's `api` is a pattern over the canonical name's segments: `*` matches one segment,
/// `**` any number of them, `{a,b}` either. A value spec is `seg:n` (a segment of the name),
/// `arg:n` (a constant argument), `host:n` (the host of a URL argument), `opt:n.key` (a
/// property of an object argument) or `lit:text`, then `|default`, then `:upper`.
pub const DEFAULT: &'static str = r#"
# ---- databases
[[effect]]
api = "@prisma/client.PrismaClient#.*.{create,createMany,createManyAndReturn,update,updateMany,upsert,delete,deleteMany}()"
kind = "db_write"
target = "seg:-2"
[[effect]]
api = "@prisma/client.PrismaClient#.*.{findUnique,findUniqueOrThrow,findFirst,findFirstOrThrow,findMany,count,aggregate,groupBy}()"
kind = "db_read"
target = "seg:-2"
[[effect]]
api = "@prisma/client.PrismaClient#.{$queryRaw,$executeRaw,$queryRawUnsafe,$executeRawUnsafe}()"
kind = "db_query"
target = "lit:raw"
[[effect]]
api = "typeorm.**.{save,insert,update,upsert,remove,softRemove,delete,softDelete,restore}()"
kind = "db_write"
target = "seg:1"
[[effect]]
api = "typeorm.**.{find,findBy,findOne,findOneBy,findOneOrFail,findOneByOrFail,findAndCount,count,exists}()"
kind = "db_read"
target = "seg:1"
[[effect]]
api = "kysely.**.selectFrom()"
kind = "db_read"
target = "arg:0"
[[effect]]
api = "kysely.**.{insertInto,replaceInto,updateTable,deleteFrom,mergeInto}()"
kind = "db_write"
target = "arg:0"

# ---- network
[[effect]]
api = "fetch()"
kind = "http"
target = "host:0"
method = "opt:1.method|GET:upper"
[[effect]]
api = "axios.**.{get,post,put,patch,delete,head,options}()"
kind = "http"
target = "host:0"
method = "seg:-1:upper"

# ---- events, files, caches, queues
[[effect]]
api = "{events,node:events}.EventEmitter#.emit()"
kind = "event_emit"
target = "arg:0"
[[effect]]
api = "@nestjs/event-emitter.EventEmitter2#.{emit,emitAsync}()"
kind = "event_emit"
target = "arg:0"
[[effect]]
api = "{fs,node:fs,fs/promises,node:fs/promises}.**.{readFile,readFileSync,readdir,readdirSync,createReadStream,stat,statSync}()"
kind = "fs_read"
target = "arg:0"
[[effect]]
api = "{fs,node:fs,fs/promises,node:fs/promises}.**.{writeFile,writeFileSync,appendFile,appendFileSync,mkdir,mkdirSync,rm,rmSync,unlink,unlinkSync,rename,renameSync,copyFile,createWriteStream}()"
kind = "fs_write"
target = "arg:0"
[[effect]]
api = "{redis,ioredis}.**.{get,mget,hget,hgetall,exists}()"
kind = "cache"
target = "arg:0"
[[effect]]
api = "{redis,ioredis}.**.{set,setex,mset,hset,del,expire,incr,decr}()"
kind = "cache_write"
target = "arg:0"
[[effect]]
api = "{bullmq,bull}.Queue#.{add,addBulk}()"
kind = "queue"
target = "arg:0"

[[subscribe]]
api = "{events,node:events}.EventEmitter#.{on,once,addListener}()"
event = "arg:0"
handler_arg = 1
[[subscribe]]
api = "@nestjs/event-emitter.OnEvent()"
event = "arg:0"

# ---- entry points
[[route]]
api = "express.Router().{get,post,put,patch,delete,head,options,all}()"
method = "seg:-1:upper"
path = "arg:0"
handler_arg = -1
[[route]]
api = "express().{get,post,put,patch,delete,head,options,all}()"
method = "seg:-1:upper"
path = "arg:0"
handler_arg = -1
[[route]]
api = "@nestjs/common.{Get,Post,Put,Patch,Delete,Head,Options,All}()"
method = "seg:-1:upper"
path = "arg:0|"
prefix = "@nestjs/common.Controller()"

# ---- query builders
[[filter]]
api = "kysely.**.{where,whereRef,having,havingRef,on,onRef}()"
[[filter]]
api = "kysely.ExpressionBuilder#()"
[[filter]]
api = "kysely.ExpressionBuilder#.{and,or,not,exists,between}()"

[[callback]]
api = "kysely.**.$if()"
arg = 1
param = "receiver"
[[callback]]
api = "kysely.**.{$call,with,withRecursive}()"
param = "receiver"
[[callback]]
api = "kysely.**.{innerJoin,leftJoin,rightJoin,fullJoin,innerJoinLateral,leftJoinLateral}()"
param = "kysely.JoinBuilder#"
[[callback]]
api = "kysely.**.transaction().execute()"
param = "kysely.Kysely#"
[[callback]]
api = "kysely.**.{where,having,on,select,set,and,or,not,exists}()"
param = "kysely.ExpressionBuilder#"

[[literal]]
api = "kysely.sql.{lit,val}()"
[[literal]]
api = "kysely.ExpressionBuilder#.{lit,val}()"

# ---- logging
[[log]]
api = "console.*()"
[[log]]
api = "@nestjs/common.Logger#.*()"
[[log]]
api = "@nestjs/common.Logger.*()"
[[log]]
api = "**.*Logger#.*()"
[[log]]
api = "**.*Logger.*()"
[[log]]
api = "**.*LoggingRepository.*()"

[access]
keys = ["permission", "permissions", "role", "roles", "scope", "scopes", "admin", "public"]
grants = ["public"]

[schema]
roots = ["zod"]
docs = ["describe", "meta", "openapi", "register"]
"#;

/// An `api` pattern with its `{a,b}` groups expanded and split into segments.
#[derive(Debug, PartialEq, Eq)]
pub struct ApiPattern {
    pub alternatives: Vec<Vec<String>>,
}

/// The view of [`ApiPattern`].
#[verifier::ext_equal]
pub struct ApiPatternView {
    pub alternatives: Seq<Seq<Seq<char>>>,
}

impl DeepView for ApiPattern {
    type V = ApiPatternView;

    open spec fn deep_view(&self) -> ApiPatternView {
        ApiPatternView { alternatives: self.alternatives.deep_view() }
    }
}

impl Plain for ApiPattern {
    fn dup(&self) -> (r: Self) {
        ApiPattern { alternatives: self.alternatives.dup() }
    }

    fn alike(&self, other: &Self) -> (r: bool) {
        self.alternatives.alike(&other.alternatives)
    }
}

/// Validation-schema libraries and their documentation-only methods.
#[derive(Debug, PartialEq, Eq)]
pub struct SchemaKeys {
    /// Canonical names of schema roots (`zod` for `import { z } from 'zod'`).
    pub roots: Vec<String>,
    /// Methods that document a schema without changing what it accepts.
    pub docs: Vec<String>,
}

/// The view of [`SchemaKeys`].
#[verifier::ext_equal]
pub struct SchemaKeysView {
    pub roots: Seq<Seq<char>>,
    pub docs: Seq<Seq<char>>,
}

impl DeepView for SchemaKeys {
    type V = SchemaKeysView;

    open spec fn deep_view(&self) -> SchemaKeysView {
        SchemaKeysView { roots: self.roots.deep_view(), docs: self.docs.deep_view() }
    }
}

impl Plain for SchemaKeys {
    fn dup(&self) -> (r: Self) {
        SchemaKeys { roots: self.roots.dup(), docs: self.docs.dup() }
    }

    fn alike(&self, other: &Self) -> (r: bool) {
        self.roots.alike(&other.roots) && self.docs.alike(&other.docs)
    }
}

/// Object-argument keys that state access requirements.
#[derive(Debug, PartialEq, Eq)]
pub struct AccessKeys {
    pub keys: Vec<String>,
    /// Keys whose value grants access (`public: true`) rather than requiring it.
    pub grants: Vec<String>,
}

/// The view of [`AccessKeys`].
#[verifier::ext_equal]
pub struct AccessKeysView {
    pub keys: Seq<Seq<char>>,
    pub grants: Seq<Seq<char>>,
}

impl DeepView for AccessKeys {
    type V = AccessKeysView;

    open spec fn deep_view(&self) -> AccessKeysView {
        AccessKeysView { keys: self.keys.deep_view(), grants: self.grants.deep_view() }
    }
}

impl Plain for AccessKeys {
    fn dup(&self) -> (r: Self) {
        AccessKeys { keys: self.keys.dup(), grants: self.grants.dup() }
    }

    fn alike(&self, other: &Self) -> (r: bool) {
        self.keys.alike(&other.keys) && self.grants.alike(&other.grants)
    }
}

/// What calling an API does to the outside world.
#[derive(Debug, PartialEq, Eq)]
pub struct EffectRule {
    pub api: String,
    pub pattern: ApiPattern,
    pub kind: String,
    pub target: String,
    pub method: Option<String>,
}

/// The view of [`EffectRule`].
#[verifier::ext_equal]
pub struct EffectRuleView {
    pub api: Seq<char>,
    pub pattern: ApiPatternView,
    pub kind: Seq<char>,
    pub target: Seq<char>,
    pub method: Option<Seq<char>>,
}

impl DeepView for EffectRule {
    type V = EffectRuleView;

    open spec fn deep_view(&self) -> EffectRuleView {
        EffectRuleView { api: self.api@, pattern: self.pattern.deep_view(), kind: self.kind@, target: self.target@, method: self.method.deep_view() }
    }
}

impl Plain for EffectRule {
    fn dup(&self) -> (r: Self) {
        EffectRule { api: self.api.dup(), pattern: self.pattern.dup(), kind: self.kind.dup(), target: self.target.dup(), method: self.method.dup() }
    }

    fn alike(&self, other: &Self) -> (r: bool) {
        self.api.alike(&other.api) && self.pattern.alike(&other.pattern) && self.kind.alike(&other.kind) && self.target.alike(&other.target) && self.method.alike(&other.method)
    }
}

/// An API that registers a handler of an event.
#[derive(Debug, PartialEq, Eq)]
pub struct SubscribeRule {
    pub api: String,
    pub pattern: ApiPattern,
    pub event: String,
    /// Argument holding the handler; none for decorators (the decorated method is the handler).
    pub handler_arg: Option<i32>,
}

/// The view of [`SubscribeRule`].
#[verifier::ext_equal]
pub struct SubscribeRuleView {
    pub api: Seq<char>,
    pub pattern: ApiPatternView,
    pub event: Seq<char>,
    pub handler_arg: Option<i32>,
}

impl DeepView for SubscribeRule {
    type V = SubscribeRuleView;

    open spec fn deep_view(&self) -> SubscribeRuleView {
        SubscribeRuleView { api: self.api@, pattern: self.pattern.deep_view(), event: self.event@, handler_arg: self.handler_arg.deep_view() }
    }
}

impl Plain for SubscribeRule {
    fn dup(&self) -> (r: Self) {
        SubscribeRule { api: self.api.dup(), pattern: self.pattern.dup(), event: self.event.dup(), handler_arg: self.handler_arg.dup() }
    }

    fn alike(&self, other: &Self) -> (r: bool) {
        self.api.alike(&other.api) && self.pattern.alike(&other.pattern) && self.event.alike(&other.event) && self.handler_arg.alike(&other.handler_arg)
    }
}

/// An API that registers a handler of an HTTP route.
#[derive(Debug, PartialEq, Eq)]
pub struct RouteRule {
    pub api: String,
    pub pattern: ApiPattern,
    pub method: String,
    pub path: String,
    /// Argument holding the handler; none for decorators (the decorated method is the handler).
    pub handler_arg: Option<i32>,
    /// For decorator routes: the class decorator whose argument 0 prefixes `path`.
    pub prefix: Option<String>,
}

/// The view of [`RouteRule`].
#[verifier::ext_equal]
pub struct RouteRuleView {
    pub api: Seq<char>,
    pub pattern: ApiPatternView,
    pub method: Seq<char>,
    pub path: Seq<char>,
    pub handler_arg: Option<i32>,
    pub prefix: Option<Seq<char>>,
}

impl DeepView for RouteRule {
    type V = RouteRuleView;

    open spec fn deep_view(&self) -> RouteRuleView {
        RouteRuleView { api: self.api@, pattern: self.pattern.deep_view(), method: self.method@, path: self.path@, handler_arg: self.handler_arg.deep_view(), prefix: self.prefix.deep_view() }
    }
}

impl Plain for RouteRule {
    fn dup(&self) -> (r: Self) {
        RouteRule { api: self.api.dup(), pattern: self.pattern.dup(), method: self.method.dup(), path: self.path.dup(), handler_arg: self.handler_arg.dup(), prefix: self.prefix.dup() }
    }

    fn alike(&self, other: &Self) -> (r: bool) {
        self.api.alike(&other.api) && self.pattern.alike(&other.pattern) && self.method.alike(&other.method) && self.path.alike(&other.path) && self.handler_arg.alike(&other.handler_arg) && self.prefix.alike(&other.prefix)
    }
}

/// A call matched by its API name only: a query filter method (`where`, join `on`, …),
/// a literal wrapper (`sql.lit(…)`) or a log call.
#[derive(Debug, PartialEq, Eq)]
pub struct FilterRule {
    pub api: String,
    pub pattern: ApiPattern,
}

/// The view of [`FilterRule`].
#[verifier::ext_equal]
pub struct FilterRuleView {
    pub api: Seq<char>,
    pub pattern: ApiPatternView,
}

impl DeepView for FilterRule {
    type V = FilterRuleView;

    open spec fn deep_view(&self) -> FilterRuleView {
        FilterRuleView { api: self.api@, pattern: self.pattern.deep_view() }
    }
}

impl Plain for FilterRule {
    fn dup(&self) -> (r: Self) {
        FilterRule { api: self.api.dup(), pattern: self.pattern.dup() }
    }

    fn alike(&self, other: &Self) -> (r: bool) {
        self.api.alike(&other.api) && self.pattern.alike(&other.pattern)
    }
}

/// The type of an untyped callback parameter passed to an external method, e.g.
/// the `qb` in `query.$if(cond, (qb) => qb.where(…))`.
#[derive(Debug, PartialEq, Eq)]
pub struct CallbackRule {
    pub api: String,
    pub pattern: ApiPattern,
    /// Only closures passed as this argument; any argument when there is none.
    pub arg: Option<usize>,
    /// Canonical type of the first parameter, or `receiver`: the object the method is called on.
    pub param: String,
}

/// The view of [`CallbackRule`].
#[verifier::ext_equal]
pub struct CallbackRuleView {
    pub api: Seq<char>,
    pub pattern: ApiPatternView,
    pub arg: Option<usize>,
    pub param: Seq<char>,
}

impl DeepView for CallbackRule {
    type V = CallbackRuleView;

    open spec fn deep_view(&self) -> CallbackRuleView {
        CallbackRuleView { api: self.api@, pattern: self.pattern.deep_view(), arg: self.arg.deep_view(), param: self.param@ }
    }
}

impl Plain for CallbackRule {
    fn dup(&self) -> (r: Self) {
        CallbackRule { api: self.api.dup(), pattern: self.pattern.dup(), arg: self.arg.dup(), param: self.param.dup() }
    }

    fn alike(&self, other: &Self) -> (r: bool) {
        self.api.alike(&other.api) && self.pattern.alike(&other.pattern) && self.arg.alike(&other.arg) && self.param.alike(&other.param)
    }
}

/// What external APIs mean.
#[derive(Debug, PartialEq, Eq)]
pub struct Catalog {
    pub effect: Vec<EffectRule>,
    pub subscribe: Vec<SubscribeRule>,
    pub route: Vec<RouteRule>,
    pub filter: Vec<FilterRule>,
    pub callback: Vec<CallbackRule>,
    pub literal: Vec<FilterRule>,
    pub log: Vec<FilterRule>,
    pub access: AccessKeys,
    pub schema: SchemaKeys,
}

/// The view of [`Catalog`].
#[verifier::ext_equal]
pub struct CatalogView {
    pub effect: Seq<EffectRuleView>,
    pub subscribe: Seq<SubscribeRuleView>,
    pub route: Seq<RouteRuleView>,
    pub filter: Seq<FilterRuleView>,
    pub callback: Seq<CallbackRuleView>,
    pub literal: Seq<FilterRuleView>,
    pub log: Seq<FilterRuleView>,
    pub access: AccessKeysView,
    pub schema: SchemaKeysView,
}

impl DeepView for Catalog {
    type V = CatalogView;

    open spec fn deep_view(&self) -> CatalogView {
        CatalogView { effect: self.effect.deep_view(), subscribe: self.subscribe.deep_view(), route: self.route.deep_view(), filter: self.filter.deep_view(), callback: self.callback.deep_view(), literal: self.literal.deep_view(), log: self.log.deep_view(), access: self.access.deep_view(), schema: self.schema.deep_view() }
    }
}

impl Plain for Catalog {
    fn dup(&self) -> (r: Self) {
        Catalog { effect: self.effect.dup(), subscribe: self.subscribe.dup(), route: self.route.dup(), filter: self.filter.dup(), callback: self.callback.dup(), literal: self.literal.dup(), log: self.log.dup(), access: self.access.dup(), schema: self.schema.dup() }
    }

    fn alike(&self, other: &Self) -> (r: bool) {
        self.effect.alike(&other.effect) && self.subscribe.alike(&other.subscribe) && self.route.alike(&other.route) && self.filter.alike(&other.filter) && self.callback.alike(&other.callback) && self.literal.alike(&other.literal) && self.log.alike(&other.log) && self.access.alike(&other.access) && self.schema.alike(&other.schema)
    }
}

// ---- API patterns

/// The segments of a canonical name.
pub open spec fn segments_of(api: Text) -> Seq<Text> {
    text::pieces(api, "."@)
}

/// Splits a canonical name into its segments. Dots inside `(...)` never occur in canonical
/// names, so a plain split is enough.
pub fn split_segments(api: &str) -> (r: Vec<String>)
    ensures
        r.deep_view() == segments_of(api@),
{
    text::split(api, ".")
}

/// All alternatives of a pattern with `{a,b}` groups.
pub open spec fn expanded(pattern: Text) -> Seq<Text>
    decreases pattern.len(), 1int, 0int,
{
    match text::first_from(pattern, "{"@, 0) {
        Some(start) => match text::first_from(pattern, "}"@, start) {
            Some(end) => expanded_alternatives(
                pattern.take(start),
                text::pieces(pattern.subrange(start + 1, end), ","@),
                pattern.skip(end + 1),
                0,
                pattern.len(),
            ),
            None => seq![pattern],
        },
        None => seq![pattern],
    }
}

/// The alternatives of `head`, each of `alts` from index `i` on, and `tail`. Every one of
/// these is shorter than the pattern of length `n` that they come from.
pub open spec fn expanded_alternatives(
    head: Text,
    alts: Seq<Text>,
    tail: Text,
    i: int,
    n: nat,
) -> Seq<Text>
    decreases n, 0int, alts.len() - i,
{
    if 0 <= i < alts.len() {
        let whole = head + alts[i] + tail;
        (if whole.len() < n {
            expanded(whole)
        } else {
            seq![]
        }) + expanded_alternatives(head, alts, tail, i + 1, n)
    } else {
        seq![]
    }
}

/// Expands `{a,b}` groups (possibly several) into all alternatives.
pub fn expand_braces(pattern: &str) -> (r: Vec<String>)
    ensures
        r.deep_view() == expanded(pattern@),
    decreases pattern@.len(),
{
    let v = text::chars_of(pattern);
    let n: usize = v.len();
    proof {
        reveal_strlit("{");
        reveal_strlit("}");
        text::first_from_is_place(pattern@, "{"@, 0);
    }
    let start = match text::find_str(&v, "{", 0) {
        Some(i) => i,
        None => {
            return list::one(pattern.to_owned());
        },
    };
    proof {
        text::first_from_is_place(pattern@, "}"@, start as int);
    }
    let end = match text::find_str(&v, "}", start) {
        Some(i) => i,
        None => {
            return list::one(pattern.to_owned());
        },
    };
    proof {
        assert(v@.subrange(start as int, start + 1)[0] == '{');
        assert(v@.subrange(end as int, end + 1)[0] == '}');
    }
    let head = text::text_of(&v, 0, start);
    let inner = text::text_of(&v, start + 1, end);
    let tail = text::text_of(&v, end + 1, n);
    let alts = text::split(&inner, ",");
    let ghost av = alts.deep_view();
    let mut out: Vec<String> = list::empty();
    let mut i: usize = 0;
    while i < alts.len()
        invariant
            i <= alts@.len(),
            av == alts.deep_view(),
            av == text::pieces(inner@, ","@),
            head@.len() + inner@.len() + tail@.len() + 2 <= pattern@.len(),
            out.deep_view() + expanded_alternatives(head@, av, tail@, i as int, pattern@.len())
                == expanded_alternatives(head@, av, tail@, 0, pattern@.len()),
        decreases alts@.len() - i,
    {
        proof {
            text::piece_is_no_longer(inner@, ","@, 0, i as int);
        }
        let whole = text::cat3(&head, &alts[i], &tail);
        list::append(&mut out, expand_braces(&whole));
        i += 1;
    }
    out
}

/// One segment against one segment of a pattern: `*` matches any segment, `*#` and `*()`
/// keep their suffix.
pub open spec fn segment_fits(p: Text, s: Text) -> bool {
    p == s || match text::after_prefix(p, "*"@) {
        Some(suffix) => text::ends(s, suffix) && s.len() > suffix.len(),
        None => false,
    }
}

/// The segments from `j` on against the pattern's from `i` on; `**` matches any number of
/// segments (including none).
pub open spec fn segments_fit(ps: Seq<Text>, i: int, segs: Seq<Text>, j: int) -> bool
    decreases ps.len() - i, segs.len() - j,
{
    if i < 0 || i >= ps.len() {
        j >= segs.len()
    } else if ps[i] == "**"@ {
        segments_fit(ps, i + 1, segs, j) || (j < segs.len() && segments_fit(ps, i, segs, j + 1))
    } else {
        j < segs.len() && segment_fits(ps[i], segs[j]) && segments_fit(ps, i + 1, segs, j + 1)
    }
}

/// `**` in a pattern stands for any number of segments: the rest of the pattern fits the
/// segments from some index on.
pub proof fn double_star_is_any_number(ps: Seq<Text>, i: int, segs: Seq<Text>, j: int)
    requires
        0 <= i < ps.len(),
        ps[i] == "**"@,
        0 <= j <= segs.len(),
    ensures
        segments_fit(ps, i, segs, j) <==> exists|k: int|
            j <= k <= segs.len() && #[trigger] segments_fit(ps, i + 1, segs, k),
    decreases segs.len() - j,
{
    let here = segments_fit(ps, i + 1, segs, j);
    if j < segs.len() {
        double_star_is_any_number(ps, i, segs, j + 1);
        if segments_fit(ps, i, segs, j + 1) {
            let k = choose|k: int|
                j + 1 <= k <= segs.len() && #[trigger] segments_fit(ps, i + 1, segs, k);
            assert(segments_fit(ps, i + 1, segs, k));
        }
        assert(segments_fit(ps, i, segs, j) == (here || segments_fit(ps, i, segs, j + 1)));
    } else {
        assert(segments_fit(ps, i, segs, j) == here);
    }
}

/// The pattern that `api` writes.
pub open spec fn pattern_of(api: Text) -> ApiPatternView {
    ApiPatternView { alternatives: segmented(expanded(api), 0) }
}

/// The segments of the alternatives from index `i` on.
pub open spec fn segmented(alts: Seq<Text>, i: int) -> Seq<Seq<Text>>
    decreases alts.len() - i,
{
    if 0 <= i < alts.len() {
        seq![segments_of(alts[i])] + segmented(alts, i + 1)
    } else {
        seq![]
    }
}

/// A name fits a pattern if it fits one of its alternatives.
pub open spec fn pattern_fits(p: ApiPatternView, segs: Seq<Text>) -> bool {
    exists|a: int|
        0 <= a < p.alternatives.len() && segments_fit(#[trigger] p.alternatives[a], 0, segs, 0)
}

fn segment_matches(p: &str, s: &str) -> (r: bool)
    ensures
        r == segment_fits(p@, s@),
{
    if text::same(p, s) {
        return true;
    }
    match text::strip_prefix(p, "*") {
        Some(suffix) => text::ends_with(s, &suffix) && text::chars_of(s).len() > text::chars_of(
            &suffix,
        ).len(),
        None => false,
    }
}

fn segments_match(ps: &Vec<String>, i: usize, segs: &Vec<String>, j: usize) -> (r: bool)
    requires
        i <= ps@.len(),
        j <= segs@.len(),
    ensures
        r == segments_fit(ps.deep_view(), i as int, segs.deep_view(), j as int),
    decreases ps@.len() - i, segs@.len() - j,
{
    let ghost pv = ps.deep_view();
    let ghost sv = segs.deep_view();
    if i >= ps.len() {
        return j >= segs.len();
    }
    let n: usize = segs.len();
    let m: usize = ps.len();
    if text::same(&ps[i], "**") {
        return segments_match(ps, i + 1, segs, j) || (j < n && segments_match(ps, i, segs, j + 1));
    }
    j < segs.len() && segment_matches(&ps[i], &segs[j]) && segments_match(ps, i + 1, segs, j + 1)
}

impl ApiPattern {
    /// The pattern that `pattern` writes.
    pub fn new(pattern: &str) -> (r: Self)
        ensures
            r.deep_view() == pattern_of(pattern@),
    {
        let alts = expand_braces(pattern);
        let mut alternatives: Vec<Vec<String>> = list::empty();
        let mut i: usize = 0;
        while i < alts.len()
            invariant
                i <= alts@.len(),
                alternatives.deep_view() + segmented(alts.deep_view(), i as int) == segmented(
                    alts.deep_view(),
                    0,
                ),
            decreases alts@.len() - i,
        {
            list::push(&mut alternatives, split_segments(&alts[i]));
            i += 1;
        }
        ApiPattern { alternatives }
    }

    /// Whether a canonical name fits.
    pub fn matches(&self, api: &str) -> (r: bool)
        ensures
            r == pattern_fits(self.deep_view(), segments_of(api@)),
    {
        self.matches_segments(&split_segments(api))
    }

    fn matches_segments(&self, segs: &Vec<String>) -> (r: bool)
        ensures
            r == pattern_fits(self.deep_view(), segs.deep_view()),
    {
        let ghost alts = self.deep_view().alternatives;
        let mut a: usize = 0;
        while a < self.alternatives.len()
            invariant
                a <= self.alternatives@.len(),
                alts == self.deep_view().alternatives,
                forall|b: int|
                    0 <= b < a ==> !segments_fit(#[trigger] alts[b], 0, segs.deep_view(), 0),
            decreases self.alternatives@.len() - a,
        {
            if segments_match(&self.alternatives[a], 0, segs, 0) {
                assert(segments_fit(alts[a as int], 0, segs.deep_view(), 0));
                return true;
            }
            a += 1;
        }
        false
    }
}

/// Whether a canonical name fits a pattern.
pub fn api_matches(pattern: &str, api: &str) -> (r: bool)
    ensures
        r == pattern_fits(pattern_of(pattern@), segments_of(api@)),
{
    ApiPattern::new(pattern).matches(api)
}

// ---- lookups

/// The first effect rule from index `i` on that a name fits.
pub open spec fn effect_from(rules: Seq<EffectRuleView>, segs: Seq<Text>, i: int) -> Option<
    EffectRuleView,
>
    decreases rules.len() - i,
{
    if 0 <= i < rules.len() {
        if pattern_fits(rules[i].pattern, segs) {
            Some(rules[i])
        } else {
            effect_from(rules, segs, i + 1)
        }
    } else {
        None
    }
}

/// The first subscription rule from index `i` on, of the call form or of the decorator form,
/// that a name fits.
pub open spec fn subscribe_from(
    rules: Seq<SubscribeRuleView>,
    segs: Seq<Text>,
    decorator: bool,
    i: int,
) -> Option<SubscribeRuleView>
    decreases rules.len() - i,
{
    if 0 <= i < rules.len() {
        if (rules[i].handler_arg is None) == decorator && pattern_fits(rules[i].pattern, segs) {
            Some(rules[i])
        } else {
            subscribe_from(rules, segs, decorator, i + 1)
        }
    } else {
        None
    }
}

/// The first route rule from index `i` on, of the call form or of the decorator form, that a
/// name fits.
pub open spec fn route_from(
    rules: Seq<RouteRuleView>,
    segs: Seq<Text>,
    decorator: bool,
    i: int,
) -> Option<RouteRuleView>
    decreases rules.len() - i,
{
    if 0 <= i < rules.len() {
        if (rules[i].handler_arg is None) == decorator && pattern_fits(rules[i].pattern, segs) {
            Some(rules[i])
        } else {
            route_from(rules, segs, decorator, i + 1)
        }
    } else {
        None
    }
}

/// The first callback rule from index `i` on for argument `arg` of a name.
pub open spec fn callback_from(
    rules: Seq<CallbackRuleView>,
    segs: Seq<Text>,
    arg: usize,
    i: int,
) -> Option<CallbackRuleView>
    decreases rules.len() - i,
{
    if 0 <= i < rules.len() {
        if (rules[i].arg matches Some(a) ==> a == arg) && pattern_fits(rules[i].pattern, segs) {
            Some(rules[i])
        } else {
            callback_from(rules, segs, arg, i + 1)
        }
    } else {
        None
    }
}

/// A name fits one of the rules.
pub open spec fn any_fits(rules: Seq<FilterRuleView>, segs: Seq<Text>) -> bool {
    exists|i: int| 0 <= i < rules.len() && pattern_fits((#[trigger] rules[i]).pattern, segs)
}

fn any_matches(rules: &Vec<FilterRule>, api: &str) -> (r: bool)
    ensures
        r == any_fits(rules.deep_view(), segments_of(api@)),
{
    let ghost rv = rules.deep_view();
    let segs = split_segments(api);
    let mut i: usize = 0;
    while i < rules.len()
        invariant
            i <= rules@.len(),
            rv == rules.deep_view(),
            segs.deep_view() == segments_of(api@),
            forall|j: int|
                0 <= j < i ==> !pattern_fits((#[trigger] rv[j]).pattern, segments_of(api@)),
        decreases rules@.len() - i,
    {
        if rules[i].pattern.matches_segments(&segs) {
            assert(pattern_fits(rv[i as int].pattern, segments_of(api@)));
            return true;
        }
        i += 1;
    }
    false
}

impl Catalog {
    /// The effect rule for a canonical name.
    pub fn effect_for(&self, api: &str) -> (r: Option<&EffectRule>)
        ensures
            r.deep_view() == effect_from(self.deep_view().effect, segments_of(api@), 0),
    {
        let segs = split_segments(api);
        let mut i: usize = 0;
        while i < self.effect.len()
            invariant
                i <= self.effect@.len(),
                segs.deep_view() == segments_of(api@),
                effect_from(self.deep_view().effect, segments_of(api@), 0) == effect_from(
                    self.deep_view().effect,
                    segments_of(api@),
                    i as int,
                ),
            decreases self.effect@.len() - i,
        {
            if self.effect[i].pattern.matches_segments(&segs) {
                return Some(&self.effect[i]);
            }
            i += 1;
        }
        None
    }

    /// Call-form subscription (`emitter.on('x', handler)`), or decorator form when `decorator`.
    pub fn subscription_for(&self, api: &str, decorator: bool) -> (r: Option<&SubscribeRule>)
        ensures
            r.deep_view() == subscribe_from(
                self.deep_view().subscribe,
                segments_of(api@),
                decorator,
                0,
            ),
    {
        let mut i: usize = 0;
        while i < self.subscribe.len()
            invariant
                i <= self.subscribe@.len(),
                subscribe_from(self.deep_view().subscribe, segments_of(api@), decorator, 0)
                    == subscribe_from(
                    self.deep_view().subscribe,
                    segments_of(api@),
                    decorator,
                    i as int,
                ),
            decreases self.subscribe@.len() - i,
        {
            if self.subscribe[i].handler_arg.is_none() == decorator
                && self.subscribe[i].pattern.matches(api) {
                return Some(&self.subscribe[i]);
            }
            i += 1;
        }
        None
    }

    /// Call-form route (`router.get('/x', handler)`), or decorator form when `decorator`.
    pub fn route_for(&self, api: &str, decorator: bool) -> (r: Option<&RouteRule>)
        ensures
            r.deep_view() == route_from(self.deep_view().route, segments_of(api@), decorator, 0),
    {
        let mut i: usize = 0;
        while i < self.route.len()
            invariant
                i <= self.route@.len(),
                route_from(self.deep_view().route, segments_of(api@), decorator, 0) == route_from(
                    self.deep_view().route,
                    segments_of(api@),
                    decorator,
                    i as int,
                ),
            decreases self.route@.len() - i,
        {
            if self.route[i].handler_arg.is_none() == decorator && self.route[i].pattern.matches(
                api,
            ) {
                return Some(&self.route[i]);
            }
            i += 1;
        }
        None
    }

    /// Whether a call filters a query.
    pub fn is_filter(&self, api: &str) -> (r: bool)
        ensures
            r == any_fits(self.deep_view().filter, segments_of(api@)),
    {
        any_matches(&self.filter, api)
    }

    /// Whether a call logs.
    pub fn is_log(&self, api: &str) -> (r: bool)
        ensures
            r == any_fits(self.deep_view().log, segments_of(api@)),
    {
        any_matches(&self.log, api)
    }

    /// Whether an object key states an access requirement.
    pub fn is_access_key(&self, key: &str) -> (r: bool)
        ensures
            r == self.deep_view().access.keys.contains(key@),
    {
        list::has_str(&self.access.keys, key)
    }

    /// A call whose value is the constant in its first argument.
    pub fn is_literal(&self, api: &str) -> (r: bool)
        ensures
            r == any_fits(self.deep_view().literal, segments_of(api@)),
    {
        any_matches(&self.literal, api)
    }

    /// The rule typing a closure passed as argument `arg` of `api`.
    pub fn callback_for(&self, api: &str, arg: usize) -> (r: Option<&CallbackRule>)
        ensures
            r.deep_view() == callback_from(self.deep_view().callback, segments_of(api@), arg, 0),
    {
        let mut i: usize = 0;
        while i < self.callback.len()
            invariant
                i <= self.callback@.len(),
                callback_from(self.deep_view().callback, segments_of(api@), arg, 0)
                    == callback_from(
                    self.deep_view().callback,
                    segments_of(api@),
                    arg,
                    i as int,
                ),
            decreases self.callback@.len() - i,
        {
            let applies = match self.callback[i].arg {
                Some(a) => a == arg,
                None => true,
            };
            if applies && self.callback[i].pattern.matches(api) {
                return Some(&self.callback[i]);
            }
            i += 1;
        }
        None
    }
}

// ---- value specs

/// What can be asked about a call site: the segments of the call's canonical name, the
/// constant values of its arguments, and the properties of those that are objects.
#[verifier::ext_equal]
pub struct SiteView {
    pub segments: Seq<Text>,
    pub args: Seq<Option<Text>>,
    pub props: Seq<Seq<(Text, Option<Text>)>>,
}

/// The constant value of an argument.
pub open spec fn arg_value(site: SiteView, i: int) -> Option<Text> {
    if 0 <= i < site.args.len() {
        site.args[i]
    } else {
        None
    }
}

/// The value of the first property named `key` from index `i` on.
pub open spec fn prop_from(props: Seq<(Text, Option<Text>)>, key: Text, i: int) -> Option<Text>
    decreases props.len() - i,
{
    if 0 <= i < props.len() {
        if props[i].0 == key {
            props[i].1
        } else {
            prop_from(props, key, i + 1)
        }
    } else {
        None
    }
}

/// The constant value of a property of an object argument.
pub open spec fn prop_value(site: SiteView, i: int, key: Text) -> Option<Text> {
    if 0 <= i < site.props.len() {
        prop_from(site.props[i], key, 0)
    } else {
        None
    }
}

/// What a value spec can ask about a call site.
pub trait CallSite {
    spec fn site(&self) -> SiteView;

    /// The segments of the call's canonical name.
    fn segments(&self) -> (r: &Vec<String>)
        ensures
            r.deep_view() == self.site().segments,
    ;

    /// The number of arguments.
    fn arg_count(&self) -> (r: usize)
        ensures
            r == self.site().args.len(),
    ;

    /// The constant value of an argument.
    fn arg_str(&self, i: usize) -> (r: Option<String>)
        ensures
            r.deep_view() == arg_value(self.site(), i as int),
    ;

    /// The constant value of a property of an object argument.
    fn arg_prop(&self, i: usize, key: &str) -> (r: Option<String>)
        ensures
            r.deep_view() == prop_value(self.site(), i as int, key@),
    ;
}

/// The index of the first `/`, `?` or `#` at or after `i`, or the length.
pub open spec fn host_end(s: Text, i: int) -> int
    decreases s.len() - i,
{
    if 0 <= i < s.len() && s[i] != '/' && s[i] != '?' && s[i] != '#' {
        host_end(s, i + 1)
    } else {
        i
    }
}

/// The host of a URL: what stands between the scheme and the path.
pub open spec fn host_of(url: Text) -> Text {
    let rest = match text::parted(url, "://"@) {
        Some((_, rest)) => rest,
        None => url,
    };
    rest.take(host_end(rest, 0))
}

/// The host of a URL.
pub fn url_host(url: &str) -> (r: String)
    ensures
        r@ == host_of(url@),
{
    let rest = match text::split_once(url, "://") {
        Some((_, rest)) => rest,
        None => url.to_owned(),
    };
    let v = text::chars_of(&rest);
    let mut i: usize = 0;
    while i < v.len() && v[i] != '/' && v[i] != '?' && v[i] != '#'
        invariant
            i <= v@.len(),
            host_end(v@, 0) == host_end(v@, i as int),
        decreases v@.len() - i,
    {
        i += 1;
    }
    text::text_of(&v, 0, i)
}

/// A segment without `()` and `#` at its end.
pub open spec fn bare_segment(s: Text) -> Text {
    text::trimmed_end(text::trimmed_end(s, "()"@), "#"@)
}

/// The value that a spec without default and case asks for: `None` where its index is not a
/// number, else the value at the call site, if there is one.
pub open spec fn asked(spec: Text, site: SiteView) -> Option<Option<Text>> {
    if text::begins(spec, "seg:"@) {
        match text::integer_value(spec.skip("seg:"@.len() as int)) {
            Some(n) => {
                let segs = site.segments;
                let at = if n < 0 { segs.len() + n } else { n };
                if 0 <= at < segs.len() {
                    Some(Some(bare_segment(segs[at])))
                } else {
                    Some(None)
                }
            },
            None => None,
        }
    } else if text::begins(spec, "arg:"@) {
        match text::index_value(spec.skip("arg:"@.len() as int)) {
            Some(n) => Some(arg_value(site, n)),
            None => None,
        }
    } else if text::begins(spec, "host:"@) {
        match text::index_value(spec.skip("host:"@.len() as int)) {
            Some(n) => match arg_value(site, n) {
                Some(url) => Some(Some(host_of(url))),
                None => Some(None),
            },
            None => None,
        }
    } else if text::begins(spec, "opt:"@) {
        match text::parted(spec.skip("opt:"@.len() as int), "."@) {
            Some((n, key)) => match text::index_value(n) {
                Some(n) => Some(prop_value(site, n, key)),
                None => None,
            },
            None => None,
        }
    } else {
        Some(text::after_prefix(spec, "lit:"@))
    }
}

/// The value of a spec at a call site.
pub open spec fn spec_value(spec: Text, site: SiteView) -> Option<Text> {
    let upper = text::ends(spec, ":upper"@);
    let spec = match text::before_suffix(spec, ":upper"@) {
        Some(s) => s,
        None => spec,
    };
    let (spec, default) = match text::parted(spec, "|"@) {
        Some((s, d)) => (s, Some(d)),
        None => (spec, None),
    };
    match asked(spec, site) {
        Some(value) => {
            let value = if value is Some { value } else { default };
            match value {
                Some(v) => Some(
                    if upper {
                        text::uppercase(v)
                    } else {
                        v
                    },
                ),
                None => None,
            }
        },
        None => None,
    }
}

fn ask<S: CallSite>(spec: &str, site: &S) -> (r: Option<Option<String>>)
    ensures
        r.deep_view() == asked(spec@, site.site()),
{
    if let Some(n) = text::strip_prefix(spec, "seg:") {
        match text::parse_integer(&n) {
            Some(n) => {
                let segs = site.segments();
                let len: usize = segs.len();
                let at: i128 = if n < 0 {
                    len as i128 + n as i128
                } else {
                    n as i128
                };
                if at >= 0 && at < len as i128 {
                    let s = text::trim_end(&text::trim_end(&segs[at as usize], "()"), "#");
                    Some(Some(s))
                } else {
                    Some(None)
                }
            },
            None => None,
        }
    } else if let Some(n) = text::strip_prefix(spec, "arg:") {
        match text::parse_index(&n) {
            Some(n) => Some(site.arg_str(n)),
            None => None,
        }
    } else if let Some(n) = text::strip_prefix(spec, "host:") {
        match text::parse_index(&n) {
            Some(n) => match site.arg_str(n) {
                Some(url) => Some(Some(url_host(&url))),
                None => Some(None),
            },
            None => None,
        }
    } else if let Some(rest) = text::strip_prefix(spec, "opt:") {
        match text::split_once(&rest, ".") {
            Some((n, key)) => match text::parse_index(&n) {
                Some(n) => Some(site.arg_prop(n, &key)),
                None => None,
            },
            None => None,
        }
    } else {
        Some(text::strip_prefix(spec, "lit:"))
    }
}

/// Evaluates a value spec against a call site.
pub fn eval_spec<S: CallSite>(spec: &str, site: &S) -> (r: Option<String>)
    ensures
        r.deep_view() == spec_value(spec@, site.site()),
{
    let (bare, upper) = match text::strip_suffix(spec, ":upper") {
        Some(s) => (s, true),
        None => (spec.to_owned(), false),
    };
    let (bare, default) = match text::split_once(&bare, "|") {
        Some((s, d)) => (s, Some(d)),
        None => (bare, None),
    };
    match ask(&bare, site) {
        Some(value) => {
            let value = if value.is_some() {
                value
            } else {
                default
            };
            match value {
                Some(v) => Some(
                    if upper {
                        text::to_upper(&v)
                    } else {
                        v
                    },
                ),
                None => None,
            }
        },
        None => None,
    }
}

// ---- reading rules

/// A result of reading, by its views.
pub open spec fn outcome<T: DeepView>(r: Result<T, String>) -> Result<T::V, Text> {
    match r {
        Ok(v) => Ok(v.deep_view()),
        Err(e) => Err(e@),
    }
}

/// The message for a field of the wrong kind.
pub open spec fn wrong_kind(key: Text) -> Text {
    "invalid type for field `"@ + key + "`"@
}

/// The text of the field `key`, which has to be there.
pub open spec fn text_field(t: TreeView, key: Text) -> Result<Text, Text> {
    match tree::field(t, key) {
        Some(TreeView::Str(s)) => Ok(s),
        Some(_) => Err(wrong_kind(key)),
        None => Err("missing field `"@ + key + "`"@),
    }
}

/// The text of the field `key`, if it is there.
pub open spec fn optional_text(t: TreeView, key: Text) -> Result<Option<Text>, Text> {
    match tree::field(t, key) {
        Some(TreeView::Str(s)) => Ok(Some(s)),
        Some(_) => Err(wrong_kind(key)),
        None => Ok(None),
    }
}

/// The 32-bit integer of the field `key`, if it is there.
pub open spec fn optional_integer(t: TreeView, key: Text) -> Result<Option<i32>, Text> {
    match tree::field(t, key) {
        Some(TreeView::Num(n)) => match text::integer_value(n.text) {
            Some(i) => if i32::MIN <= i <= i32::MAX {
                Ok(Some(i as i32))
            } else {
                Err(wrong_kind(key))
            },
            None => Err(wrong_kind(key)),
        },
        Some(_) => Err(wrong_kind(key)),
        None => Ok(None),
    }
}

/// The index of the field `key`, if it is there.
pub open spec fn optional_index(t: TreeView, key: Text) -> Result<Option<usize>, Text> {
    match tree::field(t, key) {
        Some(TreeView::Num(n)) => match text::index_value(n.text) {
            Some(i) => Ok(Some(i as usize)),
            None => Err(wrong_kind(key)),
        },
        Some(_) => Err(wrong_kind(key)),
        None => Ok(None),
    }
}

/// The texts of a list from index `i` on, added to `acc`.
pub open spec fn texts_from(items: Seq<TreeView>, key: Text, i: int, acc: Seq<Text>) -> Result<
    Seq<Text>,
    Text,
>
    decreases items.len() - i,
{
    if 0 <= i < items.len() {
        match items[i] {
            TreeView::Str(s) => texts_from(items, key, i + 1, acc.push(s)),
            _ => Err(wrong_kind(key)),
        }
    } else {
        Ok(acc)
    }
}

/// The texts of the list field `key`; none where it is not there.
pub open spec fn text_list(t: TreeView, key: Text) -> Result<Seq<Text>, Text> {
    match tree::field(t, key) {
        Some(TreeView::List(items)) => texts_from(items, key, 0, seq![]),
        Some(_) => Err(wrong_kind(key)),
        None => Ok(seq![]),
    }
}

/// The items of the list field `key`; none where it is not there.
pub open spec fn item_list(t: TreeView, key: Text) -> Result<Seq<TreeView>, Text> {
    match tree::field(t, key) {
        Some(TreeView::List(items)) => Ok(items),
        Some(_) => Err(wrong_kind(key)),
        None => Ok(seq![]),
    }
}

fn wrong(key: &str) -> (r: String)
    ensures
        r@ == wrong_kind(key@),
{
    text::cat3("invalid type for field `", key, "`")
}

/// Reads the text that must stand under `key`.
pub fn read_text(t: &Tree, key: &str) -> (r: Result<String, String>)
    ensures
        outcome(r) == text_field(t.deep_view(), key@),
{
    match t.get(key) {
        Some(Tree::Str(s)) => Ok(s.dup()),
        Some(_) => Err(wrong(key)),
        None => Err(text::cat3("missing field `", key, "`")),
    }
}

fn read_optional_text(t: &Tree, key: &str) -> (r: Result<Option<String>, String>)
    ensures
        outcome(r) == optional_text(t.deep_view(), key@),
{
    match t.get(key) {
        Some(Tree::Str(s)) => Ok(Some(s.dup())),
        Some(_) => Err(wrong(key)),
        None => Ok(None),
    }
}

fn read_optional_integer(t: &Tree, key: &str) -> (r: Result<Option<i32>, String>)
    ensures
        outcome(r) == optional_integer(t.deep_view(), key@),
{
    match t.get(key) {
        Some(Tree::Num(n)) => match text::parse_integer(&n.text) {
            Some(i) => if i >= i32::MIN as i64 && i <= i32::MAX as i64 {
                Ok(Some(i as i32))
            } else {
                Err(wrong(key))
            },
            None => Err(wrong(key)),
        },
        Some(_) => Err(wrong(key)),
        None => Ok(None),
    }
}

fn read_optional_index(t: &Tree, key: &str) -> (r: Result<Option<usize>, String>)
    ensures
        outcome(r) == optional_index(t.deep_view(), key@),
{
    match t.get(key) {
        Some(Tree::Num(n)) => match text::parse_index(&n.text) {
            Some(i) => Ok(Some(i)),
            None => Err(wrong(key)),
        },
        Some(_) => Err(wrong(key)),
        None => Ok(None),
    }
}

/// Reads the list of texts under `key`.
#[verifier::loop_isolation(false)]
pub fn read_texts(t: &Tree, key: &str) -> (r: Result<Vec<String>, String>)
    ensures
        outcome(r) == text_list(t.deep_view(), key@),
{
    match t.get(key) {
        Some(Tree::List(items)) => {
            let ghost v = tree::tree_list_view(items@);
            let mut out: Vec<String> = list::empty();
            let mut i: usize = 0;
            while i < items.len()
                invariant
                    i <= items@.len(),
                    texts_from(v, key@, i as int, out.deep_view()) == texts_from(
                        v,
                        key@,
                        0,
                        seq![],
                    ),
                decreases items@.len() - i,
            {
                match &items[i] {
                    Tree::Str(s) => {
                        list::push(&mut out, s.dup());
                    },
                    _ => {
                        return Err(wrong(key));
                    },
                }
                i += 1;
            }
            Ok(out)
        },
        Some(_) => Err(wrong(key)),
        None => Ok(list::empty()),
    }
}

/// Reads the list of tables under `key`.
pub fn read_items(t: &Tree, key: &str) -> (r: Result<Vec<Tree>, String>)
    ensures
        outcome(r) == item_list(t.deep_view(), key@),
{
    broadcast use tree::tree_list_view_is_deep;

    match t.get(key) {
        Some(Tree::List(items)) => {
            let ghost v = tree::tree_list_view(items@);
            Ok(items.dup())
        },
        Some(_) => Err(wrong(key)),
        None => Ok(list::empty()),
    }
}

/// The effect rule that a table writes.
pub open spec fn effect_rule_of(t: TreeView) -> Result<EffectRuleView, Text> {
    match text_field(t, "api"@) {
        Err(e) => Err(e),
        Ok(api) => {
            match text_field(t, "kind"@) {
                Err(e) => Err(e),
                Ok(kind) => {
                    match text_field(t, "target"@) {
                        Err(e) => Err(e),
                        Ok(target) => {
                            match optional_text(t, "method"@) {
                                Err(e) => Err(e),
                                Ok(method) => {
                                    Ok(EffectRuleView { api, pattern: pattern_of(api), kind, target, method })
                                },
                            }
                        },
                    }
                },
            }
        },
    }
}

/// The rules that the items from index `i` on write, added to `acc`.
pub open spec fn effect_rules_from(items: Seq<TreeView>, i: int, acc: Seq<EffectRuleView>) -> Result<Seq<EffectRuleView>, Text>
    decreases items.len() - i,
{
    if 0 <= i < items.len() {
        match effect_rule_of(items[i]) {
            Ok(rule) => effect_rules_from(items, i + 1, acc.push(rule)),
            Err(e) => Err(e),
        }
    } else {
        Ok(acc)
    }
}

/// The rules of the list field `key`.
pub open spec fn effect_rules_of(t: TreeView, key: Text) -> Result<Seq<EffectRuleView>, Text> {
    match item_list(t, key) {
        Ok(items) => effect_rules_from(items, 0, seq![]),
        Err(e) => Err(e),
    }
}

fn read_effect_rule(t: &Tree) -> (r: Result<EffectRule, String>)
    ensures
        outcome(r) == effect_rule_of(t.deep_view()),
{
    match read_text(t, "api") {
        Err(e) => Err(e),
        Ok(api) => {
            match read_text(t, "kind") {
                Err(e) => Err(e),
                Ok(kind) => {
                    match read_text(t, "target") {
                        Err(e) => Err(e),
                        Ok(target) => {
                            match read_optional_text(t, "method") {
                                Err(e) => Err(e),
                                Ok(method) => {
                                    Ok(EffectRule { pattern: ApiPattern::new(&api), api, kind, target, method })
                                },
                            }
                        },
                    }
                },
            }
        },
    }
}

fn read_effect_rules(t: &Tree, key: &str) -> (r: Result<Vec<EffectRule>, String>)
    ensures
        outcome(r) == effect_rules_of(t.deep_view(), key@),
{
    let items = match read_items(t, key) {
        Ok(items) => items,
        Err(e) => {
            return Err(e);
        },
    };
    let ghost v = items.deep_view();
    let mut out: Vec<EffectRule> = list::empty();
    let mut i: usize = 0;
    while i < items.len()
        invariant
            i <= items@.len(),
            v == items.deep_view(),
            effect_rules_of(t.deep_view(), key@) == effect_rules_from(v, 0, seq![]),
            effect_rules_from(v, i as int, out.deep_view()) == effect_rules_from(v, 0, seq![]),
        decreases items@.len() - i,
    {
        match read_effect_rule(&items[i]) {
            Ok(rule) => {
                list::push(&mut out, rule);
            },
            Err(e) => {
                return Err(e);
            },
        }
        i += 1;
    }
    Ok(out)
}

/// The subscription rule that a table writes.
pub open spec fn subscribe_rule_of(t: TreeView) -> Result<SubscribeRuleView, Text> {
    match text_field(t, "api"@) {
        Err(e) => Err(e),
        Ok(api) => {
            match text_field(t, "event"@) {
                Err(e) => Err(e),
                Ok(event) => {
                    match optional_integer(t, "handler_arg"@) {
                        Err(e) => Err(e),
                        Ok(handler_arg) => {
                            Ok(SubscribeRuleView { api, pattern: pattern_of(api), event, handler_arg })
                        },
                    }
                },
            }
        },
    }
}

/// The rules that the items from index `i` on write, added to `acc`.
pub open spec fn subscribe_rules_from(items: Seq<TreeView>, i: int, acc: Seq<SubscribeRuleView>) -> Result<Seq<SubscribeRuleView>, Text>
    decreases items.len() - i,
{
    if 0 <= i < items.len() {
        match subscribe_rule_of(items[i]) {
            Ok(rule) => subscribe_rules_from(items, i + 1, acc.push(rule)),
            Err(e) => Err(e),
        }
    } else {
        Ok(acc)
    }
}

/// The rules of the list field `key`.
pub open spec fn subscribe_rules_of(t: TreeView, key: Text) -> Result<Seq<SubscribeRuleView>, Text> {
    match item_list(t, key) {
        Ok(items) => subscribe_rules_from(items, 0, seq![]),
        Err(e) => Err(e),
    }
}

fn read_subscribe_rule(t: &Tree) -> (r: Result<SubscribeRule, String>)
    ensures
        outcome(r) == subscribe_rule_of(t.deep_view()),
{
    match read_text(t, "api") {
        Err(e) => Err(e),
        Ok(api) => {
            match read_text(t, "event") {
                Err(e) => Err(e),
                Ok(event) => {
                    match read_optional_integer(t, "handler_arg") {
                        Err(e) => Err(e),
                        Ok(handler_arg) => {
                            Ok(SubscribeRule { pattern: ApiPattern::new(&api), api, event, handler_arg })
                        },
                    }
                },
            }
        },
    }
}

fn read_subscribe_rules(t: &Tree, key: &str) -> (r: Result<Vec<SubscribeRule>, String>)
    ensures
        outcome(r) == subscribe_rules_of(t.deep_view(), key@),
{
    let items = match read_items(t, key) {
        Ok(items) => items,
        Err(e) => {
            return Err(e);
        },
    };
    let ghost v = items.deep_view();
    let mut out: Vec<SubscribeRule> = list::empty();
    let mut i: usize = 0;
    while i < items.len()
        invariant
            i <= items@.len(),
            v == items.deep_view(),
            subscribe_rules_of(t.deep_view(), key@) == subscribe_rules_from(v, 0, seq![]),
            subscribe_rules_from(v, i as int, out.deep_view()) == subscribe_rules_from(v, 0, seq![]),
        decreases items@.len() - i,
    {
        match read_subscribe_rule(&items[i]) {
            Ok(rule) => {
                list::push(&mut out, rule);
            },
            Err(e) => {
                return Err(e);
            },
        }
        i += 1;
    }
    Ok(out)
}

/// The route rule that a table writes.
pub open spec fn route_rule_of(t: TreeView) -> Result<RouteRuleView, Text> {
    match text_field(t, "api"@) {
        Err(e) => Err(e),
        Ok(api) => {
            match text_field(t, "method"@) {
                Err(e) => Err(e),
                Ok(method) => {
                    match text_field(t, "path"@) {
                        Err(e) => Err(e),
                        Ok(path) => {
                            match optional_integer(t, "handler_arg"@) {
                                Err(e) => Err(e),
                                Ok(handler_arg) => {
                                    match optional_text(t, "prefix"@) {
                                        Err(e) => Err(e),
                                        Ok(prefix) => {
                                            Ok(RouteRuleView { api, pattern: pattern_of(api), method, path, handler_arg, prefix })
                                        },
                                    }
                                },
                            }
                        },
                    }
                },
            }
        },
    }
}

/// The rules that the items from index `i` on write, added to `acc`.
pub open spec fn route_rules_from(items: Seq<TreeView>, i: int, acc: Seq<RouteRuleView>) -> Result<Seq<RouteRuleView>, Text>
    decreases items.len() - i,
{
    if 0 <= i < items.len() {
        match route_rule_of(items[i]) {
            Ok(rule) => route_rules_from(items, i + 1, acc.push(rule)),
            Err(e) => Err(e),
        }
    } else {
        Ok(acc)
    }
}

/// The rules of the list field `key`.
pub open spec fn route_rules_of(t: TreeView, key: Text) -> Result<Seq<RouteRuleView>, Text> {
    match item_list(t, key) {
        Ok(items) => route_rules_from(items, 0, seq![]),
        Err(e) => Err(e),
    }
}

fn read_route_rule(t: &Tree) -> (r: Result<RouteRule, String>)
    ensures
        outcome(r) == route_rule_of(t.deep_view()),
{
    match read_text(t, "api") {
        Err(e) => Err(e),
        Ok(api) => {
            match read_text(t, "method") {
                Err(e) => Err(e),
                Ok(method) => {
                    match read_text(t, "path") {
                        Err(e) => Err(e),
                        Ok(path) => {
                            match read_optional_integer(t, "handler_arg") {
                                Err(e) => Err(e),
                                Ok(handler_arg) => {
                                    match read_optional_text(t, "prefix") {
                                        Err(e) => Err(e),
                                        Ok(prefix) => {
                                            Ok(RouteRule { pattern: ApiPattern::new(&api), api, method, path, handler_arg, prefix })
                                        },
                                    }
                                },
                            }
                        },
                    }
                },
            }
        },
    }
}

fn read_route_rules(t: &Tree, key: &str) -> (r: Result<Vec<RouteRule>, String>)
    ensures
        outcome(r) == route_rules_of(t.deep_view(), key@),
{
    let items = match read_items(t, key) {
        Ok(items) => items,
        Err(e) => {
            return Err(e);
        },
    };
    let ghost v = items.deep_view();
    let mut out: Vec<RouteRule> = list::empty();
    let mut i: usize = 0;
    while i < items.len()
        invariant
            i <= items@.len(),
            v == items.deep_view(),
            route_rules_of(t.deep_view(), key@) == route_rules_from(v, 0, seq![]),
            route_rules_from(v, i as int, out.deep_view()) == route_rules_from(v, 0, seq![]),
        decreases items@.len() - i,
    {
        match read_route_rule(&items[i]) {
            Ok(rule) => {
                list::push(&mut out, rule);
            },
            Err(e) => {
                return Err(e);
            },
        }
        i += 1;
    }
    Ok(out)
}

/// The rule of a name only that a table writes.
pub open spec fn filter_rule_of(t: TreeView) -> Result<FilterRuleView, Text> {
    match text_field(t, "api"@) {
        Err(e) => Err(e),
        Ok(api) => {
            Ok(FilterRuleView { api, pattern: pattern_of(api) })
        },
    }
}

/// The rules that the items from index `i` on write, added to `acc`.
pub open spec fn filter_rules_from(items: Seq<TreeView>, i: int, acc: Seq<FilterRuleView>) -> Result<Seq<FilterRuleView>, Text>
    decreases items.len() - i,
{
    if 0 <= i < items.len() {
        match filter_rule_of(items[i]) {
            Ok(rule) => filter_rules_from(items, i + 1, acc.push(rule)),
            Err(e) => Err(e),
        }
    } else {
        Ok(acc)
    }
}

/// The rules of the list field `key`.
pub open spec fn filter_rules_of(t: TreeView, key: Text) -> Result<Seq<FilterRuleView>, Text> {
    match item_list(t, key) {
        Ok(items) => filter_rules_from(items, 0, seq![]),
        Err(e) => Err(e),
    }
}

fn read_filter_rule(t: &Tree) -> (r: Result<FilterRule, String>)
    ensures
        outcome(r) == filter_rule_of(t.deep_view()),
{
    match read_text(t, "api") {
        Err(e) => Err(e),
        Ok(api) => {
            Ok(FilterRule { pattern: ApiPattern::new(&api), api })
        },
    }
}

fn read_filter_rules(t: &Tree, key: &str) -> (r: Result<Vec<FilterRule>, String>)
    ensures
        outcome(r) == filter_rules_of(t.deep_view(), key@),
{
    let items = match read_items(t, key) {
        Ok(items) => items,
        Err(e) => {
            return Err(e);
        },
    };
    let ghost v = items.deep_view();
    let mut out: Vec<FilterRule> = list::empty();
    let mut i: usize = 0;
    while i < items.len()
        invariant
            i <= items@.len(),
            v == items.deep_view(),
            filter_rules_of(t.deep_view(), key@) == filter_rules_from(v, 0, seq![]),
            filter_rules_from(v, i as int, out.deep_view()) == filter_rules_from(v, 0, seq![]),
        decreases items@.len() - i,
    {
        match read_filter_rule(&items[i]) {
            Ok(rule) => {
                list::push(&mut out, rule);
            },
            Err(e) => {
                return Err(e);
            },
        }
        i += 1;
    }
    Ok(out)
}

/// The callback rule that a table writes.
pub open spec fn callback_rule_of(t: TreeView) -> Result<CallbackRuleView, Text> {
    match text_field(t, "api"@) {
        Err(e) => Err(e),
        Ok(api) => {
            match optional_index(t, "arg"@) {
                Err(e) => Err(e),
                Ok(arg) => {
                    match text_field(t, "param"@) {
                        Err(e) => Err(e),
                        Ok(param) => {
                            Ok(CallbackRuleView { api, pattern: pattern_of(api), arg, param })
                        },
                    }
                },
            }
        },
    }
}

/// The rules that the items from index `i` on write, added to `acc`.
pub open spec fn callback_rules_from(items: Seq<TreeView>, i: int, acc: Seq<CallbackRuleView>) -> Result<Seq<CallbackRuleView>, Text>
    decreases items.len() - i,
{
    if 0 <= i < items.len() {
        match callback_rule_of(items[i]) {
            Ok(rule) => callback_rules_from(items, i + 1, acc.push(rule)),
            Err(e) => Err(e),
        }
    } else {
        Ok(acc)
    }
}

/// The rules of the list field `key`.
pub open spec fn callback_rules_of(t: TreeView, key: Text) -> Result<Seq<CallbackRuleView>, Text> {
    match item_list(t, key) {
        Ok(items) => callback_rules_from(items, 0, seq![]),
        Err(e) => Err(e),
    }
}

fn read_callback_rule(t: &Tree) -> (r: Result<CallbackRule, String>)
    ensures
        outcome(r) == callback_rule_of(t.deep_view()),
{
    match read_text(t, "api") {
        Err(e) => Err(e),
        Ok(api) => {
            match read_optional_index(t, "arg") {
                Err(e) => Err(e),
                Ok(arg) => {
                    match read_text(t, "param") {
                        Err(e) => Err(e),
                        Ok(param) => {
                            Ok(CallbackRule { pattern: ApiPattern::new(&api), api, arg, param })
                        },
                    }
                },
            }
        },
    }
}

fn read_callback_rules(t: &Tree, key: &str) -> (r: Result<Vec<CallbackRule>, String>)
    ensures
        outcome(r) == callback_rules_of(t.deep_view(), key@),
{
    let items = match read_items(t, key) {
        Ok(items) => items,
        Err(e) => {
            return Err(e);
        },
    };
    let ghost v = items.deep_view();
    let mut out: Vec<CallbackRule> = list::empty();
    let mut i: usize = 0;
    while i < items.len()
        invariant
            i <= items@.len(),
            v == items.deep_view(),
            callback_rules_of(t.deep_view(), key@) == callback_rules_from(v, 0, seq![]),
            callback_rules_from(v, i as int, out.deep_view()) == callback_rules_from(v, 0, seq![]),
        decreases items@.len() - i,
    {
        match read_callback_rule(&items[i]) {
            Ok(rule) => {
                list::push(&mut out, rule);
            },
            Err(e) => {
                return Err(e);
            },
        }
        i += 1;
    }
    Ok(out)
}

/// The table `access`; empty where it is not there.
pub open spec fn access_of(t: TreeView) -> Result<AccessKeysView, Text> {
    match tree::field(t, "access"@) {
        Some(TreeView::Table(fields)) => {
            let k = TreeView::Table(fields);
            match text_list(k, "keys"@) {
                Err(e) => Err(e),
                Ok(keys) => match text_list(k, "grants"@) {
                    Err(e) => Err(e),
                    Ok(grants) => Ok(AccessKeysView { keys, grants }),
                },
            }
        },
        Some(_) => Err(wrong_kind("access"@)),
        None => Ok(AccessKeysView { keys: seq![], grants: seq![] }),
    }
}

fn read_access(t: &Tree) -> (r: Result<AccessKeys, String>)
    ensures
        outcome(r) == access_of(t.deep_view()),
{
    match t.get("access") {
        Some(k) => match k {
            Tree::Table(_) => match read_texts(k, "keys") {
                Err(e) => Err(e),
                Ok(keys) => match read_texts(k, "grants") {
                    Err(e) => Err(e),
                    Ok(grants) => Ok(AccessKeys { keys, grants }),
                },
            },
            _ => Err(wrong("access")),
        },
        None => Ok(AccessKeys { keys: list::empty(), grants: list::empty() }),
    }
}

/// The table `schema`; empty where it is not there.
pub open spec fn schema_of(t: TreeView) -> Result<SchemaKeysView, Text> {
    match tree::field(t, "schema"@) {
        Some(TreeView::Table(fields)) => {
            let k = TreeView::Table(fields);
            match text_list(k, "roots"@) {
                Err(e) => Err(e),
                Ok(roots) => match text_list(k, "docs"@) {
                    Err(e) => Err(e),
                    Ok(docs) => Ok(SchemaKeysView { roots, docs }),
                },
            }
        },
        Some(_) => Err(wrong_kind("schema"@)),
        None => Ok(SchemaKeysView { roots: seq![], docs: seq![] }),
    }
}

fn read_schema(t: &Tree) -> (r: Result<SchemaKeys, String>)
    ensures
        outcome(r) == schema_of(t.deep_view()),
{
    match t.get("schema") {
        Some(k) => match k {
            Tree::Table(_) => match read_texts(k, "roots") {
                Err(e) => Err(e),
                Ok(roots) => match read_texts(k, "docs") {
                    Err(e) => Err(e),
                    Ok(docs) => Ok(SchemaKeys { roots, docs }),
                },
            },
            _ => Err(wrong("schema")),
        },
        None => Ok(SchemaKeys { roots: list::empty(), docs: list::empty() }),
    }
}

/// The catalog that a table writes. Unknown fields are left out.
pub open spec fn catalog_of(t: TreeView) -> Result<CatalogView, Text> {
    match effect_rules_of(t, "effect"@) {
        Err(e) => Err(e),
        Ok(effect) =>
        match subscribe_rules_of(t, "subscribe"@) {
            Err(e) => Err(e),
            Ok(subscribe) =>
            match route_rules_of(t, "route"@) {
                Err(e) => Err(e),
                Ok(route) =>
                match filter_rules_of(t, "filter"@) {
                    Err(e) => Err(e),
                    Ok(filter) =>
                    match callback_rules_of(t, "callback"@) {
                        Err(e) => Err(e),
                        Ok(callback) =>
                        match filter_rules_of(t, "literal"@) {
                            Err(e) => Err(e),
                            Ok(literal) =>
                            match filter_rules_of(t, "log"@) {
                                Err(e) => Err(e),
                                Ok(log) =>
                                match access_of(t) {
                                    Err(e) => Err(e),
                                    Ok(access) =>
                                    match schema_of(t) {
                                        Err(e) => Err(e),
                                        Ok(schema) =>
                                        Ok(CatalogView { effect, subscribe, route, filter, callback, literal, log, access, schema }),
                                    },
                                },
                            },
                        },
                    },
                },
            },
        },
    }
}

/// Reads a catalog from a table.
pub fn read_catalog(t: &Tree) -> (r: Result<Catalog, String>)
    ensures
        outcome(r) == catalog_of(t.deep_view()),
{
    let effect = match read_effect_rules(t, "effect") {
        Ok(effect) => effect,
        Err(e) => {
            return Err(e);
        },
    };
    let subscribe = match read_subscribe_rules(t, "subscribe") {
        Ok(subscribe) => subscribe,
        Err(e) => {
            return Err(e);
        },
    };
    let route = match read_route_rules(t, "route") {
        Ok(route) => route,
        Err(e) => {
            return Err(e);
        },
    };
    let filter = match read_filter_rules(t, "filter") {
        Ok(filter) => filter,
        Err(e) => {
            return Err(e);
        },
    };
    let callback = match read_callback_rules(t, "callback") {
        Ok(callback) => callback,
        Err(e) => {
            return Err(e);
        },
    };
    let literal = match read_filter_rules(t, "literal") {
        Ok(literal) => literal,
        Err(e) => {
            return Err(e);
        },
    };
    let log = match read_filter_rules(t, "log") {
        Ok(log) => log,
        Err(e) => {
            return Err(e);
        },
    };
    let access = match read_access(t) {
        Ok(access) => access,
        Err(e) => {
            return Err(e);
        },
    };
    let schema = match read_schema(t) {
        Ok(schema) => schema,
        Err(e) => {
            return Err(e);
        },
    };
    Ok(Catalog { effect, subscribe, route, filter, callback, literal, log, access, schema })
}

/// The catalog without rules.
pub open spec fn no_rules() -> CatalogView {
    CatalogView {
        effect: seq![],
        subscribe: seq![],
        route: seq![],
        filter: seq![],
        callback: seq![],
        literal: seq![],
        log: seq![],
        access: AccessKeysView { keys: seq![], grants: seq![] },
        schema: SchemaKeysView { roots: seq![], docs: seq![] },
    }
}

/// The catalog of the built-in rules.
pub open spec fn built_in() -> CatalogView {
    match tree::toml_document(DEFAULT@) {
        Ok(t) => match catalog_of(t) {
            Ok(c) => c,
            Err(_) => no_rules(),
        },
        Err(_) => no_rules(),
    }
}

/// The rules of two catalogs, one after the other.
pub open spec fn with_rules(c: CatalogView, e: CatalogView) -> CatalogView {
    CatalogView {
        effect: c.effect + e.effect,
        subscribe: c.subscribe + e.subscribe,
        route: c.route + e.route,
        filter: c.filter + e.filter,
        callback: c.callback + e.callback,
        literal: c.literal + e.literal,
        log: c.log + e.log,
        access: AccessKeysView {
            keys: c.access.keys + e.access.keys,
            grants: c.access.grants + e.access.grants,
        },
        schema: SchemaKeysView {
            roots: c.schema.roots + e.schema.roots,
            docs: c.schema.docs + e.schema.docs,
        },
    }
}

/// The built-in catalog with the rules of another one, each with the pattern that its name
/// writes.
pub open spec fn extended(extra: Option<CatalogView>) -> CatalogView {
    compiled(
        match extra {
            Some(e) => with_rules(built_in(), e),
            None => built_in(),
        },
    )
}

// ---- compiled rules

/// The effect rules with the patterns that their names write.
pub open spec fn compiled_effects(rules: Seq<EffectRuleView>) -> Seq<EffectRuleView> {
    Seq::new(rules.len(), |i: int| EffectRuleView { pattern: pattern_of(rules[i].api), ..rules[i] })
}

fn compile_effects(rules: &Vec<EffectRule>) -> (r: Vec<EffectRule>)
    ensures
        r.deep_view() == compiled_effects(rules.deep_view()),
{
    let ghost v = rules.deep_view();
    let mut out: Vec<EffectRule> = list::empty();
    let mut i: usize = 0;
    while i < rules.len()
        invariant
            i <= rules@.len(),
            v == rules.deep_view(),
            out.deep_view() == compiled_effects(v).take(i as int),
        decreases rules@.len() - i,
    {
        assert(v[i as int] == rules@[i as int].deep_view());
        list::push(
            &mut out,
            EffectRule { pattern: ApiPattern::new(&rules[i].api), api: rules[i].api.dup(), kind: rules[i].kind.dup(), target: rules[i].target.dup(), method: rules[i].method.dup() },
        );
        i += 1;
        assert(out.deep_view() =~= compiled_effects(v).take(i as int));
    }
    assert(compiled_effects(v).take(v.len() as int) =~= compiled_effects(v));
    out
}

proof fn read_effects_are_compiled(items: Seq<TreeView>, i: int, acc: Seq<EffectRuleView>)
    requires
        compiled_effects(acc) == acc,
    ensures
        effect_rules_from(items, i, acc) matches Ok(rules) ==> compiled_effects(rules) == rules,
    decreases items.len() - i,
{
    if 0 <= i < items.len() {
        match effect_rule_of(items[i]) {
            Ok(rule) => {
                let next = acc.push(rule);
                assert forall|j: int| 0 <= j < next.len() implies compiled_effects(next)[j]
                    == #[trigger] next[j] by {
                    if j < acc.len() {
                        assert(compiled_effects(acc)[j] == acc[j]);
                    }
                }
                assert(compiled_effects(next) =~= next);
                read_effects_are_compiled(items, i + 1, next);
            },
            Err(_) => {},
        }
    }
}

/// The subscription rules with the patterns that their names write.
pub open spec fn compiled_subscribes(rules: Seq<SubscribeRuleView>) -> Seq<SubscribeRuleView> {
    Seq::new(rules.len(), |i: int| SubscribeRuleView { pattern: pattern_of(rules[i].api), ..rules[i] })
}

fn compile_subscribes(rules: &Vec<SubscribeRule>) -> (r: Vec<SubscribeRule>)
    ensures
        r.deep_view() == compiled_subscribes(rules.deep_view()),
{
    let ghost v = rules.deep_view();
    let mut out: Vec<SubscribeRule> = list::empty();
    let mut i: usize = 0;
    while i < rules.len()
        invariant
            i <= rules@.len(),
            v == rules.deep_view(),
            out.deep_view() == compiled_subscribes(v).take(i as int),
        decreases rules@.len() - i,
    {
        assert(v[i as int] == rules@[i as int].deep_view());
        list::push(
            &mut out,
            SubscribeRule { pattern: ApiPattern::new(&rules[i].api), api: rules[i].api.dup(), event: rules[i].event.dup(), handler_arg: rules[i].handler_arg.dup() },
        );
        i += 1;
        assert(out.deep_view() =~= compiled_subscribes(v).take(i as int));
    }
    assert(compiled_subscribes(v).take(v.len() as int) =~= compiled_subscribes(v));
    out
}

proof fn read_subscribes_are_compiled(items: Seq<TreeView>, i: int, acc: Seq<SubscribeRuleView>)
    requires
        compiled_subscribes(acc) == acc,
    ensures
        subscribe_rules_from(items, i, acc) matches Ok(rules) ==> compiled_subscribes(rules) == rules,
    decreases items.len() - i,
{
    if 0 <= i < items.len() {
        match subscribe_rule_of(items[i]) {
            Ok(rule) => {
                let next = acc.push(rule);
                assert forall|j: int| 0 <= j < next.len() implies compiled_subscribes(next)[j]
                    == #[trigger] next[j] by {
                    if j < acc.len() {
                        assert(compiled_subscribes(acc)[j] == acc[j]);
                    }
                }
                assert(compiled_subscribes(next) =~= next);
                read_subscribes_are_compiled(items, i + 1, next);
            },
            Err(_) => {},
        }
    }
}

/// The route rules with the patterns that their names write.
pub open spec fn compiled_routes(rules: Seq<RouteRuleView>) -> Seq<RouteRuleView> {
    Seq::new(rules.len(), |i: int| RouteRuleView { pattern: pattern_of(rules[i].api), ..rules[i] })
}

fn compile_routes(rules: &Vec<RouteRule>) -> (r: Vec<RouteRule>)
    ensures
        r.deep_view() == compiled_routes(rules.deep_view()),
{
    let ghost v = rules.deep_view();
    let mut out: Vec<RouteRule> = list::empty();
    let mut i: usize = 0;
    while i < rules.len()
        invariant
            i <= rules@.len(),
            v == rules.deep_view(),
            out.deep_view() == compiled_routes(v).take(i as int),
        decreases rules@.len() - i,
    {
        assert(v[i as int] == rules@[i as int].deep_view());
        list::push(
            &mut out,
            RouteRule { pattern: ApiPattern::new(&rules[i].api), api: rules[i].api.dup(), method: rules[i].method.dup(), path: rules[i].path.dup(), handler_arg: rules[i].handler_arg.dup(), prefix: rules[i].prefix.dup() },
        );
        i += 1;
        assert(out.deep_view() =~= compiled_routes(v).take(i as int));
    }
    assert(compiled_routes(v).take(v.len() as int) =~= compiled_routes(v));
    out
}

proof fn read_routes_are_compiled(items: Seq<TreeView>, i: int, acc: Seq<RouteRuleView>)
    requires
        compiled_routes(acc) == acc,
    ensures
        route_rules_from(items, i, acc) matches Ok(rules) ==> compiled_routes(rules) == rules,
    decreases items.len() - i,
{
    if 0 <= i < items.len() {
        match route_rule_of(items[i]) {
            Ok(rule) => {
                let next = acc.push(rule);
                assert forall|j: int| 0 <= j < next.len() implies compiled_routes(next)[j]
                    == #[trigger] next[j] by {
                    if j < acc.len() {
                        assert(compiled_routes(acc)[j] == acc[j]);
                    }
                }
                assert(compiled_routes(next) =~= next);
                read_routes_are_compiled(items, i + 1, next);
            },
            Err(_) => {},
        }
    }
}

/// The filter rules with the patterns that their names write.
pub open spec fn compiled_filters(rules: Seq<FilterRuleView>) -> Seq<FilterRuleView> {
    Seq::new(rules.len(), |i: int| FilterRuleView { api: rules[i].api, pattern: pattern_of(rules[i].api) })
}

fn compile_filters(rules: &Vec<FilterRule>) -> (r: Vec<FilterRule>)
    ensures
        r.deep_view() == compiled_filters(rules.deep_view()),
{
    let ghost v = rules.deep_view();
    let mut out: Vec<FilterRule> = list::empty();
    let mut i: usize = 0;
    while i < rules.len()
        invariant
            i <= rules@.len(),
            v == rules.deep_view(),
            out.deep_view() == compiled_filters(v).take(i as int),
        decreases rules@.len() - i,
    {
        assert(v[i as int] == rules@[i as int].deep_view());
        list::push(
            &mut out,
            FilterRule { pattern: ApiPattern::new(&rules[i].api), api: rules[i].api.dup() },
        );
        i += 1;
        assert(out.deep_view() =~= compiled_filters(v).take(i as int));
    }
    assert(compiled_filters(v).take(v.len() as int) =~= compiled_filters(v));
    out
}

proof fn read_filters_are_compiled(items: Seq<TreeView>, i: int, acc: Seq<FilterRuleView>)
    requires
        compiled_filters(acc) == acc,
    ensures
        filter_rules_from(items, i, acc) matches Ok(rules) ==> compiled_filters(rules) == rules,
    decreases items.len() - i,
{
    if 0 <= i < items.len() {
        match filter_rule_of(items[i]) {
            Ok(rule) => {
                let next = acc.push(rule);
                assert forall|j: int| 0 <= j < next.len() implies compiled_filters(next)[j]
                    == #[trigger] next[j] by {
                    if j < acc.len() {
                        assert(compiled_filters(acc)[j] == acc[j]);
                    }
                }
                assert(compiled_filters(next) =~= next);
                read_filters_are_compiled(items, i + 1, next);
            },
            Err(_) => {},
        }
    }
}

/// The callback rules with the patterns that their names write.
pub open spec fn compiled_callbacks(rules: Seq<CallbackRuleView>) -> Seq<CallbackRuleView> {
    Seq::new(rules.len(), |i: int| CallbackRuleView { pattern: pattern_of(rules[i].api), ..rules[i] })
}

fn compile_callbacks(rules: &Vec<CallbackRule>) -> (r: Vec<CallbackRule>)
    ensures
        r.deep_view() == compiled_callbacks(rules.deep_view()),
{
    let ghost v = rules.deep_view();
    let mut out: Vec<CallbackRule> = list::empty();
    let mut i: usize = 0;
    while i < rules.len()
        invariant
            i <= rules@.len(),
            v == rules.deep_view(),
            out.deep_view() == compiled_callbacks(v).take(i as int),
        decreases rules@.len() - i,
    {
        assert(v[i as int] == rules@[i as int].deep_view());
        list::push(
            &mut out,
            CallbackRule { pattern: ApiPattern::new(&rules[i].api), api: rules[i].api.dup(), arg: rules[i].arg.dup(), param: rules[i].param.dup() },
        );
        i += 1;
        assert(out.deep_view() =~= compiled_callbacks(v).take(i as int));
    }
    assert(compiled_callbacks(v).take(v.len() as int) =~= compiled_callbacks(v));
    out
}

proof fn read_callbacks_are_compiled(items: Seq<TreeView>, i: int, acc: Seq<CallbackRuleView>)
    requires
        compiled_callbacks(acc) == acc,
    ensures
        callback_rules_from(items, i, acc) matches Ok(rules) ==> compiled_callbacks(rules) == rules,
    decreases items.len() - i,
{
    if 0 <= i < items.len() {
        match callback_rule_of(items[i]) {
            Ok(rule) => {
                let next = acc.push(rule);
                assert forall|j: int| 0 <= j < next.len() implies compiled_callbacks(next)[j]
                    == #[trigger] next[j] by {
                    if j < acc.len() {
                        assert(compiled_callbacks(acc)[j] == acc[j]);
                    }
                }
                assert(compiled_callbacks(next) =~= next);
                read_callbacks_are_compiled(items, i + 1, next);
            },
            Err(_) => {},
        }
    }
}

/// A catalog with the patterns that the names of its rules write.
pub open spec fn compiled(c: CatalogView) -> CatalogView {
    CatalogView {
        effect: compiled_effects(c.effect),
        subscribe: compiled_subscribes(c.subscribe),
        route: compiled_routes(c.route),
        filter: compiled_filters(c.filter),
        callback: compiled_callbacks(c.callback),
        literal: compiled_filters(c.literal),
        log: compiled_filters(c.log),
        ..c
    }
}

/// Every rule has the pattern that its name writes.
pub open spec fn is_compiled(c: CatalogView) -> bool {
    &&& forall|i: int|
        0 <= i < c.effect.len() ==> (#[trigger] c.effect[i]).pattern == pattern_of(c.effect[i].api)
    &&& forall|i: int|
        0 <= i < c.subscribe.len() ==> (#[trigger] c.subscribe[i]).pattern == pattern_of(
            c.subscribe[i].api,
        )
    &&& forall|i: int|
        0 <= i < c.route.len() ==> (#[trigger] c.route[i]).pattern == pattern_of(c.route[i].api)
    &&& forall|i: int|
        0 <= i < c.filter.len() ==> (#[trigger] c.filter[i]).pattern == pattern_of(c.filter[i].api)
    &&& forall|i: int|
        0 <= i < c.callback.len() ==> (#[trigger] c.callback[i]).pattern == pattern_of(
            c.callback[i].api,
        )
    &&& forall|i: int|
        0 <= i < c.literal.len() ==> (#[trigger] c.literal[i]).pattern == pattern_of(
            c.literal[i].api,
        )
    &&& forall|i: int|
        0 <= i < c.log.len() ==> (#[trigger] c.log[i]).pattern == pattern_of(c.log[i].api)
}

proof fn read_is_compiled(t: TreeView)
    ensures
        catalog_of(t) matches Ok(c) ==> compiled(c) == c,
{
    let no_effects: Seq<EffectRuleView> = seq![];
    assert(compiled_effects(no_effects) =~= no_effects);
    match item_list(t, "effect"@) {
        Ok(items) => {
            read_effects_are_compiled(items, 0, no_effects);
        },
        Err(_) => {},
    }
    let no_subscribes: Seq<SubscribeRuleView> = seq![];
    assert(compiled_subscribes(no_subscribes) =~= no_subscribes);
    match item_list(t, "subscribe"@) {
        Ok(items) => {
            read_subscribes_are_compiled(items, 0, no_subscribes);
        },
        Err(_) => {},
    }
    let no_routes: Seq<RouteRuleView> = seq![];
    assert(compiled_routes(no_routes) =~= no_routes);
    match item_list(t, "route"@) {
        Ok(items) => {
            read_routes_are_compiled(items, 0, no_routes);
        },
        Err(_) => {},
    }
    let no_filters: Seq<FilterRuleView> = seq![];
    assert(compiled_filters(no_filters) =~= no_filters);
    match item_list(t, "filter"@) {
        Ok(items) => {
            read_filters_are_compiled(items, 0, no_filters);
        },
        Err(_) => {},
    }
    match item_list(t, "literal"@) {
        Ok(items) => {
            read_filters_are_compiled(items, 0, no_filters);
        },
        Err(_) => {},
    }
    match item_list(t, "log"@) {
        Ok(items) => {
            read_filters_are_compiled(items, 0, no_filters);
        },
        Err(_) => {},
    }
    let no_callbacks: Seq<CallbackRuleView> = seq![];
    assert(compiled_callbacks(no_callbacks) =~= no_callbacks);
    match item_list(t, "callback"@) {
        Ok(items) => {
            read_callbacks_are_compiled(items, 0, no_callbacks);
        },
        Err(_) => {},
    }
}

proof fn built_in_is_compiled()
    ensures
        compiled(built_in()) == built_in(),
{
    match tree::toml_document(DEFAULT@) {
        Ok(t) => {
            read_is_compiled(t);
        },
        Err(_) => {},
    }
    assert(compiled(no_rules()) =~= no_rules());
}

/// Whatever a project adds, every rule has the pattern that its name writes; with nothing added
/// the rules are the built-in ones.
pub proof fn extensions_are_compiled(extra: Option<CatalogView>)
    ensures
        is_compiled(extended(extra)),
        is_compiled(built_in()),
        extended(None) == built_in(),
{
    built_in_is_compiled();
    let c = built_in();
    assert forall|i: int| 0 <= i < c.effect.len() implies (#[trigger] c.effect[i]).pattern
        == pattern_of(c.effect[i].api) by {
        assert(compiled_effects(c.effect)[i] == c.effect[i]);
    }
    assert forall|i: int| 0 <= i < c.subscribe.len() implies (#[trigger] c.subscribe[i]).pattern
        == pattern_of(c.subscribe[i].api) by {
        assert(compiled_subscribes(c.subscribe)[i] == c.subscribe[i]);
    }
    assert forall|i: int| 0 <= i < c.route.len() implies (#[trigger] c.route[i]).pattern
        == pattern_of(c.route[i].api) by {
        assert(compiled_routes(c.route)[i] == c.route[i]);
    }
    assert forall|i: int| 0 <= i < c.filter.len() implies (#[trigger] c.filter[i]).pattern
        == pattern_of(c.filter[i].api) by {
        assert(compiled_filters(c.filter)[i] == c.filter[i]);
    }
    assert forall|i: int| 0 <= i < c.callback.len() implies (#[trigger] c.callback[i]).pattern
        == pattern_of(c.callback[i].api) by {
        assert(compiled_callbacks(c.callback)[i] == c.callback[i]);
    }
    assert forall|i: int| 0 <= i < c.literal.len() implies (#[trigger] c.literal[i]).pattern
        == pattern_of(c.literal[i].api) by {
        assert(compiled_filters(c.literal)[i] == c.literal[i]);
    }
    assert forall|i: int| 0 <= i < c.log.len() implies (#[trigger] c.log[i]).pattern
        == pattern_of(c.log[i].api) by {
        assert(compiled_filters(c.log)[i] == c.log[i]);
    }
}

impl Default for Catalog {
    /// No rules.
    fn default() -> (r: Self)
        ensures
            r.deep_view() == no_rules(),
    {
        Catalog {
            effect: list::empty(),
            subscribe: list::empty(),
            route: list::empty(),
            filter: list::empty(),
            callback: list::empty(),
            literal: list::empty(),
            log: list::empty(),
            access: AccessKeys { keys: list::empty(), grants: list::empty() },
            schema: SchemaKeys { roots: list::empty(), docs: list::empty() },
        }
    }
}

impl Catalog {
    /// The built-in rules.
    pub fn default_catalog() -> (r: Catalog)
        ensures
            r.deep_view() == built_in(),
            is_compiled(r.deep_view()),
    {
        proof {
            extensions_are_compiled(None);
        }
        match tree::parse_toml(DEFAULT) {
            Ok(t) => match read_catalog(&t) {
                Ok(c) => c,
                Err(_) => Catalog::default(),
            },
            Err(_) => Catalog::default(),
        }
    }

    /// The built-in rules plus the project's own (same form) from `[catalog]` in `merak.toml`.
    pub fn with_extensions(extra: Option<Catalog>) -> (r: Catalog)
        ensures
            r.deep_view() == extended(extra.deep_view()),
            is_compiled(r.deep_view()),
    {
        proof {
            extensions_are_compiled(extra.deep_view());
        }
        let mut c = Catalog::default_catalog();
        if let Some(e) = extra {
            list::append(&mut c.effect, e.effect);
            list::append(&mut c.subscribe, e.subscribe);
            list::append(&mut c.route, e.route);
            list::append(&mut c.filter, e.filter);
            list::append(&mut c.callback, e.callback);
            list::append(&mut c.literal, e.literal);
            list::append(&mut c.log, e.log);
            list::append(&mut c.access.keys, e.access.keys);
            list::append(&mut c.access.grants, e.access.grants);
            list::append(&mut c.schema.roots, e.schema.roots);
            list::append(&mut c.schema.docs, e.schema.docs);
        }
        c.compile()
    }

    /// The catalog with the patterns that the names of its rules write.
    fn compile(self) -> (r: Catalog)
        ensures
            r.deep_view() == compiled(self.deep_view()),
    {
        Catalog {
            effect: compile_effects(&self.effect),
            subscribe: compile_subscribes(&self.subscribe),
            route: compile_routes(&self.route),
            filter: compile_filters(&self.filter),
            callback: compile_callbacks(&self.callback),
            literal: compile_filters(&self.literal),
            log: compile_filters(&self.log),
            access: self.access,
            schema: self.schema,
        }
    }
}

} // verus!
