//! Plain words for what changes do: names, lists, effects, requirements and calls.

use crate::clauses;
use crate::list;
use crate::list::Plain;
use crate::ordered;
use crate::ordered::SortedSet;
use crate::text;
use crate::text::Text;
use vstd::prelude::*;

verus! {

// ---- lists

/// A text in code font.
pub open spec fn ticked(s: Text) -> Text {
    "`"@ + s + "`"@
}

/// A text in code font.
pub fn tick(s: &str) -> (r: String)
    ensures
        r@ == ticked(s@),
{
    text::cat3("`", s, "`")
}

/// Texts in code font.
pub open spec fn all_ticked(xs: Seq<Text>) -> Seq<Text> {
    Seq::new(xs.len(), |i: int| ticked(xs[i]))
}

fn tick_each(xs: &Vec<String>) -> (r: Vec<String>)
    ensures
        r.deep_view() == all_ticked(xs.deep_view()),
{
    let ghost v = xs.deep_view();
    let mut out: Vec<String> = list::empty();
    let mut i: usize = 0;
    while i < xs.len()
        invariant
            i <= xs@.len(),
            v == xs.deep_view(),
            out.deep_view() == all_ticked(v).take(i as int),
        decreases xs@.len() - i,
    {
        assert(v[i as int] == xs@[i as int]@);
        list::push(&mut out, tick(&xs[i]));
        i += 1;
        assert(out.deep_view() =~= all_ticked(v).take(i as int));
    }
    assert(all_ticked(v).take(v.len() as int) =~= all_ticked(v));
    out
}

/// Texts in code font.
pub fn tick_all(xs: &Vec<String>) -> (r: Vec<String>)
    ensures
        r.deep_view() == all_ticked(xs.deep_view()),
{
    tick_each(xs)
}

/// Parts joined by commas, the last by "and".
pub open spec fn in_words(parts: Seq<Text>) -> Text {
    if parts.len() == 0 {
        ""@
    } else if parts.len() == 1 {
        parts[0]
    } else {
        text::joined(parts.drop_last(), ", "@) + " and "@ + parts.last()
    }
}

/// Joins parts by commas, the last by "and".
pub fn join_and(parts: &Vec<String>) -> (r: String)
    ensures
        r@ == in_words(parts.deep_view()),
{
    let n: usize = parts.len();
    let ghost v = parts.deep_view();
    if n == 0 {
        "".to_owned()
    } else if n == 1 {
        assert(v[0] == parts@[0]@);
        parts[0].dup()
    } else {
        let mut init: Vec<String> = list::empty();
        let mut i: usize = 0;
        while i < n - 1
            invariant
                i <= n - 1,
                n == parts@.len(),
                v == parts.deep_view(),
                init.deep_view() == v.take(i as int),
            decreases n - i,
        {
            assert(v[i as int] == parts@[i as int]@);
            list::push(&mut init, parts[i].dup());
            i += 1;
            assert(init.deep_view() =~= v.take(i as int));
        }
        assert(v.take(n - 1) =~= v.drop_last());
        assert(v[n - 1] == parts@[n - 1]@);
        text::cat3(&text::join(&init, ", "), " and ", &parts[n - 1])
    }
}

/// Values in code font, or "nothing".
pub open spec fn listed(values: Seq<Text>) -> Text {
    if values.len() == 0 {
        "nothing"@
    } else {
        in_words(all_ticked(values))
    }
}

/// Values in code font, or "nothing".
pub fn list_values(values: &Vec<String>) -> (r: String)
    ensures
        r@ == listed(values.deep_view()),
{
    if values.len() == 0 {
        "nothing".to_owned()
    } else {
        join_and(&tick_all(values))
    }
}

/// A number of things.
pub open spec fn counted(n: nat, one: Text, many: Text) -> Text {
    text::decimal(n) + " "@ + (if n == 1 {
        one
    } else {
        many
    })
}

/// A number of things.
pub fn plural(n: usize, one: &str, many: &str) -> (r: String)
    ensures
        r@ == counted(n as nat, one@, many@),
{
    if n == 1 {
        text::cat3(&text::number(n as u64), " ", one)
    } else {
        text::cat3(&text::number(n as u64), " ", many)
    }
}

/// The first texts of a list.
pub open spec fn first(xs: Seq<Text>, n: int) -> Seq<Text> {
    if xs.len() <= n {
        xs
    } else {
        xs.take(n)
    }
}

/// The first texts of a list.
pub fn take_first(xs: &Vec<String>, n: usize) -> (r: Vec<String>)
    ensures
        r.deep_view() == first(xs.deep_view(), n as int),
{
    let ghost v = xs.deep_view();
    let mut out: Vec<String> = list::empty();
    let mut i: usize = 0;
    while i < xs.len() && i < n
        invariant
            i <= xs@.len(),
            i <= n,
            v == xs.deep_view(),
            out.deep_view() == v.take(i as int),
        decreases xs@.len() - i,
    {
        assert(v[i as int] == xs@[i as int]@);
        list::push(&mut out, xs[i].dup());
        i += 1;
        assert(out.deep_view() =~= v.take(i as int));
    }
    assert(v.take(v.len() as int) =~= v);
    out
}

/// How many there are beyond the first `n`, where there are any.
pub open spec fn more_than(len: nat, n: int) -> Text {
    if len > n {
        " and "@ + text::decimal((len - n) as nat) + " more"@
    } else {
        ""@
    }
}

/// How many there are beyond the first `n`.
pub fn and_more(len: usize, n: usize) -> (r: String)
    ensures
        r@ == more_than(len as nat, n as int),
{
    if len > n {
        text::cat3(" and ", &text::number((len - n) as u64), " more")
    } else {
        "".to_owned()
    }
}

/// The texts from index `i` on that are not empty.
pub open spec fn filled_from(xs: Seq<Text>, i: int) -> Seq<Text>
    decreases xs.len() - i,
{
    if 0 <= i < xs.len() {
        (if xs[i].len() > 0 {
            seq![xs[i]]
        } else {
            seq![]
        }) + filled_from(xs, i + 1)
    } else {
        seq![]
    }
}

fn filled(xs: &Vec<String>) -> (r: Vec<String>)
    ensures
        r.deep_view() == filled_from(xs.deep_view(), 0),
{
    let ghost v = xs.deep_view();
    let mut out: Vec<String> = list::empty();
    let mut i: usize = 0;
    while i < xs.len()
        invariant
            i <= xs@.len(),
            v == xs.deep_view(),
            out.deep_view() + filled_from(v, i as int) == filled_from(v, 0),
        decreases xs@.len() - i,
    {
        assert(v[i as int] == xs@[i as int]@);
        if !xs[i].as_str().is_empty() {
            list::push(&mut out, xs[i].dup());
        }
        i += 1;
    }
    out
}

/// The pieces of a text that are not empty.
pub open spec fn filled_pieces(s: Text, sep: Text) -> Seq<Text> {
    filled_from(text::pieces(s, sep), 0)
}

/// The pieces of a text that are not empty.
pub fn split_filled(s: &str, sep: &str) -> (r: Vec<String>)
    ensures
        r.deep_view() == filled_pieces(s@, sep@),
{
    filled(&text::split(s, sep))
}

/// The texts from index `i` on that another list does not hold.
pub open spec fn lacking_from(others: Seq<Text>, xs: Seq<Text>, i: int) -> Seq<Text>
    decreases xs.len() - i,
{
    if 0 <= i < xs.len() {
        (if !others.contains(xs[i]) {
            seq![xs[i]]
        } else {
            seq![]
        }) + lacking_from(others, xs, i + 1)
    } else {
        seq![]
    }
}

fn lacking(others: &Vec<String>, xs: &Vec<String>) -> (r: Vec<String>)
    ensures
        r.deep_view() == lacking_from(others.deep_view(), xs.deep_view(), 0),
{
    let ghost v = xs.deep_view();
    let mut out: Vec<String> = list::empty();
    let mut i: usize = 0;
    while i < xs.len()
        invariant
            i <= xs@.len(),
            v == xs.deep_view(),
            out.deep_view() + lacking_from(others.deep_view(), v, i as int) == lacking_from(others.deep_view(), v, 0),
        decreases xs@.len() - i,
    {
        assert(v[i as int] == xs@[i as int]@);
        if !list::has_str(others, &xs[i]) {
            list::push(&mut out, xs[i].dup());
        }
        i += 1;
    }
    out
}

/// The texts that another list does not hold.
pub open spec fn only_here(xs: Seq<Text>, others: Seq<Text>) -> Seq<Text> {
    lacking_from(others, xs, 0)
}

/// The texts that another list does not hold.
pub fn not_in(xs: &Vec<String>, others: &Vec<String>) -> (r: Vec<String>)
    ensures
        r.deep_view() == only_here(xs.deep_view(), others.deep_view()),
{
    lacking(others, xs)
}

// ---- values and names

/// A character of a word at index `i`.
pub open spec fn word_at(s: Text, i: int) -> bool {
    0 <= i < s.len() && (text::alphanumeric(s[i]) || s[i] == '_' || s[i] == '=')
}

/// The text with each value that is not known as an ellipsis.
pub open spec fn blanked(s: Text) -> Text {
    Seq::new(
        s.len(),
        |i: int|
            if s[i] == '_' && !word_at(s, i - 1) && !word_at(s, i + 1) {
                '…'
            } else {
                s[i]
            },
    )
}

fn is_word(c: char) -> (r: bool)
    ensures
        r == (text::alphanumeric(c) || c == '_' || c == '='),
{
    text::is_alphanumeric(c) || c == '_' || c == '='
}

/// A value that is not known is written `_`; people read an ellipsis.
pub fn blanks(s: &str) -> (r: String)
    ensures
        r@ == blanked(s@),
{
    let v = text::chars_of(s);
    let n: usize = v.len();
    let mut out: Vec<char> = Vec::new();
    let mut i: usize = 0;
    while i < n
        invariant
            i <= n,
            n == v@.len(),
            v@ == s@,
            out@ == blanked(v@).take(i as int),
        decreases n - i,
    {
        let before = i > 0 && is_word(v[i - 1]);
        let after = n - i > 1 && is_word(v[i + 1]);
        if v[i] == '_' && !before && !after {
            out.push('…');
        } else {
            out.push(v[i]);
        }
        i += 1;
        assert(out@ =~= blanked(v@).take(i as int));
    }
    assert(blanked(v@).take(v@.len() as int) =~= blanked(v@));
    text::text_of(&out, 0, out.len())
}

/// A segment of a name that is no closure.
pub open spec fn is_plain(seg: Text) -> bool {
    !text::begins(seg, "$"@) && !text::begins(seg, "<"@) && !text::has_text(seg, "("@)
        && !text::has_text(seg, "#"@)
}

/// The segments from index `i` on up to the first closure.
pub open spec fn plain_from(segs: Seq<Text>, i: int) -> Seq<Text>
    decreases segs.len() - i,
{
    if 0 <= i < segs.len() && is_plain(segs[i]) {
        seq![segs[i]] + plain_from(segs, i + 1)
    } else {
        seq![]
    }
}

/// The name of what a subject is about: a closure goes by its function.
pub open spec fn subject_name(subject: Text) -> Text {
    let local = text::after_last(subject, "::"@);
    let kept = plain_from(text::pieces(local, "."@), 0);
    if kept.len() == 0 {
        local
    } else {
        text::joined(kept, "."@)
    }
}

/// The name of what a subject is about.
pub fn name(subject: &str) -> (r: String)
    ensures
        r@ == subject_name(subject@),
{
    let local = text::last_piece(subject, "::");
    let segs = text::split(&local, ".");
    let ghost v = segs.deep_view();
    let mut kept: Vec<String> = list::empty();
    let mut i: usize = 0;
    while i < segs.len()
        invariant_except_break
            i <= segs@.len(),
            v == segs.deep_view(),
            kept.deep_view() + plain_from(v, i as int) == plain_from(v, 0),
        ensures
            kept.deep_view() == plain_from(v, 0),
        decreases segs@.len() - i,
    {
        assert(v[i as int] == segs@[i as int]@);
        let seg = &segs[i];
        if !text::starts_with(seg, "$") && !text::starts_with(seg, "<") && !text::contains(seg, "(")
            && !text::contains(seg, "#") {
            list::push(&mut kept, seg.dup());
            i += 1;
        } else {
            assert(kept.deep_view() + plain_from(v, i as int) =~= kept.deep_view());
            break;
        }
    }
    if kept.len() == 0 {
        local
    } else {
        text::join(&kept, ".")
    }
}

/// The two parts of a text around the first separator; the second is empty without one.
pub open spec fn split_two(s: Text, sep: Text) -> (Text, Text) {
    match text::parted(s, sep) {
        Some(p) => p,
        None => (s, ""@),
    }
}

/// The two parts of a text around the first separator.
pub fn two_parts(s: &str, sep: &str) -> (r: (String, String))
    ensures
        (r.0@, r.1@) == split_two(s@, sep@),
{
    match text::split_once(s, sep) {
        Some(p) => p,
        None => (s.to_owned(), "".to_owned()),
    }
}

// ---- access

/// How to name the field that an access rule tests.
pub open spec fn who_of(field: Text) -> Text {
    let w = text::lowercase(text::after_last(field, "."@));
    if w == "role"@ || w == "roles"@ {
        "role "@
    } else if w == "permission"@ || w == "permissions"@ {
        "permission "@
    } else if w == "scope"@ || w == "scopes"@ {
        "scope "@
    } else {
        ticked(field) + " = "@
    }
}

/// How to name the field that an access rule tests.
pub fn who(field: &str) -> (r: String)
    ensures
        r@ == who_of(field@),
{
    let w = text::to_lower(&text::last_piece(field, "."));
    if text::same(&w, "role") || text::same(&w, "roles") {
        "role ".to_owned()
    } else if text::same(&w, "permission") || text::same(&w, "permissions") {
        "permission ".to_owned()
    } else if text::same(&w, "scope") || text::same(&w, "scopes") {
        "scope ".to_owned()
    } else {
        text::cat2(&tick(field), " = ")
    }
}

/// The key of a requirement, as one thing.
pub open spec fn requirement_key(req: Text) -> Text {
    text::trimmed_end(clauses::head(req, "="@), "s"@)
}

/// The key of a requirement, as one thing.
pub fn key_of(req: &str) -> (r: String)
    ensures
        r@ == requirement_key(req@),
{
    text::trim_end(&clauses::head_of(req, "="), "s")
}

/// One requirement in words.
pub open spec fn requirement(req: Text) -> Text {
    let (k, v) = split_two(req, "="@);
    if v == "_"@ {
        "a "@ + requirement_key(req) + " chosen by its callers"@
    } else if k == "permission"@ || k == "permissions"@ {
        "the "@ + ticked(v) + " permission"@
    } else if k == "role"@ || k == "roles"@ {
        "role "@ + ticked(v)
    } else if k == "scope"@ || k == "scopes"@ {
        "the "@ + ticked(v) + " scope"@
    } else if k == "public"@ && v == "true"@ {
        "public access (no login)"@
    } else if (k == "admin"@ || k == "isAdmin"@) && v == "true"@ {
        "an admin"@
    } else {
        ticked(req)
    }
}

fn say_requirement(req: &str) -> (r: String)
    ensures
        r@ == requirement(req@),
{
    let (k, v) = two_parts(req, "=");
    if text::same(&v, "_") {
        text::cat3("a ", &key_of(req), " chosen by its callers")
    } else if text::same(&k, "permission") || text::same(&k, "permissions") {
        text::cat3("the ", &tick(&v), " permission")
    } else if text::same(&k, "role") || text::same(&k, "roles") {
        text::cat2("role ", &tick(&v))
    } else if text::same(&k, "scope") || text::same(&k, "scopes") {
        text::cat3("the ", &tick(&v), " scope")
    } else if text::same(&k, "public") && text::same(&v, "true") {
        "public access (no login)".to_owned()
    } else if (text::same(&k, "admin") || text::same(&k, "isAdmin")) && text::same(&v, "true") {
        "an admin".to_owned()
    } else {
        tick(req)
    }
}

/// Requirements in words.
pub open spec fn each_requirement(xs: Seq<Text>) -> Seq<Text> {
    Seq::new(xs.len(), |i: int| requirement(xs[i]))
}

fn say_each(xs: &Vec<String>) -> (r: Vec<String>)
    ensures
        r.deep_view() == each_requirement(xs.deep_view()),
{
    let ghost v = xs.deep_view();
    let mut out: Vec<String> = list::empty();
    let mut i: usize = 0;
    while i < xs.len()
        invariant
            i <= xs@.len(),
            v == xs.deep_view(),
            out.deep_view() == each_requirement(v).take(i as int),
        decreases xs@.len() - i,
    {
        assert(v[i as int] == xs@[i as int]@);
        list::push(&mut out, say_requirement(&xs[i]));
        i += 1;
        assert(out.deep_view() =~= each_requirement(v).take(i as int));
    }
    assert(each_requirement(v).take(v.len() as int) =~= each_requirement(v));
    out
}

/// A list of requirements in words.
pub open spec fn requirements_text(list: Text) -> Text {
    in_words(each_requirement(text::pieces(list, ", "@)))
}

/// A list of requirements in words.
pub fn requirements(list: &str) -> (r: String)
    ensures
        r@ == requirements_text(list@),
{
    join_and(&say_each(&text::split(list, ", ")))
}

/// The values of a set `{A, B}`.
pub open spec fn values_of(s: Text) -> Option<Seq<Text>> {
    match text::after_prefix(text::trimmed(s), "{"@) {
        Some(t) => match text::before_suffix(t, "}"@) {
            Some(inner) => Some(filled_pieces(inner, ", "@)),
            None => None,
        },
        None => None,
    }
}

/// The values of a set `{A, B}`.
pub fn set_values(s: &str) -> (r: Option<Vec<String>>)
    ensures
        r.deep_view() == values_of(s@),
{
    match text::strip_prefix(&text::trim(s), "{") {
        Some(t) => match text::strip_suffix(&t, "}") {
            Some(inner) => Some(split_filled(&inner, ", ")),
            None => None,
        },
        None => None,
    }
}

/// The field and the values of a membership `field ∈ {A, B}`.
pub open spec fn allowed(p: Text) -> Option<(Text, Seq<Text>)> {
    match text::parted(p, " ∈ "@) {
        Some((f, rest)) => match values_of(rest) {
            Some(vs) => Some((f, vs)),
            None => None,
        },
        None => None,
    }
}

/// The field and the values of a membership `field ∈ {A, B}`.
pub fn parse_set(p: &str) -> (r: Option<(String, Vec<String>)>)
    ensures
        r.deep_view() == allowed(p@),
{
    match text::split_once(p, " ∈ ") {
        Some((f, rest)) => match set_values(&rest) {
            Some(vs) => Some((f, vs)),
            None => None,
        },
        None => None,
    }
}

// ---- effects

/// An effect without the mode in brackets behind it.
pub open spec fn without_mode(e: Text) -> Text {
    match text::parted_last(e, " ("@) {
        Some((core, _)) => if text::ends(e, ")"@) {
            core
        } else {
            e
        },
        None => e,
    }
}

/// An effect without the mode in brackets behind it.
pub fn strip_mode(e: &str) -> (r: String)
    ensures
        r@ == without_mode(e@),
{
    match text::rsplit_once(e, " (") {
        Some((core, _)) => if text::ends_with(e, ")") {
            core
        } else {
            e.to_owned()
        },
        None => e.to_owned(),
    }
}

/// What an effect is about: a thing by name, or one chosen at run time.
pub open spec fn thing(rest: Text, unknown: bool, label: Text, what: Text) -> Text {
    if unknown {
        label + " chosen at runtime"@
    } else {
        ticked(rest) + " "@ + what
    }
}

fn say_thing(rest: &str, unknown: bool, label: &str, what: &str) -> (r: String)
    ensures
        r@ == thing(rest@, unknown, label@, what@),
{
    if unknown {
        text::cat2(label, " chosen at runtime")
    } else {
        text::cat3(&tick(rest), " ", what)
    }
}

/// A request in words: the address where it is known, else the method.
pub open spec fn request(rest: Text, unknown: bool) -> Text {
    let words = text::pieces(rest, " "@);
    if unknown || text::ends(rest, " "@) || words.len() < 2 || words[1].len() == 0 {
        "makes "@ + (if words.len() > 0 && words[0].len() > 0 && !text::has_text(words[0], "<"@) {
            "a "@ + words[0]
        } else {
            "an"@
        }) + " HTTP request"@
    } else {
        "calls "@ + ticked(rest)
    }
}

fn say_request(rest: &str, unknown: bool) -> (r: String)
    ensures
        r@ == request(rest@, unknown),
{
    let words = text::split(rest, " ");
    let ghost v = words.deep_view();
    let second = if words.len() < 2 {
        true
    } else {
        assert(v[1] == words@[1]@);
        words[1].as_str().is_empty()
    };
    if unknown || text::ends_with(rest, " ") || second {
        let method = if words.len() > 0 {
            assert(v[0] == words@[0]@);
            if !words[0].as_str().is_empty() && !text::contains(&words[0], "<") {
                text::cat2("a ", &words[0])
            } else {
                "an".to_owned()
            }
        } else {
            "an".to_owned()
        };
        text::cat3("makes ", &method, " HTTP request")
    } else {
        text::cat2("calls ", &tick(rest))
    }
}

/// An effect in words.
pub open spec fn effect_text(effect: Text) -> Text {
    let e = without_mode(effect);
    let (k, tail) = split_two(e, " "@);
    let rest = text::trimmed(tail);
    let unknown = rest.len() == 0 || text::has_text(rest, "<dynamic>"@);
    if k == "db_write"@ {
        text::replaced(
            "writes "@ + thing(rest, unknown, "a table"@, "table"@),
            "writes `"@,
            "writes the `"@,
        )
    } else if k == "db_read"@ {
        text::replaced(
            "reads "@ + thing(rest, unknown, "a table"@, "table"@),
            "reads `"@,
            "reads the `"@,
        )
    } else if k == "db_query"@ {
        "runs database queries"@
    } else if k == "http"@ {
        request(rest, unknown)
    } else if k == "event_emit"@ {
        "emits "@ + text::replaced(
            thing(rest, unknown, "an event"@, "event"@),
            "emits `"@,
            "emits the `"@,
        )
    } else if k == "queue"@ {
        if unknown {
            "queues background jobs"@
        } else {
            "queues "@ + ticked(rest) + " jobs"@
        }
    } else if k == "fs_write"@ {
        "writes files"@
    } else if k == "fs_read"@ {
        "reads files"@
    } else if k == "cache_write"@ {
        "writes to the cache"@
    } else if k == "cache_read"@ {
        "reads from the cache"@
    } else {
        ticked(e)
    }
}

/// An effect in words: `db_write order (sync)` writes the `order` table.
pub fn effect(e: &str) -> (r: String)
    ensures
        r@ == effect_text(e@),
{
    let e = strip_mode(e);
    let (k, tail) = two_parts(&e, " ");
    let rest = text::trim(&tail);
    let unknown = rest.as_str().is_empty() || text::contains(&rest, "<dynamic>");
    if text::same(&k, "db_write") {
        text::replace(
            &text::cat2("writes ", &say_thing(&rest, unknown, "a table", "table")),
            "writes `",
            "writes the `",
        )
    } else if text::same(&k, "db_read") {
        text::replace(
            &text::cat2("reads ", &say_thing(&rest, unknown, "a table", "table")),
            "reads `",
            "reads the `",
        )
    } else if text::same(&k, "db_query") {
        "runs database queries".to_owned()
    } else if text::same(&k, "http") {
        say_request(&rest, unknown)
    } else if text::same(&k, "event_emit") {
        text::cat2(
            "emits ",
            &text::replace(
                &say_thing(&rest, unknown, "an event", "event"),
                "emits `",
                "emits the `",
            ),
        )
    } else if text::same(&k, "queue") {
        if unknown {
            "queues background jobs".to_owned()
        } else {
            text::cat3("queues ", &tick(&rest), " jobs")
        }
    } else if text::same(&k, "fs_write") {
        "writes files".to_owned()
    } else if text::same(&k, "fs_read") {
        "reads files".to_owned()
    } else if text::same(&k, "cache_write") {
        "writes to the cache".to_owned()
    } else if text::same(&k, "cache_read") {
        "reads from the cache".to_owned()
    } else {
        tick(&e)
    }
}

/// The event that an effect comes through.
pub open spec fn via_text(e: Text) -> Text {
    let parts = text::pieces(e, "via "@);
    if parts.len() > 1 {
        "the "@ + ticked(text::trimmed_end(parts[1], ")"@)) + " event"@
    } else {
        "an event"@
    }
}

/// The event that an effect comes through.
pub fn via(e: &str) -> (r: String)
    ensures
        r@ == via_text(e@),
{
    let parts = text::split(e, "via ");
    if parts.len() > 1 {
        assert(parts.deep_view()[1] == parts@[1]@);
        text::cat3("the ", &tick(&text::trim_end(&parts[1], ")")), " event")
    } else {
        "an event".to_owned()
    }
}

/// The table that an effect of a kind names.
pub open spec fn table_of(k: Text, e: Text) -> Option<Text> {
    match text::after_prefix(without_mode(e), k) {
        Some(t) => if text::has_text(text::trimmed(t), "<"@) {
            None
        } else {
            Some(text::trimmed(t))
        },
        None => None,
    }
}

fn read_table(k: &str, e: &str) -> (r: Option<String>)
    ensures
        r.deep_view() == table_of(k@, e@),
{
    match text::strip_prefix(&strip_mode(e), k) {
        Some(t) => {
            let t = text::trim(&t);
            if text::contains(&t, "<") {
                None
            } else {
                Some(t)
            }
        },
        None => None,
    }
}

/// The tables that the effects of a kind from index `i` on name.
pub open spec fn tables_from(k: Text, items: Seq<Text>, i: int) -> Seq<Text>
    decreases items.len() - i,
{
    if 0 <= i < items.len() {
        (match table_of(k, items[i]) {
            Some(t) => seq![t],
            None => seq![],
        }) + tables_from(k, items, i + 1)
    } else {
        seq![]
    }
}

fn tables(k: &str, items: &Vec<String>) -> (r: Vec<String>)
    ensures
        r.deep_view() == tables_from(k@, items.deep_view(), 0),
{
    let ghost v = items.deep_view();
    let mut out: Vec<String> = list::empty();
    let mut i: usize = 0;
    while i < items.len()
        invariant
            i <= items@.len(),
            v == items.deep_view(),
            out.deep_view() + tables_from(k@, v, i as int) == tables_from(k@, v, 0),
        decreases items@.len() - i,
    {
        assert(v[i as int] == items@[i as int]@);
        if let Some(t) = read_table(k, &items[i]) {
            list::push(&mut out, t);
        }
        i += 1;
    }
    out
}

/// The phrases of the effects from index `i` on, given the tables that are read and written.
pub open spec fn phrases_from(items: Seq<Text>, read: Seq<Text>, written: Seq<Text>, i: int) -> Seq<Text>
    decreases items.len() - i,
{
    if 0 <= i < items.len() {
        let e = items[i];
        let w = table_of("db_write "@, e);
        let r = table_of("db_read "@, e);
        (if text::begins(e, "+"@) {
            seq![e]
        } else if w is Some && read.contains(w->0) {
            seq!["reads and writes the "@ + ticked(w->0) + " table"@]
        } else if r is Some && written.contains(r->0) {
            seq![]
        } else {
            seq![effect_text(e)]
        }) + phrases_from(items, read, written, i + 1)
    } else {
        seq![]
    }
}

/// Effect phrases, with a table that is both read and written said once.
pub open spec fn phrases(items: Seq<Text>) -> Seq<Text> {
    phrases_from(
        items,
        tables_from("db_read "@, items, 0),
        tables_from("db_write "@, items, 0),
        0,
    )
}

/// Effect phrases, with a table that is both read and written said once.
pub fn effects(items: &Vec<String>) -> (r: Vec<String>)
    ensures
        r.deep_view() == phrases(items.deep_view()),
{
    let ghost v = items.deep_view();
    let read = tables("db_read ", items);
    let written = tables("db_write ", items);
    let ghost rv = read.deep_view();
    let ghost wv = written.deep_view();
    let mut out: Vec<String> = list::empty();
    let mut i: usize = 0;
    while i < items.len()
        invariant
            i <= items@.len(),
            v == items.deep_view(),
            rv == read.deep_view(),
            wv == written.deep_view(),
            out.deep_view() + phrases_from(v, rv, wv, i as int) == phrases_from(v, rv, wv, 0),
        decreases items@.len() - i,
    {
        assert(v[i as int] == items@[i as int]@);
        let e = &items[i];
        if text::starts_with(e, "+") {
            list::push(&mut out, e.dup());
        } else {
            let w = read_table("db_write ", e);
            let both = match &w {
                Some(t) => list::has(&read, t),
                None => false,
            };
            if both {
                if let Some(t) = w {
                    list::push(&mut out, text::cat3("reads and writes the ", &tick(&t), " table"));
                }
            } else {
                let said = match read_table("db_read ", e) {
                    Some(t) => list::has(&written, &t),
                    None => false,
                };
                if !said {
                    list::push(&mut out, effect(e));
                }
            }
        }
        i += 1;
    }
    out
}

/// A list of effects in words; none for an empty list.
pub open spec fn effects_said(s: Text) -> Option<Text> {
    let items = filled_pieces(s, ", "@);
    if items.len() == 0 {
        None
    } else {
        Some(in_words(phrases(items)))
    }
}

/// A list of effects in words; none for an empty list.
pub fn effects_list(s: &str) -> (r: Option<String>)
    ensures
        r.deep_view() == effects_said(s@),
{
    let items = split_filled(s, ", ");
    if items.len() == 0 {
        None
    } else {
        Some(join_and(&effects(&items)))
    }
}

// ---- summaries

/// One list of names behind a verb, the names in code font.
pub open spec fn code_list(part: Text) -> Text {
    match text::parted(part, " "@) {
        Some((verb, items)) => verb + " "@ + text::joined(
            all_ticked(text::pieces(items, ", "@)),
            ", "@,
        ),
        None => part,
    }
}

fn say_code_list(part: &str) -> (r: String)
    ensures
        r@ == code_list(part@),
{
    match text::split_once(part, " ") {
        Some((verb, items)) => text::cat3(
            &verb,
            " ",
            &text::join(&tick_all(&text::split(&items, ", ")), ", "),
        ),
        None => part.to_owned(),
    }
}

/// Lists of names behind verbs.
pub open spec fn each_code_list(xs: Seq<Text>) -> Seq<Text> {
    Seq::new(xs.len(), |i: int| code_list(xs[i]))
}

fn say_code_lists(xs: &Vec<String>) -> (r: Vec<String>)
    ensures
        r.deep_view() == each_code_list(xs.deep_view()),
{
    let ghost v = xs.deep_view();
    let mut out: Vec<String> = list::empty();
    let mut i: usize = 0;
    while i < xs.len()
        invariant
            i <= xs@.len(),
            v == xs.deep_view(),
            out.deep_view() == each_code_list(v).take(i as int),
        decreases xs@.len() - i,
    {
        assert(v[i as int] == xs@[i as int]@);
        list::push(&mut out, say_code_list(&xs[i]));
        i += 1;
        assert(out.deep_view() =~= each_code_list(v).take(i as int));
    }
    assert(each_code_list(v).take(v.len() as int) =~= each_code_list(v));
    out
}

/// Lists of names behind verbs, the names in code font.
pub open spec fn code_lists_text(s: Text) -> Text {
    text::joined(each_code_list(text::pieces(s, "; "@)), " and "@)
}

/// Lists of names behind verbs, the names in code font.
pub fn code_lists(s: &str) -> (r: String)
    ensures
        r@ == code_lists_text(s@),
{
    text::join(&say_code_lists(&text::split(s, "; ")), " and ")
}

/// One item in code font; a count stays as it is.
pub open spec fn coded(x: Text) -> Text {
    if text::begins(x, "+"@) {
        x
    } else {
        ticked(x)
    }
}

fn code_item(x: &str) -> (r: String)
    ensures
        r@ == coded(x@),
{
    if text::starts_with(x, "+") {
        x.to_owned()
    } else {
        tick(x)
    }
}

/// Items in code font.
pub open spec fn each_coded(xs: Seq<Text>) -> Seq<Text> {
    Seq::new(xs.len(), |i: int| coded(xs[i]))
}

fn code_each(xs: &Vec<String>) -> (r: Vec<String>)
    ensures
        r.deep_view() == each_coded(xs.deep_view()),
{
    let ghost v = xs.deep_view();
    let mut out: Vec<String> = list::empty();
    let mut i: usize = 0;
    while i < xs.len()
        invariant
            i <= xs@.len(),
            v == xs.deep_view(),
            out.deep_view() == each_coded(v).take(i as int),
        decreases xs@.len() - i,
    {
        assert(v[i as int] == xs@[i as int]@);
        list::push(&mut out, code_item(&xs[i]));
        i += 1;
        assert(out.deep_view() =~= each_coded(v).take(i as int));
    }
    assert(each_coded(v).take(v.len() as int) =~= each_coded(v));
    out
}

/// One part of a summary in words.
pub open spec fn part_said(part: Text, label: Text, items: Seq<Text>) -> Text {
    if label == "effects"@ {
        in_words(phrases(items))
    } else if label == "requires"@ {
        "requires "@ + requirements_text(text::joined(items, ", "@))
    } else if label == "filters"@ {
        "only reaches rows where "@ + in_words(each_coded(items))
    } else if label == "guards"@ {
        "only continues if "@ + in_words(each_coded(items))
    } else if label == "validates"@ {
        "runs the "@ + in_words(each_coded(items)) + " check"@ + (if items.len() == 1 {
            ""@
        } else {
            "s"@
        })
    } else if label == "writes"@ {
        "sets "@ + in_words(each_coded(items))
    } else {
        part
    }
}

fn say_part(part: &str, label: &str, items: &Vec<String>) -> (r: String)
    ensures
        r@ == part_said(part@, label@, items.deep_view()),
{
    if text::same(label, "effects") {
        join_and(&effects(items))
    } else if text::same(label, "requires") {
        text::cat2("requires ", &requirements(&text::join(items, ", ")))
    } else if text::same(label, "filters") {
        text::cat2("only reaches rows where ", &join_and(&code_each(items)))
    } else if text::same(label, "guards") {
        text::cat2("only continues if ", &join_and(&code_each(items)))
    } else if text::same(label, "validates") {
        if items.len() == 1 {
            text::cat4("runs the ", &join_and(&code_each(items)), " check", "")
        } else {
            text::cat4("runs the ", &join_and(&code_each(items)), " check", "s")
        }
    } else if text::same(label, "writes") {
        text::cat2("sets ", &join_and(&code_each(items)))
    } else {
        part.to_owned()
    }
}

/// The parts of a summary from index `i` on in words.
pub open spec fn parts_said_from(parts: Seq<Text>, i: int) -> Seq<Text>
    decreases parts.len() - i,
{
    if 0 <= i < parts.len() {
        (match text::parted(parts[i], ": "@) {
            Some((label, items)) => seq![
                part_said(parts[i], label, text::pieces(items, ", "@)),
            ],
            None => seq![],
        }) + parts_said_from(parts, i + 1)
    } else {
        seq![]
    }
}

/// A summary of new behaviour in words.
pub open spec fn described(summary: Text) -> Text {
    text::joined(parts_said_from(text::pieces(blanked(summary), "; "@), 0), "; "@)
}

/// A summary of new behaviour (`effects: …; requires: …; guards: …`) in words.
pub fn describe(summary: &str) -> (r: String)
    ensures
        r@ == described(summary@),
{
    let parts = text::split(&blanks(summary), "; ");
    let ghost v = parts.deep_view();
    let mut out: Vec<String> = list::empty();
    let mut i: usize = 0;
    while i < parts.len()
        invariant
            i <= parts@.len(),
            v == parts.deep_view(),
            out.deep_view() + parts_said_from(v, i as int) == parts_said_from(v, 0),
        decreases parts@.len() - i,
    {
        assert(v[i as int] == parts@[i as int]@);
        if let Some((label, items)) = text::split_once(&parts[i], ": ") {
            list::push(&mut out, say_part(&parts[i], &label, &text::split(&items, ", ")));
        }
        i += 1;
    }
    text::join(&out, "; ")
}

/// The schema and the field that a subject names.
pub open spec fn schema_and_field(subject: Text) -> (Text, Text) {
    split_two(text::after_last(subject, "::"@), "."@)
}

/// The schema and the field that a subject names.
pub fn schema_field(subject: &str) -> (r: (String, String))
    ensures
        (r.0@, r.1@) == schema_and_field(subject@),
{
    two_parts(&text::last_piece(subject, "::"), ".")
}

/// The items of a list under their label, from index `k` on.
pub open spec fn labelled_from(label: Text, items: Seq<Text>, k: int) -> Seq<(Text, Text)>
    decreases items.len() - k,
{
    if 0 <= k < items.len() {
        seq![(label, items[k])] + labelled_from(label, items, k + 1)
    } else {
        seq![]
    }
}

/// The clauses of the parts from index `i` on.
pub open spec fn clauses_from(parts: Seq<Text>, i: int) -> Seq<(Text, Text)>
    decreases parts.len() - i,
{
    if 0 <= i < parts.len() {
        (match text::parted(parts[i], ": "@) {
            Some((label, items)) => labelled_from(label, text::pieces(items, ", "@), 0),
            None => seq![],
        }) + clauses_from(parts, i + 1)
    } else {
        seq![]
    }
}

/// The clauses of a summary: each item under its label.
pub open spec fn clauses_in(summary: Text) -> Seq<(Text, Text)> {
    clauses_from(text::pieces(summary, "; "@), 0)
}

fn labelled(label: &String, items: &Vec<String>) -> (r: Vec<(String, String)>)
    ensures
        r.deep_view() == labelled_from(label@, items.deep_view(), 0),
{
    let ghost v = items.deep_view();
    let mut out: Vec<(String, String)> = list::empty();
    let mut k: usize = 0;
    while k < items.len()
        invariant
            k <= items@.len(),
            v == items.deep_view(),
            out.deep_view() + labelled_from(label@, v, k as int) == labelled_from(label@, v, 0),
        decreases items@.len() - k,
    {
        assert(v[k as int] == items@[k as int]@);
        list::push(&mut out, (label.dup(), items[k].dup()));
        k += 1;
    }
    out
}

/// `effects: a, b; requires: c` as `(effects, a), (effects, b), (requires, c)`.
pub fn split_clauses(summary: &str) -> (r: Vec<(String, String)>)
    ensures
        r.deep_view() == clauses_in(summary@),
{
    let parts = text::split(summary, "; ");
    let ghost v = parts.deep_view();
    let mut out: Vec<(String, String)> = list::empty();
    let mut i: usize = 0;
    while i < parts.len()
        invariant
            i <= parts@.len(),
            v == parts.deep_view(),
            out.deep_view() + clauses_from(v, i as int) == clauses_from(v, 0),
        decreases parts@.len() - i,
    {
        assert(v[i as int] == parts@[i as int]@);
        if let Some((label, items)) = text::split_once(&parts[i], ": ") {
            list::append(&mut out, labelled(&label, &text::split(&items, ", ")));
        }
        i += 1;
    }
    out
}

/// The labels of the clauses from index `i` on, each once.
pub open spec fn labels_from(cs: Seq<(Text, Text)>, i: int, seen: Seq<Text>) -> Seq<Text>
    decreases cs.len() - i,
{
    if 0 <= i < cs.len() {
        labels_from(
            cs,
            i + 1,
            if seen.contains(cs[i].0) {
                seen
            } else {
                seen.push(cs[i].0)
            },
        )
    } else {
        seen
    }
}

/// The items under a label from index `i` on.
pub open spec fn under_from(cs: Seq<(Text, Text)>, label: Text, i: int) -> Seq<Text>
    decreases cs.len() - i,
{
    if 0 <= i < cs.len() {
        (if cs[i].0 == label {
            seq![cs[i].1]
        } else {
            seq![]
        }) + under_from(cs, label, i + 1)
    } else {
        seq![]
    }
}

/// Each label with its items.
pub open spec fn grouped(cs: Seq<(Text, Text)>, labels: Seq<Text>) -> Seq<Text> {
    Seq::new(
        labels.len(),
        |i: int| labels[i] + ": "@ + text::joined(under_from(cs, labels[i], 0), ", "@),
    )
}

/// Clauses as a summary, in the order in which the labels come first.
pub open spec fn summary_of(cs: Seq<(Text, Text)>) -> Text {
    text::joined(grouped(cs, labels_from(cs, 0, seq![])), "; "@)
}

fn under(cs: &Vec<(String, String)>, label: &String) -> (r: Vec<String>)
    ensures
        r.deep_view() == under_from(cs.deep_view(), label@, 0),
{
    let ghost v = cs.deep_view();
    let mut out: Vec<String> = list::empty();
    let mut i: usize = 0;
    while i < cs.len()
        invariant
            i <= cs@.len(),
            v == cs.deep_view(),
            out.deep_view() + under_from(v, label@, i as int) == under_from(v, label@, 0),
        decreases cs@.len() - i,
    {
        assert(v[i as int] == (cs@[i as int].0@, cs@[i as int].1@));
        if cs[i].0.alike(label) {
            list::push(&mut out, cs[i].1.dup());
        }
        i += 1;
    }
    out
}

/// Clauses as a summary.
pub fn unclauses(cs: &Vec<(String, String)>) -> (r: String)
    ensures
        r@ == summary_of(cs.deep_view()),
{
    let ghost v = cs.deep_view();
    let mut labels: Vec<String> = list::empty();
    let mut i: usize = 0;
    while i < cs.len()
        invariant
            i <= cs@.len(),
            v == cs.deep_view(),
            labels_from(v, i as int, labels.deep_view()) == labels_from(v, 0, seq![]),
        decreases cs@.len() - i,
    {
        assert(v[i as int] == (cs@[i as int].0@, cs@[i as int].1@));
        if !list::has(&labels, &cs[i].0) {
            list::push(&mut labels, cs[i].0.dup());
        }
        i += 1;
    }
    let ghost ls = labels.deep_view();
    let mut out: Vec<String> = list::empty();
    i = 0;
    while i < labels.len()
        invariant
            i <= labels@.len(),
            v == cs.deep_view(),
            ls == labels.deep_view(),
            out.deep_view() == grouped(v, ls).take(i as int),
        decreases labels@.len() - i,
    {
        assert(ls[i as int] == labels@[i as int]@);
        let items = under(cs, &labels[i]);
        list::push(&mut out, text::cat3(&labels[i], ": ", &text::join(&items, ", ")));
        i += 1;
        assert(out.deep_view() =~= grouped(v, ls).take(i as int));
    }
    assert(grouped(v, ls).take(ls.len() as int) =~= grouped(v, ls));
    text::join(&out, "; ")
}

// ---- calls

/// The place before index `n` at which the bracket opens that `depth` brackets close.
pub open spec fn open_before(s: Text, n: int, depth: int) -> Option<int>
    decreases n,
{
    if n <= 0 {
        None
    } else {
        let d = if s[n - 1] == ')' {
            depth + 1
        } else if s[n - 1] == '(' {
            depth - 1
        } else {
            depth
        };
        if d == 0 {
            Some(n - 1)
        } else {
            open_before(s, n - 1, d)
        }
    }
}

/// A call without its last argument list.
pub open spec fn without_args(target: Text) -> Text {
    match text::before_suffix(target, ")"@) {
        Some(inner) => match open_before(inner, inner.len() as int, 1) {
            Some(i) => inner.take(i),
            None => target,
        },
        None => target,
    }
}

fn strip_args(target: &str) -> (r: String)
    ensures
        r@ == without_args(target@),
{
    match text::strip_suffix(target, ")") {
        Some(inner) => {
            let v = text::chars_of(&inner);
            let mut n: usize = v.len();
            let mut depth: u128 = 1;
            let ghost len = v@.len();
            while n > 0
                invariant
                    n <= v@.len(),
                    v@ == inner@,
                    len == v@.len(),
                    len <= usize::MAX,
                    1 <= depth <= 1 + len - n,
                    without_args(target@) == (match open_before(v@, n as int, depth as int) {
                        Some(i) => v@.take(i),
                        None => target@,
                    }),
                decreases n,
            {
                let c = v[n - 1];
                if c == ')' {
                    depth = depth + 1;
                } else if c == '(' {
                    depth = depth - 1;
                }
                if depth == 0 {
                    return text::text_of(&v, 0, n - 1);
                }
                n -= 1;
            }
            target.to_owned()
        },
        None => target.to_owned(),
    }
}

/// A segment that names a class.
pub open spec fn is_class(seg: Text) -> bool {
    seg.len() > 0 && text::upper_case(seg[0]) && !text::has_text(seg, "#"@)
}

/// The name of the function that a call shape calls.
pub open spec fn called(shape: Text) -> Text {
    let bare = without_args(text::trimmed(clauses::head(shape, " when "@)));
    let chain = text::after_last(text::replaced(bare, "()."@, "."@), "…"@);
    let target = text::trimmed_start(chain, "new "@);
    let segs = filled_pieces(target, "."@);
    let n = segs.len();
    if n >= 2 && is_class(segs[n - 2]) {
        segs[n - 2] + "."@ + segs[n - 1]
    } else if n >= 1 {
        text::trimmed_end(text::trimmed_start(segs[n - 1], "<"@), ">"@)
    } else {
        target
    }
}

/// The name of the function that a call shape calls.
pub fn call_name(shape: &str) -> (r: String)
    ensures
        r@ == called(shape@),
{
    let bare = strip_args(&text::trim(&clauses::head_of(shape, " when ")));
    let chain = text::last_piece(&text::replace(&bare, "().", "."), "…");
    let target = text::trim_start(&chain, "new ");
    let segs = split_filled(&target, ".");
    let ghost v = segs.deep_view();
    let n: usize = segs.len();
    if n >= 2 {
        assert(v[n - 2] == segs@[n - 2]@);
        assert(v[n - 1] == segs@[n - 1]@);
        let class = text::chars_of(&segs[n - 2]);
        if class.len() > 0 && text::is_upper_case(class[0]) && !text::contains(&segs[n - 2], "#") {
            return text::cat3(&segs[n - 2], ".", &segs[n - 1]);
        }
    }
    if n >= 1 {
        assert(v[n - 1] == segs@[n - 1]@);
        text::trim_end(&text::trim_start(&segs[n - 1], "<"), ">")
    } else {
        target
    }
}

/// The functions that the shapes from index `i` on call, each once.
pub open spec fn called_from(shapes: Seq<Text>, i: int, seen: Seq<Text>) -> Seq<Text>
    decreases shapes.len() - i,
{
    if 0 <= i < shapes.len() {
        called_from(
            shapes,
            i + 1,
            if seen.contains(called(shapes[i])) {
                seen
            } else {
                seen.push(called(shapes[i]))
            },
        )
    } else {
        seen
    }
}

/// The functions that a list of shapes calls, each once.
pub open spec fn names_called(s: Text) -> Seq<Text> {
    called_from(filled_pieces(s, "; "@), 0, seq![])
}

fn call_names(s: &str) -> (r: Vec<String>)
    ensures
        r.deep_view() == names_called(s@),
{
    let shapes = split_filled(s, "; ");
    let ghost v = shapes.deep_view();
    let mut seen: Vec<String> = list::empty();
    let mut i: usize = 0;
    while i < shapes.len()
        invariant
            i <= shapes@.len(),
            v == shapes.deep_view(),
            called_from(v, i as int, seen.deep_view()) == called_from(v, 0, seq![]),
        decreases shapes@.len() - i,
    {
        assert(v[i as int] == shapes@[i as int]@);
        let n = call_name(&shapes[i]);
        if !list::has(&seen, &n) {
            list::push(&mut seen, n);
        }
        i += 1;
    }
    seen
}

/// The number of arguments that a call shape passes.
pub open spec fn args_passed(shape: Text) -> nat {
    let call = clauses::head(shape, " when "@);
    let inner = match text::first_from(call, "("@, 0) {
        Some(p) => if p + 1 <= call.len() - 1 {
            call.subrange(p + 1, call.len() - 1)
        } else {
            seq![]
        },
        None => seq![],
    };
    if text::trimmed(inner).len() == 0 {
        0
    } else {
        text::pieces(inner, ", "@).len()
    }
}

fn count_args(shape: &str) -> (r: usize)
    ensures
        r == args_passed(shape@),
{
    let call = clauses::head_of(shape, " when ");
    let v = text::chars_of(&call);
    let n: usize = v.len();
    let inner = match text::find_str(&v, "(", 0) {
        Some(p) => if n >= 2 && p <= n - 2 {
            text::text_of(&v, p + 1, n - 1)
        } else {
            String::new()
        },
        None => String::new(),
    };
    assert(inner@ =~= (match text::first_from(call@, "("@, 0) {
        Some(p) => if p + 1 <= call@.len() - 1 {
            call@.subrange(p + 1, call@.len() - 1)
        } else {
            seq![]
        },
        None => seq![],
    }));
    if text::trim(&inner).as_str().is_empty() {
        0
    } else {
        text::split(&inner, ", ").len()
    }
}

/// The number of arguments of the first shape from index `i` on that calls a function.
pub open spec fn arity_from(shapes: Seq<Text>, n: Text, i: int) -> Option<nat>
    decreases shapes.len() - i,
{
    if 0 <= i < shapes.len() {
        if called(shapes[i]) == n {
            Some(args_passed(shapes[i]))
        } else {
            arity_from(shapes, n, i + 1)
        }
    } else {
        None
    }
}

fn arity(shapes: &Vec<String>, n: &String) -> (r: Option<usize>)
    ensures
        match r {
            Some(k) => arity_from(shapes.deep_view(), n@, 0) == Some(k as nat),
            None => arity_from(shapes.deep_view(), n@, 0) is None,
        },
{
    let ghost v = shapes.deep_view();
    let mut i: usize = 0;
    while i < shapes.len()
        invariant
            i <= shapes@.len(),
            v == shapes.deep_view(),
            arity_from(v, n@, 0) == arity_from(v, n@, i as int),
        decreases shapes@.len() - i,
    {
        assert(v[i as int] == shapes@[i as int]@);
        if call_name(&shapes[i]).alike(n) {
            return Some(count_args(&shapes[i]));
        }
        i += 1;
    }
    None
}

/// The calls from index `i` on that pass another number of arguments.
pub open spec fn arities_from(b: Seq<Text>, a: Seq<Text>, names: Seq<Text>, i: int) -> Seq<Text>
    decreases names.len() - i,
{
    if 0 <= i < names.len() {
        let x = arity_from(b, names[i], 0);
        let y = arity_from(a, names[i], 0);
        (if x is Some && y is Some && x->0 != y->0 {
            seq![
                "calls "@ + ticked(names[i]) + " with "@ + counted(y->0, "argument"@, "arguments"@)
                    + " instead of "@ + text::decimal(x->0),
            ]
        } else {
            seq![]
        }) + arities_from(b, a, names, i + 1)
    } else {
        seq![]
    }
}

fn arities(b: &Vec<String>, a: &Vec<String>, names: &Vec<String>) -> (r: Vec<String>)
    ensures
        r.deep_view() == arities_from(b.deep_view(), a.deep_view(), names.deep_view(), 0),
{
    let ghost bv = b.deep_view();
    let ghost av = a.deep_view();
    let ghost v = names.deep_view();
    let mut out: Vec<String> = list::empty();
    let mut i: usize = 0;
    while i < names.len()
        invariant
            i <= names@.len(),
            v == names.deep_view(),
            bv == b.deep_view(),
            av == a.deep_view(),
            out.deep_view() + arities_from(bv, av, v, i as int) == arities_from(bv, av, v, 0),
        decreases names@.len() - i,
    {
        assert(v[i as int] == names@[i as int]@);
        if let (Some(x), Some(y)) = (arity(b, &names[i]), arity(a, &names[i])) {
            if x != y {
                list::push(
                    &mut out,
                    text::cat6(
                        "calls ",
                        &tick(&names[i]),
                        " with ",
                        &plural(y, "argument", "arguments"),
                        " instead of ",
                        &text::number(x as u64),
                    ),
                );
            }
        }
        i += 1;
    }
    out
}

/// Up to six names, and how many more there are.
pub open spec fn few_listed(xs: Seq<Text>) -> Text {
    listed(first(xs, 6)) + more_than(xs.len(), 6)
}

fn list_few(xs: &Vec<String>) -> (r: String)
    ensures
        r@ == few_listed(xs.deep_view()),
{
    text::cat2(&list_values(&take_first(xs, 6)), &and_more(xs.len(), 6))
}

/// What a change did to calls that it adds or takes away.
pub open spec fn calls_apart(added: Seq<Text>, removed: Seq<Text>) -> Seq<Text> {
    (if added.len() > 0 {
        seq!["it now also calls "@ + few_listed(added)]
    } else {
        seq![]
    }) + (if removed.len() > 0 {
        seq!["it no longer calls "@ + few_listed(removed)]
    } else {
        seq![]
    })
}

/// What an unclassified change did to calls, by function name.
pub open spec fn calls_said(before: Text, after: Text) -> Text {
    let b = names_called(before);
    let a = names_called(after);
    let parts = calls_apart(only_here(a, b), only_here(b, a));
    if parts.len() > 0 {
        ": "@ + text::joined(parts, ", and "@)
    } else {
        let counts = arities_from(text::pieces(before, "; "@), text::pieces(after, "; "@), a, 0);
        let same = ordered::united(ordered::set_of(a), ordered::set_of(b));
        if counts.len() > 0 {
            ": it now "@ + in_words(counts)
        } else if same.len() == 0 {
            ""@
        } else {
            ": the arguments or conditions of its calls to "@ + few_listed(same) + " changed"@
        }
    }
}

/// What an unclassified change did to calls, by function name.
pub fn calls_summary(before: &str, after: &str) -> (r: String)
    ensures
        r@ == calls_said(before@, after@),
{
    let b = call_names(before);
    let a = call_names(after);
    let added = not_in(&a, &b);
    let removed = not_in(&b, &a);
    let mut parts: Vec<String> = list::empty();
    if added.len() > 0 {
        list::push(&mut parts, text::cat2("it now also calls ", &list_few(&added)));
    }
    if removed.len() > 0 {
        list::push(&mut parts, text::cat2("it no longer calls ", &list_few(&removed)));
    }
    assert(parts.deep_view() =~= calls_apart(added.deep_view(), removed.deep_view()));
    if parts.len() > 0 {
        return text::cat2(": ", &text::join(&parts, ", and "));
    }
    let counts = arities(&text::split(before, "; "), &text::split(after, "; "), &a);
    if counts.len() > 0 {
        return text::cat2(": it now ", &join_and(&counts));
    }
    let mut same = SortedSet::of(&a);
    same.unite(&SortedSet::of(&b));
    let same = same.list();
    if same.len() == 0 {
        "".to_owned()
    } else {
        text::cat3(
            ": the arguments or conditions of its calls to ",
            &list_few(&same),
            " changed",
        )
    }
}

} // verus!
