//! The contract view of a transition: per changed or new function, what it promises before and
//! after.

use crate::clauses;
use crate::clauses::{Clause, ClauseView, ContractDiff, ContractDiffView};
use crate::ir;
use crate::ir::{Loc, LocView};
use crate::list;
use crate::list::Plain;
use crate::ordered;
use crate::ordered::SortedMap;
use crate::render;
use crate::text;
use crate::text::Text;
use crate::transition::{Transition, TransitionView};
use crate::words;
use crate::words::{blanked, counted, first, in_words, more_than, split_two, ticked};
use vstd::prelude::*;

verus! {

/// The width of the view in characters.
pub const WIDTH: usize = 112;

/// Source text of lines before and after the change, for the code under changed clauses.
pub struct SourceLine {
    pub before: SortedMap<Loc, String>,
    pub after: SortedMap<Loc, String>,
}

/// The view of [`SourceLine`].
#[verifier::ext_equal]
pub struct SourceLineView {
    pub before: Seq<(LocView, Text)>,
    pub after: Seq<(LocView, Text)>,
}

impl DeepView for SourceLine {
    type V = SourceLineView;

    open spec fn deep_view(&self) -> SourceLineView {
        SourceLineView { before: self.before.deep_view(), after: self.after.deep_view() }
    }
}

// ---- columns

/// Spaces.
pub open spec fn spaces(n: int) -> Text {
    Seq::new(
        if n > 0 {
            n as nat
        } else {
            0
        },
        |i: int| ' ',
    )
}

fn write_spaces(n: usize) -> (r: String)
    ensures
        r@ == spaces(n as int),
{
    let mut out: Vec<char> = Vec::new();
    let mut i: usize = 0;
    while i < n
        invariant
            i <= n,
            out@ == spaces(i as int),
        decreases n - i,
    {
        out.push(' ');
        i += 1;
        assert(out@ =~= spaces(i as int));
    }
    text::text_of(&out, 0, out.len())
}

/// The number of characters of a text.
pub fn count_chars(s: &str) -> (r: usize)
    ensures
        r == s@.len(),
{
    text::chars_of(s).len()
}

/// A text padded on the right.
pub open spec fn padded(s: Text, n: int) -> Text {
    s + spaces(n - s.len())
}

fn pad(s: &str, n: usize) -> (r: String)
    ensures
        r@ == padded(s@, n as int),
{
    let len: usize = count_chars(s);
    if len < n {
        text::cat2(s, &write_spaces(n - len))
    } else {
        assert(spaces(n - len) =~= spaces(0));
        text::cat2(s, &write_spaces(0))
    }
}

/// A text padded on the left.
pub open spec fn padded_left(s: Text, n: int) -> Text {
    spaces(n - s.len()) + s
}

fn pad_left(s: &str, n: usize) -> (r: String)
    ensures
        r@ == padded_left(s@, n as int),
{
    let len: usize = count_chars(s);
    if len < n {
        text::cat2(&write_spaces(n - len), s)
    } else {
        assert(spaces(n - len) =~= spaces(0));
        text::cat2(&write_spaces(0), s)
    }
}

/// The lines that the parts from index `i` on flow into, parted by `sep` and wrapped between
/// parts, where `cur` is the line begun.
pub open spec fn flowed_from(
    parts: Seq<Text>,
    sep: Text,
    room: int,
    i: int,
    lines: Seq<Text>,
    cur: Text,
) -> Seq<Text>
    decreases parts.len() - i,
{
    if 0 <= i < parts.len() {
        if cur.len() == 0 {
            flowed_from(parts, sep, room, i + 1, lines, parts[i])
        } else if cur.len() + sep.len() + parts[i].len() > room {
            flowed_from(parts, sep, room, i + 1, lines.push(cur), parts[i])
        } else {
            flowed_from(parts, sep, room, i + 1, lines, cur + sep + parts[i])
        }
    } else {
        lines.push(cur)
    }
}

/// The room behind a head.
pub open spec fn room_behind(head: Text) -> int {
    if WIDTH - head.len() > 30 {
        WIDTH - head.len()
    } else {
        30
    }
}

/// Lines behind a head, continued under its end.
pub open spec fn hung(head: Text, lines: Seq<Text>) -> Seq<Text> {
    Seq::new(
        lines.len(),
        |i: int|
            if i == 0 {
                head + lines[i]
            } else {
                spaces(head.len() as int) + lines[i]
            },
    )
}

/// Parts behind a head, wrapped between parts.
pub open spec fn flowed(head: Text, parts: Seq<Text>, sep: Text) -> Seq<Text> {
    hung(head, flowed_from(parts, sep, room_behind(head), 0, seq![], ""@))
}

fn flow(head: &str, parts: &Vec<String>, sep: &str) -> (r: Vec<String>)
    ensures
        r.deep_view() == flowed(head@, parts.deep_view(), sep@),
{
    let width: usize = count_chars(head);
    let gap: usize = count_chars(sep);
    let room: usize = if width < 82 {
        WIDTH - width
    } else {
        30
    };
    let ghost v = parts.deep_view();
    let mut lines: Vec<String> = list::empty();
    let mut cur = "".to_owned();
    proof {
        reveal_strlit("");
    }
    let mut i: usize = 0;
    while i < parts.len()
        invariant
            i <= parts@.len(),
            v == parts.deep_view(),
            gap == sep@.len(),
            flowed_from(v, sep@, room as int, i as int, lines.deep_view(), cur@) == flowed_from(
                v,
                sep@,
                room as int,
                0,
                seq![],
                ""@,
            ),
        decreases parts@.len() - i,
    {
        assert(v[i as int] == parts@[i as int]@);
        let ghost held = cur@;
        if cur.as_str().is_empty() {
            cur = parts[i].dup();
        } else if exceeds(count_chars(&cur), gap, count_chars(&parts[i]), room) {
            list::push(&mut lines, cur);
            cur = parts[i].dup();
        } else {
            cur = text::cat3(&cur, sep, &parts[i]);
        }
        i += 1;
    }
    list::push(&mut lines, cur);
    let ghost ls = lines.deep_view();
    let indent = write_spaces(width);
    let mut out: Vec<String> = list::empty();
    i = 0;
    while i < lines.len()
        invariant
            i <= lines@.len(),
            ls == lines.deep_view(),
            indent@ == spaces(head@.len() as int),
            out.deep_view() == hung(head@, ls).take(i as int),
        decreases lines@.len() - i,
    {
        assert(ls[i as int] == lines@[i as int]@);
        if i == 0 {
            list::push(&mut out, text::cat2(head, &lines[i]));
        } else {
            list::push(&mut out, text::cat2(&indent, &lines[i]));
        }
        i += 1;
        assert(out.deep_view() =~= hung(head@, ls).take(i as int));
    }
    assert(hung(head@, ls).take(ls.len() as int) =~= hung(head@, ls));
    out
}

fn exceeds(a: usize, b: usize, c: usize, room: usize) -> (r: bool)
    ensures
        r == (a + b + c > room),
{
    a > room || b > room - a || c > room - a - b
}

/// A text behind a head, wrapped at spaces.
pub open spec fn wrapped(head: Text, s: Text) -> Seq<Text> {
    flowed(head, text::pieces(s, " "@), " "@)
}

fn wrap(head: &str, s: &str) -> (r: Vec<String>)
    ensures
        r.deep_view() == wrapped(head@, s@),
{
    flow(head, &text::split(s, " "), " ")
}

/// A tag as it stands behind a line.
pub open spec fn tag_text(tag: Option<Text>) -> Text {
    match tag {
        Some(t) => "   ← "@ + t,
        None => ""@,
    }
}

fn say_tag(tag: &Option<String>) -> (r: String)
    ensures
        r@ == tag_text(tag.deep_view()),
{
    match tag {
        Some(t) => text::cat2("   ← ", t),
        None => "".to_owned(),
    }
}

/// Lines with a tag at the end of the last one, or on its own line where it does not fit.
pub open spec fn with_tag(lines: Seq<Text>, tag: Option<Text>) -> Seq<Text> {
    match tag {
        Some(t) => if lines.len() > 0 && lines.last().len() + tag_text(tag).len() <= WIDTH {
            lines.drop_last().push(lines.last() + tag_text(tag))
        } else {
            lines.push(spaces(12) + "← "@ + t)
        },
        None => lines,
    }
}

fn tagged(lines: Vec<String>, tag: &Option<String>) -> (r: Vec<String>)
    ensures
        r.deep_view() == with_tag(lines.deep_view(), tag.deep_view()),
{
    let ghost v = lines.deep_view();
    let mut lines = lines;
    match tag {
        Some(t) => {
            let shown = say_tag(tag);
            let n: usize = lines.len();
            if n > 0 {
                assert(v[n - 1] == lines@[n - 1]@);
                if !exceeds(count_chars(&lines[n - 1]), count_chars(&shown), 0, WIDTH) {
                    let last = text::cat2(&lines[n - 1], &shown);
                    let _ = lines.pop();
                    assert(lines.deep_view() =~= v.drop_last());
                    list::push(&mut lines, last);
                    return lines;
                }
            }
            list::push(&mut lines, text::cat3(&write_spaces(12), "← ", t));
            lines
        },
        None => lines,
    }
}

/// A line of source, cut where it is long.
pub open spec fn clipped(s: Text) -> Text {
    if s.len() <= WIDTH - 19 {
        s
    } else {
        s.take(WIDTH - 20) + "…"@
    }
}

fn clip(s: &str) -> (r: String)
    ensures
        r@ == clipped(s@),
{
    let v = text::chars_of(s);
    if v.len() <= WIDTH - 19 {
        s.to_owned()
    } else {
        text::cat2(&text::text_of(&v, 0, WIDTH - 20), "…")
    }
}

// ---- clauses

/// An effect with its mode in brackets, in two parts.
pub open spec fn moded(s: Text) -> (Text, Option<Text>) {
    match text::parted(s, " ("@) {
        Some((core, rest)) => match text::before_suffix(s, ")"@) {
            Some(_) => match text::before_suffix(rest, ")"@) {
                Some(mode) => (core, Some(mode)),
                None => (s, None),
            },
            None => (s, None),
        },
        None => (s, None),
    }
}

fn read_moded(s: &str) -> (r: (String, Option<String>))
    ensures
        (r.0@, r.1.deep_view()) == moded(s@),
{
    match text::split_once(s, " (") {
        Some((core, rest)) => if text::strip_suffix(s, ")").is_some() {
            match text::strip_suffix(&rest, ")") {
                Some(mode) => (core, Some(mode)),
                None => (s.to_owned(), None),
            }
        } else {
            (s.to_owned(), None)
        },
        None => (s.to_owned(), None),
    }
}

/// An effect in short verbs.
pub open spec fn effect_verb(core: Text) -> Text {
    let (k, tail) = split_two(core, " "@);
    let rest = text::replaced(tail, "<dynamic>"@, "(dynamic)"@);
    if k == "db_write"@ {
        "write "@ + rest
    } else if k == "db_read"@ {
        "read "@ + rest
    } else if k == "db_query"@ {
        "query "@ + rest
    } else if k == "http"@ {
        rest
    } else if k == "event_emit"@ {
        "emit "@ + rest
    } else if k == "queue"@ {
        "queue "@ + rest
    } else if k == "fs_write"@ {
        "write file "@ + rest
    } else if k == "fs_read"@ {
        "read file "@ + rest
    } else if k == "cache_write"@ {
        "write cache "@ + rest
    } else if k == "cache_read"@ {
        "read cache "@ + rest
    } else {
        core
    }
}

fn say_verb(core: &str) -> (r: String)
    ensures
        r@ == effect_verb(core@),
{
    let (k, tail) = words::two_parts(core, " ");
    let rest = text::replace(&tail, "<dynamic>", "(dynamic)");
    if text::same(&k, "db_write") {
        text::cat2("write ", &rest)
    } else if text::same(&k, "db_read") {
        text::cat2("read ", &rest)
    } else if text::same(&k, "db_query") {
        text::cat2("query ", &rest)
    } else if text::same(&k, "http") {
        rest
    } else if text::same(&k, "event_emit") {
        text::cat2("emit ", &rest)
    } else if text::same(&k, "queue") {
        text::cat2("queue ", &rest)
    } else if text::same(&k, "fs_write") {
        text::cat2("write file ", &rest)
    } else if text::same(&k, "fs_read") {
        text::cat2("read file ", &rest)
    } else if text::same(&k, "cache_write") {
        text::cat2("write cache ", &rest)
    } else if text::same(&k, "cache_read") {
        text::cat2("read cache ", &rest)
    } else {
        core.to_owned()
    }
}

/// One clause item, with effects in short verbs and values that are not known as an ellipsis.
pub open spec fn item_text(row: Text, s: Text) -> Text {
    if row != "effects"@ {
        blanked(s)
    } else {
        let (core, later) = moded(s);
        match later {
            Some(l) => effect_verb(core) + " ("@ + text::replaced(l, "async via "@, "later, via "@)
                + ")"@,
            None => effect_verb(core),
        }
    }
}

fn item(row: &str, s: &str) -> (r: String)
    ensures
        r@ == item_text(row@, s@),
{
    if !text::same(row, "effects") {
        return words::blanks(s);
    }
    let (core, later) = read_moded(s);
    match later {
        Some(l) => text::cat4(
            &say_verb(&core),
            " (",
            &text::replace(&l, "async via ", "later, via "),
            ")",
        ),
        None => say_verb(&core),
    }
}

/// A piece of content that was restyled: the content, then the styles before and after.
pub open spec fn restyled_text(x: ClauseView) -> Option<(Text, Text, Text)> {
    match (x.before, x.after) {
        (Some(b), Some(a)) => match (text::parted_last(b, ": "@), text::parted_last(a, ": "@)) {
            (Some((cb, sb)), Some((ca, sa))) => if cb == ca {
                Some((ca, sb, sa))
            } else {
                None
            },
            _ => None,
        },
        _ => None,
    }
}

fn restyled(x: &Clause) -> (r: Option<(String, String, String)>)
    ensures
        r.deep_view() == restyled_text(x.deep_view()),
{
    match (&x.before, &x.after) {
        (Some(b), Some(a)) => match (text::rsplit_once(b, ": "), text::rsplit_once(a, ": ")) {
            (Some((cb, sb)), Some((ca, sa))) => if cb.alike(&ca) {
                Some((ca, sb, sa))
            } else {
                None
            },
            _ => None,
        },
        _ => None,
    }
}

/// A restyled piece of content on one line.
pub open spec fn restyled_line(x: (Text, Text, Text)) -> Text {
    x.0 + ": "@ + x.1 + "  →  "@ + x.2
}

/// The place of a line: its number, with the file where that is another one.
pub open spec fn place_of(l: LocView, file: Text) -> Text {
    if l.file == file || file.len() == 0 {
        text::decimal(l.line as nat)
    } else {
        text::after_last(l.file, "/"@) + ":"@ + text::decimal(l.line as nat)
    }
}

fn say_place(l: &Loc, file: &str) -> (r: String)
    ensures
        r@ == place_of(l.deep_view(), file@),
{
    if text::same(&l.file, file) || file.is_empty() {
        text::number(l.line as u64)
    } else {
        text::cat3(&text::last_piece(&l.file, "/"), ":", &text::number(l.line as u64))
    }
}

/// The line of source at a location, with its place.
pub open spec fn fetched(l: Option<LocView>, lines: Seq<(LocView, Text)>, file: Text) -> Option<(Text, Text)> {
    match l {
        Some(l) => match ordered::lookup(lines, l) {
            Some(t) => Some((place_of(l, file), text::trimmed(t))),
            None => None,
        },
        None => None,
    }
}

fn fetch(l: &Option<Loc>, lines: &SortedMap<Loc, String>, file: &str) -> (r: Option<(String, String)>)
    ensures
        r.deep_view() == fetched(l.deep_view(), lines.deep_view(), file@),
{
    match l {
        Some(l) => match lines.get(l) {
            Some(t) => Some((say_place(l, file), text::trim(t))),
            None => None,
        },
        None => None,
    }
}

/// A line of source with its place and a mark.
pub open spec fn code_line(at: Text, mark: Text, t: Text) -> Text {
    spaces(12) + padded_left(at, 4) + mark + clipped(t)
}

fn say_code(at: &str, mark: &str, t: &str) -> (r: String)
    ensures
        r@ == code_line(at@, mark@, t@),
{
    text::cat4(&write_spaces(12), &pad_left(at, 4), mark, &clip(t))
}

/// The source behind a clause before and after the change, as far as its mark asks for it.
pub open spec fn code_of(x: ClauseView, src: SourceLineView, file: Text) -> (Option<(Text, Text)>, Option<
    (Text, Text),
>) {
    let b = fetched(x.evidence_before, src.before, file);
    let a = fetched(x.evidence_after, src.after, file);
    if x.mark == '~' || x.mark == '!' {
        (b, a)
    } else if x.mark == '-' {
        (b, None)
    } else if x.mark == '+' || x.mark == '?' {
        (None, a)
    } else {
        (None, None)
    }
}

/// The source lines behind a changed clause.
pub open spec fn code_lines(x: ClauseView, src: SourceLineView, file: Text) -> Seq<Text> {
    match code_of(x, src, file) {
        (Some(b), Some(a)) => if b.1 == a.1 {
            seq![code_line(a.0, "   "@, a.1)]
        } else {
            seq![code_line(b.0, " - "@, b.1), code_line(a.0, " + "@, a.1)]
        },
        (Some(b), None) => seq![code_line(b.0, " - "@, b.1)],
        (None, Some(a)) => seq![code_line(a.0, " + "@, a.1)],
        (None, None) => seq![],
    }
}

fn code(x: &Clause, src: &SourceLine, file: &str) -> (r: Vec<String>)
    ensures
        r.deep_view() == code_lines(x.deep_view(), src.deep_view(), file@),
{
    let b = if x.mark == '~' || x.mark == '!' || x.mark == '-' {
        fetch(&x.evidence_before, &src.before, file)
    } else {
        None
    };
    let a = if x.mark == '~' || x.mark == '!' || x.mark == '+' || x.mark == '?' {
        fetch(&x.evidence_after, &src.after, file)
    } else {
        None
    };
    match (b, a) {
        (Some(b), Some(a)) => if b.1.alike(&a.1) {
            list::one(say_code(&a.0, "   ", &a.1))
        } else {
            let mut out = list::one(say_code(&b.0, " - ", &b.1));
            list::push(&mut out, say_code(&a.0, " + ", &a.1));
            assert(out.deep_view() =~= seq![
                code_line(b.0@, " - "@, b.1@),
                code_line(a.0@, " + "@, a.1@),
            ]);
            out
        },
        (Some(b), None) => list::one(say_code(&b.0, " - ", &b.1)),
        (None, Some(a)) => list::one(say_code(&a.0, " + ", &a.1)),
        (None, None) => list::empty(),
    }
}

/// The head of a line of a block.
pub open spec fn row_head(mark: char, row: Text) -> Text {
    seq![mark] + " "@ + padded(row, 9) + " "@
}

fn say_head(mark: char, row: &str) -> (r: String)
    ensures
        r@ == row_head(mark, row@),
{
    let mut lead = String::new();
    text::push_char(&mut lead, mark);
    assert(lead@ =~= seq![mark]);
    text::cat4(&lead, " ", &pad(row, 9), " ")
}

/// A clause that shares a line with others of its row: one that is unchanged, or that is new in
/// a new contract.
pub open spec fn is_compact(status: Text, x: ClauseView) -> bool {
    x.mark == ' ' || (status == "new"@ && x.mark == '+')
}

fn compact(status: &str, x: &Clause) -> (r: bool)
    ensures
        r == is_compact(status@, x.deep_view()),
{
    x.mark == ' ' || (text::same(status, "new") && x.mark == '+')
}

/// A text that is short enough to share a line.
pub open spec fn is_short(row: Text, t: Text) -> bool {
    row != "renders"@ && t.len() <= 90
}

/// The items from index `i` on of a row that share a line, short or long.
pub open spec fn shared_from(c: ContractDiffView, row: Text, brief: bool, i: int) -> Seq<Text>
    decreases c.clauses.len() - i,
{
    if 0 <= i < c.clauses.len() {
        let x = c.clauses[i];
        (if x.row == row && is_compact(c.status, x) && x.after is Some && is_short(
            row,
            item_text(row, x.after->0),
        ) == brief {
            seq![item_text(row, x.after->0)]
        } else {
            seq![]
        }) + shared_from(c, row, brief, i + 1)
    } else {
        seq![]
    }
}

fn shared(c: &ContractDiff, row: &str, brief: bool) -> (r: Vec<String>)
    ensures
        r.deep_view() == shared_from(c.deep_view(), row@, brief, 0),
{
    let ghost v = c.deep_view();
    let mut out: Vec<String> = list::empty();
    let mut i: usize = 0;
    while i < c.clauses.len()
        invariant
            i <= c.clauses@.len(),
            v == c.deep_view(),
            out.deep_view() + shared_from(v, row@, brief, i as int) == shared_from(
                v,
                row@,
                brief,
                0,
            ),
        decreases c.clauses@.len() - i,
    {
        assert(v.clauses[i as int] == c.clauses@[i as int].deep_view());
        let x = &c.clauses[i];
        if text::same(&x.row, row) && compact(&c.status, x) {
            if let Some(a) = &x.after {
                let t = item(row, a);
                let is_brief = !text::same(row, "renders") && count_chars(&t) <= 90;
                if is_brief == brief {
                    list::push(&mut out, t);
                }
            }
        }
        i += 1;
    }
    out
}

/// A text that is markup behind its case.
pub open spec fn is_markup(v: Option<Text>) -> bool {
    match v {
        Some(v) => match text::parted(v, ": "@) {
            Some((_, val)) => text::begins(val, "<"@),
            None => false,
        },
        None => false,
    }
}

fn markup(v: &Option<String>) -> (r: bool)
    ensures
        r == is_markup(v.deep_view()),
{
    match v {
        Some(v) => match text::split_once(v, ": ") {
            Some((_, val)) => text::starts_with(&val, "<"),
            None => false,
        },
        None => false,
    }
}

/// What an untyped change did to calls.
pub open spec fn untyped_text(x: ClauseView) -> Text {
    let t = text::trimmed_start(
        words::calls_said(clauses::or_empty(x.before), clauses::or_empty(x.after)),
        ": "@,
    );
    if t.len() == 0 {
        "calls changed"@
    } else {
        t
    }
}

fn say_untyped(x: &Clause) -> (r: String)
    ensures
        r@ == untyped_text(x.deep_view()),
{
    let b = match &x.before {
        Some(b) => b.as_str(),
        None => "",
    };
    let a = match &x.after {
        Some(a) => a.as_str(),
        None => "",
    };
    let t = text::trim_start(&words::calls_summary(b, a), ": ");
    if t.as_str().is_empty() {
        "calls changed".to_owned()
    } else {
        t
    }
}

/// The lines of what a clause was and is.
pub open spec fn change_lines(row: Text, x: ClauseView) -> Seq<Text> {
    let head = row_head(x.mark, row);
    if x.mark == '?' {
        with_tag(wrapped(head, untyped_text(x)), x.tag)
    } else {
        match (x.before, x.after) {
            (Some(b), Some(a)) => {
                let (b, a) = (item_text(row, b), item_text(row, a));
                if head.len() + b.len() + a.len() + 5 + tag_text(x.tag).len() <= WIDTH {
                    seq![head + b + "  →  "@ + a + tag_text(x.tag)]
                } else {
                    wrapped(head, b) + with_tag(wrapped(spaces(12) + "→ "@, a), x.tag)
                }
            },
            (None, Some(a)) => with_tag(wrapped(head, item_text(row, a)), x.tag),
            (Some(b), None) => with_tag(wrapped(head, item_text(row, b)), x.tag),
            (None, None) => seq![],
        }
    }
}

fn say_change(row: &str, x: &Clause) -> (r: Vec<String>)
    ensures
        r.deep_view() == change_lines(row@, x.deep_view()),
{
    let head = say_head(x.mark, row);
    if x.mark == '?' {
        return tagged(wrap(&head, &say_untyped(x)), &x.tag);
    }
    match (&x.before, &x.after) {
        (Some(b), Some(a)) => {
            let b = item(row, b);
            let a = item(row, a);
            let tag = say_tag(&x.tag);
            let fits = !exceeds(count_chars(&head), count_chars(&b), count_chars(&a), WIDTH)
                && !exceeds(
                count_chars(&head) + count_chars(&b) + count_chars(&a),
                5,
                count_chars(&tag),
                WIDTH,
            );
            if fits {
                list::one(text::cat5(&head, &b, "  →  ", &a, &tag))
            } else {
                let mut out = wrap(&head, &b);
                let lead = text::cat2(&write_spaces(12), "→ ");
                list::append(&mut out, tagged(wrap(&lead, &a), &x.tag));
                out
            }
        },
        (None, Some(a)) => tagged(wrap(&head, &item(row, a)), &x.tag),
        (Some(b), None) => tagged(wrap(&head, &item(row, b)), &x.tag),
        (None, None) => list::empty(),
    }
}

/// The lines of a restyled piece of content: broken before the arrow where it is too long.
pub open spec fn restyled_lines(head: Text, t: Text, tag: Option<Text>) -> Seq<Text> {
    match text::parted(t, "  →  "@) {
        Some((b, a)) => if head.len() + t.len() > WIDTH {
            seq![head + b, spaces(12) + "→ "@ + a]
        } else {
            with_tag(wrapped(head, t), tag)
        },
        None => with_tag(wrapped(head, t), tag),
    }
}

fn say_restyled(head: &str, t: &str, tag: &Option<String>) -> (r: Vec<String>)
    ensures
        r.deep_view() == restyled_lines(head@, t@, tag.deep_view()),
{
    match text::split_once(t, "  →  ") {
        Some((b, a)) => if exceeds(count_chars(head), count_chars(t), 0, WIDTH) {
            let mut out = list::one(text::cat2(head, &b));
            list::push(&mut out, text::cat3(&write_spaces(12), "→ ", &a));
            assert(out.deep_view() =~= seq![head@ + b@, spaces(12) + "→ "@ + a@]);
            out
        } else {
            tagged(wrap(head, t), tag)
        },
        None => tagged(wrap(head, t), tag),
    }
}

/// The lines of a changed clause. A changed output that is markup says which case it is; how it
/// renders is said in another row.
pub open spec fn clause_lines(row: Text, x: ClauseView, src: SourceLineView, file: Text) -> Seq<Text> {
    let head = row_head(x.mark, row);
    if row == "returns"@ && x.mark == '~' && is_markup(x.before) && is_markup(x.after) {
        seq![
            head + (match text::parted(x.after->0, ": "@) {
                Some((case, _)) => case,
                None => ""@,
            }) + ": renders differently (see renders)"@,
        ] + code_lines(x, src, file)
    } else if row == "renders"@ && x.mark == '~' && restyled_text(x) is Some {
        restyled_lines(head, restyled_line(restyled_text(x)->0), x.tag)
    } else {
        change_lines(row, x) + (if row == "renders"@ {
            seq![]
        } else {
            code_lines(x, src, file)
        })
    }
}

fn say_clause(row: &str, x: &Clause, src: &SourceLine, file: &str) -> (r: Vec<String>)
    ensures
        r.deep_view() == clause_lines(row@, x.deep_view(), src.deep_view(), file@),
{
    let head = say_head(x.mark, row);
    if text::same(row, "returns") && x.mark == '~' && markup(&x.before) && markup(&x.after) {
        let case = match &x.after {
            Some(a) => match text::split_once(a, ": ") {
                Some((case, _)) => case,
                None => "".to_owned(),
            },
            None => "".to_owned(),
        };
        let mut out = list::one(text::cat3(&head, &case, ": renders differently (see renders)"));
        list::append(&mut out, code(x, src, file));
        return out;
    }
    let in_renders = text::same(row, "renders");
    if in_renders && x.mark == '~' {
        if let Some((c, b, a)) = restyled(x) {
            let t = text::cat5(&c, ": ", &b, "  →  ", &a);
            return say_restyled(&head, &t, &x.tag);
        }
    }
    let mut out = say_change(row, x);
    if !in_renders {
        list::append(&mut out, code(x, src, file));
    }
    assert(out.deep_view() =~= clause_lines(row@, x.deep_view(), src.deep_view(), file@));
    out
}

/// The lines of the changed clauses of a row from index `i` on.
pub open spec fn changed_from(c: ContractDiffView, row: Text, src: SourceLineView, i: int) -> Seq<Text>
    decreases c.clauses.len() - i,
{
    if 0 <= i < c.clauses.len() {
        (if c.clauses[i].row == row && !is_compact(c.status, c.clauses[i]) {
            clause_lines(row, c.clauses[i], src, c.loc.file)
        } else {
            seq![]
        }) + changed_from(c, row, src, i + 1)
    } else {
        seq![]
    }
}

/// The line for what is unchanged and too long to show.
pub open spec fn unchanged_text(row: Text, n: nat) -> Text {
    (if row == "renders"@ {
        counted(n, "piece of content"@, "pieces of content"@)
    } else {
        counted(n, "case"@, "cases"@)
    }) + " unchanged"@
}

fn say_unchanged(row: &str, n: usize) -> (r: String)
    ensures
        r@ == unchanged_text(row@, n as nat),
{
    if text::same(row, "renders") {
        text::cat2(&words::plural(n, "piece of content", "pieces of content"), " unchanged")
    } else {
        text::cat2(&words::plural(n, "case", "cases"), " unchanged")
    }
}

/// The lines of a row.
pub open spec fn row_lines(c: ContractDiffView, row: Text, src: SourceLineView) -> Seq<Text> {
    let mark = if c.status == "new"@ {
        '+'
    } else {
        ' '
    };
    let brief = shared_from(c, row, true, 0);
    let long = shared_from(c, row, false, 0);
    (if brief.len() > 0 {
        flowed(row_head(mark, row), brief, " · "@)
    } else {
        seq![]
    }) + (if long.len() > 0 && c.status != "new"@ {
        seq![row_head(mark, row) + unchanged_text(row, long.len())]
    } else {
        seq![]
    }) + changed_from(c, row, src, 0)
}

fn say_row(c: &ContractDiff, row: &str, src: &SourceLine) -> (r: Vec<String>)
    ensures
        r.deep_view() == row_lines(c.deep_view(), row@, src.deep_view()),
{
    let fresh = text::same(&c.status, "new");
    let mark = if fresh {
        '+'
    } else {
        ' '
    };
    let head = say_head(mark, row);
    let brief = shared(c, row, true);
    let long = shared(c, row, false);
    let mut out: Vec<String> = if brief.len() > 0 {
        flow(&head, &brief, " · ")
    } else {
        list::empty()
    };
    let ghost lead = out.deep_view();
    if long.len() > 0 && !fresh {
        list::push(&mut out, text::cat2(&head, &say_unchanged(row, long.len())));
    }
    assert(out.deep_view() =~= lead + (if long.deep_view().len() > 0 && c.status@ != "new"@ {
        seq![row_head(mark, row@) + unchanged_text(row@, long.deep_view().len())]
    } else {
        seq![]
    }));
    let ghost first = out.deep_view();
    let ghost v = c.deep_view();
    let ghost s = src.deep_view();
    let mut i: usize = 0;
    while i < c.clauses.len()
        invariant
            i <= c.clauses@.len(),
            v == c.deep_view(),
            s == src.deep_view(),
            out.deep_view() + changed_from(v, row@, s, i as int) == first + changed_from(
                v,
                row@,
                s,
                0,
            ),
        decreases c.clauses@.len() - i,
    {
        assert(v.clauses[i as int] == c.clauses@[i as int].deep_view());
        let ghost before = out.deep_view();
        let x = &c.clauses[i];
        if text::same(&x.row, row) && !compact(&c.status, x) {
            list::append(&mut out, say_clause(row, x, src, &c.loc.file));
        }
        assert(before + changed_from(v, row@, s, i as int) =~= out.deep_view() + changed_from(
            v,
            row@,
            s,
            i + 1,
        ));
        i += 1;
    }
    assert(out.deep_view() =~= first + changed_from(v, row@, s, 0));
    out
}

/// The rows of a contract, in their order.
pub open spec fn rows_of(c: ContractDiffView) -> Seq<Text> {
    list::deduped(Seq::new(c.clauses.len(), |i: int| c.clauses[i].row))
}

fn rows(c: &ContractDiff) -> (r: Vec<String>)
    ensures
        r.deep_view() == rows_of(c.deep_view()),
{
    let ghost v = c.deep_view().clauses;
    let ghost all = Seq::new(v.len(), |i: int| v[i].row);
    let mut out: Vec<String> = list::empty();
    let mut i: usize = 0;
    while i < c.clauses.len()
        invariant
            i <= c.clauses@.len(),
            v == c.deep_view().clauses,
            all == Seq::new(v.len(), |i: int| v[i].row),
            out.deep_view() == all.take(i as int),
        decreases c.clauses@.len() - i,
    {
        assert(v[i as int] == c.clauses@[i as int].deep_view());
        list::push(&mut out, c.clauses[i].row.dup());
        i += 1;
        assert(out.deep_view() =~= all.take(i as int));
    }
    assert(all.take(v.len() as int) =~= all);
    list::dedup(&out)
}

/// The lines of the rows from index `i` on.
pub open spec fn rows_from(c: ContractDiffView, rows: Seq<Text>, src: SourceLineView, i: int) -> Seq<Text>
    decreases rows.len() - i,
{
    if 0 <= i < rows.len() {
        row_lines(c, rows[i], src) + rows_from(c, rows, src, i + 1)
    } else {
        seq![]
    }
}

/// The clause block of one contract.
pub open spec fn block_of(c: ContractDiffView, src: SourceLineView) -> Seq<Text> {
    rows_from(c, rows_of(c), src, 0)
}

/// The clause block of one contract, aligned for a monospace code block.
pub fn block(c: &ContractDiff, src: &SourceLine) -> (r: Vec<String>)
    ensures
        r.deep_view() == block_of(c.deep_view(), src.deep_view()),
{
    let rs = rows(c);
    let ghost cv = c.deep_view();
    let ghost s = src.deep_view();
    let ghost v = rs.deep_view();
    let mut out: Vec<String> = list::empty();
    let mut i: usize = 0;
    while i < rs.len()
        invariant
            i <= rs@.len(),
            cv == c.deep_view(),
            s == src.deep_view(),
            v == rs.deep_view(),
            out.deep_view() + rows_from(cv, v, s, i as int) == rows_from(cv, v, s, 0),
        decreases rs@.len() - i,
    {
        assert(v[i as int] == rs@[i as int]@);
        let ghost before = out.deep_view();
        list::append(&mut out, say_row(c, &rs[i], src));
        assert(before + rows_from(cv, v, s, i as int) =~= out.deep_view() + rows_from(
            cv,
            v,
            s,
            i + 1,
        ));
        i += 1;
    }
    out
}

// ---- contracts

/// A new route, or the event of a new handler.
pub open spec fn new_route(r: Text) -> Text {
    match text::after_prefix(r, "event "@) {
        Some(ev) => "event "@ + ticked(ev) + " (new handler)"@,
        None => ticked(r) + " (new route)"@,
    }
}

fn say_new_route(r: &str) -> (s: String)
    ensures
        s@ == new_route(r@),
{
    match text::strip_prefix(r, "event ") {
        Some(ev) => text::cat3("event ", &words::tick(&ev), " (new handler)"),
        None => text::cat2(&words::tick(r), " (new route)"),
    }
}

/// New routes.
pub open spec fn each_new_route(xs: Seq<Text>) -> Seq<Text> {
    Seq::new(xs.len(), |i: int| new_route(xs[i]))
}

fn say_new_routes(xs: &Vec<String>) -> (r: Vec<String>)
    ensures
        r.deep_view() == each_new_route(xs.deep_view()),
{
    let ghost v = xs.deep_view();
    let mut out: Vec<String> = list::empty();
    let mut i: usize = 0;
    while i < xs.len()
        invariant
            i <= xs@.len(),
            v == xs.deep_view(),
            out.deep_view() == each_new_route(v).take(i as int),
        decreases xs@.len() - i,
    {
        assert(v[i as int] == xs@[i as int]@);
        list::push(&mut out, say_new_route(&xs[i]));
        i += 1;
        assert(out.deep_view() =~= each_new_route(v).take(i as int));
    }
    assert(each_new_route(v).take(v.len() as int) =~= each_new_route(v));
    out
}

/// The routes of a contract, new ones first.
pub open spec fn routes_said(c: ContractDiffView) -> Seq<Text> {
    each_new_route(c.new_routes) + words::all_ticked(words::only_here(c.routes, c.new_routes))
}

/// From where a contract is reached, and its place.
pub open spec fn meta(c: ContractDiffView) -> Seq<Text> {
    (if c.routes.len() > 0 || c.new_routes.len() > 0 {
        seq![
            "reached from "@ + text::joined(first(routes_said(c), 3), ", "@) + more_than(
                routes_said(c).len(),
                3,
            ),
        ]
    } else {
        seq![]
    }) + (if c.loc.file.len() > 0 {
        seq![ticked(ir::loc_text(c.loc))]
    } else {
        seq![]
    })
}

fn say_meta(c: &ContractDiff) -> (r: Vec<String>)
    ensures
        r.deep_view() == meta(c.deep_view()),
{
    let mut out: Vec<String> = list::empty();
    if c.routes.len() > 0 || c.new_routes.len() > 0 {
        let mut shown = say_new_routes(&c.new_routes);
        list::append(&mut shown, words::tick_all(&words::not_in(&c.routes, &c.new_routes)));
        list::push(
            &mut out,
            text::cat3(
                "reached from ",
                &text::join(&words::take_first(&shown, 3), ", "),
                &words::and_more(shown.len(), 3),
            ),
        );
    }
    let ghost lead = out.deep_view();
    if !c.loc.file.as_str().is_empty() {
        list::push(&mut out, words::tick(&c.loc.render()));
    }
    assert(out.deep_view() =~= meta(c.deep_view()));
    out
}

/// What kind of contract this is.
pub open spec fn contract_kind(c: ContractDiffView) -> Text {
    if c.status == "new"@ {
        "new"@
    } else if c.status == "schema"@ {
        "validation schema"@
    } else if clauses::is_untyped(c) {
        "changed, untyped"@
    } else {
        "changed"@
    }
}

fn say_kind(c: &ContractDiff) -> (r: &'static str)
    ensures
        r@ == contract_kind(c.deep_view()),
{
    if text::same(&c.status, "new") {
        "new"
    } else if text::same(&c.status, "schema") {
        "validation schema"
    } else if c.untyped_only() {
        "changed, untyped"
    } else {
        "changed"
    }
}

/// Lines moved to the right.
pub open spec fn shifted(xs: Seq<Text>) -> Seq<Text> {
    Seq::new(xs.len(), |i: int| spaces(4) + xs[i])
}

fn shift(xs: &Vec<String>) -> (r: Vec<String>)
    ensures
        r.deep_view() == shifted(xs.deep_view()),
{
    let ghost v = xs.deep_view();
    let mut out: Vec<String> = list::empty();
    let mut i: usize = 0;
    while i < xs.len()
        invariant
            i <= xs@.len(),
            v == xs.deep_view(),
            out.deep_view() == shifted(v).take(i as int),
        decreases xs@.len() - i,
    {
        assert(v[i as int] == xs@[i as int]@);
        list::push(&mut out, text::cat2(&write_spaces(4), &xs[i]));
        i += 1;
        assert(out.deep_view() =~= shifted(v).take(i as int));
    }
    assert(shifted(v).take(v.len() as int) =~= shifted(v));
    out
}

/// The lines of one contract.
pub open spec fn contract_text(c: ContractDiffView, src: SourceLineView) -> Seq<Text> {
    seq!["### "@ + ticked(c.name) + " · "@ + contract_kind(c), ""@] + (if meta(c).len() > 0 {
        seq![text::joined(meta(c), " · "@), ""@]
    } else {
        seq![]
    }) + shifted(block_of(c, src)) + seq![""@]
}

fn say_contract(c: &ContractDiff, src: &SourceLine) -> (r: Vec<String>)
    ensures
        r.deep_view() == contract_text(c.deep_view(), src.deep_view()),
{
    let title = text::cat4("### ", &words::tick(&c.name), " · ", say_kind(c));
    let ghost titlev = title@;
    let mut out = list::one(title);
    list::push(&mut out, "".to_owned());
    assert(out.deep_view() =~= seq![titlev, ""@]);
    let m = say_meta(c);
    if m.len() > 0 {
        let line = text::join(&m, " · ");
        let ghost linev = line@;
        let mut more = list::one(line);
        list::push(&mut more, "".to_owned());
        assert(more.deep_view() =~= seq![linev, ""@]);
        list::append(&mut out, more);
    } else {
        assert(out.deep_view() =~= seq![titlev, ""@] + Seq::<Text>::empty());
    }
    list::append(&mut out, shift(&block(c, src)));
    let ghost before = out.deep_view();
    list::push(&mut out, "".to_owned());
    assert(out.deep_view() =~= before + seq![""@]);
    out
}

/// The lines of the contracts from index `i` on.
pub open spec fn contracts_from(cs: Seq<ContractDiffView>, src: SourceLineView, i: int) -> Seq<Text>
    decreases cs.len() - i,
{
    if 0 <= i < cs.len() {
        contract_text(cs[i], src) + contracts_from(cs, src, i + 1)
    } else {
        seq![]
    }
}

/// The contract diff, as lines.
pub open spec fn contracts_lines(t: TransitionView, header: Option<Text>, src: SourceLineView) -> Seq<Text> {
    seq![
        render::headed("## Contract diff"@, header, " · "@, ""@),
        ""@,
        contract_headline_of(t),
        ""@,
    ] + contracts_from(t.contracts, src, 0) + (match render::also_of(t.ops) {
        Some(a) => seq![a],
        None => seq![],
    })
}

/// The contract diff: per changed or new function, what it promises before and after.
pub fn contracts(t: &Transition, header: Option<&str>, src: &SourceLine) -> (r: String)
    ensures
        r@ == render::unlined(
            contracts_lines(t.deep_view(), header.deep_view(), src.deep_view()),
        ),
{
    let mut out = list::one(render::with_header("## Contract diff", header, " · ", ""));
    let ghost line = out.deep_view()[0];
    let head = contract_headline(t);
    let ghost headv = head@;
    list::push(&mut out, "".to_owned());
    list::push(&mut out, head);
    list::push(&mut out, "".to_owned());
    assert(out.deep_view() =~= seq![line, ""@, headv, ""@]);
    let ghost lead = out.deep_view();
    let ghost v = t.contracts.deep_view();
    let ghost s = src.deep_view();
    let mut i: usize = 0;
    while i < t.contracts.len()
        invariant
            i <= t.contracts@.len(),
            v == t.contracts.deep_view(),
            s == src.deep_view(),
            out.deep_view() + contracts_from(v, s, i as int) == lead + contracts_from(v, s, 0),
        decreases t.contracts@.len() - i,
    {
        assert(v[i as int] == t.contracts@[i as int].deep_view());
        let ghost before = out.deep_view();
        list::append(&mut out, say_contract(&t.contracts[i], src));
        assert(before + contracts_from(v, s, i as int) =~= out.deep_view() + contracts_from(
            v,
            s,
            i + 1,
        ));
        i += 1;
    }
    assert(out.deep_view() =~= lead + contracts_from(v, s, 0));
    if let Some(a) = render::also(&t.ops) {
        list::push(&mut out, a);
    }
    assert(out.deep_view() =~= contracts_lines(
        t.deep_view(),
        header.deep_view(),
        src.deep_view(),
    ));
    render::unlines(&out)
}

// ---- one-liners

/// A clause that changed in a way that is typed.
pub open spec fn is_changed(x: ClauseView) -> bool {
    x.mark != ' ' && x.mark != '?'
}

/// A changed clause as text.
pub open spec fn clause_text(x: ClauseView) -> Text {
    if x.row == "renders"@ && restyled_text(x) is Some {
        restyled_line(restyled_text(x)->0)
    } else {
        match (x.before, x.after) {
            (Some(b), Some(a)) => item_text(x.row, b) + " → "@ + item_text(x.row, a),
            (None, Some(a)) => item_text(x.row, a),
            (Some(b), None) => item_text(x.row, b),
            (None, None) => ""@,
        }
    }
}

fn say_clause_text(x: &Clause) -> (r: String)
    ensures
        r@ == clause_text(x.deep_view()),
{
    if text::same(&x.row, "renders") {
        if let Some((c, b, a)) = restyled(x) {
            return text::cat5(&c, ": ", &b, "  →  ", &a);
        }
    }
    match (&x.before, &x.after) {
        (Some(b), Some(a)) => text::cat3(&item(&x.row, b), " → ", &item(&x.row, a)),
        (None, Some(a)) => item(&x.row, a),
        (Some(b), None) => item(&x.row, b),
        (None, None) => "".to_owned(),
    }
}

/// The place of a clause, after the change where there is one.
pub open spec fn clause_place(x: ClauseView) -> Text {
    match x.evidence_after {
        Some(l) => "  "@ + ir::loc_text(l),
        None => match x.evidence_before {
            Some(l) => "  "@ + ir::loc_text(l),
            None => ""@,
        },
    }
}

fn say_clause_place(x: &Clause) -> (r: String)
    ensures
        r@ == clause_place(x.deep_view()),
{
    match &x.evidence_after {
        Some(l) => text::cat2("  ", &l.render()),
        None => match &x.evidence_before {
            Some(l) => text::cat2("  ", &l.render()),
            None => "".to_owned(),
        },
    }
}

/// A changed clause on one line.
pub open spec fn clause_line(x: ClauseView) -> Text {
    "  "@ + row_head(x.mark, x.row) + clause_text(x) + (match x.tag {
        Some(t) => "  ("@ + t + ")"@,
        None => ""@,
    }) + clause_place(x)
}

fn say_clause_line(x: &Clause) -> (r: String)
    ensures
        r@ == clause_line(x.deep_view()),
{
    let tag = match &x.tag {
        Some(t) => text::cat3("  (", t, ")"),
        None => "".to_owned(),
    };
    text::cat5(
        "  ",
        &say_head(x.mark, &x.row),
        &say_clause_text(x),
        &tag,
        &say_clause_place(x),
    )
}

/// The changed clauses from index `i` on, one line each.
pub open spec fn clause_lines_from(xs: Seq<ClauseView>, i: int) -> Seq<Text>
    decreases xs.len() - i,
{
    if 0 <= i < xs.len() {
        (if is_changed(xs[i]) {
            seq![clause_line(xs[i])]
        } else {
            seq![]
        }) + clause_lines_from(xs, i + 1)
    } else {
        seq![]
    }
}

fn say_clause_lines(xs: &Vec<Clause>) -> (r: Vec<String>)
    ensures
        r.deep_view() == clause_lines_from(xs.deep_view(), 0),
{
    let ghost v = xs.deep_view();
    let mut out: Vec<String> = list::empty();
    let mut i: usize = 0;
    while i < xs.len()
        invariant
            i <= xs@.len(),
            v == xs.deep_view(),
            out.deep_view() + clause_lines_from(v, i as int) == clause_lines_from(v, 0),
        decreases xs@.len() - i,
    {
        assert(v[i as int] == xs@[i as int].deep_view());
        if xs[i].mark != ' ' && xs[i].mark != '?' {
            list::push(&mut out, say_clause_line(&xs[i]));
        }
        i += 1;
    }
    out
}

/// The line over the changed clauses of a contract.
pub open spec fn contract_line(c: ContractDiffView) -> Text {
    c.name + " · "@ + (if c.status == "new"@ {
        "new"@
    } else {
        "changed"@
    }) + (if c.new_routes.len() == 0 {
        ""@
    } else {
        " (new route "@ + text::joined(c.new_routes, ", "@) + ")"@
    })
}

fn say_contract_line(c: &ContractDiff) -> (r: String)
    ensures
        r@ == contract_line(c.deep_view()),
{
    let status = if text::same(&c.status, "new") {
        "new"
    } else {
        "changed"
    };
    let routes = if c.new_routes.len() == 0 {
        "".to_owned()
    } else {
        text::cat3(" (new route ", &text::join(&c.new_routes, ", "), ")")
    };
    text::cat4(&c.name, " · ", status, &routes)
}

/// The changed clauses of the contracts from index `i` on.
pub open spec fn contract_lines_from(cs: Seq<ContractDiffView>, i: int) -> Seq<Text>
    decreases cs.len() - i,
{
    if 0 <= i < cs.len() {
        let lines = clause_lines_from(cs[i].clauses, 0);
        (if lines.len() > 0 {
            seq![contract_line(cs[i])] + lines
        } else {
            seq![]
        }) + contract_lines_from(cs, i + 1)
    } else {
        seq![]
    }
}

/// Each contract's changed clauses as one-liners.
pub fn contract_lines(t: &Transition) -> (r: Vec<String>)
    ensures
        r.deep_view() == contract_lines_from(t.deep_view().contracts, 0),
{
    let ghost v = t.contracts.deep_view();
    let mut out: Vec<String> = list::empty();
    let mut i: usize = 0;
    while i < t.contracts.len()
        invariant
            i <= t.contracts@.len(),
            v == t.contracts.deep_view(),
            out.deep_view() + contract_lines_from(v, i as int) == contract_lines_from(v, 0),
        decreases t.contracts@.len() - i,
    {
        assert(v[i as int] == t.contracts@[i as int].deep_view());
        let ghost before = out.deep_view();
        let lines = say_clause_lines(&t.contracts[i].clauses);
        if lines.len() > 0 {
            list::push(&mut out, say_contract_line(&t.contracts[i]));
            list::append(&mut out, lines);
        }
        assert(before + contract_lines_from(v, i as int) =~= out.deep_view() + contract_lines_from(
            v,
            i + 1,
        ));
        i += 1;
    }
    out
}

// ---- headline

/// A contract that a headline counts.
pub open spec fn is_counted(c: ContractDiffView, what: int) -> bool {
    if what == 0 {
        c.status == "changed"@ && c.name != "Program"@ && !clauses::is_untyped(c)
    } else if what == 1 {
        c.status == "new"@
    } else if what == 2 {
        c.status == "schema"@
    } else {
        c.status == "changed"@ && clauses::is_untyped(c)
    }
}

/// The number of contracts of a sort from index `i` on.
pub open spec fn counted_from(cs: Seq<ContractDiffView>, what: int, i: int) -> nat
    decreases cs.len() - i,
{
    if 0 <= i < cs.len() {
        (if is_counted(cs[i], what) {
            1nat
        } else {
            0
        }) + counted_from(cs, what, i + 1)
    } else {
        0
    }
}

fn count_contracts(cs: &Vec<ContractDiff>, what: u8) -> (r: usize)
    ensures
        r == counted_from(cs.deep_view(), what as int, 0),
{
    let ghost v = cs.deep_view();
    let mut n: usize = 0;
    let mut i: usize = 0;
    while i < cs.len()
        invariant
            i <= cs@.len(),
            n <= i,
            v == cs.deep_view(),
            n + counted_from(v, what as int, i as int) == counted_from(v, what as int, 0),
        decreases cs@.len() - i,
    {
        assert(v[i as int] == cs@[i as int].deep_view());
        let c = &cs[i];
        let hit = if what == 0 {
            text::same(&c.status, "changed") && !text::same(&c.name, "Program") && !c.untyped_only()
        } else if what == 1 {
            text::same(&c.status, "new")
        } else if what == 2 {
            text::same(&c.status, "schema")
        } else {
            text::same(&c.status, "changed") && c.untyped_only()
        };
        if hit {
            n += 1;
        }
        i += 1;
    }
    n
}

/// The number of broken rules among the clauses from index `i` on.
pub open spec fn broken_from(xs: Seq<ClauseView>, i: int) -> nat
    decreases xs.len() - i,
{
    if 0 <= i < xs.len() {
        (if xs[i].mark == '!' {
            1nat
        } else {
            0
        }) + broken_from(xs, i + 1)
    } else {
        0
    }
}

/// The number of broken rules in the contracts from index `i` on.
pub open spec fn rules_from(cs: Seq<ContractDiffView>, i: int) -> nat
    decreases cs.len() - i,
{
    if 0 <= i < cs.len() {
        broken_from(cs[i].clauses, 0) + rules_from(cs, i + 1)
    } else {
        0
    }
}

fn count_broken(xs: &Vec<Clause>) -> (r: usize)
    ensures
        r == broken_from(xs.deep_view(), 0),
{
    let ghost v = xs.deep_view();
    let mut n: usize = 0;
    let mut i: usize = 0;
    while i < xs.len()
        invariant
            i <= xs@.len(),
            n <= i,
            v == xs.deep_view(),
            n + broken_from(v, i as int) == broken_from(v, 0),
        decreases xs@.len() - i,
    {
        assert(v[i as int] == xs@[i as int].deep_view());
        if xs[i].mark == '!' {
            n += 1;
        }
        i += 1;
    }
    n
}

/// The number of broken rules, as far as it can be counted.
pub open spec fn rules_counted(cs: Seq<ContractDiffView>) -> nat {
    if rules_from(cs, 0) <= usize::MAX {
        rules_from(cs, 0)
    } else {
        usize::MAX as nat
    }
}

fn count_rules(cs: &Vec<ContractDiff>) -> (r: usize)
    ensures
        r == rules_counted(cs.deep_view()),
{
    let ghost v = cs.deep_view();
    let mut n: usize = 0;
    let mut i: usize = 0;
    while i < cs.len()
        invariant
            i <= cs@.len(),
            v == cs.deep_view(),
            n + rules_from(v, i as int) == rules_from(v, 0),
        decreases cs@.len() - i,
    {
        assert(v[i as int] == cs@[i as int].deep_view());
        let k: usize = count_broken(&cs[i].clauses);
        if k > usize::MAX - n {
            return usize::MAX;
        }
        n += k;
        i += 1;
    }
    n
}

/// A part of the headline; none for nothing.
pub open spec fn counted_part(n: nat, one: Text, many: Text) -> Seq<Text> {
    if n > 0 {
        seq![counted(n, one, many)]
    } else {
        seq![]
    }
}

fn say_part(parts: &mut Vec<String>, n: usize, one: &str, many: &str)
    ensures
        final(parts).deep_view() == old(parts).deep_view() + counted_part(n as nat, one@, many@),
{
    if n > 0 {
        list::push(parts, words::plural(n, one, many));
    }
    assert(parts.deep_view() =~= old(parts).deep_view() + counted_part(n as nat, one@, many@));
}

/// What a headline says first.
pub open spec fn main_parts(cs: Seq<ContractDiffView>) -> Seq<Text> {
    counted_part(counted_from(cs, 0, 0), "contract changed"@, "contracts changed"@) + counted_part(
        counted_from(cs, 1, 0),
        "new contract"@,
        "new contracts"@,
    ) + counted_part(
        counted_from(cs, 2, 0),
        "validation schema changed"@,
        "validation schemas changed"@,
    )
}

/// The legend of the marks.
pub open spec fn legend() -> Text {
    "\n\n`+` added · `-` removed · `~` changed · `!` rule broken · `?` untyped · unmarked: unchanged · `a → b`: before → after"@
}

/// The change in one line, with the legend of the marks.
pub open spec fn contract_headline_of(t: TransitionView) -> Text {
    let cs = t.contracts;
    if cs.len() == 0 {
        render::headline_of(t, render::planned(t.ops))
    } else {
        let parts = main_parts(cs);
        let rules = rules_counted(cs);
        let untyped = counted_from(cs, 3, 0);
        (if parts.len() == 0 {
            "**No behaviour change Merak can name.**"@
        } else {
            "**"@ + in_words(parts) + ".**"@
        }) + (if rules > 0 {
            " "@ + counted(rules, "rule"@, "rules"@) + " broken."@
        } else {
            ""@
        }) + (if untyped > 0 {
            " "@ + counted(untyped, "change"@, "changes"@) + " Merak can't type: review by hand."@
        } else {
            ""@
        }) + legend()
    }
}

fn contract_headline(t: &Transition) -> (r: String)
    ensures
        r@ == contract_headline_of(t.deep_view()),
{
    if t.contracts.len() == 0 {
        return render::headline(t, &render::NewCode::plan(t));
    }
    let mut parts: Vec<String> = list::empty();
    say_part(
        &mut parts,
        count_contracts(&t.contracts, 0),
        "contract changed",
        "contracts changed",
    );
    say_part(&mut parts, count_contracts(&t.contracts, 1), "new contract", "new contracts");
    say_part(
        &mut parts,
        count_contracts(&t.contracts, 2),
        "validation schema changed",
        "validation schemas changed",
    );
    assert(parts.deep_view() =~= main_parts(t.deep_view().contracts));
    let rules: usize = count_rules(&t.contracts);
    let untyped: usize = count_contracts(&t.contracts, 3);
    let lead = if parts.len() == 0 {
        "**No behaviour change Merak can name.**".to_owned()
    } else {
        text::cat3("**", &words::join_and(&parts), ".**")
    };
    let broken = if rules > 0 {
        text::cat3(" ", &words::plural(rules, "rule", "rules"), " broken.")
    } else {
        "".to_owned()
    };
    let hand = if untyped > 0 {
        text::cat3(
            " ",
            &words::plural(untyped, "change", "changes"),
            " Merak can't type: review by hand.",
        )
    } else {
        "".to_owned()
    };
    text::cat4(
        &lead,
        &broken,
        &hand,
        "\n\n`+` added · `-` removed · `~` changed · `!` rule broken · `?` untyped · unmarked: unchanged · `a → b`: before → after",
    )
}

} // verus!
