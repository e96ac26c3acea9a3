//! Text as sequences of characters: the operations on strings that the analysis
//! is written with, each stated over `Seq<char>`.

use vstd::prelude::*;

verus! {

/// The characters of a piece of text.
pub type Text = Seq<char>;

/// Whether two texts are the same. Calls `==` on `str`, which compares the texts.
#[verifier::external_body]
pub(crate) fn same(a: &str, b: &str) -> (r: bool)
    ensures
        r == (a@ == b@),
{
    a == b
}

/// Whether `a` comes before `b`. Calls `<` on `str`, which orders texts
/// lexicographically by their code points.
#[verifier::external_body]
pub(crate) fn comes_before(a: &str, b: &str) -> (r: bool)
    ensures
        r == before(a@, b@),
{
    a < b
}

/// Appends one character. Calls `String::push`.
#[verifier::external_body]
pub(crate) fn push_char(s: &mut String, c: char)
    ensures
        final(s)@ == old(s)@.push(c),
{
    s.push(c)
}

/// The text that `str::to_uppercase` gives.
pub uninterp spec fn uppercase(s: Seq<char>) -> Seq<char>;

/// Upper case by the Unicode tables. Calls `str::to_uppercase`.
#[verifier::external_body]
pub(crate) fn to_upper(s: &str) -> (r: String)
    ensures
        r@ == uppercase(s@),
{
    s.to_uppercase()
}

/// The text that `str::to_lowercase` gives.
pub uninterp spec fn lowercase(s: Seq<char>) -> Seq<char>;

/// Lower case by the Unicode tables. Calls `str::to_lowercase`.
#[verifier::external_body]
pub(crate) fn to_lower(s: &str) -> (r: String)
    ensures
        r@ == lowercase(s@),
{
    s.to_lowercase()
}

/// The quoted and escaped form that `Debug` gives a string.
pub uninterp spec fn quoted(s: Seq<char>) -> Seq<char>;

/// A string in quotes, as source text would write it. Calls `str`'s `Debug` impl.
#[verifier::external_body]
pub(crate) fn quote(s: &str) -> (r: String)
    ensures
        r@ == quoted(s@),
{
    format!("{:?}", s)
}

/// Whether `char::is_alphanumeric` holds.
pub uninterp spec fn alphanumeric(c: char) -> bool;

/// Letters and digits by the Unicode tables. Calls `char::is_alphanumeric`.
#[verifier::external_body]
pub(crate) fn is_alphanumeric(c: char) -> (r: bool)
    ensures
        r == alphanumeric(c),
{
    c.is_alphanumeric()
}

/// A character with the property White_Space of the Unicode Character Database.
pub open spec fn white_space(c: char) -> bool {
    ('\u{9}' <= c && c <= '\u{d}') || c == ' ' || c == '\u{85}' || c == '\u{a0}' || c == '\u{1680}'
        || ('\u{2000}' <= c && c <= '\u{200a}') || c == '\u{2028}' || c == '\u{2029}' || c
        == '\u{202f}' || c == '\u{205f}' || c == '\u{3000}'
}

/// Whether a character is white space.
pub(crate) fn is_white_space(c: char) -> (r: bool)
    ensures
        r == white_space(c),
{
    ('\u{9}' <= c && c <= '\u{d}') || c == ' ' || c == '\u{85}' || c == '\u{a0}' || c == '\u{1680}'
        || ('\u{2000}' <= c && c <= '\u{200a}') || c == '\u{2028}' || c == '\u{2029}' || c
        == '\u{202f}' || c == '\u{205f}' || c == '\u{3000}'
}

/// Whether `char::is_uppercase` holds.
pub uninterp spec fn upper_case(c: char) -> bool;

/// Upper-case letters by the Unicode tables. Calls `char::is_uppercase`.
#[verifier::external_body]
pub(crate) fn is_upper_case(c: char) -> (r: bool)
    ensures
        r == upper_case(c),
{
    c.is_uppercase()
}

// ---- order

/// Lexicographic order by code point.
pub open spec fn before(a: Text, b: Text) -> bool
    decreases a.len(),
{
    if b.len() == 0 {
        false
    } else if a.len() == 0 {
        true
    } else if a[0] != b[0] {
        a[0] < b[0]
    } else {
        before(a.drop_first(), b.drop_first())
    }
}

/// No text comes before itself.
pub proof fn before_irreflexive(a: Text)
    ensures
        !before(a, a),
    decreases a.len(),
{
    if a.len() > 0 {
        before_irreflexive(a.drop_first());
    }
}

/// The order of texts is transitive.
pub proof fn before_transitive(a: Text, b: Text, c: Text)
    requires
        before(a, b),
        before(b, c),
    ensures
        before(a, c),
    decreases a.len(),
{
    if a.len() > 0 && a[0] == b[0] && b[0] == c[0] {
        before_transitive(a.drop_first(), b.drop_first(), c.drop_first());
    }
}

/// Two different texts are ordered one way or the other.
pub proof fn before_total(a: Text, b: Text)
    ensures
        a == b || before(a, b) || before(b, a),
    decreases a.len(),
{
    if a.len() > 0 && b.len() > 0 && a[0] == b[0] {
        before_total(a.drop_first(), b.drop_first());
        if a.drop_first() == b.drop_first() {
            assert(a =~= seq![a[0]] + a.drop_first());
            assert(b =~= seq![b[0]] + b.drop_first());
        }
    } else if a.len() == 0 && b.len() == 0 {
        assert(a =~= b);
    }
}

// ---- concatenation

/// `a` followed by `b`.
pub fn cat2(a: &str, b: &str) -> (r: String)
    ensures
        r@ == a@ + b@,
{
    let mut s = a.to_owned();
    s.append(b);
    s
}

/// Three texts, one after the other.
pub fn cat3(a: &str, b: &str, c: &str) -> (r: String)
    ensures
        r@ == a@ + b@ + c@,
{
    let mut s = cat2(a, b);
    s.append(c);
    s
}

/// Four texts, one after the other.
pub fn cat4(a: &str, b: &str, c: &str, d: &str) -> (r: String)
    ensures
        r@ == a@ + b@ + c@ + d@,
{
    let mut s = cat3(a, b, c);
    s.append(d);
    s
}

/// Five texts, one after the other.
pub fn cat5(a: &str, b: &str, c: &str, d: &str, e: &str) -> (r: String)
    ensures
        r@ == a@ + b@ + c@ + d@ + e@,
{
    let mut s = cat4(a, b, c, d);
    s.append(e);
    s
}

/// Six texts, one after the other.
pub fn cat6(a: &str, b: &str, c: &str, d: &str, e: &str, f: &str) -> (r: String)
    ensures
        r@ == a@ + b@ + c@ + d@ + e@ + f@,
{
    let mut s = cat5(a, b, c, d, e);
    s.append(f);
    s
}

/// Seven texts, one after the other.
pub fn cat7(a: &str, b: &str, c: &str, d: &str, e: &str, f: &str, g: &str) -> (r: String)
    ensures
        r@ == a@ + b@ + c@ + d@ + e@ + f@ + g@,
{
    let mut s = cat6(a, b, c, d, e, f);
    s.append(g);
    s
}

/// The parts from index `i` on, with `sep` between them.
pub open spec fn joined_from(parts: Seq<Text>, sep: Text, i: int) -> Text
    decreases parts.len() - i,
{
    if i < 0 || i >= parts.len() {
        seq![]
    } else if i == parts.len() - 1 {
        parts[i]
    } else {
        parts[i] + sep + joined_from(parts, sep, i + 1)
    }
}

/// The parts with `sep` between them.
pub open spec fn joined(parts: Seq<Text>, sep: Text) -> Text {
    joined_from(parts, sep, 0)
}

/// Joins the parts with `sep` between them.
pub fn join(parts: &Vec<String>, sep: &str) -> (r: String)
    ensures
        r@ == joined(parts.deep_view(), sep@),
{
    let mut out = String::new();
    let mut i: usize = 0;
    while i < parts.len()
        invariant
            i <= parts.len(),
            out@ + joined_from(parts.deep_view(), sep@, i as int) == joined(
                parts.deep_view(),
                sep@,
            ),
        decreases parts.len() - i,
    {
        out.append(&parts[i]);
        if i + 1 < parts.len() {
            out.append(sep);
        }
        i += 1;
    }
    out
}

// ---- characters

/// The characters of a text, as a vector.
pub fn chars_of(s: &str) -> (r: Vec<char>)
    ensures
        r@ == s@,
{
    let mut v: Vec<char> = Vec::new();
    for c in it: s.chars()
        invariant
            v@ == s@.take(it.index()),
            it.seq() == s@,
    {
        v.push(c);
    }
    assert(s@.take(s@.len() as int) =~= s@);
    v
}

/// The text of the characters `v[a..b]`.
pub fn text_of(v: &Vec<char>, a: usize, b: usize) -> (r: String)
    requires
        a <= b <= v@.len(),
    ensures
        r@ == v@.subrange(a as int, b as int),
{
    let mut s = String::new();
    let mut i: usize = a;
    while i < b
        invariant
            a <= i <= b,
            b <= v@.len(),
            s@ == v@.subrange(a as int, i as int),
        decreases b - i,
    {
        push_char(&mut s, v[i]);
        i += 1;
    }
    s
}

// ---- searching

/// `p` stands in `s` at index `i`.
pub open spec fn occurs_at(s: Text, p: Text, i: int) -> bool {
    0 <= i && i + p.len() <= s.len() && s.subrange(i, i + p.len()) == p
}

/// The first place at or after `from` where `p` stands in `s`.
pub open spec fn first_from(s: Text, p: Text, from: int) -> Option<int>
    decreases s.len() - from + 1,
{
    if from < 0 || from + p.len() > s.len() {
        None
    } else if occurs_at(s, p, from) {
        Some(from)
    } else {
        first_from(s, p, from + 1)
    }
}

/// The last place at or before `upto` where `p` stands in `s`.
pub open spec fn last_upto(s: Text, p: Text, upto: int) -> Option<int>
    decreases upto + 1,
{
    if upto < 0 {
        None
    } else if occurs_at(s, p, upto) {
        Some(upto)
    } else {
        last_upto(s, p, upto - 1)
    }
}

/// What [`first_from`] gives is a place at or after `from`.
pub proof fn first_from_is_place(s: Text, p: Text, from: int)
    ensures
        first_from(s, p, from) matches Some(i) ==> from <= i && occurs_at(s, p, i),
    decreases s.len() - from + 1,
{
    if from >= 0 && from + p.len() <= s.len() && !occurs_at(s, p, from) {
        first_from_is_place(s, p, from + 1);
    }
}

/// No earlier place than the one that [`first_from`] gives holds `p`.
pub proof fn first_from_is_first(s: Text, p: Text, from: int, i: int)
    requires
        0 <= from <= i,
        occurs_at(s, p, i),
    ensures
        first_from(s, p, from) matches Some(j) && j <= i,
    decreases s.len() - from,
{
    if !occurs_at(s, p, from) {
        first_from_is_first(s, p, from + 1, i);
    }
}

/// `p` stands somewhere in `s`.
pub open spec fn has_text(s: Text, p: Text) -> bool {
    exists|i: int| occurs_at(s, p, i)
}

/// `s` begins with `p`.
pub open spec fn begins(s: Text, p: Text) -> bool {
    occurs_at(s, p, 0)
}

/// `s` ends with `p`.
pub open spec fn ends(s: Text, p: Text) -> bool {
    occurs_at(s, p, s.len() - p.len())
}

fn matches_at(v: &Vec<char>, p: &Vec<char>, i: usize) -> (r: bool)
    requires
        i <= v@.len(),
    ensures
        r == occurs_at(v@, p@, i as int),
{
    if p.len() > v.len() - i {
        return false;
    }
    let n: usize = v.len();
    let mut k: usize = 0;
    while k < p.len()
        invariant
            k <= p@.len(),
            n == v@.len(),
            i + p@.len() <= n,
            forall|j: int| 0 <= j < k ==> v@[i + j] == p@[j],
        decreases p@.len() - k,
    {
        if v[i + k] != p[k] {
            assert(v@.subrange(i as int, i + p@.len())[k as int] != p@[k as int]);
            return false;
        }
        k += 1;
    }
    assert(v@.subrange(i as int, i + p@.len()) =~= p@);
    true
}

fn find_from(v: &Vec<char>, p: &Vec<char>, from: usize) -> (r: Option<usize>)
    requires
        from <= v@.len(),
    ensures
        match r {
            Some(i) => first_from(v@, p@, from as int) == Some(i as int),
            None => first_from(v@, p@, from as int) is None,
        },
        r matches Some(i) ==> from <= i && i + p@.len() <= v@.len(),
{
    let mut i: usize = from;
    while i <= v.len() && p.len() <= v.len() - i
        invariant
            from <= i,
            first_from(v@, p@, from as int) == first_from(v@, p@, i as int),
        decreases v@.len() + 1 - i,
    {
        if matches_at(v, p, i) {
            return Some(i);
        }
        if i == v.len() {
            assert(first_from(v@, p@, i + 1) is None);
            return None;
        }
        i += 1;
    }
    None
}

/// The first place at or after `from` where `p` stands in `v`.
pub fn find_str(v: &Vec<char>, p: &str, from: usize) -> (r: Option<usize>)
    requires
        from <= v@.len(),
    ensures
        match r {
            Some(i) => first_from(v@, p@, from as int) == Some(i as int),
            None => first_from(v@, p@, from as int) is None,
        },
        r matches Some(i) ==> from <= i && i + p@.len() <= v@.len(),
{
    find_from(v, &chars_of(p), from)
}

fn find_last(v: &Vec<char>, p: &Vec<char>) -> (r: Option<usize>)
    ensures
        match r {
            Some(i) => last_upto(v@, p@, v@.len() as int) == Some(i as int) && i + p@.len()
                <= v@.len(),
            None => last_upto(v@, p@, v@.len() as int) is None,
        },
{
    let mut i: usize = v.len();
    loop
        invariant
            i <= v@.len(),
            last_upto(v@, p@, v@.len() as int) == last_upto(v@, p@, i as int),
        decreases i,
    {
        if matches_at(v, p, i) {
            return Some(i);
        }
        if i == 0 {
            assert(last_upto(v@, p@, -1) is None);
            return None;
        }
        i -= 1;
    }
}

/// Whether `p` stands somewhere in `s`.
pub fn contains(s: &str, p: &str) -> (r: bool)
    ensures
        r == has_text(s@, p@),
{
    let v = chars_of(s);
    let q = chars_of(p);
    let r = find_from(&v, &q, 0);
    proof {
        first_from_is_place(s@, p@, 0);
        if has_text(s@, p@) {
            let i = choose|i: int| occurs_at(s@, p@, i);
            first_from_is_first(s@, p@, 0, i);
        }
    }
    r.is_some()
}

/// Whether `s` begins with `p`.
pub fn starts_with(s: &str, p: &str) -> (r: bool)
    ensures
        r == begins(s@, p@),
{
    matches_at(&chars_of(s), &chars_of(p), 0)
}

/// Whether `s` ends with `p`.
pub fn ends_with(s: &str, p: &str) -> (r: bool)
    ensures
        r == ends(s@, p@),
{
    let v = chars_of(s);
    let q = chars_of(p);
    if q.len() > v.len() {
        false
    } else {
        matches_at(&v, &q, v.len() - q.len())
    }
}

/// What follows `p` at the start of `s`.
pub open spec fn after_prefix(s: Text, p: Text) -> Option<Text> {
    if begins(s, p) {
        Some(s.skip(p.len() as int))
    } else {
        None
    }
}

/// What precedes `p` at the end of `s`.
pub open spec fn before_suffix(s: Text, p: Text) -> Option<Text> {
    if ends(s, p) {
        Some(s.take(s.len() - p.len()))
    } else {
        None
    }
}

/// `s` without the prefix `p`, if it has it.
pub fn strip_prefix(s: &str, p: &str) -> (r: Option<String>)
    ensures
        r.deep_view() == after_prefix(s@, p@),
{
    let v = chars_of(s);
    let q = chars_of(p);
    if matches_at(&v, &q, 0) {
        Some(text_of(&v, q.len(), v.len()))
    } else {
        None
    }
}

/// `s` without the suffix `p`, if it has it.
pub fn strip_suffix(s: &str, p: &str) -> (r: Option<String>)
    ensures
        r.deep_view() == before_suffix(s@, p@),
{
    let v = chars_of(s);
    let q = chars_of(p);
    if q.len() <= v.len() && matches_at(&v, &q, v.len() - q.len()) {
        Some(text_of(&v, 0, v.len() - q.len()))
    } else {
        None
    }
}

/// `s` with every trailing `p` taken away.
pub open spec fn trimmed_end(s: Text, p: Text) -> Text
    decreases s.len(),
{
    if p.len() > 0 && ends(s, p) {
        trimmed_end(s.take(s.len() - p.len()), p)
    } else {
        s
    }
}

/// Takes every trailing `p` away.
pub fn trim_end(s: &str, p: &str) -> (r: String)
    ensures
        r@ == trimmed_end(s@, p@),
{
    let mut cur = s.to_owned();
    loop
        invariant
            trimmed_end(cur@, p@) == trimmed_end(s@, p@),
        decreases cur@.len(),
    {
        if p.is_empty() {
            return cur;
        }
        match strip_suffix(&cur, p) {
            Some(t) => {
                cur = t;
            },
            None => {
                return cur;
            },
        }
    }
}

/// `s` with every leading `p` taken away.
pub open spec fn trimmed_start(s: Text, p: Text) -> Text
    decreases s.len(),
{
    if p.len() > 0 && begins(s, p) {
        trimmed_start(s.skip(p.len() as int), p)
    } else {
        s
    }
}

/// Takes every leading `p` away.
pub fn trim_start(s: &str, p: &str) -> (r: String)
    ensures
        r@ == trimmed_start(s@, p@),
{
    let mut cur = s.to_owned();
    loop
        invariant
            trimmed_start(cur@, p@) == trimmed_start(s@, p@),
        decreases cur@.len(),
    {
        if p.is_empty() {
            return cur;
        }
        match strip_prefix(&cur, p) {
            Some(t) => {
                cur = t;
            },
            None => {
                return cur;
            },
        }
    }
}

// ---- splitting

/// The pieces of `s` from index `start` on, parted by `p`.
pub open spec fn pieces_from(s: Text, p: Text, start: int) -> Seq<Text>
    decreases s.len() - start,
{
    proof {
        first_from_is_place(s, p, start);
    }
    match first_from(s, p, start) {
        Some(i) if p.len() > 0 => seq![s.subrange(start, i)] + pieces_from(s, p, i + p.len()),
        _ => seq![s.skip(start)],
    }
}

/// The pieces of `s` parted by `p`; all of `s` where `p` is empty.
pub open spec fn pieces(s: Text, p: Text) -> Seq<Text> {
    pieces_from(s, p, 0)
}

/// No piece is longer than the text.
pub proof fn piece_is_no_longer(s: Text, p: Text, start: int, i: int)
    requires
        0 <= start <= s.len(),
        0 <= i < pieces_from(s, p, start).len(),
    ensures
        pieces_from(s, p, start)[i].len() <= s.len() - start,
    decreases s.len() - start,
{
    first_from_is_place(s, p, start);
    match first_from(s, p, start) {
        Some(k) if p.len() > 0 => {
            if i > 0 {
                piece_is_no_longer(s, p, k + p.len(), i - 1);
            }
        },
        _ => {},
    }
}

/// Splits `s` at every `p`.
pub fn split(s: &str, p: &str) -> (r: Vec<String>)
    ensures
        r.deep_view() == pieces(s@, p@),
        r@.len() > 0,
{
    let v = chars_of(s);
    let q = chars_of(p);
    let mut out: Vec<String> = Vec::new();
    let mut start: usize = 0;
    loop
        invariant
            v@ == s@,
            q@ == p@,
            start <= v@.len(),
            out.deep_view() + pieces_from(s@, p@, start as int) == pieces(s@, p@),
        decreases v@.len() - start,
    {
        let n: usize = v.len();
        let found = find_from(&v, &q, start);
        match found {
            Some(i) if q.len() > 0 => {
                out.push(text_of(&v, start, i));
                start = i + q.len();
            },
            _ => {
                out.push(text_of(&v, start, v.len()));
                return out;
            },
        }
    }
}

/// The text after the last `p`, or all of `s`.
pub open spec fn after_last(s: Text, p: Text) -> Text {
    match last_upto(s, p, s.len() as int) {
        Some(i) => s.skip(i + p.len()),
        None => s,
    }
}

/// The text after the last `p` in `s`, or all of `s`.
pub fn last_piece(s: &str, p: &str) -> (r: String)
    ensures
        r@ == after_last(s@, p@),
{
    let v = chars_of(s);
    let q = chars_of(p);
    let n: usize = v.len();
    match find_last(&v, &q) {
        Some(i) => text_of(&v, i + q.len(), n),
        None => s.to_owned(),
    }
}

/// The texts around the first `p`.
pub open spec fn parted(s: Text, p: Text) -> Option<(Text, Text)> {
    match first_from(s, p, 0) {
        Some(i) => Some((s.take(i), s.skip(i + p.len()))),
        None => None,
    }
}

/// The texts around the last `p`.
pub open spec fn parted_last(s: Text, p: Text) -> Option<(Text, Text)> {
    match last_upto(s, p, s.len() as int) {
        Some(i) => Some((s.take(i), s.skip(i + p.len()))),
        None => None,
    }
}

/// Splits `s` at the first `p`.
pub fn split_once(s: &str, p: &str) -> (r: Option<(String, String)>)
    ensures
        r.deep_view() == parted(s@, p@),
{
    let v = chars_of(s);
    let q = chars_of(p);
    let n: usize = v.len();
    match find_from(&v, &q, 0) {
        Some(i) => Some((text_of(&v, 0, i), text_of(&v, i + q.len(), n))),
        None => None,
    }
}

/// Splits `s` at the last `p`.
pub fn rsplit_once(s: &str, p: &str) -> (r: Option<(String, String)>)
    ensures
        r.deep_view() == parted_last(s@, p@),
{
    let v = chars_of(s);
    let q = chars_of(p);
    let n: usize = v.len();
    match find_last(&v, &q) {
        Some(i) => Some((text_of(&v, 0, i), text_of(&v, i + q.len(), n))),
        None => None,
    }
}

/// `s` with every `p` replaced by `q`.
pub open spec fn replaced(s: Text, p: Text, q: Text) -> Text {
    joined(pieces(s, p), q)
}

/// Replaces every `p` in `s` by `q`.
pub fn replace(s: &str, p: &str, q: &str) -> (r: String)
    ensures
        r@ == replaced(s@, p@, q@),
{
    join(&split(s, p), q)
}

// ---- words

/// The first index at or after `i` whose character is white space (or is not), or the length.
pub open spec fn run_end(s: Text, i: int, white: bool) -> int
    decreases s.len() - i,
{
    if 0 <= i < s.len() && white_space(s[i]) != white {
        run_end(s, i + 1, white)
    } else {
        i
    }
}

/// A run ends at or after its start, within the text.
pub proof fn run_end_bounds(s: Text, i: int, white: bool)
    requires
        0 <= i <= s.len(),
    ensures
        i <= run_end(s, i, white) <= s.len(),
        run_end(s, i, white) < s.len() ==> white_space(s[run_end(s, i, white)]) == white,
        i < s.len() && white_space(s[i]) != white ==> i < run_end(s, i, white),
    decreases s.len() - i,
{
    if i < s.len() && white_space(s[i]) != white {
        run_end_bounds(s, i + 1, white);
    }
}

/// The words from index `i` on: the runs of characters that are not white space.
pub open spec fn words_from(s: Text, i: int) -> Seq<Text>
    decreases s.len() - i,
{
    if i < 0 || i > s.len() {
        seq![]
    } else {
        let a = run_end(s, i, false);
        proof {
            run_end_bounds(s, i, false);
            if a < s.len() {
                run_end_bounds(s, a, true);
            }
        }
        if a >= s.len() {
            seq![]
        } else {
            let b = run_end(s, a, true);
            seq![s.subrange(a, b)] + words_from(s, b)
        }
    }
}

/// The words of a text.
pub open spec fn words(s: Text) -> Seq<Text> {
    words_from(s, 0)
}

fn skip_run(v: &Vec<char>, from: usize, white: bool) -> (r: usize)
    requires
        from <= v@.len(),
    ensures
        r == run_end(v@, from as int, white),
        from <= r <= v@.len(),
{
    let mut i: usize = from;
    while i < v.len() && is_white_space(v[i]) != white
        invariant
            from <= i <= v@.len(),
            run_end(v@, from as int, white) == run_end(v@, i as int, white),
        decreases v@.len() - i,
    {
        i += 1;
    }
    i
}

/// Splits a text into its words.
pub fn split_words(s: &str) -> (r: Vec<String>)
    ensures
        r.deep_view() == words(s@),
{
    let v = chars_of(s);
    let mut out: Vec<String> = Vec::new();
    let mut i: usize = 0;
    loop
        invariant
            v@ == s@,
            i <= v@.len(),
            out.deep_view() + words_from(s@, i as int) == words(s@),
        decreases v@.len() - i,
    {
        proof {
            run_end_bounds(v@, i as int, false);
        }
        let a = skip_run(&v, i, false);
        if a >= v.len() {
            assert(words_from(s@, i as int) =~= Seq::<Text>::empty());
            return out;
        }
        proof {
            run_end_bounds(v@, a as int, true);
        }
        let b = skip_run(&v, a, true);
        out.push(text_of(&v, a, b));
        i = b;
    }
}

/// A text without the white space around it.
pub open spec fn trimmed(s: Text) -> Text {
    let a = run_end(s, 0, false);
    s.subrange(a, black_end(s, s.len() as int, a))
}

/// The end of the characters up to `n` without the white space before `n`, but not before `a`.
pub open spec fn black_end(s: Text, n: int, a: int) -> int
    decreases n - a,
{
    if a < n <= s.len() && white_space(s[n - 1]) {
        black_end(s, n - 1, a)
    } else {
        n
    }
}

/// Takes the white space around a text away.
pub fn trim(s: &str) -> (r: String)
    ensures
        r@ == trimmed(s@),
{
    let v = chars_of(s);
    proof {
        run_end_bounds(v@, 0, false);
    }
    let a = skip_run(&v, 0, false);
    let mut n: usize = v.len();
    while n > a && is_white_space(v[n - 1])
        invariant
            a <= n <= v@.len(),
            black_end(v@, v@.len() as int, a as int) == black_end(v@, n as int, a as int),
        decreases n,
    {
        n -= 1;
    }
    text_of(&v, a, n)
}

// ---- numbers

/// The digit `d` as a character.
pub open spec fn digit(d: int) -> char {
    if d == 0 { '0' } else if d == 1 { '1' } else if d == 2 { '2' } else if d == 3 { '3' }
    else if d == 4 { '4' } else if d == 5 { '5' } else if d == 6 { '6' } else if d == 7 { '7' }
    else if d == 8 { '8' } else if d == 9 { '9' } else if d == 10 { 'a' } else if d == 11 { 'b' }
    else if d == 12 { 'c' } else if d == 13 { 'd' } else if d == 14 { 'e' } else { 'f' }
}

fn digit_char(d: u64) -> (r: char)
    requires
        d < 16,
    ensures
        r == digit(d as int),
{
    if d == 0 { '0' } else if d == 1 { '1' } else if d == 2 { '2' } else if d == 3 { '3' }
    else if d == 4 { '4' } else if d == 5 { '5' } else if d == 6 { '6' } else if d == 7 { '7' }
    else if d == 8 { '8' } else if d == 9 { '9' } else if d == 10 { 'a' } else if d == 11 { 'b' }
    else if d == 12 { 'c' } else if d == 13 { 'd' } else if d == 14 { 'e' } else { 'f' }
}

/// A number in decimal digits.
pub open spec fn decimal(n: nat) -> Text
    decreases n,
{
    if n < 10 {
        seq![digit(n as int)]
    } else {
        decimal(n / 10).push(digit((n % 10) as int))
    }
}

/// Writes a number in decimal digits.
pub fn number(n: u64) -> (r: String)
    ensures
        r@ == decimal(n as nat),
    decreases n,
{
    let mut s = if n < 10 {
        String::new()
    } else {
        number(n / 10)
    };
    push_char(&mut s, digit_char(n % 10));
    s
}

/// The last `k` hexadecimal digits of a number.
pub open spec fn hexadecimal(n: nat, k: nat) -> Text
    decreases k,
{
    if k == 0 {
        seq![]
    } else {
        hexadecimal(n / 16, (k - 1) as nat).push(digit((n % 16) as int))
    }
}

/// Writes the last `k` hexadecimal digits of a number.
pub fn hex(n: u64, k: u64) -> (r: String)
    ensures
        r@ == hexadecimal(n as nat, k as nat),
    decreases k,
{
    if k == 0 {
        String::new()
    } else {
        let mut s = hex(n / 16, k - 1);
        push_char(&mut s, digit_char(n % 16));
        s
    }
}

/// The value of a decimal digit.
pub open spec fn digit_value(c: char) -> Option<int> {
    if '0' <= c <= '9' {
        Some(c as int - '0' as int)
    } else {
        None
    }
}

/// The value of the first `n` characters, read as decimal digits.
pub open spec fn digits_value(s: Text, n: int) -> Option<int>
    decreases n,
{
    if n <= 0 {
        Some(0)
    } else {
        match (digits_value(s, n - 1), digit_value(s[n - 1])) {
            (Some(a), Some(d)) => Some(10 * a + d),
            _ => None,
        }
    }
}

/// The whole number that `s` writes: a sign, where one is allowed, and one or more digits.
pub open spec fn whole_number(s: Text) -> Option<int> {
    if s.len() > 1 && s[0] == '-' {
        match digits_value(s.skip(1), s.len() - 1) {
            Some(a) => Some(-a),
            None => None,
        }
    } else if s.len() > 1 && s[0] == '+' {
        digits_value(s.skip(1), s.len() - 1)
    } else if s.len() > 0 {
        digits_value(s, s.len() as int)
    } else {
        None
    }
}

/// More digits make no smaller number.
pub proof fn digits_value_grows(s: Text, n: int, m: int)
    requires
        0 <= n <= m <= s.len(),
    ensures
        digits_value(s, m) matches Some(b) ==> (digits_value(s, n) matches Some(a) && 0 <= a <= b),
    decreases m,
{
    if n < m {
        digits_value_grows(s, n, m - 1);
        digits_value_grows(s, 0, m - 1);
    } else if m > 0 {
        digits_value_grows(s, 0, m - 1);
    }
}

/// The number that the digits of `v` from index `from` on write, if it is at most `max`.
fn digits_upto(v: &Vec<char>, from: usize, max: u128) -> (r: Option<u128>)
    requires
        from <= v@.len(),
        max <= 0xffff_ffff_ffff_ffff,
    ensures
        match r {
            Some(n) => n <= max && digits_value(v@.skip(from as int), v@.len() - from) == Some(
                n as int,
            ),
            None => digits_value(v@.skip(from as int), v@.len() - from) matches Some(n) ==> n > max,
        },
{
    let ghost s = v@.skip(from as int);
    let mut n: u128 = 0;
    let mut i: usize = from;
    while i < v.len()
        invariant
            from <= i <= v@.len(),
            s == v@.skip(from as int),
            n <= max,
            max <= 0xffff_ffff_ffff_ffff,
            digits_value(s, i - from) == Some(n as int),
        decreases v@.len() - i,
    {
        let c = v[i];
        assert(c == s[i - from]);
        proof {
            digits_value_grows(s, i + 1 - from, v@.len() - from);
        }
        if c < '0' || c > '9' {
            return None;
        }
        let d: u128 = (c as u128) - ('0' as u128);
        n = n * 10 + d;
        if n > max {
            return None;
        }
        i += 1;
    }
    Some(n)
}

/// The index that `s` writes: a whole number that a `usize` can hold, without a minus sign.
pub open spec fn index_value(s: Text) -> Option<int> {
    if s.len() > 1 && s[0] == '-' {
        None
    } else {
        match whole_number(s) {
            Some(n) if n <= usize::MAX => Some(n),
            _ => None,
        }
    }
}

/// Reads an index.
pub fn parse_index(s: &str) -> (r: Option<usize>)
    ensures
        match r {
            Some(n) => index_value(s@) == Some(n as int),
            None => index_value(s@) is None,
        },
{
    let v = chars_of(s);
    if v.len() == 0 {
        return None;
    }
    if v.len() > 1 && v[0] == '-' {
        return None;
    }
    let from: usize = if v.len() > 1 && v[0] == '+' { 1 } else { 0 };
    assert(v@.skip(0) =~= v@);
    match digits_upto(&v, from, usize::MAX as u128) {
        Some(n) => Some(n as usize),
        None => None,
    }
}

/// The 64-bit integer that `s` writes.
pub open spec fn integer_value(s: Text) -> Option<int> {
    match whole_number(s) {
        Some(n) if i64::MIN <= n <= i64::MAX => Some(n),
        _ => None,
    }
}

/// Reads an integer.
pub fn parse_integer(s: &str) -> (r: Option<i64>)
    ensures
        match r {
            Some(n) => integer_value(s@) == Some(n as int),
            None => integer_value(s@) is None,
        },
{
    let v = chars_of(s);
    if v.len() == 0 {
        return None;
    }
    let minus = v.len() > 1 && v[0] == '-';
    let from: usize = if minus || (v.len() > 1 && v[0] == '+') { 1 } else { 0 };
    let max: u128 = if minus { 0x8000_0000_0000_0000 } else { 0x7fff_ffff_ffff_ffff };
    assert(v@.skip(0) =~= v@);
    proof {
        digits_value_grows(v@.skip(from as int), 0, v@.len() - from);
    }
    match digits_upto(&v, from, max) {
        Some(n) => if minus {
            Some((0 - n as i128) as i64)
        } else {
            Some(n as i64)
        },
        None => None,
    }
}

} // verus!
