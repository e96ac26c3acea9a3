//! Places in a source text: byte offsets as lines and as text.

use crate::ir::{Loc, LocView};
use crate::text;
use crate::text::Text;
use vstd::prelude::*;

verus! {

/// The number of bytes of a character in UTF-8.
pub open spec fn width(c: char) -> int {
    let n = c as u32;
    if n < 0x80 {
        1
    } else if n < 0x800 {
        2
    } else if n < 0x10000 {
        3
    } else {
        4
    }
}

/// The byte offset of the character at index `i`.
pub open spec fn offset_of(s: Text, i: int) -> int
    decreases i,
{
    if 0 < i <= s.len() {
        offset_of(s, i - 1) + width(s[i - 1])
    } else {
        0
    }
}

/// The byte offsets after the line breaks among the first `i` characters, after those of `acc`.
pub open spec fn breaks_upto(s: Text, i: int) -> Seq<int>
    decreases i,
{
    if 0 < i <= s.len() {
        let before = breaks_upto(s, i - 1);
        if s[i - 1] == '\n' {
            before.push(offset_of(s, i))
        } else {
            before
        }
    } else {
        seq![0]
    }
}

/// The byte offsets at which lines begin.
pub open spec fn line_starts(s: Text) -> Seq<int> {
    breaks_upto(s, s.len() as int)
}

/// The place from index `i` on of the first line that begins after `offset`.
pub open spec fn line_from(starts: Seq<int>, offset: int, i: int) -> int
    decreases starts.len() - i,
{
    if 0 <= i < starts.len() && starts[i] <= offset {
        line_from(starts, offset, i + 1)
    } else {
        i
    }
}

/// The number of the line at a byte offset, from 1.
pub open spec fn line_of(s: Text, offset: int) -> int {
    line_from(line_starts(s), offset, 0)
}

/// The index from `i` on of the first character that does not begin before a byte offset.
pub open spec fn index_from(s: Text, offset: int, i: int) -> int
    decreases s.len() - i,
{
    if 0 <= i < s.len() && offset_of(s, i) < offset {
        index_from(s, offset, i + 1)
    } else {
        i
    }
}

/// The text between two byte offsets.
pub open spec fn between(s: Text, start: int, end: int) -> Text {
    let a = index_from(s, start, 0);
    let b = index_from(s, end, 0);
    if 0 <= a <= b <= s.len() {
        s.subrange(a, b)
    } else {
        seq![]
    }
}

/// The number of bytes of a text in UTF-8.
pub open spec fn byte_len(s: Text) -> int {
    offset_of(s, s.len() as int)
}

/// A piece of source on one line, cut where it is long.
pub open spec fn one_line(s: Text) -> Text {
    let line = text::joined(text::words(s), " "@);
    if byte_len(line) > 120 && line.len() >= 117 {
        line.take(117) + "…"@
    } else if byte_len(line) > 120 {
        line + "…"@
    } else {
        line
    }
}

proof fn offset_bounds(s: Text, i: int)
    requires
        0 <= i <= s.len(),
    ensures
        i <= offset_of(s, i) <= 4 * i,
    decreases i,
{
    if i > 0 {
        offset_bounds(s, i - 1);
    }
}

proof fn breaks_bounds(s: Text, i: int)
    requires
        0 <= i <= s.len(),
    ensures
        breaks_upto(s, i).len() >= 1,
        breaks_upto(s, i).len() <= i + 1,
        breaks_upto(s, i)[0] == 0,
        forall|k: int| 0 <= k < breaks_upto(s, i).len() ==> 0 <= #[trigger] breaks_upto(s, i)[k] <= offset_of(s, i),
        forall|j: int, k: int|
            0 <= j < k < breaks_upto(s, i).len() ==> #[trigger] breaks_upto(s, i)[j]
                <= #[trigger] breaks_upto(s, i)[k],
    decreases i,
{
    if i > 0 {
        breaks_bounds(s, i - 1);
        offset_bounds(s, i - 1);
    }
}

/// The byte offsets of a text's lines never fall, the first is 0.
pub proof fn lines_rise(s: Text)
    ensures
        line_starts(s).len() >= 1,
        line_starts(s)[0] == 0,
        forall|j: int, k: int|
            0 <= j < k < line_starts(s).len() ==> #[trigger] line_starts(s)[j]
                <= #[trigger] line_starts(s)[k],
{
    breaks_bounds(s, s.len() as int);
}

proof fn line_from_is(starts: Seq<int>, offset: int, i: int, p: int)
    requires
        0 <= i <= p <= starts.len(),
        forall|k: int| i <= k < p ==> #[trigger] starts[k] <= offset,
        p < starts.len() ==> starts[p] > offset,
    ensures
        line_from(starts, offset, i) == p,
    decreases p - i,
{
    if i < p {
        line_from_is(starts, offset, i + 1, p);
    }
}

/// A source file with its lines.
pub struct Source {
    pub path: String,
    pub chars: Vec<char>,
    /// Byte offsets at which lines begin.
    pub starts: Vec<u64>,
}

/// The view of [`Source`].
#[verifier::ext_equal]
pub struct SourceView {
    pub path: Text,
    pub text: Text,
}

impl DeepView for Source {
    type V = SourceView;

    open spec fn deep_view(&self) -> SourceView {
        SourceView { path: self.path@, text: self.chars@ }
    }
}

/// The location of a byte offset.
pub open spec fn place(s: SourceView, offset: int) -> LocView {
    LocView { file: s.path, line: line_of(s.text, offset) as u32 }
}

fn char_width(c: char) -> (r: u64)
    ensures
        r == width(c),
{
    let n: u32 = c as u32;
    if n < 0x80 {
        1
    } else if n < 0x800 {
        2
    } else if n < 0x10000 {
        3
    } else {
        4
    }
}

impl Source {
    /// The lines are those of the text, and their number is a line number.
    pub open spec fn wf(&self) -> bool {
        &&& self.chars@.len() < u32::MAX
        &&& self.starts@.len() == line_starts(self.chars@).len()
        &&& forall|k: int|
            0 <= k < self.starts@.len() ==> (#[trigger] self.starts@[k]) as int == line_starts(
                self.chars@,
            )[k]
    }

    /// A source file. A text too long for its lines to be numbered is cut.
    pub fn new(path: &str, text: &str) -> (r: Source)
        ensures
            r.wf(),
            r.deep_view() == (SourceView { path: path@, text: cut(text@) }),
    {
        let all = text::chars_of(text);
        let mut chars: Vec<char> = Vec::new();
        let mut starts: Vec<u64> = Vec::new();
        starts.push(0);
        let mut at: u64 = 0;
        let mut i: usize = 0;
        while i < all.len() && i < (u32::MAX - 1) as usize
            invariant
                i <= all@.len(),
                i <= u32::MAX - 1,
                chars@ == all@.take(i as int),
                at == offset_of(all@, i as int),
                at <= 4 * i,
                starts@.len() == breaks_upto(all@, i as int).len(),
                forall|k: int|
                    0 <= k < starts@.len() ==> (#[trigger] starts@[k]) as int == breaks_upto(
                        all@,
                        i as int,
                    )[k],
            decreases all@.len() - i,
        {
            let c = all[i];
            let w: u64 = char_width(c);
            chars.push(c);
            at = at + w;
            if c == '\n' {
                starts.push(at);
            }
            i += 1;
            assert(chars@ =~= all@.take(i as int));
        }
        proof {
            same_breaks(all@, i as int, i as int);
            assert(cut(all@) =~= chars@);
        }
        Source { path: path.to_owned(), chars, starts }
    }

    /// The number of the line at a byte offset.
    pub fn line(&self, offset: u64) -> (r: u32)
        requires
            self.wf(),
        ensures
            r == line_of(self.deep_view().text, offset as int),
    {
        let ghost lines = line_starts(self.chars@);
        proof {
            lines_rise(self.chars@);
            breaks_bounds(self.chars@, self.chars@.len() as int);
        }
        let mut lo: usize = 0;
        let mut hi: usize = self.starts.len();
        while lo < hi
            invariant
                lo <= hi <= self.starts@.len(),
                lines == line_starts(self.chars@),
                self.starts@.len() == lines.len(),
                lines.len() <= self.chars@.len() + 1,
                self.chars@.len() < u32::MAX,
                forall|k: int|
                    0 <= k < self.starts@.len() ==> (#[trigger] self.starts@[k]) as int
                        == lines[k],
                forall|j: int, k: int|
                    0 <= j < k < lines.len() ==> #[trigger] lines[j] <= #[trigger] lines[k],
                forall|k: int| 0 <= k < lo ==> #[trigger] lines[k] <= offset,
                hi < lines.len() ==> lines[hi as int] > offset,
            decreases hi - lo,
        {
            let mid: usize = lo + (hi - lo) / 2;
            assert(self.starts@[mid as int] as int == lines[mid as int]);
            if self.starts[mid] <= offset {
                assert forall|k: int| 0 <= k < mid + 1 implies #[trigger] lines[k] <= offset by {
                    if k < mid {
                        assert(lines[k] <= lines[mid as int]);
                    }
                }
                lo = mid + 1;
            } else {
                hi = mid;
            }
        }
        proof {
            line_from_is(lines, offset as int, 0, lo as int);
        }
        lo as u32
    }

    /// The location of a byte offset.
    pub fn loc(&self, offset: u64) -> (r: Loc)
        requires
            self.wf(),
        ensures
            r.deep_view() == place(self.deep_view(), offset as int),
    {
        Loc { file: self.path.as_str().to_owned(), line: self.line(offset) }
    }

    fn index(&self, offset: u64) -> (r: usize)
        requires
            self.wf(),
        ensures
            r == index_from(self.deep_view().text, offset as int, 0),
            r <= self.chars@.len(),
    {
        let mut at: u64 = 0;
        let mut i: usize = 0;
        while i < self.chars.len() && at < offset
            invariant
                i <= self.chars@.len(),
                self.chars@.len() < u32::MAX,
                at == offset_of(self.chars@, i as int),
                at <= 4 * i,
                index_from(self.chars@, offset as int, 0) == index_from(
                    self.chars@,
                    offset as int,
                    i as int,
                ),
            decreases self.chars@.len() - i,
        {
            at = at + char_width(self.chars[i]);
            i += 1;
        }
        i
    }

    /// The text between two byte offsets, on one line.
    pub fn excerpt(&self, start: u64, end: u64) -> (r: String)
        requires
            self.wf(),
        ensures
            r@ == one_line(between(self.deep_view().text, start as int, end as int)),
    {
        let a: usize = self.index(start);
        let b: usize = self.index(end);
        let raw = if a <= b {
            text::text_of(&self.chars, a, b)
        } else {
            String::new()
        };
        assert(raw@ =~= between(self.chars@, start as int, end as int));
        let line = text::join(&text::split_words(&raw), " ");
        let v = text::chars_of(&line);
        if long(&v) {
            if v.len() >= 117 {
                text::cat2(&text::text_of(&v, 0, 117), "…")
            } else {
                text::cat2(&line, "…")
            }
        } else {
            line
        }
    }
}

/// The characters of a text whose lines can be numbered.
pub open spec fn cut(s: Text) -> Text {
    if s.len() < u32::MAX {
        s
    } else {
        s.take(u32::MAX - 1)
    }
}

proof fn same_offset(s: Text, n: int, i: int)
    requires
        0 <= i <= n <= s.len(),
    ensures
        offset_of(s.take(n), i) == offset_of(s, i),
    decreases i,
{
    if i > 0 {
        same_offset(s, n, i - 1);
    }
}

proof fn same_breaks(s: Text, n: int, i: int)
    requires
        0 <= i <= n <= s.len(),
    ensures
        breaks_upto(s.take(n), i) == breaks_upto(s, i),
    decreases i,
{
    if i > 0 {
        same_breaks(s, n, i - 1);
        same_offset(s, n, i);
    }
}

fn long(v: &Vec<char>) -> (r: bool)
    ensures
        r == (byte_len(v@) > 120),
{
    let mut at: u64 = 0;
    let mut i: usize = 0;
    while i < v.len()
        invariant
            i <= v@.len(),
            i <= 120,
            at == offset_of(v@, i as int),
            at <= 120,
        decreases v@.len() - i,
    {
        at = at + char_width(v[i]);
        i += 1;
        if at > 120 {
            proof {
                offset_rises(v@, i as int, v@.len() as int);
            }
            return true;
        }
        proof {
            offset_bounds(v@, i as int);
        }
    }
    false
}

proof fn offset_rises(s: Text, i: int, j: int)
    requires
        0 <= i <= j <= s.len(),
    ensures
        offset_of(s, i) <= offset_of(s, j),
    decreases j - i,
{
    if i < j {
        offset_rises(s, i, j - 1);
    }
}

/// The index from `i` on up to which the characters take at most `max` bytes.
pub open spec fn within(s: Text, max: int, i: int) -> int
    decreases s.len() - i,
{
    if 0 <= i < s.len() && offset_of(s, i + 1) <= max {
        within(s, max, i + 1)
    } else {
        i
    }
}

/// The longest start of a text that takes at most `max` bytes; none where all of it does.
pub fn prefix(s: &str, max: u64) -> (r: Option<String>)
    requires
        max <= u32::MAX,
    ensures
        match r {
            Some(p) => byte_len(s@) > max && p@ == s@.take(within(s@, max as int, 0)),
            None => byte_len(s@) <= max,
        },
{
    let v = text::chars_of(s);
    let mut at: u64 = 0;
    let mut i: usize = 0;
    while i < v.len()
        invariant
            i <= v@.len(),
            v@ == s@,
            max <= u32::MAX,
            at == offset_of(v@, i as int),
            at <= max,
            within(v@, max as int, 0) == within(v@, max as int, i as int),
        decreases v@.len() - i,
    {
        let next: u64 = at + char_width(v[i]);
        if next > max {
            proof {
                offset_rises(v@, i + 1, v@.len() as int);
            }
            let p = text::text_of(&v, 0, i);
            assert(p@ =~= s@.take(i as int));
            return Some(p);
        }
        at = next;
        i += 1;
    }
    None
}

} // verus!
