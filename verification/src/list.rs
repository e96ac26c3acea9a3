//! Values that can be copied and compared through their mathematical views, and
//! the list operations built on them.

use vstd::prelude::*;

verus! {

/// A value whose copies and comparisons are those of its view.
pub trait Plain: DeepView + Sized {
    /// A copy with the same view.
    fn dup(&self) -> (r: Self)
        ensures
            r.deep_view() == self.deep_view(),
    ;

    /// Whether two values have the same view.
    fn alike(&self, other: &Self) -> (r: bool)
        ensures
            r == (self.deep_view() == other.deep_view()),
    ;
}

impl Plain for String {
    fn dup(&self) -> (r: Self) {
        self.clone()
    }

    fn alike(&self, other: &Self) -> (r: bool) {
        *self == *other
    }
}

impl Plain for bool {
    fn dup(&self) -> (r: Self) {
        *self
    }

    fn alike(&self, other: &Self) -> (r: bool) {
        *self == *other
    }
}

impl Plain for u32 {
    fn dup(&self) -> (r: Self) {
        *self
    }

    fn alike(&self, other: &Self) -> (r: bool) {
        *self == *other
    }
}

impl Plain for usize {
    fn dup(&self) -> (r: Self) {
        *self
    }

    fn alike(&self, other: &Self) -> (r: bool) {
        *self == *other
    }
}

impl Plain for i32 {
    fn dup(&self) -> (r: Self) {
        *self
    }

    fn alike(&self, other: &Self) -> (r: bool) {
        *self == *other
    }
}

impl<T: Plain> Plain for Option<T> {
    fn dup(&self) -> (r: Self) {
        match self {
            Some(x) => Some(x.dup()),
            None => None,
        }
    }

    fn alike(&self, other: &Self) -> (r: bool) {
        match (self, other) {
            (Some(x), Some(y)) => x.alike(y),
            (None, None) => true,
            _ => false,
        }
    }
}

impl<A: Plain, B: Plain> Plain for (A, B) {
    fn dup(&self) -> (r: Self) {
        (self.0.dup(), self.1.dup())
    }

    fn alike(&self, other: &Self) -> (r: bool) {
        self.0.alike(&other.0) && self.1.alike(&other.1)
    }
}

impl<A: Plain, B: Plain, C: Plain> Plain for (A, B, C) {
    fn dup(&self) -> (r: Self) {
        (self.0.dup(), self.1.dup(), self.2.dup())
    }

    fn alike(&self, other: &Self) -> (r: bool) {
        self.0.alike(&other.0) && self.1.alike(&other.1) && self.2.alike(&other.2)
    }
}

impl<T: Plain> Plain for Vec<T> {
    fn dup(&self) -> (r: Self) {
        let mut out: Vec<T> = Vec::new();
        let mut i: usize = 0;
        while i < self.len()
            invariant
                i <= self@.len(),
                out.deep_view() == self.deep_view().take(i as int),
            decreases self@.len() - i,
        {
            push(&mut out, self[i].dup());
            i += 1;
        }
        assert(self.deep_view().take(self@.len() as int) =~= self.deep_view());
        out
    }

    fn alike(&self, other: &Self) -> (r: bool) {
        if self.len() != other.len() {
            assert(self.deep_view().len() != other.deep_view().len());
            return false;
        }
        let mut i: usize = 0;
        while i < self.len()
            invariant
                i <= self@.len(),
                self@.len() == other@.len(),
                forall|j: int|
                    0 <= j < i ==> self.deep_view()[j] == #[trigger] other.deep_view()[j],
            decreases self@.len() - i,
        {
            if !self[i].alike(&other[i]) {
                assert(self.deep_view()[i as int] != other.deep_view()[i as int]);
                return false;
            }
            i += 1;
        }
        assert(self.deep_view() =~= other.deep_view());
        true
    }
}

/// A list with nothing in it.
pub fn empty<T: DeepView>() -> (r: Vec<T>)
    ensures
        r.deep_view() == Seq::<T::V>::empty(),
        r@ == Seq::<T>::empty(),
{
    let r: Vec<T> = Vec::new();
    assert(r.deep_view() =~= Seq::<T::V>::empty());
    r
}

/// A list of one value.
pub fn one<T: DeepView>(x: T) -> (r: Vec<T>)
    ensures
        r.deep_view() == seq![x.deep_view()],
        r@ == seq![x],
{
    let mut r: Vec<T> = Vec::new();
    r.push(x);
    assert(r.deep_view() =~= seq![x.deep_view()]);
    r
}

/// Appends a value.
pub fn push<T: DeepView>(v: &mut Vec<T>, x: T)
    ensures
        final(v).deep_view() == old(v).deep_view().push(x.deep_view()),
        final(v)@ == old(v)@.push(x),
{
    v.push(x);
    assert(v.deep_view() =~= old(v).deep_view().push(x.deep_view()));
}

/// Appends copies of all values of `xs`.
pub fn extend<T: Plain>(v: &mut Vec<T>, xs: &Vec<T>)
    ensures
        final(v).deep_view() == old(v).deep_view() + xs.deep_view(),
{
    let mut i: usize = 0;
    while i < xs.len()
        invariant
            i <= xs@.len(),
            v.deep_view() == old(v).deep_view() + xs.deep_view().take(i as int),
        decreases xs@.len() - i,
    {
        push(v, xs[i].dup());
        i += 1;
    }
    assert(xs.deep_view().take(xs@.len() as int) =~= xs.deep_view());
}

/// Moves all values of `xs` to the end of `v`.
pub fn append<T: DeepView>(v: &mut Vec<T>, xs: Vec<T>)
    ensures
        final(v).deep_view() == old(v).deep_view() + xs.deep_view(),
{
    let ghost all = xs.deep_view();
    let mut xs = xs;
    v.append(&mut xs);
    assert(v.deep_view() =~= old(v).deep_view() + all);
}

/// Whether a value occurs in a list.
pub fn has<T: Plain>(v: &Vec<T>, x: &T) -> (r: bool)
    ensures
        r == v.deep_view().contains(x.deep_view()),
{
    let mut i: usize = 0;
    while i < v.len()
        invariant
            i <= v@.len(),
            forall|j: int| 0 <= j < i ==> v.deep_view()[j] != x.deep_view(),
        decreases v@.len() - i,
    {
        if v[i].alike(x) {
            assert(v.deep_view()[i as int] == x.deep_view());
            return true;
        }
        i += 1;
    }
    false
}

/// Whether a text occurs in a list.
pub fn has_str(v: &Vec<String>, x: &str) -> (r: bool)
    ensures
        r == v.deep_view().contains(x@),
{
    let mut i: usize = 0;
    while i < v.len()
        invariant
            i <= v@.len(),
            forall|j: int| 0 <= j < i ==> v.deep_view()[j] != x@,
        decreases v@.len() - i,
    {
        if crate::text::same(&v[i], x) {
            assert(v.deep_view()[i as int] == x@);
            return true;
        }
        i += 1;
    }
    false
}

/// The items from index `i` on that differ from the one before.
pub open spec fn deduped_from<A>(xs: Seq<A>, i: int) -> Seq<A>
    decreases xs.len() - i,
{
    if 0 <= i < xs.len() {
        let rest = deduped_from(xs, i + 1);
        if i > 0 && xs[i] == xs[i - 1] {
            rest
        } else {
            seq![xs[i]] + rest
        }
    } else {
        seq![]
    }
}

/// The items without those that repeat the one before.
pub open spec fn deduped<A>(xs: Seq<A>) -> Seq<A> {
    deduped_from(xs, 0)
}

/// Leaves out the items that repeat the one before.
pub fn dedup<T: Plain>(v: &Vec<T>) -> (r: Vec<T>)
    ensures
        r.deep_view() == deduped(v.deep_view()),
{
    let ghost xs = v.deep_view();
    let mut out: Vec<T> = empty();
    let mut i: usize = 0;
    while i < v.len()
        invariant
            i <= v@.len(),
            xs == v.deep_view(),
            out.deep_view() + deduped_from(xs, i as int) == deduped_from(xs, 0),
        decreases v@.len() - i,
    {
        assert(xs[i as int] == v@[i as int].deep_view());
        let again = i > 0 && {
            assert(xs[i - 1] == v@[i - 1].deep_view());
            v[i].alike(&v[i - 1])
        };
        if !again {
            push(&mut out, v[i].dup());
        }
        i += 1;
    }
    out
}

} // verus!
