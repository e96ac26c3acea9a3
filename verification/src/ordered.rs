//! Maps and sets that keep their keys in order. A map is modelled by the sequence
//! of its entries, a set by the sequence of its members, both in strictly
//! ascending order of the keys.

use crate::ir::{Loc, LocView};
use crate::list::Plain;
use crate::text;
use vstd::prelude::*;

verus! {

/// A strict total order on the views of keys.
pub trait Rank: Sized {
    spec fn precedes(self, other: Self) -> bool;

    proof fn irreflexive(a: Self)
        ensures
            !a.precedes(a),
    ;

    proof fn transitive(a: Self, b: Self, c: Self)
        requires
            a.precedes(b),
            b.precedes(c),
        ensures
            a.precedes(c),
    ;

    proof fn total(a: Self, b: Self)
        ensures
            a == b || a.precedes(b) || b.precedes(a),
    ;
}

impl Rank for Seq<char> {
    open spec fn precedes(self, other: Self) -> bool {
        text::before(self, other)
    }

    proof fn irreflexive(a: Self) {
        text::before_irreflexive(a);
    }

    proof fn transitive(a: Self, b: Self, c: Self) {
        text::before_transitive(a, b, c);
    }

    proof fn total(a: Self, b: Self) {
        text::before_total(a, b);
    }
}

impl Rank for u32 {
    open spec fn precedes(self, other: Self) -> bool {
        self < other
    }

    proof fn irreflexive(a: Self) {
    }

    proof fn transitive(a: Self, b: Self, c: Self) {
    }

    proof fn total(a: Self, b: Self) {
    }
}

impl<A: Rank> Rank for Option<A> {
    /// `None` first.
    open spec fn precedes(self, other: Self) -> bool {
        match (self, other) {
            (Some(a), Some(b)) => a.precedes(b),
            (None, Some(_)) => true,
            _ => false,
        }
    }

    proof fn irreflexive(a: Self) {
        if let Some(x) = a {
            A::irreflexive(x);
        }
    }

    proof fn transitive(a: Self, b: Self, c: Self) {
        if a is Some && b is Some && c is Some {
            A::transitive(a->0, b->0, c->0);
        }
    }

    proof fn total(a: Self, b: Self) {
        if a is Some && b is Some {
            A::total(a->0, b->0);
        }
    }
}

impl<A: Rank, B: Rank> Rank for (A, B) {
    /// By the first component, then by the second.
    open spec fn precedes(self, other: Self) -> bool {
        self.0.precedes(other.0) || (self.0 == other.0 && self.1.precedes(other.1))
    }

    proof fn irreflexive(a: Self) {
        A::irreflexive(a.0);
        B::irreflexive(a.1);
    }

    proof fn transitive(a: Self, b: Self, c: Self) {
        if a.0.precedes(b.0) && b.0.precedes(c.0) {
            A::transitive(a.0, b.0, c.0);
        }
        if a.1.precedes(b.1) && b.1.precedes(c.1) {
            B::transitive(a.1, b.1, c.1);
        }
    }

    proof fn total(a: Self, b: Self) {
        A::total(a.0, b.0);
        B::total(a.1, b.1);
    }
}

/// A value that can be a key.
pub trait Key: Plain where <Self as DeepView>::V: Rank {
    fn less(&self, other: &Self) -> (r: bool)
        ensures
            r == self.deep_view().precedes(other.deep_view()),
    ;
}

impl Key for String {
    fn less(&self, other: &Self) -> (r: bool) {
        text::comes_before(self, other)
    }
}

impl Key for u32 {
    fn less(&self, other: &Self) -> (r: bool) {
        *self < *other
    }
}

impl<A: Key> Key for Option<A> where <A as DeepView>::V: Rank {
    fn less(&self, other: &Self) -> (r: bool) {
        match (self, other) {
            (Some(a), Some(b)) => a.less(b),
            (None, Some(_)) => true,
            _ => false,
        }
    }
}

impl<A: Key, B: Key> Key for (A, B) where <A as DeepView>::V: Rank, <B as DeepView>::V: Rank {
    fn less(&self, other: &Self) -> (r: bool) {
        self.0.less(&other.0) || (self.0.alike(&other.0) && self.1.less(&other.1))
    }
}

// ---- maps

/// The keys are strictly ascending.
pub open spec fn ascending<K: Rank, V>(m: Seq<(K, V)>) -> bool {
    forall|i: int, j: int| 0 <= i < j < m.len() ==> (#[trigger] m[i]).0.precedes((#[trigger] m[j]).0)
}

/// The first index at or after `i` whose key does not come before `k`.
pub open spec fn slot_from<K: Rank, V>(m: Seq<(K, V)>, k: K, i: int) -> int
    decreases m.len() - i,
{
    if 0 <= i < m.len() && m[i].0.precedes(k) {
        slot_from(m, k, i + 1)
    } else {
        i
    }
}

/// The place of `k` among the entries.
pub open spec fn slot<K: Rank, V>(m: Seq<(K, V)>, k: K) -> int {
    slot_from(m, k, 0)
}

/// The value stored under `k`.
pub open spec fn lookup<K: Rank, V>(m: Seq<(K, V)>, k: K) -> Option<V> {
    let i = slot(m, k);
    if i < m.len() && m[i].0 == k {
        Some(m[i].1)
    } else {
        None
    }
}

/// The entries with `v` stored under `k`.
pub open spec fn put<K: Rank, V>(m: Seq<(K, V)>, k: K, v: V) -> Seq<(K, V)> {
    let i = slot(m, k);
    if i < m.len() && m[i].0 == k {
        m.update(i, (k, v))
    } else {
        m.insert(i, (k, v))
    }
}

/// The entries without the one under `k`.
pub open spec fn without<K: Rank, V>(m: Seq<(K, V)>, k: K) -> Seq<(K, V)> {
    let i = slot(m, k);
    if i < m.len() && m[i].0 == k {
        m.remove(i)
    } else {
        m
    }
}

/// The keys in order.
pub open spec fn keys<K, V>(m: Seq<(K, V)>) -> Seq<K> {
    m.map_values(|e: (K, V)| e.0)
}

proof fn slot_from_is<K: Rank, V>(m: Seq<(K, V)>, k: K, i: int, p: int)
    requires
        0 <= i <= p <= m.len(),
        forall|j: int| i <= j < p ==> (#[trigger] m[j]).0.precedes(k),
        p < m.len() ==> !m[p].0.precedes(k),
    ensures
        slot_from(m, k, i) == p,
    decreases p - i,
{
    if i < p {
        slot_from_is(m, k, i + 1, p);
    }
}

proof fn slot_from_bounds<K: Rank, V>(m: Seq<(K, V)>, k: K, i: int)
    requires
        0 <= i <= m.len(),
    ensures
        i <= slot_from(m, k, i) <= m.len(),
        forall|j: int| i <= j < slot_from(m, k, i) ==> (#[trigger] m[j]).0.precedes(k),
        slot_from(m, k, i) < m.len() ==> !m[slot_from(m, k, i)].0.precedes(k),
    decreases m.len() - i,
{
    if i < m.len() && m[i].0.precedes(k) {
        slot_from_bounds(m, k, i + 1);
    }
}

/// The place of a key is within the entries; those before it come before the key,
/// the one at it does not.
pub proof fn slot_bounds<K: Rank, V>(m: Seq<(K, V)>, k: K)
    ensures
        0 <= slot(m, k) <= m.len(),
        forall|j: int| 0 <= j < slot(m, k) ==> (#[trigger] m[j]).0.precedes(k),
        slot(m, k) < m.len() ==> !m[slot(m, k)].0.precedes(k),
{
    slot_from_bounds(m, k, 0);
}

/// In ascending entries, the place of a stored key is its index.
pub proof fn slot_of_stored<K: Rank, V>(m: Seq<(K, V)>, i: int)
    requires
        ascending(m),
        0 <= i < m.len(),
    ensures
        slot(m, m[i].0) == i,
        lookup(m, m[i].0) == Some(m[i].1),
{
    K::irreflexive(m[i].0);
    slot_from_is(m, m[i].0, 0, i);
}

/// Storing under a key keeps the entries ascending.
pub proof fn put_keeps_order<K: Rank, V>(m: Seq<(K, V)>, k: K, v: V)
    requires
        ascending(m),
    ensures
        ascending(put(m, k, v)),
{
    slot_bounds(m, k);
    let i = slot(m, k);
    let n = put(m, k, v);
    if i < m.len() && m[i].0 == k {
        assert forall|a: int, b: int| 0 <= a < b < n.len() implies (#[trigger] n[a]).0.precedes(
            (#[trigger] n[b]).0,
        ) by {
            assert(m[a].0.precedes(m[b].0));
        }
    } else {
        if i < m.len() {
            K::total(m[i].0, k);
        }
        assert forall|a: int, b: int| 0 <= a < b < n.len() implies (#[trigger] n[a]).0.precedes(
            (#[trigger] n[b]).0,
        ) by {
            if b < i {
                assert(m[a].0.precedes(m[b].0));
            } else if b == i {
                assert(m[a].0.precedes(k));
            } else if a < i {
                assert(m[a].0.precedes(m[b - 1].0));
            } else if a == i {
                if b - 1 > i {
                    assert(m[i].0.precedes(m[b - 1].0));
                    K::transitive(k, m[i].0, m[b - 1].0);
                }
            } else {
                assert(m[a - 1].0.precedes(m[b - 1].0));
            }
        }
    }
}

/// What was stored under a key is found there.
pub proof fn lookup_after_put<K: Rank, V>(m: Seq<(K, V)>, k: K, v: V)
    requires
        ascending(m),
    ensures
        lookup(put(m, k, v), k) == Some(v),
{
    put_keeps_order(m, k, v);
    slot_bounds(m, k);
    slot_of_stored(put(m, k, v), slot(m, k));
}

/// Storing under a key brings no other entry.
pub proof fn put_values<K: Rank, V>(m: Seq<(K, V)>, k: K, v: V)
    ensures
        forall|n: int|
            0 <= n < put(m, k, v).len() ==> (#[trigger] put(m, k, v)[n]) == (k, v) || m.contains(
                put(m, k, v)[n],
            ),
{
    slot_bounds(m, k);
    let at = slot(m, k);
    let next = put(m, k, v);
    assert forall|n: int| 0 <= n < next.len() implies (#[trigger] next[n]) == (k, v) || m.contains(
        next[n],
    ) by {
        if n != at {
            if n < at || next.len() == m.len() {
                assert(next[n] == m[n]);
            } else {
                assert(next[n] == m[n - 1]);
            }
        }
    }
}

/// Storing under one key leaves the others as they were.
pub proof fn lookup_of_other<K: Rank, V>(m: Seq<(K, V)>, k: K, v: V, other: K)
    requires
        ascending(m),
        other != k,
    ensures
        lookup(put(m, k, v), other) == lookup(m, other),
{
    put_keeps_order(m, k, v);
    slot_bounds(m, k);
    let n = put(m, k, v);
    let i = slot(m, k);
    slot_bounds(m, other);
    slot_bounds(n, other);
    let a = slot(m, other);
    let b = slot(n, other);
    let found = i < m.len() && m[i].0 == k;
    if a < m.len() && m[a].0 == other {
        let at = if found || a < i { a } else { a + 1 };
        assert(n[at] == m[a]);
        slot_of_stored(n, at);
    }
    if b < n.len() && n[b].0 == other {
        let at = if found || b < i { b } else { b - 1 };
        assert(b != i);
        assert(n[b] == m[at]);
        slot_of_stored(m, at);
    }
}

/// A map with its keys in order.
#[derive(Debug, PartialEq, Eq)]
pub struct SortedMap<K: Key, V: DeepView> where <K as DeepView>::V: Rank {
    entries: Vec<(K, V)>,
}

impl<K: Key, V: DeepView> SortedMap<K, V> where <K as DeepView>::V: Rank {
    #[verifier::type_invariant]
    spec fn well_formed(self) -> bool {
        ascending(self.entries.deep_view())
    }
}

impl<K: Key, V: DeepView> DeepView for SortedMap<K, V> where <K as DeepView>::V: Rank {
    type V = Seq<(K::V, V::V)>;

    closed spec fn deep_view(&self) -> Seq<(K::V, V::V)> {
        self.entries.deep_view()
    }
}

impl<K: Key, V: DeepView> SortedMap<K, V> where <K as DeepView>::V: Rank {
    /// The map without entries.
    pub fn new() -> (r: Self)
        ensures
            r.deep_view() == Seq::<(K::V, V::V)>::empty(),
    {
        let entries: Vec<(K, V)> = Vec::new();
        assert(entries.deep_view() =~= Seq::<(K::V, V::V)>::empty());
        SortedMap { entries }
    }

    /// The number of entries.
    pub fn len(&self) -> (r: usize)
        ensures
            r == self.deep_view().len(),
    {
        self.entries.len()
    }

    /// The key of the entry at `i`.
    pub fn key(&self, i: usize) -> (r: &K)
        requires
            i < self.deep_view().len(),
        ensures
            r.deep_view() == self.deep_view()[i as int].0,
    {
        &self.entries[i].0
    }

    /// The value of the entry at `i`.
    pub fn value(&self, i: usize) -> (r: &V)
        requires
            i < self.deep_view().len(),
        ensures
            r.deep_view() == self.deep_view()[i as int].1,
    {
        &self.entries[i].1
    }

    /// The entries are in ascending order of their keys.
    pub fn in_order(&self)
        ensures
            ascending(self.deep_view()),
    {
        proof {
            use_type_invariant(self);
        }
    }

    fn place(&self, k: &K) -> (r: usize)
        ensures
            r == slot(self.deep_view(), k.deep_view()),
            r <= self.deep_view().len(),
    {
        proof {
            use_type_invariant(self);
        }
        let ghost m = self.entries.deep_view();
        let mut lo: usize = 0;
        let mut hi: usize = self.entries.len();
        while lo < hi
            invariant
                lo <= hi <= m.len(),
                m == self.entries.deep_view(),
                ascending(m),
                forall|j: int| 0 <= j < lo ==> (#[trigger] m[j]).0.precedes(k.deep_view()),
                hi < m.len() ==> !m[hi as int].0.precedes(k.deep_view()),
            decreases hi - lo,
        {
            let mid: usize = lo + (hi - lo) / 2;
            if self.entries[mid].0.less(k) {
                proof {
                    assert(m[mid as int].0.precedes(k.deep_view()));
                    assert forall|j: int| 0 <= j < mid + 1 implies (#[trigger] m[j]).0.precedes(
                        k.deep_view(),
                    ) by {
                        if j < mid {
                            <K as DeepView>::V::transitive(
                                m[j].0,
                                m[mid as int].0,
                                k.deep_view(),
                            );
                        }
                    }
                }
                lo = mid + 1;
            } else {
                assert(!m[mid as int].0.precedes(k.deep_view()));
                hi = mid;
            }
        }
        proof {
            slot_from_is(m, k.deep_view(), 0, lo as int);
        }
        lo
    }

    /// The value stored under `k`.
    pub fn get(&self, k: &K) -> (r: Option<&V>)
        ensures
            r.deep_view() == lookup(self.deep_view(), k.deep_view()),
    {
        let i: usize = self.place(k);
        if i < self.entries.len() && self.entries[i].0.alike(k) {
            Some(&self.entries[i].1)
        } else {
            None
        }
    }

    /// The keys in order.
    pub fn keys(&self) -> (r: Vec<K>)
        ensures
            r.deep_view() == keys(self.deep_view()),
    {
        let ghost m = self.deep_view();
        let mut out: Vec<K> = crate::list::empty();
        let mut i: usize = 0;
        while i < self.len()
            invariant
                i <= m.len(),
                m == self.deep_view(),
                out.deep_view() == keys(m).take(i as int),
            decreases m.len() - i,
        {
            crate::list::push(&mut out, self.key(i).dup());
            i += 1;
            assert(out.deep_view() =~= keys(m).take(i as int));
        }
        assert(keys(m).take(m.len() as int) =~= keys(m));
        out
    }

    /// Whether something is stored under `k`.
    pub fn contains_key(&self, k: &K) -> (r: bool)
        ensures
            r == (lookup(self.deep_view(), k.deep_view()) is Some),
    {
        self.get(k).is_some()
    }

    /// Takes out what is stored under `k`.
    pub fn remove(&mut self, k: &K) -> (r: Option<V>)
        ensures
            r.deep_view() == lookup(old(self).deep_view(), k.deep_view()),
            final(self).deep_view() == without(old(self).deep_view(), k.deep_view()),
    {
        proof {
            use_type_invariant(&*self);
        }
        let i: usize = self.place(k);
        let mut entries: Vec<(K, V)> = Vec::new();
        assert(ascending(entries.deep_view()));
        std::mem::swap(&mut entries, &mut self.entries);
        let ghost before = entries.deep_view();
        let r = if i < entries.len() && entries[i].0.alike(k) {
            let (_, v) = entries.remove(i);
            assert(entries.deep_view() =~= before.remove(i as int));
            assert(ascending(entries.deep_view()));
            Some(v)
        } else {
            None
        };
        self.entries = entries;
        r
    }

    /// Stores `v` under `k`.
    pub fn insert(&mut self, k: K, v: V)
        ensures
            final(self).deep_view() == put(old(self).deep_view(), k.deep_view(), v.deep_view()),
    {
        proof {
            use_type_invariant(&*self);
            put_keeps_order(self.entries.deep_view(), k.deep_view(), v.deep_view());
        }
        let i: usize = self.place(&k);
        let mut entries: Vec<(K, V)> = Vec::new();
        assert(ascending(entries.deep_view()));
        std::mem::swap(&mut entries, &mut self.entries);
        let ghost before = entries.deep_view();
        if i < entries.len() && entries[i].0.alike(&k) {
            let _ = entries.remove(i);
            entries.insert(i, (k, v));
            assert(entries.deep_view() =~= before.update(i as int, (k.deep_view(), v.deep_view())));
        } else {
            entries.insert(i, (k, v));
            assert(entries.deep_view() =~= before.insert(i as int, (k.deep_view(), v.deep_view())));
        }
        self.entries = entries;
    }
}

impl<V: DeepView> SortedMap<String, V> {
    /// The value stored under a text.
    pub fn find(&self, k: &str) -> (r: Option<&V>)
        ensures
            r.deep_view() == lookup(self.deep_view(), k@),
    {
        let k = k.to_owned();
        self.get(&k)
    }

    /// Whether something is stored under a text.
    pub fn has(&self, k: &str) -> (r: bool)
        ensures
            r == (lookup(self.deep_view(), k@) is Some),
    {
        self.find(k).is_some()
    }
}

impl<K: Key, V: Plain> Plain for SortedMap<K, V> where <K as DeepView>::V: Rank {
    fn dup(&self) -> (r: Self) {
        proof {
            use_type_invariant(self);
        }
        SortedMap { entries: self.entries.dup() }
    }

    fn alike(&self, other: &Self) -> (r: bool) {
        self.entries.alike(&other.entries)
    }
}

impl<K: Key, V: Plain> Clone for SortedMap<K, V> where <K as DeepView>::V: Rank {
    fn clone(&self) -> (r: Self)
        ensures
            r.deep_view() == self.deep_view(),
    {
        self.dup()
    }
}

// ---- sets

/// The members are strictly ascending.
pub open spec fn rising<K: Rank>(s: Seq<K>) -> bool {
    forall|i: int, j: int| 0 <= i < j < s.len() ==> (#[trigger] s[i]).precedes(#[trigger] s[j])
}

/// The first index at or after `i` whose member does not come before `k`.
pub open spec fn seat_from<K: Rank>(s: Seq<K>, k: K, i: int) -> int
    decreases s.len() - i,
{
    if 0 <= i < s.len() && s[i].precedes(k) {
        seat_from(s, k, i + 1)
    } else {
        i
    }
}

/// The place of `k` among the members.
pub open spec fn seat<K: Rank>(s: Seq<K>, k: K) -> int {
    seat_from(s, k, 0)
}

/// The members with `k`.
pub open spec fn added<K: Rank>(s: Seq<K>, k: K) -> Seq<K> {
    let i = seat(s, k);
    if i < s.len() && s[i] == k {
        s
    } else {
        s.insert(i, k)
    }
}

/// The members with those of `ks` from index `i` on.
pub open spec fn added_from<K: Rank>(s: Seq<K>, ks: Seq<K>, i: int) -> Seq<K>
    decreases ks.len() - i,
{
    if 0 <= i < ks.len() {
        added_from(added(s, ks[i]), ks, i + 1)
    } else {
        s
    }
}

/// The members with all of `ks`.
pub open spec fn united<K: Rank>(s: Seq<K>, ks: Seq<K>) -> Seq<K> {
    added_from(s, ks, 0)
}

/// The set of the values of a list.
pub open spec fn set_of<K: Rank>(ks: Seq<K>) -> Seq<K> {
    united(seq![], ks)
}

/// The set of the members of `s` from index `i` on that are in `t` or, where `inside` is false,
/// that are not; added to `acc`.
pub open spec fn picked_from<K: Rank>(s: Seq<K>, t: Seq<K>, inside: bool, i: int, acc: Seq<K>) -> Seq<
    K,
>
    decreases s.len() - i,
{
    if 0 <= i < s.len() {
        picked_from(
            s,
            t,
            inside,
            i + 1,
            if t.contains(s[i]) == inside {
                added(acc, s[i])
            } else {
                acc
            },
        )
    } else {
        acc
    }
}

/// The members of `s` that are not in `t`.
pub open spec fn minus<K: Rank>(s: Seq<K>, t: Seq<K>) -> Seq<K> {
    picked_from(s, t, false, 0, seq![])
}

/// The members of `s` that are also in `t`.
pub open spec fn common<K: Rank>(s: Seq<K>, t: Seq<K>) -> Seq<K> {
    picked_from(s, t, true, 0, seq![])
}

/// Every member of `s` is a member of `t`.
pub open spec fn within<K>(s: Seq<K>, t: Seq<K>) -> bool {
    forall|i: int| 0 <= i < s.len() ==> t.contains(#[trigger] s[i])
}

proof fn seat_from_is<K: Rank>(s: Seq<K>, k: K, i: int, p: int)
    requires
        0 <= i <= p <= s.len(),
        forall|j: int| i <= j < p ==> (#[trigger] s[j]).precedes(k),
        p < s.len() ==> !s[p].precedes(k),
    ensures
        seat_from(s, k, i) == p,
    decreases p - i,
{
    if i < p {
        seat_from_is(s, k, i + 1, p);
    }
}

proof fn seat_from_bounds<K: Rank>(s: Seq<K>, k: K, i: int)
    requires
        0 <= i <= s.len(),
    ensures
        i <= seat_from(s, k, i) <= s.len(),
        forall|j: int| i <= j < seat_from(s, k, i) ==> (#[trigger] s[j]).precedes(k),
        seat_from(s, k, i) < s.len() ==> !s[seat_from(s, k, i)].precedes(k),
    decreases s.len() - i,
{
    if i < s.len() && s[i].precedes(k) {
        seat_from_bounds(s, k, i + 1);
    }
}

/// The seat of a value is among the members or after the last.
pub proof fn seat_bounds<K: Rank>(s: Seq<K>, k: K)
    ensures
        0 <= seat(s, k) <= s.len(),
{
    seat_from_bounds(s, k, 0);
}

/// Adding a member keeps the members ascending.
pub proof fn added_keeps_order<K: Rank>(s: Seq<K>, k: K)
    requires
        rising(s),
    ensures
        rising(added(s, k)),
{
    seat_from_bounds(s, k, 0);
    let i = seat(s, k);
    let n = added(s, k);
    if !(i < s.len() && s[i] == k) {
        if i < s.len() {
            K::total(s[i], k);
        }
        assert forall|a: int, b: int| 0 <= a < b < n.len() implies (#[trigger] n[a]).precedes(
            #[trigger] n[b],
        ) by {
            if b < i {
                assert(s[a].precedes(s[b]));
            } else if b == i {
                assert(s[a].precedes(k));
            } else if a < i {
                assert(s[a].precedes(s[b - 1]));
            } else if a == i {
                if b - 1 > i {
                    assert(s[i].precedes(s[b - 1]));
                    K::transitive(k, s[i], s[b - 1]);
                }
            } else {
                assert(s[a - 1].precedes(s[b - 1]));
            }
        }
    }
}

/// The members of an ascending sequence with `k` are `k` and those that were there.
pub proof fn added_members<K: Rank>(s: Seq<K>, k: K, x: K)
    requires
        rising(s),
    ensures
        added(s, k).contains(x) == (x == k || s.contains(x)),
{
    seat_from_bounds(s, k, 0);
    let i = seat(s, k);
    let n = added(s, k);
    if !(i < s.len() && s[i] == k) {
        assert(n[i] == k);
        if s.contains(x) {
            let j = choose|j: int| 0 <= j < s.len() && s[j] == x;
            if j < i {
                assert(n[j] == x);
            } else {
                assert(n[j + 1] == x);
            }
        }
        if n.contains(x) && x != k {
            let j = choose|j: int| 0 <= j < n.len() && n[j] == x;
            if j < i {
                assert(s[j] == x);
            } else {
                assert(s[j - 1] == x);
            }
        }
    }
}

/// In an ascending sequence a member stands at its place.
pub proof fn seat_of_member<K: Rank>(s: Seq<K>, k: K)
    requires
        rising(s),
    ensures
        s.contains(k) == (seat(s, k) < s.len() && s[seat(s, k)] == k),
{
    seat_from_bounds(s, k, 0);
    if s.contains(k) {
        let j = choose|j: int| 0 <= j < s.len() && s[j] == k;
        K::irreflexive(k);
        seat_from_is(s, k, 0, j);
    }
}

proof fn added_from_members<K: Rank>(s: Seq<K>, ks: Seq<K>, i: int)
    requires
        rising(s),
        0 <= i <= ks.len(),
    ensures
        rising(added_from(s, ks, i)),
        forall|x: K|
            #[trigger] added_from(s, ks, i).contains(x) == (s.contains(x) || ks.skip(i).contains(x)),
    decreases ks.len() - i,
{
    if i < ks.len() {
        added_keeps_order(s, ks[i]);
        added_from_members(added(s, ks[i]), ks, i + 1);
        assert forall|x: K| #[trigger] added_from(s, ks, i).contains(x) == (s.contains(x)
            || ks.skip(i).contains(x)) by {
            added_members(s, ks[i], x);
            assert(ks.skip(i)[0] == ks[i]);
            assert(ks.skip(i) =~= seq![ks[i]] + ks.skip(i + 1));
            if ks.skip(i).contains(x) {
                let j = choose|j: int| 0 <= j < ks.skip(i).len() && ks.skip(i)[j] == x;
                if j > 0 {
                    assert(ks.skip(i + 1)[j - 1] == x);
                }
            }
            let tail = ks.skip(i + 1);
            if tail.contains(x) {
                let j = choose|j: int| 0 <= j < tail.len() && tail[j] == x;
                assert(ks.skip(i)[j + 1] == x);
            }
        }
    }
}

/// A union is a set, and its members are those of either.
pub proof fn united_members<K: Rank>(s: Seq<K>, ks: Seq<K>)
    requires
        rising(s),
    ensures
        rising(united(s, ks)),
        forall|x: K| #[trigger] united(s, ks).contains(x) == (s.contains(x) || ks.contains(x)),
{
    added_from_members(s, ks, 0);
    assert(ks.skip(0) =~= ks);
}

proof fn picked_from_members<K: Rank>(s: Seq<K>, t: Seq<K>, inside: bool, i: int, acc: Seq<K>)
    requires
        rising(acc),
        0 <= i <= s.len(),
    ensures
        rising(picked_from(s, t, inside, i, acc)),
        forall|x: K|
            #[trigger] picked_from(s, t, inside, i, acc).contains(x) == (acc.contains(x) || (
            s.skip(i).contains(x) && t.contains(x) == inside)),
    decreases s.len() - i,
{
    if i < s.len() {
        let next = if t.contains(s[i]) == inside {
            added(acc, s[i])
        } else {
            acc
        };
        added_keeps_order(acc, s[i]);
        picked_from_members(s, t, inside, i + 1, next);
        assert forall|x: K| #[trigger] picked_from(s, t, inside, i, acc).contains(x) == (
        acc.contains(x) || (s.skip(i).contains(x) && t.contains(x) == inside)) by {
            added_members(acc, s[i], x);
            assert(s.skip(i)[0] == s[i]);
            if s.skip(i).contains(x) {
                let j = choose|j: int| 0 <= j < s.skip(i).len() && s.skip(i)[j] == x;
                if j > 0 {
                    assert(s.skip(i + 1)[j - 1] == x);
                }
            }
            let tail = s.skip(i + 1);
            if tail.contains(x) {
                let j = choose|j: int| 0 <= j < tail.len() && tail[j] == x;
                assert(s.skip(i)[j + 1] == x);
            }
        }
    }
}

/// A difference is a set, and its members are those of the one that are not in the other.
pub proof fn minus_members<K: Rank>(s: Seq<K>, t: Seq<K>)
    ensures
        rising(minus(s, t)),
        forall|x: K| #[trigger] minus(s, t).contains(x) == (s.contains(x) && !t.contains(x)),
{
    picked_from_members(s, t, false, 0, seq![]);
    assert(s.skip(0) =~= s);
}

/// An intersection is a set, and its members are those of both.
pub proof fn common_members<K: Rank>(s: Seq<K>, t: Seq<K>)
    ensures
        rising(common(s, t)),
        forall|x: K| #[trigger] common(s, t).contains(x) == (s.contains(x) && t.contains(x)),
{
    picked_from_members(s, t, true, 0, seq![]);
    assert(s.skip(0) =~= s);
}

/// A set with its members in order.
#[derive(Debug, PartialEq, Eq)]
pub struct SortedSet<K: Key> where <K as DeepView>::V: Rank {
    items: Vec<K>,
}

impl<K: Key> SortedSet<K> where <K as DeepView>::V: Rank {
    #[verifier::type_invariant]
    spec fn well_formed(self) -> bool {
        rising(self.items.deep_view())
    }
}

impl<K: Key> DeepView for SortedSet<K> where <K as DeepView>::V: Rank {
    type V = Seq<K::V>;

    closed spec fn deep_view(&self) -> Seq<K::V> {
        self.items.deep_view()
    }
}

impl<K: Key> SortedSet<K> where <K as DeepView>::V: Rank {
    /// The set without members.
    pub fn new() -> (r: Self)
        ensures
            r.deep_view() == Seq::<K::V>::empty(),
    {
        let items: Vec<K> = Vec::new();
        assert(items.deep_view() =~= Seq::<K::V>::empty());
        SortedSet { items }
    }

    /// The number of members.
    pub fn len(&self) -> (r: usize)
        ensures
            r == self.deep_view().len(),
    {
        self.items.len()
    }

    /// The member at index `i`.
    pub fn item(&self, i: usize) -> (r: &K)
        requires
            i < self.deep_view().len(),
        ensures
            r.deep_view() == self.deep_view()[i as int],
    {
        &self.items[i]
    }

    /// The members are in ascending order.
    pub fn in_order(&self)
        ensures
            rising(self.deep_view()),
    {
        proof {
            use_type_invariant(self);
        }
    }

    fn place(&self, k: &K) -> (r: usize)
        ensures
            r == seat(self.deep_view(), k.deep_view()),
            r <= self.deep_view().len(),
    {
        proof {
            use_type_invariant(self);
        }
        let ghost m = self.items.deep_view();
        let mut lo: usize = 0;
        let mut hi: usize = self.items.len();
        while lo < hi
            invariant
                lo <= hi <= m.len(),
                m == self.items.deep_view(),
                rising(m),
                forall|j: int| 0 <= j < lo ==> (#[trigger] m[j]).precedes(k.deep_view()),
                hi < m.len() ==> !m[hi as int].precedes(k.deep_view()),
            decreases hi - lo,
        {
            let mid: usize = lo + (hi - lo) / 2;
            if self.items[mid].less(k) {
                proof {
                    assert(m[mid as int].precedes(k.deep_view()));
                    assert forall|j: int| 0 <= j < mid + 1 implies (#[trigger] m[j]).precedes(
                        k.deep_view(),
                    ) by {
                        if j < mid {
                            <K as DeepView>::V::transitive(m[j], m[mid as int], k.deep_view());
                        }
                    }
                }
                lo = mid + 1;
            } else {
                assert(!m[mid as int].precedes(k.deep_view()));
                hi = mid;
            }
        }
        proof {
            seat_from_is(m, k.deep_view(), 0, lo as int);
        }
        lo
    }

    /// Whether `k` is a member.
    pub fn contains(&self, k: &K) -> (r: bool)
        ensures
            r == self.deep_view().contains(k.deep_view()),
    {
        proof {
            use_type_invariant(self);
            seat_of_member(self.items.deep_view(), k.deep_view());
        }
        let i: usize = self.place(k);
        i < self.items.len() && self.items[i].alike(k)
    }

    /// Adds a member.
    pub fn insert(&mut self, k: K)
        ensures
            final(self).deep_view() == added(old(self).deep_view(), k.deep_view()),
    {
        proof {
            use_type_invariant(&*self);
            added_keeps_order(self.items.deep_view(), k.deep_view());
        }
        let i: usize = self.place(&k);
        if i < self.items.len() && self.items[i].alike(&k) {
            return;
        }
        let mut items: Vec<K> = Vec::new();
        assert(rising(items.deep_view()));
        std::mem::swap(&mut items, &mut self.items);
        let ghost before = items.deep_view();
        items.insert(i, k);
        assert(items.deep_view() =~= before.insert(i as int, k.deep_view()));
        self.items = items;
    }

    /// Adds all members of `other`.
    pub fn unite(&mut self, other: &Self)
        ensures
            final(self).deep_view() == united(old(self).deep_view(), other.deep_view()),
    {
        let mut i: usize = 0;
        while i < other.len()
            invariant
                i <= other.deep_view().len(),
                added_from(self.deep_view(), other.deep_view(), i as int) == united(
                    old(self).deep_view(),
                    other.deep_view(),
                ),
            decreases other.deep_view().len() - i,
        {
            self.insert(other.item(i).dup());
            i += 1;
        }
    }

    fn pick(&self, other: &Self, inside: bool) -> (r: Self)
        ensures
            r.deep_view() == picked_from(
                self.deep_view(),
                other.deep_view(),
                inside,
                0,
                seq![],
            ),
    {
        let mut out: SortedSet<K> = SortedSet::new();
        let mut i: usize = 0;
        while i < self.len()
            invariant
                i <= self.deep_view().len(),
                picked_from(
                    self.deep_view(),
                    other.deep_view(),
                    inside,
                    i as int,
                    out.deep_view(),
                ) == picked_from(self.deep_view(), other.deep_view(), inside, 0, seq![]),
            decreases self.deep_view().len() - i,
        {
            if other.contains(self.item(i)) == inside {
                out.insert(self.item(i).dup());
            }
            i += 1;
        }
        out
    }

    /// The members that are not in `other`.
    pub fn difference(&self, other: &Self) -> (r: Self)
        ensures
            r.deep_view() == minus(self.deep_view(), other.deep_view()),
    {
        self.pick(other, false)
    }

    /// The members that are also in `other`.
    pub fn intersection(&self, other: &Self) -> (r: Self)
        ensures
            r.deep_view() == common(self.deep_view(), other.deep_view()),
    {
        self.pick(other, true)
    }

    /// Whether every member is in `other`.
    pub fn is_subset(&self, other: &Self) -> (r: bool)
        ensures
            r == within(self.deep_view(), other.deep_view()),
    {
        let mut i: usize = 0;
        while i < self.len()
            invariant
                i <= self.deep_view().len(),
                forall|j: int|
                    0 <= j < i ==> other.deep_view().contains(#[trigger] self.deep_view()[j]),
            decreases self.deep_view().len() - i,
        {
            if !other.contains(self.item(i)) {
                assert(!other.deep_view().contains(self.deep_view()[i as int]));
                return false;
            }
            i += 1;
        }
        true
    }

    /// The set of the values of a list.
    pub fn of(list: &Vec<K>) -> (r: Self)
        ensures
            r.deep_view() == set_of(list.deep_view()),
    {
        let mut out: SortedSet<K> = SortedSet::new();
        let mut i: usize = 0;
        while i < list.len()
            invariant
                i <= list@.len(),
                added_from(out.deep_view(), list.deep_view(), i as int) == set_of(
                    list.deep_view(),
                ),
            decreases list@.len() - i,
        {
            out.insert(list[i].dup());
            i += 1;
        }
        out
    }

    /// The members as a list.
    pub fn list(&self) -> (r: Vec<K>)
        ensures
            r.deep_view() == self.deep_view(),
    {
        self.items.dup()
    }
}

impl SortedSet<String> {
    /// Whether a text is a member.
    pub fn has(&self, k: &str) -> (r: bool)
        ensures
            r == self.deep_view().contains(k@),
    {
        let k = k.to_owned();
        self.contains(&k)
    }
}

impl<K: Key> Plain for SortedSet<K> where <K as DeepView>::V: Rank {
    fn dup(&self) -> (r: Self) {
        proof {
            use_type_invariant(self);
        }
        SortedSet { items: self.items.dup() }
    }

    fn alike(&self, other: &Self) -> (r: bool) {
        self.items.alike(&other.items)
    }
}

impl<K: Key> Clone for SortedSet<K> where <K as DeepView>::V: Rank {
    fn clone(&self) -> (r: Self)
        ensures
            r.deep_view() == self.deep_view(),
    {
        self.dup()
    }
}

// ---- sorted lists

/// The first index at or after `i` whose item comes after `k`.
pub open spec fn upper_from<K: Rank>(s: Seq<K>, k: K, i: int) -> int
    decreases s.len() - i,
{
    if 0 <= i < s.len() && !k.precedes(s[i]) {
        upper_from(s, k, i + 1)
    } else {
        i
    }
}

/// The list with `k` before the first item that comes after it.
pub open spec fn placed<K: Rank>(s: Seq<K>, k: K) -> Seq<K> {
    s.insert(upper_from(s, k, 0), k)
}

/// The list with the items of `ks` from index `i` on, each in its place.
pub open spec fn placed_from<K: Rank>(s: Seq<K>, ks: Seq<K>, i: int) -> Seq<K>
    decreases ks.len() - i,
{
    if 0 <= i < ks.len() {
        placed_from(placed(s, ks[i]), ks, i + 1)
    } else {
        s
    }
}

/// The items in order, equal ones as they stood.
pub open spec fn sorted<K: Rank>(ks: Seq<K>) -> Seq<K> {
    placed_from(seq![], ks, 0)
}

/// No item comes before one that stands ahead of it.
pub open spec fn in_sequence<K: Rank>(s: Seq<K>) -> bool {
    forall|i: int, j: int| 0 <= i < j < s.len() ==> !(#[trigger] s[j]).precedes(#[trigger] s[i])
}

proof fn upper_from_bounds<K: Rank>(s: Seq<K>, k: K, i: int)
    requires
        0 <= i <= s.len(),
    ensures
        i <= upper_from(s, k, i) <= s.len(),
        forall|j: int| i <= j < upper_from(s, k, i) ==> !k.precedes(#[trigger] s[j]),
        upper_from(s, k, i) < s.len() ==> k.precedes(s[upper_from(s, k, i)]),
    decreases s.len() - i,
{
    if i < s.len() && !k.precedes(s[i]) {
        upper_from_bounds(s, k, i + 1);
    }
}

proof fn placed_from_members<K: Rank>(s: Seq<K>, ks: Seq<K>, i: int, x: K)
    requires
        0 <= i <= ks.len(),
    ensures
        placed_from(s, ks, i).contains(x) == (s.contains(x) || ks.skip(i).contains(x)),
        placed_from(s, ks, i).len() == s.len() + ks.len() - i,
    decreases ks.len() - i,
{
    if i < ks.len() {
        let k = ks[i];
        let at = upper_from(s, k, 0);
        upper_from_bounds(s, k, 0);
        let next = placed(s, k);
        placed_from_members(next, ks, i + 1, x);
        assert(next[at] == k);
        assert(next.contains(x) == (s.contains(x) || x == k)) by {
            if s.contains(x) {
                let j = choose|j: int| 0 <= j < s.len() && s[j] == x;
                if j < at {
                    assert(next[j] == x);
                } else {
                    assert(next[j + 1] == x);
                }
            }
            if next.contains(x) && x != k {
                let j = choose|j: int| 0 <= j < next.len() && next[j] == x;
                if j < at {
                    assert(s[j] == x);
                } else {
                    assert(s[j - 1] == x);
                }
            }
        }
        let rest = ks.skip(i + 1);
        let all = ks.skip(i);
        assert(all[0] == k);
        assert(all.contains(x) == (x == k || rest.contains(x))) by {
            if rest.contains(x) {
                let j = choose|j: int| 0 <= j < rest.len() && rest[j] == x;
                assert(all[j + 1] == x);
            }
            if all.contains(x) && x != k {
                let j = choose|j: int| 0 <= j < all.len() && all[j] == x;
                assert(rest[j - 1] == x);
            }
        }
    }
}

/// Sorting keeps the items, and as many of them.
pub proof fn sorted_members<K: Rank>(ks: Seq<K>, x: K)
    ensures
        sorted(ks).contains(x) == ks.contains(x),
        sorted(ks).len() == ks.len(),
{
    let none = Seq::<K>::empty();
    assert(none =~= seq![]);
    assert(ks.skip(0) =~= ks);
    placed_from_members(none, ks, 0, x);
}

proof fn placed_in_sequence<K: Rank>(s: Seq<K>, k: K)
    requires
        in_sequence(s),
    ensures
        in_sequence(placed(s, k)),
        placed(s, k).to_multiset() == s.to_multiset().insert(k),
{
    upper_from_bounds(s, k, 0);
    let u = upper_from(s, k, 0);
    let n = placed(s, k);
    assert forall|i: int, j: int| 0 <= i < j < n.len() implies !(#[trigger] n[j]).precedes(
        #[trigger] n[i],
    ) by {
        let a = n[i];
        let b = n[j];
        if b.precedes(a) {
            if i < u && j == u {
                assert(a == s[i]);
            } else if i == u {
                assert(b == s[j - 1]);
                if j - 1 == u {
                    K::transitive(k, s[u], k);
                    K::irreflexive(k);
                } else {
                    assert(!s[j - 1].precedes(s[u]));
                    K::transitive(s[j - 1], k, s[u]);
                }
            } else {
                let x = if i < u {
                    i
                } else {
                    i - 1
                };
                let y = if j < u {
                    j
                } else {
                    j - 1
                };
                assert(a == s[x] && b == s[y]);
            }
        }
    }
    assert(n.remove(u) =~= s);
    n.to_multiset_ensures();
    assert(n[u] == k);
    assert(n.contains(k));
    assert(n.to_multiset() =~= s.to_multiset().insert(k));
}

proof fn placed_from_in_sequence<K: Rank>(s: Seq<K>, ks: Seq<K>, i: int)
    requires
        in_sequence(s),
        0 <= i <= ks.len(),
        s.to_multiset() == ks.take(i).to_multiset(),
    ensures
        in_sequence(placed_from(s, ks, i)),
        placed_from(s, ks, i).to_multiset() == ks.to_multiset(),
    decreases ks.len() - i,
{
    if i < ks.len() {
        placed_in_sequence(s, ks[i]);
        assert(ks.take(i + 1) =~= ks.take(i).push(ks[i]));
        ks.take(i).to_multiset_ensures();
        placed_from_in_sequence(placed(s, ks[i]), ks, i + 1);
    } else {
        assert(ks.take(i) =~= ks);
    }
}

/// Sorting puts the items in order and neither drops nor adds any.
pub proof fn sorted_is_in_sequence<K: Rank>(ks: Seq<K>)
    ensures
        in_sequence(sorted(ks)),
        sorted(ks).to_multiset() == ks.to_multiset(),
{
    let none = Seq::<K>::empty();
    assert(none =~= seq![]);
    assert(ks.take(0) =~= none);
    placed_from_in_sequence(none, ks, 0);
}

/// Sorts a list, equal items as they stood.
pub fn sort<K: Key>(list: Vec<K>) -> (r: Vec<K>) where <K as DeepView>::V: Rank
    ensures
        r.deep_view() == sorted(list.deep_view()),
{
    let mut out: Vec<K> = Vec::new();
    assert(out.deep_view() =~= Seq::<K::V>::empty());
    let mut i: usize = 0;
    while i < list.len()
        invariant
            i <= list@.len(),
            placed_from(out.deep_view(), list.deep_view(), i as int) == sorted(list.deep_view()),
        decreases list@.len() - i,
    {
        let ghost before = out.deep_view();
        let ghost k = list.deep_view()[i as int];
        let mut j: usize = 0;
        while j < out.len() && !list[i].less(&out[j])
            invariant
                i < list@.len(),
                j <= out@.len(),
                out.deep_view() == before,
                k == list.deep_view()[i as int],
                upper_from(before, k, 0) == upper_from(before, k, j as int),
            decreases out@.len() - j,
        {
            j += 1;
        }
        out.insert(j, list[i].dup());
        assert(out.deep_view() =~= placed(before, k));
        i += 1;
    }
    out
}

// ---- lists as keys

/// Lexicographic order of lists.
pub open spec fn list_before<A: Rank>(a: Seq<A>, b: Seq<A>) -> bool
    decreases a.len(),
{
    if b.len() == 0 {
        false
    } else if a.len() == 0 {
        true
    } else if a[0] != b[0] {
        a[0].precedes(b[0])
    } else {
        list_before(a.drop_first(), b.drop_first())
    }
}

proof fn list_before_irreflexive<A: Rank>(a: Seq<A>)
    ensures
        !list_before(a, a),
    decreases a.len(),
{
    if a.len() > 0 {
        list_before_irreflexive(a.drop_first());
    }
}

proof fn list_before_transitive<A: Rank>(a: Seq<A>, b: Seq<A>, c: Seq<A>)
    requires
        list_before(a, b),
        list_before(b, c),
    ensures
        list_before(a, c),
    decreases a.len(),
{
    if a.len() > 0 {
        if a[0] == b[0] && b[0] == c[0] {
            list_before_transitive(a.drop_first(), b.drop_first(), c.drop_first());
        } else if a[0] != b[0] && b[0] != c[0] {
            A::transitive(a[0], b[0], c[0]);
            A::irreflexive(a[0]);
            if a[0] == c[0] {
                assert(false);
            }
        }
    }
}

proof fn list_before_total<A: Rank>(a: Seq<A>, b: Seq<A>)
    ensures
        a == b || list_before(a, b) || list_before(b, a),
    decreases a.len(),
{
    if a.len() > 0 && b.len() > 0 {
        if a[0] == b[0] {
            list_before_total(a.drop_first(), b.drop_first());
            if a.drop_first() == b.drop_first() {
                assert(a =~= seq![a[0]] + a.drop_first());
                assert(b =~= seq![b[0]] + b.drop_first());
            }
        } else {
            A::total(a[0], b[0]);
        }
    } else if a.len() == 0 && b.len() == 0 {
        assert(a =~= b);
    }
}

impl Rank for Seq<Seq<char>> {
    open spec fn precedes(self, other: Self) -> bool {
        list_before(self, other)
    }

    proof fn irreflexive(a: Self) {
        list_before_irreflexive(a);
    }

    proof fn transitive(a: Self, b: Self, c: Self) {
        list_before_transitive(a, b, c);
    }

    proof fn total(a: Self, b: Self) {
        list_before_total(a, b);
    }
}

impl Rank for Seq<LocView> {
    open spec fn precedes(self, other: Self) -> bool {
        list_before(self, other)
    }

    proof fn irreflexive(a: Self) {
        list_before_irreflexive(a);
    }

    proof fn transitive(a: Self, b: Self, c: Self) {
        list_before_transitive(a, b, c);
    }

    proof fn total(a: Self, b: Self) {
        list_before_total(a, b);
    }
}

fn list_less<K: Key>(a: &Vec<K>, b: &Vec<K>) -> (r: bool) where <K as DeepView>::V: Rank
    ensures
        r == list_before(a.deep_view(), b.deep_view()),
{
    let ghost av = a.deep_view();
    let ghost bv = b.deep_view();
    let mut i: usize = 0;
    assert(av.skip(0) =~= av);
    assert(bv.skip(0) =~= bv);
    loop
        invariant
            i <= a@.len(),
            i <= b@.len(),
            av == a.deep_view(),
            bv == b.deep_view(),
            list_before(av, bv) == list_before(av.skip(i as int), bv.skip(i as int)),
        decreases a@.len() - i,
    {
        if i >= b.len() {
            return false;
        }
        if i >= a.len() {
            return true;
        }
        assert(av.skip(i as int)[0] == av[i as int]);
        assert(bv.skip(i as int)[0] == bv[i as int]);
        if !a[i].alike(&b[i]) {
            return a[i].less(&b[i]);
        }
        assert(av.skip(i as int).drop_first() =~= av.skip(i + 1));
        assert(bv.skip(i as int).drop_first() =~= bv.skip(i + 1));
        i += 1;
    }
}

impl Key for Vec<Loc> {
    fn less(&self, other: &Self) -> (r: bool) {
        list_less(self, other)
    }
}

impl Key for SortedSet<String> {
    fn less(&self, other: &Self) -> (r: bool) {
        list_less(&self.items, &other.items)
    }
}

} // verus!
