//! A map from strings to values that keeps its keys in increasing order.

use vstd::prelude::*;
use crate::order::lex_less;
use crate::order::str_less;
use crate::order::lemma_lex_less_irreflexive;
use crate::order::lemma_lex_less_transitive;
use crate::order::lemma_lex_less_connected;

verus! {

/// The keys of `s` increase strictly from each entry to the next.
pub open spec fn increasing<T>(s: Seq<(Seq<char>, T)>) -> bool {
    forall|i: int, j: int| 0 <= i < j < s.len() ==> lex_less(#[trigger] s[i].0, #[trigger] s[j].0)
}

/// The index of the first entry of `s` whose key is not before `k`, or the
/// length of `s` if there is none.
pub open spec fn position<T>(s: Seq<(Seq<char>, T)>, k: Seq<char>) -> int
    decreases s.len(),
{
    if s.len() == 0 || !lex_less(s[0].0, k) {
        0
    } else {
        1 + position(s.drop_first(), k)
    }
}

/// Some entry of `s` has the key `k`.
pub open spec fn has_key<T>(s: Seq<(Seq<char>, T)>, k: Seq<char>) -> bool {
    exists|i: int| 0 <= i < s.len() && (#[trigger] s[i]).0 == k
}

/// The value that `s` holds under `k`.
pub open spec fn find<T>(s: Seq<(Seq<char>, T)>, k: Seq<char>) -> Option<T> {
    let i = position(s, k);
    if i < s.len() && s[i].0 == k {
        Some(s[i].1)
    } else {
        None
    }
}

/// `s` with `v` under `k`, in place of what `s` held there.
pub open spec fn put<T>(s: Seq<(Seq<char>, T)>, k: Seq<char>, v: T) -> Seq<(Seq<char>, T)> {
    let i = position(s, k);
    if i < s.len() && s[i].0 == k {
        s.update(i, (k, v))
    } else {
        s.insert(i, (k, v))
    }
}

/// `s` without the entry under `k`.
pub open spec fn del<T>(s: Seq<(Seq<char>, T)>, k: Seq<char>) -> Seq<(Seq<char>, T)> {
    let i = position(s, k);
    if i < s.len() && s[i].0 == k {
        s.remove(i)
    } else {
        s
    }
}

/// `position` lies within `s`, every key before it is before `k`, and the key
/// at it is not.
pub proof fn lemma_position_splits<T>(s: Seq<(Seq<char>, T)>, k: Seq<char>)
    ensures
        0 <= position(s, k) <= s.len(),
        forall|j: int| 0 <= j < position(s, k) ==> lex_less(#[trigger] s[j].0, k),
        position(s, k) < s.len() ==> !lex_less(s[position(s, k)].0, k),
    decreases s.len(),
{
    if s.len() == 0 || !lex_less(s[0].0, k) {
    } else {
        let t = s.drop_first();
        lemma_position_splits(t, k);
        assert forall|j: int| 0 <= j < position(s, k) implies lex_less(#[trigger] s[j].0, k) by {
            if j > 0 {
                assert(s[j] == t[j - 1]);
            }
        }
        if position(s, k) < s.len() {
            assert(s[position(s, k)] == t[position(t, k)]);
        }
    }
}

/// An index with every key before it before `k`, and its own key not, is
/// `position`.
pub proof fn lemma_position_is<T>(s: Seq<(Seq<char>, T)>, k: Seq<char>, i: int)
    requires
        0 <= i <= s.len(),
        forall|j: int| 0 <= j < i ==> lex_less(#[trigger] s[j].0, k),
        i < s.len() ==> !lex_less(s[i].0, k),
    ensures
        position(s, k) == i,
    decreases s.len(),
{
    if i > 0 {
        let t = s.drop_first();
        assert(lex_less(s[0].0, k));
        assert forall|j: int| 0 <= j < i - 1 implies lex_less(#[trigger] t[j].0, k) by {
            assert(t[j] == s[j + 1]);
        }
        lemma_position_is(t, k, i - 1);
    }
}

/// In an increasing sequence the key at `i` has position `i`.
pub proof fn lemma_position_of_key<T>(s: Seq<(Seq<char>, T)>, i: int)
    requires
        increasing(s),
        0 <= i < s.len(),
    ensures
        position(s, s[i].0) == i,
        find(s, s[i].0) == Some(s[i].1),
{
    lemma_lex_less_irreflexive(s[i].0);
    lemma_position_is(s, s[i].0, i);
}

/// In an increasing sequence `find` answers exactly for the keys it has.
pub proof fn lemma_find_has_key<T>(s: Seq<(Seq<char>, T)>, k: Seq<char>)
    requires
        increasing(s),
    ensures
        find(s, k) is Some <==> has_key(s, k),
{
    lemma_position_splits(s, k);
    if has_key(s, k) {
        let i = choose|i: int| 0 <= i < s.len() && (#[trigger] s[i]).0 == k;
        lemma_position_of_key(s, i);
    }
    if find(s, k) is Some {
        assert(s[position(s, k)].0 == k);
    }
}

/// In an increasing sequence without the key `k`, every key from
/// `position` on comes after `k`.
proof fn lemma_after_position<T>(s: Seq<(Seq<char>, T)>, k: Seq<char>, j: int)
    requires
        increasing(s),
        position(s, k) <= j < s.len(),
        s[position(s, k)].0 != k,
    ensures
        lex_less(k, s[j].0),
{
    lemma_position_splits(s, k);
    let i = position(s, k);
    lemma_lex_less_connected(s[i].0, k);
    if i < j {
        lemma_lex_less_transitive(k, s[i].0, s[j].0);
    }
}

/// `put` keeps the keys increasing.
pub proof fn lemma_put_increasing<T>(s: Seq<(Seq<char>, T)>, k: Seq<char>, v: T)
    requires
        increasing(s),
    ensures
        increasing(put(s, k, v)),
{
    lemma_position_splits(s, k);
    let i = position(s, k);
    let r = put(s, k, v);
    if i < s.len() && s[i].0 == k {
        assert forall|a: int, b: int| 0 <= a < b < r.len() implies lex_less(
            #[trigger] r[a].0,
            #[trigger] r[b].0,
        ) by {
            assert(r[a].0 == s[a].0);
            assert(r[b].0 == s[b].0);
        }
    } else {
        assert forall|a: int, b: int| 0 <= a < b < r.len() implies lex_less(
            #[trigger] r[a].0,
            #[trigger] r[b].0,
        ) by {
            if b < i {
                assert(r[a] == s[a] && r[b] == s[b]);
            } else if b == i {
                assert(r[a] == s[a]);
            } else if a == i {
                assert(r[b] == s[b - 1]);
                lemma_after_position(s, k, b - 1);
            } else if a < i {
                assert(r[a] == s[a] && r[b] == s[b - 1]);
            } else {
                assert(r[a] == s[a - 1] && r[b] == s[b - 1]);
            }
        }
    }
}

/// `del` keeps the keys increasing.
pub proof fn lemma_del_increasing<T>(s: Seq<(Seq<char>, T)>, k: Seq<char>)
    requires
        increasing(s),
    ensures
        increasing(del(s, k)),
{
    lemma_position_splits(s, k);
    let i = position(s, k);
    let r = del(s, k);
    if i < s.len() && s[i].0 == k {
        assert forall|a: int, b: int| 0 <= a < b < r.len() implies lex_less(
            #[trigger] r[a].0,
            #[trigger] r[b].0,
        ) by {
            assert(r[a] == if a < i { s[a] } else { s[a + 1] });
            assert(r[b] == if b < i { s[b] } else { s[b + 1] });
        }
    }
}

/// After `put`, `k` holds `v` and every other key holds what it held.
pub proof fn lemma_find_put<T>(s: Seq<(Seq<char>, T)>, k: Seq<char>, v: T, q: Seq<char>)
    requires
        increasing(s),
    ensures
        find(put(s, k, v), q) == if q == k { Some(v) } else { find(s, q) },
{
    lemma_position_splits(s, k);
    lemma_put_increasing(s, k, v);
    let i = position(s, k);
    let r = put(s, k, v);
    let replaced = i < s.len() && s[i].0 == k;
    assert(r[i] == (k, v));
    if q == k {
        lemma_position_of_key(r, i);
    } else if find(s, q) is Some {
        lemma_position_splits(s, q);
        let a = position(s, q);
        let b = if replaced || a < i { a } else { a + 1 };
        assert(r[b] == s[a]);
        lemma_position_of_key(r, b);
    } else if find(r, q) is Some {
        lemma_position_splits(r, q);
        let b = position(r, q);
        let a = if replaced || b < i { b } else { b - 1 };
        assert(s[a] == r[b]);
        lemma_position_of_key(s, a);
    }
}

/// After `del`, `k` holds nothing and every other key holds what it held.
pub proof fn lemma_find_del<T>(s: Seq<(Seq<char>, T)>, k: Seq<char>, q: Seq<char>)
    requires
        increasing(s),
    ensures
        find(del(s, k), q) == if q == k { None } else { find(s, q) },
{
    lemma_position_splits(s, k);
    lemma_del_increasing(s, k);
    let i = position(s, k);
    let r = del(s, k);
    if i < s.len() && s[i].0 == k {
        if q != k && find(s, q) is Some {
            lemma_position_splits(s, q);
            let a = position(s, q);
            let b = if a < i { a } else { a - 1 };
            assert(r[b] == s[a]);
            lemma_position_of_key(r, b);
        } else if find(r, q) is Some {
            lemma_position_splits(r, q);
            let b = position(r, q);
            let a = if b < i { b } else { b + 1 };
            assert(s[a] == r[b]);
            lemma_position_of_key(s, a);
            if q == k {
                lemma_lex_less_irreflexive(k);
                assert(lex_less(s[a].0, s[i].0) || lex_less(s[i].0, s[a].0));
            }
        }
    }
}

/// The entries of `s`, each key and value by its view.
spec fn views<V: View>(s: Seq<(String, V)>) -> Seq<(Seq<char>, V::V)> {
    Seq::new(s.len(), |i: int| (s[i].0@, s[i].1@))
}

/// A map from strings to values. It holds one value under a key and walks
/// its entries by increasing key.
#[derive(Debug, PartialEq)]
pub struct SortedMap<V: View> {
    entries: Vec<(String, V)>,
}

impl<V: View> View for SortedMap<V> {
    type V = Seq<(Seq<char>, V::V)>;

    /// The entries, by increasing key, each key and value by its view.
    closed spec fn view(&self) -> Seq<(Seq<char>, V::V)> {
        views(self.entries@)
    }
}

impl<V: View> SortedMap<V> {
    #[verifier::type_invariant]
    spec fn ordered(self) -> bool {
        increasing(self@)
    }

    /// The empty map.
    pub fn new() -> (m: SortedMap<V>)
        ensures
            m@ == Seq::<(Seq<char>, V::V)>::empty(),
    {
        let m = SortedMap { entries: Vec::new() };
        assert(m@ =~= Seq::<(Seq<char>, V::V)>::empty());
        m
    }

    /// The number of entries.
    pub fn len(&self) -> (n: usize)
        ensures
            n == self@.len(),
            increasing(self@),
    {
        proof {
            use_type_invariant(self);
        }
        self.entries.len()
    }

    /// The entry at `i`, counted by increasing key.
    pub fn entry(&self, i: usize) -> (r: Option<(&String, &V)>)
        ensures
            i < self@.len() <==> r is Some,
            r matches Some(e) ==> e.0@ == self@[i as int].0 && e.1@ == self@[i as int].1,
    {
        if i < self.entries.len() {
            Some((&self.entries[i].0, &self.entries[i].1))
        } else {
            None
        }
    }

    fn search(&self, k: &str) -> (i: usize)
        ensures
            i == position(self@, k@),
            i <= self@.len(),
            increasing(self@),
    {
        proof {
            use_type_invariant(self);
        }
        let mut lo: usize = 0;
        let mut hi: usize = self.entries.len();
        while lo < hi
            invariant
                0 <= lo <= hi <= self.entries.len(),
                self@.len() == self.entries.len(),
                increasing(self@),
                forall|j: int| 0 <= j < lo ==> lex_less(#[trigger] self@[j].0, k@),
                forall|j: int| hi <= j < self@.len() ==> !lex_less(#[trigger] self@[j].0, k@),
            decreases hi - lo,
        {
            let mid: usize = lo + (hi - lo) / 2;
            if str_less(self.entries[mid].0.as_str(), k) {
                proof {
                    assert forall|j: int| 0 <= j < mid + 1 implies lex_less(
                        #[trigger] self@[j].0,
                        k@,
                    ) by {
                        if j < mid {
                            lemma_lex_less_transitive(self@[j].0, self@[mid as int].0, k@);
                        }
                    }
                }
                lo = mid + 1;
            } else {
                proof {
                    assert forall|j: int| mid <= j < self@.len() implies !lex_less(
                        #[trigger] self@[j].0,
                        k@,
                    ) by {
                        if j > mid && lex_less(self@[j].0, k@) {
                            lemma_lex_less_transitive(self@[mid as int].0, self@[j].0, k@);
                        }
                    }
                }
                hi = mid;
            }
        }
        proof {
            lemma_position_is(self@, k@, lo as int);
        }
        lo
    }

    /// Whether the entry at `i`, the position of `k`, has the key `k`.
    fn holds(&self, i: usize, k: &str) -> (b: bool)
        requires
            i == position(self@, k@),
        ensures
            b == (find(self@, k@) is Some),
            b ==> i < self@.len() && self@[i as int].0 == k@,
    {
        if i < self.entries.len() {
            proof {
                lemma_position_splits(self@, k@);
                if !lex_less(k@, self@[i as int].0) && self@[i as int].0 != k@ {
                    lemma_lex_less_connected(self@[i as int].0, k@);
                }
                lemma_lex_less_irreflexive(k@);
            }
            !str_less(k, self.entries[i].0.as_str())
        } else {
            false
        }
    }

    /// The value under `k`.
    pub fn get(&self, k: &str) -> (r: Option<&V>)
        ensures
            match r {
                Some(v) => find(self@, k@) == Some(v@),
                None => find(self@, k@) is None,
            },
    {
        let i = self.search(k);
        if self.holds(i, k) {
            Some(&self.entries[i].1)
        } else {
            None
        }
    }

    /// Whether a value stands under `k`.
    pub fn contains_key(&self, k: &str) -> (b: bool)
        ensures
            b == (find(self@, k@) is Some),
    {
        let i = self.search(k);
        self.holds(i, k)
    }

    /// Puts `v` under `k` and returns what stood there.
    pub fn insert(&mut self, k: String, v: V) -> (r: Option<V>)
        ensures
            final(self)@ == put(old(self)@, k@, v@),
            increasing(final(self)@),
            match r {
                Some(w) => find(old(self)@, k@) == Some(w@),
                None => find(old(self)@, k@) is None,
            },
    {
        let i = self.search(k.as_str());
        let found = self.holds(i, k.as_str());
        proof {
            lemma_put_increasing(self@, k@, v@);
        }
        let mut entries = self.take_entries();
        let r = if found {
            let e = entries.remove(i);
            Some(e.1)
        } else {
            None
        };
        entries.insert(i, (k, v));
        assert(views(entries@) =~= put(old(self)@, k@, v@));
        *self = SortedMap { entries };
        r
    }

    /// Takes out the entry under `k` and returns its value.
    pub fn remove(&mut self, k: &str) -> (r: Option<V>)
        ensures
            final(self)@ == del(old(self)@, k@),
            increasing(final(self)@),
            match r {
                Some(w) => find(old(self)@, k@) == Some(w@),
                None => find(old(self)@, k@) is None,
            },
    {
        let i = self.search(k);
        let found = self.holds(i, k);
        proof {
            lemma_del_increasing(self@, k@);
        }
        if found {
            let mut entries = self.take_entries();
            let e = entries.remove(i);
            assert(views(entries@) =~= del(old(self)@, k@));
            *self = SortedMap { entries };
            Some(e.1)
        } else {
            None
        }
    }

    /// Leaves the map empty and returns its entries.
    fn take_entries(&mut self) -> (entries: Vec<(String, V)>)
        ensures
            entries.len() == old(self)@.len(),
            forall|i: int|
                0 <= i < entries.len() ==> (#[trigger] entries[i]).0@ == old(self)@[i].0
                    && entries[i].1@ == old(self)@[i].1,
    {
        let mut taken = SortedMap { entries: Vec::new() };
        assert(taken@ =~= Seq::<(Seq<char>, V::V)>::empty());
        std::mem::swap(self, &mut taken);
        taken.entries
    }
}

} // verus!
