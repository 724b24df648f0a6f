//! Association lists: a map written as a list of pairs, read in order. The
//! first pair with a key is the one that counts.

use vstd::prelude::*;

verus! {

/// `i` is the place of the first pair of `s` whose key is `k`.
pub open spec fn is_first_index<K, V>(s: Seq<(K, V)>, k: K, i: int) -> bool {
    &&& 0 <= i < s.len()
    &&& s[i].0 == k
    &&& forall|j: int| 0 <= j < i ==> (#[trigger] s[j]).0 != k
}

/// Some pair of `s` has the key `k`.
pub open spec fn has_key<K, V>(s: Seq<(K, V)>, k: K) -> bool {
    exists|i: int| 0 <= i < s.len() && (#[trigger] s[i]).0 == k
}

/// The place of the first pair with the key `k`, where there is one.
pub open spec fn first_index<K, V>(s: Seq<(K, V)>, k: K) -> int {
    choose|i: int| is_first_index(s, k, i)
}

/// The value that `s` gives to `k`.
pub open spec fn assoc_get<K, V>(s: Seq<(K, V)>, k: K) -> Option<V> {
    if has_key(s, k) {
        Some(s[first_index(s, k)].1)
    } else {
        None
    }
}

/// `s` with `k` bound to `v`: in place where `k` is bound already, at the
/// end where it is not.
pub open spec fn assoc_insert<K, V>(s: Seq<(K, V)>, k: K, v: V) -> Seq<(K, V)> {
    if has_key(s, k) {
        s.update(first_index(s, k), (k, v))
    } else {
        s.push((k, v))
    }
}

/// A key that occurs at `i` has a first occurrence.
pub proof fn lemma_first_occurrence<K, V>(s: Seq<(K, V)>, k: K, i: int)
    requires
        0 <= i < s.len(),
        s[i].0 == k,
    ensures
        is_first_index(s, k, first_index(s, k)),
        first_index(s, k) <= i,
        has_key(s, k),
    decreases i,
{
    if forall|j: int| 0 <= j < i ==> (#[trigger] s[j]).0 != k {
        assert(is_first_index(s, k, i));
    } else {
        let j = choose|j: int| 0 <= j < i && (#[trigger] s[j]).0 == k;
        lemma_first_occurrence(s, k, j);
    }
    let f = first_index(s, k);
    if f > i {
        assert(s[i].0 != k);
    }
}

/// The first occurrence of a key is `first_index`, and gives its value.
pub proof fn lemma_first_index<K, V>(s: Seq<(K, V)>, k: K, i: int)
    requires
        is_first_index(s, k, i),
    ensures
        has_key(s, k),
        first_index(s, k) == i,
        assoc_get(s, k) == Some(s[i].1),
{
    lemma_first_occurrence(s, k, i);
    let f = first_index(s, k);
    if f < i {
        assert(s[f].0 != k);
    }
}

/// A bound key has a first occurrence.
pub proof fn lemma_has_key<K, V>(s: Seq<(K, V)>, k: K)
    requires
        has_key(s, k),
    ensures
        is_first_index(s, k, first_index(s, k)),
        assoc_get(s, k) == Some(s[first_index(s, k)].1),
{
    let i = choose|i: int| 0 <= i < s.len() && (#[trigger] s[i]).0 == k;
    lemma_first_occurrence(s, k, i);
}

/// After `assoc_insert` the key has the new value and every other key the
/// value it had.
pub proof fn lemma_insert_get<K, V>(s: Seq<(K, V)>, k: K, v: V, other: K)
    ensures
        assoc_get(assoc_insert(s, k, v), k) == Some(v),
        other != k ==> assoc_get(assoc_insert(s, k, v), other) == assoc_get(s, other),
        has_key(assoc_insert(s, k, v), other) <==> other == k || has_key(s, other),
{
    let t = assoc_insert(s, k, v);
    if has_key(s, k) {
        lemma_has_key(s, k);
        let f = first_index(s, k);
        assert(t.len() == s.len());
        assert forall|j: int| 0 <= j < s.len() implies (#[trigger] t[j]).0 == s[j].0 by {}
        assert(is_first_index(t, k, f)) by {
            assert forall|j: int| 0 <= j < f implies (#[trigger] t[j]).0 != k by {
                assert(s[j].0 != k);
            }
        }
        lemma_first_index(t, k, f);
        if other != k {
            if has_key(s, other) {
                lemma_has_key(s, other);
                let g = first_index(s, other);
                assert(is_first_index(t, other, g)) by {
                    assert forall|j: int| 0 <= j < g implies (#[trigger] t[j]).0 != other by {
                        assert(s[j].0 != other);
                    }
                }
                lemma_first_index(t, other, g);
            } else {
                if has_key(t, other) {
                    let i = choose|i: int| 0 <= i < t.len() && (#[trigger] t[i]).0 == other;
                    assert(s[i].0 == other);
                }
            }
        }
    } else {
        let n = s.len() as int;
        assert(t.len() == n + 1);
        assert(is_first_index(t, k, n)) by {
            assert forall|j: int| 0 <= j < n implies (#[trigger] t[j]).0 != k by {
                assert(t[j] == s[j]);
                assert(s[j].0 == k ==> has_key(s, k));
            }
        }
        lemma_first_index(t, k, n);
        if other != k {
            if has_key(s, other) {
                lemma_has_key(s, other);
                let g = first_index(s, other);
                assert(is_first_index(t, other, g)) by {
                    assert(t[g] == s[g]);
                    assert forall|j: int| 0 <= j < g implies (#[trigger] t[j]).0 != other by {
                        assert(t[j] == s[j]);
                        assert(s[j].0 != other);
                    }
                }
                lemma_first_index(t, other, g);
            } else {
                if has_key(t, other) {
                    let i = choose|i: int| 0 <= i < t.len() && (#[trigger] t[i]).0 == other;
                    assert(i < n);
                    assert(t[i] == s[i]);
                    assert(s[i].0 == other);
                }
            }
        }
    }
}

/// No key stands twice in the list.
pub open spec fn distinct_keys<K, V>(s: Seq<(K, V)>) -> bool {
    forall|i: int, j: int| 0 <= i < j < s.len() ==> (#[trigger] s[i]).0 != (#[trigger] s[j]).0
}

/// `assoc_insert` keeps the keys of a list distinct.
pub proof fn lemma_insert_distinct<K, V>(s: Seq<(K, V)>, k: K, v: V)
    requires
        distinct_keys(s),
    ensures
        distinct_keys(assoc_insert(s, k, v)),
{
    let t = assoc_insert(s, k, v);
    if has_key(s, k) {
        lemma_has_key(s, k);
        assert forall|i: int, j: int| 0 <= i < j < t.len() implies (#[trigger] t[i]).0 != (
        #[trigger] t[j]).0 by {
            assert(t[i].0 == s[i].0);
            assert(t[j].0 == s[j].0);
        }
    } else {
        assert forall|i: int, j: int| 0 <= i < j < t.len() implies (#[trigger] t[i]).0 != (
        #[trigger] t[j]).0 by {
            assert(t[i] == s[i]);
            if j < s.len() {
                assert(t[j] == s[j]);
            } else {
                assert(s[i].0 == k ==> has_key(s, k));
            }
        }
    }
}

/// In a list of distinct keys every pair counts: the list gives a key the
/// value of the pair it stands in.
pub proof fn lemma_distinct_get<K, V>(s: Seq<(K, V)>, i: int)
    requires
        distinct_keys(s),
        0 <= i < s.len(),
    ensures
        assoc_get(s, s[i].0) == Some(s[i].1),
{
    assert(is_first_index(s, s[i].0, i)) by {
        assert forall|j: int| 0 <= j < i implies (#[trigger] s[j]).0 != s[i].0 by {}
    }
    lemma_first_index(s, s[i].0, i);
}

/// Without its last pair a list gives every other key what it gave.
pub proof fn lemma_get_drop_last<K, V>(s: Seq<(K, V)>, k: K)
    requires
        s.len() > 0,
        s.last().0 != k,
    ensures
        assoc_get(s.drop_last(), k) == assoc_get(s, k),
{
    let front = s.drop_last();
    if has_key(s, k) {
        lemma_has_key(s, k);
        let f = first_index(s, k);
        assert(is_first_index(front, k, f)) by {
            assert(front[f] == s[f]);
            assert forall|j: int| 0 <= j < f implies (#[trigger] front[j]).0 != k by {
                assert(front[j] == s[j]);
                assert(s[j].0 != k);
            }
        }
        lemma_first_index(front, k, f);
    } else if has_key(front, k) {
        let i = choose|i: int| 0 <= i < front.len() && (#[trigger] front[i]).0 == k;
        assert(s[i].0 == k);
    }
}

/// A map from characters, kept as an association list.
#[derive(Debug, Clone, PartialEq)]
pub struct CharMap<V> {
    pub entries: Vec<(char, V)>,
}

impl<V: View> View for CharMap<V> {
    type V = Seq<(char, V::V)>;

    open spec fn view(&self) -> Seq<(char, V::V)> {
        Seq::new(self.entries@.len(), |i: int| (self.entries@[i].0, self.entries@[i].1@))
    }
}

impl<V: View> CharMap<V> {
    /// The empty map.
    pub fn new() -> (m: Self)
        ensures
            m@ == Seq::<(char, V::V)>::empty(),
    {
        let m = CharMap { entries: Vec::new() };
        assert(m@ =~= Seq::<(char, V::V)>::empty());
        m
    }

    /// The number of pairs of the list.
    pub fn len(&self) -> (n: usize)
        ensures
            n == self@.len(),
    {
        self.entries.len()
    }

    /// The place of the first pair with the key `c`.
    pub fn position(&self, c: char) -> (res: Option<usize>)
        ensures
            match res {
                Some(i) => is_first_index(self@, c, i as int),
                None => !has_key(self@, c),
            },
    {
        let mut i: usize = 0;
        while i < self.entries.len()
            invariant
                i <= self.entries@.len(),
                forall|j: int| 0 <= j < i ==> (#[trigger] self@[j]).0 != c,
            decreases self.entries@.len() - i,
        {
            if self.entries[i].0 == c {
                return Some(i);
            }
            i += 1;
        }
        None
    }

    /// The value bound to `c`.
    pub fn get(&self, c: char) -> (res: Option<&V>)
        ensures
            match res {
                Some(v) => assoc_get(self@, c) == Some(v@),
                None => assoc_get(self@, c) is None,
            },
    {
        match self.position(c) {
            Some(i) => {
                proof {
                    lemma_first_index(self@, c, i as int);
                }
                Some(&self.entries[i].1)
            },
            None => None,
        }
    }

    /// Whether `c` is bound.
    pub fn contains_key(&self, c: char) -> (b: bool)
        ensures
            b == has_key(self@, c),
            b == assoc_get(self@, c).is_some(),
    {
        match self.position(c) {
            Some(i) => {
                proof {
                    lemma_first_index(self@, c, i as int);
                }
                true
            },
            None => false,
        }
    }

    /// Binds `c` to `v`, in place of what `c` was bound to before.
    pub fn insert(&mut self, c: char, v: V)
        ensures
            final(self)@ == assoc_insert(old(self)@, c, v@),
    {
        match self.position(c) {
            Some(i) => {
                proof {
                    lemma_first_index(self@, c, i as int);
                }
                self.entries[i] = (c, v);
                assert(self@ =~= assoc_insert(old(self)@, c, v@));
            },
            None => {
                self.entries.push((c, v));
                assert(self@ =~= assoc_insert(old(self)@, c, v@));
            },
        }
    }
}

} // verus!
