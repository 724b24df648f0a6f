//! From the weights of character n-grams to the weights of n-grams of key
//! presses.
//!
//! Each n-gram of characters is written out as the presses of its
//! characters. Every run of `N` presses in a row then gets the whole weight
//! of the n-gram, so an n-gram with a dead key in it counts for more than
//! one n-gram of presses.

use crate::assoc::{
    assoc_get, assoc_insert, distinct_keys, has_key, is_first_index, lemma_first_index,
    lemma_has_key, lemma_insert_distinct, lemma_insert_get,
};
use crate::keyseq::{KeySeqMap, KeySymbol};
use crate::resolution::KeySeqs;
use vstd::prelude::*;

verus! {

/// Weights by n-gram of presses.
pub type Weights = Seq<(Seq<KeySymbol>, nat)>;

/// The presses of an n-gram of characters, one character after the other,
/// or `None` where a character has no presses.
pub open spec fn ngram_keyseq(ngram: Seq<char>, map: KeySeqs) -> Option<Seq<KeySymbol>>
    decreases ngram.len(),
{
    if ngram.len() == 0 {
        Some(Seq::empty())
    } else {
        match (ngram_keyseq(ngram.drop_last(), map), assoc_get(map, ngram.last())) {
            (Some(front), Some(presses)) => Some(front + presses),
            _ => None,
        }
    }
}

/// The runs of `n` presses in a row, from left to right.
pub open spec fn windows(presses: Seq<KeySymbol>, n: nat) -> Seq<Seq<KeySymbol>> {
    Seq::new(
        if presses.len() >= n {
            (presses.len() - n + 1) as nat
        } else {
            0
        },
        |i: int| presses.subrange(i, i + n),
    )
}

/// The table with `weight` added to what it holds for `key`.
pub open spec fn add_weight(table: Weights, key: Seq<KeySymbol>, weight: nat) -> Weights {
    match assoc_get(table, key) {
        Some(held) => assoc_insert(table, key, held + weight),
        None => assoc_insert(table, key, weight),
    }
}

/// The table with `weight` added for each of `runs`, in their order.
pub open spec fn add_windows(table: Weights, runs: Seq<Seq<KeySymbol>>, weight: nat) -> Weights
    decreases runs.len(),
{
    if runs.len() == 0 {
        table
    } else {
        add_weight(add_windows(table, runs.drop_last(), weight), runs.last(), weight)
    }
}

/// The weights of the n-grams of presses that a table of n-grams of
/// characters comes to. An n-gram with a character that has no presses
/// adds nothing.
pub open spec fn project(ngrams: Seq<(Seq<char>, nat)>, map: KeySeqs, n: nat) -> Weights
    decreases ngrams.len(),
{
    if ngrams.len() == 0 {
        Seq::empty()
    } else {
        let front = project(ngrams.drop_last(), map, n);
        match ngram_keyseq(ngrams.last().0, map) {
            Some(presses) => add_windows(front, windows(presses, n), ngrams.last().1),
            None => front,
        }
    }
}

/// The sum of the weights of a table.
pub open spec fn total_weight<K>(table: Seq<(K, nat)>) -> nat
    decreases table.len(),
{
    if table.len() == 0 {
        0
    } else {
        total_weight(table.drop_last()) + table.last().1
    }
}

/// A table of weights as mathematics.
pub open spec fn weights_view<const N: usize>(table: Seq<([KeySymbol; N], u64)>) -> Weights {
    Seq::new(table.len(), |i: int| (table[i].0@, table[i].1 as nat))
}

/// A table of n-grams of characters as mathematics.
pub open spec fn ngrams_view<const N: usize>(table: Seq<([char; N], u64)>) -> Seq<(Seq<char>, nat)> {
    Seq::new(table.len(), |i: int| (table[i].0@, table[i].1 as nat))
}

/// Changing one weight of a table changes the total by as much.
pub proof fn lemma_total_update<K>(table: Seq<(K, nat)>, i: int, entry: (K, nat))
    requires
        0 <= i < table.len(),
    ensures
        total_weight(table.update(i, entry)) + table[i].1 == total_weight(table) + entry.1,
    decreases table.len(),
{
    let after = table.update(i, entry);
    if i == table.len() - 1 {
        assert(after.drop_last() =~= table.drop_last());
    } else {
        lemma_total_update(table.drop_last(), i, entry);
        assert(after.drop_last() =~= table.drop_last().update(i, entry));
    }
}

/// Adding a weight to a table adds it to the total.
pub proof fn lemma_total_add_weight(table: Weights, key: Seq<KeySymbol>, weight: nat)
    ensures
        total_weight(add_weight(table, key, weight)) == total_weight(table) + weight,
{
    if has_key(table, key) {
        lemma_has_key(table, key);
        let i = crate::assoc::first_index(table, key);
        lemma_total_update(table, i, (key, table[i].1 + weight));
    } else {
        assert(table.push((key, weight)).drop_last() =~= table);
    }
}

/// The total after adding runs grows with the number of runs added.
pub proof fn lemma_total_add_windows(table: Weights, runs: Seq<Seq<KeySymbol>>, weight: nat, k: int)
    requires
        0 <= k <= runs.len(),
    ensures
        total_weight(add_windows(table, runs.take(k), weight)) <= total_weight(
            add_windows(table, runs, weight),
        ),
        total_weight(table) <= total_weight(add_windows(table, runs, weight)),
    decreases runs.len(),
{
    if runs.len() == 0 {
        assert(runs.take(k) =~= runs);
    } else {
        lemma_total_add_weight(add_windows(table, runs.drop_last(), weight), runs.last(), weight);
        if k == runs.len() {
            assert(runs.take(k) =~= runs);
            lemma_total_add_windows(table, runs.drop_last(), weight, 0);
        } else {
            lemma_total_add_windows(table, runs.drop_last(), weight, k);
            assert(runs.drop_last().take(k) =~= runs.take(k));
        }
    }
}

/// The total of a projection grows with the number of n-grams projected.
pub proof fn lemma_total_project(ngrams: Seq<(Seq<char>, nat)>, map: KeySeqs, n: nat, k: int)
    requires
        0 <= k <= ngrams.len(),
    ensures
        total_weight(project(ngrams.take(k), map, n)) <= total_weight(project(ngrams, map, n)),
    decreases ngrams.len(),
{
    if k == ngrams.len() {
        assert(ngrams.take(k) =~= ngrams);
    } else {
        lemma_total_project(ngrams.drop_last(), map, n, k);
        assert(ngrams.drop_last().take(k) =~= ngrams.take(k));
        let front = project(ngrams.drop_last(), map, n);
        match ngram_keyseq(ngrams.last().0, map) {
            Some(presses) => {
                lemma_total_add_windows(front, windows(presses, n), ngrams.last().1, 0);
            },
            None => {},
        }
    }
}

/// A weight of a table is at most the total.
pub proof fn lemma_weight_le_total<K>(table: Seq<(K, nat)>, i: int)
    requires
        0 <= i < table.len(),
    ensures
        table[i].1 <= total_weight(table),
    decreases table.len(),
{
    if i < table.len() - 1 {
        lemma_weight_le_total(table.drop_last(), i);
    }
}

/// An n-gram has no presses once one of its characters has none.
pub proof fn lemma_ngram_keyseq_none(ngram: Seq<char>, map: KeySeqs, k: int)
    requires
        0 <= k <= ngram.len(),
        ngram_keyseq(ngram.take(k), map) is None,
    ensures
        ngram_keyseq(ngram, map) is None,
    decreases ngram.len(),
{
    if k == ngram.len() {
        assert(ngram.take(k) =~= ngram);
    } else {
        assert(ngram.drop_last().take(k) =~= ngram.take(k));
        lemma_ngram_keyseq_none(ngram.drop_last(), map, k);
    }
}

/// Whether two n-grams of presses are the same.
fn same_presses<const N: usize>(a: &[KeySymbol; N], b: &[KeySymbol; N]) -> (same: bool)
    ensures
        same == (a@ == b@),
{
    let mut t: usize = 0;
    while t < N
        invariant
            t <= N,
            forall|u: int| 0 <= u < t ==> a@[u] == b@[u],
        decreases N - t,
    {
        if a[t] != b[t] {
            assert(a@[t as int] != b@[t as int]);
            return false;
        }
        t += 1;
    }
    assert(a@ =~= b@);
    true
}

/// The place of an n-gram of presses in a table.
fn find_presses<const N: usize>(table: &Vec<([KeySymbol; N], u64)>, key: &[KeySymbol; N]) -> (res: Option<
    usize,
>)
    ensures
        match res {
            Some(i) => is_first_index(weights_view(table@), key@, i as int),
            None => !has_key(weights_view(table@), key@),
        },
{
    let mut i: usize = 0;
    while i < table.len()
        invariant
            i <= table@.len(),
            forall|j: int| 0 <= j < i ==> (#[trigger] weights_view(table@)[j]).0 != key@,
        decreases table@.len() - i,
    {
        if same_presses(&table[i].0, key) {
            return Some(i);
        }
        i += 1;
    }
    None
}

/// The run of `N` presses that starts at `start`.
fn window_at<const N: usize>(presses: &Vec<KeySymbol>, start: usize) -> (run: [KeySymbol; N])
    requires
        N > 0,
        start + N <= presses@.len(),
    ensures
        run@ == presses@.subrange(start as int, start + N),
{
    let len: usize = presses.len();
    let mut run: [KeySymbol; N] = [presses[start];N];
    let mut t: usize = 0;
    while t < N
        invariant
            t <= N,
            len == presses@.len(),
            start + N <= presses@.len(),
            forall|u: int| 0 <= u < t ==> run@[u] == presses@[start + u],
        decreases N - t,
    {
        run[t] = presses[start + t];
        t += 1;
    }
    assert(run@ =~= presses@.subrange(start as int, start + N));
    run
}

/// The presses of an n-gram of characters.
fn ngram_presses<const N: usize>(ngram: &[char; N], map: &KeySeqMap) -> (res: Option<Vec<KeySymbol>>)
    ensures
        match res {
            Some(presses) => ngram_keyseq(ngram@, map@) == Some(presses@),
            None => ngram_keyseq(ngram@, map@) is None,
        },
{
    let mut presses: Vec<KeySymbol> = Vec::new();
    let mut t: usize = 0;
    while t < N
        invariant
            t <= N,
            ngram_keyseq(ngram@.take(t as int), map@) == Some(presses@),
        decreases N - t,
    {
        assert(ngram@.take(t + 1).drop_last() =~= ngram@.take(t as int));
        match map.get(ngram[t]) {
            None => {
                proof {
                    lemma_ngram_keyseq_none(ngram@, map@, t + 1);
                }
                return None;
            },
            Some(sequence) => {
                let ghost front = presses@;
                let mut u: usize = 0;
                while u < sequence.len()
                    invariant
                        u <= sequence@.len(),
                        presses@ == front + sequence@.take(u as int),
                    decreases sequence@.len() - u,
                {
                    presses.push(sequence[u]);
                    assert(presses@ =~= front + sequence@.take(u + 1));
                    u += 1;
                }
                assert(sequence@.take(u as int) =~= sequence@);
            },
        }
        t += 1;
    }
    assert(ngram@.take(t as int) =~= ngram@);
    Some(presses)
}

/// Projects the weights of n-grams of characters onto n-grams of presses.
///
/// The n-grams are read in their order, and the n-grams of presses come
/// out in the order in which they were first met. The result is `None`
/// where the weights do not add up within 64 bits.
pub fn keysym_ngram_freq<const N: usize>(
    ngrams_freq: &Vec<([char; N], u64)>,
    sym_to_keystrokes: &KeySeqMap,
) -> (res: Option<Vec<([KeySymbol; N], u64)>>)
    requires
        N > 0,
    ensures
        match res {
            Some(table) => weights_view(table@) == project(
                ngrams_view(ngrams_freq@),
                sym_to_keystrokes@,
                N as nat,
            ) && total_weight(weights_view(table@)) <= u64::MAX,
            None => total_weight(project(ngrams_view(ngrams_freq@), sym_to_keystrokes@, N as nat))
                > u64::MAX,
        },
{
    let ghost ngrams = ngrams_view(ngrams_freq@);
    let ghost map = sym_to_keystrokes@;
    let mut table: Vec<([KeySymbol; N], u64)> = Vec::new();
    let mut total: u64 = 0;
    let mut i: usize = 0;
    assert(weights_view(table@) =~= Seq::<(Seq<KeySymbol>, nat)>::empty());
    while i < ngrams_freq.len()
        invariant
            N > 0,
            i <= ngrams_freq@.len(),
            ngrams == ngrams_view(ngrams_freq@),
            map == sym_to_keystrokes@,
            weights_view(table@) == project(ngrams.take(i as int), map, N as nat),
            total == total_weight(weights_view(table@)),
        decreases ngrams_freq@.len() - i,
    {
        assert(ngrams.take(i + 1).drop_last() =~= ngrams.take(i as int));
        let weight: u64 = ngrams_freq[i].1;
        let ghost front = weights_view(table@);
        if let Some(presses) = ngram_presses(&ngrams_freq[i].0, sym_to_keystrokes) {
            let ghost runs = windows(presses@, N as nat);
            if presses.len() >= N {
                let count: usize = presses.len() - N + 1;
                let mut j: usize = 0;
                while j < count
                    invariant
                        N > 0,
                        j <= count,
                        count == runs.len(),
                        presses@.len() >= N,
                        count == presses@.len() - N + 1,
                        runs == windows(presses@, N as nat),
                        i < ngrams_freq@.len(),
                        ngrams == ngrams_view(ngrams_freq@),
                        map == sym_to_keystrokes@,
                        ngrams.take(i + 1).drop_last() == ngrams.take(i as int),
                        ngrams[i as int].1 == weight,
                        ngram_keyseq(ngrams[i as int].0, map) == Some(presses@),
                        front == project(ngrams.take(i as int), map, N as nat),
                        weights_view(table@) == add_windows(front, runs.take(j as int), weight as nat),
                        total == total_weight(weights_view(table@)),
                    decreases count - j,
                {
                    assert(runs.take(j + 1).drop_last() =~= runs.take(j as int));
                    let key: [KeySymbol; N] = window_at(&presses, j);
                    assert(key@ == runs[j as int]);
                    proof {
                        lemma_total_add_weight(weights_view(table@), key@, weight as nat);
                    }
                    match total.checked_add(weight) {
                        None => {
                            proof {
                                let next = runs.take(j + 1);
                                assert(next.last() == key@);
                                assert(add_windows(front, next, weight as nat) == add_weight(
                                    weights_view(table@),
                                    key@,
                                    weight as nat,
                                ));
                                lemma_total_add_windows(front, runs, weight as nat, j + 1);
                                let upto = ngrams.take(i + 1);
                                assert(upto.last() == ngrams[i as int]);
                                assert(project(upto, map, N as nat) == add_windows(
                                    front,
                                    runs,
                                    weight as nat,
                                ));
                                lemma_total_project(ngrams, map, N as nat, i + 1);
                            }
                            return None;
                        },
                        Some(sum) => {
                            total = sum;
                        },
                    }
                    let ghost held = weights_view(table@);
                    match find_presses(&table, &key) {
                        Some(at) => {
                            proof {
                                lemma_first_index(held, key@, at as int);
                                lemma_weight_le_total(held, at as int);
                            }
                            let entry = table[at];
                            table[at] = (entry.0, entry.1 + weight);
                            assert(weights_view(table@) =~= add_weight(held, key@, weight as nat));
                        },
                        None => {
                            table.push((key, weight));
                            assert(weights_view(table@) =~= add_weight(held, key@, weight as nat));
                        },
                    }
                    j += 1;
                }
                assert(runs.take(j as int) =~= runs);
            } else {
                assert(runs =~= Seq::<Seq<KeySymbol>>::empty());
            }
        }
        i += 1;
    }
    assert(ngrams.take(i as int) =~= ngrams);
    Some(table)
}

/// A table of characters as a table of n-grams of one character.
pub open spec fn singles_view(char_freq: Seq<(char, u64)>) -> Seq<(Seq<char>, nat)> {
    Seq::new(char_freq.len(), |i: int| (seq![char_freq[i].0], char_freq[i].1 as nat))
}

/// A table of weighted presses as a table of n-grams of one press.
pub open spec fn unigrams_view(table: Seq<(KeySymbol, u64)>) -> Weights {
    Seq::new(table.len(), |i: int| (seq![table[i].0], table[i].1 as nat))
}

/// Projects the weights of characters onto presses: each press of a
/// character gets the whole weight of the character. The result is `None`
/// where the weights do not add up within 64 bits.
pub fn keysym_freq(char_freq: &Vec<(char, u64)>, sym_to_keystrokes: &KeySeqMap) -> (res: Option<
    Vec<(KeySymbol, u64)>,
>)
    ensures
        match res {
            Some(table) => unigrams_view(table@) == project(
                singles_view(char_freq@),
                sym_to_keystrokes@,
                1,
            ) && total_weight(unigrams_view(table@)) <= u64::MAX,
            None => total_weight(project(singles_view(char_freq@), sym_to_keystrokes@, 1)) > u64::MAX,
        },
{
    let mut singles: Vec<([char; 1], u64)> = Vec::new();
    let mut i: usize = 0;
    while i < char_freq.len()
        invariant
            i <= char_freq@.len(),
            singles@.len() == i,
            forall|j: int|
                0 <= j < i ==> (#[trigger] singles@[j]).0@ == seq![char_freq@[j].0] && singles@[j].1
                    == char_freq@[j].1,
        decreases char_freq@.len() - i,
    {
        let single: [char; 1] = [char_freq[i].0];
        assert(single@ =~= seq![char_freq@[i as int].0]);
        singles.push((single, char_freq[i].1));
        i += 1;
    }
    assert(ngrams_view(singles@) =~= singles_view(char_freq@));
    match keysym_ngram_freq(&singles, sym_to_keystrokes) {
        None => None,
        Some(table) => {
            let mut res: Vec<(KeySymbol, u64)> = Vec::new();
            let mut k: usize = 0;
            while k < table.len()
                invariant
                    k <= table@.len(),
                    res@.len() == k,
                    forall|j: int|
                        0 <= j < k ==> seq![(#[trigger] res@[j]).0] == table@[j].0@ && res@[j].1
                            == table@[j].1,
                decreases table@.len() - k,
            {
                let press: KeySymbol = table[k].0[0];
                assert(seq![press] =~= table@[k as int].0@);
                res.push((press, table[k].1));
                k += 1;
            }
            assert(unigrams_view(res@) =~= weights_view(table@));
            Some(res)
        },
    }
}

/// How often an n-gram of presses occurs among runs.
pub open spec fn occurrences(runs: Seq<Seq<KeySymbol>>, key: Seq<KeySymbol>) -> nat
    decreases runs.len(),
{
    if runs.len() == 0 {
        0
    } else {
        occurrences(runs.drop_last(), key) + if runs.last() == key {
            1nat
        } else {
            0nat
        }
    }
}

/// How often an n-gram of presses occurs in the presses of the n-grams of
/// characters of a table.
pub open spec fn projected_count(ngrams: Seq<(Seq<char>, nat)>, map: KeySeqs, n: nat, key: Seq<KeySymbol>) -> nat
    decreases ngrams.len(),
{
    if ngrams.len() == 0 {
        0
    } else {
        projected_count(ngrams.drop_last(), map, n, key) + match ngram_keyseq(ngrams.last().0, map) {
            Some(presses) => occurrences(windows(presses, n), key),
            None => 0,
        }
    }
}

/// The weight that an n-gram of presses gets from a table of n-grams of
/// characters: the weight of each n-gram of characters, as often as the
/// n-gram of presses occurs in its presses.
pub open spec fn projected_weight(ngrams: Seq<(Seq<char>, nat)>, map: KeySeqs, n: nat, key: Seq<KeySymbol>) -> nat
    decreases ngrams.len(),
{
    if ngrams.len() == 0 {
        0
    } else {
        projected_weight(ngrams.drop_last(), map, n, key) + match ngram_keyseq(ngrams.last().0, map) {
            Some(presses) => occurrences(windows(presses, n), key) * ngrams.last().1,
            None => 0,
        }
    }
}

/// The number of runs of presses that a table of n-grams of characters
/// comes to, each counted with the weight of its n-gram.
pub open spec fn projected_total(ngrams: Seq<(Seq<char>, nat)>, map: KeySeqs, n: nat) -> nat
    decreases ngrams.len(),
{
    if ngrams.len() == 0 {
        0
    } else {
        projected_total(ngrams.drop_last(), map, n) + match ngram_keyseq(ngrams.last().0, map) {
            Some(presses) => windows(presses, n).len() * ngrams.last().1,
            None => 0,
        }
    }
}

/// The weight that a table holds for a key, and zero for a key that it
/// does not hold.
pub open spec fn weight_of(table: Weights, key: Seq<KeySymbol>) -> nat {
    match assoc_get(table, key) {
        Some(w) => w,
        None => 0,
    }
}

proof fn lemma_add_weight(table: Weights, added: Seq<KeySymbol>, weight: nat, key: Seq<KeySymbol>)
    requires
        distinct_keys(table),
    ensures
        distinct_keys(add_weight(table, added, weight)),
        weight_of(add_weight(table, added, weight), key) == weight_of(table, key) + if added == key {
            weight
        } else {
            0
        },
        has_key(add_weight(table, added, weight), key) <==> has_key(table, key) || added == key,
{
    match assoc_get(table, added) {
        Some(held) => {
            lemma_insert_get(table, added, held + weight, key);
            lemma_insert_distinct(table, added, held + weight);
        },
        None => {
            lemma_insert_get(table, added, weight, key);
            lemma_insert_distinct(table, added, weight);
        },
    }
}

proof fn lemma_add_windows(table: Weights, runs: Seq<Seq<KeySymbol>>, weight: nat, key: Seq<KeySymbol>)
    requires
        distinct_keys(table),
    ensures
        distinct_keys(add_windows(table, runs, weight)),
        weight_of(add_windows(table, runs, weight), key) == weight_of(table, key) + occurrences(
            runs,
            key,
        ) * weight,
        has_key(add_windows(table, runs, weight), key) <==> has_key(table, key) || occurrences(
            runs,
            key,
        ) > 0,
        total_weight(add_windows(table, runs, weight)) == total_weight(table) + runs.len() * weight,
    decreases runs.len(),
{
    if runs.len() > 0 {
        let front = runs.drop_last();
        lemma_add_windows(table, front, weight, key);
        lemma_add_weight(add_windows(table, front, weight), runs.last(), weight, key);
        lemma_total_add_weight(add_windows(table, front, weight), runs.last(), weight);
        assert((occurrences(front, key) + 1) * weight == occurrences(front, key) * weight + weight)
            by (nonlinear_arith);
        assert((front.len() + 1) * weight == front.len() * weight + weight) by (nonlinear_arith);
    }
}

/// What projection gives an n-gram of presses: the n-gram is in the result
/// exactly where it occurs in the presses of some n-gram of characters, it
/// is there once, and its weight is the sum of the weights of the n-grams
/// of characters, each as often as the n-gram of presses occurs in it. The
/// weights of the result add up to the weights of all the runs.
pub proof fn lemma_projected_weight(ngrams: Seq<(Seq<char>, nat)>, map: KeySeqs, n: nat, key: Seq<KeySymbol>)
    ensures
        distinct_keys(project(ngrams, map, n)),
        weight_of(project(ngrams, map, n), key) == projected_weight(ngrams, map, n, key),
        has_key(project(ngrams, map, n), key) <==> projected_count(ngrams, map, n, key) > 0,
        total_weight(project(ngrams, map, n)) == projected_total(ngrams, map, n),
    decreases ngrams.len(),
{
    if ngrams.len() == 0 {
        assert(!has_key(project(ngrams, map, n), key));
    } else {
        lemma_projected_weight(ngrams.drop_last(), map, n, key);
        let front = project(ngrams.drop_last(), map, n);
        match ngram_keyseq(ngrams.last().0, map) {
            Some(presses) => {
                lemma_add_windows(front, windows(presses, n), ngrams.last().1, key);
            },
            None => {},
        }
    }
}

/// An n-gram of characters of `n` characters that each take one press comes
/// to exactly one n-gram of presses.
pub proof fn lemma_windows_of_full_length(presses: Seq<KeySymbol>, n: nat)
    ensures
        presses.len() == n ==> windows(presses, n) == seq![presses],
        presses.len() < n ==> windows(presses, n).len() == 0,
        presses.len() >= n ==> windows(presses, n).len() == presses.len() - n + 1,
{
    if presses.len() == n {
        assert(presses.subrange(0, n as int) =~= presses);
        assert(windows(presses, n) =~= seq![presses]);
    }
}

} // verus!
