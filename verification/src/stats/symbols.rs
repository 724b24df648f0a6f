//! The characters of the corpus that the layout cannot produce.

use crate::assoc::{has_key, CharMap};
use crate::corpus::{total_weight, unigrams_view, weights_view, Weights};
use crate::hands::Finger;
use crate::keyseq::{KeySeqMap, KeySymbol};
use crate::resolution::KeySeqs;
use crate::stats::classes::{group_total, group_weight, Category, Group};
use crate::stats::utils::{plain_view, ranked, result_sum, result_vec, scaled};
use vstd::prelude::*;

verus! {

/// The characters of a table that a layout gives no presses for, in the
/// order of the table.
pub open spec fn unsupported<V>(symbols: Seq<(char, nat)>, layout: Seq<(char, V)>) -> Seq<(char, nat)>
    decreases symbols.len(),
{
    if symbols.len() == 0 {
        symbols
    } else {
        let front = unsupported(symbols.drop_last(), layout);
        if has_key(layout, symbols.last().0) {
            front
        } else {
            front.push(symbols.last())
        }
    }
}

/// The characters that cannot be typed weigh at most as much as the table.
pub proof fn lemma_unsupported_total<V>(symbols: Seq<(char, nat)>, layout: Seq<(char, V)>)
    ensures
        total_weight(unsupported(symbols, layout)) <= total_weight(symbols),
    decreases symbols.len(),
{
    if symbols.len() > 0 {
        lemma_unsupported_total(symbols.drop_last(), layout);
        let front = unsupported(symbols.drop_last(), layout);
        assert(front.push(symbols.last()).drop_last() =~= front);
    }
}

/// The characters of a table that a layout gives no presses for.
pub fn unsupported_characters<V: View>(
    corpus_symbols: &Vec<(char, u64)>,
    layout_symbols: &CharMap<V>,
) -> (res: Vec<(char, u64)>)
    ensures
        plain_view(res@) == unsupported(plain_view(corpus_symbols@), layout_symbols@),
{
    let ghost table = plain_view(corpus_symbols@);
    let mut res: Vec<(char, u64)> = Vec::new();
    let mut i: usize = 0;
    assert(plain_view(res@) =~= unsupported(table.take(0), layout_symbols@));
    while i < corpus_symbols.len()
        invariant
            i <= corpus_symbols@.len(),
            table == plain_view(corpus_symbols@),
            plain_view(res@) == unsupported(table.take(i as int), layout_symbols@),
        decreases corpus_symbols@.len() - i,
    {
        assert(table.take(i + 1).drop_last() =~= table.take(i as int));
        if !layout_symbols.contains_key(corpus_symbols[i].0) {
            let ghost before = plain_view(res@);
            res.push(corpus_symbols[i]);
            assert(plain_view(res@) =~= before.push(table[i as int]));
        }
        i += 1;
    }
    assert(table.take(i as int) =~= table);
    res
}

/// The characters that the layout cannot produce, in hundredths of the
/// unit of the corpus, from the heaviest to the lightest, and their total.
#[derive(Debug, Clone, PartialEq)]
pub struct SymbolStats {
    pub total_unsupported: u64,
    pub list_unsupported: Vec<(char, u64)>,
}

impl SymbolStats {
    /// Whether these are the statistics of a table of characters over the
    /// presses of a layout.
    pub open spec fn describes(&self, symbols: Seq<(char, nat)>, layout: KeySeqs) -> bool {
        &&& self.total_unsupported == 100 * total_weight(unsupported(symbols, layout))
        &&& plain_view(self.list_unsupported@) == ranked(scaled(unsupported(symbols, layout)))
    }
}

/// The statistics of the characters of a corpus over the presses of a
/// layout.
pub fn symbol_stats(corpus_symbols: &Vec<(char, u64)>, char_to_keyseq: &KeySeqMap) -> (stats: SymbolStats)
    requires
        100 * total_weight(plain_view(corpus_symbols@)) <= u64::MAX,
    ensures
        stats.describes(plain_view(corpus_symbols@), char_to_keyseq@),
{
    let missing = unsupported_characters(corpus_symbols, char_to_keyseq);
    proof {
        lemma_unsupported_total(plain_view(corpus_symbols@), char_to_keyseq@);
    }
    SymbolStats { total_unsupported: result_sum(&missing), list_unsupported: result_vec(missing) }
}

/// The fingers by their ordinal, the thumb first.
pub open spec fn spec_fingers_by_index() -> Seq<Finger> {
    seq![
        Finger::Thumb,
        Finger::LeftPinky,
        Finger::LeftRing,
        Finger::LeftMiddle,
        Finger::LeftIndex,
        Finger::RightIndex,
        Finger::RightMiddle,
        Finger::RightRing,
        Finger::RightPinky,
    ]
}

/// The weight of the presses of each finger, in the unit of the table, the
/// fingers by their ordinal.
pub open spec fn finger_freq(entries: Weights) -> Seq<(Finger, nat)> {
    Seq::new(
        9,
        |p: int|
            (
                spec_fingers_by_index()[p],
                group_weight(entries, Category::Any, Group::Finger(spec_fingers_by_index()[p])),
            ),
    )
}

/// The weight of the presses of each finger, the fingers by their ordinal.
pub fn calc_finger_freq(keysym_freq: &Vec<(KeySymbol, u64)>) -> (res: Vec<(Finger, u64)>)
    requires
        total_weight(unigrams_view(keysym_freq@)) <= u64::MAX,
    ensures
        plain_view(res@) == finger_freq(unigrams_view(keysym_freq@)),
{
    let mut presses: Vec<([KeySymbol; 1], u64)> = Vec::new();
    let mut i: usize = 0;
    while i < keysym_freq.len()
        invariant
            i <= keysym_freq@.len(),
            presses@.len() == i,
            forall|j: int|
                0 <= j < i ==> (#[trigger] presses@[j]).0@ == seq![keysym_freq@[j].0]
                    && presses@[j].1 == keysym_freq@[j].1,
        decreases keysym_freq@.len() - i,
    {
        let press: [KeySymbol; 1] = [keysym_freq[i].0];
        assert(press@ =~= seq![keysym_freq@[i as int].0]);
        presses.push((press, keysym_freq[i].1));
        i += 1;
    }
    assert(weights_view(presses@) =~= unigrams_view(keysym_freq@));
    let fingers = vec![
        Finger::Thumb,
        Finger::LeftPinky,
        Finger::LeftRing,
        Finger::LeftMiddle,
        Finger::LeftIndex,
        Finger::RightIndex,
        Finger::RightMiddle,
        Finger::RightRing,
        Finger::RightPinky,
    ];
    assert(fingers@ =~= spec_fingers_by_index());
    let mut res: Vec<(Finger, u64)> = Vec::new();
    let mut p: usize = 0;
    while p < fingers.len()
        invariant
            total_weight(weights_view(presses@)) <= u64::MAX,
            weights_view(presses@) == unigrams_view(keysym_freq@),
            fingers@ == spec_fingers_by_index(),
            p <= 9,
            res@.len() == p,
            forall|q: int|
                0 <= q < p ==> (#[trigger] res@[q]).0 == spec_fingers_by_index()[q] && res@[q].1
                    == group_weight(
                    unigrams_view(keysym_freq@),
                    Category::Any,
                    Group::Finger(spec_fingers_by_index()[q]),
                ),
        decreases 9 - p,
    {
        let finger = fingers[p];
        let sum: u64 = group_total(&presses, Category::Any, Group::Finger(finger));
        res.push((finger, sum));
        p += 1;
    }
    assert(plain_view(res@) =~= finger_freq(unigrams_view(keysym_freq@)));
    res
}

} // verus!
