//! Single presses: how much each key, each finger and each hand is used.

use crate::corpus::{total_weight, unigrams_view, weights_view, Weights};
use crate::hands::{Finger, Hand};
use crate::kalamine::PhysicalKey;
use crate::keyseq::KeySymbol;
use crate::stats::classes::{lemma_all_selected, Category};
use crate::stats::tables::{
    finger_breakdown, hand_breakdown, key_breakdown, lemma_breakdown_total, per_finger, per_hand,
    per_key,
};
use crate::stats::utils::plain_view;
use vstd::prelude::*;

verus! {

/// The use of the keys, the fingers and the hands, in hundredths of the
/// unit of the corpus. Every key, finger and hand has an entry, also where
/// it is not used.
#[derive(Debug, Clone, PartialEq)]
pub struct UnigramStats {
    pub key_usage: Vec<(PhysicalKey, u64)>,
    pub finger_usage: Vec<(Finger, u64)>,
    pub hand_usage: Vec<(Hand, u64)>,
}

impl UnigramStats {
    /// Whether these are the statistics of a table of weighted presses.
    pub open spec fn describes(&self, entries: Weights) -> bool {
        &&& plain_view(self.key_usage@) == key_breakdown(entries, Category::Any)
        &&& plain_view(self.finger_usage@) == finger_breakdown(entries, Category::Any)
        &&& plain_view(self.hand_usage@) == hand_breakdown(entries, Category::Any)
    }
}

/// The use of each key, finger and hand over a table of weighted presses.
/// The uses of the fingers add up to the whole weight of the table, and so
/// do the uses of the hands.
pub fn unigram_stats(keysym_freq: &Vec<(KeySymbol, u64)>) -> (stats: UnigramStats)
    requires
        100 * total_weight(unigrams_view(keysym_freq@)) <= u64::MAX,
    ensures
        stats.describes(unigrams_view(keysym_freq@)),
        total_weight(plain_view(stats.finger_usage@)) == 100 * total_weight(
            unigrams_view(keysym_freq@),
        ),
        total_weight(plain_view(stats.hand_usage@)) == 100 * total_weight(unigrams_view(keysym_freq@)),
{
    let mut presses: Vec<([KeySymbol; 1], u64)> = Vec::new();
    let mut i: usize = 0;
    while i < keysym_freq.len()
        invariant
            i <= keysym_freq@.len(),
            presses@.len() == i,
            forall|j: int|
                0 <= j < i ==> (#[trigger] presses@[j]).0@ == seq![keysym_freq@[j].0]
                    && presses@[j].1 == keysym_freq@[j].1,
        decreases keysym_freq@.len() - i,
    {
        let press: [KeySymbol; 1] = [keysym_freq[i].0];
        assert(press@ =~= seq![keysym_freq@[i as int].0]);
        presses.push((press, keysym_freq[i].1));
        i += 1;
    }
    assert(weights_view(presses@) =~= unigrams_view(keysym_freq@));
    proof {
        lemma_breakdown_total(unigrams_view(keysym_freq@), Category::Any);
        lemma_all_selected(unigrams_view(keysym_freq@));
    }
    UnigramStats {
        key_usage: per_key(&presses, Category::Any),
        finger_usage: per_finger(&presses, Category::Any),
        hand_usage: per_hand(&presses, Category::Any),
    }
}

} // verus!
