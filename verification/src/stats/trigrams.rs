//! Three keys in a row: the first and the third on one key or finger, and
//! rolls that turn around.

use crate::hands::{Finger, RollDirection};
use crate::corpus::{total_weight, weights_view, Weights};
use crate::kalamine::PhysicalKey;
use crate::keyseq::KeySymbol;
use crate::stats::classes::Category;
use crate::stats::tables::{category_list, category_total, category_weight, ranked_list};
use vstd::prelude::*;

verus! {

/// The first and the third key are the same.
pub open spec fn spec_is_sks(key1: PhysicalKey, key2: PhysicalKey, key3: PhysicalKey) -> bool {
    key1 == key3
}

#[verifier::when_used_as_spec(spec_is_sks)]
pub fn is_sks(key1: PhysicalKey, key2: PhysicalKey, key3: PhysicalKey) -> (b: bool)
    ensures
        b == spec_is_sks(key1, key2, key3),
{
    key1 == key3
}

/// The first and the third key are pressed by the same finger.
pub open spec fn spec_is_sfs(key1: PhysicalKey, key2: PhysicalKey, key3: PhysicalKey) -> bool {
    key1.spec_finger() == key3.spec_finger()
}

#[verifier::when_used_as_spec(spec_is_sfs)]
pub fn is_sfs(key1: PhysicalKey, key2: PhysicalKey, key3: PhysicalKey) -> (b: bool)
    ensures
        b == spec_is_sfs(key1, key2, key3),
{
    key1.finger() == key3.finger()
}

/// The roll from the first key to the second goes one way and the roll from
/// the second to the third the other way.
pub open spec fn spec_is_redirect(key1: PhysicalKey, key2: PhysicalKey, key3: PhysicalKey) -> bool {
    let roll1 = key1.spec_finger().spec_roll_direction(key2.spec_finger());
    let roll2 = key2.spec_finger().spec_roll_direction(key3.spec_finger());
    (roll1 == RollDirection::Inside && roll2 == RollDirection::Outside) || (roll1
        == RollDirection::Outside && roll2 == RollDirection::Inside)
}

#[verifier::when_used_as_spec(spec_is_redirect)]
pub fn is_redirect(key1: PhysicalKey, key2: PhysicalKey, key3: PhysicalKey) -> (b: bool)
    ensures
        b == spec_is_redirect(key1, key2, key3),
{
    let roll1 = key1.finger().roll_direction(key2.finger());
    let roll2 = key2.finger().roll_direction(key3.finger());
    match (roll1, roll2) {
        (RollDirection::Inside, RollDirection::Outside) => true,
        (RollDirection::Outside, RollDirection::Inside) => true,
        (_, _) => false,
    }
}

/// A finger that makes a redirect hard: any but the index fingers and the
/// thumb.
pub open spec fn spec_is_bad_finger(finger: Finger) -> bool {
    finger != Finger::LeftIndex && finger != Finger::RightIndex && finger != Finger::Thumb
}

#[verifier::when_used_as_spec(spec_is_bad_finger)]
pub fn is_bad_finger(finger: Finger) -> (b: bool)
    ensures
        b == spec_is_bad_finger(finger),
{
    match finger {
        Finger::LeftIndex | Finger::RightIndex | Finger::Thumb => false,
        _ => true,
    }
}

/// A redirect in which no finger is an index finger or the thumb.
pub open spec fn spec_is_redirect_bad(key1: PhysicalKey, key2: PhysicalKey, key3: PhysicalKey) -> bool {
    spec_is_redirect(key1, key2, key3) && spec_is_bad_finger(key1.spec_finger())
        && spec_is_bad_finger(key2.spec_finger()) && spec_is_bad_finger(key3.spec_finger())
}

#[verifier::when_used_as_spec(spec_is_redirect_bad)]
pub fn is_redirect_bad(key1: PhysicalKey, key2: PhysicalKey, key3: PhysicalKey) -> (b: bool)
    ensures
        b == spec_is_redirect_bad(key1, key2, key3),
{
    is_redirect(key1, key2, key3) && is_bad_finger(key1.finger()) && is_bad_finger(key2.finger())
        && is_bad_finger(key3.finger())
}

/// A redirect stays on one hand and takes three presses by two or three
/// fingers, none of them the thumb; read backwards it is a redirect too.
pub proof fn lemma_redirect(key1: PhysicalKey, key2: PhysicalKey, key3: PhysicalKey)
    ensures
        spec_is_redirect(key1, key2, key3) ==> key1.spec_hand() == key2.spec_hand()
            && key2.spec_hand() == key3.spec_hand() && key1.spec_finger() != key2.spec_finger()
            && key2.spec_finger() != key3.spec_finger() && key2.spec_finger() != Finger::Thumb,
        spec_is_redirect(key1, key2, key3) == spec_is_redirect(key3, key2, key1),
        spec_is_redirect_bad(key1, key2, key3) ==> spec_is_redirect(key1, key2, key3),
{
    crate::hands::lemma_roll_direction_reverses(key1.spec_finger(), key2.spec_finger());
    crate::hands::lemma_roll_direction_reverses(key2.spec_finger(), key3.spec_finger());
}

/// Three presses in a row.
pub type Trigram = [KeySymbol; 3];

/// The statistics of the trigrams of presses. Every weight is in
/// hundredths of the unit of the corpus, and every list goes from the
/// heaviest trigram to the lightest.
#[derive(Debug, Clone, PartialEq)]
pub struct TrigramStats {
    pub total_sks: u64,
    pub total_sfs: u64,
    pub total_redirects: u64,
    pub total_bad_redirects: u64,
    pub list_sks: Vec<(Trigram, u64)>,
    pub list_sfs: Vec<(Trigram, u64)>,
    pub list_redirects: Vec<(Trigram, u64)>,
    pub list_bad_redirects: Vec<(Trigram, u64)>,
}

impl TrigramStats {
    /// Whether these are the statistics of a table of trigrams of presses.
    pub open spec fn describes(&self, entries: Weights) -> bool {
        &&& self.total_sks == category_weight(entries, Category::Sks)
        &&& self.total_sfs == category_weight(entries, Category::Sfs)
        &&& self.total_redirects == category_weight(entries, Category::Redirect)
        &&& self.total_bad_redirects == category_weight(entries, Category::BadRedirect)
        &&& weights_view(self.list_sks@) == category_list(entries, Category::Sks)
        &&& weights_view(self.list_sfs@) == category_list(entries, Category::Sfs)
        &&& weights_view(self.list_redirects@) == category_list(entries, Category::Redirect)
        &&& weights_view(self.list_bad_redirects@) == category_list(entries, Category::BadRedirect)
    }
}

/// The statistics of a table of trigrams of presses.
///
/// A trigram whose first and third key are one key is a same-key skip; a
/// trigram whose first and third key are two keys of one finger is a
/// same-finger skip. A trigram whose rolls turn around is a bad redirect
/// where no index finger and no thumb takes part, and a redirect where
/// one does.
pub fn trigram_stats(trigrams_freq: &Vec<([KeySymbol; 3], u64)>) -> (stats: TrigramStats)
    requires
        100 * total_weight(weights_view(trigrams_freq@)) <= u64::MAX,
    ensures
        stats.describes(weights_view(trigrams_freq@)),
{
    TrigramStats {
        total_sks: category_total(trigrams_freq, Category::Sks),
        total_sfs: category_total(trigrams_freq, Category::Sfs),
        total_redirects: category_total(trigrams_freq, Category::Redirect),
        total_bad_redirects: category_total(trigrams_freq, Category::BadRedirect),
        list_sks: ranked_list(trigrams_freq, Category::Sks),
        list_sfs: ranked_list(trigrams_freq, Category::Sfs),
        list_redirects: ranked_list(trigrams_freq, Category::Redirect),
        list_bad_redirects: ranked_list(trigrams_freq, Category::BadRedirect),
    }
}

} // verus!
