//! Two keys in a row: what makes the pair awkward or pleasant to type.

use crate::geometry::{Geometry, Row, U};
use crate::hands::{Finger, Hand, RollDirection};
use crate::corpus::{total_weight, weights_view, Weights};
use crate::kalamine::PhysicalKey;
use crate::keyseq::KeySymbol;
use crate::stats::classes::{selected, Category};
use crate::stats::tables::{
    category_list, category_total, category_weight, finger_breakdown, lemma_breakdown_total,
    per_finger, ranked_list,
};
use crate::stats::utils::plain_view;
use vstd::prelude::*;

verus! {

/// A lateral stretch: the two keys are pressed by neighbouring fingers of
/// one hand that stand at least two keys apart, or by fingers one finger
/// apart that stand at least three and a half keys apart. Keys without a
/// place on the board make no stretch.
pub open spec fn spec_is_lsb(key1: PhysicalKey, key2: PhysicalKey, geometry: Geometry) -> bool {
    match (
        Finger::spec_distance(key1.spec_finger(), key2.spec_finger()),
        geometry.spec_horizontal_distance(key1, key2),
    ) {
        (Some(fingers), Some(units)) => (fingers == 1 && units >= 8) || (fingers == 2 && units >= 14),
        _ => false,
    }
}

#[verifier::when_used_as_spec(spec_is_lsb)]
pub fn is_lsb(key1: PhysicalKey, key2: PhysicalKey, geometry: Geometry) -> (b: bool)
    ensures
        b == spec_is_lsb(key1, key2, geometry),
{
    let finger_dist: u32 = match Finger::distance(key1.finger(), key2.finger()) {
        Some(dist) => dist,
        None => return false,
    };
    let horizontal_dist: u32 = match geometry.horizontal_distance(key1, key2) {
        Some(dist) => dist,
        None => return false,
    };
    if finger_dist == 1 {
        horizontal_dist >= 2 * U
    } else if finger_dist == 2 {
        horizontal_dist >= 3 * U + U / 2
    } else {
        false
    }
}

/// Whether a finger is one of the two index fingers.
pub open spec fn is_index(finger: Finger) -> bool {
    finger == Finger::LeftIndex || finger == Finger::RightIndex
}

/// Scissors: two keys of one hand, the thumbs apart, on different rows and
/// close to each other. They are scissors where they lie two or more rows
/// apart, at most three keys apart, and neither is pressed by an index
/// finger; or where they lie at most two and a half keys apart and the
/// finger of the upper key does not prefer being higher than the finger of
/// the lower key.
pub open spec fn spec_is_scissors(key1: PhysicalKey, key2: PhysicalKey, geometry: Geometry) -> bool {
    let rows = Row::spec_distance(key1.spec_row(), key2.spec_row());
    if key1.spec_hand() != key2.spec_hand() || key1.spec_hand() == Hand::Thumbs {
        false
    } else {
        match geometry.spec_horizontal_distance(key1, key2) {
            None => false,
            Some(units) => {
                if rows >= 2 && units <= 12 && !is_index(key1.spec_finger()) && !is_index(
                    key2.spec_finger(),
                ) {
                    true
                } else if rows >= 1 && units <= 10 {
                    if key1.spec_row().spec_index() > key2.spec_row().spec_index() {
                        !key1.spec_finger().spec_prefers_being_higher(key2.spec_finger())
                    } else {
                        !key2.spec_finger().spec_prefers_being_higher(key1.spec_finger())
                    }
                } else {
                    false
                }
            },
        }
    }
}

#[verifier::when_used_as_spec(spec_is_scissors)]
pub fn is_scissors(key1: PhysicalKey, key2: PhysicalKey, geometry: Geometry) -> (b: bool)
    ensures
        b == spec_is_scissors(key1, key2, geometry),
{
    if key1.hand() != key2.hand() || key1.hand() == Hand::Thumbs {
        return false;
    }
    let horizontal_dist: u32 = match geometry.horizontal_distance(key1, key2) {
        Some(dist) => dist,
        None => return false,
    };
    let row_dist: u32 = Row::distance(key1.row(), key2.row());
    if row_dist >= 2 && horizontal_dist <= 3 * U && key1.finger() != Finger::LeftIndex
        && key1.finger() != Finger::RightIndex && key2.finger() != Finger::LeftIndex
        && key2.finger() != Finger::RightIndex {
        true
    } else if row_dist >= 1 && horizontal_dist <= 2 * U + U / 2 {
        if key1.row().index() > key2.row().index() {
            !key1.finger().prefers_being_higher(key2.finger())
        } else {
            !key2.finger().prefers_being_higher(key1.finger())
        }
    } else {
        false
    }
}

/// A roll toward the middle of the hand.
pub open spec fn spec_is_in_roll(key1: PhysicalKey, key2: PhysicalKey) -> bool {
    key1.spec_finger().spec_roll_direction(key2.spec_finger()) == RollDirection::Inside
}

#[verifier::when_used_as_spec(spec_is_in_roll)]
pub fn is_in_roll(key1: PhysicalKey, key2: PhysicalKey) -> (b: bool)
    ensures
        b == spec_is_in_roll(key1, key2),
{
    let finger1 = key1.finger();
    let finger2 = key2.finger();
    finger1.roll_direction(finger2) == RollDirection::Inside
}

/// A roll away from the middle of the hand.
pub open spec fn spec_is_out_roll(key1: PhysicalKey, key2: PhysicalKey) -> bool {
    key1.spec_finger().spec_roll_direction(key2.spec_finger()) == RollDirection::Outside
}

#[verifier::when_used_as_spec(spec_is_out_roll)]
pub fn is_out_roll(key1: PhysicalKey, key2: PhysicalKey) -> (b: bool)
    ensures
        b == spec_is_out_roll(key1, key2),
{
    let finger1 = key1.finger();
    let finger2 = key2.finger();
    finger1.roll_direction(finger2) == RollDirection::Outside
}

/// A pair of keys rolls one way at most, and the pair in the other order
/// rolls the other way. Stretches, scissors and rolls take two fingers of
/// one hand; scissors of two fingers do not depend on the order of the
/// keys.
pub proof fn lemma_bigram_classes(key1: PhysicalKey, key2: PhysicalKey, geometry: Geometry)
    ensures
        !(spec_is_in_roll(key1, key2) && spec_is_out_roll(key1, key2)),
        spec_is_in_roll(key1, key2) <==> spec_is_out_roll(key2, key1),
        spec_is_in_roll(key1, key2) || spec_is_out_roll(key1, key2) ==> key1.spec_finger()
            != key2.spec_finger() && key1.spec_hand() == key2.spec_hand(),
        spec_is_lsb(key1, key2, geometry) ==> key1.spec_finger() != key2.spec_finger()
            && key1.spec_hand() == key2.spec_hand(),
        spec_is_lsb(key1, key2, geometry) == spec_is_lsb(key2, key1, geometry),
        spec_is_scissors(key1, key2, geometry) ==> key1 != key2 && key1.spec_hand()
            == key2.spec_hand(),
        spec_is_scissors(key1, key2, geometry) == spec_is_scissors(key2, key1, geometry),
{
    crate::geometry::lemma_horizontal_distance(geometry, key1, key2);
    crate::hands::lemma_finger_distance(key1.spec_finger(), key2.spec_finger());
}

/// Two presses in a row.
pub type Bigram = [KeySymbol; 2];

/// The statistics of the bigrams of presses. Every weight is in hundredths
/// of the unit of the corpus, and every list goes from the heaviest bigram
/// to the lightest.
#[derive(Debug, Clone, PartialEq)]
pub struct BigramStats {
    pub total_sku: u64,
    pub total_sfb: u64,
    pub total_lsb: u64,
    pub total_scissors: u64,
    pub total_in_rolls: u64,
    pub total_out_rolls: u64,
    pub total_all_rolls: u64,
    pub per_finger_sku: Vec<(Finger, u64)>,
    pub per_finger_sfb: Vec<(Finger, u64)>,
    pub list_sku: Vec<(Bigram, u64)>,
    pub list_sfb: Vec<(Bigram, u64)>,
    pub list_lsb: Vec<(Bigram, u64)>,
    pub list_in_rolls: Vec<(Bigram, u64)>,
    pub list_out_rolls: Vec<(Bigram, u64)>,
    pub list_scissors: Vec<(Bigram, u64)>,
}

impl BigramStats {
    /// Whether these are the statistics of a table of bigrams of presses on
    /// a board.
    pub open spec fn describes(&self, entries: Weights, geometry: Geometry) -> bool {
        &&& self.total_sku == category_weight(entries, Category::Sku)
        &&& self.total_sfb == category_weight(entries, Category::Sfb)
        &&& self.total_lsb == category_weight(entries, Category::Lsb(geometry))
        &&& self.total_scissors == category_weight(entries, Category::Scissors(geometry))
        &&& self.total_in_rolls == category_weight(entries, Category::InRoll)
        &&& self.total_out_rolls == category_weight(entries, Category::OutRoll)
        &&& self.total_all_rolls == self.total_in_rolls + self.total_out_rolls
        &&& plain_view(self.per_finger_sku@) == finger_breakdown(entries, Category::Sku)
        &&& plain_view(self.per_finger_sfb@) == finger_breakdown(entries, Category::Sfb)
        &&& weights_view(self.list_sku@) == category_list(entries, Category::Sku)
        &&& weights_view(self.list_sfb@) == category_list(entries, Category::Sfb)
        &&& weights_view(self.list_lsb@) == category_list(entries, Category::Lsb(geometry))
        &&& weights_view(self.list_in_rolls@) == category_list(entries, Category::InRoll)
        &&& weights_view(self.list_out_rolls@) == category_list(entries, Category::OutRoll)
        &&& weights_view(self.list_scissors@) == category_list(entries, Category::Scissors(geometry))
    }
}

/// The rolls to the inside and the rolls to the outside together weigh at
/// most as much as the table.
pub proof fn lemma_rolls_total(entries: Weights)
    ensures
        total_weight(selected(entries, Category::InRoll)) + total_weight(
            selected(entries, Category::OutRoll),
        ) <= total_weight(entries),
    decreases entries.len(),
{
    if entries.len() > 0 {
        lemma_rolls_total(entries.drop_last());
        let ins = selected(entries.drop_last(), Category::InRoll);
        let outs = selected(entries.drop_last(), Category::OutRoll);
        assert(ins.push(entries.last()).drop_last() =~= ins);
        assert(outs.push(entries.last()).drop_last() =~= outs);
        lemma_bigram_classes(entries.last().0[0].key, entries.last().0[1].key, Geometry::Ortho);
    }
}

/// The statistics of a table of bigrams of presses.
///
/// A bigram on one key is a same-key use, a bigram on two keys of one
/// finger a same-finger bigram. Every other bigram may be a roll, a lateral
/// stretch, scissors, or several of these. The weights of the same-key
/// uses and of the same-finger bigrams are also given finger by finger, and
/// the weights of the fingers add up to their total.
pub fn bigram_stats(bigrams_freq: &Vec<([KeySymbol; 2], u64)>, geometry: Geometry) -> (stats: BigramStats)
    requires
        100 * total_weight(weights_view(bigrams_freq@)) <= u64::MAX,
    ensures
        stats.describes(weights_view(bigrams_freq@), geometry),
        total_weight(plain_view(stats.per_finger_sku@)) == stats.total_sku,
        total_weight(plain_view(stats.per_finger_sfb@)) == stats.total_sfb,
{
    proof {
        lemma_rolls_total(weights_view(bigrams_freq@));
        lemma_breakdown_total(weights_view(bigrams_freq@), Category::Sku);
        lemma_breakdown_total(weights_view(bigrams_freq@), Category::Sfb);
    }
    let total_in_rolls: u64 = category_total(bigrams_freq, Category::InRoll);
    let total_out_rolls: u64 = category_total(bigrams_freq, Category::OutRoll);
    BigramStats {
        total_sku: category_total(bigrams_freq, Category::Sku),
        total_sfb: category_total(bigrams_freq, Category::Sfb),
        total_lsb: category_total(bigrams_freq, Category::Lsb(geometry)),
        total_scissors: category_total(bigrams_freq, Category::Scissors(geometry)),
        total_in_rolls,
        total_out_rolls,
        total_all_rolls: total_in_rolls + total_out_rolls,
        per_finger_sku: per_finger(bigrams_freq, Category::Sku),
        per_finger_sfb: per_finger(bigrams_freq, Category::Sfb),
        list_sku: ranked_list(bigrams_freq, Category::Sku),
        list_sfb: ranked_list(bigrams_freq, Category::Sfb),
        list_lsb: ranked_list(bigrams_freq, Category::Lsb(geometry)),
        list_in_rolls: ranked_list(bigrams_freq, Category::InRoll),
        list_out_rolls: ranked_list(bigrams_freq, Category::OutRoll),
        list_scissors: ranked_list(bigrams_freq, Category::Scissors(geometry)),
    }
}

} // verus!
