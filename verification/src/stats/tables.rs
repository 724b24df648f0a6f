//! The tables of a report: the ranked list of a class, its total, and its
//! breakdown by finger, by hand and by key.

use crate::corpus::{total_weight, weights_view, Weights};
use crate::hands::{Finger, Hand};
use crate::kalamine::{PhysicalKey, Symbol};
use crate::keyseq::KeySymbol;
use crate::stats::classes::{
    group_total, group_weight, lemma_selected_total, select, selected, Category, Group,
};
use crate::stats::utils::{
    insert_ranked, is_ranked, lemma_ranked, lemma_total_scaled, plain_view, ranked, result_sum,
    result_vec, scaled,
};
use vstd::prelude::*;

verus! {

/// A list of weighted n-grams of presses, each n-gram as a sequence.
pub open spec fn keyed<const N: usize>(list: Seq<([KeySymbol; N], nat)>) -> Weights {
    Seq::new(list.len(), |i: int| (list[i].0@, list[i].1))
}

/// The symbols that a sequence of presses gives.
pub open spec fn symbols_of(keys: Seq<KeySymbol>) -> Seq<Symbol> {
    Seq::new(keys.len(), |i: int| keys[i].spec_symbol())
}

/// A list of weighted n-grams of presses, each press replaced by its
/// symbol.
pub open spec fn named(list: Weights) -> Seq<(Seq<Symbol>, nat)> {
    Seq::new(list.len(), |i: int| (symbols_of(list[i].0), list[i].1))
}

/// A list of weighted n-grams of symbols as mathematics.
pub open spec fn ranking_view<const N: usize>(list: Seq<([Symbol; N], u64)>) -> Seq<(Seq<Symbol>, nat)> {
    Seq::new(list.len(), |i: int| (list[i].0@, list[i].1 as nat))
}

/// The ranked list of a class: its n-grams, in hundredths, from the
/// heaviest to the lightest.
pub open spec fn category_list(entries: Weights, category: Category) -> Weights {
    ranked(scaled(selected(entries, category)))
}

/// The total of a class, in hundredths.
pub open spec fn category_weight(entries: Weights, category: Category) -> nat {
    100 * total_weight(selected(entries, category))
}

/// The weight of a class for each finger, in hundredths: an n-gram counts
/// for the finger of its first key.
pub open spec fn finger_breakdown(entries: Weights, category: Category) -> Seq<
    (Finger, nat),
> {
    Seq::new(
        9,
        |p: int|
            (
                Finger::spec_all()[p],
                100 * group_weight(entries, category, Group::Finger(Finger::spec_all()[p])),
            ),
    )
}

/// The weight of a class for each hand, in hundredths: an n-gram counts
/// for the hand of its first key.
pub open spec fn hand_breakdown(entries: Weights, category: Category) -> Seq<
    (Hand, nat),
> {
    Seq::new(
        3,
        |p: int|
            (
                Hand::spec_all()[p],
                100 * group_weight(entries, category, Group::Hand(Hand::spec_all()[p])),
            ),
    )
}

/// The weight of a class for each key, in hundredths: an n-gram counts for
/// its first key.
pub open spec fn key_breakdown(entries: Weights, category: Category) -> Seq<
    (PhysicalKey, nat),
> {
    Seq::new(
        PhysicalKey::spec_all().len(),
        |p: int|
            (
                PhysicalKey::spec_all()[p],
                100 * group_weight(entries, category, Group::Key(PhysicalKey::spec_all()[p])),
            ),
    )
}

proof fn lemma_keyed_insert<const N: usize>(sorted: Seq<([KeySymbol; N], nat)>, entry: ([KeySymbol; N], nat))
    ensures
        keyed(insert_ranked(sorted, entry)) == insert_ranked(keyed(sorted), (entry.0@, entry.1)),
    decreases sorted.len(),
{
    if sorted.len() == 0 || sorted.last().1 >= entry.1 {
        assert(keyed(sorted.push(entry)) =~= keyed(sorted).push((entry.0@, entry.1)));
    } else {
        lemma_keyed_insert(sorted.drop_last(), entry);
        assert(keyed(sorted).drop_last() =~= keyed(sorted.drop_last()));
        assert(keyed(insert_ranked(sorted.drop_last(), entry).push(sorted.last())) =~= keyed(
            insert_ranked(sorted.drop_last(), entry),
        ).push(keyed(sorted).last()));
    }
}

/// Ranking does not look at the n-grams, only at their weights.
pub proof fn lemma_keyed_ranked<const N: usize>(list: Seq<([KeySymbol; N], nat)>)
    ensures
        keyed(ranked(list)) == ranked(keyed(list)),
        keyed(scaled(list)) == scaled(keyed(list)),
        total_weight(keyed(list)) == total_weight(list),
    decreases list.len(),
{
    assert(keyed(scaled(list)) =~= scaled(keyed(list)));
    if list.len() == 0 {
        assert(keyed(list) =~= Seq::empty());
        assert(keyed(ranked(list)) =~= ranked(keyed(list)));
    } else {
        lemma_keyed_ranked(list.drop_last());
        lemma_keyed_insert(ranked(list.drop_last()), list.last());
        assert(keyed(list).drop_last() =~= keyed(list.drop_last()));
    }
}

/// The list with each press replaced by its symbol.
pub fn name_all<const N: usize>(list: &Vec<([KeySymbol; N], u64)>) -> (res: Vec<([Symbol; N], u64)>)
    ensures
        ranking_view(res@) == named(weights_view(list@)),
{
    let mut res: Vec<([Symbol; N], u64)> = Vec::new();
    let mut i: usize = 0;
    while i < list.len()
        invariant
            i <= list@.len(),
            res@.len() == i,
            forall|j: int|
                0 <= j < i ==> (#[trigger] res@[j]).0@ == symbols_of(list@[j].0@) && res@[j].1
                    == list@[j].1,
        decreases list@.len() - i,
    {
        let keys: [KeySymbol; N] = list[i].0;
        let mut symbols: [Symbol; N] = [Symbol::Character('\0');N];
        let mut t: usize = 0;
        while t < N
            invariant
                t <= N,
                forall|u: int| 0 <= u < t ==> symbols@[u] == keys@[u].spec_symbol(),
            decreases N - t,
        {
            symbols[t] = keys[t].symbol();
            t += 1;
        }
        assert(symbols@ =~= symbols_of(keys@));
        res.push((symbols, list[i].1));
        i += 1;
    }
    assert(ranking_view(res@) =~= named(weights_view(list@)));
    res
}

/// The ranked list of a class.
pub fn ranked_list<const N: usize>(entries: &Vec<([KeySymbol; N], u64)>, category: Category) -> (res: Vec<
    ([KeySymbol; N], u64),
>)
    requires
        N >= category.spec_arity(),
        100 * total_weight(weights_view(entries@)) <= u64::MAX,
    ensures
        weights_view(res@) == category_list(weights_view(entries@), category),
{
    let chosen = select(entries, category);
    proof {
        lemma_selected_total(weights_view(entries@), category, Group::Hand(Hand::Left));
        lemma_keyed_ranked(plain_view(chosen@));
        lemma_keyed_ranked(scaled(plain_view(chosen@)));
        assert(weights_view(chosen@) =~= keyed(plain_view(chosen@)));
    }
    let sorted = result_vec(chosen);
    proof {
        assert(weights_view(sorted@) =~= keyed(plain_view(sorted@)));
    }
    sorted
}

/// The total of a class, in hundredths.
pub fn category_total<const N: usize>(
    entries: &Vec<([KeySymbol; N], u64)>,
    category: Category,
) -> (sum: u64)
    requires
        N >= category.spec_arity(),
        100 * total_weight(weights_view(entries@)) <= u64::MAX,
    ensures
        sum == category_weight(weights_view(entries@), category),
{
    let chosen = select(entries, category);
    proof {
        lemma_selected_total(weights_view(entries@), category, Group::Hand(Hand::Left));
        lemma_keyed_ranked(plain_view(chosen@));
        assert(weights_view(chosen@) =~= keyed(plain_view(chosen@)));
    }
    result_sum(&chosen)
}

/// The weight of a class for each finger.
pub fn per_finger<const N: usize>(
    entries: &Vec<([KeySymbol; N], u64)>,
    category: Category,
) -> (res: Vec<(Finger, u64)>)
    requires
        N >= category.spec_arity(),
        100 * total_weight(weights_view(entries@)) <= u64::MAX,
    ensures
        plain_view(res@) == finger_breakdown(weights_view(entries@), category),
{
    let fingers = Finger::all();
    let mut res: Vec<(Finger, u64)> = Vec::new();
    let mut p: usize = 0;
    while p < fingers.len()
        invariant
            N >= category.spec_arity(),
            100 * total_weight(weights_view(entries@)) <= u64::MAX,
            fingers@ == Finger::spec_all(),
            p <= 9,
            res@.len() == p,
            forall|q: int|
                0 <= q < p ==> (#[trigger] res@[q]).0 == Finger::spec_all()[q] && res@[q].1 == 100
                    * group_weight(
                    weights_view(entries@),
                    category,
                    Group::Finger(Finger::spec_all()[q]),
                ),
        decreases 9 - p,
    {
        let finger = fingers[p];
        let sum: u64 = group_total(entries, category, Group::Finger(finger));
        res.push((finger, 100 * sum));
        p += 1;
    }
    assert(plain_view(res@) =~= finger_breakdown(weights_view(entries@), category));
    res
}

/// The weight of a class for each hand.
pub fn per_hand<const N: usize>(
    entries: &Vec<([KeySymbol; N], u64)>,
    category: Category,
) -> (res: Vec<(Hand, u64)>)
    requires
        N >= category.spec_arity(),
        100 * total_weight(weights_view(entries@)) <= u64::MAX,
    ensures
        plain_view(res@) == hand_breakdown(weights_view(entries@), category),
{
    let hands = Hand::all();
    let mut res: Vec<(Hand, u64)> = Vec::new();
    let mut p: usize = 0;
    while p < hands.len()
        invariant
            N >= category.spec_arity(),
            100 * total_weight(weights_view(entries@)) <= u64::MAX,
            hands@ == Hand::spec_all(),
            p <= 3,
            res@.len() == p,
            forall|q: int|
                0 <= q < p ==> (#[trigger] res@[q]).0 == Hand::spec_all()[q] && res@[q].1 == 100
                    * group_weight(
                    weights_view(entries@),
                    category,
                    Group::Hand(Hand::spec_all()[q]),
                ),
        decreases 3 - p,
    {
        let hand = hands[p];
        let sum: u64 = group_total(entries, category, Group::Hand(hand));
        res.push((hand, 100 * sum));
        p += 1;
    }
    assert(plain_view(res@) =~= hand_breakdown(weights_view(entries@), category));
    res
}

/// The weight of a class for each key.
pub fn per_key<const N: usize>(
    entries: &Vec<([KeySymbol; N], u64)>,
    category: Category,
) -> (res: Vec<(PhysicalKey, u64)>)
    requires
        N >= category.spec_arity(),
        100 * total_weight(weights_view(entries@)) <= u64::MAX,
    ensures
        plain_view(res@) == key_breakdown(weights_view(entries@), category),
{
    let keys = PhysicalKey::all();
    let mut res: Vec<(PhysicalKey, u64)> = Vec::new();
    let mut p: usize = 0;
    while p < keys.len()
        invariant
            N >= category.spec_arity(),
            100 * total_weight(weights_view(entries@)) <= u64::MAX,
            keys@ == PhysicalKey::spec_all(),
            p <= keys@.len(),
            res@.len() == p,
            forall|q: int|
                0 <= q < p ==> (#[trigger] res@[q]).0 == PhysicalKey::spec_all()[q] && res@[q].1
                    == 100 * group_weight(
                    weights_view(entries@),
                    category,
                    Group::Key(PhysicalKey::spec_all()[q]),
                ),
        decreases keys@.len() - p,
    {
        let key = keys[p];
        let sum: u64 = group_total(entries, category, Group::Key(key));
        res.push((key, 100 * sum));
        p += 1;
    }
    assert(plain_view(res@) =~= key_breakdown(weights_view(entries@), category));
    res
}

proof fn lemma_finger_weights(entries: Weights, category: Category)
    ensures
        group_weight(entries, category, Group::Finger(Finger::LeftPinky)) + group_weight(
            entries,
            category,
            Group::Finger(Finger::LeftRing),
        ) + group_weight(entries, category, Group::Finger(Finger::LeftMiddle))
            + group_weight(entries, category, Group::Finger(Finger::LeftIndex))
            + group_weight(entries, category, Group::Finger(Finger::RightIndex))
            + group_weight(entries, category, Group::Finger(Finger::RightMiddle))
            + group_weight(entries, category, Group::Finger(Finger::RightRing))
            + group_weight(entries, category, Group::Finger(Finger::RightPinky))
            + group_weight(entries, category, Group::Finger(Finger::Thumb)) == total_weight(
            selected(entries, category),
        ),
    decreases entries.len(),
{
    if entries.len() > 0 {
        lemma_finger_weights(entries.drop_last(), category);
        let front = selected(entries.drop_last(), category);
        assert(front.push(entries.last()).drop_last() =~= front);
    }
}

proof fn lemma_hand_weights(entries: Weights, category: Category)
    ensures
        group_weight(entries, category, Group::Hand(Hand::Left)) + group_weight(
            entries,
            category,
            Group::Hand(Hand::Right),
        ) + group_weight(entries, category, Group::Hand(Hand::Thumbs)) == total_weight(
            selected(entries, category),
        ),
    decreases entries.len(),
{
    if entries.len() > 0 {
        lemma_hand_weights(entries.drop_last(), category);
        let front = selected(entries.drop_last(), category);
        assert(front.push(entries.last()).drop_last() =~= front);
    }
}

/// The weights of a class for the nine fingers add up to the total of the
/// class, and so do its weights for the three hands.
pub proof fn lemma_breakdown_total(entries: Weights, category: Category)
    ensures
        total_weight(finger_breakdown(entries, category)) == category_weight(
            entries,
            category,
        ),
        total_weight(hand_breakdown(entries, category)) == category_weight(
            entries,
            category,
        ),
{
    lemma_finger_weights(entries, category);
    lemma_hand_weights(entries, category);
    reveal_with_fuel(total_weight, 10);
    let fingers = finger_breakdown(entries, category);
    assert(total_weight(fingers) == fingers[0].1 + fingers[1].1 + fingers[2].1 + fingers[3].1
        + fingers[4].1 + fingers[5].1 + fingers[6].1 + fingers[7].1 + fingers[8].1);
    let hands = hand_breakdown(entries, category);
    assert(total_weight(hands) == hands[0].1 + hands[1].1 + hands[2].1);
}

/// The ranked list of a class holds the n-grams of the class, each as
/// often as the table, with weights that fall, and the weights of the list
/// add up to the total of the class.
pub proof fn lemma_list_total(entries: Weights, category: Category)
    ensures
        is_ranked(category_list(entries, category)),
        category_list(entries, category).len() == selected(entries, category).len(),
        category_list(entries, category).to_multiset() == scaled(selected(entries, category)).to_multiset(),
        total_weight(category_list(entries, category)) == category_weight(entries, category),
{
    lemma_ranked(scaled(selected(entries, category)));
    lemma_total_scaled(selected(entries, category));
}

} // verus!
