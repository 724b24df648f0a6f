//! The classes that n-grams of presses are sorted into, and the groups by
//! which their weights are broken down.

use crate::corpus::{total_weight, weights_view, Weights};
use crate::geometry::Geometry;
use crate::hands::{Finger, Hand};
use crate::kalamine::PhysicalKey;
use crate::keyseq::KeySymbol;
use crate::stats::bigrams::{
    is_in_roll, is_lsb, is_out_roll, is_scissors, spec_is_in_roll, spec_is_lsb, spec_is_out_roll,
    spec_is_scissors,
};
use crate::stats::trigrams::{
    is_redirect, is_redirect_bad, is_sfs, is_sks, spec_is_redirect, spec_is_redirect_bad, spec_is_sfs,
    spec_is_sks,
};
use crate::stats::utils::lemma_total_prefix;
use vstd::prelude::*;

verus! {

/// A class of n-grams of presses.
#[derive(Debug, Clone, Copy, PartialEq, Eq, Structural)]
pub enum Category {
    /// Every n-gram.
    Any,
    /// The same key twice.
    Sku,
    /// Two keys of one finger.
    Sfb,
    /// A roll to the inside, on two keys of two fingers.
    InRoll,
    /// A roll to the outside, on two keys of two fingers.
    OutRoll,
    /// A lateral stretch on a board.
    Lsb(Geometry),
    /// Scissors on a board, on two keys of two fingers.
    Scissors(Geometry),
    /// The same key first and third.
    Sks,
    /// The same finger first and third, on different keys.
    Sfs,
    /// A redirect that is not a bad one.
    Redirect,
    /// A bad redirect.
    BadRedirect,
}

/// A set of keys by which weights are broken down: the keys of a finger,
/// the keys of a hand, or one key.
#[derive(Debug, Clone, Copy, PartialEq, Eq, Structural)]
pub enum Group {
    Finger(Finger),
    Hand(Hand),
    Key(PhysicalKey),
}

impl Category {
    /// The number of presses that the class looks at.
    pub open spec fn spec_arity(self) -> usize {
        match self {
            Category::Any => 1,
            Category::Sku
            | Category::Sfb
            | Category::InRoll
            | Category::OutRoll
            | Category::Lsb(_)
            | Category::Scissors(_) => 2,
            Category::Sks | Category::Sfs | Category::Redirect | Category::BadRedirect => 3,
        }
    }

    #[verifier::when_used_as_spec(spec_arity)]
    pub fn arity(self) -> (n: usize)
        ensures
            n == self.spec_arity(),
    {
        match self {
            Category::Any => 1,
            Category::Sku
            | Category::Sfb
            | Category::InRoll
            | Category::OutRoll
            | Category::Lsb(_)
            | Category::Scissors(_) => 2,
            Category::Sks | Category::Sfs | Category::Redirect | Category::BadRedirect => 3,
        }
    }
}

/// Whether two different keys are pressed by two different fingers.
pub open spec fn two_fingers(key1: PhysicalKey, key2: PhysicalKey) -> bool {
    key1 != key2 && key1.spec_finger() != key2.spec_finger()
}

/// Whether an n-gram of presses belongs to a class. Only the keys count.
pub open spec fn in_category(category: Category, keys: Seq<KeySymbol>) -> bool {
    match category {
        Category::Any => true,
        Category::Sku => keys[0].key == keys[1].key,
        Category::Sfb => keys[0].key != keys[1].key && keys[0].key.spec_finger()
            == keys[1].key.spec_finger(),
        Category::InRoll => two_fingers(keys[0].key, keys[1].key) && spec_is_in_roll(
            keys[0].key,
            keys[1].key,
        ),
        Category::OutRoll => two_fingers(keys[0].key, keys[1].key) && spec_is_out_roll(
            keys[0].key,
            keys[1].key,
        ),
        Category::Lsb(geometry) => two_fingers(keys[0].key, keys[1].key) && spec_is_lsb(
            keys[0].key,
            keys[1].key,
            geometry,
        ),
        Category::Scissors(geometry) => two_fingers(keys[0].key, keys[1].key) && spec_is_scissors(
            keys[0].key,
            keys[1].key,
            geometry,
        ),
        Category::Sks => spec_is_sks(keys[0].key, keys[1].key, keys[2].key),
        Category::Sfs => !spec_is_sks(keys[0].key, keys[1].key, keys[2].key) && spec_is_sfs(
            keys[0].key,
            keys[1].key,
            keys[2].key,
        ),
        Category::Redirect => spec_is_redirect(keys[0].key, keys[1].key, keys[2].key)
            && !spec_is_redirect_bad(keys[0].key, keys[1].key, keys[2].key),
        Category::BadRedirect => spec_is_redirect_bad(keys[0].key, keys[1].key, keys[2].key),
    }
}

/// Whether a key belongs to a group.
pub open spec fn in_group(group: Group, key: PhysicalKey) -> bool {
    match group {
        Group::Finger(finger) => key.spec_finger() == finger,
        Group::Hand(hand) => key.spec_hand() == hand,
        Group::Key(k) => key == k,
    }
}

/// The n-grams of a class, in the order of the table.
pub open spec fn selected(entries: Weights, category: Category) -> Weights
    decreases entries.len(),
{
    if entries.len() == 0 {
        entries
    } else {
        let front = selected(entries.drop_last(), category);
        if in_category(category, entries.last().0) {
            front.push(entries.last())
        } else {
            front
        }
    }
}

/// The weight of the n-grams of a class whose first key is in a group.
pub open spec fn group_weight(entries: Weights, category: Category, group: Group) -> nat
    decreases entries.len(),
{
    if entries.len() == 0 {
        0
    } else {
        let front = group_weight(entries.drop_last(), category, group);
        if in_category(category, entries.last().0) && in_group(group, entries.last().0[0].key) {
            front + entries.last().1
        } else {
            front
        }
    }
}

/// A class weighs at most as much as the table, and a group of a class at
/// most as much as the class.
pub proof fn lemma_selected_total(entries: Weights, category: Category, group: Group)
    ensures
        group_weight(entries, category, group) <= total_weight(
            selected(entries, category),
        ),
        total_weight(selected(entries, category)) <= total_weight(entries),
        selected(entries, category).len() <= entries.len(),
    decreases entries.len(),
{
    if entries.len() > 0 {
        lemma_selected_total(entries.drop_last(), category, group);
        let front = selected(entries.drop_last(), category);
        assert(front.push(entries.last()).drop_last() =~= front);
    }
}

/// Whether an n-gram of presses belongs to a class.
pub fn belongs<const N: usize>(category: Category, keys: &[KeySymbol; N]) -> (b: bool)
    requires
        N >= category.spec_arity(),
    ensures
        b == in_category(category, keys@),
{
    match category {
        Category::Any => true,
        Category::Sku => keys[0].key == keys[1].key,
        Category::Sfb => keys[0].key != keys[1].key && keys[0].key.finger() == keys[1].key.finger(),
        Category::InRoll => keys[0].key != keys[1].key && keys[0].key.finger() != keys[1].key.finger()
            && is_in_roll(keys[0].key, keys[1].key),
        Category::OutRoll => keys[0].key != keys[1].key && keys[0].key.finger() != keys[1].key.finger()
            && is_out_roll(keys[0].key, keys[1].key),
        Category::Lsb(geometry) => keys[0].key != keys[1].key && keys[0].key.finger() != keys[1].key.finger()
            && is_lsb(keys[0].key, keys[1].key, geometry),
        Category::Scissors(geometry) => keys[0].key != keys[1].key && keys[0].key.finger()
            != keys[1].key.finger() && is_scissors(keys[0].key, keys[1].key, geometry),
        Category::Sks => is_sks(keys[0].key, keys[1].key, keys[2].key),
        Category::Sfs => !is_sks(keys[0].key, keys[1].key, keys[2].key) && is_sfs(
            keys[0].key,
            keys[1].key,
            keys[2].key,
        ),
        Category::Redirect => is_redirect(keys[0].key, keys[1].key, keys[2].key) && !is_redirect_bad(
            keys[0].key,
            keys[1].key,
            keys[2].key,
        ),
        Category::BadRedirect => is_redirect_bad(keys[0].key, keys[1].key, keys[2].key),
    }
}

/// Whether a key belongs to a group.
pub fn groups(group: Group, key: PhysicalKey) -> (b: bool)
    ensures
        b == in_group(group, key),
{
    match group {
        Group::Finger(finger) => key.finger() == finger,
        Group::Hand(hand) => key.hand() == hand,
        Group::Key(k) => key == k,
    }
}

/// The n-grams of a class, in the order of the table.
pub fn select<const N: usize>(
    entries: &Vec<([KeySymbol; N], u64)>,
    category: Category,
) -> (res: Vec<([KeySymbol; N], u64)>)
    requires
        N >= category.spec_arity(),
    ensures
        weights_view(res@) == selected(weights_view(entries@), category),
{
    let ghost table = weights_view(entries@);
    let mut res: Vec<([KeySymbol; N], u64)> = Vec::new();
    let mut i: usize = 0;
    assert(weights_view(res@) =~= selected(table.take(0), category));
    while i < entries.len()
        invariant
            N >= category.spec_arity(),
            i <= entries@.len(),
            table == weights_view(entries@),
            weights_view(res@) == selected(table.take(i as int), category),
        decreases entries@.len() - i,
    {
        assert(table.take(i + 1).drop_last() =~= table.take(i as int));
        if belongs(category, &entries[i].0) {
            let ghost before = weights_view(res@);
            res.push(entries[i]);
            assert(weights_view(res@) =~= before.push(table[i as int]));
        }
        i += 1;
    }
    assert(table.take(i as int) =~= table);
    res
}

/// The weight of the n-grams of a class whose first key is in a group.
pub fn group_total<const N: usize>(
    entries: &Vec<([KeySymbol; N], u64)>,
    category: Category,
    group: Group,
) -> (sum: u64)
    requires
        N >= category.spec_arity(),
        total_weight(weights_view(entries@)) <= u64::MAX,
    ensures
        sum == group_weight(weights_view(entries@), category, group),
        sum <= total_weight(weights_view(entries@)),
{
    let ghost table = weights_view(entries@);
    let mut sum: u64 = 0;
    let mut i: usize = 0;
    while i < entries.len()
        invariant
            N >= category.spec_arity(),
            i <= entries@.len(),
            table == weights_view(entries@),
            total_weight(table) <= u64::MAX,
            sum == group_weight(table.take(i as int), category, group),
        decreases entries@.len() - i,
    {
        assert(table.take(i + 1).drop_last() =~= table.take(i as int));
        proof {
            lemma_selected_total(table.take(i + 1), category, group);
            lemma_total_prefix(table, i + 1);
        }
        if belongs(category, &entries[i].0) && groups(group, entries[i].0[0].key) {
            sum = sum + entries[i].1;
        }
        i += 1;
    }
    assert(table.take(i as int) =~= table);
    proof {
        lemma_selected_total(table, category, group);
    }
    sum
}

/// The class of every n-gram holds the whole table.
pub proof fn lemma_all_selected(entries: Weights)
    ensures
        selected(entries, Category::Any) == entries,
    decreases entries.len(),
{
    if entries.len() > 0 {
        lemma_all_selected(entries.drop_last());
        assert(entries.drop_last().push(entries.last()) =~= entries);
    }
}

} // verus!
