//! Sums, percentages and rankings of weighted lists.

use crate::corpus::{lemma_weight_le_total, total_weight};
use vstd::prelude::*;

verus! {

/// A weighted list as mathematics.
pub open spec fn plain_view<K>(list: Seq<(K, u64)>) -> Seq<(K, nat)> {
    Seq::new(list.len(), |i: int| (list[i].0, list[i].1 as nat))
}

/// The list with every weight in hundredths: a share of one becomes a
/// percentage.
pub open spec fn scaled<K>(list: Seq<(K, nat)>) -> Seq<(K, nat)> {
    Seq::new(list.len(), |i: int| (list[i].0, 100 * list[i].1))
}

/// A ranked list with one more entry: the entry stands behind every entry
/// that weighs as much or more, and before every lighter one.
pub open spec fn insert_ranked<K>(sorted: Seq<(K, nat)>, entry: (K, nat)) -> Seq<(K, nat)>
    decreases sorted.len(),
{
    if sorted.len() == 0 || sorted.last().1 >= entry.1 {
        sorted.push(entry)
    } else {
        insert_ranked(sorted.drop_last(), entry).push(sorted.last())
    }
}

/// The list from the heaviest entry to the lightest; entries of one weight
/// stay in the order they had.
pub open spec fn ranked<K>(list: Seq<(K, nat)>) -> Seq<(K, nat)>
    decreases list.len(),
{
    if list.len() == 0 {
        list
    } else {
        insert_ranked(ranked(list.drop_last()), list.last())
    }
}

/// The weights of a list fall from the first to the last.
pub open spec fn is_ranked<K>(list: Seq<(K, nat)>) -> bool {
    forall|i: int, j: int| 0 <= i <= j < list.len() ==> (#[trigger] list[i]).1 >= (#[trigger] list[j]).1
}

/// Where `insert_ranked` puts the entry: behind the last entry that weighs
/// as much or more.
pub proof fn lemma_insert_ranked_at<K>(sorted: Seq<(K, nat)>, entry: (K, nat), at: int)
    requires
        0 <= at <= sorted.len(),
        forall|q: int| at <= q < sorted.len() ==> (#[trigger] sorted[q]).1 < entry.1,
        at == 0 || sorted[at - 1].1 >= entry.1,
    ensures
        insert_ranked(sorted, entry) == sorted.insert(at, entry),
    decreases sorted.len(),
{
    if sorted.len() == 0 {
        assert(sorted.push(entry) =~= sorted.insert(at, entry));
    } else if sorted.last().1 >= entry.1 {
        assert(at == sorted.len());
        assert(sorted.push(entry) =~= sorted.insert(at, entry));
    } else {
        assert(at < sorted.len());
        let front = sorted.drop_last();
        assert forall|q: int| at <= q < front.len() implies (#[trigger] front[q]).1 < entry.1 by {
            assert(front[q] == sorted[q]);
        }
        lemma_insert_ranked_at(front, entry, at);
        assert(front.insert(at, entry).push(sorted.last()) =~= sorted.insert(at, entry));
    }
}

/// Inserting into a ranked list gives a ranked list with the same entries
/// and the new one.
pub proof fn lemma_insert_ranked<K>(sorted: Seq<(K, nat)>, entry: (K, nat))
    requires
        is_ranked(sorted),
    ensures
        is_ranked(insert_ranked(sorted, entry)),
        insert_ranked(sorted, entry).len() == sorted.len() + 1,
        insert_ranked(sorted, entry).to_multiset() == sorted.to_multiset().insert(entry),
        total_weight(insert_ranked(sorted, entry)) == total_weight(sorted) + entry.1,
    decreases sorted.len(),
{
    broadcast use vstd::seq_lib::group_to_multiset_ensures;

    let after = insert_ranked(sorted, entry);
    if sorted.len() == 0 || sorted.last().1 >= entry.1 {
        assert(after.drop_last() =~= sorted);
        assert forall|i: int, j: int| 0 <= i <= j < after.len() implies (#[trigger] after[i]).1 >= (
        #[trigger] after[j]).1 by {
            if j == sorted.len() && i < j {
                assert(sorted[i].1 >= sorted[sorted.len() - 1].1);
            }
        }
    } else {
        let front = sorted.drop_last();
        assert forall|i: int, j: int| 0 <= i <= j < front.len() implies (#[trigger] front[i]).1 >= (
        #[trigger] front[j]).1 by {
            assert(front[i] == sorted[i]);
            assert(front[j] == sorted[j]);
        }
        lemma_insert_ranked(front, entry);
        let mid = insert_ranked(front, entry);
        assert(after == mid.push(sorted.last()));
        assert(after.drop_last() =~= mid);
        assert(sorted =~= front.push(sorted.last()));
        assert forall|i: int, j: int| 0 <= i <= j < after.len() implies (#[trigger] after[i]).1 >= (
        #[trigger] after[j]).1 by {
            if j == mid.len() && i < j {
                assert(mid.to_multiset().contains(mid[i])) by {
                    assert(mid.contains(mid[i]));
                    mid.to_multiset_ensures();
                }
                if mid[i] != entry {
                    assert(front.to_multiset().contains(mid[i]));
                    front.to_multiset_ensures();
                    assert(front.contains(mid[i]));
                    let q = choose|q: int| 0 <= q < front.len() && front[q] == mid[i];
                    assert(sorted[q].1 >= sorted[sorted.len() - 1].1);
                }
            }
        }
        assert(after.to_multiset() =~= sorted.to_multiset().insert(entry));
    }
}

/// A ranking holds the entries of the list, each as often as the list, with
/// weights that fall; their total is the total of the list.
pub proof fn lemma_ranked<K>(list: Seq<(K, nat)>)
    ensures
        is_ranked(ranked(list)),
        ranked(list).len() == list.len(),
        ranked(list).to_multiset() == list.to_multiset(),
        total_weight(ranked(list)) == total_weight(list),
    decreases list.len(),
{
    broadcast use vstd::seq_lib::group_to_multiset_ensures;

    if list.len() > 0 {
        lemma_ranked(list.drop_last());
        lemma_insert_ranked(ranked(list.drop_last()), list.last());
        assert(list =~= list.drop_last().push(list.last()));
    }
}

/// In hundredths the total is a hundred times as large.
pub proof fn lemma_total_scaled<K>(list: Seq<(K, nat)>)
    ensures
        total_weight(scaled(list)) == 100 * total_weight(list),
    decreases list.len(),
{
    if list.len() > 0 {
        lemma_total_scaled(list.drop_last());
        assert(scaled(list).drop_last() =~= scaled(list.drop_last()));
    }
}

/// The total of a list in hundredths.
pub fn result_sum<K>(vec: &Vec<(K, u64)>) -> (sum: u64)
    requires
        100 * total_weight(plain_view(vec@)) <= u64::MAX,
    ensures
        sum == 100 * total_weight(plain_view(vec@)),
{
    let ghost list = plain_view(vec@);
    let mut sum: u64 = 0;
    let mut i: usize = 0;
    while i < vec.len()
        invariant
            i <= vec@.len(),
            list == plain_view(vec@),
            100 * total_weight(list) <= u64::MAX,
            sum == total_weight(list.take(i as int)),
            sum <= total_weight(list),
        decreases vec@.len() - i,
    {
        assert(list.take(i + 1).drop_last() =~= list.take(i as int));
        proof {
            lemma_total_prefix(list, i + 1);
        }
        sum = sum + vec[i].1;
        i += 1;
    }
    assert(list.take(i as int) =~= list);
    100 * sum
}

/// The total of the first entries of a list is at most the total of the
/// list.
pub proof fn lemma_total_prefix<K>(list: Seq<(K, nat)>, k: int)
    requires
        0 <= k <= list.len(),
    ensures
        total_weight(list.take(k)) <= total_weight(list),
    decreases list.len(),
{
    if k == list.len() {
        assert(list.take(k) =~= list);
    } else {
        lemma_total_prefix(list.drop_last(), k);
        assert(list.drop_last().take(k) =~= list.take(k));
    }
}

/// The list in hundredths, from the heaviest entry to the lightest.
pub fn result_vec<K: Copy>(vec: Vec<(K, u64)>) -> (res: Vec<(K, u64)>)
    requires
        100 * total_weight(plain_view(vec@)) <= u64::MAX,
    ensures
        plain_view(res@) == ranked(scaled(plain_view(vec@))),
{
    let ghost list = scaled(plain_view(vec@));
    let mut res: Vec<(K, u64)> = Vec::new();
    let mut i: usize = 0;
    assert(plain_view(res@) =~= ranked(list.take(0)));
    while i < vec.len()
        invariant
            i <= vec@.len(),
            list == scaled(plain_view(vec@)),
            100 * total_weight(plain_view(vec@)) <= u64::MAX,
            plain_view(res@) == ranked(list.take(i as int)),
            res@.len() == i,
        decreases vec@.len() - i,
    {
        assert(list.take(i + 1).drop_last() =~= list.take(i as int));
        proof {
            lemma_weight_le_total(plain_view(vec@), i as int);
        }
        let entry: (K, u64) = (vec[i].0, 100 * vec[i].1);
        let mut at: usize = res.len();
        while at > 0 && res[at - 1].1 < entry.1
            invariant
                at <= res@.len(),
                forall|q: int| at <= q < res@.len() ==> (#[trigger] plain_view(res@)[q]).1 < entry.1,
            decreases at,
        {
            at -= 1;
        }
        proof {
            lemma_insert_ranked_at(plain_view(res@), (entry.0, entry.1 as nat), at as int);
        }
        let ghost before = plain_view(res@);
        res.insert(at, entry);
        assert(plain_view(res@) =~= before.insert(at as int, (entry.0, entry.1 as nat)));
        i += 1;
    }
    assert(list.take(i as int) =~= list);
    res
}

/// Two lists with the same weights have the same total.
pub proof fn lemma_total_same<A, B>(a: Seq<(A, nat)>, b: Seq<(B, nat)>)
    requires
        a.len() == b.len(),
        forall|i: int| 0 <= i < a.len() ==> (#[trigger] a[i]).1 == (#[trigger] b[i]).1,
    ensures
        total_weight(a) == total_weight(b),
    decreases a.len(),
{
    if a.len() > 0 {
        assert forall|i: int| 0 <= i < a.drop_last().len() implies (#[trigger] a.drop_last()[i]).1 == (
        #[trigger] b.drop_last()[i]).1 by {
            assert(a.drop_last()[i] == a[i]);
            assert(b.drop_last()[i] == b[i]);
            assert(a[i].1 == b[i].1);
        }
        lemma_total_same(a.drop_last(), b.drop_last());
        assert(a.last() == a[a.len() - 1]);
        assert(b.last() == b[b.len() - 1]);
    }
}

/// Whether the total of a list, in hundredths, fits in 64 bits.
pub fn weights_fit<K>(vec: &Vec<(K, u64)>) -> (fit: bool)
    ensures
        fit == (100 * total_weight(plain_view(vec@)) <= u64::MAX),
{
    let ghost list = plain_view(vec@);
    let mut sum: u64 = 0;
    let mut i: usize = 0;
    while i < vec.len()
        invariant
            i <= vec@.len(),
            list == plain_view(vec@),
            sum == total_weight(list.take(i as int)),
        decreases vec@.len() - i,
    {
        assert(list.take(i + 1).drop_last() =~= list.take(i as int));
        proof {
            lemma_total_prefix(list, i + 1);
        }
        match sum.checked_add(vec[i].1) {
            Some(s) => {
                sum = s;
            },
            None => {
                return false;
            },
        }
        i += 1;
    }
    assert(list.take(i as int) =~= list);
    sum <= u64::MAX / 100
}

/// The place at which `insert_ranked` puts an entry of the weight `w`.
pub open spec fn rank_place<K>(sorted: Seq<(K, nat)>, w: nat) -> int
    decreases sorted.len(),
{
    if sorted.len() == 0 || sorted.last().1 >= w {
        sorted.len() as int
    } else {
        rank_place(sorted.drop_last(), w)
    }
}

/// The places of a ranking with one more place, put where `insert_ranked`
/// puts the entry of that place.
pub open spec fn insert_place<K>(order: Seq<int>, list: Seq<(K, nat)>, place: int) -> Seq<int>
    decreases order.len(),
{
    if order.len() == 0 || list[order.last()].1 >= list[place].1 {
        order.push(place)
    } else {
        insert_place(order.drop_last(), list, place).push(order.last())
    }
}

/// For each entry of the ranking of a list, its place in the list.
pub open spec fn ranking_order<K>(list: Seq<(K, nat)>) -> Seq<int>
    decreases list.len(),
{
    if list.len() == 0 {
        Seq::empty()
    } else {
        insert_place(ranking_order(list.drop_last()), list, list.len() - 1)
    }
}

/// The entry at the place `a` of the list comes before the entry at `b` in
/// a ranking: it is heavier, or as heavy and earlier in the list.
pub open spec fn ranks_before<K>(list: Seq<(K, nat)>, a: int, b: int) -> bool {
    list[a].1 > list[b].1 || (list[a].1 == list[b].1 && a < b)
}

/// `order` lists places of the list, as many as the list has, such that
/// each entry ranks before the entries that follow it.
pub open spec fn is_stable_order<K>(list: Seq<(K, nat)>, order: Seq<int>) -> bool {
    &&& order.len() == list.len()
    &&& forall|i: int| 0 <= i < order.len() ==> 0 <= #[trigger] order[i] < list.len()
    &&& forall|i: int, j: int|
        0 <= i < j < order.len() ==> ranks_before(list, #[trigger] order[i], #[trigger] order[j])
}

proof fn lemma_rank_place<K>(sorted: Seq<(K, nat)>, w: nat)
    requires
        is_ranked(sorted),
    ensures
        0 <= rank_place(sorted, w) <= sorted.len(),
        forall|q: int| rank_place(sorted, w) <= q < sorted.len() ==> (#[trigger] sorted[q]).1 < w,
        forall|q: int| 0 <= q < rank_place(sorted, w) ==> (#[trigger] sorted[q]).1 >= w,
    decreases sorted.len(),
{
    if sorted.len() == 0 || sorted.last().1 >= w {
        assert forall|q: int| 0 <= q < sorted.len() implies (#[trigger] sorted[q]).1 >= w by {
            assert(sorted[q].1 >= sorted[sorted.len() - 1].1);
        }
    } else {
        let front = sorted.drop_last();
        assert forall|i: int, j: int| 0 <= i <= j < front.len() implies (#[trigger] front[i]).1 >= (
        #[trigger] front[j]).1 by {
            assert(front[i] == sorted[i]);
            assert(front[j] == sorted[j]);
        }
        lemma_rank_place(front, w);
        assert forall|q: int| rank_place(sorted, w) <= q < sorted.len() implies (
        #[trigger] sorted[q]).1 < w by {
            if q < front.len() {
                assert(front[q] == sorted[q]);
            }
        }
        assert forall|q: int| 0 <= q < rank_place(sorted, w) implies (#[trigger] sorted[q]).1 >= w by {
            assert(front[q] == sorted[q]);
        }
    }
}

proof fn lemma_insert_place_at<K>(order: Seq<int>, sorted: Seq<(K, nat)>, list: Seq<(K, nat)>, place: int)
    requires
        order.len() == sorted.len(),
        forall|i: int| 0 <= i < order.len() ==> (#[trigger] sorted[i]) == list[order[i]],
    ensures
        insert_place(order, list, place) == order.insert(rank_place(sorted, list[place].1), place),
        insert_ranked(sorted, list[place]) == sorted.insert(
            rank_place(sorted, list[place].1),
            list[place],
        ),
        0 <= rank_place(sorted, list[place].1) <= sorted.len(),
    decreases order.len(),
{
    let w = list[place].1;
    if order.len() == 0 {
        assert(order.push(place) =~= order.insert(0, place));
        assert(sorted.push(list[place]) =~= sorted.insert(0, list[place]));
    } else {
        assert(sorted[sorted.len() - 1] == list[order[order.len() - 1]]);
        if sorted.last().1 >= w {
            assert(order.push(place) =~= order.insert(order.len() as int, place));
            assert(sorted.push(list[place]) =~= sorted.insert(sorted.len() as int, list[place]));
        } else {
            let front_order = order.drop_last();
            let front = sorted.drop_last();
            assert forall|i: int| 0 <= i < front_order.len() implies (#[trigger] front[i])
                == list[front_order[i]] by {
                assert(front[i] == sorted[i]);
            }
            lemma_insert_place_at(front_order, front, list, place);
            let at = rank_place(front, w);
            assert(front_order.insert(at, place).push(order.last()) =~= order.insert(at, place));
            assert(front.insert(at, list[place]).push(sorted.last()) =~= sorted.insert(
                at,
                list[place],
            ));
        }
    }
}

/// A ranking is stable. Its entries are the entries of the list, each
/// taken from a place of its own, and each entry is heavier than the
/// entries that follow it, or as heavy and from an earlier place in the
/// list.
pub proof fn lemma_ranking_stable<K>(list: Seq<(K, nat)>)
    ensures
        is_stable_order(list, ranking_order(list)),
        ranked(list).len() == list.len(),
        forall|i: int|
            0 <= i < list.len() ==> (#[trigger] ranked(list)[i]) == list[ranking_order(list)[i]],
    decreases list.len(),
{
    if list.len() > 0 {
        let front = list.drop_last();
        let place = list.len() - 1;
        lemma_ranking_stable(front);
        lemma_ranked(front);
        let order = ranking_order(front);
        let sorted = ranked(front);
        assert forall|i: int| 0 <= i < order.len() implies (#[trigger] sorted[i]) == list[order[i]] by {
            assert(sorted[i] == front[order[i]]);
        }
        lemma_insert_place_at(order, sorted, list, place);
        lemma_rank_place(sorted, list[place].1);
        let at = rank_place(sorted, list[place].1);
        let after = ranking_order(list);
        assert(after == order.insert(at, place));
        assert(ranked(list) == sorted.insert(at, list[place]));
        assert forall|i: int, j: int| 0 <= i < j < after.len() implies ranks_before(
            list,
            #[trigger] after[i],
            #[trigger] after[j],
        ) by {
            if i < at && j < at {
                assert(after[i] == order[i] && after[j] == order[j]);
                assert(ranks_before(front, order[i], order[j]));
            } else if i < at && j == at {
                assert(after[i] == order[i]);
                assert(sorted[i].1 >= list[place].1);
            } else if i < at && j > at {
                assert(after[i] == order[i] && after[j] == order[j - 1]);
                assert(ranks_before(front, order[i], order[j - 1]));
            } else if i == at {
                assert(after[j] == order[j - 1]);
                assert(sorted[j - 1].1 < list[place].1);
            } else {
                assert(after[i] == order[i - 1] && after[j] == order[j - 1]);
                assert(ranks_before(front, order[i - 1], order[j - 1]));
            }
        }
        assert forall|i: int| 0 <= i < after.len() implies 0 <= #[trigger] after[i] < list.len() by {
            if i < at {
                assert(after[i] == order[i]);
            } else if i > at {
                assert(after[i] == order[i - 1]);
            }
        }
        assert forall|i: int| 0 <= i < list.len() implies (#[trigger] ranked(list)[i])
            == list[after[i]] by {
            if i < at {
                assert(after[i] == order[i]);
                assert(sorted[i] == list[order[i]]);
            } else if i > at {
                assert(after[i] == order[i - 1]);
                assert(sorted[i - 1] == list[order[i - 1]]);
            }
        }
    }
}

} // verus!
