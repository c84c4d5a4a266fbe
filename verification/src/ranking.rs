//! The order in which scored entries are shown.
//!
//! Entries are known by their place in the catalog. An entry without a score
//! does not match and is left out. The others come by descending score, and
//! entries of one score in the order of the catalog.

use vstd::prelude::*;
use vstd::relations::{sorted_by, total_ordering};
use vstd::seq_lib::lemma_sorted_unique;

verus! {

/// The value by which the entry at `i` is ranked: its score, or a value below
/// every score where there is no such entry or it has none.
pub open spec fn rank_key(scores: Seq<Option<i64>>, i: int) -> int {
    if 0 <= i < scores.len() {
        match scores[i] {
            Some(v) => v as int,
            None => i64::MIN - 1,
        }
    } else {
        i64::MIN - 1
    }
}

/// Whether the entry at `a` is shown no later than the entry at `b`: it has
/// the higher score, or the same score and stands no later in the catalog.
pub open spec fn shown_before(scores: Seq<Option<i64>>, a: int, b: int) -> bool {
    rank_key(scores, a) > rank_key(scores, b) || (rank_key(scores, a) == rank_key(scores, b) && a
        <= b)
}

/// [`shown_before`] as a relation on places.
pub open spec fn display_order(scores: Seq<Option<i64>>) -> spec_fn(int, int) -> bool {
    |a: int, b: int| shown_before(scores, a, b)
}

/// The places among the first `n` whose entry has a score, ascending.
pub open spec fn matching_upto(scores: Seq<Option<i64>>, n: int) -> Seq<int> {
    Seq::new(n as nat, |i: int| i).filter(|i: int| 0 <= i < scores.len() && scores[i].is_some())
}

/// The places whose entry has a score, ascending.
pub open spec fn matching(scores: Seq<Option<i64>>) -> Seq<int> {
    matching_upto(scores, scores.len() as int)
}

/// The places of the matching entries in the order in which they are shown.
pub open spec fn ranked(scores: Seq<Option<i64>>) -> Seq<int> {
    matching(scores).sort_by(display_order(scores))
}

/// The display order is a total order on places.
pub proof fn lemma_display_order_is_total(scores: Seq<Option<i64>>)
    ensures
        total_ordering(display_order(scores)),
{
    let r = display_order(scores);
    assert forall|x: int| #[trigger] r(x, x) by {}
    assert forall|x: int, y: int| #[trigger] r(x, y) && #[trigger] r(y, x) implies x == y by {}
    assert forall|x: int, y: int, z: int| #[trigger] r(x, y) && #[trigger] r(y, z) implies r(
        x,
        z,
    ) by {}
    assert forall|x: int, y: int| #[trigger] r(x, y) || #[trigger] r(y, x) by {}
}

/// One more place is taken into account: it joins the matching places at the
/// end where its entry has a score, and changes nothing where it has none.
pub proof fn lemma_matching_step(scores: Seq<Option<i64>>, n: int)
    requires
        0 <= n < scores.len(),
    ensures
        matching_upto(scores, n + 1) == if scores[n].is_some() {
            matching_upto(scores, n).push(n)
        } else {
            matching_upto(scores, n)
        },
{
    reveal(Seq::filter);
    let longer = Seq::new((n + 1) as nat, |i: int| i);
    assert(longer.drop_last() =~= Seq::new(n as nat, |i: int| i));
    assert(longer.last() == n);
}

/// Among no places, none matches.
pub proof fn lemma_matching_none(scores: Seq<Option<i64>>)
    ensures
        matching_upto(scores, 0) == Seq::<int>::empty(),
{
    reveal(Seq::filter);
    assert(Seq::new(0nat, |i: int| i) =~= Seq::<int>::empty());
}

/// Every matching place among the first `n` is one of them and has a score.
pub proof fn lemma_matching_in_range(scores: Seq<Option<i64>>, n: int)
    requires
        0 <= n <= scores.len(),
    ensures
        forall|k: int|
            0 <= k < matching_upto(scores, n).len() ==> {
                let place = #[trigger] matching_upto(scores, n)[k];
                0 <= place < n && scores[place].is_some()
            },
        matching_upto(scores, n).len() <= n,
    decreases n,
{
    if n > 0 {
        lemma_matching_in_range(scores, n - 1);
        lemma_matching_step(scores, n - 1);
    } else {
        lemma_matching_none(scores);
    }
}

/// Every place among the first `n` whose entry has a score is a matching
/// place.
pub proof fn lemma_matching_is_complete(scores: Seq<Option<i64>>, n: int, place: int)
    requires
        0 <= place < n <= scores.len(),
        scores[place].is_some(),
    ensures
        matching_upto(scores, n).contains(place),
    decreases n,
{
    lemma_matching_step(scores, n - 1);
    let before = matching_upto(scores, n - 1);
    if place == n - 1 {
        assert(before.push(place)[before.len() as int] == place);
    } else {
        lemma_matching_is_complete(scores, n - 1, place);
        let k = choose|k: int| 0 <= k < before.len() && before[k] == place;
        assert(matching_upto(scores, n)[k] == place);
    }
}

/// The places held in a vector of indices.
pub open spec fn places(order: Seq<usize>) -> Seq<int> {
    order.map_values(|i: usize| i as int)
}

/// Whether the entry at `place` has a score of `v` at least.
fn scores_at_least(scores: &Vec<Option<i64>>, place: usize, v: i64) -> (r: bool)
    requires
        place < scores@.len(),
        scores@[place as int].is_some(),
    ensures
        r == (rank_key(scores@, place as int) >= v),
{
    match scores[place] {
        Some(w) => w >= v,
        None => false,
    }
}

/// Ranks the entries by their scores: the places of those that have one, in
/// the order in which they are shown.
pub fn rank(scores: &Vec<Option<i64>>) -> (order: Vec<usize>)
    ensures
        places(order@) == ranked(scores@),
{
    let ghost leq = display_order(scores@);
    let mut order: Vec<usize> = Vec::new();
    let mut i: usize = 0;
    proof {
        lemma_matching_none(scores@);
        assert(places(order@) =~= Seq::<int>::empty());
    }
    while i < scores.len()
        invariant
            i <= scores@.len(),
            leq == display_order(scores@),
            sorted_by(places(order@), leq),
            places(order@).to_multiset() == matching_upto(scores@, i as int).to_multiset(),
            forall|k: int|
                0 <= k < order@.len() ==> (#[trigger] order@[k]) < i && scores@[order@[k] as int]
                    .is_some(),
        decreases scores@.len() - i,
    {
        proof {
            lemma_matching_step(scores@, i as int);
        }
        if let Some(v) = scores[i] {
            let mut p: usize = 0;
            let mut end: usize = order.len();
            while p < end
                invariant
                    p <= end <= order@.len(),
                    i < scores@.len(),
                    leq == display_order(scores@),
                    sorted_by(places(order@), leq),
                    forall|k: int|
                        0 <= k < order@.len() ==> (#[trigger] order@[k]) < i && scores@[order@[k] as int]
                            .is_some(),
                    forall|k: int|
                        0 <= k < p ==> rank_key(scores@, #[trigger] order@[k] as int) >= v,
                    forall|k: int|
                        end <= k < order@.len() ==> rank_key(scores@, #[trigger] order@[k] as int)
                            < v,
                decreases end - p,
            {
                let mid: usize = p + (end - p) / 2;
                if scores_at_least(scores, order[mid], v) {
                    proof {
                        assert forall|k: int| 0 <= k < mid + 1 implies rank_key(
                            scores@,
                            #[trigger] order@[k] as int,
                        ) >= v by {
                            if k < mid {
                                assert(leq(places(order@)[k], places(order@)[mid as int]));
                            }
                        }
                    }
                    p = mid + 1;
                } else {
                    proof {
                        assert forall|k: int| mid <= k < order@.len() implies rank_key(
                            scores@,
                            #[trigger] order@[k] as int,
                        ) < v by {
                            if k > mid {
                                assert(leq(places(order@)[mid as int], places(order@)[k]));
                            }
                        }
                    }
                    end = mid;
                }
            }
            let ghost order_before = order@;
            let ghost before = places(order@);
            order.insert(p, i);
            proof {
                let after = places(order@);
                assert(after =~= before.insert(p as int, i as int));
                vstd::seq_lib::to_multiset_insert(before, p as int, i as int);
                vstd::seq_lib::to_multiset_build(matching_upto(scores@, i as int), i as int);
                assert forall|a: int, b: int| 0 <= a < b < after.len() implies #[trigger] leq(
                    after[a],
                    after[b],
                ) by {
                    if b < p {
                        assert(after[a] == before[a] && after[b] == before[b]);
                    } else if b == p {
                        assert(after[a] == before[a]);
                        assert(before[a] == order_before[a] as int);
                    } else if a < p {
                        assert(after[a] == before[a] && after[b] == before[b - 1]);
                    } else if a == p {
                        assert(after[b] == before[b - 1]);
                        assert(before[b - 1] == order_before[b - 1] as int);
                    } else {
                        assert(after[a] == before[a - 1] && after[b] == before[b - 1]);
                    }
                }
            }
        }
        i += 1;
    }
    proof {
        lemma_display_order_is_total(scores@);
        matching(scores@).lemma_sort_by_ensures(leq);
        lemma_sorted_unique(places(order@), ranked(scores@), leq);
    }
    order
}

/// What the ranking is: each matching place once and no other place, a
/// higher score before a lower one, and places of one score in ascending
/// order.
pub proof fn lemma_ranked_is_sorted_matching(scores: Seq<Option<i64>>)
    ensures
        ranked(scores).to_multiset() == matching(scores).to_multiset(),
        ranked(scores).len() == matching(scores).len(),
        ranked(scores).len() <= scores.len(),
        forall|k: int|
            0 <= k < ranked(scores).len() ==> {
                let place = #[trigger] ranked(scores)[k];
                0 <= place < scores.len() && scores[place].is_some()
            },
        forall|a: int, b: int|
            0 <= a < b < ranked(scores).len() ==> {
                let first = #[trigger] ranked(scores)[a];
                let second = #[trigger] ranked(scores)[b];
                scores[first].unwrap() > scores[second].unwrap() || (scores[first].unwrap()
                    == scores[second].unwrap() && first < second)
            },
{
    broadcast use vstd::seq_lib::group_to_multiset_ensures;

    let leq = display_order(scores);
    let all = matching(scores);
    let order = ranked(scores);
    lemma_display_order_is_total(scores);
    all.lemma_sort_by_ensures(leq);
    lemma_matching_in_range(scores, scores.len() as int);
    assert(order.len() == all.len()) by {
        vstd::seq_lib::to_multiset_len(order);
        vstd::seq_lib::to_multiset_len(all);
    }
    assert forall|k: int| 0 <= k < order.len() implies {
        let place = #[trigger] order[k];
        0 <= place < scores.len() && scores[place].is_some()
    } by {
        let place = order[k];
        assert(order.contains(place));
        assert(all.contains(place));
        let j = choose|j: int| 0 <= j < all.len() && all[j] == place;
        assert(all[j] == place);
    }
    assert forall|a: int, b: int| 0 <= a < b < order.len() implies {
        let first = #[trigger] order[a];
        let second = #[trigger] order[b];
        scores[first].unwrap() > scores[second].unwrap() || (scores[first].unwrap()
            == scores[second].unwrap() && first < second)
    } by {
        let first = order[a];
        let second = order[b];
        assert(leq(first, second));
        if first == second {
            all.lemma_sort_by_ensures(leq);
            lemma_matching_has_no_duplicates(scores, scores.len() as int);
            assert(order.to_multiset().count(first) >= 2) by {
                lemma_two_places_count_twice(order, a, b);
            }
            all.lemma_multiset_has_no_duplicates();
        }
    }
}

/// The matching places are listed once each, in ascending order.
pub proof fn lemma_matching_has_no_duplicates(scores: Seq<Option<i64>>, n: int)
    requires
        0 <= n <= scores.len(),
    ensures
        matching_upto(scores, n).no_duplicates(),
        forall|a: int, b: int|
            0 <= a < b < matching_upto(scores, n).len() ==> (#[trigger] matching_upto(scores, n)[a])
                < (#[trigger] matching_upto(scores, n)[b]),
    decreases n,
{
    if n > 0 {
        lemma_matching_has_no_duplicates(scores, n - 1);
        lemma_matching_in_range(scores, n - 1);
        lemma_matching_step(scores, n - 1);
    } else {
        lemma_matching_none(scores);
    }
}

/// A value that stands at two places of a sequence counts at least twice.
proof fn lemma_two_places_count_twice(s: Seq<int>, a: int, b: int)
    requires
        0 <= a < b < s.len(),
        s[a] == s[b],
    ensures
        s.to_multiset().count(s[a]) >= 2,
{
    broadcast use vstd::multiset::group_multiset_axioms;

    let without = s.remove(b);
    vstd::seq_lib::to_multiset_remove(s, b);
    assert(without[a] == s[a]);
    assert(without.contains(s[a]));
    vstd::seq_lib::to_multiset_contains(without, s[a]);
    assert(without.to_multiset().count(s[a]) >= 1);
    assert(s.to_multiset().contains(s[b])) by {
        assert(s.contains(s[b]));
        vstd::seq_lib::to_multiset_contains(s, s[b]);
    }
}

} // verus!
