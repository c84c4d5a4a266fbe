//! From typed text to the list of candidates that is shown.

use vstd::prelude::*;
use vstd::string::StringExecFns;
use crate::fuzzy::{label_score, score};
use crate::ranking::{lemma_ranked_is_sorted_matching, places, rank, ranked};
use vstd::relations::sorted_by;
use crate::catalog::{label_le, label_order};
use crate::text::{char_is_whitespace, is_blank, labels, to_chars};

verus! {

/// The text of an optional string.
pub open spec fn text_of(s: Option<&str>) -> Option<Seq<char>> {
    match s {
        Some(t) => Some(t@),
        None => None,
    }
}

/// What every informational candidate begins with: `Answer: `.
pub open spec fn answer_prefix() -> Seq<char> {
    seq!['A', 'n', 's', 'w', 'e', 'r', ':', ' ']
}

/// The label that shows the value `number` of an arithmetic expression.
pub open spec fn answer_text(number: Seq<char>) -> Seq<char> {
    answer_prefix() + number
}

/// The score of each catalog entry against `pattern`, by the entry's place.
pub open spec fn scores_of(catalog: Seq<Seq<char>>, pattern: Seq<char>) -> Seq<Option<i64>> {
    Seq::new(catalog.len(), |i: int| label_score(catalog[i], pattern))
}

/// How many candidates are shown of `available`: all of them, up to the
/// window's capacity.
pub open spec fn shown_count(available: int, max_entries: int) -> int {
    if available <= max_entries {
        available
    } else {
        max_entries
    }
}

/// The entries that match `pattern`, the best `max_entries` of them, best
/// first.
pub open spec fn search_results(pattern: Seq<char>, catalog: Seq<Seq<char>>, max_entries: int) -> Seq<
    Seq<char>,
> {
    let order = ranked(scores_of(catalog, pattern));
    Seq::new(shown_count(order.len() as int, max_entries) as nat, |k: int| catalog[order[k]])
}

/// The candidates for `input`. A blank input shows the catalog from its start.
/// An input that has a value as arithmetic, printed as `answer`, shows that
/// value and nothing else. Any other input shows the entries that match it.
pub open spec fn filtered(
    input: Seq<char>,
    catalog: Seq<Seq<char>>,
    max_entries: int,
    answer: Option<Seq<char>>,
) -> Seq<Seq<char>> {
    if is_blank(input) {
        catalog.take(shown_count(catalog.len() as int, max_entries))
    } else {
        match answer {
            Some(number) => seq![answer_text(number)],
            None => search_results(input, catalog, max_entries),
        }
    }
}

/// Whether `input` holds nothing but whitespace.
pub fn blank(input: &str) -> (r: bool)
    ensures
        r == is_blank(input@),
{
    let chars = to_chars(input);
    let mut i: usize = 0;
    while i < chars.len()
        invariant
            i <= chars@.len(),
            chars@ == input@,
            forall|j: int| 0 <= j < i ==> crate::text::is_whitespace(#[trigger] chars@[j]),
        decreases chars@.len() - i,
    {
        if !char_is_whitespace(chars[i]) {
            return false;
        }
        i += 1;
    }
    true
}

/// The label of the informational candidate for the value printed as `number`.
pub fn answer_label(number: &str) -> (label: String)
    ensures
        label@ == answer_text(number@),
{
    proof {
        reveal_strlit("Answer: ");
        assert("Answer: "@ =~= answer_prefix());
    }
    String::from_str("Answer: ").concat(number)
}

/// The score of every catalog entry against `pattern`.
pub fn score_all(catalog: &Vec<String>, pattern: &str) -> (scores: Vec<Option<i64>>)
    ensures
        scores@ == scores_of(labels(catalog@), pattern@),
{
    let mut scores: Vec<Option<i64>> = Vec::new();
    let mut i: usize = 0;
    while i < catalog.len()
        invariant
            i <= catalog@.len(),
            scores@.len() == i,
            forall|j: int| 0 <= j < i ==> #[trigger] scores@[j] == label_score(catalog@[j]@, pattern@),
        decreases catalog@.len() - i,
    {
        scores.push(score(catalog[i].as_str(), pattern));
        i += 1;
    }
    assert(scores@ =~= scores_of(labels(catalog@), pattern@));
    scores
}

/// The first `count` entries that `order` names, in that order.
pub fn take_ranked(catalog: &Vec<String>, order: &Vec<usize>, count: usize) -> (r: Vec<String>)
    requires
        count <= order@.len(),
        forall|k: int| 0 <= k < order@.len() ==> (#[trigger] order@[k]) < catalog@.len(),
    ensures
        labels(r@) == Seq::new(count as nat, |k: int| catalog@[order@[k] as int]@),
{
    let mut r: Vec<String> = Vec::new();
    let mut k: usize = 0;
    while k < count
        invariant
            k <= count <= order@.len(),
            r@.len() == k,
            forall|j: int| 0 <= j < order@.len() ==> (#[trigger] order@[j]) < catalog@.len(),
            forall|j: int| 0 <= j < k ==> (#[trigger] r@[j])@ == catalog@[order@[j] as int]@,
        decreases count - k,
    {
        let place: usize = order[k];
        r.push(catalog[place].clone());
        k += 1;
    }
    assert(labels(r@) =~= Seq::new(count as nat, |k: int| catalog@[order@[k] as int]@));
    r
}

/// The first `count` entries of the catalog.
pub fn take_first(catalog: &Vec<String>, count: usize) -> (r: Vec<String>)
    requires
        count <= catalog@.len(),
    ensures
        labels(r@) == labels(catalog@).take(count as int),
{
    let mut r: Vec<String> = Vec::new();
    let mut k: usize = 0;
    while k < count
        invariant
            k <= count <= catalog@.len(),
            r@.len() == k,
            forall|j: int| 0 <= j < k ==> (#[trigger] r@[j])@ == catalog@[j]@,
        decreases count - k,
    {
        r.push(catalog[k].clone());
        k += 1;
    }
    assert(labels(r@) =~= labels(catalog@).take(count as int));
    r
}

/// The entries of the catalog that match `pattern`, the best `max_entries` of
/// them, best first.
pub fn search(pattern: &str, catalog: &Vec<String>, max_entries: usize) -> (r: Vec<String>)
    ensures
        labels(r@) == search_results(pattern@, labels(catalog@), max_entries as int),
{
    let scores = score_all(catalog, pattern);
    let order = rank(&scores);
    proof {
        lemma_ranked_is_sorted_matching(scores@);
        assert forall|k: int| 0 <= k < order@.len() implies (#[trigger] order@[k])
            < catalog@.len() by {
            assert(places(order@)[k] == order@[k] as int);
        }
    }
    let count: usize = if order.len() <= max_entries {
        order.len()
    } else {
        max_entries
    };
    let r = take_ranked(catalog, &order, count);
    proof {
        let ranks = ranked(scores@);
        assert forall|k: int| 0 <= k < count implies catalog@[order@[k] as int]@ == labels(
            catalog@,
        )[ranks[k]] by {
            assert(places(order@)[k] == order@[k] as int);
        }
        assert(labels(r@) =~= search_results(pattern@, labels(catalog@), max_entries as int));
    }
    r
}

/// The candidates to show for `input`, of which at most `max_entries` come
/// from the catalog. `answer` is the value of `input` as arithmetic, printed,
/// where it has one.
pub fn filter(input: &str, catalog: &Vec<String>, max_entries: usize, answer: Option<&str>) -> (r:
    Vec<String>)
    ensures
        labels(r@) == filtered(input@, labels(catalog@), max_entries as int, text_of(answer)),
        max_entries >= 1 ==> r@.len() <= max_entries,
{
    proof {
        if max_entries >= 1 {
            lemma_filtered_fits(input@, labels(catalog@), max_entries as int, text_of(answer));
        }
    }
    if blank(input) {
        let count: usize = if catalog.len() <= max_entries {
            catalog.len()
        } else {
            max_entries
        };
        take_first(catalog, count)
    } else {
        match answer {
            Some(number) => {
                let r = vec![answer_label(number)];
                assert(labels(r@) =~= seq![answer_text(number@)]);
                r
            },
            None => search(input, catalog, max_entries),
        }
    }
}

/// The candidates for any input fit a window with room for at least one.
pub proof fn lemma_filtered_fits(
    input: Seq<char>,
    catalog: Seq<Seq<char>>,
    max_entries: int,
    answer: Option<Seq<char>>,
)
    requires
        max_entries >= 1,
    ensures
        filtered(input, catalog, max_entries, answer).len() <= max_entries,
{
}

/// A blank input shows the start of the catalog: as many entries as the
/// window holds, or all where there are fewer, each at its place. Where the
/// catalog is in order, no entry left out stands before one that is shown.
pub proof fn lemma_blank_input_shows_catalog_start(
    input: Seq<char>,
    catalog: Seq<Seq<char>>,
    max_entries: int,
    answer: Option<Seq<char>>,
)
    requires
        is_blank(input),
        max_entries >= 0,
    ensures
        ({
            let shown = filtered(input, catalog, max_entries, answer);
            &&& shown.len() == shown_count(catalog.len() as int, max_entries)
            &&& forall|k: int| 0 <= k < shown.len() ==> #[trigger] shown[k] == catalog[k]
            &&& sorted_by(catalog, label_order()) ==> forall|k: int, j: int|
                0 <= k < shown.len() <= j < catalog.len() ==> label_le(
                    #[trigger] shown[k],
                    #[trigger] catalog[j],
                )
        }),
{
    let shown = filtered(input, catalog, max_entries, answer);
    if sorted_by(catalog, label_order()) {
        assert forall|k: int, j: int| 0 <= k < shown.len() <= j < catalog.len() implies label_le(
            #[trigger] shown[k],
            #[trigger] catalog[j],
        ) by {
            assert(label_order()(catalog[k], catalog[j]));
        }
    }
}

/// An input that is neither blank nor arithmetic shows entries of the
/// catalog that match it, at most as many as the window holds: the best
/// ones, a higher score before a lower one, and entries of one score in the
/// order of the catalog. `ranked` lists the places of all matching entries;
/// the candidates are the entries at the first of those places.
pub proof fn lemma_search_shows_best_matches(
    input: Seq<char>,
    catalog: Seq<Seq<char>>,
    max_entries: int,
)
    requires
        !is_blank(input),
        max_entries >= 0,
    ensures
        ({
            let shown = filtered(input, catalog, max_entries, None);
            let scores = scores_of(catalog, input);
            let order = ranked(scores);
            &&& shown.len() <= max_entries
            &&& shown.len() == shown_count(order.len() as int, max_entries)
            &&& forall|i: int|
                0 <= i < catalog.len() && label_score(catalog[i], input).is_some()
                    ==> #[trigger] order.contains(i)
            &&& forall|k: int|
                0 <= k < shown.len() ==> {
                    &&& 0 <= order[k] < catalog.len()
                    &&& #[trigger] shown[k] == catalog[order[k]]
                    &&& label_score(shown[k], input).is_some()
                }
            &&& forall|a: int, b: int|
                0 <= a < b < order.len() ==> {
                    let first = label_score(catalog[#[trigger] order[a]], input).unwrap();
                    let second = label_score(catalog[#[trigger] order[b]], input).unwrap();
                    first > second || (first == second && order[a] < order[b])
                }
        }),
{
    let scores = scores_of(catalog, input);
    let order = ranked(scores);
    lemma_ranked_is_sorted_matching(scores);
    assert forall|i: int|
        0 <= i < catalog.len() && label_score(catalog[i], input).is_some() implies #[trigger]
        order.contains(i) by {
        crate::ranking::lemma_matching_is_complete(scores, scores.len() as int, i);
        vstd::seq_lib::to_multiset_contains(crate::ranking::matching(scores), i);
        vstd::seq_lib::to_multiset_contains(order, i);
    }
}

} // verus!
