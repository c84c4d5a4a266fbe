//! The catalog of executables: which files of the search paths are entries,
//! and the order in which the catalog lists them.
//!
//! Reading a directory is the caller's part. The catalog is built from what
//! was read: for each search path, in the configured order, the entries of the
//! directory with what could be learnt of each.

use vstd::prelude::*;
use vstd::relations::{sorted_by, total_ordering};
use vstd::seq_lib::lemma_sorted_unique;
use vstd::std_specs::iter::IteratorSpec;
use crate::text::labels;

verus! {

/// What was read of one entry of a directory.
#[derive(Debug)]
pub struct FileEntry {
    /// The file's name, where it is valid text.
    pub name: Option<String>,
    /// Whether the entry is a regular file, where its type could be read.
    pub regular: Option<bool>,
    /// The permission bits, where the metadata could be read.
    pub mode: Option<u32>,
}

/// A [`FileEntry`] as plain values.
pub struct FileEntryView {
    pub name: Option<Seq<char>>,
    pub regular: Option<bool>,
    pub mode: Option<u32>,
}

impl View for FileEntry {
    type V = FileEntryView;

    open spec fn view(&self) -> FileEntryView {
        FileEntryView {
            name: match self.name {
                Some(n) => Some(n@),
                None => None,
            },
            regular: self.regular,
            mode: self.mode,
        }
    }
}

/// Whether any of the three execute bits, for owner, group or others, is set.
pub open spec fn has_execute_bit(mode: u32) -> bool {
    mode & 0o111 != 0
}

/// The label under which an entry joins the catalog: its name, where it is a
/// regular file with an execute bit set. An entry of which the type, the
/// permissions or the name could not be read joins under none.
pub open spec fn executable_name(e: FileEntryView) -> Option<Seq<char>> {
    if e.regular == Some(true) && e.mode.is_some() && has_execute_bit(e.mode.unwrap()) {
        e.name
    } else {
        None
    }
}

/// The labels that one directory gives, in the order in which it was read. A
/// directory that could not be read gives none.
pub open spec fn names_in(listing: Option<Seq<FileEntryView>>) -> Seq<Seq<char>> {
    match listing {
        Some(entries) => entries.filter_map(|e: FileEntryView| executable_name(e)),
        None => Seq::empty(),
    }
}

/// The labels of all directories, one directory after the other.
pub open spec fn discovered(listings: Seq<Option<Seq<FileEntryView>>>) -> Seq<Seq<char>>
    decreases listings.len(),
{
    if listings.len() == 0 {
        Seq::empty()
    } else {
        discovered(listings.drop_last()) + names_in(listings.last())
    }
}

/// Whether label `a` stands no later than label `b` in the catalog: the
/// lexicographic order of their characters, each taken by its code point. A
/// label stands before every label that continues it.
pub open spec fn label_le(a: Seq<char>, b: Seq<char>) -> bool
    decreases a.len(),
{
    if a.len() == 0 {
        true
    } else if b.len() == 0 {
        false
    } else if a[0] != b[0] {
        (a[0] as int) < (b[0] as int)
    } else {
        label_le(a.drop_first(), b.drop_first())
    }
}

/// [`label_le`] as a relation on labels.
pub open spec fn label_order() -> spec_fn(Seq<char>, Seq<char>) -> bool {
    |a: Seq<char>, b: Seq<char>| label_le(a, b)
}

/// The catalog for what was read of the search paths: every label that was
/// discovered, as often as it was, in ascending order.
pub open spec fn catalog_of(listings: Seq<Option<Seq<FileEntryView>>>) -> Seq<Seq<char>> {
    discovered(listings).sort_by(label_order())
}

/// What a vector of directory listings holds, as plain values.
pub open spec fn listings_view(listings: Seq<Option<Vec<FileEntry>>>) -> Seq<
    Option<Seq<FileEntryView>>,
> {
    Seq::new(
        listings.len(),
        |i: int|
            match listings[i] {
                Some(entries) => Some(entries@.map_values(|e: FileEntry| e@)),
                None => None,
            },
    )
}

proof fn lemma_label_le_reflexive(a: Seq<char>)
    ensures
        label_le(a, a),
    decreases a.len(),
{
    if a.len() > 0 {
        lemma_label_le_reflexive(a.drop_first());
    }
}

proof fn lemma_label_le_antisymmetric(a: Seq<char>, b: Seq<char>)
    requires
        label_le(a, b),
        label_le(b, a),
    ensures
        a == b,
    decreases a.len(),
{
    if a.len() == 0 || b.len() == 0 {
        assert(a =~= b);
    } else {
        lemma_label_le_antisymmetric(a.drop_first(), b.drop_first());
        assert(a =~= seq![a[0]] + a.drop_first());
        assert(b =~= seq![b[0]] + b.drop_first());
    }
}

proof fn lemma_label_le_transitive(a: Seq<char>, b: Seq<char>, c: Seq<char>)
    requires
        label_le(a, b),
        label_le(b, c),
    ensures
        label_le(a, c),
    decreases a.len(),
{
    if a.len() > 0 && b.len() > 0 && c.len() > 0 && a[0] == b[0] && b[0] == c[0] {
        lemma_label_le_transitive(a.drop_first(), b.drop_first(), c.drop_first());
    }
}

proof fn lemma_label_le_connected(a: Seq<char>, b: Seq<char>)
    ensures
        label_le(a, b) || label_le(b, a),
    decreases a.len(),
{
    if a.len() > 0 && b.len() > 0 {
        if a[0] == b[0] {
            lemma_label_le_connected(a.drop_first(), b.drop_first());
        }
    }
}

/// The order of the catalog is a total order on labels.
pub proof fn lemma_label_order_is_total()
    ensures
        total_ordering(label_order()),
{
    let r = label_order();
    assert forall|x: Seq<char>| #[trigger] r(x, x) by {
        lemma_label_le_reflexive(x);
    }
    assert forall|x: Seq<char>, y: Seq<char>| #[trigger] r(x, y) && #[trigger] r(y, x) implies x
        == y by {
        lemma_label_le_antisymmetric(x, y);
    }
    assert forall|x: Seq<char>, y: Seq<char>, z: Seq<char>| #[trigger]
        r(x, y) && #[trigger] r(y, z) implies r(x, z) by {
        lemma_label_le_transitive(x, y, z);
    }
    assert forall|x: Seq<char>, y: Seq<char>| #[trigger] r(x, y) || #[trigger] r(y, x) by {
        lemma_label_le_connected(x, y);
    }
}

/// Whether an entry with these permission bits may be executed by anyone.
pub fn is_executable(mode: u32) -> (r: bool)
    ensures
        r == has_execute_bit(mode),
{
    mode & 0o111 != 0
}

/// Whether `x` has the lower code point.
fn char_before(x: char, y: char) -> (r: bool)
    ensures
        r == ((x as int) < (y as int)),
{
    (x as u32) < (y as u32)
}

/// Whether label `a` stands no later than label `b` in the catalog.
pub fn label_precedes(a: &str, b: &str) -> (r: bool)
    ensures
        r == label_le(a@, b@),
{
    broadcast use vstd::string::axiom_spec_iter, vstd::string::next_postcondition;

    let mut left = a.chars();
    let mut right = b.chars();
    loop
        invariant
            left.obeys_prophetic_iter_laws(),
            right.obeys_prophetic_iter_laws(),
            left.decrease() is Some,
            label_le(a@, b@) == label_le(left.remaining(), right.remaining()),
        decreases left.decrease()->0,
    {
        let ghost l = left.remaining();
        let ghost r = right.remaining();
        match left.next() {
            None => {
                return true;
            },
            Some(x) => {
                match right.next() {
                    None => {
                        return false;
                    },
                    Some(y) => {
                        if x != y {
                            return char_before(x, y);
                        }
                    },
                }
            },
        }
    }
}

/// The labels that the entries of the search paths give, one directory after
/// the other, each in the order in which it was read.
pub fn collect_names(listings: &Vec<Option<Vec<FileEntry>>>) -> (names: Vec<String>)
    ensures
        labels(names@) == discovered(listings_view(listings@)),
{
    let ghost all = listings_view(listings@);
    let mut names: Vec<String> = Vec::new();
    let mut d: usize = 0;
    assert(all.take(0) =~= Seq::empty());
    assert(labels(names@) =~= Seq::<Seq<char>>::empty());
    while d < listings.len()
        invariant
            d <= listings@.len(),
            all == listings_view(listings@),
            labels(names@) == discovered(all.take(d as int)),
        decreases listings@.len() - d,
    {
        let ghost done = labels(names@);
        proof {
            assert(all.take(d + 1).drop_last() =~= all.take(d as int));
            assert(all.take(d + 1).last() == all[d as int]);
        }
        if let Some(entries) = &listings[d] {
            let ghost views = entries@.map_values(|e: FileEntry| e@);
            let ghost keep = |e: FileEntryView| executable_name(e);
            let mut i: usize = 0;
            assert(views.take(0) =~= Seq::empty());
            assert(all[d as int] == Some(views));
            while i < entries.len()
                invariant
                    i <= entries@.len(),
                    views == entries@.map_values(|e: FileEntry| e@),
                    keep == |e: FileEntryView| executable_name(e),
                    labels(names@) == done + views.take(i as int).filter_map(keep),
                decreases entries@.len() - i,
            {
                let entry = &entries[i];
                let ghost so_far = labels(names@);
                proof {
                    views.lemma_filter_map_take_succ(keep, i as int);
                    assert(views[i as int] == entry@);
                }
                let executable = match (entry.regular, entry.mode) {
                    (Some(true), Some(mode)) => is_executable(mode),
                    _ => false,
                };
                if executable {
                    if let Some(name) = &entry.name {
                        names.push(name.clone());
                        assert(labels(names@) =~= so_far + seq![name@]);
                    }
                }
                assert(labels(names@) =~= done + views.take(i + 1).filter_map(keep));
                i += 1;
            }
            assert(views.take(i as int) =~= views);
        } else {
            assert(labels(names@) =~= done + Seq::<Seq<char>>::empty());
        }
        d += 1;
    }
    assert(all.take(d as int) =~= all);
    names
}

/// The given labels in the order of the catalog.
pub fn sort_labels(names: &Vec<String>) -> (sorted: Vec<String>)
    ensures
        labels(sorted@) == labels(names@).sort_by(label_order()),
{
    let ghost leq = label_order();
    let ghost all = labels(names@);
    let mut sorted: Vec<String> = Vec::new();
    let mut i: usize = 0;
    proof {
        assert(all.take(0) =~= Seq::empty());
        assert(labels(sorted@) =~= Seq::<Seq<char>>::empty());
    }
    while i < names.len()
        invariant
            i <= names@.len(),
            leq == label_order(),
            all == labels(names@),
            sorted_by(labels(sorted@), leq),
            labels(sorted@).to_multiset() == all.take(i as int).to_multiset(),
        decreases names@.len() - i,
    {
        let name = &names[i];
        let mut p: usize = 0;
        let mut end: usize = sorted.len();
        while p < end
            invariant
                p <= end <= sorted@.len(),
                leq == label_order(),
                sorted_by(labels(sorted@), leq),
                forall|k: int| 0 <= k < p ==> label_le(#[trigger] sorted@[k]@, name@),
                forall|k: int| end <= k < sorted@.len() ==> !label_le(#[trigger] sorted@[k]@, name@),
            decreases end - p,
        {
            let mid: usize = p + (end - p) / 2;
            let ghost middle = sorted@[mid as int]@;
            if label_precedes(sorted[mid].as_str(), name.as_str()) {
                proof {
                    assert forall|k: int| 0 <= k < mid + 1 implies label_le(
                        #[trigger] sorted@[k]@,
                        name@,
                    ) by {
                        if k < mid {
                            assert(leq(labels(sorted@)[k], labels(sorted@)[mid as int]));
                            lemma_label_le_transitive(sorted@[k]@, middle, name@);
                        }
                    }
                }
                p = mid + 1;
            } else {
                proof {
                    assert forall|k: int| mid <= k < sorted@.len() implies !label_le(
                        #[trigger] sorted@[k]@,
                        name@,
                    ) by {
                        if k > mid && label_le(sorted@[k]@, name@) {
                            assert(leq(labels(sorted@)[mid as int], labels(sorted@)[k]));
                            lemma_label_le_transitive(middle, sorted@[k]@, name@);
                        }
                    }
                }
                end = mid;
            }
        }
        let ghost sorted_before = sorted@;
        let ghost before = labels(sorted@);
        sorted.insert(p, name.clone());
        proof {
            let after = labels(sorted@);
            lemma_label_order_is_total();
            assert(after =~= before.insert(p as int, name@));
            vstd::seq_lib::to_multiset_insert(before, p as int, name@);
            assert(all.take(i + 1) =~= all.take(i as int).push(name@));
            vstd::seq_lib::to_multiset_build(all.take(i as int), name@);
            assert forall|a: int, b: int| 0 <= a < b < after.len() implies #[trigger] leq(
                after[a],
                after[b],
            ) by {
                if b < p {
                    assert(after[a] == before[a] && after[b] == before[b]);
                } else if b == p {
                    assert(after[a] == before[a]);
                    assert(label_le(sorted_before[a]@, name@));
                } else if a < p {
                    assert(after[a] == before[a] && after[b] == before[b - 1]);
                } else if a == p {
                    assert(after[b] == before[b - 1]);
                    assert(!label_le(sorted_before[b - 1]@, name@));
                    lemma_label_le_connected(sorted_before[b - 1]@, name@);
                } else {
                    assert(after[a] == before[a - 1] && after[b] == before[b - 1]);
                }
            }
        }
        i += 1;
    }
    proof {
        assert(all.take(i as int) =~= all);
        lemma_label_order_is_total();
        all.lemma_sort_by_ensures(leq);
        lemma_sorted_unique(labels(sorted@), all.sort_by(leq), leq);
    }
    sorted
}

/// Builds the catalog from what was read of the search paths.
pub fn load(listings: &Vec<Option<Vec<FileEntry>>>) -> (catalog: Vec<String>)
    ensures
        labels(catalog@) == catalog_of(listings_view(listings@)),
{
    let names = collect_names(listings);
    sort_labels(&names)
}

} // verus!
