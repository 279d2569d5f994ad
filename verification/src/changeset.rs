//! The diffs of all paths of one comparison, in the order of the paths.

use crate::lexical::bytes_lt;
use crate::lexical::compare_bytes;
use crate::lexical::lemma_lt_asymmetric;
use crate::lexical::lemma_lt_irreflexive;
use crate::lexical::lemma_lt_transitive;
use crate::lexical::Order;
use crate::metadata::deterministic;
use crate::metadata::total;
use crate::metadata::MetaEntryDiff;
use vstd::prelude::*;
use vstd::string::StringSliceAdditionalSpecFns;
use vstd::utf8::encode_utf8;

verus! {

/// Whether each path comes before all that follow it, in the lexicographic
/// order of the bytes of their UTF-8 encoding. Then no path occurs twice.
pub open spec fn strictly_sorted(paths: Seq<Seq<char>>) -> bool {
    forall|i: int, j: int|
        0 <= i < j < paths.len() ==> bytes_lt(
            encode_utf8(#[trigger] paths[i]),
            encode_utf8(#[trigger] paths[j]),
        )
}

/// The mapping that lists of paths and of diffs of the same length stand
/// for: each path that occurs, to the diff at its index.
pub open spec fn map_of<D>(paths: Seq<Seq<char>>, diffs: Seq<D>) -> Map<Seq<char>, D> {
    Map::new(|path: Seq<char>| paths.contains(path), |path: Seq<char>| diffs[paths.index_of(path)])
}

/// In a sorted list a path is found at one index only.
pub proof fn lemma_sorted_index(paths: Seq<Seq<char>>, i: int)
    requires
        strictly_sorted(paths),
        0 <= i < paths.len(),
    ensures
        paths.contains(paths[i]),
        paths.index_of(paths[i]) == i,
{
    let j = paths.index_of(paths[i]);
    assert(paths[j] == paths[i]);
    lemma_lt_irreflexive(encode_utf8(paths[i]));
    if j < i {
        assert(bytes_lt(encode_utf8(paths[j]), encode_utf8(paths[i])));
    } else if i < j {
        assert(bytes_lt(encode_utf8(paths[i]), encode_utf8(paths[j])));
    }
}

/// A path that goes into a sorted list where the order has it goes into the
/// mapping, with its diff, and leaves the rest as it was.
pub proof fn lemma_map_of_insert<D>(
    paths: Seq<Seq<char>>,
    diffs: Seq<D>,
    at: int,
    path: Seq<char>,
    diff: D,
)
    requires
        paths.len() == diffs.len(),
        0 <= at <= paths.len(),
        strictly_sorted(paths),
        strictly_sorted(paths.insert(at, path)),
    ensures
        map_of(paths.insert(at, path), diffs.insert(at, diff)) == map_of(paths, diffs).insert(
            path,
            diff,
        ),
{
    let new_paths = paths.insert(at, path);
    let new_diffs = diffs.insert(at, diff);
    let before = map_of(paths, diffs);
    let after = map_of(new_paths, new_diffs);
    assert forall|p: Seq<char>| after.contains_key(p) <==> before.insert(path, diff).contains_key(
        p,
    ) by {
        if new_paths.contains(p) {
            let k = new_paths.index_of(p);
            if k < at {
                assert(paths[k] == p);
            } else if k > at {
                assert(paths[k - 1] == p);
            }
        }
        if paths.contains(p) {
            let k = paths.index_of(p);
            if k < at {
                assert(new_paths[k] == p);
            } else {
                assert(new_paths[k + 1] == p);
            }
        }
        if p == path {
            assert(new_paths[at] == p);
        }
    }
    assert forall|p: Seq<char>| after.contains_key(p) implies after[p] == before.insert(
        path,
        diff,
    )[p] by {
        let k = new_paths.index_of(p);
        assert(new_paths[k] == p);
        lemma_sorted_index(new_paths, k);
        if k < at {
            assert(paths[k] == p);
            lemma_sorted_index(paths, k);
            lemma_sorted_index(new_paths, at);
        } else if k > at {
            assert(paths[k - 1] == p);
            lemma_sorted_index(paths, k - 1);
            lemma_sorted_index(new_paths, at);
        }
    }
    assert(after =~= before.insert(path, diff));
}

/// A new diff at the index of a path takes the place of the old one in the
/// mapping, and leaves the rest as it was.
pub proof fn lemma_map_of_update<D>(paths: Seq<Seq<char>>, diffs: Seq<D>, at: int, diff: D)
    requires
        paths.len() == diffs.len(),
        0 <= at < paths.len(),
        strictly_sorted(paths),
    ensures
        map_of(paths, diffs.update(at, diff)) == map_of(paths, diffs).insert(paths[at], diff),
{
    let before = map_of(paths, diffs);
    let after = map_of(paths, diffs.update(at, diff));
    lemma_sorted_index(paths, at);
    assert forall|p: Seq<char>| after.contains_key(p) implies after[p] == before.insert(
        paths[at],
        diff,
    )[p] by {
        let k = paths.index_of(p);
        assert(paths[k] == p);
    }
    assert(after =~= before.insert(paths[at], diff));
}

/// Two sorted lists that stand for the same mapping are the same list.
pub proof fn lemma_sorted_lists_equal<D>(
    paths: Seq<Seq<char>>,
    diffs: Seq<D>,
    other_paths: Seq<Seq<char>>,
    other_diffs: Seq<D>,
)
    requires
        paths.len() == diffs.len(),
        other_paths.len() == other_diffs.len(),
        strictly_sorted(paths),
        strictly_sorted(other_paths),
        map_of(paths, diffs) == map_of(other_paths, other_diffs),
    ensures
        paths == other_paths,
        diffs == other_diffs,
{
    lemma_sorted_prefix_equal(paths, diffs, other_paths, other_diffs, paths.len() as int);
    lemma_sorted_prefix_equal(other_paths, other_diffs, paths, diffs, other_paths.len() as int);
    assert(paths =~= other_paths);
    assert forall|i: int| 0 <= i < diffs.len() implies diffs[i] == other_diffs[i] by {
        lemma_sorted_index(paths, i);
        lemma_sorted_index(other_paths, i);
        assert(map_of(paths, diffs)[paths[i]] == diffs[i]);
        assert(map_of(other_paths, other_diffs)[other_paths[i]] == other_diffs[i]);
    }
    assert(diffs =~= other_diffs);
}

/// Two sorted lists that stand for the same mapping agree on their first
/// `n` paths, as far as the first list has them.
proof fn lemma_sorted_prefix_equal<D>(
    paths: Seq<Seq<char>>,
    diffs: Seq<D>,
    other_paths: Seq<Seq<char>>,
    other_diffs: Seq<D>,
    n: int,
)
    requires
        paths.len() == diffs.len(),
        other_paths.len() == other_diffs.len(),
        strictly_sorted(paths),
        strictly_sorted(other_paths),
        map_of(paths, diffs) == map_of(other_paths, other_diffs),
        0 <= n <= paths.len(),
    ensures
        n <= other_paths.len(),
        forall|i: int| 0 <= i < n ==> paths[i] == other_paths[i],
    decreases n,
{
    if n > 0 {
        lemma_sorted_prefix_equal(paths, diffs, other_paths, other_diffs, n - 1);
        let i = n - 1;
        let p = paths[i];
        // `p` occurs in the other list, at some index `k`.
        lemma_sorted_index(paths, i);
        assert(map_of(paths, diffs).contains_key(p));
        assert(map_of(other_paths, other_diffs).contains_key(p));
        let k = other_paths.index_of(p);
        assert(other_paths[k] == p);
        // No earlier index of the other list holds it.
        if k < i {
            assert(paths[k] == other_paths[k]);
            lemma_sorted_index(paths, k);
        }
        // What the other list holds at `i` occurs in the first list, at
        // some index `m`, which is no earlier one either.
        let q = other_paths[i];
        lemma_sorted_index(other_paths, i);
        assert(map_of(other_paths, other_diffs).contains_key(q));
        assert(map_of(paths, diffs).contains_key(q));
        let m = paths.index_of(q);
        assert(paths[m] == q);
        if m < i {
            assert(paths[m] == other_paths[m]);
            lemma_sorted_index(other_paths, m);
        }
        // So `i <= k` and `i <= m`; if either were later, `p` would come
        // before itself.
        if k > i {
            assert(bytes_lt(encode_utf8(q), encode_utf8(p)));
            lemma_lt_irreflexive(encode_utf8(p));
            if m > i {
                assert(bytes_lt(encode_utf8(p), encode_utf8(q)));
                lemma_lt_asymmetric(encode_utf8(p), encode_utf8(q));
            }
        }
    }
}

/// The paths of a list of entries.
pub open spec fn listed_paths<D>(entries: Seq<(String, D)>) -> Seq<Seq<char>> {
    Seq::new(entries.len(), |i: int| entries[i].0@)
}

/// The diffs of a list of entries.
pub open spec fn listed_diffs<D>(entries: Seq<(String, D)>) -> Seq<D> {
    Seq::new(entries.len(), |i: int| entries[i].1)
}

/// The diffs that one comparison found, each under the path of its entry,
/// with the earliest timestamp that the comparison may have seen. That
/// timestamp is of the same type as the timestamps of the diffs.
///
/// A path occurs once. The entries are held, and handed out, in the
/// lexicographic order of their paths, so that two changesets that hold the
/// same diffs under the same paths are the same in every respect.
#[derive(Debug, PartialEq, Eq, Hash)]
pub struct Changeset<Ts> {
    earliest_timestamp: Ts,
    entries: Vec<(String, MetaEntryDiff<Ts>)>,
}

/// What a [`Changeset`] says: the earliest timestamp, and the mapping from
/// each path to its diff.
pub struct ChangesetView<Ts> {
    /// The earliest timestamp that the comparison may have seen.
    pub earliest: Ts,
    /// The diff of each path that has one.
    pub changes: Map<Seq<char>, MetaEntryDiff<Ts>>,
}

impl<Ts> View for Changeset<Ts> {
    type V = ChangesetView<Ts>;

    open spec fn view(&self) -> ChangesetView<Ts> {
        ChangesetView { earliest: self.earliest(), changes: map_of(self.paths(), self.diffs()) }
    }
}

impl<Ts> Changeset<Ts> {
    /// The paths, in the order in which the entries are handed out.
    pub closed spec fn paths(&self) -> Seq<Seq<char>> {
        listed_paths(self.entries@)
    }

    /// The diffs, each at the index of its path.
    pub closed spec fn diffs(&self) -> Seq<MetaEntryDiff<Ts>> {
        listed_diffs(self.entries@)
    }

    /// The earliest timestamp that the comparison may have seen.
    pub closed spec fn earliest(&self) -> Ts {
        self.earliest_timestamp
    }

    /// Whether the entries are in the order of their paths.
    #[verifier::type_invariant]
    pub closed spec fn wf(&self) -> bool {
        strictly_sorted(self.paths())
    }

    /// There are as many diffs as paths.
    pub proof fn lemma_lengths(&self)
        ensures
            self.paths().len() == self.diffs().len(),
    {
    }

    /// A changeset without entries.
    pub fn new(earliest_timestamp: Ts) -> (changeset: Self)
        ensures
            changeset.wf(),
            changeset@.earliest == earliest_timestamp,
            changeset.paths().len() == 0,
            changeset@.changes.dom() == Set::<Seq<char>>::empty(),
    {
        let changeset = Changeset { earliest_timestamp, entries: Vec::new() };
        assert(changeset@.changes.dom() =~= Set::<Seq<char>>::empty());
        changeset
    }

    /// Returns the earliest timestamp that the comparison may have seen.
    pub fn earliest_timestamp(&self) -> (earliest: &Ts)
        ensures
            *earliest == self@.earliest,
    {
        &self.earliest_timestamp
    }

    /// Returns the number of entries.
    pub fn len(&self) -> (len: usize)
        ensures
            len == self.paths().len(),
    {
        self.entries.len()
    }

    /// Returns the entry at `index` in the order of the paths, where there
    /// is one.
    pub fn entry(&self, index: usize) -> (entry: Option<(&str, &MetaEntryDiff<Ts>)>)
        ensures
            entry is Some <==> index < self.paths().len(),
            entry matches Some(found) ==> found.0@ == self.paths()[index as int] && *found.1
                == self.diffs()[index as int],
    {
        if index < self.entries.len() {
            Some((self.entries[index].0.as_str(), &self.entries[index].1))
        } else {
            None
        }
    }

    /// Hands out the earliest timestamp and the entries, in the order of
    /// their paths.
    pub fn into_parts(self) -> (parts: (Ts, Vec<(String, MetaEntryDiff<Ts>)>))
        ensures
            parts.0 == self@.earliest,
            listed_paths(parts.1@) == self.paths(),
            listed_diffs(parts.1@) == self.diffs(),
            strictly_sorted(listed_paths(parts.1@)),
    {
        proof {
            use_type_invariant(&self);
        }
        (self.earliest_timestamp, self.entries)
    }

    /// Finds where `path` is, or where the order has it.
    fn locate(&self, path: &[u8]) -> (place: (usize, bool))
        ensures
            place.0 <= self.paths().len(),
            forall|i: int|
                0 <= i < place.0 ==> bytes_lt(encode_utf8(#[trigger] self.paths()[i]), path@),
            place.1 ==> place.0 < self.paths().len() && encode_utf8(self.paths()[place.0 as int])
                == path@,
            forall|i: int|
                place.0 + (if place.1 { 1int } else { 0int }) <= i < self.paths().len()
                    ==> bytes_lt(path@, encode_utf8(#[trigger] self.paths()[i])),
    {
        proof {
            use_type_invariant(self);
        }
        let mut low: usize = 0;
        let mut high: usize = self.entries.len();
        while low < high
            invariant
                low <= high <= self.paths().len(),
                self.paths().len() == self.entries@.len(),
                strictly_sorted(self.paths()),
                forall|i: int|
                    0 <= i < low ==> bytes_lt(encode_utf8(#[trigger] self.paths()[i]), path@),
                forall|i: int|
                    high <= i < self.paths().len() ==> bytes_lt(
                        path@,
                        encode_utf8(#[trigger] self.paths()[i]),
                    ),
            decreases high - low,
        {
            let middle = low + (high - low) / 2;
            let here = self.entries[middle].0.as_str().as_bytes();
            assert(here@ == encode_utf8(self.paths()[middle as int]));
            match compare_bytes(here, path) {
                Order::Less => {
                    assert forall|i: int| 0 <= i < middle + 1 implies bytes_lt(
                        encode_utf8(#[trigger] self.paths()[i]),
                        path@,
                    ) by {
                        if i < middle {
                            lemma_lt_transitive(encode_utf8(self.paths()[i]), here@, path@);
                        }
                    }
                    low = middle + 1;
                },
                Order::Greater => {
                    assert forall|i: int| middle <= i < self.paths().len() implies bytes_lt(
                        path@,
                        encode_utf8(#[trigger] self.paths()[i]),
                    ) by {
                        if middle < i {
                            lemma_lt_transitive(path@, here@, encode_utf8(self.paths()[i]));
                        }
                    }
                    high = middle;
                },
                Order::Equal => {
                    return (middle, true);
                },
            }
        }
        (low, false)
    }

    /// Returns the diff under `path`, if there is one.
    pub fn get(&self, path: &str) -> (diff: Option<&MetaEntryDiff<Ts>>)
        ensures
            diff is Some <==> self@.changes.contains_key(path@),
            diff matches Some(found) ==> *found == self@.changes[path@],
    {
        proof {
            use_type_invariant(self);
        }
        let place = self.locate(path.as_bytes());
        if place.1 {
            proof {
                lemma_same_bytes(self.paths()[place.0 as int], path@);
                lemma_sorted_index(self.paths(), place.0 as int);
            }
            Some(&self.entries[place.0].1)
        } else {
            proof {
                if self.paths().contains(path@) {
                    let k = self.paths().index_of(path@);
                    assert(self.paths()[k] == path@);
                    lemma_lt_irreflexive(encode_utf8(path@));
                }
            }
            None
        }
    }

    /// Puts `diff` under `path`. Where `path` had a diff, the new one takes
    /// its place and the old one is returned.
    pub fn insert(&mut self, path: String, diff: MetaEntryDiff<Ts>) -> (previous: Option<
        MetaEntryDiff<Ts>,
    >)
        ensures
            final(self).wf(),
            final(self)@.changes == old(self)@.changes.insert(path@, diff),
            final(self)@.earliest == old(self)@.earliest,
            previous is Some <==> old(self)@.changes.contains_key(path@),
            previous matches Some(replaced) ==> replaced == old(self)@.changes[path@],
    {
        proof {
            use_type_invariant(&*self);
        }
        let place = self.locate(path.as_str().as_bytes());
        let at = place.0;
        let ghost paths = self.paths();
        let ghost diffs = self.diffs();
        let mut entries: Vec<(String, MetaEntryDiff<Ts>)> = Vec::new();
        std::mem::swap(&mut self.entries, &mut entries);
        assert(paths == listed_paths(entries@) && diffs == listed_diffs(entries@));
        let previous = if place.1 {
            proof {
                lemma_same_bytes(paths[at as int], path@);
                lemma_sorted_index(paths, at as int);
                lemma_map_of_update(paths, diffs, at as int, diff);
            }
            let replaced = entries.remove(at);
            entries.insert(at, (replaced.0, diff));
            assert(listed_paths(entries@) =~= paths);
            assert(listed_diffs(entries@) =~= diffs.update(at as int, diff));
            Some(replaced.1)
        } else {
            proof {
                let new_paths = paths.insert(at as int, path@);
                assert forall|i: int, j: int| 0 <= i < j < new_paths.len() implies bytes_lt(
                    encode_utf8(#[trigger] new_paths[i]),
                    encode_utf8(#[trigger] new_paths[j]),
                ) by {
                    if i < at && j > at {
                        assert(new_paths[i] == paths[i]);
                        assert(new_paths[j] == paths[j - 1]);
                    } else if i < at && j < at {
                        assert(new_paths[i] == paths[i]);
                        assert(new_paths[j] == paths[j]);
                    } else if i < at && j == at {
                        assert(new_paths[i] == paths[i]);
                    } else if i == at {
                        assert(new_paths[j] == paths[j - 1]);
                    } else {
                        assert(new_paths[i] == paths[i - 1]);
                        assert(new_paths[j] == paths[j - 1]);
                    }
                }
                lemma_map_of_insert(paths, diffs, at as int, path@, diff);
                if paths.contains(path@) {
                    let k = paths.index_of(path@);
                    assert(paths[k] == path@);
                    lemma_lt_irreflexive(encode_utf8(path@));
                }
            }
            entries.insert(at, (path, diff));
            assert(listed_paths(entries@) =~= paths.insert(at as int, path@));
            assert(listed_diffs(entries@) =~= diffs.insert(at as int, diff));
            None
        };
        std::mem::swap(&mut self.entries, &mut entries);
        previous
    }
}

impl<Ts> Changeset<Ts> {
    /// Whether `mapped` is a possible result of applying `f` to the earliest
    /// timestamp of `self` and to every timestamp of every diff: it has the
    /// same paths in the same order and under each of them the diff of
    /// `self` with its timestamps mapped.
    pub open spec fn transforms_to<NewTs, F: Fn(&Ts) -> NewTs>(
        &self,
        f: F,
        mapped: Changeset<NewTs>,
    ) -> bool {
        &&& call_ensures(f, (&self@.earliest,), mapped@.earliest)
        &&& mapped.paths() == self.paths()
        &&& mapped.diffs().len() == self.diffs().len()
        &&& forall|i: int|
            0 <= i < self.diffs().len() ==> (#[trigger] self.diffs()[i]).transforms_to(
                f,
                mapped.diffs()[i],
            )
    }

    /// Applies `f` to the earliest timestamp and to every timestamp of every
    /// diff, each on its own, and keeps the rest: the paths and their order.
    pub fn transform_timestamps<NewTs, F: Fn(&Ts) -> NewTs>(&self, f: F) -> (mapped: Changeset<
        NewTs,
    >)
        requires
            total(f),
        ensures
            mapped.wf(),
            self.transforms_to(f, mapped),
            call_ensures(f, (&self@.earliest,), mapped@.earliest),
            mapped@.changes.dom() == self@.changes.dom(),
            forall|path: Seq<char>|
                self@.changes.contains_key(path) ==> (#[trigger] self@.changes[path]).transforms_to(
                    f,
                    mapped@.changes[path],
                ),
    {
        proof {
            use_type_invariant(self);
        }
        let earliest_timestamp = f(&self.earliest_timestamp);
        let mut entries: Vec<(String, MetaEntryDiff<NewTs>)> = Vec::new();
        let mut i: usize = 0;
        while i < self.entries.len()
            invariant
                i <= self.entries@.len(),
                total(f),
                entries@.len() == i,
                forall|j: int| 0 <= j < i ==> (#[trigger] entries@[j]).0@ == self.entries@[j].0@,
                forall|j: int|
                    0 <= j < i ==> self.entries@[j].1.transforms_to(f, (#[trigger] entries@[j]).1),
            decreases self.entries@.len() - i,
        {
            let path = self.entries[i].0.clone();
            let diff = self.entries[i].1.transform_timestamps_by(&f);
            entries.push((path, diff));
            i += 1;
        }
        assert(listed_paths(entries@) =~= self.paths());
        let mapped = Changeset { earliest_timestamp, entries };
        proof {
            self.lemma_transformed(f, mapped);
        }
        mapped
    }

    /// A changeset with mapped timestamps has the diffs of the first under
    /// the paths of the first.
    pub proof fn lemma_transformed<NewTs, F: Fn(&Ts) -> NewTs>(
        &self,
        f: F,
        mapped: Changeset<NewTs>,
    )
        requires
            self.wf(),
            self.transforms_to(f, mapped),
        ensures
            mapped.wf(),
            mapped@.changes.dom() == self@.changes.dom(),
            forall|path: Seq<char>|
                self@.changes.contains_key(path) ==> (#[trigger] self@.changes[path]).transforms_to(
                    f,
                    mapped@.changes[path],
                ),
    {
        assert(mapped@.changes.dom() =~= self@.changes.dom());
        assert forall|path: Seq<char>| self@.changes.contains_key(path) implies (#[trigger] self@.changes[path])
            .transforms_to(f, mapped@.changes[path]) by {
            let k = self.paths().index_of(path);
            assert(self.paths()[k] == path);
            assert(self.diffs()[k].transforms_to(f, mapped.diffs()[k]));
        }
    }

    /// With a function that gives one result only for each timestamp,
    /// mapping the timestamps of the same changeset twice gives the same
    /// earliest timestamp and the same paths twice.
    pub proof fn lemma_transform_deterministic<NewTs, F: Fn(&Ts) -> NewTs>(
        &self,
        f: F,
        first: Changeset<NewTs>,
        second: Changeset<NewTs>,
    )
        requires
            deterministic(f),
            self.transforms_to(f, first),
            self.transforms_to(f, second),
        ensures
            first@.earliest == second@.earliest,
            first.paths() == second.paths(),
            first.diffs().len() == second.diffs().len(),
    {
    }

    /// Two changesets that hold the same diffs under the same paths hand
    /// out the same entries in the same order, however they were built.
    pub proof fn lemma_order_is_determined(&self, other: &Changeset<Ts>)
        requires
            self.wf(),
            other.wf(),
            self@.changes == other@.changes,
        ensures
            self.paths() == other.paths(),
            self.diffs() == other.diffs(),
    {
        lemma_sorted_lists_equal(self.paths(), self.diffs(), other.paths(), other.diffs());
    }

    /// Putting two diffs under two different paths in either order gives
    /// the same entries in the same order.
    pub proof fn lemma_insertion_order(
        start: Map<Seq<char>, MetaEntryDiff<Ts>>,
        first: &Changeset<Ts>,
        second: &Changeset<Ts>,
        path: Seq<char>,
        diff: MetaEntryDiff<Ts>,
        other_path: Seq<char>,
        other_diff: MetaEntryDiff<Ts>,
    )
        requires
            first.wf(),
            second.wf(),
            path != other_path,
            first@.changes == start.insert(path, diff).insert(other_path, other_diff),
            second@.changes == start.insert(other_path, other_diff).insert(path, diff),
        ensures
            first.paths() == second.paths(),
            first.diffs() == second.diffs(),
    {
        assert(first@.changes =~= second@.changes);
        first.lemma_order_is_determined(second);
    }
}

impl<Ts: Clone> Clone for Changeset<Ts> {
    /// A copy says the same, with a clone of each timestamp, the earliest
    /// among them.
    fn clone(&self) -> (copy: Self)
        ensures
            self.transforms_to(Ts::clone, copy),
    {
        self.transform_timestamps(Ts::clone)
    }
}

/// Two paths with the same bytes are the same path.
pub proof fn lemma_same_bytes(path: Seq<char>, other: Seq<char>)
    requires
        encode_utf8(path) == encode_utf8(other),
    ensures
        path == other,
{
    vstd::utf8::encode_utf8_decode_utf8(path);
    vstd::utf8::encode_utf8_decode_utf8(other);
}

} // verus!
