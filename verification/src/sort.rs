//! Ordering a list of entries by their distance to a point of the map.
//!
//! Distances on the globe are measured outside this crate and handed in, one
//! for each entry. An entry without a valid position counts as infinitely far
//! away, whatever was measured for it, and so does every entry when the
//! point itself is not valid. Entries that are equally far away keep the
//! order they had.

use vstd::prelude::*;
use crate::entry::Entry;
use crate::geo::{Distance, MapPoint};

verus! {

/// The distance by which the entry at position `i` is ordered: the measured
/// one where the entry and the centre have valid positions and a distance
/// was handed in for the entry, and infinite otherwise.
pub open spec fn sort_key(
    entries: Seq<Entry>,
    center: MapPoint,
    measured: Seq<Distance>,
    i: int,
) -> u64 {
    if center.is_valid() && entries[i].location.pos.is_valid() && i < measured.len() {
        measured[i].millimetres
    } else {
        u64::MAX
    }
}

/// The distances by which the entries are ordered, position by position.
pub open spec fn sort_keys(entries: Seq<Entry>, center: MapPoint, measured: Seq<Distance>) -> Seq<
    u64,
> {
    Seq::new(entries.len(), |i: int| sort_key(entries, center, measured, i))
}

/// Whether the item at position `a` comes before the item at position `b`
/// when the items are ordered by their keys and equal keys keep their order.
pub open spec fn precedes(keys: Seq<u64>, a: int, b: int) -> bool {
    keys[a] < keys[b] || (keys[a] == keys[b] && a < b)
}

/// `order` lists the positions `0 .. keys.len()` by ascending key, positions
/// with equal keys in ascending order: it is the stable sort of the
/// positions.
pub open spec fn is_stable_order(order: Seq<int>, keys: Seq<u64>) -> bool {
    &&& order.len() == keys.len()
    &&& forall|k: int| 0 <= k < order.len() ==> 0 <= #[trigger] order[k] < keys.len()
    &&& forall|a: int, b: int|
        0 <= a < b < order.len() ==> precedes(keys, #[trigger] order[a], #[trigger] order[b])
}

/// The items of `items` in the order that `order` lists their positions in.
pub open spec fn reordered<A>(items: Seq<A>, order: Seq<int>) -> Seq<A> {
    Seq::new(order.len(), |k: int| items[order[k]])
}

/// Whether `sorted` holds the entries of `entries`, ordered by ascending
/// distance to `center`, equally distant entries in the order they had.
pub open spec fn is_sorted_by_distance(
    sorted: Seq<Entry>,
    entries: Seq<Entry>,
    center: MapPoint,
    measured: Seq<Distance>,
) -> bool {
    exists|order: Seq<int>|
        #![auto]
        is_stable_order(order, sort_keys(entries, center, measured)) && sorted == reordered(
            entries,
            order,
        )
}

/// A sequence after the item at `from` was taken out and put in again at
/// `to`, a position not behind `from`.
proof fn lemma_moved_forward<A>(s: Seq<A>, from: int, to: int)
    requires
        0 <= to <= from < s.len(),
    ensures
        s.remove(from).insert(to, s[from]).len() == s.len(),
        forall|k: int| 0 <= k < to ==> #[trigger] s.remove(from).insert(to, s[from])[k] == s[k],
        s.remove(from).insert(to, s[from])[to] == s[from],
        forall|k: int|
            to < k <= from ==> #[trigger] s.remove(from).insert(to, s[from])[k] == s[k - 1],
        forall|k: int|
            from < k < s.len() ==> #[trigger] s.remove(from).insert(to, s[from])[k] == s[k],
{
    s.remove_ensures(from);
    s.remove(from).insert_ensures(to, s[from]);
}

/// Lists that can be put in order of the distance of their entries to a
/// point.
pub trait SortByDistanceTo {
    /// The entries that the list holds.
    spec fn entries(&self) -> Seq<Entry>;

    /// Orders the entries by ascending distance to `center`, where
    /// `measured` holds, position by position, the distance measured from
    /// each entry to `center`. Entries at the same distance keep their
    /// order; with a `center` that is not valid the list is left as it is.
    fn sort_by_distance_to(&mut self, center: &MapPoint, measured: &[Distance])
        ensures
            is_sorted_by_distance(
                final(self).entries(),
                old(self).entries(),
                *center,
                measured@,
            ),
            !center.is_valid() ==> final(self).entries() == old(self).entries(),
    ;
}

/// The distance that an entry is ordered by, of `measured`, the distance
/// measured from it to `center`.
pub fn distance_to(entry: &Entry, center: &MapPoint, measured: Distance) -> (d: Distance)
    ensures
        d == if center.is_valid() && entry.location.pos.is_valid() {
            measured
        } else {
            (Distance { millimetres: u64::MAX })
        },
{
    if center.is_valid() && entry.location.pos.is_valid() {
        measured
    } else {
        Distance::infinite()
    }
}

/// The distances that the entries are ordered by.
fn keys_of(entries: &Vec<Entry>, center: &MapPoint, measured: &[Distance]) -> (keys: Vec<u64>)
    ensures
        keys@ == sort_keys(entries@, *center, measured@),
{
    let mut keys: Vec<u64> = Vec::new();
    let mut i: usize = 0;
    while i < entries.len()
        invariant
            i <= entries.len(),
            keys@.len() == i,
            forall|k: int| 0 <= k < i ==> keys@[k] == sort_key(entries@, *center, measured@, k),
        decreases entries.len() - i,
    {
        let key = if i < measured.len() {
            distance_to(&entries[i], center, measured[i]).millimetres
        } else {
            u64::MAX
        };
        keys.push(key);
        i = i + 1;
    }
    proof {
        assert(keys@ =~= sort_keys(entries@, *center, measured@));
    }
    keys
}

impl SortByDistanceTo for Vec<Entry> {
    open spec fn entries(&self) -> Seq<Entry> {
        self@
    }

    fn sort_by_distance_to(&mut self, center: &MapPoint, measured: &[Distance]) {
        let ghost before = self@;
        let ghost keys0 = sort_keys(before, *center, measured@);
        let n = self.len();
        let ghost mut order: Seq<int> = Seq::new(n as nat, |k: int| k);
        if !center.is_valid() {
            proof {
                assert(is_stable_order(order, keys0));
                assert(self@ =~= reordered(before, order));
            }
            return ;
        }
        let mut keys = keys_of(self, center, measured);
        let mut i: usize = 0;
        while i < n
            invariant
                i <= n,
                n == before.len(),
                self@.len() == n,
                keys@.len() == n,
                order.len() == n,
                keys0 == sort_keys(before, *center, measured@),
                forall|k: int| 0 <= k < n ==> 0 <= #[trigger] order[k] < n,
                forall|k: int| 0 <= k < n ==> self@[k] == before[#[trigger] order[k]],
                forall|k: int| 0 <= k < n ==> keys@[k] == keys0[#[trigger] order[k]],
                forall|k: int| 0 <= k < i ==> #[trigger] order[k] < i,
                forall|k: int| i <= k < n ==> #[trigger] order[k] == k,
                forall|a: int, b: int|
                    0 <= a < b < i ==> precedes(keys0, #[trigger] order[a], #[trigger] order[b]),
            decreases n - i,
        {
            let key = keys[i];
            let mut j: usize = i;
            while j > 0 && keys[j - 1] > key
                invariant
                    j <= i < n,
                    keys@.len() == n,
                    key == keys@[i as int],
                    forall|k: int| j <= k < i ==> keys@[k] > key,
                decreases j,
            {
                j = j - 1;
            }
            if j < i {
                let ghost order1 = order;
                let ghost keys1 = keys@;
                let ghost items1 = self@;
                let entry = self.remove(i);
                self.insert(j, entry);
                let k = keys.remove(i);
                keys.insert(j, k);
                proof {
                    order = order1.remove(i as int).insert(j as int, order1[i as int]);
                    lemma_moved_forward(order1, i as int, j as int);
                    lemma_moved_forward(keys1, i as int, j as int);
                    lemma_moved_forward(items1, i as int, j as int);
                    assert forall|a: int, b: int| 0 <= a < b < i + 1 implies precedes(
                        keys0,
                        #[trigger] order[a],
                        #[trigger] order[b],
                    ) by {
                        if b < j {
                        } else if b == j {
                            assert(keys1[j - 1] <= key);
                            if a < j - 1 {
                                assert(precedes(keys0, order1[a], order1[j - 1]));
                            }
                            assert(order1[a] < i);
                        } else {
                            if a < j {
                                assert(precedes(keys0, order1[a], order1[b - 1]));
                            } else if a == j {
                                assert(keys1[b - 1] > key);
                            } else {
                                assert(precedes(keys0, order1[a - 1], order1[b - 1]));
                            }
                        }
                    }
                }
            } else {
                proof {
                    assert forall|a: int, b: int| 0 <= a < b < i + 1 implies precedes(
                        keys0,
                        #[trigger] order[a],
                        #[trigger] order[b],
                    ) by {
                        if b == i {
                            assert(order[a] < i);
                            if a == i - 1 {
                                assert(keys@[a] <= key);
                            } else {
                                assert(precedes(keys0, order[a], order[i - 1]));
                                assert(keys@[i - 1] <= key);
                            }
                        }
                    }
                }
            }
            i = i + 1;
        }
        proof {
            assert(is_stable_order(order, keys0));
            assert(self@ =~= reordered(before, order));
        }
    }
}

/// In a list ordered by distance, no entry that counts as infinitely far
/// away stands before one that does not. So the entries without a valid
/// position stand behind those with one, where the distance measured for
/// each entry with a valid position is finite.
pub proof fn lemma_infinite_distances_last(
    sorted: Seq<Entry>,
    entries: Seq<Entry>,
    center: MapPoint,
    measured: Seq<Distance>,
    a: int,
    b: int,
)
    requires
        is_sorted_by_distance(sorted, entries, center, measured),
        center.is_valid(),
        measured.len() >= entries.len(),
        forall|i: int|
            0 <= i < entries.len() && entries[i].location.pos.is_valid() ==> !(
            #[trigger] measured[i]).is_infinite(),
        0 <= a < b < sorted.len(),
        sorted[b].location.pos.is_valid(),
    ensures
        sorted[a].location.pos.is_valid(),
{
    let keys = sort_keys(entries, center, measured);
    let order = choose|order: Seq<int>|
        #![auto]
        is_stable_order(order, keys) && sorted == reordered(entries, order);
    assert(precedes(keys, order[a], order[b]));
    assert(sorted[a] == entries[order[a]]);
    assert(sorted[b] == entries[order[b]]);
    assert(keys[order[b]] == measured[order[b]].millimetres);
}

} // verus!
