//! Ordered storage: entries kept strictly ascending by a numeric key, looked up by
//! binary search and extended by insertion at the position the search reports.

use vstd::prelude::*;

verus! {

/// An entry that is ordered and found again by a numeric key.
pub trait Keyed {
    /// The key the entry is stored under.
    spec fn key_of(&self) -> u64;

    /// Reads the key.
    fn key(&self) -> (k: u64)
        ensures
            k == self.key_of(),
    ;
}

/// The keys of a sequence of entries, in order.
pub open spec fn keys_of<T: Keyed>(entries: Seq<T>) -> Seq<u64> {
    entries.map_values(|e: T| e.key_of())
}

/// Strictly ascending: sorted, and no key occurs twice.
pub open spec fn strictly_sorted(keys: Seq<u64>) -> bool {
    forall|i: int, j: int| 0 <= i < j < keys.len() ==> keys[i] < keys[j]
}

/// How many of `keys` are smaller than `key`. In a strictly ascending sequence this is
/// the position of `key` if it is present, and the position that keeps the order if
/// it is not.
pub open spec fn rank(keys: Seq<u64>, key: u64) -> nat
    decreases keys.len(),
{
    if keys.len() == 0 {
        0
    } else {
        rank(keys.drop_last(), key) + if keys.last() < key {
            1nat
        } else {
            0nat
        }
    }
}

/// The outcome of a lookup.
#[derive(Clone, Copy, Debug, PartialEq, Eq, Structural)]
pub enum Located {
    /// The key is stored at this position.
    Found(usize),
    /// The key is not stored; inserting it at this position keeps the order.
    NotFound(usize),
}

/// What a lookup of `key` in `keys` reports.
pub open spec fn located(keys: Seq<u64>, key: u64) -> Located {
    if keys.contains(key) {
        Located::Found(rank(keys, key) as usize)
    } else {
        Located::NotFound(rank(keys, key) as usize)
    }
}

/// The rank never exceeds the length.
pub proof fn lemma_rank_bounds(keys: Seq<u64>, key: u64)
    ensures
        rank(keys, key) <= keys.len(),
    decreases keys.len(),
{
    if keys.len() > 0 {
        lemma_rank_bounds(keys.drop_last(), key);
    }
}

/// A position that splits the keys into those below `key` and those not below it is
/// the rank of `key`.
pub proof fn lemma_rank_at_boundary(keys: Seq<u64>, key: u64, i: int)
    requires
        0 <= i <= keys.len(),
        forall|j: int| 0 <= j < i ==> keys[j] < key,
        forall|j: int| i <= j < keys.len() ==> keys[j] >= key,
    ensures
        rank(keys, key) == i,
    decreases keys.len(),
{
    if keys.len() > 0 {
        let front = keys.drop_last();
        if i == keys.len() {
            lemma_rank_at_boundary(front, key, i - 1);
        } else {
            lemma_rank_at_boundary(front, key, i);
        }
    }
}

/// In a strictly ascending sequence the rank of `key` splits the keys: those before it
/// are smaller than `key`, those from it on are not.
pub proof fn lemma_rank_splits(keys: Seq<u64>, key: u64)
    requires
        strictly_sorted(keys),
    ensures
        rank(keys, key) <= keys.len(),
        forall|j: int| 0 <= j < rank(keys, key) ==> keys[j] < key,
        forall|j: int| rank(keys, key) <= j < keys.len() ==> keys[j] >= key,
    decreases keys.len(),
{
    if keys.len() > 0 {
        let front = keys.drop_last();
        let last = keys.len() - 1;
        assert(strictly_sorted(front)) by {
            assert forall|i: int, j: int| 0 <= i < j < front.len() implies front[i] < front[j] by {
                assert(keys[i] < keys[j]);
            }
        }
        lemma_rank_splits(front, key);
        let r = rank(front, key) as int;
        if keys[last] < key {
            if r < front.len() {
                assert(front[r] >= key);
                assert(keys[r] < keys[last]);
            }
            assert(rank(keys, key) == keys.len());
            assert forall|j: int| 0 <= j < keys.len() implies keys[j] < key by {
                if j < last {
                    assert(keys[j] < keys[last]);
                }
            }
        } else {
            assert(rank(keys, key) == r);
            assert forall|j: int| 0 <= j < r implies keys[j] < key by {
                assert(front[j] < key);
            }
            assert forall|j: int| r <= j < keys.len() implies keys[j] >= key by {
                if j < last {
                    assert(front[j] >= key);
                }
            }
        }
    }
}

/// A key that is present in a strictly ascending sequence sits at its rank.
pub proof fn lemma_rank_of_member(keys: Seq<u64>, i: int)
    requires
        strictly_sorted(keys),
        0 <= i < keys.len(),
    ensures
        rank(keys, keys[i]) == i,
{
    lemma_rank_at_boundary(keys, keys[i], i);
}

/// Inserting an absent key at its rank keeps the sequence strictly ascending.
pub proof fn lemma_insert_keeps_sorted(keys: Seq<u64>, key: u64)
    requires
        strictly_sorted(keys),
        !keys.contains(key),
    ensures
        strictly_sorted(keys.insert(rank(keys, key) as int, key)),
{
    lemma_rank_splits(keys, key);
    let r = rank(keys, key) as int;
    let after = keys.insert(r, key);
    assert forall|i: int, j: int| 0 <= i < j < after.len() implies after[i] < after[j] by {
        if j < r {
            assert(after[i] == keys[i] && after[j] == keys[j]);
        } else if j == r {
            assert(after[i] == keys[i]);
        } else if i == r {
            assert(after[j] == keys[j - 1]);
            assert(keys.contains(keys[j - 1]));
        } else if i < r {
            assert(after[i] == keys[i] && after[j] == keys[j - 1]);
        } else {
            assert(after[i] == keys[i - 1] && after[j] == keys[j - 1]);
        }
    }
}

/// Binary search for `key` among entries that are strictly ascending by key.
pub fn locate<T: Keyed>(entries: &Vec<T>, key: u64) -> (r: Located)
    requires
        strictly_sorted(keys_of(entries@)),
    ensures
        r == located(keys_of(entries@), key),
        match r {
            Located::Found(i) => i < entries.len() && entries[i as int].key_of() == key,
            Located::NotFound(i) => i <= entries.len() && !keys_of(entries@).contains(key),
        },
{
    let ghost keys = keys_of(entries@);
    let mut lo: usize = 0;
    let mut hi: usize = entries.len();
    while lo < hi
        invariant
            keys == keys_of(entries@),
            strictly_sorted(keys),
            lo <= hi <= entries.len(),
            forall|j: int| 0 <= j < lo ==> keys[j] < key,
            forall|j: int| hi <= j < keys.len() ==> keys[j] > key,
        decreases hi - lo,
    {
        let mid = lo + (hi - lo) / 2;
        let k = entries[mid].key();
        assert(k == keys[mid as int]);
        if k == key {
            proof {
                lemma_rank_of_member(keys, mid as int);
                assert(keys.contains(key));
            }
            return Located::Found(mid);
        } else if k < key {
            lo = mid + 1;
        } else {
            hi = mid;
        }
    }
    proof {
        lemma_rank_at_boundary(keys, key, lo as int);
        assert(!keys.contains(key)) by {
            if keys.contains(key) {
                let w = choose|w: int| 0 <= w < keys.len() && keys[w] == key;
                assert(keys[w] == key);
            }
        }
    }
    Located::NotFound(lo)
}

/// Whether the entries are strictly ascending by key.
pub fn is_strictly_sorted<T: Keyed>(entries: &Vec<T>) -> (sorted: bool)
    ensures
        sorted == strictly_sorted(keys_of(entries@)),
{
    let ghost keys = keys_of(entries@);
    if entries.len() < 2 {
        return true;
    }
    let mut i: usize = 1;
    let mut previous: u64 = entries[0].key();
    while i < entries.len()
        invariant
            keys == keys_of(entries@),
            1 <= i <= entries.len(),
            previous == keys[i - 1],
            forall|a: int, b: int| 0 <= a < b < i ==> keys[a] < keys[b],
        decreases entries.len() - i,
    {
        let current = entries[i].key();
        if previous >= current {
            assert(!(keys[i - 1] < keys[i as int]));
            return false;
        }
        assert forall|a: int, b: int| 0 <= a < b < i + 1 implies keys[a] < keys[b] by {
            if b == i && a < i - 1 {
                assert(keys[a] < keys[i - 1]);
            }
        }
        previous = current;
        i += 1;
    }
    true
}

/// Stores `entry` at `index`, moving the entries from `index` on one place to the right.
pub fn insert<T: Keyed>(entries: &mut Vec<T>, index: usize, entry: T)
    requires
        index <= old(entries).len(),
    ensures
        final(entries)@ == old(entries)@.insert(index as int, entry),
        keys_of(final(entries)@) == keys_of(old(entries)@).insert(index as int, entry.key_of()),
        strictly_sorted(keys_of(old(entries)@)) && located(
            keys_of(old(entries)@),
            entry.key_of(),
        ) == Located::NotFound(index) ==> strictly_sorted(keys_of(final(entries)@)),
{
    let ghost before = keys_of(entries@);
    entries.insert(index, entry);
    proof {
        assert(keys_of(entries@) =~= before.insert(index as int, entry.key_of()));
        if strictly_sorted(before) && located(before, entry.key_of()) == Located::NotFound(index) {
            lemma_rank_bounds(before, entry.key_of());
            lemma_insert_keeps_sorted(before, entry.key_of());
        }
    }
}

} // verus!
