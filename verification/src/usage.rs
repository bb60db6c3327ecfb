//! The tally of candidate indent widths observed in one detection call.
//!
//! Each candidate width owns a pair of counters, `used` and `weight`, which
//! start at zero and are always incremented together; the selection rule
//! prefers the higher `used` and breaks a tie by the higher `weight`, so with
//! the counters kept equal an exact tie resolves to the entry recorded
//! earliest. Entries are kept in the order their widths were first seen, so
//! the selection is deterministic: on an exact tie the width first seen in
//! the document wins.

use vstd::prelude::*;

verus! {

/// The counters of one candidate indent width.
#[derive(Debug, Clone, Copy, PartialEq, Eq, Structural)]
pub struct Usage {
    pub used: usize,
    pub weight: usize,
}

/// A tally from candidate indent widths to their counters, in first-seen
/// order. Its view is the sequence of `(width, used, weight)` triples.
pub struct UsageMap {
    entries: Vec<(usize, Usage)>,
}

impl View for UsageMap {
    type V = Seq<(int, int, int)>;

    closed spec fn view(&self) -> Seq<(int, int, int)> {
        self.entries@.map_values(
            (|e: (usize, Usage)| (e.0 as int, e.1.used as int, e.1.weight as int)),
        )
    }
}

/// The index of the first entry for `key`, or `entries.len()` when there is
/// none.
pub open spec fn find_key(entries: Seq<(int, int, int)>, key: int) -> int
    decreases entries.len(),
{
    if entries.len() == 0 {
        0
    } else if entries[0].0 == key {
        0
    } else {
        1 + find_key(entries.drop_first(), key)
    }
}

/// The tally after storing the counters `(used, weight)` for `key`: the
/// first entry for `key` is replaced, or a new entry is appended.
pub open spec fn spec_insert(
    entries: Seq<(int, int, int)>,
    key: int,
    used: int,
    weight: int,
) -> Seq<(int, int, int)> {
    let i = find_key(entries, key);
    if i < entries.len() {
        entries.update(i, (key, used, weight))
    } else {
        entries.push((key, used, weight))
    }
}

/// The tally after one observation of `key`: both counters of its entry grow
/// by one, a missing entry starting from zero.
pub open spec fn bump(entries: Seq<(int, int, int)>, key: int) -> Seq<(int, int, int)> {
    let i = find_key(entries, key);
    if i < entries.len() {
        entries.update(i, (key, entries[i].1 + 1, entries[i].2 + 1))
    } else {
        entries.push((key, 1, 1))
    }
}

/// The `(result, max_used, max_weight)` accumulator of the selection scan
/// after reading `entries` in order, starting from `(0, 0, 0)`. An entry
/// takes the lead only when its `used` is strictly higher, or equal with a
/// strictly higher `weight`.
pub open spec fn selection_state(entries: Seq<(int, int, int)>) -> (int, int, int)
    decreases entries.len(),
{
    if entries.len() == 0 {
        (0, 0, 0)
    } else {
        let p = selection_state(entries.drop_last());
        let e = entries.last();
        if e.1 > p.1 || (e.1 == p.1 && e.2 > p.2) {
            (e.0, e.1, e.2)
        } else {
            p
        }
    }
}

/// The most-used candidate width of a tally, `0` when the tally is empty.
pub open spec fn most_used_spec(entries: Seq<(int, int, int)>) -> int {
    selection_state(entries).0
}

/// Every counter of the tally lies at or below `bound`.
pub open spec fn counters_below(entries: Seq<(int, int, int)>, bound: int) -> bool {
    forall|j: int|
        0 <= j < entries.len() ==> ((#[trigger] entries[j]).1 <= bound && entries[j].2 <= bound)
}

/// `find_key` lies within the tally and names the first entry for `key`:
/// no entry before it carries `key`, and the entry there does.
pub proof fn lemma_find_key_bounds(entries: Seq<(int, int, int)>, key: int)
    ensures
        0 <= find_key(entries, key) <= entries.len(),
        forall|j: int| 0 <= j < find_key(entries, key) ==> (#[trigger] entries[j]).0 != key,
        find_key(entries, key) < entries.len() ==> entries[find_key(entries, key)].0 == key,
    decreases entries.len(),
{
    if entries.len() == 0 {
    } else if entries[0].0 == key {
    } else {
        lemma_find_key_bounds(entries.drop_first(), key);
        assert forall|j: int| 0 <= j < find_key(entries, key) implies (#[trigger] entries[j]).0
            != key by {
            if j > 0 {
                assert(entries.drop_first()[j - 1].0 != key);
            }
        }
        if find_key(entries, key) < entries.len() {
            assert(entries[find_key(entries, key)]
                == entries.drop_first()[find_key(entries.drop_first(), key)]);
        }
    }
}

/// An index before which no entry carries `key`, and at which one does or
/// the tally ends, is exactly `find_key`.
pub proof fn lemma_find_key_unique(entries: Seq<(int, int, int)>, key: int, k: int)
    requires
        0 <= k <= entries.len(),
        forall|j: int| 0 <= j < k ==> (#[trigger] entries[j]).0 != key,
        k < entries.len() ==> entries[k].0 == key,
    ensures
        find_key(entries, key) == k,
{
    lemma_find_key_bounds(entries, key);
    if find_key(entries, key) < k {
        assert(entries[find_key(entries, key)].0 != key);
    } else if find_key(entries, key) > k {
        assert(entries[k].0 != key);
    }
}

/// The selected width is zero or the width of some entry of the tally.
pub proof fn lemma_most_used_in_keys(entries: Seq<(int, int, int)>)
    ensures
        most_used_spec(entries) == 0 || exists|j: int|
            0 <= j < entries.len() && (#[trigger] entries[j]).0 == most_used_spec(entries),
    decreases entries.len(),
{
    if entries.len() == 0 {
    } else {
        lemma_most_used_in_keys(entries.drop_last());
        let p = selection_state(entries.drop_last());
        let e = entries.last();
        if e.1 > p.1 || (e.1 == p.1 && e.2 > p.2) {
            assert(entries[entries.len() - 1].0 == most_used_spec(entries));
        } else {
            if p.0 != 0 {
                let j = choose|j: int|
                    0 <= j < entries.drop_last().len() && (#[trigger] entries.drop_last()[j]).0
                        == p.0;
                assert(entries[j].0 == most_used_spec(entries));
            }
        }
    }
}

impl UsageMap {
    /// An empty tally.
    pub fn new() -> (r: UsageMap)
        ensures
            r@ == Seq::<(int, int, int)>::empty(),
    {
        let r = UsageMap { entries: Vec::new() };
        proof {
            assert(r@ =~= Seq::<(int, int, int)>::empty());
        }
        r
    }

    /// Stores the counters `usage` for `key`, replacing the counters of an
    /// existing entry and appending a new entry otherwise.
    pub fn insert(&mut self, key: usize, usage: Usage)
        ensures
            final(self)@ == spec_insert(
                old(self)@,
                key as int,
                usage.used as int,
                usage.weight as int,
            ),
    {
        let n = self.entries.len();
        let mut i: usize = 0;
        while i < n
            invariant
                self == old(self),
                n == self.entries@.len(),
                i <= n,
                forall|j: int| 0 <= j < i as int ==> (#[trigger] self@[j]).0 != key as int,
            decreases n - i,
        {
            let (k, _u) = self.entries[i];
            if k == key {
                proof {
                    lemma_find_key_unique(self@, key as int, i as int);
                }
                self.entries.set(i, (key, usage));
                proof {
                    assert(self@ =~= spec_insert(
                        old(self)@,
                        key as int,
                        usage.used as int,
                        usage.weight as int,
                    ));
                }
                return ;
            }
            i = i + 1;
        }
        proof {
            lemma_find_key_unique(self@, key as int, n as int);
        }
        self.entries.push((key, usage));
        proof {
            assert(self@ =~= spec_insert(
                old(self)@,
                key as int,
                usage.used as int,
                usage.weight as int,
            ));
        }
    }

    /// Records one observation of `key`, growing both of its counters by one
    /// and starting a fresh entry from zero when `key` is new.
    pub fn record(&mut self, key: usize)
        requires
            counters_below(old(self)@, usize::MAX - 1),
        ensures
            final(self)@ == bump(old(self)@, key as int),
    {
        let n = self.entries.len();
        let mut i: usize = 0;
        while i < n
            invariant
                self == old(self),
                counters_below(self@, usize::MAX - 1),
                n == self.entries@.len(),
                i <= n,
                forall|j: int| 0 <= j < i as int ==> (#[trigger] self@[j]).0 != key as int,
            decreases n - i,
        {
            let (k, u) = self.entries[i];
            if k == key {
                proof {
                    lemma_find_key_unique(self@, key as int, i as int);
                    assert(self@[i as int].1 <= usize::MAX - 1);
                }
                self.entries.set(i, (key, Usage { used: u.used + 1, weight: u.weight + 1 }));
                proof {
                    assert(self@ =~= bump(old(self)@, key as int));
                }
                return ;
            }
            i = i + 1;
        }
        proof {
            lemma_find_key_unique(self@, key as int, n as int);
        }
        self.entries.push((key, Usage { used: 1, weight: 1 }));
        proof {
            assert(self@ =~= bump(old(self)@, key as int));
        }
    }
}

/// The most-used candidate width of the tally: the entry with the highest
/// `used`, a tie broken by the higher `weight`, an exact tie by the entry
/// first seen; `0` for an empty tally.
pub fn most_used(indents: &UsageMap) -> (r: usize)
    ensures
        r as int == most_used_spec(indents@),
{
    let mut result: usize = 0;
    let mut max_used: usize = 0;
    let mut max_weight: usize = 0;
    let n = indents.entries.len();
    let mut i: usize = 0;
    proof {
        assert(indents@.take(0) =~= Seq::<(int, int, int)>::empty());
    }
    while i < n
        invariant
            n == indents.entries@.len(),
            indents@.len() == n as int,
            i <= n,
            selection_state(indents@.take(i as int)) == (
                result as int,
                max_used as int,
                max_weight as int,
            ),
        decreases n - i,
    {
        let (key, usage) = indents.entries[i];
        if usage.used > max_used || (usage.used == max_used && usage.weight > max_weight) {
            max_used = usage.used;
            max_weight = usage.weight;
            result = key;
        }
        i = i + 1;
        proof {
            assert(indents@.take(i as int).drop_last() =~= indents@.take(i as int - 1));
            assert(indents@.take(i as int).last() == indents@[i as int - 1]);
        }
    }
    proof {
        assert(indents@.take(n as int) =~= indents@);
    }
    result
}

} // verus!
