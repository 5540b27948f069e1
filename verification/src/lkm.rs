//! Lookup-multiplicity bookkeeping: how many times each value of each range
//! table was looked up across a trace. Counts are a commutative record of
//! the multiset of values seen: the aggregate depends only on which values
//! were reported, never on the order.

use vstd::prelude::*;

verus! {

/// A count after one more report of a value: one more, saturating at the
/// largest representable count.
pub open spec fn bumped(c: nat) -> nat {
    if c < u64::MAX {
        c + 1
    } else {
        c
    }
}

/// A count after `n` more reports of a value.
pub open spec fn multi_bumped(c: nat, n: nat) -> nat
    decreases n,
{
    if n == 0 {
        c
    } else {
        bumped(multi_bumped(c, (n - 1) as nat))
    }
}

/// How many entries of `s` equal `v`.
pub open spec fn occurrences(s: Seq<u64>, v: u64) -> nat
    decreases s.len(),
{
    if s.len() == 0 {
        0
    } else {
        occurrences(s.drop_last(), v) + if s.last() == v {
            1nat
        } else {
            0nat
        }
    }
}

/// Bump counts compose: reporting `a + b` times is reporting `a` then `b`.
pub proof fn lemma_multi_bumped_add(c: nat, a: nat, b: nat)
    ensures
        multi_bumped(c, a + b) == multi_bumped(multi_bumped(c, a), b),
    decreases b,
{
    if b > 0 {
        lemma_multi_bumped_add(c, a, (b - 1) as nat);
    }
}

/// Occurrences add up over concatenation.
pub proof fn lemma_occurrences_concat(s1: Seq<u64>, s2: Seq<u64>, v: u64)
    ensures
        occurrences(s1 + s2, v) == occurrences(s1, v) + occurrences(s2, v),
    decreases s2.len(),
{
    if s2.len() == 0 {
        assert(s1 + s2 =~= s1);
    } else {
        assert((s1 + s2).drop_last() =~= s1 + s2.drop_last());
        lemma_occurrences_concat(s1, s2.drop_last(), v);
    }
}

/// The count associated with `k` in an append-only log of `(key, count)`
/// entries, where the latest entry for a key holds its current count.
pub open spec fn log_count(s: Seq<(u64, u64)>, k: u64) -> nat
    decreases s.len(),
{
    if s.len() == 0 {
        0
    } else if s.last().0 == k {
        s.last().1 as nat
    } else {
        log_count(s.drop_last(), k)
    }
}

/// A multiplicity counter for one table: value → number of lookups.
pub struct CountMap {
    entries: Vec<(u64, u64)>,
}

impl CountMap {
    /// The current count of a value.
    pub closed spec fn count(self, k: u64) -> nat {
        log_count(self.entries@, k)
    }

    /// An empty counter: every value has count zero.
    pub fn new() -> (r: CountMap)
        ensures
            forall|k: u64| r.count(k) == 0,
    {
        CountMap { entries: Vec::new() }
    }

    /// The current count of `k`.
    pub fn get(&self, k: u64) -> (r: u64)
        ensures
            r as nat == self.count(k),
    {
        let mut i: usize = self.entries.len();
        proof {
            assert(self.entries@.subrange(0, self.entries@.len() as int) =~= self.entries@);
        }
        while i > 0
            invariant
                i <= self.entries@.len(),
                log_count(self.entries@.subrange(0, i as int), k) == self.count(k),
            decreases i,
        {
            let entry = self.entries[i - 1];
            proof {
                assert(self.entries@.subrange(0, i as int).last() == entry);
                assert(self.entries@.subrange(0, i as int).drop_last() =~= self.entries@.subrange(
                    0,
                    i as int - 1,
                ));
            }
            if entry.0 == k {
                return entry.1;
            }
            i = i - 1;
        }
        proof {
            assert(self.entries@.subrange(0, 0) =~= Seq::<(u64, u64)>::empty());
        }
        0
    }

    /// Records one more lookup of `k`: its count goes up by one (saturating),
    /// every other count is untouched.
    pub fn increment(&mut self, k: u64)
        ensures
            final(self).count(k) == bumped(old(self).count(k)),
            forall|k2: u64| k2 != k ==> final(self).count(k2) == old(self).count(k2),
    {
        let c = self.get(k);
        let nc: u64 = if c < u64::MAX {
            c + 1
        } else {
            c
        };
        self.entries.push((k, nc));
        proof {
            assert(self.entries@.last() == (k, nc));
            assert(self.entries@.drop_last() =~= old(self).entries@);
        }
    }
}

/// Per-table multiplicity counters for the range tables gadgets use.
pub struct LkMultiplicity {
    u5: CountMap,
    u16: CountMap,
}

impl LkMultiplicity {
    /// The count of 5-bit range lookups of `v`.
    pub closed spec fn u5_count(self, v: u64) -> nat {
        self.u5.count(v)
    }

    /// The count of 16-bit range lookups of `v`.
    pub closed spec fn u16_count(self, v: u64) -> nat {
        self.u16.count(v)
    }

    pub fn new() -> (r: LkMultiplicity)
        ensures
            forall|v: u64| r.u5_count(v) == 0,
            forall|v: u64| r.u16_count(v) == 0,
    {
        LkMultiplicity { u5: CountMap::new(), u16: CountMap::new() }
    }

    /// Reports one lookup of `v` against the `W`-bit range table.
    pub fn assert_ux<const W: u64>(&mut self, v: u64)
        requires
            W == 5 || W == 16,
        ensures
            W == 16 ==> {
                &&& final(self).u16_count(v) == bumped(old(self).u16_count(v))
                &&& forall|v2: u64| v2 != v ==> final(self).u16_count(v2) == old(self).u16_count(
                    v2,
                )
                &&& forall|v2: u64| final(self).u5_count(v2) == old(self).u5_count(v2)
            },
            W == 5 ==> {
                &&& final(self).u5_count(v) == bumped(old(self).u5_count(v))
                &&& forall|v2: u64| v2 != v ==> final(self).u5_count(v2) == old(self).u5_count(v2)
                &&& forall|v2: u64| final(self).u16_count(v2) == old(self).u16_count(v2)
            },
    {
        if W == 16 {
            self.u16.increment(v);
        } else {
            self.u5.increment(v);
        }
    }

    /// The current count of `v` in the `W`-bit table, for inspection.
    pub fn ux_count<const W: u64>(&self, v: u64) -> (r: u64)
        requires
            W == 5 || W == 16,
        ensures
            W == 16 ==> r as nat == self.u16_count(v),
            W == 5 ==> r as nat == self.u5_count(v),
    {
        if W == 16 {
            self.u16.get(v)
        } else {
            self.u5.get(v)
        }
    }
}

} // verus!
