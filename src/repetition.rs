use vstd::prelude::*;
use std::collections::HashMap;

verus! {

broadcast use vstd::std_specs::hash::group_hash_axioms;

/// How often a position hash occurs in a table (0 when absent).
pub open spec fn count_in(m: Map<u64, u32>, h: u64) -> u32 {
    if m.contains_key(h) {
        m[h]
    } else {
        0
    }
}

/// The table with the count of `h` set to `c`; a count of 0 leaves no entry.
pub open spec fn with_count(m: Map<u64, u32>, h: u64, c: u32) -> Map<u64, u32> {
    if c == 0 {
        m.remove(h)
    } else {
        m.insert(h, c)
    }
}

/// Every entry of a table counts at least one occurrence.
pub open spec fn positive_counts(m: Map<u64, u32>) -> bool {
    forall|h: u64| m.contains_key(h) ==> #[trigger] m[h] > 0
}

/// Occurrence counts of the positions on the current search line, keyed by
/// position hash.
pub struct RepetitionTable {
    counts: HashMap<u64, u32>,
}

impl View for RepetitionTable {
    type V = Map<u64, u32>;

    closed spec fn view(&self) -> Map<u64, u32> {
        self.counts@
    }
}

impl RepetitionTable {
    pub fn new() -> (r: RepetitionTable)
        ensures
            r@ == Map::<u64, u32>::empty(),
            positive_counts(r@),
    {
        RepetitionTable { counts: HashMap::new() }
    }

    /// How often `h` occurs on the current line.
    pub fn count(&self, h: u64) -> (r: u32)
        ensures
            r == count_in(self@, h),
    {
        match self.counts.get(&h) {
            Some(c) => *c,
            None => 0,
        }
    }

    /// Sets the count of `h` to `c`.
    pub fn set(&mut self, h: u64, c: u32)
        ensures
            final(self)@ == with_count(old(self)@, h, c),
            positive_counts(old(self)@) ==> positive_counts(final(self)@),
    {
        if c == 0 {
            self.counts.remove(&h);
            assert(final(self)@ =~= old(self)@.remove(h));
        } else {
            self.counts.insert(h, c);
        }
    }
}

/// Setting a hash back to the count it already had leaves the table as it was.
pub proof fn lemma_restore_count(m: Map<u64, u32>, h: u64, c: u32)
    requires
        positive_counts(m),
    ensures
        with_count(with_count(m, h, c), h, count_in(m, h)) == m,
{
    if m.contains_key(h) {
        assert(with_count(with_count(m, h, c), h, count_in(m, h)) =~= m);
    } else {
        assert(with_count(with_count(m, h, c), h, count_in(m, h)) =~= m);
    }
}

} // verus!
