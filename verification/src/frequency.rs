//! The frequency analyzer: for every byte position, how often each byte
//! value stands there over all records, and the tier that a share of the
//! records falls into.

use vstd::prelude::*;

verus! {

/// The views of a list of byte vectors.
pub open spec fn views(records: Seq<Vec<u8>>) -> Seq<Seq<u8>> {
    Seq::new(records.len(), |i: int| records[i]@)
}

/// How many of the records hold `byte` at position `pos`.
pub open spec fn occurrences(records: Seq<Seq<u8>>, pos: int, byte: u8) -> nat
    decreases records.len(),
{
    if records.len() == 0 {
        0
    } else {
        let last = records.last();
        occurrences(records.drop_last(), pos, byte) + if 0 <= pos < last.len() && last[pos]
            == byte {
            1nat
        } else {
            0nat
        }
    }
}

/// The length of the longest record; zero where there is none.
pub open spec fn longest(records: Seq<Seq<u8>>) -> nat
    decreases records.len(),
{
    if records.len() == 0 {
        0
    } else if records.last().len() > longest(records.drop_last()) {
        records.last().len()
    } else {
        longest(records.drop_last())
    }
}

/// The bucket that a share of the records falls into.
#[derive(Debug, Clone, Copy, PartialEq, Eq, Structural)]
pub enum FrequencyTier {
    /// Nothing is known: the position is beyond every record, or there is
    /// no record.
    NoData,
    /// Below 20 percent: high entropy.
    Tier1,
    /// 20 to 39 percent.
    Tier2,
    /// 40 to 59 percent.
    Tier3,
    /// 60 to 79 percent.
    Tier4,
    /// 80 percent and more: constant-like.
    Tier5,
}

/// The whole percentage that `count` is of `total`, rounded down.
pub open spec fn percentage(count: nat, total: nat) -> nat {
    if total == 0 {
        0
    } else {
        (100 * count) / total
    }
}

/// The tier of a whole percentage.
pub open spec fn tier_of_percentage(pct: nat) -> FrequencyTier {
    if pct >= 80 {
        FrequencyTier::Tier5
    } else if pct >= 60 {
        FrequencyTier::Tier4
    } else if pct >= 40 {
        FrequencyTier::Tier3
    } else if pct >= 20 {
        FrequencyTier::Tier2
    } else {
        FrequencyTier::Tier1
    }
}

/// The tier that `byte` at position `pos` has in a record set.
pub open spec fn tier_in(records: Seq<Seq<u8>>, pos: int, byte: u8) -> FrequencyTier {
    if pos < 0 || pos >= longest(records) || records.len() == 0 {
        FrequencyTier::NoData
    } else {
        tier_of_percentage(percentage(occurrences(records, pos, byte), records.len()))
    }
}

/// The place of the count for `byte` at position `pos` in the flat table.
pub open spec fn slot(pos: int, byte: u8) -> int {
    pos * 256 + byte as int
}

/// No byte value stands at a position in more records than there are.
pub proof fn lemma_occurrences_bound(records: Seq<Seq<u8>>, pos: int, byte: u8)
    ensures
        occurrences(records, pos, byte) <= records.len(),
    decreases records.len(),
{
    if records.len() > 0 {
        lemma_occurrences_bound(records.drop_last(), pos, byte);
    }
}

/// No record is longer than the longest.
pub proof fn lemma_longest_bound(records: Seq<Seq<u8>>, i: int)
    requires
        0 <= i < records.len(),
    ensures
        records[i].len() <= longest(records),
    decreases records.len(),
{
    if i < records.len() - 1 {
        lemma_longest_bound(records.drop_last(), i);
    }
}

/// Beyond the longest record no byte value occurs.
pub proof fn lemma_occurrences_beyond(records: Seq<Seq<u8>>, pos: int, byte: u8)
    requires
        pos >= longest(records),
    ensures
        occurrences(records, pos, byte) == 0,
    decreases records.len(),
{
    if records.len() > 0 {
        lemma_occurrences_beyond(records.drop_last(), pos, byte);
    }
}

/// The per-position histogram of a record set.
pub struct ByteFrequencyTable {
    counts: Vec<usize>,
    positions: usize,
    total: usize,
    source: Ghost<Seq<Seq<u8>>>,
}

impl View for ByteFrequencyTable {
    type V = Seq<Seq<u8>>;

    /// The record set that the table is the histogram of.
    closed spec fn view(&self) -> Seq<Seq<u8>> {
        self.source@
    }
}

impl ByteFrequencyTable {
    /// The table covers the positions of the longest record and holds, for
    /// every position and byte value, the number of records with that value
    /// there.
    #[verifier::type_invariant]
    closed spec fn well_formed(&self) -> bool {
        &&& self.counts@.len() == self.positions * 256
        &&& self.positions == longest(self.source@)
        &&& self.total == self.source@.len()
        &&& forall|pos: int, byte: u8|
            0 <= pos < self.positions ==> self.counts@[slot(pos, byte)] == #[trigger] occurrences(
                self.source@,
                pos,
                byte,
            )
    }

    /// The table of an empty record set.
    pub fn new() -> (table: ByteFrequencyTable)
        ensures
            table@ == Seq::<Seq<u8>>::empty(),
    {
        ByteFrequencyTable {
            counts: Vec::new(),
            positions: 0,
            total: 0,
            source: Ghost(Seq::empty()),
        }
    }

    /// Builds the histogram of `records` in one pass over their bytes.
    pub fn compute(records: &[Vec<u8>]) -> (table: ByteFrequencyTable)
        ensures
            table@ == views(records@),
    {
        let ghost all = views(records@);
        let n = records.len();
        let mut positions: usize = 0;
        let mut i: usize = 0;
        while i < n
            invariant
                i <= n,
                n == records@.len(),
                all == views(records@),
                positions == longest(all.take(i as int)),
            decreases n - i,
        {
            proof {
                assert(all.take(i + 1).drop_last() =~= all.take(i as int));
            }
            if records[i].len() > positions {
                positions = records[i].len();
            }
            i = i + 1;
        }
        assert(all.take(n as int) =~= all);
        let mut counts: Vec<usize> = Vec::new();
        let mut p: usize = 0;
        while p < positions
            invariant
                p <= positions,
                counts@.len() == p * 256,
                forall|k: int| 0 <= k < counts@.len() ==> counts@[k] == 0,
            decreases positions - p,
        {
            let mut b: usize = 0;
            while b < 256
                invariant
                    b <= 256,
                    p < positions,
                    counts@.len() == p * 256 + b,
                    forall|k: int| 0 <= k < counts@.len() ==> counts@[k] == 0,
                decreases 256 - b,
            {
                counts.push(0);
                b = b + 1;
            }
            p = p + 1;
        }
        let slots = counts.len();
        let mut r: usize = 0;
        while r < n
            invariant
                r <= n,
                slots == counts@.len(),
                n == records@.len(),
                all == views(records@),
                positions == longest(all),
                counts@.len() == positions * 256,
                forall|pos: int, byte: u8|
                    0 <= pos < positions ==> counts@[slot(pos, byte)] == #[trigger] occurrences(
                        all.take(r as int),
                        pos,
                        byte,
                    ),
            decreases n - r,
        {
            let record = &records[r];
            let len = record.len();
            let ghost before = all.take(r as int);
            let ghost after = all.take(r + 1);
            proof {
                assert(after.drop_last() =~= before);
                assert(after.last() == record@);
                lemma_longest_bound(all, r as int);
            }
            let mut pos: usize = 0;
            while pos < len
                invariant
                    pos <= len,
                    len == record@.len(),
                    len <= positions,
                    r < n,
                    before.len() == r,
                    n == records@.len(),
                    slots == counts@.len(),
                    counts@.len() == positions * 256,
                    forall|q: int, byte: u8|
                        0 <= q < positions ==> counts@[slot(q, byte)] == #[trigger] occurrences(
                            before,
                            q,
                            byte,
                        ) + if q < pos && record@[q] == byte {
                            1nat
                        } else {
                            0nat
                        },
                decreases len - pos,
            {
                let value = record[pos];
                let idx = pos * 256 + value as usize;
                proof {
                    lemma_occurrences_bound(before, pos as int, value);
                    assert(idx == slot(pos as int, value));
                    assert(counts@[slot(pos as int, value)] == occurrences(
                        before,
                        pos as int,
                        value,
                    ));
                }
                let ghost old_counts = counts@;
                counts.set(idx, counts[idx] + 1);
                proof {
                    assert forall|q: int, byte: u8| 0 <= q < positions implies counts@[slot(
                        q,
                        byte,
                    )] == #[trigger] occurrences(before, q, byte) + if q < pos + 1 && record@[q]
                        == byte {
                        1nat
                    } else {
                        0nat
                    } by {
                        if slot(q, byte) != idx {
                            assert(counts@[slot(q, byte)] == old_counts[slot(q, byte)]);
                        }
                    }
                }
                pos = pos + 1;
            }
            proof {
                assert forall|q: int, byte: u8| 0 <= q < positions implies counts@[slot(
                    q,
                    byte,
                )] == #[trigger] occurrences(after, q, byte) by {
                    let trig = occurrences(before, q, byte);
                }
            }
            r = r + 1;
        }
        assert(all.take(n as int) =~= all);
        ByteFrequencyTable { counts, positions, total: n, source: Ghost(all) }
    }

    /// The number of records in which `byte` stands at position `pos`.
    pub fn count_at(&self, pos: usize, byte: u8) -> (c: usize)
        ensures
            c == occurrences(self@, pos as int, byte),
    {
        proof {
            use_type_invariant(self);
        }
        let slots = self.counts.len();
        if pos < self.positions {
            assert(pos * 256 + 255 < slots);
            self.counts[pos * 256 + byte as usize]
        } else {
            proof {
                lemma_occurrences_beyond(self@, pos as int, byte);
            }
            0
        }
    }

    /// The tier of `byte` at position `pos`: by the whole percentage of
    /// the records that hold it there, 80 and more the fifth tier, 60 to 79
    /// the fourth, 40 to 59 the third, 20 to 39 the second, less the first.
    /// There is no data beyond the longest record and without records.
    pub fn color(&self, pos: usize, byte: u8) -> (tier: FrequencyTier)
        ensures
            tier == tier_in(self@, pos as int, byte),
    {
        proof {
            use_type_invariant(self);
        }
        if pos >= self.positions || self.total == 0 {
            return FrequencyTier::NoData;
        }
        let slots = self.counts.len();
        assert(pos * 256 + 255 < slots);
        let count = self.counts[pos * 256 + byte as usize];
        let pct: u128 = (count as u128 * 100) / (self.total as u128);
        if pct >= 80 {
            FrequencyTier::Tier5
        } else if pct >= 60 {
            FrequencyTier::Tier4
        } else if pct >= 40 {
            FrequencyTier::Tier3
        } else if pct >= 20 {
            FrequencyTier::Tier2
        } else {
            FrequencyTier::Tier1
        }
    }
}

} // verus!
