//! Counting byte values: how often each value occurs in a list of bytes,
//! and which value occurs most often.

use std::collections::HashMap;
use vstd::prelude::*;

verus! {

broadcast use vstd::std_specs::hash::group_hash_axioms;

/// How often `value` occurs in `values`.
pub open spec fn tally(values: Seq<u8>, value: u8) -> nat
    decreases values.len(),
{
    if values.len() == 0 {
        0
    } else {
        tally(values.drop_last(), value) + if values.last() == value {
            1nat
        } else {
            0nat
        }
    }
}

/// No value occurs more often than the list is long.
pub proof fn lemma_tally_bound(values: Seq<u8>, value: u8)
    ensures
        tally(values, value) <= values.len(),
    decreases values.len(),
{
    if values.len() > 0 {
        lemma_tally_bound(values.drop_last(), value);
    }
}

/// A value occurs in a list exactly when its tally is not zero.
pub proof fn lemma_tally_positive(values: Seq<u8>, value: u8)
    ensures
        tally(values, value) > 0 <==> values.contains(value),
    decreases values.len(),
{
    if values.len() > 0 {
        lemma_tally_positive(values.drop_last(), value);
        if values.drop_last().contains(value) {
            let k = choose|k: int| 0 <= k < values.drop_last().len() && values.drop_last()[k] == value;
            assert(values[k] == value);
        }
        if values.contains(value) && values.last() != value {
            let k = choose|k: int| 0 <= k < values.len() && values[k] == value;
            assert(values.drop_last()[k] == value);
        }
        if values.last() == value {
            assert(values[values.len() - 1] == value);
        }
    }
}

/// Whether `value` occurs most often in `values`, and is the least of the
/// values that do.
pub open spec fn is_most_common(values: Seq<u8>, value: u8) -> bool {
    &&& forall|other: u8| tally(values, other) <= #[trigger] tally(values, value) || other == value
    &&& forall|other: u8| other < value ==> #[trigger] tally(values, other) < tally(values, value)
}

/// The frequency table of `values`: the keys are the values that occur,
/// each with the number of times it occurs.
pub fn byte_frequency(values: &[u8]) -> (freq: HashMap<u8, usize>)
    ensures
        forall|value: u8| #[trigger] freq@.contains_key(value) <==> tally(values@, value) > 0,
        forall|value: u8| #[trigger]
            freq@.contains_key(value) ==> freq@[value] == tally(values@, value),
{
    let mut freq: HashMap<u8, usize> = HashMap::new();
    let mut i: usize = 0;
    let n = values.len();
    while i < n
        invariant
            i <= n,
            n == values@.len(),
            forall|value: u8| #[trigger]
                freq@.contains_key(value) <==> tally(values@.take(i as int), value) > 0,
            forall|value: u8| #[trigger]
                freq@.contains_key(value) ==> freq@[value] == tally(values@.take(i as int), value),
        decreases n - i,
    {
        let v = values[i];
        let ghost before = values@.take(i as int);
        let ghost after = values@.take(i + 1);
        let ghost old_freq = freq@;
        proof {
            assert(after.drop_last() =~= before);
            assert(after.last() == v);
            lemma_tally_bound(before, v);
        }
        let count: usize = match freq.get(&v) {
            Some(c) => *c + 1,
            None => 1,
        };
        freq.insert(v, count);
        proof {
            assert forall|value: u8| #[trigger]
                freq@.contains_key(value) <==> tally(after, value) > 0 by {
                if value != v {
                    assert(freq@.contains_key(value) == old_freq.contains_key(value));
                }
            }
            assert forall|value: u8| #[trigger] freq@.contains_key(value) implies freq@[value]
                == tally(after, value) by {
                if value != v {
                    assert(old_freq.contains_key(value));
                }
            }
        }
        i = i + 1;
    }
    assert(values@.take(n as int) =~= values@);
    freq
}

/// How often `value` occurs in `values`.
pub fn count_of(values: &[u8], value: u8) -> (count: usize)
    ensures
        count == tally(values@, value),
{
    let mut count: usize = 0;
    let mut i: usize = 0;
    let n = values.len();
    while i < n
        invariant
            i <= n,
            n == values@.len(),
            count == tally(values@.take(i as int), value),
            count <= i,
        decreases n - i,
    {
        proof {
            assert(values@.take(i + 1).drop_last() =~= values@.take(i as int));
        }
        if values[i] == value {
            count = count + 1;
        }
        i = i + 1;
    }
    assert(values@.take(n as int) =~= values@);
    count
}

/// The value that occurs most often in `values`, with the number of times
/// it occurs; of several such values the least. None where `values` is
/// empty.
pub fn most_common(values: &[u8]) -> (r: Option<(u8, usize)>)
    ensures
        r.is_none() <==> values@.len() == 0,
        r matches Some((value, count)) ==> count == tally(values@, value) && count > 0
            && is_most_common(values@, value),
{
    if values.len() == 0 {
        return None;
    }
    let freq = byte_frequency(values);
    let mut best: u8 = 0;
    let mut best_count: usize = match freq.get(&0u8) {
        Some(c) => *c,
        None => 0,
    };
    let mut b: u8 = 0;
    while b < 255
        invariant
            best <= b,
            best_count == tally(values@, best),
            forall|value: u8| #[trigger]
                freq@.contains_key(value) <==> tally(values@, value) > 0,
            forall|value: u8| #[trigger]
                freq@.contains_key(value) ==> freq@[value] == tally(values@, value),
            forall|other: u8| other <= b ==> #[trigger] tally(values@, other) <= best_count,
            forall|other: u8| other < best ==> #[trigger] tally(values@, other) < best_count,
        decreases 255 - b,
    {
        b = b + 1;
        let count: usize = match freq.get(&b) {
            Some(c) => *c,
            None => 0,
        };
        assert(count == tally(values@, b));
        if count > best_count {
            best = b;
            best_count = count;
        }
    }
    proof {
        let first = values@[0];
        lemma_tally_positive(values@, first);
        assert(tally(values@, first) <= best_count);
    }
    Some((best, best_count))
}

/// The bytes that the records hold at `position`, in record order; records
/// too short to have the position give none.
pub fn values_at(records: &[&Vec<u8>], position: usize) -> (values: Vec<u8>)
    ensures
        values@ == column(crate::records::ref_views(records@), position as int),
{
    let ghost all = crate::records::ref_views(records@);
    let mut values: Vec<u8> = Vec::new();
    let mut i: usize = 0;
    while i < records.len()
        invariant
            i <= records@.len(),
            all == crate::records::ref_views(records@),
            values@ == column(all.take(i as int), position as int),
        decreases records@.len() - i,
    {
        proof {
            assert(all.take(i + 1).drop_last() =~= all.take(i as int));
            assert(all.take(i + 1).last() == records@[i as int]@);
        }
        if position < records[i].len() {
            values.push(records[i][position]);
        }
        i = i + 1;
    }
    assert(all.take(records@.len() as int) =~= all);
    values
}

/// The bytes that the records hold at `position`, in record order.
pub open spec fn column(records: Seq<Seq<u8>>, position: int) -> Seq<u8>
    decreases records.len(),
{
    if records.len() == 0 {
        Seq::empty()
    } else if 0 <= position < records.last().len() {
        column(records.drop_last(), position).push(records.last()[position])
    } else {
        column(records.drop_last(), position)
    }
}

/// A byte value with the number of times it occurs.
#[derive(Debug, Clone, Copy, PartialEq, Eq, Structural)]
pub struct Ranked {
    pub value: u8,
    pub count: usize,
}

/// Whether value `a` stands before value `b` in the ranking: it occurs
/// more often, or as often and is the lesser value.
pub open spec fn ranks_before(values: Seq<u8>, a: u8, b: u8) -> bool {
    tally(values, a) > tally(values, b) || (tally(values, a) == tally(values, b) && a < b)
}

/// Whether a list is the ranking of the values below `limit`: it holds
/// each of them that occurs, with its count, the most frequent first and
/// of equally frequent ones the lesser first.
pub open spec fn is_ranking(values: Seq<u8>, ranking: Seq<Ranked>, limit: int) -> bool {
    &&& forall|i: int|
        0 <= i < ranking.len() ==> (#[trigger] ranking[i]).count == tally(
            values,
            ranking[i].value,
        ) && ranking[i].count > 0 && ranking[i].value < limit
    &&& forall|i: int, j: int|
        0 <= i < j < ranking.len() ==> ranks_before(
            values,
            (#[trigger] ranking[i]).value,
            (#[trigger] ranking[j]).value,
        )
    &&& forall|v: u8|
        v < limit && #[trigger] tally(values, v) > 0 ==> exists|i: int|
            0 <= i < ranking.len() && (#[trigger] ranking[i]).value == v
}

/// The ranking of the byte values that occur: the most frequent first, of
/// equally frequent ones the lesser first.
pub fn ranked_frequencies(values: &[u8]) -> (ranking: Vec<Ranked>)
    ensures
        is_ranking(values@, ranking@, 256),
{
    let mut ranking: Vec<Ranked> = Vec::new();
    let mut v: usize = 0;
    while v < 256
        invariant
            v <= 256,
            is_ranking(values@, ranking@, v as int),
        decreases 256 - v,
    {
        let value = v as u8;
        let count = count_of(values, value);
        if count > 0 {
            let mut k: usize = 0;
            while k < ranking.len() && ranking[k].count >= count
                invariant
                    k <= ranking@.len(),
                    is_ranking(values@, ranking@, v as int),
                    count == tally(values@, value),
                    forall|i: int| 0 <= i < k ==> (#[trigger] ranking@[i]).count >= count,
                decreases ranking@.len() - k,
            {
                k = k + 1;
            }
            let ghost before = ranking@;
            let entry = Ranked { value, count };
            ranking.insert(k, entry);
            proof {
                let after = ranking@;
                assert forall|i: int| 0 <= i < after.len() implies (#[trigger] after[i]).count
                    == tally(values@, after[i].value) && after[i].count > 0 && after[i].value < v
                    + 1 by {
                    if i < k {
                        assert(after[i] == before[i]);
                    } else if i > k {
                        assert(after[i] == before[i - 1]);
                    }
                }
                assert forall|i: int, j: int| 0 <= i < j < after.len() implies ranks_before(
                    values@,
                    (#[trigger] after[i]).value,
                    (#[trigger] after[j]).value,
                ) by {
                    if i < k && j < k {
                        assert(after[i] == before[i] && after[j] == before[j]);
                    } else if i < k && j == k {
                        assert(after[i] == before[i]);
                    } else if i < k && j > k {
                        assert(after[i] == before[i] && after[j] == before[j - 1]);
                    } else if i == k {
                        assert(after[j] == before[j - 1]);
                        assert(before[k as int].count < count);
                        assert(before[k as int] == before[j - 1] || ranks_before(
                            values@,
                            before[k as int].value,
                            before[j - 1].value,
                        ));
                    } else {
                        assert(after[i] == before[i - 1] && after[j] == before[j - 1]);
                    }
                }
                assert forall|w: u8| w < v + 1 && #[trigger] tally(values@, w) > 0 implies exists|
                    i: int,
                | 0 <= i < after.len() && (#[trigger] after[i]).value == w by {
                    if w == value {
                        assert(after[k as int].value == w);
                    } else {
                        let i = choose|i: int|
                            0 <= i < before.len() && (#[trigger] before[i]).value == w;
                        if i < k {
                            assert(after[i].value == w);
                        } else {
                            assert(after[i + 1] == before[i]);
                            assert(after[i + 1].value == w);
                        }
                    }
                }
            }
        } else {
            assert(is_ranking(values@, ranking@, v + 1));
        }
        v = v + 1;
    }
    ranking
}

} // verus!
