//! Selecting and grouping records by the byte at one position.

use std::collections::HashMap;
use vstd::prelude::*;

verus! {

broadcast use vstd::std_specs::hash::group_hash_axioms;

/// The views of a list of borrowed records.
pub open spec fn ref_views(records: Seq<&Vec<u8>>) -> Seq<Seq<u8>> {
    Seq::new(records.len(), |i: int| records[i]@)
}

/// The views of a list of records.
pub open spec fn record_views(records: Seq<Vec<u8>>) -> Seq<Seq<u8>> {
    Seq::new(records.len(), |i: int| records[i]@)
}

/// Whether a record holds `value` at `position`.
pub open spec fn has_byte_at(record: Seq<u8>, position: int, value: u8) -> bool {
    0 <= position < record.len() && record[position] == value
}

/// The records that hold `value` at `position`, in their order.
pub open spec fn selected(records: Seq<Seq<u8>>, position: int, value: u8) -> Seq<Seq<u8>> {
    records.filter(|r: Seq<u8>| has_byte_at(r, position, value))
}

/// The records that hold `value` at `position`, in their order.
pub fn filter_by_position<'a>(records: &'a [Vec<u8>], position: usize, value: u8) -> (out: Vec<
    &'a Vec<u8>,
>)
    ensures
        ref_views(out@) == selected(record_views(records@), position as int, value),
{
    let ghost all = record_views(records@);
    let ghost keep = |r: Seq<u8>| has_byte_at(r, position as int, value);
    let mut out: Vec<&'a Vec<u8>> = Vec::new();
    let mut i: usize = 0;
    assert(all.take(0).filter(keep) =~= Seq::<Seq<u8>>::empty()) by {
        reveal(Seq::filter);
    }
    while i < records.len()
        invariant
            i <= records@.len(),
            all == record_views(records@),
            keep == |r: Seq<u8>| has_byte_at(r, position as int, value),
            ref_views(out@) == all.take(i as int).filter(keep),
        decreases records@.len() - i,
    {
        let record = &records[i];
        proof {
            reveal(Seq::filter);
            assert(all.take(i + 1).drop_last() =~= all.take(i as int));
            assert(all.take(i + 1).last() == record@);
        }
        if position < record.len() && record[position] == value {
            proof {
                assert(ref_views(out@.push(record)) =~= ref_views(out@).push(record@));
            }
            out.push(record);
        }
        i = i + 1;
    }
    assert(all.take(records@.len() as int) =~= all);
    out
}

/// The records grouped by the byte they hold at `position`: every byte
/// value that some record holds there is a key, and its group is the
/// records that hold it, in their order. Records too short to have the
/// position are in no group.
pub fn group_by_position<'a>(records: &'a [Vec<u8>], position: usize) -> (groups: HashMap<
    u8,
    Vec<&'a Vec<u8>>,
>)
    ensures
        forall|value: u8| #[trigger]
            groups@.contains_key(value) <==> selected(
                record_views(records@),
                position as int,
                value,
            ).len() > 0,
        forall|value: u8| #[trigger]
            groups@.contains_key(value) ==> ref_views(groups@[value]@) == selected(
                record_views(records@),
                position as int,
                value,
            ),
{
    let ghost all = record_views(records@);
    let mut groups: HashMap<u8, Vec<&'a Vec<u8>>> = HashMap::new();
    let mut i: usize = 0;
    proof {
        reveal(Seq::filter);
        assert forall|value: u8| selected(all.take(0), position as int, value).len() == 0 by {
            assert(all.take(0) =~= Seq::<Seq<u8>>::empty());
        }
    }
    while i < records.len()
        invariant
            i <= records@.len(),
            all == record_views(records@),
            forall|value: u8| #[trigger]
                groups@.contains_key(value) <==> selected(
                    all.take(i as int),
                    position as int,
                    value,
                ).len() > 0,
            forall|value: u8| #[trigger]
                groups@.contains_key(value) ==> ref_views(groups@[value]@) == selected(
                    all.take(i as int),
                    position as int,
                    value,
                ),
        decreases records@.len() - i,
    {
        let record = &records[i];
        let ghost before = all.take(i as int);
        let ghost after = all.take(i + 1);
        let ghost old_groups = groups@;
        proof {
            reveal(Seq::filter);
            assert(after.drop_last() =~= before);
            assert(after.last() == record@);
        }
        if position < record.len() {
            let byte = record[position];
            let mut group: Vec<&'a Vec<u8>> = match groups.remove(&byte) {
                Some(g) => g,
                None => Vec::new(),
            };
            proof {
                assert(ref_views(group@) =~= selected(before, position as int, byte)) by {
                    if old_groups.contains_key(byte) {
                        assert(group == old_groups[byte]);
                    } else {
                        assert(selected(before, position as int, byte).len() == 0);
                    }
                }
                assert(ref_views(group@.push(record)) =~= ref_views(group@).push(record@));
            }
            group.push(record);
            groups.insert(byte, group);
            proof {
                assert forall|value: u8| #[trigger]
                    groups@.contains_key(value) <==> selected(
                        after,
                        position as int,
                        value,
                    ).len() > 0 by {
                    if value != byte {
                        assert(groups@.contains_key(value) == old_groups.contains_key(value));
                    }
                }
                assert forall|value: u8| #[trigger]
                    groups@.contains_key(value) implies ref_views(groups@[value]@) == selected(
                    after,
                    position as int,
                    value,
                ) by {
                    if value != byte {
                        assert(old_groups.contains_key(value));
                        assert(groups@[value] == old_groups[value]);
                    }
                }
            }
        } else {
            proof {
                assert forall|value: u8|
                    selected(after, position as int, value) == selected(
                        before,
                        position as int,
                        value,
                    ) by {}
            }
        }
        i = i + 1;
    }
    assert(all.take(records@.len() as int) =~= all);
    groups
}

} // verus!
