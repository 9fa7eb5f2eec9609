//! Drawing a random sample of the records.

use crate::records::{record_views, ref_views};
use rand::seq::SliceRandom;
use vstd::prelude::*;

verus! {

/// Whether `samples` is drawn from `records` without repetition: every
/// sample is a record, and no record is taken twice.
pub open spec fn is_sample_of(samples: Seq<Seq<u8>>, records: Seq<Seq<u8>>) -> bool {
    exists|places: Seq<int>|
        #![trigger places.len()]
        {
            &&& places.len() == samples.len()
            &&& forall|i: int|
                0 <= i < places.len() ==> 0 <= #[trigger] places[i] < records.len() && samples[i]
                    == records[places[i]]
            &&& forall|i: int, j: int|
                0 <= i < j < places.len() ==> #[trigger] places[i] != #[trigger] places[j]
        }
}

/// `rand::seq::SliceRandom::choose_multiple` on a slice, with the
/// thread's generator: `amount` records, or all where there are fewer, drawn
/// at random without repetition and in random order. Which records come,
/// and in which order, differs from call to call.
#[verifier::external_body]
pub(crate) fn choose_samples<'a>(records: &'a [Vec<u8>], amount: usize) -> (samples: Vec<
    &'a Vec<u8>,
>)
    ensures
        samples@.len() == if amount <= records@.len() {
            amount as int
        } else {
            records@.len() as int
        },
        is_sample_of(ref_views(samples@), record_views(records@)),
{
    records.choose_multiple(&mut rand::thread_rng(), amount).collect()
}

/// All records, borrowed, in their order.
pub fn all_records<'a>(records: &'a [Vec<u8>]) -> (out: Vec<&'a Vec<u8>>)
    ensures
        ref_views(out@) == record_views(records@),
{
    let mut out: Vec<&'a Vec<u8>> = Vec::new();
    let mut i: usize = 0;
    while i < records.len()
        invariant
            i <= records@.len(),
            ref_views(out@) == record_views(records@).take(i as int),
        decreases records@.len() - i,
    {
        let record = &records[i];
        proof {
            let all = record_views(records@);
            assert(ref_views(out@.push(record)) =~= ref_views(out@).push(record@));
            assert(all.take(i as int).push(record@) =~= all.take(i + 1));
        }
        out.push(record);
        i = i + 1;
    }
    assert(record_views(records@).take(records@.len() as int) =~= record_views(records@));
    out
}

/// The sample that detection looks at: all records where there are at most
/// `sample_size`, and else `sample_size` of them drawn at random.
pub fn take_sample<'a>(records: &'a [Vec<u8>], sample_size: usize) -> (samples: Vec<&'a Vec<u8>>)
    ensures
        records@.len() <= sample_size ==> ref_views(samples@) == record_views(records@),
        records@.len() > sample_size ==> samples@.len() == sample_size && is_sample_of(
            ref_views(samples@),
            record_views(records@),
        ),
{
    if records.len() <= sample_size {
        all_records(records)
    } else {
        choose_samples(records, sample_size)
    }
}

} // verus!
