//! Tables keyed by byte strings: counting equal byte strings, grouping
//! records by their first bytes, and putting entries in order of size.
//!
//! A table keeps its keys in the order in which they first came.

use crate::records::{record_views, ref_views};
use vstd::prelude::*;
use vstd::slice::slice_subrange;

verus! {

/// The views of a list of byte slices.
pub open spec fn slice_views(items: Seq<&[u8]>) -> Seq<Seq<u8>> {
    Seq::new(items.len(), |i: int| items[i]@)
}

/// The views of a list of byte vectors.
pub open spec fn key_views(keys: Seq<Vec<u8>>) -> Seq<Seq<u8>> {
    Seq::new(keys.len(), |i: int| keys[i]@)
}

/// Whether two byte strings are the same.
pub fn bytes_eq(a: &[u8], b: &[u8]) -> (r: bool)
    ensures
        r == (a@ == b@),
{
    if a.len() != b.len() {
        return false;
    }
    let mut i: usize = 0;
    while i < a.len()
        invariant
            i <= a@.len(),
            a@.len() == b@.len(),
            forall|k: int| 0 <= k < i ==> a@[k] == b@[k],
        decreases a@.len() - i,
    {
        if a[i] != b[i] {
            return false;
        }
        i = i + 1;
    }
    assert(a@ =~= b@);
    true
}

/// A copy of a byte string.
pub fn copy_bytes(a: &[u8]) -> (v: Vec<u8>)
    ensures
        v@ == a@,
{
    let mut v: Vec<u8> = Vec::new();
    let mut i: usize = 0;
    while i < a.len()
        invariant
            i <= a@.len(),
            v@ == a@.take(i as int),
        decreases a@.len() - i,
    {
        v.push(a[i]);
        assert(v@ =~= a@.take(i + 1));
        i = i + 1;
    }
    assert(a@.take(a@.len() as int) =~= a@);
    v
}

/// The first index at or after `i` of a key, or the length.
pub open spec fn key_place(keys: Seq<Seq<u8>>, key: Seq<u8>, i: int) -> int
    decreases keys.len() - i,
{
    if i < 0 || i >= keys.len() || keys[i] == key {
        i
    } else {
        key_place(keys, key, i + 1)
    }
}

/// The place of a key among the keys, or their number where it is not
/// among them.
pub fn find_key(keys: &Vec<Vec<u8>>, key: &[u8]) -> (k: usize)
    ensures
        k == key_place(key_views(keys@), key@, 0),
        k <= keys@.len(),
{
    let ghost all = key_views(keys@);
    let mut k: usize = 0;
    while k < keys.len() && !bytes_eq(keys[k].as_slice(), key)
        invariant
            k <= keys@.len(),
            all == key_views(keys@),
            key_place(all, key@, 0) == key_place(all, key@, k as int),
        decreases keys@.len() - k,
    {
        assert(all[k as int] != key@);
        k = k + 1;
    }
    assert(k < keys@.len() ==> all[k as int] == key@);
    k
}

/// The windows of `size` bytes of a record, from left to right; none where
/// the size is zero or the record is shorter.
pub open spec fn windows(record: Seq<u8>, size: int) -> Seq<Seq<u8>> {
    if size <= 0 || record.len() < size {
        Seq::empty()
    } else {
        Seq::new((record.len() - size + 1) as nat, |i: int| record.subrange(i, i + size))
    }
}

/// The windows of all records, record by record.
pub open spec fn all_windows(records: Seq<Seq<u8>>, size: int) -> Seq<Seq<u8>>
    decreases records.len(),
{
    if records.len() == 0 {
        Seq::empty()
    } else {
        all_windows(records.drop_last(), size) + windows(records.last(), size)
    }
}

/// The windows of `size` bytes of all records.
pub fn windows_of<'a>(records: &'a [Vec<u8>], size: usize) -> (out: Vec<&'a [u8]>)
    ensures
        slice_views(out@) == all_windows(record_views(records@), size as int),
{
    let ghost all = record_views(records@);
    let mut out: Vec<&'a [u8]> = Vec::new();
    let mut r: usize = 0;
    assert(slice_views(out@) =~= Seq::<Seq<u8>>::empty());
    while r < records.len()
        invariant
            r <= records@.len(),
            all == record_views(records@),
            slice_views(out@) == all_windows(all.take(r as int), size as int),
        decreases records@.len() - r,
    {
        let record = records[r].as_slice();
        let len = record.len();
        let ghost before = slice_views(out@);
        proof {
            assert(all.take(r + 1).drop_last() =~= all.take(r as int));
            assert(all.take(r + 1).last() == record@);
        }
        if size > 0 && len >= size {
            let count = len - size + 1;
            let mut i: usize = 0;
            assert(windows(record@, size as int).take(0) =~= Seq::<Seq<u8>>::empty());
            assert(before + Seq::<Seq<u8>>::empty() =~= before);
            while i < count
                invariant
                    i <= count,
                    count == len - size + 1,
                    size > 0,
                    len == record@.len(),
                    slice_views(out@) == before + windows(record@, size as int).take(i as int),
                decreases count - i,
            {
                let window = slice_subrange(record, i, i + size);
                proof {
                    let w = windows(record@, size as int);
                    assert(w[i as int] == window@);
                    assert(w.take(i + 1) =~= w.take(i as int).push(window@));
                    assert(slice_views(out@.push(window)) =~= slice_views(out@).push(window@));
                    assert(before + w.take(i as int).push(window@) =~= (before + w.take(
                        i as int,
                    )).push(window@));
                }
                out.push(window);
                i = i + 1;
            }
            assert(windows(record@, size as int).take(count as int) =~= windows(
                record@,
                size as int,
            ));
        } else {
            assert(before + windows(record@, size as int) =~= before);
        }
        r = r + 1;
    }
    assert(all.take(records@.len() as int) =~= all);
    out
}

/// A byte string with the number of times it occurs, as plain values.
pub struct CountedView {
    pub bytes: Seq<u8>,
    pub count: nat,
}

/// A byte string with the number of times it occurs.
#[derive(Debug, Clone, PartialEq, Eq)]
pub struct Counted {
    pub bytes: Vec<u8>,
    pub count: usize,
}

impl View for Counted {
    type V = CountedView;

    open spec fn view(&self) -> CountedView {
        CountedView { bytes: self.bytes@, count: self.count as nat }
    }
}

/// The views of a table of counts.
pub open spec fn counted_views(table: Seq<Counted>) -> Seq<CountedView> {
    Seq::new(table.len(), |i: int| table[i]@)
}

/// The keys of a table of counts.
pub open spec fn counted_keys(table: Seq<CountedView>) -> Seq<Seq<u8>> {
    Seq::new(table.len(), |i: int| table[i].bytes)
}

/// The table of counts of a list of byte strings: every byte string that
/// occurs, in the order of first occurrence, with the number of times it
/// occurs.
pub open spec fn counted(items: Seq<Seq<u8>>) -> Seq<CountedView>
    decreases items.len(),
{
    if items.len() == 0 {
        Seq::empty()
    } else {
        let before = counted(items.drop_last());
        let k = key_place(counted_keys(before), items.last(), 0);
        if 0 <= k < before.len() {
            before.update(k, CountedView { bytes: items.last(), count: before[k].count + 1 })
        } else {
            before.push(CountedView { bytes: items.last(), count: 1 })
        }
    }
}

/// How often a byte string occurs in a list.
pub open spec fn occurrences_of(items: Seq<Seq<u8>>, key: Seq<u8>) -> nat
    decreases items.len(),
{
    if items.len() == 0 {
        0
    } else {
        occurrences_of(items.drop_last(), key) + if items.last() == key {
            1nat
        } else {
            0nat
        }
    }
}

/// The place of a key lies at or behind where the search began, no key

/// before it is the key, and the key at it, where there is one, is.
pub proof fn lemma_key_place(keys: Seq<Seq<u8>>, key: Seq<u8>, i: int)
    requires
        0 <= i <= keys.len(),
    ensures
        i <= key_place(keys, key, i) <= keys.len(),
        forall|k: int| i <= k < key_place(keys, key, i) ==> #[trigger] keys[k] != key,
        key_place(keys, key, i) < keys.len() ==> keys[key_place(keys, key, i)] == key,
    decreases keys.len() - i,
{
    if i < keys.len() && keys[i] != key {
        lemma_key_place(keys, key, i + 1);
    }
}

/// In the table of counts no byte string stands twice, every count is the
/// number of occurrences and is not zero, and the counts add up to no more
/// than the number of items.
pub proof fn lemma_counted(items: Seq<Seq<u8>>)
    ensures
        forall|i: int, j: int|
            0 <= i < j < counted(items).len() ==> (#[trigger] counted(items)[i]).bytes != (
            #[trigger] counted(items)[j]).bytes,
        forall|i: int|
            0 <= i < counted(items).len() ==> (#[trigger] counted(items)[i]).count
                == occurrences_of(items, counted(items)[i].bytes) && 1 <= counted(items)[i].count
                <= items.len(),
        forall|key: Seq<u8>| #[trigger]
            occurrences_of(items, key) > 0 ==> key_place(counted_keys(counted(items)), key, 0)
                < counted(items).len(),
        counted(items).len() <= items.len(),
    decreases items.len(),
{
    if items.len() > 0 {
        let init = items.drop_last();
        let last = items.last();
        let before = counted(init);
        let after = counted(items);
        lemma_counted(init);
        let keys = counted_keys(before);
        lemma_key_place(keys, last, 0);
        let k = key_place(keys, last, 0);
        assert forall|i: int| 0 <= i < before.len() implies keys[i] == (#[trigger] before[i]).bytes by {}
        assert forall|i: int, j: int| 0 <= i < j < after.len() implies (#[trigger] after[i]).bytes
            != (#[trigger] after[j]).bytes by {
            if k < before.len() {
                assert(after[i].bytes == before[i].bytes && after[j].bytes == before[j].bytes);
            } else if j == after.len() - 1 {
                assert(after[i] == before[i]);
                assert(keys[i] != last);
            } else {
                assert(after[i] == before[i] && after[j] == before[j]);
            }
        }
        assert forall|i: int| 0 <= i < after.len() implies (#[trigger] after[i]).count
            == occurrences_of(items, after[i].bytes) && 1 <= after[i].count <= items.len() by {
            if k < before.len() {
                if i != k {
                    assert(after[i] == before[i]);
                    assert(keys[i] == before[i].bytes);
                    if i < k {
                        assert(keys[i] != last);
                    } else {
                        assert(before[k].bytes != before[i].bytes);
                    }
                } else {
                    assert(keys[k] == before[k].bytes);
                }
            } else if i < before.len() {
                assert(after[i] == before[i]);
                assert(keys[i] != last);
            } else {
                if occurrences_of(init, last) > 0 {
                    assert(key_place(keys, last, 0) < before.len());
                }
            }
        }
        let after_keys = counted_keys(after);
        assert forall|key: Seq<u8>| #[trigger] occurrences_of(items, key) > 0 implies key_place(
            after_keys,
            key,
            0,
        ) < after.len() by {
            lemma_key_place(after_keys, key, 0);
            let p = key_place(after_keys, key, 0);
            if p >= after.len() {
                if key == last {
                    if k < before.len() {
                        assert(after_keys[k] == last);
                    } else {
                        assert(after_keys[after.len() - 1] == last);
                    }
                } else {
                    assert(occurrences_of(init, key) > 0);
                    let q = key_place(keys, key, 0);
                    lemma_key_place(keys, key, 0);
                    assert(keys[q] == key);
                    assert(after_keys[q] == after[q].bytes);
                    if k < before.len() {
                        assert(after[q].bytes == before[q].bytes);
                    } else {
                        assert(after[q] == before[q]);
                    }
                    assert(keys[q] == before[q].bytes);
                    assert(after_keys[q] == key);
                }
            }
        }
    }
}

/// Counts equal byte strings.
pub fn count_items(items: &[&[u8]]) -> (table: Vec<Counted>)
    ensures
        counted_views(table@) == counted(slice_views(items@)),
{
    let ghost all = slice_views(items@);
    let mut keys: Vec<Vec<u8>> = Vec::new();
    let mut counts: Vec<usize> = Vec::new();
    let mut i: usize = 0;
    while i < items.len()
        invariant
            i <= items@.len(),
            all == slice_views(items@),
            keys@.len() == counts@.len(),
            counted(all.take(i as int)).len() == keys@.len(),
            forall|k: int|
                0 <= k < keys@.len() ==> (#[trigger] counted(all.take(i as int))[k])
                    == (CountedView { bytes: keys@[k]@, count: counts@[k] as nat }),
        decreases items@.len() - i,
    {
        let item = items[i];
        let ghost before = counted(all.take(i as int));
        let ghost next = all.take(i + 1);
        proof {
            assert(next.drop_last() =~= all.take(i as int));
            assert(next.last() == item@);
            assert(counted_keys(before) =~= key_views(keys@));
            lemma_counted(all.take(i as int));
        }
        let k = find_key(&keys, item);
        let ghost after = counted(next);
        if k < keys.len() {
            assert(before[k as int].count <= i);
            counts.set(k, counts[k] + 1);
        } else {
            keys.push(copy_bytes(item));
            counts.push(1);
        }
        proof {
            lemma_key_place(counted_keys(before), item@, 0);
            assert(after.len() == keys@.len());
            assert forall|j: int| 0 <= j < keys@.len() implies (#[trigger] after[j]) == (CountedView {
                bytes: keys@[j]@,
                count: counts@[j] as nat,
            }) by {
                if j < before.len() {
                    assert(before[j].bytes == counted_keys(before)[j]);
                    if j != k {
                        assert(after[j] == before[j]);
                    }
                }
            }
        }
        i = i + 1;
    }
    assert(all.take(items@.len() as int) =~= all);
    let mut table: Vec<Counted> = Vec::new();
    let mut k: usize = 0;
    while k < keys.len()
        invariant
            k <= keys@.len(),
            keys@.len() == counts@.len(),
            table@.len() == k,
            forall|j: int|
                0 <= j < k ==> (#[trigger] table@[j])@ == (CountedView {
                    bytes: keys@[j]@,
                    count: counts@[j] as nat,
                }),
        decreases keys@.len() - k,
    {
        table.push(Counted { bytes: copy_bytes(keys[k].as_slice()), count: counts[k] });
        k = k + 1;
    }
    assert(counted_views(table@) =~= counted(all));
    table
}

/// Whether a list of places puts the sizes in descending order: it holds
/// every place once, the greater size first, and of equal sizes the
/// earlier place first.
pub open spec fn is_descending_order(sizes: Seq<usize>, order: Seq<usize>) -> bool {
    &&& order.len() == sizes.len()
    &&& forall|p: int| 0 <= p < order.len() ==> (#[trigger] order[p]) < sizes.len()
    &&& forall|p: int, q: int|
        0 <= p < q < order.len() ==> sizes[(#[trigger] order[p]) as int] > sizes[(
        #[trigger] order[q]) as int] || (sizes[order[p] as int] == sizes[order[q] as int]
            && order[p] < order[q])
}

/// The first index at or after `i` whose place has a size below `size`, or
/// the length.
pub open spec fn first_smaller(sizes: Seq<usize>, order: Seq<usize>, size: usize, i: int) -> int
    decreases order.len() - i,
{
    if i < 0 || i >= order.len() || order[i] >= sizes.len() || sizes[order[i] as int] < size {
        i
    } else {
        first_smaller(sizes, order, size, i + 1)
    }
}

/// The first `n` places in descending order of their sizes, each place put
/// behind the places of sizes that are not smaller.
pub open spec fn descending(sizes: Seq<usize>, n: nat) -> Seq<usize>
    decreases n,
{
    if n == 0 || n > sizes.len() {
        Seq::empty()
    } else {
        let before = descending(sizes, (n - 1) as nat);
        let k = first_smaller(sizes, before, sizes[n - 1], 0);
        if 0 <= k <= before.len() {
            before.insert(k, (n - 1) as usize)
        } else {
            before
        }
    }
}

/// The places of the sizes in descending order; among equal sizes the
/// earlier place comes first.
pub fn descending_order(sizes: &[usize]) -> (order: Vec<usize>)
    ensures
        order@ == descending(sizes@, sizes@.len()),
        is_descending_order(sizes@, order@),
{
    let mut order: Vec<usize> = Vec::new();
    let mut i: usize = 0;
    while i < sizes.len()
        invariant
            i <= sizes@.len(),
            order@.len() == i,
            order@ == descending(sizes@, i as nat),
            forall|p: int| 0 <= p < order@.len() ==> (#[trigger] order@[p]) < i,
            forall|p: int, q: int|
                0 <= p < q < order@.len() ==> sizes@[(#[trigger] order@[p]) as int] > sizes@[(
                #[trigger] order@[q]) as int] || (sizes@[order@[p] as int] == sizes@[order@[q] as int]
                    && order@[p] < order@[q]),
        decreases sizes@.len() - i,
    {
        let size = sizes[i];
        let mut k: usize = 0;
        while k < order.len() && sizes[order[k]] >= size
            invariant
                k <= order@.len(),
                i < sizes@.len(),
                size == sizes@[i as int],
                forall|p: int| 0 <= p < order@.len() ==> (#[trigger] order@[p]) < i,
                forall|p: int| 0 <= p < k ==> sizes@[(#[trigger] order@[p]) as int] >= size,
                first_smaller(sizes@, order@, size, 0) == first_smaller(
                    sizes@,
                    order@,
                    size,
                    k as int,
                ),
            decreases order@.len() - k,
        {
            k = k + 1;
        }
        let ghost before = order@;
        assert(first_smaller(sizes@, before, size, 0) == k);
        order.insert(k, i);
        proof {
            let after = order@;
            assert forall|p: int| 0 <= p < after.len() implies (#[trigger] after[p]) < i + 1 by {
                if p < k {
                    assert(after[p] == before[p]);
                } else if p > k {
                    assert(after[p] == before[p - 1]);
                }
            }
            assert forall|p: int, q: int| 0 <= p < q < after.len() implies sizes@[(
            #[trigger] after[p]) as int] > sizes@[(#[trigger] after[q]) as int] || (sizes@[after[p] as int]
                == sizes@[after[q] as int] && after[p] < after[q]) by {
                if q < k {
                    assert(after[p] == before[p] && after[q] == before[q]);
                } else if q == k {
                    assert(after[p] == before[p]);
                } else if p < k {
                    assert(after[p] == before[p] && after[q] == before[q - 1]);
                } else if p == k {
                    assert(after[q] == before[q - 1]);
                    assert(sizes@[before[k as int] as int] < size);
                    assert(before[k as int] == before[q - 1] || sizes@[before[k as int] as int]
                        >= sizes@[before[q - 1] as int]);
                } else {
                    assert(after[p] == before[p - 1] && after[q] == before[q - 1]);
                }
            }
        }
        i = i + 1;
    }
    order
}

/// The number of leading places of an order whose sizes are at least
/// `least`, up to `limit`.
pub open spec fn leading(sizes: Seq<usize>, order: Seq<usize>, least: usize, limit: int, n: int) -> int
    decreases order.len() - n,
{
    if n < 0 || n >= order.len() || n >= limit || order[n] >= sizes.len() || sizes[order[n] as int]
        < least {
        n
    } else {
        leading(sizes, order, least, limit, n + 1)
    }
}

/// The places of the greatest sizes, the greatest first: the leading
/// places of the descending order whose size is at least `least`, and at
/// most `limit` of them.
pub fn top_places(sizes: &[usize], least: usize, limit: usize) -> (top: Vec<usize>)
    ensures
        top@ == descending(sizes@, sizes@.len()).take(
            leading(sizes@, descending(sizes@, sizes@.len()), least, limit as int, 0),
        ),
        top@.len() <= limit,
        forall|p: int| 0 <= p < top@.len() ==> (#[trigger] top@[p]) < sizes@.len() && sizes@[top@[p] as int]
            >= least,
{
    let order = descending_order(sizes);
    let mut top: Vec<usize> = Vec::new();
    let mut n: usize = 0;
    while n < order.len() && n < limit && sizes[order[n]] >= least
        invariant
            n <= order@.len(),
            n <= limit,
            is_descending_order(sizes@, order@),
            top@ == order@.take(n as int),
            leading(sizes@, order@, least, limit as int, 0) == leading(
                sizes@,
                order@,
                least,
                limit as int,
                n as int,
            ),
            forall|p: int| 0 <= p < n ==> sizes@[(#[trigger] order@[p]) as int] >= least,
        decreases order@.len() - n,
    {
        top.push(order[n]);
        assert(top@ =~= order@.take(n + 1));
        n = n + 1;
    }
    assert(leading(sizes@, order@, least, limit as int, n as int) == n);
    top
}

/// The first bytes of a record that make its header: `len` of them, or all
/// where the record is shorter.
pub open spec fn header_of(record: Seq<u8>, len: int) -> Seq<u8> {
    if len <= 0 {
        Seq::empty()
    } else if record.len() <= len {
        record
    } else {
        record.take(len)
    }
}

/// A group of records with one header, as plain values.
pub struct GroupView {
    pub header: Seq<u8>,
    pub records: Seq<Seq<u8>>,
}

/// The records that share a header.
#[derive(Debug)]
pub struct HeaderGroup<'a> {
    pub header: Vec<u8>,
    pub records: Vec<&'a Vec<u8>>,
}

/// The headers of a list of groups.
pub open spec fn group_headers(groups: Seq<GroupView>) -> Seq<Seq<u8>> {
    Seq::new(groups.len(), |i: int| groups[i].header)
}

/// The groups of a list of records by header: a group for every header, in
/// the order in which the headers first come, each with its records in
/// their order.
pub open spec fn grouped(records: Seq<Seq<u8>>, len: int) -> Seq<GroupView>
    decreases records.len(),
{
    if records.len() == 0 {
        Seq::empty()
    } else {
        let before = grouped(records.drop_last(), len);
        let header = header_of(records.last(), len);
        let k = key_place(group_headers(before), header, 0);
        if 0 <= k < before.len() {
            before.update(
                k,
                GroupView { header, records: before[k].records.push(records.last()) },
            )
        } else {
            before.push(GroupView { header, records: seq![records.last()] })
        }
    }
}

/// The views of a list of groups.
pub open spec fn group_views(groups: Seq<HeaderGroup>) -> Seq<GroupView> {
    Seq::new(
        groups.len(),
        |i: int| GroupView { header: groups[i].header@, records: ref_views(groups[i].records@) },
    )
}

/// Groups the records by their first `header_len` bytes.
pub fn group_by_header<'a>(records: &'a [Vec<u8>], header_len: usize) -> (groups: Vec<
    HeaderGroup<'a>,
>)
    ensures
        group_views(groups@) == grouped(record_views(records@), header_len as int),
{
    let ghost all = record_views(records@);
    let mut headers: Vec<Vec<u8>> = Vec::new();
    let mut members: Vec<Vec<&'a Vec<u8>>> = Vec::new();
    let mut i: usize = 0;
    while i < records.len()
        invariant
            i <= records@.len(),
            all == record_views(records@),
            headers@.len() == members@.len(),
            grouped(all.take(i as int), header_len as int).len() == headers@.len(),
            forall|k: int|
                0 <= k < headers@.len() ==> (#[trigger] grouped(
                    all.take(i as int),
                    header_len as int,
                )[k]) == (GroupView { header: headers@[k]@, records: ref_views(members@[k]@) }),
        decreases records@.len() - i,
    {
        let record = &records[i];
        let ghost before = grouped(all.take(i as int), header_len as int);
        proof {
            assert(all.take(i + 1).drop_last() =~= all.take(i as int));
            assert(all.take(i + 1).last() == record@);
            assert(group_headers(before) =~= key_views(headers@));
        }
        let cut = if record.len() <= header_len {
            record.len()
        } else {
            header_len
        };
        let header = slice_subrange(record.as_slice(), 0, cut);
        assert(header@ =~= header_of(record@, header_len as int));
        let k = find_key(&headers, header);
        let ghost after = grouped(all.take(i + 1), header_len as int);
        let ghost old_members = members@;
        if k < headers.len() {
            let mut group = members.remove(k);
            assert(group == old_members[k as int]);
            assert(ref_views(group@.push(record)) =~= ref_views(group@).push(record@));
            group.push(record);
            members.insert(k, group);
            assert(forall|j: int|
                0 <= j < old_members.len() && j != k ==> members@[j] == old_members[j]);
        } else {
            headers.push(copy_bytes(header));
            let mut group: Vec<&'a Vec<u8>> = Vec::new();
            group.push(record);
            assert(ref_views(group@) =~= seq![record@]);
            members.push(group);
        }
        proof {
            lemma_key_place(group_headers(before), header@, 0);
            assert(after.len() == headers@.len());
            assert forall|j: int| 0 <= j < headers@.len() implies (#[trigger] after[j]) == (GroupView {
                header: headers@[j]@,
                records: ref_views(members@[j]@),
            }) by {
                if j < before.len() {
                    assert(before[j].header == group_headers(before)[j]);
                    if j != k {
                        assert(after[j] == before[j]);
                    }
                }
            }
        }
        i = i + 1;
    }
    assert(all.take(records@.len() as int) =~= all);
    let ghost result = grouped(all, header_len as int);
    let mut groups: Vec<HeaderGroup<'a>> = Vec::new();
    while members.len() > 0
        invariant
            headers@.len() >= members@.len(),
            result.len() == headers@.len(),
            groups@.len() == headers@.len() - members@.len(),
            forall|k: int|
                0 <= k < members@.len() ==> (#[trigger] result[k]) == (GroupView {
                    header: headers@[k]@,
                    records: ref_views(members@[k]@),
                }),
            forall|k: int|
                0 <= k < groups@.len() ==> result[headers@.len() - 1 - k] == (GroupView {
                    header: (#[trigger] groups@[k]).header@,
                    records: ref_views(groups@[k].records@),
                }),
        decreases members@.len(),
    {
        let at = members.len() - 1;
        let group = members.pop().unwrap();
        groups.push(HeaderGroup { header: copy_bytes(headers[at].as_slice()), records: group });
    }
    let n = groups.len();
    let mut ordered: Vec<HeaderGroup<'a>> = Vec::new();
    while groups.len() > 0
        invariant
            n == result.len(),
            groups@.len() <= n,
            ordered@.len() == n - groups@.len(),
            forall|k: int|
                0 <= k < groups@.len() ==> result[n - 1 - k] == (GroupView {
                    header: (#[trigger] groups@[k]).header@,
                    records: ref_views(groups@[k].records@),
                }),
            forall|k: int|
                0 <= k < ordered@.len() ==> result[k] == (GroupView {
                    header: (#[trigger] ordered@[k]).header@,
                    records: ref_views(ordered@[k].records@),
                }),
        decreases groups@.len(),
    {
        let group = groups.pop().unwrap();
        ordered.push(group);
    }
    assert(group_views(ordered@) =~= result);
    ordered
}

} // verus!
