//! The locked field registry: typed byte ranges that the analyst has pinned,
//! kept sorted by offset. Ranges added through `lock` never overlap.

use crate::datatype::DataType;
use vstd::prelude::*;

verus! {

/// A pinned byte range and the type its bytes are read as.
#[derive(Debug, Clone, Copy, PartialEq, Eq, Structural)]
pub struct LockedField {
    pub byte_offset: usize,
    pub byte_length: usize,
    pub data_type: DataType,
}

impl LockedField {
    /// The first byte position after the range.
    pub open spec fn end(self) -> int {
        self.byte_offset + self.byte_length
    }

    /// Whether the range holds the byte position `pos`.
    pub open spec fn covers(self, pos: int) -> bool {
        self.byte_offset <= pos < self.end()
    }

    /// Whether the range and the half-open interval from `start` to `end`
    /// have a byte in common.
    pub open spec fn intersects(self, start: int, end: int) -> bool {
        !(end <= self.byte_offset || start >= self.end())
    }

    /// Whether the range holds the byte position `pos`.
    pub fn contains(&self, pos: usize) -> (r: bool)
        ensures
            r == self.covers(pos as int),
    {
        pos >= self.byte_offset && pos - self.byte_offset < self.byte_length
    }

    /// Whether the range and the `length` bytes from `start` on have a byte
    /// in common.
    pub fn overlaps(&self, start: usize, length: usize) -> (r: bool)
        ensures
            r == self.intersects(start as int, start + length),
    {
        let new_end: u128 = start as u128 + length as u128;
        let own_end: u128 = self.byte_offset as u128 + self.byte_length as u128;
        !(new_end <= self.byte_offset as u128 || start as u128 >= own_end)
    }
}

/// Whether the offsets never decrease along the sequence.
pub open spec fn sorted(fields: Seq<LockedField>) -> bool {
    forall|i: int, j: int|
        0 <= i <= j < fields.len() ==> (#[trigger] fields[i]).byte_offset <= (
        #[trigger] fields[j]).byte_offset
}

/// Whether every range of the sequence holds at least one byte.
pub open spec fn positive(fields: Seq<LockedField>) -> bool {
    forall|i: int| 0 <= i < fields.len() ==> (#[trigger] fields[i]).byte_length > 0
}

/// Whether no two ranges of the sequence have a byte in common.
pub open spec fn disjoint(fields: Seq<LockedField>) -> bool {
    forall|i: int, j: int|
        0 <= i < j < fields.len() ==> !(#[trigger] fields[i]).intersects(
            (#[trigger] fields[j]).byte_offset as int,
            fields[j].end(),
        )
}

/// Whether some range of the sequence has a byte in common with the
/// interval from `start` to `end`.
pub open spec fn any_intersects(fields: Seq<LockedField>, start: int, end: int) -> bool {
    exists|i: int| 0 <= i < fields.len() && (#[trigger] fields[i]).intersects(start, end)
}

/// Whether some range of the sequence holds the byte position `pos`.
pub open spec fn any_covers(fields: Seq<LockedField>, pos: int) -> bool {
    exists|i: int| 0 <= i < fields.len() && (#[trigger] fields[i]).covers(pos)
}

/// The first index at or after `i` whose range holds the byte position
/// `pos`, or the length.
pub open spec fn first_covering(fields: Seq<LockedField>, pos: int, i: int) -> int
    decreases fields.len() - i,
{
    if i < 0 || i >= fields.len() || fields[i].covers(pos) {
        i
    } else {
        first_covering(fields, pos, i + 1)
    }
}

/// The first range of the sequence that holds the byte position `pos`.
pub open spec fn covering(fields: Seq<LockedField>, pos: int) -> Option<LockedField> {
    let k = first_covering(fields, pos, 0);
    if 0 <= k < fields.len() {
        Some(fields[k])
    } else {
        None
    }
}

/// The first covering range lies at or behind where the search began, no

/// range before it holds the position, and the range at it, where there is

/// one, does.
pub proof fn lemma_first_covering(fields: Seq<LockedField>, pos: int, i: int)
    requires
        0 <= i <= fields.len(),
    ensures
        i <= first_covering(fields, pos, i) <= fields.len(),
        forall|k: int| i <= k < first_covering(fields, pos, i) ==> !(#[trigger] fields[k]).covers(pos),
        first_covering(fields, pos, i) < fields.len() ==> fields[first_covering(
            fields,
            pos,
            i,
        )].covers(pos),
    decreases fields.len() - i,
{
    if i < fields.len() && !fields[i].covers(pos) {
        lemma_first_covering(fields, pos, i + 1);
    }
}

/// Some range holds a position exactly when there is a first one that does.
pub proof fn lemma_covering_some(fields: Seq<LockedField>, pos: int)
    ensures
        covering(fields, pos).is_some() == any_covers(fields, pos),
        covering(fields, pos) matches Some(f) ==> f.covers(pos) && fields.contains(f),
{
    lemma_first_covering(fields, pos, 0);
    let k = first_covering(fields, pos, 0);
    if k < fields.len() {
        assert(fields[k].covers(pos));
    }
}

/// The first index at or after `i` whose range starts behind `offset`, or
/// the length: where a range that starts at `offset` is put.
pub open spec fn insertion_point(fields: Seq<LockedField>, offset: int, i: int) -> int
    decreases fields.len() - i,
{
    if i < 0 || i >= fields.len() || fields[i].byte_offset > offset {
        i
    } else {
        insertion_point(fields, offset, i + 1)
    }
}

/// The sequence with `field` put in behind every range that starts at or
/// before its offset.
pub open spec fn inserted(fields: Seq<LockedField>, field: LockedField) -> Seq<LockedField> {
    let k = insertion_point(fields, field.byte_offset as int, 0);
    if 0 <= k <= fields.len() {
        fields.insert(k, field)
    } else {
        fields.push(field)
    }
}

/// The ranges in the order a stable sort by offset gives them.
pub open spec fn sorted_by_offset(fields: Seq<LockedField>) -> Seq<LockedField>
    decreases fields.len(),
{
    if fields.len() == 0 {
        Seq::empty()
    } else {
        inserted(sorted_by_offset(fields.drop_last()), fields.last())
    }
}

/// The sequence without the ranges that hold the byte position `pos`.
pub open spec fn without_covering(fields: Seq<LockedField>, pos: int) -> Seq<LockedField> {
    fields.filter(|f: LockedField| !f.covers(pos))
}

/// The byte length of `count` consecutive fields of a type. A length beyond
/// the machine's range is cut to it.
pub open spec fn locked_length(data_type: DataType, count: nat) -> nat {
    if data_type.unit() * count <= usize::MAX {
        data_type.unit() * count
    } else {
        usize::MAX as nat
    }
}

/// What an attempt to lock a range came to.
#[derive(Debug, Clone, Copy, PartialEq, Eq, Structural)]
pub enum LockOutcome {
    /// The range was added.
    Locked(LockedField),
    /// The range has a byte in common with a locked one. Nothing changed.
    Overlap,
    /// The range reaches past the end of the record: it needs `needed`
    /// bytes where only `available` are left. Nothing changed.
    TooShort { needed: usize, available: usize },
}

/// What `lock` comes to on a registry holding `fields`.
pub open spec fn lock_outcome(
    fields: Seq<LockedField>,
    byte_offset: usize,
    data_type: DataType,
    count: nat,
    record_len: usize,
) -> LockOutcome {
    let length = locked_length(data_type, count);
    if any_intersects(fields, byte_offset as int, byte_offset + length) {
        LockOutcome::Overlap
    } else if byte_offset + length > record_len {
        LockOutcome::TooShort {
            needed: length as usize,
            available: if record_len >= byte_offset {
                (record_len - byte_offset) as usize
            } else {
                0
            },
        }
    } else {
        LockOutcome::Locked(
            LockedField { byte_offset, byte_length: length as usize, data_type },
        )
    }
}

/// The ranges a registry holds after `lock` with the given outcome.
pub open spec fn after_lock(fields: Seq<LockedField>, outcome: LockOutcome) -> Seq<LockedField> {
    match outcome {
        LockOutcome::Locked(field) => inserted(fields, field),
        _ => fields,
    }
}

/// The insertion point lies at or behind where the search began, every

/// range before it starts at or before the offset, and the range at it,

/// where there is one, starts behind the offset.
pub proof fn lemma_insertion_point(fields: Seq<LockedField>, offset: int, i: int)
    requires
        0 <= i <= fields.len(),
    ensures
        i <= insertion_point(fields, offset, i) <= fields.len(),
        forall|k: int|
            i <= k < insertion_point(fields, offset, i) ==> (#[trigger] fields[k]).byte_offset
                <= offset,
        insertion_point(fields, offset, i) < fields.len() ==> fields[insertion_point(
            fields,
            offset,
            i,
        )].byte_offset > offset,
    decreases fields.len() - i,
{
    if i < fields.len() && fields[i].byte_offset <= offset {
        lemma_insertion_point(fields, offset, i + 1);
    }
}

/// Putting a range into a sorted sequence leaves the sequence sorted.
pub proof fn lemma_inserted_sorted(fields: Seq<LockedField>, field: LockedField)
    requires
        sorted(fields),
    ensures
        sorted(inserted(fields, field)),
        inserted(fields, field).len() == fields.len() + 1,
        inserted(fields, field).to_multiset() == fields.to_multiset().insert(field),
{
    let k = insertion_point(fields, field.byte_offset as int, 0);
    lemma_insertion_point(fields, field.byte_offset as int, 0);
    let out = fields.insert(k, field);
    assert forall|i: int, j: int| 0 <= i <= j < out.len() implies (#[trigger] out[i]).byte_offset
        <= (#[trigger] out[j]).byte_offset by {
        if i < k && j > k {
            assert(out[i] == fields[i]);
            assert(out[j] == fields[j - 1]);
        } else if i < k && j < k {
            assert(out[i] == fields[i]);
            assert(out[j] == fields[j]);
        } else if i > k {
            assert(out[i] == fields[i - 1]);
            assert(out[j] == fields[j - 1]);
        } else if i == k && j > k {
            assert(out[j] == fields[j - 1]);
            assert(fields[k].byte_offset <= fields[j - 1].byte_offset);
        } else if j == k && i < k {
            assert(out[i] == fields[i]);
        }
    }
    vstd::seq_lib::to_multiset_insert(fields, k, field);
}

/// A stable sort by offset gives a sorted sequence with the same ranges.
pub proof fn lemma_sorted_by_offset(fields: Seq<LockedField>)
    ensures
        sorted(sorted_by_offset(fields)),
        sorted_by_offset(fields).len() == fields.len(),
        sorted_by_offset(fields).to_multiset() == fields.to_multiset(),
    decreases fields.len(),
{
    if fields.len() == 0 {
        assert(fields =~= Seq::empty());
    } else {
        lemma_sorted_by_offset(fields.drop_last());
        lemma_inserted_sorted(sorted_by_offset(fields.drop_last()), fields.last());
        assert(fields.drop_last().push(fields.last()) =~= fields);
        vstd::seq_lib::to_multiset_build(fields.drop_last(), fields.last());
    }
}

/// A range that is locked holds at least one byte.
pub proof fn lemma_locked_length_positive(data_type: DataType, count: nat)
    requires
        count >= 1,
    ensures
        locked_length(data_type, count) >= 1,
{
    assert(data_type.unit() * count >= 1) by (nonlinear_arith)
        requires
            data_type.unit() >= 1,
            count >= 1,
    ;
}

/// Ranges that hold a byte each still do so after one of them is locked.
pub proof fn lemma_lock_keeps_positive(
    fields: Seq<LockedField>,
    byte_offset: usize,
    data_type: DataType,
    count: nat,
    record_len: usize,
)
    requires
        positive(fields),
        count >= 1,
    ensures
        positive(after_lock(fields, lock_outcome(fields, byte_offset, data_type, count, record_len))),
{
    lemma_locked_length_positive(data_type, count);
    if let LockOutcome::Locked(field) = lock_outcome(
        fields,
        byte_offset,
        data_type,
        count,
        record_len,
    ) {
        lemma_insertion_point(fields, byte_offset as int, 0);
        let k = insertion_point(fields, byte_offset as int, 0);
        let out = fields.insert(k, field);
        assert forall|i: int| 0 <= i < out.len() implies (#[trigger] out[i]).byte_length > 0 by {
            if i < k {
                assert(out[i] == fields[i]);
            } else if i > k {
                assert(out[i] == fields[i - 1]);
            }
        }
    }
}

/// Dropping ranges leaves ranges that hold a byte each.
pub proof fn lemma_filter_positive(fields: Seq<LockedField>, keep: spec_fn(LockedField) -> bool)
    requires
        positive(fields),
    ensures
        positive(fields.filter(keep)),
{
    let out = fields.filter(keep);
    assert forall|i: int| 0 <= i < out.len() implies (#[trigger] out[i]).byte_length > 0 by {
        fields.lemma_filter_contains_rev(keep, out[i]);
        let w = choose|w: int| 0 <= w < fields.len() && fields[w] == out[i];
        assert(fields[w].byte_length > 0);
    }
}

/// A stable sort leaves ranges that hold a byte each.
pub proof fn lemma_sorted_by_offset_positive(fields: Seq<LockedField>)
    requires
        positive(fields),
    ensures
        positive(sorted_by_offset(fields)),
    decreases fields.len(),
{
    if fields.len() > 0 {
        let init = fields.drop_last();
        let last = fields.last();
        assert(positive(init)) by {
            assert forall|i: int| 0 <= i < init.len() implies (#[trigger] init[i]).byte_length
                > 0 by {
                assert(init[i] == fields[i]);
            }
        }
        lemma_sorted_by_offset_positive(init);
        let before = sorted_by_offset(init);
        lemma_insertion_point(before, last.byte_offset as int, 0);
        let k = insertion_point(before, last.byte_offset as int, 0);
        let out = before.insert(k, last);
        assert(last.byte_length > 0) by {
            assert(fields[fields.len() - 1] == last);
        }
        assert forall|i: int| 0 <= i < out.len() implies (#[trigger] out[i]).byte_length > 0 by {
            if i < k {
                assert(out[i] == before[i]);
            } else if i > k {
                assert(out[i] == before[i - 1]);
            }
        }
    }
}

/// A stable sort leaves a sorted sequence as it is.
pub proof fn lemma_sorted_stays(fields: Seq<LockedField>)
    requires
        sorted(fields),
    ensures
        sorted_by_offset(fields) == fields,
    decreases fields.len(),
{
    if fields.len() == 0 {
        assert(fields =~= Seq::<LockedField>::empty());
    } else {
        let init = fields.drop_last();
        let last = fields.last();
        assert(sorted(init)) by {
            assert forall|i: int, j: int| 0 <= i <= j < init.len() implies (
            #[trigger] init[i]).byte_offset <= (#[trigger] init[j]).byte_offset by {
                assert(fields[i] == init[i] && fields[j] == init[j]);
            }
        }
        lemma_sorted_stays(init);
        lemma_insertion_point(init, last.byte_offset as int, 0);
        let k = insertion_point(init, last.byte_offset as int, 0);
        if k < init.len() {
            assert(fields[k] == init[k]);
            assert(fields[k].byte_offset <= fields[fields.len() - 1].byte_offset);
        }
        assert(init.insert(init.len() as int, last) =~= fields);
    }
}

/// The locked field registry.
pub struct LockRegistry {
    fields: Vec<LockedField>,
}

impl View for LockRegistry {
    type V = Seq<LockedField>;

    closed spec fn view(&self) -> Seq<LockedField> {
        self.fields@
    }
}

impl LockRegistry {
    #[verifier::type_invariant]
    closed spec fn is_sorted(&self) -> bool {
        sorted(self.fields@)
    }

    /// A registry without ranges.
    pub fn new() -> (r: LockRegistry)
        ensures
            r@ == Seq::<LockedField>::empty(),
    {
        LockRegistry { fields: Vec::new() }
    }

    /// The number of ranges.
    pub fn len(&self) -> (n: usize)
        ensures
            n == self@.len(),
    {
        self.fields.len()
    }

    /// Whether the registry holds no range.
    pub fn is_empty(&self) -> (r: bool)
        ensures
            r == (self@.len() == 0),
    {
        self.fields.len() == 0
    }

    /// The ranges, sorted by offset.
    pub fn fields(&self) -> (r: &Vec<LockedField>)
        ensures
            r@ == self@,
            sorted(r@),
    {
        proof {
            use_type_invariant(self);
        }
        &self.fields
    }

    /// Removes every range.
    pub fn clear(&mut self)
        ensures
            final(self)@ == Seq::<LockedField>::empty(),
    {
        self.fields = Vec::new();
    }

    /// Whether some range has a byte in common with the `length` bytes from
    /// `start` on.
    pub fn overlaps_any(&self, start: usize, length: usize) -> (r: bool)
        ensures
            r == any_intersects(self@, start as int, start + length),
    {
        let mut i: usize = 0;
        while i < self.fields.len()
            invariant
                i <= self.fields@.len(),
                forall|k: int|
                    0 <= k < i ==> !(#[trigger] self.fields@[k]).intersects(
                        start as int,
                        start + length,
                    ),
            decreases self.fields@.len() - i,
        {
            if self.fields[i].overlaps(start, length) {
                return true;
            }
            i = i + 1;
        }
        false
    }

    /// The first range, in offset order, that holds the byte position
    /// `pos`.
    pub fn find_covering(&self, pos: usize) -> (r: Option<LockedField>)
        ensures
            r == covering(self@, pos as int),
    {
        let mut i: usize = 0;
        while i < self.fields.len()
            invariant
                i <= self.fields@.len(),
                first_covering(self.fields@, pos as int, 0) == first_covering(
                    self.fields@,
                    pos as int,
                    i as int,
                ),
            decreases self.fields@.len() - i,
        {
            if self.fields[i].contains(pos) {
                return Some(self.fields[i]);
            }
            i = i + 1;
        }
        None
    }

    /// Locks `count` consecutive fields of `data_type` from `byte_offset` on
    /// as one range, in a record of `record_len` bytes. The range is refused
    /// where it has a byte in common with a locked one, and where it reaches
    /// past the end of the record.
    pub fn lock(
        &mut self,
        byte_offset: usize,
        data_type: DataType,
        count: usize,
        record_len: usize,
    ) -> (outcome: LockOutcome)
        requires
            count >= 1,
        ensures
            outcome == lock_outcome(old(self)@, byte_offset, data_type, count as nat, record_len),
            final(self)@ == after_lock(old(self)@, outcome),
    {
        proof {
            use_type_invariant(&*self);
        }
        let unit = data_type.unit_size();
        let length: usize = match unit.checked_mul(count) {
            Some(l) => l,
            None => usize::MAX,
        };
        assert(length == locked_length(data_type, count as nat)) by (nonlinear_arith)
            requires
                unit == data_type.unit(),
                length == if unit * count <= usize::MAX {
                    (unit * count) as usize
                } else {
                    usize::MAX
                },
        ;
        if self.overlaps_any(byte_offset, length) {
            return LockOutcome::Overlap;
        }
        if byte_offset as u128 + length as u128 > record_len as u128 {
            return LockOutcome::TooShort {
                needed: length,
                available: if record_len >= byte_offset {
                    record_len - byte_offset
                } else {
                    0
                },
            };
        }
        let field = LockedField { byte_offset, byte_length: length, data_type };
        let mut k: usize = 0;
        while k < self.fields.len() && self.fields[k].byte_offset <= byte_offset
            invariant
                k <= self.fields@.len(),
                self.fields@ == old(self).fields@,
                insertion_point(self.fields@, byte_offset as int, 0) == insertion_point(
                    self.fields@,
                    byte_offset as int,
                    k as int,
                ),
            decreases self.fields@.len() - k,
        {
            k = k + 1;
        }
        proof {
            lemma_inserted_sorted(self.fields@, field);
        }
        let grown = with_inserted(&self.fields, k, field);
        self.fields = grown;
        LockOutcome::Locked(field)
    }

    /// Removes every range that holds the byte position `byte_offset`, and
    /// says whether there was one.
    pub fn unlock_at(&mut self, byte_offset: usize) -> (removed: bool)
        ensures
            final(self)@ == without_covering(old(self)@, byte_offset as int),
            removed == any_covers(old(self)@, byte_offset as int),
    {
        proof {
            use_type_invariant(&*self);
        }
        let mut kept: Vec<LockedField> = Vec::new();
        let mut removed = false;
        let mut i: usize = 0;
        let n = self.fields.len();
        let ghost keep = |f: LockedField| !f.covers(byte_offset as int);
        while i < n
            invariant
                i <= n,
                n == self.fields@.len(),
                self.fields@ == old(self).fields@,
                keep == |f: LockedField| !f.covers(byte_offset as int),
                kept@ == self.fields@.take(i as int).filter(keep),
                removed == any_covers(self.fields@.take(i as int), byte_offset as int),
            decreases n - i,
        {
            let f = self.fields[i];
            proof {
                let before = self.fields@.take(i as int);
                let next = self.fields@.take(i + 1);
                assert(next.drop_last() =~= before);
                assert(next.last() == f);
                reveal(Seq::filter);
                if any_covers(before, byte_offset as int) {
                    let w = choose|w: int| 0 <= w < before.len() && (#[trigger] before[w]).covers(
                        byte_offset as int);
                    assert(next[w].covers(byte_offset as int));
                }
                if f.covers(byte_offset as int) {
                    assert(next[i as int].covers(byte_offset as int));
                }
                if any_covers(next, byte_offset as int) && !f.covers(byte_offset as int) {
                    let w = choose|w: int| 0 <= w < next.len() && (#[trigger] next[w]).covers(
                        byte_offset as int);
                    assert(before[w].covers(byte_offset as int));
                }
            }
            if f.contains(byte_offset) {
                removed = true;
            } else {
                kept.push(f);
            }
            i = i + 1;
        }
        proof {
            assert(self.fields@.take(n as int) =~= self.fields@);
            lemma_filter_sorted(self.fields@, keep);
        }
        self.fields = kept;
        removed
    }

    /// Replaces the ranges by `fields`, put into offset order by a stable
    /// sort. Overlaps among them are accepted as they are.
    pub fn replace(&mut self, fields: Vec<LockedField>)
        ensures
            final(self)@ == sorted_by_offset(fields@),
    {
        let mut out: Vec<LockedField> = Vec::new();
        let mut i: usize = 0;
        while i < fields.len()
            invariant
                i <= fields@.len(),
                out@ == sorted_by_offset(fields@.take(i as int)),
                sorted(out@),
            decreases fields@.len() - i,
        {
            let field = fields[i];
            let mut k: usize = 0;
            while k < out.len() && out[k].byte_offset <= field.byte_offset
                invariant
                    k <= out@.len(),
                    insertion_point(out@, field.byte_offset as int, 0) == insertion_point(
                        out@,
                        field.byte_offset as int,
                        k as int,
                    ),
                decreases out@.len() - k,
            {
                k = k + 1;
            }
            proof {
                lemma_inserted_sorted(out@, field);
                assert(fields@.take(i + 1).drop_last() =~= fields@.take(i as int));
            }
            out.insert(k, field);
            i = i + 1;
        }
        assert(fields@.take(fields@.len() as int) =~= fields@);
        self.fields = out;
    }
}

/// A copy of `fields` with `field` put in at index `k`.
fn with_inserted(fields: &Vec<LockedField>, k: usize, field: LockedField) -> (out: Vec<
    LockedField,
>)
    requires
        k <= fields@.len(),
    ensures
        out@ == fields@.insert(k as int, field),
{
    let mut out: Vec<LockedField> = Vec::new();
    let mut i: usize = 0;
    while i < k
        invariant
            i <= k <= fields@.len(),
            out@ == fields@.take(i as int),
        decreases k - i,
    {
        out.push(fields[i]);
        assert(out@ =~= fields@.take(i + 1));
        i = i + 1;
    }
    out.push(field);
    while i < fields.len()
        invariant
            k <= i <= fields@.len(),
            out@ == fields@.take(k as int).push(field) + fields@.subrange(k as int, i as int),
        decreases fields@.len() - i,
    {
        out.push(fields[i]);
        assert(out@ =~= fields@.take(k as int).push(field) + fields@.subrange(k as int, i + 1));
        i = i + 1;
    }
    assert(out@ =~= fields@.insert(k as int, field));
    out
}

/// Dropping elements from a sorted sequence leaves it sorted.
pub proof fn lemma_filter_sorted(fields: Seq<LockedField>, keep: spec_fn(LockedField) -> bool)
    requires
        sorted(fields),
    ensures
        sorted(fields.filter(keep)),
    decreases fields.len(),
{
    reveal(Seq::filter);
    if fields.len() > 0 {
        let init = fields.drop_last();
        lemma_filter_sorted(init, keep);
        let out = fields.filter(keep);
        if keep(fields.last()) {
            assert(out == init.filter(keep).push(fields.last()));
            assert forall|i: int, j: int| 0 <= i <= j < out.len() implies (
            #[trigger] out[i]).byte_offset <= (#[trigger] out[j]).byte_offset by {
                if j == out.len() - 1 && i < j {
                    init.lemma_filter_contains_rev(keep, out[i]);
                    let w = choose|w: int| 0 <= w < init.len() && init[w] == out[i];
                    assert(fields[w] == out[i]);
                }
            }
        }
    }
}


/// Dropping ranges from a sequence without overlaps leaves it without
/// overlaps.
pub proof fn lemma_filter_disjoint(fields: Seq<LockedField>, keep: spec_fn(LockedField) -> bool)
    requires
        disjoint(fields),
    ensures
        disjoint(fields.filter(keep)),
    decreases fields.len(),
{
    reveal(Seq::filter);
    if fields.len() > 0 {
        let init = fields.drop_last();
        assert(disjoint(init)) by {
            assert forall|i: int, j: int| 0 <= i < j < init.len() implies !(
            #[trigger] init[i]).intersects((#[trigger] init[j]).byte_offset as int, init[j].end()) by {
                assert(fields[i] == init[i] && fields[j] == init[j]);
            }
        }
        lemma_filter_disjoint(init, keep);
        let out = fields.filter(keep);
        if keep(fields.last()) {
            assert(out == init.filter(keep).push(fields.last()));
            assert forall|i: int, j: int| 0 <= i < j < out.len() implies !(
            #[trigger] out[i]).intersects((#[trigger] out[j]).byte_offset as int, out[j].end()) by {
                if j == out.len() - 1 {
                    init.lemma_filter_contains_rev(keep, out[i]);
                    let w = choose|w: int| 0 <= w < init.len() && init[w] == out[i];
                    assert(fields[w] == out[i]);
                    assert(fields[fields.len() - 1] == out[j]);
                }
            }
        }
    }
}

/// A range that is locked overlaps none that was locked before: a registry
/// without overlaps stays without overlaps under `lock`, whatever the
/// outcome.
pub proof fn lemma_lock_keeps_disjoint(
    fields: Seq<LockedField>,
    byte_offset: usize,
    data_type: DataType,
    count: nat,
    record_len: usize,
)
    requires
        disjoint(fields),
    ensures
        disjoint(
            after_lock(fields, lock_outcome(fields, byte_offset, data_type, count, record_len)),
        ),
{
    let outcome = lock_outcome(fields, byte_offset, data_type, count, record_len);
    if let LockOutcome::Locked(field) = outcome {
        let k = insertion_point(fields, byte_offset as int, 0);
        lemma_insertion_point(fields, byte_offset as int, 0);
        let out = fields.insert(k, field);
        assert(field.end() == byte_offset + locked_length(data_type, count));
        assert forall|i: int, j: int| 0 <= i < j < out.len() implies !(
        #[trigger] out[i]).intersects((#[trigger] out[j]).byte_offset as int, out[j].end()) by {
            let si = if i < k {
                i
            } else {
                i - 1
            };
            let sj = if j < k {
                j
            } else {
                j - 1
            };
            if i == k {
                assert(out[j] == fields[sj]);
                assert(!fields[sj].intersects(byte_offset as int, field.end()));
            } else if j == k {
                assert(out[i] == fields[si]);
                assert(!fields[si].intersects(byte_offset as int, field.end()));
            } else {
                assert(out[i] == fields[si]);
                assert(out[j] == fields[sj]);
            }
        }
    }
}

/// A registry without overlaps stays without overlaps under `unlock_at`.
pub proof fn lemma_unlock_keeps_disjoint(fields: Seq<LockedField>, pos: int)
    requires
        disjoint(fields),
    ensures
        disjoint(without_covering(fields, pos)),
{
    lemma_filter_disjoint(fields, |f: LockedField| !f.covers(pos));
}

/// Round trip: on an empty registry, locking a range and then unlocking at
/// any byte position inside it leaves the registry empty again.
pub proof fn lemma_lock_then_unlock_restores_empty(
    byte_offset: usize,
    data_type: DataType,
    count: nat,
    record_len: usize,
    pos: int,
)
    requires
        count >= 1,
        byte_offset <= pos < byte_offset + locked_length(data_type, count),
    ensures
        without_covering(
            after_lock(
                Seq::empty(),
                lock_outcome(Seq::empty(), byte_offset, data_type, count, record_len),
            ),
            pos,
        ) == Seq::<LockedField>::empty(),
        byte_offset + locked_length(data_type, count) <= record_len ==> lock_outcome(
            Seq::empty(),
            byte_offset,
            data_type,
            count,
            record_len,
        ) is Locked,
{
    reveal(Seq::filter);
    let empty = Seq::<LockedField>::empty();
    let outcome = lock_outcome(empty, byte_offset, data_type, count, record_len);
    let keep = |f: LockedField| !f.covers(pos);
    assert(empty.filter(keep) =~= empty);
    if let LockOutcome::Locked(field) = outcome {
        let one = inserted(empty, field);
        assert(one =~= seq![field]);
        assert(one.drop_last() =~= empty);
        assert(field.covers(pos));
        assert(one.filter(keep) =~= empty);
    }
}

/// Two ranges without a byte in common, both within the record, can be
/// locked on an empty registry in either order, and both orders leave the
/// same registry.
pub proof fn lemma_disjoint_pair_locks_in_either_order(
    a_offset: usize,
    a_type: DataType,
    a_count: nat,
    b_offset: usize,
    b_type: DataType,
    b_count: nat,
    record_len: usize,
)
    requires
        a_count >= 1,
        b_count >= 1,
        a_offset + locked_length(a_type, a_count) <= record_len,
        b_offset + locked_length(b_type, b_count) <= record_len,
        a_offset + locked_length(a_type, a_count) <= b_offset || b_offset + locked_length(
            b_type,
            b_count,
        ) <= a_offset,
    ensures
        ({
            let empty = Seq::<LockedField>::empty();
            let first_a = after_lock(
                empty,
                lock_outcome(empty, a_offset, a_type, a_count, record_len),
            );
            let first_b = after_lock(
                empty,
                lock_outcome(empty, b_offset, b_type, b_count, record_len),
            );
            let a_then_b = lock_outcome(first_a, b_offset, b_type, b_count, record_len);
            let b_then_a = lock_outcome(first_b, a_offset, a_type, a_count, record_len);
            &&& lock_outcome(empty, a_offset, a_type, a_count, record_len) is Locked
            &&& lock_outcome(empty, b_offset, b_type, b_count, record_len) is Locked
            &&& a_then_b is Locked
            &&& b_then_a is Locked
            &&& after_lock(first_a, a_then_b) == after_lock(first_b, b_then_a)
            &&& after_lock(first_a, a_then_b).len() == 2
        }),
{
    let empty = Seq::<LockedField>::empty();
    let la = locked_length(a_type, a_count);
    let lb = locked_length(b_type, b_count);
    assert(la >= 1 && lb >= 1) by (nonlinear_arith)
        requires
            a_count >= 1,
            b_count >= 1,
            a_type.unit() >= 1,
            b_type.unit() >= 1,
            la == locked_length(a_type, a_count),
            lb == locked_length(b_type, b_count),
    ;
    let fa = LockedField { byte_offset: a_offset, byte_length: la as usize, data_type: a_type };
    let fb = LockedField { byte_offset: b_offset, byte_length: lb as usize, data_type: b_type };
    let first_a = inserted(empty, fa);
    let first_b = inserted(empty, fb);
    assert(first_a =~= seq![fa]);
    assert(first_b =~= seq![fb]);
    reveal_with_fuel(insertion_point, 3);
    let both_ab = inserted(first_a, fb);
    let both_ba = inserted(first_b, fa);
    if a_offset < b_offset {
        assert(both_ab =~= seq![fa, fb]);
        assert(both_ba =~= seq![fa, fb]);
    } else {
        assert(both_ab =~= seq![fb, fa]);
        assert(both_ba =~= seq![fb, fa]);
    }
}

/// Of two ranges with a byte in common, the second to be locked is refused
/// and the registry stays as the first lock left it.
pub proof fn lemma_overlapping_pair_second_is_refused(
    a_offset: usize,
    a_type: DataType,
    a_count: nat,
    b_offset: usize,
    b_type: DataType,
    b_count: nat,
    record_len: usize,
)
    requires
        a_count >= 1,
        b_count >= 1,
        a_offset + locked_length(a_type, a_count) <= record_len,
        !(a_offset + locked_length(a_type, a_count) <= b_offset || b_offset + locked_length(
            b_type,
            b_count,
        ) <= a_offset),
    ensures
        ({
            let empty = Seq::<LockedField>::empty();
            let first = after_lock(
                empty,
                lock_outcome(empty, a_offset, a_type, a_count, record_len),
            );
            let second = lock_outcome(first, b_offset, b_type, b_count, record_len);
            &&& first.len() == 1
            &&& second == LockOutcome::Overlap
            &&& after_lock(first, second) == first
        }),
{
    let empty = Seq::<LockedField>::empty();
    let la = locked_length(a_type, a_count);
    let fa = LockedField { byte_offset: a_offset, byte_length: la as usize, data_type: a_type };
    let first = inserted(empty, fa);
    assert(first =~= seq![fa]);
    assert(first[0].intersects(b_offset as int, b_offset + locked_length(b_type, b_count)));
}

} // verus!
