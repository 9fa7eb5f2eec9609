//! Field boundaries from the variation of byte positions: neighbouring
//! positions that are all fixed, or all varying, are taken as one field.

use vstd::prelude::*;

verus! {

/// A byte position and whether the bytes there hardly vary.
#[derive(Debug, Clone, Copy, PartialEq, Eq, Structural)]
pub struct Position {
    pub position: usize,
    pub is_fixed: bool,
}

/// A stretch of positions of one kind.
#[derive(Debug, Clone, Copy, PartialEq, Eq, Structural)]
pub struct Stretch {
    pub start: usize,
    pub end: usize,
    pub is_fixed: bool,
}

/// What the positions read so far come to: the stretches that have ended,
/// and the start and kind of the one that is open.
pub struct Walk {
    pub done: Seq<Stretch>,
    pub start: usize,
    pub is_fixed: bool,
}

/// The position before `position`; a position of zero has none before it
/// and stands for itself.
pub open spec fn before(position: usize) -> usize {
    if position > 0 {
        (position - 1) as usize
    } else {
        0
    }
}

/// The walk over a list of positions: a stretch ends before every position
/// whose kind differs from that of the position before it.
pub open spec fn walked(stats: Seq<Position>) -> Walk
    decreases stats.len(),
{
    if stats.len() == 0 {
        Walk { done: Seq::empty(), start: 0, is_fixed: false }
    } else if stats.len() == 1 {
        Walk { done: Seq::empty(), start: stats[0].position, is_fixed: stats[0].is_fixed }
    } else {
        let so_far = walked(stats.drop_last());
        let here = stats.last();
        if here.is_fixed != so_far.is_fixed {
            Walk {
                done: so_far.done.push(
                    Stretch {
                        start: so_far.start,
                        end: before(here.position),
                        is_fixed: so_far.is_fixed,
                    },
                ),
                start: here.position,
                is_fixed: here.is_fixed,
            }
        } else {
            so_far
        }
    }
}

/// The stretches of a list of positions; the last ends at the last
/// position.
pub open spec fn stretches(stats: Seq<Position>) -> Seq<Stretch> {
    if stats.len() == 0 {
        Seq::empty()
    } else {
        let walk = walked(stats);
        walk.done.push(
            Stretch { start: walk.start, end: stats.last().position, is_fixed: walk.is_fixed },
        )
    }
}

/// Cuts a list of positions into stretches of one kind.
pub fn detect_field_boundaries(stats: &[Position]) -> (fields: Vec<Stretch>)
    ensures
        fields@ == stretches(stats@),
{
    let mut fields: Vec<Stretch> = Vec::new();
    if stats.len() == 0 {
        return fields;
    }
    let mut start = stats[0].position;
    let mut is_fixed = stats[0].is_fixed;
    let mut i: usize = 1;
    assert(stats@.take(1).len() == 1 && stats@.take(1)[0] == stats@[0]);
    while i < stats.len()
        invariant
            1 <= i <= stats@.len(),
            walked(stats@.take(i as int)) == (Walk { done: fields@, start, is_fixed }),
        decreases stats@.len() - i,
    {
        let here = stats[i];
        proof {
            assert(stats@.take(i + 1).drop_last() =~= stats@.take(i as int));
            assert(stats@.take(i + 1).last() == here);
        }
        if here.is_fixed != is_fixed {
            fields.push(
                Stretch {
                    start,
                    end: if here.position > 0 {
                        here.position - 1
                    } else {
                        0
                    },
                    is_fixed,
                },
            );
            start = here.position;
            is_fixed = here.is_fixed;
        }
        i = i + 1;
    }
    assert(stats@.take(stats@.len() as int) =~= stats@);
    fields.push(Stretch { start, end: stats[stats.len() - 1].position, is_fixed });
    fields
}

/// What a stretch of `len` bytes is likely to be.
pub open spec fn description(is_fixed: bool, len: nat) -> Seq<char> {
    if is_fixed {
        if 1 <= len <= 4 {
            "likely header/delimiter"@
        } else {
            "padding or constant"@
        }
    } else if 1 <= len <= 2 {
        "small field (ID?)"@
    } else if 3 <= len <= 4 {
        "medium field (value?)"@
    } else {
        "large field (data block)"@
    }
}

/// What a stretch of `len` bytes is likely to be.
pub fn field_description(is_fixed: bool, len: usize) -> (text: &'static str)
    ensures
        text@ == description(is_fixed, len as nat),
{
    if is_fixed {
        if 1 <= len && len <= 4 {
            "likely header/delimiter"
        } else {
            "padding or constant"
        }
    } else if 1 <= len && len <= 2 {
        "small field (ID?)"
    } else if 3 <= len && len <= 4 {
        "medium field (value?)"
    } else {
        "large field (data block)"
    }
}

} // verus!
