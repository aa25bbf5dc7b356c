//! The bookkeeping of a vectored write: a packet written between a prefix
//! and a suffix, as three segments, by a writer that may take any part of
//! what it is offered. The writing itself happens outside the library; this
//! module decides what to offer next and where a write left off.

use vstd::prelude::*;

verus! {

/// How many bytes the segments before `i` hold together.
pub open spec fn spec_before(lens: Seq<usize>, i: int) -> int
    decreases i,
{
    if i <= 0 {
        0
    } else {
        spec_before(lens, i - 1) + lens[i - 1]
    }
}

/// How many bytes the three segments hold.
pub open spec fn spec_total(lens: Seq<usize>) -> int {
    spec_before(lens, 3)
}

/// The parts still to be written, as (segment, start) pairs: from `index`
/// on, each segment that has bytes at or after `start` (in the first) or at
/// all (in the others).
pub open spec fn spec_pieces(lens: Seq<usize>, index: int, start: int) -> Seq<(usize, usize)>
    decreases 3 - index,
{
    if index >= 3 {
        seq![]
    } else {
        let rest = spec_pieces(lens, index + 1, 0);
        if start < lens[index] {
            seq![(index as usize, start as usize)] + rest
        } else {
            rest
        }
    }
}

/// How many bytes the parts `pieces` of the segments hold.
pub open spec fn spec_piece_bytes(lens: Seq<usize>, pieces: Seq<(usize, usize)>) -> int
    decreases pieces.len(),
{
    if pieces.len() == 0 {
        0
    } else {
        lens[pieces[0].0 as int] - pieces[0].1 + spec_piece_bytes(lens, pieces.drop_first())
    }
}

/// Where a vectored write stands: the segment being written, the offset
/// into it and the bytes written so far.
#[derive(Debug, Clone, Copy, PartialEq, Eq)]
pub struct VectoredWrite {
    pub segment: usize,
    pub offset: usize,
    pub written: usize,
}

impl VectoredWrite {
    /// The position is consistent: `written` bytes are the segments before
    /// `segment` and `offset` bytes of it.
    pub open spec fn wf(&self, lens: [usize; 3]) -> bool {
        &&& self.segment <= 3
        &&& self.segment < 3 ==> self.offset <= lens@[self.segment as int]
        &&& self.segment == 3 ==> self.offset == 0
        &&& self.written == spec_before(lens@, self.segment as int) + self.offset
    }

    /// The position is consistent and stands on a byte still to be written,
    /// or past the last segment.
    pub open spec fn ready(&self, lens: [usize; 3]) -> bool {
        &&& self.wf(lens)
        &&& self.segment < 3 ==> self.offset < lens@[self.segment as int]
    }

    /// Moves past the segments that have nothing left at the position.
    fn skip_finished(self, lens: [usize; 3]) -> (r: Self)
        requires
            self.wf(lens),
        ensures
            r.ready(lens),
            r.written == self.written,
            spec_pieces(lens@, r.segment as int, r.offset as int) == spec_pieces(
                lens@,
                self.segment as int,
                self.offset as int,
            ),
    {
        let mut state = self;
        while state.segment < 3 && state.offset == lens[state.segment]
            invariant
                state.wf(lens),
                state.written == self.written,
                spec_pieces(lens@, state.segment as int, state.offset as int) == spec_pieces(
                    lens@,
                    self.segment as int,
                    self.offset as int,
                ),
            decreases 3 - state.segment,
        {
            state = VectoredWrite { segment: state.segment + 1, offset: 0, written: state.written };
        }
        state
    }

    /// The start of a write: nothing written, at the first byte to write.
    pub fn start(lens: [usize; 3]) -> (r: Self)
        requires
            spec_total(lens@) <= usize::MAX,
        ensures
            r.ready(lens),
            r.written == 0,
            spec_pieces(lens@, r.segment as int, r.offset as int) == spec_pieces(lens@, 0, 0),
    {
        VectoredWrite { segment: 0, offset: 0, written: 0 }.skip_finished(lens)
    }

    /// Whether every byte has been written.
    pub fn is_done(&self, lens: [usize; 3]) -> (r: bool)
        requires
            self.ready(lens),
        ensures
            r == (self.written == spec_total(lens@)),
    {
        proof {
            lemma_before_grows(lens@, self.segment as int);
        }
        self.segment >= 3
    }

    /// The parts to offer the writer next, as (segment, start) pairs: the
    /// rest of the current segment, then each later segment that has bytes.
    /// Together they hold every byte not yet written.
    pub fn pending(&self, lens: [usize; 3]) -> (r: Vec<(usize, usize)>)
        requires
            self.ready(lens),
        ensures
            r@ == spec_pieces(lens@, self.segment as int, self.offset as int),
            spec_piece_bytes(lens@, r@) == spec_total(lens@) - self.written,
    {
        let mut pieces: Vec<(usize, usize)> = Vec::new();
        let mut index = self.segment;
        while index < 3
            invariant
                self.segment <= index <= 3,
                self.ready(lens),
                pieces@ + spec_pieces(
                    lens@,
                    index as int,
                    if index == self.segment {
                        self.offset as int
                    } else {
                        0
                    },
                ) == spec_pieces(lens@, self.segment as int, self.offset as int),
            decreases 3 - index,
        {
            let start = if index == self.segment {
                self.offset
            } else {
                0
            };
            let ghost before = pieces@;
            if start < lens[index] {
                pieces.push((index, start));
                assert(before + spec_pieces(lens@, index as int, start as int) =~= pieces@
                    + spec_pieces(lens@, index + 1, 0));
            }
            index = index + 1;
        }
        proof {
            assert(pieces@ =~= pieces@ + spec_pieces(lens@, 3, 0));
            lemma_piece_bytes(lens@, self.segment as int, self.offset as int);
        }
        pieces
    }

    /// The position after the writer took `progress` bytes of what it was
    /// offered; `None` when it took none, which ends the write.
    pub fn advance(self, lens: [usize; 3], progress: usize) -> (r: Option<Self>)
        requires
            self.ready(lens),
            spec_total(lens@) <= usize::MAX,
            self.written + progress <= spec_total(lens@),
        ensures
            progress == 0 <==> r is None,
            r matches Some(after) ==> after.ready(lens) && after.written == self.written + progress,
    {
        if progress == 0 {
            return None;
        }
        proof {
            lemma_before_grows(lens@, self.segment as int);
        }
        let mut state = self;
        let mut remaining = progress;
        while remaining > 0
            invariant
                state.ready(lens),
                state.written + remaining == self.written + progress,
                spec_total(lens@) <= usize::MAX,
                self.written + progress <= spec_total(lens@),
            decreases remaining,
        {
            proof {
                lemma_before_grows(lens@, state.segment as int);
            }
            let available = lens[state.segment] - state.offset;
            if remaining < available {
                state = VectoredWrite {
                    segment: state.segment,
                    offset: state.offset + remaining,
                    written: state.written + remaining,
                };
                remaining = 0;
            } else {
                remaining = remaining - available;
                let moved = VectoredWrite {
                    segment: state.segment + 1,
                    offset: 0,
                    written: state.written + available,
                };
                state = moved.skip_finished(lens);
            }
        }
        Some(state)
    }
}

/// The bytes before a segment grow with it, up to the total.
proof fn lemma_before_grows(lens: Seq<usize>, i: int)
    requires
        0 <= i <= 3,
        lens.len() == 3,
    ensures
        forall|j: int| 0 <= j <= i ==> spec_before(lens, j) <= spec_before(lens, i),
        spec_before(lens, i) <= spec_total(lens),
        i < 3 ==> spec_before(lens, i) + lens[i] <= spec_total(lens),
        spec_before(lens, i) >= 0,
    decreases 3 - i,
{
    reveal_with_fuel(spec_before, 4);
    if i < 3 {
        lemma_before_grows(lens, i + 1);
    }
    assert forall|j: int| 0 <= j <= i implies spec_before(lens, j) <= spec_before(lens, i) by {
        lemma_before_monotone(lens, j, i);
    }
}

proof fn lemma_before_monotone(lens: Seq<usize>, j: int, i: int)
    requires
        0 <= j <= i,
    ensures
        spec_before(lens, j) <= spec_before(lens, i),
    decreases i - j,
{
    if j < i {
        lemma_before_monotone(lens, j, i - 1);
    }
}

/// The parts still to be written from a position hold every byte after it.
proof fn lemma_piece_bytes(lens: Seq<usize>, index: int, start: int)
    requires
        0 <= index <= 3,
        lens.len() == 3,
        index < 3 ==> 0 <= start <= lens[index],
        index == 3 ==> start == 0,
    ensures
        spec_piece_bytes(lens, spec_pieces(lens, index, start)) == spec_total(lens) - spec_before(
            lens,
            index,
        ) - start,
    decreases 3 - index,
{
    reveal_with_fuel(spec_before, 4);
    if index < 3 {
        lemma_piece_bytes(lens, index + 1, 0);
        let rest = spec_pieces(lens, index + 1, 0);
        if start < lens[index] {
            let all = seq![(index as usize, start as usize)] + rest;
            assert(all.drop_first() =~= rest);
        }
    }
}

} // verus!
