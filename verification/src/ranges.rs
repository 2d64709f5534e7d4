//! Shared range exciser: removes a set of half-open byte ranges from a buffer
//! while preserving the order of the remaining bytes.

use vstd::prelude::*;

verus! {

/// Largest buffer length the byte scanners accept: keeps every computed
/// range end within `u64` (a machine limit, far above any real file size).
pub const MAX_SCAN_LEN: u64 = 0xFFFF_FFF0_0000_0000;

/// A half-open range `[start, end)` of byte offsets into a buffer.
#[derive(Debug, Copy, Clone)]
pub struct Range {
    pub start: u64,
    pub end: u64,
}

impl Range {
    pub fn new(start: u64, end: u64) -> (r: Range)
        ensures
            r.start == start,
            r.end == end,
    {
        Range { start, end }
    }
}

/// Whether offset `i` falls inside one of the ranges.
pub open spec fn covered(ranges: Seq<Range>, i: int) -> bool {
    exists|k: int| 0 <= k < ranges.len() && (#[trigger] ranges[k]).start <= i < ranges[k].end
}

/// The ranges are ordered by ascending start offset.
pub open spec fn starts_sorted(ranges: Seq<Range>) -> bool {
    forall|j: int, k: int| 0 <= j <= k < ranges.len() ==> ranges[j].start <= ranges[k].start
}

/// The first `n` bytes of `src` with every covered offset removed.
pub open spec fn excise_prefix(src: Seq<u8>, ranges: Seq<Range>, n: int) -> Seq<u8>
    decreases n,
{
    if n <= 0 {
        Seq::empty()
    } else if covered(ranges, n - 1) {
        excise_prefix(src, ranges, n - 1)
    } else {
        excise_prefix(src, ranges, n - 1).push(src[n - 1])
    }
}

/// Every byte of `src` whose offset lies outside all of the ranges, in order.
pub open spec fn excise(src: Seq<u8>, ranges: Seq<Range>) -> Seq<u8> {
    excise_prefix(src, ranges, src.len() as int)
}

proof fn lemma_excise_prefix_uncovered(src: Seq<u8>, ranges: Seq<Range>, n: int)
    requires
        0 <= n <= src.len(),
        forall|i: int| 0 <= i < n ==> !covered(ranges, i),
    ensures
        excise_prefix(src, ranges, n) == src.take(n),
    decreases n,
{
    if n > 0 {
        lemma_excise_prefix_uncovered(src, ranges, n - 1);
        assert(excise_prefix(src, ranges, n) =~= src.take(n));
    } else {
        assert(excise_prefix(src, ranges, n) =~= src.take(n));
    }
}

/// Excising ranges that cover no offset of the buffer returns it unchanged.
pub proof fn lemma_excise_identity(src: Seq<u8>, ranges: Seq<Range>)
    requires
        forall|i: int| 0 <= i < src.len() ==> !covered(ranges, i),
    ensures
        excise(src, ranges) == src,
{
    lemma_excise_prefix_uncovered(src, ranges, src.len() as int);
    assert(src.take(src.len() as int) =~= src);
}

proof fn lemma_excise_prefix_single(src: Seq<u8>, r: Range, n: int)
    requires
        r.start <= r.end,
        0 <= n <= src.len(),
    ensures
        n <= r.start ==> excise_prefix(src, seq![r], n) == src.take(n),
        r.start <= n <= r.end ==> excise_prefix(src, seq![r], n) == src.take(r.start as int),
        r.end <= n ==> excise_prefix(src, seq![r], n) == src.take(r.start as int) + src.subrange(
            r.end as int,
            n,
        ),
    decreases n,
{
    assert(forall|i: int| covered(seq![r], i) <==> r.start <= i < r.end) by {
        assert(forall|i: int| r.start <= i < r.end ==> (#[trigger] seq![r][0]).start <= i
            < seq![r][0].end && covered(seq![r], i));
    }
    if n > 0 {
        lemma_excise_prefix_single(src, r, n - 1);
        if n <= r.start {
            assert(excise_prefix(src, seq![r], n) =~= src.take(n));
        } else if n <= r.end {
            if n - 1 <= r.start {
                assert(src.take(n - 1) =~= src.take(r.start as int));
            }
        } else {
            if r.end <= n - 1 {
                assert(excise_prefix(src, seq![r], n) =~= src.take(r.start as int) + src.subrange(
                    r.end as int,
                    n,
                ));
            } else {
                assert(n - 1 == r.end);
                assert(excise_prefix(src, seq![r], n) =~= src.take(r.start as int) + src.subrange(
                    r.end as int,
                    n,
                ));
            }
        }
    }
}

/// Excising a single in-bounds range keeps exactly the bytes before its start
/// and after its end, in order; the length drops by the range's width.
pub proof fn lemma_excise_single(src: Seq<u8>, r: Range)
    requires
        r.start <= r.end <= src.len(),
    ensures
        excise(src, seq![r]) == src.take(r.start as int) + src.skip(r.end as int),
        excise(src, seq![r]).len() == src.len() - (r.end - r.start),
{
    lemma_excise_prefix_single(src, r, src.len() as int);
    assert(src.subrange(r.end as int, src.len() as int) =~= src.skip(r.end as int));
}

/// Copies `src` without the bytes whose offsets fall inside one of the given
/// half-open ranges.  The ranges must be ordered by ascending start offset;
/// they may overlap or reach past the end of the buffer.
pub fn dont_take_ranges(src: &Vec<u8>, ranges: &Vec<Range>) -> (clean: Vec<u8>)
    requires
        starts_sorted(ranges@),
    ensures
        clean@ == excise(src@, ranges@),
{
    let mut clean_buf: Vec<u8> = Vec::new();
    let mut rg: usize = 0;
    let mut i: usize = 0;
    while i < src.len()
        invariant
            starts_sorted(ranges@),
            rg <= ranges@.len(),
            i <= src@.len(),
            forall|k: int| 0 <= k < rg ==> ranges@[k].end <= i,
            clean_buf@ == excise_prefix(src@, ranges@, i as int),
        decreases src@.len() - i,
    {
        while rg < ranges.len() && ranges[rg].end <= i as u64
            invariant
                rg <= ranges@.len(),
                i < src@.len(),
                forall|k: int| 0 <= k < rg ==> ranges@[k].end <= i,
            decreases ranges@.len() - rg,
        {
            rg = rg + 1;
        }
        let in_range = rg < ranges.len() && ranges[rg].start <= i as u64;
        proof {
            if in_range {
                assert(ranges@[rg as int].start <= i < ranges@[rg as int].end);
                assert(covered(ranges@, i as int));
            } else {
                assert(!covered(ranges@, i as int)) by {
                    if covered(ranges@, i as int) {
                        let k = choose|k: int|
                            0 <= k < ranges@.len() && (#[trigger] ranges@[k]).start <= i
                                < ranges@[k].end;
                        assert(k >= rg);
                        if rg < ranges@.len() {
                            assert(ranges@[rg as int].start <= ranges@[k].start);
                        }
                    }
                }
            }
        }
        if !in_range {
            clean_buf.push(src[i]);
        }
        i = i + 1;
    }
    clean_buf
}

} // verus!
