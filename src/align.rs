//! Pairing the chunks of two columns whose chunk boundaries differ.
use vstd::prelude::*;
use crate::chunked::{Chunk, ChunkedArray, flatten, prefix_len, lemma_prefix_len_bounds,
    lemma_prefix_len_full};
use crate::error::ComputeError;

verus! {

/// A run of `len` slots that lies inside one chunk on each side: it starts at
/// `left_offset` in chunk `left_chunk` of the left column and at
/// `right_offset` in chunk `right_chunk` of the right column.
#[derive(Clone, Copy, Debug, PartialEq, Eq)]
pub struct AlignedSegment {
    pub left_chunk: usize,
    pub left_offset: usize,
    pub right_chunk: usize,
    pub right_offset: usize,
    pub len: usize,
}

/// Total number of slots covered by a sequence of segments.
pub open spec fn seg_total(segs: Seq<AlignedSegment>) -> int
    decreases segs.len(),
{
    if segs.len() == 0 {
        0
    } else {
        seg_total(segs.drop_last()) + segs.last().len
    }
}

/// Segment `k` starts, on both sides, at the logical position where the
/// previous segments end, stays inside one chunk of each side, and runs to
/// the end of its chunk on at least one side.
pub open spec fn segment_fits<T, K>(
    segs: Seq<AlignedSegment>,
    k: int,
    a: Seq<Chunk<T>>,
    b: Seq<Chunk<K>>,
) -> bool {
    let s = segs[k];
    let start = seg_total(segs.take(k));
    &&& s.len > 0
    &&& s.left_chunk < a.len()
    &&& s.left_offset + s.len <= a[s.left_chunk as int]@.len()
    &&& prefix_len(a, s.left_chunk as int) + s.left_offset == start
    &&& s.right_chunk < b.len()
    &&& s.right_offset + s.len <= b[s.right_chunk as int]@.len()
    &&& prefix_len(b, s.right_chunk as int) + s.right_offset == start
    &&& (s.left_offset + s.len == a[s.left_chunk as int]@.len() || s.right_offset + s.len
        == b[s.right_chunk as int]@.len())
}

/// The segments cover both columns exactly once, in order.
pub open spec fn is_alignment<T, K>(
    segs: Seq<AlignedSegment>,
    a: Seq<Chunk<T>>,
    b: Seq<Chunk<K>>,
) -> bool {
    &&& seg_total(segs) == flatten(a).len()
    &&& seg_total(segs) == flatten(b).len()
    &&& forall|k: int| 0 <= k < segs.len() ==> #[trigger] segment_fits(segs, k, a, b)
}

pub proof fn lemma_seg_total_push(segs: Seq<AlignedSegment>, s: AlignedSegment)
    ensures
        seg_total(segs.push(s)) == seg_total(segs) + s.len,
        segs.push(s).take(segs.len() as int) == segs,
{
    assert(segs.push(s).drop_last() =~= segs);
    assert(segs.push(s).take(segs.len() as int) =~= segs);
}

pub proof fn lemma_seg_total_take_succ(segs: Seq<AlignedSegment>, k: int)
    requires
        0 <= k < segs.len(),
    ensures
        seg_total(segs.take(k + 1)) == seg_total(segs.take(k)) + segs[k].len,
{
    assert(segs.take(k + 1).drop_last() =~= segs.take(k));
}

/// Matches the chunks of `a` and `b` into equal-length segments, slicing the
/// longer of the two current chunks down to the shorter one's remainder.
/// Fails with `ShapeMismatch` when the columns differ in length.
pub fn align_chunks<T, K>(a: &ChunkedArray<T>, b: &ChunkedArray<K>) -> (r: Result<
    Vec<AlignedSegment>,
    ComputeError,
>)
    ensures
        r is Err <==> a@.len() != b@.len(),
        r is Err ==> r == Err::<Vec<AlignedSegment>, ComputeError>(ComputeError::ShapeMismatch),
        r is Ok ==> is_alignment(r->Ok_0@, a.chunks@, b.chunks@),
{
    let ghost ac = a.chunks@;
    let ghost bc = b.chunks@;
    let ln = a.chunks.len();
    let rn = b.chunks.len();
    let mut segs: Vec<AlignedSegment> = Vec::new();
    let mut li: usize = 0;
    let mut lo: usize = 0;
    let mut ri: usize = 0;
    let mut ro: usize = 0;
    let ghost mut pos: int = 0;
    proof {
        assert(ac.take(0) =~= Seq::<Chunk<T>>::empty());
        assert(bc.take(0) =~= Seq::<Chunk<K>>::empty());
    }
    loop
        invariant
            ln == ac.len(),
            rn == bc.len(),
            ac == a.chunks@,
            bc == b.chunks@,
            li <= ln,
            ri <= rn,
            li < ln ==> lo <= ac[li as int]@.len(),
            li == ln ==> lo == 0,
            ri < rn ==> ro <= bc[ri as int]@.len(),
            ri == rn ==> ro == 0,
            pos == prefix_len(ac, li as int) + lo,
            pos == prefix_len(bc, ri as int) + ro,
            pos <= flatten(ac).len(),
            seg_total(segs@) == pos,
            forall|k: int| 0 <= k < segs@.len() ==> #[trigger] segment_fits(segs@, k, ac, bc),
        decreases flatten(ac).len() - pos, ln - li, rn - ri,
    {
        if li < ln && lo == a.chunks[li].len() {
            proof {
                lemma_prefix_len_bounds(ac, li as int);
            }
            li = li + 1;
            lo = 0;
            continue;
        }
        if ri < rn && ro == b.chunks[ri].len() {
            proof {
                lemma_prefix_len_bounds(bc, ri as int);
            }
            ri = ri + 1;
            ro = 0;
            continue;
        }
        proof {
            lemma_prefix_len_full(ac);
            lemma_prefix_len_full(bc);
            if li < ln {
                lemma_prefix_len_bounds(ac, li as int);
                lemma_prefix_up_to_end(ac, li as int + 1);
            }
            if ri < rn {
                lemma_prefix_len_bounds(bc, ri as int);
                lemma_prefix_up_to_end(bc, ri as int + 1);
            }
        }
        if li == ln || ri == rn {
            if li == ln && ri == rn {
                return Ok(segs);
            }
            return Err(ComputeError::ShapeMismatch);
        }
        let lrem = a.chunks[li].len() - lo;
        let rrem = b.chunks[ri].len() - ro;
        let take = if lrem < rrem { lrem } else { rrem };
        let seg = AlignedSegment {
            left_chunk: li,
            left_offset: lo,
            right_chunk: ri,
            right_offset: ro,
            len: take,
        };
        proof {
            lemma_seg_total_push(segs@, seg);
            assert forall|k: int| 0 <= k < segs@.len() + 1 implies #[trigger] segment_fits(
                segs@.push(seg),
                k,
                ac,
                bc,
            ) by {
                if k < segs@.len() {
                    assert(segs@.push(seg).take(k) =~= segs@.take(k));
                    assert(segment_fits(segs@, k, ac, bc));
                }
            }
        }
        segs.push(seg);
        lo = lo + take;
        ro = ro + take;
        proof {
            pos = pos + take;
        }
    }
}

/// The first `k` chunks hold no more than the whole column.
proof fn lemma_prefix_up_to_end<T>(cs: Seq<Chunk<T>>, k: int)
    requires
        0 <= k <= cs.len(),
    ensures
        prefix_len(cs, k) <= flatten(cs).len(),
    decreases cs.len() - k,
{
    if k < cs.len() {
        lemma_prefix_len_bounds(cs, k);
    } else {
        lemma_prefix_len_full(cs);
    }
}

} // verus!
