//! Null-aware elementwise combinators over chunked columns.
use vstd::prelude::*;
use crate::align::{AlignedSegment, align_chunks, is_alignment, segment_fits, seg_total,
    lemma_seg_total_take_succ};
use crate::chunked::{Chunk, ChunkBuilder, ChunkedArray, flatten, lemma_flatten_push,
    lemma_flatten_take_succ, lemma_flatten_index};
use crate::error::ComputeError;

verus! {

/// `r` holds, slot by slot, a result that `f` may return on the slot of `a`.
pub open spec fn maps_each<T, U, F: Fn(Option<T>) -> Option<U>>(
    f: F,
    a: Seq<Option<T>>,
    r: Seq<Option<U>>,
) -> bool {
    &&& r.len() == a.len()
    &&& forall|i: int| 0 <= i < a.len() ==> call_ensures(f, (a[i],), #[trigger] r[i])
}

/// `r` holds, slot by slot, a result that `f` may return on the slots of `a`
/// and `b` at the same position.
pub open spec fn maps_pairwise<T, K, U, F: Fn(Option<T>, Option<K>) -> Option<U>>(
    f: F,
    a: Seq<Option<T>>,
    b: Seq<Option<K>>,
    r: Seq<Option<U>>,
) -> bool {
    &&& a.len() == b.len()
    &&& r.len() == a.len()
    &&& forall|i: int| 0 <= i < a.len() ==> call_ensures(f, (a[i], b[i]), #[trigger] r[i])
}

/// `f` returns one result for each argument pair.
pub open spec fn deterministic2<T, K, U, F: Fn(Option<T>, Option<K>) -> Option<U>>(f: F) -> bool {
    forall|x: Option<T>, y: Option<K>, r1: Option<U>, r2: Option<U>|
        call_ensures(f, (x, y), r1) && call_ensures(f, (x, y), r2) ==> r1 == r2
}

/// A column of `n` copies of `v`.
pub open spec fn repeated<K>(v: Option<K>, n: nat) -> Seq<Option<K>> {
    Seq::new(n, |i: int| v)
}

/// Maps every slot through `f`, chunk by chunk; the result has the chunking of `a`.
pub fn apply<T: Copy, U: Copy + Default, F: Fn(Option<T>) -> Option<U>>(
    a: &ChunkedArray<T>,
    f: F,
) -> (r: ChunkedArray<U>)
    requires
        a.wf(),
        forall|x: Option<T>| call_requires(f, (x,)),
    ensures
        r.wf(),
        r.chunks@.len() == a.chunks@.len(),
        maps_each(f, a@, r@),
{
    let mut chunks: Vec<Chunk<U>> = Vec::new();
    let mut k: usize = 0;
    while k < a.chunks.len()
        invariant
            a.wf(),
            forall|x: Option<T>| call_requires(f, (x,)),
            0 <= k <= a.chunks@.len(),
            chunks@.len() == k,
            forall|j: int| 0 <= j < k ==> (#[trigger] chunks@[j]).wf(),
            maps_each(f, flatten(a.chunks@.take(k as int)), flatten(chunks@)),
        decreases a.chunks@.len() - k,
    {
        let c = &a.chunks[k];
        assert(c.wf());
        let mut b: ChunkBuilder<U> = ChunkBuilder::new();
        let mut j: usize = 0;
        while j < c.len()
            invariant
                c.wf(),
                forall|x: Option<T>| call_requires(f, (x,)),
                0 <= j <= c@.len(),
                b.wf(),
                maps_each(f, c@.take(j as int), b@),
            decreases c@.len() - j,
        {
            let y = f(c.get(j));
            b.push(y);
            assert(c@.take(j as int + 1) =~= c@.take(j as int).push(c@[j as int]));
            j = j + 1;
        }
        assert(c@.take(j as int) =~= c@);
        let nc = b.finish();
        proof {
            lemma_flatten_push(chunks@, nc);
            lemma_flatten_take_succ(a.chunks@, k as int);
            let fa = flatten(a.chunks@.take(k as int));
            let fr = flatten(chunks@);
            assert forall|i: int| 0 <= i < fa.len() + c@.len() implies call_ensures(
                f,
                ((fa + c@)[i],),
                #[trigger] (fr + nc@)[i],
            ) by {
                if i >= fa.len() {
                    assert((fa + c@)[i] == c@[i - fa.len()]);
                    assert((fr + nc@)[i] == nc@[i - fa.len()]);
                }
            }
        }
        chunks.push(nc);
        k = k + 1;
    }
    assert(a.chunks@.take(k as int) =~= a.chunks@);
    ChunkedArray { chunks }
}

/// Combines `a` and `b` slot by slot. The columns are first aligned, and the
/// result has one chunk per aligned segment. Fails with `ShapeMismatch` when
/// the lengths differ.
pub fn binary_elementwise<
    T: Copy,
    K: Copy,
    U: Copy + Default,
    F: Fn(Option<T>, Option<K>) -> Option<U>,
>(a: &ChunkedArray<T>, b: &ChunkedArray<K>, f: F) -> (r: Result<ChunkedArray<U>, ComputeError>)
    requires
        a.wf(),
        b.wf(),
        forall|x: Option<T>, y: Option<K>| call_requires(f, (x, y)),
    ensures
        r is Err <==> a@.len() != b@.len(),
        r is Err ==> r == Err::<ChunkedArray<U>, ComputeError>(ComputeError::ShapeMismatch),
        r is Ok ==> r->Ok_0.wf() && maps_pairwise(f, a@, b@, r->Ok_0@),
{
    let segs = match align_chunks(a, b) {
        Ok(s) => s,
        Err(e) => return Err(e),
    };
    let ghost ac = a.chunks@;
    let ghost bc = b.chunks@;
    let mut chunks: Vec<Chunk<U>> = Vec::new();
    let mut k: usize = 0;
    while k < segs.len()
        invariant
            a.wf(),
            b.wf(),
            ac == a.chunks@,
            bc == b.chunks@,
            forall|x: Option<T>, y: Option<K>| call_requires(f, (x, y)),
            is_alignment(segs@, ac, bc),
            0 <= k <= segs@.len(),
            forall|j: int| 0 <= j < chunks@.len() ==> (#[trigger] chunks@[j]).wf(),
            flatten(chunks@).len() == seg_total(segs@.take(k as int)),
            forall|i: int|
                0 <= i < flatten(chunks@).len() ==> call_ensures(
                    f,
                    (a@[i], b@[i]),
                    #[trigger] flatten(chunks@)[i],
                ),
        decreases segs@.len() - k,
    {
        let seg: AlignedSegment = segs[k];
        let ghost start = seg_total(segs@.take(k as int));
        proof {
            assert(segment_fits(segs@, k as int, ac, bc));
            lemma_seg_total_take_succ(segs@, k as int);
            lemma_seg_total_bound(segs@, k as int + 1);
            assert(ac[seg.left_chunk as int].wf());
            assert(bc[seg.right_chunk as int].wf());
        }
        let lc = &a.chunks[seg.left_chunk];
        let rc = &b.chunks[seg.right_chunk];
        let llen = lc.len();
        let rlen = rc.len();
        let mut out: ChunkBuilder<U> = ChunkBuilder::new();
        let mut j: usize = 0;
        while j < seg.len
            invariant
                llen == lc@.len(),
                rlen == rc@.len(),
                lc.wf(),
                rc.wf(),
                *lc == ac[seg.left_chunk as int],
                *rc == bc[seg.right_chunk as int],
                a@ == flatten(ac),
                b@ == flatten(bc),
                forall|x: Option<T>, y: Option<K>| call_requires(f, (x, y)),
                segment_fits(segs@, k as int, ac, bc),
                seg == segs@[k as int],
                start == seg_total(segs@.take(k as int)),
                0 <= j <= seg.len,
                out.wf(),
                out@.len() == j,
                forall|i: int|
                    0 <= i < j ==> call_ensures(f, (a@[start + i], b@[start + i]), #[trigger] out@[i]),
            decreases seg.len - j,
        {
            let x = lc.get(seg.left_offset + j);
            let y = rc.get(seg.right_offset + j);
            proof {
                lemma_flatten_index(ac, seg.left_chunk as int, seg.left_offset + j);
                lemma_flatten_index(bc, seg.right_chunk as int, seg.right_offset + j);
            }
            let z = f(x, y);
            out.push(z);
            j = j + 1;
        }
        let nc = out.finish();
        proof {
            lemma_flatten_push(chunks@, nc);
            let fr = flatten(chunks@);
            assert forall|i: int| 0 <= i < fr.len() + nc@.len() implies call_ensures(
                f,
                (a@[i], b@[i]),
                #[trigger] (fr + nc@)[i],
            ) by {
                if i >= fr.len() {
                    assert((fr + nc@)[i] == nc@[i - fr.len()]);
                }
            }
        }
        chunks.push(nc);
        k = k + 1;
    }
    assert(segs@.take(k as int) =~= segs@);
    Ok(ChunkedArray { chunks })
}

/// Combines `a` and `b` slot by slot, broadcasting an operand of length one:
/// its single slot is read once and paired with every slot of the other
/// operand. Otherwise it is `binary_elementwise`.
pub fn broadcast_binary_elementwise<
    T: Copy,
    K: Copy,
    U: Copy + Default,
    F: Fn(Option<T>, Option<K>) -> Option<U>,
>(a: &ChunkedArray<T>, b: &ChunkedArray<K>, f: F) -> (r: Result<ChunkedArray<U>, ComputeError>)
    requires
        a.wf(),
        b.wf(),
        forall|x: Option<T>, y: Option<K>| call_requires(f, (x, y)),
    ensures
        a@.len() == 1 ==> r is Ok && r->Ok_0.wf() && r->Ok_0@.len() == b@.len() && forall|i: int|
            0 <= i < b@.len() ==> call_ensures(f, (a@[0], b@[i]), #[trigger] r->Ok_0@[i]),
        a@.len() != 1 && b@.len() == 1 ==> r is Ok && r->Ok_0.wf() && r->Ok_0@.len() == a@.len()
            && forall|i: int|
            0 <= i < a@.len() ==> call_ensures(f, (a@[i], b@[0]), #[trigger] r->Ok_0@[i]),
        a@.len() != 1 && b@.len() != 1 ==> (r is Err <==> a@.len() != b@.len()),
        a@.len() != 1 && b@.len() != 1 && r is Err ==> r == Err::<ChunkedArray<U>, ComputeError>(
            ComputeError::ShapeMismatch,
        ),
        a@.len() != 1 && b@.len() != 1 && r is Ok ==> r->Ok_0.wf() && maps_pairwise(
            f,
            a@,
            b@,
            r->Ok_0@,
        ),
{
    let fr = &f;
    if a.is_unit() {
        let x0 = a.get(0);
        let g = |y: Option<K>| -> (z: Option<U>)
            requires
                call_requires(fr, (x0, y)),
            ensures
                call_ensures(fr, (x0, y), z),
            { fr(x0, y) };
        let r = apply(b, g);
        assert(forall|i: int| 0 <= i < b@.len() ==> call_ensures(g, (b@[i],), #[trigger] r@[i]));
        Ok(r)
    } else if b.is_unit() {
        let y0 = b.get(0);
        let g = |x: Option<T>| -> (z: Option<U>)
            requires
                call_requires(fr, (x, y0)),
            ensures
                call_ensures(fr, (x, y0), z),
            { fr(x, y0) };
        let r = apply(a, g);
        assert(forall|i: int| 0 <= i < a@.len() ==> call_ensures(g, (a@[i],), #[trigger] r@[i]));
        Ok(r)
    } else {
        binary_elementwise(a, b, f)
    }
}

/// Chunk invariance: for a deterministic combinator, binary elementwise over
/// two chunkings of the same left data and two chunkings of the same right
/// data gives the same result.
pub proof fn lemma_binary_chunk_invariant<T, K, U, F: Fn(Option<T>, Option<K>) -> Option<U>>(
    f: F,
    a1: ChunkedArray<T>,
    a2: ChunkedArray<T>,
    b1: ChunkedArray<K>,
    b2: ChunkedArray<K>,
    r1: Seq<Option<U>>,
    r2: Seq<Option<U>>,
)
    requires
        deterministic2(f),
        a1@ == a2@,
        b1@ == b2@,
        maps_pairwise(f, a1@, b1@, r1),
        maps_pairwise(f, a2@, b2@, r2),
    ensures
        r1 == r2,
{
    assert forall|i: int| 0 <= i < r1.len() implies r1[i] == r2[i] by {
        assert(call_ensures(f, (a1@[i], b1@[i]), r1[i]));
        assert(call_ensures(f, (a2@[i], b2@[i]), r2[i]));
    }
    assert(r1 =~= r2);
}

/// Broadcasting a length-one right operand gives what binary elementwise gives
/// against an explicit column that repeats its slot to the left operand's
/// length, for every deterministic combinator.
pub proof fn lemma_broadcast_matches_repeated<T, K, U, F: Fn(Option<T>, Option<K>) -> Option<U>>(
    f: F,
    a: ChunkedArray<T>,
    b: ChunkedArray<K>,
    rep: ChunkedArray<K>,
    r_broadcast: Seq<Option<U>>,
    r_full: Seq<Option<U>>,
)
    requires
        deterministic2(f),
        b@.len() == 1,
        rep@ == repeated(b@[0], a@.len()),
        r_broadcast.len() == a@.len(),
        forall|i: int| 0 <= i < a@.len() ==> call_ensures(f, (a@[i], b@[0]), #[trigger] r_broadcast[i]),
        maps_pairwise(f, a@, rep@, r_full),
    ensures
        r_broadcast == r_full,
{
    assert forall|i: int| 0 <= i < a@.len() implies r_broadcast[i] == r_full[i] by {
        assert(call_ensures(f, (a@[i], b@[0]), r_broadcast[i]));
        assert(call_ensures(f, (a@[i], rep@[i]), r_full[i]));
    }
    assert(r_broadcast =~= r_full);
}

/// The segments before `k` cover no more than all segments.
proof fn lemma_seg_total_bound(segs: Seq<AlignedSegment>, k: int)
    requires
        0 <= k <= segs.len(),
        forall|j: int| 0 <= j < segs.len() ==> segs[j].len >= 0,
    ensures
        seg_total(segs.take(k)) <= seg_total(segs),
    decreases segs.len() - k,
{
    if k < segs.len() {
        lemma_seg_total_take_succ(segs, k);
        lemma_seg_total_bound(segs, k + 1);
    } else {
        assert(segs.take(k) =~= segs);
    }
}

} // verus!
