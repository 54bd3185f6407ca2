//! One generation of Conway's rule on a wrapping three-column neighbourhood.
use vstd::prelude::*;
use crate::chunked::{ChunkBuilder, ChunkedArray, Chunk, lemma_flatten_push};
use crate::error::ComputeError;

verus! {

/// Stored as a single chunk in which every slot is valid.
pub open spec fn is_contiguous(a: ChunkedArray<i64>) -> bool {
    a.chunks@.len() == 1 && forall|i: int| 0 <= i < a@.len() ==> (#[trigger] a@[i]) is Some
}

/// The values of a column whose slots are all valid.
pub open spec fn plain_values(s: Seq<Option<i64>>) -> Seq<int> {
    Seq::new(s.len(), |i: int| s[i]->0 as int)
}

pub open spec fn wrap_prev(i: int, n: int) -> int {
    if i == 0 { n - 1 } else { i - 1 }
}

pub open spec fn wrap_next(i: int, n: int) -> int {
    if i == n - 1 { 0 } else { i + 1 }
}

/// The eight neighbours of cell `i` of `mid`: three on the preceding index,
/// the two side cells on the same index, three on the following index, with
/// indices wrapping around.
pub open spec fn neighbour_sum(lf: Seq<int>, mid: Seq<int>, rt: Seq<int>, i: int) -> int {
    let n = mid.len() as int;
    let p = wrap_prev(i, n);
    let q = wrap_next(i, n);
    lf[p] + mid[p] + rt[p] + lf[i] + rt[i] + lf[q] + mid[q] + rt[q]
}

/// A live cell (1) survives with two or three neighbours, a dead cell (0) is
/// born with exactly three; every other case gives 0.
pub open spec fn life_rule(cell: int, neighbours: int) -> i64 {
    if (cell == 1 && (neighbours == 2 || neighbours == 3)) || (cell == 0 && neighbours == 3) {
        1
    } else {
        0
    }
}

pub open spec fn life_generation(lf: Seq<int>, mid: Seq<int>, rt: Seq<int>) -> Seq<Option<i64>> {
    Seq::new(mid.len(), |i: int| Some(life_rule(mid[i], neighbour_sum(lf, mid, rt, i))))
}

/// The values of a contiguous column, or `NotContiguous`.
fn cont_slice(a: &ChunkedArray<i64>) -> (r: Result<&Vec<i64>, ComputeError>)
    requires
        a.wf(),
    ensures
        r is Ok <==> is_contiguous(*a),
        r is Err ==> r == Err::<&Vec<i64>, ComputeError>(ComputeError::NotContiguous),
        r is Ok ==> r->Ok_0@.len() == a@.len() && forall|i: int|
            0 <= i < a@.len() ==> a@[i] == Some(#[trigger] r->Ok_0@[i]),
{
    if a.chunks.len() != 1 {
        return Err(ComputeError::NotContiguous);
    }
    let c: &Chunk<i64> = &a.chunks[0];
    proof {
        lemma_flatten_push(Seq::empty(), *c);
        assert(a.chunks@ =~= Seq::empty().push(*c));
        assert(a.chunks@[0].wf());
    }
    let mut i: usize = 0;
    let mut all_valid = true;
    match &c.validity {
        Some(m) => {
            while i < m.len()
                invariant
                    0 <= i <= m@.len(),
                    all_valid ==> forall|j: int| 0 <= j < i ==> m@[j],
                    !all_valid ==> exists|j: int| 0 <= j < m@.len() && !m@[j],
                decreases m@.len() - i,
            {
                if !m[i] {
                    all_valid = false;
                }
                i = i + 1;
            }
        },
        None => {},
    }
    if !all_valid {
        proof {
            let m = c.validity->0;
            let j = choose|j: int| 0 <= j < m@.len() && !m@[j];
            assert(a@[j] is None);
        }
        return Err(ComputeError::NotContiguous);
    }
    Ok(&c.values)
}

/// Next generation of the middle column. Each operand must be one chunk
/// without nulls (`NotContiguous` otherwise), and all three the same length
/// (`ShapeMismatch` otherwise).
pub fn life_step(
    lf: &ChunkedArray<i64>,
    curr: &ChunkedArray<i64>,
    rt: &ChunkedArray<i64>,
) -> (r: Result<ChunkedArray<i64>, ComputeError>)
    requires
        lf.wf(),
        curr.wf(),
        rt.wf(),
    ensures
        !(is_contiguous(*lf) && is_contiguous(*curr) && is_contiguous(*rt)) ==> r == Err::<
            ChunkedArray<i64>,
            ComputeError,
        >(ComputeError::NotContiguous),
        is_contiguous(*lf) && is_contiguous(*curr) && is_contiguous(*rt) && !(lf@.len()
            == curr@.len() && curr@.len() == rt@.len()) ==> r == Err::<
            ChunkedArray<i64>,
            ComputeError,
        >(ComputeError::ShapeMismatch),
        is_contiguous(*lf) && is_contiguous(*curr) && is_contiguous(*rt) && lf@.len() == curr@.len()
            && curr@.len() == rt@.len() ==> r is Ok,
        r is Ok ==> r->Ok_0.wf() && r->Ok_0@ == life_generation(
            plain_values(lf@),
            plain_values(curr@),
            plain_values(rt@),
        ),
{
    let lfv = match cont_slice(lf) {
        Ok(v) => v,
        Err(e) => return Err(e),
    };
    let mid = match cont_slice(curr) {
        Ok(v) => v,
        Err(e) => return Err(e),
    };
    let rtv = match cont_slice(rt) {
        Ok(v) => v,
        Err(e) => return Err(e),
    };
    let len = lfv.len();
    if mid.len() != len || rtv.len() != len {
        return Err(ComputeError::ShapeMismatch);
    }
    let ghost l = plain_values(lf@);
    let ghost m = plain_values(curr@);
    let ghost t = plain_values(rt@);
    let mut out: ChunkBuilder<i64> = ChunkBuilder::new();
    let mut idx: usize = 0;
    while idx < len
        invariant
            0 <= idx <= len,
            len == lfv@.len() == mid@.len() == rtv@.len(),
            l.len() == len && m.len() == len && t.len() == len,
            forall|j: int| 0 <= j < len ==> l[j] == lfv@[j] && m[j] == mid@[j] && t[j] == rtv@[j],
            out.wf(),
            out@ == life_generation(l, m, t).take(idx as int),
        decreases len - idx,
    {
        let p: usize = if idx == 0 { len - 1 } else { idx - 1 };
        let q: usize = if idx == len - 1 { 0 } else { idx + 1 };
        let prev_row: i128 = lfv[p] as i128 + mid[p] as i128 + rtv[p] as i128;
        let curr_row: i128 = lfv[idx] as i128 + rtv[idx] as i128;
        let next_row: i128 = lfv[q] as i128 + mid[q] as i128 + rtv[q] as i128;
        let total: i128 = prev_row + curr_row + next_row;
        let val = mid[idx];
        let cell: i64 = if (val == 1 && (total == 2 || total == 3)) || (val == 0 && total == 3) {
            1
        } else {
            0
        };
        assert(total == neighbour_sum(l, m, t, idx as int));
        out.push(Some(cell));
        assert(out@ =~= life_generation(l, m, t).take(idx as int + 1));
        idx = idx + 1;
    }
    assert(life_generation(l, m, t).take(len as int) =~= life_generation(l, m, t));
    let c = out.finish();
    let mut chunks = Vec::new();
    chunks.push(c);
    proof {
        lemma_flatten_push(Seq::empty(), c);
        assert(chunks@ =~= Seq::empty().push(c));
    }
    Ok(ChunkedArray { chunks })
}

/// An all-zero neighbourhood stays all zero.
pub proof fn lemma_life_all_zero(lf: Seq<int>, mid: Seq<int>, rt: Seq<int>)
    requires
        lf.len() == mid.len() && mid.len() == rt.len(),
        forall|i: int| 0 <= i < mid.len() ==> lf[i] == 0 && mid[i] == 0 && rt[i] == 0,
    ensures
        life_generation(lf, mid, rt) == Seq::new(mid.len(), |i: int| Some(0i64)),
{
    let n = mid.len() as int;
    assert forall|i: int| 0 <= i < n implies neighbour_sum(lf, mid, rt, i) == 0 by {
        let p = wrap_prev(i, n);
        let q = wrap_next(i, n);
        assert(0 <= p < n && 0 <= q < n);
    }
    assert(life_generation(lf, mid, rt) =~= Seq::new(mid.len(), |i: int| Some(0i64)));
}

} // verus!
