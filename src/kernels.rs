//! Integer kernels built on the combinators.
use vstd::prelude::*;
use crate::chunked::{Chunk, ChunkBuilder, ChunkedArray, flatten, lemma_flatten_push,
    lemma_flatten_take_succ};
use crate::elementwise::{apply, binary_elementwise, broadcast_binary_elementwise};
use crate::error::ComputeError;

verus! {

/// Absolute value in two's complement: the most negative value maps to itself.
pub open spec fn abs_wrap(v: i64) -> i64 {
    if v == i64::MIN {
        v
    } else if v < 0 {
        (-v) as i64
    } else {
        v
    }
}

pub open spec fn abs_wrap32(v: i32) -> i32 {
    if v == i32::MIN {
        v
    } else if v < 0 {
        (-v) as i32
    } else {
        v
    }
}

pub open spec fn abs_opt(o: Option<i64>) -> Option<i64> {
    match o {
        Some(v) => Some(abs_wrap(v)),
        None => None,
    }
}

pub open spec fn abs_opt32(o: Option<i32>) -> Option<i32> {
    match o {
        Some(v) => Some(abs_wrap32(v)),
        None => None,
    }
}

/// Sum of two slots: null when either is null, wrapping on overflow.
pub open spec fn add_opt(x: Option<i64>, y: Option<i64>) -> Option<i64> {
    match (x, y) {
        (Some(a), Some(b)) => Some(a.wrapping_add(b)),
        _ => None,
    }
}

fn wrapping_abs(v: i64) -> (r: i64)
    ensures
        r == abs_wrap(v),
{
    if v == i64::MIN {
        v
    } else if v < 0 {
        -v
    } else {
        v
    }
}

fn wrapping_abs32(v: i32) -> (r: i32)
    ensures
        r == abs_wrap32(v),
{
    if v == i32::MIN {
        v
    } else if v < 0 {
        -v
    } else {
        v
    }
}

/// Absolute value of every valid slot; nulls stay null.
pub fn abs_i64(a: &ChunkedArray<i64>) -> (r: ChunkedArray<i64>)
    requires
        a.wf(),
    ensures
        r.wf(),
        r@ == a@.map_values(|o: Option<i64>| abs_opt(o)),
{
    let f = |o: Option<i64>| -> (z: Option<i64>)
        ensures
            z == abs_opt(o),
        {
            match o {
                Some(v) => Some(wrapping_abs(v)),
                None => None,
            }
        };
    let r = apply(a, f);
    assert(r@ =~= a@.map_values(|o: Option<i64>| abs_opt(o)));
    r
}

/// Absolute value of every valid slot of a 32-bit column.
pub fn abs_i32(a: &ChunkedArray<i32>) -> (r: ChunkedArray<i32>)
    requires
        a.wf(),
    ensures
        r.wf(),
        r@ == a@.map_values(|o: Option<i32>| abs_opt32(o)),
{
    let f = |o: Option<i32>| -> (z: Option<i32>)
        ensures
            z == abs_opt32(o),
        {
            match o {
                Some(v) => Some(wrapping_abs32(v)),
                None => None,
            }
        };
    let r = apply(a, f);
    assert(r@ =~= a@.map_values(|o: Option<i32>| abs_opt32(o)));
    r
}

/// Both masks are absent, or both present with the same flags.
pub open spec fn same_mask(x: Option<Vec<bool>>, y: Option<Vec<bool>>) -> bool {
    match (x, y) {
        (Some(p), Some(q)) => p@ == q@,
        (None, None) => true,
        _ => false,
    }
}

/// Absolute value computed over each chunk's whole value buffer, nulls
/// included, with each chunk's mask carried over unchanged.
pub fn abs_i64_fast(a: &ChunkedArray<i64>) -> (r: ChunkedArray<i64>)
    requires
        a.wf(),
    ensures
        r.wf(),
        r.chunks@.len() == a.chunks@.len(),
        forall|k: int|
            0 <= k < a.chunks@.len() ==> (#[trigger] r.chunks@[k]).values@.len()
                == a.chunks@[k].values@.len() && same_mask(r.chunks@[k].validity, a.chunks@[k].validity),
        r@ == a@.map_values(|o: Option<i64>| abs_opt(o)),
{
    let mut chunks: Vec<Chunk<i64>> = Vec::new();
    let mut k: usize = 0;
    while k < a.chunks.len()
        invariant
            a.wf(),
            0 <= k <= a.chunks@.len(),
            chunks@.len() == k,
            forall|j: int| 0 <= j < k ==> (#[trigger] chunks@[j]).wf(),
            forall|j: int|
                0 <= j < k ==> (#[trigger] chunks@[j]).values@.len() == a.chunks@[j].values@.len()
                    && same_mask(chunks@[j].validity, a.chunks@[j].validity),
            flatten(chunks@) == flatten(a.chunks@.take(k as int)).map_values(
                |o: Option<i64>| abs_opt(o),
            ),
        decreases a.chunks@.len() - k,
    {
        let c = &a.chunks[k];
        assert(c.wf());
        let mut values: Vec<i64> = Vec::new();
        let mut j: usize = 0;
        while j < c.values.len()
            invariant
                0 <= j <= c.values@.len(),
                values@.len() == j,
                forall|m: int| 0 <= m < j ==> #[trigger] values@[m] == abs_wrap(c.values@[m]),
            decreases c.values@.len() - j,
        {
            values.push(wrapping_abs(c.values[j]));
            j = j + 1;
        }
        let validity = match &c.validity {
            Some(m) => Some(copy_mask(m)),
            None => None,
        };
        let nc = Chunk { values, validity };
        assert(nc@ =~= c@.map_values(|o: Option<i64>| abs_opt(o)));
        proof {
            lemma_flatten_push(chunks@, nc);
            lemma_flatten_take_succ(a.chunks@, k as int);
            assert(flatten(a.chunks@.take(k as int + 1)).map_values(|o: Option<i64>| abs_opt(o))
                =~= flatten(chunks@) + nc@);
        }
        chunks.push(nc);
        k = k + 1;
    }
    assert(a.chunks@.take(k as int) =~= a.chunks@);
    ChunkedArray { chunks }
}

fn copy_mask(m: &Vec<bool>) -> (r: Vec<bool>)
    ensures
        r@ == m@,
{
    let mut r: Vec<bool> = Vec::new();
    let mut j: usize = 0;
    while j < m.len()
        invariant
            0 <= j <= m@.len(),
            r@ == m@.take(j as int),
        decreases m@.len() - j,
    {
        r.push(m[j]);
        assert(m@.take(j as int).push(m@[j as int]) =~= m@.take(j as int + 1));
        j = j + 1;
    }
    assert(m@.take(j as int) =~= m@);
    r
}

/// Slot-by-slot sum of two columns of equal length; a null on either side
/// gives null. Fails with `ShapeMismatch` when the lengths differ.
pub fn add_i64(a: &ChunkedArray<i64>, b: &ChunkedArray<i64>) -> (r: Result<
    ChunkedArray<i64>,
    ComputeError,
>)
    requires
        a.wf(),
        b.wf(),
    ensures
        r is Err <==> a@.len() != b@.len(),
        r is Err ==> r == Err::<ChunkedArray<i64>, ComputeError>(ComputeError::ShapeMismatch),
        r is Ok ==> r->Ok_0.wf() && r->Ok_0@ == Seq::new(
            a@.len(),
            |i: int| add_opt(a@[i], b@[i]),
        ),
{
    let f = |x: Option<i64>, y: Option<i64>| -> (z: Option<i64>)
        ensures
            z == add_opt(x, y),
        {
            match (x, y) {
                (Some(p), Some(q)) => Some(p.wrapping_add(q)),
                _ => None,
            }
        };
    match binary_elementwise(a, b, f) {
        Ok(r) => {
            assert(r@ =~= Seq::new(a@.len(), |i: int| add_opt(a@[i], b@[i])));
            Ok(r)
        },
        Err(e) => Err(e),
    }
}

/// Slot-by-slot sum in which an operand of length one is broadcast against
/// every slot of the other. Otherwise as `add_i64`.
pub fn sum_i64(a: &ChunkedArray<i64>, b: &ChunkedArray<i64>) -> (r: Result<
    ChunkedArray<i64>,
    ComputeError,
>)
    requires
        a.wf(),
        b.wf(),
    ensures
        a@.len() == 1 ==> r is Ok && r->Ok_0.wf() && r->Ok_0@ == Seq::new(
            b@.len(),
            |i: int| add_opt(a@[0], b@[i]),
        ),
        a@.len() != 1 && b@.len() == 1 ==> r is Ok && r->Ok_0.wf() && r->Ok_0@ == Seq::new(
            a@.len(),
            |i: int| add_opt(a@[i], b@[0]),
        ),
        a@.len() != 1 && b@.len() != 1 ==> (r is Err <==> a@.len() != b@.len()),
        a@.len() != 1 && b@.len() != 1 && r is Err ==> r == Err::<ChunkedArray<i64>, ComputeError>(
            ComputeError::ShapeMismatch,
        ),
        a@.len() != 1 && b@.len() != 1 && r is Ok ==> r->Ok_0.wf() && r->Ok_0@ == Seq::new(
            a@.len(),
            |i: int| add_opt(a@[i], b@[i]),
        ),
{
    let f = |x: Option<i64>, y: Option<i64>| -> (z: Option<i64>)
        ensures
            z == add_opt(x, y),
        {
            match (x, y) {
                (Some(p), Some(q)) => Some(p.wrapping_add(q)),
                _ => None,
            }
        };
    let r = broadcast_binary_elementwise(a, b, f);
    match r {
        Ok(c) => {
            proof {
                if a@.len() == 1 {
                    assert(c@ =~= Seq::new(b@.len(), |i: int| add_opt(a@[0], b@[i])));
                } else if b@.len() == 1 {
                    assert(c@ =~= Seq::new(a@.len(), |i: int| add_opt(a@[i], b@[0])));
                } else {
                    assert(c@ =~= Seq::new(a@.len(), |i: int| add_opt(a@[i], b@[i])));
                }
            }
            Ok(c)
        },
        Err(e) => Err(e),
    }
}

/// Wrapping sum of the valid slots among the first `i`.
pub open spec fn running_total(s: Seq<Option<i64>>, i: int) -> i64
    decreases i,
{
    if i <= 0 {
        0
    } else {
        match s[i - 1] {
            Some(x) => running_total(s, i - 1).wrapping_add(x),
            None => running_total(s, i - 1),
        }
    }
}

/// Some slot among the first `i` is valid.
pub open spec fn seen_valid(s: Seq<Option<i64>>, i: int) -> bool {
    exists|j: int| 0 <= j < i && s[j] is Some
}

/// Running sum at each valid slot; null slots stay null.
pub open spec fn cumulative(s: Seq<Option<i64>>) -> Seq<Option<i64>> {
    Seq::new(
        s.len(),
        |i: int|
            match s[i] {
                Some(_) => Some(running_total(s, i + 1)),
                None => None,
            },
    )
}

/// Running sum at every slot from the first valid one on; a null slot repeats
/// the sum so far; slots before the first valid one are null.
pub open spec fn cumulative_carried(s: Seq<Option<i64>>) -> Seq<Option<i64>> {
    Seq::new(
        s.len(),
        |i: int|
            if seen_valid(s, i + 1) {
                Some(running_total(s, i + 1))
            } else {
                None
            },
    )
}

fn one_chunk(b: ChunkBuilder<i64>) -> (r: ChunkedArray<i64>)
    requires
        b.wf(),
    ensures
        r.wf(),
        r@ == b@,
{
    let c = b.finish();
    let mut chunks = Vec::new();
    chunks.push(c);
    proof {
        lemma_flatten_push(Seq::empty(), c);
        assert(chunks@ =~= Seq::empty().push(c));
    }
    ChunkedArray { chunks }
}

/// Cumulative sum that skips nulls: each valid slot receives the wrapping sum
/// of all valid slots up to and including it.
pub fn cum_sum(a: &ChunkedArray<i64>) -> (r: ChunkedArray<i64>)
    requires
        a.wf(),
    ensures
        r.wf(),
        r@ == cumulative(a@),
{
    let s = a.to_options();
    let mut out: ChunkBuilder<i64> = ChunkBuilder::new();
    let mut state: i64 = 0;
    let mut i: usize = 0;
    while i < s.len()
        invariant
            s@ == a@,
            0 <= i <= s@.len(),
            state == running_total(a@, i as int),
            out.wf(),
            out@ == cumulative(a@).take(i as int),
        decreases s@.len() - i,
    {
        match s[i] {
            Some(x) => {
                state = state.wrapping_add(x);
                out.push(Some(state));
            },
            None => {
                out.push(None);
            },
        }
        assert(out@ =~= cumulative(a@).take(i as int + 1));
        i = i + 1;
    }
    assert(cumulative(a@).take(i as int) =~= cumulative(a@));
    one_chunk(out)
}

/// Cumulative sum that carries the running sum across nulls once a valid
/// slot has been seen.
pub fn cum_sum_carried(a: &ChunkedArray<i64>) -> (r: ChunkedArray<i64>)
    requires
        a.wf(),
    ensures
        r.wf(),
        r@ == cumulative_carried(a@),
{
    let s = a.to_options();
    let mut out: ChunkBuilder<i64> = ChunkBuilder::new();
    let mut state: Option<i64> = None;
    let mut i: usize = 0;
    while i < s.len()
        invariant
            s@ == a@,
            0 <= i <= s@.len(),
            state is Some <==> seen_valid(a@, i as int),
            state is Some ==> state->0 == running_total(a@, i as int),
            !seen_valid(a@, i as int) ==> running_total(a@, i as int) == 0,
            out.wf(),
            out@ == cumulative_carried(a@).take(i as int),
        decreases s@.len() - i,
    {
        let next = match (state, s[i]) {
            (Some(st), Some(x)) => Some(st.wrapping_add(x)),
            (Some(st), None) => Some(st),
            (None, Some(x)) => Some(x),
            (None, None) => None,
        };
        proof {
            if s@[i as int] is Some {
                assert(seen_valid(a@, i as int + 1));
            }
            if seen_valid(a@, i as int) {
                let j = choose|j: int| 0 <= j < i && a@[j] is Some;
                assert(seen_valid(a@, i as int + 1));
            }
            if seen_valid(a@, i as int + 1) && s@[i as int] is None {
                let j = choose|j: int| 0 <= j < i + 1 && a@[j] is Some;
                assert(seen_valid(a@, i as int));
            }
            if !seen_valid(a@, i as int) && s@[i as int] is Some {
                assert(0i64.wrapping_add(s@[i as int]->0) == s@[i as int]->0);
            }
        }
        state = next;
        out.push(next);
        assert(out@ =~= cumulative_carried(a@).take(i as int + 1));
        i = i + 1;
    }
    assert(cumulative_carried(a@).take(i as int) =~= cumulative_carried(a@));
    one_chunk(out)
}

} // verus!
