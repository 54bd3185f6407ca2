//! Distance back to the nearest earlier strictly larger value.
use vstd::prelude::*;
use crate::chunked::{ChunkBuilder, ChunkedArray, lemma_flatten_push};
use crate::error::ComputeError;

verus! {

/// Searching down from index `c`, the first index whose value exceeds `x`,
/// or -1.
pub open spec fn nearest_larger_from(v: Seq<i64>, x: i64, c: int) -> int
    decreases c + 1,
{
    if c < 0 {
        -1
    } else if v[c] > x {
        c
    } else {
        nearest_larger_from(v, x, c - 1)
    }
}

/// The nearest index before `i` holding a value strictly larger than `v[i]`, or -1.
pub open spec fn previous_larger(v: Seq<i64>, i: int) -> int {
    nearest_larger_from(v, v[i], i - 1)
}

/// Slot 0 has no predecessor and is null; slot `i` holds `i - j` for the
/// nearest `j < i` with `v[j] > v[i]`, or 0 when there is none.
pub open spec fn larger_distances(v: Seq<i64>) -> Seq<Option<u64>> {
    Seq::new(
        v.len(),
        |i: int|
            if i == 0 {
                None
            } else if previous_larger(v, i) < 0 {
                Some(0u64)
            } else {
                Some((i - previous_larger(v, i)) as u64)
            },
    )
}

/// The values of a column with no null.
pub open spec fn unwrapped(s: Seq<Option<i64>>) -> Seq<i64> {
    Seq::new(s.len(), |i: int| s[i]->0)
}

proof fn lemma_nearest_larger_char(v: Seq<i64>, x: i64, c: int, j: int)
    requires
        -1 <= j <= c < v.len(),
        j >= 0 ==> v[j] > x,
        forall|m: int| j < m <= c ==> v[m] <= x,
    ensures
        nearest_larger_from(v, x, c) == j,
    decreases c + 1,
{
    if c >= 0 && c != j {
        lemma_nearest_larger_char(v, x, c - 1, j);
    }
}

/// For each slot, the distance back to the nearest earlier slot with a
/// strictly larger value. Every slot must be valid: a null gives
/// `MissingValue`. The search follows, from the preceding index, a chain of
/// back-pointers, each index pointing at its own nearest larger predecessor.
pub fn previous_larger_distance(a: &ChunkedArray<i64>) -> (r: Result<
    ChunkedArray<u64>,
    ComputeError,
>)
    requires
        a.wf(),
    ensures
        r is Err <==> exists|i: int| 0 <= i < a@.len() && a@[i] is None,
        r is Err ==> r == Err::<ChunkedArray<u64>, ComputeError>(ComputeError::MissingValue),
        r is Ok ==> r->Ok_0.wf() && r->Ok_0@ == larger_distances(unwrapped(a@)),
{
    let s = a.to_options();
    let n = s.len();
    let mut vals: Vec<i64> = Vec::new();
    let mut i: usize = 0;
    while i < n
        invariant
            n == s@.len(),
            s@ == a@,
            0 <= i <= n,
            vals@.len() == i,
            forall|m: int| 0 <= m < i ==> a@[m] == Some(#[trigger] vals@[m]),
        decreases n - i,
    {
        match s[i] {
            Some(x) => vals.push(x),
            None => return Err(ComputeError::MissingValue),
        }
        i = i + 1;
    }
    let ghost v = unwrapped(a@);
    assert(vals@ =~= v);
    assert forall|m: int| 0 <= m < n implies a@[m] is Some by {
        assert(a@[m] == Some(vals@[m]));
    }
    let mut back: Vec<Option<usize>> = Vec::new();
    let mut out: ChunkBuilder<u64> = ChunkBuilder::new();
    i = 0;
    while i < n
        invariant
            n == vals@.len(),
            n == a@.len(),
            vals@ == v,
            forall|m: int| 0 <= m < n ==> a@[m] is Some,
            0 <= i <= n,
            back@.len() == i,
            forall|k: int|
                0 <= k < i ==> match #[trigger] back@[k] {
                    Some(j) => j < k && previous_larger(v, k) == j,
                    None => previous_larger(v, k) == -1,
                },
            out.wf(),
            out@ == larger_distances(v).take(i as int),
        decreases n - i,
    {
        let x = vals[i];
        let mut c: Option<usize> = if i == 0 { None } else { Some(i - 1) };
        loop
            invariant
                n == vals@.len(),
                vals@ == v,
                0 <= i < n,
                x == v[i as int],
                back@.len() == i,
                forall|k: int|
                    0 <= k < i ==> match #[trigger] back@[k] {
                        Some(j) => j < k && previous_larger(v, k) == j,
                        None => previous_larger(v, k) == -1,
                    },
                match c {
                    Some(cc) => cc < i && forall|m: int| cc < m < i ==> v[m] <= x,
                    None => forall|m: int| 0 <= m < i ==> v[m] <= x,
                },
            ensures
                match c {
                    Some(cc) => cc < i && v[cc as int] > x && forall|m: int| cc < m < i ==> v[m] <= x,
                    None => forall|m: int| 0 <= m < i ==> v[m] <= x,
                },
            decreases
                match c {
                    Some(cc) => cc + 1,
                    None => 0,
                },
        {
            match c {
                Some(cc) => {
                    if vals[cc] > x {
                        break;
                    }
                    let nb = back[cc];
                    proof {
                        assert(match back@[cc as int] {
                            Some(j) => j < cc && previous_larger(v, cc as int) == j,
                            None => previous_larger(v, cc as int) == -1,
                        });
                        // everything skipped is no larger than v[cc], hence no larger than x
                        let pj = previous_larger(v, cc as int);
                        lemma_nearest_larger_facts(v, v[cc as int], cc - 1);
                        assert forall|m: int| pj < m < i implies v[m] <= x by {
                            if m < cc {
                                assert(v[m] <= v[cc as int]);
                            }
                        }
                    }
                    c = nb;
                },
                None => {
                    break;
                },
            }
        }
        proof {
            match c {
                Some(cc) => {
                    lemma_nearest_larger_char(v, x, i - 1, cc as int);
                },
                None => {
                    lemma_nearest_larger_char(v, x, i - 1, -1);
                },
            }
        }
        let d: Option<u64> = if i == 0 {
            None
        } else {
            match c {
                Some(cc) => Some((i - cc) as u64),
                None => Some(0u64),
            }
        };
        out.push(d);
        back.push(c);
        assert(out@ =~= larger_distances(v).take(i as int + 1));
        i = i + 1;
    }
    assert(larger_distances(v).take(n as int) =~= larger_distances(v));
    let ch = out.finish();
    let mut chunks = Vec::new();
    chunks.push(ch);
    proof {
        lemma_flatten_push(Seq::empty(), ch);
        assert(chunks@ =~= Seq::empty().push(ch));
    }
    Ok(ChunkedArray { chunks })
}

proof fn lemma_nearest_larger_facts(v: Seq<i64>, x: i64, c: int)
    requires
        c < v.len(),
    ensures
        -1 <= nearest_larger_from(v, x, c) <= c || c < -1,
        nearest_larger_from(v, x, c) >= 0 ==> v[nearest_larger_from(v, x, c)] > x,
        forall|m: int| nearest_larger_from(v, x, c) < m <= c ==> v[m] <= x,
    decreases c + 1,
{
    if c >= 0 && v[c] <= x {
        lemma_nearest_larger_facts(v, x, c - 1);
    }
}

/// Slot 0 is null; on a strictly decreasing sequence every later distance is
/// 1; on a strictly increasing one every later distance is 0.
pub proof fn lemma_larger_distance_monotone(v: Seq<i64>)
    ensures
        v.len() > 0 ==> larger_distances(v)[0] is None,
        (forall|i: int| 0 < i < v.len() ==> #[trigger] v[i] < v[i - 1]) ==> forall|i: int|
            0 < i < v.len() ==> #[trigger] larger_distances(v)[i] == Some(1u64),
        (forall|i: int| 0 < i < v.len() ==> #[trigger] v[i] > v[i - 1]) ==> forall|i: int|
            0 < i < v.len() ==> #[trigger] larger_distances(v)[i] == Some(0u64),
{
    if forall|i: int| 0 < i < v.len() ==> #[trigger] v[i] < v[i - 1] {
        assert forall|i: int| 0 < i < v.len() implies #[trigger] larger_distances(v)[i] == Some(
            1u64,
        ) by {
            lemma_nearest_larger_char(v, v[i], i - 1, i - 1);
        }
    }
    if forall|i: int| 0 < i < v.len() ==> #[trigger] v[i] > v[i - 1] {
        assert forall|i: int| 0 < i < v.len() implies #[trigger] larger_distances(v)[i] == Some(
            0u64,
        ) by {
            assert forall|m: int| -1 < m <= i - 1 implies v[m] <= v[i] by {
                lemma_increasing_below(v, m, i);
            }
            lemma_nearest_larger_char(v, v[i], i - 1, -1);
        }
    }
}

proof fn lemma_increasing_below(v: Seq<i64>, m: int, i: int)
    requires
        0 <= m < i < v.len(),
        forall|k: int| 0 < k < v.len() ==> #[trigger] v[k] > v[k - 1],
    ensures
        v[m] < v[i],
    decreases i - m,
{
    assert(v[i] > v[i - 1]);
    if m < i - 1 {
        lemma_increasing_below(v, m, i - 1);
    }
}

} // verus!
