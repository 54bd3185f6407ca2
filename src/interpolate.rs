//! Linear interpolation of interior null runs.
use vstd::prelude::*;
use crate::chunked::{ChunkBuilder, ChunkedArray};

verus! {

/// Index of the nearest valid slot strictly before `i`, or -1 when there is none.
pub open spec fn last_valid_before(s: Seq<Option<i64>>, i: int) -> int
    decreases i,
{
    if i <= 0 {
        -1
    } else if s[i - 1] is Some {
        i - 1
    } else {
        last_valid_before(s, i - 1)
    }
}

/// Index of the nearest valid slot strictly after `i`, or `s.len()` when there is none.
pub open spec fn next_valid_after(s: Seq<Option<i64>>, i: int) -> int
    decreases s.len() - i,
{
    if i + 1 >= s.len() {
        s.len() as int
    } else if s[i + 1] is Some {
        i + 1
    } else {
        next_valid_after(s, i + 1)
    }
}

/// Division truncating toward zero, as the integer type's own `/` does.
pub open spec fn trunc_div(x: int, d: int) -> int {
    if x >= 0 {
        x / d
    } else {
        -((-x) / d)
    }
}

/// The value `step` positions after `low` on the way to `high`, reached in
/// `steps` positions: `low + step * ((high - low) / steps)`, where the slope is
/// truncated first.
pub open spec fn fill_value(low: i64, high: i64, steps: int, step: int) -> int {
    low + step * trunc_div(high - low, steps)
}

/// What interpolation makes of slot `i`: a valid slot is kept; a null slot with
/// a valid slot on each side is filled on the line between them; any other null
/// stays null.
pub open spec fn interpolated_slot(s: Seq<Option<i64>>, i: int) -> Option<i64> {
    if s[i] is Some {
        s[i]
    } else {
        let lo = last_valid_before(s, i);
        let hi = next_valid_after(s, i);
        if lo < 0 || hi >= s.len() {
            None
        } else {
            Some(fill_value(s[lo]->0, s[hi]->0, hi - lo, i - lo) as i64)
        }
    }
}

pub open spec fn interpolated(s: Seq<Option<i64>>) -> Seq<Option<i64>> {
    Seq::new(s.len(), |i: int| interpolated_slot(s, i))
}

/// A filled value lies between its two endpoints, so it fits the type.
pub proof fn lemma_fill_between(low: i64, high: i64, steps: int, step: int)
    requires
        0 < step < steps,
    ensures
        low <= high ==> low <= fill_value(low, high, steps, step) <= high,
        high < low ==> high <= fill_value(low, high, steps, step) <= low,
{
    let d = high - low;
    if d >= 0 {
        let q = d / steps;
        assert(q * steps <= d) by (nonlinear_arith)
            requires q == d / steps, steps > 0, d >= 0;
        assert(0 <= q) by (nonlinear_arith)
            requires q == d / steps, steps > 0, d >= 0;
        assert(0 <= step * q <= steps * q) by (nonlinear_arith)
            requires 0 < step < steps, 0 <= q;
    } else {
        let q = (-d) / steps;
        assert(q * steps <= -d) by (nonlinear_arith)
            requires q == (-d) / steps, steps > 0, -d > 0;
        assert(0 <= q) by (nonlinear_arith)
            requires q == (-d) / steps, steps > 0, -d > 0;
        assert(0 <= step * q <= steps * q) by (nonlinear_arith)
            requires 0 < step < steps, 0 <= q;
        assert(step * (-q) == -(step * q)) by (nonlinear_arith);
    }
}

proof fn lemma_last_valid_run(s: Seq<Option<i64>>, lo: int, k: int)
    requires
        0 <= lo < k <= s.len(),
        s[lo] is Some,
        forall|m: int| lo < m < k ==> s[m] is None,
    ensures
        last_valid_before(s, k) == lo,
    decreases k,
{
    if k - 1 > lo {
        lemma_last_valid_run(s, lo, k - 1);
    }
}

proof fn lemma_no_valid_before(s: Seq<Option<i64>>, k: int)
    requires
        0 <= k <= s.len(),
        forall|m: int| 0 <= m < k ==> s[m] is None,
    ensures
        last_valid_before(s, k) == -1,
    decreases k,
{
    if k > 0 {
        lemma_no_valid_before(s, k - 1);
    }
}

proof fn lemma_next_valid_run(s: Seq<Option<i64>>, k: int, hi: int)
    requires
        0 <= k < hi <= s.len(),
        hi < s.len() ==> s[hi] is Some,
        forall|m: int| k < m < hi ==> s[m] is None,
    ensures
        next_valid_after(s, k) == hi,
    decreases hi - k,
{
    if k + 1 < hi {
        lemma_next_valid_run(s, k + 1, hi);
    }
}

/// `low + step * slope`.
fn linear_itp(low: i64, step: usize, slope: i128) -> (r: i64)
    requires
        -0x1_0000_0000_0000_0000 <= slope <= 0x1_0000_0000_0000_0000,
        i64::MIN <= low + step * slope <= i64::MAX,
    ensures
        r == low + step * slope,
{
    let p: i128 = (step as i128) * slope;
    (low as i128 + p) as i64
}

/// Pushes the `steps - 1` values strictly between `low` and `high`.
fn signed_interp(low: i64, high: i64, steps: usize, out: &mut ChunkBuilder<i64>)
    requires
        old(out).wf(),
        1 <= steps,
    ensures
        final(out).wf(),
        final(out)@ == old(out)@ + Seq::new(
            (steps - 1) as nat,
            |k: int| Some(fill_value(low, high, steps as int, k + 1) as i64),
        ),
{
    let d: i128 = high as i128 - low as i128;
    let slope: i128 = if d >= 0 {
        (d as u128 / steps as u128) as i128
    } else {
        -(((-d) as u128 / steps as u128) as i128)
    };
    assert(slope == trunc_div(high - low, steps as int));
    assert(-0x1_0000_0000_0000_0000 <= slope <= 0x1_0000_0000_0000_0000) by (nonlinear_arith)
        requires
            d >= 0 ==> slope == (d as int) / (steps as int),
            d < 0 ==> slope == -((-(d as int)) / (steps as int)),
            -0x1_0000_0000_0000_0000 <= d <= 0x1_0000_0000_0000_0000,
            steps >= 1;
    let ghost start = out@;
    let mut step_i: usize = 1;
    while step_i < steps
        invariant
            1 <= step_i <= steps,
            out.wf(),
            slope == trunc_div(high - low, steps as int),
            -0x1_0000_0000_0000_0000 <= slope <= 0x1_0000_0000_0000_0000,
            out@ == start + Seq::new(
                (step_i - 1) as nat,
                |k: int| Some(fill_value(low, high, steps as int, k + 1) as i64),
            ),
        decreases steps - step_i,
    {
        proof {
            lemma_fill_between(low, high, steps as int, step_i as int);
        }
        let v = linear_itp(low, step_i, slope);
        out.push(Some(v));
        assert(out@ =~= start + Seq::new(
            step_i as nat,
            |k: int| Some(fill_value(low, high, steps as int, k + 1) as i64),
        ));
        step_i = step_i + 1;
    }
}

/// Fills every interior null run by linear interpolation between the valid
/// values around it. Leading and trailing nulls stay null. Integer arithmetic
/// truncates the slope toward zero; the result is computed without overflow.
/// When there is something to fill from, the result is one chunk whose mask is
/// kept only if leading or trailing nulls remain; a column with no null, or
/// with no valid slot, comes back as a copy with its own chunking.
pub fn interpolate(a: &ChunkedArray<i64>) -> (r: ChunkedArray<i64>)
    requires
        a.wf(),
    ensures
        r.wf(),
        r@ == interpolated(a@),
        (exists|i: int| 0 <= i < a@.len() && a@[i] is None) && (exists|i: int|
            0 <= i < a@.len() && a@[i] is Some) ==> r.chunks@.len() == 1 && (
        r.chunks@[0].validity is None <==> forall|i: int| 0 <= i < r@.len() ==> (#[trigger] r@[i]) is Some),
        !((exists|i: int| 0 <= i < a@.len() && a@[i] is None) && (exists|i: int|
            0 <= i < a@.len() && a@[i] is Some)) ==> r.chunks@.len() == a.chunks@.len(),
{
    let s = a.to_options();
    let n = s.len();
    let mut first: usize = 0;
    while first < n && s[first].is_none()
        invariant
            0 <= first <= n,
            n == s@.len(),
            forall|m: int| 0 <= m < first ==> s@[m] is None,
        decreases n - first,
    {
        first = first + 1;
    }
    let mut has_null = first > 0;
    assert(has_null ==> s@[0] is None);
    let mut m: usize = first;
    while m < n && !has_null
        invariant
            first <= m <= n,
            n == s@.len(),
            !has_null ==> forall|j: int| 0 <= j < m ==> s@[j] is Some,
            has_null ==> exists|j: int| 0 <= j < n && s@[j] is None,
        decreases n - m,
    {
        if s[m].is_none() {
            has_null = true;
        }
        m = m + 1;
    }
    if first == n || !has_null {
        let r = a.duplicate();
        proof {
            if first == n {
                assert(!exists|i: int| 0 <= i < a@.len() && a@[i] is Some);
            } else {
                assert(!exists|i: int| 0 <= i < a@.len() && a@[i] is None);
            }
        }
        assert(r@ =~= interpolated(a@)) by {
            if first == n {
                assert forall|i: int| 0 <= i < n implies interpolated_slot(a@, i) == a@[i] by {
                    lemma_no_valid_before(a@, i);
                }
            }
        }
        return r;
    }
    let mut out: ChunkBuilder<i64> = ChunkBuilder::new();
    let mut i: usize = 0;
    while i < first
        invariant
            0 <= i <= first < n,
            n == s@.len(),
            s@ == a@,
            forall|m: int| 0 <= m < first ==> s@[m] is None,
            out.wf(),
            out@ == interpolated(a@).take(i as int),
        decreases first - i,
    {
        proof {
            lemma_no_valid_before(a@, i as int);
        }
        out.push(None);
        assert(out@ =~= interpolated(a@).take(i as int + 1));
        i = i + 1;
    }
    let mut low: i64 = match s[first] {
        Some(v) => v,
        None => 0,
    };
    let mut lo_idx: usize = first;
    out.push(Some(low));
    assert(out@ =~= interpolated(a@).take(first as int + 1));
    i = first + 1;
    while i < n
        invariant
            first < i <= n,
            first <= lo_idx < i,
            lo_idx + 1 == i || i == n,
            n == s@.len(),
            s@ == a@,
            s@[lo_idx as int] == Some(low),
            forall|m: int| lo_idx < m < i ==> s@[m] is None,
            out.wf(),
            out@ == interpolated(a@).take(i as int),
        decreases n - i,
    {
        match s[i] {
            Some(v) => {
                out.push(Some(v));
                assert(out@ =~= interpolated(a@).take(i as int + 1));
                low = v;
                lo_idx = i;
                i = i + 1;
            },
            None => {
                let mut j: usize = i + 1;
                while j < n && s[j].is_none()
                    invariant
                        i < j <= n,
                        n == s@.len(),
                        forall|m: int| i <= m < j ==> s@[m] is None,
                    decreases n - j,
                {
                    j = j + 1;
                }
                if j < n {
                    let high: i64 = match s[j] {
                        Some(v) => v,
                        None => 0,
                    };
                    let ghost before = out@;
                    signed_interp(low, high, j - lo_idx, &mut out);
                    out.push(Some(high));
                    assert forall|m: int| i <= m < j implies #[trigger] interpolated_slot(a@, m) == Some(
                        fill_value(low, high, (j - lo_idx) as int, m - i + 1) as i64,
                    ) by {
                        lemma_last_valid_run(a@, lo_idx as int, m);
                        lemma_next_valid_run(a@, m, j as int);
                    }
                    assert(out@ =~= interpolated(a@).take(j as int + 1));
                    low = high;
                    lo_idx = j;
                    i = j + 1;
                } else {
                    let ghost start = i;
                    while i < n
                        invariant
                            start <= i <= n,
                            n == s@.len(),
                            s@ == a@,
                            forall|m: int| start <= m < n ==> s@[m] is None,
                            forall|m: int| lo_idx < m < start ==> s@[m] is None,
                            lo_idx < start,
                            out.wf(),
                            out@ == interpolated(a@).take(i as int),
                        decreases n - i,
                    {
                        proof {
                            lemma_next_valid_run(a@, i as int, n as int);
                        }
                        out.push(None);
                        assert(out@ =~= interpolated(a@).take(i as int + 1));
                        i = i + 1;
                    }
                }
            },
        }
    }
    assert(interpolated(a@).take(n as int) =~= interpolated(a@));
    let c = out.finish();
    let mut chunks = Vec::new();
    chunks.push(c);
    proof {
        crate::chunked::lemma_flatten_push(Seq::empty(), c);
        assert(chunks@ =~= Seq::empty().push(c));
        assert(a@[first as int] is Some);
    }
    ChunkedArray { chunks }
}

proof fn lemma_last_valid_facts(s: Seq<Option<i64>>, i: int)
    requires
        0 <= i <= s.len(),
    ensures
        -1 <= last_valid_before(s, i) < i,
        last_valid_before(s, i) >= 0 ==> s[last_valid_before(s, i)] is Some,
        forall|m: int| last_valid_before(s, i) < m < i ==> s[m] is None,
    decreases i,
{
    if i > 0 && s[i - 1] is None {
        lemma_last_valid_facts(s, i - 1);
    }
}

proof fn lemma_next_valid_facts(s: Seq<Option<i64>>, i: int)
    requires
        0 <= i < s.len(),
    ensures
        i < next_valid_after(s, i) <= s.len(),
        next_valid_after(s, i) < s.len() ==> s[next_valid_after(s, i)] is Some,
        forall|m: int| i < m < next_valid_after(s, i) ==> s[m] is None,
    decreases s.len() - i,
{
    if i + 1 < s.len() && s[i + 1] is None {
        lemma_next_valid_facts(s, i + 1);
    }
}

/// No null lies between two valid slots.
pub open spec fn no_interior_nulls(s: Seq<Option<i64>>) -> bool {
    forall|lo: int, i: int, hi: int|
        0 <= lo < i < hi < s.len() && #[trigger] s[lo] is Some && #[trigger] s[hi] is Some
            ==> #[trigger] s[i] is Some
}

/// Interpolation keeps every valid value, and never fills a null that has no
/// valid slot before it (a leading null) or none after it (a trailing null).
pub proof fn lemma_interpolate_boundaries(s: Seq<Option<i64>>)
    ensures
        interpolated(s).len() == s.len(),
        forall|i: int| 0 <= i < s.len() && s[i] is Some ==> #[trigger] interpolated(s)[i] == s[i],
        forall|i: int|
            0 <= i < s.len() && (forall|j: int| 0 <= j <= i ==> s[j] is None)
                ==> (#[trigger] interpolated(s)[i]) is None,
        forall|i: int|
            0 <= i < s.len() && (forall|j: int| i <= j < s.len() ==> s[j] is None)
                ==> (#[trigger] interpolated(s)[i]) is None,
{
    assert forall|i: int|
        0 <= i < s.len() && (forall|j: int| 0 <= j <= i ==> s[j] is None) implies (
        #[trigger] interpolated(s)[i]) is None by {
        lemma_last_valid_facts(s, i);
        let lo = last_valid_before(s, i);
        if lo >= 0 {
            assert(s[lo] is None);
        }
    }
    assert forall|i: int|
        0 <= i < s.len() && (forall|j: int| i <= j < s.len() ==> s[j] is None) implies (
        #[trigger] interpolated(s)[i]) is None by {
        lemma_next_valid_facts(s, i);
        let hi = next_valid_after(s, i);
        if hi < s.len() {
            assert(s[hi] is None);
        }
    }
}

/// On a column without interior null runs interpolation changes nothing, and
/// interpolating a second time changes nothing either.
pub proof fn lemma_interpolate_idempotent(s: Seq<Option<i64>>)
    ensures
        no_interior_nulls(s) ==> interpolated(s) == s,
        no_interior_nulls(interpolated(s)),
        interpolated(interpolated(s)) == interpolated(s),
{
    let t = interpolated(s);
    assert forall|i: int| 0 <= i < s.len() && no_interior_nulls(s) implies t[i] == s[i] by {
        if s[i] is None {
            lemma_last_valid_facts(s, i);
            lemma_next_valid_facts(s, i);
            let lo = last_valid_before(s, i);
            let hi = next_valid_after(s, i);
            if lo >= 0 && hi < s.len() {
                assert(s[lo] is Some && s[hi] is Some);
                assert(s[i] is Some);
            }
        }
    }
    if no_interior_nulls(s) {
        assert(t =~= s);
    }
    assert forall|lo: int, i: int, hi: int|
        0 <= lo < i < hi < t.len() && #[trigger] t[lo] is Some && #[trigger] t[hi] is Some
            implies #[trigger] t[i] is Some by {
        if s[i] is None {
            lemma_last_valid_facts(s, i);
            lemma_next_valid_facts(s, i);
            // a valid slot of s lies at or before lo
            let w_lo = if s[lo] is Some { lo } else { last_valid_before(s, lo) };
            lemma_last_valid_facts(s, lo);
            assert(0 <= w_lo <= lo && s[w_lo] is Some);
            if last_valid_before(s, i) < 0 {
                assert(s[w_lo] is None);
            }
            let w_hi = if s[hi] is Some { hi } else { next_valid_after(s, hi) };
            lemma_next_valid_facts(s, hi);
            assert(hi <= w_hi < s.len() && s[w_hi] is Some);
            if next_valid_after(s, i) >= s.len() {
                assert(s[w_hi] is None);
            }
        }
    }
    assert forall|i: int| 0 <= i < t.len() implies interpolated(t)[i] == t[i] by {
        if t[i] is None {
            lemma_last_valid_facts(t, i);
            lemma_next_valid_facts(t, i);
            let lo = last_valid_before(t, i);
            let hi = next_valid_after(t, i);
            if lo >= 0 && hi < t.len() {
                assert(t[lo] is Some && t[hi] is Some);
                assert(t[i] is Some);
            }
        }
    }
    assert(interpolated(t) =~= t);
}

} // verus!
