//! Nested list columns, and row iteration that reuses one buffer per side.
use vstd::prelude::*;
use crate::chunked::{Chunk, ChunkBuilder, ChunkedArray, lemma_flatten_push};
use crate::error::ComputeError;

verus! {

/// One chunk of a list column, arena style: row `i` holds the slots
/// `offsets[i]..offsets[i + 1]` of `values`; `validity` marks null rows.
pub struct ListChunk<T> {
    pub offsets: Vec<usize>,
    pub values: Chunk<T>,
    pub validity: Option<Vec<bool>>,
}

impl<T> ListChunk<T> {
    pub open spec fn rows(&self) -> nat {
        (self.offsets@.len() - 1) as nat
    }

    /// Offsets are sorted and end inside the arena; the masks fit.
    pub open spec fn wf(&self) -> bool {
        &&& self.offsets@.len() >= 1
        &&& forall|i: int, j: int|
            0 <= i <= j < self.offsets@.len() ==> self.offsets@[i] <= self.offsets@[j]
        &&& self.offsets@[self.offsets@.len() - 1] <= self.values@.len()
        &&& self.values.wf()
        &&& match self.validity {
            Some(m) => m@.len() == self.rows(),
            None => true,
        }
    }

    pub open spec fn row_valid(&self, i: int) -> bool {
        match self.validity {
            Some(m) => m@[i],
            None => true,
        }
    }

    pub open spec fn row(&self, i: int) -> Option<Seq<Option<T>>> {
        if self.row_valid(i) {
            Some(self.values@.subrange(self.offsets@[i] as int, self.offsets@[i + 1] as int))
        } else {
            None
        }
    }
}

impl<T> View for ListChunk<T> {
    type V = Seq<Option<Seq<Option<T>>>>;

    open spec fn view(&self) -> Seq<Option<Seq<Option<T>>>> {
        Seq::new(self.rows(), |i: int| self.row(i))
    }
}

/// The rows of a sequence of list chunks, in order.
pub open spec fn list_flatten<T>(cs: Seq<ListChunk<T>>) -> Seq<Option<Seq<Option<T>>>>
    decreases cs.len(),
{
    if cs.len() == 0 {
        Seq::empty()
    } else {
        list_flatten(cs.drop_last()) + cs.last()@
    }
}

/// A list column stored as chunks.
pub struct ListChunked<T> {
    pub chunks: Vec<ListChunk<T>>,
}

impl<T> View for ListChunked<T> {
    type V = Seq<Option<Seq<Option<T>>>>;

    open spec fn view(&self) -> Seq<Option<Seq<Option<T>>>> {
        list_flatten(self.chunks@)
    }
}

impl<T> ListChunked<T> {
    pub open spec fn wf(&self) -> bool {
        forall|k: int| 0 <= k < self.chunks@.len() ==> (#[trigger] self.chunks@[k]).wf()
    }
}

/// Where one row lives: a slot range of one chunk's arena, or a null row.
#[derive(Clone, Copy, Debug, PartialEq, Eq)]
pub struct RowRef {
    pub chunk: usize,
    pub start: usize,
    pub end: usize,
    pub valid: bool,
}

pub open spec fn row_ref_ok<T>(cs: Seq<ListChunk<T>>, r: RowRef) -> bool {
    &&& r.chunk < cs.len()
    &&& r.start <= r.end <= cs[r.chunk as int].values@.len()
}

pub open spec fn row_ref_view<T>(cs: Seq<ListChunk<T>>, r: RowRef) -> Option<Seq<Option<T>>> {
    if r.valid {
        Some(cs[r.chunk as int].values@.subrange(r.start as int, r.end as int))
    } else {
        None
    }
}

/// Locates every row of a list column, without copying any data.
fn row_refs<T: Copy>(a: &ListChunked<T>) -> (r: Vec<RowRef>)
    requires
        a.wf(),
    ensures
        r@.len() == a@.len(),
        forall|i: int|
            0 <= i < r@.len() ==> row_ref_ok(a.chunks@, #[trigger] r@[i]) && row_ref_view(
                a.chunks@,
                r@[i],
            ) == a@[i],
{
    let mut refs: Vec<RowRef> = Vec::new();
    let mut k: usize = 0;
    while k < a.chunks.len()
        invariant
            a.wf(),
            0 <= k <= a.chunks@.len(),
            refs@.len() == list_flatten(a.chunks@.take(k as int)).len(),
            forall|i: int|
                0 <= i < refs@.len() ==> row_ref_ok(a.chunks@, #[trigger] refs@[i]) && row_ref_view(
                    a.chunks@,
                    refs@[i],
                ) == list_flatten(a.chunks@.take(k as int))[i],
        decreases a.chunks@.len() - k,
    {
        let c = &a.chunks[k];
        assert(c.wf());
        let ghost before = list_flatten(a.chunks@.take(k as int));
        let ghost base = refs@.len();
        let rows = c.offsets.len() - 1;
        let mut i: usize = 0;
        while i < rows
            invariant
                c.wf(),
                *c == a.chunks@[k as int],
                k < a.chunks@.len(),
                rows == c.rows(),
                0 <= i <= rows,
                refs@.len() == base + i,
                base == before.len(),
                forall|j: int|
                    0 <= j < base + i ==> row_ref_ok(a.chunks@, #[trigger] refs@[j]) && row_ref_view(
                        a.chunks@,
                        refs@[j],
                    ) == (before + c@)[j],
            decreases rows - i,
        {
            let valid = match &c.validity {
                Some(m) => m[i],
                None => true,
            };
            let rr = RowRef { chunk: k, start: c.offsets[i], end: c.offsets[i + 1], valid };
            refs.push(rr);
            assert(row_ref_view(a.chunks@, rr) == (before + c@)[base + i]);
            i = i + 1;
        }
        proof {
            assert(a.chunks@.take(k as int + 1).drop_last() =~= a.chunks@.take(k as int));
            assert(list_flatten(a.chunks@.take(k as int + 1)) == before + c@);
        }
        k = k + 1;
    }
    assert(a.chunks@.take(k as int) =~= a.chunks@);
    refs
}

/// Overwrites `buf` with the slots of one row.
fn fill_row<T: Copy>(c: &ListChunk<T>, start: usize, end: usize, buf: &mut Vec<Option<T>>)
    requires
        c.wf(),
        start <= end <= c.values@.len(),
    ensures
        final(buf)@ == c.values@.subrange(start as int, end as int),
{
    buf.clear();
    let mut j: usize = start;
    while j < end
        invariant
            c.wf(),
            start <= j <= end <= c.values@.len(),
            buf@ == c.values@.subrange(start as int, j as int),
        decreases end - j,
    {
        buf.push(c.values.get(j));
        assert(buf@ =~= c.values@.subrange(start as int, j as int + 1));
        j = j + 1;
    }
}

/// `z` is a result that `f` may return when handed two buffers holding the
/// rows `l` and `r`.
pub open spec fn row_result<T, K, U, F: Fn(&Vec<Option<T>>, &Vec<Option<K>>) -> Option<U>>(
    f: F,
    l: Seq<Option<T>>,
    r: Seq<Option<K>>,
    z: Option<U>,
) -> bool {
    exists|x: Vec<Option<T>>, y: Vec<Option<K>>|
        x@ == l && y@ == r && #[trigger] call_ensures(f, (&x, &y), z)
}

/// Calls `f` once per row pair on two list columns with the same row count.
/// Each side's row is copied into one buffer that is reused for every row, and
/// `f` borrows the two buffers only for the duration of its call. A row that is
/// null on either side gives null without calling `f`. The result has one
/// chunk. Fails with `ShapeMismatch` when the row counts differ.
pub fn binary_amortized_elementwise<
    T: Copy,
    K: Copy,
    U: Copy + Default,
    F: Fn(&Vec<Option<T>>, &Vec<Option<K>>) -> Option<U>,
>(lhs: &ListChunked<T>, rhs: &ListChunked<K>, f: F) -> (r: Result<ChunkedArray<U>, ComputeError>)
    requires
        lhs.wf(),
        rhs.wf(),
        forall|x: &Vec<Option<T>>, y: &Vec<Option<K>>| call_requires(f, (x, y)),
    ensures
        r is Err <==> lhs@.len() != rhs@.len(),
        r is Err ==> r == Err::<ChunkedArray<U>, ComputeError>(ComputeError::ShapeMismatch),
        r is Ok ==> r->Ok_0.wf() && r->Ok_0@.len() == lhs@.len(),
        r is Ok ==> forall|i: int|
            0 <= i < lhs@.len() ==> (lhs@[i] is None || rhs@[i] is None ==> (
            #[trigger] r->Ok_0@[i]) is None),
        r is Ok ==> forall|i: int|
            0 <= i < lhs@.len() && lhs@[i] is Some && rhs@[i] is Some ==> row_result(
                f,
                lhs@[i]->0,
                rhs@[i]->0,
                #[trigger] r->Ok_0@[i],
            ),
{
    let lrefs = row_refs(lhs);
    let rrefs = row_refs(rhs);
    if lrefs.len() != rrefs.len() {
        return Err(ComputeError::ShapeMismatch);
    }
    let n = lrefs.len();
    let mut lbuf: Vec<Option<T>> = Vec::new();
    let mut rbuf: Vec<Option<K>> = Vec::new();
    let mut out: ChunkBuilder<U> = ChunkBuilder::new();
    let mut i: usize = 0;
    while i < n
        invariant
            lhs.wf(),
            rhs.wf(),
            forall|x: &Vec<Option<T>>, y: &Vec<Option<K>>| call_requires(f, (x, y)),
            n == lrefs@.len() == rrefs@.len() == lhs@.len() == rhs@.len(),
            forall|j: int|
                0 <= j < n ==> row_ref_ok(lhs.chunks@, #[trigger] lrefs@[j]) && row_ref_view(
                    lhs.chunks@,
                    lrefs@[j],
                ) == lhs@[j],
            forall|j: int|
                0 <= j < n ==> row_ref_ok(rhs.chunks@, #[trigger] rrefs@[j]) && row_ref_view(
                    rhs.chunks@,
                    rrefs@[j],
                ) == rhs@[j],
            0 <= i <= n,
            out.wf(),
            out@.len() == i,
            forall|j: int|
                0 <= j < i ==> (lhs@[j] is None || rhs@[j] is None ==> (#[trigger] out@[j]) is None),
            forall|j: int|
                0 <= j < i && lhs@[j] is Some && rhs@[j] is Some ==> row_result(
                    f,
                    lhs@[j]->0,
                    rhs@[j]->0,
                    #[trigger] out@[j],
                ),
        decreases n - i,
    {
        let lr = lrefs[i];
        let rr = rrefs[i];
        assert(row_ref_ok(lhs.chunks@, lrefs@[i as int]));
        assert(row_ref_ok(rhs.chunks@, rrefs@[i as int]));
        if lr.valid && rr.valid {
            let lc = &lhs.chunks[lr.chunk];
            let rc = &rhs.chunks[rr.chunk];
            assert(lhs.chunks@[lr.chunk as int].wf());
            assert(rhs.chunks@[rr.chunk as int].wf());
            fill_row(lc, lr.start, lr.end, &mut lbuf);
            fill_row(rc, rr.start, rr.end, &mut rbuf);
            let z = f(&lbuf, &rbuf);
            out.push(z);
            assert(lbuf@ == lhs@[i as int]->0 && rbuf@ == rhs@[i as int]->0 && call_ensures(
                f,
                (&lbuf, &rbuf),
                out@[i as int],
            ));
            assert(row_result(f, lhs@[i as int]->0, rhs@[i as int]->0, out@[i as int]));
        } else {
            out.push(None);
        }
        i = i + 1;
    }
    let c = out.finish();
    let mut chunks = Vec::new();
    chunks.push(c);
    proof {
        lemma_flatten_push(Seq::empty(), c);
        assert(chunks@ =~= Seq::empty().push(c));
    }
    Ok(ChunkedArray { chunks })
}

/// `z` is a value that `mean` may return when handed two buffers holding the
/// rows `l` and `r`.
pub open spec fn pair_value<T, K, U, F: Fn(&Vec<Option<T>>, &Vec<Option<K>>) -> U>(
    mean: F,
    l: Seq<Option<T>>,
    r: Seq<Option<K>>,
    z: U,
) -> bool {
    exists|x: Vec<Option<T>>, y: Vec<Option<K>>|
        x@ == l && y@ == r && #[trigger] call_ensures(mean, (&x, &y), z)
}

/// One value per row pair of a values column and a weights column, computed
/// by `mean` with the row buffers reused as in `binary_amortized_elementwise`.
/// A row that is null on either side gives null, and so does an empty values
/// row: an empty population has no mean, and `mean` is not called on it.
/// Fails with `ShapeMismatch` when the row counts differ.
pub fn mean_by_rows<
    T: Copy,
    K: Copy,
    U: Copy + Default,
    F: Fn(&Vec<Option<T>>, &Vec<Option<K>>) -> U,
>(values: &ListChunked<T>, weights: &ListChunked<K>, mean: F) -> (r: Result<
    ChunkedArray<U>,
    ComputeError,
>)
    requires
        values.wf(),
        weights.wf(),
        forall|x: &Vec<Option<T>>, y: &Vec<Option<K>>| call_requires(mean, (x, y)),
    ensures
        r is Err <==> values@.len() != weights@.len(),
        r is Err ==> r == Err::<ChunkedArray<U>, ComputeError>(ComputeError::ShapeMismatch),
        r is Ok ==> r->Ok_0.wf() && r->Ok_0@.len() == values@.len(),
        r is Ok ==> forall|i: int|
            0 <= i < values@.len() ==> (values@[i] is None || weights@[i] is None || values@[i]->0.len()
                == 0 <==> (#[trigger] r->Ok_0@[i]) is None),
        r is Ok ==> forall|i: int|
            0 <= i < values@.len() && (#[trigger] r->Ok_0@[i]) is Some ==> pair_value(
                mean,
                values@[i]->0,
                weights@[i]->0,
                r->Ok_0@[i]->0,
            ),
{
    let mr = &mean;
    let g = |x: &Vec<Option<T>>, y: &Vec<Option<K>>| -> (z: Option<U>)
        requires
            call_requires(mr, (x, y)),
        ensures
            x@.len() == 0 ==> z is None,
            x@.len() > 0 ==> z is Some && call_ensures(mr, (x, y), z->0),
        {
            if x.len() == 0 {
                None
            } else {
                Some(mr(x, y))
            }
        };
    let out = binary_amortized_elementwise(values, weights, g);
    match out {
        Ok(c) => {
            assert forall|i: int| 0 <= i < values@.len() implies (values@[i] is None
                || weights@[i] is None || values@[i]->0.len() == 0 <==> (#[trigger] c@[i]) is None)
                && (c@[i] is Some ==> pair_value(mean, values@[i]->0, weights@[i]->0, c@[i]->0)) by {
                if values@[i] is Some && weights@[i] is Some {
                    assert(row_result(g, values@[i]->0, weights@[i]->0, c@[i]));
                    let (x, y) = choose|x: Vec<Option<T>>, y: Vec<Option<K>>|
                        x@ == values@[i]->0 && y@ == weights@[i]->0 && #[trigger] call_ensures(
                            g,
                            (&x, &y),
                            c@[i],
                        );
                    if x@.len() > 0 {
                        assert(call_ensures(mean, (&x, &y), c@[i]->0));
                    }
                }
            }
            Ok(c)
        },
        Err(e) => Err(e),
    }
}

/// `out` is a row that `f` may return when handed a buffer holding row `l`.
pub open spec fn row_map_result<T, U, F: Fn(&Vec<Option<T>>) -> Vec<Option<U>>>(
    f: F,
    l: Seq<Option<T>>,
    out: Seq<Option<U>>,
) -> bool {
    exists|x: Vec<Option<T>>, v: Vec<Option<U>>|
        x@ == l && v@ == out && #[trigger] call_ensures(f, (&x,), v)
}

/// Builds a one-chunk list column row by row.
pub struct ListBuilder<U> {
    pub offsets: Vec<usize>,
    pub arena: ChunkBuilder<U>,
    pub mask: Vec<bool>,
    pub has_null: bool,
}

impl<U> ListBuilder<U> {
    pub open spec fn rows(&self) -> nat {
        self.mask@.len()
    }

    pub open spec fn wf(&self) -> bool {
        &&& self.arena.wf()
        &&& self.offsets@.len() == self.mask@.len() + 1
        &&& self.offsets@[0] == 0
        &&& self.offsets@[self.mask@.len() as int] == self.arena@.len()
        &&& forall|p: int, q: int|
            0 <= p <= q <= self.mask@.len() ==> self.offsets@[p] <= self.offsets@[q]
        &&& self.has_null == exists|j: int| 0 <= j < self.mask@.len() && !self.mask@[j]
    }
}

impl<U> View for ListBuilder<U> {
    type V = Seq<Option<Seq<Option<U>>>>;

    open spec fn view(&self) -> Seq<Option<Seq<Option<U>>>> {
        Seq::new(
            self.rows(),
            |j: int|
                if self.mask@[j] {
                    Some(self.arena@.subrange(self.offsets@[j] as int, self.offsets@[j + 1] as int))
                } else {
                    None
                },
        )
    }
}

impl<U: Copy + Default> ListBuilder<U> {
    pub fn new() -> (r: Self)
        ensures
            r.wf(),
            r@ == Seq::<Option<Seq<Option<U>>>>::empty(),
    {
        let mut offsets: Vec<usize> = Vec::new();
        offsets.push(0);
        let r = ListBuilder { offsets, arena: ChunkBuilder::new(), mask: Vec::new(), has_null: false };
        assert(r@ =~= Seq::<Option<Seq<Option<U>>>>::empty());
        r
    }

    /// Appends a null row.
    pub fn push_null(&mut self)
        requires
            old(self).wf(),
        ensures
            final(self).wf(),
            final(self)@ == old(self)@.push(None),
    {
        let ghost mask0 = self.mask@;
        let last = self.offsets[self.offsets.len() - 1];
        self.offsets.push(last);
        self.mask.push(false);
        self.has_null = true;
        assert(!self.mask@[mask0.len() as int]);
        assert(self@ =~= old(self)@.push(None)) by {
            assert forall|j: int| 0 <= j < mask0.len() implies self@[j] == old(self)@[j] by {
                assert(self.mask@[j] == mask0[j]);
            }
        }
    }

    /// Appends a valid row holding the slots of `row`.
    pub fn push_row(&mut self, row: &Vec<Option<U>>)
        requires
            old(self).wf(),
        ensures
            final(self).wf(),
            final(self)@ == old(self)@.push(Some(row@)),
    {
        let ghost arena0 = self.arena@;
        let ghost mask0 = self.mask@;
        let ghost offsets0 = self.offsets@;
        let mut j: usize = 0;
        while j < row.len()
            invariant
                self.arena.wf(),
                0 <= j <= row@.len(),
                self.arena@ == arena0 + row@.take(j as int),
                self.offsets@ == offsets0,
                self.mask@ == mask0,
                self.has_null == old(self).has_null,
            decreases row@.len() - j,
        {
            self.arena.push(row[j]);
            assert(self.arena@ =~= arena0 + row@.take(j as int + 1));
            j = j + 1;
        }
        assert(row@.take(j as int) =~= row@);
        let end = self.arena.values.len();
        self.offsets.push(end);
        self.mask.push(true);
        let ghost i = mask0.len() as int;
        assert(self.arena@.subrange(self.offsets@[i] as int, self.offsets@[i + 1] as int) =~= row@);
        assert forall|j: int| 0 <= j < i implies self@[j] == old(self)@[j] by {
            assert(self.mask@[j] == mask0[j]);
            assert(offsets0[j] <= offsets0[j + 1] <= offsets0[i]);
            assert(self.arena@.subrange(self.offsets@[j] as int, self.offsets@[j + 1] as int)
                =~= arena0.subrange(offsets0[j] as int, offsets0[j + 1] as int));
        }
        assert(self@ =~= old(self)@.push(Some(row@)));
        proof {
            if self.has_null {
                let w = choose|w: int| 0 <= w < i && !mask0[w];
                assert(!self.mask@[w]);
            }
        }
    }

    /// The finished column; the row mask is kept only when a row is null.
    pub fn finish(self) -> (r: ListChunked<U>)
        requires
            self.wf(),
        ensures
            r.wf(),
            r@ == self@,
            r.chunks@.len() == 1,
    {
        let ghost v = self@;
        let ghost mask = self.mask@;
        let values = self.arena.finish();
        let validity = if self.has_null {
            Some(self.mask)
        } else {
            None
        };
        let lc = ListChunk { offsets: self.offsets, values, validity };
        assert(lc.wf());
        assert(lc@ =~= v) by {
            assert forall|j: int| 0 <= j < v.len() implies lc@[j] == v[j] by {
                if lc.validity is None && !mask[j] {
                    assert(exists|w: int| 0 <= w < mask.len() && !mask[w]);
                }
            }
        }
        let mut chunks: Vec<ListChunk<U>> = Vec::new();
        chunks.push(lc);
        let r = ListChunked { chunks };
        proof {
            assert(r.chunks@.len() == 1 && r.chunks@[0] == lc);
            assert(r.chunks@.drop_last() =~= Seq::<ListChunk<U>>::empty());
            assert(list_flatten(r.chunks@.drop_last()) =~= Seq::<Option<Seq<Option<U>>>>::empty());
            assert(Seq::<Option<Seq<Option<U>>>>::empty() + lc@ =~= lc@);
        }
        r
    }
}

impl<U: Copy + Default> ListChunked<U> {
    /// Builds a one-chunk list column from optional rows.
    pub fn from_rows(rows: &Vec<Option<Vec<Option<U>>>>) -> (r: Self)
        ensures
            r.wf(),
            r@.len() == rows@.len(),
            forall|i: int|
                0 <= i < rows@.len() ==> #[trigger] r@[i] == match rows@[i] {
                    Some(v) => Some(v@),
                    None => None,
                },
    {
        let mut b: ListBuilder<U> = ListBuilder::new();
        let mut i: usize = 0;
        while i < rows.len()
            invariant
                0 <= i <= rows@.len(),
                b.wf(),
                b@.len() == i,
                forall|j: int|
                    0 <= j < i ==> #[trigger] b@[j] == match rows@[j] {
                        Some(v) => Some(v@),
                        None => None,
                    },
            decreases rows@.len() - i,
        {
            match &rows[i] {
                Some(v) => b.push_row(v),
                None => b.push_null(),
            }
            i = i + 1;
        }
        b.finish()
    }
}

impl<U: Copy> ListChunked<U> {
    /// The rows, each copied out as a vector of optional values.
    pub fn to_rows(&self) -> (r: Vec<Option<Vec<Option<U>>>>)
        requires
            self.wf(),
        ensures
            r@.len() == self@.len(),
            forall|i: int|
                0 <= i < r@.len() ==> match (#[trigger] r@[i], self@[i]) {
                    (Some(v), Some(w)) => v@ == w,
                    (None, None) => true,
                    _ => false,
                },
    {
        let refs = row_refs(self);
        let mut out: Vec<Option<Vec<Option<U>>>> = Vec::new();
        let mut i: usize = 0;
        while i < refs.len()
            invariant
                self.wf(),
                refs@.len() == self@.len(),
                forall|j: int|
                    0 <= j < refs@.len() ==> row_ref_ok(self.chunks@, #[trigger] refs@[j])
                        && row_ref_view(self.chunks@, refs@[j]) == self@[j],
                0 <= i <= refs@.len(),
                out@.len() == i,
                forall|j: int|
                    0 <= j < i ==> match (#[trigger] out@[j], self@[j]) {
                        (Some(v), Some(w)) => v@ == w,
                        (None, None) => true,
                        _ => false,
                    },
            decreases refs@.len() - i,
        {
            let rr = refs[i];
            assert(row_ref_ok(self.chunks@, refs@[i as int]));
            if rr.valid {
                let c = &self.chunks[rr.chunk];
                assert(self.chunks@[rr.chunk as int].wf());
                let mut row: Vec<Option<U>> = Vec::new();
                fill_row(c, rr.start, rr.end, &mut row);
                out.push(Some(row));
            } else {
                out.push(None);
            }
            i = i + 1;
        }
        out
    }
}

/// Maps every valid row through `f` into a new list column of one chunk.
/// The input row is copied into one buffer reused for every row; null rows
/// stay null without calling `f`.
pub fn apply_amortized<T: Copy, U: Copy + Default, F: Fn(&Vec<Option<T>>) -> Vec<Option<U>>>(
    a: &ListChunked<T>,
    f: F,
) -> (r: ListChunked<U>)
    requires
        a.wf(),
        forall|x: &Vec<Option<T>>| call_requires(f, (x,)),
    ensures
        r.wf(),
        r@.len() == a@.len(),
        forall|i: int| 0 <= i < a@.len() ==> (a@[i] is None <==> (#[trigger] r@[i]) is None),
        forall|i: int|
            0 <= i < a@.len() && a@[i] is Some ==> row_map_result(f, a@[i]->0, (#[trigger] r@[i])->0),
{
    let refs = row_refs(a);
    let n = refs.len();
    let mut buf: Vec<Option<T>> = Vec::new();
    let mut b: ListBuilder<U> = ListBuilder::new();
    let mut i: usize = 0;
    while i < n
        invariant
            a.wf(),
            forall|x: &Vec<Option<T>>| call_requires(f, (x,)),
            n == refs@.len() == a@.len(),
            forall|j: int|
                0 <= j < n ==> row_ref_ok(a.chunks@, #[trigger] refs@[j]) && row_ref_view(
                    a.chunks@,
                    refs@[j],
                ) == a@[j],
            0 <= i <= n,
            b.wf(),
            b@.len() == i,
            forall|j: int| 0 <= j < i ==> (a@[j] is None <==> (#[trigger] b@[j]) is None),
            forall|j: int|
                0 <= j < i && a@[j] is Some ==> row_map_result(f, a@[j]->0, (#[trigger] b@[j])->0),
        decreases n - i,
    {
        let rr = refs[i];
        assert(row_ref_ok(a.chunks@, refs@[i as int]));
        if rr.valid {
            let c = &a.chunks[rr.chunk];
            assert(a.chunks@[rr.chunk as int].wf());
            fill_row(c, rr.start, rr.end, &mut buf);
            let row = f(&buf);
            b.push_row(&row);
            assert(row_map_result(f, a@[i as int]->0, row@));
        } else {
            b.push_null();
        }
        i = i + 1;
    }
    b.finish()
}

/// Positions, as indices, of the slots of a row other than the value zero;
/// null slots count as nonzero.
pub open spec fn nonzero_positions(s: Seq<Option<i64>>) -> Seq<Option<u32>>
    decreases s.len(),
{
    if s.len() == 0 {
        Seq::empty()
    } else if s.last() != Some(0i64) {
        nonzero_positions(s.drop_last()).push(Some((s.len() - 1) as u32))
    } else {
        nonzero_positions(s.drop_last())
    }
}

fn row_nonzero_positions(row: &Vec<Option<i64>>) -> (r: Vec<Option<u32>>)
    ensures
        r@ == nonzero_positions(row@),
{
    let mut out: Vec<Option<u32>> = Vec::new();
    let mut j: usize = 0;
    while j < row.len()
        invariant
            0 <= j <= row@.len(),
            out@ == nonzero_positions(row@.take(j as int)),
        decreases row@.len() - j,
    {
        assert(row@.take(j as int + 1).drop_last() =~= row@.take(j as int));
        let is_zero = match row[j] {
            Some(v) => v == 0,
            None => false,
        };
        if !is_zero {
            out.push(Some(#[verifier::truncate] (j as u32)));
        }
        j = j + 1;
    }
    assert(row@.take(j as int) =~= row@);
    out
}

/// For each row, the indices of its slots that do not hold zero (nulls
/// included); null rows stay null.
pub fn non_zero_indices(a: &ListChunked<i64>) -> (r: ListChunked<u32>)
    requires
        a.wf(),
    ensures
        r.wf(),
        r@.len() == a@.len(),
        forall|i: int|
            0 <= i < a@.len() ==> #[trigger] r@[i] == match a@[i] {
                Some(row) => Some(nonzero_positions(row)),
                None => None,
            },
{
    let f = |row: &Vec<Option<i64>>| -> (z: Vec<Option<u32>>)
        ensures
            z@ == nonzero_positions(row@),
        { row_nonzero_positions(row) };
    let r = apply_amortized(a, f);
    assert forall|i: int|
        0 <= i < a@.len() implies #[trigger] r@[i] == match a@[i] {
            Some(row) => Some(nonzero_positions(row)),
            None => None,
        } by {
        if a@[i] is Some {
            assert(row_map_result(f, a@[i]->0, r@[i]->0));
            let (x, v) = choose|x: Vec<Option<i64>>, v: Vec<Option<u32>>|
                x@ == a@[i]->0 && v@ == r@[i]->0 && #[trigger] call_ensures(f, (&x,), v);
        }
    }
    r
}

} // verus!
