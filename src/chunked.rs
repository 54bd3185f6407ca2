//! The storage model: a column is an ordered sequence of chunks, each a dense
//! value buffer with an optional validity mask.
use vstd::prelude::*;

verus! {

/// One contiguous storage segment. A missing mask means every slot is valid.
#[derive(Debug)]
pub struct Chunk<T> {
    pub values: Vec<T>,
    pub validity: Option<Vec<bool>>,
}

impl<T> Chunk<T> {
    /// The mask, when present, has one flag per value.
    pub open spec fn wf(&self) -> bool {
        match self.validity {
            Some(m) => m@.len() == self.values@.len(),
            None => true,
        }
    }

    pub open spec fn is_valid_at(&self, i: int) -> bool {
        match self.validity {
            Some(m) => m@[i],
            None => true,
        }
    }

    pub open spec fn slot(&self, i: int) -> Option<T> {
        if self.is_valid_at(i) {
            Some(self.values@[i])
        } else {
            None
        }
    }

    pub fn len(&self) -> (r: usize)
        ensures
            r == self@.len(),
    {
        self.values.len()
    }
}

impl<T> View for Chunk<T> {
    type V = Seq<Option<T>>;

    open spec fn view(&self) -> Seq<Option<T>> {
        Seq::new(self.values@.len(), |i: int| self.slot(i))
    }
}

impl<T: Copy> Chunk<T> {
    /// Reads one slot of the chunk.
    pub fn get(&self, i: usize) -> (r: Option<T>)
        requires
            self.wf(),
            i < self@.len(),
        ensures
            r == self@[i as int],
    {
        let valid = match &self.validity {
            Some(m) => m[i],
            None => true,
        };
        if valid {
            Some(self.values[i])
        } else {
            None
        }
    }
}

/// The logical contents of a sequence of chunks, in order.
pub open spec fn flatten<T>(cs: Seq<Chunk<T>>) -> Seq<Option<T>>
    decreases cs.len(),
{
    if cs.len() == 0 {
        Seq::empty()
    } else {
        flatten(cs.drop_last()) + cs.last()@
    }
}

/// Number of logical slots held by the first `k` chunks.
pub open spec fn prefix_len<T>(cs: Seq<Chunk<T>>, k: int) -> int {
    flatten(cs.take(k)).len() as int
}

pub proof fn lemma_flatten_push<T>(cs: Seq<Chunk<T>>, c: Chunk<T>)
    ensures
        flatten(cs.push(c)) == flatten(cs) + c@,
{
    assert(cs.push(c).drop_last() =~= cs);
}

pub proof fn lemma_flatten_take_succ<T>(cs: Seq<Chunk<T>>, k: int)
    requires
        0 <= k < cs.len(),
    ensures
        flatten(cs.take(k + 1)) == flatten(cs.take(k)) + cs[k]@,
{
    assert(cs.take(k + 1).drop_last() =~= cs.take(k));
}

/// The contents of the first `m` chunks are a prefix of the whole.
pub proof fn lemma_flatten_take_prefix<T>(cs: Seq<Chunk<T>>, m: int)
    requires
        0 <= m <= cs.len(),
    ensures
        flatten(cs.take(m)).len() <= flatten(cs).len(),
        flatten(cs).subrange(0, flatten(cs.take(m)).len() as int) == flatten(cs.take(m)),
    decreases cs.len(),
{
    if m == cs.len() {
        assert(cs.take(m) =~= cs);
        assert(flatten(cs).subrange(0, flatten(cs).len() as int) =~= flatten(cs));
    } else {
        let d = cs.drop_last();
        assert(d.take(m) =~= cs.take(m));
        lemma_flatten_take_prefix(d, m);
        let whole = flatten(cs);
        assert(whole == flatten(d) + cs.last()@);
        assert(whole.subrange(0, flatten(cs.take(m)).len() as int) =~= flatten(d).subrange(
            0,
            flatten(d.take(m)).len() as int,
        ));
    }
}

/// Where slot `off` of chunk `k` lands in the flattened contents.
pub proof fn lemma_flatten_index<T>(cs: Seq<Chunk<T>>, k: int, off: int)
    requires
        0 <= k < cs.len(),
        0 <= off < cs[k]@.len(),
    ensures
        prefix_len(cs, k) + off < flatten(cs).len(),
        flatten(cs)[prefix_len(cs, k) + off] == cs[k]@[off],
{
    lemma_flatten_take_succ(cs, k);
    lemma_flatten_take_prefix(cs, k + 1);
    let pre = flatten(cs.take(k + 1));
    assert(pre[prefix_len(cs, k) + off] == cs[k]@[off]);
    assert(flatten(cs).subrange(0, pre.len() as int)[prefix_len(cs, k) + off] == pre[prefix_len(cs, k) + off]);
}

/// Prefix lengths grow with the number of chunks and reach the total.
pub proof fn lemma_prefix_len_bounds<T>(cs: Seq<Chunk<T>>, k: int)
    requires
        0 <= k < cs.len(),
    ensures
        prefix_len(cs, k + 1) == prefix_len(cs, k) + cs[k]@.len(),
        prefix_len(cs, k + 1) <= flatten(cs).len(),
{
    lemma_flatten_take_succ(cs, k);
    lemma_flatten_take_prefix(cs, k + 1);
}

pub proof fn lemma_prefix_len_full<T>(cs: Seq<Chunk<T>>)
    ensures
        prefix_len(cs, cs.len() as int) == flatten(cs).len(),
{
    assert(cs.take(cs.len() as int) =~= cs);
}

/// A column stored as chunks.
#[derive(Debug)]
pub struct ChunkedArray<T> {
    pub chunks: Vec<Chunk<T>>,
}

impl<T> View for ChunkedArray<T> {
    type V = Seq<Option<T>>;

    open spec fn view(&self) -> Seq<Option<T>> {
        flatten(self.chunks@)
    }
}

impl<T> ChunkedArray<T> {
    /// Every chunk's mask matches its buffer.
    pub open spec fn wf(&self) -> bool {
        forall|k: int| 0 <= k < self.chunks@.len() ==> (#[trigger] self.chunks@[k]).wf()
    }

    pub fn chunk_count(&self) -> (r: usize)
        ensures
            r == self.chunks@.len(),
    {
        self.chunks.len()
    }

    /// Whether the column holds exactly one slot; stops as soon as it holds more.
    pub fn is_unit(&self) -> (r: bool)
        ensures
            r == (self@.len() == 1),
    {
        let mut total: usize = 0;
        let mut k: usize = 0;
        while k < self.chunks.len()
            invariant
                0 <= k <= self.chunks@.len(),
                total == prefix_len(self.chunks@, k as int),
                total <= 1,
            decreases self.chunks@.len() - k,
        {
            proof {
                lemma_prefix_len_bounds(self.chunks@, k as int);
            }
            let n = self.chunks[k].len();
            if n > 1 - total {
                return false;
            }
            total = total + n;
            k = k + 1;
        }
        proof {
            lemma_prefix_len_full(self.chunks@);
        }
        total == 1
    }

    /// Logical length: the sum of the chunk lengths.
    pub fn len(&self) -> (r: usize)
        requires
            self@.len() <= usize::MAX,
        ensures
            r == self@.len(),
    {
        let mut total: usize = 0;
        let mut k: usize = 0;
        while k < self.chunks.len()
            invariant
                0 <= k <= self.chunks@.len(),
                total == prefix_len(self.chunks@, k as int),
                self@.len() <= usize::MAX,
            decreases self.chunks@.len() - k,
        {
            proof {
                lemma_prefix_len_bounds(self.chunks@, k as int);
            }
            total = total + self.chunks[k].len();
            k = k + 1;
        }
        proof {
            lemma_prefix_len_full(self.chunks@);
        }
        total
    }
}


/// Accumulates slots into one chunk, recording a mask only if a null occurs.
pub struct ChunkBuilder<T> {
    pub values: Vec<T>,
    pub mask: Vec<bool>,
    pub has_null: bool,
}

impl<T> ChunkBuilder<T> {
    pub open spec fn wf(&self) -> bool {
        &&& self.values@.len() == self.mask@.len()
        &&& self.has_null == exists|i: int| 0 <= i < self.mask@.len() && !self.mask@[i]
    }
}

impl<T> View for ChunkBuilder<T> {
    type V = Seq<Option<T>>;

    open spec fn view(&self) -> Seq<Option<T>> {
        Seq::new(
            self.values@.len(),
            |i: int|
                if self.mask@[i] {
                    Some(self.values@[i])
                } else {
                    None
                },
        )
    }
}

impl<T: Copy + Default> ChunkBuilder<T> {
    pub fn new() -> (r: Self)
        ensures
            r.wf(),
            r@ == Seq::<Option<T>>::empty(),
    {
        let r = ChunkBuilder { values: Vec::new(), mask: Vec::new(), has_null: false };
        assert(r@ =~= Seq::<Option<T>>::empty());
        r
    }

    pub fn push(&mut self, x: Option<T>)
        requires
            old(self).wf(),
        ensures
            final(self).wf(),
            final(self)@ == old(self)@.push(x),
    {
        match x {
            Some(v) => {
                self.values.push(v);
                self.mask.push(true);
            },
            None => {
                self.values.push(T::default());
                self.mask.push(false);
                self.has_null = true;
            },
        }
        assert(self@ =~= old(self)@.push(x));
        assert(self.has_null == exists|i: int| 0 <= i < self.mask@.len() && !self.mask@[i]) by {
            if x is None {
                assert(!self.mask@[self.mask@.len() - 1]);
            }
            if old(self).has_null {
                let i = choose|i: int| 0 <= i < old(self).mask@.len() && !old(self).mask@[i];
                assert(!self.mask@[i]);
            }
        }
    }

    /// Finishes the chunk; the mask is kept only when some slot is null.
    pub fn finish(self) -> (r: Chunk<T>)
        requires
            self.wf(),
        ensures
            r.wf(),
            r@ == self@,
            r.validity is None <==> forall|i: int| 0 <= i < r@.len() ==> r@[i] is Some,
    {
        let ghost v = self@;
        let ghost mask = self.mask@;
        let r = if self.has_null {
            Chunk { values: self.values, validity: Some(self.mask) }
        } else {
            Chunk { values: self.values, validity: None }
        };
        assert(r@ =~= v);
        proof {
            if r.validity is Some {
                let i = choose|i: int| 0 <= i < mask.len() && !mask[i];
                assert(r@[i] is None);
            }
        }
        r
    }
}

impl<T: Copy> ChunkedArray<T> {
    /// Reads logical slot `i`, walking the chunks.
    pub fn get(&self, i: usize) -> (r: Option<T>)
        requires
            self.wf(),
            i < self@.len(),
        ensures
            r == self@[i as int],
    {
        let mut k: usize = 0;
        let mut start: usize = 0;
        while k < self.chunks.len()
            invariant
                self.wf(),
                0 <= k <= self.chunks@.len(),
                start == prefix_len(self.chunks@, k as int),
                start <= i,
                i < self@.len(),
            decreases self.chunks@.len() - k,
        {
            proof {
                lemma_prefix_len_bounds(self.chunks@, k as int);
            }
            let n = self.chunks[k].len();
            if i - start < n {
                proof {
                    lemma_flatten_index(self.chunks@, k as int, (i - start) as int);
                    assert(self.chunks@[k as int].wf());
                }
                return self.chunks[k].get(i - start);
            }
            start = start + n;
            k = k + 1;
        }
        proof {
            lemma_prefix_len_full(self.chunks@);
        }
        None
    }
}

impl<T: Copy + Default> ChunkedArray<T> {
    /// Builds a one-chunk column from optional values.
    pub fn from_options(items: &Vec<Option<T>>) -> (r: Self)
        ensures
            r.wf(),
            r@ == items@,
            r.chunks@.len() == 1,
            r.chunks@[0].validity is None <==> forall|i: int|
                0 <= i < items@.len() ==> (#[trigger] items@[i]) is Some,
    {
        let mut b = ChunkBuilder::new();
        let mut i: usize = 0;
        while i < items.len()
            invariant
                0 <= i <= items@.len(),
                b.wf(),
                b@ == items@.take(i as int),
            decreases items@.len() - i,
        {
            b.push(items[i]);
            assert(items@.take(i as int).push(items@[i as int]) =~= items@.take(i as int + 1));
            i = i + 1;
        }
        assert(items@.take(i as int) =~= items@);
        let c = b.finish();
        let mut chunks = Vec::new();
        chunks.push(c);
        proof {
            lemma_flatten_push(Seq::<Chunk<T>>::empty(), c);
            assert(chunks@ =~= Seq::<Chunk<T>>::empty().push(c));
            assert(c@ == items@);
            if c.validity is None {
                assert forall|i: int| 0 <= i < items@.len() implies (#[trigger] items@[i]) is Some by {
                    assert(c@[i] is Some);
                }
            }
        }
        ChunkedArray { chunks }
    }

    /// Builds a column with one chunk per inner vector.
    pub fn from_chunk_options(parts: &Vec<Vec<Option<T>>>) -> (r: Self)
        ensures
            r.wf(),
            r.chunks@.len() == parts@.len(),
            forall|k: int| 0 <= k < parts@.len() ==> (#[trigger] r.chunks@[k])@ == parts@[k]@,
    {
        let mut chunks: Vec<Chunk<T>> = Vec::new();
        let mut k: usize = 0;
        while k < parts.len()
            invariant
                0 <= k <= parts@.len(),
                chunks@.len() == k,
                forall|j: int| 0 <= j < k ==> (#[trigger] chunks@[j]).wf(),
                forall|j: int| 0 <= j < k ==> (#[trigger] chunks@[j])@ == parts@[j]@,
            decreases parts@.len() - k,
        {
            let one = ChunkedArray::from_options(&parts[k]);
            let mut one_chunks = one.chunks;
            let c = one_chunks.pop().unwrap();
            proof {
                assert(one_chunks@.len() == 0);
                assert(one.chunks@ =~= Seq::<Chunk<T>>::empty().push(c));
                lemma_flatten_push(Seq::<Chunk<T>>::empty(), c);
                assert(c@ =~= parts@[k as int]@);
            }
            chunks.push(c);
            k = k + 1;
        }
        ChunkedArray { chunks }
    }

    /// The logical contents as one vector of optional values.
    pub fn to_options(&self) -> (r: Vec<Option<T>>)
        requires
            self.wf(),
        ensures
            r@ == self@,
    {
        let mut out: Vec<Option<T>> = Vec::new();
        let mut k: usize = 0;
        while k < self.chunks.len()
            invariant
                self.wf(),
                0 <= k <= self.chunks@.len(),
                out@ == flatten(self.chunks@.take(k as int)),
            decreases self.chunks@.len() - k,
        {
            let c = &self.chunks[k];
            assert(c.wf());
            let mut j: usize = 0;
            while j < c.len()
                invariant
                    c.wf(),
                    0 <= j <= c@.len(),
                    out@ == flatten(self.chunks@.take(k as int)) + c@.take(j as int),
                decreases c@.len() - j,
            {
                out.push(c.get(j));
                assert(c@.take(j as int).push(c@[j as int]) =~= c@.take(j as int + 1));
                assert(flatten(self.chunks@.take(k as int)) + c@.take(j as int + 1) =~= 
                    (flatten(self.chunks@.take(k as int)) + c@.take(j as int)).push(c@[j as int]));
                j = j + 1;
            }
            proof {
                assert(c@.take(j as int) =~= c@);
                lemma_flatten_take_succ(self.chunks@, k as int);
            }
            k = k + 1;
        }
        assert(self.chunks@.take(k as int) =~= self.chunks@);
        out
    }

    /// A fresh column with the same chunks.
    pub fn duplicate(&self) -> (r: Self)
        requires
            self.wf(),
        ensures
            r.wf(),
            r@ == self@,
            r.chunks@.len() == self.chunks@.len(),
    {
        let mut chunks: Vec<Chunk<T>> = Vec::new();
        let mut k: usize = 0;
        while k < self.chunks.len()
            invariant
                self.wf(),
                0 <= k <= self.chunks@.len(),
                chunks@.len() == k,
                forall|j: int| 0 <= j < k ==> (#[trigger] chunks@[j]).wf(),
                forall|j: int| 0 <= j < k ==> (#[trigger] chunks@[j])@ == self.chunks@[j]@,
            decreases self.chunks@.len() - k,
        {
            let c = &self.chunks[k];
            assert(c.wf());
            let mut values: Vec<T> = Vec::new();
            let mut j: usize = 0;
            while j < c.values.len()
                invariant
                    0 <= j <= c.values@.len(),
                    values@ == c.values@.take(j as int),
                decreases c.values@.len() - j,
            {
                values.push(c.values[j]);
                assert(c.values@.take(j as int).push(c.values@[j as int]) =~= c.values@.take(j as int + 1));
                j = j + 1;
            }
            assert(c.values@.take(j as int) =~= c.values@);
            let validity = match &c.validity {
                Some(m) => {
                    let mut mm: Vec<bool> = Vec::new();
                    let mut j: usize = 0;
                    while j < m.len()
                        invariant
                            0 <= j <= m@.len(),
                            mm@ == m@.take(j as int),
                        decreases m@.len() - j,
                    {
                        mm.push(m[j]);
                        assert(m@.take(j as int).push(m@[j as int]) =~= m@.take(j as int + 1));
                        j = j + 1;
                    }
                    assert(m@.take(j as int) =~= m@);
                    Some(mm)
                },
                None => None,
            };
            let nc = Chunk { values, validity };
            assert(nc@ =~= c@);
            chunks.push(nc);
            k = k + 1;
        }
        let r = ChunkedArray { chunks };
        proof {
            lemma_flatten_congruent(r.chunks@, self.chunks@);
        }
        r
    }
}

/// Two chunk sequences with equal chunk contents have equal contents.
pub proof fn lemma_flatten_congruent<T>(a: Seq<Chunk<T>>, b: Seq<Chunk<T>>)
    requires
        a.len() == b.len(),
        forall|k: int| 0 <= k < a.len() ==> (#[trigger] a[k])@ == b[k]@,
    ensures
        flatten(a) == flatten(b),
    decreases a.len(),
{
    if a.len() > 0 {
        lemma_flatten_congruent(a.drop_last(), b.drop_last());
    }
}

} // verus!
