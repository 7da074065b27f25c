//! Row-major matrix whose rows are padded to a multiple of the SIMD lane count.
use vstd::prelude::*;

verus! {

/// Number of values a row is padded to a multiple of.
pub const LANES: usize = 8;

/// Row stride for rows of `attributes` values: the next multiple of `LANES`.
pub open spec fn padded_len(attributes: nat) -> nat {
    ((attributes + LANES - 1) / (LANES as int)) as nat * LANES as nat
}

/// Basic matrix used for fast SIMD operations: all rows live in one flat
/// buffer, each starting at a multiple of `vector_length`.
#[derive(Clone, Debug)]
pub struct SimdOptimized<T: Copy> {
    /// Number of vectors (rows) this matrix has.
    pub vectors: usize,
    /// Number of attributes per vector.
    pub attributes: usize,
    /// Stride of a row, `attributes` rounded up to the lane count.
    pub vector_length: usize,
    /// All rows, one after another.
    pub data: Vec<T>,
}

impl<T: Copy> SimdOptimized<T> {
    /// Shape invariant: stride covers the attributes and the buffer holds every row.
    pub open spec fn wf(&self) -> bool {
        &&& self.vector_length as nat == padded_len(self.attributes as nat)
        &&& self.data@.len() == self.vectors as nat * self.vector_length as nat
        &&& self.data@.len() <= usize::MAX
    }

    /// Flat position of entry (`r`, `c`).
    pub open spec fn pos(&self, r: int, c: int) -> int {
        r * self.vector_length + c
    }

    /// Entry (`r`, `c`) of the matrix.
    pub open spec fn at(&self, r: int, c: int) -> T {
        self.data@[self.pos(r, c)]
    }

    /// Row `r` with its padding.
    pub open spec fn row_seq(&self, r: int) -> Seq<T> {
        self.data@.subrange(self.pos(r, 0), self.pos(r, 0) + self.vector_length)
    }

    /// Every padding lane (column at or past `attributes`) of every row holds `pad`.
    pub open spec fn padding_is(&self, pad: T) -> bool {
        forall|r: int, c: int|
            0 <= r < self.vectors && self.attributes <= c < self.vector_length
                ==> #[trigger] self.at(r, c) == pad
    }

    /// Creates a matrix of `vectors` rows of `attributes` values, every entry
    /// (padding included) set to `default`.
    pub fn with_dimension(vectors: usize, attributes: usize, default: T) -> (m: SimdOptimized<T>)
        requires
            attributes + LANES <= usize::MAX,
            vectors * padded_len(attributes as nat) <= usize::MAX,
        ensures
            m.wf(),
            m.vectors == vectors,
            m.attributes == attributes,
            forall|i: int| 0 <= i < m.data@.len() ==> #[trigger] m.data@[i] == default,
            m.padding_is(default),
    {
        let vector_length: usize = (attributes + LANES - 1) / LANES * LANES;
        let total: usize = vectors * vector_length;
        let mut data: Vec<T> = Vec::with_capacity(total);
        while data.len() < total
            invariant
                data@.len() <= total,
                forall|i: int| 0 <= i < data@.len() ==> #[trigger] data@[i] == default,
            decreases total - data@.len(),
        {
            data.push(default);
        }
        let m = SimdOptimized { vectors, attributes, vector_length, data };
        assert forall|r: int, c: int|
            0 <= r < m.vectors && m.attributes <= c < m.vector_length implies
            #[trigger] m.at(r, c) == default by {
            lemma_pos_in_bounds(r, c, m.vectors as int, m.vector_length as int);
        }
        m
    }

    /// Computes the flat offset of `attribute` within `vector`.
    pub fn offset(&self, vector: usize, attribute: usize) -> (r: usize)
        requires
            self.wf(),
            vector < self.vectors,
            attribute <= self.vector_length,
        ensures
            r == self.pos(vector as int, attribute as int),
            r <= self.data@.len(),
    {
        proof {
            lemma_pos_in_bounds(vector as int, attribute as int, self.vectors as int, self.vector_length as int);
        }
        vector * self.vector_length + attribute
    }

    /// Overwrites the first `attributes` values of row `index_vector` with the
    /// first `attributes` values of `vector`; padding lanes and other rows keep
    /// their values.
    pub fn set_vector(&mut self, index_vector: usize, vector: &[T])
        requires
            old(self).wf(),
            index_vector < old(self).vectors,
            vector@.len() >= old(self).attributes,
        ensures
            final(self).wf(),
            final(self).vectors == old(self).vectors,
            final(self).attributes == old(self).attributes,
            final(self).vector_length == old(self).vector_length,
            forall|r: int, c: int|
                0 <= r < final(self).vectors && 0 <= c < final(self).vector_length ==>
                #[trigger] final(self).at(r, c) == if r == index_vector && c < final(self).attributes {
                    vector@[c]
                } else {
                    old(self).at(r, c)
                },
    {
        let start = self.offset(index_vector, 0);
        let n = self.attributes;
        proof {
            lemma_pos_in_bounds(index_vector as int, n as int, self.vectors as int, self.vector_length as int);
        }
        let mut k: usize = 0;
        while k < n
            invariant
                self.wf(),
                self.vectors == old(self).vectors,
                self.attributes == old(self).attributes,
                self.vector_length == old(self).vector_length,
                n == self.attributes,
                k <= n,
                start == self.pos(index_vector as int, 0),
                start + n <= self.data@.len(),
                self.data@.len() == old(self).data@.len(),
                vector@.len() >= n,
                forall|i: int| 0 <= i < self.data@.len() ==> #[trigger] self.data@[i] == if start <= i < start + k {
                    vector@[i - start]
                } else {
                    old(self).data@[i]
                },
            decreases n - k,
        {
            self.data.set(start + k, vector[k]);
            k = k + 1;
        }
        assert forall|r: int, c: int|
            0 <= r < self.vectors && 0 <= c < self.vector_length implies
            #[trigger] self.at(r, c) == if r == index_vector && c < self.attributes {
                vector@[c]
            } else {
                old(self).at(r, c)
            } by {
            lemma_pos_in_bounds(r, c, self.vectors as int, self.vector_length as int);
            lemma_pos_distinct(r, c, index_vector as int, self.vector_length as int);
        }
    }

    /// Entry (`vector`, `attribute`).
    pub fn get(&self, vector: usize, attribute: usize) -> (v: T)
        requires
            self.wf(),
            vector < self.vectors,
            attribute < self.vector_length,
        ensures
            v == self.at(vector as int, attribute as int),
    {
        proof {
            lemma_pos_in_bounds(vector as int, attribute as int, self.vectors as int, self.vector_length as int);
        }
        let i = self.offset(vector, attribute);
        self.data[i]
    }

    /// Sets entry (`vector`, `attribute`) to `value`; every other entry is kept.
    pub fn set(&mut self, vector: usize, attribute: usize, value: T)
        requires
            old(self).wf(),
            vector < old(self).vectors,
            attribute < old(self).vector_length,
        ensures
            final(self).wf(),
            final(self).vectors == old(self).vectors,
            final(self).attributes == old(self).attributes,
            final(self).vector_length == old(self).vector_length,
            forall|r: int, c: int|
                0 <= r < final(self).vectors && 0 <= c < final(self).vector_length ==>
                #[trigger] final(self).at(r, c) == if r == vector && c == attribute {
                    value
                } else {
                    old(self).at(r, c)
                },
    {
        proof {
            lemma_pos_in_bounds(vector as int, attribute as int, self.vectors as int, self.vector_length as int);
        }
        let i = self.offset(vector, attribute);
        self.data.set(i, value);
        assert forall|r: int, c: int|
            0 <= r < self.vectors && 0 <= c < self.vector_length implies
            #[trigger] self.at(r, c) == if r == vector && c == attribute {
                value
            } else {
                old(self).at(r, c)
            } by {
            lemma_pos_in_bounds(r, c, self.vectors as int, self.vector_length as int);
            lemma_pos_distinct(r, c, vector as int, self.vector_length as int);
        }
    }

    /// Row `index` as a slice of `vector_length` values, padding included.
    pub fn row(&self, index: usize) -> (r: &[T])
        requires
            self.wf(),
            index < self.vectors,
        ensures
            r@ == self.row_seq(index as int),
            r@.len() == self.vector_length,
    {
        let start = self.offset(index, 0);
        let stop = self.offset(index, self.vector_length);
        vstd::slice::slice_subrange(self.data.as_slice(), start, stop)
    }

    /// A cursor over the rows of this matrix, starting at the first.
    pub fn iter(&self) -> (it: IterManyVectors<'_, T>)
        ensures
            it.matrix == self,
            it.index == 0,
    {
        IterManyVectors { matrix: self, index: 0 }
    }
}

/// Cursor over the rows of a matrix.
pub struct IterManyVectors<'a, T: Copy> {
    /// The matrix walked over.
    pub matrix: &'a SimdOptimized<T>,
    /// Index of the next row to hand out.
    pub index: usize,
}

impl<'a, T: Copy> IterManyVectors<'a, T> {
    /// Hands out the next row, or `None` once every row was handed out.
    pub fn next(&mut self) -> (r: Option<&'a [T]>)
        requires
            old(self).matrix.wf(),
        ensures
            final(self).matrix == old(self).matrix,
            old(self).index < old(self).matrix.vectors ==> {
                &&& final(self).index == old(self).index + 1
                &&& r.is_some()
                &&& r.unwrap()@ == old(self).matrix.row_seq(old(self).index as int)
            },
            old(self).index >= old(self).matrix.vectors ==> {
                &&& final(self).index == old(self).index
                &&& r.is_none()
            },
    {
        if self.index >= self.matrix.vectors {
            None
        } else {
            let i = self.index;
            self.index = i + 1;
            Some(self.matrix.row(i))
        }
    }
}

/// A padded row is at least as long as the row it pads.
pub proof fn lemma_padded_len_ge(attributes: nat)
    ensures
        attributes <= padded_len(attributes),
{
    let q = (attributes + LANES - 1) / (LANES as int);
    assert(attributes + LANES - 1 < q * LANES + LANES);
    assert(attributes <= q * LANES);
}

/// Padding lanes keep their value through a bulk set: a matrix whose padding
/// holds `pad` still has it after `set_vector`, whatever the new row holds.
pub proof fn lemma_set_vector_keeps_padding<T: Copy>(
    before: SimdOptimized<T>,
    after: SimdOptimized<T>,
    index_vector: int,
    vector: Seq<T>,
    pad: T,
)
    requires
        before.wf(),
        before.padding_is(pad),
        after.vectors == before.vectors,
        after.attributes == before.attributes,
        after.vector_length == before.vector_length,
        forall|r: int, c: int|
            0 <= r < after.vectors && 0 <= c < after.vector_length ==>
            #[trigger] after.at(r, c) == if r == index_vector && c < after.attributes {
                vector[c]
            } else {
                before.at(r, c)
            },
    ensures
        after.padding_is(pad),
{
    assert forall|r: int, c: int|
        0 <= r < after.vectors && after.attributes <= c < after.vector_length implies
        #[trigger] after.at(r, c) == pad by {
        assert(before.at(r, c) == pad);
    }
}

/// Entry (`r`, `c`) of an `n`-row matrix with stride `w` lies in the buffer.
proof fn lemma_pos_in_bounds(r: int, c: int, n: int, w: int)
    requires
        0 <= r < n,
        0 <= c <= w,
    ensures
        0 <= r * w + c <= n * w,
        c < w ==> r * w + c < n * w,
{
    assert(r * w + w <= n * w) by (nonlinear_arith)
        requires 0 <= r < n, 0 <= w;
    assert(0 <= r * w) by (nonlinear_arith)
        requires 0 <= r, 0 <= w;
}

/// Only the entries of row `s` lie in `[s * w, s * w + w)`.
proof fn lemma_pos_distinct(r: int, c: int, s: int, w: int)
    requires
        0 <= r,
        0 <= s,
        0 <= c < w,
    ensures
        (s * w <= r * w + c < s * w + w) <==> r == s,
{
    if r < s {
        assert(r * w + w <= s * w) by (nonlinear_arith)
            requires r < s, 0 <= w;
    } else if r > s {
        assert(s * w + w <= r * w) by (nonlinear_arith)
            requires s < r, 0 <= w;
    }
}

} // verus!
