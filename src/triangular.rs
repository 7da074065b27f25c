//! Flat store for symmetric data over unordered pairs of distinct indices.
use vstd::prelude::*;

verus! {

/// Number of cells before the row of pairs `(i, j)`, `i < j`, in an
/// `n`-dimensional store: the rows of `0 .. i` hold `n - 1 - k` cells each.
pub open spec fn row_start(n: nat, i: nat) -> nat
    decreases i,
{
    if i == 0 {
        0
    } else {
        (row_start(n, (i - 1) as nat) + n - i) as nat
    }
}

/// Flat position of the unordered pair `{i, j}`, `i != j`.
pub open spec fn pair_index(n: nat, i: nat, j: nat) -> nat {
    if i < j {
        (row_start(n, i) + j - i - 1) as nat
    } else {
        (row_start(n, j) + i - j - 1) as nat
    }
}

/// Number of unordered pairs of distinct indices below `n`.
pub open spec fn num_pairs(n: nat) -> nat {
    row_start(n, n)
}

proof fn lemma_row_start_closed(n: nat, i: nat)
    requires
        i <= n,
    ensures
        2 * row_start(n, i) == i * (2 * n - i - 1),
    decreases i,
{
    if i == 0 {
        assert(row_start(n, 0) == 0);
    } else {
        let p = (i - 1) as nat;
        lemma_row_start_closed(n, p);
        let a = row_start(n, p) as int;
        let b = row_start(n, i) as int;
        assert(b == a + n - i);
        let ni = n as int;
        let ii = i as int;
        assert(2 * b == ii * (2 * ni - ii - 1)) by (nonlinear_arith)
            requires
                2 * a == (ii - 1) * (2 * ni - (ii - 1) - 1),
                b == a + ni - ii;
    }
}

proof fn lemma_row_start_mono(n: nat, i: nat, k: nat)
    requires
        i <= k <= n,
    ensures
        row_start(n, i) <= row_start(n, k),
    decreases k - i,
{
    if i < k {
        lemma_row_start_mono(n, i, (k - 1) as nat);
    }
}

/// The cells of pair `{i, j}`, `i < j < n`, lie inside the store.
proof fn lemma_pair_index_bound(n: nat, i: nat, j: nat)
    requires
        i < j < n,
    ensures
        pair_index(n, i, j) < num_pairs(n),
{
    lemma_row_start_mono(n, i + 1, n);
}

/// Symmetric data for unordered pairs `(i, j)`, `i != j`, of indices below
/// `dimension`, one cell per pair.
#[derive(Clone, Debug)]
pub struct Triangular<T: Copy> {
    /// Number of indices.
    pub dimension: usize,
    /// Cells, pair `(0,1)` first, then `(0,2)` .. `(0,n-1)`, `(1,2)` and so on.
    pub data: Vec<T>,
}

impl<T: Copy> Triangular<T> {
    /// Shape invariant: one cell per pair, and the dimension squared fits a `usize`.
    pub open spec fn wf(&self) -> bool {
        &&& self.data@.len() == num_pairs(self.dimension as nat)
        &&& self.dimension * self.dimension <= usize::MAX
    }

    /// Value of pair `(i, j)`.
    pub open spec fn at(&self, i: int, j: int) -> T {
        self.data@[pair_index(self.dimension as nat, i as nat, j as nat) as int]
    }

    /// A store over `dimension` indices with every cell set to `default`.
    pub fn with_dimension(dimension: usize, default: T) -> (t: Triangular<T>)
        requires
            dimension * dimension <= usize::MAX,
        ensures
            t.wf(),
            t.dimension == dimension,
            forall|k: int| 0 <= k < t.data@.len() ==> #[trigger] t.data@[k] == default,
    {
        let total = Self::cells_for(dimension);
        let mut data: Vec<T> = Vec::with_capacity(total);
        while data.len() < total
            invariant
                data@.len() <= total,
                forall|k: int| 0 <= k < data@.len() ==> #[trigger] data@[k] == default,
            decreases total - data@.len(),
        {
            data.push(default);
        }
        Triangular { dimension, data }
    }

    /// A store over `dimension` indices holding `data` as its cells, or `None`
    /// where `data` does not have one cell per pair (or the dimension is too
    /// large to address).
    pub fn from_vec(dimension: usize, data: Vec<T>) -> (t: Option<Triangular<T>>)
        ensures
            t.is_some() <==> (data@.len() == num_pairs(dimension as nat)
                && dimension * dimension <= usize::MAX),
            t.is_some() ==> t.unwrap().wf() && t.unwrap().dimension == dimension
                && t.unwrap().data@ == data@,
    {
        match dimension.checked_mul(dimension) {
            None => None,
            Some(_) => {
                if data.len() == Self::cells_for(dimension) {
                    Some(Triangular { dimension, data })
                } else {
                    None
                }
            },
        }
    }

    /// Number of pairs over `n` indices.
    pub(crate) fn cells_for(n: usize) -> (r: usize)
        requires
            n * n <= usize::MAX,
        ensures
            r == num_pairs(n as nat),
    {
        proof {
            lemma_row_start_closed(n as nat, n as nat);
            if n > 0 {
                assert(n * (n - 1) <= n * n) by (nonlinear_arith) requires n > 0;
            }
        }
        if n == 0 {
            0
        } else {
            n * (n - 1) / 2
        }
    }

    /// Flat offset of pair `(i, j)`; the order of the two indices does not matter.
    pub fn offset(&self, i: usize, j: usize) -> (r: usize)
        requires
            self.wf(),
            i < self.dimension,
            j < self.dimension,
            i != j,
        ensures
            r == pair_index(self.dimension as nat, i as nat, j as nat),
            r < self.data@.len(),
    {
        let n = self.dimension;
        let (lo, hi) = if i < j { (i, j) } else { (j, i) };
        proof {
            lemma_row_start_closed(n as nat, lo as nat);
            lemma_pair_index_bound(n as nat, lo as nat, hi as nat);
            assert(lo * (2 * n - lo - 1) <= n * n) by (nonlinear_arith)
                requires lo < n;
            assert(2 * n <= n * n) by (nonlinear_arith)
                requires 2 <= n;
        }
        let twice: usize = lo * (2 * n - lo - 1);
        twice / 2 + (hi - lo - 1)
    }

    /// Value of pair `(i, j)`, which is the value of `(j, i)`.
    pub fn get(&self, i: usize, j: usize) -> (v: T)
        requires
            self.wf(),
            i < self.dimension,
            j < self.dimension,
            i != j,
        ensures
            v == self.at(i as int, j as int),
    {
        let k = self.offset(i, j);
        self.data[k]
    }

    /// Sets pair `(i, j)`, and with it `(j, i)`, to `value`.
    pub fn set(&mut self, i: usize, j: usize, value: T)
        requires
            old(self).wf(),
            i < old(self).dimension,
            j < old(self).dimension,
            i != j,
        ensures
            final(self).wf(),
            final(self).dimension == old(self).dimension,
            final(self).data@ == old(self).data@.update(
                pair_index(old(self).dimension as nat, i as nat, j as nat) as int,
                value,
            ),
            final(self).at(i as int, j as int) == value,
            final(self).at(j as int, i as int) == value,
    {
        let k = self.offset(i, j);
        self.data.set(k, value);
    }
}

/// The store is symmetric: pair `(i, j)` and pair `(j, i)` name the same cell,
/// so they always hold the same value.
pub proof fn lemma_symmetric<T: Copy>(t: Triangular<T>, i: int, j: int)
    requires
        t.wf(),
        0 <= i < t.dimension,
        0 <= j < t.dimension,
        i != j,
    ensures
        t.at(i, j) == t.at(j, i),
        pair_index(t.dimension as nat, i as nat, j as nat) < t.data@.len(),
{
    if i < j {
        lemma_pair_index_bound(t.dimension as nat, i as nat, j as nat);
    } else {
        lemma_pair_index_bound(t.dimension as nat, j as nat, i as nat);
    }
}

} // verus!
