//! Sparse storage: rows of `(index, value)` pairs sorted by index.
use vstd::prelude::*;

verus! {

/// Indices of `entries` strictly increase.
pub open spec fn sorted_indices<T>(entries: Seq<(usize, T)>) -> bool {
    forall|a: int, b: int| 0 <= a < b < entries.len() ==> #[trigger] entries[a].0 < #[trigger] entries[b].0
}

/// Value stored under `index`, if any.
pub open spec fn lookup<T>(entries: Seq<(usize, T)>, index: usize) -> Option<T> {
    if exists|k: int| 0 <= k < entries.len() && #[trigger] entries[k].0 == index {
        Some(entries[choose|k: int| 0 <= k < entries.len() && #[trigger] entries[k].0 == index].1)
    } else {
        None
    }
}

/// A vector that stores only some of its entries, as `(index, value)` pairs.
#[derive(Clone, Debug)]
pub struct SparseVector<T> {
    /// Stored entries, sorted by strictly increasing index.
    pub entries: Vec<(usize, T)>,
}

impl<T: Copy> SparseVector<T> {
    /// Shape invariant: indices strictly increase.
    pub open spec fn wf(&self) -> bool {
        sorted_indices(self.entries@)
    }

    /// A vector with no stored entry.
    pub fn new() -> (v: SparseVector<T>)
        ensures
            v.wf(),
            v.entries@.len() == 0,
    {
        SparseVector { entries: Vec::new() }
    }

    /// Appends `value` under `index`, which must exceed every stored index.
    pub fn push(&mut self, index: usize, value: T)
        requires
            old(self).wf(),
            old(self).entries@.len() > 0 ==> old(self).entries@.last().0 < index,
        ensures
            final(self).wf(),
            final(self).entries@ == old(self).entries@.push((index, value)),
    {
        self.entries.push((index, value));
        assert forall|a: int, b: int| 0 <= a < b < self.entries@.len() implies
            #[trigger] self.entries@[a].0 < #[trigger] self.entries@[b].0 by {
            if b == self.entries@.len() - 1 && a < b {
                assert(old(self).entries@[a].0 <= old(self).entries@.last().0);
            }
        }
    }

    /// Value stored under `index`, or `None` where nothing is stored there.
    pub fn get(&self, index: usize) -> (r: Option<T>)
        requires
            self.wf(),
        ensures
            r == lookup(self.entries@, index),
    {
        let mut k: usize = 0;
        while k < self.entries.len()
            invariant
                self.wf(),
                k <= self.entries@.len(),
                forall|j: int| 0 <= j < k ==> #[trigger] self.entries@[j].0 != index,
            decreases self.entries@.len() - k,
        {
            let (i, v) = self.entries[k];
            if i == index {
                proof {
                    let c = choose|j: int| 0 <= j < self.entries@.len() && #[trigger] self.entries@[j].0 == index;
                    if c < k {
                        assert(self.entries@[c].0 != index);
                    } else if c > k {
                        assert(self.entries@[k as int].0 < self.entries@[c].0);
                    }
                }
                return Some(v);
            }
            if i > index {
                proof {
                    assert forall|j: int| 0 <= j < self.entries@.len() implies #[trigger] self.entries@[j].0 != index by {
                        if j > k {
                            assert(self.entries@[k as int].0 < self.entries@[j].0);
                        }
                    }
                }
                return None;
            }
            k = k + 1;
        }
        None
    }
}

/// A matrix of sparse rows.
#[derive(Clone, Debug)]
pub struct SparseMatrix<T> {
    pub rows: Vec<SparseVector<T>>,
}

impl<T: Copy> SparseMatrix<T> {
    /// Every row is sorted.
    pub open spec fn wf(&self) -> bool {
        forall|r: int| 0 <= r < self.rows@.len() ==> (#[trigger] self.rows@[r]).wf()
    }

    /// A matrix of `rows` empty rows.
    pub fn with_dimension(rows: usize) -> (m: SparseMatrix<T>)
        ensures
            m.wf(),
            m.rows@.len() == rows,
            forall|r: int| 0 <= r < rows ==> (#[trigger] m.rows@[r]).entries@.len() == 0,
    {
        let mut v: Vec<SparseVector<T>> = Vec::new();
        while v.len() < rows
            invariant
                v@.len() <= rows,
                forall|r: int| 0 <= r < v@.len() ==> (#[trigger] v@[r]).wf() && v@[r].entries@.len() == 0,
            decreases rows - v@.len(),
        {
            v.push(SparseVector::new());
        }
        SparseMatrix { rows: v }
    }

    /// Appends `value` at column `col` of row `row`; `col` must exceed every
    /// column stored in that row. Other rows are kept.
    pub fn push(&mut self, row: usize, col: usize, value: T)
        requires
            old(self).wf(),
            row < old(self).rows@.len(),
            old(self).rows@[row as int].entries@.len() > 0 ==> old(self).rows@[row as int].entries@.last().0 < col,
        ensures
            final(self).wf(),
            final(self).rows@.len() == old(self).rows@.len(),
            final(self).rows@[row as int].entries@ == old(self).rows@[row as int].entries@.push((col, value)),
            forall|r: int| 0 <= r < final(self).rows@.len() && r != row ==> #[trigger] final(self).rows@[r] == old(self).rows@[r],
    {
        let mut v = self.rows.remove(row);
        v.push(col, value);
        self.rows.insert(row, v);
        assert forall|r: int| 0 <= r < self.rows@.len() && r != row implies #[trigger] self.rows@[r] == old(self).rows@[r] by {
            if r > row {
                assert(self.rows@[r] == old(self).rows@[r]);
            }
        }
    }

    /// Value at (`row`, `col`), or `None` where nothing is stored there.
    pub fn get(&self, row: usize, col: usize) -> (r: Option<T>)
        requires
            self.wf(),
            row < self.rows@.len(),
        ensures
            r == lookup(self.rows@[row as int].entries@, col),
    {
        self.rows[row].get(col)
    }
}

} // verus!
