//! The parsed model file as handed over by a parser, and the checks that
//! decide whether its structure can be assembled into a classifier.
use vstd::prelude::*;
use crate::matrix::{padded_len, LANES};
use crate::triangular::num_pairs;

verus! {

/// Classifier type named in a model header.
#[derive(Clone, Copy, Debug, PartialEq, Eq, Structural)]
pub enum SVMType {
    CSvc,
    NuSvc,
    ESvr,
    NuSvr,
}

/// One `(index, value)` attribute of a support vector; indices are 1-based.
#[derive(Clone, Copy, Debug)]
pub struct Attribute<V> {
    pub index: u32,
    pub value: V,
}

/// One support vector of the model file: its dual coefficients, one per
/// opposing class, and its attributes.
#[derive(Clone, Debug)]
pub struct SupportVector<V, C> {
    pub coefs: Vec<C>,
    pub features: Vec<Attribute<V>>,
}

/// Header of a model file.
#[derive(Clone, Debug)]
pub struct Header<V, C> {
    pub svm_type: String,
    pub kernel_type: String,
    pub gamma: V,
    pub coef0: V,
    pub degree: u32,
    pub nr_class: u32,
    pub total_sv: u32,
    /// Biases of the class pairs, pair `(0,1)` first.
    pub rho: Vec<C>,
    pub label: Vec<u32>,
    pub prob_a: Option<Vec<C>>,
    pub prob_b: Option<Vec<C>>,
    pub nr_sv: Vec<u32>,
}

/// A parsed model file: header, then the support vectors grouped by class.
#[derive(Clone, Debug)]
pub struct ModelFile<V, C> {
    pub header: Header<V, C>,
    pub vectors: Vec<SupportVector<V, C>>,
}

/// Index of the first support vector of class `i`: the counts of the classes
/// before it, summed.
pub open spec fn class_start(nr_sv: Seq<u32>, i: int) -> int
    decreases i,
{
    if i <= 0 {
        0
    } else {
        class_start(nr_sv, i - 1) + nr_sv[i - 1]
    }
}

/// Does a matrix of `rows` rows of `cols` values fit in memory's address range?
pub open spec fn fits_matrix(rows: int, cols: int) -> bool {
    &&& cols + LANES <= usize::MAX
    &&& rows * padded_len(cols as nat) <= usize::MAX
}

/// Number of attributes each support vector carries, taken from the first.
pub open spec fn spec_num_attributes<V, C>(m: ModelFile<V, C>) -> int {
    m.vectors@[0].features@.len() as int
}

/// The structural conditions a model must meet: at least two classes, every
/// per-class list has one entry per class, every class has a support vector,
/// the counts add up to `total_sv` and to the support vectors given, labels are
/// unique, the pair lists have one entry per class pair, every support vector
/// has one coefficient per opposing class and as many attributes as the first
/// (at least one), and every table fits the address range.
pub open spec fn structure_ok<V, C>(m: ModelFile<V, C>) -> bool {
    let h = m.header;
    let n = h.nr_class as int;
    let na = spec_num_attributes(m);
    &&& n >= 2
    &&& n * n <= usize::MAX
    &&& m.vectors@.len() >= 1
    &&& h.label@.len() == n
    &&& h.nr_sv@.len() == n
    &&& forall|i: int| 0 <= i < n ==> #[trigger] h.nr_sv@[i] >= 1
    &&& class_start(h.nr_sv@, n) == h.total_sv
    &&& m.vectors@.len() == h.total_sv
    &&& forall|i: int, j: int| 0 <= i < j < n ==> #[trigger] h.label@[i] != #[trigger] h.label@[j]
    &&& h.rho@.len() == num_pairs(n as nat)
    &&& (h.prob_a.is_some() && h.prob_b.is_some()) ==> {
        &&& h.prob_a.unwrap()@.len() == num_pairs(n as nat)
        &&& h.prob_b.unwrap()@.len() == num_pairs(n as nat)
    }
    &&& 1 <= na < u32::MAX
    &&& forall|s: int| 0 <= s < m.vectors@.len() ==> {
        &&& (#[trigger] m.vectors@[s]).coefs@.len() == n - 1
        &&& m.vectors@[s].features@.len() == na
    }
    &&& forall|i: int| 0 <= i < n ==> {
        &&& fits_matrix(#[trigger] h.nr_sv@[i] as int, na)
        &&& fits_matrix(n - 1, h.nr_sv@[i] as int)
    }
    &&& fits_matrix(n, h.total_sv as int)
    &&& fits_matrix(n, n)
}

/// Attribute `k` of support vector `s` has the index it must have: `k + 1`.
pub open spec fn attribute_in_place<V, C>(m: ModelFile<V, C>, s: int, k: int) -> bool {
    m.vectors@[s].features@[k].index == k + 1
}

/// Every support vector lists its attributes as `1, 2, 3, ...`.
pub open spec fn attributes_ok<V, C>(m: ModelFile<V, C>) -> bool {
    forall|s: int, k: int|
        0 <= s < m.vectors@.len() && 0 <= k < m.vectors@[s].features@.len()
            ==> #[trigger] attribute_in_place(m, s, k)
}

/// Attribute `k` of support vector `s` is the first one, in file order, that
/// is out of place.
pub open spec fn first_misplaced<V, C>(m: ModelFile<V, C>, s: int, k: int) -> bool {
    &&& 0 <= s < m.vectors@.len()
    &&& 0 <= k < m.vectors@[s].features@.len()
    &&& !attribute_in_place(m, s, k)
    &&& forall|k2: int| 0 <= k2 < k ==> #[trigger] attribute_in_place(m, s, k2)
    &&& forall|s2: int, k2: int|
        0 <= s2 < s && 0 <= k2 < m.vectors@[s2].features@.len()
            ==> #[trigger] attribute_in_place(m, s2, k2)
}

/// Is `cols` wide enough, and `rows` few enough, for a padded matrix to fit?
pub fn matrix_fits(rows: usize, cols: usize) -> (r: bool)
    ensures
        r == fits_matrix(rows as int, cols as int),
{
    match cols.checked_add(LANES) {
        None => false,
        Some(_) => {
            let stride: usize = (cols + LANES - 1) / LANES * LANES;
            rows.checked_mul(stride).is_some()
        },
    }
}

/// Checks the structural conditions of `structure_ok`.
pub fn check_structure<V: Copy, C: Copy>(m: &ModelFile<V, C>) -> (r: bool)
    ensures
        r == structure_ok(*m),
{
    let h = &m.header;
    if h.nr_class < 2 || h.label.len() != h.nr_class as usize || h.nr_sv.len() != h.nr_class as usize
        || m.vectors.len() != h.total_sv as usize || m.vectors.len() == 0 {
        return false;
    }
    let n = h.nr_class as usize;
    match n.checked_mul(n) {
        None => return false,
        Some(_) => {},
    }
    if !matrix_fits(n, h.total_sv as usize) || !matrix_fits(n, n) {
        return false;
    }
    let na = m.vectors[0].features.len();
    if na == 0 || na >= u32::MAX as usize {
        return false;
    }
    // per-class counts, their sum, sizes, and label uniqueness
    let mut sum: u64 = 0;
    let mut i: usize = 0;
    while i < n
        invariant
            structure_prefix(*m, i as int, sum as int),
            n == h.nr_class,
            h == &m.header,
            h.nr_sv@.len() == n,
            h.label@.len() == n,
            na == spec_num_attributes(*m),
            i <= n,
            sum == class_start(h.nr_sv@, i as int),
            sum <= i * 0x1_0000_0000,
            n <= u32::MAX,
        decreases n - i,
    {
        let c = h.nr_sv[i];
        if c < 1 || !matrix_fits(c as usize, na) || !matrix_fits(n - 1, c as usize) {
            return false;
        }
        let mut j: usize = 0;
        while j < i
            invariant
                j <= i,
                i < n,
                h == &m.header,
                h.label@.len() == n,
                forall|k: int| 0 <= k < j ==> #[trigger] h.label@[k] != h.label@[i as int],
            decreases i - j,
        {
            if h.label[j] == h.label[i] {
                assert(m.header.label@[j as int] == m.header.label@[i as int]);
                return false;
            }
            j = j + 1;
        }
        sum = sum + c as u64;
        i = i + 1;
    }
    if sum != h.total_sv as u64 {
        return false;
    }
    if h.rho.len() != num_pairs_exec(n) {
        return false;
    }
    match (&h.prob_a, &h.prob_b) {
        (Some(a), Some(b)) => {
            if a.len() != num_pairs_exec(n) || b.len() != num_pairs_exec(n) {
                return false;
            }
        },
        _ => {},
    }
    let mut s: usize = 0;
    while s < m.vectors.len()
        invariant
            s <= m.vectors@.len(),
            n == m.header.nr_class,
            n >= 2,
            na == spec_num_attributes(*m),
            forall|t: int| 0 <= t < s ==> {
                &&& (#[trigger] m.vectors@[t]).coefs@.len() == n - 1
                &&& m.vectors@[t].features@.len() == na
            },
        decreases m.vectors@.len() - s,
    {
        if m.vectors[s].coefs.len() != n - 1 || m.vectors[s].features.len() != na {
            return false;
        }
        s = s + 1;
    }
    true
}

/// Classes `0 .. i` pass the per-class conditions of `structure_ok`.
pub open spec fn structure_prefix<V, C>(m: ModelFile<V, C>, i: int, sum: int) -> bool {
    let h = m.header;
    let n = h.nr_class as int;
    let na = spec_num_attributes(m);
    &&& forall|k: int| 0 <= k < i ==> #[trigger] h.nr_sv@[k] >= 1
    &&& forall|k: int| 0 <= k < i ==> {
        &&& fits_matrix(#[trigger] h.nr_sv@[k] as int, na)
        &&& fits_matrix(n - 1, h.nr_sv@[k] as int)
    }
    &&& forall|a: int, b: int| 0 <= a < b < i ==> #[trigger] h.label@[a] != #[trigger] h.label@[b]
}

/// Number of class pairs over `n` classes.
fn num_pairs_exec(n: usize) -> (r: usize)
    requires
        n * n <= usize::MAX,
    ensures
        r == num_pairs(n as nat),
{
    crate::triangular::Triangular::<u32>::cells_for(n)
}

} // verus!
