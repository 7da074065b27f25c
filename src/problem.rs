//! Reusable scratch space for one inference, and the voting that picks a class.
use vstd::prelude::*;
use crate::matrix::{padded_len, SimdOptimized};
use crate::model::fits_matrix;
use crate::svm::CSVM;
use crate::triangular::{num_pairs, Triangular};

verus! {

/// A single problem to classify, with all buffers an inference writes.
#[derive(Clone, Debug)]
pub struct Problem<V: Copy, C: Copy> {
    /// A vector of `num_attributes` features.
    pub features: Vec<V>,
    /// Kernel values, one row per class.
    pub kernel_values: SimdOptimized<C>,
    /// Votes per class.
    pub vote: Vec<u32>,
    /// Decision value per class pair.
    pub decision_values: Triangular<C>,
    /// Pairwise probabilities, one row and one column per class.
    pub pairwise: SimdOptimized<C>,
    /// Posterior probability per class.
    pub probabilities: Vec<C>,
    /// Computed label.
    pub label: u32,
}

/// Is `r` the index of the largest entry of `values`, the first one where
/// several are largest?
pub open spec fn is_first_max(values: Seq<u32>, r: int) -> bool {
    &&& 0 <= r < values.len()
    &&& forall|k: int| 0 <= k < values.len() ==> #[trigger] values[k] <= values[r]
    &&& forall|k: int| 0 <= k < r ==> #[trigger] values[k] < values[r]
}

/// Index of the largest entry of `values`; ties go to the lowest index.
pub fn first_max_index(values: &Vec<u32>) -> (r: usize)
    requires
        values@.len() >= 1,
    ensures
        is_first_max(values@, r as int),
{
    let mut best: usize = 0;
    let mut i: usize = 1;
    while i < values.len()
        invariant
            1 <= i <= values@.len(),
            is_first_max(values@.subrange(0, i as int), best as int),
        decreases values@.len() - i,
    {
        if values[i] > values[best] {
            best = i;
        }
        i = i + 1;
        assert(values@.subrange(0, i as int).drop_last() =~= values@.subrange(0, i - 1));
    }
    assert(values@.subrange(0, i as int) =~= values@);
    best
}

/// The first largest entry is unique: where it is the first entry, no other
/// index is, so equal votes everywhere pick index 0.
pub proof fn lemma_tie_picks_lowest(values: Seq<u32>, r: int)
    requires
        values.len() >= 1,
        forall|k: int| 0 <= k < values.len() ==> #[trigger] values[k] <= values[0],
        is_first_max(values, r),
    ensures
        r == 0,
{
    if r > 0 {
        assert(values[0] < values[r]);
    }
}

/// The label chosen by vote depends on the votes alone: equal votes give the
/// same winning index, so an inference repeated on a reused problem picks the
/// same label.
pub proof fn lemma_vote_winner_unique(values: Seq<u32>, r1: int, r2: int)
    requires
        is_first_max(values, r1),
        is_first_max(values, r2),
    ensures
        r1 == r2,
{
    if r1 < r2 {
        assert(values[r1] < values[r2]);
    } else if r2 < r1 {
        assert(values[r2] < values[r1]);
    }
}

/// Two classes make exactly one class pair.
pub proof fn lemma_two_classes_one_pair()
    ensures
        num_pairs(2) == 1,
{
    reveal_with_fuel(crate::triangular::row_start, 3);
}

impl<V: Copy + Default, C: Copy + Default> Problem<V, C> {
    /// Shape invariant for a model of `num_classes` classes, `total_sv`
    /// support vectors and `num_attributes` attributes.
    pub open spec fn has_dimension(&self, total_sv: nat, num_classes: nat, num_attributes: nat) -> bool {
        &&& self.features@.len() == num_attributes
        &&& self.kernel_values.wf()
        &&& self.kernel_values.vectors == num_classes
        &&& self.kernel_values.attributes == total_sv
        &&& self.vote@.len() == num_classes
        &&& self.decision_values.wf()
        &&& self.decision_values.dimension == num_classes
        &&& self.pairwise.wf()
        &&& self.pairwise.vectors == num_classes
        &&& self.pairwise.attributes == num_classes
        &&& self.probabilities@.len() == num_classes
    }

    /// Creates a problem with every buffer allocated at full size and set to
    /// its element type's default; no vote cast and label 0.
    pub fn with_dimension(total_sv: usize, num_classes: usize, num_attributes: usize) -> (p: Problem<V, C>)
        requires
            fits_matrix(num_classes as int, total_sv as int),
            fits_matrix(num_classes as int, num_classes as int),
        ensures
            p.has_dimension(total_sv as nat, num_classes as nat, num_attributes as nat),
            forall|k: int| 0 <= k < num_classes ==> #[trigger] p.vote@[k] == 0,
            p.label == 0,
    {
        proof {
            crate::matrix::lemma_padded_len_ge(num_classes as nat);
            assert(num_classes * num_classes <= num_classes * padded_len(num_classes as nat)) by (nonlinear_arith)
                requires num_classes <= padded_len(num_classes as nat);
        }
        let features = filled(V::default(), num_attributes);
        let kernel_values = SimdOptimized::with_dimension(num_classes, total_sv, C::default());
        let pairwise = SimdOptimized::with_dimension(num_classes, num_classes, C::default());
        let decision_values = Triangular::with_dimension(num_classes, C::default());
        let vote = filled(0u32, num_classes);
        let probabilities = filled(C::default(), num_classes);
        Problem { features, kernel_values, vote, decision_values, pairwise, probabilities, label: 0 }
    }

    /// Creates a problem sized for `svm`.
    pub fn from(svm: &CSVM<V, C>) -> (p: Problem<V, C>)
        requires
            svm.wf(),
        ensures
            p.has_dimension(svm.num_total_sv as nat, svm.classes@.len(), svm.num_attributes as nat),
            forall|k: int| 0 <= k < svm.classes@.len() ==> #[trigger] p.vote@[k] == 0,
            p.label == 0,
    {
        Problem::with_dimension(svm.num_total_sv, svm.classes.len(), svm.num_attributes)
    }

    /// Withdraws every vote.
    pub fn reset_votes(&mut self)
        ensures
            final(self).vote@.len() == old(self).vote@.len(),
            forall|k: int| 0 <= k < final(self).vote@.len() ==> #[trigger] final(self).vote@[k] == 0,
            final(self).features == old(self).features,
            final(self).kernel_values == old(self).kernel_values,
            final(self).decision_values == old(self).decision_values,
            final(self).pairwise == old(self).pairwise,
            final(self).probabilities == old(self).probabilities,
            final(self).label == old(self).label,
    {
        let mut k: usize = 0;
        while k < self.vote.len()
            invariant
                k <= self.vote@.len(),
                self.vote@.len() == old(self).vote@.len(),
                forall|j: int| 0 <= j < k ==> #[trigger] self.vote@[j] == 0,
                self.features == old(self).features,
                self.kernel_values == old(self).kernel_values,
                self.decision_values == old(self).decision_values,
                self.pairwise == old(self).pairwise,
                self.probabilities == old(self).probabilities,
                self.label == old(self).label,
            decreases self.vote@.len() - k,
        {
            self.vote.set(k, 0);
            k = k + 1;
        }
    }

    /// Stores `value` as the decision of pair `(i, j)`, `i < j`, and casts a
    /// vote for `i` where `favours_i`, else for `j`.
    pub fn record_decision(&mut self, i: usize, j: usize, value: C, favours_i: bool)
        requires
            old(self).decision_values.wf(),
            old(self).vote@.len() == old(self).decision_values.dimension,
            i < j < old(self).decision_values.dimension,
            old(self).vote@[if favours_i { i as int } else { j as int }] < u32::MAX,
        ensures
            final(self).decision_values.wf(),
            final(self).decision_values.dimension == old(self).decision_values.dimension,
            final(self).decision_values.data@ == old(self).decision_values.data@.update(
                crate::triangular::pair_index(old(self).decision_values.dimension as nat, i as nat, j as nat) as int,
                value,
            ),
            final(self).decision_values.at(i as int, j as int) == value,
            final(self).vote@ == old(self).vote@.update(
                if favours_i { i as int } else { j as int },
                (old(self).vote@[if favours_i { i as int } else { j as int }] + 1) as u32,
            ),
            final(self).features == old(self).features,
            final(self).kernel_values == old(self).kernel_values,
            final(self).pairwise == old(self).pairwise,
            final(self).probabilities == old(self).probabilities,
            final(self).label == old(self).label,
    {
        self.decision_values.set(i, j, value);
        let w = if favours_i { i } else { j };
        let v = self.vote[w];
        self.vote.set(w, v + 1);
    }
}

impl<V: Copy, C: Copy> CSVM<V, C> {
    /// Sets `problem.label` to the label of the class with the most votes;
    /// ties go to the lowest internal index.
    pub fn select_label_by_vote<D: Copy, E: Copy>(&self, problem: &mut Problem<D, E>)
        requires
            self.wf(),
            old(problem).vote@.len() == self.classes@.len(),
        ensures
            exists|r: int| is_first_max(old(problem).vote@, r)
                && final(problem).label == #[trigger] self.classes@[r].label,
            final(problem).vote == old(problem).vote,
            final(problem).features == old(problem).features,
            final(problem).kernel_values == old(problem).kernel_values,
            final(problem).decision_values == old(problem).decision_values,
            final(problem).pairwise == old(problem).pairwise,
            final(problem).probabilities == old(problem).probabilities,
    {
        let r = first_max_index(&problem.vote);
        problem.label = self.classes[r].label;
    }
}

/// A vector of `n` copies of `value`.
fn filled<T: Copy>(value: T, n: usize) -> (v: Vec<T>)
    ensures
        v@.len() == n,
        forall|k: int| 0 <= k < n ==> #[trigger] v@[k] == value,
{
    let mut v: Vec<T> = Vec::with_capacity(n);
    while v.len() < n
        invariant
            v@.len() <= n,
            forall|k: int| 0 <= k < v@.len() ==> #[trigger] v@[k] == value,
        decreases n - v@.len(),
    {
        v.push(value);
    }
    v
}

} // verus!
