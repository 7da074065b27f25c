//! The classifier model: kernel, classes and per-pair tables, assembled from a
//! parsed model file.
use vstd::prelude::*;
use crate::matrix::SimdOptimized;
use crate::model::{
    attribute_in_place, attributes_ok, check_structure, class_start, first_misplaced, fits_matrix,
    spec_num_attributes, structure_ok, ModelFile, SVMType,
};
use crate::triangular::Triangular;

verus! {

/// Kernel function with its parameters.
#[derive(Clone, Copy, Debug)]
pub enum Kernel<V> {
    Linear,
    Polynomial { gamma: V, coef0: V, degree: u32 },
    Rbf { gamma: V },
    Sigmoid { gamma: V, coef0: V },
}

/// Sigmoid calibration parameters, one pair per class pair.
#[derive(Clone, Debug)]
pub struct Probabilities<C: Copy> {
    pub a: Triangular<C>,
    pub b: Triangular<C>,
}

/// One class of the model.
#[derive(Clone, Debug)]
pub struct Class<V: Copy, C: Copy> {
    /// Label as emitted by training.
    pub label: u32,
    /// Number of support vectors.
    pub num_sv: usize,
    /// One row per support vector.
    pub support_vectors: SimdOptimized<V>,
    /// Row `k` holds the coefficients for the `k`-th opposing class, one per support vector.
    pub coefficients: SimdOptimized<C>,
}

/// Errors of model assembly and prediction.
#[derive(Clone, Debug)]
pub enum SVMError<V> {
    /// Attribute indices of a support vector are not `1, 2, 3, ...`: `index`
    /// and `value` are those of the first attribute out of place, `last_index`
    /// the index before it (0 where it is the first attribute).
    AttributesUnordered { index: u32, last_index: u32, value: V },
    /// The kernel type is none of linear, polynomial, rbf, sigmoid.
    UnsupportedKernel { name: String },
    /// The classifier type is not c_svc.
    UnsupportedSvmType,
    /// Counts, list lengths or shapes of the model do not agree.
    ModelInconsistent,
    /// Probability coupling did not converge.
    IterationsExceeded,
    /// The model file could not be parsed.
    ParserError,
}

/// Support vector machine for classification (c_svc).
#[derive(Clone, Debug)]
pub struct CSVM<V: Copy, C: Copy> {
    /// Total number of support vectors.
    pub num_total_sv: usize,
    /// Number of attributes per support vector.
    pub num_attributes: usize,
    /// Bias of each class pair.
    pub rho: Triangular<C>,
    /// Calibration parameters, where the model was trained with probabilities.
    pub probabilities: Option<Probabilities<C>>,
    pub kernel: Kernel<V>,
    /// All classes; the position is the internal class index.
    pub classes: Vec<Class<V, C>>,
}

/// Classifier type named by `name`.
pub open spec fn svm_type_of(name: Seq<char>) -> Option<SVMType> {
    if name == "c_svc"@ {
        Some(SVMType::CSvc)
    } else if name == "nu_svc"@ {
        Some(SVMType::NuSvc)
    } else if name == "epsilon_svr"@ {
        Some(SVMType::ESvr)
    } else if name == "nu_svr"@ {
        Some(SVMType::NuSvr)
    } else {
        None
    }
}

/// Kernel named by `name`, with the parameters it takes.
pub open spec fn kernel_of<V>(name: Seq<char>, gamma: V, coef0: V, degree: u32) -> Option<Kernel<V>> {
    if name == "linear"@ {
        Some(Kernel::Linear)
    } else if name == "polynomial"@ {
        Some(Kernel::Polynomial { gamma, coef0, degree })
    } else if name == "rbf"@ {
        Some(Kernel::Rbf { gamma })
    } else if name == "sigmoid"@ {
        Some(Kernel::Sigmoid { gamma, coef0 })
    } else {
        None
    }
}

/// Classifier type named in `name`, if it is one.
pub fn svm_type_from_name(name: &String) -> (r: Option<SVMType>)
    ensures
        r == svm_type_of(name@),
{
    if *name == "c_svc".to_owned() {
        Some(SVMType::CSvc)
    } else if *name == "nu_svc".to_owned() {
        Some(SVMType::NuSvc)
    } else if *name == "epsilon_svr".to_owned() {
        Some(SVMType::ESvr)
    } else if *name == "nu_svr".to_owned() {
        Some(SVMType::NuSvr)
    } else {
        None
    }
}

/// Kernel named in `name`, taking from `gamma`, `coef0` and `degree` what it needs.
pub fn kernel_from_name<V: Copy>(name: &String, gamma: V, coef0: V, degree: u32) -> (r: Option<Kernel<V>>)
    ensures
        r == kernel_of(name@, gamma, coef0, degree),
{
    if *name == "linear".to_owned() {
        Some(Kernel::Linear)
    } else if *name == "polynomial".to_owned() {
        Some(Kernel::Polynomial { gamma, coef0, degree })
    } else if *name == "rbf".to_owned() {
        Some(Kernel::Rbf { gamma })
    } else if *name == "sigmoid".to_owned() {
        Some(Kernel::Sigmoid { gamma, coef0 })
    } else {
        None
    }
}

/// Class record `c` is class `i` of model file `m`: its label, its count, its
/// support vectors as rows and its coefficients as columns.
pub open spec fn class_matches<V: Copy, C: Copy>(m: ModelFile<V, C>, i: int, c: Class<V, C>) -> bool {
    let h = m.header;
    let n = h.nr_class as int;
    let na = spec_num_attributes(m);
    let start = class_start(h.nr_sv@, i);
    &&& c.label == h.label@[i]
    &&& c.num_sv == h.nr_sv@[i]
    &&& c.support_vectors.wf()
    &&& c.support_vectors.vectors == c.num_sv
    &&& c.support_vectors.attributes == na
    &&& c.coefficients.wf()
    &&& c.coefficients.vectors == n - 1
    &&& c.coefficients.attributes == c.num_sv
    &&& forall|r: int, k: int| 0 <= r < c.num_sv && 0 <= k < na ==>
        #[trigger] c.support_vectors.at(r, k) == m.vectors@[start + r].features@[k].value
    &&& forall|k: int, r: int| 0 <= k < n - 1 && 0 <= r < c.num_sv ==>
        #[trigger] c.coefficients.at(k, r) == m.vectors@[start + r].coefs@[k]
}

/// `svm` holds what model file `m` describes.
pub open spec fn assembled<V: Copy, C: Copy>(m: ModelFile<V, C>, svm: CSVM<V, C>) -> bool {
    let h = m.header;
    let n = h.nr_class as int;
    &&& svm.wf()
    &&& svm.num_attributes == spec_num_attributes(m)
    &&& svm.num_total_sv == h.total_sv
    &&& svm.classes@.len() == n
    &&& forall|i: int| 0 <= i < n ==> class_matches(m, i, #[trigger] svm.classes@[i])
    &&& svm.rho.data@ == h.rho@
    &&& Some(svm.kernel) == kernel_of(h.kernel_type@, h.gamma, h.coef0, h.degree)
    &&& match (h.prob_a, h.prob_b) {
        (Some(a), Some(b)) => svm.probabilities.is_some()
            && svm.probabilities.unwrap().a.data@ == a@
            && svm.probabilities.unwrap().b.data@ == b@,
        _ => svm.probabilities.is_none(),
    }
}

/// Is `r` the error for the first out-of-place attribute of `m`?
pub open spec fn is_first_unordered<V, C>(m: ModelFile<V, C>, r: SVMError<V>) -> bool {
    match r {
        SVMError::AttributesUnordered { index, last_index, value } => exists|s: int, k: int| {
            &&& #[trigger] first_misplaced(m, s, k)
            &&& index == m.vectors@[s].features@[k].index
            &&& last_index == k
            &&& value == m.vectors@[s].features@[k].value
        },
        _ => false,
    }
}

proof fn lemma_class_start_step(nr_sv: Seq<u32>, i: int, n: int)
    requires
        0 <= i < n <= nr_sv.len(),
    ensures
        class_start(nr_sv, i + 1) == class_start(nr_sv, i) + nr_sv[i],
        0 <= class_start(nr_sv, i),
        class_start(nr_sv, i + 1) <= class_start(nr_sv, n),
    decreases n - i,
{
    lemma_class_start_nonneg(nr_sv, i);
    if i + 1 < n {
        lemma_class_start_step(nr_sv, i + 1, n);
    }
}

proof fn lemma_class_start_nonneg(nr_sv: Seq<u32>, i: int)
    ensures
        0 <= class_start(nr_sv, i),
    decreases i,
{
    if i > 0 {
        lemma_class_start_nonneg(nr_sv, i - 1);
    }
}

impl<V: Copy, C: Copy> CSVM<V, C> {
    /// Shape invariant: at least two classes, every class with its support
    /// vectors and one coefficient row per opposing class, and one bias per pair.
    pub open spec fn wf(&self) -> bool {
        let n = self.classes@.len();
        &&& n >= 2
        &&& self.rho.wf()
        &&& self.rho.dimension == n
        &&& self.labels_unique()
        &&& fits_matrix(n as int, self.num_total_sv as int)
        &&& fits_matrix(n as int, n as int)
        &&& self.probabilities is Some ==> {
            &&& self.probabilities.unwrap().a.wf()
            &&& self.probabilities.unwrap().a.dimension == n
            &&& self.probabilities.unwrap().b.wf()
            &&& self.probabilities.unwrap().b.dimension == n
        }
        &&& forall|i: int| 0 <= i < n ==> {
            &&& (#[trigger] self.classes@[i]).num_sv >= 1
            &&& self.classes@[i].support_vectors.wf()
            &&& self.classes@[i].support_vectors.vectors == self.classes@[i].num_sv
            &&& self.classes@[i].support_vectors.attributes == self.num_attributes
            &&& self.classes@[i].coefficients.wf()
            &&& self.classes@[i].coefficients.vectors == n - 1
            &&& self.classes@[i].coefficients.attributes == self.classes@[i].num_sv
        }
    }


    /// No two classes share a label.
    pub open spec fn labels_unique(&self) -> bool {
        forall|i: int, j: int| 0 <= i < j < self.classes@.len()
            ==> #[trigger] self.classes@[i].label != #[trigger] self.classes@[j].label
    }

    /// Class `i` carries `label` and no class before it does.
    pub open spec fn is_first_with_label(&self, i: int, label: u32) -> bool {
        &&& 0 <= i < self.classes@.len()
        &&& self.classes@[i].label == label
        &&& forall|k: int| 0 <= k < i ==> #[trigger] self.classes@[k].label != label
    }

    /// Internal index of the first class labelled `label`, if there is one.
    pub open spec fn spec_index_for_label(&self, label: u32) -> Option<usize> {
        if exists|i: int| #[trigger] self.is_first_with_label(i, label) {
            Some((choose|i: int| #[trigger] self.is_first_with_label(i, label)) as usize)
        } else {
            None
        }
    }

    /// Label of the class at internal index `index`, if there is one.
    pub open spec fn spec_label_for_index(&self, index: usize) -> Option<u32> {
        if index < self.classes@.len() {
            Some(self.classes@[index as int].label)
        } else {
            None
        }
    }

    /// Finds the internal index of the class labelled `label`: the first
    /// class with that label, or `None` where no class has it.
    pub fn class_index_for_label(&self, label: u32) -> (r: Option<usize>)
        ensures
            r == self.spec_index_for_label(label),
    {
        let mut i: usize = 0;
        while i < self.classes.len()
            invariant
                i <= self.classes@.len(),
                forall|k: int| 0 <= k < i ==> #[trigger] self.classes@[k].label != label,
            decreases self.classes@.len() - i,
        {
            if self.classes[i].label == label {
                proof {
                    assert(self.is_first_with_label(i as int, label));
                    let j = choose|j: int| #[trigger] self.is_first_with_label(j, label);
                    if j < i {
                        assert(self.classes@[j].label != label);
                    } else if j > i {
                        assert(self.classes@[i as int].label != label);
                    }
                }
                return Some(i);
            }
            i = i + 1;
        }
        proof {
            if exists|j: int| #[trigger] self.is_first_with_label(j, label) {
                let j = choose|j: int| #[trigger] self.is_first_with_label(j, label);
                assert(self.classes@[j].label == label);
            }
        }
        None
    }

    /// Label of the class at internal index `index`, or `None` past the last class.
    pub fn class_label_for_index(&self, index: usize) -> (r: Option<u32>)
        ensures
            r == self.spec_label_for_index(index),
    {
        if index >= self.classes.len() {
            None
        } else {
            Some(self.classes[index].label)
        }
    }

    /// Number of attributes of each support vector.
    pub fn attributes(&self) -> (r: usize)
        ensures
            r == self.num_attributes,
    {
        self.num_attributes
    }

    /// Number of classes.
    pub fn classes(&self) -> (r: usize)
        ensures
            r == self.classes@.len(),
    {
        self.classes.len()
    }
}

impl<V: Copy + Default, C: Copy + Default> CSVM<V, C> {
    /// Checks that the attributes of support vector `s` are indexed `1, 2, 3, ...`
    /// and returns their values in order.
    fn vector_values(m: &ModelFile<V, C>, s: usize) -> (r: Result<Vec<V>, SVMError<V>>)
        requires
            structure_ok(*m),
            s < m.vectors@.len(),
            forall|s2: int, k2: int|
                0 <= s2 < s && 0 <= k2 < m.vectors@[s2].features@.len()
                    ==> #[trigger] attribute_in_place(*m, s2, k2),
        ensures
            r is Ok <==> forall|k: int| 0 <= k < m.vectors@[s as int].features@.len()
                ==> #[trigger] attribute_in_place(*m, s as int, k),
            r is Ok ==> {
                &&& r->Ok_0@.len() == spec_num_attributes(*m)
                &&& forall|k: int| 0 <= k < r->Ok_0@.len()
                    ==> #[trigger] r->Ok_0@[k] == m.vectors@[s as int].features@[k].value
            },
            r is Err ==> is_first_unordered(*m, r->Err_0),
    {
        let features = &m.vectors[s].features;
        let mut values: Vec<V> = Vec::new();
        let mut k: usize = 0;
        while k < features.len()
            invariant
                structure_ok(*m),
                s < m.vectors@.len(),
                features == &m.vectors@[s as int].features,
                k <= features@.len(),
                values@.len() == k,
                forall|k2: int| 0 <= k2 < k ==> #[trigger] attribute_in_place(*m, s as int, k2),
                forall|k2: int| 0 <= k2 < k ==> #[trigger] values@[k2] == features@[k2].value,
                forall|s2: int, k2: int|
                    0 <= s2 < s && 0 <= k2 < m.vectors@[s2].features@.len()
                        ==> #[trigger] attribute_in_place(*m, s2, k2),
            decreases features@.len() - k,
        {
            let a = features[k];
            if a.index != k as u32 + 1 {
                let e = SVMError::AttributesUnordered { index: a.index, last_index: k as u32, value: a.value };
                assert(first_misplaced(*m, s as int, k as int));
                return Err(e);
            }
            values.push(a.value);
            k = k + 1;
        }
        Ok(values)
    }

    /// Builds class `i`, whose support vectors start at `start` in the file.
    fn build_class(m: &ModelFile<V, C>, i: usize, start: usize) -> (r: Result<Class<V, C>, SVMError<V>>)
        requires
            structure_ok(*m),
            i < m.header.nr_class,
            start == class_start(m.header.nr_sv@, i as int),
            forall|s2: int, k2: int|
                0 <= s2 < start && 0 <= k2 < m.vectors@[s2].features@.len()
                    ==> #[trigger] attribute_in_place(*m, s2, k2),
        ensures
            r is Ok <==> forall|s2: int, k2: int|
                start <= s2 < class_start(m.header.nr_sv@, i + 1) && 0 <= k2 < m.vectors@[s2].features@.len()
                    ==> #[trigger] attribute_in_place(*m, s2, k2),
            r is Ok ==> class_matches(*m, i as int, r->Ok_0),
            r is Err ==> is_first_unordered(*m, r->Err_0),
    {
        let h = &m.header;
        let n = h.nr_class as usize;
        let num_sv = h.nr_sv[i] as usize;
        let na = m.vectors[0].features.len();
        proof {
            lemma_class_start_step(h.nr_sv@, i as int, n as int);
        }
        let mut support_vectors = SimdOptimized::with_dimension(num_sv, na, V::default());
        let mut coefficients = SimdOptimized::with_dimension(n - 1, num_sv, C::default());
        let mut r: usize = 0;
        while r < num_sv
            invariant
                structure_ok(*m),
                h == &m.header,
                n == h.nr_class,
                i < n,
                num_sv == h.nr_sv@[i as int],
                na == spec_num_attributes(*m),
                start == class_start(h.nr_sv@, i as int),
                start + num_sv <= m.vectors@.len(),
                r <= num_sv,
                support_vectors.wf(),
                support_vectors.vectors == num_sv,
                support_vectors.attributes == na,
                coefficients.wf(),
                coefficients.vectors == n - 1,
                coefficients.attributes == num_sv,
                forall|s2: int, k2: int|
                    0 <= s2 < start + r && 0 <= k2 < m.vectors@[s2].features@.len()
                        ==> #[trigger] attribute_in_place(*m, s2, k2),
                forall|r2: int, k: int| 0 <= r2 < r && 0 <= k < na ==>
                    #[trigger] support_vectors.at(r2, k) == m.vectors@[start + r2].features@[k].value,
                forall|k: int, r2: int| 0 <= k < n - 1 && 0 <= r2 < r ==>
                    #[trigger] coefficients.at(k, r2) == m.vectors@[start + r2].coefs@[k],
            decreases num_sv - r,
        {
            let s = start + r;
            let values = match Self::vector_values(m, s) {
                Ok(v) => v,
                Err(e) => return Err(e),
            };
            support_vectors.set_vector(r, values.as_slice());
            let coefs = &m.vectors[s].coefs;
            let mut k: usize = 0;
            while k < n - 1
                invariant
                    structure_ok(*m),
                    n == m.header.nr_class,
                    num_sv == m.header.nr_sv@[i as int],
                    s == start + r,
                    s < m.vectors@.len(),
                    r < num_sv,
                    coefs == &m.vectors@[s as int].coefs,
                    coefs@.len() == n - 1,
                    k <= n - 1,
                    coefficients.wf(),
                    coefficients.vectors == n - 1,
                    coefficients.attributes == num_sv,
                    coefficients.vector_length >= num_sv,
                    forall|k2: int, r2: int| 0 <= k2 < n - 1 && 0 <= r2 < r ==>
                        #[trigger] coefficients.at(k2, r2) == m.vectors@[start + r2].coefs@[k2],
                    forall|k2: int| 0 <= k2 < k ==>
                        #[trigger] coefficients.at(k2, r as int) == m.vectors@[start + r].coefs@[k2],
                decreases n - 1 - k,
            {
                coefficients.set(k, r, coefs[k]);
                k = k + 1;
            }
            r = r + 1;
        }
        Ok(Class { label: h.label[i], num_sv, support_vectors, coefficients })
    }

    /// Builds every class of `m`, in declaration order.
    fn build_classes(m: &ModelFile<V, C>) -> (r: Result<Vec<Class<V, C>>, SVMError<V>>)
        requires
            structure_ok(*m),
        ensures
            r is Ok <==> attributes_ok(*m),
            r is Ok ==> {
                &&& r->Ok_0@.len() == m.header.nr_class
                &&& forall|i: int| 0 <= i < m.header.nr_class ==> class_matches(*m, i, #[trigger] r->Ok_0@[i])
            },
            r is Err ==> is_first_unordered(*m, r->Err_0),
    {
        let n = m.header.nr_class as usize;
        let mut classes: Vec<Class<V, C>> = Vec::new();
        let mut start: usize = 0;
        let mut i: usize = 0;
        while i < n
            invariant
                structure_ok(*m),
                n == m.header.nr_class,
                i <= n,
                start == class_start(m.header.nr_sv@, i as int),
                classes@.len() == i,
                forall|i2: int| 0 <= i2 < i ==> class_matches(*m, i2, #[trigger] classes@[i2]),
                forall|s2: int, k2: int|
                    0 <= s2 < start && 0 <= k2 < m.vectors@[s2].features@.len()
                        ==> #[trigger] attribute_in_place(*m, s2, k2),
            decreases n - i,
        {
            proof {
                lemma_class_start_step(m.header.nr_sv@, i as int, n as int);
            }
            let c = match Self::build_class(m, i, start) {
                Ok(c) => c,
                Err(e) => {
                    proof {
                        let s2 = choose|s2: int, k2: int|
                            start <= s2 < class_start(m.header.nr_sv@, i + 1)
                                && 0 <= k2 < m.vectors@[s2].features@.len()
                                && !#[trigger] attribute_in_place(*m, s2, k2);
                        assert(!attributes_ok(*m));
                    }
                    return Err(e);
                },
            };
            start = start + m.header.nr_sv[i] as usize;
            classes.push(c);
            i = i + 1;
        }
        Ok(classes)
    }

    /// Builds the classifier that model file `model` describes. Fails with
    /// `UnsupportedSvmType` unless the type is c_svc, then with
    /// `UnsupportedKernel` for an unknown kernel, then with `ModelInconsistent`
    /// where the structure does not hold together, then with
    /// `AttributesUnordered` for the first support vector attribute whose index
    /// is not its position (counting from 1).
    pub fn try_from(model: ModelFile<V, C>) -> (r: Result<CSVM<V, C>, SVMError<V>>)
        ensures
            svm_type_of(model.header.svm_type@) != Some(SVMType::CSvc) ==>
                r matches Err(SVMError::UnsupportedSvmType),
            svm_type_of(model.header.svm_type@) == Some(SVMType::CSvc)
                && kernel_of(model.header.kernel_type@, model.header.gamma, model.header.coef0,
                    model.header.degree) is None ==>
                (r matches Err(SVMError::UnsupportedKernel { name }) && name@ == model.header.kernel_type@),
            svm_type_of(model.header.svm_type@) == Some(SVMType::CSvc)
                && kernel_of(model.header.kernel_type@, model.header.gamma, model.header.coef0,
                    model.header.degree) is Some
                && !structure_ok(model) ==> r matches Err(SVMError::ModelInconsistent),
            svm_type_of(model.header.svm_type@) == Some(SVMType::CSvc)
                && kernel_of(model.header.kernel_type@, model.header.gamma, model.header.coef0,
                    model.header.degree) is Some
                && structure_ok(model) && !attributes_ok(model) ==>
                (r is Err && is_first_unordered(model, r->Err_0)),
            svm_type_of(model.header.svm_type@) == Some(SVMType::CSvc)
                && kernel_of(model.header.kernel_type@, model.header.gamma, model.header.coef0,
                    model.header.degree) is Some
                && structure_ok(model) && attributes_ok(model) ==>
                (r is Ok && assembled(model, r->Ok_0)),
    {
        match svm_type_from_name(&model.header.svm_type) {
            Some(SVMType::CSvc) => {},
            _ => return Err(SVMError::UnsupportedSvmType),
        }
        let h = &model.header;
        let kernel = match kernel_from_name(&h.kernel_type, h.gamma, h.coef0, h.degree) {
            Some(k) => k,
            None => return Err(SVMError::UnsupportedKernel { name: h.kernel_type.clone() }),
        };
        if !check_structure(&model) {
            return Err(SVMError::ModelInconsistent);
        }
        let classes = match Self::build_classes(&model) {
            Ok(c) => c,
            Err(e) => return Err(e),
        };
        let na = model.vectors[0].features.len();
        let ModelFile { header, vectors: _ } = model;
        let n = header.nr_class as usize;
        let rho = match Triangular::from_vec(n, header.rho) {
            Some(t) => t,
            None => return Err(SVMError::ModelInconsistent),
        };
        let probabilities = match (header.prob_a, header.prob_b) {
            (Some(a), Some(b)) => {
                let ta = Triangular::from_vec(n, a);
                let tb = Triangular::from_vec(n, b);
                match (ta, tb) {
                    (Some(ta), Some(tb)) => Some(Probabilities { a: ta, b: tb }),
                    _ => return Err(SVMError::ModelInconsistent),
                }
            },
            _ => None,
        };
        Ok(CSVM {
            num_total_sv: header.total_sv as usize,
            num_attributes: na,
            rho,
            probabilities,
            kernel,
            classes,
        })
    }
}

/// Label and index translate back and forth: the class at a valid index is
/// found again under its label, and a declared label is found again from the
/// index it is found under.
pub proof fn lemma_label_index_round_trip<V: Copy, C: Copy>(svm: CSVM<V, C>, i: usize, label: u32)
    requires
        svm.wf(),
    ensures
        i < svm.classes@.len() ==> svm.spec_index_for_label(svm.spec_label_for_index(i).unwrap()) == Some(i),
        (exists|k: int| 0 <= k < svm.classes@.len() && #[trigger] svm.classes@[k].label == label) ==> {
            &&& svm.spec_index_for_label(label) is Some
            &&& svm.spec_label_for_index(svm.spec_index_for_label(label).unwrap()) == Some(label)
        },
{
    if i < svm.classes@.len() {
        let l = svm.classes@[i as int].label;
        assert forall|k: int| 0 <= k < i implies #[trigger] svm.classes@[k].label != l by {
            assert(svm.classes@[k].label != svm.classes@[i as int].label);
        }
        assert(svm.is_first_with_label(i as int, l));
        let j = choose|j: int| #[trigger] svm.is_first_with_label(j, l);
        if j > i {
            assert(svm.classes@[i as int].label != l);
        }
    }
    if exists|k: int| 0 <= k < svm.classes@.len() && #[trigger] svm.classes@[k].label == label {
        let k = choose|k: int| 0 <= k < svm.classes@.len() && #[trigger] svm.classes@[k].label == label;
        assert forall|k2: int| 0 <= k2 < k implies #[trigger] svm.classes@[k2].label != label by {
            assert(svm.classes@[k2].label != svm.classes@[k].label);
        }
        assert(svm.is_first_with_label(k, label));
    }
}

/// Support vectors of the classes `0 .. k`, counted.
pub open spec fn sum_num_sv<V: Copy, C: Copy>(classes: Seq<Class<V, C>>, k: int) -> int
    decreases k,
{
    if k <= 0 {
        0
    } else {
        sum_num_sv(classes, k - 1) + classes[k - 1].num_sv
    }
}

/// A classifier assembled from a model file counts, over its classes, exactly
/// `num_total_sv` support vectors, and every class has one coefficient row per
/// opposing class and one coefficient column per support vector.
pub proof fn lemma_accepted_model_counts<V: Copy, C: Copy>(m: ModelFile<V, C>, svm: CSVM<V, C>)
    requires
        structure_ok(m),
        assembled(m, svm),
    ensures
        sum_num_sv(svm.classes@, svm.classes@.len() as int) == svm.num_total_sv,
        forall|i: int| 0 <= i < svm.classes@.len() ==> {
            &&& (#[trigger] svm.classes@[i]).coefficients.vectors == svm.classes@.len() - 1
            &&& svm.classes@[i].coefficients.attributes == svm.classes@[i].num_sv
        },
{
    lemma_counts_prefix(m, svm, svm.classes@.len() as int);
}

proof fn lemma_counts_prefix<V: Copy, C: Copy>(m: ModelFile<V, C>, svm: CSVM<V, C>, k: int)
    requires
        structure_ok(m),
        assembled(m, svm),
        0 <= k <= svm.classes@.len(),
    ensures
        sum_num_sv(svm.classes@, k) == class_start(m.header.nr_sv@, k),
    decreases k,
{
    if k > 0 {
        lemma_counts_prefix(m, svm, k - 1);
        assert(class_matches(m, k - 1, svm.classes@[k - 1]));
    }
}

} // verus!
