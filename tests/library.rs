use ffsvm::matrix::{SimdOptimized, LANES};
use ffsvm::model::{check_structure, matrix_fits, Attribute, Header, ModelFile, SVMType, SupportVector};
use ffsvm::problem::{first_max_index, Problem};
use ffsvm::svm::{kernel_from_name, svm_type_from_name, Kernel, SVMError, CSVM};
use ffsvm::triangular::Triangular;

fn sv(coefs: Vec<f64>, values: &[(u32, f32)]) -> SupportVector<f32, f64> {
    SupportVector {
        coefs,
        features: values.iter().map(|&(index, value)| Attribute { index, value }).collect(),
    }
}

fn header(kernel: &str, labels: Vec<u32>, nr_sv: Vec<u32>, rho: Vec<f64>) -> Header<f32, f64> {
    let total: u32 = nr_sv.iter().sum();
    Header {
        svm_type: "c_svc".to_string(),
        kernel_type: kernel.to_string(),
        gamma: 1.0,
        coef0: 0.0,
        degree: 2,
        nr_class: labels.len() as u32,
        total_sv: total,
        rho,
        label: labels,
        prob_a: None,
        prob_b: None,
        nr_sv,
    }
}

/// Linear kernel, labels {7, 3}, one support vector each at [1,0] and [0,1].
fn two_class_model(kernel: &str) -> ModelFile<f32, f64> {
    ModelFile {
        header: header(kernel, vec![7, 3], vec![1, 1], vec![0.0]),
        vectors: vec![sv(vec![1.0], &[(1, 1.0), (2, 0.0)]), sv(vec![-1.0], &[(1, 0.0), (2, 1.0)])],
    }
}

#[test]
fn test_iter() {
    let matrix = SimdOptimized::with_dimension(10, 5, 0);
    let mut it = matrix.iter();
    let mut seen = 0;
    while let Some(x) = it.next() {
        assert_eq!(x[0], 0);
        seen += 1;
    }
    assert_eq!(seen, 10);
}

#[test]
fn matrix_rows_are_padded_to_lanes() {
    let m = SimdOptimized::with_dimension(3, 5, 0u32);
    assert_eq!(m.vector_length, LANES);
    assert_eq!(m.data.len(), 3 * LANES);
    assert_eq!(m.offset(2, 1), 2 * LANES + 1);
    let wide = SimdOptimized::with_dimension(2, LANES + 1, 0u32);
    assert_eq!(wide.vector_length, 2 * LANES);
}

#[test]
fn set_vector_keeps_padding_zero() {
    let mut m = SimdOptimized::with_dimension(2, 3, 0i32);
    m.set_vector(1, &[4, 5, 6, 7, 8]);
    assert_eq!(&m.row(1)[.. 3], &[4, 5, 6]);
    for c in 3 .. m.vector_length {
        assert_eq!(m.get(1, c), 0);
        assert_eq!(m.get(0, c), 0);
    }
    assert_eq!(m.row(0)[0], 0);
    m.set(0, 2, 9);
    assert_eq!(m.get(0, 2), 9);
    assert_eq!(m.get(1, 2), 6);
}

#[test]
fn triangular_is_symmetric() {
    let mut t = Triangular::with_dimension(4, 0u32);
    assert_eq!(t.data.len(), 6);
    let mut v = 1;
    for i in 0 .. 4 {
        for j in (i + 1) .. 4 {
            t.set(i, j, v);
            v += 1;
        }
    }
    assert_eq!(t.data, vec![1, 2, 3, 4, 5, 6]);
    for i in 0 .. 4 {
        for j in 0 .. 4 {
            if i != j {
                assert_eq!(t.get(i, j), t.get(j, i));
            }
        }
    }
    assert_eq!(t.get(3, 2), 6);
    assert_eq!(t.offset(2, 1), 3);
}

#[test]
fn triangular_from_vec_checks_length() {
    assert!(Triangular::from_vec(3, vec![1, 2, 3]).is_some());
    assert!(Triangular::from_vec(3, vec![1, 2]).is_none());
    assert!(Triangular::from_vec(2, vec![5]).is_some());
}

#[test]
fn names_of_types_and_kernels() {
    assert_eq!(svm_type_from_name(&"c_svc".to_string()), Some(SVMType::CSvc));
    assert_eq!(svm_type_from_name(&"nu_svr".to_string()), Some(SVMType::NuSvr));
    assert_eq!(svm_type_from_name(&"other".to_string()), None);
    assert!(matches!(kernel_from_name(&"rbf".to_string(), 0.5f32, 1.0, 3), Some(Kernel::Rbf { gamma }) if gamma == 0.5));
    assert!(matches!(
        kernel_from_name(&"polynomial".to_string(), 1.0f32, 0.0, 2),
        Some(Kernel::Polynomial { degree: 2, .. })
    ));
    assert!(matches!(kernel_from_name(&"sigmoid".to_string(), 1.0f32, 0.5, 2), Some(Kernel::Sigmoid { coef0, .. }) if coef0 == 0.5));
    assert!(kernel_from_name(&"precomputed".to_string(), 1.0f32, 0.0, 2).is_none());
}

#[test]
fn assembles_two_class_model() {
    let svm = CSVM::try_from(two_class_model("linear")).ok().unwrap();
    assert_eq!(svm.attributes(), 2);
    assert_eq!(svm.classes(), 2);
    assert_eq!(svm.num_total_sv, 2);
    assert!(matches!(svm.kernel, Kernel::Linear));
    assert_eq!(svm.classes[0].label, 7);
    assert_eq!(svm.classes[1].label, 3);
    assert_eq!(svm.classes[0].support_vectors.get(0, 0), 1.0);
    assert_eq!(svm.classes[1].support_vectors.get(0, 1), 1.0);
    assert_eq!(svm.classes[0].coefficients.get(0, 0), 1.0);
    assert_eq!(svm.classes[1].coefficients.get(0, 0), -1.0);
    assert_eq!(svm.rho.get(0, 1), 0.0);
    assert!(svm.probabilities.is_none());
}

#[test]
fn coefficients_are_written_column_wise() {
    let mut h = header("rbf", vec![1, 2, 3], vec![2, 1, 1], vec![0.1, 0.2, 0.3]);
    h.prob_a = Some(vec![1.0, 2.0, 3.0]);
    h.prob_b = Some(vec![4.0, 5.0, 6.0]);
    let m = ModelFile {
        header: h,
        vectors: vec![
            sv(vec![0.5, 0.25], &[(1, 1.0)]),
            sv(vec![0.75, 0.125], &[(1, 2.0)]),
            sv(vec![-1.0, 3.0], &[(1, 3.0)]),
            sv(vec![-2.0, -3.0], &[(1, 4.0)]),
        ],
    };
    let svm = CSVM::try_from(m).ok().unwrap();
    assert_eq!(svm.classes[0].num_sv, 2);
    assert_eq!(svm.classes[0].coefficients.get(1, 0), 0.25);
    assert_eq!(svm.classes[0].coefficients.get(0, 1), 0.75);
    assert_eq!(svm.classes[0].support_vectors.get(1, 0), 2.0);
    assert_eq!(svm.classes[2].support_vectors.get(0, 0), 4.0);
    assert_eq!(svm.classes[2].coefficients.get(1, 0), -3.0);
    let total: usize = svm.classes.iter().map(|c| c.num_sv).sum();
    assert_eq!(total, svm.num_total_sv);
    assert_eq!(svm.rho.get(2, 1), 0.3);
    let p = svm.probabilities.as_ref().unwrap();
    assert_eq!(p.a.get(0, 2), 2.0);
    assert_eq!(p.b.get(1, 2), 6.0);
}

#[test]
fn reversed_attributes_are_rejected() {
    let mut m = two_class_model("linear");
    m.vectors[1] = sv(vec![-1.0], &[(2, 1.0), (1, 0.5)]);
    match CSVM::try_from(m) {
        Err(SVMError::AttributesUnordered { index, last_index, value }) => {
            assert_eq!(index, 2);
            assert_eq!(last_index, 0);
            assert_eq!(value, 1.0);
        }
        _ => panic!("expected AttributesUnordered"),
    }
    let mut m = two_class_model("linear");
    m.vectors[0] = sv(vec![1.0], &[(1, 1.0), (3, 0.5)]);
    match CSVM::try_from(m) {
        Err(SVMError::AttributesUnordered { index, last_index, value }) => {
            assert_eq!(index, 3);
            assert_eq!(last_index, 1);
            assert_eq!(value, 0.5);
        }
        _ => panic!("expected AttributesUnordered"),
    }
}

#[test]
fn unsupported_svm_type_is_rejected() {
    let mut m = two_class_model("linear");
    m.header.svm_type = "nu_svc".to_string();
    assert!(matches!(CSVM::try_from(m), Err(SVMError::UnsupportedSvmType)));
}

#[test]
fn unsupported_kernel_is_rejected() {
    match CSVM::try_from(two_class_model("precomputed")) {
        Err(SVMError::UnsupportedKernel { name }) => assert_eq!(name, "precomputed"),
        _ => panic!("expected UnsupportedKernel"),
    }
}

#[test]
fn inconsistent_models_are_rejected() {
    let mut m = two_class_model("linear");
    m.header.rho = vec![0.0, 1.0];
    assert!(!check_structure(&m));
    assert!(matches!(CSVM::try_from(m), Err(SVMError::ModelInconsistent)));

    let mut m = two_class_model("linear");
    m.header.total_sv = 3;
    assert!(matches!(CSVM::try_from(m), Err(SVMError::ModelInconsistent)));

    let mut m = two_class_model("linear");
    m.vectors[1] = sv(vec![-1.0], &[(1, 0.0)]);
    assert!(matches!(CSVM::try_from(m), Err(SVMError::ModelInconsistent)));

    let mut m = two_class_model("linear");
    m.vectors[0].coefs.push(2.0);
    assert!(matches!(CSVM::try_from(m), Err(SVMError::ModelInconsistent)));

    let mut m = two_class_model("linear");
    m.header.label = vec![3, 3];
    assert!(matches!(CSVM::try_from(m), Err(SVMError::ModelInconsistent)));

    let mut m = two_class_model("linear");
    m.header.prob_a = Some(vec![1.0, 2.0]);
    m.header.prob_b = Some(vec![1.0]);
    assert!(matches!(CSVM::try_from(m), Err(SVMError::ModelInconsistent)));

    let mut m = two_class_model("linear");
    m.header.prob_a = Some(vec![1.0]);
    let svm = CSVM::try_from(m).ok().unwrap();
    assert!(svm.probabilities.is_none());
}

#[test]
fn label_and_index_round_trip() {
    let svm = CSVM::try_from(two_class_model("linear")).ok().unwrap();
    assert_eq!(svm.class_index_for_label(7), Some(0));
    assert_eq!(svm.class_index_for_label(3), Some(1));
    assert_eq!(svm.class_index_for_label(5), None);
    assert_eq!(svm.class_label_for_index(0), Some(7));
    assert_eq!(svm.class_label_for_index(1), Some(3));
    assert_eq!(svm.class_label_for_index(2), None);
    for i in 0 .. 2 {
        assert_eq!(svm.class_index_for_label(svm.class_label_for_index(i).unwrap()), Some(i));
    }
}

#[test]
fn problem_is_sized_from_model() {
    let svm = CSVM::try_from(two_class_model("linear")).ok().unwrap();
    let p: Problem<f32, f64> = Problem::from(&svm);
    assert_eq!(p.features, vec![0.0, 0.0]);
    assert_eq!(p.vote, vec![0, 0]);
    assert_eq!(p.kernel_values.vectors, 2);
    assert_eq!(p.kernel_values.attributes, 2);
    assert_eq!(p.decision_values.data.len(), 1);
    assert_eq!(p.pairwise.attributes, 2);
    assert_eq!(p.probabilities.len(), 2);
    assert_eq!(p.label, 0);
    assert!(p.kernel_values.data.iter().all(|&x| x == 0.0));
}

#[test]
fn positive_decision_votes_first_class() {
    let svm = CSVM::try_from(two_class_model("linear")).ok().unwrap();
    let mut p: Problem<f32, f64> = Problem::from(&svm);
    p.reset_votes();
    p.record_decision(0, 1, 1.0, true);
    svm.select_label_by_vote(&mut p);
    assert_eq!(p.decision_values.get(1, 0), 1.0);
    assert_eq!(p.label, 7);
}

#[test]
fn negative_decision_votes_second_class() {
    let svm = CSVM::try_from(two_class_model("linear")).ok().unwrap();
    let mut p: Problem<f32, f64> = Problem::from(&svm);
    p.record_decision(0, 1, -1.0, false);
    svm.select_label_by_vote(&mut p);
    assert_eq!(p.vote, vec![0, 1]);
    assert_eq!(p.label, 3);
}

#[test]
fn reused_problem_gives_same_label() {
    let svm = CSVM::try_from(two_class_model("linear")).ok().unwrap();
    let mut p: Problem<f32, f64> = Problem::from(&svm);
    let mut labels = Vec::new();
    for _ in 0 .. 2 {
        p.reset_votes();
        p.record_decision(0, 1, -1.0, false);
        svm.select_label_by_vote(&mut p);
        labels.push(p.label);
    }
    assert_eq!(labels, vec![3, 3]);
}

#[test]
fn vote_ties_go_to_lowest_index() {
    assert_eq!(first_max_index(&vec![1, 1, 1]), 0);
    assert_eq!(first_max_index(&vec![0, 2, 2]), 1);
    assert_eq!(first_max_index(&vec![5]), 0);
    assert_eq!(first_max_index(&vec![1, 0, 3]), 2);
}

#[test]
fn matrix_size_limits() {
    assert!(matrix_fits(4, 4));
    assert!(!matrix_fits(2, usize::MAX - 1));
    assert!(!matrix_fits(usize::MAX, 9));
}

#[test]
fn two_classes_make_one_pair() {
    let t = Triangular::with_dimension(2, 0.0f64);
    assert_eq!(t.data.len(), 1);
    assert_eq!(t.offset(1, 0), 0);
    let svm = CSVM::try_from(two_class_model("linear")).ok().unwrap();
    let p: Problem<f32, f64> = Problem::from(&svm);
    assert_eq!(p.decision_values.data.len(), 1);
}

#[test]
fn row_cursor_stops_after_last_row() {
    let m = SimdOptimized::with_dimension(2, 3, 1u8);
    let mut it = m.iter();
    assert_eq!(it.next().map(|r| r.len()), Some(LANES));
    assert!(it.next().is_some());
    assert!(it.next().is_none());
    assert!(it.next().is_none());
    assert_eq!(it.index, 2);
}
