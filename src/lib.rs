//! Inference for support vector machine classifiers trained by libSVM:
//! model storage, model assembly with its structural checks, the problem
//! buffer and one-vs-one voting.

pub mod matrix;
pub mod model;
pub mod problem;
pub mod sparse;
pub mod svm;
pub mod triangular;
