//! Hindley-Milner type inference: the term and type model, first-order
//! unification with an occurs check, and Algorithm W.

pub mod lang;
pub mod unify;
pub mod infer;
