//! Geometric predicates made robust by Simulation of Simplicity.
//!
//! Every coordinate of every point is thought of as perturbed by a distinct
//! infinitesimal power of ε, so that no predicate is ever degenerate. The sign
//! of a perturbed determinant is decided by a fixed cascade of sign tests on
//! smaller, unperturbed determinants. The sign tests themselves are left to an
//! exact oracle supplied by the caller.
//!
//! * [`parity`]: canonical order of an index tuple and the parity of the
//!   permutation that sorts it.
//! * [`sign_test`]: the sign tests that a cascade asks of the oracle.
//! * [`tables`]: the decision table of each predicate.
//! * [`cascade`]: the evaluator and the predicates.
//! * [`laws`]: how the predicates change when their indices are reordered.
//! * [`symbolic`]: determinants, terms and ε-factors, the determinants known
//!   to vanish and the elimination of cases that can never be reached.
//! * [`expansion`]: the ε-expansion of the in-hypersphere determinant.
//! * [`grouping`]: its terms grouped by ε-factor.
pub mod cascade;
pub mod expansion;
pub mod grouping;
pub mod laws;
pub mod parity;
pub mod symbolic;
pub mod tables;
