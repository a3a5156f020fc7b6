//! Exact quotients of two unsigned integers.

use vstd::prelude::*;

verus! {

/// The quotient `numerador / denominador`, kept as its two terms so that no
/// rounding ever takes place. The terms are stored as given: a `Fracao` is
/// not reduced to lowest terms.
#[derive(Clone, Copy, PartialEq, Eq, Debug, Structural)]
pub struct Fracao {
    pub numerador: u128,
    pub denominador: u128,
}

} // verus!
