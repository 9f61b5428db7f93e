//! The numbers a tensor holds.
//!
//! Every buffer, derivative and gradient is a sequence of values of one
//! scalar type.  The engine never looks inside a scalar: it only combines
//! scalars through the operations of [`Scalar`], and every contract in this
//! crate states results as terms over the specification side of those
//! operations, in the exact order in which the executable code applies them.
use vstd::prelude::*;

verus! {

/// A number type with the arithmetic that differentiation needs.
///
/// Each executable operation is paired with a specification function and
/// returns exactly what that function describes.  No algebraic law is
/// assumed: contracts elsewhere spell out the order of every operation, so
/// they hold for rounding arithmetic as well as for exact arithmetic.
pub trait Scalar: Sized + Copy {
    /// The additive identity; a fresh gradient slot is filled with it.
    spec fn spec_zero() -> Self;

    /// The multiplicative identity; the terminal's gradient is seeded with it.
    spec fn spec_one() -> Self;

    /// The scalar that stands for the count `n`.
    spec fn spec_from_count(n: usize) -> Self;

    spec fn spec_plus(self, rhs: Self) -> Self;

    spec fn spec_minus(self, rhs: Self) -> Self;

    spec fn spec_times(self, rhs: Self) -> Self;

    spec fn spec_over(self, rhs: Self) -> Self;

    /// The exponential function.
    spec fn spec_exp(self) -> Self;

    /// The square root.
    spec fn spec_sqrt(self) -> Self;

    /// The larger of two scalars.
    spec fn spec_max(self, rhs: Self) -> Self;

    /// The scalar between -1 and 1 that a random word stands for: equally
    /// likely words give equally spaced scalars.
    spec fn spec_uniform(word: u64) -> Self;

    fn zero() -> (r: Self)
        ensures
            r == Self::spec_zero(),
    ;

    fn one() -> (r: Self)
        ensures
            r == Self::spec_one(),
    ;

    fn from_count(n: usize) -> (r: Self)
        ensures
            r == Self::spec_from_count(n),
    ;

    fn plus(self, rhs: Self) -> (r: Self)
        ensures
            r == self.spec_plus(rhs),
    ;

    fn minus(self, rhs: Self) -> (r: Self)
        ensures
            r == self.spec_minus(rhs),
    ;

    fn times(self, rhs: Self) -> (r: Self)
        ensures
            r == self.spec_times(rhs),
    ;

    fn over(self, rhs: Self) -> (r: Self)
        ensures
            r == self.spec_over(rhs),
    ;

    fn exp(self) -> (r: Self)
        ensures
            r == self.spec_exp(),
    ;

    fn sqrt(self) -> (r: Self)
        ensures
            r == self.spec_sqrt(),
    ;

    fn max(self, rhs: Self) -> (r: Self)
        ensures
            r == self.spec_max(rhs),
    ;

    fn uniform(word: u64) -> (r: Self)
        ensures
            r == Self::spec_uniform(word),
    ;
}

} // verus!
