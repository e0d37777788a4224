//! The arithmetic that the engine asks of its numbers.
use vstd::prelude::*;

verus! {

/// A number type the engine can compute with.
///
/// Each operation comes as a pair: a specification function that names the
/// value, and an executable method that returns exactly that value. The
/// engine's contracts are written over the specification functions, so they
/// hold for any implementation whose methods are deterministic. An
/// implementation that is not itself verified, such as one on machine
/// floats, gives both functions of a pair the same body.
///
/// No algebraic law is asked for: sums and products are always specified in
/// the order in which they are evaluated.
pub trait Scalar: Copy {
    /// The additive starting value of every accumulation.
    spec fn zero_spec() -> Self;

    /// The slope of the identity; the neutral step scale.
    spec fn one_spec() -> Self;

    /// `self + rhs`.
    spec fn add_spec(self, rhs: Self) -> Self;

    /// `self - rhs`.
    spec fn sub_spec(self, rhs: Self) -> Self;

    /// `self * rhs`.
    spec fn mul_spec(self, rhs: Self) -> Self;

    /// Whether `self` is strictly greater than zero.
    spec fn is_positive_spec(self) -> bool;

    /// `1 / count`, the weight of one sample in a mean over `count` samples.
    spec fn reciprocal_spec(count: usize) -> Self;

    /// The value in `[0, 1)` that a uniformly drawn 32-bit word stands for.
    spec fn unit_spec(word: u32) -> Self;

    /// Whether `0 <= self < 1`.
    spec fn in_unit_interval(self) -> bool;

    fn zero() -> (r: Self)
        ensures
            r == Self::zero_spec(),
    ;

    fn one() -> (r: Self)
        ensures
            r == Self::one_spec(),
    ;

    fn add(self, rhs: Self) -> (r: Self)
        ensures
            r == self.add_spec(rhs),
    ;

    fn sub(self, rhs: Self) -> (r: Self)
        ensures
            r == self.sub_spec(rhs),
    ;

    fn mul(self, rhs: Self) -> (r: Self)
        ensures
            r == self.mul_spec(rhs),
    ;

    fn is_positive(self) -> (b: bool)
        ensures
            b == self.is_positive_spec(),
    ;

    fn reciprocal(count: usize) -> (r: Self)
        requires
            count > 0,
        ensures
            r == Self::reciprocal_spec(count),
    ;

    fn unit(word: u32) -> (r: Self)
        ensures
            r == Self::unit_spec(word),
            r.in_unit_interval(),
    ;
}

/// Sums can be regrouped: `(a + b) + c == a + (b + c)`.
///
/// This holds of exact and of modular arithmetic, and fails for rounding
/// arithmetic such as floating point.
pub open spec fn add_is_associative<S: Scalar>() -> bool {
    forall|a: S, b: S, c: S| #[trigger] a.add_spec(b).add_spec(c) == a.add_spec(b.add_spec(c))
}

/// Adding to zero changes nothing: `0 + a == a`.
pub open spec fn zero_is_left_identity<S: Scalar>() -> bool {
    forall|a: S| #[trigger] S::zero_spec().add_spec(a) == a
}

} // verus!
