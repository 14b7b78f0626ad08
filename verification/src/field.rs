//! The capability contract of the values that fill a matrix.
use vstd::prelude::*;

verus! {

/// A value that the matrix engine and the network evaluators can compute with.
///
/// Every operation is named by a spec function, and the executable method
/// promises to return exactly what that spec function says. An implementation
/// therefore promises that each operation is a function of its operands alone:
/// the same operands give the same result, with no hidden state. Nothing more
/// is asked here; in particular no algebraic law is asked for, so that
/// rounding arithmetic and values that carry derivatives both qualify. The
/// laws that an exact arithmetic adds are collected in [`has_identities`] and
/// [`is_semiring`]; [`crate::exact`] holds an arithmetic that meets them.
///
/// The methods have no precondition, so an implementation has to accept every
/// value of its type. An implementation in unverified code writes each
/// `_spec` function as the operation itself, and each method as a call of it;
/// what is proved of the matrix engine then holds of that implementation as
/// far as its operations are functions of their operands.
pub trait NumericField: Sized {
    /// The additive neutral value, with which every accumulation starts.
    spec fn zero_spec() -> Self;

    /// The multiplicative neutral value, which fills the bias row.
    spec fn one_spec() -> Self;

    /// The sum that `accumulate` leaves in its receiver.
    spec fn add_spec(self, rhs: Self) -> Self;

    /// The product that `product` returns.
    spec fn mul_spec(self, rhs: Self) -> Self;

    /// The logistic activation that `sigmoid_on_mut` leaves in its receiver.
    spec fn sigmoid_spec(self) -> Self;

    fn zero() -> (r: Self)
        ensures
            r == Self::zero_spec(),
    ;

    fn one() -> (r: Self)
        ensures
            r == Self::one_spec(),
    ;

    /// A second value equal to this one.
    fn duplicate(&self) -> (r: Self)
        ensures
            r == *self,
    ;

    fn product(&self, rhs: &Self) -> (r: Self)
        ensures
            r == self.mul_spec(*rhs),
    ;

    /// Adds `x` into the receiver. This is an operation of its own, not a use
    /// of `+`, so that a value that records how it was computed sees the
    /// accumulation as one step.
    fn accumulate(&mut self, x: &Self)
        ensures
            *final(self) == old(self).add_spec(*x),
    ;

    fn sigmoid_on_mut(&mut self)
        ensures
            *final(self) == old(self).sigmoid_spec(),
    ;
}

/// Replaces `x` by its logistic activation.
pub fn sigmoid<N: NumericField>(x: &mut N)
    ensures
        *final(x) == old(x).sigmoid_spec(),
{
    x.sigmoid_on_mut();
}

/// The laws of an arithmetic in which zero and one are neutral: adding zero
/// changes nothing, multiplying by one changes nothing, and a product with
/// zero is zero.
pub open spec fn has_identities<N: NumericField>() -> bool {
    &&& forall|x: N| #[trigger] N::zero_spec().add_spec(x) == x
    &&& forall|x: N| #[trigger] x.add_spec(N::zero_spec()) == x
    &&& forall|x: N| #[trigger] x.mul_spec(N::one_spec()) == x
    &&& forall|x: N| #[trigger] N::one_spec().mul_spec(x) == x
    &&& forall|x: N| #[trigger] x.mul_spec(N::zero_spec()) == N::zero_spec()
    &&& forall|x: N| #[trigger] N::zero_spec().mul_spec(x) == N::zero_spec()
}

/// The laws of an exact arithmetic: zero and one are neutral, sums may be
/// regrouped and reordered, products may be regrouped, and a product
/// distributes over a sum on either side.
pub open spec fn is_semiring<N: NumericField>() -> bool {
    &&& has_identities::<N>()
    &&& forall|x: N, y: N| #[trigger] x.add_spec(y) == y.add_spec(x)
    &&& forall|x: N, y: N, z: N| #[trigger] x.add_spec(y).add_spec(z) == x.add_spec(y.add_spec(z))
    &&& forall|x: N, y: N, z: N| #[trigger] x.mul_spec(y).mul_spec(z) == x.mul_spec(y.mul_spec(z))
    &&& forall|x: N, y: N, z: N| #[trigger] x.mul_spec(y.add_spec(z)) == x.mul_spec(y).add_spec(x.mul_spec(z))
    &&& forall|x: N, y: N, z: N| #[trigger] x.add_spec(y).mul_spec(z) == x.mul_spec(z).add_spec(y.mul_spec(z))
}

} // verus!
