//! Whole numbers as an exact arithmetic.
//!
//! `i64` computes modulo two to the sixty-fourth: sums and products wrap
//! round. Nothing is rounded, so the laws of a semiring hold without
//! exception. The activation is the unit step, the shape the logistic curve
//! takes as it steepens: one for a positive value, zero for any other.
use vstd::prelude::*;
use vstd::arithmetic::div_mod::{lemma_add_mod_noop, lemma_mul_mod_noop_general};
use vstd::arithmetic::mul::{lemma_mul_is_associative, lemma_mul_is_distributive_add, lemma_mul_is_distributive_add_other_way};
use vstd::wrapping::i64_specs::{signed_crop, wrapping_add, wrapping_mul};
use crate::field::{has_identities, is_semiring, NumericField};

verus! {

/// The number of residues.
pub open spec fn modulus() -> int {
    0x1_0000_0000_0000_0000
}

/// The `i64` that stands for the residue of `v`.
pub open spec fn wrap(v: int) -> i64 {
    signed_crop(v)
}

impl NumericField for i64 {
    open spec fn zero_spec() -> Self {
        0
    }

    open spec fn one_spec() -> Self {
        1
    }

    open spec fn add_spec(self, rhs: Self) -> Self {
        wrap(self + rhs)
    }

    open spec fn mul_spec(self, rhs: Self) -> Self {
        wrap(self * rhs)
    }

    open spec fn sigmoid_spec(self) -> Self {
        if self > 0 {
            1
        } else {
            0
        }
    }

    fn zero() -> Self {
        0
    }

    fn one() -> Self {
        1
    }

    fn duplicate(&self) -> Self {
        *self
    }

    fn product(&self, rhs: &Self) -> Self {
        self.wrapping_mul(*rhs)
    }

    fn accumulate(&mut self, x: &Self) {
        proof {
            lemma_wrapping_add_is_wrap(*self, *x);
        }
        *self = self.wrapping_add(*x);
    }

    fn sigmoid_on_mut(&mut self) {
        *self = if *self > 0 {
            1
        } else {
            0
        };
    }
}

/// The wrapping sum of std is the residue of the sum.
proof fn lemma_wrapping_add_is_wrap(x: i64, y: i64)
    ensures
        wrapping_add(x, y) == wrap(x + y),
{
}

/// A residue stands for its own class: wrapping changes a number by a
/// multiple of the modulus, and wrapping a number in range changes nothing.
pub proof fn lemma_wrap(v: int)
    ensures
        wrap(v) as int % modulus() == v % modulus(),
        i64::MIN <= v <= i64::MAX ==> wrap(v) == v,
{
}

/// Numbers of one class have one residue.
pub proof fn lemma_wrap_congruent(u: int, v: int)
    requires
        u % modulus() == v % modulus(),
    ensures
        wrap(u) == wrap(v),
{
}

/// The wrapping arithmetic of `i64` keeps all the laws of an exact
/// arithmetic.
pub proof fn lemma_i64_is_semiring()
    ensures
        has_identities::<i64>(),
        is_semiring::<i64>(),
{
    let m = modulus();
    assert forall|x: i64| #[trigger] 0i64.add_spec(x) == x && #[trigger] x.add_spec(0i64) == x
        && #[trigger] x.mul_spec(1i64) == x && #[trigger] 1i64.mul_spec(x) == x
        && #[trigger] x.mul_spec(0i64) == 0i64 && #[trigger] 0i64.mul_spec(x) == 0i64 by {
        lemma_wrap(x as int);
        lemma_wrap(0);
        assert(x * 1 == x && 1 * x == x && x * 0 == 0 && 0 * x == 0) by (nonlinear_arith);
    }
    assert forall|x: i64, y: i64| #[trigger] x.add_spec(y) == y.add_spec(x) by {}
    assert forall|x: i64, y: i64, z: i64| #[trigger] x.add_spec(y).add_spec(z) == x.add_spec(y.add_spec(z)) by {
        lemma_wrap(x + y);
        lemma_wrap(y + z);
        lemma_add_mod_noop(x + y, z as int, m);
        lemma_add_mod_noop(wrap(x + y) as int, z as int, m);
        lemma_add_mod_noop(x as int, y + z, m);
        lemma_add_mod_noop(x as int, wrap(y + z) as int, m);
        lemma_wrap_congruent(wrap(x + y) + z, x + wrap(y + z));
    }
    assert forall|x: i64, y: i64, z: i64| #[trigger] x.mul_spec(y).mul_spec(z) == x.mul_spec(y.mul_spec(z)) by {
        lemma_wrap(x * y);
        lemma_wrap(y * z);
        lemma_mul_mod_noop_general(x * y, z as int, m);
        lemma_mul_mod_noop_general(wrap(x * y) as int, z as int, m);
        lemma_mul_mod_noop_general(x as int, y * z, m);
        lemma_mul_mod_noop_general(x as int, wrap(y * z) as int, m);
        lemma_mul_is_associative(x as int, y as int, z as int);
        lemma_wrap_congruent(wrap(x * y) * z, x * wrap(y * z));
    }
    assert forall|x: i64, y: i64, z: i64| #[trigger] x.mul_spec(y.add_spec(z)) == x.mul_spec(y).add_spec(
        x.mul_spec(z),
    ) by {
        lemma_wrap(y + z);
        lemma_wrap(x * y);
        lemma_wrap(x * z);
        lemma_mul_mod_noop_general(x as int, y + z, m);
        lemma_mul_mod_noop_general(x as int, wrap(y + z) as int, m);
        lemma_add_mod_noop(x * y, x * z, m);
        lemma_add_mod_noop(wrap(x * y) as int, wrap(x * z) as int, m);
        lemma_mul_is_distributive_add(x as int, y as int, z as int);
        lemma_wrap_congruent(x * wrap(y + z), wrap(x * y) + wrap(x * z));
    }
    assert forall|x: i64, y: i64, z: i64| #[trigger] x.add_spec(y).mul_spec(z) == x.mul_spec(z).add_spec(
        y.mul_spec(z),
    ) by {
        lemma_wrap(x + y);
        lemma_wrap(x * z);
        lemma_wrap(y * z);
        lemma_mul_mod_noop_general(x + y, z as int, m);
        lemma_mul_mod_noop_general(wrap(x + y) as int, z as int, m);
        lemma_add_mod_noop(x * z, y * z, m);
        lemma_add_mod_noop(wrap(x * z) as int, wrap(y * z) as int, m);
        lemma_mul_is_distributive_add_other_way(z as int, x as int, y as int);
        lemma_wrap_congruent(wrap(x + y) * z, wrap(x * z) + wrap(y * z));
    }
}

} // verus!
