//! Laws of the matrix engine.
//!
//! The laws of multiplication hold for every arithmetic that is exact in the
//! sense of [`has_identities`] or [`is_semiring`]; an arithmetic that rounds
//! meets them only up to its rounding.
use vstd::prelude::*;
use vstd::arithmetic::div_mod::{lemma_fundamental_div_mod, lemma_multiply_divide_lt};
use crate::field::{has_identities, is_semiring, NumericField};
use crate::matrix::{compatible, dot, identity, lemma_flatten_index, product, rectangular, unflatten, width_of};

verus! {

/// A matrix that is read from a flat sequence and flattened again gives the
/// sequence back.
pub proof fn lemma_flatten_unflatten<T>(width: nat, height: nat, flat: Seq<T>)
    requires
        flat.len() == width * height,
    ensures
        unflatten(width, height, flat).flatten() == flat,
{
    let m = unflatten(width, height, flat);
    lemma_flatten_index(m, width);
    assert(height * width == width * height) by (nonlinear_arith);
    assert forall|k: int| 0 <= k < flat.len() implies m.flatten()[k] == flat[k] by {
        assert(width > 0) by (nonlinear_arith)
            requires
                0 <= k < width * height,
        ;
        let w = width as int;
        lemma_fundamental_div_mod(k, w);
        lemma_multiply_divide_lt(k, w, height as int);
        let y = k / w;
        let x = k % w;
        assert(0 <= y) by (nonlinear_arith)
            requires
                y == k / w,
                0 <= k,
                0 < w,
        ;
        assert(w * y == y * w) by (nonlinear_arith);
        assert(m[y][x] == flat[y * width + x]);
    }
    assert(m.flatten() =~= flat);
}

/// A rectangular matrix that is flattened and read again is the same matrix.
pub proof fn lemma_unflatten_flatten<T>(m: Seq<Seq<T>>)
    requires
        m.len() >= 1,
        rectangular(m),
    ensures
        unflatten(width_of(m), m.len(), m.flatten()) == m,
{
    lemma_flatten_index(m, width_of(m));
    assert(unflatten(width_of(m), m.len(), m.flatten()) =~~= m);
}

/// With `t` terms taken, the cell of `a` times the identity holds the cell of
/// `a` if its column is among the terms, and zero if it is not.
proof fn lemma_dot_identity_right<N: NumericField>(a: Seq<Seq<N>>, i: int, j: int, t: nat)
    requires
        has_identities::<N>(),
        0 <= j < width_of(a),
        t <= width_of(a),
    ensures
        dot(a, identity::<N>(width_of(a)), i, j, t) == if j < t { a[i][j] } else { N::zero_spec() },
    decreases t,
{
    if t > 0 {
        let k = t - 1;
        lemma_dot_identity_right(a, i, j, k as nat);
        let unit = identity::<N>(width_of(a));
        let before = dot(a, unit, i, j, k as nat);
        assert(unit[k][j] == if j == k { N::one_spec() } else { N::zero_spec() });
        if j == k {
            assert(a[i][k].mul_spec(N::one_spec()) == a[i][k]);
            assert(N::zero_spec().add_spec(a[i][k]) == a[i][k]);
        } else {
            assert(a[i][k].mul_spec(N::zero_spec()) == N::zero_spec());
            assert(before.add_spec(N::zero_spec()) == before);
        }
    }
}

/// With `t` terms taken, the cell of the identity times `a` holds the cell of
/// `a` if its row is among the terms, and zero if it is not.
proof fn lemma_dot_identity_left<N: NumericField>(a: Seq<Seq<N>>, i: int, j: int, t: nat)
    requires
        has_identities::<N>(),
        0 <= i < a.len(),
        t <= a.len(),
    ensures
        dot(identity::<N>(a.len()), a, i, j, t) == if i < t { a[i][j] } else { N::zero_spec() },
    decreases t,
{
    if t > 0 {
        let k = t - 1;
        lemma_dot_identity_left(a, i, j, k as nat);
        let unit = identity::<N>(a.len());
        let before = dot(unit, a, i, j, k as nat);
        assert(unit[i][k] == if k == i { N::one_spec() } else { N::zero_spec() });
        if i == k {
            assert(N::one_spec().mul_spec(a[k][j]) == a[k][j]);
            assert(N::zero_spec().add_spec(a[k][j]) == a[k][j]);
        } else {
            assert(N::zero_spec().mul_spec(a[k][j]) == N::zero_spec());
            assert(before.add_spec(N::zero_spec()) == before);
        }
    }
}

/// A matrix times the identity of its width is the matrix itself, in every
/// arithmetic in which zero and one are neutral.
pub proof fn lemma_product_identity_right<N: NumericField>(a: Seq<Seq<N>>)
    requires
        has_identities::<N>(),
        compatible(a, identity::<N>(width_of(a))),
    ensures
        product(a, identity::<N>(width_of(a))) == a,
{
    let unit = identity::<N>(width_of(a));
    let ab = product(a, unit);
    assert(width_of(unit) == width_of(a));
    assert forall|i: int, j: int| 0 <= i < a.len() && 0 <= j < width_of(a) implies #[trigger] ab[i][j] == a[i][j] by {
        lemma_dot_identity_right(a, i, j, width_of(a));
    }
    assert(ab =~~= a);
}

/// The identity of a matrix's height times the matrix is the matrix itself,
/// in every arithmetic in which zero and one are neutral.
pub proof fn lemma_product_identity_left<N: NumericField>(a: Seq<Seq<N>>)
    requires
        has_identities::<N>(),
        compatible(identity::<N>(a.len()), a),
    ensures
        product(identity::<N>(a.len()), a) == a,
{
    let unit = identity::<N>(a.len());
    let ab = product(unit, a);
    assert(width_of(unit) == a.len());
    assert forall|i: int, j: int| 0 <= i < a.len() && 0 <= j < width_of(a) implies #[trigger] ab[i][j] == a[i][j] by {
        lemma_dot_identity_left(a, i, j, a.len());
    }
    assert(ab =~~= a);
}

/// The sum of the first `n` values of `term`, taken in order from zero.
pub open spec fn sum<N: NumericField>(term: spec_fn(int) -> N, n: nat) -> N
    decreases n,
{
    if n == 0 {
        N::zero_spec()
    } else {
        sum(term, (n - 1) as nat).add_spec(term(n - 1))
    }
}

/// The terms of the cell in row `i` and column `j` of `a` times `b`.
pub open spec fn terms<N: NumericField>(a: Seq<Seq<N>>, b: Seq<Seq<N>>, i: int, j: int) -> spec_fn(int) -> N {
    |k: int| a[i][k].mul_spec(b[k][j])
}

/// A function of two indices with its second index held at `l`.
pub open spec fn at_second<N>(f: spec_fn(int, int) -> N, l: int) -> spec_fn(int) -> N {
    |k: int| f(k, l)
}

/// A function of two indices with its first index held at `k`.
pub open spec fn at_first<N>(f: spec_fn(int, int) -> N, k: int) -> spec_fn(int) -> N {
    |l: int| f(k, l)
}

/// A cell of a product is the sum of its terms.
pub proof fn lemma_dot_is_sum<N: NumericField>(a: Seq<Seq<N>>, b: Seq<Seq<N>>, i: int, j: int, n: nat)
    ensures
        dot(a, b, i, j, n) == sum(terms(a, b, i, j), n),
    decreases n,
{
    if n > 0 {
        lemma_dot_is_sum(a, b, i, j, (n - 1) as nat);
    }
}

/// Sums of terms that agree one by one are equal.
pub proof fn lemma_sum_congruence<N: NumericField>(f: spec_fn(int) -> N, g: spec_fn(int) -> N, n: nat)
    requires
        forall|k: int| 0 <= k < n ==> #[trigger] f(k) == g(k),
    ensures
        sum(f, n) == sum(g, n),
    decreases n,
{
    if n > 0 {
        lemma_sum_congruence(f, g, (n - 1) as nat);
        assert(f(n - 1) == g(n - 1));
    }
}

/// A sum of zeros is zero.
pub proof fn lemma_sum_of_zeros<N: NumericField>(f: spec_fn(int) -> N, n: nat)
    requires
        has_identities::<N>(),
        forall|k: int| 0 <= k < n ==> #[trigger] f(k) == N::zero_spec(),
    ensures
        sum(f, n) == N::zero_spec(),
    decreases n,
{
    if n > 0 {
        lemma_sum_of_zeros(f, (n - 1) as nat);
        assert(f(n - 1) == N::zero_spec());
        assert(N::zero_spec().add_spec(N::zero_spec()) == N::zero_spec());
    }
}

/// The sum of termwise sums is the sum of the two sums.
pub proof fn lemma_sum_add<N: NumericField>(
    f: spec_fn(int) -> N,
    g: spec_fn(int) -> N,
    h: spec_fn(int) -> N,
    n: nat,
)
    requires
        is_semiring::<N>(),
        forall|k: int| 0 <= k < n ==> #[trigger] h(k) == f(k).add_spec(g(k)),
    ensures
        sum(h, n) == sum(f, n).add_spec(sum(g, n)),
    decreases n,
{
    if n == 0 {
        assert(N::zero_spec().add_spec(N::zero_spec()) == N::zero_spec());
    } else {
        lemma_sum_add(f, g, h, (n - 1) as nat);
        let sf = sum(f, (n - 1) as nat);
        let sg = sum(g, (n - 1) as nat);
        let x = f(n - 1);
        let y = g(n - 1);
        assert(h(n - 1) == x.add_spec(y));
        // (sf + sg) + (x + y) == (sf + x) + (sg + y)
        assert(sf.add_spec(sg).add_spec(x.add_spec(y)) == sf.add_spec(sg.add_spec(x.add_spec(y))));
        assert(sg.add_spec(x).add_spec(y) == sg.add_spec(x.add_spec(y)));
        assert(sg.add_spec(x) == x.add_spec(sg));
        assert(x.add_spec(sg).add_spec(y) == x.add_spec(sg.add_spec(y)));
        assert(sf.add_spec(x).add_spec(sg.add_spec(y)) == sf.add_spec(x.add_spec(sg.add_spec(y))));
    }
}

/// A factor on the right may be moved into every term of a sum.
pub proof fn lemma_sum_scale_right<N: NumericField>(f: spec_fn(int) -> N, c: N, h: spec_fn(int) -> N, n: nat)
    requires
        is_semiring::<N>(),
        forall|k: int| 0 <= k < n ==> #[trigger] h(k) == f(k).mul_spec(c),
    ensures
        sum(h, n) == sum(f, n).mul_spec(c),
    decreases n,
{
    if n == 0 {
        assert(N::zero_spec().mul_spec(c) == N::zero_spec());
    } else {
        lemma_sum_scale_right(f, c, h, (n - 1) as nat);
        let sf = sum(f, (n - 1) as nat);
        assert(h(n - 1) == f(n - 1).mul_spec(c));
        assert(sf.add_spec(f(n - 1)).mul_spec(c) == sf.mul_spec(c).add_spec(f(n - 1).mul_spec(c)));
    }
}

/// A factor on the left may be moved into every term of a sum.
pub proof fn lemma_sum_scale_left<N: NumericField>(c: N, f: spec_fn(int) -> N, h: spec_fn(int) -> N, n: nat)
    requires
        is_semiring::<N>(),
        forall|k: int| 0 <= k < n ==> #[trigger] h(k) == c.mul_spec(f(k)),
    ensures
        sum(h, n) == c.mul_spec(sum(f, n)),
    decreases n,
{
    if n == 0 {
        assert(c.mul_spec(N::zero_spec()) == N::zero_spec());
    } else {
        lemma_sum_scale_left(c, f, h, (n - 1) as nat);
        let sf = sum(f, (n - 1) as nat);
        assert(h(n - 1) == c.mul_spec(f(n - 1)));
        assert(c.mul_spec(sf.add_spec(f(n - 1))) == c.mul_spec(sf).add_spec(c.mul_spec(f(n - 1))));
    }
}

/// A double sum may be taken in either order: by `p` sums over the first
/// index, or by `n` sums over the second.
pub proof fn lemma_sum_exchange<N: NumericField>(
    f: spec_fn(int, int) -> N,
    outer_second: spec_fn(int) -> N,
    outer_first: spec_fn(int) -> N,
    n: nat,
    p: nat,
)
    requires
        is_semiring::<N>(),
        forall|l: int| 0 <= l < p ==> #[trigger] outer_second(l) == sum(at_second(f, l), n),
        forall|k: int| 0 <= k < n ==> #[trigger] outer_first(k) == sum(at_first(f, k), p),
    ensures
        sum(outer_second, p) == sum(outer_first, n),
    decreases p,
{
    if p == 0 {
        lemma_sum_of_zeros(outer_first, n);
    } else {
        let shorter = |k: int| sum(at_first(f, k), (p - 1) as nat);
        lemma_sum_exchange(f, outer_second, shorter, n, (p - 1) as nat);
        let added = at_second(f, p - 1);
        assert forall|k: int| 0 <= k < n implies #[trigger] outer_first(k) == shorter(k).add_spec(added(k)) by {
            assert(at_first(f, k)(p - 1) == added(k));
        }
        lemma_sum_add(shorter, added, outer_first, n);
        assert(outer_second(p - 1) == sum(added, n));
    }
}

/// Matrix multiplication may be regrouped, in every exact arithmetic.
pub proof fn lemma_product_associative<N: NumericField>(a: Seq<Seq<N>>, b: Seq<Seq<N>>, c: Seq<Seq<N>>)
    requires
        is_semiring::<N>(),
        compatible(a, b),
        compatible(b, c),
    ensures
        product(product(a, b), c) == product(a, product(b, c)),
{
    let n = width_of(a);
    let p = width_of(b);
    let q = width_of(c);
    let ab = product(a, b);
    let bc = product(b, c);
    let left = product(ab, c);
    let right = product(a, bc);
    assert(width_of(ab) == p);
    assert(width_of(bc) == q);
    assert forall|i: int, j: int| 0 <= i < a.len() && 0 <= j < q implies #[trigger] left[i][j] == right[i][j] by {
        let f = |k: int, l: int| a[i][k].mul_spec(b[k][l]).mul_spec(c[l][j]);
        let by_second = terms(ab, c, i, j);
        let by_first = terms(a, bc, i, j);
        assert forall|l: int| 0 <= l < p implies #[trigger] by_second(l) == sum(at_second(f, l), n) by {
            lemma_dot_is_sum(a, b, i, l, n);
            assert(ab[i][l] == sum(terms(a, b, i, l), n));
            assert forall|k: int| 0 <= k < n implies #[trigger] at_second(f, l)(k) == terms(a, b, i, l)(k).mul_spec(
                c[l][j],
            ) by {}
            lemma_sum_scale_right(terms(a, b, i, l), c[l][j], at_second(f, l), n);
        }
        assert forall|k: int| 0 <= k < n implies #[trigger] by_first(k) == sum(at_first(f, k), p) by {
            lemma_dot_is_sum(b, c, k, j, p);
            assert(bc[k][j] == sum(terms(b, c, k, j), p));
            assert forall|l: int| 0 <= l < p implies #[trigger] at_first(f, k)(l) == a[i][k].mul_spec(
                terms(b, c, k, j)(l),
            ) by {
                assert(a[i][k].mul_spec(b[k][l]).mul_spec(c[l][j]) == a[i][k].mul_spec(b[k][l].mul_spec(c[l][j])));
            }
            lemma_sum_scale_left(a[i][k], terms(b, c, k, j), at_first(f, k), p);
        }
        lemma_sum_exchange(f, by_second, by_first, n, p);
        lemma_dot_is_sum(ab, c, i, j, p);
        lemma_dot_is_sum(a, bc, i, j, n);
    }
    assert(left =~~= right);
}

} // verus!
