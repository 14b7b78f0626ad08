//! A dense two-dimensional container of field values.
use vstd::prelude::*;
use std::ops::Mul;
use crate::field::{sigmoid, NumericField};

verus! {

/// Rows of cells, top to bottom; each row lists its cells left to right.
#[derive(Debug, Clone, PartialEq)]
pub struct Matrix<T>(Vec<Vec<T>>);

/// The grid with `height` rows and `width` columns whose cell in row `y` and
/// column `x` is `cell(y, x)`.
pub open spec fn grid<T>(width: nat, height: nat, cell: spec_fn(int, int) -> T) -> Seq<Seq<T>> {
    Seq::new(height, |y: int| Seq::new(width, |x: int| cell(y, x)))
}

/// Every row is as long as the first one.
pub open spec fn rectangular<T>(m: Seq<Seq<T>>) -> bool {
    forall|y: int| 0 <= y < m.len() ==> (#[trigger] m[y]).len() == m[0].len()
}

/// Whether `m` has a cell in row `y` and column `x`.
pub open spec fn has_cell<T>(m: Seq<Seq<T>>, y: int, x: int) -> bool {
    0 <= y < m.len() && 0 <= x < m[y].len()
}

/// Every row holds exactly one cell.
pub open spec fn is_column<T>(m: Seq<Seq<T>>) -> bool {
    forall|y: int| 0 <= y < m.len() ==> (#[trigger] m[y]).len() == 1
}

/// The number of columns: the length of the first row.
pub open spec fn width_of<T>(m: Seq<Seq<T>>) -> nat
    recommends
        m.len() > 0,
{
    m[0].len()
}

/// The grid of `height` rows and `width` columns that reads `flat` row by row.
pub open spec fn unflatten<T>(width: nat, height: nat, flat: Seq<T>) -> Seq<Seq<T>> {
    grid(width, height, |y: int, x: int| flat[y * width + x])
}

/// The identity matrix of `size` rows and columns: one on the diagonal, zero
/// elsewhere.
pub open spec fn identity<N: NumericField>(size: nat) -> Seq<Seq<N>> {
    grid(size, size, |y: int, x: int| if x == y { N::one_spec() } else { N::zero_spec() })
}

/// The matrix of one column that lists `values` from top to bottom.
pub open spec fn column<T>(values: Seq<T>) -> Seq<Seq<T>> {
    Seq::new(values.len(), |y: int| seq![values[y]])
}

/// The sum of the first `n` terms of row `i` of `a` times column `j` of `b`.
/// The sum starts at zero and takes the terms in order, each one by an
/// accumulation.
pub open spec fn dot<N: NumericField>(a: Seq<Seq<N>>, b: Seq<Seq<N>>, i: int, j: int, n: nat) -> N
    decreases n,
{
    if n == 0 {
        N::zero_spec()
    } else {
        dot(a, b, i, j, (n - 1) as nat).add_spec(a[i][n - 1].mul_spec(b[n - 1][j]))
    }
}

/// Whether `a` times `b` is defined: both are rectangular and not empty, and
/// `a` has as many columns as `b` has rows.
pub open spec fn compatible<T>(a: Seq<Seq<T>>, b: Seq<Seq<T>>) -> bool {
    &&& a.len() >= 1
    &&& b.len() >= 1
    &&& rectangular(a)
    &&& rectangular(b)
    &&& width_of(a) == b.len()
}

/// The matrix product: as many rows as `a`, as many columns as `b`.
pub open spec fn product<N: NumericField>(a: Seq<Seq<N>>, b: Seq<Seq<N>>) -> Seq<Seq<N>> {
    grid(width_of(b), a.len(), |i: int, j: int| dot(a, b, i, j, width_of(a)))
}

/// The matrix of the same shape in which every cell is the logistic
/// activation of the cell of `m` at its place.
pub open spec fn activated<N: NumericField>(m: Seq<Seq<N>>) -> Seq<Seq<N>> {
    Seq::new(m.len(), |y: int| Seq::new(m[y].len(), |x: int| m[y][x].sigmoid_spec()))
}

/// What one layer makes of `activation`: the bias row is appended, the
/// weights are multiplied in, and every cell is activated.
pub open spec fn layer<N: NumericField>(weights: Seq<Seq<N>>, activation: Seq<Seq<N>>) -> Seq<Seq<N>> {
    activated(product(weights, activation.push(seq![N::one_spec()])))
}

/// Row-major order: in the flattening of a grid whose rows all have `width`
/// cells, the cell of row `y` and column `x` stands at `y * width + x`.
pub proof fn lemma_flatten_index<T>(m: Seq<Seq<T>>, width: nat)
    requires
        forall|y: int| 0 <= y < m.len() ==> (#[trigger] m[y]).len() == width,
    ensures
        m.flatten().len() == m.len() * width,
        forall|y: int, x: int| 0 <= y < m.len() && 0 <= x < width ==> 0 <= #[trigger] (y * width + x) < m.len() * width,
        forall|y: int, x: int| 0 <= y < m.len() && 0 <= x < width ==> m.flatten()[y * width + x] == #[trigger] m[y][x],
    decreases m.len(),
{
    assert forall|y: int, x: int| 0 <= y < m.len() && 0 <= x < width implies 0 <= #[trigger] (y * width + x) < m.len() * width by {
        assert(0 <= y * width + x < m.len() * width) by (nonlinear_arith)
            requires
                0 <= y < m.len(),
                0 <= x < width,
        ;
    }
    if m.len() == 0 {
        assert(m.flatten() =~= Seq::<T>::empty());
    } else {
        let front = m.drop_last();
        lemma_flatten_index(front, width);
        front.lemma_flatten_push(m.last());
        assert(front.push(m.last()) =~= m);
        assert(m.flatten() == front.flatten() + m.last());
        assert(m.len() * width == front.len() * width + width) by (nonlinear_arith)
            requires
                m.len() == front.len() + 1,
        ;
        assert forall|y: int, x: int| 0 <= y < m.len() && 0 <= x < width implies m.flatten()[y * width + x] == #[trigger] m[y][x] by {
            if y < front.len() {
                assert(front[y] == m[y]);
                assert(front.flatten()[y * width + x] == front[y][x]);
                assert(0 <= y * width + x < front.len() * width);
            } else {
                assert(y * width == front.len() * width);
                assert(m.last()[x] == m[y][x]);
            }
        }
    }
}

impl<T> View for Matrix<T> {
    type V = Seq<Seq<T>>;

    closed spec fn view(&self) -> Seq<Seq<T>> {
        Seq::new(self.0@.len(), |y: int| self.0@[y]@)
    }
}

impl<N: NumericField> Matrix<N> {
    /// Hands every cell to `delinearizer`, once, to change it in place.
    ///
    /// Each cell ends as `delinearizer` leaves it when it is given a reference
    /// to the cell as it was; the shape does not change.
    pub fn delinearize<F: Fn(&mut N)>(&mut self, delinearizer: F)
        requires
            forall|r: &mut N| call_requires(delinearizer, (r,)),
        ensures
            final(self)@.len() == old(self)@.len(),
            forall|y: int| 0 <= y < old(self)@.len() ==> (#[trigger] final(self)@[y]).len() == old(self)@[y].len(),
            forall|y: int, x: int| #[trigger] has_cell(old(self)@, y, x) ==>
                exists|r: &mut N| *r == old(self)@[y][x] && *final(r) == final(self)@[y][x]
                    && #[trigger] call_ensures(delinearizer, (r,), ()),
    {
        let height = self.0.len();
        let ghost start = self@;
        for y in 0..height
            invariant
                height == self@.len(),
                height == start.len(),
                start == old(self)@,
                forall|r: &mut N| call_requires(delinearizer, (r,)),
                forall|i: int| y <= i < height ==> (#[trigger] self@[i]) == start[i],
                forall|i: int| 0 <= i < y ==> (#[trigger] self@[i]).len() == start[i].len(),
                forall|i: int, j: int| #[trigger] has_cell(start, i, j) && i < y ==>
                    exists|r: &mut N| *r == start[i][j] && *final(r) == self@[i][j]
                        && #[trigger] call_ensures(delinearizer, (r,), ()),
        {
            let width = self.0[y].len();
            let ghost before = self@;
            let ghost rows = self.0@;
            for x in 0..width
                invariant
                    y < height,
                    height == self@.len(),
                    height == before.len(),
                    height == rows.len(),
                    forall|i: int| 0 <= i < height ==> (#[trigger] rows[i])@ == before[i],
                    width == before[y as int].len(),
                    width == self@[y as int].len(),
                    forall|r: &mut N| call_requires(delinearizer, (r,)),
                    forall|i: int| 0 <= i < height && i != y ==> (#[trigger] self.0@[i]) == rows[i],
                    forall|j: int| x <= j < width ==> (#[trigger] self@[y as int][j]) == before[y as int][j],
                    forall|j: int| #[trigger] has_cell(before, y as int, j) && j < x ==>
                        exists|r: &mut N| *r == before[y as int][j] && *final(r) == self@[y as int][j]
                            && #[trigger] call_ensures(delinearizer, (r,), ()),
            {
                let ghost prev = self@;
                delinearizer(&mut self.0[y][x]);
                assert forall|j: int| #[trigger] has_cell(before, y as int, j) && j < x + 1 implies
                    exists|r: &mut N| *r == before[y as int][j] && *final(r) == self@[y as int][j]
                        && #[trigger] call_ensures(delinearizer, (r,), ()) by {
                    if j < x {
                        assert(self@[y as int][j] == prev[y as int][j]);
                    } else {
                        assert(prev[y as int][j] == before[y as int][j]);
                    }
                }
            }
            assert forall|i: int, j: int| #[trigger] has_cell(start, i, j) && i < y + 1 implies
                exists|r: &mut N| *r == start[i][j] && *final(r) == self@[i][j]
                    && #[trigger] call_ensures(delinearizer, (r,), ()) by {
                if i < y {
                    assert(self@[i] == before[i]);
                } else {
                    assert(has_cell(before, y as int, j));
                }
            }
        }
    }

    /// The matrix whose rows are the rows of `data`.
    pub fn new<const W: usize, const H: usize>(data: [[N; W]; H]) -> (r: Self)
        ensures
            r@ == grid(W as nat, H as nat, |y: int, x: int| data@[y]@[x]),
            rectangular(r@),
    {
        let mut rows: Vec<Vec<N>> = Vec::new();
        for y in 0..H
            invariant
                rows@.len() == y,
                forall|i: int| 0 <= i < y ==> (#[trigger] rows@[i])@ == data@[i]@,
        {
            let mut row: Vec<N> = Vec::new();
            for x in 0..W
                invariant
                    y < H,
                    row@ == data@[y as int]@.subrange(0, x as int),
            {
                row.push(data[y][x].duplicate());
                assert(row@ =~= data@[y as int]@.subrange(0, x + 1));
            }
            assert(row@ =~= data@[y as int]@);
            rows.push(row);
        }
        let r = Matrix(rows);
        assert(r@ =~~= grid(W as nat, H as nat, |y: int, x: int| data@[y]@[x]));
        r
    }

    /// Applies the logistic activation to every cell.
    pub fn activate(&mut self)
        ensures
            final(self)@ == activated(old(self)@),
            rectangular(old(self)@) ==> rectangular(final(self)@),
    {
        self.delinearize(sigmoid);
        assert forall|y: int, x: int| 0 <= y < self@.len() && 0 <= x < self@[y].len() implies #[trigger] self@[y][x]
            == old(self)@[y][x].sigmoid_spec() by {
            assert(has_cell(old(self)@, y, x));
        }
        assert(self@ =~~= activated(old(self)@));
    }

    /// The matrix of `height` rows and `width` columns filled with zero.
    pub fn cero(width: usize, height: usize) -> (r: Self)
        ensures
            r@ == grid(width as nat, height as nat, |y: int, x: int| N::zero_spec()),
            rectangular(r@),
    {
        let mut data: Vec<Vec<N>> = Vec::new();
        for y in 0..height
            invariant
                data@.len() == y,
                forall|i: int| 0 <= i < y ==> (#[trigger] data@[i])@ == Seq::new(width as nat, |x: int| N::zero_spec()),
        {
            let mut row: Vec<N> = Vec::new();
            for x in 0..width
                invariant
                    row@ == Seq::new(x as nat, |j: int| N::zero_spec()),
            {
                row.push(N::zero());
                assert(row@ =~= Seq::new((x + 1) as nat, |j: int| N::zero_spec()));
            }
            data.push(row);
        }
        let r = Matrix(data);
        assert(r@ =~~= grid(width as nat, height as nat, |y: int, x: int| N::zero_spec()));
        r
    }

    /// The identity matrix with `size` rows and columns: one on the diagonal,
    /// zero elsewhere.
    pub fn unit(size: usize) -> (r: Self)
        ensures
            r@ == identity::<N>(size as nat),
            rectangular(r@),
    {
        let mut rows: Vec<Vec<N>> = Vec::new();
        for y in 0..size
            invariant
                rows@.len() == y,
                forall|i: int| 0 <= i < y ==> (#[trigger] rows@[i])@
                    == Seq::new(size as nat, |x: int| if x == i { N::one_spec() } else { N::zero_spec() }),
        {
            let mut row: Vec<N> = Vec::new();
            for x in 0..size
                invariant
                    row@ == Seq::new(x as nat, |j: int| if j == y { N::one_spec() } else { N::zero_spec() }),
            {
                if x == y {
                    row.push(N::one());
                } else {
                    row.push(N::zero());
                }
                assert(row@ =~= Seq::new((x + 1) as nat, |j: int| if j == y { N::one_spec() } else { N::zero_spec() }));
            }
            rows.push(row);
        }
        let r = Matrix(rows);
        assert(r@ =~~= identity::<N>(size as nat));
        r
    }

    /// Reads `flat_data` row by row into a matrix of `height` rows and `width`
    /// columns.
    pub fn deserialize(width: usize, height: usize, flat_data: &[N]) -> (r: Self)
        requires
            flat_data@.len() == width * height,
        ensures
            r@ == unflatten(width as nat, height as nat, flat_data@),
            rectangular(r@),
    {
        let total = flat_data.len();
        let mut rows: Vec<Vec<N>> = Vec::new();
        for y in 0..height
            invariant
                total == width * height,
                flat_data@.len() == width * height,
                rows@.len() == y,
                forall|i: int| 0 <= i < y ==> (#[trigger] rows@[i])@
                    == Seq::new(width as nat, |x: int| flat_data@[i * width + x]),
        {
            let mut row: Vec<N> = Vec::new();
            for x in 0..width
                invariant
                    y < height,
                    total == width * height,
                    flat_data@.len() == width * height,
                    row@ == Seq::new(x as nat, |j: int| flat_data@[y * width + j]),
            {
                assert(y * width + x < width * height) by (nonlinear_arith)
                    requires
                        y < height,
                        x < width,
                ;
                assert(0 <= y * width) by (nonlinear_arith);
                row.push(flat_data[y * width + x].duplicate());
                assert(row@ =~= Seq::new((x + 1) as nat, |j: int| flat_data@[y * width + j]));
            }
            rows.push(row);
        }
        let r = Matrix(rows);
        assert(r@ =~~= unflatten(width as nat, height as nat, flat_data@));
        r
    }

    /// Appends the bias row: one row that holds a single one.
    pub fn add_bias(self) -> (r: Matrix<N>)
        ensures
            r@ == self@.push(seq![N::one_spec()]),
            is_column(self@) ==> is_column(r@),
    {
        let mut rows = self.0;
        let mut row: Vec<N> = Vec::new();
        row.push(N::one());
        assert(row@ =~= seq![N::one_spec()]);
        rows.push(row);
        let r = Matrix(rows);
        assert(r@ =~~= self@.push(seq![N::one_spec()]));
        r
    }

    /// Appends one row per value of `reminder`, each holding that value alone.
    pub fn add_reminder<const X: usize>(self, reminder: &[N; X]) -> (r: Matrix<N>)
        ensures
            r@ == self@ + column(reminder@),
            is_column(self@) ==> is_column(r@),
    {
        let mut rows = self.0;
        for i in 0..X
            invariant
                rows@.len() == self@.len() + i,
                forall|y: int| 0 <= y < self@.len() ==> (#[trigger] rows@[y])@ == self@[y],
                forall|y: int| 0 <= y < i ==> (#[trigger] rows@[self@.len() + y])@ == seq![reminder@[y]],
        {
            let mut row: Vec<N> = Vec::new();
            row.push(reminder[i].duplicate());
            assert(row@ =~= seq![reminder@[i as int]]);
            rows.push(row);
        }
        let r = Matrix(rows);
        assert forall|y: int| 0 <= y < r@.len() implies #[trigger] r@[y] == (self@ + column(reminder@))[y] by {
            if y >= self@.len() {
                assert(rows@[self@.len() + (y - self@.len())]@ == seq![reminder@[y - self@.len()]]);
            }
        }
        assert(r@ =~= self@ + column(reminder@));
        r
    }

    /// The cells in one sequence, row after row.
    pub fn serialize(self) -> (r: Vec<N>)
        ensures
            r@ == self@.flatten(),
    {
        let mut rows = self.0;
        let mut flat: Vec<N> = Vec::new();
        let height = rows.len();
        proof {
            assert(self@.subrange(0, 0) =~= Seq::<Seq<N>>::empty());
        }
        for y in 0..height
            invariant
                height == rows@.len(),
                height == self@.len(),
                forall|i: int| y <= i < height ==> (#[trigger] rows@[i])@ == self@[i],
                flat@ == self@.subrange(0, y as int).flatten(),
        {
            proof {
                assert(self@.subrange(0, y + 1) =~= self@.subrange(0, y as int).push(self@[y as int]));
                self@.subrange(0, y as int).lemma_flatten_push(self@[y as int]);
            }
            flat.append(&mut rows[y]);
        }
        assert(self@.subrange(0, height as int) =~= self@);
        flat
    }

    /// Whether the matrix has no row at all.
    pub fn is_empty(&self) -> (r: bool)
        ensures
            r == (self@.len() == 0),
    {
        self.0.len() == 0
    }

    /// The cells of row `y`, left to right.
    pub fn row(&self, y: usize) -> (r: &[N])
        requires
            y < self@.len(),
        ensures
            r@ == self@[y as int],
    {
        self.0[y].as_slice()
    }

    /// Whether every row is as long as the first one.
    pub fn is_rectangular(&self) -> (r: bool)
        ensures
            r == rectangular(self@),
    {
        let height = self.0.len();
        for y in 0..height
            invariant
                height == self@.len(),
                forall|i: int| 0 <= i < y ==> (#[trigger] self@[i]).len() == self@[0].len(),
        {
            if self.0[y].len() != self.0[0].len() {
                assert(self@[y as int].len() != self@[0].len());
                return false;
            }
        }
        true
    }

    /// Whether `self` times `rhs` is defined.
    pub fn can_multiply(&self, rhs: &Matrix<N>) -> (r: bool)
        ensures
            r == compatible(self@, rhs@),
    {
        !self.is_empty() && !rhs.is_empty() && self.is_rectangular() && rhs.is_rectangular() && self.cols()
            == rhs.rows()
    }

    /// The number of rows.
    pub fn rows(&self) -> (r: usize)
        requires
            self@.len() >= 1,
        ensures
            r == self@.len(),
    {
        self.0.len()
    }

    /// The number of columns, which is the length of the first row.
    pub fn cols(&self) -> (r: usize)
        requires
            self@.len() >= 1,
        ensures
            r == width_of(self@),
    {
        self.0[0].len()
    }
}

impl<T: NumericField> vstd::std_specs::ops::MulSpecImpl for Matrix<T> {
    open spec fn obeys_mul_spec() -> bool {
        false
    }

    open spec fn mul_req(self, rhs: Matrix<T>) -> bool {
        compatible(self@, rhs@)
    }

    open spec fn mul_spec(self, rhs: Matrix<T>) -> Matrix<T> {
        arbitrary()
    }
}

impl<T: NumericField> Mul for Matrix<T> {
    type Output = Matrix<T>;

    /// The matrix product. Each cell starts at zero and accumulates the
    /// products of its row of `self` with its column of `rhs`, in order.
    fn mul(self, rhs: Matrix<T>) -> (r: Matrix<T>)
        ensures
            r@ == product(self@, rhs@),
            rectangular(r@),
    {
        let m = self.rows();
        let n = self.cols();
        let p = rhs.cols();
        let mut rows: Vec<Vec<T>> = Vec::new();
        for i in 0..m
            invariant
                compatible(self@, rhs@),
                m == self@.len(),
                n == width_of(self@),
                p == width_of(rhs@),
                rows@.len() == i,
                forall|y: int| 0 <= y < i ==> (#[trigger] rows@[y])@
                    == Seq::new(p as nat, |x: int| dot(self@, rhs@, y, x, n as nat)),
        {
            let mut row: Vec<T> = Vec::new();
            for j in 0..p
                invariant
                    compatible(self@, rhs@),
                    i < m,
                    m == self@.len(),
                    n == width_of(self@),
                    p == width_of(rhs@),
                    row@ == Seq::new(j as nat, |x: int| dot(self@, rhs@, i as int, x, n as nat)),
            {
                let mut cell = T::zero();
                for k in 0..n
                    invariant
                        compatible(self@, rhs@),
                        i < m,
                        j < p,
                        m == self@.len(),
                        n == width_of(self@),
                        p == width_of(rhs@),
                        cell == dot(self@, rhs@, i as int, j as int, k as nat),
                {
                    assert(self@[i as int].len() == n);
                    assert(rhs@[k as int].len() == p);
                    let term = self.0[i][k].product(&rhs.0[k][j]);
                    cell.accumulate(&term);
                }
                row.push(cell);
                assert(row@ =~= Seq::new((j + 1) as nat, |x: int| dot(self@, rhs@, i as int, x, n as nat)));
            }
            rows.push(row);
        }
        let r = Matrix(rows);
        assert(r@ =~~= product(self@, rhs@));
        r
    }
}

} // verus!
