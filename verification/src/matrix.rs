//! Matrices: dense grids of scalars, stored row-major.

use vstd::prelude::*;
use crate::algebra;
use crate::error::LinAlgError;
use crate::field::KField;
use crate::vector::{lerp_all, Vector};

verus! {

/// A dense grid of `rows` by `cols` scalars. The entry at row `r` and column
/// `c` is `data[r * cols + c]`.
#[derive(Debug, Clone, PartialEq)]
pub struct Matrix<K> {
    pub data: Vec<K>,
    pub rows: usize,
    pub cols: usize,
}

/// Whether all the given rows have the same length.
pub open spec fn is_rectangular<K>(values: Seq<Vec<K>>) -> bool {
    forall|r: int| 0 <= r < values.len() ==> (#[trigger] values[r])@.len() == values[0]@.len()
}

/// The number of columns that the given rows have in common: the length of
/// the first, and zero where there is no row.
pub open spec fn common_width<K>(values: Seq<Vec<K>>) -> nat {
    if values.len() > 0 {
        values[0]@.len()
    } else {
        0
    }
}

/// The given rows as a sequence of sequences.
pub open spec fn grid_of<K>(values: Seq<Vec<K>>) -> Seq<Seq<K>> {
    Seq::new(values.len(), |r: int| values[r]@)
}

/// Where the rows of a grid of `cols` columns begin in its flat storage: each
/// row begins `cols` positions after the one before, the first at zero.
pub proof fn lemma_row_start(cols: int, r: int)
    requires
        0 <= r,
        0 <= cols,
    ensures
        0 * cols == 0,
        0 <= r * cols,
        (r + 1) * cols == r * cols + cols,
{
    assert(0 * cols == 0) by (nonlinear_arith);
    assert(0 <= r * cols) by (nonlinear_arith)
        requires
            0 <= r,
            0 <= cols,
    ;
    assert((r + 1) * cols == r * cols + cols) by (nonlinear_arith);
}

/// A position inside a grid of `rows` by `cols` lies inside its flat
/// storage.
pub proof fn lemma_flat_index(rows: int, cols: int, r: int, c: int)
    requires
        0 <= r < rows,
        0 <= c < cols,
    ensures
        0 <= r * cols,
        0 <= r * cols + c < rows * cols,
{
    lemma_row_start(cols, r);
    assert((r + 1) * cols <= rows * cols) by (nonlinear_arith)
        requires
            r + 1 <= rows,
            0 <= cols,
    ;
}

impl<K> Matrix<K> {
    /// The storage holds exactly `rows * cols` scalars.
    pub open spec fn wf(&self) -> bool {
        self.data@.len() == self.rows * self.cols
    }

    /// The entry at row `r` and column `c`.
    pub open spec fn entry(&self, r: int, c: int) -> K {
        self.data@[r * self.cols + c]
    }

    /// Row `r`, from the first column to the last.
    pub open spec fn row(&self, r: int) -> Seq<K> {
        Seq::new(self.cols as nat, |c: int| self.entry(r, c))
    }

    /// Column `c`, from the first row to the last.
    pub open spec fn col(&self, c: int) -> Seq<K> {
        Seq::new(self.rows as nat, |r: int| self.entry(r, c))
    }

    /// Whether `other` has as many rows and as many columns.
    pub open spec fn same_shape(&self, other: &Matrix<K>) -> bool {
        self.rows == other.rows && self.cols == other.cols
    }

    /// The entry at row `r` and column `c`.
    pub(crate) fn cell(&self, r: usize, c: usize) -> (x: &K)
        requires
            self.wf(),
            r < self.rows,
            c < self.cols,
        ensures
            *x == self.entry(r as int, c as int),
    {
        let n: usize = self.data.len();
        proof {
            lemma_flat_index(self.rows as int, self.cols as int, r as int, c as int);
            assert(r * self.cols + c < n);
        }
        &self.data[r * self.cols + c]
    }
}

impl<K> View for Matrix<K> {
    type V = Seq<Seq<K>>;

    /// The rows, from the first to the last.
    open spec fn view(&self) -> Seq<Seq<K>> {
        Seq::new(self.rows as nat, |r: int| self.row(r))
    }
}

impl<K: KField> Matrix<K> {
    /// The matrix of the given rows.
    pub fn from(values: Vec<Vec<K>>) -> (r: Result<Matrix<K>, LinAlgError>)
        ensures
            is_rectangular(values@) ==> r is Ok && r->Ok_0.wf() && r->Ok_0.rows == values@.len()
                && r->Ok_0.cols == common_width(values@) && r->Ok_0@ == grid_of(values@),
            !is_rectangular(values@) ==> r == Err::<Matrix<K>, LinAlgError>(
                LinAlgError::IrregularShape,
            ),
    {
        let rows: usize = values.len();
        let cols: usize = if rows > 0 {
            values[0].len()
        } else {
            0
        };
        let mut data: Vec<K> = Vec::new();
        proof {
            lemma_row_start(cols as int, 0);
        }
        for r in 0..rows
            invariant
                rows == values@.len(),
                cols == common_width(values@),
                data@.len() == r * cols,
                forall|i: int| 0 <= i < r ==> (#[trigger] values@[i])@.len() == cols,
                forall|i: int, j: int|
                    0 <= i < r && 0 <= j < cols ==> data@[i * cols + j] == (#[trigger] values@[i]@[j]),
        {
            if values[r].len() != cols {
                return Err(LinAlgError::IrregularShape);
            }
            for c in 0..cols
                invariant
                    0 <= r < rows,
                    rows == values@.len(),
                    values@[r as int]@.len() == cols,
                    data@.len() == r * cols + c,
                    forall|i: int, j: int|
                        0 <= i < r && 0 <= j < cols ==> data@[i * cols + j] == (
                        #[trigger] values@[i]@[j]),
                    forall|j: int| 0 <= j < c ==> data@[r * cols + j] == values@[r as int]@[j],
            {
                let ghost before = data@;
                data.push(values[r][c]);
                proof {
                    assert forall|i: int, j: int| 0 <= i < r && 0 <= j < cols implies data@[i * cols
                        + j] == (#[trigger] values@[i]@[j]) by {
                        lemma_flat_index(r as int, cols as int, i, j);
                        assert(data@[i * cols + j] == before[i * cols + j]);
                    }
                }
            }
            proof {
                lemma_row_start(cols as int, r as int);
            }
        }
        let m = Matrix { data, rows, cols };
        proof {
            assert forall|r: int| 0 <= r < rows implies m@[r] =~= grid_of(values@)[r] by {
                assert(values@[r]@.len() == cols);
                assert forall|c: int| 0 <= c < cols implies m.row(r)[c] == values@[r]@[c] by {
                    assert(m.data@[r * cols + c] == values@[r]@[c]);
                }
            }
            assert(m@ =~= grid_of(values@));
        }
        Ok(m)
    }

    /// The number of rows and the number of columns.
    pub fn shape(&self) -> (s: (usize, usize))
        ensures
            s == (self.rows, self.cols),
    {
        (self.rows, self.cols)
    }

    /// The number of entries.
    pub fn size(&self) -> (n: usize)
        requires
            self.wf(),
        ensures
            n == self.rows * self.cols,
    {
        self.data.len()
    }

    /// Whether there are as many rows as columns.
    pub fn is_square(&self) -> (b: bool)
        ensures
            b == (self.rows == self.cols),
    {
        self.rows == self.cols
    }

    /// The image of `v` under this matrix: item `r` is the dot product of
    /// row `r` with `v`.
    pub open spec fn times_vector(&self, v: Seq<K>) -> Seq<K> {
        Seq::new(self.rows as nat, |r: int| algebra::dot(self.row(r), v))
    }

    /// The rows of the product with `other`: the entry at row `r` and column
    /// `c` is the dot product of row `r` of this matrix with column `c` of
    /// `other`.
    pub open spec fn times_matrix(&self, other: &Matrix<K>) -> Seq<Seq<K>> {
        Seq::new(
            self.rows as nat,
            |r: int| Seq::new(other.cols as nat, |c: int| algebra::dot(self.row(r), other.col(c))),
        )
    }

    /// Adds `m` to this matrix, entry by entry.
    pub fn add(&mut self, m: &Matrix<K>) -> (r: Result<(), LinAlgError>)
        requires
            old(self).wf(),
            m.wf(),
        ensures
            final(self).wf(),
            final(self).same_shape(old(self)),
            old(self).same_shape(m) ==> r == Ok::<(), LinAlgError>(()) && final(self).data@
                == algebra::pointwise_plus(old(self).data@, m.data@),
            !old(self).same_shape(m) ==> r == Err::<(), LinAlgError>(
                LinAlgError::DimensionMismatch,
            ) && final(self).data@ == old(self).data@,
    {
        if self.rows != m.rows || self.cols != m.cols {
            return Err(LinAlgError::DimensionMismatch);
        }
        let n: usize = self.data.len();
        for i in 0..n
            invariant
                n == self.data@.len(),
                n == m.data@.len(),
                n == old(self).data@.len(),
                self.rows == old(self).rows,
                self.cols == old(self).cols,
                forall|j: int| 0 <= j < i ==> self.data@[j] == old(self).data@[j].plus(m.data@[j]),
                forall|j: int| i <= j < n ==> self.data@[j] == old(self).data@[j],
        {
            self.data[i] = self.data[i].add(m.data[i]);
        }
        assert(self.data@ =~= algebra::pointwise_plus(old(self).data@, m.data@));
        Ok(())
    }

    /// Subtracts `m` from this matrix, entry by entry.
    pub fn sub(&mut self, m: &Matrix<K>) -> (r: Result<(), LinAlgError>)
        requires
            old(self).wf(),
            m.wf(),
        ensures
            final(self).wf(),
            final(self).same_shape(old(self)),
            old(self).same_shape(m) ==> r == Ok::<(), LinAlgError>(()) && final(self).data@
                == algebra::pointwise_minus(old(self).data@, m.data@),
            !old(self).same_shape(m) ==> r == Err::<(), LinAlgError>(
                LinAlgError::DimensionMismatch,
            ) && final(self).data@ == old(self).data@,
    {
        if self.rows != m.rows || self.cols != m.cols {
            return Err(LinAlgError::DimensionMismatch);
        }
        let n: usize = self.data.len();
        for i in 0..n
            invariant
                n == self.data@.len(),
                n == m.data@.len(),
                n == old(self).data@.len(),
                self.rows == old(self).rows,
                self.cols == old(self).cols,
                forall|j: int| 0 <= j < i ==> self.data@[j] == old(self).data@[j].minus(m.data@[j]),
                forall|j: int| i <= j < n ==> self.data@[j] == old(self).data@[j],
        {
            self.data[i] = self.data[i].sub(m.data[i]);
        }
        assert(self.data@ =~= algebra::pointwise_minus(old(self).data@, m.data@));
        Ok(())
    }

    /// Multiplies every entry by `a`.
    pub fn scl(&mut self, a: K)
        requires
            old(self).wf(),
        ensures
            final(self).wf(),
            final(self).same_shape(old(self)),
            final(self).data@ == algebra::scaled(old(self).data@, a),
    {
        let n: usize = self.data.len();
        for i in 0..n
            invariant
                n == self.data@.len(),
                n == old(self).data@.len(),
                self.rows == old(self).rows,
                self.cols == old(self).cols,
                forall|j: int| 0 <= j < i ==> self.data@[j] == old(self).data@[j].times(a),
                forall|j: int| i <= j < n ==> self.data@[j] == old(self).data@[j],
        {
            self.data[i] = self.data[i].mul(a);
        }
        assert(self.data@ =~= algebra::scaled(old(self).data@, a));
    }

    /// The linear interpolation `u + (v - u) * t`, entry by entry. Any `t`
    /// is accepted, also one outside of zero to one.
    pub fn lerp(u: &Matrix<K>, v: &Matrix<K>, t: K) -> (r: Result<Matrix<K>, LinAlgError>)
        requires
            u.wf(),
            v.wf(),
        ensures
            u.same_shape(v) ==> r is Ok && r->Ok_0.wf() && r->Ok_0.same_shape(u) && r->Ok_0.data@
                == algebra::pointwise_lerp(u.data@, v.data@, t),
            !u.same_shape(v) ==> r == Err::<Matrix<K>, LinAlgError>(
                LinAlgError::DimensionMismatch,
            ),
    {
        if u.rows != v.rows || u.cols != v.cols {
            return Err(LinAlgError::DimensionMismatch);
        }
        Ok(Matrix { data: lerp_all(&u.data, &v.data, t), rows: u.rows, cols: u.cols })
    }

    /// The dot product of row `r` with `v`.
    fn row_dot(&self, r: usize, v: &Vector<K>) -> (x: K)
        requires
            self.wf(),
            r < self.rows,
            v@.len() == self.cols,
        ensures
            x == algebra::dot(self.row(r as int), v@),
    {
        let ghost terms = algebra::pointwise_times(self.row(r as int), v@);
        let mut acc = K::zero();
        for c in 0..self.cols
            invariant
                self.wf(),
                r < self.rows,
                v@.len() == self.cols,
                terms == algebra::pointwise_times(self.row(r as int), v@),
                acc == algebra::sum(terms.take(c as int)),
        {
            proof {
                algebra::lemma_sum_step(terms, c as int);
            }
            acc = acc.add(self.cell(r, c).mul(v.data[c]));
        }
        assert(terms.take(self.cols as int) =~= terms);
        acc
    }

    /// The dot product of row `r` with column `c` of `other`.
    fn row_dot_col(&self, r: usize, other: &Matrix<K>, c: usize) -> (x: K)
        requires
            self.wf(),
            other.wf(),
            r < self.rows,
            c < other.cols,
            self.cols == other.rows,
        ensures
            x == algebra::dot(self.row(r as int), other.col(c as int)),
    {
        let ghost terms = algebra::pointwise_times(self.row(r as int), other.col(c as int));
        let mut acc = K::zero();
        for k in 0..self.cols
            invariant
                self.wf(),
                other.wf(),
                r < self.rows,
                c < other.cols,
                self.cols == other.rows,
                terms == algebra::pointwise_times(self.row(r as int), other.col(c as int)),
                acc == algebra::sum(terms.take(k as int)),
        {
            proof {
                algebra::lemma_sum_step(terms, k as int);
            }
            acc = acc.add(self.cell(r, k).mul(*other.cell(k, c)));
        }
        assert(terms.take(self.cols as int) =~= terms);
        acc
    }

    /// The image of `v` under this matrix, a vector of `rows` components.
    pub fn mul_vec(&self, v: &Vector<K>) -> (r: Result<Vector<K>, LinAlgError>)
        requires
            self.wf(),
        ensures
            v@.len() == self.cols ==> r is Ok && r->Ok_0@ == self.times_vector(v@),
            v@.len() != self.cols ==> r == Err::<Vector<K>, LinAlgError>(
                LinAlgError::ShapeIncompatible,
            ),
    {
        if v.data.len() != self.cols {
            return Err(LinAlgError::ShapeIncompatible);
        }
        let mut data: Vec<K> = Vec::new();
        for r in 0..self.rows
            invariant
                self.wf(),
                v@.len() == self.cols,
                data@.len() == r,
                forall|i: int| 0 <= i < r ==> data@[i] == algebra::dot(self.row(i), v@),
        {
            data.push(self.row_dot(r, v));
        }
        assert(data@ =~= self.times_vector(v@));
        Ok(Vector { data })
    }

    /// The product of this matrix with `other`, of `rows` by `other.cols`.
    pub fn mul_mat(&self, other: &Matrix<K>) -> (r: Result<Matrix<K>, LinAlgError>)
        requires
            self.wf(),
            other.wf(),
        ensures
            self.cols == other.rows ==> r is Ok && r->Ok_0.wf() && r->Ok_0.rows == self.rows
                && r->Ok_0.cols == other.cols && r->Ok_0@ == self.times_matrix(other),
            self.cols != other.rows ==> r == Err::<Matrix<K>, LinAlgError>(
                LinAlgError::ShapeIncompatible,
            ),
    {
        if self.cols != other.rows {
            return Err(LinAlgError::ShapeIncompatible);
        }
        let rows: usize = self.rows;
        let cols: usize = other.cols;
        let mut data: Vec<K> = Vec::new();
        proof {
            lemma_row_start(cols as int, 0);
        }
        for r in 0..rows
            invariant
                self.wf(),
                other.wf(),
                self.cols == other.rows,
                rows == self.rows,
                cols == other.cols,
                data@.len() == r * cols,
                forall|i: int, j: int|
                    0 <= i < r && 0 <= j < cols ==> data@[i * cols + j] == #[trigger] algebra::dot(
                        self.row(i),
                        other.col(j),
                    ),
        {
            for c in 0..cols
                invariant
                    self.wf(),
                    other.wf(),
                    self.cols == other.rows,
                    rows == self.rows,
                    cols == other.cols,
                    0 <= r < rows,
                    data@.len() == r * cols + c,
                    forall|i: int, j: int|
                        0 <= i < r && 0 <= j < cols ==> data@[i * cols + j]
                            == #[trigger] algebra::dot(self.row(i), other.col(j)),
                    forall|j: int|
                        0 <= j < c ==> data@[r * cols + j] == algebra::dot(
                            self.row(r as int),
                            other.col(j),
                        ),
            {
                let ghost before = data@;
                data.push(self.row_dot_col(r, other, c));
                proof {
                    assert forall|i: int, j: int| 0 <= i < r && 0 <= j < cols implies data@[i * cols
                        + j] == #[trigger] algebra::dot(self.row(i), other.col(j)) by {
                        lemma_flat_index(r as int, cols as int, i, j);
                        assert(data@[i * cols + j] == before[i * cols + j]);
                    }
                }
            }
            proof {
                lemma_row_start(cols as int, r as int);
            }
        }
        let m = Matrix { data, rows, cols };
        proof {
            assert forall|r: int| 0 <= r < rows implies m@[r] =~= self.times_matrix(other)[r] by {
                assert forall|c: int| 0 <= c < cols implies m.row(r)[c] == algebra::dot(
                    self.row(r),
                    other.col(c),
                ) by {
                    assert(m.data@[r * cols + c] == algebra::dot(self.row(r), other.col(c)));
                }
            }
            assert(m@ =~= self.times_matrix(other));
        }
        Ok(m)
    }
}

} // verus!
