//! A rectangular matrix stored flat in row-major order, walked either by
//! rows or by columns through explicit cursors.

use vstd::prelude::*;
use vstd::arithmetic::div_mod::lemma_fundamental_div_mod;
use vstd::arithmetic::div_mod::lemma_mod_bound;
use vstd::arithmetic::mul::lemma_mul_inequality;

verus! {

/// `rows * cols` elements, row by row, left to right.
pub struct Matrix<T> {
    data: Vec<T>,
    rows: usize,
    cols: usize,
}

impl<T> Matrix<T> {
    /// The flat row-major contents.
    pub closed spec fn spec_data(&self) -> Seq<T> {
        self.data@
    }

    pub closed spec fn spec_rows(&self) -> int {
        self.rows as int
    }

    pub closed spec fn spec_cols(&self) -> int {
        self.cols as int
    }

    /// The stored data fills the rectangle exactly.
    pub closed spec fn wf(&self) -> bool {
        self.data@.len() == self.rows * self.cols
    }
}

impl<T: Clone> Matrix<T> {
    /// Builds the matrix from a row-major slice of exactly `rows * cols`
    /// elements, cloning each one.
    pub fn new(rows: usize, cols: usize, data: &[T]) -> (m: Matrix<T>)
        requires
            data@.len() == rows * cols,
        ensures
            m.wf(),
            m.spec_rows() == rows,
            m.spec_cols() == cols,
            m.spec_data().len() == data@.len(),
            forall|i: int| 0 <= i < data@.len() ==> cloned::<T>(data@[i], #[trigger] m.spec_data()[i]),
    {
        let mut owned: Vec<T> = Vec::new();
        let n = data.len();
        let mut i: usize = 0;
        while i < n
            invariant
                n == data@.len(),
                i <= n,
                owned@.len() == i,
                forall|j: int| 0 <= j < i ==> cloned::<T>(data@[j], #[trigger] owned@[j]),
            decreases n - i,
        {
            owned.push(data[i].clone());
            i = i + 1;
        }
        Matrix { data: owned, rows, cols }
    }

    /// A cursor over the elements in row-major order: rows top to bottom,
    /// each left to right.
    pub fn by_row(&self) -> (it: RowIter<T>)
        ensures
            it.spec_matrix() == self,
            it.spec_index() == 0,
    {
        RowIter { matrix: self, current_index: 0 }
    }

    /// A cursor over the elements in column-major order: columns left to
    /// right, each top to bottom.
    pub fn by_col(&self) -> (it: ColIter<T>)
        ensures
            it.spec_matrix() == self,
            it.spec_index() == 0,
    {
        ColIter { matrix: self, current_index: 0 }
    }
}

/// A row-major cursor: yields element `k` of the flat data at step `k`.
pub struct RowIter<'a, T> {
    matrix: &'a Matrix<T>,
    current_index: usize,
}

/// A column-major cursor: at step `k` it yields the element in row
/// `k % rows` and column `k / rows` of the flat row-major data.
pub struct ColIter<'a, T> {
    matrix: &'a Matrix<T>,
    current_index: usize,
}

impl<'a, T> RowIter<'a, T> {
    pub closed spec fn spec_matrix(&self) -> &'a Matrix<T> {
        self.matrix
    }

    pub closed spec fn spec_index(&self) -> int {
        self.current_index as int
    }
}

impl<'a, T> ColIter<'a, T> {
    pub closed spec fn spec_matrix(&self) -> &'a Matrix<T> {
        self.matrix
    }

    pub closed spec fn spec_index(&self) -> int {
        self.current_index as int
    }
}

impl<'a, T: Clone> RowIter<'a, T> {
    /// The next element in row-major order, or nothing once every element
    /// has been yielded.
    pub fn next(&mut self) -> (r: Option<&'a T>)
        ensures
            final(self).spec_matrix() == old(self).spec_matrix(),
            old(self).spec_index() < old(self).spec_matrix().spec_data().len() ==> {
                &&& r matches Some(x) && *x == old(self).spec_matrix().spec_data()[old(
                    self,
                ).spec_index()]
                &&& final(self).spec_index() == old(self).spec_index() + 1
            },
            old(self).spec_index() >= old(self).spec_matrix().spec_data().len() ==> r is None
                && *final(self) == *old(self),
    {
        if self.current_index < self.matrix.data.len() {
            self.current_index = self.current_index + 1;
            Some(&self.matrix.data[self.current_index - 1])
        } else {
            None
        }
    }
}

impl<'a, T: Clone> ColIter<'a, T> {
    /// The next element in column-major order: step `k` yields the flat
    /// element `k / rows + (k % rows) * cols`, or nothing after `len`
    /// steps.
    pub fn next(&mut self) -> (r: Option<&'a T>)
        requires
            old(self).spec_matrix().wf(),
        ensures
            final(self).spec_matrix() == old(self).spec_matrix(),
            old(self).spec_index() < old(self).spec_matrix().spec_data().len() ==> {
                &&& r matches Some(x) && *x == old(self).spec_matrix().spec_data()[old(
                    self,
                ).spec_index() / old(self).spec_matrix().spec_rows() + (old(self).spec_index()
                    % old(self).spec_matrix().spec_rows()) * old(self).spec_matrix().spec_cols()]
                &&& final(self).spec_index() == old(self).spec_index() + 1
            },
            old(self).spec_index() >= old(self).spec_matrix().spec_data().len() ==> r is None
                && *final(self) == *old(self),
    {
        if self.current_index < self.matrix.data.len() {
            let rows = self.matrix.rows;
            let cols = self.matrix.cols;
            let k = self.current_index;
            proof {
                let ki = k as int;
                let r = rows as int;
                let c = cols as int;
                assert(r * c == self.matrix.data@.len());
                assert(r > 0 && c > 0) by {
                    if r <= 0 || c <= 0 {
                        assert(r * c <= 0) by (nonlinear_arith)
                            requires
                                r >= 0,
                                c >= 0,
                                r <= 0 || c <= 0,
                        ;
                    }
                }
                lemma_fundamental_div_mod(ki, r);
                lemma_mod_bound(ki, r);
                assert(ki / r < c) by (nonlinear_arith)
                    requires
                        r > 0,
                        c > 0,
                        ki >= 0,
                        ki < r * c,
                        ki == r * (ki / r) + (ki % r),
                        0 <= ki % r < r,
                ;
                lemma_mul_inequality(ki % r, r - 1, c);
                assert((r - 1) * c == r * c - c) by (nonlinear_arith);
                assert(ki / r + (ki % r) * c < r * c);
            }
            let quotient = k / rows;
            let remainder = k % rows;
            self.current_index = self.current_index + 1;
            Some(&self.matrix.data[quotient + remainder * cols])
        } else {
            None
        }
    }
}

} // verus!
