//! A small dense matrix type: construction, shape queries and transposition.

use vstd::prelude::*;
use crate::scalar::Scalar;

verus! {

/// A two-dimensional array of values with an optional cached shape; the
/// shape is absent exactly when there are no rows.
pub struct Matrix<T> {
    pub data: Vec<Vec<T>>,
    pub shape: Option<(usize, usize)>,
}

/// The column count a row-major array reports: the first row's length, or
/// zero without rows.
pub open spec fn spec_cols<T>(d: Seq<Vec<T>>) -> int {
    if d.len() == 0 {
        0
    } else {
        d[0]@.len() as int
    }
}

impl<T: Copy> Matrix<T> {
    /// A matrix over the given rows; the shape is recorded from the row
    /// count and the first row.
    pub fn new(data: Vec<Vec<T>>) -> (r: Self)
        ensures
            r.data == data,
            data@.len() == 0 ==> r.shape is None,
            data@.len() > 0 ==> r.shape == Some(
                (data@.len() as usize, data@[0]@.len() as usize),
            ),
    {
        let shape = if data.len() == 0 {
            None
        } else {
            Some((data.len(), data[0].len()))
        };
        Matrix { data, shape }
    }

    /// A matrix copied out of a borrowed slice of rows.
    pub fn from_slice(slice: &[Vec<T>]) -> (r: Self)
        ensures
            r.data@.len() == slice@.len(),
            forall|i: int| 0 <= i < slice@.len() ==> #[trigger] r.data@[i]@ == slice@[i]@,
            slice@.len() == 0 ==> r.shape is None,
            slice@.len() > 0 ==> r.shape == Some((slice@.len() as usize, slice@[0]@.len() as usize)),
    {
        let mut rows: Vec<Vec<T>> = Vec::new();
        let mut i: usize = 0;
        while i < slice.len()
            invariant
                i <= slice@.len(),
                rows@.len() == i,
                forall|ii: int| 0 <= ii < i ==> #[trigger] rows@[ii]@ == slice@[ii]@,
            decreases slice@.len() - i,
        {
            let src = &slice[i];
            let mut row: Vec<T> = Vec::new();
            let mut j: usize = 0;
            while j < src.len()
                invariant
                    j <= src@.len(),
                    row@.len() == j,
                    forall|jj: int| 0 <= jj < j ==> row@[jj] == src@[jj],
                decreases src@.len() - j,
            {
                row.push(src[j]);
                j = j + 1;
            }
            proof {
                assert(row@ =~= src@);
            }
            rows.push(row);
            i = i + 1;
        }
        Matrix::new(rows)
    }

    /// A deep copy of the rows.
    pub fn to_vec(&self) -> (r: Vec<Vec<T>>)
        ensures
            r@.len() == self.data@.len(),
            forall|i: int| 0 <= i < r@.len() ==> #[trigger] r@[i]@ == self.data@[i]@,
    {
        let mut rows: Vec<Vec<T>> = Vec::new();
        let mut i: usize = 0;
        while i < self.data.len()
            invariant
                i <= self.data@.len(),
                rows@.len() == i,
                forall|ii: int| 0 <= ii < i ==> #[trigger] rows@[ii]@ == self.data@[ii]@,
            decreases self.data@.len() - i,
        {
            let src = &self.data[i];
            let mut row: Vec<T> = Vec::new();
            let mut j: usize = 0;
            while j < src.len()
                invariant
                    j <= src@.len(),
                    row@.len() == j,
                    forall|jj: int| 0 <= jj < j ==> row@[jj] == src@[jj],
                decreases src@.len() - j,
            {
                row.push(src[j]);
                j = j + 1;
            }
            proof {
                assert(row@ =~= self.data@[i as int]@);
            }
            rows.push(row);
            i = i + 1;
        }
        rows
    }

    /// The row and column counts, read from the rows themselves.
    pub fn size(&self) -> (r: (usize, usize))
        ensures
            r.0 == self.data@.len(),
            r.1 as int == spec_cols(self.data@),
    {
        (
            self.data.len(),
            if self.data.len() > 0 {
                self.data[0].len()
            } else {
                0
            },
        )
    }

    /// Whether the recorded shape is square; a matrix without rows is not.
    pub fn is_square(&self) -> (r: bool)
        ensures
            r == (match self.shape {
                Some(rc) => rc.0 == rc.1,
                None => false,
            }),
    {
        match self.shape {
            Some((rows, cols)) => rows == cols,
            None => false,
        }
    }

    /// The transposed matrix: as many rows as the receiver has columns,
    /// with entry (j, i) taken from entry (i, j).
    pub fn transpose(&mut self) -> (r: Matrix<T>)
        requires
            forall|i: int| 0 <= i < old(self).data@.len() ==> #[trigger] old(self).data@[i]@.len()
                == spec_cols(old(self).data@),
        ensures
            *final(self) == *old(self),
            r.data@.len() == spec_cols(old(self).data@),
            forall|j: int| 0 <= j < r.data@.len() ==> #[trigger] r.data@[j]@.len() == old(
                self,
            ).data@.len(),
            forall|j: int, i: int|
                0 <= j < r.data@.len() && 0 <= i < old(self).data@.len()
                    ==> #[trigger] r.data@[j]@[i] == old(self).data@[i]@[j],
            r.data@.len() == 0 ==> r.shape is None,
            r.data@.len() > 0 ==> r.shape == Some(
                (r.data@.len() as usize, old(self).data@.len() as usize),
            ),
    {
        let cols = if self.data.len() > 0 {
            self.data[0].len()
        } else {
            0
        };
        let rows = self.data.len();
        let mut transposed: Vec<Vec<T>> = Vec::new();
        let mut j: usize = 0;
        while j < cols
            invariant
                j <= cols,
                rows == self.data@.len(),
                cols as int == spec_cols(self.data@),
                forall|i: int| 0 <= i < self.data@.len() ==> #[trigger] self.data@[i]@.len()
                    == cols,
                transposed@.len() == j,
                forall|jj: int| 0 <= jj < j ==> #[trigger] transposed@[jj]@.len() == rows,
                forall|jj: int, i: int|
                    0 <= jj < j && 0 <= i < rows ==> #[trigger] transposed@[jj]@[i]
                        == self.data@[i]@[jj],
            decreases cols - j,
        {
            let mut col: Vec<T> = Vec::new();
            let mut i: usize = 0;
            while i < rows
                invariant
                    i <= rows,
                    j < cols,
                    rows == self.data@.len(),
                    forall|ii: int| 0 <= ii < self.data@.len() ==> #[trigger] self.data@[ii]@.len()
                        == cols,
                    col@.len() == i,
                    forall|ii: int| 0 <= ii < i ==> col@[ii] == self.data@[ii]@[j as int],
                decreases rows - i,
            {
                let rowref = &self.data[i];
                col.push(rowref[j]);
                i = i + 1;
            }
            transposed.push(col);
            j = j + 1;
        }
        Matrix::new(transposed)
    }
}

impl<T: Scalar> Matrix<T> {
    /// A rows-by-cols matrix of zero scalars.
    pub fn zeros(rows: usize, cols: usize) -> (r: Self)
        ensures
            r.data@.len() == rows,
            forall|i: int| 0 <= i < rows ==> #[trigger] r.data@[i]@.len() == cols,
            forall|i: int, j: int|
                0 <= i < rows && 0 <= j < cols ==> #[trigger] r.data@[i]@[j] == T::spec_zero(),
    {
        let mut data: Vec<Vec<T>> = Vec::new();
        let mut i: usize = 0;
        while i < rows
            invariant
                i <= rows,
                data@.len() == i,
                forall|ii: int| 0 <= ii < i ==> #[trigger] data@[ii]@.len() == cols,
                forall|ii: int, j: int|
                    0 <= ii < i && 0 <= j < cols ==> #[trigger] data@[ii]@[j] == T::spec_zero(),
            decreases rows - i,
        {
            let mut row: Vec<T> = Vec::new();
            let mut j: usize = 0;
            while j < cols
                invariant
                    j <= cols,
                    row@.len() == j,
                    forall|jj: int| 0 <= jj < j ==> row@[jj] == T::spec_zero(),
                decreases cols - j,
            {
                row.push(T::zero());
                j = j + 1;
            }
            data.push(row);
            i = i + 1;
        }
        Matrix::new(data)
    }

    /// A rows-by-cols matrix of unit scalars.
    pub fn ones(rows: usize, cols: usize) -> (r: Self)
        ensures
            r.data@.len() == rows,
            forall|i: int| 0 <= i < rows ==> #[trigger] r.data@[i]@.len() == cols,
            forall|i: int, j: int|
                0 <= i < rows && 0 <= j < cols ==> #[trigger] r.data@[i]@[j] == T::spec_one(),
    {
        let mut data: Vec<Vec<T>> = Vec::new();
        let mut i: usize = 0;
        while i < rows
            invariant
                i <= rows,
                data@.len() == i,
                forall|ii: int| 0 <= ii < i ==> #[trigger] data@[ii]@.len() == cols,
                forall|ii: int, j: int|
                    0 <= ii < i && 0 <= j < cols ==> #[trigger] data@[ii]@[j] == T::spec_one(),
            decreases rows - i,
        {
            let mut row: Vec<T> = Vec::new();
            let mut j: usize = 0;
            while j < cols
                invariant
                    j <= cols,
                    row@.len() == j,
                    forall|jj: int| 0 <= jj < j ==> row@[jj] == T::spec_one(),
                decreases cols - j,
            {
                row.push(T::one());
                j = j + 1;
            }
            data.push(row);
            i = i + 1;
        }
        Matrix::new(data)
    }

    /// The square identity matrix: unit scalars on the diagonal and zero
    /// scalars elsewhere.
    pub fn identity(size: usize) -> (r: Self)
        ensures
            r.data@.len() == size,
            forall|i: int| 0 <= i < size ==> #[trigger] r.data@[i]@.len() == size,
            forall|i: int, j: int|
                0 <= i < size && 0 <= j < size ==> #[trigger] r.data@[i]@[j] == (if i == j {
                    T::spec_one()
                } else {
                    T::spec_zero()
                }),
    {
        let mut data: Vec<Vec<T>> = Vec::new();
        let mut i: usize = 0;
        while i < size
            invariant
                i <= size,
                data@.len() == i,
                forall|ii: int| 0 <= ii < i ==> #[trigger] data@[ii]@.len() == size,
                forall|ii: int, j: int|
                    0 <= ii < i && 0 <= j < size ==> #[trigger] data@[ii]@[j] == (if ii == j {
                        T::spec_one()
                    } else {
                        T::spec_zero()
                    }),
            decreases size - i,
        {
            let mut row: Vec<T> = Vec::new();
            let mut j: usize = 0;
            while j < size
                invariant
                    j <= size,
                    i < size,
                    row@.len() == j,
                    forall|jj: int|
                        0 <= jj < j ==> row@[jj] == (if i as int == jj {
                            T::spec_one()
                        } else {
                            T::spec_zero()
                        }),
                decreases size - j,
            {
                if j == i {
                    row.push(T::one());
                } else {
                    row.push(T::zero());
                }
                j = j + 1;
            }
            data.push(row);
            i = i + 1;
        }
        Matrix::new(data)
    }
}

} // verus!
