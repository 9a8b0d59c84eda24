use vstd::arithmetic::div_mod::lemma_fundamental_div_mod_converse;
use vstd::prelude::*;

use crate::dimensions::Dimensions;
use crate::error::ErrorKind;

verus! {

/// The mathematical view of a vector of entries.
pub open spec fn ints_of(s: Seq<i64>) -> Seq<int> {
    s.map(|_k: int, v: i64| v as int)
}

/// The sequence of `n` copies of `v`: what the entries of a constant
/// matrix are.
pub open spec fn const_seq(n: nat, v: int) -> Seq<int> {
    Seq::new(n, |_k: int| v)
}

/// Entry (i, j) of the identity pattern: 1 on the main diagonal, 0 off
/// it.
pub open spec fn id_entry(i: int, j: int) -> int {
    if i == j {
        1
    } else {
        0
    }
}

/// The row-major entries of the n-by-n identity matrix.
pub open spec fn id_seq(n: int) -> Seq<int> {
    Seq::new((n * n) as nat, |t: int| id_entry(t / n, t % n))
}

/// The row-major entries of the transpose of a rows-by-columns matrix
/// whose row-major entries are `buf`: position t of the result holds
/// the original entry at row t % rows, column t / rows.
pub open spec fn tr_seq(buf: Seq<int>, rows: int, cols: int) -> Seq<int> {
    Seq::new((rows * cols) as nat, |t: int| buf[(t % rows) * cols + t / rows])
}

/// In a rows-by-columns row-major buffer, entry (i, j) sits at index
/// `i * columns + j`; that index is in range, and it determines i and j
/// back by division and remainder.
pub proof fn lemma_row_major_index(i: int, j: int, rows: int, cols: int)
    requires
        0 <= i < rows,
        0 <= j < cols,
    ensures
        0 <= i * cols + j < rows * cols,
        (i * cols + j) / cols == i,
        (i * cols + j) % cols == j,
{
    assert(0 <= i * cols + j < rows * cols) by (nonlinear_arith)
        requires
            0 <= i < rows,
            0 <= j < cols,
    ;
    lemma_fundamental_div_mod_converse(i * cols + j, cols, i, j);
}

/// Distinct positions give distinct row-major indices.
pub proof fn lemma_row_major_injective(i1: int, j1: int, i2: int, j2: int, rows: int, cols: int)
    requires
        0 <= i1 < rows,
        0 <= j1 < cols,
        0 <= i2 < rows,
        0 <= j2 < cols,
        i1 * cols + j1 == i2 * cols + j2,
    ensures
        i1 == i2 && j1 == j2,
{
    lemma_row_major_index(i1, j1, rows, cols);
    lemma_row_major_index(i2, j2, rows, cols);
}

/// A valid row-major index t in a rows-by-columns buffer addresses row
/// t / cols and column t % cols.
pub proof fn lemma_index_to_rc(t: int, rows: int, cols: int)
    requires
        0 <= t < rows * cols,
        0 < cols,
    ensures
        0 <= t / cols < rows,
        0 <= t % cols < cols,
        t == (t / cols) * cols + t % cols,
{
    vstd::arithmetic::div_mod::lemma_fundamental_div_mod(t, cols);
    vstd::arithmetic::div_mod::lemma_mod_bound(t, cols);
    vstd::arithmetic::mul::lemma_mul_is_commutative(cols, t / cols);
    vstd::arithmetic::mul::lemma_mul_is_commutative(rows, cols);
    vstd::arithmetic::div_mod::lemma_multiply_divide_lt(t, cols, rows);
    vstd::arithmetic::div_mod::lemma_div_pos_is_pos(t, cols);
}

/// A dense matrix of exact integer entries, stored as one flat
/// row-major buffer together with its shape. Every live matrix keeps
/// the buffer length equal to the entry count its shape calls for.
#[derive(Debug, Clone)]
pub struct Matrix {
    /// The flat row-major backing store. Specifications speak of it
    /// through [`Matrix::entries`]; every operation of the library
    /// keeps its length equal to `dimensions.spec_count()`.
    pub buffer: Vec<i64>,
    /// The dimensions of the matrix.
    pub dimensions: Dimensions,
}

impl Matrix {
    /// The entries, row-major, as mathematical integers.
    pub open spec fn entries(self) -> Seq<int> {
        ints_of(self.buffer@)
    }

    /// Number of rows.
    pub open spec fn nrows(self) -> int {
        self.dimensions.spec_rows() as int
    }

    /// Number of columns.
    pub open spec fn ncols(self) -> int {
        self.dimensions.spec_columns() as int
    }

    /// The invariant of every live matrix: the buffer holds exactly
    /// rows times columns entries.
    pub open spec fn wf(self) -> bool {
        self.entries().len() == self.nrows() * self.ncols()
    }

    /// Whether (i, j) addresses an entry.
    pub open spec fn valid_rc(self, i: int, j: int) -> bool {
        0 <= i < self.nrows() && 0 <= j < self.ncols()
    }

    /// Entry (i, j), read from the row-major buffer.
    pub open spec fn entry(self, i: int, j: int) -> int {
        self.entries()[i * self.ncols() + j]
    }

    /// The i-th row as a sequence of entries.
    pub open spec fn row_seq(self, i: int) -> Seq<int> {
        Seq::new(self.dimensions.spec_columns(), |j: int| self.entry(i, j))
    }

    /// The j-th column as a sequence of entries.
    pub open spec fn col_seq(self, j: int) -> Seq<int> {
        Seq::new(self.dimensions.spec_rows(), |i: int| self.entry(i, j))
    }

    /// Builds a matrix from an already validated buffer: the length
    /// must match the shape exactly.
    pub(crate) fn from_parts(buffer: Vec<i64>, dimensions: Dimensions) -> (r: Matrix)
        requires
            buffer@.len() == dimensions.spec_count(),
        ensures
            r.wf(),
            r.dimensions == dimensions,
            r.entries() == ints_of(buffer@),
    {
        Matrix { buffer, dimensions }
    }

    /// Builds a matrix from a raw row-major buffer and a declared
    /// shape; reports a dimension mismatch if and only if the buffer
    /// length differs from the entry count the shape calls for.
    pub fn from_buffer(buffer: Vec<i64>, dimensions: Dimensions) -> (r: Result<Matrix, ErrorKind>)
        ensures
            match r {
                Ok(m) => {
                    &&& buffer@.len() == dimensions.spec_count()
                    &&& m.wf()
                    &&& m.dimensions == dimensions
                    &&& m.entries() == ints_of(buffer@)
                },
                Err(e) => buffer@.len() != dimensions.spec_count() && e is DimensionsIncorrct,
            },
    {
        let rows = dimensions.rows();
        let columns = dimensions.columns();
        let len = buffer.len();
        let matches_len = match rows.checked_mul(columns) {
            Some(count) => count == len,
            None => false,
        };
        if !matches_len {
            return Err(
                ErrorKind::DimensionsIncorrct("Dimensions don't match the input size.".to_string()),
            );
        }
        Ok(Matrix { buffer, dimensions })
    }

    /// Builds a matrix from nested rows, top to bottom. All rows must
    /// have the same length and at least one row must be given;
    /// otherwise a dimension mismatch is reported. The shape is derived
    /// from the row count and the row length, collapsing to the square
    /// variant when they agree.
    pub fn try_from_rows(collection: Vec<Vec<i64>>) -> (r: Result<Matrix, ErrorKind>)
        ensures
            match r {
                Ok(m) => {
                    &&& collection@.len() > 0
                    &&& forall|i: int|
                        0 <= i < collection@.len() ==> #[trigger] collection@[i]@.len()
                            == collection@[0]@.len()
                    &&& m.wf()
                    &&& m.nrows() == collection@.len()
                    &&& m.ncols() == collection@[0]@.len()
                    &&& m.dimensions == Dimensions::spec_of_pair(
                        collection@.len() as usize,
                        collection@[0]@.len() as usize,
                    )
                    &&& forall|i: int, j: int|
                        m.valid_rc(i, j) ==> m.entry(i, j) == collection@[i]@[j]
                },
                Err(e) => {
                    &&& (collection@.len() == 0 || exists|i: int|
                        0 <= i < collection@.len() && #[trigger] collection@[i]@.len()
                            != collection@[0]@.len())
                    &&& e is DimensionsIncorrct
                },
            },
    {
        if collection.len() == 0 {
            return Err(ErrorKind::DimensionsIncorrct("Row sizes should be equal.".to_string()));
        }
        let rows_n = collection.len();
        let cols_n = collection[0].len();
        let mut k: usize = 0;
        while k < rows_n
            invariant
                k <= rows_n,
                rows_n == collection@.len(),
                cols_n == collection@[0]@.len(),
                forall|i: int| 0 <= i < k ==> #[trigger] collection@[i]@.len() == cols_n,
            decreases rows_n - k,
        {
            if collection[k].len() != cols_n {
                return Err(
                    ErrorKind::DimensionsIncorrct("Row sizes should be equal.".to_string()),
                );
            }
            k = k + 1;
        }
        let ghost c = cols_n as int;
        let mut buffer: Vec<i64> = Vec::new();
        let mut i: usize = 0;
        while i < rows_n
            invariant
                i <= rows_n,
                rows_n == collection@.len(),
                cols_n == collection@[0]@.len(),
                forall|i2: int| 0 <= i2 < rows_n ==> #[trigger] collection@[i2]@.len() == cols_n,
                c == cols_n as int,
                buffer@.len() == i * cols_n,
                forall|t: int|
                    0 <= t < buffer@.len() ==> buffer@[t] as int == collection@[t / c]@[t % c],
            decreases rows_n - i,
        {
            let mut j: usize = 0;
            while j < cols_n
                invariant
                    j <= cols_n,
                    i < rows_n,
                    rows_n == collection@.len(),
                    cols_n == collection@[0]@.len(),
                    c == cols_n as int,
                    forall|i2: int| 0 <= i2 < rows_n ==> #[trigger] collection@[i2]@.len() == cols_n,
                    buffer@.len() == i * cols_n + j,
                    forall|t: int|
                        0 <= t < buffer@.len() ==> buffer@[t] as int == collection@[t / c]@[t % c],
                decreases cols_n - j,
            {
                proof {
                    lemma_fundamental_div_mod_converse(
                        i as int * c + j as int,
                        c,
                        i as int,
                        j as int,
                    );
                }
                buffer.push(collection[i][j]);
                j = j + 1;
            }
            proof {
                assert((i as int + 1) * c == i as int * c + c) by (nonlinear_arith);
            }
            i = i + 1;
        }
        let dimensions = Dimensions::from((rows_n, cols_n));
        let m = Matrix { buffer, dimensions };
        proof {
            assert forall|i2: int, j2: int| m.valid_rc(i2, j2) implies m.entry(i2, j2)
                == collection@[i2]@[j2] by {
                lemma_row_major_index(i2, j2, rows_n as int, c);
            }
        }
        Ok(m)
    }

    /// Creates a matrix of the given shape with every entry equal to
    /// `value`.
    pub fn constant(dimensions: Dimensions, value: i64) -> (r: Matrix)
        requires
            dimensions.spec_count() <= usize::MAX,
        ensures
            r.wf(),
            r.dimensions == dimensions,
            r.entries() == const_seq(dimensions.spec_count(), value as int),
    {
        let n = dimensions.count();
        let mut buffer: Vec<i64> = Vec::new();
        while buffer.len() < n
            invariant
                buffer@.len() <= n,
                forall|t: int| 0 <= t < buffer@.len() ==> buffer@[t] == value,
            decreases n - buffer@.len(),
        {
            buffer.push(value);
        }
        let r = Matrix { buffer, dimensions };
        proof {
            assert(r.entries() =~= const_seq(dimensions.spec_count(), value as int));
        }
        r
    }

    /// Creates a matrix of the given shape with every entry zero.
    pub fn zero(dimensions: Dimensions) -> (r: Matrix)
        requires
            dimensions.spec_count() <= usize::MAX,
        ensures
            r.wf(),
            r.dimensions == dimensions,
            r.entries() == const_seq(dimensions.spec_count(), 0),
    {
        Self::constant(dimensions, 0)
    }

    /// Creates a square matrix with the given values on the main
    /// diagonal and zero everywhere else. An empty list of values gives
    /// the degenerate 0-by-0 matrix.
    pub fn diagonal(main_diagonal: Vec<i64>) -> (r: Matrix)
        requires
            main_diagonal@.len() * main_diagonal@.len() <= usize::MAX,
        ensures
            r.wf(),
            r.dimensions == Dimensions::Square(main_diagonal.len()),
            r.nrows() == main_diagonal@.len(),
            r.ncols() == main_diagonal@.len(),
            forall|i: int, j: int|
                r.valid_rc(i, j) ==> r.entry(i, j) == if i == j {
                    main_diagonal@[i] as int
                } else {
                    0
                },
    {
        let size = main_diagonal.len();
        let mut result: Matrix = Matrix::zero(Dimensions::from(size));
        let ghost n = size as int;
        proof {
            assert forall|i: int, j: int| result.valid_rc(i, j) implies result.entry(i, j)
                == 0 by {
                lemma_row_major_index(i, j, n, n);
            }
        }
        let mut index: usize = 0;
        while index < size
            invariant
                index <= size,
                result.wf(),
                result.dimensions == Dimensions::Square(size),
                result.nrows() == n,
                result.ncols() == n,
                main_diagonal@.len() == n,
                forall|i: int, j: int|
                    result.valid_rc(i, j) && i != j ==> result.entry(i, j) == 0,
                forall|i: int|
                    0 <= i < n ==> result.entry(i, i) == if i < index {
                        main_diagonal@[i] as int
                    } else {
                        0
                    },
            decreases size - index,
        {
            let ghost prev = result;
            result.set(index, index, main_diagonal[index]);
            proof {
                assert forall|i: int, j: int| result.valid_rc(i, j) implies result.entry(i, j)
                    == if i == index && j == index {
                    main_diagonal@[index as int] as int
                } else {
                    prev.entry(i, j)
                } by {
                    lemma_row_major_index(i, j, n, n);
                    lemma_row_major_index(index as int, index as int, n, n);
                    if i * n + j == index * n + index {
                        lemma_row_major_injective(i, j, index as int, index as int, n, n);
                    }
                }
            }
            index = index + 1;
        }
        result
    }

    /// Creates the square matrix of the given size whose main diagonal
    /// is `value` everywhere, with zero off the diagonal.
    pub fn scalar(value: i64, size: usize) -> (r: Matrix)
        requires
            size * size <= usize::MAX,
        ensures
            r.wf(),
            r.dimensions == Dimensions::Square(size),
            r.nrows() == size,
            r.ncols() == size,
            forall|i: int, j: int|
                r.valid_rc(i, j) ==> r.entry(i, j) == if i == j {
                    value as int
                } else {
                    0
                },
    {
        let mut values: Vec<i64> = Vec::new();
        while values.len() < size
            invariant
                values@.len() <= size,
                forall|t: int| 0 <= t < values@.len() ==> values@[t] == value,
            decreases size - values@.len(),
        {
            values.push(value);
        }
        Matrix::diagonal(values)
    }

    /// Creates the identity matrix of the given size.
    pub fn identity(size: usize) -> (r: Matrix)
        requires
            size * size <= usize::MAX,
        ensures
            r.wf(),
            r.dimensions == Dimensions::Square(size),
            r.nrows() == size,
            r.ncols() == size,
            forall|i: int, j: int| r.valid_rc(i, j) ==> r.entry(i, j) == id_entry(i, j),
            r.entries() == id_seq(size as int),
    {
        let r = Matrix::scalar(1, size);
        proof {
            let n = size as int;
            assert forall|t: int| 0 <= t < n * n implies r.entries()[t] == id_entry(
                t / n,
                t % n,
            ) by {
                lemma_index_to_rc(t, n, n);
                assert(r.entry(t / n, t % n) == r.entries()[t]);
            }
            assert(r.entries() =~= id_seq(n));
        }
        r
    }

    /// Returns entry (i, j), or nothing when either index is out of
    /// range.
    pub fn get(&self, i: usize, j: usize) -> (r: Option<i64>)
        requires
            self.wf(),
        ensures
            match r {
                Some(v) => self.valid_rc(i as int, j as int) && v as int == self.entry(
                    i as int,
                    j as int,
                ),
                None => !self.valid_rc(i as int, j as int),
            },
    {
        if i >= self.dimensions.rows() || j >= self.dimensions.columns() {
            return None;
        }
        let len = self.buffer.len();
        proof {
            lemma_row_major_index(i as int, j as int, self.nrows(), self.ncols());
        }
        let index = i * self.dimensions.columns() + j;
        Some(self.buffer[index])
    }

    /// Returns the rows of the matrix, top to bottom, each as a vector
    /// of its entries.
    pub fn rows(&self) -> (r: Vec<Vec<i64>>)
        requires
            self.wf(),
        ensures
            r@.len() == self.nrows(),
            forall|i: int| 0 <= i < self.nrows() ==> ints_of(r@[i]@) == self.row_seq(i),
    {
        let rows_n = self.dimensions.rows();
        let cols_n = self.dimensions.columns();
        let len = self.buffer.len();
        let mut r: Vec<Vec<i64>> = Vec::new();
        let mut i: usize = 0;
        while i < rows_n
            invariant
                i <= rows_n,
                r@.len() == i,
                self.wf(),
                rows_n == self.nrows(),
                cols_n == self.ncols(),
                len == self.entries().len(),
                forall|i2: int| 0 <= i2 < i ==> ints_of(r@[i2]@) == self.row_seq(i2),
            decreases rows_n - i,
        {
            let mut row: Vec<i64> = Vec::new();
            let mut j: usize = 0;
            while j < cols_n
                invariant
                    j <= cols_n,
                    row@.len() == j,
                    self.wf(),
                    i < rows_n,
                    rows_n == self.nrows(),
                    cols_n == self.ncols(),
                    len == self.entries().len(),
                    forall|j2: int| 0 <= j2 < j ==> row@[j2] as int == self.entry(i as int, j2),
                decreases cols_n - j,
            {
                proof {
                    lemma_row_major_index(i as int, j as int, self.nrows(), self.ncols());
                }
                row.push(self.buffer[i * cols_n + j]);
                j = j + 1;
            }
            proof {
                assert(ints_of(row@) =~= self.row_seq(i as int));
            }
            r.push(row);
            i = i + 1;
        }
        r
    }

    /// Returns the columns of the matrix, left to right, each as a
    /// vector of its entries.
    pub fn columns(&self) -> (r: Vec<Vec<i64>>)
        requires
            self.wf(),
        ensures
            r@.len() == self.ncols(),
            forall|j: int| 0 <= j < self.ncols() ==> ints_of(r@[j]@) == self.col_seq(j),
    {
        let rows_n = self.dimensions.rows();
        let cols_n = self.dimensions.columns();
        let len = self.buffer.len();
        let mut r: Vec<Vec<i64>> = Vec::new();
        let mut j: usize = 0;
        while j < cols_n
            invariant
                j <= cols_n,
                r@.len() == j,
                self.wf(),
                rows_n == self.nrows(),
                cols_n == self.ncols(),
                len == self.entries().len(),
                forall|j2: int| 0 <= j2 < j ==> ints_of(r@[j2]@) == self.col_seq(j2),
            decreases cols_n - j,
        {
            let mut column: Vec<i64> = Vec::new();
            let mut i: usize = 0;
            while i < rows_n
                invariant
                    i <= rows_n,
                    column@.len() == i,
                    self.wf(),
                    j < cols_n,
                    rows_n == self.nrows(),
                    cols_n == self.ncols(),
                    len == self.entries().len(),
                    forall|i2: int| 0 <= i2 < i ==> column@[i2] as int == self.entry(i2, j as int),
                decreases rows_n - i,
            {
                proof {
                    lemma_row_major_index(i as int, j as int, self.nrows(), self.ncols());
                }
                column.push(self.buffer[i * cols_n + j]);
                i = i + 1;
            }
            proof {
                assert(ints_of(column@) =~= self.col_seq(j as int));
            }
            r.push(column);
            j = j + 1;
        }
        r
    }

    /// Returns the `n`-th row, or nothing when `n` is out of range.
    pub fn row(&self, n: usize) -> (r: Option<Vec<i64>>)
        requires
            self.wf(),
        ensures
            match r {
                Some(v) => (n as int) < self.nrows() && ints_of(v@) == self.row_seq(n as int),
                None => n as int >= self.nrows(),
            },
    {
        if n >= self.dimensions.rows() {
            return None;
        }
        let cols_n = self.dimensions.columns();
        let len = self.buffer.len();
        let mut row: Vec<i64> = Vec::new();
        let mut j: usize = 0;
        while j < cols_n
            invariant
                j <= cols_n,
                row@.len() == j,
                self.wf(),
                (n as int) < self.nrows(),
                cols_n == self.ncols(),
                len == self.entries().len(),
                forall|j2: int| 0 <= j2 < j ==> row@[j2] as int == self.entry(n as int, j2),
            decreases cols_n - j,
        {
            proof {
                lemma_row_major_index(n as int, j as int, self.nrows(), self.ncols());
            }
            row.push(self.buffer[n * cols_n + j]);
            j = j + 1;
        }
        proof {
            assert(ints_of(row@) =~= self.row_seq(n as int));
        }
        Some(row)
    }

    /// Returns the `n`-th column, or nothing when `n` is out of range.
    pub fn column(&self, n: usize) -> (r: Option<Vec<i64>>)
        requires
            self.wf(),
        ensures
            match r {
                Some(v) => (n as int) < self.ncols() && ints_of(v@) == self.col_seq(n as int),
                None => n as int >= self.ncols(),
            },
    {
        if n >= self.dimensions.columns() {
            return None;
        }
        let rows_n = self.dimensions.rows();
        let cols_n = self.dimensions.columns();
        let len = self.buffer.len();
        let mut column: Vec<i64> = Vec::new();
        let mut i: usize = 0;
        while i < rows_n
            invariant
                i <= rows_n,
                column@.len() == i,
                self.wf(),
                (n as int) < self.ncols(),
                rows_n == self.nrows(),
                cols_n == self.ncols(),
                len == self.entries().len(),
                forall|i2: int| 0 <= i2 < i ==> column@[i2] as int == self.entry(i2, n as int),
            decreases rows_n - i,
        {
            proof {
                lemma_row_major_index(i as int, n as int, self.nrows(), self.ncols());
            }
            column.push(self.buffer[i * cols_n + n]);
            i = i + 1;
        }
        proof {
            assert(ints_of(column@) =~= self.col_seq(n as int));
        }
        Some(column)
    }

    /// Returns the entries (k, k) of a square matrix, or nothing when
    /// the matrix is not square.
    pub fn main_diagonal(&self) -> (r: Option<Vec<i64>>)
        requires
            self.wf(),
        ensures
            match r {
                Some(v) => {
                    &&& self.nrows() == self.ncols()
                    &&& v@.len() == self.nrows()
                    &&& forall|k: int| 0 <= k < self.nrows() ==> v@[k] as int == self.entry(k, k)
                },
                None => self.nrows() != self.ncols(),
            },
    {
        if !self.is_square() {
            return None;
        }
        let size = self.dimensions.rows();
        let len = self.buffer.len();
        let mut v: Vec<i64> = Vec::new();
        let mut k: usize = 0;
        while k < size
            invariant
                k <= size,
                v@.len() == k,
                self.wf(),
                size == self.nrows(),
                size == self.ncols(),
                len == self.entries().len(),
                forall|k2: int| 0 <= k2 < k ==> v@[k2] as int == self.entry(k2, k2),
            decreases size - k,
        {
            proof {
                lemma_row_major_index(k as int, k as int, self.nrows(), self.ncols());
            }
            v.push(self.buffer[k * size + k]);
            k = k + 1;
        }
        Some(v)
    }

    /// Returns the entries (k, size - 1 - k) of a square matrix, or
    /// nothing when the matrix is not square.
    pub fn secondary_diagonal(&self) -> (r: Option<Vec<i64>>)
        requires
            self.wf(),
        ensures
            match r {
                Some(v) => {
                    &&& self.nrows() == self.ncols()
                    &&& v@.len() == self.nrows()
                    &&& forall|k: int|
                        0 <= k < self.nrows() ==> v@[k] as int == self.entry(
                            k,
                            self.nrows() - 1 - k,
                        )
                },
                None => self.nrows() != self.ncols(),
            },
    {
        if !self.is_square() {
            return None;
        }
        let size = self.dimensions.rows();
        let len = self.buffer.len();
        let mut v: Vec<i64> = Vec::new();
        let mut k: usize = 0;
        while k < size
            invariant
                k <= size,
                v@.len() == k,
                self.wf(),
                size == self.nrows(),
                size == self.ncols(),
                len == self.entries().len(),
                forall|k2: int|
                    0 <= k2 < k ==> v@[k2] as int == self.entry(k2, self.nrows() - 1 - k2),
            decreases size - k,
        {
            proof {
                lemma_row_major_index(k as int, size - 1 - k as int, self.nrows(), self.ncols());
            }
            v.push(self.buffer[k * size + (size - 1 - k)]);
            k = k + 1;
        }
        Some(v)
    }

    /// Writes `value` at (i, j) and reports whether it did; indices out
    /// of range leave the matrix unchanged.
    pub fn set(&mut self, i: usize, j: usize, value: i64) -> (r: bool)
        requires
            old(self).wf(),
        ensures
            final(self).wf(),
            final(self).dimensions == old(self).dimensions,
            r == old(self).valid_rc(i as int, j as int),
            r ==> final(self).entries() == old(self).entries().update(
                i as int * old(self).ncols() + j as int,
                value as int,
            ),
            !r ==> *final(self) == *old(self),
    {
        if i >= self.dimensions.rows() || j >= self.dimensions.columns() {
            return false;
        }
        let len = self.buffer.len();
        proof {
            lemma_row_major_index(i as int, j as int, self.nrows(), self.ncols());
        }
        let index = i * self.dimensions.columns() + j;
        self.buffer[index] = value;
        proof {
            assert(final(self).entries() =~= old(self).entries().update(
                i as int * old(self).ncols() + j as int,
                value as int,
            ));
        }
        true
    }

    /// The buffer of the transpose, column by column of the original.
    fn transposed_buffer(&self) -> (r: Vec<i64>)
        requires
            self.wf(),
        ensures
            ints_of(r@) == tr_seq(self.entries(), self.nrows(), self.ncols()),
            r@.len() == self.nrows() * self.ncols(),
    {
        let rows_n = self.dimensions.rows();
        let cols_n = self.dimensions.columns();
        let len = self.buffer.len();
        let mut r: Vec<i64> = Vec::new();
        let mut j: usize = 0;
        while j < cols_n
            invariant
                j <= cols_n,
                r@.len() == j * rows_n,
                self.wf(),
                rows_n == self.nrows(),
                cols_n == self.ncols(),
                len == self.entries().len(),
                forall|t: int|
                    0 <= t < r@.len() ==> r@[t] as int == self.entries()[(t % (rows_n as int)) * (
                    cols_n as int) + t / (rows_n as int)],
            decreases cols_n - j,
        {
            let mut i: usize = 0;
            while i < rows_n
                invariant
                    i <= rows_n,
                    j < cols_n,
                    r@.len() == j * rows_n + i,
                    self.wf(),
                    rows_n == self.nrows(),
                    cols_n == self.ncols(),
                    len == self.entries().len(),
                    forall|t: int|
                        0 <= t < r@.len() ==> r@[t] as int == self.entries()[(t % (rows_n as int))
                            * (cols_n as int) + t / (rows_n as int)],
                decreases rows_n - i,
            {
                proof {
                    lemma_row_major_index(i as int, j as int, self.nrows(), self.ncols());
                    lemma_row_major_index(j as int, i as int, self.ncols(), self.nrows());
                    lemma_fundamental_div_mod_converse(
                        j * rows_n + i,
                        rows_n as int,
                        j as int,
                        i as int,
                    );
                }
                r.push(self.buffer[i * cols_n + j]);
                i = i + 1;
            }
            proof {
                assert((j as int + 1) * (rows_n as int) == j as int * (rows_n as int)
                    + rows_n as int) by (nonlinear_arith);
            }
            j = j + 1;
        }
        proof {
            vstd::arithmetic::mul::lemma_mul_is_commutative(cols_n as int, rows_n as int);
            assert forall|t: int| 0 <= t < rows_n * cols_n implies #[trigger] tr_seq(
                self.entries(),
                rows_n as int,
                cols_n as int,
            )[t] == r@[t] as int by {}
            assert(ints_of(r@) =~= tr_seq(self.entries(), self.nrows(), self.ncols()));
        }
        r
    }

    /// Transposes the matrix in place: entry (i, j) of the result is
    /// entry (j, i) of the original, and the shape is exchanged.
    pub fn transpose(&mut self)
        requires
            old(self).wf(),
        ensures
            final(self).wf(),
            final(self).dimensions == old(self).dimensions.spec_transposed(),
            final(self).entries() == tr_seq(old(self).entries(), old(self).nrows(), old(
                self,
            ).ncols()),
            forall|i: int, j: int|
                final(self).valid_rc(i, j) ==> final(self).entry(i, j) == old(self).entry(j, i),
    {
        let buffer = self.transposed_buffer();
        let dimensions = self.dimensions.transposed();
        self.buffer = buffer;
        self.dimensions = dimensions;
        proof {
            vstd::arithmetic::mul::lemma_mul_is_commutative(
                old(self).nrows(),
                old(self).ncols(),
            );
            let r = old(self).nrows();
            let c = old(self).ncols();
            assert forall|i: int, j: int| final(self).valid_rc(i, j) implies final(self).entry(
                i,
                j,
            ) == old(self).entry(j, i) by {
                lemma_row_major_index(i, j, c, r);
                lemma_fundamental_div_mod_converse(i * r + j, r, i, j);
                lemma_row_major_index(j, i, r, c);
            }
        }
    }

    /// Returns a new matrix which is the transpose of this one.
    pub fn transposed(&self) -> (r: Matrix)
        requires
            self.wf(),
        ensures
            r.wf(),
            r.dimensions == self.dimensions.spec_transposed(),
            r.entries() == tr_seq(self.entries(), self.nrows(), self.ncols()),
            forall|i: int, j: int| r.valid_rc(i, j) ==> r.entry(i, j) == self.entry(j, i),
    {
        let buffer = self.transposed_buffer();
        let dimensions = self.dimensions.transposed();
        proof {
            vstd::arithmetic::mul::lemma_mul_is_commutative(self.nrows(), self.ncols());
        }
        let r = Matrix { buffer, dimensions };
        proof {
            let rn = self.nrows();
            let c = self.ncols();
            assert forall|i: int, j: int| r.valid_rc(i, j) implies r.entry(i, j) == self.entry(
                j,
                i,
            ) by {
                lemma_row_major_index(i, j, c, rn);
                lemma_fundamental_div_mod_converse(i * rn + j, rn, i, j);
                lemma_row_major_index(j, i, rn, c);
            }
        }
        r
    }

    /// Reports whether this matrix and `other` have the same shape.
    pub fn is_same_size(&self, other: &Matrix) -> (r: bool)
        ensures
            r == self.dimensions.same_shape(other.dimensions),
    {
        self.dimensions == other.dimensions
    }

    /// Reports whether the matrix has exactly one column.
    pub fn is_column(&self) -> (r: bool)
        ensures
            r == (self.ncols() == 1),
    {
        self.dimensions.columns() == 1
    }

    /// Reports whether the matrix has exactly one row.
    pub fn is_row(&self) -> (r: bool)
        ensures
            r == (self.nrows() == 1),
    {
        self.dimensions.rows() == 1
    }

    /// A diagonal matrix: square, with every entry off the main
    /// diagonal zero.
    pub open spec fn is_diagonal_spec(self) -> bool {
        &&& self.nrows() == self.ncols()
        &&& forall|i: int, j: int|
            self.valid_rc(i, j) && i != j ==> self.entry(i, j) == 0
    }

    /// An upper-triangular matrix: square, with every entry strictly
    /// below the main diagonal zero.
    pub open spec fn is_upper_triangular_spec(self) -> bool {
        &&& self.nrows() == self.ncols()
        &&& forall|i: int, j: int|
            self.valid_rc(i, j) && j < i ==> self.entry(i, j) == 0
    }

    /// A lower-triangular matrix: square, with every entry strictly
    /// above the main diagonal zero.
    pub open spec fn is_lower_triangular_spec(self) -> bool {
        &&& self.nrows() == self.ncols()
        &&& forall|i: int, j: int|
            self.valid_rc(i, j) && i < j ==> self.entry(i, j) == 0
    }

    /// A scalar matrix: diagonal, with one and the same value along
    /// the whole main diagonal.
    pub open spec fn is_scalar_spec(self) -> bool {
        &&& self.is_diagonal_spec()
        &&& forall|i: int, j: int|
            0 <= i < self.nrows() && 0 <= j < self.nrows() ==> self.entry(i, i) == self.entry(
                j,
                j,
            )
    }

    /// The identity matrix: square, with ones on the main diagonal and
    /// zeros everywhere else.
    pub open spec fn is_identity_spec(self) -> bool {
        &&& self.nrows() == self.ncols()
        &&& forall|i: int, j: int|
            self.valid_rc(i, j) ==> self.entry(i, j) == id_entry(i, j)
    }

    /// Reports whether the matrix is diagonal; non-square matrices are
    /// not.
    pub fn is_diagonal(&self) -> (r: bool)
        requires
            self.wf(),
        ensures
            r == self.is_diagonal_spec(),
    {
        if !self.is_square() {
            return false;
        }
        let size = self.dimensions.rows();
        let mut i: usize = 0;
        while i < size
            invariant
                i <= size,
                self.wf(),
                size == self.nrows(),
                size == self.ncols(),
                forall|i2: int, j2: int|
                    0 <= i2 < i && 0 <= j2 < size && i2 != j2 ==> self.entry(i2, j2) == 0,
            decreases size - i,
        {
            let mut j: usize = 0;
            while j < size
                invariant
                    j <= size,
                    i < size,
                    self.wf(),
                    size == self.nrows(),
                    size == self.ncols(),
                    forall|i2: int, j2: int|
                        0 <= i2 < i && 0 <= j2 < size && i2 != j2 ==> self.entry(i2, j2) == 0,
                    forall|j2: int|
                        0 <= j2 < j && (i as int) != j2 ==> self.entry(i as int, j2) == 0,
                decreases size - j,
            {
                if i != j {
                    match self.get(i, j) {
                        Some(v) => if v != 0 {
                            return false;
                        },
                        None => {
                            return false;
                        },
                    }
                }
                j = j + 1;
            }
            i = i + 1;
        }
        true
    }

    /// Reports whether the matrix is upper triangular; non-square
    /// matrices are not.
    pub fn is_upper_triangular(&self) -> (r: bool)
        requires
            self.wf(),
        ensures
            r == self.is_upper_triangular_spec(),
    {
        if !self.is_square() {
            return false;
        }
        let size = self.dimensions.rows();
        let mut i: usize = 0;
        while i < size
            invariant
                i <= size,
                self.wf(),
                size == self.nrows(),
                size == self.ncols(),
                forall|i2: int, j2: int|
                    0 <= i2 < i && 0 <= j2 < size && j2 < i2 ==> self.entry(i2, j2) == 0,
            decreases size - i,
        {
            let mut j: usize = 0;
            while j < i
                invariant
                    j <= i,
                    i < size,
                    self.wf(),
                    size == self.nrows(),
                    size == self.ncols(),
                    forall|i2: int, j2: int|
                        0 <= i2 < i && 0 <= j2 < size && j2 < i2 ==> self.entry(i2, j2) == 0,
                    forall|j2: int| 0 <= j2 < j ==> self.entry(i as int, j2) == 0,
                decreases i - j,
            {
                match self.get(i, j) {
                    Some(v) => if v != 0 {
                        return false;
                    },
                    None => {
                        return false;
                    },
                }
                j = j + 1;
            }
            i = i + 1;
        }
        true
    }

    /// Reports whether the matrix is lower triangular; non-square
    /// matrices are not.
    pub fn is_lower_triangular(&self) -> (r: bool)
        requires
            self.wf(),
        ensures
            r == self.is_lower_triangular_spec(),
    {
        if !self.is_square() {
            return false;
        }
        let size = self.dimensions.rows();
        let mut i: usize = 0;
        while i < size
            invariant
                i <= size,
                self.wf(),
                size == self.nrows(),
                size == self.ncols(),
                forall|i2: int, j2: int|
                    0 <= i2 < i && 0 <= j2 < size && i2 < j2 ==> self.entry(i2, j2) == 0,
            decreases size - i,
        {
            let mut j: usize = i + 1;
            while j < size
                invariant
                    i < j,
                    j <= size,
                    i < size,
                    self.wf(),
                    size == self.nrows(),
                    size == self.ncols(),
                    forall|i2: int, j2: int|
                        0 <= i2 < i && 0 <= j2 < size && i2 < j2 ==> self.entry(i2, j2) == 0,
                    forall|j2: int| i < j2 < j ==> self.entry(i as int, j2) == 0,
                decreases size - j,
            {
                match self.get(i, j) {
                    Some(v) => if v != 0 {
                        return false;
                    },
                    None => {
                        return false;
                    },
                }
                j = j + 1;
            }
            i = i + 1;
        }
        true
    }

    /// Reports whether the matrix is scalar: diagonal with a constant
    /// main diagonal. Non-square matrices are not.
    pub fn is_scalar(&self) -> (r: bool)
        requires
            self.wf(),
        ensures
            r == self.is_scalar_spec(),
    {
        if !self.is_diagonal() {
            return false;
        }
        let size = self.dimensions.rows();
        if size == 0 {
            return true;
        }
        let first = match self.get(0, 0) {
            Some(v) => v,
            None => {
                return false;
            },
        };
        let mut k: usize = 1;
        while k < size
            invariant
                1 <= k <= size,
                self.wf(),
                size == self.nrows(),
                size == self.ncols(),
                first as int == self.entry(0, 0),
                forall|k2: int| 0 <= k2 < k ==> self.entry(k2, k2) == first as int,
            decreases size - k,
        {
            match self.get(k, k) {
                Some(v) => if v != first {
                    return false;
                },
                None => {
                    return false;
                },
            }
            k = k + 1;
        }
        true
    }

    /// Reports whether the matrix is the identity matrix of its size;
    /// non-square matrices are not.
    pub fn is_identity(&self) -> (r: bool)
        requires
            self.wf(),
        ensures
            r == self.is_identity_spec(),
    {
        if !self.is_square() {
            return false;
        }
        let size = self.dimensions.rows();
        let mut i: usize = 0;
        while i < size
            invariant
                i <= size,
                self.wf(),
                size == self.nrows(),
                size == self.ncols(),
                forall|i2: int, j2: int|
                    0 <= i2 < i && 0 <= j2 < size ==> self.entry(i2, j2) == id_entry(i2, j2),
            decreases size - i,
        {
            let mut j: usize = 0;
            while j < size
                invariant
                    j <= size,
                    i < size,
                    self.wf(),
                    size == self.nrows(),
                    size == self.ncols(),
                    forall|i2: int, j2: int|
                        0 <= i2 < i && 0 <= j2 < size ==> self.entry(i2, j2) == id_entry(i2, j2),
                    forall|j2: int|
                        0 <= j2 < j ==> self.entry(i as int, j2) == id_entry(i as int, j2),
                decreases size - j,
            {
                let expected: i64 = if i == j {
                    1
                } else {
                    0
                };
                match self.get(i, j) {
                    Some(v) => if v != expected {
                        proof {
                            assert(self.entry(i as int, j as int) != id_entry(i as int, j as int));
                        }
                        return false;
                    },
                    None => {
                        return false;
                    },
                }
                j = j + 1;
            }
            i = i + 1;
        }
        true
    }

    /// Reports whether the matrix is square, whichever variant its
    /// dimensions use.
    pub fn is_square(&self) -> (r: bool)
        ensures
            r == (self.nrows() == self.ncols()),
    {
        self.dimensions.rows() == self.dimensions.columns()
    }
}

impl PartialEq for Matrix {
    /// Matrices are equal when their shapes agree semantically and
    /// their entries agree position by position.
    fn eq(&self, other: &Self) -> (r: bool) {
        if !self.is_same_size(other) {
            return false;
        }
        if self.buffer.len() != other.buffer.len() {
            proof {
                assert(self.entries().len() != other.entries().len());
            }
            return false;
        }
        let len = self.buffer.len();
        let mut k: usize = 0;
        while k < len
            invariant
                k <= len,
                len == self.entries().len(),
                len == other.entries().len(),
                forall|t: int| 0 <= t < k ==> self.entries()[t] == other.entries()[t],
            decreases len - k,
        {
            if self.buffer[k] != other.buffer[k] {
                proof {
                    assert(self.entries()[k as int] != other.entries()[k as int]);
                }
                return false;
            }
            k = k + 1;
        }
        proof {
            assert(self.entries() =~= other.entries());
        }
        true
    }
}

impl vstd::std_specs::cmp::PartialEqSpecImpl for Matrix {
    open spec fn obeys_eq_spec() -> bool {
        true
    }

    open spec fn eq_spec(&self, other: &Matrix) -> bool {
        self.entries() == other.entries() && self.dimensions.same_shape(other.dimensions)
    }
}

} // verus!
