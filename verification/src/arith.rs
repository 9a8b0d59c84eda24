use vstd::arithmetic::div_mod::lemma_fundamental_div_mod_converse;
use vstd::prelude::*;

use crate::dimensions::Dimensions;
use crate::error::ErrorKind;
use crate::matrix::{ints_of, lemma_row_major_index, Matrix};

verus! {

/// Whether a mathematical value fits in an entry.
pub open spec fn fits(x: int) -> bool {
    i64::MIN <= x <= i64::MAX
}

/// The elementwise sum of two entry sequences of one length.
pub open spec fn seq_add(x: Seq<int>, y: Seq<int>) -> Seq<int> {
    Seq::new(x.len(), |k: int| x[k] + y[k])
}

/// The elementwise difference of two entry sequences of one length.
pub open spec fn seq_sub(x: Seq<int>, y: Seq<int>) -> Seq<int> {
    Seq::new(x.len(), |k: int| x[k] - y[k])
}

/// The elementwise negation of an entry sequence.
pub open spec fn seq_neg(x: Seq<int>) -> Seq<int> {
    Seq::new(x.len(), |k: int| -x[k])
}

/// An entry sequence scaled elementwise by `s`.
pub open spec fn seq_scale(x: Seq<int>, s: int) -> Seq<int> {
    Seq::new(x.len(), |k: int| x[k] * s)
}

/// Integer division as the machine computes it on entries: the exact
/// quotient truncated toward zero.
pub open spec fn div_trunc(x: int, d: int) -> int {
    if x == 0 {
        0
    } else if x > 0 && d > 0 {
        x / d
    } else if x < 0 && d < 0 {
        ((x * -1) / (d * -1))
    } else if x < 0 {
        ((x * -1) / d) * -1
    } else {
        (x / (d * -1)) * -1
    }
}

/// An entry sequence divided elementwise by `s`, truncating toward
/// zero.
pub open spec fn seq_div(x: Seq<int>, s: int) -> Seq<int> {
    Seq::new(x.len(), |k: int| div_trunc(x[k], s))
}

/// The dot product of the first `k` positions of two sequences.
pub open spec fn dot(x: Seq<int>, y: Seq<int>, k: int) -> int
    decreases k,
{
    if k <= 0 {
        0
    } else {
        dot(x, y, k - 1) + x[k - 1] * y[k - 1]
    }
}

/// Computes the dot product of two equally long vectors of entries,
/// summing the products left to right.
pub fn dot_product(first: &Vec<i64>, second: &Vec<i64>) -> (r: i64)
    requires
        first@.len() == second@.len(),
        forall|t: int|
            0 <= t < first@.len() ==> fits(
                #[trigger] (ints_of(first@)[t] * ints_of(second@)[t]),
            ),
        forall|p: int| 0 <= p <= first@.len() ==> fits(#[trigger] dot(ints_of(first@), ints_of(second@), p)),
    ensures
        r as int == dot(ints_of(first@), ints_of(second@), first@.len() as int),
{
    let len = first.len();
    let mut acc: i64 = 0;
    let mut t: usize = 0;
    while t < len
        invariant
            t <= len,
            len == first@.len(),
            len == second@.len(),
            forall|t2: int|
                0 <= t2 < len ==> fits(#[trigger] (ints_of(first@)[t2] * ints_of(second@)[t2])),
            forall|p: int|
                0 <= p <= len ==> fits(#[trigger] dot(ints_of(first@), ints_of(second@), p)),
            acc as int == dot(ints_of(first@), ints_of(second@), t as int),
        decreases len - t,
    {
        proof {
            assert(ints_of(first@)[t as int] == first@[t as int]);
            assert(ints_of(second@)[t as int] == second@[t as int]);
            assert(dot(ints_of(first@), ints_of(second@), t as int + 1) == dot(
                ints_of(first@),
                ints_of(second@),
                t as int,
            ) + ints_of(first@)[t as int] * ints_of(second@)[t as int]);
        }
        let product = first[t] * second[t];
        acc = acc + product;
        t = t + 1;
    }
    acc
}

impl Matrix {
    /// The elementwise sum of this matrix and `other`; reports a
    /// dimension mismatch if and only if the shapes disagree. Every
    /// entry of the sum must fit in an entry, which the machine
    /// representation forces.
    pub fn add(&self, other: &Matrix) -> (r: Result<Matrix, ErrorKind>)
        requires
            self.wf(),
            other.wf(),
            self.dimensions.same_shape(other.dimensions) ==> forall|k: int|
                0 <= k < self.entries().len() ==> fits(
                    #[trigger] (self.entries()[k] + other.entries()[k]),
                ),
        ensures
            match r {
                Ok(m) => {
                    &&& self.dimensions.same_shape(other.dimensions)
                    &&& m.wf()
                    &&& m.dimensions == self.dimensions
                    &&& m.entries() == seq_add(self.entries(), other.entries())
                },
                Err(e) => !self.dimensions.same_shape(other.dimensions)
                    && e is DimensionsIncorrct,
            },
    {
        if !self.is_same_size(other) {
            return Err(
                ErrorKind::DimensionsIncorrct(
                    "To add matrices they should be of the the same dimensions.".to_string(),
                ),
            );
        }
        let len = self.buffer.len();
        let mut buffer: Vec<i64> = Vec::new();
        let mut k: usize = 0;
        while k < len
            invariant
                k <= len,
                self.wf(),
                other.wf(),
                self.dimensions.same_shape(other.dimensions),
                len == self.entries().len(),
                len == other.entries().len(),
                forall|k2: int|
                    0 <= k2 < len ==> fits(#[trigger] (self.entries()[k2] + other.entries()[k2])),
                buffer@.len() == k,
                forall|t: int|
                    0 <= t < k ==> buffer@[t] as int == self.entries()[t] + other.entries()[t],
            decreases len - k,
        {
            proof {
                assert(self.entries()[k as int] == self.buffer@[k as int]);
                assert(other.entries()[k as int] == other.buffer@[k as int]);
            }
            let v = self.buffer[k] + other.buffer[k];
            buffer.push(v);
            k = k + 1;
        }
        let m = Matrix { buffer, dimensions: self.dimensions };
        proof {
            assert(m.entries() =~= seq_add(self.entries(), other.entries()));
        }
        Ok(m)
    }

    /// This matrix scaled elementwise by `rhs`. Every scaled entry
    /// must fit in an entry, which the machine representation forces.
    pub fn mul_scalar(&self, rhs: i64) -> (r: Matrix)
        requires
            self.wf(),
            forall|k: int|
                0 <= k < self.entries().len() ==> fits(#[trigger] (self.entries()[k] * rhs)),
        ensures
            r.wf(),
            r.dimensions == self.dimensions,
            r.entries() == seq_scale(self.entries(), rhs as int),
    {
        let len = self.buffer.len();
        let mut buffer: Vec<i64> = Vec::new();
        let mut k: usize = 0;
        while k < len
            invariant
                k <= len,
                self.wf(),
                len == self.entries().len(),
                forall|k2: int|
                    0 <= k2 < len ==> fits(#[trigger] (self.entries()[k2] * rhs)),
                buffer@.len() == k,
                forall|t: int| 0 <= t < k ==> buffer@[t] as int == self.entries()[t] * rhs,
            decreases len - k,
        {
            proof {
                assert(self.entries()[k as int] == self.buffer@[k as int]);
            }
            let v = self.buffer[k] * rhs;
            buffer.push(v);
            k = k + 1;
        }
        let m = Matrix { buffer, dimensions: self.dimensions };
        proof {
            assert(m.entries() =~= seq_scale(self.entries(), rhs as int));
        }
        m
    }

    /// The elementwise negation of this matrix.
    pub fn neg(&self) -> (r: Matrix)
        requires
            self.wf(),
            forall|k: int| 0 <= k < self.entries().len() ==> fits(-#[trigger] self.entries()[k]),
        ensures
            r.wf(),
            r.dimensions == self.dimensions,
            r.entries() == seq_neg(self.entries()),
    {
        proof {
            assert forall|k: int| 0 <= k < self.entries().len() implies fits(
                #[trigger] (self.entries()[k] * -1),
            ) by {
                assert(self.entries()[k] * -1 == -self.entries()[k]);
            }
        }
        let r = self.mul_scalar(-1);
        proof {
            assert(seq_scale(self.entries(), -1) =~= seq_neg(self.entries()));
        }
        r
    }

    /// The elementwise difference, this matrix minus `other`, computed
    /// as the sum with the negation; reports a dimension mismatch if
    /// and only if the shapes disagree.
    pub fn sub(&self, other: &Matrix) -> (r: Result<Matrix, ErrorKind>)
        requires
            self.wf(),
            other.wf(),
            forall|k: int| 0 <= k < other.entries().len() ==> fits(-#[trigger] other.entries()[k]),
            self.dimensions.same_shape(other.dimensions) ==> forall|k: int|
                0 <= k < self.entries().len() ==> fits(
                    #[trigger] (self.entries()[k] - other.entries()[k]),
                ),
        ensures
            match r {
                Ok(m) => {
                    &&& self.dimensions.same_shape(other.dimensions)
                    &&& m.wf()
                    &&& m.dimensions == self.dimensions
                    &&& m.entries() == seq_sub(self.entries(), other.entries())
                },
                Err(e) => !self.dimensions.same_shape(other.dimensions)
                    && e is DimensionsIncorrct,
            },
    {
        let negated = other.neg();
        proof {
            if self.dimensions.same_shape(other.dimensions) {
                assert forall|k: int| 0 <= k < self.entries().len() implies fits(
                    #[trigger] (self.entries()[k] + negated.entries()[k]),
                ) by {
                    assert(negated.entries()[k] == -other.entries()[k]);
                    assert(self.entries()[k] - other.entries()[k] == self.entries()[k]
                        + negated.entries()[k]);
                }
            }
        }
        match self.add(&negated) {
            Ok(m) => {
                proof {
                    assert(seq_add(self.entries(), negated.entries()) =~= seq_sub(
                        self.entries(),
                        other.entries(),
                    ));
                }
                Ok(m)
            },
            Err(e) => Err(e),
        }
    }

    /// This matrix divided elementwise by the scalar `rhs`, truncating
    /// toward zero; dividing by zero is reported, never computed.
    pub fn div(&self, rhs: i64) -> (r: Result<Matrix, ErrorKind>)
        requires
            self.wf(),
            rhs != 0 ==> forall|k: int|
                0 <= k < self.entries().len() ==> fits(
                    #[trigger] div_trunc(self.entries()[k], rhs as int),
                ),
        ensures
            match r {
                Ok(m) => {
                    &&& rhs != 0
                    &&& m.wf()
                    &&& m.dimensions == self.dimensions
                    &&& m.entries() == seq_div(self.entries(), rhs as int)
                },
                Err(e) => rhs == 0 && e is DividedByZero,
            },
    {
        if rhs == 0 {
            return Err(ErrorKind::DividedByZero);
        }
        let len = self.buffer.len();
        let mut buffer: Vec<i64> = Vec::new();
        let mut k: usize = 0;
        while k < len
            invariant
                k <= len,
                rhs != 0,
                self.wf(),
                len == self.entries().len(),
                forall|k2: int|
                    0 <= k2 < len ==> fits(#[trigger] div_trunc(self.entries()[k2], rhs as int)),
                buffer@.len() == k,
                forall|t: int|
                    0 <= t < k ==> buffer@[t] as int == div_trunc(self.entries()[t], rhs as int),
            decreases len - k,
        {
            proof {
                assert(self.entries()[k as int] == self.buffer@[k as int]);
                assert(fits(div_trunc(self.entries()[k as int], rhs as int)));
            }
            let v = match self.buffer[k].checked_div(rhs) {
                Some(v) => v,
                None => {
                    proof {
                        assert(false);
                    }
                    0
                },
            };
            buffer.push(v);
            k = k + 1;
        }
        let m = Matrix { buffer, dimensions: self.dimensions };
        proof {
            assert(m.entries() =~= seq_div(self.entries(), rhs as int));
        }
        Ok(m)
    }

    /// The matrix product, this matrix times `other`: defined exactly
    /// when this matrix has as many columns as `other` has rows, and
    /// absent otherwise. Entry (i, j) of the product is the dot
    /// product of row i of this matrix with column j of `other`. The
    /// result and every partial dot product must fit in an entry,
    /// which the machine representation forces.
    pub fn mul(&self, other: &Matrix) -> (r: Option<Matrix>)
        requires
            self.wf(),
            other.wf(),
            self.ncols() == other.nrows() ==> {
                &&& self.nrows() * other.ncols() <= usize::MAX
                &&& forall|i: int, j: int, t: int|
                    0 <= i < self.nrows() && 0 <= j < other.ncols() && 0 <= t < self.ncols()
                        ==> fits(#[trigger] (self.row_seq(i)[t] * other.col_seq(j)[t]))
                &&& forall|i: int, j: int, p: int|
                    0 <= i < self.nrows() && 0 <= j < other.ncols() && 0 <= p <= self.ncols()
                        ==> fits(#[trigger] dot(self.row_seq(i), other.col_seq(j), p))
            },
        ensures
            match r {
                Some(m) => {
                    &&& self.ncols() == other.nrows()
                    &&& m.wf()
                    &&& m.nrows() == self.nrows()
                    &&& m.ncols() == other.ncols()
                    &&& m.dimensions == Dimensions::spec_of_pair(
                        self.dimensions.spec_rows() as usize,
                        other.dimensions.spec_columns() as usize,
                    )
                    &&& forall|i: int, j: int|
                        m.valid_rc(i, j) ==> m.entry(i, j) == dot(
                            self.row_seq(i),
                            other.col_seq(j),
                            self.ncols(),
                        )
                },
                None => self.ncols() != other.nrows(),
            },
    {
        if self.dimensions.columns() != other.dimensions.rows() {
            return None;
        }
        let self_rows = self.dimensions.rows();
        let mutual = self.dimensions.columns();
        let other_cols = other.dimensions.columns();
        let ghost oc = other_cols as int;
        let mut buffer: Vec<i64> = Vec::new();
        let mut i: usize = 0;
        while i < self_rows
            invariant
                i <= self_rows,
                self.wf(),
                other.wf(),
                self.ncols() == other.nrows(),
                self_rows == self.nrows(),
                mutual == self.ncols(),
                other_cols == other.ncols(),
                oc == other_cols as int,
                forall|i2: int, j2: int, t2: int|
                    0 <= i2 < self.nrows() && 0 <= j2 < other.ncols() && 0 <= t2 < self.ncols()
                        ==> fits(#[trigger] (self.row_seq(i2)[t2] * other.col_seq(j2)[t2])),
                forall|i2: int, j2: int, p: int|
                    0 <= i2 < self.nrows() && 0 <= j2 < other.ncols() && 0 <= p <= self.ncols()
                        ==> fits(#[trigger] dot(self.row_seq(i2), other.col_seq(j2), p)),
                buffer@.len() == i * other_cols,
                forall|t: int|
                    0 <= t < buffer@.len() ==> buffer@[t] as int == dot(
                        self.row_seq(t / oc),
                        other.col_seq(t % oc),
                        self.ncols(),
                    ),
            decreases self_rows - i,
        {
            let row_i = match self.row(i) {
                Some(v) => v,
                None => {
                    return None;
                },
            };
            let mut j: usize = 0;
            while j < other_cols
                invariant
                    j <= other_cols,
                    i < self_rows,
                    self.wf(),
                    other.wf(),
                    self.ncols() == other.nrows(),
                    self_rows == self.nrows(),
                    mutual == self.ncols(),
                    other_cols == other.ncols(),
                    oc == other_cols as int,
                    ints_of(row_i@) == self.row_seq(i as int),
                    forall|i2: int, j2: int, t2: int|
                        0 <= i2 < self.nrows() && 0 <= j2 < other.ncols() && 0 <= t2 < self.ncols()
                            ==> fits(#[trigger] (self.row_seq(i2)[t2] * other.col_seq(j2)[t2])),
                    forall|i2: int, j2: int, p: int|
                        0 <= i2 < self.nrows() && 0 <= j2 < other.ncols() && 0 <= p <= self.ncols()
                            ==> fits(#[trigger] dot(self.row_seq(i2), other.col_seq(j2), p)),
                    buffer@.len() == i * other_cols + j,
                    forall|t: int|
                        0 <= t < buffer@.len() ==> buffer@[t] as int == dot(
                            self.row_seq(t / oc),
                            other.col_seq(t % oc),
                            self.ncols(),
                        ),
                decreases other_cols - j,
            {
                let col_j = match other.column(j) {
                    Some(v) => v,
                    None => {
                        return None;
                    },
                };
                proof {
                    lemma_fundamental_div_mod_converse(
                        i as int * oc + j as int,
                        oc,
                        i as int,
                        j as int,
                    );
                    assert(ints_of(row_i@).len() == row_i@.len());
                    assert(ints_of(col_j@).len() == col_j@.len());
                    assert(row_i@.len() == mutual);
                    assert(col_j@.len() == mutual);
                    assert forall|t2: int| 0 <= t2 < row_i@.len() implies fits(
                        #[trigger] (ints_of(row_i@)[t2] * ints_of(col_j@)[t2]),
                    ) by {
                        assert(ints_of(row_i@)[t2] == self.row_seq(i as int)[t2]);
                        assert(ints_of(col_j@)[t2] == other.col_seq(j as int)[t2]);
                        assert(fits(self.row_seq(i as int)[t2] * other.col_seq(j as int)[t2]));
                    }
                    assert forall|p: int| 0 <= p <= row_i@.len() implies fits(
                        #[trigger] dot(ints_of(row_i@), ints_of(col_j@), p),
                    ) by {
                        assert(fits(dot(self.row_seq(i as int), other.col_seq(j as int), p)));
                    }
                }
                let entry = dot_product(&row_i, &col_j);
                buffer.push(entry);
                j = j + 1;
            }
            proof {
                assert((i as int + 1) * oc == i as int * oc + oc) by (nonlinear_arith);
            }
            i = i + 1;
        }
        let dimensions = Dimensions::from((self_rows, other_cols));
        let m = Matrix { buffer, dimensions };
        proof {
            assert forall|i2: int, j2: int| m.valid_rc(i2, j2) implies m.entry(i2, j2) == dot(
                self.row_seq(i2),
                other.col_seq(j2),
                self.ncols(),
            ) by {
                lemma_row_major_index(i2, j2, self_rows as int, oc);
            }
        }
        Some(m)
    }
}

} // verus!
