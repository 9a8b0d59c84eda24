use vstd::prelude::*;

use crate::arith::fits;
use crate::dimensions::Dimensions;
use crate::matrix::{lemma_row_major_index, Matrix};

verus! {

/// The column of the parent matrix that column `c` of a minor reads,
/// when column `k` of the parent was deleted.
pub open spec fn skip_col(c: int, k: int) -> int {
    if c < k {
        c
    } else {
        c + 1
    }
}

/// The row-major entries of the minor of an n-by-n entry buffer with
/// row 0 and column k deleted.
pub open spec fn minor_seq(buf: Seq<int>, n: int, k: int) -> Seq<int> {
    Seq::new(
        ((n - 1) * (n - 1)) as nat,
        |t: int| buf[(t / (n - 1) + 1) * n + skip_col(t % (n - 1), k)],
    )
}

/// The cofactor sign of column k in the expansion along row 0: +1 for
/// even k, -1 for odd k.
pub open spec fn cof_sign(k: int) -> int {
    if k % 2 == 0 {
        1
    } else {
        -1
    }
}

/// The determinant of an n-by-n entry buffer, by cofactor expansion
/// along row 0. A 0-by-0 matrix has determinant 0; one entry is its
/// own determinant; for size 2 the formula is the product of the main
/// diagonal minus the product of the secondary diagonal; larger sizes
/// expand along the first row.
pub open spec fn spec_det(buf: Seq<int>, n: int) -> int
    decreases n, 1int, 0int,
{
    if n <= 0 {
        0
    } else if n == 1 {
        buf[0]
    } else if n == 2 {
        buf[0] * buf[3] - buf[1] * buf[2]
    } else {
        cofactor_sum(buf, n, n)
    }
}

/// The sum of the first `k` terms of the cofactor expansion of an
/// n-by-n entry buffer along row 0: term j is entry (0, j) times the
/// determinant of the j-th minor times the cofactor sign of j.
pub open spec fn cofactor_sum(buf: Seq<int>, n: int, k: int) -> int
    decreases n, 0int, k,
{
    if k <= 0 || n <= 2 {
        0
    } else {
        cofactor_sum(buf, n, k - 1) + buf[k - 1] * spec_det(minor_seq(buf, n, k - 1), n - 1)
            * cof_sign(k - 1)
    }
}

/// Whether every value the cofactor-expansion computation meets on an
/// n-by-n entry buffer fits in an entry: the products and difference
/// of the size-2 base case, each minor's whole computation and its
/// determinant, each term of the expansion, and each partial sum.
pub open spec fn det_fits(buf: Seq<int>, n: int) -> bool
    decreases n,
{
    if n <= 1 {
        true
    } else if n == 2 {
        fits(buf[0] * buf[3]) && fits(buf[1] * buf[2]) && fits(buf[0] * buf[3] - buf[1] * buf[2])
    } else {
        &&& forall|k: int| 0 <= k < n ==> det_fits(#[trigger] minor_seq(buf, n, k), n - 1)
        &&& forall|k: int| 0 <= k < n ==> fits(spec_det(#[trigger] minor_seq(buf, n, k), n - 1))
        &&& forall|k: int|
            0 <= k < n ==> fits(buf[k] * spec_det(#[trigger] minor_seq(buf, n, k), n - 1))
        &&& forall|k: int|
            0 <= k < n ==> fits(
                buf[k] * spec_det(#[trigger] minor_seq(buf, n, k), n - 1) * cof_sign(k),
            )
        &&& forall|k: int| 0 <= k <= n ==> fits(#[trigger] cofactor_sum(buf, n, k))
    }
}

impl Matrix {
    /// The minor of a square matrix: row 0 and column `k` deleted.
    fn minor(&self, k: usize) -> (r: Matrix)
        requires
            self.wf(),
            self.nrows() == self.ncols(),
            1 <= self.nrows(),
            (k as int) < self.nrows(),
        ensures
            r.wf(),
            r.dimensions is Square,
            r.nrows() == self.nrows() - 1,
            r.ncols() == self.nrows() - 1,
            r.entries() == minor_seq(self.entries(), self.nrows(), k as int),
    {
        let n = self.dimensions.rows();
        let ghost ni = n as int;
        let len = self.buffer.len();
        let mut buffer: Vec<i64> = Vec::new();
        let mut row: usize = 1;
        while row < n
            invariant
                1 <= row <= n,
                self.wf(),
                ni == n as int,
                self.nrows() == ni,
                self.ncols() == ni,
                (k as int) < ni,
                len == self.entries().len(),
                buffer@.len() == (row - 1) * (ni - 1),
                forall|t: int|
                    0 <= t < buffer@.len() ==> buffer@[t] as int == self.entries()[(t / (ni - 1)
                        + 1) * ni + skip_col(t % (ni - 1), k as int)],
            decreases n - row,
        {
            let mut c: usize = 0;
            while c < n
                invariant
                    c <= n,
                    1 <= row < n,
                    self.wf(),
                    ni == n as int,
                    self.nrows() == ni,
                    self.ncols() == ni,
                    (k as int) < ni,
                    len == self.entries().len(),
                    buffer@.len() == (row - 1) * (ni - 1) + if c as int <= k as int {
                        c as int
                    } else {
                        c as int - 1
                    },
                    forall|t: int|
                        0 <= t < buffer@.len() ==> buffer@[t] as int == self.entries()[(t / (ni - 1)
                            + 1) * ni + skip_col(t % (ni - 1), k as int)],
                decreases n - c,
            {
                if c != k {
                    proof {
                        lemma_row_major_index(row as int, c as int, ni, ni);
                        let cadj = if c as int <= k as int {
                            c as int
                        } else {
                            c as int - 1
                        };
                        vstd::arithmetic::div_mod::lemma_fundamental_div_mod_converse(
                            (row - 1) * (ni - 1) + cadj,
                            ni - 1,
                            row - 1,
                            cadj,
                        );
                    }
                    buffer.push(self.buffer[row * n + c]);
                }
                c = c + 1;
            }
            proof {
                assert((row as int) * (ni - 1) == (row - 1) * (ni - 1) + (ni - 1))
                    by (nonlinear_arith);
            }
            row = row + 1;
        }
        proof {
            assert(buffer@.len() == (ni - 1) * (ni - 1));
        }
        let dimensions = Dimensions::Square(n - 1);
        let r = Matrix { buffer, dimensions };
        proof {
            assert(r.entries() =~= minor_seq(self.entries(), ni, k as int));
        }
        r
    }

    /// The determinant of a square matrix, by recursive cofactor
    /// expansion along row 0, and nothing for a non-square matrix.
    /// Every intermediate value must fit in an entry, which the
    /// machine representation forces.
    pub fn determinant_unoptimized(&self) -> (r: Option<i64>)
        requires
            self.wf(),
            self.nrows() == self.ncols() ==> det_fits(self.entries(), self.nrows()),
        ensures
            match r {
                Some(d) => self.nrows() == self.ncols() && d as int == spec_det(
                    self.entries(),
                    self.nrows(),
                ),
                None => self.nrows() != self.ncols(),
            },
        decreases self.nrows(),
    {
        if !self.is_square() {
            return None;
        }
        let n = self.dimensions.rows();
        let ghost ni = n as int;
        if n == 0 {
            return Some(0);
        }
        if n == 1 {
            proof {
                assert(ni * ni == 1) by (nonlinear_arith)
                    requires
                        ni == 1int,
                ;
                assert(self.entries()[0] == self.buffer@[0]);
            }
            return Some(self.buffer[0]);
        }
        if n == 2 {
            proof {
                assert(ni * ni == 4) by (nonlinear_arith)
                    requires
                        ni == 2int,
                ;
                assert(self.entries()[0] == self.buffer@[0]);
                assert(self.entries()[1] == self.buffer@[1]);
                assert(self.entries()[2] == self.buffer@[2]);
                assert(self.entries()[3] == self.buffer@[3]);
            }
            let main = self.buffer[0] * self.buffer[3];
            let secondary = self.buffer[1] * self.buffer[2];
            return Some(main - secondary);
        }
        let mut acc: i64 = 0;
        let mut k: usize = 0;
        while k < n
            invariant
                k <= n,
                self.wf(),
                ni == n as int,
                self.nrows() == ni,
                self.ncols() == ni,
                3 <= ni,
                det_fits(self.entries(), ni),
                acc as int == cofactor_sum(self.entries(), ni, k as int),
            decreases n - k,
        {
            let minor = self.minor(k);
            let d = match minor.determinant_unoptimized() {
                Some(d) => d,
                None => {
                    proof {
                        assert(false);
                    }
                    0
                },
            };
            proof {
                assert(ni <= ni * ni) by (nonlinear_arith)
                    requires
                        3 <= ni,
                ;
                assert(self.entries()[k as int] == self.buffer@[k as int]);
                assert(d as int == spec_det(minor_seq(self.entries(), ni, k as int), ni - 1));
                assert(fits(
                    self.entries()[k as int] * spec_det(
                        minor_seq(self.entries(), ni, k as int),
                        ni - 1,
                    ),
                ));
                assert(fits(
                    self.entries()[k as int] * spec_det(
                        minor_seq(self.entries(), ni, k as int),
                        ni - 1,
                    ) * cof_sign(k as int),
                ));
                assert(fits(cofactor_sum(self.entries(), ni, k as int + 1)));
                assert(cofactor_sum(self.entries(), ni, k as int + 1) == cofactor_sum(
                    self.entries(),
                    ni,
                    k as int,
                ) + self.entries()[k as int] * spec_det(
                    minor_seq(self.entries(), ni, k as int),
                    ni - 1,
                ) * cof_sign(k as int));
            }
            let term0 = self.buffer[k] * d;
            let term = if k % 2 == 0 {
                term0
            } else {
                -term0
            };
            acc = acc + term;
            k = k + 1;
        }
        Some(acc)
    }
}

} // verus!
