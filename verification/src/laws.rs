use vstd::arithmetic::div_mod::lemma_fundamental_div_mod_converse;
use vstd::prelude::*;

use crate::arith::{dot, seq_add};
use crate::determinant::{cof_sign, cofactor_sum, minor_seq, spec_det};
use crate::dimensions::Dimensions;
use crate::matrix::{
    const_seq, id_entry, id_seq, lemma_index_to_rc, lemma_row_major_index, tr_seq, Matrix,
};

verus! {

/// Matrix addition is commutative: two matrices of one shape added in
/// either order have the same entries.
pub proof fn lemma_add_commutative(a: Matrix, b: Matrix)
    requires
        a.wf(),
        b.wf(),
        a.dimensions.same_shape(b.dimensions),
    ensures
        seq_add(a.entries(), b.entries()) == seq_add(b.entries(), a.entries()),
{
    assert(seq_add(a.entries(), b.entries()) =~= seq_add(b.entries(), a.entries()));
}

/// Matrix addition is associative: three matrices of one shape added
/// in either grouping have the same entries.
pub proof fn lemma_add_associative(a: Matrix, b: Matrix, c: Matrix)
    requires
        a.wf(),
        b.wf(),
        c.wf(),
        a.dimensions.same_shape(b.dimensions),
        b.dimensions.same_shape(c.dimensions),
    ensures
        seq_add(seq_add(a.entries(), b.entries()), c.entries()) == seq_add(
            a.entries(),
            seq_add(b.entries(), c.entries()),
        ),
{
    assert(seq_add(seq_add(a.entries(), b.entries()), c.entries()) =~= seq_add(
        a.entries(),
        seq_add(b.entries(), c.entries()),
    ));
}

/// Adding a zero matrix is the identity of addition: the entries come
/// back unchanged.
pub proof fn lemma_add_zero(a: Matrix)
    requires
        a.wf(),
    ensures
        seq_add(a.entries(), const_seq(a.entries().len(), 0)) == a.entries(),
{
    assert(seq_add(a.entries(), const_seq(a.entries().len(), 0)) =~= a.entries());
}

/// A dot product against the first `k` positions of a unit column
/// that is 1 at position j and 0 elsewhere picks out coordinate j.
proof fn lemma_dot_unit(x: Seq<int>, u: Seq<int>, j: int, k: int)
    requires
        forall|t: int| 0 <= t < k ==> u[t] == id_entry(t, j),
    ensures
        dot(x, u, k) == if 0 <= j < k {
            x[j]
        } else {
            0int
        },
    decreases k,
{
    if k > 0 {
        lemma_dot_unit(x, u, j, k - 1);
    }
}

/// Multiplying a matrix by the identity matrix of compatible size
/// gives back the original matrix: each entry of the product, the dot
/// product of a row with a unit column, is the corresponding entry of
/// the matrix, and the product's shape is the matrix's shape.
pub proof fn lemma_mul_identity(a: Matrix, b: Matrix)
    requires
        a.wf(),
        b.wf(),
        b.nrows() == a.ncols(),
        b.ncols() == a.ncols(),
        forall|i: int, j: int| b.valid_rc(i, j) ==> b.entry(i, j) == id_entry(i, j),
    ensures
        forall|i: int, j: int|
            a.valid_rc(i, j) ==> dot(a.row_seq(i), b.col_seq(j), a.ncols()) == a.entry(i, j),
        Dimensions::spec_of_pair(
            a.dimensions.spec_rows() as usize,
            b.dimensions.spec_columns() as usize,
        ).same_shape(a.dimensions),
{
    assert forall|i: int, j: int| a.valid_rc(i, j) implies dot(
        a.row_seq(i),
        b.col_seq(j),
        a.ncols(),
    ) == a.entry(i, j) by {
        assert forall|t: int| 0 <= t < a.ncols() implies b.col_seq(j)[t] == id_entry(t, j) by {
            assert(b.col_seq(j)[t] == b.entry(t, j));
        }
        lemma_dot_unit(a.row_seq(i), b.col_seq(j), j, a.ncols());
        assert(a.row_seq(i)[j] == a.entry(i, j));
    }
}

/// Transposing twice gives back the original entries, whatever the
/// shape; together with the shape involution of
/// [`crate::dimensions::lemma_transposed_involution`] this is the
/// transpose round trip.
pub proof fn lemma_transpose_involution(buf: Seq<int>, rows: int, cols: int)
    requires
        0 <= rows,
        0 <= cols,
        buf.len() == rows * cols,
    ensures
        tr_seq(tr_seq(buf, rows, cols), cols, rows) == buf,
{
    let t1 = tr_seq(buf, rows, cols);
    let t2 = tr_seq(t1, cols, rows);
    vstd::arithmetic::mul::lemma_mul_is_commutative(rows, cols);
    assert forall|t: int| 0 <= t < buf.len() implies t2[t] == buf[t] by {
        lemma_index_to_rc(t, rows, cols);
        let i = t / cols;
        let j = t % cols;
        lemma_row_major_index(j, i, cols, rows);
        let m = j * rows + i;
        assert(t2[t] == t1[m]);
        assert(t1[m] == buf[(m % rows) * cols + m / rows]);
        assert(m % rows == i && m / rows == j);
    }
    assert(t2 =~= buf);
}

/// The transpose round trip at the matrix level: when `b` is the
/// transpose of `a` and `c` the transpose of `b` — shape and entries
/// related as [`Matrix::transposed`] guarantees — then `c` is `a`
/// again, shape and entries alike.
pub proof fn lemma_transposed_twice_is_identity(a: Matrix, b: Matrix, c: Matrix)
    requires
        a.wf(),
        b.dimensions == a.dimensions.spec_transposed(),
        b.entries() == tr_seq(a.entries(), a.nrows(), a.ncols()),
        c.dimensions == b.dimensions.spec_transposed(),
        c.entries() == tr_seq(b.entries(), b.nrows(), b.ncols()),
    ensures
        c.dimensions == a.dimensions,
        c.entries() == a.entries(),
{
    crate::dimensions::lemma_transposed_involution(a.dimensions);
    lemma_transpose_involution(a.entries(), a.nrows(), a.ncols());
}

/// The sum of the first `k` cofactor terms of the identity matrix of
/// size n is 0 for k == 0 and, for any larger k, the determinant of
/// its first minor: every term after the first starts from a zero
/// entry of row 0.
proof fn lemma_cofactor_sum_identity(n: int, k: int)
    requires
        3 <= n,
        0 <= k <= n,
    ensures
        cofactor_sum(id_seq(n), n, k) == if k == 0 {
            0int
        } else {
            spec_det(minor_seq(id_seq(n), n, 0), n - 1)
        },
    decreases k,
{
    if k > 0 {
        lemma_cofactor_sum_identity(n, k - 1);
        assert(n <= n * n) by (nonlinear_arith)
            requires
                3 <= n,
        ;
        lemma_fundamental_div_mod_converse(k - 1, n, 0, k - 1);
        assert(id_seq(n)[k - 1] == id_entry(0, k - 1));
        assert(cofactor_sum(id_seq(n), n, k) == cofactor_sum(id_seq(n), n, k - 1) + id_seq(n)[k
            - 1] * spec_det(minor_seq(id_seq(n), n, k - 1), n - 1) * cof_sign(k - 1));
        let e = id_seq(n)[k - 1];
        let d = spec_det(minor_seq(id_seq(n), n, k - 1), n - 1);
        let s = cof_sign(k - 1);
        if k - 1 == 0 {
            assert(e == 1);
            assert(s == 1);
            assert(e * d * s == d) by (nonlinear_arith)
                requires
                    e == 1int && s == 1int,
            ;
        } else {
            assert(e == 0);
            assert(e * d * s == 0) by (nonlinear_arith)
                requires
                    e == 0int,
            ;
        }
    }
}

/// The determinant of the identity matrix: 0 for size 0 (the empty
/// base case of the expansion) and 1 for every positive size.
pub proof fn lemma_det_identity(n: int)
    requires
        0 <= n,
    ensures
        spec_det(id_seq(n), n) == if n == 0 {
            0int
        } else {
            1int
        },
    decreases n,
{
    if n == 0 {
    } else if n == 1 {
        assert(id_seq(1)[0] == id_entry(0, 0));
    } else if n == 2 {
        assert(id_seq(2)[0] == id_entry(0, 0));
        assert(id_seq(2)[1] == id_entry(0, 1));
        assert(id_seq(2)[2] == id_entry(1, 0));
        assert(id_seq(2)[3] == id_entry(1, 1));
    } else {
        lemma_det_identity(n - 1);
        assert forall|t: int| 0 <= t < (n - 1) * (n - 1) implies minor_seq(id_seq(n), n, 0)[t]
            == id_seq(n - 1)[t] by {
            lemma_index_to_rc(t, n - 1, n - 1);
            let r = t / (n - 1);
            let c = t % (n - 1);
            lemma_row_major_index(r + 1, c + 1, n, n);
            lemma_fundamental_div_mod_converse((r + 1) * n + (c + 1), n, r + 1, c + 1);
            assert(minor_seq(id_seq(n), n, 0)[t] == id_seq(n)[(r + 1) * n + (c + 1)]);
            assert(id_seq(n)[(r + 1) * n + (c + 1)] == id_entry(r + 1, c + 1));
            assert(id_seq(n - 1)[t] == id_entry(r, c));
        }
        assert(minor_seq(id_seq(n), n, 0) =~= id_seq(n - 1));
        lemma_cofactor_sum_identity(n, n);
        assert(spec_det(id_seq(n), n) == cofactor_sum(id_seq(n), n, n));
    }
}

/// The determinant of a 2-by-2 matrix with rows [a, b] and [c, d] is
/// a d - b c, for any entries, zero and negative ones included.
pub proof fn lemma_det_two_by_two(a: int, b: int, c: int, d: int)
    ensures
        spec_det(seq![a, b, c, d], 2) == a * d - b * c,
{
    let s = seq![a, b, c, d];
    assert(s[0] == a && s[1] == b && s[2] == c && s[3] == d);
}

} // verus!
