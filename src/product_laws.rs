//! Algebraic laws of the wrap-around matrix product: identities and
//! associativity.

use crate::arith::{
    lemma_wrap_add_left, lemma_wrap_add_right, lemma_wrap_congruent, lemma_wrap_id,
    lemma_wrap_shift, modulus, wrap,
};
use crate::matrix::{dot, MatrixView};
use vstd::arithmetic::div_mod::{lemma_fundamental_div_mod, lemma_fundamental_div_mod_converse};
use vstd::prelude::*;

verus! {

/// `m` is a square identity matrix of size `n`.
pub open spec fn is_identity(m: MatrixView, n: nat) -> bool {
    &&& m.rows == n
    &&& m.cols == n
    &&& m.wf()
    &&& forall|r: int, c: int| 0 <= r < n && 0 <= c < n ==> #[trigger] m.at(r, c) == if r == c {
        1i32
    } else {
        0i32
    }
}

/// A dot product with the unit vector `e_j` on the right picks `a[j]`.
proof fn lemma_dot_unit_right(a: Seq<i32>, b: Seq<i32>, k: int, j: int)
    requires
        forall|i: int| 0 <= i < k ==> #[trigger] b[i] == if i == j { 1i32 } else { 0i32 },
    ensures
        dot(a, b, k) == if 0 <= j < k { a[j] as int } else { 0 },
    decreases k,
{
    if k > 0 {
        lemma_dot_unit_right(a, b, k - 1, j);
        assert(b[k - 1] == if k - 1 == j { 1i32 } else { 0i32 });
    }
}

/// A dot product with the unit vector `e_j` on the left picks `b[j]`.
proof fn lemma_dot_unit_left(a: Seq<i32>, b: Seq<i32>, k: int, j: int)
    requires
        forall|i: int| 0 <= i < k ==> #[trigger] a[i] == if i == j { 1i32 } else { 0i32 },
    ensures
        dot(a, b, k) == if 0 <= j < k { b[j] as int } else { 0 },
    decreases k,
{
    if k > 0 {
        lemma_dot_unit_left(a, b, k - 1, j);
        assert(a[k - 1] == if k - 1 == j { 1i32 } else { 0i32 });
    }
}

/// Multiplying by an identity matrix, on either side, gives back the matrix:
/// `a × I == a` and `I × a == a`.
pub proof fn lemma_identity_product(a: MatrixView, left_id: MatrixView, right_id: MatrixView)
    requires
        a.wf(),
        is_identity(left_id, a.rows),
        is_identity(right_id, a.cols),
    ensures
        a.times(right_id) == a,
        left_id.times(a) == a,
{
    let rows = a.rows as int;
    let cols = a.cols as int;
    assert forall|i: int| 0 <= i < a.data.len() implies a.times(right_id).data[i] == a.data[i]
        && left_id.times(a).data[i] == a.data[i] by {
        lemma_fundamental_div_mod(i, cols);
        let r = i / cols;
        let c = i % cols;
        assert(0 <= r < rows) by (nonlinear_arith)
            requires
                i == cols * r + c,
                0 <= c < cols,
                0 <= i < rows * cols,
        ;
        assert(r * cols + c == i) by (nonlinear_arith)
            requires
                i == cols * r + c,
        ;
        let row = a.row(r);
        let col = a.col(c);
        assert forall|k: int| 0 <= k < cols implies #[trigger] right_id.col(c)[k] == if k == c {
            1i32
        } else {
            0i32
        } by {
            assert(right_id.at(k, c) == if k == c { 1i32 } else { 0i32 });
        }
        lemma_dot_unit_right(row, right_id.col(c), cols, c);
        lemma_wrap_id(a.data[i] as int);
        assert forall|k: int| 0 <= k < rows implies #[trigger] left_id.row(r)[k] == if k == r {
            1i32
        } else {
            0i32
        } by {
            assert(left_id.at(r, k) == if r == k { 1i32 } else { 0i32 });
        }
        lemma_dot_unit_left(left_id.row(r), col, rows, r);
    }
    assert(a.times(right_id).data =~= a.data);
    assert(left_id.times(a).data =~= a.data);
}


/// `f(0) + ... + f(n - 1)`.
pub open spec fn sum(n: int, f: spec_fn(int) -> int) -> int
    decreases n,
{
    if n <= 0 {
        0
    } else {
        sum(n - 1, f) + f(n - 1)
    }
}

proof fn lemma_sum_ext(n: int, f: spec_fn(int) -> int, g: spec_fn(int) -> int)
    requires
        forall|k: int| 0 <= k < n ==> #[trigger] f(k) == g(k),
    ensures
        sum(n, f) == sum(n, g),
    decreases n,
{
    if n > 0 {
        lemma_sum_ext(n - 1, f, g);
    }
}

proof fn lemma_sum_add(n: int, f: spec_fn(int) -> int, g: spec_fn(int) -> int)
    ensures
        sum(n, |k: int| f(k) + g(k)) == sum(n, f) + sum(n, g),
    decreases n,
{
    if n > 0 {
        lemma_sum_add(n - 1, f, g);
    }
}

proof fn lemma_sum_scale_right(n: int, f: spec_fn(int) -> int, c: int)
    ensures
        sum(n, |k: int| f(k) * c) == sum(n, f) * c,
    decreases n,
{
    if n > 0 {
        lemma_sum_scale_right(n - 1, f, c);
        assert((sum(n - 1, f) + f(n - 1)) * c == sum(n - 1, f) * c + f(n - 1) * c)
            by (nonlinear_arith);
    }
}

proof fn lemma_sum_scale_left(n: int, f: spec_fn(int) -> int, c: int)
    ensures
        sum(n, |k: int| c * f(k)) == c * sum(n, f),
    decreases n,
{
    if n > 0 {
        lemma_sum_scale_left(n - 1, f, c);
        assert(c * (sum(n - 1, f) + f(n - 1)) == c * sum(n - 1, f) + c * f(n - 1))
            by (nonlinear_arith);
    }
}

/// Finite double sums can be taken in either order.
proof fn lemma_sum_swap(p: int, n: int, g: spec_fn(int, int) -> int)
    ensures
        sum(p, |j: int| sum(n, |k: int| g(k, j))) == sum(n, |k: int| sum(p, |j: int| g(k, j))),
    decreases p,
{
    if p > 0 {
        lemma_sum_swap(p - 1, n, g);
        let outer = |j: int| sum(n, |k: int| g(k, j));
        let inner_prev = |k: int| sum(p - 1, |j: int| g(k, j));
        let last = |k: int| g(k, p - 1);
        let whole = |k: int| sum(p, |j: int| g(k, j));
        assert(sum(p, outer) == sum(p - 1, outer) + sum(n, last));
        lemma_sum_add(n, inner_prev, last);
        assert forall|k: int| 0 <= k < n implies #[trigger] whole(k) == inner_prev(k) + last(k) by {
            assert(sum(p, |j: int| g(k, j)) == sum(p - 1, |j: int| g(k, j)) + g(k, p - 1));
        }
        lemma_sum_ext(n, |k: int| inner_prev(k) + last(k), whole);
    } else {
        lemma_sum_ext(n, |k: int| sum(p, |j: int| g(k, j)), |k: int| 0);
        lemma_sum_zero(n);
    }
}

proof fn lemma_sum_zero(n: int)
    ensures
        sum(n, |k: int| 0) == 0,
    decreases n,
{
    if n > 0 {
        lemma_sum_zero(n - 1);
    }
}

proof fn lemma_dot_is_sum(a: Seq<i32>, b: Seq<i32>, n: int)
    ensures
        dot(a, b, n) == sum(n, |k: int| a[k] * b[k]),
    decreases n,
{
    if n > 0 {
        lemma_dot_is_sum(a, b, n - 1);
    }
}

/// Wrapping a factor before multiplying does not change the wrapped product.
proof fn lemma_wrap_mul_left(x: int, y: int)
    ensures
        wrap(wrap(x) * y) == wrap(x * y),
{
    let k = lemma_wrap_congruent(x);
    assert((x + modulus() * k) * y == x * y + modulus() * (k * y)) by (nonlinear_arith);
    lemma_wrap_shift(x * y, k * y);
}

/// Sums whose terms agree after wrapping agree after wrapping.
proof fn lemma_wrap_sum(n: int, f: spec_fn(int) -> int, g: spec_fn(int) -> int)
    requires
        forall|k: int| 0 <= k < n ==> wrap(#[trigger] f(k)) == wrap(g(k)),
    ensures
        wrap(sum(n, f)) == wrap(sum(n, g)),
    decreases n,
{
    if n > 0 {
        lemma_wrap_sum(n - 1, f, g);
        let sf = sum(n - 1, f);
        let sg = sum(n - 1, g);
        lemma_wrap_add_left(sf, f(n - 1));
        lemma_wrap_add_left(sg, f(n - 1));
        lemma_wrap_add_right(sg, f(n - 1));
        lemma_wrap_add_right(sg, g(n - 1));
    }
}

/// The matrix product is associative: `(a × b) × c == a × (b × c)`, for
/// shapes that chain, wrap-around included.
pub proof fn lemma_product_associative(a: MatrixView, b: MatrixView, c: MatrixView)
    requires
        a.wf(),
        b.wf(),
        c.wf(),
        a.cols == b.rows,
        b.cols == c.rows,
    ensures
        a.times(b).times(c) == a.times(b.times(c)),
{
    let ab = a.times(b);
    let bc = b.times(c);
    let lhs = ab.times(c);
    let rhs = a.times(bc);
    let n = a.cols as int;
    let p = b.cols as int;
    let q = c.cols as int;
    let m = a.rows as int;
    assert forall|idx: int| 0 <= idx < lhs.data.len() implies lhs.data[idx] == rhs.data[idx] by {
        let i = idx / q;
        let l = idx % q;
        assert(0 <= i < m && 0 <= l < q) by {
            lemma_fundamental_div_mod(idx, q);
            assert(0 <= i < m) by (nonlinear_arith)
                requires
                    idx == q * i + l,
                    0 <= l < q,
                    0 <= idx < m * q,
            ;
        }
        lemma_cell_of_product(a, b, c, i, l);
    }
    assert(lhs.data =~= rhs.data);
}

/// One cell of the associativity law.
proof fn lemma_cell_of_product(a: MatrixView, b: MatrixView, c: MatrixView, i: int, l: int)
    requires
        a.wf(),
        b.wf(),
        c.wf(),
        a.cols == b.rows,
        b.cols == c.rows,
        0 <= i < a.rows,
        0 <= l < c.cols,
    ensures
        a.times(b).product_cell(c, i, l) == a.product_cell(b.times(c), i, l),
{
    let ab = a.times(b);
    let bc = b.times(c);
    let n = a.cols as int;
    let p = b.cols as int;
    let q = c.cols as int;
    let e_ab = |j: int| dot(a.row(i), b.col(j), n);
    let e_bc = |k: int| dot(b.row(k), c.col(l), p);
    // Cells of the inner products.
    assert forall|j: int| 0 <= j < p implies #[trigger] ab.row(i)[j] == wrap(e_ab(j)) by {
        lemma_fundamental_div_mod_converse(i * p + j, p, i, j);
        assert(0 <= i * p + j < a.rows * p) by (nonlinear_arith)
            requires
                0 <= i < a.rows,
                0 <= j < p,
        ;
    }
    assert forall|k: int| 0 <= k < n implies #[trigger] bc.col(l)[k] == wrap(e_bc(k)) by {
        lemma_fundamental_div_mod_converse(k * q + l, q, k, l);
        assert(0 <= k * q + l < b.rows * q) by (nonlinear_arith)
            requires
                0 <= k < b.rows,
                0 <= l < q,
        ;
    }
    // Left side: wrap of the sum over j of e_ab(j) * c[j][l].
    let lt = |j: int| ab.row(i)[j] * c.col(l)[j];
    let lt_exact = |j: int| e_ab(j) * c.col(l)[j];
    lemma_dot_is_sum(ab.row(i), c.col(l), p);
    assert forall|j: int| 0 <= j < p implies wrap(#[trigger] lt(j)) == wrap(lt_exact(j)) by {
        lemma_wrap_mul_left(e_ab(j), c.col(l)[j] as int);
    }
    lemma_wrap_sum(p, lt, lt_exact);
    // Right side: wrap of the sum over k of a[i][k] * e_bc(k).
    let rt = |k: int| a.row(i)[k] * bc.col(l)[k];
    let rt_exact = |k: int| a.row(i)[k] * e_bc(k);
    lemma_dot_is_sum(a.row(i), bc.col(l), n);
    assert forall|k: int| 0 <= k < n implies wrap(#[trigger] rt(k)) == wrap(rt_exact(k)) by {
        lemma_wrap_mul_left(e_bc(k), a.row(i)[k] as int);
        assert(wrap(e_bc(k)) * a.row(i)[k] == a.row(i)[k] * wrap(e_bc(k))) by (nonlinear_arith);
        assert(e_bc(k) * a.row(i)[k] == a.row(i)[k] * e_bc(k)) by (nonlinear_arith);
    }
    lemma_wrap_sum(n, rt, rt_exact);
    // The exact sums agree.
    let g = |k: int, j: int| a.row(i)[k] * b.col(j)[k] * c.col(l)[j];
    assert forall|j: int| 0 <= j < p implies #[trigger] lt_exact(j) == sum(n, |k: int| g(k, j)) by {
        lemma_dot_is_sum(a.row(i), b.col(j), n);
        lemma_sum_scale_right(n, |k: int| a.row(i)[k] * b.col(j)[k], c.col(l)[j] as int);
        lemma_sum_ext(
            n,
            |k: int| (|k: int| a.row(i)[k] * b.col(j)[k])(k) * c.col(l)[j],
            |k: int| g(k, j),
        );
    }
    lemma_sum_ext(p, lt_exact, |j: int| sum(n, |k: int| g(k, j)));
    lemma_sum_swap(p, n, g);
    assert forall|k: int| 0 <= k < n implies #[trigger] rt_exact(k) == sum(p, |j: int| g(k, j)) by {
        lemma_dot_is_sum(b.row(k), c.col(l), p);
        lemma_sum_scale_left(p, |j: int| b.row(k)[j] * c.col(l)[j], a.row(i)[k] as int);
        assert forall|j: int| 0 <= j < p implies a.row(i)[k] * (#[trigger] (b.row(k)[j] * c.col(
            l,
        )[j])) == g(k, j) by {
            assert(b.row(k)[j] == b.col(j)[k]);
            assert(a.row(i)[k] * (b.col(j)[k] * c.col(l)[j]) == a.row(i)[k] * b.col(j)[k] * c.col(
                l,
            )[j]) by (nonlinear_arith);
        }
        lemma_sum_ext(
            p,
            |j: int| a.row(i)[k] * (|j: int| b.row(k)[j] * c.col(l)[j])(j),
            |j: int| g(k, j),
        );
    }
    lemma_sum_ext(n, rt_exact, |k: int| sum(p, |j: int| g(k, j)));
}

} // verus!
