//! Valid-mode two-dimensional convolution of row-major integer grids.

use ndarray_conv::{ConvExt, ConvMode, PaddingMode};
use vstd::prelude::*;

verus! {

pub open spec fn abs(x: int) -> int {
    if x < 0 {
        -x
    } else {
        x
    }
}

/// Sum of the first `j` products of row `i` of the window whose top-left
/// input cell is `(r, c)`; the kernel is read flipped on both axes.
pub open spec fn window_row(
    a: Seq<int>,
    acols: int,
    k: Seq<int>,
    kr: int,
    kc: int,
    r: int,
    c: int,
    i: int,
    j: int,
) -> int
    decreases j,
{
    if j <= 0 {
        0
    } else {
        window_row(a, acols, k, kr, kc, r, c, i, j - 1) + a[(r + i) * acols + c + j - 1] * k[(kr
            - 1 - i) * kc + (kc - j)]
    }
}

/// Sum of the first `i` rows of the window whose top-left input cell is `(r, c)`.
pub open spec fn window(a: Seq<int>, acols: int, k: Seq<int>, kr: int, kc: int, r: int, c: int, i: int) -> int
    decreases i,
{
    if i <= 0 {
        0
    } else {
        window(a, acols, k, kr, kc, r, c, i - 1) + window_row(a, acols, k, kr, kc, r, c, i - 1, kc)
    }
}

/// The convolution of `a` (rows of `acols` cells) with the `kr` x `kc` kernel `k`
/// at output cell `(r, c)`, in valid mode.
pub open spec fn conv_at(a: Seq<int>, acols: int, k: Seq<int>, kr: int, kc: int, r: int, c: int) -> int {
    window(a, acols, k, kr, kc, r, c, kr)
}

pub open spec fn ints(v: Seq<i64>) -> Seq<int> {
    v.map_values(|x: i64| x as int)
}

/// Every product of a cell of `a` with a cell of `k`, taken `n` times, fits in `i64`.
pub open spec fn products_fit(a: Seq<i64>, k: Seq<i64>, n: int) -> bool {
    forall|x: int, y: int|
        0 <= x < a.len() && 0 <= y < k.len() ==> n * abs(a[x] as int) * abs(k[y] as int)
            <= i64::MAX
}

/// Relies on ndarray_conv's `ConvExt::conv` in `ConvMode::Valid`: each output cell
/// is the sum of the products of the input window under the kernel flipped on
/// both axes, accumulated in the element type. In valid mode no padding is added,
/// so the padding mode does not matter.
#[verifier::external_body]
pub(crate) fn conv_valid(a: &Vec<i64>, rows: usize, cols: usize, k: &Vec<i64>, kr: usize, kc: usize) -> (out: Vec<i64>)
    requires
        a@.len() == rows * cols,
        k@.len() == kr * kc,
        1 <= kr <= rows,
        1 <= kc <= cols,
        products_fit(a@, k@, kr * kc),
    ensures
        out@.len() == (rows - kr + 1) * (cols - kc + 1),
        forall|i: int|
            0 <= i < out@.len() ==> #[trigger] out@[i] == conv_at(
                ints(a@),
                cols as int,
                ints(k@),
                kr as int,
                kc as int,
                i / (cols - kc + 1),
                i % (cols - kc + 1),
            ),
{
    let input = ndarray::Array2::from_shape_vec((rows, cols), a.clone()).unwrap();
    let kernel = ndarray::Array2::from_shape_vec((kr, kc), k.clone()).unwrap();
    let r = input.conv(&kernel, ConvMode::Valid, PaddingMode::Replicate).unwrap();
    r.into_iter().collect()
}

/// The magnitude of a product is at most the product of the two bounds.
pub proof fn lemma_product_bound(x: int, y: int, xa: int, yb: int)
    requires
        abs(x) <= xa,
        abs(y) <= yb,
    ensures
        abs(x * y) <= xa * yb,
{
    assert(abs(x * y) == abs(x) * abs(y)) by (nonlinear_arith);
    assert(abs(x) * abs(y) <= xa * yb) by (nonlinear_arith)
        requires
            0 <= abs(x) <= xa,
            0 <= abs(y) <= yb,
    ;
}

/// The window whose top-left input cell is `(r, c)` lies inside `a` and the
/// kernel fills `k`.
pub open spec fn window_fits(a: Seq<int>, acols: int, k: Seq<int>, kr: int, kc: int, r: int, c: int) -> bool {
    &&& 0 <= r
    &&& 0 <= c
    &&& 1 <= kr
    &&& 1 <= kc
    &&& c + kc <= acols
    &&& (r + kr) * acols <= a.len()
    &&& k.len() == kr * kc
}

proof fn lemma_indices(acols: int, kr: int, kc: int, r: int, c: int, i: int, j: int)
    requires
        0 <= r,
        0 <= c,
        c + kc <= acols,
        0 <= i < kr,
        1 <= j <= kc,
    ensures
        0 <= (r + i) * acols + c + j - 1 < (r + kr) * acols,
        0 <= (kr - 1 - i) * kc + (kc - j) < kr * kc,
{
    assert(0 <= (r + i) * acols) by (nonlinear_arith)
        requires
            0 <= r + i,
            0 <= acols,
    ;
    assert((r + i) * acols + acols <= (r + kr) * acols) by (nonlinear_arith)
        requires
            r + i + 1 <= r + kr,
            0 <= acols,
    ;
    assert(0 <= (kr - 1 - i) * kc) by (nonlinear_arith)
        requires
            0 <= kr - 1 - i,
            0 <= kc,
    ;
    assert((kr - 1 - i) * kc + kc <= kr * kc) by (nonlinear_arith)
        requires
            kr - 1 - i + 1 <= kr,
            0 <= kc,
    ;
}

proof fn lemma_window_row_bound(
    a: Seq<int>,
    acols: int,
    k: Seq<int>,
    kr: int,
    kc: int,
    r: int,
    c: int,
    i: int,
    j: int,
    xa: int,
    yb: int,
)
    requires
        window_fits(a, acols, k, kr, kc, r, c),
        0 <= i < kr,
        0 <= j <= kc,
        forall|x: int| 0 <= x < a.len() ==> abs(#[trigger] a[x]) <= xa,
        forall|y: int| 0 <= y < k.len() ==> abs(#[trigger] k[y]) <= yb,
    ensures
        abs(window_row(a, acols, k, kr, kc, r, c, i, j)) <= j * (xa * yb),
    decreases j,
{
    if j > 0 {
        lemma_window_row_bound(a, acols, k, kr, kc, r, c, i, j - 1, xa, yb);
        lemma_indices(acols, kr, kc, r, c, i, j);
        let x = (r + i) * acols + c + j - 1;
        let y = (kr - 1 - i) * kc + (kc - j);
        lemma_product_bound(a[x], k[y], xa, yb);
        assert(j * (xa * yb) == (j - 1) * (xa * yb) + xa * yb) by (nonlinear_arith);
        assert(abs(window_row(a, acols, k, kr, kc, r, c, i, j)) <= abs(window_row(a, acols, k, kr, kc, r, c, i, j - 1)) + abs(a[x] * k[y]));
    } else {
        assert(j * (xa * yb) == 0) by (nonlinear_arith)
            requires
                j == 0,
        ;
    }
}

/// Each output cell of a valid-mode convolution is at most `kr * kc * xa * yb`
/// in magnitude where the input cells are at most `xa` and the kernel cells at
/// most `yb`.
pub proof fn lemma_conv_bound(
    a: Seq<int>,
    acols: int,
    k: Seq<int>,
    kr: int,
    kc: int,
    r: int,
    c: int,
    xa: int,
    yb: int,
)
    requires
        window_fits(a, acols, k, kr, kc, r, c),
        forall|x: int| 0 <= x < a.len() ==> abs(#[trigger] a[x]) <= xa,
        forall|y: int| 0 <= y < k.len() ==> abs(#[trigger] k[y]) <= yb,
    ensures
        abs(conv_at(a, acols, k, kr, kc, r, c)) <= kr * kc * xa * yb,
{
    lemma_window_bound(a, acols, k, kr, kc, r, c, kr, xa, yb);
    assert(kr * (kc * (xa * yb)) == kr * kc * xa * yb) by (nonlinear_arith);
}

proof fn lemma_window_bound(
    a: Seq<int>,
    acols: int,
    k: Seq<int>,
    kr: int,
    kc: int,
    r: int,
    c: int,
    i: int,
    xa: int,
    yb: int,
)
    requires
        window_fits(a, acols, k, kr, kc, r, c),
        0 <= i <= kr,
        forall|x: int| 0 <= x < a.len() ==> abs(#[trigger] a[x]) <= xa,
        forall|y: int| 0 <= y < k.len() ==> abs(#[trigger] k[y]) <= yb,
    ensures
        abs(window(a, acols, k, kr, kc, r, c, i)) <= i * (kc * (xa * yb)),
    decreases i,
{
    if i > 0 {
        lemma_window_bound(a, acols, k, kr, kc, r, c, i - 1, xa, yb);
        lemma_window_row_bound(a, acols, k, kr, kc, r, c, i - 1, kc, xa, yb);
        assert(i * (kc * (xa * yb)) == (i - 1) * (kc * (xa * yb)) + kc * (xa * yb))
            by (nonlinear_arith);
    } else {
        assert(i * (kc * (xa * yb)) == 0) by (nonlinear_arith)
            requires
                i == 0,
        ;
    }
}

/// Output cell `i` of a valid-mode convolution, read in row-major order, has a
/// window that lies inside the input.
pub proof fn lemma_out_cell_fits(a: Seq<int>, arows: int, acols: int, k: Seq<int>, kr: int, kc: int, i: int)
    requires
        a.len() == arows * acols,
        k.len() == kr * kc,
        1 <= kr <= arows,
        1 <= kc <= acols,
        0 <= i < (arows - kr + 1) * (acols - kc + 1),
    ensures
        window_fits(a, acols, k, kr, kc, i / (acols - kc + 1), i % (acols - kc + 1)),
        0 <= i / (acols - kc + 1) < arows - kr + 1,
        0 <= i % (acols - kc + 1) < acols - kc + 1,
{
    let ow = acols - kc + 1;
    let oh = arows - kr + 1;
    vstd::arithmetic::div_mod::lemma_fundamental_div_mod(i, ow);
    let q = i / ow;
    assert(0 <= q < oh) by (nonlinear_arith)
        requires
            i == ow * q + i % ow,
            0 <= i % ow < ow,
            0 <= i < oh * ow,
            0 < ow,
    ;
    assert((q + kr) * acols <= arows * acols) by (nonlinear_arith)
        requires
            q + kr <= arows,
            0 <= acols,
    ;
}

proof fn lemma_window_zero(a: Seq<int>, acols: int, k: Seq<int>, kr: int, kc: int, r: int, c: int, i: int, j: int)
    requires
        window_fits(a, acols, k, kr, kc, r, c),
        0 <= i <= kr,
        0 <= j <= kc,
        forall|x: int| 0 <= x < a.len() ==> #[trigger] a[x] == 0,
    ensures
        window(a, acols, k, kr, kc, r, c, i) == 0,
        i < kr ==> window_row(a, acols, k, kr, kc, r, c, i, j) == 0,
    decreases i, j,
{
    if j > 0 && i < kr {
        lemma_window_zero(a, acols, k, kr, kc, r, c, i, j - 1);
        lemma_indices(acols, kr, kc, r, c, i, j);
    }
    if i > 0 {
        lemma_window_zero(a, acols, k, kr, kc, r, c, i - 1, kc);
    }
}

/// A valid-mode convolution of an all-zero input is zero everywhere.
pub proof fn lemma_conv_zero(a: Seq<int>, acols: int, k: Seq<int>, kr: int, kc: int, r: int, c: int)
    requires
        window_fits(a, acols, k, kr, kc, r, c),
        forall|x: int| 0 <= x < a.len() ==> #[trigger] a[x] == 0,
    ensures
        conv_at(a, acols, k, kr, kc, r, c) == 0,
{
    lemma_window_zero(a, acols, k, kr, kc, r, c, kr, 0);
}

} // verus!
