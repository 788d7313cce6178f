//! The stages of the Harris response: gradients, structure-tensor sums, the
//! corner score and the zero border that brings the surface back to frame size.

use crate::conv::{
    abs, conv_at, conv_valid, ints, lemma_conv_bound, lemma_out_cell_fits, products_fit,
};
use vstd::prelude::*;

verus! {

/// Largest side of the summing window; it keeps every score within `i128`.
pub const MAX_PATCH_SIZE: usize = 16384;

/// Largest magnitude of a gradient of 8-bit samples under the 3 x 3 kernels.
pub const GRADIENT_BOUND: i64 = 4590;

/// Largest magnitude of a product of two gradients.
pub const PRODUCT_BOUND: i64 = 21068100;

/// Largest magnitude of a window sum of gradient products.
pub const TENSOR_BOUND: i64 = 5700000000000000;

/// An 8-bit grayscale image, row-major.
pub struct GrayFrame {
    pub rows: usize,
    pub cols: usize,
    pub pixels: Vec<u8>,
}

impl GrayFrame {
    pub open spec fn wf(&self) -> bool {
        self.pixels@.len() == self.rows * self.cols
    }

    pub open spec fn view(&self) -> Seq<int> {
        self.pixels@.map_values(|p: u8| p as int)
    }
}

/// A row-major grid of integer samples: gradients, their products, and their
/// window sums.
pub struct Field {
    pub rows: usize,
    pub cols: usize,
    pub cells: Vec<i64>,
}

impl Field {
    pub open spec fn wf(&self) -> bool {
        self.cells@.len() == self.rows * self.cols
    }

    pub open spec fn view(&self) -> Seq<int> {
        ints(self.cells@)
    }

    pub open spec fn bounded(&self, b: int) -> bool {
        forall|i: int| 0 <= i < self.cells@.len() ==> abs(#[trigger] self.cells@[i] as int) <= b
    }
}

pub open spec fn sobel_x() -> Seq<int> {
    seq![-1, 0, 1, -2, 0, 2, -1, 0, 1]
}

pub open spec fn sobel_y() -> Seq<int> {
    seq![-1, -2, -1, 0, 0, 0, 1, 2, 1]
}

/// The valid-mode convolution of the `rows` x `cols` grid `img` with a 3 x 3 kernel.
pub open spec fn gradient(img: Seq<int>, rows: int, cols: int, kernel: Seq<int>) -> Seq<int> {
    Seq::new(
        ((rows - 2) * (cols - 2)) as nat,
        |i: int| conv_at(img, cols, kernel, 3, 3, i / (cols - 2), i % (cols - 2)),
    )
}

fn to_cells(f: &GrayFrame) -> (r: Vec<i64>)
    requires
        f.wf(),
    ensures
        r@.len() == f.pixels@.len(),
        ints(r@) == f@,
        forall|i: int| 0 <= i < r@.len() ==> 0 <= #[trigger] r@[i] <= 255,
{
    let mut r: Vec<i64> = Vec::new();
    let mut i: usize = 0;
    while i < f.pixels.len()
        invariant
            i <= f.pixels@.len(),
            r@.len() == i,
            forall|j: int| 0 <= j < i ==> #[trigger] r@[j] == f.pixels@[j] as i64,
        decreases f.pixels@.len() - i,
    {
        r.push(f.pixels[i] as i64);
        i = i + 1;
    }
    assert(ints(r@) =~= f@);
    r
}

fn gradient_cells(cells: &Vec<i64>, rows: usize, cols: usize, kernel: Vec<i64>) -> (r: Vec<i64>)
    requires
        cells@.len() == rows * cols,
        3 <= rows,
        3 <= cols,
        forall|i: int| 0 <= i < cells@.len() ==> 0 <= #[trigger] cells@[i] <= 255,
        kernel@.len() == 9,
        forall|i: int| 0 <= i < 9 ==> -2 <= #[trigger] kernel@[i] <= 2,
    ensures
        r@.len() == (rows - 2) * (cols - 2),
        ints(r@) == gradient(ints(cells@), rows as int, cols as int, ints(kernel@)),
        forall|i: int| 0 <= i < r@.len() ==> abs(#[trigger] r@[i] as int) <= GRADIENT_BOUND,
{
    assert forall|x: int, y: int| 0 <= x < cells@.len() && 0 <= y < kernel@.len() implies 9 * abs(
        cells@[x] as int,
    ) * abs(kernel@[y] as int) <= i64::MAX by {
        let ax = abs(cells@[x] as int);
        let ky = abs(kernel@[y] as int);
        assert(9 * ax * ky <= 9 * 255 * 2) by (nonlinear_arith)
            requires
                0 <= ax <= 255,
                0 <= ky <= 2,
        ;
    }
    assert(products_fit(cells@, kernel@, 9));
    let r = conv_valid(cells, rows, cols, &kernel, 3, 3);
    assert((rows - 3 + 1) * (cols - 3 + 1) == (rows - 2) * (cols - 2));
    let ghost a = ints(cells@);
    let ghost k = ints(kernel@);
    assert(ints(r@) =~= gradient(a, rows as int, cols as int, k));
    assert forall|i: int| 0 <= i < r@.len() implies abs(#[trigger] r@[i] as int) <= GRADIENT_BOUND by {
        lemma_out_cell_fits(a, rows as int, cols as int, k, 3, 3, i);
        lemma_conv_bound(a, cols as int, k, 3, 3, i / (cols as int - 2), i % (cols as int - 2), 255, 2);
    }
    r
}

/// The horizontal and vertical gradients of `f`: its valid-mode convolutions
/// with the 3 x 3 Sobel kernels, two rows and two columns smaller than `f`.
pub fn gradient_field(f: &GrayFrame) -> (r: (Field, Field))
    requires
        f.wf(),
        3 <= f.rows,
        3 <= f.cols,
    ensures
        r.0.rows == f.rows - 2 && r.0.cols == f.cols - 2 && r.0.wf(),
        r.1.rows == f.rows - 2 && r.1.cols == f.cols - 2 && r.1.wf(),
        r.0@ == gradient(f@, f.rows as int, f.cols as int, sobel_x()),
        r.1@ == gradient(f@, f.rows as int, f.cols as int, sobel_y()),
        r.0.bounded(GRADIENT_BOUND as int),
        r.1.bounded(GRADIENT_BOUND as int),
{
    let cells = to_cells(f);
    let kx: Vec<i64> = vec![-1, 0, 1, -2, 0, 2, -1, 0, 1];
    let ky: Vec<i64> = vec![-1, -2, -1, 0, 0, 0, 1, 2, 1];
    assert(ints(kx@) =~= sobel_x());
    assert(ints(ky@) =~= sobel_y());
    let gx = gradient_cells(&cells, f.rows, f.cols, kx);
    let gy = gradient_cells(&cells, f.rows, f.cols, ky);
    (Field { rows: f.rows - 2, cols: f.cols - 2, cells: gx }, Field {
        rows: f.rows - 2,
        cols: f.cols - 2,
        cells: gy,
    })
}

pub open spec fn products(a: Seq<int>, b: Seq<int>) -> Seq<int> {
    Seq::new(a.len(), |i: int| a[i] * b[i])
}

pub open spec fn ones(n: int) -> Seq<int> {
    Seq::new(n as nat, |i: int| 1)
}

/// The sums of `a` (a `rows` x `cols` grid) over every `p` x `p` window that
/// lies inside it, in row-major order.
pub open spec fn box_sum(a: Seq<int>, rows: int, cols: int, p: int) -> Seq<int> {
    Seq::new(
        ((rows - p + 1) * (cols - p + 1)) as nat,
        |i: int| conv_at(a, cols, ones(p * p), p, p, i / (cols - p + 1), i % (cols - p + 1)),
    )
}

/// The three window-summed entries of the second-moment matrix.
pub struct TensorSums {
    pub sxx: Field,
    pub syy: Field,
    pub sxy: Field,
}

fn product_cells(a: &Vec<i64>, b: &Vec<i64>) -> (r: Vec<i64>)
    requires
        a@.len() == b@.len(),
        forall|i: int| 0 <= i < a@.len() ==> abs(#[trigger] a@[i] as int) <= GRADIENT_BOUND,
        forall|i: int| 0 <= i < b@.len() ==> abs(#[trigger] b@[i] as int) <= GRADIENT_BOUND,
    ensures
        r@.len() == a@.len(),
        ints(r@) == products(ints(a@), ints(b@)),
        forall|i: int| 0 <= i < r@.len() ==> abs(#[trigger] r@[i] as int) <= PRODUCT_BOUND,
{
    let mut r: Vec<i64> = Vec::new();
    let mut i: usize = 0;
    while i < a.len()
        invariant
            a@.len() == b@.len(),
            i <= a@.len(),
            r@.len() == i,
            forall|j: int| 0 <= j < a@.len() ==> abs(#[trigger] a@[j] as int) <= GRADIENT_BOUND,
            forall|j: int| 0 <= j < b@.len() ==> abs(#[trigger] b@[j] as int) <= GRADIENT_BOUND,
            forall|j: int|
                0 <= j < i ==> #[trigger] r@[j] as int == (a@[j] as int) * (b@[j] as int),
            forall|j: int| 0 <= j < i ==> abs(#[trigger] r@[j] as int) <= PRODUCT_BOUND,
        decreases a@.len() - i,
    {
        let x = a[i];
        let y = b[i];
        proof {
            crate::conv::lemma_product_bound(x as int, y as int, GRADIENT_BOUND as int, GRADIENT_BOUND as int);
        }
        r.push(x * y);
        i = i + 1;
    }
    assert(ints(r@) =~= products(ints(a@), ints(b@)));
    r
}

fn window_sums(a: &Vec<i64>, rows: usize, cols: usize, p: usize) -> (r: Vec<i64>)
    requires
        a@.len() == rows * cols,
        1 <= p <= rows,
        p <= cols,
        p <= MAX_PATCH_SIZE,
        forall|i: int| 0 <= i < a@.len() ==> abs(#[trigger] a@[i] as int) <= PRODUCT_BOUND,
    ensures
        r@.len() == (rows - p + 1) * (cols - p + 1),
        ints(r@) == box_sum(ints(a@), rows as int, cols as int, p as int),
        forall|i: int| 0 <= i < r@.len() ==> abs(#[trigger] r@[i] as int) <= TENSOR_BOUND,
{
    assert(p * p <= MAX_PATCH_SIZE * MAX_PATCH_SIZE) by (nonlinear_arith)
        requires
            p <= MAX_PATCH_SIZE,
    ;
    let n: usize = p * p;
    let mut k: Vec<i64> = Vec::new();
    while k.len() < n
        invariant
            k@.len() <= n,
            forall|j: int| 0 <= j < k@.len() ==> #[trigger] k@[j] == 1,
        decreases n - k@.len(),
    {
        k.push(1);
    }
    assert(ints(k@) =~= ones(p * p));
    assert forall|x: int, y: int| 0 <= x < a@.len() && 0 <= y < k@.len() implies (p * p) * abs(
        a@[x] as int,
    ) * abs(k@[y] as int) <= i64::MAX by {
        let ax = abs(a@[x] as int);
        assert((p * p) * ax * 1 <= MAX_PATCH_SIZE * MAX_PATCH_SIZE * PRODUCT_BOUND) by (nonlinear_arith)
            requires
                0 <= ax <= PRODUCT_BOUND,
                0 <= p * p <= MAX_PATCH_SIZE * MAX_PATCH_SIZE,
        ;
    }
    let r = conv_valid(a, rows, cols, &k, p, p);
    let ghost g = ints(a@);
    let ghost kk = ints(k@);
    assert(ints(r@) =~= box_sum(g, rows as int, cols as int, p as int));
    assert forall|i: int| 0 <= i < r@.len() implies abs(#[trigger] r@[i] as int) <= TENSOR_BOUND by {
        lemma_out_cell_fits(g, rows as int, cols as int, kk, p as int, p as int, i);
        lemma_conv_bound(
            g,
            cols as int,
            kk,
            p as int,
            p as int,
            i / (cols as int - p + 1),
            i % (cols as int - p + 1),
            PRODUCT_BOUND as int,
            1,
        );
        assert(p * p * PRODUCT_BOUND * 1 <= TENSOR_BOUND) by (nonlinear_arith)
            requires
                0 <= p * p <= MAX_PATCH_SIZE * MAX_PATCH_SIZE,
        ;
    }
    r
}

/// The structure-tensor sums: the products `ix * ix`, `iy * iy` and `ix * iy`,
/// each summed over every `patch_size` x `patch_size` window in valid mode.
pub fn structure_tensor(ix: &Field, iy: &Field, patch_size: usize) -> (r: TensorSums)
    requires
        ix.wf(),
        iy.wf(),
        iy.rows == ix.rows,
        iy.cols == ix.cols,
        ix.bounded(GRADIENT_BOUND as int),
        iy.bounded(GRADIENT_BOUND as int),
        1 <= patch_size <= ix.rows,
        patch_size <= ix.cols,
        patch_size <= MAX_PATCH_SIZE,
    ensures
        r.sxx.rows == ix.rows - patch_size + 1 && r.sxx.cols == ix.cols - patch_size + 1,
        r.syy.rows == r.sxx.rows && r.syy.cols == r.sxx.cols,
        r.sxy.rows == r.sxx.rows && r.sxy.cols == r.sxx.cols,
        r.sxx.wf() && r.syy.wf() && r.sxy.wf(),
        r.sxx@ == box_sum(products(ix@, ix@), ix.rows as int, ix.cols as int, patch_size as int),
        r.syy@ == box_sum(products(iy@, iy@), ix.rows as int, ix.cols as int, patch_size as int),
        r.sxy@ == box_sum(products(ix@, iy@), ix.rows as int, ix.cols as int, patch_size as int),
        r.sxx.bounded(TENSOR_BOUND as int),
        r.syy.bounded(TENSOR_BOUND as int),
        r.sxy.bounded(TENSOR_BOUND as int),
{
    let xx = product_cells(&ix.cells, &ix.cells);
    let yy = product_cells(&iy.cells, &iy.cells);
    let xy = product_cells(&ix.cells, &iy.cells);
    let rows = ix.rows - patch_size + 1;
    let cols = ix.cols - patch_size + 1;
    let sxx = window_sums(&xx, ix.rows, ix.cols, patch_size);
    let syy = window_sums(&yy, ix.rows, ix.cols, patch_size);
    let sxy = window_sums(&xy, ix.rows, ix.cols, patch_size);
    TensorSums {
        sxx: Field { rows, cols, cells: sxx },
        syy: Field { rows, cols, cells: syy },
        sxy: Field { rows, cols, cells: sxy },
    }
}

/// The sensitivity `kappa` of the Harris score as the fraction `num / den`.
#[derive(Clone, Copy, Debug, PartialEq, Eq, Structural)]
pub struct Sensitivity {
    pub num: u16,
    pub den: u16,
}

/// A row-major grid of Harris scores.
pub struct Surface {
    pub rows: usize,
    pub cols: usize,
    pub cells: Vec<i128>,
}

impl Surface {
    pub open spec fn wf(&self) -> bool {
        self.cells@.len() == self.rows * self.cols
    }

    pub open spec fn view(&self) -> Seq<int> {
        self.cells@.map_values(|x: i128| x as int)
    }
}

/// The Harris score `Sxx * Syy - Sxy^2 - kappa * (Sxx + Syy)^2` scaled by `den`,
/// with `kappa = num / den`: for `den > 0` it has the sign and the order of the
/// unscaled score.
pub open spec fn harris_score(sxx: int, syy: int, sxy: int, num: int, den: int) -> int {
    den * (sxx * syy - sxy * sxy) - num * ((sxx + syy) * (sxx + syy))
}

pub open spec fn scores(sxx: Seq<int>, syy: Seq<int>, sxy: Seq<int>, kappa: Sensitivity) -> Seq<int> {
    Seq::new(
        sxx.len(),
        |i: int| harris_score(sxx[i], syy[i], sxy[i], kappa.num as int, kappa.den as int),
    )
}

fn score_of(a: i64, b: i64, c: i64, kappa: Sensitivity) -> (r: i128)
    requires
        abs(a as int) <= TENSOR_BOUND,
        abs(b as int) <= TENSOR_BOUND,
        abs(c as int) <= TENSOR_BOUND,
    ensures
        r as int == harris_score(a as int, b as int, c as int, kappa.num as int, kappa.den as int),
{
    let ghost t: int = TENSOR_BOUND as int;
    let x = a as i128;
    let y = b as i128;
    let z = c as i128;
    proof {
        crate::conv::lemma_product_bound(x as int, y as int, t, t);
        crate::conv::lemma_product_bound(z as int, z as int, t, t);
    }
    let det = x * y - z * z;
    let tr = x + y;
    proof {
        crate::conv::lemma_product_bound(tr as int, tr as int, 2 * t, 2 * t);
        crate::conv::lemma_product_bound(kappa.den as int, det as int, 65535, 2 * (t * t));
        crate::conv::lemma_product_bound(kappa.num as int, (tr * tr) as int, 65535, (2 * t) * (2 * t));
    }
    (kappa.den as i128) * det - (kappa.num as i128) * (tr * tr)
}

/// The Harris score of every cell of the three co-indexed tensor sums.
pub fn corner_response(t: &TensorSums, kappa: Sensitivity) -> (r: Surface)
    requires
        t.sxx.wf() && t.syy.wf() && t.sxy.wf(),
        t.syy.rows == t.sxx.rows && t.syy.cols == t.sxx.cols,
        t.sxy.rows == t.sxx.rows && t.sxy.cols == t.sxx.cols,
        t.sxx.bounded(TENSOR_BOUND as int),
        t.syy.bounded(TENSOR_BOUND as int),
        t.sxy.bounded(TENSOR_BOUND as int),
    ensures
        r.rows == t.sxx.rows && r.cols == t.sxx.cols && r.wf(),
        r@ == scores(t.sxx@, t.syy@, t.sxy@, kappa),
{
    let n = t.sxx.cells.len();
    let mut out: Vec<i128> = Vec::new();
    let mut i: usize = 0;
    while i < n
        invariant
            n == t.sxx.cells@.len(),
            t.sxx.wf() && t.syy.wf() && t.sxy.wf(),
            t.syy.rows == t.sxx.rows && t.syy.cols == t.sxx.cols,
            t.sxy.rows == t.sxx.rows && t.sxy.cols == t.sxx.cols,
            t.sxx.bounded(TENSOR_BOUND as int),
            t.syy.bounded(TENSOR_BOUND as int),
            t.sxy.bounded(TENSOR_BOUND as int),
            i <= n,
            out@.len() == i,
            forall|j: int|
                0 <= j < i ==> #[trigger] out@[j] as int == harris_score(
                    t.sxx.cells@[j] as int,
                    t.syy.cells@[j] as int,
                    t.sxy.cells@[j] as int,
                    kappa.num as int,
                    kappa.den as int,
                ),
        decreases n - i,
    {
        let v = score_of(t.sxx.cells[i], t.syy.cells[i], t.sxy.cells[i], kappa);
        out.push(v);
        i = i + 1;
    }
    let r = Surface { rows: t.sxx.rows, cols: t.sxx.cols, cells: out };
    assert(r@ =~= scores(t.sxx@, t.syy@, t.sxy@, kappa));
    r
}

/// The cell `(r, c)` of `a` (a `rows` x `cols` grid) framed by `pad` zeros on
/// every side.
pub open spec fn padded_at(a: Seq<int>, rows: int, cols: int, pad: int, r: int, c: int) -> int {
    if pad <= r < rows + pad && pad <= c < cols + pad {
        a[(r - pad) * cols + (c - pad)]
    } else {
        0
    }
}

pub open spec fn padded(a: Seq<int>, rows: int, cols: int, pad: int) -> Seq<int> {
    Seq::new(
        ((rows + 2 * pad) * (cols + 2 * pad)) as nat,
        |i: int| padded_at(a, rows, cols, pad, i / (cols + 2 * pad), i % (cols + 2 * pad)),
    )
}

/// `s` framed by `pad` rows and columns of zeros on every side.
pub fn pad_surface(s: &Surface, pad: usize) -> (r: Surface)
    requires
        s.wf(),
        s.rows + 2 * pad <= usize::MAX,
        s.cols + 2 * pad <= usize::MAX,
        (s.rows + 2 * pad) * (s.cols + 2 * pad) <= usize::MAX,
    ensures
        r.rows == s.rows + 2 * pad && r.cols == s.cols + 2 * pad && r.wf(),
        r@ == padded(s@, s.rows as int, s.cols as int, pad as int),
{
    let prows = s.rows + 2 * pad;
    let pcols = s.cols + 2 * pad;
    assert(s.rows * s.cols <= prows * pcols) by (nonlinear_arith)
        requires
            s.rows <= prows,
            s.cols <= pcols,
    ;
    let mut out: Vec<i128> = Vec::new();
    let mut r: usize = 0;
    while r < prows
        invariant
            s.wf(),
            prows == s.rows + 2 * pad,
            pcols == s.cols + 2 * pad,
            prows * pcols <= usize::MAX,
            s.rows * s.cols <= prows * pcols,
            r <= prows,
            out@.len() == r * pcols,
            forall|j: int|
                0 <= j < out@.len() ==> #[trigger] out@[j] as int == padded_at(
                    s@,
                    s.rows as int,
                    s.cols as int,
                    pad as int,
                    j / (pcols as int),
                    j % (pcols as int),
                ),
        decreases prows - r,
    {
        let mut c: usize = 0;
        while c < pcols
            invariant
                s.wf(),
                prows == s.rows + 2 * pad,
                pcols == s.cols + 2 * pad,
                prows * pcols <= usize::MAX,
                s.rows * s.cols <= prows * pcols,
                r < prows,
                c <= pcols,
                out@.len() == r * pcols + c,
                forall|j: int|
                    0 <= j < out@.len() ==> #[trigger] out@[j] as int == padded_at(
                        s@,
                        s.rows as int,
                        s.cols as int,
                        pad as int,
                        j / (pcols as int),
                        j % (pcols as int),
                    ),
            decreases pcols - c,
        {
            proof {
                vstd::arithmetic::div_mod::lemma_fundamental_div_mod_converse(
                    (r * pcols + c) as int,
                    pcols as int,
                    r as int,
                    c as int,
                );
            }
            let v: i128 = if pad <= r && r < s.rows + pad && pad <= c && c < s.cols + pad {
                proof {
                    assert((r - pad) * s.cols + (c - pad) < s.rows * s.cols) by (nonlinear_arith)
                        requires
                            r - pad < s.rows,
                            c - pad < s.cols,
                            0 <= r - pad,
                            0 <= c - pad,
                    ;
                }
                s.cells[(r - pad) * s.cols + (c - pad)]
            } else {
                0
            };
            out.push(v);
            c = c + 1;
        }
        assert((r + 1) * pcols == r * pcols + pcols) by (nonlinear_arith);
        assert(r * pcols + pcols <= prows * pcols) by (nonlinear_arith)
            requires
                r < prows,
        ;
        r = r + 1;
    }
    let res = Surface { rows: prows, cols: pcols, cells: out };
    assert(res@ =~= padded(s@, s.rows as int, s.cols as int, pad as int));
    res
}

} // verus!
