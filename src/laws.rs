//! What holds of every run of the detector.

use crate::conv::{conv_at, lemma_conv_zero, lemma_out_cell_fits};
use crate::detect::{pad_of, response};
use crate::harris::{box_sum, gradient, ones, products, scores, sobel_x, sobel_y, Sensitivity};
use crate::select::{cell_index, cleared_by, first_max, greedy, in_region, suppressed};
use vstd::prelude::*;

verus! {

pub open spec fn chebyshev(a: (usize, usize), b: (usize, usize)) -> int {
    let dr = if a.0 >= b.0 { a.0 - b.0 } else { b.0 - a.0 };
    let dc = if a.1 >= b.1 { a.1 - b.1 } else { b.1 - a.1 };
    if dr >= dc { dr } else { dc }
}

proof fn lemma_cell_of_index(kp: (usize, usize), cols: int)
    requires
        0 <= kp.1 < cols,
    ensures
        cell_index(kp, cols) / cols == kp.0,
        cell_index(kp, cols) % cols == kp.1,
{
    vstd::arithmetic::div_mod::lemma_fundamental_div_mod_converse(
        cell_index(kp, cols),
        cols,
        kp.0 as int,
        kp.1 as int,
    );
}

proof fn lemma_nothing_suppressed(a: Seq<int>, cols: int, s: int)
    ensures
        suppressed(a, cols, Seq::<(usize, usize)>::empty(), s) == a,
{
    assert(suppressed(a, cols, Seq::<(usize, usize)>::empty(), s) =~= a);
}

proof fn lemma_zero_grid(a: Seq<int>, rows: int, cols: int, k: Seq<int>, kr: int, kc: int)
    requires
        a.len() == rows * cols,
        k.len() == kr * kc,
        1 <= kr <= rows,
        1 <= kc <= cols,
        forall|x: int| 0 <= x < a.len() ==> #[trigger] a[x] == 0,
    ensures
        forall|i: int|
            0 <= i < (rows - kr + 1) * (cols - kc + 1) ==> #[trigger] conv_at(
                a,
                cols,
                k,
                kr,
                kc,
                i / (cols - kc + 1),
                i % (cols - kc + 1),
            ) == 0,
{
    assert forall|i: int| 0 <= i < (rows - kr + 1) * (cols - kc + 1) implies #[trigger] conv_at(
        a,
        cols,
        k,
        kr,
        kc,
        i / (cols - kc + 1),
        i % (cols - kc + 1),
    ) == 0 by {
        lemma_out_cell_fits(a, rows, cols, k, kr, kc, i);
        lemma_conv_zero(a, cols, k, kr, kc, i / (cols - kc + 1), i % (cols - kc + 1));
    }
}

/// An all-zero frame has a response that is zero everywhere, and greedy
/// suppression finds no keypoint in it.
pub proof fn lemma_blank_frame(
    img: Seq<int>,
    rows: int,
    cols: int,
    patch_size: int,
    kappa: Sensitivity,
    window: int,
    max_keypoints: int,
    kps: Seq<(usize, usize)>,
)
    requires
        img.len() == rows * cols,
        1 <= patch_size,
        rows >= patch_size + 2,
        cols >= patch_size + 2,
        forall|x: int| 0 <= x < img.len() ==> #[trigger] img[x] == 0,
    ensures
        forall|i: int|
            0 <= i < response(img, rows, cols, patch_size, kappa).len() ==> #[trigger] response(
                img,
                rows,
                cols,
                patch_size,
                kappa,
            )[i] == 0,
        greedy(response(img, rows, cols, patch_size, kappa), cols, window, max_keypoints, kps)
            ==> kps.len() == 0,
{
    let gx = gradient(img, rows, cols, sobel_x());
    let gy = gradient(img, rows, cols, sobel_y());
    lemma_zero_grid(img, rows, cols, sobel_x(), 3, 3);
    lemma_zero_grid(img, rows, cols, sobel_y(), 3, 3);
    assert((rows - 3 + 1) * (cols - 3 + 1) == (rows - 2) * (cols - 2));
    assert forall|x: int| 0 <= x < gx.len() implies #[trigger] gx[x] == 0 by {}
    assert forall|x: int| 0 <= x < gy.len() implies #[trigger] gy[x] == 0 by {}
    let gr = rows - 2;
    let gc = cols - 2;
    let p = patch_size;
    assert(gx.len() == gr * gc);
    let pxx = products(gx, gx);
    let pyy = products(gy, gy);
    let pxy = products(gx, gy);
    assert forall|x: int| 0 <= x < pxx.len() implies #[trigger] pxx[x] == 0 by {}
    assert forall|x: int| 0 <= x < pyy.len() implies #[trigger] pyy[x] == 0 by {}
    assert forall|x: int| 0 <= x < pxy.len() implies #[trigger] pxy[x] == 0 by {}
    assert(ones(p * p).len() == p * p) by (nonlinear_arith)
        requires
            1 <= p,
    ;
    lemma_zero_grid(pxx, gr, gc, ones(p * p), p, p);
    lemma_zero_grid(pyy, gr, gc, ones(p * p), p, p);
    lemma_zero_grid(pxy, gr, gc, ones(p * p), p, p);
    let sxx = box_sum(pxx, gr, gc, p);
    let syy = box_sum(pyy, gr, gc, p);
    let sxy = box_sum(pxy, gr, gc, p);
    let sc = scores(sxx, syy, sxy, kappa);
    assert forall|x: int| 0 <= x < sc.len() implies #[trigger] sc[x] == 0 by {
        assert(sxx[x] == 0 && syy[x] == 0 && sxy[x] == 0);
        assert(kappa.den * (0int * 0int - 0int * 0int) - kappa.num * ((0int + 0int) * (0int + 0int)) == 0)
            by (nonlinear_arith);
    }
    let sr = gr - p + 1;
    let scc = gc - p + 1;
    let pad = pad_of(p);
    let resp = response(img, rows, cols, p, kappa);
    assert forall|i: int| 0 <= i < resp.len() implies #[trigger] resp[i] == 0 by {
        let r = i / (scc + 2 * pad);
        let c = i % (scc + 2 * pad);
        if pad <= r < sr + pad && pad <= c < scc + pad {
            assert(0 <= (r - pad) * scc + (c - pad) < sr * scc) by (nonlinear_arith)
                requires
                    0 <= r - pad < sr,
                    0 <= c - pad < scc,
            ;
        }
    }
    if greedy(resp, cols, window, max_keypoints, kps) && kps.len() > 0 {
        let kp = kps[0];
        assert(kps.take(0) =~= Seq::<(usize, usize)>::empty());
        lemma_nothing_suppressed(resp, cols, window);
        assert(resp[cell_index(kp, cols)] > 0);
    }
}

/// Every two keypoints of a greedy selection are at least `window` apart in
/// Chebyshev distance: a later pick never lies in the square cleared around an
/// earlier one.
pub proof fn lemma_keypoints_separated(
    a: Seq<int>,
    cols: int,
    window: int,
    max_keypoints: int,
    kps: Seq<(usize, usize)>,
)
    requires
        greedy(a, cols, window, max_keypoints, kps),
    ensures
        forall|m1: int, m2: int|
            0 <= m1 < m2 < kps.len() ==> !in_region(kps[m2].0 as int, kps[m2].1 as int, kps[m1], window)
                && chebyshev(#[trigger] kps[m1], #[trigger] kps[m2]) >= window,
{
    assert forall|m1: int, m2: int| 0 <= m1 < m2 < kps.len() implies !in_region(
        kps[m2].0 as int,
        kps[m2].1 as int,
        kps[m1],
        window,
    ) && chebyshev(#[trigger] kps[m1], #[trigger] kps[m2]) >= window by {
        let kp = kps[m2];
        let pre = kps.take(m2);
        let w = suppressed(a, cols, pre, window);
        assert(w[cell_index(kp, cols)] > 0);
        lemma_cell_of_index(kp, cols);
        assert(pre[m1] == kps[m1]);
        if in_region(kp.0 as int, kp.1 as int, kps[m1], window) {
            assert(cleared_by(kp.0 as int, kp.1 as int, pre, window));
        }
    }
}

/// Where exactly two cells share the largest value of the surface and it is
/// positive, the first keypoint is the one that comes first in row-major order.
pub proof fn lemma_tie_goes_to_first(
    a: Seq<int>,
    cols: int,
    window: int,
    max_keypoints: int,
    kps: Seq<(usize, usize)>,
    i1: int,
    i2: int,
)
    requires
        greedy(a, cols, window, max_keypoints, kps),
        max_keypoints >= 1,
        0 <= i1 < i2 < a.len(),
        a[i1] == a[i2],
        a[i1] > 0,
        forall|j: int| 0 <= j < a.len() && j != i1 && j != i2 ==> #[trigger] a[j] < a[i1],
    ensures
        kps.len() >= 1,
        cell_index(kps[0], cols) == i1,
{
    lemma_nothing_suppressed(a, cols, window);
    assert(Seq::<(usize, usize)>::empty() =~= kps.take(0));
    if kps.len() == 0 {
        assert(kps =~= Seq::<(usize, usize)>::empty());
        assert(suppressed(a, cols, kps, window)[i1] <= 0);
    }
    let idx = cell_index(kps[0], cols);
    assert(first_max(a, idx));
    assert(a[i1] <= a[idx]);
    if idx < i1 {
        assert(a[idx] < a[i1]);
    }
    if idx > i1 {
        assert(a[i1] < a[idx]);
    }
}

proof fn lemma_same_prefix(
    a: Seq<int>,
    cols: int,
    window: int,
    max_keypoints: int,
    kps1: Seq<(usize, usize)>,
    kps2: Seq<(usize, usize)>,
    m: int,
)
    requires
        greedy(a, cols, window, max_keypoints, kps1),
        greedy(a, cols, window, max_keypoints, kps2),
        0 <= m <= kps1.len(),
        m <= kps2.len(),
    ensures
        kps1.take(m) == kps2.take(m),
    decreases m,
{
    if m == 0 {
        assert(kps1.take(0) =~= kps2.take(0));
    } else {
        let k = m - 1;
        lemma_same_prefix(a, cols, window, max_keypoints, kps1, kps2, k);
        let w = suppressed(a, cols, kps1.take(k), window);
        let x1 = cell_index(kps1[k], cols);
        let x2 = cell_index(kps2[k], cols);
        assert(first_max(w, x1));
        assert(first_max(w, x2));
        if x1 < x2 {
            assert(w[x1] < w[x2]);
        }
        if x2 < x1 {
            assert(w[x2] < w[x1]);
        }
        lemma_cell_of_index(kps1[k], cols);
        lemma_cell_of_index(kps2[k], cols);
        assert(kps1.take(m) =~= kps1.take(k).push(kps1[k]));
        assert(kps2.take(m) =~= kps2.take(k).push(kps2[k]));
    }
}

/// Two greedy selections of the same surface with the same parameters are equal.
pub proof fn lemma_selection_unique(
    a: Seq<int>,
    cols: int,
    window: int,
    max_keypoints: int,
    kps1: Seq<(usize, usize)>,
    kps2: Seq<(usize, usize)>,
)
    requires
        greedy(a, cols, window, max_keypoints, kps1),
        greedy(a, cols, window, max_keypoints, kps2),
    ensures
        kps1 == kps2,
{
    let n = if kps1.len() <= kps2.len() { kps1.len() as int } else { kps2.len() as int };
    lemma_same_prefix(a, cols, window, max_keypoints, kps1, kps2, n);
    if kps1.len() < kps2.len() {
        assert(kps1.take(n) =~= kps1);
        let x = cell_index(kps2[n], cols);
        assert(suppressed(a, cols, kps2.take(n), window)[x] > 0);
        assert(suppressed(a, cols, kps1, window)[x] <= 0);
    } else if kps2.len() < kps1.len() {
        assert(kps2.take(n) =~= kps2);
        let x = cell_index(kps1[n], cols);
        assert(suppressed(a, cols, kps1.take(n), window)[x] > 0);
        assert(suppressed(a, cols, kps2, window)[x] <= 0);
    } else {
        assert(kps1 =~= kps1.take(n));
        assert(kps2 =~= kps2.take(n));
    }
}

/// With an odd summing window that fits, the framed response has exactly the
/// frame's shape: the zero border of `patch_size / 2 + 1` on each side makes up
/// for the two valid-mode convolutions.
pub proof fn lemma_response_shape(img: Seq<int>, rows: int, cols: int, patch_size: int, kappa: Sensitivity)
    requires
        img.len() == rows * cols,
        patch_size % 2 == 1,
        rows >= patch_size + 2,
        cols >= patch_size + 2,
    ensures
        rows - 2 - patch_size + 1 + 2 * pad_of(patch_size) == rows,
        cols - 2 - patch_size + 1 + 2 * pad_of(patch_size) == cols,
        response(img, rows, cols, patch_size, kappa).len() == rows * cols,
{
}

/// Greedy selection stops short of `max_keypoints` only when fewer than that
/// many positive cells lie at least `2 * window` apart: given `max_keypoints`
/// such cells, it returns exactly `max_keypoints` keypoints.
pub proof fn lemma_count_reached(
    a: Seq<int>,
    cols: int,
    window: int,
    max_keypoints: int,
    kps: Seq<(usize, usize)>,
    cells: Seq<(usize, usize)>,
)
    requires
        greedy(a, cols, window, max_keypoints, kps),
        cells.len() == max_keypoints,
        forall|i: int|
            0 <= i < cells.len() ==> (#[trigger] cells[i]).1 < cols && cell_index(cells[i], cols)
                < a.len() && a[cell_index(cells[i], cols)] > 0,
        forall|i1: int, i2: int|
            0 <= i1 < cells.len() && 0 <= i2 < cells.len() && i1 != i2 ==> chebyshev(
                #[trigger] cells[i1],
                #[trigger] cells[i2],
            ) >= 2 * window,
    ensures
        kps.len() == max_keypoints,
{
    if kps.len() < max_keypoints {
        let f = |i: int|
            choose|j: int|
                0 <= j < kps.len() && in_region(cells[i].0 as int, cells[i].1 as int, kps[j], window);
        let x = vstd::set_lib::set_int_range(0, max_keypoints);
        let z = vstd::set_lib::set_int_range(0, kps.len() as int);
        assert forall|i: int| x.contains(i) implies 0 <= f(i) < kps.len() && in_region(
            cells[i].0 as int,
            cells[i].1 as int,
            kps[f(i)],
            window,
        ) by {
            let idx = cell_index(cells[i], cols);
            lemma_cell_of_index(cells[i], cols);
            assert(suppressed(a, cols, kps, window)[idx] <= 0);
            assert(cleared_by(cells[i].0 as int, cells[i].1 as int, kps, window));
        }
        assert forall|i1: int, i2: int|
            x.contains(i1) && x.contains(i2) && #[trigger] f(i1) == #[trigger] f(i2) implies i1
                == i2 by {
            if i1 != i2 {
                assert(chebyshev(cells[i1], cells[i2]) >= 2 * window);
            }
        }
        let y = x.map(f);
        vstd::set_lib::lemma_int_range(0, max_keypoints);
        vstd::set_lib::lemma_int_range(0, kps.len() as int);
        vstd::set_lib::lemma_map_size(x, y, f);
        assert(y.subset_of(z));
        vstd::set_lib::lemma_len_subset(y, z);
    }
}

} // verus!
