//! Greedy non-maximum suppression: the strongest remaining response is taken
//! and a square around it is cleared, until enough keypoints are found or no
//! positive response is left.

use crate::harris::Surface;
use vstd::prelude::*;

verus! {

/// Whether cell `(r, c)` lies in the square cleared around `kp`: rows
/// `[kp.0 - s, kp.0 + s)` and columns `[kp.1 - s, kp.1 + s)`.
pub open spec fn in_region(r: int, c: int, kp: (usize, usize), s: int) -> bool {
    kp.0 - s <= r < kp.0 + s && kp.1 - s <= c < kp.1 + s
}

pub open spec fn cleared_by(r: int, c: int, kps: Seq<(usize, usize)>, s: int) -> bool {
    exists|j: int| 0 <= j < kps.len() && in_region(r, c, #[trigger] kps[j], s)
}

/// The grid `a` (rows of `cols` cells) with the square around each of `kps` set to zero.
pub open spec fn suppressed(a: Seq<int>, cols: int, kps: Seq<(usize, usize)>, s: int) -> Seq<int> {
    Seq::new(
        a.len(),
        |i: int|
            if cleared_by(i / cols, i % cols, kps, s) {
                0
            } else {
                a[i]
            },
    )
}

/// `i` holds the largest value of `a`, and no earlier cell holds as much.
pub open spec fn first_max(a: Seq<int>, i: int) -> bool {
    &&& 0 <= i < a.len()
    &&& forall|j: int| 0 <= j < a.len() ==> a[j] <= a[i]
    &&& forall|j: int| 0 <= j < i ==> a[j] < a[i]
}

pub open spec fn cell_index(kp: (usize, usize), cols: int) -> int {
    kp.0 * cols + kp.1
}

/// `kps` is what greedy suppression of `a` gives with half-window `s` and at
/// most `k` picks: each pick is the row-major first maximum of what the earlier
/// picks left, and is positive; fewer than `k` picks means nothing positive is left.
pub open spec fn greedy(a: Seq<int>, cols: int, s: int, k: int, kps: Seq<(usize, usize)>) -> bool {
    &&& kps.len() <= k
    &&& forall|m: int|
        0 <= m < kps.len() ==> {
            let w = suppressed(a, cols, kps.take(m), s);
            &&& (#[trigger] kps[m]).1 < cols
            &&& first_max(w, cell_index(kps[m], cols))
            &&& w[cell_index(kps[m], cols)] > 0
        }
    &&& kps.len() < k ==> forall|j: int|
        0 <= j < a.len() ==> #[trigger] suppressed(a, cols, kps, s)[j] <= 0
}

proof fn lemma_suppressed_push(a: Seq<int>, cols: int, kps: Seq<(usize, usize)>, kp: (usize, usize), s: int)
    ensures
        forall|i: int|
            0 <= i < a.len() ==> #[trigger] suppressed(a, cols, kps.push(kp), s)[i] == if in_region(
                i / cols,
                i % cols,
                kp,
                s,
            ) {
                0
            } else {
                suppressed(a, cols, kps, s)[i]
            },
{
    let p = kps.push(kp);
    assert forall|i: int| 0 <= i < a.len() implies #[trigger] suppressed(a, cols, p, s)[i] == if in_region(
        i / cols,
        i % cols,
        kp,
        s,
    ) {
        0
    } else {
        suppressed(a, cols, kps, s)[i]
    } by {
        let r = i / cols;
        let c = i % cols;
        if cleared_by(r, c, kps, s) {
            let j = choose|j: int| 0 <= j < kps.len() && in_region(r, c, #[trigger] kps[j], s);
            assert(p[j] == kps[j]);
        }
        if in_region(r, c, kp, s) {
            assert(p[kps.len() as int] == kp);
        }
        if cleared_by(r, c, p, s) {
            let j = choose|j: int| 0 <= j < p.len() && in_region(r, c, #[trigger] p[j], s);
            if j < kps.len() {
                assert(p[j] == kps[j]);
            }
        }
    }
}

fn first_max_index(w: &Vec<i128>) -> (r: usize)
    requires
        w@.len() > 0,
    ensures
        first_max(w@.map_values(|x: i128| x as int), r as int),
{
    let ghost v = w@.map_values(|x: i128| x as int);
    let mut best: usize = 0;
    let mut j: usize = 1;
    while j < w.len()
        invariant
            v == w@.map_values(|x: i128| x as int),
            best < j <= w@.len(),
            forall|m: int| 0 <= m < j ==> v[m] <= v[best as int],
            forall|m: int| 0 <= m < best ==> v[m] < v[best as int],
        decreases w@.len() - j,
    {
        if w[j] > w[best] {
            best = j;
        }
        j = j + 1;
    }
    best
}

/// Greedy non-maximum suppression of `surface`: up to `max_keypoints` times,
/// the row-major first maximum of the working copy is taken as `(row, col)`
/// when it is positive, and the square of half-width `window` around it
/// (clamped to the surface) is set to zero. `surface` itself is not changed.
pub fn select_keypoints(surface: &Surface, window: usize, max_keypoints: usize) -> (r: Vec<(usize, usize)>)
    requires
        surface.wf(),
        surface.cols > 0,
    ensures
        greedy(surface@, surface.cols as int, window as int, max_keypoints as int, r@),
        forall|m: int| 0 <= m < r@.len() ==> (#[trigger] r@[m]).0 < surface.rows,
{
    let cols = surface.cols;
    let n = surface.cells.len();
    let ghost a = surface@;
    let mut w = surface.cells.clone();
    let mut kps: Vec<(usize, usize)> = Vec::new();
    let mut exhausted = false;
    assert(w@.map_values(|x: i128| x as int) =~= suppressed(a, cols as int, kps@, window as int));
    while kps.len() < max_keypoints && !exhausted
        invariant
            exhausted ==> forall|j: int| 0 <= j < n ==> #[trigger] w@[j] <= 0,
            a == surface@,
            surface.wf(),
            n == surface.cells@.len(),
            cols == surface.cols,
            cols > 0,
            w@.len() == n,
            kps@.len() <= max_keypoints,
            w@.map_values(|x: i128| x as int) == suppressed(a, cols as int, kps@, window as int),
            forall|m: int|
                0 <= m < kps@.len() ==> {
                    let v = suppressed(a, cols as int, kps@.take(m), window as int);
                    &&& (#[trigger] kps@[m]).1 < cols
                    &&& kps@[m].0 < surface.rows
                    &&& first_max(v, cell_index(kps@[m], cols as int))
                    &&& v[cell_index(kps@[m], cols as int)] > 0
                },
        decreases (max_keypoints - kps@.len()) * 2 + if exhausted {
            0int
        } else {
            1int
        },
    {
        if n == 0 {
            exhausted = true;
            continue;
        }
        let best = first_max_index(&w);
        if w[best] <= 0 {
            proof {
                assert forall|j: int| 0 <= j < n implies #[trigger] w@[j] <= 0 by {
                    assert(w@.map_values(|x: i128| x as int)[j] <= w@.map_values(|x: i128| x as int)[best as int]);
                }
            }
            exhausted = true;
            continue;
        }
        let row = best / cols;
        let col = best % cols;
        let kp = (row, col);
        proof {
            vstd::arithmetic::div_mod::lemma_fundamental_div_mod(best as int, cols as int);
            assert(row < surface.rows) by (nonlinear_arith)
                requires
                    best == cols * row + col,
                    0 <= col,
                    best < surface.rows * cols,
                    cols > 0,
            ;
            lemma_suppressed_push(a, cols as int, kps@, kp, window as int);
            assert(cell_index(kp, cols as int) == best) by (nonlinear_arith)
                requires
                    best == cols * row + col,
                    kp.0 == row,
                    kp.1 == col,
            ;
        }
        let ghost w0 = w@;
        let mut i: usize = 0;
        while i < n
            invariant
                kp == (row, col),
                w@.len() == n,
                w0.len() == n,
                cols > 0,
                i <= n,
                forall|j: int|
                    0 <= j < i ==> #[trigger] w@[j] == if in_region(
                        j / cols as int,
                        j % cols as int,
                        kp,
                        window as int,
                    ) {
                        0
                    } else {
                        w0[j]
                    },
                forall|j: int| i <= j < n ==> #[trigger] w@[j] == w0[j],
            decreases n - i,
        {
            let r = i / cols;
            let c = i % cols;
            let rows_in = (r >= row || row - r <= window) && (r < row || r - row < window);
            let cols_in = (c >= col || col - c <= window) && (c < col || c - col < window);
            proof {
                vstd::arithmetic::div_mod::lemma_fundamental_div_mod(i as int, cols as int);
                assert(rows_in == (row - window <= r < row + window));
                assert(cols_in == (col - window <= c < col + window));
            }
            if rows_in && cols_in {
                w.set(i, 0);
            }
            i = i + 1;
        }
        let ghost old_kps = kps@;
        kps.push(kp);
        proof {
            assert(kps@.take(old_kps.len() as int) =~= old_kps);
            assert(kps@[old_kps.len() as int] == kp);
            assert forall|m: int| 0 <= m < old_kps.len() implies kps@.take(m) =~= old_kps.take(m) by {}
            assert(w@.map_values(|x: i128| x as int) =~= suppressed(a, cols as int, kps@, window as int));
        }
    }
    proof {
        if kps@.len() < max_keypoints {
            assert forall|j: int| 0 <= j < a.len() implies #[trigger] suppressed(a, cols as int, kps@, window as int)[j] <= 0 by {
                assert(w@.map_values(|x: i128| x as int)[j] == suppressed(a, cols as int, kps@, window as int)[j]);
            }
        }
    }
    kps
}

} // verus!
