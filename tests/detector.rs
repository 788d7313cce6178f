use harris_corners::detect::{run_harris, HarrisError};
use harris_corners::harris::{
    corner_response, gradient_field, pad_surface, structure_tensor, GrayFrame, Sensitivity,
};

fn frame(rows: usize, cols: usize, f: impl Fn(usize, usize) -> u8) -> GrayFrame {
    let mut pixels = Vec::new();
    for r in 0..rows {
        for c in 0..cols {
            pixels.push(f(r, c));
        }
    }
    GrayFrame { rows, cols, pixels }
}

fn square(rows: usize, cols: usize, top: usize, left: usize, side: usize) -> GrayFrame {
    frame(rows, cols, |r, c| {
        if r >= top && r < top + side && c >= left && c < left + side {
            255
        } else {
            0
        }
    })
}

fn squares(rows: usize, cols: usize, corners: &[(usize, usize)], side: usize) -> GrayFrame {
    frame(rows, cols, |r, c| {
        let inside = corners
            .iter()
            .any(|&(t, l)| r >= t && r < t + side && c >= l && c < l + side);
        if inside {
            255
        } else {
            0
        }
    })
}

fn chebyshev(a: (usize, usize), b: (usize, usize)) -> usize {
    let dr = if a.0 > b.0 { a.0 - b.0 } else { b.0 - a.0 };
    let dc = if a.1 > b.1 { a.1 - b.1 } else { b.1 - a.1 };
    dr.max(dc)
}

fn kappa() -> Sensitivity {
    Sensitivity { num: 8, den: 100 }
}

fn surface_of(img: &GrayFrame, patch_size: usize) -> harris_corners::harris::Surface {
    let (ix, iy) = gradient_field(img);
    let t = structure_tensor(&ix, &iy, patch_size);
    let s = corner_response(&t, kappa());
    pad_surface(&s, patch_size / 2 + 1)
}

#[test]
fn blank_frame_scores_zero_and_finds_nothing() {
    let img = frame(20, 20, |_, _| 0);
    let surface = surface_of(&img, 5);
    assert!(surface.cells.iter().all(|&x| x == 0));
    assert_eq!(run_harris(&img, 3, 5, 10, kappa()), Ok(vec![]));
}

#[test]
fn flat_bright_frame_finds_nothing() {
    let img = frame(16, 16, |_, _| 200);
    assert_eq!(run_harris(&img, 3, 3, 5, kappa()), Ok(vec![]));
}

#[test]
fn single_square_keypoint_lies_on_the_square() {
    let img = square(24, 24, 8, 8, 8);
    let kps = run_harris(&img, 4, 3, 1, Sensitivity { num: 4, den: 100 }).unwrap();
    assert_eq!(kps.len(), 1);
    let (r, c) = kps[0];
    assert!((7..=16).contains(&r), "row {}", r);
    assert!((7..=16).contains(&c), "col {}", c);
}

#[test]
fn repeated_runs_are_identical() {
    let img = frame(25, 31, |r, c| ((r * 37 + c * 11 + r * c) % 256) as u8);
    let a = surface_of(&img, 5);
    let b = surface_of(&img, 5);
    assert_eq!(a.cells, b.cells);
    let (ix1, iy1) = gradient_field(&img);
    let (ix2, iy2) = gradient_field(&img);
    assert_eq!(ix1.cells, ix2.cells);
    assert_eq!(iy1.cells, iy2.cells);
    assert_eq!(run_harris(&img, 3, 5, 20, kappa()), run_harris(&img, 3, 5, 20, kappa()));
}

#[test]
fn keypoints_keep_the_suppression_distance() {
    let img = frame(40, 40, |r, c| ((r * 97 + c * 57 + r * c * 13) % 256) as u8);
    let s = 4;
    let kps = run_harris(&img, s, 3, 50, kappa()).unwrap();
    assert!(kps.len() > 1);
    for i in 0..kps.len() {
        for j in 0..kps.len() {
            if i != j {
                assert!(chebyshev(kps[i], kps[j]) >= s);
            }
        }
    }
}

#[test]
fn minimal_frame_completes_with_frame_shape() {
    let p = 5;
    let img = frame(p + 2, p + 2, |r, c| ((r * 50 + c * 30) % 256) as u8);
    let surface = surface_of(&img, p);
    assert_eq!((surface.rows, surface.cols), (p + 2, p + 2));
    assert_eq!(surface.cells.len(), (p + 2) * (p + 2));
    assert!(run_harris(&img, 1, p, 10, kappa()).is_ok());
}

#[test]
fn frame_as_small_as_the_patch_is_refused() {
    let img = frame(5, 5, |r, c| (r * c) as u8);
    assert_eq!(run_harris(&img, 1, 5, 10, kappa()), Err(HarrisError::ImageTooSmall));
}

#[test]
fn count_never_exceeds_the_limit() {
    let img = frame(40, 40, |r, c| ((r * 97 + c * 57 + r * c * 13) % 256) as u8);
    for k in 0..6 {
        let kps = run_harris(&img, 2, 3, k, kappa()).unwrap();
        assert!(kps.len() <= k);
    }
}

#[test]
fn separated_squares_fill_the_limit() {
    let corners = [(4, 4), (4, 24), (24, 4), (24, 24)];
    let img = squares(40, 40, &corners, 8);
    let kps = run_harris(&img, 3, 3, 4, kappa()).unwrap();
    assert_eq!(kps.len(), 4);
}

#[test]
fn even_patch_is_refused() {
    let img = frame(20, 20, |_, _| 0);
    assert_eq!(run_harris(&img, 3, 4, 10, kappa()), Err(HarrisError::PatchSizeNotOdd));
    assert_eq!(run_harris(&img, 3, 0, 10, kappa()), Err(HarrisError::PatchSizeNotOdd));
}

#[test]
fn oversized_patch_is_refused() {
    let img = frame(20, 20, |_, _| 0);
    assert_eq!(run_harris(&img, 3, 16385, 10, kappa()), Err(HarrisError::PatchTooLarge));
}

#[test]
fn zero_denominator_is_refused() {
    let img = frame(20, 20, |_, _| 0);
    let k = Sensitivity { num: 1, den: 0 };
    assert_eq!(run_harris(&img, 3, 3, 10, k), Err(HarrisError::InvalidSensitivity));
}

#[test]
fn zero_window_is_refused() {
    let img = frame(20, 20, |_, _| 0);
    assert_eq!(run_harris(&img, 0, 3, 10, kappa()), Err(HarrisError::ZeroSuppressionWindow));
}

#[test]
fn window_of_half_the_frame_is_refused() {
    let img = frame(20, 30, |_, _| 0);
    assert_eq!(
        run_harris(&img, 10, 3, 10, kappa()),
        Err(HarrisError::SuppressionWindowTooLarge)
    );
    assert!(run_harris(&img, 9, 3, 10, kappa()).is_ok());
}

#[test]
fn default_parameters_run() {
    let img = squares(60, 60, &[(10, 10), (35, 35)], 12);
    let kps = run_harris(&img, 8, 9, 200, kappa()).unwrap();
    assert!(!kps.is_empty());
    assert!(kps.len() <= 200);
}
