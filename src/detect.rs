//! The whole detector: from a grayscale frame and its parameters to keypoints.

use crate::harris::{
    box_sum, corner_response, gradient, gradient_field, pad_surface, padded, products, scores,
    sobel_x, sobel_y, structure_tensor, GrayFrame, Sensitivity, MAX_PATCH_SIZE,
};
use crate::select::{greedy, select_keypoints};
use vstd::prelude::*;

verus! {

/// Why a set of parameters cannot be used on a frame.
#[derive(Clone, Copy, Debug, PartialEq, Eq, Structural)]
pub enum HarrisError {
    /// The summing window must have an odd side.
    PatchSizeNotOdd,
    /// The summing window is wider than scores can be held exactly.
    PatchTooLarge,
    /// A side of the frame is shorter than the summing window plus two.
    ImageTooSmall,
    /// The sensitivity has a zero denominator.
    InvalidSensitivity,
    /// The suppression half-window is zero, so a pick would never be cleared.
    ZeroSuppressionWindow,
    /// The suppression half-window reaches half a side of the surface.
    SuppressionWindowTooLarge,
}

/// The half-width of the zero border put around the response surface.
pub open spec fn pad_of(patch_size: int) -> int {
    patch_size / 2 + 1
}

/// The Harris response of the `rows` x `cols` frame `img`, framed by zeros
/// back to the frame's size.
pub open spec fn response(img: Seq<int>, rows: int, cols: int, patch_size: int, kappa: Sensitivity) -> Seq<int> {
    let gx = gradient(img, rows, cols, sobel_x());
    let gy = gradient(img, rows, cols, sobel_y());
    let sxx = box_sum(products(gx, gx), rows - 2, cols - 2, patch_size);
    let syy = box_sum(products(gy, gy), rows - 2, cols - 2, patch_size);
    let sxy = box_sum(products(gx, gy), rows - 2, cols - 2, patch_size);
    padded(
        scores(sxx, syy, sxy, kappa),
        rows - 2 - patch_size + 1,
        cols - 2 - patch_size + 1,
        pad_of(patch_size),
    )
}

/// The first parameter check that fails, in the order the variants are declared.
pub open spec fn config_error(
    rows: int,
    cols: int,
    window: int,
    patch_size: int,
    kappa: Sensitivity,
) -> Option<HarrisError> {
    if patch_size % 2 == 0 {
        Some(HarrisError::PatchSizeNotOdd)
    } else if patch_size > MAX_PATCH_SIZE {
        Some(HarrisError::PatchTooLarge)
    } else if rows < patch_size + 2 || cols < patch_size + 2 {
        Some(HarrisError::ImageTooSmall)
    } else if kappa.den == 0 {
        Some(HarrisError::InvalidSensitivity)
    } else if window == 0 {
        Some(HarrisError::ZeroSuppressionWindow)
    } else if 2 * window >= rows || 2 * window >= cols {
        Some(HarrisError::SuppressionWindowTooLarge)
    } else {
        None
    }
}

/// Harris corners of `img`: the response with a `patch_size` summing window
/// and sensitivity `kappa`, reduced by greedy suppression with half-window
/// `surp_size` to at most `max_keypoints` `(row, col)` pairs, strongest first.
pub fn run_harris(
    img: &GrayFrame,
    surp_size: usize,
    patch_size: usize,
    max_keypoints: usize,
    kappa: Sensitivity,
) -> (r: Result<Vec<(usize, usize)>, HarrisError>)
    requires
        img.wf(),
    ensures
        match config_error(
            img.rows as int,
            img.cols as int,
            surp_size as int,
            patch_size as int,
            kappa,
        ) {
            Some(e) => r == Err::<Vec<(usize, usize)>, HarrisError>(e),
            None => r is Ok && greedy(
                response(img@, img.rows as int, img.cols as int, patch_size as int, kappa),
                img.cols as int,
                surp_size as int,
                max_keypoints as int,
                r->Ok_0@,
            ),
        },
{
    if patch_size % 2 == 0 {
        return Err(HarrisError::PatchSizeNotOdd);
    }
    if patch_size > MAX_PATCH_SIZE {
        return Err(HarrisError::PatchTooLarge);
    }
    if img.rows < patch_size + 2 || img.cols < patch_size + 2 {
        return Err(HarrisError::ImageTooSmall);
    }
    if kappa.den == 0 {
        return Err(HarrisError::InvalidSensitivity);
    }
    if surp_size == 0 {
        return Err(HarrisError::ZeroSuppressionWindow);
    }
    // `2 * surp_size >= rows`, written so that it cannot overflow.
    if surp_size >= img.rows / 2 + img.rows % 2 || surp_size >= img.cols / 2 + img.cols % 2 {
        return Err(HarrisError::SuppressionWindowTooLarge);
    }
    // The pixel count is a `usize`, so the framed surface, of the frame's size, fits.
    let _pixel_count = img.pixels.len();
    let (ix, iy) = gradient_field(img);
    let t = structure_tensor(&ix, &iy, patch_size);
    let s = corner_response(&t, kappa);
    let pad = patch_size / 2 + 1;
    assert(s.rows + 2 * pad == img.rows && s.cols + 2 * pad == img.cols);
    let surface = pad_surface(&s, pad);
    let kps = select_keypoints(&surface, surp_size, max_keypoints);
    Ok(kps)
}

} // verus!
