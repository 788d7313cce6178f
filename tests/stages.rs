use harris_corners::harris::{
    corner_response, gradient_field, pad_surface, structure_tensor, Field, GrayFrame,
    Sensitivity, Surface, TensorSums,
};
use harris_corners::select::select_keypoints;

fn field(rows: usize, cols: usize, cells: Vec<i64>) -> Field {
    Field { rows, cols, cells }
}

#[test]
fn gradient_of_a_ramp() {
    let img = GrayFrame { rows: 3, cols: 3, pixels: vec![0, 1, 2, 0, 1, 2, 0, 1, 2] };
    let (ix, iy) = gradient_field(&img);
    assert_eq!((ix.rows, ix.cols), (1, 1));
    assert_eq!(ix.cells, vec![-8]);
    assert_eq!(iy.cells, vec![0]);
}

#[test]
fn gradient_of_a_vertical_ramp() {
    let img = GrayFrame { rows: 3, cols: 4, pixels: vec![0, 0, 0, 0, 10, 10, 10, 10, 30, 30, 30, 30] };
    let (ix, iy) = gradient_field(&img);
    assert_eq!((iy.rows, iy.cols), (1, 2));
    assert_eq!(ix.cells, vec![0, 0]);
    assert_eq!(iy.cells, vec![-120, -120]);
}

#[test]
fn window_sums_of_products() {
    let ix = field(2, 2, vec![1, 2, 3, 4]);
    let iy = field(2, 2, vec![1, 1, 1, 1]);
    let t = structure_tensor(&ix, &iy, 2);
    assert_eq!((t.sxx.rows, t.sxx.cols), (1, 1));
    assert_eq!(t.sxx.cells, vec![30]);
    assert_eq!(t.syy.cells, vec![4]);
    assert_eq!(t.sxy.cells, vec![10]);
}

#[test]
fn window_sums_slide() {
    let ix = field(1, 3, vec![1, 2, 3]);
    let iy = field(1, 3, vec![2, 0, -1]);
    let t = structure_tensor(&ix, &iy, 1);
    assert_eq!(t.sxx.cells, vec![1, 4, 9]);
    assert_eq!(t.syy.cells, vec![4, 0, 1]);
    assert_eq!(t.sxy.cells, vec![2, 0, -3]);
}

#[test]
fn harris_score_formula() {
    let t = TensorSums {
        sxx: field(1, 2, vec![2, 10]),
        syy: field(1, 2, vec![3, 0]),
        sxy: field(1, 2, vec![1, 0]),
    };
    let s = corner_response(&t, Sensitivity { num: 1, den: 10 });
    // 10 * (2 * 3 - 1) - 1 * 25 and 10 * 0 - 1 * 100
    assert_eq!(s.cells, vec![25, -100]);
}

#[test]
fn padding_frames_with_zeros() {
    let s = Surface { rows: 1, cols: 2, cells: vec![5, -7] };
    let p = pad_surface(&s, 1);
    assert_eq!((p.rows, p.cols), (3, 4));
    assert_eq!(p.cells, vec![0, 0, 0, 0, 0, 5, -7, 0, 0, 0, 0, 0]);
}

#[test]
fn tie_goes_to_the_first_cell() {
    let s = Surface { rows: 3, cols: 4, cells: vec![0, 1, 0, 0, 0, 9, 0, 0, 0, 0, 0, 9] };
    for _ in 0..3 {
        assert_eq!(select_keypoints(&s, 1, 1), vec![(1, 1)]);
    }
    assert_eq!(select_keypoints(&s, 1, 5), vec![(1, 1), (2, 3)]);
}

#[test]
fn selection_stops_when_nothing_positive_is_left() {
    let s = Surface { rows: 2, cols: 2, cells: vec![-3, 4, 0, -1] };
    assert_eq!(select_keypoints(&s, 1, 10), vec![(0, 1)]);
}

#[test]
fn suppression_clears_the_half_open_square() {
    // The square around (2, 2) with half-width 2 covers rows and columns 0 to 3;
    // each later pick clears only the rows and columns below its own plus two.
    let mut cells = vec![1i128; 25];
    cells[12] = 10;
    let s = Surface { rows: 5, cols: 5, cells };
    let kps = select_keypoints(&s, 2, 10);
    assert_eq!(kps, vec![(2, 2), (0, 4), (2, 4), (4, 0), (4, 2), (4, 4)]);
}

#[test]
fn selection_near_the_edge_is_clamped() {
    let s = Surface { rows: 2, cols: 3, cells: vec![7, 0, 3, 0, 0, 2] };
    assert_eq!(select_keypoints(&s, 5, 3), vec![(0, 0)]);
}
