use mandelbrot::fixed::Fixed;
use mandelbrot::grid::{evaluate, evaluate_row, EscapeGrid};
use mandelbrot::viewport::Viewport;

fn fx(n: i16) -> Fixed {
    Fixed::from_int(n)
}

fn classic() -> Viewport {
    Viewport::new(fx(-2), fx(1), fx(-1), fx(1)).unwrap()
}

fn inner() -> Viewport {
    let lo = Fixed::from_ratio(-1, 10).unwrap();
    let hi = Fixed::from_ratio(1, 10).unwrap();
    Viewport::new(lo, hi, lo, hi).unwrap()
}

#[test]
fn classic_view_four_by_four() {
    let g = evaluate(&classic(), 50, 4, 4);
    // pixel (0, 0) is the corner -2 - i, which escapes at once
    let corner = g.get(0, 0);
    assert!(corner == 0 || corner == 1);
    assert_eq!(corner, 1);
    // pixel (2, 2) is -1/2, near the origin and bounded
    assert_eq!(g.get(2, 2), 50);
    assert_eq!(
        g.cells(),
        &vec![1, 3, 4, 4, 1, 4, 50, 50, 50, 50, 50, 50, 1, 4, 50, 50]
    );
}

#[test]
fn deep_inside_the_main_body_every_cell_is_bounded() {
    let g = evaluate(&inner(), 1000, 6, 5);
    assert_eq!(g.cells().len(), 30);
    for y in 0..5 {
        for x in 0..6 {
            assert_eq!(g.get(x, y), 1000);
        }
    }
}

#[test]
fn every_cell_is_within_the_budget() {
    for budget in [0usize, 1, 2, 7, 30] {
        let g = evaluate(&classic(), budget, 9, 7);
        assert_eq!(g.budget(), budget);
        for &t in g.cells() {
            assert!(t <= budget);
        }
    }
}

#[test]
fn grid_has_height_rows_of_width_cells() {
    for (width, height) in [(1usize, 1usize), (8, 6), (5, 11), (3, 0), (0, 4), (0, 0)] {
        let g = evaluate(&classic(), 10, width, height);
        assert_eq!(g.width(), width);
        assert_eq!(g.height(), height);
        assert_eq!(g.cells().len(), width * height);
        for y in 0..height {
            assert_eq!(g.row(y).len(), width);
        }
    }
}

#[test]
fn classic_view_eight_by_six() {
    let g = evaluate(&classic(), 30, 8, 6);
    let rows: Vec<Vec<usize>> = (0..6).map(|y| g.row(y)).collect();
    assert_eq!(
        rows,
        vec![
            vec![1, 2, 3, 3, 4, 13, 4, 2],
            vec![1, 3, 3, 4, 11, 30, 7, 3],
            vec![1, 4, 18, 8, 30, 30, 30, 4],
            vec![30, 30, 30, 30, 30, 30, 30, 4],
            vec![1, 4, 18, 8, 30, 30, 30, 4],
            vec![1, 3, 3, 4, 11, 30, 7, 3],
        ]
    );
}

#[test]
fn evaluating_twice_gives_the_same_grid() {
    let a = evaluate(&classic(), 40, 16, 9);
    let b = evaluate(&classic(), 40, 16, 9);
    assert_eq!(a, b);
}

#[test]
fn rows_in_any_order_assemble_to_the_grid() {
    let (width, height, budget) = (7usize, 5usize, 25usize);
    let whole = evaluate(&classic(), budget, width, height);
    let mut rows: Vec<Vec<usize>> = vec![Vec::new(); height];
    for y in [3usize, 0, 4, 2, 1] {
        rows[y] = evaluate_row(&classic(), budget, width, height, y);
    }
    let merged = EscapeGrid::from_rows(&rows, width, budget).unwrap();
    assert_eq!(merged, whole);
    for y in 0..height {
        assert_eq!(whole.row(y), rows[y]);
    }
}

#[test]
fn row_zero_lies_at_the_y_min_edge() {
    let v = classic();
    let row = evaluate_row(&v, 50, 4, 4, 0);
    assert_eq!(row, vec![1, 3, 4, 4]);
    let middle = evaluate_row(&v, 50, 4, 4, 2);
    assert_eq!(middle, vec![50, 50, 50, 50]);
}

#[test]
fn from_rows_keeps_the_cells() {
    let rows = vec![vec![1usize, 2, 3], vec![4, 5, 6]];
    let g = EscapeGrid::from_rows(&rows, 3, 6).unwrap();
    assert_eq!(g.width(), 3);
    assert_eq!(g.height(), 2);
    assert_eq!(g.budget(), 6);
    assert_eq!(g.cells(), &vec![1, 2, 3, 4, 5, 6]);
    assert_eq!(g.get(0, 0), 1);
    assert_eq!(g.get(2, 0), 3);
    assert_eq!(g.get(0, 1), 4);
    assert_eq!(g.get(2, 1), 6);
    assert_eq!(g.row(1), vec![4, 5, 6]);
}

#[test]
fn from_rows_rejects_a_row_of_another_width() {
    let rows = vec![vec![1usize, 2, 3], vec![4, 5]];
    assert!(EscapeGrid::from_rows(&rows, 3, 6).is_none());
    assert!(EscapeGrid::from_rows(&rows, 2, 6).is_none());
    let empty: Vec<Vec<usize>> = vec![vec![], vec![]];
    assert!(EscapeGrid::from_rows(&empty, 1, 6).is_none());
    assert_eq!(EscapeGrid::from_rows(&empty, 0, 6).unwrap().height(), 2);
}

#[test]
fn from_rows_rejects_a_cell_above_the_budget() {
    let rows = vec![vec![1usize, 2, 3], vec![4, 5, 7]];
    assert!(EscapeGrid::from_rows(&rows, 3, 6).is_none());
    assert!(EscapeGrid::from_rows(&rows, 3, 7).is_some());
}

#[test]
fn from_rows_of_nothing_is_the_empty_grid() {
    let g = EscapeGrid::from_rows(&Vec::new(), 5, 9).unwrap();
    assert_eq!(g.width(), 5);
    assert_eq!(g.height(), 0);
    assert!(g.cells().is_empty());
}

#[test]
fn position_inverts_row_major_order() {
    let g = evaluate(&classic(), 5, 4, 3);
    assert_eq!(g.position(0), (0, 0));
    assert_eq!(g.position(3), (3, 0));
    assert_eq!(g.position(4), (0, 1));
    assert_eq!(g.position(11), (3, 2));
    for i in 0..12 {
        let (x, y) = g.position(i);
        assert!(x < 4 && y < 3);
        assert_eq!(y * 4 + x, i);
        assert_eq!(g.get(x, y), g.cells()[i]);
    }
}
