use mandelbrot::{escape_time, from_val, render_mandelbrot, sample_grid, BLOCK};
use num::complex::Complex;
use std::cell::RefCell;

fn mandelbrot_at_point(cx: f64, cy: f64, max_iters: usize) -> usize {
    let c = Complex::new(cx, cy);
    escape_time(
        Complex { re: 0.0, im: 0.0 },
        |z: &Complex<f64>| z.norm() > 2.0,
        |z: Complex<f64>| z * z + c,
        max_iters,
    )
}

fn calculate_mandelbrot(
    max_iters: usize,
    x_min: f64,
    x_max: f64,
    y_min: f64,
    y_max: f64,
    width: usize,
    height: usize,
) -> Vec<Vec<usize>> {
    sample_grid(width, height, |img_x: usize, img_y: usize| {
        let x_percent = img_x as f64 / width as f64;
        let y_percent = img_y as f64 / height as f64;
        let cx = x_min + (x_max - x_min) * x_percent;
        let cy = y_min + (y_max - y_min) * y_percent;
        mandelbrot_at_point(cx, cy, max_iters)
    })
}

#[test]
fn origin_never_escapes() {
    for n in [0, 1, 2, 10, 2000] {
        assert_eq!(mandelbrot_at_point(0.0, 0.0, n), n);
    }
}

#[test]
fn point_outside_radius_two_escapes_at_one() {
    for (cx, cy) in [(3.0, 0.0), (0.0, -2.5), (-2.0, -1.0), (1.5, 1.5), (-2.0001, 0.0)] {
        assert_eq!(mandelbrot_at_point(cx, cy, 2000), 1, "c = ({}, {})", cx, cy);
        assert_eq!(mandelbrot_at_point(cx, cy, 1), 1, "c = ({}, {})", cx, cy);
    }
}

#[test]
fn zero_limit_gives_zero_everywhere() {
    for (cx, cy) in [(0.0, 0.0), (3.0, 0.0), (-2.0, -1.0), (0.3, 0.5)] {
        assert_eq!(mandelbrot_at_point(cx, cy, 0), 0);
    }
}

#[test]
fn escape_count_is_the_index_of_the_first_escaped_point() {
    // c = 1: 0, 1, 2, 5; the magnitude 2 itself does not count as escaped.
    assert_eq!(mandelbrot_at_point(1.0, 0.0, 2000), 3);
    // c = 0.5: 0, 0.5, 0.75, 1.0625, 1.62890625, 3.1533...
    assert_eq!(mandelbrot_at_point(0.5, 0.0, 2000), 5);
    // c = 2: 0, 2, 6.
    assert_eq!(mandelbrot_at_point(2.0, 0.0, 2000), 2);
}

#[test]
fn escape_count_is_capped_by_the_limit() {
    assert_eq!(mandelbrot_at_point(0.5, 0.0, 5), 5);
    assert_eq!(mandelbrot_at_point(0.5, 0.0, 4), 4);
    assert_eq!(mandelbrot_at_point(0.5, 0.0, 2), 2);
    assert_eq!(mandelbrot_at_point(1.0, 0.0, 3), 3);
    assert_eq!(mandelbrot_at_point(1.0, 0.0, 2), 2);
}

#[test]
fn bounded_orbits_reach_the_limit() {
    // c = -1 alternates between 0 and -1; c = -2 settles on 2; c = i has period two.
    assert_eq!(mandelbrot_at_point(-1.0, 0.0, 2000), 2000);
    assert_eq!(mandelbrot_at_point(-2.0, 0.0, 2000), 2000);
    assert_eq!(mandelbrot_at_point(0.0, 1.0, 500), 500);
}

#[test]
fn escape_count_never_exceeds_the_limit() {
    for n in [0, 1, 3, 50] {
        for ix in 0..40 {
            for iy in 0..40 {
                let cx = -2.5 + 4.0 * (ix as f64) / 40.0;
                let cy = -2.0 + 4.0 * (iy as f64) / 40.0;
                assert!(mandelbrot_at_point(cx, cy, n) <= n);
            }
        }
    }
}

#[test]
fn escape_time_counts_steps_of_any_orbit() {
    // Doubling from 1 first exceeds 100 at 128, the eighth point of the orbit.
    let count = escape_time(1u64, |z: &u64| *z > 100, |z: u64| z * 2, 50);
    assert_eq!(count, 7);
    let capped = escape_time(1u64, |z: &u64| *z > 100, |z: u64| z * 2, 4);
    assert_eq!(capped, 4);
    let at_start = escape_time(500u64, |z: &u64| *z > 100, |z: u64| z, 50);
    assert_eq!(at_start, 0);
    let escaping_at_the_limit = escape_time(1u64, |z: &u64| *z > 100, |z: u64| z * 2, 7);
    assert_eq!(escaping_at_the_limit, 7);
}

#[test]
fn escape_time_tests_each_point_before_stepping_it() {
    let log: RefCell<Vec<String>> = RefCell::new(Vec::new());
    let count = escape_time(
        0u32,
        |z: &u32| {
            log.borrow_mut().push(format!("test {}", z));
            *z >= 2
        },
        |z: u32| {
            log.borrow_mut().push(format!("step {}", z));
            z + 1
        },
        10,
    );
    assert_eq!(count, 2);
    assert_eq!(*log.borrow(), vec!["test 0", "step 0", "test 1", "step 1", "test 2"]);
}

#[test]
fn grid_is_row_major_with_column_first_sampling() {
    let grid = sample_grid(4, 3, |col: usize, row: usize| col + 10 * row);
    assert_eq!(grid, vec![vec![0, 1, 2, 3], vec![10, 11, 12, 13], vec![20, 21, 22, 23]]);
}

#[test]
fn grid_has_height_rows_of_width_cells() {
    for (width, height) in [(1, 1), (1, 7), (7, 1), (110, 32), (5, 5)] {
        let grid = sample_grid(width, height, |_col: usize, _row: usize| 0);
        assert_eq!(grid.len(), height);
        for row in &grid {
            assert_eq!(row.len(), width);
        }
    }
}

#[test]
fn empty_dimensions_give_empty_grids() {
    assert_eq!(sample_grid(0, 3, |_c: usize, _r: usize| 1), vec![vec![], vec![], vec![]]);
    assert_eq!(sample_grid(3, 0, |_c: usize, _r: usize| 1), Vec::<Vec<usize>>::new());
}

#[test]
fn grid_samples_pixels_row_by_row() {
    let visited: RefCell<Vec<(usize, usize)>> = RefCell::new(Vec::new());
    let _ = sample_grid(2, 2, |col: usize, row: usize| {
        visited.borrow_mut().push((col, row));
        0
    });
    assert_eq!(*visited.borrow(), vec![(0, 0), (1, 0), (0, 1), (1, 1)]);
}

#[test]
fn one_by_one_grid_samples_the_lower_corner_of_the_viewport() {
    assert_eq!(calculate_mandelbrot(2000, -2.0, 1.0, -1.0, 1.0, 1, 1), vec![vec![1]]);
    assert_eq!(calculate_mandelbrot(2000, 0.0, 1.0, 0.0, 1.0, 1, 1), vec![vec![2000]]);
}

#[test]
fn degenerate_viewport_gives_a_constant_grid() {
    let grid = calculate_mandelbrot(100, 0.5, 0.5, 0.0, 0.0, 6, 4);
    assert_eq!(grid, vec![vec![5; 6]; 4]);
}

#[test]
fn grid_cells_match_the_viewport_mapping() {
    let grid = calculate_mandelbrot(2000, -2.0, 1.0, -1.0, 1.0, 6, 4);
    assert_eq!(grid.len(), 4);
    for (row, cells) in grid.iter().enumerate() {
        assert_eq!(cells.len(), 6);
        for (col, cell) in cells.iter().enumerate() {
            let cx = -2.0 + 3.0 * (col as f64 / 6.0);
            let cy = -1.0 + 2.0 * (row as f64 / 4.0);
            assert_eq!(*cell, mandelbrot_at_point(cx, cy, 2000));
        }
    }
    // Row 2 lies on the real axis: c = -2, -1.5, -1, -0.5, 0, 0.5.
    assert_eq!(grid[2], vec![2000, 2000, 2000, 2000, 2000, 5]);
}

#[test]
fn full_picture_has_32_lines_of_110_glyphs() {
    let grid = calculate_mandelbrot(2000, -2.0, 1.0, -1.0, 1.0, 110, 32);
    assert_eq!(grid.len(), 32);
    for row in &grid {
        assert_eq!(row.len(), 110);
        for cell in row {
            assert!(*cell <= 2000);
        }
    }
    let top_left = grid[0][0];
    assert_eq!(top_left, 1);
    let lines = render_mandelbrot(grid.clone());
    assert_eq!(lines.len(), 32);
    for line in &lines {
        assert_eq!(line.chars().filter(|c| *c == BLOCK).count(), 110);
        assert_eq!(line.matches("\x1b[38;2;").count(), 110);
        assert_eq!(line.matches("\x1b[0m").count(), 110);
    }
    let shade = from_val(top_left);
    assert_eq!((shade.r, shade.g, shade.b), (0, 0, 150));
    assert!(lines[0].starts_with("\x1b[38;2;0;0;150m\u{2588}\x1b[0m"));
    // The pixel at the origin of the plane belongs to the set.
    assert_eq!(grid[16][74], mandelbrot_at_point(-2.0 + 3.0 * (74.0 / 110.0), 0.0, 2000));
    assert_eq!(grid[16][74], 2000);
}

#[test]
fn full_picture_is_reproduced_exactly() {
    let first = render_mandelbrot(calculate_mandelbrot(2000, -2.0, 1.0, -1.0, 1.0, 110, 32));
    let second = render_mandelbrot(calculate_mandelbrot(2000, -2.0, 1.0, -1.0, 1.0, 110, 32));
    assert_eq!(first, second);
}
