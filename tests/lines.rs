use render_with_rust::backend::geometry::{Scalar, Vec2, Vec2i};
use render_with_rust::backend::images::Surface;
use render_with_rust::error::RenderError;
use render_with_rust::line::{line_points, LineMethodEnum};

fn v2(x: i32, y: i32) -> Vec2i {
    Vec2::new(Scalar::new(x), Scalar::new(y))
}

const RED: [u8; 4] = [255, 0, 0, 255];
const ALL: [LineMethodEnum; 4] = [
    LineMethodEnum::NAIVE0,
    LineMethodEnum::NAIVE1,
    LineMethodEnum::NAIVE2,
    LineMethodEnum::BRESENHAM,
];

#[test]
fn bresenham_diagonal_plots_four_points_in_order() {
    let pts = line_points(v2(0, 0), v2(3, 3), LineMethodEnum::BRESENHAM);
    assert_eq!(pts, vec![(0, 0), (1, 1), (2, 2), (3, 3)]);
}

#[test]
fn bresenham_vertical_plots_six_points() {
    let pts = line_points(v2(0, 0), v2(0, 5), LineMethodEnum::BRESENHAM);
    assert_eq!(pts, vec![(0, 0), (0, 1), (0, 2), (0, 3), (0, 4), (0, 5)]);
}

#[test]
fn coinciding_end_points_plot_one_point() {
    for m in ALL {
        assert_eq!(line_points(v2(5, 5), v2(5, 5), m), vec![(5, 5)]);
    }
}

#[test]
fn stepping_strategies_on_a_shallow_line() {
    let want = vec![(0, 0), (1, 0), (2, 1), (3, 1), (4, 2), (5, 2)];
    assert_eq!(line_points(v2(0, 0), v2(5, 2), LineMethodEnum::BRESENHAM), want);
    assert_eq!(line_points(v2(0, 0), v2(5, 2), LineMethodEnum::NAIVE2), want);
    assert_eq!(
        line_points(v2(0, 0), v2(5, 2), LineMethodEnum::NAIVE1),
        vec![(0, 0), (1, 0), (2, 0), (3, 1), (4, 1), (5, 2)]
    );
}

#[test]
fn steep_reversed_line_is_transposed_and_ordered() {
    assert_eq!(
        line_points(v2(2, 5), v2(0, 0), LineMethodEnum::BRESENHAM),
        vec![(0, 0), (0, 1), (1, 2), (1, 3), (2, 4), (2, 5)]
    );
}

#[test]
fn negative_coordinates_round_toward_zero() {
    assert_eq!(
        line_points(v2(0, -1), v2(4, -2), LineMethodEnum::NAIVE1),
        vec![(0, -1), (1, -1), (2, -1), (3, -1), (4, -2)]
    );
    assert_eq!(
        line_points(v2(0, -1), v2(4, -2), LineMethodEnum::BRESENHAM),
        vec![(0, -1), (1, -1), (2, -1), (3, -2), (4, -2)]
    );
}

#[test]
fn sampling_takes_one_hundred_samples() {
    let pts = line_points(v2(0, 0), v2(5, 2), LineMethodEnum::NAIVE0);
    assert_eq!(pts.len(), 100);
    assert_eq!(pts[0], (0, 0));
    assert_eq!(pts[20], (1, 0));
    assert_eq!(pts[50], (2, 1));
    assert_eq!(pts[99], (4, 1));
}

#[test]
fn line_writes_its_points() {
    let mut s = Surface::new(10, 10);
    assert_eq!(render_with_rust::line::line(v2(0, 0), v2(3, 3), RED, &mut s, LineMethodEnum::BRESENHAM), Ok(()));
    for i in 0..4 {
        assert_eq!(s.pixel(i, i), Some(RED));
    }
    assert_eq!(s.pixel(0, 1), Some([0, 0, 0, 0]));
    assert_eq!(s.pixel(4, 4), Some([0, 0, 0, 0]));
}

#[test]
fn line_leaving_the_surface_fails_and_writes_nothing() {
    let mut s = Surface::new(10, 10);
    assert_eq!(
        render_with_rust::line::line(v2(-1, 0), v2(3, 0), RED, &mut s, LineMethodEnum::BRESENHAM),
        Err(RenderError::OutOfBounds)
    );
    for x in 0..10 {
        assert_eq!(s.pixel(x, 0), Some([0, 0, 0, 0]));
    }
    assert_eq!(
        render_with_rust::line::line(v2(0, 0), v2(10, 0), RED, &mut s, LineMethodEnum::NAIVE1),
        Err(RenderError::OutOfBounds)
    );
    assert_eq!(s.pixel(0, 0), Some([0, 0, 0, 0]));
}

#[test]
fn extreme_coordinates_do_not_overflow() {
    let p0 = v2(i32::MAX - 2, i32::MIN);
    let p1 = v2(i32::MAX, i32::MIN + 1);
    assert_eq!(
        line_points(p0, p1, LineMethodEnum::BRESENHAM),
        vec![(i32::MAX - 2, i32::MIN), (i32::MAX - 1, i32::MIN), (i32::MAX, i32::MIN + 1)]
    );
    assert_eq!(
        line_points(p0, p1, LineMethodEnum::NAIVE1),
        vec![(i32::MAX - 2, i32::MIN), (i32::MAX - 1, i32::MIN + 1), (i32::MAX, i32::MIN + 1)]
    );
    let long = line_points(v2(i32::MIN, 0), v2(i32::MIN + 1000, 1), LineMethodEnum::NAIVE2);
    assert_eq!(long.len(), 1001);
    assert_eq!(long[1000], (i32::MIN + 1000, 1));
}

#[test]
fn stepping_strategies_end_at_both_end_points() {
    for m in [LineMethodEnum::NAIVE1, LineMethodEnum::NAIVE2, LineMethodEnum::BRESENHAM] {
        let pts = line_points(v2(7, -3), v2(-2, 4), m);
        assert_eq!(pts.len(), 10);
        assert_eq!(pts[0], (-2, 4));
        assert_eq!(pts[9], (7, -3));
    }
}
