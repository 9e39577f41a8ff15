use render_with_rust::backend::geometry::{Scalar, Vec2, Vec2i};
use render_with_rust::backend::images::Surface;
use render_with_rust::error::RenderError;
use render_with_rust::model::{triangle, triangle_spans};

fn v2(x: i32, y: i32) -> Vec2i {
    Vec2::new(Scalar::new(x), Scalar::new(y))
}

const RED: [u8; 4] = [255, 0, 0, 255];
const CLEAR: [u8; 4] = [0, 0, 0, 0];

#[test]
fn flat_triangle_writes_nothing() {
    assert!(triangle_spans(v2(0, 2), v2(5, 2), v2(9, 2)).is_empty());
    let mut s = Surface::new(10, 10);
    assert_eq!(triangle(v2(0, 2), v2(5, 2), v2(9, 2), RED, &mut s), Ok(()));
    for y in 0..10 {
        for x in 0..10 {
            assert_eq!(s.pixel(x, y), Some(CLEAR));
        }
    }
}

#[test]
fn right_triangle_spans() {
    assert_eq!(
        triangle_spans(v2(0, 0), v2(4, 0), v2(0, 4)),
        vec![(0, 0, 4), (1, 0, 3), (2, 0, 2), (3, 0, 1)]
    );
}

#[test]
fn right_triangle_fill_stays_in_its_box() {
    let mut s = Surface::new(8, 8);
    assert_eq!(triangle(v2(0, 0), v2(4, 0), v2(0, 4), RED, &mut s), Ok(()));
    let mut filled = 0;
    let mut rows = Vec::new();
    for y in 0..8 {
        for x in 0..8 {
            if s.pixel(x, y) == Some(RED) {
                assert!(x <= 4 && y <= 4);
                filled += 1;
                if !rows.contains(&y) {
                    rows.push(y);
                }
            }
        }
    }
    assert_eq!(filled, 14);
    assert_eq!(rows, vec![0, 1, 2, 3]);
}

#[test]
fn triangle_uses_both_short_edges() {
    assert_eq!(
        triangle_spans(v2(0, 0), v2(2, 4), v2(4, 1)),
        vec![(0, 0, 0), (1, 0, 4), (2, 1, 3), (3, 1, 2)]
    );
}

#[test]
fn triangle_boundaries_round_toward_zero() {
    assert_eq!(
        triangle_spans(v2(-4, 0), v2(0, 0), v2(-4, 3)),
        vec![(0, -4, 0), (1, -4, -1), (2, -4, -2)]
    );
}

#[test]
fn triangle_leaving_the_surface_fails_and_writes_nothing() {
    let mut s = Surface::new(3, 3);
    assert_eq!(
        triangle(v2(0, 0), v2(4, 0), v2(0, 4), RED, &mut s),
        Err(RenderError::OutOfBounds)
    );
    for y in 0..3 {
        for x in 0..3 {
            assert_eq!(s.pixel(x, y), Some(CLEAR));
        }
    }
}

#[test]
fn triangle_at_the_edge_of_the_range() {
    assert_eq!(
        triangle_spans(v2(i32::MAX, 0), v2(i32::MAX - 2, 2), v2(i32::MAX, 2)),
        vec![(0, i32::MAX, i32::MAX), (1, i32::MAX - 1, i32::MAX)]
    );
}
