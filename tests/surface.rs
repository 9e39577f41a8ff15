use render_with_rust::backend::images::{set_all, Surface};

#[test]
fn new_surface_is_clear() {
    let s = Surface::new(4, 3);
    assert_eq!((s.width(), s.height()), (4, 3));
    assert_eq!(s.pixel(3, 2), Some([0, 0, 0, 0]));
    assert_eq!(s.pixel(4, 0), None);
    assert_eq!(s.pixel(0, 3), None);
    assert_eq!(s.pixel(-1, 0), None);
}

#[test]
fn set_writes_one_pixel() {
    let mut s = Surface::new(4, 3);
    assert!(render_with_rust::backend::images::set(&mut s, 1, 2, [1, 2, 3, 4]));
    assert_eq!(s.pixel(1, 2), Some([1, 2, 3, 4]));
    assert_eq!(s.pixel(2, 1), Some([0, 0, 0, 0]));
    assert!(!render_with_rust::backend::images::set(&mut s, 4, 0, [9, 9, 9, 9]));
    assert!(!render_with_rust::backend::images::set(&mut s, 0, -1, [9, 9, 9, 9]));
}

#[test]
fn set_all_fills_every_pixel() {
    let mut s = Surface::new(3, 2);
    assert!(set_all(&mut s, [0, 0, 0, 255]));
    for y in 0..2 {
        for x in 0..3 {
            assert_eq!(s.pixel(x, y), Some([0, 0, 0, 255]));
        }
    }
}
