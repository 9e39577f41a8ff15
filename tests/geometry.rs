use render_with_rust::backend::geometry::{Scalar, Vec2, Vec2i, Vec3, Vec4};
use render_with_rust::error::RenderError;

fn v2(x: i32, y: i32) -> Vec2i {
    Vec2::new(Scalar::new(x), Scalar::new(y))
}

fn v3(x: i32, y: i32, z: i32) -> Vec3<i32> {
    Vec3::new(Scalar::new(x), Scalar::new(y), Scalar::new(z))
}

fn v4(x: i16, y: i16, z: i16, w: i16) -> Vec4<i16> {
    Vec4::new(Scalar::new(x), Scalar::new(y), Scalar::new(z), Scalar::new(w))
}

#[test]
fn scalar_arithmetic() {
    let a = Scalar::new(7i32);
    let b = Scalar::new(2i32);
    assert_eq!(a.add(b), Scalar::new(9));
    assert_eq!(a.sub(b), Scalar::new(5));
    assert_eq!(a.mul(b), Scalar::new(14));
    assert_eq!(a.div(b), Ok(Scalar::new(3)));
}

#[test]
fn scalar_division_truncates_toward_zero() {
    assert_eq!(Scalar::new(-7i32).div(Scalar::new(2)), Ok(Scalar::new(-3)));
    assert_eq!(Scalar::new(7i32).div(Scalar::new(-2)), Ok(Scalar::new(-3)));
    assert_eq!(Scalar::new(-7i32).div(Scalar::new(-2)), Ok(Scalar::new(3)));
    assert_eq!(Scalar::new(i64::MIN).div(Scalar::new(1)), Ok(Scalar::new(i64::MIN)));
    assert_eq!(Scalar::new(-9i16).div(Scalar::new(4)), Ok(Scalar::new(-2)));
}

#[test]
fn integer_division_by_zero_fails() {
    assert_eq!(Scalar::new(5i32).div(Scalar::new(0)), Err(RenderError::DivisionByZero));
    assert_eq!(Scalar::new(0i64).div(Scalar::new(0)), Err(RenderError::DivisionByZero));
    assert_eq!(v2(1, 2).div_scalar(Scalar::new(0)), Err(RenderError::DivisionByZero));
    assert_eq!(v3(1, 2, 3).div(v3(1, 0, 1)), Err(RenderError::DivisionByZero));
}

#[test]
fn vec2_componentwise() {
    let a = v2(1, 2);
    let b = v2(3, 4);
    assert_eq!(b.add(a), v2(4, 6));
    assert_eq!(b.sub(a), v2(2, 2));
    assert_eq!(b.mul(a), v2(3, 8));
    assert_eq!(b.div(a), Ok(v2(3, 2)));
    assert_eq!(b.mul_scalar(Scalar::new(10)), v2(30, 40));
}

#[test]
fn vec3_componentwise() {
    let a = v3(5, 6, 7);
    let b = v3(1, -2, 3);
    assert_eq!(a.add(b), v3(6, 4, 10));
    assert_eq!(a.sub(b), v3(4, 8, 4));
    assert_eq!(a.mul(b), v3(5, -12, 21));
    assert_eq!(a.div(b), Ok(v3(5, -3, 2)));
    assert_eq!(a.div_scalar(Scalar::new(2)), Ok(v3(2, 3, 3)));
}

#[test]
fn vec4_broadcast_scales_every_component() {
    let v = v4(8, 9, 10, 11);
    assert_eq!(v.mul_scalar(Scalar::new(10)), v4(80, 90, 100, 110));
    assert_eq!(v.div_scalar(Scalar::new(3)), Ok(v4(2, 3, 3, 3)));
    assert_eq!(v.add(v4(1, 1, 1, 1)), v4(9, 10, 11, 12));
    assert_eq!(v.sub(v4(1, 2, 3, 4)), v4(7, 7, 7, 7));
    assert_eq!(v.mul(v4(2, 2, 2, 2)), v4(16, 18, 20, 22));
    assert_eq!(v.div(v4(2, 3, 5, 11)), Ok(v4(4, 3, 2, 1)));
}

#[test]
fn vector_addition_laws() {
    let a = v3(1, 2, 3);
    let b = v3(4, -5, 6);
    let c = v3(-7, 8, 9);
    assert_eq!(a.add(b).add(c), a.add(b.add(c)));
    assert_eq!(a.add(b), b.add(a));
    assert_eq!(a.sub(b).add(b), a);
    let p = v2(3, -4);
    let q = v2(10, 20);
    assert_eq!(p.sub(q).add(q), p);
    assert_eq!(p.add(q), q.add(p));
}

#[test]
fn constructors_keep_components() {
    let v = v4(1, 2, 3, 4);
    assert_eq!((v.x.value, v.y.value, v.z.value, v.w.value), (1, 2, 3, 4));
    let s = Scalar::new(2.5f32);
    assert_eq!(s.value, 2.5);
}
