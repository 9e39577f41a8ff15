//! Scalars and 2-, 3- and 4-component vectors over an integer element type,
//! with componentwise arithmetic and broadcast by a scalar.
//!
//! A vector is seen as the sequence of its components' values; every
//! operation is stated componentwise over that sequence.
use vstd::prelude::*;
use crate::arith::trunc_div;
use crate::element::Element;
use crate::error::RenderError;

verus! {

/// Whether every value of `s` is representable in `T`.
pub open spec fn all_fit<T: Element>(s: Seq<int>) -> bool {
    forall|i: int| 0 <= i < s.len() ==> T::fits(#[trigger] s[i])
}

/// Componentwise sum.
pub open spec fn add_seq(a: Seq<int>, b: Seq<int>) -> Seq<int> {
    Seq::new(a.len(), |i: int| a[i] + b[i])
}

/// Componentwise difference.
pub open spec fn sub_seq(a: Seq<int>, b: Seq<int>) -> Seq<int> {
    Seq::new(a.len(), |i: int| a[i] - b[i])
}

/// Componentwise product.
pub open spec fn mul_seq(a: Seq<int>, b: Seq<int>) -> Seq<int> {
    Seq::new(a.len(), |i: int| a[i] * b[i])
}

/// Every component multiplied by `s`.
pub open spec fn scale_seq(a: Seq<int>, s: int) -> Seq<int> {
    Seq::new(a.len(), |i: int| a[i] * s)
}

/// Componentwise quotient, rounded toward zero.
pub open spec fn quot_seq(a: Seq<int>, b: Seq<int>) -> Seq<int> {
    Seq::new(a.len(), |i: int| trunc_div(a[i], b[i]))
}

/// Every component divided by `s`, rounded toward zero.
pub open spec fn quot_scale_seq(a: Seq<int>, s: int) -> Seq<int> {
    Seq::new(a.len(), |i: int| trunc_div(a[i], s))
}

/// Whether each quotient `a[i] / b[i]` with a non-zero divisor is
/// representable in `T`.
pub open spec fn quot_fits<T: Element>(a: Seq<int>, b: Seq<int>) -> bool {
    forall|i: int| 0 <= i < a.len() && b[i] != 0 ==> T::fits(#[trigger] trunc_div(a[i], b[i]))
}

/// Associativity and commutativity of the componentwise sum, and
/// subtraction undone by addition, for sequences of one length.
pub proof fn lemma_seq_add_laws(a: Seq<int>, b: Seq<int>, c: Seq<int>)
    requires
        a.len() == b.len(),
        b.len() == c.len(),
    ensures
        add_seq(add_seq(a, b), c) == add_seq(a, add_seq(b, c)),
        add_seq(a, b) == add_seq(b, a),
        add_seq(sub_seq(a, b), b) == a,
{
    assert(add_seq(add_seq(a, b), c) =~= add_seq(a, add_seq(b, c)));
    assert(add_seq(a, b) =~= add_seq(b, a));
    assert(add_seq(sub_seq(a, b), b) =~= a);
}

/// A 2-component vector of `i32`, the type of pixel positions.
pub type Vec2i = Vec2<i32>;

/// A 3-component vector of `i32`.
pub type Vec3i = Vec3<i32>;

/// A single value of the element type.
#[derive(Debug, Clone, Copy, PartialEq)]
pub struct Scalar<T> {
    pub value: T,
}

impl<T: Element> View for Scalar<T> {
    type V = int;

    open spec fn view(&self) -> int {
        self.value.to_int()
    }
}

impl<T> Scalar<T> {
    pub fn new(value: T) -> (r: Scalar<T>)
        ensures
            r.value == value,
    {
        Scalar { value }
    }
}

impl<T: Element> Scalar<T> {
    pub fn add(self, rhs: Scalar<T>) -> (r: Scalar<T>)
        requires
            T::fits(self@ + rhs@),
        ensures
            r@ == self@ + rhs@,
    {
        Scalar { value: self.value.plus(rhs.value) }
    }

    pub fn sub(self, rhs: Scalar<T>) -> (r: Scalar<T>)
        requires
            T::fits(self@ - rhs@),
        ensures
            r@ == self@ - rhs@,
    {
        Scalar { value: self.value.minus(rhs.value) }
    }

    pub fn mul(self, rhs: Scalar<T>) -> (r: Scalar<T>)
        requires
            T::fits(self@ * rhs@),
        ensures
            r@ == self@ * rhs@,
    {
        Scalar { value: self.value.times(rhs.value) }
    }

    /// The quotient rounded toward zero; fails where `rhs` is zero.
    pub fn div(self, rhs: Scalar<T>) -> (r: Result<Scalar<T>, RenderError>)
        requires
            rhs@ != 0 ==> T::fits(trunc_div(self@, rhs@)),
        ensures
            match r {
                Ok(q) => rhs@ != 0 && q@ == trunc_div(self@, rhs@),
                Err(e) => rhs@ == 0 && e == RenderError::DivisionByZero,
            },
    {
        if rhs.value.is_zero() {
            return Err(RenderError::DivisionByZero);
        }
        Ok(self.div_nonzero(rhs))
    }

    fn div_nonzero(self, rhs: Scalar<T>) -> (r: Scalar<T>)
        requires
            rhs@ != 0,
            T::fits(trunc_div(self@, rhs@)),
        ensures
            r@ == trunc_div(self@, rhs@),
    {
        Scalar { value: self.value.quotient(rhs.value) }
    }
}

/// A vector of 2 components.
#[derive(Debug, Clone, Copy, PartialEq)]
pub struct Vec2<T> {
    pub x: Scalar<T>,
    pub y: Scalar<T>,
}

impl<T: Element> View for Vec2<T> {
    type V = Seq<int>;

    open spec fn view(&self) -> Seq<int> {
        seq![self.x@, self.y@]
    }
}

impl<T> Vec2<T> {
    pub fn new(x: Scalar<T>, y: Scalar<T>) -> (r: Vec2<T>)
        ensures
            r.x == x,
            r.y == y,
    {
        Vec2 { x, y }
    }
}

impl<T: Element> Vec2<T> {
    /// Componentwise sum.
    pub fn add(self, rhs: Vec2<T>) -> (r: Vec2<T>)
        requires
            all_fit::<T>(add_seq(self@, rhs@)),
        ensures
            r@ =~= add_seq(self@, rhs@),
    {
        proof {
            assert(T::fits(add_seq(self@, rhs@)[0]));
            assert(T::fits(add_seq(self@, rhs@)[1]));
        }
        Vec2 { x: self.x.add(rhs.x), y: self.y.add(rhs.y) }
    }

    /// Componentwise difference.
    pub fn sub(self, rhs: Vec2<T>) -> (r: Vec2<T>)
        requires
            all_fit::<T>(sub_seq(self@, rhs@)),
        ensures
            r@ =~= sub_seq(self@, rhs@),
    {
        proof {
            assert(T::fits(sub_seq(self@, rhs@)[0]));
            assert(T::fits(sub_seq(self@, rhs@)[1]));
        }
        Vec2 { x: self.x.sub(rhs.x), y: self.y.sub(rhs.y) }
    }

    /// Componentwise product.
    pub fn mul(self, rhs: Vec2<T>) -> (r: Vec2<T>)
        requires
            all_fit::<T>(mul_seq(self@, rhs@)),
        ensures
            r@ =~= mul_seq(self@, rhs@),
    {
        proof {
            assert(T::fits(mul_seq(self@, rhs@)[0]));
            assert(T::fits(mul_seq(self@, rhs@)[1]));
        }
        Vec2 { x: self.x.mul(rhs.x), y: self.y.mul(rhs.y) }
    }

    /// Every component multiplied by the same scalar.
    pub fn mul_scalar(self, s: Scalar<T>) -> (r: Vec2<T>)
        requires
            all_fit::<T>(scale_seq(self@, s@)),
        ensures
            r@ =~= scale_seq(self@, s@),
            forall|i: int| 0 <= i < self@.len() ==> #[trigger] r@[i] == self@[i] * s@,
    {
        proof {
            assert(T::fits(scale_seq(self@, s@)[0]));
            assert(T::fits(scale_seq(self@, s@)[1]));
        }
        Vec2 { x: self.x.mul(s), y: self.y.mul(s) }
    }

    /// Componentwise quotient, each rounded toward zero; fails where any
    /// component of `rhs` is zero.
    pub fn div(self, rhs: Vec2<T>) -> (r: Result<Vec2<T>, RenderError>)
        requires
            quot_fits::<T>(self@, rhs@),
        ensures
            match r {
                Ok(q) => !rhs@.contains(0) && q@ =~= quot_seq(self@, rhs@),
                Err(e) => rhs@.contains(0) && e == RenderError::DivisionByZero,
            },
    {
        if rhs.x.value.is_zero() || rhs.y.value.is_zero() {
            proof {
                if rhs.x@ == 0 {
                    assert(rhs@[0] == 0);
                }
                if rhs.y@ == 0 {
                    assert(rhs@[1] == 0);
                }
            }
            return Err(RenderError::DivisionByZero);
        }
        proof {
            assert(T::fits(trunc_div(self@[0], rhs@[0])));
            assert(T::fits(trunc_div(self@[1], rhs@[1])));
        }
        Ok(Vec2 { x: self.x.div_nonzero(rhs.x), y: self.y.div_nonzero(rhs.y) })
    }

    /// Every component divided by the same scalar, rounded toward zero; fails
    /// where the scalar is zero.
    pub fn div_scalar(self, s: Scalar<T>) -> (r: Result<Vec2<T>, RenderError>)
        requires
            s@ != 0 ==> all_fit::<T>(quot_scale_seq(self@, s@)),
        ensures
            match r {
                Ok(q) => s@ != 0 && q@ =~= quot_scale_seq(self@, s@),
                Err(e) => s@ == 0 && e == RenderError::DivisionByZero,
            },
    {
        if s.value.is_zero() {
            return Err(RenderError::DivisionByZero);
        }
        proof {
            assert(T::fits(quot_scale_seq(self@, s@)[0]));
            assert(T::fits(quot_scale_seq(self@, s@)[1]));
        }
        Ok(Vec2 { x: self.x.div_nonzero(s), y: self.y.div_nonzero(s) })
    }
}

/// For vectors of 2 components: addition is associative and commutative,
/// and adding back what was subtracted gives the vector back.
pub proof fn lemma_vec2_add_laws<T: Element>(a: Vec2<T>, b: Vec2<T>, c: Vec2<T>)
    ensures
        add_seq(add_seq(a@, b@), c@) == add_seq(a@, add_seq(b@, c@)),
        add_seq(a@, b@) == add_seq(b@, a@),
        add_seq(sub_seq(a@, b@), b@) == a@,
{
    lemma_seq_add_laws(a@, b@, c@);
}

/// A vector of 3 components.
#[derive(Debug, Clone, Copy, PartialEq)]
pub struct Vec3<T> {
    pub x: Scalar<T>,
    pub y: Scalar<T>,
    pub z: Scalar<T>,
}

impl<T: Element> View for Vec3<T> {
    type V = Seq<int>;

    open spec fn view(&self) -> Seq<int> {
        seq![self.x@, self.y@, self.z@]
    }
}

impl<T> Vec3<T> {
    pub fn new(x: Scalar<T>, y: Scalar<T>, z: Scalar<T>) -> (r: Vec3<T>)
        ensures
            r.x == x,
            r.y == y,
            r.z == z,
    {
        Vec3 { x, y, z }
    }
}

impl<T: Element> Vec3<T> {
    /// Componentwise sum.
    pub fn add(self, rhs: Vec3<T>) -> (r: Vec3<T>)
        requires
            all_fit::<T>(add_seq(self@, rhs@)),
        ensures
            r@ =~= add_seq(self@, rhs@),
    {
        proof {
            assert(T::fits(add_seq(self@, rhs@)[0]));
            assert(T::fits(add_seq(self@, rhs@)[1]));
            assert(T::fits(add_seq(self@, rhs@)[2]));
        }
        Vec3 { x: self.x.add(rhs.x), y: self.y.add(rhs.y), z: self.z.add(rhs.z) }
    }

    /// Componentwise difference.
    pub fn sub(self, rhs: Vec3<T>) -> (r: Vec3<T>)
        requires
            all_fit::<T>(sub_seq(self@, rhs@)),
        ensures
            r@ =~= sub_seq(self@, rhs@),
    {
        proof {
            assert(T::fits(sub_seq(self@, rhs@)[0]));
            assert(T::fits(sub_seq(self@, rhs@)[1]));
            assert(T::fits(sub_seq(self@, rhs@)[2]));
        }
        Vec3 { x: self.x.sub(rhs.x), y: self.y.sub(rhs.y), z: self.z.sub(rhs.z) }
    }

    /// Componentwise product.
    pub fn mul(self, rhs: Vec3<T>) -> (r: Vec3<T>)
        requires
            all_fit::<T>(mul_seq(self@, rhs@)),
        ensures
            r@ =~= mul_seq(self@, rhs@),
    {
        proof {
            assert(T::fits(mul_seq(self@, rhs@)[0]));
            assert(T::fits(mul_seq(self@, rhs@)[1]));
            assert(T::fits(mul_seq(self@, rhs@)[2]));
        }
        Vec3 { x: self.x.mul(rhs.x), y: self.y.mul(rhs.y), z: self.z.mul(rhs.z) }
    }

    /// Every component multiplied by the same scalar.
    pub fn mul_scalar(self, s: Scalar<T>) -> (r: Vec3<T>)
        requires
            all_fit::<T>(scale_seq(self@, s@)),
        ensures
            r@ =~= scale_seq(self@, s@),
            forall|i: int| 0 <= i < self@.len() ==> #[trigger] r@[i] == self@[i] * s@,
    {
        proof {
            assert(T::fits(scale_seq(self@, s@)[0]));
            assert(T::fits(scale_seq(self@, s@)[1]));
            assert(T::fits(scale_seq(self@, s@)[2]));
        }
        Vec3 { x: self.x.mul(s), y: self.y.mul(s), z: self.z.mul(s) }
    }

    /// Componentwise quotient, each rounded toward zero; fails where any
    /// component of `rhs` is zero.
    pub fn div(self, rhs: Vec3<T>) -> (r: Result<Vec3<T>, RenderError>)
        requires
            quot_fits::<T>(self@, rhs@),
        ensures
            match r {
                Ok(q) => !rhs@.contains(0) && q@ =~= quot_seq(self@, rhs@),
                Err(e) => rhs@.contains(0) && e == RenderError::DivisionByZero,
            },
    {
        if rhs.x.value.is_zero() || rhs.y.value.is_zero() || rhs.z.value.is_zero() {
            proof {
                if rhs.x@ == 0 {
                    assert(rhs@[0] == 0);
                }
                if rhs.y@ == 0 {
                    assert(rhs@[1] == 0);
                }
                if rhs.z@ == 0 {
                    assert(rhs@[2] == 0);
                }
            }
            return Err(RenderError::DivisionByZero);
        }
        proof {
            assert(T::fits(trunc_div(self@[0], rhs@[0])));
            assert(T::fits(trunc_div(self@[1], rhs@[1])));
            assert(T::fits(trunc_div(self@[2], rhs@[2])));
        }
        Ok(Vec3 { x: self.x.div_nonzero(rhs.x), y: self.y.div_nonzero(rhs.y), z: self.z.div_nonzero(rhs.z) })
    }

    /// Every component divided by the same scalar, rounded toward zero; fails
    /// where the scalar is zero.
    pub fn div_scalar(self, s: Scalar<T>) -> (r: Result<Vec3<T>, RenderError>)
        requires
            s@ != 0 ==> all_fit::<T>(quot_scale_seq(self@, s@)),
        ensures
            match r {
                Ok(q) => s@ != 0 && q@ =~= quot_scale_seq(self@, s@),
                Err(e) => s@ == 0 && e == RenderError::DivisionByZero,
            },
    {
        if s.value.is_zero() {
            return Err(RenderError::DivisionByZero);
        }
        proof {
            assert(T::fits(quot_scale_seq(self@, s@)[0]));
            assert(T::fits(quot_scale_seq(self@, s@)[1]));
            assert(T::fits(quot_scale_seq(self@, s@)[2]));
        }
        Ok(Vec3 { x: self.x.div_nonzero(s), y: self.y.div_nonzero(s), z: self.z.div_nonzero(s) })
    }
}

/// For vectors of 3 components: addition is associative and commutative,
/// and adding back what was subtracted gives the vector back.
pub proof fn lemma_vec3_add_laws<T: Element>(a: Vec3<T>, b: Vec3<T>, c: Vec3<T>)
    ensures
        add_seq(add_seq(a@, b@), c@) == add_seq(a@, add_seq(b@, c@)),
        add_seq(a@, b@) == add_seq(b@, a@),
        add_seq(sub_seq(a@, b@), b@) == a@,
{
    lemma_seq_add_laws(a@, b@, c@);
}

/// A vector of 4 components.
#[derive(Debug, Clone, Copy, PartialEq)]
pub struct Vec4<T> {
    pub x: Scalar<T>,
    pub y: Scalar<T>,
    pub z: Scalar<T>,
    pub w: Scalar<T>,
}

impl<T: Element> View for Vec4<T> {
    type V = Seq<int>;

    open spec fn view(&self) -> Seq<int> {
        seq![self.x@, self.y@, self.z@, self.w@]
    }
}

impl<T> Vec4<T> {
    pub fn new(x: Scalar<T>, y: Scalar<T>, z: Scalar<T>, w: Scalar<T>) -> (r: Vec4<T>)
        ensures
            r.x == x,
            r.y == y,
            r.z == z,
            r.w == w,
    {
        Vec4 { x, y, z, w }
    }
}

impl<T: Element> Vec4<T> {
    /// Componentwise sum.
    pub fn add(self, rhs: Vec4<T>) -> (r: Vec4<T>)
        requires
            all_fit::<T>(add_seq(self@, rhs@)),
        ensures
            r@ =~= add_seq(self@, rhs@),
    {
        proof {
            assert(T::fits(add_seq(self@, rhs@)[0]));
            assert(T::fits(add_seq(self@, rhs@)[1]));
            assert(T::fits(add_seq(self@, rhs@)[2]));
            assert(T::fits(add_seq(self@, rhs@)[3]));
        }
        Vec4 { x: self.x.add(rhs.x), y: self.y.add(rhs.y), z: self.z.add(rhs.z), w: self.w.add(rhs.w) }
    }

    /// Componentwise difference.
    pub fn sub(self, rhs: Vec4<T>) -> (r: Vec4<T>)
        requires
            all_fit::<T>(sub_seq(self@, rhs@)),
        ensures
            r@ =~= sub_seq(self@, rhs@),
    {
        proof {
            assert(T::fits(sub_seq(self@, rhs@)[0]));
            assert(T::fits(sub_seq(self@, rhs@)[1]));
            assert(T::fits(sub_seq(self@, rhs@)[2]));
            assert(T::fits(sub_seq(self@, rhs@)[3]));
        }
        Vec4 { x: self.x.sub(rhs.x), y: self.y.sub(rhs.y), z: self.z.sub(rhs.z), w: self.w.sub(rhs.w) }
    }

    /// Componentwise product.
    pub fn mul(self, rhs: Vec4<T>) -> (r: Vec4<T>)
        requires
            all_fit::<T>(mul_seq(self@, rhs@)),
        ensures
            r@ =~= mul_seq(self@, rhs@),
    {
        proof {
            assert(T::fits(mul_seq(self@, rhs@)[0]));
            assert(T::fits(mul_seq(self@, rhs@)[1]));
            assert(T::fits(mul_seq(self@, rhs@)[2]));
            assert(T::fits(mul_seq(self@, rhs@)[3]));
        }
        Vec4 { x: self.x.mul(rhs.x), y: self.y.mul(rhs.y), z: self.z.mul(rhs.z), w: self.w.mul(rhs.w) }
    }

    /// Every component multiplied by the same scalar.
    pub fn mul_scalar(self, s: Scalar<T>) -> (r: Vec4<T>)
        requires
            all_fit::<T>(scale_seq(self@, s@)),
        ensures
            r@ =~= scale_seq(self@, s@),
            forall|i: int| 0 <= i < self@.len() ==> #[trigger] r@[i] == self@[i] * s@,
    {
        proof {
            assert(T::fits(scale_seq(self@, s@)[0]));
            assert(T::fits(scale_seq(self@, s@)[1]));
            assert(T::fits(scale_seq(self@, s@)[2]));
            assert(T::fits(scale_seq(self@, s@)[3]));
        }
        Vec4 { x: self.x.mul(s), y: self.y.mul(s), z: self.z.mul(s), w: self.w.mul(s) }
    }

    /// Componentwise quotient, each rounded toward zero; fails where any
    /// component of `rhs` is zero.
    pub fn div(self, rhs: Vec4<T>) -> (r: Result<Vec4<T>, RenderError>)
        requires
            quot_fits::<T>(self@, rhs@),
        ensures
            match r {
                Ok(q) => !rhs@.contains(0) && q@ =~= quot_seq(self@, rhs@),
                Err(e) => rhs@.contains(0) && e == RenderError::DivisionByZero,
            },
    {
        if rhs.x.value.is_zero() || rhs.y.value.is_zero() || rhs.z.value.is_zero() || rhs.w.value.is_zero() {
            proof {
                if rhs.x@ == 0 {
                    assert(rhs@[0] == 0);
                }
                if rhs.y@ == 0 {
                    assert(rhs@[1] == 0);
                }
                if rhs.z@ == 0 {
                    assert(rhs@[2] == 0);
                }
                if rhs.w@ == 0 {
                    assert(rhs@[3] == 0);
                }
            }
            return Err(RenderError::DivisionByZero);
        }
        proof {
            assert(T::fits(trunc_div(self@[0], rhs@[0])));
            assert(T::fits(trunc_div(self@[1], rhs@[1])));
            assert(T::fits(trunc_div(self@[2], rhs@[2])));
            assert(T::fits(trunc_div(self@[3], rhs@[3])));
        }
        Ok(Vec4 { x: self.x.div_nonzero(rhs.x), y: self.y.div_nonzero(rhs.y), z: self.z.div_nonzero(rhs.z), w: self.w.div_nonzero(rhs.w) })
    }

    /// Every component divided by the same scalar, rounded toward zero; fails
    /// where the scalar is zero.
    pub fn div_scalar(self, s: Scalar<T>) -> (r: Result<Vec4<T>, RenderError>)
        requires
            s@ != 0 ==> all_fit::<T>(quot_scale_seq(self@, s@)),
        ensures
            match r {
                Ok(q) => s@ != 0 && q@ =~= quot_scale_seq(self@, s@),
                Err(e) => s@ == 0 && e == RenderError::DivisionByZero,
            },
    {
        if s.value.is_zero() {
            return Err(RenderError::DivisionByZero);
        }
        proof {
            assert(T::fits(quot_scale_seq(self@, s@)[0]));
            assert(T::fits(quot_scale_seq(self@, s@)[1]));
            assert(T::fits(quot_scale_seq(self@, s@)[2]));
            assert(T::fits(quot_scale_seq(self@, s@)[3]));
        }
        Ok(Vec4 { x: self.x.div_nonzero(s), y: self.y.div_nonzero(s), z: self.z.div_nonzero(s), w: self.w.div_nonzero(s) })
    }
}

/// For vectors of 4 components: addition is associative and commutative,
/// and adding back what was subtracted gives the vector back.
pub proof fn lemma_vec4_add_laws<T: Element>(a: Vec4<T>, b: Vec4<T>, c: Vec4<T>)
    ensures
        add_seq(add_seq(a@, b@), c@) == add_seq(a@, add_seq(b@, c@)),
        add_seq(a@, b@) == add_seq(b@, a@),
        add_seq(sub_seq(a@, b@), b@) == a@,
{
    lemma_seq_add_laws(a@, b@, c@);
}



} // verus!
