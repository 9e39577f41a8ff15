//! The numeric element types that scalars and vectors are built from.
use vstd::prelude::*;
use crate::arith::trunc_div;

verus! {

/// An integer element type with the four arithmetic operators. Each
/// operator is exact: its result is the mathematical one, so a caller must
/// show that the result is representable.
pub trait Element: Copy + Sized {
    /// The mathematical value of an element.
    spec fn to_int(self) -> int;

    /// Whether a mathematical value is representable in this type.
    spec fn fits(v: int) -> bool;

    fn plus(self, rhs: Self) -> (r: Self)
        requires
            Self::fits(self.to_int() + rhs.to_int()),
        ensures
            r.to_int() == self.to_int() + rhs.to_int(),
    ;

    fn minus(self, rhs: Self) -> (r: Self)
        requires
            Self::fits(self.to_int() - rhs.to_int()),
        ensures
            r.to_int() == self.to_int() - rhs.to_int(),
    ;

    fn times(self, rhs: Self) -> (r: Self)
        requires
            Self::fits(self.to_int() * rhs.to_int()),
        ensures
            r.to_int() == self.to_int() * rhs.to_int(),
    ;

    /// Division rounded toward zero, as Rust's `/` does.
    fn quotient(self, rhs: Self) -> (r: Self)
        requires
            rhs.to_int() != 0,
            Self::fits(trunc_div(self.to_int(), rhs.to_int())),
        ensures
            r.to_int() == trunc_div(self.to_int(), rhs.to_int()),
    ;

    fn is_zero(self) -> (r: bool)
        ensures
            r == (self.to_int() == 0),
    ;
}

impl Element for i32 {
    open spec fn to_int(self) -> int {
        self as int
    }

    open spec fn fits(v: int) -> bool {
        i32::MIN <= v <= i32::MAX
    }

    fn plus(self, rhs: i32) -> (r: i32) {
        self + rhs
    }

    fn minus(self, rhs: i32) -> (r: i32) {
        self - rhs
    }

    fn times(self, rhs: i32) -> (r: i32) {
        self * rhs
    }

    fn quotient(self, rhs: i32) -> (r: i32) {
        let n: i64 = self as i64;
        let d: i64 = rhs as i64;
        let an: i64 = if n < 0 { -n } else { n };
        let ad: i64 = if d < 0 { -d } else { d };
        let q: i64 = an / ad;
        if (n >= 0) == (d > 0) { q as i32 } else { (-q) as i32 }
    }

    fn is_zero(self) -> (r: bool) {
        self == 0
    }
}

impl Element for i16 {
    open spec fn to_int(self) -> int {
        self as int
    }

    open spec fn fits(v: int) -> bool {
        i16::MIN <= v <= i16::MAX
    }

    fn plus(self, rhs: i16) -> (r: i16) {
        self + rhs
    }

    fn minus(self, rhs: i16) -> (r: i16) {
        self - rhs
    }

    fn times(self, rhs: i16) -> (r: i16) {
        self * rhs
    }

    fn quotient(self, rhs: i16) -> (r: i16) {
        let n: i64 = self as i64;
        let d: i64 = rhs as i64;
        let an: i64 = if n < 0 { -n } else { n };
        let ad: i64 = if d < 0 { -d } else { d };
        let q: i64 = an / ad;
        if (n >= 0) == (d > 0) { q as i16 } else { (-q) as i16 }
    }

    fn is_zero(self) -> (r: bool) {
        self == 0
    }
}

impl Element for i64 {
    open spec fn to_int(self) -> int {
        self as int
    }

    open spec fn fits(v: int) -> bool {
        i64::MIN <= v <= i64::MAX
    }

    fn plus(self, rhs: i64) -> (r: i64) {
        self + rhs
    }

    fn minus(self, rhs: i64) -> (r: i64) {
        self - rhs
    }

    fn times(self, rhs: i64) -> (r: i64) {
        self * rhs
    }

    fn quotient(self, rhs: i64) -> (r: i64) {
        let n: i128 = self as i128;
        let d: i128 = rhs as i128;
        let an: i128 = if n < 0 { -n } else { n };
        let ad: i128 = if d < 0 { -d } else { d };
        let q: i128 = an / ad;
        if (n >= 0) == (d > 0) { q as i64 } else { (-q) as i64 }
    }

    fn is_zero(self) -> (r: bool) {
        self == 0
    }
}

} // verus!
