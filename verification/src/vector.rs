//! Plain vector values in fixed-point, with component-wise addition and
//! subtraction, dot products, and scalar multiplication.

use vstd::prelude::*;
use crate::fixed::{fadd, fsub, fmul, spec_fadd, spec_fsub, spec_fmul};

verus! {

#[derive(Clone, Copy, PartialEq, Eq, Structural, Debug)]
pub struct Vector4 {
    pub x: i64,
    pub y: i64,
    pub z: i64,
    pub w: i64,
}

#[derive(Clone, Copy, PartialEq, Eq, Structural, Debug)]
pub struct Vector3 {
    pub x: i64,
    pub y: i64,
    pub z: i64,
}

#[derive(Clone, Copy, PartialEq, Eq, Structural, Debug)]
pub struct Vector2 {
    pub x: i64,
    pub y: i64,
}

pub open spec fn spec_plus4(a: Vector4, b: Vector4) -> Vector4 {
    (Vector4 {
        x: spec_fadd(a.x as int, b.x as int) as i64,
        y: spec_fadd(a.y as int, b.y as int) as i64,
        z: spec_fadd(a.z as int, b.z as int) as i64,
        w: spec_fadd(a.w as int, b.w as int) as i64,
    })
}

pub open spec fn spec_minus4(a: Vector4, b: Vector4) -> Vector4 {
    (Vector4 {
        x: spec_fsub(a.x as int, b.x as int) as i64,
        y: spec_fsub(a.y as int, b.y as int) as i64,
        z: spec_fsub(a.z as int, b.z as int) as i64,
        w: spec_fsub(a.w as int, b.w as int) as i64,
    })
}

/// The dot product of two 4-vectors, summed left to right.
pub open spec fn spec_dot4(a: Vector4, b: Vector4) -> i64 {
    spec_fadd(
        spec_fadd(
            spec_fadd(spec_fmul(a.x as int, b.x as int), spec_fmul(a.y as int, b.y as int)),
            spec_fmul(a.z as int, b.z as int),
        ),
        spec_fmul(a.w as int, b.w as int),
    ) as i64
}

pub open spec fn spec_scaled4(a: Vector4, s: i64) -> Vector4 {
    (Vector4 {
        x: spec_fmul(a.x as int, s as int) as i64,
        y: spec_fmul(a.y as int, s as int) as i64,
        z: spec_fmul(a.z as int, s as int) as i64,
        w: spec_fmul(a.w as int, s as int) as i64,
    })
}

pub open spec fn spec_plus3(a: Vector3, b: Vector3) -> Vector3 {
    (Vector3 {
        x: spec_fadd(a.x as int, b.x as int) as i64,
        y: spec_fadd(a.y as int, b.y as int) as i64,
        z: spec_fadd(a.z as int, b.z as int) as i64,
    })
}

pub open spec fn spec_minus3(a: Vector3, b: Vector3) -> Vector3 {
    (Vector3 {
        x: spec_fsub(a.x as int, b.x as int) as i64,
        y: spec_fsub(a.y as int, b.y as int) as i64,
        z: spec_fsub(a.z as int, b.z as int) as i64,
    })
}

/// The dot product of two 3-vectors, summed left to right.
pub open spec fn spec_dot3(a: Vector3, b: Vector3) -> i64 {
    spec_fadd(
        spec_fadd(spec_fmul(a.x as int, b.x as int), spec_fmul(a.y as int, b.y as int)),
        spec_fmul(a.z as int, b.z as int),
    ) as i64
}

pub open spec fn spec_scaled3(a: Vector3, s: i64) -> Vector3 {
    (Vector3 {
        x: spec_fmul(a.x as int, s as int) as i64,
        y: spec_fmul(a.y as int, s as int) as i64,
        z: spec_fmul(a.z as int, s as int) as i64,
    })
}

pub open spec fn spec_plus2(a: Vector2, b: Vector2) -> Vector2 {
    (Vector2 {
        x: spec_fadd(a.x as int, b.x as int) as i64,
        y: spec_fadd(a.y as int, b.y as int) as i64,
    })
}

pub open spec fn spec_minus2(a: Vector2, b: Vector2) -> Vector2 {
    (Vector2 {
        x: spec_fsub(a.x as int, b.x as int) as i64,
        y: spec_fsub(a.y as int, b.y as int) as i64,
    })
}

/// The dot product of two 2-vectors.
pub open spec fn spec_dot2(a: Vector2, b: Vector2) -> i64 {
    spec_fadd(spec_fmul(a.x as int, b.x as int), spec_fmul(a.y as int, b.y as int)) as i64
}

pub open spec fn spec_scaled2(a: Vector2, s: i64) -> Vector2 {
    (Vector2 {
        x: spec_fmul(a.x as int, s as int) as i64,
        y: spec_fmul(a.y as int, s as int) as i64,
    })
}

impl Vector4 {
    pub fn new(x: i64, y: i64, z: i64, w: i64) -> (r: Self)
        ensures
            r == (Vector4 { x, y, z, w }),
    {
        Vector4 { x, y, z, w }
    }

    pub fn zero() -> (r: Self)
        ensures
            r == (Vector4 { x: 0i64, y: 0i64, z: 0i64, w: 0i64 }),
    {
        Vector4 { x: 0, y: 0, z: 0, w: 0 }
    }

    pub fn plus(&self, rhs: &Vector4) -> (r: Vector4)
        ensures
            r == spec_plus4(*self, *rhs),
    {
        Vector4 {
            x: fadd(self.x, rhs.x),
            y: fadd(self.y, rhs.y),
            z: fadd(self.z, rhs.z),
            w: fadd(self.w, rhs.w),
        }
    }

    pub fn minus(&self, rhs: &Vector4) -> (r: Vector4)
        ensures
            r == spec_minus4(*self, *rhs),
    {
        Vector4 {
            x: fsub(self.x, rhs.x),
            y: fsub(self.y, rhs.y),
            z: fsub(self.z, rhs.z),
            w: fsub(self.w, rhs.w),
        }
    }

    pub fn dot(&self, rhs: &Vector4) -> (r: i64)
        ensures
            r == spec_dot4(*self, *rhs),
    {
        fadd(
            fadd(fadd(fmul(self.x, rhs.x), fmul(self.y, rhs.y)), fmul(self.z, rhs.z)),
            fmul(self.w, rhs.w),
        )
    }

    pub fn scaled(&self, s: i64) -> (r: Vector4)
        ensures
            r == spec_scaled4(*self, s),
    {
        Vector4 {
            x: fmul(self.x, s),
            y: fmul(self.y, s),
            z: fmul(self.z, s),
            w: fmul(self.w, s),
        }
    }
}

impl Vector3 {
    pub fn new(x: i64, y: i64, z: i64) -> (r: Self)
        ensures
            r == (Vector3 { x, y, z }),
    {
        Vector3 { x, y, z }
    }

    pub fn zero() -> (r: Self)
        ensures
            r == (Vector3 { x: 0i64, y: 0i64, z: 0i64 }),
    {
        Vector3 { x: 0, y: 0, z: 0 }
    }

    pub fn plus(&self, rhs: &Vector3) -> (r: Vector3)
        ensures
            r == spec_plus3(*self, *rhs),
    {
        Vector3 { x: fadd(self.x, rhs.x), y: fadd(self.y, rhs.y), z: fadd(self.z, rhs.z) }
    }

    pub fn minus(&self, rhs: &Vector3) -> (r: Vector3)
        ensures
            r == spec_minus3(*self, *rhs),
    {
        Vector3 { x: fsub(self.x, rhs.x), y: fsub(self.y, rhs.y), z: fsub(self.z, rhs.z) }
    }

    pub fn dot(&self, rhs: &Vector3) -> (r: i64)
        ensures
            r == spec_dot3(*self, *rhs),
    {
        fadd(fadd(fmul(self.x, rhs.x), fmul(self.y, rhs.y)), fmul(self.z, rhs.z))
    }

    pub fn scaled(&self, s: i64) -> (r: Vector3)
        ensures
            r == spec_scaled3(*self, s),
    {
        Vector3 { x: fmul(self.x, s), y: fmul(self.y, s), z: fmul(self.z, s) }
    }
}

impl Vector2 {
    pub fn new(x: i64, y: i64) -> (r: Self)
        ensures
            r == (Vector2 { x, y }),
    {
        Vector2 { x, y }
    }

    pub fn zero() -> (r: Self)
        ensures
            r == (Vector2 { x: 0i64, y: 0i64 }),
    {
        Vector2 { x: 0, y: 0 }
    }

    pub fn plus(&self, rhs: &Vector2) -> (r: Vector2)
        ensures
            r == spec_plus2(*self, *rhs),
    {
        Vector2 { x: fadd(self.x, rhs.x), y: fadd(self.y, rhs.y) }
    }

    pub fn minus(&self, rhs: &Vector2) -> (r: Vector2)
        ensures
            r == spec_minus2(*self, *rhs),
    {
        Vector2 { x: fsub(self.x, rhs.x), y: fsub(self.y, rhs.y) }
    }

    pub fn dot(&self, rhs: &Vector2) -> (r: i64)
        ensures
            r == spec_dot2(*self, *rhs),
    {
        fadd(fmul(self.x, rhs.x), fmul(self.y, rhs.y))
    }

    pub fn scaled(&self, s: i64) -> (r: Vector2)
        ensures
            r == spec_scaled2(*self, s),
    {
        Vector2 { x: fmul(self.x, s), y: fmul(self.y, s) }
    }
}

/// A value that barycentric rasterization can interpolate: anything with
/// component-wise addition and fixed-point scalar multiplication.
pub trait Attribute: Sized + Copy {
    /// The interpolated value `v*a1 + w*a2 + u*a0`, where `v` weights the
    /// second vertex, `w` the third and `u` the first.
    spec fn combined_spec(a0: Self, a1: Self, a2: Self, v: i64, w: i64, u: i64) -> Self;

    fn combined(a0: Self, a1: Self, a2: Self, v: i64, w: i64, u: i64) -> (r: Self)
        ensures
            r == Self::combined_spec(a0, a1, a2, v, w, u),
    ;
}

impl Attribute for Vector3 {
    open spec fn combined_spec(a0: Self, a1: Self, a2: Self, v: i64, w: i64, u: i64) -> Self {
        spec_plus3(spec_plus3(spec_scaled3(a1, v), spec_scaled3(a2, w)), spec_scaled3(a0, u))
    }

    fn combined(a0: Self, a1: Self, a2: Self, v: i64, w: i64, u: i64) -> (r: Self) {
        a1.scaled(v).plus(&a2.scaled(w)).plus(&a0.scaled(u))
    }
}

impl Attribute for i64 {
    open spec fn combined_spec(a0: Self, a1: Self, a2: Self, v: i64, w: i64, u: i64) -> Self {
        spec_fadd(
            spec_fadd(spec_fmul(a1 as int, v as int), spec_fmul(a2 as int, w as int)),
            spec_fmul(a0 as int, u as int),
        ) as i64
    }

    fn combined(a0: Self, a1: Self, a2: Self, v: i64, w: i64, u: i64) -> (r: Self) {
        fadd(fadd(fmul(a1, v), fmul(a2, w)), fmul(a0, u))
    }
}

} // verus!
