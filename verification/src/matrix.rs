//! A 4x4 fixed-point matrix with the conventional row-by-column product.

use vstd::prelude::*;
use crate::fixed::{fadd, fsub};
use crate::vector::{Vector4, spec_dot4};

verus! {

#[derive(Clone, Copy, PartialEq, Eq, Structural, Debug, Default)]
pub struct Matrix4 {
    pub m00: i64, pub m01: i64, pub m02: i64, pub m03: i64,
    pub m10: i64, pub m11: i64, pub m12: i64, pub m13: i64,
    pub m20: i64, pub m21: i64, pub m22: i64, pub m23: i64,
    pub m30: i64, pub m31: i64, pub m32: i64, pub m33: i64,
}

/// Row `i` of the matrix, reading the fields `mCR` as column-major storage:
/// `mCR` holds the entry at column `C`, row `R`.
pub open spec fn spec_row(m: Matrix4, i: int) -> Vector4
    recommends 0 <= i < 4,
{
    if i == 0 {
        (Vector4 { x: m.m00, y: m.m10, z: m.m20, w: m.m30 })
    } else if i == 1 {
        (Vector4 { x: m.m01, y: m.m11, z: m.m21, w: m.m31 })
    } else if i == 2 {
        (Vector4 { x: m.m02, y: m.m12, z: m.m22, w: m.m32 })
    } else {
        (Vector4 { x: m.m03, y: m.m13, z: m.m23, w: m.m33 })
    }
}

/// Column `i` of the matrix.
pub open spec fn spec_column(m: Matrix4, i: int) -> Vector4
    recommends 0 <= i < 4,
{
    if i == 0 {
        (Vector4 { x: m.m00, y: m.m01, z: m.m02, w: m.m03 })
    } else if i == 1 {
        (Vector4 { x: m.m10, y: m.m11, z: m.m12, w: m.m13 })
    } else if i == 2 {
        (Vector4 { x: m.m20, y: m.m21, z: m.m22, w: m.m23 })
    } else {
        (Vector4 { x: m.m30, y: m.m31, z: m.m32, w: m.m33 })
    }
}

/// Entry `(row i, column j)` of the conventional product `a * b`:
/// the dot product of row `i` of `a` with column `j` of `b`.
pub open spec fn spec_product_entry(a: Matrix4, b: Matrix4, i: int, j: int) -> i64
    recommends 0 <= i < 4, 0 <= j < 4,
{
    spec_dot4(spec_row(a, i), spec_column(b, j))
}

impl Matrix4 {
    /// The four rows, top to bottom.
    pub fn as_rows(&self) -> (r: [Vector4; 4])
        ensures
            forall|i: int| 0 <= i < 4 ==> r[i] == spec_row(*self, i),
    {
        [
            Vector4::new(self.m00, self.m10, self.m20, self.m30),
            Vector4::new(self.m01, self.m11, self.m21, self.m31),
            Vector4::new(self.m02, self.m12, self.m22, self.m32),
            Vector4::new(self.m03, self.m13, self.m23, self.m33),
        ]
    }

    /// The four columns, left to right.
    pub fn as_columns(&self) -> (r: [Vector4; 4])
        ensures
            forall|i: int| 0 <= i < 4 ==> r[i] == spec_column(*self, i),
    {
        [
            Vector4::new(self.m00, self.m01, self.m02, self.m03),
            Vector4::new(self.m10, self.m11, self.m12, self.m13),
            Vector4::new(self.m20, self.m21, self.m22, self.m23),
            Vector4::new(self.m30, self.m31, self.m32, self.m33),
        ]
    }

    /// Component-wise sum of two matrices.
    pub fn plus(&self, rhs: &Matrix4) -> (r: Matrix4)
        ensures
            r == (Matrix4 {
                m00: crate::fixed::sadd(self.m00, rhs.m00),
                m01: crate::fixed::sadd(self.m01, rhs.m01),
                m02: crate::fixed::sadd(self.m02, rhs.m02),
                m03: crate::fixed::sadd(self.m03, rhs.m03),
                m10: crate::fixed::sadd(self.m10, rhs.m10),
                m11: crate::fixed::sadd(self.m11, rhs.m11),
                m12: crate::fixed::sadd(self.m12, rhs.m12),
                m13: crate::fixed::sadd(self.m13, rhs.m13),
                m20: crate::fixed::sadd(self.m20, rhs.m20),
                m21: crate::fixed::sadd(self.m21, rhs.m21),
                m22: crate::fixed::sadd(self.m22, rhs.m22),
                m23: crate::fixed::sadd(self.m23, rhs.m23),
                m30: crate::fixed::sadd(self.m30, rhs.m30),
                m31: crate::fixed::sadd(self.m31, rhs.m31),
                m32: crate::fixed::sadd(self.m32, rhs.m32),
                m33: crate::fixed::sadd(self.m33, rhs.m33),
            }),
    {
        Matrix4 {
            m00: fadd(self.m00, rhs.m00), m01: fadd(self.m01, rhs.m01), m02: fadd(self.m02, rhs.m02), m03: fadd(self.m03, rhs.m03),
            m10: fadd(self.m10, rhs.m10), m11: fadd(self.m11, rhs.m11), m12: fadd(self.m12, rhs.m12), m13: fadd(self.m13, rhs.m13),
            m20: fadd(self.m20, rhs.m20), m21: fadd(self.m21, rhs.m21), m22: fadd(self.m22, rhs.m22), m23: fadd(self.m23, rhs.m23),
            m30: fadd(self.m30, rhs.m30), m31: fadd(self.m31, rhs.m31), m32: fadd(self.m32, rhs.m32), m33: fadd(self.m33, rhs.m33),
        }
    }

    /// Component-wise difference of two matrices.
    pub fn minus(&self, rhs: &Matrix4) -> (r: Matrix4)
        ensures
            r == (Matrix4 {
                m00: crate::fixed::ssub(self.m00, rhs.m00),
                m01: crate::fixed::ssub(self.m01, rhs.m01),
                m02: crate::fixed::ssub(self.m02, rhs.m02),
                m03: crate::fixed::ssub(self.m03, rhs.m03),
                m10: crate::fixed::ssub(self.m10, rhs.m10),
                m11: crate::fixed::ssub(self.m11, rhs.m11),
                m12: crate::fixed::ssub(self.m12, rhs.m12),
                m13: crate::fixed::ssub(self.m13, rhs.m13),
                m20: crate::fixed::ssub(self.m20, rhs.m20),
                m21: crate::fixed::ssub(self.m21, rhs.m21),
                m22: crate::fixed::ssub(self.m22, rhs.m22),
                m23: crate::fixed::ssub(self.m23, rhs.m23),
                m30: crate::fixed::ssub(self.m30, rhs.m30),
                m31: crate::fixed::ssub(self.m31, rhs.m31),
                m32: crate::fixed::ssub(self.m32, rhs.m32),
                m33: crate::fixed::ssub(self.m33, rhs.m33),
            }),
    {
        Matrix4 {
            m00: fsub(self.m00, rhs.m00), m01: fsub(self.m01, rhs.m01), m02: fsub(self.m02, rhs.m02), m03: fsub(self.m03, rhs.m03),
            m10: fsub(self.m10, rhs.m10), m11: fsub(self.m11, rhs.m11), m12: fsub(self.m12, rhs.m12), m13: fsub(self.m13, rhs.m13),
            m20: fsub(self.m20, rhs.m20), m21: fsub(self.m21, rhs.m21), m22: fsub(self.m22, rhs.m22), m23: fsub(self.m23, rhs.m23),
            m30: fsub(self.m30, rhs.m30), m31: fsub(self.m31, rhs.m31), m32: fsub(self.m32, rhs.m32), m33: fsub(self.m33, rhs.m33),
        }
    }

    /// The conventional matrix product: entry `(i,j)` of the result is the
    /// dot product of row `i` of `self` with column `j` of `rhs`.
    pub fn multiply(&self, rhs: &Matrix4) -> (r: Matrix4)
        ensures
            r == (Matrix4 {
                m00: spec_product_entry(*self, *rhs, 0, 0),
                m01: spec_product_entry(*self, *rhs, 1, 0),
                m02: spec_product_entry(*self, *rhs, 2, 0),
                m03: spec_product_entry(*self, *rhs, 3, 0),
                m10: spec_product_entry(*self, *rhs, 0, 1),
                m11: spec_product_entry(*self, *rhs, 1, 1),
                m12: spec_product_entry(*self, *rhs, 2, 1),
                m13: spec_product_entry(*self, *rhs, 3, 1),
                m20: spec_product_entry(*self, *rhs, 0, 2),
                m21: spec_product_entry(*self, *rhs, 1, 2),
                m22: spec_product_entry(*self, *rhs, 2, 2),
                m23: spec_product_entry(*self, *rhs, 3, 2),
                m30: spec_product_entry(*self, *rhs, 0, 3),
                m31: spec_product_entry(*self, *rhs, 1, 3),
                m32: spec_product_entry(*self, *rhs, 2, 3),
                m33: spec_product_entry(*self, *rhs, 3, 3),
            }),
    {
        let rows = self.as_rows();
        let cols = rhs.as_columns();
        Matrix4 {
            m00: rows[0].dot(&cols[0]), m01: rows[1].dot(&cols[0]), m02: rows[2].dot(&cols[0]), m03: rows[3].dot(&cols[0]),
            m10: rows[0].dot(&cols[1]), m11: rows[1].dot(&cols[1]), m12: rows[2].dot(&cols[1]), m13: rows[3].dot(&cols[1]),
            m20: rows[0].dot(&cols[2]), m21: rows[1].dot(&cols[2]), m22: rows[2].dot(&cols[2]), m23: rows[3].dot(&cols[2]),
            m30: rows[0].dot(&cols[3]), m31: rows[1].dot(&cols[3]), m32: rows[2].dot(&cols[3]), m33: rows[3].dot(&cols[3]),
        }
    }

    /// Matrix-vector product: component `i` of the result is the dot
    /// product of row `i` with the vector.
    pub fn transform(&self, v: &Vector4) -> (r: Vector4)
        ensures
            r.x == spec_dot4(spec_row(*self, 0), *v),
            r.y == spec_dot4(spec_row(*self, 1), *v),
            r.z == spec_dot4(spec_row(*self, 2), *v),
            r.w == spec_dot4(spec_row(*self, 3), *v),
    {
        let rows = self.as_rows();
        Vector4::new(rows[0].dot(v), rows[1].dot(v), rows[2].dot(v), rows[3].dot(v))
    }
}

} // verus!
