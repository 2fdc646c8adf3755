//! Points and free vectors in fixed-point coordinates, together with their
//! mathematical model `V3i` (unbounded integer triples).  Every executable
//! operation states its result exactly over the model.

use vstd::prelude::*;
use crate::num::{
    SCALE, sqrt_floor, tdiv, lemma_sqrt_floor, lemma_tdiv_le, lemma_tdiv_ge, lemma_mul_bound,
    isqrt, div_trunc,
};

verus! {

/// Mathematical model of a 3-component quantity: a triple of unbounded
/// integers, each a count of `1/SCALE` units.
pub ghost struct V3i {
    pub x: int,
    pub y: int,
    pub z: int,
}

impl V3i {
    pub open spec fn plus(self, o: V3i) -> V3i {
        V3i { x: self.x + o.x, y: self.y + o.y, z: self.z + o.z }
    }

    pub open spec fn minus(self, o: V3i) -> V3i {
        V3i { x: self.x - o.x, y: self.y - o.y, z: self.z - o.z }
    }

    pub open spec fn dot(self, o: V3i) -> int {
        self.x * o.x + self.y * o.y + self.z * o.z
    }

    pub open spec fn cross(self, o: V3i) -> V3i {
        V3i {
            x: self.y * o.z - self.z * o.y,
            y: self.z * o.x - self.x * o.z,
            z: self.x * o.y - self.y * o.x,
        }
    }

    pub open spec fn norm_sq(self) -> int {
        self.dot(self)
    }

    /// Every component has magnitude at most `m`.
    pub open spec fn bounded(self, m: int) -> bool {
        &&& -m <= self.x <= m
        &&& -m <= self.y <= m
        &&& -m <= self.z <= m
    }

    /// Fixed-point normalization: each component is scaled by `SCALE` and
    /// divided (rounding toward zero) by the floor square root of the
    /// squared norm.  The result is the unit vector of `self`, quantized
    /// to `1/SCALE` steps.
    pub open spec fn unit_q(self) -> V3i {
        let len = sqrt_floor(self.norm_sq() as nat) as int;
        V3i {
            x: tdiv(self.x * SCALE, len),
            y: tdiv(self.y * SCALE, len),
            z: tdiv(self.z * SCALE, len),
        }
    }

    /// Fixed-point scalar multiple: `k` is a scalar in `1/SCALE` units.
    pub open spec fn scaled_q(self, k: int) -> V3i {
        V3i {
            x: tdiv(k * self.x, SCALE as int),
            y: tdiv(k * self.y, SCALE as int),
            z: tdiv(k * self.z, SCALE as int),
        }
    }
}

/// A free direction (or a colour triple) in fixed-point coordinates.
#[derive(Clone, Copy, Debug, PartialEq, Eq, Structural)]
pub struct Vec3 {
    pub x: i64,
    pub y: i64,
    pub z: i64,
}

/// An affine position in fixed-point coordinates.
#[derive(Clone, Copy, Debug, PartialEq, Eq, Structural)]
pub struct Point3 {
    pub x: i64,
    pub y: i64,
    pub z: i64,
}

impl View for Vec3 {
    type V = V3i;

    open spec fn view(&self) -> V3i {
        V3i { x: self.x as int, y: self.y as int, z: self.z as int }
    }
}

impl View for Point3 {
    type V = V3i;

    open spec fn view(&self) -> V3i {
        V3i { x: self.x as int, y: self.y as int, z: self.z as int }
    }
}

impl Vec3 {
    pub fn new(x: i64, y: i64, z: i64) -> (r: Vec3)
        ensures
            r@ == (V3i { x: x as int, y: y as int, z: z as int }),
    {
        Vec3 { x, y, z }
    }

    /// Dot product; exact, no scaling applied.
    pub fn dot(&self, o: &Vec3) -> (r: i64)
        requires
            self@.bounded(0x4000_0000),
            o@.bounded(0x4000_0000),
        ensures
            r == self@.dot(o@),
    {
        proof {
            lemma_mul_bound(self.x as int, o.x as int, 0x4000_0000, 0x4000_0000);
            lemma_mul_bound(self.y as int, o.y as int, 0x4000_0000, 0x4000_0000);
            lemma_mul_bound(self.z as int, o.z as int, 0x4000_0000, 0x4000_0000);
        }
        self.x * o.x + self.y * o.y + self.z * o.z
    }

    /// Cross product; exact, components stay at the operands' scale times
    /// `SCALE` when the operands are unit vectors.
    pub fn cross(&self, o: &Vec3) -> (r: Vec3)
        requires
            self@.bounded(0x100_0000),
            o@.bounded(0x100_0000),
        ensures
            r@ == self@.cross(o@),
            r@.bounded(0x2_0000_0000_0000),
    {
        proof {
            lemma_mul_bound(self.y as int, o.z as int, 0x100_0000, 0x100_0000);
            lemma_mul_bound(self.z as int, o.y as int, 0x100_0000, 0x100_0000);
            lemma_mul_bound(self.z as int, o.x as int, 0x100_0000, 0x100_0000);
            lemma_mul_bound(self.x as int, o.z as int, 0x100_0000, 0x100_0000);
            lemma_mul_bound(self.x as int, o.y as int, 0x100_0000, 0x100_0000);
            lemma_mul_bound(self.y as int, o.x as int, 0x100_0000, 0x100_0000);
        }
        Vec3 {
            x: self.y * o.z - self.z * o.y,
            y: self.z * o.x - self.x * o.z,
            z: self.x * o.y - self.y * o.x,
        }
    }

    /// Quantized unit vector in the direction of `self`.
    pub fn normalize(&self) -> (r: Vec3)
        requires
            self@.norm_sq() >= 1,
            self@.bounded(0x4000_0000_0000_0000),
        ensures
            r@ == self@.unit_q(),
            r@.bounded(SCALE as int),
            r@.norm_sq() >= 1,
    {
        proof {
            lemma_mul_bound(self.x as int, self.x as int, 0x4000_0000_0000_0000, 0x4000_0000_0000_0000);
            lemma_mul_bound(self.y as int, self.y as int, 0x4000_0000_0000_0000, 0x4000_0000_0000_0000);
            lemma_mul_bound(self.z as int, self.z as int, 0x4000_0000_0000_0000, 0x4000_0000_0000_0000);
            assert(self.x as int * self.x as int >= 0) by (nonlinear_arith);
            assert(self.y as int * self.y as int >= 0) by (nonlinear_arith);
            assert(self.z as int * self.z as int >= 0) by (nonlinear_arith);
        }
        let xx: i128 = (self.x as i128) * (self.x as i128);
        let yy: i128 = (self.y as i128) * (self.y as i128);
        let zz: i128 = (self.z as i128) * (self.z as i128);
        let ns: i128 = xx + yy + zz;
        let len_u: u128 = isqrt(ns as u128);
        proof {
            let nsn = ns as nat;
            lemma_sqrt_floor(nsn);
            assert(sqrt_floor(nsn) >= 1) by {
                if sqrt_floor(nsn) == 0 {
                    assert(nsn < 1nat * 1nat) by (nonlinear_arith)
                        requires
                            nsn < (sqrt_floor(nsn) + 1) * (sqrt_floor(nsn) + 1),
                            sqrt_floor(nsn) == 0,
                    ;
                }
            }
            assert(len_u as int * len_u as int <= ns) by (nonlinear_arith)
                requires
                    len_u as nat * len_u as nat <= ns as nat,
                    ns >= 1,
            ;
            assert(len_u < 0x1_0000_0000_0000_0000u128) by (nonlinear_arith)
                requires
                    len_u as int * len_u as int <= ns as int,
                    ns <= i128::MAX,
            ;
        }
        let len: i128 = len_u as i128;
        proof {
            lemma_unit_component_bounds(self@, len as int);
        }
        let rx: i128 = div_trunc((self.x as i128) * (SCALE as i128), len);
        let ry: i128 = div_trunc((self.y as i128) * (SCALE as i128), len);
        let rz: i128 = div_trunc((self.z as i128) * (SCALE as i128), len);
        let r = Vec3 { x: rx as i64, y: ry as i64, z: rz as i64 };
        proof {
            lemma_unit_norm_lower(self@, len as int, r@);
        }
        r
    }
}

/// For `len = sqrt_floor(v.norm_sq())`, each component of `v` is bounded by
/// `len`, so the quantized unit vector's components are bounded by `SCALE`.
proof fn lemma_unit_component_bounds(v: V3i, len: int)
    requires
        v.norm_sq() >= 1,
        len >= 1,
        len * len <= v.norm_sq(),
        v.norm_sq() < (len + 1) * (len + 1),
    ensures
        -len <= v.x <= len,
        -len <= v.y <= len,
        -len <= v.z <= len,
        -(SCALE as int * len) <= v.x * SCALE <= SCALE as int * len,
        -(SCALE as int * len) <= v.y * SCALE <= SCALE as int * len,
        -(SCALE as int * len) <= v.z * SCALE <= SCALE as int * len,
        -(SCALE as int) <= tdiv(v.x * SCALE, len) <= SCALE as int,
        -(SCALE as int) <= tdiv(v.y * SCALE, len) <= SCALE as int,
        -(SCALE as int) <= tdiv(v.z * SCALE, len) <= SCALE as int,
{
    assert(-len <= v.x <= len && -len <= v.y <= len && -len <= v.z <= len) by (nonlinear_arith)
        requires
            v.norm_sq() == v.x * v.x + v.y * v.y + v.z * v.z,
            v.norm_sq() < (len + 1) * (len + 1),
            len >= 1,
    ;
    lemma_mul_bound(v.x, SCALE as int, len, SCALE as int);
    lemma_mul_bound(v.y, SCALE as int, len, SCALE as int);
    lemma_mul_bound(v.z, SCALE as int, len, SCALE as int);
    assert(len * (SCALE as int) == (SCALE as int) * len) by (nonlinear_arith);
    lemma_tdiv_le(v.x * SCALE, len, SCALE as int);
    lemma_tdiv_le(v.y * SCALE, len, SCALE as int);
    lemma_tdiv_le(v.z * SCALE, len, SCALE as int);
}

/// The quantized unit vector of a nonzero vector is itself nonzero: its
/// largest component has magnitude at least `SCALE / 2`.
proof fn lemma_unit_norm_lower(v: V3i, len: int, u: V3i)
    requires
        v.norm_sq() >= 1,
        len >= 1,
        len * len <= v.norm_sq(),
        v.norm_sq() < (len + 1) * (len + 1),
        u.x == tdiv(v.x * SCALE, len),
        u.y == tdiv(v.y * SCALE, len),
        u.z == tdiv(v.z * SCALE, len),
    ensures
        u.norm_sq() >= 1,
{
    let m = if v.x * v.x >= v.y * v.y && v.x * v.x >= v.z * v.z {
        v.x
    } else if v.y * v.y >= v.z * v.z {
        v.y
    } else {
        v.z
    };
    let am = if m >= 0 { m } else { -m };
    assert(3 * (am * am) >= v.norm_sq() && am * am == m * m) by (nonlinear_arith)
        requires
            v.norm_sq() == v.x * v.x + v.y * v.y + v.z * v.z,
            m * m >= v.x * v.x || (m == v.y || m == v.z),
            (m == v.x && m * m >= v.y * v.y && m * m >= v.z * v.z)
                || (m == v.y && m * m >= v.z * v.z && m * m >= v.x * v.x)
                || (m == v.z && m * m >= v.x * v.x && m * m >= v.y * v.y),
            am == if m >= 0 { m } else { -m },
    ;
    // len <= 2 * am - 1, since len * len <= 3 * am * am < (2 * am) * (2 * am)
    assert(len < 2 * am) by (nonlinear_arith)
        requires
            len * len <= 3 * (am * am),
            am >= 0,
            len >= 1,
    ;
    // so am * SCALE >= (SCALE / 2) * len, and the quantized component's
    // magnitude is at least SCALE / 2
    let h = SCALE as int / 2;
    assert(am * SCALE >= h * len) by (nonlinear_arith)
        requires
            2 * am >= len + 1,
            len >= 1,
            am >= 1,
            h == SCALE as int / 2,
            SCALE == 65536,
    ;
    lemma_tdiv_ge(am * SCALE, len, h);
    let um = tdiv(am * SCALE, len);
    assert(um >= h);
    assert(tdiv(m * SCALE, len) == if m >= 0 { um } else { -um }) by {
        if m >= 0 {
            assert(m == am);
        } else {
            assert(m * SCALE == -(am * SCALE)) by (nonlinear_arith)
                requires
                    m == -am,
            ;
            assert(tdiv(-(am * SCALE), len) == -tdiv(am * SCALE, len)) by {
                assert(am * SCALE >= 0) by (nonlinear_arith)
                    requires
                        am >= 0,
                ;
            }
        }
    }
    let uc = if m == v.x {
        u.x
    } else if m == v.y {
        u.y
    } else {
        u.z
    };
    assert(uc == um || uc == -um);
    assert(u.norm_sq() >= uc * uc) by (nonlinear_arith)
        requires
            u.norm_sq() == u.x * u.x + u.y * u.y + u.z * u.z,
            uc == u.x || uc == u.y || uc == u.z,
    ;
    assert(uc * uc >= 1) by (nonlinear_arith)
        requires
            uc == um || uc == -um,
            um >= 1,
    ;
}

impl Point3 {
    pub fn new(x: i64, y: i64, z: i64) -> (r: Point3)
        ensures
            r@ == (V3i { x: x as int, y: y as int, z: z as int }),
    {
        Point3 { x, y, z }
    }

    /// Point minus point gives the displacement vector between them.
    pub fn minus(&self, o: &Point3) -> (r: Vec3)
        requires
            self@.bounded(0x2000_0000_0000_0000),
            o@.bounded(0x2000_0000_0000_0000),
        ensures
            r@ == self@.minus(o@),
    {
        Vec3 { x: self.x - o.x, y: self.y - o.y, z: self.z - o.z }
    }

    /// Point plus vector gives a translated point.
    pub fn plus(&self, v: &Vec3) -> (r: Point3)
        requires
            self@.bounded(0x2000_0000_0000_0000),
            v@.bounded(0x2000_0000_0000_0000),
        ensures
            r@ == self@.plus(v@),
    {
        Point3 { x: self.x + v.x, y: self.y + v.y, z: self.z + v.z }
    }
}

} // verus!
