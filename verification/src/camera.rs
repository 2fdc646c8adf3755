//! Camera/projection mapping: a pixel coordinate becomes a world-space
//! primary ray through a look-at orthonormal basis (world up `(0,1,0)`)
//! and a field-of-view scale.

use vstd::prelude::*;
use crate::num::{
    SCALE, COORD_MAX, tdiv, lemma_tdiv_le, lemma_mul_bound, div_trunc,
};
use crate::vec::{V3i, Vec3};
use crate::geom::{Ray, Camera};

verus! {

/// Largest accepted field-of-view scale (`tan(fov / 2)` in fixed point):
/// 8.0, i.e. a field of view of nearly 166 degrees.
pub const FOV_ADJUST_MAX: i64 = 524288;

/// The fixed world up direction, `(0, 1, 0)`.
pub open spec fn up_vector() -> V3i {
    V3i { x: 0, y: SCALE as int, z: 0 }
}

/// The camera's viewing direction, from its position toward `look_at`.
pub open spec fn camera_forward(c: Camera) -> V3i {
    c.look_at@.minus(c.position@)
}

/// A camera that admits a look-at basis: position and target within the
/// scene volume, distinct, and a viewing direction not parallel to the
/// world up (the degenerate straight-up camera has no defined basis).
pub open spec fn camera_wf(c: Camera) -> bool {
    &&& c.position@.bounded(COORD_MAX as int)
    &&& c.look_at@.bounded(COORD_MAX as int)
    &&& camera_forward(c).norm_sq() >= 1
    &&& up_vector().cross(camera_forward(c).unit_q()).norm_sq() >= 1
}

/// Basis forward axis: the quantized unit viewing direction.
pub open spec fn basis_z(c: Camera) -> V3i {
    camera_forward(c).unit_q()
}

/// Basis right axis: unit `up x forward`.
pub open spec fn basis_x(c: Camera) -> V3i {
    up_vector().cross(basis_z(c)).unit_q()
}

/// Basis up axis: `forward x right`, rescaled from `SCALE^2` to `SCALE`.
/// The cross product of two unit axes is already unit length up to
/// quantization, so it is not renormalized.
pub open spec fn basis_y(c: Camera) -> V3i {
    let cr = basis_z(c).cross(basis_x(c));
    V3i {
        x: tdiv(cr.x, SCALE as int),
        y: tdiv(cr.y, SCALE as int),
        z: tdiv(cr.z, SCALE as int),
    }
}

/// Horizontal screen coordinate of pixel column `x`: the pixel centre
/// mapped to `[-1, 1]`, scaled by the aspect ratio `w / h` and the
/// field-of-view scale; `(2x + 1 - w) * fov_adjust / h` exactly.
pub open spec fn screen_x(x: int, w: int, h: int, fov_adjust: int) -> int {
    tdiv((2 * x + 1 - w) * fov_adjust, h)
}

/// Vertical screen coordinate of pixel row `y`, inverted so row 0 is the
/// top: `(h - 2y - 1) * fov_adjust / h` exactly.
pub open spec fn screen_y(y: int, h: int, fov_adjust: int) -> int {
    tdiv((h - 2 * y - 1) * fov_adjust, h)
}

/// The unnormalized world direction through screen point `(sx, sy)`:
/// `sx * X + sy * Y + Z` over the camera basis, products rescaled to
/// `SCALE`.
pub open spec fn pixel_dir_raw(c: Camera, sx: int, sy: int) -> V3i {
    let bx = basis_x(c);
    let by = basis_y(c);
    let bz = basis_z(c);
    V3i {
        x: tdiv(sx * bx.x + sy * by.x, SCALE as int) + bz.x,
        y: tdiv(sx * bx.y + sy * by.y, SCALE as int) + bz.y,
        z: tdiv(sx * bx.z + sy * by.z, SCALE as int) + bz.z,
    }
}

/// An orthonormal (up to quantization) camera-to-world basis.
pub struct Basis {
    pub x_axis: Vec3,
    pub y_axis: Vec3,
    pub z_axis: Vec3,
}

impl Basis {
    /// The axes are exactly the camera's look-at basis.
    pub open spec fn is_for(self, c: Camera) -> bool {
        &&& self.x_axis@ == basis_x(c)
        &&& self.y_axis@ == basis_y(c)
        &&& self.z_axis@ == basis_z(c)
    }
}

/// Decide `camera_wf` at run time, for callers outside the proof system.
pub fn camera_wf_check(c: &Camera) -> (r: bool)
    ensures
        r == camera_wf(*c),
{
    let p = &c.position;
    let l = &c.look_at;
    if !(-COORD_MAX <= p.x && p.x <= COORD_MAX && -COORD_MAX <= p.y && p.y <= COORD_MAX
        && -COORD_MAX <= p.z && p.z <= COORD_MAX) {
        return false;
    }
    if !(-COORD_MAX <= l.x && l.x <= COORD_MAX && -COORD_MAX <= l.y && l.y <= COORD_MAX
        && -COORD_MAX <= l.z && l.z <= COORD_MAX) {
        return false;
    }
    let fwd: Vec3 = c.look_at.minus(&c.position);
    let fns: i64 = fwd.dot(&fwd);
    if fns < 1 {
        return false;
    }
    let z: Vec3 = fwd.normalize();
    let upv: Vec3 = Vec3::new(0, SCALE, 0);
    let xr: Vec3 = upv.cross(&z);
    proof {
        lemma_mul_bound(xr.x as int, xr.x as int, 0x2_0000_0000_0000, 0x2_0000_0000_0000);
        lemma_mul_bound(xr.y as int, xr.y as int, 0x2_0000_0000_0000, 0x2_0000_0000_0000);
        lemma_mul_bound(xr.z as int, xr.z as int, 0x2_0000_0000_0000, 0x2_0000_0000_0000);
        assert(xr.x as int * xr.x as int >= 0) by (nonlinear_arith);
        assert(xr.y as int * xr.y as int >= 0) by (nonlinear_arith);
        assert(xr.z as int * xr.z as int >= 0) by (nonlinear_arith);
    }
    let xns: i128 = (xr.x as i128) * (xr.x as i128) + (xr.y as i128) * (xr.y as i128)
        + (xr.z as i128) * (xr.z as i128);
    xns >= 1
}

/// Build the look-at basis of a camera.
pub fn camera_basis(c: &Camera) -> (r: Basis)
    requires
        camera_wf(*c),
    ensures
        r.is_for(*c),
        r.x_axis@.bounded(SCALE as int),
        r.y_axis@.bounded(2 * SCALE as int),
        r.z_axis@.bounded(SCALE as int),
{
    let fwd: Vec3 = c.look_at.minus(&c.position);
    let z: Vec3 = fwd.normalize();
    let upv: Vec3 = Vec3::new(0, SCALE, 0);
    let xr: Vec3 = upv.cross(&z);
    let x: Vec3 = xr.normalize();
    let yr: Vec3 = z.cross(&x);
    proof {
        lemma_mul_bound(z@.y, x@.z, SCALE as int, SCALE as int);
        lemma_mul_bound(z@.z, x@.y, SCALE as int, SCALE as int);
        lemma_mul_bound(z@.z, x@.x, SCALE as int, SCALE as int);
        lemma_mul_bound(z@.x, x@.z, SCALE as int, SCALE as int);
        lemma_mul_bound(z@.x, x@.y, SCALE as int, SCALE as int);
        lemma_mul_bound(z@.y, x@.x, SCALE as int, SCALE as int);
        lemma_tdiv_le(yr@.x, SCALE as int, 2 * SCALE as int);
        lemma_tdiv_le(yr@.y, SCALE as int, 2 * SCALE as int);
        lemma_tdiv_le(yr@.z, SCALE as int, 2 * SCALE as int);
    }
    let yx: i128 = div_trunc(yr.x as i128, SCALE as i128);
    let yy: i128 = div_trunc(yr.y as i128, SCALE as i128);
    let yz: i128 = div_trunc(yr.z as i128, SCALE as i128);
    let y = Vec3 { x: yx as i64, y: yy as i64, z: yz as i64 };
    Basis { x_axis: x, y_axis: y, z_axis: z }
}

/// The primary ray for pixel `(x, y)` in a `w` by `h` image: origin at
/// the camera, direction the normalized world vector through the pixel
/// centre on the screen plane.  `None` only if the quantized direction
/// vanishes, which no basis produced by `camera_basis` allows for a
/// field of view within bounds.
pub fn pixel_ray(c: &Camera, basis: &Basis, x: u32, y: u32, w: u32, h: u32, fov_adjust: i64) -> (r:
    Option<Ray>)
    requires
        camera_wf(*c),
        basis.is_for(*c),
        basis.x_axis@.bounded(SCALE as int),
        basis.y_axis@.bounded(2 * SCALE as int),
        basis.z_axis@.bounded(SCALE as int),
        x < w <= 16384,
        y < h <= 16384,
        0 <= fov_adjust <= FOV_ADJUST_MAX,
    ensures
        ({
            let dr = pixel_dir_raw(
                *c,
                screen_x(x as int, w as int, h as int, fov_adjust as int),
                screen_y(y as int, h as int, fov_adjust as int),
            );
            match r {
                Option::None => dr.norm_sq() == 0,
                Option::Some(ray) => {
                    &&& dr.norm_sq() >= 1
                    &&& ray.origin == c.position
                    &&& ray.direction@ == dr.unit_q()
                    &&& ray.wf()
                },
            }
        }),
{
    proof {
        lemma_mul_bound(2 * (x as int) + 1 - (w as int), fov_adjust as int, 16384, FOV_ADJUST_MAX as int);
        lemma_mul_bound((h as int) - 2 * (y as int) - 1, fov_adjust as int, 16384, FOV_ADJUST_MAX as int);
        lemma_tdiv_le((2 * (x as int) + 1 - (w as int)) * (fov_adjust as int), h as int,
            16384 * FOV_ADJUST_MAX as int);
        lemma_tdiv_le(((h as int) - 2 * (y as int) - 1) * (fov_adjust as int), h as int,
            16384 * FOV_ADJUST_MAX as int);
    }
    let sx: i128 = div_trunc(
        ((2 * (x as i64) + 1 - (w as i64)) as i128) * (fov_adjust as i128),
        h as i128,
    );
    let sy: i128 = div_trunc(
        (((h as i64) - 2 * (y as i64) - 1) as i128) * (fov_adjust as i128),
        h as i128,
    );
    let dir_raw: Vec3 = pixel_dir(basis, sx as i64, sy as i64);
    proof {
        lemma_mul_bound(dir_raw.x as int, dir_raw.x as int, 0x40_0000_0000, 0x40_0000_0000);
        lemma_mul_bound(dir_raw.y as int, dir_raw.y as int, 0x40_0000_0000, 0x40_0000_0000);
        lemma_mul_bound(dir_raw.z as int, dir_raw.z as int, 0x40_0000_0000, 0x40_0000_0000);
        assert(dir_raw.x as int * dir_raw.x as int >= 0) by (nonlinear_arith);
        assert(dir_raw.y as int * dir_raw.y as int >= 0) by (nonlinear_arith);
        assert(dir_raw.z as int * dir_raw.z as int >= 0) by (nonlinear_arith);
    }
    let ns: i128 = (dir_raw.x as i128) * (dir_raw.x as i128)
        + (dir_raw.y as i128) * (dir_raw.y as i128) + (dir_raw.z as i128) * (dir_raw.z as i128);
    if ns == 0 {
        return None;
    }
    let direction: Vec3 = dir_raw.normalize();
    Some(Ray::new(c.position, direction))
}

/// The unnormalized direction `sx * X + sy * Y + Z` over a camera basis.
fn pixel_dir(basis: &Basis, sx: i64, sy: i64) -> (r: Vec3)
    requires
        basis.x_axis@.bounded(SCALE as int),
        basis.y_axis@.bounded(2 * SCALE as int),
        basis.z_axis@.bounded(SCALE as int),
        -0x2_0000_0000 <= sx <= 0x2_0000_0000,
        -0x2_0000_0000 <= sy <= 0x2_0000_0000,
    ensures
        ({
            let g = V3i {
                x: tdiv(sx as int * basis.x_axis@.x + sy as int * basis.y_axis@.x, SCALE as int)
                    + basis.z_axis@.x,
                y: tdiv(sx as int * basis.x_axis@.y + sy as int * basis.y_axis@.y, SCALE as int)
                    + basis.z_axis@.y,
                z: tdiv(sx as int * basis.x_axis@.z + sy as int * basis.y_axis@.z, SCALE as int)
                    + basis.z_axis@.z,
            };
            r@ == g && r@.bounded(0x40_0000_0000)
        }),
{
    proof {
        lemma_mul_bound(sx as int, basis.x_axis@.x, 0x2_0000_0000, SCALE as int);
        lemma_mul_bound(sx as int, basis.x_axis@.y, 0x2_0000_0000, SCALE as int);
        lemma_mul_bound(sx as int, basis.x_axis@.z, 0x2_0000_0000, SCALE as int);
        lemma_mul_bound(sy as int, basis.y_axis@.x, 0x2_0000_0000, 2 * SCALE as int);
        lemma_mul_bound(sy as int, basis.y_axis@.y, 0x2_0000_0000, 2 * SCALE as int);
        lemma_mul_bound(sy as int, basis.y_axis@.z, 0x2_0000_0000, 2 * SCALE as int);
        lemma_tdiv_le(sx as int * basis.x_axis@.x + sy as int * basis.y_axis@.x, SCALE as int,
            0x6_0000_0000);
        lemma_tdiv_le(sx as int * basis.x_axis@.y + sy as int * basis.y_axis@.y, SCALE as int,
            0x6_0000_0000);
        lemma_tdiv_le(sx as int * basis.x_axis@.z + sy as int * basis.y_axis@.z, SCALE as int,
            0x6_0000_0000);
    }
    let cx: i128 = div_trunc(
        (sx as i128) * (basis.x_axis.x as i128) + (sy as i128) * (basis.y_axis.x as i128),
        SCALE as i128,
    );
    let cy: i128 = div_trunc(
        (sx as i128) * (basis.x_axis.y as i128) + (sy as i128) * (basis.y_axis.y as i128),
        SCALE as i128,
    );
    let cz: i128 = div_trunc(
        (sx as i128) * (basis.x_axis.z as i128) + (sy as i128) * (basis.y_axis.z as i128),
        SCALE as i128,
    );
    Vec3 {
        x: (cx as i64) + basis.z_axis.x,
        y: (cy as i64) + basis.z_axis.y,
        z: (cz as i64) + basis.z_axis.z,
    }
}

} // verus!
