//! Rendering: one primary ray per pixel cast through the camera basis,
//! the traced colour truncated to 8-bit channels, written into a dense
//! row-major RGB buffer (top row first, left to right).

use vstd::prelude::*;
use crate::num::{SCALE, tdiv, lemma_tdiv_nonneg, lemma_mul_bound, div_trunc};
use crate::vec::{V3i, Vec3};
use crate::scene::{Scene, black, SHADE_MAX};
use crate::camera::{
    camera_wf, camera_basis, pixel_ray, pixel_dir_raw, screen_x, screen_y, FOV_ADJUST_MAX,
};

verus! {

/// The colour of pixel `(x, y)` in a `w` by `h` image: the trace of the
/// primary ray through the pixel centre, or black for the degenerate
/// pixel whose quantized direction vanishes.
pub open spec fn pixel_color(scene: Scene, x: int, y: int, w: int, h: int, fov_adjust: int) -> V3i {
    let sx = screen_x(x, w, h, fov_adjust);
    let sy = screen_y(y, h, fov_adjust);
    let dr = pixel_dir_raw(scene.camera, sx, sy);
    if dr.norm_sq() == 0 {
        black()
    } else {
        scene.trace_at(scene.camera.position@, dr.unit_q())
    }
}

/// A colour channel truncated to an 8-bit value: `floor(c * 255 / SCALE)`,
/// saturating at 255.  Accumulated colours are deliberately not clamped
/// before this conversion: the fraction is truncated and an overexposed
/// channel saturates at the cast, like a float-to-byte `as` cast.
pub open spec fn to_byte(c: int) -> int {
    let v = tdiv(c * 255, SCALE as int);
    if v < 0 {
        0
    } else if v > 255 {
        255
    } else {
        v
    }
}

/// The buffer holds, at the pixel's row-major index, the three bytes of
/// its colour, in `(R, G, B)` order.
pub open spec fn pixel_ok(
    buf: Seq<u8>,
    scene: Scene,
    x: int,
    y: int,
    w: int,
    h: int,
    fov_adjust: int,
) -> bool {
    let c = pixel_color(scene, x, y, w, h, fov_adjust);
    let i = (y * w + x) * 3;
    &&& buf[i] == to_byte(c.x)
    &&& buf[i + 1] == to_byte(c.y)
    &&& buf[i + 2] == to_byte(c.z)
}

/// Truncate one accumulated channel to a byte.
fn byte_of(c: i64) -> (r: u8)
    requires
        0 <= c <= SHADE_MAX,
    ensures
        r as int == to_byte(c as int),
{
    proof {
        lemma_mul_bound(c as int, 255, SHADE_MAX as int, 255);
        assert(c as int * 255 >= 0) by (nonlinear_arith)
            requires
                c >= 0,
        ;
        lemma_tdiv_nonneg(c as int * 255, SCALE as int);
    }
    let v: i128 = div_trunc((c as i128) * 255, SCALE as i128);
    if v > 255 {
        255
    } else {
        v as u8
    }
}

/// Render the scene into a `width * height * 3` byte buffer, one pixel
/// at a time, rows top to bottom.  `fov_adjust` is `tan(fov / 2)` in
/// fixed point (`SCALE` standing for 1).
pub fn render(scene: &Scene, width: u32, height: u32, fov_adjust: i64) -> (r: Vec<u8>)
    requires
        scene.wf(),
        camera_wf(scene.camera),
        1 <= width <= 16384,
        1 <= height <= 16384,
        0 <= fov_adjust <= FOV_ADJUST_MAX,
    ensures
        r@.len() == (width as int) * (height as int) * 3,
        forall|x: int, y: int|
            0 <= x < width && 0 <= y < height ==> pixel_ok(
                r@,
                *scene,
                x,
                y,
                width as int,
                height as int,
                fov_adjust as int,
            ),
{
    let basis = camera_basis(&scene.camera);
    let mut buf: Vec<u8> = Vec::new();
    let mut y: u32 = 0;
    while y < height
        invariant
            scene.wf(),
            camera_wf(scene.camera),
            1 <= width <= 16384,
            1 <= height <= 16384,
            0 <= fov_adjust <= FOV_ADJUST_MAX,
            basis.is_for(scene.camera),
            basis.x_axis@.bounded(SCALE as int),
            basis.y_axis@.bounded(2 * SCALE as int),
            basis.z_axis@.bounded(SCALE as int),
            y <= height,
            buf@.len() == (y as int) * (width as int) * 3,
            forall|px: int, py: int|
                0 <= px < width && 0 <= py < y ==> pixel_ok(
                    buf@,
                    *scene,
                    px,
                    py,
                    width as int,
                    height as int,
                    fov_adjust as int,
                ),
        decreases height - y,
    {
        let mut x: u32 = 0;
        while x < width
            invariant
                scene.wf(),
                camera_wf(scene.camera),
                1 <= width <= 16384,
                1 <= height <= 16384,
                0 <= fov_adjust <= FOV_ADJUST_MAX,
                basis.is_for(scene.camera),
                basis.x_axis@.bounded(SCALE as int),
                basis.y_axis@.bounded(2 * SCALE as int),
                basis.z_axis@.bounded(SCALE as int),
                y < height,
                x <= width,
                buf@.len() == ((y as int) * (width as int) + x as int) * 3,
                forall|px: int, py: int|
                    0 <= px < width && 0 <= py < y ==> pixel_ok(
                        buf@,
                        *scene,
                        px,
                        py,
                        width as int,
                        height as int,
                        fov_adjust as int,
                    ),
                forall|px: int|
                    0 <= px < x ==> pixel_ok(
                        buf@,
                        *scene,
                        px,
                        y as int,
                        width as int,
                        height as int,
                        fov_adjust as int,
                    ),
            decreases width - x,
        {
            let ray_opt = pixel_ray(&scene.camera, &basis, x, y, width, height, fov_adjust);
            let color: Vec3 = match ray_opt {
                Option::None => Vec3::new(0, 0, 0),
                Option::Some(ray) => scene.trace(&ray),
            };
            proof {
                assert(color@ == pixel_color(
                    *scene,
                    x as int,
                    y as int,
                    width as int,
                    height as int,
                    fov_adjust as int,
                ));
                assert(((y as int) * (width as int) + x as int + 1) * 3 == ((y as int) * (width
                    as int) + x as int) * 3 + 3) by (nonlinear_arith);
            }
            let ghost buf0 = buf@;
            buf.push(byte_of(color.x));
            buf.push(byte_of(color.y));
            buf.push(byte_of(color.z));
            proof {
                let w = width as int;
                let h = height as int;
                let fa = fov_adjust as int;
                let yy = y as int;
                let xx = x as int;
                assert forall|px: int, py: int| 0 <= px < w && 0 <= py < yy implies pixel_ok(
                    buf@,
                    *scene,
                    px,
                    py,
                    w,
                    h,
                    fa,
                ) by {
                    assert(0 <= (py * w + px) * 3 && (py * w + px) * 3 + 2 < (yy * w + xx) * 3)
                        by (nonlinear_arith)
                        requires
                            0 <= px < w,
                            0 <= py < yy,
                            xx >= 0,
                            w >= 1,
                    ;
                    assert(pixel_ok(buf0, *scene, px, py, w, h, fa));
                }
                assert forall|px: int| 0 <= px < xx + 1 implies pixel_ok(
                    buf@,
                    *scene,
                    px,
                    yy,
                    w,
                    h,
                    fa,
                ) by {
                    if px < xx {
                        assert(0 <= (yy * w + px) * 3 && (yy * w + px) * 3 + 2 < (yy * w + xx) * 3)
                            by (nonlinear_arith)
                            requires
                                0 <= px < xx,
                                yy >= 0,
                                w >= 1,
                        ;
                        assert(pixel_ok(buf0, *scene, px, yy, w, h, fa));
                    } else {
                        assert(buf@[(yy * w + xx) * 3] == buf@[buf0.len() as int]);
                    }
                }
            }
            x = x + 1;
        }
        proof {
            assert(((y as int) + 1) * (width as int) * 3 == ((y as int) * (width as int) + width
                as int) * 3) by (nonlinear_arith);
        }
        y = y + 1;
    }
    proof {
        assert((height as int) * (width as int) * 3 == (width as int) * (height as int) * 3)
            by (nonlinear_arith);
    }
    buf
}

} // verus!
