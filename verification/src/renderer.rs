//! The renderer: camera ray generation, recursive color evaluation and the
//! multi-sample accumulation loop.

use vstd::prelude::*;
use crate::camera::Camera;
use crate::color::{channel_byte, Color};
use crate::fixed::{
    fits_i64, fx_div, fx_mul, iabs, lemma_fx_mul_bounded, lemma_mul_bound, lemma_square_lower,
    lemma_square_nonneg, lemma_tdiv_bound, lemma_tdiv_exact, lemma_tdiv_mul_le, lemma_tdiv_ordered,
    Fixed, SCALE,
};
use crate::hittable::HitRecord;
use crate::hittable_list::{best_hit, scene_wf, HittableList};
use crate::image::{image_wf, lemma_pixel_index_in_range, Image};
use crate::interval::Interval;
use crate::material::{
    reflect_x, reflect_y, reflect_z, scatter_direction_matches, Material, Reflection,
};
use crate::ray::Ray;
use crate::rng::random_real;
use crate::sphere::{ray_wf, Sphere, WORLD_LIMIT};
use crate::vec3::{comps_bounded, len_raw, sum_sq, Vec3, REFLECT_LIMIT};
use crate::{IMAGE_HEIGHT, IMAGE_WIDTH, MAX_DEPTH, SAMPLES_PER_PIXEL};

verus! {

/// Lower bound of every intersection search, in raw units: about one
/// thousandth of a unit, suppressing self-intersections at a bounce origin.
pub const SHADOW_EPSILON: i64 = 65;

/// One half, in raw units.
pub const HALF: i64 = 32768;

/// The green channel of the sky color (seven tenths), in raw units.
pub const SKY_GREEN: i64 = 45875;

/// The interval every bounce searches: from the shadow epsilon out to the
/// edge of the representable world.
pub open spec fn shadow_interval() -> Interval {
    Interval { min: Fixed { raw: SHADOW_EPSILON }, max: Fixed { raw: WORLD_LIMIT } }
}

/// Every component of the color lies in `[0, 1]`.
pub open spec fn color_in_range(c: Vec3) -> bool {
    0 <= c.x@ <= SCALE && 0 <= c.y@ <= SCALE && 0 <= c.z@ <= SCALE
}

/// The background gradient for a missing ray: with `a` half of one plus
/// the normalized direction's y component, each channel blends white
/// toward the sky color as `white * (1 - a) + sky * a`. In exact
/// arithmetic `a` always lies in `[0, 1]`; truncation on a short
/// direction can push it slightly outside, so it is saturated back, which
/// keeps every channel of the blend in `[0, 1]`.
pub open spec fn background_color(ray: Ray) -> (int, int, int) {
    let uy = fx_div(ray.direction.y@, len_raw(ray.direction));
    let raw_blend = fx_mul(uy + SCALE, HALF as int);
    let a = if raw_blend < 0 {
        0
    } else if raw_blend > SCALE {
        SCALE as int
    } else {
        raw_blend
    };
    (
        fx_mul(SCALE as int, SCALE - a) + fx_mul(HALF as int, a),
        fx_mul(SCALE as int, SCALE - a) + fx_mul(SKY_GREEN as int, a),
        fx_mul(SCALE as int, SCALE - a) + fx_mul(SCALE as int, a),
    )
}

/// Evaluate the sky gradient for a ray that hit nothing.
pub fn background(ray: Ray) -> (c: Vec3)
    requires
        ray_wf(ray),
        sum_sq(ray.direction) >= SCALE,
    ensures
        c.x@ == background_color(ray).0,
        c.y@ == background_color(ray).1,
        c.z@ == background_color(ray).2,
        color_in_range(c),
{
    let direction: Vec3 = ray.direction.unit_vector();
    proof {
        crate::fixed::lemma_fx_div_bounded(ray.direction.y@, len_raw(ray.direction),
            WORLD_LIMIT as int);
        assert(0x200_0000 * 65536 == 0x200_0000_0000) by (nonlinear_arith);
    }
    let one: Fixed = Fixed { raw: SCALE };
    let half: Fixed = Fixed { raw: HALF };
    proof {
        lemma_fx_mul_bounded(direction.y@ + SCALE, HALF as int, 0x201_0000_0000, 0x8000,
            0x200_8000_0000);
    }
    let intensity: Fixed = direction.y().add(one).mul(half);
    let blend: Fixed = if intensity.raw < 0 {
        Fixed { raw: 0 }
    } else if intensity.raw > SCALE {
        Fixed { raw: SCALE }
    } else {
        intensity
    };
    let white: Vec3 = Vec3::new(one, one, one);
    let sky: Vec3 = Vec3::new(half, Fixed { raw: SKY_GREEN }, one);
    let remainder: Fixed = one.sub(blend);
    proof {
        assert(65536 * remainder@ == remainder@ * 65536) by (nonlinear_arith);
        lemma_tdiv_exact(remainder@, SCALE as int);
        crate::fixed::lemma_fx_mul_unit(HALF as int, blend@);
        crate::fixed::lemma_fx_mul_unit(SKY_GREEN as int, blend@);
        crate::fixed::lemma_fx_mul_unit(SCALE as int, blend@);
    }
    let base: Vec3 = white.mul(remainder);
    let tint: Vec3 = sky.mul(blend);
    base.add(tint)
}

/// Every component of the color is zero.
pub open spec fn is_black(c: Vec3) -> bool {
    c.x@ == 0 && c.y@ == 0 && c.z@ == 0
}

/// `refl` is a reflection the hit's material can produce for this ray:
/// the attenuation is the material's albedo, the scattered ray starts at
/// the hit point, and its direction obeys the material's law — the exact
/// specular formula for metal, the normal plus some bounded unit sample
/// (with the near-zero fallback) for the diffuse material.
pub open spec fn scatter_admissible(ray: Ray, hit: HitRecord, refl: Reflection) -> bool {
    &&& refl.attenuation == hit.material.albedo_spec()
    &&& refl.ray.origin == hit.point
    &&& match hit.material {
        Material::Metal(m) => refl.ray.direction.x@ == reflect_x(ray.direction, hit.normal)
            && refl.ray.direction.y@ == reflect_y(ray.direction, hit.normal)
            && refl.ray.direction.z@ == reflect_z(ray.direction, hit.normal),
        Material::Lambertian(l) => exists|u: Vec3|
            #![auto]
            comps_bounded(u, 0x100_0000) && scatter_direction_matches(
                hit.normal,
                u,
                refl.ray.direction,
            ),
    }
}

/// The renderer follows a reflection only when it is usable: an
/// attenuation in `[0, 1]`, a scattered ray inside the representable
/// world, and a direction long enough to trace. Anything else is
/// degenerate geometry, resolved to black.
pub open spec fn scatter_usable(refl: Reflection) -> bool {
    &&& color_in_range(refl.attenuation)
    &&& comps_bounded(refl.ray.origin, WORLD_LIMIT as int)
    &&& comps_bounded(refl.ray.direction, WORLD_LIMIT as int)
    &&& sum_sq(refl.ray.direction) >= SCALE
}

/// What the recursive color evaluation may return for a ray: black once
/// the depth budget is spent; the sky gradient on a miss; on a hit, black
/// when the record's normal fails the scattering bound, and otherwise, for
/// some reflection the material admits, either the attenuated color of a
/// recursive outcome of the scattered ray, or black when that reflection
/// is unusable.
pub open spec fn color_outcome(ray: Ray, depth: u32, scene: Seq<Sphere>, c: Vec3) -> bool
    decreases depth,
{
    if depth == 0 {
        is_black(c)
    } else {
        match best_hit(scene, ray, shadow_interval()) {
            None => c.x@ == background_color(ray).0 && c.y@ == background_color(ray).1 && c.z@
                == background_color(ray).2,
            Some(hit) => if !comps_bounded(hit.normal, REFLECT_LIMIT as int) {
                is_black(c)
            } else {
                exists|refl: Reflection|
                    #![auto]
                    scatter_admissible(ray, hit, refl) && if scatter_usable(refl) {
                        exists|next: Vec3|
                            #![auto]
                            color_outcome(refl.ray, (depth - 1) as u32, scene, next) && c.x@
                                == fx_mul(refl.attenuation.x@, next.x@) && c.y@ == fx_mul(
                                refl.attenuation.y@,
                                next.y@,
                            ) && c.z@ == fx_mul(refl.attenuation.z@, next.z@)
                    } else {
                        is_black(c)
                    }
            },
        }
    }
}

/// The recursive color of a ray: black once the depth budget is spent; on
/// a hit, the scattered ray's color filtered by the material's attenuation
/// (or black if the light was absorbed or the geometry degenerate); on a
/// miss, the sky gradient.
pub fn get_pixel_color(ray: Ray, depth: u32, scene: &HittableList) -> (c: Vec3)
    requires
        ray_wf(ray),
        sum_sq(ray.direction) >= SCALE,
        scene_wf(scene@),
    ensures
        color_in_range(c),
        color_outcome(ray, depth, scene@, c),
        depth == 0 ==> c.x@ == 0 && c.y@ == 0 && c.z@ == 0,
        depth > 0 && best_hit(scene@, ray, shadow_interval()) is None ==> c.x@
            == background_color(ray).0 && c.y@ == background_color(ray).1 && c.z@
            == background_color(ray).2,
    decreases depth,
{
    if depth == 0 {
        return Vec3::zero();
    }
    let search: Interval = Interval::new(
        Fixed { raw: SHADOW_EPSILON },
        Fixed { raw: WORLD_LIMIT },
    );
    let maybe_hit: Option<HitRecord> = scene.hit(ray, search);
    proof {
        assert(search == shadow_interval());
    }
    match maybe_hit {
        Some(hit) => {
            if !hit.normal.within(REFLECT_LIMIT) {
                // Degenerate geometry: resolved to black, never signaled.
                return Vec3::zero();
            }
            match hit.material.scatter(ray, hit) {
                Some(scattered) => {
                    let attenuation: Vec3 = scattered.attenuation;
                    let attenuation_ok: bool = attenuation.x.raw >= 0 && attenuation.x.raw
                        <= SCALE && attenuation.y.raw >= 0 && attenuation.y.raw <= SCALE
                        && attenuation.z.raw >= 0 && attenuation.z.raw <= SCALE;
                    if attenuation_ok && scattered.ray.origin.within(WORLD_LIMIT)
                        && scattered.ray.direction.within(WORLD_LIMIT) {
                        let lensq: Fixed = scattered.ray.direction.length_squared();
                        if lensq.raw >= 1 {
                            proof {
                                crate::vec3::lemma_sum_sq_nonneg(scattered.ray.direction);
                                if sum_sq(scattered.ray.direction) < SCALE {
                                    vstd::arithmetic::div_mod::lemma_basic_div(
                                        sum_sq(scattered.ray.direction),
                                        SCALE as int,
                                    );
                                    assert(false);
                                }
                            }
                            let next: Vec3 = get_pixel_color(scattered.ray, depth - 1, scene);
                            proof {
                                crate::fixed::lemma_fx_mul_unit(attenuation.x@, next.x@);
                                crate::fixed::lemma_fx_mul_unit(attenuation.y@, next.y@);
                                crate::fixed::lemma_fx_mul_unit(attenuation.z@, next.z@);
                            }
                            let shaded: Vec3 = Vec3::new(
                                attenuation.x().mul(next.x()),
                                attenuation.y().mul(next.y()),
                                attenuation.z().mul(next.z()),
                            );
                            proof {
                                assert(scatter_admissible(ray, hit, scattered));
                                assert(scatter_usable(scattered));
                                assert(color_outcome(scattered.ray, (depth - 1) as u32,
                                    scene@, next) && shaded.x@ == fx_mul(
                                    scattered.attenuation.x@,
                                    next.x@,
                                ) && shaded.y@ == fx_mul(scattered.attenuation.y@, next.y@)
                                    && shaded.z@ == fx_mul(scattered.attenuation.z@, next.z@));
                                assert(color_outcome(ray, depth, scene@, shaded));
                            }
                            return shaded;
                        }
                        // The scattered direction is too short to trace:
                        // treated as absorbed.
                        proof {
                            if sum_sq(scattered.ray.direction) >= SCALE {
                                crate::fixed::lemma_tdiv_ordered(
                                    SCALE as int,
                                    sum_sq(scattered.ray.direction),
                                    SCALE as int,
                                );
                                assert(false);
                            }
                            assert(scatter_admissible(ray, hit, scattered));
                            assert(!scatter_usable(scattered));
                            assert(color_outcome(ray, depth, scene@, Vec3 {
                                x: Fixed { raw: 0 },
                                y: Fixed { raw: 0 },
                                z: Fixed { raw: 0 },
                            }));
                        }
                        return Vec3::zero();
                    }
                    // An out-of-range attenuation or an out-of-world
                    // scattered ray is treated as absorbed.
                    proof {
                        assert(scatter_admissible(ray, hit, scattered));
                        assert(!scatter_usable(scattered));
                        assert(color_outcome(ray, depth, scene@, Vec3 {
                            x: Fixed { raw: 0 },
                            y: Fixed { raw: 0 },
                            z: Fixed { raw: 0 },
                        }));
                    }
                    Vec3::zero()
                },
                None => {
                    // Unreachable: every current material scatters.
                    proof {
                        assert(false);
                    }
                    Vec3::zero()
                },
            }
        },
        None => background(ray),
    }
}

/// A random offset in `[-1/2, 1/2)^2 x {0}`, jittering a sample inside its
/// pixel.
pub fn sample_square() -> (r: Vec3)
    ensures
        -(HALF as int) <= r.x@ < HALF,
        -(HALF as int) <= r.y@ < HALF,
        r.z@ == 0,
{
    let half: Fixed = Fixed { raw: HALF };
    Vec3 {
        x: random_real().sub(half),
        y: random_real().sub(half),
        z: Fixed { raw: 0 },
    }
}

/// The exact direction of the camera ray for pixel `(x, y)` under the
/// jitter `(jx, jy)`: from the eye toward the viewport anchor displaced by
/// the per-pixel deltas scaled with the jittered pixel index.
pub open spec fn jittered_direction(
    du: Vec3,
    dv: Vec3,
    start: Vec3,
    eye: Vec3,
    x: int,
    y: int,
    jx: int,
    jy: int,
) -> (int, int, int) {
    (
        start.x@ + fx_mul(du.x@, x * SCALE + jx) + fx_mul(dv.x@, y * SCALE + jy) - eye.x@,
        start.y@ + fx_mul(du.y@, x * SCALE + jx) + fx_mul(dv.y@, y * SCALE + jy) - eye.y@,
        start.z@ + fx_mul(du.z@, x * SCALE + jx) + fx_mul(dv.z@, y * SCALE + jy) - eye.z@,
    )
}

/// `r` is a jittered camera ray for pixel `(x, y)`: it starts at the eye
/// and its direction is the jittered-direction formula for some in-square
/// jitter.
pub open spec fn pixel_ray(r: Ray, eye: Vec3, du: Vec3, dv: Vec3, start: Vec3, x: int, y: int)
    -> bool {
    exists|jx: int, jy: int|
        #![trigger jittered_direction(du, dv, start, eye, x, y, jx, jy)]
        -(HALF as int) <= jx < HALF && -(HALF as int) <= jy < HALF && r.origin == eye
            && r.direction.x@ == jittered_direction(du, dv, start, eye, x, y, jx, jy).0
            && r.direction.y@ == jittered_direction(du, dv, start, eye, x, y, jx, jy).1
            && r.direction.z@ == jittered_direction(du, dv, start, eye, x, y, jx, jy).2
}

/// Build the jittered camera ray for pixel `(x, y)`: from the eye toward
/// the viewport position of the pixel, offset by a random sub-pixel
/// amount.
pub fn get_ray(
    x: u16,
    y: u16,
    viewport_delta_u: Vec3,
    viewport_delta_v: Vec3,
    start_pos: Vec3,
    eye: Vec3,
) -> (r: Ray)
    requires
        comps_bounded(viewport_delta_u, SCALE as int),
        comps_bounded(viewport_delta_v, SCALE as int),
        viewport_delta_u.z@ == 0,
        viewport_delta_v.z@ == 0,
        (x as int + 1) * iabs(viewport_delta_u.x@) <= 8 * SCALE,
        (x as int + 1) * iabs(viewport_delta_u.y@) <= 8 * SCALE,
        (y as int + 1) * iabs(viewport_delta_v.x@) <= 8 * SCALE,
        (y as int + 1) * iabs(viewport_delta_v.y@) <= 8 * SCALE,
        comps_bounded(start_pos, 0x40_0000),
        comps_bounded(eye, 0x40_0000),
        SCALE <= eye.z@ - start_pos.z@ <= 2 * SCALE,
    ensures
        r.origin == eye,
        ray_wf(r),
        sum_sq(r.direction) >= SCALE,
        r.direction.z@ == start_pos.z@ - eye.z@,
        pixel_ray(r, eye, viewport_delta_u, viewport_delta_v, start_pos, x as int, y as int),
{
    let offset: Vec3 = sample_square();
    let sample_x: Fixed = Fixed::from_int(x as i64).add(offset.x());
    let sample_y: Fixed = Fixed::from_int(y as i64).add(offset.y());
    proof {
        lemma_delta_scaled(viewport_delta_u.x@, sample_x@, x as int + 1);
        lemma_delta_scaled(viewport_delta_u.y@, sample_x@, x as int + 1);
        lemma_delta_scaled(viewport_delta_v.x@, sample_y@, y as int + 1);
        lemma_delta_scaled(viewport_delta_v.y@, sample_y@, y as int + 1);
        assert(viewport_delta_u.z@ * sample_x@ == 0) by (nonlinear_arith)
            requires
                viewport_delta_u.z@ == 0,
        ;
        assert(viewport_delta_v.z@ * sample_y@ == 0) by (nonlinear_arith)
            requires
                viewport_delta_v.z@ == 0,
        ;
    }
    let current_delta_u: Vec3 = viewport_delta_u.mul(sample_x);
    let current_delta_v: Vec3 = viewport_delta_v.mul(sample_y);
    let pixel_center: Vec3 = start_pos.add(current_delta_u).add(current_delta_v);
    let direction: Vec3 = pixel_center.sub(eye);
    proof {
        lemma_square_lower(direction.z@, SCALE as int);
        lemma_square_nonneg(direction.x@);
        lemma_square_nonneg(direction.y@);
        assert(65536 * 65536 >= 65536) by (nonlinear_arith);
    }
    let result: Ray = Ray::new(eye, direction);
    proof {
        assert(-(HALF as int) <= offset.x@ < HALF && -(HALF as int) <= offset.y@ < HALF
            && result.origin == eye && result.direction.x@ == jittered_direction(
            viewport_delta_u,
            viewport_delta_v,
            start_pos,
            eye,
            x as int,
            y as int,
            offset.x@,
            offset.y@,
        ).0 && result.direction.y@ == jittered_direction(
            viewport_delta_u,
            viewport_delta_v,
            start_pos,
            eye,
            x as int,
            y as int,
            offset.x@,
            offset.y@,
        ).1 && result.direction.z@ == jittered_direction(
            viewport_delta_u,
            viewport_delta_v,
            start_pos,
            eye,
            x as int,
            y as int,
            offset.x@,
            offset.y@,
        ).2);
        assert(pixel_ray(result, eye, viewport_delta_u, viewport_delta_v, start_pos, x as int,
            y as int));
    }
    result
}

/// A per-pixel viewport delta scaled by a jittered pixel index stays
/// within eight units.
proof fn lemma_delta_scaled(d: int, f: int, k: int)
    requires
        k >= 1,
        iabs(f) <= k * (SCALE as int),
        k * iabs(d) <= 8 * SCALE,
    ensures
        iabs(fx_mul(d, f)) <= 8 * SCALE,
        fits_i64(fx_mul(d, f)),
{
    lemma_mul_bound(d, f, iabs(d), k * (SCALE as int));
    assert(iabs(d) * (k * 65536) <= (8 * 65536) * 65536) by (nonlinear_arith)
        requires
            iabs(d) >= 0,
            k >= 1,
            k * iabs(d) <= 8 * 65536,
    ;
    lemma_tdiv_bound(d * f, SCALE as int, 8 * SCALE);
}


/// The raw value of the per-sample averaging factor `1 / samples`.
pub open spec fn avg_scale(samples: int) -> int {
    fx_div(SCALE as int, samples * SCALE)
}

/// The per-pixel horizontal viewport delta a raster of the given width
/// uses: the viewport width divided by the pixel count.
pub open spec fn render_delta_u(camera: Camera, width: int) -> Vec3 {
    Vec3 {
        x: Fixed { raw: fx_div(camera.viewport_width@, width * SCALE) as i64 },
        y: Fixed { raw: 0 },
        z: Fixed { raw: 0 },
    }
}

/// The per-pixel vertical viewport delta: the viewport height, negated so
/// that row zero is the top, divided by the pixel count.
pub open spec fn render_delta_v(camera: Camera, height: int) -> Vec3 {
    Vec3 {
        x: Fixed { raw: 0 },
        y: Fixed { raw: fx_div(-camera.viewport_height@, height * SCALE) as i64 },
        z: Fixed { raw: 0 },
    }
}

/// The anchor of the pixel grid: the eye moved back by the focal length,
/// to the viewport's upper-left corner, then half a pixel inward.
pub open spec fn render_start(camera: Camera, width: int, height: int) -> Vec3 {
    let du = render_delta_u(camera, width);
    let dv = render_delta_v(camera, height);
    Vec3 {
        x: Fixed {
            raw: (camera.position.x@ - fx_div(camera.viewport_width@, 2 * SCALE) + fx_div(
                du.x@ + dv.x@,
                2 * SCALE,
            )) as i64,
        },
        y: Fixed {
            raw: (camera.position.y@ - fx_div(-camera.viewport_height@, 2 * SCALE) + fx_div(
                du.y@ + dv.y@,
                2 * SCALE,
            )) as i64,
        },
        z: Fixed { raw: (camera.position.z@ - camera.focal_length@) as i64 },
    }
}

/// `c` is a color one sample of pixel `(x, y)` can contribute: the
/// recursive-color outcome of some admissible jittered camera ray for
/// that pixel.
pub open spec fn contribution_ok(
    camera: Camera,
    scene: Seq<Sphere>,
    width: int,
    height: int,
    depth: u32,
    x: int,
    y: int,
    c: Vec3,
) -> bool {
    exists|r: Ray|
        #![auto]
        pixel_ray(
            r,
            camera.position,
            render_delta_u(camera, width),
            render_delta_v(camera, height),
            render_start(camera, width, height),
            x,
            y,
        ) && color_outcome(r, depth, scene, c)
}

/// The componentwise sum of a sequence of contribution colors.
pub open spec fn color_sum(cs: Seq<Vec3>) -> (int, int, int)
    decreases cs.len(),
{
    if cs.len() == 0 {
        (0, 0, 0)
    } else {
        let rest = color_sum(cs.drop_last());
        (rest.0 + cs.last().x@, rest.1 + cs.last().y@, rest.2 + cs.last().z@)
    }
}

/// The three bytes hold the resolved color of pixel `(x, y)`: the
/// channel bytes of the average — the scaled sum — of `samples`
/// admissible contributions.
pub open spec fn pixel_bytes_ok(
    b0: u8,
    b1: u8,
    b2: u8,
    camera: Camera,
    scene: Seq<Sphere>,
    width: int,
    height: int,
    samples: int,
    depth: u32,
    x: int,
    y: int,
) -> bool {
    exists|cs: Seq<Vec3>|
        #![auto]
        cs.len() == samples && (forall|i: int|
            0 <= i < cs.len() ==> contribution_ok(
                camera,
                scene,
                width,
                height,
                depth,
                x,
                y,
                #[trigger] cs[i],
            )) && b0 == channel_byte(fx_mul(color_sum(cs).0, avg_scale(samples))) && b1
            == channel_byte(fx_mul(color_sum(cs).1, avg_scale(samples))) && b2 == channel_byte(
            fx_mul(color_sum(cs).2, avg_scale(samples)),
        )
}

/// Byte `k` of pixel `(x, y)` in a raster buffer of the given width.
pub open spec fn pixel_byte(bytes: Seq<u8>, width: int, x: int, y: int, k: int) -> u8 {
    bytes[(y * width + x) * 3 + k]
}

/// Pixel `(x, y)` of the raster buffer has been resolved and written: its
/// three bytes hold the average of an admissible sample set.
pub open spec fn pixel_done(
    bytes: Seq<u8>,
    camera: Camera,
    scene: Seq<Sphere>,
    width: int,
    height: int,
    samples: int,
    depth: u32,
    x: int,
    y: int,
) -> bool {
    pixel_bytes_ok(
        pixel_byte(bytes, width, x, y, 0),
        pixel_byte(bytes, width, x, y, 1),
        pixel_byte(bytes, width, x, y, 2),
        camera,
        scene,
        width,
        height,
        samples,
        depth,
        x,
        y,
    )
}

/// Render a raster of the given dimensions: for every pixel, average the
/// recursive colors of `samples` jittered camera rays, and write the
/// resolved color into a fresh raster, which is returned. Every pixel of
/// the result holds the channel bytes of that average, over contributions
/// that are admissible recursive-color outcomes of admissible camera rays
/// for the pixel.
pub fn render_raster(
    camera: Camera,
    scene: &HittableList,
    width: usize,
    height: usize,
    samples: usize,
    depth: u32,
) -> (img: Image)
    requires
        scene_wf(scene@),
        comps_bounded(camera.position, 0x20_0000),
        SCALE <= camera.focal_length@ <= 2 * SCALE,
        0 < camera.viewport_width@ <= 4 * SCALE,
        0 < camera.viewport_height@ <= 4 * SCALE,
        4 <= width <= 65535,
        4 <= height <= 65535,
        1 <= samples <= 1024,
        width * height * 3 <= usize::MAX,
    ensures
        img.width == width,
        img.height == height,
        image_wf(img),
        forall|px: int, py: int|
            0 <= px < width && 0 <= py < height ==> #[trigger] pixel_done(
                img.bytes@,
                camera,
                scene@,
                width as int,
                height as int,
                samples as int,
                depth,
                px,
                py,
            ),
{
    let zero: Fixed = Fixed { raw: 0 };
    let viewport_u: Vec3 = Vec3::new(camera.viewport_width, zero, zero);
    let viewport_v: Vec3 = Vec3::new(zero, camera.viewport_height.neg(), zero);
    let width_fixed: Fixed = Fixed::from_int(width as i64);
    let height_fixed: Fixed = Fixed::from_int(height as i64);
    proof {
        lemma_viewport_delta_general(viewport_u.x@, width as int);
        lemma_viewport_delta_general(viewport_u.y@, width as int);
        lemma_viewport_delta_general(viewport_u.z@, width as int);
        lemma_viewport_delta_general(viewport_v.x@, height as int);
        lemma_viewport_delta_general(viewport_v.y@, height as int);
        lemma_viewport_delta_general(viewport_v.z@, height as int);
    }
    let viewport_delta_u: Vec3 = viewport_u.div(width_fixed);
    let viewport_delta_v: Vec3 = viewport_v.div(height_fixed);
    let two: Fixed = Fixed::from_int(2);
    proof {
        lemma_viewport_delta_general(viewport_u.x@ + viewport_v.x@, 2);
        lemma_viewport_delta_general(viewport_u.y@ + viewport_v.y@, 2);
        lemma_viewport_delta_general(viewport_u.z@ + viewport_v.z@, 2);
        lemma_viewport_delta_general(viewport_delta_u.x@ + viewport_delta_v.x@, 2);
        lemma_viewport_delta_general(viewport_delta_u.y@ + viewport_delta_v.y@, 2);
        lemma_viewport_delta_general(viewport_delta_u.z@ + viewport_delta_v.z@, 2);
        lemma_delta_comp_small(viewport_delta_u.x@, viewport_u.x@, width as int);
        lemma_delta_comp_small(viewport_delta_u.y@, viewport_u.y@, width as int);
        lemma_delta_comp_small(viewport_delta_u.z@, viewport_u.z@, width as int);
        lemma_delta_comp_small(viewport_delta_v.x@, viewport_v.x@, height as int);
        lemma_delta_comp_small(viewport_delta_v.y@, viewport_v.y@, height as int);
        lemma_delta_comp_small(viewport_delta_v.z@, viewport_v.z@, height as int);
        vstd::arithmetic::div_mod::lemma_div_of0((width as int) * (SCALE as int));
        vstd::arithmetic::div_mod::lemma_div_of0((height as int) * (SCALE as int));
        assert(viewport_delta_u == render_delta_u(camera, width as int));
        assert(viewport_delta_v == render_delta_v(camera, height as int));
    }
    let half_view: Vec3 = viewport_u.add(viewport_v).div(two);
    let half_delta: Vec3 = viewport_delta_u.add(viewport_delta_v).div(two);
    let viewport_upper_left: Vec3 = camera.position.sub(
        Vec3::new(zero, zero, camera.focal_length),
    ).sub(half_view);
    let start_pos: Vec3 = viewport_upper_left.add(half_delta);
    let samples_fixed: Fixed = Fixed::from_int(samples as i64);
    proof {
        assert(start_pos == render_start(camera, width as int, height as int));
        assert(65536 * 65536 <= 65536 * ((samples as int) * 65536)) by (nonlinear_arith)
            requires
                samples >= 1,
        ;
        assert((samples as int) * 65536 >= 65536) by (nonlinear_arith)
            requires
                samples >= 1,
        ;
        lemma_tdiv_bound((SCALE as int) * (SCALE as int), (samples as int) * (SCALE as int),
            SCALE as int);
        lemma_tdiv_ordered(0, (SCALE as int) * (SCALE as int), (samples as int) * (
        SCALE as int));
    }
    let pixel_samples_scale: Fixed = Fixed::from_int(1).div(samples_fixed);
    let mut image: Image = Image::blank(width, height);
    let mut y: usize = 0;
    while y < height
        invariant
            y <= height,
            scene_wf(scene@),
            4 <= width <= 65535,
            4 <= height <= 65535,
            1 <= samples <= 1024,
            image.width == width,
            image.height == height,
            image_wf(image),
            comps_bounded(viewport_delta_u, SCALE as int),
            comps_bounded(viewport_delta_v, SCALE as int),
            iabs(viewport_delta_u.x@) * width <= 4 * SCALE,
            iabs(viewport_delta_u.y@) * width <= 4 * SCALE,
            iabs(viewport_delta_v.x@) * height <= 4 * SCALE,
            iabs(viewport_delta_v.y@) * height <= 4 * SCALE,
            viewport_delta_u.z@ == 0,
            viewport_delta_v.z@ == 0,
            comps_bounded(start_pos, 0x40_0000),
            comps_bounded(camera.position, 0x40_0000),
            SCALE <= camera.position.z@ - start_pos.z@ <= 2 * SCALE,
            0 <= pixel_samples_scale@ <= SCALE,
            viewport_delta_u == render_delta_u(camera, width as int),
            viewport_delta_v == render_delta_v(camera, height as int),
            start_pos == render_start(camera, width as int, height as int),
            pixel_samples_scale@ == avg_scale(samples as int),
            forall|px: int, py: int|
                0 <= px < width && 0 <= py < y ==> #[trigger] pixel_done(
                    image.bytes@,
                    camera,
                    scene@,
                    width as int,
                    height as int,
                    samples as int,
                    depth,
                    px,
                    py,
                ),
        decreases height - y,
    {
        let mut x: usize = 0;
        while x < width
            invariant
                x <= width,
                y < height,
                scene_wf(scene@),
                4 <= width <= 65535,
                4 <= height <= 65535,
                1 <= samples <= 1024,
                image.width == width,
                image.height == height,
                image_wf(image),
                comps_bounded(viewport_delta_u, SCALE as int),
                comps_bounded(viewport_delta_v, SCALE as int),
                iabs(viewport_delta_u.x@) * width <= 4 * SCALE,
                iabs(viewport_delta_u.y@) * width <= 4 * SCALE,
                iabs(viewport_delta_v.x@) * height <= 4 * SCALE,
                iabs(viewport_delta_v.y@) * height <= 4 * SCALE,
                viewport_delta_u.z@ == 0,
                viewport_delta_v.z@ == 0,
                comps_bounded(start_pos, 0x40_0000),
                comps_bounded(camera.position, 0x40_0000),
                SCALE <= camera.position.z@ - start_pos.z@ <= 2 * SCALE,
                0 <= pixel_samples_scale@ <= SCALE,
                viewport_delta_u == render_delta_u(camera, width as int),
                viewport_delta_v == render_delta_v(camera, height as int),
                start_pos == render_start(camera, width as int, height as int),
                pixel_samples_scale@ == avg_scale(samples as int),
                forall|px: int, py: int|
                    0 <= px < width && 0 <= py < y ==> #[trigger] pixel_done(
                        image.bytes@,
                        camera,
                        scene@,
                        width as int,
                        height as int,
                        samples as int,
                        depth,
                        px,
                        py,
                    ),
                forall|px: int|
                    0 <= px < x ==> #[trigger] pixel_done(
                        image.bytes@,
                        camera,
                        scene@,
                        width as int,
                        height as int,
                        samples as int,
                        depth,
                        px,
                        y as int,
                    ),
            decreases width - x,
        {
            let mut color: Vec3 = Vec3::zero();
            let mut sample: usize = 0;
            let ghost mut contribs: Seq<Vec3> = Seq::empty();
            while sample < samples
                invariant
                    sample <= samples,
                    x < width,
                    y < height,
                    scene_wf(scene@),
                    4 <= width <= 65535,
                    4 <= height <= 65535,
                    1 <= samples <= 1024,
                    comps_bounded(viewport_delta_u, SCALE as int),
                    comps_bounded(viewport_delta_v, SCALE as int),
                    iabs(viewport_delta_u.x@) * width <= 4 * SCALE,
                    iabs(viewport_delta_u.y@) * width <= 4 * SCALE,
                    iabs(viewport_delta_v.x@) * height <= 4 * SCALE,
                    iabs(viewport_delta_v.y@) * height <= 4 * SCALE,
                    viewport_delta_u.z@ == 0,
                    viewport_delta_v.z@ == 0,
                    comps_bounded(start_pos, 0x40_0000),
                    comps_bounded(camera.position, 0x40_0000),
                    SCALE <= camera.position.z@ - start_pos.z@ <= 2 * SCALE,
                    viewport_delta_u == render_delta_u(camera, width as int),
                    viewport_delta_v == render_delta_v(camera, height as int),
                    start_pos == render_start(camera, width as int, height as int),
                    0 <= color.x@ <= sample as int * SCALE,
                    0 <= color.y@ <= sample as int * SCALE,
                    0 <= color.z@ <= sample as int * SCALE,
                    contribs.len() == sample as int,
                    color.x@ == color_sum(contribs).0,
                    color.y@ == color_sum(contribs).1,
                    color.z@ == color_sum(contribs).2,
                    forall|i: int|
                        0 <= i < contribs.len() ==> contribution_ok(
                            camera,
                            scene@,
                            width as int,
                            height as int,
                            depth,
                            x as int,
                            y as int,
                            #[trigger] contribs[i],
                        ),
                decreases samples - sample,
            {
                proof {
                    lemma_pixel_delta_product(x as int, width as int, iabs(
                        viewport_delta_u.x@));
                    lemma_pixel_delta_product(x as int, width as int, iabs(
                        viewport_delta_u.y@));
                    lemma_pixel_delta_product(y as int, height as int, iabs(
                        viewport_delta_v.x@));
                    lemma_pixel_delta_product(y as int, height as int, iabs(
                        viewport_delta_v.y@));
                }
                let ray: Ray = get_ray(
                    x as u16,
                    y as u16,
                    viewport_delta_u,
                    viewport_delta_v,
                    start_pos,
                    camera.position,
                );
                let contribution: Vec3 = get_pixel_color(ray, depth, scene);
                color = color.add(contribution);
                proof {
                    let ghost previous = contribs;
                    contribs = contribs.push(contribution);
                    assert(contribs.drop_last() =~= previous);
                    assert(contribs.last() == contribution);
                    assert(contribution_ok(camera, scene@, width as int, height as int, depth,
                        x as int, y as int, contribution)) by {
                        assert(pixel_ray(
                            ray,
                            camera.position,
                            render_delta_u(camera, width as int),
                            render_delta_v(camera, height as int),
                            render_start(camera, width as int, height as int),
                            x as int,
                            y as int,
                        ));
                        assert(color_outcome(ray, depth, scene@, contribution));
                    };
                    assert(forall|i: int| 0 <= i < previous.len() ==> contribs[i] == #[trigger]
                        previous[i]);
                }
                sample = sample + 1;
            }
            proof {
                lemma_fx_mul_bounded(color.x@, pixel_samples_scale@, 0x400_0000, SCALE as int,
                    0x400_0000);
                lemma_fx_mul_bounded(color.y@, pixel_samples_scale@, 0x400_0000, SCALE as int,
                    0x400_0000);
                lemma_fx_mul_bounded(color.z@, pixel_samples_scale@, 0x400_0000, SCALE as int,
                    0x400_0000);
            }
            let resolved: Vec3 = color.mul(pixel_samples_scale);
            let pixel: Color = Color::rgb_normalized(resolved.x(), resolved.y(), resolved.z());
            let ghost prior_bytes = image.bytes@;
            image.set_pixel(x, y, pixel);
            proof {
                lemma_pixel_index_in_range(width as int, height as int, x as int, y as int);
                assert(pixel_byte(image.bytes@, width as int, x as int, y as int, 0) == pixel.r
                    && pixel_byte(image.bytes@, width as int, x as int, y as int, 1) == pixel.g
                    && pixel_byte(image.bytes@, width as int, x as int, y as int, 2)
                    == pixel.b);
                assert(pixel_bytes_ok(pixel.r, pixel.g, pixel.b, camera, scene@, width as int,
                    height as int, samples as int, depth, x as int, y as int)) by {
                    assert(contribs.len() == samples as int && pixel.r == channel_byte(fx_mul(
                        color_sum(contribs).0,
                        avg_scale(samples as int),
                    )) && pixel.g == channel_byte(fx_mul(
                        color_sum(contribs).1,
                        avg_scale(samples as int),
                    )) && pixel.b == channel_byte(fx_mul(
                        color_sum(contribs).2,
                        avg_scale(samples as int),
                    )));
                };
                assert(pixel_done(image.bytes@, camera, scene@, width as int, height as int,
                    samples as int, depth, x as int, y as int));
                assert forall|px: int, py: int|
                    (0 <= px < width && 0 <= py < y) || (0 <= px < x && py
                        == y as int) implies #[trigger] pixel_done(
                    image.bytes@,
                    camera,
                    scene@,
                    width as int,
                    height as int,
                    samples as int,
                    depth,
                    px,
                    py,
                ) by {
                    assert(pixel_done(prior_bytes, camera, scene@, width as int, height as int,
                        samples as int, depth, px, py));
                    lemma_pixel_index_in_range(width as int, height as int, px, py);
                    lemma_pixel_cells_distinct(width as int, px, py, x as int, y as int);
                    assert(pixel_byte(image.bytes@, width as int, px, py, 0) == pixel_byte(
                        prior_bytes,
                        width as int,
                        px,
                        py,
                        0,
                    ) && pixel_byte(image.bytes@, width as int, px, py, 1) == pixel_byte(
                        prior_bytes,
                        width as int,
                        px,
                        py,
                        1,
                    ) && pixel_byte(image.bytes@, width as int, px, py, 2) == pixel_byte(
                        prior_bytes,
                        width as int,
                        px,
                        py,
                        2,
                    ));
                }
            }
            x = x + 1;
        }
        proof {
            assert forall|px: int, py: int|
                0 <= px < width && 0 <= py < y + 1 implies #[trigger] pixel_done(
                image.bytes@,
                camera,
                scene@,
                width as int,
                height as int,
                samples as int,
                depth,
                px,
                py,
            ) by {
                if py < y {
                    assert(pixel_done(image.bytes@, camera, scene@, width as int,
                        height as int, samples as int, depth, px, py));
                } else {
                    assert(pixel_done(image.bytes@, camera, scene@, width as int,
                        height as int, samples as int, depth, px, y as int));
                }
            }
        }
        y = y + 1;
    }
    image
}

/// Render the scene at the configured raster size: the width and height of
/// the crate's constants, with the configured sample count and bounce
/// budget. Every pixel of the result holds the resolved average of its
/// samples' admissible recursive-color outcomes.
pub fn render_scene(camera: Camera, scene: &HittableList) -> (img: Image)
    requires
        scene_wf(scene@),
        comps_bounded(camera.position, 0x20_0000),
        SCALE <= camera.focal_length@ <= 2 * SCALE,
        0 < camera.viewport_width@ <= 4 * SCALE,
        0 < camera.viewport_height@ <= 4 * SCALE,
    ensures
        img.width == IMAGE_WIDTH,
        img.height == IMAGE_HEIGHT,
        image_wf(img),
        forall|px: int, py: int|
            0 <= px < IMAGE_WIDTH && 0 <= py < IMAGE_HEIGHT ==> #[trigger] pixel_done(
                img.bytes@,
                camera,
                scene@,
                IMAGE_WIDTH as int,
                IMAGE_HEIGHT as int,
                SAMPLES_PER_PIXEL as int,
                MAX_DEPTH,
                px,
                py,
            ),
{
    render_raster(camera, scene, IMAGE_WIDTH, IMAGE_HEIGHT, SAMPLES_PER_PIXEL, MAX_DEPTH)
}

/// Two distinct pixels of the raster occupy disjoint byte triples.
proof fn lemma_pixel_cells_distinct(width: int, x1: int, y1: int, x2: int, y2: int)
    requires
        0 <= x1 < width,
        0 <= x2 < width,
        0 <= y1,
        0 <= y2,
        x1 != x2 || y1 != y2,
    ensures
        (y1 * width + x1) * 3 + 2 < (y2 * width + x2) * 3 || (y2 * width + x2) * 3 + 2 < (y1
            * width + x1) * 3,
{
    if y1 == y2 {
        assert(y1 * width + x1 != y2 * width + x2);
    } else if y1 < y2 {
        assert(y1 * width + x1 < y2 * width + x2) by (nonlinear_arith)
            requires
                0 <= x1 < width,
                0 <= x2,
                y1 + 1 <= y2,
                y1 >= 0,
        ;
    } else {
        assert(y2 * width + x2 < y1 * width + x1) by (nonlinear_arith)
            requires
                0 <= x2 < width,
                0 <= x1,
                y2 + 1 <= y1,
                y2 >= 0,
        ;
    }
}

/// A viewport extent of at most eight units, divided by a raster dimension
/// expressed in fixed-point, scales down with the dimension.
proof fn lemma_viewport_delta_general(extent: int, dim: int)
    requires
        iabs(extent) <= 8 * SCALE,
        1 <= dim <= 65536,
    ensures
        fits_i64(fx_div(extent, dim * (SCALE as int))),
        iabs(fx_div(extent, dim * (SCALE as int))) * dim <= iabs(extent),
        iabs(fx_div(extent, dim * (SCALE as int))) <= iabs(extent),
{
    let a = iabs(extent);
    let b = dim * (SCALE as int);
    assert(b >= 65536) by (nonlinear_arith)
        requires
            dim >= 1,
            b == dim * 65536,
    ;
    if extent >= 0 {
        assert(extent * 65536 >= 0 && extent * 65536 == a * 65536) by (nonlinear_arith)
            requires
                extent >= 0,
                a == extent,
        ;
    } else {
        assert(extent * 65536 < 0 && -(extent * 65536) == a * 65536) by (nonlinear_arith)
            requires
                extent < 0,
                a == -extent,
        ;
    }
    vstd::arithmetic::mul::lemma_mul_is_commutative(dim, SCALE as int);
    vstd::arithmetic::div_mod::lemma_div_denominator(a * SCALE, SCALE as int, dim);
    vstd::arithmetic::mul::lemma_mul_is_commutative(a, SCALE as int);
    vstd::arithmetic::div_mod::lemma_div_multiples_vanish(a, SCALE as int);
    lemma_tdiv_mul_le(a, dim);
    vstd::arithmetic::div_mod::lemma_div_nonincreasing(a, dim);
    vstd::arithmetic::div_mod::lemma_div_pos_is_pos(a, dim);
}

/// Within the raster, a pixel index against its own dimension keeps the
/// jittered viewport product below eight units.
proof fn lemma_pixel_delta_product(i: int, dim: int, d: int)
    requires
        0 <= i < dim,
        d >= 0,
        d * dim <= 4 * SCALE,
    ensures
        (i + 1) * d <= 8 * SCALE,
{
    assert((i + 1) * d <= 8 * 65536) by (nonlinear_arith)
        requires
            0 <= i < dim,
            d >= 0,
            d * dim <= 4 * 65536,
    ;
}

/// Each per-pixel delta component is at most one unit once the dimension
/// is at least four.
proof fn lemma_delta_comp_small(q: int, extent: int, dim: int)
    requires
        iabs(q) * dim <= iabs(extent),
        iabs(extent) <= 4 * SCALE,
        dim >= 4,
    ensures
        iabs(q) <= SCALE,
{
    assert(iabs(q) <= 65536) by (nonlinear_arith)
        requires
            iabs(q) >= 0,
            iabs(q) * dim <= 4 * 65536,
            dim >= 4,
    ;
}

} // verus!
