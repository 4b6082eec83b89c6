use raytracing::fixed::{Fixed, SCALE};
use raytracing::hittable::HitRecord;
use raytracing::hittable_list::HittableList;
use raytracing::interval::Interval;
use raytracing::material::{Lambertian, Material, Metal};
use raytracing::ray::Ray;
use raytracing::camera::Camera;
use raytracing::renderer::{background, get_pixel_color, render_raster};
use raytracing::sphere::{Sphere, WORLD_LIMIT};
use raytracing::vec3::Vec3;

fn fx(raw: i64) -> Fixed {
    Fixed::from_raw(raw)
}

fn v3(x: i64, y: i64, z: i64) -> Vec3 {
    Vec3::new(fx(x), fx(y), fx(z))
}

fn gray() -> Material {
    Material::Lambertian(Lambertian { albedo: v3(32768, 32768, 32768) })
}

fn world_interval() -> Interval {
    Interval::new(Fixed::zero(), fx(WORLD_LIMIT))
}

#[test]
fn sphere_constructor_clamps_radius() {
    let s = Sphere::new(v3(0, 0, 0), Fixed::from_int(-3), gray());
    assert_eq!(s.radius.raw, 0);
    let t = Sphere::new(v3(0, 0, 0), Fixed::from_int(3), gray());
    assert_eq!(t.radius.raw, 3 * SCALE);
}

#[test]
fn head_on_sphere_hit() {
    // Sphere at (0,0,-1) with radius one half, ray straight at it.
    let s = Sphere::new(v3(0, 0, -SCALE), Fixed::from_ratio(1, 2), gray());
    let ray = Ray::new(v3(0, 0, 0), v3(0, 0, -SCALE));
    let hit = s.hit(ray, world_interval()).expect("the ray points at the sphere");
    assert_eq!(hit.t.raw, 32768); // t == 0.5 exactly
    assert_eq!((hit.point.x.raw, hit.point.y.raw, hit.point.z.raw), (0, 0, -32768));
    assert_eq!((hit.normal.x.raw, hit.normal.y.raw, hit.normal.z.raw), (0, 0, SCALE));
    assert!(hit.front_face);
}

#[test]
fn sphere_behind_ray_misses() {
    let s = Sphere::new(v3(0, 0, -SCALE), Fixed::from_ratio(1, 2), gray());
    let ray = Ray::new(v3(0, 0, 0), v3(0, 0, SCALE));
    assert!(s.hit(ray, world_interval()).is_none());
}

#[test]
fn zero_radius_sphere_never_hits() {
    let s = Sphere::new(v3(0, 0, -SCALE), Fixed::zero(), gray());
    let ray = Ray::new(v3(0, 0, 0), v3(0, 0, -SCALE));
    assert!(s.hit(ray, world_interval()).is_none());
}

#[test]
fn hit_from_inside_flips_normal() {
    // Ray starting at the center leaves through the far surface.
    let s = Sphere::new(v3(0, 0, -SCALE), Fixed::from_ratio(1, 2), gray());
    let ray = Ray::new(v3(0, 0, -SCALE), v3(0, 0, -SCALE));
    let hit = s.hit(ray, world_interval()).expect("the ray starts inside");
    assert!(!hit.front_face);
    // Outward normal points along -z; oriented against the ray it is +z.
    assert_eq!(hit.normal.z.raw, SCALE);
}

#[test]
fn interval_excludes_near_root_falls_back_to_far_root() {
    let s = Sphere::new(v3(0, 0, -SCALE), Fixed::from_ratio(1, 2), gray());
    let ray = Ray::new(v3(0, 0, 0), v3(0, 0, -SCALE));
    // Roots are at 0.5 and 1.5; exclude everything up to 1.
    let hit = s.hit(ray, Interval::new(Fixed::one(), fx(WORLD_LIMIT))).expect(
        "the far root remains",
    );
    assert_eq!(hit.t.raw, 98304); // t == 1.5 exactly
}

#[test]
fn empty_scene_reports_no_hit() {
    let world = HittableList::new();
    let ray = Ray::new(v3(0, 0, 0), v3(0, 0, -SCALE));
    assert!(world.hit(ray, world_interval()).is_none());
}

#[test]
fn nearest_hit_wins_regardless_of_insertion_order() {
    let near = Sphere::new(v3(0, 0, -SCALE), Fixed::from_ratio(1, 4), gray());
    let far = Sphere::new(v3(0, 0, -2 * SCALE), Fixed::from_ratio(1, 4), gray());
    let ray = Ray::new(v3(0, 0, 0), v3(0, 0, -SCALE));

    let mut world_a = HittableList::new();
    world_a.add(near);
    world_a.add(far);
    let mut world_b = HittableList::new();
    world_b.add(far);
    world_b.add(near);

    let hit_a = world_a.hit(ray, world_interval()).expect("both spheres are ahead");
    let hit_b = world_b.hit(ray, world_interval()).expect("both spheres are ahead");
    assert_eq!(hit_a.t.raw, 49152); // t == 0.75: the nearer sphere
    assert_eq!(hit_a.t.raw, hit_b.t.raw);
    assert_eq!(hit_a.point.z.raw, hit_b.point.z.raw);
}

#[test]
fn scene_narrowing_keeps_closest_after_many_members() {
    let ray = Ray::new(v3(0, 0, 0), v3(0, 0, -SCALE));
    let mut world = HittableList::new();
    for depth in 1..6i64 {
        world.add(Sphere::new(
            v3(0, 0, -depth * SCALE),
            Fixed::from_ratio(1, 4),
            gray(),
        ));
    }
    let hit = world.hit(ray, world_interval()).expect("every sphere is ahead");
    assert_eq!(hit.t.raw, 49152);
    let mut cleared = world;
    cleared.clear();
    assert!(cleared.hit(ray, world_interval()).is_none());
}

#[test]
fn from_hittable_holds_one_object() {
    let s = Sphere::new(v3(0, 0, -SCALE), Fixed::from_ratio(1, 2), gray());
    let world = HittableList::from_hittable(s);
    let ray = Ray::new(v3(0, 0, 0), v3(0, 0, -SCALE));
    assert_eq!(world.hit(ray, world_interval()).unwrap().t.raw, 32768);
}

fn first_hit_parameter<H: raytracing::hittable::Hittable>(object: &H, ray: Ray) -> Option<i64> {
    object.hit(ray, world_interval()).map(|h| h.t.raw)
}

#[test]
fn hittable_interface_unifies_shape_and_scene() {
    let s = Sphere::new(v3(0, 0, -SCALE), Fixed::from_ratio(1, 2), gray());
    let world = HittableList::from_hittable(s);
    let ray = Ray::new(v3(0, 0, 0), v3(0, 0, -SCALE));
    assert_eq!(first_hit_parameter(&s, ray), Some(32768));
    assert_eq!(first_hit_parameter(&world, ray), Some(32768));
    let away = Ray::new(v3(0, 0, 0), v3(0, SCALE, 0));
    assert_eq!(first_hit_parameter(&world, away), None);
}

fn sample_hit() -> HitRecord {
    HitRecord {
        point: v3(0, 0, -32768),
        normal: v3(0, 0, SCALE),
        t: fx(32768),
        front_face: true,
        material: gray(),
    }
}

#[test]
fn metal_scatter_is_deterministic_reflection() {
    let metal = Metal { albedo: v3(SCALE, 45875, 32768) };
    let incoming = Ray::new(v3(0, 0, 0), v3(SCALE, 0, -SCALE));
    let hit = sample_hit();
    let first = metal.scatter(incoming, hit).expect("metal always scatters");
    let second = metal.scatter(incoming, hit).expect("metal always scatters");
    // No randomness: two calls agree exactly.
    assert_eq!(first.ray.direction, second.ray.direction);
    assert_eq!(first.attenuation, second.attenuation);
    // reflected == incoming - 2 (incoming . normal) normal == (1, 0, 1).
    let d = first.ray.direction;
    assert_eq!((d.x.raw, d.y.raw, d.z.raw), (SCALE, 0, SCALE));
    assert_eq!(first.ray.origin, hit.point);
    assert_eq!(first.attenuation, v3(SCALE, 45875, 32768));
}

#[test]
fn diffuse_scatter_stays_on_normal_side() {
    let matte = Lambertian { albedo: v3(32768, 32768, 32768) };
    let incoming = Ray::new(v3(0, 0, 0), v3(0, 0, -SCALE));
    let hit = sample_hit();
    for _ in 0..10000 {
        let refl = matte.scatter(incoming, hit).expect("diffuse always scatters");
        let d = refl.ray.direction.dot(hit.normal).raw;
        assert!(d >= -16, "scatter direction dips {} below the surface", d);
        assert_eq!(refl.attenuation, matte.albedo);
        assert_eq!(refl.ray.origin, hit.point);
    }
}

#[test]
fn diffuse_near_zero_fallback_uses_normal() {
    let matte = Lambertian { albedo: v3(32768, 32768, 32768) };
    let hit = sample_hit();
    // Force the sampled unit direction to cancel the normal exactly.
    let refl = matte.scatter_with_unit(hit, v3(0, 0, -SCALE));
    assert_eq!(refl.ray.direction, hit.normal);
}

#[test]
fn color_at_zero_depth_is_black() {
    let mut world = HittableList::new();
    world.add(Sphere::new(v3(0, 0, -SCALE), Fixed::from_ratio(1, 2), gray()));
    let rays = [
        Ray::new(v3(0, 0, 0), v3(0, 0, -SCALE)),
        Ray::new(v3(SCALE, 0, 0), v3(0, SCALE, 0)),
    ];
    for ray in rays.iter() {
        let c = get_pixel_color(*ray, 0, &world);
        assert_eq!((c.x.raw, c.y.raw, c.z.raw), (0, 0, 0));
    }
}

#[test]
fn missing_ray_returns_sky_gradient() {
    let world = HittableList::new();
    // Straight up: the blend parameter is exactly one, leaving the sky color.
    let up = Ray::new(v3(0, 0, 0), v3(0, SCALE, 0));
    let c = get_pixel_color(up, 10, &world);
    assert_eq!((c.x.raw, c.y.raw, c.z.raw), (32768, 45875, SCALE));
    // Straight down: the blend parameter is zero, leaving white.
    let down = Ray::new(v3(0, 0, 0), v3(0, -SCALE, 0));
    let w = background(down);
    assert_eq!((w.x.raw, w.y.raw, w.z.raw), (SCALE, SCALE, SCALE));
}

#[test]
fn lit_scene_attenuates_bounces() {
    let mut world = HittableList::new();
    world.add(Sphere::new(v3(0, 0, -SCALE), Fixed::from_ratio(1, 2), gray()));
    let ray = Ray::new(v3(0, 0, 0), v3(0, 0, -SCALE));
    for _ in 0..50 {
        let c = get_pixel_color(ray, 4, &world);
        // A gray diffuse bounce can only dim the sky, never brighten it.
        assert!(0 <= c.x.raw && c.x.raw <= SCALE);
        assert!(0 <= c.y.raw && c.y.raw <= SCALE);
        assert!(0 <= c.z.raw && c.z.raw <= SCALE);
    }
}

#[test]
fn small_render_fills_every_pixel() {
    let camera = Camera::new(v3(0, 0, SCALE));
    let mut world = HittableList::new();
    world.add(Sphere::new(v3(0, 0, -SCALE), Fixed::from_ratio(1, 2), gray()));
    world.add(Sphere::new(
        v3(0, Fixed::from_ratio(-201, 2).raw, -SCALE),
        Fixed::from_int(100),
        gray(),
    ));
    let image = render_raster(camera, &world, 8, 4, 2, 4);
    assert_eq!(image._dimensions(), (8, 4));
    assert_eq!(image.bytes.len(), 8 * 4 * 3);
    // The top rows look at the sky: they cannot be black.
    assert!(image.bytes[0..3].iter().any(|b| *b > 0));
}

#[test]
fn set_face_normal_orients_against_ray() {
    let mut record = sample_hit();
    let toward = Ray::new(v3(0, 0, 0), v3(0, 0, -SCALE));
    record.set_face_normal(toward, v3(0, 0, SCALE));
    assert!(record.front_face);
    assert_eq!(record.normal.z.raw, SCALE);
    let mut record2 = sample_hit();
    record2.set_face_normal(toward, v3(0, 0, -SCALE));
    assert!(!record2.front_face);
    assert_eq!(record2.normal.z.raw, SCALE);
}
