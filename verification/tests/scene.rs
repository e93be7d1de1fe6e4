use raytracer::material::scatter;
use raytracer::sphere::{hit, Geometry, Sphere};
use raytracer::{closest_hit, render, HitRecord, Image, Lobes, Material, Optics, Pixel, Settings};
use std::cell::Cell;

#[derive(Clone, Copy, Debug, PartialEq)]
struct V(f64, f64, f64);

fn plus(a: V, b: V) -> V {
    V(a.0 + b.0, a.1 + b.1, a.2 + b.2)
}

fn minus(a: V, b: V) -> V {
    V(a.0 - b.0, a.1 - b.1, a.2 - b.2)
}

fn times(a: V, k: f64) -> V {
    V(a.0 * k, a.1 * k, a.2 * k)
}

fn dot(a: V, b: V) -> f64 {
    a.0 * b.0 + a.1 * b.1 + a.2 * b.2
}

fn length(a: V) -> f64 {
    dot(a, a).sqrt()
}

fn unit(a: V) -> V {
    times(a, 1.0 / length(a))
}

fn close(a: V, b: V) -> bool {
    length(minus(a, b)) < 1e-12
}

#[derive(Clone, Copy, Debug, PartialEq)]
struct Ray {
    origin: V,
    direction: V,
}

type Stuff = Material<V, f64>;
type Ball<'a> = Sphere<V, f64, &'a Stuff>;
type Meeting<'a> = HitRecord<V, f64, &'a Stuff>;

fn roots(ball: &Ball, ray: &Ray) -> Option<(f64, f64)> {
    let oc = minus(ray.origin, ball.center);
    let a = dot(ray.direction, ray.direction);
    let half_b = dot(oc, ray.direction);
    let c = dot(oc, oc) - ball.radius * ball.radius;
    let disc = half_b * half_b - a * c;
    if disc < 0.0 {
        None
    } else {
        Some(((-half_b - disc.sqrt()) / a, (-half_b + disc.sqrt()) / a))
    }
}

fn inside(t: f64, lo: f64, hi: f64) -> bool {
    lo < t && t < hi
}

fn surface(ball: &Ball, ray: &Ray, t: f64) -> (V, V, bool) {
    let point = plus(ray.origin, times(ray.direction, t));
    let outward = times(minus(point, ball.center), 1.0 / ball.radius);
    let front_face = dot(ray.direction, outward) < 0.0;
    (point, if front_face { outward } else { times(outward, -1.0) }, front_face)
}

fn meet<'a>(ball: &Ball<'a>, ray: &Ray, lo: f64, hi: f64) -> Option<Meeting<'a>> {
    hit(ball, ray, lo, hi, &Geometry { roots, inside, surface })
}

fn next_unit(seed: &Cell<u64>) -> f64 {
    seed.set(seed.get().wrapping_mul(6364136223846793005).wrapping_add(1442695040888963407));
    (seed.get() >> 11) as f64 / (1u64 << 53) as f64
}

fn random_unit(seed: &Cell<u64>) -> V {
    loop {
        let d = V(
            2.0 * next_unit(seed) - 1.0,
            2.0 * next_unit(seed) - 1.0,
            2.0 * next_unit(seed) - 1.0,
        );
        if dot(d, d) < 1.0 && dot(d, d) > 1e-12 {
            return unit(d);
        }
    }
}

fn reflect(v: V, n: V) -> V {
    minus(v, times(n, 2.0 * dot(v, n)))
}

fn refract(v: V, n: V, ratio: f64) -> V {
    let cos_theta = dot(times(v, -1.0), n).min(1.0);
    let across = times(plus(v, times(n, cos_theta)), ratio);
    let along = times(n, -((1.0 - dot(across, across)).abs().sqrt()));
    plus(across, along)
}

fn leaves(ray: &Ray, m: &Meeting) -> bool {
    dot(ray.direction, m.normal) > 0.0
}

/// Scatters `ray` off `m` with directions drawn from `seed`.
fn scatter_with(seed: &Cell<u64>, ray: &Ray, m: Meeting) -> Option<(V, Ray)> {
    let lobes = Lobes {
        clear: V(1.0, 1.0, 1.0),
        diffuse: |m: &Meeting| Ray {
            origin: m.point,
            direction: plus(m.normal, random_unit(seed)),
        },
        mirror: |incoming: &Ray, m: &Meeting, fuzz: f64| Ray {
            origin: m.point,
            direction: plus(
                reflect(unit(incoming.direction), m.normal),
                times(random_unit(seed), fuzz),
            ),
        },
        leaves,
        glass: |incoming: &Ray, m: &Meeting, index: f64| {
            let ratio = if m.front_face { 1.0 / index } else { index };
            let v = unit(incoming.direction);
            let cos_theta = dot(times(v, -1.0), m.normal).min(1.0);
            let sin_theta = (1.0 - cos_theta * cos_theta).sqrt();
            let r0 = ((1.0 - ratio) / (1.0 + ratio)).powi(2);
            let reflectance = r0 + (1.0 - r0) * (1.0 - cos_theta).powi(5);
            let direction = if ratio * sin_theta > 1.0 || reflectance > next_unit(seed) {
                reflect(v, m.normal)
            } else {
                refract(v, m.normal, ratio)
            };
            Ray { origin: m.point, direction }
        },
    };
    scatter(m.material, ray, &m, &lobes)
}

fn dim(a: &V, p: Pixel) -> Pixel {
    Pixel::new((a.0 * p.r as f64) as u8, (a.1 * p.g as f64) as u8, (a.2 * p.b as f64) as u8)
}

fn sky(ray: &Ray) -> Pixel {
    let w = 0.5 * (unit(ray.direction).1 + 1.0);
    let c = plus(times(V(1.0, 1.0, 1.0), 1.0 - w), times(V(0.5, 0.7, 1.0), w));
    Pixel::new((c.0 * 255.0) as u8, (c.1 * 255.0) as u8, (c.2 * 255.0) as u8)
}

const GREY: Stuff = Material::Lambertian { albedo: V(0.5, 0.5, 0.5) };

fn ball<'a>(center: V, radius: f64, material: &'a Stuff) -> Ball<'a> {
    Sphere::new(center, radius, material)
}

#[test]
fn ray_at_the_center_meets_the_sphere_at_distance_less_radius() {
    let target = ball(V(0.0, 0.0, -3.0), 1.0, &GREY);
    let ray = Ray { origin: V(0.0, 0.0, 0.0), direction: V(0.0, 0.0, -1.0) };
    let m = meet(&target, &ray, 0.001, f64::INFINITY).unwrap();
    assert_eq!(m.t, 2.0);
    assert_eq!(m.point, V(0.0, 0.0, -2.0));
    assert_eq!(m.normal, V(0.0, 0.0, 1.0));
    assert!(m.front_face);
}

#[test]
fn ray_at_the_center_meets_the_sphere_head_on_from_anywhere() {
    let center = V(1.0, -2.0, 0.5);
    let target = ball(center, 0.75, &GREY);
    for origin in [V(5.0, 0.0, 0.0), V(-3.0, 4.0, 1.0), V(1.0, -2.0, 9.0), V(0.0, 0.0, 0.0)] {
        let direction = unit(minus(center, origin));
        let m = meet(&target, &Ray { origin, direction }, 0.001, f64::INFINITY).unwrap();
        let distance = length(minus(center, origin));
        assert!((m.t - (distance - 0.75)).abs() < 1e-12);
        // The normal is parallel to the ray's direction, and against it.
        assert!(close(m.normal, times(direction, -1.0)));
        assert!((length(m.normal) - 1.0).abs() < 1e-12);
    }
}

#[test]
fn ray_that_passes_the_sphere_by_meets_nothing() {
    let target = ball(V(0.0, 0.0, -3.0), 1.0, &GREY);
    for offset in [1.0001, 1.5, 10.0] {
        let ray = Ray { origin: V(offset, 0.0, 0.0), direction: V(0.0, 0.0, -1.0) };
        assert!(meet(&target, &ray, 0.001, f64::INFINITY).is_none());
        let ray = Ray { origin: V(0.0, -offset, 0.0), direction: V(0.0, 0.0, -1.0) };
        assert!(meet(&target, &ray, 0.001, f64::INFINITY).is_none());
    }
    let grazing = Ray { origin: V(0.9999, 0.0, 0.0), direction: V(0.0, 0.0, -1.0) };
    assert!(meet(&target, &grazing, 0.001, f64::INFINITY).is_some());
}

#[test]
fn sphere_behind_the_ray_is_not_met() {
    let target = ball(V(0.0, 0.0, 3.0), 1.0, &GREY);
    let ray = Ray { origin: V(0.0, 0.0, 0.0), direction: V(0.0, 0.0, -1.0) };
    assert!(meet(&target, &ray, 0.001, f64::INFINITY).is_none());
}

#[test]
fn smaller_root_is_taken_before_the_larger() {
    let target = ball(V(0.0, 0.0, -3.0), 1.0, &GREY);
    let ray = Ray { origin: V(0.0, 0.0, 0.0), direction: V(0.0, 0.0, -1.0) };
    // The roots are 2 and 4.
    assert_eq!(meet(&target, &ray, 0.001, f64::INFINITY).unwrap().t, 2.0);
    assert_eq!(meet(&target, &ray, 0.001, 3.0).unwrap().t, 2.0);
    // With the smaller root outside the interval the larger one is taken,
    assert_eq!(meet(&target, &ray, 2.0, f64::INFINITY).unwrap().t, 4.0);
    assert_eq!(meet(&target, &ray, 3.0, 5.0).unwrap().t, 4.0);
    // and with both outside, nothing: the interval is open at both ends.
    assert!(meet(&target, &ray, 0.001, 2.0).is_none());
    assert!(meet(&target, &ray, 2.0, 4.0).is_none());
    assert!(meet(&target, &ray, 4.0, f64::INFINITY).is_none());
    assert!(meet(&target, &ray, 2.5, 3.5).is_none());
}

#[test]
fn ray_from_inside_meets_the_far_wall_with_the_normal_turned_in() {
    let target = ball(V(0.0, 0.0, 0.0), 2.0, &GREY);
    let ray = Ray { origin: V(0.0, 0.0, 0.0), direction: V(1.0, 0.0, 0.0) };
    let m = meet(&target, &ray, 0.001, f64::INFINITY).unwrap();
    assert_eq!(m.t, 2.0);
    assert_eq!(m.normal, V(-1.0, 0.0, 0.0));
    assert!(!m.front_face);
}

#[test]
fn record_carries_the_material_of_the_sphere() {
    let gold: Stuff = Material::Metal { albedo: V(0.8, 0.6, 0.2), fuzz: 0.0 };
    let target = ball(V(0.0, 0.0, -3.0), 1.0, &gold);
    let ray = Ray { origin: V(0.0, 0.0, 0.0), direction: V(0.0, 0.0, -1.0) };
    let m = meet(&target, &ray, 0.001, f64::INFINITY).unwrap();
    assert_eq!(*m.material(), gold);
    assert_eq!(m.t_value(), 2.0);
}

#[test]
fn nearest_of_several_spheres_is_found_in_any_order() {
    let spots = [V(0.0, 0.0, -9.0), V(0.0, 0.0, -3.0), V(0.0, 0.0, -6.0), V(4.0, 0.0, -2.0)];
    let ray = Ray { origin: V(0.0, 0.0, 0.0), direction: V(0.0, 0.0, -1.0) };
    for turn in 0..4 {
        let world: Vec<Ball> =
            (0..4).map(|i| ball(spots[(i + turn) % 4], 1.0, &GREY)).collect();
        let found = closest_hit(&ray, &world, 0.001, f64::INFINITY, &meet).unwrap();
        assert_eq!(found.t, 2.0);
        assert_eq!(found.point, V(0.0, 0.0, -2.0));
    }
}

fn flat_meeting(material: &Stuff) -> Meeting {
    HitRecord {
        point: V(0.0, 0.0, 0.0),
        normal: V(0.0, 1.0, 0.0),
        t: 1.0,
        front_face: true,
        material,
    }
}

#[test]
fn diffuse_surface_always_scatters_with_its_albedo() {
    let seed = Cell::new(3u64);
    let paint: Stuff = Material::Lambertian { albedo: V(0.1, 0.2, 0.5) };
    let ray = Ray { origin: V(-1.0, 1.0, 0.0), direction: V(1.0, -1.0, 0.0) };
    for _ in 0..200 {
        let (attenuation, onward) = scatter_with(&seed, &ray, flat_meeting(&paint)).unwrap();
        assert_eq!(attenuation, V(0.1, 0.2, 0.5));
        assert_eq!(onward.origin, V(0.0, 0.0, 0.0));
        // The direction is the normal plus a vector of length one.
        assert!((length(minus(onward.direction, V(0.0, 1.0, 0.0))) - 1.0).abs() < 1e-12);
    }
}

#[test]
fn smooth_metal_mirrors_the_ray() {
    let seed = Cell::new(5u64);
    let mirror: Stuff = Material::Metal { albedo: V(0.8, 0.6, 0.2), fuzz: 0.0 };
    for incoming in [V(1.0, -1.0, 0.0), V(0.3, -2.0, 0.7), V(0.0, -1.0, 0.0), V(-5.0, -0.1, 2.0)] {
        let ray = Ray { origin: minus(V(0.0, 0.0, 0.0), incoming), direction: incoming };
        let (attenuation, onward) = scatter_with(&seed, &ray, flat_meeting(&mirror)).unwrap();
        assert_eq!(attenuation, V(0.8, 0.6, 0.2));
        let v = unit(incoming);
        // The angle to the normal is kept and the part along the surface too.
        assert!(close(onward.direction, V(v.0, -v.1, v.2)));
    }
}

#[test]
fn metal_absorbs_what_would_leave_into_the_surface() {
    let seed = Cell::new(5u64);
    let mirror: Stuff = Material::Metal { albedo: V(0.8, 0.6, 0.2), fuzz: 0.0 };
    // A ray that comes from behind the surface is mirrored further behind it.
    let ray = Ray { origin: V(0.0, -1.0, 0.0), direction: V(0.0, 1.0, 0.0) };
    assert!(scatter_with(&seed, &ray, flat_meeting(&mirror)).is_none());
    // A ray along the surface is mirrored along it and does not leave it.
    let ray = Ray { origin: V(-1.0, 0.0, 0.0), direction: V(1.0, 0.0, 0.0) };
    assert!(scatter_with(&seed, &ray, flat_meeting(&mirror)).is_none());
}

#[test]
fn rough_metal_scatters_near_the_mirrored_ray_or_absorbs() {
    let seed = Cell::new(11u64);
    let rough: Stuff = Material::Metal { albedo: V(0.9, 0.9, 0.9), fuzz: 1.0 };
    let incoming = V(1.0, -0.2, 0.0);
    let ray = Ray { origin: minus(V(0.0, 0.0, 0.0), incoming), direction: incoming };
    let v = unit(incoming);
    let (mut scattered, mut absorbed) = (0, 0);
    for _ in 0..500 {
        match scatter_with(&seed, &ray, flat_meeting(&rough)) {
            Some((attenuation, onward)) => {
                scattered += 1;
                assert_eq!(attenuation, V(0.9, 0.9, 0.9));
                assert!(onward.direction.1 > 0.0);
                assert!(length(minus(onward.direction, V(v.0, -v.1, v.2))) < 1.0 + 1e-12);
            }
            None => absorbed += 1,
        }
    }
    assert!(scattered > 0);
    assert!(absorbed > 0);
}

#[test]
fn dielectric_never_absorbs_and_takes_nothing_away() {
    let seed = Cell::new(17u64);
    let glass: Stuff = Material::Dielectric { refraction_index: 1.5 };
    for incoming in [V(1.0, -1.0, 0.0), V(0.0, -1.0, 0.0), V(9.0, -0.1, 1.0), V(0.2, -3.0, 0.4)] {
        let ray = Ray { origin: minus(V(0.0, 0.0, 0.0), incoming), direction: incoming };
        for _ in 0..50 {
            let (attenuation, onward) = scatter_with(&seed, &ray, flat_meeting(&glass)).unwrap();
            assert_eq!(attenuation, V(1.0, 1.0, 1.0));
            assert!((length(onward.direction) - 1.0).abs() < 1e-12);
        }
    }
}

#[test]
fn dielectric_of_index_one_lets_the_ray_pass_undeviated() {
    let seed = Cell::new(23u64);
    let air: Stuff = Material::Dielectric { refraction_index: 1.0 };
    // Head on, the estimate of the reflectance is zero and no draw can win.
    let incoming = V(0.0, -1.0, 0.0);
    let ray = Ray { origin: V(0.0, 1.0, 0.0), direction: incoming };
    for _ in 0..200 {
        let (attenuation, onward) = scatter_with(&seed, &ray, flat_meeting(&air)).unwrap();
        assert_eq!(attenuation, V(1.0, 1.0, 1.0));
        assert!(close(onward.direction, incoming));
    }
    // At a slant the ray passes undeviated whenever it is refracted.
    for incoming in [V(1.0, -1.0, 0.0), V(0.3, -2.0, 0.7), V(-1.0, -3.0, 2.0)] {
        let ray = Ray { origin: minus(V(0.0, 0.0, 0.0), incoming), direction: incoming };
        let mut passed = 0;
        for _ in 0..200 {
            let (_, onward) = scatter_with(&seed, &ray, flat_meeting(&air)).unwrap();
            if onward.direction.1 < 0.0 {
                passed += 1;
                assert!(close(onward.direction, unit(incoming)));
            }
        }
        assert!(passed > 150);
    }
}

fn picture(width: usize, height: usize, depth: usize) -> Image {
    let seed = Cell::new(7u64);
    let optics = Optics {
        near: 0.001,
        far: f64::INFINITY,
        hit: meet,
        scatter: |ray: &Ray, m: Meeting| scatter_with(&seed, ray, m),
        attenuate: dim,
        sky,
    };
    let jitter = Cell::new(99u64);
    let cast = |x: usize, y: usize, w: usize, h: usize| {
        let viewport_height = 2.0;
        let viewport_width = viewport_height * w as f64 / h as f64;
        let horizontal = V(viewport_width, 0.0, 0.0);
        let vertical = V(0.0, viewport_height, 0.0);
        let origin = V(0.0, 0.0, 0.0);
        let corner = minus(
            minus(minus(origin, times(horizontal, 0.5)), times(vertical, 0.5)),
            V(0.0, 0.0, 1.0),
        );
        let offset = next_unit(&jitter);
        let u = (x as f64 + offset) / (w as f64 - 1.0);
        let v = (y as f64 + offset) / (h as f64 - 1.0);
        let through = plus(plus(corner, times(horizontal, u)), times(vertical, v));
        Ray { origin, direction: unit(minus(through, origin)) }
    };
    let world = vec![ball(V(0.0, 0.0, -1.0), 0.5, &GREY)];
    let mut image = Image::new(height, width);
    let settings = Settings { samples_per_pixel: 1, max_depth: depth };
    render(&mut image, &world, &settings, &cast, &optics);
    image
}

fn light(p: Pixel) -> u32 {
    p.r as u32 + p.g as u32 + p.b as u32
}

#[test]
fn diffuse_ball_is_lit_and_darker_than_the_sky() {
    let image = picture(33, 17, 2);
    let center = image.pixel_at(16, 8);
    assert_ne!(center, Pixel::black());
    for (x, y) in [(0, 0), (32, 0), (0, 16), (32, 16), (16, 0), (0, 8)] {
        let edge = image.pixel_at(x, y);
        assert!(light(center) < light(edge));
        assert!(center.b < edge.b);
    }
}

#[test]
fn sky_behind_the_ball_is_brightest_at_the_bottom() {
    let image = picture(33, 17, 2);
    // Row 0 of the image is the top of the picture, where the sky is bluest.
    let top = image.pixel_at(0, 0);
    let bottom = image.pixel_at(0, 16);
    assert!(top.r < bottom.r);
    assert!(top.g < bottom.g);
    assert_eq!(top.b, 255);
    assert_eq!(bottom.b, 255);
}

#[test]
fn ball_is_black_when_the_light_is_spent_at_its_surface() {
    // With one bounce the ray that meets the ball has none left for what it
    // scatters into; the sky around the ball is seen all the same.
    let image = picture(33, 17, 1);
    assert_eq!(image.pixel_at(16, 8), Pixel::black());
    for (x, y) in [(0, 0), (32, 0), (0, 16), (32, 16)] {
        assert_ne!(image.pixel_at(x, y), Pixel::black());
    }
}
