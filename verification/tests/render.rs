//! The renderer, buffer, camera, colors and the end-to-end scenarios.

use raytracer::buffer::Buffer;
use raytracer::camera::Camera;
use raytracer::color::Color;
use raytracer::fx::SCALE;
use raytracer::lights::PointLight;
use raytracer::material::{DiffuseMaterial, LightMaterial, Material, MetalMaterial};
use raytracer::object::Object;
use raytracer::ray::Ray;
use raytracer::renderer::Renderer;
use raytracer::rng::Rng64;
use raytracer::scene::Scene;
use raytracer::shape::plane::Plane;
use raytracer::shape::sphere::Sphere;
use raytracer::shape::Shape;
use raytracer::vec3::Vec3;

const EPS: i64 = 1024;

fn v(x: i64, y: i64, z: i64) -> Vec3 {
    Vec3::new(x * SCALE, y * SCALE, z * SCALE)
}

fn white() -> Color {
    Color::new(SCALE, SCALE, SCALE)
}

fn diffuse(c: Color) -> Material {
    Material::Diffuse(DiffuseMaterial { albedo: c })
}

#[test]
fn buffer_average_of_two_samples() {
    // a cell receiving full red and full green averages to half red,
    // half green, exactly
    let mut b = Buffer::new(1, 1);
    b.add_sample(0, 0, Color::new(SCALE, 0, 0));
    b.add_sample(0, 0, Color::new(0, SCALE, 0));
    let avg = b.average_samples(0, 0);
    assert_eq!(avg, Color { r: SCALE / 2, g: SCALE / 2, b: 0 });
}

#[test]
fn buffer_finalize_row_major() {
    let mut b = Buffer::new(2, 2);
    for y in 0..2 {
        for x in 0..2 {
            let shade = ((y * 2 + x) as i64) * SCALE / 4;
            b.add_sample(x, y, Color::new(shade, shade, shade));
        }
    }
    let img = b.finalize();
    assert_eq!(img.len(), 4);
    for idx in 0..4usize {
        let shade = (idx as i64) * SCALE / 4;
        assert_eq!(img[idx], Color::new(shade, shade, shade));
    }
}

#[test]
fn color_hex_and_bytes() {
    let c = Color::hex(0xFF8000);
    assert_eq!(c.r, SCALE);
    assert_eq!(c.g, 128 * SCALE / 255);
    assert_eq!(c.b, 0);
    let (r, g, b) = c.to_rgb8();
    assert_eq!(r, 255);
    assert_eq!(g, 127);
    assert_eq!(b, 0);
    // accumulation past full intensity clamps only on conversion
    let over = c.add(&c);
    assert_eq!(over.r, 2 * SCALE);
    assert_eq!(over.to_rgb8().0, 255);
}

#[test]
fn color_attenuate_scales_down() {
    let half = Color::new(SCALE / 2, SCALE / 2, SCALE / 2);
    let c = half.attenuate(&Color::new(SCALE, SCALE / 2, 0));
    assert_eq!(c, Color { r: SCALE / 2, g: SCALE / 4, b: 0 });
}

#[test]
fn rng_is_reproducible() {
    let mut a = Rng64::new(42);
    let mut b = Rng64::new(42);
    for _ in 0..16 {
        assert_eq!(a.next_u64(), b.next_u64());
    }
    let mut c = Rng64::new(43);
    let mut d = Rng64::new(42);
    assert_ne!(c.next_u64(), d.next_u64());
}

fn pinhole_at_origin() -> Camera {
    Camera::new(
        v(0, 0, 0),
        v(0, 0, -1),
        Vec3::new(0, SCALE, 0).norm(),
        SCALE,
        SCALE,
    )
    .expect("a straight-ahead camera always has a frame")
}

fn two_object_scene() -> Scene {
    let mut scene = Scene::new();
    scene.add_object(Object::new(
        Shape::Sphere(Sphere { center: v(0, 0, -5), radius: SCALE }),
        diffuse(white()),
    ));
    scene.add_object(Object::new(
        Shape::Plane(Plane::new(v(0, -2, 0), Vec3::new(0, SCALE, 0).norm())),
        diffuse(white()),
    ));
    scene
}

#[test]
fn cast_ray_at_depth_zero_is_black() {
    // whatever the scene and the ray, depth zero is black
    let scene = two_object_scene();
    let camera = pinhole_at_origin();
    let renderer = Renderer::new(scene, camera, 2, 2, 1);
    let mut rng = Rng64::new(7);
    let rays = [
        Ray { pos: v(0, 0, 0), dir: Vec3::new(0, 0, -SCALE) },
        Ray { pos: v(3, -1, 2), dir: Vec3::new(SCALE, SCALE, SCALE) },
        Ray { pos: v(0, 0, 0), dir: Vec3::new(0, 0, 0) },
    ];
    for ray in rays.iter() {
        let c = renderer.cast_ray(ray, 0, &mut rng);
        assert_eq!(c, Color { r: 0, g: 0, b: 0 });
    }
}

#[test]
fn pinhole_scene_center_hits_sphere_corners_fall_through() {
    // a sphere at (0,0,-5) of radius 1 and a floor plane, seen from a
    // pinhole at the origin looking down -z on a 2x2 image: rays near
    // the axis strike the sphere, corner rays miss its silhouette
    let scene = two_object_scene();
    let camera = pinhole_at_origin();

    // center ray: straight down the axis, first object (the sphere) wins
    let center = camera.cast_ray(0, 0);
    let (idx, hit) = scene
        .get_closest_hit_full(&center, EPS)
        .expect("the sphere is dead ahead");
    assert_eq!(idx, 0);
    assert_eq!(hit.time, 4 * SCALE);

    // a slightly off-center ray still strikes the sphere
    let near = camera.cast_ray(SCALE / 10, SCALE / 10);
    let (idx, _) = scene
        .get_closest_hit_full(&near, EPS)
        .expect("the silhouette covers the near-center sample");
    assert_eq!(idx, 0);

    // corner rays miss the sphere and fall through to the plane or the
    // background
    for &(u, w) in &[(-SCALE, SCALE), (SCALE, SCALE)] {
        let corner = camera.cast_ray(u, w);
        match scene.get_closest_hit_full(&corner, EPS) {
            None => {}
            Some((idx, _)) => assert_eq!(idx, 1),
        }
    }

    // and a full 2x2 render at one sample per pixel completes
    let renderer = Renderer::new(scene, camera, 2, 2, 1);
    let img = renderer.render(99);
    assert_eq!(img.len(), 4);
}

#[test]
fn render_is_deterministic_per_seed() {
    let renderer = Renderer::new(two_object_scene(), pinhole_at_origin(), 2, 2, 2);
    let a = renderer.render(1234);
    let b = renderer.render(1234);
    assert_eq!(a, b);
}

fn shadow_scene(with_occluder: bool) -> Scene {
    let mut scene = Scene::new();
    scene.add_object(Object::new(
        Shape::Plane(Plane::new(v(0, -2, 0), Vec3::new(0, SCALE, 0).norm())),
        diffuse(white()),
    ));
    if with_occluder {
        scene.add_object(Object::new(
            Shape::Sphere(Sphere { center: v(0, 0, -5), radius: SCALE }),
            diffuse(white()),
        ));
    }
    scene.add_light(PointLight::new(v(0, 2, -5), white()));
    scene
}

#[test]
fn occluder_makes_surface_point_strictly_darker() {
    // a point light above the floor and a sphere between them: the
    // shaded floor point under the sphere goes dark; without the sphere
    // it keeps its full shade
    let ray = Ray {
        pos: v(0, 0, 0),
        dir: Vec3::new(0, -2 * SCALE, -5 * SCALE).unit(),
    };
    let camera = pinhole_at_origin();

    let shadowed = Renderer::new(shadow_scene(true), camera, 2, 2, 1).trace_ray(&ray);
    let lit = Renderer::new(shadow_scene(false), camera, 2, 2, 1).trace_ray(&ray);

    // the floor's upward normal shades the lit point green
    assert_eq!(lit, Color { r: 0, g: SCALE, b: 0 });
    assert_eq!(shadowed, Color { r: 0, g: 0, b: 0 });
    assert!(shadowed.r + shadowed.g + shadowed.b < lit.r + lit.g + lit.b);
}

#[test]
fn emitter_contributes_its_color() {
    // a light-material sphere seen directly returns its emission
    let mut scene = Scene::new();
    let glow = Color::new(SCALE / 2, SCALE / 4, SCALE / 8);
    scene.add_object(Object::new(
        Shape::Sphere(Sphere { center: v(0, 0, -5), radius: SCALE }),
        Material::Light(LightMaterial { color: glow }),
    ));
    let renderer = Renderer::new(scene, pinhole_at_origin(), 2, 2, 1);
    let mut rng = Rng64::new(5);
    let ray = Ray { pos: v(0, 0, 0), dir: Vec3::new(0, 0, -SCALE) };
    let c = renderer.cast_ray(&ray, 3, &mut rng);
    assert_eq!(c, glow);
}

#[test]
fn metal_bounces_toward_emitter() {
    // a mirror straight ahead reflects the ray back into an emitter
    // behind the camera, attenuated by the mirror's albedo
    let mut scene = Scene::new();
    let half = Color::new(SCALE / 2, SCALE / 2, SCALE / 2);
    scene.add_object(Object::new(
        Shape::Plane(Plane::new(v(0, 0, -4), Vec3::new(0, 0, SCALE).norm())),
        Material::Metal(MetalMaterial { albedo: half }),
    ));
    scene.add_object(Object::new(
        Shape::Sphere(Sphere { center: v(0, 0, 8), radius: 2 * SCALE }),
        Material::Light(LightMaterial { color: white() }),
    ));
    let renderer = Renderer::new(scene, pinhole_at_origin(), 2, 2, 1);
    let mut rng = Rng64::new(5);
    let ray = Ray { pos: v(0, 0, 0), dir: Vec3::new(0, 0, -SCALE) };
    let c = renderer.cast_ray(&ray, 3, &mut rng);
    // half of the emitter's white, within the mirror's rounding
    assert!((c.r - SCALE / 2).abs() <= 16, "got {}", c.r);
    assert_eq!(c.r, c.g);
    assert_eq!(c.g, c.b);
}

#[test]
fn object_translate_moves_hits() {
    let obj = Object::new(
        Shape::Sphere(Sphere { center: v(0, 0, 0), radius: SCALE }),
        diffuse(white()),
    )
    .translate(0, 0, -5 * SCALE);
    let ray = Ray { pos: v(0, 0, 0), dir: Vec3::new(0, 0, -SCALE) };
    let hit = obj.intersect(&ray, EPS).expect("the translated sphere is ahead");
    assert_eq!(hit.time, 4 * SCALE);
}

#[test]
fn scene_closest_hit_prefers_nearest_then_first() {
    let mut scene = Scene::new();
    scene.add_object(Object::new(
        Shape::Sphere(Sphere { center: v(0, 0, -8), radius: SCALE }),
        diffuse(white()),
    ));
    scene.add_object(Object::new(
        Shape::Sphere(Sphere { center: v(0, 0, -4), radius: SCALE }),
        diffuse(white()),
    ));
    let ray = Ray { pos: v(0, 0, 0), dir: Vec3::new(0, 0, -SCALE) };
    let (idx, hit) = scene.get_closest_hit_full(&ray, EPS).expect("two spheres ahead");
    assert_eq!(idx, 1);
    assert_eq!(hit.time, 3 * SCALE);

    // an identical twin of the nearer sphere: the earlier object wins
    let mut tied = Scene::new();
    tied.add_object(Object::new(
        Shape::Sphere(Sphere { center: v(0, 0, -4), radius: SCALE }),
        diffuse(white()),
    ));
    tied.add_object(Object::new(
        Shape::Sphere(Sphere { center: v(0, 0, -4), radius: SCALE }),
        diffuse(white()),
    ));
    let (idx, _) = tied.get_closest_hit_full(&ray, EPS).expect("twin spheres ahead");
    assert_eq!(idx, 0);
}

#[test]
fn illuminations_come_in_insertion_order() {
    let mut scene = Scene::new();
    scene.add_light(PointLight::new(v(0, 5, 0), Color::new(SCALE, 0, 0)));
    scene.add_light(PointLight::new(v(3, 0, 0), Color::new(0, SCALE, 0)));
    let ills = scene.illuminations(v(0, 0, 0));
    assert_eq!(ills.len(), 2);
    assert_eq!(ills[0].color, Color::new(SCALE, 0, 0));
    assert_eq!(ills[0].time, 5 * SCALE);
    assert_eq!(ills[1].color, Color::new(0, SCALE, 0));
    assert_eq!(ills[1].time, 3 * SCALE);
    assert_eq!(ills[0].to_light.dir, Vec3::new(0, SCALE, 0));
}

#[test]
fn diffuse_scatter_stays_in_normal_hemisphere() {
    // wherever the generator lands, the scattered direction of a diffuse
    // surface points out of the surface
    let scene = two_object_scene();
    let renderer = Renderer::new(scene, pinhole_at_origin(), 2, 2, 1);
    let ray = Ray { pos: v(0, 0, 0), dir: Vec3::new(0, 0, -SCALE) };
    for seed in 0..32u64 {
        let mut rng = Rng64::new(seed);
        // tracing never panics and never goes negative, whatever the draws
        let c = renderer.cast_ray(&ray, 5, &mut rng);
        assert!(c.r >= 0 && c.g >= 0 && c.b >= 0);
    }
}

#[test]
fn entropy_seeded_generator_works() {
    // the system-seeded generator draws like any other
    let mut rng = Rng64::from_entropy();
    for _ in 0..8 {
        assert!(rng.next_below(10) < 10);
    }
}
