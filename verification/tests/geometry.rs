//! Intersection tests on concrete shapes.

use raytracer::fx::SCALE;
use raytracer::ray::Ray;
use raytracer::shape::mesh::{Mesh, Triangle};
use raytracer::shape::plane::Plane;
use raytracer::shape::sphere::Sphere;
use raytracer::vec3::Vec3;

const EPS: i64 = 1024;

fn v(x: i64, y: i64, z: i64) -> Vec3 {
    Vec3::new(x * SCALE, y * SCALE, z * SCALE)
}

#[test]
fn sphere_direct_hit_distance_and_normal() {
    // a ray from the origin aimed straight at a sphere of radius 1 at
    // distance 5 hits at distance 4, with the normal pointing back
    let sphere = Sphere { center: v(0, 0, -5), radius: SCALE };
    let ray = Ray { pos: v(0, 0, 0), dir: Vec3::new(0, 0, -SCALE) };
    let hit = sphere.intersect(&ray, EPS).expect("the sphere is dead ahead");
    assert_eq!(hit.distance, 4 * SCALE);
    assert_eq!(hit.normal, Vec3::new(0, 0, SCALE));
    assert_eq!(hit.intersection_point, v(0, 0, -4));
}

#[test]
fn sphere_aimed_away_misses() {
    let sphere = Sphere { center: v(0, 0, -5), radius: SCALE };
    let ray = Ray { pos: v(0, 0, 0), dir: Vec3::new(0, 0, SCALE) };
    assert!(sphere.intersect(&ray, EPS).is_none());
}

#[test]
fn sphere_behind_epsilon_misses() {
    // the origin sits on the sphere; the near root is below epsilon and
    // the far root is behind the epsilon test only if aimed away
    let sphere = Sphere { center: v(0, 0, -5), radius: SCALE };
    let ray = Ray { pos: v(0, 0, -4), dir: Vec3::new(0, 0, SCALE) };
    assert!(sphere.intersect(&ray, EPS).is_none());
}

#[test]
fn plane_parallel_ray_misses_from_any_origin() {
    let plane = Plane::new(v(0, -2, 0), Vec3::new(0, SCALE, 0).norm());
    for &origin in &[v(0, 0, 0), v(3, 7, -2), v(-100, -1, 50)] {
        let ray = Ray { pos: origin, dir: Vec3::new(SCALE, 0, 0) };
        assert!(plane.intersect(&ray, EPS).is_none());
    }
}

#[test]
fn plane_straight_down_hit() {
    let plane = Plane::new(v(0, -2, 0), Vec3::new(0, SCALE, 0).norm());
    let ray = Ray { pos: v(0, 0, 0), dir: Vec3::new(0, -SCALE, 0) };
    let hit = plane.intersect(&ray, EPS).expect("the plane is straight below");
    assert_eq!(hit.distance, 2 * SCALE);
    assert_eq!(hit.normal, Vec3::new(0, SCALE, 0));
    assert_eq!(hit.intersection_point, v(0, -2, 0));
}

#[test]
fn triangle_hit_and_miss() {
    let tri = Triangle { a: v(-1, -1, -3), b: v(1, -1, -3), c: v(0, 1, -3) };
    let hit_ray = Ray { pos: v(0, 0, 0), dir: Vec3::new(0, 0, -SCALE) };
    let hit = tri.intersect(&hit_ray, EPS).expect("the triangle is dead ahead");
    assert_eq!(hit.distance, 3 * SCALE);
    // the normal is perpendicular to the triangle's plane
    assert_eq!(hit.normal.x, 0);
    assert_eq!(hit.normal.y, 0);
    assert_eq!(hit.normal.z.abs(), SCALE);

    let miss_ray = Ray { pos: v(5, 0, 0), dir: Vec3::new(0, 0, -SCALE) };
    assert!(tri.intersect(&miss_ray, EPS).is_none());
}

#[test]
fn mesh_bounding_box_rejects_and_triangles_hit() {
    let tris = vec![Triangle { a: v(-1, -1, -3), b: v(1, -1, -3), c: v(0, 1, -3) }];
    let mesh = Mesh::new(v(0, 0, 0), tris).expect("one triangle in bounds");
    assert_eq!(mesh.triangle_count(), 1);

    let hit_ray = Ray { pos: v(0, 0, 0), dir: Vec3::new(0, 0, -SCALE) };
    let hit = mesh.intersect(&hit_ray, EPS).expect("the mesh is dead ahead");
    assert_eq!(hit.distance, 3 * SCALE);

    let miss_ray = Ray { pos: v(50, 0, 0), dir: Vec3::new(0, 0, -SCALE) };
    assert!(mesh.intersect(&miss_ray, EPS).is_none());
}

#[test]
fn mesh_center_translates_hits() {
    let tris = vec![Triangle { a: v(-1, -1, 0), b: v(1, -1, 0), c: v(0, 1, 0) }];
    let mesh = Mesh::new(v(0, 0, -3), tris).expect("one triangle in bounds");
    let ray = Ray { pos: v(0, 0, 0), dir: Vec3::new(0, 0, -SCALE) };
    let hit = mesh.intersect(&ray, EPS).expect("the translated mesh is ahead");
    assert_eq!(hit.distance, 3 * SCALE);
    assert_eq!(hit.intersection_point, v(0, 0, -3));
}

#[test]
fn ray_eval_walks_the_ray() {
    let ray = Ray { pos: v(1, 2, 3), dir: Vec3::new(0, 0, -SCALE) };
    assert_eq!(ray.eval(2 * SCALE), v(1, 2, 1));
}
