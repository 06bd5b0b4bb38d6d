//! Loading meshes from ASCII PLY data, and every way it can fail.

use raytracer::fx::SCALE;
use raytracer::ply::PlyError;
use raytracer::shape::mesh::Mesh;
use raytracer::vec3::Vec3;

fn origin() -> Vec3 {
    Vec3::new(0, 0, 0)
}

fn tiny_ply() -> Vec<u8> {
    let mut s = String::new();
    s.push_str("ply\n");
    s.push_str("format ascii 1.0\n");
    s.push_str("comment a single triangle\n");
    s.push_str("element vertex 3\n");
    s.push_str("property float x\n");
    s.push_str("property float y\n");
    s.push_str("property float z\n");
    s.push_str("element face 1\n");
    s.push_str("property list uchar int vertex_indices\n");
    s.push_str("end_header\n");
    s.push_str("0.5 0 0\n");
    s.push_str("-1 0 0\n");
    s.push_str("0 1.25 0\n");
    s.push_str("3 0 1 2\n");
    s.into_bytes()
}

#[test]
fn loads_a_single_triangle() {
    let mesh = Mesh::from_ply(origin(), &tiny_ply()).expect("a well-formed file");
    assert_eq!(mesh.triangle_count(), 1);
    assert_eq!(mesh.center, origin());
    // coordinates parse exactly into fixed point
    assert_eq!(mesh.triangles[0].a, Vec3::new(SCALE / 2, 0, 0));
    assert_eq!(mesh.triangles[0].b, Vec3::new(-SCALE, 0, 0));
    assert_eq!(mesh.triangles[0].c, Vec3::new(0, SCALE + SCALE / 4, 0));
}

#[test]
fn rejects_bad_magic() {
    let data = b"plz\nformat ascii 1.0\nend_header\n";
    assert_eq!(Mesh::from_ply(origin(), data).err(), Some(PlyError::BadMagic));
}

#[test]
fn rejects_binary_format() {
    let data = b"ply\nformat binary_little_endian 1.0\nend_header\n";
    assert_eq!(Mesh::from_ply(origin(), data).err(), Some(PlyError::BadFormat));
}

#[test]
fn rejects_missing_elements() {
    let data = b"ply\nformat ascii 1.0\nend_header\n";
    assert_eq!(Mesh::from_ply(origin(), data).err(), Some(PlyError::BadHeader));
}

#[test]
fn rejects_bad_vertex_line() {
    let mut s = String::from_utf8(tiny_ply()).unwrap();
    s = s.replace("-1 0 0", "-1 zero 0");
    assert_eq!(Mesh::from_ply(origin(), s.as_bytes()).err(), Some(PlyError::BadVertex));
}

#[test]
fn rejects_quad_faces() {
    let mut s = String::from_utf8(tiny_ply()).unwrap();
    s = s.replace("3 0 1 2", "4 0 1 2 0");
    assert_eq!(Mesh::from_ply(origin(), s.as_bytes()).err(), Some(PlyError::BadFace));
}

#[test]
fn rejects_out_of_range_index() {
    let mut s = String::from_utf8(tiny_ply()).unwrap();
    s = s.replace("3 0 1 2", "3 0 1 9");
    assert_eq!(Mesh::from_ply(origin(), s.as_bytes()).err(), Some(PlyError::BadIndex));
}

#[test]
fn rejects_empty_mesh() {
    let mut s = String::from_utf8(tiny_ply()).unwrap();
    s = s.replace("element face 1", "element face 0");
    s = s.replace("3 0 1 2\n", "");
    assert_eq!(Mesh::from_ply(origin(), s.as_bytes()).err(), Some(PlyError::Empty));
}

#[test]
fn rejects_far_out_vertices() {
    let mut s = String::from_utf8(tiny_ply()).unwrap();
    // beyond the mesh box of 512 units
    s = s.replace("0.5 0 0", "100000 0 0");
    assert_eq!(Mesh::from_ply(origin(), s.as_bytes()).err(), Some(PlyError::OutOfRange));
}
