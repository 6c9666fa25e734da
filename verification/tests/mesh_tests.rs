use std::io::Write;
use stl_thumb::readers::ObjModel;
use stl_thumb::mesh::{load_format, model_format, BoundingBox, Mesh, MeshError, ModelFormat, Normal, Triangle};

/// The face normal the renderer computes: the cross product of two edges,
/// scaled so that its components' magnitudes sum to one.
fn face_normal(t: &Triangle) -> Normal {
    let p = |i: usize| t.vertices[i].map(f32::from_bits);
    let (a, b, c) = (p(0), p(1), p(2));
    let v = [b[0] - a[0], b[1] - a[1], b[2] - a[2]];
    let w = [c[0] - a[0], c[1] - a[1], c[2] - a[2]];
    let n = [v[1] * w[2] - v[2] * w[1], v[2] * w[0] - v[0] * w[2], v[0] * w[1] - v[1] * w[0]];
    let mag = n[0].abs() + n[1].abs() + n[2].abs();
    Normal { normal: [(n[0] / mag).to_bits(), (n[1] / mag).to_bits(), (n[2] / mag).to_bits()] }
}

fn parse_coordinate(s: &str) -> Result<u32, String> {
    s.parse::<f32>().map(|f| f.to_bits()).map_err(|e| e.to_string())
}

fn narrow(b: u64) -> u32 {
    (f64::from_bits(b) as f32).to_bits()
}

fn bits(p: [f32; 3]) -> [u32; 3] {
    p.map(f32::to_bits)
}

fn positions(m: &Mesh) -> Vec<[f32; 3]> {
    m.vertices.iter().map(|v| v.position.map(f32::from_bits)).collect()
}

fn normals(m: &Mesh) -> Vec<[f32; 3]> {
    m.normals.iter().map(|n| n.normal.map(f32::from_bits)).collect()
}

fn bounds(m: &Mesh) -> ([f32; 3], [f32; 3]) {
    (m.bounds.min.map(f32::from_bits), m.bounds.max.map(f32::from_bits))
}

const ASCII_STL: &str = "solid test
  facet normal 0 0 1
    outer loop
      vertex 0 0 0
      vertex 2 0 0
      vertex 0 3 0
    endloop
  endfacet
  facet normal 0 0 0
    outer loop
      vertex -1 0 5
      vertex 0 -4 1
      vertex 1 1 1
    endloop
  endfacet
endsolid test
";

fn binary_stl(tris: &[([f32; 3], [[f32; 3]; 3])]) -> Vec<u8> {
    let mut out = vec![0u8; 80];
    out.extend_from_slice(&(tris.len() as u32).to_le_bytes());
    for (n, vs) in tris {
        for c in n.iter().chain(vs.iter().flatten()) {
            out.extend_from_slice(&c.to_le_bytes());
        }
        out.extend_from_slice(&[0, 0]);
    }
    out
}

#[test]
fn stl_ascii_mesh() {
    let m = Mesh::from_stl(ASCII_STL.as_bytes(), false, &face_normal).unwrap();
    assert_eq!(
        positions(&m),
        vec![[0.0, 0.0, 0.0], [2.0, 0.0, 0.0], [0.0, 3.0, 0.0], [-1.0, 0.0, 5.0], [0.0, -4.0, 1.0], [1.0, 1.0, 1.0]]
    );
    let second = face_normal(&Triangle {
        normal: [0, 0, 0],
        vertices: [bits([-1.0, 0.0, 5.0]), bits([0.0, -4.0, 1.0]), bits([1.0, 1.0, 1.0])],
    });
    let n = normals(&m);
    assert_eq!(&n[0..3], &[[0.0, 0.0, 1.0]; 3]);
    assert_eq!(&m.normals[3..6], &[second, second, second]);
    assert!(!m.model_had_normals);
    assert_eq!(bounds(&m), ([-1.0, -4.0, 0.0], [2.0, 3.0, 5.0]));
    assert!(m.indices.is_empty());
}

#[test]
fn stl_forced_normals() {
    let m = Mesh::from_stl(ASCII_STL.as_bytes(), true, &face_normal).unwrap();
    let first = face_normal(&Triangle {
        normal: [0, 0, 0],
        vertices: [bits([0.0, 0.0, 0.0]), bits([2.0, 0.0, 0.0]), bits([0.0, 3.0, 0.0])],
    });
    assert_eq!(m.normals[0], first);
    assert_eq!(normals(&m)[0], [0.0, 0.0, 1.0]);
    assert!(!m.model_had_normals);
}

#[test]
fn stl_binary_mesh_keeps_normals() {
    let bytes = binary_stl(&[
        ([0.0, 0.0, -1.0], [[0.0, 0.0, 0.0], [0.0, 1.0, 0.0], [1.0, 0.0, 0.0]]),
        ([1.0, 0.0, 0.0], [[1.0, 0.0, 0.0], [1.0, 1.0, 0.0], [1.0, 0.0, 1.0]]),
    ]);
    let m = Mesh::from_stl(&bytes, false, &face_normal).unwrap();
    assert_eq!(m.vertices.len(), 6);
    assert_eq!(m.normals.len(), 6);
    assert!(m.model_had_normals);
    assert_eq!(normals(&m)[0], [0.0, 0.0, -1.0]);
    assert_eq!(normals(&m)[5], [1.0, 0.0, 0.0]);
    assert_eq!(bounds(&m), ([0.0, 0.0, 0.0], [1.0, 1.0, 1.0]));
}

#[test]
fn stl_negative_zero_normal_counts_as_missing() {
    let bytes = binary_stl(&[([-0.0, 0.0, -0.0], [[0.0, 0.0, 0.0], [1.0, 0.0, 0.0], [0.0, 1.0, 0.0]])]);
    let m = Mesh::from_stl(&bytes, false, &face_normal).unwrap();
    assert!(!m.model_had_normals);
    assert_eq!(normals(&m)[0], [0.0, 0.0, 1.0]);
}

#[test]
fn stl_without_triangles() {
    let bytes = binary_stl(&[]);
    assert!(matches!(Mesh::from_stl(&bytes, false, &face_normal), Err(MeshError::NoTriangles)));
}

#[test]
fn stl_unreadable() {
    assert!(Mesh::from_stl(b"abc", false, &face_normal).is_err());
}

#[test]
fn stl_nan_vertex_is_ignored_by_bounds() {
    let bytes = binary_stl(&[([0.0, 0.0, 1.0], [[0.0, 0.0, 0.0], [f32::NAN, 7.0, 0.0], [1.0, 1.0, 0.0]])]);
    let m = Mesh::from_stl(&bytes, false, &face_normal).unwrap();
    assert_eq!(bounds(&m), ([0.0, 0.0, 0.0], [1.0, 7.0, 0.0]));
}

#[test]
fn bounding_box_grows() {
    let mut b = BoundingBox::new(&bits([1.0, 1.0, 1.0]));
    b.expand(&bits([0.0, 2.0, 1.0]));
    b.expand(&bits([3.0, -1.0, 0.5]));
    assert_eq!(b.min.map(f32::from_bits), [0.0, -1.0, 0.5]);
    assert_eq!(b.max.map(f32::from_bits), [3.0, 2.0, 1.0]);
}

#[test]
fn bounding_box_expand_checks_minimum_first() {
    // Starting from a box whose minimum lies above its maximum, a coordinate
    // below the minimum only lowers the minimum.
    let mut b = BoundingBox { min: bits([5.0, 0.0, 0.0]), max: bits([1.0, 0.0, 0.0]) };
    b.expand(&bits([3.0, 0.0, 0.0]));
    assert_eq!(b.min.map(f32::from_bits), [3.0, 0.0, 0.0]);
    assert_eq!(b.max.map(f32::from_bits), [1.0, 0.0, 0.0]);
}

const OBJ_PLAIN: &str = "v 0 0 0
v 1 0 0
v 0 1 0
v 0 0 1
f 1 2 3
f 1 2 4
";

const OBJ_WITH_NORMALS: &str = "v 0 0 0
v 1 0 0
v 0 1 0
vn 0 0 1
f 1//1 2//1 3//1
";

#[test]
fn obj_mesh_computes_normals() {
    let m = Mesh::from_obj(OBJ_PLAIN.as_bytes(), false, &face_normal).unwrap();
    assert_eq!(
        positions(&m),
        vec![[0.0, 0.0, 0.0], [1.0, 0.0, 0.0], [0.0, 1.0, 0.0], [0.0, 0.0, 0.0], [1.0, 0.0, 0.0], [0.0, 0.0, 1.0]]
    );
    let n = normals(&m);
    assert_eq!(&n[0..3], &[[0.0, 0.0, 1.0]; 3]);
    assert_eq!(&n[3..6], &[[0.0, -1.0, 0.0]; 3]);
    assert!(m.model_had_normals);
    assert_eq!(bounds(&m), ([0.0, 0.0, 0.0], [1.0, 1.0, 1.0]));
}

#[test]
fn obj_mesh_keeps_file_normals() {
    let m = Mesh::from_obj(OBJ_WITH_NORMALS.as_bytes(), false, &face_normal).unwrap();
    assert_eq!(normals(&m), vec![[0.0, 0.0, 1.0]; 3]);
    assert_eq!(m.vertices.len(), 3);
}

#[test]
fn obj_without_positions() {
    // The OBJ reader always yields a model, here one without positions.
    assert!(matches!(Mesh::from_obj(b"", false, &face_normal), Err(MeshError::EmptyMesh)));
}

#[test]
fn obj_without_models() {
    assert!(matches!(Mesh::from_obj_models(&Vec::new(), &face_normal), Err(MeshError::EmptyModel)));
}

#[test]
fn obj_index_out_of_range() {
    let model = ObjModel {
        positions: vec![0, 0, 0, 0x3f80_0000, 0, 0],
        normals: Vec::new(),
        indices: vec![0, 1, 2],
    };
    assert!(matches!(Mesh::from_obj_models(&vec![model], &face_normal), Err(MeshError::BadObjIndex)));
}

fn model_xml(body: &str) -> String {
    format!(
        "<?xml version=\"1.0\" encoding=\"UTF-8\"?>\n<model unit=\"millimeter\" xmlns=\"http://schemas.microsoft.com/3dmanufacturing/core/2015/02\"><resources>{}</resources><build><item objectid=\"1\"/></build></model>",
        body
    )
}

const TETRA_OBJECT: &str = "<object id=\"1\" type=\"model\"><mesh><vertices><vertex x=\"0\" y=\"0\" z=\"0\"/><vertex x=\"10\" y=\"0\" z=\"0\"/><vertex x=\"0\" y=\"10\" z=\"0\"/><vertex x=\"0\" y=\"0\" z=\"10\"/></vertices><triangles><triangle v1=\"0\" v2=\"2\" v3=\"1\"/><triangle v1=\"0\" v2=\"1\" v3=\"3\"/></triangles></mesh></object>";

fn package(parts: &[(&str, String)]) -> Vec<u8> {
    let mut zip = zip::ZipWriter::new(std::io::Cursor::new(Vec::new()));
    let options = zip::write::SimpleFileOptions::default().compression_method(zip::CompressionMethod::Stored);
    for (name, text) in parts {
        zip.start_file(*name, options).unwrap();
        zip.write_all(text.as_bytes()).unwrap();
    }
    zip.finish().unwrap().into_inner()
}

#[test]
fn three_mf_both_readers_agree() {
    let bytes = package(&[("3D/3dmodel.model", model_xml(TETRA_OBJECT))]);
    let raw = Mesh::from_3mf_raw(&bytes, false, &face_normal, &parse_coordinate).unwrap();
    let full = Mesh::from_3mf(&bytes, false, &face_normal, &narrow).unwrap();
    let expected = vec![[0.0, 0.0, 0.0], [0.0, 10.0, 0.0], [10.0, 0.0, 0.0], [0.0, 0.0, 0.0], [10.0, 0.0, 0.0], [0.0, 0.0, 10.0]];
    assert_eq!(positions(&raw), expected);
    assert_eq!(positions(&full), expected);
    assert_eq!(raw.normals, full.normals);
    assert_eq!(normals(&raw)[0], [0.0, 0.0, -1.0]);
    assert!(!raw.model_had_normals && !full.model_had_normals);
    assert_eq!(bounds(&raw), ([0.0, 0.0, 0.0], [10.0, 10.0, 10.0]));
    assert_eq!(bounds(&full), bounds(&raw));
}

#[test]
fn three_mf_raw_skips_bad_triangles_and_other_parts() {
    let body = "<object id=\"1\"><mesh><vertices><vertex x=\"1.5\" y=\"2\" z=\"-3\"/><vertex x=\"4\" y=\"5\" z=\"6\"/><vertex x=\"7\" y=\"8\" z=\"9\"/></vertices><triangles><triangle v1=\"0\" v2=\"1\" v3=\"5\"/><triangle v1=\"2\" v2=\"1\" v3=\"0\"/></triangles></mesh></object>";
    let bytes = package(&[("3D/notes.txt", "ignored".to_string()), ("3D/3dmodel.model", model_xml(body))]);
    let raw = Mesh::from_3mf_raw(&bytes, false, &face_normal, &parse_coordinate).unwrap();
    assert_eq!(positions(&raw), vec![[7.0, 8.0, 9.0], [4.0, 5.0, 6.0], [1.5, 2.0, -3.0]]);
    assert!(matches!(
        Mesh::from_3mf(&bytes, false, &face_normal, &narrow),
        Err(MeshError::BadTriangleIndex)
    ));
}

#[test]
fn three_mf_without_mesh() {
    let bytes = package(&[("3D/3dmodel.model", model_xml("<object id=\"1\"/>"))]);
    assert!(matches!(Mesh::from_3mf_raw(&bytes, false, &face_normal, &parse_coordinate), Err(MeshError::NoMeshData)));
    assert!(matches!(Mesh::from_3mf(&bytes, false, &face_normal, &narrow), Err(MeshError::NoMeshData)));
}

#[test]
fn three_mf_bad_coordinate() {
    let body = "<object id=\"1\"><mesh><vertices><vertex x=\"abc\" y=\"0\" z=\"0\"/></vertices><triangles/></mesh></object>";
    let bytes = package(&[("3D/3dmodel.model", model_xml(body))]);
    assert!(matches!(
        Mesh::from_3mf_raw(&bytes, false, &face_normal, &parse_coordinate),
        Err(MeshError::InvalidCoordinate(_))
    ));
}

#[test]
fn three_mf_not_a_zip() {
    assert!(matches!(Mesh::from_3mf_raw(b"not a zip", false, &face_normal, &parse_coordinate), Err(MeshError::Read(_))));
    assert!(matches!(Mesh::from_3mf(b"not a zip", false, &face_normal, &narrow), Err(MeshError::Read(_))));
}

#[test]
fn model_formats() {
    assert_eq!(model_format("obj"), Some(ModelFormat::Obj));
    assert_eq!(model_format("STL"), Some(ModelFormat::Stl));
    assert_eq!(model_format("3Mf"), Some(ModelFormat::ThreeMf));
    assert_eq!(model_format("ply"), None);
    assert_eq!(load_format("-"), Some(ModelFormat::Stl));
    assert_eq!(load_format("cube.obj"), Some(ModelFormat::Obj));
    assert_eq!(load_format("dir/cube.3MF"), Some(ModelFormat::ThreeMf));
    assert_eq!(load_format("cube"), None);
    assert_eq!(load_format("cube.step"), None);
}

#[test]
fn model_bytes_by_format() {
    let m = Mesh::from_model_bytes(ModelFormat::Stl, ASCII_STL.as_bytes(), false, &face_normal, &parse_coordinate).unwrap();
    assert_eq!(m.vertices.len(), 6);
    let o = Mesh::from_model_bytes(ModelFormat::Obj, OBJ_PLAIN.as_bytes(), false, &face_normal, &parse_coordinate).unwrap();
    assert_eq!(o.vertices.len(), 6);
    let bytes = package(&[("3D/3dmodel.model", model_xml(TETRA_OBJECT))]);
    let t = Mesh::from_model_bytes(ModelFormat::ThreeMf, &bytes, false, &face_normal, &parse_coordinate).unwrap();
    assert_eq!(t.vertices.len(), 6);
}

#[test]
fn mesh_summary_lines() {
    let m = Mesh::from_stl(ASCII_STL.as_bytes(), false, &face_normal).unwrap();
    assert_eq!(m.summary(), "Verts: 6\nNorms: 6\nIndices: 0\n\n");
}

#[test]
fn bounds_hold_every_vertex() {
    let bytes = binary_stl(&[
        ([0.0, 0.0, 1.0], [[3.0, -2.0, 1.0], [-7.5, 4.0, 0.0], [2.0, 2.0, 9.0]]),
        ([0.0, 0.0, 1.0], [[-1.0, 8.0, -3.0], [0.5, -6.0, 2.0], [f32::INFINITY, 0.0, 0.0]]),
        ([0.0, 0.0, 1.0], [[-0.0, 0.0, -0.0], [1e-30, -1e30, 4.0], [2.0, 3.0, 4.0]]),
    ]);
    let m = Mesh::from_stl(&bytes, false, &face_normal).unwrap();
    let (min, max) = bounds(&m);
    for p in positions(&m) {
        for i in 0..3 {
            assert!(min[i] <= p[i] && p[i] <= max[i], "{:?} outside {:?}..{:?}", p, min, max);
        }
    }
    assert_eq!(max[0], f32::INFINITY);
    assert_eq!(min[1], -1e30);
}

#[test]
fn error_messages() {
    assert_eq!(MeshError::EmptyModel.message(), "Empty Model");
    assert_eq!(MeshError::EmptyMesh.message(), "Empty Mesh");
    assert_eq!(MeshError::NoMeshData.message(), "No mesh data found in 3MF file");
    assert_eq!(MeshError::Read("bad file".to_string()).message(), "bad file");
    let e = "x".parse::<usize>().unwrap_err().to_string();
    assert_eq!(MeshError::InvalidIndex(stl_thumb::text::IntError::InvalidDigit).message(), e);
}

#[test]
fn stl_first_triangle_unreadable() {
    let text = "solid t\n  facet normal a b c\n";
    assert!(matches!(Mesh::from_stl(text.as_bytes(), false, &face_normal), Err(MeshError::UnreadableFirstTriangle(_))));
}

#[test]
fn stl_error_after_the_first_triangle() {
    let text = ASCII_STL.replace("endsolid test", "  facet normal x y z\nendsolid test");
    assert!(matches!(Mesh::from_stl(text.as_bytes(), false, &face_normal), Err(MeshError::Read(_))));
}

#[test]
fn three_mf_bad_triangle_index_text() {
    let body = "<object id=\"1\"><mesh><vertices><vertex x=\"0\" y=\"0\" z=\"0\"/></vertices><triangles><triangle v1=\"0\" v2=\"-1\" v3=\"0\"/></triangles></mesh></object>";
    let bytes = package(&[("3D/3dmodel.model", model_xml(body))]);
    assert!(matches!(
        Mesh::from_3mf_raw(&bytes, false, &face_normal, &parse_coordinate),
        Err(MeshError::InvalidIndex(stl_thumb::text::IntError::InvalidDigit))
    ));
}

fn read_message(r: Result<Mesh, MeshError>) -> String {
    match r {
        Err(MeshError::Read(m)) => m,
        _ => panic!("expected a read error"),
    }
}

#[test]
fn stl_read_error_carries_the_reader_message() {
    let mut cursor = std::io::Cursor::new(b"abc".to_vec());
    let expected = stl_io::create_stl_reader(&mut cursor).err().unwrap().to_string();
    assert_eq!(read_message(Mesh::from_stl(b"abc", false, &face_normal)), expected);
}

#[test]
fn obj_read_error_carries_the_reader_message() {
    let text = "v 0 0 0\nf 1 2 3\n";
    let options = tobj::LoadOptions { single_index: true, triangulate: true, ..tobj::LoadOptions::default() };
    let expected = tobj::load_obj_buf(&mut std::io::Cursor::new(text.as_bytes()), &options, |_| Ok(Default::default()))
        .err()
        .map(|e| e.to_string());
    match expected {
        Some(message) => assert_eq!(read_message(Mesh::from_obj(text.as_bytes(), false, &face_normal)), message),
        None => assert!(matches!(Mesh::from_obj(text.as_bytes(), false, &face_normal), Err(MeshError::BadObjIndex))),
    }
}

#[test]
fn three_mf_read_error_carries_the_zip_message() {
    let expected = zip::ZipArchive::new(std::io::Cursor::new(b"not a zip".to_vec())).err().unwrap().to_string();
    assert_eq!(read_message(Mesh::from_3mf_raw(b"not a zip", false, &face_normal, &parse_coordinate)), expected);
    let full = read_message(Mesh::from_3mf(b"not a zip", false, &face_normal, &narrow));
    let expected_full = threemf::read(std::io::Cursor::new(b"not a zip".to_vec())).err().unwrap().to_string();
    assert_eq!(full, expected_full);
}

#[test]
fn three_mf_raw_ignores_recalculation() {
    let bytes = package(&[("3D/3dmodel.model", model_xml(TETRA_OBJECT))]);
    let a = Mesh::from_3mf_raw(&bytes, false, &face_normal, &parse_coordinate).unwrap();
    let b = Mesh::from_3mf_raw(&bytes, true, &face_normal, &parse_coordinate).unwrap();
    assert_eq!(a.vertices, b.vertices);
    assert_eq!(a.normals, b.normals);
    assert_eq!(a.bounds, b.bounds);
    assert_eq!(a.model_had_normals, b.model_had_normals);
}
