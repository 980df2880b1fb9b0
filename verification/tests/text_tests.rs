use asset_codec::codec::{decode_model, encode_model};
use asset_codec::error::Error;
use asset_codec::geom::{compute_bounds, RawVertex, V3i32};
use asset_codec::model::{Mesh, Model, Shape, Triangle, NUM_SLOTS, PHYSICS_BYTES};
use asset_codec::textmesh::{export_text_mesh, import_text_mesh};

fn rv(x: i8, y: i8, z: i8) -> RawVertex {
    RawVertex { x, y, z }
}

fn body_only_model() -> Model {
    let positions = vec![rv(0, 0, 0), rv(4, 0, 0), rv(0, 3, 0)];
    let bounds = compute_bounds(&positions).unwrap();
    Model {
        body: Mesh {
            positions,
            normals: vec![rv(0, 0, 127), rv(-128, 1, 2)],
            triangles: vec![Triangle { p0: 0, p1: 1, p2: 2, n0: 0, n1: 1, n2: 0, material: 3 }],
            parent_offset: V3i32 { x: 0, y: 0, z: 0 },
            physics: vec![0u8; PHYSICS_BYTES],
            bounds,
        },
        shape: Shape {
            positions: Vec::new(),
            quads: Vec::new(),
            polygons: Vec::new(),
            samples: Vec::new(),
        },
        wheels: Vec::new(),
        debris: Vec::new(),
        slots: vec![None, None, None],
        dimensions: V3i32 { x: 4, y: 3, z: 0 },
        max_radius: 5,
        color: asset_codec::model::ColorPair { main: 0, shade: 0 },
    }
}

#[test]
fn text_lines_are_readable() {
    let (text, _sidecar) = export_text_mesh(body_only_model());
    let s = String::from_utf8(text).unwrap();
    let lines: Vec<&str> = s.lines().collect();
    assert_eq!(lines[0], "m 0000000003 0000000002 0000000001");
    assert_eq!(lines[1], "v +000 +000 +000");
    assert_eq!(lines[2], "v +004 +000 +000");
    assert_eq!(lines[3], "v +000 +003 +000");
    assert_eq!(lines[4], "n +000 +000 +127");
    assert_eq!(lines[5], "n -128 +001 +002");
    assert_eq!(
        lines[6],
        "f 0000000000 0000000001 0000000002 0000000000 0000000001 0000000000 0000000003"
    );
    assert_eq!(lines.len(), 7);
}

#[test]
fn import_without_sidecar_uses_defaults() {
    let (text, _sidecar) = export_text_mesh(body_only_model());
    let m = import_text_mesh(&text, None).unwrap();
    // Zeroed physics, empty wheel/debris tables, empty slot table.
    assert_eq!(m.body.physics, vec![0u8; PHYSICS_BYTES]);
    assert!(m.wheels.is_empty());
    assert!(m.debris.is_empty());
    assert_eq!(m.slots.len(), NUM_SLOTS);
    assert!(m.slots.iter().all(|s| s.is_none()));
    assert_eq!(m.body.parent_offset, V3i32 { x: 0, y: 0, z: 0 });
    assert_eq!(m.color.main, 0);
    assert_eq!(m.color.shade, 0);
    // Geometry comes back exactly; dimensions and radius from the bounds.
    let orig = body_only_model();
    assert_eq!(m.body.positions, orig.body.positions);
    assert_eq!(m.body.normals, orig.body.normals);
    assert_eq!(m.body.triangles, orig.body.triangles);
    assert_eq!(m.dimensions, V3i32 { x: 4, y: 3, z: 0 });
    assert_eq!(m.max_radius, 5);
    // The collision shape is not part of the text interchange.
    assert!(m.shape.positions.is_empty());
    assert!(m.shape.quads.is_empty());
}

#[test]
fn import_with_sidecar_restores_metadata() {
    let mut m = body_only_model();
    m.body.physics = vec![7u8; PHYSICS_BYTES];
    m.body.parent_offset = V3i32 { x: 9, y: 8, z: 7 };
    m.color.main = 5;
    let (text, sidecar) = export_text_mesh(m);
    let back = import_text_mesh(&text, Some(sidecar)).unwrap();
    assert_eq!(back.body.physics, vec![7u8; PHYSICS_BYTES]);
    assert_eq!(back.body.parent_offset, V3i32 { x: 9, y: 8, z: 7 });
    assert_eq!(back.color.main, 5);
    // And the rebuilt model still encodes to a valid binary stream.
    let bytes = encode_model(&back);
    assert!(decode_model(&bytes).is_ok());
}

#[test]
fn malformed_text_is_rejected() {
    let (text, _) = export_text_mesh(body_only_model());
    // Damage a digit into a letter.
    let mut bad = text.clone();
    bad[2] = b'x';
    assert!(matches!(import_text_mesh(&bad, None), Err(Error::MalformedGeometry)));
    // Trailing garbage after the last stanza.
    let mut tail = text.clone();
    tail.push(b'!');
    assert!(matches!(import_text_mesh(&tail, None), Err(Error::MalformedGeometry)));
}

#[test]
fn text_with_no_vertices_is_empty_geometry() {
    let text = b"m 0000000000 0000000000 0000000000\n".to_vec();
    assert!(matches!(import_text_mesh(&text, None), Err(Error::EmptyGeometry)));
}

#[test]
fn text_index_out_of_range_is_rejected() {
    let text = b"m 0000000001 0000000001 0000000001\nv +000 +000 +000\nn +000 +000 +000\nf 0000000001 0000000000 0000000000 0000000000 0000000000 0000000000 0000000000\n".to_vec();
    assert!(matches!(import_text_mesh(&text, None), Err(Error::MalformedGeometry)));
}
