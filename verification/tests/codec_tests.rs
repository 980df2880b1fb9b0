use asset_codec::codec::{decode_model, encode_model};
use asset_codec::error::Error;
use asset_codec::geom::{compute_bounds, RawVertex, V3i32};
use asset_codec::model::{
    CollisionQuad, ColorPair, Debrie, Mesh, Model, Polygon, Shape, SlotInfo, Triangle,
    NUM_SLOTS, PHYSICS_BYTES,
};
use asset_codec::tess::Tessellator;

fn rv(x: i8, y: i8, z: i8) -> RawVertex {
    RawVertex { x, y, z }
}

fn small_mesh() -> Mesh {
    let positions = vec![rv(0, 0, 0), rv(4, 0, 0), rv(0, 3, 0)];
    let normals = vec![rv(0, 0, 127)];
    let triangles = vec![Triangle { p0: 0, p1: 1, p2: 2, n0: 0, n1: 0, n2: 0, material: 7 }];
    let bounds = compute_bounds(&positions).unwrap();
    Mesh {
        positions,
        normals,
        triangles,
        parent_offset: V3i32 { x: 1, y: -2, z: 3 },
        physics: vec![9u8; PHYSICS_BYTES],
        bounds,
    }
}

fn small_shape() -> Shape {
    let positions = vec![rv(10, 0, 0), rv(0, 10, 0), rv(-10, 0, 0), rv(0, -10, 0)];
    let quad = CollisionQuad {
        i0: 0,
        i1: 1,
        i2: 2,
        i3: 3,
        flat_normal: rv(0, 0, 124),
        middle: rv(0, 0, 0),
    };
    let corners = vec![positions[0], positions[1], positions[2], positions[3]];
    let mut tess = Tessellator::new();
    let samples = tess.tessellate(&corners, quad.middle).to_vec();
    let polygons = vec![Polygon {
        middle: quad.middle,
        normal: quad.flat_normal,
        samples_start: 0,
        samples_end: 4,
    }];
    Shape { positions, quads: vec![quad], polygons, samples }
}

fn small_model() -> Model {
    Model {
        body: small_mesh(),
        shape: small_shape(),
        wheels: vec![None, Some(small_mesh())],
        debris: vec![Debrie {
            mesh: small_mesh(),
            shape: Shape {
                positions: Vec::new(),
                quads: Vec::new(),
                polygons: Vec::new(),
                samples: Vec::new(),
            },
        }],
        slots: vec![
            Some(SlotInfo { pos: V3i32 { x: 5, y: 6, z: 7 }, angle: -90 }),
            None,
            None,
        ],
        dimensions: V3i32 { x: 4, y: 3, z: 0 },
        max_radius: 5,
        color: ColorPair { main: 11, shade: 22 },
    }
}

fn assert_mesh_eq(a: &Mesh, b: &Mesh) {
    assert_eq!(a.positions, b.positions);
    assert_eq!(a.normals, b.normals);
    assert_eq!(a.triangles, b.triangles);
    assert_eq!(a.parent_offset, b.parent_offset);
    assert_eq!(a.physics, b.physics);
    assert_eq!(a.bounds, b.bounds);
}

fn assert_shape_eq(a: &Shape, b: &Shape) {
    assert_eq!(a.positions, b.positions);
    assert_eq!(a.quads, b.quads);
    assert_eq!(a.polygons, b.polygons);
    assert_eq!(a.samples, b.samples);
}

#[test]
fn model_binary_round_trip() {
    let m = small_model();
    let bytes = encode_model(&m);
    let back = decode_model(&bytes).unwrap();
    assert_mesh_eq(&back.body, &m.body);
    assert_shape_eq(&back.shape, &m.shape);
    assert_eq!(back.wheels.len(), 2);
    assert!(back.wheels[0].is_none());
    assert_mesh_eq(back.wheels[1].as_ref().unwrap(), m.wheels[1].as_ref().unwrap());
    assert_eq!(back.debris.len(), 1);
    assert_mesh_eq(&back.debris[0].mesh, &m.debris[0].mesh);
    assert_shape_eq(&back.debris[0].shape, &m.debris[0].shape);
    assert_eq!(back.slots, m.slots);
    assert_eq!(back.dimensions, m.dimensions);
    assert_eq!(back.max_radius, m.max_radius);
    assert_eq!(back.color, m.color);
}

#[test]
fn decode_is_deterministic() {
    let bytes = encode_model(&small_model());
    let a = decode_model(&bytes).unwrap();
    let b = decode_model(&bytes).unwrap();
    assert_mesh_eq(&a.body, &b.body);
    assert_shape_eq(&a.shape, &b.shape);
    assert_eq!(a.slots, b.slots);
    assert_eq!(a.max_radius, b.max_radius);
}

#[test]
fn truncated_mid_body_mesh_fails() {
    let bytes = encode_model(&small_model());
    // Cut inside the body mesh's vertex section: after the three counts
    // and one vertex, well before the body section ends.
    let cut = bytes[..16].to_vec();
    assert!(matches!(decode_model(&cut), Err(Error::TruncatedInput)));
    // Any prefix of a valid stream never yields a model.
    for k in 0..bytes.len() {
        assert!(decode_model(&bytes[..k].to_vec()).is_err());
    }
}

#[test]
fn trailing_bytes_are_rejected() {
    let mut bytes = encode_model(&small_model());
    bytes.push(0);
    assert!(matches!(decode_model(&bytes), Err(Error::MalformedGeometry)));
}

fn push_u32(out: &mut Vec<u8>, x: u32) {
    out.extend_from_slice(&x.to_le_bytes());
}

#[test]
fn index_one_past_end_fails() {
    // A body mesh with one position, one normal, and a triangle whose
    // first position index equals the vertex count.
    let mut bytes = Vec::new();
    push_u32(&mut bytes, 1); // positions
    push_u32(&mut bytes, 1); // normals
    push_u32(&mut bytes, 1); // triangles
    bytes.extend_from_slice(&[0, 0, 0]); // the position
    bytes.extend_from_slice(&[0, 0, 0]); // the normal
    push_u32(&mut bytes, 1); // p0 == positions.len(): out of range
    for _ in 0..6 {
        push_u32(&mut bytes, 0);
    }
    assert!(matches!(decode_model(&bytes), Err(Error::MalformedGeometry)));
}

#[test]
fn zero_vertex_mesh_fails() {
    let mut bytes = Vec::new();
    push_u32(&mut bytes, 0);
    push_u32(&mut bytes, 0);
    push_u32(&mut bytes, 0);
    assert!(matches!(decode_model(&bytes), Err(Error::EmptyGeometry)));
}

#[test]
fn slot_table_round_trips() {
    let m = small_model();
    let bytes = encode_model(&m);
    let back = decode_model(&bytes).unwrap();
    assert_eq!(back.slots.len(), NUM_SLOTS);
    assert_eq!(
        back.slots[0],
        Some(SlotInfo { pos: V3i32 { x: 5, y: 6, z: 7 }, angle: -90 })
    );
    assert_eq!(back.slots[1], None);
}
