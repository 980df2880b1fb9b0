use vstd::prelude::*;
use crate::geom::{bounds_spec, BoundsInfo, RawVertex, V3i32};
use crate::tess::flat_samples;

verus! {

/// Number of opaque physics bytes carried with every mesh (mass, inertia
/// and the like). The codec places them but never interprets them.
pub const PHYSICS_BYTES: usize = 52;

/// Number of equipment slots in a model's fixed slot table.
pub const NUM_SLOTS: usize = 3;

/// One triangle of a render mesh: three position indices, three normal
/// indices and a material tag. Every index must stay below the length of
/// the array it points into.
#[derive(Clone, Copy, Debug, PartialEq, Eq, Structural)]
pub struct Triangle {
    pub p0: u32,
    pub p1: u32,
    pub p2: u32,
    pub n0: u32,
    pub n1: u32,
    pub n2: u32,
    pub material: u32,
}

/// One polygon of the low-poly collision shape: four position indices, a
/// compact flat normal and a precomputed middle point.
#[derive(Clone, Copy, Debug, PartialEq, Eq, Structural)]
pub struct CollisionQuad {
    pub i0: u32,
    pub i1: u32,
    pub i2: u32,
    pub i3: u32,
    pub flat_normal: RawVertex,
    pub middle: RawVertex,
}

/// A collision polygon in its derived in-memory form. `samples_start ..
/// samples_end` indexes the shape's flat sample list; the normal and
/// middle stay in fixed-point form (dividing the normal by the format's
/// normalizer constant is the renderer's business).
#[derive(Clone, Copy, Debug, PartialEq, Eq, Structural)]
pub struct Polygon {
    pub middle: RawVertex,
    pub normal: RawVertex,
    pub samples_start: usize,
    pub samples_end: usize,
}

/// An attachment descriptor of one equipment slot.
#[derive(Clone, Copy, Debug, PartialEq, Eq, Structural)]
pub struct SlotInfo {
    pub pos: V3i32,
    pub angle: i32,
}

/// The paint scheme pair carried in the trailing scalar fields.
#[derive(Clone, Copy, Debug, PartialEq, Eq, Structural)]
pub struct ColorPair {
    pub main: u32,
    pub shade: u32,
}

/// A rigid body, wheel or debris mesh, with its derived bounds.
pub struct Mesh {
    pub positions: Vec<RawVertex>,
    pub normals: Vec<RawVertex>,
    pub triangles: Vec<Triangle>,
    pub parent_offset: V3i32,
    pub physics: Vec<u8>,
    pub bounds: BoundsInfo,
}

/// The mathematical value of a `Mesh`.
pub ghost struct MeshV {
    pub positions: Seq<RawVertex>,
    pub normals: Seq<RawVertex>,
    pub triangles: Seq<Triangle>,
    pub parent_offset: V3i32,
    pub physics: Seq<u8>,
    pub bounds: BoundsInfo,
}

impl View for Mesh {
    type V = MeshV;

    open spec fn view(&self) -> MeshV {
        MeshV {
            positions: self.positions@,
            normals: self.normals@,
            triangles: self.triangles@,
            parent_offset: self.parent_offset,
            physics: self.physics@,
            bounds: self.bounds,
        }
    }
}

/// A collision shape: the raw quad source data (which alone round-trips
/// through the binary format) plus the derived polygon and sample lists.
pub struct Shape {
    pub positions: Vec<RawVertex>,
    pub quads: Vec<CollisionQuad>,
    pub polygons: Vec<Polygon>,
    pub samples: Vec<RawVertex>,
}

/// The mathematical value of a `Shape`.
pub ghost struct ShapeV {
    pub positions: Seq<RawVertex>,
    pub quads: Seq<CollisionQuad>,
    pub polygons: Seq<Polygon>,
    pub samples: Seq<RawVertex>,
}

impl View for Shape {
    type V = ShapeV;

    open spec fn view(&self) -> ShapeV {
        ShapeV {
            positions: self.positions@,
            quads: self.quads@,
            polygons: self.polygons@,
            samples: self.samples@,
        }
    }
}

/// A debris piece: a render mesh paired with its own collision shape.
pub struct Debrie {
    pub mesh: Mesh,
    pub shape: Shape,
}

/// The mathematical value of a `Debrie`.
pub ghost struct DebrieV {
    pub mesh: MeshV,
    pub shape: ShapeV,
}

impl View for Debrie {
    type V = DebrieV;

    open spec fn view(&self) -> DebrieV {
        DebrieV { mesh: self.mesh@, shape: self.shape@ }
    }
}

/// A whole model: body, collision shape, optional wheel meshes, debris
/// pieces, the fixed slot table and the trailing scalar fields.
pub struct Model {
    pub body: Mesh,
    pub shape: Shape,
    pub wheels: Vec<Option<Mesh>>,
    pub debris: Vec<Debrie>,
    pub slots: Vec<Option<SlotInfo>>,
    pub dimensions: V3i32,
    pub max_radius: u32,
    pub color: ColorPair,
}

/// The mathematical value of a `Model`.
pub ghost struct ModelV {
    pub body: MeshV,
    pub shape: ShapeV,
    pub wheels: Seq<Option<MeshV>>,
    pub debris: Seq<DebrieV>,
    pub slots: Seq<Option<SlotInfo>>,
    pub dimensions: V3i32,
    pub max_radius: u32,
    pub color: ColorPair,
}

pub open spec fn wheels_view(w: Seq<Option<Mesh>>) -> Seq<Option<MeshV>> {
    Seq::new(
        w.len(),
        |i: int|
            match w[i] {
                Some(m) => Some(m@),
                None => None,
            },
    )
}

pub open spec fn debris_view(d: Seq<Debrie>) -> Seq<DebrieV> {
    Seq::new(d.len(), |i: int| d[i]@)
}

impl View for Model {
    type V = ModelV;

    open spec fn view(&self) -> ModelV {
        ModelV {
            body: self.body@,
            shape: self.shape@,
            wheels: wheels_view(self.wheels@),
            debris: debris_view(self.debris@),
            slots: self.slots@,
            dimensions: self.dimensions,
            max_radius: self.max_radius,
            color: self.color,
        }
    }
}

/// The four corners a quad selects from a shape's position array.
pub open spec fn quad_corners(positions: Seq<RawVertex>, q: CollisionQuad) -> Seq<RawVertex> {
    seq![
        positions[q.i0 as int],
        positions[q.i1 as int],
        positions[q.i2 as int],
        positions[q.i3 as int],
    ]
}

/// The flat sample list a decode derives: each quad contributes its four
/// tessellated samples, in quad order.
pub open spec fn samples_of(positions: Seq<RawVertex>, quads: Seq<CollisionQuad>) -> Seq<RawVertex>
    decreases quads.len(),
{
    if quads.len() == 0 {
        Seq::empty()
    } else {
        samples_of(positions, quads.drop_last()) + flat_samples(
            quad_corners(positions, quads.last()),
        )
    }
}

/// The polygon list a decode derives: one polygon per quad, its sample
/// range the `i`-th block of four, contiguous and in quad order.
pub open spec fn polygons_of(quads: Seq<CollisionQuad>) -> Seq<Polygon> {
    Seq::new(
        quads.len(),
        |i: int|
            Polygon {
                middle: quads[i].middle,
                normal: quads[i].flat_normal,
                samples_start: (4 * i) as usize,
                samples_end: (4 * i + 4) as usize,
            },
    )
}

pub proof fn lemma_samples_of_len(positions: Seq<RawVertex>, quads: Seq<CollisionQuad>)
    ensures
        samples_of(positions, quads).len() == 4 * quads.len(),
    decreases quads.len(),
{
    if quads.len() > 0 {
        lemma_samples_of_len(positions, quads.drop_last());
    }
}

/// Structural well-formedness of a mesh: at least one vertex, counts that
/// fit the format's 32-bit fields, a full physics block, and every
/// triangle index in range.
pub open spec fn mesh_wf(m: MeshV) -> bool {
    &&& 1 <= m.positions.len() < 0x1_0000_0000
    &&& m.normals.len() < 0x1_0000_0000
    &&& m.triangles.len() < 0x1_0000_0000
    &&& m.physics.len() == PHYSICS_BYTES
    &&& forall|i: int|
        0 <= i < m.triangles.len() ==> {
            &&& (#[trigger] m.triangles[i]).p0 < m.positions.len()
            &&& m.triangles[i].p1 < m.positions.len()
            &&& m.triangles[i].p2 < m.positions.len()
            &&& m.triangles[i].n0 < m.normals.len()
            &&& m.triangles[i].n1 < m.normals.len()
            &&& m.triangles[i].n2 < m.normals.len()
        }
}

/// A mesh whose derived bounds agree with its vertex set.
pub open spec fn mesh_canonical(m: MeshV) -> bool {
    m.bounds == bounds_spec(m.positions)
}

/// Structural well-formedness of a shape: counts in range and every quad
/// index in range. A shape may be empty.
pub open spec fn shape_wf(s: ShapeV) -> bool {
    &&& s.positions.len() < 0x1_0000_0000
    &&& s.quads.len() < 0x1_0000_0000
    &&& forall|i: int|
        0 <= i < s.quads.len() ==> {
            &&& (#[trigger] s.quads[i]).i0 < s.positions.len()
            &&& s.quads[i].i1 < s.positions.len()
            &&& s.quads[i].i2 < s.positions.len()
            &&& s.quads[i].i3 < s.positions.len()
        }
}

/// A shape whose derived polygons and samples agree with its quads:
/// ranges contiguous, non-overlapping, in quad order, four samples each.
pub open spec fn shape_canonical(s: ShapeV) -> bool {
    &&& s.polygons == polygons_of(s.quads)
    &&& s.samples == samples_of(s.positions, s.quads)
}

/// Structural well-formedness of a whole model.
pub open spec fn model_wf(m: ModelV) -> bool {
    &&& mesh_wf(m.body)
    &&& shape_wf(m.shape)
    &&& m.wheels.len() < 0x1_0000_0000
    &&& m.debris.len() < 0x1_0000_0000
    &&& m.slots.len() == NUM_SLOTS
    &&& forall|i: int|
        0 <= i < m.wheels.len() ==> match #[trigger] m.wheels[i] {
            Some(w) => mesh_wf(w),
            None => true,
        }
    &&& forall|i: int|
        0 <= i < m.debris.len() ==> mesh_wf((#[trigger] m.debris[i]).mesh) && shape_wf(
            m.debris[i].shape,
        )
}

/// A model whose derived fields all agree with their sources; only such
/// models come out of a decode.
pub open spec fn model_canonical(m: ModelV) -> bool {
    &&& mesh_canonical(m.body)
    &&& shape_canonical(m.shape)
    &&& forall|i: int|
        0 <= i < m.wheels.len() ==> match #[trigger] m.wheels[i] {
            Some(w) => mesh_canonical(w),
            None => true,
        }
    &&& forall|i: int|
        0 <= i < m.debris.len() ==> mesh_canonical((#[trigger] m.debris[i]).mesh)
            && shape_canonical(m.debris[i].shape)
}

} // verus!
