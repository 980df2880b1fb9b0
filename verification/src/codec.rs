use vstd::prelude::*;
use crate::bytes::{
    i32_le, lemma_append_skip, read_byte_block, read_i32, read_u32, read_u8, read_vertex,
    write_i32, write_u32, write_vertex, lemma_parse_bytes_round_trip, lemma_parse_i32_round_trip,
    lemma_parse_u32_round_trip, lemma_parse_vertex_round_trip, parse_bytes, parse_i32, parse_u32,
    parse_u8, parse_vertex, u32_le, vertex_bytes,
};
use crate::error::Error;
use crate::geom::{bounds_spec, compute_bounds, RawVertex, V3i32};
use crate::model::{
    debris_view, mesh_canonical, mesh_wf, model_canonical, model_wf, polygons_of, quad_corners,
    samples_of, shape_canonical, shape_wf, wheels_view, CollisionQuad, ColorPair, Debrie, DebrieV,
    Mesh, MeshV, Model, ModelV, Polygon, Shape, ShapeV, SlotInfo, Triangle, NUM_SLOTS,
    PHYSICS_BYTES,
};
use crate::tess::{flat_samples, Tessellator};

verus! {

// ======================= Spec encoders =======================
// The binary layout, section by section, little-endian throughout:
// a mesh is three 32-bit counts, the positions (three signed bytes
// each), the normals, the triangles (seven 32-bit fields each), the
// parent offset (three signed 32-bit fields) and the opaque physics
// block; a shape is two counts, its positions and its quads (four
// 32-bit indices, flat normal, middle); a model is body, shape,
// count-prefixed wheel table (a presence byte before each present
// mesh), count-prefixed debris list, the fixed slot table, then
// dimensions, the maximum radius and the color pair. Derived fields
// (bounds, polygons, samples) are never emitted.

pub open spec fn enc_u32s(xs: Seq<u32>) -> Seq<u8>
    decreases xs.len(),
{
    if xs.len() == 0 {
        Seq::empty()
    } else {
        u32_le(xs[0]) + enc_u32s(xs.drop_first())
    }
}

pub open spec fn enc_vertices(vs: Seq<RawVertex>) -> Seq<u8>
    decreases vs.len(),
{
    if vs.len() == 0 {
        Seq::empty()
    } else {
        vertex_bytes(vs[0]) + enc_vertices(vs.drop_first())
    }
}

pub open spec fn tri_fields(t: Triangle) -> Seq<u32> {
    seq![t.p0, t.p1, t.p2, t.n0, t.n1, t.n2, t.material]
}

pub open spec fn enc_triangle(t: Triangle) -> Seq<u8> {
    enc_u32s(tri_fields(t))
}

pub open spec fn enc_triangles(ts: Seq<Triangle>) -> Seq<u8>
    decreases ts.len(),
{
    if ts.len() == 0 {
        Seq::empty()
    } else {
        enc_triangle(ts[0]) + enc_triangles(ts.drop_first())
    }
}

pub open spec fn quad_index_fields(q: CollisionQuad) -> Seq<u32> {
    seq![q.i0, q.i1, q.i2, q.i3]
}

pub open spec fn enc_quad(q: CollisionQuad) -> Seq<u8> {
    enc_u32s(quad_index_fields(q)) + vertex_bytes(q.flat_normal) + vertex_bytes(q.middle)
}

pub open spec fn enc_quads(qs: Seq<CollisionQuad>) -> Seq<u8>
    decreases qs.len(),
{
    if qs.len() == 0 {
        Seq::empty()
    } else {
        enc_quad(qs[0]) + enc_quads(qs.drop_first())
    }
}

pub open spec fn enc_v3i32(v: V3i32) -> Seq<u8> {
    i32_le(v.x) + i32_le(v.y) + i32_le(v.z)
}

pub open spec fn enc_mesh(m: MeshV) -> Seq<u8> {
    u32_le(m.positions.len() as u32) + u32_le(m.normals.len() as u32) + u32_le(
        m.triangles.len() as u32,
    ) + enc_vertices(m.positions) + enc_vertices(m.normals) + enc_triangles(m.triangles)
        + enc_v3i32(m.parent_offset) + m.physics
}

pub open spec fn enc_shape(s: ShapeV) -> Seq<u8> {
    u32_le(s.positions.len() as u32) + u32_le(s.quads.len() as u32) + enc_vertices(s.positions)
        + enc_quads(s.quads)
}

pub open spec fn enc_wheel(w: Option<MeshV>) -> Seq<u8> {
    match w {
        None => seq![0u8],
        Some(m) => seq![1u8] + enc_mesh(m),
    }
}

pub open spec fn enc_wheels(ws: Seq<Option<MeshV>>) -> Seq<u8>
    decreases ws.len(),
{
    if ws.len() == 0 {
        Seq::empty()
    } else {
        enc_wheel(ws[0]) + enc_wheels(ws.drop_first())
    }
}

pub open spec fn enc_debrie(d: DebrieV) -> Seq<u8> {
    enc_mesh(d.mesh) + enc_shape(d.shape)
}

pub open spec fn enc_debris(ds: Seq<DebrieV>) -> Seq<u8>
    decreases ds.len(),
{
    if ds.len() == 0 {
        Seq::empty()
    } else {
        enc_debrie(ds[0]) + enc_debris(ds.drop_first())
    }
}

pub open spec fn enc_slot(s: Option<SlotInfo>) -> Seq<u8> {
    match s {
        None => seq![0u8],
        Some(si) => seq![1u8] + enc_v3i32(si.pos) + i32_le(si.angle),
    }
}

pub open spec fn enc_slots(ss: Seq<Option<SlotInfo>>) -> Seq<u8>
    decreases ss.len(),
{
    if ss.len() == 0 {
        Seq::empty()
    } else {
        enc_slot(ss[0]) + enc_slots(ss.drop_first())
    }
}

pub open spec fn enc_model(m: ModelV) -> Seq<u8> {
    enc_mesh(m.body) + enc_shape(m.shape) + u32_le(m.wheels.len() as u32) + enc_wheels(m.wheels)
        + u32_le(m.debris.len() as u32) + enc_debris(m.debris) + enc_slots(m.slots) + enc_v3i32(
        m.dimensions,
    ) + u32_le(m.max_radius) + u32_le(m.color.main) + u32_le(m.color.shade)
}

// ======================= Spec parsers =======================
// Suffix style: each parser consumes a prefix and yields the value and
// the remaining bytes, or the error the decode owes on that input.

pub open spec fn parse_u32s(s: Seq<u8>, n: nat) -> Result<(Seq<u32>, Seq<u8>), Error>
    decreases n,
{
    if n == 0 {
        Ok((Seq::empty(), s))
    } else {
        match parse_u32(s) {
            Ok((x, s1)) => match parse_u32s(s1, (n - 1) as nat) {
                Ok((xs, s2)) => Ok((seq![x] + xs, s2)),
                Err(e) => Err(e),
            },
            Err(e) => Err(e),
        }
    }
}

pub open spec fn parse_vertices(s: Seq<u8>, n: nat) -> Result<(Seq<RawVertex>, Seq<u8>), Error>
    decreases n,
{
    if n == 0 {
        Ok((Seq::empty(), s))
    } else {
        match parse_vertex(s) {
            Ok((v, s1)) => match parse_vertices(s1, (n - 1) as nat) {
                Ok((vs, s2)) => Ok((seq![v] + vs, s2)),
                Err(e) => Err(e),
            },
            Err(e) => Err(e),
        }
    }
}

/// One triangle, with its indices validated against the section's
/// declared counts: an out-of-range index is `MalformedGeometry`.
pub open spec fn parse_triangle(s: Seq<u8>, npos: int, nnorm: int) -> Result<
    (Triangle, Seq<u8>),
    Error,
> {
    match parse_u32s(s, 7) {
        Ok((xs, s1)) => if xs[0] < npos && xs[1] < npos && xs[2] < npos && xs[3] < nnorm && xs[4]
            < nnorm && xs[5] < nnorm {
            Ok(
                (
                    Triangle {
                        p0: xs[0],
                        p1: xs[1],
                        p2: xs[2],
                        n0: xs[3],
                        n1: xs[4],
                        n2: xs[5],
                        material: xs[6],
                    },
                    s1,
                ),
            )
        } else {
            Err(Error::MalformedGeometry)
        },
        Err(e) => Err(e),
    }
}

pub open spec fn parse_triangles(s: Seq<u8>, n: nat, npos: int, nnorm: int) -> Result<
    (Seq<Triangle>, Seq<u8>),
    Error,
>
    decreases n,
{
    if n == 0 {
        Ok((Seq::empty(), s))
    } else {
        match parse_triangle(s, npos, nnorm) {
            Ok((t, s1)) => match parse_triangles(s1, (n - 1) as nat, npos, nnorm) {
                Ok((ts, s2)) => Ok((seq![t] + ts, s2)),
                Err(e) => Err(e),
            },
            Err(e) => Err(e),
        }
    }
}

/// One collision quad, its corner indices validated against the shape's
/// declared vertex count.
pub open spec fn parse_quad(s: Seq<u8>, npos: int) -> Result<(CollisionQuad, Seq<u8>), Error> {
    match parse_u32s(s, 4) {
        Ok((xs, s1)) => match parse_vertex(s1) {
            Ok((fnorm, s2)) => match parse_vertex(s2) {
                Ok((mid, s3)) => if xs[0] < npos && xs[1] < npos && xs[2] < npos && xs[3] < npos {
                    Ok(
                        (
                            CollisionQuad {
                                i0: xs[0],
                                i1: xs[1],
                                i2: xs[2],
                                i3: xs[3],
                                flat_normal: fnorm,
                                middle: mid,
                            },
                            s3,
                        ),
                    )
                } else {
                    Err(Error::MalformedGeometry)
                },
                Err(e) => Err(e),
            },
            Err(e) => Err(e),
        },
        Err(e) => Err(e),
    }
}

pub open spec fn parse_quads(s: Seq<u8>, n: nat, npos: int) -> Result<
    (Seq<CollisionQuad>, Seq<u8>),
    Error,
>
    decreases n,
{
    if n == 0 {
        Ok((Seq::empty(), s))
    } else {
        match parse_quad(s, npos) {
            Ok((q, s1)) => match parse_quads(s1, (n - 1) as nat, npos) {
                Ok((qs, s2)) => Ok((seq![q] + qs, s2)),
                Err(e) => Err(e),
            },
            Err(e) => Err(e),
        }
    }
}

pub open spec fn parse_v3i32(s: Seq<u8>) -> Result<(V3i32, Seq<u8>), Error> {
    match parse_i32(s) {
        Ok((x, s1)) => match parse_i32(s1) {
            Ok((y, s2)) => match parse_i32(s2) {
                Ok((z, s3)) => Ok((V3i32 { x, y, z }, s3)),
                Err(e) => Err(e),
            },
            Err(e) => Err(e),
        },
        Err(e) => Err(e),
    }
}

/// A mesh section. A zero vertex count is `EmptyGeometry` (a mesh always
/// has at least one vertex); the bounds are derived, not read.
pub open spec fn parse_mesh(s: Seq<u8>) -> Result<(MeshV, Seq<u8>), Error> {
    match parse_u32(s) {
        Ok((npos, s1)) => match parse_u32(s1) {
            Ok((nnorm, s2)) => match parse_u32(s2) {
                Ok((ntri, s3)) => if npos == 0 {
                    Err(Error::EmptyGeometry)
                } else {
                    match parse_vertices(s3, npos as nat) {
                        Ok((positions, s4)) => match parse_vertices(s4, nnorm as nat) {
                            Ok((normals, s5)) => match parse_triangles(
                                s5,
                                ntri as nat,
                                npos as int,
                                nnorm as int,
                            ) {
                                Ok((triangles, s6)) => match parse_v3i32(s6) {
                                    Ok((parent_offset, s7)) => match parse_bytes(
                                        s7,
                                        PHYSICS_BYTES as int,
                                    ) {
                                        Ok((physics, s8)) => Ok(
                                            (
                                                MeshV {
                                                    positions,
                                                    normals,
                                                    triangles,
                                                    parent_offset,
                                                    physics,
                                                    bounds: bounds_spec(positions),
                                                },
                                                s8,
                                            ),
                                        ),
                                        Err(e) => Err(e),
                                    },
                                    Err(e) => Err(e),
                                },
                                Err(e) => Err(e),
                            },
                            Err(e) => Err(e),
                        },
                        Err(e) => Err(e),
                    }
                },
                Err(e) => Err(e),
            },
            Err(e) => Err(e),
        },
        Err(e) => Err(e),
    }
}

/// A collision shape section; the polygon and sample lists are derived
/// by the flat tessellation, not read.
pub open spec fn parse_shape(s: Seq<u8>) -> Result<(ShapeV, Seq<u8>), Error> {
    match parse_u32(s) {
        Ok((npos, s1)) => match parse_u32(s1) {
            Ok((nquad, s2)) => match parse_vertices(s2, npos as nat) {
                Ok((positions, s3)) => match parse_quads(s3, nquad as nat, npos as int) {
                    Ok((quads, s4)) => Ok(
                        (
                            ShapeV {
                                positions,
                                quads,
                                polygons: polygons_of(quads),
                                samples: samples_of(positions, quads),
                            },
                            s4,
                        ),
                    ),
                    Err(e) => Err(e),
                },
                Err(e) => Err(e),
            },
            Err(e) => Err(e),
        },
        Err(e) => Err(e),
    }
}

/// One wheel slot: a presence byte, then a mesh if present. Any other
/// flag value is `MalformedGeometry`.
pub open spec fn parse_wheel(s: Seq<u8>) -> Result<(Option<MeshV>, Seq<u8>), Error> {
    match parse_u8(s) {
        Ok((flag, s1)) => if flag == 0 {
            Ok((None, s1))
        } else if flag == 1 {
            match parse_mesh(s1) {
                Ok((m, s2)) => Ok((Some(m), s2)),
                Err(e) => Err(e),
            }
        } else {
            Err(Error::MalformedGeometry)
        },
        Err(e) => Err(e),
    }
}

pub open spec fn parse_wheels(s: Seq<u8>, n: nat) -> Result<(Seq<Option<MeshV>>, Seq<u8>), Error>
    decreases n,
{
    if n == 0 {
        Ok((Seq::empty(), s))
    } else {
        match parse_wheel(s) {
            Ok((w, s1)) => match parse_wheels(s1, (n - 1) as nat) {
                Ok((ws, s2)) => Ok((seq![w] + ws, s2)),
                Err(e) => Err(e),
            },
            Err(e) => Err(e),
        }
    }
}

pub open spec fn parse_debrie(s: Seq<u8>) -> Result<(DebrieV, Seq<u8>), Error> {
    match parse_mesh(s) {
        Ok((mesh, s1)) => match parse_shape(s1) {
            Ok((shape, s2)) => Ok((DebrieV { mesh, shape }, s2)),
            Err(e) => Err(e),
        },
        Err(e) => Err(e),
    }
}

pub open spec fn parse_debris(s: Seq<u8>, n: nat) -> Result<(Seq<DebrieV>, Seq<u8>), Error>
    decreases n,
{
    if n == 0 {
        Ok((Seq::empty(), s))
    } else {
        match parse_debrie(s) {
            Ok((d, s1)) => match parse_debris(s1, (n - 1) as nat) {
                Ok((ds, s2)) => Ok((seq![d] + ds, s2)),
                Err(e) => Err(e),
            },
            Err(e) => Err(e),
        }
    }
}

/// One equipment slot: a presence byte, then a descriptor if present.
pub open spec fn parse_slot(s: Seq<u8>) -> Result<(Option<SlotInfo>, Seq<u8>), Error> {
    match parse_u8(s) {
        Ok((flag, s1)) => if flag == 0 {
            Ok((None, s1))
        } else if flag == 1 {
            match parse_v3i32(s1) {
                Ok((pos, s2)) => match parse_i32(s2) {
                    Ok((angle, s3)) => Ok((Some(SlotInfo { pos, angle }), s3)),
                    Err(e) => Err(e),
                },
                Err(e) => Err(e),
            }
        } else {
            Err(Error::MalformedGeometry)
        },
        Err(e) => Err(e),
    }
}

pub open spec fn parse_slots(s: Seq<u8>, n: nat) -> Result<(Seq<Option<SlotInfo>>, Seq<u8>), Error>
    decreases n,
{
    if n == 0 {
        Ok((Seq::empty(), s))
    } else {
        match parse_slot(s) {
            Ok((sl, s1)) => match parse_slots(s1, (n - 1) as nat) {
                Ok((sls, s2)) => Ok((seq![sl] + sls, s2)),
                Err(e) => Err(e),
            },
            Err(e) => Err(e),
        }
    }
}

/// The whole model stream, section by section in the fixed order.
pub open spec fn parse_model(s: Seq<u8>) -> Result<(ModelV, Seq<u8>), Error> {
    match parse_mesh(s) {
        Ok((body, s1)) => match parse_shape(s1) {
            Ok((shape, s2)) => match parse_u32(s2) {
                Ok((nwheels, s3)) => match parse_wheels(s3, nwheels as nat) {
                    Ok((wheels, s4)) => match parse_u32(s4) {
                        Ok((ndebris, s5)) => match parse_debris(s5, ndebris as nat) {
                            Ok((debris, s6)) => match parse_slots(s6, NUM_SLOTS as nat) {
                                Ok((slots, s7)) => match parse_v3i32(s7) {
                                    Ok((dimensions, s8)) => match parse_u32(s8) {
                                        Ok((max_radius, s9)) => match parse_u32(s9) {
                                            Ok((cmain, s10)) => match parse_u32(s10) {
                                                Ok((cshade, s11)) => Ok(
                                                    (
                                                        ModelV {
                                                            body,
                                                            shape,
                                                            wheels,
                                                            debris,
                                                            slots,
                                                            dimensions,
                                                            max_radius,
                                                            color: ColorPair {
                                                                main: cmain,
                                                                shade: cshade,
                                                            },
                                                        },
                                                        s11,
                                                    ),
                                                ),
                                                Err(e) => Err(e),
                                            },
                                            Err(e) => Err(e),
                                        },
                                        Err(e) => Err(e),
                                    },
                                    Err(e) => Err(e),
                                },
                                Err(e) => Err(e),
                            },
                            Err(e) => Err(e),
                        },
                        Err(e) => Err(e),
                    },
                    Err(e) => Err(e),
                },
                Err(e) => Err(e),
            },
            Err(e) => Err(e),
        },
        Err(e) => Err(e),
    }
}

/// What a whole-buffer decode means: the stream must hold exactly one
/// model; trailing bytes are `MalformedGeometry`.
pub open spec fn spec_decode_model(s: Seq<u8>) -> Result<ModelV, Error> {
    match parse_model(s) {
        Ok((m, rest)) => if rest.len() == 0 {
            Ok(m)
        } else {
            Err(Error::MalformedGeometry)
        },
        Err(e) => Err(e),
    }
}


// ======================= Round-trip lemmas =======================
// Parsing an encoding yields the encoded value and the untouched rest.

pub proof fn lemma_u32s_rt(xs: Seq<u32>, rest: Seq<u8>)
    ensures
        parse_u32s(enc_u32s(xs) + rest, xs.len() as nat) == Ok::<(Seq<u32>, Seq<u8>), Error>(
            (xs, rest),
        ),
    decreases xs.len(),
{
    if xs.len() == 0 {
        assert(enc_u32s(xs) + rest =~= rest);
        assert(xs =~= Seq::<u32>::empty());
    } else {
        let tail = xs.drop_first();
        assert(enc_u32s(xs) + rest =~= u32_le(xs[0]) + (enc_u32s(tail) + rest));
        lemma_parse_u32_round_trip(xs[0], enc_u32s(tail) + rest);
        lemma_u32s_rt(tail, rest);
        assert(seq![xs[0]] + tail =~= xs);
    }
}

pub proof fn lemma_vertices_rt(vs: Seq<RawVertex>, rest: Seq<u8>)
    ensures
        parse_vertices(enc_vertices(vs) + rest, vs.len() as nat) == Ok::<
            (Seq<RawVertex>, Seq<u8>),
            Error,
        >((vs, rest)),
    decreases vs.len(),
{
    if vs.len() == 0 {
        assert(enc_vertices(vs) + rest =~= rest);
        assert(vs =~= Seq::<RawVertex>::empty());
    } else {
        let tail = vs.drop_first();
        assert(enc_vertices(vs) + rest =~= vertex_bytes(vs[0]) + (enc_vertices(tail) + rest));
        lemma_parse_vertex_round_trip(vs[0], enc_vertices(tail) + rest);
        lemma_vertices_rt(tail, rest);
        assert(seq![vs[0]] + tail =~= vs);
    }
}

pub proof fn lemma_triangle_rt(t: Triangle, rest: Seq<u8>, npos: int, nnorm: int)
    requires
        t.p0 < npos,
        t.p1 < npos,
        t.p2 < npos,
        t.n0 < nnorm,
        t.n1 < nnorm,
        t.n2 < nnorm,
    ensures
        parse_triangle(enc_triangle(t) + rest, npos, nnorm) == Ok::<(Triangle, Seq<u8>), Error>(
            (t, rest),
        ),
{
    lemma_u32s_rt(tri_fields(t), rest);
}

pub proof fn lemma_triangles_rt(ts: Seq<Triangle>, rest: Seq<u8>, npos: int, nnorm: int)
    requires
        forall|i: int|
            0 <= i < ts.len() ==> {
                &&& (#[trigger] ts[i]).p0 < npos
                &&& ts[i].p1 < npos
                &&& ts[i].p2 < npos
                &&& ts[i].n0 < nnorm
                &&& ts[i].n1 < nnorm
                &&& ts[i].n2 < nnorm
            },
    ensures
        parse_triangles(enc_triangles(ts) + rest, ts.len() as nat, npos, nnorm) == Ok::<
            (Seq<Triangle>, Seq<u8>),
            Error,
        >((ts, rest)),
    decreases ts.len(),
{
    if ts.len() == 0 {
        assert(enc_triangles(ts) + rest =~= rest);
        assert(ts =~= Seq::<Triangle>::empty());
    } else {
        let tail = ts.drop_first();
        assert(enc_triangles(ts) + rest =~= enc_triangle(ts[0]) + (enc_triangles(tail) + rest));
        lemma_triangle_rt(ts[0], enc_triangles(tail) + rest, npos, nnorm);
        lemma_triangles_rt(tail, rest, npos, nnorm);
        assert(seq![ts[0]] + tail =~= ts);
    }
}

pub proof fn lemma_quad_rt(q: CollisionQuad, rest: Seq<u8>, npos: int)
    requires
        q.i0 < npos,
        q.i1 < npos,
        q.i2 < npos,
        q.i3 < npos,
    ensures
        parse_quad(enc_quad(q) + rest, npos) == Ok::<(CollisionQuad, Seq<u8>), Error>((q, rest)),
{
    let e1 = enc_u32s(quad_index_fields(q));
    let e2 = vertex_bytes(q.flat_normal);
    let e3 = vertex_bytes(q.middle);
    assert(enc_quad(q) + rest =~= e1 + (e2 + (e3 + rest)));
    lemma_u32s_rt(quad_index_fields(q), e2 + (e3 + rest));
    lemma_parse_vertex_round_trip(q.flat_normal, e3 + rest);
    lemma_parse_vertex_round_trip(q.middle, rest);
}

pub proof fn lemma_quads_rt(qs: Seq<CollisionQuad>, rest: Seq<u8>, npos: int)
    requires
        forall|i: int|
            0 <= i < qs.len() ==> {
                &&& (#[trigger] qs[i]).i0 < npos
                &&& qs[i].i1 < npos
                &&& qs[i].i2 < npos
                &&& qs[i].i3 < npos
            },
    ensures
        parse_quads(enc_quads(qs) + rest, qs.len() as nat, npos) == Ok::<
            (Seq<CollisionQuad>, Seq<u8>),
            Error,
        >((qs, rest)),
    decreases qs.len(),
{
    if qs.len() == 0 {
        assert(enc_quads(qs) + rest =~= rest);
        assert(qs =~= Seq::<CollisionQuad>::empty());
    } else {
        let tail = qs.drop_first();
        assert(enc_quads(qs) + rest =~= enc_quad(qs[0]) + (enc_quads(tail) + rest));
        lemma_quad_rt(qs[0], enc_quads(tail) + rest, npos);
        lemma_quads_rt(tail, rest, npos);
        assert(seq![qs[0]] + tail =~= qs);
    }
}

pub proof fn lemma_v3i32_rt(v: V3i32, rest: Seq<u8>)
    ensures
        parse_v3i32(enc_v3i32(v) + rest) == Ok::<(V3i32, Seq<u8>), Error>((v, rest)),
{
    assert(enc_v3i32(v) + rest =~= i32_le(v.x) + (i32_le(v.y) + (i32_le(v.z) + rest)));
    lemma_parse_i32_round_trip(v.x, i32_le(v.y) + (i32_le(v.z) + rest));
    lemma_parse_i32_round_trip(v.y, i32_le(v.z) + rest);
    lemma_parse_i32_round_trip(v.z, rest);
}

#[verifier::rlimit(100)]
pub proof fn lemma_mesh_rt(m: MeshV, rest: Seq<u8>)
    requires
        mesh_wf(m),
        mesh_canonical(m),
    ensures
        parse_mesh(enc_mesh(m) + rest) == Ok::<(MeshV, Seq<u8>), Error>((m, rest)),
{
    let t7 = m.physics + rest;
    let t6 = enc_v3i32(m.parent_offset) + t7;
    let t5 = enc_triangles(m.triangles) + t6;
    let t4 = enc_vertices(m.normals) + t5;
    let t3 = enc_vertices(m.positions) + t4;
    let t2 = u32_le(m.triangles.len() as u32) + t3;
    let t1 = u32_le(m.normals.len() as u32) + t2;
    assert(enc_mesh(m) + rest =~= u32_le(m.positions.len() as u32) + t1);
    lemma_parse_u32_round_trip(m.positions.len() as u32, t1);
    lemma_parse_u32_round_trip(m.normals.len() as u32, t2);
    lemma_parse_u32_round_trip(m.triangles.len() as u32, t3);
    lemma_vertices_rt(m.positions, t4);
    lemma_vertices_rt(m.normals, t5);
    lemma_triangles_rt(m.triangles, t6, m.positions.len() as int, m.normals.len() as int);
    lemma_v3i32_rt(m.parent_offset, t7);
    lemma_parse_bytes_round_trip(m.physics, rest);
    assert(m.positions.len() as u32 as nat == m.positions.len());
    assert(m.normals.len() as u32 as nat == m.normals.len());
    assert(m.triangles.len() as u32 as nat == m.triangles.len());
}

#[verifier::rlimit(100)]
pub proof fn lemma_shape_rt(sh: ShapeV, rest: Seq<u8>)
    requires
        shape_wf(sh),
        shape_canonical(sh),
    ensures
        parse_shape(enc_shape(sh) + rest) == Ok::<(ShapeV, Seq<u8>), Error>((sh, rest)),
{
    let t3 = enc_quads(sh.quads) + rest;
    let t2 = enc_vertices(sh.positions) + t3;
    let t1 = u32_le(sh.quads.len() as u32) + t2;
    assert(enc_shape(sh) + rest =~= u32_le(sh.positions.len() as u32) + t1);
    lemma_parse_u32_round_trip(sh.positions.len() as u32, t1);
    lemma_parse_u32_round_trip(sh.quads.len() as u32, t2);
    lemma_vertices_rt(sh.positions, t3);
    lemma_quads_rt(sh.quads, rest, sh.positions.len() as int);
    assert(sh.positions.len() as u32 as nat == sh.positions.len());
    assert(sh.quads.len() as u32 as nat == sh.quads.len());
}

#[verifier::rlimit(100)]
pub proof fn lemma_wheel_rt(w: Option<MeshV>, rest: Seq<u8>)
    requires
        match w {
            Some(m) => mesh_wf(m) && mesh_canonical(m),
            None => true,
        },
    ensures
        parse_wheel(enc_wheel(w) + rest) == Ok::<(Option<MeshV>, Seq<u8>), Error>((w, rest)),
{
    match w {
        None => {
            assert(enc_wheel(w) + rest =~= seq![0u8] + rest);
            assert((seq![0u8] + rest).skip(1) =~= rest);
        },
        Some(m) => {
            assert(enc_wheel(w) + rest =~= seq![1u8] + (enc_mesh(m) + rest));
            assert((seq![1u8] + (enc_mesh(m) + rest)).skip(1) =~= enc_mesh(m) + rest);
            lemma_mesh_rt(m, rest);
        },
    }
}

#[verifier::rlimit(100)]
pub proof fn lemma_wheels_rt(ws: Seq<Option<MeshV>>, rest: Seq<u8>)
    requires
        forall|i: int|
            0 <= i < ws.len() ==> match #[trigger] ws[i] {
                Some(m) => mesh_wf(m) && mesh_canonical(m),
                None => true,
            },
    ensures
        parse_wheels(enc_wheels(ws) + rest, ws.len() as nat) == Ok::<
            (Seq<Option<MeshV>>, Seq<u8>),
            Error,
        >((ws, rest)),
    decreases ws.len(),
{
    if ws.len() == 0 {
        assert(enc_wheels(ws) + rest =~= rest);
        assert(ws =~= Seq::<Option<MeshV>>::empty());
    } else {
        let tail = ws.drop_first();
        assert(enc_wheels(ws) + rest =~= enc_wheel(ws[0]) + (enc_wheels(tail) + rest));
        lemma_wheel_rt(ws[0], enc_wheels(tail) + rest);
        lemma_wheels_rt(tail, rest);
        assert(seq![ws[0]] + tail =~= ws);
    }
}

#[verifier::rlimit(100)]
pub proof fn lemma_debrie_rt(d: DebrieV, rest: Seq<u8>)
    requires
        mesh_wf(d.mesh),
        mesh_canonical(d.mesh),
        shape_wf(d.shape),
        shape_canonical(d.shape),
    ensures
        parse_debrie(enc_debrie(d) + rest) == Ok::<(DebrieV, Seq<u8>), Error>((d, rest)),
{
    assert(enc_debrie(d) + rest =~= enc_mesh(d.mesh) + (enc_shape(d.shape) + rest));
    lemma_mesh_rt(d.mesh, enc_shape(d.shape) + rest);
    lemma_shape_rt(d.shape, rest);
}

#[verifier::rlimit(100)]
pub proof fn lemma_debris_rt(ds: Seq<DebrieV>, rest: Seq<u8>)
    requires
        forall|i: int|
            0 <= i < ds.len() ==> {
                &&& mesh_wf((#[trigger] ds[i]).mesh)
                &&& mesh_canonical(ds[i].mesh)
                &&& shape_wf(ds[i].shape)
                &&& shape_canonical(ds[i].shape)
            },
    ensures
        parse_debris(enc_debris(ds) + rest, ds.len() as nat) == Ok::<
            (Seq<DebrieV>, Seq<u8>),
            Error,
        >((ds, rest)),
    decreases ds.len(),
{
    if ds.len() == 0 {
        assert(enc_debris(ds) + rest =~= rest);
        assert(ds =~= Seq::<DebrieV>::empty());
    } else {
        let tail = ds.drop_first();
        assert(enc_debris(ds) + rest =~= enc_debrie(ds[0]) + (enc_debris(tail) + rest));
        lemma_debrie_rt(ds[0], enc_debris(tail) + rest);
        lemma_debris_rt(tail, rest);
        assert(seq![ds[0]] + tail =~= ds);
    }
}

pub proof fn lemma_slot_rt(sl: Option<SlotInfo>, rest: Seq<u8>)
    ensures
        parse_slot(enc_slot(sl) + rest) == Ok::<(Option<SlotInfo>, Seq<u8>), Error>((sl, rest)),
{
    match sl {
        None => {
            assert(enc_slot(sl) + rest =~= seq![0u8] + rest);
            assert((seq![0u8] + rest).skip(1) =~= rest);
        },
        Some(si) => {
            let t1 = enc_v3i32(si.pos) + (i32_le(si.angle) + rest);
            assert(enc_slot(sl) + rest =~= seq![1u8] + t1);
            assert((seq![1u8] + t1).skip(1) =~= t1);
            lemma_v3i32_rt(si.pos, i32_le(si.angle) + rest);
            lemma_parse_i32_round_trip(si.angle, rest);
        },
    }
}

#[verifier::rlimit(100)]
pub proof fn lemma_slots_rt(ss: Seq<Option<SlotInfo>>, rest: Seq<u8>)
    ensures
        parse_slots(enc_slots(ss) + rest, ss.len() as nat) == Ok::<
            (Seq<Option<SlotInfo>>, Seq<u8>),
            Error,
        >((ss, rest)),
    decreases ss.len(),
{
    if ss.len() == 0 {
        assert(enc_slots(ss) + rest =~= rest);
        assert(ss =~= Seq::<Option<SlotInfo>>::empty());
    } else {
        let tail = ss.drop_first();
        assert(enc_slots(ss) + rest =~= enc_slot(ss[0]) + (enc_slots(tail) + rest));
        lemma_slot_rt(ss[0], enc_slots(tail) + rest);
        lemma_slots_rt(tail, rest);
        assert(seq![ss[0]] + tail =~= ss);
    }
}

/// Round trip of the whole model format: decoding an encoding restores
/// every explicitly stored field bit for bit, and the derived fields,
/// recomputed by the decode, equal the model's own (the model being
/// canonical says exactly that they were computed from the same inputs).
#[verifier::rlimit(100)]
#[verifier::spinoff_prover]
pub proof fn lemma_model_round_trip(m: ModelV)
    requires
        model_wf(m),
        model_canonical(m),
    ensures
        spec_decode_model(enc_model(m)) == Ok::<ModelV, Error>(m),
{
    let rest = Seq::<u8>::empty();
    let t9 = u32_le(m.max_radius) + (u32_le(m.color.main) + (u32_le(m.color.shade) + rest));
    let t8 = enc_v3i32(m.dimensions) + t9;
    let t7 = enc_slots(m.slots) + t8;
    let t6 = enc_debris(m.debris) + t7;
    let t5 = u32_le(m.debris.len() as u32) + t6;
    let t4 = enc_wheels(m.wheels) + t5;
    let t3 = u32_le(m.wheels.len() as u32) + t4;
    let t2 = enc_shape(m.shape) + t3;
    let t1 = enc_mesh(m.body) + t2;
    assert(enc_model(m) + rest =~= t1);
    assert(enc_model(m) =~= enc_model(m) + rest);
    lemma_mesh_rt(m.body, t2);
    lemma_shape_rt(m.shape, t3);
    lemma_parse_u32_round_trip(m.wheels.len() as u32, t4);
    lemma_wheels_rt(m.wheels, t5);
    lemma_parse_u32_round_trip(m.debris.len() as u32, t6);
    lemma_debris_rt(m.debris, t7);
    lemma_slots_rt(m.slots, t8);
    lemma_v3i32_rt(m.dimensions, t9);
    lemma_parse_u32_round_trip(m.max_radius, u32_le(m.color.main) + (u32_le(m.color.shade) + rest));
    lemma_parse_u32_round_trip(m.color.main, u32_le(m.color.shade) + rest);
    lemma_parse_u32_round_trip(m.color.shade, rest);
    assert(m.wheels.len() as u32 as nat == m.wheels.len());
    assert(m.debris.len() as u32 as nat == m.debris.len());
    assert(m.slots.len() as nat == NUM_SLOTS as nat);
}


// ======================= Executable decode =======================

fn decode_u32s(v: &Vec<u8>, pos: usize, n: u32) -> (r: Result<(Vec<u32>, usize), Error>)
    requires
        pos <= v@.len(),
    ensures
        match r {
            Ok((xs, p2)) => pos <= p2 <= v@.len() && xs@.len() == n && parse_u32s(
                v@.skip(pos as int),
                n as nat,
            ) == Ok::<(Seq<u32>, Seq<u8>), Error>((xs@, v@.skip(p2 as int))),
            Err(e) => parse_u32s(v@.skip(pos as int), n as nat) == Err::<
                (Seq<u32>, Seq<u8>),
                Error,
            >(e),
        },
{
    let mut cur: usize = pos;
    let mut acc: Vec<u32> = Vec::new();
    let mut i: u32 = 0;
    while i < n
        invariant
            pos <= cur <= v@.len(),
            i <= n,
            acc@.len() == i,
            match parse_u32s(v@.skip(cur as int), (n - i) as nat) {
                Ok(p) => parse_u32s(v@.skip(pos as int), n as nat) == Ok::<(Seq<u32>, Seq<u8>), Error>(
                    (acc@ + p.0, p.1),
                ),
                Err(e) => parse_u32s(v@.skip(pos as int), n as nat) == Err::<
                    (Seq<u32>, Seq<u8>),
                    Error,
                >(e),
            },
        decreases n - i,
    {
        match read_u32(v, cur) {
            Err(e) => {
                proof {
                    assert(parse_u32s(v@.skip(cur as int), (n - i) as nat) == Err::<
                        (Seq<u32>, Seq<u8>),
                        Error,
                    >(e));
                }
                return Err(e);
            },
            Ok((x, p2)) => {
                proof {
                    match parse_u32s(v@.skip(p2 as int), (n - i - 1) as nat) {
                        Ok(p) => {
                            assert(acc@ + (seq![x] + p.0) =~= acc@.push(x) + p.0);
                        },
                        Err(e) => {},
                    }
                }
                acc.push(x);
                cur = p2;
                i = i + 1;
            },
        }
    }
    proof {
        assert(acc@ + Seq::<u32>::empty() =~= acc@);
    }
    Ok((acc, cur))
}

fn decode_vertices(v: &Vec<u8>, pos: usize, n: u32) -> (r: Result<(Vec<RawVertex>, usize), Error>)
    requires
        pos <= v@.len(),
    ensures
        match r {
            Ok((vs, p2)) => pos <= p2 <= v@.len() && vs@.len() == n && parse_vertices(
                v@.skip(pos as int),
                n as nat,
            ) == Ok::<(Seq<RawVertex>, Seq<u8>), Error>((vs@, v@.skip(p2 as int))),
            Err(e) => parse_vertices(v@.skip(pos as int), n as nat) == Err::<
                (Seq<RawVertex>, Seq<u8>),
                Error,
            >(e),
        },
{
    let mut cur: usize = pos;
    let mut acc: Vec<RawVertex> = Vec::new();
    let mut i: u32 = 0;
    while i < n
        invariant
            pos <= cur <= v@.len(),
            i <= n,
            acc@.len() == i,
            match parse_vertices(v@.skip(cur as int), (n - i) as nat) {
                Ok(p) => parse_vertices(v@.skip(pos as int), n as nat) == Ok::<
                    (Seq<RawVertex>, Seq<u8>),
                    Error,
                >((acc@ + p.0, p.1)),
                Err(e) => parse_vertices(v@.skip(pos as int), n as nat) == Err::<
                    (Seq<RawVertex>, Seq<u8>),
                    Error,
                >(e),
            },
        decreases n - i,
    {
        match read_vertex(v, cur) {
            Err(e) => {
                proof {
                    assert(parse_vertices(v@.skip(cur as int), (n - i) as nat) == Err::<
                        (Seq<RawVertex>, Seq<u8>),
                        Error,
                    >(e));
                }
                return Err(e);
            },
            Ok((x, p2)) => {
                proof {
                    match parse_vertices(v@.skip(p2 as int), (n - i - 1) as nat) {
                        Ok(p) => {
                            assert(acc@ + (seq![x] + p.0) =~= acc@.push(x) + p.0);
                        },
                        Err(e) => {},
                    }
                }
                acc.push(x);
                cur = p2;
                i = i + 1;
            },
        }
    }
    proof {
        assert(acc@ + Seq::<RawVertex>::empty() =~= acc@);
    }
    Ok((acc, cur))
}

fn decode_triangle(v: &Vec<u8>, pos: usize, npos: u32, nnorm: u32) -> (r: Result<
    (Triangle, usize),
    Error,
>)
    requires
        pos <= v@.len(),
    ensures
        match r {
            Ok((t, p2)) => pos <= p2 <= v@.len() && parse_triangle(
                v@.skip(pos as int),
                npos as int,
                nnorm as int,
            ) == Ok::<(Triangle, Seq<u8>), Error>((t, v@.skip(p2 as int))) && t.p0 < npos && t.p1
                < npos && t.p2 < npos && t.n0 < nnorm && t.n1 < nnorm && t.n2 < nnorm,
            Err(e) => parse_triangle(v@.skip(pos as int), npos as int, nnorm as int) == Err::<
                (Triangle, Seq<u8>),
                Error,
            >(e),
        },
{
    match decode_u32s(v, pos, 7) {
        Err(e) => Err(e),
        Ok((xs, p2)) => {
            let t = Triangle {
                p0: xs[0],
                p1: xs[1],
                p2: xs[2],
                n0: xs[3],
                n1: xs[4],
                n2: xs[5],
                material: xs[6],
            };
            if t.p0 < npos && t.p1 < npos && t.p2 < npos && t.n0 < nnorm && t.n1 < nnorm && t.n2
                < nnorm {
                Ok((t, p2))
            } else {
                Err(Error::MalformedGeometry)
            }
        },
    }
}

fn decode_triangles(v: &Vec<u8>, pos: usize, n: u32, npos: u32, nnorm: u32) -> (r: Result<
    (Vec<Triangle>, usize),
    Error,
>)
    requires
        pos <= v@.len(),
    ensures
        match r {
            Ok((ts, p2)) => pos <= p2 <= v@.len() && ts@.len() == n && parse_triangles(
                v@.skip(pos as int),
                n as nat,
                npos as int,
                nnorm as int,
            ) == Ok::<(Seq<Triangle>, Seq<u8>), Error>((ts@, v@.skip(p2 as int))) && forall|i: int|
                0 <= i < ts@.len() ==> {
                    &&& (#[trigger] ts@[i]).p0 < npos
                    &&& ts@[i].p1 < npos
                    &&& ts@[i].p2 < npos
                    &&& ts@[i].n0 < nnorm
                    &&& ts@[i].n1 < nnorm
                    &&& ts@[i].n2 < nnorm
                },
            Err(e) => parse_triangles(v@.skip(pos as int), n as nat, npos as int, nnorm as int)
                == Err::<(Seq<Triangle>, Seq<u8>), Error>(e),
        },
{
    let mut cur: usize = pos;
    let mut acc: Vec<Triangle> = Vec::new();
    let mut i: u32 = 0;
    while i < n
        invariant
            pos <= cur <= v@.len(),
            i <= n,
            acc@.len() == i,
            forall|k: int|
                0 <= k < acc@.len() ==> {
                    &&& (#[trigger] acc@[k]).p0 < npos
                    &&& acc@[k].p1 < npos
                    &&& acc@[k].p2 < npos
                    &&& acc@[k].n0 < nnorm
                    &&& acc@[k].n1 < nnorm
                    &&& acc@[k].n2 < nnorm
                },
            match parse_triangles(v@.skip(cur as int), (n - i) as nat, npos as int, nnorm as int) {
                Ok(p) => parse_triangles(v@.skip(pos as int), n as nat, npos as int, nnorm as int)
                    == Ok::<(Seq<Triangle>, Seq<u8>), Error>((acc@ + p.0, p.1)),
                Err(e) => parse_triangles(v@.skip(pos as int), n as nat, npos as int, nnorm as int)
                    == Err::<(Seq<Triangle>, Seq<u8>), Error>(e),
            },
        decreases n - i,
    {
        match decode_triangle(v, cur, npos, nnorm) {
            Err(e) => {
                proof {
                    assert(parse_triangles(
                        v@.skip(cur as int),
                        (n - i) as nat,
                        npos as int,
                        nnorm as int,
                    ) == Err::<(Seq<Triangle>, Seq<u8>), Error>(e));
                }
                return Err(e);
            },
            Ok((t, p2)) => {
                proof {
                    match parse_triangles(
                        v@.skip(p2 as int),
                        (n - i - 1) as nat,
                        npos as int,
                        nnorm as int,
                    ) {
                        Ok(p) => {
                            assert(acc@ + (seq![t] + p.0) =~= acc@.push(t) + p.0);
                        },
                        Err(e) => {},
                    }
                }
                acc.push(t);
                cur = p2;
                i = i + 1;
            },
        }
    }
    proof {
        assert(acc@ + Seq::<Triangle>::empty() =~= acc@);
    }
    Ok((acc, cur))
}

fn decode_quad(v: &Vec<u8>, pos: usize, npos: u32) -> (r: Result<(CollisionQuad, usize), Error>)
    requires
        pos <= v@.len(),
    ensures
        match r {
            Ok((q, p2)) => pos <= p2 <= v@.len() && parse_quad(v@.skip(pos as int), npos as int)
                == Ok::<(CollisionQuad, Seq<u8>), Error>((q, v@.skip(p2 as int))) && q.i0 < npos
                && q.i1 < npos && q.i2 < npos && q.i3 < npos,
            Err(e) => parse_quad(v@.skip(pos as int), npos as int) == Err::<
                (CollisionQuad, Seq<u8>),
                Error,
            >(e),
        },
{
    match decode_u32s(v, pos, 4) {
        Err(e) => Err(e),
        Ok((xs, p1)) => match read_vertex(v, p1) {
            Err(e) => Err(e),
            Ok((fnorm, p2)) => match read_vertex(v, p2) {
                Err(e) => Err(e),
                Ok((mid, p3)) => {
                    let q = CollisionQuad {
                        i0: xs[0],
                        i1: xs[1],
                        i2: xs[2],
                        i3: xs[3],
                        flat_normal: fnorm,
                        middle: mid,
                    };
                    if q.i0 < npos && q.i1 < npos && q.i2 < npos && q.i3 < npos {
                        Ok((q, p3))
                    } else {
                        Err(Error::MalformedGeometry)
                    }
                },
            },
        },
    }
}

fn decode_quads(v: &Vec<u8>, pos: usize, n: u32, npos: u32) -> (r: Result<
    (Vec<CollisionQuad>, usize),
    Error,
>)
    requires
        pos <= v@.len(),
    ensures
        match r {
            Ok((qs, p2)) => pos <= p2 <= v@.len() && qs@.len() == n && parse_quads(
                v@.skip(pos as int),
                n as nat,
                npos as int,
            ) == Ok::<(Seq<CollisionQuad>, Seq<u8>), Error>((qs@, v@.skip(p2 as int))) && forall|
                i: int,
            |
                0 <= i < qs@.len() ==> {
                    &&& (#[trigger] qs@[i]).i0 < npos
                    &&& qs@[i].i1 < npos
                    &&& qs@[i].i2 < npos
                    &&& qs@[i].i3 < npos
                },
            Err(e) => parse_quads(v@.skip(pos as int), n as nat, npos as int) == Err::<
                (Seq<CollisionQuad>, Seq<u8>),
                Error,
            >(e),
        },
{
    let mut cur: usize = pos;
    let mut acc: Vec<CollisionQuad> = Vec::new();
    let mut i: u32 = 0;
    while i < n
        invariant
            pos <= cur <= v@.len(),
            i <= n,
            acc@.len() == i,
            forall|k: int|
                0 <= k < acc@.len() ==> {
                    &&& (#[trigger] acc@[k]).i0 < npos
                    &&& acc@[k].i1 < npos
                    &&& acc@[k].i2 < npos
                    &&& acc@[k].i3 < npos
                },
            match parse_quads(v@.skip(cur as int), (n - i) as nat, npos as int) {
                Ok(p) => parse_quads(v@.skip(pos as int), n as nat, npos as int) == Ok::<
                    (Seq<CollisionQuad>, Seq<u8>),
                    Error,
                >((acc@ + p.0, p.1)),
                Err(e) => parse_quads(v@.skip(pos as int), n as nat, npos as int) == Err::<
                    (Seq<CollisionQuad>, Seq<u8>),
                    Error,
                >(e),
            },
        decreases n - i,
    {
        match decode_quad(v, cur, npos) {
            Err(e) => {
                proof {
                    assert(parse_quads(v@.skip(cur as int), (n - i) as nat, npos as int) == Err::<
                        (Seq<CollisionQuad>, Seq<u8>),
                        Error,
                    >(e));
                }
                return Err(e);
            },
            Ok((q, p2)) => {
                proof {
                    match parse_quads(v@.skip(p2 as int), (n - i - 1) as nat, npos as int) {
                        Ok(p) => {
                            assert(acc@ + (seq![q] + p.0) =~= acc@.push(q) + p.0);
                        },
                        Err(e) => {},
                    }
                }
                acc.push(q);
                cur = p2;
                i = i + 1;
            },
        }
    }
    proof {
        assert(acc@ + Seq::<CollisionQuad>::empty() =~= acc@);
    }
    Ok((acc, cur))
}

fn decode_v3i32(v: &Vec<u8>, pos: usize) -> (r: Result<(V3i32, usize), Error>)
    requires
        pos <= v@.len(),
    ensures
        match r {
            Ok((x, p2)) => pos <= p2 <= v@.len() && parse_v3i32(v@.skip(pos as int)) == Ok::<
                (V3i32, Seq<u8>),
                Error,
            >((x, v@.skip(p2 as int))),
            Err(e) => parse_v3i32(v@.skip(pos as int)) == Err::<(V3i32, Seq<u8>), Error>(e),
        },
{
    match read_i32(v, pos) {
        Err(e) => Err(e),
        Ok((x, p1)) => match read_i32(v, p1) {
            Err(e) => Err(e),
            Ok((y, p2)) => match read_i32(v, p2) {
                Err(e) => Err(e),
                Ok((z, p3)) => Ok((V3i32 { x, y, z }, p3)),
            },
        },
    }
}

#[verifier::rlimit(100)]
fn decode_mesh(v: &Vec<u8>, pos: usize) -> (r: Result<(Mesh, usize), Error>)
    requires
        pos <= v@.len(),
    ensures
        match r {
            Ok((m, p2)) => pos <= p2 <= v@.len() && parse_mesh(v@.skip(pos as int)) == Ok::<
                (MeshV, Seq<u8>),
                Error,
            >((m@, v@.skip(p2 as int))) && mesh_wf(m@) && mesh_canonical(m@),
            Err(e) => parse_mesh(v@.skip(pos as int)) == Err::<(MeshV, Seq<u8>), Error>(e),
        },
{
    let (npos, p1) = match read_u32(v, pos) {
        Ok(x) => x,
        Err(e) => {
            return Err(e);
        },
    };
    let (nnorm, p2) = match read_u32(v, p1) {
        Ok(x) => x,
        Err(e) => {
            return Err(e);
        },
    };
    let (ntri, p3) = match read_u32(v, p2) {
        Ok(x) => x,
        Err(e) => {
            return Err(e);
        },
    };
    if npos == 0 {
        return Err(Error::EmptyGeometry);
    }
    let (positions, p4) = match decode_vertices(v, p3, npos) {
        Ok(x) => x,
        Err(e) => {
            return Err(e);
        },
    };
    let (normals, p5) = match decode_vertices(v, p4, nnorm) {
        Ok(x) => x,
        Err(e) => {
            return Err(e);
        },
    };
    let (triangles, p6) = match decode_triangles(v, p5, ntri, npos, nnorm) {
        Ok(x) => x,
        Err(e) => {
            return Err(e);
        },
    };
    let (parent_offset, p7) = match decode_v3i32(v, p6) {
        Ok(x) => x,
        Err(e) => {
            return Err(e);
        },
    };
    let (physics, p8) = match read_byte_block(v, p7, PHYSICS_BYTES) {
        Ok(x) => x,
        Err(e) => {
            return Err(e);
        },
    };
    let bounds = match compute_bounds(&positions) {
        Ok(b) => b,
        Err(e) => {
            proof {
                assert(false);
            }
            return Err(e);
        },
    };
    let m = Mesh { positions, normals, triangles, parent_offset, physics, bounds };
    Ok((m, p8))
}

#[verifier::rlimit(100)]
fn decode_shape(v: &Vec<u8>, pos: usize) -> (r: Result<(Shape, usize), Error>)
    requires
        pos <= v@.len(),
    ensures
        match r {
            Ok((sh, p2)) => pos <= p2 <= v@.len() && parse_shape(v@.skip(pos as int)) == Ok::<
                (ShapeV, Seq<u8>),
                Error,
            >((sh@, v@.skip(p2 as int))) && shape_wf(sh@) && shape_canonical(sh@),
            Err(e) => parse_shape(v@.skip(pos as int)) == Err::<(ShapeV, Seq<u8>), Error>(e),
        },
{
    let (npos, p1) = match read_u32(v, pos) {
        Ok(x) => x,
        Err(e) => {
            return Err(e);
        },
    };
    let (nquad, p2) = match read_u32(v, p1) {
        Ok(x) => x,
        Err(e) => {
            return Err(e);
        },
    };
    let (positions, p3) = match decode_vertices(v, p2, npos) {
        Ok(x) => x,
        Err(e) => {
            return Err(e);
        },
    };
    let (quads, p4) = match decode_quads(v, p3, nquad, npos) {
        Ok(x) => x,
        Err(e) => {
            return Err(e);
        },
    };
    let mut polygons: Vec<Polygon> = Vec::new();
    let mut samples: Vec<RawVertex> = Vec::new();
    let mut tess = Tessellator::new();
    let nq = quads.len();
    let mut i: usize = 0;
    while i < nq
        invariant
            nq == quads@.len(),
            positions@.len() == npos,
            forall|k: int|
                0 <= k < quads@.len() ==> {
                    &&& (#[trigger] quads@[k]).i0 < npos
                    &&& quads@[k].i1 < npos
                    &&& quads@[k].i2 < npos
                    &&& quads@[k].i3 < npos
                },
            i <= nq,
            samples@.len() == 4 * i,
            polygons@ == polygons_of(quads@.take(i as int)),
            samples@ == samples_of(positions@, quads@.take(i as int)),
        decreases nq - i,
    {
        let q = quads[i];
        let mut corners: Vec<RawVertex> = Vec::new();
        corners.push(positions[q.i0 as usize]);
        corners.push(positions[q.i1 as usize]);
        corners.push(positions[q.i2 as usize]);
        corners.push(positions[q.i3 as usize]);
        proof {
            assert(corners@ =~= quad_corners(positions@, q));
        }
        let cur = tess.tessellate(corners.as_slice(), q.middle);
        let samples_start = samples.len();
        samples.push(cur[0]);
        samples.push(cur[1]);
        samples.push(cur[2]);
        samples.push(cur[3]);
        let samples_end = samples.len();
        let p = Polygon { middle: q.middle, normal: q.flat_normal, samples_start, samples_end };
        proof {
            let t1 = quads@.take(i + 1 as int);
            assert(t1.drop_last() =~= quads@.take(i as int));
            assert(t1.last() == quads@[i as int]);
            assert(samples@ =~= samples_of(positions@, quads@.take(i as int)) + flat_samples(
                quad_corners(positions@, q),
            ));
            assert(polygons@.push(p) =~= polygons_of(t1));
        }
        polygons.push(p);
        i = i + 1;
    }
    proof {
        assert(quads@.take(nq as int) =~= quads@);
    }
    let sh = Shape { positions, quads, polygons, samples };
    Ok((sh, p4))
}

#[verifier::rlimit(100)]
fn decode_wheels(v: &Vec<u8>, pos: usize, n: u32) -> (r: Result<(Vec<Option<Mesh>>, usize), Error>)
    requires
        pos <= v@.len(),
    ensures
        match r {
            Ok((ws, p2)) => pos <= p2 <= v@.len() && ws@.len() == n && parse_wheels(
                v@.skip(pos as int),
                n as nat,
            ) == Ok::<(Seq<Option<MeshV>>, Seq<u8>), Error>((wheels_view(ws@), v@.skip(p2 as int)))
                && forall|i: int|
                0 <= i < ws@.len() ==> match #[trigger] wheels_view(ws@)[i] {
                    Some(m) => mesh_wf(m) && mesh_canonical(m),
                    None => true,
                },
            Err(e) => parse_wheels(v@.skip(pos as int), n as nat) == Err::<
                (Seq<Option<MeshV>>, Seq<u8>),
                Error,
            >(e),
        },
{
    let mut cur: usize = pos;
    let mut acc: Vec<Option<Mesh>> = Vec::new();
    let mut i: u32 = 0;
    while i < n
        invariant
            pos <= cur <= v@.len(),
            i <= n,
            acc@.len() == i,
            forall|k: int|
                0 <= k < acc@.len() ==> match #[trigger] wheels_view(acc@)[k] {
                    Some(m) => mesh_wf(m) && mesh_canonical(m),
                    None => true,
                },
            match parse_wheels(v@.skip(cur as int), (n - i) as nat) {
                Ok(p) => parse_wheels(v@.skip(pos as int), n as nat) == Ok::<
                    (Seq<Option<MeshV>>, Seq<u8>),
                    Error,
                >((wheels_view(acc@) + p.0, p.1)),
                Err(e) => parse_wheels(v@.skip(pos as int), n as nat) == Err::<
                    (Seq<Option<MeshV>>, Seq<u8>),
                    Error,
                >(e),
            },
        decreases n - i,
    {
        let (flag, p1) = match read_u8(v, cur) {
            Ok(x) => x,
            Err(e) => {
                proof {
                    assert(parse_wheels(v@.skip(cur as int), (n - i) as nat) == Err::<
                        (Seq<Option<MeshV>>, Seq<u8>),
                        Error,
                    >(e));
                }
                return Err(e);
            },
        };
        let (w, p2): (Option<Mesh>, usize) = if flag == 0 {
            (None, p1)
        } else if flag == 1 {
            match decode_mesh(v, p1) {
                Ok((m, p2)) => (Some(m), p2),
                Err(e) => {
                    proof {
                        assert(parse_wheel(v@.skip(cur as int)) == Err::<
                            (Option<MeshV>, Seq<u8>),
                            Error,
                        >(e));
                        assert(parse_wheels(v@.skip(cur as int), (n - i) as nat) == Err::<
                            (Seq<Option<MeshV>>, Seq<u8>),
                            Error,
                        >(e));
                    }
                    return Err(e);
                },
            }
        } else {
            proof {
                assert(parse_wheel(v@.skip(cur as int)) == Err::<(Option<MeshV>, Seq<u8>), Error>(
                    Error::MalformedGeometry,
                ));
                assert(parse_wheels(v@.skip(cur as int), (n - i) as nat) == Err::<
                    (Seq<Option<MeshV>>, Seq<u8>),
                    Error,
                >(Error::MalformedGeometry));
            }
            return Err(Error::MalformedGeometry);
        };
        proof {
            let wv = match w {
                Some(ref m) => Some(m@),
                None => None,
            };
            assert(parse_wheel(v@.skip(cur as int)) == Ok::<(Option<MeshV>, Seq<u8>), Error>(
                (wv, v@.skip(p2 as int)),
            ));
            assert(wheels_view(acc@.push(w)) =~= wheels_view(acc@).push(wv));
            match parse_wheels(v@.skip(p2 as int), (n - i - 1) as nat) {
                Ok(p) => {
                    assert(wheels_view(acc@) + (seq![wv] + p.0) =~= wheels_view(acc@).push(wv)
                        + p.0);
                },
                Err(e) => {},
            }
        }
        acc.push(w);
        cur = p2;
        i = i + 1;
    }
    proof {
        assert(wheels_view(acc@) + Seq::<Option<MeshV>>::empty() =~= wheels_view(acc@));
    }
    Ok((acc, cur))
}

#[verifier::rlimit(100)]
fn decode_debris(v: &Vec<u8>, pos: usize, n: u32) -> (r: Result<(Vec<Debrie>, usize), Error>)
    requires
        pos <= v@.len(),
    ensures
        match r {
            Ok((ds, p2)) => pos <= p2 <= v@.len() && ds@.len() == n && parse_debris(
                v@.skip(pos as int),
                n as nat,
            ) == Ok::<(Seq<DebrieV>, Seq<u8>), Error>((debris_view(ds@), v@.skip(p2 as int)))
                && forall|i: int|
                0 <= i < ds@.len() ==> {
                    &&& mesh_wf(#[trigger] debris_view(ds@)[i].mesh)
                    &&& mesh_canonical(debris_view(ds@)[i].mesh)
                    &&& shape_wf(debris_view(ds@)[i].shape)
                    &&& shape_canonical(debris_view(ds@)[i].shape)
                },
            Err(e) => parse_debris(v@.skip(pos as int), n as nat) == Err::<
                (Seq<DebrieV>, Seq<u8>),
                Error,
            >(e),
        },
{
    let mut cur: usize = pos;
    let mut acc: Vec<Debrie> = Vec::new();
    let mut i: u32 = 0;
    while i < n
        invariant
            pos <= cur <= v@.len(),
            i <= n,
            acc@.len() == i,
            forall|k: int|
                0 <= k < acc@.len() ==> {
                    &&& mesh_wf(#[trigger] debris_view(acc@)[k].mesh)
                    &&& mesh_canonical(debris_view(acc@)[k].mesh)
                    &&& shape_wf(debris_view(acc@)[k].shape)
                    &&& shape_canonical(debris_view(acc@)[k].shape)
                },
            match parse_debris(v@.skip(cur as int), (n - i) as nat) {
                Ok(p) => parse_debris(v@.skip(pos as int), n as nat) == Ok::<
                    (Seq<DebrieV>, Seq<u8>),
                    Error,
                >((debris_view(acc@) + p.0, p.1)),
                Err(e) => parse_debris(v@.skip(pos as int), n as nat) == Err::<
                    (Seq<DebrieV>, Seq<u8>),
                    Error,
                >(e),
            },
        decreases n - i,
    {
        let (mesh, p1) = match decode_mesh(v, cur) {
            Ok(x) => x,
            Err(e) => {
                proof {
                    assert(parse_debrie(v@.skip(cur as int)) == Err::<(DebrieV, Seq<u8>), Error>(
                        e,
                    ));
                    assert(parse_debris(v@.skip(cur as int), (n - i) as nat) == Err::<
                        (Seq<DebrieV>, Seq<u8>),
                        Error,
                    >(e));
                }
                return Err(e);
            },
        };
        let (shape, p2) = match decode_shape(v, p1) {
            Ok(x) => x,
            Err(e) => {
                proof {
                    assert(parse_debrie(v@.skip(cur as int)) == Err::<(DebrieV, Seq<u8>), Error>(
                        e,
                    ));
                    assert(parse_debris(v@.skip(cur as int), (n - i) as nat) == Err::<
                        (Seq<DebrieV>, Seq<u8>),
                        Error,
                    >(e));
                }
                return Err(e);
            },
        };
        let d = Debrie { mesh, shape };
        proof {
            assert(parse_debrie(v@.skip(cur as int)) == Ok::<(DebrieV, Seq<u8>), Error>(
                (d@, v@.skip(p2 as int)),
            ));
            assert(debris_view(acc@.push(d)) =~= debris_view(acc@).push(d@));
            assert(forall|k: int|
                0 <= k < acc@.push(d).len() ==> {
                    &&& mesh_wf(#[trigger] debris_view(acc@.push(d))[k].mesh)
                    &&& mesh_canonical(debris_view(acc@.push(d))[k].mesh)
                    &&& shape_wf(debris_view(acc@.push(d))[k].shape)
                    &&& shape_canonical(debris_view(acc@.push(d))[k].shape)
                });
            match parse_debris(v@.skip(p2 as int), (n - i - 1) as nat) {
                Ok(p) => {
                    assert(debris_view(acc@) + (seq![d@] + p.0) =~= debris_view(acc@).push(d@)
                        + p.0);
                },
                Err(e) => {},
            }
        }
        acc.push(d);
        cur = p2;
        i = i + 1;
    }
    proof {
        assert(debris_view(acc@) + Seq::<DebrieV>::empty() =~= debris_view(acc@));
    }
    Ok((acc, cur))
}

#[verifier::rlimit(100)]
fn decode_slots(v: &Vec<u8>, pos: usize, n: u32) -> (r: Result<(Vec<Option<SlotInfo>>, usize), Error>)
    requires
        pos <= v@.len(),
    ensures
        match r {
            Ok((ss, p2)) => pos <= p2 <= v@.len() && ss@.len() == n && parse_slots(
                v@.skip(pos as int),
                n as nat,
            ) == Ok::<(Seq<Option<SlotInfo>>, Seq<u8>), Error>((ss@, v@.skip(p2 as int))),
            Err(e) => parse_slots(v@.skip(pos as int), n as nat) == Err::<
                (Seq<Option<SlotInfo>>, Seq<u8>),
                Error,
            >(e),
        },
{
    let mut cur: usize = pos;
    let mut acc: Vec<Option<SlotInfo>> = Vec::new();
    let mut i: u32 = 0;
    while i < n
        invariant
            pos <= cur <= v@.len(),
            i <= n,
            acc@.len() == i,
            match parse_slots(v@.skip(cur as int), (n - i) as nat) {
                Ok(p) => parse_slots(v@.skip(pos as int), n as nat) == Ok::<
                    (Seq<Option<SlotInfo>>, Seq<u8>),
                    Error,
                >((acc@ + p.0, p.1)),
                Err(e) => parse_slots(v@.skip(pos as int), n as nat) == Err::<
                    (Seq<Option<SlotInfo>>, Seq<u8>),
                    Error,
                >(e),
            },
        decreases n - i,
    {
        let (flag, p1) = match read_u8(v, cur) {
            Ok(x) => x,
            Err(e) => {
                proof {
                    assert(parse_slots(v@.skip(cur as int), (n - i) as nat) == Err::<
                        (Seq<Option<SlotInfo>>, Seq<u8>),
                        Error,
                    >(e));
                }
                return Err(e);
            },
        };
        let (sl, p2): (Option<SlotInfo>, usize) = if flag == 0 {
            (None, p1)
        } else if flag == 1 {
            let (spos, pa) = match decode_v3i32(v, p1) {
                Ok(x) => x,
                Err(e) => {
                    proof {
                        assert(parse_slot(v@.skip(cur as int)) == Err::<
                            (Option<SlotInfo>, Seq<u8>),
                            Error,
                        >(e));
                        assert(parse_slots(v@.skip(cur as int), (n - i) as nat) == Err::<
                            (Seq<Option<SlotInfo>>, Seq<u8>),
                            Error,
                        >(e));
                    }
                    return Err(e);
                },
            };
            let (angle, pb) = match read_i32(v, pa) {
                Ok(x) => x,
                Err(e) => {
                    proof {
                        assert(parse_slot(v@.skip(cur as int)) == Err::<
                            (Option<SlotInfo>, Seq<u8>),
                            Error,
                        >(e));
                        assert(parse_slots(v@.skip(cur as int), (n - i) as nat) == Err::<
                            (Seq<Option<SlotInfo>>, Seq<u8>),
                            Error,
                        >(e));
                    }
                    return Err(e);
                },
            };
            (Some(SlotInfo { pos: spos, angle }), pb)
        } else {
            proof {
                assert(parse_slot(v@.skip(cur as int)) == Err::<(Option<SlotInfo>, Seq<u8>), Error>(
                    Error::MalformedGeometry,
                ));
                assert(parse_slots(v@.skip(cur as int), (n - i) as nat) == Err::<
                    (Seq<Option<SlotInfo>>, Seq<u8>),
                    Error,
                >(Error::MalformedGeometry));
            }
            return Err(Error::MalformedGeometry);
        };
        proof {
            assert(parse_slot(v@.skip(cur as int)) == Ok::<(Option<SlotInfo>, Seq<u8>), Error>(
                (sl, v@.skip(p2 as int)),
            ));
            match parse_slots(v@.skip(p2 as int), (n - i - 1) as nat) {
                Ok(p) => {
                    assert(acc@ + (seq![sl] + p.0) =~= acc@.push(sl) + p.0);
                },
                Err(e) => {},
            }
        }
        acc.push(sl);
        cur = p2;
        i = i + 1;
    }
    proof {
        assert(acc@ + Seq::<Option<SlotInfo>>::empty() =~= acc@);
    }
    Ok((acc, cur))
}

/// Decodes a whole model stream: the fixed section order, every index
/// validated, every derived field recomputed. On any structural
/// violation the decode fails with the owed error and no partial model.
#[verifier::rlimit(100)]
#[verifier::spinoff_prover]
pub fn decode_model(bytes: &Vec<u8>) -> (r: Result<Model, Error>)
    ensures
        match r {
            Ok(m) => spec_decode_model(bytes@) == Ok::<ModelV, Error>(m@) && model_wf(m@)
                && model_canonical(m@),
            Err(e) => spec_decode_model(bytes@) == Err::<ModelV, Error>(e),
        },
{
    proof {
        assert(bytes@.skip(0) =~= bytes@);
    }
    let (body, p1) = match decode_mesh(bytes, 0) {
        Ok(x) => x,
        Err(e) => {
            return Err(e);
        },
    };
    let (shape, p2) = match decode_shape(bytes, p1) {
        Ok(x) => x,
        Err(e) => {
            return Err(e);
        },
    };
    let (nwheels, p3) = match read_u32(bytes, p2) {
        Ok(x) => x,
        Err(e) => {
            return Err(e);
        },
    };
    let (wheels, p4) = match decode_wheels(bytes, p3, nwheels) {
        Ok(x) => x,
        Err(e) => {
            return Err(e);
        },
    };
    let (ndebris, p5) = match read_u32(bytes, p4) {
        Ok(x) => x,
        Err(e) => {
            return Err(e);
        },
    };
    let (debris, p6) = match decode_debris(bytes, p5, ndebris) {
        Ok(x) => x,
        Err(e) => {
            return Err(e);
        },
    };
    let (slots, p7) = match decode_slots(bytes, p6, NUM_SLOTS as u32) {
        Ok(x) => x,
        Err(e) => {
            return Err(e);
        },
    };
    let (dimensions, p8) = match decode_v3i32(bytes, p7) {
        Ok(x) => x,
        Err(e) => {
            return Err(e);
        },
    };
    let (max_radius, p9) = match read_u32(bytes, p8) {
        Ok(x) => x,
        Err(e) => {
            return Err(e);
        },
    };
    let (cmain, p10) = match read_u32(bytes, p9) {
        Ok(x) => x,
        Err(e) => {
            return Err(e);
        },
    };
    let (cshade, p11) = match read_u32(bytes, p10) {
        Ok(x) => x,
        Err(e) => {
            return Err(e);
        },
    };
    if p11 != bytes.len() {
        return Err(Error::MalformedGeometry);
    }
    let m = Model {
        body,
        shape,
        wheels,
        debris,
        slots,
        dimensions,
        max_radius,
        color: ColorPair { main: cmain, shade: cshade },
    };
    proof {
        assert(parse_model(bytes@) == Ok::<(ModelV, Seq<u8>), Error>(
            (m@, bytes@.skip(p11 as int)),
        ));
        assert(bytes@.skip(p11 as int) =~= Seq::<u8>::empty());
        assert(spec_decode_model(bytes@) == Ok::<ModelV, Error>(m@));
        assert(model_wf(m@));
        assert(model_canonical(m@));
    }
    Ok(m)
}

// ======================= Executable encode =======================

#[verifier::rlimit(100)]
proof fn lemma_enc_vertices_push(vs: Seq<RawVertex>, v: RawVertex)
    ensures
        enc_vertices(vs.push(v)) == enc_vertices(vs) + vertex_bytes(v),
    decreases vs.len(),
{
    if vs.len() == 0 {
        assert(vs.push(v).drop_first() =~= Seq::<RawVertex>::empty());
        assert(vs =~= Seq::<RawVertex>::empty());
        assert(enc_vertices(Seq::<RawVertex>::empty()) =~= Seq::<u8>::empty());
        assert(enc_vertices(vs.push(v)) =~= enc_vertices(vs) + vertex_bytes(v));
    } else {
        assert(vs.push(v).drop_first() =~= vs.drop_first().push(v));
        lemma_enc_vertices_push(vs.drop_first(), v);
        assert(enc_vertices(vs.push(v)) =~= enc_vertices(vs) + vertex_bytes(v));
    }
}

#[verifier::rlimit(100)]
proof fn lemma_enc_triangles_push(ts: Seq<Triangle>, t: Triangle)
    ensures
        enc_triangles(ts.push(t)) == enc_triangles(ts) + enc_triangle(t),
    decreases ts.len(),
{
    if ts.len() == 0 {
        assert(ts.push(t).drop_first() =~= Seq::<Triangle>::empty());
        assert(ts =~= Seq::<Triangle>::empty());
        assert(enc_triangles(Seq::<Triangle>::empty()) =~= Seq::<u8>::empty());
        assert(enc_triangles(ts.push(t)) =~= enc_triangles(ts) + enc_triangle(t));
    } else {
        assert(ts.push(t).drop_first() =~= ts.drop_first().push(t));
        lemma_enc_triangles_push(ts.drop_first(), t);
        assert(enc_triangles(ts.push(t)) =~= enc_triangles(ts) + enc_triangle(t));
    }
}

#[verifier::rlimit(100)]
proof fn lemma_enc_quads_push(qs: Seq<CollisionQuad>, q: CollisionQuad)
    ensures
        enc_quads(qs.push(q)) == enc_quads(qs) + enc_quad(q),
    decreases qs.len(),
{
    if qs.len() == 0 {
        assert(qs.push(q).drop_first() =~= Seq::<CollisionQuad>::empty());
        assert(qs =~= Seq::<CollisionQuad>::empty());
        assert(enc_quads(Seq::<CollisionQuad>::empty()) =~= Seq::<u8>::empty());
        assert(enc_quads(qs.push(q)) =~= enc_quads(qs) + enc_quad(q));
    } else {
        assert(qs.push(q).drop_first() =~= qs.drop_first().push(q));
        lemma_enc_quads_push(qs.drop_first(), q);
        assert(enc_quads(qs.push(q)) =~= enc_quads(qs) + enc_quad(q));
    }
}

#[verifier::rlimit(100)]
proof fn lemma_enc_wheels_push(ws: Seq<Option<MeshV>>, w: Option<MeshV>)
    ensures
        enc_wheels(ws.push(w)) == enc_wheels(ws) + enc_wheel(w),
    decreases ws.len(),
{
    if ws.len() == 0 {
        assert(ws.push(w).drop_first() =~= Seq::<Option<MeshV>>::empty());
        assert(ws =~= Seq::<Option<MeshV>>::empty());
        assert(enc_wheels(Seq::<Option<MeshV>>::empty()) =~= Seq::<u8>::empty());
        assert(enc_wheels(ws.push(w)) =~= enc_wheels(ws) + enc_wheel(w));
    } else {
        assert(ws.push(w).drop_first() =~= ws.drop_first().push(w));
        lemma_enc_wheels_push(ws.drop_first(), w);
        assert(enc_wheels(ws.push(w)) =~= enc_wheels(ws) + enc_wheel(w));
    }
}

#[verifier::rlimit(100)]
proof fn lemma_enc_debris_push(ds: Seq<DebrieV>, d: DebrieV)
    ensures
        enc_debris(ds.push(d)) == enc_debris(ds) + enc_debrie(d),
    decreases ds.len(),
{
    if ds.len() == 0 {
        assert(ds.push(d).drop_first() =~= Seq::<DebrieV>::empty());
        assert(ds =~= Seq::<DebrieV>::empty());
        assert(enc_debris(Seq::<DebrieV>::empty()) =~= Seq::<u8>::empty());
        assert(enc_debris(ds.push(d)) =~= enc_debris(ds) + enc_debrie(d));
    } else {
        assert(ds.push(d).drop_first() =~= ds.drop_first().push(d));
        lemma_enc_debris_push(ds.drop_first(), d);
        assert(enc_debris(ds.push(d)) =~= enc_debris(ds) + enc_debrie(d));
    }
}

#[verifier::rlimit(100)]
proof fn lemma_enc_slots_push(ss: Seq<Option<SlotInfo>>, sl: Option<SlotInfo>)
    ensures
        enc_slots(ss.push(sl)) == enc_slots(ss) + enc_slot(sl),
    decreases ss.len(),
{
    if ss.len() == 0 {
        assert(ss.push(sl).drop_first() =~= Seq::<Option<SlotInfo>>::empty());
        assert(ss =~= Seq::<Option<SlotInfo>>::empty());
        assert(enc_slots(Seq::<Option<SlotInfo>>::empty()) =~= Seq::<u8>::empty());
        assert(enc_slots(ss.push(sl)) =~= enc_slots(ss) + enc_slot(sl));
    } else {
        assert(ss.push(sl).drop_first() =~= ss.drop_first().push(sl));
        lemma_enc_slots_push(ss.drop_first(), sl);
        assert(enc_slots(ss.push(sl)) =~= enc_slots(ss) + enc_slot(sl));
    }
}

proof fn lemma_tri_enc(t: Triangle)
    ensures
        enc_triangle(t) == u32_le(t.p0) + u32_le(t.p1) + u32_le(t.p2) + u32_le(t.n0) + u32_le(
            t.n1,
        ) + u32_le(t.n2) + u32_le(t.material),
{
    let f = tri_fields(t);
    assert(enc_u32s(Seq::<u32>::empty()) =~= Seq::<u8>::empty());
    assert(f.drop_first() =~= seq![t.p1, t.p2, t.n0, t.n1, t.n2, t.material]);
    assert(seq![t.p1, t.p2, t.n0, t.n1, t.n2, t.material].drop_first() =~= seq![
        t.p2,
        t.n0,
        t.n1,
        t.n2,
        t.material,
    ]);
    assert(seq![t.p2, t.n0, t.n1, t.n2, t.material].drop_first() =~= seq![
        t.n0,
        t.n1,
        t.n2,
        t.material,
    ]);
    assert(seq![t.n0, t.n1, t.n2, t.material].drop_first() =~= seq![t.n1, t.n2, t.material]);
    assert(seq![t.n1, t.n2, t.material].drop_first() =~= seq![t.n2, t.material]);
    assert(seq![t.n2, t.material].drop_first() =~= seq![t.material]);
    assert(seq![t.material].drop_first() =~= Seq::<u32>::empty());
    assert(enc_u32s(seq![t.material]) =~= u32_le(t.material));
    assert(enc_u32s(seq![t.n2, t.material]) =~= u32_le(t.n2) + u32_le(t.material));
    assert(enc_u32s(seq![t.n1, t.n2, t.material]) =~= u32_le(t.n1) + (u32_le(t.n2) + u32_le(
        t.material,
    )));
    assert(enc_u32s(seq![t.n0, t.n1, t.n2, t.material]) =~= u32_le(t.n0) + (u32_le(t.n1) + (u32_le(
        t.n2,
    ) + u32_le(t.material))));
    assert(enc_u32s(seq![t.p2, t.n0, t.n1, t.n2, t.material]) =~= u32_le(t.p2) + (u32_le(t.n0) + (
    u32_le(t.n1) + (u32_le(t.n2) + u32_le(t.material)))));
    assert(enc_u32s(seq![t.p1, t.p2, t.n0, t.n1, t.n2, t.material]) =~= u32_le(t.p1) + (u32_le(
        t.p2,
    ) + (u32_le(t.n0) + (u32_le(t.n1) + (u32_le(t.n2) + u32_le(t.material))))));
    assert(enc_u32s(f) =~= u32_le(t.p0) + (u32_le(t.p1) + (u32_le(t.p2) + (u32_le(t.n0) + (u32_le(
        t.n1,
    ) + (u32_le(t.n2) + u32_le(t.material)))))));
    assert(enc_triangle(t) =~= u32_le(t.p0) + u32_le(t.p1) + u32_le(t.p2) + u32_le(t.n0) + u32_le(
        t.n1,
    ) + u32_le(t.n2) + u32_le(t.material));
}

proof fn lemma_quad_enc(q: CollisionQuad)
    ensures
        enc_quad(q) == u32_le(q.i0) + u32_le(q.i1) + u32_le(q.i2) + u32_le(q.i3) + vertex_bytes(
            q.flat_normal,
        ) + vertex_bytes(q.middle),
{
    let f = quad_index_fields(q);
    assert(enc_u32s(Seq::<u32>::empty()) =~= Seq::<u8>::empty());
    assert(f.drop_first() =~= seq![q.i1, q.i2, q.i3]);
    assert(seq![q.i1, q.i2, q.i3].drop_first() =~= seq![q.i2, q.i3]);
    assert(seq![q.i2, q.i3].drop_first() =~= seq![q.i3]);
    assert(seq![q.i3].drop_first() =~= Seq::<u32>::empty());
    assert(enc_u32s(seq![q.i3]) =~= u32_le(q.i3));
    assert(enc_u32s(seq![q.i2, q.i3]) =~= u32_le(q.i2) + u32_le(q.i3));
    assert(enc_u32s(seq![q.i1, q.i2, q.i3]) =~= u32_le(q.i1) + (u32_le(q.i2) + u32_le(q.i3)));
    assert(enc_u32s(f) =~= u32_le(q.i0) + (u32_le(q.i1) + (u32_le(q.i2) + u32_le(q.i3))));
    assert(enc_quad(q) =~= u32_le(q.i0) + u32_le(q.i1) + u32_le(q.i2) + u32_le(q.i3)
        + vertex_bytes(q.flat_normal) + vertex_bytes(q.middle));
}

pub(crate) fn write_bytes(out: &mut Vec<u8>, src: &Vec<u8>)
    ensures
        final(out)@ == old(out)@ + src@,
{
    let n = src.len();
    let mut i: usize = 0;
    while i < n
        invariant
            n == src@.len(),
            i <= n,
            out@ == old(out)@ + src@.take(i as int),
        decreases n - i,
    {
        proof {
            assert(old(out)@ + src@.take(i + 1 as int) =~= (old(out)@ + src@.take(i as int)).push(
                src@[i as int],
            ));
        }
        out.push(src[i]);
        i = i + 1;
    }
    proof {
        assert(src@.take(n as int) =~= src@);
    }
}

fn encode_vertices_into(out: &mut Vec<u8>, vs: &Vec<RawVertex>)
    ensures
        final(out)@ == old(out)@ + enc_vertices(vs@),
{
    let n = vs.len();
    let mut i: usize = 0;
    while i < n
        invariant
            n == vs@.len(),
            i <= n,
            out@ == old(out)@ + enc_vertices(vs@.take(i as int)),
        decreases n - i,
    {
        proof {
            assert(vs@.take(i + 1 as int) =~= vs@.take(i as int).push(vs@[i as int]));
            lemma_enc_vertices_push(vs@.take(i as int), vs@[i as int]);
            assert(old(out)@ + (enc_vertices(vs@.take(i as int)) + vertex_bytes(vs@[i as int]))
                =~= (old(out)@ + enc_vertices(vs@.take(i as int))) + vertex_bytes(vs@[i as int]));
        }
        write_vertex(out, vs[i]);
        i = i + 1;
    }
    proof {
        assert(vs@.take(n as int) =~= vs@);
    }
}

fn encode_triangle_into(out: &mut Vec<u8>, t: &Triangle)
    ensures
        final(out)@ == old(out)@ + enc_triangle(*t),
{
    write_u32(out, t.p0);
    write_u32(out, t.p1);
    write_u32(out, t.p2);
    write_u32(out, t.n0);
    write_u32(out, t.n1);
    write_u32(out, t.n2);
    write_u32(out, t.material);
    proof {
        lemma_tri_enc(*t);
        assert(out@ =~= old(out)@ + enc_triangle(*t));
    }
}

fn encode_triangles_into(out: &mut Vec<u8>, ts: &Vec<Triangle>)
    ensures
        final(out)@ == old(out)@ + enc_triangles(ts@),
{
    let n = ts.len();
    let mut i: usize = 0;
    while i < n
        invariant
            n == ts@.len(),
            i <= n,
            out@ == old(out)@ + enc_triangles(ts@.take(i as int)),
        decreases n - i,
    {
        proof {
            assert(ts@.take(i + 1 as int) =~= ts@.take(i as int).push(ts@[i as int]));
            lemma_enc_triangles_push(ts@.take(i as int), ts@[i as int]);
            assert(old(out)@ + (enc_triangles(ts@.take(i as int)) + enc_triangle(ts@[i as int]))
                =~= (old(out)@ + enc_triangles(ts@.take(i as int))) + enc_triangle(ts@[i as int]));
        }
        encode_triangle_into(out, &ts[i]);
        i = i + 1;
    }
    proof {
        assert(ts@.take(n as int) =~= ts@);
    }
}

fn encode_quad_into(out: &mut Vec<u8>, q: &CollisionQuad)
    ensures
        final(out)@ == old(out)@ + enc_quad(*q),
{
    write_u32(out, q.i0);
    write_u32(out, q.i1);
    write_u32(out, q.i2);
    write_u32(out, q.i3);
    write_vertex(out, q.flat_normal);
    write_vertex(out, q.middle);
    proof {
        lemma_quad_enc(*q);
        assert(out@ =~= old(out)@ + enc_quad(*q));
    }
}

fn encode_quads_into(out: &mut Vec<u8>, qs: &Vec<CollisionQuad>)
    ensures
        final(out)@ == old(out)@ + enc_quads(qs@),
{
    let n = qs.len();
    let mut i: usize = 0;
    while i < n
        invariant
            n == qs@.len(),
            i <= n,
            out@ == old(out)@ + enc_quads(qs@.take(i as int)),
        decreases n - i,
    {
        proof {
            assert(qs@.take(i + 1 as int) =~= qs@.take(i as int).push(qs@[i as int]));
            lemma_enc_quads_push(qs@.take(i as int), qs@[i as int]);
            assert(old(out)@ + (enc_quads(qs@.take(i as int)) + enc_quad(qs@[i as int])) =~= (old(
                out,
            )@ + enc_quads(qs@.take(i as int))) + enc_quad(qs@[i as int]));
        }
        encode_quad_into(out, &qs[i]);
        i = i + 1;
    }
    proof {
        assert(qs@.take(n as int) =~= qs@);
    }
}

#[verifier::rlimit(100)]
fn encode_mesh_into(out: &mut Vec<u8>, m: &Mesh)
    requires
        mesh_wf(m@),
    ensures
        final(out)@ == old(out)@ + enc_mesh(m@),
{
    write_u32(out, m.positions.len() as u32);
    write_u32(out, m.normals.len() as u32);
    write_u32(out, m.triangles.len() as u32);
    encode_vertices_into(out, &m.positions);
    encode_vertices_into(out, &m.normals);
    encode_triangles_into(out, &m.triangles);
    write_i32(out, m.parent_offset.x);
    write_i32(out, m.parent_offset.y);
    write_i32(out, m.parent_offset.z);
    write_bytes(out, &m.physics);
    proof {
        assert(enc_v3i32(m@.parent_offset) =~= i32_le(m.parent_offset.x) + i32_le(
            m.parent_offset.y,
        ) + i32_le(m.parent_offset.z));
        assert(out@ =~= old(out)@ + enc_mesh(m@));
    }
}

#[verifier::rlimit(100)]
fn encode_shape_into(out: &mut Vec<u8>, sh: &Shape)
    requires
        shape_wf(sh@),
    ensures
        final(out)@ == old(out)@ + enc_shape(sh@),
{
    write_u32(out, sh.positions.len() as u32);
    write_u32(out, sh.quads.len() as u32);
    encode_vertices_into(out, &sh.positions);
    encode_quads_into(out, &sh.quads);
    proof {
        assert(out@ =~= old(out)@ + enc_shape(sh@));
    }
}

#[verifier::rlimit(100)]
fn encode_wheels_into(out: &mut Vec<u8>, ws: &Vec<Option<Mesh>>)
    requires
        forall|i: int|
            0 <= i < ws@.len() ==> match #[trigger] wheels_view(ws@)[i] {
                Some(m) => mesh_wf(m),
                None => true,
            },
    ensures
        final(out)@ == old(out)@ + enc_wheels(wheels_view(ws@)),
{
    let n = ws.len();
    let mut i: usize = 0;
    while i < n
        invariant
            n == ws@.len(),
            i <= n,
            forall|k: int|
                0 <= k < ws@.len() ==> match #[trigger] wheels_view(ws@)[k] {
                    Some(m) => mesh_wf(m),
                    None => true,
                },
            out@ == old(out)@ + enc_wheels(wheels_view(ws@).take(i as int)),
        decreases n - i,
    {
        proof {
            assert(wheels_view(ws@).take(i + 1 as int) =~= wheels_view(ws@).take(i as int).push(
                wheels_view(ws@)[i as int],
            ));
            lemma_enc_wheels_push(wheels_view(ws@).take(i as int), wheels_view(ws@)[i as int]);
            assert(old(out)@ + (enc_wheels(wheels_view(ws@).take(i as int)) + enc_wheel(
                wheels_view(ws@)[i as int],
            )) =~= (old(out)@ + enc_wheels(wheels_view(ws@).take(i as int))) + enc_wheel(
                wheels_view(ws@)[i as int],
            ));
        }
        match &ws[i] {
            None => {
                out.push(0u8);
                proof {
                    assert(enc_wheel(wheels_view(ws@)[i as int]) =~= seq![0u8]);
                    assert(out@ =~= old(out)@ + enc_wheels(wheels_view(ws@).take(i + 1 as int)));
                }
            },
            Some(m) => {
                out.push(1u8);
                encode_mesh_into(out, m);
                proof {
                    assert(enc_wheel(wheels_view(ws@)[i as int]) =~= seq![1u8] + enc_mesh(m@));
                    assert(out@ =~= old(out)@ + enc_wheels(wheels_view(ws@).take(i + 1 as int)));
                }
            },
        }
        i = i + 1;
    }
    proof {
        assert(wheels_view(ws@).take(n as int) =~= wheels_view(ws@));
    }
}

#[verifier::rlimit(100)]
fn encode_debris_into(out: &mut Vec<u8>, ds: &Vec<Debrie>)
    requires
        forall|i: int|
            0 <= i < ds@.len() ==> mesh_wf((#[trigger] debris_view(ds@)[i]).mesh) && shape_wf(
                debris_view(ds@)[i].shape,
            ),
    ensures
        final(out)@ == old(out)@ + enc_debris(debris_view(ds@)),
{
    let n = ds.len();
    let mut i: usize = 0;
    while i < n
        invariant
            n == ds@.len(),
            i <= n,
            forall|k: int|
                0 <= k < ds@.len() ==> mesh_wf((#[trigger] debris_view(ds@)[k]).mesh) && shape_wf(
                    debris_view(ds@)[k].shape,
                ),
            out@ == old(out)@ + enc_debris(debris_view(ds@).take(i as int)),
        decreases n - i,
    {
        proof {
            assert(debris_view(ds@).take(i + 1 as int) =~= debris_view(ds@).take(i as int).push(
                debris_view(ds@)[i as int],
            ));
            lemma_enc_debris_push(debris_view(ds@).take(i as int), debris_view(ds@)[i as int]);
            assert(old(out)@ + (enc_debris(debris_view(ds@).take(i as int)) + enc_debrie(
                debris_view(ds@)[i as int],
            )) =~= (old(out)@ + enc_debris(debris_view(ds@).take(i as int))) + enc_debrie(
                debris_view(ds@)[i as int],
            ));
        }
        encode_mesh_into(out, &ds[i].mesh);
        encode_shape_into(out, &ds[i].shape);
        proof {
            assert(enc_debrie(debris_view(ds@)[i as int]) =~= enc_mesh(ds@[i as int].mesh@)
                + enc_shape(ds@[i as int].shape@));
            assert(out@ =~= old(out)@ + enc_debris(debris_view(ds@).take(i + 1 as int)));
        }
        i = i + 1;
    }
    proof {
        assert(debris_view(ds@).take(n as int) =~= debris_view(ds@));
    }
}

#[verifier::rlimit(100)]
fn encode_slots_into(out: &mut Vec<u8>, ss: &Vec<Option<SlotInfo>>)
    ensures
        final(out)@ == old(out)@ + enc_slots(ss@),
{
    let n = ss.len();
    let mut i: usize = 0;
    while i < n
        invariant
            n == ss@.len(),
            i <= n,
            out@ == old(out)@ + enc_slots(ss@.take(i as int)),
        decreases n - i,
    {
        proof {
            assert(ss@.take(i + 1 as int) =~= ss@.take(i as int).push(ss@[i as int]));
            lemma_enc_slots_push(ss@.take(i as int), ss@[i as int]);
            assert(old(out)@ + (enc_slots(ss@.take(i as int)) + enc_slot(ss@[i as int])) =~= (old(
                out,
            )@ + enc_slots(ss@.take(i as int))) + enc_slot(ss@[i as int]));
        }
        match &ss[i] {
            None => {
                out.push(0u8);
                proof {
                    assert(enc_slot(ss@[i as int]) =~= seq![0u8]);
                    assert(out@ =~= old(out)@ + enc_slots(ss@.take(i + 1 as int)));
                }
            },
            Some(si) => {
                out.push(1u8);
                write_i32(out, si.pos.x);
                write_i32(out, si.pos.y);
                write_i32(out, si.pos.z);
                write_i32(out, si.angle);
                proof {
                    assert(enc_slot(ss@[i as int]) =~= seq![1u8] + (i32_le(si.pos.x) + i32_le(
                        si.pos.y,
                    ) + i32_le(si.pos.z)) + i32_le(si.angle));
                    assert(out@ =~= old(out)@ + enc_slots(ss@.take(i + 1 as int)));
                }
            },
        }
        i = i + 1;
    }
    proof {
        assert(ss@.take(n as int) =~= ss@);
    }
}

/// Serializes a model in the fixed section order, re-emitting only the
/// explicitly stored fields (never the derived bounds, polygons or
/// samples). Encoding a structurally well-formed model cannot fail.
#[verifier::rlimit(100)]
#[verifier::spinoff_prover]
pub fn encode_model(m: &Model) -> (out: Vec<u8>)
    requires
        model_wf(m@),
    ensures
        out@ == enc_model(m@),
{
    let mut out: Vec<u8> = Vec::new();
    encode_mesh_into(&mut out, &m.body);
    encode_shape_into(&mut out, &m.shape);
    write_u32(&mut out, m.wheels.len() as u32);
    encode_wheels_into(&mut out, &m.wheels);
    write_u32(&mut out, m.debris.len() as u32);
    encode_debris_into(&mut out, &m.debris);
    encode_slots_into(&mut out, &m.slots);
    write_i32(&mut out, m.dimensions.x);
    write_i32(&mut out, m.dimensions.y);
    write_i32(&mut out, m.dimensions.z);
    write_u32(&mut out, m.max_radius);
    write_u32(&mut out, m.color.main);
    write_u32(&mut out, m.color.shade);
    proof {
        assert(enc_v3i32(m@.dimensions) =~= i32_le(m.dimensions.x) + i32_le(m.dimensions.y)
            + i32_le(m.dimensions.z));
        assert(out@ =~= enc_model(m@));
    }
    out
}
} // verus!
