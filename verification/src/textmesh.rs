use vstd::prelude::*;
use crate::error::Error;
use crate::geom::{bounds_spec, compute_bounds, RawVertex, V3i32};
use crate::model::{
    debris_view, mesh_canonical, mesh_wf, model_canonical, model_wf, polygons_of, samples_of,
    shape_canonical, shape_wf, wheels_view, ColorPair, Debrie, DebrieV, Mesh, MeshV, Model, ModelV,
    Shape, SlotInfo, Triangle, NUM_SLOTS, PHYSICS_BYTES,
};

verus! {

// The text interchange form: one header stanza `m <npos> <nnorm> <ntri>`,
// then one `v` line per position, one `n` line per normal, one `f` line
// per triangle (three 0-based position indices, three 0-based normal
// indices, the material tag). Numerals are fixed-width decimal — a sign
// and three digits for a coordinate, ten digits for a 32-bit field — so
// every line has a fixed length. Physics, wheels, debris, slots,
// dimensions, radius and color have no home in this form: they travel in
// the sidecar record, or fall to documented defaults when it is absent.

pub open spec fn is_digit(b: u8) -> bool {
    48 <= b <= 57
}

pub open spec fn dig(b: u8) -> int {
    b - 48
}

pub open spec fn digit_byte(k: int) -> u8 {
    (48 + k) as u8
}

/// Three decimal digits of a magnitude below 1000.
pub open spec fn mag3_digits(m: int) -> Seq<u8> {
    seq![digit_byte(m / 100), digit_byte((m / 10) % 10), digit_byte(m % 10)]
}

/// A signed coordinate: `+` or `-`, then three digits.
pub open spec fn i8_text(v: i8) -> Seq<u8> {
    if v < 0 {
        seq![45u8] + mag3_digits(-(v as int))
    } else {
        seq![43u8] + mag3_digits(v as int)
    }
}

/// Ten decimal digits of a 32-bit field.
pub open spec fn u32_text(n: u32) -> Seq<u8> {
    seq![
        digit_byte((n as int) / 1000000000 % 10),
        digit_byte((n as int) / 100000000 % 10),
        digit_byte((n as int) / 10000000 % 10),
        digit_byte((n as int) / 1000000 % 10),
        digit_byte((n as int) / 100000 % 10),
        digit_byte((n as int) / 10000 % 10),
        digit_byte((n as int) / 1000 % 10),
        digit_byte((n as int) / 100 % 10),
        digit_byte((n as int) / 10 % 10),
        digit_byte((n as int) % 10),
    ]
}

pub open spec fn vline_text(tag: u8, v: RawVertex) -> Seq<u8> {
    seq![tag, 32u8] + i8_text(v.x) + seq![32u8] + i8_text(v.y) + seq![32u8] + i8_text(v.z) + seq![
        10u8,
    ]
}

pub open spec fn fline_text(t: Triangle) -> Seq<u8> {
    seq![102u8, 32u8] + u32_text(t.p0) + seq![32u8] + u32_text(t.p1) + seq![32u8] + u32_text(t.p2)
        + seq![32u8] + u32_text(t.n0) + seq![32u8] + u32_text(t.n1) + seq![32u8] + u32_text(t.n2)
        + seq![32u8] + u32_text(t.material) + seq![10u8]
}

pub open spec fn header_text(npos: u32, nnorm: u32, ntri: u32) -> Seq<u8> {
    seq![109u8, 32u8] + u32_text(npos) + seq![32u8] + u32_text(nnorm) + seq![32u8] + u32_text(ntri)
        + seq![10u8]
}

pub open spec fn vlines_text(tag: u8, vs: Seq<RawVertex>) -> Seq<u8>
    decreases vs.len(),
{
    if vs.len() == 0 {
        Seq::empty()
    } else {
        vline_text(tag, vs[0]) + vlines_text(tag, vs.drop_first())
    }
}

pub open spec fn flines_text(ts: Seq<Triangle>) -> Seq<u8>
    decreases ts.len(),
{
    if ts.len() == 0 {
        Seq::empty()
    } else {
        fline_text(ts[0]) + flines_text(ts.drop_first())
    }
}

/// The whole text rendering of a body mesh's geometry.
pub open spec fn text_of(
    positions: Seq<RawVertex>,
    normals: Seq<RawVertex>,
    triangles: Seq<Triangle>,
) -> Seq<u8> {
    header_text(positions.len() as u32, normals.len() as u32, triangles.len() as u32)
        + vlines_text(118u8, positions) + vlines_text(110u8, normals) + flines_text(triangles)
}

// ---- Parsing, suffix style; every syntax fault is MalformedGeometry ----

pub open spec fn parse_lit(s: Seq<u8>, b: u8) -> Result<Seq<u8>, Error> {
    if s.len() >= 1 && s[0] == b {
        Ok(s.skip(1))
    } else {
        Err(Error::MalformedGeometry)
    }
}

/// Three digits, as a magnitude below 1000.
pub open spec fn parse_mag3(s: Seq<u8>) -> Result<(int, Seq<u8>), Error> {
    if s.len() >= 3 && is_digit(s[0]) && is_digit(s[1]) && is_digit(s[2]) {
        Ok((100 * dig(s[0]) + 10 * dig(s[1]) + dig(s[2]), s.skip(3)))
    } else {
        Err(Error::MalformedGeometry)
    }
}

/// A signed coordinate, rejected when it leaves the signed byte range.
#[verifier::opaque]
pub open spec fn parse_i8_text(s: Seq<u8>) -> Result<(i8, Seq<u8>), Error> {
    if s.len() >= 1 && s[0] == 45 {
        match parse_mag3(s.skip(1)) {
            Ok((m, rest)) => if m <= 128 {
                Ok(((-m) as i8, rest))
            } else {
                Err(Error::MalformedGeometry)
            },
            Err(e) => Err(e),
        }
    } else if s.len() >= 1 && s[0] == 43 {
        match parse_mag3(s.skip(1)) {
            Ok((m, rest)) => if m <= 127 {
                Ok((m as i8, rest))
            } else {
                Err(Error::MalformedGeometry)
            },
            Err(e) => Err(e),
        }
    } else {
        Err(Error::MalformedGeometry)
    }
}

pub open spec fn ten_digit_value(s: Seq<u8>) -> int {
    1000000000 * dig(s[0]) + 100000000 * dig(s[1]) + 10000000 * dig(s[2]) + 1000000 * dig(s[3])
        + 100000 * dig(s[4]) + 10000 * dig(s[5]) + 1000 * dig(s[6]) + 100 * dig(s[7]) + 10 * dig(
        s[8],
    ) + dig(s[9])
}

/// Ten digits, as a 32-bit field; a value past the 32-bit range is
/// rejected.
#[verifier::opaque]
pub open spec fn parse_u32_text(s: Seq<u8>) -> Result<(u32, Seq<u8>), Error> {
    if s.len() >= 10 && is_digit(s[0]) && is_digit(s[1]) && is_digit(s[2]) && is_digit(s[3])
        && is_digit(s[4]) && is_digit(s[5]) && is_digit(s[6]) && is_digit(s[7]) && is_digit(s[8])
        && is_digit(s[9]) {
        if ten_digit_value(s) <= 0xffffffff {
            Ok((ten_digit_value(s) as u32, s.skip(10)))
        } else {
            Err(Error::MalformedGeometry)
        }
    } else {
        Err(Error::MalformedGeometry)
    }
}

/// One point line: the tag, then three signed coordinates.
#[verifier::opaque]
pub open spec fn parse_vline(s: Seq<u8>, tag: u8) -> Result<(RawVertex, Seq<u8>), Error> {
    match parse_lit(s, tag) {
        Ok(s1) => match parse_lit(s1, 32) {
            Ok(s2) => match parse_i8_text(s2) {
                Ok((x, s3)) => match parse_lit(s3, 32) {
                    Ok(s4) => match parse_i8_text(s4) {
                        Ok((y, s5)) => match parse_lit(s5, 32) {
                            Ok(s6) => match parse_i8_text(s6) {
                                Ok((z, s7)) => match parse_lit(s7, 10) {
                                    Ok(s8) => Ok((RawVertex { x, y, z }, s8)),
                                    Err(e) => Err(e),
                                },
                                Err(e) => Err(e),
                            },
                            Err(e) => Err(e),
                        },
                        Err(e) => Err(e),
                    },
                    Err(e) => Err(e),
                },
                Err(e) => Err(e),
            },
            Err(e) => Err(e),
        },
        Err(e) => Err(e),
    }
}

pub open spec fn parse_vlines(s: Seq<u8>, tag: u8, n: nat) -> Result<
    (Seq<RawVertex>, Seq<u8>),
    Error,
>
    decreases n,
{
    if n == 0 {
        Ok((Seq::empty(), s))
    } else {
        match parse_vline(s, tag) {
            Ok((v, s1)) => match parse_vlines(s1, tag, (n - 1) as nat) {
                Ok((vs, s2)) => Ok((seq![v] + vs, s2)),
                Err(e) => Err(e),
            },
            Err(e) => Err(e),
        }
    }
}

/// Seven 32-bit fields after the tag; the indices validated against the
/// declared counts exactly as in the binary format.
#[verifier::opaque]
pub open spec fn parse_fline(s: Seq<u8>, npos: int, nnorm: int) -> Result<
    (Triangle, Seq<u8>),
    Error,
> {
    match parse_lit(s, 102) {
        Ok(s0) => match parse_lit(s0, 32) {
            Ok(s1) => match parse_u32_text(s1) {
                Ok((p0, s2)) => match parse_lit(s2, 32) {
                    Ok(s3) => match parse_u32_text(s3) {
                        Ok((p1, s4)) => match parse_lit(s4, 32) {
                            Ok(s5) => match parse_u32_text(s5) {
                                Ok((p2, s6)) => match parse_lit(s6, 32) {
                                    Ok(s7) => match parse_u32_text(s7) {
                                        Ok((n0, s8)) => match parse_lit(s8, 32) {
                                            Ok(s9) => match parse_u32_text(s9) {
                                                Ok((n1, s10)) => match parse_lit(s10, 32) {
                                                    Ok(s11) => match parse_u32_text(s11) {
                                                        Ok((n2, s12)) => match parse_lit(s12, 32) {
                                                            Ok(s13) => match parse_u32_text(s13) {
                                                                Ok((material, s14)) => match parse_lit(
                                                                    s14,
                                                                    10,
                                                                ) {
                                                                    Ok(s15) => if p0 < npos && p1
                                                                        < npos && p2 < npos && n0
                                                                        < nnorm && n1 < nnorm && n2
                                                                        < nnorm {
                                                                        Ok(
                                                                            (
                                                                                Triangle {
                                                                                    p0,
                                                                                    p1,
                                                                                    p2,
                                                                                    n0,
                                                                                    n1,
                                                                                    n2,
                                                                                    material,
                                                                                },
                                                                                s15,
                                                                            ),
                                                                        )
                                                                    } else {
                                                                        Err(
                                                                            Error::MalformedGeometry,
                                                                        )
                                                                    },
                                                                    Err(e) => Err(e),
                                                                },
                                                                Err(e) => Err(e),
                                                            },
                                                            Err(e) => Err(e),
                                                        },
                                                        Err(e) => Err(e),
                                                    },
                                                    Err(e) => Err(e),
                                                },
                                                Err(e) => Err(e),
                                            },
                                            Err(e) => Err(e),
                                        },
                                        Err(e) => Err(e),
                                    },
                                    Err(e) => Err(e),
                                },
                                Err(e) => Err(e),
                            },
                            Err(e) => Err(e),
                        },
                        Err(e) => Err(e),
                    },
                    Err(e) => Err(e),
                },
                Err(e) => Err(e),
            },
            Err(e) => Err(e),
        },
        Err(e) => Err(e),
    }
}

pub open spec fn parse_flines(s: Seq<u8>, n: nat, npos: int, nnorm: int) -> Result<
    (Seq<Triangle>, Seq<u8>),
    Error,
>
    decreases n,
{
    if n == 0 {
        Ok((Seq::empty(), s))
    } else {
        match parse_fline(s, npos, nnorm) {
            Ok((t, s1)) => match parse_flines(s1, (n - 1) as nat, npos, nnorm) {
                Ok((ts, s2)) => Ok((seq![t] + ts, s2)),
                Err(e) => Err(e),
            },
            Err(e) => Err(e),
        }
    }
}

#[verifier::opaque]
pub open spec fn parse_header(s: Seq<u8>) -> Result<((u32, u32, u32), Seq<u8>), Error> {
    match parse_lit(s, 109) {
        Ok(s0) => match parse_lit(s0, 32) {
            Ok(s1) => match parse_u32_text(s1) {
                Ok((npos, s2)) => match parse_lit(s2, 32) {
                    Ok(s3) => match parse_u32_text(s3) {
                        Ok((nnorm, s4)) => match parse_lit(s4, 32) {
                            Ok(s5) => match parse_u32_text(s5) {
                                Ok((ntri, s6)) => match parse_lit(s6, 10) {
                                    Ok(s7) => Ok(((npos, nnorm, ntri), s7)),
                                    Err(e) => Err(e),
                                },
                                Err(e) => Err(e),
                            },
                            Err(e) => Err(e),
                        },
                        Err(e) => Err(e),
                    },
                    Err(e) => Err(e),
                },
                Err(e) => Err(e),
            },
            Err(e) => Err(e),
        },
        Err(e) => Err(e),
    }
}

/// What parsing a whole text mesh means: the header, the stanzas in
/// order, nothing after them; a zero vertex count is `EmptyGeometry`.
pub open spec fn spec_parse_text(s: Seq<u8>) -> Result<
    (Seq<RawVertex>, Seq<RawVertex>, Seq<Triangle>),
    Error,
> {
    match parse_header(s) {
        Ok(((npos, nnorm, ntri), s1)) => if npos == 0 {
            Err(Error::EmptyGeometry)
        } else {
            match parse_vlines(s1, 118, npos as nat) {
                Ok((positions, s2)) => match parse_vlines(s2, 110, nnorm as nat) {
                    Ok((normals, s3)) => match parse_flines(
                        s3,
                        ntri as nat,
                        npos as int,
                        nnorm as int,
                    ) {
                        Ok((triangles, s4)) => if s4.len() == 0 {
                            Ok((positions, normals, triangles))
                        } else {
                            Err(Error::MalformedGeometry)
                        },
                        Err(e) => Err(e),
                    },
                    Err(e) => Err(e),
                },
                Err(e) => Err(e),
            }
        },
        Err(e) => Err(e),
    }
}

// ---- The sidecar record ----

/// The metadata the text form cannot carry, keyed to the model by its
/// caller (one record per exported file). Without it an import falls
/// back to documented defaults.
pub struct Sidecar {
    pub parent_offset: V3i32,
    pub physics: Vec<u8>,
    pub wheels: Vec<Option<Mesh>>,
    pub debris: Vec<Debrie>,
    pub slots: Vec<Option<SlotInfo>>,
    pub dimensions: V3i32,
    pub max_radius: u32,
    pub color: ColorPair,
}

/// The mathematical value of a `Sidecar`.
pub ghost struct SidecarV {
    pub parent_offset: V3i32,
    pub physics: Seq<u8>,
    pub wheels: Seq<Option<MeshV>>,
    pub debris: Seq<DebrieV>,
    pub slots: Seq<Option<SlotInfo>>,
    pub dimensions: V3i32,
    pub max_radius: u32,
    pub color: ColorPair,
}

impl View for Sidecar {
    type V = SidecarV;

    open spec fn view(&self) -> SidecarV {
        SidecarV {
            parent_offset: self.parent_offset,
            physics: self.physics@,
            wheels: wheels_view(self.wheels@),
            debris: debris_view(self.debris@),
            slots: self.slots@,
            dimensions: self.dimensions,
            max_radius: self.max_radius,
            color: self.color,
        }
    }
}

/// A sidecar an import can re-attach: structurally sound, its meshes
/// carrying bounds that match their vertices.
pub open spec fn sidecar_wf(sc: SidecarV) -> bool {
    &&& sc.physics.len() == PHYSICS_BYTES
    &&& sc.slots.len() == NUM_SLOTS
    &&& sc.wheels.len() < 0x1_0000_0000
    &&& sc.debris.len() < 0x1_0000_0000
    &&& forall|i: int|
        0 <= i < sc.wheels.len() ==> match #[trigger] sc.wheels[i] {
            Some(w) => mesh_wf(w) && mesh_canonical(w),
            None => true,
        }
    &&& forall|i: int|
        0 <= i < sc.debris.len() ==> {
            &&& mesh_wf((#[trigger] sc.debris[i]).mesh)
            &&& mesh_canonical(sc.debris[i].mesh)
            &&& shape_wf(sc.debris[i].shape)
            &&& shape_canonical(sc.debris[i].shape)
        }
}

/// The sidecar an export emits: everything of the model but the body
/// geometry.
pub open spec fn sidecar_of(m: ModelV) -> SidecarV {
    SidecarV {
        parent_offset: m.body.parent_offset,
        physics: m.body.physics,
        wheels: m.wheels,
        debris: m.debris,
        slots: m.slots,
        dimensions: m.dimensions,
        max_radius: m.max_radius,
        color: m.color,
    }
}

/// The model an import yields: the parsed geometry with recomputed
/// bounds, an empty collision shape, and the sidecar's metadata — or,
/// with no sidecar, zeroed physics, no wheels, no debris, empty slots, a
/// zero offset and color, and dimensions and radius taken from the
/// recomputed bounds.
pub open spec fn import_result(
    positions: Seq<RawVertex>,
    normals: Seq<RawVertex>,
    triangles: Seq<Triangle>,
    sc: Option<SidecarV>,
) -> ModelV {
    let bounds = bounds_spec(positions);
    let empty_shape = crate::model::ShapeV {
        positions: Seq::empty(),
        quads: Seq::empty(),
        polygons: polygons_of(Seq::empty()),
        samples: samples_of(Seq::empty(), Seq::empty()),
    };
    match sc {
        Some(s) => ModelV {
            body: MeshV {
                positions,
                normals,
                triangles,
                parent_offset: s.parent_offset,
                physics: s.physics,
                bounds,
            },
            shape: empty_shape,
            wheels: s.wheels,
            debris: s.debris,
            slots: s.slots,
            dimensions: s.dimensions,
            max_radius: s.max_radius,
            color: s.color,
        },
        None => ModelV {
            body: MeshV {
                positions,
                normals,
                triangles,
                parent_offset: V3i32 { x: 0, y: 0, z: 0 },
                physics: Seq::new(PHYSICS_BYTES as nat, |i: int| 0u8),
                bounds,
            },
            shape: empty_shape,
            wheels: Seq::empty(),
            debris: Seq::empty(),
            slots: Seq::new(NUM_SLOTS as nat, |i: int| None),
            dimensions: V3i32 {
                x: (bounds.coord_max.x - bounds.coord_min.x) as i32,
                y: (bounds.coord_max.y - bounds.coord_min.y) as i32,
                z: (bounds.coord_max.z - bounds.coord_min.z) as i32,
            },
            max_radius: bounds.max_radius,
            color: ColorPair { main: 0, shade: 0 },
        },
    }
}


// ---- Executable writing ----

fn push_mag3(out: &mut Vec<u8>, m: u32)
    requires
        m <= 999,
    ensures
        final(out)@ == old(out)@ + mag3_digits(m as int),
{
    out.push((48 + m / 100) as u8);
    out.push((48 + (m / 10) % 10) as u8);
    out.push((48 + m % 10) as u8);
    proof {
        assert(out@ =~= old(out)@ + mag3_digits(m as int));
    }
}

fn push_i8_text(out: &mut Vec<u8>, v: i8)
    ensures
        final(out)@ == old(out)@ + i8_text(v),
{
    if v < 0 {
        out.push(45);
        let m = (0 - (v as i32)) as u32;
        push_mag3(out, m);
        proof {
            assert(out@ =~= old(out)@ + i8_text(v));
        }
    } else {
        out.push(43);
        push_mag3(out, v as u32);
        proof {
            assert(out@ =~= old(out)@ + i8_text(v));
        }
    }
}

fn push_u32_text(out: &mut Vec<u8>, n: u32)
    ensures
        final(out)@ == old(out)@ + u32_text(n),
{
    out.push((48 + (n / 1000000000) % 10) as u8);
    out.push((48 + (n / 100000000) % 10) as u8);
    out.push((48 + (n / 10000000) % 10) as u8);
    out.push((48 + (n / 1000000) % 10) as u8);
    out.push((48 + (n / 100000) % 10) as u8);
    out.push((48 + (n / 10000) % 10) as u8);
    out.push((48 + (n / 1000) % 10) as u8);
    out.push((48 + (n / 100) % 10) as u8);
    out.push((48 + (n / 10) % 10) as u8);
    out.push((48 + n % 10) as u8);
    proof {
        assert(out@ =~= old(out)@ + u32_text(n));
    }
}

#[verifier::rlimit(100)]
fn write_vline(out: &mut Vec<u8>, tag: u8, v: RawVertex)
    ensures
        final(out)@ == old(out)@ + vline_text(tag, v),
{
    out.push(tag);
    out.push(32);
    push_i8_text(out, v.x);
    out.push(32);
    push_i8_text(out, v.y);
    out.push(32);
    push_i8_text(out, v.z);
    out.push(10);
    proof {
        assert(out@ =~= old(out)@ + vline_text(tag, v));
    }
}

#[verifier::rlimit(100)]
fn fline_bytes(t: &Triangle) -> (r: Vec<u8>)
    ensures
        r@ == fline_text(*t),
{
    let mut out: Vec<u8> = Vec::new();
    out.push(102);
    out.push(32);
    proof {
        assert(out@ =~= seq![102u8, 32u8]);
    }
    push_u32_text(&mut out, t.p0);
    let ghost p1 = seq![102u8, 32u8] + u32_text(t.p0);
    proof {
        assert(out@ =~= p1);
    }
    out.push(32);
    push_u32_text(&mut out, t.p1);
    let ghost p2 = p1 + seq![32u8] + u32_text(t.p1);
    proof {
        assert(out@ =~= p2);
    }
    out.push(32);
    push_u32_text(&mut out, t.p2);
    let ghost p3 = p2 + seq![32u8] + u32_text(t.p2);
    proof {
        assert(out@ =~= p3);
    }
    out.push(32);
    push_u32_text(&mut out, t.n0);
    let ghost p4 = p3 + seq![32u8] + u32_text(t.n0);
    proof {
        assert(out@ =~= p4);
    }
    out.push(32);
    push_u32_text(&mut out, t.n1);
    let ghost p5 = p4 + seq![32u8] + u32_text(t.n1);
    proof {
        assert(out@ =~= p5);
    }
    out.push(32);
    push_u32_text(&mut out, t.n2);
    let ghost p6 = p5 + seq![32u8] + u32_text(t.n2);
    proof {
        assert(out@ =~= p6);
    }
    out.push(32);
    push_u32_text(&mut out, t.material);
    out.push(10);
    let ghost p7 = p6 + seq![32u8] + u32_text(t.material) + seq![10u8];
    proof {
        assert(out@ =~= p7);
        assert(fline_text(*t) =~= p7);
    }
    out
}

fn write_fline(out: &mut Vec<u8>, t: &Triangle)
    ensures
        final(out)@ == old(out)@ + fline_text(*t),
{
    let line = fline_bytes(t);
    crate::codec::write_bytes(out, &line);
}

proof fn lemma_vlines_push(tag: u8, vs: Seq<RawVertex>, v: RawVertex)
    ensures
        vlines_text(tag, vs.push(v)) == vlines_text(tag, vs) + vline_text(tag, v),
    decreases vs.len(),
{
    if vs.len() == 0 {
        assert(vs.push(v).drop_first() =~= Seq::<RawVertex>::empty());
        assert(vs =~= Seq::<RawVertex>::empty());
        assert(vlines_text(tag, Seq::<RawVertex>::empty()) =~= Seq::<u8>::empty());
        assert(vlines_text(tag, vs.push(v)) =~= vlines_text(tag, vs) + vline_text(tag, v));
    } else {
        assert(vs.push(v).drop_first() =~= vs.drop_first().push(v));
        lemma_vlines_push(tag, vs.drop_first(), v);
        assert(vlines_text(tag, vs.push(v)) =~= vlines_text(tag, vs) + vline_text(tag, v));
    }
}

proof fn lemma_flines_push(ts: Seq<Triangle>, t: Triangle)
    ensures
        flines_text(ts.push(t)) == flines_text(ts) + fline_text(t),
    decreases ts.len(),
{
    if ts.len() == 0 {
        assert(ts.push(t).drop_first() =~= Seq::<Triangle>::empty());
        assert(ts =~= Seq::<Triangle>::empty());
        assert(flines_text(Seq::<Triangle>::empty()) =~= Seq::<u8>::empty());
        assert(flines_text(ts.push(t)) =~= flines_text(ts) + fline_text(t));
    } else {
        assert(ts.push(t).drop_first() =~= ts.drop_first().push(t));
        lemma_flines_push(ts.drop_first(), t);
        assert(flines_text(ts.push(t)) =~= flines_text(ts) + fline_text(t));
    }
}

fn write_vlines(out: &mut Vec<u8>, tag: u8, vs: &Vec<RawVertex>)
    ensures
        final(out)@ == old(out)@ + vlines_text(tag, vs@),
{
    let n = vs.len();
    let mut i: usize = 0;
    while i < n
        invariant
            n == vs@.len(),
            i <= n,
            out@ == old(out)@ + vlines_text(tag, vs@.take(i as int)),
        decreases n - i,
    {
        proof {
            assert(vs@.take(i + 1 as int) =~= vs@.take(i as int).push(vs@[i as int]));
            lemma_vlines_push(tag, vs@.take(i as int), vs@[i as int]);
            assert(old(out)@ + (vlines_text(tag, vs@.take(i as int)) + vline_text(
                tag,
                vs@[i as int],
            )) =~= (old(out)@ + vlines_text(tag, vs@.take(i as int))) + vline_text(
                tag,
                vs@[i as int],
            ));
        }
        write_vline(out, tag, vs[i]);
        i = i + 1;
    }
    proof {
        assert(vs@.take(n as int) =~= vs@);
    }
}

fn write_flines(out: &mut Vec<u8>, ts: &Vec<Triangle>)
    ensures
        final(out)@ == old(out)@ + flines_text(ts@),
{
    let n = ts.len();
    let mut i: usize = 0;
    while i < n
        invariant
            n == ts@.len(),
            i <= n,
            out@ == old(out)@ + flines_text(ts@.take(i as int)),
        decreases n - i,
    {
        proof {
            assert(ts@.take(i + 1 as int) =~= ts@.take(i as int).push(ts@[i as int]));
            lemma_flines_push(ts@.take(i as int), ts@[i as int]);
            assert(old(out)@ + (flines_text(ts@.take(i as int)) + fline_text(ts@[i as int])) =~= (
            old(out)@ + flines_text(ts@.take(i as int))) + fline_text(ts@[i as int]));
        }
        write_fline(out, &ts[i]);
        i = i + 1;
    }
    proof {
        assert(ts@.take(n as int) =~= ts@);
    }
}

/// Exports a model to the text form plus its sidecar: the body geometry
/// becomes stanzas, everything else moves into the sidecar record. The
/// asymmetry is the deliberate interchange boundary — nothing is
/// silently dropped.
#[verifier::rlimit(100)]
pub fn export_text_mesh(m: Model) -> (r: (Vec<u8>, Sidecar))
    requires
        model_wf(m@),
    ensures
        r.0@ == text_of(m@.body.positions, m@.body.normals, m@.body.triangles),
        r.1@ == sidecar_of(m@),
        model_canonical(m@) ==> sidecar_wf(r.1@),
{
    let Model { body, shape: _, wheels, debris, slots, dimensions, max_radius, color } = m;
    let mut text: Vec<u8> = Vec::new();
    text.push(109);
    text.push(32);
    push_u32_text(&mut text, body.positions.len() as u32);
    text.push(32);
    push_u32_text(&mut text, body.normals.len() as u32);
    text.push(32);
    push_u32_text(&mut text, body.triangles.len() as u32);
    text.push(10);
    proof {
        assert(text@ =~= header_text(
            body.positions.len() as u32,
            body.normals.len() as u32,
            body.triangles.len() as u32,
        ));
    }
    write_vlines(&mut text, 118, &body.positions);
    write_vlines(&mut text, 110, &body.normals);
    write_flines(&mut text, &body.triangles);
    proof {
        assert(text@ =~= text_of(body.positions@, body.normals@, body.triangles@));
    }
    let sc = Sidecar {
        parent_offset: body.parent_offset,
        physics: body.physics,
        wheels,
        debris,
        slots,
        dimensions,
        max_radius,
        color,
    };
    (text, sc)
}

// ---- Executable reading ----

fn read_lit(v: &Vec<u8>, pos: usize, b: u8) -> (r: Result<usize, Error>)
    requires
        pos <= v@.len(),
    ensures
        match r {
            Ok(p2) => pos < p2 <= v@.len() && parse_lit(v@.skip(pos as int), b) == Ok::<
                Seq<u8>,
                Error,
            >(v@.skip(p2 as int)),
            Err(e) => parse_lit(v@.skip(pos as int), b) == Err::<Seq<u8>, Error>(e),
        },
{
    if pos < v.len() && v[pos] == b {
        proof {
            crate::bytes::lemma_skip_skip(v@, pos as int, 1);
        }
        Ok(pos + 1)
    } else {
        Err(Error::MalformedGeometry)
    }
}

fn read_mag3(v: &Vec<u8>, pos: usize) -> (r: Result<(u32, usize), Error>)
    requires
        pos <= v@.len(),
    ensures
        match r {
            Ok((m, p2)) => pos < p2 <= v@.len() && m <= 999 && parse_mag3(v@.skip(pos as int))
                == Ok::<(int, Seq<u8>), Error>((m as int, v@.skip(p2 as int))),
            Err(e) => parse_mag3(v@.skip(pos as int)) == Err::<(int, Seq<u8>), Error>(e),
        },
{
    if v.len() - pos < 3 {
        return Err(Error::MalformedGeometry);
    }
    let b0 = v[pos];
    let b1 = v[pos + 1];
    let b2 = v[pos + 2];
    proof {
        assert(v@.skip(pos as int)[0] == v@[pos as int]);
        assert(v@.skip(pos as int)[1] == v@[pos as int + 1]);
        assert(v@.skip(pos as int)[2] == v@[pos as int + 2]);
        crate::bytes::lemma_skip_skip(v@, pos as int, 3);
    }
    if 48 <= b0 && b0 <= 57 && 48 <= b1 && b1 <= 57 && 48 <= b2 && b2 <= 57 {
        let m = 100 * ((b0 - 48) as u32) + 10 * ((b1 - 48) as u32) + ((b2 - 48) as u32);
        Ok((m, pos + 3))
    } else {
        Err(Error::MalformedGeometry)
    }
}

fn read_i8_text(v: &Vec<u8>, pos: usize) -> (r: Result<(i8, usize), Error>)
    requires
        pos <= v@.len(),
    ensures
        match r {
            Ok((x, p2)) => pos < p2 <= v@.len() && parse_i8_text(v@.skip(pos as int)) == Ok::<
                (i8, Seq<u8>),
                Error,
            >((x, v@.skip(p2 as int))),
            Err(e) => parse_i8_text(v@.skip(pos as int)) == Err::<(i8, Seq<u8>), Error>(e),
        },
{
    proof {
        reveal(parse_i8_text);
    }
    if pos >= v.len() {
        return Err(Error::MalformedGeometry);
    }
    let sign = v[pos];
    proof {
        assert(v@.skip(pos as int)[0] == v@[pos as int]);
        crate::bytes::lemma_skip_skip(v@, pos as int, 1);
    }
    if sign == 45 {
        match read_mag3(v, pos + 1) {
            Ok((m, p2)) => if m <= 128 {
                Ok(((0 - (m as i32)) as i8, p2))
            } else {
                Err(Error::MalformedGeometry)
            },
            Err(e) => Err(e),
        }
    } else if sign == 43 {
        match read_mag3(v, pos + 1) {
            Ok((m, p2)) => if m <= 127 {
                Ok((m as i8, p2))
            } else {
                Err(Error::MalformedGeometry)
            },
            Err(e) => Err(e),
        }
    } else {
        Err(Error::MalformedGeometry)
    }
}

#[verifier::rlimit(100)]
fn read_u32_text(v: &Vec<u8>, pos: usize) -> (r: Result<(u32, usize), Error>)
    requires
        pos <= v@.len(),
    ensures
        match r {
            Ok((x, p2)) => pos < p2 <= v@.len() && parse_u32_text(v@.skip(pos as int)) == Ok::<
                (u32, Seq<u8>),
                Error,
            >((x, v@.skip(p2 as int))),
            Err(e) => parse_u32_text(v@.skip(pos as int)) == Err::<(u32, Seq<u8>), Error>(e),
        },
{
    proof {
        reveal(parse_u32_text);
    }
    if v.len() - pos < 10 {
        return Err(Error::MalformedGeometry);
    }
    proof {
        assert(v@.skip(pos as int)[0] == v@[pos as int]);
        assert(v@.skip(pos as int)[1] == v@[pos as int + 1]);
        assert(v@.skip(pos as int)[2] == v@[pos as int + 2]);
        assert(v@.skip(pos as int)[3] == v@[pos as int + 3]);
        assert(v@.skip(pos as int)[4] == v@[pos as int + 4]);
        assert(v@.skip(pos as int)[5] == v@[pos as int + 5]);
        assert(v@.skip(pos as int)[6] == v@[pos as int + 6]);
        assert(v@.skip(pos as int)[7] == v@[pos as int + 7]);
        assert(v@.skip(pos as int)[8] == v@[pos as int + 8]);
        assert(v@.skip(pos as int)[9] == v@[pos as int + 9]);
        crate::bytes::lemma_skip_skip(v@, pos as int, 10);
    }
    let vlen = v.len();
    let mut acc: u64 = 0;
    let mut k: usize = 0;
    let mut ok: bool = true;
    while k < 10
        invariant
            vlen == v@.len(),
            pos + 10 <= vlen,
            k <= 10,
            acc <= 9999999999,
            ok ==> forall|j: int| 0 <= j < k ==> is_digit(#[trigger] v@[pos + j]),
            ok ==> acc == digits_value_prefix(v@, pos as int, k as int),
            !ok ==> exists|j: int| 0 <= j < k && !is_digit(#[trigger] v@[pos + j]),
        decreases 10 - k,
    {
        let b = v[pos + k];
        if b < 48 || b > 57 {
            ok = false;
        } else if ok {
            proof {
                assert(forall|j: int| 0 <= j < k + 1 ==> is_digit(#[trigger] v@[pos + j]));
                lemma_dvp_bound(v@, pos as int, k + 1 as int);
                lemma_p10_mono(k + 1 as int, 10);
                assert(p10(10) == 10000000000) by {
                    reveal_with_fuel(p10, 11);
                }
            }
            acc = acc * 10 + ((b - 48) as u64);
        }
        k = k + 1;
    }
    if !ok {
        return Err(Error::MalformedGeometry);
    }
    proof {
        lemma_digits_value(v@, pos as int);
    }
    if acc > 0xffffffff {
        return Err(Error::MalformedGeometry);
    }
    Ok((acc as u32, pos + 10))
}

/// Ten to the `k`-th power.
pub open spec fn p10(k: int) -> int
    decreases k,
{
    if k <= 0 {
        1
    } else {
        10 * p10(k - 1)
    }
}

proof fn lemma_p10_pos(k: int)
    ensures
        p10(k) >= 1,
    decreases (if k > 0 { k } else { 0 }),
{
    if k > 0 {
        lemma_p10_pos(k - 1);
    }
}

proof fn lemma_p10_mono(a: int, b: int)
    requires
        a <= b,
    ensures
        p10(a) <= p10(b),
    decreases (if b > 0 { b } else { 0 }),
{
    if a < b && b > 0 {
        lemma_p10_mono(a, b - 1);
        lemma_p10_pos(b - 1);
    }
}

proof fn lemma_dvp_bound(s: Seq<u8>, pos: int, k: int)
    requires
        0 <= k,
        0 <= pos,
        pos + k <= s.len(),
        forall|j: int| 0 <= j < k ==> is_digit(#[trigger] s[pos + j]),
    ensures
        0 <= digits_value_prefix(s, pos, k) < p10(k),
    decreases k,
{
    if k > 0 {
        lemma_dvp_bound(s, pos, k - 1);
    }
}

/// Value of the first `k` of the ten digits, most significant first.
pub open spec fn digits_value_prefix(s: Seq<u8>, pos: int, k: int) -> int
    decreases k,
{
    if k <= 0 {
        0
    } else {
        10 * digits_value_prefix(s, pos, k - 1) + dig(s[pos + k - 1])
    }
}

proof fn lemma_digits_value(s: Seq<u8>, pos: int)
    requires
        0 <= pos,
        pos + 10 <= s.len(),
        forall|j: int| 0 <= j < 10 ==> is_digit(#[trigger] s[pos + j]),
    ensures
        digits_value_prefix(s, pos, 10) == ten_digit_value(s.skip(pos)),
        0 <= digits_value_prefix(s, pos, 10) <= 9999999999,
{
    assert(forall|j: int| 0 <= j < 10 ==> s.skip(pos)[j] == s[pos + j]);
    lemma_dvp_bound(s, pos, 10);
    lemma_p10_mono(10, 10);
    assert(p10(10) == 10000000000) by {
        reveal_with_fuel(p10, 11);
    }
    assert(digits_value_prefix(s, pos, 10) == ten_digit_value(s.skip(pos))) by {
        reveal_with_fuel(digits_value_prefix, 11);
    }
}

#[verifier::rlimit(100)]
fn read_vline(v: &Vec<u8>, pos: usize, tag: u8) -> (r: Result<(RawVertex, usize), Error>)
    requires
        pos <= v@.len(),
    ensures
        match r {
            Ok((x, p2)) => pos <= p2 <= v@.len() && parse_vline(v@.skip(pos as int), tag) == Ok::<
                (RawVertex, Seq<u8>),
                Error,
            >((x, v@.skip(p2 as int))),
            Err(e) => parse_vline(v@.skip(pos as int), tag) == Err::<(RawVertex, Seq<u8>), Error>(
                e,
            ),
        },
{
    proof {
        reveal(parse_vline);
    }
    let p1 = match read_lit(v, pos, tag) {
        Ok(p) => p,
        Err(e) => {
            return Err(e);
        },
    };
    let p2 = match read_lit(v, p1, 32) {
        Ok(p) => p,
        Err(e) => {
            return Err(e);
        },
    };
    let (x, p3) = match read_i8_text(v, p2) {
        Ok(p) => p,
        Err(e) => {
            return Err(e);
        },
    };
    let p4 = match read_lit(v, p3, 32) {
        Ok(p) => p,
        Err(e) => {
            return Err(e);
        },
    };
    let (y, p5) = match read_i8_text(v, p4) {
        Ok(p) => p,
        Err(e) => {
            return Err(e);
        },
    };
    let p6 = match read_lit(v, p5, 32) {
        Ok(p) => p,
        Err(e) => {
            return Err(e);
        },
    };
    let (z, p7) = match read_i8_text(v, p6) {
        Ok(p) => p,
        Err(e) => {
            return Err(e);
        },
    };
    let p8 = match read_lit(v, p7, 10) {
        Ok(p) => p,
        Err(e) => {
            return Err(e);
        },
    };
    Ok((RawVertex { x, y, z }, p8))
}

#[verifier::rlimit(100)]
fn read_fline(v: &Vec<u8>, pos: usize, npos: u32, nnorm: u32) -> (r: Result<
    (Triangle, usize),
    Error,
>)
    requires
        pos <= v@.len(),
    ensures
        match r {
            Ok((t, p2)) => pos <= p2 <= v@.len() && parse_fline(
                v@.skip(pos as int),
                npos as int,
                nnorm as int,
            ) == Ok::<(Triangle, Seq<u8>), Error>((t, v@.skip(p2 as int))) && t.p0 < npos && t.p1
                < npos && t.p2 < npos && t.n0 < nnorm && t.n1 < nnorm && t.n2 < nnorm,
            Err(e) => parse_fline(v@.skip(pos as int), npos as int, nnorm as int) == Err::<
                (Triangle, Seq<u8>),
                Error,
            >(e),
        },
{
    proof {
        reveal(parse_fline);
    }
    let p0 = match read_lit(v, pos, 102) {
        Ok(p) => p,
        Err(e) => {
            return Err(e);
        },
    };
    let p1 = match read_lit(v, p0, 32) {
        Ok(p) => p,
        Err(e) => {
            return Err(e);
        },
    };
    let (a0, p2) = match read_u32_text(v, p1) {
        Ok(p) => p,
        Err(e) => {
            return Err(e);
        },
    };
    let p3 = match read_lit(v, p2, 32) {
        Ok(p) => p,
        Err(e) => {
            return Err(e);
        },
    };
    let (a1, p4) = match read_u32_text(v, p3) {
        Ok(p) => p,
        Err(e) => {
            return Err(e);
        },
    };
    let p5 = match read_lit(v, p4, 32) {
        Ok(p) => p,
        Err(e) => {
            return Err(e);
        },
    };
    let (a2, p6) = match read_u32_text(v, p5) {
        Ok(p) => p,
        Err(e) => {
            return Err(e);
        },
    };
    let p7 = match read_lit(v, p6, 32) {
        Ok(p) => p,
        Err(e) => {
            return Err(e);
        },
    };
    let (a3, p8) = match read_u32_text(v, p7) {
        Ok(p) => p,
        Err(e) => {
            return Err(e);
        },
    };
    let p9 = match read_lit(v, p8, 32) {
        Ok(p) => p,
        Err(e) => {
            return Err(e);
        },
    };
    let (a4, p10) = match read_u32_text(v, p9) {
        Ok(p) => p,
        Err(e) => {
            return Err(e);
        },
    };
    let p11 = match read_lit(v, p10, 32) {
        Ok(p) => p,
        Err(e) => {
            return Err(e);
        },
    };
    let (a5, p12) = match read_u32_text(v, p11) {
        Ok(p) => p,
        Err(e) => {
            return Err(e);
        },
    };
    let p13 = match read_lit(v, p12, 32) {
        Ok(p) => p,
        Err(e) => {
            return Err(e);
        },
    };
    let (a6, p14) = match read_u32_text(v, p13) {
        Ok(p) => p,
        Err(e) => {
            return Err(e);
        },
    };
    let p15 = match read_lit(v, p14, 10) {
        Ok(p) => p,
        Err(e) => {
            return Err(e);
        },
    };
    if a0 < npos && a1 < npos && a2 < npos && a3 < nnorm && a4 < nnorm && a5 < nnorm {
        Ok((Triangle { p0: a0, p1: a1, p2: a2, n0: a3, n1: a4, n2: a5, material: a6 }, p15))
    } else {
        Err(Error::MalformedGeometry)
    }
}

#[verifier::rlimit(100)]
fn read_header(v: &Vec<u8>, pos: usize) -> (r: Result<((u32, u32, u32), usize), Error>)
    requires
        pos <= v@.len(),
    ensures
        match r {
            Ok((h, p2)) => pos <= p2 <= v@.len() && parse_header(v@.skip(pos as int)) == Ok::<
                ((u32, u32, u32), Seq<u8>),
                Error,
            >((h, v@.skip(p2 as int))),
            Err(e) => parse_header(v@.skip(pos as int)) == Err::<((u32, u32, u32), Seq<u8>), Error>(
                e,
            ),
        },
{
    proof {
        reveal(parse_header);
    }
    let p0 = match read_lit(v, pos, 109) {
        Ok(p) => p,
        Err(e) => {
            return Err(e);
        },
    };
    let p1 = match read_lit(v, p0, 32) {
        Ok(p) => p,
        Err(e) => {
            return Err(e);
        },
    };
    let (npos, p2) = match read_u32_text(v, p1) {
        Ok(p) => p,
        Err(e) => {
            return Err(e);
        },
    };
    let p3 = match read_lit(v, p2, 32) {
        Ok(p) => p,
        Err(e) => {
            return Err(e);
        },
    };
    let (nnorm, p4) = match read_u32_text(v, p3) {
        Ok(p) => p,
        Err(e) => {
            return Err(e);
        },
    };
    let p5 = match read_lit(v, p4, 32) {
        Ok(p) => p,
        Err(e) => {
            return Err(e);
        },
    };
    let (ntri, p6) = match read_u32_text(v, p5) {
        Ok(p) => p,
        Err(e) => {
            return Err(e);
        },
    };
    let p7 = match read_lit(v, p6, 10) {
        Ok(p) => p,
        Err(e) => {
            return Err(e);
        },
    };
    Ok(((npos, nnorm, ntri), p7))
}

fn read_vlines(v: &Vec<u8>, pos: usize, tag: u8, n: u32) -> (r: Result<
    (Vec<RawVertex>, usize),
    Error,
>)
    requires
        pos <= v@.len(),
    ensures
        match r {
            Ok((vs, p2)) => pos <= p2 <= v@.len() && vs@.len() == n && parse_vlines(
                v@.skip(pos as int),
                tag,
                n as nat,
            ) == Ok::<(Seq<RawVertex>, Seq<u8>), Error>((vs@, v@.skip(p2 as int))),
            Err(e) => parse_vlines(v@.skip(pos as int), tag, n as nat) == Err::<
                (Seq<RawVertex>, Seq<u8>),
                Error,
            >(e),
        },
{
    let mut cur: usize = pos;
    let mut acc: Vec<RawVertex> = Vec::new();
    let mut i: u32 = 0;
    while i < n
        invariant
            pos <= cur <= v@.len(),
            i <= n,
            acc@.len() == i,
            match parse_vlines(v@.skip(cur as int), tag, (n - i) as nat) {
                Ok(p) => parse_vlines(v@.skip(pos as int), tag, n as nat) == Ok::<
                    (Seq<RawVertex>, Seq<u8>),
                    Error,
                >((acc@ + p.0, p.1)),
                Err(e) => parse_vlines(v@.skip(pos as int), tag, n as nat) == Err::<
                    (Seq<RawVertex>, Seq<u8>),
                    Error,
                >(e),
            },
        decreases n - i,
    {
        match read_vline(v, cur, tag) {
            Err(e) => {
                proof {
                    assert(parse_vlines(v@.skip(cur as int), tag, (n - i) as nat) == Err::<
                        (Seq<RawVertex>, Seq<u8>),
                        Error,
                    >(e));
                }
                return Err(e);
            },
            Ok((x, p2)) => {
                proof {
                    match parse_vlines(v@.skip(p2 as int), tag, (n - i - 1) as nat) {
                        Ok(p) => {
                            assert(acc@ + (seq![x] + p.0) =~= acc@.push(x) + p.0);
                        },
                        Err(e) => {},
                    }
                }
                acc.push(x);
                cur = p2;
                i = i + 1;
            },
        }
    }
    proof {
        assert(acc@ + Seq::<RawVertex>::empty() =~= acc@);
    }
    Ok((acc, cur))
}

fn read_flines(v: &Vec<u8>, pos: usize, n: u32, npos: u32, nnorm: u32) -> (r: Result<
    (Vec<Triangle>, usize),
    Error,
>)
    requires
        pos <= v@.len(),
    ensures
        match r {
            Ok((ts, p2)) => pos <= p2 <= v@.len() && ts@.len() == n && parse_flines(
                v@.skip(pos as int),
                n as nat,
                npos as int,
                nnorm as int,
            ) == Ok::<(Seq<Triangle>, Seq<u8>), Error>((ts@, v@.skip(p2 as int))) && forall|i: int|
                0 <= i < ts@.len() ==> {
                    &&& (#[trigger] ts@[i]).p0 < npos
                    &&& ts@[i].p1 < npos
                    &&& ts@[i].p2 < npos
                    &&& ts@[i].n0 < nnorm
                    &&& ts@[i].n1 < nnorm
                    &&& ts@[i].n2 < nnorm
                },
            Err(e) => parse_flines(v@.skip(pos as int), n as nat, npos as int, nnorm as int)
                == Err::<(Seq<Triangle>, Seq<u8>), Error>(e),
        },
{
    let mut cur: usize = pos;
    let mut acc: Vec<Triangle> = Vec::new();
    let mut i: u32 = 0;
    while i < n
        invariant
            pos <= cur <= v@.len(),
            i <= n,
            acc@.len() == i,
            forall|k: int|
                0 <= k < acc@.len() ==> {
                    &&& (#[trigger] acc@[k]).p0 < npos
                    &&& acc@[k].p1 < npos
                    &&& acc@[k].p2 < npos
                    &&& acc@[k].n0 < nnorm
                    &&& acc@[k].n1 < nnorm
                    &&& acc@[k].n2 < nnorm
                },
            match parse_flines(v@.skip(cur as int), (n - i) as nat, npos as int, nnorm as int) {
                Ok(p) => parse_flines(v@.skip(pos as int), n as nat, npos as int, nnorm as int)
                    == Ok::<(Seq<Triangle>, Seq<u8>), Error>((acc@ + p.0, p.1)),
                Err(e) => parse_flines(v@.skip(pos as int), n as nat, npos as int, nnorm as int)
                    == Err::<(Seq<Triangle>, Seq<u8>), Error>(e),
            },
        decreases n - i,
    {
        match read_fline(v, cur, npos, nnorm) {
            Err(e) => {
                proof {
                    assert(parse_flines(
                        v@.skip(cur as int),
                        (n - i) as nat,
                        npos as int,
                        nnorm as int,
                    ) == Err::<(Seq<Triangle>, Seq<u8>), Error>(e));
                }
                return Err(e);
            },
            Ok((t, p2)) => {
                proof {
                    match parse_flines(
                        v@.skip(p2 as int),
                        (n - i - 1) as nat,
                        npos as int,
                        nnorm as int,
                    ) {
                        Ok(p) => {
                            assert(acc@ + (seq![t] + p.0) =~= acc@.push(t) + p.0);
                        },
                        Err(e) => {},
                    }
                }
                acc.push(t);
                cur = p2;
                i = i + 1;
            },
        }
    }
    proof {
        assert(acc@ + Seq::<Triangle>::empty() =~= acc@);
    }
    Ok((acc, cur))
}

fn zero_physics() -> (r: Vec<u8>)
    ensures
        r@ == Seq::new(PHYSICS_BYTES as nat, |i: int| 0u8),
{
    let mut out: Vec<u8> = Vec::new();
    let mut i: usize = 0;
    while i < PHYSICS_BYTES
        invariant
            i <= PHYSICS_BYTES,
            out@ =~= Seq::new(i as nat, |k: int| 0u8),
        decreases PHYSICS_BYTES - i,
    {
        proof {
            assert(out@.push(0u8) =~= Seq::new((i + 1) as nat, |k: int| 0u8));
        }
        out.push(0);
        i = i + 1;
    }
    out
}

/// Imports a text mesh. The stanzas rebuild the body geometry (bounds
/// recomputed, every index validated); the sidecar, when present,
/// restores the metadata the text cannot carry. Without one the model
/// gets the documented defaults: zeroed physics, no wheels, no debris,
/// empty slots, a zero offset and color, and dimensions and radius from
/// the recomputed bounds. The collision shape is not part of this
/// interchange and comes back empty.
#[verifier::rlimit(100)]
#[verifier::spinoff_prover]
pub fn import_text_mesh(text: &Vec<u8>, sidecar: Option<Sidecar>) -> (r: Result<Model, Error>)
    requires
        match sidecar {
            Some(sc) => sidecar_wf(sc@),
            None => true,
        },
    ensures
        match r {
            Ok(m) => (match spec_parse_text(text@) {
                Ok((ps, ns, ts)) => m@ == import_result(
                    ps,
                    ns,
                    ts,
                    match sidecar {
                        Some(sc) => Some(sc@),
                        None => None,
                    },
                ),
                Err(_) => false,
            }) && model_wf(m@) && model_canonical(m@),
            Err(e) => spec_parse_text(text@) == Err::<
                (Seq<RawVertex>, Seq<RawVertex>, Seq<Triangle>),
                Error,
            >(e),
        },
{
    proof {
        assert(text@.skip(0) =~= text@);
    }
    let (h, p1) = match read_header(text, 0) {
        Ok(x) => x,
        Err(e) => {
            return Err(e);
        },
    };
    let (npos, nnorm, ntri) = h;
    if npos == 0 {
        return Err(Error::EmptyGeometry);
    }
    let (positions, p2) = match read_vlines(text, p1, 118, npos) {
        Ok(x) => x,
        Err(e) => {
            return Err(e);
        },
    };
    let (normals, p3) = match read_vlines(text, p2, 110, nnorm) {
        Ok(x) => x,
        Err(e) => {
            return Err(e);
        },
    };
    let (triangles, p4) = match read_flines(text, p3, ntri, npos, nnorm) {
        Ok(x) => x,
        Err(e) => {
            return Err(e);
        },
    };
    if p4 != text.len() {
        return Err(Error::MalformedGeometry);
    }
    proof {
        assert(text@.skip(p4 as int).len() == 0);
    }
    let bounds = match compute_bounds(&positions) {
        Ok(b) => b,
        Err(e) => {
            proof {
                assert(false);
            }
            return Err(e);
        },
    };
    let empty_shape = Shape {
        positions: Vec::new(),
        quads: Vec::new(),
        polygons: Vec::new(),
        samples: Vec::new(),
    };
    proof {
        assert(polygons_of(Seq::<crate::model::CollisionQuad>::empty()) =~= Seq::<
            crate::model::Polygon,
        >::empty());
    }
    let m = match sidecar {
        Some(sc) => {
            let Sidecar {
                parent_offset,
                physics,
                wheels,
                debris,
                slots,
                dimensions,
                max_radius,
                color,
            } = sc;
            Model {
                body: Mesh { positions, normals, triangles, parent_offset, physics, bounds },
                shape: empty_shape,
                wheels,
                debris,
                slots,
                dimensions,
                max_radius,
                color,
            }
        },
        None => {
            let mut slots: Vec<Option<SlotInfo>> = Vec::new();
            slots.push(None);
            slots.push(None);
            slots.push(None);
            proof {
                assert(slots@ =~= Seq::new(NUM_SLOTS as nat, |i: int| None::<SlotInfo>));
            }
            Model {
                body: Mesh {
                    positions,
                    normals,
                    triangles,
                    parent_offset: V3i32 { x: 0, y: 0, z: 0 },
                    physics: zero_physics(),
                    bounds,
                },
                shape: empty_shape,
                wheels: Vec::new(),
                debris: Vec::new(),
                slots,
                dimensions: V3i32 {
                    x: bounds.coord_max.x - bounds.coord_min.x,
                    y: bounds.coord_max.y - bounds.coord_min.y,
                    z: bounds.coord_max.z - bounds.coord_min.z,
                },
                max_radius: bounds.max_radius,
                color: ColorPair { main: 0, shade: 0 },
            }
        },
    };
    proof {
        assert(wheels_view(Seq::<Option<Mesh>>::empty()) =~= Seq::<Option<MeshV>>::empty());
        assert(debris_view(Seq::<Debrie>::empty()) =~= Seq::<DebrieV>::empty());
        assert(samples_of(Seq::empty(), Seq::empty()) =~= Seq::<RawVertex>::empty());
    }
    Ok(m)
}
} // verus!
