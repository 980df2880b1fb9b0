use vstd::prelude::*;
use crate::bytes::read_byte_block;
use crate::error::Error;

verus! {

/// One terrain level: five co-registered raster layers over a width by
/// height cell grid. The height and delta layers carry a full byte per
/// cell; the two material layers carry one 4-bit index per cell, held
/// unpacked in memory (one nibble value per byte).
pub struct TerrainLevel {
    pub width: u32,
    pub height: u32,
    pub het0: Vec<u8>,
    pub het1: Vec<u8>,
    pub delta: Vec<u8>,
    pub mat0: Vec<u8>,
    pub mat1: Vec<u8>,
}

/// The mathematical value of a `TerrainLevel`.
pub ghost struct TerrainLevelV {
    pub width: u32,
    pub height: u32,
    pub het0: Seq<u8>,
    pub het1: Seq<u8>,
    pub delta: Seq<u8>,
    pub mat0: Seq<u8>,
    pub mat1: Seq<u8>,
}

impl View for TerrainLevel {
    type V = TerrainLevelV;

    open spec fn view(&self) -> TerrainLevelV {
        TerrainLevelV {
            width: self.width,
            height: self.height,
            het0: self.het0@,
            het1: self.het1@,
            delta: self.delta@,
            mat0: self.mat0@,
            mat1: self.mat1@,
        }
    }
}

/// Number of cells in the grid.
pub open spec fn cells(width: u32, height: u32) -> int {
    width as int * height as int
}

/// On-disk size of one packed 4-bit material layer: two cells per byte,
/// rounded up.
pub open spec fn packed_mat_len(width: u32, height: u32) -> int {
    (cells(width, height) + 1) / 2
}

/// Total size of a packed terrain file: the two height layers and the
/// delta layer at a byte per cell, then the two packed material layers.
pub open spec fn terrain_packed_len(width: u32, height: u32) -> int {
    3 * cells(width, height) + 2 * packed_mat_len(width, height)
}

/// The invariant of every terrain level: all five layers have exactly
/// one entry per cell, and every material index fits 4 bits.
pub open spec fn terrain_wf(t: TerrainLevelV) -> bool {
    &&& t.het0.len() == cells(t.width, t.height)
    &&& t.het1.len() == cells(t.width, t.height)
    &&& t.delta.len() == cells(t.width, t.height)
    &&& t.mat0.len() == cells(t.width, t.height)
    &&& t.mat1.len() == cells(t.width, t.height)
    &&& forall|i: int| 0 <= i < t.mat0.len() ==> #[trigger] t.mat0[i] < 16
    &&& forall|i: int| 0 <= i < t.mat1.len() ==> #[trigger] t.mat1[i] < 16
}

/// The nibble of cell `i` in a packed material region starting at `base`:
/// even cells in the low nibble, odd cells in the high nibble.
pub open spec fn nibble_at(bytes: Seq<u8>, base: int, i: int) -> u8 {
    if i % 2 == 0 {
        (bytes[base + i / 2] & 0xf) as u8
    } else {
        (bytes[base + i / 2] >> 4) as u8
    }
}

/// What decoding a packed terrain file means: the five fixed-size
/// regions in order, nibbles unpacked.
pub open spec fn spec_unpack(bytes: Seq<u8>, width: u32, height: u32) -> TerrainLevelV {
    let c = cells(width, height);
    let p = packed_mat_len(width, height);
    TerrainLevelV {
        width,
        height,
        het0: bytes.subrange(0, c),
        het1: bytes.subrange(c, 2 * c),
        delta: bytes.subrange(2 * c, 3 * c),
        mat0: Seq::new(c as nat, |i: int| nibble_at(bytes, 3 * c, i)),
        mat1: Seq::new(c as nat, |i: int| nibble_at(bytes, 3 * c + p, i)),
    }
}

/// The fixed raster projection: four channels per cell — the two height
/// layers, the delta layer, and both material nibbles packed into the
/// fourth channel (low nibble first material, high nibble second).
pub open spec fn raster_of(t: TerrainLevelV) -> Seq<u8> {
    Seq::new(
        (4 * cells(t.width, t.height)) as nat,
        |k: int|
            if k % 4 == 0 {
                t.het0[k / 4]
            } else if k % 4 == 1 {
                t.het1[k / 4]
            } else if k % 4 == 2 {
                t.delta[k / 4]
            } else {
                (t.mat0[k / 4] | (t.mat1[k / 4] << 4)) as u8
            },
    )
}

/// What importing a raster means: the same fixed channel mapping read
/// back, the fourth channel split into its two nibbles (so out-of-band
/// material values are truncated to 4 bits, never rejected).
pub open spec fn spec_import(data: Seq<u8>, width: u32, height: u32) -> TerrainLevelV {
    let c = cells(width, height);
    TerrainLevelV {
        width,
        height,
        het0: Seq::new(c as nat, |i: int| data[4 * i]),
        het1: Seq::new(c as nat, |i: int| data[4 * i + 1]),
        delta: Seq::new(c as nat, |i: int| data[4 * i + 2]),
        mat0: Seq::new(c as nat, |i: int| (data[4 * i + 3] & 0xf) as u8),
        mat1: Seq::new(c as nat, |i: int| (data[4 * i + 3] >> 4) as u8),
    }
}

/// One exported layer plane: its raw bytes and the declared bit depth.
pub struct LayerPlane {
    pub data: Vec<u8>,
    pub bit_depth: u8,
}

/// A 4-bit layer packed for disk: two nibble values per byte, even cell
/// low, odd cell high; a trailing odd cell leaves the high nibble zero.
pub open spec fn pack_nibbles(s: Seq<u8>) -> Seq<u8> {
    Seq::new(
        ((s.len() + 1) / 2) as nat,
        |i: int|
            if 2 * i + 1 < s.len() {
                (s[2 * i] | (s[2 * i + 1] << 4)) as u8
            } else {
                s[2 * i]
            },
    )
}

proof fn lemma_nibble_split(a: u8, b: u8)
    requires
        a < 16,
        b < 16,
    ensures
        ((a | (b << 4)) & 0xf) == a,
        ((a | (b << 4)) >> 4) == b,
{
    assert(a < 16 && b < 16 ==> ((a | (b << 4)) & 0xf) == a && ((a | (b << 4)) >> 4) == b)
        by (bit_vector);
}

proof fn lemma_nibble_join(x: u8)
    ensures
        ((x & 0xf) | ((x >> 4) << 4)) == x,
        (x & 0xf) < 16,
        (x >> 4) < 16,
{
    assert(((x & 0xf) | ((x >> 4) << 4)) == x && (x & 0xf) < 16 && (x >> 4) < 16) by (bit_vector);
}

proof fn lemma_mul4_div(i: int, j: int)
    requires
        0 <= j < 4,
    ensures
        (4 * i + j) / 4 == i,
        (4 * i + j) % 4 == j,
{
    assert((4 * i + j) / 4 == i && (4 * i + j) % 4 == j) by (nonlinear_arith)
        requires
            0 <= j < 4,
    ;
}

/// Unpacks a terrain file into the five layers. The buffer must hold the
/// five fixed-size regions exactly; any other byte count is
/// `MalformedTerrain`.
pub fn decode_terrain(bytes: &Vec<u8>, width: u32, height: u32) -> (r: Result<TerrainLevel, Error>)
    ensures
        r is Err <==> bytes@.len() != terrain_packed_len(width, height),
        r is Err ==> r == Err::<TerrainLevel, Error>(Error::MalformedTerrain),
        r matches Ok(t) ==> t@ == spec_unpack(bytes@, width, height) && terrain_wf(t@),
{
    proof {
        assert((width as int) * (height as int) < 0x10000000000000000) by (nonlinear_arith)
            requires
                width < 0x100000000,
                height < 0x100000000,
        ;
    }
    let c64 = (width as u64) * (height as u64);
    let c128 = c64 as u128;
    let p128 = (c128 + 1) / 2;
    let total = 3 * c128 + 2 * p128;
    if (bytes.len() as u128) != total {
        return Err(Error::MalformedTerrain);
    }
    let c = c64 as usize;
    let p = (c / 2) + (c % 2);
    proof {
        assert((c as int) / 2 + (c as int) % 2 == ((c as int) + 1) / 2) by (nonlinear_arith);
    }
    proof {
        assert(c == cells(width, height));
        assert(p == packed_mat_len(width, height));
    }
    let (het0, _) = match read_byte_block(bytes, 0, c) {
        Ok(x) => x,
        Err(_) => {
            proof {
                assert(false);
            }
            return Err(Error::MalformedTerrain);
        },
    };
    let (het1, _) = match read_byte_block(bytes, c, c) {
        Ok(x) => x,
        Err(_) => {
            proof {
                assert(false);
            }
            return Err(Error::MalformedTerrain);
        },
    };
    let (delta, _) = match read_byte_block(bytes, 2 * c, c) {
        Ok(x) => x,
        Err(_) => {
            proof {
                assert(false);
            }
            return Err(Error::MalformedTerrain);
        },
    };
    let mat0 = unpack_nibbles(bytes, 3 * c, c);
    let mat1 = unpack_nibbles(bytes, 3 * c + p, c);
    let t = TerrainLevel { width, height, het0, het1, delta, mat0, mat1 };
    proof {
        assert(t@.het0 =~= bytes@.subrange(0, c as int));
        assert(t@.het1 =~= bytes@.subrange(c as int, 2 * c as int));
        assert(t@.delta =~= bytes@.subrange(2 * c as int, 3 * c as int));
        assert(t@ =~= spec_unpack(bytes@, width, height));
    }
    Ok(t)
}

/// Reads `n` nibble values from the packed region starting at `base`.
fn unpack_nibbles(bytes: &Vec<u8>, base: usize, n: usize) -> (r: Vec<u8>)
    requires
        base + (n + 1) / 2 <= bytes@.len(),
    ensures
        r@ == Seq::new(n as nat, |i: int| nibble_at(bytes@, base as int, i)),
        forall|i: int| 0 <= i < r@.len() ==> #[trigger] r@[i] < 16,
{
    let blen = bytes.len();
    let mut out: Vec<u8> = Vec::new();
    let mut i: usize = 0;
    while i < n
        invariant
            blen == bytes@.len(),
            base + (n + 1) / 2 <= blen,
            i <= n,
            out@ =~= Seq::new(i as nat, |k: int| nibble_at(bytes@, base as int, k)),
            forall|k: int| 0 <= k < out@.len() ==> #[trigger] out@[k] < 16,
        decreases n - i,
    {
        proof {
            assert((i as int) / 2 < ((n as int) + 1) / 2) by (nonlinear_arith)
                requires
                    0 <= i < n,
            ;
        }
        let b = bytes[base + i / 2];
        let v: u8 = if i % 2 == 0 {
            b & 0xf
        } else {
            b >> 4
        };
        proof {
            lemma_nibble_join(b);
            assert(v == nibble_at(bytes@, base as int, i as int));
            assert(out@.push(v) =~= Seq::new(
                (i + 1) as nat,
                |k: int| nibble_at(bytes@, base as int, k),
            ));
        }
        out.push(v);
        i = i + 1;
    }
    out
}

/// Projects the five layers onto the fixed four-channel raster: one cell
/// gives `[het0, het1, delta, mat0 | mat1 << 4]`, so the projection loses
/// nothing of a well-formed level.
pub fn export_raster(t: &TerrainLevel) -> (r: Vec<u8>)
    requires
        terrain_wf(t@),
    ensures
        r@ == raster_of(t@),
        r@.len() == 4 * cells(t@.width, t@.height),
{
    let c = t.het0.len();
    let mut out: Vec<u8> = Vec::new();
    let mut i: usize = 0;
    while i < c
        invariant
            terrain_wf(t@),
            c == cells(t@.width, t@.height),
            i <= c,
            out@ =~= raster_of(t@).take(4 * i as int),
        decreases c - i,
    {
        let m = t.mat0[i] | (t.mat1[i] << 4u32);
        proof {
            lemma_mul4_div(i as int, 0);
            lemma_mul4_div(i as int, 1);
            lemma_mul4_div(i as int, 2);
            lemma_mul4_div(i as int, 3);
            assert(out@.push(t@.het0[i as int]).push(t@.het1[i as int]).push(
                t@.delta[i as int],
            ).push(m) =~= raster_of(t@).take(4 * (i + 1) as int));
        }
        out.push(t.het0[i]);
        out.push(t.het1[i]);
        out.push(t.delta[i]);
        out.push(m);
        i = i + 1;
    }
    proof {
        assert(raster_of(t@).take(4 * c as int) =~= raster_of(t@));
    }
    out
}

/// Rebuilds the five layers from a four-channel raster with the same
/// fixed mapping. The buffer must hold exactly four bytes per cell, else
/// `MalformedTerrain`; channel values need no validation, since the
/// material nibbles are truncated to their 4-bit depth by construction.
pub fn import_raster(data: &Vec<u8>, width: u32, height: u32) -> (r: Result<TerrainLevel, Error>)
    ensures
        r is Err <==> data@.len() != 4 * cells(width, height),
        r is Err ==> r == Err::<TerrainLevel, Error>(Error::MalformedTerrain),
        r matches Ok(t) ==> t@ == spec_import(data@, width, height) && terrain_wf(t@),
{
    proof {
        assert((width as int) * (height as int) < 0x10000000000000000) by (nonlinear_arith)
            requires
                width < 0x100000000,
                height < 0x100000000,
        ;
    }
    let c64 = (width as u64) * (height as u64);
    let dlen = data.len();
    if (dlen as u128) != 4 * (c64 as u128) {
        return Err(Error::MalformedTerrain);
    }
    let c = c64 as usize;
    proof {
        assert(c == cells(width, height));
    }
    let mut het0: Vec<u8> = Vec::new();
    let mut het1: Vec<u8> = Vec::new();
    let mut delta: Vec<u8> = Vec::new();
    let mut mat0: Vec<u8> = Vec::new();
    let mut mat1: Vec<u8> = Vec::new();
    let mut i: usize = 0;
    while i < c
        invariant
            dlen == data@.len(),
            data@.len() == 4 * c,
            i <= c,
            het0@ =~= Seq::new(i as nat, |k: int| data@[4 * k]),
            het1@ =~= Seq::new(i as nat, |k: int| data@[4 * k + 1]),
            delta@ =~= Seq::new(i as nat, |k: int| data@[4 * k + 2]),
            mat0@ =~= Seq::new(i as nat, |k: int| (data@[4 * k + 3] & 0xf) as u8),
            mat1@ =~= Seq::new(i as nat, |k: int| (data@[4 * k + 3] >> 4) as u8),
        decreases c - i,
    {
        let b3 = data[4 * i + 3];
        proof {
            lemma_nibble_join(b3);
            assert(het0@.push(data@[4 * i as int]) =~= Seq::new(
                (i + 1) as nat,
                |k: int| data@[4 * k],
            ));
            assert(het1@.push(data@[4 * i + 1 as int]) =~= Seq::new(
                (i + 1) as nat,
                |k: int| data@[4 * k + 1],
            ));
            assert(delta@.push(data@[4 * i + 2 as int]) =~= Seq::new(
                (i + 1) as nat,
                |k: int| data@[4 * k + 2],
            ));
            assert(mat0@.push((b3 & 0xf) as u8) =~= Seq::new(
                (i + 1) as nat,
                |k: int| (data@[4 * k + 3] & 0xf) as u8,
            ));
            assert(mat1@.push((b3 >> 4) as u8) =~= Seq::new(
                (i + 1) as nat,
                |k: int| (data@[4 * k + 3] >> 4) as u8,
            ));
        }
        het0.push(data[4 * i]);
        het1.push(data[4 * i + 1]);
        delta.push(data[4 * i + 2]);
        mat0.push(b3 & 0xf);
        mat1.push(b3 >> 4);
        i = i + 1;
    }
    let t = TerrainLevel { width, height, het0, het1, delta, mat0, mat1 };
    proof {
        assert(t@ =~= spec_import(data@, width, height));
        assert forall|k: int| 0 <= k < t@.mat0.len() implies #[trigger] t@.mat0[k] < 16 by {
            lemma_nibble_join(data@[4 * k + 3]);
        }
        assert forall|k: int| 0 <= k < t@.mat1.len() implies #[trigger] t@.mat1[k] < 16 by {
            lemma_nibble_join(data@[4 * k + 3]);
        }
    }
    Ok(t)
}

/// Exports the five layers as independent planes with their declared bit
/// depths (8, 8, 8, 4, 4, in layer order); the 4-bit material planes are
/// packed two nibbles per byte. Writing the planes into a container file
/// is the caller's business.
pub fn export_layers(t: &TerrainLevel) -> (r: Vec<LayerPlane>)
    requires
        terrain_wf(t@),
    ensures
        r@.len() == 5,
        r@[0].data@ == t@.het0 && r@[0].bit_depth == 8,
        r@[1].data@ == t@.het1 && r@[1].bit_depth == 8,
        r@[2].data@ == t@.delta && r@[2].bit_depth == 8,
        r@[3].data@ == pack_nibbles(t@.mat0) && r@[3].bit_depth == 4,
        r@[4].data@ == pack_nibbles(t@.mat1) && r@[4].bit_depth == 4,
{
    let mut out: Vec<LayerPlane> = Vec::new();
    out.push(LayerPlane { data: copy_bytes(&t.het0), bit_depth: 8 });
    out.push(LayerPlane { data: copy_bytes(&t.het1), bit_depth: 8 });
    out.push(LayerPlane { data: copy_bytes(&t.delta), bit_depth: 8 });
    out.push(LayerPlane { data: pack_nibbles_exec(&t.mat0), bit_depth: 4 });
    out.push(LayerPlane { data: pack_nibbles_exec(&t.mat1), bit_depth: 4 });
    out
}

fn copy_bytes(src: &Vec<u8>) -> (r: Vec<u8>)
    ensures
        r@ == src@,
{
    let mut out: Vec<u8> = Vec::new();
    let n = src.len();
    let mut i: usize = 0;
    while i < n
        invariant
            n == src@.len(),
            i <= n,
            out@ =~= src@.take(i as int),
        decreases n - i,
    {
        proof {
            assert(src@.take(i + 1 as int) =~= src@.take(i as int).push(src@[i as int]));
        }
        out.push(src[i]);
        i = i + 1;
    }
    proof {
        assert(src@.take(n as int) =~= src@);
    }
    out
}

fn pack_nibbles_exec(src: &Vec<u8>) -> (r: Vec<u8>)
    requires
        forall|i: int| 0 <= i < src@.len() ==> #[trigger] src@[i] < 16,
    ensures
        r@ == pack_nibbles(src@),
{
    let n = src.len();
    let m = (n / 2) + (n % 2);
    proof {
        assert((n as int) / 2 + (n as int) % 2 == ((n as int) + 1) / 2) by (nonlinear_arith);
    }
    let mut out: Vec<u8> = Vec::new();
    let mut i: usize = 0;
    while i < m
        invariant
            n == src@.len(),
            m == ((n as int) + 1) / 2,
            i <= m,
            out@ =~= pack_nibbles(src@).take(i as int),
        decreases m - i,
    {
        proof {
            assert(2 * (i as int) < n as int) by (nonlinear_arith)
                requires
                    0 <= i,
                    i < m,
                    m == ((n as int) + 1) / 2,
            ;
        }
        let lo = src[2 * i];
        let b: u8 = if 2 * i + 1 < n {
            lo | (src[2 * i + 1] << 4u32)
        } else {
            lo
        };
        proof {
            assert(b == pack_nibbles(src@)[i as int]);
            assert(out@.push(b) =~= pack_nibbles(src@).take(i + 1 as int));
        }
        out.push(b);
        i = i + 1;
    }
    proof {
        assert(pack_nibbles(src@).take(m as int) =~= pack_nibbles(src@));
    }
    out
}

/// The raster projection loses nothing: importing an export restores the
/// level exactly, the 8-bit layers whole and the material layers through
/// their packed nibbles.
pub proof fn lemma_terrain_round_trip(t: TerrainLevelV)
    requires
        terrain_wf(t),
    ensures
        spec_import(raster_of(t), t.width, t.height) == t,
{
    let c = cells(t.width, t.height);
    let d = raster_of(t);
    assert forall|i: int| 0 <= i < c implies d[4 * i] == t.het0[i] && d[4 * i + 1] == t.het1[i]
        && d[4 * i + 2] == t.delta[i] && (d[4 * i + 3] & 0xf) == t.mat0[i] && (d[4 * i + 3] >> 4)
        == t.mat1[i] by {
        lemma_mul4_div(i, 0);
        lemma_mul4_div(i, 1);
        lemma_mul4_div(i, 2);
        lemma_mul4_div(i, 3);
        lemma_nibble_split(t.mat0[i], t.mat1[i]);
    }
    let u = spec_import(d, t.width, t.height);
    assert(u.het0 =~= t.het0);
    assert(u.het1 =~= t.het1);
    assert(u.delta =~= t.delta);
    assert(u.mat0 =~= t.mat0);
    assert(u.mat1 =~= t.mat1);
}

/// And in the other direction the projection is onto: exporting an
/// import reproduces any raster of the right size byte for byte (every
/// fourth-channel value splits into two in-band nibbles).
pub proof fn lemma_raster_left_inverse(data: Seq<u8>, width: u32, height: u32)
    requires
        data.len() == 4 * cells(width, height),
    ensures
        raster_of(spec_import(data, width, height)) == data,
{
    let t = spec_import(data, width, height);
    let d2 = raster_of(t);
    assert forall|k: int| 0 <= k < d2.len() implies d2[k] == data[k] by {
        let i = k / 4;
        let j = k % 4;
        assert(k == 4 * i + j && 0 <= j < 4) by (nonlinear_arith)
            requires
                i == k / 4,
                j == k % 4,
                k >= 0,
        ;
        lemma_mul4_div(i, j);
        lemma_nibble_join(data[4 * i + 3]);
    }
    assert(d2 =~= data);
}

} // verus!
