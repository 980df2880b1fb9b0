use vstd::prelude::*;
use crate::error::Error;
use crate::geom::RawVertex;

verus! {

// ---- Little-endian encodings of the formats' scalar fields ----

/// The four little-endian bytes of a 32-bit field.
pub open spec fn u32_le(x: u32) -> Seq<u8> {
    seq![
        (x & 0xff) as u8,
        ((x >> 8) & 0xff) as u8,
        ((x >> 16) & 0xff) as u8,
        ((x >> 24) & 0xff) as u8,
    ]
}

pub open spec fn u32_from_le(b0: u8, b1: u8, b2: u8, b3: u8) -> u32 {
    (b0 as u32) | ((b1 as u32) << 8) | ((b2 as u32) << 16) | ((b3 as u32) << 24)
}

/// Signed 32-bit fields travel as their two's-complement bit pattern.
pub open spec fn i32_le(x: i32) -> Seq<u8> {
    u32_le(x as u32)
}

/// A vertex is three signed bytes, x then y then z.
pub open spec fn vertex_bytes(v: RawVertex) -> Seq<u8> {
    seq![(v.x as u8), (v.y as u8), (v.z as u8)]
}

pub proof fn lemma_u32_le_round_trip(x: u32)
    ensures
        u32_from_le(
            (x & 0xff) as u8,
            ((x >> 8) & 0xff) as u8,
            ((x >> 16) & 0xff) as u8,
            ((x >> 24) & 0xff) as u8,
        ) == x,
{
    assert(((x & 0xff) as u8 as u32) | (((x >> 8) & 0xff) as u8 as u32) << 8 | (((x >> 16)
        & 0xff) as u8 as u32) << 16 | (((x >> 24) & 0xff) as u8 as u32) << 24 == x)
        by (bit_vector);
}

pub proof fn lemma_i32_round_trip(x: i32)
    ensures
        (x as u32) as i32 == x,
{
    assert((x as u32) as i32 == x) by (bit_vector);
}

pub proof fn lemma_i8_round_trip(x: i8)
    ensures
        (x as u8) as i8 == x,
{
    assert((x as u8) as i8 == x) by (bit_vector);
}

// ---- Sequence plumbing shared by the round-trip proofs ----

pub proof fn lemma_skip_skip<A>(s: Seq<A>, a: int, b: int)
    requires
        0 <= a,
        0 <= b,
        a + b <= s.len(),
    ensures
        s.skip(a).skip(b) =~= s.skip(a + b),
{
}

pub proof fn lemma_append_skip<A>(a: Seq<A>, b: Seq<A>)
    ensures
        (a + b).skip(a.len() as int) =~= b,
        (a + b).take(a.len() as int) =~= a,
{
}

// ---- Suffix-style spec parsers: each consumes a prefix and returns the
// ---- parsed value with the remaining bytes, or the error a decode owes.

pub open spec fn parse_u8(s: Seq<u8>) -> Result<(u8, Seq<u8>), Error> {
    if s.len() < 1 {
        Err(Error::TruncatedInput)
    } else {
        Ok((s[0], s.skip(1)))
    }
}

pub open spec fn parse_u32(s: Seq<u8>) -> Result<(u32, Seq<u8>), Error> {
    if s.len() < 4 {
        Err(Error::TruncatedInput)
    } else {
        Ok((u32_from_le(s[0], s[1], s[2], s[3]), s.skip(4)))
    }
}

pub open spec fn parse_i32(s: Seq<u8>) -> Result<(i32, Seq<u8>), Error> {
    if s.len() < 4 {
        Err(Error::TruncatedInput)
    } else {
        Ok((u32_from_le(s[0], s[1], s[2], s[3]) as i32, s.skip(4)))
    }
}

pub open spec fn parse_vertex(s: Seq<u8>) -> Result<(RawVertex, Seq<u8>), Error> {
    if s.len() < 3 {
        Err(Error::TruncatedInput)
    } else {
        Ok((RawVertex { x: s[0] as i8, y: s[1] as i8, z: s[2] as i8 }, s.skip(3)))
    }
}

pub open spec fn parse_bytes(s: Seq<u8>, n: int) -> Result<(Seq<u8>, Seq<u8>), Error> {
    if s.len() < n {
        Err(Error::TruncatedInput)
    } else {
        Ok((s.take(n), s.skip(n)))
    }
}

// ---- Round trips: parsing an encoding yields the value and the rest ----

pub proof fn lemma_parse_u32_round_trip(x: u32, rest: Seq<u8>)
    ensures
        parse_u32(u32_le(x) + rest) == Ok::<(u32, Seq<u8>), Error>((x, rest)),
{
    let s = u32_le(x) + rest;
    lemma_u32_le_round_trip(x);
    lemma_append_skip(u32_le(x), rest);
    assert(s.skip(4) =~= rest);
}

pub proof fn lemma_parse_i32_round_trip(x: i32, rest: Seq<u8>)
    ensures
        parse_i32(i32_le(x) + rest) == Ok::<(i32, Seq<u8>), Error>((x, rest)),
{
    lemma_parse_u32_round_trip(x as u32, rest);
    lemma_i32_round_trip(x);
    let s = i32_le(x) + rest;
    assert(s.skip(4) =~= rest);
}

pub proof fn lemma_parse_vertex_round_trip(v: RawVertex, rest: Seq<u8>)
    ensures
        parse_vertex(vertex_bytes(v) + rest) == Ok::<(RawVertex, Seq<u8>), Error>((v, rest)),
{
    let s = vertex_bytes(v) + rest;
    lemma_i8_round_trip(v.x);
    lemma_i8_round_trip(v.y);
    lemma_i8_round_trip(v.z);
    assert(s.skip(3) =~= rest);
}

pub proof fn lemma_parse_bytes_round_trip(b: Seq<u8>, rest: Seq<u8>)
    ensures
        parse_bytes(b + rest, b.len() as int) == Ok::<(Seq<u8>, Seq<u8>), Error>((b, rest)),
{
    lemma_append_skip(b, rest);
}

// ---- Executable reads against a buffer and a cursor position ----

pub fn read_u8(v: &Vec<u8>, pos: usize) -> (r: Result<(u8, usize), Error>)
    requires
        pos <= v@.len(),
    ensures
        match r {
            Ok((x, p2)) => pos < p2 <= v@.len() && parse_u8(v@.skip(pos as int)) == Ok::<
                (u8, Seq<u8>),
                Error,
            >((x, v@.skip(p2 as int))),
            Err(e) => parse_u8(v@.skip(pos as int)) == Err::<(u8, Seq<u8>), Error>(e),
        },
{
    if pos >= v.len() {
        return Err(Error::TruncatedInput);
    }
    let x = v[pos];
    proof {
        lemma_skip_skip(v@, pos as int, 1);
    }
    Ok((x, pos + 1))
}

pub fn read_u32(v: &Vec<u8>, pos: usize) -> (r: Result<(u32, usize), Error>)
    requires
        pos <= v@.len(),
    ensures
        match r {
            Ok((x, p2)) => pos < p2 <= v@.len() && parse_u32(v@.skip(pos as int)) == Ok::<
                (u32, Seq<u8>),
                Error,
            >((x, v@.skip(p2 as int))),
            Err(e) => parse_u32(v@.skip(pos as int)) == Err::<(u32, Seq<u8>), Error>(e),
        },
{
    if v.len() - pos < 4 {
        return Err(Error::TruncatedInput);
    }
    let b0 = v[pos];
    let b1 = v[pos + 1];
    let b2 = v[pos + 2];
    let b3 = v[pos + 3];
    let x = (b0 as u32) | ((b1 as u32) << 8) | ((b2 as u32) << 16) | ((b3 as u32) << 24);
    proof {
        lemma_skip_skip(v@, pos as int, 4);
        assert(v@.skip(pos as int)[0] == v@[pos as int]);
        assert(v@.skip(pos as int)[1] == v@[pos as int + 1]);
        assert(v@.skip(pos as int)[2] == v@[pos as int + 2]);
        assert(v@.skip(pos as int)[3] == v@[pos as int + 3]);
    }
    Ok((x, pos + 4))
}

pub fn read_i32(v: &Vec<u8>, pos: usize) -> (r: Result<(i32, usize), Error>)
    requires
        pos <= v@.len(),
    ensures
        match r {
            Ok((x, p2)) => pos < p2 <= v@.len() && parse_i32(v@.skip(pos as int)) == Ok::<
                (i32, Seq<u8>),
                Error,
            >((x, v@.skip(p2 as int))),
            Err(e) => parse_i32(v@.skip(pos as int)) == Err::<(i32, Seq<u8>), Error>(e),
        },
{
    match read_u32(v, pos) {
        Ok((x, p2)) => Ok((x as i32, p2)),
        Err(e) => Err(e),
    }
}

pub fn read_vertex(v: &Vec<u8>, pos: usize) -> (r: Result<(RawVertex, usize), Error>)
    requires
        pos <= v@.len(),
    ensures
        match r {
            Ok((x, p2)) => pos < p2 <= v@.len() && parse_vertex(v@.skip(pos as int)) == Ok::<
                (RawVertex, Seq<u8>),
                Error,
            >((x, v@.skip(p2 as int))),
            Err(e) => parse_vertex(v@.skip(pos as int)) == Err::<(RawVertex, Seq<u8>), Error>(e),
        },
{
    if v.len() - pos < 3 {
        return Err(Error::TruncatedInput);
    }
    let x = RawVertex { x: v[pos] as i8, y: v[pos + 1] as i8, z: v[pos + 2] as i8 };
    proof {
        lemma_skip_skip(v@, pos as int, 3);
        assert(v@.skip(pos as int)[0] == v@[pos as int]);
        assert(v@.skip(pos as int)[1] == v@[pos as int + 1]);
        assert(v@.skip(pos as int)[2] == v@[pos as int + 2]);
    }
    Ok((x, pos + 3))
}

pub fn read_byte_block(v: &Vec<u8>, pos: usize, n: usize) -> (r: Result<(Vec<u8>, usize), Error>)
    requires
        pos <= v@.len(),
    ensures
        match r {
            Ok((b, p2)) => pos <= p2 <= v@.len() && parse_bytes(v@.skip(pos as int), n as int)
                == Ok::<(Seq<u8>, Seq<u8>), Error>((b@, v@.skip(p2 as int))) && b@.len() == n,
            Err(e) => parse_bytes(v@.skip(pos as int), n as int) == Err::<
                (Seq<u8>, Seq<u8>),
                Error,
            >(e),
        },
{
    if v.len() - pos < n {
        return Err(Error::TruncatedInput);
    }
    let vlen = v.len();
    let mut out: Vec<u8> = Vec::new();
    let mut i: usize = 0;
    while i < n
        invariant
            pos + n <= vlen,
            vlen == v@.len(),
            i <= n,
            out@ =~= v@.skip(pos as int).take(n as int).take(i as int),
        decreases n - i,
    {
        out.push(v[pos + i]);
        proof {
            assert(v@.skip(pos as int).take(n as int).take(i + 1 as int) =~= v@.skip(
                pos as int,
            ).take(n as int).take(i as int).push(v@[pos + i as int]));
        }
        i = i + 1;
    }
    proof {
        lemma_skip_skip(v@, pos as int, n as int);
        assert(v@.skip(pos as int).take(n as int).take(n as int) =~= v@.skip(pos as int).take(
            n as int,
        ));
    }
    Ok((out, pos + n))
}

// ---- Executable writes: appending an encoding to an output buffer ----

pub fn write_u32(out: &mut Vec<u8>, x: u32)
    ensures
        final(out)@ == old(out)@ + u32_le(x),
{
    out.push((x & 0xff) as u8);
    out.push(((x >> 8) & 0xff) as u8);
    out.push(((x >> 16) & 0xff) as u8);
    out.push(((x >> 24) & 0xff) as u8);
    proof {
        assert(out@ =~= old(out)@ + u32_le(x));
    }
}

pub fn write_i32(out: &mut Vec<u8>, x: i32)
    ensures
        final(out)@ == old(out)@ + i32_le(x),
{
    write_u32(out, x as u32);
}

pub fn write_vertex(out: &mut Vec<u8>, v: RawVertex)
    ensures
        final(out)@ == old(out)@ + vertex_bytes(v),
{
    out.push(v.x as u8);
    out.push(v.y as u8);
    out.push(v.z as u8);
    proof {
        assert(out@ =~= old(out)@ + vertex_bytes(v));
    }
}

} // verus!
