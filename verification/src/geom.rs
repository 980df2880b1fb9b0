use vstd::prelude::*;
use crate::error::Error;

verus! {

/// One vertex of a mesh, in the format's signed 8-bit fixed-point
/// coordinates. A shared unit scale across a model turns these into world
/// units; that scale (and any float conversion) is the caller's business.
#[derive(Clone, Copy, Debug, PartialEq, Eq, Structural)]
pub struct RawVertex {
    pub x: i8,
    pub y: i8,
    pub z: i8,
}

/// A 3-component integer vector, used for parent offsets and dimensions.
#[derive(Clone, Copy, Debug, PartialEq, Eq, Structural)]
pub struct V3i32 {
    pub x: i32,
    pub y: i32,
    pub z: i32,
}

/// Axis-aligned bounding extents of a vertex set, with the maximum
/// distance from the origin rounded up to an integer.
#[derive(Clone, Copy, Debug, PartialEq, Eq, Structural)]
pub struct BoundsInfo {
    pub coord_min: V3i32,
    pub coord_max: V3i32,
    pub max_radius: u32,
}

/// Integer division truncating toward zero (the semantics of every
/// fixed-point cast in the formats), for a positive divisor.
pub open spec fn tdiv(a: int, b: int) -> int {
    if a >= 0 {
        a / b
    } else {
        -((-a) / b)
    }
}

/// Executable division truncating toward zero, for the small operand
/// ranges the codecs use.
pub fn tdiv_i32(a: i32, b: u32) -> (r: i32)
    requires
        1 <= b <= 16,
        -100000 <= a <= 100000,
    ensures
        r as int == tdiv(a as int, b as int),
        a >= 0 ==> 0 <= r <= a,
        a < 0 ==> a <= r <= 0,
{
    if a >= 0 {
        ((a as u32) / b) as i32
    } else {
        let na = (0 - a) as u32;
        0 - ((na / b) as i32)
    }
}

/// Squared Euclidean norm of a raw vertex.
pub open spec fn sq_norm(v: RawVertex) -> int {
    (v.x as int) * (v.x as int) + (v.y as int) * (v.y as int) + (v.z as int) * (v.z as int)
}

/// Minimum of `f` over a non-empty vertex sequence.
pub open spec fn min_sel(s: Seq<RawVertex>, f: spec_fn(RawVertex) -> int) -> int
    decreases s.len(),
{
    if s.len() <= 1 {
        f(s[0])
    } else {
        let rest = min_sel(s.drop_last(), f);
        if f(s.last()) < rest {
            f(s.last())
        } else {
            rest
        }
    }
}

/// Maximum of `f` over a non-empty vertex sequence.
pub open spec fn max_sel(s: Seq<RawVertex>, f: spec_fn(RawVertex) -> int) -> int
    decreases s.len(),
{
    if s.len() <= 1 {
        f(s[0])
    } else {
        let rest = max_sel(s.drop_last(), f);
        if f(s.last()) > rest {
            f(s.last())
        } else {
            rest
        }
    }
}

pub open spec fn sel_x(v: RawVertex) -> int {
    v.x as int
}

pub open spec fn sel_y(v: RawVertex) -> int {
    v.y as int
}

pub open spec fn sel_z(v: RawVertex) -> int {
    v.z as int
}

/// `r` is the squared maximum distance rounded up: the least integer whose
/// square reaches `n`.
pub open spec fn is_ceil_sqrt(n: int, r: int) -> bool {
    0 <= r && r * r >= n && (r == 0 || (r - 1) * (r - 1) < n)
}

/// The least integer whose square reaches `n` (for `n >= 0`).
pub open spec fn ceil_sqrt(n: int) -> int {
    choose|r: int| #[trigger] is_ceil_sqrt(n, r)
}

pub proof fn lemma_ceil_sqrt_exists(n: int)
    requires
        n >= 0,
    ensures
        exists|r: int| #[trigger] is_ceil_sqrt(n, r),
    decreases n,
{
    if n == 0 {
        assert(is_ceil_sqrt(0, 0));
    } else {
        lemma_ceil_sqrt_exists(n - 1);
        let r = choose|r: int| #[trigger] is_ceil_sqrt(n - 1, r);
        if r * r >= n {
            assert(is_ceil_sqrt(n, r));
        } else {
            assert(r * r == n - 1);
            assert((r + 1) * (r + 1) == r * r + 2 * r + 1) by (nonlinear_arith);
            assert(is_ceil_sqrt(n, r + 1));
        }
    }
}

pub proof fn lemma_ceil_sqrt_unique(n: int, r1: int, r2: int)
    requires
        is_ceil_sqrt(n, r1),
        is_ceil_sqrt(n, r2),
    ensures
        r1 == r2,
{
    if r1 < r2 {
        assert(r1 <= r2 - 1);
        assert(r1 * r1 <= (r2 - 1) * (r2 - 1)) by (nonlinear_arith)
            requires
                0 <= r1,
                r1 <= r2 - 1,
        ;
        assert(r2 > 0);
    } else if r2 < r1 {
        assert(r2 * r2 <= (r1 - 1) * (r1 - 1)) by (nonlinear_arith)
            requires
                0 <= r2,
                r2 <= r1 - 1,
        ;
        assert(r1 > 0);
    }
}

/// How far an axis interval reaches from zero: the larger magnitude of
/// its two ends (for `lo <= hi` this bounds every value in between).
pub open spec fn axis_reach(lo: int, hi: int) -> int {
    if -lo > hi {
        -lo
    } else {
        hi
    }
}

/// Squared norm of the bounding box's farthest corner from the origin:
/// the square of the radius the format stores with a mesh.
pub open spec fn corner_sq(s: Seq<RawVertex>) -> int {
    let mx = axis_reach(min_sel(s, |v: RawVertex| sel_x(v)), max_sel(s, |v: RawVertex| sel_x(v)));
    let my = axis_reach(min_sel(s, |v: RawVertex| sel_y(v)), max_sel(s, |v: RawVertex| sel_y(v)));
    let mz = axis_reach(min_sel(s, |v: RawVertex| sel_z(v)), max_sel(s, |v: RawVertex| sel_z(v)));
    mx * mx + my * my + mz * mz
}

/// The bounds a decode derives from a vertex list: per-axis extents, and
/// as maximum radius the distance to the bounding box's farthest corner,
/// rounded up to an integer.
pub open spec fn bounds_spec(s: Seq<RawVertex>) -> BoundsInfo {
    BoundsInfo {
        coord_min: V3i32 {
            x: min_sel(s, |v: RawVertex| sel_x(v)) as i32,
            y: min_sel(s, |v: RawVertex| sel_y(v)) as i32,
            z: min_sel(s, |v: RawVertex| sel_z(v)) as i32,
        },
        coord_max: V3i32 {
            x: max_sel(s, |v: RawVertex| sel_x(v)) as i32,
            y: max_sel(s, |v: RawVertex| sel_y(v)) as i32,
            z: max_sel(s, |v: RawVertex| sel_z(v)) as i32,
        },
        max_radius: ceil_sqrt(corner_sq(s)) as u32,
    }
}

pub proof fn lemma_min_sel_props(s: Seq<RawVertex>, f: spec_fn(RawVertex) -> int)
    requires
        s.len() >= 1,
    ensures
        forall|i: int| 0 <= i < s.len() ==> min_sel(s, f) <= #[trigger] f(s[i]),
        exists|i: int| 0 <= i < s.len() && min_sel(s, f) == f(s[i]),
    decreases s.len(),
{
    if s.len() == 1 {
        assert(min_sel(s, f) == f(s[0]));
    } else {
        lemma_min_sel_props(s.drop_last(), f);
        assert(forall|i: int| 0 <= i < s.len() - 1 ==> s.drop_last()[i] == s[i]);
        let j = choose|i: int|
            0 <= i < s.drop_last().len() && min_sel(s.drop_last(), f) == f(s.drop_last()[i]);
        if f(s.last()) < min_sel(s.drop_last(), f) {
            assert(min_sel(s, f) == f(s[s.len() - 1]));
        } else {
            assert(min_sel(s, f) == f(s[j]));
        }
    }
}

pub proof fn lemma_max_sel_props(s: Seq<RawVertex>, f: spec_fn(RawVertex) -> int)
    requires
        s.len() >= 1,
    ensures
        forall|i: int| 0 <= i < s.len() ==> f(s[i]) <= max_sel(s, f),
        exists|i: int| 0 <= i < s.len() && max_sel(s, f) == f(s[i]),
    decreases s.len(),
{
    if s.len() == 1 {
        assert(max_sel(s, f) == f(s[0]));
    } else {
        lemma_max_sel_props(s.drop_last(), f);
        assert(forall|i: int| 0 <= i < s.len() - 1 ==> s.drop_last()[i] == s[i]);
        let j = choose|i: int|
            0 <= i < s.drop_last().len() && max_sel(s.drop_last(), f) == f(s.drop_last()[i]);
        if f(s.last()) > max_sel(s.drop_last(), f) {
            assert(max_sel(s, f) == f(s[s.len() - 1]));
        } else {
            assert(max_sel(s, f) == f(s[j]));
        }
    }
}

/// A value no farther from zero than `m` has a square no larger.
pub proof fn lemma_sq_le(a: int, m: int)
    requires
        -m <= a <= m,
    ensures
        a * a <= m * m,
{
    assert(a * a <= m * m) by (nonlinear_arith)
        requires
            -m <= a <= m,
    ;
}

/// Least `r` with `r * r >= n`, by a bounded upward scan.
fn isqrt_ceil(n: u32) -> (r: u32)
    requires
        n <= 0xffff,
    ensures
        is_ceil_sqrt(n as int, r as int),
        r as int == ceil_sqrt(n as int),
{
    let mut r: u32 = 0;
    while r * r < n
        invariant
            n <= 0xffff,
            r <= 256,
            r * r <= 65536,
            r == 0 || (r - 1) * (r - 1) < n,
        decreases 257 - r,
    {
        proof {
            if r >= 256 {
                assert(r * r >= 256 * 256) by (nonlinear_arith)
                    requires
                        r >= 256,
                ;
            }
            assert((r + 1) * (r + 1) <= 65536) by (nonlinear_arith)
                requires
                    0 <= r,
                    r + 1 <= 256,
            ;
            assert((r + 1) * (r + 1) > r * r) by (nonlinear_arith)
                requires
                    r >= 0,
            ;
        }
        r = r + 1;
    }
    proof {
        lemma_ceil_sqrt_exists(n as int);
        let rr = choose|q: int| #[trigger] is_ceil_sqrt(n as int, q);
        lemma_ceil_sqrt_unique(n as int, r as int, rr);
    }
    r
}

/// Computes the axis-aligned extents and the maximum origin distance of a
/// vertex set, in the raw integer domain. A mesh always has at least one
/// vertex: an empty input fails with `EmptyGeometry`.
pub fn compute_bounds(positions: &Vec<RawVertex>) -> (r: Result<BoundsInfo, Error>)
    ensures
        r is Err <==> positions@.len() == 0,
        r is Err ==> r == Err::<BoundsInfo, Error>(Error::EmptyGeometry),
        r is Ok ==> r->Ok_0 == bounds_spec(positions@),
        r matches Ok(b) ==> {
            &&& forall|i: int|
                0 <= i < positions@.len() ==> {
                    &&& b.coord_min.x <= #[trigger] positions@[i].x <= b.coord_max.x
                    &&& b.coord_min.y <= positions@[i].y <= b.coord_max.y
                    &&& b.coord_min.z <= positions@[i].z <= b.coord_max.z
                    &&& sq_norm(positions@[i]) <= (b.max_radius as int) * (b.max_radius as int)
                }
            &&& (exists|i: int| 0 <= i < positions@.len() && #[trigger] positions@[i].x == b.coord_min.x)
            &&& (exists|i: int| 0 <= i < positions@.len() && #[trigger] positions@[i].x == b.coord_max.x)
            &&& -128 <= b.coord_min.x <= 127 && -128 <= b.coord_max.x <= 127
            &&& -128 <= b.coord_min.y <= 127 && -128 <= b.coord_max.y <= 127
            &&& -128 <= b.coord_min.z <= 127 && -128 <= b.coord_max.z <= 127
            &&& is_ceil_sqrt(corner_sq(positions@), b.max_radius as int)
        },
{
    if positions.len() == 0 {
        return Err(Error::EmptyGeometry);
    }
    let first = positions[0];
    let mut min_x: i32 = first.x as i32;
    let mut min_y: i32 = first.y as i32;
    let mut min_z: i32 = first.z as i32;
    let mut max_x: i32 = first.x as i32;
    let mut max_y: i32 = first.y as i32;
    let mut max_z: i32 = first.z as i32;
    let ghost s = positions@;
    let mut i: usize = 1;
    proof {
        assert(s.take(1).len() == 1);
        assert(s.take(1)[0] == s[0]);
    }
    while i < positions.len()
        invariant
            1 <= i <= s.len(),
            s == positions@,
            s.len() >= 1,
            min_x == min_sel(s.take(i as int), |v: RawVertex| sel_x(v)),
            min_y == min_sel(s.take(i as int), |v: RawVertex| sel_y(v)),
            min_z == min_sel(s.take(i as int), |v: RawVertex| sel_z(v)),
            max_x == max_sel(s.take(i as int), |v: RawVertex| sel_x(v)),
            max_y == max_sel(s.take(i as int), |v: RawVertex| sel_y(v)),
            max_z == max_sel(s.take(i as int), |v: RawVertex| sel_z(v)),
            -128 <= min_x <= 127,
            -128 <= min_y <= 127,
            -128 <= min_z <= 127,
            -128 <= max_x <= 127,
            -128 <= max_y <= 127,
            -128 <= max_z <= 127,
        decreases s.len() - i,
    {
        let v = positions[i];
        let vx = v.x as i32;
        let vy = v.y as i32;
        let vz = v.z as i32;
        proof {
            let t1 = s.take(i + 1 as int);
            assert(t1.drop_last() =~= s.take(i as int));
            assert(t1.last() == s[i as int]);
        }
        if vx < min_x {
            min_x = vx;
        }
        if vy < min_y {
            min_y = vy;
        }
        if vz < min_z {
            min_z = vz;
        }
        if vx > max_x {
            max_x = vx;
        }
        if vy > max_y {
            max_y = vy;
        }
        if vz > max_z {
            max_z = vz;
        }
        i = i + 1;
    }
    proof {
        assert(s.take(s.len() as int) =~= s);
        lemma_min_sel_props(s, |v: RawVertex| sel_x(v));
        lemma_min_sel_props(s, |v: RawVertex| sel_y(v));
        lemma_min_sel_props(s, |v: RawVertex| sel_z(v));
        lemma_max_sel_props(s, |v: RawVertex| sel_x(v));
        lemma_max_sel_props(s, |v: RawVertex| sel_y(v));
        lemma_max_sel_props(s, |v: RawVertex| sel_z(v));
    }
    let mx: i32 = if 0 - min_x > max_x {
        0 - min_x
    } else {
        max_x
    };
    let my: i32 = if 0 - min_y > max_y {
        0 - min_y
    } else {
        max_y
    };
    let mz: i32 = if 0 - min_z > max_z {
        0 - min_z
    } else {
        max_z
    };
    proof {
        assert(mx * mx <= 128 * 128 && mx * mx >= 0) by (nonlinear_arith)
            requires
                0 <= mx <= 128,
        ;
        assert(my * my <= 128 * 128 && my * my >= 0) by (nonlinear_arith)
            requires
                0 <= my <= 128,
        ;
        assert(mz * mz <= 128 * 128 && mz * mz >= 0) by (nonlinear_arith)
            requires
                0 <= mz <= 128,
        ;
    }
    let csq = (mx * mx + my * my + mz * mz) as u32;
    proof {
        assert(csq as int == corner_sq(s));
    }
    let radius = isqrt_ceil(csq);
    let b = BoundsInfo {
        coord_min: V3i32 { x: min_x, y: min_y, z: min_z },
        coord_max: V3i32 { x: max_x, y: max_y, z: max_z },
        max_radius: radius,
    };
    proof {
        assert forall|i: int| 0 <= i < s.len() implies sq_norm(#[trigger] s[i]) <= (
        b.max_radius as int) * (b.max_radius as int) by {
            lemma_sq_le(s[i].x as int, mx as int);
            lemma_sq_le(s[i].y as int, my as int);
            lemma_sq_le(s[i].z as int, mz as int);
            assert(sq_norm(s[i]) <= corner_sq(s));
        }
    }
    Ok(b)
}

} // verus!
