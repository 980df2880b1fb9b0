use vstd::prelude::*;
use crate::geom::{tdiv, tdiv_i32, RawVertex};

verus! {

/// Per-axis sum of the four corners of a collision quad.
pub open spec fn quad_sum_x(c: Seq<RawVertex>) -> int {
    c[0].x + c[1].x + c[2].x + c[3].x
}

pub open spec fn quad_sum_y(c: Seq<RawVertex>) -> int {
    c[0].y + c[1].y + c[2].y + c[3].y
}

pub open spec fn quad_sum_z(c: Seq<RawVertex>) -> int {
    c[0].z + c[1].z + c[2].z + c[3].z
}

/// The sample the flat tessellation emits for corner `j`: half the corner
/// plus an eighth of the corner sum, every division truncating toward
/// zero. The truncation is part of the format's observable behaviour.
pub open spec fn flat_sample(c: Seq<RawVertex>, j: int) -> RawVertex {
    RawVertex {
        x: (tdiv(c[j].x as int, 2) + tdiv(quad_sum_x(c), 8)) as i8,
        y: (tdiv(c[j].y as int, 2) + tdiv(quad_sum_y(c), 8)) as i8,
        z: (tdiv(c[j].z as int, 2) + tdiv(quad_sum_z(c), 8)) as i8,
    }
}

/// All four samples of a quad, in corner order.
pub open spec fn flat_samples(c: Seq<RawVertex>) -> Seq<RawVertex> {
    Seq::new(4, |j: int| flat_sample(c, j))
}

/// Derives the sample points that approximate one collision quad's
/// surface, for physics raycasting. The scratch buffer is reused across
/// calls so a whole polygon list can be walked in one pass.
pub struct Tessellator {
    samples: Vec<RawVertex>,
}

impl View for Tessellator {
    type V = Seq<RawVertex>;

    /// What the scratch buffer currently holds.
    closed spec fn view(&self) -> Seq<RawVertex> {
        self.samples@
    }
}

impl Tessellator {
    /// A fresh tessellator holds an empty scratch buffer.
    pub fn new() -> (t: Tessellator)
        ensures
            t@ == Seq::<RawVertex>::empty(),
    {
        Tessellator { samples: Vec::new() }
    }

    /// Emits exactly one sample per corner: `corner / 2` plus the
    /// per-axis half-middle `sum / 8`, truncating toward zero, exactly
    /// the placement the physics sampling expects. The supplied middle
    /// point does not enter the flat tessellation.
    pub fn tessellate(&mut self, corners: &[RawVertex], _middle: RawVertex) -> (r: &[RawVertex])
        requires
            corners@.len() == 4,
        ensures
            r@ == flat_samples(corners@),
            final(self)@ == flat_samples(corners@),
            r@.len() == 4,
            forall|j: int| 0 <= j < 4 ==> r@[j] == flat_sample(corners@, j),
    {
        self.samples.clear();
        let sx = corners[0].x as i32 + corners[1].x as i32 + corners[2].x as i32
            + corners[3].x as i32;
        let sy = corners[0].y as i32 + corners[1].y as i32 + corners[2].y as i32
            + corners[3].y as i32;
        let sz = corners[0].z as i32 + corners[1].z as i32 + corners[2].z as i32
            + corners[3].z as i32;
        let hx = tdiv_i32(sx, 8);
        let hy = tdiv_i32(sy, 8);
        let hz = tdiv_i32(sz, 8);
        let mut j: usize = 0;
        while j < 4
            invariant
                corners@.len() == 4,
                j <= 4,
                hx as int == tdiv(quad_sum_x(corners@), 8),
                hy as int == tdiv(quad_sum_y(corners@), 8),
                hz as int == tdiv(quad_sum_z(corners@), 8),
                -64 <= hx <= 63,
                -64 <= hy <= 63,
                -64 <= hz <= 63,
                self.samples@ == flat_samples(corners@).take(j as int),
            decreases 4 - j,
        {
            let c = corners[j];
            let vx = tdiv_i32(c.x as i32, 2) + hx;
            let vy = tdiv_i32(c.y as i32, 2) + hy;
            let vz = tdiv_i32(c.z as i32, 2) + hz;
            let v = RawVertex { x: vx as i8, y: vy as i8, z: vz as i8 };
            proof {
                assert(v == flat_sample(corners@, j as int));
                assert(flat_samples(corners@).take(j + 1 as int) =~= flat_samples(
                    corners@,
                ).take(j as int).push(flat_sample(corners@, j as int)));
            }
            self.samples.push(v);
            j = j + 1;
        }
        proof {
            assert(flat_samples(corners@).take(4) =~= flat_samples(corners@));
        }
        self.samples.as_slice()
    }
}

} // verus!
