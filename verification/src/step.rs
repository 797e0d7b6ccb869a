//! The integrator: one tick of the spring solver over the whole fragment
//! array, read double-buffered from a snapshot. Gravity, per-neighbor
//! restoring forces with rest length equal to the scaled lattice distance,
//! rigid-plane averaging, multiplicative damping, and the position update
//! for unpinned fragments.

use vstd::prelude::*;

use crate::cloth::Cloth;
use crate::cloth::ClothSegment;
use crate::cloth::ClothSegmentFrag;
use crate::cloth::SCALE_MAX;
use crate::fixed::Fx;
use crate::fixed::SCALE;
use crate::fixed::isqrt;
use crate::fixed::mag;
use crate::fixed::mul_full;
use crate::fixed::mul_units;
use crate::fixed::sat64;
use crate::fixed::sgn2;
use crate::fixed::tdiv;
use crate::fixed::tdiv_i128;
use crate::geom::Vec3;
use crate::geom::norm3_raw;

verus! {

/// The tuning scalars the integrator reads.
#[derive(Clone, Copy, Debug)]
pub struct StepParams {
    /// Lattice-to-world factor.
    pub scale: Fx,
    /// Downward acceleration per tick.
    pub gravity: Fx,
    /// Multiplicative velocity damping per tick.
    pub drag: Fx,
    /// Spring restoring strength.
    pub strength: Fx,
    /// Restoring strength across seams and for pinned fragments.
    pub seam_strength: Fx,
}

/// The damping factor `0.3` applied to the rigid-plane pull.
pub const RIGID_PULL: i64 = 30_000;

/// Saturated sum of the heights of the rigid fragments among the first `m`.
pub open spec fn rigid_sum_upto(frags: Seq<ClothSegmentFrag>, m: int) -> int
    decreases m,
{
    if m <= 0 {
        0
    } else {
        let p = rigid_sum_upto(frags, m - 1);
        if frags[m - 1].rigid {
            sat64(p + frags[m - 1].position.y.raw)
        } else {
            p
        }
    }
}

/// Number of rigid fragments among the first `m`.
pub open spec fn rigid_count_upto(frags: Seq<ClothSegmentFrag>, m: int) -> int
    decreases m,
{
    if m <= 0 {
        0
    } else {
        rigid_count_upto(frags, m - 1) + if frags[m - 1].rigid {
            1int
        } else {
            0int
        }
    }
}

/// Mean height of the rigid fragments, zero when there are none.
pub open spec fn rigid_plane(frags: Seq<ClothSegmentFrag>) -> int {
    let cnt = rigid_count_upto(frags, frags.len() as int);
    if cnt == 0 {
        0
    } else {
        tdiv(rigid_sum_upto(frags, frags.len() as int), cnt)
    }
}

/// The spring force one neighbor snapshot `gf` exerts on `f`: the
/// normalized position difference scaled by the negated stretch and the
/// chosen strength. The rest length is the lattice distance times the
/// world scale, computed under one shared square root so that an exactly
/// rested pair contributes exactly zero. A seam-partner neighbor pulls
/// toward coincidence with the seam strength; a neighbor of another piece
/// contributes nothing.
pub open spec fn contrib_frag(
    f: ClothSegmentFrag,
    gf: ClothSegmentFrag,
    insec: bool,
    ps: StepParams,
) -> (int, int, int) {
    let dx = sat64(gf.position.x.raw - f.position.x.raw);
    let dy = sat64(gf.position.y.raw - f.position.y.raw);
    let dz = sat64(gf.position.z.raw - f.position.z.raw);
    let seam = f.link_number is Some && gf.link_number == f.link_number && gf.line_id != f.line_id;
    let mult = if seam {
        ps.seam_strength.raw as int
    } else if !insec {
        0
    } else if f.pinned {
        ps.seam_strength.raw as int
    } else {
        ps.strength.raw as int
    };
    let d2 = (gf.index.x - f.index.x) * (gf.index.x - f.index.x) + (gf.index.y - f.index.y) * (
    gf.index.y - f.index.y) + (gf.index.z - f.index.z) * (gf.index.z - f.index.z);
    let rest = if seam {
        0
    } else {
        sat64(isqrt(d2 * ((ps.scale.raw as int) * (ps.scale.raw as int))))
    };
    let norm = sat64(isqrt(dx * dx + dy * dy + dz * dz));
    let change = sat64(rest - norm);
    if norm == 0 {
        (0, 0, 0)
    } else {
        let nc = sat64(-change);
        (
            mul_units(mul_units(sat64(tdiv(dx * (SCALE as int), norm)), nc), mult),
            mul_units(mul_units(sat64(tdiv(dy * (SCALE as int), norm)), nc), mult),
            mul_units(mul_units(sat64(tdiv(dz * (SCALE as int), norm)), nc), mult),
        )
    }
}

/// Accumulated force on ordinal `o` from its first `j` neighbors; the
/// fragment itself exerts nothing.
pub open spec fn force_upto(
    frags: Seq<ClothSegmentFrag>,
    nbrs: Seq<Seq<int>>,
    secof: Seq<int>,
    ps: StepParams,
    o: int,
    j: int,
) -> (int, int, int)
    decreases j,
{
    if j <= 0 {
        (0, 0, 0)
    } else {
        let prev = force_upto(frags, nbrs, secof, ps, o, j - 1);
        let g = nbrs[o][j - 1];
        let ct = if g == o {
            (0int, 0int, 0int)
        } else {
            contrib_frag(frags[o], frags[g], secof[g] == secof[o], ps)
        };
        (sat64(prev.0 + ct.0), sat64(prev.1 + ct.1), sat64(prev.2 + ct.2))
    }
}

/// One integrator tick for ordinal `o`: gravity, accumulated neighbor
/// force, rigid-plane pull, damping, and the position update unless
/// pinned. Every other field is kept.
pub open spec fn step_frag(
    frags: Seq<ClothSegmentFrag>,
    nbrs: Seq<Seq<int>>,
    secof: Seq<int>,
    ps: StepParams,
    o: int,
) -> ClothSegmentFrag {
    let f = frags[o];
    let v1y = sat64(f.velocity.y.raw - ps.gravity.raw);
    let fo = force_upto(frags, nbrs, secof, ps, o, nbrs[o].len() as int);
    let fo2 = if f.rigid {
        (
            fo.0,
            sat64(fo.1 + mul_units(sat64(rigid_plane(frags) - f.position.y.raw), RIGID_PULL as int)),
            fo.2,
        )
    } else {
        fo
    };
    let v2 = (
        sat64(f.velocity.x.raw + fo2.0),
        sat64(v1y + fo2.1),
        sat64(f.velocity.z.raw + fo2.2),
    );
    let v3 = (
        mul_units(v2.0, ps.drag.raw as int),
        mul_units(v2.1, ps.drag.raw as int),
        mul_units(v2.2, ps.drag.raw as int),
    );
    let pos = if f.pinned {
        f.position
    } else {
        Vec3 {
            x: Fx { raw: sat64(f.position.x.raw + v3.0) as i64 },
            y: Fx { raw: sat64(f.position.y.raw + v3.1) as i64 },
            z: Fx { raw: sat64(f.position.z.raw + v3.2) as i64 },
        }
    };
    ClothSegmentFrag {
        position: pos,
        velocity: Vec3 {
            x: Fx { raw: v3.0 as i64 },
            y: Fx { raw: v3.1 as i64 },
            z: Fx { raw: v3.2 as i64 },
        },
        ..f
    }
}

/// One integrator tick over the whole fragment array.
pub open spec fn step_frags(
    frags: Seq<ClothSegmentFrag>,
    nbrs: Seq<Seq<int>>,
    secof: Seq<int>,
    ps: StepParams,
) -> Seq<ClothSegmentFrag> {
    Seq::new(frags.len(), |o: int| step_frag(frags, nbrs, secof, ps, o))
}

impl Cloth {
    /// The fragment snapshot the integrator reads.
    pub open spec fn frags(self) -> Seq<ClothSegmentFrag> {
        Seq::new(self.segments@.len(), |o: int| self.segments@[o].frag)
    }

    /// The neighbor ordinal lists.
    pub open spec fn nbrs(self) -> Seq<Seq<int>> {
        Seq::new(
            self.segments@.len(),
            |o: int| self.segments@[o].neighbor_index@.map_values(|v: usize| v as int),
        )
    }

    /// The section index of each ordinal.
    pub open spec fn secof(self) -> Seq<int> {
        self.section_of@.map_values(|v: usize| v as int)
    }

    /// The integrator tuning scalars.
    pub open spec fn params(self) -> StepParams {
        StepParams {
            scale: self.scale,
            gravity: self.gravity,
            drag: self.drag,
            strength: self.strength,
            seam_strength: self.seam_strength,
        }
    }
}

} // verus!
// The executable tick.

verus! {

/// One neighbor's force contribution, exactly as the specification
/// computes it.
fn neighbor_contrib(f: &ClothSegmentFrag, gf: &ClothSegmentFrag, insec: bool, ps: StepParams) -> (r:
    (Fx, Fx, Fx))
    requires
        f.index.bounded(),
        gf.index.bounded(),
        0 <= ps.scale.raw <= SCALE_MAX,
    ensures
        (r.0.raw as int, r.1.raw as int, r.2.raw as int) == contrib_frag(*f, *gf, insec, ps),
{
    let dxv = gf.position.sub(f.position);
    let seam = match (f.link_number, gf.link_number) {
        (Some(a), Some(b)) => a == b && gf.line_id != f.line_id,
        _ => false,
    };
    let mult: Fx = if seam {
        ps.seam_strength
    } else if !insec {
        Fx { raw: 0 }
    } else if f.pinned {
        ps.seam_strength
    } else {
        ps.strength
    };
    let rest: Fx = if seam {
        Fx { raw: 0 }
    } else {
        let ix: i64 = gf.index.x - f.index.x;
        let iy: i64 = gf.index.y - f.index.y;
        let iz: i64 = gf.index.z - f.index.z;
        let d2: u128 = crate::geom::square_u128(ix) + crate::geom::square_u128(iy)
            + crate::geom::square_u128(iz);
        assert(d2 as int <= 3 * ((0x1_0000_0000_0000_0000int) * 1)) by (nonlinear_arith)
            requires
                d2 as int == (ix as int) * (ix as int) + (iy as int) * (iy as int) + (iz as int) * (
                iz as int),
                mag(ix as int) <= 0x1_0000_0000int,
                mag(iy as int) <= 0x1_0000_0000int,
                mag(iz as int) <= 0x1_0000_0000int,
        ;
        proof {
            assert((ps.scale.raw as int) * (ps.scale.raw as int) <= (SCALE_MAX as int) * (
            SCALE_MAX as int)) by (nonlinear_arith)
                requires
                    0 <= ps.scale.raw as int <= SCALE_MAX as int,
            ;
        }
        let s2: u128 = (ps.scale.raw as u128) * (ps.scale.raw as u128);
        assert((d2 as int) * (s2 as int) <= (3 * 0x1_0000_0000_0000_0000int) * ((SCALE_MAX as int)
            * (SCALE_MAX as int))) by (nonlinear_arith)
            requires
                0 <= d2 as int <= 3 * 0x1_0000_0000_0000_0000int,
                0 <= s2 as int <= (SCALE_MAX as int) * (SCALE_MAX as int),
        ;
        let prod: u128 = d2 * s2;
        let rt = crate::fixed::isqrt_u128(prod);
        if rt > i64::MAX as u128 {
            Fx { raw: i64::MAX }
        } else {
            Fx { raw: rt as i64 }
        }
    };
    let norm = norm3_raw(dxv.x.raw, dxv.y.raw, dxv.z.raw);
    let change = rest.sub(norm);
    if norm.raw == 0 {
        (Fx { raw: 0 }, Fx { raw: 0 }, Fx { raw: 0 })
    } else {
        proof {
            let nn = (dxv.x.raw as int) * (dxv.x.raw as int) + (dxv.y.raw as int) * (dxv.y.raw
                as int) + (dxv.z.raw as int) * (dxv.z.raw as int);
            assert(nn >= 0) by (nonlinear_arith)
                requires
                    nn == (dxv.x.raw as int) * (dxv.x.raw as int) + (dxv.y.raw as int) * (dxv.y.raw
                        as int) + (dxv.z.raw as int) * (dxv.z.raw as int),
            ;
            crate::fixed::lemma_isqrt_exists(nn);
        }
        let nc = change.neg();
        let ux = tdiv_i128(mul_full(dxv.x.raw, SCALE), norm.raw as i128);
        let uy = tdiv_i128(mul_full(dxv.y.raw, SCALE), norm.raw as i128);
        let uz = tdiv_i128(mul_full(dxv.z.raw, SCALE), norm.raw as i128);
        let cx = Fx { raw: ux }.mul(nc).mul(mult);
        let cy = Fx { raw: uy }.mul(nc).mul(mult);
        let cz = Fx { raw: uz }.mul(nc).mul(mult);
        (cx, cy, cz)
    }
}

/// Copy a neighbor ordinal list.
fn copy_ordinals(v: &Vec<usize>) -> (r: Vec<usize>)
    ensures
        r@ == v@,
{
    let mut r: Vec<usize> = Vec::new();
    let mut i: usize = 0;
    while i < v.len()
        invariant
            0 <= i <= v@.len(),
            r@ == v@.take(i as int),
        decreases v@.len() - i,
    {
        r.push(v[i]);
        proof {
            assert(r@ =~= v@.take(i as int + 1));
        }
        i = i + 1;
    }
    proof {
        assert(r@ =~= v@);
    }
    r
}

impl Cloth {
    /// One tick of the spring integrator over the whole fragment array,
    /// atomically: every fragment advances as the specification's
    /// `step_frag` says, from a snapshot of the previous state; nothing
    /// else changes.
    pub fn step(&mut self)
        requires
            old(self).wf(),
        ensures
            final (self).wf(),
            final (self).segments@.len() == old(self).segments@.len(),
            forall|o: int|
                0 <= o < old(self).segments@.len() ==> {
                    &&& (#[trigger] final (self).segments@[o]).frag == step_frag(
                        old(self).frags(),
                        old(self).nbrs(),
                        old(self).secof(),
                        old(self).params(),
                        o,
                    )
                    &&& final (self).segments@[o].neighbor_index@ == old(
                        self,
                    ).segments@[o].neighbor_index@
                    &&& final (self).segments@[o].index == old(self).segments@[o].index
                },
            final (self).sections@ == old(self).sections@,
            final (self).section_of@ == old(self).section_of@,
            final (self).scale == old(self).scale,
            final (self).gravity == old(self).gravity,
            final (self).drag == old(self).drag,
            final (self).strength == old(self).strength,
            final (self).seam_strength == old(self).seam_strength,
            final (self).stiffness == old(self).stiffness,
            final (self).quads@ == old(self).quads@,
    {
        let n = self.segments.len();
        let mut memory: Vec<ClothSegmentFrag> = Vec::new();
        let mut rigid_sum = Fx { raw: 0 };
        let mut rigid_len: usize = 0;
        let mut i: usize = 0;
        while i < n
            invariant
                old(self).wf(),
                self == old(self),
                n == self.segments@.len(),
                0 <= i <= n,
                memory@.len() == i,
                forall|p: int| 0 <= p < i ==> memory@[p] == old(self).frags()[p],
                rigid_sum.raw as int == rigid_sum_upto(old(self).frags(), i as int),
                rigid_len <= i,
                rigid_len as int == rigid_count_upto(old(self).frags(), i as int),
            decreases n - i,
        {
            let fr = self.segments[i].frag;
            assert(fr == old(self).frags()[i as int]);
            if fr.rigid {
                rigid_sum = rigid_sum.add(Fx { raw: fr.position.y.raw });
                rigid_len = rigid_len + 1;
            }
            memory.push(fr);
            i = i + 1;
        }
        let plane: i64 = if rigid_len == 0 {
            0
        } else {
            tdiv_i128(rigid_sum.raw as i128, rigid_len as i128)
        };
        assert(plane as int == rigid_plane(old(self).frags()));
        let ps = StepParams {
            scale: self.scale,
            gravity: self.gravity,
            drag: self.drag,
            strength: self.strength,
            seam_strength: self.seam_strength,
        };
        let mut o: usize = 0;
        while o < n
            invariant
                old(self).wf(),
                n == self.segments@.len(),
                n == old(self).segments@.len(),
                0 <= o <= n,
                memory@.len() == n,
                forall|p: int| 0 <= p < n ==> memory@[p] == old(self).frags()[p],
                plane as int == rigid_plane(old(self).frags()),
                ps == old(self).params(),
                forall|p: int| o <= p < n ==> self.segments@[p] == old(self).segments@[p],
                forall|p: int|
                    0 <= p < o ==> {
                        &&& (#[trigger] self.segments@[p]).frag == step_frag(
                            old(self).frags(),
                            old(self).nbrs(),
                            old(self).secof(),
                            old(self).params(),
                            p,
                        )
                        &&& self.segments@[p].neighbor_index@ == old(
                            self,
                        ).segments@[p].neighbor_index@
                        &&& self.segments@[p].index == old(self).segments@[p].index
                    },
                self.sections@ == old(self).sections@,
                self.section_of@ == old(self).section_of@,
                self.scale == old(self).scale,
                self.gravity == old(self).gravity,
                self.drag == old(self).drag,
                self.strength == old(self).strength,
                self.seam_strength == old(self).seam_strength,
                self.stiffness == old(self).stiffness,
                self.quads@ == old(self).quads@,
            decreases n - o,
        {
            let f = memory[o];
            assert(f == old(self).frags()[o as int]);
            let deg = self.segments[o].neighbor_index.len();
            assert(deg as int == old(self).nbrs()[o as int].len());
            let mut fx = Fx { raw: 0 };
            let mut fy = Fx { raw: 0 };
            let mut fz = Fx { raw: 0 };
            let mut j: usize = 0;
            while j < deg
                invariant
                    old(self).wf(),
                    n == self.segments@.len(),
                    n == old(self).segments@.len(),
                    0 <= o < n,
                    0 <= j <= deg,
                    memory@.len() == n,
                    forall|p: int| 0 <= p < n ==> memory@[p] == old(self).frags()[p],
                    ps == old(self).params(),
                    f == old(self).frags()[o as int],
                    self.segments@[o as int] == old(self).segments@[o as int],
                    self.section_of@ == old(self).section_of@,
                    deg as int == old(self).nbrs()[o as int].len(),
                    deg as int == self.segments@[o as int].neighbor_index@.len(),
                    (fx.raw as int, fy.raw as int, fz.raw as int) == force_upto(
                        old(self).frags(),
                        old(self).nbrs(),
                        old(self).secof(),
                        old(self).params(),
                        o as int,
                        j as int,
                    ),
                decreases deg - j,
            {
                let g = self.segments[o].neighbor_index[j];
                assert(g as int == old(self).nbrs()[o as int][j as int]);
                assert(g < n);
                if g != o {
                    let insec = self.section_of[g] == self.section_of[o];
                    assert(insec == (old(self).secof()[g as int] == old(self).secof()[o as int]));
                    let gf = memory[g];
                    let (cx, cy, cz) = neighbor_contrib(&f, &gf, insec, ps);
                    fx = fx.add(cx);
                    fy = fy.add(cy);
                    fz = fz.add(cz);
                } else {
                    proof {
                        let prev = force_upto(
                            old(self).frags(),
                            old(self).nbrs(),
                            old(self).secof(),
                            old(self).params(),
                            o as int,
                            j as int,
                        );
                        assert(sat64(prev.0 + 0) == prev.0);
                        assert(sat64(prev.1 + 0) == prev.1);
                        assert(sat64(prev.2 + 0) == prev.2);
                    }
                }
                j = j + 1;
            }
            if f.rigid {
                let pull = Fx { raw: plane }.sub(Fx { raw: f.position.y.raw }).mul(
                    Fx { raw: RIGID_PULL },
                );
                fy = fy.add(pull);
            }
            let v1y = f.velocity.y.sub(ps.gravity);
            let v2x = f.velocity.x.add(fx);
            let v2y = v1y.add(fy);
            let v2z = f.velocity.z.add(fz);
            let v3 = Vec3 { x: v2x.mul(ps.drag), y: v2y.mul(ps.drag), z: v2z.mul(ps.drag) };
            let pos = if f.pinned {
                f.position
            } else {
                f.position.add(v3)
            };
            let newfrag = ClothSegmentFrag {
                index: f.index,
                position: pos,
                velocity: v3,
                pinned: f.pinned,
                rigid: f.rigid,
                link_vector: f.link_vector,
                link_number: f.link_number,
                line_id: f.line_id,
            };
            assert(newfrag == step_frag(
                old(self).frags(),
                old(self).nbrs(),
                old(self).secof(),
                old(self).params(),
                o as int,
            ));
            let nb = copy_ordinals(&self.segments[o].neighbor_index);
            let newseg = ClothSegment { frag: newfrag, neighbor_index: nb, index: o };
            self.segments.set(o, newseg);
            o = o + 1;
        }
    }
}

} // verus!
// The integrator laws.

verus! {

/// The fragment array after `n` integrator ticks.
pub open spec fn iterate_frags(
    frags: Seq<ClothSegmentFrag>,
    nbrs: Seq<Seq<int>>,
    secof: Seq<int>,
    ps: StepParams,
    n: nat,
) -> Seq<ClothSegmentFrag>
    decreases n,
{
    if n == 0 {
        frags
    } else {
        step_frags(iterate_frags(frags, nbrs, secof, ps, (n - 1) as nat), nbrs, secof, ps)
    }
}

/// Pin idempotence: a pinned fragment keeps its exact position through any
/// number of integrator ticks, and stays pinned.
pub proof fn lemma_pin_idempotence(
    frags: Seq<ClothSegmentFrag>,
    nbrs: Seq<Seq<int>>,
    secof: Seq<int>,
    ps: StepParams,
    o: int,
    n: nat,
)
    requires
        0 <= o < frags.len(),
        frags[o].pinned,
    ensures
        iterate_frags(frags, nbrs, secof, ps, n).len() == frags.len(),
        iterate_frags(frags, nbrs, secof, ps, n)[o].pinned,
        iterate_frags(frags, nbrs, secof, ps, n)[o].position == frags[o].position,
    decreases n,
{
    if n > 0 {
        lemma_pin_idempotence(frags, nbrs, secof, ps, o, (n - 1) as nat);
    }
}

/// A velocity component damped `n` times.
pub open spec fn dragged(v: int, drag: int, n: nat) -> int
    decreases n,
{
    if n == 0 {
        v
    } else {
        mul_units(dragged(v, drag, (n - 1) as nat), drag)
    }
}

/// Drag decay: a non-rigid fragment with no neighbors, under no gravity,
/// has each velocity component damped by exactly the drag factor on every
/// tick.
pub proof fn lemma_drag_decay(
    frags: Seq<ClothSegmentFrag>,
    nbrs: Seq<Seq<int>>,
    secof: Seq<int>,
    ps: StepParams,
    o: int,
    n: nat,
)
    requires
        0 <= o < frags.len(),
        nbrs[o].len() == 0,
        ps.gravity.raw == 0,
        !frags[o].rigid,
    ensures
        iterate_frags(frags, nbrs, secof, ps, n).len() == frags.len(),
        !iterate_frags(frags, nbrs, secof, ps, n)[o].rigid,
        iterate_frags(frags, nbrs, secof, ps, n)[o].velocity.x.raw as int == dragged(
            frags[o].velocity.x.raw as int,
            ps.drag.raw as int,
            n,
        ),
        iterate_frags(frags, nbrs, secof, ps, n)[o].velocity.y.raw as int == dragged(
            frags[o].velocity.y.raw as int,
            ps.drag.raw as int,
            n,
        ),
        iterate_frags(frags, nbrs, secof, ps, n)[o].velocity.z.raw as int == dragged(
            frags[o].velocity.z.raw as int,
            ps.drag.raw as int,
            n,
        ),
    decreases n,
{
    if n > 0 {
        lemma_drag_decay(frags, nbrs, secof, ps, o, (n - 1) as nat);
        let prev = iterate_frags(frags, nbrs, secof, ps, (n - 1) as nat);
        let f = prev[o];
        assert(sat64(f.velocity.y.raw - 0) == f.velocity.y.raw);
        assert(force_upto(prev, nbrs, secof, ps, o, 0) == (0int, 0int, 0int));
        assert(sat64(f.velocity.x.raw + 0) == f.velocity.x.raw);
        assert(sat64(f.velocity.z.raw + 0) == f.velocity.z.raw);
    }
}

/// A configuration at rest: zero velocities, no gravity, no rigid or
/// seam-linked fragments, and every neighbor sitting at exactly the scaled
/// lattice offset from its partner.
pub open spec fn rest_config(
    frags: Seq<ClothSegmentFrag>,
    nbrs: Seq<Seq<int>>,
    ps: StepParams,
) -> bool {
    &&& nbrs.len() == frags.len()
    &&& ps.gravity.raw == 0
    &&& 0 <= ps.scale.raw <= SCALE_MAX as int
    &&& forall|o: int|
        0 <= o < frags.len() ==> {
            &&& (#[trigger] frags[o]).velocity.x.raw == 0
            &&& frags[o].velocity.y.raw == 0
            &&& frags[o].velocity.z.raw == 0
            &&& !frags[o].rigid
            &&& frags[o].link_number is None
            &&& frags[o].index.bounded()
        }
    &&& forall|o: int, j: int|
        #![trigger nbrs[o][j]]
        0 <= o < frags.len() && 0 <= j < nbrs[o].len() ==> {
            let g = nbrs[o][j];
            &&& 0 <= g < frags.len()
            &&& (g != o ==> frags[g].position.x.raw - frags[o].position.x.raw == (frags[g].index.x
                - frags[o].index.x) * (ps.scale.raw as int) && frags[g].position.y.raw
                - frags[o].position.y.raw == (frags[g].index.y - frags[o].index.y) * (ps.scale.raw
                as int) && frags[g].position.z.raw - frags[o].position.z.raw == (frags[g].index.z
                - frags[o].index.z) * (ps.scale.raw as int))
        }
}

/// Multiplying by the fixed-point zero gives zero.
pub proof fn lemma_mul_units_zero(a: int)
    ensures
        mul_units(a, 0) == 0,
        mul_units(0, a) == 0,
{
    assert(mag(0int) == 0);
    assert(mag(a) * mag(0int) == 0) by (nonlinear_arith)
        requires
            mag(0int) == 0,
    ;
    assert(mag(0int) * mag(a) == 0) by (nonlinear_arith)
        requires
            mag(0int) == 0,
    ;
    assert(0int / (SCALE as int) == 0);
    assert(sgn2(a, 0) * 0 == 0) by (nonlinear_arith);
    assert(sgn2(0, a) * 0 == 0) by (nonlinear_arith);
}

/// At rest, one neighbor contribution vanishes exactly.
proof fn lemma_rest_contrib(
    frags: Seq<ClothSegmentFrag>,
    nbrs: Seq<Seq<int>>,
    ps: StepParams,
    o: int,
    g: int,
)
    requires
        rest_config(frags, nbrs, ps),
        0 <= o < frags.len(),
        0 <= g < frags.len(),
        g != o,
        frags[g].position.x.raw - frags[o].position.x.raw == (frags[g].index.x - frags[o].index.x)
            * (ps.scale.raw as int),
        frags[g].position.y.raw - frags[o].position.y.raw == (frags[g].index.y - frags[o].index.y)
            * (ps.scale.raw as int),
        frags[g].position.z.raw - frags[o].position.z.raw == (frags[g].index.z - frags[o].index.z)
            * (ps.scale.raw as int),
    ensures
        forall|insec: bool| #[trigger] contrib_frag(frags[o], frags[g], insec, ps) == (0int, 0int, 0int),
{
    let f = frags[o];
    let gf = frags[g];
    let ix = gf.index.x - f.index.x;
    let iy = gf.index.y - f.index.y;
    let iz = gf.index.z - f.index.z;
    let s = ps.scale.raw as int;
    assert(mag(ix) <= 0x1_0000_0000int && mag(iy) <= 0x1_0000_0000int && mag(iz)
        <= 0x1_0000_0000int);
    assert(mag(ix * s) <= 0x4000_0000_0000_0000_0000_0000int && mag(iy * s)
        <= 0x4000_0000_0000_0000_0000_0000int && mag(iz * s)
        <= 0x4000_0000_0000_0000_0000_0000int) by (nonlinear_arith)
        requires
            mag(ix) <= 0x1_0000_0000int,
            mag(iy) <= 0x1_0000_0000int,
            mag(iz) <= 0x1_0000_0000int,
            0 <= s <= SCALE_MAX as int,
    ;
    assert(mag(ix * s) <= i64::MAX as int && mag(iy * s) <= i64::MAX as int && mag(iz * s)
        <= i64::MAX as int) by (nonlinear_arith)
        requires
            mag(ix) <= 0x1_0000_0000int,
            mag(iy) <= 0x1_0000_0000int,
            mag(iz) <= 0x1_0000_0000int,
            0 <= s <= SCALE_MAX as int,
    ;
    let dx = sat64(gf.position.x.raw - f.position.x.raw);
    let dy = sat64(gf.position.y.raw - f.position.y.raw);
    let dz = sat64(gf.position.z.raw - f.position.z.raw);
    assert(dx == ix * s && dy == iy * s && dz == iz * s);
    let d2 = ix * ix + iy * iy + iz * iz;
    assert(dx * dx + dy * dy + dz * dz == d2 * (s * s)) by (nonlinear_arith)
        requires
            dx == ix * s,
            dy == iy * s,
            dz == iz * s,
            d2 == ix * ix + iy * iy + iz * iz,
    ;
    assert(d2 * (s * s) >= 0) by (nonlinear_arith)
        requires
            d2 == ix * ix + iy * iy + iz * iz,
    ;
    let rest = sat64(isqrt(d2 * (s * s)));
    let norm = sat64(isqrt(dx * dx + dy * dy + dz * dz));
    assert(rest == norm);
    let change = sat64(rest - norm);
    assert(change == 0);
    assert forall|insec: bool| #[trigger] contrib_frag(frags[o], frags[g], insec, ps) == (
        0int,
        0int,
        0int,
    ) by {
        if norm != 0 {
            let nc = sat64(-change);
            assert(nc == 0);
            lemma_mul_units_zero(sat64(tdiv(dx * (SCALE as int), norm)));
            lemma_mul_units_zero(sat64(tdiv(dy * (SCALE as int), norm)));
            lemma_mul_units_zero(sat64(tdiv(dz * (SCALE as int), norm)));
            lemma_mul_units_zero(ps.seam_strength.raw as int);
            lemma_mul_units_zero(ps.strength.raw as int);
            lemma_mul_units_zero(0);
        }
    }
}

/// At rest, the whole accumulated force vanishes.
proof fn lemma_rest_force(
    frags: Seq<ClothSegmentFrag>,
    nbrs: Seq<Seq<int>>,
    secof: Seq<int>,
    ps: StepParams,
    o: int,
    j: int,
)
    requires
        rest_config(frags, nbrs, ps),
        0 <= o < frags.len(),
        0 <= j <= nbrs[o].len(),
    ensures
        force_upto(frags, nbrs, secof, ps, o, j) == (0int, 0int, 0int),
    decreases j,
{
    if j > 0 {
        lemma_rest_force(frags, nbrs, secof, ps, o, j - 1);
        let g = nbrs[o][j - 1];
        if g != o {
            lemma_rest_contrib(frags, nbrs, ps, o, g);
            assert(contrib_frag(frags[o], frags[g], secof[g] == secof[o], ps) == (0int, 0int, 0int));
        }
    }
}

/// Rest shape: a sheet sitting exactly at its rest positions with zero
/// velocities, under no gravity, keeps every position and velocity
/// unchanged through any number of integrator ticks.
pub proof fn lemma_rest_shape(
    frags: Seq<ClothSegmentFrag>,
    nbrs: Seq<Seq<int>>,
    secof: Seq<int>,
    ps: StepParams,
    n: nat,
)
    requires
        rest_config(frags, nbrs, ps),
    ensures
        iterate_frags(frags, nbrs, secof, ps, n) =~= frags,
    decreases n,
{
    if n > 0 {
        lemma_rest_shape(frags, nbrs, secof, ps, (n - 1) as nat);
        assert forall|o: int| 0 <= o < frags.len() implies step_frag(frags, nbrs, secof, ps, o)
            == frags[o] by {
            let f = frags[o];
            lemma_rest_force(frags, nbrs, secof, ps, o, nbrs[o].len() as int);
            assert(sat64(f.velocity.y.raw - 0) == 0);
            lemma_mul_units_zero(ps.drag.raw as int);
            assert(sat64(f.position.x.raw + 0) == f.position.x.raw);
            assert(sat64(f.position.y.raw + 0) == f.position.y.raw);
            assert(sat64(f.position.z.raw + 0) == f.position.z.raw);
            assert(step_frag(frags, nbrs, secof, ps, o).velocity == f.velocity);
            assert(step_frag(frags, nbrs, secof, ps, o).position == f.position);
        }
        assert(step_frags(frags, nbrs, secof, ps) =~= frags);
    }
}

} // verus!
