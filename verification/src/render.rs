//! The render pipeline: a resumable job that sweeps the draft into
//! fragments, flood-fills the sections, links the neighborhoods and seam
//! edges, and extracts the wireframe quads. The job advances one bounded
//! slice of work at a time so a caller can poll for cancellation between
//! slices; dropping the job abandons the render and leaves any previous
//! cloth untouched.

use vstd::prelude::*;

use crate::cloth::Cloth;
use crate::cloth::ClothSegment;
use crate::cloth::ClothSegmentFrag;
use crate::cloth::SCALE_MAX;
use crate::drafting::Draft;
use crate::drafting::Line;
use crate::fixed::Fx;
use crate::fixed::SCALE;
use crate::geom::COORD_MAX;
use crate::geom::Index3;
use crate::geom::in_cube;
use crate::linker::find_seam_partner;
use crate::linker::seam_partner;
use crate::quads::quad_wf;
use crate::raster::RasterState;
use crate::raster::cols_frags;
use crate::sections::connected;
use crate::sections::count_false;
use crate::sections::discover_step;
use crate::sections::lemma_count_false_mono;

verus! {

/// The neighbor list of ordinal `o` holds exactly the fragments of the
/// stiffness cube around it, followed by its seam partner when one exists.
pub open spec fn good_neighbors(
    frags: Seq<ClothSegmentFrag>,
    nbr: Seq<usize>,
    o: int,
    k: int,
) -> bool {
    &&& forall|j: int| 0 <= j < nbr.len() ==> (#[trigger] nbr[j]) < frags.len()
    &&& forall|p: int|
        0 <= p < frags.len() && in_cube(frags[o].index, (#[trigger] frags[p]).index, k)
            ==> nbr.contains(p as usize)
    &&& match seam_partner(frags, o) {
        Some(pt) => nbr.len() >= 1 && nbr[nbr.len() - 1] == pt && forall|j: int|
            0 <= j < nbr.len() - 1 ==> in_cube(
                frags[o].index,
                frags[(#[trigger] nbr[j]) as int].index,
                k,
            ),
        None => forall|j: int|
            0 <= j < nbr.len() ==> in_cube(frags[o].index, frags[(#[trigger] nbr[j]) as int].index, k),
    }
}

/// Ordinals of every fragment whose index lies in the cube of half-edge
/// `stiffness` around ordinal `o`.
fn cube_ordinals(frags: &Vec<ClothSegmentFrag>, o: usize, stiffness: u32) -> (r: Vec<usize>)
    requires
        o < frags@.len(),
        frags@[o as int].index.bounded(),
        stiffness <= 100,
    ensures
        forall|j: int|
            0 <= j < r@.len() ==> (#[trigger] r@[j]) < frags@.len() && in_cube(
                frags@[o as int].index,
                frags@[r@[j] as int].index,
                stiffness as int,
            ),
        forall|p: int|
            0 <= p < frags@.len() && in_cube(
                frags@[o as int].index,
                (#[trigger] frags@[p]).index,
                stiffness as int,
            ) ==> r@.contains(p as usize),
{
    let center = frags[o].index;
    let (cube, _second) = center.get_neighbors(stiffness);
    let n = frags.len();
    let mut ret: Vec<usize> = Vec::new();
    let mut ci: usize = 0;
    while ci < cube.len()
        invariant
            n == frags@.len(),
            o < n,
            center == frags@[o as int].index,
            0 <= ci <= cube@.len(),
            forall|j: int|
                0 <= j < cube@.len() ==> in_cube(center, #[trigger] cube@[j], stiffness as int),
            forall|a: Index3| in_cube(center, a, stiffness as int) ==> #[trigger] cube@.contains(a),
            forall|j: int|
                0 <= j < ret@.len() ==> (#[trigger] ret@[j]) < n && in_cube(
                    center,
                    frags@[ret@[j] as int].index,
                    stiffness as int,
                ),
            forall|p: int, j: int|
                #![trigger frags@[p], cube@[j]]
                0 <= p < n && 0 <= j < ci && frags@[p].index == cube@[j] ==> ret@.contains(
                    p as usize,
                ),
        decreases cube@.len() - ci,
    {
        let target = cube[ci];
        let mut p: usize = 0;
        while p < n
            invariant
                n == frags@.len(),
                o < n,
                center == frags@[o as int].index,
                0 <= ci < cube@.len(),
                target == cube@[ci as int],
                0 <= p <= n,
                forall|j: int|
                    0 <= j < cube@.len() ==> in_cube(center, #[trigger] cube@[j], stiffness as int),
                forall|j: int|
                    0 <= j < ret@.len() ==> (#[trigger] ret@[j]) < n && in_cube(
                        center,
                        frags@[ret@[j] as int].index,
                        stiffness as int,
                    ),
                forall|pp: int, j: int|
                    #![trigger frags@[pp], cube@[j]]
                    0 <= pp < n && 0 <= j < ci && frags@[pp].index == cube@[j] ==> ret@.contains(
                        pp as usize,
                    ),
                forall|pp: int|
                    0 <= pp < p && (#[trigger] frags@[pp]).index == target ==> ret@.contains(
                        pp as usize,
                    ),
            decreases n - p,
        {
            if frags[p].index == target {
                let ghost prev = ret@;
                ret.push(p);
                proof {
                    assert(ret@[prev.len() as int] == p);
                    assert forall|x: usize| #[trigger] prev.contains(x) implies ret@.contains(
                        x,
                    ) by {
                        let j = choose|j: int| 0 <= j < prev.len() && prev[j] == x;
                        assert(ret@[j] == x);
                    }
                }
            }
            p = p + 1;
        }
        ci = ci + 1;
    }
    proof {
        assert forall|p: int|
            0 <= p < n && in_cube(center, (#[trigger] frags@[p]).index, stiffness as int)
            implies ret@.contains(p as usize) by {
            assert(cube@.contains(frags@[p].index));
            let j = choose|j: int| 0 <= j < cube@.len() && cube@[j] == frags@[p].index;
            assert(frags@[p].index == cube@[j]);
        }
    }
    ret
}

/// The full neighbor list of ordinal `o`: the stiffness cube, then the
/// seam partner when the fragment is linked.
pub fn link_neighbors(frags: &Vec<ClothSegmentFrag>, o: usize, stiffness: u32) -> (r: Vec<usize>)
    requires
        o < frags@.len(),
        frags@[o as int].index.bounded(),
        stiffness <= 100,
    ensures
        good_neighbors(frags@, r@, o as int, stiffness as int),
{
    let mut ret = cube_ordinals(frags, o, stiffness);
    match find_seam_partner(frags, o) {
        Some(p) => {
            let ghost prev = ret@;
            ret.push(p);
            proof {
                assert(ret@[prev.len() as int] == p);
                assert forall|x: usize| #[trigger] prev.contains(x) implies ret@.contains(x) by {
                    let j = choose|j: int| 0 <= j < prev.len() && prev[j] == x;
                    assert(ret@[j] == x);
                }
                assert(forall|j: int| 0 <= j < prev.len() ==> ret@[j] == prev[j]);
                crate::linker::lemma_partner_char(frags@, o as int, frags@.len() as int);
            }
        },
        None => {
        },
    }
    ret
}

} // verus!
// The resumable render job.

verus! {

/// Where a render stands.
pub enum RenderPhase {
    /// Sweeping sample columns.
    Columns {
        /// The sweep in progress.
        raster: RasterState,
    },
    /// Flood-filling connected pieces.
    Sections {
        /// The finished sweep.
        raster: RasterState,
        /// Which ordinals have been placed in a section or the piece.
        visited: Vec<bool>,
        /// The pieces found so far.
        sections: Vec<Vec<usize>>,
        /// Scan position for the next unvisited seed.
        scan: usize,
        /// The piece being flood-filled, seed first.
        piece: Vec<usize>,
        /// How many piece members have had their neighbors expanded.
        head: usize,
    },
    /// Filling neighborhoods and seam edges.
    Linking {
        /// The finished sweep.
        raster: RasterState,
        /// The pieces.
        sections: Vec<Vec<usize>>,
        /// Section index of every ordinal.
        section_of: Vec<usize>,
        /// The segments assembled so far.
        segments: Vec<ClothSegment>,
        /// Next ordinal to link.
        next: usize,
    },
    /// The cloth has been handed out.
    Finished,
}

/// The lattice indices of a fragment sequence.
pub open spec fn frag_indices(frags: Seq<ClothSegmentFrag>) -> Seq<Index3> {
    Seq::new(frags.len(), |o: int| frags[o].index)
}

/// A render in progress: the work phase, the integrator parameters the
/// finished cloth will carry, and the last progress value handed out.
pub struct RenderJob {
    /// The work phase.
    pub phase: RenderPhase,
    /// Downward acceleration per tick for the finished cloth.
    pub gravity: Fx,
    /// Velocity damping per tick for the finished cloth.
    pub drag: Fx,
    /// Spring strength for the finished cloth.
    pub strength: Fx,
    /// Seam strength for the finished cloth.
    pub seam_strength: Fx,
    /// Neighborhood half-edge.
    pub stiffness: u32,
    /// Last progress value handed out, in `[0, 1]`.
    pub last_progress: Fx,
}

impl RenderJob {
    /// The progress ceiling of the current phase: a third of the way
    /// through the sweep, two thirds through sectioning, one at the end.
    pub open spec fn progress_cap(self) -> int {
        match self.phase {
            RenderPhase::Columns { .. } => SCALE as int / 3,
            RenderPhase::Sections { .. } => 2 * (SCALE as int / 3),
            RenderPhase::Linking { .. } => SCALE as int,
            RenderPhase::Finished => SCALE as int,
        }
    }

    /// The job invariant, phase by phase.
    pub open spec fn wf(self) -> bool {
        &&& self.stiffness <= 100
    &&& 0 <= self.last_progress.raw <= self.progress_cap()
    &&& self.last_progress.raw <= SCALE
        &&& match self.phase {
            RenderPhase::Columns { raster } => raster.wf(),
            RenderPhase::Sections { raster, visited, sections, scan, piece, head } => {
                let n = raster.frags@.len() as int;
                let fidx = frag_indices(raster.frags@);
                &&& raster.wf()
                &&& raster.done()
                &&& visited@.len() == n
                &&& count_false(visited@) >= 0
                &&& scan <= n
                &&& forall|o: int| 0 <= o < scan ==> visited@[o]
                &&& forall|s: int, k: int|
                    0 <= s < sections@.len() && 0 <= k < sections@[s]@.len() ==> (
                    #[trigger] sections@[s]@[k]) < n
                &&& head <= piece@.len()
                &&& forall|k: int|
                    0 <= k < piece@.len() ==> (#[trigger] piece@[k]) < n && visited@[piece@[k] as int]
                &&& forall|k1: int, k2: int|
                    0 <= k1 < k2 < piece@.len() ==> piece@[k1] != piece@[k2]
                &&& forall|k: int|
                    0 <= k < piece@.len() ==> connected(
                        fidx,
                        piece@[0] as int,
                        (#[trigger] piece@[k]) as int,
                    )
                &&& forall|o: int|
                    0 <= o < n ==> (visited@[o] <==> (exists|s: int, k: int|
                        0 <= s < sections@.len() && 0 <= k < sections@[s]@.len() && (
                        #[trigger] sections@[s]@[k]) == o) || piece@.contains(o as usize))
                &&& forall|s1: int, k1: int, s2: int, k2: int|
                    #![trigger sections@[s1]@[k1], sections@[s2]@[k2]]
                    0 <= s1 < sections@.len() && 0 <= k1 < sections@[s1]@.len() && 0 <= s2
                        < sections@.len() && 0 <= k2 < sections@[s2]@.len() && !(s1 == s2 && k1
                        == k2) ==> sections@[s1]@[k1] != sections@[s2]@[k2]
                &&& forall|s: int, k: int, pk: int|
                    #![trigger sections@[s]@[k], piece@[pk]]
                    0 <= s < sections@.len() && 0 <= k < sections@[s]@.len() && 0 <= pk
                        < piece@.len() ==> sections@[s]@[k] != piece@[pk]
                        && !crate::sections::adjacent(
                        fidx[sections@[s]@[k] as int],
                        fidx[piece@[pk] as int],
                    )
                &&& forall|s: int|
                    0 <= s < sections@.len() ==> (#[trigger] sections@[s]@.len()) >= 1
                &&& forall|s: int, k: int|
                    0 <= s < sections@.len() && 0 <= k < sections@[s]@.len() ==> connected(
                        fidx,
                        sections@[s]@[0] as int,
                        (#[trigger] sections@[s]@[k]) as int,
                    )
                &&& forall|s: int, k: int, o2: int|
                    #![trigger sections@[s]@[k], visited@[o2]]
                    0 <= s < sections@.len() && 0 <= k < sections@[s]@.len() && 0 <= o2 < n
                        && crate::sections::adjacent(
                        fidx[sections@[s]@[k] as int],
                        fidx[o2],
                    ) ==> visited@[o2]
                &&& forall|s1: int, k1: int, s2: int, k2: int|
                    #![trigger sections@[s1]@[k1], sections@[s2]@[k2]]
                    0 <= s1 < sections@.len() && 0 <= k1 < sections@[s1]@.len() && 0 <= s2
                        < sections@.len() && 0 <= k2 < sections@[s2]@.len()
                        && crate::sections::adjacent(
                        fidx[sections@[s1]@[k1] as int],
                        fidx[sections@[s2]@[k2] as int],
                    ) ==> s1 == s2
                &&& forall|pk: int, o2: int|
                    #![trigger piece@[pk], visited@[o2]]
                    0 <= pk < head && 0 <= o2 < n && crate::sections::adjacent(
                        fidx[piece@[pk] as int],
                        fidx[o2],
                    ) ==> visited@[o2]
            },
            RenderPhase::Linking { raster, sections, section_of, segments, next } => {
                let n = raster.frags@.len() as int;
                &&& raster.wf()
                &&& raster.done()
                &&& segments@.len() == n
                &&& next <= n
                &&& forall|o: int|
                    0 <= o < n ==> (#[trigger] segments@[o]).frag == raster.frags@[o]
                        && segments@[o].index == o
                &&& forall|o: int|
                    0 <= o < next ==> good_neighbors(
                        raster.frags@,
                        (#[trigger] segments@[o]).neighbor_index@,
                        o,
                        self.stiffness as int,
                    )
                &&& forall|o: int|
                    next <= o < n ==> (#[trigger] segments@[o]).neighbor_index@.len() == 0
                &&& section_of@.len() == n
                &&& forall|o: int| 0 <= o < n ==> (#[trigger] section_of@[o]) < sections@.len()
                &&& forall|s: int, k: int|
                    0 <= s < sections@.len() && 0 <= k < sections@[s]@.len() ==> (
                    #[trigger] sections@[s]@[k]) < n && section_of@[sections@[s]@[k] as int] == s
                &&& forall|o: int|
                    0 <= o < n ==> sections@[(#[trigger] section_of@[o]) as int]@.contains(
                        o as usize,
                    )
                &&& forall|s: int, k1: int, k2: int|
                    0 <= s < sections@.len() && 0 <= k1 < k2 < sections@[s]@.len()
                        ==> sections@[s]@[k1] != sections@[s]@[k2]
                &&& forall|s: int, k: int|
                    0 <= s < sections@.len() && 0 <= k < sections@[s]@.len() ==> connected(
                        frag_indices(raster.frags@),
                        sections@[s]@[0] as int,
                        (#[trigger] sections@[s]@[k]) as int,
                    )
                &&& forall|s1: int, k1: int, s2: int, k2: int|
                    #![trigger sections@[s1]@[k1], sections@[s2]@[k2]]
                    0 <= s1 < sections@.len() && 0 <= k1 < sections@[s1]@.len() && 0 <= s2
                        < sections@.len() && 0 <= k2 < sections@[s2]@.len()
                        && crate::sections::adjacent(
                        frag_indices(raster.frags@)[sections@[s1]@[k1] as int],
                        frag_indices(raster.frags@)[sections@[s2]@[k2] as int],
                    ) ==> s1 == s2
            },
            RenderPhase::Finished => true,
        }
    }

    /// The drafted lines this render sweeps.
    pub open spec fn lines(self) -> Seq<Line> {
        match self.phase {
            RenderPhase::Columns { raster } => raster.lines@,
            RenderPhase::Sections { raster, .. } => raster.lines@,
            RenderPhase::Linking { raster, .. } => raster.lines@,
            RenderPhase::Finished => Seq::empty(),
        }
    }

    /// The world scale of this render.
    pub open spec fn spec_scale(self) -> Fx {
        match self.phase {
            RenderPhase::Columns { raster } => raster.scale,
            RenderPhase::Sections { raster, .. } => raster.scale,
            RenderPhase::Linking { raster, .. } => raster.scale,
            RenderPhase::Finished => Fx { raw: 0 },
        }
    }

    /// The sampling step of this render.
    pub open spec fn spec_detail(self) -> Fx {
        match self.phase {
            RenderPhase::Columns { raster } => raster.detail,
            RenderPhase::Sections { raster, .. } => raster.detail,
            RenderPhase::Linking { raster, .. } => raster.detail,
            RenderPhase::Finished => Fx { raw: 0 },
        }
    }

    /// The fragments this render will put in its cloth.
    pub open spec fn target_frags(self) -> Seq<ClothSegmentFrag> {
        cols_frags(
            self.lines(),
            self.spec_scale(),
            self.spec_detail().raw as int,
            crate::raster::sweep_min(self.lines()),
            crate::raster::sweep_rows(self.lines(), self.spec_detail().raw as int),
            crate::raster::sweep_cols(self.lines(), self.spec_detail().raw as int),
        )
    }

    /// How much work is left, for termination: the phase rank and the work
    /// left inside the phase.
    pub open spec fn measure(self) -> (int, int) {
        match self.phase {
            RenderPhase::Columns { raster } => (3, raster.cols - raster.xs),
            RenderPhase::Sections { visited, piece, head, .. } => (
                2,
                4 * count_false(visited@) + 2 * (piece@.len() - head) + (if piece@.len() > 0 {
                    1int
                } else {
                    0int
                }),
            ),
            RenderPhase::Linking { raster, next, .. } => (1, raster.frags@.len() - next),
            RenderPhase::Finished => (0, 0),
        }
    }
}

} // verus!
// Starting and advancing a render.

verus! {

/// A progress value at least `lo` and, when `lo` allows, at most `cap`.
fn clamp_progress(raw: i64, lo: Fx, cap: i64) -> (r: Fx)
    requires
        0 <= lo.raw,
        0 <= cap,
    ensures
        r.raw >= lo.raw,
        r.raw <= (if lo.raw > cap {
            lo.raw
        } else {
            cap
        }),
{
    let capped = if raw > cap {
        cap
    } else {
        raw
    };
    if capped < lo.raw {
        Fx { raw: lo.raw }
    } else {
        Fx { raw: capped }
    }
}

/// A fraction of the way through one third of the render, in raw units
/// above `base`.
fn third_progress(base: i64, done: u64, total: u64) -> (r: i64)
    requires
        0 <= base <= SCALE,
    ensures
        r >= base,
{
    if total == 0 {
        base
    } else {
        proof {
            assert((done as int) * (SCALE as int) <= (u64::MAX as int) * (SCALE as int))
                by (nonlinear_arith)
                requires
                    0 <= done as int <= u64::MAX as int,
            ;
        }
        let q: u128 = (done as u128) * (SCALE as u128) / (3 * (total as u128));
        if q > SCALE as u128 {
            base + SCALE
        } else {
            base + q as i64
        }
    }
}

impl RenderJob {
    /// Begin rasterizing a draft into a cloth with the given sampling step,
    /// neighborhood stiffness and integrator parameters.
    pub fn new(
        draft: &Draft,
        scale: Fx,
        stiffness: u32,
        detail: Fx,
        gravity: Fx,
        drag: Fx,
        strength: Fx,
        seam_strength: Fx,
    ) -> (r: RenderJob)
        requires
            draft.wf(),
            1 <= detail.raw <= COORD_MAX / 2,
            0 <= scale.raw <= SCALE_MAX,
            stiffness <= 100,
        ensures
            r.wf(),
            r.last_progress.raw == 0,
            !(r.phase is Finished),
            r.lines() == draft.lines@,
            r.spec_scale() == scale,
            r.spec_detail() == detail,
            r.gravity == gravity && r.drag == drag && r.strength == strength && r.seam_strength
                == seam_strength && r.stiffness == stiffness,
    {
        RenderJob {
            phase: RenderPhase::Columns { raster: RasterState::new(draft, scale, detail) },
            gravity,
            drag,
            strength,
            seam_strength,
            stiffness,
            last_progress: Fx { raw: 0 },
        }
    }
}

} // verus!
// One slice of render work.

verus! {

/// A cloth rendered from the given lines and parameters: well-formed,
/// distinct lattice indices, flood-filled sections, exactly the swept
/// fragments, full neighborhoods with seam edges, and well-formed quads.
pub open spec fn rendered_from(
    c: Cloth,
    lines: Seq<Line>,
    scale: Fx,
    stiffness: u32,
    detail: Fx,
    gravity: Fx,
    drag: Fx,
    strength: Fx,
    seam_strength: Fx,
) -> bool {
    &&& c.wf()
    &&& c.distinct_indices()
    &&& crate::sections::sections_linked(c)
    &&& crate::sections::sections_maximal(c)
    &&& c.frags() == cols_frags(
        lines,
        scale,
        detail.raw as int,
        crate::raster::sweep_min(lines),
        crate::raster::sweep_rows(lines, detail.raw as int),
        crate::raster::sweep_cols(lines, detail.raw as int),
    )
    &&& forall|o: int|
        0 <= o < c.segments@.len() ==> good_neighbors(
            c.frags(),
            (#[trigger] c.segments@[o]).neighbor_index@,
            o,
            stiffness as int,
        )
    &&& c.quads@ == crate::quads::quads_spec(c)
    &&& forall|qi: int| 0 <= qi < c.quads@.len() ==> quad_wf(c, #[trigger] c.quads@[qi])
    &&& c.scale == scale
    &&& c.gravity == gravity
    &&& c.drag == drag
    &&& c.strength == strength
    &&& c.seam_strength == seam_strength
    &&& c.stiffness == stiffness
}

impl RenderJob {
    /// What the finished cloth promises: well-formed, distinct lattice
    /// indices, flood-filled sections, exactly the swept fragments, full
    /// neighborhoods with seam edges, well-formed quads, and the job's
    /// tuning parameters.
    pub open spec fn cloth_done(self, c: Cloth) -> bool {
        rendered_from(
            c,
            self.lines(),
            self.spec_scale(),
            self.stiffness,
            self.spec_detail(),
            self.gravity,
            self.drag,
            self.strength,
            self.seam_strength,
        )
    }

    /// Perform one bounded slice of render work: one sample column, one
    /// flood-fill expansion step, or one linked neighborhood, so a caller
    /// can poll for cancellation between slices. Progress never decreases,
    /// stays inside its phase band, and never exceeds one; the finished
    /// cloth arrives with progress exactly one.
    #[verifier::rlimit(100)]
    #[verifier::spinoff_prover]
    pub fn advance(self) -> (r: (RenderJob, Option<Cloth>))
        requires
            self.wf(),
            !(self.phase is Finished),
        ensures
            r.0.wf(),
            r.0.last_progress.raw >= self.last_progress.raw,
            r.0.last_progress.raw <= r.0.progress_cap(),
            r.0.phase is Columns ==> r.0.last_progress.raw <= SCALE / 3,
            r.0.phase is Sections ==> r.0.last_progress.raw <= 2 * (SCALE / 3),
            r.0.gravity == self.gravity && r.0.drag == self.drag && r.0.strength == self.strength
                && r.0.seam_strength == self.seam_strength && r.0.stiffness == self.stiffness,
            r.1 is None ==> !(r.0.phase is Finished) && r.0.lines() == self.lines()
                && r.0.spec_scale() == self.spec_scale() && r.0.spec_detail() == self.spec_detail()
                && (r.0.measure().0 < self.measure().0 || (r.0.measure().0 == self.measure().0
                && r.0.measure().1 < self.measure().1)),
            r.1 matches Some(c) ==> r.0.phase is Finished && r.0.last_progress.raw == SCALE
                && self.cloth_done(c),
    {
        let RenderJob { phase, gravity, drag, strength, seam_strength, stiffness, last_progress } =
            self;
        match phase {
            RenderPhase::Columns { mut raster } => {
                if raster.xs < raster.cols {
                    raster.column();
                    let p = third_progress(0, raster.xs as u64, raster.cols as u64);
                    let lp = clamp_progress(p, last_progress, SCALE / 3);
                    (
                        RenderJob {
                            phase: RenderPhase::Columns { raster },
                            gravity,
                            drag,
                            strength,
                            seam_strength,
                            stiffness,
                            last_progress: lp,
                        },
                        None,
                    )
                } else {
                    let n = raster.frags.len();
                    let mut visited: Vec<bool> = Vec::new();
                    let mut i: usize = 0;
                    while i < n
                        invariant
                            0 <= i <= n,
                            visited@.len() == i,
                            forall|o: int| 0 <= o < i ==> !visited@[o],
                        decreases n - i,
                    {
                        visited.push(false);
                        i = i + 1;
                    }
                    proof {
                        crate::sections::lemma_count_false_nonneg(visited@);
                    }
                    let lp = clamp_progress(SCALE / 3, last_progress, SCALE / 3);
                    (
                        RenderJob {
                            phase: RenderPhase::Sections {
                                raster,
                                visited,
                                sections: Vec::new(),
                                scan: 0,
                                piece: Vec::new(),
                                head: 0,
                            },
                            gravity,
                            drag,
                            strength,
                            seam_strength,
                            stiffness,
                            last_progress: lp,
                        },
                        None,
                    )
                }
            },
            RenderPhase::Sections { raster, mut visited, mut sections, mut scan, mut piece, mut head } => {
                let n = raster.frags.len();
                proof {
                    crate::raster::lemma_cols_members(
                        raster.lines@,
                        raster.scale,
                        raster.detail.raw as int,
                        raster.min_b,
                        raster.rows as int,
                        raster.cols as int,
                    );
                }
                let ghost fidx = frag_indices(raster.frags@);
                if head < piece.len() {
                    // Expand the neighbors of one piece member, then yield,
                    // so a cancellation is observable between expansions.
                    let mut idxs: Vec<Index3> = Vec::new();
                    let mut i: usize = 0;
                    while i < n
                        invariant
                            n == raster.frags@.len(),
                            0 <= i <= n,
                            idxs@.len() == i,
                            forall|p: int| 0 <= p < i ==> idxs@[p] == raster.frags@[p].index,
                            forall|p: int|
                                0 <= p < n ==> (#[trigger] raster.frags@[p]).index.bounded(),
                        decreases n - i,
                    {
                        idxs.push(raster.frags[i].index);
                        i = i + 1;
                    }
                    proof {
                        assert(idxs@ =~= fidx);
                    }
                    let ghost vis0 = visited@;
                    let ghost piece0 = piece@;
                    discover_step(&idxs, &mut visited, &mut piece, head);
                    head = head + 1;
                    proof {
                        crate::sections::lemma_count_false_nonneg(visited@);
                        assert forall|sx: int, kx: int, pk: int|
                            #![trigger sections@[sx]@[kx], piece@[pk]]
                            0 <= sx < sections@.len() && 0 <= kx < sections@[sx]@.len() && 0 <= pk
                                < piece@.len() implies sections@[sx]@[kx] != piece@[pk]
                            && !crate::sections::adjacent(
                            fidx[sections@[sx]@[kx] as int],
                            fidx[piece@[pk] as int],
                        ) by {
                            if pk < piece0.len() {
                                assert(piece@[pk] == piece0[pk]);
                            } else {
                                let v = piece@[pk];
                                assert(!vis0[v as int]);
                                assert(vis0[sections@[sx]@[kx] as int]);
                                if crate::sections::adjacent(
                                    fidx[sections@[sx]@[kx] as int],
                                    fidx[v as int],
                                ) {
                                    assert(vis0[v as int]);
                                    assert(false);
                                }
                                if sections@[sx]@[kx] == v {
                                    assert(vis0[v as int]);
                                    assert(false);
                                }
                            }
                        }
                        assert forall|o: int| 0 <= o < n implies (visited@[o] <==> (exists|
                            s: int,
                            k: int,
                        |
                            0 <= s < sections@.len() && 0 <= k < sections@[s]@.len() && (
                            #[trigger] sections@[s]@[k]) == o) || piece@.contains(o as usize)) by {
                            if visited@[o] {
                                if vis0[o] {
                                    if piece0.contains(o as usize) {
                                        let k = choose|k: int|
                                            0 <= k < piece0.len() && piece0[k] == o as usize;
                                        assert(piece@[k] == o as usize);
                                        assert(piece@.contains(o as usize));
                                    }
                                } else {
                                    let k = choose|k: int|
                                        piece0.len() <= k < piece@.len() && (#[trigger] piece@[k])
                                            == o as usize;
                                    assert(piece@.contains(o as usize));
                                }
                            }
                            if piece@.contains(o as usize) {
                                let k = choose|k: int|
                                    0 <= k < piece@.len() && piece@[k] == o as usize;
                                if k < piece0.len() {
                                    assert(piece0[k] == o as usize);
                                    assert(piece0.contains(o as usize));
                                    assert(vis0[o]);
                                }
                                assert(visited@[piece@[k] as int]);
                            }
                            if exists|s: int, k: int|
                                0 <= s < sections@.len() && 0 <= k < sections@[s]@.len() && (
                                #[trigger] sections@[s]@[k]) == o {
                                assert(vis0[o]);
                            }
                        }
                        assert forall|pk: int, o2: int|
                            #![trigger piece@[pk], visited@[o2]]
                            0 <= pk < head && 0 <= o2 < n && crate::sections::adjacent(
                                fidx[piece@[pk] as int],
                                fidx[o2],
                            ) implies visited@[o2] by {
                            if pk < head - 1 {
                                assert(piece@[pk] == piece0[pk]);
                                assert(vis0[o2]);
                            } else {
                                assert(piece@[pk] == piece0[pk]);
                            }
                        }
                    }
                } else if piece.len() > 0 {
                    // The piece is fully expanded: it becomes a section.
                    let ghost secs0 = sections@;
                    let ghost finished = piece@;
                    sections.push(piece);
                    piece = Vec::new();
                    head = 0;
                    proof {
                        assert(sections@[secs0.len() as int]@ == finished);
                        assert(forall|sx: int|
                            0 <= sx < secs0.len() ==> sections@[sx] == secs0[sx]);
                        assert forall|o: int| 0 <= o < n implies (visited@[o] <==> (exists|
                            s: int,
                            k: int,
                        |
                            0 <= s < sections@.len() && 0 <= k < sections@[s]@.len() && (
                            #[trigger] sections@[s]@[k]) == o) || piece@.contains(o as usize)) by {
                            if visited@[o] {
                                if finished.contains(o as usize) {
                                    let k = choose|k: int|
                                        0 <= k < finished.len() && finished[k] == o as usize;
                                    assert(sections@[secs0.len() as int]@[k] == o);
                                } else {
                                    let (sx, kx) = choose|sx: int, kx: int|
                                        0 <= sx < secs0.len() && 0 <= kx < secs0[sx]@.len() && (
                                        #[trigger] secs0[sx]@[kx]) == o;
                                    assert(sections@[sx]@[kx] == o);
                                }
                            }
                            if exists|s: int, k: int|
                                0 <= s < sections@.len() && 0 <= k < sections@[s]@.len() && (
                                #[trigger] sections@[s]@[k]) == o {
                                let (sx, kx) = choose|sx: int, kx: int|
                                    0 <= sx < sections@.len() && 0 <= kx < sections@[sx]@.len()
                                        && (#[trigger] sections@[sx]@[kx]) == o;
                                if sx < secs0.len() {
                                    assert(secs0[sx]@[kx] == o);
                                } else {
                                    assert(finished[kx] == o as usize);
                                    assert(visited@[finished[kx] as int]);
                                }
                            }
                        }
                        assert forall|s1: int, k1: int, s2: int, k2: int|
                            #![trigger sections@[s1]@[k1], sections@[s2]@[k2]]
                            0 <= s1 < sections@.len() && 0 <= k1 < sections@[s1]@.len() && 0 <= s2
                                < sections@.len() && 0 <= k2 < sections@[s2]@.len() && !(s1 == s2
                                && k1 == k2) implies sections@[s1]@[k1] != sections@[s2]@[k2] by {
                            if s1 < secs0.len() && s2 < secs0.len() {
                                assert(secs0[s1]@[k1] == sections@[s1]@[k1]);
                                assert(secs0[s2]@[k2] == sections@[s2]@[k2]);
                            } else if s1 >= secs0.len() && s2 >= secs0.len() {
                                assert(finished[k1] == sections@[s1]@[k1]);
                                assert(finished[k2] == sections@[s2]@[k2]);
                            } else if s1 < secs0.len() {
                                assert(secs0[s1]@[k1] == sections@[s1]@[k1]);
                                assert(finished[k2] == sections@[s2]@[k2]);
                            } else {
                                assert(secs0[s2]@[k2] == sections@[s2]@[k2]);
                                assert(finished[k1] == sections@[s1]@[k1]);
                            }
                        }
                        assert forall|s: int, k: int, o2: int|
                            #![trigger sections@[s]@[k], visited@[o2]]
                            0 <= s < sections@.len() && 0 <= k < sections@[s]@.len() && 0 <= o2 < n
                                && crate::sections::adjacent(
                                fidx[sections@[s]@[k] as int],
                                fidx[o2],
                            ) implies visited@[o2] by {
                            if s < secs0.len() {
                                assert(secs0[s]@[k] == sections@[s]@[k]);
                            } else {
                                assert(finished[k] == sections@[s]@[k]);
                            }
                        }
                        assert forall|s1: int, k1: int, s2: int, k2: int|
                            #![trigger sections@[s1]@[k1], sections@[s2]@[k2]]
                            0 <= s1 < sections@.len() && 0 <= k1 < sections@[s1]@.len() && 0 <= s2
                                < sections@.len() && 0 <= k2 < sections@[s2]@.len()
                                && crate::sections::adjacent(
                                fidx[sections@[s1]@[k1] as int],
                                fidx[sections@[s2]@[k2] as int],
                            ) implies s1 == s2 by {
                            if s1 < secs0.len() && s2 < secs0.len() {
                                assert(secs0[s1]@[k1] == sections@[s1]@[k1]);
                                assert(secs0[s2]@[k2] == sections@[s2]@[k2]);
                            } else if s1 >= secs0.len() && s2 >= secs0.len() {
                            } else if s1 < secs0.len() {
                                assert(secs0[s1]@[k1] == sections@[s1]@[k1]);
                                assert(finished[k2] == sections@[s2]@[k2]);
                                assert(false);
                            } else {
                                assert(secs0[s2]@[k2] == sections@[s2]@[k2]);
                                assert(finished[k1] == sections@[s1]@[k1]);
                                assert(crate::sections::adjacent(
                                    fidx[sections@[s2]@[k2] as int],
                                    fidx[sections@[s1]@[k1] as int],
                                ));
                                assert(false);
                            }
                        }
                    }
                } else {
                    // Look for the next unvisited seed.
                    while scan < n && visited[scan]
                        invariant
                            n == raster.frags@.len(),
                            visited@.len() == n,
                            scan <= n,
                            forall|o: int| 0 <= o < scan ==> visited@[o],
                        decreases n - scan,
                    {
                        scan = scan + 1;
                    }
                    if scan == n {
                    // Every ordinal is in a section: assemble the section map
                    // and the bare segments, then move on to linking.
                    let mut section_of: Vec<usize> = Vec::new();
                    let mut i: usize = 0;
                    while i < n
                        invariant
                            0 <= i <= n,
                            section_of@.len() == i,
                        decreases n - i,
                    {
                        section_of.push(0);
                        i = i + 1;
                    }
                    let ns = sections.len();
                    let mut s: usize = 0;
                    while s < ns
                        invariant
                            self.wf(),
                            ns == sections@.len(),
                            0 <= s <= ns,
                            n == raster.frags@.len(),
                            section_of@.len() == n,
                            forall|s1: int, k1: int|
                                0 <= s1 < sections@.len() && 0 <= k1 < sections@[s1]@.len() ==> (
                                #[trigger] sections@[s1]@[k1]) < n,
                            forall|s1: int, k1: int, s2: int, k2: int|
                                #![trigger sections@[s1]@[k1], sections@[s2]@[k2]]
                                0 <= s1 < sections@.len() && 0 <= k1 < sections@[s1]@.len() && 0
                                    <= s2 < sections@.len() && 0 <= k2 < sections@[s2]@.len() && !(
                                s1 == s2 && k1 == k2) ==> sections@[s1]@[k1] != sections@[s2]@[k2],
                            forall|s1: int, k1: int|
                                #![trigger sections@[s1]@[k1]]
                                0 <= s1 < s && 0 <= k1 < sections@[s1]@.len()
                                    ==> section_of@[sections@[s1]@[k1] as int] == s1,
                        decreases ns - s,
                    {
                        let m = sections[s].len();
                        let mut k: usize = 0;
                        while k < m
                            invariant
                                self.wf(),
                                ns == sections@.len(),
                                0 <= s < ns,
                                m == sections@[s as int]@.len(),
                                0 <= k <= m,
                                n == raster.frags@.len(),
                                section_of@.len() == n,
                                forall|s1: int, k1: int|
                                    0 <= s1 < sections@.len() && 0 <= k1 < sections@[s1]@.len()
                                        ==> (#[trigger] sections@[s1]@[k1]) < n,
                                forall|s1: int, k1: int, s2: int, k2: int|
                                    #![trigger sections@[s1]@[k1], sections@[s2]@[k2]]
                                    0 <= s1 < sections@.len() && 0 <= k1 < sections@[s1]@.len() && 0
                                        <= s2 < sections@.len() && 0 <= k2 < sections@[s2]@.len()
                                        && !(s1 == s2 && k1 == k2) ==> sections@[s1]@[k1]
                                        != sections@[s2]@[k2],
                                forall|s1: int, k1: int|
                                    #![trigger sections@[s1]@[k1]]
                                    (0 <= s1 < s && 0 <= k1 < sections@[s1]@.len()) || (s1 == s && 0
                                        <= k1 < k) ==> section_of@[sections@[s1]@[k1] as int] == s1,
                            decreases m - k,
                        {
                            let o = sections[s][k];
                            section_of.set(o, s);
                            k = k + 1;
                        }
                        s = s + 1;
                    }
                    let mut segments: Vec<ClothSegment> = Vec::new();
                    let mut o: usize = 0;
                    while o < n
                        invariant
                            n == raster.frags@.len(),
                            0 <= o <= n,
                            segments@.len() == o,
                            forall|p: int|
                                0 <= p < o ==> (#[trigger] segments@[p]).frag == raster.frags@[p]
                                    && segments@[p].index == p
                                    && segments@[p].neighbor_index@.len() == 0,
                        decreases n - o,
                    {
                        segments.push(
                            ClothSegment {
                                frag: raster.frags[o],
                                neighbor_index: Vec::new(),
                                index: o,
                            },
                        );
                        o = o + 1;
                    }
                    proof {
                        assert forall|o: int| 0 <= o < n implies (#[trigger] section_of@[o])
                            < sections@.len() && sections@[section_of@[o] as int]@.contains(
                            o as usize,
                        ) by {
                            assert(visited@[o]);
                            let (si, ki) = choose|si: int, ki: int|
                                0 <= si < sections@.len() && 0 <= ki < sections@[si]@.len() && (
                                #[trigger] sections@[si]@[ki]) == o;
                            assert(section_of@[sections@[si]@[ki] as int] == si);
                            assert(section_of@[o] == si);
                            assert(sections@[si]@[ki] == o as usize);
                            assert(sections@[si]@.contains(o as usize));
                        }
                    }
                    let lp = clamp_progress(2 * (SCALE / 3), last_progress, 2 * (SCALE / 3));
                    return (
                        RenderJob {
                            phase: RenderPhase::Linking {
                                raster,
                                sections,
                                section_of,
                                segments,
                                next: 0,
                            },
                            gravity,
                            drag,
                            strength,
                            seam_strength,
                            stiffness,
                            last_progress: lp,
                        },
                        None,
                    );
                    } else {
                        // Seed a new piece at the first unvisited ordinal.
                        let seed = scan;
                        let ghost vis0 = visited@;
                        visited.set(seed, true);
                        piece.push(seed);
                        head = 0;
                        scan = scan + 1;
                        proof {
                            crate::sections::lemma_count_false_update(vis0, seed as int);
                            crate::sections::lemma_count_false_nonneg(visited@);
                            crate::sections::lemma_connected_refl(fidx, seed as int);
                            assert(piece@.len() == 1 && piece@[0] == seed);
                            assert forall|o: int| 0 <= o < n implies (visited@[o] <==> (exists|
                                s: int,
                                k: int,
                            |
                                0 <= s < sections@.len() && 0 <= k < sections@[s]@.len() && (
                                #[trigger] sections@[s]@[k]) == o) || piece@.contains(
                                o as usize,
                            )) by {
                                if o == seed as int {
                                    assert(piece@[0] == o as usize);
                                    assert(piece@.contains(o as usize));
                                }
                                if piece@.contains(o as usize) {
                                    let k = choose|k: int|
                                        0 <= k < piece@.len() && piece@[k] == o as usize;
                                    assert(k == 0);
                                }
                            }
                            assert forall|sx: int, kx: int, pk: int|
                                #![trigger sections@[sx]@[kx], piece@[pk]]
                                0 <= sx < sections@.len() && 0 <= kx < sections@[sx]@.len() && 0
                                    <= pk < piece@.len() implies sections@[sx]@[kx] != piece@[pk]
                                && !crate::sections::adjacent(
                                fidx[sections@[sx]@[kx] as int],
                                fidx[piece@[pk] as int],
                            ) by {
                                assert(piece@[pk] == seed);
                                assert(!vis0[seed as int]);
                                if sections@[sx]@[kx] == seed {
                                    assert(vis0[seed as int]);
                                    assert(false);
                                }
                                if crate::sections::adjacent(
                                    fidx[sections@[sx]@[kx] as int],
                                    fidx[seed as int],
                                ) {
                                    assert(vis0[seed as int]);
                                    assert(false);
                                }
                            }
                        }
                    }
                }
                let mut cnt: usize = 0;
                let mut i2: usize = 0;
                while i2 < n
                    invariant
                        visited@.len() == n,
                        0 <= i2 <= n,
                        cnt <= i2,
                    decreases n - i2,
                {
                    if visited[i2] {
                        cnt = cnt + 1;
                    }
                    i2 = i2 + 1;
                }
                let p = third_progress(SCALE / 3, cnt as u64, n as u64);
                let lp = clamp_progress(p, last_progress, 2 * (SCALE / 3));
                (
                    RenderJob {
                        phase: RenderPhase::Sections { raster, visited, sections, scan, piece, head },
                        gravity,
                        drag,
                        strength,
                        seam_strength,
                        stiffness,
                        last_progress: lp,
                    },
                    None,
                )
            },
            RenderPhase::Linking { raster, sections, section_of, mut segments, next } => {
                let n = raster.frags.len();
                proof {
                    crate::raster::lemma_cols_members(
                        raster.lines@,
                        raster.scale,
                        raster.detail.raw as int,
                        raster.min_b,
                        raster.rows as int,
                        raster.cols as int,
                    );
                }
                if next < n {
                    let nb = link_neighbors(&raster.frags, next, stiffness);
                    let frag = raster.frags[next];
                    segments.set(next, ClothSegment { frag, neighbor_index: nb, index: next });
                    let p = third_progress(2 * (SCALE / 3), next as u64 + 1, n as u64);
                    let lp = clamp_progress(p, last_progress, SCALE);
                    (
                        RenderJob {
                            phase: RenderPhase::Linking {
                                raster,
                                sections,
                                section_of,
                                segments,
                                next: next + 1,
                            },
                            gravity,
                            drag,
                            strength,
                            seam_strength,
                            stiffness,
                            last_progress: lp,
                        },
                        None,
                    )
                } else {
                    proof {
                        crate::raster::lemma_frags_distinct(
                            raster.lines@,
                            raster.scale,
                            raster.detail.raw as int,
                            raster.min_b,
                            raster.rows as int,
                            raster.cols as int,
                        );
                    }
                    let mut c = Cloth {
                        segments,
                        sections,
                        section_of,
                        scale: raster.scale,
                        gravity,
                        drag,
                        strength,
                        seam_strength,
                        stiffness,
                        quads: Vec::new(),
                    };
                    proof {
                        assert forall|o: int| 0 <= o < c.segments@.len() implies (
                        #[trigger] c.segments@[o]).frag.index.bounded() by {
                            assert(c.segments@[o].frag == raster.frags@[o]);
                            assert(raster.frags@[o] == cols_frags(
                                raster.lines@,
                                raster.scale,
                                raster.detail.raw as int,
                                raster.min_b,
                                raster.rows as int,
                                raster.cols as int,
                            )[o]);
                        }
                        assert forall|o: int| 0 <= o < c.segments@.len() implies (
                        #[trigger] c.segments@[o]).frag.index.y == 0 by {
                            assert(c.segments@[o].frag == raster.frags@[o]);
                            assert(raster.frags@[o] == cols_frags(
                                raster.lines@,
                                raster.scale,
                                raster.detail.raw as int,
                                raster.min_b,
                                raster.rows as int,
                                raster.cols as int,
                            )[o]);
                        }
                        assert(c.wf());
                        assert(c.distinct_indices());
                        assert(c.indices() =~= frag_indices(raster.frags@));
                        assert(crate::sections::sections_linked(c));
                        assert(c.frags() =~= raster.frags@);
                    }
                    let quads = c.extract_quads();
                    let ghost c0 = c;
                    let c2 = Cloth {
                        segments: c.segments,
                        sections: c.sections,
                        section_of: c.section_of,
                        scale: c.scale,
                        gravity: c.gravity,
                        drag: c.drag,
                        strength: c.strength,
                        seam_strength: c.seam_strength,
                        stiffness: c.stiffness,
                        quads,
                    };
                    proof {
                        assert(c2.segments@ == c0.segments@);
                        assert(c2.sections@ == c0.sections@);
                        assert(c2.section_of@ == c0.section_of@);
                        assert(c2.wf());
                        assert(c2.frags() =~= raster.frags@);
                        assert(c2.indices() =~= frag_indices(raster.frags@));
                        assert(crate::sections::sections_linked(c2));
                        crate::quads::lemma_quads_spec_segments(c0, c2);
                        assert(c2.quads@ == crate::quads::quads_spec(c2));
                        assert forall|qi: int| 0 <= qi < c2.quads@.len() implies quad_wf(
                            c2,
                            #[trigger] c2.quads@[qi],
                        ) by {
                            assert(quad_wf(c0, c2.quads@[qi]));
                            let (x0, z0) = choose|x0: int, z0: int|
                                crate::quads::quad_in_cell(c0, c2.quads@[qi], x0, z0);
                            assert(crate::quads::quad_in_cell(c2, c2.quads@[qi], x0, z0));
                        }
                    }
                    (
                        RenderJob {
                            phase: RenderPhase::Finished,
                            gravity,
                            drag,
                            strength,
                            seam_strength,
                            stiffness,
                            last_progress: Fx { raw: SCALE },
                        },
                        Some(c2),
                    )
                }
            },
            RenderPhase::Finished => {
                proof {
                    assert(false);
                }
                (
                    RenderJob {
                        phase: RenderPhase::Finished,
                        gravity,
                        drag,
                        strength,
                        seam_strength,
                        stiffness,
                        last_progress,
                    },
                    None,
                )
            },
        }
    }
}

} // verus!
// Rendering a draft in one call.

verus! {

impl Cloth {
    /// Rasterize a draft into a settled-out cloth in one call: sweep the
    /// columns, flood-fill the sections, link the neighborhoods and seams,
    /// extract the quads. Always yields a cloth; a caller that needs
    /// cancellation between work slices drives a [`RenderJob`] instead.
    pub fn generate_from_draft(
        draft: &Draft,
        scale: Fx,
        stiffness: u32,
        detail: Fx,
        gravity: Fx,
        drag: Fx,
        strength: Fx,
        seam_strength: Fx,
    ) -> (r: Option<Cloth>)
        requires
            draft.wf(),
            1 <= detail.raw <= COORD_MAX / 2,
            0 <= scale.raw <= SCALE_MAX,
            stiffness <= 100,
        ensures
            r is Some,
            r matches Some(c) ==> rendered_from(
                c,
                draft.lines@,
                scale,
                stiffness,
                detail,
                gravity,
                drag,
                strength,
                seam_strength,
            ),
    {
        let mut job = RenderJob::new(
            draft,
            scale,
            stiffness,
            detail,
            gravity,
            drag,
            strength,
            seam_strength,
        );
        loop
            invariant
                job.wf(),
                !(job.phase is Finished),
                job.lines() == draft.lines@,
                job.spec_scale() == scale,
                job.spec_detail() == detail,
                job.gravity == gravity && job.drag == drag && job.strength == strength
                    && job.seam_strength == seam_strength && job.stiffness == stiffness,
            decreases job.measure().0, job.measure().1,
        {
            let (j2, done) = job.advance();
            match done {
                Some(c) => {
                    return Some(c);
                },
                None => {
                    job = j2;
                },
            }
        }
    }
}

} // verus!
