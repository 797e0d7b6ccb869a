//! The simulated cloth: rasterized particle fragments, their neighborhoods,
//! per-piece sections and wireframe quads.

use vstd::prelude::*;

use crate::fixed::Fx;
use crate::geom::Index3;
use crate::geom::Vec3;
use crate::geom::in_cube;

verus! {

/// One rasterized particle of the cloth.
#[derive(Clone, Copy, Debug)]
pub struct ClothSegmentFrag {
    /// Grid coordinate of the sample (the y component is zero after
    /// rasterization).
    pub index: Index3,
    /// Current world position.
    pub position: Vec3,
    /// Current velocity.
    pub velocity: Vec3,
    /// Immovable: inherited from a covering pinned line.
    pub pinned: bool,
    /// Pulled toward the common rigid height plane.
    pub rigid: bool,
    /// Parametric position along the covering link line, in `[0, 1]`.
    pub link_vector: Option<Fx>,
    /// Seam id of the covering link line.
    pub link_number: Option<u32>,
    /// Identity of the covering line, to avoid self-pairing.
    pub line_id: usize,
}

/// A fragment together with its neighborhood and its ordinal.
#[derive(Clone, Debug)]
pub struct ClothSegment {
    /// The particle itself.
    pub frag: ClothSegmentFrag,
    /// Ordinals of the neighbouring fragments (including this one).
    pub neighbor_index: Vec<usize>,
    /// This fragment's ordinal: its position in the fragment array.
    pub index: usize,
}

/// Four ordinals forming one unit lattice cell, for wireframe drawing.
#[derive(Clone, Copy, Debug)]
pub struct Quad {
    /// The four member ordinals, in discovery order.
    pub corners: [usize; 4],
}

/// The whole simulated cloth.
#[derive(Clone, Debug)]
pub struct Cloth {
    /// The fragments; a fragment's ordinal is its position here.
    pub segments: Vec<ClothSegment>,
    /// The connected pieces, as lists of ordinals.
    pub sections: Vec<Vec<usize>>,
    /// For each ordinal, the index of the section holding it.
    pub section_of: Vec<usize>,
    /// Lattice-to-world factor.
    pub scale: Fx,
    /// Downward acceleration per tick.
    pub gravity: Fx,
    /// Multiplicative velocity damping per tick.
    pub drag: Fx,
    /// Spring restoring strength.
    pub strength: Fx,
    /// Restoring strength across seams and for pinned fragments.
    pub seam_strength: Fx,
    /// Half-edge of the neighborhood cube.
    pub stiffness: u32,
    /// Wireframe faces.
    pub quads: Vec<Quad>,
}

/// Largest admitted raw world scale.
pub const SCALE_MAX: i64 = 1_000_000_000;

impl Cloth {
    /// Structural well-formedness: ordinals match positions, neighbor lists
    /// and sections stay in range, and the sections with the `section_of`
    /// map form a partition of the ordinals.
    pub open spec fn wf(self) -> bool {
        let n = self.segments@.len() as int;
        &&& forall|o: int| 0 <= o < n ==> (#[trigger] self.segments@[o]).index == o
        &&& forall|o: int| 0 <= o < n ==> (#[trigger] self.segments@[o]).frag.index.bounded()
        &&& forall|o: int, j: int|
            0 <= o < n && 0 <= j < self.segments@[o].neighbor_index@.len() ==> (
            #[trigger] self.segments@[o].neighbor_index@[j]) < n
        &&& self.section_of@.len() == n
        &&& forall|o: int|
            0 <= o < n ==> (#[trigger] self.section_of@[o]) < self.sections@.len()
        &&& forall|s: int, k: int|
            0 <= s < self.sections@.len() && 0 <= k < self.sections@[s]@.len() ==> (
            #[trigger] self.sections@[s]@[k]) < n && self.section_of@[self.sections@[s]@[k] as int]
                == s
        &&& forall|o: int|
            0 <= o < n ==> self.sections@[self.section_of@[o] as int]@.contains(o as usize)
        &&& forall|s: int, k1: int, k2: int|
            0 <= s < self.sections@.len() && 0 <= k1 < k2 < self.sections@[s]@.len()
                ==> self.sections@[s]@[k1] != self.sections@[s]@[k2]
        &&& 0 <= self.scale.raw <= SCALE_MAX
    }

    /// No two fragments share a lattice index.
    pub open spec fn distinct_indices(self) -> bool {
        forall|o1: int, o2: int|
            0 <= o1 < o2 < self.segments@.len() ==> (#[trigger] self.segments@[o1].frag.index) != (
            #[trigger] self.segments@[o2].frag.index)
    }

    /// The inert cloth shown before anything has been rendered.
    pub fn generate_from_none() -> (r: Cloth)
        ensures
            r.segments@.len() == 0,
            r.sections@.len() == 0,
            r.section_of@.len() == 0,
            r.quads@.len() == 0,
            r.scale.raw == 0,
            r.gravity.raw == 0,
            r.drag.raw == 0,
            r.strength.raw == 0,
            r.seam_strength.raw == 0,
            r.stiffness == 0,
            r.wf(),
    {
        Cloth {
            segments: Vec::new(),
            sections: Vec::new(),
            section_of: Vec::new(),
            scale: Fx { raw: 0 },
            gravity: Fx { raw: 0 },
            drag: Fx { raw: 0 },
            strength: Fx { raw: 0 },
            seam_strength: Fx { raw: 0 },
            stiffness: 0,
            quads: Vec::new(),
        }
    }

    /// Ordinal of the fragment at a lattice index, scanning in order.
    pub fn find_ordinal(&self, index: Index3) -> (r: Option<usize>)
        ensures
            match r {
                Some(o) => o < self.segments@.len() && self.segments@[o as int].frag.index == index,
                None => forall|o: int|
                    0 <= o < self.segments@.len() ==> (#[trigger] self.segments@[o]).frag.index
                        != index,
            },
    {
        let n = self.segments.len();
        let mut o: usize = 0;
        while o < n
            invariant
                n == self.segments@.len(),
                0 <= o <= n,
                forall|j: int| 0 <= j < o ==> (#[trigger] self.segments@[j]).frag.index != index,
            decreases n - o,
        {
            if self.segments[o].frag.index == index {
                return Some(o);
            }
            o = o + 1;
        }
        None
    }

    /// The two list pairs describe the cube neighborhood of `index`: the
    /// ordinals list every fragment inside the cube exactly once, aligned
    /// with their lattice indices, and the option lists mirror them entry
    /// for entry (each resolved to some fragment at the same index).
    pub open spec fn cube_lists_ok(
        self,
        index: Index3,
        k: int,
        idxs: Seq<Index3>,
        ords: Seq<usize>,
        sidx: Seq<Option<Index3>>,
        sord: Seq<Option<usize>>,
    ) -> bool {
        &&& idxs.len() == ords.len()
        &&& sidx.len() == ords.len()
        &&& sord.len() == ords.len()
        &&& forall|j: int|
            0 <= j < ords.len() ==> (#[trigger] ords[j]) < self.segments@.len()
                && self.segments@[ords[j] as int].frag.index == idxs[j] && in_cube(
                index,
                idxs[j],
                k,
            )
        &&& forall|o: int|
            0 <= o < self.segments@.len() && in_cube(
                index,
                (#[trigger] self.segments@[o]).frag.index,
                k,
            ) ==> ords.contains(o as usize)
        &&& forall|j1: int, j2: int|
            0 <= j1 < j2 < ords.len() ==> #[trigger] ords[j1] != #[trigger] ords[j2]
        &&& forall|j: int| 0 <= j < ords.len() ==> (#[trigger] sidx[j]) == Some(idxs[j])
        &&& forall|j: int|
            0 <= j < ords.len() ==> ((#[trigger] sord[j]) matches Some(oo) && oo
                < self.segments@.len() && self.segments@[oo as int].frag.index == idxs[j])
    }

    /// Every fragment whose lattice index lies in the cube of half-edge
    /// `stiffness` around `index`: their indices, their ordinals, and the
    /// same two lists wrapped in options for the second ring bookkeeping.
    pub fn get_neighbors(&self, index: Index3, stiffness: u32) -> (r: (
        (Vec<Index3>, Vec<usize>),
        (Vec<Option<Index3>>, Vec<Option<usize>>),
    ))
        requires
            self.wf(),
            index.bounded(),
            stiffness <= 100,
        ensures
            self.cube_lists_ok(index, stiffness as int, r.0.0@, r.0.1@, r.1.0@, r.1.1@),
    {
        let (cube, _second) = index.get_neighbors(stiffness);
        let mut ret: Vec<Index3> = Vec::new();
        let mut ret_index: Vec<usize> = Vec::new();
        let n = self.segments.len();
        let mut ci: usize = 0;
        while ci < cube.len()
            invariant
                self.wf(),
                n == self.segments@.len(),
                0 <= ci <= cube@.len(),
                forall|j: int|
                    0 <= j < cube@.len() ==> in_cube(index, #[trigger] cube@[j], stiffness as int),
                forall|a: Index3|
                    in_cube(index, a, stiffness as int) ==> #[trigger] cube@.contains(a),
                ret@.len() == ret_index@.len(),
                forall|j: int|
                    0 <= j < ret_index@.len() ==> (#[trigger] ret_index@[j]) < n
                        && self.segments@[ret_index@[j] as int].frag.index == ret@[j] && in_cube(
                        index,
                        ret@[j],
                        stiffness as int,
                    ),
                forall|o: int, j: int|
                    #![trigger self.segments@[o], cube@[j]]
                    0 <= o < n && 0 <= j < ci && self.segments@[o].frag.index == cube@[j]
                        ==> ret_index@.contains(o as usize),
                forall|j1: int, j2: int|
                    0 <= j1 < j2 < cube@.len() ==> #[trigger] cube@[j1] != #[trigger] cube@[j2],
                forall|m: int, j: int|
                    #![trigger ret_index@[m], cube@[j]]
                    0 <= m < ret_index@.len() && ci <= j < cube@.len()
                        ==> self.segments@[ret_index@[m] as int].frag.index != cube@[j],
                forall|m1: int, m2: int|
                    0 <= m1 < m2 < ret_index@.len() ==> #[trigger] ret_index@[m1]
                        != #[trigger] ret_index@[m2],
            decreases cube@.len() - ci,
        {
            let target = cube[ci];
            let mut o: usize = 0;
            while o < n
                invariant
                    self.wf(),
                    n == self.segments@.len(),
                    0 <= o <= n,
                    0 <= ci < cube@.len(),
                    target == cube@[ci as int],
                    forall|j: int|
                        0 <= j < cube@.len() ==> in_cube(
                            index,
                            #[trigger] cube@[j],
                            stiffness as int,
                        ),
                    ret@.len() == ret_index@.len(),
                    forall|j: int|
                        0 <= j < ret_index@.len() ==> (#[trigger] ret_index@[j]) < n
                            && self.segments@[ret_index@[j] as int].frag.index == ret@[j]
                            && in_cube(index, ret@[j], stiffness as int),
                    forall|oo: int, j: int|
                        #![trigger self.segments@[oo], cube@[j]]
                        0 <= oo < n && 0 <= j < ci && self.segments@[oo].frag.index == cube@[j]
                            ==> ret_index@.contains(oo as usize),
                    forall|oo: int|
                        0 <= oo < o && (#[trigger] self.segments@[oo]).frag.index == target
                            ==> ret_index@.contains(oo as usize),
                    forall|j1: int, j2: int|
                        0 <= j1 < j2 < cube@.len() ==> #[trigger] cube@[j1] != #[trigger] cube@[j2],
                    forall|m: int, j: int|
                        #![trigger ret_index@[m], cube@[j]]
                        0 <= m < ret_index@.len() && ci < j < cube@.len()
                            ==> self.segments@[ret_index@[m] as int].frag.index != cube@[j],
                    forall|m: int|
                        0 <= m < ret_index@.len() ==> (
                        self.segments@[(#[trigger] ret_index@[m]) as int].frag.index != target
                            || ret_index@[m] < o),
                    forall|m1: int, m2: int|
                        0 <= m1 < m2 < ret_index@.len() ==> #[trigger] ret_index@[m1]
                            != #[trigger] ret_index@[m2],
                decreases n - o,
            {
                if self.segments[o].frag.index == target {
                    let ghost prev = ret_index@;
                    ret.push(self.segments[o].frag.index);
                    ret_index.push(o);
                    proof {
                        assert(ret_index@[prev.len() as int] == o);
                        assert forall|x: usize| #[trigger] prev.contains(x)
                            implies ret_index@.contains(x) by {
                            let j = choose|j: int| 0 <= j < prev.len() && prev[j] == x;
                            assert(ret_index@[j] == x);
                        }
                        assert forall|m: int| 0 <= m < prev.len() implies #[trigger] prev[m]
                            != o as usize by {
                            if self.segments@[prev[m] as int].frag.index == target {
                                assert(prev[m] < o);
                            }
                        }
                    }
                }
                o = o + 1;
            }
            ci = ci + 1;
        }
        proof {
            assert forall|o: int|
                0 <= o < n && in_cube(
                    index,
                    (#[trigger] self.segments@[o]).frag.index,
                    stiffness as int,
                ) implies ret_index@.contains(o as usize) by {
                assert(cube@.contains(self.segments@[o].frag.index));
                let j = choose|j: int|
                    0 <= j < cube@.len() && cube@[j] == self.segments@[o].frag.index;
                assert(self.segments@[o].frag.index == cube@[j]);
            }
        }
        let mut second: Vec<Option<Index3>> = Vec::new();
        let mut second_index: Vec<Option<usize>> = Vec::new();
        let mut j: usize = 0;
        while j < ret.len()
            invariant
                self.wf(),
                n == self.segments@.len(),
                0 <= j <= ret@.len(),
                ret@.len() == ret_index@.len(),
                forall|m: int|
                    0 <= m < ret_index@.len() ==> (#[trigger] ret_index@[m]) < n
                        && self.segments@[ret_index@[m] as int].frag.index == ret@[m],
                second@.len() == j,
                second_index@.len() == j,
                forall|m: int| 0 <= m < j ==> (#[trigger] second@[m]) == Some(ret@[m]),
                forall|m: int|
                    0 <= m < j ==> ((#[trigger] second_index@[m]) matches Some(oo) && oo < n
                        && self.segments@[oo as int].frag.index == ret@[m]),
            decreases ret@.len() - j,
        {
            second.push(Some(ret[j]));
            match self.find_ordinal(ret[j]) {
                Some(o) => second_index.push(Some(o)),
                None => {
                    proof {
                        assert(self.segments@[ret_index@[j as int] as int].frag.index
                            == ret@[j as int]);
                        assert(false);
                    }
                    second_index.push(None);
                },
            }
            j = j + 1;
        }
        ((ret, ret_index), (second, second_index))
    }

    /// The ordinal at `index` together with its neighborhood lists, or
    /// nothing when no fragment sits there.
    pub fn find_index_info(&self, index: Index3) -> (r: Option<
        (usize, (Vec<Index3>, Vec<usize>), (Vec<Option<Index3>>, Vec<Option<usize>>)),
    >)
        requires
            self.wf(),
            index.bounded(),
            self.stiffness <= 100,
        ensures
            match r {
                Some(info) => info.0 < self.segments@.len()
                    && self.segments@[info.0 as int].frag.index == index && self.cube_lists_ok(
                    index,
                    self.stiffness as int,
                    info.1.0@,
                    info.1.1@,
                    info.2.0@,
                    info.2.1@,
                ),
                None => forall|o: int|
                    0 <= o < self.segments@.len() ==> (#[trigger] self.segments@[o]).frag.index
                        != index,
            },
    {
        let neighbors = self.get_neighbors(index, self.stiffness);
        match self.find_ordinal(index) {
            Some(o) => Some((o, neighbors.0, neighbors.1)),
            None => None,
        }
    }
}

} // verus!
