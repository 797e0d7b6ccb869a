//! Quad extraction: four-sample face loops of the neighborhood graph, for
//! wireframe rendering.

use vstd::prelude::*;

use crate::cloth::Cloth;
use crate::cloth::Quad;
use crate::fixed::mag;

verus! {

/// All four corners sit at height zero inside the unit `(ix, iz)` cell at
/// `(x0, z0)`.
pub open spec fn quad_in_cell(c: Cloth, q: Quad, x0: int, z0: int) -> bool {
    forall|k: int|
        0 <= k < 4 ==> {
            let idx = c.segments@[(#[trigger] q.corners[k]) as int].frag.index;
            idx.y == 0 && x0 <= idx.x <= x0 + 1 && z0 <= idx.z <= z0 + 1
        }
}

/// The four corners are in range, pairwise distinct ordinals with pairwise
/// distinct lattice indices, all at height zero, and all inside one unit
/// cell of the `(ix, iz)` grid.
pub open spec fn quad_wf(c: Cloth, q: Quad) -> bool {
    &&& forall|k: int| 0 <= k < 4 ==> (#[trigger] q.corners[k]) < c.segments@.len()
    &&& forall|k1: int, k2: int|
        0 <= k1 < k2 < 4 ==> q.corners[k1] != q.corners[k2] && c.segments@[q.corners[k1] as int].frag.index
            != c.segments@[q.corners[k2] as int].frag.index
    &&& exists|x0: int, z0: int| #[trigger] quad_in_cell(c, q, x0, z0)
}

/// The x direction of diagonal pass `di`.
pub open spec fn dir_x(di: int) -> int {
    if di < 2 {
        -1
    } else {
        1
    }
}

/// The z direction of diagonal pass `di`.
pub open spec fn dir_z(di: int) -> int {
    if di % 2 == 0 {
        -1
    } else {
        1
    }
}

/// Ordinal `g` lies in the `(sx, sz)` quadrant cell of fragment `o`: at
/// most one step along each diagonal direction, zero steps allowed.
pub open spec fn in_quadrant(c: Cloth, o: int, g: int, sx: int, sz: int) -> bool {
    let f = c.segments@[o].frag.index;
    let gi = c.segments@[g].frag.index;
    (gi.x == f.x || gi.x == f.x + sx) && (gi.z == f.z || gi.z == f.z + sz)
}

/// The distinct quadrant members among the first `j` neighbors of `o`, in
/// neighbor order.
pub open spec fn quadrant_upto(c: Cloth, o: int, sx: int, sz: int, j: int) -> Seq<usize>
    decreases j,
{
    if j <= 0 {
        Seq::empty()
    } else {
        let prev = quadrant_upto(c, o, sx, sz, j - 1);
        let g = c.segments@[o].neighbor_index@[j - 1];
        if in_quadrant(c, o, g as int, sx, sz) && !prev.contains(g) {
            prev.push(g)
        } else {
            prev
        }
    }
}

/// The quads of the first `o` fragments, plus the first `di` diagonal
/// passes of fragment `o`: each quadrant whose distinct member count is
/// exactly four contributes one quad.
pub open spec fn quads_upto(c: Cloth, o: int, di: int) -> Seq<Quad>
    decreases o, di,
{
    if o <= 0 && di <= 0 {
        Seq::empty()
    } else if di <= 0 {
        quads_upto(c, o - 1, 4)
    } else {
        let prev = quads_upto(c, o, di - 1);
        let q = quadrant_upto(
            c,
            o,
            dir_x(di - 1),
            dir_z(di - 1),
            c.segments@[o].neighbor_index@.len() as int,
        );
        if q.len() == 4 {
            prev.push(Quad { corners: [q[0], q[1], q[2], q[3]] })
        } else {
            prev
        }
    }
}

/// Every quad of the neighborhood graph, enumerated fragment by fragment
/// and diagonal by diagonal.
pub open spec fn quads_spec(c: Cloth) -> Seq<Quad> {
    quads_upto(c, c.segments@.len() as int, 0)
}

/// The quad enumeration reads only the segments.
pub proof fn lemma_quads_spec_segments(c1: Cloth, c2: Cloth)
    requires
        c1.segments@ == c2.segments@,
    ensures
        quads_spec(c1) == quads_spec(c2),
{
    lemma_quads_upto_segments(c1, c2, c1.segments@.len() as int, 0);
}

proof fn lemma_quadrant_upto_segments(c1: Cloth, c2: Cloth, o: int, sx: int, sz: int, j: int)
    requires
        c1.segments@ == c2.segments@,
    ensures
        quadrant_upto(c1, o, sx, sz, j) == quadrant_upto(c2, o, sx, sz, j),
    decreases j,
{
    if j > 0 {
        lemma_quadrant_upto_segments(c1, c2, o, sx, sz, j - 1);
    }
}

proof fn lemma_quads_upto_segments(c1: Cloth, c2: Cloth, o: int, di: int)
    requires
        c1.segments@ == c2.segments@,
    ensures
        quads_upto(c1, o, di) == quads_upto(c2, o, di),
    decreases o, di,
{
    if o <= 0 && di <= 0 {
    } else if di <= 0 {
        lemma_quads_upto_segments(c1, c2, o - 1, 4);
    } else {
        lemma_quads_upto_segments(c1, c2, o, di - 1);
        lemma_quadrant_upto_segments(
            c1,
            c2,
            o,
            dir_x(di - 1),
            dir_z(di - 1),
            c1.segments@[o].neighbor_index@.len() as int,
        );
    }
}

impl Cloth {
    /// Enumerate the wireframe quads: for every fragment and every diagonal
    /// direction, the distinct neighbors lying in that quadrant of the unit
    /// cell, kept when exactly four are found.
    pub fn extract_quads(&self) -> (r: Vec<Quad>)
        requires
            self.wf(),
            self.distinct_indices(),
            forall|o: int|
                0 <= o < self.segments@.len() ==> (#[trigger] self.segments@[o]).frag.index.y == 0,
        ensures
            r@ == quads_spec(*self),
            forall|qi: int| 0 <= qi < r@.len() ==> quad_wf(*self, #[trigger] r@[qi]),
    {
        let n = self.segments.len();
        let mut out: Vec<Quad> = Vec::new();
        let mut o: usize = 0;
        while o < n
            invariant
                self.wf(),
                self.distinct_indices(),
                forall|p: int|
                    0 <= p < self.segments@.len() ==> (#[trigger] self.segments@[p]).frag.index.y
                        == 0,
                n == self.segments@.len(),
                0 <= o <= n,
                out@ == quads_upto(*self, o as int, 0),
                forall|qi: int| 0 <= qi < out@.len() ==> quad_wf(*self, #[trigger] out@[qi]),
            decreases n - o,
        {
            let fx = self.segments[o].frag.index.x;
            let fz = self.segments[o].frag.index.z;
            let mut di: usize = 0;
            while di < 4
                invariant
                    self.wf(),
                    self.distinct_indices(),
                    forall|p: int|
                        0 <= p < self.segments@.len() ==> (
                        #[trigger] self.segments@[p]).frag.index.y == 0,
                    n == self.segments@.len(),
                    0 <= o < n,
                    0 <= di <= 4,
                    fx == self.segments@[o as int].frag.index.x,
                    fz == self.segments@[o as int].frag.index.z,
                    out@ == quads_upto(*self, o as int, di as int),
                    forall|qi: int| 0 <= qi < out@.len() ==> quad_wf(*self, #[trigger] out@[qi]),
                decreases 4 - di,
            {
                let sx: i64 = if di < 2 {
                    -1
                } else {
                    1
                };
                let sz: i64 = if di % 2 == 0 {
                    -1
                } else {
                    1
                };
                proof {
                    assert(sx as int == dir_x(di as int) && sz as int == dir_z(di as int));
                }
                let ghost x0: int = if sx == -1 {
                    fx as int - 1
                } else {
                    fx as int
                };
                let ghost z0: int = if sz == -1 {
                    fz as int - 1
                } else {
                    fz as int
                };
                let mut quad: Vec<usize> = Vec::new();
                let deg = self.segments[o].neighbor_index.len();
                let mut j: usize = 0;
                while j < deg
                    invariant
                        self.wf(),
                        forall|p: int|
                            0 <= p < self.segments@.len() ==> (
                            #[trigger] self.segments@[p]).frag.index.y == 0,
                        n == self.segments@.len(),
                        0 <= o < n,
                        0 <= j <= deg,
                        deg == self.segments@[o as int].neighbor_index@.len(),
                        fx == self.segments@[o as int].frag.index.x,
                        fz == self.segments@[o as int].frag.index.z,
                        sx == -1 || sx == 1,
                        sz == -1 || sz == 1,
                        x0 == (if sx == -1 {
                            fx as int - 1
                        } else {
                            fx as int
                        }),
                        z0 == (if sz == -1 {
                            fz as int - 1
                        } else {
                            fz as int
                        }),
                        sx as int == dir_x(di as int),
                        sz as int == dir_z(di as int),
                        0 <= di < 4,
                        quad@ == quadrant_upto(*self, o as int, sx as int, sz as int, j as int),
                        forall|k: int|
                            0 <= k < quad@.len() ==> {
                                let g = #[trigger] quad@[k];
                                let idx = self.segments@[g as int].frag.index;
                                g < n && x0 <= idx.x <= x0 + 1 && z0 <= idx.z <= z0 + 1
                            },
                        forall|k1: int, k2: int|
                            0 <= k1 < k2 < quad@.len() ==> quad@[k1] != quad@[k2],
                    decreases deg - j,
                {
                    let g = self.segments[o].neighbor_index[j];
                    assert(g < n);
                    let gx = self.segments[g].frag.index.x;
                    let gz = self.segments[g].frag.index.z;
                    let a_ok = gx == fx || gx == fx + sx;
                    let b_ok = gz == fz || gz == fz + sz;
                    proof {
                        assert((a_ok && b_ok) == in_quadrant(
                            *self,
                            o as int,
                            g as int,
                            sx as int,
                            sz as int,
                        ));
                    }
                    if a_ok && b_ok {
                        let mut dup = false;
                        let mut k: usize = 0;
                        while k < quad.len()
                            invariant
                                0 <= k <= quad@.len(),
                                dup == exists|m: int| 0 <= m < k && quad@[m] == g,
                            decreases quad@.len() - k,
                        {
                            if quad[k] == g {
                                dup = true;
                            }
                            k = k + 1;
                        }
                        if !dup {
                            quad.push(g);
                        }
                    }
                    j = j + 1;
                }
                if quad.len() == 4 {
                    let q = Quad { corners: [quad[0], quad[1], quad[2], quad[3]] };
                    proof {
                        assert forall|k1: int, k2: int| 0 <= k1 < k2 < 4 implies q.corners[k1]
                            != q.corners[k2] && self.segments@[q.corners[k1] as int].frag.index
                            != self.segments@[q.corners[k2] as int].frag.index by {
                            assert(q.corners[k1] == quad@[k1]);
                            assert(q.corners[k2] == quad@[k2]);
                            let i1 = q.corners[k1] as int;
                            let i2 = q.corners[k2] as int;
                            if i1 < i2 {
                                assert(self.segments@[i1].frag.index
                                    != self.segments@[i2].frag.index);
                            } else {
                                assert(self.segments@[i2].frag.index
                                    != self.segments@[i1].frag.index);
                            }
                        }
                        assert forall|k: int| 0 <= k < 4 implies {
                            let idx = self.segments@[(#[trigger] q.corners[k]) as int].frag.index;
                            idx.y == 0 && x0 <= idx.x <= x0 + 1 && z0 <= idx.z <= z0 + 1
                        } by {
                            assert(q.corners[k] == quad@[k]);
                        }
                        assert(quad_in_cell(*self, q, x0, z0));
                        assert(quad_wf(*self, q));
                    }
                    let ghost prev = out@;
                    out.push(q);
                    proof {
                        assert(forall|qi: int| 0 <= qi < prev.len() ==> out@[qi] == prev[qi]);
                        assert(out@[prev.len() as int] == q);
                    }
                }
                di = di + 1;
            }
            o = o + 1;
        }
        out
    }

    /// Order a quad's corners into a drawing ring: each consecutive pair
    /// (and the closing pair) differs by exactly one grid step. A
    /// well-formed quad always closes a ring that uses each of its corners
    /// exactly once; nothing is returned for corners that do not close one.
    pub fn quad_ring(&self, q: &Quad) -> (r: Option<[usize; 4]>)
        requires
            self.wf(),
            forall|k: int| 0 <= k < 4 ==> (#[trigger] q.corners[k]) < self.segments@.len(),
        ensures
            quad_wf(*self, *q) ==> r is Some,
            match r {
                Some(ring) => {
                    &&& forall|k: int|
                        0 <= k < 4 ==> exists|m: int| 0 <= m < 4 && (#[trigger] ring[k])
                            == q.corners[m]
                    &&& (quad_wf(*self, *q) ==> forall|m: int|
                        0 <= m < 4 ==> exists|k: int|
                            0 <= k < 4 && (#[trigger] q.corners[m]) == ring[k])
                    &&& forall|k: int|
                        0 <= k < 4 ==> {
                            let a = self.segments@[(#[trigger] ring[k]) as int].frag.index;
                            let b = self.segments@[ring[if k == 3 {
                                0int
                            } else {
                                k + 1
                            }] as int].frag.index;
                            mag(a.x - b.x) + mag(a.z - b.z) == 1
                        }
                },
                None => true,
            },
    {
        let ghost qwf = quad_wf(*self, *q);
        let ghost (x0c, z0c): (int, int) = if qwf {
            choose|x0: int, z0: int| quad_in_cell(*self, *q, x0, z0)
        } else {
            (0int, 0int)
        };
        proof {
            if qwf {
                assert(quad_in_cell(*self, *q, x0c, z0c));
            }
        }
        let a = q.corners[0];
        let ai = self.segments[a].frag.index;
        let mut bx: Option<usize> = None;
        let mut bz: Option<usize> = None;
        let mut diag: Option<usize> = None;
        let mut m: usize = 1;
        while m < 4
            invariant
                self.wf(),
                forall|k: int| 0 <= k < 4 ==> (#[trigger] q.corners[k]) < self.segments@.len(),
                1 <= m <= 4,
                a == q.corners[0],
                ai == self.segments@[a as int].frag.index,
                qwf == quad_wf(*self, *q),
                qwf ==> quad_in_cell(*self, *q, x0c, z0c),
                match bx {
                    Some(v) => exists|k: int|
                        0 <= k < m && v == (#[trigger] q.corners[k]) && {
                            let b = self.segments@[v as int].frag.index;
                            mag(b.x - ai.x) + mag(b.z - ai.z) == 1
                        },
                    None => true,
                },
                match bz {
                    Some(v) => exists|k: int|
                        0 <= k < m && v == (#[trigger] q.corners[k]) && {
                            let b = self.segments@[v as int].frag.index;
                            mag(b.x - ai.x) + mag(b.z - ai.z) == 1
                        },
                    None => true,
                },
                match diag {
                    Some(v) => exists|k: int|
                        0 <= k < m && v == (#[trigger] q.corners[k]) && {
                            let b = self.segments@[v as int].frag.index;
                            mag(b.x - ai.x) == 1 && mag(b.z - ai.z) == 1
                        },
                    None => true,
                },
                qwf ==> (match bx {
                    Some(v) => {
                        let b = self.segments@[v as int].frag.index;
                        b.x == ai.x && mag(b.z - ai.z) == 1
                    },
                    None => true,
                }),
                qwf ==> (match bz {
                    Some(v) => {
                        let b = self.segments@[v as int].frag.index;
                        b.z == ai.z && mag(b.x - ai.x) == 1
                    },
                    None => true,
                }),
                qwf ==> forall|mp: int|
                    1 <= mp < m ==> {
                        let c = #[trigger] q.corners[mp];
                        bx == Some(c) || bz == Some(c) || diag == Some(c)
                    },
            decreases 4 - m,
        {
            let g = q.corners[m];
            let gi = self.segments[g].frag.index;
            proof {
                if qwf {
                    assert(q.corners[0] < self.segments@.len());
                    assert(q.corners[m as int] < self.segments@.len());
                    // Both corners sit in the same unit cell at height zero.
                    assert(ai.y == 0 && x0c <= ai.x <= x0c + 1 && z0c <= ai.z <= z0c + 1);
                    assert(gi.y == 0 && x0c <= gi.x <= x0c + 1 && z0c <= gi.z <= z0c + 1);
                    assert(gi != ai);
                }
            }
            if gi.x == ai.x && (gi.z == ai.z + 1 || gi.z == ai.z - 1) {
                if bx.is_none() {
                    bx = Some(g);
                } else {
                    proof {
                        if qwf {
                            // Two distinct vertical neighbors of one corner
                            // cannot both lie in the unit cell.
                            let v = bx->0;
                            let b = self.segments@[v as int].frag.index;
                            assert(b.x == gi.x && b.y == gi.y);
                            assert(b.z == gi.z);
                            assert(b == gi);
                            assert(false);
                        }
                    }
                    bz = Some(g);
                }
            } else if gi.z == ai.z && (gi.x == ai.x + 1 || gi.x == ai.x - 1) {
                if bz.is_none() {
                    bz = Some(g);
                } else {
                    proof {
                        if qwf {
                            let v = bz->0;
                            let b = self.segments@[v as int].frag.index;
                            assert(b.z == gi.z && b.y == gi.y);
                            assert(b.x == gi.x);
                            assert(b == gi);
                            assert(false);
                        }
                    }
                    bx = Some(g);
                }
            } else if (gi.x == ai.x + 1 || gi.x == ai.x - 1) && (gi.z == ai.z + 1 || gi.z == ai.z
                - 1) {
                proof {
                    if qwf && diag is Some {
                        let v = diag->0;
                        let b = self.segments@[v as int].frag.index;
                        assert(b.x == gi.x && b.z == gi.z && b.y == gi.y);
                        assert(b == gi);
                        assert(false);
                    }
                }
                diag = Some(g);
            } else {
                proof {
                    if qwf {
                        // In a unit cell every other corner is a side or
                        // diagonal neighbor.
                        assert(mag(gi.x - ai.x) <= 1 && mag(gi.z - ai.z) <= 1);
                        assert(false);
                    }
                }
            }
            m = m + 1;
        }
        proof {
            if qwf {
                // Three distinct corners fill the three distinct slots.
                assert(q.corners[1] != q.corners[2] && q.corners[1] != q.corners[3]
                    && q.corners[2] != q.corners[3]);
                assert(bx is Some && bz is Some && diag is Some);
            }
        }
        match (bx, bz, diag) {
            (Some(b1), Some(b2), Some(d)) => {
                let b1i = self.segments[b1].frag.index;
                let b2i = self.segments[b2].frag.index;
                let di_ = self.segments[d].frag.index;
                let ok1 = {
                    let vx = if di_.x >= b1i.x {
                        di_.x - b1i.x
                    } else {
                        b1i.x - di_.x
                    };
                    let vz = if di_.z >= b1i.z {
                        di_.z - b1i.z
                    } else {
                        b1i.z - di_.z
                    };
                    vx + vz == 1
                };
                let ok2 = {
                    let vx = if di_.x >= b2i.x {
                        di_.x - b2i.x
                    } else {
                        b2i.x - di_.x
                    };
                    let vz = if di_.z >= b2i.z {
                        di_.z - b2i.z
                    } else {
                        b2i.z - di_.z
                    };
                    vx + vz == 1
                };
                proof {
                    if qwf {
                        // All four corners share the unit cell, so the side
                        // neighbors flank the diagonal at one grid step.
                        assert(x0c <= ai.x <= x0c + 1 && z0c <= ai.z <= z0c + 1);
                        assert(x0c <= b1i.x <= x0c + 1 && z0c <= b1i.z <= z0c + 1);
                        assert(x0c <= b2i.x <= x0c + 1 && z0c <= b2i.z <= z0c + 1);
                        assert(x0c <= di_.x <= x0c + 1 && z0c <= di_.z <= z0c + 1);
                        assert(ok1 && ok2);
                    }
                }
                if ok1 && ok2 {
                    Some([a, b1, d, b2])
                } else {
                    None
                }
            },
            _ => None,
        }
    }
}

} // verus!
