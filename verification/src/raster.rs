//! Fill rasterization: sweeping the pattern bounding box and emitting one
//! cloth fragment for every grid sample strictly interior to the drafted
//! regions under the even-odd parity rule, with the attributes of the lines
//! covering it.

use vstd::prelude::*;

use crate::cloth::ClothSegmentFrag;
use crate::drafting::Draft;
use crate::drafting::Line;
use crate::drafting::max_x_upto;
use crate::drafting::max_y_upto;
use crate::drafting::min_x_upto;
use crate::drafting::min_y_upto;
use crate::fixed::Fx;
use crate::fixed::SCALE;
use crate::fixed::isqrt;
use crate::fixed::lemma_isqrt_bound;
use crate::fixed::lemma_isqrt_exists;
use crate::fixed::mag;
use crate::fixed::sat64;
use crate::geom::COORD_MAX;
use crate::geom::INDEX_MAX;
use crate::geom::Index3;
use crate::geom::Point2;
use crate::geom::Vec3;
use crate::geom::norm2_raw;

verus! {

/// Number of lines among the first `n` whose segment crosses the upward
/// vertical ray from `p`.
pub open spec fn crossings_upto(lines: Seq<Line>, p: Point2, n: int) -> int
    decreases n,
{
    if n <= 0 {
        0
    } else {
        crossings_upto(lines, p, n - 1) + if lines[n - 1].crosses_above(p) {
            1int
        } else {
            0int
        }
    }
}

/// The even-odd parity rule: `p` is interior when the upward ray from it
/// crosses the drafted segments an odd number of times.
pub open spec fn interior(lines: Seq<Line>, p: Point2) -> bool {
    crossings_upto(lines, p, lines.len() as int) % 2 == 1
}

/// The accumulated sample attributes: or-ed pin and rigid flags, and the
/// seam identity of the last covering link line.
#[derive(Clone, Copy, Debug)]
pub struct SampleAttrs {
    /// Some covering line is pinned.
    pub pinned: bool,
    /// Some covering line is rigid.
    pub rigid: bool,
    /// Parametric seam coordinate from the last covering link line.
    pub link_vector: Option<Fx>,
    /// Seam id from the last covering link line.
    pub link_number: Option<u32>,
    /// Identity of the last covering link line.
    pub line_id: usize,
}

/// The canonical upper endpoint of a segment: the one greater by `(x, y)`
/// lexicographic order. Seam coordinates are measured from it.
pub open spec fn hi_end(l: Line) -> Point2 {
    if l.p1.x.raw < l.p2.x.raw || (l.p1.x.raw == l.p2.x.raw && l.p1.y.raw < l.p2.y.raw) {
        l.p2
    } else {
        l.p1
    }
}

/// The other endpoint.
pub open spec fn lo_end(l: Line) -> Point2 {
    if l.p1.x.raw < l.p2.x.raw || (l.p1.x.raw == l.p2.x.raw && l.p1.y.raw < l.p2.y.raw) {
        l.p1
    } else {
        l.p2
    }
}

/// Raw parametric position of `p` along link line `l`: the distance from
/// the canonical upper endpoint over the segment length, both rounded to
/// the fixed-point grid; zero for a degenerate segment.
pub open spec fn link_vector_spec(l: Line, p: Point2) -> int {
    let hi = hi_end(l);
    let lo = lo_end(l);
    let dn = isqrt(
        (hi.x.raw - p.x.raw) * (hi.x.raw - p.x.raw) + (hi.y.raw - p.y.raw) * (hi.y.raw - p.y.raw),
    );
    let dd = isqrt(
        (hi.x.raw - lo.x.raw) * (hi.x.raw - lo.x.raw) + (hi.y.raw - lo.y.raw) * (hi.y.raw
            - lo.y.raw),
    );
    if dd == 0 {
        0
    } else {
        sat64((dn * (SCALE as int)) / dd)
    }
}

/// Attributes accumulated over the first `n` lines covering `p` with
/// hitbox half-width `t`: pin and rigid flags are or-ed, seam identity is
/// last-writer-wins.
pub open spec fn attrs_upto(lines: Seq<Line>, p: Point2, t: int, n: int) -> SampleAttrs
    decreases n,
{
    if n <= 0 {
        SampleAttrs {
            pinned: false,
            rigid: false,
            link_vector: None,
            link_number: None,
            line_id: 0,
        }
    } else {
        let prev = attrs_upto(lines, p, t, n - 1);
        let l = lines[n - 1];
        if l.hitbox_spec(p, t) {
            SampleAttrs {
                pinned: prev.pinned || l.pinned,
                rigid: prev.rigid || l.rigid,
                link_vector: if l.link is Some {
                    Some(Fx { raw: link_vector_spec(l, p) as i64 })
                } else {
                    prev.link_vector
                },
                link_number: if l.link is Some {
                    l.link
                } else {
                    prev.link_number
                },
                line_id: if l.link is Some {
                    l.line_id
                } else {
                    prev.line_id
                },
            }
        } else {
            prev
        }
    }
}

/// The parametric seam coordinate of `point` along `l`.
pub fn link_vector_of(l: &Line, point: Point2) -> (r: Fx)
    requires
        l.wf(),
        point.bounded(),
    ensures
        r.raw as int == link_vector_spec(*l, point),
        r.raw >= 0,
{
    let hi: Point2 = if l.p1.x.raw < l.p2.x.raw || (l.p1.x.raw == l.p2.x.raw && l.p1.y.raw
        < l.p2.y.raw) {
        l.p2
    } else {
        l.p1
    };
    let lo: Point2 = if l.p1.x.raw < l.p2.x.raw || (l.p1.x.raw == l.p2.x.raw && l.p1.y.raw
        < l.p2.y.raw) {
        l.p1
    } else {
        l.p2
    };
    let dn = norm2_raw(hi.x.raw - point.x.raw, hi.y.raw - point.y.raw);
    let dd = norm2_raw(hi.x.raw - lo.x.raw, hi.y.raw - lo.y.raw);
    proof {
        let nn = ((hi.x.raw - point.x.raw) as int) * ((hi.x.raw - point.x.raw) as int) + ((hi.y.raw
            - point.y.raw) as int) * ((hi.y.raw - point.y.raw) as int);
        let nd = ((hi.x.raw - lo.x.raw) as int) * ((hi.x.raw - lo.x.raw) as int) + ((hi.y.raw
            - lo.y.raw) as int) * ((hi.y.raw - lo.y.raw) as int);
        assert(0 <= nn && nn <= (0x1_0000_0000int) * (0x1_0000_0000int)) by (nonlinear_arith)
            requires
                nn == ((hi.x.raw - point.x.raw) as int) * ((hi.x.raw - point.x.raw) as int) + ((
                hi.y.raw - point.y.raw) as int) * ((hi.y.raw - point.y.raw) as int),
                mag((hi.x.raw - point.x.raw) as int) <= 0x8000_0000,
                mag((hi.y.raw - point.y.raw) as int) <= 0x8000_0000,
        ;
        assert(0 <= nd && nd <= (0x1_0000_0000int) * (0x1_0000_0000int)) by (nonlinear_arith)
            requires
                nd == ((hi.x.raw - lo.x.raw) as int) * ((hi.x.raw - lo.x.raw) as int) + ((hi.y.raw
                    - lo.y.raw) as int) * ((hi.y.raw - lo.y.raw) as int),
                mag((hi.x.raw - lo.x.raw) as int) <= 0x8000_0000,
                mag((hi.y.raw - lo.y.raw) as int) <= 0x8000_0000,
        ;
        lemma_isqrt_bound(nn, 0x1_0000_0000int);
        lemma_isqrt_bound(nd, 0x1_0000_0000int);
        lemma_isqrt_exists(nn);
        lemma_isqrt_exists(nd);
        assert((0x1_0000_0000u128 as int) * (SCALE as int) <= i64::MAX as int)
            by (nonlinear_arith);
        assert(isqrt(nn) * (SCALE as int) <= 0x1_0000_0000int * (SCALE as int))
            by (nonlinear_arith)
            requires
                0 <= isqrt(nn) <= 0x1_0000_0000int,
        ;
    }
    if dd.raw == 0 {
        Fx { raw: 0 }
    } else {
        let q: u128 = (dn.raw as u128) * (SCALE as u128) / (dd.raw as u128);
        if q > i64::MAX as u128 {
            Fx { raw: i64::MAX }
        } else {
            Fx { raw: q as i64 }
        }
    }
}

/// Count the segments crossing the upward ray from `point`.
pub fn count_crossings(lines: &Vec<Line>, point: Point2) -> (r: usize)
    requires
        forall|i: int| 0 <= i < lines@.len() ==> (#[trigger] lines@[i]).wf(),
        point.bounded(),
    ensures
        r as int == crossings_upto(lines@, point, lines@.len() as int),
{
    let n = lines.len();
    let mut cnt: usize = 0;
    let mut i: usize = 0;
    while i < n
        invariant
            n == lines@.len(),
            0 <= i <= n,
            forall|j: int| 0 <= j < n ==> (#[trigger] lines@[j]).wf(),
            point.bounded(),
            cnt as int == crossings_upto(lines@, point, i as int),
            cnt <= i,
        decreases n - i,
    {
        if lines[i].crosses_above_exec(point) {
            cnt = cnt + 1;
        }
        i = i + 1;
    }
    cnt
}

/// Accumulate the sample attributes of `point` over all lines.
pub fn collect_attrs(lines: &Vec<Line>, point: Point2, threshold: Fx) -> (r: SampleAttrs)
    requires
        forall|i: int| 0 <= i < lines@.len() ==> (#[trigger] lines@[i]).wf(),
        point.bounded(),
        0 <= threshold.raw <= COORD_MAX,
    ensures
        r == attrs_upto(lines@, point, threshold.raw as int, lines@.len() as int),
{
    let n = lines.len();
    let mut acc = SampleAttrs {
        pinned: false,
        rigid: false,
        link_vector: None,
        link_number: None,
        line_id: 0,
    };
    let mut i: usize = 0;
    while i < n
        invariant
            n == lines@.len(),
            0 <= i <= n,
            forall|j: int| 0 <= j < n ==> (#[trigger] lines@[j]).wf(),
            point.bounded(),
            0 <= threshold.raw <= COORD_MAX,
            acc == attrs_upto(lines@, point, threshold.raw as int, i as int),
        decreases n - i,
    {
        let l = lines[i];
        if l.hitbox(point, threshold) {
            if l.pinned {
                acc.pinned = true;
            }
            if l.rigid {
                acc.rigid = true;
            }
            if l.link.is_some() {
                acc.link_vector = Some(link_vector_of(&l, point));
                acc.link_number = l.link;
                acc.line_id = l.line_id;
            }
        }
        i = i + 1;
    }
    acc
}

} // verus!
// The sweep itself: one column of samples per step, so a render can poll
// for cancellation between columns.

verus! {

/// The grid sample of column `xs`, row `ys`.
pub open spec fn sample_at(minb: Point2, d: int, xs: int, ys: int) -> Point2 {
    Point2 { x: Fx { raw: (minb.x.raw + xs * d) as i64 }, y: Fx { raw: (minb.y.raw + ys * d) as i64 } }
}

/// The hitbox half-width used while accumulating sample attributes: one and
/// a half sampling steps.
pub open spec fn threshold_of(d: int) -> int {
    d + d / 2
}

/// The fragment emitted for an interior sample.
pub open spec fn make_frag(
    lines: Seq<Line>,
    scale: Fx,
    d: int,
    minb: Point2,
    xs: int,
    ys: int,
) -> ClothSegmentFrag {
    let at = attrs_upto(lines, sample_at(minb, d, xs, ys), threshold_of(d), lines.len() as int);
    ClothSegmentFrag {
        index: Index3 { x: xs as i64, y: 0, z: ys as i64 },
        position: Vec3 {
            x: Fx { raw: sat64(xs * scale.raw) as i64 },
            y: Fx { raw: SCALE },
            z: Fx { raw: sat64(ys * scale.raw) as i64 },
        },
        velocity: Vec3 { x: Fx { raw: 0 }, y: Fx { raw: 0 }, z: Fx { raw: 0 } },
        pinned: at.pinned,
        rigid: at.rigid,
        link_vector: at.link_vector,
        link_number: at.link_number,
        line_id: at.line_id,
    }
}

/// The fragments of column `xs` over the first `ys` rows: every interior
/// sample, in row order.
pub open spec fn row_frags(
    lines: Seq<Line>,
    scale: Fx,
    d: int,
    minb: Point2,
    xs: int,
    ys: int,
) -> Seq<ClothSegmentFrag>
    decreases ys,
{
    if ys <= 0 {
        Seq::empty()
    } else {
        let prev = row_frags(lines, scale, d, minb, xs, ys - 1);
        if interior(lines, sample_at(minb, d, xs, ys - 1)) {
            prev.push(make_frag(lines, scale, d, minb, xs, ys - 1))
        } else {
            prev
        }
    }
}

/// The fragments of the first `xs` full columns, `rows` rows each, in
/// column-major order.
pub open spec fn cols_frags(
    lines: Seq<Line>,
    scale: Fx,
    d: int,
    minb: Point2,
    rows: int,
    xs: int,
) -> Seq<ClothSegmentFrag>
    decreases xs,
{
    if xs <= 0 {
        Seq::empty()
    } else {
        cols_frags(lines, scale, d, minb, rows, xs - 1) + row_frags(
            lines,
            scale,
            d,
            minb,
            xs - 1,
            rows,
        )
    }
}

/// Sampling steps of size `d` needed to cross from `lo` to `hi`.
pub open spec fn steps_between(lo: int, hi: int, d: int) -> int {
    if hi <= lo {
        0
    } else {
        (hi - lo + d - 1) / d
    }
}

/// Lower corner of the expanded sweep box of a line set.
pub open spec fn sweep_min(lines: Seq<Line>) -> Point2 {
    Point2 {
        x: Fx { raw: (min_x_upto(lines, lines.len() as int) - SCALE) as i64 },
        y: Fx { raw: (min_y_upto(lines, lines.len() as int) - SCALE) as i64 },
    }
}

/// Upper corner of the expanded sweep box of a line set.
pub open spec fn sweep_max(lines: Seq<Line>) -> Point2 {
    Point2 {
        x: Fx { raw: (max_x_upto(lines, lines.len() as int) + SCALE) as i64 },
        y: Fx { raw: (max_y_upto(lines, lines.len() as int) + SCALE) as i64 },
    }
}

/// Number of sample columns of a sweep of the line set with step `d`.
pub open spec fn sweep_cols(lines: Seq<Line>, d: int) -> int {
    steps_between(sweep_min(lines).x.raw as int, sweep_max(lines).x.raw as int, d)
}

/// Number of sample rows of a sweep of the line set with step `d`.
pub open spec fn sweep_rows(lines: Seq<Line>, d: int) -> int {
    steps_between(sweep_min(lines).y.raw as int, sweep_max(lines).y.raw as int, d)
}

/// Number of sampling steps of size `d` from `lo` until `hi` is reached.
fn steps_for(lo: i64, hi: i64, d: i64) -> (r: i64)
    requires
        1 <= d,
        hi > lo ==> mag(lo as int) <= COORD_MAX as int && mag(hi as int) <= COORD_MAX as int,
    ensures
        0 <= r,
        r <= 2 * (COORD_MAX as int),
        lo + r * d >= hi,
        r == 0 || lo + (r - 1) * d < hi,
        r as int == steps_between(lo as int, hi as int, d as int),
{
    if hi <= lo {
        proof {
            assert(lo + 0 * d >= hi) by (nonlinear_arith)
                requires
                    hi <= lo,
            ;
        }
        0
    } else {
        let span: u64 = (hi - lo) as u64;
        let du: u64 = d as u64;
        let a: u64 = span + du - 1;
        let q: u64 = a / du;
        proof {
            vstd::arithmetic::div_mod::lemma_fundamental_div_mod(a as int, du as int);
            let rr = (a as int) % (du as int);
            vstd::arithmetic::div_mod::lemma_mod_bound(a as int, du as int);
            assert(a as int == (du as int) * (q as int) + rr);
            assert((q as int) * (d as int) == a as int - rr) by (nonlinear_arith)
                requires
                    a as int == (du as int) * (q as int) + rr,
                    du as int == d as int,
            ;
            assert((q as int) * (d as int) >= hi as int - lo as int);
            assert(q as int > 0) by (nonlinear_arith)
                requires
                    (q as int) * (d as int) >= hi as int - lo as int,
                    hi as int > lo as int,
                    d as int >= 1,
                    q as int >= 0,
            ;
            assert(((q as int) - 1) * (d as int) == a as int - rr - d as int) by (nonlinear_arith)
                requires
                    (q as int) * (d as int) == a as int - rr,
            ;
            assert(q as int <= span as int) by (nonlinear_arith)
                requires
                    (q as int) * (d as int) <= span as int + d as int - 1,
                    d as int >= 1,
                    q as int >= 0,
                    span as int >= 1,
            ;
        }
        q as i64
    }
}

/// The sweep in progress: bounds, step counts, the next column, and the
/// fragments emitted so far.
pub struct RasterState {
    /// Snapshot of the drafted lines.
    pub lines: Vec<Line>,
    /// Lattice-to-world factor.
    pub scale: Fx,
    /// Sampling step in draft space.
    pub detail: Fx,
    /// Lower corner of the expanded pattern bounding box.
    pub min_b: Point2,
    /// Upper corner of the expanded pattern bounding box.
    pub max_b: Point2,
    /// Total number of sample columns.
    pub cols: i64,
    /// Number of sample rows in every column.
    pub rows: i64,
    /// Next column to sweep.
    pub xs: i64,
    /// Fragments emitted so far, in column-major order.
    pub frags: Vec<ClothSegmentFrag>,
}

impl RasterState {
    /// The sweep invariant: bounds match the draft, step counts cover the
    /// box, and the fragments are exactly those of the swept columns.
    pub open spec fn wf(self) -> bool {
        &&& forall|i: int| 0 <= i < self.lines@.len() ==> (#[trigger] self.lines@[i]).wf()
        &&& 1 <= self.detail.raw <= COORD_MAX / 2
        &&& 0 <= self.scale.raw <= crate::cloth::SCALE_MAX
        &&& self.min_b.x.raw as int == min_x_upto(self.lines@, self.lines@.len() as int) - SCALE as int
        &&& self.min_b.y.raw as int == min_y_upto(self.lines@, self.lines@.len() as int) - SCALE as int
        &&& self.max_b.x.raw as int == max_x_upto(self.lines@, self.lines@.len() as int) + SCALE as int
        &&& self.max_b.y.raw as int == max_y_upto(self.lines@, self.lines@.len() as int) + SCALE as int
        &&& 0 <= self.cols <= INDEX_MAX
        &&& 0 <= self.rows <= INDEX_MAX
        &&& self.min_b.x.raw + self.cols * self.detail.raw >= self.max_b.x.raw
        &&& self.cols == 0 || self.min_b.x.raw + (self.cols - 1) * self.detail.raw < self.max_b.x.raw
        &&& self.min_b.y.raw + self.rows * self.detail.raw >= self.max_b.y.raw
        &&& self.rows == 0 || self.min_b.y.raw + (self.rows - 1) * self.detail.raw < self.max_b.y.raw
        &&& self.cols > 0 ==> mag(self.min_b.x.raw as int) <= COORD_MAX as int && mag(
            self.max_b.x.raw as int,
        ) <= COORD_MAX as int
        &&& self.rows > 0 ==> mag(self.min_b.y.raw as int) <= COORD_MAX as int && mag(
            self.max_b.y.raw as int,
        ) <= COORD_MAX as int
        &&& self.cols as int == sweep_cols(self.lines@, self.detail.raw as int)
        &&& self.rows as int == sweep_rows(self.lines@, self.detail.raw as int)
        &&& 0 <= self.xs <= self.cols
        &&& self.frags@ == cols_frags(
            self.lines@,
            self.scale,
            self.detail.raw as int,
            self.min_b,
            self.rows as int,
            self.xs as int,
        )
    }

    /// All columns have been swept.
    pub open spec fn done(self) -> bool {
        self.xs == self.cols
    }

    /// Start a sweep of the draft's expanded bounding box.
    pub fn new(draft: &Draft, scale: Fx, detail: Fx) -> (r: RasterState)
        requires
            draft.wf(),
            1 <= detail.raw <= COORD_MAX / 2,
            0 <= scale.raw <= crate::cloth::SCALE_MAX,
        ensures
            r.wf(),
            r.xs == 0,
            r.lines@ == draft.lines@,
            r.scale == scale,
            r.detail == detail,
    {
        let (min_b, max_b) = draft.get_bounds();
        proof {
            crate::drafting::lemma_fold_bounds(draft.lines@, draft.lines@.len() as int);
        }
        let cols = steps_for(min_b.x.raw, max_b.x.raw, detail.raw);
        let rows = steps_for(min_b.y.raw, max_b.y.raw, detail.raw);
        RasterState {
            lines: draft.lines.clone(),
            scale,
            detail,
            min_b,
            max_b,
            cols,
            rows,
            xs: 0,
            frags: Vec::new(),
        }
    }

    /// Sweep one column: test every row sample for interior parity and emit
    /// fragments with their accumulated attributes.
    pub fn column(&mut self)
        requires
            old(self).wf(),
            !old(self).done(),
        ensures
            final (self).wf(),
            final (self).xs == old(self).xs + 1,
            final (self).lines@ == old(self).lines@,
            final (self).scale == old(self).scale,
            final (self).detail == old(self).detail,
            final (self).min_b == old(self).min_b,
            final (self).max_b == old(self).max_b,
            final (self).cols == old(self).cols,
            final (self).rows == old(self).rows,
    {
        let d = self.detail.raw;
        let xs = self.xs;
        proof {
            assert(0 <= xs * d && xs * d <= (self.cols - 1) * d) by (nonlinear_arith)
                requires
                    0 <= xs <= self.cols - 1,
                    1 <= d,
            ;
        }
        let x: i64 = self.min_b.x.raw + xs * d;
        assert(x < self.max_b.x.raw);
        let threshold = Fx { raw: d + d / 2 };
        let mut ys: i64 = 0;
        while ys < self.rows
            invariant
                old(self).wf(),
                self.lines@ == old(self).lines@,
                self.scale == old(self).scale,
                self.detail == old(self).detail,
                self.min_b == old(self).min_b,
                self.max_b == old(self).max_b,
                self.cols == old(self).cols,
                self.rows == old(self).rows,
                self.xs == old(self).xs,
                xs == old(self).xs,
                d == old(self).detail.raw,
                x == self.min_b.x.raw + xs * d,
                0 <= xs < self.cols,
                mag(x as int) <= COORD_MAX as int,
                threshold.raw as int == threshold_of(d as int),
                0 <= threshold.raw <= COORD_MAX,
                0 <= ys <= self.rows,
                self.frags@ == cols_frags(
                    self.lines@,
                    self.scale,
                    d as int,
                    self.min_b,
                    self.rows as int,
                    xs as int,
                ) + row_frags(self.lines@, self.scale, d as int, self.min_b, xs as int, ys as int),
            decreases self.rows - ys,
        {
            proof {
                assert(0 <= ys * d && ys * d <= (self.rows - 1) * d) by (nonlinear_arith)
                    requires
                        0 <= ys <= self.rows - 1,
                        1 <= d,
                ;
            }
            let y: i64 = self.min_b.y.raw + ys * d;
            assert(y < self.max_b.y.raw);
            let point = Point2 { x: Fx { raw: x }, y: Fx { raw: y } };
            assert(point == sample_at(self.min_b, d as int, xs as int, ys as int));
            let crossings = count_crossings(&self.lines, point);
            if crossings % 2 == 1 {
                assert(interior(self.lines@, point));
                let at = collect_attrs(&self.lines, point, threshold);
                let frag = ClothSegmentFrag {
                    index: Index3 { x: xs, y: 0, z: ys },
                    position: Vec3 {
                        x: crate::fixed::scale_int(xs, self.scale),
                        y: Fx { raw: SCALE },
                        z: crate::fixed::scale_int(ys, self.scale),
                    },
                    velocity: Vec3::zero(),
                    pinned: at.pinned,
                    rigid: at.rigid,
                    link_vector: at.link_vector,
                    link_number: at.link_number,
                    line_id: at.line_id,
                };
                assert(frag == make_frag(
                    self.lines@,
                    self.scale,
                    d as int,
                    self.min_b,
                    xs as int,
                    ys as int,
                ));
                self.frags.push(frag);
            } else {
                assert(!interior(self.lines@, point));
            }
            ys = ys + 1;
        }
        self.xs = xs + 1;
        proof {
            assert(cols_frags(
                self.lines@,
                self.scale,
                d as int,
                self.min_b,
                self.rows as int,
                xs as int + 1,
            ) == cols_frags(self.lines@, self.scale, d as int, self.min_b, self.rows as int, xs as int)
                + row_frags(
                self.lines@,
                self.scale,
                d as int,
                self.min_b,
                xs as int,
                self.rows as int,
            ));
        }
    }
}

} // verus!
// What the sweep guarantees about its output: each fragment belongs to an
// interior sample, every interior sample is represented, and lattice
// indices never repeat.

verus! {

/// Members of one swept column: each fragment carries its own row, was
/// built for it, and its sample is interior; rows strictly increase; and
/// every interior row sample of the column is present.
pub proof fn lemma_row_members(lines: Seq<Line>, scale: Fx, d: int, minb: Point2, xs: int, ys: int)
    requires
        0 <= ys <= INDEX_MAX as int,
        0 <= xs <= INDEX_MAX as int,
    ensures
        forall|k: int|
            0 <= k < row_frags(lines, scale, d, minb, xs, ys).len() ==> {
                let f = #[trigger] row_frags(lines, scale, d, minb, xs, ys)[k];
                f.index.x == xs && 0 <= f.index.z < ys && f == make_frag(
                    lines,
                    scale,
                    d,
                    minb,
                    xs,
                    f.index.z as int,
                ) && interior(lines, sample_at(minb, d, xs, f.index.z as int))
            },
        forall|k1: int, k2: int|
            0 <= k1 < k2 < row_frags(lines, scale, d, minb, xs, ys).len() ==> row_frags(
                lines,
                scale,
                d,
                minb,
                xs,
                ys,
            )[k1].index.z < row_frags(lines, scale, d, minb, xs, ys)[k2].index.z,
        forall|y2: int|
            0 <= y2 < ys && interior(lines, #[trigger] sample_at(minb, d, xs, y2)) ==> row_frags(
                lines,
                scale,
                d,
                minb,
                xs,
                ys,
            ).contains(make_frag(lines, scale, d, minb, xs, y2)),
    decreases ys,
{
    if ys > 0 {
        lemma_row_members(lines, scale, d, minb, xs, ys - 1);
        let prev = row_frags(lines, scale, d, minb, xs, ys - 1);
        let cur = row_frags(lines, scale, d, minb, xs, ys);
        if interior(lines, sample_at(minb, d, xs, ys - 1)) {
            let nf = make_frag(lines, scale, d, minb, xs, ys - 1);
            assert(cur == prev.push(nf));
            assert(cur[prev.len() as int] == nf);
            assert(nf.index.z == ys - 1);
            assert forall|y2: int|
                0 <= y2 < ys && interior(lines, #[trigger] sample_at(minb, d, xs, y2))
                implies cur.contains(make_frag(lines, scale, d, minb, xs, y2)) by {
                if y2 == ys - 1 {
                    assert(cur[prev.len() as int] == make_frag(lines, scale, d, minb, xs, y2));
                } else {
                    assert(prev.contains(make_frag(lines, scale, d, minb, xs, y2)));
                    let k = choose|k: int|
                        0 <= k < prev.len() && prev[k] == make_frag(lines, scale, d, minb, xs, y2);
                    assert(cur[k] == make_frag(lines, scale, d, minb, xs, y2));
                }
            }
        } else {
            assert(cur == prev);
            assert forall|y2: int|
                0 <= y2 < ys && interior(lines, #[trigger] sample_at(minb, d, xs, y2))
                implies cur.contains(make_frag(lines, scale, d, minb, xs, y2)) by {
                assert(y2 != ys - 1);
                assert(prev.contains(make_frag(lines, scale, d, minb, xs, y2)));
            }
        }
    }
}

/// Members of the whole sweep: each fragment carries its own column and
/// row, was built for them, and its sample is interior; positions follow
/// the column-major order strictly; and every interior sample is present.
pub proof fn lemma_cols_members(
    lines: Seq<Line>,
    scale: Fx,
    d: int,
    minb: Point2,
    rows: int,
    xs: int,
)
    requires
        0 <= rows <= INDEX_MAX as int,
        0 <= xs <= INDEX_MAX as int,
    ensures
        forall|k: int|
            0 <= k < cols_frags(lines, scale, d, minb, rows, xs).len() ==> {
                let f = #[trigger] cols_frags(lines, scale, d, minb, rows, xs)[k];
                0 <= f.index.x < xs && 0 <= f.index.z < rows && f.index.y == 0 && f == make_frag(
                    lines,
                    scale,
                    d,
                    minb,
                    f.index.x as int,
                    f.index.z as int,
                ) && interior(lines, sample_at(minb, d, f.index.x as int, f.index.z as int))
            },
        forall|k1: int, k2: int|
            #![trigger cols_frags(lines, scale, d, minb, rows, xs)[k1], cols_frags(lines, scale, d, minb, rows, xs)[k2]]
            0 <= k1 < k2 < cols_frags(lines, scale, d, minb, rows, xs).len() ==> {
                let f1 = cols_frags(lines, scale, d, minb, rows, xs)[k1];
                let f2 = cols_frags(lines, scale, d, minb, rows, xs)[k2];
                f1.index.x < f2.index.x || (f1.index.x == f2.index.x && f1.index.z < f2.index.z)
            },
        forall|x2: int, y2: int|
            0 <= x2 < xs && 0 <= y2 < rows && interior(lines, #[trigger] sample_at(minb, d, x2, y2))
                ==> cols_frags(lines, scale, d, minb, rows, xs).contains(
                make_frag(lines, scale, d, minb, x2, y2),
            ),
    decreases xs,
{
    if xs > 0 {
        lemma_cols_members(lines, scale, d, minb, rows, xs - 1);
        lemma_row_members(lines, scale, d, minb, xs - 1, rows);
        let prev = cols_frags(lines, scale, d, minb, rows, xs - 1);
        let row = row_frags(lines, scale, d, minb, xs - 1, rows);
        let cur = cols_frags(lines, scale, d, minb, rows, xs);
        assert(cur == prev + row);
        assert(forall|k: int| 0 <= k < prev.len() ==> cur[k] == prev[k]);
        assert(forall|k: int|
            0 <= k < row.len() ==> cur[prev.len() + k] == row[k]);
        assert forall|k: int| 0 <= k < cur.len() implies {
            let f = #[trigger] cur[k];
            0 <= f.index.x < xs && 0 <= f.index.z < rows && f.index.y == 0 && f == make_frag(
                lines,
                scale,
                d,
                minb,
                f.index.x as int,
                f.index.z as int,
            ) && interior(lines, sample_at(minb, d, f.index.x as int, f.index.z as int))
        } by {
            if k < prev.len() {
                assert(cur[k] == prev[k]);
            } else {
                assert(cur[k] == row[k - prev.len()]);
            }
        }
        assert forall|x2: int, y2: int|
            0 <= x2 < xs && 0 <= y2 < rows && interior(lines, #[trigger] sample_at(minb, d, x2, y2))
            implies cur.contains(make_frag(lines, scale, d, minb, x2, y2)) by {
            let mf = make_frag(lines, scale, d, minb, x2, y2);
            if x2 == xs - 1 {
                assert(row.contains(mf));
                let k = choose|k: int| 0 <= k < row.len() && row[k] == mf;
                assert(cur[prev.len() + k] == mf);
            } else {
                assert(prev.contains(mf));
                let k = choose|k: int| 0 <= k < prev.len() && prev[k] == mf;
                assert(cur[k] == mf);
            }
        }
    }
}

/// Even-odd parity: over the swept grid, a fragment for grid coordinates
/// `(xs, ys)` is emitted exactly when the sample point is strictly interior
/// to the drafted regions under the even-odd rule.
pub proof fn lemma_even_odd_parity(
    lines: Seq<Line>,
    scale: Fx,
    d: int,
    minb: Point2,
    rows: int,
    cols: int,
    xs: int,
    ys: int,
)
    requires
        0 <= rows <= INDEX_MAX as int,
        0 <= cols <= INDEX_MAX as int,
        0 <= xs < cols,
        0 <= ys < rows,
    ensures
        interior(lines, sample_at(minb, d, xs, ys)) <==> cols_frags(
            lines,
            scale,
            d,
            minb,
            rows,
            cols,
        ).contains(make_frag(lines, scale, d, minb, xs, ys)),
{
    lemma_cols_members(lines, scale, d, minb, rows, cols);
    let all = cols_frags(lines, scale, d, minb, rows, cols);
    let mf = make_frag(lines, scale, d, minb, xs, ys);
    if all.contains(mf) {
        let k = choose|k: int| 0 <= k < all.len() && all[k] == mf;
        assert(all[k].index.x == xs && all[k].index.z == ys);
        assert(interior(lines, sample_at(minb, d, xs, ys)));
    }
}

/// No two emitted fragments share a lattice index.
pub proof fn lemma_frags_distinct(
    lines: Seq<Line>,
    scale: Fx,
    d: int,
    minb: Point2,
    rows: int,
    xs: int,
)
    requires
        0 <= rows <= INDEX_MAX as int,
        0 <= xs <= INDEX_MAX as int,
    ensures
        forall|k1: int, k2: int|
            0 <= k1 < k2 < cols_frags(lines, scale, d, minb, rows, xs).len() ==> cols_frags(
                lines,
                scale,
                d,
                minb,
                rows,
                xs,
            )[k1].index != cols_frags(lines, scale, d, minb, rows, xs)[k2].index,
{
    lemma_cols_members(lines, scale, d, minb, rows, xs);
}

} // verus!
