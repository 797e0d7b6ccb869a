//! The draft model: 2D line segments with selection flags, and the exact
//! geometric predicates the rasterizer asks of them.

use vstd::prelude::*;

use crate::fixed::Fx;
use crate::fixed::SCALE;
use crate::fixed::mag;
use crate::fixed::mul_wide;
use crate::fixed::sat64;
use crate::fixed::tdiv;
use crate::fixed::tdiv_i128;
use crate::geom::COORD_MAX;
use crate::geom::Point2;

verus! {

/// Largest raw magnitude a drafted line endpoint may carry: one whole unit
/// inside the general point range, so the expanded pattern bounding box and
/// every sample inside it stay representable points.
pub const LINE_MAX: i64 = COORD_MAX - SCALE;

} // verus!

verus! {

/// A drafted line segment with its attribute flags.
#[derive(Clone, Copy, Debug)]
pub struct Line {
    /// First endpoint.
    pub p1: Point2,
    /// Second endpoint.
    pub p2: Point2,
    /// Samples under this line are immovable.
    pub pinned: bool,
    /// Samples under this line are pulled toward a common height plane.
    pub rigid: bool,
    /// Selected in the drafting view.
    pub highlighted: bool,
    /// Seam pairing identifier: two lines with the same link id glue together.
    pub link: Option<u32>,
    /// Stable identity distinguishing the two lines of one link pair.
    pub line_id: usize,
}

/// Selection summary of a flag over the highlighted lines.
#[derive(Clone, Copy, Debug, PartialEq, Eq, Structural)]
pub enum Quadstate {
    /// Set on every highlighted line.
    On,
    /// Mixed over the highlighted lines.
    Maybe,
    /// Set on no highlighted line.
    Off,
    /// Nothing is highlighted.
    No,
}

impl Line {
    /// Both endpoints within the drafting range, one unit clear of the rim.
    pub open spec fn wf(self) -> bool {
        mag(self.p1.x.raw as int) <= LINE_MAX as int && mag(self.p1.y.raw as int) <= LINE_MAX as int
            && mag(self.p2.x.raw as int) <= LINE_MAX as int && mag(self.p2.y.raw as int)
            <= LINE_MAX as int
    }

    /// Raw x difference of the endpoints.
    pub open spec fn dx(self) -> int {
        self.p2.x.raw - self.p1.x.raw
    }

    /// Raw y difference of the endpoints.
    pub open spec fn dy(self) -> int {
        self.p2.y.raw - self.p1.y.raw
    }

    /// The cross product `ray x (p - p1)`, in squared raw units: positive
    /// when `p` lies to the left of the directed segment.
    pub open spec fn cross_at(self, p: Point2) -> int {
        self.dx() * (p.y.raw - self.p1.y.raw) - (p.x.raw - self.p1.x.raw) * self.dy()
    }

    /// `p.x` lies within the x-interval spanned by the endpoints, widened by
    /// `t` raw units on each side, strictly.
    pub open spec fn in_slice_spec(self, p: Point2, t: int) -> bool {
        let lo = if self.p1.x.raw < self.p2.x.raw {
            self.p1.x.raw as int
        } else {
            self.p2.x.raw as int
        };
        let hi = if self.p1.x.raw < self.p2.x.raw {
            self.p2.x.raw as int
        } else {
            self.p1.x.raw as int
        };
        lo - t < p.x.raw && (p.x.raw as int) < hi + t
    }

    /// `p.x` strictly within the x-interval of the endpoints, widened by `t`.
    pub fn in_slice(&self, point: Point2, threshold: Fx) -> (r: bool)
        requires
            self.wf(),
            point.bounded(),
            mag(threshold.raw as int) <= COORD_MAX as int,
        ensures
            r == self.in_slice_spec(point, threshold.raw as int),
    {
        if self.p1.x.raw - self.p2.x.raw > 0 {
            point.x.raw < self.p1.x.raw + threshold.raw && point.x.raw > self.p2.x.raw
                - threshold.raw
        } else {
            point.x.raw < self.p2.x.raw + threshold.raw && point.x.raw > self.p1.x.raw
                - threshold.raw
        }
    }

    /// Raw y value where the infinite line through the endpoints meets the
    /// vertical at `p.x`, truncated toward zero.
    pub open spec fn intersect_on_x_spec(self, p: Point2) -> int {
        sat64(self.p1.y.raw + tdiv((p.x.raw - self.p1.x.raw) * self.dy(), self.dx()))
    }

    /// The y value of the infinite line through the endpoints at `x = p.x`,
    /// or nothing for a vertical segment.
    pub fn get_intersect_on_x(&self, point: Point2) -> (r: Option<Fx>)
        requires
            self.wf(),
            point.bounded(),
        ensures
            r is None <==> self.dx() == 0,
            r is Some ==> r->0.raw as int == self.intersect_on_x_spec(point),
    {
        let dxr = self.p2.x.raw - self.p1.x.raw;
        if dxr == 0 {
            return None;
        }
        let num: i128 = mul_wide(point.x.raw - self.p1.x.raw, self.p2.y.raw - self.p1.y.raw);
        let q = tdiv_i128(num, dxr as i128);
        proof {
            let nv = (point.x.raw - self.p1.x.raw) * (self.p2.y.raw - self.p1.y.raw);
            assert(mag(nv) / mag(dxr as int) <= mag(nv)) by (nonlinear_arith)
                requires
                    mag(dxr as int) >= 1,
                    mag(nv) >= 0,
            ;
            assert(mag(nv) <= 0x4000_0000_0000_0000i128 as int) by (nonlinear_arith)
                requires
                    mag(point.x.raw - self.p1.x.raw) <= 0x8000_0000i128 as int,
                    mag(self.p2.y.raw - self.p1.y.raw) <= 0x8000_0000i128 as int,
                    nv == (point.x.raw - self.p1.x.raw) * (self.p2.y.raw - self.p1.y.raw),
            ;
            assert(q as int == tdiv(nv, dxr as int));
        }
        Some(Fx { raw: self.p1.y.raw }.add(Fx { raw: q }))
    }

    /// The upward vertical ray from `p` crosses this segment: `p.x` lies
    /// strictly inside the segment's x-interval and the segment passes
    /// strictly above `p`. This is the even-odd parity crossing test.
    pub open spec fn crosses_above(self, p: Point2) -> bool {
        let num = (self.p1.y.raw - p.y.raw) * self.dx() + (p.x.raw - self.p1.x.raw) * self.dy();
        self.in_slice_spec(p, 0) && num * self.dx() > 0
    }

    /// Exact crossing test for the upward ray from `point`.
    pub fn crosses_above_exec(&self, point: Point2) -> (r: bool)
        requires
            self.wf(),
            point.bounded(),
        ensures
            r == self.crosses_above(point),
    {
        let dxr: i64 = self.p2.x.raw - self.p1.x.raw;
        let dyr: i64 = self.p2.y.raw - self.p1.y.raw;
        let num: i128 = mul_wide(self.p1.y.raw - point.y.raw, dxr) + mul_wide(
            point.x.raw - self.p1.x.raw,
            dyr,
        );
        let sliced = self.in_slice(point, Fx { raw: 0 });
        let above = (num > 0 && dxr > 0) || (num < 0 && dxr < 0);
        proof {
            assert((num as int) * (dxr as int) > 0 <==> ((num as int) > 0 && (dxr as int) > 0) || ((
            num as int) < 0 && (dxr as int) < 0)) by (nonlinear_arith);
        }
        sliced && above
    }

    /// `p` lies in the oriented rectangle of half-width `t` raw units around
    /// the segment: strictly between the two end caps, and strictly closer
    /// to the carrying line than `t`.
    pub open spec fn hitbox_spec(self, p: Point2, t: int) -> bool {
        let dot1 = self.dx() * (p.x.raw - self.p1.x.raw) + self.dy() * (p.y.raw - self.p1.y.raw);
        let dot2 = self.dx() * (p.x.raw - self.p2.x.raw) + self.dy() * (p.y.raw - self.p2.y.raw);
        let cross = self.cross_at(p);
        let ray2 = self.dx() * self.dx() + self.dy() * self.dy();
        dot1 > 0 && dot2 < 0 && cross * cross < t * t * ray2
    }

    /// Membership in the oriented hitbox rectangle around the segment.
    pub fn hitbox(&self, point: Point2, threshold: Fx) -> (r: bool)
        requires
            self.wf(),
            point.bounded(),
            0 <= threshold.raw <= COORD_MAX,
        ensures
            r == self.hitbox_spec(point, threshold.raw as int),
    {
        let dxr: i64 = self.p2.x.raw - self.p1.x.raw;
        let dyr: i64 = self.p2.y.raw - self.p1.y.raw;
        let dot1: i128 = mul_wide(dxr, point.x.raw - self.p1.x.raw) + mul_wide(
            dyr,
            point.y.raw - self.p1.y.raw,
        );
        let dot2: i128 = mul_wide(dxr, point.x.raw - self.p2.x.raw) + mul_wide(
            dyr,
            point.y.raw - self.p2.y.raw,
        );
        let cross: i128 = mul_wide(dxr, point.y.raw - self.p1.y.raw) - mul_wide(
            point.x.raw - self.p1.x.raw,
            dyr,
        );
        let cross_mag: u128 = if cross < 0 {
            (-cross) as u128
        } else {
            cross as u128
        };
        assert(cross_mag as int <= 0x8000_0000_0000_0000i128 as int) by (nonlinear_arith)
            requires
                cross_mag as int == mag(cross as int),
                cross as int == (dxr as int) * ((point.y.raw - self.p1.y.raw) as int) - ((
                point.x.raw - self.p1.x.raw) as int) * (dyr as int),
                mag(dxr as int) <= 0x8000_0000i128 as int,
                mag(dyr as int) <= 0x8000_0000i128 as int,
                mag((point.y.raw - self.p1.y.raw) as int) <= 0x8000_0000i128 as int,
                mag((point.x.raw - self.p1.x.raw) as int) <= 0x8000_0000i128 as int,
        ;
        assert((cross_mag as int) * (cross_mag as int) <= (0x8000_0000_0000_0000i128 as int) * (
        0x8000_0000_0000_0000i128 as int)) by (nonlinear_arith)
            requires
                0 <= cross_mag as int <= 0x8000_0000_0000_0000i128 as int,
        ;
        let cross2: u128 = cross_mag * cross_mag;
        assert(cross2 as int == (cross as int) * (cross as int)) by (nonlinear_arith)
            requires
                cross_mag as int == mag(cross as int),
                cross2 as int == (cross_mag as int) * (cross_mag as int),
        ;
        let mx: u128 = if dxr < 0 {
            (-(dxr as i128)) as u128
        } else {
            dxr as u128
        };
        let my: u128 = if dyr < 0 {
            (-(dyr as i128)) as u128
        } else {
            dyr as u128
        };
        assert(mx as int * (mx as int) + my as int * (my as int) == (dxr as int) * (dxr as int)
            + (dyr as int) * (dyr as int) <= 2 * ((0x8000_0000i128 as int) * (0x8000_0000i128
            as int))) by (nonlinear_arith)
            requires
                mx as int == mag(dxr as int),
                my as int == mag(dyr as int),
                mx as int <= 0x8000_0000i128 as int,
                my as int <= 0x8000_0000i128 as int,
        ;
        let ray2: u128 = mx * mx + my * my;
        let tr: u128 = threshold.raw as u128;
        assert((tr as int) * (tr as int) <= (COORD_MAX as int) * (COORD_MAX as int))
            by (nonlinear_arith)
            requires
                0 <= tr as int <= COORD_MAX as int,
        ;
        let tt: u128 = tr * tr;
        assert(tt as int == (threshold.raw as int) * (threshold.raw as int));
        assert((tt as int) * (ray2 as int) <= ((COORD_MAX as int) * (COORD_MAX as int)) * (2 * ((
        0x8000_0000i128 as int) * (0x8000_0000i128 as int)))) by (nonlinear_arith)
            requires
                0 <= tt as int <= (COORD_MAX as int) * (COORD_MAX as int),
                0 <= ray2 as int <= 2 * ((0x8000_0000i128 as int) * (0x8000_0000i128 as int)),
        ;
        let bound: u128 = tt * ray2;
        dot1 > 0 && dot2 < 0 && cross2 < bound
    }

    /// Distance from `p` to the infinite carrying line, in raw units: the
    /// magnitude of the cross product over the segment length, truncated.
    /// Zero for a degenerate segment.
    pub open spec fn dist_spec(self, p: Point2) -> int {
        let ray2 = self.dx() * self.dx() + self.dy() * self.dy();
        if ray2 == 0 {
            0
        } else {
            sat64(mag(self.cross_at(p)) / crate::fixed::isqrt(ray2))
        }
    }

    /// Distance from `point` to the infinite line through the endpoints.
    pub fn dist(&self, point: Point2) -> (r: Fx)
        requires
            self.wf(),
            point.bounded(),
        ensures
            r.raw as int == self.dist_spec(point),
    {
        let dxr: i64 = self.p2.x.raw - self.p1.x.raw;
        let dyr: i64 = self.p2.y.raw - self.p1.y.raw;
        let ghost ray2 = (dxr as int) * (dxr as int) + (dyr as int) * (dyr as int);
        let n = crate::geom::norm2_raw(dxr, dyr);
        proof {
            assert(ray2 >= 0) by (nonlinear_arith)
                requires
                    ray2 == (dxr as int) * (dxr as int) + (dyr as int) * (dyr as int),
            ;
            crate::fixed::lemma_isqrt_exists(ray2);
            assert(crate::fixed::is_sqrt(ray2, crate::fixed::isqrt(ray2)));
            assert(ray2 <= 2 * ((0x8000_0000i128 as int) * (0x8000_0000i128 as int)))
                by (nonlinear_arith)
                requires
                    ray2 == (dxr as int) * (dxr as int) + (dyr as int) * (dyr as int),
                    mag(dxr as int) <= 0x8000_0000i128 as int,
                    mag(dyr as int) <= 0x8000_0000i128 as int,
            ;
            assert(crate::fixed::isqrt(ray2) <= 0x1_0000_0000i128 as int) by (nonlinear_arith)
                requires
                    0 <= crate::fixed::isqrt(ray2),
                    crate::fixed::isqrt(ray2) * crate::fixed::isqrt(ray2) <= ray2,
                    ray2 <= 2 * ((0x8000_0000i128 as int) * (0x8000_0000i128 as int)),
            ;
            assert(n.raw as int == crate::fixed::isqrt(ray2));
        }
        if n.raw == 0 {
            proof {
                let r0 = crate::fixed::isqrt(ray2);
                if r0 == 0 {
                    assert(ray2 < (r0 + 1) * (r0 + 1));
                    assert(ray2 < 1) by (nonlinear_arith)
                        requires
                            r0 == 0,
                            ray2 < (r0 + 1) * (r0 + 1),
                    ;
                }
            }
            return Fx { raw: 0 };
        }
        proof {
            let r0 = crate::fixed::isqrt(ray2);
            assert(r0 >= 1);
            assert(ray2 >= 1) by (nonlinear_arith)
                requires
                    r0 >= 1,
                    r0 * r0 <= ray2,
            ;
        }
        let cross: i128 = mul_wide(dxr, point.y.raw - self.p1.y.raw) - mul_wide(
            point.x.raw - self.p1.x.raw,
            dyr,
        );
        let cross_mag: u128 = if cross < 0 {
            (-cross) as u128
        } else {
            cross as u128
        };
        let q: u128 = cross_mag / (n.raw as u128);
        if q > i64::MAX as u128 {
            Fx { raw: i64::MAX }
        } else {
            Fx { raw: q as i64 }
        }
    }

    /// The two segments share an endpoint.
    pub fn partial_match(&self, other: &Line) -> (r: bool)
        ensures
            r == (self.p1 == other.p1 || self.p1 == other.p2 || self.p2 == other.p1 || self.p2
                == other.p2),
    {
        self.p1 == other.p1 || self.p1 == other.p2 || self.p2 == other.p1 || self.p2 == other.p2
    }
}

/// `point` lies strictly inside the axis-aligned rectangle spanned from
/// `root` by `size` (either corner order).
pub open spec fn rect_collision_spec(root: Point2, size: Point2, point: Point2) -> bool {
    let cx = root.x.raw + size.x.raw;
    let cy = root.y.raw + size.y.raw;
    let lo_x = if (root.x.raw as int) < cx {
        root.x.raw as int
    } else {
        cx
    };
    let hi_x = if (root.x.raw as int) < cx {
        cx
    } else {
        root.x.raw as int
    };
    let lo_y = if (root.y.raw as int) < cy {
        root.y.raw as int
    } else {
        cy
    };
    let hi_y = if (root.y.raw as int) < cy {
        cy
    } else {
        root.y.raw as int
    };
    lo_x < point.x.raw && (point.x.raw as int) < hi_x && lo_y < point.y.raw && (point.y.raw as int)
        < hi_y
}

/// Strict membership in the selection rectangle dragged from `root` by `size`.
pub fn rect_colision(root: Point2, size: Point2, point: Point2) -> (r: bool)
    ensures
        r == rect_collision_spec(root, size, point),
{
    let cx: i128 = root.x.raw as i128 + size.x.raw as i128;
    let cy: i128 = root.y.raw as i128 + size.y.raw as i128;
    let px = point.x.raw as i128;
    let py = point.y.raw as i128;
    let rx = root.x.raw as i128;
    let ry = root.y.raw as i128;
    let lo_x: i128 = if rx < cx {
        rx
    } else {
        cx
    };
    let hi_x: i128 = if rx < cx {
        cx
    } else {
        rx
    };
    let lo_y: i128 = if ry < cy {
        ry
    } else {
        cy
    };
    let hi_y: i128 = if ry < cy {
        cy
    } else {
        ry
    };
    lo_x < px && px < hi_x && lo_y < py && py < hi_y
}

/// Some line is highlighted.
pub open spec fn any_highlighted(s: Seq<Line>) -> bool {
    exists|i: int| 0 <= i < s.len() && (#[trigger] s[i]).highlighted
}

/// Every highlighted line has its pinned flag set.
pub open spec fn all_highlighted_pinned(s: Seq<Line>) -> bool {
    forall|i: int| 0 <= i < s.len() && (#[trigger] s[i]).highlighted ==> s[i].pinned
}

/// No highlighted line has its pinned flag set.
pub open spec fn no_highlighted_pinned(s: Seq<Line>) -> bool {
    forall|i: int| 0 <= i < s.len() && (#[trigger] s[i]).highlighted ==> !s[i].pinned
}

/// Every highlighted line has its rigid flag set.
pub open spec fn all_highlighted_rigid(s: Seq<Line>) -> bool {
    forall|i: int| 0 <= i < s.len() && (#[trigger] s[i]).highlighted ==> s[i].rigid
}

/// No highlighted line has its rigid flag set.
pub open spec fn no_highlighted_rigid(s: Seq<Line>) -> bool {
    forall|i: int| 0 <= i < s.len() && (#[trigger] s[i]).highlighted ==> !s[i].rigid
}

/// A line after a pin request: `pinned` is forced to `to` when highlighted.
pub open spec fn pin_line(l: Line, to: bool) -> Line {
    Line { pinned: if l.highlighted {
        to
    } else {
        l.pinned
    }, ..l }
}

/// A line after a rigid request.
pub open spec fn rigid_line(l: Line, to: bool) -> Line {
    Line { rigid: if l.highlighted {
        to
    } else {
        l.rigid
    }, ..l }
}

/// A line after a link request.
pub open spec fn link_line(l: Line, to: Option<u32>) -> Line {
    Line { link: if l.highlighted {
        to
    } else {
        l.link
    }, ..l }
}

/// An ordered pattern of drafted lines, with the next seam link id.
#[derive(Clone, Debug)]
pub struct Draft {
    /// The drafted segments, in drawing order.
    pub lines: Vec<Line>,
    /// Monotonic counter handed out when new links are made.
    pub current_link: u32,
}

/// Minimum raw x over the endpoints of the first `n` lines, starting from
/// the far-plus sentinel.
pub open spec fn min_x_upto(s: Seq<Line>, n: int) -> int
    decreases n,
{
    if n <= 0 {
        i64::MAX as int
    } else {
        let prev = min_x_upto(s, n - 1);
        let a = if s[n - 1].p1.x.raw < s[n - 1].p2.x.raw {
            s[n - 1].p1.x.raw as int
        } else {
            s[n - 1].p2.x.raw as int
        };
        if a < prev {
            a
        } else {
            prev
        }
    }
}

/// Minimum raw y over the endpoints of the first `n` lines.
pub open spec fn min_y_upto(s: Seq<Line>, n: int) -> int
    decreases n,
{
    if n <= 0 {
        i64::MAX as int
    } else {
        let prev = min_y_upto(s, n - 1);
        let a = if s[n - 1].p1.y.raw < s[n - 1].p2.y.raw {
            s[n - 1].p1.y.raw as int
        } else {
            s[n - 1].p2.y.raw as int
        };
        if a < prev {
            a
        } else {
            prev
        }
    }
}

/// Maximum raw x over the endpoints of the first `n` lines, starting from
/// the far-minus sentinel.
pub open spec fn max_x_upto(s: Seq<Line>, n: int) -> int
    decreases n,
{
    if n <= 0 {
        i64::MIN as int
    } else {
        let prev = max_x_upto(s, n - 1);
        let a = if s[n - 1].p1.x.raw > s[n - 1].p2.x.raw {
            s[n - 1].p1.x.raw as int
        } else {
            s[n - 1].p2.x.raw as int
        };
        if a > prev {
            a
        } else {
            prev
        }
    }
}

/// Maximum raw y over the endpoints of the first `n` lines.
pub open spec fn max_y_upto(s: Seq<Line>, n: int) -> int
    decreases n,
{
    if n <= 0 {
        i64::MIN as int
    } else {
        let prev = max_y_upto(s, n - 1);
        let a = if s[n - 1].p1.y.raw > s[n - 1].p2.y.raw {
            s[n - 1].p1.y.raw as int
        } else {
            s[n - 1].p2.y.raw as int
        };
        if a > prev {
            a
        } else {
            prev
        }
    }
}

/// The running bound folds are either still the sentinel or as bounded as
/// the endpoints they were built from.
pub proof fn lemma_fold_bounds(s: Seq<Line>, n: int)
    requires
        0 <= n <= s.len(),
        forall|i: int| 0 <= i < s.len() ==> (#[trigger] s[i]).wf(),
    ensures
        min_x_upto(s, n) == i64::MAX as int || mag(min_x_upto(s, n)) <= LINE_MAX as int,
        min_y_upto(s, n) == i64::MAX as int || mag(min_y_upto(s, n)) <= LINE_MAX as int,
        max_x_upto(s, n) == i64::MIN as int || mag(max_x_upto(s, n)) <= LINE_MAX as int,
        max_y_upto(s, n) == i64::MIN as int || mag(max_y_upto(s, n)) <= LINE_MAX as int,
    decreases n,
{
    if n > 0 {
        lemma_fold_bounds(s, n - 1);
        assert(s[n - 1].wf());
    }
}

impl Draft {
    /// Every line within the drafting range.
    pub open spec fn wf(self) -> bool {
        forall|i: int| 0 <= i < self.lines@.len() ==> (#[trigger] self.lines@[i]).wf()
    }

    /// An empty draft.
    pub fn empty() -> (r: Draft)
        ensures
            r.lines@.len() == 0,
            r.current_link == 1u32,
            r.wf(),
    {
        Draft { lines: Vec::new(), current_link: 1 }
    }

    /// The pattern bounding box, expanded by one whole unit on each side.
    /// For an empty draft the sentinels leave an inverted (empty) box.
    pub fn get_bounds(&self) -> (r: (Point2, Point2))
        requires
            self.wf(),
        ensures
            r.0.x.raw as int == min_x_upto(self.lines@, self.lines@.len() as int) - SCALE as int,
            r.0.y.raw as int == min_y_upto(self.lines@, self.lines@.len() as int) - SCALE as int,
            r.1.x.raw as int == max_x_upto(self.lines@, self.lines@.len() as int) + SCALE as int,
            r.1.y.raw as int == max_y_upto(self.lines@, self.lines@.len() as int) + SCALE as int,
    {
        let mut min_x: i64 = i64::MAX;
        let mut min_y: i64 = i64::MAX;
        let mut max_x: i64 = i64::MIN;
        let mut max_y: i64 = i64::MIN;
        let n = self.lines.len();
        let mut i: usize = 0;
        while i < n
            invariant
                self.wf(),
                n == self.lines@.len(),
                0 <= i <= n,
                min_x as int == min_x_upto(self.lines@, i as int),
                min_y as int == min_y_upto(self.lines@, i as int),
                max_x as int == max_x_upto(self.lines@, i as int),
                max_y as int == max_y_upto(self.lines@, i as int),
                min_x == i64::MAX || mag(min_x as int) <= COORD_MAX as int,
                min_y == i64::MAX || mag(min_y as int) <= COORD_MAX as int,
                max_x == i64::MIN || mag(max_x as int) <= COORD_MAX as int,
                max_y == i64::MIN || mag(max_y as int) <= COORD_MAX as int,
            decreases n - i,
        {
            let l = self.lines[i];
            assert(l.wf());
            if l.p1.x.raw < min_x && l.p1.x.raw <= l.p2.x.raw {
                min_x = l.p1.x.raw;
            } else if l.p2.x.raw < min_x && l.p2.x.raw < l.p1.x.raw {
                min_x = l.p2.x.raw;
            }
            if l.p1.y.raw < min_y && l.p1.y.raw <= l.p2.y.raw {
                min_y = l.p1.y.raw;
            } else if l.p2.y.raw < min_y && l.p2.y.raw < l.p1.y.raw {
                min_y = l.p2.y.raw;
            }
            if l.p1.x.raw > max_x && l.p1.x.raw >= l.p2.x.raw {
                max_x = l.p1.x.raw;
            } else if l.p2.x.raw > max_x && l.p2.x.raw > l.p1.x.raw {
                max_x = l.p2.x.raw;
            }
            if l.p1.y.raw > max_y && l.p1.y.raw >= l.p2.y.raw {
                max_y = l.p1.y.raw;
            } else if l.p2.y.raw > max_y && l.p2.y.raw > l.p1.y.raw {
                max_y = l.p2.y.raw;
            }
            i = i + 1;
        }
        (
            Point2 { x: Fx { raw: min_x - SCALE }, y: Fx { raw: min_y - SCALE } },
            Point2 { x: Fx { raw: max_x + SCALE }, y: Fx { raw: max_y + SCALE } },
        )
    }

    /// Force the pinned flag of every highlighted line to `to`.
    pub fn pin(&mut self, to: bool)
        ensures
            final (self).lines@.len() == old(self).lines@.len(),
            forall|i: int|
                0 <= i < old(self).lines@.len() ==> final (self).lines@[i] == pin_line(
                    old(self).lines@[i],
                    to,
                ),
            final (self).current_link == old(self).current_link,
    {
        let n = self.lines.len();
        let mut i: usize = 0;
        while i < n
            invariant
                n == self.lines@.len(),
                0 <= i <= n,
                self.current_link == old(self).current_link,
                old(self).lines@.len() == n,
                forall|j: int| 0 <= j < i ==> self.lines@[j] == pin_line(old(self).lines@[j], to),
                forall|j: int| i <= j < n ==> self.lines@[j] == old(self).lines@[j],
            decreases n - i,
        {
            if self.lines[i].highlighted {
                let mut l = self.lines[i];
                l.pinned = to;
                self.lines.set(i, l);
            }
            i = i + 1;
        }
    }

    /// Force the rigid flag of every highlighted line to `to`.
    pub fn rigid(&mut self, to: bool)
        ensures
            final (self).lines@.len() == old(self).lines@.len(),
            forall|i: int|
                0 <= i < old(self).lines@.len() ==> final (self).lines@[i] == rigid_line(
                    old(self).lines@[i],
                    to,
                ),
            final (self).current_link == old(self).current_link,
    {
        let n = self.lines.len();
        let mut i: usize = 0;
        while i < n
            invariant
                n == self.lines@.len(),
                0 <= i <= n,
                self.current_link == old(self).current_link,
                old(self).lines@.len() == n,
                forall|j: int| 0 <= j < i ==> self.lines@[j] == rigid_line(old(self).lines@[j], to),
                forall|j: int| i <= j < n ==> self.lines@[j] == old(self).lines@[j],
            decreases n - i,
        {
            if self.lines[i].highlighted {
                let mut l = self.lines[i];
                l.rigid = to;
                self.lines.set(i, l);
            }
            i = i + 1;
        }
    }

    /// Set (or clear) the seam link id of every highlighted line.
    pub fn link(&mut self, to: Option<u32>)
        ensures
            final (self).lines@.len() == old(self).lines@.len(),
            forall|i: int|
                0 <= i < old(self).lines@.len() ==> final (self).lines@[i] == link_line(
                    old(self).lines@[i],
                    to,
                ),
            final (self).current_link == old(self).current_link,
    {
        let n = self.lines.len();
        let mut i: usize = 0;
        while i < n
            invariant
                n == self.lines@.len(),
                0 <= i <= n,
                self.current_link == old(self).current_link,
                old(self).lines@.len() == n,
                forall|j: int| 0 <= j < i ==> self.lines@[j] == link_line(old(self).lines@[j], to),
                forall|j: int| i <= j < n ==> self.lines@[j] == old(self).lines@[j],
            decreases n - i,
        {
            if self.lines[i].highlighted {
                let mut l = self.lines[i];
                l.link = to;
                self.lines.set(i, l);
            }
            i = i + 1;
        }
    }

    /// Summary of the pinned flag over the highlighted lines.
    pub fn get_pin_status(&self) -> (r: Quadstate)
        ensures
            (r == Quadstate::No) == !any_highlighted(self.lines@),
            (r == Quadstate::On) == (any_highlighted(self.lines@) && all_highlighted_pinned(
                self.lines@,
            )),
            (r == Quadstate::Off) == (any_highlighted(self.lines@) && no_highlighted_pinned(
                self.lines@,
            ) && !all_highlighted_pinned(self.lines@)),
            (r == Quadstate::Maybe) == (any_highlighted(self.lines@) && !all_highlighted_pinned(
                self.lines@,
            ) && !no_highlighted_pinned(self.lines@)),
    {
        let mut all_false = true;
        let mut all_true = true;
        let mut any = false;
        let n = self.lines.len();
        let mut i: usize = 0;
        while i < n
            invariant
                n == self.lines@.len(),
                0 <= i <= n,
                any == (exists|j: int|
                    0 <= j < i && (#[trigger] self.lines@[j]).highlighted),
                all_true == (forall|j: int|
                    0 <= j < i && (#[trigger] self.lines@[j]).highlighted
                        ==> self.lines@[j].pinned),
                all_false == (forall|j: int|
                    0 <= j < i && (#[trigger] self.lines@[j]).highlighted
                        ==> !self.lines@[j].pinned),
            decreases n - i,
        {
            let l = self.lines[i];
            if l.highlighted && l.pinned {
                all_false = false;
            } else if l.highlighted && !l.pinned {
                all_true = false;
            }
            if l.highlighted {
                any = true;
            }
            i = i + 1;
        }
        if !any {
            Quadstate::No
        } else if all_true {
            Quadstate::On
        } else if all_false {
            Quadstate::Off
        } else {
            Quadstate::Maybe
        }
    }

    /// Summary of the rigid flag over the highlighted lines.
    pub fn get_rigid_status(&self) -> (r: Quadstate)
        ensures
            (r == Quadstate::No) == !any_highlighted(self.lines@),
            (r == Quadstate::On) == (any_highlighted(self.lines@) && all_highlighted_rigid(
                self.lines@,
            )),
            (r == Quadstate::Off) == (any_highlighted(self.lines@) && no_highlighted_rigid(
                self.lines@,
            ) && !all_highlighted_rigid(self.lines@)),
            (r == Quadstate::Maybe) == (any_highlighted(self.lines@) && !all_highlighted_rigid(
                self.lines@,
            ) && !no_highlighted_rigid(self.lines@)),
    {
        let mut all_false = true;
        let mut all_true = true;
        let mut any = false;
        let n = self.lines.len();
        let mut i: usize = 0;
        while i < n
            invariant
                n == self.lines@.len(),
                0 <= i <= n,
                any == (exists|j: int|
                    0 <= j < i && (#[trigger] self.lines@[j]).highlighted),
                all_true == (forall|j: int|
                    0 <= j < i && (#[trigger] self.lines@[j]).highlighted ==> self.lines@[j].rigid),
                all_false == (forall|j: int|
                    0 <= j < i && (#[trigger] self.lines@[j]).highlighted
                        ==> !self.lines@[j].rigid),
            decreases n - i,
        {
            let l = self.lines[i];
            if l.highlighted && l.rigid {
                all_false = false;
            } else if l.highlighted && !l.rigid {
                all_true = false;
            }
            if l.highlighted {
                any = true;
            }
            i = i + 1;
        }
        if !any {
            Quadstate::No
        } else if all_true {
            Quadstate::On
        } else if all_false {
            Quadstate::Off
        } else {
            Quadstate::Maybe
        }
    }
}

} // verus!
