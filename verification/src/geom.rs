//! Geometric primitives: 2D points, 3D vectors and 3D lattice indices.

use vstd::prelude::*;

use crate::fixed::Fx;
use crate::fixed::SCALE;
use crate::fixed::isqrt;
use crate::fixed::isqrt_u128;
use crate::fixed::lemma_isqrt_is;
use crate::fixed::mag;
use crate::fixed::sat64;

verus! {

/// Largest raw magnitude a drafted coordinate may carry; keeps every
/// intermediate of the exact geometric predicates inside an `i128`.
pub const COORD_MAX: i64 = 0x3FFF_FFFF;

/// Largest magnitude a lattice index component may carry.
pub const INDEX_MAX: i64 = 0x8000_0000;

/// A point of the 2D drafting plane.
#[derive(Clone, Copy, PartialEq, Eq, Structural, Debug)]
pub struct Point2 {
    pub x: Fx,
    pub y: Fx,
}

/// A point or velocity of the simulated 3D world.
#[derive(Clone, Copy, PartialEq, Eq, Structural, Debug)]
pub struct Vec3 {
    pub x: Fx,
    pub y: Fx,
    pub z: Fx,
}

/// A 3D integer lattice index.
#[derive(Clone, Copy, PartialEq, Eq, Structural, Debug)]
pub struct Index3 {
    pub x: i64,
    pub y: i64,
    pub z: i64,
}

impl Point2 {
    /// Both coordinates within the drafting range.
    pub open spec fn bounded(self) -> bool {
        mag(self.x.raw as int) <= COORD_MAX as int && mag(self.y.raw as int) <= COORD_MAX as int
    }
}

impl Vec3 {
    /// The zero vector.
    pub fn zero() -> (r: Vec3)
        ensures
            r.x.raw == 0 && r.y.raw == 0 && r.z.raw == 0,
    {
        Vec3 { x: Fx { raw: 0 }, y: Fx { raw: 0 }, z: Fx { raw: 0 } }
    }

    /// Componentwise saturating sum.
    pub fn add(self, o: Vec3) -> (r: Vec3)
        ensures
            r.x.raw as int == sat64(self.x.raw + o.x.raw),
            r.y.raw as int == sat64(self.y.raw + o.y.raw),
            r.z.raw as int == sat64(self.z.raw + o.z.raw),
    {
        Vec3 { x: self.x.add(o.x), y: self.y.add(o.y), z: self.z.add(o.z) }
    }

    /// Componentwise saturating difference.
    pub fn sub(self, o: Vec3) -> (r: Vec3)
        ensures
            r.x.raw as int == sat64(self.x.raw - o.x.raw),
            r.y.raw as int == sat64(self.y.raw - o.y.raw),
            r.z.raw as int == sat64(self.z.raw - o.z.raw),
    {
        Vec3 { x: self.x.sub(o.x), y: self.y.sub(o.y), z: self.z.sub(o.z) }
    }

    /// Euclidean length, truncated to the fixed-point grid.
    pub fn length(self) -> (r: Fx)
        ensures
            r.raw as int == sat64(
                isqrt(
                    (self.x.raw as int) * (self.x.raw as int) + (self.y.raw as int) * (self.y.raw
                        as int) + (self.z.raw as int) * (self.z.raw as int),
                ),
            ),
    {
        norm3_raw(self.x.raw, self.y.raw, self.z.raw)
    }
}

/// The squared magnitude of an `i64`, exactly, as a `u128`.
pub(crate) fn square_u128(x: i64) -> (r: u128)
    ensures
        r as int == (x as int) * (x as int),
        r <= 0x4000_0000_0000_0000_0000_0000_0000_0000u128,
{
    let m: u128 = if x < 0 {
        (-(x as i128)) as u128
    } else {
        x as u128
    };
    assert((m as int) * (m as int) == (x as int) * (x as int)) by (nonlinear_arith)
        requires
            m as int == mag(x as int),
    ;
    assert((m as int) * (m as int) <= (0x8000_0000_0000_0000u128 as int) * (
    0x8000_0000_0000_0000u128 as int)) by (nonlinear_arith)
        requires
            0 <= m as int <= 0x8000_0000_0000_0000u128 as int,
    ;
    m * m
}

/// Length of a 3D raw-unit vector: the clamped integer square root of the
/// sum of the squared components.
pub fn norm3_raw(x: i64, y: i64, z: i64) -> (r: Fx)
    ensures
        r.raw as int == sat64(
            isqrt((x as int) * (x as int) + (y as int) * (y as int) + (z as int) * (z as int)),
        ),
{
    let n: u128 = square_u128(x) + square_u128(y) + square_u128(z);
    let s = isqrt_u128(n);
    if s > i64::MAX as u128 {
        proof {
            lemma_isqrt_is(n as int, s as int);
        }
        Fx { raw: i64::MAX }
    } else {
        Fx { raw: s as i64 }
    }
}

/// Length of a 2D raw-unit vector.
pub fn norm2_raw(x: i64, y: i64) -> (r: Fx)
    ensures
        r.raw as int == sat64(isqrt((x as int) * (x as int) + (y as int) * (y as int))),
{
    let n: u128 = square_u128(x) + square_u128(y);
    let s = isqrt_u128(n);
    if s > i64::MAX as u128 {
        Fx { raw: i64::MAX }
    } else {
        Fx { raw: s as i64 }
    }
}

/// `a` lies in the cube of half-edge `k` centred on `c`.
pub open spec fn in_cube(c: Index3, a: Index3, k: int) -> bool {
    mag(a.x - c.x) <= k && mag(a.y - c.y) <= k && mag(a.z - c.z) <= k
}

/// Strict lexicographic order on lattice indices, by x, then y, then z:
/// the sweep order of the neighborhood cube.
pub open spec fn index_lex_lt(a: Index3, b: Index3) -> bool {
    a.x < b.x || (a.x == b.x && (a.y < b.y || (a.y == b.y && a.z < b.z)))
}

impl Index3 {
    /// All components within the lattice range.
    pub open spec fn bounded(self) -> bool {
        mag(self.x as int) <= INDEX_MAX as int && mag(self.y as int) <= INDEX_MAX as int && mag(
            self.z as int,
        ) <= INDEX_MAX as int
    }

    /// Componentwise difference.
    pub fn sub(self, v: Index3) -> (r: Index3)
        requires
            self.bounded(),
            v.bounded(),
        ensures
            r.x == self.x - v.x,
            r.y == self.y - v.y,
            r.z == self.z - v.z,
    {
        Index3 { x: self.x - v.x, y: self.y - v.y, z: self.z - v.z }
    }

    /// Componentwise sum.
    pub fn add(self, v: Index3) -> (r: Index3)
        requires
            self.bounded(),
            v.bounded(),
        ensures
            r.x == self.x + v.x,
            r.y == self.y + v.y,
            r.z == self.z + v.z,
    {
        Index3 { x: self.x + v.x, y: self.y + v.y, z: self.z + v.z }
    }

    /// The raw length of this index scaled up by one whole fixed-point unit:
    /// the rest distance, in raw units per unit of world scale.
    pub open spec fn length_spec(self) -> int {
        sat64(
            isqrt(
                ((self.x as int) * (self.x as int) + (self.y as int) * (self.y as int) + (self.z
                    as int) * (self.z as int)) * (SCALE as int) * (SCALE as int),
            ),
        )
    }

    /// Euclidean length of the lattice index, as a fixed-point scalar.
    pub fn length(&self) -> (r: Fx)
        requires
            self.bounded(),
        ensures
            r.raw as int == self.length_spec(),
    {
        let n2: u128 = square_u128(self.x) + square_u128(self.y) + square_u128(self.z);
        assert(n2 as int <= 3 * ((INDEX_MAX as int) * (INDEX_MAX as int))) by (nonlinear_arith)
            requires
                n2 as int == (self.x as int) * (self.x as int) + (self.y as int) * (self.y as int)
                    + (self.z as int) * (self.z as int),
                mag(self.x as int) <= INDEX_MAX as int,
                mag(self.y as int) <= INDEX_MAX as int,
                mag(self.z as int) <= INDEX_MAX as int,
        ;
        let scaled: u128 = n2 * (SCALE as u128) * (SCALE as u128);
        assert(scaled as int == ((self.x as int) * (self.x as int) + (self.y as int) * (self.y
            as int) + (self.z as int) * (self.z as int)) * (SCALE as int) * (SCALE as int))
            by (nonlinear_arith)
            requires
                n2 as int == (self.x as int) * (self.x as int) + (self.y as int) * (self.y as int)
                    + (self.z as int) * (self.z as int),
                n2 as int <= 3 * ((INDEX_MAX as int) * (INDEX_MAX as int)),
                scaled as int == (n2 as int) * (SCALE as int) * (SCALE as int),
        ;
        let s = isqrt_u128(scaled);
        if s > i64::MAX as u128 {
            Fx { raw: i64::MAX }
        } else {
            Fx { raw: s as i64 }
        }
    }

    /// The lattice cube of half-edge `stiffness` around `self`, in sweep
    /// order, together with the six second-ring axis neighbours.
    pub fn get_neighbors(&self, stiffness: u32) -> (r: (Vec<Index3>, Vec<Index3>))
        requires
            self.bounded(),
            stiffness <= 100,
        ensures
            forall|j: int|
                0 <= j < r.0@.len() ==> #[trigger] in_cube(*self, r.0@[j], stiffness as int),
            forall|a: Index3| in_cube(*self, a, stiffness as int) ==> #[trigger] r.0@.contains(a),
            forall|j1: int, j2: int|
                0 <= j1 < j2 < r.0@.len() ==> index_lex_lt(#[trigger] r.0@[j1], #[trigger] r.0@[j2]),
            forall|j1: int, j2: int|
                0 <= j1 < j2 < r.0@.len() ==> #[trigger] r.0@[j1] != #[trigger] r.0@[j2],
            r.1@.len() == 6,
            forall|j: int| 0 <= j < 6 ==> (#[trigger] r.1@[j]) == self.second_ring(j),
    {
        let k = stiffness as i64;
        let mut neighbors: Vec<Index3> = Vec::new();
        let ghost kk = stiffness as int;
        let mut dx: i64 = -k;
        while dx <= k
            invariant
                self.bounded(),
                0 <= kk <= 100,
                k == kk,
                -kk <= dx as int <= kk + 1,
                forall|j: int|
                    0 <= j < neighbors@.len() ==> #[trigger] in_cube(*self, neighbors@[j], kk),
                forall|a: Index3|
                    (in_cube(*self, a, kk) && a.x - self.x < dx) ==> #[trigger] neighbors@.contains(
                        a,
                    ),
                forall|j: int| 0 <= j < neighbors@.len() ==> (#[trigger] neighbors@[j]).x < self.x + dx,
                forall|j1: int, j2: int|
                    0 <= j1 < j2 < neighbors@.len() ==> index_lex_lt(
                        #[trigger] neighbors@[j1],
                        #[trigger] neighbors@[j2],
                    ),
            decreases k + 1 - dx,
        {
            let mut dy: i64 = -k;
            while dy <= k
                invariant
                    self.bounded(),
                    0 <= kk <= 100,
                    k == kk,
                    -kk <= dx as int <= kk,
                    -kk <= dy as int <= kk + 1,
                    forall|j: int|
                        0 <= j < neighbors@.len() ==> #[trigger] in_cube(*self, neighbors@[j], kk),
                    forall|a: Index3|
                        (in_cube(*self, a, kk) && (a.x - self.x < dx || (a.x - self.x == dx && a.y
                            - self.y < dy))) ==> #[trigger] neighbors@.contains(a),
                    forall|j: int|
                        0 <= j < neighbors@.len() ==> {
                            let a = #[trigger] neighbors@[j];
                            a.x < self.x + dx || (a.x == self.x + dx && a.y < self.y + dy)
                        },
                    forall|j1: int, j2: int|
                        0 <= j1 < j2 < neighbors@.len() ==> index_lex_lt(
                            #[trigger] neighbors@[j1],
                            #[trigger] neighbors@[j2],
                        ),
                decreases k + 1 - dy,
            {
                let mut dz: i64 = -k;
                while dz <= k
                    invariant
                        self.bounded(),
                        0 <= kk <= 100,
                        k == kk,
                        -kk <= dx as int <= kk,
                        -kk <= dy as int <= kk,
                        -kk <= dz as int <= kk + 1,
                        forall|j: int|
                            0 <= j < neighbors@.len() ==> #[trigger] in_cube(
                                *self,
                                neighbors@[j],
                                kk,
                            ),
                        forall|a: Index3|
                            (in_cube(*self, a, kk) && (a.x - self.x < dx || (a.x - self.x == dx && (
                            a.y - self.y < dy || (a.y - self.y == dy && a.z - self.z < dz)))))
                                ==> #[trigger] neighbors@.contains(a),
                        forall|j: int|
                            0 <= j < neighbors@.len() ==> {
                                let a = #[trigger] neighbors@[j];
                                a.x < self.x + dx || (a.x == self.x + dx && (a.y < self.y + dy || (
                                a.y == self.y + dy && a.z < self.z + dz)))
                            },
                        forall|j1: int, j2: int|
                            0 <= j1 < j2 < neighbors@.len() ==> index_lex_lt(
                                #[trigger] neighbors@[j1],
                                #[trigger] neighbors@[j2],
                            ),
                    decreases k + 1 - dz,
                {
                    let nb = Index3 { x: self.x + dx, y: self.y + dy, z: self.z + dz };
                    let ghost prev = neighbors@;
                    neighbors.push(nb);
                    proof {
                        assert(neighbors@ == prev.push(nb));
                        assert(neighbors@[prev.len() as int] == nb);
                        assert forall|a: Index3|
                            in_cube(*self, a, kk) && (a.x - self.x < dx || (a.x - self.x == dx && (
                            a.y - self.y < dy || (a.y - self.y == dy && a.z - self.z < dz
                                + 1)))) implies #[trigger] neighbors@.contains(a) by {
                            if a.x - self.x == dx && a.y - self.y == dy && a.z - self.z == dz {
                                assert(a == nb);
                                assert(neighbors@[prev.len() as int] == a);
                            } else {
                                assert(prev.contains(a));
                                let j = choose|j: int| 0 <= j < prev.len() && prev[j] == a;
                                assert(neighbors@[j] == a);
                            }
                        }
                    }
                    dz = dz + 1;
                }
                dy = dy + 1;
            }
            dx = dx + 1;
        }
        proof {
            assert(forall|a: Index3|
                in_cube(*self, a, kk) ==> (a.x - self.x < dx || (a.x - self.x == dx)));
        }
        let second: Vec<Index3> = vec![
            Index3 { x: self.x + 2, y: self.y, z: self.z },
            Index3 { x: self.x - 2, y: self.y, z: self.z },
            Index3 { x: self.x, y: self.y + 2, z: self.z },
            Index3 { x: self.x, y: self.y - 2, z: self.z },
            Index3 { x: self.x, y: self.y, z: self.z + 2 },
            Index3 { x: self.x, y: self.y, z: self.z - 2 },
        ];
        (neighbors, second)
    }

    /// The `j`-th second-ring axis neighbour.
    pub open spec fn second_ring(self, j: int) -> Index3 {
        if j == 0 {
            Index3 { x: (self.x + 2) as i64, y: self.y, z: self.z }
        } else if j == 1 {
            Index3 { x: (self.x - 2) as i64, y: self.y, z: self.z }
        } else if j == 2 {
            Index3 { x: self.x, y: (self.y + 2) as i64, z: self.z }
        } else if j == 3 {
            Index3 { x: self.x, y: (self.y - 2) as i64, z: self.z }
        } else if j == 4 {
            Index3 { x: self.x, y: self.y, z: (self.z + 2) as i64 }
        } else {
            Index3 { x: self.x, y: self.y, z: (self.z - 2) as i64 }
        }
    }
}

} // verus!
