//! Section segmentation: flood-filling the fragment set over the
//! 26-connected integer lattice to partition it into disjoint pattern
//! pieces.

use vstd::prelude::*;

use crate::cloth::Cloth;
use crate::geom::Index3;
use crate::geom::in_cube;

verus! {

/// 26-neighborhood adjacency: the indices differ by at most one in every
/// component.
pub open spec fn adjacent(a: Index3, b: Index3) -> bool {
    in_cube(a, b, 1)
}

/// `p` is a path of ordinals from `a` to `b` whose successive lattice
/// indices are 26-adjacent.
pub open spec fn is_path(idxs: Seq<Index3>, p: Seq<int>, a: int, b: int) -> bool {
    &&& p.len() >= 1
    &&& p[0] == a
    &&& p[p.len() - 1] == b
    &&& forall|i: int| 0 <= i < p.len() ==> 0 <= #[trigger] p[i] < idxs.len()
    &&& forall|i: int|
        0 <= i < p.len() - 1 ==> adjacent(idxs[#[trigger] p[i]], idxs[p[i + 1]])
}

/// Some 26-adjacent path of fragments joins `a` to `b`.
pub open spec fn connected(idxs: Seq<Index3>, a: int, b: int) -> bool {
    exists|p: Seq<int>| is_path(idxs, p, a, b)
}

/// Every ordinal is connected to itself.
pub proof fn lemma_connected_refl(idxs: Seq<Index3>, a: int)
    requires
        0 <= a < idxs.len(),
    ensures
        connected(idxs, a, a),
{
    let p = seq![a];
    assert(is_path(idxs, p, a, a));
}

/// A connection extends across one adjacency step.
pub proof fn lemma_connected_step(idxs: Seq<Index3>, a: int, b: int, c: int)
    requires
        connected(idxs, a, b),
        0 <= c < idxs.len(),
        adjacent(idxs[b], idxs[c]),
    ensures
        connected(idxs, a, c),
{
    let p = choose|p: Seq<int>| is_path(idxs, p, a, b);
    let q = p.push(c);
    assert(q[q.len() - 1] == c);
    assert(forall|i: int| 0 <= i < p.len() ==> q[i] == p[i]);
    assert(is_path(idxs, q, a, c));
}

/// A path can be walked backwards: connection is symmetric.
pub proof fn lemma_path_sym(idxs: Seq<Index3>, p: Seq<int>, a: int, b: int)
    requires
        is_path(idxs, p, a, b),
    ensures
        connected(idxs, b, a),
    decreases p.len(),
{
    if p.len() == 1 {
        assert(a == b);
        lemma_connected_refl(idxs, a);
    } else {
        let q = p.subrange(1, p.len() as int);
        assert(q[0] == p[1]);
        assert(q[q.len() - 1] == p[p.len() - 1]);
        assert(forall|i: int| 0 <= i < q.len() ==> q[i] == p[i + 1]);
        assert(is_path(idxs, q, p[1], b));
        lemma_path_sym(idxs, q, p[1], b);
        assert(adjacent(idxs[p[0]], idxs[p[1]]));
        assert(adjacent(idxs[p[1]], idxs[p[0]]));
        lemma_connected_step(idxs, b, p[1], a);
    }
}

/// Connection is symmetric.
pub proof fn lemma_connected_sym(idxs: Seq<Index3>, a: int, b: int)
    requires
        connected(idxs, a, b),
    ensures
        connected(idxs, b, a),
{
    let p = choose|p: Seq<int>| is_path(idxs, p, a, b);
    lemma_path_sym(idxs, p, a, b);
}

/// Connection is transitive.
pub proof fn lemma_connected_trans(idxs: Seq<Index3>, a: int, b: int, c: int)
    requires
        connected(idxs, a, b),
        connected(idxs, b, c),
    ensures
        connected(idxs, a, c),
{
    let p = choose|p: Seq<int>| is_path(idxs, p, a, b);
    let q = choose|q: Seq<int>| is_path(idxs, q, b, c);
    let r = p + q.subrange(1, q.len() as int);
    assert(forall|i: int| 0 <= i < p.len() ==> r[i] == p[i]);
    assert(forall|i: int| 0 <= i < q.len() - 1 ==> #[trigger] r[p.len() + i] == q[i + 1]);
    assert(r[r.len() - 1] == c) by {
        if q.len() == 1 {
            assert(r == p);
            assert(b == c);
        } else {
            assert(r[p.len() + (q.len() - 2)] == q[q.len() - 1]);
        }
    }
    assert forall|i: int| 0 <= i < r.len() - 1 implies adjacent(
        idxs[#[trigger] r[i]],
        idxs[r[i + 1]],
    ) by {
        if i < p.len() - 1 {
            assert(r[i] == p[i] && r[i + 1] == p[i + 1]);
        } else if i == p.len() - 1 {
            assert(r[i] == b);
            assert(r[i + 1] == q[1]);
            assert(adjacent(idxs[q[0]], idxs[q[1]]));
        } else {
            let j = i - p.len();
            assert(r[i] == q[j + 1] && r[i + 1] == q[j + 2]);
            assert(adjacent(idxs[q[j + 1]], idxs[q[j + 1 + 1]]));
        }
    }
    assert(is_path(idxs, r, a, c));
}

/// Number of unvisited entries.
pub open spec fn count_false(s: Seq<bool>) -> int
    decreases s.len(),
{
    if s.len() == 0 {
        0
    } else {
        count_false(s.drop_last()) + if s[s.len() - 1] {
            0int
        } else {
            1int
        }
    }
}

/// Marking one unvisited entry lowers the unvisited count by one.
pub proof fn lemma_count_false_update(s: Seq<bool>, i: int)
    requires
        0 <= i < s.len(),
        !s[i],
    ensures
        count_false(s.update(i, true)) == count_false(s) - 1,
    decreases s.len(),
{
    let t = s.update(i, true);
    if i == s.len() - 1 {
        assert(t.drop_last() =~= s.drop_last());
    } else {
        lemma_count_false_update(s.drop_last(), i);
        assert(t.drop_last() =~= s.drop_last().update(i, true));
        assert(t[t.len() - 1] == s[s.len() - 1]);
    }
}

/// The unvisited count is never negative.
pub proof fn lemma_count_false_nonneg(s: Seq<bool>)
    ensures
        count_false(s) >= 0,
    decreases s.len(),
{
    if s.len() > 0 {
        lemma_count_false_nonneg(s.drop_last());
    }
}

/// Visiting entries never raises the unvisited count, and newly visiting
/// at least one entry strictly lowers it.
pub proof fn lemma_count_false_mono(a: Seq<bool>, b: Seq<bool>)
    requires
        a.len() == b.len(),
        forall|o: int| 0 <= o < a.len() && a[o] ==> b[o],
    ensures
        count_false(b) <= count_false(a),
        (exists|o: int| 0 <= o < a.len() && !a[o] && b[o]) ==> count_false(b) < count_false(a),
    decreases a.len(),
{
    if a.len() > 0 {
        let n = a.len() - 1;
        lemma_count_false_mono(a.drop_last(), b.drop_last());
        if exists|o: int| 0 <= o < a.len() && !a[o] && b[o] {
            let o0 = choose|o: int| 0 <= o < a.len() && !a[o] && b[o];
            if o0 == n {
                assert(count_false(b) < count_false(a));
            } else {
                assert(!a.drop_last()[o0] && b.drop_last()[o0]);
                assert(exists|o: int|
                    0 <= o < a.drop_last().len() && !a.drop_last()[o] && b.drop_last()[o]);
            }
        }
    }
}

/// Flood-fill one connected piece: starting from the unvisited `seed`,
/// collect every fragment reachable through 26-adjacent unvisited
/// fragments, marking each as visited.
pub fn discover_piece(idxs: &Vec<Index3>, visited: &mut Vec<bool>, seed: usize) -> (section: Vec<
    usize,
>)
    requires
        old(visited)@.len() == idxs@.len(),
        seed < idxs@.len(),
        !old(visited)@[seed as int],
        forall|i: int| 0 <= i < idxs@.len() ==> (#[trigger] idxs@[i]).bounded(),
    ensures
        final (visited)@.len() == idxs@.len(),
        forall|o: int| 0 <= o < idxs@.len() && old(visited)@[o] ==> final (visited)@[o],
        forall|o: int|
            0 <= o < idxs@.len() ==> (final (visited)@[o] <==> (old(visited)@[o]
                || section@.contains(o as usize))),
        section@.len() >= 1 && section@[0] == seed,
        forall|k: int|
            0 <= k < section@.len() ==> (#[trigger] section@[k]) < idxs@.len() && !old(
                visited,
            )@[section@[k] as int],
        forall|k1: int, k2: int|
            0 <= k1 < k2 < section@.len() ==> section@[k1] != section@[k2],
        forall|k: int|
            0 <= k < section@.len() ==> connected(idxs@, seed as int, #[trigger] section@[k] as int),
        forall|k: int, o2: int|
            #![trigger section@[k], idxs@[o2]]
            0 <= k < section@.len() && 0 <= o2 < idxs@.len() && adjacent(
                idxs@[section@[k] as int],
                idxs@[o2],
            ) ==> final (visited)@[o2],
{
    let n = idxs.len();
    let mut section: Vec<usize> = Vec::new();
    section.push(seed);
    let ghost vis0 = visited@;
    visited.set(seed, true);
    proof {
        lemma_connected_refl(idxs@, seed as int);
        lemma_count_false_update(vis0, seed as int);
        lemma_count_false_nonneg(visited@);
        assert(section@[0] == seed);
        assert forall|o: int| 0 <= o < n implies (visited@[o] <==> (vis0[o] || section@.contains(
            o as usize,
        ))) by {
            if section@.contains(o as usize) {
                let k = choose|k: int| 0 <= k < section@.len() && section@[k] == o as usize;
                assert(k == 0);
            }
            if o == seed as int {
                assert(section@.contains(seed));
            }
        }
    }
    let mut head: usize = 0;
    while head < section.len()
        invariant
            idxs@.len() == n,
            visited@.len() == n,
            head <= section@.len(),
            section@.len() >= 1 && section@[0] == seed,
            forall|o: int| 0 <= o < n && old(visited)@[o] ==> visited@[o],
            forall|o: int|
                0 <= o < n ==> (visited@[o] <==> (old(visited)@[o] || section@.contains(
                    o as usize,
                ))),
            forall|k: int|
                0 <= k < section@.len() ==> (#[trigger] section@[k]) < n && !old(
                    visited,
                )@[section@[k] as int],
            forall|k1: int, k2: int|
                0 <= k1 < k2 < section@.len() ==> section@[k1] != section@[k2],
            forall|k: int|
                0 <= k < section@.len() ==> connected(
                    idxs@,
                    seed as int,
                    #[trigger] section@[k] as int,
                ),
            forall|k: int, o2: int|
                #![trigger section@[k], idxs@[o2]]
                0 <= k < head && 0 <= o2 < n && adjacent(
                    idxs@[section@[k] as int],
                    idxs@[o2],
                ) ==> visited@[o2],
            forall|i: int| 0 <= i < n ==> (#[trigger] idxs@[i]).bounded(),
            count_false(visited@) + section@.len() == count_false(old(visited)@),
            count_false(visited@) >= 0,
        decreases count_false(visited@), section@.len() - head,
    {
        let cur = section[head];
        let ghost base_len = section@.len();
        let mut o2: usize = 0;
        while o2 < n
            invariant
                idxs@.len() == n,
                visited@.len() == n,
                head < section@.len(),
                cur == section@[head as int],
                cur < n,
                o2 <= n,
                section@.len() >= 1 && section@[0] == seed,
                forall|o: int| 0 <= o < n && old(visited)@[o] ==> visited@[o],
                forall|o: int|
                    0 <= o < n ==> (visited@[o] <==> (old(visited)@[o] || section@.contains(
                        o as usize,
                    ))),
                forall|k: int|
                    0 <= k < section@.len() ==> (#[trigger] section@[k]) < n && !old(
                        visited,
                    )@[section@[k] as int],
                forall|k1: int, k2: int|
                    0 <= k1 < k2 < section@.len() ==> section@[k1] != section@[k2],
                forall|k: int|
                    0 <= k < section@.len() ==> connected(
                        idxs@,
                        seed as int,
                        #[trigger] section@[k] as int,
                    ),
                forall|k: int, oo: int|
                    #![trigger section@[k], idxs@[oo]]
                    0 <= k < head && 0 <= oo < n && adjacent(
                        idxs@[section@[k] as int],
                        idxs@[oo],
                    ) ==> visited@[oo],
                forall|oo: int|
                    0 <= oo < o2 && adjacent(idxs@[cur as int], idxs@[oo]) ==> visited@[oo],
                forall|i: int| 0 <= i < n ==> (#[trigger] idxs@[i]).bounded(),
                count_false(visited@) + section@.len() == count_false(old(visited)@),
                count_false(visited@) >= 0,
                section@.len() >= base_len,
            decreases n - o2,
        {
            let a = idxs[cur];
            let b = idxs[o2];
            assert(a.bounded() && b.bounded());
            let adj = {
                let dx = if a.x >= b.x {
                    a.x - b.x
                } else {
                    b.x - a.x
                };
                let dy = if a.y >= b.y {
                    a.y - b.y
                } else {
                    b.y - a.y
                };
                let dz = if a.z >= b.z {
                    a.z - b.z
                } else {
                    b.z - a.z
                };
                dx <= 1 && dy <= 1 && dz <= 1
            };
            proof {
                assert(adj == adjacent(idxs@[cur as int], idxs@[o2 as int]));
            }
            if adj && !visited[o2] {
                let ghost prev_vis = visited@;
                let ghost prev_sec = section@;
                visited.set(o2, true);
                section.push(o2);
                proof {
                    lemma_count_false_update(prev_vis, o2 as int);
                    assert(section@[prev_sec.len() as int] == o2);
                    assert forall|x: usize| #[trigger] prev_sec.contains(x)
                        implies section@.contains(x) by {
                        let k = choose|k: int| 0 <= k < prev_sec.len() && prev_sec[k] == x;
                        assert(section@[k] == x);
                    }
                    assert forall|o: int|
                        0 <= o < n implies (visited@[o] <==> (old(visited)@[o]
                            || section@.contains(o as usize))) by {
                        if o == o2 as int {
                            assert(section@.contains(o2));
                        } else {
                            if section@.contains(o as usize) {
                                let k = choose|k: int|
                                    0 <= k < section@.len() && section@[k] == o as usize;
                                assert(k < prev_sec.len());
                                assert(prev_sec[k] == o as usize);
                                assert(prev_sec.contains(o as usize));
                            }
                            if prev_sec.contains(o as usize) {
                                let k = choose|k: int|
                                    0 <= k < prev_sec.len() && prev_sec[k] == o as usize;
                                assert(section@[k] == o as usize);
                            }
                        }
                    }
                    lemma_connected_step(idxs@, seed as int, cur as int, o2 as int);
                    lemma_count_false_nonneg(visited@);
                }
            }
            o2 = o2 + 1;
        }
        head = head + 1;
        proof {
            lemma_count_false_nonneg(visited@);
        }
    }
    section
}

impl Cloth {
    /// Flood-fill the connected piece seeded at `seed` over this cloth's
    /// fragment lattice, marking the piece as visited.
    pub fn discover_section(&self, visited: &mut Vec<bool>, seed: usize) -> (section: Vec<usize>)
        requires
            old(visited)@.len() == self.segments@.len(),
            seed < self.segments@.len(),
            !old(visited)@[seed as int],
            forall|o: int|
                0 <= o < self.segments@.len() ==> (#[trigger] self.segments@[o]).frag.index.bounded(),
        ensures
            final (visited)@.len() == self.segments@.len(),
            forall|o: int|
                0 <= o < self.segments@.len() && old(visited)@[o] ==> final (visited)@[o],
            forall|o: int|
                0 <= o < self.segments@.len() ==> (final (visited)@[o] <==> (old(visited)@[o]
                    || section@.contains(o as usize))),
            section@.len() >= 1 && section@[0] == seed,
            forall|k: int|
                0 <= k < section@.len() ==> (#[trigger] section@[k]) < self.segments@.len() && !old(
                    visited,
                )@[section@[k] as int],
            forall|k1: int, k2: int|
                0 <= k1 < k2 < section@.len() ==> section@[k1] != section@[k2],
            forall|k: int|
                0 <= k < section@.len() ==> connected(
                    self.indices(),
                    seed as int,
                    #[trigger] section@[k] as int,
                ),
            forall|k: int, o2: int|
                #![trigger section@[k], self.indices()[o2]]
                0 <= k < section@.len() && 0 <= o2 < self.segments@.len() && adjacent(
                    self.indices()[section@[k] as int],
                    self.indices()[o2],
                ) ==> final (visited)@[o2],
    {
        let n = self.segments.len();
        let mut idxs: Vec<Index3> = Vec::new();
        let mut o: usize = 0;
        while o < n
            invariant
                n == self.segments@.len(),
                o <= n,
                idxs@.len() == o,
                forall|j: int| 0 <= j < o ==> idxs@[j] == self.segments@[j].frag.index,
            decreases n - o,
        {
            idxs.push(self.segments[o].frag.index);
            o = o + 1;
        }
        proof {
            assert(idxs@ =~= self.indices());
        }
        discover_piece(&idxs, visited, seed)
    }

    /// The lattice indices of the fragments, in ordinal order.
    pub open spec fn indices(self) -> Seq<Index3> {
        Seq::new(self.segments@.len(), |o: int| self.segments@[o].frag.index)
    }
}

} // verus!
// The two section laws: the sections partition the ordinals, and members
// of one section are 26-connected.

verus! {

/// Every section was flood-filled from its first member: each member is
/// connected to that seed.
pub open spec fn sections_linked(c: Cloth) -> bool {
    forall|s: int, k: int|
        0 <= s < c.sections@.len() && 0 <= k < c.sections@[s]@.len() ==> connected(
            c.indices(),
            c.sections@[s]@[0] as int,
            (#[trigger] c.sections@[s]@[k]) as int,
        )
}

/// Sections are adjacency-closed: two 26-adjacent fragments always share
/// a section, so each section is a whole connected piece, not a part of
/// one.
pub open spec fn sections_maximal(c: Cloth) -> bool {
    forall|o1: int, o2: int|
        #![trigger c.indices()[o1], c.indices()[o2]]
        0 <= o1 < c.segments@.len() && 0 <= o2 < c.segments@.len() && adjacent(
            c.indices()[o1],
            c.indices()[o2],
        ) ==> c.section_of@[o1] == c.section_of@[o2]
}

/// Two connected fragments share a section: with adjacency closure, every
/// section is exactly one connected component of the lattice.
pub proof fn lemma_connected_same_section(c: Cloth, a: int, b: int)
    requires
        c.wf(),
        sections_maximal(c),
        0 <= a < c.segments@.len(),
        0 <= b < c.segments@.len(),
        connected(c.indices(), a, b),
    ensures
        c.section_of@[a] == c.section_of@[b],
{
    let p = choose|p: Seq<int>| is_path(c.indices(), p, a, b);
    lemma_path_same_section(c, p, a, b);
}

proof fn lemma_path_same_section(c: Cloth, p: Seq<int>, a: int, b: int)
    requires
        c.wf(),
        sections_maximal(c),
        is_path(c.indices(), p, a, b),
    ensures
        c.section_of@[a] == c.section_of@[b],
    decreases p.len(),
{
    if p.len() == 1 {
        assert(a == b);
    } else {
        let q = p.subrange(1, p.len() as int);
        assert(q[0] == p[1]);
        assert(q[q.len() - 1] == p[p.len() - 1]);
        assert(forall|i: int| 0 <= i < q.len() ==> q[i] == p[i + 1]);
        assert(is_path(c.indices(), q, p[1], b));
        assert(adjacent(c.indices()[a], c.indices()[p[1]]));
        lemma_path_same_section(c, q, p[1], b);
    }
}

/// Section completeness: the sections of a well-formed cloth cover every
/// ordinal, and no ordinal appears in two places.
pub proof fn lemma_sections_partition(c: Cloth)
    requires
        c.wf(),
    ensures
        forall|o: usize|
            #![trigger c.section_of@[o as int]]
            o < c.segments@.len() ==> {
                let s = c.section_of@[o as int] as int;
                0 <= s < c.sections@.len() && c.sections@[s]@.contains(o)
            },
        forall|s1: int, k1: int, s2: int, k2: int|
            #![trigger c.sections@[s1]@[k1], c.sections@[s2]@[k2]]
            0 <= s1 < c.sections@.len() && 0 <= k1 < c.sections@[s1]@.len() && 0 <= s2
                < c.sections@.len() && 0 <= k2 < c.sections@[s2]@.len() && c.sections@[s1]@[k1]
                == c.sections@[s2]@[k2] ==> s1 == s2 && k1 == k2,
{
    assert forall|o: usize| #![trigger c.section_of@[o as int]] o < c.segments@.len() implies {
        let s = c.section_of@[o as int] as int;
        0 <= s < c.sections@.len() && c.sections@[s]@.contains(o)
    } by {
        let s = c.section_of@[o as int] as int;
        assert(c.sections@[s]@.contains(o));
    }
    assert forall|s1: int, k1: int, s2: int, k2: int|
        #![trigger c.sections@[s1]@[k1], c.sections@[s2]@[k2]]
        0 <= s1 < c.sections@.len() && 0 <= k1 < c.sections@[s1]@.len() && 0 <= s2
            < c.sections@.len() && 0 <= k2 < c.sections@[s2]@.len() && c.sections@[s1]@[k1]
            == c.sections@[s2]@[k2] implies s1 == s2 && k1 == k2 by {
        let o = c.sections@[s1]@[k1];
        assert(c.section_of@[o as int] == s1);
        assert(c.section_of@[o as int] == s2);
        if k1 < k2 {
            assert(c.sections@[s1]@[k1] != c.sections@[s1]@[k2]);
        }
        if k2 < k1 {
            assert(c.sections@[s1]@[k2] != c.sections@[s1]@[k1]);
        }
    }
}

/// 26-connectivity: any two fragments of one section of a flood-filled
/// cloth are joined by a path of fragments whose successive lattice
/// indices differ by at most one in each component.
pub proof fn lemma_same_section_connected(c: Cloth, s: int, k1: int, k2: int)
    requires
        c.wf(),
        sections_linked(c),
        0 <= s < c.sections@.len(),
        0 <= k1 < c.sections@[s]@.len(),
        0 <= k2 < c.sections@[s]@.len(),
    ensures
        connected(c.indices(), c.sections@[s]@[k1] as int, c.sections@[s]@[k2] as int),
{
    let seed = c.sections@[s]@[0] as int;
    assert(connected(c.indices(), seed, c.sections@[s]@[k1] as int));
    assert(connected(c.indices(), seed, c.sections@[s]@[k2] as int));
    lemma_connected_sym(c.indices(), seed, c.sections@[s]@[k1] as int);
    lemma_connected_trans(
        c.indices(),
        c.sections@[s]@[k1] as int,
        seed,
        c.sections@[s]@[k2] as int,
    );
}

} // verus!
// One expansion step at a time, for callers that must poll for
// cancellation between steps.

verus! {

/// One expansion step of a flood fill in progress: visit every unvisited
/// 26-neighbor of the piece member at `head` and append it to the piece.
pub fn discover_step(
    idxs: &Vec<Index3>,
    visited: &mut Vec<bool>,
    piece: &mut Vec<usize>,
    head: usize,
)
    requires
        old(visited)@.len() == idxs@.len(),
        head < old(piece)@.len(),
        forall|i: int| 0 <= i < idxs@.len() ==> (#[trigger] idxs@[i]).bounded(),
        forall|k: int|
            0 <= k < old(piece)@.len() ==> (#[trigger] old(piece)@[k]) < idxs@.len() && old(
                visited,
            )@[old(piece)@[k] as int],
        forall|k1: int, k2: int|
            0 <= k1 < k2 < old(piece)@.len() ==> old(piece)@[k1] != old(piece)@[k2],
        forall|k: int|
            0 <= k < old(piece)@.len() ==> connected(
                idxs@,
                old(piece)@[0] as int,
                (#[trigger] old(piece)@[k]) as int,
            ),
    ensures
        final (visited)@.len() == idxs@.len(),
        forall|o: int| 0 <= o < idxs@.len() && old(visited)@[o] ==> final (visited)@[o],
        final (piece)@.len() >= old(piece)@.len(),
        forall|k: int| 0 <= k < old(piece)@.len() ==> final (piece)@[k] == old(piece)@[k],
        forall|k: int|
            old(piece)@.len() <= k < final (piece)@.len() ==> {
                let v = #[trigger] final (piece)@[k];
                v < idxs@.len() && !old(visited)@[v as int] && final (visited)@[v as int]
                    && adjacent(idxs@[old(piece)@[head as int] as int], idxs@[v as int])
            },
        forall|o: int|
            0 <= o < idxs@.len() ==> (final (visited)@[o] <==> (old(visited)@[o] || exists|k: int|
                old(piece)@.len() <= k < final (piece)@.len() && (#[trigger] final (piece)@[k])
                    == o)),
        forall|o2: int|
            0 <= o2 < idxs@.len() && adjacent(idxs@[old(piece)@[head as int] as int], idxs@[o2])
                ==> final (visited)@[o2],
        forall|k: int|
            0 <= k < final (piece)@.len() ==> (#[trigger] final (piece)@[k]) < idxs@.len()
                && final (visited)@[final (piece)@[k] as int],
        forall|k1: int, k2: int|
            0 <= k1 < k2 < final (piece)@.len() ==> final (piece)@[k1] != final (piece)@[k2],
        forall|k: int|
            0 <= k < final (piece)@.len() ==> connected(
                idxs@,
                final (piece)@[0] as int,
                (#[trigger] final (piece)@[k]) as int,
            ),
        count_false(final (visited)@) + final (piece)@.len() == count_false(old(visited)@) + old(
            piece,
        )@.len(),
{
    let n = idxs.len();
    let cur = piece[head];
    let ghost base = piece@.len();
    let mut o2: usize = 0;
    while o2 < n
        invariant
            idxs@.len() == n,
            visited@.len() == n,
            head < base,
            base <= piece@.len(),
            cur == piece@[head as int],
            cur < n,
            o2 <= n,
            forall|i: int| 0 <= i < n ==> (#[trigger] idxs@[i]).bounded(),
            forall|o: int| 0 <= o < n && old(visited)@[o] ==> visited@[o],
            forall|k: int| 0 <= k < base ==> piece@[k] == old(piece)@[k],
            base == old(piece)@.len(),
            forall|k: int|
                base <= k < piece@.len() ==> {
                    let v = #[trigger] piece@[k];
                    v < n && !old(visited)@[v as int] && visited@[v as int] && adjacent(
                        idxs@[cur as int],
                        idxs@[v as int],
                    )
                },
            forall|o: int|
                0 <= o < n ==> (visited@[o] <==> (old(visited)@[o] || exists|k: int|
                    base <= k < piece@.len() && (#[trigger] piece@[k]) == o)),
            forall|oo: int|
                0 <= oo < o2 && adjacent(idxs@[cur as int], idxs@[oo]) ==> visited@[oo],
            forall|k: int|
                0 <= k < piece@.len() ==> (#[trigger] piece@[k]) < n
                    && visited@[piece@[k] as int],
            forall|k1: int, k2: int| 0 <= k1 < k2 < piece@.len() ==> piece@[k1] != piece@[k2],
            forall|k: int|
                0 <= k < piece@.len() ==> connected(
                    idxs@,
                    piece@[0] as int,
                    (#[trigger] piece@[k]) as int,
                ),
            count_false(visited@) + piece@.len() == count_false(old(visited)@) + base,
        decreases n - o2,
    {
        let a = idxs[cur];
        let b = idxs[o2];
        assert(a.bounded() && b.bounded());
        let adj = {
            let dx = if a.x >= b.x {
                a.x - b.x
            } else {
                b.x - a.x
            };
            let dy = if a.y >= b.y {
                a.y - b.y
            } else {
                b.y - a.y
            };
            let dz = if a.z >= b.z {
                a.z - b.z
            } else {
                b.z - a.z
            };
            dx <= 1 && dy <= 1 && dz <= 1
        };
        proof {
            assert(adj == adjacent(idxs@[cur as int], idxs@[o2 as int]));
        }
        if adj && !visited[o2] {
            let ghost prev_vis = visited@;
            let ghost prev_piece = piece@;
            visited.set(o2, true);
            piece.push(o2);
            proof {
                lemma_count_false_update(prev_vis, o2 as int);
                assert(piece@[prev_piece.len() as int] == o2);
                assert forall|o: int| 0 <= o < n implies (visited@[o] <==> (old(visited)@[o]
                    || exists|k: int|
                    base <= k < piece@.len() && (#[trigger] piece@[k]) == o)) by {
                    if o == o2 as int {
                        assert(piece@[prev_piece.len() as int] == o as usize);
                    } else {
                        if exists|k: int|
                            base <= k < piece@.len() && (#[trigger] piece@[k]) == o as usize {
                            let k = choose|k: int|
                                base <= k < piece@.len() && (#[trigger] piece@[k]) == o as usize;
                            assert(k < prev_piece.len());
                            assert(prev_piece[k] == o as usize);
                        }
                        if exists|k: int|
                            base <= k < prev_piece.len() && (#[trigger] prev_piece[k])
                                == o as usize {
                            let k = choose|k: int|
                                base <= k < prev_piece.len() && (#[trigger] prev_piece[k])
                                    == o as usize;
                            assert(piece@[k] == o as usize);
                        }
                    }
                }
                assert(connected(idxs@, piece@[0] as int, cur as int));
                lemma_connected_step(idxs@, piece@[0] as int, cur as int, o2 as int);
            }
        }
        o2 = o2 + 1;
    }
}

} // verus!
