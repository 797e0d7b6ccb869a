//! Neighborhood and seam linking: each fragment's neighbor ordinals within
//! the stiffness cube, plus one seam edge to the fragment of closest
//! parametric coordinate sharing its link id.

use vstd::prelude::*;

use crate::cloth::ClothSegmentFrag;
use crate::fixed::mag;

verus! {

/// The raw parametric seam coordinate of a fragment, zero when unlinked.
pub open spec fn lv(f: ClothSegmentFrag) -> int {
    match f.link_vector {
        Some(v) => v.raw as int,
        None => 0,
    }
}

/// `c` competes as a seam partner of `o`: another fragment carrying the
/// same link id.
pub open spec fn is_candidate(frags: Seq<ClothSegmentFrag>, o: int, c: int) -> bool {
    &&& 0 <= c < frags.len()
    &&& c != o
    &&& frags[o].link_number is Some
    &&& frags[c].link_number == frags[o].link_number
}

/// The best seam partner of `o` among the first `m` ordinals: smallest
/// parametric distance, earliest ordinal on ties.
pub open spec fn partner_upto(frags: Seq<ClothSegmentFrag>, o: int, m: int) -> Option<int>
    decreases m,
{
    if m <= 0 {
        None
    } else {
        let prev = partner_upto(frags, o, m - 1);
        let c = m - 1;
        if is_candidate(frags, o, c) {
            match prev {
                None => Some(c),
                Some(b) => if mag(lv(frags[c]) - lv(frags[o])) < mag(lv(frags[b]) - lv(frags[o])) {
                    Some(c)
                } else {
                    prev
                },
            }
        } else {
            prev
        }
    }
}

/// The seam partner of `o`: the candidate of minimal parametric distance,
/// ties resolved toward the smallest ordinal.
pub open spec fn seam_partner(frags: Seq<ClothSegmentFrag>, o: int) -> Option<int> {
    partner_upto(frags, o, frags.len() as int)
}

/// What the running best means: it is a candidate, no earlier scanned
/// candidate beats it, and it exists as soon as any candidate was scanned.
pub proof fn lemma_partner_char(frags: Seq<ClothSegmentFrag>, o: int, m: int)
    requires
        0 <= m <= frags.len(),
    ensures
        match partner_upto(frags, o, m) {
            None => forall|x: int| 0 <= x < m ==> !is_candidate(frags, o, x),
            Some(b) => is_candidate(frags, o, b) && b < m && forall|x: int|
                0 <= x < m && #[trigger] is_candidate(frags, o, x) ==> mag(
                    lv(frags[x]) - lv(frags[o]),
                ) > mag(lv(frags[b]) - lv(frags[o])) || (mag(lv(frags[x]) - lv(frags[o])) == mag(
                    lv(frags[b]) - lv(frags[o]),
                ) && x >= b),
        },
    decreases m,
{
    if m > 0 {
        lemma_partner_char(frags, o, m - 1);
    }
}

/// Seam symmetry: when exactly one other fragment carries `o`'s link id at
/// the same parametric coordinate, the two fragments pick each other as
/// seam partners.
pub proof fn lemma_seam_symmetry(frags: Seq<ClothSegmentFrag>, o: int, c: int)
    requires
        is_candidate(frags, o, c),
        0 <= o < frags.len(),
        lv(frags[c]) == lv(frags[o]),
        forall|x: int|
            0 <= x < frags.len() && x != o && x != c && #[trigger] frags[x].link_number
                == frags[o].link_number ==> lv(frags[x]) != lv(frags[o]),
    ensures
        seam_partner(frags, o) == Some(c),
        seam_partner(frags, c) == Some(o),
{
    let n = frags.len() as int;
    lemma_partner_char(frags, o, n);
    match seam_partner(frags, o) {
        None => {
            assert(is_candidate(frags, o, c));
            assert(false);
        },
        Some(b) => {
            assert(is_candidate(frags, o, b));
            assert(mag(lv(frags[c]) - lv(frags[o])) == 0);
            if b != c {
                assert(mag(lv(frags[b]) - lv(frags[o])) >= 0);
                if mag(lv(frags[b]) - lv(frags[o])) == 0 {
                    assert(lv(frags[b]) == lv(frags[o]));
                    assert(b != o && b != c);
                    assert(false);
                } else {
                    assert(mag(lv(frags[c]) - lv(frags[o])) < mag(lv(frags[b]) - lv(frags[o])));
                    assert(false);
                }
            }
        },
    }
    assert(is_candidate(frags, c, o));
    lemma_partner_char(frags, c, n);
    match seam_partner(frags, c) {
        None => {
            assert(false);
        },
        Some(b) => {
            assert(is_candidate(frags, c, b));
            assert(frags[c].link_number == frags[o].link_number);
            assert(mag(lv(frags[o]) - lv(frags[c])) == 0);
            if b != o {
                if mag(lv(frags[b]) - lv(frags[c])) == 0 {
                    assert(lv(frags[b]) == lv(frags[o]));
                    assert(b != o && b != c);
                    assert(false);
                } else {
                    assert(mag(lv(frags[o]) - lv(frags[c])) < mag(lv(frags[b]) - lv(frags[c])));
                    assert(false);
                }
            }
        },
    }
}

/// Scan for the seam partner of ordinal `o`.
pub fn find_seam_partner(frags: &Vec<ClothSegmentFrag>, o: usize) -> (r: Option<usize>)
    requires
        o < frags@.len(),
    ensures
        match r {
            None => seam_partner(frags@, o as int) is None,
            Some(p) => seam_partner(frags@, o as int) == Some(p as int),
        },
{
    if frags[o].link_number.is_none() {
        proof {
            lemma_partner_char(frags@, o as int, frags@.len() as int);
            match partner_upto(frags@, o as int, frags@.len() as int) {
                None => {},
                Some(b) => {
                    assert(is_candidate(frags@, o as int, b));
                    assert(false);
                },
            }
        }
        return None;
    }
    let n = frags.len();
    let my_link = frags[o].link_number;
    let my_lv = match frags[o].link_vector {
        Some(v) => v,
        None => crate::fixed::Fx { raw: 0 },
    };
    let mut best: Option<usize> = None;
    let mut best_dist: u128 = 0;
    let mut c: usize = 0;
    while c < n
        invariant
            n == frags@.len(),
            o < n,
            0 <= c <= n,
            frags@[o as int].link_number is Some,
            my_link == frags@[o as int].link_number,
            my_lv.raw as int == lv(frags@[o as int]),
            match best {
                None => partner_upto(frags@, o as int, c as int) is None,
                Some(b) => b < n && partner_upto(frags@, o as int, c as int) == Some(b as int)
                    && best_dist as int == mag(lv(frags@[b as int]) - lv(frags@[o as int])),
            },
        decreases n - c,
    {
        let cand = (c != o) && match (frags[c].link_number, my_link) {
            (Some(a), Some(b)) => a == b,
            _ => false,
        };
        if cand {
            let c_lv = match frags[c].link_vector {
                Some(v) => v,
                None => crate::fixed::Fx { raw: 0 },
            };
            let diff: i128 = c_lv.raw as i128 - my_lv.raw as i128;
            let dist: u128 = if diff < 0 {
                (-diff) as u128
            } else {
                diff as u128
            };
            match best {
                None => {
                    best = Some(c);
                    best_dist = dist;
                },
                Some(_) => {
                    if dist < best_dist {
                        best = Some(c);
                        best_dist = dist;
                    }
                },
            }
        }
        c = c + 1;
    }
    best
}

} // verus!
