//! Integrator behaviour: pinned fragments, drag decay, rest shape, sagging
//! under gravity, and the rigid plane pull.

use weaverling::cloth::{Cloth, ClothSegment, ClothSegmentFrag};
use weaverling::drafting::{Draft, Line};
use weaverling::fixed::{Fx, SCALE};
use weaverling::geom::{Index3, Point2, Vec3};

fn v3(x: i64, y: i64, z: i64) -> Vec3 {
    Vec3 {
        x: Fx { raw: x },
        y: Fx { raw: y },
        z: Fx { raw: z },
    }
}

fn frag_at(ix: i64, iz: i64, scale: i64) -> ClothSegmentFrag {
    ClothSegmentFrag {
        index: Index3 { x: ix, y: 0, z: iz },
        position: v3(ix * scale, SCALE, iz * scale),
        velocity: v3(0, 0, 0),
        pinned: false,
        rigid: false,
        link_vector: None,
        link_number: None,
        line_id: 0,
    }
}

/// A hand-built cloth whose fragments all sit in one section.
fn cloth_of(frags: Vec<ClothSegmentFrag>, neighbors: Vec<Vec<usize>>, drag: i64, gravity: i64) -> Cloth {
    let n = frags.len();
    let mut segments = Vec::new();
    for (o, f) in frags.into_iter().enumerate() {
        segments.push(ClothSegment {
            frag: f,
            neighbor_index: neighbors[o].clone(),
            index: o,
        });
    }
    Cloth {
        segments,
        sections: vec![(0..n).collect()],
        section_of: vec![0; n],
        scale: Fx { raw: 10_000 },
        gravity: Fx { raw: gravity },
        drag: Fx { raw: drag },
        strength: Fx { raw: 2_000 },
        seam_strength: Fx { raw: 50_000 },
        stiffness: 1,
        quads: Vec::new(),
    }
}

/// Pin idempotence: a pinned fragment never moves, however many ticks run.
#[test]
fn pinned_fragments_never_move() {
    let mut f = frag_at(0, 0, 10_000);
    f.pinned = true;
    let mut c = cloth_of(vec![f], vec![vec![]], 90_000, 100);
    for _ in 0..500 {
        c.step();
    }
    assert_eq!(c.segments[0].frag.position.x.raw, 0);
    assert_eq!(c.segments[0].frag.position.y.raw, SCALE);
    assert_eq!(c.segments[0].frag.position.z.raw, 0);
}

/// Drag decay: with no gravity and no neighbors, each tick multiplies the
/// velocity by exactly the drag factor.
#[test]
fn lone_fragment_velocity_decays_by_drag() {
    let mut f = frag_at(0, 0, 10_000);
    f.velocity = v3(50_000, 0, -30_000);
    let mut c = cloth_of(vec![f], vec![vec![]], 90_000, 0);
    let mut expect_x: i64 = 50_000;
    let mut expect_z: i64 = -30_000;
    for _ in 0..10 {
        c.step();
        expect_x = expect_x * 90_000 / SCALE;
        expect_z = -((-expect_z) * 90_000 / SCALE);
        assert_eq!(c.segments[0].frag.velocity.x.raw, expect_x);
        assert_eq!(c.segments[0].frag.velocity.z.raw, expect_z);
        assert_eq!(c.segments[0].frag.velocity.y.raw, 0);
    }
}

/// Rest shape: a pair at exactly the scaled lattice distance, no gravity,
/// stays put forever.
#[test]
fn rest_positions_are_a_fixed_point() {
    let a = frag_at(0, 0, 10_000);
    let b = frag_at(1, 1, 10_000);
    let mut c = cloth_of(vec![a, b], vec![vec![1], vec![0]], SCALE, 0);
    for _ in 0..200 {
        c.step();
    }
    assert_eq!(c.segments[0].frag.position.x.raw, 0);
    assert_eq!(c.segments[0].frag.position.y.raw, SCALE);
    assert_eq!(c.segments[1].frag.position.x.raw, 10_000);
    assert_eq!(c.segments[1].frag.position.z.raw, 10_000);
    assert_eq!(c.segments[0].frag.velocity.y.raw, 0);
    assert_eq!(c.segments[1].frag.velocity.y.raw, 0);
}

/// A stretched spring pulls its ends together.
#[test]
fn stretched_pair_contracts() {
    let a = frag_at(0, 0, 10_000);
    let mut b = frag_at(1, 0, 10_000);
    // Twice the rest distance apart.
    b.position = v3(20_000, SCALE, 0);
    let mut c = cloth_of(vec![a, b], vec![vec![1], vec![0]], 90_000, 0);
    c.step();
    assert!(c.segments[0].frag.velocity.x.raw > 0);
    assert!(c.segments[1].frag.velocity.x.raw < 0);
}

fn square_draft(pinned_top: bool, all_rigid: bool) -> Draft {
    let s = SCALE;
    let mut d = Draft::empty();
    let coords = [(0, 0, s, 0), (s, 0, s, s), (s, s, 0, s), (0, s, 0, 0)];
    for (i, (x1, y1, x2, y2)) in coords.iter().enumerate() {
        d.lines.push(Line {
            p1: Point2 {
                x: Fx { raw: *x1 },
                y: Fx { raw: *y1 },
            },
            p2: Point2 {
                x: Fx { raw: *x2 },
                y: Fx { raw: *y2 },
            },
            pinned: pinned_top && i == 2,
            rigid: all_rigid,
            highlighted: false,
            link: None,
            line_id: i,
        });
    }
    d
}

fn render(d: &Draft) -> Cloth {
    Cloth::generate_from_draft(
        d,
        Fx { raw: 10_000 },
        1,
        Fx { raw: 25_000 },
        Fx { raw: 100 },
        Fx { raw: 90_000 },
        Fx { raw: 2_000 },
        Fx { raw: 50_000 },
    )
    .unwrap()
}

/// A sheet with its top edge pinned: after a thousand ticks the pinned row
/// has not moved and the unpinned bottom row has sagged below one.
#[test]
fn pinned_top_edge_holds_while_the_rest_sags() {
    let d = square_draft(true, false);
    let mut c = render(&d);
    // The row nearest the top edge is covered by the pinned line.
    let pinned: Vec<usize> = (0..c.segments.len())
        .filter(|&o| c.segments[o].frag.pinned)
        .collect();
    assert!(!pinned.is_empty());
    for &o in &pinned {
        assert_eq!(c.segments[o].frag.index.z, 7);
    }
    for _ in 0..1000 {
        c.step();
    }
    for &o in &pinned {
        assert_eq!(c.segments[o].frag.position.y.raw, SCALE);
        assert_eq!(c.segments[o].frag.position.x.raw, c.segments[o].frag.index.x * 10_000);
    }
    for s in &c.segments {
        if !s.frag.pinned && s.frag.index.z == 4 {
            assert!(s.frag.position.y.raw < SCALE);
        }
    }
}

/// Height variance of the border fragments after two hundred ticks, for
/// the rigid-ring comparison.
fn border_height_variance(all_rigid: bool) -> f64 {
    // The top edge is pinned in both scenes so the sheet deforms at all;
    // only the rigidity of the border differs.
    let d = square_draft(true, all_rigid);
    let mut c = render(&d);
    let border: Vec<usize> = (0..c.segments.len())
        .filter(|&o| {
            let i = c.segments[o].frag.index;
            !(i.x == 6 && i.z == 6)
        })
        .collect();
    for _ in 0..200 {
        c.step();
    }
    let ys: Vec<f64> = border
        .iter()
        .map(|&o| c.segments[o].frag.position.y.raw as f64)
        .collect();
    let mean = ys.iter().sum::<f64>() / ys.len() as f64;
    ys.iter().map(|y| (y - mean) * (y - mean)).sum::<f64>() / ys.len() as f64
}

/// A rigid ring keeps its border heights closer together than the same
/// scene without rigidity.
#[test]
fn rigid_ring_flattens_the_border() {
    let rigid = border_height_variance(true);
    let free = border_height_variance(false);
    assert!(rigid < free);
}
