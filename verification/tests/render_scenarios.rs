//! Whole-pipeline scenarios: rasterizing squares, sectioning, seams,
//! quads, and the cancellation protocol.

use weaverling::cloth::Cloth;
use weaverling::drafting::{Draft, Line};
use weaverling::fixed::{Fx, SCALE};
use weaverling::geom::Point2;
use weaverling::linker::find_seam_partner;
use weaverling::session::{RenderPoll, RenderSettings, Workspace};

fn pt(x: i64, y: i64) -> Point2 {
    Point2 {
        x: Fx { raw: x },
        y: Fx { raw: y },
    }
}

fn seg(x1: i64, y1: i64, x2: i64, y2: i64, line_id: usize) -> Line {
    Line {
        p1: pt(x1, y1),
        p2: pt(x2, y2),
        pinned: false,
        rigid: false,
        highlighted: false,
        link: None,
        line_id,
    }
}

/// The unit square from (0,0) to (1,1), drawn as four segments.
fn unit_square(ox: i64, oy: i64) -> Vec<Line> {
    let s = SCALE;
    vec![
        seg(ox, oy, ox + s, oy, 0),
        seg(ox + s, oy, ox + s, oy + s, 1),
        seg(ox + s, oy + s, ox, oy + s, 2),
        seg(ox, oy + s, ox, oy, 3),
    ]
}

fn draft_of(lines: Vec<Line>) -> Draft {
    let mut d = Draft::empty();
    for l in lines {
        d.lines.push(l);
    }
    d
}

fn render(d: &Draft) -> Cloth {
    Cloth::generate_from_draft(
        d,
        Fx { raw: 10_000 },  // scale 0.1
        1,
        Fx { raw: 25_000 },  // detail 0.25
        Fx { raw: 100 },     // gravity 0.001
        Fx { raw: 90_000 },  // drag 0.9
        Fx { raw: 2_000 },   // strength 0.02
        Fx { raw: 50_000 },  // seam strength 0.5
    )
    .unwrap()
}

/// A single unit square swept at a quarter-unit step: the interior grid,
/// one connected piece, no seams, and the expected unit cells.
#[test]
fn single_square_rasterizes_to_one_piece() {
    let d = draft_of(unit_square(0, 0));
    let c = render(&d);
    // Columns at x = 0.25, 0.5, 0.75; rows at y = 0, 0.25, 0.5, 0.75: the
    // bottom boundary row counts as interior under the strictly-above ray
    // rule, the top one does not.
    assert_eq!(c.segments.len(), 12);
    for s in &c.segments {
        assert!(s.frag.link_number.is_none());
        assert_eq!(s.frag.index.y, 0);
        assert!((5..=7).contains(&s.frag.index.x));
        assert!((4..=7).contains(&s.frag.index.z));
        // Rest position: index times scale, at height one.
        assert_eq!(s.frag.position.x.raw, s.frag.index.x * 10_000);
        assert_eq!(s.frag.position.z.raw, s.frag.index.z * 10_000);
        assert_eq!(s.frag.position.y.raw, SCALE);
        assert_eq!(s.frag.velocity.x.raw, 0);
    }
    assert_eq!(c.sections.len(), 1);
    assert_eq!(c.sections[0].len(), 12);
    // Six distinct unit cells in a 3-column, 4-row grid; each cell is
    // discovered from each of its four corners.
    let mut cells: Vec<Vec<usize>> = Vec::new();
    for q in &c.quads {
        let mut cs = q.corners.to_vec();
        cs.sort();
        if !cells.contains(&cs) {
            cells.push(cs);
        }
    }
    assert_eq!(cells.len(), 6);
    assert_eq!(c.quads.len(), 24);
}

/// The parity rule on a point strictly outside the square.
#[test]
fn outside_samples_are_not_emitted() {
    let d = draft_of(unit_square(0, 0));
    let c = render(&d);
    assert!(!c
        .segments
        .iter()
        .any(|s| s.frag.index.x < 5 || s.frag.index.x > 7));
}

/// Two disjoint squares make exactly two sections.
#[test]
fn disjoint_patches_make_two_sections() {
    let mut lines = unit_square(0, 0);
    lines.extend(unit_square(2 * SCALE, 0));
    let d = draft_of(lines);
    let c = render(&d);
    assert_eq!(c.segments.len(), 24);
    assert_eq!(c.sections.len(), 2);
    assert_eq!(c.sections[0].len(), 12);
    assert_eq!(c.sections[1].len(), 12);
    // The section map sends every ordinal into its own section.
    for (o, s) in c.section_of.iter().enumerate() {
        assert!(c.sections[*s].contains(&o));
    }
}

/// A square whose bottom and top edges share a link id: samples at equal
/// parametric coordinates pair up, and the pairing is mutual.
#[test]
fn linked_seam_pairs_are_mutual() {
    let mut lines = unit_square(0, 0);
    lines[0].link = Some(7);
    lines[2].link = Some(7);
    let d = draft_of(lines);
    let c = render(&d);
    let frags: Vec<_> = c.segments.iter().map(|s| s.frag).collect();
    let linked: Vec<usize> = (0..frags.len())
        .filter(|&o| frags[o].link_number.is_some())
        .collect();
    assert!(!linked.is_empty());
    let mut mutual = 0;
    for &o in &linked {
        if let Some(p) = find_seam_partner(&frags, o) {
            // The seam partner stands last in the neighbor list.
            assert_eq!(*c.segments[o].neighbor_index.last().unwrap(), p);
            // An exact parametric match must point back.
            if frags[p].link_vector.unwrap().raw == frags[o].link_vector.unwrap().raw {
                assert_eq!(find_seam_partner(&frags, p), Some(o));
                mutual += 1;
            }
        }
    }
    assert!(mutual >= 2);
}

/// Cancelling mid-render leaves the old cloth untouched; a full render
/// replaces it, with monotone progress that never passes one.
#[test]
fn cancel_mid_render_keeps_the_old_cloth() {
    let mut w = Workspace::new();
    let doc = b"<line x1='0' y1='0' x2='1' y2='0'/><line x1='1' y1='0' x2='1' y2='1'/><line x1='1' y1='1' x2='0' y2='1'/><line x1='0' y1='1' x2='0' y2='0'/>";
    w.load_draft(doc).unwrap();
    let settings = RenderSettings {
        detail: Fx { raw: 25_000 },
        stiffness: 1,
        scale: Fx { raw: 10_000 },
        gravity: Fx { raw: 100 },
        drag: Fx { raw: 90_000 },
        strength: Fx { raw: 2_000 },
        seam_strength: Fx { raw: 50_000 },
    };
    assert!(w.begin_render(settings));
    // Poll until progress passes a tenth, but stay under nine tenths.
    let mut last = 0i64;
    loop {
        match w.poll_render() {
            RenderPoll::Progress(p) => {
                assert!(p.raw >= last);
                assert!(p.raw <= SCALE);
                last = p.raw;
                if p.raw > SCALE / 10 {
                    break;
                }
            }
            _ => panic!("render finished before a tenth of progress"),
        }
    }
    assert!(last < 9 * SCALE / 10);
    // Back: the previous (empty) cloth must be intact.
    w.cancel_render();
    assert_eq!(w.cloth.segments.len(), 0);
    // Render to completion: the cloth is replaced and progress ended at one.
    assert!(w.begin_render(settings));
    last = 0;
    let mut polls = 0usize;
    loop {
        polls += 1;
        assert!(polls < 100_000);
        match w.poll_render() {
            RenderPoll::Progress(p) => {
                assert!(p.raw >= last);
                assert!(p.raw <= SCALE);
                last = p.raw;
            }
            RenderPoll::Done => break,
            RenderPoll::Idle => panic!("no render in flight"),
        }
    }
    assert_eq!(w.cloth.segments.len(), 12);
    assert!(matches!(w.poll_render(), RenderPoll::Idle));
}

/// A rejected render request changes nothing.
#[test]
fn out_of_range_settings_are_refused() {
    let mut w = Workspace::new();
    let bad = RenderSettings {
        detail: Fx { raw: 0 },
        stiffness: 1,
        scale: Fx { raw: 10_000 },
        gravity: Fx { raw: 0 },
        drag: Fx { raw: SCALE },
        strength: Fx { raw: 0 },
        seam_strength: Fx { raw: 0 },
    };
    assert!(!w.begin_render(bad));
    assert!(matches!(w.poll_render(), RenderPoll::Idle));
}

/// Quad corners can be ordered into a drawing ring whose consecutive
/// corners are one grid step apart.
#[test]
fn quads_order_into_rings() {
    let d = draft_of(unit_square(0, 0));
    let c = render(&d);
    assert!(!c.quads.is_empty());
    for q in &c.quads {
        let ring = c.quad_ring(q).expect("a well-formed quad closes a ring");
        for k in 0..4 {
            let a = c.segments[ring[k]].frag.index;
            let b = c.segments[ring[(k + 1) % 4]].frag.index;
            assert_eq!((a.x - b.x).abs() + (a.z - b.z).abs(), 1);
        }
    }
}

/// No force crosses between disjoint patches: after many ticks, the left
/// square of a two-square scene matches a lone square stepped identically.
#[test]
fn disjoint_patches_evolve_independently() {
    let mut lines = unit_square(0, 0);
    lines.extend(unit_square(2 * SCALE, 0));
    let mut pair = render(&draft_of(lines));
    let mut lone = render(&draft_of(unit_square(0, 0)));
    for _ in 0..50 {
        pair.step();
        lone.step();
    }
    for ls in &lone.segments {
        let twin = pair
            .segments
            .iter()
            .find(|s| s.frag.index.x == ls.frag.index.x && s.frag.index.z == ls.frag.index.z)
            .expect("the left patch has the same lattice indices");
        assert_eq!(twin.frag.position.x.raw, ls.frag.position.x.raw);
        assert_eq!(twin.frag.position.y.raw, ls.frag.position.y.raw);
        assert_eq!(twin.frag.position.z.raw, ls.frag.position.z.raw);
        assert_eq!(twin.frag.velocity.y.raw, ls.frag.velocity.y.raw);
    }
}
