//! Line geometry, selection editing and draft loading.

use weaverling::drafting::{rect_colision, Draft, Line, Quadstate};
use weaverling::fixed::{Fx, SCALE};
use weaverling::geom::Point2;
use weaverling::parse::DraftError;

fn pt(x: i64, y: i64) -> Point2 {
    Point2 {
        x: Fx { raw: x },
        y: Fx { raw: y },
    }
}

fn seg(x1: i64, y1: i64, x2: i64, y2: i64) -> Line {
    Line {
        p1: pt(x1, y1),
        p2: pt(x2, y2),
        pinned: false,
        rigid: false,
        highlighted: false,
        link: None,
        line_id: 0,
    }
}

#[test]
fn slice_membership_is_strict() {
    let l = seg(0, 0, SCALE, 0);
    assert!(l.in_slice(pt(50_000, 77), Fx { raw: 0 }));
    assert!(!l.in_slice(pt(0, 0), Fx { raw: 0 }));
    assert!(!l.in_slice(pt(SCALE, 0), Fx { raw: 0 }));
    assert!(l.in_slice(pt(-10, 0), Fx { raw: 20 }));
}

#[test]
fn intersect_on_x_follows_the_carrying_line() {
    // The diagonal from (0,0) to (1,1): y = x.
    let l = seg(0, 0, SCALE, SCALE);
    let y = l.get_intersect_on_x(pt(25_000, 0)).unwrap();
    assert_eq!(y.raw, 25_000);
    // A vertical line has no intersection.
    let v = seg(40, 0, 40, SCALE);
    assert!(v.get_intersect_on_x(pt(40, 0)).is_none());
}

#[test]
fn hitbox_is_an_oriented_band() {
    let l = seg(0, 0, SCALE, 0);
    let t = Fx { raw: 30_000 };
    assert!(l.hitbox(pt(50_000, 10_000), t));
    assert!(l.hitbox(pt(50_000, -10_000), t));
    assert!(!l.hitbox(pt(50_000, 40_000), t));
    // Beyond the end caps.
    assert!(!l.hitbox(pt(-10_000, 0), t));
    assert!(!l.hitbox(pt(SCALE + 10_000, 0), t));
}

#[test]
fn distance_is_to_the_carrying_line() {
    let l = seg(0, 0, SCALE, 0);
    assert_eq!(l.dist(pt(50_000, 30_000)).raw, 30_000);
    assert_eq!(l.dist(pt(99, 0)).raw, 0);
}

#[test]
fn partial_match_shares_an_endpoint() {
    let a = seg(0, 0, SCALE, 0);
    let b = seg(SCALE, 0, SCALE, SCALE);
    let c = seg(7, 7, 8, 8);
    assert!(a.partial_match(&b));
    assert!(!a.partial_match(&c));
}

#[test]
fn rect_colision_takes_either_corner_order() {
    let root = pt(SCALE, SCALE);
    let size = pt(-SCALE, -SCALE);
    assert!(rect_colision(root, size, pt(50_000, 50_000)));
    assert!(!rect_colision(root, size, pt(-1, 50_000)));
}

fn three_lines() -> Draft {
    let mut d = Draft::empty();
    let mut a = seg(0, 0, SCALE, 0);
    a.highlighted = true;
    let b = seg(0, 0, 0, SCALE);
    let mut c = seg(SCALE, 0, SCALE, SCALE);
    c.highlighted = true;
    d.lines.push(a);
    d.lines.push(b);
    d.lines.push(c);
    d
}

#[test]
fn pin_touches_only_the_highlighted() {
    let mut d = three_lines();
    d.pin(true);
    assert!(d.lines[0].pinned);
    assert!(!d.lines[1].pinned);
    assert!(d.lines[2].pinned);
    d.pin(false);
    assert!(!d.lines[0].pinned);
}

#[test]
fn link_touches_only_the_highlighted() {
    let mut d = three_lines();
    d.link(Some(7));
    assert_eq!(d.lines[0].link, Some(7));
    assert_eq!(d.lines[1].link, None);
    assert_eq!(d.lines[2].link, Some(7));
    d.link(None);
    assert_eq!(d.lines[0].link, None);
}

#[test]
fn pin_status_reports_the_four_states() {
    let mut d = three_lines();
    assert_eq!(d.get_pin_status(), Quadstate::Off);
    d.pin(true);
    assert_eq!(d.get_pin_status(), Quadstate::On);
    let mut l = d.lines[0];
    l.pinned = false;
    d.lines[0] = l;
    assert_eq!(d.get_pin_status(), Quadstate::Maybe);
    let empty = Draft::empty();
    assert_eq!(empty.get_pin_status(), Quadstate::No);
    assert_eq!(d.get_rigid_status(), Quadstate::Off);
}

#[test]
fn bounds_expand_by_one_unit() {
    let d = three_lines();
    let (lo, hi) = d.get_bounds();
    assert_eq!(lo.x.raw, -SCALE);
    assert_eq!(lo.y.raw, -SCALE);
    assert_eq!(hi.x.raw, 2 * SCALE);
    assert_eq!(hi.y.raw, 2 * SCALE);
}

#[test]
fn loading_reads_line_elements_in_order() {
    let doc = b"<?xml version='1.0'?>\n<svg><g>\n<line x1=\"0\" y1=\"0\" x2=\"1\" y2=\"0\"/>\n<rect width=\"5\"/>\n<line x1='1.5' y1='-0.25' x2='.5' y2='2.'/>\n</g></svg>";
    let d = Draft::new(doc).unwrap();
    assert_eq!(d.lines.len(), 2);
    assert_eq!(d.current_link, 1);
    assert_eq!(d.lines[0].p1.x.raw, 0);
    assert_eq!(d.lines[0].p2.x.raw, SCALE);
    assert_eq!(d.lines[0].line_id, 0);
    assert_eq!(d.lines[1].p1.x.raw, 150_000);
    assert_eq!(d.lines[1].p1.y.raw, -25_000);
    assert_eq!(d.lines[1].p2.x.raw, 50_000);
    assert_eq!(d.lines[1].p2.y.raw, 2 * SCALE);
    assert_eq!(d.lines[1].line_id, 1);
    assert!(!d.lines[0].pinned && d.lines[0].link.is_none());
}

#[test]
fn loading_truncates_deep_fractions() {
    let d = Draft::new(b"<line x1='1.2345678' y1='0' x2='0' y2='0'/>").unwrap();
    assert_eq!(d.lines[0].p1.x.raw, 123_456);
}

#[test]
fn malformed_numbers_are_fatal() {
    assert_eq!(
        Draft::new(b"<line x1='1e3' y1='0' x2='0' y2='0'/>").unwrap_err(),
        DraftError::BadNumber
    );
    assert_eq!(
        Draft::new(b"<line x1='' y1='0' x2='0' y2='0'/>").unwrap_err(),
        DraftError::BadNumber
    );
    assert_eq!(
        Draft::new(b"<line x1='.' y1='0' x2='0' y2='0'/>").unwrap_err(),
        DraftError::BadNumber
    );
    assert_eq!(
        Draft::new(b"<line x1='20000' y1='0' x2='0' y2='0'/>").unwrap_err(),
        DraftError::Range
    );
}

#[test]
fn broken_structure_is_fatal() {
    assert_eq!(Draft::new(b"<line x1='0").unwrap_err(), DraftError::Syntax);
    assert_eq!(Draft::new(b"<line x1=0/>").unwrap_err(), DraftError::Syntax);
    assert_eq!(Draft::new(b"<!-- unterminated").unwrap_err(), DraftError::Syntax);
}

#[test]
fn unknown_attributes_and_elements_are_ignored() {
    let d = Draft::new(b"<line x1='1' y1='2' x2='3' y2='4' stroke='red' id='a7'/>").unwrap();
    assert_eq!(d.lines.len(), 1);
    assert_eq!(d.lines[0].p2.y.raw, 4 * SCALE);
    let empty = Draft::new(b"just text, no elements").unwrap();
    assert_eq!(empty.lines.len(), 0);
}
