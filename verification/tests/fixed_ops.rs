//! Exact values of the fixed-point scalar operations.

use weaverling::fixed::{isqrt_u128, tdiv_i128, Fx, SCALE};
use weaverling::geom::{norm2_raw, norm3_raw, Index3, Vec3};

fn fx(units: i64, hundred_thousandths: i64) -> Fx {
    Fx {
        raw: units * SCALE + hundred_thousandths,
    }
}

#[test]
fn add_sub_are_exact_in_range() {
    assert_eq!(fx(1, 50_000).add(fx(2, 0)).raw, 3 * SCALE + 50_000);
    assert_eq!(fx(1, 0).sub(fx(2, 0)).raw, -SCALE);
    assert_eq!(fx(0, 0).neg().raw, 0);
    assert_eq!(fx(-3, 0).abs().raw, 3 * SCALE);
}

#[test]
fn add_saturates_at_the_rim() {
    let top = Fx { raw: i64::MAX };
    assert_eq!(top.add(Fx { raw: 1 }).raw, i64::MAX);
    let bottom = Fx { raw: i64::MIN };
    assert_eq!(bottom.sub(Fx { raw: 1 }).raw, i64::MIN);
}

#[test]
fn mul_truncates_toward_zero() {
    // 1.5 * 2 = 3
    assert_eq!(fx(1, 50_000).mul(fx(2, 0)).raw, 3 * SCALE);
    // 0.00001 * 0.1 = 0.000001, truncated away
    assert_eq!(Fx { raw: 1 }.mul(fx(0, 10_000)).raw, 0);
    // (-1.5) * 2 = -3
    assert_eq!(fx(-1, -50_000).mul(fx(2, 0)).raw, -3 * SCALE);
    // (-0.00001) * 0.1 truncates toward zero, not down
    assert_eq!(Fx { raw: -1 }.mul(fx(0, 10_000)).raw, 0);
}

#[test]
fn div_truncates_toward_zero() {
    assert_eq!(fx(3, 0).div(fx(2, 0)).raw, SCALE + 50_000);
    assert_eq!(fx(1, 0).div(fx(3, 0)).raw, 33_333);
    assert_eq!(fx(-1, 0).div(fx(3, 0)).raw, -33_333);
}

#[test]
fn integer_square_root_brackets() {
    assert_eq!(isqrt_u128(0), 0);
    assert_eq!(isqrt_u128(1), 1);
    assert_eq!(isqrt_u128(2), 1);
    assert_eq!(isqrt_u128(4), 2);
    assert_eq!(isqrt_u128(99), 9);
    assert_eq!(isqrt_u128(100), 10);
    assert_eq!(isqrt_u128(10_000_000_000), 100_000);
}

#[test]
fn truncated_division_follows_signs() {
    assert_eq!(tdiv_i128(7, 2), 3);
    assert_eq!(tdiv_i128(-7, 2), -3);
    assert_eq!(tdiv_i128(7, -2), -3);
    assert_eq!(tdiv_i128(-7, -2), 3);
}

#[test]
fn vector_lengths_are_floor_square_roots() {
    // A 3-4-5 triangle in raw units.
    assert_eq!(norm2_raw(30_000, 40_000).raw, 50_000);
    assert_eq!(norm3_raw(30_000, 40_000, 0).raw, 50_000);
    // sqrt(2) in raw units.
    assert_eq!(norm2_raw(SCALE, SCALE).raw, 141_421);
}

#[test]
fn index_length_is_scaled() {
    let unit = Index3 { x: 1, y: 0, z: 0 };
    assert_eq!(unit.length().raw, SCALE);
    let diag = Index3 { x: 1, y: 0, z: 1 };
    assert_eq!(diag.length().raw, 141_421);
}

#[test]
fn index_arithmetic_is_componentwise() {
    let a = Index3 { x: 5, y: 0, z: 7 };
    let b = Index3 { x: 2, y: 1, z: -1 };
    let s = a.add(b);
    assert_eq!((s.x, s.y, s.z), (7, 1, 6));
    let d = a.sub(b);
    assert_eq!((d.x, d.y, d.z), (3, -1, 8));
}

#[test]
fn neighborhood_cube_has_full_size() {
    let c = Index3 { x: 0, y: 0, z: 0 };
    let (cube, second) = c.get_neighbors(1);
    assert_eq!(cube.len(), 27);
    assert!(cube.iter().any(|i| i.x == -1 && i.y == -1 && i.z == -1));
    assert!(cube.iter().any(|i| i.x == 0 && i.y == 0 && i.z == 0));
    assert_eq!(second.len(), 6);
    assert!(second.iter().any(|i| i.x == 2 && i.y == 0 && i.z == 0));
    let (cube2, _) = c.get_neighbors(2);
    assert_eq!(cube2.len(), 125);
}

#[test]
fn vec3_componentwise_ops() {
    let a = Vec3 {
        x: fx(1, 0),
        y: fx(2, 0),
        z: fx(3, 0),
    };
    let b = Vec3 {
        x: fx(0, 50_000),
        y: fx(0, 0),
        z: fx(-1, 0),
    };
    let s = a.add(b);
    assert_eq!((s.x.raw, s.y.raw, s.z.raw), (150_000, 200_000, 200_000));
    assert_eq!(a.length().raw, norm3_raw(100_000, 200_000, 300_000).raw);
}
