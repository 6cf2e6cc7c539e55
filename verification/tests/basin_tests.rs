use lib::basin::{
    basin_mesh_indices, push_cap, BASIN_CAP, BASIN_CAP_TRIANGLES, BASIN_POINT_COUNT, BASIN_X,
    BASIN_Y,
};

/// The outline as the sample writes it, in metres (single precision).
const OUTLINE_F32: [(f32, f32); 32] = [
    (-11.3000, -0.2167),
    (9.3375, -0.2167),
    (9.3375, 7.1917),
    (8.8083, 7.1917),
    (8.8083, 0.3125),
    (0.3417, 0.3125),
    (0.3417, 0.8417),
    (-0.1875, 0.8417),
    (-0.1875, 1.3708),
    (-0.7167, 1.3708),
    (-0.7167, 1.9000),
    (-1.2458, 1.9000),
    (-1.2458, 2.4292),
    (-1.7750, 2.4292),
    (-1.7750, 2.9583),
    (-2.3042, 2.9583),
    (-2.3042, 3.4875),
    (-2.8333, 3.4875),
    (-2.8333, 4.0167),
    (-3.3625, 4.0167),
    (-3.3625, 4.5458),
    (-3.8917, 4.5458),
    (-3.8917, 5.0750),
    (-4.4208, 5.0750),
    (-4.4208, 5.6042),
    (-4.9500, 5.6042),
    (-4.9500, 6.1333),
    (-5.4792, 6.1333),
    (-5.4792, 6.6625),
    (-6.0083, 6.6625),
    (-6.0083, 7.1917),
    (-11.3000, 7.1917),
];

#[test]
fn integer_outline_is_the_decimal_outline() {
    for i in 0..BASIN_POINT_COUNT {
        let (x, y) = OUTLINE_F32[i];
        assert_eq!((x as f64 * 10000.0).round() as i64, BASIN_X[i]);
        assert_eq!((y as f64 * 10000.0).round() as i64, BASIN_Y[i]);
    }
}

/// The order the sample's single-precision winding test gives for `(r0, r1, r2)`.
fn float_order(r0: usize, r1: usize, r2: usize, v_offset: i32, want_positive_z: bool) -> Vec<i32> {
    let (p0, p1, p2) = (OUTLINE_F32[r0], OUTLINE_F32[r1], OUTLINE_F32[r2]);
    let cross = (p1.0 - p0.0) * (p2.1 - p0.1) - (p1.1 - p0.1) * (p2.0 - p0.0);
    let (v0, v1, v2) = (2 * r0 as i32 + v_offset, 2 * r1 as i32 + v_offset, 2 * r2 as i32 + v_offset);
    if (cross > 0.0) == want_positive_z {
        vec![v0, v1, v2]
    } else {
        vec![v0, v2, v1]
    }
}

#[test]
fn winding_matches_single_precision_winding_on_every_triple() {
    for r0 in 0..BASIN_POINT_COUNT {
        for r1 in 0..BASIN_POINT_COUNT {
            for r2 in 0..BASIN_POINT_COUNT {
                for &(off, up) in &[(0, true), (1, false)] {
                    let mut v = Vec::new();
                    push_cap(&mut v, r0 as i32, r1 as i32, r2 as i32, off, up);
                    assert_eq!(v, float_order(r0, r1, r2, off, up), "triple {r0} {r1} {r2}");
                }
            }
        }
    }
}

#[test]
fn collinear_triple_follows_rounded_sign() {
    // Points 5, 7 and 11 lie on one line; in single precision their cross
    // product rounds slightly positive, so the order is kept for +z only.
    let mut v = Vec::new();
    push_cap(&mut v, 5, 7, 11, 0, false);
    assert_eq!(v, vec![10, 22, 14]);
    let mut w = Vec::new();
    push_cap(&mut w, 5, 7, 11, 0, true);
    assert_eq!(w, vec![10, 14, 22]);
    // The same points in another order round slightly negative.
    let mut z = Vec::new();
    push_cap(&mut z, 5, 11, 7, 0, true);
    assert_eq!(z, vec![10, 14, 22]);
    // Three points on the bottom edge: exactly zero either way.
    let mut e = Vec::new();
    push_cap(&mut e, 0, 1, 0, 0, true);
    assert_eq!(e, vec![0, 0, 2]);
}

#[test]
fn push_cap_at_the_offset_limit() {
    let mut v = Vec::new();
    push_cap(&mut v, 0, 0, 0, i32::MAX, true);
    assert_eq!(v, vec![i32::MAX, i32::MAX, i32::MAX]);
}

#[test]
fn push_cap_orders_by_wanted_facing() {
    // Outline triangle (1, 2, 3) winds counter-clockwise.
    let mut v = vec![7];
    push_cap(&mut v, 1, 2, 3, 1, true);
    assert_eq!(v, vec![7, 3, 5, 7]);
    let mut w = Vec::new();
    push_cap(&mut w, 1, 2, 3, 0, false);
    assert_eq!(w, vec![2, 6, 4]);
    let mut cw = Vec::new();
    push_cap(&mut cw, 3, 2, 1, 0, true);
    assert_eq!(cw, vec![6, 2, 4]);
}

#[test]
fn basin_index_buffer_layout() {
    let idx = basin_mesh_indices();
    assert_eq!(idx.len(), 372);
    assert!(idx.iter().all(|&i| (0..64).contains(&i)));
    assert_eq!(&idx[0..6], &[0, 2, 3, 0, 3, 1]);
    // Last wall wraps from outline point 31 back to point 0.
    assert_eq!(&idx[186..192], &[62, 0, 1, 62, 1, 63]);
    // First cap triangle (1, 2, 3): top face then bottom face.
    assert_eq!(&idx[192..198], &[3, 5, 7, 2, 6, 4]);
    // Last cap triangle (29, 30, 31).
    assert_eq!(&idx[366..372], &[59, 61, 63, 58, 62, 60]);
}
