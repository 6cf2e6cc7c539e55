//! Index buffer of the Gear Lift basin mesh.
//!
//! The basin is the staircase outline `BASIN_POINTS` extruded along z: vertex
//! `2 * i` is outline point `i` on the bottom face and `2 * i + 1` the same
//! point on the top face. Outline coordinates are held exactly, in ten
//! thousandths of a metre.
use vstd::prelude::*;

verus! {

/// Number of outline points.
pub const BASIN_POINT_COUNT: usize = 32;

/// Outline x coordinates, in ten thousandths.
pub const BASIN_X: [i64; 32] = [
    -113000, 93375, 93375, 88083, 88083, 3417, 3417, -1875, -1875, -7167, -7167, -12458, -12458,
    -17750, -17750, -23042, -23042, -28333, -28333, -33625, -33625, -38917, -38917, -44208,
    -44208, -49500, -49500, -54792, -54792, -60083, -60083, -113000,
];

/// Outline y coordinates, in ten thousandths.
pub const BASIN_Y: [i64; 32] = [
    -2167, -2167, 71917, 71917, 3125, 3125, 8417, 8417, 13708, 13708, 19000, 19000, 24292, 24292,
    29583, 29583, 34875, 34875, 40167, 40167, 45458, 45458, 50750, 50750, 56042, 56042, 61333,
    61333, 66625, 66625, 71917, 71917,
];

/// Outline point triples of the cap triangulation, three per triangle.
pub const BASIN_CAP: [i32; 90] = [
    1, 2, 3, 1, 3, 4, 0, 1, 4, 0, 4, 5, 31, 0, 5, 5, 6, 7, 31, 5, 7, 7, 8, 9, 31, 7, 9, 9, 10, 11,
    31, 9, 11, 11, 12, 13, 31, 11, 13, 13, 14, 15, 31, 13, 15, 15, 16, 17, 31, 15, 17, 17, 18, 19,
    31, 17, 19, 19, 20, 21, 31, 19, 21, 21, 22, 23, 31, 21, 23, 23, 24, 25, 31, 23, 25, 25, 26, 27,
    31, 25, 27, 27, 28, 29, 31, 27, 29, 29, 30, 31,
];

/// Number of cap triangles.
pub const BASIN_CAP_TRIANGLES: usize = 30;

/// Ordered outline triples `(r0, r1, r2)`, coded `1024 * r0 + 32 * r1 + r2`
/// and sorted, that lie on one line but whose cross product, evaluated in
/// single precision from the outline in metres, rounds to a positive value.
/// Off a line the single-precision sign is the exact sign; on a line it is
/// positive for exactly these triples and zero or negative for the others.
pub const BASIN_COLLINEAR_UP: [u16; 352] = [
    5355, 5357, 5361, 5363, 5367, 5369, 5373, 5489, 5491, 5495, 5553, 5555, 5559, 5687,
    5939, 5943, 6065, 6067, 6071, 6546, 6552, 7116, 7122, 7128, 7525, 7533, 7537, 7539,
    7543, 7589, 7607, 7717, 7781, 7799, 7909, 7973, 7981, 7985, 7987, 7991, 8101, 8109,
    8113, 8115, 8119, 8650, 8656, 8662, 8666, 8714, 8726, 8842, 8848, 8854, 8858, 9034,
    9046, 9098, 9110, 9717, 9723, 9915, 10510, 10512, 10516, 10522, 10524, 10704, 10710, 10714,
    10716, 10774, 10778, 10780, 10902, 10906, 10908, 11094, 11158, 11697, 11699, 11703, 11813, 11815,
    11827, 11831, 11877, 11879, 11895, 12005, 12007, 12081, 12083, 12087, 12209, 12211, 12215, 12510,
    12870, 13074, 13266, 13272, 13479, 13497, 13501, 13561, 13565, 13671, 13689, 13693, 13861, 13863,
    13867, 13925, 13931, 13937, 14053, 14059, 14129, 14131, 14135, 14257, 14259, 14263, 14265, 14664,
    14856, 14858, 14986, 14992, 14998, 15002, 15004, 15048, 15050, 15176, 15178, 15184, 15190, 15240,
    15242, 15248, 15254, 16041, 16059, 16233, 16654, 16660, 16712, 16718, 16724, 16852, 16854, 16858,
    16860, 17046, 17050, 17052, 17096, 17098, 17226, 17238, 17290, 17302, 17581, 17587, 17593, 17597,
    17651, 17657, 17661, 17773, 17779, 17785, 17789, 17843, 17849, 17853, 18039, 18149, 18151, 18155,
    18227, 18231, 18355, 18359, 18648, 18654, 18840, 18846, 19416, 19627, 19641, 19645, 19705, 19709,
    19833, 19837, 19897, 19901, 20005, 20007, 20011, 20013, 20025, 20029, 20197, 20199, 20203, 20205,
    20209, 20279, 20285, 20407, 21000, 21002, 21006, 21192, 21194, 21198, 21200, 21320, 21322, 21326,
    21328, 21334, 21384, 21386, 21390, 21392, 21398, 21402, 21807, 22377, 22383, 22798, 22800, 22804,
    22810, 22812, 22862, 22864, 22868, 22874, 22876, 22996, 23002, 23004, 23054, 23060, 23066, 23068,
    23194, 23196, 23388, 23731, 23737, 23741, 23795, 23801, 23805, 23923, 23929, 23933, 23973, 23979,
    23985, 23987, 23993, 23997, 24115, 24121, 24125, 24185, 24189, 24381, 24798, 24966, 24990, 25158,
    25164, 25182, 26021, 26023, 26149, 26151, 26155, 26213, 26215, 26219, 26221, 26225, 26341, 26343,
    26347, 26349, 26353, 26355, 26541, 26545, 26547, 26551, 26900, 26964, 27092, 27156, 27292, 27336,
    27338, 27342, 27344, 27348, 27542, 27951, 27957, 28149, 28948, 29012, 29140, 29204, 29384, 29386,
    29390, 29392, 29396, 29402, 29524, 30117, 30119, 30123, 30129, 30137, 30245, 30247, 30251, 30265,
    30309, 30311, 30315, 30329, 30437, 30439, 30443, 30445, 30449, 30451, 30457, 31302, 31308, 31494,
    31500, 31506,
];

/// Number of entries of `BASIN_COLLINEAR_UP`.
pub const BASIN_COLLINEAR_UP_LEN: usize = 352;

/// Outline x coordinate of point `i`.
pub open spec fn basin_x(i: int) -> int {
    BASIN_X@[i] as int
}

/// Outline y coordinate of point `i`.
pub open spec fn basin_y(i: int) -> int {
    BASIN_Y@[i] as int
}


/// Outline point `r` of cap triangle `t`, corner `c`.
pub open spec fn cap_corner(t: int, c: int) -> int {
    BASIN_CAP@[3 * t + c] as int
}

/// Twice the signed area of the outline triangle `(r0, r1, r2)`; positive
/// when the triangle winds counter-clockwise seen from +z.
pub open spec fn cross2(r0: int, r1: int, r2: int) -> int {
    (basin_x(r1) - basin_x(r0)) * (basin_y(r2) - basin_y(r0)) - (basin_y(r1) - basin_y(r0)) * (
    basin_x(r2) - basin_x(r0))
}

/// Code of an ordered outline triple in `BASIN_COLLINEAR_UP`.
pub open spec fn triple_code(r0: int, r1: int, r2: int) -> int {
    1024 * r0 + 32 * r1 + r2
}

/// The collinear triple `(r0, r1, r2)` is listed in `BASIN_COLLINEAR_UP`.
pub open spec fn collinear_up(r0: int, r1: int, r2: int) -> bool {
    exists|k: int|
        0 <= k < 352 && #[trigger] BASIN_COLLINEAR_UP@[k] as int == triple_code(r0, r1, r2)
}

/// Whether the outline triangle `(r0, r1, r2)` counts as counter-clockwise
/// seen from +z: the sign of its cross product as the outline's
/// single-precision coordinates give it. Off a line that is the exact sign;
/// on a line the rounding decides, as `BASIN_COLLINEAR_UP` records.
pub open spec fn faces_up(r0: int, r1: int, r2: int) -> bool {
    if cross2(r0, r1, r2) != 0 {
        cross2(r0, r1, r2) > 0
    } else {
        collinear_up(r0, r1, r2)
    }
}

/// The three indices `push_cap` appends: the outline triangle lifted to the
/// face at `v_offset`, in the given order when its winding (`faces_up`)
/// agrees with `want_positive_z` and with the last two swapped otherwise.
pub open spec fn cap_triangle(r0: int, r1: int, r2: int, v_offset: int, want_positive_z: bool) -> Seq<
    i32,
> {
    let v0 = (2 * r0 + v_offset) as i32;
    let v1 = (2 * r1 + v_offset) as i32;
    let v2 = (2 * r2 + v_offset) as i32;
    if faces_up(r0, r1, r2) == want_positive_z {
        seq![v0, v1, v2]
    } else {
        seq![v0, v2, v1]
    }
}

/// The two side-wall triangles between outline points `i` and `i + 1`
/// (wrapping to 0).
pub open spec fn wall_quad(i: int) -> Seq<i32> {
    let j = (i + 1) % 32;
    seq![
        (2 * i) as i32,
        (2 * j) as i32,
        (2 * j + 1) as i32,
        (2 * i) as i32,
        (2 * j + 1) as i32,
        (2 * i + 1) as i32,
    ]
}

/// Side walls for the first `n` outline edges.
pub open spec fn walls(n: nat) -> Seq<i32>
    decreases n,
{
    if n == 0 {
        seq![]
    } else {
        walls((n - 1) as nat) + wall_quad(n - 1)
    }
}

/// Top then bottom cap for cap triangle `t`.
pub open spec fn cap_pair(t: int) -> Seq<i32> {
    cap_triangle(cap_corner(t, 0), cap_corner(t, 1), cap_corner(t, 2), 1, true) + cap_triangle(
        cap_corner(t, 0),
        cap_corner(t, 1),
        cap_corner(t, 2),
        0,
        false,
    )
}

/// Caps for the first `n` cap triangles.
pub open spec fn caps(n: nat) -> Seq<i32>
    decreases n,
{
    if n == 0 {
        seq![]
    } else {
        caps((n - 1) as nat) + cap_pair(n - 1)
    }
}

/// The whole basin index buffer: every side wall, then every cap.
pub open spec fn basin_indices_spec() -> Seq<i32> {
    walls(32) + caps(30)
}

/// Exact twice-area of an outline triangle.
fn cross2_exec(r0: usize, r1: usize, r2: usize) -> (c: i64)
    requires
        r0 < 32,
        r1 < 32,
        r2 < 32,
    ensures
        c as int == cross2(r0 as int, r1 as int, r2 as int),
{
    let (x0, y0) = (BASIN_X[r0], BASIN_Y[r0]);
    let (x1, y1) = (BASIN_X[r1], BASIN_Y[r1]);
    let (x2, y2) = (BASIN_X[r2], BASIN_Y[r2]);
    assert(forall|i: int| 0 <= i < 32 ==> -113000 <= #[trigger] BASIN_X@[i] <= 93375);
    assert(forall|i: int| 0 <= i < 32 ==> -2167 <= #[trigger] BASIN_Y@[i] <= 71917);
    let dx1 = x1 - x0;
    let dy1 = y1 - y0;
    let dx2 = x2 - x0;
    let dy2 = y2 - y0;
    assert(-300000 * 300000 <= dx1 * dy2 <= 300000 * 300000) by (nonlinear_arith)
        requires
            -300000 <= dx1 <= 300000,
            -300000 <= dy2 <= 300000,
    ;
    assert(-300000 * 300000 <= dy1 * dx2 <= 300000 * 300000) by (nonlinear_arith)
        requires
            -300000 <= dy1 <= 300000,
            -300000 <= dx2 <= 300000,
    ;
    dx1 * dy2 - dy1 * dx2
}

/// Whether the collinear triple with code `code` is listed in
/// `BASIN_COLLINEAR_UP`.
fn is_collinear_up(code: u16) -> (found: bool)
    ensures
        found == exists|k: int| 0 <= k < 352 && #[trigger] BASIN_COLLINEAR_UP@[k] == code,
{
    let mut k: usize = 0;
    while k < BASIN_COLLINEAR_UP_LEN
        invariant
            k <= 352,
            forall|j: int| 0 <= j < k ==> #[trigger] BASIN_COLLINEAR_UP@[j] != code,
        decreases 352 - k,
    {
        if BASIN_COLLINEAR_UP[k] == code {
            return true;
        }
        k += 1;
    }
    false
}

/// Whether the outline triangle `(r0, r1, r2)` faces +z (`faces_up`).
fn winds_up(r0: usize, r1: usize, r2: usize) -> (up: bool)
    requires
        r0 < 32,
        r1 < 32,
        r2 < 32,
    ensures
        up == faces_up(r0 as int, r1 as int, r2 as int),
{
    let cross = cross2_exec(r0, r1, r2);
    if cross != 0 {
        cross > 0
    } else {
        let code: u16 = (1024 * r0 + 32 * r1 + r2) as u16;
        let found = is_collinear_up(code);
        proof {
            if found {
                let k = choose|k: int| 0 <= k < 352 && #[trigger] BASIN_COLLINEAR_UP@[k] == code;
                assert(BASIN_COLLINEAR_UP@[k] as int == triple_code(r0 as int, r1 as int, r2 as int));
            } else {
                assert forall|k: int| 0 <= k < 352 implies #[trigger] BASIN_COLLINEAR_UP@[k] as int
                    != triple_code(r0 as int, r1 as int, r2 as int) by {
                    assert(BASIN_COLLINEAR_UP@[k] != code);
                }
            }
        }
        found
    }
}

/// Append one basin cap triangle for outline points `(r0, r1, r2)` lifted to
/// the face at `v_offset` (1 = top, 0 = bottom): `2 * r0 + v_offset` first,
/// then the other two in the given order when the triangle's winding
/// (`faces_up`) agrees with `want_positive_z`, swapped otherwise.
pub fn push_cap(
    indices: &mut Vec<i32>,
    r0: i32,
    r1: i32,
    r2: i32,
    v_offset: i32,
    want_positive_z: bool,
)
    requires
        0 <= r0 < 32,
        0 <= r1 < 32,
        0 <= r2 < 32,
        2 * r0 + v_offset <= i32::MAX,
        2 * r1 + v_offset <= i32::MAX,
        2 * r2 + v_offset <= i32::MAX,
    ensures
        final(indices)@ == old(indices)@ + cap_triangle(
            r0 as int,
            r1 as int,
            r2 as int,
            v_offset as int,
            want_positive_z,
        ),
{
    let positive = winds_up(r0 as usize, r1 as usize, r2 as usize);
    let v0 = 2 * r0 + v_offset;
    let v1 = 2 * r1 + v_offset;
    let v2 = 2 * r2 + v_offset;
    indices.push(v0);
    if positive == want_positive_z {
        indices.push(v1);
        indices.push(v2);
    } else {
        indices.push(v2);
        indices.push(v1);
    }
}

/// Index buffer of the basin mesh: two side-wall triangles per outline edge,
/// then each cap triangle on the top face (facing +z) and on the bottom face
/// (facing -z).
pub fn basin_mesh_indices() -> (indices: Vec<i32>)
    ensures
        indices@ == basin_indices_spec(),
{
    let mut indices: Vec<i32> = Vec::new();
    let mut i: i32 = 0;
    while i < 32
        invariant
            0 <= i <= 32,
            indices@ == walls(i as nat),
        decreases 32 - i,
    {
        let j = (i + 1) % 32;
        let a_lo = 2 * i;
        let a_hi = 2 * i + 1;
        let b_lo = 2 * j;
        let b_hi = 2 * j + 1;
        indices.push(a_lo);
        indices.push(b_lo);
        indices.push(b_hi);
        indices.push(a_lo);
        indices.push(b_hi);
        indices.push(a_hi);
        proof {
            assert(walls((i + 1) as nat) == walls(i as nat) + wall_quad(i as int));
        }
        i += 1;
    }
    let mut k: usize = 0;
    while k + 2 < 90
        invariant
            k % 3 == 0,
            k <= 90,
            indices@ == walls(32) + caps((k / 3) as nat),
        decreases 90 - k,
    {
        assert(forall|m: int| 0 <= m < 90 ==> 0 <= #[trigger] BASIN_CAP@[m] < 32);
        let r0 = BASIN_CAP[k];
        let r1 = BASIN_CAP[k + 1];
        let r2 = BASIN_CAP[k + 2];
        let ghost t = (k / 3) as int;
        assert(3 * t == k);
        push_cap(&mut indices, r0, r1, r2, 1, true);
        push_cap(&mut indices, r0, r1, r2, 0, false);
        proof {
            assert(caps((t + 1) as nat) == caps(t as nat) + cap_pair(t));
            assert(((k + 3) / 3) as nat == (t + 1) as nat);
        }
        k += 3;
    }
    indices
}

/// Every cap triangle of the outline winds counter-clockwise seen from +z.
proof fn lemma_caps_counter_clockwise()
    ensures
        forall|t: int|
            0 <= t < 30 ==> #[trigger] cross2(cap_corner(t, 0), cap_corner(t, 1), cap_corner(t, 2))
                > 0,
{
    assert(basin_x(0) == -113000 && basin_y(0) == -2167);
    assert(basin_x(1) == 93375 && basin_y(1) == -2167);
    assert(basin_x(2) == 93375 && basin_y(2) == 71917);
    assert(basin_x(3) == 88083 && basin_y(3) == 71917);
    assert(basin_x(4) == 88083 && basin_y(4) == 3125);
    assert(basin_x(5) == 3417 && basin_y(5) == 3125);
    assert(basin_x(6) == 3417 && basin_y(6) == 8417);
    assert(basin_x(7) == -1875 && basin_y(7) == 8417);
    assert(basin_x(8) == -1875 && basin_y(8) == 13708);
    assert(basin_x(9) == -7167 && basin_y(9) == 13708);
    assert(basin_x(10) == -7167 && basin_y(10) == 19000);
    assert(basin_x(11) == -12458 && basin_y(11) == 19000);
    assert(basin_x(12) == -12458 && basin_y(12) == 24292);
    assert(basin_x(13) == -17750 && basin_y(13) == 24292);
    assert(basin_x(14) == -17750 && basin_y(14) == 29583);
    assert(basin_x(15) == -23042 && basin_y(15) == 29583);
    assert(basin_x(16) == -23042 && basin_y(16) == 34875);
    assert(basin_x(17) == -28333 && basin_y(17) == 34875);
    assert(basin_x(18) == -28333 && basin_y(18) == 40167);
    assert(basin_x(19) == -33625 && basin_y(19) == 40167);
    assert(basin_x(20) == -33625 && basin_y(20) == 45458);
    assert(basin_x(21) == -38917 && basin_y(21) == 45458);
    assert(basin_x(22) == -38917 && basin_y(22) == 50750);
    assert(basin_x(23) == -44208 && basin_y(23) == 50750);
    assert(basin_x(24) == -44208 && basin_y(24) == 56042);
    assert(basin_x(25) == -49500 && basin_y(25) == 56042);
    assert(basin_x(26) == -49500 && basin_y(26) == 61333);
    assert(basin_x(27) == -54792 && basin_y(27) == 61333);
    assert(basin_x(28) == -54792 && basin_y(28) == 66625);
    assert(basin_x(29) == -60083 && basin_y(29) == 66625);
    assert(basin_x(30) == -60083 && basin_y(30) == 71917);
    assert(basin_x(31) == -113000 && basin_y(31) == 71917);
    assert(cap_corner(0, 0) == 1 && cap_corner(0, 1) == 2 && cap_corner(0, 2) == 3);
    assert(cross2(1, 2, 3) > 0);
    assert(cap_corner(1, 0) == 1 && cap_corner(1, 1) == 3 && cap_corner(1, 2) == 4);
    assert(cross2(1, 3, 4) > 0);
    assert(cap_corner(2, 0) == 0 && cap_corner(2, 1) == 1 && cap_corner(2, 2) == 4);
    assert(cross2(0, 1, 4) > 0);
    assert(cap_corner(3, 0) == 0 && cap_corner(3, 1) == 4 && cap_corner(3, 2) == 5);
    assert(cross2(0, 4, 5) > 0);
    assert(cap_corner(4, 0) == 31 && cap_corner(4, 1) == 0 && cap_corner(4, 2) == 5);
    assert(cross2(31, 0, 5) > 0);
    assert(cap_corner(5, 0) == 5 && cap_corner(5, 1) == 6 && cap_corner(5, 2) == 7);
    assert(cross2(5, 6, 7) > 0);
    assert(cap_corner(6, 0) == 31 && cap_corner(6, 1) == 5 && cap_corner(6, 2) == 7);
    assert(cross2(31, 5, 7) > 0);
    assert(cap_corner(7, 0) == 7 && cap_corner(7, 1) == 8 && cap_corner(7, 2) == 9);
    assert(cross2(7, 8, 9) > 0);
    assert(cap_corner(8, 0) == 31 && cap_corner(8, 1) == 7 && cap_corner(8, 2) == 9);
    assert(cross2(31, 7, 9) > 0);
    assert(cap_corner(9, 0) == 9 && cap_corner(9, 1) == 10 && cap_corner(9, 2) == 11);
    assert(cross2(9, 10, 11) > 0);
    assert(cap_corner(10, 0) == 31 && cap_corner(10, 1) == 9 && cap_corner(10, 2) == 11);
    assert(cross2(31, 9, 11) > 0);
    assert(cap_corner(11, 0) == 11 && cap_corner(11, 1) == 12 && cap_corner(11, 2) == 13);
    assert(cross2(11, 12, 13) > 0);
    assert(cap_corner(12, 0) == 31 && cap_corner(12, 1) == 11 && cap_corner(12, 2) == 13);
    assert(cross2(31, 11, 13) > 0);
    assert(cap_corner(13, 0) == 13 && cap_corner(13, 1) == 14 && cap_corner(13, 2) == 15);
    assert(cross2(13, 14, 15) > 0);
    assert(cap_corner(14, 0) == 31 && cap_corner(14, 1) == 13 && cap_corner(14, 2) == 15);
    assert(cross2(31, 13, 15) > 0);
    assert(cap_corner(15, 0) == 15 && cap_corner(15, 1) == 16 && cap_corner(15, 2) == 17);
    assert(cross2(15, 16, 17) > 0);
    assert(cap_corner(16, 0) == 31 && cap_corner(16, 1) == 15 && cap_corner(16, 2) == 17);
    assert(cross2(31, 15, 17) > 0);
    assert(cap_corner(17, 0) == 17 && cap_corner(17, 1) == 18 && cap_corner(17, 2) == 19);
    assert(cross2(17, 18, 19) > 0);
    assert(cap_corner(18, 0) == 31 && cap_corner(18, 1) == 17 && cap_corner(18, 2) == 19);
    assert(cross2(31, 17, 19) > 0);
    assert(cap_corner(19, 0) == 19 && cap_corner(19, 1) == 20 && cap_corner(19, 2) == 21);
    assert(cross2(19, 20, 21) > 0);
    assert(cap_corner(20, 0) == 31 && cap_corner(20, 1) == 19 && cap_corner(20, 2) == 21);
    assert(cross2(31, 19, 21) > 0);
    assert(cap_corner(21, 0) == 21 && cap_corner(21, 1) == 22 && cap_corner(21, 2) == 23);
    assert(cross2(21, 22, 23) > 0);
    assert(cap_corner(22, 0) == 31 && cap_corner(22, 1) == 21 && cap_corner(22, 2) == 23);
    assert(cross2(31, 21, 23) > 0);
    assert(cap_corner(23, 0) == 23 && cap_corner(23, 1) == 24 && cap_corner(23, 2) == 25);
    assert(cross2(23, 24, 25) > 0);
    assert(cap_corner(24, 0) == 31 && cap_corner(24, 1) == 23 && cap_corner(24, 2) == 25);
    assert(cross2(31, 23, 25) > 0);
    assert(cap_corner(25, 0) == 25 && cap_corner(25, 1) == 26 && cap_corner(25, 2) == 27);
    assert(cross2(25, 26, 27) > 0);
    assert(cap_corner(26, 0) == 31 && cap_corner(26, 1) == 25 && cap_corner(26, 2) == 27);
    assert(cross2(31, 25, 27) > 0);
    assert(cap_corner(27, 0) == 27 && cap_corner(27, 1) == 28 && cap_corner(27, 2) == 29);
    assert(cross2(27, 28, 29) > 0);
    assert(cap_corner(28, 0) == 31 && cap_corner(28, 1) == 27 && cap_corner(28, 2) == 29);
    assert(cross2(31, 27, 29) > 0);
    assert(cap_corner(29, 0) == 29 && cap_corner(29, 1) == 30 && cap_corner(29, 2) == 31);
    assert(cross2(29, 30, 31) > 0);
    assert forall|t: int| 0 <= t < 30 implies #[trigger] cross2(
        cap_corner(t, 0),
        cap_corner(t, 1),
        cap_corner(t, 2),
    ) > 0 by {
        assert(0 <= t < 30);
    }
}

proof fn lemma_walls(n: nat)
    requires
        n <= 32,
    ensures
        walls(n).len() == 6 * n,
        forall|k: int| 0 <= k < walls(n).len() ==> 0 <= #[trigger] walls(n)[k] < 64,
        forall|i: int| 0 <= i < n ==> #[trigger] walls(n).subrange(6 * i, 6 * i + 6) == wall_quad(i),
    decreases n,
{
    if n > 0 {
        let m = (n - 1) as nat;
        lemma_walls(m);
        let w = walls(m);
        let q = wall_quad(m as int);
        assert(walls(n) == w + q);
        assert forall|k: int| 0 <= k < walls(n).len() implies 0 <= #[trigger] walls(n)[k] < 64 by {
            if k >= w.len() {
                assert(walls(n)[k] == q[k - w.len()]);
            } else {
                assert(walls(n)[k] == w[k]);
            }
        }
        assert forall|i: int| 0 <= i < n implies #[trigger] walls(n).subrange(6 * i, 6 * i + 6)
            == wall_quad(i) by {
            if i < m {
                assert(walls(n).subrange(6 * i, 6 * i + 6) =~= w.subrange(6 * i, 6 * i + 6));
            } else {
                assert(walls(n).subrange(6 * i, 6 * i + 6) =~= q);
            }
        }
    }
}

proof fn lemma_cap_pair(t: int)
    requires
        0 <= t < 30,
    ensures
        0 <= cap_corner(t, 0) < 32,
        0 <= cap_corner(t, 1) < 32,
        0 <= cap_corner(t, 2) < 32,
        cap_pair(t) == seq![
            (2 * cap_corner(t, 0) + 1) as i32,
            (2 * cap_corner(t, 1) + 1) as i32,
            (2 * cap_corner(t, 2) + 1) as i32,
            (2 * cap_corner(t, 0)) as i32,
            (2 * cap_corner(t, 2)) as i32,
            (2 * cap_corner(t, 1)) as i32,
        ],
{
    lemma_caps_counter_clockwise();
    assert(forall|m: int| 0 <= m < 90 ==> 0 <= #[trigger] BASIN_CAP@[m] < 32);
    assert(cross2(cap_corner(t, 0), cap_corner(t, 1), cap_corner(t, 2)) > 0);
    assert(cap_pair(t) =~= seq![
        (2 * cap_corner(t, 0) + 1) as i32,
        (2 * cap_corner(t, 1) + 1) as i32,
        (2 * cap_corner(t, 2) + 1) as i32,
        (2 * cap_corner(t, 0)) as i32,
        (2 * cap_corner(t, 2)) as i32,
        (2 * cap_corner(t, 1)) as i32,
    ]);
}

proof fn lemma_caps(n: nat)
    requires
        n <= 30,
    ensures
        caps(n).len() == 6 * n,
        forall|k: int| 0 <= k < caps(n).len() ==> 0 <= #[trigger] caps(n)[k] < 64,
        forall|t: int| 0 <= t < n ==> #[trigger] caps(n).subrange(6 * t, 6 * t + 6) == cap_pair(t),
    decreases n,
{
    if n > 0 {
        let m = (n - 1) as nat;
        lemma_caps(m);
        lemma_cap_pair(m as int);
        let c = caps(m);
        let p = cap_pair(m as int);
        assert(caps(n) == c + p);
        assert forall|k: int| 0 <= k < caps(n).len() implies 0 <= #[trigger] caps(n)[k] < 64 by {
            if k >= c.len() {
                assert(caps(n)[k] == p[k - c.len()]);
            } else {
                assert(caps(n)[k] == c[k]);
            }
        }
        assert forall|t: int| 0 <= t < n implies #[trigger] caps(n).subrange(6 * t, 6 * t + 6)
            == cap_pair(t) by {
            if t < m {
                assert(caps(n).subrange(6 * t, 6 * t + 6) =~= c.subrange(6 * t, 6 * t + 6));
            } else {
                assert(caps(n).subrange(6 * t, 6 * t + 6) =~= p);
            }
        }
    }
}

/// The basin index buffer holds 372 indices (64 wall and 60 cap triangles),
/// and every index names one of the 64 extruded outline vertices.
pub proof fn lemma_basin_indices_valid()
    ensures
        basin_indices_spec().len() == 372,
        forall|k: int|
            0 <= k < basin_indices_spec().len() ==> 0 <= #[trigger] basin_indices_spec()[k] < 64,
{
    lemma_walls(32);
    lemma_caps(30);
    let s = basin_indices_spec();
    assert forall|k: int| 0 <= k < s.len() implies 0 <= #[trigger] s[k] < 64 by {
        if k < 192 {
            assert(s[k] == walls(32)[k]);
        } else {
            assert(s[k] == caps(30)[k - 192]);
        }
    }
}

/// Each outline edge `i` contributes the quad between its bottom and top
/// vertices as two triangles, at positions `6 i .. 6 i + 6`.
pub proof fn lemma_basin_wall(i: int)
    requires
        0 <= i < 32,
    ensures
        basin_indices_spec().subrange(6 * i, 6 * i + 6) == wall_quad(i),
{
    lemma_walls(32);
    lemma_caps(30);
    assert(basin_indices_spec().subrange(6 * i, 6 * i + 6) =~= walls(32).subrange(6 * i, 6 * i + 6));
}

/// Each cap triangle appears once on the top face wound to face +z and once
/// on the bottom face with the opposite winding, facing -z.
pub proof fn lemma_basin_cap_faces_outward(t: int)
    requires
        0 <= t < 30,
    ensures
        basin_indices_spec().subrange(192 + 6 * t, 198 + 6 * t) == seq![
            (2 * cap_corner(t, 0) + 1) as i32,
            (2 * cap_corner(t, 1) + 1) as i32,
            (2 * cap_corner(t, 2) + 1) as i32,
            (2 * cap_corner(t, 0)) as i32,
            (2 * cap_corner(t, 2)) as i32,
            (2 * cap_corner(t, 1)) as i32,
        ],
{
    lemma_walls(32);
    lemma_caps(30);
    lemma_cap_pair(t);
    assert(basin_indices_spec().subrange(192 + 6 * t, 198 + 6 * t) =~= caps(30).subrange(
        6 * t,
        6 * t + 6,
    ));
}

} // verus!
