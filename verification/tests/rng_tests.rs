use lib::rng::{random_int, random_int_range, DemoRng, XorShift32, RAND_LIMIT};

#[test]
fn stream_from_sample_seed_matches_reference_values() {
    let mut rng = XorShift32::with_seed(12345);
    assert_eq!(rng.next_int(), 29818);
    assert_eq!(rng.seed(), 3336926330);
    assert_eq!(rng.next_int(), 2479);
    assert_eq!(rng.next_int(), 4000);
    assert_eq!(rng.next_int(), 16874);
    assert_eq!(rng.next_int(), 10707);
    assert_eq!(rng.seed(), 718842323);
}

#[test]
fn raw_seed_draw_matches_generator_draw() {
    let mut seed: u32 = 12345;
    let mut rng = XorShift32::with_seed(12345);
    for _ in 0..100 {
        assert_eq!(random_int(&mut seed), rng.next_int());
        assert_eq!(seed, rng.seed());
    }
}

#[test]
fn reconstructing_generator_from_cell_is_bit_identical() {
    let mut cell: u32 = 42;
    let mut direct: u32 = 42;
    for _ in 0..50 {
        let mut rng = XorShift32::with_seed(cell);
        let a = rng.next_int();
        cell = rng.seed();
        let b = random_int(&mut direct);
        assert_eq!(a, b);
        assert_eq!(cell, direct);
    }
}

#[test]
fn draws_stay_within_rand_limit() {
    let mut rng = XorShift32::with_seed(7);
    for _ in 0..1000 {
        let v = rng.next_int();
        assert!(v >= 0 && v as u32 <= RAND_LIMIT);
    }
}

#[test]
fn range_int_stays_in_range_and_uses_one_draw() {
    let mut rng = XorShift32::with_seed(12345);
    let v = rng.range_int(-3, 5);
    // 29818 % 9 == 1
    assert_eq!(v, -3 + 1);
    assert_eq!(rng.seed(), 3336926330);
    for _ in 0..500 {
        let v = rng.range_int(10, 20);
        assert!((10..=20).contains(&v));
    }
}

#[test]
fn range_int_with_single_value_range() {
    let mut rng = XorShift32::with_seed(99);
    for _ in 0..20 {
        assert_eq!(rng.range_int(4, 4), 4);
    }
}

#[test]
fn random_int_range_matches_generator_range() {
    let mut seed: u32 = 12345;
    let mut rng = XorShift32::with_seed(12345);
    for _ in 0..100 {
        assert_eq!(random_int_range(&mut seed, 0, 2), rng.range_int(0, 2));
    }
}

#[test]
fn zero_seed_is_a_fixed_point() {
    let mut rng = XorShift32::with_seed(0);
    assert_eq!(rng.next_int(), 0);
    assert_eq!(rng.seed(), 0);
}

#[test]
fn nonzero_seed_never_reaches_zero() {
    let mut rng = XorShift32::with_seed(1);
    for _ in 0..10000 {
        rng.next_int();
        assert_ne!(rng.seed(), 0);
    }
}

#[test]
fn demo_lcg_steps() {
    let mut rng = DemoRng(0);
    assert_eq!(rng.next_u32(), 1013904223);
    assert_eq!(rng.next_u32(), 1196435762);
    let mut big = DemoRng(u32::MAX);
    assert_eq!(big.next_u32(), 1013904223u32.wrapping_sub(1664525));
}
