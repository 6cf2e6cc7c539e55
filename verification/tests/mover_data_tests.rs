use lib::mover_data::{pack_mover_user_data, unpack_mover_user_data, MOVER_SENTINEL};

#[test]
fn pack_then_unpack_gives_back_settings() {
    for &(push, clip) in &[(0.0f32, false), (2.5f32, true), (f32::MAX, true), (-1.0f32, false)] {
        let ud = pack_mover_user_data(push.to_bits(), clip);
        let (bits, c) = unpack_mover_user_data(ud).expect("sentinel set");
        assert_eq!(f32::from_bits(bits), push);
        assert_eq!(c, clip);
    }
}

#[test]
fn packed_layout() {
    assert_eq!(pack_mover_user_data(0, false), MOVER_SENTINEL);
    assert_eq!(pack_mover_user_data(1, true), (1u64 << 40) | 2 | 1);
    assert_eq!(pack_mover_user_data(u32::MAX, false), (1u64 << 40) | ((u32::MAX as u64) << 1));
}

#[test]
fn user_data_without_sentinel_has_no_settings() {
    assert_eq!(unpack_mover_user_data(0), None);
    assert_eq!(unpack_mover_user_data(1), None);
    assert_eq!(unpack_mover_user_data((1u64 << 40) - 1), None);
}
