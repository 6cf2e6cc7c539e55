//! Shape user data of the character mover's collision planes.
//!
//! A shape's `u64` user data carries the mover settings of that shape: a
//! sentinel in bit 40, the push limit (an `f32`, held here as its IEEE bit
//! pattern) in bits 1..33 and the clip-velocity flag in bit 0. User data
//! without the sentinel carries no mover settings.
use vstd::prelude::*;

verus! {

/// Sentinel bit marking user data that carries mover settings.
pub const MOVER_SENTINEL: u64 = 0x100_0000_0000;

/// The packed user data for push-limit bits `max_push_bits` and flag `clip`.
pub open spec fn packed_user_data(max_push_bits: u32, clip: bool) -> u64 {
    MOVER_SENTINEL | ((max_push_bits as u64) << 1u64) | (if clip { 1u64 } else { 0u64 })
}

/// What unpacking `ud` yields.
pub open spec fn unpacked_user_data(ud: u64) -> Option<(u32, bool)> {
    if ud & MOVER_SENTINEL == 0 {
        None
    } else {
        Some(((ud >> 1u64) as u32, ud & 1 != 0))
    }
}

/// Pack the mover settings of a shape: `max_push_bits` is the bit pattern of
/// the `f32` push limit (`f32::to_bits`), `clip_velocity` the clip flag.
pub fn pack_mover_user_data(max_push_bits: u32, clip_velocity: bool) -> (ud: u64)
    ensures
        ud == packed_user_data(max_push_bits, clip_velocity),
{
    MOVER_SENTINEL | ((max_push_bits as u64) << 1u64) | (if clip_velocity { 1u64 } else { 0u64 })
}

/// Unpack the mover settings of a shape: `None` when the sentinel is absent,
/// else the push-limit bit pattern and the clip flag.
pub fn unpack_mover_user_data(ud: u64) -> (r: Option<(u32, bool)>)
    ensures
        r == unpacked_user_data(ud),
{
    if ud & MOVER_SENTINEL == 0 {
        return None;
    }
    Some(((ud >> 1u64) as u32, ud & 1 != 0))
}

/// Unpacking what was packed gives back the push-limit bits and the flag.
pub proof fn lemma_unpack_pack(max_push_bits: u32, clip: bool)
    ensures
        unpacked_user_data(packed_user_data(max_push_bits, clip)) == Some((max_push_bits, clip)),
{
    let c: u64 = if clip { 1u64 } else { 0u64 };
    let b = max_push_bits as u64;
    assert(b < 0x1_0000_0000);
    assert((0x100_0000_0000u64 | (b << 1u64) | c) & 0x100_0000_0000u64 != 0) by (bit_vector);
    assert((((0x100_0000_0000u64 | (b << 1u64) | c) >> 1u64) as u32) as u64 == b) by (bit_vector)
        requires
            b < 0x1_0000_0000u64,
            c <= 1u64,
    ;
    assert(((0x100_0000_0000u64 | (b << 1u64) | c) & 1u64 != 0) == (c == 1u64)) by (bit_vector)
        requires
            c <= 1u64,
    ;
}

/// User data below the sentinel bit (plain flags and small tags) carries no
/// mover settings.
pub proof fn lemma_small_user_data_has_no_settings(ud: u64)
    requires
        ud < MOVER_SENTINEL,
    ensures
        unpacked_user_data(ud) is None,
{
    assert(ud & 0x100_0000_0000u64 == 0) by (bit_vector)
        requires
            ud < 0x100_0000_0000u64,
    ;
}

} // verus!
