use lib::cast_slots::{
    clamp_selector, create_count, shape_from_code, shape_material_id, slot_body_type,
    slot_is_ignored, CastShape, CastSlots, MAX_COUNT,
};
use lib::kinds::BodyKind;

/// Drive the slot ring the way the sample's "create shapes" button does,
/// with fresh body handles standing in for the world's.
fn add_shapes(slots: &mut CastSlots<u32>, next_id: &mut u32, shape_type: i32, count: i32) -> u32 {
    if shape_from_code(shape_type).is_none() {
        return 0;
    }
    for _ in 0..create_count(count) {
        let (_slot, _evicted) = slots.claim_slot();
        slots.occupy(*next_id, *next_id as i32 - 1);
        *next_id += 1;
    }
    slots.occupied_count()
}

#[test]
fn spawn_counts_and_destroy_match_c_buttons() {
    let mut slots: CastSlots<u32> = CastSlots::new();
    let mut next = 1;
    assert_eq!(add_shapes(&mut slots, &mut next, 5, 10), 10, "Spheres x 10");
    assert_eq!(add_shapes(&mut slots, &mut next, 0, 10), 20, "Capsules x 10");
    assert_eq!(add_shapes(&mut slots, &mut next, 3, 10), 30, "Hulls x 10");
    assert_eq!(add_shapes(&mut slots, &mut next, 4, 1), 31, "Meshes x 1");
    assert_eq!(add_shapes(&mut slots, &mut next, 2, 1), 32, "Height Field x 1");
    assert!(slots.destroy_one().is_some());
    assert_eq!(slots.occupied_count(), 31, "Destroy Shape removes one body");
}

#[test]
fn ignore_aabb_slots_match_ignore_base() {
    let mut slots: CastSlots<u32> = CastSlots::new();
    let mut next = 1;
    assert_eq!(add_shapes(&mut slots, &mut next, 5, 10), 10);
    let ignored = slots.ignored_occupied_slots();
    assert_eq!(ignored.len(), 1, "exactly one ignored sphere in first 10");
    assert_eq!(ignored, vec![7]);
}

#[test]
fn ring_wraps_and_evicts_oldest() {
    let mut slots: CastSlots<u32> = CastSlots::new();
    let mut next = 1;
    assert_eq!(add_shapes(&mut slots, &mut next, 5, 64), 64);
    let (slot, evicted) = slots.claim_slot();
    assert_eq!(slot, 0);
    assert_eq!(evicted, Some(1));
    assert_eq!(slots.occupied_count(), 63);
    slots.occupy(1000, 999);
    assert_eq!(slots.occupied_count(), MAX_COUNT as u32);
    assert_eq!(slots.ignored_occupied_slots(), vec![7, 15, 23, 31, 39, 47, 55, 63]);
}

#[test]
fn unknown_shape_code_creates_nothing() {
    let mut slots: CastSlots<u32> = CastSlots::new();
    let mut next = 1;
    assert_eq!(add_shapes(&mut slots, &mut next, 1, 5), 0);
    assert_eq!(add_shapes(&mut slots, &mut next, 5, 0), 1);
    assert_eq!(add_shapes(&mut slots, &mut next, 5, -3), 2);
}

#[test]
fn destroy_and_forget_take_first_matching_slot() {
    let mut slots: CastSlots<u32> = CastSlots::new();
    assert_eq!(slots.destroy_one(), None);
    let mut next = 1;
    add_shapes(&mut slots, &mut next, 3, 3);
    slots.forget_body_index(1);
    assert_eq!(slots.occupied_count(), 2);
    assert_eq!(slots.destroy_one(), Some(1));
    assert_eq!(slots.destroy_one(), Some(3));
    assert_eq!(slots.destroy_one(), None);
}

#[test]
fn slot_properties() {
    assert!(slot_body_type(0, CastShape::Sphere) == BodyKind::Kinematic);
    assert!(slot_body_type(2, CastShape::Sphere) == BodyKind::Dynamic);
    assert!(slot_body_type(1, CastShape::Hull) == BodyKind::Static);
    assert!(slot_body_type(6, CastShape::Capsule) == BodyKind::Kinematic);
    assert!(slot_body_type(0, CastShape::Height) == BodyKind::Static);
    assert!(slot_is_ignored(7) && slot_is_ignored(15) && !slot_is_ignored(8));
    assert_eq!(shape_material_id(CastShape::Sphere), 11);
    assert_eq!(shape_material_id(CastShape::Height), 55);
    assert_eq!(clamp_selector(-2), 0);
    assert_eq!(clamp_selector(9), 3);
    assert_eq!(clamp_selector(2), 2);
}

#[test]
fn creates_from_empty_count_up_to_the_ring_size() {
    let mut slots: CastSlots<u32> = CastSlots::new();
    let mut next = 1;
    assert_eq!(add_shapes(&mut slots, &mut next, 5, 0), 1);
    let mut fresh: CastSlots<u32> = CastSlots::new();
    let mut next2 = 1;
    assert_eq!(add_shapes(&mut fresh, &mut next2, 5, 70), 64);
    assert_eq!(add_shapes(&mut fresh, &mut next2, 3, 5), 64);
    // After 75 creates the cursor sits at slot 75 mod 64 = 11.
    assert_eq!(fresh.claim_slot().0, 11);
}
