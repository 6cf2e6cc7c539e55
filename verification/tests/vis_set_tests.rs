use lib::vis_set::VisSet;

#[test]
fn push_find_and_color() {
    let mut v: VisSet<&str> = VisSet::new();
    v.push("a", 10, 0, false);
    v.push("b", 11, 5, true);
    v.push("c", 12, 0, true);
    assert_eq!(v.slot_count(), 3);
    assert_eq!(v.find(10), Some(0));
    assert_eq!(v.find(12), Some(2));
    assert_eq!(v.find(99), None);
    assert_eq!(v.topology_version(), 2);
    assert_eq!(v.sensor_slots(), vec![1, 2]);
    assert_eq!(v.slot_color(1), 5);
    assert_eq!(v.slot_body(1).color, 5);
    assert_eq!(v.slot_body(1).body, "b");
    v.set_color(1, 0x00ff00);
    assert_eq!(v.find(11), Some(1));
    assert_eq!(v.slot_color(1), 0x00ff00);
    assert_eq!(v.slot_body(1).color, 0x00ff00);
    assert_eq!(v.slot_body(1).body, "b");
    assert_eq!(v.slot_body(0).color, 0);
}

#[test]
fn removal_keeps_body_colors_with_their_slots() {
    let mut v: VisSet<u8> = VisSet::new();
    v.push(0, 100, 7, false);
    v.push(1, 101, 8, false);
    v.push(2, 102, 9, true);
    v.remove_body(100);
    assert_eq!(v.slot_body(0).body, 2);
    assert_eq!(v.slot_body(0).color, 9);
    assert_eq!(v.slot_color(0), 9);
    assert_eq!(v.slot_color(1), 8);
}

#[test]
fn remove_moves_last_slot_and_bumps_topology() {
    let mut v: VisSet<u8> = VisSet::new();
    v.push(0, 100, 0, false);
    v.push(1, 101, 0, false);
    v.push(2, 102, 0, true);
    let t = v.topology_version();
    // Removing a plain slot relocates the sensor in the last slot.
    v.remove_body(100);
    assert_eq!(v.find(100), None);
    assert_eq!(v.find(102), Some(0));
    assert_eq!(v.find(101), Some(1));
    assert_eq!(v.topology_version(), t + 1);
    assert_eq!(v.sensor_slots(), vec![0]);
    // Removing the sensor itself bumps once.
    v.remove_body(102);
    assert_eq!(v.topology_version(), t + 2);
    assert_eq!(v.find(101), Some(0));
    assert_eq!(v.slot_count(), 1);
    // Removing an unknown body changes nothing.
    v.remove_body(7);
    assert_eq!(v.slot_count(), 1);
    assert_eq!(v.topology_version(), t + 2);
}

#[test]
fn removing_last_slot_does_not_relocate() {
    let mut v: VisSet<u8> = VisSet::new();
    v.push(0, 1, 0, true);
    v.push(1, 2, 0, true);
    let t = v.topology_version();
    v.remove_body(2);
    assert_eq!(v.topology_version(), t + 1);
    assert_eq!(v.find(1), Some(0));
}
