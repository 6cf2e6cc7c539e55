use lib::sensor_events::{
    bench_filter_row, bench_sensor_filter, classify_begin, row_user_data, sorted_unique,
    BeginAction, BenchmarkClock, SensorEventStats, ACTIVE_USER_DATA, BENCH_ROWS,
};

#[test]
fn row_user_data_encoding() {
    assert_eq!(row_user_data(0), 2);
    assert_eq!(row_user_data(19), 40);
    assert_eq!(row_user_data(39), 80);
    assert_eq!(bench_filter_row(), 20);
    assert_eq!(BENCH_ROWS, 40);
}

#[test]
fn filter_suppresses_passive_filter_row_only() {
    let row = bench_filter_row() as u64;
    // Sensor on the first shape.
    assert!(!bench_sensor_filter(true, row_user_data(20), false, 0, row));
    assert!(bench_sensor_filter(true, row_user_data(19), false, 0, row));
    assert!(bench_sensor_filter(true, ACTIVE_USER_DATA, false, 0, row));
    // Sensor on the second shape.
    assert!(!bench_sensor_filter(false, 0, true, row_user_data(20), row));
    assert!(bench_sensor_filter(false, 0, true, row_user_data(21), row));
    // No sensor at all.
    assert!(bench_sensor_filter(false, row_user_data(20), false, row_user_data(20), row));
    // The first shape's data wins when both are sensors.
    assert!(bench_sensor_filter(true, row_user_data(3), true, row_user_data(20), row));
}

#[test]
fn begin_events_consume_only_for_active_sensors() {
    assert!(matches!(classify_begin(ACTIVE_USER_DATA), BeginAction::Consume));
    assert!(matches!(classify_begin(row_user_data(0)), BeginAction::Highlight));
    assert!(matches!(classify_begin(0), BeginAction::Highlight));
}

#[test]
fn stats_accumulate_and_wrap() {
    let mut s = SensorEventStats::new();
    s.record(3, 1);
    s.record(2, 4);
    assert_eq!((s.begin_total, s.end_total, s.last_begin, s.last_end), (5, 5, 2, 4));
    assert_eq!(s.readout(false), [5, 5, 2, 4, 0]);
    s.begin_total = u32::MAX;
    s.record(2, 0);
    assert_eq!(s.begin_total, 1);
    s.clear_counts();
    assert_eq!((s.begin_total, s.end_total, s.last_begin, s.last_end), (0, 0, 0, 0));
}

#[test]
fn benchmark_stats_track_maxima() {
    let mut s = SensorEventStats::new();
    s.record_benchmark(7, 2);
    s.record_benchmark(3, 9);
    s.record_benchmark(5, 1);
    assert_eq!((s.max_begin, s.max_end), (7, 9));
    assert_eq!(s.readout(true), [7, 9, 5, 1, 1]);
    assert_eq!(s.begin_total, 15);
}

#[test]
fn benchmark_clock_processes_once_and_spawns_every_32_steps() {
    let mut c = BenchmarkClock::new();
    assert!(!c.should_process());
    let mut spawned = Vec::new();
    for _ in 0..100 {
        c.tick();
        assert!(c.should_process());
        if c.spawns_row() {
            spawned.push(c.step_count);
        }
        c.finish();
        assert!(!c.should_process());
    }
    assert_eq!(spawned, vec![32, 64, 96]);
    let mut w = BenchmarkClock { step_count: u32::MAX, last_step_count: 0 };
    w.tick();
    assert_eq!(w.step_count, 0);
    assert!(w.spawns_row());
}

#[test]
fn zombies_sorted_and_deduplicated() {
    assert_eq!(sorted_unique(&vec![5, 3, 5, 9, 3, -1]), vec![-1, 3, 5, 9]);
    assert_eq!(sorted_unique(&vec![]), Vec::<i32>::new());
    assert_eq!(sorted_unique(&vec![4, 4, 4]), vec![4]);
}

use lib::sensor_events::{forget_joint, push_capped, remaining_joints, track_contact, MAX_HIT_EVENTS};

#[test]
fn hit_events_capped() {
    let mut v: Vec<u32> = (0..30).collect();
    push_capped(&mut v, &[100, 101, 102, 103], MAX_HIT_EVENTS);
    assert_eq!(v.len(), 32);
    assert_eq!(&v[30..], &[100, 101]);
    push_capped(&mut v, &[7], MAX_HIT_EVENTS);
    assert_eq!(v.len(), 32);
    let mut w: Vec<u32> = Vec::new();
    push_capped(&mut w, &[1, 2], MAX_HIT_EVENTS);
    assert_eq!(w, vec![1, 2]);
}

#[test]
fn broken_joints_are_forgotten() {
    let mut joints = vec![Some(10u32), None, Some(12), Some(13), None, Some(15)];
    assert_eq!(remaining_joints(&joints), 4);
    forget_joint(&mut joints, 2);
    assert_eq!(remaining_joints(&joints), 3);
    forget_joint(&mut joints, 1);
    forget_joint(&mut joints, 99);
    assert_eq!(remaining_joints(&joints), 3);
    assert_eq!(joints[2], None);
}

#[test]
fn persistent_contact_tracking() {
    assert_eq!(track_contact(None, &[], &[]), None);
    assert_eq!(track_contact(None, &[5, 6], &[]), Some(5));
    assert_eq!(track_contact(Some(5), &[], &[3]), Some(5));
    assert_eq!(track_contact(Some(5), &[], &[3, 5]), None);
    assert_eq!(track_contact(Some(5), &[8], &[5]), Some(8));
    assert_eq!(track_contact(Some(5), &[8], &[8]), None);
}
