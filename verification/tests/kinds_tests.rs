use lib::kinds::{body_type_from_index, BodyKind, ManifoldKind, SensorScene};

#[test]
fn body_types_by_engine_number() {
    assert!(body_type_from_index(0) == BodyKind::Static);
    assert!(body_type_from_index(1) == BodyKind::Kinematic);
    assert!(body_type_from_index(2) == BodyKind::Dynamic);
    assert!(body_type_from_index(7) == BodyKind::Static);
}

#[test]
fn manifold_scene_ids() {
    assert!(ManifoldKind::from_id(0) == ManifoldKind::SphereSphere);
    assert!(ManifoldKind::from_id(7) == ManifoldKind::HullHull);
    assert!(ManifoldKind::from_id(8) == ManifoldKind::TriangleHull);
    assert!(ManifoldKind::from_id(42) == ManifoldKind::TriangleHull);
    assert!(ManifoldKind::from_id(3).is_triangle());
    assert!(ManifoldKind::from_id(6).is_triangle());
    assert!(!ManifoldKind::from_id(5).is_triangle());
}

#[test]
fn sensor_scene_ids() {
    assert!(SensorScene::from_id(0) == SensorScene::Visit);
    assert!(SensorScene::from_id(2) == SensorScene::Benchmark);
    assert!(SensorScene::from_id(6) == SensorScene::PersistentContact);
    assert!(SensorScene::from_id(9) == SensorScene::Visit);
}
