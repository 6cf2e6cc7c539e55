//! Scene and body selectors shared by the samples.
use vstd::prelude::*;

verus! {

/// Body types of the engine.
#[derive(Clone, Copy, PartialEq, Eq, Structural)]
pub enum BodyKind {
    Static,
    Kinematic,
    Dynamic,
}

/// The body type with engine number `index` (0 static, 1 kinematic,
/// 2 dynamic); other numbers give a static body.
pub fn body_type_from_index(index: i32) -> (k: BodyKind)
    ensures
        k == (if index == 1 {
            BodyKind::Kinematic
        } else if index == 2 {
            BodyKind::Dynamic
        } else {
            BodyKind::Static
        }),
{
    match index {
        1 => BodyKind::Kinematic,
        2 => BodyKind::Dynamic,
        _ => BodyKind::Static,
    }
}

/// The collide pairings of the manifold viewer, one per sample.
#[derive(Clone, Copy, PartialEq, Eq, Structural)]
pub enum ManifoldKind {
    SphereSphere,
    CapsuleSphere,
    HullSphere,
    TriangleSphere,
    CapsuleCapsule,
    CapsuleHull,
    TriangleCapsule,
    HullHull,
    TriangleHull,
}

/// Position of a pairing in the declared order of the pairings.
pub open spec fn manifold_position(k: ManifoldKind) -> int {
    match k {
        ManifoldKind::SphereSphere => 0,
        ManifoldKind::CapsuleSphere => 1,
        ManifoldKind::HullSphere => 2,
        ManifoldKind::TriangleSphere => 3,
        ManifoldKind::CapsuleCapsule => 4,
        ManifoldKind::CapsuleHull => 5,
        ManifoldKind::TriangleCapsule => 6,
        ManifoldKind::HullHull => 7,
        ManifoldKind::TriangleHull => 8,
    }
}

/// Scene id `id` in `0..8` selects the pairing at position `id` of the
/// declared order; every other id selects the last pairing.
pub proof fn lemma_manifold_id_order(id: i32, k: ManifoldKind)
    ensures
        manifold_kind_spec(id) == k <==> if 0 <= id < 8 {
            manifold_position(k) == id
        } else {
            k == ManifoldKind::TriangleHull
        },
{
}

/// The pairing of scene id `id`; ids past the last give the last pairing.
pub open spec fn manifold_kind_spec(id: i32) -> ManifoldKind {
    if id == 0 {
        ManifoldKind::SphereSphere
    } else if id == 1 {
        ManifoldKind::CapsuleSphere
    } else if id == 2 {
        ManifoldKind::HullSphere
    } else if id == 3 {
        ManifoldKind::TriangleSphere
    } else if id == 4 {
        ManifoldKind::CapsuleCapsule
    } else if id == 5 {
        ManifoldKind::CapsuleHull
    } else if id == 6 {
        ManifoldKind::TriangleCapsule
    } else if id == 7 {
        ManifoldKind::HullHull
    } else {
        ManifoldKind::TriangleHull
    }
}

impl ManifoldKind {
    /// The pairing of scene id `id`.
    pub fn from_id(id: i32) -> (k: ManifoldKind)
        ensures
            k == manifold_kind_spec(id),
    {
        match id {
            0 => ManifoldKind::SphereSphere,
            1 => ManifoldKind::CapsuleSphere,
            2 => ManifoldKind::HullSphere,
            3 => ManifoldKind::TriangleSphere,
            4 => ManifoldKind::CapsuleCapsule,
            5 => ManifoldKind::CapsuleHull,
            6 => ManifoldKind::TriangleCapsule,
            7 => ManifoldKind::HullHull,
            _ => ManifoldKind::TriangleHull,
        }
    }

    /// Whether the pairing collides against a triangle (rendered in frame B).
    pub fn is_triangle(self) -> (r: bool)
        ensures
            r == (self == ManifoldKind::TriangleSphere || self == ManifoldKind::TriangleCapsule
                || self == ManifoldKind::TriangleHull),
    {
        match self {
            ManifoldKind::TriangleSphere | ManifoldKind::TriangleCapsule
            | ManifoldKind::TriangleHull => true,
            _ => false,
        }
    }
}

/// The sensor-route scenes.
#[derive(Clone, Copy, PartialEq, Eq, Structural)]
pub enum SensorScene {
    Visit,
    Hits,
    Benchmark,
    Hit,
    Move,
    Joint,
    PersistentContact,
}

impl SensorScene {
    /// The scene of route id `id`; unknown ids give the visit scene.
    pub fn from_id(id: u32) -> (s: SensorScene)
        ensures
            s == (if id == 1 {
                SensorScene::Hits
            } else if id == 2 {
                SensorScene::Benchmark
            } else if id == 3 {
                SensorScene::Hit
            } else if id == 4 {
                SensorScene::Move
            } else if id == 5 {
                SensorScene::Joint
            } else if id == 6 {
                SensorScene::PersistentContact
            } else {
                SensorScene::Visit
            }),
    {
        match id {
            1 => SensorScene::Hits,
            2 => SensorScene::Benchmark,
            3 => SensorScene::Hit,
            4 => SensorScene::Move,
            5 => SensorScene::Joint,
            6 => SensorScene::PersistentContact,
            _ => SensorScene::Visit,
        }
    }
}

} // verus!
