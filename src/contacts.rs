//! Contact points, manifolds and the per-pair contact record.
use crate::math::Vector;
use vstd::prelude::*;

verus! {

/// Largest magnitude of an accumulated impulse.
pub const MAX_IMPULSE: i64 = 1_099_511_627_776;

/// One point of contact between two colliders.
#[derive(Clone, Copy, Debug, PartialEq, Eq, Structural)]
pub struct ContactPoint {
    /// The contact point in the local space of the first collider.
    pub anchor1: Vector,
    /// The contact point in the local space of the second collider.
    pub anchor2: Vector,
    /// The contact normal in world space, pointing from the first collider to the second.
    pub normal: Vector,
    /// The signed distance between the colliders at this point; negative where they overlap.
    pub separation: i64,
    /// The feature of the first shape that this point lies on.
    pub feature_id1: u32,
    /// The feature of the second shape that this point lies on.
    pub feature_id2: u32,
    /// The accumulated normal impulse.
    pub normal_impulse: i64,
    /// The accumulated tangent impulse.
    pub tangent_impulse: i64,
}

/// Contact points that share one contact normal.
#[derive(Clone, Debug)]
pub struct ContactManifold {
    pub points: Vec<ContactPoint>,
    /// The contact normal in world space, pointing from the first collider to the second.
    pub normal: Vector,
}

/// The contacts between two colliders.
#[derive(Clone, Debug)]
pub struct Contacts {
    pub entity1: u64,
    pub entity2: u64,
    /// The rigid body that the first collider is attached to, if any.
    pub body_entity1: Option<u64>,
    /// The rigid body that the second collider is attached to, if any.
    pub body_entity2: Option<u64>,
    pub manifolds: Vec<ContactManifold>,
    /// The colliders touch during this frame.
    pub during_current_frame: bool,
    /// The colliders touched during an earlier frame.
    pub during_previous_frame: bool,
    /// Either collider is a sensor or lacks a rigid body: no constraint comes of this record.
    pub is_sensor: bool,
    /// The normal impulses of all points, summed.
    pub total_normal_impulse: i128,
    /// The tangent impulses of all points, summed.
    pub total_tangent_impulse: i128,
}

pub open spec fn impulse_wf(i: int) -> bool {
    -MAX_IMPULSE <= i <= MAX_IMPULSE
}

impl ContactPoint {
    pub open spec fn wf(&self) -> bool {
        &&& impulse_wf(self.normal_impulse as int)
        &&& impulse_wf(self.tangent_impulse as int)
    }

    /// The point with both impulses replaced.
    pub open spec fn with_impulses(&self, normal: i64, tangent: i64) -> ContactPoint {
        ContactPoint { normal_impulse: normal, tangent_impulse: tangent, ..*self }
    }
}

/// What a manifold holds.
pub struct ManifoldModel {
    pub points: Seq<ContactPoint>,
    pub normal: Vector,
}

impl View for ContactManifold {
    type V = ManifoldModel;

    open spec fn view(&self) -> ManifoldModel {
        ManifoldModel { points: self.points@, normal: self.normal }
    }
}

/// What a sequence of manifolds holds.
pub open spec fn models(ms: Seq<ContactManifold>) -> Seq<ManifoldModel> {
    ms.map_values(|m: ContactManifold| m@)
}

impl ContactManifold {
    pub open spec fn wf(&self) -> bool {
        forall|i: int| 0 <= i < self.points@.len() ==> (#[trigger] self.points@[i]).wf()
    }
}

pub open spec fn manifolds_wf(ms: Seq<ContactManifold>) -> bool {
    forall|i: int| 0 <= i < ms.len() ==> (#[trigger] ms[i]).wf()
}

impl Contacts {
    pub open spec fn wf(&self) -> bool {
        manifolds_wf(self.manifolds@)
    }

    /// The record is the one of the colliders `a` and `b`, in either order.
    pub open spec fn is_pair(&self, a: u64, b: u64) -> bool {
        (self.entity1 == a && self.entity2 == b) || (self.entity1 == b && self.entity2 == a)
    }
}

} // verus!
