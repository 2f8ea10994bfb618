//! Contact data: points, manifolds, and per-pair contact state.

use crate::math::{scalar_ok, Vec3, SCALAR_LIMIT};
use vstd::prelude::*;

verus! {

/// A single contact point between two shapes.
///
/// The two anchors are the contact location expressed in each body's local
/// frame. The separation is the signed world-space distance along the contact
/// normal: negative when the shapes overlap. The accumulated impulses carry
/// the previous step's solver solution for warm starting, and the feature
/// identifier, when known, names the shape feature that produced the point so
/// it can be recognised again on the next step.
#[derive(Clone, Copy, Debug, PartialEq)]
pub struct ContactPoint {
    pub anchor1: Vec3,
    pub anchor2: Vec3,
    pub separation: i64,
    pub normal_impulse: i64,
    pub tangent_impulse: i64,
    pub feature_id: Option<u64>,
}

/// A signed separation is bounded: it can reach a few times
/// [`SCALAR_LIMIT`] for speculative contacts between distant shapes.
pub open spec fn separation_ok(s: i64) -> bool {
    -2 * SCALAR_LIMIT <= s <= 4 * SCALAR_LIMIT
}

impl ContactPoint {
    /// All scalar data is bounded.
    pub open spec fn wf(self) -> bool {
        &&& self.anchor1.ok()
        &&& self.anchor2.ok()
        &&& separation_ok(self.separation)
        &&& scalar_ok(self.normal_impulse)
        &&& scalar_ok(self.tangent_impulse)
    }
}

/// A set of contact points sharing one contact normal.
#[derive(Clone, Debug, PartialEq)]
pub struct ContactManifold {
    pub points: Vec<ContactPoint>,
    pub normal: Vec3,
    pub friction: i64,
    pub restitution: i64,
    pub tangent_velocity: Vec3,
}

impl ContactManifold {
    /// All points and all scalar data are bounded; coefficients are
    /// nonnegative.
    pub open spec fn wf(self) -> bool {
        &&& forall|i: int| 0 <= i < self.points@.len() ==> (#[trigger] self.points@[i]).wf()
        &&& self.normal.ok()
        &&& 0 <= self.friction <= SCALAR_LIMIT
        &&& 0 <= self.restitution <= SCALAR_LIMIT
        &&& self.tangent_velocity.ok()
    }

    /// Every accumulated impulse of the manifold's points is zero: how a
    /// manifold leaves the geometry stage, before any warm starting.
    pub open spec fn zero_impulses(self) -> bool {
        forall|i: int|
            0 <= i < self.points@.len() ==> (#[trigger] self.points@[i]).normal_impulse == 0
                && self.points@[i].tangent_impulse == 0
    }
}

/// The contact state of one tracked collider pair.
///
/// The entity pair is kept in canonical order (`entity1 < entity2`). The two
/// frame flags drive the begin/persist/end lifecycle: `during_current_frame`
/// records whether the pair produced contacts this step, and
/// `during_previous_frame` whether it had produced them before this step's
/// collection began. A pair is a sensor pair when either collider is a
/// sensor or either side has no rigid body.
#[derive(Clone, Debug, PartialEq)]
pub struct Contacts {
    pub entity1: u64,
    pub entity2: u64,
    pub body_entity1: Option<u64>,
    pub body_entity2: Option<u64>,
    pub manifolds: Vec<ContactManifold>,
    pub during_current_frame: bool,
    pub during_previous_frame: bool,
    pub is_sensor: bool,
}

impl Contacts {
    /// The entity pair is canonical and all manifolds are bounded.
    pub open spec fn wf(self) -> bool {
        &&& self.entity1 < self.entity2
        &&& forall|i: int| 0 <= i < self.manifolds@.len() ==> (#[trigger] self.manifolds@[i]).wf()
    }

    /// The registry key of this entry.
    pub open spec fn key(self) -> (u64, u64) {
        (self.entity1, self.entity2)
    }
}

/// The canonical form of an unordered entity pair: smaller handle first.
pub open spec fn canonical_pair(a: u64, b: u64) -> (u64, u64) {
    if a <= b {
        (a, b)
    } else {
        (b, a)
    }
}

/// Canonical keys are order-insensitive: the pairs `(a, b)` and `(b, a)`
/// resolve to the same registry key.
pub proof fn lemma_canonical_pair_symmetric(a: u64, b: u64)
    ensures
        canonical_pair(a, b) == canonical_pair(b, a),
{
}

/// Orders an entity pair canonically.
pub fn canonicalize(a: u64, b: u64) -> (r: (u64, u64))
    ensures
        r == canonical_pair(a, b),
{
    if a <= b {
        (a, b)
    } else {
        (b, a)
    }
}

} // verus!
