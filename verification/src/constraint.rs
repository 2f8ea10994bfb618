//! Contact constraints: the solver-ready payload generated from registry
//! entries, and the activity filter deciding which pairs produce one.

use crate::config::{ContactSoftnessCoefficients, SoftnessParams};
use crate::contact::{ContactManifold, ContactPoint, Contacts};
use crate::math::Vec3;
use crate::world::{BodyStore, ColliderData, RigidBody};
use vstd::prelude::*;

verus! {

/// The per-manifold payload handed to the external constraint solver.
///
/// It carries the manifold's points (with their warm-start impulses), the
/// shared normal, the combined surface coefficients, the pair's collision
/// margin, the default speculative margin bound, the selected softness,
/// and whether contact matching was enabled.
#[derive(Clone, Debug, PartialEq)]
pub struct ContactConstraint {
    pub entity1: u64,
    pub entity2: u64,
    pub manifold_index: usize,
    pub points: Vec<ContactPoint>,
    pub normal: Vec3,
    pub friction: i64,
    pub restitution: i64,
    pub tangent_velocity: Vec3,
    pub collision_margin: i64,
    pub speculative_margin: i64,
    pub softness: SoftnessParams,
    pub match_enabled: bool,
}

/// No constraint is generated when both bodies are inactive (static or
/// sleeping) or when either side is a sensor, at the collider or at the
/// body level.
pub open spec fn skip_constraints(
    collider1_sensor: bool,
    body1: RigidBody,
    collider2_sensor: bool,
    body2: RigidBody,
) -> bool {
    ||| body1.is_inactive() && body2.is_inactive()
    ||| collider1_sensor || body1.sensor
    ||| collider2_sensor || body2.sensor
}

/// The softness class of a pair: stiffer coefficients when either body is
/// not dynamic.
pub open spec fn softness_for(
    body1: RigidBody,
    body2: RigidBody,
    coefficients: ContactSoftnessCoefficients,
) -> SoftnessParams {
    if !body1.is_dynamic() || !body2.is_dynamic() {
        coefficients.non_dynamic
    } else {
        coefficients.dynamic
    }
}

/// The wake-up requests one pair emits: when the pair is not skipped and
/// one side sleeps while the other is active, the sleeping side's body
/// entity is asked to wake.
pub open spec fn wake_additions(body1: RigidBody, body2: RigidBody, e1: u64, e2: u64) -> Seq<u64> {
    if body1.sleeping {
        seq![e1]
    } else if body2.sleeping {
        seq![e2]
    } else {
        Seq::empty()
    }
}

/// Whether `cc` is exactly the constraint generated from manifold `i` of
/// `contacts`, with the given margins, softness, and matching flag.
pub open spec fn constraint_matches(
    cc: ContactConstraint,
    contacts: Contacts,
    i: int,
    collision_margin: i64,
    speculative_margin: i64,
    softness: SoftnessParams,
    match_enabled: bool,
) -> bool {
    let m = contacts.manifolds@[i];
    &&& cc.entity1 == contacts.entity1
    &&& cc.entity2 == contacts.entity2
    &&& cc.manifold_index == i
    &&& cc.points@ == m.points@
    &&& cc.normal == m.normal
    &&& cc.friction == m.friction
    &&& cc.restitution == m.restitution
    &&& cc.tangent_velocity == m.tangent_velocity
    &&& cc.collision_margin == collision_margin
    &&& cc.speculative_margin == speculative_margin
    &&& cc.softness == softness
    &&& cc.match_enabled == match_enabled
}

/// `added` is exactly the constraint list generated from the first `n`
/// manifolds of `contacts`: one constraint per manifold with at least one
/// point, in manifold order, degenerate manifolds dropped.
pub open spec fn constraints_match_prefix(
    added: Seq<ContactConstraint>,
    contacts: Contacts,
    n: int,
    collision_margin: i64,
    speculative_margin: i64,
    softness: SoftnessParams,
    match_enabled: bool,
) -> bool
    decreases n,
{
    if n <= 0 {
        added.len() == 0
    } else if contacts.manifolds@[n - 1].points@.len() > 0 {
        &&& added.len() > 0
        &&& constraint_matches(
            added.last(),
            contacts,
            n - 1,
            collision_margin,
            speculative_margin,
            softness,
            match_enabled,
        )
        &&& constraints_match_prefix(
            added.drop_last(),
            contacts,
            n - 1,
            collision_margin,
            speculative_margin,
            softness,
            match_enabled,
        )
    } else {
        constraints_match_prefix(
            added,
            contacts,
            n - 1,
            collision_margin,
            speculative_margin,
            softness,
            match_enabled,
        )
    }
}

/// Two constraints with equal content are observably equal: every field
/// agrees, the point list compared by value.
pub open spec fn constraint_obs_eq(a: ContactConstraint, b: ContactConstraint) -> bool {
    &&& a.entity1 == b.entity1
    &&& a.entity2 == b.entity2
    &&& a.manifold_index == b.manifold_index
    &&& a.points@ == b.points@
    &&& a.normal == b.normal
    &&& a.friction == b.friction
    &&& a.restitution == b.restitution
    &&& a.tangent_velocity == b.tangent_velocity
    &&& a.collision_margin == b.collision_margin
    &&& a.speculative_margin == b.speculative_margin
    &&& a.softness == b.softness
    &&& a.match_enabled == b.match_enabled
}

/// Constraint generation is deterministic: two constraint lists generated
/// from the same contacts with the same margins, softness, and matching
/// flag are observably identical, element by element.
pub proof fn lemma_generation_deterministic(
    a: Seq<ContactConstraint>,
    b: Seq<ContactConstraint>,
    contacts: Contacts,
    n: int,
    collision_margin: i64,
    speculative_margin: i64,
    softness: SoftnessParams,
    match_enabled: bool,
)
    requires
        constraints_match_prefix(
            a,
            contacts,
            n,
            collision_margin,
            speculative_margin,
            softness,
            match_enabled,
        ),
        constraints_match_prefix(
            b,
            contacts,
            n,
            collision_margin,
            speculative_margin,
            softness,
            match_enabled,
        ),
    ensures
        a.len() == b.len(),
        forall|i: int| 0 <= i < a.len() ==> constraint_obs_eq(#[trigger] a[i], b[i]),
    decreases n,
{
    if n <= 0 {
    } else if contacts.manifolds@[n - 1].points@.len() > 0 {
        lemma_generation_deterministic(
            a.drop_last(),
            b.drop_last(),
            contacts,
            n - 1,
            collision_margin,
            speculative_margin,
            softness,
            match_enabled,
        );
        assert(a.len() == b.len());
        assert forall|i: int| 0 <= i < a.len() implies constraint_obs_eq(#[trigger] a[i], b[i]) by {
            if i < a.len() - 1 {
                assert(a.drop_last()[i] == a[i]);
                assert(b.drop_last()[i] == b[i]);
            } else {
                assert(a.last() == a[i]);
                assert(b.last() == b[i]);
            }
        }
    } else {
        lemma_generation_deterministic(
            a,
            b,
            contacts,
            n - 1,
            collision_margin,
            speculative_margin,
            softness,
            match_enabled,
        );
    }
}

/// No response for inactive pairs: when both bodies are static or
/// sleeping, the pair is skipped and no constraint is ever generated,
/// regardless of geometric overlap.
pub proof fn lemma_inactive_pair_skipped(
    collider1_sensor: bool,
    body1: RigidBody,
    collider2_sensor: bool,
    body2: RigidBody,
)
    requires
        body1.is_inactive(),
        body2.is_inactive(),
    ensures
        skip_constraints(collider1_sensor, body1, collider2_sensor, body2),
{
}

/// No response for sensor pairs: when either collider or either body is a
/// sensor, the pair is skipped and no constraint is generated. The
/// registry entry itself is still created and updated by collection, which
/// never filters on the sensor flag.
pub proof fn lemma_sensor_pair_skipped(
    collider1_sensor: bool,
    body1: RigidBody,
    collider2_sensor: bool,
    body2: RigidBody,
)
    requires
        collider1_sensor || body1.sensor || collider2_sensor || body2.sensor,
    ensures
        skip_constraints(collider1_sensor, body1, collider2_sensor, body2),
{
}

/// How many of the first `n` manifolds carry at least one point.
pub open spec fn count_nonempty(ms: Seq<ContactManifold>, n: int) -> int
    decreases n,
{
    if n <= 0 {
        0
    } else {
        count_nonempty(ms, n - 1) + if ms[n - 1].points@.len() > 0 {
            1int
        } else {
            0int
        }
    }
}

/// A matching constraint list has exactly one element per nonempty
/// manifold.
pub proof fn lemma_prefix_match_len(
    added: Seq<ContactConstraint>,
    contacts: Contacts,
    n: int,
    collision_margin: i64,
    speculative_margin: i64,
    softness: SoftnessParams,
    match_enabled: bool,
)
    requires
        constraints_match_prefix(
            added,
            contacts,
            n,
            collision_margin,
            speculative_margin,
            softness,
            match_enabled,
        ),
    ensures
        added.len() == count_nonempty(contacts.manifolds@, n),
    decreases n,
{
    if n <= 0 {
    } else if contacts.manifolds@[n - 1].points@.len() > 0 {
        lemma_prefix_match_len(
            added.drop_last(),
            contacts,
            n - 1,
            collision_margin,
            speculative_margin,
            softness,
            match_enabled,
        );
    } else {
        lemma_prefix_match_len(
            added,
            contacts,
            n - 1,
            collision_margin,
            speculative_margin,
            softness,
            match_enabled,
        );
    }
}

/// The rigid body a collider's contacts are resolved against: the record
/// of its owning body entity, when both exist.
pub open spec fn side_body<C>(collider: ColliderData<C>, bodies: BodyStore) -> Option<RigidBody> {
    match collider.body {
        Some(e) => bodies.spec_body(e),
        None => None,
    }
}

/// Copies a point list by value.
pub fn copy_points(src: &Vec<ContactPoint>) -> (r: Vec<ContactPoint>)
    ensures
        r@ == src@,
{
    let n = src.len();
    let mut out: Vec<ContactPoint> = Vec::new();
    let mut i: usize = 0;
    while i < n
        invariant
            i <= n,
            n == src@.len(),
            out@.len() == i as int,
            forall|j: int| 0 <= j < i ==> (#[trigger] out@[j]) == src@[j],
        decreases n - i,
    {
        out.push(src[i]);
        i += 1;
    }
    proof {
        assert(out@ =~= src@);
    }
    out
}

} // verus!
