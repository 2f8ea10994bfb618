//! The narrow phase itself: per-pair orchestration from candidate pair to
//! registry entry, and constraint generation over the registry.
//!
//! Each step runs, in order: the lifecycle reset
//! ([`crate::registry::reset_collision_states`]), collection ([`NarrowPhase::update`]),
//! a user post-processing stage, constraint generation
//! ([`NarrowPhase::generate_all_constraints`]), contact reporting, and
//! eviction ([`crate::registry::remove_ended_collisions`]). The host drives
//! that order; [`NarrowPhaseSet`] names the stages.

use crate::config::{ContactSoftnessCoefficients, NarrowPhaseConfig};
use crate::constraint::{
    constraints_match_prefix, copy_points, side_body, skip_constraints, softness_for,
    wake_additions, ContactConstraint,
};
use crate::contact::{canonical_pair, canonicalize, ContactManifold, ContactPoint, Contacts};
use crate::margin::{
    copied_body, pair_max_contact_distance, resolve_collision_margin, spec_collision_margin,
    DELTA_LIMIT,
};
use crate::matching::{
    assembled_manifold, flattened_points, point_with_impulses, warm_impulses,
    warm_start_manifolds,
};
use crate::math::{Vec3, SCALAR_LIMIT};
use crate::registry::{entry_for, CollisionRegistry};
use crate::shapes::AnyCollider;
use crate::world::{BodyKind, BodyStore, ColliderData, ColliderStore, RigidBody};
use vstd::prelude::*;
use vstd::std_specs::vec::vec_index_mut;

verus! {

/// The stages of the narrow phase, in the order the host runs them.
#[derive(Clone, Copy, Debug, PartialEq, Eq, Hash)]
pub enum NarrowPhaseSet {
    /// Runs at the start of the narrow phase. Empty by default.
    First,
    /// Computes contacts between entities and adds them to the registry.
    CollectCollisions,
    /// The user-defined post-processing stage that may filter and modify
    /// collisions; runs single-threaded between collection and constraint
    /// generation.
    PostProcess,
    /// Generates the contact constraints.
    GenerateConstraints,
    /// Runs at the end of the narrow phase. Empty by default.
    Last,
}

/// The contact-modification hook: a user-supplied filter invoked for pairs
/// whose colliders declare the capability.
///
/// A hook may edit contact content or reject the pair for this step by
/// returning `false`; the pair identity (the entity and body handles) is
/// not its to change, and whatever it writes stays bounded.
pub trait CollisionHooks {
    /// Filters or edits the contacts of one pair. Returning `false`
    /// discards the pair for this step.
    fn modify_contacts(&mut self, contacts: &mut Contacts) -> (r: bool)
        requires
            old(contacts).wf(),
        ensures
            final(contacts).wf(),
            final(contacts).entity1 == old(contacts).entity1,
            final(contacts).entity2 == old(contacts).entity2,
            final(contacts).body_entity1 == old(contacts).body_entity1,
            final(contacts).body_entity2 == old(contacts).body_entity2,
    ;
}

/// The trivial hook set: keeps every pair unchanged.
pub struct NoHooks;

impl CollisionHooks for NoHooks {
    /// Keeps the pair, touching nothing.
    fn modify_contacts(&mut self, contacts: &mut Contacts) -> (r: bool)
        ensures
            r,
            *final(contacts) == *old(contacts),
    {
        true
    }
}

/// Whether either collider of a pair asks for the contact-modification
/// hook.
pub open spec fn hooks_active<C>(c1: ColliderData<C>, c2: ColliderData<C>) -> bool {
    c1.modify_contacts_hook || c2.modify_contacts_hook
}

/// A pair is a sensor pair when either collider is a sensor or either side
/// has no rigid body.
pub open spec fn spec_is_sensor<C>(c1: ColliderData<C>, c2: ColliderData<C>) -> bool {
    c1.is_sensor || c2.is_sensor || c1.body is None || c2.body is None
}

/// Every shape stored in a collider store is well formed.
pub open spec fn store_shapes_wf<C: AnyCollider>(s: ColliderStore<C>) -> bool {
    forall|i: int| 0 <= i < s.entries@.len() ==> (#[trigger] s.entries@[i]).1.shape.shape_wf()
}

/// What collection may put under a key: a well-formed entry for exactly
/// that canonical pair, with at least one manifold, both colliders present
/// in the store, the body handles taken from them, and — when no hook is
/// active for the pair — marked as touching this step.
pub open spec fn collected_entry<C>(c: Contacts, k: (u64, u64), colliders: ColliderStore<C>) -> bool {
    &&& c.wf()
    &&& c.key() == k
    &&& c.manifolds@.len() > 0
    &&& colliders.spec_get(k.0) is Some
    &&& colliders.spec_get(k.1) is Some
    &&& c.body_entity1 == colliders.spec_get(k.0).unwrap().body
    &&& c.body_entity2 == colliders.spec_get(k.1).unwrap().body
    &&& (!hooks_active(colliders.spec_get(k.0).unwrap(), colliders.spec_get(k.1).unwrap())
        ==> c.during_current_frame)
}

/// The combination rule for surface coefficients: the average, rounded
/// toward zero.
pub open spec fn combined_coefficient(a: i64, b: i64) -> int {
    (a + b) / 2
}

/// Combines two surface coefficients.
pub fn combine_coefficients(a: i64, b: i64) -> (r: i64)
    requires
        0 <= a <= SCALAR_LIMIT,
        0 <= b <= SCALAR_LIMIT,
    ensures
        r as int == combined_coefficient(a, b),
        0 <= r <= SCALAR_LIMIT,
{
    ((a as u64 + b as u64) / 2) as i64
}

/// A side's friction coefficient: collider override, else body override,
/// else the global default.
pub open spec fn resolved_friction<C>(
    collider: ColliderData<C>,
    body: Option<RigidBody>,
    default: i64,
) -> i64 {
    match collider.friction {
        Some(f) => f,
        None => match body {
            Some(b) => match b.friction {
                Some(f) => f,
                None => default,
            },
            None => default,
        },
    }
}

/// A side's restitution coefficient: collider override, else the global
/// default.
pub open spec fn resolved_restitution<C>(collider: ColliderData<C>, default: i64) -> i64 {
    match collider.restitution {
        Some(r) => r,
        None => default,
    }
}

/// Whether the previous step left the pair marked as touching.
pub open spec fn prev_during_previous(phase: NarrowPhase, e1: u64, e2: u64) -> bool {
    match entry_for(phase.collisions.entries@, (e1, e2)) {
        Some(p) => p.during_previous_frame,
        None => false,
    }
}

/// The pool of previous points the matcher searches for a pair: all points
/// of the registry entry's manifolds, in order; empty for a new pair.
pub open spec fn previous_points_of(phase: NarrowPhase, e1: u64, e2: u64) -> Seq<ContactPoint> {
    match entry_for(phase.collisions.entries@, (e1, e2)) {
        Some(p) => flattened_points(p.manifolds@, p.manifolds@.len() as int),
        None => Seq::empty(),
    }
}

/// The warm-start distance threshold: a tenth of the length unit.
pub open spec fn match_threshold(phase: NarrowPhase) -> int {
    (phase.length_unit as int) / 10
}

/// The narrow phase: configuration, global defaults, and the collision
/// registry the collected contacts live in.
#[derive(Debug)]
pub struct NarrowPhase {
    /// Contacts found by the narrow phase.
    pub collisions: CollisionRegistry,
    /// Configuration options for the narrow phase.
    pub config: NarrowPhaseConfig,
    /// The global default friction coefficient.
    pub default_friction: i64,
    /// The global default restitution coefficient.
    pub default_restitution: i64,
    /// Raw length units per world unit; scales the matching threshold.
    pub length_unit: i64,
}

impl NarrowPhase {
    /// The registry, the configuration, and every default are bounded.
    pub open spec fn wf(self) -> bool {
        &&& self.collisions.wf()
        &&& self.config.wf()
        &&& 0 <= self.default_friction <= SCALAR_LIMIT
        &&& 0 <= self.default_restitution <= SCALAR_LIMIT
        &&& 1 <= self.length_unit <= SCALAR_LIMIT
    }

    /// A narrow phase with an empty registry.
    pub fn new(
        config: NarrowPhaseConfig,
        default_friction: i64,
        default_restitution: i64,
        length_unit: i64,
    ) -> (r: NarrowPhase)
        requires
            config.wf(),
            0 <= default_friction <= SCALAR_LIMIT,
            0 <= default_restitution <= SCALAR_LIMIT,
            1 <= length_unit <= SCALAR_LIMIT,
        ensures
            r.wf(),
            r.config == config,
            r.default_friction == default_friction,
            r.default_restitution == default_restitution,
            r.length_unit == length_unit,
            r.collisions.entries@.len() == 0,
    {
        NarrowPhase {
            collisions: CollisionRegistry::new(),
            config,
            default_friction,
            default_restitution,
            length_unit,
        }
    }

    /// Computes the contacts between two colliders whose pair has already
    /// been canonically ordered: asks the shapes for manifolds, assembles
    /// the pair's contact state with the combined coefficients stamped on,
    /// runs the hook if either collider asks for it, and warm-starts the
    /// surviving manifolds against the previous step's contacts.
    ///
    /// Returns `None` when the shapes are out of range, when the hook
    /// rejects the pair, or when no manifold is left after the hook. When
    /// no hook is active, the result is fully pinned down: flags, sensor
    /// derivation, stamped coefficients, zero tangent velocity, and each
    /// point's accumulated impulses — its warm-start match against the
    /// registry's previous points, or zero when matching is off or the
    /// manifold count exceeds four.
    pub fn compute_contact_pair<C: AnyCollider, H: CollisionHooks>(
        &self,
        entity1: u64,
        entity2: u64,
        collider1: &ColliderData<C>,
        collider2: &ColliderData<C>,
        friction: i64,
        restitution: i64,
        max_distance: i64,
        hooks: &mut H,
    ) -> (r: Option<Contacts>)
        requires
            self.wf(),
            collider1.wf(),
            collider2.wf(),
            collider1.shape.shape_wf(),
            collider2.shape.shape_wf(),
            entity1 < entity2,
            0 <= friction <= SCALAR_LIMIT,
            0 <= restitution <= SCALAR_LIMIT,
        ensures
            match r {
                Some(c) => {
                    &&& c.wf()
                    &&& c.entity1 == entity1
                    &&& c.entity2 == entity2
                    &&& c.body_entity1 == collider1.body
                    &&& c.body_entity2 == collider2.body
                    &&& c.manifolds@.len() > 0
                    &&& (!hooks_active(*collider1, *collider2) ==> {
                        &&& c.during_current_frame
                        &&& c.during_previous_frame == prev_during_previous(
                            *self,
                            entity1,
                            entity2,
                        )
                        &&& c.is_sensor == spec_is_sensor(*collider1, *collider2)
                        &&& forall|i: int|
                            0 <= i < c.manifolds@.len() ==> (#[trigger] c.manifolds@[i]).friction
                                == friction && c.manifolds@[i].restitution == restitution
                                && c.manifolds@[i].tangent_velocity == (Vec3 { x: 0, y: 0, z: 0 })
                        &&& (c.manifolds@.len() <= 4 && self.config.match_contacts ==> forall|
                            i: int,
                            j: int,
                        |
                            0 <= i < c.manifolds@.len() && 0 <= j
                                < c.manifolds@[i].points@.len() ==> ((#[trigger] c.manifolds@[i].points@[j]).normal_impulse,
                            c.manifolds@[i].points@[j].tangent_impulse) == warm_impulses(
                                c.manifolds@[i].points@[j],
                                previous_points_of(*self, entity1, entity2),
                                match_threshold(*self),
                            ))
                        &&& (!(c.manifolds@.len() <= 4 && self.config.match_contacts) ==> forall|
                            i: int,
                            j: int,
                        |
                            0 <= i < c.manifolds@.len() && 0 <= j
                                < c.manifolds@[i].points@.len() ==> (#[trigger] c.manifolds@[i].points@[j]).normal_impulse
                                == 0 && c.manifolds@[i].points@[j].tangent_impulse == 0)
                    })
                },
                None => true,
            },
    {
        let manifolds = collider1.shape.contact_manifolds(
            &collider2.shape,
            collider1.position,
            collider1.rotation,
            collider2.position,
            collider2.rotation,
            max_distance,
        );
        if manifolds.len() == 0 {
            return None;
        }
        let ghost oracle_manifolds = manifolds@;
        let previous = self.collisions.get(entity1, entity2);
        let during_previous = match previous {
            Some(p) => p.during_previous_frame,
            None => false,
        };
        proof {
            self.collisions.lemma_entry_wf(entity1, entity2);
            assert(canonical_pair(entity1, entity2) == (entity1, entity2));
        }
        let prev_points = match previous {
            Some(p) => flatten_previous(p),
            None => Vec::new(),
        };
        let threshold: i64 = ((self.length_unit as u64) / 10) as i64;
        let sensor = collider1.is_sensor || collider2.is_sensor || collider1.body.is_none()
            || collider2.body.is_none();
        let active = collider1.modify_contacts_hook || collider2.modify_contacts_hook;
        if !active {
            let r = assemble_contact_pair(
                entity1,
                entity2,
                collider1.body,
                collider2.body,
                sensor,
                during_previous,
                manifolds,
                friction,
                restitution,
                &prev_points,
                self.config.match_contacts,
                threshold,
            );
            proof {
                assert(prev_points@ =~= previous_points_of(*self, entity1, entity2));
                if r is Some {
                    let c = r.unwrap();
                    let matched = oracle_manifolds.len() <= 4 && self.config.match_contacts;
                    if matched {
                        assert forall|i: int, j: int|
                            0 <= i < c.manifolds@.len() && 0 <= j
                                < c.manifolds@[i].points@.len() implies ((#[trigger] c.manifolds@[i].points@[j]).normal_impulse,
                        c.manifolds@[i].points@[j].tangent_impulse) == warm_impulses(
                            c.manifolds@[i].points@[j],
                            previous_points_of(*self, entity1, entity2),
                            match_threshold(*self),
                        ) by {
                            let inp = oracle_manifolds[i].points@[j];
                            let outp = c.manifolds@[i].points@[j];
                            assert(outp == crate::matching::point_with_impulses(
                                inp,
                                warm_impulses(inp, prev_points@, threshold as int),
                            ));
                            crate::matching::lemma_warm_impulses_same_geometry(
                                inp,
                                outp,
                                prev_points@,
                                threshold as int,
                            );
                        }
                    } else {
                        assert forall|i: int, j: int|
                            0 <= i < c.manifolds@.len() && 0 <= j
                                < c.manifolds@[i].points@.len() implies (#[trigger] c.manifolds@[i].points@[j]).normal_impulse
                            == 0 && c.manifolds@[i].points@[j].tangent_impulse == 0 by {
                            assert(c.manifolds@[i].points@[j] == oracle_manifolds[i].points@[j]);
                            assert(oracle_manifolds[i].zero_impulses());
                        }
                    }
                }
            }
            r
        } else {
            let built = assemble_contact_pair(
                entity1,
                entity2,
                collider1.body,
                collider2.body,
                sensor,
                during_previous,
                manifolds,
                friction,
                restitution,
                &prev_points,
                false,
                threshold,
            );
            let mut contacts = match built {
                Some(c) => c,
                None => {
                    return None;
                },
            };
            let keep = hooks.modify_contacts(&mut contacts);
            if !keep {
                return None;
            }
            if contacts.manifolds.len() == 0 {
                return None;
            }
            if contacts.manifolds.len() <= 4 && self.config.match_contacts {
                warm_start_manifolds(&mut contacts.manifolds, &prev_points, threshold);
            }
            Some(contacts)
        }
    }


    /// Handles one candidate pair: orders it canonically, looks both
    /// colliders up, resolves coefficients and margins, and computes the
    /// contacts. Returns `None` when either collider is missing, when the
    /// two handles are equal, or when [`Self::compute_contact_pair`] finds
    /// nothing.
    pub fn handle_entity_pair<C: AnyCollider, H: CollisionHooks>(
        &self,
        entity1: u64,
        entity2: u64,
        delta: i64,
        colliders: &ColliderStore<C>,
        bodies: &BodyStore,
        hooks: &mut H,
    ) -> (r: Option<Contacts>)
        requires
            self.wf(),
            colliders.wf(),
            bodies.wf(),
            store_shapes_wf(*colliders),
            1 <= delta <= DELTA_LIMIT,
        ensures
            match r {
                Some(c) => {
                    &&& c.wf()
                    &&& c.entity1 == canonical_pair(entity1, entity2).0
                    &&& c.entity2 == canonical_pair(entity1, entity2).1
                    &&& c.manifolds@.len() > 0
                    &&& colliders.spec_get(c.entity1) is Some
                    &&& colliders.spec_get(c.entity2) is Some
                    &&& c.body_entity1 == colliders.spec_get(c.entity1).unwrap().body
                    &&& c.body_entity2 == colliders.spec_get(c.entity2).unwrap().body
                    &&& ({
                        let cd1 = colliders.spec_get(c.entity1).unwrap();
                        let cd2 = colliders.spec_get(c.entity2).unwrap();
                        !hooks_active(cd1, cd2) ==> {
                            &&& c.during_current_frame
                            &&& c.during_previous_frame == prev_during_previous(
                                *self,
                                c.entity1,
                                c.entity2,
                            )
                            &&& c.is_sensor == spec_is_sensor(cd1, cd2)
                            &&& forall|i: int|
                                0 <= i < c.manifolds@.len() ==> (#[trigger] c.manifolds@[i]).friction
                                    as int == combined_coefficient(
                                    resolved_friction(
                                        cd1,
                                        side_body(cd1, *bodies),
                                        self.default_friction,
                                    ),
                                    resolved_friction(
                                        cd2,
                                        side_body(cd2, *bodies),
                                        self.default_friction,
                                    ),
                                ) && c.manifolds@[i].restitution as int == combined_coefficient(
                                    resolved_restitution(cd1, self.default_restitution),
                                    resolved_restitution(cd2, self.default_restitution),
                                ) && c.manifolds@[i].tangent_velocity == (Vec3 {
                                    x: 0,
                                    y: 0,
                                    z: 0,
                                })
                        }
                    })
                },
                None => true,
            },
            entity1 == entity2 ==> r is None,
            colliders.spec_get(canonical_pair(entity1, entity2).0) is None || colliders.spec_get(
                canonical_pair(entity1, entity2).1,
            ) is None ==> r is None,
    {
        let key = canonicalize(entity1, entity2);
        if key.0 == key.1 {
            return None;
        }
        let c1 = match colliders.get(key.0) {
            Some(c) => c,
            None => {
                return None;
            },
        };
        let c2 = match colliders.get(key.1) {
            Some(c) => c,
            None => {
                return None;
            },
        };
        proof {
            colliders.lemma_lookup_wf(key.0);
            colliders.lemma_lookup_wf(key.1);
            lemma_store_shape_wf(*colliders, key.0);
            lemma_store_shape_wf(*colliders, key.1);
            bodies.lemma_lookup_wf(body_anchor(*c1, key.0));
            bodies.lemma_lookup_wf(body_anchor(*c2, key.1));
        }
        let b1 = lookup_body(bodies, c1);
        let b2 = lookup_body(bodies, c2);
        let f1 = resolve_friction_side(c1, b1, self.default_friction);
        let f2 = resolve_friction_side(c2, b2, self.default_friction);
        let friction = combine_coefficients(f1, f2);
        let r1 = match c1.restitution {
            Some(r) => r,
            None => self.default_restitution,
        };
        let r2 = match c2.restitution {
            Some(r) => r,
            None => self.default_restitution,
        };
        let restitution = combine_coefficients(r1, r2);
        let max_distance = pair_max_contact_distance(c1, b1, c2, b2, &self.config, delta);
        proof {
            assert(colliders.spec_get(key.0) == Some(*c1));
            assert(colliders.spec_get(key.1) == Some(*c2));
            assert(copied_body(b1) == side_body(*c1, *bodies));
            assert(copied_body(b2) == side_body(*c2, *bodies));
            assert(r1 == resolved_restitution(*c1, self.default_restitution));
            assert(r2 == resolved_restitution(*c2, self.default_restitution));
        }
        self.compute_contact_pair(
            key.0,
            key.1,
            c1,
            c2,
            friction,
            restitution,
            max_distance,
            hooks,
        )
    }

    /// Collects contacts for every candidate pair and commits them to the
    /// registry. Pairs the broad phase never named keep their registry
    /// entry untouched.
    pub fn update<C: AnyCollider, H: CollisionHooks>(
        &mut self,
        pairs: &Vec<(u64, u64)>,
        delta: i64,
        colliders: &ColliderStore<C>,
        bodies: &BodyStore,
        hooks: &mut H,
    )
        requires
            old(self).wf(),
            colliders.wf(),
            bodies.wf(),
            store_shapes_wf(*colliders),
            1 <= delta <= DELTA_LIMIT,
        ensures
            final(self).wf(),
            final(self).config == old(self).config,
            final(self).default_friction == old(self).default_friction,
            final(self).default_restitution == old(self).default_restitution,
            final(self).length_unit == old(self).length_unit,
            forall|k: (u64, u64)|
                (forall|i: int|
                    0 <= i < pairs@.len() ==> canonical_pair(
                        (#[trigger] pairs@[i]).0,
                        pairs@[i].1,
                    ) != k) ==> #[trigger] entry_for(final(self).collisions.entries@, k)
                    == entry_for(old(self).collisions.entries@, k),
            forall|k: (u64, u64)|
                #[trigger] entry_for(final(self).collisions.entries@, k) == entry_for(
                    old(self).collisions.entries@,
                    k,
                ) || match entry_for(final(self).collisions.entries@, k) {
                    Some(c) => collected_entry(c, k, *colliders),
                    None => false,
                },
    {
        let n = pairs.len();
        let mut idx: usize = 0;
        while idx < n
            invariant
                idx <= n,
                n == pairs@.len(),
                self.wf(),
                colliders.wf(),
                bodies.wf(),
                store_shapes_wf(*colliders),
                1 <= delta <= DELTA_LIMIT,
                self.config == old(self).config,
                self.default_friction == old(self).default_friction,
                self.default_restitution == old(self).default_restitution,
                self.length_unit == old(self).length_unit,
                forall|k: (u64, u64)|
                    (forall|i: int|
                        0 <= i < idx ==> canonical_pair((#[trigger] pairs@[i]).0, pairs@[i].1)
                            != k) ==> #[trigger] entry_for(self.collisions.entries@, k)
                        == entry_for(old(self).collisions.entries@, k),
                forall|k: (u64, u64)|
                    #[trigger] entry_for(self.collisions.entries@, k) == entry_for(
                        old(self).collisions.entries@,
                        k,
                    ) || match entry_for(self.collisions.entries@, k) {
                        Some(c) => collected_entry(c, k, *colliders),
                        None => false,
                    },
            decreases n - idx,
        {
            let a = pairs[idx].0;
            let b = pairs[idx].1;
            let res = self.handle_entity_pair(a, b, delta, colliders, bodies, hooks);
            match res {
                Some(contacts) => {
                    let ghost ck = contacts.key();
                    proof {
                        assert(ck == canonical_pair(a, b));
                        assert(collected_entry(contacts, ck, *colliders));
                    }
                    self.collisions.insert_collision_pair(contacts);
                },
                None => {},
            }
            idx += 1;
        }
    }

    /// Generates the contact constraints for one registry entry and queues
    /// the wake-up request its sleeping side may need.
    ///
    /// Emits nothing when both bodies are inactive or either side is a
    /// sensor. Otherwise one constraint per manifold with at least one
    /// point is appended, and when exactly one body sleeps while the other
    /// is active, that body's entity is queued for wake-up.
    pub fn generate_constraints<C>(
        &self,
        contacts: &Contacts,
        constraints: &mut Vec<ContactConstraint>,
        body1: &RigidBody,
        body2: &RigidBody,
        collider1: &ColliderData<C>,
        collider2: &ColliderData<C>,
        body_entity1: u64,
        body_entity2: u64,
        collision_margin: i64,
        contact_softness: ContactSoftnessCoefficients,
        wake_ups: &mut Vec<u64>,
    )
        requires
            self.wf(),
            contacts.wf(),
        ensures
            skip_constraints(collider1.is_sensor, *body1, collider2.is_sensor, *body2) ==> {
                &&& final(constraints)@ == old(constraints)@
                &&& final(wake_ups)@ == old(wake_ups)@
            },
            !skip_constraints(collider1.is_sensor, *body1, collider2.is_sensor, *body2) ==> {
                &&& final(wake_ups)@ == old(wake_ups)@ + wake_additions(
                    *body1,
                    *body2,
                    body_entity1,
                    body_entity2,
                )
                &&& final(constraints)@.len() >= old(constraints)@.len()
                &&& final(constraints)@.take(old(constraints)@.len() as int) == old(constraints)@
                &&& constraints_match_prefix(
                    final(constraints)@.skip(old(constraints)@.len() as int),
                    *contacts,
                    contacts.manifolds@.len() as int,
                    collision_margin,
                    self.config.default_speculative_margin,
                    softness_for(*body1, *body2, contact_softness),
                    self.config.match_contacts,
                )
            },
    {
        let inactive1 = body1.kind == BodyKind::Static || body1.sleeping;
        let inactive2 = body2.kind == BodyKind::Static || body2.sleeping;
        if (inactive1 && inactive2) || collider1.is_sensor || body1.sensor || collider2.is_sensor
            || body2.sensor {
            return;
        }
        if body1.sleeping {
            wake_ups.push(body_entity1);
        } else if body2.sleeping {
            wake_ups.push(body_entity2);
        }
        proof {
            assert(wake_ups@ =~= old(wake_ups)@ + wake_additions(
                *body1,
                *body2,
                body_entity1,
                body_entity2,
            ));
        }
        let softness = if !(body1.kind == BodyKind::Dynamic) || !(body2.kind == BodyKind::Dynamic) {
            contact_softness.non_dynamic
        } else {
            contact_softness.dynamic
        };
        let n = contacts.manifolds.len();
        let ghost base = constraints@;
        let mut i: usize = 0;
        while i < n
            invariant
                i <= n,
                n == contacts.manifolds@.len(),
                contacts.wf(),
                self.wf(),
                softness == softness_for(*body1, *body2, contact_softness),
                constraints@.len() >= base.len(),
                constraints@.take(base.len() as int) == base,
                constraints_match_prefix(
                    constraints@.skip(base.len() as int),
                    *contacts,
                    i as int,
                    collision_margin,
                    self.config.default_speculative_margin,
                    softness,
                    self.config.match_contacts,
                ),
            decreases n - i,
        {
            let m = &contacts.manifolds[i];
            if m.points.len() > 0 {
                let cc = ContactConstraint {
                    entity1: contacts.entity1,
                    entity2: contacts.entity2,
                    manifold_index: i,
                    points: copy_points(&m.points),
                    normal: m.normal,
                    friction: m.friction,
                    restitution: m.restitution,
                    tangent_velocity: m.tangent_velocity,
                    collision_margin,
                    speculative_margin: self.config.default_speculative_margin,
                    softness,
                    match_enabled: self.config.match_contacts,
                };
                let ghost prior = constraints@;
                constraints.push(cc);
                proof {
                    assert(constraints@.take(base.len() as int) =~= prior.take(base.len() as int));
                    let added = constraints@.skip(base.len() as int);
                    assert(added.drop_last() =~= prior.skip(base.len() as int));
                    assert(added.last() == cc);
                }
            }
            i += 1;
        }
    }

    /// Generates constraints for every registry entry: resolves both
    /// sides' colliders and bodies, skips pairs with a missing side or
    /// without a dynamic body, sums the collision margins, and appends the
    /// pair's constraints and wake-up requests.
    pub fn generate_all_constraints<C: AnyCollider>(
        &self,
        colliders: &ColliderStore<C>,
        bodies: &BodyStore,
        contact_softness: ContactSoftnessCoefficients,
        constraints: &mut Vec<ContactConstraint>,
        wake_ups: &mut Vec<u64>,
    )
        requires
            self.wf(),
            colliders.wf(),
            bodies.wf(),
        ensures
            final(wake_ups)@ == old(wake_ups)@ + all_wakes(
                self.collisions.entries@,
                self.collisions.entries@.len() as int,
                *colliders,
                *bodies,
            ),
            final(constraints)@.len() >= old(constraints)@.len(),
            final(constraints)@.take(old(constraints)@.len() as int) == old(constraints)@,
            all_constraints_match(
                final(constraints)@.skip(old(constraints)@.len() as int),
                self.collisions.entries@,
                self.collisions.entries@.len() as int,
                *colliders,
                *bodies,
                contact_softness,
                self.config.default_speculative_margin,
                self.config.match_contacts,
            ),
    {
        let n = self.collisions.entries.len();
        let ghost base_c = constraints@;
        let ghost base_w = wake_ups@;
        let mut e: usize = 0;
        while e < n
            invariant
                e <= n,
                n == self.collisions.entries@.len(),
                self.wf(),
                colliders.wf(),
                bodies.wf(),
                wake_ups@ == base_w + all_wakes(
                    self.collisions.entries@,
                    e as int,
                    *colliders,
                    *bodies,
                ),
                constraints@.len() >= base_c.len(),
                constraints@.take(base_c.len() as int) == base_c,
                all_constraints_match(
                    constraints@.skip(base_c.len() as int),
                    self.collisions.entries@,
                    e as int,
                    *colliders,
                    *bodies,
                    contact_softness,
                    self.config.default_speculative_margin,
                    self.config.match_contacts,
                ),
            decreases n - e,
        {
            let c = &self.collisions.entries[e];
            let ghost pre_c = constraints@;
            let ghost pre_w = wake_ups@;
            match (colliders.get(c.entity1), colliders.get(c.entity2)) {
                (Some(c1), Some(c2)) => {
                    proof {
                        colliders.lemma_lookup_wf(c.entity1);
                        colliders.lemma_lookup_wf(c.entity2);
                        bodies.lemma_lookup_wf(body_anchor(*c1, c.entity1));
                        bodies.lemma_lookup_wf(body_anchor(*c2, c.entity2));
                    }
                    let b1 = lookup_body(bodies, c1);
                    let b2 = lookup_body(bodies, c2);
                    match (b1, b2, c1.body, c2.body) {
                        (Some(rb1), Some(rb2), Some(be1), Some(be2)) => {
                            if rb1.kind == BodyKind::Dynamic || rb2.kind == BodyKind::Dynamic {
                                let m1 = resolve_collision_margin(
                                    c1.collision_margin,
                                    body_collision_margin(b1),
                                );
                                let m2 = resolve_collision_margin(
                                    c2.collision_margin,
                                    body_collision_margin(b2),
                                );
                                let margin_sum = m1 + m2;
                                self.generate_constraints(
                                    c,
                                    constraints,
                                    rb1,
                                    rb2,
                                    c1,
                                    c2,
                                    be1,
                                    be2,
                                    margin_sum,
                                    contact_softness,
                                    wake_ups,
                                );
                                proof {
                                    assert(side_body(*c1, *bodies) == Some(*rb1));
                                    assert(side_body(*c2, *bodies) == Some(*rb2));
                                    assert(colliders.spec_get(c.entity1) == Some(*c1));
                                    assert(colliders.spec_get(c.entity2) == Some(*c2));
                                    assert(spec_pair_margin(
                                        self.collisions.entries@[e as int],
                                        *colliders,
                                        *bodies,
                                    ) == margin_sum);
                                }
                            }
                        },
                        _ => {},
                    }
                },
                _ => {},
            }
            proof {
                let entries = self.collisions.entries@;
                let env_c = *colliders;
                let env_b = *bodies;
                lemma_step_all(
                    entries,
                    e as int,
                    env_c,
                    env_b,
                    contact_softness,
                    self.config.default_speculative_margin,
                    self.config.match_contacts,
                    base_c,
                    base_w,
                    pre_c,
                    pre_w,
                    constraints@,
                    wake_ups@,
                );
            }
            e += 1;
        }
    }
}

/// Flattens all points of an entry's manifolds into the pool the matcher
/// searches.
pub fn flatten_previous(prev: &Contacts) -> (r: Vec<ContactPoint>)
    requires
        prev.wf(),
    ensures
        r@ == flattened_points(prev.manifolds@, prev.manifolds@.len() as int),
        forall|k: int| 0 <= k < r@.len() ==> (#[trigger] r@[k]).wf(),
{
    let mut out: Vec<ContactPoint> = Vec::new();
    let pm = prev.manifolds.len();
    let mut a: usize = 0;
    proof {
        assert(out@ =~= flattened_points(prev.manifolds@, 0));
    }
    while a < pm
        invariant
            a <= pm,
            pm == prev.manifolds@.len(),
            prev.wf(),
            out@ == flattened_points(prev.manifolds@, a as int),
            forall|k: int| 0 <= k < out@.len() ==> (#[trigger] out@[k]).wf(),
        decreases pm - a,
    {
        let pn = prev.manifolds[a].points.len();
        let mut b: usize = 0;
        while b < pn
            invariant
                b <= pn,
                a < pm,
                pm == prev.manifolds@.len(),
                pn == prev.manifolds@[a as int].points@.len(),
                prev.wf(),
                out@ == flattened_points(prev.manifolds@, a as int) + prev.manifolds@[a as int].points@.take(b as int),
                forall|k: int| 0 <= k < out@.len() ==> (#[trigger] out@[k]).wf(),
            decreases pn - b,
        {
            out.push(prev.manifolds[a].points[b]);
            proof {
                assert(prev.manifolds@[a as int].points@.take(b as int + 1) =~= prev.manifolds@[
                    a as int].points@.take(b as int).push(prev.manifolds@[a as int].points@[b as int]));
                assert(out@ =~= flattened_points(prev.manifolds@, a as int) + prev.manifolds@[
                    a as int].points@.take(b as int + 1));
            }
            b += 1;
        }
        proof {
            assert(prev.manifolds@[a as int].points@.take(pn as int) =~= prev.manifolds@[
                a as int].points@);
            assert(out@ =~= flattened_points(prev.manifolds@, a as int + 1));
        }
        a += 1;
    }
    out
}

/// Assembles one pair's contact state from the shape oracle's manifolds:
/// stamps the combined coefficients and a zero tangent velocity onto every
/// manifold, warm-starts the points against the previous pool when
/// matching is enabled and at most four manifolds came back, and builds
/// the `Contacts` value with its lifecycle flags. Returns `None` exactly
/// when the oracle produced nothing.
#[allow(clippy::too_many_arguments)]
pub fn assemble_contact_pair(
    entity1: u64,
    entity2: u64,
    body_entity1: Option<u64>,
    body_entity2: Option<u64>,
    is_sensor: bool,
    during_previous: bool,
    manifolds: Vec<ContactManifold>,
    friction: i64,
    restitution: i64,
    prev_points: &Vec<ContactPoint>,
    match_enabled: bool,
    threshold: i64,
) -> (r: Option<Contacts>)
    requires
        entity1 < entity2,
        forall|i: int| 0 <= i < manifolds@.len() ==> (#[trigger] manifolds@[i]).wf(),
        forall|k: int| 0 <= k < prev_points@.len() ==> (#[trigger] prev_points@[k]).wf(),
        0 <= friction <= SCALAR_LIMIT,
        0 <= restitution <= SCALAR_LIMIT,
        0 <= threshold <= SCALAR_LIMIT,
    ensures
        r is Some <==> manifolds@.len() > 0,
        match r {
            Some(c) => {
                &&& c.wf()
                &&& c.entity1 == entity1
                &&& c.entity2 == entity2
                &&& c.body_entity1 == body_entity1
                &&& c.body_entity2 == body_entity2
                &&& c.during_current_frame
                &&& c.during_previous_frame == during_previous
                &&& c.is_sensor == is_sensor
                &&& c.manifolds@.len() == manifolds@.len()
                &&& forall|i: int|
                    0 <= i < manifolds@.len() ==> assembled_manifold(
                        #[trigger] c.manifolds@[i],
                        manifolds@[i],
                        friction,
                        restitution,
                        prev_points@,
                        threshold as int,
                        manifolds@.len() <= 4 && match_enabled,
                    )
            },
            None => true,
        },
{
    if manifolds.len() == 0 {
        return None;
    }
    let ghost orig = manifolds@;
    let mut manifolds = manifolds;
    let n = manifolds.len();
    let mut i: usize = 0;
    while i < n
        invariant
            i <= n,
            n == manifolds@.len(),
            orig.len() == n,
            0 <= friction <= SCALAR_LIMIT,
            0 <= restitution <= SCALAR_LIMIT,
            forall|k: int| 0 <= k < n ==> (#[trigger] manifolds@[k]).wf(),
            forall|k: int| i <= k < n ==> (#[trigger] manifolds@[k]) == orig[k],
            forall|k: int|
                0 <= k < i ==> {
                    let m = #[trigger] manifolds@[k];
                    &&& m.normal == orig[k].normal
                    &&& m.points@ == orig[k].points@
                    &&& m.friction == friction
                    &&& m.restitution == restitution
                    &&& m.tangent_velocity == (Vec3 { x: 0, y: 0, z: 0 })
                },
        decreases n - i,
    {
        let m = vec_index_mut(&mut manifolds, i);
        m.friction = friction;
        m.restitution = restitution;
        m.tangent_velocity = Vec3 { x: 0, y: 0, z: 0 };
        i += 1;
    }
    let ghost stamped = manifolds@;
    let do_match = n <= 4 && match_enabled;
    if do_match {
        warm_start_manifolds(&mut manifolds, prev_points, threshold);
    }
    let contacts = Contacts {
        entity1,
        entity2,
        body_entity1,
        body_entity2,
        manifolds,
        during_current_frame: true,
        during_previous_frame: during_previous,
        is_sensor,
    };
    proof {
        assert forall|i2: int| 0 <= i2 < orig.len() implies assembled_manifold(
            #[trigger] contacts.manifolds@[i2],
            orig[i2],
            friction,
            restitution,
            prev_points@,
            threshold as int,
            orig.len() <= 4 && match_enabled,
        ) by {
            if do_match {
                assert forall|j: int| 0 <= j < orig[i2].points@.len() implies #[trigger] contacts.manifolds@[i2].points@[j]
                    == point_with_impulses(
                    orig[i2].points@[j],
                    warm_impulses(orig[i2].points@[j], prev_points@, threshold as int),
                ) by {
                    assert(stamped[i2].points@[j] == orig[i2].points@[j]);
                }
            }
        }
    }
    Some(contacts)
}

/// The entity whose body record backs a collider: the owning body if it
/// names one, else the collider entity itself (which then has no body
/// record of interest).
pub open spec fn body_anchor<C>(collider: ColliderData<C>, entity: u64) -> u64 {
    match collider.body {
        Some(e) => e,
        None => entity,
    }
}

/// Looks up the rigid body a collider belongs to, flattened.
fn lookup_body<'a, C>(bodies: &'a BodyStore, collider: &ColliderData<C>) -> (r: Option<
    &'a RigidBody,
>)
    ensures
        match r {
            Some(rb) => side_body(*collider, *bodies) == Some(*rb),
            None => side_body(*collider, *bodies) is None,
        },
{
    match collider.body {
        Some(e) => match bodies.get(e) {
            Some(inner) => match inner {
                Some(rb) => Some(rb),
                None => None,
            },
            None => None,
        },
        None => None,
    }
}

/// A body's collision-margin override, flattened from an optional body.
fn body_collision_margin(b: Option<&RigidBody>) -> (r: Option<i64>)
    ensures
        r == match b {
            Some(rb) => rb.collision_margin,
            None => None::<i64>,
        },
{
    match b {
        Some(rb) => rb.collision_margin,
        None => None,
    }
}

/// Resolves one side's friction coefficient.
fn resolve_friction_side<C>(collider: &ColliderData<C>, body: Option<&RigidBody>, default: i64) -> (
    r: i64)
    requires
        collider.wf(),
        match body {
            Some(rb) => rb.wf(),
            None => true,
        },
        0 <= default <= SCALAR_LIMIT,
    ensures
        r == resolved_friction(
            *collider,
            match body {
                Some(rb) => Some(*rb),
                None => None::<RigidBody>,
            },
            default,
        ),
        0 <= r <= SCALAR_LIMIT,
{
    match collider.friction {
        Some(f) => f,
        None => match body {
            Some(rb) => match rb.friction {
                Some(f) => f,
                None => default,
            },
            None => default,
        },
    }
}

/// A shape looked up in a well-formed store is well formed.
proof fn lemma_store_shape_wf<C: AnyCollider>(s: ColliderStore<C>, id: u64)
    requires
        store_shapes_wf(s),
    ensures
        match s.spec_get(id) {
            Some(c) => c.shape.shape_wf(),
            None => true,
        },
{
    crate::world::lemma_lookup_in_range(s.entries@, id);
}

/// Whether a registry entry reaches constraint generation: both colliders
/// and both bodies resolve, at least one body is dynamic, and the pair is
/// not skipped as inactive or sensor.
pub open spec fn spec_emits<C>(c: Contacts, colliders: ColliderStore<C>, bodies: BodyStore) -> bool {
    match (colliders.spec_get(c.entity1), colliders.spec_get(c.entity2)) {
        (Some(c1), Some(c2)) => match (side_body(c1, bodies), side_body(c2, bodies)) {
            (Some(b1), Some(b2)) => {
                &&& c1.body is Some
                &&& c2.body is Some
                &&& (b1.is_dynamic() || b2.is_dynamic())
                &&& !skip_constraints(c1.is_sensor, b1, c2.is_sensor, b2)
            },
            _ => false,
        },
        _ => false,
    }
}

/// The wake-up requests one registry entry emits.
pub open spec fn spec_wake_for<C>(
    c: Contacts,
    colliders: ColliderStore<C>,
    bodies: BodyStore,
) -> Seq<u64> {
    if spec_emits(c, colliders, bodies) {
        let c1 = colliders.spec_get(c.entity1).unwrap();
        let c2 = colliders.spec_get(c.entity2).unwrap();
        let b1 = side_body(c1, bodies).unwrap();
        let b2 = side_body(c2, bodies).unwrap();
        wake_additions(b1, b2, c1.body.unwrap(), c2.body.unwrap())
    } else {
        Seq::empty()
    }
}

/// The collision-margin sum of a registry entry's pair.
pub open spec fn spec_pair_margin<C>(
    c: Contacts,
    colliders: ColliderStore<C>,
    bodies: BodyStore,
) -> i64 {
    let c1 = colliders.spec_get(c.entity1).unwrap();
    let c2 = colliders.spec_get(c.entity2).unwrap();
    (spec_collision_margin(
        c1.collision_margin,
        match side_body(c1, bodies) {
            Some(b) => b.collision_margin,
            None => None,
        },
    ) + spec_collision_margin(
        c2.collision_margin,
        match side_body(c2, bodies) {
            Some(b) => b.collision_margin,
            None => None,
        },
    )) as i64
}

/// All wake-up requests emitted by the first `n` registry entries.
pub open spec fn all_wakes<C>(
    entries: Seq<Contacts>,
    n: int,
    colliders: ColliderStore<C>,
    bodies: BodyStore,
) -> Seq<u64>
    decreases n,
{
    if n <= 0 {
        Seq::empty()
    } else {
        all_wakes(entries, n - 1, colliders, bodies) + spec_wake_for(
            entries[n - 1],
            colliders,
            bodies,
        )
    }
}

/// `added` is exactly the constraint list the first `n` registry entries
/// generate: nothing for entries that do not emit, and the entry's own
/// constraint block for those that do, in entry order.
pub open spec fn all_constraints_match<C>(
    added: Seq<ContactConstraint>,
    entries: Seq<Contacts>,
    n: int,
    colliders: ColliderStore<C>,
    bodies: BodyStore,
    softness: ContactSoftnessCoefficients,
    speculative_margin: i64,
    match_enabled: bool,
) -> bool
    decreases n,
{
    if n <= 0 {
        added.len() == 0
    } else {
        let c = entries[n - 1];
        if spec_emits(c, colliders, bodies) {
            let c1 = colliders.spec_get(c.entity1).unwrap();
            let c2 = colliders.spec_get(c.entity2).unwrap();
            let b1 = side_body(c1, bodies).unwrap();
            let b2 = side_body(c2, bodies).unwrap();
            exists|k: int|
                {
                    &&& 0 <= k <= added.len()
                    &&& constraints_match_prefix(
                        #[trigger] added.skip(added.len() - k),
                        c,
                        c.manifolds@.len() as int,
                        spec_pair_margin(c, colliders, bodies),
                        speculative_margin,
                        softness_for(b1, b2, softness),
                        match_enabled,
                    )
                    &&& all_constraints_match(
                        added.take(added.len() - k),
                        entries,
                        n - 1,
                        colliders,
                        bodies,
                        softness,
                        speculative_margin,
                        match_enabled,
                    )
                }
        } else {
            all_constraints_match(
                added,
                entries,
                n - 1,
                colliders,
                bodies,
                softness,
                speculative_margin,
                match_enabled,
            )
        }
    }
}

/// Idempotence of constraint generation: two constraint lists generated
/// from the same registry snapshot, stores, softness, and configuration
/// are observably identical, element by element. Wake-up requests agree
/// as well, since [`all_wakes`] is a function of the same inputs.
pub proof fn lemma_generation_idempotent<C>(
    a: Seq<ContactConstraint>,
    b: Seq<ContactConstraint>,
    entries: Seq<Contacts>,
    n: int,
    colliders: ColliderStore<C>,
    bodies: BodyStore,
    softness: ContactSoftnessCoefficients,
    speculative_margin: i64,
    match_enabled: bool,
)
    requires
        all_constraints_match(
            a,
            entries,
            n,
            colliders,
            bodies,
            softness,
            speculative_margin,
            match_enabled,
        ),
        all_constraints_match(
            b,
            entries,
            n,
            colliders,
            bodies,
            softness,
            speculative_margin,
            match_enabled,
        ),
    ensures
        a.len() == b.len(),
        forall|i: int|
            0 <= i < a.len() ==> crate::constraint::constraint_obs_eq(#[trigger] a[i], b[i]),
    decreases n,
{
    if n <= 0 {
    } else {
        let c = entries[n - 1];
        if spec_emits(c, colliders, bodies) {
            let c1 = colliders.spec_get(c.entity1).unwrap();
            let c2 = colliders.spec_get(c.entity2).unwrap();
            let b1 = side_body(c1, bodies).unwrap();
            let b2 = side_body(c2, bodies).unwrap();
            let margin = spec_pair_margin(c, colliders, bodies);
            let soft = softness_for(b1, b2, softness);
            let ka = choose|k: int|
                {
                    &&& 0 <= k <= a.len()
                    &&& constraints_match_prefix(
                        #[trigger] a.skip(a.len() - k),
                        c,
                        c.manifolds@.len() as int,
                        margin,
                        speculative_margin,
                        soft,
                        match_enabled,
                    )
                    &&& all_constraints_match(
                        a.take(a.len() - k),
                        entries,
                        n - 1,
                        colliders,
                        bodies,
                        softness,
                        speculative_margin,
                        match_enabled,
                    )
                };
            let kb = choose|k: int|
                {
                    &&& 0 <= k <= b.len()
                    &&& constraints_match_prefix(
                        #[trigger] b.skip(b.len() - k),
                        c,
                        c.manifolds@.len() as int,
                        margin,
                        speculative_margin,
                        soft,
                        match_enabled,
                    )
                    &&& all_constraints_match(
                        b.take(b.len() - k),
                        entries,
                        n - 1,
                        colliders,
                        bodies,
                        softness,
                        speculative_margin,
                        match_enabled,
                    )
                };
            crate::constraint::lemma_prefix_match_len(
                a.skip(a.len() - ka),
                c,
                c.manifolds@.len() as int,
                margin,
                speculative_margin,
                soft,
                match_enabled,
            );
            crate::constraint::lemma_prefix_match_len(
                b.skip(b.len() - kb),
                c,
                c.manifolds@.len() as int,
                margin,
                speculative_margin,
                soft,
                match_enabled,
            );
            assert(ka == kb);
            lemma_generation_idempotent(
                a.take(a.len() - ka),
                b.take(b.len() - kb),
                entries,
                n - 1,
                colliders,
                bodies,
                softness,
                speculative_margin,
                match_enabled,
            );
            assert(a.len() == b.len());
            crate::constraint::lemma_generation_deterministic(
                a.skip(a.len() - ka),
                b.skip(b.len() - kb),
                c,
                c.manifolds@.len() as int,
                margin,
                speculative_margin,
                soft,
                match_enabled,
            );
            assert forall|i: int|
                0 <= i < a.len() implies crate::constraint::constraint_obs_eq(
                #[trigger] a[i],
                b[i],
            ) by {
                if i < a.len() - ka {
                    assert(a.take(a.len() - ka)[i] == a[i]);
                    assert(b.take(b.len() - kb)[i] == b[i]);
                } else {
                    assert(a.skip(a.len() - ka)[i - (a.len() - ka)] == a[i]);
                    assert(b.skip(b.len() - kb)[i - (b.len() - kb)] == b[i]);
                }
            }
        } else {
            lemma_generation_idempotent(
                a,
                b,
                entries,
                n - 1,
                colliders,
                bodies,
                softness,
                speculative_margin,
                match_enabled,
            );
        }
    }
}

/// One loop step of constraint generation preserves the running
/// characterization of what has been appended so far.
#[verifier::rlimit(30)]
proof fn lemma_step_all<C>(
    entries: Seq<Contacts>,
    e: int,
    colliders: ColliderStore<C>,
    bodies: BodyStore,
    softness: ContactSoftnessCoefficients,
    speculative_margin: i64,
    match_enabled: bool,
    base_c: Seq<ContactConstraint>,
    base_w: Seq<u64>,
    pre_c: Seq<ContactConstraint>,
    pre_w: Seq<u64>,
    post_c: Seq<ContactConstraint>,
    post_w: Seq<u64>,
)
    requires
        0 <= e < entries.len(),
        pre_c.len() >= base_c.len(),
        pre_c.take(base_c.len() as int) == base_c,
        all_constraints_match(
            pre_c.skip(base_c.len() as int),
            entries,
            e,
            colliders,
            bodies,
            softness,
            speculative_margin,
            match_enabled,
        ),
        pre_w == base_w + all_wakes(entries, e, colliders, bodies),
        ({
            let c = entries[e];
            if spec_emits(c, colliders, bodies) {
                let c1 = colliders.spec_get(c.entity1).unwrap();
                let c2 = colliders.spec_get(c.entity2).unwrap();
                let b1 = side_body(c1, bodies).unwrap();
                let b2 = side_body(c2, bodies).unwrap();
                &&& post_w == pre_w + wake_additions(b1, b2, c1.body.unwrap(), c2.body.unwrap())
                &&& post_c.len() >= pre_c.len()
                &&& post_c.take(pre_c.len() as int) == pre_c
                &&& constraints_match_prefix(
                    post_c.skip(pre_c.len() as int),
                    c,
                    c.manifolds@.len() as int,
                    spec_pair_margin(c, colliders, bodies),
                    speculative_margin,
                    softness_for(b1, b2, softness),
                    match_enabled,
                )
            } else {
                post_c == pre_c && post_w == pre_w
            }
        }),
    ensures
        post_c.len() >= base_c.len(),
        post_c.take(base_c.len() as int) == base_c,
        all_constraints_match(
            post_c.skip(base_c.len() as int),
            entries,
            e + 1,
            colliders,
            bodies,
            softness,
            speculative_margin,
            match_enabled,
        ),
        post_w == base_w + all_wakes(entries, e + 1, colliders, bodies),
{
    let c = entries[e];
    if spec_emits(c, colliders, bodies) {
        let k = post_c.len() - pre_c.len();
        let added = post_c.skip(base_c.len() as int);
        assert(post_c.take(base_c.len() as int) =~= base_c);
        assert(added.take(added.len() - k) =~= pre_c.skip(base_c.len() as int));
        assert(added.skip(added.len() - k) =~= post_c.skip(pre_c.len() as int));
        assert(post_w =~= base_w + all_wakes(entries, e + 1, colliders, bodies));
    } else {
        assert(all_wakes(entries, e + 1, colliders, bodies) =~= all_wakes(
            entries,
            e,
            colliders,
            bodies,
        ));
        assert(post_w =~= base_w + all_wakes(entries, e + 1, colliders, bodies));
    }
}

} // verus!
