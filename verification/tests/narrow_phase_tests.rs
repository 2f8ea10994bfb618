//! End-to-end and component tests for the narrow phase.

use narrow_phase::config::{ContactSoftnessCoefficients, NarrowPhaseConfig, SoftnessParams};
use narrow_phase::contact::Contacts;
use narrow_phase::phase::{NarrowPhase, NoHooks};
use narrow_phase::registry::{remove_ended_collisions, reset_collision_states};
use narrow_phase::shapes::Shape;
use narrow_phase::math::{Vec3, SCALE};
use narrow_phase::world::{BodyKind, BodyStore, ColliderData, ColliderStore, RigidBody};

fn vec3(x: i64, y: i64, z: i64) -> Vec3 {
    Vec3 { x, y, z }
}

fn dynamic_body(velocity: Vec3) -> RigidBody {
    RigidBody {
        kind: BodyKind::Dynamic,
        linear_velocity: velocity,
        sleeping: false,
        sensor: false,
        friction: None,
        collision_margin: None,
        speculative_margin: None,
    }
}

fn sphere_collider(radius: i64, position: Vec3, body: Option<u64>) -> ColliderData<Shape> {
    ColliderData {
        shape: Shape::Sphere { radius },
        position,
        rotation: vec3(0, 0, 0),
        friction: None,
        restitution: None,
        collision_margin: None,
        speculative_margin: None,
        is_sensor: false,
        body,
        modify_contacts_hook: false,
    }
}

fn softness() -> ContactSoftnessCoefficients {
    ContactSoftnessCoefficients {
        dynamic: SoftnessParams { stiffness: 10, damping: 20 },
        non_dynamic: SoftnessParams { stiffness: 30, damping: 40 },
    }
}

fn default_phase() -> NarrowPhase {
    NarrowPhase::new(NarrowPhaseConfig::default(), 500_000, 0, SCALE)
}

/// Two dynamic spheres of radius one world unit, their centers `gap` raw
/// units apart on the x axis, with the given velocities.
fn sphere_world(
    gap: i64,
    v1: Vec3,
    v2: Vec3,
) -> (ColliderStore<Shape>, BodyStore) {
    let colliders = ColliderStore {
        entries: vec![
            (1, sphere_collider(SCALE, vec3(0, 0, 0), Some(10))),
            (2, sphere_collider(SCALE, vec3(gap, 0, 0), Some(20))),
        ],
    };
    let bodies = BodyStore {
        entries: vec![(10, Some(dynamic_body(v1))), (20, Some(dynamic_body(v2)))],
    };
    (colliders, bodies)
}

#[test]
fn config_default_values() {
    let c = NarrowPhaseConfig::default();
    assert_eq!(c.default_speculative_margin, i64::MAX);
    assert_eq!(c.contact_tolerance, 5000);
    assert!(c.match_contacts);
}

#[test]
fn overlapping_spheres_make_one_manifold_and_one_constraint() {
    // Radius 1.0 each, centers 1.8 apart: overlap 0.2, separation -0.2.
    let (colliders, bodies) = sphere_world(1_800_000, vec3(0, 0, 0), vec3(0, 0, 0));
    let mut phase = default_phase();
    let mut hooks = NoHooks;
    phase.update(&vec![(1, 2)], 20, &colliders, &bodies, &mut hooks);

    let entry = phase.collisions.get(1, 2).expect("pair must be tracked");
    assert_eq!(entry.manifolds.len(), 1);
    assert_eq!(entry.manifolds[0].points.len(), 1);
    assert_eq!(entry.manifolds[0].points[0].separation, -200_000);
    assert!(entry.during_current_frame);
    assert!(!entry.during_previous_frame);
    assert!(!entry.is_sensor);

    let mut constraints = Vec::new();
    let mut wake_ups = Vec::new();
    phase.generate_all_constraints(&colliders, &bodies, softness(), &mut constraints, &mut wake_ups);
    assert_eq!(constraints.len(), 1);
    assert_eq!(constraints[0].entity1, 1);
    assert_eq!(constraints[0].entity2, 2);
    assert_eq!(constraints[0].points.len(), 1);
    assert_eq!(constraints[0].softness, softness().dynamic);
    // Both bodies are awake already: no wake-up request.
    assert!(wake_ups.is_empty());
}

#[test]
fn speculative_contact_from_closing_velocity() {
    // Centers 3.0 apart (separation 1.0), closing at 50 units per second
    // with a step of 0.02 s: speculative distance 1.0 reaches the contact.
    let (colliders, bodies) = sphere_world(3_000_000, vec3(50_000, 0, 0), vec3(0, 0, 0));
    let mut phase = default_phase();
    let mut hooks = NoHooks;
    phase.update(&vec![(1, 2)], 20, &colliders, &bodies, &mut hooks);

    let entry = phase.collisions.get(1, 2).expect("speculative pair must be tracked");
    assert_eq!(entry.manifolds.len(), 1);
    let point = entry.manifolds[0].points[0];
    // Contact distance is positive: the spheres do not touch yet.
    assert_eq!(point.separation, 1_000_000);
    // First occurrence: no warm-started impulse.
    assert_eq!(point.normal_impulse, 0);
    assert_eq!(point.tangent_impulse, 0);

    let mut constraints = Vec::new();
    let mut wake_ups = Vec::new();
    phase.generate_all_constraints(&colliders, &bodies, softness(), &mut constraints, &mut wake_ups);
    assert_eq!(constraints.len(), 1);
    assert!(wake_ups.is_empty());
}

#[test]
fn distant_slow_spheres_make_no_contact() {
    // Separation 1.0 but no velocity: only the 0.005 tolerance remains.
    let (colliders, bodies) = sphere_world(3_000_000, vec3(0, 0, 0), vec3(0, 0, 0));
    let mut phase = default_phase();
    let mut hooks = NoHooks;
    phase.update(&vec![(1, 2)], 20, &colliders, &bodies, &mut hooks);
    assert!(phase.collisions.get(1, 2).is_none());
}

#[test]
fn pair_order_resolves_to_same_registry_entry() {
    let (colliders, bodies) = sphere_world(1_800_000, vec3(0, 0, 0), vec3(0, 0, 0));
    let mut phase = default_phase();
    let mut hooks = NoHooks;
    // The broad phase hands the pair in reversed order.
    phase.update(&vec![(2, 1)], 20, &colliders, &bodies, &mut hooks);
    assert_eq!(phase.collisions.len(), 1);
    let entry = phase.collisions.get(1, 2).expect("canonical lookup");
    assert_eq!(entry.entity1, 1);
    assert_eq!(entry.entity2, 2);
    // The reversed lookup sees the same entry.
    let same = phase.collisions.get(2, 1).expect("reversed lookup");
    assert_eq!(same.entity1, 1);
    // Updating under the other order keeps a single entry.
    phase.update(&vec![(1, 2)], 20, &colliders, &bodies, &mut hooks);
    assert_eq!(phase.collisions.len(), 1);
}

#[test]
fn duplicate_pairs_are_processed_independently() {
    let (colliders, bodies) = sphere_world(1_800_000, vec3(0, 0, 0), vec3(0, 0, 0));
    let mut phase = default_phase();
    let mut hooks = NoHooks;
    phase.update(&vec![(1, 2), (2, 1), (1, 2)], 20, &colliders, &bodies, &mut hooks);
    assert_eq!(phase.collisions.len(), 1);
}

#[test]
fn static_or_sleeping_pair_generates_no_constraint() {
    let (colliders, mut bodies) = sphere_world(1_800_000, vec3(0, 0, 0), vec3(0, 0, 0));
    // Make one body static and the other sleeping.
    bodies.entries[0].1.as_mut().unwrap().kind = BodyKind::Static;
    bodies.entries[1].1.as_mut().unwrap().sleeping = true;
    let mut phase = default_phase();
    let mut hooks = NoHooks;
    phase.update(&vec![(1, 2)], 20, &colliders, &bodies, &mut hooks);
    // The overlap is tracked in the registry...
    assert!(phase.collisions.get(1, 2).is_some());
    // ...but no constraint and no wake-up comes out.
    let mut constraints = Vec::new();
    let mut wake_ups = Vec::new();
    phase.generate_all_constraints(&colliders, &bodies, softness(), &mut constraints, &mut wake_ups);
    assert!(constraints.is_empty());
    assert!(wake_ups.is_empty());
}

#[test]
fn sensor_pair_is_tracked_but_generates_no_constraint() {
    let (mut colliders, bodies) = sphere_world(1_800_000, vec3(0, 0, 0), vec3(0, 0, 0));
    colliders.entries[0].1.is_sensor = true;
    let mut phase = default_phase();
    let mut hooks = NoHooks;
    phase.update(&vec![(1, 2)], 20, &colliders, &bodies, &mut hooks);
    let entry = phase.collisions.get(1, 2).expect("sensor pair still tracked");
    assert!(entry.is_sensor);
    let mut constraints = Vec::new();
    let mut wake_ups = Vec::new();
    phase.generate_all_constraints(&colliders, &bodies, softness(), &mut constraints, &mut wake_ups);
    assert!(constraints.is_empty());
}

#[test]
fn active_body_wakes_sleeping_partner() {
    let (colliders, mut bodies) = sphere_world(1_800_000, vec3(0, 0, 0), vec3(0, 0, 0));
    bodies.entries[1].1.as_mut().unwrap().sleeping = true;
    let mut phase = default_phase();
    let mut hooks = NoHooks;
    phase.update(&vec![(1, 2)], 20, &colliders, &bodies, &mut hooks);
    let mut constraints = Vec::new();
    let mut wake_ups = Vec::new();
    phase.generate_all_constraints(&colliders, &bodies, softness(), &mut constraints, &mut wake_ups);
    assert_eq!(constraints.len(), 1);
    // The sleeping body's entity is queued for wake-up, deferred.
    assert_eq!(wake_ups, vec![20]);
}

#[test]
fn non_dynamic_pair_selects_stiffer_softness() {
    let (colliders, mut bodies) = sphere_world(1_800_000, vec3(0, 0, 0), vec3(0, 0, 0));
    bodies.entries[0].1.as_mut().unwrap().kind = BodyKind::Kinematic;
    let mut phase = default_phase();
    let mut hooks = NoHooks;
    phase.update(&vec![(1, 2)], 20, &colliders, &bodies, &mut hooks);
    let mut constraints = Vec::new();
    let mut wake_ups = Vec::new();
    phase.generate_all_constraints(&colliders, &bodies, softness(), &mut constraints, &mut wake_ups);
    assert_eq!(constraints.len(), 1);
    assert_eq!(constraints[0].softness, softness().non_dynamic);
}

#[test]
fn ended_pair_is_kept_one_step_then_evicted() {
    let (colliders, bodies) = sphere_world(1_800_000, vec3(0, 0, 0), vec3(0, 0, 0));
    let mut phase = default_phase();
    let mut hooks = NoHooks;
    phase.update(&vec![(1, 2)], 20, &colliders, &bodies, &mut hooks);
    assert!(phase.collisions.get(1, 2).is_some());

    // Next step: the broad phase no longer reports the pair.
    reset_collision_states(&mut phase.collisions, &bodies);
    phase.update(&vec![], 20, &colliders, &bodies, &mut hooks);
    let entry = phase.collisions.get(1, 2).expect("retained for one step");
    assert!(entry.during_previous_frame);
    assert!(!entry.during_current_frame);

    // After consumers observed the ended contact, it is evicted.
    remove_ended_collisions(&mut phase.collisions);
    assert!(phase.collisions.get(1, 2).is_none());
}

#[test]
fn inactive_existing_pair_is_presumed_to_persist() {
    let (colliders, mut bodies) = sphere_world(1_800_000, vec3(0, 0, 0), vec3(0, 0, 0));
    bodies.entries[0].1.as_mut().unwrap().kind = BodyKind::Static;
    bodies.entries[1].1.as_mut().unwrap().sleeping = true;
    let mut phase = default_phase();
    let mut hooks = NoHooks;
    phase.update(&vec![(1, 2)], 20, &colliders, &bodies, &mut hooks);

    // Both sides inactive but alive: the contact persists unchanged, no
    // end-of-contact is reported and nothing is evicted.
    reset_collision_states(&mut phase.collisions, &bodies);
    let entry = phase.collisions.get(1, 2).expect("still tracked");
    assert!(entry.during_previous_frame);
    assert!(entry.during_current_frame);
    remove_ended_collisions(&mut phase.collisions);
    assert!(phase.collisions.get(1, 2).is_some());
}

#[test]
fn vanished_entity_makes_the_pair_terminal() {
    let (colliders, bodies) = sphere_world(1_800_000, vec3(0, 0, 0), vec3(0, 0, 0));
    let mut phase = default_phase();
    let mut hooks = NoHooks;
    phase.update(&vec![(1, 2)], 20, &colliders, &bodies, &mut hooks);

    // Body 20 disappears from the world.
    let bodies_after = BodyStore {
        entries: vec![(10, Some(dynamic_body(vec3(0, 0, 0))))],
    };
    reset_collision_states(&mut phase.collisions, &bodies_after);
    let entry = phase.collisions.get(1, 2).expect("terminal but observable");
    assert!(entry.during_previous_frame);
    assert!(!entry.during_current_frame);
    remove_ended_collisions(&mut phase.collisions);
    assert!(phase.collisions.get(1, 2).is_none());
}

#[test]
fn warm_start_carries_impulse_across_steps() {
    let (colliders, bodies) = sphere_world(1_800_000, vec3(0, 0, 0), vec3(0, 0, 0));
    let mut phase = default_phase();
    let mut hooks = NoHooks;
    phase.update(&vec![(1, 2)], 20, &colliders, &bodies, &mut hooks);
    assert_eq!(phase.collisions.entries[0].manifolds[0].points[0].normal_impulse, 0);

    // The solver accumulates an impulse on the stored contact.
    phase.collisions.entries[0].manifolds[0].points[0].normal_impulse = 77;
    phase.collisions.entries[0].manifolds[0].points[0].tangent_impulse = 5;

    // Next step: the same pair is collected again; the matched point
    // carries the previous impulses forward.
    reset_collision_states(&mut phase.collisions, &bodies);
    phase.update(&vec![(1, 2)], 20, &colliders, &bodies, &mut hooks);
    let point = phase.collisions.entries[0].manifolds[0].points[0];
    assert_eq!(point.normal_impulse, 77);
    assert_eq!(point.tangent_impulse, 5);
}

#[test]
fn idempotent_constraint_generation() {
    let (colliders, bodies) = sphere_world(1_800_000, vec3(0, 0, 0), vec3(0, 0, 0));
    let mut phase = default_phase();
    let mut hooks = NoHooks;
    phase.update(&vec![(1, 2)], 20, &colliders, &bodies, &mut hooks);
    let mut first = Vec::new();
    let mut second = Vec::new();
    let mut w1 = Vec::new();
    let mut w2 = Vec::new();
    phase.generate_all_constraints(&colliders, &bodies, softness(), &mut first, &mut w1);
    phase.generate_all_constraints(&colliders, &bodies, softness(), &mut second, &mut w2);
    assert_eq!(first, second);
    assert_eq!(w1, w2);
}

#[test]
fn missing_collider_skips_the_pair() {
    let (colliders, bodies) = sphere_world(1_800_000, vec3(0, 0, 0), vec3(0, 0, 0));
    let mut phase = default_phase();
    let mut hooks = NoHooks;
    // Entity 3 has no collider.
    phase.update(&vec![(1, 3)], 20, &colliders, &bodies, &mut hooks);
    assert_eq!(phase.collisions.len(), 0);
}

struct RejectAll;

impl narrow_phase::phase::CollisionHooks for RejectAll {
    fn modify_contacts(&mut self, _contacts: &mut Contacts) -> bool {
        false
    }
}

struct ZeroFriction;

impl narrow_phase::phase::CollisionHooks for ZeroFriction {
    fn modify_contacts(&mut self, contacts: &mut Contacts) -> bool {
        for m in contacts.manifolds.iter_mut() {
            m.friction = 0;
        }
        true
    }
}

#[test]
fn rejecting_hook_discards_the_pair() {
    let (mut colliders, bodies) = sphere_world(1_800_000, vec3(0, 0, 0), vec3(0, 0, 0));
    colliders.entries[0].1.modify_contacts_hook = true;
    let mut phase = default_phase();
    let mut hooks = RejectAll;
    phase.update(&vec![(1, 2)], 20, &colliders, &bodies, &mut hooks);
    assert_eq!(phase.collisions.len(), 0);
}

#[test]
fn mutating_hook_edits_are_honored() {
    let (mut colliders, bodies) = sphere_world(1_800_000, vec3(0, 0, 0), vec3(0, 0, 0));
    colliders.entries[0].1.modify_contacts_hook = true;
    let mut phase = default_phase();
    let mut hooks = ZeroFriction;
    phase.update(&vec![(1, 2)], 20, &colliders, &bodies, &mut hooks);
    let entry = phase.collisions.get(1, 2).expect("kept by the hook");
    assert_eq!(entry.manifolds[0].friction, 0);
}

#[test]
fn hook_not_invoked_without_capability() {
    let (colliders, bodies) = sphere_world(1_800_000, vec3(0, 0, 0), vec3(0, 0, 0));
    let mut phase = default_phase();
    // The hook would reject, but no collider asks for it.
    let mut hooks = RejectAll;
    phase.update(&vec![(1, 2)], 20, &colliders, &bodies, &mut hooks);
    assert_eq!(phase.collisions.len(), 1);
}

#[test]
fn combined_coefficients_are_averaged() {
    let (mut colliders, bodies) = sphere_world(1_800_000, vec3(0, 0, 0), vec3(0, 0, 0));
    colliders.entries[0].1.friction = Some(800_000);
    colliders.entries[1].1.friction = Some(400_000);
    colliders.entries[0].1.restitution = Some(300_000);
    // The other side falls back to the global default restitution, zero.
    let mut phase = default_phase();
    let mut hooks = NoHooks;
    phase.update(&vec![(1, 2)], 20, &colliders, &bodies, &mut hooks);
    let entry = phase.collisions.get(1, 2).expect("tracked");
    assert_eq!(entry.manifolds[0].friction, 600_000);
    assert_eq!(entry.manifolds[0].restitution, 150_000);
}

#[test]
fn zero_speculative_margin_disables_prediction() {
    // Fast closing velocity, but the global speculative margin is zero and
    // neither entity overrides it: only the tolerance remains, and the
    // distant pair is not predicted.
    let (colliders, bodies) = sphere_world(3_000_000, vec3(50_000, 0, 0), vec3(0, 0, 0));
    let config = NarrowPhaseConfig { default_speculative_margin: 0, ..NarrowPhaseConfig::default() };
    let mut phase = NarrowPhase::new(config, 500_000, 0, SCALE);
    let mut hooks = NoHooks;
    phase.update(&vec![(1, 2)], 20, &colliders, &bodies, &mut hooks);
    assert!(phase.collisions.get(1, 2).is_none());
}

#[test]
fn speculative_margin_override_restores_prediction() {
    // Same world, but one collider carries its own speculative margin.
    let (mut colliders, bodies) = sphere_world(3_000_000, vec3(50_000, 0, 0), vec3(0, 0, 0));
    colliders.entries[0].1.speculative_margin = Some(2_000_000);
    let config = NarrowPhaseConfig { default_speculative_margin: 0, ..NarrowPhaseConfig::default() };
    let mut phase = NarrowPhase::new(config, 500_000, 0, SCALE);
    let mut hooks = NoHooks;
    phase.update(&vec![(1, 2)], 20, &colliders, &bodies, &mut hooks);
    assert!(phase.collisions.get(1, 2).is_some());
}

#[test]
fn collision_margins_widen_the_detection_distance() {
    // Separation 0.1; the tolerance alone misses it, but collider and
    // body margins sum to 0.11 and recover the contact.
    let (mut colliders, mut bodies) = sphere_world(2_100_000, vec3(0, 0, 0), vec3(0, 0, 0));
    colliders.entries[0].1.collision_margin = Some(60_000);
    bodies.entries[1].1.as_mut().unwrap().collision_margin = Some(50_000);
    let mut phase = default_phase();
    let mut hooks = NoHooks;
    phase.update(&vec![(1, 2)], 20, &colliders, &bodies, &mut hooks);
    assert!(phase.collisions.get(1, 2).is_some());

    // Without the margins the same pair is missed.
    let (colliders_plain, bodies_plain) = sphere_world(2_100_000, vec3(0, 0, 0), vec3(0, 0, 0));
    let mut phase2 = default_phase();
    phase2.update(&vec![(1, 2)], 20, &colliders_plain, &bodies_plain, &mut hooks);
    assert!(phase2.collisions.get(1, 2).is_none());
}

#[test]
fn body_level_sensor_blocks_constraints() {
    let (colliders, mut bodies) = sphere_world(1_800_000, vec3(0, 0, 0), vec3(0, 0, 0));
    bodies.entries[0].1.as_mut().unwrap().sensor = true;
    let mut phase = default_phase();
    let mut hooks = NoHooks;
    phase.update(&vec![(1, 2)], 20, &colliders, &bodies, &mut hooks);
    assert!(phase.collisions.get(1, 2).is_some());
    let mut constraints = Vec::new();
    let mut wake_ups = Vec::new();
    phase.generate_all_constraints(&colliders, &bodies, softness(), &mut constraints, &mut wake_ups);
    assert!(constraints.is_empty());
}

#[test]
fn collider_without_body_is_a_sensor_pair() {
    // A collider with no owning rigid body: the pair is tracked, flagged
    // as a sensor pair, and the missing body bundle blocks constraints.
    let (mut colliders, bodies) = sphere_world(1_800_000, vec3(0, 0, 0), vec3(0, 0, 0));
    colliders.entries[0].1.body = None;
    let mut phase = default_phase();
    let mut hooks = NoHooks;
    phase.update(&vec![(1, 2)], 20, &colliders, &bodies, &mut hooks);
    let entry = phase.collisions.get(1, 2).expect("tracked");
    assert!(entry.is_sensor);
    let mut constraints = Vec::new();
    let mut wake_ups = Vec::new();
    phase.generate_all_constraints(&colliders, &bodies, softness(), &mut constraints, &mut wake_ups);
    assert!(constraints.is_empty());
}

#[test]
fn degenerate_manifold_produces_no_constraint() {
    let (colliders, bodies) = sphere_world(1_800_000, vec3(0, 0, 0), vec3(0, 0, 0));
    let mut phase = default_phase();
    let mut hooks = NoHooks;
    phase.update(&vec![(1, 2)], 20, &colliders, &bodies, &mut hooks);
    // A post-processing stage empties the manifold's points.
    phase.collisions.entries[0].manifolds[0].points.clear();
    let mut constraints = Vec::new();
    let mut wake_ups = Vec::new();
    phase.generate_all_constraints(&colliders, &bodies, softness(), &mut constraints, &mut wake_ups);
    assert!(constraints.is_empty());
}

#[test]
fn matching_disabled_starts_impulses_at_zero() {
    let (colliders, bodies) = sphere_world(1_800_000, vec3(0, 0, 0), vec3(0, 0, 0));
    let config = NarrowPhaseConfig { match_contacts: false, ..NarrowPhaseConfig::default() };
    let mut phase = NarrowPhase::new(config, 500_000, 0, SCALE);
    let mut hooks = NoHooks;
    phase.update(&vec![(1, 2)], 20, &colliders, &bodies, &mut hooks);

    // The solver accumulates an impulse, but with matching disabled the
    // next collection does not carry it forward.
    phase.collisions.entries[0].manifolds[0].points[0].normal_impulse = 77;
    reset_collision_states(&mut phase.collisions, &bodies);
    phase.update(&vec![(1, 2)], 20, &colliders, &bodies, &mut hooks);
    assert_eq!(phase.collisions.entries[0].manifolds[0].points[0].normal_impulse, 0);
}
