//! Component-level tests: margins, matching, the sphere oracle, and the
//! registry.

use narrow_phase::contact::{ContactManifold, ContactPoint, Contacts};
use narrow_phase::margin::{
    effective_speculative_margin, max_contact_distance, resolve_collision_margin,
    resolve_speculative_margin,
};
use narrow_phase::matching::{match_manifold, matched_impulses};
use narrow_phase::math::{clamp_len, isqrt, Vec3, SCALE};
use narrow_phase::registry::CollisionRegistry;
use narrow_phase::shapes::sphere_contact;

fn vec3(x: i64, y: i64, z: i64) -> Vec3 {
    Vec3 { x, y, z }
}

fn point_at(x: i64, feature_id: Option<u64>, normal_impulse: i64, tangent_impulse: i64) -> ContactPoint {
    ContactPoint {
        anchor1: vec3(x, 0, 0),
        anchor2: vec3(0, 0, 0),
        separation: 0,
        normal_impulse,
        tangent_impulse,
        feature_id,
    }
}

#[test]
fn isqrt_rounds_toward_zero() {
    assert_eq!(isqrt(0), 0);
    assert_eq!(isqrt(1), 1);
    assert_eq!(isqrt(2), 1);
    assert_eq!(isqrt(3), 1);
    assert_eq!(isqrt(4), 2);
    assert_eq!(isqrt(99), 9);
    assert_eq!(isqrt(100), 10);
    assert_eq!(isqrt(3_240_000_000_000), 1_800_000);
}

#[test]
fn clamp_len_shortens_long_vectors_only() {
    let v = vec3(30_000, 40_000, 0);
    // Length 50 000: a cap above leaves it unchanged.
    assert_eq!(clamp_len(v, 60_000), v);
    // A cap below scales it down, direction kept.
    let c = clamp_len(v, 25_000);
    assert_eq!(c, vec3(15_000, 20_000, 0));
}

#[test]
fn margin_overrides_resolve_in_order() {
    assert_eq!(resolve_collision_margin(Some(7), Some(9)), 7);
    assert_eq!(resolve_collision_margin(None, Some(9)), 9);
    assert_eq!(resolve_collision_margin(None, None), 0);
    assert_eq!(resolve_speculative_margin(Some(7), Some(9), 11), 7);
    assert_eq!(resolve_speculative_margin(None, Some(9), 11), 9);
    assert_eq!(resolve_speculative_margin(None, None, 11), 11);
}

#[test]
fn effective_margin_is_delta_times_relative_speed() {
    // 50 units/s expressed as raw units per tick, over a 20-tick step.
    let eff = effective_speculative_margin(
        vec3(50_000, 0, 0),
        vec3(0, 0, 0),
        i64::MAX,
        i64::MAX,
        20,
    );
    assert_eq!(eff, 1_000_000);
}

#[test]
fn finite_margin_clamps_fast_bodies() {
    // The margin allows 0.5 units of prediction; the body is fast enough
    // for 1.0. The clamp caps the contribution at the margin.
    let eff = effective_speculative_margin(
        vec3(50_000, 0, 0),
        vec3(0, 0, 0),
        500_000,
        i64::MAX,
        20,
    );
    assert_eq!(eff, 500_000);
    // The same bound holds off axis.
    let eff2 = effective_speculative_margin(
        vec3(30_000, 40_000, 0),
        vec3(0, 0, 0),
        500_000,
        i64::MAX,
        20,
    );
    assert_eq!(eff2, 500_000);
}

#[test]
fn max_distance_is_floored_by_tolerance() {
    assert_eq!(max_contact_distance(0, 5000, 7), 5007);
    assert_eq!(max_contact_distance(9000, 5000, 7), 9007);
}

#[test]
fn matching_prefers_feature_ids() {
    // The id match wins even though another point is nearer.
    let new_point = point_at(0, Some(7), 0, 0);
    let prev = vec![point_at(1, None, 99, 99), point_at(900_000, Some(7), 11, 3)];
    assert_eq!(matched_impulses(&new_point, &prev, 100_000), (11, 3));
}

#[test]
fn matching_takes_nearest_point_within_threshold() {
    let new_point = point_at(0, None, 0, 0);
    let prev = vec![point_at(80_000, None, 5, 6), point_at(50_000, None, 9, 4)];
    assert_eq!(matched_impulses(&new_point, &prev, 100_000), (9, 4));
}

#[test]
fn matching_beyond_threshold_starts_at_zero() {
    let new_point = point_at(0, None, 0, 0);
    let prev = vec![point_at(150_000, None, 9, 4)];
    assert_eq!(matched_impulses(&new_point, &prev, 100_000), (0, 0));
}

#[test]
fn matching_tie_takes_first_previous_point() {
    let new_point = point_at(0, None, 0, 0);
    let prev = vec![point_at(50_000, None, 1, 2), point_at(-50_000, None, 3, 4)];
    assert_eq!(matched_impulses(&new_point, &prev, 100_000), (1, 2));
}

#[test]
fn match_manifold_rewrites_impulses_only() {
    let mut manifold = ContactManifold {
        points: vec![point_at(0, None, 0, 0), point_at(400_000, None, 0, 0)],
        normal: vec3(SCALE, 0, 0),
        friction: 42,
        restitution: 7,
        tangent_velocity: vec3(0, 0, 0),
    };
    let prev = vec![point_at(30_000, None, 8, 9)];
    match_manifold(&mut manifold, &prev, 100_000);
    assert_eq!(manifold.points.len(), 2);
    // The first point is within the threshold and inherits the impulses.
    assert_eq!(manifold.points[0].normal_impulse, 8);
    assert_eq!(manifold.points[0].tangent_impulse, 9);
    // The second is too far and starts at zero.
    assert_eq!(manifold.points[1].normal_impulse, 0);
    // Everything else is untouched.
    assert_eq!(manifold.friction, 42);
    assert_eq!(manifold.restitution, 7);
    assert_eq!(manifold.points[1].anchor1, vec3(400_000, 0, 0));
}

#[test]
fn sphere_oracle_exact_contact_data() {
    // Unit spheres, centers 1.8 apart along x.
    let r = sphere_contact(SCALE, SCALE, vec3(0, 0, 0), vec3(1_800_000, 0, 0), 5000);
    assert_eq!(r.len(), 1);
    let m = &r[0];
    assert_eq!(m.points.len(), 1);
    let p = m.points[0];
    assert_eq!(p.separation, -200_000);
    // Anchors sit on each sphere's surface along the center line.
    assert_eq!(p.anchor1, vec3(1_000_000, 0, 0));
    assert_eq!(p.anchor2, vec3(-1_000_000, 0, 0));
    // The normal is the center direction at unit length.
    assert_eq!(m.normal, vec3(SCALE, 0, 0));
    assert_eq!(p.normal_impulse, 0);
}

#[test]
fn sphere_oracle_respects_max_distance() {
    let near_miss = sphere_contact(SCALE, SCALE, vec3(0, 0, 0), vec3(3_000_000, 0, 0), 5000);
    assert_eq!(near_miss.len(), 0);
    // The same pair is found with a speculative maximum distance.
    let speculative = sphere_contact(SCALE, SCALE, vec3(0, 0, 0), vec3(3_000_000, 0, 0), 1_000_000);
    assert_eq!(speculative.len(), 1);
    assert_eq!(speculative[0].points[0].separation, 1_000_000);
}

#[test]
fn sphere_oracle_off_axis_distance() {
    // Centers 3-4-5: distance 0.5 units, radii 0.2 each.
    let r = sphere_contact(
        200_000,
        200_000,
        vec3(0, 0, 0),
        vec3(300_000, 400_000, 0),
        100_000,
    );
    assert_eq!(r.len(), 1);
    let p = r[0].points[0];
    assert_eq!(p.separation, 100_000);
    // The anchor points along (3, 4, 0) scaled to the radius.
    assert_eq!(p.anchor1, vec3(120_000, 160_000, 0));
}

fn entry(e1: u64, e2: u64, current: bool) -> Contacts {
    Contacts {
        entity1: e1,
        entity2: e2,
        body_entity1: None,
        body_entity2: None,
        manifolds: vec![],
        during_current_frame: current,
        during_previous_frame: false,
        is_sensor: false,
    }
}

#[test]
fn registry_insert_replaces_by_key() {
    let mut reg = CollisionRegistry::new();
    reg.insert_collision_pair(entry(1, 2, false));
    reg.insert_collision_pair(entry(3, 4, true));
    reg.insert_collision_pair(entry(1, 2, true));
    assert_eq!(reg.len(), 2);
    assert!(reg.get(1, 2).unwrap().during_current_frame);
    assert!(reg.get(4, 3).unwrap().during_current_frame);
    assert!(reg.get(1, 3).is_none());
}
