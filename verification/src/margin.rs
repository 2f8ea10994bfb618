//! The margin resolver: the effective maximum contact distance for a pair.
//!
//! Each side's speculative margin resolves as collider override, else body
//! override, else the global default (`i64::MAX` meaning unbounded). A
//! finite margin clamps that side's velocity magnitude to `margin / delta`,
//! so that a fast body cannot request an unbounded prediction distance. The
//! effective margin is `delta` times the clamped relative speed, and the
//! final maximum contact distance is the larger of the effective margin and
//! the contact tolerance, plus the pair's collision-margin sum.

use crate::config::NarrowPhaseConfig;
use crate::math::{
    clamp_len, clamped_vec, lemma_dist_sq_symmetric, sqrt_of, vec_len_diff, Vec3, SCALAR_LIMIT,
};
use crate::world::{ColliderData, RigidBody};
use vstd::arithmetic::div_mod::{lemma_div_nonincreasing, lemma_fundamental_div_mod};
use vstd::arithmetic::mul::lemma_mul_inequality;
use vstd::prelude::*;

verus! {

/// Largest number of time ticks allowed in one step.
pub const DELTA_LIMIT: i64 = 1_000_000;

/// Upper bound of an effective speculative margin:
/// `DELTA_LIMIT * 4 * SCALAR_LIMIT`.
pub const EFFECTIVE_MARGIN_BOUND: i64 = 4_000_000_000_000_000_000;

/// A side's collision margin: collider override, else body override, else
/// zero.
pub open spec fn spec_collision_margin(collider: Option<i64>, body: Option<i64>) -> i64 {
    match collider {
        Some(m) => m,
        None => match body {
            Some(m) => m,
            None => 0,
        },
    }
}

/// Resolves a side's collision margin.
pub fn resolve_collision_margin(collider: Option<i64>, body: Option<i64>) -> (r: i64)
    ensures
        r == spec_collision_margin(collider, body),
{
    match collider {
        Some(m) => m,
        None => match body {
            Some(m) => m,
            None => 0,
        },
    }
}

/// A side's maximum speculative margin: collider override, else body
/// override, else the global default.
pub open spec fn spec_speculative_margin(
    collider: Option<i64>,
    body: Option<i64>,
    default: i64,
) -> i64 {
    match collider {
        Some(m) => m,
        None => match body {
            Some(m) => m,
            None => default,
        },
    }
}

/// Resolves a side's maximum speculative margin.
pub fn resolve_speculative_margin(collider: Option<i64>, body: Option<i64>, default: i64) -> (r:
    i64)
    ensures
        r == spec_speculative_margin(collider, body, default),
{
    match collider {
        Some(m) => m,
        None => match body {
            Some(m) => m,
            None => default,
        },
    }
}

/// The velocity cap a finite speculative margin imposes: `margin / delta`,
/// rounded toward zero.
pub open spec fn clamp_cap(margin: i64, delta: i64) -> int {
    (margin as int) / (delta as int)
}

/// A side's velocity after clamping: unchanged when the margin is
/// unbounded, otherwise clamped to length `margin / delta`.
pub open spec fn spec_clamped_velocity(v: Vec3, margin: i64, delta: i64) -> Vec3 {
    if margin == i64::MAX {
        v
    } else {
        clamped_vec(v, clamp_cap(margin, delta))
    }
}

/// The effective speculative margin: `delta` times the length of the
/// clamped relative velocity.
pub open spec fn spec_effective_margin(v1: Vec3, v2: Vec3, m1: i64, m2: i64, delta: i64) -> int {
    (delta as int) * sqrt_of(
        spec_clamped_velocity(v1, m1, delta).dist_sq(spec_clamped_velocity(v2, m2, delta)),
    )
}

/// Clamps one side's velocity to the cap its speculative margin imposes.
fn clamp_velocity(v: Vec3, margin: i64, delta: i64) -> (r: Vec3)
    requires
        v.ok(),
        margin == i64::MAX || 0 <= margin <= SCALAR_LIMIT,
        1 <= delta <= DELTA_LIMIT,
    ensures
        r == spec_clamped_velocity(v, margin, delta),
        r.ok(),
        margin != i64::MAX ==> r.len_spec() <= clamp_cap(margin, delta),
        v == (Vec3 { x: 0, y: 0, z: 0 }) ==> r == v,
{
    if margin == i64::MAX {
        v
    } else {
        proof {
            lemma_div_nonincreasing(margin as int, delta as int);
            vstd::arithmetic::div_mod::lemma_div_pos_is_pos(margin as int, delta as int);
        }
        let cap: i64 = ((margin as u64) / (delta as u64)) as i64;
        let r = clamp_len(v, cap);
        proof {
            if v == (Vec3 { x: 0, y: 0, z: 0 }) {
                lemma_zero_norm(v);
                assert(0 <= (cap as int) * (cap as int)) by (nonlinear_arith);
            }
        }
        r
    }
}

/// Computes the effective speculative margin for a pair.
///
/// The last two conditions are the speculative margin clamp: when a side's
/// margin is finite and the other side does not move, the effective margin
/// cannot exceed that margin, however fast the body moves.
pub fn effective_speculative_margin(v1: Vec3, v2: Vec3, m1: i64, m2: i64, delta: i64) -> (r: i64)
    requires
        v1.ok(),
        v2.ok(),
        m1 == i64::MAX || 0 <= m1 <= SCALAR_LIMIT,
        m2 == i64::MAX || 0 <= m2 <= SCALAR_LIMIT,
        1 <= delta <= DELTA_LIMIT,
    ensures
        r as int == spec_effective_margin(v1, v2, m1, m2, delta),
        0 <= r <= EFFECTIVE_MARGIN_BOUND,
        m1 != i64::MAX && v2 == (Vec3 { x: 0, y: 0, z: 0 }) ==> r <= m1,
        m2 != i64::MAX && v1 == (Vec3 { x: 0, y: 0, z: 0 }) ==> r <= m2,
{
    let c1 = clamp_velocity(v1, m1, delta);
    let c2 = clamp_velocity(v2, m2, delta);
    let l = vec_len_diff(c1, c2);
    proof {
        let li = l as int;
        let d = c1.dist_sq(c2);
        let lim = SCALAR_LIMIT as int;
        lemma_diff_sq_bound(c1, c2);
        assert(li <= 4 * lim) by (nonlinear_arith)
            requires
                li * li <= d,
                d <= 3 * ((2 * lim) * (2 * lim)),
                0 <= li,
                lim == SCALAR_LIMIT as int,
        ;
        assert((delta as int) * li <= EFFECTIVE_MARGIN_BOUND as int) by (nonlinear_arith)
            requires
                0 <= li <= 4 * lim,
                lim == SCALAR_LIMIT as int,
                1 <= delta <= DELTA_LIMIT,
        ;
        assert(0 <= (delta as int) * li) by (nonlinear_arith)
            requires
                0 <= li,
                1 <= delta,
        ;
        if m1 != i64::MAX && v2 == (Vec3 { x: 0, y: 0, z: 0 }) {
            lemma_one_sided_bound(c1, c2, li, m1, delta);
        }
        if m2 != i64::MAX && v1 == (Vec3 { x: 0, y: 0, z: 0 }) {
            lemma_dist_sq_symmetric(c1, c2);
            lemma_one_sided_bound(c2, c1, li, m2, delta);
        }
    }
    delta * (l as i64)
}

/// The zero vector has zero squared norm.
proof fn lemma_zero_norm(v: Vec3)
    requires
        v == (Vec3 { x: 0, y: 0, z: 0 }),
    ensures
        v.norm_sq() == 0,
{
}

/// The squared distance of two well-formed vectors is bounded.
proof fn lemma_diff_sq_bound(a: Vec3, b: Vec3)
    requires
        a.ok(),
        b.ok(),
    ensures
        a.dist_sq(b) <= 3 * ((2 * SCALAR_LIMIT as int) * (2 * SCALAR_LIMIT as int)),
{
    let lim2 = 2 * SCALAR_LIMIT as int;
    crate::math::lemma_sq_bound(a.x - b.x, lim2);
    crate::math::lemma_sq_bound(a.y - b.y, lim2);
    crate::math::lemma_sq_bound(a.z - b.z, lim2);
}

/// When the second side is at rest, the effective margin respects the first
/// side's finite cap.
proof fn lemma_one_sided_bound(c: Vec3, zero_side: Vec3, li: int, margin: i64, delta: i64)
    requires
        zero_side == (Vec3 { x: 0, y: 0, z: 0 }),
        li * li <= c.dist_sq(zero_side) < (li + 1) * (li + 1),
        0 <= li,
        c.len_spec() <= clamp_cap(margin, delta),
        0 <= margin,
        1 <= delta,
    ensures
        (delta as int) * li <= margin,
{
    assert(c.dist_sq(zero_side) == c.norm_sq());
    crate::math::lemma_sqrt_is(c.norm_sq(), li);
    let cap = clamp_cap(margin, delta);
    lemma_mul_inequality(li, cap, delta as int);
    assert(li * (delta as int) == (delta as int) * li) by (nonlinear_arith);
    assert(cap * (delta as int) == (delta as int) * cap) by (nonlinear_arith);
    lemma_fundamental_div_mod(margin as int, delta as int);
    assert((delta as int) * cap <= margin) by {
        assert(margin as int == (delta as int) * cap + (margin as int) % (delta as int));
        assert(0 <= (margin as int) % (delta as int));
    }
}

/// A side's linear velocity: the body's, or zero without a body.
pub open spec fn body_velocity(b: Option<RigidBody>) -> Vec3 {
    match b {
        Some(rb) => rb.linear_velocity,
        None => Vec3 { x: 0, y: 0, z: 0 },
    }
}

/// A body's collision-margin override, absent without a body.
pub open spec fn body_collision_margin_of(b: Option<RigidBody>) -> Option<i64> {
    match b {
        Some(rb) => rb.collision_margin,
        None => None,
    }
}

/// A body's speculative-margin override, absent without a body.
pub open spec fn body_speculative_margin_of(b: Option<RigidBody>) -> Option<i64> {
    match b {
        Some(rb) => rb.speculative_margin,
        None => None,
    }
}

/// An optional borrowed body, copied.
pub open spec fn copied_body(b: Option<&RigidBody>) -> Option<RigidBody> {
    match b {
        Some(rb) => Some(*rb),
        None => None,
    }
}

/// The whole margin resolution for one pair: each side's speculative
/// margin resolves collider override, else body override, else the global
/// default; velocities clamp against the finite margins; the effective
/// margin is floored by the contact tolerance; and the collision-margin
/// sum (collider override, else body override, else zero, per side) is
/// added on top.
pub open spec fn spec_pair_max_distance<C>(
    c1: ColliderData<C>,
    b1: Option<RigidBody>,
    c2: ColliderData<C>,
    b2: Option<RigidBody>,
    config: NarrowPhaseConfig,
    delta: i64,
) -> int {
    spec_max_distance(
        spec_effective_margin(
            body_velocity(b1),
            body_velocity(b2),
            spec_speculative_margin(
                c1.speculative_margin,
                body_speculative_margin_of(b1),
                config.default_speculative_margin,
            ),
            spec_speculative_margin(
                c2.speculative_margin,
                body_speculative_margin_of(b2),
                config.default_speculative_margin,
            ),
            delta,
        ),
        config.contact_tolerance as int,
        spec_collision_margin(c1.collision_margin, body_collision_margin_of(b1)) as int
            + spec_collision_margin(c2.collision_margin, body_collision_margin_of(b2)) as int,
    )
}

/// Computes the maximum contact distance handed to the shape oracle for
/// one pair.
pub fn pair_max_contact_distance<C>(
    collider1: &ColliderData<C>,
    body1: Option<&RigidBody>,
    collider2: &ColliderData<C>,
    body2: Option<&RigidBody>,
    config: &NarrowPhaseConfig,
    delta: i64,
) -> (r: i64)
    requires
        collider1.wf(),
        collider2.wf(),
        match body1 {
            Some(rb) => rb.wf(),
            None => true,
        },
        match body2 {
            Some(rb) => rb.wf(),
            None => true,
        },
        config.wf(),
        1 <= delta <= DELTA_LIMIT,
    ensures
        r as int == spec_pair_max_distance(
            *collider1,
            copied_body(body1),
            *collider2,
            copied_body(body2),
            *config,
            delta,
        ),
        0 <= r,
{
    let lin_vel1 = match body1 {
        Some(rb) => rb.linear_velocity,
        None => Vec3 { x: 0, y: 0, z: 0 },
    };
    let lin_vel2 = match body2 {
        Some(rb) => rb.linear_velocity,
        None => Vec3 { x: 0, y: 0, z: 0 },
    };
    let m1 = resolve_collision_margin(collider1.collision_margin, match body1 {
        Some(rb) => rb.collision_margin,
        None => None,
    });
    let m2 = resolve_collision_margin(collider2.collision_margin, match body2 {
        Some(rb) => rb.collision_margin,
        None => None,
    });
    let margin_sum = m1 + m2;
    let s1 = resolve_speculative_margin(
        collider1.speculative_margin,
        match body1 {
            Some(rb) => rb.speculative_margin,
            None => None,
        },
        config.default_speculative_margin,
    );
    let s2 = resolve_speculative_margin(
        collider2.speculative_margin,
        match body2 {
            Some(rb) => rb.speculative_margin,
            None => None,
        },
        config.default_speculative_margin,
    );
    let eff = effective_speculative_margin(lin_vel1, lin_vel2, s1, s2, delta);
    max_contact_distance(eff, config.contact_tolerance, margin_sum)
}

/// The final maximum contact distance: the larger of the effective margin
/// and the contact tolerance, plus the collision-margin sum.
pub open spec fn spec_max_distance(eff: int, tolerance: int, margin_sum: int) -> int {
    (if eff >= tolerance {
        eff
    } else {
        tolerance
    }) + margin_sum
}

/// Computes the maximum distance at which contacts are detected.
pub fn max_contact_distance(eff: i64, tolerance: i64, margin_sum: i64) -> (r: i64)
    requires
        0 <= eff <= EFFECTIVE_MARGIN_BOUND,
        0 <= tolerance <= SCALAR_LIMIT,
        0 <= margin_sum <= 2 * SCALAR_LIMIT,
    ensures
        r as int == spec_max_distance(eff as int, tolerance as int, margin_sum as int),
        0 <= r,
{
    let base = if eff >= tolerance {
        eff
    } else {
        tolerance
    };
    base + margin_sum
}

} // verus!
