//! The shape-contact capability and a sphere shape implementing it.
//!
//! The narrow phase does not own exact-geometry algorithms: every collider
//! type provides them through [`AnyCollider`]. The sphere oracle here is a
//! complete implementation for sphere pairs; its contract states the exact
//! contact data it produces.

use crate::contact::{ContactManifold, ContactPoint};
use crate::math::{
    dist_sq_val, isqrt, lemma_diff_component_le, scale_dir_abs, scaled_toward_zero, sqrt_of, Vec3,
    SCALAR_LIMIT, SCALE,
};
use vstd::prelude::*;

verus! {

/// The shape-contact capability every collider type provides: given two
/// shapes and their poses, return the contact manifolds between them, with
/// contacts detected up to `max_distance` apart.
pub trait AnyCollider: Sized {
    /// The shape's own well-formedness: its dimensions are bounded.
    spec fn shape_wf(&self) -> bool;

    /// Computes the contact manifolds between `self` and `other`.
    ///
    /// Rotations are part of the pose; a rotation-invariant shape may
    /// ignore them.
    fn contact_manifolds(
        &self,
        other: &Self,
        pos1: Vec3,
        rot1: Vec3,
        pos2: Vec3,
        rot2: Vec3,
        max_distance: i64,
    ) -> (r: Vec<ContactManifold>)
        requires
            self.shape_wf(),
            other.shape_wf(),
            pos1.ok(),
            rot1.ok(),
            pos2.ok(),
            rot2.ok(),
        ensures
            forall|i: int|
                0 <= i < r@.len() ==> (#[trigger] r@[i]).wf() && r@[i].zero_impulses(),
    ;
}

/// A concrete collider shape.
#[derive(Clone, Copy, Debug, PartialEq, Eq, Structural)]
pub enum Shape {
    /// A sphere of the given radius, in raw length units.
    Sphere { radius: i64 },
}

/// The center distance of a sphere pair, rounded toward zero.
pub open spec fn sphere_distance(p1: Vec3, p2: Vec3) -> int {
    sqrt_of(p1.dist_sq(p2))
}

/// The signed surface separation of a sphere pair: negative when the
/// spheres overlap.
pub open spec fn sphere_separation(r1: i64, r2: i64, p1: Vec3, p2: Vec3) -> int {
    sphere_distance(p1, p2) - r1 - r2
}

/// The direction from `p1` to `p2` scaled to length `num`, rounded toward
/// zero component by component; the x axis when the points coincide.
pub open spec fn scaled_dir(p1: Vec3, p2: Vec3, num: i64) -> Vec3 {
    if p1.dist_sq(p2) == 0 {
        Vec3 { x: num, y: 0, z: 0 }
    } else {
        Vec3 {
            x: scaled_toward_zero(p2.x - p1.x, num as int, sphere_distance(p1, p2)) as i64,
            y: scaled_toward_zero(p2.y - p1.y, num as int, sphere_distance(p1, p2)) as i64,
            z: scaled_toward_zero(p2.z - p1.z, num as int, sphere_distance(p1, p2)) as i64,
        }
    }
}

/// The single contact point of a touching sphere pair: each anchor sits on
/// its sphere's surface along the center line, and the separation is the
/// surface distance.
pub open spec fn spec_sphere_point(r1: i64, r2: i64, p1: Vec3, p2: Vec3) -> ContactPoint {
    ContactPoint {
        anchor1: scaled_dir(p1, p2, r1),
        anchor2: scaled_dir(p2, p1, r2),
        separation: sphere_separation(r1, r2, p1, p2) as i64,
        normal_impulse: 0,
        tangent_impulse: 0,
        feature_id: Some(0),
    }
}

/// The contact normal of a sphere pair: the center direction scaled to one
/// world unit.
pub open spec fn spec_sphere_normal(p1: Vec3, p2: Vec3) -> Vec3 {
    scaled_dir(p1, p2, SCALE)
}

/// Scales the direction from `p1` to `p2` to length `num`.
fn scale_dir(p1: Vec3, p2: Vec3, num: i64) -> (r: Vec3)
    requires
        p1.ok(),
        p2.ok(),
        0 <= num <= SCALAR_LIMIT,
    ensures
        r == scaled_dir(p1, p2, num),
        r.ok(),
{
    let dsq = dist_sq_val(p1, p2);
    if dsq == 0 {
        Vec3 { x: num, y: 0, z: 0 }
    } else {
        proof {
            lemma_diff_component_le(p2, p1);
            crate::math::lemma_dist_sq_symmetric(p1, p2);
        }
        let d = isqrt(dsq);
        proof {
            if d == 0 {
                assert(p1.dist_sq(p2) < 1);
            }
        }
        let dx: i64 = p2.x - p1.x;
        let dy: i64 = p2.y - p1.y;
        let dz: i64 = p2.z - p1.z;
        let xq = scale_dir_abs(abs_diff(dx), num as u64, d);
        let yq = scale_dir_abs(abs_diff(dy), num as u64, d);
        let zq = scale_dir_abs(abs_diff(dz), num as u64, d);
        let r = Vec3 {
            x: signed_from(dx, xq),
            y: signed_from(dy, yq),
            z: signed_from(dz, zq),
        };
        proof {
            assert(r.x as int == scaled_toward_zero(p2.x - p1.x, num as int, sphere_distance(
                p1,
                p2,
            )));
            assert(r.y as int == scaled_toward_zero(p2.y - p1.y, num as int, sphere_distance(
                p1,
                p2,
            )));
            assert(r.z as int == scaled_toward_zero(p2.z - p1.z, num as int, sphere_distance(
                p1,
                p2,
            )));
        }
        r
    }
}

/// The absolute value of a bounded difference, as a `u64`.
fn abs_diff(x: i64) -> (r: u64)
    requires
        -2 * SCALAR_LIMIT <= x <= 2 * SCALAR_LIMIT,
    ensures
        r as int == if x >= 0 {
            x as int
        } else {
            -(x as int)
        },
{
    if x >= 0 {
        x as u64
    } else {
        (-x) as u64
    }
}

/// Reapplies the sign of `x` to the magnitude `q`.
fn signed_from(x: i64, q: u64) -> (r: i64)
    requires
        q <= SCALAR_LIMIT as u64,
    ensures
        r as int == if x >= 0 {
            q as int
        } else {
            -(q as int)
        },
{
    if x >= 0 {
        q as i64
    } else {
        -(q as i64)
    }
}

/// The sphere-against-sphere contact oracle.
///
/// Produces exactly one manifold with one point when the surface
/// separation is at most `max_distance`, and nothing otherwise. Friction,
/// restitution and tangent velocity are left at zero for the caller to
/// stamp.
pub fn sphere_contact(r1: i64, r2: i64, p1: Vec3, p2: Vec3, max_distance: i64) -> (r: Vec<
    ContactManifold,
>)
    requires
        0 <= r1 <= SCALAR_LIMIT,
        0 <= r2 <= SCALAR_LIMIT,
        p1.ok(),
        p2.ok(),
    ensures
        r@.len() == 1 <==> sphere_separation(r1, r2, p1, p2) <= max_distance as int,
        r@.len() <= 1,
        r@.len() == 1 ==> {
            &&& r@[0].points@.len() == 1
            &&& r@[0].points@[0] == spec_sphere_point(r1, r2, p1, p2)
            &&& r@[0].normal == spec_sphere_normal(p1, p2)
            &&& r@[0].friction == 0
            &&& r@[0].restitution == 0
            &&& r@[0].tangent_velocity == (Vec3 { x: 0, y: 0, z: 0 })
            &&& r@[0].wf()
        },
{
    let dsq = dist_sq_val(p1, p2);
    let d = isqrt(dsq);
    proof {
        lemma_diff_component_le(p1, p2);
        lemma_dist_bound(p1, p2);
        let lim = SCALAR_LIMIT as int;
        assert(d as int <= 4 * lim) by (nonlinear_arith)
            requires
                (d as int) * (d as int) <= p1.dist_sq(p2),
                p1.dist_sq(p2) <= 3 * ((2 * lim) * (2 * lim)),
                0 <= d as int,
                lim == SCALAR_LIMIT as int,
        ;
    }
    let dist: i64 = d as i64;
    let sep: i64 = dist - r1 - r2;
    if sep <= max_distance {
        let anchor1 = scale_dir(p1, p2, r1);
        let anchor2 = scale_dir(p2, p1, r2);
        let normal = scale_dir(p1, p2, SCALE);
        let point = ContactPoint {
            anchor1,
            anchor2,
            separation: sep,
            normal_impulse: 0,
            tangent_impulse: 0,
            feature_id: Some(0),
        };
        let mut points: Vec<ContactPoint> = Vec::new();
        points.push(point);
        let manifold = ContactManifold {
            points,
            normal,
            friction: 0,
            restitution: 0,
            tangent_velocity: Vec3 { x: 0, y: 0, z: 0 },
        };
        let mut out: Vec<ContactManifold> = Vec::new();
        out.push(manifold);
        proof {
            assert(out@[0].points@[0] == point);
            assert(point == spec_sphere_point(r1, r2, p1, p2));
            assert(out@[0].wf());
        }
        out
    } else {
        let out: Vec<ContactManifold> = Vec::new();
        out
    }
}

/// The rounded center distance of two bounded points is bounded.
proof fn lemma_dist_bound(p1: Vec3, p2: Vec3)
    requires
        p1.ok(),
        p2.ok(),
    ensures
        p1.dist_sq(p2) <= 3 * ((2 * SCALAR_LIMIT as int) * (2 * SCALAR_LIMIT as int)),
{
    let lim2 = 2 * SCALAR_LIMIT as int;
    crate::math::lemma_sq_bound(p1.x - p2.x, lim2);
    crate::math::lemma_sq_bound(p1.y - p2.y, lim2);
    crate::math::lemma_sq_bound(p1.z - p2.z, lim2);
}

impl AnyCollider for Shape {
    /// A sphere's radius is a bounded nonnegative scalar.
    open spec fn shape_wf(&self) -> bool {
        match *self {
            Shape::Sphere { radius } => 0 <= radius <= SCALAR_LIMIT,
        }
    }

    fn contact_manifolds(
        &self,
        other: &Self,
        pos1: Vec3,
        rot1: Vec3,
        pos2: Vec3,
        rot2: Vec3,
        max_distance: i64,
    ) -> (r: Vec<ContactManifold>) {
        match (self, other) {
            (Shape::Sphere { radius: r1 }, Shape::Sphere { radius: r2 }) => {
                let r = sphere_contact(*r1, *r2, pos1, pos2, max_distance);
                proof {
                    if r@.len() == 1 {
                        assert(r@[0].zero_impulses());
                    }
                }
                r
            },
        }
    }
}

} // verus!
