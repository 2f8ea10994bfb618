//! The contact matcher: warm starting across frames.
//!
//! New contact points are matched against the previous step's points of the
//! same pair so the solver can reuse accumulated impulses. A point matches
//! by feature identifier first; when no identifier matches, it matches the
//! nearest previous point, provided that point lies within the distance
//! threshold. Matching is best effort: an unmatched point simply starts at
//! zero impulse.

use crate::contact::{ContactManifold, ContactPoint};
use crate::math::{dist_sq_val, scalar_ok, NORM_BOUND, SCALAR_LIMIT, SQRT_HI};
use vstd::prelude::*;

verus! {

/// Whether a previous point matches a new point by feature identifier.
pub open spec fn id_matches(p: ContactPoint, q: ContactPoint) -> bool {
    p.feature_id is Some && q.feature_id == p.feature_id
}

/// The squared anchor distance between a new point and a previous point.
pub open spec fn point_dist(p: ContactPoint, q: ContactPoint) -> int {
    p.anchor1.dist_sq(q.anchor1)
}

/// Whether a previous point lies within the matching threshold.
pub open spec fn near(p: ContactPoint, q: ContactPoint, threshold: int) -> bool {
    point_dist(p, q) <= threshold * threshold
}

/// `j` is the first previous point matching `p` by feature identifier.
pub open spec fn is_first_id(p: ContactPoint, s: Seq<ContactPoint>, j: int) -> bool {
    &&& 0 <= j < s.len()
    &&& id_matches(p, s[j])
    &&& forall|k: int| 0 <= k < j ==> !id_matches(p, #[trigger] s[k])
}

/// Some previous point matches `p` by feature identifier.
pub open spec fn has_id_match(p: ContactPoint, s: Seq<ContactPoint>) -> bool {
    exists|j: int| 0 <= j < s.len() && id_matches(p, #[trigger] s[j])
}

/// The index of the first previous point matching `p` by feature
/// identifier.
pub open spec fn first_id_index(p: ContactPoint, s: Seq<ContactPoint>) -> int {
    choose|j: int| is_first_id(p, s, j)
}

/// `j` is the nearest previous point to `p`, the first such on a tie.
pub open spec fn is_first_min(p: ContactPoint, s: Seq<ContactPoint>, j: int) -> bool {
    &&& 0 <= j < s.len()
    &&& forall|k: int| 0 <= k < s.len() ==> point_dist(p, #[trigger] s[k]) >= point_dist(p, s[j])
    &&& forall|k: int| 0 <= k < j ==> point_dist(p, #[trigger] s[k]) > point_dist(p, s[j])
}

/// The index of the nearest previous point, first on a tie.
pub open spec fn nearest_index(p: ContactPoint, s: Seq<ContactPoint>) -> int {
    choose|j: int| is_first_min(p, s, j)
}

/// Some previous point lies within the matching threshold of `p`.
pub open spec fn has_near(p: ContactPoint, s: Seq<ContactPoint>, threshold: int) -> bool {
    exists|j: int| 0 <= j < s.len() && near(p, #[trigger] s[j], threshold)
}

/// The impulses warm starting assigns to a new point: those of the first
/// feature-identifier match, else those of the nearest previous point
/// within the threshold, else zero.
pub open spec fn warm_impulses(p: ContactPoint, s: Seq<ContactPoint>, threshold: int) -> (
    i64,
    i64,
) {
    if has_id_match(p, s) {
        (s[first_id_index(p, s)].normal_impulse, s[first_id_index(p, s)].tangent_impulse)
    } else if has_near(p, s, threshold) {
        (s[nearest_index(p, s)].normal_impulse, s[nearest_index(p, s)].tangent_impulse)
    } else {
        (0i64, 0i64)
    }
}

/// The first feature-identifier match is unique.
proof fn lemma_first_id_unique(p: ContactPoint, s: Seq<ContactPoint>, a: int, b: int)
    requires
        is_first_id(p, s, a),
        is_first_id(p, s, b),
    ensures
        a == b,
{
}

/// The first nearest index is unique.
proof fn lemma_first_min_unique(p: ContactPoint, s: Seq<ContactPoint>, a: int, b: int)
    requires
        is_first_min(p, s, a),
        is_first_min(p, s, b),
    ensures
        a == b,
{
    if a < b {
        assert(point_dist(p, s[a]) > point_dist(p, s[b]));
        assert(point_dist(p, s[a]) >= point_dist(p, s[b]));
        assert(point_dist(p, s[b]) >= point_dist(p, s[a]));
    }
    if b < a {
        assert(point_dist(p, s[b]) > point_dist(p, s[a]));
        assert(point_dist(p, s[b]) >= point_dist(p, s[a]));
        assert(point_dist(p, s[a]) >= point_dist(p, s[b]));
    }
}

/// A witness for the first feature-identifier match pins the warm-start
/// impulses: the matched point's impulses carry forward.
pub proof fn lemma_warm_start_id_match(p: ContactPoint, s: Seq<ContactPoint>, threshold: int, j: int)
    requires
        is_first_id(p, s, j),
    ensures
        warm_impulses(p, s, threshold) == (s[j].normal_impulse, s[j].tangent_impulse),
{
    assert(has_id_match(p, s));
    lemma_first_id_unique(p, s, first_id_index(p, s), j);
}

/// Warm starting by proximity: when no feature identifier matches and the
/// nearest previous point lies within the distance threshold, its impulses
/// carry forward to the new point.
pub proof fn lemma_warm_start_matched(p: ContactPoint, s: Seq<ContactPoint>, threshold: int, j: int)
    requires
        !has_id_match(p, s),
        is_first_min(p, s, j),
        near(p, s[j], threshold),
    ensures
        warm_impulses(p, s, threshold) == (s[j].normal_impulse, s[j].tangent_impulse),
{
    assert(has_near(p, s, threshold));
    lemma_first_min_unique(p, s, nearest_index(p, s), j);
}

/// Warm starting finds nothing: when no feature identifier matches and
/// every previous point lies beyond the distance threshold, the new point
/// starts at zero impulse.
pub proof fn lemma_warm_start_unmatched(p: ContactPoint, s: Seq<ContactPoint>, threshold: int)
    requires
        !has_id_match(p, s),
        forall|k: int| 0 <= k < s.len() ==> !near(p, #[trigger] s[k], threshold),
    ensures
        warm_impulses(p, s, threshold) == (0i64, 0i64),
{
}

/// Computes the warm-start impulses for one new point from the previous
/// step's points.
pub fn matched_impulses(p: &ContactPoint, prev: &Vec<ContactPoint>, threshold: i64) -> (r: (
    i64,
    i64,
))
    requires
        p.wf(),
        forall|k: int| 0 <= k < prev@.len() ==> (#[trigger] prev@[k]).wf(),
        0 <= threshold <= SCALAR_LIMIT,
    ensures
        r == warm_impulses(*p, prev@, threshold as int),
        scalar_ok(r.0),
        scalar_ok(r.1),
{
    let n = prev.len();
    let mut i: usize = 0;
    while i < n
        invariant
            i <= n,
            n == prev@.len(),
            p.wf(),
            forall|k: int| 0 <= k < prev@.len() ==> (#[trigger] prev@[k]).wf(),
            forall|k: int| 0 <= k < i ==> !id_matches(*p, #[trigger] prev@[k]),
        decreases n - i,
    {
        let hit = match (p.feature_id, prev[i].feature_id) {
            (Some(a), Some(b)) => a == b,
            _ => false,
        };
        if hit {
            proof {
                assert(is_first_id(*p, prev@, i as int));
                lemma_warm_start_id_match(*p, prev@, threshold as int, i as int);
            }
            return (prev[i].normal_impulse, prev[i].tangent_impulse);
        }
        i += 1;
    }
    if n == 0 {
        proof {
            lemma_warm_start_unmatched(*p, prev@, threshold as int);
        }
        return (0, 0);
    }
    let mut best_j: usize = 0;
    let mut best_d: u128 = dist_sq_val(p.anchor1, prev[0].anchor1);
    let mut i: usize = 1;
    while i < n
        invariant
            1 <= i <= n,
            n == prev@.len(),
            best_j < i,
            p.wf(),
            forall|k: int| 0 <= k < prev@.len() ==> (#[trigger] prev@[k]).wf(),
            best_d as int == point_dist(*p, prev@[best_j as int]),
            forall|k: int|
                0 <= k < i ==> point_dist(*p, #[trigger] prev@[k]) >= best_d as int,
            forall|k: int|
                0 <= k < best_j ==> point_dist(*p, #[trigger] prev@[k]) > best_d as int,
        decreases n - i,
    {
        let d = dist_sq_val(p.anchor1, prev[i].anchor1);
        if d < best_d {
            best_j = i;
            best_d = d;
        }
        i += 1;
    }
    let t = threshold as u128;
    proof {
        assert((t as int) * (t as int) < NORM_BOUND) by (nonlinear_arith)
            requires
                0 <= t < SQRT_HI,
                SQRT_HI * SQRT_HI == NORM_BOUND,
        ;
    }
    if best_d <= t * t {
        proof {
            assert(is_first_min(*p, prev@, best_j as int));
            assert(near(*p, prev@[best_j as int], threshold as int));
            assert(!has_id_match(*p, prev@));
            lemma_warm_start_matched(*p, prev@, threshold as int, best_j as int);
        }
        (prev[best_j].normal_impulse, prev[best_j].tangent_impulse)
    } else {
        proof {
            assert(forall|k: int|
                0 <= k < prev@.len() ==> !near(*p, #[trigger] prev@[k], threshold as int));
            assert(!has_id_match(*p, prev@));
            lemma_warm_start_unmatched(*p, prev@, threshold as int);
        }
        (0, 0)
    }
}

/// A point with its accumulated impulses replaced.
pub open spec fn point_with_impulses(p: ContactPoint, imp: (i64, i64)) -> ContactPoint {
    ContactPoint {
        normal_impulse: imp.0,
        tangent_impulse: imp.1,
        ..p
    }
}

/// Existence of a first feature-identifier match, from any match.
proof fn lemma_first_id_exists(p: ContactPoint, s: Seq<ContactPoint>, j: int)
    requires
        0 <= j < s.len(),
        id_matches(p, s[j]),
    ensures
        exists|f: int| is_first_id(p, s, f),
    decreases j,
{
    if forall|k: int| 0 <= k < j ==> !id_matches(p, #[trigger] s[k]) {
        assert(is_first_id(p, s, j));
    } else {
        let k = choose|k: int| 0 <= k < j && id_matches(p, #[trigger] s[k]);
        lemma_first_id_exists(p, s, k);
    }
}

/// `j` is a minimum-distance index among the first `n` previous points.
spec fn prefix_min(p: ContactPoint, s: Seq<ContactPoint>, n: int, j: int) -> bool {
    0 <= j < n && forall|k: int|
        0 <= k < n ==> point_dist(p, #[trigger] s[k]) >= point_dist(p, s[j])
}

/// Existence of a global minimum over the first `n` previous points.
proof fn lemma_global_min_exists(p: ContactPoint, s: Seq<ContactPoint>, n: int)
    requires
        1 <= n <= s.len(),
    ensures
        exists|j: int| #[trigger] prefix_min(p, s, n, j),
    decreases n,
{
    if n == 1 {
        assert(prefix_min(p, s, n, 0));
    } else {
        lemma_global_min_exists(p, s, n - 1);
        let j = choose|j: int| #[trigger] prefix_min(p, s, n - 1, j);
        if point_dist(p, s[n - 1]) < point_dist(p, s[j]) {
            assert(prefix_min(p, s, n, n - 1));
        } else {
            assert(prefix_min(p, s, n, j));
        }
    }
}

/// The warm-start impulses depend only on a point's geometry: two points
/// with the same feature identifier and the same first anchor match the
/// same previous point.
pub proof fn lemma_warm_impulses_same_geometry(
    p: ContactPoint,
    q: ContactPoint,
    s: Seq<ContactPoint>,
    threshold: int,
)
    requires
        p.feature_id == q.feature_id,
        p.anchor1 == q.anchor1,
    ensures
        warm_impulses(p, s, threshold) == warm_impulses(q, s, threshold),
{
    assert forall|j: int| 0 <= j < s.len() implies id_matches(p, #[trigger] s[j]) == id_matches(
        q,
        s[j],
    ) by {}
    assert forall|j: int| 0 <= j < s.len() implies point_dist(p, #[trigger] s[j]) == point_dist(
        q,
        s[j],
    ) by {}
    if has_id_match(p, s) {
        let jw = choose|j: int| 0 <= j < s.len() && id_matches(p, #[trigger] s[j]);
        lemma_first_id_exists(p, s, jw);
        let jp = first_id_index(p, s);
        assert(is_first_id(p, s, jp));
        assert(is_first_id(q, s, jp));
        assert(has_id_match(q, s));
        lemma_first_id_unique(q, s, first_id_index(q, s), jp);
    } else {
        assert(!has_id_match(q, s));
        if has_near(p, s, threshold) {
            let jn = choose|j: int| 0 <= j < s.len() && near(p, #[trigger] s[j], threshold);
            assert(near(q, s[jn], threshold));
            assert(has_near(q, s, threshold));
            lemma_global_min_exists(p, s, s.len() as int);
            let jg = choose|j: int| #[trigger] prefix_min(p, s, s.len() as int, j);
            assert(prefix_min(p, s, s.len() as int, jg));
            lemma_first_min_exists(p, s, jg);
            let jp = nearest_index(p, s);
            assert(is_first_min(p, s, jp));
            assert(is_first_min(q, s, jp));
            lemma_first_min_unique(q, s, nearest_index(q, s), jp);
        } else {
            assert forall|j: int| 0 <= j < s.len() implies !near(q, #[trigger] s[j], threshold) by {
                assert(!near(p, s[j], threshold));
            }
        }
    }
}

/// Existence of a nearest index: `nearest_index` names a real first
/// minimum whenever the previous point list is not empty.
proof fn lemma_first_min_exists(p: ContactPoint, s: Seq<ContactPoint>, j: int)
    requires
        0 <= j < s.len(),
        forall|k: int| 0 <= k < s.len() ==> point_dist(p, #[trigger] s[k]) >= point_dist(p, s[j]),
    ensures
        exists|f: int| is_first_min(p, s, f),
    decreases j,
{
    if forall|k: int| 0 <= k < j ==> point_dist(p, #[trigger] s[k]) > point_dist(p, s[j]) {
        assert(is_first_min(p, s, j));
    } else {
        let k = choose|k: int|
            0 <= k < j && point_dist(p, #[trigger] s[k]) <= point_dist(p, s[j]);
        lemma_first_min_exists(p, s, k);
    }
}

/// All points of the first `n` manifolds, in manifold order: the pool the
/// matcher searches for a pair.
pub open spec fn flattened_points(ms: Seq<ContactManifold>, n: int) -> Seq<ContactPoint>
    decreases n,
{
    if n <= 0 {
        Seq::empty()
    } else {
        flattened_points(ms, n - 1) + ms[n - 1].points@
    }
}

/// `out` is `inp` with the combined coefficients stamped on, the tangent
/// velocity zeroed, and — when `matched` — each point's accumulated
/// impulses replaced by its warm-start impulses against `prevs`; when not
/// matched, the points are untouched.
pub open spec fn assembled_manifold(
    out: ContactManifold,
    inp: ContactManifold,
    friction: i64,
    restitution: i64,
    prevs: Seq<ContactPoint>,
    threshold: int,
    matched: bool,
) -> bool {
    &&& out.normal == inp.normal
    &&& out.friction == friction
    &&& out.restitution == restitution
    &&& out.tangent_velocity == (crate::math::Vec3 { x: 0, y: 0, z: 0 })
    &&& out.points@.len() == inp.points@.len()
    &&& if matched {
        forall|j: int|
            0 <= j < inp.points@.len() ==> #[trigger] out.points@[j] == point_with_impulses(
                inp.points@[j],
                warm_impulses(inp.points@[j], prevs, threshold),
            )
    } else {
        forall|j: int| 0 <= j < inp.points@.len() ==> #[trigger] out.points@[j] == inp.points@[j]
    }
}

/// Warm-starts every manifold of a pair against the previous step's
/// points: each point takes the impulses of its match, or zero.
pub fn warm_start_manifolds(
    manifolds: &mut Vec<ContactManifold>,
    prev_points: &Vec<ContactPoint>,
    threshold: i64,
)
    requires
        forall|i: int| 0 <= i < old(manifolds)@.len() ==> (#[trigger] old(manifolds)@[i]).wf(),
        forall|k: int| 0 <= k < prev_points@.len() ==> (#[trigger] prev_points@[k]).wf(),
        0 <= threshold <= SCALAR_LIMIT,
    ensures
        final(manifolds)@.len() == old(manifolds)@.len(),
        forall|i: int| 0 <= i < final(manifolds)@.len() ==> (#[trigger] final(manifolds)@[i]).wf(),
        forall|i: int|
            0 <= i < old(manifolds)@.len() ==> {
                let m = #[trigger] final(manifolds)@[i];
                let inp = old(manifolds)@[i];
                &&& m.normal == inp.normal
                &&& m.friction == inp.friction
                &&& m.restitution == inp.restitution
                &&& m.tangent_velocity == inp.tangent_velocity
                &&& m.points@.len() == inp.points@.len()
                &&& forall|j: int|
                    0 <= j < inp.points@.len() ==> #[trigger] m.points@[j] == point_with_impulses(
                        inp.points@[j],
                        warm_impulses(inp.points@[j], prev_points@, threshold as int),
                    )
            },
{
    let n = manifolds.len();
    let mut i: usize = 0;
    while i < n
        invariant
            i <= n,
            n == manifolds@.len(),
            old(manifolds)@.len() == n,
            forall|k: int| 0 <= k < prev_points@.len() ==> (#[trigger] prev_points@[k]).wf(),
            0 <= threshold <= SCALAR_LIMIT,
            forall|k: int| 0 <= k < n ==> (#[trigger] manifolds@[k]).wf(),
            forall|k: int| i <= k < n ==> (#[trigger] manifolds@[k]) == old(manifolds)@[k],
            forall|k: int|
                0 <= k < i ==> {
                    let m = #[trigger] manifolds@[k];
                    let inp = old(manifolds)@[k];
                    &&& m.normal == inp.normal
                    &&& m.friction == inp.friction
                    &&& m.restitution == inp.restitution
                    &&& m.tangent_velocity == inp.tangent_velocity
                    &&& m.points@.len() == inp.points@.len()
                    &&& forall|j: int|
                        0 <= j < inp.points@.len() ==> #[trigger] m.points@[j]
                            == point_with_impulses(
                            inp.points@[j],
                            warm_impulses(inp.points@[j], prev_points@, threshold as int),
                        )
                },
        decreases n - i,
    {
        let m = vstd::std_specs::vec::vec_index_mut(manifolds, i);
        match_manifold(m, prev_points, threshold);
        i += 1;
    }
}

/// Matches a new manifold's points against the previous step's points and
/// copies matched impulses; unmatched points start at zero.
///
/// Everything but the accumulated impulses is left unchanged.
pub fn match_manifold(manifold: &mut ContactManifold, prev: &Vec<ContactPoint>, threshold: i64)
    requires
        old(manifold).wf(),
        forall|k: int| 0 <= k < prev@.len() ==> (#[trigger] prev@[k]).wf(),
        0 <= threshold <= SCALAR_LIMIT,
    ensures
        final(manifold).wf(),
        final(manifold).points@.len() == old(manifold).points@.len(),
        final(manifold).normal == old(manifold).normal,
        final(manifold).friction == old(manifold).friction,
        final(manifold).restitution == old(manifold).restitution,
        final(manifold).tangent_velocity == old(manifold).tangent_velocity,
        forall|i: int|
            0 <= i < old(manifold).points@.len() ==> #[trigger] final(manifold).points@[i]
                == point_with_impulses(
                old(manifold).points@[i],
                warm_impulses(old(manifold).points@[i], prev@, threshold as int),
            ),
{
    let n = manifold.points.len();
    let mut updated: Vec<ContactPoint> = Vec::new();
    let mut i: usize = 0;
    while i < n
        invariant
            i <= n,
            n == manifold.points@.len(),
            manifold == old(manifold),
            forall|k: int| 0 <= k < prev@.len() ==> (#[trigger] prev@[k]).wf(),
            0 <= threshold <= SCALAR_LIMIT,
            old(manifold).wf(),
            updated@.len() == i as int,
            forall|k: int|
                0 <= k < i ==> #[trigger] updated@[k] == point_with_impulses(
                    old(manifold).points@[k],
                    warm_impulses(old(manifold).points@[k], prev@, threshold as int),
                ),
            forall|k: int| 0 <= k < i ==> (#[trigger] updated@[k]).wf(),
        decreases n - i,
    {
        let p = manifold.points[i];
        let imp = matched_impulses(&p, prev, threshold);
        let q = ContactPoint {
            normal_impulse: imp.0,
            tangent_impulse: imp.1,
            ..p
        };
        updated.push(q);
        i += 1;
    }
    manifold.points = updated;
}

} // verus!
