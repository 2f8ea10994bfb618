//! Read-only world data the narrow phase consumes: rigid bodies, collider
//! records, and the stores that map entity handles to them.
//!
//! The stores are association lists from entity handle to record. Lookup
//! returns the first matching entry, so the narrow phase needs no
//! uniqueness assumption on the host-built stores.

use crate::math::{Vec3, SCALAR_LIMIT};
use vstd::prelude::*;

verus! {

/// The kind of a rigid body.
#[derive(Clone, Copy, Debug, PartialEq, Eq, Structural)]
pub enum BodyKind {
    Static,
    Kinematic,
    Dynamic,
}

/// A rigid body as the narrow phase reads it.
#[derive(Clone, Copy, Debug, PartialEq)]
pub struct RigidBody {
    pub kind: BodyKind,
    pub linear_velocity: Vec3,
    pub sleeping: bool,
    pub sensor: bool,
    /// Friction override used when the collider has none.
    pub friction: Option<i64>,
    /// Collision-margin override used when the collider has none.
    pub collision_margin: Option<i64>,
    /// Speculative-margin override used when the collider has none.
    pub speculative_margin: Option<i64>,
}

/// An optional scalar is bounded and nonnegative when present.
pub open spec fn opt_scalar_ok(s: Option<i64>) -> bool {
    match s {
        Some(v) => 0 <= v <= SCALAR_LIMIT,
        None => true,
    }
}

impl RigidBody {
    /// All scalar data is bounded.
    pub open spec fn wf(self) -> bool {
        &&& self.linear_velocity.ok()
        &&& opt_scalar_ok(self.friction)
        &&& opt_scalar_ok(self.collision_margin)
        &&& opt_scalar_ok(self.speculative_margin)
    }

    /// A body takes part in constraint solving only when dynamic.
    pub open spec fn is_dynamic(self) -> bool {
        self.kind == BodyKind::Dynamic
    }

    /// A static body never moves.
    pub open spec fn is_static(self) -> bool {
        self.kind == BodyKind::Static
    }

    /// A body is inactive when it is static or sleeping.
    pub open spec fn is_inactive(self) -> bool {
        self.is_static() || self.sleeping
    }
}

/// A collider record, generic over the concrete shape type.
#[derive(Clone, Debug, PartialEq)]
pub struct ColliderData<C> {
    pub shape: C,
    pub position: Vec3,
    pub rotation: Vec3,
    pub friction: Option<i64>,
    pub restitution: Option<i64>,
    pub collision_margin: Option<i64>,
    pub speculative_margin: Option<i64>,
    pub is_sensor: bool,
    /// The entity of the rigid body this collider belongs to, if any.
    pub body: Option<u64>,
    /// Whether this collider asks for the contact-modification hook.
    pub modify_contacts_hook: bool,
}

impl<C> ColliderData<C> {
    /// All scalar data is bounded.
    pub open spec fn wf(self) -> bool {
        &&& self.position.ok()
        &&& self.rotation.ok()
        &&& opt_scalar_ok(self.friction)
        &&& opt_scalar_ok(self.restitution)
        &&& opt_scalar_ok(self.collision_margin)
        &&& opt_scalar_ok(self.speculative_margin)
    }
}

/// First-match lookup in an association list keyed by entity handle.
pub open spec fn lookup<V>(s: Seq<(u64, V)>, id: u64) -> Option<V>
    decreases s.len(),
{
    if s.len() == 0 {
        None
    } else if s[0].0 == id {
        Some(s[0].1)
    } else {
        lookup(s.drop_first(), id)
    }
}

/// First-match lookup over a vector of entries, returning a reference.
pub fn get_entry<'a, V>(entries: &'a Vec<(u64, V)>, id: u64) -> (r: Option<&'a V>)
    ensures
        match r {
            Some(v) => lookup(entries@, id) == Some(*v),
            None => lookup(entries@, id) is None,
        },
{
    let n = entries.len();
    let mut i: usize = 0;
    proof {
        assert(entries@.skip(0) =~= entries@);
    }
    while i < n
        invariant
            i <= n,
            n == entries@.len(),
            lookup(entries@, id) == lookup(entries@.skip(i as int), id),
        decreases n - i,
    {
        proof {
            assert(entries@.skip(i as int)[0] == entries@[i as int]);
            assert(entries@.skip(i as int).drop_first() =~= entries@.skip(i as int + 1));
        }
        if entries[i].0 == id {
            return Some(&entries[i].1);
        }
        i += 1;
    }
    proof {
        assert(entries@.skip(n as int).len() == 0);
    }
    None
}

/// The world's entities with their optional rigid-body data.
///
/// An entity present in the store exists in the world; a `Some` record means
/// it carries rigid-body data. An entity can exist without a rigid body.
#[derive(Clone, Debug, PartialEq)]
pub struct BodyStore {
    pub entries: Vec<(u64, Option<RigidBody>)>,
}

impl BodyStore {
    /// All stored bodies are bounded.
    pub open spec fn wf(self) -> bool {
        forall|i: int|
            0 <= i < self.entries@.len() ==> match (#[trigger] self.entries@[i]).1 {
                Some(b) => b.wf(),
                None => true,
            }
    }

    /// Whether the entity exists in the world.
    pub open spec fn spec_exists(self, id: u64) -> bool {
        lookup(self.entries@, id) is Some
    }

    /// The rigid-body data of an entity, flattened: `None` when the entity
    /// does not exist or has no rigid body.
    pub open spec fn spec_body(self, id: u64) -> Option<RigidBody> {
        match lookup(self.entries@, id) {
            Some(b) => b,
            None => None,
        }
    }

    /// Looks an entity up; the outer option is existence, the inner one
    /// rigid-body data.
    pub fn get(&self, id: u64) -> (r: Option<&Option<RigidBody>>)
        ensures
            match r {
                Some(b) => self.spec_exists(id) && lookup(self.entries@, id) == Some(*b),
                None => !self.spec_exists(id),
            },
    {
        get_entry(&self.entries, id)
    }

    /// A stored body is well formed.
    pub proof fn lemma_lookup_wf(self, id: u64)
        requires
            self.wf(),
        ensures
            match self.spec_body(id) {
                Some(b) => b.wf(),
                None => true,
            },
    {
        lemma_lookup_in_range(self.entries@, id);
    }
}

/// The colliders of the world, keyed by entity handle.
#[derive(Clone, Debug, PartialEq)]
pub struct ColliderStore<C> {
    pub entries: Vec<(u64, ColliderData<C>)>,
}

impl<C> ColliderStore<C> {
    /// All stored colliders are bounded.
    pub open spec fn wf(self) -> bool {
        forall|i: int|
            0 <= i < self.entries@.len() ==> (#[trigger] self.entries@[i]).1.wf()
    }

    /// The collider of an entity, if it has one.
    pub open spec fn spec_get(self, id: u64) -> Option<ColliderData<C>> {
        lookup(self.entries@, id)
    }

    /// Looks a collider up by entity handle.
    pub fn get(&self, id: u64) -> (r: Option<&ColliderData<C>>)
        ensures
            match r {
                Some(c) => self.spec_get(id) == Some(*c),
                None => self.spec_get(id) is None,
            },
    {
        get_entry(&self.entries, id)
    }

    /// A stored collider is well formed.
    pub proof fn lemma_lookup_wf(self, id: u64)
        requires
            self.wf(),
        ensures
            match self.spec_get(id) {
                Some(c) => c.wf(),
                None => true,
            },
    {
        lemma_lookup_in_range(self.entries@, id);
    }
}

/// Whatever `lookup` returns is one of the stored values.
pub proof fn lemma_lookup_in_range<V>(s: Seq<(u64, V)>, id: u64)
    ensures
        match lookup(s, id) {
            Some(v) => exists|i: int| 0 <= i < s.len() && (#[trigger] s[i]) == (id, v),
            None => true,
        },
    decreases s.len(),
{
    if s.len() > 0 {
        if s[0].0 == id {
            assert(s[0] == (id, s[0].1));
        } else {
            lemma_lookup_in_range(s.drop_first(), id);
            if lookup(s, id) is Some {
                let v = lookup(s, id).unwrap();
                let i = choose|i: int|
                    0 <= i < s.drop_first().len() && (#[trigger] s.drop_first()[i]) == (id, v);
                assert(s[i + 1] == (id, v));
            }
        }
    }
}

} // verus!
