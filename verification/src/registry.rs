//! The collision registry: the canonical, pair-keyed store of contact state
//! that survives across simulation steps.
//!
//! Entries are keyed by the canonical entity pair. Once per step, before
//! collection, [`reset_collision_states`] rewrites the lifecycle flags of
//! every entry; after constraints have been generated and consumers have
//! observed the flags, [`remove_ended_collisions`] evicts the entries whose
//! pair produced no contacts this step. An entry is therefore removed
//! exactly one step after its last step with contacts, never before
//! consumers could observe the transition.

use crate::contact::{canonical_pair, canonicalize, Contacts};
use crate::world::{BodyKind, BodyStore, RigidBody};
use vstd::prelude::*;
use vstd::std_specs::vec::vec_index_mut;

verus! {

/// No two entries share a registry key.
pub open spec fn unique_keys(s: Seq<Contacts>) -> bool {
    forall|i: int, j: int|
        0 <= i < j < s.len() ==> (#[trigger] s[i]).key() != (#[trigger] s[j]).key()
}

/// Some entry has the key `k`.
pub open spec fn has_pair(s: Seq<Contacts>, k: (u64, u64)) -> bool {
    exists|i: int| 0 <= i < s.len() && (#[trigger] s[i]).key() == k
}

/// The index of an entry with key `k`.
pub open spec fn pair_index(s: Seq<Contacts>, k: (u64, u64)) -> int {
    choose|i: int| 0 <= i < s.len() && (#[trigger] s[i]).key() == k
}

/// The entry stored under key `k`, if any.
pub open spec fn entry_for(s: Seq<Contacts>, k: (u64, u64)) -> Option<Contacts> {
    if has_pair(s, k) {
        Some(s[pair_index(s, k)])
    } else {
        None
    }
}

/// The entry `c` occurs somewhere in `s`.
pub open spec fn appears(s: Seq<Contacts>, c: Contacts) -> bool {
    exists|i: int| 0 <= i < s.len() && (#[trigger] s[i]) == c
}

/// An entry at a known index pins down `entry_for` when keys are unique.
pub proof fn lemma_entry_at(s: Seq<Contacts>, k: (u64, u64), i: int)
    requires
        unique_keys(s),
        0 <= i < s.len(),
        s[i].key() == k,
    ensures
        has_pair(s, k),
        entry_for(s, k) == Some(s[i]),
{
    assert(has_pair(s, k));
    let j = pair_index(s, k);
    assert(0 <= j < s.len() && s[j].key() == k);
    if i < j {
        assert(s[i].key() != s[j].key());
    }
    if j < i {
        assert(s[j].key() != s[i].key());
    }
}

/// The canonical, pair-keyed store of current contact state.
#[derive(Debug)]
pub struct CollisionRegistry {
    pub entries: Vec<Contacts>,
}

impl CollisionRegistry {
    /// Keys are canonical and unique, and all entries are bounded.
    pub open spec fn wf(self) -> bool {
        &&& unique_keys(self.entries@)
        &&& forall|i: int| 0 <= i < self.entries@.len() ==> (#[trigger] self.entries@[i]).wf()
    }

    /// The entry stored for the unordered pair `(a, b)`, if any.
    pub open spec fn spec_get(self, a: u64, b: u64) -> Option<Contacts> {
        entry_for(self.entries@, canonical_pair(a, b))
    }

    /// An empty registry.
    pub fn new() -> (r: CollisionRegistry)
        ensures
            r.wf(),
            r.entries@.len() == 0,
    {
        CollisionRegistry { entries: Vec::new() }
    }

    /// The number of live pairs.
    pub fn len(&self) -> (r: usize)
        ensures
            r == self.entries@.len(),
    {
        self.entries.len()
    }

    /// Looks the unordered pair `(a, b)` up. The order of the two handles
    /// does not matter: `(a, b)` and `(b, a)` resolve to the same entry.
    pub fn get(&self, a: u64, b: u64) -> (r: Option<&Contacts>)
        requires
            self.wf(),
        ensures
            match r {
                Some(c) => self.spec_get(a, b) == Some(*c),
                None => self.spec_get(a, b) is None,
            },
    {
        let key = canonicalize(a, b);
        let n = self.entries.len();
        let mut i: usize = 0;
        while i < n
            invariant
                i <= n,
                n == self.entries@.len(),
                self.wf(),
                key == canonical_pair(a, b),
                forall|j: int| 0 <= j < i ==> (#[trigger] self.entries@[j]).key() != key,
            decreases n - i,
        {
            if self.entries[i].entity1 == key.0 && self.entries[i].entity2 == key.1 {
                proof {
                    assert(self.entries@[i as int].key() == (key.0, key.1));
                    assert((key.0, key.1) == key);
                    lemma_entry_at(self.entries@, key, i as int);
                }
                return Some(&self.entries[i]);
            }
            i += 1;
        }
        proof {
            if has_pair(self.entries@, key) {
                let j = pair_index(self.entries@, key);
                assert(0 <= j < self.entries@.len() && self.entries@[j].key() == key);
            }
        }
        None
    }

    /// A stored entry is well formed.
    pub proof fn lemma_entry_wf(self, a: u64, b: u64)
        requires
            self.wf(),
        ensures
            match self.spec_get(a, b) {
                Some(c) => c.wf(),
                None => true,
            },
    {
        let k = canonical_pair(a, b);
        if has_pair(self.entries@, k) {
            let j = pair_index(self.entries@, k);
            assert(0 <= j < self.entries@.len() && self.entries@[j].key() == k);
            assert(self.entries@[j].wf());
        }
    }

    /// Inserts or replaces the entry for the pair of `contacts`.
    ///
    /// Every other pair's entry is left unchanged.
    pub fn insert_collision_pair(&mut self, contacts: Contacts)
        requires
            old(self).wf(),
            contacts.wf(),
        ensures
            final(self).wf(),
            entry_for(final(self).entries@, contacts.key()) == Some(contacts),
            forall|k: (u64, u64)|
                k != contacts.key() ==> #[trigger] entry_for(final(self).entries@, k)
                    == entry_for(old(self).entries@, k),
    {
        let key = (contacts.entity1, contacts.entity2);
        let n = self.entries.len();
        let mut i: usize = 0;
        let ghost s0 = self.entries@;
        let mut found: bool = false;
        while i < n && !found
            invariant
                i <= n,
                n == self.entries@.len(),
                self.entries@ == s0,
                found ==> i < n && s0[i as int].key() == key,
                !found ==> forall|j: int| 0 <= j < i ==> (#[trigger] s0[j]).key() != key,
            decreases n - i + (if found { 0int } else { 1int }),
        {
            if self.entries[i].entity1 == key.0 && self.entries[i].entity2 == key.1 {
                found = true;
            } else {
                i += 1;
            }
        }
        if found {
            self.entries.remove(i);
            proof {
                let s1 = self.entries@;
                assert forall|j: int| 0 <= j < s1.len() implies (#[trigger] s1[j]) == (if j
                    < i as int {
                    s0[j]
                } else {
                    s0[j + 1]
                }) by {}
            }
        }
        let ghost s1 = self.entries@;
        self.entries.push(contacts);
        proof {
            let s2 = self.entries@;
            let ki = contacts.key();
            assert(s2[s2.len() - 1] == contacts);
            // Every element of s1 comes from s0 at an index other than a
            // removed match, so no element of s1 carries the new key.
            assert forall|j: int| 0 <= j < s1.len() implies (#[trigger] s1[j]).key() != ki by {
                if found {
                    if j < i as int {
                        assert(s1[j] == s0[j]);
                        if s0[j].key() == ki {
                            assert(s0[j].key() != s0[i as int].key());
                        }
                    } else {
                        assert(s1[j] == s0[j + 1]);
                        if s0[j + 1].key() == ki {
                            assert(s0[i as int].key() != s0[j + 1].key());
                        }
                    }
                } else {
                    assert(s1[j] == s0[j]);
                }
            }
            // Uniqueness of the new sequence.
            assert forall|a: int, b: int|
                0 <= a < b < s2.len() implies (#[trigger] s2[a]).key() != (#[trigger] s2[
                b]).key() by {
                if b < s2.len() - 1 {
                    if found {
                        let a0 = if a < i as int {
                            a
                        } else {
                            a + 1
                        };
                        let b0 = if b < i as int {
                            b
                        } else {
                            b + 1
                        };
                        assert(s2[a] == s0[a0] && s2[b] == s0[b0]);
                        assert(s0[a0].key() != s0[b0].key());
                    } else {
                        assert(s2[a] == s0[a] && s2[b] == s0[b]);
                    }
                } else {
                    assert(s2[b] == contacts);
                    assert(s2[a] == s1[a]);
                }
            }
            lemma_entry_at(s2, ki, s2.len() - 1);
            // Other keys are untouched.
            assert forall|k: (u64, u64)| k != ki implies #[trigger] entry_for(s2, k)
                == entry_for(s0, k) by {
                if has_pair(s2, k) {
                    let j = pair_index(s2, k);
                    assert(0 <= j < s2.len() && s2[j].key() == k);
                    assert(j < s2.len() - 1);
                    let j0 = if found && j >= i as int {
                        j + 1
                    } else {
                        j
                    };
                    assert(s0[j0] == s2[j]);
                    lemma_entry_at(s0, k, j0);
                    lemma_entry_at(s2, k, j);
                } else {
                    if has_pair(s0, k) {
                        let j0 = pair_index(s0, k);
                        assert(0 <= j0 < s0.len() && s0[j0].key() == k);
                        if found {
                            // The removed index held the new key, not k.
                            assert(j0 != i as int);
                            let j1 = if j0 < i as int {
                                j0
                            } else {
                                j0 - 1
                            };
                            assert(s2[j1] == s0[j0]);
                            assert(has_pair(s2, k));
                        } else {
                            assert(s2[j0] == s0[j0]);
                            assert(has_pair(s2, k));
                        }
                    }
                }
            }
        }
    }
}

/// The entity whose liveness governs side one of an entry: the owning body
/// if there is one, else the collider entity itself.
pub open spec fn anchor_entity1(c: Contacts) -> u64 {
    match c.body_entity1 {
        Some(e) => e,
        None => c.entity1,
    }
}

/// The entity whose liveness governs side two of an entry.
pub open spec fn anchor_entity2(c: Contacts) -> u64 {
    match c.body_entity2 {
        Some(e) => e,
        None => c.entity2,
    }
}

/// Whether an entity's optional rigid body counts as active: an entity
/// without rigid-body data is active; one with data is active unless the
/// body is static or sleeping.
pub open spec fn body_active(b: Option<RigidBody>) -> bool {
    match b {
        Some(rb) => !rb.is_static() && !rb.sleeping,
        None => true,
    }
}

/// The lifecycle flags an entry carries after the pre-collection reset.
///
/// When either governing entity is active, fresh evidence is expected this
/// step: `during_current_frame` drops to `false`. When both exist but are
/// inactive, the contact is presumed to persist unchanged and stays marked
/// current, so no spurious end-of-contact is reported. When a governing
/// entity no longer exists, the entry is left expecting no evidence, which
/// makes it terminal: eviction follows after consumers observe the flags.
pub open spec fn reset_flags(c: Contacts, bodies: BodyStore) -> Contacts {
    let e1 = anchor_entity1(c);
    let e2 = anchor_entity2(c);
    if bodies.spec_exists(e1) && bodies.spec_exists(e2) {
        if body_active(bodies.spec_body(e1)) || body_active(bodies.spec_body(e2)) {
            Contacts { during_previous_frame: true, during_current_frame: false, ..c }
        } else {
            Contacts { during_previous_frame: true, during_current_frame: true, ..c }
        }
    } else {
        Contacts { during_previous_frame: true, during_current_frame: false, ..c }
    }
}

/// Whether an entity's looked-up body record counts as active.
fn body_active_exec(b: &Option<RigidBody>) -> (r: bool)
    ensures
        r == body_active(*b),
{
    match b {
        Some(rb) => !(rb.kind == BodyKind::Static) && !rb.sleeping,
        None => true,
    }
}

/// Resets the lifecycle flags of every registry entry, once per step,
/// before collection.
pub fn reset_collision_states(registry: &mut CollisionRegistry, bodies: &BodyStore)
    requires
        old(registry).wf(),
    ensures
        final(registry).wf(),
        final(registry).entries@.len() == old(registry).entries@.len(),
        forall|i: int|
            0 <= i < old(registry).entries@.len() ==> (#[trigger] final(registry).entries@[i])
                == reset_flags(old(registry).entries@[i], *bodies),
{
    let n = registry.entries.len();
    let mut i: usize = 0;
    while i < n
        invariant
            i <= n,
            n == registry.entries@.len(),
            forall|j: int|
                0 <= j < i ==> (#[trigger] registry.entries@[j]) == reset_flags(
                    old(registry).entries@[j],
                    *bodies,
                ),
            forall|j: int|
                i <= j < n ==> (#[trigger] registry.entries@[j]) == old(registry).entries@[j],
        decreases n - i,
    {
        let e1 = match registry.entries[i].body_entity1 {
            Some(e) => e,
            None => registry.entries[i].entity1,
        };
        let e2 = match registry.entries[i].body_entity2 {
            Some(e) => e,
            None => registry.entries[i].entity2,
        };
        let r1 = bodies.get(e1);
        let r2 = bodies.get(e2);
        let cur: bool = match (r1, r2) {
            (Some(b1), Some(b2)) => {
                let a1 = body_active_exec(b1);
                let a2 = body_active_exec(b2);
                !(a1 || a2)
            },
            _ => false,
        };
        let entry = vec_index_mut(&mut registry.entries, i);
        entry.during_previous_frame = true;
        entry.during_current_frame = cur;
        i += 1;
    }
    proof {
        let s0 = old(registry).entries@;
        let s1 = registry.entries@;
        assert forall|a: int, b: int|
            0 <= a < b < s1.len() implies (#[trigger] s1[a]).key() != (#[trigger] s1[b]).key() by {
            assert(s1[a].key() == s0[a].key());
            assert(s1[b].key() == s0[b].key());
        }
        assert forall|j: int| 0 <= j < s1.len() implies (#[trigger] s1[j]).wf() by {
            assert(s1[j] == reset_flags(s0[j], *bodies));
            assert(s0[j].wf());
        }
    }
}

/// Removes the entries whose pair produced no contacts this step: run once
/// per step, after consumers have observed the lifecycle flags.
pub fn remove_ended_collisions(registry: &mut CollisionRegistry)
    requires
        old(registry).wf(),
    ensures
        final(registry).wf(),
        forall|k: (u64, u64)|
            #[trigger] entry_for(final(registry).entries@, k) == (
            match entry_for(old(registry).entries@, k) {
                Some(c) => if c.during_current_frame {
                    Some(c)
                } else {
                    None
                },
                None => None,
            }),
{
    let ghost s0 = old(registry).entries@;
    let mut i: usize = 0;
    while i < registry.entries.len()
        invariant
            old(registry).wf(),
            i <= registry.entries@.len(),
            forall|j: int|
                0 <= j < i ==> (#[trigger] registry.entries@[j]).during_current_frame,
            forall|j: int|
                0 <= j < registry.entries@.len() ==> appears(s0, #[trigger] registry.entries@[j]),
            forall|i0: int|
                0 <= i0 < s0.len() && (#[trigger] s0[i0]).during_current_frame ==> appears(
                    registry.entries@,
                    s0[i0],
                ),
            unique_keys(registry.entries@),
            forall|j: int| 0 <= j < registry.entries@.len() ==> (#[trigger] registry.entries@[j]).wf(),
        decreases registry.entries@.len() - i,
    {
        if registry.entries[i].during_current_frame {
            i += 1;
        } else {
            let ghost sa = registry.entries@;
            let ghost removed = registry.entries@[i as int];
            self_remove(&mut registry.entries, i);
            proof {
                let sb = registry.entries@;
                assert(!removed.during_current_frame);
                assert forall|j: int| 0 <= j < sb.len() implies appears(s0, #[trigger] sb[j]) by {
                    if j < i as int {
                        assert(sb[j] == sa[j]);
                    } else {
                        assert(sb[j] == sa[j + 1]);
                    }
                }
                assert forall|i0: int|
                    0 <= i0 < s0.len() && (#[trigger] s0[i0]).during_current_frame implies appears(
                    sb,
                    s0[i0],
                ) by {
                    let j = choose|j: int| 0 <= j < sa.len() && (#[trigger] sa[j]) == s0[i0];
                    assert(j != i as int);
                    if j < i as int {
                        assert(sb[j] == s0[i0]);
                    } else {
                        assert(sb[j - 1] == s0[i0]);
                    }
                }
                assert forall|a: int, b: int|
                    0 <= a < b < sb.len() implies (#[trigger] sb[a]).key() != (#[trigger] sb[
                    b]).key() by {
                    let a0 = if a < i as int {
                        a
                    } else {
                        a + 1
                    };
                    let b0 = if b < i as int {
                        b
                    } else {
                        b + 1
                    };
                    assert(sb[a] == sa[a0] && sb[b] == sa[b0]);
                }
            }
        }
    }
    proof {
        let s1 = registry.entries@;
        assert forall|k: (u64, u64)|
            #[trigger] entry_for(s1, k) == (match entry_for(s0, k) {
                Some(c) => if c.during_current_frame {
                    Some(c)
                } else {
                    None
                },
                None => None,
            }) by {
            if has_pair(s1, k) {
                let j = pair_index(s1, k);
                assert(0 <= j < s1.len() && s1[j].key() == k);
                lemma_entry_at(s1, k, j);
                let i0 = choose|i0: int| 0 <= i0 < s0.len() && (#[trigger] s0[i0]) == s1[j];
                lemma_entry_at(s0, k, i0);
                assert(s1[j].during_current_frame);
            } else {
                if has_pair(s0, k) {
                    let i0 = pair_index(s0, k);
                    assert(0 <= i0 < s0.len() && s0[i0].key() == k);
                    lemma_entry_at(s0, k, i0);
                    if s0[i0].during_current_frame {
                        assert(appears(s1, s0[i0]));
                        let j = choose|j: int| 0 <= j < s1.len() && (#[trigger] s1[j]) == s0[i0];
                        assert(s1[j].key() == k);
                        assert(has_pair(s1, k));
                    }
                }
            }
        }
    }
}

/// Looking a pair up is order-insensitive: the unordered pairs `(a, b)`
/// and `(b, a)` resolve to the same registry entry.
pub proof fn lemma_get_symmetric(registry: CollisionRegistry, a: u64, b: u64)
    ensures
        registry.spec_get(a, b) == registry.spec_get(b, a),
{
    crate::contact::lemma_canonical_pair_symmetric(a, b);
}

/// The one-step-delay eviction law.
///
/// Take a registry entry `c0` under key `k` whose pair stops generating
/// manifolds: a governing entity is gone, or a side is active yet the pair
/// is not collected this step. After the pre-collection reset
/// (`s0` to `s1`) and a collection that leaves `k` untouched (`s1` to
/// `s2`), the entry is still present, marked
/// `during_previous_frame == true` and `during_current_frame == false` —
/// observable to consumers for exactly this step — and the post-report
/// eviction (`s2` to `s3`) then removes it.
pub proof fn lemma_lifecycle_one_step_delay(
    s0: Seq<Contacts>,
    s1: Seq<Contacts>,
    s2: Seq<Contacts>,
    s3: Seq<Contacts>,
    bodies: BodyStore,
    k: (u64, u64),
    c0: Contacts,
)
    requires
        unique_keys(s1),
        entry_for(s0, k) == Some(c0),
        s1.len() == s0.len(),
        forall|i: int| 0 <= i < s0.len() ==> (#[trigger] s1[i]) == reset_flags(s0[i], bodies),
        entry_for(s2, k) == entry_for(s1, k),
        !(bodies.spec_exists(anchor_entity1(c0)) && bodies.spec_exists(anchor_entity2(c0)))
            || body_active(bodies.spec_body(anchor_entity1(c0))) || body_active(
            bodies.spec_body(anchor_entity2(c0)),
        ),
        forall|kk: (u64, u64)|
            #[trigger] entry_for(s3, kk) == (match entry_for(s2, kk) {
                Some(c) => if c.during_current_frame {
                    Some(c)
                } else {
                    None
                },
                None => None,
            }),
    ensures
        entry_for(s2, k) == Some(reset_flags(c0, bodies)),
        reset_flags(c0, bodies).during_previous_frame,
        !reset_flags(c0, bodies).during_current_frame,
        entry_for(s3, k) is None,
{
    let i = pair_index(s0, k);
    assert(0 <= i < s0.len() && s0[i].key() == k);
    assert(s0[i] == c0);
    assert(s1[i] == reset_flags(c0, bodies));
    assert(s1[i].key() == k);
    lemma_entry_at(s1, k, i);
    assert(entry_for(s3, k) == (match entry_for(s2, k) {
        Some(c) => if c.during_current_frame {
            Some(c)
        } else {
            None
        },
        None => None,
    }));
}

/// Removes the element at `i`, shifting the tail left.
fn self_remove(entries: &mut Vec<Contacts>, i: usize)
    requires
        i < old(entries)@.len(),
    ensures
        final(entries)@ == old(entries)@.remove(i as int),
        final(entries)@.len() == old(entries)@.len() - 1,
        forall|j: int| 0 <= j < i ==> (#[trigger] final(entries)@[j]) == old(entries)@[j],
        forall|j: int|
            i <= j < final(entries)@.len() ==> (#[trigger] final(entries)@[j]) == old(entries)@[j
                + 1],
{
    entries.remove(i);
}

} // verus!
