//! Configuration for the narrow phase and the solver softness parameters it
//! stamps onto constraints.

use crate::math::SCALAR_LIMIT;
use vstd::prelude::*;

verus! {

/// Configuration options for the narrow phase.
///
/// Distances are raw fixed-point length units, already scaled by the
/// physics length unit.
#[derive(Clone, Copy, Debug, PartialEq)]
pub struct NarrowPhaseConfig {
    /// The default maximum speculative margin, used for colliders and bodies
    /// without an override. `i64::MAX` means unbounded: contacts can be
    /// predicted from any distance if the bodies move fast enough. Zero
    /// disables speculative collision for entities without an override.
    pub default_speculative_margin: i64,
    /// A minimum bound for the speculative margin. A small positive
    /// tolerance keeps steady contacts from being dropped between steps.
    pub contact_tolerance: i64,
    /// Whether new contacts are matched against the previous step's contacts
    /// so the accumulated impulses can warm-start the solver.
    pub match_contacts: bool,
}

impl NarrowPhaseConfig {
    /// The speculative margin is unbounded or a well-formed nonnegative
    /// scalar, and the tolerance is a well-formed nonnegative scalar.
    pub open spec fn wf(self) -> bool {
        &&& self.default_speculative_margin == i64::MAX || 0 <= self.default_speculative_margin
            <= SCALAR_LIMIT
        &&& 0 <= self.contact_tolerance <= SCALAR_LIMIT
    }
}

impl Default for NarrowPhaseConfig {
    /// Unbounded speculative margin, a tolerance of five thousandths of a
    /// world unit, and contact matching enabled.
    fn default() -> (r: NarrowPhaseConfig)
        ensures
            r == (NarrowPhaseConfig {
                default_speculative_margin: i64::MAX,
                contact_tolerance: 5000,
                match_contacts: true,
            }),
            r.wf(),
    {
        NarrowPhaseConfig {
            default_speculative_margin: i64::MAX,
            contact_tolerance: 5000,
            match_contacts: true,
        }
    }
}

/// Softness parameters for one class of contact constraint.
#[derive(Clone, Copy, Debug, PartialEq, Eq, Structural)]
pub struct SoftnessParams {
    pub stiffness: i64,
    pub damping: i64,
}

/// The softness parameters the solver tunes contacts with: one set for
/// contacts between two dynamic bodies, a stiffer set for contacts where one
/// side is static or kinematic.
#[derive(Clone, Copy, Debug, PartialEq, Eq, Structural)]
pub struct ContactSoftnessCoefficients {
    pub dynamic: SoftnessParams,
    pub non_dynamic: SoftnessParams,
}

} // verus!
