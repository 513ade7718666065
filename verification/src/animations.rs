//! The attack animation transition rule: whether an agent's current
//! attack matches the transition's declared kind.

use vstd::prelude::*;

verus! {

/// The attack kinds an agent can perform; `NoAttack` marks an agent that
/// is not attacking at all.
#[derive(Debug, Clone, Copy, PartialEq, Eq, Structural)]
pub enum AttackType {
    NoAttack,
    Light,
    Heavy,
    Air,
}

/// A transition gated on the attack kind the agent is performing.
#[derive(Debug, Clone, Copy, PartialEq, Eq, Structural)]
pub struct AttackTypeTransition {
    pub attack_type: AttackType,
}

impl AttackTypeTransition {
    /// Whether the animation should transition: it does when the agent
    /// carries no attack component at all, or when its current attack
    /// kind matches the declared one.
    pub fn should_transition(&self, current: Option<&AttackType>) -> (r: bool)
        ensures
            r == match current {
                Some(t) => *t == self.attack_type,
                None => true,
            },
    {
        match current {
            Some(t) => *t == self.attack_type,
            None => true,
        }
    }
}

} // verus!
