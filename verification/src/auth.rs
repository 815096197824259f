//! Actors and capabilities.
//!
//! Authentication itself (sessions, password checks) is an external
//! collaborator; the engine only consumes the resolved identity and role
//! flags of the requesting actor.

use vstd::prelude::*;

verus! {

/// A capability an actor may hold: administrators manage the platform,
/// editors run the publishing workflow.
#[derive(Clone, Copy, Debug, PartialEq, Eq, Structural)]
pub enum Permission {
    Managing,
    Publishing,
}

/// The identity and role flags of the actor issuing an operation.
#[derive(Clone, Copy, Debug, PartialEq, Eq, Structural)]
pub struct Actor {
    pub id: u64,
    pub is_administrator: bool,
    pub is_editor: bool,
}

impl Actor {
    /// Whether this actor holds the given capability.
    pub open spec fn spec_permitted(self, role: Permission) -> bool {
        match role {
            Permission::Managing => self.is_administrator,
            Permission::Publishing => self.is_editor,
        }
    }

    /// Whether this actor holds the given capability.
    pub fn permitted(&self, role: Permission) -> (r: bool)
        ensures
            r == self.spec_permitted(role),
    {
        match role {
            Permission::Managing => self.is_administrator,
            Permission::Publishing => self.is_editor,
        }
    }
}

} // verus!
