//! Contracts for UI-driven minigames: the rules decide when one may start and accept
//! its single result; a front end runs the interactive part from the supplied seed.

use vstd::prelude::*;

verus! {

#[derive(Debug, Clone, Copy, PartialEq, Eq, Structural)]
pub enum MinigameKind {
    Hunt,
    Raft,
}

#[derive(Debug, Clone, Copy, PartialEq, Eq, Structural)]
pub struct MinigameSession {
    pub kind: MinigameKind,
    pub seed: u64,
    /// Ammunition available when the session began. Rafting always has zero.
    pub ammo_available: u32,
}

} // verus!
