//! Durable family milestones that survive saves and replay deterministically.

use vstd::prelude::*;

verus! {

#[derive(Debug, Clone, PartialEq, Eq)]
pub struct FamilyState {
    pub pregnancies: Vec<Pregnancy>,
    pub marriages: Vec<(String, String)>,
}

impl Default for FamilyState {
    fn default() -> (r: Self)
        ensures
            r.pregnancies@.len() == 0,
            r.marriages@.len() == 0,
    {
        FamilyState { pregnancies: Vec::new(), marriages: Vec::new() }
    }
}

#[derive(Debug, Clone, PartialEq, Eq)]
pub struct Pregnancy {
    pub mother: String,
    pub due_day: u32,
}

} // verus!
