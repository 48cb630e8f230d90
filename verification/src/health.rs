//! Party members and the daily toll of their ailments.

use vstd::prelude::*;
use crate::party::{Relationships, Skills, Trait};
use crate::tally::Tally;

verus! {

#[derive(Debug, Clone, Copy, PartialEq, Eq, Structural)]
pub enum Sex {
    Female,
    Male,
}

/// One traveler. Health runs 0..=100; morale 0..=100 for the living.
#[derive(Debug, PartialEq, Eq)]
pub struct PartyMember {
    pub name: String,
    pub health: u8,
    pub morale: i16,
    pub ailments: Vec<String>,
    pub alive: bool,
    pub age: u8,
    pub sex: Sex,
    pub traits: Vec<Trait>,
    pub skills: Skills,
    pub relationships: Relationships,
    pub ailment_days: Tally<u16>,
}

/// Age given to a traveler whose age is not otherwise known.
pub fn default_age() -> (r: u8)
    ensures
        r == 30,
{
    30
}

impl PartyMember {
    /// A healthy, living traveler with neutral morale and no profile yet.
    pub fn new(name: String) -> (r: Self)
        ensures
            r.name == name,
            r.health == 100,
            r.morale == 50,
            r.ailments@.len() == 0,
            r.alive,
            r.age == 30,
            r.sex == Sex::Female,
            r.traits@.len() == 0,
            r.skills == Skills::none(),
            r.relationships.affinity.map() == Map::<Seq<char>, i16>::empty(),
            r.ailment_days.map() == Map::<Seq<char>, u16>::empty(),
    {
        PartyMember {
            name,
            health: 100,
            morale: 50,
            ailments: Vec::new(),
            alive: true,
            age: default_age(),
            sex: Sex::Female,
            traits: Vec::new(),
            skills: Skills::default(),
            relationships: Relationships::default(),
            ailment_days: Tally::new(),
        }
    }
}

/// Applies one day of ailment damage. Returns `true` exactly when this day killed the member.
pub fn advance(member: &mut PartyMember, daily_damage: u8) -> (died: bool)
    ensures
        !old(member).alive ==> *final(member) == *old(member) && !died,
        old(member).alive ==> {
            let h = if old(member).health >= daily_damage { (old(member).health - daily_damage) as u8 } else { 0u8 };
            &&& final(member).health == h
            &&& final(member).alive == (h > 0)
            &&& died == (h == 0)
            &&& final(member).name == old(member).name
            &&& final(member).morale == old(member).morale
            &&& final(member).ailments == old(member).ailments
            &&& final(member).age == old(member).age
            &&& final(member).sex == old(member).sex
            &&& final(member).traits == old(member).traits
            &&& final(member).skills == old(member).skills
            &&& final(member).relationships == old(member).relationships
            &&& final(member).ailment_days == old(member).ailment_days
        },
{
    if !member.alive {
        return false;
    }
    member.health = member.health.saturating_sub(daily_damage);
    if member.health == 0 {
        member.alive = false;
        return true;
    }
    false
}

} // verus!
