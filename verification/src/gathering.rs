//! The words and scene of a gathering stop: woodland foraging or riverbank fishing.

use vstd::prelude::*;

verus! {

/// What the party gathers at a stop.
#[derive(Debug, Clone, Copy, PartialEq, Eq, Structural)]
pub enum GatheringActivity {
    Forage,
    Fish,
}

/// The heading of the gathering screen.
pub fn heading(activity: GatheringActivity) -> (r: &'static str)
    ensures
        r@ == match activity {
            GatheringActivity::Forage => "WOODLAND FORAGE"@,
            GatheringActivity::Fish => "RIVERBANK FISHING"@,
        },
{
    match activity {
        GatheringActivity::Forage => "WOODLAND FORAGE",
        GatheringActivity::Fish => "RIVERBANK FISHING",
    }
}

/// The art file of the gathering scene.
pub fn scene(activity: GatheringActivity) -> (r: &'static str)
    ensures
        r@ == match activity {
            GatheringActivity::Forage => "gathering_woodland.px"@,
            GatheringActivity::Fish => "gathering_riverbank.px"@,
        },
{
    match activity {
        GatheringActivity::Forage => "gathering_woodland.px",
        GatheringActivity::Fish => "gathering_riverbank.px",
    }
}

/// What the place may yield.
pub fn availability(activity: GatheringActivity) -> (r: &'static str)
    ensures
        r@ == match activity {
            GatheringActivity::Forage => "Berries, roots, and greens may be found here."@,
            GatheringActivity::Fish => "The river may yield fish while you wait."@,
        },
{
    match activity {
        GatheringActivity::Forage => "Berries, roots, and greens may be found here.",
        GatheringActivity::Fish => "The river may yield fish while you wait.",
    }
}

/// The verb that reports what was gathered.
pub fn result_verb(activity: GatheringActivity) -> (r: &'static str)
    ensures
        r@ == match activity {
            GatheringActivity::Forage => "Foraged"@,
            GatheringActivity::Fish => "Caught"@,
        },
{
    match activity {
        GatheringActivity::Forage => "Foraged",
        GatheringActivity::Fish => "Caught",
    }
}

} // verus!
