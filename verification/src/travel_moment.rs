//! Short pauses between travel days. They read only what a day already decided, so they
//! never touch the journey or its random streams.

use vstd::prelude::*;
use crate::content::WeatherKind;
use crate::weather::Terrain;

verus! {

/// A titled observation shown after a day of travel.
#[derive(Debug, Clone, PartialEq, Eq)]
pub struct TravelMoment {
    pub title: &'static str,
    pub text: &'static str,
    pub wildlife_sprite: Option<&'static str>,
}

/// The label of a kind of weather.
pub open spec fn weather_name(weather: WeatherKind) -> &'static str {
    match weather {
        WeatherKind::Clear => "Clear",
        WeatherKind::Warm => "Warm",
        WeatherKind::Hot => "Hot",
        WeatherKind::Rain => "Rain",
        WeatherKind::Storm => "Storm",
        WeatherKind::Snow => "Snow",
        WeatherKind::Cold => "Cold",
    }
}

/// The label of a kind of weather.
pub fn weather_label(weather: WeatherKind) -> (r: &'static str)
    ensures
        r == weather_name(weather),
{
    match weather {
        WeatherKind::Clear => "Clear",
        WeatherKind::Warm => "Warm",
        WeatherKind::Hot => "Hot",
        WeatherKind::Rain => "Rain",
        WeatherKind::Storm => "Storm",
        WeatherKind::Snow => "Snow",
        WeatherKind::Cold => "Cold",
    }
}

/// The observation a day's weather and terrain call for: wet weather first, then
/// cold, then desert heat, then the timber, then high ground, and otherwise a meadowlark.
pub open spec fn moment_for(weather: WeatherKind, terrain: Terrain) -> TravelMoment {
    if weather == WeatherKind::Rain || weather == WeatherKind::Storm {
        TravelMoment {
            title: "RAIN ON THE CANVAS",
            text: "Rain beads on the wagon cover. The team keeps its patient pace.",
            wildlife_sprite: None,
        }
    } else if weather == WeatherKind::Snow || weather == WeatherKind::Cold {
        TravelMoment {
            title: "COLD MORNING",
            text: "Frost whitens the ruts before the first wheel turns.",
            wildlife_sprite: None,
        }
    } else if weather == WeatherKind::Hot && terrain == Terrain::Desert {
        TravelMoment {
            title: "HEAT SHIMMER",
            text: "The far road wavers in the heat. Your wagon holds its line.",
            wildlife_sprite: None,
        }
    } else if terrain == Terrain::Forest {
        TravelMoment {
            title: "DEER IN THE TIMBER",
            text: "A deer slips between the pines and is gone before anyone speaks.",
            wildlife_sprite: Some("deer_0.px"),
        }
    } else if terrain == Terrain::Mountains || terrain == Terrain::Hills {
        TravelMoment {
            title: "HIGH GROUND",
            text: "Loose stone clicks beneath the wheels. The ridge opens ahead.",
            wildlife_sprite: None,
        }
    } else {
        TravelMoment {
            title: "MEADOWLARK",
            text: "A meadowlark rises from the grass, bright against the open sky.",
            wildlife_sprite: Some("squirrel_0.px"),
        }
    }
}

/// A moment comes at most every four days, and never in the first four.
pub open spec fn moment_due(day: u32, last_moment_day: Option<u32>) -> bool {
    &&& day >= 4
    &&& last_moment_day matches Some(last) ==> day - last >= 4
}

/// The moment, if any, after a travel day. It is worked out from the day alone, never
/// drawn at random, so opening or skipping one cannot change the journey.
pub fn after_travel_day(day: u32, weather: WeatherKind, terrain: Terrain, last_moment_day: Option<u32>) -> (r: Option<TravelMoment>)
    ensures
        r == (if moment_due(day, last_moment_day) { Some(moment_for(weather, terrain)) } else { None }),
{
    let recent = match last_moment_day {
        Some(last) => day.saturating_sub(last) < 4,
        None => false,
    };
    if day < 4 || recent {
        return None;
    }
    let wet = weather == WeatherKind::Rain || weather == WeatherKind::Storm;
    let cold = weather == WeatherKind::Snow || weather == WeatherKind::Cold;
    let moment = if wet {
        TravelMoment {
            title: "RAIN ON THE CANVAS",
            text: "Rain beads on the wagon cover. The team keeps its patient pace.",
            wildlife_sprite: None,
        }
    } else if cold {
        TravelMoment {
            title: "COLD MORNING",
            text: "Frost whitens the ruts before the first wheel turns.",
            wildlife_sprite: None,
        }
    } else if weather == WeatherKind::Hot && terrain == Terrain::Desert {
        TravelMoment {
            title: "HEAT SHIMMER",
            text: "The far road wavers in the heat. Your wagon holds its line.",
            wildlife_sprite: None,
        }
    } else if terrain == Terrain::Forest {
        TravelMoment {
            title: "DEER IN THE TIMBER",
            text: "A deer slips between the pines and is gone before anyone speaks.",
            wildlife_sprite: Some("deer_0.px"),
        }
    } else if terrain == Terrain::Mountains || terrain == Terrain::Hills {
        TravelMoment {
            title: "HIGH GROUND",
            text: "Loose stone clicks beneath the wheels. The ridge opens ahead.",
            wildlife_sprite: None,
        }
    } else {
        TravelMoment {
            title: "MEADOWLARK",
            text: "A meadowlark rises from the grass, bright against the open sky.",
            wildlife_sprite: Some("squirrel_0.px"),
        }
    };
    Some(moment)
}

} // verus!
