//! Multi-day weather states and their cost to travel.

use vstd::prelude::*;
use crate::content::{Season, WeatherKind};
use crate::rng::{SimRng, moved_only, advanced, chacha_below_draw, chacha_between_draw};

verus! {

#[derive(Debug, Clone, Copy, PartialEq, Eq, Structural)]
pub enum Terrain {
    Plains,
    Hills,
    Mountains,
    Desert,
    RiverValley,
    Forest,
}

#[derive(Debug, Clone, Copy, PartialEq, Eq, Structural)]
pub enum ClimateZone {
    Temperate,
    Mountain,
    Arid,
    Pacific,
}

/// Current weather, how many more days it lasts, and how much it raises rivers.
#[derive(Debug, Clone, Copy, PartialEq, Eq, Structural)]
pub struct WeatherState {
    pub kind: WeatherKind,
    pub days_remaining: u8,
    pub river_depth_bonus: i8,
}

impl Default for WeatherState {
    fn default() -> (r: Self)
        ensures
            r == (WeatherState { kind: WeatherKind::Clear, days_remaining: 1, river_depth_bonus: 0 }),
    {
        WeatherState { kind: WeatherKind::Clear, days_remaining: 1, river_depth_bonus: 0 }
    }
}

/// The weather that a percentile `roll` produces in a climate and season.
pub open spec fn weather_for(climate: ClimateZone, season: Season, roll: int) -> WeatherKind {
    match climate {
        ClimateZone::Mountain => {
            if (season == Season::Winter && roll < 55) || (season == Season::Spring && roll < 30)
                || (season == Season::Autumn && roll < 25) {
                WeatherKind::Snow
            } else if roll < 55 {
                WeatherKind::Cold
            } else {
                temperate_weather(season, roll)
            }
        },
        ClimateZone::Arid => {
            if season == Season::Summer && roll < 50 {
                WeatherKind::Hot
            } else if (season == Season::Spring || season == Season::Autumn) && roll < 28 {
                WeatherKind::Hot
            } else if roll < 10 {
                WeatherKind::Storm
            } else if roll < 18 {
                WeatherKind::Rain
            } else if roll < 28 {
                WeatherKind::Cold
            } else if roll < 52 {
                WeatherKind::Warm
            } else {
                temperate_weather(season, roll)
            }
        },
        ClimateZone::Pacific => {
            if season == Season::Winter && roll < 20 {
                WeatherKind::Snow
            } else if roll < 26 {
                WeatherKind::Storm
            } else if roll < 60 {
                WeatherKind::Rain
            } else if roll < 70 {
                WeatherKind::Cold
            } else if roll < 85 {
                WeatherKind::Warm
            } else {
                temperate_weather(season, roll)
            }
        },
        ClimateZone::Temperate => temperate_weather(season, roll),
    }
}

/// The weather table shared by every climate once its own rows are exhausted.
pub open spec fn temperate_weather(season: Season, roll: int) -> WeatherKind {
    if season == Season::Winter && roll < 35 {
        WeatherKind::Snow
    } else if season == Season::Summer && roll < 20 {
        WeatherKind::Hot
    } else if roll < 18 {
        WeatherKind::Storm
    } else if roll < 42 {
        WeatherKind::Rain
    } else if roll < 56 {
        WeatherKind::Cold
    } else if roll < 70 {
        WeatherKind::Warm
    } else {
        WeatherKind::Clear
    }
}

/// No climate brings snow in summer or heat in winter; in a temperate winter a roll below
/// 35 brings snow, and in a temperate summer a roll below 20 brings heat.
pub proof fn law_seasons_keep_their_weather(climate: ClimateZone, roll: int)
    ensures
        weather_for(climate, Season::Summer, roll) != WeatherKind::Snow,
        weather_for(climate, Season::Winter, roll) != WeatherKind::Hot,
        roll < 35 ==> weather_for(ClimateZone::Temperate, Season::Winter, roll) == WeatherKind::Snow,
        roll < 20 ==> weather_for(ClimateZone::Temperate, Season::Summer, roll) == WeatherKind::Hot,
        roll >= 35 ==> weather_for(ClimateZone::Temperate, Season::Winter, roll) != WeatherKind::Snow,
        roll >= 20 ==> weather_for(ClimateZone::Temperate, Season::Summer, roll) != WeatherKind::Hot,
{
}

/// The regional rows: mountain winters snow on rolls below 55, Pacific winters below 20,
/// arid summers are hot below 50; a clear day comes only on the highest rolls of the
/// shared table.
pub proof fn law_regions_weather(roll: int)
    ensures
        roll < 55 ==> weather_for(ClimateZone::Mountain, Season::Winter, roll) == WeatherKind::Snow,
        roll < 20 ==> weather_for(ClimateZone::Pacific, Season::Winter, roll) == WeatherKind::Snow,
        roll < 50 ==> weather_for(ClimateZone::Arid, Season::Summer, roll) == WeatherKind::Hot,
        roll >= 70 ==> weather_for(ClimateZone::Temperate, Season::Spring, roll) == WeatherKind::Clear,
        roll < 70 ==> weather_for(ClimateZone::Temperate, Season::Spring, roll) != WeatherKind::Clear,
{
}

/// Storms and snow cost 7 miles, rain and cold 3, heat 2; mountains cost 5, hills and
/// forest 2, desert 3; clear or warm weather on plains or in river valleys costs nothing.
pub proof fn law_weather_and_terrain_penalties(kind: WeatherKind, terrain: Terrain)
    ensures
        penalty(WeatherKind::Storm, Terrain::Plains) == 7,
        penalty(WeatherKind::Snow, Terrain::Plains) == 7,
        penalty(WeatherKind::Rain, Terrain::Plains) == 3,
        penalty(WeatherKind::Cold, Terrain::Plains) == 3,
        penalty(WeatherKind::Hot, Terrain::Plains) == 2,
        penalty(WeatherKind::Clear, Terrain::Mountains) == 5,
        penalty(WeatherKind::Clear, Terrain::Hills) == 2,
        penalty(WeatherKind::Clear, Terrain::Forest) == 2,
        penalty(WeatherKind::Clear, Terrain::Desert) == 3,
        penalty(WeatherKind::Clear, Terrain::Plains) == 0,
        penalty(WeatherKind::Warm, Terrain::RiverValley) == 0,
        penalty(kind, terrain) >= 0,
{
}

/// How much a weather kind raises rivers.
pub open spec fn depth_bonus(kind: WeatherKind) -> i8 {
    match kind {
        WeatherKind::Storm => 2,
        WeatherKind::Rain => 1,
        WeatherKind::Snow => 1,
        _ => 0,
    }
}

/// Miles a day loses to weather and terrain.
pub open spec fn penalty(kind: WeatherKind, terrain: Terrain) -> int {
    (match kind {
        WeatherKind::Storm | WeatherKind::Snow => 7int,
        WeatherKind::Rain | WeatherKind::Cold => 3,
        WeatherKind::Hot => 2,
        _ => 0,
    }) + (match terrain {
        Terrain::Mountains => 5int,
        Terrain::Hills | Terrain::Forest => 2,
        Terrain::Desert => 3,
        _ => 0,
    })
}

fn temperate_roll(season: Season, roll: u32) -> (r: WeatherKind)
    ensures
        r == temperate_weather(season, roll as int),
{
    if season == Season::Winter && roll < 35 {
        WeatherKind::Snow
    } else if season == Season::Summer && roll < 20 {
        WeatherKind::Hot
    } else if roll < 18 {
        WeatherKind::Storm
    } else if roll < 42 {
        WeatherKind::Rain
    } else if roll < 56 {
        WeatherKind::Cold
    } else if roll < 70 {
        WeatherKind::Warm
    } else {
        WeatherKind::Clear
    }
}

/// The weather a percentile roll produces in a climate and season.
pub fn weather_for_roll(climate: ClimateZone, season: Season, roll: u32) -> (r: WeatherKind)
    ensures
        r == weather_for(climate, season, roll as int),
{
    match climate {
        ClimateZone::Mountain => {
            if (season == Season::Winter && roll < 55) || (season == Season::Spring && roll < 30)
                || (season == Season::Autumn && roll < 25) {
                WeatherKind::Snow
            } else if roll < 55 {
                WeatherKind::Cold
            } else {
                temperate_roll(season, roll)
            }
        },
        ClimateZone::Arid => {
            if season == Season::Summer && roll < 50 {
                WeatherKind::Hot
            } else if (season == Season::Spring || season == Season::Autumn) && roll < 28 {
                WeatherKind::Hot
            } else if roll < 10 {
                WeatherKind::Storm
            } else if roll < 18 {
                WeatherKind::Rain
            } else if roll < 28 {
                WeatherKind::Cold
            } else if roll < 52 {
                WeatherKind::Warm
            } else {
                temperate_roll(season, roll)
            }
        },
        ClimateZone::Pacific => {
            if season == Season::Winter && roll < 20 {
                WeatherKind::Snow
            } else if roll < 26 {
                WeatherKind::Storm
            } else if roll < 60 {
                WeatherKind::Rain
            } else if roll < 70 {
                WeatherKind::Cold
            } else if roll < 85 {
                WeatherKind::Warm
            } else {
                temperate_roll(season, roll)
            }
        },
        ClimateZone::Temperate => temperate_roll(season, roll),
    }
}

impl WeatherState {
    /// Advances temperate weather by one day.
    pub fn advance(&mut self, rng: &mut SimRng, season: Season)
        requires
            old(rng).wf(),
        ensures
            final(rng).wf(),
            final(rng).master() == old(rng).master(),
            old(self).days_remaining > 1 ==> *final(self) == (WeatherState {
                days_remaining: (old(self).days_remaining - 1) as u8,
                ..*old(self)
            }),
            old(self).days_remaining <= 1 ==> final(self).rolled(ClimateZone::Temperate, season),
            old(self).days_remaining > 1 ==> *final(rng) == *old(rng),
            old(self).days_remaining <= 1 ==> *final(self) == WeatherState::drawn(ClimateZone::Temperate, season, old(rng).position("weather"@)).0
                && moved_only(*old(rng), *final(rng), "weather"@, WeatherState::drawn(ClimateZone::Temperate, season, old(rng).position("weather"@)).1),
    {
        self.advance_in(rng, season, ClimateZone::Temperate);
    }

    /// A freshly rolled state: a kind from the climate's table, one to five days, and
    /// the matching river rise.
    pub open spec fn rolled(self, climate: ClimateZone, season: Season) -> bool {
        &&& exists|roll: int| 0 <= roll < 100 && self.kind == weather_for(climate, season, roll)
        &&& 1 <= self.days_remaining <= 5
        &&& self.river_depth_bonus == depth_bonus(self.kind)
    }

    /// The weather state rolled from the "weather" stream at position `p` in a climate
    /// and season: a percentile for the kind, then one to five days; and the position
    /// after both draws.
    pub open spec fn drawn(climate: ClimateZone, season: Season, p: (Seq<u8>, u64, u128)) -> (WeatherState, (Seq<u8>, u64, u128)) {
        let k = chacha_below_draw(p.0, p.1, p.2, 100);
        let p1 = advanced(p, k.1);
        let d = chacha_between_draw(p1.0, p1.1, p1.2, 1i16, 6i16);
        let kind = weather_for(climate, season, k.0 as int);
        (WeatherState { kind, days_remaining: d.0 as u8, river_depth_bonus: depth_bonus(kind) }, advanced(p1, d.1))
    }

    /// Advances weather by one day in a regional climate. A weather state lasts one to
    /// five days; only when it runs out is a new one rolled.
    pub fn advance_in(&mut self, rng: &mut SimRng, season: Season, climate: ClimateZone)
        requires
            old(rng).wf(),
        ensures
            final(rng).wf(),
            final(rng).master() == old(rng).master(),
            old(self).days_remaining > 1 ==> *final(self) == (WeatherState {
                days_remaining: (old(self).days_remaining - 1) as u8,
                ..*old(self)
            }),
            old(self).days_remaining > 1 ==> *final(rng) == *old(rng),
            old(self).days_remaining <= 1 ==> final(self).rolled(climate, season),
            old(self).days_remaining <= 1 ==> *final(self) == WeatherState::drawn(climate, season, old(rng).position("weather"@)).0
                && moved_only(*old(rng), *final(rng), "weather"@, WeatherState::drawn(climate, season, old(rng).position("weather"@)).1),
    {
        if self.days_remaining > 1 {
            self.days_remaining = self.days_remaining - 1;
            return;
        }
        let roll = rng.roll("weather", 100);
        self.kind = weather_for_roll(climate, season, roll);
        let days = rng.roll_between("weather", 1, 6);
        self.days_remaining = days as u8;
        self.river_depth_bonus = match self.kind {
            WeatherKind::Storm => 2,
            WeatherKind::Rain => 1,
            WeatherKind::Snow => 1,
            _ => 0,
        };
        assert(0 <= roll < 100 && self.kind == weather_for(climate, season, roll as int));
    }

    /// Miles a day loses to this weather on `terrain`.
    pub fn travel_penalty(self, terrain: Terrain) -> (r: u32)
        ensures
            r == penalty(self.kind, terrain),
    {
        let weather: u32 = match self.kind {
            WeatherKind::Storm | WeatherKind::Snow => 7,
            WeatherKind::Rain | WeatherKind::Cold => 3,
            WeatherKind::Hot => 2,
            _ => 0,
        };
        weather + match terrain {
            Terrain::Mountains => 5,
            Terrain::Hills | Terrain::Forest => 2,
            Terrain::Desert => 3,
            _ => 0,
        }
    }
}

} // verus!
