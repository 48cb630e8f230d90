//! Content contract: eras, trails, items, ailments, events and quotes.
//!
//! The rules own these types so that data stays a one-way dependency: loaders
//! build content, and rules never read files.

use vstd::prelude::*;
use crate::weather::{ClimateZone, Terrain};
use crate::tally::Tally;

verus! {

/// Everything a journey needs to know about its world.
#[derive(Debug)]
pub struct GameContent {
    pub eras: Vec<EraDefinition>,
    /// Balance modifiers per era id.
    pub era_rules: Vec<(String, EraRules)>,
    /// Terrain and climate per landmark id.
    pub regions: Vec<(String, Region)>,
    pub trails: Vec<TrailDefinition>,
    pub occupations: Vec<OccupationDefinition>,
    pub items: Vec<ItemDefinition>,
    pub ailments: Vec<AilmentDefinition>,
    pub events: Vec<EventDefinition>,
    pub quotes: Vec<QuoteDefinition>,
    pub letters: Vec<LetterDefinition>,
    pub speakers: Vec<SpeakerDefinition>,
}

/// A sealed letter that may be carried between two supply stops.
#[derive(Debug, Clone, PartialEq, Eq)]
pub struct LetterDefinition {
    pub id: String,
    pub trail_id: String,
    pub origin_id: String,
    pub destination_id: String,
    pub recipient: String,
    pub text: String,
    pub reward_cents: i64,
}

#[derive(Debug, Clone, PartialEq, Eq)]
pub struct EraDefinition {
    pub id: String,
    pub name: String,
    pub year: i32,
}

/// Game-balance modifiers for a selected era, rather than historical price claims.
#[derive(Debug)]
pub struct EraRules {
    pub price_percent: u16,
    pub ferry_fee_percent: u16,
    pub ferries_available: bool,
    pub guide_cost_clothing: u32,
    pub unavailable_stores: Vec<String>,
    pub event_weight_percent: Tally<u16>,
}

impl Default for EraRules {
    fn default() -> (r: Self)
        ensures
            r.price_percent == 100,
            r.ferry_fee_percent == 100,
            r.ferries_available,
            r.guide_cost_clothing == 3,
            r.unavailable_stores@.len() == 0,
            r.event_weight_percent.rows().len() == 0,
    {
        EraRules {
            price_percent: 100,
            ferry_fee_percent: 100,
            ferries_available: true,
            guide_cost_clothing: 3,
            unavailable_stores: Vec::new(),
            event_weight_percent: Tally::new(),
        }
    }
}

/// Terrain and climate of a landmark's surroundings.
#[derive(Debug, Clone, Copy, PartialEq, Eq, Structural)]
pub struct Region {
    pub terrain: Terrain,
    pub climate: ClimateZone,
}

impl Region {
    pub fn plains() -> (r: Self)
        ensures
            r == (Region { terrain: Terrain::Plains, climate: ClimateZone::Temperate }),
    {
        Region { terrain: Terrain::Plains, climate: ClimateZone::Temperate }
    }

    pub fn hills() -> (r: Self)
        ensures
            r == (Region { terrain: Terrain::Hills, climate: ClimateZone::Temperate }),
    {
        Region { terrain: Terrain::Hills, climate: ClimateZone::Temperate }
    }

    pub fn river_valley() -> (r: Self)
        ensures
            r == (Region { terrain: Terrain::RiverValley, climate: ClimateZone::Temperate }),
    {
        Region { terrain: Terrain::RiverValley, climate: ClimateZone::Temperate }
    }

    pub fn forest() -> (r: Self)
        ensures
            r == (Region { terrain: Terrain::Forest, climate: ClimateZone::Pacific }),
    {
        Region { terrain: Terrain::Forest, climate: ClimateZone::Pacific }
    }
}

/// A profession for the party leader. The score multiplier is kept in thousandths.
#[derive(Debug, Clone, PartialEq, Eq)]
pub struct OccupationDefinition {
    pub id: String,
    pub name: String,
    pub starting_cash_cents: i64,
    pub score_multiplier_milli: u32,
    pub perk: String,
}

#[derive(Debug, Clone, PartialEq, Eq)]
pub struct ItemDefinition {
    pub id: String,
    pub name: String,
    pub unit: String,
    pub price_cents: i64,
    pub weight_lbs: u32,
    pub limit: u32,
}

#[derive(Debug, Clone, PartialEq, Eq)]
pub struct AilmentDefinition {
    pub id: String,
    pub name: String,
    pub severity: u8,
    pub daily_damage: u8,
    pub mortality_per_mille: u16,
}

#[derive(Debug, Clone, PartialEq, Eq)]
pub struct QuoteDefinition {
    pub id: String,
    pub text: String,
    pub landmark_id: Option<String>,
    pub seasons: Vec<Season>,
    pub state_tags: Vec<String>,
}

/// A named traveler available for conversation at a specific fort or trading post.
#[derive(Debug, Clone, PartialEq, Eq)]
pub struct SpeakerDefinition {
    pub id: String,
    pub name: String,
    pub landmark_id: String,
    pub greeting: String,
    pub returning_greeting: String,
    /// Sentence describing the small favor offered on a recognized return visit.
    pub favor_text: String,
    /// Pounds of food the favor offers.
    pub favor_food_lbs: u32,
}

/// Pounds of food a speaker's favor offers when content does not say.
pub fn default_favor_food_lbs() -> (r: u32)
    ensures
        r == 15,
{
    15
}

#[derive(Debug, Clone, PartialEq, Eq)]
pub struct TrailDefinition {
    pub id: String,
    pub name: String,
    pub start_node_id: String,
    pub goal_node_id: String,
    pub nodes: Vec<LandmarkDefinition>,
}

#[derive(Debug, Clone, PartialEq, Eq)]
pub struct LandmarkDefinition {
    pub id: String,
    pub name: String,
    pub mile: u32,
    pub kind: LandmarkKind,
    pub routes: Vec<RouteDefinition>,
    pub river: Option<RiverDefinition>,
    pub store: bool,
}

#[derive(Debug, Clone, PartialEq, Eq)]
pub struct RouteDefinition {
    pub id: String,
    pub label: String,
    pub target_id: String,
    pub distance_miles: u32,
}

#[derive(Debug, Clone, Copy, PartialEq, Eq, Structural)]
pub struct RiverDefinition {
    pub width_feet: u32,
    pub depth_feet: u32,
    pub ferry_cost_cents: Option<i64>,
}

#[derive(Debug, Clone, Copy, PartialEq, Eq, Structural)]
pub enum LandmarkKind {
    Town,
    Fort,
    River,
    Landmark,
    Fork,
    Finale,
}

#[derive(Debug, PartialEq, Eq)]
pub struct EventDefinition {
    pub id: String,
    pub text: String,
    pub weight: u32,
    pub conditions: Vec<Condition>,
    pub effects: Vec<Effect>,
    pub choices: Vec<EventChoice>,
}

#[derive(Debug, PartialEq, Eq)]
pub struct EventChoice {
    pub id: String,
    pub label: String,
    pub conditions: Vec<Condition>,
    pub effects: Vec<Effect>,
}

/// A predicate over the journey state that gates events and choices.
#[derive(Debug, PartialEq, Eq)]
pub enum Condition {
    Always,
    All(Vec<Condition>),
    Any(Vec<Condition>),
    Not(Box<Condition>),
    MilesAtLeast(u32),
    FoodBelow(u32),
    DayAtLeast(u32),
    AtLandmark(String),
    HasAilment(String),
    Flag(String),
    Trail(String),
    Era(String),
    Occupation(String),
    Season(Season),
    Weather(WeatherKind),
    InventoryAtLeast { item_id: String, quantity: u32 },
    CashAtLeast(i64),
    MoraleBelow(i16),
    RelationshipAtLeast(i16),
    PartySizeBelow(u8),
    HasAdultPair,
}

/// A change an event or choice makes to the journey.
#[derive(Debug, Clone, PartialEq, Eq)]
pub enum Effect {
    Message(String),
    AdjustFood(i32),
    AdjustItem { item_id: String, quantity: i32 },
    AdjustCash(i64),
    AdjustMorale(i16),
    InflictAilment(String),
    HealAilment(String),
    LoseDays(u32),
    SetFlag(String),
    ClearFlag(String),
    Schedule { event_id: String, days: u32 },
    AdjustRelationship(i16),
    CelebrateWedding,
    MemberLeaves,
    AddMember { name: String, age: u8 },
}

#[derive(Debug, Clone, Copy, PartialEq, Eq, Structural)]
pub enum Season {
    Spring,
    Summer,
    Autumn,
    Winter,
}

#[derive(Debug, Clone, Copy, PartialEq, Eq, Structural)]
pub enum WeatherKind {
    Clear,
    Warm,
    Hot,
    Rain,
    Storm,
    Snow,
    Cold,
}

impl Effect {
    /// A copy of the effect.
    pub fn duplicate(&self) -> (r: Effect)
        ensures
            r == *self,
    {
        match self {
            Effect::Message(x) => Effect::Message(x.clone()),
            Effect::AdjustFood(x) => Effect::AdjustFood(*x),
            Effect::AdjustItem { item_id, quantity } => Effect::AdjustItem {
                item_id: item_id.clone(),
                quantity: *quantity,
            },
            Effect::AdjustCash(x) => Effect::AdjustCash(*x),
            Effect::AdjustMorale(x) => Effect::AdjustMorale(*x),
            Effect::InflictAilment(x) => Effect::InflictAilment(x.clone()),
            Effect::HealAilment(x) => Effect::HealAilment(x.clone()),
            Effect::LoseDays(x) => Effect::LoseDays(*x),
            Effect::SetFlag(x) => Effect::SetFlag(x.clone()),
            Effect::ClearFlag(x) => Effect::ClearFlag(x.clone()),
            Effect::Schedule { event_id, days } => Effect::Schedule {
                event_id: event_id.clone(),
                days: *days,
            },
            Effect::AdjustRelationship(x) => Effect::AdjustRelationship(*x),
            Effect::CelebrateWedding => Effect::CelebrateWedding,
            Effect::MemberLeaves => Effect::MemberLeaves,
            Effect::AddMember { name, age } => Effect::AddMember { name: name.clone(), age: *age },
        }
    }
}


fn text(s: &str) -> (r: String)
    ensures
        r@ == s@,
{
    s.to_owned()
}

fn item(id: &str, name: &str, unit: &str, price_cents: i64, weight_lbs: u32, limit: u32) -> (r: ItemDefinition)
    ensures
        r.id@ == id@,
        r.name@ == name@,
        r.unit@ == unit@,
        r.price_cents == price_cents,
        r.weight_lbs == weight_lbs,
        r.limit == limit,
{
    ItemDefinition { id: text(id), name: text(name), unit: text(unit), price_cents, weight_lbs, limit }
}

impl GameContent {
    /// Content with nothing in it.
    pub fn empty() -> (r: Self)
        ensures
            r.eras@.len() == 0,
            r.era_rules@.len() == 0,
            r.regions@.len() == 0,
            r.trails@.len() == 0,
            r.occupations@.len() == 0,
            r.items@.len() == 0,
            r.ailments@.len() == 0,
            r.events@.len() == 0,
            r.quotes@.len() == 0,
            r.letters@.len() == 0,
            r.speakers@.len() == 0,
    {
        GameContent {
            eras: Vec::new(),
            era_rules: Vec::new(),
            regions: Vec::new(),
            trails: Vec::new(),
            occupations: Vec::new(),
            items: Vec::new(),
            ailments: Vec::new(),
            events: Vec::new(),
            quotes: Vec::new(),
            letters: Vec::new(),
            speakers: Vec::new(),
        }
    }

    /// A complete small journey: one era (1848), one occupation (farmer, $400, triple
    /// score), four store items, and the Oregon trail from Independence straight to the
    /// Willamette Valley, 2,040 miles. The catalogue is sound.
    pub fn starter() -> (r: Self)
        ensures
            r.eras@.len() == 1,
            r.eras@[0].id@ == "1848"@,
            r.eras@[0].name@ == "1848"@,
            r.eras@[0].year == 1848,
            r.occupations@.len() == 1,
            r.occupations@[0].id@ == "farmer"@,
            r.occupations@[0].name@ == "Farmer"@,
            r.occupations@[0].perk@ == "Hardy oxen"@,
            r.occupations@[0].starting_cash_cents == 40_000,
            r.occupations@[0].score_multiplier_milli == 3000,
            r.items@.len() == 4,
            r.items@[0].name@ == "Oxen"@ && r.items@[0].unit@ == "yoke"@,
            r.items@[0].id@ == "oxen"@ && r.items@[0].price_cents == 4_000 && r.items@[0].weight_lbs == 0 && r.items@[0].limit == 9,
            r.items@[1].name@ == "Food"@ && r.items@[1].unit@ == "lb"@,
            r.items@[1].id@ == "food"@ && r.items@[1].price_cents == 20 && r.items@[1].weight_lbs == 1 && r.items@[1].limit == 2_000,
            r.items@[2].name@ == "Clothing"@ && r.items@[2].unit@ == "set"@,
            r.items@[2].id@ == "clothing"@ && r.items@[2].price_cents == 1_000 && r.items@[2].weight_lbs == 2 && r.items@[2].limit == 99,
            r.items@[3].name@ == "Medicine"@ && r.items@[3].unit@ == "kit"@,
            r.items@[3].id@ == "medicine"@ && r.items@[3].price_cents == 1_500 && r.items@[3].weight_lbs == 2 && r.items@[3].limit == 5,
            r.trails@.len() == 1,
            r.trails@[0].id@ == "oregon"@,
            r.trails@[0].name@ == "Oregon Trail"@,
            r.trails@[0].start_node_id@ == "independence"@,
            r.trails@[0].goal_node_id@ == "willamette"@,
            r.trails@[0].nodes@.len() == 2,
            r.trails@[0].nodes@[0].id@ == "independence"@,
            r.trails@[0].nodes@[0].name@ == "Independence"@,
            r.trails@[0].nodes@[0].mile == 0,
            r.trails@[0].nodes@[0].kind == LandmarkKind::Town,
            r.trails@[0].nodes@[0].store,
            r.trails@[0].nodes@[0].river is None,
            r.trails@[0].nodes@[0].routes@.len() == 1,
            r.trails@[0].nodes@[0].routes@[0].id@ == "main"@,
            r.trails@[0].nodes@[0].routes@[0].label@ == "Main trail"@,
            r.trails@[0].nodes@[0].routes@[0].target_id@ == "willamette"@,
            r.trails@[0].nodes@[0].routes@[0].distance_miles == 2_040,
            r.trails@[0].nodes@[1].id@ == "willamette"@,
            r.trails@[0].nodes@[1].name@ == "Willamette Valley"@,
            r.trails@[0].nodes@[1].kind == LandmarkKind::Finale,
            r.trails@[0].nodes@[1].mile == 2_040,
            r.trails@[0].nodes@[1].river is None,
            !r.trails@[0].nodes@[1].store,
            r.trails@[0].nodes@[1].routes@.len() == 0,
            r.era_rules@.len() == 0,
            r.regions@.len() == 0,
            r.ailments@.len() == 0,
            r.events@.len() == 0,
            r.quotes@.len() == 0,
            r.letters@.len() == 0,
            r.speakers@.len() == 0,
            crate::catalog::content_valid(r),
    {
        let mut c = GameContent::empty();
        c.eras.push(EraDefinition { id: text("1848"), name: text("1848"), year: 1848 });
        c.occupations.push(OccupationDefinition {
            id: text("farmer"),
            name: text("Farmer"),
            starting_cash_cents: 40_000,
            score_multiplier_milli: 3000,
            perk: text("Hardy oxen"),
        });
        c.items.push(item("oxen", "Oxen", "yoke", 4_000, 0, 9));
        c.items.push(item("food", "Food", "lb", 20, 1, 2_000));
        c.items.push(item("clothing", "Clothing", "set", 1_000, 2, 99));
        c.items.push(item("medicine", "Medicine", "kit", 1_500, 2, 5));
        let mut routes: Vec<RouteDefinition> = Vec::new();
        routes.push(RouteDefinition {
            id: text("main"),
            label: text("Main trail"),
            target_id: text("willamette"),
            distance_miles: 2_040,
        });
        let mut nodes: Vec<LandmarkDefinition> = Vec::new();
        nodes.push(LandmarkDefinition {
            id: text("independence"),
            name: text("Independence"),
            mile: 0,
            kind: LandmarkKind::Town,
            routes,
            river: None,
            store: true,
        });
        nodes.push(LandmarkDefinition {
            id: text("willamette"),
            name: text("Willamette Valley"),
            mile: 2_040,
            kind: LandmarkKind::Finale,
            routes: Vec::new(),
            river: None,
            store: false,
        });
        c.trails.push(TrailDefinition {
            id: text("oregon"),
            name: text("Oregon Trail"),
            start_node_id: text("independence"),
            goal_node_id: text("willamette"),
            nodes,
        });
        proof { crate::catalog::lemma_starter_sound(c); }
        c
    }
}

} // verus!
