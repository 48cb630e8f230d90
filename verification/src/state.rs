//! Command-driven, deterministic journey state.
//!
//! A front end drives the journey only through [`GameState::apply`]: every command
//! either changes the state and reports outcomes, or is rejected and changes nothing.

use vstd::prelude::*;
use crate::calendar::CalendarDate;
use crate::content::{GameContent, TrailDefinition, LandmarkDefinition, ItemDefinition, EraDefinition,
    OccupationDefinition, AilmentDefinition, EventDefinition, RouteDefinition, EventChoice, WeatherKind,
    Season, LandmarkKind, Condition, Effect, QuoteDefinition};
use crate::economy::Market;
use crate::health::{advance, PartyMember};
use crate::lookup::{find_first, lemma_first_is, lemma_first_none, lemma_first_facts};
use crate::rng::{SimRng, moved_only, advanced, chacha_below_draw};
use crate::tally::Tally;
use crate::text::same;
use crate::weather::{Terrain, WeatherState};

verus! {

#[derive(Debug, Clone, Copy, PartialEq, Eq, Structural)]
pub enum Pace {
    Steady,
    Strenuous,
    Grueling,
}

#[derive(Debug, Clone, Copy, PartialEq, Eq, Structural)]
pub enum RationLevel {
    Filling,
    Meager,
    BareBones,
}

#[derive(Debug, Clone, Copy, PartialEq, Eq, Structural)]
pub enum CrossMethod {
    Ford,
    Caulk,
    Ferry,
    Wait,
    Guide,
}

/// Where the journey stands.
#[derive(Debug, Clone, PartialEq, Eq)]
pub enum RunStatus {
    Setup,
    Outfitting,
    Travelling,
    AtLandmark(String),
    AwaitingFork(String),
    AwaitingRiver(String),
    Arrived,
    Failed,
}

#[derive(Debug, Clone, Copy, PartialEq, Eq, Structural)]
pub enum Difficulty {
    Easy,
    Normal,
    Hard,
}

impl Default for Difficulty {
    fn default() -> (r: Self)
        ensures
            r == Difficulty::Normal,
    {
        Difficulty::Normal
    }
}

/// Supplies carried, by item id.
#[derive(Debug, PartialEq, Eq)]
pub struct Inventory {
    pub quantities: Tally<u32>,
}

/// How many of `id` an inventory holds; zero when the item is absent.
pub open spec fn held(inv: Inventory, id: Seq<char>) -> u32 {
    if inv.quantities.map().dom().contains(id) { inv.quantities.map()[id] } else { 0 }
}

impl Inventory {
    /// An empty inventory.
    pub fn new() -> (r: Self)
        ensures
            r.quantities.map() == Map::<Seq<char>, u32>::empty(),
    {
        Inventory { quantities: Tally::new() }
    }

    /// How many of `id` are carried.
    pub fn get(&self, id: &str) -> (r: u32)
        ensures
            r == held(*self, id@),
    {
        match self.quantities.get(id) {
            Some(n) => n,
            None => 0,
        }
    }

    /// Adds `n` of `id`, saturating at the largest count.
    pub fn add(&mut self, id: &str, n: u32)
        ensures
            final(self).quantities.map() == old(self).quantities.map().insert(id@,
                if held(*old(self), id@) as int + n as int > u32::MAX { u32::MAX } else { (held(*old(self), id@) + n) as u32 }),
    {
        let have = self.get(id);
        self.quantities.set(id, have.saturating_add(n));
    }

    /// Removes exactly `n` of `id` when that many are carried; otherwise changes nothing.
    pub fn remove(&mut self, id: &str, n: u32) -> (r: bool)
        ensures
            r == (held(*old(self), id@) >= n),
            r ==> final(self).quantities.map() == old(self).quantities.map().insert(id@, (held(*old(self), id@) - n) as u32),
            !r ==> *final(self) == *old(self),
    {
        let h = self.get(id);
        if h < n {
            return false;
        }
        self.quantities.set(id, h - n);
        true
    }

    /// Removes up to `n` of `id` and returns how many were removed.
    pub fn take(&mut self, id: &str, n: u32) -> (r: u32)
        ensures
            r == if held(*old(self), id@) < n { held(*old(self), id@) } else { n },
            final(self).quantities.map() == old(self).quantities.map().insert(id@, (held(*old(self), id@) - r) as u32),
    {
        let have = self.get(id);
        let taken = if have < n { have } else { n };
        self.quantities.set(id, have - taken);
        taken
    }

    /// A copy with the same quantities.
    pub fn duplicate(&self) -> (r: Self)
        ensures
            r.quantities.map() == self.quantities.map(),
    {
        Inventory { quantities: self.quantities.duplicate() }
    }
}

/// An event due on a later day.
#[derive(Debug, Clone, PartialEq, Eq)]
pub struct PendingEvent {
    pub event_id: String,
    pub due_day: u32,
}

/// The complete state of one journey.
#[derive(Debug)]
pub struct GameState {
    pub rng: SimRng,
    pub content: GameContent,
    pub status: RunStatus,
    pub miles: u32,
    pub day: u32,
    pub departure_month: u8,
    pub era_id: Option<String>,
    pub trail_id: Option<String>,
    pub occupation_id: Option<String>,
    pub party: Vec<PartyMember>,
    pub cash_cents: i64,
    pub inventory: Inventory,
    pub pace: Pace,
    pub rations: RationLevel,
    pub weather: WeatherKind,
    pub current_node_id: Option<String>,
    /// Destination selected from the current node's route; never inferred from absolute miles.
    pub target_node_id: Option<String>,
    pub route_miles_remaining: u32,
    pub pending_event: Option<String>,
    pub scheduled_events: Vec<PendingEvent>,
    pub flags: Vec<String>,
    pub weather_state: WeatherState,
    pub difficulty: Difficulty,
    pub ox_fatigue: u8,
    pub reputation: i16,
    pub markets: Vec<(String, Market)>,
}

/// A request from the player.
#[derive(Debug, Clone, PartialEq, Eq)]
pub enum Command {
    SetDifficulty(Difficulty),
    Configure {
        trail_id: String,
        era_id: String,
        occupation_id: String,
        party: Vec<String>,
        departure_month: u8,
    },
    Buy { item_id: String, quantity: u32 },
    Depart,
    Continue,
    TravelDay,
    SetPace(Pace),
    SetRations(RationLevel),
    Rest { days: u32 },
    ChooseRoute { route_id: String },
    CrossRiver { method: CrossMethod },
    Respond { event_id: String, choice_id: String },
    Talk,
    Treat { member_index: usize, ailment_id: String },
    HuntResult { food_lbs: u32, ammo_boxes_used: u32 },
    RaftResult { cargo_lost_lbs: u32, casualties: u8 },
}

/// Something that happened while a command ran.
#[derive(Debug, Clone, PartialEq, Eq)]
pub enum Outcome {
    Configured,
    Purchased { item_id: String, quantity: u32, cost_cents: i64 },
    Departed,
    DayAdvanced { day: u32, miles: u32, weather: WeatherKind },
    ArrivedAt { landmark_id: String },
    ForkAvailable { landmark_id: String },
    RiverCrossingRequired { landmark_id: String },
    Event { event_id: String, text: String },
    Quote { quote_id: String, text: String },
    Treated { member_index: usize, ailment_id: String },
    Score { points: u32 },
    MemberDied { name: String },
    Message(String),
    Rejected(CommandError),
}

/// Why a command was rejected.
#[derive(Debug, Clone, PartialEq, Eq)]
pub enum CommandError {
    InvalidPhase,
    UnknownId(String),
    InvalidSetup,
    InsufficientCash,
    CapacityExceeded,
    NoPendingEvent,
    InvalidChoice,
}

/// The message a rejection reads as.
pub open spec fn error_text(e: CommandError) -> Seq<char> {
    match e {
        CommandError::InvalidPhase => "command is not available now"@,
        CommandError::UnknownId(id) => "unknown content id: "@ + id@,
        CommandError::InvalidSetup => "invalid setup"@,
        CommandError::InsufficientCash => "insufficient cash"@,
        CommandError::CapacityExceeded => "purchase exceeds limit or wagon capacity"@,
        CommandError::NoPendingEvent => "no such pending event"@,
        CommandError::InvalidChoice => "choice is unavailable"@,
    }
}

impl CommandError {
    /// The message this rejection reads as.
    pub fn message(&self) -> (r: String)
        ensures
            r@ == error_text(*self),
    {
        match self {
            CommandError::InvalidPhase => "command is not available now".to_owned(),
            CommandError::UnknownId(id) => {
                let mut s = "unknown content id: ".to_owned();
                vstd::string::StringExecFns::append(&mut s, id.as_str());
                s
            },
            CommandError::InvalidSetup => "invalid setup".to_owned(),
            CommandError::InsufficientCash => "insufficient cash".to_owned(),
            CommandError::CapacityExceeded => "purchase exceeds limit or wagon capacity".to_owned(),
            CommandError::NoPendingEvent => "no such pending event".to_owned(),
            CommandError::InvalidChoice => "choice is unavailable".to_owned(),
        }
    }
}

// ---------------------------------------------------------------------------------------
// Lookups by id.

pub open spec fn trail_named(id: Seq<char>) -> spec_fn(TrailDefinition) -> bool {
    |t: TrailDefinition| t.id@ == id
}

pub open spec fn node_named(id: Seq<char>) -> spec_fn(LandmarkDefinition) -> bool {
    |n: LandmarkDefinition| n.id@ == id
}

pub open spec fn item_named(id: Seq<char>) -> spec_fn(ItemDefinition) -> bool {
    |n: ItemDefinition| n.id@ == id
}

pub open spec fn era_named(id: Seq<char>) -> spec_fn(EraDefinition) -> bool {
    |n: EraDefinition| n.id@ == id
}

pub open spec fn occupation_named(id: Seq<char>) -> spec_fn(OccupationDefinition) -> bool {
    |n: OccupationDefinition| n.id@ == id
}

pub open spec fn ailment_named(id: Seq<char>) -> spec_fn(AilmentDefinition) -> bool {
    |n: AilmentDefinition| n.id@ == id
}

pub open spec fn event_named(id: Seq<char>) -> spec_fn(EventDefinition) -> bool {
    |n: EventDefinition| n.id@ == id
}

pub open spec fn route_named(id: Seq<char>) -> spec_fn(RouteDefinition) -> bool {
    |n: RouteDefinition| n.id@ == id
}

pub open spec fn choice_named(id: Seq<char>) -> spec_fn(EventChoice) -> bool {
    |n: EventChoice| n.id@ == id
}

/// An `Option<usize>` read as an optional position.
pub open spec fn pos(r: Option<usize>) -> Option<int> {
    match r {
        Some(i) => Some(i as int),
        None => None,
    }
}

pub(crate) fn find_trail(v: &Vec<TrailDefinition>, id: &str) -> (r: Option<usize>)
    ensures
        pos(r) == find_first(v@, trail_named(id@)),
{
    let mut i: usize = 0;
    while i < v.len()
        invariant
            i <= v@.len(),
            forall|j: int| 0 <= j < i ==> !#[trigger] trail_named(id@)(v@[j]),
        decreases v@.len() - i,
    {
        if same(v[i].id.as_str(), id) {
            proof { lemma_first_is(v@, trail_named(id@), i as int); }
            return Some(i);
        }
        i = i + 1;
    }
    proof { lemma_first_none(v@, trail_named(id@)); }
    None
}

pub(crate) fn find_node(v: &Vec<LandmarkDefinition>, id: &str) -> (r: Option<usize>)
    ensures
        pos(r) == find_first(v@, node_named(id@)),
{
    let mut i: usize = 0;
    while i < v.len()
        invariant
            i <= v@.len(),
            forall|j: int| 0 <= j < i ==> !#[trigger] node_named(id@)(v@[j]),
        decreases v@.len() - i,
    {
        if same(v[i].id.as_str(), id) {
            proof { lemma_first_is(v@, node_named(id@), i as int); }
            return Some(i);
        }
        i = i + 1;
    }
    proof { lemma_first_none(v@, node_named(id@)); }
    None
}

pub(crate) fn find_item(v: &Vec<ItemDefinition>, id: &str) -> (r: Option<usize>)
    ensures
        pos(r) == find_first(v@, item_named(id@)),
{
    let mut i: usize = 0;
    while i < v.len()
        invariant
            i <= v@.len(),
            forall|j: int| 0 <= j < i ==> !#[trigger] item_named(id@)(v@[j]),
        decreases v@.len() - i,
    {
        if same(v[i].id.as_str(), id) {
            proof { lemma_first_is(v@, item_named(id@), i as int); }
            return Some(i);
        }
        i = i + 1;
    }
    proof { lemma_first_none(v@, item_named(id@)); }
    None
}

pub(crate) fn find_era(v: &Vec<EraDefinition>, id: &str) -> (r: Option<usize>)
    ensures
        pos(r) == find_first(v@, era_named(id@)),
{
    let mut i: usize = 0;
    while i < v.len()
        invariant
            i <= v@.len(),
            forall|j: int| 0 <= j < i ==> !#[trigger] era_named(id@)(v@[j]),
        decreases v@.len() - i,
    {
        if same(v[i].id.as_str(), id) {
            proof { lemma_first_is(v@, era_named(id@), i as int); }
            return Some(i);
        }
        i = i + 1;
    }
    proof { lemma_first_none(v@, era_named(id@)); }
    None
}

pub(crate) fn find_occupation(v: &Vec<OccupationDefinition>, id: &str) -> (r: Option<usize>)
    ensures
        pos(r) == find_first(v@, occupation_named(id@)),
{
    let mut i: usize = 0;
    while i < v.len()
        invariant
            i <= v@.len(),
            forall|j: int| 0 <= j < i ==> !#[trigger] occupation_named(id@)(v@[j]),
        decreases v@.len() - i,
    {
        if same(v[i].id.as_str(), id) {
            proof { lemma_first_is(v@, occupation_named(id@), i as int); }
            return Some(i);
        }
        i = i + 1;
    }
    proof { lemma_first_none(v@, occupation_named(id@)); }
    None
}

pub(crate) fn find_ailment(v: &Vec<AilmentDefinition>, id: &str) -> (r: Option<usize>)
    ensures
        pos(r) == find_first(v@, ailment_named(id@)),
{
    let mut i: usize = 0;
    while i < v.len()
        invariant
            i <= v@.len(),
            forall|j: int| 0 <= j < i ==> !#[trigger] ailment_named(id@)(v@[j]),
        decreases v@.len() - i,
    {
        if same(v[i].id.as_str(), id) {
            proof { lemma_first_is(v@, ailment_named(id@), i as int); }
            return Some(i);
        }
        i = i + 1;
    }
    proof { lemma_first_none(v@, ailment_named(id@)); }
    None
}

pub(crate) fn find_event(v: &Vec<EventDefinition>, id: &str) -> (r: Option<usize>)
    ensures
        pos(r) == find_first(v@, event_named(id@)),
{
    let mut i: usize = 0;
    while i < v.len()
        invariant
            i <= v@.len(),
            forall|j: int| 0 <= j < i ==> !#[trigger] event_named(id@)(v@[j]),
        decreases v@.len() - i,
    {
        if same(v[i].id.as_str(), id) {
            proof { lemma_first_is(v@, event_named(id@), i as int); }
            return Some(i);
        }
        i = i + 1;
    }
    proof { lemma_first_none(v@, event_named(id@)); }
    None
}

pub(crate) fn find_route(v: &Vec<RouteDefinition>, id: &str) -> (r: Option<usize>)
    ensures
        pos(r) == find_first(v@, route_named(id@)),
{
    let mut i: usize = 0;
    while i < v.len()
        invariant
            i <= v@.len(),
            forall|j: int| 0 <= j < i ==> !#[trigger] route_named(id@)(v@[j]),
        decreases v@.len() - i,
    {
        if same(v[i].id.as_str(), id) {
            proof { lemma_first_is(v@, route_named(id@), i as int); }
            return Some(i);
        }
        i = i + 1;
    }
    proof { lemma_first_none(v@, route_named(id@)); }
    None
}

pub(crate) fn find_choice(v: &Vec<EventChoice>, id: &str) -> (r: Option<usize>)
    ensures
        pos(r) == find_first(v@, choice_named(id@)),
{
    let mut i: usize = 0;
    while i < v.len()
        invariant
            i <= v@.len(),
            forall|j: int| 0 <= j < i ==> !#[trigger] choice_named(id@)(v@[j]),
        decreases v@.len() - i,
    {
        if same(v[i].id.as_str(), id) {
            proof { lemma_first_is(v@, choice_named(id@), i as int); }
            return Some(i);
        }
        i = i + 1;
    }
    proof { lemma_first_none(v@, choice_named(id@)); }
    None
}

// ---------------------------------------------------------------------------------------
// Views of the state used by the contracts.

/// Number of living members.
pub open spec fn alive_count(party: Seq<PartyMember>) -> nat
    decreases party.len(),
{
    if party.len() == 0 {
        0
    } else {
        alive_count(party.drop_last()) + if party.last().alive { 1nat } else { 0nat }
    }
}

/// The shape every reachable state keeps: health within `0..=100`, living members above
/// zero health, morale within `0..=100`, and a well-formed random source.
pub open spec fn sound_party(party: Seq<PartyMember>) -> bool {
    forall|i: int| 0 <= i < party.len() ==> {
        &&& (#[trigger] party[i]).health <= 100
        &&& party[i].alive ==> party[i].health > 0
        &&& 0 <= party[i].morale <= 100
    }
}

/// A run that has ended.
pub open spec fn is_terminal(s: RunStatus) -> bool {
    s is Arrived || s is Failed
}

/// Statuses at which camp actions are possible.
pub open spec fn is_camp(s: RunStatus) -> bool {
    s is Travelling || s is AtLandmark || s is AwaitingRiver || s is AwaitingFork
}

/// Content every command can work with: era years with room for any day count, and no
/// negative item prices.
pub open spec fn content_ready(c: GameContent) -> bool {
    &&& forall|i: int| 0 <= i < c.eras@.len() ==> (#[trigger] c.eras@[i]).year <= i32::MAX - 11_800_000
    &&& forall|i: int| 0 <= i < c.items@.len() ==> (#[trigger] c.items@[i]).price_cents >= 0
}

/// `g` is a new game in setup on `content` whose random streams all start from `seed`:
/// no party, no money, no goods, nothing chosen, nothing pending, day and mile zero.
pub open spec fn fresh_game(seed: u64, content: GameContent, g: GameState) -> bool {
    &&& g.rng.wf()
    &&& g.rng.master() == seed
    &&& forall|n: Seq<char>| !(#[trigger] g.rng.has_stream(n))
    &&& g.content == content
    &&& g.status == RunStatus::Setup
    &&& g.miles == 0
    &&& g.day == 0
    &&& g.departure_month == 3
    &&& g.era_id is None
    &&& g.trail_id is None
    &&& g.occupation_id is None
    &&& g.party@.len() == 0
    &&& g.cash_cents == 0
    &&& g.inventory.quantities.map() == Map::<Seq<char>, u32>::empty()
    &&& g.pace == Pace::Steady
    &&& g.rations == RationLevel::Filling
    &&& g.weather == WeatherKind::Clear
    &&& g.current_node_id is None
    &&& g.target_node_id is None
    &&& g.route_miles_remaining == 0
    &&& g.pending_event is None
    &&& g.scheduled_events@.len() == 0
    &&& g.flags@.len() == 0
    &&& g.weather_state == (WeatherState { kind: WeatherKind::Clear, days_remaining: 1, river_depth_bonus: 0 })
    &&& g.difficulty == Difficulty::Normal
    &&& g.ox_fatigue == 0
    &&& g.reputation == 0
    &&& g.markets@.len() == 0
}

impl GameState {
    /// Era years leave room for every reachable day count.
    pub open spec fn eras_in_range(self) -> bool {
        forall|i: int| 0 <= i < self.content.eras@.len() ==> (#[trigger] self.content.eras@[i]).year <= i32::MAX - 11_800_000
    }

    /// No item has a negative price.
    pub open spec fn prices_sane(self) -> bool {
        forall|i: int| 0 <= i < self.content.items@.len() ==> (#[trigger] self.content.items@[i]).price_cents >= 0
    }

    /// Paying for `c` leaves the purse within `i64`: the ferry fare here when `c` takes the
    /// ferry, the price of the goods when `c` buys. A fare or price below zero is a credit,
    /// and only a purse already near the top of `i64` could overflow.
    pub open spec fn purse_fits(self, c: Command) -> bool {
        &&& (c matches Command::CrossRiver { method } && method == CrossMethod::Ferry && self.here() is Some
            && self.here()->0.river is Some && self.here()->0.river->0.ferry_cost_cents is Some)
            ==> self.cash_cents - self.here()->0.river->0.ferry_cost_cents->0 <= i64::MAX
        &&& (c matches Command::Buy { item_id, quantity }
            ==> self.cash_cents - buy_cost(self, item_id@, quantity) <= i64::MAX)
    }

    /// What every command relies on: a well-formed random source, a real departure month,
    /// and era years with room for any day count.
    pub open spec fn ready(self) -> bool {
        &&& self.rng.wf()
        &&& 1 <= self.departure_month <= 12
        &&& self.eras_in_range()
    }

    /// Position of the selected trail in the content.
    pub open spec fn trail_pos(self) -> Option<int> {
        match self.trail_id {
            Some(t) => find_first(self.content.trails@, trail_named(t@)),
            None => None,
        }
    }

    /// Positions of the selected trail and the current landmark on it.
    pub open spec fn node_pos(self) -> Option<(int, int)> {
        match (self.trail_pos(), self.current_node_id) {
            (Some(ti), Some(c)) => match find_first(self.content.trails@[ti].nodes@, node_named(c@)) {
                Some(ni) => Some((ti, ni)),
                None => None,
            },
            _ => None,
        }
    }

    /// The current landmark's definition, when there is one.
    pub open spec fn here(self) -> Option<LandmarkDefinition> {
        match self.node_pos() {
            Some((ti, ni)) => Some(self.content.trails@[ti].nodes@[ni]),
            None => None,
        }
    }

    /// Whether the store here can be used now.
    pub open spec fn shop_open(self) -> bool {
        (self.status is Outfitting || self.status is AtLandmark) && match self.here() {
            Some(n) => n.store,
            None => false,
        }
    }

    /// A fresh journey in setup on the starter content.
    pub fn new(seed: u64) -> (r: Self)
        ensures
            r.ready(),
            r.status == RunStatus::Setup,
            r.day == 0,
            r.miles == 0,
            r.party@.len() == 0,
            r.cash_cents == 0,
            r.rng.master() == seed,
    {
        Self::with_content(seed, GameContent::starter())
    }

    /// A fresh journey in setup on `content`.
    pub fn with_content(seed: u64, content: GameContent) -> (r: Self)
        ensures
            r.rng.wf(),
            r.ready() == r.eras_in_range(),
            r.content == content,
            r.status == RunStatus::Setup,
            r.miles == 0,
            r.day == 0,
            r.departure_month == 3,
            r.era_id is None,
            r.trail_id is None,
            r.occupation_id is None,
            r.party@.len() == 0,
            r.cash_cents == 0,
            r.inventory.quantities.map() == Map::<Seq<char>, u32>::empty(),
            r.pace == Pace::Steady,
            r.rations == RationLevel::Filling,
            r.weather == WeatherKind::Clear,
            r.current_node_id is None,
            r.target_node_id is None,
            r.route_miles_remaining == 0,
            r.pending_event is None,
            r.scheduled_events@.len() == 0,
            r.flags@.len() == 0,
            r.weather_state == (WeatherState { kind: WeatherKind::Clear, days_remaining: 1, river_depth_bonus: 0 }),
            r.difficulty == Difficulty::Normal,
            r.ox_fatigue == 0,
            r.reputation == 0,
            r.markets@.len() == 0,
            r.rng.master() == seed,
            fresh_game(seed, content, r),
    {
        GameState {
            rng: SimRng::new(seed),
            content,
            status: RunStatus::Setup,
            miles: 0,
            day: 0,
            departure_month: 3,
            era_id: None,
            trail_id: None,
            occupation_id: None,
            party: Vec::new(),
            cash_cents: 0,
            inventory: Inventory::new(),
            pace: Pace::Steady,
            rations: RationLevel::Filling,
            weather: WeatherKind::Clear,
            current_node_id: None,
            target_node_id: None,
            route_miles_remaining: 0,
            pending_event: None,
            scheduled_events: Vec::new(),
            flags: Vec::new(),
            weather_state: WeatherState::default(),
            difficulty: Difficulty::Normal,
            ox_fatigue: 0,
            reputation: 0,
            markets: Vec::new(),
        }
    }

    /// Positions of the selected trail and current landmark.
    pub(crate) fn node(&self) -> (r: Option<(usize, usize)>)
        ensures
            match r {
                Some((ti, ni)) => self.node_pos() == Some((ti as int, ni as int)) && ti < self.content.trails@.len()
                    && ni < self.content.trails@[ti as int].nodes@.len(),
                None => self.node_pos() is None,
            },
    {
        let t = match &self.trail_id {
            Some(t) => t,
            None => return None,
        };
        let ti = match find_trail(&self.content.trails, t.as_str()) {
            Some(ti) => ti,
            None => return None,
        };
        let c = match &self.current_node_id {
            Some(c) => c,
            None => return None,
        };
        proof { lemma_first_facts(self.content.trails@, trail_named(t@)); }
        match find_node(&self.content.trails[ti].nodes, c.as_str()) {
            Some(ni) => {
                proof { lemma_first_facts(self.content.trails@[ti as int].nodes@, node_named(c@)); }
                Some((ti, ni))
            },
            None => None,
        }
    }

    /// The current landmark's definition, when there is one.
    pub fn current_landmark(&self) -> (r: Option<&LandmarkDefinition>)
        ensures
            match r {
                Some(n) => self.here() == Some(*n),
                None => self.here() is None,
            },
    {
        match self.node() {
            Some((ti, ni)) => Some(&self.content.trails[ti].nodes[ni]),
            None => None,
        }
    }

    /// Whether the store here can be used now.
    pub fn can_shop(&self) -> (r: bool)
        ensures
            r == self.shop_open(),
    {
        let phase_ok = matches!(self.status, RunStatus::Outfitting | RunStatus::AtLandmark(_));
        if !phase_ok {
            return false;
        }
        match self.current_landmark() {
            Some(n) => n.store,
            None => false,
        }
    }

    /// The listed price of an item.
    pub fn price_cents(&self, item_id: &str) -> (r: Option<i64>)
        ensures
            match find_first(self.content.items@, item_named(item_id@)) {
                Some(i) => r == Some(self.content.items@[i].price_cents),
                None => r is None,
            },
    {
        match find_item(&self.content.items, item_id) {
            Some(i) => {
                proof { lemma_first_facts(self.content.items@, item_named(item_id@)); }
                Some(self.content.items[i].price_cents)
            },
            None => None,
        }
    }
}


// ---------------------------------------------------------------------------------------
// Derived quantities.

/// Why a command is refused, with content ids as text.
pub enum Rejection {
    Phase,
    Unknown(Seq<char>),
    Setup,
    Cash,
    Capacity,
    NoEvent,
    Choice,
}

/// `e` is the rejection `r`.
pub open spec fn is_rejection(e: CommandError, r: Rejection) -> bool {
    match (e, r) {
        (CommandError::InvalidPhase, Rejection::Phase) => true,
        (CommandError::UnknownId(a), Rejection::Unknown(b)) => a@ == b,
        (CommandError::InvalidSetup, Rejection::Setup) => true,
        (CommandError::InsufficientCash, Rejection::Cash) => true,
        (CommandError::CapacityExceeded, Rejection::Capacity) => true,
        (CommandError::NoPendingEvent, Rejection::NoEvent) => true,
        (CommandError::InvalidChoice, Rejection::Choice) => true,
        _ => false,
    }
}

/// `a * b`, or the largest `u32` when that overflows.
pub open spec fn sat_mul(a: u32, b: u32) -> u32 {
    if a * b > u32::MAX { u32::MAX } else { (a * b) as u32 }
}

/// `a + b`, or the largest `u32` when that overflows.
pub open spec fn sat_add(a: u32, b: u32) -> u32 {
    if a + b > u32::MAX { u32::MAX } else { (a + b) as u32 }
}

/// Pounds per unit of item `id`; zero for an unknown item.
pub open spec fn unit_weight(items: Seq<ItemDefinition>, id: Seq<char>) -> u32 {
    match find_first(items, item_named(id)) {
        Some(i) => items[i].weight_lbs,
        None => 0,
    }
}

/// Wagon load of the inventory rows, saturating at the largest `u32`.
pub open spec fn load_of(items: Seq<ItemDefinition>, rows: Seq<(String, u32)>) -> u32
    decreases rows.len(),
{
    if rows.len() == 0 {
        0
    } else {
        sat_add(load_of(items, rows.drop_last()), sat_mul(unit_weight(items, rows.last().0@), rows.last().1))
    }
}

/// The season of a month.
pub open spec fn season_of_month(month: u8) -> Season {
    if 3 <= month <= 5 {
        Season::Spring
    } else if 6 <= month <= 8 {
        Season::Summer
    } else if 9 <= month <= 11 {
        Season::Autumn
    } else {
        Season::Winter
    }
}

impl GameState {
    /// Wagon load in pounds.
    pub open spec fn load(self) -> u32 {
        load_of(self.content.items@, self.inventory.quantities.rows())
    }

    /// Year of the selected era, 1848 when none is known.
    pub open spec fn era_year(self) -> i32 {
        match self.era_id {
            Some(e) => match find_first(self.content.eras@, era_named(e@)) {
                Some(i) => self.content.eras@[i].year,
                None => 1848,
            },
            None => 1848,
        }
    }

    /// Today's date: the first of the departure month, plus the days travelled.
    pub open spec fn today(self) -> CalendarDate {
        CalendarDate { year: self.era_year(), month: self.departure_month, day: 1 }.later(self.day as nat)
    }

    /// Today's season.
    pub open spec fn season(self) -> Season {
        season_of_month(self.today().month)
    }

    /// Terrain around the current landmark, read from its id.
    pub open spec fn terrain_here(self) -> Terrain {
        let id = match self.current_node_id { Some(c) => c@, None => Seq::<char>::empty() };
        if crate::text::occurs(id, "mountain"@) || crate::text::occurs(id, "pass"@) {
            Terrain::Mountains
        } else if crate::text::occurs(id, "river"@) {
            Terrain::RiverValley
        } else {
            Terrain::Plains
        }
    }

    /// Wagon load in pounds, saturating at the largest `u32`.
    pub fn weight(&self) -> (r: u32)
        ensures
            r == self.load(),
    {
        let n = self.inventory.quantities.len();
        let mut total: u32 = 0;
        let mut k: usize = 0;
        while k < n
            invariant
                k <= n,
                n == self.inventory.quantities.rows().len(),
                total == load_of(self.content.items@, self.inventory.quantities.rows().subrange(0, k as int)),
            decreases n - k,
        {
            let id = self.inventory.quantities.key_at(k);
            let qty = self.inventory.quantities.value_at(k);
            let w: u32 = match find_item(&self.content.items, id.as_str()) {
                Some(i) => {
                    proof { lemma_first_facts(self.content.items@, item_named(id@)); }
                    self.content.items[i].weight_lbs
                },
                None => 0,
            };
            assert((w as int) * (qty as int) <= u64::MAX) by (nonlinear_arith)
                requires w <= u32::MAX, qty <= u32::MAX;
            let part: u32 = if (w as u64) * (qty as u64) > u32::MAX as u64 { u32::MAX } else { w * qty };
            total = total.saturating_add(part);
            proof {
                assert(self.inventory.quantities.rows().subrange(0, (k + 1) as int).drop_last()
                    =~= self.inventory.quantities.rows().subrange(0, k as int));
            }
            k = k + 1;
        }
        assert(self.inventory.quantities.rows().subrange(0, n as int) =~= self.inventory.quantities.rows());
        total
    }

    /// Wagon load in pounds.
    pub fn wagon_weight(&self) -> (r: u32)
        ensures
            r == self.load(),
    {
        self.weight()
    }

    /// Today's date as (year, month, day).
    pub fn date(&self) -> (r: (i32, u8, u8))
        requires
            1 <= self.departure_month <= 12,
            self.eras_in_range(),
        ensures
            r == (self.today().year, self.today().month, self.today().day),
            self.today().valid(),
    {
        let mut year: i32 = 1848;
        match &self.era_id {
            Some(e) => match find_era(&self.content.eras, e.as_str()) {
                Some(i) => {
                    proof { lemma_first_facts(self.content.eras@, era_named(e@)); }
                    year = self.content.eras[i].year;
                },
                None => {},
            },
            None => {},
        }
        assert(year == self.era_year());
        let start = CalendarDate { year, month: self.departure_month, day: 1 };
        assert(start.valid());
        proof {
            crate::calendar::lemma_day_of_year_bounds(start);
            assert(start.day_of_year() <= 366) by {
                reveal_with_fuel(crate::calendar::days_before_month, 13);
            }
        }
        proof { crate::calendar::lemma_real_dates_walk(start, self.day as nat); }
        let d = start.add_days(self.day);
        (d.year, d.month, d.day)
    }

    pub(crate) fn season_now(&self) -> (r: Season)
        requires
            1 <= self.departure_month <= 12,
            self.eras_in_range(),
        ensures
            r == self.season(),
    {
        let (_, month, _) = self.date();
        if 3 <= month && month <= 5 {
            Season::Spring
        } else if 6 <= month && month <= 8 {
            Season::Summer
        } else if 9 <= month && month <= 11 {
            Season::Autumn
        } else {
            Season::Winter
        }
    }

    /// Terrain around the current landmark.
    pub fn terrain(&self) -> (r: Terrain)
        ensures
            r == self.terrain_here(),
    {
        let empty = String::new();
        let id: &String = match &self.current_node_id {
            Some(c) => c,
            None => &empty,
        };
        if crate::text::contains_text(id.as_str(), "mountain") || crate::text::contains_text(id.as_str(), "pass") {
            Terrain::Mountains
        } else if crate::text::contains_text(id.as_str(), "river") {
            Terrain::RiverValley
        } else {
            Terrain::Plains
        }
    }

    /// Sets out on the current landmark's only route.
    pub(crate) fn begin_only_route(&mut self) -> (r: Result<(), CommandError>)
        ensures
            match old(self).here() {
                Some(n) if n.routes@.len() == 1 => r is Ok && *final(self) == (GameState {
                    target_node_id: Some(n.routes@[0].target_id),
                    route_miles_remaining: n.routes@[0].distance_miles,
                    status: RunStatus::Travelling,
                    ..*old(self)
                }),
                _ => r == Err::<(), CommandError>(CommandError::InvalidPhase) && *final(self) == *old(self),
            },
    {
        let (ti, ni) = match self.node() {
            Some(p) => p,
            None => return Err(CommandError::InvalidPhase),
        };
        if self.content.trails[ti].nodes[ni].routes.len() != 1 {
            return Err(CommandError::InvalidPhase);
        }
        let target = self.content.trails[ti].nodes[ni].routes[0].target_id.clone();
        let distance = self.content.trails[ti].nodes[ni].routes[0].distance_miles;
        self.target_node_id = Some(target);
        self.route_miles_remaining = distance;
        self.status = RunStatus::Travelling;
        Ok(())
    }
}

/// Why a purchase of `n` of item `id` would be refused, if it would be.
pub open spec fn buy_refusal(s: GameState, id: Seq<char>, n: u32) -> Option<Rejection> {
    if !s.shop_open() || n == 0 {
        Some(Rejection::Phase)
    } else {
        match find_first(s.content.items@, item_named(id)) {
            None => Some(Rejection::Unknown(id)),
            Some(i) => {
                let item = s.content.items@[i];
                let cost = item.price_cents * n;
                let have = held(s.inventory, id);
                if cost < i64::MIN || cost > i64::MAX {
                    Some(Rejection::Cash)
                } else if have + n > u32::MAX || have + n > item.limit {
                    Some(Rejection::Capacity)
                } else if item.weight_lbs * n > u32::MAX || s.load() + item.weight_lbs * n > u32::MAX
                    || s.load() + item.weight_lbs * n > 2400 {
                    Some(Rejection::Capacity)
                } else if cost > s.cash_cents {
                    Some(Rejection::Cash)
                } else {
                    None
                }
            },
        }
    }
}

/// The cost of `n` of item `id` (meaningful when the purchase is allowed).
pub open spec fn buy_cost(s: GameState, id: Seq<char>, n: u32) -> int {
    match find_first(s.content.items@, item_named(id)) {
        Some(i) => s.content.items@[i].price_cents * n,
        None => 0,
    }
}

/// Buying `n` of item `id` went from `a` to `b`, reporting `out`: the price is paid and
/// the goods are stowed; nothing else changes.
pub open spec fn bought(a: GameState, b: GameState, id: Seq<char>, n: u32, out: Seq<Outcome>) -> bool {
    &&& out.len() == 1
    &&& out[0] matches Outcome::Purchased { item_id, quantity, cost_cents }
        && item_id@ == id && quantity == n && cost_cents == buy_cost(a, id, n)
    &&& stocked_up(a, b, id, n)
}

/// After buying `n` of item `id`, `b` is `a` with the price paid and the goods stowed.
pub open spec fn stocked_up(a: GameState, b: GameState, id: Seq<char>, n: u32) -> bool {
    &&& b.cash_cents == a.cash_cents - buy_cost(a, id, n)
    &&& b.inventory.quantities.map() == a.inventory.quantities.map().insert(id, (held(a.inventory, id) + n) as u32)
    &&& b == (GameState { cash_cents: b.cash_cents, inventory: b.inventory, ..a })
}

impl GameState {
    pub(crate) fn buy(&mut self, id: &str, n: u32) -> (r: Result<Vec<Outcome>, CommandError>)
        requires
            old(self).cash_cents - buy_cost(*old(self), id@, n) <= i64::MAX,
        ensures
            match buy_refusal(*old(self), id@, n) {
                Some(why) => r matches Err(e) && is_rejection(e, why) && *final(self) == *old(self),
                None => r matches Ok(out) && bought(*old(self), *final(self), id@, n, out@),
            },
    {
        if !self.can_shop() || n == 0 {
            return Err(CommandError::InvalidPhase);
        }
        let i = match find_item(&self.content.items, id) {
            Some(i) => i,
            None => return Err(CommandError::UnknownId(id.to_owned())),
        };
        proof { lemma_first_facts(self.content.items@, item_named(id@)); }
        let price = self.content.items[i].price_cents;
        let limit = self.content.items[i].limit;
        let unit = self.content.items[i].weight_lbs;
        let cost = match price.checked_mul(n as i64) {
            Some(c) => c,
            None => return Err(CommandError::InsufficientCash),
        };
        let have = self.inventory.get(id);
        let total = match have.checked_add(n) {
            Some(t) => t,
            None => return Err(CommandError::CapacityExceeded),
        };
        if total > limit {
            return Err(CommandError::CapacityExceeded);
        }
        let extra = match unit.checked_mul(n) {
            Some(x) => x,
            None => return Err(CommandError::CapacityExceeded),
        };
        let load = match self.weight().checked_add(extra) {
            Some(l) => l,
            None => return Err(CommandError::CapacityExceeded),
        };
        if load > 2400 {
            return Err(CommandError::CapacityExceeded);
        }
        if cost > self.cash_cents {
            return Err(CommandError::InsufficientCash);
        }
        self.cash_cents = self.cash_cents - cost;
        self.inventory.add(id, n);
        let mut out: Vec<Outcome> = Vec::new();
        out.push(Outcome::Purchased { item_id: id.to_owned(), quantity: n, cost_cents: cost });
        Ok(out)
    }
}


/// A traveler name the setup accepts: not blank, at most 24 characters, no control characters.
pub open spec fn name_ok(n: Seq<char>) -> bool {
    &&& !(forall|i: int| 0 <= i < n.len() ==> crate::text::is_space(#[trigger] n[i]))
    &&& n.len() <= 24
    &&& crate::text::printable(n)
}

/// A traveler exactly as `PartyMember::new(name)` creates one.
pub open spec fn fresh_member(m: PartyMember, name: String) -> bool {
    &&& m.name == name
    &&& m.health == 100
    &&& m.morale == 50
    &&& m.ailments@.len() == 0
    &&& m.alive
    &&& m.age == 30
    &&& m.traits@.len() == 0
    &&& m.skills == crate::party::Skills::none()
    &&& m.relationships.affinity.map() == Map::<Seq<char>, i16>::empty()
    &&& m.ailment_days.map() == Map::<Seq<char>, u16>::empty()
}

/// Why a setup would be refused, if it would be.
pub open spec fn configure_refusal(s: GameState, t: Seq<char>, e: Seq<char>, o: Seq<char>, names: Seq<String>, month: u8) -> Option<Rejection> {
    if s.status != RunStatus::Setup || names.len() != 5 || (exists|i: int| 0 <= i < names.len() && !name_ok(#[trigger] names[i]@))
        || !(3 <= month <= 7) {
        Some(Rejection::Setup)
    } else if find_first(s.content.trails@, trail_named(t)) is None {
        Some(Rejection::Unknown(t))
    } else if find_first(s.content.eras@, era_named(e)) is None {
        Some(Rejection::Unknown(e))
    } else if find_first(s.content.occupations@, occupation_named(o)) is None {
        Some(Rejection::Unknown(o))
    } else {
        None
    }
}

impl GameState {
    pub(crate) fn configure(&mut self, t: String, e: String, o: String, names: Vec<String>, month: u8) -> (r: Result<Vec<Outcome>, CommandError>)
        ensures
            match configure_refusal(*old(self), t@, e@, o@, names@, month) {
                Some(why) => r matches Err(x) && is_rejection(x, why) && *final(self) == *old(self),
                None => {
                    let ti = find_first(old(self).content.trails@, trail_named(t@))->0;
                    let oi = find_first(old(self).content.occupations@, occupation_named(o@))->0;
                    &&& r matches Ok(out) && out@ == seq![Outcome::Configured]
                    &&& *final(self) == (GameState {
                        cash_cents: old(self).content.occupations@[oi].starting_cash_cents,
                        party: final(self).party,
                        departure_month: month,
                        current_node_id: Some(old(self).content.trails@[ti].start_node_id),
                        trail_id: Some(t),
                        era_id: Some(e),
                        occupation_id: Some(o),
                        status: RunStatus::Outfitting,
                        ..*old(self)
                    })
                    &&& final(self).party@.len() == 5
                    &&& forall|i: int| 0 <= i < 5 ==> #[trigger] fresh_member(final(self).party@[i], names@[i])
                }
            },
    {
        let is_setup = matches!(self.status, RunStatus::Setup);
        let mut valid = is_setup && names.len() == 5 && 3 <= month && month <= 7;
        let mut i: usize = 0;
        while i < names.len()
            invariant
                i <= names@.len(),
                valid ==> forall|j: int| 0 <= j < i ==> name_ok(#[trigger] names@[j]@),
                !valid ==> (self.status != RunStatus::Setup || names@.len() != 5 || (exists|j: int| 0 <= j < names@.len() && !name_ok(#[trigger] names@[j]@)) || !(3 <= month <= 7)),
                valid ==> (self.status == RunStatus::Setup && names@.len() == 5 && 3 <= month <= 7),
            decreases names@.len() - i,
        {
            let name = names[i].as_str();
            let blank = crate::text::is_blank(name);
            let long = name.unicode_len() > 24;
            let control = crate::text::has_control(name);
            if blank || long || control {
                assert(!name_ok(names@[i as int]@));
                valid = false;
            }
            i = i + 1;
        }
        if !valid {
            return Err(CommandError::InvalidSetup);
        }
        let ti = match find_trail(&self.content.trails, t.as_str()) {
            Some(ti) => ti,
            None => return Err(CommandError::UnknownId(t)),
        };
        proof { lemma_first_facts(self.content.trails@, trail_named(t@)); }
        if find_era(&self.content.eras, e.as_str()).is_none() {
            return Err(CommandError::UnknownId(e));
        }
        let oi = match find_occupation(&self.content.occupations, o.as_str()) {
            Some(oi) => oi,
            None => return Err(CommandError::UnknownId(o)),
        };
        proof { lemma_first_facts(self.content.occupations@, occupation_named(o@)); }
        let cash = self.content.occupations[oi].starting_cash_cents;
        let start = self.content.trails[ti].start_node_id.clone();
        let mut party: Vec<PartyMember> = Vec::new();
        let mut k: usize = 0;
        while k < names.len()
            invariant
                k <= names@.len(),
                party@.len() == k,
                forall|j: int| 0 <= j < k ==> #[trigger] fresh_member(party@[j], names@[j]),
            decreases names@.len() - k,
        {
            party.push(PartyMember::new(names[k].clone()));
            k = k + 1;
        }
        self.cash_cents = cash;
        self.party = party;
        self.departure_month = month;
        self.current_node_id = Some(start);
        self.trail_id = Some(t);
        self.era_id = Some(e);
        self.occupation_id = Some(o);
        self.status = RunStatus::Outfitting;
        let mut out: Vec<Outcome> = Vec::new();
        out.push(Outcome::Configured);
        Ok(out)
    }
}


// ---------------------------------------------------------------------------------------
// Conditions.

/// `opt` holds text equal to `x`.
pub open spec fn names_text(opt: Option<String>, x: Seq<char>) -> bool {
    match opt {
        Some(v) => v@ == x,
        None => false,
    }
}

/// Some member of `party` has a living partner of the other sex, both adults.
pub open spec fn has_adult_pair(party: Seq<PartyMember>) -> bool {
    exists|i: int, j: int| 0 <= i < party.len() && 0 <= j < party.len() && #[trigger] party[i].alive && #[trigger] party[j].alive
        && party[i].age >= 18 && party[j].age >= 18 && party[i].sex == crate::health::Sex::Female
        && party[j].sex == crate::health::Sex::Male
}

/// Whether condition `c` holds in state `s`.
pub open spec fn holds(s: GameState, c: Condition) -> bool
    decreases c,
{
    match c {
        Condition::Always => true,
        Condition::All(v) => forall|i: int| 0 <= i < v@.len() ==> holds(s, #[trigger] v@[i]),
        Condition::Any(v) => exists|i: int| 0 <= i < v@.len() && holds(s, #[trigger] v@[i]),
        Condition::Not(x) => !holds(s, *x),
        Condition::MilesAtLeast(x) => s.miles >= x,
        Condition::FoodBelow(x) => held(s.inventory, "food"@) < x,
        Condition::DayAtLeast(x) => s.day >= x,
        Condition::AtLandmark(x) => names_text(s.current_node_id, x@),
        Condition::HasAilment(x) => exists|i: int, k: int| 0 <= i < s.party@.len() && 0 <= k < s.party@[i].ailments@.len()
            && #[trigger] s.party@[i].ailments@[k]@ == x@,
        Condition::Flag(x) => exists|k: int| 0 <= k < s.flags@.len() && #[trigger] s.flags@[k]@ == x@,
        Condition::Trail(x) => names_text(s.trail_id, x@),
        Condition::Era(x) => names_text(s.era_id, x@),
        Condition::Occupation(x) => names_text(s.occupation_id, x@),
        Condition::Season(x) => s.season() == x,
        Condition::Weather(x) => s.weather == x,
        Condition::InventoryAtLeast { item_id, quantity } => held(s.inventory, item_id@) >= quantity,
        Condition::CashAtLeast(x) => s.cash_cents >= x,
        Condition::MoraleBelow(x) => exists|i: int| 0 <= i < s.party@.len() && #[trigger] s.party@[i].alive && s.party@[i].morale < x,
        Condition::RelationshipAtLeast(x) => exists|i: int, j: int| 0 <= i < s.party@.len() && 0 <= j < s.party@.len() && i != j
            && #[trigger] s.party@[i].alive && #[trigger] s.party@[j].alive
            && crate::party::affinity_of(s.party@[i], s.party@[j].name@) >= x,
        Condition::PartySizeBelow(x) => alive_count(s.party@) < x,
        Condition::HasAdultPair => has_adult_pair(s.party@),
    }
}

/// Whether every condition of `cs` holds.
pub open spec fn all_hold(s: GameState, cs: Seq<Condition>) -> bool {
    forall|i: int| 0 <= i < cs.len() ==> holds(s, #[trigger] cs[i])
}

pub(crate) fn text_in(v: &Vec<String>, x: &str) -> (r: bool)
    ensures
        r == exists|k: int| 0 <= k < v@.len() && #[trigger] v@[k]@ == x@,
{
    let mut k: usize = 0;
    while k < v.len()
        invariant
            k <= v@.len(),
            forall|j: int| 0 <= j < k ==> v@[j]@ != x@,
        decreases v@.len() - k,
    {
        if same(v[k].as_str(), x) {
            return true;
        }
        k = k + 1;
    }
    false
}

pub(crate) fn option_is(opt: &Option<String>, x: &str) -> (r: bool)
    ensures
        r == names_text(*opt, x@),
{
    match opt {
        Some(v) => same(v.as_str(), x),
        None => false,
    }
}

pub(crate) fn living(party: &Vec<PartyMember>) -> (r: usize)
    ensures
        r == alive_count(party@),
        r <= party@.len(),
{
    let mut n: usize = 0;
    let mut i: usize = 0;
    while i < party.len()
        invariant
            i <= party@.len(),
            n == alive_count(party@.subrange(0, i as int)),
            n <= i,
        decreases party@.len() - i,
    {
        assert(party@.subrange(0, (i + 1) as int).drop_last() =~= party@.subrange(0, i as int));
        if party[i].alive {
            n = n + 1;
        }
        i = i + 1;
    }
    assert(party@.subrange(0, party@.len() as int) =~= party@);
    n
}

impl GameState {
    /// Whether condition `c` holds now.
    #[verifier::loop_isolation(false)]
    pub fn matches(&self, c: &Condition) -> (r: bool)
        requires
            1 <= self.departure_month <= 12,
            self.eras_in_range(),
        ensures
            r == holds(*self, *c),
        decreases c,
    {
        match c {
            Condition::Always => true,
            Condition::All(v) => {
                let mut i: usize = 0;
                while i < v.len()
                    invariant
                        i <= v@.len(),
                        1 <= self.departure_month <= 12,
                        self.eras_in_range(),
                        forall|j: int| 0 <= j < i ==> holds(*self, #[trigger] v@[j]),
                    decreases v@.len() - i,
                {
                    proof {
                        assert(decreases_to!(v => v@));
                        assert(decreases_to!(v@ => v@[i as int]));
                    }
                    if !self.matches(&v[i]) {
                        assert(!holds(*self, v@[i as int]));
                        return false;
                    }
                    i = i + 1;
                }
                true
            },
            Condition::Any(v) => {
                let mut i: usize = 0;
                while i < v.len()
                    invariant
                        i <= v@.len(),
                        1 <= self.departure_month <= 12,
                        self.eras_in_range(),
                        forall|j: int| 0 <= j < i ==> !holds(*self, #[trigger] v@[j]),
                    decreases v@.len() - i,
                {
                    proof {
                        assert(decreases_to!(v => v@));
                        assert(decreases_to!(v@ => v@[i as int]));
                    }
                    if self.matches(&v[i]) {
                        assert(holds(*self, v@[i as int]));
                        return true;
                    }
                    i = i + 1;
                }
                false
            },
            Condition::Not(x) => !self.matches(x),
            Condition::MilesAtLeast(x) => self.miles >= *x,
            Condition::FoodBelow(x) => self.inventory.get("food") < *x,
            Condition::DayAtLeast(x) => self.day >= *x,
            Condition::AtLandmark(x) => option_is(&self.current_node_id, x.as_str()),
            Condition::HasAilment(x) => self.any_ailment(x.as_str()),
            Condition::Flag(x) => text_in(&self.flags, x.as_str()),
            Condition::Trail(x) => option_is(&self.trail_id, x.as_str()),
            Condition::Era(x) => option_is(&self.era_id, x.as_str()),
            Condition::Occupation(x) => option_is(&self.occupation_id, x.as_str()),
            Condition::Season(x) => self.season_now() == *x,
            Condition::Weather(x) => self.weather == *x,
            Condition::InventoryAtLeast { item_id, quantity } => self.inventory.get(item_id.as_str()) >= *quantity,
            Condition::CashAtLeast(x) => self.cash_cents >= *x,
            Condition::MoraleBelow(x) => self.morale_below(*x),
            Condition::RelationshipAtLeast(x) => self.relationship_at_least(*x),
            Condition::PartySizeBelow(x) => living(&self.party) < *x as usize,
            Condition::HasAdultPair => self.adult_pair(),
        }
    }

    fn any_ailment(&self, x: &str) -> (r: bool)
        ensures
            r == exists|i: int, k: int| 0 <= i < self.party@.len() && 0 <= k < self.party@[i].ailments@.len()
                && #[trigger] self.party@[i].ailments@[k]@ == x@,
    {
                let mut i: usize = 0;
                while i < self.party.len()
                    invariant
                        i <= self.party@.len(),
                        forall|a: int, k: int| 0 <= a < i && 0 <= k < self.party@[a].ailments@.len() ==> #[trigger] self.party@[a].ailments@[k]@ != x@,
                    decreases self.party@.len() - i,
                {
                    if text_in(&self.party[i].ailments, x) {
                        proof {
                            let k = choose|k: int| 0 <= k < self.party@[i as int].ailments@.len() && #[trigger] self.party@[i as int].ailments@[k]@ == x@;
                            assert(self.party@[i as int].ailments@[k]@ == x@);
                        }
                        return true;
                    }
                    i = i + 1;
                }
                false
            }

    fn morale_below(&self, x: i16) -> (r: bool)
        ensures
            r == exists|i: int| 0 <= i < self.party@.len() && #[trigger] self.party@[i].alive && self.party@[i].morale < x,
    {
                let mut i: usize = 0;
                while i < self.party.len()
                    invariant
                        i <= self.party@.len(),
                        forall|a: int| 0 <= a < i ==> !(#[trigger] self.party@[a].alive && self.party@[a].morale < x),
                    decreases self.party@.len() - i,
                {
                    if self.party[i].alive && self.party[i].morale < x {
                        assert(self.party@[i as int].alive && self.party@[i as int].morale < x);
                        return true;
                    }
                    i = i + 1;
                }
                false
            }

    fn relationship_at_least(&self, x: i16) -> (r: bool)
        ensures
            r == exists|i: int, j: int| 0 <= i < self.party@.len() && 0 <= j < self.party@.len() && i != j
                && #[trigger] self.party@[i].alive && #[trigger] self.party@[j].alive
                && crate::party::affinity_of(self.party@[i], self.party@[j].name@) >= x,
    {
                let mut i: usize = 0;
                while i < self.party.len()
                    invariant
                        i <= self.party@.len(),
                        forall|a: int, b: int| 0 <= a < i && 0 <= b < self.party@.len() && a != b ==>
                            !(#[trigger] self.party@[a].alive && #[trigger] self.party@[b].alive
                            && crate::party::affinity_of(self.party@[a], self.party@[b].name@) >= x),
                    decreases self.party@.len() - i,
                {
                    let mut j: usize = 0;
                    while j < self.party.len()
                        invariant
                            i < self.party@.len(),
                            j <= self.party@.len(),
                            forall|a: int, b: int| 0 <= a < i && 0 <= b < self.party@.len() && a != b ==>
                                !(#[trigger] self.party@[a].alive && #[trigger] self.party@[b].alive
                                && crate::party::affinity_of(self.party@[a], self.party@[b].name@) >= x),
                            forall|b: int| 0 <= b < j && b != i ==>
                                !(self.party@[i as int].alive && #[trigger] self.party@[b].alive
                                && crate::party::affinity_of(self.party@[i as int], self.party@[b].name@) >= x),
                        decreases self.party@.len() - j,
                    {
                        if i != j && self.party[i].alive && self.party[j].alive {
                            let a = match self.party[i].relationships.affinity.get(self.party[j].name.as_str()) {
                                Some(a) => a,
                                None => 0,
                            };
                            if a >= x {
                                assert(self.party@[i as int].alive && self.party@[j as int].alive
                                    && crate::party::affinity_of(self.party@[i as int], self.party@[j as int].name@) >= x);
                                return true;
                            }
                        }
                        j = j + 1;
                    }
                    i = i + 1;
                }
                false
            }

    fn adult_pair(&self) -> (r: bool)
        ensures
            r == has_adult_pair(self.party@),
    {
                let mut i: usize = 0;
                while i < self.party.len()
                    invariant
                        i <= self.party@.len(),
                        forall|a: int, b: int| 0 <= a < i && 0 <= b < self.party@.len() ==>
                            !(#[trigger] self.party@[a].alive && #[trigger] self.party@[b].alive
                            && self.party@[a].age >= 18 && self.party@[b].age >= 18
                            && self.party@[a].sex == crate::health::Sex::Female
                            && self.party@[b].sex == crate::health::Sex::Male),
                    decreases self.party@.len() - i,
                {
                    let mut j: usize = 0;
                    while j < self.party.len()
                        invariant
                            i < self.party@.len(),
                            j <= self.party@.len(),
                            forall|a: int, b: int| 0 <= a < i && 0 <= b < self.party@.len() ==>
                                !(#[trigger] self.party@[a].alive && #[trigger] self.party@[b].alive
                                && self.party@[a].age >= 18 && self.party@[b].age >= 18
                                && self.party@[a].sex == crate::health::Sex::Female
                                && self.party@[b].sex == crate::health::Sex::Male),
                            forall|b: int| 0 <= b < j ==>
                                !(self.party@[i as int].alive && #[trigger] self.party@[b].alive
                                && self.party@[i as int].age >= 18 && self.party@[b].age >= 18
                                && self.party@[i as int].sex == crate::health::Sex::Female
                                && self.party@[b].sex == crate::health::Sex::Male),
                        decreases self.party@.len() - j,
                    {
                        if self.party[i].alive && self.party[j].alive && self.party[i].age >= 18 && self.party[j].age >= 18
                            && self.party[i].sex == crate::health::Sex::Female && self.party[j].sex == crate::health::Sex::Male {
                            assert(self.party@[i as int].alive && self.party@[j as int].alive);
                            return true;
                        }
                        j = j + 1;
                    }
                    i = i + 1;
                }
                false
            }

    pub(crate) fn all_match(&self, cs: &Vec<Condition>) -> (r: bool)
        requires
            1 <= self.departure_month <= 12,
            self.eras_in_range(),
        ensures
            r == all_hold(*self, cs@),
    {
        let mut i: usize = 0;
        while i < cs.len()
            invariant
                i <= cs@.len(),
                1 <= self.departure_month <= 12,
                self.eras_in_range(),
                forall|j: int| 0 <= j < i ==> holds(*self, #[trigger] cs@[j]),
            decreases cs@.len() - i,
        {
            if !self.matches(&cs[i]) {
                return false;
            }
            i = i + 1;
        }
        true
    }
}


// ---------------------------------------------------------------------------------------
// Days in camp.

/// `a + b` for bytes, or 255 when that overflows.
pub open spec fn sat_add8(a: u8, b: u8) -> u8 {
    if a + b > 255 { 255 } else { (a + b) as u8 }
}

/// `a - b` for bytes, or zero when that underflows.
pub open spec fn sat_sub8(a: u8, b: u8) -> u8 {
    if a >= b { (a - b) as u8 } else { 0 }
}

/// Daily damage of the ailment `id`; nothing for an unknown ailment.
pub open spec fn ailment_damage(defs: Seq<AilmentDefinition>, id: Seq<char>) -> u8 {
    match find_first(defs, ailment_named(id)) {
        Some(i) => defs[i].daily_damage,
        None => 0,
    }
}

/// Total daily damage of a member's ailments, saturating at 255.
pub open spec fn damage_of(defs: Seq<AilmentDefinition>, ids: Seq<String>) -> u8
    decreases ids.len(),
{
    if ids.len() == 0 {
        0
    } else {
        sat_add8(damage_of(defs, ids.drop_last()), ailment_damage(defs, ids.last()@))
    }
}

/// Pounds of food one traveler eats a day at a ration level.
pub open spec fn ration_lbs(r: RationLevel) -> u32 {
    match r {
        RationLevel::Filling => 3,
        RationLevel::Meager => 2,
        RationLevel::BareBones => 1,
    }
}

/// Each living traveler eats 3 lb a day on filling rations, 2 on meager and 1 on bare
/// bones; the dead eat nothing, and leaner rations never need more food.
pub proof fn law_rations(s: GameState)
    ensures
        ration_lbs(RationLevel::Filling) == 3,
        ration_lbs(RationLevel::Meager) == 2,
        ration_lbs(RationLevel::BareBones) == 1,
        alive_count(s.party@) * 3 <= u32::MAX ==> (GameState { rations: RationLevel::Filling, ..s }).food_need() == alive_count(s.party@) * 3,
        (GameState { rations: RationLevel::BareBones, ..s }).food_need() <= (GameState { rations: RationLevel::Meager, ..s }).food_need(),
        (GameState { rations: RationLevel::Meager, ..s }).food_need() <= (GameState { rations: RationLevel::Filling, ..s }).food_need(),
{
    let n = alive_count(s.party@);
    assert(n * 1 <= n * 2 <= n * 3) by (nonlinear_arith);
}

/// One member's day in camp: ailments first (which may kill), then hunger costs five
/// health, and a full meal on a rest day restores five, up to a hundred.
pub open spec fn camp_member(before: PartyMember, after: PartyMember, damage: u8, starving: bool, restored: bool) -> bool {
    if !before.alive {
        after == before
    } else {
        let h1 = sat_sub8(before.health, damage);
        if h1 == 0 {
            after == (PartyMember { health: 0, alive: false, ..before })
        } else {
            let h2 = if starving { sat_sub8(h1, 5) } else { h1 };
            let h3: u8 = if restored { if h2 + 5 > 100 { 100 } else { (h2 + 5) as u8 } } else { h2 };
            after == (PartyMember { health: h3, alive: h3 > 0, ..before })
        }
    }
}

/// `out` holds no rejection.
pub open spec fn no_rejection(out: Seq<Outcome>) -> bool {
    forall|k: int| 0 <= k < out.len() ==> !(#[trigger] out[k] is Rejected)
}

/// `b` extends `a` with outcomes that are not rejections.
pub open spec fn extends(a: Seq<Outcome>, b: Seq<Outcome>) -> bool {
    &&& b.len() >= a.len()
    &&& b.subrange(0, a.len() as int) == a
    &&& no_rejection(a) ==> no_rejection(b)
}

/// What any step of the journey keeps: the party's size, names and deaths, a sound party,
/// the calendar's direction, the distance along the current leg, the random source, the
/// content and the setup, and non-negative cash.
pub open spec fn progressed(a: GameState, b: GameState) -> bool {
    &&& b.party@.len() == a.party@.len()
    &&& forall|i: int| 0 <= i < a.party@.len() ==> (!(#[trigger] a.party@[i]).alive ==> !b.party@[i].alive) && b.party@[i].name == a.party@[i].name
    &&& sound_party(a.party@) ==> sound_party(b.party@)
    &&& b.day >= a.day
    &&& a.miles <= b.miles <= a.miles + a.route_miles_remaining
    &&& b.rng.wf()
    &&& b.rng.master() == a.rng.master()
    &&& b.content == a.content
    &&& b.departure_month == a.departure_month
    &&& b.era_id == a.era_id
    &&& b.trail_id == a.trail_id
    &&& b.occupation_id == a.occupation_id
    &&& a.cash_cents >= 0 ==> b.cash_cents >= 0
}

pub proof fn lemma_progressed_trans(a: GameState, b: GameState, c: GameState)
    requires
        progressed(a, b),
        progressed(b, c),
        b.miles + b.route_miles_remaining <= a.miles + a.route_miles_remaining,
    ensures
        progressed(a, c),
{
    assert forall|i: int| 0 <= i < a.party@.len() implies (!(#[trigger] a.party@[i]).alive ==> !c.party@[i].alive) && c.party@[i].name == a.party@[i].name by {
        assert(!b.party@[i].alive ==> !c.party@[i].alive);
    }
}

pub proof fn lemma_progressed_refl(a: GameState)
    requires
        a.rng.wf(),
    ensures
        progressed(a, a),
{
}

pub(crate) fn ration_of(r: RationLevel) -> (n: u32)
    ensures
        n == ration_lbs(r),
{
    match r {
        RationLevel::Filling => 3,
        RationLevel::Meager => 2,
        RationLevel::BareBones => 1,
    }
}

pub(crate) fn damage_for(defs: &Vec<AilmentDefinition>, ids: &Vec<String>) -> (r: u8)
    ensures
        r == damage_of(defs@, ids@),
{
    let mut total: u8 = 0;
    let mut k: usize = 0;
    while k < ids.len()
        invariant
            k <= ids@.len(),
            total == damage_of(defs@, ids@.subrange(0, k as int)),
        decreases ids@.len() - k,
    {
        let d: u8 = match find_ailment(defs, ids[k].as_str()) {
            Some(i) => {
                proof { lemma_first_facts(defs@, ailment_named(ids@[k as int]@)); }
                defs[i].daily_damage
            },
            None => 0,
        };
        assert(ids@.subrange(0, (k + 1) as int).drop_last() =~= ids@.subrange(0, k as int));
        total = total.saturating_add(d);
        k = k + 1;
    }
    assert(ids@.subrange(0, ids@.len() as int) =~= ids@);
    total
}

/// The weather a camp day's roll `k` in `0..8` gives: rain, storm, cold, warm, hot, or
/// clear for the last three.
pub open spec fn rolled_weather(k: int) -> WeatherKind {
    if k == 0 {
        WeatherKind::Rain
    } else if k == 1 {
        WeatherKind::Storm
    } else if k == 2 {
        WeatherKind::Cold
    } else if k == 3 {
        WeatherKind::Warm
    } else if k == 4 {
        WeatherKind::Hot
    } else {
        WeatherKind::Clear
    }
}

/// A day in camp took `a` to `b` and the log `oa` to `ob`: nothing moves and nothing
/// is scheduled; unless the journey had failed, a day passes, the party eats what food
/// there is, each traveler fares as a camp day allows (resting helps when fully fed),
/// and the journey fails when no one is left alive.
pub open spec fn camp_day(a: GameState, b: GameState, oa: Seq<Outcome>, ob: Seq<Outcome>, resting: bool) -> bool {
    &&& extends(oa, ob)
    &&& progressed(a, b)
    &&& b.miles == a.miles
    &&& b.route_miles_remaining == a.route_miles_remaining
    &&& b.target_node_id == a.target_node_id
    &&& b.current_node_id == a.current_node_id
    &&& b.pending_event == a.pending_event
    &&& b.scheduled_events == a.scheduled_events
    &&& b.flags == a.flags
    &&& a.status is Failed ==> b == a && ob == oa
    &&& !(a.status is Failed) ==> {
        let need = a.food_need();
        let have = held(a.inventory, "food"@);
        let eaten = if have < need { have } else { need };
        &&& b.day == sat_add(a.day, 1)
        &&& b.inventory.quantities.map() == a.inventory.quantities.map().insert("food"@, (have - eaten) as u32)
        &&& forall|i: int| #![trigger b.party@[i]] 0 <= i < a.party@.len() ==> camp_member(a.party@[i], b.party@[i],
            damage_of(a.content.ailments@, a.party@[i].ailments@), eaten < need, resting && eaten == need)
        &&& b.status == if alive_count(b.party@) == 0 { RunStatus::Failed } else { a.status }
        &&& b.cash_cents == a.cash_cents
        &&& b == (GameState { day: b.day, weather: b.weather, rng: b.rng, inventory: b.inventory, party: b.party,
                status: b.status, ..a })
        &&& b.party@.len() == a.party@.len()
        &&& camp_weather_drawn(a, b)
    }
}

/// The weather of a day in camp from `a` to `b`: one of eight kinds, drawn from the
/// "weather" stream, the only stream that moves.
pub open spec fn camp_weather_drawn(a: GameState, b: GameState) -> bool {
    let p = a.rng.position("weather"@);
    let r = chacha_below_draw(p.0, p.1, p.2, 8);
    b.weather == rolled_weather(r.0 as int) && moved_only(a.rng, b.rng, "weather"@, advanced(p, r.1))
}

impl GameState {
    /// Food the living party needs for one day.
    pub open spec fn food_need(self) -> u32 {
        let n = alive_count(self.party@) * ration_lbs(self.rations);
        if n > u32::MAX { u32::MAX } else { n as u32 }
    }

    pub(crate) fn food_needed(&self) -> (r: u32)
        ensures
            r == self.food_need(),
    {
        let alive = living(&self.party);
        let ration = ration_of(self.rations);
        if alive as u128 * ration as u128 > u32::MAX as u128 { u32::MAX } else { (alive * ration as usize) as u32 }
    }

    /// One weather roll for a day spent in camp.
    pub(crate) fn weather_roll(&mut self) -> (r: WeatherKind)
        requires
            old(self).rng.wf(),
        ensures
            *final(self) == (GameState { rng: final(self).rng, ..*old(self) }),
            final(self).rng.wf(),
            final(self).rng.master() == old(self).rng.master(),
            exists|k: int| 0 <= k < 8 && r == rolled_weather(k),
            r == rolled_weather(chacha_below_draw(old(self).rng.position("weather"@).0, old(self).rng.position("weather"@).1,
                old(self).rng.position("weather"@).2, 8).0 as int),
            moved_only(old(self).rng, final(self).rng, "weather"@, advanced(old(self).rng.position("weather"@),
                chacha_below_draw(old(self).rng.position("weather"@).0, old(self).rng.position("weather"@).1,
                old(self).rng.position("weather"@).2, 8).1)),
            final(self).rng.has_stream("weather"@),
            forall|n: Seq<char>| n != "weather"@ && old(self).rng.has_stream(n)
                ==> #[trigger] final(self).rng.stream_state(n) == old(self).rng.stream_state(n),
    {
        let roll = self.rng.roll("weather", 8);
        let w = if roll == 0 {
            WeatherKind::Rain
        } else if roll == 1 {
            WeatherKind::Storm
        } else if roll == 2 {
            WeatherKind::Cold
        } else if roll == 3 {
            WeatherKind::Warm
        } else if roll == 4 {
            WeatherKind::Hot
        } else {
            WeatherKind::Clear
        };
        assert(w == rolled_weather(roll as int));
        w
    }

    /// A day spent in camp: the calendar advances, the weather changes, the party eats,
    /// and ailments, hunger and rest act on every living member.
    pub(crate) fn pass_camp_day(&mut self, out: &mut Vec<Outcome>, resting: bool)
        requires
            old(self).rng.wf(),
        ensures
            camp_day(*old(self), *final(self), old(out)@, final(out)@, resting),
    {
        if matches!(self.status, RunStatus::Failed) {
            assert(out@.subrange(0, out@.len() as int) =~= out@);
            return;
        }
        let ghost start = *self;
        let ghost start_out = out@;
        assert(out@.subrange(0, out@.len() as int) =~= out@);
        self.day = self.day.saturating_add(1);
        let w = self.weather_roll();
        self.weather = w;
        let required = self.food_needed();
        let eaten = self.inventory.take("food", required);
        let ghost fed = *self;
        let mut i: usize = 0;
        while i < self.party.len()
            invariant
                i <= self.party@.len(),
                self.party@.len() == start.party@.len(),
                *self == (GameState { party: self.party, ..fed }),
                fed.party == start.party,
                fed.content == start.content,
                forall|j: int| i <= j < self.party@.len() ==> #[trigger] self.party@[j] == start.party@[j],
                forall|j: int| #![trigger self.party@[j]] 0 <= j < i ==> camp_member(start.party@[j], self.party@[j],
                    damage_of(start.content.ailments@, start.party@[j].ailments@), eaten < required, resting && eaten == required),
                extends(start_out, out@),
            decreases self.party@.len() - i,
        {
            if self.party[i].alive {
                let damage = damage_for(&self.content.ailments, &self.party[i].ailments);
                let died = advance(&mut self.party[i], damage);
                if died {
                    let name = self.party[i].name.clone();
                    let ghost before = out@;
                    out.push(Outcome::MemberDied { name });
                    assert(out@.subrange(0, start_out.len() as int) =~= before.subrange(0, start_out.len() as int));
                } else {
                    let mut h = self.party[i].health;
                    if eaten < required {
                        h = h.saturating_sub(5);
                    }
                    if resting && eaten == required {
                        h = if h > 95 { 100 } else { if h + 5 > 100 { 100 } else { h + 5 } };
                    }
                    self.party[i].health = h;
                    if h == 0 {
                        self.party[i].alive = false;
                        let name = self.party[i].name.clone();
                        let ghost before = out@;
                        out.push(Outcome::MemberDied { name });
                        assert(out@.subrange(0, start_out.len() as int) =~= before.subrange(0, start_out.len() as int));
                    }
                }
            }
            i = i + 1;
        }
        if living(&self.party) == 0 {
            self.status = RunStatus::Failed;
        }
        proof {
            assert forall|j: int| 0 <= j < start.party@.len() implies (!(#[trigger] start.party@[j]).alive ==> !self.party@[j].alive) && self.party@[j].name == start.party@[j].name by {
                assert(camp_member(start.party@[j], self.party@[j], damage_of(start.content.ailments@, start.party@[j].ailments@), eaten < required, resting && eaten == required));
            }
            if sound_party(start.party@) {
                assert forall|j: int| 0 <= j < self.party@.len() implies {
                    &&& (#[trigger] self.party@[j]).health <= 100
                    &&& self.party@[j].alive ==> self.party@[j].health > 0
                    &&& 0 <= self.party@[j].morale <= 100
                } by {
                    assert(camp_member(start.party@[j], self.party@[j], damage_of(start.content.ailments@, start.party@[j].ailments@), eaten < required, resting && eaten == required));
                }
            }
        }
    }
}

} // verus!
