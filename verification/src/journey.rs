//! Travel along the trail: arriving at landmarks, the day's march, and the score.

use vstd::prelude::*;
use crate::content::{LandmarkDefinition, LandmarkKind, TrailDefinition};
use crate::events::{event_drawn, lemma_extends_refl, lemma_extends_push, lemma_extends_trans, effects_kept, steps_kept, lemma_steps_trans,
    due_done, event_done};
use crate::health::{advance, PartyMember};
use crate::lookup::{find_first, lemma_first_facts};
use crate::score::{calculate, score_of};
use crate::weather::{ClimateZone, WeatherState, penalty};
use crate::rng::moved_only;
use crate::state::{GameState, Outcome, RunStatus, Pace, CommandError, extends, progressed, sound_party,
    trail_named, node_named, occupation_named, find_trail, find_node, find_occupation, held, sat_add,
    alive_count, living, damage_of, damage_for, sat_sub8, names_text};

verus! {

// ---------------------------------------------------------------------------------------
// Score.

/// Score multiplier of the selected occupation, in thousandths; one when none is known.
pub open spec fn multiplier_of(s: GameState) -> u32 {
    match s.occupation_id {
        Some(o) => match find_first(s.content.occupations@, occupation_named(o@)) {
            Some(i) => s.content.occupations@[i].score_multiplier_milli,
            None => 1000,
        },
        None => 1000,
    }
}

/// The journey's score now.
pub open spec fn score_now(s: GameState) -> nat {
    score_of(s.party@, s.cash_cents, s.inventory.quantities.rows(), multiplier_of(s))
}

impl GameState {
    /// The journey's score: surviving travelers, goods and cash, scaled by the occupation.
    pub fn score(&self) -> (r: u32)
        ensures
            r as nat == score_now(*self),
    {
        let mut milli: u32 = 1000;
        match &self.occupation_id {
            Some(o) => match find_occupation(&self.content.occupations, o.as_str()) {
                Some(i) => {
                    proof { lemma_first_facts(self.content.occupations@, occupation_named(o@)); }
                    milli = self.content.occupations[i].score_multiplier_milli;
                },
                None => {},
            },
            None => {},
        }
        calculate(&self.party, self.cash_cents, &self.inventory.quantities, milli)
    }
}

// ---------------------------------------------------------------------------------------
// Arriving at landmarks.

/// The selected trail, when it is known.
pub open spec fn trail_of(s: GameState) -> Option<TrailDefinition> {
    match s.trail_pos() {
        Some(ti) => Some(s.content.trails@[ti]),
        None => None,
    }
}

/// The landmark with id `t` on the selected trail, when there is one.
pub open spec fn node_on_trail(s: GameState, t: Seq<char>) -> Option<LandmarkDefinition> {
    match trail_of(s) {
        Some(tr) => match find_first(tr.nodes@, node_named(t)) {
            Some(ni) => Some(tr.nodes@[ni]),
            None => None,
        },
        None => None,
    }
}

/// Whether `n` is the goal of the selected trail.
pub open spec fn is_goal(s: GameState, n: LandmarkDefinition) -> bool {
    match trail_of(s) {
        Some(tr) => tr.goal_node_id@ == n.id@,
        None => false,
    }
}

/// The status on reaching landmark `n`: a choice of routes at a fork (or a finale with
/// several routes), a crossing at a river, arrival at the goal, or a stop otherwise.
pub open spec fn status_on_reaching(s: GameState, n: LandmarkDefinition) -> RunStatus {
    if (n.kind == LandmarkKind::Fork || n.kind == LandmarkKind::Finale) && n.routes@.len() > 1 {
        RunStatus::AwaitingFork(n.id)
    } else if n.kind == LandmarkKind::River {
        RunStatus::AwaitingRiver(n.id)
    } else if n.kind == LandmarkKind::Finale && is_goal(s, n) {
        RunStatus::Arrived
    } else {
        RunStatus::AtLandmark(n.id)
    }
}

/// The outcomes announced on reaching landmark `n`.
pub open spec fn outcomes_on_reaching(s: GameState, n: LandmarkDefinition) -> Seq<Outcome> {
    match status_on_reaching(s, n) {
        RunStatus::AwaitingFork(_) => seq![Outcome::ForkAvailable { landmark_id: n.id }],
        RunStatus::AwaitingRiver(_) => seq![Outcome::RiverCrossingRequired { landmark_id: n.id }],
        RunStatus::Arrived => seq![Outcome::ArrivedAt { landmark_id: n.id }, Outcome::Score { points: score_now(s) as u32 }],
        _ => seq![Outcome::ArrivedAt { landmark_id: n.id }],
    }
}

/// What reaching the end of the current leg does to state `a` and log `oa`.
pub open spec fn landmark_done(a: GameState, b: GameState, oa: Seq<Outcome>, ob: Seq<Outcome>) -> bool {
    if a.route_miles_remaining != 0 || a.target_node_id is None {
        b == a && ob == oa
    } else {
        let t = a.target_node_id->0;
        match node_on_trail(a, t@) {
            None => b == (GameState { target_node_id: None, ..a }) && ob == oa,
            Some(n) => if names_text(a.current_node_id, n.id@) {
                b == (GameState { target_node_id: None, ..a }) && ob == oa
            } else {
                b == (GameState {
                    target_node_id: None,
                    current_node_id: Some(n.id),
                    status: status_on_reaching(a, n),
                    ..a
                }) && ob == oa + outcomes_on_reaching(a, n)
            },
        }
    }
}

impl GameState {
    /// Positions of the selected trail and of landmark `t` on it.
    fn locate(&self, t: &str) -> (r: Option<(usize, usize)>)
        ensures
            match r {
                Some((ti, ni)) => self.trail_pos() == Some(ti as int) && ti < self.content.trails@.len()
                    && find_first(self.content.trails@[ti as int].nodes@, node_named(t@)) == Some(ni as int)
                    && ni < self.content.trails@[ti as int].nodes@.len()
                    && node_on_trail(*self, t@) == Some(self.content.trails@[ti as int].nodes@[ni as int]),
                None => node_on_trail(*self, t@) is None,
            },
    {
        let tid = match &self.trail_id {
            Some(x) => x,
            None => return None,
        };
        let ti = match find_trail(&self.content.trails, tid.as_str()) {
            Some(ti) => ti,
            None => return None,
        };
        proof { lemma_first_facts(self.content.trails@, trail_named(tid@)); }
        match find_node(&self.content.trails[ti].nodes, t) {
            Some(ni) => {
                proof { lemma_first_facts(self.content.trails@[ti as int].nodes@, node_named(t@)); }
                Some((ti, ni))
            },
            None => None,
        }
    }

    /// At the end of a leg, moves onto its landmark and announces what waits there.
    #[verifier::rlimit(40)]
    pub(crate) fn landmark(&mut self, out: &mut Vec<Outcome>)
        ensures
            landmark_done(*old(self), *final(self), old(out)@, final(out)@),
    {
        if self.route_miles_remaining != 0 {
            return;
        }
        let target = match self.target_node_id.take() {
            Some(t) => t,
            None => return,
        };
        let ghost a = GameState { target_node_id: Some(target), ..*self };
        let (ti, ni) = match self.locate(target.as_str()) {
            Some(p) => p,
            None => return,
        };
        let here = match &self.current_node_id {
            Some(c) => crate::text::same(c.as_str(), self.content.trails[ti].nodes[ni].id.as_str()),
            None => false,
        };
        if here {
            return;
        }
        let id = self.content.trails[ti].nodes[ni].id.clone();
        let kind = self.content.trails[ti].nodes[ni].kind;
        let forks = self.content.trails[ti].nodes[ni].routes.len() > 1;
        let goal = crate::text::same(self.content.trails[ti].goal_node_id.as_str(), id.as_str());
        proof { lemma_first_facts(self.content.trails@, trail_named(self.trail_id->0@)); }
        let ghost n = self.content.trails@[ti as int].nodes@[ni as int];
        assert(is_goal(a, n) == goal);
        self.current_node_id = Some(id.clone());
        let ghost before = out@;
        if (kind == LandmarkKind::Fork || kind == LandmarkKind::Finale) && forks {
            self.status = RunStatus::AwaitingFork(id.clone());
            out.push(Outcome::ForkAvailable { landmark_id: id });
        } else if kind == LandmarkKind::River {
            self.status = RunStatus::AwaitingRiver(id.clone());
            out.push(Outcome::RiverCrossingRequired { landmark_id: id });
        } else if kind == LandmarkKind::Finale && goal {
            self.status = RunStatus::Arrived;
            out.push(Outcome::ArrivedAt { landmark_id: id });
            let points = self.score();
            out.push(Outcome::Score { points });
        } else {
            self.status = RunStatus::AtLandmark(id.clone());
            out.push(Outcome::ArrivedAt { landmark_id: id });
        }
        assert(out@ =~= before + outcomes_on_reaching(a, n));
    }
}


// ---------------------------------------------------------------------------------------
// A day on the trail.

/// Miles a day at each pace, before penalties.
pub open spec fn pace_miles(p: Pace) -> u32 {
    match p {
        Pace::Steady => 15,
        Pace::Strenuous => 20,
        Pace::Grueling => 25,
    }
}

/// Fatigue the oxen gain in a day at each pace.
pub open spec fn pace_strain(p: Pace) -> u8 {
    match p {
        Pace::Steady => 2,
        Pace::Strenuous => 5,
        Pace::Grueling => 9,
    }
}

/// Total morale of the living members.
pub open spec fn morale_total(party: Seq<PartyMember>) -> int
    decreases party.len(),
{
    if party.len() == 0 {
        0
    } else {
        morale_total(party.drop_last()) + if party.last().alive { party.last().morale as int } else { 0 }
    }
}

/// `a / b` rounded toward zero, for positive `b`.
pub open spec fn div_trunc(a: int, b: int) -> int {
    if a >= 0 { a / b } else { -((-a) / b) }
}

/// Three miles are lost when the living members' average morale is below 25.
pub open spec fn morale_drag(party: Seq<PartyMember>) -> u32 {
    let n = alive_count(party);
    let d: int = if n == 0 { 1 } else { n as int };
    if div_trunc(morale_total(party), d) < 25 { 3 } else { 0 }
}

/// Miles covered today from state `s`: the pace's miles less the weather and terrain,
/// morale, overload (a mile per 200 lbs above 2,000) and ox fatigue (a mile per 20
/// points), never below zero and never past the end of the leg.
pub open spec fn distance_today(s: GameState) -> u32 {
    let drag = penalty(s.weather_state.kind, s.terrain_here()) + morale_drag(s.party@)
        + (if s.load() > 2000 { (s.load() - 2000) / 200 } else { 0 }) + s.ox_fatigue / 20;
    let m = if pace_miles(s.pace) >= drag { pace_miles(s.pace) - drag } else { 0 };
    if m < s.route_miles_remaining { m as u32 } else { s.route_miles_remaining }
}

/// On a day with nothing to slow the wagon (no weather or terrain penalty, morale above
/// the drag, load within 2,000 lb, fresh oxen) and at least 25 miles left on the leg, a
/// day covers 15 miles at a steady pace, 20 strenuous and 25 grueling.
pub proof fn law_pace_sets_a_clear_day(s: GameState)
    requires
        penalty(s.weather_state.kind, s.terrain_here()) == 0,
        morale_drag(s.party@) == 0,
        s.load() <= 2000,
        s.ox_fatigue < 20,
        s.route_miles_remaining >= 25,
    ensures
        s.pace == Pace::Steady ==> distance_today(s) == 15,
        s.pace == Pace::Strenuous ==> distance_today(s) == 20,
        s.pace == Pace::Grueling ==> distance_today(s) == 25,
{
}

/// Under the same conditions a harder pace never covers fewer miles: steady is at most
/// strenuous, and strenuous at most grueling.
pub proof fn law_faster_pace_goes_no_shorter(s: GameState)
    ensures
        distance_today(GameState { pace: Pace::Steady, ..s }) <= distance_today(GameState { pace: Pace::Strenuous, ..s }),
        distance_today(GameState { pace: Pace::Strenuous, ..s }) <= distance_today(GameState { pace: Pace::Grueling, ..s }),
{
}

/// Every burden slows the wagon: a worse weather and terrain penalty, a heavier load,
/// more tired oxen or a party that has lost heart never covers more miles, and a day never
/// goes past the end of the leg.
pub proof fn law_burdens_never_speed_the_wagon(s: GameState, t: GameState)
    requires
        t.pace == s.pace,
        t.route_miles_remaining == s.route_miles_remaining,
        penalty(t.weather_state.kind, t.terrain_here()) >= penalty(s.weather_state.kind, s.terrain_here()),
        morale_drag(t.party@) >= morale_drag(s.party@),
        t.load() >= s.load(),
        t.ox_fatigue >= s.ox_fatigue,
    ensures
        distance_today(t) <= distance_today(s),
        distance_today(s) <= s.route_miles_remaining,
{
    assert(t.ox_fatigue / 20 >= s.ox_fatigue / 20) by (nonlinear_arith) requires t.ox_fatigue >= s.ox_fatigue;
    if t.load() > 2000 && s.load() > 2000 {
        assert((t.load() - 2000) / 200 >= (s.load() - 2000) / 200) by (nonlinear_arith) requires t.load() >= s.load(), s.load() > 2000;
    }
}

/// A day's march tires the oxen by 2, 5 or 9 points at a steady, strenuous or grueling
/// pace, up to 100, and moves the wagon on by the day's distance.
pub proof fn law_march_tires_the_oxen(w: GameState, b: GameState)
    requires
        marched(w, b),
    ensures
        w.pace == Pace::Steady ==> b.ox_fatigue == if w.ox_fatigue + 2 > 100 { 100 } else { w.ox_fatigue + 2 },
        w.pace == Pace::Strenuous ==> b.ox_fatigue == if w.ox_fatigue + 5 > 100 { 100 } else { w.ox_fatigue + 5 },
        w.pace == Pace::Grueling ==> b.ox_fatigue == if w.ox_fatigue + 9 > 100 { 100 } else { w.ox_fatigue + 9 },
        b.ox_fatigue >= w.ox_fatigue || w.ox_fatigue > 100,
        b.miles >= w.miles,
        b.miles + b.route_miles_remaining == w.miles + w.route_miles_remaining || b.miles == u32::MAX,
{
}

/// On the trail a living member who is not killed by ailments loses eight health to
/// hunger when the party goes short, nothing otherwise; the dead are left as they were.
pub proof fn law_hunger_on_the_trail(before: PartyMember, after: PartyMember, damage: u8, starving: bool)
    requires
        trail_member(before, after, damage, starving),
    ensures
        !before.alive ==> after == before,
        before.alive && before.health > damage && starving ==> after.health == if before.health - damage > 8 { before.health - damage - 8 } else { 0 },
        before.alive && before.health > damage && !starving ==> after.health == before.health - damage && after.alive,
        after.health <= before.health,
        !before.alive ==> !after.alive,
{
}

/// One member's toll on the trail: ailments first (which may kill), then hunger costs
/// eight health.
pub open spec fn trail_member(before: PartyMember, after: PartyMember, damage: u8, starving: bool) -> bool {
    if !before.alive {
        after == before
    } else {
        let h1 = sat_sub8(before.health, damage);
        if h1 == 0 {
            after == (PartyMember { health: 0, alive: false, ..before })
        } else {
            let h2 = if starving { sat_sub8(h1, 8) } else { h1 };
            after == (PartyMember { health: h2, alive: h2 > 0, ..before })
        }
    }
}

/// State `w` is state `a` after today's weather, meals and toll.
pub open spec fn weathered_and_fed(a: GameState, w: GameState) -> bool {
    let need = a.food_need();
    let have = held(a.inventory, "food"@);
    let eaten = if have < need { have } else { need };
    &&& w == (GameState { rng: w.rng, weather_state: w.weather_state, weather: w.weather_state.kind,
            inventory: w.inventory, party: w.party, ..a })
    &&& w.rng.wf()
    &&& w.rng.master() == a.rng.master()
    &&& (a.weather_state.days_remaining > 1 ==> w.weather_state == (WeatherState {
            days_remaining: (a.weather_state.days_remaining - 1) as u8, ..a.weather_state }) && w.rng == a.rng)
    &&& (a.weather_state.days_remaining <= 1 ==> w.weather_state.rolled(ClimateZone::Temperate, a.season()))
    &&& (a.weather_state.days_remaining <= 1 ==> {
            let d = WeatherState::drawn(ClimateZone::Temperate, a.season(), a.rng.position("weather"@));
            w.weather_state == d.0 && moved_only(a.rng, w.rng, "weather"@, d.1)
        })
    &&& w.inventory.quantities.map() == a.inventory.quantities.map().insert("food"@, (have - eaten) as u32)
    &&& w.party@.len() == a.party@.len()
    &&& forall|i: int| #![trigger w.party@[i]] 0 <= i < a.party@.len() ==> trail_member(a.party@[i], w.party@[i],
            damage_of(a.content.ailments@, a.party@[i].ailments@), eaten < need)
}

/// The march from state `w`: the wagon covers the day's distance and the oxen tire.
pub open spec fn marched(w: GameState, b: GameState) -> bool {
    let d = distance_today(w);
    let f = w.ox_fatigue + pace_strain(w.pace);
    b == (GameState {
        miles: if w.miles + d > u32::MAX { u32::MAX } else { (w.miles + d) as u32 },
        route_miles_remaining: (w.route_miles_remaining - d) as u32,
        ox_fatigue: if f > 100 { 100 } else { f as u8 },
        ..w
    })
}

impl GameState {
    fn morale_drag_now(&self) -> (r: u32)
        ensures
            r == morale_drag(self.party@),
    {
        let mut total: i128 = 0;
        let mut i: usize = 0;
        while i < self.party.len()
            invariant
                i <= self.party@.len(),
                total == morale_total(self.party@.subrange(0, i as int)),
                -32768 * i <= total <= 32767 * i,
            decreases self.party@.len() - i,
        {
            assert(self.party@.subrange(0, (i + 1) as int).drop_last() =~= self.party@.subrange(0, i as int));
            if self.party[i].alive {
                total = total + self.party[i].morale as i128;
            }
            i = i + 1;
        }
        assert(self.party@.subrange(0, self.party@.len() as int) =~= self.party@);
        let n = living(&self.party);
        let d: u128 = if n == 0 { 1 } else { n as u128 };
        let avg: i128 = if total >= 0 { (total as u128 / d) as i128 } else { -(((-total) as u128 / d) as i128) };
        if avg < 25 { 3 } else { 0 }
    }

    /// Miles the wagon covers today.
    fn distance_now(&self) -> (r: u32)
        ensures
            r == distance_today(*self),
    {
        let terrain = self.terrain();
        let load = self.weight();
        let overload: u32 = if load > 2000 { (load - 2000) / 200 } else { 0 };
        let drag: u32 = self.weather_state.travel_penalty(terrain) + self.morale_drag_now() + overload
            + (self.ox_fatigue / 20) as u32;
        let base: u32 = match self.pace {
            Pace::Steady => 15,
            Pace::Strenuous => 20,
            Pace::Grueling => 25,
        };
        let m = base.saturating_sub(drag);
        if m < self.route_miles_remaining { m } else { self.route_miles_remaining }
    }

    /// Today's weather, meals and the toll of ailments and hunger on the trail.
    fn trail_toll(&mut self, out: &mut Vec<Outcome>)
        requires
            old(self).ready(),
        ensures
            weathered_and_fed(*old(self), *final(self)),
            extends(old(out)@, final(out)@),
    {
        let ghost a = *self;
        proof { lemma_extends_refl(out@); }
        let season = self.season_now();
        self.weather_state.advance(&mut self.rng, season);
        self.weather = self.weather_state.kind;
        let required = self.food_needed();
        let eaten = self.inventory.take("food", required);
        let starving = eaten < required;
        let ghost fed = *self;
        let n = self.party.len();
        let mut damages: Vec<u8> = Vec::new();
        let mut i: usize = 0;
        while i < n
            invariant
                i <= n,
                n == self.party@.len(),
                *self == fed,
                damages@.len() == i,
                forall|j: int| 0 <= j < i ==> #[trigger] damages@[j] == damage_of(fed.content.ailments@, fed.party@[j].ailments@),
            decreases n - i,
        {
            damages.push(damage_for(&self.content.ailments, &self.party[i].ailments));
            i = i + 1;
        }
        let mut i: usize = 0;
        while i < n
            invariant
                i <= n,
                n == self.party@.len(),
                n == fed.party@.len(),
                damages@.len() == n,
                *self == (GameState { party: self.party, ..fed }),
                forall|j: int| 0 <= j < n ==> #[trigger] damages@[j] == damage_of(fed.content.ailments@, fed.party@[j].ailments@),
                forall|j: int| i <= j < n ==> #[trigger] self.party@[j] == fed.party@[j],
                forall|j: int| #![trigger self.party@[j]] 0 <= j < i ==> trail_member(fed.party@[j], self.party@[j], damages@[j], false),
                extends(old(out)@, out@),
            decreases n - i,
        {
            let died = advance(&mut self.party[i], damages[i]);
            if died {
                let name = self.party[i].name.clone();
                let ghost before = out@;
                out.push(Outcome::MemberDied { name });
                proof { lemma_extends_push(old(out)@, before, out@.last()); }
            }
            i = i + 1;
        }
        let ghost hurt = *self;
        if starving {
            let mut i: usize = 0;
            while i < n
                invariant
                    i <= n,
                    n == self.party@.len(),
                    *self == (GameState { party: self.party, ..hurt }),
                    forall|j: int| i <= j < n ==> #[trigger] self.party@[j] == hurt.party@[j],
                    forall|j: int| 0 <= j < i ==> #[trigger] self.party@[j] == if hurt.party@[j].alive {
                        PartyMember { health: sat_sub8(hurt.party@[j].health, 8), ..hurt.party@[j] }
                    } else {
                        hurt.party@[j]
                    },
                decreases n - i,
            {
                if self.party[i].alive {
                    self.party[i].health = self.party[i].health.saturating_sub(8);
                }
                i = i + 1;
            }
        }
        let ghost hungry = *self;
        let mut i: usize = 0;
        while i < n
            invariant
                i <= n,
                n == self.party@.len(),
                *self == (GameState { party: self.party, ..hungry }),
                forall|j: int| i <= j < n ==> #[trigger] self.party@[j] == hungry.party@[j],
                forall|j: int| 0 <= j < i ==> #[trigger] self.party@[j] == if hungry.party@[j].alive && hungry.party@[j].health == 0 {
                    PartyMember { alive: false, ..hungry.party@[j] }
                } else {
                    hungry.party@[j]
                },
                extends(old(out)@, out@),
            decreases n - i,
        {
            if self.party[i].alive && self.party[i].health == 0 {
                self.party[i].alive = false;
                let name = self.party[i].name.clone();
                let ghost before = out@;
                out.push(Outcome::MemberDied { name });
                proof { lemma_extends_push(old(out)@, before, out@.last()); }
            }
            i = i + 1;
        }
        proof {
            assert forall|j: int| #![trigger self.party@[j]] 0 <= j < a.party@.len() implies trail_member(a.party@[j], self.party@[j],
                damage_of(a.content.ailments@, a.party@[j].ailments@), eaten < required) by {
                assert(trail_member(fed.party@[j], hurt.party@[j], damages@[j], false));
            }
        }
    }
}


proof fn lemma_landmark_extends(a: GameState, b: GameState, oa: Seq<Outcome>, ob: Seq<Outcome>)
    requires
        landmark_done(a, b, oa, ob),
    ensures
        extends(oa, ob),
{
    lemma_extends_refl(oa);
    if a.route_miles_remaining == 0 && a.target_node_id is Some {
        if let Some(n) = node_on_trail(a, a.target_node_id->0@) {
            if !names_text(a.current_node_id, n.id@) {
                let extra = outcomes_on_reaching(a, n);
                assert(ob.subrange(0, oa.len() as int) =~= oa);
                assert forall|k: int| 0 <= k < ob.len() && crate::state::no_rejection(oa) implies !(#[trigger] ob[k] is Rejected) by {
                    if k >= oa.len() {
                        assert(ob[k] == extra[k - oa.len()]);
                    }
                }
            }
        }
    }
}

/// State `s` one day later.
pub open spec fn next_day(s: GameState) -> GameState {
    GameState { day: sat_add(s.day, 1), ..s }
}

/// The message when a wagon has no oxen to pull it.
pub open spec fn no_oxen_text() -> Seq<char> {
    "Your wagon cannot move without oxen."@
}

/// A day on the trail went from `a` to `b`, reporting `out`. Without oxen the journey
/// fails; otherwise the day's weather and meals come first (`w`), and when anyone is
/// left the wagon covers the day's distance (`m`) before landmarks, events and tolls,
/// which keep what every step keeps.
pub open spec fn travelled(a: GameState, b: GameState, out: Seq<Outcome>) -> bool {
    &&& held(a.inventory, "oxen"@) == 0 ==> out.len() == 1 && (out[0] matches Outcome::Message(m) && m@ == no_oxen_text())
        && b == (GameState { day: sat_add(a.day, 1), status: RunStatus::Failed, ..a })
    &&& held(a.inventory, "oxen"@) > 0 ==> exists|w: GameState| #[trigger] weathered_and_fed(next_day(a), w) && {
        &&& alive_count(w.party@) == 0 ==> b == (GameState { status: RunStatus::Failed, ..w })
        &&& alive_count(w.party@) > 0 ==> exists|m: GameState| #[trigger] marched(w, m) && {
            &&& out.contains(Outcome::DayAdvanced { day: m.day, miles: m.miles, weather: m.weather })
            &&& progressed(m, b)
            &&& b.miles == m.miles
            &&& b.route_miles_remaining == m.route_miles_remaining
            &&& (m.route_miles_remaining > 0 ==> b.status == a.status || b.status is Failed)
            &&& exists|wl: Seq<Outcome>| #[trigger] after_march(m, b, wl.push(Outcome::DayAdvanced { day: m.day, miles: m.miles, weather: m.weather }), out)
        }
    }
}

/// The rest of a day after the march, from `m` with log `ml` to `b` with log `ob`: the
/// events due; then, when none is pending, the day's event roll; then, unless the
/// journey failed, the arrival at a landmark that ends the leg.
pub open spec fn after_march(m: GameState, b: GameState, ml: Seq<Outcome>, ob: Seq<Outcome>) -> bool {
    exists|d: GameState, dl: Seq<Outcome>| #[trigger] due_done(m, d, ml, dl)
        && exists|e: GameState, el: Seq<Outcome>| #[trigger] rolled_then_arrived(d, dl, e, el, b, ob)
}

/// From `d` with log `dl`: the event roll when no event is pending, reaching `e` with
/// `el`; then, unless the journey failed, the landmark arrival, reaching `b` with `ob`.
pub open spec fn rolled_then_arrived(d: GameState, dl: Seq<Outcome>, e: GameState, el: Seq<Outcome>, b: GameState,
    ob: Seq<Outcome>) -> bool {
    &&& if d.pending_event is None { event_done(d, e, dl, el) && event_drawn(d, e, dl, el) } else { e == d && el == dl }
    &&& if e.status is Failed { b == e && ob == el } else { landmark_done(e, b, el, ob) }
}

impl GameState {
    /// One day on the trail.
    #[verifier::rlimit(80)]
    pub(crate) fn travel(&mut self) -> (r: Result<Vec<Outcome>, CommandError>)
        requires
            old(self).ready(),
        ensures
            !(old(self).status is Travelling) ==> r == Err::<Vec<Outcome>, CommandError>(CommandError::InvalidPhase)
                && *final(self) == *old(self),
            old(self).status is Travelling ==> r is Ok,
            r matches Ok(out) ==> crate::state::no_rejection(out@),
            old(self).status is Travelling ==> (r matches Ok(out) && travelled(*old(self), *final(self), out@)),
    {
        if !matches!(self.status, RunStatus::Travelling) {
            return Err(CommandError::InvalidPhase);
        }
        let ghost start = *self;
        self.day = self.day.saturating_add(1);
        let mut out: Vec<Outcome> = Vec::new();
        if self.inventory.get("oxen") == 0 {
            self.status = RunStatus::Failed;
            out.push(Outcome::Message("Your wagon cannot move without oxen.".to_owned()));
            proof { reveal_strlit("Your wagon cannot move without oxen."); }
            assert(crate::state::no_rejection(out@));
            return Ok(out);
        }
        let ghost a1 = *self;
        assert(a1 == next_day(start));
        proof { lemma_extends_refl(out@); }
        self.trail_toll(&mut out);
        let ghost w = *self;
        assert(weathered_and_fed(next_day(start), w));
        if living(&self.party) == 0 {
            self.status = RunStatus::Failed;
            assert(crate::state::no_rejection(out@)) by {
                assert(extends(Seq::<Outcome>::empty(), out@));
            }
            return Ok(out);
        }
        let moved = self.distance_now();
        let strain: u8 = match self.pace {
            Pace::Steady => 2,
            Pace::Strenuous => 5,
            Pace::Grueling => 9,
        };
        let f: u8 = self.ox_fatigue.saturating_add(strain);
        self.ox_fatigue = if f > 100 { 100 } else { f };
        self.miles = self.miles.saturating_add(moved);
        self.route_miles_remaining = self.route_miles_remaining - moved;
        let ghost m = *self;
        assert(marched(w, m));
        let ghost wl = out@;
        let ghost before = out@;
        out.push(Outcome::DayAdvanced { day: self.day, miles: self.miles, weather: self.weather });
        assert(out@[out@.len() - 1] == Outcome::DayAdvanced { day: m.day, miles: m.miles, weather: m.weather });
        proof {
            lemma_extends_push(Seq::<Outcome>::empty(), before, out@.last());
            crate::state::lemma_progressed_refl(m);
            assert(steps_kept(m, m));
        }
        let ghost logged = out@;
        assert(logged =~= wl.push(Outcome::DayAdvanced { day: m.day, miles: m.miles, weather: m.weather }));
        self.due(&mut out);
        proof {
            lemma_steps_trans(m, m, *self);
            lemma_extends_trans(Seq::<Outcome>::empty(), logged, out@);
        }
        let ghost d = *self;
        let ghost dl = out@;
        if self.pending_event.is_none() {
            proof { crate::events::lemma_kept_ready(m, *self); }
            let ghost s1 = *self;
            let ghost o1 = out@;
            self.event(&mut out);
            proof {
                lemma_steps_trans(m, s1, *self);
                lemma_extends_trans(Seq::<Outcome>::empty(), o1, out@);
                lemma_extends_trans(logged, o1, out@);
            }
        }
        let ghost s2 = *self;
        let ghost o2 = out@;
        if !matches!(self.status, RunStatus::Failed) {
            self.landmark(&mut out);
            assert(progressed(s2, *self));
            proof {
                crate::state::lemma_progressed_trans(m, s2, *self);
                lemma_landmark_extends(s2, *self, o2, out@);
                lemma_extends_trans(Seq::<Outcome>::empty(), o2, out@);
                lemma_extends_trans(logged, o2, out@);
            }
        }
        proof {
            assert(extends(Seq::<Outcome>::empty(), out@));
            assert(out@.subrange(0, logged.len() as int) == logged);
            assert(out@[logged.len() - 1] == logged[logged.len() - 1]);
            assert(out@.contains(Outcome::DayAdvanced { day: m.day, miles: m.miles, weather: m.weather }));
            assert(due_done(m, d, logged, dl));
            assert(rolled_then_arrived(d, dl, s2, o2, *self, out@));
            assert(after_march(m, *self, logged, out@));
        }
        Ok(out)
    }
}

} // verus!
