//! The single entry point: a command either changes the journey and reports outcomes,
//! or is rejected and changes nothing.

use vstd::prelude::*;
use crate::commands::{rest_refusal, route_refusal, cross_refusal, respond_refusal, treat_refusal, hunt_refusal,
    raft_refusal, just_says, rested, routed, crossed, answered, talked, treated, hunted, rafted};
use crate::journey::{weathered_and_fed, marched, next_day, trail_member, distance_today, travelled};
use crate::state::{GameState, Command, Outcome, RunStatus, CommandError, Rejection, is_rejection, is_terminal,
    is_camp, no_rejection, progressed, sound_party, held, buy_refusal, bought, configure_refusal, fresh_member, alive_count};

verus! {

/// Why command `c` would be rejected in state `s`, if it would be.
pub open spec fn command_refusal(s: GameState, c: Command) -> Option<Rejection> {
    if is_terminal(s.status) {
        Some(Rejection::Phase)
    } else if s.pending_event is Some && !(c is Respond) {
        Some(Rejection::Phase)
    } else {
        match c {
            Command::SetDifficulty(_) => if s.status is Setup { None } else { Some(Rejection::Phase) },
            Command::Configure { trail_id, era_id, occupation_id, party, departure_month } =>
                configure_refusal(s, trail_id@, era_id@, occupation_id@, party@, departure_month),
            Command::Buy { item_id, quantity } => buy_refusal(s, item_id@, quantity),
            Command::Depart => if !(s.status is Outfitting) {
                Some(Rejection::Phase)
            } else if held(s.inventory, "oxen"@) == 0 {
                Some(Rejection::Choice)
            } else if !(s.here() matches Some(n) && n.routes@.len() == 1) {
                Some(Rejection::Phase)
            } else {
                None
            },
            Command::Continue | Command::TravelDay => if s.status is AtLandmark {
                if s.here() matches Some(n) && n.routes@.len() == 1 { None } else { Some(Rejection::Phase) }
            } else if s.status is Travelling {
                None
            } else {
                Some(Rejection::Phase)
            },
            Command::SetPace(_) | Command::SetRations(_) | Command::Talk => if is_camp(s.status) { None } else { Some(Rejection::Phase) },
            Command::Rest { days } => rest_refusal(s, days),
            Command::ChooseRoute { route_id } => route_refusal(s, route_id@),
            Command::CrossRiver { method } => cross_refusal(s, method),
            Command::Respond { event_id, choice_id } => respond_refusal(s, event_id@, choice_id@),
            Command::Treat { member_index, ailment_id } => treat_refusal(s, member_index, ailment_id@),
            Command::HuntResult { food_lbs, ammo_boxes_used } => hunt_refusal(s, food_lbs, ammo_boxes_used),
            Command::RaftResult { .. } => raft_refusal(s),
        }
    }
}

/// What an accepted command is known to have done beyond what every step keeps.
pub open spec fn command_done(a: GameState, b: GameState, c: Command, out: Seq<Outcome>) -> bool {
    match c {
        Command::SetDifficulty(d) => just_says(out, "Difficulty changed"@) && b == (GameState { difficulty: d, ..a }),
        Command::SetPace(p) => just_says(out, "Pace changed"@) && b == (GameState { pace: p, ..a }),
        Command::SetRations(x) => just_says(out, "Rations changed"@) && b == (GameState { rations: x, ..a }),
        Command::Configure { trail_id, occupation_id, party, departure_month, .. } => {
            &&& out == seq![Outcome::Configured]
            &&& b.status == RunStatus::Outfitting
            &&& b.trail_id == Some(trail_id)
            &&& b.occupation_id == Some(occupation_id)
            &&& b.departure_month == departure_month
            &&& b.party@.len() == 5
            &&& forall|i: int| 0 <= i < 5 ==> #[trigger] fresh_member(b.party@[i], party@[i])
        },
        Command::Buy { item_id, quantity } => bought(a, b, item_id@, quantity, out),
        Command::Depart => out == seq![Outcome::Departed] && b == (GameState {
            target_node_id: Some(a.here()->0.routes@[0].target_id),
            route_miles_remaining: a.here()->0.routes@[0].distance_miles,
            status: RunStatus::Travelling,
            ..a
        }),
        Command::Continue | Command::TravelDay => if a.status is AtLandmark {
            just_says(out, "Leaving landmark"@) && b == (GameState {
                target_node_id: Some(a.here()->0.routes@[0].target_id),
                route_miles_remaining: a.here()->0.routes@[0].distance_miles,
                status: RunStatus::Travelling,
                ..a
            })
        } else {
            travelled(a, b, out) && b.day >= a.day && (b.day > a.day || a.day == u32::MAX)
        },
        Command::Rest { days } => rested(a, b, days, out),
        Command::ChooseRoute { route_id } => routed(a, b, route_id@, out),
        Command::CrossRiver { method } => crossed(a, b, method, out),
        Command::Respond { event_id, choice_id } => answered(a, b, event_id@, choice_id@, out),
        Command::Talk => talked(a, b, out),
        Command::Treat { member_index, ailment_id } => treated(a, b, member_index, ailment_id@, out),
        Command::HuntResult { food_lbs, ammo_boxes_used } => hunted(a, b, food_lbs, ammo_boxes_used, out),
        Command::RaftResult { cargo_lost_lbs, casualties } => rafted(a, b, cargo_lost_lbs, casualties, out),
    }
}

proof fn lemma_fed_progress(a: GameState, w: GameState)
    requires
        weathered_and_fed(a, w),
    ensures
        progressed(a, w),
{
    let need = a.food_need();
    let have = held(a.inventory, "food"@);
    let eaten = if have < need { have } else { need };
    assert forall|i: int| 0 <= i < a.party@.len() implies (!(#[trigger] a.party@[i]).alive ==> !w.party@[i].alive)
        && w.party@[i].name == a.party@[i].name by {
        assert(trail_member(a.party@[i], w.party@[i], crate::state::damage_of(a.content.ailments@, a.party@[i].ailments@), eaten < need));
    }
    if sound_party(a.party@) {
        assert forall|i: int| 0 <= i < w.party@.len() implies {
            &&& (#[trigger] w.party@[i]).health <= 100
            &&& w.party@[i].alive ==> w.party@[i].health > 0
            &&& 0 <= w.party@[i].morale <= 100
        } by {
            assert(trail_member(a.party@[i], w.party@[i], crate::state::damage_of(a.content.ailments@, a.party@[i].ailments@), eaten < need));
        }
    }
}

impl GameState {
    /// Runs a command; a rejected command changes nothing.
    #[verifier::rlimit(100)]
    pub fn try_apply(&mut self, c: Command) -> (r: Result<Vec<Outcome>, CommandError>)
        requires
            old(self).ready(),
            old(self).purse_fits(c),
        ensures
            final(self).ready(),
            is_terminal(old(self).status) ==> r == Err::<Vec<Outcome>, CommandError>(CommandError::InvalidPhase) && *final(self) == *old(self),
            match command_refusal(*old(self), c) {
                Some(why) => r matches Err(e) && is_rejection(e, why) && *final(self) == *old(self),
                None => r matches Ok(out) && no_rejection(out@) && command_done(*old(self), *final(self), c, out@)
                    && (!(c is Configure) ==> progressed(*old(self), *final(self))),
            },
            sound_party(old(self).party@) ==> sound_party(final(self).party@),
            final(self).rng.master() == old(self).rng.master(),
            final(self).content == old(self).content,
    {
        if matches!(self.status, RunStatus::Arrived | RunStatus::Failed) {
            return Err(CommandError::InvalidPhase);
        }
        if self.pending_event.is_some() && !matches!(c, Command::Respond { .. }) {
            return Err(CommandError::InvalidPhase);
        }
        let ghost a = *self;
        proof { crate::state::lemma_progressed_refl(a); }
        match c {
            Command::SetDifficulty(d) => {
                if !matches!(self.status, RunStatus::Setup) {
                    return Err(CommandError::InvalidPhase);
                }
                self.difficulty = d;
                proof { reveal_strlit("Difficulty changed"); }
                Ok(crate::commands::say("Difficulty changed"))
            },
            Command::Configure { trail_id, era_id, occupation_id, party, departure_month } => {
                let r = self.configure(trail_id, era_id, occupation_id, party, departure_month);
                proof {
                    if r is Ok {
                        assert forall|i: int| 0 <= i < self.party@.len() implies {
                            &&& (#[trigger] self.party@[i]).health <= 100
                            &&& self.party@[i].alive ==> self.party@[i].health > 0
                            &&& 0 <= self.party@[i].morale <= 100
                        } by {
                            assert(fresh_member(self.party@[i], c->party@[i]));
                        }
                    }
                }
                r
            },
            Command::Buy { item_id, quantity } => self.buy(item_id.as_str(), quantity),
            Command::Depart => {
                if !matches!(self.status, RunStatus::Outfitting) {
                    return Err(CommandError::InvalidPhase);
                }
                if self.inventory.get("oxen") == 0 {
                    return Err(CommandError::InvalidChoice);
                }
                match self.begin_only_route() {
                    Ok(()) => {},
                    Err(e) => return Err(e),
                }
                let mut out: Vec<Outcome> = Vec::new();
                out.push(Outcome::Departed);
                Ok(out)
            },
            Command::Continue | Command::TravelDay => {
                if matches!(self.status, RunStatus::AtLandmark(_)) {
                    match self.begin_only_route() {
                        Ok(()) => {},
                        Err(e) => return Err(e),
                    }
                    proof { reveal_strlit("Leaving landmark"); }
                    Ok(crate::commands::say("Leaving landmark"))
                } else {
                    let r = self.travel();
                    proof {
                        if a.status is Travelling && held(a.inventory, "oxen"@) > 0 {
                            let w = choose|w: GameState| #[trigger] weathered_and_fed(next_day(a), w) && {
                                &&& alive_count(w.party@) == 0 ==> *self == (GameState { status: RunStatus::Failed, ..w })
                                &&& alive_count(w.party@) > 0 ==> exists|m: GameState| #[trigger] marched(w, m) && {
                                    &&& (r matches Ok(out) && out@.contains(Outcome::DayAdvanced { day: m.day, miles: m.miles, weather: m.weather }))
                                    &&& progressed(m, *self)
                                    &&& self.miles == m.miles
                                    &&& self.route_miles_remaining == m.route_miles_remaining
                                    &&& (m.route_miles_remaining > 0 ==> self.status == a.status || self.status is Failed)
                                }
                            };
                            lemma_fed_progress(next_day(a), w);
                            crate::state::lemma_progressed_trans(a, next_day(a), w);
                            if alive_count(w.party@) > 0 {
                                let m = choose|m: GameState| #[trigger] marched(w, m) && {
                                    &&& (r matches Ok(out) && out@.contains(Outcome::DayAdvanced { day: m.day, miles: m.miles, weather: m.weather }))
                                    &&& progressed(m, *self)
                                    &&& self.miles == m.miles
                                    &&& self.route_miles_remaining == m.route_miles_remaining
                                    &&& (m.route_miles_remaining > 0 ==> self.status == a.status || self.status is Failed)
                                };
                                assert(distance_today(w) <= w.route_miles_remaining);
                                assert(progressed(w, m));
                                crate::state::lemma_progressed_trans(a, w, m);
                                crate::state::lemma_progressed_trans(a, m, *self);
                            }
                        }
                    }
                    r
                }
            },
            Command::SetPace(p) => {
                if !matches!(self.status, RunStatus::Travelling | RunStatus::AtLandmark(_) | RunStatus::AwaitingRiver(_) | RunStatus::AwaitingFork(_)) {
                    return Err(CommandError::InvalidPhase);
                }
                self.pace = p;
                proof { reveal_strlit("Pace changed"); }
                Ok(crate::commands::say("Pace changed"))
            },
            Command::SetRations(x) => {
                if !matches!(self.status, RunStatus::Travelling | RunStatus::AtLandmark(_) | RunStatus::AwaitingRiver(_) | RunStatus::AwaitingFork(_)) {
                    return Err(CommandError::InvalidPhase);
                }
                self.rations = x;
                proof { reveal_strlit("Rations changed"); }
                Ok(crate::commands::say("Rations changed"))
            },
            Command::Rest { days } => self.rest(days),
            Command::ChooseRoute { route_id } => self.route(route_id.as_str()),
            Command::CrossRiver { method } => self.cross(method),
            Command::Respond { event_id, choice_id } => self.respond(event_id.as_str(), choice_id.as_str()),
            Command::Talk => self.talk(),
            Command::Treat { member_index, ailment_id } => self.treat(member_index, ailment_id.as_str()),
            Command::HuntResult { food_lbs, ammo_boxes_used } => {
                let r = self.hunt(food_lbs, ammo_boxes_used);
                proof {
                    if r is Ok {
                        let stocked = choose|stocked: GameState| #![trigger stocked.inventory]
                            stocked == (GameState { inventory: stocked.inventory, ..a })
                            && stocked.inventory.quantities.map() == crate::commands::after_hunt(a, food_lbs, ammo_boxes_used)
                            && crate::state::camp_day(stocked, *self, Seq::<Outcome>::empty(), r->Ok_0@.drop_last(), false)
                            && self.day == crate::state::sat_add(a.day, 1);
                        crate::state::lemma_progressed_trans(a, stocked, *self);
                    }
                }
                r
            },
            Command::RaftResult { cargo_lost_lbs, casualties } => self.raft(cargo_lost_lbs, casualties),
        }
    }

    /// Runs a command and reports its outcomes; a rejected command is reported as a single
    /// `Rejected` outcome and changes nothing.
    pub fn apply(&mut self, c: Command) -> (r: Vec<Outcome>)
        requires
            old(self).ready(),
            old(self).purse_fits(c),
        ensures
            final(self).ready(),
            is_terminal(old(self).status) ==> r@ == seq![Outcome::Rejected(CommandError::InvalidPhase)] && *final(self) == *old(self),
            match command_refusal(*old(self), c) {
                Some(why) => r@.len() == 1 && (r@[0] matches Outcome::Rejected(e) && is_rejection(e, why)) && *final(self) == *old(self),
                None => no_rejection(r@) && command_done(*old(self), *final(self), c, r@)
                    && (!(c is Configure) ==> progressed(*old(self), *final(self))),
            },
            sound_party(old(self).party@) ==> sound_party(final(self).party@),
            final(self).rng.master() == old(self).rng.master(),
            final(self).content == old(self).content,
            !(c is Configure) ==> applied(*old(self), c, *final(self)),
    {
        match self.try_apply(c) {
            Ok(out) => out,
            Err(e) => {
                let mut out: Vec<Outcome> = Vec::new();
                out.push(Outcome::Rejected(e));
                out
            },
        }
    }
}

/// Command `c` took `a` to `b` as far as the journey's shape goes: a refused command
/// changes nothing; otherwise the journey progressed, and a sound party stayed sound.
pub open spec fn applied(a: GameState, c: Command, b: GameState) -> bool {
    &&& match command_refusal(a, c) {
        Some(_) => b == a,
        None => progressed(a, b),
    }
    &&& sound_party(a.party@) ==> sound_party(b.party@)
}

proof fn lemma_fewer_alive(p: Seq<crate::health::PartyMember>, q: Seq<crate::health::PartyMember>)
    requires
        p.len() == q.len(),
        forall|k: int| 0 <= k < p.len() ==> !(#[trigger] p[k]).alive ==> !q[k].alive,
    ensures
        alive_count(q) <= alive_count(p),
    decreases p.len(),
{
    if p.len() > 0 {
        let (p2, q2) = (p.drop_last(), q.drop_last());
        assert forall|k: int| 0 <= k < p2.len() && !(#[trigger] p2[k]).alive implies !q2[k].alive by {
            assert(p2[k] == p[k] && q2[k] == q[k]);
        }
        lemma_fewer_alive(p2, q2);
        assert(!p.last().alive ==> !q.last().alive) by {
            assert(p.last() == p[p.len() - 1] && q.last() == q[q.len() - 1]);
        }
    }
}

proof fn lemma_shape_upto(gs: Seq<GameState>, cs: Seq<Command>, i: int, j: int)
    requires
        gs.len() == cs.len() + 1,
        forall|k: int| 0 <= k < cs.len() ==> !(#[trigger] cs[k] is Configure) && applied(gs[k], cs[k], gs[k + 1]),
        sound_party(gs[0].party@),
        0 <= i <= j < gs.len(),
    ensures
        gs[i].miles <= gs[j].miles,
        gs[j].party@.len() == gs[i].party@.len(),
        forall|k: int| 0 <= k < gs[i].party@.len() ==> !(#[trigger] gs[i].party@[k]).alive ==> !gs[j].party@[k].alive,
        sound_party(gs[j].party@),
    decreases j,
{
    if j == 0 {
    } else {
        let m = j - 1;
        assert(!(cs[m] is Configure) && applied(gs[m], cs[m], gs[m + 1]));
        assert(m + 1 == j);
        lemma_shape_upto(gs, cs, 0, m);
        if i <= m {
            lemma_shape_upto(gs, cs, i, m);
        }
    }
}

/// Along a journey of commands other than setup, from a party in sound shape, the wagon
/// never goes back, nobody comes back to life (so the living never grow in number), and
/// every member's health stays at most 100, with the party in sound shape throughout.
pub proof fn law_journeys_keep_their_shape(gs: Seq<GameState>, cs: Seq<Command>)
    requires
        gs.len() == cs.len() + 1,
        forall|k: int| 0 <= k < cs.len() ==> !(#[trigger] cs[k] is Configure) && applied(gs[k], cs[k], gs[k + 1]),
        sound_party(gs[0].party@),
    ensures
        forall|i: int, j: int| 0 <= i <= j < gs.len() ==> (#[trigger] gs[i]).miles <= (#[trigger] gs[j]).miles
            && alive_count(gs[j].party@) <= alive_count(gs[i].party@),
        forall|j: int| 0 <= j < gs.len() ==> sound_party((#[trigger] gs[j]).party@),
        forall|j: int, k: int| 0 <= j < gs.len() && 0 <= k < gs[j].party@.len() ==> (#[trigger] gs[j].party@[k]).health <= 100,
{
    assert forall|i: int, j: int| 0 <= i <= j < gs.len() implies (#[trigger] gs[i]).miles <= (#[trigger] gs[j]).miles
        && alive_count(gs[j].party@) <= alive_count(gs[i].party@) by {
        lemma_shape_upto(gs, cs, i, j);
        lemma_fewer_alive(gs[i].party@, gs[j].party@);
    }
    assert forall|j: int| 0 <= j < gs.len() implies sound_party((#[trigger] gs[j]).party@) by {
        lemma_shape_upto(gs, cs, 0, j);
    }
    assert forall|j: int, k: int| 0 <= j < gs.len() && 0 <= k < gs[j].party@.len() implies (#[trigger] gs[j].party@[k]).health <= 100 by {
        lemma_shape_upto(gs, cs, 0, j);
    }
}

} // verus!
