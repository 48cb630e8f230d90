//! The commands a player gives while camped or on the trail.

use vstd::prelude::*;
use crate::content::{LandmarkKind, QuoteDefinition};
use crate::events::{lemma_extends_refl, lemma_extends_push, lemma_extends_trans, steps_kept, lemma_steps_trans,
    other_than, effects_kept, affordable, lemma_kept_ready, effects_done, due_done};
use crate::health::PartyMember;
use crate::lookup::{find_first, lemma_first_facts};
use crate::state::{camp_day, alive_count, living, GameState, Outcome, RunStatus, CrossMethod, CommandError, Rejection, is_rejection, is_camp,
    extends, no_rejection, progressed, held, sat_add, route_named, event_named, choice_named, find_route, find_event,
    find_choice, names_text, all_hold};
use crate::text::{same, decimal};
use crate::rng::{moved_only, advanced, chacha_below_draw};

verus! {

/// Text of a message outcome.
pub open spec fn says(o: Outcome, text: Seq<char>) -> bool {
    o matches Outcome::Message(m) && m@ == text
}

/// A one-message log.
pub open spec fn just_says(out: Seq<Outcome>, text: Seq<char>) -> bool {
    out.len() == 1 && says(out[0], text)
}

pub(crate) fn say(text: &str) -> (r: Vec<Outcome>)
    ensures
        just_says(r@, text@),
        no_rejection(r@),
{
    let mut out: Vec<Outcome> = Vec::new();
    out.push(Outcome::Message(text.to_owned()));
    out
}

// ---------------------------------------------------------------------------------------
// Resting.

/// Why a rest of `days` would be refused, if it would be.
pub open spec fn rest_refusal(s: GameState, days: u32) -> Option<Rejection> {
    if !is_camp(s.status) {
        Some(Rejection::Phase)
    } else if !(1 <= days <= 30) {
        Some(Rejection::Choice)
    } else {
        None
    }
}

/// The report after resting `n` days.
pub open spec fn rested_text(n: nat) -> Seq<char> {
    "Rested "@ + decimal(n) + " days"@
}

/// Day `k` of a rest: a camp day from `s[k]` to `m[k]`, and then, unless the journey
/// failed, the events due from `m[k]` to `s[k + 1]`; `l` and `ml` are the logs alongside.
pub open spec fn rest_day(s: Seq<GameState>, m: Seq<GameState>, l: Seq<Seq<Outcome>>, ml: Seq<Seq<Outcome>>, k: int) -> bool {
    &&& camp_day(s[k], m[k], l[k], ml[k], true)
    &&& if m[k].status is Failed {
        s[k + 1] == m[k] && l[k + 1] == ml[k]
    } else {
        due_done(m[k], s[k + 1], ml[k], l[k + 1])
    }
}

/// `s`, `m`, `l` and `ml` trace a rest of at least one and at most `days` days: each day a
/// rest day; every day but the last left the party going and free of a pending event;
/// and the rest ended early only on failure or an event.
pub open spec fn rest_trace(s: Seq<GameState>, m: Seq<GameState>, l: Seq<Seq<Outcome>>, ml: Seq<Seq<Outcome>>, days: u32) -> bool {
    let n = s.len() - 1;
    &&& 2 <= s.len() <= days + 1
    &&& l.len() == s.len()
    &&& m.len() == n
    &&& ml.len() == n
    &&& forall|k: int| 0 <= k < n ==> #[trigger] rest_day(s, m, l, ml, k)
    &&& forall|k: int| 0 <= k < n - 1 ==> !((#[trigger] m[k]).status is Failed) && s[k + 1].pending_event is None
    &&& n < days ==> m[n - 1].status is Failed || s[n].pending_event is Some
}

/// Resting for `days` days went from `a` to `b`, reporting `out`: the days traced, then
/// how many days passed.
pub open spec fn rested(a: GameState, b: GameState, days: u32, out: Seq<Outcome>) -> bool {
    &&& exists|s: Seq<GameState>, m: Seq<GameState>, l: Seq<Seq<Outcome>>, ml: Seq<Seq<Outcome>>|
        #[trigger] rest_trace(s, m, l, ml, days) && s[0] == a && l[0] == Seq::<Outcome>::empty() && s.last() == b
        && out.len() == l.last().len() + 1 && out.drop_last() == l.last()
        && says(out.last(), rested_text((b.day - a.day) as nat))
    &&& steps_kept(a, b)
    &&& (b.day > a.day || a.day == u32::MAX)
}

impl GameState {
    /// Rests up to `days` days in camp, stopping early when the party is lost or an event
    /// needs an answer.
    pub(crate) fn rest(&mut self, days: u32) -> (r: Result<Vec<Outcome>, CommandError>)
        requires
            old(self).ready(),
        ensures
            match rest_refusal(*old(self), days) {
                Some(why) => r matches Err(e) && is_rejection(e, why) && *final(self) == *old(self),
                None => r matches Ok(out) && no_rejection(out@) && rested(*old(self), *final(self), days, out@),
            },
    {
        if !matches!(self.status, RunStatus::Travelling | RunStatus::AtLandmark(_) | RunStatus::AwaitingRiver(_) | RunStatus::AwaitingFork(_)) {
            return Err(CommandError::InvalidPhase);
        }
        if days < 1 || days > 30 {
            return Err(CommandError::InvalidChoice);
        }
        let ghost a = *self;
        let started = self.day;
        let mut out: Vec<Outcome> = Vec::new();
        proof {
            lemma_extends_refl(out@);
            crate::state::lemma_progressed_refl(a);
        }
        let ghost mut ss: Seq<GameState> = seq![a];
        let ghost mut ms: Seq<GameState> = Seq::empty();
        let ghost mut ls: Seq<Seq<Outcome>> = seq![Seq::<Outcome>::empty()];
        let ghost mut mls: Seq<Seq<Outcome>> = Seq::empty();
        let mut k: u32 = 0;
        while k < days
            invariant_except_break
                forall|j: int| 0 <= j < k ==> !((#[trigger] ms[j]).status is Failed) && ss[j + 1].pending_event is None,
            invariant
                k <= days,
                1 <= days,
                a.ready(),
                steps_kept(a, *self),
                extends(Seq::<Outcome>::empty(), out@),
                started == a.day,
                k > 0 ==> self.day > a.day || a.day == u32::MAX,
                k == 0 ==> *self == a,
                is_camp(a.status),
                ss.len() == k + 1,
                ls.len() == k + 1,
                ms.len() == k,
                mls.len() == k,
                ss[0] == a,
                ls[0] == Seq::<Outcome>::empty(),
                ss[k as int] == *self,
                ls[k as int] == out@,
                forall|j: int| 0 <= j < k ==> #[trigger] rest_day(ss, ms, ls, mls, j),
                forall|j: int| 0 <= j < k - 1 ==> !((#[trigger] ms[j]).status is Failed) && ss[j + 1].pending_event is None,
            ensures
                k > 0,
                k < days ==> ms[k - 1].status is Failed || ss[k as int].pending_event is Some,
            decreases days - k,
        {
            let ghost before = *self;
            let ghost before_out = out@;
            self.pass_camp_day(&mut out, true);
            proof {
                lemma_steps_trans(a, before, *self);
                lemma_extends_trans(Seq::<Outcome>::empty(), before_out, out@);
            }
            let ghost mid = *self;
            let ghost mid_out = out@;
            if matches!(self.status, RunStatus::Failed) {
                proof {
                    let ns = ss.push(mid);
                    let nm = ms.push(mid);
                    let nl = ls.push(mid_out);
                    let nml = mls.push(mid_out);
                    assert forall|j: int| 0 <= j < k + 1 implies #[trigger] rest_day(ns, nm, nl, nml, j) by {
                        if j < k {
                            assert(rest_day(ss, ms, ls, mls, j));
                            assert(ns[j] == ss[j] && ns[j + 1] == ss[j + 1] && nm[j] == ms[j] && nl[j] == ls[j]
                                && nl[j + 1] == ls[j + 1] && nml[j] == mls[j]);
                        }
                    }
                    assert forall|j: int| 0 <= j < k implies !((#[trigger] nm[j]).status is Failed) && ns[j + 1].pending_event is None by {
                        assert(nm[j] == ms[j] && ns[j + 1] == ss[j + 1]);
                    }
                    ss = ns;
                    ms = nm;
                    ls = nl;
                    mls = nml;
                }
                k = k + 1;
                break;
            }
            self.due(&mut out);
            proof {
                lemma_steps_trans(a, mid, *self);
                lemma_extends_trans(Seq::<Outcome>::empty(), mid_out, out@);
                let ns = ss.push(*self);
                let nm = ms.push(mid);
                let nl = ls.push(out@);
                let nml = mls.push(mid_out);
                assert forall|j: int| 0 <= j < k + 1 implies #[trigger] rest_day(ns, nm, nl, nml, j) by {
                    if j < k {
                        assert(rest_day(ss, ms, ls, mls, j));
                        assert(ns[j] == ss[j] && ns[j + 1] == ss[j + 1] && nm[j] == ms[j] && nl[j] == ls[j]
                            && nl[j + 1] == ls[j + 1] && nml[j] == mls[j]);
                    }
                }
                assert forall|j: int| 0 <= j < k implies !((#[trigger] nm[j]).status is Failed) && ns[j + 1].pending_event is None by {
                    assert(nm[j] == ms[j] && ns[j + 1] == ss[j + 1]);
                }
                ss = ns;
                ms = nm;
                ls = nl;
                mls = nml;
            }
            k = k + 1;
            if self.pending_event.is_some() {
                break;
            }
        }
        assert(k > 0);
        assert(self.day > a.day || a.day == u32::MAX);
        let mut text = "Rested ".to_owned();
        crate::text::push_decimal(&mut text, (self.day - started) as u64);
        vstd::string::StringExecFns::append(&mut text, " days");
        let ghost before_out = out@;
        out.push(Outcome::Message(text));
        proof {
            reveal_strlit("Rested ");
            reveal_strlit(" days");
            lemma_extends_push(Seq::<Outcome>::empty(), before_out, out@.last());
        }
        assert(says(out@.last(), rested_text((self.day - a.day) as nat)));
        assert(no_rejection(out@));
        assert(steps_kept(a, *self));
        proof {
            assert(out@.drop_last() =~= ls.last());
            assert(rest_trace(ss, ms, ls, mls, days));
        }
        Ok(out)
    }
}


// ---------------------------------------------------------------------------------------
// Forks and rivers.

/// Why choosing route `id` would be refused, if it would be.
pub open spec fn route_refusal(s: GameState, id: Seq<char>) -> Option<Rejection> {
    if !(s.status is AwaitingFork) || s.here() is None {
        Some(Rejection::Phase)
    } else if find_first(s.here()->0.routes@, route_named(id)) is None {
        Some(Rejection::Unknown(id))
    } else {
        None
    }
}

/// Taking route `id` at the fork went from `a` to `b`, reporting `out`.
pub open spec fn routed(a: GameState, b: GameState, id: Seq<char>, out: Seq<Outcome>) -> bool {
    let rt = a.here()->0.routes@[find_first(a.here()->0.routes@, route_named(id))->0];
    &&& just_says(out, "Taking "@ + rt.label@)
    &&& b == (GameState {
        target_node_id: Some(rt.target_id),
        route_miles_remaining: rt.distance_miles,
        status: RunStatus::Travelling,
        ..a
    })
}

impl GameState {
    /// Sets out on route `id` from the fork here.
    pub(crate) fn route(&mut self, id: &str) -> (r: Result<Vec<Outcome>, CommandError>)
        ensures
            match route_refusal(*old(self), id@) {
                Some(why) => r matches Err(e) && is_rejection(e, why) && *final(self) == *old(self),
                None => r matches Ok(out) && routed(*old(self), *final(self), id@, out@),
            },
    {
        if !matches!(self.status, RunStatus::AwaitingFork(_)) {
            return Err(CommandError::InvalidPhase);
        }
        let (ti, ni) = match self.node() {
            Some(p) => p,
            None => return Err(CommandError::InvalidPhase),
        };
        let ri = match find_route(&self.content.trails[ti].nodes[ni].routes, id) {
            Some(ri) => ri,
            None => return Err(CommandError::UnknownId(id.to_owned())),
        };
        proof { lemma_first_facts(self.content.trails@[ti as int].nodes@[ni as int].routes@, route_named(id@)); }
        let target = self.content.trails[ti].nodes[ni].routes[ri].target_id.clone();
        let distance = self.content.trails[ti].nodes[ni].routes[ri].distance_miles;
        let mut text = "Taking ".to_owned();
        vstd::string::StringExecFns::append(&mut text, self.content.trails[ti].nodes[ni].routes[ri].label.as_str());
        self.target_node_id = Some(target);
        self.route_miles_remaining = distance;
        self.status = RunStatus::Travelling;
        let mut out: Vec<Outcome> = Vec::new();
        out.push(Outcome::Message(text));
        proof { reveal_strlit("Taking "); }
        Ok(out)
    }
}

/// Why crossing by method `m` would be refused, if it would be.
pub open spec fn cross_refusal(s: GameState, m: CrossMethod) -> Option<Rejection> {
    if !(s.status is AwaitingRiver) || s.here() is None || s.here()->0.river is None || s.here()->0.routes@.len() != 1 {
        Some(Rejection::Phase)
    } else if m == CrossMethod::Guide && (!names_text(s.current_node_id, "snake_river"@) || held(s.inventory, "clothing"@) < 3) {
        Some(Rejection::Choice)
    } else if m == CrossMethod::Ferry && s.here()->0.river->0.ferry_cost_cents is None {
        Some(Rejection::Choice)
    } else if m == CrossMethod::Ferry && s.cash_cents < s.here()->0.river->0.ferry_cost_cents->0 {
        Some(Rejection::Cash)
    } else {
        None
    }
}

/// Chance in a hundred that a crossing by `m` spoils food, before the cap of ninety.
pub open spec fn crossing_risk(m: CrossMethod, width: u32, depth: u32) -> int {
    match m {
        CrossMethod::Ferry => 0,
        CrossMethod::Wait => 0,
        CrossMethod::Guide => 10,
        CrossMethod::Ford => depth * 20,
        CrossMethod::Caulk => (width / 20) as int,
    }
}

/// What the river's roll does to the goods on a crossing by `m` (other than waiting) from
/// `a` to `b`: a percentile from the "rivers" stream, the only stream that moves, spoils
/// fifty pounds of food when it falls below the method's risk, capped at ninety; a guide
/// is paid three sets of clothing either way.
pub open spec fn crossing_drawn(a: GameState, b: GameState, m: CrossMethod) -> bool {
    let n = a.here()->0;
    let risk = crossing_risk(m, n.river->0.width_feet, n.river->0.depth_feet);
    let cap = if risk < 90 { risk } else { 90 };
    let p = a.rng.position("rivers"@);
    let r = chacha_below_draw(p.0, p.1, p.2, 100);
    let have = held(a.inventory, "food"@);
    let paid = if m == CrossMethod::Guide {
        a.inventory.quantities.map().insert("clothing"@, (held(a.inventory, "clothing"@) - 3) as u32)
    } else {
        a.inventory.quantities.map()
    };
    &&& moved_only(a.rng, b.rng, "rivers"@, advanced(p, r.1))
    &&& b.inventory.quantities.map() == if r.0 < cap {
            paid.insert("food"@, if have < 50 { 0 } else { (have - 50) as u32 })
        } else {
            paid
        }
}

/// Fording a river `d` feet deep risks the food `min(20 d, 90)` percent of the time, so
/// any ford at least a foot deep carries a risk, the deeper the more, while the ferry and
/// waiting carry none.
pub proof fn law_fords_risk_the_food(width: u32, d: u32, e: u32)
    ensures
        d >= 1 ==> crossing_risk(CrossMethod::Ford, width, d) >= 20,
        crossing_risk(CrossMethod::Ford, width, d) == 20 * d,
        d <= e ==> crossing_risk(CrossMethod::Ford, width, d) <= crossing_risk(CrossMethod::Ford, width, e),
        crossing_risk(CrossMethod::Ferry, width, d) == 0,
        crossing_risk(CrossMethod::Wait, width, d) == 0,
{
}

/// Caulking and floating risks the food one percent per twenty feet of width; a guide
/// risks it one time in ten.
pub proof fn law_other_crossings_risk(width: u32, d: u32)
    ensures
        crossing_risk(CrossMethod::Caulk, width, d) == width / 20,
        crossing_risk(CrossMethod::Guide, width, d) == 10,
{
}

/// Fording a river `d` feet deep: when the "rivers" percentile falls below `min(20 d, 90)`
/// fifty pounds of food (or all there is) are lost, otherwise the food is untouched; the
/// cash does not change.
pub proof fn law_ford_spoils_food_on_a_low_roll(a: GameState, b: GameState, out: Seq<Outcome>)
    requires
        crossed(a, b, CrossMethod::Ford, out),
    ensures
        ({
            let d = a.here()->0.river->0.depth_feet;
            let cap: int = if 20 * d < 90 { 20 * d } else { 90 };
            let p = a.rng.position("rivers"@);
            let r = chacha_below_draw(p.0, p.1, p.2, 100).0;
            let have = held(a.inventory, "food"@);
            &&& r < cap ==> held(b.inventory, "food"@) == if have < 50 { 0 } else { have - 50 }
            &&& r >= cap ==> held(b.inventory, "food"@) == have
            &&& b.cash_cents == a.cash_cents
        }),
{
    reveal_strlit("food");
}

/// A day in camp without rest, then, unless the journey failed, the events due: from `a`
/// to `b`, logging `log`.
pub open spec fn camp_then_due(a: GameState, b: GameState, log: Seq<Outcome>) -> bool {
    exists|m: GameState, ml: Seq<Outcome>| #[trigger] camp_day(a, m, Seq::<Outcome>::empty(), ml, false) && if m.status is Failed {
        b == m && log == ml
    } else {
        due_done(m, b, ml, log)
    }
}

/// Crossing by `m` went from `a` to `b`, reporting `out`: a day's wait, or the crossing
/// with its fare, its risks to food and clothing, and the next leg begun.
pub open spec fn crossed(a: GameState, b: GameState, m: CrossMethod, out: Seq<Outcome>) -> bool {
    out.len() >= 1 && if m == CrossMethod::Wait {
        &&& says(out.last(), "You wait one day for lower water."@)
        &&& steps_kept(a, b)
        &&& camp_then_due(a, b, out.drop_last())
    } else {
        let n = a.here()->0;
        let spent = if m == CrossMethod::Ferry { n.river->0.ferry_cost_cents->0 } else { 0 };
        let have = held(a.inventory, "food"@);
        let clothes = held(a.inventory, "clothing"@);
        &&& just_says(out, "The crossing is behind you."@)
        &&& b.cash_cents == a.cash_cents - spent
        &&& (b.inventory.quantities.map() == a.inventory.quantities.map()
            || b.inventory.quantities.map() == a.inventory.quantities.map().insert("food"@,
                if have < 50 { 0 } else { (have - 50) as u32 })
            || m == CrossMethod::Guide)
        &&& (m == CrossMethod::Guide ==> (b.inventory.quantities.map()
                == a.inventory.quantities.map().insert("clothing"@, (clothes - 3) as u32)
            || b.inventory.quantities.map() == a.inventory.quantities.map()
                .insert("clothing"@, (clothes - 3) as u32).insert("food"@,
                if held(a.inventory, "food"@) < 50 { 0 } else { (held(a.inventory, "food"@) - 50) as u32 })))
        &&& (crossing_risk(m, n.river->0.width_feet, n.river->0.depth_feet) == 0
            ==> b.inventory.quantities.map() == a.inventory.quantities.map())
        &&& crossing_drawn(a, b, m)
        &&& b == (GameState {
            rng: b.rng,
            cash_cents: b.cash_cents,
            inventory: b.inventory,
            target_node_id: Some(n.routes@[0].target_id),
            route_miles_remaining: n.routes@[0].distance_miles,
            status: RunStatus::Travelling,
            ..a
        })
        &&& b.rng.wf()
        &&& b.rng.master() == a.rng.master()
    }
}

impl GameState {
    /// Crosses the river here, or waits a day for lower water.
    #[verifier::rlimit(40)]
    pub(crate) fn cross(&mut self, m: CrossMethod) -> (r: Result<Vec<Outcome>, CommandError>)
        requires
            old(self).ready(),
            old(self).purse_fits(crate::state::Command::CrossRiver { method: m }),
        ensures
            match cross_refusal(*old(self), m) {
                Some(why) => r matches Err(e) && is_rejection(e, why) && *final(self) == *old(self),
                None => r matches Ok(out) && no_rejection(out@) && crossed(*old(self), *final(self), m, out@),
            },
    {
        if !matches!(self.status, RunStatus::AwaitingRiver(_)) {
            return Err(CommandError::InvalidPhase);
        }
        let (ti, ni) = match self.node() {
            Some(p) => p,
            None => return Err(CommandError::InvalidPhase),
        };
        let river = match self.content.trails[ti].nodes[ni].river {
            Some(rv) => rv,
            None => return Err(CommandError::InvalidPhase),
        };
        if self.content.trails[ti].nodes[ni].routes.len() != 1 {
            return Err(CommandError::InvalidPhase);
        }
        let ghost a = *self;
        if m == CrossMethod::Wait {
            let mut out: Vec<Outcome> = Vec::new();
            proof { lemma_extends_refl(out@); }
            self.pass_camp_day(&mut out, false);
            let ghost mid = *self;
            let ghost mid_out = out@;
            if !matches!(self.status, RunStatus::Failed) {
                self.due(&mut out);
                proof {
                    lemma_steps_trans(a, mid, *self);
                    lemma_extends_trans(Seq::<Outcome>::empty(), mid_out, out@);
                }
            }
            let ghost before_out = out@;
            out.push(Outcome::Message("You wait one day for lower water.".to_owned()));
            proof {
                reveal_strlit("You wait one day for lower water.");
                lemma_extends_push(Seq::<Outcome>::empty(), before_out, out@.last());
                assert(out@.drop_last() =~= before_out);
                assert(camp_day(a, mid, Seq::<Outcome>::empty(), mid_out, false));
            }
            return Ok(out);
        }
        if m == CrossMethod::Guide {
            let at_snake = match &self.current_node_id {
                Some(c) => same(c.as_str(), "snake_river"),
                None => false,
            };
            if !at_snake || self.inventory.get("clothing") < 3 {
                return Err(CommandError::InvalidChoice);
            }
        }
        let mut cost: i64 = 0;
        if m == CrossMethod::Ferry {
            cost = match river.ferry_cost_cents {
                Some(c) => c,
                None => return Err(CommandError::InvalidChoice),
            };
            if self.cash_cents < cost {
                return Err(CommandError::InsufficientCash);
            }
        }
        if m == CrossMethod::Guide {
            self.inventory.remove("clothing", 3);
            proof {
                reveal_strlit("clothing");
                reveal_strlit("food");
                assert("clothing"@.len() == 8 && "food"@.len() == 4);
                assert("clothing"@ != "food"@);
            }
        }
        if m == CrossMethod::Ferry {
            self.cash_cents = self.cash_cents - cost;
        }
        let ghost paid = *self;
        let risk: u32 = match m {
            CrossMethod::Ferry => 0,
            CrossMethod::Wait => 0,
            CrossMethod::Guide => 10,
            CrossMethod::Ford => if river.depth_feet >= 5 { 100 } else { river.depth_feet * 20 },
            CrossMethod::Caulk => river.width_feet / 20,
        };
        let cap: u32 = if risk < 90 { risk } else { 90 };
        let roll = self.rng.roll("rivers", 100);
        if roll < cap {
            self.inventory.take("food", 50);
        }
        let _ = self.begin_only_route();
        proof { reveal_strlit("The crossing is behind you."); }
        Ok(say("The crossing is behind you."))
    }
}


// ---------------------------------------------------------------------------------------
// Answering events.

/// Why answering event `ev` with choice `ch` would be refused, if it would be.
pub open spec fn respond_refusal(s: GameState, ev: Seq<char>, ch: Seq<char>) -> Option<Rejection> {
    if !names_text(s.pending_event, ev) {
        Some(Rejection::NoEvent)
    } else {
        match find_first(s.content.events@, event_named(ev)) {
            None => Some(Rejection::Unknown(ev)),
            Some(i) => match find_first(s.content.events@[i].choices@, choice_named(ch)) {
                None => Some(Rejection::Choice),
                Some(j) => {
                    let c = s.content.events@[i].choices@[j];
                    if !(all_hold(s, c.conditions@) && affordable(s.cash_cents, s.inventory.quantities.map(), c.effects@)) {
                        Some(Rejection::Choice)
                    } else {
                        None
                    }
                },
            },
        }
    }
}

/// Answering pending event `ev` with choice `ch` went from `a` to `b`, reporting `out`:
/// the choice's effects, in order, and then the event is settled.
pub open spec fn answered(a: GameState, b: GameState, ev: Seq<char>, ch: Seq<char>, out: Seq<Outcome>) -> bool {
    let i = find_first(a.content.events@, event_named(ev))->0;
    let c = a.content.events@[i].choices@[find_first(a.content.events@[i].choices@, choice_named(ch))->0];
    &&& steps_kept(a, b)
    &&& b.pending_event is None
    &&& exists|m: GameState| #[trigger] effects_done(a, m, c.effects@, Seq::empty(), out)
        && b == (GameState { pending_event: None, ..m })
}

impl GameState {
    /// Answers the pending event with one of its choices.
    pub(crate) fn respond(&mut self, ev: &str, ch: &str) -> (r: Result<Vec<Outcome>, CommandError>)
        requires
            old(self).ready(),
        ensures
            match respond_refusal(*old(self), ev@, ch@) {
                Some(why) => r matches Err(e) && is_rejection(e, why) && *final(self) == *old(self),
                None => r matches Ok(out) && no_rejection(out@) && answered(*old(self), *final(self), ev@, ch@, out@),
            },
    {
        let pending_here = match &self.pending_event {
            Some(p) => same(p.as_str(), ev),
            None => false,
        };
        if !pending_here {
            return Err(CommandError::NoPendingEvent);
        }
        let i = match find_event(&self.content.events, ev) {
            Some(i) => i,
            None => return Err(CommandError::UnknownId(ev.to_owned())),
        };
        proof { lemma_first_facts(self.content.events@, event_named(ev@)); }
        let j = match find_choice(&self.content.events[i].choices, ch) {
            Some(j) => j,
            None => return Err(CommandError::InvalidChoice),
        };
        proof { lemma_first_facts(self.content.events@[i as int].choices@, choice_named(ch@)); }
        if !self.choice_available(&self.content.events[i].choices[j]) {
            return Err(CommandError::InvalidChoice);
        }
        let es = crate::events::copy_effects(&self.content.events[i].choices[j].effects);
        let mut out: Vec<Outcome> = Vec::new();
        let ghost a = *self;
        self.effects(&es, &mut out);
        self.pending_event = None;
        proof {
            assert(extends(Seq::<Outcome>::empty(), out@));
            assert(no_rejection(Seq::<Outcome>::empty()));
        }
        Ok(out)
    }
}

// ---------------------------------------------------------------------------------------
// Talk, treatment, hunting and rafting.

/// A quote that may be heard where the party stands: one tied to no landmark, or to this one.
pub open spec fn quote_fits(current: Option<String>) -> spec_fn(QuoteDefinition) -> bool {
    |q: QuoteDefinition| match q.landmark_id {
        None => true,
        Some(l) => names_text(current, l@),
    }
}

/// Talking in camp went from `a` to `b`, reporting `out`: a quiet camp changes nothing;
/// otherwise one quote that fits the place is shared, drawn from the random stream.
pub open spec fn talked(a: GameState, b: GameState, out: Seq<Outcome>) -> bool {
    &&& (forall|k: int| 0 <= k < a.content.quotes@.len() ==> !#[trigger] quote_fits(a.current_node_id)(a.content.quotes@[k]))
        ==> just_says(out, "The camp is quiet tonight."@) && b == a
    &&& (exists|k: int| 0 <= k < a.content.quotes@.len() && #[trigger] quote_fits(a.current_node_id)(a.content.quotes@[k]))
        ==> exists|k: int| 0 <= k < a.content.quotes@.len()
            && #[trigger] quote_fits(a.current_node_id)(a.content.quotes@[k])
            && out == seq![Outcome::Quote { quote_id: a.content.quotes@[k].id, text: a.content.quotes@[k].text }]
            && b == (GameState { rng: b.rng, ..a })
            && b.rng.wf() && b.rng.master() == a.rng.master()
}

impl GameState {
    /// Someone in camp shares a quote that fits the place, when there is one.
    pub(crate) fn talk(&mut self) -> (r: Result<Vec<Outcome>, CommandError>)
        requires
            old(self).rng.wf(),
        ensures
            !is_camp(old(self).status) ==> r == Err::<Vec<Outcome>, CommandError>(CommandError::InvalidPhase) && *final(self) == *old(self),
            is_camp(old(self).status) ==> (r matches Ok(out) && talked(*old(self), *final(self), out@)),
    {
        if !matches!(self.status, RunStatus::Travelling | RunStatus::AtLandmark(_) | RunStatus::AwaitingRiver(_) | RunStatus::AwaitingFork(_)) {
            return Err(CommandError::InvalidPhase);
        }
        let ghost a = *self;
        let mut picks: Vec<usize> = Vec::new();
        let mut i: usize = 0;
        while i < self.content.quotes.len()
            invariant
                i <= self.content.quotes@.len(),
                *self == a,
                forall|k: int| 0 <= k < picks@.len() ==> #[trigger] picks@[k] < a.content.quotes@.len()
                    && quote_fits(a.current_node_id)(a.content.quotes@[picks@[k] as int]),
                picks@.len() == 0 ==> forall|k: int| 0 <= k < i ==> !#[trigger] quote_fits(a.current_node_id)(a.content.quotes@[k]),
            decreases self.content.quotes@.len() - i,
        {
            let fits = match &self.content.quotes[i].landmark_id {
                None => true,
                Some(l) => match &self.current_node_id {
                    Some(c) => same(c.as_str(), l.as_str()),
                    None => false,
                },
            };
            if fits {
                picks.push(i);
            }
            i = i + 1;
        }
        if picks.len() == 0 {
            proof { reveal_strlit("The camp is quiet tonight."); }
            return Ok(say("The camp is quiet tonight."));
        }
        let k: usize = if picks.len() <= u32::MAX as usize {
            self.rng.roll("quotes", picks.len() as u32) as usize
        } else {
            self.rng.roll_wide("quotes", picks.len() as u64) as usize
        };
        assert(picks@[k as int] < a.content.quotes@.len());
        let q = picks[k];
        let mut out: Vec<Outcome> = Vec::new();
        out.push(Outcome::Quote { quote_id: self.content.quotes[q].id.clone(), text: self.content.quotes[q].text.clone() });
        assert(quote_fits(a.current_node_id)(a.content.quotes@[q as int]));
        Ok(out)
    }
}

/// Why treating member `i` for ailment `a` would be refused, if it would be.
pub open spec fn treat_refusal(s: GameState, i: usize, a: Seq<char>) -> Option<Rejection> {
    if !is_camp(s.status) {
        Some(Rejection::Phase)
    } else if i >= s.party@.len() || !s.party@[i as int].alive
        || !(exists|k: int| 0 <= k < s.party@[i as int].ailments@.len() && #[trigger] s.party@[i as int].ailments@[k]@ == a)
        || held(s.inventory, "medicine"@) < 1 {
        Some(Rejection::Choice)
    } else {
        None
    }
}

/// Treating traveler `i` for `ailment` went from `a` to `b`, reporting `out`: a dose
/// of medicine spent, the ailment cured, and 15 health restored up to 100.
pub open spec fn treated(a: GameState, b: GameState, i: usize, ailment: Seq<char>, out: Seq<Outcome>) -> bool {
    let p = a.party@[i as int];
    &&& out.len() == 1
        && (out[0] matches Outcome::Treated { member_index, ailment_id } && member_index == i && ailment_id@ == ailment)
    &&& b == (GameState { inventory: b.inventory, party: b.party, ..a })
    &&& b.inventory.quantities.map() == a.inventory.quantities.map()
        .insert("medicine"@, (held(a.inventory, "medicine"@) - 1) as u32)
    &&& b.party@ == a.party@.update(i as int, PartyMember {
        ailments: b.party@[i as int].ailments,
        health: if p.health + 15 > 100 { 100 } else { (p.health + 15) as u8 },
        ..p
    })
    &&& b.party@[i as int].ailments@ == p.ailments@.filter(other_than(ailment))
}

impl GameState {
    /// Spends a dose of medicine to cure one member of one ailment, restoring 15 health.
    pub(crate) fn treat(&mut self, i: usize, a: &str) -> (r: Result<Vec<Outcome>, CommandError>)
        ensures
            match treat_refusal(*old(self), i, a@) {
                Some(why) => r matches Err(e) && is_rejection(e, why) && *final(self) == *old(self),
                None => r matches Ok(out) && treated(*old(self), *final(self), i, a@, out@),
            },
    {
        if !matches!(self.status, RunStatus::Travelling | RunStatus::AtLandmark(_) | RunStatus::AwaitingRiver(_) | RunStatus::AwaitingFork(_)) {
            return Err(CommandError::InvalidPhase);
        }
        if i >= self.party.len() {
            return Err(CommandError::InvalidChoice);
        }
        if !self.party[i].alive || !crate::state::text_in(&self.party[i].ailments, a) || !self.inventory.remove("medicine", 1) {
            return Err(CommandError::InvalidChoice);
        }
        let kept = crate::events::without(&self.party[i].ailments, a);
        self.party[i].ailments = kept;
        let h = self.party[i].health;
        self.party[i].health = if h >= 85 { 100 } else { if h + 15 > 100 { 100 } else { h + 15 } };
        let mut out: Vec<Outcome> = Vec::new();
        out.push(Outcome::Treated { member_index: i, ailment_id: a.to_owned() });
        proof {
            let p = old(self).party@[i as int];
            assert(self.party@ =~= old(self).party@.update(i as int, PartyMember {
                ailments: self.party@[i as int].ailments,
                health: if p.health + 15 > 100 { 100 } else { (p.health + 15) as u8 },
                ..p
            }));
        }
        Ok(out)
    }
}


/// Why recording a hunt that brought back `food` pounds for `ammo` boxes would be refused.
pub open spec fn hunt_refusal(s: GameState, food: u32, ammo: u32) -> Option<Rejection> {
    if !(s.status is Travelling) {
        Some(Rejection::Phase)
    } else if (food > 0 && ammo == 0) || food > 500 {
        Some(Rejection::Choice)
    } else if s.load() + food > u32::MAX {
        Some(Rejection::Capacity)
    } else if s.load() + food > 2400 || held(s.inventory, "ammunition"@) < ammo {
        Some(Rejection::Choice)
    } else {
        None
    }
}

/// The report after a hunt.
pub open spec fn hunt_text(food: u32) -> Seq<char> {
    "Brought back "@ + decimal(food as nat) + " lbs of food"@
}

/// How a hunt changes the stores: the ammunition is spent and the game is added.
pub open spec fn after_hunt(s: GameState, food: u32, ammo: u32) -> Map<Seq<char>, u32> {
    let spent = s.inventory.quantities.map().insert("ammunition"@, (held(s.inventory, "ammunition"@) - ammo) as u32);
    let have: int = if spent.dom().contains("food"@) { spent["food"@] as int } else { 0 };
    spent.insert("food"@, if have + food > u32::MAX { u32::MAX } else { (have + food) as u32 })
}

/// Hunting with `ammo` boxes for `food` pounds went from `a` to `b`, reporting `out`:
/// the ammunition spent and the game stored, then a day in camp.
pub open spec fn hunted(a: GameState, b: GameState, food: u32, ammo: u32, out: Seq<Outcome>) -> bool {
    out.len() >= 1 && says(out.last(), hunt_text(food))
        && exists|stocked: GameState| #![trigger stocked.inventory]
            stocked == (GameState { inventory: stocked.inventory, ..a })
            && stocked.inventory.quantities.map() == after_hunt(a, food, ammo)
            && camp_day(stocked, b, Seq::<Outcome>::empty(), out.drop_last(), false)
            && b.day == sat_add(a.day, 1)
}

impl GameState {
    /// Records a hunt: spends ammunition, adds the game, and passes a day in camp.
    pub(crate) fn hunt(&mut self, food: u32, ammo: u32) -> (r: Result<Vec<Outcome>, CommandError>)
        requires
            old(self).rng.wf(),
        ensures
            match hunt_refusal(*old(self), food, ammo) {
                Some(why) => r matches Err(e) && is_rejection(e, why) && *final(self) == *old(self),
                None => r matches Ok(out) && no_rejection(out@) && hunted(*old(self), *final(self), food, ammo, out@),
            },
    {
        if !matches!(self.status, RunStatus::Travelling) {
            return Err(CommandError::InvalidPhase);
        }
        if (food > 0 && ammo == 0) || food > 500 {
            return Err(CommandError::InvalidChoice);
        }
        let load = match self.weight().checked_add(food) {
            Some(l) => l,
            None => return Err(CommandError::CapacityExceeded),
        };
        if load > 2400 || !self.inventory.remove("ammunition", ammo) {
            return Err(CommandError::InvalidChoice);
        }
        self.inventory.add("food", food);
        let ghost stocked = *self;
        assert(stocked.inventory.quantities.map() =~= after_hunt(*old(self), food, ammo));
        let mut out: Vec<Outcome> = Vec::new();
        proof { lemma_extends_refl(out@); }
        self.pass_camp_day(&mut out, false);
        let mut text = "Brought back ".to_owned();
        crate::text::push_decimal(&mut text, food as u64);
        vstd::string::StringExecFns::append(&mut text, " lbs of food");
        let ghost before_out = out@;
        out.push(Outcome::Message(text));
        proof {
            reveal_strlit("Brought back ");
            reveal_strlit(" lbs of food");
            lemma_extends_push(Seq::<Outcome>::empty(), before_out, out@.last());
            assert(out@.drop_last() =~= before_out);
        }
        Ok(out)
    }
}

/// Why recording a rafting run would be refused: it happens only at a finale landmark.
pub open spec fn raft_refusal(s: GameState) -> Option<Rejection> {
    if !(s.status is AtLandmark) || !(s.here() matches Some(n) && n.kind == LandmarkKind::Finale) {
        Some(Rejection::Phase)
    } else {
        None
    }
}

/// `after` is `before` with the first `n` living members lost.
pub open spec fn first_lost(before: Seq<PartyMember>, after: Seq<PartyMember>, n: u8) -> bool {
    &&& after.len() == before.len()
    &&& forall|i: int| 0 <= i < before.len() ==> #[trigger] after[i] == if before[i].alive && alive_count(before.subrange(0, i)) < n {
        PartyMember { alive: false, ..before[i] }
    } else {
        before[i]
    }
}

/// Rafting with `lost` pounds of cargo and `casualties` lost went from `a` to `b`,
/// reporting `out`.
pub open spec fn rafted(a: GameState, b: GameState, lost: u32, casualties: u8, out: Seq<Outcome>) -> bool {
    let have = held(a.inventory, "food"@);
    &&& just_says(out, "Rafting result recorded"@)
    &&& b == (GameState { inventory: b.inventory, party: b.party, ..a })
    &&& b.inventory.quantities.map() == if have >= lost {
        a.inventory.quantities.map().insert("food"@, (have - lost) as u32)
    } else {
        a.inventory.quantities.map()
    }
    &&& first_lost(a.party@, b.party@, casualties)
}

impl GameState {
    /// Records the result of rafting to the finale: lost cargo and casualties.
    pub(crate) fn raft(&mut self, lost: u32, casualties: u8) -> (r: Result<Vec<Outcome>, CommandError>)
        ensures
            match raft_refusal(*old(self)) {
                Some(why) => r matches Err(e) && is_rejection(e, why) && *final(self) == *old(self),
                None => r matches Ok(out) && rafted(*old(self), *final(self), lost, casualties, out@),
            },
    {
        if !matches!(self.status, RunStatus::AtLandmark(_)) {
            return Err(CommandError::InvalidPhase);
        }
        let finale = match self.current_landmark() {
            Some(n) => n.kind == LandmarkKind::Finale,
            None => false,
        };
        if !finale {
            return Err(CommandError::InvalidPhase);
        }
        self.inventory.remove("food", lost);
        let ghost a = *self;
        let mut gone: u8 = 0;
        let mut i: usize = 0;
        while i < self.party.len()
            invariant
                i <= self.party@.len(),
                self.party@.len() == a.party@.len(),
                *self == (GameState { party: self.party, ..a }),
                gone as int == if alive_count(a.party@.subrange(0, i as int)) < casualties {
                    alive_count(a.party@.subrange(0, i as int)) as int
                } else {
                    casualties as int
                },
                forall|j: int| i <= j < a.party@.len() ==> #[trigger] self.party@[j] == a.party@[j],
                forall|j: int| 0 <= j < i ==> #[trigger] self.party@[j] == if a.party@[j].alive && alive_count(a.party@.subrange(0, j)) < casualties {
                    PartyMember { alive: false, ..a.party@[j] }
                } else {
                    a.party@[j]
                },
            decreases a.party@.len() - i,
        {
            assert(a.party@.subrange(0, (i + 1) as int).drop_last() =~= a.party@.subrange(0, i as int));
            if self.party[i].alive && gone < casualties {
                self.party[i].alive = false;
                gone = gone + 1;
            }
            i = i + 1;
        }
        proof { reveal_strlit("Rafting result recorded"); }
        Ok(say("Rafting result recorded"))
    }
}

} // verus!
