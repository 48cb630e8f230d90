//! Effects of events and choices, and how events are scheduled, drawn and triggered.

use vstd::prelude::*;
use crate::content::{Effect, EventChoice};
use crate::health::PartyMember;
use crate::lookup::{find_first, lemma_first_is, lemma_first_none, lemma_first_facts};
use crate::content::EventDefinition;
use crate::state::{GameState, Outcome, PendingEvent, RunStatus, Inventory, held, extends, no_rejection,
    progressed, sat_add, sound_party, text_in, all_hold, event_named, find_event, camp_day};
use crate::text::same;
use crate::rng::{moved_only, advanced, chacha_below_draw, chacha_below_wide_draw};

verus! {

// ---------------------------------------------------------------------------------------
// Outcome logs only grow.

pub proof fn lemma_extends_refl(a: Seq<Outcome>)
    ensures
        extends(a, a),
{
    assert(a.subrange(0, a.len() as int) =~= a);
}

pub proof fn lemma_extends_push(a: Seq<Outcome>, b: Seq<Outcome>, o: Outcome)
    requires
        extends(a, b),
        !(o is Rejected),
    ensures
        extends(a, b.push(o)),
{
    assert(b.push(o).subrange(0, a.len() as int) =~= b.subrange(0, a.len() as int));
    if no_rejection(a) {
        assert forall|k: int| 0 <= k < b.push(o).len() implies !(#[trigger] b.push(o)[k] is Rejected) by {
            if k < b.len() {
                assert(b.push(o)[k] == b[k]);
            }
        }
    }
}

pub proof fn lemma_extends_trans(a: Seq<Outcome>, b: Seq<Outcome>, c: Seq<Outcome>)
    requires
        extends(a, b),
        extends(b, c),
    ensures
        extends(a, c),
{
    assert(c.subrange(0, a.len() as int) =~= c.subrange(0, b.len() as int).subrange(0, a.len() as int));
}

// ---------------------------------------------------------------------------------------
// What one effect does.

/// Inventory quantities after adjusting item `id` by `q`: gains saturate at the largest
/// count, losses stop at zero.
pub open spec fn adjusted(inv: Inventory, id: Seq<char>, q: int) -> Map<Seq<char>, u32> {
    let have = held(inv, id);
    if q >= 0 {
        inv.quantities.map().insert(id, if have + q > u32::MAX { u32::MAX } else { (have + q) as u32 })
    } else {
        inv.quantities.map().insert(id, if have + q < 0 { 0 } else { (have + q) as u32 })
    }
}

/// Cash after a change of `x`: saturating, and never below zero.
pub open spec fn cash_after(c: i64, x: i64) -> i64 {
    if c + x > i64::MAX {
        i64::MAX
    } else if c + x < 0 {
        0
    } else {
        (c + x) as i64
    }
}

/// Morale after a change of `x`, kept within `0..=100`.
pub open spec fn morale_after(m: i16, x: i16) -> i16 {
    if m + x < 0 {
        0
    } else if m + x > 100 {
        100
    } else {
        (m + x) as i16
    }
}

/// The member does not already suffer from ailment `x`.
pub open spec fn lacks(p: PartyMember, x: Seq<char>) -> bool {
    forall|k: int| 0 <= k < p.ailments@.len() ==> #[trigger] p.ailments@[k]@ != x
}

/// A living member who could catch ailment `x`.
pub open spec fn can_catch(x: Seq<char>) -> spec_fn(PartyMember) -> bool {
    |p: PartyMember| p.alive && lacks(p, x)
}

/// Text other than `x`.
pub open spec fn other_than(x: Seq<char>) -> spec_fn(String) -> bool {
    |s: String| s@ != x
}

/// `flags` holds `x`.
pub open spec fn has_flag(flags: Seq<String>, x: Seq<char>) -> bool {
    exists|k: int| 0 <= k < flags.len() && #[trigger] flags[k]@ == x
}

/// The state `b` and log `ob` are what effect `e` makes of state `a` and log `oa`.
/// Losing days is stated by what any journey step keeps.
pub open spec fn effect_done(a: GameState, b: GameState, e: Effect, oa: Seq<Outcome>, ob: Seq<Outcome>) -> bool {
    match e {
        Effect::Message(x) => b == a && ob == oa.push(Outcome::Message(x)),
        Effect::AdjustFood(x) => ob == oa && b == (GameState { inventory: b.inventory, ..a })
            && b.inventory.quantities.map() == adjusted(a.inventory, "food"@, x as int),
        Effect::AdjustItem { item_id, quantity } => ob == oa && b == (GameState { inventory: b.inventory, ..a })
            && b.inventory.quantities.map() == adjusted(a.inventory, item_id@, quantity as int),
        Effect::AdjustCash(x) => ob == oa && b == (GameState { cash_cents: cash_after(a.cash_cents, x), ..a }),
        Effect::AdjustMorale(x) => ob == oa && b == (GameState { party: b.party, ..a })
            && b.party@.len() == a.party@.len()
            && forall|i: int| 0 <= i < a.party@.len() ==> #[trigger] b.party@[i] == if a.party@[i].alive {
                PartyMember { morale: morale_after(a.party@[i].morale, x), ..a.party@[i] }
            } else {
                a.party@[i]
            },
        Effect::InflictAilment(x) => ob == oa && b == (GameState { party: b.party, ..a })
            && match find_first(a.party@, can_catch(x@)) {
                Some(i) => b.party@ == a.party@.update(i, PartyMember { ailments: b.party@[i].ailments, ..a.party@[i] })
                    && b.party@[i].ailments@ == a.party@[i].ailments@.push(x),
                None => b.party@ == a.party@,
            },
        Effect::HealAilment(x) => ob == oa && b == (GameState { party: b.party, ..a })
            && b.party@.len() == a.party@.len()
            && forall|i: int| 0 <= i < a.party@.len() ==> #[trigger] b.party@[i] == (PartyMember { ailments: b.party@[i].ailments, ..a.party@[i] })
                && b.party@[i].ailments@ == a.party@[i].ailments@.filter(other_than(x@)),
        Effect::LoseDays(x) => extends(oa, ob) && progressed(a, b)
            && a.day <= b.day && b.miles == a.miles && b.route_miles_remaining == a.route_miles_remaining
            && b.current_node_id == a.current_node_id && b.target_node_id == a.target_node_id
            && b.pending_event == a.pending_event && b.scheduled_events == a.scheduled_events
            && b.flags == a.flags && b.cash_cents == a.cash_cents
            && (b.status == a.status || b.status is Failed)
            && (x == 0 || a.status is Failed ==> b == a && ob == oa)
            && camp_days(a, b, oa, ob, if x < 365 { x as nat } else { 365 }),
        Effect::SetFlag(x) => ob == oa && b == (GameState { flags: b.flags, ..a })
            && b.flags@ == if has_flag(a.flags@, x@) { a.flags@ } else { a.flags@.push(x) },
        Effect::ClearFlag(x) => ob == oa && b == (GameState { flags: b.flags, ..a })
            && b.flags@ == a.flags@.filter(other_than(x@)),
        Effect::Schedule { event_id, days } => ob == oa && b == (GameState { scheduled_events: b.scheduled_events, ..a })
            && b.scheduled_events@ == a.scheduled_events@.push(PendingEvent { event_id, due_day: sat_add(a.day, days) }),
        _ => b == a && ob == oa,
    }
}

/// Up to `n` days in camp without rest took `a` to `b` and the log `oa` to `ob`, stopping
/// early when the journey fails.
#[verifier::opaque]
pub open spec fn camp_days(a: GameState, b: GameState, oa: Seq<Outcome>, ob: Seq<Outcome>, n: nat) -> bool
    decreases n,
{
    if n == 0 {
        b == a && ob == oa
    } else {
        exists|m: GameState, ml: Seq<Outcome>| #[trigger] camp_day(a, m, oa, ml, false)
            && if m.status is Failed { b == m && ob == ml } else { camp_days(m, b, ml, ob, (n - 1) as nat) }
    }
}

proof fn lemma_camp_days_grow(a: GameState, s: GameState, t: GameState, oa: Seq<Outcome>, os: Seq<Outcome>,
    ot: Seq<Outcome>, k: nat)
    requires
        camp_days(a, s, oa, os, k),
        k == 0 || !(s.status is Failed),
        camp_day(s, t, os, ot, false),
    ensures
        camp_days(a, t, oa, ot, k + 1),
    decreases k,
{
    reveal(camp_days);
    if k == 0 {
        assert(camp_days(t, t, ot, ot, 0));
        assert(camp_day(a, t, oa, ot, false));
    } else {
        let (m, ml) = choose|m: GameState, ml: Seq<Outcome>| #[trigger] camp_day(a, m, oa, ml, false)
            && if m.status is Failed { s == m && os == ml } else { camp_days(m, s, ml, os, (k - 1) as nat) };
        if !(m.status is Failed) {
            lemma_camp_days_grow(m, s, t, ml, os, ot, (k - 1) as nat);
        }
        assert(camp_day(a, m, oa, ml, false));
    }
}

proof fn lemma_camp_days_stop(a: GameState, b: GameState, oa: Seq<Outcome>, ob: Seq<Outcome>, k: nat, n: nat)
    requires
        camp_days(a, b, oa, ob, k),
        k > 0,
        b.status is Failed,
        k <= n,
    ensures
        camp_days(a, b, oa, ob, n),
    decreases k,
{
    reveal(camp_days);
    let (m, ml) = choose|m: GameState, ml: Seq<Outcome>| #[trigger] camp_day(a, m, oa, ml, false)
        && if m.status is Failed { b == m && ob == ml } else { camp_days(m, b, ml, ob, (k - 1) as nat) };
    if !(m.status is Failed) {
        if k - 1 == 0 {
            assert(b == m);
        }
        lemma_camp_days_stop(m, b, ml, ob, (k - 1) as nat, (n - 1) as nat);
    }
    assert(camp_day(a, m, oa, ml, false));
}

/// Effects `es`, one after another, took `a` to `b` and outcomes `oa` to `ob`: there are
/// states and outcome logs in between, each effect taking one to the next.
pub open spec fn effects_done(a: GameState, b: GameState, es: Seq<Effect>, oa: Seq<Outcome>, ob: Seq<Outcome>) -> bool {
    exists|states: Seq<GameState>, logs: Seq<Seq<Outcome>>| #[trigger] chained(states, logs, es) && {
        &&& states[0] == a
        &&& states.last() == b
        &&& logs[0] == oa
        &&& logs.last() == ob
    }
}

/// `states` and `logs` step through `es`, one effect per step.
pub open spec fn chained(states: Seq<GameState>, logs: Seq<Seq<Outcome>>, es: Seq<Effect>) -> bool {
    &&& states.len() == es.len() + 1
    &&& logs.len() == es.len() + 1
    &&& forall|k: int| 0 <= k < es.len() ==> #[trigger] effect_done(states[k], states[k + 1], es[k], logs[k], logs[k + 1])
}

/// What events keep, beyond `progressed`: the position on the trail, and a status that
/// is either unchanged or failed.
pub open spec fn steps_kept(a: GameState, b: GameState) -> bool {
    &&& progressed(a, b)
    &&& b.miles == a.miles
    &&& b.route_miles_remaining == a.route_miles_remaining
    &&& b.current_node_id == a.current_node_id
    &&& b.target_node_id == a.target_node_id
    &&& (b.status == a.status || b.status is Failed)
}

/// What every effect keeps: what events keep, and the pending event.
pub open spec fn effects_kept(a: GameState, b: GameState) -> bool {
    &&& steps_kept(a, b)
    &&& b.pending_event == a.pending_event
}

pub proof fn lemma_steps_trans(a: GameState, b: GameState, c: GameState)
    requires
        steps_kept(a, b),
        steps_kept(b, c),
    ensures
        steps_kept(a, c),
{
    crate::state::lemma_progressed_trans(a, b, c);
}

/// `v` without the entries equal to `x`, in order.
pub(crate) fn without(v: &Vec<String>, x: &str) -> (r: Vec<String>)
    ensures
        r@ == v@.filter(other_than(x@)),
{
    let mut r: Vec<String> = Vec::new();
    let mut i: usize = 0;
    while i < v.len()
        invariant
            i <= v@.len(),
            r@ == v@.subrange(0, i as int).filter(other_than(x@)),
        decreases v@.len() - i,
    {
        assert(v@.subrange(0, (i + 1) as int).drop_last() =~= v@.subrange(0, i as int));
        proof { reveal(Seq::filter); }
        if !same(v[i].as_str(), x) {
            r.push(v[i].clone());
        }
        i = i + 1;
    }
    assert(v@.subrange(0, v@.len() as int) =~= v@);
    r
}

fn magnitude(q: i32) -> (r: u32)
    requires
        q < 0,
    ensures
        r == -q,
{
    (-(q as i64)) as u32
}

impl GameState {
    /// Applies one effect.
    #[verifier::rlimit(60)]
    #[verifier::spinoff_prover]
    pub(crate) fn apply_effect(&mut self, e: &Effect, out: &mut Vec<Outcome>)
        requires
            old(self).rng.wf(),
        ensures
            effect_done(*old(self), *final(self), *e, old(out)@, final(out)@),
            effects_kept(*old(self), *final(self)),
            extends(old(out)@, final(out)@),
    {
        let ghost a = *self;
        let ghost oa = out@;
        proof { lemma_extends_refl(out@); }
        match e {
            Effect::Message(x) => {
                out.push(Outcome::Message(x.clone()));
                proof { lemma_extends_push(oa, oa, Outcome::Message(*x)); }
            },
            Effect::AdjustFood(x) => {
                if *x >= 0 {
                    self.inventory.add("food", *x as u32);
                } else {
                    let n = magnitude(*x);
                    self.inventory.take("food", n);
                }
            },
            Effect::AdjustItem { item_id, quantity } => {
                if *quantity >= 0 {
                    self.inventory.add(item_id.as_str(), *quantity as u32);
                } else {
                    let n = magnitude(*quantity);
                    self.inventory.take(item_id.as_str(), n);
                }
            },
            Effect::AdjustCash(x) => {
                let v: i128 = self.cash_cents as i128 + *x as i128;
                self.cash_cents = if v > i64::MAX as i128 { i64::MAX } else if v < 0 { 0 } else { v as i64 };
            },
            Effect::AdjustMorale(x) => {
                let mut i: usize = 0;
                while i < self.party.len()
                    invariant
                        i <= self.party@.len(),
                        self.party@.len() == a.party@.len(),
                        *self == (GameState { party: self.party, ..a }),
                        forall|j: int| i <= j < self.party@.len() ==> #[trigger] self.party@[j] == a.party@[j],
                        forall|j: int| 0 <= j < i ==> #[trigger] self.party@[j] == if a.party@[j].alive {
                            PartyMember { morale: morale_after(a.party@[j].morale, *x), ..a.party@[j] }
                        } else {
                            a.party@[j]
                        },
                    decreases self.party@.len() - i,
                {
                    if self.party[i].alive {
                        let v: i32 = self.party[i].morale as i32 + *x as i32;
                        self.party[i].morale = if v < 0 { 0 } else if v > 100 { 100 } else { v as i16 };
                    }
                    i = i + 1;
                }
            },
            Effect::InflictAilment(x) => {
                let mut i: usize = 0;
                let mut found = false;
                while i < self.party.len()
                    invariant_except_break
                        i <= self.party@.len(),
                        *self == a,
                        !found,
                        forall|j: int| 0 <= j < i ==> !#[trigger] can_catch(x@)(a.party@[j]),
                    ensures
                        *self == a,
                        found ==> i < a.party@.len() && find_first(a.party@, can_catch(x@)) == Some(i as int),
                        !found ==> forall|j: int| 0 <= j < a.party@.len() ==> !#[trigger] can_catch(x@)(a.party@[j]),
                    decreases self.party@.len() - i,
                {
                    if self.party[i].alive && !text_in(&self.party[i].ailments, x.as_str()) {
                        proof { lemma_first_is(a.party@, can_catch(x@), i as int); }
                        found = true;
                        break;
                    }
                    i = i + 1;
                }
                if found {
                    self.party[i].ailments.push(x.clone());
                    assert(self.party@ =~= a.party@.update(i as int, PartyMember { ailments: self.party@[i as int].ailments, ..a.party@[i as int] }));
                } else {
                    proof { lemma_first_none(a.party@, can_catch(x@)); }
                }
            },
            Effect::HealAilment(x) => {
                let mut i: usize = 0;
                while i < self.party.len()
                    invariant
                        i <= self.party@.len(),
                        self.party@.len() == a.party@.len(),
                        *self == (GameState { party: self.party, ..a }),
                        forall|j: int| i <= j < self.party@.len() ==> #[trigger] self.party@[j] == a.party@[j],
                        forall|j: int| 0 <= j < i ==> #[trigger] self.party@[j] == (PartyMember { ailments: self.party@[j].ailments, ..a.party@[j] })
                            && self.party@[j].ailments@ == a.party@[j].ailments@.filter(other_than(x@)),
                    decreases self.party@.len() - i,
                {
                    let kept = without(&self.party[i].ailments, x.as_str());
                    self.party[i].ailments = kept;
                    i = i + 1;
                }
            },
            Effect::LoseDays(x) => {
                let n: u32 = if *x < 365 { *x } else { 365 };
                let mut k: u32 = 0;
                proof { crate::state::lemma_progressed_refl(a); reveal(camp_days); }
                while k < n
                    invariant_except_break
                        camp_days(a, *self, oa, out@, k as nat),
                        k == 0 || !(self.status is Failed),
                    invariant
                        k <= n,
                        a.rng.wf(),
                        extends(oa, out@),
                        progressed(a, *self),
                        a.day <= self.day,
                        self.miles == a.miles,
                        self.route_miles_remaining == a.route_miles_remaining,
                        self.current_node_id == a.current_node_id,
                        self.target_node_id == a.target_node_id,
                        self.pending_event == a.pending_event,
                        self.scheduled_events == a.scheduled_events,
                        self.flags == a.flags,
                        self.cash_cents == a.cash_cents,
                        self.status == a.status || self.status is Failed,
                        a.status is Failed ==> *self == a && out@ == oa,
                        n == 0 ==> *self == a && out@ == oa,
                    ensures
                        camp_days(a, *self, oa, out@, n as nat),
                    decreases n - k,
                {
                    let ghost before = *self;
                    let ghost before_out = out@;
                    self.pass_camp_day(out, false);
                    proof {
                        crate::state::lemma_progressed_trans(a, before, *self);
                        lemma_extends_trans(oa, before_out, out@);
                        lemma_camp_days_grow(a, before, *self, oa, before_out, out@, k as nat);
                    }
                    if matches!(self.status, RunStatus::Failed) {
                        proof { lemma_camp_days_stop(a, *self, oa, out@, (k + 1) as nat, n as nat); }
                        break;
                    }
                    k = k + 1;
                }
            },
            Effect::SetFlag(x) => {
                if !text_in(&self.flags, x.as_str()) {
                    self.flags.push(x.clone());
                }
            },
            Effect::ClearFlag(x) => {
                let kept = without(&self.flags, x.as_str());
                self.flags = kept;
            },
            Effect::Schedule { event_id, days } => {
                let due = self.day.saturating_add(*days);
                self.scheduled_events.push(PendingEvent { event_id: event_id.clone(), due_day: due });
            },
            _ => {},
        }
        proof {
            if !(e is LoseDays) {
                assert(progressed(a, *self)) by {
                    if sound_party(a.party@) {
                        assert forall|i: int| 0 <= i < self.party@.len() implies {
                            &&& (#[trigger] self.party@[i]).health <= 100
                            &&& self.party@[i].alive ==> self.party@[i].health > 0
                            &&& 0 <= self.party@[i].morale <= 100
                        } by {
                            assert(a.party@[i].health <= 100);
                        }
                    }
                }
            }
        }
    }
}


// ---------------------------------------------------------------------------------------
// Sequences of effects.

/// Effects leave a state ready for further commands.
pub proof fn lemma_kept_ready(a: GameState, b: GameState)
    requires
        progressed(a, b),
        a.ready(),
    ensures
        b.ready(),
{
}

proof fn lemma_kept_trans(a: GameState, b: GameState, c: GameState)
    requires
        effects_kept(a, b),
        effects_kept(b, c),
    ensures
        effects_kept(a, c),
{
    crate::state::lemma_progressed_trans(a, b, c);
}

pub(crate) fn copy_effects(v: &Vec<Effect>) -> (r: Vec<Effect>)
    ensures
        r@ == v@,
{
    let mut r: Vec<Effect> = Vec::new();
    let mut i: usize = 0;
    while i < v.len()
        invariant
            i <= v@.len(),
            r@ == v@.subrange(0, i as int),
        decreases v@.len() - i,
    {
        r.push(v[i].duplicate());
        assert(r@ =~= v@.subrange(0, (i + 1) as int));
        i = i + 1;
    }
    assert(v@.subrange(0, v@.len() as int) =~= v@);
    r
}

impl GameState {
    /// Applies effects in order.
    pub(crate) fn effects(&mut self, es: &Vec<Effect>, out: &mut Vec<Outcome>)
        requires
            old(self).rng.wf(),
        ensures
            effects_kept(*old(self), *final(self)),
            extends(old(out)@, final(out)@),
            es@.len() == 0 ==> *final(self) == *old(self) && final(out)@ == old(out)@,
            effects_done(*old(self), *final(self), es@, old(out)@, final(out)@),
    {
        let ghost a = *self;
        let ghost oa = out@;
        let ghost mut states: Seq<GameState> = seq![a];
        let ghost mut logs: Seq<Seq<Outcome>> = seq![oa];
        proof {
            lemma_extends_refl(out@);
            crate::state::lemma_progressed_refl(a);
        }
        let mut i: usize = 0;
        while i < es.len()
            invariant
                i <= es@.len(),
                a.rng.wf(),
                effects_kept(a, *self),
                extends(oa, out@),
                i == 0 ==> *self == a && out@ == oa,
                chained(states, logs, es@.take(i as int)),
                states[0] == a,
                states.last() == *self,
                logs[0] == oa,
                logs.last() == out@,
            decreases es@.len() - i,
        {
            let ghost before = *self;
            let ghost before_out = out@;
            self.apply_effect(&es[i], out);
            proof {
                lemma_kept_trans(a, before, *self);
                lemma_extends_trans(oa, before_out, out@);
                let t = es@.take(i + 1);
                let ns = states.push(*self);
                let nl = logs.push(out@);
                assert forall|k: int| 0 <= k < t.len() implies #[trigger] effect_done(ns[k], ns[k + 1], t[k], nl[k], nl[k + 1]) by {
                    if k < i {
                        assert(t[k] == es@.take(i as int)[k]);
                        assert(effect_done(states[k], states[k + 1], es@.take(i as int)[k], logs[k], logs[k + 1]));
                    } else {
                        assert(t[k] == es@[i as int]);
                    }
                }
                states = ns;
                logs = nl;
            }
            i = i + 1;
        }
        proof {
            assert(es@.take(es@.len() as int) =~= es@);
            assert(chained(states, logs, es@));
        }
    }
}

// ---------------------------------------------------------------------------------------
// Choices.

/// How many of `id` a stock of supplies holds.
pub open spec fn in_stock(stock: Map<Seq<char>, u32>, id: Seq<char>) -> u32 {
    if stock.dom().contains(id) { stock[id] } else { 0 }
}

/// `c + x` saturated to the range of `i64`.
pub open spec fn sat_add_i64(c: i64, x: i64) -> i64 {
    if c + x > i64::MAX {
        i64::MAX
    } else if c + x < i64::MIN {
        i64::MIN
    } else {
        (c + x) as i64
    }
}

/// Whether the party can pay for effects `es` in order, starting from `cash` and `stock`:
/// cash never falls below zero, and no item is taken that is not there.
pub open spec fn affordable(cash: i64, stock: Map<Seq<char>, u32>, es: Seq<Effect>) -> bool
    decreases es.len(),
{
    if es.len() == 0 {
        true
    } else {
        let rest = es.drop_first();
        match es[0] {
            Effect::AdjustCash(x) => sat_add_i64(cash, x) >= 0 && affordable(sat_add_i64(cash, x), stock, rest),
            Effect::AdjustItem { item_id, quantity } => {
                let have = in_stock(stock, item_id@);
                if quantity < 0 {
                    have + quantity >= 0 && affordable(cash, stock.insert(item_id@, (have + quantity) as u32), rest)
                } else if quantity > 0 {
                    affordable(cash, stock.insert(item_id@, if have + quantity > u32::MAX { u32::MAX } else { (have + quantity) as u32 }), rest)
                } else {
                    affordable(cash, stock, rest)
                }
            },
            _ => affordable(cash, stock, rest),
        }
    }
}

impl GameState {
    /// Whether a choice can be taken now: its conditions hold and the party can pay for it.
    pub fn choice_available(&self, choice: &EventChoice) -> (r: bool)
        requires
            1 <= self.departure_month <= 12,
            self.eras_in_range(),
        ensures
            r == (all_hold(*self, choice.conditions@)
                && affordable(self.cash_cents, self.inventory.quantities.map(), choice.effects@)),
    {
        if !self.all_match(&choice.conditions) {
            return false;
        }
        let es = &choice.effects;
        let mut cash = self.cash_cents;
        let mut supplies = self.inventory.duplicate();
        let mut i: usize = 0;
        assert(es@.subrange(0, es@.len() as int) =~= es@);
        while i < es.len()
            invariant
                i <= es@.len(),
                es@ == choice.effects@,
                all_hold(*self, choice.conditions@),
                affordable(cash, supplies.quantities.map(), es@.subrange(i as int, es@.len() as int))
                    == affordable(self.cash_cents, self.inventory.quantities.map(), es@),
            decreases es@.len() - i,
        {
            let ghost tail = es@.subrange(i as int, es@.len() as int);
            assert(tail.drop_first() =~= es@.subrange(i + 1, es@.len() as int));
            assert(tail[0] == es@[i as int]);
            let ghost c0 = cash;
            let ghost s0 = supplies.quantities.map();
            match &es[i] {
                Effect::AdjustCash(x) => {
                    let v: i128 = cash as i128 + *x as i128;
                    cash = if v > i64::MAX as i128 { i64::MAX } else if v < i64::MIN as i128 { i64::MIN } else { v as i64 };
                    if cash < 0 {
                        assert(!affordable(c0, s0, tail));
                        return false;
                    }
                },
                Effect::AdjustItem { item_id, quantity } => {
                    if *quantity < 0 {
                        let n = magnitude(*quantity);
                        if !supplies.remove(item_id.as_str(), n) {
                            assert(!affordable(c0, s0, tail));
                            return false;
                        }
                    } else if *quantity > 0 {
                        supplies.add(item_id.as_str(), *quantity as u32);
                    }
                },
                _ => {},
            }
            i = i + 1;
        }
        true
    }
}

// ---------------------------------------------------------------------------------------
// Triggering events.

/// The state `b` and log `ob` are what triggering event `id` makes of `a` and `oa`: an
/// unknown id does nothing; a known event is announced, its effects apply, and an event
/// with choices waits for an answer.
pub open spec fn trigger_done(a: GameState, b: GameState, id: Seq<char>, oa: Seq<Outcome>, ob: Seq<Outcome>) -> bool {
    match find_first(a.content.events@, event_named(id)) {
        None => b == a && ob == oa,
        Some(i) => {
            let e = a.content.events@[i];
            &&& ob.len() > oa.len()
            &&& ob[oa.len() as int] == (Outcome::Event { event_id: e.id, text: e.text })
            &&& b.pending_event == if e.choices@.len() > 0 { Some(e.id) } else { a.pending_event }
            &&& progressed(a, b)
            &&& b.miles == a.miles
            &&& b.route_miles_remaining == a.route_miles_remaining
            &&& b.current_node_id == a.current_node_id
            &&& b.target_node_id == a.target_node_id
            &&& (b.status == a.status || b.status is Failed)
            &&& exists|mid: GameState| #[trigger] effects_done(a, mid, e.effects@, oa.push(Outcome::Event { event_id: e.id, text: e.text }), ob)
                && b == if e.choices@.len() > 0 { GameState { pending_event: Some(e.id), ..mid } } else { mid }
        },
    }
}

/// Events whose time has come: scheduled no later than `day`.
pub open spec fn is_due(day: u32) -> spec_fn(PendingEvent) -> bool {
    |p: PendingEvent| p.due_day <= day
}

/// An event that may be drawn in state `s`: it has weight and its conditions hold.
pub open spec fn eligible(s: GameState) -> spec_fn(EventDefinition) -> bool {
    |e: EventDefinition| e.weight > 0 && all_hold(s, e.conditions@)
}

/// Sum of the weights.
pub open spec fn weight_total(ws: Seq<u32>) -> int
    decreases ws.len(),
{
    if ws.len() == 0 { 0 } else { weight_total(ws.drop_last()) + ws.last() }
}

/// The entry a roll lands on when the weights are laid end to end.
pub open spec fn pick(ws: Seq<u32>, roll: int) -> Option<int>
    decreases ws.len(),
{
    if ws.len() == 0 {
        None
    } else if roll < ws[0] {
        Some(0)
    } else {
        match pick(ws.drop_first(), roll - ws[0]) {
            Some(k) => Some(k + 1),
            None => None,
        }
    }
}

proof fn lemma_total_front(ws: Seq<u32>)
    requires
        ws.len() > 0,
    ensures
        weight_total(ws) == ws[0] + weight_total(ws.drop_first()),
    decreases ws.len(),
{
    if ws.len() > 1 {
        let l = ws.drop_last();
        let f = ws.drop_first();
        lemma_total_front(l);
        assert(l.drop_first() =~= f.drop_last());
        assert(f.last() == ws.last());
        assert(l[0] == ws[0]);
        assert(weight_total(ws) == weight_total(l) + ws.last());
        assert(weight_total(f) == weight_total(f.drop_last()) + f.last());
        assert(weight_total(l) == l[0] + weight_total(l.drop_first()));
    } else {
        assert(ws.drop_first().len() == 0);
        assert(ws.drop_last().len() == 0);
        assert(ws.last() == ws[0]);
        assert(weight_total(ws.drop_last()) == 0);
        assert(weight_total(ws.drop_first()) == 0);
        assert(weight_total(ws) == weight_total(ws.drop_last()) + ws.last());
    }
}

/// A roll below the total lands on some entry.
pub proof fn lemma_pick_lands(ws: Seq<u32>, roll: int)
    requires
        0 <= roll < weight_total(ws),
    ensures
        pick(ws, roll) matches Some(k) && 0 <= k < ws.len(),
    decreases ws.len(),
{
    if ws.len() == 0 {
    } else {
        lemma_total_front(ws);
        if roll >= ws[0] {
            lemma_pick_lands(ws.drop_first(), roll - ws[0]);
        }
    }
}

proof fn lemma_pick_bounds(ws: Seq<u32>, roll: int)
    ensures
        pick(ws, roll) matches Some(k) ==> 0 <= k < ws.len(),
    decreases ws.len(),
{
    if ws.len() > 0 && roll >= ws[0] {
        lemma_pick_bounds(ws.drop_first(), roll - ws[0]);
    }
}

/// Positions of the events eligible in `a` among the first `n` of the content, in order.
pub open spec fn eligible_among(a: GameState, n: int) -> Seq<int>
    decreases n,
{
    if n <= 0 {
        Seq::empty()
    } else if eligible(a)(a.content.events@[n - 1]) {
        eligible_among(a, n - 1).push(n - 1)
    } else {
        eligible_among(a, n - 1)
    }
}

/// The weights laid end to end, the sum stopping at the top of `u64`.
pub open spec fn total_of(ws: Seq<u32>, k: int) -> u64
    decreases k,
{
    if k <= 0 {
        0
    } else {
        let t = total_of(ws, k - 1);
        if t + ws[k - 1] > u64::MAX { u64::MAX } else { (t + ws[k - 1]) as u64 }
    }
}

/// The day's event draw from `a` to `b`, logs `oa` to `ob`, over the "events" stream. With
/// no eligible event nothing changes. Otherwise a percentile is drawn, and from 15 up no
/// event comes; below 15 a second draw below the eligible events' total weight picks the
/// event in proportion to its weight, and that event is triggered. Only the "events"
/// stream moves.
pub open spec fn event_drawn(a: GameState, b: GameState, oa: Seq<Outcome>, ob: Seq<Outcome>) -> bool {
    let el = eligible_among(a, a.content.events@.len() as int);
    if el.len() == 0 {
        b == a && ob == oa
    } else {
        let p = a.rng.position("events"@);
        let c = chacha_below_draw(p.0, p.1, p.2, 100);
        let p1 = advanced(p, c.1);
        if c.0 >= 15 {
            b == (GameState { rng: b.rng, ..a }) && moved_only(a.rng, b.rng, "events"@, p1) && ob == oa
        } else {
            let ws = el.map_values(|j: int| a.content.events@[j].weight);
            let r = chacha_below_wide_draw(p1.0, p1.1, p1.2, total_of(ws, ws.len() as int));
            let p2 = advanced(p1, r.1);
            match pick(ws, r.0 as int) {
                None => b == (GameState { rng: b.rng, ..a }) && moved_only(a.rng, b.rng, "events"@, p2) && ob == oa,
                Some(q) => exists|mid: GameState| #[trigger] moved_only(a.rng, mid.rng, "events"@, p2)
                    && mid == (GameState { rng: mid.rng, ..a })
                    && trigger_done(mid, b, a.content.events@[el[q]].id@, oa, ob),
            }
        }
    }
}

/// The entry of `weights` on which `roll` lands when they are laid end to end.
pub fn pick_weighted(weights: &Vec<u32>, roll: u64) -> (r: Option<usize>)
    ensures
        pos_of(r) == pick(weights@, roll as int),
{
    let mut rest: u64 = roll;
    let mut i: usize = 0;
    assert(weights@.subrange(0, weights@.len() as int) =~= weights@);
    while i < weights.len()
        invariant
            i <= weights@.len(),
            rest <= roll,
            pick(weights@, roll as int) == match pick(weights@.subrange(i as int, weights@.len() as int), rest as int) {
                Some(k) => Some(k + i),
                None => None,
            },
        decreases weights@.len() - i,
    {
        let ghost tail = weights@.subrange(i as int, weights@.len() as int);
        assert(tail.drop_first() =~= weights@.subrange(i + 1, weights@.len() as int));
        if rest < weights[i] as u64 {
            return Some(i);
        }
        rest = rest - weights[i] as u64;
        i = i + 1;
    }
    None
}

/// An `Option<usize>` read as an optional position.
pub open spec fn pos_of(r: Option<usize>) -> Option<int> {
    match r {
        Some(i) => Some(i as int),
        None => None,
    }
}

impl GameState {
    /// Announces event `id`, applies its effects, and waits for an answer when it offers choices.
    pub(crate) fn trigger(&mut self, id: &str, out: &mut Vec<Outcome>)
        requires
            old(self).rng.wf(),
        ensures
            trigger_done(*old(self), *final(self), id@, old(out)@, final(out)@),
            steps_kept(*old(self), *final(self)),
            extends(old(out)@, final(out)@),
    {
        let ghost a = *self;
        let ghost oa = out@;
        proof { lemma_extends_refl(out@); crate::state::lemma_progressed_refl(a); }
        let i = match find_event(&self.content.events, id) {
            Some(i) => i,
            None => return,
        };
        proof { lemma_first_facts(a.content.events@, event_named(id@)); }
        let eid = self.content.events[i].id.clone();
        let text = self.content.events[i].text.clone();
        let has_choices = self.content.events[i].choices.len() > 0;
        let es = copy_effects(&self.content.events[i].effects);
        out.push(Outcome::Event { event_id: eid.clone(), text });
        proof { lemma_extends_push(oa, oa, out@.last()); }
        let ghost mid_out = out@;
        self.effects(&es, out);
        let ghost mid = *self;
        proof { lemma_extends_trans(oa, mid_out, out@); }
        assert(out@[oa.len() as int] == mid_out[oa.len() as int]) by {
            assert(out@.subrange(0, mid_out.len() as int) == mid_out);
        }
        if has_choices {
            self.pending_event = Some(eid);
        }
    }
}


/// Firing what was due took `a` to `b` and the log `oa` to `ob`: the first scheduled
/// event due today, if any, leaves the schedule and is triggered.
pub open spec fn due_done(a: GameState, b: GameState, oa: Seq<Outcome>, ob: Seq<Outcome>) -> bool {
    &&& extends(oa, ob)
    &&& steps_kept(a, b)
    &&& match find_first(a.scheduled_events@, is_due(a.day)) {
        None => b == a && ob == oa,
        Some(i) => exists|mid: GameState| #![trigger mid.scheduled_events]
            mid == (GameState { scheduled_events: mid.scheduled_events, ..a })
            && mid.scheduled_events@ == a.scheduled_events@.remove(i)
            && trigger_done(mid, b, a.scheduled_events@[i].event_id@, oa, ob),
    }
}

/// The day's event roll took `a` to `b` and the log `oa` to `ob`: with no eligible event
/// nothing changes; otherwise either no event comes (only the random stream moves on),
/// or one eligible event is drawn and triggered.
pub open spec fn event_done(a: GameState, b: GameState, oa: Seq<Outcome>, ob: Seq<Outcome>) -> bool {
    &&& extends(oa, ob)
    &&& steps_kept(a, b)
    &&& (forall|j: int| 0 <= j < a.content.events@.len() ==> !#[trigger] eligible(a)(a.content.events@[j]))
        ==> b == a && ob == oa
    &&& (b == (GameState { rng: b.rng, ..a }) && b.rng.wf() && b.rng.master() == a.rng.master() && ob == oa)
        || exists|mid: GameState, j: int| #![trigger mid.rng, a.content.events@[j]]
            0 <= j < a.content.events@.len() && eligible(a)(a.content.events@[j])
            && mid == (GameState { rng: mid.rng, ..a }) && mid.rng.wf() && mid.rng.master() == a.rng.master()
            && trigger_done(mid, b, a.content.events@[j].id@, oa, ob)
}

impl GameState {
    /// Triggers the first scheduled event whose day has come, if any.
    pub(crate) fn due(&mut self, out: &mut Vec<Outcome>)
        requires
            old(self).rng.wf(),
        ensures
            due_done(*old(self), *final(self), old(out)@, final(out)@),
    {
        proof { lemma_extends_refl(out@); }
        let ghost a_out = out@;
        let mut i: usize = 0;
        let mut found = false;
        while i < self.scheduled_events.len()
            invariant_except_break
                i <= self.scheduled_events@.len(),
                !found,
                forall|j: int| 0 <= j < i ==> !#[trigger] is_due(self.day)(self.scheduled_events@[j]),
            ensures
                found ==> i < self.scheduled_events@.len() && is_due(self.day)(self.scheduled_events@[i as int]),
                found ==> forall|j: int| 0 <= j < i ==> !#[trigger] is_due(self.day)(self.scheduled_events@[j]),
                !found ==> forall|j: int| 0 <= j < self.scheduled_events@.len() ==> !#[trigger] is_due(self.day)(self.scheduled_events@[j]),
            decreases self.scheduled_events@.len() - i,
        {
            if self.scheduled_events[i].due_day <= self.day {
                found = true;
                break;
            }
            i = i + 1;
        }
        if !found {
            proof {
                lemma_first_none(self.scheduled_events@, is_due(self.day));
                crate::state::lemma_progressed_refl(*self);
            }
            return;
        }
        proof { lemma_first_is(self.scheduled_events@, is_due(self.day), i as int); }
        let ghost a = *self;
        let due = self.scheduled_events.remove(i);
        let ghost mid = *self;
        assert(mid == (GameState { scheduled_events: mid.scheduled_events, ..a }));
        assert(mid.scheduled_events@ == a.scheduled_events@.remove(i as int));
        assert(due == a.scheduled_events@[i as int]);
        self.trigger(due.event_id.as_str(), out);
        assert(trigger_done(mid, *self, a.scheduled_events@[i as int].event_id@, a_out, out@));
        proof {
            crate::state::lemma_progressed_refl(a);
            assert(steps_kept(a, mid));
            lemma_steps_trans(a, mid, *self);
        }
    }

    /// On some days an eligible event is drawn, in proportion to its weight, and triggered.
    pub fn event(&mut self, out: &mut Vec<Outcome>)
        requires
            old(self).ready(),
        ensures
            event_done(*old(self), *final(self), old(out)@, final(out)@),
            event_drawn(*old(self), *final(self), old(out)@, final(out)@),
    {
        let ghost a = *self;
        proof { lemma_extends_refl(out@); crate::state::lemma_progressed_refl(a); }
        let mut idx: Vec<usize> = Vec::new();
        let mut ws: Vec<u32> = Vec::new();
        let mut i: usize = 0;
        while i < self.content.events.len()
            invariant
                i <= self.content.events@.len(),
                *self == a,
                a.ready(),
                idx@.len() == ws@.len(),
                forall|k: int| 0 <= k < idx@.len() ==> #[trigger] idx@[k] < a.content.events@.len()
                    && eligible(a)(a.content.events@[idx@[k] as int]) && ws@[k] == a.content.events@[idx@[k] as int].weight,
                idx@.len() == 0 ==> forall|j: int| 0 <= j < i ==> !#[trigger] eligible(a)(a.content.events@[j]),
                idx@.len() == eligible_among(a, i as int).len(),
                forall|k: int| 0 <= k < idx@.len() ==> #[trigger] idx@[k] as int == eligible_among(a, i as int)[k],
            decreases self.content.events@.len() - i,
        {
            if self.content.events[i].weight > 0 && self.all_match(&self.content.events[i].conditions) {
                idx.push(i);
                ws.push(self.content.events[i].weight);
            }
            i = i + 1;
        }
        let ghost el = eligible_among(a, a.content.events@.len() as int);
        if idx.len() == 0 {
            return;
        }
        assert(idx@[0] < a.content.events@.len() && eligible(a)(a.content.events@[idx@[0] as int]));
        let ghost wsa = el.map_values(|j: int| a.content.events@[j].weight);
        assert(ws@ =~= wsa) by {
            assert forall|k: int| 0 <= k < ws@.len() implies ws@[k] == wsa[k] by {
                assert(idx@[k] as int == el[k]);
            }
        }
        let chance = self.rng.roll("events", 100);
        if chance >= 15 {
            return;
        }
        let mut total: u64 = 0;
        let mut k: usize = 0;
        assert(ws@[0] > 0);
        while k < ws.len()
            invariant
                k <= ws@.len(),
                ws@.len() > 0,
                ws@[0] > 0,
                k > 0 ==> total > 0,
                total == total_of(ws@, k as int),
            decreases ws@.len() - k,
        {
            total = total.saturating_add(ws[k] as u64);
            k = k + 1;
        }
        let roll = self.rng.roll_wide("events", total);
        let ghost mid = *self;
        match pick_weighted(&ws, roll) {
            Some(p) => {
                proof {
                    lemma_pick_bounds(ws@, roll as int);
                    assert(idx@[p as int] < a.content.events@.len());
                }
                let j = idx[p];
                let id = self.content.events[j].id.clone();
                assert(steps_kept(a, mid));
                proof {
                    assert(idx@[p as int] as int == el[p as int]);
                    assert(moved_only(a.rng, mid.rng, "events"@, mid.rng.position("events"@)));
                }
                let ghost before_out = out@;
                self.trigger(id.as_str(), out);
                proof {
                    assert(before_out == old(out)@);
                    assert(trigger_done(mid, *self, a.content.events@[el[p as int]].id@, old(out)@, out@));
                }
                proof { lemma_steps_trans(a, mid, *self); }
                assert(mid.rng == mid.rng && a.content.events@[j as int] == a.content.events@[j as int]);
            },
            None => {},
        }
    }
}

} // verus!
