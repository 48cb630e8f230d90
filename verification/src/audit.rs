//! Checks that a saved journey is coherent before a front end navigates its content ids.

use vstd::prelude::*;
use crate::content::{AilmentDefinition, EventDefinition, LandmarkDefinition, RouteDefinition};
use crate::health::PartyMember;
use crate::lookup::{find_first, lemma_first_is, lemma_first_none, lemma_first_facts};
use crate::state::{GameState, CommandError, Rejection, RunStatus, PendingEvent, is_rejection, names_text,
    trail_named, era_named, occupation_named, find_trail, find_era, find_occupation, find_node, find_event,
    find_ailment, node_named, event_named, ailment_named};

verus! {

/// A member whose numbers no journey can produce.
pub open spec fn member_broken(m: PartyMember) -> bool {
    m.health > 100 || !(0 <= m.morale <= 100) || (m.alive && m.health == 0)
}

/// Some landmark of `nodes` has id `id`.
pub open spec fn node_exists(nodes: Seq<LandmarkDefinition>, id: Seq<char>) -> bool {
    exists|k: int| 0 <= k < nodes.len() && #[trigger] nodes[k].id@ == id
}

/// A route that leads to no landmark of `nodes`.
pub open spec fn dangling(nodes: Seq<LandmarkDefinition>) -> spec_fn(RouteDefinition) -> bool {
    |r: RouteDefinition| !node_exists(nodes, r.target_id@)
}

/// The first route target, from landmark `k` on, that names no landmark of the trail.
pub open spec fn first_dangling(nodes: Seq<LandmarkDefinition>, k: int) -> Option<Seq<char>>
    decreases nodes.len() - k,
{
    if k < 0 || k >= nodes.len() {
        None
    } else {
        match find_first(nodes[k].routes@, dangling(nodes)) {
            Some(j) => Some(nodes[k].routes@[j].target_id@),
            None => first_dangling(nodes, k + 1),
        }
    }
}

/// No event of `events` has id `id`.
pub open spec fn unknown_event(events: Seq<EventDefinition>) -> spec_fn(PendingEvent) -> bool {
    |p: PendingEvent| find_first(events, event_named(p.event_id@)) is None
}

/// No ailment of `defs` has id `id`.
pub open spec fn unknown_ailment(defs: Seq<AilmentDefinition>) -> spec_fn(String) -> bool {
    |a: String| find_first(defs, ailment_named(a@)) is None
}

/// The first ailment, from member `k` on, that names no known ailment.
pub open spec fn first_unknown_ailment(defs: Seq<AilmentDefinition>, members: Seq<PartyMember>, k: int) -> Option<Seq<char>>
    decreases members.len() - k,
{
    if k < 0 || k >= members.len() {
        None
    } else {
        match find_first(members[k].ailments@, unknown_ailment(defs)) {
            Some(j) => Some(members[k].ailments@[j]@),
            None => first_unknown_ailment(defs, members, k + 1),
        }
    }
}

/// The id a status names, for statuses that stand at a landmark.
pub open spec fn status_place(s: RunStatus) -> Option<String> {
    match s {
        RunStatus::AtLandmark(id) => Some(id),
        RunStatus::AwaitingFork(id) => Some(id),
        RunStatus::AwaitingRiver(id) => Some(id),
        _ => None,
    }
}

/// Why a saved journey would be refused, if it would be, in the order of the checks.
pub open spec fn audit_refusal(s: GameState) -> Option<Rejection> {
    if s.party@.len() > 12 || !(3 <= s.departure_month <= 7) || s.day > 3660 || s.cash_cents < 0
        || (exists|i: int| 0 <= i < s.party@.len() && #[trigger] member_broken(s.party@[i])) {
        Some(Rejection::Setup)
    } else if !(s.status is Setup) && (s.trail_id is None || s.era_id is None || s.occupation_id is None
        || s.current_node_id is None || s.party@.len() == 0) {
        Some(Rejection::Setup)
    } else if s.trail_id is Some && find_first(s.content.trails@, trail_named(s.trail_id->0@)) is None {
        Some(Rejection::Unknown(s.trail_id->0@))
    } else if s.trail_id is Some && first_dangling(s.content.trails@[find_first(s.content.trails@, trail_named(s.trail_id->0@))->0].nodes@, 0) is Some {
        Some(Rejection::Unknown(first_dangling(s.content.trails@[find_first(s.content.trails@, trail_named(s.trail_id->0@))->0].nodes@, 0)->0))
    } else if s.trail_id is Some && s.current_node_id is Some
        && !node_exists(s.content.trails@[find_first(s.content.trails@, trail_named(s.trail_id->0@))->0].nodes@, s.current_node_id->0@) {
        Some(Rejection::Unknown(s.current_node_id->0@))
    } else if s.trail_id is Some && s.target_node_id is Some
        && !node_exists(s.content.trails@[find_first(s.content.trails@, trail_named(s.trail_id->0@))->0].nodes@, s.target_node_id->0@) {
        Some(Rejection::Unknown(s.target_node_id->0@))
    } else if s.era_id is Some && find_first(s.content.eras@, era_named(s.era_id->0@)) is None {
        Some(Rejection::Unknown(s.era_id->0@))
    } else if s.occupation_id is Some && find_first(s.content.occupations@, occupation_named(s.occupation_id->0@)) is None {
        Some(Rejection::Unknown(s.occupation_id->0@))
    } else if s.status is Travelling && (s.target_node_id is None || s.route_miles_remaining == 0) {
        Some(Rejection::Setup)
    } else if !(s.status is Travelling || s.status is Failed) && s.target_node_id is Some {
        Some(Rejection::Setup)
    } else if status_place(s.status) is Some && !names_text(s.current_node_id, status_place(s.status)->0@) {
        Some(Rejection::Setup)
    } else if (s.status is Arrived || s.status is Failed) && s.pending_event is Some {
        Some(Rejection::Setup)
    } else if s.pending_event is Some && find_first(s.content.events@, event_named(s.pending_event->0@)) is None {
        Some(Rejection::Unknown(s.pending_event->0@))
    } else if find_first(s.scheduled_events@, unknown_event(s.content.events@)) is Some {
        Some(Rejection::Unknown(s.scheduled_events@[find_first(s.scheduled_events@, unknown_event(s.content.events@))->0].event_id@))
    } else if first_unknown_ailment(s.content.ailments@, s.party@, 0) is Some {
        Some(Rejection::Unknown(first_unknown_ailment(s.content.ailments@, s.party@, 0)->0))
    } else {
        None
    }
}

fn has_node(nodes: &Vec<LandmarkDefinition>, id: &str) -> (r: bool)
    ensures
        r == node_exists(nodes@, id@),
{
    match find_node(nodes, id) {
        Some(_) => {
            proof { lemma_first_facts(nodes@, node_named(id@)); }
            true
        },
        None => {
            proof {
                lemma_first_facts(nodes@, node_named(id@));
                assert forall|k: int| 0 <= k < nodes@.len() implies !(#[trigger] nodes@[k].id@ == id@) by {
                    assert(!node_named(id@)(nodes@[k]));
                }
            }
            false
        },
    }
}

fn dangling_target(nodes: &Vec<LandmarkDefinition>) -> (r: Option<String>)
    ensures
        match r {
            Some(t) => first_dangling(nodes@, 0) == Some(t@),
            None => first_dangling(nodes@, 0) is None,
        },
{
    let mut k: usize = 0;
    while k < nodes.len()
        invariant
            k <= nodes@.len(),
            first_dangling(nodes@, 0) == first_dangling(nodes@, k as int),
        decreases nodes@.len() - k,
    {
        let routes = &nodes[k].routes;
        let mut j: usize = 0;
        while j < routes.len()
            invariant
                k < nodes@.len(),
                routes@ == nodes@[k as int].routes@,
                first_dangling(nodes@, 0) == first_dangling(nodes@, k as int),
                j <= routes@.len(),
                forall|i: int| 0 <= i < j ==> !#[trigger] dangling(nodes@)(routes@[i]),
            decreases routes@.len() - j,
        {
            if !has_node(nodes, routes[j].target_id.as_str()) {
                proof {
                    lemma_first_is(routes@, dangling(nodes@), j as int);
                    assert(first_dangling(nodes@, k as int) == Some(routes@[j as int].target_id@));
                }
                return Some(routes[j].target_id.clone());
            }
            j = j + 1;
        }
        proof { lemma_first_none(routes@, dangling(nodes@)); }
        k = k + 1;
    }
    None
}

fn unknown_ailment_in(defs: &Vec<AilmentDefinition>, members: &Vec<PartyMember>) -> (r: Option<String>)
    ensures
        match r {
            Some(t) => first_unknown_ailment(defs@, members@, 0) == Some(t@),
            None => first_unknown_ailment(defs@, members@, 0) is None,
        },
{
    let mut k: usize = 0;
    while k < members.len()
        invariant
            k <= members@.len(),
            first_unknown_ailment(defs@, members@, 0) == first_unknown_ailment(defs@, members@, k as int),
        decreases members@.len() - k,
    {
        let ids = &members[k].ailments;
        let mut j: usize = 0;
        while j < ids.len()
            invariant
                k < members@.len(),
                ids@ == members@[k as int].ailments@,
                first_unknown_ailment(defs@, members@, 0) == first_unknown_ailment(defs@, members@, k as int),
                j <= ids@.len(),
                forall|i: int| 0 <= i < j ==> !#[trigger] unknown_ailment(defs@)(ids@[i]),
            decreases ids@.len() - j,
        {
            if find_ailment(defs, ids[j].as_str()).is_none() {
                proof {
                    lemma_first_is(ids@, unknown_ailment(defs@), j as int);
                    assert(first_unknown_ailment(defs@, members@, k as int) == Some(ids@[j as int]@));
                }
                return Some(ids[j].clone());
            }
            j = j + 1;
        }
        proof { lemma_first_none(ids@, unknown_ailment(defs@)); }
        k = k + 1;
    }
    None
}

impl GameState {
    /// Rejects a corrupted save: impossible numbers, a missing setup, ids the content does
    /// not know, statuses that contradict the position, and a finished journey that still
    /// waits on an event.
    #[verifier::rlimit(60)]
    #[verifier::loop_isolation(false)]
    pub fn validate(&self) -> (r: Result<(), CommandError>)
        ensures
            match audit_refusal(*self) {
                Some(why) => r matches Err(e) && is_rejection(e, why),
                None => r is Ok,
            },
    {
        if self.party.len() > 12 || self.departure_month < 3 || self.departure_month > 7 || self.day > 3660 || self.cash_cents < 0 {
            return Err(CommandError::InvalidSetup);
        }
        let mut i: usize = 0;
        while i < self.party.len()
            invariant
                i <= self.party@.len(),
                forall|j: int| 0 <= j < i ==> !#[trigger] member_broken(self.party@[j]),
            decreases self.party@.len() - i,
        {
            let m = &self.party[i];
            if m.health > 100 || m.morale < 0 || m.morale > 100 || (m.alive && m.health == 0) {
                assert(member_broken(self.party@[i as int]));
                return Err(CommandError::InvalidSetup);
            }
            i = i + 1;
        }
        if !matches!(self.status, RunStatus::Setup)
            && (self.trail_id.is_none() || self.era_id.is_none() || self.occupation_id.is_none()
                || self.current_node_id.is_none() || self.party.len() == 0) {
            return Err(CommandError::InvalidSetup);
        }
        match &self.trail_id {
            Some(id) => {
                let ti = match find_trail(&self.content.trails, id.as_str()) {
                    Some(ti) => ti,
                    None => return Err(CommandError::UnknownId(id.clone())),
                };
                proof { lemma_first_facts(self.content.trails@, trail_named(id@)); }
                let nodes = &self.content.trails[ti].nodes;
                match dangling_target(nodes) {
                    Some(t) => return Err(CommandError::UnknownId(t)),
                    None => {},
                }
                match &self.current_node_id {
                    Some(c) => if !has_node(nodes, c.as_str()) {
                        return Err(CommandError::UnknownId(c.clone()));
                    },
                    None => {},
                }
                match &self.target_node_id {
                    Some(t) => if !has_node(nodes, t.as_str()) {
                        return Err(CommandError::UnknownId(t.clone()));
                    },
                    None => {},
                }
            },
            None => {},
        }
        match &self.era_id {
            Some(e) => if find_era(&self.content.eras, e.as_str()).is_none() {
                return Err(CommandError::UnknownId(e.clone()));
            },
            None => {},
        }
        match &self.occupation_id {
            Some(o) => if find_occupation(&self.content.occupations, o.as_str()).is_none() {
                return Err(CommandError::UnknownId(o.clone()));
            },
            None => {},
        }
        if matches!(self.status, RunStatus::Travelling) && (self.target_node_id.is_none() || self.route_miles_remaining == 0) {
            return Err(CommandError::InvalidSetup);
        }
        if !matches!(self.status, RunStatus::Travelling | RunStatus::Failed) && self.target_node_id.is_some() {
            return Err(CommandError::InvalidSetup);
        }
        let place: Option<&String> = match &self.status {
            RunStatus::AtLandmark(id) => Some(id),
            RunStatus::AwaitingFork(id) => Some(id),
            RunStatus::AwaitingRiver(id) => Some(id),
            _ => None,
        };
        match place {
            Some(id) => {
                let matches_here = match &self.current_node_id {
                    Some(c) => crate::text::same(c.as_str(), id.as_str()),
                    None => false,
                };
                if !matches_here {
                    return Err(CommandError::InvalidSetup);
                }
            },
            None => {},
        }
        if matches!(self.status, RunStatus::Arrived | RunStatus::Failed) && self.pending_event.is_some() {
            return Err(CommandError::InvalidSetup);
        }
        match &self.pending_event {
            Some(p) => if find_event(&self.content.events, p.as_str()).is_none() {
                return Err(CommandError::UnknownId(p.clone()));
            },
            None => {},
        }
        let mut k: usize = 0;
        while k < self.scheduled_events.len()
            invariant
                k <= self.scheduled_events@.len(),
                forall|j: int| 0 <= j < k ==> !#[trigger] unknown_event(self.content.events@)(self.scheduled_events@[j]),
            decreases self.scheduled_events@.len() - k,
        {
            if find_event(&self.content.events, self.scheduled_events[k].event_id.as_str()).is_none() {
                proof { lemma_first_is(self.scheduled_events@, unknown_event(self.content.events@), k as int); }
                return Err(CommandError::UnknownId(self.scheduled_events[k].event_id.clone()));
            }
            k = k + 1;
        }
        proof { lemma_first_none(self.scheduled_events@, unknown_event(self.content.events@)); }
        match unknown_ailment_in(&self.content.ailments, &self.party) {
            Some(a) => return Err(CommandError::UnknownId(a)),
            None => {},
        }
        Ok(())
    }
}

} // verus!
