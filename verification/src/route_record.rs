//! The factual record of the stops a journey made.

use vstd::prelude::*;
use crate::content::{TrailDefinition, RouteDefinition};
use crate::catalog::{has_node, index_of, trail_has_node, rules_named, find_rules};
use crate::state::{GameState, find_node, node_named, find_trail, trail_named, pos};
use crate::lookup::{find_first, lemma_first_facts, lemma_first_is, lemma_first_none};
use crate::text::{same, text_before, compare_text};
use vstd::set_lib::{set_int_range, lemma_int_range, lemma_len_subset};

verus! {

/// One stop on the route: where, on which day, at which mile.
#[derive(Debug, Clone, PartialEq, Eq)]
pub struct Visit {
    pub landmark_id: String,
    pub day: u32,
    pub mile: u32,
}

/// Some route of the (first) landmark `from` leads to `to`.
pub open spec fn leads(t: TrailDefinition, from: Seq<char>, to: Seq<char>) -> bool {
    &&& index_of(t, from) is Some
    &&& exists|q: int| 0 <= q < t.nodes@[index_of(t, from)->0].routes@.len()
            && #[trigger] t.nodes@[index_of(t, from)->0].routes@[q].target_id@ == to
}

/// A recorded route fits the journey: it ends where the party stands, every stop is a
/// landmark of the trail reached no later than today and no further than the miles
/// travelled, and each stop follows the one before along one of its routes, never
/// earlier or nearer.
pub open spec fn visits_fit(visits: Seq<Visit>, current: Option<Seq<char>>, day: u32, miles: u32, t: TrailDefinition) -> bool {
    visits.len() == 0 || {
        &&& current == Some(visits.last().landmark_id@)
        &&& forall|k: int| 0 <= k < visits.len() ==>
                has_node(t, (#[trigger] visits[k]).landmark_id@) && visits[k].day <= day && visits[k].mile <= miles
        &&& forall|k: int| 0 <= k < visits.len() - 1 ==> {
                &&& (#[trigger] visits[k]).day <= visits[k + 1].day
                &&& visits[k].mile <= visits[k + 1].mile
                &&& leads(t, visits[k].landmark_id@, visits[k + 1].landmark_id@)
            }
    }
}

fn leads_check(t: &TrailDefinition, from: &str, to: &str) -> (r: bool)
    ensures
        r == leads(*t, from@, to@),
{
    match find_node(&t.nodes, from) {
        None => false,
        Some(i) => {
            proof { lemma_first_facts(t.nodes@, node_named(from@)); }
            let routes = &t.nodes[i].routes;
            let mut q: usize = 0;
            while q < routes.len()
                invariant
                    i < t.nodes@.len(),
                    index_of(*t, from@) == Some(i as int),
                    routes@ == t.nodes@[i as int].routes@,
                    q <= routes@.len(),
                    forall|b: int| 0 <= b < q ==> #[trigger] routes@[b].target_id@ != to@,
                decreases routes@.len() - q,
            {
                if same(routes[q].target_id.as_str(), to) {
                    assert(t.nodes@[i as int].routes@[q as int].target_id@ == to@);
                    return true;
                }
                q = q + 1;
            }
            false
        },
    }
}

/// Whether a recorded route fits the journey: the party at `current` on `day` after
/// `miles`, on trail `t`. An empty record fits any journey, so that an old save need
/// not begin at the trailhead.
pub fn visits_are_valid_for(visits: &Vec<Visit>, current: Option<&str>, day: u32, miles: u32, t: &TrailDefinition) -> (r: bool)
    ensures
        r == visits_fit(visits@, match current { Some(c) => Some(c@), None => None }, day, miles, *t),
{
    let n = visits.len();
    if n == 0 {
        return true;
    }
    let at_last = match current {
        Some(c) => same(c, visits[n - 1].landmark_id.as_str()),
        None => false,
    };
    if !at_last {
        return false;
    }
    let mut k: usize = 0;
    while k < n
        invariant
            n == visits@.len(),
            k <= n,
            forall|j: int| 0 <= j < k ==>
                has_node(*t, (#[trigger] visits@[j]).landmark_id@) && visits@[j].day <= day && visits@[j].mile <= miles,
        decreases n - k,
    {
        if !trail_has_node(t, visits[k].landmark_id.as_str()) || visits[k].day > day || visits[k].mile > miles {
            assert(!(has_node(*t, visits@[k as int].landmark_id@) && visits@[k as int].day <= day && visits@[k as int].mile <= miles));
            return false;
        }
        k = k + 1;
    }
    let mut k: usize = 0;
    while k + 1 < n
        invariant
            n == visits@.len(),
            n > 0,
            k + 1 <= n,
            forall|j: int| 0 <= j < k ==> {
                &&& (#[trigger] visits@[j]).day <= visits@[j + 1].day
                &&& visits@[j].mile <= visits@[j + 1].mile
                &&& leads(*t, visits@[j].landmark_id@, visits@[j + 1].landmark_id@)
            },
        decreases n - k,
    {
        if visits[k].day > visits[k + 1].day || visits[k].mile > visits[k + 1].mile
            || !leads_check(t, visits[k].landmark_id.as_str(), visits[k + 1].landmark_id.as_str()) {
            return false;
        }
        k = k + 1;
    }
    true
}


// ---------------------------------------------------------------------------------------
// The nearest supply stop.

/// A landmark id with the miles to it.
pub type Leg = (Seq<char>, u32);

/// Whether a leg goes to `id`.
pub open spec fn leg_to(id: Seq<char>) -> spec_fn(Leg) -> bool {
    |e: Leg| e.0 == id
}

/// `v` with the miles to `id` set to `d`, the leg added when it is new.
pub open spec fn put_leg(v: Seq<Leg>, id: Seq<char>, d: u32) -> Seq<Leg> {
    match find_first(v, leg_to(id)) {
        Some(j) => v.update(j, (id, d)),
        None => v.push((id, d)),
    }
}

/// `v` with the miles to `id` lowered to `d` when that is shorter, the leg added when new.
pub open spec fn lower_leg(v: Seq<Leg>, id: Seq<char>, d: u32) -> Seq<Leg> {
    match find_first(v, leg_to(id)) {
        Some(j) => v.update(j, (id, if d < v[j].1 { d } else { v[j].1 })),
        None => v.push((id, d)),
    }
}

/// The first legs of a search from a landmark: each route's target at the route's length,
/// a later route to the same target replacing an earlier one.
pub open spec fn first_legs(routes: Seq<RouteDefinition>) -> Seq<Leg>
    decreases routes.len(),
{
    if routes.len() == 0 {
        Seq::empty()
    } else {
        put_leg(first_legs(routes.drop_last()), routes.last().target_id@, routes.last().distance_miles)
    }
}

/// `v` after following `routes` from a landmark `d` miles away (sums held at `u32::MAX`).
pub open spec fn relaxed(v: Seq<Leg>, routes: Seq<RouteDefinition>, d: u32) -> Seq<Leg>
    decreases routes.len(),
{
    if routes.len() == 0 {
        v
    } else {
        lower_leg(relaxed(v, routes.drop_last(), d), routes.last().target_id@,
            if d + routes.last().distance_miles > u32::MAX { u32::MAX } else { (d + routes.last().distance_miles) as u32 })
    }
}

/// Among the first `n` legs not yet settled, the one with the fewest miles, the earliest
/// id in dictionary order among ties.
pub open spec fn next_leg(v: Seq<Leg>, settled: Seq<bool>, n: nat) -> Option<int>
    decreases n,
{
    if n == 0 {
        None
    } else {
        let k = n - 1;
        let p = next_leg(v, settled, k as nat);
        if settled[k] {
            p
        } else {
            match p {
                None => Some(k),
                Some(j) => if v[k].1 < v[j].1 || (v[k].1 == v[j].1 && text_before(v[k].0, v[j].0)) { Some(k) } else { p },
            }
        }
    }
}

/// Whether the era of `g` closes the store `id`.
pub open spec fn closed_in_era(g: GameState, id: Seq<char>) -> bool {
    g.era_id matches Some(e) && match find_first(g.content.era_rules@, rules_named(e@)) {
        Some(k) => g.content.era_rules@[k].1.unavailable_stores@.map_values(|x: String| x@).contains(id),
        None => false,
    }
}

/// The search for a supply stop along trail `t` from landmark `here`, for at most `rounds`
/// rounds: settle the nearest unsettled leg; a landmark the trail lacks ends the search;
/// an open store other than `here` is the answer, with its name and miles; otherwise its
/// routes are followed.
pub open spec fn supply_search(g: GameState, t: TrailDefinition, here: Seq<char>, v: Seq<Leg>, settled: Seq<bool>, rounds: nat)
    -> Option<(Seq<char>, u32)>
    decreases rounds,
{
    if rounds == 0 {
        None
    } else {
        match next_leg(v, settled, v.len()) {
            None => None,
            Some(j) => match index_of(t, v[j].0) {
                None => None,
                Some(i) => {
                    let n = t.nodes@[i];
                    if n.store && !closed_in_era(g, v[j].0) && v[j].0 != here {
                        Some((n.name@, v[j].1))
                    } else {
                        let w = relaxed(v, n.routes@, v[j].1);
                        supply_search(g, t, here, w, settled.update(j, true) + Seq::new((w.len() - v.len()) as nat, |x: int| false),
                            (rounds - 1) as nat)
                    }
                },
            },
        }
    }
}

/// The nearest open store ahead: along the leg under way when there is one, else along
/// the routes from the current landmark, by fewest miles (the earlier id among ties),
/// never the current landmark; none without a trail, a position, or such a store. Each
/// round that goes on settles a different landmark, so one round more than the trail has
/// landmarks always finishes the search.
pub open spec fn nearest_store(g: GameState) -> Option<(Seq<char>, u32)> {
    match (g.trail_id, g.current_node_id) {
        (Some(tid), Some(here)) => match find_first(g.content.trails@, trail_named(tid@)) {
            None => None,
            Some(ti) => {
                let t = g.content.trails@[ti];
                let start: Option<Seq<Leg>> = match g.target_node_id {
                    Some(x) => Some(seq![(x@, g.route_miles_remaining)]),
                    None => match index_of(t, here@) {
                        Some(i) => Some(first_legs(t.nodes@[i].routes@)),
                        None => None,
                    },
                };
                match start {
                    None => None,
                    Some(v) => supply_search(g, t, here@, v, Seq::new(v.len(), |x: int| false), (t.nodes@.len() + 1) as nat),
                }
            },
        },
        _ => None,
    }
}

/// The landmark ids and miles of `v`.
pub open spec fn legs(v: Seq<(String, u32)>) -> Seq<Leg> {
    v.map_values(|e: (String, u32)| (e.0@, e.1))
}

/// No two legs go to the same landmark.
pub open spec fn distinct_legs(v: Seq<Leg>) -> bool {
    forall|i: int, j: int| 0 <= i < j < v.len() ==> #[trigger] v[i].0 != #[trigger] v[j].0
}

/// `v` with the miles to `id` lowered to `d` (with `lower`) or set to `d`.
pub open spec fn changed_leg(v: Seq<Leg>, id: Seq<char>, d: u32, lower: bool) -> Seq<Leg> {
    if lower { lower_leg(v, id, d) } else { put_leg(v, id, d) }
}

proof fn lemma_put_distinct(v: Seq<Leg>, id: Seq<char>, d: u32, lower: bool)
    requires
        distinct_legs(v),
    ensures
        distinct_legs(changed_leg(v, id, d, lower)),
        changed_leg(v, id, d, lower).len() >= v.len(),
        forall|k: int| 0 <= k < v.len() ==> (#[trigger] changed_leg(v, id, d, lower)[k]).0 == v[k].0,
{
    lemma_first_facts(v, leg_to(id));
    let w = changed_leg(v, id, d, lower);
    assert forall|i: int, k: int| 0 <= i < k < w.len() implies #[trigger] w[i].0 != #[trigger] w[k].0 by {
        match find_first(v, leg_to(id)) {
            Some(j) => {
                assert(w[i].0 == v[i].0);
                assert(w[k].0 == v[k].0);
            },
            None => {
                if k == v.len() {
                    assert(!leg_to(id)(v[i]));
                } else {
                    assert(w[i].0 == v[i].0);
                    assert(w[k].0 == v[k].0);
                }
            },
        }
    }
}

proof fn lemma_relaxed_distinct(v: Seq<Leg>, routes: Seq<RouteDefinition>, d: u32)
    requires
        distinct_legs(v),
    ensures
        distinct_legs(relaxed(v, routes, d)),
        relaxed(v, routes, d).len() >= v.len(),
        forall|k: int| 0 <= k < v.len() ==> (#[trigger] relaxed(v, routes, d)[k]).0 == v[k].0,
    decreases routes.len(),
{
    if routes.len() > 0 {
        let w = relaxed(v, routes.drop_last(), d);
        lemma_relaxed_distinct(v, routes.drop_last(), d);
        let e = if d + routes.last().distance_miles > u32::MAX { u32::MAX } else { (d + routes.last().distance_miles) as u32 };
        lemma_put_distinct(w, routes.last().target_id@, e, true);
    }
}

fn find_leg(v: &Vec<(String, u32)>, id: &str) -> (r: Option<usize>)
    ensures
        pos(r) == find_first(legs(v@), leg_to(id@)),
{
    let ghost l = legs(v@);
    let mut k: usize = 0;
    while k < v.len()
        invariant
            k <= v@.len(),
            l == legs(v@),
            forall|j: int| 0 <= j < k ==> !#[trigger] leg_to(id@)(l[j]),
        decreases v@.len() - k,
    {
        if same(v[k].0.as_str(), id) {
            proof { lemma_first_is(l, leg_to(id@), k as int); }
            return Some(k);
        }
        k = k + 1;
    }
    proof { lemma_first_none(l, leg_to(id@)); }
    None
}

/// Sets (or, with `lower`, lowers) the miles to `id`, adding the leg when it is new; a
/// new leg is also marked unsettled.
fn set_leg(v: &mut Vec<(String, u32)>, settled: &mut Vec<bool>, id: &str, d: u32, lower: bool)
    requires
        old(settled)@.len() == old(v)@.len(),
    ensures
        legs(final(v)@) == changed_leg(legs(old(v)@), id@, d, lower),
        final(settled)@ == old(settled)@ + Seq::new((final(v)@.len() - old(v)@.len()) as nat, |x: int| false),
        final(v)@.len() >= old(v)@.len(),
{
    let ghost before = legs(v@);
    proof { lemma_first_facts(before, leg_to(id@)); }
    match find_leg(v, id) {
        Some(j) => {
            let cur = v[j].1;
            let nd = if lower && cur <= d { cur } else { d };
            let key = v[j].0.clone();
            v.set(j, (key, nd));
            proof {
                lemma_first_facts(before, leg_to(id@));
                assert(legs(v@) =~= before.update(j as int, (id@, nd)));
                assert(settled@ =~= settled@ + Seq::new(0, |x: int| false));
            }
        },
        None => {
            v.push((id.to_owned(), d));
            settled.push(false);
            proof {
                assert(legs(v@) =~= before.push((id@, d)));
                assert(settled@ =~= old(settled)@ + Seq::new(1, |x: int| false));
            }
        },
    }
}

fn pick_leg(v: &Vec<(String, u32)>, settled: &Vec<bool>) -> (r: Option<usize>)
    requires
        settled@.len() == v@.len(),
    ensures
        pos(r) == next_leg(legs(v@), settled@, v@.len() as nat),
{
    let ghost l = legs(v@);
    let mut best: Option<usize> = None;
    let mut k: usize = 0;
    while k < v.len()
        invariant
            k <= v@.len(),
            settled@.len() == v@.len(),
            l == legs(v@),
            pos(best) == next_leg(l, settled@, k as nat),
            best matches Some(b) ==> b < k,
        decreases v@.len() - k,
    {
        if !settled[k] {
            best = match best {
                None => Some(k),
                Some(b) => {
                    if v[k].1 < v[b].1 || (v[k].1 == v[b].1 && compare_text(v[k].0.as_str(), v[b].0.as_str()) == -1) {
                        Some(k)
                    } else {
                        Some(b)
                    }
                },
            };
        }
        k = k + 1;
    }
    best
}

fn follow_routes(v: &mut Vec<(String, u32)>, settled: &mut Vec<bool>, routes: &Vec<RouteDefinition>, d: u32)
    requires
        old(settled)@.len() == old(v)@.len(),
    ensures
        legs(final(v)@) == relaxed(legs(old(v)@), routes@, d),
        final(settled)@ == old(settled)@ + Seq::new((final(v)@.len() - old(v)@.len()) as nat, |x: int| false),
        final(v)@.len() >= old(v)@.len(),
{
    let ghost v0 = legs(v@);
    let ghost s0 = settled@;
    let ghost n0 = v@.len();
    let mut q: usize = 0;
    while q < routes.len()
        invariant
            q <= routes@.len(),
            settled@.len() == v@.len(),
            v@.len() >= n0,
            legs(v@) == relaxed(v0, routes@.take(q as int), d),
            settled@ == s0 + Seq::new((v@.len() - n0) as nat, |x: int| false),
        decreases routes@.len() - q,
    {
        proof {
            assert(routes@.take(q + 1).drop_last() =~= routes@.take(q as int));
            assert(routes@.take(q + 1).last() == routes@[q as int]);
        }
        let e: u32 = d.saturating_add(routes[q].distance_miles);
        let ghost before_len = v@.len();
        let ghost before_settled = settled@;
        set_leg(v, settled, routes[q].target_id.as_str(), e, true);
        proof {
            assert(settled@ =~= s0 + Seq::new((v@.len() - n0) as nat, |x: int| false));
        }
        q = q + 1;
    }
    proof { assert(routes@.take(routes@.len() as int) =~= routes@); }
}

fn start_legs(routes: &Vec<RouteDefinition>) -> (r: Vec<(String, u32)>)
    ensures
        legs(r@) == first_legs(routes@),
{
    let mut v: Vec<(String, u32)> = Vec::new();
    let mut settled: Vec<bool> = Vec::new();
    let mut q: usize = 0;
    while q < routes.len()
        invariant
            q <= routes@.len(),
            settled@.len() == v@.len(),
            legs(v@) == first_legs(routes@.take(q as int)),
        decreases routes@.len() - q,
    {
        proof {
            assert(routes@.take(q + 1).drop_last() =~= routes@.take(q as int));
            assert(routes@.take(q + 1).last() == routes@[q as int]);
        }
        set_leg(&mut v, &mut settled, routes[q].target_id.as_str(), routes[q].distance_miles, false);
        q = q + 1;
    }
    proof {
        assert(routes@.take(routes@.len() as int) =~= routes@);
        assert(legs(Seq::<(String, u32)>::empty()) =~= Seq::<Leg>::empty());
    }
    v
}

impl GameState {
    fn closed_store(&self, id: &str) -> (r: bool)
        ensures
            r == closed_in_era(*self, id@),
    {
        match &self.era_id {
            None => false,
            Some(e) => match find_rules(&self.content.era_rules, e.as_str()) {
                None => false,
                Some(k) => {
                    proof { lemma_first_facts(self.content.era_rules@, rules_named(e@)); }
                    let stores = &self.content.era_rules[k].1.unavailable_stores;
                    let ghost names = stores@.map_values(|x: String| x@);
                    let mut i: usize = 0;
                    while i < stores.len()
                        invariant
                            i <= stores@.len(),
                            names == stores@.map_values(|x: String| x@),
                            k < self.content.era_rules@.len(),
                            stores@ == self.content.era_rules@[k as int].1.unavailable_stores@,
                            find_first(self.content.era_rules@, rules_named(e@)) == Some(k as int),
                            self.era_id matches Some(x) && x@ == e@,
                            forall|j: int| 0 <= j < i ==> names[j] != id@,
                        decreases stores@.len() - i,
                    {
                        if same(stores[i].as_str(), id) {
                            proof { assert(names[i as int] == id@); }
                            return true;
                        }
                        i = i + 1;
                    }
                    false
                },
            },
        }
    }
}

proof fn lemma_first_legs_distinct(routes: Seq<RouteDefinition>)
    ensures
        distinct_legs(first_legs(routes)),
    decreases routes.len(),
{
    if routes.len() > 0 {
        lemma_first_legs_distinct(routes.drop_last());
        lemma_put_distinct(first_legs(routes.drop_last()), routes.last().target_id@, routes.last().distance_miles, false);
    }
}

proof fn lemma_next_leg(v: Seq<Leg>, settled: Seq<bool>, n: nat)
    requires
        n <= settled.len(),
    ensures
        next_leg(v, settled, n) matches Some(j) ==> 0 <= j < n && !settled[j],
    decreases n,
{
    if n > 0 {
        lemma_next_leg(v, settled, (n - 1) as nat);
    }
}

/// Settled landmarks of trail `t`: each has a settled leg in `v`.
pub open spec fn all_settled(t: TrailDefinition, v: Seq<Leg>, settled: Seq<bool>, seen: Set<int>) -> bool {
    forall|x: int| #[trigger] seen.contains(x) ==> exists|j: int| 0 <= j < v.len() && settled[j] && v[j].0 == t.nodes@[x].id@
}

impl GameState {
    /// The nearest open store ahead and the miles to it: along the leg under way when
    /// there is one, else along the routes from the current landmark, by fewest miles
    /// (the earlier id among ties), never the current landmark itself.
    pub fn next_supply_stop(&self) -> (r: Option<(&str, u32)>)
        ensures
            match r {
                Some(found) => nearest_store(*self) == Some((found.0@, found.1)),
                None => nearest_store(*self) is None,
            },
    {
        let tid = match &self.trail_id {
            Some(t) => t,
            None => return None,
        };
        let here = match &self.current_node_id {
            Some(h) => h,
            None => return None,
        };
        let ti = match find_trail(&self.content.trails, tid.as_str()) {
            Some(ti) => ti,
            None => return None,
        };
        proof { lemma_first_facts(self.content.trails@, trail_named(tid@)); }
        let t = &self.content.trails[ti];
        let mut v: Vec<(String, u32)> = match &self.target_node_id {
            Some(x) => {
                let mut v: Vec<(String, u32)> = Vec::new();
                v.push((x.clone(), self.route_miles_remaining));
                proof { assert(legs(v@) =~= seq![(x@, self.route_miles_remaining)]); }
                v
            },
            None => match find_node(&t.nodes, here.as_str()) {
                Some(i) => {
                    proof { lemma_first_facts(t.nodes@, node_named(here@)); }
                    start_legs(&t.nodes[i].routes)
                },
                None => return None,
            },
        };
        let mut settled: Vec<bool> = Vec::new();
        let mut k: usize = 0;
        while k < v.len()
            invariant
                k <= v@.len(),
                settled@.len() == k,
                forall|j: int| 0 <= j < k ==> !settled@[j],
            decreases v@.len() - k,
        {
            settled.push(false);
            k = k + 1;
        }
        let ghost l0 = legs(v@);
        let ghost n = t.nodes@.len();
        let ghost mut seen: Set<int> = Set::empty();
        proof {
            assert(settled@ =~= Seq::new(v@.len(), |x: int| false));
            if self.target_node_id is None {
                lemma_first_legs_distinct(t.nodes@[find_first(t.nodes@, node_named(here@))->0].routes@);
            }
            assert(nearest_store(*self) == supply_search(*self, *t, here@, l0, settled@, (n + 1) as nat));
            lemma_int_range(0, n as int);
        }
        loop
            invariant
                t == self.content.trails@[ti as int],
                n == t.nodes@.len(),
                self.current_node_id matches Some(h) && h@ == here@,
                settled@.len() == v@.len(),
                distinct_legs(legs(v@)),
                seen.finite(),
                seen.subset_of(set_int_range(0, n as int)),
                set_int_range(0, n as int).finite(),
                set_int_range(0, n as int).len() == n,
                all_settled(*t, legs(v@), settled@, seen),
                nearest_store(*self) == supply_search(*self, *t, here@, legs(v@), settled@, (n + 1 - seen.len()) as nat),
            decreases n + 1 - seen.len(),
        {
            proof { lemma_len_subset(seen, set_int_range(0, n as int)); }
            let ghost l = legs(v@);
            let ghost rounds = (n + 1 - seen.len()) as nat;
            proof { lemma_next_leg(l, settled@, l.len() as nat); }
            let j = match pick_leg(&v, &settled) {
                Some(j) => j,
                None => return None,
            };
            proof { lemma_first_facts(t.nodes@, node_named(l[j as int].0)); }
            let i = match find_node(&t.nodes, v[j].0.as_str()) {
                Some(i) => i,
                None => return None,
            };
            let node = &t.nodes[i];
            if node.store && !self.closed_store(v[j].0.as_str()) && !same(v[j].0.as_str(), here.as_str()) {
                return Some((node.name.as_str(), v[j].1));
            }
            let d = v[j].1;
            proof {
                if seen.contains(i as int) {
                    let w = choose|w: int| 0 <= w < l.len() && settled@[w] && l[w].0 == t.nodes@[i as int].id@;
                    assert(l[w].0 == l[j as int].0);
                    if w < j { assert(l[w].0 != l[j as int].0); }
                    if j < w { assert(l[j as int].0 != l[w].0); }
                }
                lemma_relaxed_distinct(l, node.routes@, d);
            }
            let ghost pre = settled@;
            settled.set(j, true);
            let ghost marked = settled@;
            follow_routes(&mut v, &mut settled, &node.routes, d);
            proof {
                let l2 = legs(v@);
                let seen2 = seen.insert(i as int);
                assert(seen2.len() == seen.len() + 1);
                assert forall|x: int| #[trigger] seen2.contains(x) implies exists|w: int| 0 <= w < l2.len() && settled@[w] && l2[w].0 == t.nodes@[x].id@ by {
                    if x == i as int {
                        assert(settled@[j as int] && l2[j as int].0 == l[j as int].0);
                    } else {
                        let w = choose|w: int| 0 <= w < l.len() && pre[w] && l[w].0 == t.nodes@[x].id@;
                        assert(marked[w]);
                        assert(settled@[w] && l2[w].0 == l[w].0);
                    }
                }
                assert(settled@ =~= pre.update(j as int, true) + Seq::new((l2.len() - l.len()) as nat, |x: int| false));
                seen = seen2;
            }
        }
    }
}

} // verus!
