//! A command-only reference player for reproducible journeys and balance reports.

use vstd::prelude::*;
use crate::content::{GameContent, EventChoice, RouteDefinition};
use crate::health::PartyMember;
use crate::journey::score_now;
use crate::lookup::{find_first, lemma_first_facts};
use crate::play::{command_refusal, command_done};
use crate::state::{fresh_game, GameState, Command, CommandError, CrossMethod, Outcome, RunStatus, Rejection, is_rejection, name_ok,
    bought, buy_refusal, stocked_up, all_hold,
    occupation_named, era_named, is_terminal, alive_count, living,
    held, find_event, find_choice, find_trail, find_node, node_named, trail_named, event_named, item_named};
use crate::text::same;
use crate::events::affordable;

verus! {

/// The world and party setup of a reference journey.
#[derive(Debug, Clone)]
pub struct RunConfig {
    pub trail: String,
    pub era: String,
    pub occupation: String,
    pub month: u8,
}

impl Default for RunConfig {
    fn default() -> (r: Self)
        ensures
            r.trail@ == "oregon"@,
            r.era@ == "1848"@,
            r.occupation@ == "banker"@,
            r.month == 3,
    {
        RunConfig { trail: "oregon".to_owned(), era: "1848".to_owned(), occupation: "banker".to_owned(), month: 3 }
    }
}

/// How a reference journey ended.
#[derive(Debug, Clone, Copy, PartialEq, Eq, Structural)]
pub struct RunSummary {
    pub seed: u64,
    pub arrived: bool,
    pub survivors: usize,
    pub days: u32,
    pub miles: u32,
    pub score: u32,
}

/// The summary of a finished journey in state `g`.
pub open spec fn summary_of(seed: u64, g: GameState) -> RunSummary {
    RunSummary {
        seed,
        arrived: g.status is Arrived,
        survivors: alive_count(g.party@) as usize,
        days: g.day,
        miles: g.miles,
        score: score_now(g) as u32,
    }
}

/// `s` sums up some finished journey whose generator has master seed `seed`, with at most
/// five survivors.
pub open spec fn finished_journey(seed: u64, s: RunSummary) -> bool {
    &&& exists|g: GameState| #[trigger] is_terminal(g.status) && s == summary_of(seed, g) && g.rng.master() == seed
    &&& s.seed == seed
    &&& s.survivors <= 5
}

/// Why the reference player stopped without finishing.
#[derive(Debug, Clone, PartialEq, Eq)]
pub enum JourneyError {
    /// The simulation rejected one of its commands.
    Rejected(CommandError),
    /// The pending event is not in the content.
    MissingEvent,
    /// The pending event offers no available choice.
    NoChoice,
    /// The fork's landmark is not on the trail.
    MissingLandmark,
    /// The fork offers no route the player takes.
    NoRoute,
    /// The journey stands in a phase the player cannot advance, or at a ferry whose fare
    /// is a credit that would carry the purse past the top of `i64`.
    CannotAdvance,
    /// The journey did not end within 5,000 commands.
    TooLong,
}

fn run_command(game: &mut GameState, c: Command) -> (r: Result<Vec<Outcome>, JourneyError>)
    requires
        old(game).ready(),
        old(game).purse_fits(c),
    ensures
        final(game).ready(),
        final(game).rng.master() == old(game).rng.master(),
        final(game).content == old(game).content,
        !(c is Configure) ==> final(game).party@.len() == old(game).party@.len(),
        (c is Configure && r is Ok) ==> final(game).party@.len() == 5,
        r matches Err(e) ==> e is Rejected,
        r matches Ok(out) ==> command_done(*old(game), *final(game), c, out@),
        r is Err ==> *final(game) == *old(game),
        match command_refusal(*old(game), c) {
            Some(why) => r matches Err(JourneyError::Rejected(e)) && is_rejection(e, why),
            None => r is Ok,
        },
{
    match game.try_apply(c) {
        Ok(out) => Ok(out),
        Err(e) => Err(JourneyError::Rejected(e)),
    }
}

/// A purchase of `q` of item `id` would be refused in state `s`.
pub open spec fn buy_refused(s: GameState, id: Seq<char>, q: u32) -> bool {
    is_terminal(s.status) || s.pending_event is Some || buy_refusal(s, id, q) is Some
}

/// The largest quantity in `1..=m` of item `id` that the store would sell in state `s`.
pub open spec fn largest_buy(s: GameState, id: Seq<char>, m: u32) -> Option<u32>
    decreases m,
{
    if m == 0 {
        None
    } else if !buy_refused(s, id, m) {
        Some(m)
    } else {
        largest_buy(s, id, (m - 1) as u32)
    }
}

/// Buys `item` with the largest quantity up to `maximum` that the store accepts.
fn buy_up_to(game: &mut GameState, item: &str, maximum: u32)
    requires
        old(game).ready(),
        old(game).prices_sane(),
    ensures
        final(game).ready(),
        final(game).rng.master() == old(game).rng.master(),
        final(game).content == old(game).content,
        final(game).status == old(game).status,
        final(game).party@.len() == old(game).party@.len(),
        largest_buy(*old(game), item@, maximum) is None ==> *final(game) == *old(game),
        largest_buy(*old(game), item@, maximum) matches Some(q) ==> stocked_up(*old(game), *final(game), item@, q),
        bought_up_to(*old(game), item@, maximum, *final(game)),
{
    let mut quantity = maximum;
    while quantity >= 1
        invariant
            game.ready(),
            game.prices_sane(),
            *game == *old(game),
            quantity <= maximum,
            largest_buy(*old(game), item@, maximum) == largest_buy(*old(game), item@, quantity),
        decreases quantity,
    {
        let name = item.to_owned();
        let ghost named = name@;
        let c = Command::Buy { item_id: name, quantity };
        let ghost given = c;
        proof {
            lemma_first_facts(game.content.items@, item_named(named));
            if let Some(i) = find_first(game.content.items@, item_named(named)) {
                let price = game.content.items@[i].price_cents;
                assert(price >= 0);
                assert(price * quantity >= 0) by (nonlinear_arith)
                    requires price >= 0, quantity >= 0;
            }
        }
        let r = game.try_apply(c);
        if let Ok(out) = r {
            assert(command_refusal(*old(game), given) is None);
            assert(!buy_refused(*old(game), named, quantity));
            assert(largest_buy(*old(game), item@, quantity) == Some(quantity));
            assert(bought(*old(game), *game, item@, quantity, out@));
            return;
        }
        quantity = quantity - 1;
    }
}

/// A choice the party can take now: its conditions hold and it can pay for it.
pub open spec fn choice_open(g: GameState) -> spec_fn(EventChoice) -> bool {
    |c: EventChoice| all_hold(g, c.conditions@) && affordable(g.cash_cents, g.inventory.quantities.map(), c.effects@)
}

/// A route the reference player takes: any but the Barlow road, which it takes only
/// outside the 1843 era and with at least five dollars.
pub open spec fn route_taken(g: GameState, config: RunConfig) -> spec_fn(RouteDefinition) -> bool {
    |rt: RouteDefinition| rt.id@ != "barlow"@ || (config.era@ != "1843"@ && g.cash_cents >= 500)
}

/// A living traveler with an ailment.
pub open spec fn sick() -> spec_fn(PartyMember) -> bool {
    |m: PartyMember| m.alive && m.ailments@.len() > 0
}

/// The ferry here runs, and the party can pay its fare.
pub open spec fn ferry_affordable(g: GameState) -> bool {
    g.here() matches Some(n) && (n.river matches Some(rv) && (rv.ferry_cost_cents matches Some(c) && c <= g.cash_cents))
}

/// The ferry here is affordable, but its fare is a credit so large that the purse would
/// pass the top of `i64`.
pub open spec fn ferry_overflows(g: GameState) -> bool {
    ferry_affordable(g) && g.cash_cents - g.here()->0.river->0.ferry_cost_cents->0 > i64::MAX
}

/// The command the reference player gives in state `g`, as `r` holds it: an answer to the
/// pending event with its first open choice; at a river the ferry when affordable (no
/// command at all when its fare would overflow the purse), else caulking; at a fork the first route it takes; onward from a landmark; on the trail
/// medicine for the first sick traveler while there is some, else onward.
pub open spec fn policy(g: GameState, config: RunConfig, r: Result<Command, JourneyError>) -> bool {
    match g.pending_event {
        Some(id) => match find_first(g.content.events@, event_named(id@)) {
            None => r matches Err(JourneyError::MissingEvent),
            Some(i) => match find_first(g.content.events@[i].choices@, choice_open(g)) {
                None => r matches Err(JourneyError::NoChoice),
                Some(j) => r matches Ok(Command::Respond { event_id, choice_id })
                    && event_id@ == id@ && choice_id@ == g.content.events@[i].choices@[j].id@,
            },
        },
        None => match g.status {
            RunStatus::AwaitingRiver(_) => if ferry_overflows(g) {
                r matches Err(JourneyError::CannotAdvance)
            } else {
                r == Ok::<Command, JourneyError>(Command::CrossRiver {
                    method: if ferry_affordable(g) { CrossMethod::Ferry } else { CrossMethod::Caulk },
                })
            },
            RunStatus::AwaitingFork(id) => match g.trail_id {
                None => r matches Err(JourneyError::MissingLandmark),
                Some(t) => match find_first(g.content.trails@, trail_named(t@)) {
                    None => r matches Err(JourneyError::MissingLandmark),
                    Some(ti) => match find_first(g.content.trails@[ti].nodes@, node_named(id@)) {
                        None => r matches Err(JourneyError::MissingLandmark),
                        Some(ni) => {
                            let routes = g.content.trails@[ti].nodes@[ni].routes@;
                            match find_first(routes, route_taken(g, config)) {
                                None => r matches Err(JourneyError::NoRoute),
                                Some(k) => r matches Ok(Command::ChooseRoute { route_id }) && route_id@ == routes[k].id@,
                            }
                        },
                    },
                },
            },
            RunStatus::AtLandmark(_) => r == Ok::<Command, JourneyError>(Command::Continue),
            RunStatus::Travelling => if held(g.inventory, "medicine"@) > 0 && find_first(g.party@, sick()) is Some {
                let k = find_first(g.party@, sick())->0;
                r matches Ok(Command::Treat { member_index, ailment_id }) && member_index == k
                    && ailment_id@ == g.party@[k].ailments@[0]@
            } else {
                r == Ok::<Command, JourneyError>(Command::Continue)
            },
            _ => r matches Err(JourneyError::CannotAdvance),
        },
    }
}

/// The command the reference player gives in the journey's present state.
#[verifier::loop_isolation(false)]
fn choose_command(game: &GameState, config: &RunConfig) -> (r: Result<Command, JourneyError>)
    requires
        game.ready(),
    ensures
        policy(*game, *config, r),
        r matches Ok(c) ==> game.purse_fits(c),
{
    if let Some(id) = &game.pending_event {
        let i = match find_event(&game.content.events, id.as_str()) {
            Some(i) => i,
            None => return Err(JourneyError::MissingEvent),
        };
        proof { lemma_first_facts(game.content.events@, event_named(id@)); }
        let choices = &game.content.events[i].choices;
        let mut j: usize = 0;
        while j < choices.len()
            invariant
                j <= choices@.len(),
                game.ready(),
                choices@ == game.content.events@[i as int].choices@,
                forall|k: int| 0 <= k < j ==> !#[trigger] choice_open(*game)(choices@[k]),
            decreases choices@.len() - j,
        {
            if game.choice_available(&choices[j]) {
                proof { crate::lookup::lemma_first_is(choices@, choice_open(*game), j as int); }
                return Ok(Command::Respond { event_id: id.clone(), choice_id: choices[j].id.clone() });
            }
            j = j + 1;
        }
        proof { crate::lookup::lemma_first_none(choices@, choice_open(*game)); }
        return Err(JourneyError::NoChoice);
    }
    match &game.status {
        RunStatus::AwaitingRiver(_) => {
            let ferry = match game.current_landmark() {
                Some(n) => match n.river {
                    Some(r) => r.ferry_cost_cents,
                    None => None,
                },
                None => None,
            };
            let method = match ferry {
                Some(cost) if cost <= game.cash_cents => {
                    if cost < 0 && game.cash_cents > i64::MAX + cost {
                        return Err(JourneyError::CannotAdvance);
                    }
                    CrossMethod::Ferry
                },
                _ => CrossMethod::Caulk,
            };
            Ok(Command::CrossRiver { method })
        },
        RunStatus::AwaitingFork(id) => {
            let tid = match &game.trail_id {
                Some(t) => t,
                None => return Err(JourneyError::MissingLandmark),
            };
            let ti = match find_trail(&game.content.trails, tid.as_str()) {
                Some(ti) => ti,
                None => return Err(JourneyError::MissingLandmark),
            };
            proof { lemma_first_facts(game.content.trails@, trail_named(tid@)); }
            let ni = match find_node(&game.content.trails[ti].nodes, id.as_str()) {
                Some(ni) => ni,
                None => return Err(JourneyError::MissingLandmark),
            };
            proof { lemma_first_facts(game.content.trails@[ti as int].nodes@, node_named(id@)); }
            let routes = &game.content.trails[ti].nodes[ni].routes;
            let mut k: usize = 0;
            while k < routes.len()
                invariant
                    k <= routes@.len(),
                    forall|m: int| 0 <= m < k ==> !#[trigger] route_taken(*game, *config)(routes@[m]),
                decreases routes@.len() - k,
            {
                if !same(routes[k].id.as_str(), "barlow") || (!same(config.era.as_str(), "1843") && game.cash_cents >= 500) {
                    proof { crate::lookup::lemma_first_is(routes@, route_taken(*game, *config), k as int); }
                    return Ok(Command::ChooseRoute { route_id: routes[k].id.clone() });
                }
                k = k + 1;
            }
            proof { crate::lookup::lemma_first_none(routes@, route_taken(*game, *config)); }
            Err(JourneyError::NoRoute)
        },
        RunStatus::AtLandmark(_) => Ok(Command::Continue),
        RunStatus::Travelling => {
            if game.inventory.get("medicine") > 0 {
                let mut k: usize = 0;
                while k < game.party.len()
                    invariant
                        k <= game.party@.len(),
                        forall|m: int| 0 <= m < k ==> !#[trigger] sick()(game.party@[m]),
                    decreases game.party@.len() - k,
                {
                    if game.party[k].alive && game.party[k].ailments.len() > 0 {
                        proof { crate::lookup::lemma_first_is(game.party@, sick(), k as int); }
                        return Ok(Command::Treat { member_index: k, ailment_id: game.party[k].ailments[0].clone() });
                    }
                    k = k + 1;
                }
                proof { crate::lookup::lemma_first_none(game.party@, sick()); }
            }
            Ok(Command::Continue)
        },
        _ => Err(JourneyError::CannotAdvance),
    }
}

/// Something that watches a reference journey: after each command of the journey's
/// course it is shown the game and the outcomes that command produced.
pub trait JourneyObserver {
    fn observe(&mut self, game: &GameState, outcomes: &[Outcome])
        requires
            game.ready(),
    ;
}

/// The observer that watches nothing.
impl JourneyObserver for () {
    fn observe(&mut self, game: &GameState, outcomes: &[Outcome]) {
    }
}

/// Why the setup of `config` would be refused on `content`: a departure month outside
/// March to July, then a trail, era or occupation the content lacks.
pub open spec fn setup_refusal(content: GameContent, config: RunConfig) -> Option<Rejection> {
    if !(3 <= config.month <= 7) {
        Some(Rejection::Setup)
    } else if find_first(content.trails@, trail_named(config.trail@)) is None {
        Some(Rejection::Unknown(config.trail@))
    } else if find_first(content.eras@, era_named(config.era@)) is None {
        Some(Rejection::Unknown(config.era@))
    } else if find_first(content.occupations@, occupation_named(config.occupation@)) is None {
        Some(Rejection::Unknown(config.occupation@))
    } else {
        None
    }
}

proof fn lemma_party_names_ok()
    ensures
        name_ok("Ada"@),
        name_ok("James"@),
        name_ok("Ruth"@),
        name_ok("Thomas"@),
        name_ok("Clara"@),
{
    reveal_strlit("Ada");
    reveal_strlit("James");
    reveal_strlit("Ruth");
    reveal_strlit("Thomas");
    reveal_strlit("Clara");
    assert(!crate::text::is_space("Ada"@[0]));
    assert(!crate::text::is_space("James"@[0]));
    assert(!crate::text::is_space("Ruth"@[0]));
    assert(!crate::text::is_space("Thomas"@[0]));
    assert(!crate::text::is_space("Clara"@[0]));
}

/// `b` is `a` after the reference player buys up to `most` of item `id`: the largest
/// purchase the store accepts, or nothing when it accepts none.
pub open spec fn bought_up_to(a: GameState, id: Seq<char>, most: u32, b: GameState) -> bool {
    match largest_buy(a, id, most) {
        None => b == a,
        Some(q) => stocked_up(a, b, id, q),
    }
}

/// The reference outfit bought from `a`, item by item, ending in `b`: three oxen, five sets
/// of clothing, ten boxes of ammunition, two medicine kits, a spare wheel, axle and tongue,
/// and two thousand pounds of food, each as far as the store sells it.
pub open spec fn outfitted(a: GameState, b: GameState) -> bool {
    exists|s: Seq<GameState>| #![auto] s.len() == 9 && s[0] == a && s[8] == b
        && bought_up_to(s[0], "oxen"@, 3, s[1]) && bought_up_to(s[1], "clothing"@, 5, s[2])
        && bought_up_to(s[2], "ammunition"@, 10, s[3]) && bought_up_to(s[3], "medicine"@, 2, s[4])
        && bought_up_to(s[4], "wheel"@, 1, s[5]) && bought_up_to(s[5], "axle"@, 1, s[6])
        && bought_up_to(s[6], "tongue"@, 1, s[7]) && bought_up_to(s[7], "food"@, 2000, s[8])
}

/// The landmark `g` stands at, when it stands at one.
pub open spec fn at_landmark(g: GameState) -> Option<Seq<char>> {
    match g.status {
        RunStatus::AtLandmark(id) => Some(id@),
        _ => None,
    }
}

/// `n` less the `held`, and nothing when `held` reaches it.
pub open spec fn short_of(n: u32, held: u32) -> u32 {
    if held >= n { 0 } else { (n - held) as u32 }
}

/// At a store other than the last one shopped at, with no event pending, the reference
/// player tops food up to 1,500 lb and medicine up to three kits; otherwise it buys
/// nothing. `la` and `lb` are the last store shopped at, before and after.
pub open spec fn resupplied(a: GameState, la: Option<Seq<char>>, b: GameState, lb: Option<Seq<char>>) -> bool {
    if a.pending_event is None && at_landmark(a) is Some && la != at_landmark(a) && a.shop_open() {
        &&& lb == at_landmark(a)
        &&& exists|m: GameState| #[trigger] bought_up_to(a, "food"@, short_of(1500, held(a.inventory, "food"@)), m)
                && bought_up_to(m, "medicine"@, short_of(3, held(m.inventory, "medicine"@)), b)
    } else {
        b == a && lb == la
    }
}

/// One round of the reference player from `a` (last store `la`) to `b` (last store `lb`):
/// resupply, then the policy's command, which either runs (`e` is none) or ends the
/// journey with error `e`, leaving the game as it was.
#[verifier::opaque]
pub open spec fn played_round(a: GameState, la: Option<Seq<char>>, b: GameState, lb: Option<Seq<char>>,
    config: RunConfig, e: Option<JourneyError>) -> bool
{
    exists|a1: GameState, rc: Result<Command, JourneyError>| #[trigger] resupplied(a, la, a1, lb) && #[trigger] policy(a1, config, rc)
        && match rc {
            Err(x) => e == Some(x) && b == a1,
            Ok(c) => match command_refusal(a1, c) {
                Some(why) => (e matches Some(JourneyError::Rejected(x)) && is_rejection(x, why)) && b == a1,
                None => e is None && exists|out: Seq<Outcome>| #[trigger] command_done(a1, b, c, out),
            },
        }
}

/// Round `i` of the course `gs` (last stores `ls`) ran.
pub open spec fn round_ran(gs: Seq<GameState>, ls: Seq<Option<Seq<char>>>, config: RunConfig, i: int) -> bool {
    !is_terminal(gs[i].status) && played_round(gs[i], ls[i], gs[i + 1], ls[i + 1], config, None)
}

/// The reference player's course from the departed game `start`: round after round until
/// the journey ends (its summary), a round fails (its error), or 5,000 rounds have run.
pub open spec fn course(start: GameState, seed: u64, config: RunConfig, r: Result<RunSummary, JourneyError>) -> bool {
    exists|gs: Seq<GameState>, ls: Seq<Option<Seq<char>>>| #![trigger gs.len(), ls.len()] {
        &&& gs.len() == ls.len() && 1 <= gs.len() <= 5001
        &&& gs[0] == start && ls[0] is None
        &&& forall|i: int| 0 <= i < gs.len() - 1 ==> #[trigger] round_ran(gs, ls, config, i)
        &&& if gs.len() - 1 < 5000 && is_terminal(gs.last().status) {
                r == Ok::<RunSummary, JourneyError>(summary_of(seed, gs.last()))
            } else if gs.len() - 1 == 5000 {
                r == Err::<RunSummary, JourneyError>(JourneyError::TooLong)
            } else {
                !is_terminal(gs.last().status) && exists|b: GameState, lb: Option<Seq<char>>, x: JourneyError|
                    #[trigger] played_round(gs.last(), ls.last(), b, lb, config, Some(x)) && r == Err::<RunSummary, JourneyError>(x)
            }
    }
}

/// `c` configures the settings' trail, era, occupation and month with the reference party:
/// Ada, James, Ruth, Thomas and Clara.
pub open spec fn standard_setup(config: RunConfig, c: Command) -> bool {
    c matches Command::Configure { trail_id, era_id, occupation_id, party, departure_month }
        && trail_id@ == config.trail@ && era_id@ == config.era@ && occupation_id@ == config.occupation@
        && departure_month == config.month && party@.len() == 5
        && party@[0]@ == "Ada"@ && party@[1]@ == "James"@ && party@[2]@ == "Ruth"@
        && party@[3]@ == "Thomas"@ && party@[4]@ == "Clara"@
}

/// What the reference player's journey on `content` with `seed` and `config` comes to,
/// over the simulation's contracts: a new game, the standard setup (its refusal ends the
/// journey), the reference outfit, departure (its refusal ends the journey), then the
/// course.
#[verifier::opaque]
pub open spec fn reference_run(content: GameContent, seed: u64, config: RunConfig, r: Result<RunSummary, JourneyError>) -> bool {
    exists|g0: GameState, c: Command| #[trigger] fresh_game(seed, content, g0) && #[trigger] standard_setup(config, c)
        && match command_refusal(g0, c) {
            Some(why) => r matches Err(JourneyError::Rejected(x)) && is_rejection(x, why),
            None => exists|gc: GameState, go: GameState| #![auto]
                (exists|out: Seq<Outcome>| #[trigger] command_done(g0, gc, c, out)) && outfitted(gc, go)
                && match command_refusal(go, Command::Depart) {
                    Some(why) => r matches Err(JourneyError::Rejected(x)) && is_rejection(x, why),
                    None => exists|gd: GameState| #![auto]
                        command_done(go, gd, Command::Depart, seq![Outcome::Departed]) && course(gd, seed, config, r),
                },
        }
}

/// Plays a whole journey with a fixed, reproducible policy: a standard outfit, the ferry
/// when affordable, the first route that suits the era and purse, medicine for the first
/// sick traveler, and resupply once at each store. `observer` sees every command of the
/// course after departure with its outcomes.
pub fn journey<O: JourneyObserver>(content: GameContent, seed: u64, config: &RunConfig, observer: &mut O)
    -> (r: Result<RunSummary, JourneyError>)
    requires
        crate::state::content_ready(content),
    ensures
        reference_run(content, seed, *config, r),
        r matches Ok(s) ==> finished_journey(seed, s),
        setup_refusal(content, *config) matches Some(why) ==> (r matches Err(JourneyError::Rejected(e))
            && is_rejection(e, why)),
{
    play(content, seed, config, observer).1
}

/// What a reference journey on `content` with `seed` and `config` comes to: the reference
/// player's run over the simulation's contracts, a finished journey of that seed when it
/// succeeds, and the setup's refusal when the setup is refused.
pub open spec fn journey_result(content: GameContent, seed: u64, config: RunConfig, r: Result<RunSummary, JourneyError>) -> bool {
    &&& reference_run(content, seed, config, r)
    &&& r matches Ok(s) ==> finished_journey(seed, s)
    &&& setup_refusal(content, config) matches Some(why) ==> (r matches Err(JourneyError::Rejected(e)) && is_rejection(e, why))
}

proof fn lemma_round(a: GameState, la: Option<Seq<char>>, a1: GameState, lb: Option<Seq<char>>, rc: Result<Command, JourneyError>,
    b: GameState, config: RunConfig, e: Option<JourneyError>)
    requires
        resupplied(a, la, a1, lb),
        policy(a1, config, rc),
        match rc {
            Err(x) => e == Some(x) && b == a1,
            Ok(c) => match command_refusal(a1, c) {
                Some(why) => (e matches Some(JourneyError::Rejected(x)) && is_rejection(x, why)) && b == a1,
                None => e is None && exists|out: Seq<Outcome>| #[trigger] command_done(a1, b, c, out),
            },
        },
    ensures
        played_round(a, la, b, lb, config, e),
{
    reveal(played_round);
}

proof fn lemma_rounds_grow(gs: Seq<GameState>, ls: Seq<Option<Seq<char>>>, b: GameState, lb: Option<Seq<char>>, config: RunConfig)
    requires
        gs.len() == ls.len(),
        gs.len() >= 1,
        forall|i: int| 0 <= i < gs.len() - 1 ==> #[trigger] round_ran(gs, ls, config, i),
        !is_terminal(gs.last().status),
        played_round(gs.last(), ls.last(), b, lb, config, None),
    ensures
        forall|i: int| 0 <= i < gs.push(b).len() - 1 ==> #[trigger] round_ran(gs.push(b), ls.push(lb), config, i),
{
    let gs2 = gs.push(b);
    let ls2 = ls.push(lb);
    assert forall|i: int| 0 <= i < gs2.len() - 1 implies #[trigger] round_ran(gs2, ls2, config, i) by {
        if i < gs.len() - 1 {
            assert(round_ran(gs, ls, config, i));
            assert(gs2[i] == gs[i] && gs2[i + 1] == gs[i + 1] && ls2[i] == ls[i] && ls2[i + 1] == ls[i + 1]);
        } else {
            assert(gs2[i] == gs.last() && gs2[i + 1] == b && ls2[i] == ls.last() && ls2[i + 1] == lb);
        }
    }
}

proof fn lemma_course_ends(gs: Seq<GameState>, ls: Seq<Option<Seq<char>>>, seed: u64, config: RunConfig,
    r: Result<RunSummary, JourneyError>)
    requires
        gs.len() == ls.len() && 1 <= gs.len() <= 5001,
        ls[0] is None,
        forall|i: int| 0 <= i < gs.len() - 1 ==> #[trigger] round_ran(gs, ls, config, i),
        if gs.len() - 1 < 5000 && is_terminal(gs.last().status) {
            r == Ok::<RunSummary, JourneyError>(summary_of(seed, gs.last()))
        } else if gs.len() - 1 == 5000 {
            r == Err::<RunSummary, JourneyError>(JourneyError::TooLong)
        } else {
            !is_terminal(gs.last().status) && exists|b: GameState, lb: Option<Seq<char>>, x: JourneyError|
                #[trigger] played_round(gs.last(), ls.last(), b, lb, config, Some(x)) && r == Err::<RunSummary, JourneyError>(x)
        },
    ensures
        course(gs[0], seed, config, r),
{
}

/// Buys the reference outfit.
fn outfit(game: &mut GameState)
    requires
        old(game).ready(),
        old(game).prices_sane(),
    ensures
        final(game).ready(),
        final(game).rng.master() == old(game).rng.master(),
        final(game).content == old(game).content,
        final(game).status == old(game).status,
        final(game).party@.len() == old(game).party@.len(),
        outfitted(*old(game), *final(game)),
{
    let ghost mut s: Seq<GameState> = seq![*game];
    buy_up_to(game, "oxen", 3);
    proof { s = s.push(*game); }
    buy_up_to(game, "clothing", 5);
    proof { s = s.push(*game); }
    buy_up_to(game, "ammunition", 10);
    proof { s = s.push(*game); }
    buy_up_to(game, "medicine", 2);
    proof { s = s.push(*game); }
    buy_up_to(game, "wheel", 1);
    proof { s = s.push(*game); }
    buy_up_to(game, "axle", 1);
    proof { s = s.push(*game); }
    buy_up_to(game, "tongue", 1);
    proof { s = s.push(*game); }
    buy_up_to(game, "food", 2000);
    proof {
        s = s.push(*game);
        assert(s.len() == 9 && s[0] == *old(game) && s[8] == *game);
        assert(bought_up_to(s[0], "oxen"@, 3, s[1]) && bought_up_to(s[1], "clothing"@, 5, s[2])
            && bought_up_to(s[2], "ammunition"@, 10, s[3]) && bought_up_to(s[3], "medicine"@, 2, s[4])
            && bought_up_to(s[4], "wheel"@, 1, s[5]) && bought_up_to(s[5], "axle"@, 1, s[6])
            && bought_up_to(s[6], "tongue"@, 1, s[7]) && bought_up_to(s[7], "food"@, 2000, s[8]));
    }
}

/// The text of a store id, when there is one.
pub open spec fn shop_view(o: Option<String>) -> Option<Seq<char>> {
    match o {
        Some(t) => Some(t@),
        None => None,
    }
}

/// `g` is where the reference player's setup on `content` with `seed` and `config` left
/// the game, with `e` the error that ended it early: a new game, the standard setup (its
/// refusal ends it), the reference outfit, then departure (its refusal ends it).
pub open spec fn prepared(content: GameContent, seed: u64, config: RunConfig, g: GameState, e: Option<JourneyError>) -> bool {
    exists|g0: GameState, c: Command| #[trigger] fresh_game(seed, content, g0) && #[trigger] standard_setup(config, c)
        && match command_refusal(g0, c) {
            Some(why) => e matches Some(JourneyError::Rejected(x)) && is_rejection(x, why),
            None => exists|gc: GameState, go: GameState| #![auto]
                (exists|out: Seq<Outcome>| #[trigger] command_done(g0, gc, c, out)) && outfitted(gc, go)
                && match command_refusal(go, Command::Depart) {
                    Some(why) => e matches Some(JourneyError::Rejected(x)) && is_rejection(x, why),
                    None => e is None && command_done(go, g, Command::Depart, seq![Outcome::Departed]),
                },
        }
}

proof fn lemma_prepared_run(content: GameContent, seed: u64, config: RunConfig, g: GameState, e: Option<JourneyError>,
    r: Result<RunSummary, JourneyError>)
    requires
        prepared(content, seed, config, g, e),
        match e {
            Some(x) => r == Err::<RunSummary, JourneyError>(x),
            None => course(g, seed, config, r),
        },
    ensures
        reference_run(content, seed, config, r),
{
    reveal(reference_run);
}

/// Sets up, outfits and departs a new game as the reference player does.
#[verifier::rlimit(40)]
fn prepare(content: GameContent, seed: u64, config: &RunConfig) -> (r: (GameState, Option<JourneyError>))
    requires
        crate::state::content_ready(content),
    ensures
        r.0.content == content,
        prepared(content, seed, *config, r.0, r.1),
        r.1 is None ==> r.0.ready() && r.0.rng.master() == seed && r.0.party@.len() == 5,
        setup_refusal(content, *config) matches Some(why) ==> (r.1 matches Some(JourneyError::Rejected(e))
            && is_rejection(e, why)),
{
    let mut game = GameState::with_content(seed, content);
    let ghost g0 = game;
    let mut party: Vec<String> = Vec::new();
    party.push("Ada".to_owned());
    party.push("James".to_owned());
    party.push("Ruth".to_owned());
    party.push("Thomas".to_owned());
    party.push("Clara".to_owned());
    proof {
        lemma_party_names_ok();
        assert(party@[0]@ == "Ada"@ && party@[1]@ == "James"@ && party@[2]@ == "Ruth"@
            && party@[3]@ == "Thomas"@ && party@[4]@ == "Clara"@);
        assert(forall|i: int| 0 <= i < party@.len() ==> name_ok(#[trigger] party@[i]@));
    }
    let setup = Command::Configure {
        trail_id: config.trail.clone(),
        era_id: config.era.clone(),
        occupation_id: config.occupation.clone(),
        party,
        departure_month: config.month,
    };
    let ghost setup_c = setup;
    assert(standard_setup(*config, setup_c));
    let configured = run_command(&mut game, setup);
    if let Err(e) = configured {
        return (game, Some(e));
    }
    let ghost gc = game;
    outfit(&mut game);
    let ghost go = game;
    let departed = run_command(&mut game, Command::Depart);
    if let Err(e) = departed {
        return (game, Some(e));
    }
    (game, None)
}

/// Plays a journey as `journey` does and hands the content back unchanged.
pub(crate) fn play<O: JourneyObserver>(content: GameContent, seed: u64, config: &RunConfig, observer: &mut O)
    -> (r: (GameContent, Result<RunSummary, JourneyError>))
    requires
        crate::state::content_ready(content),
    ensures
        r.0 == content,
        journey_result(content, seed, *config, r.1),
{
    let (game, early) = prepare(content, seed, config);
    let ghost gd = game;
    match early {
        Some(e) => {
            proof { lemma_prepared_run(content, seed, *config, gd, Some(e), Err(e)); }
            (game.content, Err(e))
        },
        None => {
            let (back, result) = follow_course(game, seed, config, observer);
            proof { lemma_prepared_run(content, seed, *config, gd, None, result); }
            (back, result)
        },
    }
}

/// The reference player's rounds from the departed game `game`, as `course` describes them.
fn follow_course<O: JourneyObserver>(start: GameState, seed: u64, config: &RunConfig, observer: &mut O)
    -> (r: (GameContent, Result<RunSummary, JourneyError>))
    requires
        start.prices_sane(),
        start.ready(),
        start.rng.master() == seed,
        start.party@.len() == 5,
    ensures
        r.0 == start.content,
        course(start, seed, *config, r.1),
        r.1 matches Ok(s) ==> finished_journey(seed, s),
{
    let ghost gd = start;
    let ghost given = start.content;
    let mut game = start;
    let mut last_shop: Option<String> = None;
    let ghost mut gs: Seq<GameState> = seq![game];
    let ghost mut ls: Seq<Option<Seq<char>>> = seq![None];
    let mut step: u32 = 0;
    while step < 5000
        invariant
            game.ready(),
            game.prices_sane(),
            game.rng.master() == seed,
            game.content == given,
            given == start.content,
            gd == start,
            game.party@.len() == 5,
            gs.len() == step + 1,
            ls.len() == step + 1,
            step <= 5000,
            gs[0] == gd,
            ls[0] is None,
            gs.last() == game,
            ls.last() == shop_view(last_shop),
            forall|i: int| 0 <= i < gs.len() - 1 ==> #[trigger] round_ran(gs, ls, *config, i),
        decreases 5000 - step,
    {
        if matches!(game.status, RunStatus::Arrived | RunStatus::Failed) {
            let summary = RunSummary {
                seed,
                arrived: matches!(game.status, RunStatus::Arrived),
                survivors: living(&game.party),
                days: game.day,
                miles: game.miles,
                score: game.score(),
            };
            assert(is_terminal(game.status) && summary == summary_of(seed, game));
            proof {
                lemma_course_ends(gs, ls, seed, *config, Ok(summary));
                assert(finished_journey(seed, summary));
            }
            return (game.content, Ok(summary));
        }
        let ghost a = game;
        let ghost la = shop_view(last_shop);
        if game.pending_event.is_none() {
            let shop_here: Option<String> = match &game.status {
                RunStatus::AtLandmark(id) => Some(id.clone()),
                _ => None,
            };
            if let Some(id) = shop_here {
                let visited = match &last_shop {
                    Some(prev) => same(prev.as_str(), id.as_str()),
                    None => false,
                };
                if !visited && game.can_shop() {
                    last_shop = Some(id);
                    let food = 1500u32.saturating_sub(game.inventory.get("food"));
                    buy_up_to(&mut game, "food", food);
                    let ghost m = game;
                    let medicine = 3u32.saturating_sub(game.inventory.get("medicine"));
                    buy_up_to(&mut game, "medicine", medicine);
                    proof {
                        assert(bought_up_to(a, "food"@, short_of(1500, held(a.inventory, "food"@)), m));
                    }
                }
            }
        }
        let ghost a1 = game;
        let ghost lb = shop_view(last_shop);
        proof {
            if a.pending_event is None && at_landmark(a) is Some && la != at_landmark(a) && a.shop_open() {
                assert(lb == at_landmark(a));
            }
        }
        assert(resupplied(a, la, a1, lb));
        let chosen = choose_command(&game, config);
        let ghost rc = chosen;
        let command = match chosen {
            Ok(c) => c,
            Err(e) => {
                proof {
                    lemma_round(a, la, a1, lb, rc, a1, *config, Some(e));
                    lemma_course_ends(gs, ls, seed, *config, Err(e));
                }
                return (game.content, Err(e));
            },
        };
        let ghost cmd = command;
        let outcomes = match run_command(&mut game, command) {
            Ok(out) => out,
            Err(e) => {
                proof {
                    lemma_round(a, la, a1, lb, rc, a1, *config, Some(e));
                    lemma_course_ends(gs, ls, seed, *config, Err(e));
                }
                return (game.content, Err(e));
            },
        };
        proof {
            assert(command_done(a1, game, cmd, outcomes@));
            lemma_round(a, la, a1, lb, rc, game, *config, None);
            lemma_rounds_grow(gs, ls, game, lb, *config);
            gs = gs.push(game);
            ls = ls.push(lb);
        }
        observer.observe(&game, outcomes.as_slice());
        step = step + 1;
    }
    proof {
        lemma_course_ends(gs, ls, seed, *config, Err(JourneyError::TooLong));
    }
    (game.content, Err(JourneyError::TooLong))
}

/// Totals over many reference journeys.
#[derive(Debug, Clone, Copy, PartialEq, Eq, Structural)]
pub struct BalanceSummary {
    pub runs: u32,
    pub arrivals: u32,
    pub arrivals_with_three: u32,
    pub total_days: u64,
    pub total_survivors: u64,
}

impl Default for BalanceSummary {
    fn default() -> (r: Self)
        ensures
            r == (BalanceSummary { runs: 0, arrivals: 0, arrivals_with_three: 0, total_days: 0, total_survivors: 0 }),
    {
        BalanceSummary { runs: 0, arrivals: 0, arrivals_with_three: 0, total_days: 0, total_survivors: 0 }
    }
}

/// The totals `b` after one more journey `run`.
pub open spec fn summary_after(b: BalanceSummary, run: RunSummary) -> BalanceSummary {
    BalanceSummary {
        runs: (b.runs + 1) as u32,
        arrivals: (b.arrivals + if run.arrived { 1u32 } else { 0u32 }) as u32,
        arrivals_with_three: (b.arrivals_with_three + if run.arrived && run.survivors >= 3 { 1u32 } else { 0u32 }) as u32,
        total_days: (b.total_days + run.days) as u64,
        total_survivors: (b.total_survivors + run.survivors) as u64,
    }
}

impl BalanceSummary {
    /// Adds one journey to the totals.
    pub fn record(&mut self, run: &RunSummary)
        requires
            old(self).runs < u32::MAX,
            old(self).arrivals < u32::MAX,
            old(self).arrivals_with_three < u32::MAX,
            old(self).total_days + run.days <= u64::MAX,
            old(self).total_survivors + run.survivors <= u64::MAX,
        ensures
            *final(self) == summary_after(*old(self), *run),
    {
        self.runs = self.runs + 1;
        self.arrivals = self.arrivals + if run.arrived { 1 } else { 0 };
        self.arrivals_with_three = self.arrivals_with_three + if run.arrived && run.survivors >= 3 { 1 } else { 0 };
        self.total_days = self.total_days + run.days as u64;
        self.total_survivors = self.total_survivors + run.survivors as u64;
    }
}

} // verus!
