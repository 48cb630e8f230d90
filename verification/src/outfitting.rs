//! Read-only, budget-aware guidance for the first store visit: a starter outfit that the
//! purse, the wagon and the store can bear, and what to watch for.

use vstd::prelude::*;
use crate::content::ItemDefinition;
use crate::economy::Market;
use crate::lookup::{find_first, lemma_first_facts};
use crate::state::{GameState, held, alive_count, living, item_named, find_item};
use crate::text::{decimal, push_decimal, dollars, push_dollars, lowercase, to_lowercase};

verus! {

/// `x` held within the range of `i64`.
pub open spec fn clamp_i64(x: int) -> i64 {
    if x > i64::MAX { i64::MAX } else if x < i64::MIN { i64::MIN } else { x as i64 }
}

/// `x` held at `u32::MAX`.
pub open spec fn cap_u32(x: int) -> u32 {
    if x > u32::MAX { u32::MAX } else { x as u32 }
}

/// `a * b`, held within the range of `i64`.
fn saturating_mul_i64(a: i64, b: i64) -> (r: i64)
    ensures
        r == clamp_i64(a * b),
{
    match a.checked_mul(b) {
        Some(v) => v,
        None => {
            if (a < 0) == (b < 0) {
                assert(a * b > i64::MAX) by (nonlinear_arith)
                    requires
                        (a < 0) == (b < 0),
                        a * b > i64::MAX || a * b < i64::MIN,
                {
                    if a < 0 {
                        assert(a * b > 0);
                    } else {
                        assert(a * b >= 0);
                    }
                }
                i64::MAX
            } else {
                assert(a * b < i64::MIN) by (nonlinear_arith)
                    requires
                        (a < 0) != (b < 0),
                        a * b > i64::MAX || a * b < i64::MIN,
                {
                    assert(a * b <= 0);
                }
                i64::MIN
            }
        },
    }
}

/// `a * b`, held at `u32::MAX`.
fn saturating_mul_u32(a: u32, b: u32) -> (r: u32)
    ensures
        r == cap_u32(a * b),
{
    match a.checked_mul(b) {
        Some(v) => v,
        None => u32::MAX,
    }
}

/// The price of item `id`, zero when the content has no such item.
pub open spec fn price_or_zero(g: GameState, id: Seq<char>) -> i64 {
    match find_first(g.content.items@, item_named(id)) {
        Some(i) => g.content.items@[i].price_cents,
        None => 0,
    }
}

/// What it costs to bring item `id` up to `target`.
pub open spec fn missing_cost_of(g: GameState, id: Seq<char>, target: u32) -> i64 {
    clamp_i64(price_or_zero(g, id) * target.saturating_sub(held(g.inventory, id)))
}

/// What it costs to bring item `item_id` up to `target` at today's prices.
pub fn missing_cost(game: &GameState, item_id: &str, target: u32) -> (r: i64)
    ensures
        r == missing_cost_of(*game, item_id@, target),
{
    let missing = target.saturating_sub(game.inventory.get(item_id));
    let price = match game.price_cents(item_id) {
        Some(p) => p,
        None => 0,
    };
    saturating_mul_i64(price, missing as i64)
}

/// The weight that bringing item `id` up to `target` adds, zero for an unknown item.
pub open spec fn added_weight(g: GameState, id: Seq<char>, target: u32) -> u32 {
    match find_first(g.content.items@, item_named(id)) {
        Some(i) => cap_u32(g.content.items@[i].weight_lbs * target.saturating_sub(held(g.inventory, id))),
        None => 0,
    }
}

/// The total cost of bringing every item of `list` up to its target.
pub open spec fn cost_total(g: GameState, list: Seq<(Seq<char>, u32)>) -> int
    decreases list.len(),
{
    if list.len() == 0 {
        0
    } else {
        cost_total(g, list.drop_last()) + missing_cost_of(g, list.last().0, list.last().1)
    }
}

/// The total weight, held at `u32::MAX`, that bringing every item of `list` up to its
/// target adds.
pub open spec fn weight_total(g: GameState, list: Seq<(Seq<char>, u32)>) -> u32
    decreases list.len(),
{
    if list.len() == 0 {
        0
    } else {
        weight_total(g, list.drop_last()).saturating_add(added_weight(g, list.last().0, list.last().1))
    }
}

/// The texts and counts of `v`.
pub open spec fn pairs(v: Seq<(String, u32)>) -> Seq<(Seq<char>, u32)> {
    v.map_values(|e: (String, u32)| (e.0@, e.1))
}

/// The total cost of bringing every item of `list` up to its target.
fn cost_of(game: &GameState, list: &Vec<(String, u32)>) -> (r: i64)
    requires
        prefixes_fit(*game, pairs(list@)),
    ensures
        r == cost_total(*game, pairs(list@)),
{
    let ghost p = pairs(list@);
    let mut total: i64 = 0;
    let mut k: usize = 0;
    while k < list.len()
        invariant
            p == pairs(list@),
            prefixes_fit(*game, p),
            k <= list@.len(),
            total == cost_total(*game, p.take(k as int)),
        decreases list@.len() - k,
    {
        proof {
            assert(p.take(k + 1).drop_last() =~= p.take(k as int));
            assert(p.take(k + 1).last() == p[k as int]);
            assert(i64::MIN <= cost_total(*game, p.take(k + 1)) <= i64::MAX);
        }
        let c = missing_cost(game, list[k].0.as_str(), list[k].1);
        total = total + c;
        k = k + 1;
    }
    proof {
        assert(p.take(list@.len() as int) =~= p);
    }
    total
}

/// The weight, held at `u32::MAX`, that bringing every item of `list` up to its target
/// adds.
fn weight_of(game: &GameState, list: &Vec<(String, u32)>) -> (r: u32)
    ensures
        r == weight_total(*game, pairs(list@)),
{
    let ghost p = pairs(list@);
    let mut total: u32 = 0;
    let mut k: usize = 0;
    while k < list.len()
        invariant
            p == pairs(list@),
            k <= list@.len(),
            total == weight_total(*game, p.take(k as int)),
        decreases list@.len() - k,
    {
        proof {
            assert(p.take(k + 1).drop_last() =~= p.take(k as int));
            assert(p.take(k + 1).last() == p[k as int]);
        }
        let id = list[k].0.as_str();
        let missing = list[k].1.saturating_sub(game.inventory.get(id));
        let w = match find_item(&game.content.items, id) {
            Some(i) => {
                proof { lemma_first_facts(game.content.items@, item_named(id@)); }
                saturating_mul_u32(game.content.items[i].weight_lbs, missing)
            },
            None => 0,
        };
        total = total.saturating_add(w);
        k = k + 1;
    }
    proof {
        assert(p.take(list@.len() as int) =~= p);
    }
    total
}

/// The market whose landmark id is `id`.
pub open spec fn market_named(id: Seq<char>) -> spec_fn((String, Market)) -> bool {
    |e: (String, Market)| e.0@ == id
}

pub(crate) fn find_market(markets: &Vec<(String, Market)>, id: &str) -> (r: Option<usize>)
    ensures
        match r {
            Some(i) => find_first(markets@, market_named(id@)) == Some(i as int),
            None => find_first(markets@, market_named(id@)) is None,
        },
{
    let mut i: usize = 0;
    while i < markets.len()
        invariant
            i <= markets@.len(),
            forall|j: int| 0 <= j < i ==> !#[trigger] market_named(id@)(markets@[j]),
        decreases markets@.len() - i,
    {
        if crate::text::same(markets[i].0.as_str(), id) {
            proof { crate::lookup::lemma_first_is(markets@, market_named(id@), i as int); }
            return Some(i);
        }
        i = i + 1;
    }
    proof { crate::lookup::lemma_first_none(markets@, market_named(id@)); }
    None
}

// ---------------------------------------------------------------------------------------
// The advice.

/// The food a starter outfit aims to carry, in pounds.
pub const TARGET_FOOD_LBS: u32 = 1200;
/// Food is recommended in whole steps of this many pounds.
pub const FOOD_STEP_LBS: u32 = 100;
/// Yoke of oxen in a starter outfit.
pub const TARGET_OXEN: u32 = 3;
/// Boxes of ammunition in a starter outfit.
pub const TARGET_AMMUNITION: u32 = 10;
/// Cash kept back from food purchases, in cents.
pub const CASH_RESERVE_CENTS: i64 = 5_000;

/// Travelers still alive.
pub open spec fn party_of(g: GameState) -> u32 {
    alive_count(g.party@) as u32
}

/// The party's daily food, at least a pound.
pub open spec fn per_day(g: GameState) -> u32 {
    if g.food_need() > 1 { g.food_need() } else { 1 }
}

/// The outfit besides food: three yoke of oxen, a set of clothing per traveler, ten boxes
/// of ammunition, a spare wheel, axle and tongue, and a medicine kit.
pub open spec fn outfit(party: u32) -> Seq<(Seq<char>, u32)> {
    seq![("oxen"@, 3u32), ("clothing"@, party), ("ammunition"@, 10u32), ("wheel"@, 1u32), ("axle"@, 1u32),
        ("tongue"@, 1u32), ("medicine"@, 1u32)]
}

/// What the outfit besides food costs.
pub open spec fn non_food_cost(g: GameState) -> int {
    cost_total(g, outfit(party_of(g)))
}

/// The price of food, at least a cent.
pub open spec fn food_price(g: GameState) -> i64 {
    let p = price_or_zero(g, "food"@);
    if p > 1 { p } else { 1 }
}

/// The pounds of food the cash buys after the rest of the outfit and a reserve.
pub open spec fn affordable_food(g: GameState) -> u32 {
    let spare = g.cash_cents - non_food_cost(g) - CASH_RESERVE_CENTS;
    ((if spare > 0 { spare } else { 0 }) / (food_price(g) as int)) as u32
}

/// How much food may be carried in all: the item's limit, or what is on hand when the
/// content has no food item.
pub open spec fn food_limit(g: GameState) -> u32 {
    match find_first(g.content.items@, item_named("food"@)) {
        Some(i) => g.content.items@[i].limit,
        None => held(g.inventory, "food"@),
    }
}

/// The food the store here has: its market's stock, or else what the limit leaves room
/// for.
pub open spec fn food_stock(g: GameState) -> u32 {
    let room = food_limit(g).saturating_sub(held(g.inventory, "food"@));
    match g.current_node_id {
        Some(n) => match find_first(g.markets@, market_named(n@)) {
            Some(k) => if g.markets@[k].1.stock.map().dom().contains("food"@) {
                g.markets@[k].1.stock.map()["food"@]
            } else {
                room
            },
            None => room,
        },
        None => room,
    }
}

/// The wagon's room for food once the rest of the outfit is aboard.
pub open spec fn food_room(g: GameState) -> u32 {
    2400u32.saturating_sub(g.load().saturating_add(weight_total(g, outfit(party_of(g)))))
}

/// The smallest of five counts.
pub open spec fn least5(a: u32, b: u32, c: u32, d: u32, e: u32) -> u32 {
    let ab = if b < a { b } else { a };
    let abc = if c < ab { c } else { ab };
    let abcd = if d < abc { d } else { abc };
    if e < abcd { e } else { abcd }
}

/// The food to have on hand after shopping: toward the target, as far as cash, room,
/// the limit and the store's stock allow, in whole steps.
pub open spec fn target_food(g: GameState) -> u32 {
    let have = held(g.inventory, "food"@);
    let m = least5(TARGET_FOOD_LBS.saturating_sub(have), affordable_food(g), food_room(g),
        food_limit(g).saturating_sub(have), food_stock(g));
    have.saturating_add((m / FOOD_STEP_LBS * FOOD_STEP_LBS) as u32)
}

/// The recommended outfit, food second.
pub open spec fn recommended_outfit(g: GameState) -> Seq<(Seq<char>, u32)> {
    outfit(party_of(g)).insert(1, ("food"@, target_food(g)))
}

/// What the recommended outfit costs beyond what is on hand.
pub open spec fn completion_cost(g: GameState) -> int {
    cost_total(g, recommended_outfit(g))
}

/// Days the food on hand lasts.
pub open spec fn food_days(g: GameState) -> u32 {
    (held(g.inventory, "food"@) / per_day(g)) as u32
}

/// `text` when `cond`, else nothing.
pub open spec fn when(cond: bool, text: Seq<char>) -> Seq<Seq<char>> {
    if cond { seq![text] } else { Seq::empty() }
}

/// The warnings, in order: few oxen, little food, too few clothes, no medicine, plenty
/// of ammunition while food is short, and a target beyond the purse.
pub open spec fn warnings_for(g: GameState) -> Seq<Seq<char>> {
    let oxen = held(g.inventory, "oxen"@);
    let clothing = held(g.inventory, "clothing"@);
    let days = food_days(g);
    when(oxen < TARGET_OXEN, decimal(oxen as nat) + " yoke on hand; three yoke is a safer start."@)
        + when(days < 30, "Food lasts about "@ + decimal(days as nat) + " days before spoilage; thirty is a thin reserve."@)
        + when(clothing < party_of(g), decimal(clothing as nat) + " clothing sets for "@ + decimal(party_of(g) as nat) + " travelers."@)
        + when(held(g.inventory, "medicine"@) == 0, "No medicine kit on hand."@)
        + when(held(g.inventory, "ammunition"@) > TARGET_AMMUNITION * 2 && days < 30,
            "Ammunition is plentiful; food is the urgent purchase."@)
        + when(completion_cost(g) > g.cash_cents, "This target exceeds your cash; buy food after oxen and clothing."@)
}

/// The texts of `v`.
pub open spec fn lines(v: Seq<String>) -> Seq<Seq<char>> {
    v.map_values(|t: String| t@)
}

/// Shopping advice for the first store.
#[derive(Debug, Clone, PartialEq, Eq)]
pub struct OutfittingAdvice {
    pub food_per_day: u32,
    pub food_days: u32,
    pub target_food_lbs: u32,
    pub target_food_days: u32,
    pub completion_cost_cents: i64,
    pub cash_after_cents: i64,
    pub recommended: Vec<(String, u32)>,
    pub warnings: Vec<String>,
}

/// The costs the advice adds up stay within the range of `i64`.
pub open spec fn advice_fits(g: GameState) -> bool {
    &&& prefixes_fit(g, outfit(party_of(g)))
    &&& i64::MIN <= g.cash_cents - non_food_cost(g) <= i64::MAX
    &&& i64::MIN <= g.cash_cents - non_food_cost(g) - CASH_RESERVE_CENTS <= i64::MAX
    &&& prefixes_fit(g, recommended_outfit(g))
}

/// Every running total of the costs of `list`, item by item, fits an `i64`.
pub open spec fn prefixes_fit(g: GameState, list: Seq<(Seq<char>, u32)>) -> bool {
    forall|k: int| 0 <= k <= list.len() ==> i64::MIN <= #[trigger] cost_total(g, list.take(k)) <= i64::MAX
}

fn push_line(out: &mut Vec<String>, text: String)
    ensures
        lines(final(out)@) == lines(old(out)@).push(text@),
{
    let ghost before = out@;
    out.push(text);
    assert(lines(out@) =~= lines(before).push(text@));
}

/// The food to have on hand after shopping, given the rest of the outfit and its cost.
fn food_target(game: &GameState, required: &Vec<(String, u32)>, non_food: i64) -> (r: u32)
    requires
        game.ready(),
        advice_fits(*game),
        pairs(required@) == outfit(party_of(*game)),
        non_food == non_food_cost(*game),
    ensures
        r == target_food(*game),
{
    let food_price_raw = match game.price_cents("food") {
        Some(p) => p,
        None => 0,
    };
    let unit = if food_price_raw > 1 { food_price_raw } else { 1 };
    let spare = game.cash_cents - non_food - CASH_RESERVE_CENTS;
    let affordable = ((if spare > 0 { spare } else { 0 }) / unit) as u32;
    let food_on_hand = game.inventory.get("food");
    let required_weight = weight_of(game, &required);
    let room = 2400u32.saturating_sub(game.weight().saturating_add(required_weight));
    let limit = match find_item(&game.content.items, "food") {
        Some(i) => {
            proof { lemma_first_facts(game.content.items@, item_named("food"@)); }
            game.content.items[i].limit
        },
        None => food_on_hand,
    };
    let free = limit.saturating_sub(food_on_hand);
    let stock = match &game.current_node_id {
        Some(n) => match find_market(&game.markets, n.as_str()) {
            Some(k) => {
                proof { lemma_first_facts(game.markets@, market_named(n@)); }
                match game.markets[k].1.stock.get("food") {
                    Some(v) => v,
                    None => free,
                }
            },
            None => free,
        },
        None => free,
    };
    let desired = TARGET_FOOD_LBS.saturating_sub(food_on_hand);
    let mut m = desired;
    if affordable < m {
        m = affordable;
    }
    if room < m {
        m = room;
    }
    if free < m {
        m = free;
    }
    if stock < m {
        m = stock;
    }
    food_on_hand.saturating_add(m / FOOD_STEP_LBS * FOOD_STEP_LBS)
}

/// The warnings for the party's state, given the days its food lasts, its size and what
/// the recommended outfit costs.
fn warnings_of(game: &GameState, days: u32, party_size: u32, completion: i64) -> (r: Vec<String>)
    requires
        game.ready(),
        days == food_days(*game),
        party_size == party_of(*game),
        completion == completion_cost(*game),
    ensures
        lines(r@) == warnings_for(*game),
{
    let mut warnings: Vec<String> = Vec::new();
    let oxen = game.inventory.get("oxen");
    let clothing = game.inventory.get("clothing");
    let ghost g = *game;
    if oxen < TARGET_OXEN {
        let mut t = String::new();
        push_decimal(&mut t, oxen as u64);
        vstd::string::StringExecFns::append(&mut t, " yoke on hand; three yoke is a safer start.");
        push_line(&mut warnings, t);
    }
    assert(lines(warnings@) =~= when(oxen < TARGET_OXEN, decimal(oxen as nat) + " yoke on hand; three yoke is a safer start."@));
    let ghost w1 = lines(warnings@);
    if days < 30 {
        let mut t = "Food lasts about ".to_owned();
        push_decimal(&mut t, days as u64);
        vstd::string::StringExecFns::append(&mut t, " days before spoilage; thirty is a thin reserve.");
        push_line(&mut warnings, t);
    }
    assert(lines(warnings@) =~= w1 + when(days < 30, "Food lasts about "@ + decimal(days as nat) + " days before spoilage; thirty is a thin reserve."@));
    let ghost w2 = lines(warnings@);
    if clothing < party_size {
        let mut t = String::new();
        push_decimal(&mut t, clothing as u64);
        vstd::string::StringExecFns::append(&mut t, " clothing sets for ");
        push_decimal(&mut t, party_size as u64);
        vstd::string::StringExecFns::append(&mut t, " travelers.");
        push_line(&mut warnings, t);
    }
    assert(lines(warnings@) =~= w2 + when(clothing < party_size, decimal(clothing as nat) + " clothing sets for "@ + decimal(party_size as nat) + " travelers."@));
    let ghost w3 = lines(warnings@);
    if game.inventory.get("medicine") == 0 {
        push_line(&mut warnings, "No medicine kit on hand.".to_owned());
    }
    assert(lines(warnings@) =~= w3 + when(held(g.inventory, "medicine"@) == 0, "No medicine kit on hand."@));
    let ghost w4 = lines(warnings@);
    if game.inventory.get("ammunition") > TARGET_AMMUNITION * 2 && days < 30 {
        push_line(&mut warnings, "Ammunition is plentiful; food is the urgent purchase.".to_owned());
    }
    assert(lines(warnings@) =~= w4 + when(held(g.inventory, "ammunition"@) > TARGET_AMMUNITION * 2 && days < 30,
        "Ammunition is plentiful; food is the urgent purchase."@));
    let ghost w5 = lines(warnings@);
    if completion > game.cash_cents {
        push_line(&mut warnings, "This target exceeds your cash; buy food after oxen and clothing.".to_owned());
    }
    assert(lines(warnings@) =~= w5 + when(completion_cost(g) > g.cash_cents,
        "This target exceeds your cash; buy food after oxen and clothing."@));
    warnings
}

impl OutfittingAdvice {
    /// Advice for the party's present state.
    pub fn for_game(game: &GameState) -> (r: Self)
        requires
            game.ready(),
            advice_fits(*game),
        ensures
            r.food_per_day == per_day(*game),
            r.food_days == food_days(*game),
            r.target_food_lbs == target_food(*game),
            r.target_food_days == target_food(*game) / per_day(*game),
            r.completion_cost_cents == completion_cost(*game),
            r.cash_after_cents == clamp_i64(game.cash_cents - completion_cost(*game)),
            pairs(r.recommended@) == recommended_outfit(*game),
            lines(r.warnings@) == warnings_for(*game),
    {
        let party_size = living(&game.party) as u32;
        let need = game.food_needed();
        let food_per_day = if need > 1 { need } else { 1 };
        let mut required: Vec<(String, u32)> = Vec::new();
        required.push(("oxen".to_owned(), TARGET_OXEN));
        required.push(("clothing".to_owned(), party_size));
        required.push(("ammunition".to_owned(), TARGET_AMMUNITION));
        required.push(("wheel".to_owned(), 1));
        required.push(("axle".to_owned(), 1));
        required.push(("tongue".to_owned(), 1));
        required.push(("medicine".to_owned(), 1));
        assert(pairs(required@) =~= outfit(party_size));
        let non_food = cost_of(game, &required);
        let target_food_lbs = food_target(game, &required, non_food);
        let mut recommended = required;
        recommended.insert(1, ("food".to_owned(), target_food_lbs));
        assert(pairs(recommended@) =~= recommended_outfit(*game));
        let completion = cost_of(game, &recommended);
        let days = game.inventory.get("food") / food_per_day;
        let target_days = target_food_lbs / food_per_day;

        let warnings = warnings_of(game, days, party_size, completion);
        let cash_after: i64 = if completion > 0 && game.cash_cents < i64::MIN + completion {
            i64::MIN
        } else if completion < 0 && game.cash_cents > i64::MAX + completion {
            i64::MAX
        } else {
            game.cash_cents - completion
        };
        OutfittingAdvice {
            food_per_day,
            food_days: days,
            target_food_lbs,
            target_food_days: target_days,
            completion_cost_cents: completion,
            cash_after_cents: cash_after,
            recommended,
            warnings,
        }
    }
}

/// The first item of the content called `id`, when there is one.
pub open spec fn item_of(g: GameState, id: Seq<char>) -> Option<ItemDefinition> {
    match find_first(g.content.items@, item_named(id)) {
        Some(i) => Some(g.content.items@[i]),
        None => None,
    }
}

/// A store line for item `id`: its name, its price in dollars per unit, and what is on
/// hand; nothing for an item the content lacks.
pub open spec fn item_line(g: GameState, id: Seq<char>) -> Option<Seq<char>> {
    match item_of(g, id) {
        Some(item) => Some(item.name@ + ": $"@ + dollars(item.price_cents as int) + " per "@ + item.unit@ + " \u{b7} "@
            + decimal(held(g.inventory, id) as nat) + " on hand"@),
        None => None,
    }
}

/// One part of the starter target: a count, the unit and the item's name in lower case.
pub open spec fn target_part(count: u32, item: ItemDefinition) -> Seq<char> {
    decimal(count as nat) + " "@ + item.unit@ + " "@ + lowercase(item.name@)
}

/// The parts of the starter target for the items of `rec` the content knows.
pub open spec fn target_parts(g: GameState, rec: Seq<(Seq<char>, u32)>) -> Seq<Seq<char>>
    decreases rec.len(),
{
    if rec.len() == 0 {
        Seq::empty()
    } else {
        let r = target_parts(g, rec.drop_last());
        match item_of(g, rec.last().0) {
            Some(item) => r.push(target_part(rec.last().1, item)),
            None => r,
        }
    }
}

/// `parts` joined by a middle dot between spaces.
pub open spec fn dotted(parts: Seq<Seq<char>>) -> Seq<char>
    decreases parts.len(),
{
    if parts.len() == 0 {
        Seq::empty()
    } else if parts.len() == 1 {
        parts[0]
    } else {
        dotted(parts.drop_last()) + " \u{b7} "@ + parts.last()
    }
}

impl OutfittingAdvice {
    /// The store line for item `item_id`, when the content has it.
    pub fn selected_item_line(&self, game: &GameState, item_id: &str) -> (r: Option<String>)
        ensures
            match item_line(*game, item_id@) {
                Some(t) => r matches Some(s) && s@ == t,
                None => r is None,
            },
    {
        let i = match find_item(&game.content.items, item_id) {
            Some(i) => i,
            None => return None,
        };
        proof { lemma_first_facts(game.content.items@, item_named(item_id@)); }
        let item = &game.content.items[i];
        let price = match game.price_cents(item_id) {
            Some(p) => p,
            None => return None,
        };
        let mut t = item.name.clone();
        vstd::string::StringExecFns::append(&mut t, ": $");
        push_dollars(&mut t, price);
        vstd::string::StringExecFns::append(&mut t, " per ");
        vstd::string::StringExecFns::append(&mut t, item.unit.as_str());
        vstd::string::StringExecFns::append(&mut t, " \u{b7} ");
        push_decimal(&mut t, game.inventory.get(item_id) as u64);
        vstd::string::StringExecFns::append(&mut t, " on hand");
        Some(t)
    }

    /// The recommended outfit in one line, such as `Starter target: 3 yoke oxen · ...`.
    pub fn target_line(&self, game: &GameState) -> (r: String)
        ensures
            r@ == "Starter target: "@ + dotted(target_parts(*game, pairs(self.recommended@))),
    {
        let ghost rec = pairs(self.recommended@);
        let mut parts: Vec<String> = Vec::new();
        let mut k: usize = 0;
        while k < self.recommended.len()
            invariant
                rec == pairs(self.recommended@),
                k <= self.recommended@.len(),
                lines(parts@) == target_parts(*game, rec.take(k as int)),
            decreases self.recommended@.len() - k,
        {
            proof {
                assert(rec.take(k + 1).drop_last() =~= rec.take(k as int));
                assert(rec.take(k + 1).last() == rec[k as int]);
            }
            let id = self.recommended[k].0.as_str();
            match find_item(&game.content.items, id) {
                Some(i) => {
                    proof { lemma_first_facts(game.content.items@, item_named(id@)); }
                    let item = &game.content.items[i];
                    let mut part = String::new();
                    push_decimal(&mut part, self.recommended[k].1 as u64);
                    vstd::string::StringExecFns::append(&mut part, " ");
                    vstd::string::StringExecFns::append(&mut part, item.unit.as_str());
                    vstd::string::StringExecFns::append(&mut part, " ");
                    let lower = to_lowercase(item.name.as_str());
                    vstd::string::StringExecFns::append(&mut part, lower.as_str());
                    push_line(&mut parts, part);
                },
                None => {},
            }
            k = k + 1;
        }
        proof {
            assert(rec.take(self.recommended@.len() as int) =~= rec);
        }
        let mut out = "Starter target: ".to_owned();
        let ghost head = out@;
        let mut j: usize = 0;
        while j < parts.len()
            invariant
                j <= parts@.len(),
                out@ == head + dotted(lines(parts@).take(j as int)),
            decreases parts@.len() - j,
        {
            proof {
                let ls = lines(parts@);
                assert(ls.take(j + 1).drop_last() =~= ls.take(j as int));
                assert(ls.take(j + 1).last() == parts@[j as int]@);
                if j == 0 {
                    assert(ls.take(1) =~= seq![parts@[0]@]);
                }
            }
            if j > 0 {
                vstd::string::StringExecFns::append(&mut out, " \u{b7} ");
            }
            vstd::string::StringExecFns::append(&mut out, parts[j].as_str());
            j = j + 1;
        }
        proof {
            assert(lines(parts@).take(parts@.len() as int) =~= lines(parts@));
        }
        out
    }
}

} // verus!
