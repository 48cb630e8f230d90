//! Short, state-specific prompts that fit the trail panel: what needs attention now.

use vstd::prelude::*;
use crate::lookup::{find_first, lemma_first_facts};
use crate::outfitting::market_named;
use crate::state::{GameState, RunStatus, Pace, RationLevel, alive_count, living, held, item_named};
use crate::text::{decimal, push_decimal};
use crate::ui::{fit, fitted};
use crate::weather::Terrain;

verus! {

/// Some living traveler satisfies `p`.
pub open spec fn some_living(g: GameState, p: spec_fn(crate::health::PartyMember) -> bool) -> bool {
    exists|i: int| 0 <= i < g.party@.len() && (#[trigger] g.party@[i]).alive && p(g.party@[i])
}

/// Whether some living traveler satisfies `test`, found by a walk over the party.
fn any_living(g: &GameState, what: u8) -> (r: bool)
    requires
        what < 3,
    ensures
        r == some_living(*g, if what == 0 {
            |m: crate::health::PartyMember| m.ailments@.len() > 0
        } else if what == 1 {
            |m: crate::health::PartyMember| m.health < 40
        } else {
            |m: crate::health::PartyMember| m.skills.medicine >= 4
        }),
{
    let ghost p = if what == 0 {
        |m: crate::health::PartyMember| m.ailments@.len() > 0
    } else if what == 1 {
        |m: crate::health::PartyMember| m.health < 40
    } else {
        |m: crate::health::PartyMember| m.skills.medicine >= 4
    };
    let mut i: usize = 0;
    while i < g.party.len()
        invariant
            i <= g.party@.len(),
            what < 3,
            p == (if what == 0 {
                |m: crate::health::PartyMember| m.ailments@.len() > 0
            } else if what == 1 {
                |m: crate::health::PartyMember| m.health < 40
            } else {
                |m: crate::health::PartyMember| m.skills.medicine >= 4
            }),
            forall|j: int| 0 <= j < i ==> !((#[trigger] g.party@[j]).alive && p(g.party@[j])),
        decreases g.party@.len() - i,
    {
        let m = &g.party[i];
        let hit = if what == 0 {
            m.ailments.len() > 0
        } else if what == 1 {
            m.health < 40
        } else {
            m.skills.medicine >= 4
        };
        if m.alive && hit {
            assert(g.party@[i as int].alive && p(g.party@[i as int]));
            return true;
        }
        i = i + 1;
    }
    false
}

/// The party's daily food, at least a pound, for dividing.
pub open spec fn daily_at_least_one(g: GameState) -> u32 {
    if g.food_need() > 1 { g.food_need() } else { 1 }
}

/// The food stock of the market at the current landmark, when it lists food.
pub open spec fn market_food(g: GameState) -> Option<u32> {
    match g.current_node_id {
        Some(n) => match find_first(g.markets@, market_named(n@)) {
            Some(k) => if g.markets@[k].1.stock.map().dom().contains("food"@) {
                Some(g.markets@[k].1.stock.map()["food"@])
            } else {
                None
            },
            None => None,
        },
        None => None,
    }
}

/// What to do when food is short: buy it here if the store has food and the purse
/// covers a pound, fish by a river, hunt while there is ammunition, or forage.
pub open spec fn food_recovery_text(g: GameState) -> Seq<char> {
    let in_stock = match market_food(g) { Some(s) => s > 0, None => true };
    let affordable = match find_first(g.content.items@, item_named("food"@)) {
        Some(i) => g.cash_cents >= g.content.items@[i].price_cents,
        None => false,
    };
    if g.shop_open() && in_stock && affordable {
        "Food is short. Press 9 to buy food here before travelling another day."@
    } else if g.terrain_here() == Terrain::RiverValley {
        "Food is short. Press G to fish, or F to forage before travelling."@
    } else if held(g.inventory, "ammunition"@) > 0 {
        "Food is short. Press 7 to hunt or F to forage before travelling."@
    } else {
        "Food is short. Press F to forage before travelling."@
    }
}

fn food_recovery_tip(game: &GameState) -> (r: &'static str)
    ensures
        r@ == food_recovery_text(*game),
{
    let in_stock = match &game.current_node_id {
        Some(n) => match crate::outfitting::find_market(&game.markets, n.as_str()) {
            Some(k) => {
                proof { lemma_first_facts(game.markets@, market_named(n@)); }
                match game.markets[k].1.stock.get("food") {
                    Some(s) => s > 0,
                    None => true,
                }
            },
            None => true,
        },
        None => true,
    };
    let affordable = match game.price_cents("food") {
        Some(price) => game.cash_cents >= price,
        None => false,
    };
    if game.can_shop() && in_stock && affordable {
        "Food is short. Press 9 to buy food here before travelling another day."
    } else if matches!(game.terrain(), Terrain::RiverValley) {
        "Food is short. Press G to fish, or F to forage before travelling."
    } else if game.inventory.get("ammunition") > 0 {
        "Food is short. Press 7 to hunt or F to forage before travelling."
    } else {
        "Food is short. Press F to forage before travelling."
    }
}

/// A rotating tip for a healthy, well-paced party: how long the food lasts, then notes
/// on ammunition, resting and river crossings.
pub open spec fn healthy_text(g: GameState) -> Seq<char> {
    let food = held(g.inventory, "food"@);
    if g.day % 4 == 0 {
        decimal(food as nat) + " lb: up to "@ + decimal((food / daily_at_least_one(g)) as nat) + " ration days for "@
            + decimal(alive_count(g.party@)) + ", less after spoilage or losses."@
    } else if g.day % 4 == 1 {
        "One ammunition box holds 20 shots. Hunt when food needs justify it."@
    } else if g.day % 4 == 2 {
        "Rest uses rations, but eases ox fatigue and can help the party recover."@
    } else {
        "At rivers, compare crossing risks before choosing a method."@
    }
}

fn healthy_tip(game: &GameState) -> (r: String)
    ensures
        r@ == healthy_text(*game),
{
    let food = game.inventory.get("food");
    let need = game.food_needed();
    let daily = if need > 1 { need } else { 1 };
    match game.day % 4 {
        0 => {
            let mut t = String::new();
            push_decimal(&mut t, food as u64);
            vstd::string::StringExecFns::append(&mut t, " lb: up to ");
            push_decimal(&mut t, (food / daily) as u64);
            vstd::string::StringExecFns::append(&mut t, " ration days for ");
            push_decimal(&mut t, living(&game.party) as u64);
            vstd::string::StringExecFns::append(&mut t, ", less after spoilage or losses.");
            t
        },
        1 => "One ammunition box holds 20 shots. Hunt when food needs justify it.".to_owned(),
        2 => "Rest uses rations, but eases ox fatigue and can help the party recover.".to_owned(),
        _ => "At rivers, compare crossing risks before choosing a method.".to_owned(),
    }
}

/// The prompt for the trail panel, before fitting to one line: the outcome of a finished
/// journey; otherwise short food first, then illness, then failing health, then a word
/// on the pace and rations.
pub open spec fn trail_advice_text(g: GameState) -> Seq<char> {
    let food = held(g.inventory, "food"@);
    let daily = g.food_need();
    if g.status is Failed {
        if food == 0 {
            "Food gone. No single cause recorded. Buy food before extra ammo."@
        } else {
            "No single cause is recorded. Next run: check food, health, and pace often."@
        }
    } else if g.status is Arrived {
        "You arrived with "@ + decimal(alive_count(g.party@)) + " survivor(s). Supplies left over add to your score."@
    } else if food < crate::outfitting::cap_u32(daily * 3) {
        food_recovery_text(g)
    } else if some_living(g, |m: crate::health::PartyMember| m.ailments@.len() > 0) {
        if held(g.inventory, "medicine"@) > 0 || some_living(g, |m: crate::health::PartyMember| m.skills.medicine >= 4) {
            "Someone is ill. Press I to treat an ailment; X opens the rest menu."@
        } else {
            "Illness, but no kit or trained medic. X rests with food; seek medicine."@
        }
    } else if some_living(g, |m: crate::health::PartyMember| m.health < 40) {
        "Health is low. X opens rest; keep enough food for those camp days."@
    } else {
        match g.pace {
            Pace::Grueling => "Grueling covers ground, but it does not restore health. Use it sparingly."@,
            Pace::Strenuous => "Strenuous gains miles without Steady's daily health recovery."@,
            Pace::Steady => if g.rations != RationLevel::Filling {
                "Steady restores health when the day's chosen ration is met."@
            } else {
                healthy_text(g)
            },
        }
    }
}

/// A short, state-specific prompt that fits the trail panel.
pub fn trail_advice(game: &GameState) -> (r: String)
    ensures
        r@ == fitted(trail_advice_text(*game)),
{
    let food = game.inventory.get("food");
    let daily = game.food_needed();
    if matches!(game.status, RunStatus::Failed) {
        return if food == 0 {
            fit("Food gone. No single cause recorded. Buy food before extra ammo.")
        } else {
            fit("No single cause is recorded. Next run: check food, health, and pace often.")
        };
    }
    if matches!(game.status, RunStatus::Arrived) {
        let mut t = "You arrived with ".to_owned();
        push_decimal(&mut t, living(&game.party) as u64);
        vstd::string::StringExecFns::append(&mut t, " survivor(s). Supplies left over add to your score.");
        return fit(t.as_str());
    }
    let short_line: u32 = match daily.checked_mul(3) {
        Some(v) => v,
        None => u32::MAX,
    };
    if food < short_line {
        return fit(food_recovery_tip(game));
    }
    if any_living(game, 0) {
        return if game.inventory.get("medicine") > 0 || any_living(game, 2) {
            fit("Someone is ill. Press I to treat an ailment; X opens the rest menu.")
        } else {
            fit("Illness, but no kit or trained medic. X rests with food; seek medicine.")
        };
    }
    if any_living(game, 1) {
        return fit("Health is low. X opens rest; keep enough food for those camp days.");
    }
    match game.pace {
        Pace::Grueling => fit("Grueling covers ground, but it does not restore health. Use it sparingly."),
        Pace::Strenuous => fit("Strenuous gains miles without Steady's daily health recovery."),
        Pace::Steady => {
            if !matches!(game.rations, RationLevel::Filling) {
                fit("Steady restores health when the day's chosen ration is met.")
            } else {
                let tip = healthy_tip(game);
                fit(tip.as_str())
            }
        },
    }
}

/// The prompt on the supplies screen, before fitting: with no food, where to find some;
/// otherwise how many ration days the food makes.
pub open spec fn supplies_advice_text(g: GameState) -> Seq<char> {
    let food = held(g.inventory, "food"@);
    if food == 0 {
        "No food remains. Esc returns to camp for hunting, foraging, or buying."@
    } else {
        decimal(food as nat) + " lb: up to "@ + decimal((food / daily_at_least_one(g)) as nat)
            + " ration days, less after spoilage or losses."@
    }
}

/// The prompt on the supplies screen.
pub fn supplies_advice(game: &GameState) -> (r: String)
    ensures
        r@ == fitted(supplies_advice_text(*game)),
{
    let food = game.inventory.get("food");
    if food == 0 {
        return fit("No food remains. Esc returns to camp for hunting, foraging, or buying.");
    }
    let need = game.food_needed();
    let daily = if need > 1 { need } else { 1 };
    let mut t = String::new();
    push_decimal(&mut t, food as u64);
    vstd::string::StringExecFns::append(&mut t, " lb: up to ");
    push_decimal(&mut t, (food / daily) as u64);
    vstd::string::StringExecFns::append(&mut t, " ration days, less after spoilage or losses.");
    fit(t.as_str())
}

} // verus!
