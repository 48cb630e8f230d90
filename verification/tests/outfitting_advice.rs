use pioneer_trail::advice::{supplies_advice, trail_advice};
use pioneer_trail::content::{GameContent, ItemDefinition, OccupationDefinition};
use pioneer_trail::outfitting::OutfittingAdvice;
use pioneer_trail::state::{Command, GameState, Outcome, Pace, RationLevel, RunStatus};

fn item(id: &str, name: &str, unit: &str, price_cents: i64, weight_lbs: u32, limit: u32) -> ItemDefinition {
    ItemDefinition {
        id: id.into(),
        name: name.into(),
        unit: unit.into(),
        price_cents,
        weight_lbs,
        limit,
    }
}

fn store() -> GameContent {
    let mut c = GameContent::starter();
    c.items.push(item("ammunition", "Ammunition", "box of 20", 200, 3, 60));
    c.items.push(item("wheel", "Wagon Wheel", "wheel", 1_000, 20, 3));
    c.items.push(item("axle", "Wagon Axle", "axle", 1_000, 20, 3));
    c.items.push(item("tongue", "Wagon Tongue", "tongue", 1_000, 20, 3));
    c.occupations.push(OccupationDefinition {
        id: "carpenter".into(),
        name: "Carpenter".into(),
        starting_cash_cents: 80_000,
        score_multiplier_milli: 2000,
        perk: String::new(),
    });
    c
}

fn configured(occupation: &str) -> GameState {
    let mut game = GameState::with_content(7, store());
    let out = game.apply(Command::Configure {
        trail_id: "oregon".into(),
        era_id: "1848".into(),
        occupation_id: occupation.into(),
        party: ["Ada", "Ben", "Clara", "David", "Eve"].map(str::to_owned).to_vec(),
        departure_month: 4,
    });
    assert_eq!(out, vec![Outcome::Configured]);
    game
}

fn assert_target_is_buyable(mut game: GameState, advice: OutfittingAdvice) {
    for (item_id, target) in advice.recommended {
        let quantity = target.saturating_sub(game.inventory.get(&item_id));
        if quantity > 0 {
            let out = game.apply(Command::Buy { item_id, quantity });
            assert!(!matches!(out.as_slice(), [Outcome::Rejected(_)]), "advice must not recommend an unbuyable target");
        }
    }
    assert!(game.weight() <= 2_400);
}

#[test]
fn carpenter_target_fits_cash_and_weight() {
    let game = configured("carpenter");
    let advice = OutfittingAdvice::for_game(&game);
    assert!(advice.completion_cost_cents <= game.cash_cents);
    assert_eq!(advice.food_per_day, 15);
    assert_eq!(advice.target_food_lbs % 100, 0);
    assert!(advice.target_food_lbs <= 1_200);
    assert_eq!(advice.target_food_days, advice.target_food_lbs / 15);
    assert_eq!(advice.cash_after_cents, game.cash_cents - advice.completion_cost_cents);
    let ids: Vec<&str> = advice.recommended.iter().map(|(id, _)| id.as_str()).collect();
    assert_eq!(ids, vec!["oxen", "food", "clothing", "ammunition", "wheel", "axle", "tongue", "medicine"]);
    assert_eq!(advice.recommended[2], ("clothing".to_string(), 5));
    assert_target_is_buyable(game, advice);
}

#[test]
fn the_purse_limits_the_food_target() {
    let game = configured("farmer");
    let advice = OutfittingAdvice::for_game(&game);
    // 400.00 cash: three yoke (120.00), five sets (50.00), ten boxes (20.00), the spares
    // (30.00) and a kit (15.00) leave 165.00, 50.00 of it kept back: 575 lb at 20 cents.
    assert_eq!(advice.target_food_lbs, 500);
    assert_eq!(advice.completion_cost_cents, 23_500 + 10_000);
    assert_eq!(advice.cash_after_cents, 40_000 - 33_500);
    assert!(advice.warnings.iter().any(|w| w == "0 yoke on hand; three yoke is a safer start."));
    assert!(advice.warnings.iter().any(|w| w == "Food lasts about 0 days before spoilage; thirty is a thin reserve."));
    assert!(advice.warnings.iter().any(|w| w == "0 clothing sets for 5 travelers."));
    assert!(advice.warnings.iter().any(|w| w == "No medicine kit on hand."));
    assert_target_is_buyable(game, advice);
}

#[test]
fn item_units_and_food_warning_reflect_the_live_inventory() {
    let mut game = configured("carpenter");
    game.inventory.add("ammunition", 49);
    game.inventory.add("clothing", 10);
    game.inventory.add("medicine", 5);
    let advice = OutfittingAdvice::for_game(&game);
    assert_eq!(advice.food_per_day, 15);
    assert_eq!(advice.food_days, 0);
    assert!(advice.warnings.iter().any(|warning| warning.contains("Food lasts")));
    assert!(advice.warnings.iter().any(|warning| warning.contains("Ammunition")));
    assert!(!advice.warnings.iter().any(|warning| warning.contains("medicine")));
    assert_eq!(
        advice.selected_item_line(&game, "ammunition").unwrap(),
        "Ammunition: $2.00 per box of 20 · 49 on hand"
    );
    assert_eq!(advice.selected_item_line(&game, "lantern"), None);
    assert_target_is_buyable(game, advice);
}

#[test]
fn the_target_line_lists_known_items_in_lower_case() {
    let game = configured("carpenter");
    let mut advice = OutfittingAdvice::for_game(&game);
    advice.recommended = vec![("oxen".into(), 3), ("lantern".into(), 1), ("wheel".into(), 1)];
    assert_eq!(advice.target_line(&game), "Starter target: 3 yoke oxen · 1 wheel wagon wheel");
    advice.recommended.clear();
    assert_eq!(advice.target_line(&game), "Starter target: ");
}

#[test]
fn trail_advice_puts_food_first_then_illness_then_pace() {
    let mut game = configured("farmer");
    assert_eq!(trail_advice(&game), "Food is short. Press 9 to buy food here before travelling another day.");
    game.inventory.add("food", 1_000);
    assert_eq!(trail_advice(&game), "1000 lb: up to 66 ration days for 5, less after spoilage or losses.");
    game.day = 1;
    assert_eq!(trail_advice(&game), "One ammunition box holds 20 shots. Hunt when food needs justify it.");
    game.rations = RationLevel::Meager;
    assert_eq!(trail_advice(&game), "Steady restores health when the day's chosen ration is met.");
    game.pace = Pace::Grueling;
    assert_eq!(trail_advice(&game), "Grueling covers ground, but it does not restore health. Use it sparingly.");
    game.party[2].health = 30;
    assert_eq!(trail_advice(&game), "Health is low. X opens rest; keep enough food for those camp days.");
    game.party[1].ailments.push("cholera".into());
    game.party[1].skills.medicine = 0;
    game.party.iter_mut().for_each(|m| m.skills.medicine = 0);
    assert_eq!(trail_advice(&game), "Illness, but no kit or trained medic. X rests with food; seek medicine.");
    game.inventory.add("medicine", 1);
    assert_eq!(trail_advice(&game), "Someone is ill. Press I to treat an ailment; X opens the rest menu.");
    game.status = RunStatus::Arrived;
    assert_eq!(trail_advice(&game), "You arrived with 5 survivor(s). Supplies left over add to your score.");
    game.status = RunStatus::Failed;
    assert_eq!(trail_advice(&game), "No single cause is recorded. Next run: check food, health, and pace often.");
}

#[test]
fn supplies_advice_counts_ration_days() {
    let mut game = configured("farmer");
    assert_eq!(supplies_advice(&game), "No food remains. Esc returns to camp for hunting, foraging, or buying.");
    game.inventory.add("food", 1_000);
    assert_eq!(supplies_advice(&game), "1000 lb: up to 66 ration days, less after spoilage or losses.");
}
