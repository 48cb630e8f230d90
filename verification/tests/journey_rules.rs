use pioneer_trail::content::{
    Condition, EventDefinition, GameContent, LandmarkDefinition, LandmarkKind, RiverDefinition,
    RouteDefinition,
};
use pioneer_trail::state::{Command, CommandError, CrossMethod, GameState, Outcome, Pace, RunStatus};

fn node(id: &str, name: &str, mile: u32, kind: LandmarkKind, routes: Vec<RouteDefinition>) -> LandmarkDefinition {
    LandmarkDefinition { id: id.into(), name: name.into(), mile, kind, routes, river: None, store: false }
}

fn route(id: &str, label: &str, target_id: &str, distance_miles: u32) -> RouteDefinition {
    RouteDefinition { id: id.into(), label: label.into(), target_id: target_id.into(), distance_miles }
}

fn branch_content() -> GameContent {
    let mut content = GameContent::starter();
    let mut start = node("independence", "Start", 0, LandmarkKind::Town, vec![route("to-river", "River", "river", 10)]);
    start.store = true;
    let mut river = node("river", "River", 10, LandmarkKind::River, vec![route("to-fork", "Fork", "fork", 10)]);
    river.river = Some(RiverDefinition { width_feet: 10, depth_feet: 1, ferry_cost_cents: Some(100) });
    content.trails[0].nodes = vec![
        start,
        river,
        node("fork", "Fork", 20, LandmarkKind::Fork, vec![
            route("short", "Short", "willamette", 5),
            route("long", "Long", "detour", 100),
        ]),
        node("detour", "Detour", 120, LandmarkKind::Landmark, vec![route("finish", "Finish", "willamette", 5)]),
        node("willamette", "Goal", 25, LandmarkKind::Finale, vec![]),
    ];
    content
}

fn configure(game: &mut GameState) {
    game.apply(Command::Configure {
        trail_id: "oregon".into(),
        era_id: "1848".into(),
        occupation_id: "farmer".into(),
        party: vec!["Ada".into(), "Ben".into(), "Clara".into(), "David".into(), "Eve".into()],
        departure_month: 4,
    });
}

fn run(seed: u64) -> GameState {
    let mut g = GameState::new(seed);
    configure(&mut g);
    g.apply(Command::Buy { item_id: "food".into(), quantity: 500 });
    g.apply(Command::Buy { item_id: "oxen".into(), quantity: 3 });
    g.apply(Command::Depart);
    assert_eq!(g.status, RunStatus::Travelling);
    g
}

#[test]
fn state_deterministic() {
    let (mut a, mut b) = (run(4), run(4));
    for _ in 0..5 {
        assert_eq!(a.apply(Command::TravelDay), b.apply(Command::TravelDay));
    }
}

#[test]
fn river_wait_consumes_day_but_does_not_cross() {
    let mut game = GameState::with_content(1, branch_content());
    configure(&mut game);
    game.apply(Command::Buy { item_id: "oxen".into(), quantity: 1 });
    game.apply(Command::Buy { item_id: "food".into(), quantity: 100 });
    game.apply(Command::Depart);
    game.apply(Command::TravelDay);
    assert!(matches!(game.status, RunStatus::AwaitingRiver(_)));
    let day = game.day;
    let food = game.inventory.get("food");
    game.apply(Command::CrossRiver { method: CrossMethod::Wait });
    assert!(matches!(game.status, RunStatus::AwaitingRiver(_)));
    assert_eq!(game.day, day + 1);
    assert!(game.inventory.get("food") < food);
}

#[test]
fn selected_route_clamps_and_arrives_only_at_goal() {
    let mut game = GameState::with_content(2, branch_content());
    configure(&mut game);
    game.apply(Command::Buy { item_id: "oxen".into(), quantity: 1 });
    game.apply(Command::Buy { item_id: "food".into(), quantity: 100 });
    game.apply(Command::Depart);
    game.apply(Command::TravelDay);
    game.apply(Command::CrossRiver { method: CrossMethod::Ferry });
    game.apply(Command::TravelDay);
    assert!(matches!(game.status, RunStatus::AwaitingFork(_)));
    game.apply(Command::ChooseRoute { route_id: "short".into() });
    game.apply(Command::TravelDay);
    assert_eq!(game.status, RunStatus::Arrived);
    assert_eq!(game.miles, 25);
}

#[test]
fn rejected_command_does_not_mutate_state() {
    let mut game = GameState::new(2);
    let before = format!("{:?}", game);
    assert!(matches!(game.apply(Command::Depart).as_slice(), [Outcome::Rejected(_)]));
    assert_eq!(before, format!("{:?}", game));
}

#[test]
fn event_weights_bias_deterministic_selection() {
    let mut game = run(19);
    game.content.events = vec![
        EventDefinition {
            id: "common".into(),
            text: "common".into(),
            weight: 100,
            conditions: vec![Condition::Always],
            effects: vec![],
            choices: vec![],
        },
        EventDefinition {
            id: "rare".into(),
            text: "rare".into(),
            weight: 1,
            conditions: vec![Condition::Always],
            effects: vec![],
            choices: vec![],
        },
    ];
    let mut common = 0;
    let mut rare = 0;
    for _ in 0..10_000 {
        let mut outcomes = Vec::new();
        game.event(&mut outcomes);
        for outcome in outcomes {
            if let Outcome::Event { event_id, .. } = outcome {
                if event_id == "common" {
                    common += 1
                } else {
                    rare += 1
                }
            }
        }
    }
    assert!(common > rare * 20, "common={common}, rare={rare}");
}

#[test]
fn starvation_ends_a_party_and_terminal_commands_are_inert() {
    let mut game = run(42);
    game.inventory.quantities.set("food", 0);
    for _ in 0..20 {
        game.apply(Command::Continue);
    }
    assert_eq!(game.status, RunStatus::Failed);
    assert!(game.party.iter().all(|member| !member.alive && member.health == 0));
    let before = format!("{:?}", game);
    for command in [Command::Continue, Command::Rest { days: 10 }, Command::Talk] {
        assert!(matches!(game.apply(command).as_slice(), [Outcome::Rejected(_)]));
        assert_eq!(format!("{:?}", game), before);
    }
    game.validate().unwrap();
}

#[test]
fn river_wait_can_starve_and_rest_does_not_restore_dead_members() {
    let mut game = run(3);
    game.status = RunStatus::AwaitingRiver("river".into());
    game.content = branch_content();
    game.current_node_id = Some("river".into());
    game.target_node_id = None;
    game.route_miles_remaining = 0;
    game.inventory.quantities.set("food", 0);
    for member in &mut game.party {
        member.health = 5;
    }
    game.apply(Command::CrossRiver { method: CrossMethod::Wait });
    assert_eq!(game.status, RunStatus::Failed);
    assert!(game.party.iter().all(|member| !member.alive));
    let mut game = run(5);
    game.party[0].alive = false;
    game.party[0].health = 0;
    game.apply(Command::Rest { days: 2 });
    assert!(!game.party[0].alive);
    assert_eq!(game.party[0].health, 0);
    assert_eq!(game.inventory.get("food"), 476);
}

#[test]
fn travel_invariants_hold_for_seeded_journeys() {
    for seed in [0u64, 1, 7, 99, 12345] {
        for pace in [Pace::Steady, Pace::Strenuous, Pace::Grueling] {
            let mut game = run(seed);
            game.apply(Command::SetPace(pace));
            let mut prior_miles = 0;
            let mut prior_alive = 5;
            for _ in 0..300 {
                game.apply(Command::Continue);
                assert!(game.miles >= prior_miles && game.miles <= 2040);
                let alive = game.party.iter().filter(|member| member.alive).count();
                assert!(alive <= prior_alive);
                assert!(game.party.iter().all(|member| member.health <= 100));
                prior_miles = game.miles;
                prior_alive = alive;
                if matches!(game.status, RunStatus::Arrived | RunStatus::Failed) {
                    break;
                }
            }
            assert!(matches!(game.status, RunStatus::Arrived | RunStatus::Failed));
        }
    }
}

#[test]
fn setup_buy_and_phase_errors_are_exact() {
    let mut game = GameState::new(9);
    assert_eq!(game.try_apply(Command::Buy { item_id: "food".into(), quantity: 1 }), Err(CommandError::InvalidPhase));
    assert_eq!(
        game.try_apply(Command::Configure {
            trail_id: "oregon".into(),
            era_id: "1848".into(),
            occupation_id: "farmer".into(),
            party: vec!["Ada".into(), "Ben".into()],
            departure_month: 4,
        }),
        Err(CommandError::InvalidSetup)
    );
    assert_eq!(
        game.try_apply(Command::Configure {
            trail_id: "santa_fe".into(),
            era_id: "1848".into(),
            occupation_id: "farmer".into(),
            party: vec!["Ada".into(), "Ben".into(), "Clara".into(), "David".into(), "Eve".into()],
            departure_month: 4,
        }),
        Err(CommandError::UnknownId("santa_fe".into()))
    );
    configure(&mut game);
    assert_eq!(game.status, RunStatus::Outfitting);
    assert_eq!(game.cash_cents, 40_000);
    assert_eq!(game.try_apply(Command::Depart), Err(CommandError::InvalidChoice));
    assert_eq!(game.try_apply(Command::Buy { item_id: "silk".into(), quantity: 1 }), Err(CommandError::UnknownId("silk".into())));
    assert_eq!(game.try_apply(Command::Buy { item_id: "medicine".into(), quantity: 6 }), Err(CommandError::CapacityExceeded));
    assert_eq!(game.try_apply(Command::Buy { item_id: "oxen".into(), quantity: 10 }), Err(CommandError::CapacityExceeded));
    assert_eq!(game.try_apply(Command::Buy { item_id: "clothing".into(), quantity: 41 }), Err(CommandError::InsufficientCash));
    let bought = game.try_apply(Command::Buy { item_id: "food".into(), quantity: 100 }).unwrap();
    assert_eq!(bought, vec![Outcome::Purchased { item_id: "food".into(), quantity: 100, cost_cents: 2_000 }]);
    assert_eq!(game.cash_cents, 38_000);
    assert_eq!(game.wagon_weight(), 100);
    assert_eq!(game.price_cents("oxen"), Some(4_000));
    assert_eq!(game.price_cents("silk"), None);
    assert!(game.can_shop());
    assert_eq!(game.try_apply(Command::Rest { days: 2 }), Err(CommandError::InvalidPhase));
    assert_eq!(game.date(), (1848, 4, 1));
}
