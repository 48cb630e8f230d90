use pioneer_trail::catalog::{validate, ContentError};
use pioneer_trail::content::{
    AilmentDefinition, Condition, Effect, EraDefinition, EraRules, EventChoice, EventDefinition, GameContent,
    LandmarkDefinition, LandmarkKind, LetterDefinition, QuoteDefinition, Region, RouteDefinition, Season,
    SpeakerDefinition, TrailDefinition,
};
use pioneer_trail::tally::Tally;

fn route(id: &str, target: &str, miles: u32) -> RouteDefinition {
    RouteDefinition { id: id.into(), label: format!("Take the {id} road"), target_id: target.into(), distance_miles: miles }
}

fn stop(id: &str, kind: LandmarkKind, mile: u32, store: bool, routes: Vec<RouteDefinition>) -> LandmarkDefinition {
    LandmarkDefinition { id: id.into(), name: id.replace('_', " "), mile, kind, routes, river: None, store }
}

fn oregon() -> TrailDefinition {
    TrailDefinition {
        id: "oregon".into(),
        name: "Oregon Trail".into(),
        start_node_id: "independence".into(),
        goal_node_id: "willamette".into(),
        nodes: vec![
            stop("independence", LandmarkKind::Town, 0, true, vec![route("main", "fort_laramie", 640)]),
            stop("fort_laramie", LandmarkKind::Fort, 640, true, vec![route("main", "willamette", 1400)]),
            stop("willamette", LandmarkKind::Finale, 2040, false, vec![]),
        ],
    }
}

fn california() -> TrailDefinition {
    TrailDefinition {
        id: "california".into(),
        name: "California Trail".into(),
        start_node_id: "independence_ca".into(),
        goal_node_id: "sutter".into(),
        nodes: vec![
            stop("independence_ca", LandmarkKind::Town, 0, true, vec![route("main", "fort_bridger_ca", 1000)]),
            stop(
                "fort_bridger_ca",
                LandmarkKind::Fork,
                1000,
                true,
                vec![route("main", "soda_springs_ca", 150), route("cutoff", "fort_hall_ca", 200)],
            ),
            stop("soda_springs_ca", LandmarkKind::Landmark, 1150, false, vec![route("main", "fort_hall_ca", 60)]),
            stop("fort_hall_ca", LandmarkKind::Fort, 1210, true, vec![route("main", "humboldt", 300)]),
            stop("humboldt", LandmarkKind::Landmark, 1510, false, vec![route("main", "sutter", 400)]),
            stop("sutter", LandmarkKind::Finale, 1910, false, vec![]),
        ],
    }
}

fn event(id: &str, text: &str, weight: u32, effects: Vec<Effect>, choices: Vec<EventChoice>) -> EventDefinition {
    EventDefinition { id: id.into(), text: text.into(), weight, conditions: vec![], effects, choices }
}

fn choice(id: &str, conditions: Vec<Condition>, effects: Vec<Effect>) -> EventChoice {
    EventChoice { id: id.into(), label: format!("Choose to {id}"), conditions, effects }
}

fn rules(weights: &[(&str, u16)]) -> EraRules {
    let mut r = EraRules::default();
    let mut t: Tally<u16> = Tally::new();
    for (id, pct) in weights {
        t.set(id, *pct);
    }
    r.event_weight_percent = t;
    r
}

/// A small catalogue in the shape of the shipped one: two trails (one with a fork), two
/// eras with rules, regions for every landmark, events that schedule and flag each other,
/// family events, a quote, a speaker and two letters.
fn catalogue() -> GameContent {
    let mut c = GameContent::starter();
    c.eras.push(EraDefinition { id: "1852".into(), name: "1852".into(), year: 1852 });
    c.trails = vec![oregon(), california()];
    c.ailments.push(AilmentDefinition {
        id: "dysentery".into(),
        name: "Dysentery".into(),
        severity: 3,
        daily_damage: 2,
        mortality_per_mille: 40,
    });
    c.era_rules = vec![("1848".into(), rules(&[])), ("1852".into(), rules(&[("storm", 150)]))];
    for t in [oregon(), california()] {
        for n in t.nodes {
            c.regions.push((n.id.clone(), Region::plains()));
        }
    }
    c.events = vec![
        event(
            "storm",
            "A storm rolls over the wagons.",
            10,
            vec![Effect::AdjustMorale(-5)],
            vec![
                choice("pay", vec![], vec![Effect::AdjustCash(-500)]),
                choice("wait", vec![], vec![Effect::LoseDays(1)]),
            ],
        ),
        event(
            "wheel",
            "A wagon wheel cracks on the rocks.",
            5,
            vec![Effect::SetFlag("wheel_cracked".into()), Effect::Schedule { event_id: "repair".into(), days: 2 }],
            vec![],
        ),
        EventDefinition {
            conditions: vec![Condition::Flag("wheel_cracked".into())],
            ..event("repair", "The wheelwright finishes the repair.", 0, vec![Effect::ClearFlag("wheel_cracked".into())], vec![])
        },
        event("wedding_offer", "Two travelers ask to be married.", 2, vec![Effect::CelebrateWedding], vec![]),
        event("family_feud", "An old quarrel flares up.", 2, vec![Effect::AdjustRelationship(-10)], vec![]),
        event("party_departure", "A companion decides to turn back.", 1, vec![Effect::MemberLeaves], vec![]),
        event(
            "relative_joins",
            "A cousin catches up with the wagon.",
            1,
            vec![Effect::AddMember { name: "Ada".into(), age: 19 }],
            vec![],
        ),
    ];
    c.quotes = vec![QuoteDefinition {
        id: "prairie_sea".into(),
        text: "Abigail: The prairie rolls on like the sea.".into(),
        landmark_id: Some("fort_laramie".into()),
        seasons: vec![Season::Summer],
        state_tags: vec!["weary".into()],
    }];
    c.speakers = vec![SpeakerDefinition {
        id: "orson".into(),
        name: "Orson".into(),
        landmark_id: "fort_laramie".into(),
        greeting: "Welcome to the fort, travelers.".into(),
        returning_greeting: "Back again, friends?".into(),
        favor_text: "Orson hands over a sack of flour.".into(),
        favor_food_lbs: 15,
    }];
    c.letters = vec![
        LetterDefinition {
            id: "sierra_note".into(),
            trail_id: "california".into(),
            origin_id: "independence_ca".into(),
            destination_id: "fort_hall_ca".into(),
            recipient: "Mrs. Reed".into(),
            text: "News from home.".into(),
            reward_cents: 500,
        },
        LetterDefinition {
            id: "laramie_note".into(),
            trail_id: "oregon".into(),
            origin_id: "independence".into(),
            destination_id: "fort_laramie".into(),
            recipient: "Captain Hale".into(),
            text: "Orders for the garrison.".into(),
            reward_cents: 300,
        },
    ];
    c
}

fn rejection(c: &GameContent) -> String {
    match validate(c) {
        Ok(()) => panic!("the catalogue was accepted"),
        Err(e) => e.message(),
    }
}

#[test]
fn the_sample_catalogue_validates() {
    assert!(validate(&catalogue()).is_ok());
    assert!(validate(&GameContent::starter()).is_ok());
}

#[test]
fn family_events_load_and_invalid_family_dsl_bounds_are_rejected() {
    let content = catalogue();
    for id in ["wedding_offer", "family_feud", "party_departure", "relative_joins"] {
        assert!(content.events.iter().any(|event| event.id == id), "missing {id}");
    }
    let mut invalid = catalogue();
    invalid.events[0].conditions = vec![Condition::RelationshipAtLeast(101)];
    assert!(rejection(&invalid).contains("relationship condition"));
    invalid.events[0].conditions = vec![Condition::Always];
    invalid.events[0].effects = vec![Effect::AddMember { name: "A".into(), age: 101 }];
    assert!(rejection(&invalid).contains("member age"));
}

#[test]
fn speaker_landmark_must_be_a_fort() {
    let mut invalid = catalogue();
    invalid.speakers[0].landmark_id = "independence".into();
    assert!(rejection(&invalid).contains("non-fort landmark"));
}

#[test]
fn speaker_favor_food_must_stay_small_and_bounded() {
    let mut too_much = catalogue();
    too_much.speakers[0].favor_food_lbs = 5_000;
    assert!(rejection(&too_much).contains("bounded amount"));

    let mut zero = catalogue();
    zero.speakers[0].favor_food_lbs = 0;
    assert!(rejection(&zero).contains("bounded amount"));
}

#[test]
fn letters_reject_a_destination_that_a_fork_can_bypass() {
    let mut content = catalogue();
    let letter = content.letters.iter_mut().find(|letter| letter.id == "sierra_note").unwrap();
    letter.destination_id = "soda_springs_ca".into();
    content
        .trails
        .iter_mut()
        .find(|trail| trail.id == "california")
        .unwrap()
        .nodes
        .iter_mut()
        .find(|node| node.id == "soda_springs_ca")
        .unwrap()
        .store = true;
    assert!(rejection(&content).contains("can be bypassed"));
}

#[test]
fn era_rules_and_regions_reject_unknown_ids_and_invalid_ranges() {
    let mut unknown_era = catalogue();
    unknown_era.era_rules.push(("1900".into(), rules(&[])));
    assert!(rejection(&unknown_era).contains("unknown era"));

    let mut missing_region = catalogue();
    missing_region.regions.retain(|(id, _)| id != "independence");
    assert!(rejection(&missing_region).contains("has no region"));

    let mut unknown_region = catalogue();
    unknown_region.regions.push(("nowhere".into(), Region::plains()));
    assert!(rejection(&unknown_region).contains("unknown landmark"));

    let mut invalid_price = catalogue();
    invalid_price.era_rules[0].1.price_percent = 49;
    assert!(rejection(&invalid_price).contains("invalid price"));

    let mut unknown_event = catalogue();
    unknown_event.era_rules[1].1.event_weight_percent.set("unknown_event", 100);
    assert!(rejection(&unknown_event).contains("unknown event"));
}

#[test]
fn missing_route_target_is_rejected() {
    let mut content = catalogue();
    content.trails[0].nodes[0].routes[0].target_id = "nowhere".into();
    assert!(rejection(&content).contains("unknown target"));
}

#[test]
fn missing_ailment_reference_is_rejected() {
    let mut content = catalogue();
    content.events[0].effects = vec![Effect::InflictAilment("ghost_ague".into())];
    assert!(rejection(&content).contains("unknown ailment"));
}

#[test]
fn disconnected_route_is_rejected() {
    let mut content = catalogue();
    content.trails[0].nodes[0].routes[0].target_id = content.trails[0].goal_node_id.clone();
    assert!(rejection(&content).contains("unreachable"));
}

#[test]
fn choice_conditions_are_validated_recursively() {
    let mut content = catalogue();
    content.events[0].choices[1].conditions =
        vec![Condition::All(vec![Condition::InventoryAtLeast { item_id: "ghost".into(), quantity: 1 }])];
    assert!(rejection(&content).contains("unknown item condition"));
}

#[test]
fn invalid_item_and_schedule_effects_are_rejected() {
    let mut content = catalogue();
    content.events[0].effects = vec![Effect::AdjustItem { item_id: "ghost".into(), quantity: 1 }];
    assert!(rejection(&content).contains("unknown item effect"));

    let mut content = catalogue();
    content.events[0].effects = vec![Effect::Schedule { event_id: "wheel".into(), days: 0 }];
    assert!(rejection(&content).contains("invalid days"));
}

#[test]
fn invalid_numeric_conditions_and_effects_are_rejected() {
    let mut content = catalogue();
    content.events[0].conditions = vec![Condition::MoraleBelow(101)];
    assert!(rejection(&content).contains("morale condition"));

    let mut content = catalogue();
    content.events[0].conditions = vec![Condition::InventoryAtLeast { item_id: "food".into(), quantity: 0 }];
    assert!(rejection(&content).contains("zero quantity"));

    let mut content = catalogue();
    content.events[0].conditions = vec![Condition::CashAtLeast(-1)];
    assert!(rejection(&content).contains("cash condition"));

    let mut content = catalogue();
    content.events[0].effects = vec![Effect::AdjustCash(0)];
    assert!(rejection(&content).contains("cash effect"));

    let mut content = catalogue();
    content.events[0].effects = vec![Effect::AdjustItem { item_id: "food".into(), quantity: 0 }];
    assert!(rejection(&content).contains("zero quantity"));
}

#[test]
fn unproduced_flags_and_terminal_events_are_rejected() {
    let mut content = catalogue();
    content.events[0].conditions = vec![Condition::Flag("ghost_flag".into())];
    assert!(rejection(&content).contains("never produced"));

    let mut content = catalogue();
    content.events[0].conditions = vec![Condition::AtLandmark("willamette".into())];
    assert!(rejection(&content).contains("terminal-only"));

    let mut content = catalogue();
    content.events[0].conditions =
        vec![Condition::Trail("california".into()), Condition::AtLandmark("fort_laramie".into())];
    assert!(rejection(&content).contains("cannot reach landmark"));
}

#[test]
fn fallbacks_weight_zero_events_and_quote_tags_are_checked() {
    let mut content = catalogue();
    content.events[0].choices[1].conditions = vec![Condition::CashAtLeast(1)];
    assert!(rejection(&content).contains("no unconditional fallback"));

    let mut content = catalogue();
    content.events[0].weight = 0;
    assert!(rejection(&content).contains("not scheduled"));

    let mut content = catalogue();
    content.quotes[0].state_tags = vec!["starving".into()];
    assert!(rejection(&content).contains("unsupported state tag"));
}

#[test]
fn control_text_is_rejected() {
    let mut content = catalogue();
    content.events[0].text = "bad\ntext".into();
    assert!(rejection(&content).contains("invalid event text"));

    let mut content = catalogue();
    content.events[0].id.clear();
    assert!(rejection(&content).contains("invalid event id"));
}

#[test]
fn a_scheduled_weight_zero_event_and_a_produced_flag_are_accepted() {
    let content = catalogue();
    assert_eq!(content.events[2].weight, 0);
    assert!(validate(&content).is_ok());
    let mut unscheduled = catalogue();
    unscheduled.events[1].effects = vec![Effect::SetFlag("wheel_cracked".into())];
    assert!(rejection(&unscheduled).contains("weight-zero event repair is not scheduled"));
}

#[test]
fn duplicate_ids_and_quote_bodies_are_rejected() {
    let mut content = catalogue();
    content.eras[1].id = "1848".into();
    assert!(rejection(&content).contains("duplicate era id 1848"));

    let mut content = catalogue();
    let mut copy = content.quotes.pop().unwrap();
    let again = QuoteDefinition {
        id: "prairie_again".into(),
        text: "Jonah:   The prairie rolls on like the sea.  ".into(),
        landmark_id: None,
        seasons: copy.seasons.clone(),
        state_tags: vec![],
    };
    copy.state_tags.clear();
    content.quotes = vec![copy, again];
    assert!(rejection(&content).contains("duplicate quote body id"));
}

#[test]
fn letters_need_reachable_open_supply_stops() {
    let mut content = catalogue();
    content.letters[1].destination_id = "willamette".into();
    assert!(rejection(&content).contains("letter laramie_note destination is not a supply stop"));

    let mut content = catalogue();
    content.letters[1].destination_id = "independence".into();
    assert!(rejection(&content).contains("does not travel later"));

    let mut content = catalogue();
    content.letters[0].origin_id = "fort_hall_ca".into();
    content.letters[0].destination_id = "fort_bridger_ca".into();
    assert!(rejection(&content).contains("destination is unreachable"));

    let mut content = catalogue();
    content.letters[1].reward_cents = 99;
    assert!(rejection(&content).contains("letter reward is out of range"));

    let mut content = catalogue();
    for (_, r) in content.era_rules.iter_mut() {
        r.unavailable_stores = vec!["fort_laramie".into()];
    }
    assert!(rejection(&content).contains("unavailable in every era"));

    let mut content = catalogue();
    content.era_rules[0].1.unavailable_stores = vec!["fort_laramie".into()];
    assert!(validate(&content).is_ok());
}

#[test]
fn trail_shape_rules_are_enforced() {
    let mut content = catalogue();
    content.trails[1].nodes[1].routes.pop();
    assert!(rejection(&content).contains("fork fort_bridger_ca needs two routes"));

    let mut content = catalogue();
    content.trails[0].nodes[2].routes = vec![route("back", "independence", 10)];
    assert!(rejection(&content).contains("finale willamette must not have routes"));

    let mut content = catalogue();
    content.trails[1].nodes[4].routes[0].target_id = "soda_springs_ca".into();
    assert!(rejection(&content).contains("california has unreachable nodes"));

    let mut content = catalogue();
    content.trails[1].nodes[2].routes[0].target_id = "soda_springs_ca".into();
    assert!(rejection(&content).contains("california has a route that cannot reach its goal"));
}

#[test]
fn the_error_reads_as_a_validation_failure() {
    let e = ContentError::Validation("duplicate era id 1848".into());
    assert_eq!(e.message(), "content validation failed: duplicate era id 1848");
}

#[test]
fn refusals_name_the_first_fault_with_its_ids() {
    let mut content = GameContent::starter();
    content.trails[0].nodes[0].routes[0].target_id = "nowhere".into();
    assert_eq!(
        validate(&content),
        Err(ContentError::Validation("route main has unknown target nowhere".into()))
    );
    content.items[1].price_cents = -1;
    assert_eq!(
        validate(&content),
        Err(ContentError::Validation("route main has unknown target nowhere".into()))
    );
    let mut content = GameContent::starter();
    content.items[1].price_cents = -1;
    content.items[3].limit = 0;
    assert_eq!(validate(&content), Err(ContentError::Validation("item food has negative price".into())));
    let mut content = GameContent::starter();
    content.items[2].id = "oxen".into();
    assert_eq!(validate(&content), Err(ContentError::Validation("duplicate item id oxen".into())));
}
