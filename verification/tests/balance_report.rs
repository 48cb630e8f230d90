use pioneer_trail::balance::{
    available_occupations, count_tables, death_cause, run_batch, run_scenarios, validate_args, ArgsError, Balance,
    BalanceArgs, BalanceError, CauseCounts, MonthCounts, Observation, Report,
};
use pioneer_trail::content::{EraDefinition, GameContent, OccupationDefinition};
use pioneer_trail::headless::{journey, JourneyObserver, RunConfig, RunSummary};
use pioneer_trail::state::{GameState, Outcome, RunStatus};

fn occupation(id: &str) -> OccupationDefinition {
    OccupationDefinition {
        id: id.into(),
        name: id.into(),
        starting_cash_cents: 160_000,
        score_multiplier_milli: 1000,
        perk: String::new(),
    }
}

fn world() -> GameContent {
    let mut c = GameContent::starter();
    c.eras.push(EraDefinition { id: "1866".into(), name: "1866".into(), year: 1866 });
    c.occupations.push(occupation("banker"));
    c.occupations.push(occupation("soldier"));
    c
}

fn args(runs: u32, seed: u64) -> BalanceArgs {
    BalanceArgs {
        runs,
        seed,
        occupation: Some("banker".into()),
        month: Some(3),
        trail: "oregon".into(),
        era: "1848".into(),
    }
}

fn rendered(balance: &Balance) -> String {
    let mut out = String::new();
    for scenario in &balance.scenarios {
        let s = &scenario.report.summary;
        out.push_str(&format!(
            "{},{},{},{},{},{},{}\n",
            scenario.occupation,
            scenario.month,
            s.runs,
            s.arrivals,
            s.arrivals_with_three,
            s.total_days,
            scenario.report.total_score
        ));
    }
    out.push_str(&count_tables(&balance.death_causes, &balance.arrival_months));
    out
}

fn report_for(seed: u64, runs: u32) -> String {
    rendered(&run_scenarios(world(), &args(runs, seed)).unwrap())
}

#[test]
fn aggregation_is_deterministic_for_a_small_fixed_batch() {
    assert_eq!(report_for(0, 4), report_for(0, 4));
}

#[test]
fn unavailable_soldier_is_skipped_before_1866() {
    let content = world();
    assert!(!available_occupations(&content, "1848", None).unwrap().contains(&"soldier".into()));
    assert!(available_occupations(&content, "1866", None).unwrap().contains(&"soldier".into()));
}

#[test]
fn open_occupations_keep_content_order() {
    let content = world();
    assert_eq!(available_occupations(&content, "1848", None).unwrap(), vec!["farmer".to_string(), "banker".into()]);
    assert_eq!(
        available_occupations(&content, "1866", None).unwrap(),
        vec!["farmer".to_string(), "banker".into(), "soldier".into()]
    );
    assert_eq!(available_occupations(&content, "1848", Some("banker")).unwrap(), vec!["banker".to_string()]);
}

#[test]
fn requested_occupations_are_checked() {
    let content = world();
    let unknown = available_occupations(&content, "1848", Some("pirate")).unwrap_err();
    assert_eq!(unknown, ArgsError::UnknownOccupation("pirate".into()));
    assert_eq!(unknown.message(), "unknown occupation pirate");
    let early = available_occupations(&content, "1848", Some("soldier")).unwrap_err();
    assert_eq!(early.message(), "occupation soldier is unavailable in era 1848");
    assert!(available_occupations(&content, "1866", Some("soldier")).is_ok());
}

#[test]
fn settings_are_refused_in_order() {
    let content = world();
    let mut a = args(0, 0);
    a.trail = "nowhere".into();
    assert_eq!(validate_args(&content, &a).unwrap_err().message(), "--runs must be greater than zero");
    a.runs = 5;
    assert_eq!(validate_args(&content, &a).unwrap_err().message(), "unknown trail nowhere");
    a.trail = "oregon".into();
    a.era = "1700".into();
    assert_eq!(validate_args(&content, &a).unwrap_err().message(), "unknown era 1700");
    a.era = "1848".into();
    a.month = Some(8);
    assert_eq!(validate_args(&content, &a).unwrap_err(), ArgsError::MonthOutOfRange);
    assert_eq!(ArgsError::MonthOutOfRange.message(), "--month must be from 3 through 7");
    a.month = None;
    a.occupation = None;
    let (occupations, months) = validate_args(&content, &a).unwrap();
    assert_eq!(occupations, vec!["farmer".to_string(), "banker".into()]);
    assert_eq!(months, vec![3, 4, 5, 6, 7]);
}

#[test]
fn refused_settings_stop_the_report() {
    let mut a = args(1, 0);
    a.occupation = Some("soldier".into());
    let refused = run_scenarios(world(), &a).unwrap_err();
    assert_eq!(
        refused,
        BalanceError::Args(ArgsError::UnavailableOccupation { occupation: "soldier".into(), era: "1848".into() })
    );
}

#[test]
fn scenarios_cover_each_occupation_and_month() {
    let mut a = args(1, 5);
    a.occupation = None;
    a.month = None;
    let balance = run_scenarios(world(), &a).unwrap();
    let keys: Vec<(String, u8)> = balance.scenarios.iter().map(|s| (s.occupation.clone(), s.month)).collect();
    let mut expected = Vec::new();
    for occupation in ["farmer", "banker"] {
        for month in 3..=7u8 {
            expected.push((occupation.to_string(), month));
        }
    }
    assert_eq!(keys, expected);
    assert!(balance.scenarios.iter().all(|s| s.report.summary.runs == 1));
}

#[test]
fn a_batch_adds_up_its_journeys() {
    let config = RunConfig { occupation: "farmer".into(), ..RunConfig::default() };
    let (content, report) = run_batch(GameContent::starter(), 40, 3, &config);
    let report = report.unwrap();
    let mut runs: Vec<RunSummary> = Vec::new();
    let mut content = content;
    for index in 0..3u64 {
        runs.push(journey(content, 40 + index, &config, &mut ()).unwrap());
        content = GameContent::starter();
    }
    assert_eq!(report.summary.runs, 3);
    assert_eq!(report.summary.arrivals, runs.iter().filter(|r| r.arrived).count() as u32);
    assert_eq!(report.summary.total_days, runs.iter().map(|r| u64::from(r.days)).sum::<u64>());
    assert_eq!(report.total_score, runs.iter().map(|r| u64::from(r.score)).sum::<u64>());
}

#[test]
fn counts_stay_in_key_order() {
    let mut causes = CauseCounts::new();
    causes.add("typhoid", 1);
    causes.add("cholera", 2);
    causes.add("unknown", 1);
    causes.add("typhoid", 3);
    let rows: Vec<(String, u32)> = (0..causes.len()).map(|i| {
        let (k, v) = causes.row(i);
        (k.to_string(), v)
    }).collect();
    assert_eq!(rows, vec![("cholera".to_string(), 2), ("typhoid".into(), 4), ("unknown".into(), 1)]);
    causes.add("cholera", u32::MAX);
    assert_eq!(causes.row(0), ("cholera", u32::MAX));

    let mut months = MonthCounts::new();
    months.add(9, 1);
    months.add(7, 1);
    months.add(9, 2);
    let mut more = MonthCounts::new();
    more.add(8, 1);
    more.add(7, 4);
    months.merge(&more);
    let rows: Vec<(u8, u32)> = (0..months.len()).map(|i| months.row(i)).collect();
    assert_eq!(rows, vec![(7, 5), (8, 1), (9, 3)]);
}

#[test]
fn count_tables_list_causes_then_months() {
    let mut causes = CauseCounts::new();
    causes.add("unknown", 3);
    causes.add("cholera", 1);
    let mut months = MonthCounts::new();
    months.add(9, 2);
    months.add(8, 12);
    assert_eq!(
        count_tables(&causes, &months),
        "\ncause_of_death,count\ncholera,1\nunknown,3\n\narrival_month,count\n8,12\n9,2\n"
    );
    assert_eq!(
        count_tables(&CauseCounts::new(), &MonthCounts::new()),
        "\ncause_of_death,count\n\narrival_month,count\n"
    );
}

fn configured() -> GameState {
    let mut game = GameState::with_content(3, GameContent::starter());
    let _ = game.apply(pioneer_trail::state::Command::Configure {
        trail_id: "oregon".into(),
        era_id: "1848".into(),
        occupation_id: "farmer".into(),
        party: ["Ada", "James", "Ruth", "Thomas", "Clara"].map(str::to_owned).to_vec(),
        departure_month: 4,
    });
    game
}

#[test]
fn a_death_names_its_single_ailment_only() {
    let mut game = configured();
    game.party[1].health = 0;
    game.party[1].alive = false;
    game.party[1].ailments = vec!["cholera".into()];
    game.party[2].health = 0;
    game.party[2].alive = false;
    game.party[2].ailments = vec!["cholera".into(), "typhoid".into()];
    assert_eq!(death_cause(&game, "James"), "cholera");
    assert_eq!(death_cause(&game, "Ruth"), "unknown");
    assert_eq!(death_cause(&game, "Ada"), "unknown");
    assert_eq!(death_cause(&game, "Nobody"), "unknown");

    let mut seen = Observation::new();
    seen.observe(
        &game,
        &[
            Outcome::MemberDied { name: "James".into() },
            Outcome::MemberDied { name: "Ruth".into() },
            Outcome::MemberDied { name: "James".into() },
        ],
    );
    assert_eq!(seen.death_causes.len(), 2);
    assert_eq!(seen.death_causes.row(0), ("cholera", 2));
    assert_eq!(seen.death_causes.row(1), ("unknown", 1));
    assert_eq!(seen.arrival_month, None);

    let mut report = Report::new();
    report.record(&RunSummary { seed: 1, arrived: false, survivors: 3, days: 50, miles: 600, score: 10 }, seen);
    assert_eq!(report.summary.runs, 1);
    assert_eq!(report.total_score, 10);
    assert_eq!(report.death_causes.row(0), ("cholera", 2));
    assert_eq!(report.arrival_months.len(), 0);

    game.status = RunStatus::Arrived;
    let mut arrival = Observation::new();
    arrival.observe(&game, &[Outcome::Score { points: 5 }]);
    assert_eq!(arrival.arrival_month, None);
    arrival.observe(&game, &[Outcome::ArrivedAt { landmark_id: "willamette".into() }]);
    assert_eq!(arrival.arrival_month, Some(game.date().1));
    assert_eq!(arrival.arrival_month, Some(4));
}

#[test]
fn the_default_settings_match_the_command_line() {
    let a = BalanceArgs::default();
    assert_eq!(a.runs, 10_000);
    assert_eq!(a.seed, 0);
    assert_eq!(a.occupation, None);
    assert_eq!(a.month, None);
    assert_eq!(a.trail, "oregon");
    assert_eq!(a.era, "1848");
}
