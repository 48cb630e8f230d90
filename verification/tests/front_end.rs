use pioneer_trail::calendar::CalendarDate;
use pioneer_trail::content::{GameContent, WeatherKind};
use pioneer_trail::events::pick_weighted;
use pioneer_trail::headless::{journey, BalanceSummary, JourneyError, RunConfig, RunSummary};
use pioneer_trail::persist::{ColorMode, EpitaphError, History, RunRecord, Settings, Speed, Storage};
use pioneer_trail::state::{CommandError, GameState, RunStatus};
use pioneer_trail::ui::{
    clean, fit, lane, occupation_available, parse_month, reward, stop_label, topic_menu, weather_word, Animal,
};

#[test]
fn rewards_read_as_dollars() {
    assert_eq!(reward(150), "$1.50");
    assert_eq!(reward(0), "$0.00");
    assert_eq!(reward(3_000), "$30.00");
    assert_eq!(reward(-5), "$-0.05");
}

#[test]
fn stops_are_lettered_then_numbered() {
    assert_eq!(stop_label(0), "A");
    assert_eq!(stop_label(25), "Z");
    assert_eq!(stop_label(26), "27");
}

#[test]
fn lanes_split_the_river_in_three() {
    assert_eq!(lane(10), "left");
    assert_eq!(lane(27), "center");
    assert_eq!(lane(53), "center");
    assert_eq!(lane(54), "right");
}

#[test]
fn advice_fits_one_line() {
    let short = "Keep the oxen rested.";
    assert_eq!(fit(short), short);
    let long = "x".repeat(80);
    let fitted = fit(&long);
    assert_eq!(fitted.chars().count(), 76);
    assert!(fitted.ends_with('…'));
    assert_eq!(fit(&"y".repeat(76)), "y".repeat(76));
}

#[test]
fn menus_and_words() {
    assert_eq!(topic_menu(), vec!["Ask about the route", "Ask about supplies", "Ask for news"]);
    assert_eq!(weather_word(WeatherKind::Rain), "rainy");
    assert_eq!(weather_word(WeatherKind::Snow), "snowy");
    assert!(occupation_available("farmer", "1848"));
    assert!(!occupation_available("soldier", "1848"));
    assert!(occupation_available("soldier", "1866"));
    assert_eq!(Animal::Buffalo.name(), "Buffalo");
    assert_eq!(Animal::Deer.food(), 55);
    assert_eq!(Animal::Squirrel.sprite(3), "squirrel_1.px");
    assert_eq!(Animal::Bear.sprite(4), "bear_0.px");
}

#[test]
fn months_parse_by_name_or_number() {
    assert_eq!(parse_month("March"), Ok(3));
    assert_eq!(parse_month("7"), Ok(7));
    assert_eq!(parse_month("JUNE"), Ok(6));
    assert_eq!(
        parse_month("august"),
        Err("departure month must be march, april, may, june or july".to_string())
    );
}

#[test]
fn cleaning_drops_controls_trims_and_falls_back() {
    assert_eq!(clean("  Ada\u{7}  ", "Unknown traveler"), "Ada");
    assert_eq!(clean("\u{1b}\u{7}", "Unknown traveler"), "Unknown traveler");
    assert_eq!(clean("   ", "Trail ended"), "Trail ended");
    let long = "w".repeat(100);
    assert_eq!(clean(&long, "x").chars().count(), 80);
}

#[test]
fn settings_and_speeds() {
    assert_eq!(Speed::Instant.milliseconds(), 0);
    assert_eq!(Speed::Slow.milliseconds(), 1200);
    assert_eq!(Speed::default(), Speed::Normal);
    let settings = Settings::default();
    assert_eq!(settings.color, ColorMode::Truecolor);
    assert!(!settings.bell && !settings.no_art && !settings.reduced_motion);
    let storage = Storage::at(std::path::PathBuf::from("/tmp/pioneer"));
    assert_eq!(storage.root(), &std::path::PathBuf::from("/tmp/pioneer"));
}

fn record(id: &str) -> RunRecord {
    RunRecord {
        run_id: id.into(),
        leader: "Sarah".into(),
        seed: 42,
        trail: "oregon".into(),
        era: 1848,
        ended_on: "1848-08-28".into(),
        occupation: "farmer".into(),
        score: 1200,
        survivors: 3,
        days: 150,
        miles: 2040,
        arrived: true,
        epitaph: String::new(),
        cause: String::new(),
        journal: Vec::new(),
    }
}

#[test]
fn resume_keeps_identity_and_records_completion_once() {
    let storage = Storage::at(std::path::PathBuf::from("/tmp/pioneer"));
    let mut history = History::new();
    assert!(history.record_run(record("run-1")));
    assert!(!history.record_run(record("run-1")));
    assert_eq!(history.runs.len(), 1);
    storage.set_epitaph(&mut history, "run-1", "  We kept the fire until morning. ").unwrap();
    assert_eq!(history.runs[0].epitaph, "We kept the fire until morning.");
    assert_eq!(storage.set_epitaph(&mut history, "run-2", "x"), Err(EpitaphError::UnknownRun));
    assert_eq!(storage.set_epitaph(&mut history, "run-1", &"e".repeat(81)), Err(EpitaphError::NotPrintable));
    assert_eq!(storage.set_epitaph(&mut history, "run-1", "bad\u{7}"), Err(EpitaphError::NotPrintable));
    assert_eq!(history.runs[0].epitaph, "We kept the fire until morning.");
}

#[test]
fn balance_totals_count_each_run() {
    let mut summary = BalanceSummary::default();
    summary.record(&RunSummary { seed: 1, arrived: true, survivors: 3, days: 150, miles: 2040, score: 900 });
    summary.record(&RunSummary { seed: 2, arrived: true, survivors: 2, days: 160, miles: 2040, score: 700 });
    summary.record(&RunSummary { seed: 3, arrived: false, survivors: 0, days: 40, miles: 500, score: 0 });
    assert_eq!(summary.runs, 3);
    assert_eq!(summary.arrivals, 2);
    assert_eq!(summary.arrivals_with_three, 1);
    assert_eq!(summary.total_days, 350);
    assert_eq!(summary.total_survivors, 5);
}

#[test]
fn reference_player_finishes_on_the_starter_trail() {
    let config = RunConfig { occupation: "farmer".into(), ..RunConfig::default() };
    let summary = journey(GameContent::starter(), 23, &config, &mut ()).unwrap();
    assert_eq!(summary.seed, 23);
    assert!(summary.days > 0);
    assert!(summary.miles <= 2040);
    let again = journey(GameContent::starter(), 23, &config, &mut ()).unwrap();
    assert_eq!(summary, again);
    let banker = journey(GameContent::starter(), 23, &RunConfig::default(), &mut ());
    assert_eq!(banker, Err(JourneyError::Rejected(CommandError::UnknownId("banker".into()))));
}

#[test]
fn weighted_picks_land_in_order() {
    let weights = vec![3, 0, 5];
    assert_eq!(pick_weighted(&weights, 0), Some(0));
    assert_eq!(pick_weighted(&weights, 2), Some(0));
    assert_eq!(pick_weighted(&weights, 3), Some(2));
    assert_eq!(pick_weighted(&weights, 7), Some(2));
    assert_eq!(pick_weighted(&weights, 8), None);
}

#[test]
fn adding_days_composes() {
    let start = CalendarDate::new(1848, 3, 1).unwrap();
    assert_eq!(start.add_days(40).add_days(60), start.add_days(100));
    assert_eq!(start.add_days(306), CalendarDate::new(1849, 1, 1).unwrap());
}

#[test]
fn saved_state_audit_names_the_problem() {
    let mut game = GameState::new(1);
    assert_eq!(game.validate(), Ok(()));
    game.status = RunStatus::Travelling;
    assert_eq!(game.validate(), Err(CommandError::InvalidSetup));
    let mut game = GameState::new(1);
    game.trail_id = Some("santa_fe".into());
    assert_eq!(game.validate(), Err(CommandError::UnknownId("santa_fe".into())));
    let mut game = GameState::new(1);
    game.pending_event = Some("flood".into());
    assert_eq!(game.validate(), Err(CommandError::UnknownId("flood".into())));
}

#[test]
fn gathering_screens_name_the_activity() {
    use_gathering();
}

fn use_gathering() {
    assert_eq!(pioneer_trail::gathering::heading(pioneer_trail::gathering::GatheringActivity::Forage), "WOODLAND FORAGE");
    assert_eq!(pioneer_trail::gathering::heading(pioneer_trail::gathering::GatheringActivity::Fish), "RIVERBANK FISHING");
    assert_eq!(pioneer_trail::gathering::scene(pioneer_trail::gathering::GatheringActivity::Fish), "gathering_riverbank.px");
    assert_eq!(pioneer_trail::gathering::scene(pioneer_trail::gathering::GatheringActivity::Forage), "gathering_woodland.px");
    assert_eq!(
        pioneer_trail::gathering::availability(pioneer_trail::gathering::GatheringActivity::Forage),
        "Berries, roots, and greens may be found here."
    );
    assert_eq!(pioneer_trail::gathering::result_verb(pioneer_trail::gathering::GatheringActivity::Fish), "Caught");
    assert_eq!(pioneer_trail::gathering::result_verb(pioneer_trail::gathering::GatheringActivity::Forage), "Foraged");
}
