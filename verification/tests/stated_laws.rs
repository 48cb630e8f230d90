use pioneer_trail::calendar::CalendarDate;
use pioneer_trail::content::Season;
use pioneer_trail::weather::{ClimateZone, WeatherState};
use pioneer_trail::economy::Market;
use pioneer_trail::health::PartyMember;
use pioneer_trail::journal::{Journal, JournalKind, MAX_ENTRIES};
use pioneer_trail::legacy::graves;
use pioneer_trail::party::mourn;
use pioneer_trail::input::Key;
use pioneer_trail::party::daily;
use pioneer_trail::persist::{History, RunRecord};
use pioneer_trail::rafting::RaftingGame;
use pioneer_trail::rng::SimRng;
use pioneer_trail::seed::WorldSeed;
use pioneer_trail::state::{Command, CommandError, GameState, RunStatus};

fn configured(seed: u64) -> GameState {
    let mut game = GameState::new(seed);
    game.apply(Command::Configure {
        trail_id: "oregon".into(),
        era_id: "1848".into(),
        occupation_id: "farmer".into(),
        party: vec!["Ada".into(), "Ben".into(), "Clara".into(), "Dora".into(), "Eli".into()],
        departure_month: 3,
    });
    game
}

#[test]
fn finished_journeys_cannot_wait_on_an_event() {
    let mut game = configured(41);
    game.status = RunStatus::Failed;
    assert_eq!(game.validate(), Ok(()));
    game.pending_event = Some("flood".into());
    assert_eq!(game.validate(), Err(CommandError::InvalidSetup));
    let mut game = configured(41);
    game.status = RunStatus::Arrived;
    game.target_node_id = None;
    game.pending_event = Some("flood".into());
    assert_eq!(game.validate(), Err(CommandError::InvalidSetup));
}

#[test]
fn mourning_clamps_morale_from_either_side() {
    let mut members: Vec<PartyMember> = ["Ada", "Bert"].into_iter().map(|name| PartyMember::new(name.into())).collect();
    members[0].morale = 150;
    let lines = mourn(&mut members, &vec!["Bert".to_string()]);
    assert_eq!(members[0].morale, 100);
    assert_eq!(lines, vec!["Ada mourns Bert.".to_string()]);
    members[0].morale = -5;
    mourn(&mut members, &vec!["Bert".to_string()]);
    assert_eq!(members[0].morale, 0);
}

#[test]
fn the_same_seed_lays_the_same_graves() {
    let a = graves(&History::new(), 7, "oregon", 1848, 2000);
    let b = graves(&History::new(), 7, "oregon", 1848, 2000);
    assert_eq!(a, b);
    assert!((3..=5).contains(&a.len()));
    assert!(a.iter().all(|g| (1..=2000).contains(&g.mile) && !g.local));
}

#[test]
fn streams_from_equal_seeds_agree_whatever_else_was_drawn() {
    let mut a = SimRng::new(9);
    let mut b = SimRng::new(9);
    let _ = b.roll_wide("weather", 1000);
    let _ = b.chance("hunting", u64::MAX / 2);
    for _ in 0..10 {
        assert_eq!(a.roll("events", 1000), b.roll("events", 1000));
        assert_eq!(a.roll_between("health", -5, 5), b.roll_between("health", -5, 5));
    }
    let mut left = vec![1, 2, 3, 4, 5, 6];
    let mut right = left.clone();
    a.shuffle("deck", &mut left);
    b.shuffle("deck", &mut right);
    assert_eq!(left, right);
}

#[test]
fn journal_sequence_numbers_keep_rising() {
    let mut journal = Journal::new();
    for day in 0..(MAX_ENTRIES as u32 + 10) {
        journal.record(day, day * 10, JournalKind::Departed);
    }
    assert!(journal.entries.windows(2).all(|w| w[0].sequence < w[1].sequence));
    assert!(journal.entries.iter().all(|e| e.sequence < journal.next_sequence));
}

#[test]
fn prices_rise_with_markup_and_scarcity() {
    let mut market = Market::new();
    assert_eq!(market.price_for("food", 20, 0), 20);
    assert!(market.price_for("food", 20, 0) <= market.price_for("food", 20, 50));
    assert_eq!(market.price_for("food", 200, 50), 300);
    market.normal_stock.set("food", 100);
    market.stock.set("food", 100);
    let full = market.price_for("food", 200, 0);
    market.stock.set("food", 0);
    let empty = market.price_for("food", 200, 0);
    assert_eq!(full, 200);
    assert_eq!(empty, 300);
}

#[test]
fn a_read_code_is_its_own_canonical_form() {
    let world = WorldSeed { seed: 42, trail: "oregon".into(), era: "1848".into() };
    let code = world.code().unwrap();
    let shouted = format!("  {}\t", code.to_uppercase());
    let read = WorldSeed::parse(&shouted).unwrap();
    assert_eq!(read, world);
    assert_eq!(read.code().unwrap(), code);
}

#[test]
fn any_one_digit_slip_is_caught() {
    let world = WorldSeed { seed: 7, trail: "mormon".into(), era: "1866".into() };
    let code = world.code().unwrap();
    let alphabet = "0123456789abcdefghjkmnpqrstvwxyz";
    for index in 3..code.len() {
        for digit in alphabet.chars() {
            let mut changed: Vec<char> = code.chars().collect();
            if changed[index] == digit {
                continue;
            }
            changed[index] = digit;
            let text: String = changed.into_iter().collect();
            assert!(WorldSeed::parse(&text).is_err());
        }
    }
}

#[test]
fn padded_capitals_read_as_the_plain_code() {
    let world = WorldSeed { seed: 1234, trail: "california".into(), era: "1852".into() };
    let code = world.code().unwrap();
    for text in [code.as_str(), "42", "pt-0123", "pt-0123456789abcdi", "pt-zzzzzzzzzzzzzzz", ""] {
        let padded = format!(" {} ", text.to_ascii_uppercase());
        assert_eq!(WorldSeed::parse(&padded), WorldSeed::parse(text));
    }
    let read = WorldSeed::parse(&format!(" {} ", code.to_ascii_uppercase())).unwrap();
    assert_eq!(read.code().unwrap(), code);
}

#[test]
fn prices_never_fall_below_a_cent() {
    let mut market = Market::new();
    assert_eq!(market.price_for("food", -500, 0), 1);
    assert_eq!(market.price_for("food", 0, 0), 1);
    assert_eq!(market.price_for("food", 20, -200), 1);
    market.normal_stock.set("food", 100);
    market.stock.set("food", 0);
    assert_eq!(market.price_for("food", 20, 0), 30);
    assert!(market.price_for("food", 20, 0) <= market.price_for("food", 20, 1));
}

#[test]
fn a_day_keeps_morale_bounded_and_speaks_of_pairs() {
    let mut party: Vec<PartyMember> = ["Ada", "Bert", "Cora", "Dell"].into_iter().map(|n| PartyMember::new(n.into())).collect();
    party[3].alive = false;
    let dead = (party[3].health, party[3].morale, party[3].ailments.clone());
    let mut rng = SimRng::new(5);
    for day in 0..200 {
        let lines = daily(&mut party, day % 3 == 0, day % 2 == 0, day % 5 == 0, &mut rng);
        assert!(lines.iter().all(|l| l.contains(" checks on ") || l.contains(" and ")));
        assert!(party.iter().all(|m| (0..=100).contains(&m.morale)));
        assert_eq!((party[3].health, party[3].morale, party[3].ailments.clone()), dead);
        assert!(!party[3].alive);
    }
}

fn lost_run(miles: u32) -> RunRecord {
    RunRecord {
        run_id: format!("lost-{miles}"),
        leader: "Ada Boone".into(),
        seed: 3,
        trail: "oregon".into(),
        era: 1848,
        ended_on: "1848-07-01".into(),
        occupation: "farmer".into(),
        score: 0,
        survivors: 0,
        days: 80,
        miles,
        arrived: false,
        epitaph: "Gone west".into(),
        cause: "Fever".into(),
        journal: vec![],
    }
}

#[test]
fn graves_come_back_the_same_and_in_trail_order() {
    let history = History { runs: vec![lost_run(700), lost_run(150), lost_run(700)] };
    let a = graves(&history, 11, "oregon", 1848, 2000);
    let b = graves(&history, 11, "oregon", 1848, 2000);
    assert_eq!(a, b);
    assert!(a.windows(2).all(|w| w[0].mile <= w[1].mile));
    assert_eq!(a.iter().filter(|g| g.local).count(), 2);
    assert!(a.iter().filter(|g| !g.local).all(|g| (1..=2000).contains(&g.mile) && g.date.starts_with("1847 day ")));
}

#[test]
fn rafting_runs_alike_and_ends_after_nine_hundred_ticks() {
    let mut a = RaftingGame::new(12);
    let mut b = RaftingGame::new(12);
    for step in 0..1200u32 {
        if step % 7 == 0 {
            let key = if step % 14 == 0 { Key::Left } else { Key::Right };
            a.handle_key(key);
            b.handle_key(key);
        } else {
            a.tick();
            b.tick();
        }
        assert_eq!(a.result(), b.result());
        assert!(a.result().cargo_lost_lbs <= 120 && a.result().casualties <= 4);
    }
    assert!(a.is_finished());
    assert!(a.result().completed && !a.result().aborted);
}

#[test]
fn weather_draws_come_from_the_weather_stream_only() {
    let mut a = SimRng::new(21);
    let mut b = SimRng::new(21);
    let _ = b.roll("events", 100);
    let _ = b.roll("rivers", 100);
    let mut wa = WeatherState::default();
    let mut wb = WeatherState::default();
    for _ in 0..60 {
        wa.advance_in(&mut a, Season::Summer, ClimateZone::Arid);
        wb.advance_in(&mut b, Season::Summer, ClimateZone::Arid);
        assert_eq!(wa, wb);
        assert!((1..=5).contains(&wa.days_remaining));
    }
    assert_eq!(a.roll("party-daily", 1000), b.roll("party-daily", 1000));
}

#[test]
fn a_day_draws_the_same_from_the_same_stream() {
    let make = || -> Vec<PartyMember> {
        ["Ada", "Bert", "Cora"].into_iter().map(|n| PartyMember::new(n.into())).collect()
    };
    let mut pa = make();
    let mut pb = make();
    let mut ra = SimRng::new(8);
    let mut rb = SimRng::new(8);
    let _ = rb.roll("weather", 8);
    for day in 0..120 {
        let la = daily(&mut pa, day % 2 == 0, true, day % 3 == 0, &mut ra);
        let lb = daily(&mut pb, day % 2 == 0, true, day % 3 == 0, &mut rb);
        assert_eq!(la, lb);
        for i in 0..3 {
            assert_eq!(pa[i].morale, pb[i].morale);
            for j in 0..3 {
                assert_eq!(pa[i].relationships.affinity.get(&pb[j].name), pb[i].relationships.affinity.get(&pb[j].name));
            }
        }
    }
}

#[test]
fn any_date_can_be_walked() {
    let odd = CalendarDate { year: 1848, month: 13, day: 40 };
    assert_eq!(odd.add_days(0), odd);
    assert_eq!(odd.add_days(1), CalendarDate { year: 1848, month: 14, day: 1 });
    let d = CalendarDate::new(1848, 12, 30).unwrap();
    assert_eq!(d.add_days(3), d.add_days(1).add_days(2));
    assert_eq!(d.add_days(2), CalendarDate::new(1849, 1, 1).unwrap());
}
