use pioneer_trail::content::{LandmarkDefinition, LandmarkKind, RouteDefinition, TrailDefinition, WeatherKind};
use pioneer_trail::input::{decode, Input, Key};
use pioneer_trail::legacy::{arrange, graves, local_grave, trail_extent, Grave};
use pioneer_trail::persist::{History, RunRecord};
use pioneer_trail::rafting::{RaftingGame, RaftingResult, Rock};
use pioneer_trail::travel_moment::{after_travel_day, weather_label};
use pioneer_trail::weather::Terrain;

fn route(target_id: &str, distance_miles: u32) -> RouteDefinition {
    RouteDefinition {
        id: format!("to-{target_id}"),
        label: target_id.into(),
        target_id: target_id.into(),
        distance_miles,
    }
}

fn node(id: &str, mile: u32, routes: Vec<RouteDefinition>) -> LandmarkDefinition {
    LandmarkDefinition { id: id.into(), name: id.into(), mile, kind: LandmarkKind::Landmark, routes, river: None, store: false }
}

fn trail(nodes: Vec<LandmarkDefinition>) -> TrailDefinition {
    TrailDefinition {
        id: "test".into(),
        name: "Test Trail".into(),
        start_node_id: "start".into(),
        goal_node_id: "goal".into(),
        nodes,
    }
}

fn run(trail: &str, survivors: usize, miles: u32, epitaph: &str) -> RunRecord {
    RunRecord {
        run_id: format!("{trail}-{miles}-{survivors}"),
        leader: "Ada Boone".into(),
        seed: 9,
        trail: trail.into(),
        era: 1848,
        ended_on: "1848-06-30".into(),
        occupation: "farmer".into(),
        score: 0,
        survivors,
        days: 91,
        miles,
        arrived: false,
        epitaph: epitaph.into(),
        cause: "Fever".into(),
        journal: vec![],
    }
}

#[test]
fn seeded_graves_are_stable_and_seed_specific() {
    let history = History::new();
    let first = graves(&history, 7, "oregon", 1848, 1_000);
    assert_eq!(first, graves(&history, 7, "oregon", 1848, 1_000));
    assert_ne!(first, graves(&history, 8, "oregon", 1848, 1_000));
    assert!((3..=5).contains(&first.len()));
    assert!(first.iter().all(|grave| !grave.local));
    assert!(first.iter().all(|grave| grave.date.starts_with("1847 day ")));

    let different_history = History { runs: vec![run("oregon", 0, 400, "Westward")] };
    let seeded_with_history =
        graves(&different_history, 7, "oregon", 1848, 1_000).into_iter().filter(|grave| !grave.local).collect::<Vec<_>>();
    assert_eq!(first, seeded_with_history);
}

#[test]
fn local_graves_filter_failed_runs_by_trail_and_distance() {
    let history = History {
        runs: vec![run("oregon", 0, 400, "Westward"), run("california", 0, 400, "Southward"), run("oregon", 0, 900, "Too far")],
    };
    let graves = graves(&history, 2, "oregon", 1848, 500);
    assert!(graves.iter().any(|grave| grave.local && grave.epitaph == "Westward"));
    assert!(!graves.iter().any(|grave| grave.epitaph == "Southward" || grave.epitaph == "Too far"));
}

#[test]
fn surviving_failed_runs_do_not_make_graves() {
    let history = History { runs: vec![run("oregon", 1, 400, "Still here")] };
    assert!(graves(&history, 2, "oregon", 1848, 500).iter().all(|grave| !grave.local));
}

#[test]
fn changed_epitaph_surfaces_in_local_grave() {
    let mut history = History { runs: vec![run("oregon", 0, 400, "Old words")] };
    assert!(graves(&history, 2, "oregon", 1848, 500).iter().any(|grave| grave.epitaph == "Old words"));
    history.runs[0].epitaph = "New words".into();
    assert!(graves(&history, 2, "oregon", 1848, 500).iter().any(|grave| grave.epitaph == "New words"));
}

#[test]
fn duplicate_local_history_makes_one_grave() {
    let record = run("oregon", 0, 400, "Westward");
    let history = History { runs: vec![record.clone(), record] };
    let matching = graves(&history, 2, "oregon", 1848, 500)
        .into_iter()
        .filter(|grave| grave.local && grave.epitaph == "Westward")
        .count();
    assert_eq!(matching, 1);
}

#[test]
fn malformed_history_fields_are_bounded_and_printable() {
    let malformed_epitaph = "\u{0007}".repeat(100);
    let mut record = run("oregon", 0, 400, &malformed_epitaph);
    record.leader = "é".repeat(100);
    record.cause = "\t".repeat(100);
    let history = History { runs: vec![record] };
    let local = graves(&history, 2, "oregon", 1848, 500).into_iter().find(|grave| grave.local).unwrap();
    for field in [&local.leader, &local.date, &local.cause, &local.epitaph] {
        assert!(field.chars().count() <= 80 && !field.chars().any(char::is_control));
    }
}

#[test]
fn trail_extent_chooses_the_longest_fork_without_summing_branches() {
    let trail = trail(vec![
        node("start", 0, vec![route("left", 3), route("right", 2)]),
        node("left", 3, vec![route("goal", 4)]),
        node("right", 2, vec![route("goal", 10)]),
        node("goal", 12, vec![]),
    ]);

    assert_eq!(trail_extent(&trail), 12);
}

#[test]
fn trail_extent_uses_furthest_landmark_for_cycles() {
    let trail = trail(vec![
        node("start", 0, vec![route("loop", 5)]),
        node("loop", 5, vec![route("start", 5)]),
        node("goal", 70, vec![]),
    ]);

    assert_eq!(trail_extent(&trail), 70);
}

#[test]
fn trail_extent_falls_back_for_unknown_targets_and_unreachable_goals() {
    let unknown = trail(vec![node("start", 0, vec![route("nowhere", 5)]), node("goal", 40, vec![])]);
    assert_eq!(trail_extent(&unknown), 40);
    let cut_off = trail(vec![node("start", 0, vec![]), node("goal", 33, vec![])]);
    assert_eq!(trail_extent(&cut_off), 33);
    let chain = trail(vec![
        node("start", 0, vec![route("mid", 7)]),
        node("mid", 7, vec![route("goal", 8)]),
        node("goal", 9, vec![]),
    ]);
    assert_eq!(trail_extent(&chain), 15);
    assert_eq!(trail_extent(&trail(vec![])), 0);
}

#[test]
fn graves_are_in_trail_order_with_one_per_inscription() {
    let grave = |mile: u32, leader: &str, local: bool| Grave {
        leader: leader.into(),
        mile,
        date: "1847 day 30".into(),
        cause: "Fever".into(),
        epitaph: "Rest".into(),
        local,
    };
    let out = arrange(vec![grave(9, "Bo", false), grave(3, "Cy", false), grave(9, "Al", false), grave(3, "Cy", true)]);
    assert_eq!(out, vec![grave(3, "Cy", true), grave(9, "Al", false), grave(9, "Bo", false)]);
    assert!(graves(&History::new(), 7, "oregon", 1848, 0).is_empty());
}

#[test]
fn local_graves_read_the_run() {
    let mut record = run("oregon", 0, 400, "  ");
    record.leader = "".into();
    let grave = local_grave(&record, "oregon", 500).unwrap();
    assert_eq!(grave.leader, "Unknown traveler");
    assert_eq!(grave.epitaph, "Fever");
    assert_eq!(grave.date, "1848 day 91");
    assert_eq!(grave.mile, 400);
    assert!(grave.local);
    record.arrived = true;
    assert!(local_grave(&record, "oregon", 500).is_none());
}

#[test]
fn moments_are_spaced_and_do_not_need_rng() {
    assert!(after_travel_day(3, WeatherKind::Clear, Terrain::Plains, None).is_none());
    assert!(after_travel_day(7, WeatherKind::Clear, Terrain::Plains, Some(4)).is_none());
    assert_eq!(after_travel_day(8, WeatherKind::Rain, Terrain::Plains, Some(4)).unwrap().title, "RAIN ON THE CANVAS");
}

#[test]
fn moments_follow_weather_then_terrain() {
    assert_eq!(after_travel_day(9, WeatherKind::Hot, Terrain::Desert, None).unwrap().title, "HEAT SHIMMER");
    let deer = after_travel_day(9, WeatherKind::Clear, Terrain::Forest, None).unwrap();
    assert_eq!(deer.wildlife_sprite, Some("deer_0.px"));
    assert_eq!(after_travel_day(9, WeatherKind::Snow, Terrain::Forest, None).unwrap().title, "COLD MORNING");
    assert_eq!(after_travel_day(9, WeatherKind::Warm, Terrain::Hills, None).unwrap().title, "HIGH GROUND");
    assert_eq!(after_travel_day(9, WeatherKind::Warm, Terrain::Plains, Some(10)), None);
    assert_eq!(weather_label(WeatherKind::Storm), "Storm");
}

#[test]
fn keys_decode_to_inputs() {
    assert_eq!(decode(Key::Char('k'), true, false), Input::Up);
    assert_eq!(decode(Key::Enter, true, false), Input::Select);
    assert_eq!(decode(Key::Char(' '), true, false), Input::Select);
    assert_eq!(decode(Key::Char('q'), true, true), Input::Quit);
    assert_eq!(decode(Key::Char('q'), true, false), Input::Character('q'));
    assert_eq!(decode(Key::Char('7'), true, false), Input::Digit(7));
    assert_eq!(decode(Key::Esc, true, false), Input::Back);
    assert_eq!(decode(Key::Up, false, false), Input::Nothing);
    assert_eq!(decode(Key::Other, true, false), Input::Nothing);
}

#[test]
fn rafting_deterministic() {
    let mut a = RaftingGame::new(4);
    let mut b = RaftingGame::new(4);
    for _ in 0..901 {
        a.tick();
        b.tick()
    }
    assert_eq!(a.result(), b.result());
    assert!(a.is_finished())
}

#[test]
fn bounds() {
    let mut g = RaftingGame::new(1);
    for _ in 0..99 {
        g.handle_key(Key::Left)
    }
    assert_eq!(g.raft_x, 6)
}

#[test]
fn collision_once() {
    let mut g = RaftingGame::new(1);
    g.rocks = vec![Rock { x: 40, y: 20, charged: false }];
    g.ticks = 2;
    g.tick();
    let first = g.result();
    g.tick();
    assert_eq!(g.result(), first)
}

#[test]
fn text_rafting_is_deterministic_and_printable() {
    let mut a = RaftingGame::new(4);
    let mut b = RaftingGame::new(4);
    for key in ['1', '2', '3', ' ', '2', '1'] {
        a.text_key(Key::Char(key));
        b.text_key(Key::Char(key));
    }
    assert_eq!(a.raft_x, 14);
    assert_eq!(a.result(), b.result());
    assert_eq!(a.ticks, 180);
    assert!(a.text_lines().iter().all(|line| line.bytes().all(|byte| byte == b' ' || byte.is_ascii_graphic())));
}

#[test]
fn text_rafting_prioritizes_the_nearest_uncharged_rocks() {
    let mut g = RaftingGame::new(1);
    g.rocks = vec![
        Rock { x: 14, y: -6, charged: false },
        Rock { x: 40, y: -5, charged: false },
        Rock { x: 66, y: -4, charged: false },
        Rock { x: 14, y: -3, charged: false },
        Rock { x: 40, y: -2, charged: false },
        Rock { x: 66, y: -1, charged: false },
        Rock { x: 40, y: 21, charged: true },
        Rock { x: 14, y: 21, charged: false },
    ];
    let lines = g.text_lines();
    assert!(lines.iter().any(|line| line.contains("left lane, row 21")));
    assert!(!lines.iter().any(|line| line.contains("center lane, row 21")));
}

#[test]
fn rafting_lines_and_results_read_exactly() {
    let mut g = RaftingGame::new(1);
    g.rocks = vec![Rock { x: 14, y: -6, charged: false }, Rock { x: 66, y: 3, charged: false }];
    let lines = g.text_lines();
    assert_eq!(lines[0], "TURN-BASED RAFT");
    assert_eq!(lines[1], "Time 30s | Lane center | Cargo lost 0 | Deaths 0");
    assert_eq!(lines[3], "Rock right lane, row 3, about 2s to raft row.");
    assert_eq!(lines[4], "Rock left lane, row -6, about 3s to raft row.");
    assert_eq!(lines.len(), 5);
    g.rocks.clear();
    assert_eq!(g.text_lines()[3], "No rocks are near the raft row.");
    g.handle_key(Key::Esc);
    assert_eq!(g.result(), RaftingResult { cargo_lost_lbs: 0, casualties: 0, completed: false, aborted: true });
    g.handle_key(Key::Right);
    assert_eq!(g.raft_x, 40);
}

#[test]
fn heavy_strikes_cost_cargo_then_lives() {
    let mut g = RaftingGame::new(1);
    g.rocks = vec![Rock { x: 40, y: 17, charged: false }; 3];
    g.ticks = 2;
    g.tick();
    assert_eq!(g.result().cargo_lost_lbs, 45);
    assert_eq!(g.result().casualties, 1);
    assert!(g.rocks.iter().all(|rock| rock.charged && rock.y == 18));
}
