use pioneer_trail::art_manifest::{Animation, Hunting, Layers, Manifest, ManifestError, Rafting};
use pioneer_trail::content::{GameContent, LandmarkDefinition, LandmarkKind, RouteDefinition, TrailDefinition};
use pioneer_trail::conversations::{setting, speaker_menu, ConversationMemory, ConversationTopic, SpeakerSetting, SpeakerView};
use pioneer_trail::state::{Command, GameState, RunStatus};
use pioneer_trail::hunting::{biome_for, Biome};
use pioneer_trail::persist::{History, RunRecord};
use pioneer_trail::route_record::{visits_are_valid_for, Visit};
use pioneer_trail::weather::Terrain;

fn finished(run_id: &str, score: u32, arrived: bool) -> RunRecord {
    RunRecord {
        run_id: run_id.into(),
        leader: "Ada Boone".into(),
        seed: 1,
        trail: "oregon".into(),
        era: 1848,
        ended_on: "1848-09-01".into(),
        occupation: "farmer".into(),
        score,
        survivors: 3,
        days: 150,
        miles: 2040,
        arrived,
        epitaph: String::new(),
        cause: String::new(),
        journal: vec![],
    }
}

#[test]
fn leaders_rank_arrived_runs_by_score_then_id() {
    let history = History {
        runs: vec![
            finished("b", 500, true),
            finished("a", 500, true),
            finished("lost", 9_000, false),
            finished("c", 700, true),
        ],
    };
    let ids: Vec<&str> = history.leaders().iter().map(|run| run.run_id.as_str()).collect();
    assert_eq!(ids, vec!["c", "a", "b"]);

    let many = History { runs: (0..30).map(|k| finished(&format!("run{k:02}"), k, true)).collect() };
    let top = many.leaders();
    assert_eq!(top.len(), 20);
    assert_eq!(top[0].score, 29);
    assert_eq!(top[19].score, 10);
}

#[test]
fn a_second_meeting_is_recognized_and_the_favor_comes_once() {
    let mut memory = ConversationMemory::new();
    assert_eq!(memory.remember(3, ConversationTopic::News, true), (false, false));
    assert_eq!(memory.remember(4, ConversationTopic::Route, true), (true, true));
    assert_eq!(memory.remember(5, ConversationTopic::News, true), (true, false));
    assert_eq!(memory.times_talked, 3);
    assert_eq!(memory.last_talked_day, Some(5));
    assert!(memory.favor_received);
    assert_eq!(memory.topics_discussed, vec![ConversationTopic::Route, ConversationTopic::News]);
}

#[test]
fn a_same_day_repeat_or_a_full_wagon_keeps_the_favor_for_later() {
    let mut memory = ConversationMemory::new();
    assert_eq!(memory.remember(3, ConversationTopic::Route, true), (false, false));
    assert_eq!(memory.remember(3, ConversationTopic::Supplies, true), (true, false));
    assert!(!memory.favor_received);
    assert_eq!(memory.remember(4, ConversationTopic::News, false), (true, false));
    assert!(!memory.favor_received);
    assert_eq!(memory.remember(5, ConversationTopic::Route, true), (true, true));
    assert!(memory.favor_received);
    assert_eq!(memory.times_talked, 4);
}

fn stop(id: &str, routes: Vec<&str>) -> LandmarkDefinition {
    LandmarkDefinition {
        id: id.into(),
        name: id.into(),
        mile: 0,
        kind: LandmarkKind::Landmark,
        routes: routes
            .into_iter()
            .map(|target| RouteDefinition { id: format!("to-{target}"), label: target.into(), target_id: target.into(), distance_miles: 10 })
            .collect(),
        river: None,
        store: false,
    }
}

fn visit(id: &str, day: u32, mile: u32) -> Visit {
    Visit { landmark_id: id.into(), day, mile }
}

#[test]
fn recorded_routes_must_follow_the_trail() {
    let trail = TrailDefinition {
        id: "t".into(),
        name: "T".into(),
        start_node_id: "a".into(),
        goal_node_id: "c".into(),
        nodes: vec![stop("a", vec!["b", "c"]), stop("b", vec!["c"]), stop("c", vec![])],
    };
    let route = vec![visit("a", 1, 0), visit("b", 3, 10)];
    assert!(visits_are_valid_for(&route, Some("b"), 4, 12, &trail));
    assert!(!visits_are_valid_for(&route, Some("a"), 4, 12, &trail));
    assert!(!visits_are_valid_for(&route, Some("b"), 2, 12, &trail));
    let skipped = vec![visit("b", 1, 0), visit("a", 3, 10)];
    assert!(!visits_are_valid_for(&skipped, Some("a"), 4, 12, &trail));
    let partial = vec![visit("b", 5, 20)];
    assert!(visits_are_valid_for(&partial, Some("b"), 5, 20, &trail));
    assert!(visits_are_valid_for(&vec![], None, 0, 0, &trail));
    let forged = vec![visit("x", 1, 0)];
    assert!(!visits_are_valid_for(&forged, Some("x"), 4, 12, &trail));
}

fn names(list: &[&str]) -> Vec<String> {
    list.iter().map(|name| name.to_string()).collect()
}

fn manifest() -> Manifest {
    Manifest {
        wagon: Animation { frames: names(&["wagon_0.px", "wagon_1.px", "wagon_2.px", "wagon_3.px"]), fps: 30 },
        ox: Animation { frames: names(&["ox_0.px"]), fps: 12 },
        terrain: names(&["plains.px"]),
        rivers: names(&["river.px"]),
        forts: names(&["fort.px"]),
        landmarks: names(&["rock.px"]),
        layers: Layers { far: names(&["hills.px"]), near: names(&["grass.px"]), actors: names(&["ox_0.px"]) },
        hunting: Hunting { animals: names(&["deer_0.px"]), crosshair: names(&["cross.px"]), fps: 30 },
        rafting: Rafting { raft: "raft.px".into(), rocks: names(&["rock_0.px"]), fps: 30 },
        map: "map.px".into(),
        gathering: names(&["gathering_woodland.px"]),
    }
}

fn assets() -> Vec<String> {
    names(&[
        "wagon_0.px", "wagon_1.px", "wagon_2.px", "wagon_3.px", "ox_0.px", "plains.px", "river.px", "fort.px", "rock.px",
        "hills.px", "grass.px", "deer_0.px", "cross.px", "raft.px", "rock_0.px", "map.px", "gathering_woodland.px",
    ])
}

#[test]
fn validates_references_and_animation_rates() {
    let manifest = manifest();
    assert!(manifest.check(&assets()).is_ok());
    assert_eq!(manifest.wagon.frames.len(), 4);
    let mut missing = self::manifest();
    missing.wagon.frames[3] = "missing.px".into();
    assert_eq!(missing.check(&assets()), Err(ManifestError::UnknownAsset("missing.px".into())));
    let mut stopped = self::manifest();
    stopped.wagon.fps = 0;
    assert_eq!(stopped.check(&assets()), Err(ManifestError::InvalidRate(0)));
    let mut empty = self::manifest();
    empty.gathering.clear();
    assert_eq!(empty.check(&assets()), Err(ManifestError::EmptyGroup));
}

#[test]
fn hunting_country_follows_the_terrain() {
    assert_eq!(biome_for(Terrain::Hills), Biome::Forest);
    assert_eq!(biome_for(Terrain::Forest), Biome::Forest);
    assert_eq!(biome_for(Terrain::RiverValley), Biome::RiverValley);
    assert_eq!(biome_for(Terrain::Plains), Biome::Plains);
}

#[test]
fn speaker_menu_ends_with_the_camp() {
    let speakers = vec![
        SpeakerView { id: "factor".into(), name: "Mr. Grant".into(), setting: SpeakerSetting::Fort },
        SpeakerView { id: "emigrant".into(), name: "Mrs. Hale".into(), setting: SpeakerSetting::Wagon },
    ];
    assert_eq!(
        speaker_menu(&speakers),
        vec![
            "Speak with Mr. Grant".to_string(),
            "Speak with Mrs. Hale (neighboring wagon)".into(),
            "Listen to the camp".into(),
        ]
    );
    assert_eq!(speaker_menu(&[]), vec!["Listen to the camp".to_string()]);
}

#[test]
fn conversation_scenes_follow_the_speaker_and_the_place() {
    let mut game = GameState::with_content(9, GameContent::starter());
    let _ = game.apply(Command::Configure {
        trail_id: "oregon".into(),
        era_id: "1848".into(),
        occupation_id: "farmer".into(),
        party: ["Ada", "James", "Ruth", "Thomas", "Clara"].map(str::to_owned).to_vec(),
        departure_month: 4,
    });
    assert_eq!(setting(&game, None), ("terrain_plains.px".to_string(), "CAMP AT NIGHT"));
    assert_eq!(setting(&game, Some(SpeakerSetting::Wagon)), ("terrain_plains.px".to_string(), "A NEIGHBORING WAGON"));
    let node = game.content.trails[0].nodes[0].id.clone();
    game.content.trails[0].nodes[0].kind = LandmarkKind::Town;
    game.current_node_id = Some(node.clone());
    game.status = RunStatus::AtLandmark(node.clone());
    assert_eq!(setting(&game, Some(SpeakerSetting::Fort)), ("terrain_plains.px".to_string(), "CAMP AT NIGHT"));
    game.content.trails[0].nodes[0].kind = LandmarkKind::Fort;
    assert_eq!(setting(&game, Some(SpeakerSetting::Fort)), (format!("{node}.px"), "AT THE FORT"));
    game.status = RunStatus::Travelling;
    assert_eq!(setting(&game, Some(SpeakerSetting::Fort)), ("terrain_plains.px".to_string(), "CAMP AT NIGHT"));
}

fn leg(target: &str, miles: u32) -> RouteDefinition {
    RouteDefinition { id: format!("to-{target}"), label: target.into(), target_id: target.into(), distance_miles: miles }
}

fn supply_trail() -> TrailDefinition {
    let mut start = stop("start", vec![]);
    start.routes = vec![leg("ford", 5), leg("post", 12)];
    start.store = true;
    let mut ford = stop("ford", vec![]);
    ford.routes = vec![leg("fort", 3)];
    let mut fort = stop("fort", vec![]);
    fort.name = "Fort Hope".into();
    fort.store = true;
    fort.routes = vec![leg("end", 40)];
    let mut post = stop("post", vec![]);
    post.name = "Trading Post".into();
    post.store = true;
    post.routes = vec![leg("end", 30)];
    TrailDefinition {
        id: "t".into(),
        name: "T".into(),
        start_node_id: "start".into(),
        goal_node_id: "end".into(),
        nodes: vec![start, ford, fort, post, stop("end", vec![])],
    }
}

#[test]
fn the_nearest_open_store_ahead_is_found() {
    let mut content = GameContent::starter();
    content.trails = vec![supply_trail()];
    let mut game = GameState::with_content(3, content);
    game.trail_id = Some("t".into());
    game.current_node_id = Some("start".into());
    assert_eq!(game.next_supply_stop(), Some(("Fort Hope", 8)));
    game.target_node_id = Some("post".into());
    game.route_miles_remaining = 4;
    assert_eq!(game.next_supply_stop(), Some(("Trading Post", 4)));
    game.target_node_id = None;
    let mut rules = pioneer_trail::content::EraRules::default();
    rules.unavailable_stores = vec!["fort".into()];
    game.era_id = Some("1848".into());
    game.content.era_rules = vec![("1848".into(), rules)];
    assert_eq!(game.next_supply_stop(), Some(("Trading Post", 12)));
    game.current_node_id = None;
    assert_eq!(game.next_supply_stop(), None);
}
