use std::collections::BTreeSet;

use pioneer_trail::content::{Season, WeatherKind};
use pioneer_trail::health::PartyMember;
use pioneer_trail::party::{daily, grief, initialize, mourn};
use pioneer_trail::rng::SimRng;
use pioneer_trail::weather::{ClimateZone, Terrain, WeatherState};

fn party() -> Vec<PartyMember> {
    ["Ada", "Bert", "Clara", "Dora", "Eli"].into_iter().map(|name| PartyMember::new(name.into())).collect()
}

fn affinity(member: &PartyMember, name: &str) -> Option<i16> {
    member.relationships.affinity.get(name)
}

fn check_symmetric_and_bounded(members: &[PartyMember], checked: usize) {
    for member in &members[..checked] {
        for k in 0..member.relationships.affinity.len() {
            let name = member.relationships.affinity.key_at(k).clone();
            let value = member.relationships.affinity.value_at(k);
            let other = members.iter().find(|other| other.name == name).unwrap();
            assert_eq!(affinity(other, &member.name), Some(value));
            assert!((-10..=30).contains(&value));
        }
    }
}

#[test]
fn initialization_is_seeded_varied_and_social() {
    let mut left = party();
    let mut right = party();
    let mut different = party();
    initialize(&mut left, "doctor", &mut SimRng::new(91));
    initialize(&mut right, "doctor", &mut SimRng::new(91));
    initialize(&mut different, "doctor", &mut SimRng::new(92));
    assert_eq!(left, right);
    assert_ne!(left, different, "a different seed should produce a different profile");
    assert!(left.iter().all(|member| (18..=65).contains(&member.age)));
    assert!(left.iter().all(|member| member.traits.len() == 2));
    let traits = left.iter().flat_map(|member| member.traits.iter()).collect::<BTreeSet<_>>();
    assert_eq!(traits.len(), 10, "a five-person party receives ten varied traits");
    assert!(left[0].skills.medicine >= 7, "doctor leader gets the profession bonus");
    assert!(left[1..].iter().all(|member| member.skills.medicine <= 1));
    for member in &left {
        assert!(affinity(member, &member.name).is_none());
    }
    check_symmetric_and_bounded(&left, left.len());
}

#[test]
fn daily_stays_bounded_and_ignores_dead_members() {
    let mut members = party();
    initialize(&mut members, "merchant", &mut SimRng::new(7));
    members[4].alive = false;
    members[4].morale = 37;
    let dead_relationships = format!("{:?}", members[4].relationships);
    let mut rng = SimRng::new(12);
    let mut messages = Vec::new();
    for _ in 0..300 {
        messages.extend(daily(&mut members, false, true, true, &mut rng));
    }
    assert!(members[..4].iter().all(|member| (0..=100).contains(&member.morale)));
    assert_eq!(members[4].morale, 37);
    assert_eq!(format!("{:?}", members[4].relationships), dead_relationships);
    assert!(!messages.is_empty());
    assert!(messages
        .iter()
        .all(|message| message.contains(" and ") || message.contains(" checks on ")));
    check_symmetric_and_bounded(&members, 4);
}

#[test]
fn mourning_uses_affinity_clamps_morale_and_skips_the_dead() {
    let mut members = party();
    initialize(&mut members, "farmer", &mut SimRng::new(4));
    members[0].morale = 8;
    members[0].relationships.affinity.set("Bert", 30);
    members[1].alive = false;
    let messages = mourn(&mut members, &vec!["Bert".into()]);
    assert_eq!(members[0].morale, 0, "close friends cause deeper grief");
    assert_eq!(members[1].morale, 52);
    assert!(messages.iter().any(|message| message == "Ada mourns Bert."));
    assert!(!messages.iter().any(|message| message.starts_with("Bert ")));
}

#[test]
fn grief_grows_with_affinity() {
    assert_eq!(grief(30), -17);
    assert_eq!(grief(0), -10);
    assert_eq!(grief(-10), -10);
}

#[test]
fn regional_weather_changes_seasonal_odds_without_changing_the_legacy_wrapper() {
    for seed in 0..32 {
        let mut legacy = WeatherState::default();
        let mut temperate = WeatherState::default();
        legacy.advance(&mut SimRng::new(seed), Season::Summer);
        temperate.advance_in(&mut SimRng::new(seed), Season::Summer, ClimateZone::Temperate);
        assert_eq!(legacy, temperate);
    }

    let mut mountain_cold = false;
    let mut arid_hot = false;
    for seed in 0..64 {
        let mut mountain = WeatherState::default();
        let mut arid = WeatherState::default();
        mountain.advance_in(&mut SimRng::new(seed), Season::Summer, ClimateZone::Mountain);
        arid.advance_in(&mut SimRng::new(seed), Season::Summer, ClimateZone::Arid);
        mountain_cold |= matches!(mountain.kind, WeatherKind::Cold | WeatherKind::Snow);
        arid_hot |= arid.kind == WeatherKind::Hot;
    }
    assert!(mountain_cold, "mountain summers retain cold-weather outcomes");
    assert!(arid_hot, "arid summers retain hot-weather outcomes");
}

#[test]
fn weather_and_terrain_slow_the_wagon() {
    let storm = WeatherState { kind: WeatherKind::Storm, days_remaining: 2, river_depth_bonus: 2 };
    assert_eq!(storm.travel_penalty(Terrain::Mountains), 12);
    assert_eq!(WeatherState::default().travel_penalty(Terrain::Plains), 0);
}

#[test]
fn streams_are_independent_and_deterministic() {
    let mut a = SimRng::new(42);
    let mut b = SimRng::new(42);
    let x = a.roll("events", u32::MAX);
    let _ = a.roll("weather", u32::MAX);
    let y = b.roll("events", u32::MAX);
    assert_eq!(x, y);
    assert_eq!(a.seed(), 42);
}

#[test]
fn mourning_takes_each_death_once_in_name_order() {
    let mut members = party();
    initialize(&mut members, "farmer", &mut SimRng::new(4));
    let names: Vec<String> = members.iter().map(|m| m.name.clone()).collect();
    let mut expected = Vec::new();
    for (index, member) in members.iter().enumerate() {
        if index == 1 {
            continue;
        }
        let mut dead = vec![names[1].clone(), "Zed".to_string()];
        dead.sort();
        for name in dead {
            if name != member.name {
                expected.push(format!("{} mourns {}.", member.name, name));
            }
        }
    }
    members[1].alive = false;
    let messages = mourn(&mut members, &vec!["Zed".into(), names[1].clone(), "Zed".into()]);
    assert_eq!(messages, expected);
}
