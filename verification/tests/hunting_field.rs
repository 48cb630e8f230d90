use pioneer_trail::art::PxImage;
use pioneer_trail::hunting::{Biome, HuntingGame, HuntingResult, Target};
use pioneer_trail::input::Key;
use pioneer_trail::ui::Animal;

/// Stand-in sprites: every animal frame a solid 16 by 8 block (the shipped art is not
/// part of this crate).
fn sprites() -> Vec<PxImage> {
    let block = "GGGGGGGGGGGGGGGG\n".repeat(8);
    (0..10).map(|_| PxImage::parse(&block).unwrap()).collect()
}

fn rabbit_at(x: i16, y: i16) -> Target {
    Target { kind: Animal::Rabbit, x, y, dx: 1, alive: true }
}

#[test]
fn deterministic_world() {
    let mut a = HuntingGame::new(7, Biome::Plains, false, 20, sprites());
    let mut b = HuntingGame::new(7, Biome::Plains, false, 20, sprites());
    for _ in 0..100 {
        a.tick();
        b.tick()
    }
    assert_eq!(a.targets, b.targets);
    assert_eq!(a.text_lines(), b.text_lines());
}

#[test]
fn timer_and_escape_keep_earned_result() {
    let mut g = HuntingGame::new(1, Biome::Desert, false, 20, sprites());
    for _ in 0..900 {
        g.tick()
    }
    assert!(g.is_finished());
    assert_eq!(g.result().food_lbs, 0)
}

#[test]
fn ammo_does_not_underflow() {
    let mut g = HuntingGame::new(1, Biome::Desert, false, 20, sprites());
    for _ in 0..1000 {
        g.handle_key(Key::Char(' '))
    }
    assert_eq!(g.result().shots, 20)
}

#[test]
fn a_dead_target_cannot_be_credited_twice() {
    let mut g = HuntingGame::new(1, Biome::Desert, false, 20, sprites());
    g.targets = vec![rabbit_at(40, 11)];
    g.handle_key(Key::Char(' '));
    g.handle_key(Key::Char(' '));
    assert_eq!(g.result().food_lbs, 8);
}

#[test]
fn text_controls_use_normal_shots_and_cannot_farm_corpses() {
    let mut g = HuntingGame::new(1, Biome::Desert, false, 20, sprites());
    g.targets = vec![rabbit_at(40, 11)];
    g.text_key(Key::Char('1'));
    assert_eq!(g.result(), HuntingResult { food_lbs: 8, shots: 1 });
    assert_eq!(g.ticks, 30);
    g.text_key(Key::Char('1'));
    assert_eq!(g.result(), HuntingResult { food_lbs: 8, shots: 1 });
    assert_eq!(g.ticks, 30);
}

#[test]
fn text_hunt_time_and_ammo_are_finite_and_printable() {
    let mut g = HuntingGame::new(1, Biome::Desert, false, 1, sprites());
    g.targets = vec![rabbit_at(40, 11)];
    g.text_key(Key::Char('1'));
    for _ in 0..30 {
        g.text_key(Key::Char(' '));
    }
    assert!(g.is_finished());
    assert_eq!(g.result().shots, 1);
    assert!(g.text_lines().iter().all(|line| line.bytes().all(|byte| byte == b' ' || byte.is_ascii_graphic())));
}

#[test]
fn hunts_start_in_the_country_they_are_in() {
    let g = HuntingGame::new(3, Biome::RiverValley, true, 50, sprites());
    assert!((3..=5).contains(&g.targets.len()));
    assert!(g.targets.iter().all(|t| t.kind == Animal::Squirrel && t.alive && (3..77).contains(&t.x) && (2..21).contains(&t.y)));
    assert_eq!((g.ammo, g.capacity, g.crosshair), (20, 200, (40, 11)));
    let plains = HuntingGame::new(3, Biome::Plains, false, 5, sprites());
    assert!(plains.targets.iter().all(|t| t.kind == Animal::Buffalo || t.kind == Animal::Deer));
    assert_eq!(plains.ammo, 5);
}

#[test]
fn the_hunt_reads_in_words() {
    let mut g = HuntingGame::new(1, Biome::Desert, false, 20, sprites());
    g.targets = vec![rabbit_at(10, 5), Target { alive: false, ..rabbit_at(30, 5) }, Target { kind: Animal::Bear, ..rabbit_at(50, 9) }];
    let lines = g.text_lines();
    assert_eq!(lines[0], "TURN-BASED HUNT");
    assert_eq!(lines[1], "Time 30s | Shots 0 | Ammo 20 | Bag 0/150");
    assert_eq!(lines[3], "1. Rabbit: 8 lb meat");
    assert_eq!(lines[4], "2. Bear: 65 lb meat");
    assert_eq!(lines.len(), 5);
    g.targets.clear();
    assert_eq!(g.text_lines()[3], "No living animals remain.");
}

#[test]
fn the_crosshair_stays_on_the_field_and_animals_turn_at_the_edges() {
    let mut g = HuntingGame::new(1, Biome::Desert, false, 20, sprites());
    for _ in 0..100 {
        g.handle_key(Key::Up);
        g.handle_key(Key::Char('h'));
    }
    assert_eq!(g.crosshair, (0, 0));
    g.targets = vec![Target { dx: -1, ..rabbit_at(2, 5) }];
    for _ in 0..6 {
        g.tick();
    }
    assert_eq!((g.targets[0].x, g.targets[0].dx), (1, 1));
    g.handle_key(Key::Esc);
    assert!(g.is_finished());
}
