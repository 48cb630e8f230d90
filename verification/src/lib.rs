//! Pioneer Trail: a deterministic wagon-journey simulation with verified rules.
//!
//! The simulation performs no I/O; every random decision draws from a seeded,
//! named stream so that one system's rolls never reshuffle another's.

pub mod text;
pub mod calendar;
pub mod tally;
pub mod lookup;
pub mod rng;
pub mod content;
pub mod weather;
pub mod health;
pub mod party;
pub mod journal;
pub mod economy;
pub mod family;
pub mod minigame;
pub mod score;
pub mod state;
pub mod events;
pub mod journey;
pub mod commands;
pub mod play;
pub mod audit;
pub mod art;
pub mod seed;
pub mod ui;
pub mod persist;
pub mod headless;
pub mod balance;
pub mod outfitting;
pub mod advice;
pub mod catalog;
pub mod legacy;
pub mod travel_moment;
pub mod input;
pub mod rafting;
pub mod hunting;
pub mod conversations;
pub mod route_record;
pub mod art_manifest;
pub mod gathering;
