# Pioneer Trail, verified

A keyboard-only trail survival game's rules, written in Verus: the simulation of a wagon
journey (commands, days on the trail, camp days, events, rivers, forks, hunting and
rafting results, scoring), the content checks, the reference player and its balance
reports, the hunting and rafting minigames, and the smaller pieces of front-end text.

## Layout

- `src/` — the verified library. `state.rs`, `play.rs`, `commands.rs`, `journey.rs` and
  `events.rs` hold the simulation and the contract of its single entry point
  (`GameState::try_apply` / `GameState::apply`); `catalog.rs` checks a content catalogue;
  `headless.rs` and `balance.rs` are the reference player and its batch reports;
  `hunting.rs` and `rafting.rs` the minigames; `legacy.rs`, `persist.rs`, `seed.rs`,
  `outfitting.rs`, `advice.rs`, `ui.rs` and the rest the front end's rules and text.
  `rng.rs` is the one place that calls `rand` and `rand_chacha`.
- `tests/` — tests of the library, run against the compiled crate.
- `app/` — a small command-line program around the library: single reference journeys,
  batches (`--headless-sim`), and `balance-report`.
