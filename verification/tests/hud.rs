//! The text of the game layer: amounts, the score line's goal and nudge,
//! and the HUD and placement lines.

use terminarium::app::App;
use terminarium::engine::{Params, Reef, Species, State, MICRO};
use terminarium::hud::{
    first_locked, game_hint, highlight, placement_hint, Highlight,
    budget_line, flash_line, fmt_amount, fmt_cost, kind_segment, money_line, score_line,
    species_segment, unlock_line,
};

fn app_with(state: State) -> App {
    App::new(state, Params::default())
}

fn one_rock(score: u128) -> State {
    State { score, started: true, reefs: vec![Reef { kind: 0, slot: 2 }], ..State::new() }
}

#[test]
fn money_rounds_down_and_costs_round_up() {
    assert_eq!(fmt_amount(630 * MICRO + 999_999), "630");
    assert_eq!(fmt_amount(0), "0");
    assert_eq!(fmt_cost(140_492_800), "141");
    assert_eq!(fmt_cost(141 * MICRO), "141");
    assert_eq!(fmt_cost(1), "1");
    assert_eq!(fmt_cost(0), "0");
}

#[test]
fn hud_shows_score_and_next_reef() {
    let app = app_with(one_rock(1_234 * MICRO));
    assert_eq!(score_line(&app), ("score 1234   next reef at 12000".to_string(), false));

    // Coral's wall crossed: budget 2, one rock spends 1 — a rebuild could
    // place more, and the wall's reward is named.
    let app = app_with(one_rock(12_000 * MICRO));
    assert_eq!(
        score_line(&app),
        ("score 12000   coral unlocked, budget 1/2 - [n] new sea".to_string(), true)
    );
}

#[test]
fn headroom_nudge_names_the_latest_crossed_wall() {
    // Kelp's wall just crossed (budget 3); one coral spends 2 of it.
    let mut state = State::new();
    state.score = 30_000 * MICRO;
    state.reefs = vec![Reef { kind: 1, slot: 2 }];
    state.started = true;
    state.collectable = 0;
    let app = app_with(state);
    let (line, actionable) = score_line(&app);
    assert_eq!(line, "score 30000   kelp unlocked, budget 2/3 - [n] new sea");
    assert!(actionable);
}

#[test]
fn a_full_budget_reads_the_goal_or_the_score_alone() {
    // Budget 1 spent by one rock: the next unlock is the goal.
    let app = app_with(one_rock(210 * MICRO));
    assert_eq!(score_line(&app), ("score 210   next reef at 12000".to_string(), false));
    // Five rocks at the second wall spend its whole budget, and every kind
    // but the lantern is unlocked.
    let mut state = one_rock(75_000 * MICRO);
    state.reefs = (0..5).map(|slot| Reef { kind: 0, slot }).collect();
    let app = app_with(state);
    assert_eq!(score_line(&app), ("score 75000   next reef at 100000".to_string(), false));
    let mut state = one_rock(100_000 * MICRO);
    state.reefs = (0..5).map(|slot| Reef { kind: 0, slot }).collect();
    let app = app_with(state);
    assert_eq!(score_line(&app), ("score 100000".to_string(), false));
}

#[test]
fn the_hud_lines_read_as_the_player_sees_them() {
    let p = Params::default();
    let state = State {
        population: [3, 2, 2, 1],
        reefs: vec![Reef { kind: 0, slot: 2 }],
        started: true,
        ..State::new()
    };
    let cost = state.next_cost(Species::Algae, &p);
    let cap = state.capacity(0, &p);
    assert_eq!(species_segment(1, "Algae", 3, cap, cost), "[1] Algae 3/4  $141");
    assert_eq!(money_line(630 * MICRO), "$ 630");
    assert_eq!(flash_line(210 * MICRO), "+210 collected");
    assert_eq!(kind_segment("kelp", 3), "kelp(3)");
    assert_eq!(budget_line(0, 2), "budget 0/2");
    assert_eq!(unlock_line("coral", 12_000 * MICRO), "coral unlocks at 12000");
}

#[test]
fn a_species_segment_reads_full_affordable_or_plain() {
    assert_eq!(highlight(4, 4, 10, 1_000), Highlight::Full);
    assert_eq!(highlight(5, 4, 10, 1_000), Highlight::Full);
    assert_eq!(highlight(3, 4, 10, 10), Highlight::Affordable);
    assert_eq!(highlight(3, 4, 10, 9), Highlight::Plain);
    assert_eq!(highlight(0, 0, 0, 0), Highlight::Full);
}

#[test]
fn the_key_hints_follow_the_mode() {
    let anchor = "moving the anchor - [</>] slide, [enter] done";
    assert_eq!(game_hint(true, true, true), anchor);
    assert_eq!(game_hint(false, true, true), "start a new sea? score & unlocks stay - [y] yes, any key: no");
    assert_eq!(game_hint(false, false, true), "[1-4] buy   [n] new sea   [a] anchor   [q] quit");
    assert_eq!(game_hint(false, false, false), "[1-4] buy   [n] new sea   [q] quit");
    assert_eq!(placement_hint(true, false), anchor);
    assert_eq!(
        placement_hint(false, true),
        "[</>] move  [^/v] kind  [enter] place  [bksp] remove  [s] start  [a] anchor"
    );
    assert_eq!(placement_hint(false, false), "[</>] move  [^/v] kind  [enter] place  [bksp] remove  [s] start");
}

#[test]
fn the_first_locked_kind_is_the_placement_goal() {
    let p = Params::default();
    assert_eq!(first_locked(&p.reef_kinds, 0), Some(1));
    assert_eq!(first_locked(&p.reef_kinds, 12_000 * MICRO), Some(2));
    assert_eq!(first_locked(&p.reef_kinds, 30_000 * MICRO), Some(3));
    // Manifest order, not unlock order: lantern (100 000) comes before lagoon.
    assert_eq!(first_locked(&p.reef_kinds, 40_000 * MICRO), Some(4));
    assert_eq!(first_locked(&p.reef_kinds, 60_000 * MICRO), Some(4));
    assert_eq!(first_locked(&p.reef_kinds, 100_000 * MICRO), None);
}
