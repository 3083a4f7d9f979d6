//! The application shell: layers, keys, time and the flash, driven the way
//! the binary drives them.

use terminarium::app::{layer_for, App, Key, Layer, Phase};
use terminarium::engine::{Params, State, MICRO, SLOTS};

fn app_with(state: State) -> App {
    App::new(state, Params::default())
}

#[test]
fn layer_is_decided_by_size() {
    assert_eq!(layer_for(79, 30), Layer::Wallpaper);
    assert_eq!(layer_for(200, 19), Layer::Wallpaper);
    assert_eq!(layer_for(80, 20), Layer::Game);
    assert_eq!(layer_for(188, 45), Layer::Game);
}

#[test]
fn entering_game_layer_collects_with_flash_then_drains_silently() {
    let mut state = State::new();
    state.collectable = 420 * MICRO;
    let mut app = app_with(state);

    app.on_resize(100, 30);
    assert_eq!(app.layer, Layer::Game);
    assert_eq!(app.state.currency, 420 * MICRO);
    assert_eq!(app.state.collectable, 0);
    assert_eq!(app.flash, Some((420 * MICRO, 15)));

    // While staying on the game layer, new surplus is collected as time
    // passes — silently, without a new flash.
    app.flash = None;
    app.state.collectable = 7;
    app.on_elapsed(1_000);
    assert_eq!(app.state.collectable, 0);
    assert_eq!(app.state.currency, 420 * MICRO + 7);
    assert_eq!(app.flash, None);

    // Back on the wallpaper the surplus accrues untouched.
    app.on_resize(40, 12);
    app.state.collectable = 9;
    app.on_elapsed(1_000);
    assert_eq!(app.state.collectable, 9);
    assert_eq!(app.state.currency, 420 * MICRO + 7);

    // The next peek collects the pile again, with a flash.
    app.on_resize(100, 30);
    assert_eq!(app.state.collectable, 0);
    assert_eq!(app.state.currency, 420 * MICRO + 7 + 9);
    assert_eq!(app.flash, Some((9, 15)));
}

#[test]
fn entering_with_nothing_to_collect_shows_no_flash() {
    let mut app = app_with(State::new());
    app.on_resize(100, 30);
    assert_eq!(app.flash, None);
}

#[test]
fn game_input_works_only_in_game_layer() {
    let params = Params::default();
    let mut state = State::new();
    // A committed run with algae housing, so the buy gate is capacity, not
    // the placement screen. currency is set after start so the seed grant
    // does not perturb the fixed amount.
    assert!(state.place_reef(0, 0, &params));
    assert!(state.start_run(&params));
    state.currency = 1_000 * MICRO;
    let mut app = App::new(state, params);
    let none = false;

    // Wallpaper: buy is ignored.
    app.on_resize(40, 12);
    app.on_key(Key::Char('1'), none);
    assert_eq!(app.state.population[0], 0);

    // Game layer: buying works.
    app.on_resize(100, 30);
    app.on_key(Key::Char('1'), none);
    assert_eq!(app.state.population[0], 1);
}

#[test]
fn no_time_flows_before_the_run_starts() {
    // On the placement screen (game layer, run not committed) the clock must
    // not run: the emergence delay and rock output are both anchored to the
    // start, so nothing should age while the player is still composing.
    let mut app = app_with(State::new());
    app.on_resize(100, 30);
    assert!(!app.state.run_started());

    app.on_elapsed(10_000);
    assert_eq!(app.state.tick_count, 0, "an uncommitted run means no ticks");
    assert!(!app.state.run_started());
}

#[test]
fn placement_cursor_moves_and_wraps() {
    let mut app = app_with(State::new());
    app.on_resize(100, 30);
    let none = false;

    // Default cursor sits mid-floor.
    assert_eq!(app.placement_cursor, SLOTS / 2);
    assert_eq!(app.placement_cursor, 4);

    // Right (and l) walk up by one.
    app.on_key(Key::Right, none);
    assert_eq!(app.placement_cursor, 5);
    app.on_key(Key::Char('l'), none);
    assert_eq!(app.placement_cursor, 6);

    // From the last slot, stepping right wraps to the first.
    app.placement_cursor = SLOTS - 1;
    app.on_key(Key::Right, none);
    assert_eq!(
        app.placement_cursor, 0,
        "past the last slot wraps to the first"
    );

    // From the first slot, stepping left wraps to the last.
    app.on_key(Key::Left, none);
    assert_eq!(
        app.placement_cursor,
        SLOTS - 1,
        "before the first wraps to the last"
    );
    app.on_key(Key::Char('h'), none);
    assert_eq!(app.placement_cursor, SLOTS - 2);
}

#[test]
fn enter_places_a_rock_and_s_starts_the_run() {
    let mut app = app_with(State::new());
    app.on_resize(100, 30);
    let none = false;
    assert!(!app.state.run_started());

    app.on_key(Key::Right, none); // cursor 4 -> 5
    app.on_key(Key::Enter, none);

    assert!(
        !app.state.run_started(),
        "Enter drops a rock but no longer begins the run"
    );
    assert_eq!(app.state.reefs.len(), 1);
    assert_eq!(app.state.reefs[0].kind, 0);
    assert_eq!(app.state.reefs[0].slot, 5);

    // The clock stays still until the run is committed.
    app.on_elapsed(3_000);
    assert_eq!(app.state.tick_count, 0, "no clock before start");

    // 's' commits the placement and starts the run.
    app.on_key(Key::Char('s'), none);
    assert!(app.state.run_started(), "s begins the run");
    assert_eq!(
        app.state.currency, app.params.seed_currency,
        "start grants the seed once"
    );

    // Once the run has started the clock runs.
    app.on_elapsed(3_000);
    assert!(app.state.tick_count > 0, "time flows after start");
}

#[test]
fn placement_input_is_ignored_on_the_wallpaper() {
    let mut app = app_with(State::new());
    app.on_resize(40, 12); // wallpaper: no game input at all
    let none = false;
    let start = app.placement_cursor;

    app.on_key(Key::Right, none);
    assert_eq!(
        app.placement_cursor, start,
        "the wallpaper takes no placement input"
    );
    app.on_key(Key::Enter, none);
    assert!(
        !app.state.run_started(),
        "Enter on the wallpaper places nothing"
    );
}

#[test]
fn placement_cycles_only_unlocked_kinds() {
    let mut app = app_with(State::new());
    app.on_resize(100, 30);
    let none = false;

    // Score 0: only the base rock is unlocked, so cycling is a no-op.
    assert_eq!(app.placement_kind, 0);
    app.on_key(Key::Up, none);
    assert_eq!(app.placement_kind, 0, "only rock unlocked at score 0");

    // Score past coral's unlock brings a second kind into the cycle.
    app.state.score = 12_000 * MICRO;
    app.on_key(Key::Up, none);
    assert_eq!(app.placement_kind, 1, "coral now selectable");
    app.on_key(Key::Up, none);
    assert_eq!(app.placement_kind, 0, "cycle wraps back to rock");
    app.on_key(Key::Char('j'), none);
    assert_eq!(app.placement_kind, 1, "j walks the other way");
}

#[test]
fn place_several_reefs_remove_one_then_start() {
    let mut state = State::new();
    state.score = 12_000 * MICRO; // budget 2 admits two base rocks
    let mut app = app_with(state);
    app.on_resize(100, 30);
    let none = false;

    app.on_key(Key::Enter, none); // rock at cursor 4
    app.on_key(Key::Right, none); // cursor -> 5
    app.on_key(Key::Enter, none); // rock at 5
    assert_eq!(app.state.reefs.len(), 2);
    assert!(!app.state.run_started(), "placing does not start the run");

    // Backspace lifts the rock under the cursor (slot 5).
    app.on_key(Key::Backspace, none);
    assert_eq!(app.state.reefs.len(), 1);
    assert_eq!(app.state.reefs[0].slot, 4);

    app.on_key(Key::Char('s'), none);
    assert!(app.state.run_started());
    assert_eq!(
        app.state.currency, app.params.seed_currency,
        "the seed is granted once, at start"
    );
}

#[test]
fn new_sea_needs_confirmation_and_a_stray_key_cancels() {
    let mut state = State::new();
    assert!(state.place_reef(0, 0, &Params::default()));
    assert!(state.start_run(&Params::default()));
    state.score = 500 * MICRO;
    state.population[0] = 2;
    let mut app = app_with(state);
    app.on_resize(100, 30);
    let none = false;

    // 'n' arms the prompt but changes nothing yet.
    app.on_key(Key::Char('n'), none);
    assert!(app.new_sea_pending);
    assert!(app.state.run_started());
    assert_eq!(app.state.population[0], 2);

    // Any non-'y' key cancels, leaving the run untouched.
    app.on_key(Key::Char('x'), none);
    assert!(!app.new_sea_pending, "the prompt is dismissed");
    assert!(app.state.run_started());
    assert_eq!(app.state.population[0], 2);

    // Arm again and confirm: reset to a fresh placement, keeping score.
    app.on_key(Key::Char('n'), none);
    app.on_key(Key::Char('y'), none);
    assert!(!app.state.run_started(), "y returns to placement");
    assert!(app.state.reefs.is_empty());
    assert_eq!(app.state.population, [0, 0, 0, 0]);
    assert_eq!(app.state.score, 500 * MICRO, "score survives the new sea");
    assert_eq!(app.placement_cursor, SLOTS / 2);
    assert_eq!(app.placement_kind, 0);
}

#[test]
fn buy_is_suppressed_while_new_sea_is_pending() {
    let mut state = State::new();
    assert!(state.place_reef(0, 0, &Params::default()));
    assert!(state.start_run(&Params::default()));
    state.currency = 1_000 * MICRO;
    let mut app = app_with(state);
    app.on_resize(100, 30);
    let none = false;

    app.on_key(Key::Char('n'), none); // arm the prompt
    app.on_key(Key::Char('1'), none); // would buy algae — but cancels instead
    assert_eq!(
        app.state.population[0], 0,
        "a buy key does not fire while the prompt is pending"
    );
    assert!(!app.new_sea_pending, "and it dismisses the prompt");

    // With the prompt gone the same key buys.
    app.on_key(Key::Char('1'), none);
    assert_eq!(app.state.population[0], 1);
}

#[test]
fn quit_works_in_both_layers() {
    let mut app = app_with(State::new());
    app.on_resize(40, 12);
    app.on_key(Key::Char('q'), false);
    assert!(app.should_quit);

    let mut app = app_with(State::new());
    app.on_resize(100, 30);
    app.on_key(Key::Char('c'), true);
    assert!(app.should_quit);
}

#[test]
fn elapsed_milliseconds_accumulate_into_whole_ticks() {
    let mut state = State::new();
    // A live run is the precondition for ticking; place and start first.
    assert!(state.place_reef(0, 0, &Params::default()));
    assert!(state.start_run(&Params::default()));
    state.population[0] = 1;
    let mut app = app_with(state.clone());

    app.on_elapsed(500);
    assert_eq!(app.state, state, "half a second is not a tick yet");

    app.on_elapsed(500);
    let mut expected = state.clone();
    expected.tick(&app.params);
    assert_eq!(app.state, expected, "two halves make one tick");

    app.on_elapsed(2_300);
    expected.advance(2, &app.params);
    assert_eq!(app.state, expected, "2300ms = 2 ticks + 300ms carried");

    app.on_elapsed(700);
    expected.tick(&app.params);
    assert_eq!(app.state, expected, "the carried 300ms completes a tick");
}

#[test]
fn time_scale_defaults_to_real_time() {
    let app = app_with(State::new());
    assert_eq!(app.time_scale, 1);
}

#[test]
fn time_scale_multiplies_elapsed_before_ticking() {
    let mut state = State::new();
    assert!(state.place_reef(0, 0, &Params::default()));
    assert!(state.start_run(&Params::default()));
    state.population[0] = 1;
    let mut app = app_with(state.clone());
    app.time_scale = 60;

    // At 60x, one wall-clock second is a full minute of ticks.
    app.on_elapsed(1_000);
    let mut expected = state.clone();
    expected.advance(60, &app.params);
    assert_eq!(app.state, expected, "scale=60: 1000ms = 60 ticks");
}

#[test]
fn time_scale_carries_the_sub_tick_remainder() {
    let mut state = State::new();
    assert!(state.place_reef(0, 0, &Params::default()));
    assert!(state.start_run(&Params::default()));
    state.population[0] = 1;
    let mut app = app_with(state.clone());
    app.time_scale = 60;

    // 10ms * 60 = 600ms scaled: not a full tick yet, so it carries.
    app.on_elapsed(10);
    assert_eq!(app.state, state, "600ms scaled is still sub-tick");

    // Another 10ms * 60 = 600ms, 1200ms scaled total: one tick, 200 carried.
    app.on_elapsed(10);
    let mut expected = state.clone();
    expected.tick(&app.params);
    assert_eq!(
        app.state, expected,
        "the carried remainder completes a tick"
    );
}

#[test]
fn phase_boundaries_map_hours_to_time_of_day() {
    // Placeholder boundaries: dawn 5-8, day 8-17, dusk 17-20, night 20-5.
    // Boundary hours belong to the later phase (half-open intervals).
    assert_eq!(Phase::from_hour(4), Phase::Night, "pre-dawn is night");
    assert_eq!(Phase::from_hour(5), Phase::Dawn, "dawn opens at 5");
    assert_eq!(Phase::from_hour(7), Phase::Dawn);
    assert_eq!(Phase::from_hour(8), Phase::Day, "day opens at 8");
    assert_eq!(Phase::from_hour(12), Phase::Day);
    assert_eq!(Phase::from_hour(16), Phase::Day);
    assert_eq!(Phase::from_hour(17), Phase::Dusk, "dusk opens at 17");
    assert_eq!(Phase::from_hour(19), Phase::Dusk);
    assert_eq!(Phase::from_hour(20), Phase::Night, "night opens at 20");
    assert_eq!(Phase::from_hour(23), Phase::Night);
    assert_eq!(Phase::from_hour(0), Phase::Night, "midnight is night");
}

#[test]
fn a_bare_app_is_night_so_old_snapshots_are_the_regression_guard() {
    // Night is the pre-phase palette; defaulting to it keeps every existing
    // snapshot byte-for-byte, which is what makes them the phase regression
    // guard. The binary overwrites the phase from the clock at runtime.
    let app = app_with(State::new());
    assert_eq!(app.phase, Phase::Night);
}

#[test]
fn flash_expires_after_its_frames() {
    let mut state = State::new();
    state.collectable = MICRO;
    let mut app = app_with(state);
    app.on_resize(100, 30);
    assert!(app.flash.is_some());
    for _ in 0..15 {
        app.on_frame();
    }
    assert_eq!(app.flash, None);
}


#[test]
fn the_anchor_is_grabbed_slid_and_set_once_unlocked() {
    let params = Params::default();
    let mut state = State::new();
    assert!(state.place_reef(0, 0, &params));
    assert!(state.start_run(&params));
    let mut app = app_with(state);
    app.on_resize(100, 30);

    // Below its unlock score the anchor cannot be grabbed.
    app.on_key(Key::Char('a'), false);
    assert!(!app.anchor_mode);
    assert!(!app.anchor_unlocked());

    app.state.score = app.params.anchor_unlock;
    assert!(app.anchor_unlocked());
    app.on_key(Key::Char('a'), false);
    assert!(app.anchor_mode, "a grabs the anchor once the score unlocks it");

    let start = app.state.anchor_pos;
    app.on_key(Key::Left, false);
    assert_eq!(app.state.anchor_pos, start - 25);
    app.on_key(Key::Char('l'), false);
    app.on_key(Key::Char('l'), false);
    assert_eq!(app.state.anchor_pos, start + 25);
    // While held, the buy keys do nothing.
    let currency = app.state.currency;
    app.on_key(Key::Char('1'), false);
    assert_eq!(app.state.currency, currency);
    assert_eq!(app.state.population[0], 0);

    app.on_key(Key::Enter, false);
    assert!(!app.anchor_mode, "Enter sets the anchor down");
    assert_eq!(app.state.anchor_pos, start + 25);
}

#[test]
fn the_anchor_slides_only_within_the_pane_and_drops_on_the_wallpaper() {
    let mut state = State::new();
    state.score = Params::default().anchor_unlock;
    let mut app = app_with(state);
    app.on_resize(100, 30);
    app.on_key(Key::Char('a'), false);
    assert!(app.anchor_mode, "the placement screen grabs the anchor too");
    for _ in 0..100 {
        app.on_key(Key::Right, false);
    }
    assert_eq!(app.state.anchor_pos, 999);
    for _ in 0..100 {
        app.on_key(Key::Char('h'), false);
    }
    assert_eq!(app.state.anchor_pos, 0);
    // Shrinking the pane lets go of it.
    app.on_resize(40, 12);
    assert!(!app.anchor_mode);
}

#[test]
fn a_frame_wraps_and_the_app_reports_its_health() {
    let mut app = app_with(State::new());
    assert!(app.is_wf());
    app.frame = u64::MAX;
    app.on_frame();
    assert_eq!(app.frame, 0);
    app.tick_acc_ms = 1_000;
    assert!(!app.is_wf(), "a whole tick left owed is not a state the shell keeps");
}

/// Across any number of calls on the game layer, the sea runs the whole
/// ticks of all the time owed and ends with its pile collected.
#[test]
fn elapsed_spans_on_the_game_layer_lose_no_time() {
    let p = Params::default();
    let mut st = State::new();
    assert!(st.place_reef(0, 0, &p));
    assert!(st.start_run(&p));
    st.population[0] = 1;
    let mut a = App::new(st.clone(), Params::default());
    a.layer = Layer::Game;
    for ms in [500, 700, 1_800, 250] {
        a.on_elapsed(ms);
    }
    let mut expected = st.clone();
    expected.advance(3, &p);
    expected.collect();
    assert_eq!(a.state, expected);
    assert_eq!(a.tick_acc_ms, 250);
}
