//! The save format: exact round trips, strict rejection of anything a
//! playthrough could not have written, and settling an absence.

use terminarium::engine::{Params, Reef, ReefKind, State, MICRO};
use terminarium::save::{parse, path_for, serialize, settle};

fn sample_state() -> State {
    State {
        population: [3, 1, 0, 0],
        pool: [52 * MICRO, 7, 0, 1],
        nutrient: 1_234_567,
        collectable: 42 * MICRO,
        currency: 120 * MICRO + 1,
        // Two base rocks (Σcost 2) need budget 2, so the score must clear
        // the first budget step; the clock has run, so the run is started.
        score: 12_000 * MICRO,
        reefs: vec![Reef { kind: 0, slot: 0 }, Reef { kind: 0, slot: 2 }],
        tick_count: 137,
        started: true,
        // A non-default position, off the anchor's home column, so the
        // round trip exercises a value that is neither 0 nor the default.
        anchor_pos: 250,
    }
}

#[test]
fn round_trip_is_exact() {
    let state = sample_state();
    let (parsed, saved_at) =
        parse(&serialize(&state, 987_654_321), &Params::default()).expect("round trip");
    assert_eq!(parsed, state);
    assert_eq!(saved_at, 987_654_321);
}

#[test]
fn duplicate_keys_are_rejected() {
    let good = serialize(&sample_state(), 1);
    assert!(parse(&format!("{good}currency=999\n"), &Params::default()).is_none());
}

#[test]
fn absurd_population_is_rejected() {
    let p = Params::default();
    let good = serialize(&sample_state(), 1);
    let hacked = good.replace("population=3,1,0,0", "population=3,1,0,4294967295");
    assert!(parse(&hacked, &p).is_none());
    let plausible = good.replace("population=3,1,0,0", "population=3,1,0,600");
    assert!(parse(&plausible, &p).is_some());
}

#[test]
fn tampered_rocks_are_rejected() {
    let p = Params::default();
    let good = serialize(&sample_state(), 1);
    assert!(parse(&good, &p).is_some());
    // Kind out of range (the default table has kinds 0..=2).
    assert!(parse(&good.replace("rocks=0:0,0:2", "rocks=3:0"), &p).is_none());
    // Slot at or beyond SLOTS.
    assert!(parse(&good.replace("rocks=0:0,0:2", "rocks=0:0,0:9"), &p).is_none());
    // Duplicated slot.
    assert!(parse(&good.replace("rocks=0:0,0:2", "rocks=0:0,0:0"), &p).is_none());
    // Malformed pair (missing the kind:slot separator).
    assert!(parse(&good.replace("rocks=0:0,0:2", "rocks=00,0:2"), &p).is_none());
}

#[test]
fn old_five_slot_saves_still_load() {
    // A save written under the old 5-slot grid (slot indices 0..=4) stays
    // valid under the 9-slot grid: the indices are still in range, so the
    // reef is read back intact. The renderer maps those indices onto the
    // denser grid, so the reef shows further left than before — an accepted
    // position shift (the save stores the slot index, not a pane column),
    // not a load failure. Old slots are not re-mapped.
    let p = Params::default();
    let old = State {
        // Budget 2 (score past the first step) admits the two base rocks.
        score: 12_000 * MICRO,
        reefs: vec![Reef { kind: 0, slot: 0 }, Reef { kind: 0, slot: 4 }],
        tick_count: 42,
        started: true,
        ..State::new()
    };
    let (parsed, _) =
        parse(&serialize(&old, 1), &p).expect("a save from the old 5-slot grid still loads");
    assert_eq!(
        parsed.reefs, old.reefs,
        "slot indices 0..=4 survive the 5->9 slot increase unchanged"
    );
}

#[test]
fn v3_saves_are_rejected() {
    // The version is a breaking bump to v4 for the anchor position: a v3
    // save (which had no anchor key) must be set aside, not read as if it
    // were current — reading it as v4 would invent a position it never held.
    let p = Params::default();
    let good = serialize(&sample_state(), 1);
    assert!(parse(&good, &p).is_some());
    assert!(parse(&good.replace("v=4", "v=3"), &p).is_none());
}

#[test]
fn anchor_position_out_of_range_is_rejected() {
    // The anchor position is a millipermille, 0..=999: 999 is the last valid
    // column-fraction, 1000 is past the pane and cannot arise in play.
    let p = Params::default();
    let good = serialize(&sample_state(), 1);
    assert!(parse(&good, &p).is_some());
    assert!(parse(&good.replace("anchor=250", "anchor=999"), &p).is_some());
    assert!(parse(&good.replace("anchor=250", "anchor=1000"), &p).is_none());
}

#[test]
fn a_save_missing_the_anchor_key_is_rejected() {
    // Every key is required (the strict all-or-nothing rule): a save without
    // the anchor position is not one of ours.
    let p = Params::default();
    let good = serialize(&sample_state(), 1);
    let without = good
        .lines()
        .filter(|l| !l.starts_with("anchor="))
        .collect::<Vec<_>>()
        .join("\n");
    assert!(parse(&without, &p).is_none());
}

#[test]
fn a_rock_locked_above_the_score_is_rejected() {
    // A cost-1 kind (always within budget 1) that only unlocks at 5,000:
    // this isolates the unlock check from the budget check.
    let p = Params {
        reef_kinds: vec![
            ReefKind {
                name: "base",
                cost: 1,
                unlock: 0,
                output: MICRO,
                capacity: [1, 0, 0, 0],
            },
            ReefKind {
                name: "gated",
                cost: 1,
                unlock: 5_000 * MICRO,
                output: MICRO,
                capacity: [1, 0, 0, 0],
            },
        ],
        budget_steps: vec![(0, 1)],
        ..Params::default()
    };
    // Score 0: the gated kind is not yet unlocked → rejected.
    let locked = State {
        reefs: vec![Reef { kind: 1, slot: 0 }],
        ..State::new()
    };
    assert!(parse(&serialize(&locked, 1), &p).is_none());
    // Score past the unlock (and within budget): accepted.
    let cleared = State {
        score: 5_000 * MICRO,
        reefs: vec![Reef { kind: 1, slot: 0 }],
        ..State::new()
    };
    assert!(parse(&serialize(&cleared, 1), &p).is_some());
}

#[test]
fn rocks_over_budget_are_rejected() {
    // Score 12,000 unlocks coral and grants budget 2. A rock (cost 1) plus a
    // coral (cost 2) is Σcost 3 — over budget — although both kinds are
    // unlocked, so only the budget check catches it.
    let p = Params::default();
    let over = State {
        score: 12_000 * MICRO,
        started: true,
        reefs: vec![Reef { kind: 0, slot: 0 }, Reef { kind: 1, slot: 1 }],
        tick_count: 5,
        ..State::new()
    };
    assert!(parse(&serialize(&over, 1), &p).is_none());
}

#[test]
fn a_started_run_without_rocks_is_rejected() {
    // start_run demands at least one rock and removal ends at start, so a
    // started run with an empty reef cannot arise in play. A fresh save
    // (not started, empty reef) stays valid.
    let p = Params::default();
    let started_empty = State {
        started: true,
        ..State::new()
    };
    assert!(parse(&serialize(&started_empty, 1), &p).is_none());
    assert!(parse(&serialize(&State::new(), 1), &p).is_some());
}

#[test]
fn a_started_flag_contradicting_the_clock_is_rejected() {
    // The clock only runs after start, so started=0 with a non-zero clock
    // cannot arise in play.
    let p = Params::default();
    let good = serialize(&sample_state(), 1);
    assert!(parse(&good, &p).is_some());
    assert!(parse(&good.replace("started=1", "started=0"), &p).is_none());
    // A bare flag value that is neither 0 nor 1 is not ours.
    assert!(parse(&good.replace("started=1", "started=yes"), &p).is_none());
}

#[test]
fn unknown_key_or_wrong_shape_is_rejected() {
    let p = Params::default();
    let good = serialize(&sample_state(), 1);
    assert!(parse(&good, &p).is_some());
    assert!(parse(&good.replace("v=4", "v=1"), &p).is_none());
    assert!(parse(&format!("{good}extra=1\n"), &p).is_none());
    assert!(parse(&good.replace("population=3,1,0,0", "population=3,1,0"), &p).is_none());
    assert!(parse(
        &good.replace("population=3,1,0,0", "population=3,1,0,0,9"),
        &p
    )
    .is_none());
    assert!(parse(&good.replace("age=137", "age=nan"), &p).is_none());
    assert!(parse("", &p).is_none());
}


/// Settling `state`, saved at `saved_at`, when read back at `now` at `scale`.
fn settled(state: &State, saved_at: u64, now: u64, scale: u64) -> State {
    let p = Params::default();
    let text = serialize(state, saved_at);
    let (parsed, at) = parse(&text, &p).expect("a save of a playable state reads back");
    settle(parsed, at, now, scale, &p)
}

#[test]
fn load_settles_offline_progress() {
    let params = Params::default();
    let state = sample_state();
    let settled = settled(&state, 1_000, 1_300, 1);
    let mut expected = state;
    expected.advance(300, &params);
    assert_eq!(settled, expected);
}

#[test]
fn load_scales_offline_progress() {
    let params = Params::default();
    let state = sample_state();
    // 10 wall-clock seconds at 60x settle as 600 ticks.
    let settled = settled(&state, 1_000, 1_010, 60);
    let mut expected = state;
    expected.advance(600, &params);
    assert_eq!(settled, expected);
}

#[test]
fn clock_skew_settles_nothing() {
    let state = sample_state();
    assert_eq!(settled(&state, 1_000, 500, 1), state);
}

#[test]
fn pre_run_save_is_not_settled() {
    // No reef placed yet: the run has not started, so an absence settles
    // nothing even though this pool would otherwise decay away.
    let mut state = State::new();
    state.pool[0] = 10 * MICRO;
    assert_eq!(settled(&state, 1_000, 1_000_000, 1), state);
}

#[test]
fn placement_in_progress_save_is_not_settled() {
    // Reefs placed but the run not yet committed: the clock is not running.
    let params = Params::default();
    let mut state = State::new();
    assert!(state.place_reef(0, 0, &params));
    assert!(!state.run_started());
    assert_eq!(settled(&state, 1_000, 1_000_000, 1), state);
}

#[test]
fn test_scale_uses_a_sibling_save_file() {
    let default = "/home/player/.local/share/terminarium/save.txt";
    let real = path_for(default, 1);
    assert_eq!(real, default);
    let test = path_for(default, 60);
    assert_eq!(test, "/home/player/.local/share/terminarium/save.test.txt");
    // A bare file name has no directory to keep.
    assert_eq!(path_for("save.txt", 2), "save.test.txt");
}

#[test]
fn serialize_writes_every_key_once_in_order() {
    let text = serialize(&sample_state(), 987_654_321);
    assert_eq!(
        text,
        "v=4\nsaved_at=987654321\npopulation=3,1,0,0\npool=52000000,7,0,1\n\
         nutrient=1234567\ncollectable=42000000\ncurrency=120000001\nscore=12000000000\n\
         rocks=0:0,0:2\nage=137\nstarted=1\nanchor=250\n"
    );
}

#[test]
fn crlf_line_endings_read_the_same() {
    let p = Params::default();
    let good = serialize(&sample_state(), 5);
    let crlf = good.replace('\n', "\r\n");
    assert_eq!(parse(&crlf, &p), parse(&good, &p));
}

#[test]
fn a_plus_signed_number_reads_as_rust_reads_it() {
    let p = Params::default();
    let good = serialize(&sample_state(), 1);
    let (s, _) = parse(&good.replace("age=137", "age=+137"), &p).expect("a leading + is a number");
    assert_eq!(s.tick_count, 137);
}
