//! Where things sit in the tank: the drift, the patrol and its quirks, the
//! whale's windows, the colony fan, and the sprite caps.

use terminarium::content::creatures::{Dash, Drift, EarlyTurn, Look, Manner, Pulse};
use terminarium::content::swimmers::{big_fish, jellyfish, small_fish};
use terminarium::engine::{Params, Reef, State, MICRO, SLOTS};
use terminarium::scene::{
    algae_count, algae_height, algae_sway, anchor_center, colony_column, detritus_count,
    detritus_x, drift_offset, drift_row, mix, shown, wave_at, whale_due, whale_x, patrol_offset, patrol_place, quirk_open, quirk_roll,
    reef_centroid_x, sediment_span, slot_center_x, swimmer_id, whale_crossing, Area, SwimmerDef, DASH_SALT, EARLY_TURN_SALT,
    MAX_ALGAE, MAX_BIG_FISH, MAX_PLANKTON, MAX_SMALL_FISH, SEDIMENT_PER_CELL, WHALE_RARITY,
};

fn plain() -> Manner {
    Manner::plain()
}

fn quirky(dash: Option<Dash>, early_turn: Option<EarlyTurn>) -> SwimmerDef {
    SwimmerDef {
        right: "><>",
        left: "<><",
        slowdown: 1,
        radius: 5,
        reef_bias: true,
        color: 200,
        accent: None,
        manner: Manner { dash, early_turn, ..plain() },
    }
}

fn offsets(swimmer: &SwimmerDef, id: u64, travel: i64, frames: u64) -> Vec<i64> {
    (0..frames)
        .map(|f| patrol_offset(swimmer.slowdown, &swimmer.manner, id, 0, travel, f).0)
        .collect()
}

fn widest_step(trace: &[i64]) -> i64 {
    trace.windows(2).map(|w| (w[1] - w[0]).abs()).max().unwrap_or(0)
}

#[test]
fn drift_sweeps_its_amplitude_and_returns() {
    let drift = Drift { amplitude: 2, period: 40 };
    let offsets: Vec<i64> = (0..40).map(|f| drift_offset(&drift, f)).collect();
    assert_eq!(offsets.iter().copied().min(), Some(-2));
    assert_eq!(offsets.iter().copied().max(), Some(2));
    let peak = offsets.iter().position(|&v| v == 2).expect("a peak");
    assert!(offsets[..=peak].windows(2).all(|w| w[1] >= w[0]));
    assert!(offsets[peak..].windows(2).all(|w| w[1] <= w[0]));
    assert!(offsets.windows(2).all(|w| (w[1] - w[0]).abs() <= 1));
    assert_eq!(offsets, (40..80).map(|f| drift_offset(&drift, f)).collect::<Vec<_>>());
    for frame in 0..100 {
        assert_eq!(drift_offset(&Drift::still(), frame), 0);
    }
}

#[test]
fn a_swimmer_without_quirks_keeps_the_plain_beat() {
    let travel = 10;
    let plain = quirky(None, None);
    for swimmer in [&jellyfish(), &plain] {
        for id in [0u64, 7, 1_234_567] {
            for frame in 0..400u64 {
                let step = ((frame / swimmer.slowdown) % (2 * travel) as u64) as i64;
                let want = if step < travel { (step, true) } else { (2 * travel - step, false) };
                assert_eq!(patrol_offset(swimmer.slowdown, &swimmer.manner, id, 0, travel, frame), want);
            }
        }
    }
}

#[test]
fn a_dash_doubles_a_stride_and_gives_the_ground_back_inside_its_lap() {
    let travel = 10;
    let lap = 2 * travel as u64;
    let fish = quirky(Some(Dash { span: 5, rarity: 1 }), None);
    let plain = quirky(None, None);
    for id in [1u64, 2, 3, 99] {
        let dashed = offsets(&fish, id, travel, 6 * lap);
        let bare = offsets(&plain, id, travel, 6 * lap);
        assert_ne!(dashed, bare);
        for l in 0..6 {
            let seam = (l * lap) as usize;
            assert_eq!(dashed[seam], bare[seam]);
        }
        assert_eq!(widest_step(&dashed), 2);
        assert!(dashed.iter().all(|&x| (0..=travel).contains(&x)));
        for l in 0..6 {
            let seam = (l * lap) as usize;
            assert_eq!(widest_step(&dashed[seam..seam + lap as usize]), 2);
        }
    }
}

#[test]
fn an_early_turn_stops_short_without_moving_the_window() {
    let fish = quirky(None, Some(EarlyTurn { short: 3, rarity: 1 }));
    let travel = 10;
    let trace = offsets(&fish, 4, travel, 5 * (2 * travel) as u64);
    assert_eq!(trace.iter().copied().max(), Some(travel - 3));
    assert_eq!(trace.iter().copied().min(), Some(0));
    assert_eq!(widest_step(&trace), 1);
    let narrow = offsets(&fish, 4, 4, 40);
    assert_eq!(narrow.iter().copied().max(), Some(2));
}

#[test]
fn a_quirk_belongs_to_one_swimmer_not_the_shoal() {
    let others = [Reef { kind: 0, slot: 5 }, Reef { kind: 1, slot: 4 }, Reef { kind: 0, slot: 4 }];
    let reef = Reef { kind: 0, slot: 4 };
    let mine: Vec<u64> = (0..400)
        .filter(|&lap| quirk_open(quirk_roll(swimmer_id(&reef, 0), lap, DASH_SALT), 8))
        .collect();
    assert!(!mine.is_empty());
    for (i, other) in others.iter().enumerate() {
        let ordinal = u64::from(i == 2);
        let theirs: Vec<u64> = (0..400)
            .filter(|&lap| quirk_open(quirk_roll(swimmer_id(other, ordinal), lap, DASH_SALT), 8))
            .collect();
        let shared = mine.iter().filter(|lap| theirs.contains(lap)).count();
        assert!(shared * 2 < mine.len());
    }
}

#[test]
fn quirk_windows_open_on_roughly_one_lap_in_k() {
    const LAPS: u64 = 10_000;
    let mut cases: Vec<(u64, u64)> = Vec::new();
    for swimmer in [small_fish(), big_fish()] {
        cases.push((swimmer.manner.dash.expect("a dash").rarity, DASH_SALT));
        cases.push((swimmer.manner.early_turn.expect("a turn").rarity, EARLY_TURN_SALT));
    }
    for (rarity, salt) in cases {
        let id = swimmer_id(&Reef { kind: 0, slot: 4 }, 0);
        let open = (0..LAPS).filter(|&lap| quirk_open(quirk_roll(id, lap, salt), rarity)).count() as u64;
        let expected = LAPS / rarity;
        assert!(open > expected * 4 / 5 && open < expected * 6 / 5);
    }
}

#[test]
fn a_quirked_fish_stays_inside_its_window_and_sweeps_it_all() {
    const FRAMES: u64 = 20_000;
    for swimmer in [small_fish(), big_fish()] {
        for travel in [1i64, 3, 7, 10, 20] {
            let id = swimmer_id(&Reef { kind: 0, slot: 4 }, 0);
            let trace = offsets(&swimmer, id, travel, FRAMES);
            assert!(trace.iter().all(|&x| (0..=travel).contains(&x)));
            assert!(widest_step(&trace) <= 2);
            assert_eq!(trace.iter().copied().min(), Some(0));
            assert_eq!(trace.iter().copied().max(), Some(travel));

            // Not a vacuous scan: both windows opened inside it.
            let laps = FRAMES / (2 * travel as u64 * swimmer.slowdown);
            for (rarity, salt) in [
                (swimmer.manner.dash.as_ref().expect("a dash").rarity, DASH_SALT),
                (swimmer.manner.early_turn.as_ref().expect("a turn").rarity, EARLY_TURN_SALT),
            ] {
                let open = (0..laps).filter(|&lap| quirk_open(quirk_roll(id, lap, salt), rarity)).count();
                assert!(open > 0, "a quirk never fired in {laps} laps (travel {travel})");
            }
        }
    }
}

#[test]
fn whale_crossings_are_roughly_one_in_k_windows() {
    const WINDOWS: u64 = 10_000;
    let crossings = (0..WINDOWS).filter(|&w| whale_crossing(w).is_some()).count() as u64;
    let expected = WINDOWS / WHALE_RARITY;
    assert!(crossings > expected * 4 / 5 && crossings < expected * 6 / 5);
}

#[test]
fn whale_heading_is_not_stuck_one_way() {
    let (mut right, mut left) = (0u64, 0u64);
    for w in 0..10_000 {
        match whale_crossing(w) {
            Some(true) => right += 1,
            Some(false) => left += 1,
            None => {}
        }
    }
    assert!(right > 0 && left > 0);
    let total = right + left;
    assert!(right * 5 > total * 2 && left * 5 > total * 2);
}

#[test]
fn sprite_caps_cover_every_reachable_population() {
    let p = Params::default();
    let max_budget = p.budget_steps.iter().map(|&(_, b)| b).max().expect("a budget schedule");
    let species = p.reef_kinds[0].capacity.len();

    fn walk(p: &Params, start: usize, budget: u32, slots: u32, caps: &[u32], best: &mut [u32]) {
        for (b, &c) in best.iter_mut().zip(caps.iter()) {
            *b = (*b).max(c);
        }
        if slots == 0 {
            return;
        }
        for kind in start..p.reef_kinds.len() {
            let rk = &p.reef_kinds[kind];
            if rk.cost <= budget {
                let next: Vec<u32> = caps.iter().zip(rk.capacity.iter()).map(|(a, c)| a + c).collect();
                walk(p, kind, budget - rk.cost, slots - 1, &next, best);
            }
        }
    }

    let zero = vec![0u32; species];
    let mut best = zero.clone();
    walk(&p, 0, max_budget, u32::from(SLOTS), &zero, &mut best);
    let caps = [MAX_ALGAE, MAX_PLANKTON, MAX_SMALL_FISH, MAX_BIG_FISH];
    for (&reach, &cap) in best.iter().zip(caps.iter()) {
        assert!(u64::from(reach) <= cap);
    }
}

#[test]
fn a_braille_swimmer_is_measured_in_cells() {
    let jelly = jellyfish();
    assert_eq!(jelly.footprint(), (3, 2));
    let area = Area { x: 0, y: 0, width: 6, height: 12 };
    let placed = patrol_place(area, 0, &Reef { kind: 0, slot: 4 }, 0, &jelly).expect("it fits");
    assert!(placed.x >= 0 && placed.x + 3 <= 6, "all three cells of the bell fit");
}

#[test]
fn a_pulse_changes_the_sprite_it_draws() {
    let jelly = jellyfish();
    assert_eq!(jelly.look(0).right, "⢞⢛⢳");
    assert_eq!(jelly.look(4).right, "⠰⡛⡆");
    assert_eq!(jelly.look(8).right, "⢞⢛⢳");
    assert_eq!(jelly.look(4).under, "⠈⠊");
}

#[test]
fn slots_center_on_the_floor_and_colonies_fan_out() {
    let area = Area { x: 0, y: 0, width: 40, height: 12 };
    assert_eq!(slot_center_x(area, 0), 2);
    assert_eq!(slot_center_x(area, 4), 20);
    assert_eq!(slot_center_x(area, 8), 37);
    // +2, -2, +3, -3, ... skipping what falls off the pane.
    assert_eq!(colony_column(area, 20, 0), Some(22));
    assert_eq!(colony_column(area, 20, 1), Some(18));
    assert_eq!(colony_column(area, 20, 2), Some(23));
    assert_eq!(colony_column(area, 1, 0), Some(3));
    assert_eq!(colony_column(area, 1, 1), Some(4));
    let thin = Area { x: 0, y: 0, width: 3, height: 5 };
    assert_eq!(colony_column(thin, 0, 0), Some(2));
    assert_eq!(colony_column(thin, 0, 1), None);
}

#[test]
fn a_placed_swimmer_always_fits_the_pane() {
    for (w, h) in [(40u16, 12u16), (20, 8), (100, 30)] {
        let area = Area { x: 0, y: 0, width: w, height: h };
        for swimmer in [small_fish(), big_fish(), jellyfish()] {
            let (span, rows) = swimmer.footprint();
            for frame in 0..200 {
                for ordinal in 0..4 {
                    if let Some(pl) = patrol_place(area, frame, &Reef { kind: 0, slot: 8 }, ordinal, &swimmer) {
                        assert!(pl.x >= 0 && pl.x + span as i64 <= i64::from(w));
                        assert!(pl.y >= 1 && pl.y + rows <= h - 1);
                    }
                }
            }
        }
    }
}

fn pane40() -> Area {
    Area { x: 0, y: 0, width: 40, height: 12 }
}

#[test]
fn reef_centroid_is_the_mean_slot_column() {
    let one = vec![Reef { kind: 0, slot: 4 }];
    assert_eq!(reef_centroid_x(pane40(), &one), 20);
    let two = vec![Reef { kind: 0, slot: 0 }, Reef { kind: 1, slot: 8 }];
    assert_eq!(reef_centroid_x(pane40(), &two), 19);
    let shifted = Area { x: 5, y: 0, width: 40, height: 12 };
    assert_eq!(reef_centroid_x(shifted, &two), 24);
}

#[test]
fn sediment_mound_centers_under_the_reefs() {
    let one = vec![Reef { kind: 0, slot: 4 }];
    assert_eq!(sediment_span(pane40(), 3 * SEDIMENT_PER_CELL, &one), Some((19, 3)));
    assert_eq!(sediment_span(pane40(), 3 * SEDIMENT_PER_CELL + 1, &one), Some((19, 3)));
}

#[test]
fn sediment_needs_a_reef_and_a_full_cell() {
    let one = vec![Reef { kind: 0, slot: 4 }];
    assert_eq!(sediment_span(pane40(), SEDIMENT_PER_CELL - 1, &one), None);
    assert_eq!(sediment_span(pane40(), 10 * SEDIMENT_PER_CELL, &Vec::new()), None);
}

#[test]
fn sediment_is_clamped_to_the_pane() {
    let left = vec![Reef { kind: 0, slot: 0 }];
    assert_eq!(sediment_span(pane40(), u128::MAX, &left), Some((0, 38)));
    let right = vec![Reef { kind: 0, slot: 8 }];
    assert_eq!(sediment_span(pane40(), 10 * SEDIMENT_PER_CELL, &right), Some((30, 10)));
    let narrow = Area { x: 0, y: 0, width: 1, height: 12 };
    assert_eq!(sediment_span(narrow, u128::MAX, &left), None);
}

#[test]
fn surface_crests_cover_two_columns_in_five() {
    assert!(wave_at(0, 0));
    assert!(wave_at(1, 0));
    assert!(!wave_at(2, 0));
    assert!(!wave_at(4, 0));
    assert!(wave_at(3, 4));
    assert!(!wave_at(3, 2));
}

#[test]
fn shown_counts_are_capped() {
    assert_eq!(shown(3, MAX_PLANKTON), 3);
    assert_eq!(shown(300, MAX_PLANKTON), MAX_PLANKTON);
    assert_eq!(algae_count(30, 40), 10);
    assert_eq!(algae_count(5, 100), 5);
    assert_eq!(algae_count(500, 200), MAX_ALGAE);
    assert_eq!(algae_count(5, 3), 0);
}

#[test]
fn algae_heights_and_sway() {
    assert_eq!(algae_height(0, 12), 2);
    assert_eq!(algae_height(1, 12), 3);
    assert_eq!(algae_height(1, 3), 2);
    assert_eq!(algae_height(1, 1), 0);
    assert!(algae_sway(0, 0, 0));
    assert!(!algae_sway(4, 0, 0));
    assert!(!algae_sway(0, 1, 0));
    assert!(algae_sway(0, 1, 1));
}

#[test]
fn drifters_cycle_through_the_middle_rows() {
    let area = pane40();
    assert_eq!(drift_row(area, mix(0, 13), 100, 3), 10);
    assert_eq!(drift_row(area, mix(1, 29), 100, 2), 6);
    assert_eq!(drift_row(area, u64::MAX, 3, 1), 3);
    let low = Area { x: 0, y: 7, width: 40, height: 2 };
    assert_eq!(drift_row(low, 12345, 999, 3), 8);
}

#[test]
fn detritus_specks_fall_near_their_reef() {
    assert_eq!(detritus_count(0), 1);
    assert_eq!(detritus_count(15 * 1_000_000 - 1), 1);
    assert_eq!(detritus_count(15 * 1_000_000), 2);
    assert_eq!(detritus_count(u128::MAX), 5);
    assert_eq!(detritus_x(20, 0), 22);
    assert_eq!(detritus_x(20, 3), 18);
}

#[test]
fn whale_enters_from_the_edge_it_heads_away_from() {
    assert_eq!(whale_x(40, 0, true), -23);
    assert_eq!(whale_x(40, 8, true), -21);
    assert_eq!(whale_x(40, 8, false), 38);
    assert_eq!(whale_x(40, 960 + 8, false), 38);
}

#[test]
fn anchor_column_is_per_mille_of_the_width() {
    assert_eq!(anchor_center(pane40(), 800), 32);
    assert_eq!(anchor_center(Area { x: 5, y: 0, width: 40, height: 12 }, 0), 5);
    assert_eq!(anchor_center(Area { x: 0, y: 0, width: 100, height: 12 }, 999), 99);
}

/// A drifter composed here: the jellyfish's three modifiers at whatever
/// amplitude, period and pulse period the test names.
fn drifter(amplitude: i64, period: u64, pulse_period: u64) -> SwimmerDef {
    SwimmerDef {
        right: "(o)",
        left: "(o)",
        slowdown: 4,
        radius: 4,
        reef_bias: true,
        color: 200,
        accent: None,
        manner: Manner {
            drift: Drift { amplitude, period },
            under: "\\|/",
            pulse: Some(Pulse { look: Look { right: "[o]", left: "[o]", under: "|" }, period: pulse_period }),
            ..plain()
        },
    }
}

/// The rows one swimmer draws at `frame`, top first, with their glyphs.
fn sprite_rows(swimmer: &SwimmerDef, area: Area, frame: u64) -> Vec<(u16, String)> {
    let reef = Reef { kind: 0, slot: 4 };
    let Some(place) = patrol_place(area, frame, &reef, 0, swimmer) else {
        return Vec::new();
    };
    let body = if place.rightward { place.look.right } else { place.look.left };
    let mut rows = vec![(place.y, body.to_string())];
    if !place.look.under.is_empty() {
        rows.push((place.y + 1, place.look.under.to_string()));
    }
    rows
}

#[test]
fn a_second_drifter_is_data_alone() {
    let area = Area { x: 0, y: 0, width: 40, height: 20 };
    let gentle = drifter(1, 20, 2);
    let wide = drifter(3, 24, 5);

    for (swimmer, amplitude) in [(&gentle, 1), (&wide, 3)] {
        let tops: Vec<u16> = (0..48).map(|f| sprite_rows(swimmer, area, f)[0].0).collect();
        let (lo, hi) = (
            tops.iter().copied().min().expect("a row"),
            tops.iter().copied().max().expect("a row"),
        );
        assert_eq!(i64::from(hi - lo), 2 * amplitude, "amplitude {amplitude} must swing {} rows", 2 * amplitude);
        for frame in 0..48 {
            let rows = sprite_rows(swimmer, area, frame);
            assert_eq!(rows.len(), 2, "frame {frame}: a two-row sprite draws two");
            assert_eq!(rows[1].0, rows[0].0 + 1, "frame {frame}: rows are adjacent");
        }
    }

    let bodies = |swimmer: &SwimmerDef, upto: u64| -> Vec<String> {
        (0..upto).map(|f| sprite_rows(swimmer, area, f)[0].1.clone()).collect()
    };
    assert_eq!(
        bodies(&gentle, 8),
        vec!["(o)", "(o)", "[o]", "[o]", "(o)", "(o)", "[o]", "[o]"]
            .into_iter()
            .map(String::from)
            .collect::<Vec<_>>(),
        "period 2 holds each appearance for two frames"
    );
    assert_eq!(
        bodies(&wide, 10),
        vec!["(o)", "(o)", "(o)", "(o)", "(o)", "[o]", "[o]", "[o]", "[o]", "[o]"]
            .into_iter()
            .map(String::from)
            .collect::<Vec<_>>(),
        "period 5 holds each appearance for five frames"
    );
}

#[test]
fn the_whale_waits_for_a_living_sea() {
    let p = Params::default();
    let mut s = State::new();
    assert!(!whale_due(&s, &p));
    s.pool = [100 * MICRO, 100 * MICRO, 100 * MICRO, 100 * MICRO - 1];
    assert!(!whale_due(&s, &p));
    s.pool[3] += 1;
    assert!(whale_due(&s, &p));
    s.pool = [u128::MAX, u128::MAX, 0, 0];
    assert!(whale_due(&s, &p));
}

#[test]
fn a_colony_never_shares_a_column() {
    let area = Area { x: 0, y: 0, width: 40, height: 12 };
    for center in [0i64, 5, 20, 39] {
        let cols: Vec<i64> = (0..40).filter_map(|k| colony_column(area, center, k)).collect();
        for (i, a) in cols.iter().enumerate() {
            assert!(!cols[i + 1..].contains(a), "center {center}: column {a} twice");
        }
    }
}
