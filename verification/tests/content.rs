//! The shipped reef kinds: the progression table, and their save identity.

use terminarium::content::reef_kinds;
use terminarium::content::swimmers::tenants;
use terminarium::engine::MICRO;

#[test]
fn progression_registry_pins_cost_and_unlock() {
    let table: Vec<(&str, u32, u128)> =
        reef_kinds().iter().map(|k| (k.name, k.cost, k.unlock)).collect();
    assert_eq!(
        table,
        vec![
            ("rock", 1, 0),
            ("coral", 2, 12_000 * MICRO),
            ("kelp", 3, 30_000 * MICRO),
            ("grotto", 3, 40_000 * MICRO),
            ("lantern", 1, 100_000 * MICRO),
            ("lagoon", 2, 60_000 * MICRO),
        ],
        "the progression design moved — record the agreed row here"
    );
}

#[test]
fn shipped_kinds_keep_their_save_identity() {
    let names: Vec<&str> = reef_kinds().iter().map(|k| k.name).collect();
    assert!(names.starts_with(&["rock", "coral", "kelp"]));
}

#[test]
fn every_kind_sheds_and_houses_as_shipped() {
    let rows: Vec<(u128, [u32; 4])> = reef_kinds().iter().map(|k| (k.output, k.capacity)).collect();
    assert_eq!(
        rows,
        vec![
            (3 * MICRO, [4, 3, 2, 1]),
            (12 * MICRO, [2, 6, 5, 3]),
            (23 * MICRO, [9, 5, 2, 1]),
            (24 * MICRO, [2, 3, 7, 2]),
            (4 * MICRO, [4, 3, 2, 1]),
            (12 * MICRO, [4, 4, 6, 2]),
        ]
    );
}

#[test]
fn swimmer_defs_have_matching_cell_counts_and_in_range_accents() {
    for kind in 0..reef_kinds().len() {
        let (small, big) = tenants(kind);
        for swimmer in [small, big] {
            // Frame 0 is the swimmer's own look; one pulse period on is its
            // second, if it has one.
            let beat = swimmer.manner.pulse.as_ref().map_or(0, |pulse| pulse.period.max(1));
            for frame in [0, beat] {
                let look = swimmer.look(frame);
                let right_cells = look.right.chars().count();
                let left_cells = look.left.chars().count();
                assert_eq!(right_cells, left_cells, "kind {kind}: right/left cell counts must match");
                if let Some((index, _)) = swimmer.accent {
                    assert!(index < right_cells, "kind {kind}: accent index {index} is out of range");
                }
            }
        }
    }
}

#[test]
fn each_kind_houses_its_own_tenants() {
    let tiers: Vec<(&str, &str)> = (0..6).map(|k| {
        let (small, big) = tenants(k);
        (small.right, big.right)
    }).collect();
    assert_eq!(
        tiers,
        vec![
            ("><>", "><)))>"),
            ("><>", "><)))>"),
            ("><>", "=(__)o"),
            ("~>", "}}=:>"),
            ("><>", "><((>^*"),
            ("⢞⢛⢳", "=(<>)o"),
        ]
    );
    assert_eq!(tenants(6).1.right, tenants(0).1.right);
    assert_eq!(tenants(4).1.accent, Some((6, 228)));
}
