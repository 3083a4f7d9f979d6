//! Reef kind content: the economy row of every kind the game ships, in
//! manifest order. A kind's position in this list is its identity in a save
//! file (`Reef::kind` indexes it), so the list is append-only.

use vstd::prelude::*;

pub mod creatures;
pub mod swimmers;

use crate::engine::{ReefKind, MICRO};

verus! {

/// A kind's economy row: its name, placement cost, unlocking score, output
/// per tick and housing per species.
pub open spec fn is_kind(
    k: ReefKind,
    name: Seq<char>,
    cost: int,
    unlock: int,
    output: int,
    capacity: Seq<u32>,
) -> bool {
    &&& k.name@ == name
    &&& k.cost == cost
    &&& k.unlock == unlock
    &&& k.output == output
    &&& k.capacity@ == capacity
}

/// The kinds the game ships, in manifest order: rock, coral, kelp, grotto,
/// lantern, lagoon, each with its row.
pub open spec fn shipped_kinds(kinds: Seq<ReefKind>) -> bool {
    &&& kinds.len() == 6
    &&& is_kind(kinds[0], "rock"@, 1, 0, 3 * MICRO, seq![4u32, 3, 2, 1])
    &&& is_kind(kinds[1], "coral"@, 2, 12_000 * MICRO, 12 * MICRO, seq![2u32, 6, 5, 3])
    &&& is_kind(kinds[2], "kelp"@, 3, 30_000 * MICRO, 23 * MICRO, seq![9u32, 5, 2, 1])
    &&& is_kind(kinds[3], "grotto"@, 3, 40_000 * MICRO, 24 * MICRO, seq![2u32, 3, 7, 2])
    &&& is_kind(kinds[4], "lantern"@, 1, 100_000 * MICRO, 4 * MICRO, seq![4u32, 3, 2, 1])
    &&& is_kind(kinds[5], "lagoon"@, 2, 60_000 * MICRO, 12 * MICRO, seq![4u32, 4, 6, 2])
}

/// Plain rock: the founding reef, placeable from score 0.
pub fn rock() -> (k: ReefKind)
    ensures
        is_kind(k, "rock"@, 1, 0, 3 * MICRO, seq![4u32, 3, 2, 1]),
{
    let k = ReefKind { name: "rock", cost: 1, unlock: 0, output: 3 * MICRO, capacity: [4, 3, 2, 1] };
    assert(k.capacity@ =~= seq![4u32, 3, 2, 1]);
    k
}

/// Coral: the first wall's reward, denser housing for the middle of the chain.
pub fn coral() -> (k: ReefKind)
    ensures
        is_kind(k, "coral"@, 2, 12_000 * MICRO, 12 * MICRO, seq![2u32, 6, 5, 3]),
{
    let k = ReefKind {
        name: "coral",
        cost: 2,
        unlock: 12_000 * MICRO,
        output: 12 * MICRO,
        capacity: [2, 6, 5, 3],
    };
    assert(k.capacity@ =~= seq![2u32, 6, 5, 3]);
    k
}

/// Kelp: a forest of blades with a grazer for its apex.
pub fn kelp() -> (k: ReefKind)
    ensures
        is_kind(k, "kelp"@, 3, 30_000 * MICRO, 23 * MICRO, seq![9u32, 5, 2, 1]),
{
    let k = ReefKind {
        name: "kelp",
        cost: 3,
        unlock: 30_000 * MICRO,
        output: 23 * MICRO,
        capacity: [9, 5, 2, 1],
    };
    assert(k.capacity@ =~= seq![9u32, 5, 2, 1]);
    k
}

/// Grotto: a hollowed stone that houses the small tier many over.
pub fn grotto() -> (k: ReefKind)
    ensures
        is_kind(k, "grotto"@, 3, 40_000 * MICRO, 24 * MICRO, seq![2u32, 3, 7, 2]),
{
    let k = ReefKind {
        name: "grotto",
        cost: 3,
        unlock: 40_000 * MICRO,
        output: 24 * MICRO,
        capacity: [2, 3, 7, 2],
    };
    assert(k.capacity@ =~= seq![2u32, 3, 7, 2]);
    k
}

/// Lantern: a branch of twinkling moss with an anglerfish for its apex.
pub fn lantern() -> (k: ReefKind)
    ensures
        is_kind(k, "lantern"@, 1, 100_000 * MICRO, 4 * MICRO, seq![4u32, 3, 2, 1]),
{
    let k = ReefKind {
        name: "lantern",
        cost: 1,
        unlock: 100_000 * MICRO,
        output: 4 * MICRO,
        capacity: [4, 3, 2, 1],
    };
    assert(k.capacity@ =~= seq![4u32, 3, 2, 1]);
    k
}

/// Lagoon: a low sandbar with drifting jellyfish and a turtle over them.
pub fn lagoon() -> (k: ReefKind)
    ensures
        is_kind(k, "lagoon"@, 2, 60_000 * MICRO, 12 * MICRO, seq![4u32, 4, 6, 2]),
{
    let k = ReefKind {
        name: "lagoon",
        cost: 2,
        unlock: 60_000 * MICRO,
        output: 12 * MICRO,
        capacity: [4, 4, 6, 2],
    };
    assert(k.capacity@ =~= seq![4u32, 4, 6, 2]);
    k
}

/// The economy rows of every kind, in manifest order: what
/// `Params::default` fills `reef_kinds` with.
pub fn reef_kinds() -> (kinds: Vec<ReefKind>)
    ensures
        shipped_kinds(kinds@),
{
    vec![rock(), coral(), kelp(), grotto(), lantern(), lagoon()]
}

} // verus!
