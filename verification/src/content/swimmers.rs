//! The swimmers the reef kinds house: each kind's small-fish tier and its
//! apex tier. Colors are 256-color palette indices.

use vstd::prelude::*;

use crate::content::creatures::{Dash, Drift, EarlyTurn, Look, Manner, Pulse};
use crate::scene::SwimmerDef;

verus! {

/// One appearance is drawable: its rows facing either way are the same
/// number of cells, and the accent cell, if any, lies inside them.
pub open spec fn look_well_drawn(l: Look, accent: Option<(usize, u8)>) -> bool {
    &&& l.right@.len() == l.left@.len()
    &&& match accent {
        Some((at, _)) => at < l.right@.len(),
        None => true,
    }
}

/// Both of a swimmer's appearances (its own, and its pulse's if it pulses)
/// are drawable.
pub open spec fn well_drawn(s: SwimmerDef) -> bool {
    &&& look_well_drawn(s.spec_own(), s.accent)
    &&& match s.manner.pulse {
        Some(p) => look_well_drawn(p.look, s.accent),
        None => true,
    }
}

/// The everyday fish: quick, low near its reef, dashing and turning early
/// on one lap in 24.
pub fn small_fish() -> (s: SwimmerDef)
    ensures
        well_drawn(s),
        s.slowdown == 1 && s.radius == 5 && s.reef_bias && s.color == 215 && s.accent is None,
        s.manner.drift.amplitude == 0 && s.manner.pulse is None && s.manner.under@.len() == 0,
        s.manner.dash == Some(Dash { span: 5, rarity: 24 }),
        s.manner.early_turn == Some(EarlyTurn { short: 3, rarity: 24 }),
{
    proof {
        reveal_strlit("><>");
        reveal_strlit("<><");
    }
    SwimmerDef {
        right: "><>",
        left: "<><",
        slowdown: 1,
        radius: 5,
        reef_bias: true,
        color: 215,
        accent: None,
        manner: Manner {
            dash: Some(Dash { span: 5, rarity: 24 }),
            early_turn: Some(EarlyTurn { short: 3, rarity: 24 }),
            ..Manner::plain()
        },
    }
}

/// The apex fish: slower and ranging wider and higher, dashing and turning
/// early on one lap in 12.
pub fn big_fish() -> (s: SwimmerDef)
    ensures
        well_drawn(s),
        s.slowdown == 2 && s.radius == 10 && !s.reef_bias && s.color == 209 && s.accent is None,
        s.manner.drift.amplitude == 0 && s.manner.pulse is None && s.manner.under@.len() == 0,
        s.manner.dash == Some(Dash { span: 6, rarity: 12 }),
        s.manner.early_turn == Some(EarlyTurn { short: 6, rarity: 12 }),
{
    proof {
        reveal_strlit("><)))>");
        reveal_strlit("<(((><");
    }
    SwimmerDef {
        right: "><)))>",
        left: "<(((><",
        slowdown: 2,
        radius: 10,
        reef_bias: false,
        color: 209,
        accent: None,
        manner: Manner {
            dash: Some(Dash { span: 6, rarity: 12 }),
            early_turn: Some(EarlyTurn { short: 6, rarity: 12 }),
            ..Manner::plain()
        },
    }
}

/// The kelp forest's grazer: a slow, wide patrol.
pub fn dugong() -> (s: SwimmerDef)
    ensures
        well_drawn(s),
        s.slowdown == 3 && s.radius == 10 && !s.reef_bias && s.color == 180,
        s.accent is None,
        s.manner.drift.amplitude == 0 && s.manner.pulse is None && s.manner.under@.len() == 0,
        s.manner.dash is None && s.manner.early_turn is None,
{
    proof {
        reveal_strlit("=(__)o");
        reveal_strlit("o(__)=");
    }
    SwimmerDef {
        right: "=(__)o",
        left: "o(__)=",
        slowdown: 3,
        radius: 10,
        reef_bias: false,
        color: 180,
        accent: None,
        manner: Manner::plain(),
    }
}

/// The grotto's small tier: a quick dart close to the cave mouth.
pub fn shrimp() -> (s: SwimmerDef)
    ensures
        well_drawn(s),
        s.slowdown == 1 && s.radius == 3 && s.reef_bias && s.color == 217,
        s.accent is None,
        s.manner.drift.amplitude == 0 && s.manner.pulse is None && s.manner.under@.len() == 0,
        s.manner.dash is None && s.manner.early_turn is None,
{
    proof {
        reveal_strlit("~>");
        reveal_strlit("<~");
    }
    SwimmerDef {
        right: "~>",
        left: "<~",
        slowdown: 1,
        radius: 3,
        reef_bias: true,
        color: 217,
        accent: None,
        manner: Manner::plain(),
    }
}

/// The grotto's apex: a long glide overhead.
pub fn squid() -> (s: SwimmerDef)
    ensures
        well_drawn(s),
        s.slowdown == 2 && s.radius == 12 && !s.reef_bias && s.color == 110,
        s.accent is None,
        s.manner.drift.amplitude == 0 && s.manner.pulse is None && s.manner.under@.len() == 0,
        s.manner.dash is None && s.manner.early_turn is None,
{
    proof {
        reveal_strlit("}}=:>");
        reveal_strlit("<:={{");
    }
    SwimmerDef {
        right: "}}=:>",
        left: "<:={{",
        slowdown: 2,
        radius: 12,
        reef_bias: false,
        color: 110,
        accent: None,
        manner: Manner::plain(),
    }
}

/// The lantern reef's apex; the seventh cell of its rightward row (the
/// trailing `*`) is the lure, lit in its own color.
pub fn anglerfish() -> (s: SwimmerDef)
    ensures
        well_drawn(s),
        s.slowdown == 3 && s.radius == 8 && !s.reef_bias && s.color == 102,
        s.accent == Some((6usize, 228u8)),
        s.manner.drift.amplitude == 0 && s.manner.pulse is None && s.manner.under@.len() == 0,
        s.manner.dash is None && s.manner.early_turn is None,
{
    proof {
        reveal_strlit("><((>^*");
        reveal_strlit("*^<))><");
    }
    SwimmerDef {
        right: "><((>^*",
        left: "*^<))><",
        slowdown: 3,
        radius: 8,
        reef_bias: false,
        color: 102,
        accent: Some((6, 228)),
        manner: Manner::plain(),
    }
}

/// The lagoon's apex: a slow, wide patrol overhead.
pub fn turtle() -> (s: SwimmerDef)
    ensures
        well_drawn(s),
        s.slowdown == 3 && s.radius == 10 && !s.reef_bias && s.color == 71,
        s.accent is None,
        s.manner.drift.amplitude == 0 && s.manner.pulse is None && s.manner.under@.len() == 0,
        s.manner.dash is None && s.manner.early_turn is None,
{
    proof {
        reveal_strlit("=(<>)o");
        reveal_strlit("o(<>)=");
    }
    SwimmerDef {
        right: "=(<>)o",
        left: "o(<>)=",
        slowdown: 3,
        radius: 10,
        reef_bias: false,
        color: 71,
        accent: None,
        manner: Manner::plain(),
    }
}

/// The lagoon's small tier: a two-row drifter that sways two rows either
/// way every 40 frames and pulses between two bells every 4.
pub fn jellyfish() -> (s: SwimmerDef)
    ensures
        well_drawn(s),
        s.slowdown == 4 && s.radius == 4 && s.reef_bias && s.color == 183 && s.accent is None,
        s.manner.drift == (Drift { amplitude: 2, period: 40 }),
        s.manner.under@.len() == 3,
        s.manner.pulse matches Some(p) && p.period == 4 && p.look.under@.len() == 2,
        s.manner.dash is None && s.manner.early_turn is None,
{
    proof {
        reveal_strlit("⢞⢛⢳");
        reveal_strlit("⠁⠃⠃");
        reveal_strlit("⠰⡛⡆");
        reveal_strlit("⠈⠊");
    }
    SwimmerDef {
        right: "⢞⢛⢳",
        left: "⢞⢛⢳",
        slowdown: 4,
        radius: 4,
        reef_bias: true,
        color: 183,
        accent: None,
        manner: Manner {
            drift: Drift { amplitude: 2, period: 40 },
            under: "⠁⠃⠃",
            pulse: Some(Pulse { look: Look { right: "⠰⡛⡆", left: "⠰⡛⡆", under: "⠈⠊" }, period: 4 }),
            dash: None,
            early_turn: None,
        },
    }
}

/// Kinds housing their swimmers, in kind order.
pub const KIND_COUNT: usize = 6;

/// A kind's two swimmer tiers, `(small, apex)`: rock and coral house the
/// everyday fish, kelp swaps in the dugong, the grotto its shrimp and squid,
/// the lantern reef its anglerfish and the lagoon its jellyfish and turtle.
/// An index past the end wraps. Every swimmer housed is drawable: both of
/// its appearances have matching left and right widths and an in-range
/// accent.
pub fn tenants(kind: usize) -> (t: (SwimmerDef, SwimmerDef))
    ensures
        well_drawn(t.0) && well_drawn(t.1),
        t.0.color == (match kind % KIND_COUNT {
            3 => 217u8,
            5 => 183u8,
            _ => 215u8,
        }),
        t.1.color == (match kind % KIND_COUNT {
            0 | 1 => 209u8,
            2 => 180u8,
            3 => 110u8,
            4 => 102u8,
            _ => 71u8,
        }),
{
    match kind % KIND_COUNT {
        0 | 1 => (small_fish(), big_fish()),
        2 => (small_fish(), dugong()),
        3 => (shrimp(), squid()),
        4 => (small_fish(), anglerfish()),
        _ => (jellyfish(), turtle()),
    }
}

} // verus!
