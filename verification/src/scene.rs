//! The arithmetic of the pictures: where things sit in the tank. Every
//! position is a pure function of the state, the pane and the frame (a seeded
//! hash, never a clock or a random stream), which is what makes a picture
//! reproducible. Drawing glyphs in colors is the renderer's.

use vstd::prelude::*;

use crate::content::creatures::{footprint, look_at, spec_look_at, Dash, Drift, Look, Manner, Pulse};
use crate::engine::params::{Params, MICRO, SLOTS, SPECIES};
use crate::engine::state::{Reef, State};

verus! {

/// On-screen sprite caps: each sits at or above the largest population the
/// default parameters can field, so a bought individual always shows.
pub const MAX_ALGAE: u64 = 20;

pub const MAX_PLANKTON: u64 = 15;

pub const MAX_SMALL_FISH: u64 = 14;

pub const MAX_BIG_FISH: u64 = 7;

/// Collectable surplus one cell of floor sediment stands for.
pub const SEDIMENT_PER_CELL: u128 = 30 * MICRO;

/// The whale's nominal width, and the shortest pane that shows it.
pub const WHALE_WIDTH: i64 = 23;

pub const WHALE_MIN_HEIGHT: u16 = 8;

/// Frames per crossing window; a crossing happens in one window in
/// `WHALE_RARITY`; the whale moves a column every `WHALE_SLOWDOWN` frames.
pub const WHALE_PERIOD: u64 = 960;

pub const WHALE_RARITY: u64 = 32;

pub const WHALE_SLOWDOWN: u64 = 4;

/// Hash salts: the whale's window gate, and one per quirk so a swimmer
/// wearing both does not dash and turn back on the same laps.
pub const WHALE_SALT: u64 = 41;

pub const DASH_SALT: u64 = 71;

pub const EARLY_TURN_SALT: u64 = 89;

/// A rectangle of the pane, in cells.
#[derive(Clone, Copy, Debug, PartialEq, Eq, Structural)]
pub struct Area {
    pub x: u16,
    pub y: u16,
    pub width: u16,
    pub height: u16,
}

impl Area {
    /// The rectangle lies on the `u16` grid.
    pub open spec fn wf(self) -> bool {
        self.x + self.width <= u16::MAX && self.y + self.height <= u16::MAX
    }

    pub open spec fn right(self) -> int {
        self.x + self.width
    }

    pub open spec fn bottom(self) -> int {
        self.y + self.height
    }
}

/// The position hash's three multipliers.
pub const MIX_A: u64 = 0x9E37_79B9_7F4A_7C15;

pub const MIX_B: u64 = 0xD6E8_FEB8_6659_FD93;

pub const MIX_C: u64 = 0x2545_F491_4F6C_DD1D;

/// `x` rotated left by 31 bits.
pub open spec fn rotl31(x: u64) -> u64 {
    (x << 31u64) | (x >> 33u64)
}

pub open spec fn spec_mix(i: u64, salt: u64) -> u64 {
    rotl31(i.wrapping_mul(MIX_A) ^ salt.wrapping_mul(MIX_B)).wrapping_mul(MIX_C)
}

/// Deterministic position hash: the whole animation is a pure function of
/// (state, frame), never of wall clock or a random stream.
pub fn mix(i: u64, salt: u64) -> (h: u64)
    ensures
        h == spec_mix(i, salt),
{
    let a = i.wrapping_mul(MIX_A) ^ salt.wrapping_mul(MIX_B);
    let r = (a << 31u64) | (a >> 33u64);
    r.wrapping_mul(MIX_C)
}

/// One swimmer's identity, folded from its host reef's kind and slot and its
/// ordinal within that reef's tier.
pub open spec fn spec_swimmer_id(reef: Reef, ordinal: u64) -> u64 {
    spec_mix(reef.kind as u64, spec_mix(reef.slot as u64, ordinal))
}

pub fn swimmer_id(reef: &Reef, ordinal: u64) -> (id: u64)
    ensures
        id == spec_swimmer_id(*reef, ordinal),
{
    mix(reef.kind as u64, mix(reef.slot as u64, ordinal))
}

/// The one hash behind a quirk's window on `lap` for swimmer `id`: its high
/// half folded over its low half, so the low half (which gates the rarity)
/// carries every input bit; the high half is the freedom inside an open
/// window.
pub open spec fn spec_quirk_roll(id: u64, lap: u64, salt: u64) -> u64 {
    let h = spec_mix(lap, spec_mix(id, salt));
    h ^ (h >> 32u64)
}

pub fn quirk_roll(id: u64, lap: u64, salt: u64) -> (r: u64)
    ensures
        r == spec_quirk_roll(id, lap, salt),
{
    let h = mix(lap, mix(id, salt));
    h ^ (h >> 32u64)
}

/// Whether a quirk's window is open: one lap in `rarity` (a 0 rarity is read
/// as 1).
pub open spec fn spec_quirk_open(roll: u64, rarity: u64) -> bool {
    let k = if rarity == 0 {
        1
    } else {
        rarity
    };
    roll % k == 0
}

pub fn quirk_open(roll: u64, rarity: u64) -> (b: bool)
    ensures
        b == spec_quirk_open(roll, rarity),
{
    let k = if rarity == 0 {
        1
    } else {
        rarity
    };
    roll % k == 0
}

/// Whether a whale crosses in `window`, and if so its heading (`true` =
/// rightward): the hash's low bits gate the rarity, its top bit picks the
/// heading.
pub open spec fn spec_whale_crossing(window: u64) -> Option<bool> {
    let h = spec_mix(window, WHALE_SALT);
    if h % WHALE_RARITY != 0 {
        None
    } else {
        Some(h >> 63u64 == 0)
    }
}

pub fn whale_crossing(window: u64) -> (c: Option<bool>)
    ensures
        c == spec_whale_crossing(window),
{
    let h = mix(window, WHALE_SALT);
    if h % WHALE_RARITY != 0 {
        return None;
    }
    Some(h >> 63u64 == 0)
}

/// The vertical sway a drift adds at `frame`: a triangle wave in whole rows,
/// rising to `+amplitude` and falling to `-amplitude` once per period.
pub open spec fn spec_drift_offset(amplitude: int, period: u64, frame: u64) -> int {
    if amplitude == 0 {
        0
    } else {
        let p: int = if period == 0 {
            1
        } else {
            period as int
        };
        let span = 2 * amplitude;
        let t = (frame % (p as u64)) as int;
        let walk = (2 * t * span) / p;
        let rise = if walk <= span {
            walk
        } else {
            2 * span - walk
        };
        rise - amplitude
    }
}

/// The vertical sway `drift` adds to a swimmer's lane at `frame`. It reads
/// the frame and nothing else, so a bloom drifts as one and distinct lanes
/// per ordinal keep sprites off each other.
pub fn drift_offset(drift: &Drift, frame: u64) -> (o: i64)
    requires
        0 <= drift.amplitude,
        4 * (if drift.period == 0 {
            1
        } else {
            drift.period
        }) * drift.amplitude <= i64::MAX,
    ensures
        o == spec_drift_offset(drift.amplitude as int, drift.period, frame),
        -drift.amplitude <= o <= drift.amplitude,
{
    if drift.amplitude == 0 {
        return 0;
    }
    let period: u64 = if drift.period == 0 {
        1
    } else {
        drift.period
    };
    proof {
        assert(period <= i64::MAX / 4 && 2 * drift.amplitude <= i64::MAX / 2) by (nonlinear_arith)
            requires
                4 * period * drift.amplitude <= i64::MAX,
                period >= 1,
                drift.amplitude >= 1,
        ;
    }
    let span = 2 * drift.amplitude;
    let t = (frame % period) as i64;
    proof {
        assert(2 * t * span <= 4 * period * drift.amplitude) by (nonlinear_arith)
            requires
                0 <= t < period,
                span == 2 * drift.amplitude,
                drift.amplitude > 0,
        ;
        assert(0 <= 2 * t * span) by (nonlinear_arith)
            requires
                0 <= t,
                0 < span,
        ;
    }
    let walk = (2 * t * span) / period as i64;
    proof {
        assert(walk <= 2 * span) by (nonlinear_arith)
            requires
                walk == (2 * t * span) / (period as int),
                0 <= t < period,
                0 < span,
        ;
    }
    let rise = if walk <= span {
        walk
    } else {
        2 * span - walk
    };
    rise - drift.amplitude
}

/// How a dash paces the lap it falls in: two columns a step over the burst,
/// that ground handed back a column at a time over the rest of the lap.
pub open spec fn spec_dash_warp(dash_span: u64, freedom: u64, step: int, lap_steps: int) -> int {
    let half = lap_steps / 2;
    let span: int = if dash_span <= half {
        dash_span as int
    } else {
        half
    };
    if span == 0 {
        step
    } else {
        let start = (freedom % ((lap_steps - 2 * span + 1) as u64)) as int;
        let d = step - start;
        let gained = if d < 0 {
            0
        } else if d > span {
            span
        } else {
            d
        };
        let over = d - span;
        let repaid_over = lap_steps - start - span;
        let repaid = span * (if over > 0 {
            over
        } else {
            0
        }) / repaid_over;
        step + gained - repaid
    }
}

/// The laps a quirk computes over are short enough that their products fit.
pub open spec fn lap_fits(lap_steps: int) -> bool {
    2 <= lap_steps && lap_steps * lap_steps <= i64::MAX
}

/// How a dash paces the lap it falls in. The result is monotone in `step` and
/// pinned at both ends of the lap, so a dashing lap opens and closes exactly
/// where a plain one would; `freedom` picks where in the lap the burst falls.
pub fn dash_warp(dash: &Dash, freedom: u64, step: i64, lap_steps: i64) -> (r: i64)
    requires
        lap_fits(lap_steps as int),
        0 <= step <= lap_steps,
    ensures
        r == spec_dash_warp(dash.span, freedom, step as int, lap_steps as int),
        0 <= r <= lap_steps,
{
    proof {
        assert(lap_steps <= i64::MAX / 4) by (nonlinear_arith)
            requires
                lap_steps * lap_steps <= i64::MAX,
                lap_steps >= 2,
        ;
    }
    let half = (lap_steps / 2) as u64;
    let span: i64 = if dash.span <= half {
        dash.span as i64
    } else {
        half as i64
    };
    if span == 0 {
        return step;
    }
    let start = (freedom % ((lap_steps - 2 * span + 1) as u64)) as i64;
    let d = step - start;
    let gained = if d < 0 {
        0
    } else if d > span {
        span
    } else {
        d
    };
    let over = d - span;
    let repaid_over = lap_steps - start - span;
    let k: i64 = if over > 0 {
        over
    } else {
        0
    };
    proof {
        lemma_dash_bounds(span as int, start as int, step as int, lap_steps as int);
        assert(span * k <= lap_steps * lap_steps) by (nonlinear_arith)
            requires
                0 < span <= lap_steps,
                0 <= k <= lap_steps,
        ;
        assert(0 <= span * k) by (nonlinear_arith)
            requires
                0 < span,
                0 <= k,
        ;
    }
    let repaid = span * k / repaid_over;
    proof {
        lemma_dash_in_lap(span as int, start as int, step as int, lap_steps as int);
        assert(0 <= repaid <= gained);
    }
    step + gained - repaid
}

proof fn lemma_dash_bounds(span: int, start: int, step: int, lap: int)
    requires
        0 < span <= lap / 2,
        0 <= start <= lap - 2 * span,
        0 <= step <= lap,
    ensures
        lap - start - span >= span,
        step - start - span <= lap - start - span,
{
}

/// A dashed position never leaves the lap: it is never behind the plain
/// position, and never past the lap's end.
proof fn lemma_dash_in_lap(span: int, start: int, step: int, lap: int)
    requires
        0 < span <= lap / 2,
        0 <= start <= lap - 2 * span,
        0 <= step <= lap,
    ensures
        ({
            let d = step - start;
            let gained = if d < 0 {
                0
            } else if d > span {
                span
            } else {
                d
            };
            let over = d - span;
            let k = if over > 0 {
                over
            } else {
                0
            };
            let r = lap - start - span;
            &&& 0 <= span * k / r <= gained
            &&& step + gained - span * k / r <= lap
        }),
{
    let d = step - start;
    let over = d - span;
    let r = lap - start - span;
    let k = if over > 0 {
        over
    } else {
        0
    };
    assert(0 <= span * k / r <= span) by (nonlinear_arith)
        requires
            0 < span <= r,
            0 <= k <= r,
    ;
    if over > 0 {
        // The handing back keeps pace with the steps left: step + span - repaid
        // stays at or before the lap's end.
        assert(k + span - r <= span * k / r) by (nonlinear_arith)
            requires
                0 < span <= r,
                0 < k <= r,
        ;
    }
}

/// How far along its patrol window a swimmer sits at `frame`, and whether it
/// faces right. A lap is out to the far edge and home, `2 * travel` steps, one
/// step per `slowdown` frames; `ordinal` offsets the phase. On a lap whose
/// dash window is open the dash re-paces it; on a lap whose early-turn window
/// is open it turns back `short` columns early (keeping at least half the
/// window); every other lap is the plain triangle.
pub open spec fn spec_patrol_offset(
    slowdown: u64,
    manner: Manner,
    id: u64,
    ordinal: u64,
    travel: int,
    frame: u64,
) -> (int, bool) {
    if travel == 0 {
        (0, true)
    } else {
        let lap_steps = 2 * travel;
        let steps = (frame / slowdown + ordinal) as u64;
        let lap = steps / (lap_steps as u64);
        let plain = (steps % (lap_steps as u64)) as int;
        let step = match manner.dash {
            Some(dash) => {
                let roll = spec_quirk_roll(id, lap, DASH_SALT);
                if spec_quirk_open(roll, dash.rarity) {
                    spec_dash_warp(dash.span, roll >> 32u64, plain, lap_steps)
                } else {
                    plain
                }
            },
            None => plain,
        };
        let reach = match manner.early_turn {
            Some(turn) => if spec_quirk_open(spec_quirk_roll(id, lap, EARLY_TURN_SALT), turn.rarity) {
                let short_lap = travel - turn.short;
                let half = (travel + 1) / 2;
                if short_lap >= half {
                    short_lap
                } else {
                    half
                }
            } else {
                travel
            },
            None => travel,
        };
        if step < travel {
            (step * reach / travel, true)
        } else {
            ((lap_steps - step) * reach / travel, false)
        }
    }
}

/// A swimmer's patrol can run: a positive pace, turns that only shorten a
/// lap, and a window narrow enough that its arithmetic fits.
pub open spec fn patrol_fits(slowdown: u64, manner: Manner, ordinal: u64, travel: int, frame: u64) -> bool {
    &&& slowdown > 0
    &&& (manner.early_turn matches Some(t) ==> t.short >= 0)
    &&& 0 <= travel
    &&& 4 * travel * travel <= i64::MAX
    &&& frame / slowdown + ordinal <= u64::MAX
}

/// Where along its window (`0..=travel` columns from the left edge) a
/// swimmer sits at `frame`, and whether it faces right.
pub fn patrol_offset(slowdown: u64, manner: &Manner, id: u64, ordinal: u64, travel: i64, frame: u64) -> (r: (i64, bool))
    requires
        patrol_fits(slowdown, *manner, ordinal, travel as int, frame),
    ensures
        (r.0 as int, r.1) == spec_patrol_offset(slowdown, *manner, id, ordinal, travel as int, frame),
        0 <= r.0 <= travel,
{
    if travel == 0 {
        return (0, true);
    }
    proof {
        assert(travel <= i64::MAX / 4 && travel * travel <= i64::MAX / 4) by (nonlinear_arith)
            requires
                4 * travel * travel <= i64::MAX,
                travel >= 1,
        ;
    }
    let lap_steps = 2 * travel;
    proof {
        assert(lap_steps * lap_steps <= i64::MAX) by (nonlinear_arith)
            requires
                lap_steps == 2 * travel,
                4 * travel * travel <= i64::MAX,
        ;
    }
    let steps = frame / slowdown + ordinal;
    let lap = steps / lap_steps as u64;
    let mut step = (steps % lap_steps as u64) as i64;
    if let Some(dash) = &manner.dash {
        let roll = quirk_roll(id, lap, DASH_SALT);
        if quirk_open(roll, dash.rarity) {
            step = dash_warp(dash, roll >> 32u64, step, lap_steps);
        }
    }
    let reach = match &manner.early_turn {
        Some(turn) => {
            if quirk_open(quirk_roll(id, lap, EARLY_TURN_SALT), turn.rarity) {
                let short_lap = travel - turn.short;
                let half = (travel + 1) / 2;
                if short_lap >= half {
                    short_lap
                } else {
                    half
                }
            } else {
                travel
            }
        },
        None => travel,
    };
    let along = if step < travel {
        step
    } else {
        lap_steps - step
    };
    proof {
        assert(0 <= along * reach / (travel as int) <= travel) by (nonlinear_arith)
            requires
                0 <= along <= travel,
                0 <= reach <= travel,
                0 < travel,
        ;
        assert(along * reach <= travel * travel) by (nonlinear_arith)
            requires
                0 <= along <= travel,
                0 <= reach <= travel,
        ;
        assert(0 <= along * reach) by (nonlinear_arith)
            requires
                0 <= along,
                0 <= reach,
        ;
    }
    (along * reach / travel, step < travel)
}

/// Floor column a slot maps to: the slot's center, `(slot*2+1)*w / (2*SLOTS)`
/// from the left edge. Placement and rendering share this map so the preview
/// lands where the real reef will.
pub open spec fn spec_slot_center_x(area: Area, slot: u8) -> int {
    area.x + ((slot * 2 + 1) * area.width) / (2 * SLOTS as int)
}

pub fn slot_center_x(area: Area, slot: u8) -> (x: u16)
    requires
        area.wf(),
        slot < SLOTS,
    ensures
        x == spec_slot_center_x(area, slot),
        area.x <= x < area.right() || area.width == 0,
{
    let w = area.width as u64;
    let m = slot as u64 * 2 + 1;
    proof {
        assert(m * w <= 17 * 65535) by (nonlinear_arith)
            requires
                m <= 17,
                w <= 65535,
        ;
    }
    let cx = (m * w) / (2 * SLOTS as u64);
    proof {
        assert(cx < w || (w == 0 && cx == 0)) by (nonlinear_arith)
            requires
                cx == (m * w) / 18,
                m <= 17,
                0 <= w,
        ;
    }
    let c = cx as u16;
    assert(c == cx);
    area.x + c
}

/// Sum of the floor columns of the reefs' slots.
pub open spec fn centers_sum(area: Area, reefs: Seq<Reef>) -> int
    decreases reefs.len(),
{
    if reefs.len() == 0 {
        0
    } else {
        centers_sum(area, reefs.drop_last()) + spec_slot_center_x(area, reefs.last().slot)
    }
}

/// Mean floor column of the placed reefs, rounded down.
pub open spec fn spec_reef_centroid_x(area: Area, reefs: Seq<Reef>) -> int {
    centers_sum(area, reefs) / reefs.len() as int
}

/// Every reef sits on one of the floor's slots.
pub open spec fn on_slots(reefs: Seq<Reef>) -> bool {
    forall|i: int| 0 <= i < reefs.len() ==> #[trigger] reefs[i].slot < SLOTS
}

proof fn lemma_centers_sum_bounds(area: Area, reefs: Seq<Reef>)
    requires
        area.wf(),
        on_slots(reefs),
    ensures
        reefs.len() * area.x <= centers_sum(area, reefs) <= reefs.len() * area.right(),
    decreases reefs.len(),
{
    if reefs.len() > 0 {
        let init = reefs.drop_last();
        assert(on_slots(init)) by {
            assert forall|i: int| 0 <= i < init.len() implies #[trigger] init[i].slot < SLOTS by {
                assert(init[i] == reefs[i]);
            }
        }
        lemma_centers_sum_bounds(area, init);
        assert(reefs.last().slot < SLOTS) by {
            assert(reefs[reefs.len() - 1].slot < SLOTS);
        }
        let c = spec_slot_center_x(area, reefs.last().slot);
        let m = reefs.last().slot * 2 + 1;
        assert(m * area.width / 18 <= area.width) by (nonlinear_arith)
            requires
                0 <= m <= 17,
                0 <= area.width,
        ;
        assert(m * area.width / 18 >= 0) by (nonlinear_arith)
            requires
                0 <= m,
                0 <= area.width,
        ;
        assert(area.x <= c <= area.right());
        assert(reefs.len() * area.x == init.len() * area.x + area.x) by (nonlinear_arith)
            requires
                reefs.len() == init.len() + 1,
        ;
        assert(reefs.len() * area.right() == init.len() * area.right() + area.right()) by (nonlinear_arith)
            requires
                reefs.len() == init.len() + 1,
        ;
    }
}

/// Mean floor column of the placed reefs: the column the sediment mound
/// gathers under.
pub fn reef_centroid_x(area: Area, reefs: &Vec<Reef>) -> (x: u16)
    requires
        area.wf(),
        on_slots(reefs@),
        0 < reefs@.len() <= 0x1_0000_0000_0000,
    ensures
        x == spec_reef_centroid_x(area, reefs@),
        area.x <= x <= area.right(),
{
    let mut sum: u64 = 0;
    let mut i: usize = 0;
    while i < reefs.len()
        invariant
            area.wf(),
            on_slots(reefs@),
            reefs@.len() <= 0x1_0000_0000_0000,
            i <= reefs@.len(),
            sum == centers_sum(area, reefs@.take(i as int)),
            sum <= i * 0x1_0000,
        decreases reefs@.len() - i,
    {
        let slot = reefs[i].slot;
        assert(slot < SLOTS);
        let c = slot_center_x(area, slot);
        proof {
            let t = reefs@.take(i + 1);
            assert(t.drop_last() =~= reefs@.take(i as int));
            assert(t.last() == reefs@[i as int]);
            assert(i * 0x1_0000 + 0x1_0000 <= 0x1_0000_0000_0000 * 0x1_0000) by (nonlinear_arith)
                requires
                    i < 0x1_0000_0000_0000,
            ;
            assert((i + 1) * 0x1_0000 == i * 0x1_0000 + 0x1_0000) by (nonlinear_arith);
        }
        sum = sum + c as u64;
        i = i + 1;
    }
    let n = reefs.len() as u64;
    proof {
        assert(reefs@.take(reefs@.len() as int) =~= reefs@);
        lemma_centers_sum_bounds(area, reefs@);
        let s = centers_sum(area, reefs@);
        let len = reefs@.len() as int;
        assert(area.x <= s / len <= area.right()) by (nonlinear_arith)
            requires
                len > 0,
                len * area.x <= s <= len * area.right(),
        {
            vstd::arithmetic::div_mod::lemma_div_is_ordered(len * area.x, s, len);
            vstd::arithmetic::div_mod::lemma_div_is_ordered(s, len * area.right(), len);
            vstd::arithmetic::div_mod::lemma_div_multiples_vanish(area.x as int, len);
            vstd::arithmetic::div_mod::lemma_div_multiples_vanish(area.right(), len);
        }
    }
    (sum / n) as u16
}

/// The floor sediment: `(start, cells)`, a mound of one cell per
/// `SEDIMENT_PER_CELL` of collectable surplus, at most the pane's width less
/// two, centered under the reefs and kept inside the pane; `None` with no
/// reef or no full cell.
pub open spec fn spec_sediment_span(area: Area, collectable: u128, reefs: Seq<Reef>) -> Option<(int, int)> {
    let max: int = if area.width >= 2 { area.width - 2 } else { 0 };
    let full: int = collectable as int / SEDIMENT_PER_CELL as int;
    let cells: int = if full < max { full } else { max };
    if reefs.len() == 0 || cells == 0 {
        None
    } else {
        let center = spec_reef_centroid_x(area, reefs);
        let s0: int = if center >= cells / 2 { center - cells / 2 } else { 0 };
        let s1: int = if s0 >= area.x { s0 } else { area.x as int };
        let edge: int = if area.right() >= cells { area.right() - cells } else { 0 };
        Some((if s1 <= edge { s1 } else { edge }, cells))
    }
}

pub fn sediment_span(area: Area, collectable: u128, reefs: &Vec<Reef>) -> (r: Option<(u16, u16)>)
    requires
        area.wf(),
        on_slots(reefs@),
        reefs@.len() <= 0x1_0000_0000_0000,
    ensures
        match r {
            Some((start, cells)) => spec_sediment_span(area, collectable, reefs@) == Some((start as int, cells as int)),
            None => spec_sediment_span(area, collectable, reefs@) is None,
        },
{
    if reefs.len() == 0 {
        return None;
    }
    let max: u128 = if area.width >= 2 { (area.width - 2) as u128 } else { 0 };
    let full = collectable / SEDIMENT_PER_CELL;
    let cells128 = if full < max { full } else { max };
    if cells128 == 0 {
        return None;
    }
    let cells = cells128 as u16;
    let center = reef_centroid_x(area, reefs);
    let s0 = center.saturating_sub(cells / 2);
    let s1 = if s0 >= area.x { s0 } else { area.x };
    let right = area.x + area.width;
    let edge = right.saturating_sub(cells);
    Some((if s1 <= edge { s1 } else { edge }, cells))
}

/// Surface waves: at `col` columns from the pane's left edge, a crest on two
/// columns in five, drifting one column every two frames.
pub open spec fn spec_wave_at(col: u16, frame: u64) -> bool {
    (col + frame / 2) % 5 < 2
}

pub fn wave_at(col: u16, frame: u64) -> (b: bool)
    ensures
        b == spec_wave_at(col, frame),
{
    (col as u64 + frame / 2) % 5 < 2
}

/// Sprites shown for a population: one per individual, up to the cap.
pub open spec fn spec_shown(population: u32, cap: u64) -> int {
    if population < cap {
        population as int
    } else {
        cap as int
    }
}

pub fn shown(population: u32, cap: u64) -> (n: u64)
    ensures
        n == spec_shown(population, cap),
{
    if (population as u64) < cap {
        population as u64
    } else {
        cap
    }
}

/// Algae fronds shown: one per alga up to `MAX_ALGAE`, and no more than one
/// per four columns of the pane.
pub open spec fn spec_algae_count(population: u32, width: u16) -> int {
    let n = spec_shown(population, MAX_ALGAE);
    let room: int = width as int / 4;
    if n < room {
        n
    } else {
        room
    }
}

pub fn algae_count(population: u32, width: u16) -> (n: u64)
    ensures
        n == spec_algae_count(population, width),
{
    let n = shown(population, MAX_ALGAE);
    let room = width as u64 / 4;
    if n < room {
        n
    } else {
        room
    }
}

/// The `i`-th frond's height: two to four rows by its hash, and never
/// taller than the pane less its surface row.
pub open spec fn spec_algae_height(i: u64, height: u16) -> int {
    let h = 2 + spec_mix(i, 3) % 3;
    if h < height - 1 {
        h
    } else {
        height - 1
    }
}

pub fn algae_height(i: u64, height: u16) -> (h: u16)
    requires
        height >= 1,
    ensures
        h == spec_algae_height(i, height),
{
    let h = 2 + mix(i, 3) % 3;
    let cap = height as u64 - 1;
    if h < cap {
        h as u16
    } else {
        height - 1
    }
}

/// Which of its two frond glyphs row `dy` of the `i`-th frond wears at
/// `frame`: they alternate up the stalk and flip every four frames.
pub open spec fn spec_algae_sway(frame: u64, dy: u16, i: u64) -> bool {
    (frame / 4 + dy + i) % 2 == 0
}

pub fn algae_sway(frame: u64, dy: u16, i: u64) -> (b: bool)
    requires
        frame / 4 + dy + i <= u64::MAX,
    ensures
        b == spec_algae_sway(frame, dy, i),
{
    (frame / 4 + dy as u64 + i) % 2 == 0
}

/// A drifter's row: under the surface row, cycling through the pane's
/// middle rows (at least one) from its hashed `phase`, one row every
/// `slowdown` frames; the phase and the frame count add as `u64`s do,
/// wrapping.
pub open spec fn spec_drift_row(area: Area, phase: u64, frame: u64, slowdown: u64) -> int {
    let lane: int = if area.height - 2 > 1 {
        area.height - 2
    } else {
        1
    };
    area.y + 1 + ((phase + frame / slowdown) % 0x1_0000_0000_0000_0000) % lane
}

pub fn drift_row(area: Area, phase: u64, frame: u64, slowdown: u64) -> (y: u16)
    requires
        area.wf(),
        area.height >= 2,
        slowdown > 0,
    ensures
        y == spec_drift_row(area, phase, frame, slowdown),
        area.y < y < area.bottom(),
{
    let lane: u64 = if area.height - 2 > 1 {
        (area.height - 2) as u64
    } else {
        1
    };
    let at = phase.wrapping_add(frame / slowdown);
    assert(at == (phase + frame / slowdown) % 0x1_0000_0000_0000_0000);
    let r = at % lane;
    area.y + 1 + r as u16
}

/// Falling specks: one while any reef stands, one more per 15 units of
/// collectable surplus, five at most.
pub open spec fn spec_detritus_count(collectable: u128) -> int {
    let n: int = 1 + collectable as int / (15 * MICRO) as int;
    if n < 5 {
        n
    } else {
        5
    }
}

pub fn detritus_count(collectable: u128) -> (n: u64)
    ensures
        n == spec_detritus_count(collectable),
{
    let n = 1 + collectable / (15 * MICRO);
    if n < 5 {
        n as u64
    } else {
        5
    }
}

/// The `i`-th speck's column: within three of its reef's center, by its
/// hash.
pub open spec fn spec_detritus_x(center: u16, i: u64) -> int {
    center + spec_mix(i, 23) % 7 - 3
}

pub fn detritus_x(center: u16, i: u64) -> (x: i64)
    ensures
        x == spec_detritus_x(center, i),
        center - 3 <= x <= center + 3,
{
    center as i64 + (mix(i, 23) % 7) as i64 - 3
}

/// The whale's leftmost column `frame` frames into its crossing window: it
/// moves one column per `WHALE_SLOWDOWN` frames, in from the left edge when
/// heading right and in from the right edge otherwise.
pub open spec fn spec_whale_x(width: u16, frame: u64, rightward: bool) -> int {
    let step = (frame % WHALE_PERIOD) / WHALE_SLOWDOWN;
    if rightward {
        step - WHALE_WIDTH
    } else {
        width - step
    }
}

pub fn whale_x(width: u16, frame: u64, rightward: bool) -> (x: i64)
    ensures
        x == spec_whale_x(width, frame, rightward),
{
    let step = ((frame % WHALE_PERIOD) / WHALE_SLOWDOWN) as i64;
    if rightward {
        -WHALE_WIDTH + step
    } else {
        width as i64 - step
    }
}

/// A whale may cross only over a sea whose living biomass has reached the
/// parameters' threshold.
pub open spec fn spec_whale_due(s: State, p: Params) -> bool {
    s.spec_living_biomass() >= p.whale_biomass
}

/// The living pools of the first `n` species, summed.
pub open spec fn pool_prefix(s: State, n: int) -> int
    decreases n,
{
    if n <= 0 {
        0
    } else {
        pool_prefix(s, n - 1) + s.pool[n - 1]
    }
}

pub fn whale_due(s: &State, p: &Params) -> (b: bool)
    ensures
        b == spec_whale_due(*s, *p),
{
    let mut sum: u128 = 0;
    let mut i: usize = 0;
    while i < SPECIES
        invariant
            i <= SPECIES,
            sum == pool_prefix(*s, i as int),
        decreases SPECIES - i,
    {
        match sum.checked_add(s.pool[i]) {
            Some(next) => sum = next,
            None => {
                assert(pool_prefix(*s, SPECIES as int) >= pool_prefix(*s, i + 1)) by {
                    reveal_with_fuel(pool_prefix, 4);
                }
                assert(pool_prefix(*s, SPECIES as int) == s.spec_living_biomass()) by {
                    reveal_with_fuel(pool_prefix, 5);
                }
                return true;
            },
        }
        i = i + 1;
    }
    assert(pool_prefix(*s, SPECIES as int) == s.spec_living_biomass()) by {
        reveal_with_fuel(pool_prefix, 5);
    }
    sum >= p.whale_biomass
}

/// The anchor's floor column: `anchor_pos` per mille of the pane's width
/// from its left edge, rounded down.
pub open spec fn spec_anchor_center(area: Area, anchor_pos: u16) -> int {
    area.x + (area.width * anchor_pos) / 1000
}

pub fn anchor_center(area: Area, anchor_pos: u16) -> (x: i64)
    ensures
        x == spec_anchor_center(area, anchor_pos),
{
    let w = area.width as i64;
    let a = anchor_pos as i64;
    proof {
        assert(0 <= w * a <= 65535 * 65535) by (nonlinear_arith)
            requires
                0 <= w <= 65535,
                0 <= a <= 65535,
        ;
    }
    let span = w * a;
    area.x as i64 + span / 1000
}

/// The columns a colony fans out over, magnitudes `mag..=max_mag` from
/// `center` (right then left: +2, -2, +3, -3, ...), keeping only those in
/// `lo..hi`.
pub open spec fn fan(lo: int, hi: int, center: int, mag: int, max_mag: int) -> Seq<int>
    decreases max_mag + 1 - mag,
{
    if mag > max_mag {
        seq![]
    } else {
        let r: Seq<int> = if lo <= center + mag < hi {
            seq![center + mag]
        } else {
            seq![]
        };
        let l: Seq<int> = if lo <= center - mag < hi {
            seq![center - mag]
        } else {
            seq![]
        };
        r + l + fan(lo, hi, center, mag + 1, max_mag)
    }
}

/// Column for the `k`-th member of a reef's colony: the `k`-th on-screen
/// candidate of the fan out from the reef, clear of the rock body (center
/// ±1); `None` when the pane has fewer than `k+1` usable columns.
pub open spec fn spec_colony_column(area: Area, center: int, k: u64) -> Option<int> {
    let f = fan(area.x as int, area.right(), center, 2, area.width as int);
    if k < f.len() {
        Some(f[k as int])
    } else {
        None
    }
}

pub fn colony_column(area: Area, center: i64, k: u64) -> (c: Option<i64>)
    requires
        area.wf(),
        i64::MIN + u16::MAX <= center <= i64::MAX - u16::MAX,
    ensures
        match c {
            Some(x) => spec_colony_column(area, center as int, k) == Some(x as int),
            None => spec_colony_column(area, center as int, k) is None,
        },
{
    let lo = area.x as i64;
    let hi = lo + area.width as i64;
    let max_mag = area.width as i64;
    let ghost all = fan(lo as int, hi as int, center as int, 2, max_mag as int);
    let ghost mut before: Seq<int> = seq![];
    let mut remaining = k;
    let mut mag: i64 = 2;
    while mag <= max_mag
        invariant
            lo == area.x,
            hi == area.right(),
            max_mag == area.width,
            2 <= mag,
            i64::MIN + u16::MAX <= center <= i64::MAX - u16::MAX,
            all == fan(lo as int, hi as int, center as int, 2, max_mag as int),
            all == before + fan(lo as int, hi as int, center as int, mag as int, max_mag as int),
            before.len() + remaining == k,
        decreases max_mag + 1 - mag,
    {
        let ghost rest = fan(lo as int, hi as int, center as int, mag + 1, max_mag as int);
        let right = center + mag;
        if lo <= right && right < hi {
            if remaining == 0 {
                proof {
                    assert(all[k as int] == right);
                }
                return Some(right);
            }
            remaining -= 1;
            proof {
                before = before.push(right as int);
            }
        }
        let left = center - mag;
        if lo <= left && left < hi {
            if remaining == 0 {
                proof {
                    assert(all[k as int] == left);
                }
                return Some(left);
            }
            remaining -= 1;
            proof {
                before = before.push(left as int);
            }
        }
        proof {
            assert(all =~= before + rest);
        }
        mag += 1;
    }
    proof {
        assert(fan(lo as int, hi as int, center as int, mag as int, max_mag as int) =~= Seq::<int>::empty());
        assert(all =~= before);
    }
    None
}


/// Every column of a fan lies at least `mag` from its center, and no column
/// appears twice.
proof fn lemma_fan_distinct(lo: int, hi: int, center: int, mag: int, max_mag: int)
    requires
        1 <= mag,
    ensures
        forall|i: int| 0 <= i < fan(lo, hi, center, mag, max_mag).len() ==> {
            let x = #[trigger] fan(lo, hi, center, mag, max_mag)[i];
            x - center >= mag || center - x >= mag
        },
        forall|i: int, j: int|
            0 <= i < j < fan(lo, hi, center, mag, max_mag).len() ==> #[trigger] fan(lo, hi, center, mag, max_mag)[i]
                != #[trigger] fan(lo, hi, center, mag, max_mag)[j],
    decreases max_mag + 1 - mag,
{
    if mag <= max_mag {
        lemma_fan_distinct(lo, hi, center, mag + 1, max_mag);
        let f = fan(lo, hi, center, mag, max_mag);
        let rest = fan(lo, hi, center, mag + 1, max_mag);
        let r: Seq<int> = if lo <= center + mag < hi { seq![center + mag] } else { seq![] };
        let l: Seq<int> = if lo <= center - mag < hi { seq![center - mag] } else { seq![] };
        assert(f == r + l + rest);
        let head = r + l;
        assert forall|i: int| 0 <= i < f.len() implies {
            let x = #[trigger] f[i];
            x - center >= mag || center - x >= mag
        } by {
            if i >= head.len() {
                assert(f[i] == rest[i - head.len()]);
            }
        }
        assert forall|i: int, j: int| 0 <= i < j < f.len() implies #[trigger] f[i] != #[trigger] f[j] by {
            if j >= head.len() {
                assert(f[j] == rest[j - head.len()]);
                if i >= head.len() {
                    assert(f[i] == rest[i - head.len()]);
                }
            }
        }
    }
}

/// No two of a colony share a column: distinct ordinals that both find a
/// column find distinct ones.
pub proof fn law_colony_columns_are_distinct(area: Area, center: int, k1: u64, k2: u64)
    requires
        k1 != k2,
        spec_colony_column(area, center, k1) is Some,
        spec_colony_column(area, center, k2) is Some,
    ensures
        spec_colony_column(area, center, k1) != spec_colony_column(area, center, k2),
{
    lemma_fan_distinct(area.x as int, area.right(), center, 2, area.width as int);
    let f = fan(area.x as int, area.right(), center, 2, area.width as int);
    if k1 < k2 {
        assert(f[k1 as int] != f[k2 as int]);
    } else {
        assert(f[k2 as int] != f[k1 as int]);
    }
}

/// Lanes a sprite `rows` tall is handed out over: every lane that fits the
/// band under the surface and above the floor (inset by the drift's swing
/// where the pane has room), or the lower half of them for a reef-biased
/// swimmer; at least one.
pub open spec fn lane_count(area: Area, rows: int, drift: Drift, reef_bias: bool) -> int {
    let top = area.y + 1;
    let bed = area.bottom() - 1 - rows;
    let amplitude = drift.amplitude as int;
    let inset = bed - top >= 2 * amplitude;
    let lo = if inset { top + amplitude } else { top };
    let hi = if inset { bed - amplitude } else { bed };
    let lanes0 = (hi - lo + 1) / rows;
    let lanes = if lanes0 >= 1 { lanes0 } else { 1 };
    let half = if lanes / 2 >= 1 { lanes / 2 } else { 1 };
    if reef_bias { half } else { lanes }
}

/// Two of a tier on one reef that draw in distinct lanes never overlap: for
/// a swimmer that holds its lane, ordinals in distinct lanes start at least
/// a sprite's height apart.
pub proof fn law_distinct_lanes_never_overlap(
    area: Area,
    rows: int,
    drift: Drift,
    reef_bias: bool,
    o1: u64,
    o2: u64,
    frame: u64,
)
    requires
        rows >= 1,
        drift.amplitude == 0,
        o1 % (lane_count(area, rows, drift, reef_bias) as u64) != o2 % (lane_count(area, rows, drift, reef_bias) as u64),
        spec_row(area, rows, drift, reef_bias, o1, frame) is Some,
    ensures
        ({
            let y1 = spec_row(area, rows, drift, reef_bias, o1, frame)->0;
            let y2 = spec_row(area, rows, drift, reef_bias, o2, frame)->0;
            y1 - y2 >= rows || y2 - y1 >= rows
        }),
{
    let top = area.y + 1;
    let bed = area.bottom() - 1 - rows;
    let lo = top;
    let hi = bed;
    let lanes0 = (hi - lo + 1) / rows;
    let lanes = if lanes0 >= 1 { lanes0 } else { 1 };
    let half = if lanes / 2 >= 1 { lanes / 2 } else { 1 };
    let n = lane_count(area, rows, drift, reef_bias);
    assert(n == if reef_bias { half } else { lanes });
    assert(1 <= n <= lanes);
    assert((lanes - 1) * rows <= hi - lo) by (nonlinear_arith)
        requires
            lanes0 == (hi - lo + 1) / rows,
            lanes == if lanes0 >= 1 { lanes0 } else { 1 },
            rows >= 1,
            hi - lo >= 0,
    {
        if lanes0 >= 1 {
            assert(lanes0 * rows <= hi - lo + 1) by (nonlinear_arith)
                requires
                    lanes0 == (hi - lo + 1) / rows,
                    rows >= 1,
                    hi - lo + 1 >= 0,
            ;
        }
    }
    let m1 = (o1 % (n as u64)) as int;
    let m2 = (o2 % (n as u64)) as int;
    assert(0 <= m1 < n && 0 <= m2 < n);
    assert(m1 * rows <= (lanes - 1) * rows && m2 * rows <= (lanes - 1) * rows) by (nonlinear_arith)
        requires
            0 <= m1 < n,
            0 <= m2 < n,
            n <= lanes,
            rows >= 1,
    ;
    assert(0 <= m1 * rows && 0 <= m2 * rows) by (nonlinear_arith)
        requires
            0 <= m1,
            0 <= m2,
            rows >= 1,
    ;
    assert(spec_drift_offset(0, drift.period, frame) == 0);
    assert(m1 - m2 >= 1 || m2 - m1 >= 1);
    assert(m1 * rows - m2 * rows >= rows || m2 * rows - m1 * rows >= rows) by (nonlinear_arith)
        requires
            m1 - m2 >= 1 || m2 - m1 >= 1,
            rows >= 1,
    ;
}

/// A swimmer that patrols a bounded window around its host reef. `color` is
/// a 256-color palette index; `accent` is one body cell (counted from the
/// left of `right`) worn in another color.
#[derive(Clone, Copy, Debug)]
pub struct SwimmerDef {
    pub right: &'static str,
    pub left: &'static str,
    /// Frames per column step; higher is slower.
    pub slowdown: u64,
    /// Patrol radius, in cells either side of the host reef.
    pub radius: i64,
    /// Folds the swimmer's lane into the pane's lower half, near the reef.
    pub reef_bias: bool,
    pub color: u8,
    pub accent: Option<(usize, u8)>,
    /// How this swimmer carries itself on top of the shared patrol.
    pub manner: Manner,
}

impl SwimmerDef {
    pub open spec fn spec_own(self) -> Look {
        Look { right: self.right, left: self.left, under: self.manner.under }
    }

    /// This swimmer's own appearance: the rows it wears off the pulse's beat.
    pub fn own(&self) -> (l: Look)
        ensures
            l == self.spec_own(),
    {
        Look { right: self.right, left: self.left, under: self.manner.under }
    }

    /// The appearance to draw at `frame`: its own rows, or its pulse's on the
    /// alternate beat.
    pub fn look(&self, frame: u64) -> (l: Look)
        ensures
            l == spec_look_at(self.spec_own(), self.manner.pulse, frame),
    {
        look_at(self.own(), self.manner.pulse, frame)
    }

    /// The room every appearance needs, in cells and rows.
    pub fn footprint(&self) -> (r: (usize, u16))
        ensures
            r == crate::content::creatures::spec_footprint(self.spec_own(), self.manner.pulse),
    {
        footprint(self.own(), self.manner.pulse)
    }
}


/// Where one patrolling swimmer is drawn: its left column, its top row,
/// which way it faces, the appearance it wears, and which of its body cells
/// (if any) wears the accent, in which color.
#[derive(Clone, Copy, Debug)]
pub struct Placement {
    pub x: i64,
    pub y: u16,
    pub rightward: bool,
    pub look: Look,
    pub accent: Option<(usize, u8)>,
}

/// A swimmer whose patrol arithmetic fits its machine types.
pub open spec fn swimmer_fits(sw: SwimmerDef, ordinal: u64, frame: u64) -> bool {
    &&& sw.slowdown > 0
    &&& (sw.manner.early_turn matches Some(t) ==> t.short >= 0)
    &&& frame / sw.slowdown + ordinal <= u64::MAX
    &&& -(i64::MAX - 65535) <= sw.radius <= i64::MAX - 65535
    &&& 0 <= sw.manner.drift.amplitude <= 65535
    &&& 4 * (if sw.manner.drift.period == 0 {
        1
    } else {
        sw.manner.drift.period
    }) * sw.manner.drift.amplitude <= i64::MAX
}

/// Whether a swimmer's patrol arithmetic fits its machine types
/// (`swimmer_fits`).
pub fn swimmer_fits_now(sw: &SwimmerDef, ordinal: u64, frame: u64) -> (b: bool)
    ensures
        b == swimmer_fits(*sw, ordinal, frame),
{
    if sw.slowdown == 0 {
        return false;
    }
    let turn_ok = match sw.manner.early_turn {
        Some(t) => t.short >= 0,
        None => true,
    };
    let period: u64 = if sw.manner.drift.period == 0 { 1 } else { sw.manner.drift.period };
    let amplitude = sw.manner.drift.amplitude;
    if !turn_ok || ordinal > u64::MAX - frame / sw.slowdown {
        return false;
    }
    if !(-(i64::MAX - 65535) <= sw.radius && sw.radius <= i64::MAX - 65535) {
        return false;
    }
    if !(0 <= amplitude && amplitude <= 65535) {
        return false;
    }
    let swing = (amplitude as u128) * 4;
    proof {
        assert(swing <= 4 * 65535);
    }
    match (period as u128).checked_mul(swing) {
        Some(v) => {
            proof {
                assert(v == 4 * period * amplitude) by (nonlinear_arith)
                    requires
                        v == period * swing,
                        swing == amplitude * 4,
                ;
            }
            v <= i64::MAX as u128
        },
        None => {
            proof {
                assert(4 * period * amplitude > i64::MAX) by (nonlinear_arith)
                    requires
                        period * swing > u128::MAX,
                        swing == amplitude * 4,
                ;
            }
            false
        },
    }
}

/// The patrol window: reef center ± radius, clamped so a sprite `span` cells
/// wide never clips; `None` when no column fits it.
pub open spec fn spec_window(area: Area, center: int, radius: int, span: int) -> Option<(int, int)> {
    let min_anchor = area.x as int;
    let max_anchor = area.right() - span;
    let left = if center - radius >= min_anchor {
        center - radius
    } else {
        min_anchor
    };
    let right = if center + radius <= max_anchor {
        center + radius
    } else {
        max_anchor
    };
    if max_anchor < min_anchor || right < left {
        None
    } else {
        Some((left, right))
    }
}

/// The row a sprite `rows` tall starts on: lanes are handed out by ordinal
/// inside the band under the surface and above the floor (inset by the
/// drift's swing where the pane has room), folded into the lower half for a
/// reef-biased swimmer, and the drift then sways the sprite over its lane.
/// `None` when the pane is too short for the sprite.
pub open spec fn spec_row(area: Area, rows: int, drift: Drift, reef_bias: bool, ordinal: u64, frame: u64) -> Option<int> {
    let top = area.y + 1;
    let bed = area.bottom() - 1 - rows;
    if bed < top {
        None
    } else {
        let amplitude = drift.amplitude as int;
        let inset = bed - top >= 2 * amplitude;
        let lo = if inset {
            top + amplitude
        } else {
            top
        };
        let hi = if inset {
            bed - amplitude
        } else {
            bed
        };
        let lanes0 = (hi - lo + 1) / rows;
        let lanes = if lanes0 >= 1 {
            lanes0
        } else {
            1
        };
        let half = if lanes / 2 >= 1 {
            lanes / 2
        } else {
            1
        };
        let lane = if reef_bias {
            hi - (ordinal % (half as u64)) * rows
        } else {
            lo + (ordinal % (lanes as u64)) * rows
        };
        let swayed = lane + spec_drift_offset(amplitude, drift.period, frame);
        Some(
            if swayed < top {
                top
            } else if swayed > bed {
                bed
            } else {
                swayed
            },
        )
    }
}

/// The accent cell of a body `cells` wide, mirrored for a left-facing draw;
/// an out-of-range index wears no accent.
pub open spec fn spec_accent(accent: Option<(usize, u8)>, cells: int, rightward: bool) -> Option<(usize, u8)> {
    match accent {
        Some((index, color)) => if (index as int) < cells {
            Some(
                (
                    if rightward {
                        index
                    } else {
                        (cells - 1 - index) as usize
                    },
                    color,
                ),
            )
        } else {
            None
        },
        None => None,
    }
}

/// One swimmer on a bounded patrol around its host reef: it glides right to
/// the window edge and back, within the reef center ± its radius, in a window
/// clamped so the whole sprite fits (never partially clipped), on the row
/// `spec_row` hands it. `None` when the pane cannot hold the whole sprite.
pub open spec fn spec_patrol_place(area: Area, frame: u64, reef: Reef, ordinal: u64, sw: SwimmerDef) -> Option<
    Placement,
> {
    let (span, rows) = crate::content::creatures::spec_footprint(sw.spec_own(), sw.manner.pulse);
    match spec_window(area, spec_slot_center_x(area, reef.slot), sw.radius as int, span as int) {
        None => None,
        Some((left, right)) => match spec_row(area, rows as int, sw.manner.drift, sw.reef_bias, ordinal, frame) {
            None => None,
            Some(y) => {
                let look = spec_look_at(sw.spec_own(), sw.manner.pulse, frame);
                let (along, rightward) = spec_patrol_offset(
                    sw.slowdown,
                    sw.manner,
                    spec_swimmer_id(reef, ordinal),
                    ordinal,
                    right - left,
                    frame,
                );
                let glyph = if rightward {
                    look.right
                } else {
                    look.left
                };
                Some(
                    Placement {
                        x: (left + along) as i64,
                        y: y as u16,
                        rightward,
                        look,
                        accent: spec_accent(sw.accent, glyph@.len() as int, rightward),
                    },
                )
            },
        },
    }
}

fn patrol_window(area: Area, center: i64, radius: i64, span: usize) -> (w: Option<(i64, i64)>)
    requires
        area.wf(),
        0 <= center <= 65535,
        -(i64::MAX - 65535) <= radius <= i64::MAX - 65535,
    ensures
        match w {
            Some((l, r)) => spec_window(area, center as int, radius as int, span as int) == Some(
                (l as int, r as int),
            ),
            None => spec_window(area, center as int, radius as int, span as int) is None,
        },
        w matches Some((l, r)) ==> area.x <= l <= r && r + span <= area.right(),
{
    let min_anchor = area.x as i64;
    let right_edge = area.x as i64 + area.width as i64;
    if span as u64 > right_edge as u64 {
        return None;
    }
    let max_anchor = right_edge - span as i64;
    if max_anchor < min_anchor {
        return None;
    }
    let left = if center - radius >= min_anchor {
        center - radius
    } else {
        min_anchor
    };
    let right = if center + radius <= max_anchor {
        center + radius
    } else {
        max_anchor
    };
    if right < left {
        return None;
    }
    Some((left, right))
}

fn patrol_row(area: Area, rows: u16, drift: &Drift, reef_bias: bool, ordinal: u64, frame: u64) -> (y: Option<u16>)
    requires
        area.wf(),
        1 <= rows <= 2,
        0 <= drift.amplitude <= 65535,
        4 * (if drift.period == 0 {
            1
        } else {
            drift.period
        }) * drift.amplitude <= i64::MAX,
    ensures
        match y {
            Some(v) => spec_row(area, rows as int, *drift, reef_bias, ordinal, frame) == Some(v as int),
            None => spec_row(area, rows as int, *drift, reef_bias, ordinal, frame) is None,
        },
        y matches Some(v) ==> area.y + 1 <= v && v + rows <= area.bottom() - 1,
{
    let top = area.y as i64 + 1;
    let bed = area.y as i64 + area.height as i64 - 1 - rows as i64;
    if bed < top {
        return None;
    }
    let amplitude = drift.amplitude;
    let inset = bed - top >= 2 * amplitude;
    let lo = if inset {
        top + amplitude
    } else {
        top
    };
    let hi = if inset {
        bed - amplitude
    } else {
        bed
    };
    let rows_i = rows as i64;
    let lanes0 = (hi - lo + 1) / rows_i;
    let lanes = if lanes0 >= 1 {
        lanes0
    } else {
        1
    };
    let half = if lanes / 2 >= 1 {
        lanes / 2
    } else {
        1
    };
    let lane = if reef_bias {
        let k = (ordinal % half as u64) as i64;
        proof {
            assert(0 <= k * rows_i <= 2 * 65536) by (nonlinear_arith)
                requires
                    0 <= k < half,
                    half <= 65536,
                    1 <= rows_i <= 2,
            ;
        }
        hi - k * rows_i
    } else {
        let k = (ordinal % lanes as u64) as i64;
        proof {
            assert(0 <= k * rows_i <= 2 * 65536) by (nonlinear_arith)
                requires
                    0 <= k < lanes,
                    lanes <= 65536,
                    1 <= rows_i <= 2,
            ;
        }
        lo + k * rows_i
    };
    let swayed = lane + drift_offset(drift, frame);
    let y = if swayed < top {
        top
    } else if swayed > bed {
        bed
    } else {
        swayed
    };
    Some(y as u16)
}

fn accent_cell(accent: Option<(usize, u8)>, cells: usize, rightward: bool) -> (a: Option<(usize, u8)>)
    ensures
        a == spec_accent(accent, cells as int, rightward),
{
    match accent {
        Some((index, color)) => if index < cells {
            Some(
                (
                    if rightward {
                        index
                    } else {
                        cells - 1 - index
                    },
                    color,
                ),
            )
        } else {
            None
        },
        None => None,
    }
}

/// Where a patrolling swimmer is drawn at `frame`. The sprite always fits
/// the pane whole: its columns inside it, its rows under the surface and
/// above the floor.
pub fn patrol_place(area: Area, frame: u64, reef: &Reef, ordinal: u64, sw: &SwimmerDef) -> (p: Option<Placement>)
    requires
        area.wf(),
        reef.slot < SLOTS,
        swimmer_fits(*sw, ordinal, frame),
    ensures
        p == spec_patrol_place(area, frame, *reef, ordinal, *sw),
        p matches Some(pl) ==> {
            let (span, rows) = crate::content::creatures::spec_footprint(sw.spec_own(), sw.manner.pulse);
            &&& area.x <= pl.x
            &&& pl.x + span <= area.right()
            &&& area.y + 1 <= pl.y
            &&& pl.y + rows <= area.bottom() - 1
        },
{
    // Both appearances are measured, so the window and the lane hold still
    // while the swimmer pulses.
    let (span, rows) = sw.footprint();
    let center = slot_center_x(area, reef.slot) as i64;
    let (left, right) = match patrol_window(area, center, sw.radius, span) {
        Some(w) => w,
        None => {
            return None;
        },
    };
    let y = match patrol_row(area, rows, &sw.manner.drift, sw.reef_bias, ordinal, frame) {
        Some(y) => y,
        None => {
            return None;
        },
    };
    let travel = right - left;
    proof {
        assert(4 * travel * travel <= i64::MAX) by (nonlinear_arith)
            requires
                0 <= travel <= 65535,
        ;
    }
    let look = sw.look(frame);
    let id = swimmer_id(reef, ordinal);
    let (along, rightward) = patrol_offset(sw.slowdown, &sw.manner, id, ordinal, travel, frame);
    let glyph = if rightward {
        look.right
    } else {
        look.left
    };
    let cells = vstd::string::StrSliceExecFns::unicode_len(glyph);
    let accent = accent_cell(sw.accent, cells, rightward);
    Some(Placement { x: left + along, y, rightward, look, accent })
}


/// Where a dash's burst can start: somewhere the burst and its repayment
/// both fit inside the lap.
proof fn lemma_dash_start(span: int, freedom: u64, lap_steps: int)
    requires
        lap_fits(lap_steps),
        0 < span <= lap_steps / 2,
    ensures
        0 <= (freedom % ((lap_steps - 2 * span + 1) as u64)) as int <= lap_steps - 2 * span,
{
    assert(lap_steps <= i64::MAX / 4) by (nonlinear_arith)
        requires
            lap_steps * lap_steps <= i64::MAX,
            lap_steps >= 2,
    ;
    let m = (lap_steps - 2 * span + 1) as u64;
    assert(m as int == lap_steps - 2 * span + 1);
    assert(freedom % m < m);
}

/// A dash never changes where a lap opens or closes: a dashed lap starts on
/// the lap's first step and ends on its last, exactly where a plain lap
/// would, so a window can open or close between laps without moving the
/// swimmer a cell.
pub proof fn law_dash_keeps_lap_ends(dash_span: u64, freedom: u64, lap_steps: int)
    requires
        lap_fits(lap_steps),
    ensures
        spec_dash_warp(dash_span, freedom, 0, lap_steps) == 0,
        spec_dash_warp(dash_span, freedom, lap_steps, lap_steps) == lap_steps,
{
    let half = lap_steps / 2;
    let span: int = if dash_span <= half {
        dash_span as int
    } else {
        half
    };
    if span > 0 {
        lemma_dash_start(span, freedom, lap_steps);
        let start = (freedom % ((lap_steps - 2 * span + 1) as u64)) as int;
        let r = lap_steps - start - span;
        assert(span * r / r == span) by (nonlinear_arith)
            requires
                0 < span <= r,
        ;
    }
}

/// A dash re-paces a lap without breaking its glide: from one step to the
/// next the swimmer never moves backwards, and never more than two columns.
pub proof fn law_dash_stride(dash_span: u64, freedom: u64, step: int, lap_steps: int)
    requires
        lap_fits(lap_steps),
        0 <= step < lap_steps,
    ensures
        0 <= spec_dash_warp(dash_span, freedom, step + 1, lap_steps) - spec_dash_warp(
            dash_span,
            freedom,
            step,
            lap_steps,
        ) <= 2,
{
    let half = lap_steps / 2;
    let span: int = if dash_span <= half {
        dash_span as int
    } else {
        half
    };
    if span > 0 {
        lemma_dash_start(span, freedom, lap_steps);
        let start = (freedom % ((lap_steps - 2 * span + 1) as u64)) as int;
        let r = lap_steps - start - span;
        let k = step - start - span;
        if k >= 0 {
            lemma_floor_step(span, k, r);
        }
    }
}

/// Adding `span` to a numerator moves its floor quotient by `r` up by at
/// most one, when `span <= r`.
proof fn lemma_floor_step(span: int, k: int, r: int)
    requires
        0 < span <= r,
        0 <= k,
    ensures
        0 <= span * (k + 1) / r - span * k / r <= 1,
{
    assert(0 <= span * (k + 1) / r - span * k / r <= 1) by (nonlinear_arith)
        requires
            0 < span <= r,
            0 <= k,
    {
        let a = span * k;
        assert(span * (k + 1) == a + span);
        let q = a / r;
        let m = a % r;
        assert(a == q * r + m);
        assert(0 <= m < r);
        assert((a + span) / r >= q);
        assert((a + span) / r <= q + 1);
    }
}

} // verus!
