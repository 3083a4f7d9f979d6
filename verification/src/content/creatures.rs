//! How a swimmer carries itself: the modifiers one patrol routine applies on
//! top of its glide (a vertical drift, a two-frame pulse, a second sprite row)
//! and the two quirks that break the glide up now and then (a dash and an
//! early turn). Each is off by default, so a creature states only the ones it
//! uses and `Manner::plain` says "a fish, nothing more".

use vstd::prelude::*;
use vstd::string::StrSliceExecFns;

verus! {

/// A vertical sway on the swimmer's lane: it rises and falls `amplitude` rows
/// either side of that lane, one full up-and-down every `period` frames.
#[derive(Clone, Copy, Debug, PartialEq, Eq, Structural)]
pub struct Drift {
    /// Rows either side of the lane. `0` is no drift at all.
    pub amplitude: i64,
    /// Frames per full up-and-down. Never 0 (a still drift keeps 1).
    pub period: u64,
}

impl Drift {
    /// No drift: the swimmer holds its lane.
    pub fn still() -> (d: Drift)
        ensures
            d.amplitude == 0,
            d.period == 1,
    {
        Drift { amplitude: 0, period: 1 }
    }
}

/// One appearance of a swimmer: the body row it wears facing each way, and
/// the row hanging under it (`""` for none).
#[derive(Clone, Copy, Debug)]
pub struct Look {
    pub right: &'static str,
    pub left: &'static str,
    pub under: &'static str,
}

/// Widest row, in cells (every glyph is one cell, whatever its bytes).
pub open spec fn spec_span(l: Look) -> nat {
    let a = l.right@.len();
    let b = l.left@.len();
    let c = l.under@.len();
    let ab = if a >= b {
        a
    } else {
        b
    };
    if ab >= c {
        ab
    } else {
        c
    }
}

/// Rows drawn: two once there is an under row.
pub open spec fn spec_rows(l: Look) -> u16 {
    if l.under@.len() == 0 {
        1
    } else {
        2
    }
}

impl Look {
    /// Rows this appearance draws: two once it has an under row.
    pub fn rows(&self) -> (r: u16)
        ensures
            r == spec_rows(*self),
    {
        if self.under.unicode_len() == 0 {
            1
        } else {
            2
        }
    }

    /// Widest row of this appearance, in cells (not bytes: braille takes
    /// three bytes to say one cell).
    pub fn span(&self) -> (s: usize)
        ensures
            s == spec_span(*self),
    {
        let a = self.right.unicode_len();
        let b = self.left.unicode_len();
        let c = self.under.unicode_len();
        let ab = if a >= b {
            a
        } else {
            b
        };
        if ab >= c {
            ab
        } else {
            c
        }
    }
}

/// A swimmer's second appearance and the beat it alternates on: every
/// `period` frames the sprite switches between its own rows and these.
#[derive(Clone, Copy, Debug)]
pub struct Pulse {
    pub look: Look,
    /// Frames each appearance is held. Never 0 (guarded where it is read).
    pub period: u64,
}

/// A burst inside one lap: the swimmer takes two columns a step over `span`
/// steps and gives that ground back over the rest of the lap, on one lap in
/// `rarity`.
#[derive(Clone, Copy, Debug, PartialEq, Eq, Structural)]
pub struct Dash {
    pub span: u64,
    pub rarity: u64,
}

/// A lap that turns back `short` columns early, on one lap in `rarity`.
#[derive(Clone, Copy, Debug, PartialEq, Eq, Structural)]
pub struct EarlyTurn {
    pub short: i64,
    pub rarity: u64,
}

/// The modifiers a swimmer wears on top of the one patrol routine. They are
/// independent: any subset composes, and each is off by default.
#[derive(Clone, Copy, Debug)]
pub struct Manner {
    /// Vertical sway added to the swimmer's lane.
    pub drift: Drift,
    /// A second sprite row under the body row; `""` is a one-row swimmer.
    pub under: &'static str,
    /// A second appearance alternated on a timer; `None` never changes.
    pub pulse: Option<Pulse>,
    /// A burst of speed on rare laps.
    pub dash: Option<Dash>,
    /// A shorter lap on rare laps.
    pub early_turn: Option<EarlyTurn>,
}

impl Manner {
    /// A swimmer that only patrols: no drift, no pulse, one row, no quirks.
    pub fn plain() -> (m: Manner)
        ensures
            m.drift.amplitude == 0,
            m.drift.period == 1,
            m.under@.len() == 0,
            m.pulse is None,
            m.dash is None,
            m.early_turn is None,
    {
        proof {
            reveal_strlit("");
        }
        Manner { drift: Drift::still(), under: "", pulse: None, dash: None, early_turn: None }
    }
}

/// The appearance to draw at `frame`: the swimmer's own rows, or its pulse's
/// on the alternate beat.
pub open spec fn spec_look_at(own: Look, pulse: Option<Pulse>, frame: u64) -> Look {
    match pulse {
        Some(p) => {
            let period = if p.period == 0 {
                1
            } else {
                p.period
            };
            if (frame / period) % 2 == 1 {
                p.look
            } else {
                own
            }
        },
        None => own,
    }
}

/// The appearance to draw at `frame`.
pub fn look_at(own: Look, pulse: Option<Pulse>, frame: u64) -> (l: Look)
    ensures
        l == spec_look_at(own, pulse, frame),
{
    match pulse {
        Some(p) => {
            let period = if p.period == 0 {
                1
            } else {
                p.period
            };
            if (frame / period) % 2 == 1 {
                p.look
            } else {
                own
            }
        },
        None => own,
    }
}

/// The room every appearance needs, in cells and rows: taken over both
/// appearances, so the patrol window and the lane hold still while the
/// swimmer pulses.
pub open spec fn spec_footprint(own: Look, pulse: Option<Pulse>) -> (usize, u16) {
    match pulse {
        Some(p) => (
            (if spec_span(own) >= spec_span(p.look) {
                spec_span(own)
            } else {
                spec_span(p.look)
            }) as usize,
            if spec_rows(own) >= spec_rows(p.look) {
                spec_rows(own)
            } else {
                spec_rows(p.look)
            },
        ),
        None => (spec_span(own) as usize, spec_rows(own)),
    }
}

pub fn footprint(own: Look, pulse: Option<Pulse>) -> (r: (usize, u16))
    ensures
        r == spec_footprint(own, pulse),
{
    let mut span = own.span();
    let mut rows = own.rows();
    if let Some(p) = pulse {
        let s = p.look.span();
        let r = p.look.rows();
        if s > span {
            span = s;
        }
        if r > rows {
            rows = r;
        }
    }
    (span, rows)
}

} // verus!
