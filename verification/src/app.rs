//! The application shell: which layer is on screen, what a key does, and how
//! wall-clock time becomes engine ticks. Pure and time-injected: the terminal,
//! the clock and the renderer stay outside, so every rule here is a function
//! from the shell's state and one event to its next state.

use vstd::prelude::*;

use crate::engine::params::{saturating_mul_u64, Params, Species, SLOTS};
use crate::engine::state::{
    advance_fits, bought_from, flow_after_algae, flow_after_decay, flow_after_income, flow_after_prey,
    placed_into, removed_from, spec_advance, spec_collect, spec_tick, started_from, step_decay, step_prey,
    tick_flow, tick_fits, State, ANCHOR_POS_MAX,
};

verus! {

/// Below either threshold the pane is a wallpaper; at or above both it is the
/// game layer. Sized so a side pane stays decorative and a zoomed pane
/// becomes playable.
pub const GAME_MIN_WIDTH: u16 = 80;

pub const GAME_MIN_HEIGHT: u16 = 20;

/// How long the collect flash stays visible, in animation frames.
pub const FLASH_FRAMES: u8 = 15;

/// Length of one animation frame in milliseconds (about five a second).
pub const FRAME_INTERVAL_MS: u64 = 200;

/// How far one key press slides the grabbed anchor, in per-mille of the pane.
pub const ANCHOR_STEP: u16 = 25;

#[derive(Clone, Copy, PartialEq, Eq, Debug, Structural)]
pub enum Layer {
    Wallpaper,
    Game,
}

pub open spec fn spec_layer_for(width: u16, height: u16) -> Layer {
    if width >= GAME_MIN_WIDTH && height >= GAME_MIN_HEIGHT {
        Layer::Game
    } else {
        Layer::Wallpaper
    }
}

/// The layer a pane of this size shows.
pub fn layer_for(width: u16, height: u16) -> (l: Layer)
    ensures
        l == spec_layer_for(width, height),
{
    if width >= GAME_MIN_WIDTH && height >= GAME_MIN_HEIGHT {
        Layer::Game
    } else {
        Layer::Wallpaper
    }
}

/// Time-of-day phase, the explicit rendering input that colors the sea.
#[derive(Clone, Copy, PartialEq, Eq, Debug, Structural)]
pub enum Phase {
    Dawn,
    Day,
    Dusk,
    Night,
}

impl Phase {
    /// Dawn 5-8, day 8-17, dusk 17-20, night otherwise; each boundary hour
    /// belongs to the later phase.
    pub open spec fn spec_from_hour(hour: u32) -> Phase {
        if 5 <= hour < 8 {
            Phase::Dawn
        } else if 8 <= hour < 17 {
            Phase::Day
        } else if 17 <= hour < 20 {
            Phase::Dusk
        } else {
            Phase::Night
        }
    }

    /// The phase for a 24-hour local hour. Hours outside the day span
    /// (including 0-4 and 20-23) are night.
    pub fn from_hour(hour: u32) -> (p: Phase)
        ensures
            p == Self::spec_from_hour(hour),
    {
        if 5 <= hour && hour < 8 {
            Phase::Dawn
        } else if 8 <= hour && hour < 17 {
            Phase::Day
        } else if 17 <= hour && hour < 20 {
            Phase::Dusk
        } else {
            Phase::Night
        }
    }
}

/// A key press as the shell reads it: a character, or one of the named keys
/// the shell answers to; every other key is `Other`.
#[derive(Clone, Copy, PartialEq, Eq, Debug, Structural)]
pub enum Key {
    Char(char),
    Left,
    Right,
    Up,
    Down,
    Enter,
    Backspace,
    Delete,
    Esc,
    Other,
}

pub struct App {
    pub state: State,
    pub params: Params,
    pub layer: Layer,
    /// Time-of-day phase, an explicit render input. Defaults to `Night`; the
    /// binary overwrites it from the local clock.
    pub phase: Phase,
    /// Animation frame counter; rendering is a pure function of state + frame.
    pub frame: u64,
    /// Wall-clock frame offset captured at launch, so animation time is
    /// anchored to real time; 0 for a bare `App`.
    pub frame_epoch: u64,
    /// Collected amount to flash on the HUD, with frames left to live.
    pub flash: Option<(u128, u8)>,
    /// Floor slot the placement cursor sits on, in `0..SLOTS`.
    pub placement_cursor: u8,
    /// Reef kind the placement cursor will drop, cycled among the unlocked.
    pub placement_kind: usize,
    /// Whether a "start a new sea?" confirmation awaits a key press.
    pub new_sea_pending: bool,
    /// Whether the player holds the sunken anchor: while set, the keys slide
    /// it along the floor until Enter sets it down.
    pub anchor_mode: bool,
    pub should_quit: bool,
    /// Multiplier applied to wall-clock time on the way into the engine; 1 is
    /// real time.
    pub time_scale: u64,
    /// Scaled milliseconds not yet worth a whole tick.
    pub tick_acc_ms: u64,
}

/// Whether the surplus can be collected without overflowing score or currency.
pub open spec fn collect_fits(s: State) -> bool {
    s.score + s.collectable <= u128::MAX && s.currency + s.collectable <= u128::MAX
}

/// The state after the surplus is collected (left as is where collecting
/// would overflow).
pub open spec fn drained(s: State) -> State {
    if collect_fits(s) {
        spec_collect(s)
    } else {
        s
    }
}

/// The state after the surplus is drained on layer `l`: the game layer
/// collects as it goes, the wallpaper lets the pile accrue.
pub open spec fn drain_on(s: State, l: Layer) -> State {
    if l == Layer::Game {
        drained(s)
    } else {
        s
    }
}

/// `q`, or Ctrl-C.
pub open spec fn is_quit(key: Key, ctrl: bool) -> bool {
    key == Key::Char('q') || (key == Key::Char('c') && ctrl)
}

pub open spec fn moves_left(key: Key) -> bool {
    key == Key::Left || key == Key::Char('h')
}

pub open spec fn moves_right(key: Key) -> bool {
    key == Key::Right || key == Key::Char('l')
}

/// The buy keys `1`-`4`, bottom of the chain to top.
pub open spec fn buy_key(key: Key) -> Option<Species> {
    if key == Key::Char('1') {
        Some(Species::Algae)
    } else if key == Key::Char('2') {
        Some(Species::Plankton)
    } else if key == Key::Char('3') {
        Some(Species::SmallFish)
    } else if key == Key::Char('4') {
        Some(Species::BigFish)
    } else {
        None
    }
}

/// The kinds among the first `n` that `score` has unlocked, in kind order.
pub open spec fn unlocked_kinds(p: Params, score: u128, n: int) -> Seq<usize>
    decreases n,
{
    if n <= 0 {
        seq![]
    } else {
        let rest = unlocked_kinds(p, score, n - 1);
        if score >= p.reef_kinds@[n - 1].unlock {
            rest.push((n - 1) as usize)
        } else {
            rest
        }
    }
}

/// Where `k` first stands in `u`, or 0 when it is absent.
pub open spec fn position_of(u: Seq<usize>, k: usize) -> int
    decreases u.len(),
{
    if u.len() == 0 {
        0
    } else if position_of(u.drop_last(), k) < u.len() - 1 && u.drop_last()[position_of(
        u.drop_last(),
        k,
    )] == k {
        position_of(u.drop_last(), k)
    } else if u.last() == k {
        u.len() - 1
    } else {
        0
    }
}

impl App {
    /// The shell can run every rule: parameters every rule can run on, reefs
    /// of known kinds, the cursor on the floor, less than a tick of time owed,
    /// and a live flash with frames left.
    pub open spec fn wf(&self) -> bool {
        &&& self.params.wf()
        &&& self.state.reefs_valid(&self.params)
        &&& self.placement_cursor < SLOTS
        &&& self.tick_acc_ms < 1000
        &&& (self.flash matches Some(f) ==> f.1 > 0)
    }

    pub open spec fn spec_anchor_unlocked(&self) -> bool {
        self.state.score >= self.params.anchor_unlock
    }

    /// The kind the placement cursor holds after one step through the
    /// unlocked kinds, forward or back, wrapping; unchanged when none is
    /// unlocked.
    pub open spec fn cycled_kind(&self, forward: bool) -> usize {
        let u = unlocked_kinds(self.params, self.state.score, self.params.reef_kinds@.len() as int);
        let n = u.len() as int;
        if n == 0 {
            self.placement_kind
        } else {
            let here = position_of(u, self.placement_kind);
            let next = if forward {
                (here + 1) % n
            } else if here == 0 {
                n - 1
            } else {
                here - 1
            };
            u[next]
        }
    }

    /// What a key does while the anchor is held: slide it, clamped to the
    /// pane, or set it down with Enter; every other key is ignored.
    pub open spec fn anchor_step(a: App, b: App, key: Key) -> bool {
        if moves_left(key) {
            b == (App {
                state: State {
                    anchor_pos: if a.state.anchor_pos >= ANCHOR_STEP {
                        (a.state.anchor_pos - ANCHOR_STEP) as u16
                    } else {
                        0
                    },
                    ..a.state
                },
                ..a
            })
        } else if moves_right(key) {
            b == (App {
                state: State {
                    anchor_pos: if a.state.anchor_pos + ANCHOR_STEP <= ANCHOR_POS_MAX {
                        (a.state.anchor_pos + ANCHOR_STEP) as u16
                    } else {
                        ANCHOR_POS_MAX
                    },
                    ..a.state
                },
                ..a
            })
        } else if key == Key::Enter {
            b == (App { anchor_mode: false, ..a })
        } else {
            b == a
        }
    }

    /// What a key does on the placement screen: move the cursor (wrapping),
    /// cycle the kind, drop or lift a reef, commit the run, or grab the
    /// anchor once it is unlocked.
    pub open spec fn placement_step(a: App, b: App, key: Key) -> bool {
        if moves_left(key) {
            b == (App { placement_cursor: ((a.placement_cursor + SLOTS - 1) % (SLOTS as int)) as u8, ..a })
        } else if moves_right(key) {
            b == (App { placement_cursor: ((a.placement_cursor + 1) % (SLOTS as int)) as u8, ..a })
        } else if key == Key::Up || key == Key::Char('k') {
            b == (App { placement_kind: a.cycled_kind(true), ..a })
        } else if key == Key::Down || key == Key::Char('j') {
            b == (App { placement_kind: a.cycled_kind(false), ..a })
        } else if key == Key::Enter {
            &&& b == (App { state: b.state, ..a })
            &&& if a.state.spec_placed_cost(&a.params) <= u32::MAX {
                placed_into(a.state, b.state, a.placement_kind, a.placement_cursor, a.params)
            } else {
                b.state == a.state
            }
        } else if key == Key::Backspace || key == Key::Delete {
            b == (App { state: b.state, ..a }) && removed_from(a.state, b.state, a.placement_cursor)
        } else if key == Key::Char('s') {
            &&& b == (App { state: b.state, ..a })
            &&& if a.state.currency + a.params.seed_currency <= u128::MAX {
                started_from(a.state, b.state, a.params)
            } else {
                b.state == a.state
            }
        } else if key == Key::Char('a') {
            b == (App { anchor_mode: a.spec_anchor_unlocked(), ..a })
        } else {
            b == a
        }
    }

    /// What a key does while "start a new sea?" is pending: `y` resets the sea
    /// (score and anchor kept) and returns to placement; any key dismisses.
    pub open spec fn prompt_step(a: App, b: App, key: Key) -> bool {
        if key == Key::Char('y') {
            &&& b == (App {
                state: b.state,
                new_sea_pending: false,
                placement_cursor: SLOTS / 2,
                placement_kind: 0,
                ..a
            })
            &&& b.state.is_empty_sea()
            &&& b.state.score == a.state.score
            &&& b.state.anchor_pos == a.state.anchor_pos
        } else {
            b == (App { new_sea_pending: false, ..a })
        }
    }

    /// What a key does during the run: `1`-`4` buy (where the housing sum fits
    /// its type), `n` arms the new-sea prompt, `a` grabs the unlocked anchor;
    /// then the surplus is collected.
    pub open spec fn run_step(a: App, b: App, key: Key) -> bool {
        if let Some(sp) = buy_key(key) {
            exists|s: State|
                {
                    &&& (if a.state.spec_capacity(sp.spec_index(), &a.params) <= u32::MAX {
                        bought_from(a.state, s, sp, a.params)
                    } else {
                        s == a.state
                    })
                    &&& b == (App { state: drained(s), ..a })
                }
        } else if key == Key::Char('n') {
            b == (App { new_sea_pending: true, state: drained(a.state), ..a })
        } else if key == Key::Char('a') {
            b == (App { anchor_mode: a.spec_anchor_unlocked(), state: drained(a.state), ..a })
        } else {
            b == (App { state: drained(a.state), ..a })
        }
    }

    /// The shell after the pane is resized to `width` x `height`: entering
    /// the game layer collects the pile (flashing what came in, if anything),
    /// and leaving it lets go of a held anchor.
    pub open spec fn resized(a: App, width: u16, height: u16) -> App {
        let layer = spec_layer_for(width, height);
        let entering = layer == Layer::Game && a.layer == Layer::Wallpaper;
        App {
            state: if entering {
                drained(a.state)
            } else {
                a.state
            },
            flash: if entering && collect_fits(a.state) && a.state.collectable > 0 {
                Some((a.state.collectable, FLASH_FRAMES))
            } else {
                a.flash
            },
            anchor_mode: a.anchor_mode && layer == Layer::Game,
            layer,
            ..a
        }
    }

    /// `b` is `a` after a key press: `q` (or Ctrl-C) quits anywhere, the
    /// wallpaper takes no other input, and on the game layer a held anchor,
    /// the placement screen, a pending prompt or the run answers it.
    pub open spec fn keyed(a: App, b: App, key: Key, ctrl: bool) -> bool {
        if is_quit(key, ctrl) {
            b == (App { should_quit: true, ..a })
        } else if a.layer != Layer::Game {
            b == a
        } else if a.anchor_mode {
            Self::anchor_step(a, b, key)
        } else if !a.state.started {
            Self::placement_step(a, b, key)
        } else if a.new_sea_pending {
            Self::prompt_step(a, b, key)
        } else {
            Self::run_step(a, b, key)
        }
    }

    /// `b` is `a` after `ms` wall-clock milliseconds. Before the run starts
    /// nothing ticks; once it has, the owed time (scaled) runs as whole ticks,
    /// stopping early only at a tick that would overflow, and the sub-tick
    /// remainder stays owed. The game layer then collects the surplus.
    pub open spec fn elapsed(a: App, b: App, ms: u64) -> bool {
        if !a.state.started {
            b == (App { state: drain_on(a.state, a.layer), ..a })
        } else {
            let total = a.tick_acc_ms + scaled_ms(ms, a.time_scale);
            exists|done: nat|
                {
                    &&& done <= total / 1000
                    &&& advance_fits(a.state, a.params, done)
                    &&& (done < total / 1000 ==> !tick_fits(
                        spec_advance(a.state, a.params, done),
                        a.params,
                    ))
                    &&& b == (App {
                        state: drain_on(spec_advance(a.state, a.params, done), a.layer),
                        tick_acc_ms: (total % 1000) as u64,
                        ..a
                    })
                }
        }
    }

    /// The shell one animation frame later: the counter moves on (wrapping)
    /// and the flash ages, vanishing when its frames run out.
    pub open spec fn framed(a: App) -> App {
        App {
            frame: if a.frame == u64::MAX {
                0
            } else {
                (a.frame + 1) as u64
            },
            flash: match a.flash {
                Some((gained, ttl)) => if ttl > 1 {
                    Some((gained, (ttl - 1) as u8))
                } else {
                    None
                },
                None => None,
            },
            ..a
        }
    }

    pub fn new(state: State, params: Params) -> (app: Self)
        ensures
            app.state == state,
            app.params == params,
            app.layer == Layer::Wallpaper,
            app.phase == Phase::Night,
            app.frame == 0,
            app.frame_epoch == 0,
            app.flash is None,
            app.placement_cursor == SLOTS / 2,
            app.placement_kind == 0,
            !app.new_sea_pending,
            !app.anchor_mode,
            !app.should_quit,
            app.time_scale == 1,
            app.tick_acc_ms == 0,
            params.wf() && state.reefs_valid(&params) ==> app.wf(),
    {
        Self {
            state,
            params,
            layer: Layer::Wallpaper,
            phase: Phase::Night,
            frame: 0,
            frame_epoch: 0,
            flash: None,
            // Start mid-floor so the first move goes either way.
            placement_cursor: SLOTS / 2,
            placement_kind: 0,
            new_sea_pending: false,
            anchor_mode: false,
            should_quit: false,
            time_scale: 1,
            tick_acc_ms: 0,
        }
    }

    /// Whether the shell can run every rule (`wf`), checked.
    pub fn is_wf(&self) -> (b: bool)
        ensures
            b == self.wf(),
    {
        let flash_live = match self.flash {
            Some((_, ttl)) => ttl > 0,
            None => true,
        };
        self.params.is_wf() && self.state.reefs_valid_now(&self.params) && self.placement_cursor
            < SLOTS && self.tick_acc_ms < 1000 && flash_live
    }

    /// Whether the lifetime score has unlocked the sunken anchor.
    pub fn anchor_unlocked(&self) -> (b: bool)
        ensures
            b == self.spec_anchor_unlocked(),
    {
        self.state.score >= self.params.anchor_unlock
    }

    /// Collect the surplus into currency and score, unless that would
    /// overflow them.
    fn collect_if_fits(&mut self)
        ensures
            *final(self) == (App { state: drained(old(self).state), ..*old(self) }),
    {
        if self.state.score.checked_add(self.state.collectable).is_some()
            && self.state.currency.checked_add(self.state.collectable).is_some() {
            self.state.collect();
        }
    }

    /// Peeking = entering the game layer, which collects what accumulated
    /// while away, with a flash when there was something. Leaving the game
    /// layer lets go of a held anchor.
    pub fn on_resize(&mut self, width: u16, height: u16)
        requires
            old(self).wf(),
        ensures
            final(self).wf(),
            *final(self) == Self::resized(*old(self), width, height),
    {
        let layer = layer_for(width, height);
        if layer == Layer::Game && self.layer == Layer::Wallpaper {
            let gained = self.state.collectable;
            let fits = self.state.score.checked_add(gained).is_some()
                && self.state.currency.checked_add(gained).is_some();
            self.collect_if_fits();
            if fits && gained > 0 {
                self.flash = Some((gained, FLASH_FRAMES));
            }
        }
        if layer != Layer::Game {
            self.anchor_mode = false;
        }
        self.layer = layer;
    }

    /// A key press. `q` (or Ctrl-C) quits anywhere; the wallpaper takes no
    /// other input; on the game layer a held anchor owns the keys, the
    /// placement screen runs until the run starts, and a pending new-sea
    /// prompt swallows the next key.
    pub fn on_key(&mut self, key: Key, ctrl: bool)
        requires
            old(self).wf(),
        ensures
            final(self).wf(),
            Self::keyed(*old(self), *final(self), key, ctrl),
    {
        if key == Key::Char('q') || (key == Key::Char('c') && ctrl) {
            self.should_quit = true;
            return;
        }
        // A wallpaper accepts no game input.
        if self.layer != Layer::Game {
            return;
        }
        if self.anchor_mode {
            self.handle_anchor(key);
            return;
        }
        // Before the run is committed the game layer is the placement screen.
        if !self.state.run_started() {
            self.handle_placement(key);
            return;
        }
        // A pending prompt swallows the next key: `y` confirms, anything else
        // cancels, and either way no buy fires this keystroke.
        if self.new_sea_pending {
            self.new_sea_pending = false;
            if key == Key::Char('y') {
                self.state.reset();
                self.placement_cursor = SLOTS / 2;
                self.placement_kind = 0;
            }
            return;
        }
        let ghost a = *self;
        if key == Key::Char('1') {
            self.try_buy(Species::Algae);
        } else if key == Key::Char('2') {
            self.try_buy(Species::Plankton);
        } else if key == Key::Char('3') {
            self.try_buy(Species::SmallFish);
        } else if key == Key::Char('4') {
            self.try_buy(Species::BigFish);
        } else if key == Key::Char('n') {
            // Arm the confirmation; nothing changes until it is answered.
            self.new_sea_pending = true;
        } else if key == Key::Char('a') {
            if self.anchor_unlocked() {
                self.anchor_mode = true;
            }
        }
        let ghost mid = self.state;
        self.collect_if_fits();
        proof {
            if buy_key(key) is Some {
                assert(self.state == drained(mid));
            }
        }
    }

    /// Buy one of `species` where the housing sum fits its type.
    fn try_buy(&mut self, species: Species)
        requires
            old(self).wf(),
        ensures
            final(self).wf(),
            *final(self) == (App { state: final(self).state, ..*old(self) }),
            if old(self).state.spec_capacity(species.spec_index(), &old(self).params) <= u32::MAX {
                bought_from(old(self).state, final(self).state, species, old(self).params)
            } else {
                final(self).state == old(self).state
            },
    {
        if self.state.capacity_fits(species.index(), &self.params) {
            self.state.buy(species, &self.params);
        }
    }

    /// Anchor-mode input: slide the anchor along the floor, clamped to the
    /// pane, or set it down.
    fn handle_anchor(&mut self, key: Key)
        requires
            old(self).wf(),
        ensures
            final(self).wf(),
            Self::anchor_step(*old(self), *final(self), key),
    {
        if key == Key::Left || key == Key::Char('h') {
            self.state.anchor_pos = if self.state.anchor_pos >= ANCHOR_STEP {
                self.state.anchor_pos - ANCHOR_STEP
            } else {
                0
            };
        } else if key == Key::Right || key == Key::Char('l') {
            self.state.anchor_pos = if self.state.anchor_pos <= ANCHOR_POS_MAX - ANCHOR_STEP {
                self.state.anchor_pos + ANCHOR_STEP
            } else {
                ANCHOR_POS_MAX
            };
        } else if key == Key::Enter {
            self.anchor_mode = false;
        }
    }

    /// Placement-phase input: move the cursor across the floor slots
    /// (wrapping), cycle the reef kind among those unlocked, drop the selected
    /// kind or lift the one under the cursor, commit the run, or grab the
    /// unlocked anchor.
    fn handle_placement(&mut self, key: Key)
        requires
            old(self).wf(),
            !old(self).anchor_mode,
        ensures
            final(self).wf(),
            Self::placement_step(*old(self), *final(self), key),
    {
        if key == Key::Left || key == Key::Char('h') {
            self.placement_cursor = (self.placement_cursor + SLOTS - 1) % SLOTS;
        } else if key == Key::Right || key == Key::Char('l') {
            self.placement_cursor = (self.placement_cursor + 1) % SLOTS;
        } else if key == Key::Up || key == Key::Char('k') {
            self.cycle_kind(true);
        } else if key == Key::Down || key == Key::Char('j') {
            self.cycle_kind(false);
        } else if key == Key::Enter {
            if self.state.placed_cost_fits(&self.params) {
                self.state.place_reef(self.placement_kind, self.placement_cursor, &self.params);
            }
        } else if key == Key::Backspace || key == Key::Delete {
            self.state.remove_reef(self.placement_cursor);
        } else if key == Key::Char('s') {
            if self.state.currency.checked_add(self.params.seed_currency).is_some() {
                self.state.start_run(&self.params);
            }
        } else if key == Key::Char('a') {
            self.anchor_mode = self.anchor_unlocked();
        }
    }

    /// Move `placement_kind` one step through the unlocked kinds (wrapping).
    /// Kinds are ordered by unlock score, so the unlocked ones form a prefix
    /// the score decides.
    fn cycle_kind(&mut self, forward: bool)
        ensures
            *final(self) == (App { placement_kind: old(self).cycled_kind(forward), ..*old(self) }),
    {
        let mut unlocked: Vec<usize> = Vec::new();
        let mut k: usize = 0;
        while k < self.params.reef_kinds.len()
            invariant
                k <= self.params.reef_kinds@.len(),
                unlocked@ == unlocked_kinds(self.params, self.state.score, k as int),
            decreases self.params.reef_kinds@.len() - k,
        {
            if self.state.score >= self.params.reef_kinds[k].unlock {
                unlocked.push(k);
            }
            k += 1;
        }
        let n = unlocked.len();
        if n == 0 {
            return;
        }
        let here = position_in(&unlocked, self.placement_kind);
        let next = if forward {
            (here + 1) % n
        } else if here == 0 {
            n - 1
        } else {
            here - 1
        };
        self.placement_kind = unlocked[next];
    }

    /// Wall-clock milliseconds become whole engine ticks (1 tick = 1 s),
    /// scaled by `time_scale` (saturating); the remainder stays owed so no
    /// time is lost between calls. The clock only runs during a live run.
    /// Ticking stops early only at a tick that would overflow, and the whole
    /// ticks still owed then are dropped. Afterwards the game layer collects
    /// the surplus.
    pub fn on_elapsed(&mut self, ms: u64)
        requires
            old(self).wf(),
            old(self).state.started ==> old(self).tick_acc_ms + scaled_ms(ms, old(self).time_scale)
                <= u64::MAX,
        ensures
            final(self).wf(),
            Self::elapsed(*old(self), *final(self), ms),
    {
        let ghost a = *self;
        if self.state.run_started() {
            let ghost total = self.tick_acc_ms + scaled_ms(ms, self.time_scale);
            self.tick_acc_ms = self.tick_acc_ms + saturating_mul_u64(ms, self.time_scale);
            let ghost mut done: nat = 0;
            let mut stalled = false;
            while !stalled && self.tick_acc_ms >= 1000
                invariant
                    self.params == a.params,
                    self.params.wf(),
                    self.state.reefs_valid(&self.params),
                    self.state == spec_advance(a.state, a.params, done),
                    advance_fits(a.state, a.params, done),
                    self.tick_acc_ms + 1000 * done == total,
                    *self == (App { state: self.state, tick_acc_ms: self.tick_acc_ms, ..a }),
                    stalled ==> self.tick_acc_ms >= 1000 && !tick_fits(self.state, self.params),
                decreases self.tick_acc_ms + if stalled {
                    0int
                } else {
                    1int
                },
            {
                if self.state.try_tick(&self.params) {
                    proof {
                        lemma_one_more_tick(a.state, a.params, done);
                        done = done + 1;
                    }
                    self.tick_acc_ms = self.tick_acc_ms - 1000;
                } else {
                    stalled = true;
                }
            }
            proof {
                lemma_owed(total, self.tick_acc_ms as int, done as int);
            }
            if stalled {
                // The rest of the owed ticks cannot be simulated; only the
                // sub-tick remainder stays owed.
                self.tick_acc_ms = self.tick_acc_ms % 1000;
            }
        }
        if self.layer == Layer::Game {
            self.collect_if_fits();
        }
    }

    /// Advance one animation frame and age the flash message.
    pub fn on_frame(&mut self)
        requires
            old(self).wf(),
        ensures
            final(self).wf(),
            *final(self) == Self::framed(*old(self)),
    {
        self.frame = if self.frame == u64::MAX {
            0
        } else {
            self.frame + 1
        };
        self.flash = match self.flash {
            Some((gained, ttl)) => if ttl > 1 {
                Some((gained, ttl - 1))
            } else {
                None
            },
            None => None,
        };
    }
}

/// `ms` scaled by the fast-mode multiplier, pinned at `u64::MAX`.
pub open spec fn scaled_ms(ms: u64, scale: u64) -> int {
    if ms * scale > u64::MAX {
        u64::MAX as int
    } else {
        ms * scale
    }
}

/// Where `k` first stands in `u`, or 0 when it is absent.
fn position_in(u: &Vec<usize>, k: usize) -> (i: usize)
    requires
        u@.len() > 0,
    ensures
        i == position_of(u@, k),
        i < u@.len(),
{
    let mut i: usize = 0;
    while i < u.len()
        invariant
            i <= u@.len(),
            forall|j: int| 0 <= j < i ==> u@[j] != k,
        decreases u@.len() - i,
    {
        if u[i] == k {
            proof {
                lemma_position_found(u@, k, i as int);
            }
            return i;
        }
        i += 1;
    }
    proof {
        lemma_position_absent(u@, k);
    }
    0
}

proof fn lemma_position_found(u: Seq<usize>, k: usize, i: int)
    requires
        0 <= i < u.len(),
        u[i] == k,
        forall|j: int| 0 <= j < i ==> u[j] != k,
    ensures
        position_of(u, k) == i,
    decreases u.len(),
{
    let v = u.drop_last();
    if i < u.len() - 1 {
        lemma_position_found(v, k, i);
    } else {
        lemma_position_absent(v, k);
        if v.len() > 0 {
            assert(v[position_of(v, k)] != k);
        }
    }
}

proof fn lemma_position_absent(u: Seq<usize>, k: usize)
    requires
        forall|j: int| 0 <= j < u.len() ==> u[j] != k,
    ensures
        position_of(u, k) == 0,
    decreases u.len(),
{
    if u.len() > 0 {
        let v = u.drop_last();
        lemma_position_absent(v, k);
        if v.len() > 0 {
            assert(v[0] == u[0]);
        }
    }
}

/// `done` ticks run and `acc` milliseconds left of `total`: when less than a
/// tick is left, `done` is every whole tick owed; in any case the leftover
/// is the sub-tick remainder of `total`, and `done` never passes what is owed.
proof fn lemma_owed(total: int, acc: int, done: int)
    requires
        acc + 1000 * done == total,
        0 <= acc,
        0 <= done,
    ensures
        acc % 1000 == total % 1000,
        done <= total / 1000,
        acc < 1000 ==> done == total / 1000,
        acc >= 1000 ==> done < total / 1000,
{
    assert(acc % 1000 == total % 1000 && done + acc / 1000 == total / 1000) by (nonlinear_arith)
        requires
            acc + 1000 * done == total,
            0 <= acc,
            0 <= done,
    ;
}

proof fn lemma_one_more_tick(s: State, p: Params, n: nat)
    requires
        advance_fits(s, p, n),
        tick_fits(spec_advance(s, p, n), p),
    ensures
        spec_advance(s, p, n + 1) == crate::engine::state::spec_tick(spec_advance(s, p, n), p),
        advance_fits(s, p, n + 1),
{
    crate::engine::state::lemma_advance_step(s, p, n);
}


/// Within `n` fitting ticks every shorter run fits, what remains of the `n`
/// fits from where it stops, and the next tick fits too.
proof fn lemma_fits_prefix(s: State, p: Params, d: nat, n: nat)
    requires
        advance_fits(s, p, n),
        d <= n,
    ensures
        advance_fits(s, p, d),
        advance_fits(spec_advance(s, p, d), p, (n - d) as nat),
        d < n ==> tick_fits(spec_advance(s, p, d), p),
{
    crate::engine::laws::law_advance_composes(s, p, d, (n - d) as nat);
    assert(d + (n - d) as nat == n);
}

/// Elapsed time of a started wallpaper sea that ran `done` whole ticks of the
/// `total` owed, where every owed tick fits, ran all of them.
proof fn lemma_elapsed_runs_all(a: App, b: App, ms: u64, n: nat)
    requires
        App::elapsed(a, b, ms),
        a.state.started,
        a.layer == Layer::Wallpaper,
        (a.tick_acc_ms + scaled_ms(ms, a.time_scale)) / 1000 <= n,
        advance_fits(a.state, a.params, n),
    ensures
        b == (App {
            state: spec_advance(a.state, a.params, ((a.tick_acc_ms + scaled_ms(ms, a.time_scale)) / 1000) as nat),
            tick_acc_ms: ((a.tick_acc_ms + scaled_ms(ms, a.time_scale)) % 1000) as u64,
            ..a
        }),
{
    let total = a.tick_acc_ms + scaled_ms(ms, a.time_scale);
    let done = choose|done: nat|
        {
            &&& done <= total / 1000
            &&& advance_fits(a.state, a.params, done)
            &&& (done < total / 1000 ==> !tick_fits(spec_advance(a.state, a.params, done), a.params))
            &&& b == (App {
                state: drain_on(spec_advance(a.state, a.params, done), a.layer),
                tick_acc_ms: (total % 1000) as u64,
                ..a
            })
        };
    lemma_fits_prefix(a.state, a.params, done, n);
    assert(done == total / 1000);
}

/// No time is lost across calls: two elapsed spans of a started wallpaper sea,
/// where every owed tick fits, run exactly the ticks their sum owes and keep
/// the sum's sub-tick remainder, as one span of that length would.
pub proof fn law_elapsed_loses_no_time(a: App, b: App, c: App, ms1: u64, ms2: u64)
    requires
        App::elapsed(a, b, ms1),
        App::elapsed(b, c, ms2),
        a.state.started,
        a.layer == Layer::Wallpaper,
        advance_fits(
            a.state,
            a.params,
            ((a.tick_acc_ms + scaled_ms(ms1, a.time_scale) + scaled_ms(ms2, a.time_scale)) / 1000) as nat,
        ),
    ensures
        c.state == spec_advance(
            a.state,
            a.params,
            ((a.tick_acc_ms + scaled_ms(ms1, a.time_scale) + scaled_ms(ms2, a.time_scale)) / 1000) as nat,
        ),
        c.tick_acc_ms == (a.tick_acc_ms + scaled_ms(ms1, a.time_scale) + scaled_ms(ms2, a.time_scale)) % 1000,
{
    let s1 = scaled_ms(ms1, a.time_scale);
    let s2 = scaled_ms(ms2, a.time_scale);
    let t1 = a.tick_acc_ms + s1;
    let all = t1 + s2;
    let n = (all / 1000) as nat;
    assert(t1 / 1000 <= all / 1000) by (nonlinear_arith)
        requires
            t1 <= all,
            0 <= t1,
    ;
    lemma_elapsed_runs_all(a, b, ms1, n);
    let d1 = (t1 / 1000) as nat;
    crate::engine::laws::law_advance_keeps_housing(a.state, a.params, d1);
    lemma_fits_prefix(a.state, a.params, d1, n);
    let t2 = b.tick_acc_ms + s2;
    assert(t1 / 1000 + t2 / 1000 == all / 1000 && t2 % 1000 == all % 1000) by {
        vstd::arithmetic::div_mod::lemma_fundamental_div_mod(t1, 1000);
        vstd::arithmetic::div_mod::lemma_hoist_over_denominator(t1 % 1000 + s2, t1 / 1000, 1000);
        vstd::arithmetic::div_mod::lemma_mod_multiples_vanish(t1 / 1000, t1 % 1000 + s2, 1000);
        assert(t1 % 1000 + s2 + (t1 / 1000) * 1000 == all) by (nonlinear_arith)
            requires
                t1 == 1000 * (t1 / 1000) + t1 % 1000,
                all == t1 + s2,
        ;
        assert(1000 * (t1 / 1000) + (t1 % 1000 + s2) == all);
    }
    lemma_elapsed_runs_all(b, c, ms2, (n - d1) as nat);
    crate::engine::laws::law_advance_composes(a.state, a.params, d1, (t2 / 1000) as nat);
}


/// `t` is `s` with part of its pile already collected: everything else the
/// same, and what left the pile counted into score and currency.
pub open spec fn moved_pile(s: State, t: State) -> bool {
    &&& t == (State { collectable: t.collectable, score: t.score, currency: t.currency, ..s })
    &&& t.collectable <= s.collectable
    &&& t.score + t.collectable == s.score + s.collectable
    &&& t.currency + t.collectable == s.currency + s.collectable
}

/// A tick never reads the pile, score or currency: it only adds to the pile.
/// So collecting before a tick changes nothing but where the pile's matter
/// sits, and a tick that fits the fuller pile fits the emptier one.
proof fn lemma_tick_moves_pile(s: State, t: State, p: Params)
    requires
        p.tick_wf(),
        moved_pile(s, t),
        tick_fits(s, p),
    ensures
        tick_fits(t, p),
        moved_pile(spec_tick(s, p), spec_tick(t, p)),
        spec_tick(s, p).collectable >= s.collectable,
{
    let d = s.collectable - t.collectable;
    let is = flow_after_income(s, p);
    let it = flow_after_income(t, p);
    assert(it.0 == is.0 && it.1 == is.1 && it.2 == is.2 - d && it.3 == is.3);
    let a_s = flow_after_algae(s, p);
    let a_t = flow_after_algae(t, p);
    assert(a_t.0 == a_s.0 && a_t.1 == a_s.1 && a_t.2 == a_s.2 - d && a_t.3 == a_s.3);
    let p1s = step_prey(a_s, 1, s.population[1] as int, p);
    let p1t = step_prey(a_t, 1, t.population[1] as int, p);
    assert(p1t.0 == p1s.0 && p1t.1 == p1s.1 && p1t.2 == p1s.2 - d && p1t.3 == p1s.3);
    let p2s = step_prey(p1s, 2, s.population[2] as int, p);
    let p2t = step_prey(p1t, 2, t.population[2] as int, p);
    assert(p2t.0 == p2s.0 && p2t.1 == p2s.1 && p2t.2 == p2s.2 - d && p2t.3 == p2s.3);
    let ps = flow_after_prey(s, p);
    let pt = flow_after_prey(t, p);
    assert(pt.0 == ps.0 && pt.1 == ps.1 && pt.2 == ps.2 - d && pt.3 == ps.3);
    let d0s = step_decay(ps, 0, p);
    let d0t = step_decay(pt, 0, p);
    assert(d0t.0 == d0s.0 && d0t.1 == d0s.1 && d0t.2 == d0s.2 - d && d0t.3 == d0s.3);
    let d1s = step_decay(d0s, 1, p);
    let d1t = step_decay(d0t, 1, p);
    assert(d1t.0 == d1s.0 && d1t.1 == d1s.1 && d1t.2 == d1s.2 - d && d1t.3 == d1s.3);
    let d2s = step_decay(d1s, 2, p);
    let d2t = step_decay(d1t, 2, p);
    assert(d2t.0 == d2s.0 && d2t.1 == d2s.1 && d2t.2 == d2s.2 - d && d2t.3 == d2s.3);
    let fs = flow_after_decay(s, p);
    let ft = flow_after_decay(t, p);
    assert(ft.0 == fs.0 && ft.1 == fs.1 && ft.2 == fs.2 - d && ft.3 == fs.3);
    let ts = tick_flow(s, p);
    let tt = tick_flow(t, p);
    assert(tt.0 == ts.0 && tt.1 == ts.1 && tt.2 == ts.2 - d);
    crate::engine::params::lemma_fraction_shrinks(p.recycle, fs.3 as u128);
    assert(is.2 >= s.collectable);
    assert(ts.2 >= fs.2);
    assert(tick_fits(t, p));
}

/// So is a run of ticks.
proof fn lemma_advance_moves_pile(s: State, t: State, p: Params, n: nat)
    requires
        p.tick_wf(),
        moved_pile(s, t),
        advance_fits(s, p, n),
    ensures
        advance_fits(t, p, n),
        moved_pile(spec_advance(s, p, n), spec_advance(t, p, n)),
        spec_advance(s, p, n).collectable >= s.collectable,
    decreases n,
{
    if n > 0 {
        lemma_tick_moves_pile(s, t, p);
        lemma_advance_moves_pile(spec_tick(s, p), spec_tick(t, p), p, (n - 1) as nat);
    }
}


/// Milliseconds owed after the first `i` spans: what was owed before them,
/// plus each span scaled.
pub open spec fn owed_after(acc: int, mss: Seq<u64>, scale: u64, i: int) -> int
    decreases i,
{
    if i <= 0 {
        acc
    } else {
        owed_after(acc, mss, scale, i - 1) + scaled_ms(mss[i - 1], scale)
    }
}

proof fn lemma_owed_grows(acc: int, mss: Seq<u64>, scale: u64, i: int, j: int)
    requires
        0 <= acc,
        0 <= i <= j,
    ensures
        0 <= owed_after(acc, mss, scale, i) <= owed_after(acc, mss, scale, j),
        owed_after(acc, mss, scale, i) / 1000 <= owed_after(acc, mss, scale, j) / 1000,
    decreases j,
{
    if j > i {
        lemma_owed_grows(acc, mss, scale, i, j - 1);
    } else {
        lemma_owed_nonneg(acc, mss, scale, i);
    }
    let x = owed_after(acc, mss, scale, i);
    let y = owed_after(acc, mss, scale, j);
    vstd::arithmetic::div_mod::lemma_div_is_ordered(x, y, 1000);
}

proof fn lemma_owed_nonneg(acc: int, mss: Seq<u64>, scale: u64, i: int)
    requires
        0 <= acc,
    ensures
        0 <= owed_after(acc, mss, scale, i),
    decreases i,
{
    if i > 0 {
        lemma_owed_nonneg(acc, mss, scale, i - 1);
    }
}

/// Carrying the remainder: whole ticks of `t` plus those of its remainder
/// with `s` added are the whole ticks of `t + s`, with the same remainder.
proof fn lemma_carry(t: int, s: int)
    requires
        0 <= t,
        0 <= s,
    ensures
        t / 1000 + (t % 1000 + s) / 1000 == (t + s) / 1000,
        (t % 1000 + s) % 1000 == (t + s) % 1000,
{
    vstd::arithmetic::div_mod::lemma_fundamental_div_mod(t, 1000);
    vstd::arithmetic::div_mod::lemma_hoist_over_denominator(t % 1000 + s, t / 1000, 1000);
    vstd::arithmetic::div_mod::lemma_mod_multiples_vanish(t / 1000, t % 1000 + s, 1000);
    assert(t % 1000 + s + (t / 1000) * 1000 == t + s) by (nonlinear_arith)
        requires
            t == 1000 * (t / 1000) + t % 1000,
    ;
    assert(1000 * (t / 1000) + (t % 1000 + s) == t + s);
}

/// No time is lost or invented across any number of calls: after spans
/// `mss` of a started sea, with every owed tick fitting, the sea has run
/// exactly the whole ticks of all the time owed and keeps its sub-tick
/// remainder. On the wallpaper layer that is the sea advanced by those
/// ticks; on the game layer, where each call also collects, it is that sea
/// with its whole pile collected (where that collection fits).
pub proof fn law_elapsed_runs_every_owed_tick(apps: Seq<App>, mss: Seq<u64>)
    requires
        apps.len() == mss.len() + 1,
        forall|i: int| 0 <= i < mss.len() ==> App::elapsed(#[trigger] apps[i], apps[i + 1], mss[i]),
        apps[0].state.started,
        apps[0].params.tick_wf(),
        apps[0].tick_acc_ms < 1000,
        advance_fits(
            apps[0].state,
            apps[0].params,
            (owed_after(apps[0].tick_acc_ms as int, mss, apps[0].time_scale, mss.len() as int) / 1000) as nat,
        ),
        apps[0].layer == Layer::Game ==> collect_fits(
            spec_advance(
                apps[0].state,
                apps[0].params,
                (owed_after(apps[0].tick_acc_ms as int, mss, apps[0].time_scale, mss.len() as int) / 1000) as nat,
            ),
        ),
    ensures
        forall|i: int|
            0 <= i < apps.len() ==> {
                let owed = owed_after(apps[0].tick_acc_ms as int, mss, apps[0].time_scale, i);
                let sea = spec_advance(apps[0].state, apps[0].params, (owed / 1000) as nat);
                &&& (#[trigger] apps[i]).tick_acc_ms == owed % 1000
                &&& apps[i].params == apps[0].params
                &&& apps[i].layer == apps[0].layer
                &&& apps[i].time_scale == apps[0].time_scale
                &&& moved_pile(sea, apps[i].state)
                &&& (apps[0].layer == Layer::Wallpaper ==> apps[i].state == sea)
                &&& (apps[0].layer == Layer::Game && i > 0 ==> apps[i].state == spec_collect(sea))
            },
    decreases mss.len(),
{
    let a0 = apps[0];
    let p = a0.params;
    let acc = a0.tick_acc_ms as int;
    let scale = a0.time_scale;
    let last = mss.len() as int;
    let total = (owed_after(acc, mss, scale, last) / 1000) as nat;
    if last > 0 {
        let n = last - 1;
        let apps0 = apps.drop_last();
        let mss0 = mss.drop_last();
        assert forall|k: int| 0 <= k <= n implies owed_after(acc, mss0, scale, k) == owed_after(acc, mss, scale, k) by {
            lemma_owed_prefix(acc, mss, scale, k);
        }
        lemma_owed_grows(acc, mss, scale, n, last);
        let nn = (owed_after(acc, mss, scale, n) / 1000) as nat;
        lemma_fits_prefix(a0.state, p, nn, total);
        crate::engine::laws::law_advance_keeps_housing(a0.state, p, nn);
        crate::engine::laws::law_advance_keeps_housing(a0.state, p, total);
        lemma_advance_moves_pile(a0.state, a0.state, p, nn);
        lemma_advance_moves_pile(spec_advance(a0.state, p, nn), spec_advance(a0.state, p, nn), p, (total - nn) as nat);
        crate::engine::laws::law_advance_composes(a0.state, p, nn, (total - nn) as nat);
        assert(apps0[0] == a0);
        assert forall|i: int| 0 <= i < mss0.len() implies App::elapsed(#[trigger] apps0[i], apps0[i + 1], mss0[i]) by {
            assert(apps0[i] == apps[i] && apps0[i + 1] == apps[i + 1] && mss0[i] == mss[i]);
        }
        assert(collect_fits(spec_advance(a0.state, p, total)) ==> collect_fits(spec_advance(a0.state, p, nn)));
        law_elapsed_runs_every_owed_tick(apps0, mss0);
        assert(apps0[n] == apps[n]);
        lemma_elapsed_step(a0, apps[n], apps[n + 1], mss[n], owed_after(acc, mss, scale, n), total);
        assert forall|i: int| 0 <= i < apps.len() implies {
            let owed = owed_after(acc, mss, scale, i);
            let sea = spec_advance(a0.state, p, (owed / 1000) as nat);
            &&& (#[trigger] apps[i]).tick_acc_ms == owed % 1000
            &&& apps[i].params == p
            &&& apps[i].layer == a0.layer
            &&& apps[i].time_scale == scale
            &&& moved_pile(sea, apps[i].state)
            &&& (a0.layer == Layer::Wallpaper ==> apps[i].state == sea)
            &&& (a0.layer == Layer::Game && i > 0 ==> apps[i].state == spec_collect(sea))
        } by {
            if i <= n {
                assert(apps[i] == apps0[i]);
            }
        }
    } else {
        assert(owed_after(acc, mss, scale, 0) == acc);
        assert(acc / 1000 == 0 && acc % 1000 == acc);
        assert(spec_advance(a0.state, p, 0) == a0.state);
    }
}

proof fn lemma_owed_prefix(acc: int, mss: Seq<u64>, scale: u64, k: int)
    requires
        mss.len() > 0,
        0 <= k < mss.len(),
    ensures
        owed_after(acc, mss.drop_last(), scale, k) == owed_after(acc, mss, scale, k),
    decreases k,
{
    if k > 0 {
        lemma_owed_prefix(acc, mss, scale, k - 1);
        assert(mss.drop_last()[k - 1] == mss[k - 1]);
    }
}

/// One more span: from an app that has run the whole ticks of `owed`, the
/// next call runs those of `owed` plus the span.
proof fn lemma_elapsed_step(a0: App, a: App, b: App, ms: u64, owed: int, total: nat)
    requires
        a0.state.started,
        a0.params.tick_wf(),
        0 <= owed,
        App::elapsed(a, b, ms),
        a.tick_acc_ms == owed % 1000,
        a.params == a0.params,
        a.layer == a0.layer,
        a.time_scale == a0.time_scale,
        moved_pile(spec_advance(a0.state, a0.params, (owed / 1000) as nat), a.state),
        a0.layer == Layer::Wallpaper ==> a.state == spec_advance(a0.state, a0.params, (owed / 1000) as nat),
        (owed + scaled_ms(ms, a0.time_scale)) / 1000 <= total,
        advance_fits(a0.state, a0.params, total),
        a0.layer == Layer::Game ==> collect_fits(spec_advance(a0.state, a0.params, total)),
    ensures
        ({
            let owed2 = owed + scaled_ms(ms, a0.time_scale);
            let sea = spec_advance(a0.state, a0.params, (owed2 / 1000) as nat);
            &&& b.tick_acc_ms == owed2 % 1000
            &&& b.params == a0.params
            &&& b.layer == a0.layer
            &&& b.time_scale == a0.time_scale
            &&& moved_pile(sea, b.state)
            &&& (a0.layer == Layer::Wallpaper ==> b.state == sea)
            &&& (a0.layer == Layer::Game ==> b.state == spec_collect(sea))
        }),
{
    let p = a0.params;
    let st = a0.state;
    let sc = scaled_ms(ms, a0.time_scale);
    let owed2 = owed + sc;
    let n0 = (owed / 1000) as nat;
    let n1 = (owed2 / 1000) as nat;
    let s0 = spec_advance(st, p, n0);
    lemma_carry(owed, sc);
    let step = (n1 - n0) as nat;
    assert(owed / 1000 <= owed2 / 1000) by {
        vstd::arithmetic::div_mod::lemma_div_is_ordered(owed, owed2, 1000);
    }
    crate::engine::laws::law_advance_keeps_housing(st, p, n0);
    lemma_fits_prefix(st, p, n0, total);
    lemma_advance_moves_pile(s0, a.state, p, (total - n0) as nat);
    let t = a.tick_acc_ms + sc;
    assert(t / 1000 == step);
    let done = choose|done: nat|
        {
            &&& done <= t / 1000
            &&& advance_fits(a.state, a.params, done)
            &&& (done < t / 1000 ==> !tick_fits(spec_advance(a.state, a.params, done), a.params))
            &&& b == (App {
                state: drain_on(spec_advance(a.state, a.params, done), a.layer),
                tick_acc_ms: (t % 1000) as u64,
                ..a
            })
        };
    lemma_fits_prefix(a.state, p, done, (total - n0) as nat);
    assert(done == step);
    crate::engine::laws::law_advance_composes(st, p, n0, step);
    assert(n0 + step == n1);
    lemma_fits_prefix(s0, p, step, (total - n0) as nat);
    lemma_advance_moves_pile(s0, a.state, p, step);
    let sea = spec_advance(st, p, n1);
    let moved = spec_advance(a.state, p, step);
    if a0.layer == Layer::Game {
        crate::engine::laws::law_advance_keeps_housing(st, p, n1);
        crate::engine::laws::law_advance_keeps_housing(st, p, total);
        lemma_fits_prefix(st, p, n1, total);
        lemma_advance_moves_pile(sea, sea, p, (total - n1) as nat);
        crate::engine::laws::law_advance_composes(st, p, n1, (total - n1) as nat);
        assert(n1 + (total - n1) as nat == total);
        assert(collect_fits(moved));
        assert(spec_collect(moved) == spec_collect(sea));
    }
}


/// The buy keys follow the trophic chain: during a run on the game layer,
/// the digit `d` from 1 to 4 buys one individual of the `d`-th species,
/// algae first and big fish last, for the price its next unit costs, when
/// the purse covers it and its housing has room, and nothing otherwise.
/// No other species changes, and the purse moves by exactly that price
/// (beyond whatever the pile brings in, which also counts into the score).
pub proof fn law_digit_keys_buy_down_the_chain(a: App, b: App, d: char)
    requires
        '1' <= d <= '4',
        App::keyed(a, b, Key::Char(d), false),
        a.layer == Layer::Game,
        !a.anchor_mode,
        a.state.started,
        !a.new_sea_pending,
        a.state.spec_capacity(d as int - '1' as int, &a.params) <= u32::MAX,
    ensures
        ({
            let i = d as int - '1' as int;
            let cost = crate::engine::state::cost_after(
                a.params.base_cost@[i],
                a.params.cost_growth,
                a.state.population[i] as nat,
            );
            let can = a.state.currency >= cost && a.state.population[i] < a.state.spec_capacity(i, &a.params);
            &&& can ==> b.state.population[i] == a.state.population[i] + 1
            &&& !can ==> b.state.population[i] == a.state.population[i]
            &&& forall|j: int| 0 <= j < 4 && j != i ==> #[trigger] b.state.population[j] == a.state.population[j]
            &&& b.state.currency - b.state.score == a.state.currency - a.state.score - (if can {
                cost as int
            } else {
                0
            })
            &&& b.state.reefs == a.state.reefs
        }),
{
    let key = Key::Char(d);
    assert(!is_quit(key, false));
    let sp = buy_key(key)->0;
    assert(buy_key(key) is Some);
    assert(sp.spec_index() == d as int - '1' as int);
    let s = choose|s: State|
        {
            &&& (if a.state.spec_capacity(sp.spec_index(), &a.params) <= u32::MAX {
                bought_from(a.state, s, sp, a.params)
            } else {
                s == a.state
            })
            &&& b == (App { state: drained(s), ..a })
        };
    assert(a.state.spec_next_cost(sp, &a.params) == crate::engine::state::cost_after(
        a.params.base_cost@[sp.spec_index()],
        a.params.cost_growth,
        a.state.population[sp.spec_index()] as nat,
    ));
}


/// The unlocked kinds are listed once each, in kind order: every entry is
/// an unlocked kind below `n`, entries rise strictly, and every unlocked
/// kind below `n` is listed.
#[verifier::spinoff_prover]
proof fn lemma_unlocked_kinds(p: Params, score: u128, n: int)
    requires
        0 <= n <= p.reef_kinds@.len(),
        n <= usize::MAX,
    ensures
        forall|i: int|
            0 <= i < unlocked_kinds(p, score, n).len() ==> (#[trigger] unlocked_kinds(p, score, n)[i]) < n
                && score >= p.reef_kinds@[unlocked_kinds(p, score, n)[i] as int].unlock,
        forall|i: int, j: int|
            0 <= i < j < unlocked_kinds(p, score, n).len() ==> (#[trigger] unlocked_kinds(p, score, n)[i])
                < (#[trigger] unlocked_kinds(p, score, n)[j]),
        forall|k: int|
            0 <= k < n && score >= (#[trigger] p.reef_kinds@[k]).unlock ==> unlocked_kinds(p, score, n).contains(
                k as usize,
            ),
    decreases n,
{
    if n > 0 {
        lemma_unlocked_kinds(p, score, n - 1);
        let rest = unlocked_kinds(p, score, n - 1);
        let u = unlocked_kinds(p, score, n);
        if score >= p.reef_kinds@[n - 1].unlock {
            assert(u == rest.push((n - 1) as usize));
            assert forall|i: int| 0 <= i < u.len() implies (#[trigger] u[i]) < n && score >= p.reef_kinds@[u[i] as int].unlock by {
                if i < rest.len() {
                    assert(u[i] == rest[i]);
                    assert(rest[i] < n - 1 && score >= p.reef_kinds@[rest[i] as int].unlock);
                } else {
                    assert(i == rest.len());
                    assert(u[i] == (n - 1) as usize);
                }
            }
            assert forall|i: int, j: int| 0 <= i < j < u.len() implies (#[trigger] u[i]) < (#[trigger] u[j]) by {
                assert(u[i] == rest[i]);
                assert(rest[i] < n - 1);
                if j < rest.len() {
                    assert(u[j] == rest[j]);
                } else {
                    assert(u[j] == (n - 1) as usize);
                }
            }
            assert forall|k: int| 0 <= k < n && score >= (#[trigger] p.reef_kinds@[k]).unlock implies u.contains(k as usize) by {
                if k < n - 1 {
                    let m = choose|m: int| 0 <= m < rest.len() && rest[m] == k as usize;
                    assert(u[m] == k as usize);
                } else {
                    assert(u[u.len() - 1] == k as usize);
                }
            }
        }
    }
}

proof fn lemma_position_nonneg(u: Seq<usize>, k: usize)
    ensures
        0 <= position_of(u, k),
        u.len() > 0 ==> position_of(u, k) < u.len(),
    decreases u.len(),
{
    if u.len() > 0 {
        lemma_position_nonneg(u.drop_last(), k);
    }
}

/// Where a listed kind stands in the list.
proof fn lemma_position_of(u: Seq<usize>, k: usize)
    requires
        u.contains(k),
    ensures
        0 <= position_of(u, k) < u.len(),
        u[position_of(u, k)] == k,
    decreases u.len(),
{
    let dl = u.drop_last();
    lemma_position_nonneg(dl, k);
    lemma_position_nonneg(u, k);
    if dl.contains(k) {
        lemma_position_of(dl, k);
        assert(dl[position_of(dl, k)] == u[position_of(dl, k)]);
        assert(position_of(u, k) == position_of(dl, k));
    } else {
        let m = choose|m: int| 0 <= m < u.len() && u[m] == k;
        if m < u.len() - 1 {
            assert(dl[m] == k);
        }
        assert(u.last() == k);
        if 0 <= position_of(dl, k) < u.len() - 1 && dl[position_of(dl, k)] == k {
            assert(dl.contains(k));
        }
    }
}

/// Whether the score has unlocked kind `k`.
pub open spec fn kind_is_unlocked(a: App, k: int) -> bool {
    0 <= k < a.params.reef_kinds@.len() && a.state.score >= a.params.reef_kinds@[k].unlock
}

/// The kind cycler steps through the unlocked kinds in kind order, wrapping:
/// from an unlocked kind, a step forward lands on the next unlocked kind
/// above it (the lowest unlocked one past the last), a step back on the next
/// unlocked kind below it (the highest one before the first), and a step
/// back undoes a step forward and a step forward undoes a step back.
#[verifier::spinoff_prover]
pub proof fn law_kind_cycle_steps_through_unlocked_kinds(a: App)
    requires
        kind_is_unlocked(a, a.placement_kind as int),
    ensures
        ({
            let k = a.placement_kind as int;
            let f = a.cycled_kind(true) as int;
            let g = a.cycled_kind(false) as int;
            &&& kind_is_unlocked(a, f)
            &&& kind_is_unlocked(a, g)
            &&& (exists|j: int| kind_is_unlocked(a, j) && j > k) ==> f > k && forall|j: int|
                k < j < f ==> !kind_is_unlocked(a, j)
            &&& (forall|j: int| kind_is_unlocked(a, j) ==> j <= k) ==> forall|j: int|
                kind_is_unlocked(a, j) ==> f <= j
            &&& (exists|j: int| kind_is_unlocked(a, j) && j < k) ==> g < k && forall|j: int|
                g < j < k ==> !kind_is_unlocked(a, j)
            &&& (forall|j: int| kind_is_unlocked(a, j) ==> j >= k) ==> forall|j: int|
                kind_is_unlocked(a, j) ==> g >= j
            &&& (App { placement_kind: a.cycled_kind(true), ..a }).cycled_kind(false) == a.placement_kind
            &&& (App { placement_kind: a.cycled_kind(false), ..a }).cycled_kind(true) == a.placement_kind
        }),
{
    let p = a.params;
    let score = a.state.score;
    let nk = p.reef_kinds@.len() as int;
    vstd::std_specs::vec::axiom_spec_len(&p.reef_kinds);
    lemma_unlocked_kinds(p, score, nk);
    let u = unlocked_kinds(p, score, nk);
    let k = a.placement_kind;
    assert(score >= p.reef_kinds@[k as int].unlock);
    assert(u.contains(k));
    lemma_position_of(u, k);
    let n = u.len() as int;
    let h = position_of(u, k);
    // Listed kinds sit at exactly one place, in value order.
    assert forall|i: int, j: int| 0 <= i < n && 0 <= j < n && u[i] < u[j] implies i < j by {
        if j < i {
            assert(u[j] < u[i]);
        } else if i == j {
        }
    }
    assert forall|j: int| kind_is_unlocked(a, j) implies exists|m: int| 0 <= m < n && u[m] == j as usize by {
        assert(score >= p.reef_kinds@[j].unlock);
        assert(u.contains(j as usize));
    }
    let hf = if h + 1 < n { h + 1 } else { 0 };
    let hb = if h == 0 { n - 1 } else { h - 1 };
    assert((h + 1) % n == hf) by (nonlinear_arith)
        requires
            0 <= h < n,
            hf == if h + 1 < n { h + 1 } else { 0 },
    ;
    assert(a.cycled_kind(true) == u[hf]);
    assert(a.cycled_kind(false) == u[hb]);
    // A step back from the kind a step forward reached, and vice versa.
    let bf = App { placement_kind: u[hf], ..a };
    let bb = App { placement_kind: u[hb], ..a };
    assert(u.contains(u[hf]));
    assert(u.contains(u[hb]));
    lemma_position_of(u, u[hf]);
    lemma_position_of(u, u[hb]);
    assert(position_of(u, u[hf]) == hf) by {
        let q = position_of(u, u[hf]);
        if q < hf {
            assert(u[q] < u[hf]);
        } else if q > hf {
            assert(u[hf] < u[q]);
        }
    }
    assert(position_of(u, u[hb]) == hb) by {
        let q = position_of(u, u[hb]);
        if q < hb {
            assert(u[q] < u[hb]);
        } else if q > hb {
            assert(u[hb] < u[q]);
        }
    }
    assert(bf.cycled_kind(false) == u[if hf == 0 { n - 1 } else { hf - 1 }]);
    assert(bb.cycled_kind(true) == u[(hb + 1) % n]);
    assert((hb + 1) % n == h) by (nonlinear_arith)
        requires
            0 <= h < n,
            hb == if h == 0 { n - 1 } else { h - 1 },
    ;
    // Forward and back land on the neighbours in kind order.
    assert forall|j: int| kind_is_unlocked(a, j) && j > k implies h + 1 < n && u[h + 1] > k && u[h + 1] <= j by {
        let m = choose|m: int| 0 <= m < n && u[m] == j as usize;
        assert(u[h] < u[m]);
        if m > h + 1 {
            assert(u[h + 1] < u[m]);
        }
    }
    assert forall|j: int| kind_is_unlocked(a, j) && j < k implies h > 0 && u[h - 1] < k && u[h - 1] >= j by {
        let m = choose|m: int| 0 <= m < n && u[m] == j as usize;
        assert(u[m] < u[h]);
        if m < h - 1 {
            assert(u[m] < u[h - 1]);
        }
    }
    assert forall|j: int| kind_is_unlocked(a, j) implies u[0] <= j && u[n - 1] >= j by {
        let m = choose|m: int| 0 <= m < n && u[m] == j as usize;
        if m > 0 {
            assert(u[0] < u[m]);
        }
        if m < n - 1 {
            assert(u[m] < u[n - 1]);
        }
    }
    assert forall|j: int| k < j < u[hf] implies !kind_is_unlocked(a, j) by {
        if kind_is_unlocked(a, j) {
            let m = choose|m: int| 0 <= m < n && u[m] == j as usize;
            assert(u[h] < u[m] && u[m] < u[hf]);
        }
    }
    assert forall|j: int| u[hb] < j < k implies !kind_is_unlocked(a, j) by {
        if kind_is_unlocked(a, j) {
            let m = choose|m: int| 0 <= m < n && u[m] == j as usize;
            assert(u[hb] < u[m] && u[m] < u[h]);
        }
    }
    assert(kind_is_unlocked(a, u[hf] as int) && kind_is_unlocked(a, u[hb] as int));
    if exists|j: int| kind_is_unlocked(a, j) && j > k {
        let j = choose|j: int| kind_is_unlocked(a, j) && j > k;
        assert(h + 1 < n);
        assert(hf == h + 1);
    } else {
        if h + 1 < n {
            assert(u[h] < u[h + 1]);
            assert(kind_is_unlocked(a, u[h + 1] as int));
        }
        assert(hf == 0);
    }
    if exists|j: int| kind_is_unlocked(a, j) && j < k {
        let j = choose|j: int| kind_is_unlocked(a, j) && j < k;
        assert(h > 0);
        assert(hb == h - 1);
    } else {
        if h > 0 {
            assert(u[h - 1] < u[h]);
            assert(kind_is_unlocked(a, u[h - 1] as int));
        }
        assert(hb == n - 1);
    }
}

} // verus!
