//! The text the game layer shows: amounts in whole units and the lines of
//! the HUD and the placement screen. Numbers live here and only here; the
//! wallpaper never shows them. Where the text goes on screen, and in which
//! color, is the renderer's.

use vstd::prelude::*;
use vstd::string::StringExecFns;

use crate::app::App;
use crate::engine::params::{Params, ReefKind, MICRO};
use crate::engine::state::State;
use crate::text::{append_dec, chars_of, dec};

verus! {

/// An amount in whole units, rounded down: the micro precision is an engine
/// detail the player never sees.
pub open spec fn amount_text(x: u128) -> Seq<char> {
    chars_of(dec((x / MICRO) as nat))
}

/// A price in whole units, rounded up.
pub open spec fn units_up(x: u128) -> nat {
    if x % MICRO == 0 {
        (x / MICRO) as nat
    } else {
        (x / MICRO + 1) as nat
    }
}

pub open spec fn cost_text(x: u128) -> Seq<char> {
    chars_of(dec(units_up(x)))
}

/// Money rounds down...
pub fn fmt_amount(x: u128) -> (t: String)
    ensures
        t@ == amount_text(x),
{
    let mut t = String::new();
    append_dec(&mut t, x / MICRO);
    t
}

/// ...and costs round up, so displayed money at least the displayed cost
/// always means the purchase really goes through.
pub fn fmt_cost(x: u128) -> (t: String)
    ensures
        t@ == cost_text(x),
{
    let q = x / MICRO;
    let units = if x % MICRO == 0 {
        q
    } else {
        q + 1
    };
    let mut t = String::new();
    append_dec(&mut t, units);
    t
}

/// The highest budget threshold at or below `score` (0 when there is none):
/// the latest budget wall the score has crossed.
pub open spec fn latest_wall(steps: Seq<(u128, u32)>, score: u128) -> u128
    decreases steps.len(),
{
    if steps.len() == 0 {
        0
    } else {
        let rest = latest_wall(steps.drop_last(), score);
        let t = steps.last().0;
        if t <= score && t > rest {
            t
        } else {
            rest
        }
    }
}

/// The last kind among the first `n` whose unlock is exactly `wall`: the
/// reward that wall brought, if it brought one.
pub open spec fn kind_unlocked_at(kinds: Seq<ReefKind>, wall: u128, n: int) -> Option<int>
    decreases n,
{
    if n <= 0 {
        None
    } else if kinds[n - 1].unlock == wall {
        Some(n - 1)
    } else {
        kind_unlocked_at(kinds, wall, n - 1)
    }
}

/// The lowest unlock above `score` among the first `n` kinds: the next reef
/// to work toward.
pub open spec fn next_unlock(kinds: Seq<ReefKind>, score: u128, n: int) -> Option<u128>
    decreases n,
{
    if n <= 0 {
        None
    } else {
        let u = kinds[n - 1].unlock;
        match next_unlock(kinds, score, n - 1) {
            Some(m) => if u > score && u < m {
                Some(u)
            } else {
                Some(m)
            },
            None => if u > score {
                Some(u)
            } else {
                None
            },
        }
    }
}

/// The HUD score line, and whether it calls for action. When the score's
/// budget exceeds what the placed reef spends, a rebuild could place more
/// reef: the line shows `budget {spent}/{budget}`, points at a new sea, and
/// names the kind the latest crossed budget wall unlocked, if that wall added
/// one. Otherwise it shows the next locked threshold as the goal, or just the
/// score once every reef is unlocked.
pub open spec fn score_line_of(s: State, p: Params) -> (Seq<char>, bool) {
    let spent = s.spec_placed_cost(&p);
    let budget = p.spec_budget(s.score);
    let head = "score "@ + amount_text(s.score);
    if budget > spent {
        let tail = "budget "@ + chars_of(dec(spent as nat)) + "/"@ + chars_of(dec(budget as nat))
            + " - [n] new sea"@;
        match kind_unlocked_at(
            p.reef_kinds@,
            latest_wall(p.budget_steps@, s.score),
            p.reef_kinds@.len() as int,
        ) {
            Some(k) => (head + "   "@ + p.reef_kinds@[k].name@ + " unlocked, "@ + tail, true),
            None => (head + "   "@ + tail, true),
        }
    } else {
        match next_unlock(p.reef_kinds@, s.score, p.reef_kinds@.len() as int) {
            Some(u) => (head + "   next reef at "@ + amount_text(u), false),
            None => (head, false),
        }
    }
}

/// What `kind_unlocked_at` finds: the last of the first `n` kinds whose
/// unlock is exactly the wall, or none when no such kind exists.
proof fn lemma_kind_unlocked_at(kinds: Seq<ReefKind>, wall: u128, n: int)
    requires
        0 <= n <= kinds.len(),
    ensures
        match kind_unlocked_at(kinds, wall, n) {
            Some(k) => 0 <= k < n && kinds[k].unlock == wall && forall|j: int|
                k < j < n ==> (#[trigger] kinds[j]).unlock != wall,
            None => forall|j: int| 0 <= j < n ==> (#[trigger] kinds[j]).unlock != wall,
        },
    decreases n,
{
    if n > 0 {
        lemma_kind_unlocked_at(kinds, wall, n - 1);
    }
}

/// The headroom line names a kind only as the reward of the latest budget
/// wall the score has crossed: the last kind whose unlock is exactly that
/// wall. When no kind unlocks at that wall, the line names none and reads
/// just the score and the budget headroom.
pub proof fn law_headroom_names_only_the_walls_reward(s: State, p: Params)
    requires
        p.spec_budget(s.score) > s.spec_placed_cost(&p),
    ensures
        ({
            let wall = latest_wall(p.budget_steps@, s.score);
            let kinds = p.reef_kinds@;
            let head = "score "@ + amount_text(s.score);
            let tail = "budget "@ + chars_of(dec(s.spec_placed_cost(&p) as nat)) + "/"@ + chars_of(
                dec(p.spec_budget(s.score) as nat),
            ) + " - [n] new sea"@;
            &&& (forall|j: int| 0 <= j < kinds.len() ==> (#[trigger] kinds[j]).unlock != wall) ==> score_line_of(s, p)
                == (head + "   "@ + tail, true)
            &&& forall|k: int|
                0 <= k < kinds.len() && (#[trigger] kinds[k]).unlock == wall && (forall|j: int|
                    k < j < kinds.len() ==> (#[trigger] kinds[j]).unlock != wall) ==> score_line_of(s, p) == (
                head + "   "@ + kinds[k].name@ + " unlocked, "@ + tail,
                true,
            )
        }),
{
    let wall = latest_wall(p.budget_steps@, s.score);
    let kinds = p.reef_kinds@;
    lemma_kind_unlocked_at(kinds, wall, kinds.len() as int);
    assert forall|k: int|
        0 <= k < kinds.len() && (#[trigger] kinds[k]).unlock == wall && (forall|j: int|
            k < j < kinds.len() ==> (#[trigger] kinds[j]).unlock != wall) implies kind_unlocked_at(
        kinds,
        wall,
        kinds.len() as int,
    ) == Some(k) by {
        match kind_unlocked_at(kinds, wall, kinds.len() as int) {
            Some(m) => {
                if m < k {
                    assert(kinds[k].unlock != wall);
                } else if m > k {
                    assert(kinds[m].unlock != wall);
                }
            },
            None => {
                assert(kinds[k].unlock != wall);
            },
        }
    }
}

/// The latest wall is the highest budget threshold the score has reached:
/// at most the score, no lower than any threshold at or below the score,
/// and one of them (or 0 when there is none).
pub proof fn law_latest_wall_is_the_highest_crossed(steps: Seq<(u128, u32)>, score: u128)
    ensures
        latest_wall(steps, score) <= score,
        forall|i: int| 0 <= i < steps.len() && (#[trigger] steps[i]).0 <= score ==> steps[i].0 <= latest_wall(steps, score),
        latest_wall(steps, score) == 0 || exists|i: int|
            0 <= i < steps.len() && (#[trigger] steps[i]).0 == latest_wall(steps, score),
    decreases steps.len(),
{
    if steps.len() > 0 {
        let init = steps.drop_last();
        law_latest_wall_is_the_highest_crossed(init, score);
        assert forall|i: int| 0 <= i < steps.len() && (#[trigger] steps[i]).0 <= score implies steps[i].0 <= latest_wall(steps, score) by {
            if i < init.len() {
                assert(init[i] == steps[i]);
            }
        }
        if latest_wall(steps, score) != 0 {
            if latest_wall(steps, score) == latest_wall(init, score) {
                let i = choose|i: int| 0 <= i < init.len() && (#[trigger] init[i]).0 == latest_wall(init, score);
                assert(steps[i] == init[i]);
            } else {
                assert(steps[steps.len() - 1] == steps.last());
            }
        }
    }
}

/// The goal the line shows is the lowest unlock above the score: above the
/// score, some kind's unlock, and no kind unlocks strictly between; none
/// when every kind is unlocked.
pub proof fn law_next_goal_is_the_lowest_locked_unlock(kinds: Seq<ReefKind>, score: u128, n: int)
    requires
        0 <= n <= kinds.len(),
    ensures
        match next_unlock(kinds, score, n) {
            Some(u) => u > score && (exists|k: int| 0 <= k < n && (#[trigger] kinds[k]).unlock == u) && forall|k: int|
                0 <= k < n && (#[trigger] kinds[k]).unlock > score ==> kinds[k].unlock >= u,
            None => forall|k: int| 0 <= k < n ==> (#[trigger] kinds[k]).unlock <= score,
        },
    decreases n,
{
    if n > 0 {
        law_next_goal_is_the_lowest_locked_unlock(kinds, score, n - 1);
        let last = n - 1;
        assert(kinds[last].unlock == kinds[last].unlock);
    }
}

/// Placement budget the placed reefs spend, summed with `u32` arithmetic.
fn spent_budget(s: &State, p: &Params) -> (c: u32)
    requires
        s.reefs_valid(p),
        s.spec_placed_cost(p) <= u32::MAX,
    ensures
        c == s.spec_placed_cost(p),
{
    let ghost xs = crate::engine::state::reef_costs(s.reefs@, p.reef_kinds@);
    let mut total: u32 = 0;
    let mut i: usize = 0;
    while i < s.reefs.len()
        invariant
            s.reefs_valid(p),
            xs == crate::engine::state::reef_costs(s.reefs@, p.reef_kinds@),
            crate::engine::state::seq_sum(xs) <= u32::MAX,
            i <= s.reefs@.len(),
            total == crate::engine::state::seq_sum(xs.take(i as int)),
        decreases s.reefs@.len() - i,
    {
        proof {
            assert(s.reefs@[i as int].kind < p.reef_kinds@.len());
            crate::engine::state::lemma_prefix_sum(xs, i as int);
        }
        total = total + p.reef_kinds[s.reefs[i].kind].cost;
        i += 1;
    }
    assert(xs.take(i as int) =~= xs);
    total
}

/// The lifetime score line of the HUD, and whether it reads as actionable.
pub fn score_line(app: &App) -> (r: (String, bool))
    requires
        app.state.reefs_valid(&app.params),
        app.state.spec_placed_cost(&app.params) <= u32::MAX,
    ensures
        (r.0@, r.1) == score_line_of(app.state, app.params),
{
    let s = &app.state;
    let p = &app.params;
    let score = s.score;
    let spent = spent_budget(s, p);
    let budget = p.budget(score);
    let mut line = String::from_str("score ");
    line.append(fmt_amount(score).as_str());
    if budget > spent {
        // The latest budget wall the score has crossed.
        let mut wall: u128 = 0;
        let mut i: usize = 0;
        while i < p.budget_steps.len()
            invariant
                i <= p.budget_steps@.len(),
                wall == latest_wall(p.budget_steps@.take(i as int), score),
            decreases p.budget_steps@.len() - i,
        {
            assert(p.budget_steps@.take(i + 1).drop_last() =~= p.budget_steps@.take(i as int));
            let t = p.budget_steps[i].0;
            if t <= score && t > wall {
                wall = t;
            }
            i += 1;
        }
        assert(p.budget_steps@.take(i as int) =~= p.budget_steps@);
        // The kind (if any) that wall unlocked: the reward to name while it
        // is still the newest.
        let mut k: usize = p.reef_kinds.len();
        let mut fresh: Option<usize> = None;
        while k > 0 && fresh.is_none()
            invariant
                k <= p.reef_kinds@.len(),
                fresh is None ==> kind_unlocked_at(p.reef_kinds@, wall, p.reef_kinds@.len() as int)
                    == kind_unlocked_at(p.reef_kinds@, wall, k as int),
                fresh matches Some(f) ==> kind_unlocked_at(
                    p.reef_kinds@,
                    wall,
                    p.reef_kinds@.len() as int,
                ) == Some(f as int) && f < p.reef_kinds@.len(),
            decreases k,
        {
            if p.reef_kinds[k - 1].unlock == wall {
                fresh = Some(k - 1);
            }
            k -= 1;
        }
        line.append("   ");
        match fresh {
            Some(f) => {
                line.append(p.reef_kinds[f].name);
                line.append(" unlocked, ");
            },
            None => {},
        }
        line.append("budget ");
        append_dec(&mut line, spent as u128);
        line.append("/");
        append_dec(&mut line, budget as u128);
        line.append(" - [n] new sea");
        proof {
            reveal_strlit("   ");
        }
        (line, true)
    } else {
        let mut next: Option<u128> = None;
        let mut i: usize = 0;
        while i < p.reef_kinds.len()
            invariant
                i <= p.reef_kinds@.len(),
                next == next_unlock(p.reef_kinds@, score, i as int),
            decreases p.reef_kinds@.len() - i,
        {
            let u = p.reef_kinds[i].unlock;
            next = match next {
                Some(m) => if u > score && u < m {
                    Some(u)
                } else {
                    Some(m)
                },
                None => if u > score {
                    Some(u)
                } else {
                    None
                },
            };
            i += 1;
        }
        match next {
            Some(u) => {
                line.append("   next reef at ");
                line.append(fmt_amount(u).as_str());
            },
            None => {},
        }
        (line, false)
    }
}

/// A species segment of the HUD: `[n] Label pop/cap  $cost`.
pub fn species_segment(number: u8, label: &str, population: u32, capacity: u32, cost: u128) -> (t: String)
    ensures
        t@ == "["@ + chars_of(dec(number as nat)) + "] "@ + label@ + " "@ + chars_of(
            dec(population as nat),
        ) + "/"@ + chars_of(dec(capacity as nat)) + "  $"@ + cost_text(cost),
{
    let mut t = String::from_str("[");
    append_dec(&mut t, number as u128);
    t.append("] ");
    t.append(label);
    t.append(" ");
    append_dec(&mut t, population as u128);
    t.append("/");
    append_dec(&mut t, capacity as u128);
    t.append("  $");
    t.append(fmt_cost(cost).as_str());
    t
}

/// A placeable kind on the placement screen: `name(cost)`.
pub fn kind_segment(name: &str, cost: u32) -> (t: String)
    ensures
        t@ == name@ + "("@ + chars_of(dec(cost as nat)) + ")"@,
{
    let mut t = String::from_str(name);
    t.append("(");
    append_dec(&mut t, cost as u128);
    t.append(")");
    t
}

/// The placement screen's budget line: `budget {used}/{total}`.
pub fn budget_line(used: u32, total: u32) -> (t: String)
    ensures
        t@ == "budget "@ + chars_of(dec(used as nat)) + "/"@ + chars_of(dec(total as nat)),
{
    let mut t = String::from_str("budget ");
    append_dec(&mut t, used as u128);
    t.append("/");
    append_dec(&mut t, total as u128);
    t
}

/// The next reef still to unlock: `{name} unlocks at {amount}`.
pub fn unlock_line(name: &str, unlock: u128) -> (t: String)
    ensures
        t@ == name@ + " unlocks at "@ + amount_text(unlock),
{
    let mut t = String::from_str(name);
    t.append(" unlocks at ");
    t.append(fmt_amount(unlock).as_str());
    t
}

/// The HUD money line: `$ {amount}`.
pub fn money_line(currency: u128) -> (t: String)
    ensures
        t@ == "$ "@ + amount_text(currency),
{
    let mut t = String::from_str("$ ");
    t.append(fmt_amount(currency).as_str());
    t
}

/// The flash after a collect: `+{amount} collected`.
pub fn flash_line(gained: u128) -> (t: String)
    ensures
        t@ == "+"@ + amount_text(gained) + " collected"@,
{
    let mut t = String::from_str("+");
    t.append(fmt_amount(gained).as_str());
    t.append(" collected");
    t
}


/// How a species' buy segment reads: full when its housing is taken,
/// affordable when the purse covers the next one, plain otherwise.
#[derive(Clone, Copy, PartialEq, Eq, Debug, Structural)]
pub enum Highlight {
    Full,
    Affordable,
    Plain,
}

pub open spec fn spec_highlight(population: u32, capacity: u32, cost: u128, currency: u128) -> Highlight {
    if population >= capacity {
        Highlight::Full
    } else if currency >= cost {
        Highlight::Affordable
    } else {
        Highlight::Plain
    }
}

pub fn highlight(population: u32, capacity: u32, cost: u128, currency: u128) -> (h: Highlight)
    ensures
        h == spec_highlight(population, capacity, cost, currency),
{
    if population >= capacity {
        Highlight::Full
    } else if currency >= cost {
        Highlight::Affordable
    } else {
        Highlight::Plain
    }
}

/// The line that replaces the key hint while the anchor is being moved.
pub open spec fn anchor_mode_hint() -> Seq<char> {
    "moving the anchor - [</>] slide, [enter] done"@
}

/// The key hint under the running tank: the anchor-move line while the
/// anchor is held, the new-sea prompt while one is pending, else the keys,
/// with the anchor's once it is unlocked.
pub open spec fn spec_game_hint(anchor_mode: bool, new_sea_pending: bool, anchor_unlocked: bool) -> Seq<char> {
    if anchor_mode {
        anchor_mode_hint()
    } else if new_sea_pending {
        "start a new sea? score & unlocks stay - [y] yes, any key: no"@
    } else if anchor_unlocked {
        "[1-4] buy   [n] new sea   [a] anchor   [q] quit"@
    } else {
        "[1-4] buy   [n] new sea   [q] quit"@
    }
}

pub fn game_hint(anchor_mode: bool, new_sea_pending: bool, anchor_unlocked: bool) -> (t: &'static str)
    ensures
        t@ == spec_game_hint(anchor_mode, new_sea_pending, anchor_unlocked),
{
    if anchor_mode {
        "moving the anchor - [</>] slide, [enter] done"
    } else if new_sea_pending {
        "start a new sea? score & unlocks stay - [y] yes, any key: no"
    } else if anchor_unlocked {
        "[1-4] buy   [n] new sea   [a] anchor   [q] quit"
    } else {
        "[1-4] buy   [n] new sea   [q] quit"
    }
}

/// The key hint under the placement screen: the anchor-move line while the
/// anchor is held, else the placement keys, with the anchor's once it is
/// unlocked.
pub open spec fn spec_placement_hint(anchor_mode: bool, anchor_unlocked: bool) -> Seq<char> {
    if anchor_mode {
        anchor_mode_hint()
    } else if anchor_unlocked {
        "[</>] move  [^/v] kind  [enter] place  [bksp] remove  [s] start  [a] anchor"@
    } else {
        "[</>] move  [^/v] kind  [enter] place  [bksp] remove  [s] start"@
    }
}

pub fn placement_hint(anchor_mode: bool, anchor_unlocked: bool) -> (t: &'static str)
    ensures
        t@ == spec_placement_hint(anchor_mode, anchor_unlocked),
{
    if anchor_mode {
        "moving the anchor - [</>] slide, [enter] done"
    } else if anchor_unlocked {
        "[</>] move  [^/v] kind  [enter] place  [bksp] remove  [s] start  [a] anchor"
    } else {
        "[</>] move  [^/v] kind  [enter] place  [bksp] remove  [s] start"
    }
}

/// The first kind, in manifest order, that the score has not unlocked: the
/// goal the placement screen names.
pub fn first_locked(kinds: &Vec<ReefKind>, score: u128) -> (r: Option<usize>)
    ensures
        match r {
            Some(i) => i < kinds@.len() && score < kinds@[i as int].unlock && forall|j: int|
                0 <= j < i ==> (#[trigger] kinds@[j]).unlock <= score,
            None => forall|j: int| 0 <= j < kinds@.len() ==> (#[trigger] kinds@[j]).unlock <= score,
        },
{
    let mut i: usize = 0;
    while i < kinds.len()
        invariant
            i <= kinds@.len(),
            forall|j: int| 0 <= j < i ==> (#[trigger] kinds@[j]).unlock <= score,
        decreases kinds@.len() - i,
    {
        if score < kinds[i].unlock {
            return Some(i);
        }
        i += 1;
    }
    None
}


/// The kinds the score has unlocked, in manifest order: what the placement
/// screen lists.
pub fn unlocked_kinds(kinds: &Vec<ReefKind>, score: u128) -> (r: Vec<usize>)
    ensures
        forall|i: int| 0 <= i < r@.len() ==> (#[trigger] r@[i]) < kinds@.len() && kinds@[r@[i] as int].unlock <= score,
        forall|i: int, j: int| 0 <= i < j < r@.len() ==> (#[trigger] r@[i]) < (#[trigger] r@[j]),
        forall|k: int| 0 <= k < kinds@.len() && (#[trigger] kinds@[k]).unlock <= score ==> r@.contains(k as usize),
{
    let mut r: Vec<usize> = Vec::new();
    let mut k: usize = 0;
    while k < kinds.len()
        invariant
            k <= kinds@.len(),
            forall|i: int| 0 <= i < r@.len() ==> (#[trigger] r@[i]) < k && kinds@[r@[i] as int].unlock <= score,
            forall|i: int, j: int| 0 <= i < j < r@.len() ==> (#[trigger] r@[i]) < (#[trigger] r@[j]),
            forall|m: int| 0 <= m < k && (#[trigger] kinds@[m]).unlock <= score ==> r@.contains(m as usize),
        decreases kinds@.len() - k,
    {
        if kinds[k].unlock <= score {
            let ghost before = r@;
            r.push(k);
            proof {
                assert forall|m: int| 0 <= m < k + 1 && (#[trigger] kinds@[m]).unlock <= score implies r@.contains(
                    m as usize,
                ) by {
                    if m < k {
                        let i = choose|i: int| 0 <= i < before.len() && before[i] == m as usize;
                        assert(r@[i] == m as usize);
                    } else {
                        assert(r@[r@.len() - 1] == k);
                    }
                }
            }
        }
        k += 1;
    }
    r
}

} // verus!
