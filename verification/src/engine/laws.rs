//! What holds of the engine across its operations.

use vstd::prelude::*;

use super::params::{budget_of, lemma_fraction_shrinks, sat_mul, Params, Ratio, Species, SLOTS};
use super::state::{
    Reef,
    advance_fits, cost_after, flow_after_algae, flow_after_decay, flow_after_income, flow_after_prey,
    fits, flow_of, flow_total, min_int, Flow, prey_fits, decay_fits, output_sum, return_of, spec_advance, spec_collect, spec_tick, step_decay,
    step_prey, tick_fits, tick_flow, State, bought_from, can_place, cost_sum, kinds_in_range, lemma_sums_push,
    can_remove, placed_into, reef_costs, removed_from, seq_sum, slots_distinct, started_from, housed_weight, housing_rows,
    lemma_richest_in_range, richest, weighted_housing,
};
use super::params::ReefKind;

verus! {

/// Conservation: three things and only three create matter in a tick
/// (photosynthesis, reef output and the ecosystem's return), and every other
/// step only moves it between the pools, the nutrient and the collectable pile.
pub proof fn law_tick_conserves_biomass(s: State, p: Params)
    requires
        p.tick_wf(),
        s.reefs_valid(&p),
        tick_fits(s, p),
    ensures
        spec_tick(s, p).spec_biomass() == s.spec_biomass() + s.population[0] * p.photosynthesis
            + output_sum(s.reefs@, p.reef_kinds@) + return_of(s.population@, s.reefs@, p),
{
    let f0 = flow_of(s);
    let fi = flow_after_income(s, p);
    let fa = flow_after_algae(s, p);
    let f1 = step_prey(fa, 1, s.population[1] as int, p);
    let f2 = step_prey(f1, 2, s.population[2] as int, p);
    let fp = flow_after_prey(s, p);
    let d0 = step_decay(fp, 0, p);
    let d1 = step_decay(d0, 1, p);
    let d2 = step_decay(d1, 2, p);
    let fd = flow_after_decay(s, p);
    let ft = tick_flow(s, p);
    lemma_tick_flow_in_range(s, p);
    assert(flow_total(f0) == s.spec_biomass());
    assert(flow_total(fi) == flow_total(f0) + output_sum(s.reefs@, p.reef_kinds@) + return_of(
        s.population@,
        s.reefs@,
        p,
    ));
    assert(flow_total(fa) == flow_total(fi) + s.population[0] * p.photosynthesis);
    assert(flow_total(f1) == flow_total(fa));
    assert(flow_total(f2) == flow_total(f1));
    assert(flow_total(fp) == flow_total(f2));
    assert(flow_total(d0) == flow_total(fp));
    assert(flow_total(d1) == flow_total(d0));
    assert(flow_total(d2) == flow_total(d1));
    assert(flow_total(fd) == flow_total(d2));
    assert(flow_total(ft) == flow_total(fd));
    assert(ft.3 == 0);
}

/// Every stock of every intermediate flow of a fitting tick lies within the
/// machine range, so the state the tick ends in holds the flow exactly.
pub proof fn lemma_tick_flow_in_range(s: State, p: Params)
    requires
        p.tick_wf(),
        tick_fits(s, p),
    ensures
        in_range(flow_after_prey(s, p)),
        in_range(flow_after_decay(s, p)),
        in_range(tick_flow(s, p)),
        spec_tick(s, p).pool[0] == tick_flow(s, p).0[0],
        spec_tick(s, p).pool[1] == tick_flow(s, p).0[1],
        spec_tick(s, p).pool[2] == tick_flow(s, p).0[2],
        spec_tick(s, p).pool[3] == tick_flow(s, p).0[3],
        spec_tick(s, p).nutrient == tick_flow(s, p).1,
        spec_tick(s, p).collectable == tick_flow(s, p).2,
{
    let fa = flow_after_algae(s, p);
    let f1 = step_prey(fa, 1, s.population[1] as int, p);
    let f2 = step_prey(f1, 2, s.population[2] as int, p);
    let fp = flow_after_prey(s, p);
    assert(in_range(fa));
    lemma_prey_in_range(fa, 1, s.population[1] as int, p);
    lemma_prey_in_range(f1, 2, s.population[2] as int, p);
    lemma_prey_in_range(f2, 3, s.population[3] as int, p);
    let d0 = step_decay(fp, 0, p);
    let d1 = step_decay(d0, 1, p);
    let d2 = step_decay(d1, 2, p);
    lemma_decay_in_range(fp, 0, p);
    lemma_decay_in_range(d0, 1, p);
    lemma_decay_in_range(d1, 2, p);
    lemma_decay_in_range(d2, 3, p);
    let fd = flow_after_decay(s, p);
    lemma_fraction_shrinks(p.recycle, fd.3 as u128);
}

pub open spec fn in_range(f: Flow) -> bool {
    &&& f.0.len() == 4
    &&& forall|i: int| 0 <= i < 4 ==> fits(#[trigger] f.0[i])
    &&& fits(f.1)
    &&& fits(f.2)
    &&& fits(f.3)
}

proof fn lemma_prey_in_range(f: Flow, i: int, pop: int, p: Params)
    requires
        p.tick_wf(),
        1 <= i < 4,
        in_range(f),
        prey_fits(f, i, pop, p),
    ensures
        in_range(step_prey(f, i, pop, p)),
{
    let eaten = min_int(f.0[i - 1], pop * p.demand[i]);
    lemma_fraction_shrinks(p.conversion, eaten as u128);
}

proof fn lemma_decay_in_range(f: Flow, i: int, p: Params)
    requires
        p.tick_wf(),
        0 <= i < 4,
        in_range(f),
        decay_fits(f, i, p),
    ensures
        in_range(step_decay(f, i, p)),
{
    lemma_fraction_shrinks(p.decay, f.0[i] as u128);
}

/// Collecting moves matter to currency without creating or destroying any,
/// and counts it toward the lifetime score.
pub proof fn law_collect_conserves(s: State)
    requires
        s.score + s.collectable <= u128::MAX,
        s.currency + s.collectable <= u128::MAX,
    ensures
        spec_collect(s).spec_biomass() + spec_collect(s).currency == s.spec_biomass() + s.currency,
        spec_collect(s).score == s.score + s.collectable,
        spec_collect(s).collectable == 0,
{
}

/// Advancing is compositional: settling an absence in one call is identical
/// to living through it in two.
pub proof fn law_advance_composes(s: State, p: Params, a: nat, b: nat)
    ensures
        spec_advance(s, p, a + b) == spec_advance(spec_advance(s, p, a), p, b),
        advance_fits(s, p, a + b) == (advance_fits(s, p, a) && advance_fits(
            spec_advance(s, p, a),
            p,
            b,
        )),
    decreases a,
{
    if a > 0 {
        law_advance_composes(spec_tick(s, p), p, (a - 1) as nat, b);
        assert((a + b - 1) as nat == (a - 1) as nat + b);
    }
}

/// Time gates no housing: elapsed ticks never change which reefs are placed,
/// how many individuals live, or anything that is not a stock or the clock.
pub proof fn law_advance_keeps_housing(s: State, p: Params, n: nat)
    ensures
        spec_advance(s, p, n).reefs == s.reefs,
        spec_advance(s, p, n).population == s.population,
        spec_advance(s, p, n).currency == s.currency,
        spec_advance(s, p, n).score == s.score,
        spec_advance(s, p, n).started == s.started,
        spec_advance(s, p, n).anchor_pos == s.anchor_pos,
        forall|sp: int| spec_advance(s, p, n).spec_capacity(sp, &p) == s.spec_capacity(sp, &p),
    decreases n,
{
    if n > 0 {
        law_advance_keeps_housing(spec_tick(s, p), p, (n - 1) as nat);
    }
}

/// The anchor position is pure scenery: the economy neither reads nor writes
/// it, so two seas that differ only in where the anchor sits advance to states
/// that differ only there.
pub proof fn law_anchor_stays_out_of_the_economy(s: State, p: Params, n: nat, pos: u16)
    ensures
        spec_advance(State { anchor_pos: pos, ..s }, p, n) == (State {
            anchor_pos: pos,
            ..spec_advance(s, p, n)
        }),
        advance_fits(State { anchor_pos: pos, ..s }, p, n) == advance_fits(s, p, n),
    decreases n,
{
    if n > 0 {
        let moved = State { anchor_pos: pos, ..s };
        assert(flow_of(moved) == flow_of(s));
        assert(spec_tick(moved, p) == (State { anchor_pos: pos, ..spec_tick(s, p) }));
        law_anchor_stays_out_of_the_economy(spec_tick(s, p), p, (n - 1) as nat, pos);
    }
}

/// A growth ratio of at least one never makes a cost cheaper than the one
/// before it, even where the multiplication saturates.
pub proof fn lemma_growth_step(g: Ratio, c: u128)
    requires
        0 < g.den <= g.num,
        c <= u128::MAX / g.den,
    ensures
        c <= g.spec_apply(c),
        g.spec_apply(c) <= u128::MAX / g.den,
{
    let m = sat_mul(c, g.num);
    if c * g.num <= u128::MAX {
        assert(c * g.den <= c * g.num) by (nonlinear_arith)
            requires
                g.den <= g.num,
                0 <= c,
        ;
        assert(c <= (c * g.num) / (g.den as int)) by (nonlinear_arith)
            requires
                c * g.den <= c * g.num,
                0 < g.den,
                0 <= c,
        ;
        assert((c * g.num) / (g.den as int) <= u128::MAX / g.den) by (nonlinear_arith)
            requires
                c * g.num <= u128::MAX,
                0 < g.den,
                0 <= c * g.num,
        ;
    }
}

/// The cost curve never wraps: from a base within range, the cost of each
/// further unit is at least the cost of the one before, however many are
/// owned.
pub proof fn law_cost_never_falls(base: u128, g: Ratio, m: nat, n: nat)
    requires
        0 < g.den <= g.num,
        base <= u128::MAX / g.den,
        m <= n,
    ensures
        cost_after(base, g, m) <= cost_after(base, g, n),
        cost_after(base, g, n) <= u128::MAX / g.den,
    decreases n,
{
    if n > 0 {
        law_cost_never_falls(base, g, if m == n {
            (n - 1) as nat
        } else {
            m
        }, (n - 1) as nat);
        lemma_growth_step(g, cost_after(base, g, (n - 1) as nat));
    }
}

/// Where the multiplication does not saturate, each unit costs strictly more
/// than the one before by the constant growth ratio.
pub proof fn law_cost_grows_by_the_ratio(base: u128, g: Ratio, n: nat)
    requires
        0 < g.den,
        cost_after(base, g, n) * g.num <= u128::MAX,
        cost_after(base, g, n) * (g.num - g.den) >= g.den,
    ensures
        cost_after(base, g, n + 1) == (cost_after(base, g, n) * g.num) / (g.den as int),
        cost_after(base, g, n + 1) > cost_after(base, g, n),
{
    let c = cost_after(base, g, n);
    assert(cost_after(base, g, n + 1) == g.spec_apply(c));
    assert((c * g.num) / (g.den as int) > c) by (nonlinear_arith)
        requires
            c * (g.num - g.den) >= g.den,
            0 < g.den,
            0 <= c,
    ;
}


/// Along the shipped price curve no step before the fiftieth saturates: the
/// cost after `n <= 50` purchases stays between the base price and the base
/// price doubled `n` times.
proof fn lemma_shipped_curve_bounds(base: u128, g: Ratio, n: nat)
    requires
        g == (Ratio { num: 112, den: 100 }),
        100_000_000 <= base <= 4_000_000_000,
        n <= 50,
    ensures
        base <= cost_after(base, g, n),
        cost_after(base, g, n) <= base * vstd::arithmetic::power2::pow2(n),
    decreases n,
{
    vstd::arithmetic::power2::lemma2_to64_rest();
    if n == 0 {
        vstd::arithmetic::power2::lemma2_to64();
    } else {
        let m = (n - 1) as nat;
        lemma_shipped_curve_bounds(base, g, m);
        let c = cost_after(base, g, m);
        let pm = vstd::arithmetic::power2::pow2(m);
        vstd::arithmetic::power2::lemma_pow2_unfold(n);
        if m < 50 {
            vstd::arithmetic::power2::lemma_pow2_strictly_increases(m, 50);
        }
        assert(c * 112 <= u128::MAX) by (nonlinear_arith)
            requires
                c <= base * pm,
                base <= 4_000_000_000,
                pm <= 0x4000000000000,
        ;
        assert(cost_after(base, g, n) == (c * 112) / 100);
        assert((c * 112) / 100 >= c && (c * 112) / 100 <= 2 * c) by (nonlinear_arith)
            requires
                0 <= c,
        ;
        assert(2 * c <= base * (2 * pm)) by (nonlinear_arith)
            requires
                c <= base * pm,
        ;
    }
}

/// With the shipped parameters every species' price grows by exactly the
/// growth ratio, and strictly, at each of the first fifty purchases.
pub proof fn law_shipped_prices_grow_by_the_ratio(p: Params, species: int, k: nat)
    requires
        p.is_default(),
        0 <= species < 4,
        1 <= k <= 50,
    ensures
        cost_after(p.base_cost@[species], p.cost_growth, k) == (cost_after(
            p.base_cost@[species],
            p.cost_growth,
            (k - 1) as nat,
        ) * 112) / 100,
        cost_after(p.base_cost@[species], p.cost_growth, k) > cost_after(
            p.base_cost@[species],
            p.cost_growth,
            (k - 1) as nat,
        ),
{
    let base = p.base_cost@[species];
    let g = p.cost_growth;
    let m = (k - 1) as nat;
    lemma_shipped_curve_bounds(base, g, m);
    let c = cost_after(base, g, m);
    vstd::arithmetic::power2::lemma2_to64_rest();
    if m < 50 {
        vstd::arithmetic::power2::lemma_pow2_strictly_increases(m, 50);
    }
    assert(c * 112 <= u128::MAX) by (nonlinear_arith)
        requires
            c <= base * vstd::arithmetic::power2::pow2(m),
            base <= 4_000_000_000,
            vstd::arithmetic::power2::pow2(m) <= 0x4000000000000,
    ;
    law_cost_grows_by_the_ratio(base, g, m);
}

// ---------------------------------------------------------------------------
// The states play can reach.
// ---------------------------------------------------------------------------

/// A state play can reach: placed reefs of known, unlocked kinds on distinct
/// floor slots within the budget the score unlocks, the clock still at 0
/// before the run starts, and a reef down once it has.
pub open spec fn reachable(s: State, p: Params) -> bool {
    &&& kinds_in_range(s.reefs@, p.reef_kinds@)
    &&& forall|i: int| 0 <= i < s.reefs@.len() ==> (#[trigger] s.reefs@[i]).slot < SLOTS
    &&& slots_distinct(s.reefs@)
    &&& forall|i: int|
        0 <= i < s.reefs@.len() ==> p.reef_kinds@[(#[trigger] s.reefs@[i]).kind as int].unlock <= s.score
    &&& cost_sum(s.reefs@, p.reef_kinds@) <= p.spec_budget(s.score)
    &&& (s.started || s.tick_count == 0)
    &&& (!s.started || s.reefs@.len() > 0)
}

/// A higher score never unlocks a smaller budget.
pub proof fn lemma_budget_monotone(steps: Seq<(u128, u32)>, a: u128, b: u128)
    requires
        a <= b,
    ensures
        budget_of(steps, a) <= budget_of(steps, b),
    decreases steps.len(),
{
    if steps.len() > 0 {
        lemma_budget_monotone(steps.drop_last(), a, b);
    }
}

/// Lifting the `i`-th term off a sum takes exactly that term away.
pub proof fn lemma_sum_remove(xs: Seq<int>, i: int)
    requires
        0 <= i < xs.len(),
    ensures
        seq_sum(xs.remove(i)) == seq_sum(xs) - xs[i],
    decreases xs.len(),
{
    if i == xs.len() - 1 {
        assert(xs.remove(i) =~= xs.drop_last());
    } else {
        lemma_sum_remove(xs.drop_last(), i);
        assert(xs.remove(i).drop_last() =~= xs.drop_last().remove(i));
        assert(xs.remove(i).last() == xs.last());
    }
}

/// An empty sea, at whatever score, is reachable: the fresh state and the
/// state a new sea starts from.
pub proof fn law_empty_sea_is_reachable(s: State, p: Params)
    requires
        s.is_empty_sea(),
    ensures
        reachable(s, p),
{
    assert(reef_costs(s.reefs@, p.reef_kinds@) =~= Seq::<int>::empty());
}

/// Placing a reef keeps a state reachable, wherever its placed cost stays in
/// `u32` range (beyond it the budget check saturates: a budget of
/// `u32::MAX` would admit a reef past it).
pub proof fn law_placing_keeps_reachable(a: State, b: State, kind: usize, slot: u8, p: Params)
    requires
        reachable(a, p),
        placed_into(a, b, kind, slot, p),
        can_place(a, kind, slot, p) ==> cost_sum(a.reefs@, p.reef_kinds@) + p.reef_kinds@[kind as int].cost
            <= u32::MAX,
    ensures
        reachable(b, p),
{
    if can_place(a, kind, slot, p) {
        let r = Reef { kind, slot };
        lemma_sums_push(a.reefs@, r, p.reef_kinds@);
        assert(b.reefs@ == a.reefs@.push(r));
        assert forall|i: int, j: int|
            0 <= i < b.reefs@.len() && 0 <= j < b.reefs@.len() && i != j implies (#[trigger] b.reefs@[i]).slot
            != (#[trigger] b.reefs@[j]).slot by {
            if i < a.reefs@.len() && j < a.reefs@.len() {
                assert(b.reefs@[i] == a.reefs@[i] && b.reefs@[j] == a.reefs@[j]);
            } else if i < a.reefs@.len() {
                assert(b.reefs@[i] == a.reefs@[i]);
            } else {
                assert(b.reefs@[j] == a.reefs@[j]);
            }
        }
        assert forall|i: int| 0 <= i < b.reefs@.len() implies (#[trigger] b.reefs@[i]).slot < SLOTS
            && b.reefs@[i].kind < p.reef_kinds@.len() && p.reef_kinds@[b.reefs@[i].kind as int].unlock
            <= b.score by {
            if i < a.reefs@.len() {
                assert(b.reefs@[i] == a.reefs@[i]);
            }
        }
    }
}

/// Lifting a reef keeps a state reachable.
pub proof fn law_removing_keeps_reachable(a: State, b: State, slot: u8, p: Params)
    requires
        reachable(a, p),
        removed_from(a, b, slot),
    ensures
        reachable(b, p),
{
    if b != a {
        let i = choose|i: int|
            0 <= i < a.reefs@.len() && a.reefs@[i].slot == slot && (forall|j: int|
                0 <= j < i ==> (#[trigger] a.reefs@[j]).slot != slot) && b.reefs@ == a.reefs@.remove(i);
        let xs = reef_costs(a.reefs@, p.reef_kinds@);
        lemma_sum_remove(xs, i);
        assert(reef_costs(b.reefs@, p.reef_kinds@) =~= xs.remove(i));
        assert(xs[i] >= 0);
        assert forall|k: int| 0 <= k < b.reefs@.len() implies #[trigger] b.reefs@[k] == a.reefs@[if k < i {
            k
        } else {
            k + 1
        }] by {}
        assert forall|k: int, m: int|
            0 <= k < b.reefs@.len() && 0 <= m < b.reefs@.len() && k != m implies (#[trigger] b.reefs@[k]).slot
            != (#[trigger] b.reefs@[m]).slot by {
            let k2 = if k < i { k } else { k + 1 };
            let m2 = if m < i { m } else { m + 1 };
            assert(b.reefs@[k] == a.reefs@[k2] && b.reefs@[m] == a.reefs@[m2]);
        }
        assert forall|k: int| 0 <= k < b.reefs@.len() implies (#[trigger] b.reefs@[k]).slot < SLOTS
            && b.reefs@[k].kind < p.reef_kinds@.len() && p.reef_kinds@[b.reefs@[k].kind as int].unlock
            <= b.score by {
            let k2 = if k < i { k } else { k + 1 };
            assert(b.reefs@[k] == a.reefs@[k2]);
        }
    }
}

/// Starting the run keeps a state reachable.
pub proof fn law_starting_keeps_reachable(a: State, b: State, p: Params)
    requires
        reachable(a, p),
        started_from(a, b, p),
    ensures
        reachable(b, p),
{
}

/// Time keeps a started sea reachable: ticks move stocks and the clock,
/// never the reefs, the score or the start. (A tick of an unstarted sea
/// would move the clock off 0; no caller runs one.)
pub proof fn law_ticks_keep_reachable(s: State, p: Params, n: nat)
    requires
        reachable(s, p),
        s.started,
    ensures
        reachable(spec_advance(s, p, n), p),
{
    law_advance_keeps_housing(s, p, n);
}

/// Buying keeps a state reachable.
pub proof fn law_buying_keeps_reachable(a: State, b: State, species: Species, p: Params)
    requires
        reachable(a, p),
        bought_from(a, b, species, p),
    ensures
        reachable(b, p),
{
}

/// Collecting keeps a state reachable: the score only grows, and a higher
/// score unlocks no less.
pub proof fn law_collecting_keeps_reachable(s: State, p: Params)
    requires
        reachable(s, p),
        s.score + s.collectable <= u128::MAX,
    ensures
        reachable(spec_collect(s), p),
{
    lemma_budget_monotone(p.budget_steps@, s.score, spec_collect(s).score);
}


// ---------------------------------------------------------------------------
// The ecosystem's return ignores placement order.
// ---------------------------------------------------------------------------

/// `richest` is the earliest row of greatest cost.
proof fn lemma_richest_is(rows: Seq<(u32, u32)>, k: int)
    requires
        0 <= k < rows.len(),
        forall|i: int| 0 <= i < rows.len() ==> (#[trigger] rows[i]).0 <= rows[k].0,
        forall|i: int| 0 <= i < k ==> (#[trigger] rows[i]).0 < rows[k].0,
    ensures
        richest(rows) == k,
    decreases rows.len(),
{
    if rows.len() > 1 {
        let init = rows.drop_last();
        if k < rows.len() - 1 {
            assert forall|i: int| 0 <= i < init.len() implies (#[trigger] init[i]).0 <= init[k].0 by {
                assert(init[i] == rows[i]);
            }
            assert forall|i: int| 0 <= i < k implies (#[trigger] init[i]).0 < init[k].0 by {
                assert(init[i] == rows[i]);
            }
            lemma_richest_is(init, k);
            assert(init[k] == rows[k]);
        } else {
            lemma_richest_in_range(init);
            let m = richest(init);
            assert(init[m] == rows[m]);
        }
    }
}

/// `min(u, a)` then `min(u - that, b)` houses `min(u, a + b)` whichever
/// comes first.
proof fn lemma_two_rows_commute(u: int, a: int, b: int, c: int)
    requires
        0 <= u,
        0 <= a,
        0 <= b,
    ensures
        ({
            let ha = if u < a { u } else { a };
            let hb2 = if u - ha < b { u - ha } else { b };
            let hb = if u < b { u } else { b };
            let ha2 = if u - hb < a { u - hb } else { a };
            &&& ha + hb2 == hb + ha2
            &&& ha * c + hb2 * c == hb * c + ha2 * c
        }),
{
    let ha = if u < a { u } else { a };
    let hb2 = if u - ha < b { u - ha } else { b };
    let hb = if u < b { u } else { b };
    let ha2 = if u - hb < a { u - hb } else { a };
    assert(ha + hb2 == hb + ha2);
    assert(ha * c + hb2 * c == hb * c + ha2 * c) by (nonlinear_arith)
        requires
            ha + hb2 == hb + ha2,
    ;
}

/// Housing may start from any row of the greatest cost, not just the
/// earliest: the weight comes out the same.
proof fn lemma_any_richest_first(u: int, rows: Seq<(u32, u32)>, j: int)
    requires
        0 <= u,
        0 <= j < rows.len(),
        forall|i: int| 0 <= i < rows.len() ==> (#[trigger] rows[i]).0 <= rows[j].0,
    ensures
        ({
            let h = if u < rows[j].1 { u } else { rows[j].1 as int };
            housed_weight(u, rows) == h * rows[j].0 + housed_weight(u - h, rows.remove(j))
        }),
    decreases rows.len(),
{
    lemma_richest_in_range(rows);
    let k = richest(rows);
    if j != k {
        let c = rows[j].0 as int;
        assert(rows[k].0 == c);
        assert(k < j) by {
            if j < k {
                assert(rows[j].0 < rows[k].0);
            }
        }
        let hk = if u < rows[k].1 { u } else { rows[k].1 as int };
        let hj = if u < rows[j].1 { u } else { rows[j].1 as int };
        let r1 = rows.remove(k);
        let r2 = rows.remove(j);
        assert(r1[j - 1] == rows[j]);
        assert forall|i: int| 0 <= i < r1.len() implies (#[trigger] r1[i]).0 <= r1[j - 1].0 by {
            if i < k {
                assert(r1[i] == rows[i]);
            } else {
                assert(r1[i] == rows[i + 1]);
            }
        }
        lemma_any_richest_first(u - hk, r1, j - 1);
        let h1 = if u - hk < rows[j].1 { u - hk } else { rows[j].1 as int };
        assert(r2[k] == rows[k]);
        assert forall|i: int| 0 <= i < r2.len() implies (#[trigger] r2[i]).0 <= r2[k].0 by {
            if i < j {
                assert(r2[i] == rows[i]);
            } else {
                assert(r2[i] == rows[i + 1]);
            }
        }
        assert forall|i: int| 0 <= i < k implies (#[trigger] r2[i]).0 < r2[k].0 by {
            assert(r2[i] == rows[i]);
        }
        lemma_richest_is(r2, k);
        let h2 = if u - hj < rows[k].1 { u - hj } else { rows[k].1 as int };
        assert(housed_weight(u - hj, r2) == h2 * c + housed_weight(u - hj - h2, r2.remove(k)));
        assert(r1.remove(j - 1) =~= r2.remove(k));
        lemma_two_rows_commute(u, rows[k].1 as int, rows[j].1 as int, c);
    }
}

/// The kinds of the placed reefs, in placement order.
pub open spec fn kinds_of(reefs: Seq<Reef>) -> Seq<usize> {
    reefs.map_values(|r: Reef| r.kind)
}

/// Two placements hold the same reefs, kind for kind, whatever their slots
/// and order.
pub open spec fn same_kinds(reefs1: Seq<Reef>, reefs2: Seq<Reef>) -> bool {
    kinds_of(reefs1).to_multiset() == kinds_of(reefs2).to_multiset()
}

/// A kind that one of two same-kind placements holds, the other holds too.
proof fn lemma_same_kinds_find(reefs1: Seq<Reef>, reefs2: Seq<Reef>, k: int) -> (j: int)
    requires
        same_kinds(reefs1, reefs2),
        0 <= k < reefs1.len(),
    ensures
        0 <= j < reefs2.len(),
        reefs2[j].kind == reefs1[k].kind,
{
    broadcast use vstd::seq_lib::group_to_multiset_ensures;

    let x = reefs1[k].kind;
    assert(kinds_of(reefs1)[k] == x);
    assert(kinds_of(reefs1).contains(x));
    assert(kinds_of(reefs1).to_multiset().count(x) > 0);
    assert(kinds_of(reefs2).contains(x));
    let j = choose|j: int| 0 <= j < kinds_of(reefs2).len() && kinds_of(reefs2)[j] == x;
    j
}

/// Lifting a kind both placements hold keeps them the same kinds.
proof fn lemma_same_kinds_remove(reefs1: Seq<Reef>, reefs2: Seq<Reef>, k: int, j: int)
    requires
        same_kinds(reefs1, reefs2),
        0 <= k < reefs1.len(),
        0 <= j < reefs2.len(),
        reefs2[j].kind == reefs1[k].kind,
    ensures
        same_kinds(reefs1.remove(k), reefs2.remove(j)),
        reefs1.len() == reefs2.len(),
{
    broadcast use vstd::seq_lib::group_to_multiset_ensures;

    assert(kinds_of(reefs1.remove(k)) =~= kinds_of(reefs1).remove(k));
    assert(kinds_of(reefs2.remove(j)) =~= kinds_of(reefs2).remove(j));
    assert(kinds_of(reefs1)[k] == kinds_of(reefs2)[j]);
    assert(kinds_of(reefs1).len() == kinds_of(reefs1).to_multiset().len());
    assert(kinds_of(reefs2).len() == kinds_of(reefs2).to_multiset().len());
}

/// Housing weight depends on which kinds are placed, not on their order or
/// slots.
proof fn lemma_housing_ignores_order(u: int, reefs1: Seq<Reef>, reefs2: Seq<Reef>, kinds: Seq<ReefKind>, sp: int)
    requires
        0 <= u,
        same_kinds(reefs1, reefs2),
    ensures
        housed_weight(u, housing_rows(reefs1, kinds, sp)) == housed_weight(u, housing_rows(reefs2, kinds, sp)),
    decreases reefs1.len(),
{
    broadcast use vstd::seq_lib::group_to_multiset_ensures;

    let rows1 = housing_rows(reefs1, kinds, sp);
    let rows2 = housing_rows(reefs2, kinds, sp);
    assert(reefs1.len() == reefs2.len()) by {
        assert(kinds_of(reefs1).len() == kinds_of(reefs1).to_multiset().len());
        assert(kinds_of(reefs2).len() == kinds_of(reefs2).to_multiset().len());
    }
    if reefs1.len() > 0 {
        lemma_richest_in_range(rows1);
        let k = richest(rows1);
        let j = lemma_same_kinds_find(reefs1, reefs2, k);
        assert(rows2[j] == rows1[k]);
        assert forall|i: int| 0 <= i < rows2.len() implies (#[trigger] rows2[i]).0 <= rows2[j].0 by {
            let m = lemma_same_kinds_find(reefs2, reefs1, i);
            assert(rows1[m] == rows2[i]);
        }
        lemma_any_richest_first(u, rows1, k);
        lemma_any_richest_first(u, rows2, j);
        let h = if u < rows1[k].1 { u } else { rows1[k].1 as int };
        assert(housing_rows(reefs1.remove(k), kinds, sp) =~= rows1.remove(k));
        assert(housing_rows(reefs2.remove(j), kinds, sp) =~= rows2.remove(j));
        lemma_same_kinds_remove(reefs1, reefs2, k, j);
        lemma_housing_ignores_order(u - h, reefs1.remove(k), reefs2.remove(j), kinds, sp);
    }
}

/// The reefs' output depends on which kinds are placed, not on their order
/// or slots.
proof fn lemma_output_ignores_order(reefs1: Seq<Reef>, reefs2: Seq<Reef>, kinds: Seq<ReefKind>)
    requires
        same_kinds(reefs1, reefs2),
    ensures
        output_sum(reefs1, kinds) == output_sum(reefs2, kinds),
    decreases reefs1.len(),
{
    broadcast use vstd::seq_lib::group_to_multiset_ensures;

    assert(reefs1.len() == reefs2.len()) by {
        assert(kinds_of(reefs1).len() == kinds_of(reefs1).to_multiset().len());
        assert(kinds_of(reefs2).len() == kinds_of(reefs2).to_multiset().len());
    }
    if reefs1.len() > 0 {
        let k = reefs1.len() - 1;
        let j = lemma_same_kinds_find(reefs1, reefs2, k);
        lemma_same_kinds_remove(reefs1, reefs2, k, j);
        lemma_output_ignores_order(reefs1.remove(k), reefs2.remove(j), kinds);
        let o1 = crate::engine::state::reef_outputs(reefs1, kinds);
        let o2 = crate::engine::state::reef_outputs(reefs2, kinds);
        lemma_sum_remove(o1, k);
        lemma_sum_remove(o2, j);
        assert(crate::engine::state::reef_outputs(reefs1.remove(k), kinds) =~= o1.remove(k));
        assert(crate::engine::state::reef_outputs(reefs2.remove(j), kinds) =~= o2.remove(j));
    }
}

/// The ecosystem's return depends on which kinds are down and how many
/// creatures live among them, never on the order the reefs were placed or
/// the slots they sit on.
pub proof fn law_return_ignores_placement_order(population: Seq<u32>, reefs1: Seq<Reef>, reefs2: Seq<Reef>, p: Params)
    requires
        same_kinds(reefs1, reefs2),
    ensures
        weighted_housing(population, reefs1, p.reef_kinds@) == weighted_housing(population, reefs2, p.reef_kinds@),
        return_of(population, reefs1, p) == return_of(population, reefs2, p),
{
    lemma_housing_ignores_order(population[1] as int, reefs1, reefs2, p.reef_kinds@, 1);
    lemma_housing_ignores_order(population[2] as int, reefs1, reefs2, p.reef_kinds@, 2);
    lemma_housing_ignores_order(population[3] as int, reefs1, reefs2, p.reef_kinds@, 3);
}

/// A whole tick is blind to reef order: two seas that differ only in where
/// and in which order the same kinds of reef were placed tick alike, and a
/// tick fits one exactly when it fits the other.
pub proof fn law_tick_ignores_reef_order(a: State, b: State, p: Params)
    requires
        b == (State { reefs: b.reefs, ..a }),
        same_kinds(a.reefs@, b.reefs@),
    ensures
        spec_tick(b, p) == (State { reefs: b.reefs, ..spec_tick(a, p) }),
        tick_fits(a, p) == tick_fits(b, p),
{
    law_return_ignores_placement_order(a.population@, a.reefs@, b.reefs@, p);
    lemma_output_ignores_order(a.reefs@, b.reefs@, p.reef_kinds@);
    assert(flow_after_income(a, p) == flow_after_income(b, p));
}

/// So is any run of ticks.
pub proof fn law_advance_ignores_reef_order(a: State, b: State, p: Params, n: nat)
    requires
        b == (State { reefs: b.reefs, ..a }),
        same_kinds(a.reefs@, b.reefs@),
    ensures
        spec_advance(b, p, n) == (State { reefs: b.reefs, ..spec_advance(a, p, n) }),
        advance_fits(a, p, n) == advance_fits(b, p, n),
    decreases n,
{
    if n > 0 {
        law_tick_ignores_reef_order(a, b, p);
        law_advance_ignores_reef_order(spec_tick(a, p), spec_tick(b, p), p, (n - 1) as nat);
    }
}


/// Lifting the reef just dropped undoes the drop: the placed reefs are those
/// of before, and so is every other field.
pub proof fn law_lifting_undoes_placing(s0: State, s1: State, s2: State, kind: usize, slot: u8, p: Params)
    requires
        can_place(s0, kind, slot, p),
        placed_into(s0, s1, kind, slot, p),
        removed_from(s1, s2, slot),
    ensures
        can_remove(s1, slot),
        s2.reefs@ == s0.reefs@,
        s2 == (State { reefs: s2.reefs, ..s0 }),
{
    let last = s0.reefs@.len() as int;
    assert(s1.reefs@[last].slot == slot);
    assert(can_remove(s1, slot));
    let i = choose|i: int|
        0 <= i < s1.reefs@.len() && s1.reefs@[i].slot == slot && (forall|j: int|
            0 <= j < i ==> (#[trigger] s1.reefs@[j]).slot != slot) && s2.reefs@ == s1.reefs@.remove(i);
    if i < last {
        assert(s1.reefs@[i] == s0.reefs@[i]);
    }
    assert(i == last);
    assert(s1.reefs@.remove(last) =~= s0.reefs@);
}

/// One step of play, as the operations' contracts state it.
pub enum Move {
    Place(usize, u8),
    Remove(u8),
    Start,
    Reset,
    Buy(Species),
    Collect,
    Tick,
}

/// `b` is `a` after `m`.
pub open spec fn moved(a: State, b: State, p: Params, m: Move) -> bool {
    match m {
        Move::Place(kind, slot) => placed_into(a, b, kind, slot, p),
        Move::Remove(slot) => removed_from(a, b, slot),
        Move::Start => started_from(a, b, p),
        Move::Reset => b.is_empty_sea() && b.score == a.score && b.anchor_pos == a.anchor_pos,
        Move::Buy(species) => bought_from(a, b, species, p),
        Move::Collect => b == spec_collect(a),
        Move::Tick => b == spec_tick(a, p),
    }
}

/// The moves play makes: a collect whose sums fit, a tick only of a started
/// sea, and a placement whose placed cost stays in `u32` range.
pub open spec fn move_allowed(a: State, p: Params, m: Move) -> bool {
    match m {
        Move::Place(kind, slot) => can_place(a, kind, slot, p) ==> cost_sum(a.reefs@, p.reef_kinds@)
            + p.reef_kinds@[kind as int].cost <= u32::MAX,
        Move::Collect => a.score + a.collectable <= u128::MAX,
        Move::Tick => a.started,
        _ => true,
    }
}

/// Every state along any sequence of play from an empty sea is reachable:
/// known, unlocked kinds on distinct slots within the budget, the clock at 0
/// until the run starts, and a reef down once it has.
pub proof fn law_play_stays_reachable(states: Seq<State>, moves: Seq<Move>, p: Params)
    requires
        states.len() == moves.len() + 1,
        states[0].is_empty_sea(),
        forall|i: int|
            0 <= i < moves.len() ==> move_allowed(#[trigger] states[i], p, moves[i]) && moved(
                states[i],
                states[i + 1],
                p,
                moves[i],
            ),
    ensures
        forall|i: int| 0 <= i < states.len() ==> reachable(#[trigger] states[i], p),
    decreases moves.len(),
{
    if moves.len() == 0 {
        law_empty_sea_is_reachable(states[0], p);
    } else {
        let n = moves.len() - 1;
        law_play_stays_reachable(states.drop_last(), moves.drop_last(), p);
        assert(reachable(states.drop_last()[n], p));
        let a = states[n];
        let b = states[n + 1];
        assert(move_allowed(states[n], p, moves[n]) && moved(states[n], states[n + 1], p, moves[n]));
        match moves[n] {
            Move::Place(kind, slot) => law_placing_keeps_reachable(a, b, kind, slot, p),
            Move::Remove(slot) => law_removing_keeps_reachable(a, b, slot, p),
            Move::Start => law_starting_keeps_reachable(a, b, p),
            Move::Reset => law_empty_sea_is_reachable(b, p),
            Move::Buy(species) => law_buying_keeps_reachable(a, b, species, p),
            Move::Collect => law_collecting_keeps_reachable(a, p),
            Move::Tick => {
                law_ticks_keep_reachable(a, p, 1);
                assert(spec_advance(spec_tick(a, p), p, 0) == spec_tick(a, p));
            },
        }
        assert forall|i: int| 0 <= i < states.len() implies reachable(#[trigger] states[i], p) by {
            if i <= n {
                assert(states[i] == states.drop_last()[i]);
            }
        }
    }
}


/// Lifting takes out exactly the reef at the slot: on a floor whose reefs
/// sit on distinct slots, a successful lift leaves one reef fewer, none of
/// them at that slot, keeps every reef elsewhere, and touches nothing but
/// the reefs.
pub proof fn law_lifting_takes_the_reef_at_the_slot(a: State, b: State, slot: u8)
    requires
        slots_distinct(a.reefs@),
        can_remove(a, slot),
        removed_from(a, b, slot),
    ensures
        b == (State { reefs: b.reefs, ..a }),
        b.reefs@.len() == a.reefs@.len() - 1,
        forall|i: int| 0 <= i < b.reefs@.len() ==> (#[trigger] b.reefs@[i]).slot != slot,
        forall|i: int|
            0 <= i < a.reefs@.len() && (#[trigger] a.reefs@[i]).slot != slot ==> b.reefs@.contains(a.reefs@[i]),
{
    let i = choose|i: int|
        0 <= i < a.reefs@.len() && a.reefs@[i].slot == slot && (forall|j: int|
            0 <= j < i ==> (#[trigger] a.reefs@[j]).slot != slot) && b.reefs@ == a.reefs@.remove(i);
    assert forall|k: int| 0 <= k < b.reefs@.len() implies (#[trigger] b.reefs@[k]).slot != slot by {
        let k2 = if k < i { k } else { k + 1 };
        assert(b.reefs@[k] == a.reefs@[k2]);
        assert(a.reefs@[k2].slot != a.reefs@[i].slot);
    }
    assert forall|m: int|
        0 <= m < a.reefs@.len() && (#[trigger] a.reefs@[m]).slot != slot implies b.reefs@.contains(a.reefs@[m]) by {
        let k = if m < i { m } else { m - 1 };
        assert(m != i);
        assert(b.reefs@[k] == a.reefs@[m]);
    }
}

} // verus!
