//! The simulation state and its transitions. Pure state machine: no I/O, no
//! clock, no floats; determinism is what makes offline settlement exact.

use vstd::prelude::*;

use super::params::{lemma_fraction_shrinks, Params, Ratio, ReefKind, Species, MICRO, SLOTS, SPECIES};

verus! {

/// A placed reef: which kind (index into `Params::reef_kinds`) and which floor
/// slot it occupies. Absolute coordinates live in the renderer, not here.
#[derive(Clone, Copy, PartialEq, Eq, Debug, Structural)]
pub struct Reef {
    pub kind: usize,
    pub slot: u8,
}

/// Default anchor position: 800 per mille, the historical fixed column.
pub const DEFAULT_ANCHOR_POS: u16 = 800;

/// The largest valid anchor position; positions are a per-mille in 0..=999.
pub const ANCHOR_POS_MAX: u16 = 999;

#[derive(Clone, PartialEq, Eq, Debug)]
pub struct State {
    pub population: [u32; SPECIES],
    pub pool: [u128; SPECIES],
    pub nutrient: u128,
    pub collectable: u128,
    pub currency: u128,
    /// Lifetime score: every unit ever collected, summed across runs. Survives
    /// `reset`; unlocks and budget are derived from it.
    pub score: u128,
    /// Placed reefs, all put down before the run starts.
    pub reefs: Vec<Reef>,
    /// Ticks elapsed since the run started (persisted as the save's `age`).
    pub tick_count: u64,
    /// Whether the player has committed the placement and begun the run.
    pub started: bool,
    /// Where the unlocked anchor sits, as a per-mille (0..=999) of the pane.
    /// Pure scenery: `tick` never reads it.
    pub anchor_pos: u16,
}

// ---------------------------------------------------------------------------
// The model: sums over the placed reefs.
// ---------------------------------------------------------------------------

/// Sum of a sequence of integers.
pub open spec fn seq_sum(xs: Seq<int>) -> int
    decreases xs.len(),
{
    if xs.len() == 0 {
        0
    } else {
        seq_sum(xs.drop_last()) + xs.last()
    }
}

/// Detritus each placed reef sheds per tick, in placement order.
pub open spec fn reef_outputs(reefs: Seq<Reef>, kinds: Seq<ReefKind>) -> Seq<int> {
    reefs.map_values(|r: Reef| kinds[r.kind as int].output as int)
}

/// Housing each placed reef offers species `sp`, in placement order.
pub open spec fn reef_capacities(reefs: Seq<Reef>, kinds: Seq<ReefKind>, sp: int) -> Seq<int> {
    reefs.map_values(|r: Reef| kinds[r.kind as int].capacity[sp] as int)
}

/// Placement budget each placed reef spends, in placement order.
pub open spec fn reef_costs(reefs: Seq<Reef>, kinds: Seq<ReefKind>) -> Seq<int> {
    reefs.map_values(|r: Reef| kinds[r.kind as int].cost as int)
}

/// Detritus the placed reefs shed in one tick.
pub open spec fn output_sum(reefs: Seq<Reef>, kinds: Seq<ReefKind>) -> int {
    seq_sum(reef_outputs(reefs, kinds))
}

/// Individuals of species `sp` the placed reefs can house.
pub open spec fn capacity_sum(reefs: Seq<Reef>, kinds: Seq<ReefKind>, sp: int) -> int {
    seq_sum(reef_capacities(reefs, kinds, sp))
}

/// Placement budget the placed reefs spend.
pub open spec fn cost_sum(reefs: Seq<Reef>, kinds: Seq<ReefKind>) -> int {
    seq_sum(reef_costs(reefs, kinds))
}

/// Placing one more reef adds exactly its own cost, output and housing to
/// the sums over the placed reefs.
pub proof fn lemma_sums_push(reefs: Seq<Reef>, r: Reef, kinds: Seq<ReefKind>)
    ensures
        cost_sum(reefs.push(r), kinds) == cost_sum(reefs, kinds) + kinds[r.kind as int].cost,
        output_sum(reefs.push(r), kinds) == output_sum(reefs, kinds) + kinds[r.kind as int].output,
        forall|sp: int|
            #[trigger] capacity_sum(reefs.push(r), kinds, sp) == capacity_sum(reefs, kinds, sp)
                + kinds[r.kind as int].capacity[sp],
{
    assert(reef_costs(reefs.push(r), kinds).drop_last() =~= reef_costs(reefs, kinds));
    assert(reef_outputs(reefs.push(r), kinds).drop_last() =~= reef_outputs(reefs, kinds));
    assert forall|sp: int|
        #[trigger] capacity_sum(reefs.push(r), kinds, sp) == capacity_sum(reefs, kinds, sp)
            + kinds[r.kind as int].capacity[sp] by {
        assert(reef_capacities(reefs.push(r), kinds, sp).drop_last() =~= reef_capacities(reefs, kinds, sp));
    }
}

/// A running sum over a prefix of non-negative terms: one more term adds
/// exactly that term, and no prefix exceeds the whole.
pub proof fn lemma_prefix_sum(xs: Seq<int>, i: int)
    requires
        0 <= i < xs.len(),
        forall|j: int| 0 <= j < xs.len() ==> 0 <= #[trigger] xs[j],
    ensures
        seq_sum(xs.take(i + 1)) == seq_sum(xs.take(i)) + xs[i],
        0 <= seq_sum(xs.take(i + 1)) <= seq_sum(xs),
{
    assert(xs.take(i + 1).drop_last() =~= xs.take(i));
    lemma_prefix_le(xs, i + 1);
}

pub proof fn lemma_prefix_le(xs: Seq<int>, i: int)
    requires
        0 <= i <= xs.len(),
        forall|j: int| 0 <= j < xs.len() ==> 0 <= #[trigger] xs[j],
    ensures
        0 <= seq_sum(xs.take(i)) <= seq_sum(xs),
    decreases xs.len(),
{
    if xs.len() > 0 {
        let ys = xs.drop_last();
        if i == xs.len() {
            assert(xs.take(i) =~= xs);
            lemma_prefix_le(ys, i - 1);
            assert(ys.take(i - 1) =~= ys);
        } else {
            lemma_prefix_le(ys, i);
            assert(ys.take(i) =~= xs.take(i));
            lemma_prefix_le(ys, ys.len() as int);
            assert(ys.take(ys.len() as int) =~= ys);
        }
    } else {
        assert(xs.take(i) =~= xs);
    }
}

/// Every reef names a kind the parameters know.
pub open spec fn kinds_in_range(reefs: Seq<Reef>, kinds: Seq<ReefKind>) -> bool {
    forall|i: int| 0 <= i < reefs.len() ==> (#[trigger] reefs[i]).kind < kinds.len()
}

/// No two reefs share a slot.
pub open spec fn slots_distinct(reefs: Seq<Reef>) -> bool {
    forall|i: int, j: int|
        0 <= i < reefs.len() && 0 <= j < reefs.len() && i != j ==> (#[trigger] reefs[i]).slot
            != (#[trigger] reefs[j]).slot
}

// ---------------------------------------------------------------------------
// Housing for the ecosystem's return.
// ---------------------------------------------------------------------------

/// `(placement cost, housing)` of each placed reef for species `sp`, in
/// placement order.
pub open spec fn housing_rows(reefs: Seq<Reef>, kinds: Seq<ReefKind>, sp: int) -> Seq<(u32, u32)> {
    reefs.map_values(|r: Reef| (kinds[r.kind as int].cost, kinds[r.kind as int].capacity[sp]))
}

/// Index of the costliest row, the earliest one among equals.
pub open spec fn richest(rows: Seq<(u32, u32)>) -> int
    decreases rows.len(),
{
    if rows.len() <= 1 {
        0
    } else {
        let k = richest(rows.drop_last());
        if rows.last().0 > rows[k].0 {
            rows.len() - 1
        } else {
            k
        }
    }
}

/// `sum(cost * housed)` when `unhoused` individuals move in, filling the
/// costliest reef with room first (ties by placement order).
pub open spec fn housed_weight(unhoused: int, rows: Seq<(u32, u32)>) -> int
    decreases rows.len(),
{
    if rows.len() == 0 {
        0
    } else {
        proof {
            lemma_richest_in_range(rows);
        }
        let k = richest(rows);
        let housed = if unhoused < rows[k].1 {
            unhoused
        } else {
            rows[k].1 as int
        };
        housed * rows[k].0 + housed_weight(unhoused - housed, rows.remove(k))
    }
}

/// `sum over the species above the algae of cost * housed`.
pub open spec fn weighted_housing(population: Seq<u32>, reefs: Seq<Reef>, kinds: Seq<ReefKind>) -> int {
    housed_weight(population[1] as int, housing_rows(reefs, kinds, 1)) + housed_weight(
        population[2] as int,
        housing_rows(reefs, kinds, 2),
    ) + housed_weight(population[3] as int, housing_rows(reefs, kinds, 3))
}

/// The ecosystem's return: `w * MICRO * sum(cost * housed)`.
pub open spec fn return_of(population: Seq<u32>, reefs: Seq<Reef>, p: Params) -> u128 {
    p.ecosystem_return.spec_apply((weighted_housing(population, reefs, p.reef_kinds@) * MICRO) as u128)
}

pub proof fn lemma_richest_in_range(rows: Seq<(u32, u32)>)
    requires
        rows.len() > 0,
    ensures
        0 <= richest(rows) < rows.len(),
        forall|j: int| 0 <= j < rows.len() ==> (#[trigger] rows[j]).0 <= rows[richest(rows)].0,
        forall|j: int| 0 <= j < richest(rows) ==> (#[trigger] rows[j]).0 < rows[richest(rows)].0,
    decreases rows.len(),
{
    if rows.len() > 1 {
        lemma_richest_in_range(rows.drop_last());
        let k = richest(rows.drop_last());
        assert(rows.drop_last()[k] == rows[k]);
        assert forall|j: int| 0 <= j < rows.len() implies (#[trigger] rows[j]).0 <= rows[richest(rows)].0 by {
            if j < rows.len() - 1 {
                assert(rows.drop_last()[j] == rows[j]);
            }
        }
        assert forall|j: int| 0 <= j < richest(rows) implies (#[trigger] rows[j]).0 < rows[richest(rows)].0 by {
            if j < rows.len() - 1 {
                assert(rows.drop_last()[j] == rows[j]);
            }
        }
    }
}

/// Housing never weighs more than every individual living in a reef of the
/// largest possible cost.
pub proof fn lemma_housed_weight_bound(unhoused: int, rows: Seq<(u32, u32)>)
    requires
        0 <= unhoused,
    ensures
        0 <= housed_weight(unhoused, rows) <= unhoused * 0xffff_ffff,
    decreases rows.len(),
{
    if rows.len() > 0 {
        lemma_richest_in_range(rows);
        let k = richest(rows);
        let housed = if unhoused < rows[k].1 {
            unhoused
        } else {
            rows[k].1 as int
        };
        lemma_housed_weight_bound(unhoused - housed, rows.remove(k));
        let c = rows[k].0 as int;
        let rest = housed_weight(unhoused - housed, rows.remove(k));
        assert(housed * c <= housed * 0xffff_ffff) by (nonlinear_arith)
            requires
                0 <= housed,
                0 <= c <= 0xffff_ffff,
        ;
        assert(0 <= housed * c) by (nonlinear_arith)
            requires
                0 <= housed,
                0 <= c,
        ;
        assert(housed * 0xffff_ffff + (unhoused - housed) * 0xffff_ffff == unhoused * 0xffff_ffff)
            by (nonlinear_arith);
    }
}

proof fn lemma_weighted_housing_bound(population: Seq<u32>, reefs: Seq<Reef>, kinds: Seq<ReefKind>)
    requires
        population.len() == SPECIES,
    ensures
        0 <= weighted_housing(population, reefs, kinds) <= 3 * 0xffff_ffff * 0xffff_ffff,
        0 <= weighted_housing(population, reefs, kinds) * MICRO <= u128::MAX,
{
    lemma_housed_weight_bound(population[1] as int, housing_rows(reefs, kinds, 1));
    lemma_housed_weight_bound(population[2] as int, housing_rows(reefs, kinds, 2));
    lemma_housed_weight_bound(population[3] as int, housing_rows(reefs, kinds, 3));
    assert(population[1] as int * 0xffff_ffff <= 0xffff_ffff * 0xffff_ffff) by (nonlinear_arith)
        requires
            0 <= population[1] <= 0xffff_ffff,
    ;
    assert(population[2] as int * 0xffff_ffff <= 0xffff_ffff * 0xffff_ffff) by (nonlinear_arith)
        requires
            0 <= population[2] <= 0xffff_ffff,
    ;
    assert(population[3] as int * 0xffff_ffff <= 0xffff_ffff * 0xffff_ffff) by (nonlinear_arith)
        requires
            0 <= population[3] <= 0xffff_ffff,
    ;
    let w = weighted_housing(population, reefs, kinds);
    assert(w * MICRO <= u128::MAX) by (nonlinear_arith)
        requires
            0 <= w <= 3 * 0xffff_ffff * 0xffff_ffff,
    ;
    assert(0 <= w * MICRO) by (nonlinear_arith)
        requires
            0 <= w,
    ;
}

// ---------------------------------------------------------------------------
// One tick, as unbounded bookkeeping. A `Flow` is (pools, nutrient,
// collectable, detritus in flight); each step below is one numbered step of
// `State::tick`, and `*_fits` says its results still fit the machine types.
// ---------------------------------------------------------------------------

pub type Flow = (Seq<int>, int, int, int);

pub open spec fn fits(x: int) -> bool {
    0 <= x <= u128::MAX
}

pub open spec fn min_int(a: int, b: int) -> int {
    if a <= b {
        a
    } else {
        b
    }
}

/// The state's stocks, with nothing in flight.
pub open spec fn flow_of(s: State) -> Flow {
    (
        seq![s.pool[0] as int, s.pool[1] as int, s.pool[2] as int, s.pool[3] as int],
        s.nutrient as int,
        s.collectable as int,
        0,
    )
}

/// Total matter in a flow, in flight or not.
pub open spec fn flow_total(f: Flow) -> int {
    f.0[0] + f.0[1] + f.0[2] + f.0[3] + f.1 + f.2 + f.3
}

/// Steps 1-2: reef output joins the detritus; the ecosystem's return lands in
/// the collectable pile.
pub open spec fn step_income(f: Flow, output: int, ret: int) -> Flow {
    (f.0, f.1, f.2 + ret, f.3 + output)
}

pub open spec fn income_fits(f: Flow, output: int, ret: int) -> bool {
    fits(f.2 + ret) && fits(f.3 + output)
}

/// Step 3: photosynthesis. Step 4: nutrient uptake by algae.
pub open spec fn step_algae(f: Flow, algae: int, p: Params) -> Flow {
    let grown = f.0[0] + algae * p.photosynthesis;
    let uptake = min_int(f.1, algae * p.nutrient_uptake);
    (f.0.update(0, grown + uptake), f.1 - uptake, f.2, f.3)
}

pub open spec fn algae_fits(f: Flow, algae: int, p: Params) -> bool {
    let grown = f.0[0] + algae * p.photosynthesis;
    let uptake = min_int(f.1, algae * p.nutrient_uptake);
    fits(algae * p.photosynthesis) && fits(grown) && fits(algae * p.nutrient_uptake) && fits(
        grown + uptake,
    )
}

/// Step 5, for species `i`: it eats from the tier below, converts a fraction,
/// and the remainder settles as detritus.
pub open spec fn step_prey(f: Flow, i: int, pop: int, p: Params) -> Flow {
    let eaten = min_int(f.0[i - 1], pop * p.demand[i]);
    let converted = p.conversion.spec_apply(eaten as u128) as int;
    (f.0.update(i - 1, f.0[i - 1] - eaten).update(i, f.0[i] + converted), f.1, f.2, f.3 + (eaten
        - converted))
}

pub open spec fn prey_fits(f: Flow, i: int, pop: int, p: Params) -> bool {
    let eaten = min_int(f.0[i - 1], pop * p.demand[i]);
    let converted = p.conversion.spec_apply(eaten as u128) as int;
    fits(pop * p.demand[i]) && fits(f.0[i] + converted) && fits(f.3 + (eaten - converted))
}

/// Step 6, for pool `i`: a fraction dies off into the detritus.
pub open spec fn step_decay(f: Flow, i: int, p: Params) -> Flow {
    let dead = p.decay.spec_apply(f.0[i] as u128) as int;
    (f.0.update(i, f.0[i] - dead), f.1, f.2, f.3 + dead)
}

pub open spec fn decay_fits(f: Flow, i: int, p: Params) -> bool {
    fits(f.3 + p.decay.spec_apply(f.0[i] as u128))
}

/// Step 7: the detritus settles, a fraction back to nutrient and the rest
/// (with the rounding remainder) into the collectable pile.
pub open spec fn step_settle(f: Flow, p: Params) -> Flow {
    let to_nutrient = p.recycle.spec_apply(f.3 as u128) as int;
    (f.0, f.1 + to_nutrient, f.2 + (f.3 - to_nutrient), 0)
}

pub open spec fn settle_fits(f: Flow, p: Params) -> bool {
    let to_nutrient = p.recycle.spec_apply(f.3 as u128) as int;
    fits(f.1 + to_nutrient) && fits(f.2 + (f.3 - to_nutrient))
}

/// The flows after each step of a tick.
pub open spec fn flow_after_income(s: State, p: Params) -> Flow {
    step_income(
        flow_of(s),
        output_sum(s.reefs@, p.reef_kinds@),
        return_of(s.population@, s.reefs@, p) as int,
    )
}

pub open spec fn flow_after_algae(s: State, p: Params) -> Flow {
    step_algae(flow_after_income(s, p), s.population[0] as int, p)
}

pub open spec fn flow_after_prey(s: State, p: Params) -> Flow {
    let f = flow_after_algae(s, p);
    let f1 = step_prey(f, 1, s.population[1] as int, p);
    let f2 = step_prey(f1, 2, s.population[2] as int, p);
    step_prey(f2, 3, s.population[3] as int, p)
}

pub open spec fn flow_after_decay(s: State, p: Params) -> Flow {
    let f = flow_after_prey(s, p);
    step_decay(step_decay(step_decay(step_decay(f, 0, p), 1, p), 2, p), 3, p)
}

pub open spec fn tick_flow(s: State, p: Params) -> Flow {
    step_settle(flow_after_decay(s, p), p)
}

/// Every intermediate quantity of the next tick fits its machine type.
pub open spec fn tick_fits(s: State, p: Params) -> bool {
    let f0 = flow_of(s);
    let fi = flow_after_income(s, p);
    let fa = flow_after_algae(s, p);
    let f1 = step_prey(fa, 1, s.population[1] as int, p);
    let f2 = step_prey(f1, 2, s.population[2] as int, p);
    let fp = flow_after_prey(s, p);
    let d0 = step_decay(fp, 0, p);
    let d1 = step_decay(d0, 1, p);
    let d2 = step_decay(d1, 2, p);
    let fd = flow_after_decay(s, p);
    &&& fits(output_sum(s.reefs@, p.reef_kinds@))
    &&& income_fits(f0, output_sum(s.reefs@, p.reef_kinds@), return_of(s.population@, s.reefs@, p) as int)
    &&& algae_fits(fi, s.population[0] as int, p)
    &&& prey_fits(fa, 1, s.population[1] as int, p)
    &&& prey_fits(f1, 2, s.population[2] as int, p)
    &&& prey_fits(f2, 3, s.population[3] as int, p)
    &&& decay_fits(fp, 0, p)
    &&& decay_fits(d0, 1, p)
    &&& decay_fits(d1, 2, p)
    &&& decay_fits(d2, 3, p)
    &&& settle_fits(fd, p)
    &&& s.tick_count < u64::MAX
}

/// The state one tick later.
pub open spec fn spec_tick(s: State, p: Params) -> State {
    let f = tick_flow(s, p);
    State {
        pool: [f.0[0] as u128, f.0[1] as u128, f.0[2] as u128, f.0[3] as u128],
        nutrient: f.1 as u128,
        collectable: f.2 as u128,
        tick_count: (s.tick_count + 1) as u64,
        ..s
    }
}

/// The state `n` ticks later.
pub open spec fn spec_advance(s: State, p: Params, n: nat) -> State
    decreases n,
{
    if n == 0 {
        s
    } else {
        spec_advance(spec_tick(s, p), p, (n - 1) as nat)
    }
}

/// Every one of the next `n` ticks fits its machine types.
pub open spec fn advance_fits(s: State, p: Params, n: nat) -> bool
    decreases n,
{
    n == 0 || (tick_fits(s, p) && advance_fits(spec_tick(s, p), p, (n - 1) as nat))
}

/// The state after the surplus is collected into currency and score.
pub open spec fn spec_collect(s: State) -> State {
    State {
        score: (s.score + s.collectable) as u128,
        currency: (s.currency + s.collectable) as u128,
        collectable: 0,
        ..s
    }
}

/// Cost of the next purchase when `owned` are already owned:
/// `base * growth^owned`, by sequential multiplication.
pub open spec fn cost_after(base: u128, growth: Ratio, owned: nat) -> u128
    decreases owned,
{
    if owned == 0 {
        base
    } else {
        growth.spec_apply(cost_after(base, growth, (owned - 1) as nat))
    }
}

impl State {
    /// Every placed reef names a known kind.
    pub open spec fn reefs_valid(&self, p: &Params) -> bool {
        kinds_in_range(self.reefs@, p.reef_kinds@)
    }

    pub open spec fn spec_biomass(&self) -> int {
        self.pool[0] + self.pool[1] + self.pool[2] + self.pool[3] + self.nutrient + self.collectable
    }

    pub open spec fn spec_living_biomass(&self) -> int {
        self.pool[0] + self.pool[1] + self.pool[2] + self.pool[3]
    }

    pub open spec fn spec_capacity(&self, species: int, p: &Params) -> int {
        capacity_sum(self.reefs@, p.reef_kinds@, species)
    }

    pub open spec fn spec_placed_cost(&self, p: &Params) -> int {
        cost_sum(self.reefs@, p.reef_kinds@)
    }

    pub open spec fn spec_next_cost(&self, species: Species, p: &Params) -> u128 {
        cost_after(
            p.base_cost[species.spec_index()],
            p.cost_growth,
            self.population[species.spec_index()] as nat,
        )
    }

    /// A fresh sea: empty tank, no reef, the run not started; only the
    /// lifetime score and the anchor position are left to say.
    pub open spec fn is_empty_sea(&self) -> bool {
        &&& self.population@ == seq![0u32, 0, 0, 0]
        &&& self.pool@ == seq![0u128, 0, 0, 0]
        &&& self.nutrient == 0
        &&& self.collectable == 0
        &&& self.currency == 0
        &&& self.reefs@.len() == 0
        &&& self.tick_count == 0
        &&& !self.started
    }
}

/// `a + b`, pinned at `u32::MAX`.
pub open spec fn sat_add_u32(a: int, b: int) -> int {
    if a + b > u32::MAX {
        u32::MAX as int
    } else {
        a + b
    }
}

/// The stocks of a state with `d` detritus in flight.
pub open spec fn flow_with(s: State, d: int) -> Flow {
    (
        seq![s.pool[0] as int, s.pool[1] as int, s.pool[2] as int, s.pool[3] as int],
        s.nutrient as int,
        s.collectable as int,
        d,
    )
}

/// Whether `place_reef(kind, slot)` succeeds: only before the run starts,
/// into a free in-range slot, for a kind the score has unlocked, and within
/// the placement budget.
pub open spec fn can_place(s: State, kind: usize, slot: u8, p: Params) -> bool {
    &&& !s.started
    &&& kind < p.reef_kinds@.len()
    &&& slot < SLOTS
    &&& forall|i: int| 0 <= i < s.reefs@.len() ==> (#[trigger] s.reefs@[i]).slot != slot
    &&& s.score >= p.reef_kinds@[kind as int].unlock
    &&& sat_add_u32(s.spec_placed_cost(&p), p.reef_kinds@[kind as int].cost as int) <= p.spec_budget(
        s.score,
    )
}

/// `b` is `a` after `place_reef(kind, slot)`: the reef appended when it may be
/// placed, nothing changed otherwise.
pub open spec fn placed_into(a: State, b: State, kind: usize, slot: u8, p: Params) -> bool {
    if can_place(a, kind, slot, p) {
        &&& b == (State { reefs: b.reefs, ..a })
        &&& b.reefs@ == a.reefs@.push(Reef { kind, slot })
    } else {
        b == a
    }
}

/// Whether `remove_reef(slot)` finds a reef to lift: before the run starts,
/// with a reef at `slot`.
pub open spec fn can_remove(s: State, slot: u8) -> bool {
    !s.started && exists|i: int| 0 <= i < s.reefs@.len() && (#[trigger] s.reefs@[i]).slot == slot
}

/// `b` is `a` after `remove_reef(slot)`: the first reef at `slot` lifted when
/// there is one to lift, nothing changed otherwise.
pub open spec fn removed_from(a: State, b: State, slot: u8) -> bool {
    if can_remove(a, slot) {
        &&& b == (State { reefs: b.reefs, ..a })
        &&& exists|i: int|
            0 <= i < a.reefs@.len() && a.reefs@[i].slot == slot && (forall|j: int|
                0 <= j < i ==> (#[trigger] a.reefs@[j]).slot != slot) && b.reefs@ == a.reefs@.remove(i)
    } else {
        b == a
    }
}

/// `b` is `a` after `start_run`: started, with the seed currency granted,
/// when there is a reef and the run has not begun; nothing changed otherwise.
pub open spec fn started_from(a: State, b: State, p: Params) -> bool {
    if !a.started && a.reefs@.len() > 0 {
        b == (State { started: true, currency: (a.currency + p.seed_currency) as u128, ..a })
    } else {
        b == a
    }
}

/// Whether `buy(species)` goes through: affordable, with housing left.
pub open spec fn can_buy(s: State, species: Species, p: Params) -> bool {
    s.currency >= s.spec_next_cost(species, &p) && s.population[species.spec_index()]
        < s.spec_capacity(species.spec_index(), &p)
}

/// `b` is `a` after `buy(species)`: one more of the species for its price
/// when it goes through, nothing changed otherwise.
pub open spec fn bought_from(a: State, b: State, species: Species, p: Params) -> bool {
    if can_buy(a, species, p) {
        &&& b.population@ == a.population@.update(
            species.spec_index(),
            (a.population[species.spec_index()] + 1) as u32,
        )
        &&& b == (State {
            currency: (a.currency - a.spec_next_cost(species, &p)) as u128,
            population: b.population,
            ..a
        })
    } else {
        b == a
    }
}

/// Everything but the stocks a tick moves is the same in both states.
pub open spec fn same_but_stocks(a: State, b: State) -> bool {
    &&& a.population == b.population
    &&& a.currency == b.currency
    &&& a.score == b.score
    &&& a.reefs == b.reefs
    &&& a.tick_count == b.tick_count
    &&& a.started == b.started
    &&& a.anchor_pos == b.anchor_pos
}

impl Default for State {
    /// A fresh sea: empty tank, and the anchor at its default column.
    fn default() -> (s: Self)
        ensures
            s.is_empty_sea(),
            s.score == 0,
            s.anchor_pos == DEFAULT_ANCHOR_POS,
    {
        let s = Self {
            population: [0; SPECIES],
            pool: [0; SPECIES],
            nutrient: 0,
            collectable: 0,
            currency: 0,
            score: 0,
            reefs: Vec::new(),
            tick_count: 0,
            started: false,
            anchor_pos: DEFAULT_ANCHOR_POS,
        };
        assert(s.population@ =~= seq![0u32, 0, 0, 0]);
        assert(s.pool@ =~= seq![0u128, 0, 0, 0]);
        s
    }
}

/// The costliest row, the earliest among equals.
fn richest_index(rows: &Vec<(u32, u32)>) -> (k: usize)
    requires
        rows@.len() > 0,
    ensures
        k == richest(rows@),
        k < rows@.len(),
{
    let mut k: usize = 0;
    let mut j: usize = 1;
    assert(rows@.take(1).len() == 1);
    while j < rows.len()
        invariant
            1 <= j <= rows@.len(),
            k == richest(rows@.take(j as int)),
            k < j,
        decreases rows@.len() - j,
    {
        proof {
            let t = rows@.take(j as int + 1);
            assert(t.drop_last() =~= rows@.take(j as int));
            assert(t[k as int] == rows@[k as int]);
        }
        if rows[j].0 > rows[k].0 {
            k = j;
        }
        j += 1;
    }
    assert(rows@.take(j as int) =~= rows@);
    k
}

/// `sum(cost * housed)` as `unhoused` individuals fill `rows`, costliest
/// first.
fn housing_weight(unhoused: u32, rows: Vec<(u32, u32)>) -> (w: u128)
    ensures
        w == housed_weight(unhoused as int, rows@),
{
    let mut rows = rows;
    let mut unhoused = unhoused;
    let mut weighted: u128 = 0;
    let ghost total = housed_weight(unhoused as int, rows@);
    proof {
        lemma_housed_weight_bound(unhoused as int, rows@);
    }
    while rows.len() > 0
        invariant
            weighted + housed_weight(unhoused as int, rows@) == total,
            0 <= housed_weight(unhoused as int, rows@),
            total <= u32::MAX as int * 0xffff_ffff,
        decreases rows@.len(),
    {
        let k = richest_index(&rows);
        let (cost, cap) = rows[k];
        let housed = if unhoused < cap {
            unhoused
        } else {
            cap
        };
        proof {
            lemma_housed_weight_bound((unhoused - housed) as int, rows@.remove(k as int));
            assert(housed as int * cost as int >= 0) by (nonlinear_arith)
                requires
                    housed >= 0,
                    cost >= 0,
            ;
        }
        unhoused = unhoused - housed;
        weighted = weighted + housed as u128 * cost as u128;
        rows.remove(k);
    }
    weighted
}

impl State {
    pub fn new() -> (s: Self)
        ensures
            s.is_empty_sea(),
            s.score == 0,
            s.anchor_pos == DEFAULT_ANCHOR_POS,
    {
        Self::default()
    }

    /// Living matter in the tank: the species pools, the free nutrient and the
    /// uncollected surplus.
    pub fn biomass(&self) -> (b: u128)
        requires
            self.spec_biomass() <= u128::MAX,
        ensures
            b == self.spec_biomass(),
    {
        self.pool[0] + self.pool[1] + self.pool[2] + self.pool[3] + self.nutrient + self.collectable
    }

    /// Biomass held in living populations only: the species pools, without the
    /// sediment and the free nutrient.
    pub fn living_biomass(&self) -> (b: u128)
        requires
            self.spec_living_biomass() <= u128::MAX,
        ensures
            b == self.spec_living_biomass(),
    {
        self.pool[0] + self.pool[1] + self.pool[2] + self.pool[3]
    }

    /// A run has begun once the player commits the placement (`start_run`).
    pub fn run_started(&self) -> (b: bool)
        ensures
            b == self.started,
    {
        self.started
    }

    /// How many individuals of `species` the placed reefs can house: a pure
    /// sum over the placed reefs, never dependent on elapsed time.
    pub fn capacity(&self, species: usize, p: &Params) -> (c: u32)
        requires
            species < SPECIES,
            self.reefs_valid(p),
            self.spec_capacity(species as int, p) <= u32::MAX,
        ensures
            c == self.spec_capacity(species as int, p),
    {
        let ghost xs = reef_capacities(self.reefs@, p.reef_kinds@, species as int);
        let mut total: u32 = 0;
        let mut i: usize = 0;
        while i < self.reefs.len()
            invariant
                self.reefs_valid(p),
                species < SPECIES,
                xs == reef_capacities(self.reefs@, p.reef_kinds@, species as int),
                seq_sum(xs) <= u32::MAX,
                i <= self.reefs@.len(),
                total == seq_sum(xs.take(i as int)),
            decreases self.reefs@.len() - i,
        {
            proof {
                assert(self.reefs@[i as int].kind < p.reef_kinds@.len());
                lemma_prefix_sum(xs, i as int);
            }
            total = total + p.reef_kinds[self.reefs[i].kind].capacity[species];
            i += 1;
        }
        assert(xs.take(i as int) =~= xs);
        total
    }

    /// Placement budget the placed reefs spend.
    pub fn placed_cost(&self, p: &Params) -> (c: u32)
        requires
            self.reefs_valid(p),
            self.spec_placed_cost(p) <= u32::MAX,
        ensures
            c == self.spec_placed_cost(p),
    {
        let ghost xs = reef_costs(self.reefs@, p.reef_kinds@);
        let mut total: u32 = 0;
        let mut i: usize = 0;
        while i < self.reefs.len()
            invariant
                self.reefs_valid(p),
                xs == reef_costs(self.reefs@, p.reef_kinds@),
                seq_sum(xs) <= u32::MAX,
                i <= self.reefs@.len(),
                total == seq_sum(xs.take(i as int)),
            decreases self.reefs@.len() - i,
        {
            proof {
                assert(self.reefs@[i as int].kind < p.reef_kinds@.len());
                lemma_prefix_sum(xs, i as int);
            }
            total = total + p.reef_kinds[self.reefs[i].kind].cost;
            i += 1;
        }
        assert(xs.take(i as int) =~= xs);
        total
    }

    /// Detritus the placed reefs shed in one tick.
    fn reef_output(&self, p: &Params) -> (d: u128)
        requires
            self.reefs_valid(p),
            output_sum(self.reefs@, p.reef_kinds@) <= u128::MAX,
        ensures
            d == output_sum(self.reefs@, p.reef_kinds@),
    {
        let ghost xs = reef_outputs(self.reefs@, p.reef_kinds@);
        let mut total: u128 = 0;
        let mut i: usize = 0;
        while i < self.reefs.len()
            invariant
                self.reefs_valid(p),
                xs == reef_outputs(self.reefs@, p.reef_kinds@),
                seq_sum(xs) <= u128::MAX,
                i <= self.reefs@.len(),
                total == seq_sum(xs.take(i as int)),
            decreases self.reefs@.len() - i,
        {
            proof {
                assert(self.reefs@[i as int].kind < p.reef_kinds@.len());
                lemma_prefix_sum(xs, i as int);
            }
            total = total + p.reef_kinds[self.reefs[i].kind].output;
            i += 1;
        }
        assert(xs.take(i as int) =~= xs);
        total
    }

    /// `(cost, housing)` of each placed reef for `species`, in placement order.
    fn housing_rows_for(&self, species: usize, p: &Params) -> (rows: Vec<(u32, u32)>)
        requires
            species < SPECIES,
            self.reefs_valid(p),
        ensures
            rows@ == housing_rows(self.reefs@, p.reef_kinds@, species as int),
    {
        let mut rows: Vec<(u32, u32)> = Vec::new();
        let mut i: usize = 0;
        while i < self.reefs.len()
            invariant
                self.reefs_valid(p),
                species < SPECIES,
                i <= self.reefs@.len(),
                rows@ =~= housing_rows(self.reefs@.take(i as int), p.reef_kinds@, species as int),
            decreases self.reefs@.len() - i,
        {
            let kind = &p.reef_kinds[self.reefs[i].kind];
            rows.push((kind.cost, kind.capacity[species]));
            proof {
                assert(self.reefs@.take(i + 1).drop_last() =~= self.reefs@.take(i as int));
            }
            i += 1;
        }
        assert(self.reefs@.take(i as int) =~= self.reefs@);
        rows
    }

    /// The ecosystem's return: `sum over the reefs of cost * (individuals
    /// housed there above the algae) * w`, created fresh every tick. Housing
    /// fills the costliest reef with room first (ties by placement order), so
    /// the return depends on which reefs are down, not the order they were
    /// dropped in.
    fn ecosystem_return(&self, p: &Params) -> (r: u128)
        requires
            self.reefs_valid(p),
            p.tick_wf(),
        ensures
            r == return_of(self.population@, self.reefs@, *p),
    {
        proof {
            lemma_weighted_housing_bound(self.population@, self.reefs@, p.reef_kinds@);
            lemma_housed_weight_bound(self.population[1] as int, housing_rows(self.reefs@, p.reef_kinds@, 1));
            lemma_housed_weight_bound(self.population[2] as int, housing_rows(self.reefs@, p.reef_kinds@, 2));
            lemma_housed_weight_bound(self.population[3] as int, housing_rows(self.reefs@, p.reef_kinds@, 3));
        }
        let w1 = housing_weight(self.population[1], self.housing_rows_for(1, p));
        let w2 = housing_weight(self.population[2], self.housing_rows_for(2, p));
        let w3 = housing_weight(self.population[3], self.housing_rows_for(3, p));
        let weighted = w1 + w2 + w3;
        p.ecosystem_return.apply(weighted * MICRO)
    }

    /// Place a reef while composing the run. Succeeds only before the run is
    /// started, into a free in-range slot, for a kind the score has unlocked,
    /// and within the placement budget (placed costs + this cost <=
    /// `budget(score)`). A rejected placement leaves the state untouched;
    /// placement spends budget, never currency.
    pub fn place_reef(&mut self, kind: usize, slot: u8, p: &Params) -> (placed: bool)
        requires
            old(self).reefs_valid(p),
            old(self).spec_placed_cost(p) <= u32::MAX,
        ensures
            placed == can_place(*old(self), kind, slot, *p),
            placed_into(*old(self), *final(self), kind, slot, *p),
    {
        if self.started || kind >= p.reef_kinds.len() || slot >= SLOTS {
            return false;
        }
        let mut i: usize = 0;
        while i < self.reefs.len()
            invariant
                *self == *old(self),
                i <= self.reefs@.len(),
                forall|j: int| 0 <= j < i ==> (#[trigger] self.reefs@[j]).slot != slot,
            decreases self.reefs@.len() - i,
        {
            if self.reefs[i].slot == slot {
                return false;
            }
            i += 1;
        }
        if self.score < p.reef_kinds[kind].unlock {
            return false;
        }
        let placed = self.placed_cost(p);
        if placed.saturating_add(p.reef_kinds[kind].cost) > p.budget(self.score) {
            return false;
        }
        self.reefs.push(Reef { kind, slot });
        true
    }

    /// Remove the reef at `slot` while composing the run. Only while the run
    /// has not started; returns whether a reef was there to remove.
    pub fn remove_reef(&mut self, slot: u8) -> (removed: bool)
        ensures
            removed == can_remove(*old(self), slot),
            removed_from(*old(self), *final(self), slot),
    {
        if self.started {
            return false;
        }
        let mut i: usize = 0;
        while i < self.reefs.len()
            invariant
                *self == *old(self),
                !self.started,
                i <= self.reefs@.len(),
                forall|j: int| 0 <= j < i ==> (#[trigger] self.reefs@[j]).slot != slot,
            decreases self.reefs@.len() - i,
        {
            if self.reefs[i].slot == slot {
                self.reefs.remove(i);
                return true;
            }
            i += 1;
        }
        false
    }

    /// Commit the placement and begin the run. Succeeds when at least one reef
    /// is placed and the run has not already started; grants the seed currency
    /// once. This is the sole seed-grant point: one grant per run.
    pub fn start_run(&mut self, p: &Params) -> (started: bool)
        requires
            !old(self).started && old(self).reefs@.len() > 0 ==> old(self).currency + p.seed_currency
                <= u128::MAX,
        ensures
            started == (!old(self).started && old(self).reefs@.len() > 0),
            started_from(*old(self), *final(self), *p),
    {
        if self.started || self.reefs.len() == 0 {
            return false;
        }
        self.started = true;
        self.currency = self.currency + p.seed_currency;
        true
    }

    /// Start a new sea: discard the run and return to placement, keeping only
    /// the meta-persistent state (the lifetime score and the anchor position).
    pub fn reset(&mut self)
        ensures
            final(self).is_empty_sea(),
            final(self).score == old(self).score,
            final(self).anchor_pos == old(self).anchor_pos,
    {
        let fresh = State::default();
        *self = State { score: self.score, anchor_pos: self.anchor_pos, ..fresh };
    }

    /// Steps 3-4: photosynthesis, then nutrient uptake by algae (1:1).
    fn grow_algae(&mut self, p: &Params, detritus: &u128)
        requires
            algae_fits(flow_with(*old(self), *detritus as int), old(self).population[0] as int, *p),
        ensures
            flow_with(*final(self), *detritus as int) =~~= step_algae(
                flow_with(*old(self), *detritus as int),
                old(self).population[0] as int,
                *p,
            ),
            same_but_stocks(*old(self), *final(self)),
    {
        let algae = self.population[0] as u128;
        self.pool[0] = self.pool[0] + algae * p.photosynthesis;
        let capacity = algae * p.nutrient_uptake;
        let uptake = if self.nutrient <= capacity {
            self.nutrient
        } else {
            capacity
        };
        self.nutrient = self.nutrient - uptake;
        self.pool[0] = self.pool[0] + uptake;
    }

    /// Step 5 for species `i`: it eats from the tier below; the conversion
    /// remainder settles as detritus, so no mass is lost to rounding.
    fn prey_on(&mut self, i: usize, p: &Params, detritus: &mut u128)
        requires
            1 <= i < SPECIES,
            p.tick_wf(),
            prey_fits(flow_with(*old(self), *old(detritus) as int), i as int, old(self).population[i as int] as int, *p),
        ensures
            flow_with(*final(self), *final(detritus) as int) =~~= step_prey(
                flow_with(*old(self), *old(detritus) as int),
                i as int,
                old(self).population[i as int] as int,
                *p,
            ),
            same_but_stocks(*old(self), *final(self)),
    {
        let demand = self.population[i] as u128 * p.demand[i];
        let eaten = if self.pool[i - 1] <= demand {
            self.pool[i - 1]
        } else {
            demand
        };
        self.pool[i - 1] = self.pool[i - 1] - eaten;
        let converted = p.conversion.apply(eaten);
        proof {
            lemma_fraction_shrinks(p.conversion, eaten);
        }
        self.pool[i] = self.pool[i] + converted;
        *detritus = *detritus + (eaten - converted);
    }

    /// Step 6 for pool `i`: a fraction dies off into the detritus.
    fn die_off(&mut self, i: usize, p: &Params, detritus: &mut u128)
        requires
            i < SPECIES,
            p.tick_wf(),
            decay_fits(flow_with(*old(self), *old(detritus) as int), i as int, *p),
        ensures
            flow_with(*final(self), *final(detritus) as int) =~~= step_decay(
                flow_with(*old(self), *old(detritus) as int),
                i as int,
                *p,
            ),
            same_but_stocks(*old(self), *final(self)),
    {
        let dead = p.decay.apply(self.pool[i]);
        proof {
            lemma_fraction_shrinks(p.decay, self.pool[i as int]);
        }
        self.pool[i] = self.pool[i] - dead;
        *detritus = *detritus + dead;
    }

    /// Detritus split: rho recycles to nutrient, the remainder (including the
    /// rounding remainder) becomes collectable.
    fn deposit(&mut self, detritus: u128, p: &Params)
        requires
            p.tick_wf(),
            settle_fits(flow_with(*old(self), detritus as int), *p),
        ensures
            flow_with(*final(self), 0) =~~= step_settle(flow_with(*old(self), detritus as int), *p),
            same_but_stocks(*old(self), *final(self)),
    {
        let to_nutrient = p.recycle.apply(detritus);
        proof {
            lemma_fraction_shrinks(p.recycle, detritus);
        }
        self.nutrient = self.nutrient + to_nutrient;
        self.collectable = self.collectable + (detritus - to_nutrient);
    }

    /// One simulation step (1 tick = 1 second). The step order is part of the
    /// rules: three sources create matter (steps 1-3), the middle steps only
    /// move it between pools, and step 7 settles what came loose.
    pub fn tick(&mut self, p: &Params)
        requires
            p.tick_wf(),
            old(self).reefs_valid(p),
            tick_fits(*old(self), *p),
        ensures
            *final(self) == spec_tick(*old(self), *p),
    {
        let ghost s0 = *self;
        // 1. Reef output: detritus accrues from the moment a reef is placed.
        let mut detritus: u128 = self.reef_output(p);
        // 2. The ecosystem's return lands straight in the collectable pile.
        let ret = self.ecosystem_return(p);
        self.collectable = self.collectable + ret;
        assert(flow_with(*self, detritus as int) =~~= flow_after_income(s0, *p));
        // 3-4. Photosynthesis and nutrient uptake.
        self.grow_algae(p, &detritus);
        // 5. Predation, ascending trophic order.
        self.prey_on(1, p, &mut detritus);
        self.prey_on(2, p, &mut detritus);
        self.prey_on(3, p, &mut detritus);
        // 6. Die-off: every pool sheds dead matter.
        self.die_off(0, p, &mut detritus);
        self.die_off(1, p, &mut detritus);
        self.die_off(2, p, &mut detritus);
        self.die_off(3, p, &mut detritus);
        // 7. Detritus settles immediately.
        self.deposit(detritus, p);
        // 8. Advance the run clock.
        self.tick_count = self.tick_count + 1;
        proof {
            let f = tick_flow(s0, *p);
            assert(flow_with(*self, 0) =~~= f);
            let t = spec_tick(s0, *p);
            assert(self.pool@ =~= t.pool@);
            assert(self.pool == t.pool);
            assert(self.population == t.population);
            assert(self.reefs == t.reefs);
            assert(self.nutrient == t.nutrient);
            assert(self.collectable == t.collectable);
            assert(self.tick_count == t.tick_count);
        }
    }

    /// Run `ticks` steps. Offline settlement is exactly this call: there is no
    /// separate settlement formula.
    pub fn advance(&mut self, ticks: u64, p: &Params)
        requires
            p.tick_wf(),
            old(self).reefs_valid(p),
            advance_fits(*old(self), *p, ticks as nat),
        ensures
            *final(self) == spec_advance(*old(self), *p, ticks as nat),
    {
        let mut done: u64 = 0;
        while done < ticks
            invariant
                p.tick_wf(),
                done <= ticks,
                self.reefs_valid(p),
                advance_fits(*self, *p, (ticks - done) as nat),
                spec_advance(*self, *p, (ticks - done) as nat) == spec_advance(*old(self), *p, ticks as nat),
            decreases ticks - done,
        {
            self.tick(p);
            done += 1;
        }
    }

    /// Cost of the next purchase of `species`: base * growth^owned, computed by
    /// sequential multiplication so every platform agrees on the result.
    pub fn next_cost(&self, species: Species, p: &Params) -> (c: u128)
        requires
            p.cost_growth.den > 0,
        ensures
            c == self.spec_next_cost(species, p),
    {
        let i = species.index();
        let mut cost = p.base_cost[i];
        let mut k: u32 = 0;
        while k < self.population[i]
            invariant
                p.cost_growth.den > 0,
                i == species.spec_index(),
                k <= self.population[i as int],
                cost == cost_after(p.base_cost[i as int], p.cost_growth, k as nat),
            decreases self.population[i as int] - k,
        {
            cost = p.cost_growth.apply(cost);
            k += 1;
        }
        cost
    }

    /// Buy one unit if affordable and there is housing for it. Two gates only:
    /// the wall is reachability (currency), the ceiling is housing (capacity).
    pub fn buy(&mut self, species: Species, p: &Params) -> (bought: bool)
        requires
            p.cost_growth.den > 0,
            old(self).reefs_valid(p),
            old(self).spec_capacity(species.spec_index(), p) <= u32::MAX,
        ensures
            bought == can_buy(*old(self), species, *p),
            bought_from(*old(self), *final(self), species, *p),
    {
        let i = species.index();
        let cost = self.next_cost(species, p);
        if self.currency < cost || self.population[i] >= self.capacity(i, p) {
            return false;
        }
        self.currency = self.currency - cost;
        self.population[i] = self.population[i] + 1;
        true
    }

    /// Move surplus detritus into currency, and count it toward the lifetime
    /// score. Score is a tally of the same quantity, not a duplicate resource.
    pub fn collect(&mut self)
        requires
            old(self).score + old(self).collectable <= u128::MAX,
            old(self).currency + old(self).collectable <= u128::MAX,
        ensures
            *final(self) == spec_collect(*old(self)),
    {
        self.score = self.score + self.collectable;
        self.currency = self.currency + self.collectable;
        self.collectable = 0;
    }

    /// Detritus the placed reefs shed in one tick, or `None` when that sum
    /// does not fit a `u128`.
    fn checked_reef_output(&self, p: &Params) -> (d: Option<u128>)
        requires
            self.reefs_valid(p),
        ensures
            d is Some <==> output_sum(self.reefs@, p.reef_kinds@) <= u128::MAX,
            d matches Some(v) ==> v == output_sum(self.reefs@, p.reef_kinds@),
    {
        let ghost xs = reef_outputs(self.reefs@, p.reef_kinds@);
        let mut total: u128 = 0;
        let mut i: usize = 0;
        while i < self.reefs.len()
            invariant
                self.reefs_valid(p),
                xs == reef_outputs(self.reefs@, p.reef_kinds@),
                i <= self.reefs@.len(),
                total == seq_sum(xs.take(i as int)),
            decreases self.reefs@.len() - i,
        {
            proof {
                assert(self.reefs@[i as int].kind < p.reef_kinds@.len());
                lemma_prefix_sum(xs, i as int);
            }
            total = match total.checked_add(p.reef_kinds[self.reefs[i].kind].output) {
                Some(t) => t,
                None => {
                    return None;
                },
            };
            i += 1;
        }
        assert(xs.take(i as int) =~= xs);
        Some(total)
    }

    /// Whether every placed reef names a kind `p` knows (`reefs_valid`).
    pub fn reefs_valid_now(&self, p: &Params) -> (b: bool)
        ensures
            b == self.reefs_valid(p),
    {
        let mut i: usize = 0;
        while i < self.reefs.len()
            invariant
                i <= self.reefs@.len(),
                forall|j: int| 0 <= j < i ==> (#[trigger] self.reefs@[j]).kind < p.reef_kinds@.len(),
            decreases self.reefs@.len() - i,
        {
            if self.reefs[i].kind >= p.reef_kinds.len() {
                return false;
            }
            i += 1;
        }
        true
    }

    /// Whether the housing the placed reefs offer `species` fits a `u32`.
    pub fn capacity_fits(&self, species: usize, p: &Params) -> (b: bool)
        requires
            species < SPECIES,
            self.reefs_valid(p),
        ensures
            b == (self.spec_capacity(species as int, p) <= u32::MAX),
    {
        let ghost xs = reef_capacities(self.reefs@, p.reef_kinds@, species as int);
        let mut total: u32 = 0;
        let mut i: usize = 0;
        while i < self.reefs.len()
            invariant
                self.reefs_valid(p),
                species < SPECIES,
                xs == reef_capacities(self.reefs@, p.reef_kinds@, species as int),
                i <= self.reefs@.len(),
                total == seq_sum(xs.take(i as int)),
            decreases self.reefs@.len() - i,
        {
            proof {
                assert(self.reefs@[i as int].kind < p.reef_kinds@.len());
                lemma_prefix_sum(xs, i as int);
            }
            total = match total.checked_add(p.reef_kinds[self.reefs[i].kind].capacity[species]) {
                Some(t) => t,
                None => {
                    return false;
                },
            };
            i += 1;
        }
        assert(xs.take(i as int) =~= xs);
        true
    }

    /// Whether the placement budget the placed reefs spend fits a `u32`.
    pub fn placed_cost_fits(&self, p: &Params) -> (b: bool)
        requires
            self.reefs_valid(p),
        ensures
            b == (self.spec_placed_cost(p) <= u32::MAX),
    {
        let ghost xs = reef_costs(self.reefs@, p.reef_kinds@);
        let mut total: u32 = 0;
        let mut i: usize = 0;
        while i < self.reefs.len()
            invariant
                self.reefs_valid(p),
                xs == reef_costs(self.reefs@, p.reef_kinds@),
                i <= self.reefs@.len(),
                total == seq_sum(xs.take(i as int)),
            decreases self.reefs@.len() - i,
        {
            proof {
                assert(self.reefs@[i as int].kind < p.reef_kinds@.len());
                lemma_prefix_sum(xs, i as int);
            }
            total = match total.checked_add(p.reef_kinds[self.reefs[i].kind].cost) {
                Some(t) => t,
                None => {
                    return false;
                },
            };
            i += 1;
        }
        assert(xs.take(i as int) =~= xs);
        true
    }

    /// Whether every intermediate quantity of the next tick fits its machine
    /// type, worked out with checked arithmetic on a copy of the stocks.
    pub fn tick_fits_now(&self, p: &Params) -> (b: bool)
        requires
            p.tick_wf(),
            self.reefs_valid(p),
        ensures
            b == tick_fits(*self, *p),
    {
        let output = match self.checked_reef_output(p) {
            Some(d) => d,
            None => {
                return false;
            },
        };
        let ret = self.ecosystem_return(p);
        let collectable = match self.collectable.checked_add(ret) {
            Some(c) => c,
            None => {
                return false;
            },
        };
        let st = Stocks { pool: self.pool, nutrient: self.nutrient, collectable, detritus: output };
        assert(st.flow() =~~= flow_after_income(*self, *p));
        let st = match checked_algae(st, self.population[0] as u128, p) {
            Some(t) => t,
            None => {
                return false;
            },
        };
        let st = match checked_prey(st, 1, self.population[1] as u128, p) {
            Some(t) => t,
            None => {
                return false;
            },
        };
        let st = match checked_prey(st, 2, self.population[2] as u128, p) {
            Some(t) => t,
            None => {
                return false;
            },
        };
        let st = match checked_prey(st, 3, self.population[3] as u128, p) {
            Some(t) => t,
            None => {
                return false;
            },
        };
        let st = match checked_decay(st, 0, p) {
            Some(t) => t,
            None => {
                return false;
            },
        };
        let st = match checked_decay(st, 1, p) {
            Some(t) => t,
            None => {
                return false;
            },
        };
        let st = match checked_decay(st, 2, p) {
            Some(t) => t,
            None => {
                return false;
            },
        };
        let st = match checked_decay(st, 3, p) {
            Some(t) => t,
            None => {
                return false;
            },
        };
        if !settle_fits_now(&st, p) {
            return false;
        }
        self.tick_count < u64::MAX
    }

    /// One tick when it fits the machine types (`tick`), and nothing at all
    /// when it does not.
    pub fn try_tick(&mut self, p: &Params) -> (ticked: bool)
        requires
            p.tick_wf(),
            old(self).reefs_valid(p),
        ensures
            ticked == tick_fits(*old(self), *p),
            ticked ==> *final(self) == spec_tick(*old(self), *p),
            !ticked ==> *final(self) == *old(self),
    {
        if self.tick_fits_now(p) {
            self.tick(p);
            true
        } else {
            false
        }
    }

    /// Up to `ticks` steps, stopping early only at a tick that would not fit
    /// the machine types; returns how many ran. When every step fits, this is
    /// exactly `advance`.
    pub fn advance_while_fits(&mut self, ticks: u64, p: &Params) -> (done: u64)
        requires
            p.tick_wf(),
            old(self).reefs_valid(p),
        ensures
            done <= ticks,
            *final(self) == spec_advance(*old(self), *p, done as nat),
            done < ticks ==> !tick_fits(*final(self), *p),
            advance_fits(*old(self), *p, done as nat),
    {
        let mut done: u64 = 0;
        while done < ticks
            invariant
                p.tick_wf(),
                done <= ticks,
                self.reefs_valid(p),
                *self == spec_advance(*old(self), *p, done as nat),
                advance_fits(*old(self), *p, done as nat),
            decreases ticks - done,
        {
            if !self.try_tick(p) {
                return done;
            }
            proof {
                lemma_advance_step(*old(self), *p, done as nat);
            }
            done += 1;
        }
        done
    }
}

/// One more step: `n + 1` ticks are `n` ticks and then one, and they all fit
/// when the first `n` fit and the last one does.
pub proof fn lemma_advance_step(s: State, p: Params, n: nat)
    ensures
        spec_advance(s, p, n + 1) == spec_tick(spec_advance(s, p, n), p),
        advance_fits(s, p, n) && tick_fits(spec_advance(s, p, n), p) ==> advance_fits(s, p, n + 1),
    decreases n,
{
    let t = spec_tick(s, p);
    assert(spec_advance(s, p, n + 1) == spec_advance(t, p, n));
    assert(advance_fits(s, p, n + 1) == (tick_fits(s, p) && advance_fits(t, p, n)));
    if n > 0 {
        lemma_advance_step(t, p, (n - 1) as nat);
        assert(spec_advance(s, p, n) == spec_advance(t, p, (n - 1) as nat));
        assert(advance_fits(s, p, n) == (tick_fits(s, p) && advance_fits(t, p, (n - 1) as nat)));
    } else {
        assert(spec_advance(t, p, 0) == t);
        assert(advance_fits(t, p, 0));
    }
}

/// The stocks a tick moves, with the detritus in flight.
struct Stocks {
    pool: [u128; SPECIES],
    nutrient: u128,
    collectable: u128,
    detritus: u128,
}

impl Stocks {
    spec fn flow(&self) -> Flow {
        (
            seq![self.pool[0] as int, self.pool[1] as int, self.pool[2] as int, self.pool[3] as int],
            self.nutrient as int,
            self.collectable as int,
            self.detritus as int,
        )
    }
}

/// Steps 3-4 with checked arithmetic: `None` exactly when they overflow.
fn checked_algae(st: Stocks, algae: u128, p: &Params) -> (r: Option<Stocks>)
    ensures
        r is Some <==> algae_fits(st.flow(), algae as int, *p),
        r matches Some(t) ==> t.flow() =~~= step_algae(st.flow(), algae as int, *p),
{
    let photo = match algae.checked_mul(p.photosynthesis) {
        Some(x) => x,
        None => {
            return None;
        },
    };
    let grown = match st.pool[0].checked_add(photo) {
        Some(x) => x,
        None => {
            return None;
        },
    };
    let cap = match algae.checked_mul(p.nutrient_uptake) {
        Some(x) => x,
        None => {
            return None;
        },
    };
    let uptake = if st.nutrient <= cap {
        st.nutrient
    } else {
        cap
    };
    let p0 = match grown.checked_add(uptake) {
        Some(x) => x,
        None => {
            return None;
        },
    };
    let mut pool = st.pool;
    pool[0] = p0;
    Some(Stocks { pool, nutrient: st.nutrient - uptake, collectable: st.collectable, detritus: st.detritus })
}

/// Step 5 for species `i` with checked arithmetic.
fn checked_prey(st: Stocks, i: usize, pop: u128, p: &Params) -> (r: Option<Stocks>)
    requires
        1 <= i < SPECIES,
        p.tick_wf(),
    ensures
        r is Some <==> prey_fits(st.flow(), i as int, pop as int, *p),
        r matches Some(t) ==> t.flow() =~~= step_prey(st.flow(), i as int, pop as int, *p),
{
    let demand = match pop.checked_mul(p.demand[i]) {
        Some(x) => x,
        None => {
            return None;
        },
    };
    let eaten = if st.pool[i - 1] <= demand {
        st.pool[i - 1]
    } else {
        demand
    };
    let converted = p.conversion.apply(eaten);
    proof {
        lemma_fraction_shrinks(p.conversion, eaten);
    }
    let grown = match st.pool[i].checked_add(converted) {
        Some(x) => x,
        None => {
            return None;
        },
    };
    let detritus = match st.detritus.checked_add(eaten - converted) {
        Some(x) => x,
        None => {
            return None;
        },
    };
    let mut pool = st.pool;
    pool[i - 1] = pool[i - 1] - eaten;
    pool[i] = grown;
    Some(Stocks { pool, nutrient: st.nutrient, collectable: st.collectable, detritus })
}

/// Step 6 for pool `i` with checked arithmetic.
fn checked_decay(st: Stocks, i: usize, p: &Params) -> (r: Option<Stocks>)
    requires
        i < SPECIES,
        p.tick_wf(),
    ensures
        r is Some <==> decay_fits(st.flow(), i as int, *p),
        r matches Some(t) ==> t.flow() =~~= step_decay(st.flow(), i as int, *p),
{
    let dead = p.decay.apply(st.pool[i]);
    proof {
        lemma_fraction_shrinks(p.decay, st.pool[i as int]);
    }
    let detritus = match st.detritus.checked_add(dead) {
        Some(x) => x,
        None => {
            return None;
        },
    };
    let mut pool = st.pool;
    pool[i] = pool[i] - dead;
    Some(Stocks { pool, nutrient: st.nutrient, collectable: st.collectable, detritus })
}

/// Whether step 7 fits, checked.
fn settle_fits_now(st: &Stocks, p: &Params) -> (b: bool)
    requires
        p.tick_wf(),
    ensures
        b == settle_fits(st.flow(), *p),
{
    let to_nutrient = p.recycle.apply(st.detritus);
    proof {
        lemma_fraction_shrinks(p.recycle, st.detritus);
    }
    st.nutrient.checked_add(to_nutrient).is_some() && st.collectable.checked_add(st.detritus - to_nutrient).is_some()
}

} // verus!
