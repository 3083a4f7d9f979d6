//! Tunable parameters of the economy. Rules, step order and rounding are fixed
//! by the engine; the numbers here are bounded by the invariant tests.

use vstd::prelude::*;

verus! {

/// Fixed-point scale: every biomass/currency quantity is in micro-units.
pub const MICRO: u128 = 1_000_000;

/// Number of species in the trophic chain.
pub const SPECIES: usize = 4;

/// Discrete floor positions a reef can occupy in a run. Nine positions keep a
/// true center slot (and the cursor's `SLOTS / 2` start) on the midline.
pub const SLOTS: u8 = 9;

/// Trophic chain, bottom to top. `index` is the array index of the species.
#[derive(Clone, Copy, PartialEq, Eq, Debug, Structural)]
pub enum Species {
    Algae,
    Plankton,
    SmallFish,
    BigFish,
}

impl Species {
    pub open spec fn spec_index(self) -> int {
        match self {
            Species::Algae => 0,
            Species::Plankton => 1,
            Species::SmallFish => 2,
            Species::BigFish => 3,
        }
    }

    /// The species' position in the chain, which is also its array index.
    pub fn index(self) -> (i: usize)
        ensures
            i == self.spec_index(),
            i < SPECIES,
    {
        match self {
            Species::Algae => 0,
            Species::Plankton => 1,
            Species::SmallFish => 2,
            Species::BigFish => 3,
        }
    }
}

/// `x * y`, pinned at `u128::MAX` instead of wrapping.
pub open spec fn sat_mul(x: u128, y: u128) -> u128 {
    if x * y > u128::MAX {
        u128::MAX
    } else {
        (x * y) as u128
    }
}

/// `x * y` for `u64`, pinned at `u64::MAX` instead of wrapping.
pub fn saturating_mul_u64(x: u64, y: u64) -> (r: u64)
    ensures
        r == if x * y > u64::MAX {
            u64::MAX as int
        } else {
            x * y
        },
{
    match x.checked_mul(y) {
        Some(m) => m,
        None => u64::MAX,
    }
}

/// A ratio applied as `floor(x * num / den)`. The multiplication saturates:
/// physical stocks stay bounded via decay, but the exponential cost sequence
/// can exceed u128; it must pin at the top, never wrap back to cheap.
#[derive(Clone, Copy, PartialEq, Eq, Debug, Structural)]
pub struct Ratio {
    pub num: u128,
    pub den: u128,
}

impl Ratio {
    pub open spec fn spec_apply(self, x: u128) -> u128 {
        (sat_mul(x, self.num) / self.den) as u128
    }

    /// A ratio that never makes more than it is given: `num <= den`, and a
    /// non-zero denominator.
    pub open spec fn is_fraction(self) -> bool {
        0 < self.den && self.num <= self.den
    }

    pub fn new(num: u128, den: u128) -> (r: Self)
        ensures
            r.num == num,
            r.den == den,
    {
        Self { num, den }
    }

    pub fn apply(self, x: u128) -> (r: u128)
        requires
            self.den > 0,
        ensures
            r == self.spec_apply(x),
    {
        let product = match x.checked_mul(self.num) {
            Some(m) => m,
            None => u128::MAX,
        };
        product / self.den
    }
}

/// A fraction never gives back more than it was applied to.
pub proof fn lemma_fraction_shrinks(r: Ratio, x: u128)
    requires
        r.is_fraction(),
    ensures
        r.spec_apply(x) <= x,
{
    let m = sat_mul(x, r.num);
    assert(m <= x * r.den) by (nonlinear_arith)
        requires
            m == sat_mul(x, r.num),
            r.num <= r.den,
            0 < r.den,
    ;
    assert(m / r.den <= x) by (nonlinear_arith)
        requires
            m <= x * r.den,
            0 < r.den,
            0 <= m,
    ;
}

/// A reef kind: its name, what it costs to place (budget, not currency), the
/// score that unlocks it, the detritus it sheds per tick, and how many of each
/// species it can house.
#[derive(Clone, PartialEq, Eq, Debug)]
pub struct ReefKind {
    /// Display name (also the identity in the placement UI).
    pub name: &'static str,
    /// Placement budget this kind consumes (an allocation, never currency).
    pub cost: u32,
    /// Score at which this kind unlocks: placeable once `score >= unlock`.
    pub unlock: u128,
    /// Detritus shed per tick, effective from placement.
    pub output: u128,
    /// How many individuals of each species this kind can house.
    pub capacity: [u32; SPECIES],
}

/// The kind of rock a reef is built on: the same thing as a reef kind.
pub type RockKind = ReefKind;

#[derive(Clone, PartialEq, Eq, Debug)]
pub struct Params {
    /// r: biomass created per algae per tick.
    pub photosynthesis: u128,
    /// g: nutrient an algae can take up per tick.
    pub nutrient_uptake: u128,
    /// c[i]: biomass an individual of species i demands per tick (index 0 unused).
    pub demand: [u128; SPECIES],
    /// E: fraction of eaten biomass converted upward; the rest settles as detritus.
    pub conversion: Ratio,
    /// d: fraction of every pool that dies off per tick.
    pub decay: Ratio,
    /// rho: fraction of detritus recycled to nutrient; the rest is collectable.
    pub recycle: Ratio,
    /// w: what one housed individual above the algae returns per tick, as a
    /// fraction of its reef's placement cost in whole units.
    pub ecosystem_return: Ratio,
    /// Base purchase cost per species.
    pub base_cost: [u128; SPECIES],
    /// Cost multiplier per owned unit.
    pub cost_growth: Ratio,
    /// Reef kinds available to place; a reef's `kind` indexes this list.
    pub reef_kinds: Vec<ReefKind>,
    /// Placement budget schedule: `(score threshold, budget)` pairs.
    pub budget_steps: Vec<(u128, u32)>,
    /// Currency granted once, at run start.
    pub seed_currency: u128,
    /// Living biomass at or above which a visiting whale may cross the pane.
    pub whale_biomass: u128,
    /// Lifetime score at which the sunken-anchor scenery is unlocked.
    pub anchor_unlock: u128,
}

/// The largest budget among the steps whose threshold is at or below `score`
/// (0 when there is none).
pub open spec fn budget_of(steps: Seq<(u128, u32)>, score: u128) -> u32
    decreases steps.len(),
{
    if steps.len() == 0 {
        0
    } else {
        let rest = budget_of(steps.drop_last(), score);
        let last = steps.last();
        if last.0 <= score && last.1 > rest {
            last.1
        } else {
            rest
        }
    }
}

impl Params {
    /// The parameters a tick can run on: each ratio that splits a quantity
    /// is a true fraction, and the ecosystem's return divides by a non-zero
    /// denominator.
    pub open spec fn tick_wf(&self) -> bool {
        &&& self.conversion.is_fraction()
        &&& self.decay.is_fraction()
        &&& self.recycle.is_fraction()
        &&& self.ecosystem_return.den > 0
    }

    /// The parameters every rule of the engine can run on: a tick's, and a
    /// price growth that divides by a non-zero denominator.
    pub open spec fn wf(&self) -> bool {
        &&& self.tick_wf()
        &&& self.cost_growth.den > 0
    }

    /// Whether these parameters are ones every rule can run on (`wf`).
    pub fn is_wf(&self) -> (b: bool)
        ensures
            b == self.wf(),
    {
        0 < self.conversion.den && self.conversion.num <= self.conversion.den && 0 < self.decay.den
            && self.decay.num <= self.decay.den && 0 < self.recycle.den && self.recycle.num
            <= self.recycle.den && self.ecosystem_return.den > 0 && self.cost_growth.den > 0
    }

    /// The shipped economy, field by field, with the shipped reef kinds.
    pub open spec fn is_default(&self) -> bool {
        &&& self.photosynthesis == MICRO
        &&& self.nutrient_uptake == 4 * MICRO / 5
        &&& self.demand@ == seq![0u128, 2_000_000u128, 5_000_000u128, 20_000_000u128]
        &&& self.conversion == (Ratio { num: 1, den: 10 })
        &&& self.decay == (Ratio { num: 1, den: 100 })
        &&& self.recycle == (Ratio { num: 3, den: 10 })
        &&& self.ecosystem_return == (Ratio { num: 3, den: 5 })
        &&& self.base_cost@ == seq![100_000_000u128, 450_000_000u128, 900_000_000u128, 4_000_000_000u128]
        &&& self.cost_growth == (Ratio { num: 112, den: 100 })
        &&& crate::content::shipped_kinds(self.reef_kinds@)
        &&& self.budget_steps@ == seq![
            (0u128, 1u32),
            (12_000_000_000u128, 2u32),
            (30_000_000_000u128, 3u32),
            (75_000_000_000u128, 5u32),
        ]
        &&& self.seed_currency == 80 * MICRO
        &&& self.whale_biomass == 400 * MICRO
        &&& self.anchor_unlock == 75_000 * MICRO
    }

    pub open spec fn spec_budget(&self, score: u128) -> u32 {
        budget_of(self.budget_steps@, score)
    }

    /// Placement budget unlocked at `score`: the budget of the highest step
    /// whose threshold is at or below the score.
    pub fn budget(&self, score: u128) -> (b: u32)
        ensures
            b == self.spec_budget(score),
    {
        let mut best: u32 = 0;
        let mut i: usize = 0;
        while i < self.budget_steps.len()
            invariant
                i <= self.budget_steps@.len(),
                best == budget_of(self.budget_steps@.take(i as int), score),
            decreases self.budget_steps@.len() - i,
        {
            let (threshold, budget) = self.budget_steps[i];
            assert(self.budget_steps@.take(i + 1).drop_last() =~= self.budget_steps@.take(i as int));
            if threshold <= score && budget > best {
                best = budget;
            }
            i += 1;
        }
        assert(self.budget_steps@.take(i as int) =~= self.budget_steps@);
        best
    }
}

/// The budget is the largest qualifying step: it is at least every step at or
/// below the score, and it is some such step's budget (or 0).
pub proof fn lemma_budget_is_max(steps: Seq<(u128, u32)>, score: u128)
    ensures
        forall|i: int| 0 <= i < steps.len() && steps[i].0 <= score ==> steps[i].1 <= budget_of(steps, score),
        budget_of(steps, score) == 0 || exists|i: int|
            0 <= i < steps.len() && steps[i].0 <= score && steps[i].1 == budget_of(steps, score),
    decreases steps.len(),
{
    if steps.len() > 0 {
        lemma_budget_is_max(steps.drop_last(), score);
        let rest = budget_of(steps.drop_last(), score);
        assert forall|i: int| 0 <= i < steps.len() && steps[i].0 <= score implies steps[i].1
            <= budget_of(steps, score) by {
            if i < steps.len() - 1 {
                assert(steps.drop_last()[i] == steps[i]);
            }
        }
        if budget_of(steps, score) != 0 {
            if budget_of(steps, score) == rest {
                let j = choose|j: int|
                    0 <= j < steps.drop_last().len() && steps.drop_last()[j].0 <= score
                        && steps.drop_last()[j].1 == rest;
                assert(steps[j] == steps.drop_last()[j]);
            } else {
                assert(steps[steps.len() - 1] == steps.last());
            }
        }
    }
}

/// The shipped budget schedule in closed form: 1 from the start, 2 from
/// score 12 000, 3 from 30 000 and 5 from 75 000.
pub open spec fn default_budget(score: u128) -> u32 {
    if score >= 75_000 * MICRO {
        5
    } else if score >= 30_000 * MICRO {
        3
    } else if score >= 12_000 * MICRO {
        2
    } else {
        1
    }
}

/// Under the shipped parameters the budget at every score is the closed
/// form `default_budget`.
pub proof fn lemma_default_budget(p: Params)
    requires
        p.is_default(),
    ensures
        forall|score: u128| #[trigger] p.spec_budget(score) == default_budget(score),
{
    assert forall|score: u128| #[trigger] p.spec_budget(score) == default_budget(score) by {
        reveal_with_fuel(budget_of, 5);
        let st = p.budget_steps@;
        assert(st.drop_last() =~= seq![(0u128, 1u32), (12_000_000_000u128, 2u32), (30_000_000_000u128, 3u32)]);
        assert(st.drop_last().drop_last() =~= seq![(0u128, 1u32), (12_000_000_000u128, 2u32)]);
        assert(st.drop_last().drop_last().drop_last() =~= seq![(0u128, 1u32)]);
        assert(st.drop_last().drop_last().drop_last().drop_last() =~= Seq::<(u128, u32)>::empty());
    }
}

impl Default for Params {
    /// The shipped economy. The ecosystem's return w is frozen at 3/5 of a
    /// whole unit per housed individual per unit of reef cost.
    fn default() -> (p: Self)
        ensures
            p.wf(),
            p.is_default(),
            forall|score: u128| #[trigger] p.spec_budget(score) == default_budget(score),
    {
        let p = Self {
            photosynthesis: MICRO,
            nutrient_uptake: 4 * MICRO / 5,
            demand: [0, 2 * MICRO, 5 * MICRO, 20 * MICRO],
            conversion: Ratio::new(1, 10),
            decay: Ratio::new(1, 100),
            recycle: Ratio::new(3, 10),
            ecosystem_return: Ratio::new(3, 5),
            base_cost: [100 * MICRO, 450 * MICRO, 900 * MICRO, 4_000 * MICRO],
            cost_growth: Ratio::new(112, 100),
            reef_kinds: crate::content::reef_kinds(),
            budget_steps: vec![
                (0, 1),
                (12_000 * MICRO, 2),
                (30_000 * MICRO, 3),
                (75_000 * MICRO, 5),
            ],
            seed_currency: 80 * MICRO,
            whale_biomass: 400 * MICRO,
            anchor_unlock: 75_000 * MICRO,
        };
        assert(p.demand@ =~= seq![0u128, 2_000_000u128, 5_000_000u128, 20_000_000u128]);
        assert(p.base_cost@ =~= seq![100_000_000u128, 450_000_000u128, 900_000_000u128, 4_000_000_000u128]);
        assert(p.budget_steps@ =~= seq![(0u128, 1u32), (12_000_000_000u128, 2u32), (30_000_000_000u128, 3u32), (75_000_000_000u128, 5u32)]);
        proof {
            lemma_default_budget(p);
        }
        p
    }
}

} // verus!
