//! Character stats: base values per stat and the multipliers that adjust them.

use crate::fixed::{apply_multiplier, clamp_i32, effective};
use vstd::prelude::*;

verus! {

/// Character stat.
#[derive(PartialEq, Eq, Structural, Clone, Copy, Debug, Hash)]
pub enum Stat {
    /// Strength.
    Str,
    /// Intelligence.
    Int,
    /// Swiftness.
    Swi,
}

/// One value for each stat.
struct StatTable<T> {
    strength: T,
    intelligence: T,
    swiftness: T,
}

impl<T> StatTable<T> {
    spec fn at(self, s: Stat) -> T {
        match s {
            Stat::Str => self.strength,
            Stat::Int => self.intelligence,
            Stat::Swi => self.swiftness,
        }
    }

    fn uniform(v: T) -> (r: Self)
        where
            T: Copy,
        ensures
            forall|s: Stat| r.at(s) == v,
    {
        StatTable { strength: v, intelligence: v, swiftness: v }
    }

    fn get(&self, s: Stat) -> (r: T)
        where
            T: Copy,
        ensures
            r == self.at(s),
    {
        match s {
            Stat::Str => self.strength,
            Stat::Int => self.intelligence,
            Stat::Swi => self.swiftness,
        }
    }

    fn set(&mut self, s: Stat, v: T)
        ensures
            final(self).at(s) == v,
            forall|t: Stat| t != s ==> final(self).at(t) == old(self).at(t),
    {
        match s {
            Stat::Str => self.strength = v,
            Stat::Int => self.intelligence = v,
            Stat::Swi => self.swiftness = v,
        }
    }
}

/// What a [`Multiplier`] holds: the stat it adjusts and its fixed-point value.
pub struct MultiplierView {
    pub stat: Stat,
    pub value: int,
}

/// Stat multiplier: a fixed-point percentage adjustment of one stat.
///
/// A value of `FIXED_ONE / 10` raises the stat by 10%; negative values lower it.
pub struct Multiplier {
    stat: Stat,
    value: i64,
}

impl View for Multiplier {
    type V = MultiplierView;

    closed spec fn view(&self) -> MultiplierView {
        MultiplierView { stat: self.stat, value: self.value as int }
    }
}

impl Multiplier {
    /// Constructs a new `Multiplier` for `stat` with the fixed-point `value`.
    pub fn new(stat: Stat, value: i64) -> (r: Self)
        ensures
            r@ == (MultiplierView { stat, value: value as int }),
    {
        Multiplier { stat, value }
    }
}

/// The state of a [`CharacterStats`]: the configured base values and the
/// accumulated multiplier of every stat, all fixed-point.
pub struct StatsView {
    pub base: Map<Stat, int>,
    pub multipliers: Map<Stat, int>,
}

impl StatsView {
    /// The accumulated multiplier of `s`; a stat never adjusted has 0.
    pub open spec fn multiplier(self, s: Stat) -> int {
        if self.multipliers.contains_key(s) {
            self.multipliers[s]
        } else {
            0
        }
    }

    /// What `get_stat(s)` returns: the base value of `s` scaled by one plus
    /// its accumulated multiplier, rounded (halves away from zero) and
    /// saturated to `i32`.
    pub open spec fn value(self, s: Stat) -> int
        recommends
            self.base.contains_key(s),
    {
        clamp_i32(effective(self.base[s], self.multiplier(s)))
    }

    /// The state after adding `delta` to the accumulated multiplier of `s`.
    pub open spec fn adjust(self, s: Stat, delta: int) -> StatsView {
        StatsView { base: self.base, multipliers: self.multipliers.insert(s, self.multiplier(s) + delta) }
    }

    /// The state after `add_multiplier(m)`.
    pub open spec fn add(self, m: MultiplierView) -> StatsView {
        self.adjust(m.stat, m.value)
    }

    /// The state after `sub_multiplier(m)`.
    pub open spec fn sub(self, m: MultiplierView) -> StatsView {
        self.adjust(m.stat, -m.value)
    }
}

/// The base values that a list of `(stat, value)` entries configures: each
/// listed stat gets the value of its last entry.
pub open spec fn base_map(entries: Seq<(Stat, i64)>) -> Map<Stat, int>
    decreases entries.len(),
{
    if entries.len() == 0 {
        Map::empty()
    } else {
        let last = entries.last();
        base_map(entries.drop_last()).insert(last.0, last.1 as int)
    }
}

/// A freshly constructed state: the given base values and no multiplier.
pub open spec fn fresh(base: Map<Stat, int>) -> StatsView {
    StatsView { base, multipliers: Map::total(|s: Stat| 0int) }
}

/// Character stats.
pub struct CharacterStats {
    base: StatTable<Option<i64>>,
    multipliers: StatTable<i64>,
}

impl View for CharacterStats {
    type V = StatsView;

    closed spec fn view(&self) -> StatsView {
        StatsView {
            base: Map::new(
                |s: Stat| self.base.at(s) is Some,
                |s: Stat| self.base.at(s).unwrap() as int,
            ),
            multipliers: Map::total(|s: Stat| self.multipliers.at(s) as int),
        }
    }
}

impl CharacterStats {
    /// Constructs new `CharacterStats` from `(stat, base value)` entries;
    /// where a stat is listed twice, its last entry counts.
    pub fn new(base: Vec<(Stat, i64)>) -> (r: Self)
        ensures
            r@ == fresh(base_map(base@)),
    {
        let mut table: StatTable<Option<i64>> = StatTable::uniform(None);
        let mut i: usize = 0;
        while i < base.len()
            invariant
                i <= base.len(),
                forall|s: Stat| #[trigger] table.at(s) is Some == base_map(base@.take(i as int)).contains_key(s),
                forall|s: Stat| table.at(s) is Some ==> table.at(s).unwrap() as int == #[trigger] base_map(base@.take(i as int))[s],
            decreases base.len() - i,
        {
            let (s, v) = base[i];
            table.set(s, Some(v));
            assert(base@.take(i + 1).drop_last() =~= base@.take(i as int));
            i = i + 1;
        }
        assert(base@.take(base.len() as int) =~= base@);
        let r = CharacterStats { base: table, multipliers: StatTable::uniform(0) };
        assert(r@.base =~= base_map(base@));
        assert(r@.multipliers =~= fresh(base_map(base@)).multipliers);
        r
    }

    /// Gets a specific `Stat`, with its multipliers applied.
    pub fn get_stat(&self, stat: Stat) -> (r: i32)
        requires
            self@.base.contains_key(stat),
        ensures
            r == self@.value(stat),
    {
        let base = match self.base.get(stat) {
            Some(v) => v,
            None => 0,
        };
        apply_multiplier(base, self.multipliers.get(stat))
    }

    /// Adds a multiplier for a specific stat.
    pub fn add_multiplier(&mut self, stat: &Multiplier)
        requires
            i64::MIN <= old(self)@.multiplier(stat@.stat) + stat@.value <= i64::MAX,
        ensures
            final(self)@ == old(self)@.add(stat@),
    {
        let current = self.multipliers.get(stat.stat);
        self.multipliers.set(stat.stat, current + stat.value);
        assert(self@.multipliers =~= old(self)@.add(stat@).multipliers);
    }

    /// Removes a multiplier for a specific stat.
    pub fn sub_multiplier(&mut self, stat: &Multiplier)
        requires
            i64::MIN <= old(self)@.multiplier(stat@.stat) - stat@.value <= i64::MAX,
        ensures
            final(self)@ == old(self)@.sub(stat@),
    {
        let current = self.multipliers.get(stat.stat);
        self.multipliers.set(stat.stat, current - stat.value);
        assert(self@.multipliers =~= old(self)@.sub(stat@).multipliers);
    }
}

} // verus!
