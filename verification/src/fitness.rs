//! Fitness as an exact fraction, and the ranking of a season's table.

use vstd::prelude::*;
use vstd::seq_lib::{to_multiset_build, to_multiset_insert};

verus! {

/// An average payoff per round, kept exact: `points` earned over `rounds`
/// played.
#[derive(Clone, Copy, Debug, PartialEq, Eq, Structural)]
pub struct Fitness {
    pub points: u64,
    pub rounds: u64,
}

impl Fitness {
    /// At least one round was played, and none paid more than 5 points.
    pub open spec fn is_average(self) -> bool {
        self.rounds > 0 && self.points <= 5 * self.rounds
    }

    /// `self <= other`, as fractions.
    pub open spec fn at_most(self, other: Fitness) -> bool {
        self.points * other.rounds <= other.points * self.rounds
    }

    /// `self > tenths / 10`, as fractions.
    pub open spec fn exceeds_tenths(self, tenths: int) -> bool {
        10 * self.points > tenths * self.rounds
    }

    /// Whether this fitness is no greater than `other`.
    pub fn le(&self, other: &Fitness) -> (holds: bool)
        ensures
            holds == self.at_most(*other),
    {
        proof {
            lemma_product_fits(self.points, other.rounds);
            lemma_product_fits(other.points, self.rounds);
        }
        let left: u128 = self.points as u128 * other.rounds as u128;
        let right: u128 = other.points as u128 * self.rounds as u128;
        left <= right
    }

    /// Whether this fitness is greater than `tenths` tenths of a point.
    pub fn exceeds(&self, tenths: u8) -> (holds: bool)
        ensures
            holds == self.exceeds_tenths(tenths as int),
    {
        proof {
            lemma_product_fits(tenths as u64, self.rounds);
        }
        let left: u128 = 10 * (self.points as u128);
        let right: u128 = tenths as u128 * self.rounds as u128;
        left > right
    }
}

/// The product of two 64-bit numbers fits in 128 bits.
proof fn lemma_product_fits(a: u64, b: u64)
    ensures
        0 <= a * b <= u128::MAX,
{
    assert(0 <= a * b <= 0xffff_ffff_ffff_ffff * 0xffff_ffff_ffff_ffff) by (nonlinear_arith)
        requires
            0 <= a <= 0xffff_ffff_ffff_ffff,
            0 <= b <= 0xffff_ffff_ffff_ffff,
    ;
}

/// Of two fitnesses one is at most the other, and `at_most` passes along a
/// chain, where rounds were played.
pub proof fn lemma_fitness_order(a: Fitness, b: Fitness, c: Fitness)
    requires
        a.rounds > 0,
        b.rounds > 0,
        c.rounds > 0,
    ensures
        a.at_most(a),
        a.at_most(b) || b.at_most(a),
        a.at_most(b) && b.at_most(c) ==> a.at_most(c),
{
    if a.at_most(b) && b.at_most(c) {
        let (ap, ar) = (a.points as int, a.rounds as int);
        let (bp, br) = (b.points as int, b.rounds as int);
        let (cp, cr) = (c.points as int, c.rounds as int);
        assert(ap * cr <= cp * ar) by (nonlinear_arith)
            requires
                ap * br <= bp * ar,
                bp * cr <= cp * br,
                ar > 0,
                br > 0,
                cr > 0,
                ap >= 0,
                bp >= 0,
                cp >= 0,
        ;
    }
}

/// A player's place in a season's table: its position in the population and
/// its fitness.
#[derive(Clone, Copy, Debug, PartialEq, Eq, Structural)]
pub struct Standing {
    pub player: usize,
    pub fitness: Fitness,
}

/// The rankings of several seasons, as sequences.
pub open spec fn rankings_of(seasons: Seq<Vec<Standing>>) -> Seq<Seq<Standing>> {
    Seq::new(seasons.len(), |i: int| seasons[i]@)
}

/// Whether the fitness never falls from one entry to the next.
pub open spec fn is_ascending(ranking: Seq<Standing>) -> bool {
    forall|i: int, j: int|
        0 <= i < j < ranking.len() ==> (#[trigger] ranking[i]).fitness.at_most(
            (#[trigger] ranking[j]).fitness,
        )
}

/// Whether `ranking` ranks `table`: it holds the entries of `table`, each as
/// often as `table` does, in ascending order of fitness.
pub open spec fn is_ranking_of(table: Seq<Standing>, ranking: Seq<Standing>) -> bool {
    ranking.to_multiset() == table.to_multiset() && is_ascending(ranking)
}

/// Ranks a table by ascending fitness.
pub fn rank(table: &Vec<Standing>) -> (ranking: Vec<Standing>)
    requires
        forall|i: int| 0 <= i < table@.len() ==> (#[trigger] table@[i]).fitness.rounds > 0,
    ensures
        is_ranking_of(table@, ranking@),
        ranking@.len() == table@.len(),
{
    let mut ranking: Vec<Standing> = Vec::new();
    let mut done: usize = 0;
    assert(table@.take(0) == ranking@);
    while done < table.len()
        invariant
            done <= table@.len(),
            ranking@.len() == done,
            ranking@.to_multiset() == table@.take(done as int).to_multiset(),
            is_ascending(ranking@),
            forall|i: int| 0 <= i < table@.len() ==> (#[trigger] table@[i]).fitness.rounds > 0,
            forall|i: int| 0 <= i < ranking@.len() ==> (#[trigger] ranking@[i]).fitness.rounds > 0,
        decreases table@.len() - done,
    {
        let entry = table[done];
        let mut place: usize = 0;
        while place < ranking.len() && ranking[place].fitness.le(&entry.fitness)
            invariant
                place <= ranking@.len(),
                forall|i: int|
                    0 <= i < place ==> (#[trigger] ranking@[i]).fitness.at_most(entry.fitness),
            decreases ranking@.len() - place,
        {
            place = place + 1;
        }
        let ghost before = ranking@;
        ranking.insert(place, entry);
        proof {
            to_multiset_insert(before, place as int, entry);
            to_multiset_build(table@.take(done as int), entry);
            assert(table@.take(done + 1) == table@.take(done as int).push(entry));
            assert forall|i: int, j: int| 0 <= i < j < ranking@.len() implies (
            #[trigger] ranking@[i]).fitness.at_most((#[trigger] ranking@[j]).fitness) by {
                if j == place {
                    assert(ranking@[i] == before[i]);
                } else if i == place {
                    assert(ranking@[j] == before[j - 1]);
                    lemma_fitness_order(
                        entry.fitness,
                        before[place as int].fitness,
                        before[j - 1].fitness,
                    );
                    lemma_fitness_order(before[place as int].fitness, entry.fitness, entry.fitness);
                } else {
                    let bi = if i < place { i } else { i - 1 };
                    let bj = if j < place { j } else { j - 1 };
                    assert(ranking@[i] == before[bi]);
                    assert(ranking@[j] == before[bj]);
                }
            }
            assert forall|i: int| 0 <= i < ranking@.len() implies (
            #[trigger] ranking@[i]).fitness.rounds > 0 by {
                if i < place {
                    assert(ranking@[i] == before[i]);
                } else if i > place {
                    assert(ranking@[i] == before[i - 1]);
                }
            }
        }
        done = done + 1;
    }
    proof {
        assert(table@.take(table@.len() as int) == table@);
    }
    ranking
}

} // verus!
