//! How the kinds fare as the noise rises: one season at each noise level
//! from none to all, with the population held fixed.

use vstd::prelude::*;
use crate::common::{kinds_of, Player, Strategy, StrategyType};
use crate::fitness::{rankings_of, Fitness, Standing};
use crate::random::RandomSource;
use crate::season::{config_error, is_full_ranking, is_season_ranking, play_season, ConfigError};

verus! {

/// The number of noise levels of a sweep: 0, 10, 20, and so on to 100.
pub const SWEEP_POINTS: usize = 11;

/// The distance between two noise levels of a sweep.
pub const SWEEP_STEP: i32 = 10;

/// Whether `seasons` can be the rankings of a sweep of `players`: one
/// season at each noise level, lowest level first.
pub open spec fn is_sweep_of<S: Strategy>(
    players: Seq<Player<S>>,
    seasons: Seq<Seq<Standing>>,
) -> bool {
    &&& seasons.len() == SWEEP_POINTS
    &&& forall|k: int|
        0 <= k < seasons.len() ==> is_season_ranking(players, SWEEP_STEP * k, #[trigger] seasons[k])
}

/// Plays one season at each noise level of the sweep, lowest level first,
/// and gives the rankings. The population is the same at every level.
pub fn play_sweep<S: Strategy, R: RandomSource>(players: &Vec<Player<S>>, random: &mut R) -> (sweep:
    Result<Vec<Vec<Standing>>, ConfigError>)
    ensures
        match sweep {
            Ok(seasons) => is_sweep_of(players@, rankings_of(seasons@)) && are_rankings_of(
                players@.len() as int,
                seasons@,
            ),
            Err(error) => config_error(players@.len() as int, 0) == Some(error),
        },
{
    let mut seasons: Vec<Vec<Standing>> = Vec::new();
    let mut noise: i32 = 0;
    while seasons.len() < SWEEP_POINTS
        invariant
            seasons@.len() <= SWEEP_POINTS,
            noise == SWEEP_STEP * seasons@.len(),
            forall|k: int|
                0 <= k < seasons@.len() ==> is_season_ranking(
                    players@,
                    SWEEP_STEP * k,
                    (#[trigger] seasons@[k])@,
                ) && is_full_ranking(players@.len() as int, seasons@[k]@),
        decreases SWEEP_POINTS - seasons@.len(),
    {
        match play_season(players, noise, random) {
            Err(error) => {
                return Err(error);
            },
            Ok(ranking) => {
                seasons.push(ranking);
            },
        }
        noise = noise + SWEEP_STEP;
    }
    proof {
        let rankings = rankings_of(seasons@);
        assert forall|k: int| 0 <= k < rankings.len() implies is_season_ranking(
            players@,
            SWEEP_STEP * k,
            #[trigger] rankings[k],
        ) by {
            assert(rankings[k] == seasons@[k]@);
        }
    }
    Ok(seasons)
}

/// The fitness of the players of kind `kind` in one ranking, in the order
/// of the ranking.
pub open spec fn fitness_in_season(
    kinds: Seq<StrategyType>,
    ranking: Seq<Standing>,
    kind: StrategyType,
) -> Seq<Fitness>
    decreases ranking.len(),
{
    if ranking.len() == 0 {
        Seq::empty()
    } else {
        fitness_in_season(kinds, ranking.drop_last(), kind) + (if kinds[ranking.last().player
            as int] == kind {
            seq![ranking.last().fitness]
        } else {
            Seq::empty()
        })
    }
}

/// The fitness of the players of kind `kind` over several seasons: season
/// after season, and in each the order of its ranking.
pub open spec fn fitness_over_seasons(
    kinds: Seq<StrategyType>,
    seasons: Seq<Seq<Standing>>,
    kind: StrategyType,
) -> Seq<Fitness>
    decreases seasons.len(),
{
    if seasons.len() == 0 {
        Seq::empty()
    } else {
        fitness_over_seasons(kinds, seasons.drop_last(), kind) + fitness_in_season(
            kinds,
            seasons.last(),
            kind,
        )
    }
}

/// Whether every place of every ranking is held by one of `n` players.
pub open spec fn are_rankings_of(n: int, seasons: Seq<Vec<Standing>>) -> bool {
    forall|s: int, k: int|
        0 <= s < seasons.len() && 0 <= k < seasons[s]@.len() ==> (#[trigger] seasons[s]@[k]).player
            < n
}

/// Gathers, from the rankings of several seasons, the fitness of the players
/// of one kind.
pub fn fitness_by_kind<S: Strategy>(
    players: &Vec<Player<S>>,
    seasons: &Vec<Vec<Standing>>,
    kind: StrategyType,
) -> (curve: Vec<Fitness>)
    requires
        are_rankings_of(players@.len() as int, seasons@),
    ensures
        curve@ == fitness_over_seasons(kinds_of(players@), rankings_of(seasons@), kind),
{
    let ghost kinds = kinds_of(players@);
    let ghost rankings = rankings_of(seasons@);
    let mut curve: Vec<Fitness> = Vec::new();
    let mut s: usize = 0;
    while s < seasons.len()
        invariant
            s <= seasons@.len(),
            kinds == kinds_of(players@),
            rankings == rankings_of(seasons@),
            are_rankings_of(players@.len() as int, seasons@),
            curve@ == fitness_over_seasons(kinds, rankings.take(s as int), kind),
        decreases seasons@.len() - s,
    {
        let ranking = &seasons[s];
        let ghost before = curve@;
        let mut k: usize = 0;
        while k < ranking.len()
            invariant
                k <= ranking@.len(),
                s < seasons@.len(),
                ranking@ == seasons@[s as int]@,
                kinds == kinds_of(players@),
                are_rankings_of(players@.len() as int, seasons@),
                curve@ == before + fitness_in_season(kinds, ranking@.take(k as int), kind),
            decreases ranking@.len() - k,
        {
            let standing = ranking[k];
            assert(standing == seasons@[s as int]@[k as int]);
            proof {
                let next = ranking@.take(k + 1);
                assert(next.drop_last() == ranking@.take(k as int));
                assert(next.last() == standing);
            }
            if players[standing.player].strategy_type == kind {
                curve.push(standing.fitness);
            }
            k = k + 1;
        }
        proof {
            assert(ranking@.take(ranking@.len() as int) == ranking@);
            let next = rankings.take(s + 1);
            assert(next.drop_last() == rankings.take(s as int));
            assert(next.last() == ranking@);
        }
        s = s + 1;
    }
    proof {
        assert(rankings.take(rankings.len() as int) == rankings);
    }
    curve
}

/// Every kind, in the order in which the kinds are declared.
pub open spec fn every_kind() -> Seq<StrategyType> {
    seq![
        StrategyType::AlwaysCooperate,
        StrategyType::Random,
        StrategyType::AlwaysSteal,
        StrategyType::TitForTat,
        StrategyType::OneBittenTwiceShy,
        StrategyType::TakesTimeToForgive,
        StrategyType::MostlyGood,
        StrategyType::MaybeRelaliate,
        StrategyType::MainlyRelaliate,
        StrategyType::RarelyRelaliate,
    ]
}

/// Every kind, in the order in which the kinds are declared.
pub fn all_kinds() -> (kinds: Vec<StrategyType>)
    ensures
        kinds@ == every_kind(),
{
    let mut kinds: Vec<StrategyType> = Vec::new();
    kinds.push(StrategyType::AlwaysCooperate);
    kinds.push(StrategyType::Random);
    kinds.push(StrategyType::AlwaysSteal);
    kinds.push(StrategyType::TitForTat);
    kinds.push(StrategyType::OneBittenTwiceShy);
    kinds.push(StrategyType::TakesTimeToForgive);
    kinds.push(StrategyType::MostlyGood);
    kinds.push(StrategyType::MaybeRelaliate);
    kinds.push(StrategyType::MainlyRelaliate);
    kinds.push(StrategyType::RarelyRelaliate);
    assert(kinds@ =~= every_kind());
    kinds
}

/// One row of the table of a sweep: a kind and the fitness of its players,
/// noise level after noise level.
#[derive(Clone, Debug, PartialEq, Eq)]
pub struct KindCurve {
    pub kind: StrategyType,
    pub fitness: Vec<Fitness>,
}

/// The table of a sweep: one row for every kind, in the order in which the
/// kinds are declared. The row of a kind without players is empty.
pub fn sweep_table<S: Strategy>(players: &Vec<Player<S>>, seasons: &Vec<Vec<Standing>>) -> (table:
    Vec<KindCurve>)
    requires
        are_rankings_of(players@.len() as int, seasons@),
    ensures
        is_table_of(kinds_of(players@), rankings_of(seasons@), table@),
{
    let kinds = all_kinds();
    let mut table: Vec<KindCurve> = Vec::new();
    let mut i: usize = 0;
    while i < kinds.len()
        invariant
            i <= kinds@.len(),
            kinds@ == every_kind(),
            table@.len() == i,
            are_rankings_of(players@.len() as int, seasons@),
            forall|j: int|
                0 <= j < table@.len() ==> (#[trigger] table@[j]).kind == every_kind()[j]
                    && table@[j].fitness@ == fitness_over_seasons(
                    kinds_of(players@),
                    rankings_of(seasons@),
                    every_kind()[j],
                ),
        decreases kinds@.len() - i,
    {
        let kind = kinds[i];
        let fitness = fitness_by_kind(players, seasons, kind);
        table.push(KindCurve { kind, fitness });
        i = i + 1;
    }
    table
}

/// Whether `table` is the table of the sweep with the rankings `seasons`:
/// one row for every kind, in the order in which the kinds are declared,
/// with the fitness of the players of that kind.
pub open spec fn is_table_of(
    kinds: Seq<StrategyType>,
    seasons: Seq<Seq<Standing>>,
    table: Seq<KindCurve>,
) -> bool {
    &&& table.len() == every_kind().len()
    &&& forall|i: int|
        0 <= i < table.len() ==> (#[trigger] table[i]).kind == every_kind()[i] && table[i].fitness@
            == fitness_over_seasons(kinds, seasons, every_kind()[i])
}

/// Plays a sweep and gives its table: for every kind, how its players fared
/// at each noise level, with the population held fixed.
pub fn play_with_noise<S: Strategy, R: RandomSource>(
    players: &Vec<Player<S>>,
    random: &mut R,
) -> (sweep: Result<Vec<KindCurve>, ConfigError>)
    ensures
        match sweep {
            Ok(table) => exists|seasons: Seq<Seq<Standing>>| #[trigger]
                is_sweep_of(players@, seasons) && is_table_of(kinds_of(players@), seasons, table@),
            Err(error) => config_error(players@.len() as int, 0) == Some(error),
        },
{
    match play_sweep(players, random) {
        Err(error) => Err(error),
        Ok(seasons) => {
            let table = sweep_table(players, &seasons);
            assert(is_sweep_of(players@, rankings_of(seasons@)));
            Ok(table)
        },
    }
}

} // verus!
