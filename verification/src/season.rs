//! A season: every pairing of the population plays a match, and the players
//! are ranked by what they earned per round.

use vstd::prelude::*;
use vstd::seq_lib::{to_multiset_contains, to_multiset_len};
use crate::common::{is_match_score, play_match, Player, Strategy, MATCH_ROUNDS};
use crate::fitness::{is_ascending, is_ranking_of, rank, Fitness, Standing};
use crate::outside::pairings_of;
use crate::random::RandomSource;
use crate::pairing::{
    all_pairings, appearances, lemma_appearances_grow, lemma_everyone_plays,
    lemma_pairings_are_all_pairs, lemma_pairings_count,
};

verus! {

/// Why a season cannot be played.
#[derive(Clone, Copy, Debug, PartialEq, Eq, Structural)]
pub enum ConfigError {
    /// The noise level is no percentage.
    NoiseOutOfRange,
    /// There is nobody to play.
    EmptyPopulation,
    /// The pairings of the population cannot be counted on this machine.
    PopulationTooLarge,
}

/// What is wrong with a population of `population` players at noise level
/// `noise`, if anything. The noise level is looked at first.
pub open spec fn config_error(population: int, noise: int) -> Option<ConfigError> {
    if noise < 0 || noise > 100 {
        Some(ConfigError::NoiseOutOfRange)
    } else if population == 0 {
        Some(ConfigError::EmptyPopulation)
    } else if population * (population + 1) / 2 > usize::MAX {
        Some(ConfigError::PopulationTooLarge)
    } else {
        None
    }
}

/// Checks the settings of a season before anything is played.
pub fn check_config(population: usize, noise: i32) -> (checked: Result<(), ConfigError>)
    ensures
        checked == match config_error(population as int, noise as int) {
            Some(error) => Err::<(), ConfigError>(error),
            None => Ok(()),
        },
{
    if noise < 0 || noise > 100 {
        return Err(ConfigError::NoiseOutOfRange);
    }
    if population == 0 {
        return Err(ConfigError::EmptyPopulation);
    }
    assert(population * (population + 1) <= 0xffff_ffff_ffff_ffff * 0x1_0000_0000_0000_0000)
        by (nonlinear_arith)
        requires
            0 <= population <= 0xffff_ffff_ffff_ffff,
    ;
    let pairings: u128 = (population as u128) * (population as u128 + 1) / 2;
    if pairings > usize::MAX as u128 {
        return Err(ConfigError::PopulationTooLarge);
    }
    Ok(())
}

/// The outcome of one match of a season: the positions of the two players
/// in the population and what each of them scored.
#[derive(Clone, Copy, Debug, PartialEq, Eq, Structural)]
pub struct MatchResult {
    pub first: usize,
    pub second: usize,
    pub first_score: i32,
    pub second_score: i32,
}

/// Who met whom, match by match.
pub open spec fn pairs_of(results: Seq<MatchResult>) -> Seq<(usize, usize)> {
    Seq::new(results.len(), |k: int| (results[k].first, results[k].second))
}

/// Whether `results` are the matches of a season among `n` players: one
/// match for each pairing, in order, with scores that a match can give.
pub open spec fn is_season_record(n: int, results: Seq<MatchResult>) -> bool {
    &&& pairs_of(results) == all_pairings(n)
    &&& forall|k: int|
        0 <= k < results.len() ==> 0 <= (#[trigger] results[k]).first_score <= 5 * MATCH_ROUNDS
            && 0 <= results[k].second_score <= 5 * MATCH_ROUNDS
}

/// The points that player `p` has from `results`, from either side of a
/// match.
pub open spec fn points_in(results: Seq<MatchResult>, p: int) -> int
    decreases results.len(),
{
    if results.len() == 0 {
        0
    } else {
        points_in(results.drop_last(), p) + (if results.last().first == p {
            results.last().first_score as int
        } else {
            0int
        }) + (if results.last().second == p {
            results.last().second_score as int
        } else {
            0int
        })
    }
}

/// The fitness of player `p` after `results`: its points over the rounds
/// of the matches it played.
pub open spec fn fitness_in(results: Seq<MatchResult>, p: int) -> Fitness {
    Fitness {
        points: points_in(results, p) as u64,
        rounds: (MATCH_ROUNDS * appearances(pairs_of(results), p)) as u64,
    }
}

/// The table of a season among `n` players: each player with its fitness,
/// in the order of the population.
pub open spec fn table_of(n: int, results: Seq<MatchResult>) -> Seq<Standing> {
    Seq::new(n as nat, |p: int| Standing { player: p as usize, fitness: fitness_in(results, p) })
}

/// A player has no more points than its matches can give.
pub proof fn lemma_points_bound(results: Seq<MatchResult>, p: int)
    requires
        forall|k: int|
            0 <= k < results.len() ==> 0 <= (#[trigger] results[k]).first_score <= 5 * MATCH_ROUNDS
                && 0 <= results[k].second_score <= 5 * MATCH_ROUNDS,
    ensures
        0 <= points_in(results, p) <= 5 * MATCH_ROUNDS * appearances(pairs_of(results), p),
    decreases results.len(),
{
    if results.len() > 0 {
        lemma_points_bound(results.drop_last(), p);
        assert(pairs_of(results).drop_last() == pairs_of(results.drop_last()));
    }
}

/// A population whose pairings can be counted on this machine has fewer
/// than 2^33 players.
proof fn lemma_population_bound(n: int)
    requires
        0 <= n,
        n * (n + 1) <= 2 * usize::MAX + 1,
    ensures
        n < 0x2_0000_0000,
{
    if n >= 0x2_0000_0000 {
        assert(n * (n + 1) >= 0x2_0000_0000 * 0x2_0000_0000) by (nonlinear_arith)
            requires
                n >= 0x2_0000_0000,
        ;
    }
}

/// In the table of a season among `n` players every player has played
/// `n + 1` matches, and its fitness lies between 0 and 5.
pub proof fn lemma_table_of_season(n: int, results: Seq<MatchResult>, p: int)
    requires
        is_season_record(n, results),
        results.len() <= usize::MAX,
        0 <= p < n,
    ensures
        table_of(n, results)[p].player == p,
        table_of(n, results)[p].fitness.rounds == MATCH_ROUNDS * (n + 1),
        table_of(n, results)[p].fitness.points == points_in(results, p),
        table_of(n, results)[p].fitness.is_average(),
{
    lemma_pairings_count(n);
    assert(results.len() == pairs_of(results).len());
    lemma_population_bound(n);
    lemma_everyone_plays(n, p);
    lemma_points_bound(results, p);
}

/// Sums up a season: from the results of its matches to the table, each
/// player with its fitness, in the order of the population.
pub fn standings(population: usize, results: &Vec<MatchResult>) -> (table: Vec<Standing>)
    requires
        is_season_record(population as int, results@),
    ensures
        table@ == table_of(population as int, results@),
{
    let ghost n = population as int;
    let ghost pairs = all_pairings(n);
    let count = results.len();
    proof {
        lemma_pairings_count(n);
        assert(count == pairs_of(results@).len());
        lemma_population_bound(n);
    }
    let mut points: Vec<u64> = Vec::new();
    let mut played: Vec<u64> = Vec::new();
    while points.len() < population
        invariant
            points@.len() == played@.len(),
            points@.len() <= population,
            forall|p: int| 0 <= p < points@.len() ==> points@[p] == 0 && played@[p] == 0,
        decreases population - points@.len(),
    {
        points.push(0);
        played.push(0);
    }
    let mut k: usize = 0;
    while k < results.len()
        invariant
            k <= results@.len(),
            n == population,
            n < 0x2_0000_0000,
            is_season_record(n, results@),
            points@.len() == n,
            played@.len() == n,
            forall|p: int| 0 <= p < n ==> points@[p] == points_in(results@.take(k as int), p),
            forall|p: int|
                0 <= p < n ==> played@[p] == appearances(pairs_of(results@.take(k as int)), p),
        decreases results@.len() - k,
    {
        let result = results[k];
        let ghost so_far = results@.take(k as int);
        let ghost next = results@.take(k + 1);
        proof {
            lemma_pairings_are_all_pairs(0, n);
            assert(pairs_of(results@)[k as int] == (result.first, result.second));
            assert(crate::pairing::pairings_from(0, n)[k as int] == (result.first, result.second));
            assert(result.first < n && result.second < n);
            assert(next.drop_last() == so_far);
            assert(next.last() == result);
            assert(pairs_of(next).drop_last() == pairs_of(so_far));
            assert(pairs_of(next).last() == (result.first, result.second));
            assert(pairs_of(next) == pairs_of(results@).take(k + 1));
            assert forall|p: int| 0 <= p < n implies 0 <= #[trigger] points_in(next, p) <= 5
                * MATCH_ROUNDS * (n + 1) && 0 <= appearances(pairs_of(next), p) <= n + 1 by {
                lemma_points_bound(next, p);
                lemma_appearances_grow(pairs_of(results@), k + 1, p);
                lemma_everyone_plays(n, p);
                assert(5 * MATCH_ROUNDS * appearances(pairs_of(next), p) <= 5 * MATCH_ROUNDS * (n
                    + 1)) by (nonlinear_arith)
                    requires
                        appearances(pairs_of(next), p) <= n + 1,
                ;
            }
        }
        let first = result.first;
        let second = result.second;
        assert(points@[first as int] + result.first_score <= points_in(next, first as int));
        assert(played@[first as int] + 1 <= appearances(pairs_of(next), first as int));
        points.set(first, points[first] + result.first_score as u64);
        played.set(first, played[first] + 1);
        assert(points@[second as int] + result.second_score == points_in(next, second as int));
        assert(played@[second as int] + 1 == appearances(pairs_of(next), second as int));
        points.set(second, points[second] + result.second_score as u64);
        played.set(second, played[second] + 1);
        k = k + 1;
    }
    proof {
        assert(results@.take(results@.len() as int) == results@);
    }
    let mut table: Vec<Standing> = Vec::new();
    while table.len() < population
        invariant
            n == population,
            n < 0x2_0000_0000,
            is_season_record(n, results@),
            points@.len() == n,
            played@.len() == n,
            table@.len() <= n,
            forall|p: int| 0 <= p < n ==> points@[p] == points_in(results@, p),
            forall|p: int| 0 <= p < n ==> played@[p] == appearances(pairs_of(results@), p),
            forall|p: int|
                0 <= p < table@.len() ==> table@[p] == (Standing {
                    player: p as usize,
                    fitness: fitness_in(results@, p),
                }),
        decreases population - table@.len(),
    {
        let p = table.len();
        proof {
            lemma_everyone_plays(n, p as int);
        }
        let fitness = Fitness { points: points[p], rounds: MATCH_ROUNDS as u64 * played[p] };
        table.push(Standing { player: p, fitness });
    }
    assert(table@ =~= table_of(n, results@));
    table
}

/// Whether `result` is a match between two of `players` with scores that a
/// match of their policies can give at noise level `noise`.
pub open spec fn is_scored_match<S: Strategy>(
    players: Seq<Player<S>>,
    noise: int,
    result: MatchResult,
) -> bool {
    &&& 0 <= result.first_score <= 5 * MATCH_ROUNDS
    &&& 0 <= result.second_score <= 5 * MATCH_ROUNDS
    &&& is_match_score(
        players[result.first as int].strategy,
        players[result.second as int].strategy,
        noise,
        (result.first_score as int, result.second_score as int),
    )
}

/// Whether `results` can be the matches of a season of `players` at noise
/// level `noise`: one match for each pairing, in order, each with scores
/// that a match of the two policies can give.
pub open spec fn is_season_of<S: Strategy>(
    players: Seq<Player<S>>,
    noise: int,
    results: Seq<MatchResult>,
) -> bool {
    &&& pairs_of(results) == all_pairings(players.len() as int)
    &&& forall|k: int|
        0 <= k < results.len() ==> is_scored_match(players, noise, #[trigger] results[k])
}

/// Whether `ranking` can come of a season of `players` at noise level
/// `noise`: the settings make a season, and `ranking` ranks the table of
/// one.
pub open spec fn is_season_ranking<S: Strategy>(
    players: Seq<Player<S>>,
    noise: int,
    ranking: Seq<Standing>,
) -> bool {
    &&& config_error(players.len() as int, noise).is_none()
    &&& exists|results: Seq<MatchResult>| #[trigger]
        is_season_of(players, noise, results) && is_ranking_of(
            table_of(players.len() as int, results),
            ranking,
        )
}

/// Whether player `p` has a place in `ranking`.
pub open spec fn lists(ranking: Seq<Standing>, p: int) -> bool {
    exists|k: int| 0 <= k < ranking.len() && (#[trigger] ranking[k]).player == p
}

/// Whether `ranking` lists the `n` players of a population, each once, with
/// a fitness between 0 and 5 earned over `n + 1` matches, in ascending order
/// of fitness.
pub open spec fn is_full_ranking(n: int, ranking: Seq<Standing>) -> bool {
    &&& ranking.len() == n
    &&& is_ascending(ranking)
    &&& forall|k: int|
        0 <= k < ranking.len() ==> {
            let standing = #[trigger] ranking[k];
            &&& standing.player < n
            &&& standing.fitness.rounds == MATCH_ROUNDS * (n + 1)
            &&& standing.fitness.is_average()
        }
    &&& forall|i: int, j: int|
        0 <= i < j < ranking.len() ==> (#[trigger] ranking[i]).player != (
        #[trigger] ranking[j]).player
    &&& forall|p: int| 0 <= p < n ==> #[trigger] lists(ranking, p)
}

/// The ranking of a table of a season lists everyone once, with a fitness
/// between 0 and 5.
pub proof fn lemma_ranking_of_table(n: int, results: Seq<MatchResult>, ranking: Seq<Standing>)
    requires
        is_season_record(n, results),
        results.len() <= usize::MAX,
        0 <= n,
        is_ranking_of(table_of(n, results), ranking),
    ensures
        is_full_ranking(n, ranking),
{
    let table = table_of(n, results);
    to_multiset_len(ranking);
    to_multiset_len(table);
    assert forall|p: int| 0 <= p < n implies {
        let standing = #[trigger] table[p];
        &&& standing.player == p
        &&& standing.fitness.rounds == MATCH_ROUNDS * (n + 1)
        &&& standing.fitness.is_average()
    } by {
        lemma_table_of_season(n, results, p);
    }
    assert(table.no_duplicates());
    table.lemma_multiset_has_no_duplicates();
    ranking.lemma_multiset_has_no_duplicates_conv();
    assert forall|k: int| 0 <= k < ranking.len() implies {
        let standing = #[trigger] ranking[k];
        &&& standing.player < n
        &&& standing == table[standing.player as int]
    } by {
        to_multiset_contains(ranking, ranking[k]);
        to_multiset_contains(table, ranking[k]);
        assert(ranking.contains(ranking[k]));
    }
    assert forall|p: int| 0 <= p < n implies #[trigger] lists(ranking, p) by {
        to_multiset_contains(ranking, table[p]);
        to_multiset_contains(table, table[p]);
        assert(table.contains(table[p]));
        let k = choose|k: int| 0 <= k < ranking.len() && ranking[k] == table[p];
        assert(ranking[k].player == p);
    }
}

/// What comes of a season lists every player once, with a fitness between
/// 0 and 5 earned over one match more than there are players.
pub proof fn lemma_season_ranking<S: Strategy>(
    players: Seq<Player<S>>,
    noise: int,
    ranking: Seq<Standing>,
)
    requires
        is_season_ranking(players, noise, ranking),
    ensures
        is_full_ranking(players.len() as int, ranking),
{
    let n = players.len() as int;
    let results = choose|results: Seq<MatchResult>| #[trigger]
        is_season_of(players, noise, results) && is_ranking_of(table_of(n, results), ranking);
    lemma_pairings_count(n);
    assert(results.len() == pairs_of(results).len());
    lemma_ranking_of_table(n, results, ranking);
}

/// Plays the matches of a season, pairing by pairing.
pub fn play_matches<S: Strategy, R: RandomSource>(
    players: &Vec<Player<S>>,
    noise: i32,
    random: &mut R,
) -> (results: Vec<MatchResult>)
    requires
        players@.len() * (players@.len() + 1) / 2 <= usize::MAX,
    ensures
        is_season_of(players@, noise as int, results@),
{
    let ghost n = players@.len() as int;
    let pairs = pairings_of(players.len());
    let mut results: Vec<MatchResult> = Vec::new();
    let mut k: usize = 0;
    while k < pairs.len()
        invariant
            k <= pairs@.len(),
            n == players@.len(),
            pairs@ == all_pairings(n),
            results@.len() == k,
            pairs_of(results@) == pairs@.take(k as int),
            forall|i: int|
                0 <= i < results@.len() ==> is_scored_match(
                    players@,
                    noise as int,
                    #[trigger] results@[i],
                ),
        decreases pairs@.len() - k,
    {
        proof {
            lemma_pairings_are_all_pairs(0, n);
            assert(crate::pairing::pairings_from(0, n)[k as int] == pairs@[k as int]);
        }
        let first = pairs[k].0;
        let second = pairs[k].1;
        let scores = play_match((&players[first], &players[second]), noise, random);
        let ghost before = results@;
        results.push(MatchResult { first, second, first_score: scores.0, second_score: scores.1 });
        proof {
            assert(pairs_of(results@) == pairs@.take(k + 1));
            assert forall|i: int| 0 <= i < results@.len() implies is_scored_match(
                players@,
                noise as int,
                #[trigger] results@[i],
            ) by {
                if i < before.len() {
                    assert(results@[i] == before[i]);
                }
            }
        }
        k = k + 1;
    }
    proof {
        assert(pairs@.take(pairs@.len() as int) == pairs@);
    }
    results
}

/// Plays a season: every pairing of the population plays one match, a
/// player against itself included, and the players are ranked by ascending
/// fitness. Settings that make no season are refused before anything is
/// played.
pub fn play_season<S: Strategy, R: RandomSource>(
    players: &Vec<Player<S>>,
    noise: i32,
    random: &mut R,
) -> (season: Result<Vec<Standing>, ConfigError>)
    ensures
        match season {
            Ok(ranking) => is_season_ranking(players@, noise as int, ranking@) && is_full_ranking(
                players@.len() as int,
                ranking@,
            ),
            Err(error) => config_error(players@.len() as int, noise as int) == Some(error),
        },
{
    match check_config(players.len(), noise) {
        Err(error) => Err(error),
        Ok(()) => {
            let results = play_matches(players, noise, random);
            let table = standings(players.len(), &results);
            proof {
                assert(results@.len() == results.len());
                assert forall|p: int| 0 <= p < table@.len() implies (
                #[trigger] table@[p]).fitness.rounds > 0 by {
                    lemma_table_of_season(players@.len() as int, results@, p);
                }
            }
            let ranking = rank(&table);
            proof {
                assert(is_season_of(players@, noise as int, results@));
                lemma_season_ranking(players@, noise as int, ranking@);
            }
            Ok(ranking)
        },
    }
}

} // verus!
