//! From season to season: the kinds that did well gain players, and nobody
//! ever leaves.

use vstd::prelude::*;
use crate::common::{is_name_of_kind, kinds_of, Player, Strategy, StrategyType};
use crate::fitness::{rankings_of, Fitness, Standing};
use crate::players::KindStrategy;
use crate::random::RandomSource;
use crate::season::{config_error, is_full_ranking, is_season_ranking, play_season, ConfigError};

verus! {

/// A fitness above this many tenths of a point earns a kind one new player.
pub const FIRST_THRESHOLD_TENTHS: u8 = 27;

/// A fitness above this many tenths of a point earns a kind a second one.
pub const SECOND_THRESHOLD_TENTHS: u8 = 30;

/// How many new players a fitness earns: one above 2.7, one more above 3.0.
pub open spec fn offspring(fitness: Fitness) -> int {
    (if fitness.exceeds_tenths(FIRST_THRESHOLD_TENTHS as int) {
        1int
    } else {
        0int
    }) + (if fitness.exceeds_tenths(SECOND_THRESHOLD_TENTHS as int) {
        1int
    } else {
        0int
    })
}

/// The kinds that gain a player after a season, one entry for each new
/// player: for every place of the ranking in turn, the kind of its player as
/// often as its fitness earns.
pub open spec fn kinds_to_add(kinds: Seq<StrategyType>, ranking: Seq<Standing>) -> Seq<StrategyType>
    decreases ranking.len(),
{
    if ranking.len() == 0 {
        Seq::empty()
    } else {
        kinds_to_add(kinds, ranking.drop_last()) + Seq::new(
            offspring(ranking.last().fitness) as nat,
            |i: int| kinds[ranking.last().player as int],
        )
    }
}

/// No place of a ranking earns more than two new players.
pub proof fn lemma_kinds_to_add_len(kinds: Seq<StrategyType>, ranking: Seq<Standing>)
    ensures
        kinds_to_add(kinds, ranking).len() <= 2 * ranking.len(),
    decreases ranking.len(),
{
    if ranking.len() > 0 {
        lemma_kinds_to_add_len(kinds, ranking.drop_last());
    }
}

/// How many new players a fitness earns.
pub fn offspring_of(fitness: &Fitness) -> (count: usize)
    ensures
        count == offspring(*fitness),
{
    let mut count: usize = 0;
    if fitness.exceeds(FIRST_THRESHOLD_TENTHS) {
        count = count + 1;
    }
    if fitness.exceeds(SECOND_THRESHOLD_TENTHS) {
        count = count + 1;
    }
    count
}

/// The kinds that gain a player after a season with this ranking.
pub fn new_players_to_add<S: Strategy>(players: &Vec<Player<S>>, ranking: &Vec<Standing>) -> (kinds:
    Vec<StrategyType>)
    requires
        forall|k: int| 0 <= k < ranking@.len() ==> (#[trigger] ranking@[k]).player < players@.len(),
    ensures
        kinds@ == kinds_to_add(kinds_of(players@), ranking@),
{
    let mut kinds: Vec<StrategyType> = Vec::new();
    let mut k: usize = 0;
    while k < ranking.len()
        invariant
            k <= ranking@.len(),
            forall|k: int|
                0 <= k < ranking@.len() ==> (#[trigger] ranking@[k]).player < players@.len(),
            kinds@ == kinds_to_add(kinds_of(players@), ranking@.take(k as int)),
        decreases ranking@.len() - k,
    {
        let standing = ranking[k];
        let kind = players[standing.player].strategy_type;
        let ghost before = kinds@;
        if standing.fitness.exceeds(FIRST_THRESHOLD_TENTHS) {
            kinds.push(kind);
        }
        if standing.fitness.exceeds(SECOND_THRESHOLD_TENTHS) {
            kinds.push(kind);
        }
        proof {
            let next = ranking@.take(k + 1);
            assert(next.drop_last() == ranking@.take(k as int));
            assert(next.last() == standing);
            assert(kinds@ == before + Seq::new(
                offspring(standing.fitness) as nat,
                |i: int| kinds_of(players@)[standing.player as int],
            ));
        }
        k = k + 1;
    }
    proof {
        assert(ranking@.take(ranking@.len() as int) == ranking@);
    }
    kinds
}

/// Whether `player` can be a player made for kind `kind`: it is of that
/// kind, plays the policy of that name, and is named after it.
pub open spec fn is_player_of_kind(player: Player<KindStrategy>, kind: StrategyType) -> bool {
    &&& player.strategy_type == kind
    &&& player.strategy.kind == kind
    &&& is_name_of_kind(player.name@, kind)
}

/// Whether `after` is the population `before` with one new player for each
/// entry of `kinds` behind it. Nobody has left and nobody has changed.
pub open spec fn is_grown_by(
    before: Seq<Player<KindStrategy>>,
    kinds: Seq<StrategyType>,
    after: Seq<Player<KindStrategy>>,
) -> bool {
    &&& after.len() == before.len() + kinds.len()
    &&& after.take(before.len() as int) == before
    &&& forall|i: int|
        0 <= i < kinds.len() ==> is_player_of_kind(#[trigger] after[before.len() + i], kinds[i])
}

/// Adds one new player for each entry of `kinds`.
pub fn add_players(players: &mut Vec<Player<KindStrategy>>, kinds: &Vec<StrategyType>)
    ensures
        is_grown_by(old(players)@, kinds@, final(players)@),
{
    let ghost before = players@;
    let mut i: usize = 0;
    assert(before.take(before.len() as int) == before);
    while i < kinds.len()
        invariant
            i <= kinds@.len(),
            is_grown_by(before, kinds@.take(i as int), players@),
        decreases kinds@.len() - i,
    {
        let ghost grown = players@;
        players.push(Player::new_from_strategy_name(kinds[i]));
        proof {
            assert(players@.take(before.len() as int) == grown.take(before.len() as int));
            assert forall|j: int| 0 <= j < i + 1 implies is_player_of_kind(
                #[trigger] players@[before.len() + j],
                kinds@.take(i + 1)[j],
            ) by {
                if j < i {
                    assert(players@[before.len() + j] == grown[before.len() + j]);
                    assert(kinds@.take(i as int)[j] == kinds@[j]);
                }
            }
        }
        i = i + 1;
    }
    proof {
        assert(kinds@.take(kinds@.len() as int) == kinds@);
    }
}

/// Whether a season of the population `before` at noise level `noise` can
/// end with `ranking` and leave the population `after`.
pub open spec fn is_season_step(
    before: Seq<Player<KindStrategy>>,
    noise: int,
    ranking: Seq<Standing>,
    after: Seq<Player<KindStrategy>>,
) -> bool {
    &&& is_season_ranking(before, noise, ranking)
    &&& is_grown_by(before, kinds_to_add(kinds_of(before), ranking), after)
}

/// A season never shrinks the population, and at most triples it.
pub proof fn lemma_season_step_grows(
    before: Seq<Player<KindStrategy>>,
    noise: int,
    ranking: Seq<Standing>,
    after: Seq<Player<KindStrategy>>,
)
    requires
        is_season_step(before, noise, ranking, after),
    ensures
        before.len() <= after.len() <= 3 * before.len(),
        after.take(before.len() as int) == before,
{
    crate::season::lemma_season_ranking(before, noise, ranking);
    lemma_kinds_to_add_len(kinds_of(before), ranking);
}

/// Plays one season and lets the population grow by it. Where the settings
/// make no season, nothing is played and nobody is added.
pub fn play_season_and_grow<R: RandomSource>(
    players: &mut Vec<Player<KindStrategy>>,
    noise: i32,
    random: &mut R,
) -> (season: Result<Vec<Standing>, ConfigError>)
    ensures
        match season {
            Ok(ranking) => is_season_step(old(players)@, noise as int, ranking@, final(players)@)
                && is_full_ranking(old(players)@.len() as int, ranking@),
            Err(error) => config_error(old(players)@.len() as int, noise as int) == Some(error)
                && final(players)@ == old(players)@,
        },
        old(players)@.len() <= final(players)@.len() <= 3 * old(players)@.len(),
{
    match play_season(players, noise, random) {
        Err(error) => Err(error),
        Ok(ranking) => {
            let ghost before = players@;
            let kinds = new_players_to_add(players, &ranking);
            add_players(players, &kinds);
            proof {
                lemma_season_step_grows(before, noise as int, ranking@, players@);
            }
            Ok(ranking)
        },
    }
}

/// What a run of seasons leaves: the population at its end, and the ranking
/// of every season, first season first.
#[derive(Debug)]
pub struct Evolution {
    pub players: Vec<Player<KindStrategy>>,
    pub seasons: Vec<Vec<Standing>>,
}

/// Whether `populations` are the populations before, between and after the
/// seasons with the rankings `seasons`, played one after the other at noise
/// level `noise`.
pub open spec fn is_chain_of_seasons(
    populations: Seq<Seq<Player<KindStrategy>>>,
    noise: int,
    seasons: Seq<Seq<Standing>>,
) -> bool {
    &&& populations.len() == seasons.len() + 1
    &&& forall|i: int|
        0 <= i < seasons.len() ==> is_season_step(
            populations[i],
            noise,
            #[trigger] seasons[i],
            populations[i + 1],
        )
}

/// Whether the seasons with the rankings `seasons`, played one after the
/// other at noise level `noise`, can lead from the population `start` to the
/// population `end`.
pub open spec fn is_evolution(
    start: Seq<Player<KindStrategy>>,
    noise: int,
    seasons: Seq<Seq<Standing>>,
    end: Seq<Player<KindStrategy>>,
) -> bool {
    exists|populations: Seq<Seq<Player<KindStrategy>>>|
        #[trigger] is_chain_of_seasons(populations, noise, seasons) && populations.first() == start
            && populations.last() == end
}

/// Three to the power of `n`.
pub open spec fn three_to(n: nat) -> nat
    decreases n,
{
    if n == 0 {
        1
    } else {
        3 * three_to((n - 1) as nat)
    }
}

/// Along a chain of seasons no population is smaller than the one before
/// it, or more than thrice as large, and nobody in it changes or leaves.
pub proof fn lemma_chain_grows(
    populations: Seq<Seq<Player<KindStrategy>>>,
    noise: int,
    seasons: Seq<Seq<Standing>>,
    k: int,
)
    requires
        is_chain_of_seasons(populations, noise, seasons),
        0 <= k <= seasons.len(),
    ensures
        populations[0].len() <= populations[k].len() <= populations[0].len() * three_to(k as nat),
        populations[k].take(populations[0].len() as int) == populations[0],
    decreases k,
{
    let start = populations[0];
    if k == 0 {
        assert(start.take(start.len() as int) == start);
        assert(start.len() * three_to(0) == start.len()) by (nonlinear_arith)
            requires
                three_to(0) == 1,
        ;
    } else {
        lemma_chain_grows(populations, noise, seasons, k - 1);
        let middle = populations[k - 1];
        let end = populations[k];
        assert(is_season_step(middle, noise, seasons[k - 1], end));
        lemma_season_step_grows(middle, noise, seasons[k - 1], end);
        assert(end.take(start.len() as int) == end.take(middle.len() as int).take(
            start.len() as int,
        ));
        let before = three_to((k - 1) as nat);
        assert(three_to(k as nat) == 3 * before);
        assert(3 * (start.len() * before) == start.len() * (3 * before)) by (nonlinear_arith);
    }
}

/// However the seasons go, the population never shrinks and nobody in it
/// changes or leaves; and each season at most triples it.
pub proof fn lemma_evolution_grows(
    start: Seq<Player<KindStrategy>>,
    noise: int,
    seasons: Seq<Seq<Standing>>,
    end: Seq<Player<KindStrategy>>,
)
    requires
        is_evolution(start, noise, seasons, end),
    ensures
        start.len() <= end.len() <= start.len() * three_to(seasons.len()),
        end.take(start.len() as int) == start,
{
    let populations = choose|populations: Seq<Seq<Player<KindStrategy>>>|
        #[trigger] is_chain_of_seasons(populations, noise, seasons) && populations.first() == start
            && populations.last() == end;
    lemma_chain_grows(populations, noise, seasons, seasons.len() as int);
}

/// A smaller population can be counted where a larger one can.
pub proof fn lemma_config_of_smaller(smaller: int, larger: int, noise: int)
    requires
        0 < smaller <= larger,
        config_error(larger, noise).is_none(),
    ensures
        config_error(smaller, noise).is_none(),
{
    assert(smaller * (smaller + 1) <= larger * (larger + 1)) by (nonlinear_arith)
        requires
            0 < smaller <= larger,
    ;
}

/// Plays `season_length` seasons, each followed by the growth it earns.
/// Settings that make no season are refused before anything is played. A
/// later season is refused only where the population has outgrown the
/// machine, which cannot happen where the population at the start, tripled
/// for every season but the last, can still be paired.
pub fn play_multi_season<R: RandomSource>(
    players: Vec<Player<KindStrategy>>,
    noise: i32,
    season_length: i32,
    random: &mut R,
) -> (run: Result<Evolution, ConfigError>)
    ensures
        match run {
            Ok(evolution) => {
                &&& config_error(players@.len() as int, noise as int).is_none()
                &&& evolution.seasons@.len() == (if season_length > 0 {
                    season_length as int
                } else {
                    0
                })
                &&& is_evolution(
                    players@,
                    noise as int,
                    rankings_of(evolution.seasons@),
                    evolution.players@,
                )
                &&& players@.len() <= evolution.players@.len()
                &&& evolution.players@.take(players@.len() as int) == players@
            },
            Err(error) => {
                ||| config_error(players@.len() as int, noise as int) == Some(error)
                ||| config_error(players@.len() as int, noise as int).is_none() && error
                    == ConfigError::PopulationTooLarge && season_length > 1
            },
        },
        season_length > 0 && config_error(
            (players@.len() * three_to((season_length - 1) as nat)) as int,
            noise as int,
        ).is_none() ==> run.is_ok(),
        season_length <= 0 && config_error(players@.len() as int, noise as int).is_none()
            ==> run.is_ok(),
{
    let ghost start = players@;
    match crate::season::check_config(players.len(), noise) {
        Err(error) => {
            proof {
                if season_length > 0 {
                    lemma_growth_bound(start.len(), 0, (season_length - 1) as nat);
                    let larger = start.len() * three_to((season_length - 1) as nat);
                    if start.len() > 0 && config_error(larger as int, noise as int).is_none() {
                        lemma_config_of_smaller(start.len() as int, larger as int, noise as int);
                    }
                    if start.len() == 0 {
                        assert(larger == 0) by (nonlinear_arith)
                            requires
                                larger == start.len() * three_to((season_length - 1) as nat),
                                start.len() == 0,
                        ;
                    }
                }
            }
            return Err(error);
        },
        Ok(()) => {},
    }
    let mut population = players;
    let mut seasons: Vec<Vec<Standing>> = Vec::new();
    let mut played: i32 = 0;
    let ghost mut populations: Seq<Seq<Player<KindStrategy>>> = seq![start];
    while played < season_length
        invariant
            0 <= played,
            played <= season_length || (season_length < 0 && played == 0),
            seasons@.len() == played,
            config_error(start.len() as int, noise as int).is_none(),
            is_chain_of_seasons(populations, noise as int, rankings_of(seasons@)),
            populations.first() == start,
            populations.last() == population@,
            start == players@,
        decreases season_length - played,
    {
        let ghost middle = population@;
        let ghost earlier = rankings_of(seasons@);
        proof {
            lemma_chain_grows(populations, noise as int, earlier, played as int);
            assert(populations[played as int] == middle);
            assert(played == 0 ==> middle == start);
        }
        match play_season_and_grow(&mut population, noise, random) {
            Err(error) => {
                proof {
                    lemma_growth_bound(start.len(), played as nat, (season_length - 1) as nat);
                    let larger = start.len() * three_to((season_length - 1) as nat);
                    if config_error(larger as int, noise as int).is_none() {
                        lemma_config_of_smaller(middle.len() as int, larger as int, noise as int);
                    }
                }
                return Err(error);
            },
            Ok(ranking) => {
                seasons.push(ranking);
                proof {
                    let ghost before = populations;
                    populations = populations.push(population@);
                    let later = rankings_of(seasons@);
                    assert forall|i: int| 0 <= i < later.len() implies is_season_step(
                        populations[i],
                        noise as int,
                        #[trigger] later[i],
                        populations[i + 1],
                    ) by {
                        if i < earlier.len() {
                            assert(later[i] == earlier[i]);
                            assert(populations[i] == before[i]);
                            assert(populations[i + 1] == before[i + 1]);
                        }
                    }
                }
            },
        }
        played = played + 1;
    }
    proof {
        assert(is_chain_of_seasons(populations, noise as int, rankings_of(seasons@)));
        lemma_evolution_grows(start, noise as int, rankings_of(seasons@), population@);
    }
    Ok(Evolution { players: population, seasons })
}

/// A population tripled for fewer seasons is no larger than one tripled
/// for more.
proof fn lemma_growth_bound(population: nat, fewer: nat, more: nat)
    requires
        fewer <= more,
    ensures
        population <= population * three_to(fewer) <= population * three_to(more),
{
    lemma_three_to_positive(fewer);
    lemma_three_to_grows(fewer, more);
    assert(population <= population * three_to(fewer) <= population * three_to(more))
        by (nonlinear_arith)
        requires
            1 <= three_to(fewer) <= three_to(more),
    ;
}

/// No power of three is zero.
proof fn lemma_three_to_positive(n: nat)
    ensures
        three_to(n) >= 1,
    decreases n,
{
    if n > 0 {
        lemma_three_to_positive((n - 1) as nat);
    }
}

/// The powers of three grow.
proof fn lemma_three_to_grows(smaller: nat, larger: nat)
    requires
        smaller <= larger,
    ensures
        three_to(smaller) <= three_to(larger),
    decreases larger,
{
    if smaller < larger {
        lemma_three_to_grows(smaller, (larger - 1) as nat);
    }
}

} // verus!
