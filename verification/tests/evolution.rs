use prisoners_dilemma::random::ThreadRandom;
use prisoners_dilemma::common::{Player, StrategyType};
use prisoners_dilemma::evolution::{
    add_players, new_players_to_add, offspring_of, play_multi_season, play_season_and_grow,
    FIRST_THRESHOLD_TENTHS, SECOND_THRESHOLD_TENTHS,
};
use prisoners_dilemma::fitness::{Fitness, Standing};
use prisoners_dilemma::players::KindStrategy;
use prisoners_dilemma::season::ConfigError;
use prisoners_dilemma::sweep::all_kinds;

fn population(kinds: &[StrategyType]) -> Vec<Player<KindStrategy>> {
    kinds.iter().map(|kind| Player::new_from_strategy_name(*kind)).collect()
}

fn kinds_in(players: &Vec<Player<KindStrategy>>) -> Vec<StrategyType> {
    players.iter().map(|p| p.strategy_type).collect()
}

fn standing(player: usize, points: u64, rounds: u64) -> Standing {
    Standing { player, fitness: Fitness { points, rounds } }
}

#[test]
fn thresholds_are_two_point_seven_and_three() {
    assert_eq!(FIRST_THRESHOLD_TENTHS, 27);
    assert_eq!(SECOND_THRESHOLD_TENTHS, 30);
}

#[test]
fn fitness_three_point_two_earns_two_players() {
    assert_eq!(offspring_of(&Fitness { points: 32, rounds: 10 }), 2);
    assert_eq!(offspring_of(&Fitness { points: 1920, rounds: 600 }), 2);
}

#[test]
fn fitness_two_point_eight_earns_one_player() {
    assert_eq!(offspring_of(&Fitness { points: 28, rounds: 10 }), 1);
    assert_eq!(offspring_of(&Fitness { points: 1680, rounds: 600 }), 1);
}

#[test]
fn fitness_two_earns_nobody() {
    assert_eq!(offspring_of(&Fitness { points: 20, rounds: 10 }), 0);
    assert_eq!(offspring_of(&Fitness { points: 0, rounds: 10 }), 0);
}

#[test]
fn thresholds_must_be_exceeded() {
    assert_eq!(offspring_of(&Fitness { points: 27, rounds: 10 }), 0);
    assert_eq!(offspring_of(&Fitness { points: 2701, rounds: 1000 }), 1);
    assert_eq!(offspring_of(&Fitness { points: 30, rounds: 10 }), 1);
    assert_eq!(offspring_of(&Fitness { points: 3001, rounds: 1000 }), 2);
    assert_eq!(offspring_of(&Fitness { points: 50, rounds: 10 }), 2);
}

#[test]
fn kinds_to_add_follow_the_ranking() {
    let players = population(&[
        StrategyType::TitForTat,
        StrategyType::AlwaysSteal,
        StrategyType::Random,
        StrategyType::MostlyGood,
    ]);
    let ranking = vec![
        standing(1, 20, 10),
        standing(3, 28, 10),
        standing(0, 30, 10),
        standing(2, 32, 10),
    ];
    assert_eq!(
        new_players_to_add(&players, &ranking),
        vec![
            StrategyType::MostlyGood,
            StrategyType::TitForTat,
            StrategyType::Random,
            StrategyType::Random,
        ]
    );
}

#[test]
fn nobody_is_added_for_an_empty_ranking() {
    let players = population(&[StrategyType::TitForTat]);
    assert!(new_players_to_add(&players, &Vec::new()).is_empty());
}

#[test]
fn new_players_are_added_behind_the_old() {
    let mut players = population(&[StrategyType::TitForTat, StrategyType::AlwaysSteal]);
    let names: Vec<String> = players.iter().map(|p| p.name.clone()).collect();
    add_players(&mut players, &vec![StrategyType::Random, StrategyType::TitForTat]);
    assert_eq!(
        kinds_in(&players),
        vec![
            StrategyType::TitForTat,
            StrategyType::AlwaysSteal,
            StrategyType::Random,
            StrategyType::TitForTat,
        ]
    );
    assert_eq!(players[0].name, names[0]);
    assert_eq!(players[1].name, names[1]);
    assert_eq!(players[2].strategy.kind, StrategyType::Random);
    assert_eq!(players[3].strategy.kind, StrategyType::TitForTat);
    assert!(players[3].name.starts_with("TitForTat-"));
    assert_ne!(players[3].name, players[0].name);
}

#[test]
fn adding_nobody_changes_nothing() {
    let mut players = population(&[StrategyType::TitForTat]);
    add_players(&mut players, &Vec::new());
    assert_eq!(kinds_in(&players), vec![StrategyType::TitForTat]);
}

#[test]
fn cooperators_at_exactly_three_gain_one_each() {
    let mut random = ThreadRandom;
    let mut players = population(&[StrategyType::AlwaysCooperate, StrategyType::AlwaysCooperate]);
    let ranking = play_season_and_grow(&mut players, 0, &mut random).unwrap();
    assert_eq!(ranking.len(), 2);
    assert_eq!(players.len(), 4);
    assert!(kinds_in(&players).iter().all(|k| *k == StrategyType::AlwaysCooperate));
}

#[test]
fn thieves_among_themselves_gain_nobody() {
    let mut random = ThreadRandom;
    let mut players = population(&[StrategyType::AlwaysSteal; 3]);
    let ranking = play_season_and_grow(&mut players, 100, &mut random).unwrap();
    assert_eq!(ranking.len(), 3);
    assert_eq!(players.len(), 3);
}

#[test]
fn thief_among_cooperators_gains_two() {
    let mut random = ThreadRandom;
    let mut players = population(&[
        StrategyType::AlwaysCooperate,
        StrategyType::AlwaysCooperate,
        StrategyType::AlwaysCooperate,
        StrategyType::AlwaysSteal,
    ]);
    let ranking = play_season_and_grow(&mut players, 0, &mut random).unwrap();
    assert_eq!(
        ranking,
        vec![
            standing(0, 2400, 1000),
            standing(1, 2400, 1000),
            standing(2, 2400, 1000),
            standing(3, 3400, 1000),
        ]
    );
    assert_eq!(
        kinds_in(&players)[4..].to_vec(),
        vec![StrategyType::AlwaysSteal, StrategyType::AlwaysSteal]
    );
}

#[test]
fn season_never_shrinks_the_population() {
    let mut random = ThreadRandom;
    for noise in [0, 50, 100] {
        let mut players = population(&all_kinds());
        let mut size = players.len();
        for _ in 0..3 {
            let before = kinds_in(&players);
            let ranking = play_season_and_grow(&mut players, noise, &mut random).unwrap();
            assert_eq!(ranking.len(), size);
            assert!(players.len() >= size);
            assert!(players.len() <= 3 * size);
            assert_eq!(kinds_in(&players)[..size].to_vec(), before);
            size = players.len();
        }
    }
}

#[test]
fn refused_season_adds_nobody() {
    let mut random = ThreadRandom;
    let mut players = population(&[StrategyType::AlwaysCooperate]);
    assert_eq!(
        play_season_and_grow(&mut players, 101, &mut random),
        Err(ConfigError::NoiseOutOfRange)
    );
    assert_eq!(players.len(), 1);
    let mut nobody: Vec<Player<KindStrategy>> = Vec::new();
    assert_eq!(
        play_season_and_grow(&mut nobody, 0, &mut random),
        Err(ConfigError::EmptyPopulation)
    );
    assert!(nobody.is_empty());
}

#[test]
fn cooperators_double_every_season() {
    let mut random = ThreadRandom;
    let players = population(&[StrategyType::AlwaysCooperate]);
    let run = play_multi_season(players, 0, 3, &mut random).ok().unwrap();
    assert_eq!(run.seasons.len(), 3);
    assert_eq!(run.seasons[0].len(), 1);
    assert_eq!(run.seasons[1].len(), 2);
    assert_eq!(run.seasons[2].len(), 4);
    assert_eq!(run.players.len(), 8);
}

#[test]
fn run_keeps_the_first_players_in_place() {
    let mut random = ThreadRandom;
    let players = population(&[StrategyType::AlwaysCooperate, StrategyType::AlwaysSteal]);
    let names: Vec<String> = players.iter().map(|p| p.name.clone()).collect();
    let run = play_multi_season(players, 20, 2, &mut random).ok().unwrap();
    assert!(run.players.len() >= 2);
    assert_eq!(run.players[0].name, names[0]);
    assert_eq!(run.players[1].name, names[1]);
}

#[test]
fn run_of_no_seasons_leaves_the_population() {
    let mut random = ThreadRandom;
    let players = population(&[StrategyType::AlwaysCooperate, StrategyType::Random]);
    let run = play_multi_season(players, 0, 0, &mut random).ok().unwrap();
    assert!(run.seasons.is_empty());
    assert_eq!(run.players.len(), 2);
    let players = population(&[StrategyType::AlwaysCooperate]);
    let run = play_multi_season(players, 0, -4, &mut random).ok().unwrap();
    assert!(run.seasons.is_empty());
    assert_eq!(run.players.len(), 1);
}

#[test]
fn run_refuses_bad_settings_before_playing() {
    let mut random = ThreadRandom;
    let players = population(&[StrategyType::AlwaysCooperate]);
    let refused = play_multi_season(players, 200, 2, &mut random).err();
    assert_eq!(refused, Some(ConfigError::NoiseOutOfRange));
    let refused = play_multi_season(Vec::new(), 0, 2, &mut random).err();
    assert_eq!(refused, Some(ConfigError::EmptyPopulation));
    let refused = play_multi_season(Vec::new(), 0, 0, &mut random).err();
    assert_eq!(refused, Some(ConfigError::EmptyPopulation));
    let refused = play_multi_season(Vec::new(), -1, 0, &mut random).err();
    assert_eq!(refused, Some(ConfigError::NoiseOutOfRange));
}

#[test]
fn run_of_mixed_kinds_grows_by_its_rankings() {
    let mut random = ThreadRandom;
    let players = population(&all_kinds());
    let run = play_multi_season(players, 10, 2, &mut random).ok().unwrap();
    assert_eq!(run.seasons[0].len(), 10);
    let earned: usize = run.seasons[0].iter().map(|s| offspring_of(&s.fitness)).sum();
    assert_eq!(run.seasons[1].len(), 10 + earned);
    let earned_again: usize = run.seasons[1].iter().map(|s| offspring_of(&s.fitness)).sum();
    assert_eq!(run.players.len(), 10 + earned + earned_again);
}
