use prisoners_dilemma::random::{RandomSource, SeededRandom, ThreadRandom};
use prisoners_dilemma::common::{
    get_scores, play_match, play_round, play_rounds, Player, PrivateRound, Round, RoundChoice,
    Strategy, StrategyType, MATCH_ROUNDS,
};
use prisoners_dilemma::players::KindStrategy;
use prisoners_dilemma::sweep::all_kinds;

const C: RoundChoice = RoundChoice::Cooperate;
const S: RoundChoice = RoundChoice::Steal;

fn player(kind: StrategyType) -> Player<KindStrategy> {
    Player::new_from_strategy_name(kind)
}

/// Cooperates until it has as many rounds on record as `self.0`, then steals.
struct TurnsAfter(usize);

impl Strategy for TurnsAfter {
    fn decide<R: RandomSource>(&self, rounds: &Vec<Round>, _random: &mut R) -> RoundChoice {
        if rounds.len() >= self.0 {
            S
        } else {
            C
        }
    }
}

/// Steals if any round on record shows its own choice as a theft.
struct RemembersItself;

impl Strategy for RemembersItself {
    fn decide<R: RandomSource>(&self, rounds: &Vec<Round>, _random: &mut R) -> RoundChoice {
        if rounds.iter().any(|r| r.choices.0 == S) {
            S
        } else if rounds.len() == 3 {
            S
        } else {
            C
        }
    }
}

#[test]
fn match_has_two_hundred_rounds() {
    let mut random = ThreadRandom;
    assert_eq!(MATCH_ROUNDS, 200);
    for kind in all_kinds() {
        let a = player(kind);
        let b = player(StrategyType::Random);
        assert_eq!(play_rounds((&a, &b), 50, &mut random).len(), 200);
    }
}

#[test]
fn match_scores_are_bounded() {
    let mut random = ThreadRandom;
    for kind in all_kinds() {
        for other in all_kinds() {
            let a = player(kind);
            let b = player(other);
            let (x, y) = play_match((&a, &b), 30, &mut random);
            assert!((0..=1000).contains(&x));
            assert!((0..=1000).contains(&y));
            assert!((400..=1200).contains(&(x + y)));
        }
    }
}

#[test]
fn two_cooperators_score_six_hundred_each() {
    let mut random = ThreadRandom;
    let a = player(StrategyType::AlwaysCooperate);
    let b = player(StrategyType::AlwaysCooperate);
    let rounds = play_rounds((&a, &b), 0, &mut random);
    assert_eq!(rounds.len(), 200);
    assert!(rounds.iter().all(|r| r.round == Round { choices: (C, C) }));
    assert_eq!(get_scores(rounds), (600, 600));
    assert_eq!(play_match((&a, &b), 0, &mut random), (600, 600));
}

#[test]
fn two_thieves_score_two_hundred_each() {
    let mut random = ThreadRandom;
    let a = player(StrategyType::AlwaysSteal);
    let b = player(StrategyType::AlwaysSteal);
    assert_eq!(play_match((&a, &b), 0, &mut random), (200, 200));
}

#[test]
fn thief_takes_all_from_a_cooperator() {
    let mut random = ThreadRandom;
    let thief = player(StrategyType::AlwaysSteal);
    let cooperator = player(StrategyType::AlwaysCooperate);
    let rounds = play_rounds((&thief, &cooperator), 0, &mut random);
    assert!(rounds.iter().all(|r| r.round == Round { choices: (S, C) }));
    let scores = play_match((&thief, &cooperator), 0, &mut random);
    assert_eq!(scores, (1000, 0));
    assert_eq!(scores.0 as f32 / MATCH_ROUNDS as f32, 5.0);
    assert_eq!(scores.1 as f32 / MATCH_ROUNDS as f32, 0.0);
    assert_eq!(play_match((&cooperator, &thief), 0, &mut random), (0, 1000));
}

#[test]
fn fixed_policies_score_the_same_under_any_noise() {
    let mut random = ThreadRandom;
    let thief = player(StrategyType::AlwaysSteal);
    let cooperator = player(StrategyType::AlwaysCooperate);
    for noise in [0, 10, 50, 100] {
        assert_eq!(play_match((&thief, &cooperator), noise, &mut random), (1000, 0));
        assert_eq!(play_match((&cooperator, &cooperator), noise, &mut random), (600, 600));
    }
}

#[test]
fn tit_for_tat_loses_one_round_to_a_thief() {
    let mut random = ThreadRandom;
    let mirror = player(StrategyType::TitForTat);
    let thief = player(StrategyType::AlwaysSteal);
    let rounds = play_rounds((&mirror, &thief), 0, &mut random);
    assert_eq!(rounds[0].round, Round { choices: (C, S) });
    assert!(rounds[1..].iter().all(|r| r.round == Round { choices: (S, S) }));
    assert_eq!(play_match((&mirror, &thief), 0, &mut random), (199, 204));
}

#[test]
fn tit_for_tat_as_second_player_reads_its_own_side() {
    let mut random = ThreadRandom;
    let thief = player(StrategyType::AlwaysSteal);
    let mirror = player(StrategyType::TitForTat);
    assert_eq!(play_match((&thief, &mirror), 0, &mut random), (204, 199));
}

#[test]
fn grudge_and_tit_for_tat_stay_at_peace_without_noise() {
    let mut random = ThreadRandom;
    let a = player(StrategyType::OneBittenTwiceShy);
    let b = player(StrategyType::TitForTat);
    assert_eq!(play_match((&a, &b), 0, &mut random), (600, 600));
    let c = player(StrategyType::TakesTimeToForgive);
    assert_eq!(play_match((&c, &b), 0, &mut random), (600, 600));
}

#[test]
fn no_noise_means_no_round_is_corrupted() {
    let mut random = ThreadRandom;
    for kind in all_kinds() {
        let a = player(kind);
        let b = player(StrategyType::MostlyGood);
        for r in play_rounds((&a, &b), 0, &mut random) {
            assert!(!r.has_noise);
            assert_eq!(r.get_round_history(), r.round);
            assert_eq!(
                r.get_round_history_for_b(),
                Round { choices: (r.round.choices.1, r.round.choices.0) }
            );
        }
    }
}

#[test]
fn full_noise_marks_every_round() {
    let mut random = ThreadRandom;
    for kind in all_kinds() {
        let a = player(kind);
        let b = player(StrategyType::TitForTat);
        assert!(play_rounds((&a, &b), 100, &mut random).iter().all(|r| r.has_noise));
    }
}

#[test]
fn noise_outside_the_percentages_acts_as_its_nearest() {
    let mut random = ThreadRandom;
    let a = player(StrategyType::Random);
    let b = player(StrategyType::Random);
    assert!(play_rounds((&a, &b), -5, &mut random).iter().all(|r| !r.has_noise));
    assert!(play_rounds((&a, &b), 250, &mut random).iter().all(|r| r.has_noise));
}

#[test]
fn some_noise_corrupts_some_rounds() {
    let mut random = ThreadRandom;
    let a = player(StrategyType::AlwaysCooperate);
    let b = player(StrategyType::AlwaysCooperate);
    let mut noisy = 0;
    let mut total = 0;
    for _ in 0..20 {
        for r in play_rounds((&a, &b), 50, &mut random) {
            total += 1;
            if r.has_noise {
                noisy += 1;
            }
        }
    }
    assert_eq!(total, 4000);
    assert!(noisy > 1000 && noisy < 3000);
}

#[test]
fn noise_draws_both_choices() {
    let mut random = ThreadRandom;
    let a = player(StrategyType::AlwaysCooperate);
    let b = player(StrategyType::AlwaysCooperate);
    let rounds = play_rounds((&a, &b), 100, &mut random);
    for slot in 0..2 {
        let drawn: Vec<RoundChoice> = rounds
            .iter()
            .map(|r| r.round_with_noise.choices)
            .map(|drawn| if slot == 0 { drawn.0 } else { drawn.1 })
            .collect();
        assert!(drawn.contains(&C));
        assert!(drawn.contains(&S));
    }
}

#[test]
fn one_round_asks_each_side_with_its_own_record() {
    let mut random = ThreadRandom;
    let quiet = Round { choices: (C, C) };
    let earlier = vec![
        PrivateRound {
            round: Round { choices: (C, S) },
            has_noise: false,
            round_with_noise: quiet,
        },
    ];
    let a = player(StrategyType::TitForTat);
    let b = player(StrategyType::TitForTat);
    let next = play_round((&a, &b), &earlier, 0, &mut random);
    assert_eq!(next.round, Round { choices: (S, C) });
    assert!(!next.has_noise);
}

#[test]
fn one_round_shows_noise_to_the_observer_only() {
    let mut random = ThreadRandom;
    let earlier = vec![PrivateRound {
        round: Round { choices: (C, C) },
        has_noise: true,
        round_with_noise: Round { choices: (C, S) },
    }];
    let a = player(StrategyType::TitForTat);
    let b = player(StrategyType::TitForTat);
    let next = play_round((&a, &b), &earlier, 0, &mut random);
    assert_eq!(next.round, Round { choices: (S, C) });
}

#[test]
fn first_round_is_played_on_an_empty_record() {
    let mut random = ThreadRandom;
    let a = Player::new(StrategyType::Random, TurnsAfter(0));
    let b = Player::new(StrategyType::Random, TurnsAfter(1));
    let first = play_round((&a, &b), &Vec::new(), 0, &mut random);
    assert_eq!(first.round, Round { choices: (S, C) });
}

#[test]
fn policies_see_completed_rounds_only() {
    let mut random = ThreadRandom;
    let a = Player::new(StrategyType::Random, TurnsAfter(150));
    let b = Player::new(StrategyType::Random, TurnsAfter(200));
    let rounds = play_rounds((&a, &b), 100, &mut random);
    for (i, r) in rounds.iter().enumerate() {
        let expected = if i >= 150 { S } else { C };
        assert_eq!(r.round, Round { choices: (expected, C) });
    }
    assert_eq!(play_match((&a, &b), 100, &mut random), (150 * 3 + 50 * 5, 150 * 3));
}

#[test]
fn own_record_survives_full_noise() {
    let mut random = ThreadRandom;
    let a = Player::new(StrategyType::Random, RemembersItself);
    let b = Player::new(StrategyType::Random, RemembersItself);
    let rounds = play_rounds((&a, &b), 100, &mut random);
    for (i, r) in rounds.iter().enumerate() {
        let expected = if i >= 3 { S } else { C };
        assert_eq!(r.round, Round { choices: (expected, expected) });
    }
}

#[test]
fn players_of_different_policy_types_can_meet() {
    let mut random = ThreadRandom;
    let a = Player::new(StrategyType::Random, TurnsAfter(0));
    let b = player(StrategyType::AlwaysCooperate);
    assert_eq!(play_match((&a, &b), 40, &mut random), (1000, 0));
    assert_eq!(a.strategy_type, StrategyType::Random);
}

#[test]
fn player_can_meet_itself() {
    let mut random = ThreadRandom;
    let a = player(StrategyType::TitForTat);
    assert_eq!(play_match((&a, &a), 0, &mut random), (600, 600));
}

/// Hands out the lots it was given, in turn, and starts over at the end.
struct Scripted {
    percents: Vec<i32>,
    coins: Vec<bool>,
    percents_drawn: usize,
    coins_flipped: usize,
}

impl Scripted {
    fn new(percents: &[i32], coins: &[bool]) -> Scripted {
        Scripted {
            percents: percents.to_vec(),
            coins: coins.to_vec(),
            percents_drawn: 0,
            coins_flipped: 0,
        }
    }
}

impl RandomSource for Scripted {
    fn percent(&mut self) -> i32 {
        let draw = self.percents[self.percents_drawn % self.percents.len()];
        self.percents_drawn += 1;
        draw
    }

    fn coin(&mut self) -> bool {
        let heads = self.coins[self.coins_flipped % self.coins.len()];
        self.coins_flipped += 1;
        heads
    }
}

/// Leaves its choice to the source: steals on a draw under 25.
struct Quarter;

impl Strategy for Quarter {
    fn decide<R: RandomSource>(&self, _rounds: &Vec<Round>, random: &mut R) -> RoundChoice {
        if random.percent() < 25 {
            S
        } else {
            C
        }
    }
}

#[test]
fn round_is_made_of_the_lots_it_draws() {
    let a = player(StrategyType::AlwaysCooperate);
    let b = player(StrategyType::AlwaysSteal);
    let mut random = Scripted::new(&[29], &[true, false]);
    let round = play_round((&a, &b), &Vec::new(), 30, &mut random);
    assert_eq!(
        round,
        PrivateRound {
            round: Round { choices: (C, S) },
            has_noise: true,
            round_with_noise: Round { choices: (S, C) },
        }
    );
    assert_eq!(random.percents_drawn, 1);
    assert_eq!(random.coins_flipped, 2);
    let round = play_round((&a, &b), &Vec::new(), 29, &mut random);
    assert!(!round.has_noise);
}

#[test]
fn drawing_policies_draw_before_the_noise() {
    let a = player(StrategyType::Random);
    let b = player(StrategyType::MostlyGood);
    let mut random = Scripted::new(&[49, 10, 99], &[false]);
    let round = play_round((&a, &b), &Vec::new(), 100, &mut random);
    assert_eq!(round.round, Round { choices: (S, C) });
    assert!(round.has_noise);
    assert_eq!(random.percents_drawn, 3);
}

#[test]
fn fixed_policies_draw_no_lots() {
    let a = player(StrategyType::TitForTat);
    let b = player(StrategyType::OneBittenTwiceShy);
    let mut random = Scripted::new(&[99], &[false]);
    play_rounds((&a, &b), 50, &mut random);
    assert_eq!(random.percents_drawn, 200);
    assert_eq!(random.coins_flipped, 400);
}

#[test]
fn retaliator_draws_only_when_robbed() {
    let a = player(StrategyType::MainlyRelaliate);
    let b = player(StrategyType::AlwaysSteal);
    let mut random = Scripted::new(&[89], &[false]);
    let rounds = play_rounds((&a, &b), 0, &mut random);
    assert_eq!(rounds[0].round, Round { choices: (C, S) });
    assert!(rounds[1..].iter().all(|r| r.round == Round { choices: (S, S) }));
    assert_eq!(random.percents_drawn, 200 + 199);
    let mut random = Scripted::new(&[90], &[false]);
    assert_eq!(play_match((&a, &b), 0, &mut random), (0, 1000));
}

#[test]
fn noise_misleads_tit_for_tat() {
    let a = player(StrategyType::TitForTat);
    let b = player(StrategyType::AlwaysCooperate);
    let mut random = Scripted::new(&[0], &[true]);
    let rounds = play_rounds((&a, &b), 100, &mut random);
    assert_eq!(rounds[0].round, Round { choices: (C, C) });
    assert!(rounds[1..].iter().all(|r| r.round == Round { choices: (S, C) }));
    let mut random = Scripted::new(&[0], &[false]);
    assert_eq!(play_match((&a, &b), 100, &mut random), (600, 600));
}

#[test]
fn custom_policy_draws_from_the_source_of_the_match() {
    let a = Player::new(StrategyType::Random, Quarter);
    let b = player(StrategyType::AlwaysCooperate);
    let mut random = Scripted::new(&[24, 60], &[false]);
    let first = play_round((&a, &b), &Vec::new(), 50, &mut random);
    assert_eq!(first.round, Round { choices: (S, C) });
    assert!(!first.has_noise);
}

#[test]
fn same_seed_gives_the_same_match() {
    let a = player(StrategyType::Random);
    let b = player(StrategyType::MaybeRelaliate);
    let first = play_rounds((&a, &b), 35, &mut SeededRandom::new(2024));
    let second = play_rounds((&a, &b), 35, &mut SeededRandom::new(2024));
    assert_eq!(first, second);
    assert_eq!(
        play_match((&a, &b), 35, &mut SeededRandom::new(7)),
        play_match((&a, &b), 35, &mut SeededRandom::new(7))
    );
}

#[test]
fn seeds_differ_in_what_they_draw() {
    let a = player(StrategyType::Random);
    let b = player(StrategyType::Random);
    let courses: Vec<Vec<PrivateRound>> =
        (0..8).map(|seed| play_rounds((&a, &b), 50, &mut SeededRandom::new(seed))).collect();
    assert!(courses.iter().any(|course| *course != courses[0]));
}

#[test]
fn seeded_source_draws_percentages_and_both_coins() {
    let mut random = SeededRandom::new(11);
    let draws: Vec<i32> = (0..5000).map(|_| random.percent()).collect();
    assert!(draws.iter().all(|d| (0..100).contains(d)));
    assert!(draws.contains(&0));
    assert!(draws.contains(&99));
    let coins: Vec<bool> = (0..100).map(|_| random.coin()).collect();
    assert!(coins.contains(&true));
    assert!(coins.contains(&false));
}

#[test]
fn thread_source_draws_percentages_and_both_coins() {
    let mut random = ThreadRandom;
    let draws: Vec<i32> = (0..5000).map(|_| random.percent()).collect();
    assert!(draws.iter().all(|d| (0..100).contains(d)));
    assert!(draws.contains(&0));
    assert!(draws.contains(&99));
    let coins: Vec<bool> = (0..100).map(|_| random.coin()).collect();
    assert!(coins.contains(&true));
    assert!(coins.contains(&false));
}
