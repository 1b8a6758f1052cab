//! What holds of every course that a match can take.

use vstd::prelude::*;
use crate::common::{
    can_follow, is_course_of_match, is_match_score, points_of_a, points_of_b, PrivateRound, Round,
    RoundChoice, Strategy, MATCH_ROUNDS,
};

verus! {

/// The start of a course of a match is the course of a shorter match: no
/// round was played with a view to a later one.
pub proof fn lemma_course_start<A: Strategy, B: Strategy>(
    a: A,
    b: B,
    noise: int,
    rounds: Seq<PrivateRound>,
    k: int,
)
    requires
        is_course_of_match(a, b, noise, rounds),
        0 <= k <= rounds.len(),
    ensures
        is_course_of_match(a, b, noise, rounds.take(k)),
{
    let start = rounds.take(k);
    assert forall|i: int| 0 <= i < start.len() implies can_follow(
        a,
        b,
        noise,
        #[trigger] start.take(i),
        start[i],
    ) by {
        assert(start.take(i) == rounds.take(i));
        assert(can_follow(a, b, noise, rounds.take(i), rounds[i]));
    }
}

/// At a noise level of 0 no round of a match is corrupted: both players see
/// every round as it was, each from its own side.
pub proof fn lemma_quiet_course<A: Strategy, B: Strategy>(
    a: A,
    b: B,
    noise: int,
    rounds: Seq<PrivateRound>,
)
    requires
        is_course_of_match(a, b, noise, rounds),
        noise <= 0,
    ensures
        forall|i: int|
            0 <= i < rounds.len() ==> {
                let round = #[trigger] rounds[i];
                &&& !round.has_noise
                &&& round.seen_by_a() == round.round
                &&& round.seen_by_b() == round.round.swapped()
            },
{
    assert forall|i: int| 0 <= i < rounds.len() implies {
        let round = #[trigger] rounds[i];
        &&& !round.has_noise
        &&& round.seen_by_a() == round.round
        &&& round.seen_by_b() == round.round.swapped()
    } by {
        assert(can_follow(a, b, noise, rounds.take(i), rounds[i]));
    }
}

/// At a noise level of 100 every round of a match is marked as corrupted.
pub proof fn lemma_loud_course<A: Strategy, B: Strategy>(
    a: A,
    b: B,
    noise: int,
    rounds: Seq<PrivateRound>,
)
    requires
        is_course_of_match(a, b, noise, rounds),
        noise >= 100,
    ensures
        forall|i: int| 0 <= i < rounds.len() ==> (#[trigger] rounds[i]).has_noise,
{
    assert forall|i: int| 0 <= i < rounds.len() implies (#[trigger] rounds[i]).has_noise by {
        assert(can_follow(a, b, noise, rounds.take(i), rounds[i]));
    }
}

/// Whether the policy gives one answer whatever it has seen.
pub open spec fn always_answers<S: Strategy>(strategy: S, choice: RoundChoice) -> bool {
    forall|history: Seq<Round>, other: RoundChoice| #[trigger]
        strategy.allows(history, other) ==> other == choice
}

/// Where each of two policies gives one answer whatever it has seen, every
/// round of their match is the same, whatever the noise, and each side has
/// the payoff of that round once for every round played.
pub proof fn lemma_course_of_fixed_choices<A: Strategy, B: Strategy>(
    a: A,
    b: B,
    noise: int,
    rounds: Seq<PrivateRound>,
    choice_a: RoundChoice,
    choice_b: RoundChoice,
)
    requires
        is_course_of_match(a, b, noise, rounds),
        always_answers(a, choice_a),
        always_answers(b, choice_b),
    ensures
        forall|i: int|
            0 <= i < rounds.len() ==> (#[trigger] rounds[i]).round == (Round {
                choices: (choice_a, choice_b),
            }),
        points_of_a(rounds) == rounds.len() * (Round { choices: (choice_a, choice_b) }).payoff().0,
        points_of_b(rounds) == rounds.len() * (Round { choices: (choice_a, choice_b) }).payoff().1,
    decreases rounds.len(),
{
    let fixed = Round { choices: (choice_a, choice_b) };
    assert forall|i: int| 0 <= i < rounds.len() implies (#[trigger] rounds[i]).round == fixed by {
        assert(can_follow(a, b, noise, rounds.take(i), rounds[i]));
    }
    if rounds.len() > 0 {
        let earlier = rounds.drop_last();
        assert(earlier == rounds.take(rounds.len() - 1));
        lemma_course_start(a, b, noise, rounds, rounds.len() - 1);
        lemma_course_of_fixed_choices(a, b, noise, earlier, choice_a, choice_b);
        assert(rounds.len() * fixed.payoff().0 == earlier.len() * fixed.payoff().0
            + fixed.payoff().0) by (nonlinear_arith)
            requires
                rounds.len() == earlier.len() + 1,
        ;
        assert(rounds.len() * fixed.payoff().1 == earlier.len() * fixed.payoff().1
            + fixed.payoff().1) by (nonlinear_arith)
            requires
                rounds.len() == earlier.len() + 1,
        ;
    }
}

/// Where each of two policies gives one answer whatever it has seen, their
/// match can end with one score only: the payoff of their round, once for
/// each round of a match.
pub proof fn lemma_score_of_fixed_choices<A: Strategy, B: Strategy>(
    a: A,
    b: B,
    noise: int,
    scores: (int, int),
    choice_a: RoundChoice,
    choice_b: RoundChoice,
)
    requires
        is_match_score(a, b, noise, scores),
        always_answers(a, choice_a),
        always_answers(b, choice_b),
    ensures
        scores.0 == MATCH_ROUNDS * (Round { choices: (choice_a, choice_b) }).payoff().0,
        scores.1 == MATCH_ROUNDS * (Round { choices: (choice_a, choice_b) }).payoff().1,
{
    let rounds = choose|rounds: Seq<PrivateRound>|
        rounds.len() == MATCH_ROUNDS && #[trigger] is_course_of_match(a, b, noise, rounds)
            && scores == (points_of_a(rounds), points_of_b(rounds));
    lemma_course_of_fixed_choices(a, b, noise, rounds, choice_a, choice_b);
}

} // verus!
