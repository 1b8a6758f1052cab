//! The policies that go by a kind's name.

use vstd::prelude::*;
use crate::common::{Player, Round, RoundChoice, Strategy, StrategyType};
use crate::random::RandomSource;

verus! {

/// What the player believes the other did in the last round; before the
/// first round it assumes good faith.
pub open spec fn last_seen(history: Seq<Round>) -> RoundChoice {
    if history.len() == 0 {
        RoundChoice::Cooperate
    } else {
        history.last().choices.1
    }
}

/// Whether the player believes that the other has ever stolen.
pub open spec fn was_robbed(history: Seq<Round>) -> bool {
    exists|i: int| 0 <= i < history.len() && (#[trigger] history[i]).choices.1 == RoundChoice::Steal
}

/// Whether the player believes that the other stole in one of the last two
/// rounds.
pub open spec fn was_robbed_lately(history: Seq<Round>) -> bool {
    exists|i: int|
        0 <= i < history.len() && history.len() - 2 <= i && (#[trigger] history[i]).choices.1
            == RoundChoice::Steal
}

/// Stealing on a draw under `threshold`, out of a hundred.
pub open spec fn steals_below(draw: int, threshold: int) -> RoundChoice {
    if draw < threshold {
        RoundChoice::Steal
    } else {
        RoundChoice::Cooperate
    }
}

/// What a policy of kind `kind` answers to `history` when its lot, a number
/// out of a hundred, falls on `draw`. Half of the kinds never look at the
/// lot.
pub open spec fn kind_answer(kind: StrategyType, history: Seq<Round>, draw: int) -> RoundChoice {
    match kind {
        StrategyType::AlwaysCooperate => RoundChoice::Cooperate,
        StrategyType::Random => steals_below(draw, 50),
        StrategyType::AlwaysSteal => RoundChoice::Steal,
        StrategyType::TitForTat => last_seen(history),
        StrategyType::OneBittenTwiceShy => if was_robbed(history) {
            RoundChoice::Steal
        } else {
            RoundChoice::Cooperate
        },
        StrategyType::TakesTimeToForgive => if was_robbed_lately(history) {
            RoundChoice::Steal
        } else {
            RoundChoice::Cooperate
        },
        StrategyType::MostlyGood => steals_below(draw, 10),
        StrategyType::MaybeRelaliate => if last_seen(history) == RoundChoice::Steal {
            steals_below(draw, 50)
        } else {
            RoundChoice::Cooperate
        },
        StrategyType::MainlyRelaliate => if last_seen(history) == RoundChoice::Steal {
            steals_below(draw, 90)
        } else {
            RoundChoice::Cooperate
        },
        StrategyType::RarelyRelaliate => if last_seen(history) == RoundChoice::Steal {
            steals_below(draw, 10)
        } else {
            RoundChoice::Cooperate
        },
    }
}

/// Whether a policy of kind `kind` may answer `choice` to `history`: whether
/// some lot gives that answer.
pub open spec fn kind_allows(kind: StrategyType, history: Seq<Round>, choice: RoundChoice) -> bool {
    exists|draw: int| 0 <= draw < 100 && choice == #[trigger] kind_answer(kind, history, draw)
}

/// Turns a draw out of a hundred into a choice: a draw under `threshold`
/// steals.
pub fn steal_below(draw: i32, threshold: i32) -> (choice: RoundChoice)
    ensures
        choice == steals_below(draw as int, threshold as int),
{
    if draw < threshold {
        RoundChoice::Steal
    } else {
        RoundChoice::Cooperate
    }
}

pub fn always_cooperate_strategy(_rounds: &Vec<Round>) -> (choice: RoundChoice)
    ensures
        choice == RoundChoice::Cooperate,
{
    RoundChoice::Cooperate
}

pub fn always_steal_strategy(_rounds: &Vec<Round>) -> (choice: RoundChoice)
    ensures
        choice == RoundChoice::Steal,
{
    RoundChoice::Steal
}

/// Steals half of the time, whatever happened.
pub fn random_strategy<R: RandomSource>(_rounds: &Vec<Round>, random: &mut R) -> (choice:
    RoundChoice)
    ensures
        kind_allows(StrategyType::Random, _rounds@, choice),
{
    let draw = random.percent();
    let choice = steal_below(draw, 50);
    assert(choice == kind_answer(StrategyType::Random, _rounds@, draw as int));
    choice
}

/// Assumes good faith at first, then does what the other did last.
pub fn tit_for_tat_strategy(rounds: &Vec<Round>) -> (choice: RoundChoice)
    ensures
        choice == last_seen(rounds@),
{
    if rounds.len() == 0 {
        RoundChoice::Cooperate
    } else {
        rounds[rounds.len() - 1].choices.1
    }
}

/// Assumes good faith at first; once robbed, steals for the rest of the
/// match.
pub fn once_bitten_twice_shy(rounds: &Vec<Round>) -> (choice: RoundChoice)
    ensures
        choice == RoundChoice::Steal <==> was_robbed(rounds@),
{
    let mut i: usize = 0;
    while i < rounds.len()
        invariant
            i <= rounds.len(),
            forall|j: int| 0 <= j < i ==> (#[trigger] rounds@[j]).choices.1 != RoundChoice::Steal,
        decreases rounds.len() - i,
    {
        if rounds[i].choices.1 == RoundChoice::Steal {
            return RoundChoice::Steal;
        }
        i = i + 1;
    }
    RoundChoice::Cooperate
}

/// Assumes good faith, but after a theft wants to see two rounds of
/// cooperation before it cooperates again.
pub fn i_need_time_to_forgive(rounds: &Vec<Round>) -> (choice: RoundChoice)
    ensures
        choice == RoundChoice::Steal <==> was_robbed_lately(rounds@),
{
    let n = rounds.len();
    if n >= 1 && rounds[n - 1].choices.1 == RoundChoice::Steal {
        return RoundChoice::Steal;
    }
    if n >= 2 && rounds[n - 2].choices.1 == RoundChoice::Steal {
        return RoundChoice::Steal;
    }
    RoundChoice::Cooperate
}

/// Cooperates nine times in ten, whatever happened.
pub fn mostly_good<R: RandomSource>(_rounds: &Vec<Round>, random: &mut R) -> (choice:
    RoundChoice)
    ensures
        kind_allows(StrategyType::MostlyGood, _rounds@, choice),
{
    let draw = random.percent();
    let choice = steal_below(draw, 10);
    assert(choice == kind_answer(StrategyType::MostlyGood, _rounds@, draw as int));
    choice
}

/// After a theft, strikes back half of the time.
pub fn maybe_retaliate<R: RandomSource>(rounds: &Vec<Round>, random: &mut R) -> (choice:
    RoundChoice)
    ensures
        kind_allows(StrategyType::MaybeRelaliate, rounds@, choice),
{
    if tit_for_tat_strategy(rounds) == RoundChoice::Steal {
        let draw = random.percent();
        let choice = steal_below(draw, 50);
        assert(choice == kind_answer(StrategyType::MaybeRelaliate, rounds@, draw as int));
        return choice;
    }
    assert(RoundChoice::Cooperate == kind_answer(StrategyType::MaybeRelaliate, rounds@, 0));
    RoundChoice::Cooperate
}

/// After a theft, strikes back nine times in ten.
pub fn mainly_retaliate<R: RandomSource>(rounds: &Vec<Round>, random: &mut R) -> (choice:
    RoundChoice)
    ensures
        kind_allows(StrategyType::MainlyRelaliate, rounds@, choice),
{
    if tit_for_tat_strategy(rounds) == RoundChoice::Steal {
        let draw = random.percent();
        let choice = steal_below(draw, 90);
        assert(choice == kind_answer(StrategyType::MainlyRelaliate, rounds@, draw as int));
        return choice;
    }
    assert(RoundChoice::Cooperate == kind_answer(StrategyType::MainlyRelaliate, rounds@, 0));
    RoundChoice::Cooperate
}

/// After a theft, strikes back once in ten times.
pub fn rarely_retaliate<R: RandomSource>(rounds: &Vec<Round>, random: &mut R) -> (choice:
    RoundChoice)
    ensures
        kind_allows(StrategyType::RarelyRelaliate, rounds@, choice),
{
    if tit_for_tat_strategy(rounds) == RoundChoice::Steal {
        let draw = random.percent();
        let choice = steal_below(draw, 10);
        assert(choice == kind_answer(StrategyType::RarelyRelaliate, rounds@, draw as int));
        return choice;
    }
    assert(RoundChoice::Cooperate == kind_answer(StrategyType::RarelyRelaliate, rounds@, 0));
    RoundChoice::Cooperate
}

/// The answer of a policy of kind `kind` to a given lot.
pub fn answer_with_draw(kind: StrategyType, rounds: &Vec<Round>, draw: i32) -> (choice: RoundChoice)
    ensures
        choice == kind_answer(kind, rounds@, draw as int),
{
    match kind {
        StrategyType::AlwaysCooperate => always_cooperate_strategy(rounds),
        StrategyType::Random => steal_below(draw, 50),
        StrategyType::AlwaysSteal => always_steal_strategy(rounds),
        StrategyType::TitForTat => tit_for_tat_strategy(rounds),
        StrategyType::OneBittenTwiceShy => once_bitten_twice_shy(rounds),
        StrategyType::TakesTimeToForgive => i_need_time_to_forgive(rounds),
        StrategyType::MostlyGood => steal_below(draw, 10),
        StrategyType::MaybeRelaliate => if tit_for_tat_strategy(rounds) == RoundChoice::Steal {
            steal_below(draw, 50)
        } else {
            RoundChoice::Cooperate
        },
        StrategyType::MainlyRelaliate => if tit_for_tat_strategy(rounds) == RoundChoice::Steal {
            steal_below(draw, 90)
        } else {
            RoundChoice::Cooperate
        },
        StrategyType::RarelyRelaliate => if tit_for_tat_strategy(rounds) == RoundChoice::Steal {
            steal_below(draw, 10)
        } else {
            RoundChoice::Cooperate
        },
    }
}

/// What each kind allows, without the lot: a kind that draws none allows
/// the one answer it gives; the two that only draw allow both answers; and
/// the three that strike back allow a theft only after one.
pub proof fn lemma_kind_allows(kind: StrategyType, history: Seq<Round>, choice: RoundChoice)
    ensures
        kind_allows(kind, history, choice) <==> match kind {
            StrategyType::AlwaysCooperate => choice == RoundChoice::Cooperate,
            StrategyType::AlwaysSteal => choice == RoundChoice::Steal,
            StrategyType::TitForTat => choice == last_seen(history),
            StrategyType::OneBittenTwiceShy => choice == RoundChoice::Steal <==> was_robbed(
                history,
            ),
            StrategyType::TakesTimeToForgive => choice == RoundChoice::Steal <==> was_robbed_lately(
                history,
            ),
            StrategyType::Random | StrategyType::MostlyGood => true,
            StrategyType::MaybeRelaliate
            | StrategyType::MainlyRelaliate
            | StrategyType::RarelyRelaliate => choice == RoundChoice::Steal ==> last_seen(history)
                == RoundChoice::Steal,
        },
{
    let low = kind_answer(kind, history, 0);
    let high = kind_answer(kind, history, 99);
    assert(kind_allows(kind, history, low));
    assert(kind_allows(kind, history, high));
}

/// The policy that goes by a kind's name.
#[derive(Clone, Copy, Debug)]
pub struct KindStrategy {
    pub kind: StrategyType,
}

impl Strategy for KindStrategy {
    open spec fn allows(&self, history: Seq<Round>, choice: RoundChoice) -> bool {
        kind_allows(self.kind, history, choice)
    }

    fn decide<R: RandomSource>(&self, rounds: &Vec<Round>, random: &mut R) -> (choice:
        RoundChoice) {
        let choice = match self.kind {
            StrategyType::AlwaysCooperate => always_cooperate_strategy(rounds),
            StrategyType::Random => random_strategy(rounds, random),
            StrategyType::AlwaysSteal => always_steal_strategy(rounds),
            StrategyType::TitForTat => tit_for_tat_strategy(rounds),
            StrategyType::OneBittenTwiceShy => once_bitten_twice_shy(rounds),
            StrategyType::TakesTimeToForgive => i_need_time_to_forgive(rounds),
            StrategyType::MostlyGood => mostly_good(rounds, random),
            StrategyType::MaybeRelaliate => maybe_retaliate(rounds, random),
            StrategyType::MainlyRelaliate => mainly_retaliate(rounds, random),
            StrategyType::RarelyRelaliate => rarely_retaliate(rounds, random),
        };
        proof {
            lemma_kind_allows(self.kind, rounds@, choice);
        }
        choice
    }
}

/// The policy of the given kind.
pub fn get_strategy(strategy_type: StrategyType) -> (strategy: KindStrategy)
    ensures
        strategy.kind == strategy_type,
{
    KindStrategy { kind: strategy_type }
}

impl Player<KindStrategy> {
    /// A player of the given kind, with the policy that goes by that name.
    pub fn new_from_strategy_name(strategy_type: StrategyType) -> (player: Player<KindStrategy>)
        ensures
            player.strategy_type == strategy_type,
            player.strategy.kind == strategy_type,
            crate::common::is_name_of_kind(player.name@, strategy_type),
    {
        Player::new(strategy_type, get_strategy(strategy_type))
    }
}

} // verus!
