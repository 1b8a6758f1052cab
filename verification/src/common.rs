//! The round model: choices, outcomes, what each side sees of a round, and
//! the payoff table.

use vstd::prelude::*;
use vstd::std_specs::cmp::PartialEqSpecImpl;
use vstd::string::StringExecFns;
use crate::outside::{draw_letters, is_alphanumeric};
use crate::random::RandomSource;

verus! {

/// What a player does in one round.
#[derive(Clone, Copy, Debug, PartialEq, Eq, Structural)]
pub enum RoundChoice {
    Cooperate,
    Steal,
}

impl RoundChoice {
    /// The other choice.
    pub open spec fn opposite(self) -> RoundChoice {
        match self {
            RoundChoice::Cooperate => RoundChoice::Steal,
            RoundChoice::Steal => RoundChoice::Cooperate,
        }
    }

    /// The choice that a fair coin stands for: heads steals.
    pub open spec fn of_coin(heads: bool) -> RoundChoice {
        if heads {
            RoundChoice::Steal
        } else {
            RoundChoice::Cooperate
        }
    }

    pub fn get_opposite(&self) -> (other: RoundChoice)
        ensures
            other == self.opposite(),
    {
        match self {
            RoundChoice::Cooperate => RoundChoice::Steal,
            RoundChoice::Steal => RoundChoice::Cooperate,
        }
    }

    /// Turns a coin flip into a choice.
    pub fn from_coin(heads: bool) -> (choice: RoundChoice)
        ensures
            choice == RoundChoice::of_coin(heads),
    {
        if heads {
            RoundChoice::Steal
        } else {
            RoundChoice::Cooperate
        }
    }
}

/// The two choices of one round. The first slot belongs to whoever the round
/// is told from: in a true outcome that is player A, in a player's own record
/// it is that player.
#[derive(Clone, Copy, Debug, Eq)]
pub struct Round {
    pub choices: (RoundChoice, RoundChoice),
}

impl PartialEq for Round {
    fn eq(&self, other: &Round) -> (equal: bool) {
        self.choices.0 == other.choices.0 && self.choices.1 == other.choices.1
    }
}

impl PartialEqSpecImpl for Round {
    open spec fn obeys_eq_spec() -> bool {
        true
    }

    open spec fn eq_spec(&self, other: &Round) -> bool {
        *self == *other
    }
}

impl Round {
    /// Both players cooperate.
    pub open spec fn both_cooperate() -> Round {
        Round { choices: (RoundChoice::Cooperate, RoundChoice::Cooperate) }
    }

    /// The first player steals from a cooperating second.
    pub open spec fn first_steals() -> Round {
        Round { choices: (RoundChoice::Steal, RoundChoice::Cooperate) }
    }

    /// The second player steals from a cooperating first.
    pub open spec fn second_steals() -> Round {
        Round { choices: (RoundChoice::Cooperate, RoundChoice::Steal) }
    }

    /// Both players steal.
    pub open spec fn both_steal() -> Round {
        Round { choices: (RoundChoice::Steal, RoundChoice::Steal) }
    }

    /// The same round told from the other side.
    pub open spec fn swapped(self) -> Round {
        Round { choices: (self.choices.1, self.choices.0) }
    }

    /// Points of the first and of the second player.
    pub open spec fn payoff(self) -> (int, int) {
        match self.choices {
            (RoundChoice::Cooperate, RoundChoice::Cooperate) => (3, 3),
            (RoundChoice::Steal, RoundChoice::Cooperate) => (5, 0),
            (RoundChoice::Cooperate, RoundChoice::Steal) => (0, 5),
            (RoundChoice::Steal, RoundChoice::Steal) => (1, 1),
        }
    }
}

/// One round of a match as it happened, with what the noise channel drew for
/// it. `round` is what the players did and what is scored. Where `has_noise`
/// is set, each player remembers the other's choice from `round_with_noise`
/// in place of the true one.
#[derive(Clone, Copy, Debug, Eq)]
pub struct PrivateRound {
    pub round: Round,
    pub has_noise: bool,
    pub round_with_noise: Round,
}

impl PartialEq for PrivateRound {
    fn eq(&self, other: &PrivateRound) -> (equal: bool) {
        self.round == other.round && self.has_noise == other.has_noise
            && self.round_with_noise == other.round_with_noise
    }
}

impl PartialEqSpecImpl for PrivateRound {
    open spec fn obeys_eq_spec() -> bool {
        true
    }

    open spec fn eq_spec(&self, other: &PrivateRound) -> bool {
        *self == *other
    }
}

impl PrivateRound {
    /// The round as player A remembers it: A's own choice, then what A
    /// believes B did.
    pub open spec fn seen_by_a(self) -> Round {
        if self.has_noise {
            Round { choices: (self.round.choices.0, self.round_with_noise.choices.1) }
        } else {
            self.round
        }
    }

    /// The round as player B remembers it: B's own choice, then what B
    /// believes A did.
    pub open spec fn seen_by_b(self) -> Round {
        if self.has_noise {
            Round { choices: (self.round.choices.1, self.round_with_noise.choices.0) }
        } else {
            self.round.swapped()
        }
    }

    pub fn get_round_history(&self) -> (seen: Round)
        ensures
            seen == self.seen_by_a(),
    {
        if self.has_noise {
            Round { choices: (self.round.choices.0, self.round_with_noise.choices.1) }
        } else {
            self.round
        }
    }

    pub fn get_round_history_for_b(&self) -> (seen: Round)
        ensures
            seen == self.seen_by_b(),
    {
        if self.has_noise {
            Round { choices: (self.round.choices.1, self.round_with_noise.choices.0) }
        } else {
            Round { choices: (self.round.choices.1, self.round.choices.0) }
        }
    }
}

/// A player's record of its own choice is never touched by noise: the first
/// slot of what it sees is what it did. Noise replaces the other slot only,
/// and by the draw made for that observer.
pub proof fn lemma_own_choice_is_truthful(round: PrivateRound)
    ensures
        round.seen_by_a().choices.0 == round.round.choices.0,
        round.seen_by_b().choices.0 == round.round.choices.1,
        round.has_noise ==> round.seen_by_a().choices.1 == round.round_with_noise.choices.1,
        round.has_noise ==> round.seen_by_b().choices.1 == round.round_with_noise.choices.0,
{
}

/// Without noise both players see the round as it was, each from its own
/// side.
pub proof fn lemma_quiet_round_is_seen_truly(round: PrivateRound)
    requires
        !round.has_noise,
    ensures
        round.seen_by_a() == round.round,
        round.seen_by_b() == round.round.swapped(),
{
}

/// What player A has seen of the rounds played so far, oldest first.
pub open spec fn history_of_a(rounds: Seq<PrivateRound>) -> Seq<Round> {
    Seq::new(rounds.len(), |i: int| rounds[i].seen_by_a())
}

/// What player B has seen of the rounds played so far, oldest first.
pub open spec fn history_of_b(rounds: Seq<PrivateRound>) -> Seq<Round> {
    Seq::new(rounds.len(), |i: int| rounds[i].seen_by_b())
}

/// The points that player A has from `rounds`.
pub open spec fn points_of_a(rounds: Seq<PrivateRound>) -> int
    decreases rounds.len(),
{
    if rounds.len() == 0 {
        0
    } else {
        points_of_a(rounds.drop_last()) + rounds.last().round.payoff().0
    }
}

/// The points that player B has from `rounds`.
pub open spec fn points_of_b(rounds: Seq<PrivateRound>) -> int
    decreases rounds.len(),
{
    if rounds.len() == 0 {
        0
    } else {
        points_of_b(rounds.drop_last()) + rounds.last().round.payoff().1
    }
}

/// Every round pays each player between 0 and 5 points, and the two of them
/// between 2 and 6 together.
pub proof fn lemma_points_bounds(rounds: Seq<PrivateRound>)
    ensures
        0 <= points_of_a(rounds) <= 5 * rounds.len(),
        0 <= points_of_b(rounds) <= 5 * rounds.len(),
        2 * rounds.len() <= points_of_a(rounds) + points_of_b(rounds) <= 6 * rounds.len(),
    decreases rounds.len(),
{
    if rounds.len() > 0 {
        lemma_points_bounds(rounds.drop_last());
    }
}

/// The payoff of one round.
pub fn round_outcome(round: &Round) -> (points: (i32, i32))
    ensures
        (points.0 as int, points.1 as int) == round.payoff(),
{
    match round.choices {
        (RoundChoice::Cooperate, RoundChoice::Cooperate) => (3, 3),
        (RoundChoice::Steal, RoundChoice::Cooperate) => (5, 0),
        (RoundChoice::Cooperate, RoundChoice::Steal) => (0, 5),
        (RoundChoice::Steal, RoundChoice::Steal) => (1, 1),
    }
}

/// The payoff table is symmetric in the two players, and no round pays
/// anything but (3, 3), (5, 0), (0, 5) or (1, 1): mutual cooperation is the
/// only round that pays (3, 3), mutual stealing the only one that pays
/// (1, 1), and a lone thief takes 5 and leaves 0.
pub proof fn lemma_payoff_table(round: Round)
    ensures
        round.swapped().payoff() == (round.payoff().1, round.payoff().0),
        round.payoff() == (3int, 3int) <==> round == Round::both_cooperate(),
        round.payoff() == (5int, 0int) <==> round == Round::first_steals(),
        round.payoff() == (0int, 5int) <==> round == Round::second_steals(),
        round.payoff() == (1int, 1int) <==> round == Round::both_steal(),
        round == Round::both_cooperate() || round == Round::first_steals()
            || round == Round::second_steals() || round == Round::both_steal(),
        0 <= round.payoff().0 <= 5,
        0 <= round.payoff().1 <= 5,
        2 <= round.payoff().0 + round.payoff().1 <= 6,
{
}

/// The scores of a match: the payoffs of its rounds, summed for each side.
pub fn get_scores(rounds: Vec<PrivateRound>) -> (scores: (i32, i32))
    requires
        5 * rounds.len() <= i32::MAX,
    ensures
        scores.0 == points_of_a(rounds@),
        scores.1 == points_of_b(rounds@),
{
    let mut a: i32 = 0;
    let mut b: i32 = 0;
    let mut i: usize = 0;
    while i < rounds.len()
        invariant
            i <= rounds.len(),
            5 * rounds.len() <= i32::MAX,
            a == points_of_a(rounds@.take(i as int)),
            b == points_of_b(rounds@.take(i as int)),
        decreases rounds.len() - i,
    {
        proof {
            lemma_points_bounds(rounds@.take(i as int));
            assert(rounds@.take(i + 1).drop_last() == rounds@.take(i as int));
        }
        let points = round_outcome(&rounds[i].round);
        a = a + points.0;
        b = b + points.1;
        i = i + 1;
    }
    proof {
        assert(rounds@.take(rounds.len() as int) == rounds@);
    }
    (a, b)
}

/// The kinds of policy that the game knows by name.
#[derive(Clone, Copy, Debug, PartialEq, Eq, Structural)]
pub enum StrategyType {
    AlwaysCooperate,
    Random,
    AlwaysSteal,
    TitForTat,
    OneBittenTwiceShy,
    TakesTimeToForgive,
    MostlyGood,
    MaybeRelaliate,
    MainlyRelaliate,
    RarelyRelaliate,
}

impl StrategyType {
    /// The kind's name as text.
    pub open spec fn label(self) -> Seq<char> {
        match self {
            StrategyType::AlwaysCooperate => "AlwaysCooperate"@,
            StrategyType::Random => "Random"@,
            StrategyType::AlwaysSteal => "AlwaysSteal"@,
            StrategyType::TitForTat => "TitForTat"@,
            StrategyType::OneBittenTwiceShy => "OneBittenTwiceShy"@,
            StrategyType::TakesTimeToForgive => "TakesTimeToForgive"@,
            StrategyType::MostlyGood => "MostlyGood"@,
            StrategyType::MaybeRelaliate => "MaybeRelaliate"@,
            StrategyType::MainlyRelaliate => "MainlyRelaliate"@,
            StrategyType::RarelyRelaliate => "RarelyRelaliate"@,
        }
    }

    /// The kind's name as text.
    pub fn to_string(&self) -> (text: String)
        ensures
            text@ == self.label(),
    {
        let name: &str = match self {
            StrategyType::AlwaysCooperate => "AlwaysCooperate",
            StrategyType::Random => "Random",
            StrategyType::AlwaysSteal => "AlwaysSteal",
            StrategyType::TitForTat => "TitForTat",
            StrategyType::OneBittenTwiceShy => "OneBittenTwiceShy",
            StrategyType::TakesTimeToForgive => "TakesTimeToForgive",
            StrategyType::MostlyGood => "MostlyGood",
            StrategyType::MaybeRelaliate => "MaybeRelaliate",
            StrategyType::MainlyRelaliate => "MainlyRelaliate",
            StrategyType::RarelyRelaliate => "RarelyRelaliate",
        };
        String::from_str(name)
    }
}

/// A decision policy: what a player does next, given its own record of the
/// rounds played so far, oldest first. In each of those rounds the first
/// choice is the player's own and the second is what it believes the other
/// player did.
pub trait Strategy {
    /// Whether the policy may answer `choice` to `history`. A policy that
    /// draws lots allows more than one choice; one that says nothing of
    /// itself allows every choice.
    open spec fn allows(&self, history: Seq<Round>, choice: RoundChoice) -> bool {
        true
    }

    /// Answers `rounds`. A policy that leaves its choice to chance draws
    /// its lots from `random`.
    fn decide<R: RandomSource>(&self, rounds: &Vec<Round>, random: &mut R) -> (choice: RoundChoice)
        ensures
            self.allows(rounds@, choice),
    ;
}

/// A participant: a name to show, the kind of its policy, and the policy.
/// A population holds players of one policy type; the policies that go by a
/// kind's name are all of the type [`crate::players::KindStrategy`].
#[derive(Debug)]
pub struct Player<S: Strategy> {
    pub name: String,
    pub strategy_type: StrategyType,
    pub strategy: S,
}

/// The kinds of a population, player by player.
pub open spec fn kinds_of<S: Strategy>(players: Seq<Player<S>>) -> Seq<StrategyType> {
    Seq::new(players.len(), |i: int| players[i].strategy_type)
}

/// The number of letters and digits that end a player's name.
pub const NAME_SUFFIX_LEN: usize = 7;

/// Whether `suffix` can end a player's name: seven ASCII letters and digits.
pub open spec fn is_name_suffix(suffix: Seq<char>) -> bool {
    suffix.len() == NAME_SUFFIX_LEN && forall|i: int|
        0 <= i < suffix.len() ==> is_alphanumeric(#[trigger] suffix[i])
}

/// Whether `name` is a name that a player of kind `strategy_type` is made
/// with: the kind's label, a hyphen, and seven ASCII letters and digits.
pub open spec fn is_name_of_kind(name: Seq<char>, strategy_type: StrategyType) -> bool {
    exists|suffix: Seq<char>|
        #[trigger] is_name_suffix(suffix) && name == strategy_type.label() + seq!['-'] + suffix
}

/// Joins a kind's label and a suffix into a player's name.
pub fn player_name(strategy_type: StrategyType, suffix: &str) -> (name: String)
    ensures
        name@ == strategy_type.label() + seq!['-'] + suffix@,
{
    let mut name = strategy_type.to_string();
    proof {
        reveal_strlit("-");
        assert("-"@ == seq!['-']);
    }
    name.append("-");
    name.append(suffix);
    name
}

impl<S: Strategy> Player<S> {
    /// A player of the given kind and policy, under a fresh name.
    pub fn new(strategy_type: StrategyType, strategy: S) -> (player: Player<S>)
        ensures
            player.strategy_type == strategy_type,
            player.strategy == strategy,
            is_name_of_kind(player.name@, strategy_type),
    {
        let suffix = draw_letters(NAME_SUFFIX_LEN);
        assert(is_name_suffix(suffix@));
        let name = player_name(strategy_type, suffix.as_str());
        Player { name, strategy_type, strategy }
    }
}

/// The number of rounds in a match.
pub const MATCH_ROUNDS: usize = 200;

/// The round that comes of two choices and of what the noise channel drew:
/// `noise_draw` out of a hundred, which corrupts the round where it is under
/// `noise`, and one coin for each slot of the replacement.
pub open spec fn private_round_of(
    choice_a: RoundChoice,
    choice_b: RoundChoice,
    noise: int,
    noise_draw: int,
    coin_a: bool,
    coin_b: bool,
) -> PrivateRound {
    PrivateRound {
        round: Round { choices: (choice_a, choice_b) },
        has_noise: noise_draw < noise,
        round_with_noise: Round {
            choices: (RoundChoice::of_coin(coin_a), RoundChoice::of_coin(coin_b)),
        },
    }
}

/// Puts a round together from the two choices and the draws of the noise
/// channel.
pub fn make_private_round(
    choice_a: RoundChoice,
    choice_b: RoundChoice,
    noise: i32,
    noise_draw: i32,
    coin_a: bool,
    coin_b: bool,
) -> (round: PrivateRound)
    ensures
        round == private_round_of(
            choice_a,
            choice_b,
            noise as int,
            noise_draw as int,
            coin_a,
            coin_b,
        ),
{
    PrivateRound {
        round: Round { choices: (choice_a, choice_b) },
        has_noise: noise_draw < noise,
        round_with_noise: Round {
            choices: (RoundChoice::from_coin(coin_a), RoundChoice::from_coin(coin_b)),
        },
    }
}

/// Whether `round` can come after `earlier` in a match of policy `a` against
/// policy `b` at noise level `noise`, a percentage. Each side has answered
/// its own record of the earlier rounds, and of nothing else. At a level of
/// 0 or less no round is corrupted, at 100 or more every round is.
pub open spec fn can_follow<A: Strategy, B: Strategy>(
    a: A,
    b: B,
    noise: int,
    earlier: Seq<PrivateRound>,
    round: PrivateRound,
) -> bool {
    &&& a.allows(history_of_a(earlier), round.round.choices.0)
    &&& b.allows(history_of_b(earlier), round.round.choices.1)
    &&& noise <= 0 ==> !round.has_noise
    &&& noise >= 100 ==> round.has_noise
}

/// Whether `rounds` can be the course of a match of policy `a` against
/// policy `b` at noise level `noise`: every round can follow those before
/// it.
pub open spec fn is_course_of_match<A: Strategy, B: Strategy>(
    a: A,
    b: B,
    noise: int,
    rounds: Seq<PrivateRound>,
) -> bool {
    forall|i: int|
        0 <= i < rounds.len() ==> can_follow(a, b, noise, #[trigger] rounds.take(i), rounds[i])
}

/// Whether `scores` can be the scores of a match of policy `a` against
/// policy `b` at noise level `noise`: the points of a course of
/// [`MATCH_ROUNDS`] rounds.
pub open spec fn is_match_score<A: Strategy, B: Strategy>(
    a: A,
    b: B,
    noise: int,
    scores: (int, int),
) -> bool {
    exists|rounds: Seq<PrivateRound>|
        rounds.len() == MATCH_ROUNDS && #[trigger] is_course_of_match(a, b, noise, rounds)
            && scores == (points_of_a(rounds), points_of_b(rounds))
}

/// Player A's record of the rounds so far.
pub fn history_for_a(rounds: &Vec<PrivateRound>) -> (history: Vec<Round>)
    ensures
        history@ == history_of_a(rounds@),
{
    let mut history: Vec<Round> = Vec::new();
    let mut i: usize = 0;
    while i < rounds.len()
        invariant
            i <= rounds.len(),
            history@.len() == i,
            forall|j: int| 0 <= j < i ==> history@[j] == (#[trigger] rounds@[j]).seen_by_a(),
        decreases rounds.len() - i,
    {
        history.push(rounds[i].get_round_history());
        i = i + 1;
    }
    history
}

/// Player B's record of the rounds so far.
pub fn history_for_b(rounds: &Vec<PrivateRound>) -> (history: Vec<Round>)
    ensures
        history@ == history_of_b(rounds@),
{
    let mut history: Vec<Round> = Vec::new();
    let mut i: usize = 0;
    while i < rounds.len()
        invariant
            i <= rounds.len(),
            history@.len() == i,
            forall|j: int| 0 <= j < i ==> history@[j] == (#[trigger] rounds@[j]).seen_by_b(),
        decreases rounds.len() - i,
    {
        history.push(rounds[i].get_round_history_for_b());
        i = i + 1;
    }
    history
}

/// Plays one round. Each player is asked with its own record of
/// `private_rounds`; then the noise channel draws for the new round.
pub fn play_round<A: Strategy, B: Strategy, R: RandomSource>(
    players: (&Player<A>, &Player<B>),
    private_rounds: &Vec<PrivateRound>,
    noise: i32,
    random: &mut R,
) -> (round: PrivateRound)
    ensures
        can_follow(players.0.strategy, players.1.strategy, noise as int, private_rounds@, round),
{
    let seen_by_a = history_for_a(private_rounds);
    let choice_a = players.0.strategy.decide(&seen_by_a, random);
    let seen_by_b = history_for_b(private_rounds);
    let choice_b = players.1.strategy.decide(&seen_by_b, random);
    let noise_draw = random.percent();
    let coin_a = random.coin();
    let coin_b = random.coin();
    make_private_round(choice_a, choice_b, noise, noise_draw, coin_a, coin_b)
}

/// Plays the rounds of a match, one after the other.
pub fn play_rounds<A: Strategy, B: Strategy, R: RandomSource>(
    players: (&Player<A>, &Player<B>),
    noise: i32,
    random: &mut R,
) -> (rounds: Vec<PrivateRound>)
    ensures
        rounds@.len() == MATCH_ROUNDS,
        is_course_of_match(players.0.strategy, players.1.strategy, noise as int, rounds@),
{
    let mut rounds: Vec<PrivateRound> = Vec::new();
    while rounds.len() < MATCH_ROUNDS
        invariant
            rounds@.len() <= MATCH_ROUNDS,
            is_course_of_match(players.0.strategy, players.1.strategy, noise as int, rounds@),
        decreases MATCH_ROUNDS - rounds@.len(),
    {
        let ghost before = rounds@;
        let round = play_round(players, &rounds, noise, random);
        rounds.push(round);
        proof {
            assert forall|i: int| 0 <= i < rounds@.len() implies can_follow(
                players.0.strategy,
                players.1.strategy,
                noise as int,
                #[trigger] rounds@.take(i),
                rounds@[i],
            ) by {
                if i < before.len() {
                    assert(rounds@.take(i) == before.take(i));
                } else {
                    assert(rounds@.take(i) == before);
                }
            }
        }
    }
    rounds
}

/// Plays a match and gives the score of each side.
pub fn play_match<A: Strategy, B: Strategy, R: RandomSource>(
    players: (&Player<A>, &Player<B>),
    noise: i32,
    random: &mut R,
) -> (scores: (i32, i32))
    ensures
        is_match_score(
            players.0.strategy,
            players.1.strategy,
            noise as int,
            (scores.0 as int, scores.1 as int),
        ),
        0 <= scores.0 <= 5 * MATCH_ROUNDS,
        0 <= scores.1 <= 5 * MATCH_ROUNDS,
        2 * MATCH_ROUNDS <= scores.0 + scores.1 <= 6 * MATCH_ROUNDS,
{
    let rounds = play_rounds(players, noise, random);
    proof {
        lemma_points_bounds(rounds@);
    }
    get_scores(rounds)
}

} // verus!
