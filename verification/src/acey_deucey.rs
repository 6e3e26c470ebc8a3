//! Acey-deucey: two posts are dealt face up, and a player bets that a third card
//! falls strictly between them.
use vstd::prelude::*;

use crate::cards::{DeckCard, Deck, Rank, ACE, HIGH_ACE, gen_deck_from, get_rank, rank_of};
use crate::decimal_text;
use crate::game::{
    CpuPersonality, Dir, Id, ModeCmd, Personality, Pressed, SkipState, setup_menu_next_hot,
    spec_setup_menu_next_hot, spec_starting_money_step, starting_money_step, next_funded_index,
    next_funded_seat, menu_left, menu_right, ACTION_KIND, MONEY_AMOUNT, MENU_KIND_ONE_PAST_MAX,
};
use crate::money::{
    Money, MoneyInner, MoneyMove, NonZeroMoneyInner, INITIAL_ANTE_AMOUNT, MIN_MONEY_UNIT, sat_add,
    sat_sub, min_inner, non_zero, amounts_sum, lemma_amounts_sum_update, lemma_amounts_sum_ge_element,
};
use crate::pot::money_amounts;
use crate::probability::{EvalCount, FIFTY_PERCENT, scaled_probability};

verus! {

broadcast use {
    crate::cards::Deck::deck_cards_len,
    vstd::array::group_array_axioms,
    crate::money::lemma_non_zero_view,
    crate::money::lemma_view_non_zero,
};

/// The two face-up cards that the third card must fall between.
pub type Posts = [DeckCard; 2];

/// In some sense any number of players could play, but there is a maximum:
/// each turn up to three cards may be dealt, so with more than seventeen
/// players the deck would need reshuffling every single round.
pub const MIN_PLAYERS: u8 = 2;
pub const MAX_PLAYERS: u8 = 17;

pub type HandIndex = u8;
pub const MAX_HAND_INDEX: u8 = 16;

/// A number of players: from 2 to 17.
#[derive(Copy, Clone, Debug, Default, PartialEq, Eq, Structural, PartialOrd, Ord)]
pub enum PlayerCount {
    #[default]
    Two,
    Three,
    Four,
    Five,
    Six,
    Seven,
    Eight,
    Nine,
    Ten,
    Eleven,
    Twelve,
    Thirteen,
    Fourteen,
    Fifteen,
    Sixteen,
    Seventeen,
}

impl PlayerCount {
    /// The number of players this stands for.
    pub open spec fn value(self) -> u8 {
        match self {
            PlayerCount::Two => 2,
            PlayerCount::Three => 3,
            PlayerCount::Four => 4,
            PlayerCount::Five => 5,
            PlayerCount::Six => 6,
            PlayerCount::Seven => 7,
            PlayerCount::Eight => 8,
            PlayerCount::Nine => 9,
            PlayerCount::Ten => 10,
            PlayerCount::Eleven => 11,
            PlayerCount::Twelve => 12,
            PlayerCount::Thirteen => 13,
            PlayerCount::Fourteen => 14,
            PlayerCount::Fifteen => 15,
            PlayerCount::Sixteen => 16,
            PlayerCount::Seventeen => 17,
        }
    }

    /// The count for `n` players, where PlayerCount has one.
    pub open spec fn of_value(n: u8) -> PlayerCount {
        match n {
            2 => PlayerCount::Two,
            3 => PlayerCount::Three,
            4 => PlayerCount::Four,
            5 => PlayerCount::Five,
            6 => PlayerCount::Six,
            7 => PlayerCount::Seven,
            8 => PlayerCount::Eight,
            9 => PlayerCount::Nine,
            10 => PlayerCount::Ten,
            11 => PlayerCount::Eleven,
            12 => PlayerCount::Twelve,
            13 => PlayerCount::Thirteen,
            14 => PlayerCount::Fourteen,
            15 => PlayerCount::Fifteen,
            16 => PlayerCount::Sixteen,
            17 => PlayerCount::Seventeen,
            _ => PlayerCount::Two,
        }
    }

    /// Every count stands for a number from 2 to 17, and no two counts for the same one.
    pub proof fn lemma_value(self, other: PlayerCount)
        ensures
            2 <= self.value() <= 17,
            PlayerCount::of_value(self.value()) == self,
            self.value() == other.value() ==> self == other,
    {
    }

    /// One more player, up to the maximum.
    pub fn saturating_add_1(self) -> (next: Self)
        ensures
            next.value() == if self.value() < 17 { (self.value() + 1) as u8 } else { 17u8 },
    {
        match self {
            PlayerCount::Two => PlayerCount::Three,
            PlayerCount::Three => PlayerCount::Four,
            PlayerCount::Four => PlayerCount::Five,
            PlayerCount::Five => PlayerCount::Six,
            PlayerCount::Six => PlayerCount::Seven,
            PlayerCount::Seven => PlayerCount::Eight,
            PlayerCount::Eight => PlayerCount::Nine,
            PlayerCount::Nine => PlayerCount::Ten,
            PlayerCount::Ten => PlayerCount::Eleven,
            PlayerCount::Eleven => PlayerCount::Twelve,
            PlayerCount::Twelve => PlayerCount::Thirteen,
            PlayerCount::Thirteen => PlayerCount::Fourteen,
            PlayerCount::Fourteen => PlayerCount::Fifteen,
            PlayerCount::Fifteen => PlayerCount::Sixteen,
            PlayerCount::Sixteen => PlayerCount::Seventeen,
            PlayerCount::Seventeen => PlayerCount::Seventeen,
        }
    }

    /// One less player, down to the minimum.
    pub fn saturating_sub_1(self) -> (next: Self)
        ensures
            next.value() == if self.value() > 2 { (self.value() - 1) as u8 } else { 2u8 },
    {
        match self {
            PlayerCount::Two => PlayerCount::Two,
            PlayerCount::Three => PlayerCount::Two,
            PlayerCount::Four => PlayerCount::Three,
            PlayerCount::Five => PlayerCount::Four,
            PlayerCount::Six => PlayerCount::Five,
            PlayerCount::Seven => PlayerCount::Six,
            PlayerCount::Eight => PlayerCount::Seven,
            PlayerCount::Nine => PlayerCount::Eight,
            PlayerCount::Ten => PlayerCount::Nine,
            PlayerCount::Eleven => PlayerCount::Ten,
            PlayerCount::Twelve => PlayerCount::Eleven,
            PlayerCount::Thirteen => PlayerCount::Twelve,
            PlayerCount::Fourteen => PlayerCount::Thirteen,
            PlayerCount::Fifteen => PlayerCount::Fourteen,
            PlayerCount::Sixteen => PlayerCount::Fifteen,
            PlayerCount::Seventeen => PlayerCount::Sixteen,
        }
    }

    /// The number of players, written in decimal.
    pub fn text(self) -> (text: &'static str)
        ensures
            text@ == decimal_text(self.value()),
    {
        match self {
            PlayerCount::Two => {
                proof {
                    reveal_strlit("2");
                }
                "2"
            },
            PlayerCount::Three => {
                proof {
                    reveal_strlit("3");
                }
                "3"
            },
            PlayerCount::Four => {
                proof {
                    reveal_strlit("4");
                }
                "4"
            },
            PlayerCount::Five => {
                proof {
                    reveal_strlit("5");
                }
                "5"
            },
            PlayerCount::Six => {
                proof {
                    reveal_strlit("6");
                }
                "6"
            },
            PlayerCount::Seven => {
                proof {
                    reveal_strlit("7");
                }
                "7"
            },
            PlayerCount::Eight => {
                proof {
                    reveal_strlit("8");
                }
                "8"
            },
            PlayerCount::Nine => {
                proof {
                    reveal_strlit("9");
                }
                "9"
            },
            PlayerCount::Ten => {
                proof {
                    reveal_strlit("10");
                }
                "10"
            },
            PlayerCount::Eleven => {
                proof {
                    reveal_strlit("11");
                }
                "11"
            },
            PlayerCount::Twelve => {
                proof {
                    reveal_strlit("12");
                }
                "12"
            },
            PlayerCount::Thirteen => {
                proof {
                    reveal_strlit("13");
                }
                "13"
            },
            PlayerCount::Fourteen => {
                proof {
                    reveal_strlit("14");
                }
                "14"
            },
            PlayerCount::Fifteen => {
                proof {
                    reveal_strlit("15");
                }
                "15"
            },
            PlayerCount::Sixteen => {
                proof {
                    reveal_strlit("16");
                }
                "16"
            },
            PlayerCount::Seventeen => {
                proof {
                    reveal_strlit("17");
                }
                "17"
            },
        }
    }

    pub fn u8(self) -> (n: u8)
        ensures
            n == self.value(),
    {
        match self {
            PlayerCount::Two => 2,
            PlayerCount::Three => 3,
            PlayerCount::Four => 4,
            PlayerCount::Five => 5,
            PlayerCount::Six => 6,
            PlayerCount::Seven => 7,
            PlayerCount::Eight => 8,
            PlayerCount::Nine => 9,
            PlayerCount::Ten => 10,
            PlayerCount::Eleven => 11,
            PlayerCount::Twelve => 12,
            PlayerCount::Thirteen => 13,
            PlayerCount::Fourteen => 14,
            PlayerCount::Fifteen => 15,
            PlayerCount::Sixteen => 16,
            PlayerCount::Seventeen => 17,
        }
    }

    pub fn usize(self) -> (n: usize)
        ensures
            n == self.value(),
    {
        self.u8() as usize
    }

    /// The count for `byte` players, if there is one.
    pub fn from_u8(byte: u8) -> (count: Result<PlayerCount, &'static str>)
        ensures
            2 <= byte <= 17 ==> count == Ok::<PlayerCount, &'static str>(PlayerCount::of_value(byte)),
            byte < 2 ==> count == Err::<PlayerCount, &'static str>("player count was too small"),
            byte > 17 ==> count == Err::<PlayerCount, &'static str>("player count was too big"),
    {
        match byte {
            0 | 1 => Err("player count was too small"),
            2 => Ok(PlayerCount::Two),
            3 => Ok(PlayerCount::Three),
            4 => Ok(PlayerCount::Four),
            5 => Ok(PlayerCount::Five),
            6 => Ok(PlayerCount::Six),
            7 => Ok(PlayerCount::Seven),
            8 => Ok(PlayerCount::Eight),
            9 => Ok(PlayerCount::Nine),
            10 => Ok(PlayerCount::Ten),
            11 => Ok(PlayerCount::Eleven),
            12 => Ok(PlayerCount::Twelve),
            13 => Ok(PlayerCount::Thirteen),
            14 => Ok(PlayerCount::Fourteen),
            15 => Ok(PlayerCount::Fifteen),
            16 => Ok(PlayerCount::Sixteen),
            17 => Ok(PlayerCount::Seventeen),
            _ => Err("player count was too big"),
        }
    }

}


impl TryFrom<u8> for PlayerCount {
    type Error = &'static str;

    fn try_from(byte: u8) -> (count: Result<PlayerCount, &'static str>) {
        PlayerCount::from_u8(byte)
    }
}

impl vstd::std_specs::convert::TryFromSpecImpl<u8> for PlayerCount {
    open spec fn obeys_try_from_spec() -> bool {
        true
    }

    open spec fn try_from_spec(byte: u8) -> Result<PlayerCount, &'static str> {
        if byte < 2 {
            Err("player count was too small")
        } else if byte <= 17 {
            Ok(PlayerCount::of_value(byte))
        } else {
            Err("player count was too big")
        }
    }
}


/// A rank where an ace may count high, as `HIGH_ACE`.
pub type HighLowRank = Rank;

/// Whether an ace counts as the lowest or the highest card.
#[derive(Clone, Copy, Debug, Default, PartialEq, Eq, Structural)]
pub enum HighLow {
    #[default]
    Low,
    High,
}

/// The rank of a post: an ace counts high where `high` says so.
pub open spec fn post_rank(card: DeckCard, high: bool) -> HighLowRank {
    if rank_of(card) == ACE && high {
        HIGH_ACE
    } else {
        rank_of(card)
    }
}

/// The ranks of the two posts. An ace as the first post counts as the player
/// chose; an ace as the second post always counts high.
pub open spec fn spec_post_ranks(posts: Posts, first_post: HighLow) -> (HighLowRank, HighLowRank) {
    (post_rank(posts[0], first_post == HighLow::High), post_rank(posts[1], true))
}

pub fn get_ranks(posts: Posts, first_post: HighLow) -> (ranks: [HighLowRank; 2])
    ensures
        ranks@[0] == spec_post_ranks(posts, first_post).0,
        ranks@[1] == spec_post_ranks(posts, first_post).1,
{
    let mut first_rank = get_rank(posts[0]);
    if first_rank == ACE {
        match first_post {
            HighLow::High => {
                first_rank = HIGH_ACE;
            },
            HighLow::Low => {},
        }
    }
    let mut second_rank = get_rank(posts[1]);
    // The second post is always high.
    if second_rank == ACE {
        second_rank = HIGH_ACE;
    }
    [first_rank, second_rank]
}

/// Deals the two posts off the top of a freshly shuffled deck. Should the deck
/// not hold two cards, the posts are two zero cards.
/// Whether `posts` and `after` are what dealing the posts off `deck` gives:
/// its next two cards, or two zero cards where it does not hold two.
pub open spec fn dealt(deck: Deck, posts: Posts, after: Deck) -> bool {
    &&& after.cards() == deck.cards()
    &&& deck.drawn() + 2 <= 52 ==> posts@ == seq![
        deck.cards()[deck.drawn() as int],
        deck.cards()[deck.drawn() + 1 as int],
    ] && after.drawn() == deck.drawn() + 2
    &&& deck.drawn() + 2 > 52 ==> posts@ == seq![0u8, 0u8] && after.drawn() == if deck.drawn() < 52 {
        52
    } else {
        deck.drawn()
    }
}

/// Deals the two posts off the top of a freshly shuffled deck. Should the deck
/// not hold two cards, the posts are two zero cards.
pub fn deal(deck: Deck) -> (result: (Posts, Deck))
    ensures
        dealt(deck, result.0, result.1),
{
    let mut deck = deck;
    let posts: Posts = [0, 0];
    let card1 = deck.draw();
    let card2 = deck.draw();
    match (card1, card2) {
        (Some(card1), Some(card2)) => {
            let posts = [card1, card2];
            assert(posts@ =~= seq![card1, card2]);
            (posts, deck)
        },
        _ => {
            assert(posts@ =~= seq![0u8, 0u8]);
            (posts, deck)
        },
    }
}

/// What a player does with the posts.
#[derive(Clone, Copy, Debug, PartialEq, Eq, Structural)]
pub enum Action {
    Pass,
    Bet(NonZeroMoneyInner),
    Burn(NonZeroMoneyInner),
}

/// What a player must pay instead of betting when the posts are connectors.
pub fn connectors_amount() -> (amount: NonZeroMoneyInner)
    ensures
        amount@ == MIN_MONEY_UNIT,
{
    NonZeroMoneyInner::min_money_unit()
}

/// What a player must pay instead of betting when the posts are a pair.
pub fn pair_amount() -> (amount: NonZeroMoneyInner)
    ensures
        amount@ == 2 * MIN_MONEY_UNIT,
{
    NonZeroMoneyInner::min_money_unit().saturating_add(MIN_MONEY_UNIT)
}

/// The kind of action chosen in the menu.
#[derive(Copy, Clone, Debug, Default, Eq, PartialEq, Structural)]
pub enum ActionKind {
    #[default]
    Pass,
    Bet,
}

impl ActionKind {
    pub fn text(self) -> (text: &'static [u8])
        ensures
            self == ActionKind::Pass ==> text@ == seq!['p' as u8, 'a' as u8, 's' as u8, 's' as u8],
            self == ActionKind::Bet ==> text@ == seq!['b' as u8, 'e' as u8, 't' as u8],
    {
        match self {
            ActionKind::Pass => {
                let t: &'static [u8] = &[112, 97, 115, 115];
                assert(t@ =~= seq!['p' as u8, 'a' as u8, 's' as u8, 's' as u8]);
                t
            },
            ActionKind::Bet => {
                let t: &'static [u8] = &[98, 101, 116];
                assert(t@ =~= seq!['b' as u8, 'e' as u8, 't' as u8]);
                t
            },
        }
    }

    /// With two kinds, going up the menu swaps them.
    pub fn next_up(self) -> (next: Self)
        ensures
            next != self,
    {
        match self {
            ActionKind::Pass => ActionKind::Bet,
            ActionKind::Bet => ActionKind::Pass,
        }
    }

    /// With two kinds, going down the menu swaps them.
    pub fn next_down(self) -> (next: Self)
        ensures
            next != self,
    {
        match self {
            ActionKind::Pass => ActionKind::Bet,
            ActionKind::Bet => ActionKind::Pass,
        }
    }
}

impl HighLow {
    pub fn next_up(self) -> (next: HighLow)
        ensures
            next != self,
    {
        match self {
            HighLow::High => HighLow::Low,
            HighLow::Low => HighLow::High,
        }
    }

    pub fn next_down(self) -> (next: HighLow)
        ensures
            next != self,
    {
        match self {
            HighLow::High => HighLow::Low,
            HighLow::Low => HighLow::High,
        }
    }

    pub fn text(self) -> (text: &'static [u8])
        ensures
            self == HighLow::High ==> text@ == seq!['h' as u8, 'i' as u8, 'g' as u8, 'h' as u8],
            self == HighLow::Low ==> text@ == seq!['l' as u8, 'o' as u8, 'w' as u8],
    {
        match self {
            HighLow::High => {
                let t: &'static [u8] = &[104, 105, 103, 104];
                assert(t@ =~= seq!['h' as u8, 'i' as u8, 'g' as u8, 'h' as u8]);
                t
            },
            HighLow::Low => {
                let t: &'static [u8] = &[108, 111, 119];
                assert(t@ =~= seq!['l' as u8, 'o' as u8, 'w' as u8]);
                t
            },
        }
    }
}

/// Whether an ace as the first post has been declared high or low yet.
#[derive(Clone, Copy, Debug, Default, PartialEq, Eq, Structural)]
pub enum Ace {
    #[default]
    Undecided,
    Decided(HighLow),
}

/// The state of the menu of the player whose turn it is.
#[derive(Clone, Copy, Debug, PartialEq, Eq, Structural)]
pub struct MenuSelection {
    pub action_kind: ActionKind,
    pub bet: NonZeroMoneyInner,
    pub ace: Ace,
    pub temp_high_low: HighLow,
    pub cpu_passed: bool,
}

impl Default for MenuSelection {
    fn default() -> (selection: Self)
        ensures
            selection.action_kind == ActionKind::Pass,
            selection.bet@ == MIN_MONEY_UNIT,
            selection.ace == Ace::Undecided,
            selection.temp_high_low == HighLow::Low,
            !selection.cpu_passed,
    {
        MenuSelection {
            action_kind: ActionKind::Pass,
            bet: NonZeroMoneyInner::min_money_unit(),
            ace: Ace::Undecided,
            temp_high_low: HighLow::Low,
            cpu_passed: false,
        }
    }
}

/// The first round limits bets to half the pot; later rounds to the whole pot.
#[derive(Clone, Copy, Debug, Default, PartialEq, Eq, Structural)]
pub enum Round {
    #[default]
    One,
    AfterOne,
}

/// The seats at the table.
#[derive(Debug)]
pub struct Seats {
    pub moneys: [Money; 17],
    pub personalities: [Personality; 17],
    pub skip: SkipState,
}

impl Default for Seats {
    fn default() -> (seats: Self)
        ensures
            forall|i: int| 0 <= i < 17 ==> (#[trigger] seats.moneys@[i])@ == 0,
            forall|i: int| 0 <= i < 17 ==> #[trigger] seats.personalities@[i] is None,
            seats.skip == SkipState::Watch,
    {
        Seats {
            moneys: Money::array_from_inner_array([0; 17]),
            personalities: [None; 17],
            skip: SkipState::Watch,
        }
    }
}

/// Everything about a turn in progress.
#[derive(Debug)]
pub struct StateBundle {
    pub deck: Deck,
    pub posts: Posts,
    pub current: HandIndex,
    pub pot: Money,
    pub player_count: PlayerCount,
    pub selection: MenuSelection,
    pub round: Round,
}

/// Where the table is in a game.
#[derive(Debug)]
pub enum TableState {
    Undealt { player_count: PlayerCount, starting_money: MoneyInner },
    DealtPosts { bundle: StateBundle },
    Reveal { bundle: StateBundle, third: DeckCard, bet: NonZeroMoneyInner },
}

impl Default for TableState {
    fn default() -> (state: Self)
        ensures
            state == (TableState::Undealt { player_count: PlayerCount::Two, starting_money: 500 }),
    {
        TableState::Undealt { player_count: PlayerCount::Two, starting_money: 500 }
    }
}

/// An acey-deucey table: its seats and where the game is.
#[derive(Debug)]
pub struct Table {
    pub seats: Seats,
    pub state: TableState,
}

impl Default for Table {
    fn default() -> (table: Self)
        ensures
            forall|i: int| 0 <= i < 17 ==> (#[trigger] table.seats.moneys@[i])@ == 0,
            forall|i: int| 0 <= i < 17 ==> #[trigger] table.seats.personalities@[i] is None,
            table.seats.skip == SkipState::Watch,
            table.state == (TableState::Undealt { player_count: PlayerCount::Two, starting_money: 500 }),
    {
        Table { seats: Seats::default(), state: TableState::default() }
    }
}

/// Whether the third card wins the bet.
#[derive(Clone, Copy, Debug, PartialEq, Eq, Structural)]
pub enum Outcome {
    Loss,
    Win,
}

/// Whether `third` falls strictly between the posts, an undecided ace counting low.
pub open spec fn wins(posts: Posts, third: DeckCard, ace: Ace) -> bool {
    let high_low = match ace {
        Ace::Undecided => HighLow::Low,
        Ace::Decided(high_low) => high_low,
    };
    let (r0, r1) = spec_post_ranks(posts, high_low);
    let low = if r0 <= r1 { r0 } else { r1 };
    let high = if r0 <= r1 { r1 } else { r0 };
    low < rank_of(third) && rank_of(third) < high
}

pub fn calc_outcome(posts: Posts, third: DeckCard, ace: Ace) -> (outcome: Outcome)
    ensures
        outcome == if wins(posts, third, ace) {
            Outcome::Win
        } else {
            Outcome::Loss
        },
{
    let ranks = get_ranks(
        posts,
        match ace {
            Ace::Undecided => HighLow::Low,
            Ace::Decided(high_low) => high_low,
        },
    );
    let min_rank = if ranks[0] <= ranks[1] {
        ranks[0]
    } else {
        ranks[1]
    };
    let max_rank = if ranks[0] <= ranks[1] {
        ranks[1]
    } else {
        ranks[0]
    };
    let third_rank = get_rank(third);
    if min_rank < third_rank && third_rank < max_rank {
        Outcome::Win
    } else {
        Outcome::Loss
    }
}

/// How the posts relate: a pair and connectors cannot be bet on.
#[derive(Clone, Copy, Debug, PartialEq, Eq, Structural)]
pub enum PostsKind {
    Open,
    Connectors,
    Pair,
}

pub open spec fn spec_posts_kind(posts: Posts, high_low: HighLow) -> PostsKind {
    let (r0, r1) = spec_post_ranks(posts, high_low);
    if r0 == r1 {
        PostsKind::Pair
    } else if r0 == r1 + 1 || r1 == r0 + 1 {
        PostsKind::Connectors
    } else {
        PostsKind::Open
    }
}

/// How far apart the ranks of the posts are.
pub open spec fn post_gap(posts: Posts, high_low: HighLow) -> int {
    let r0 = spec_post_ranks(posts, high_low).0 as int;
    let r1 = spec_post_ranks(posts, high_low).1 as int;
    if r0 >= r1 {
        r0 - r1
    } else {
        r1 - r0
    }
}

/// Whether rank `r` lies strictly between the ranks of the posts.
pub open spec fn rank_between(posts: Posts, high_low: HighLow, r: int) -> bool {
    let r0 = spec_post_ranks(posts, high_low).0 as int;
    let r1 = spec_post_ranks(posts, high_low).1 as int;
    (r0 < r && r < r1) || (r1 < r && r < r0)
}

/// Posts of equal rank are a pair, posts whose ranks differ by exactly one are
/// connectors, and posts whose ranks differ by two or more are open: exactly
/// then some rank lies strictly between them, for a third card to fall on.
pub proof fn lemma_posts_kind_by_gap(posts: Posts, high_low: HighLow)
    ensures
        (spec_posts_kind(posts, high_low) == PostsKind::Pair) == (post_gap(posts, high_low) == 0),
        (spec_posts_kind(posts, high_low) == PostsKind::Connectors) == (post_gap(posts, high_low)
            == 1),
        (spec_posts_kind(posts, high_low) == PostsKind::Open) == (post_gap(posts, high_low) >= 2),
        (spec_posts_kind(posts, high_low) == PostsKind::Open) == (exists|r: int|
            #[trigger] rank_between(posts, high_low, r)),
{
    let r0 = spec_post_ranks(posts, high_low).0 as int;
    let r1 = spec_post_ranks(posts, high_low).1 as int;
    if post_gap(posts, high_low) >= 2 {
        let r = if r0 < r1 {
            r0 + 1
        } else {
            r1 + 1
        };
        assert(rank_between(posts, high_low, r));
    }
}

pub fn posts_kind(posts: Posts, high_low: HighLow) -> (kind: PostsKind)
    ensures
        kind == spec_posts_kind(posts, high_low),
        (kind == PostsKind::Pair) == (post_gap(posts, high_low) == 0),
        (kind == PostsKind::Connectors) == (post_gap(posts, high_low) == 1),
        (kind == PostsKind::Open) == (post_gap(posts, high_low) >= 2),
{
    proof {
        lemma_posts_kind_by_gap(posts, high_low);
    }
    let ranks = get_ranks(posts, high_low);
    if ranks[0] == ranks[1] {
        PostsKind::Pair
    } else if ranks[0] == ranks[1] + 1 || ranks[1] == ranks[0] + 1 {
        PostsKind::Connectors
    } else {
        PostsKind::Open
    }
}


/// Whether the menu is as it is at the start of a turn.
pub open spec fn is_fresh_selection(selection: MenuSelection) -> bool {
    &&& selection.action_kind == ActionKind::Pass
    &&& selection.bet@ == MIN_MONEY_UNIT
    &&& selection.ace == Ace::Undecided
    &&& selection.temp_high_low == HighLow::Low
    &&& !selection.cpu_passed
}

/// The seat whose turn follows `previous`: the next one around the table that
/// still has money.
pub fn next_current(moneys: &[Money; 17], previous: HandIndex, player_count: PlayerCount) -> (next:
    HandIndex)
    requires
        previous < player_count.value(),
    ensures
        next == next_funded_seat(money_amounts(moneys@), previous as int, player_count.value() as int),
        next < player_count.value(),
{
    proof {
        player_count.lemma_value(player_count);
    }
    next_funded_index(moneys, previous, player_count.u8())
}

/// What an ante of `INITIAL_ANTE_AMOUNT` from each of the first `n` amounts
/// collects: all of an amount that is smaller.
pub open spec fn antes_total(amounts: Seq<MoneyInner>, n: nat) -> int
    decreases n,
{
    if n == 0 {
        0
    } else {
        antes_total(amounts, (n - 1) as nat) + min_inner(amounts[n - 1], INITIAL_ANTE_AMOUNT)
    }
}

proof fn lemma_antes_total_bound(amounts: Seq<MoneyInner>, n: nat)
    ensures
        0 <= antes_total(amounts, n) <= n * INITIAL_ANTE_AMOUNT,
    decreases n,
{
    if n > 0 {
        lemma_antes_total_bound(amounts, (n - 1) as nat);
    }
}

/// Whether `table` is the game that `Table::selected` sets up from seats with
/// `amounts`: everyone in the game has paid the ante into the pot, seat 0 is the person and every other
/// seat in the game the computer, the posts came off `deck`, and `current`
/// starts.
pub open spec fn is_set_up(
    player_count: PlayerCount,
    amounts: Seq<MoneyInner>,
    deck: Deck,
    current: HandIndex,
    table: Table,
) -> bool {
    &&& forall|i: int|
        0 <= i < player_count.value() ==> (#[trigger] table.seats.moneys@[i])@ == sat_sub(
            amounts[i],
            INITIAL_ANTE_AMOUNT,
        )
    &&& forall|i: int|
        player_count.value() <= i < 17 ==> (#[trigger] table.seats.moneys@[i])@ == amounts[i]
    &&& table.seats.personalities@[0] is None
    &&& forall|i: int|
        1 <= i < player_count.value() ==> #[trigger] table.seats.personalities@[i] == Some(
            CpuPersonality {},
        )
    &&& forall|i: int|
        player_count.value() <= i < 17 ==> #[trigger] table.seats.personalities@[i] is None
    &&& table.seats.skip == SkipState::Watch
    &&& match table.state {
        TableState::DealtPosts { bundle } => {
            &&& bundle.pot@ == antes_total(amounts, player_count.value() as nat)
            &&& amounts_sum(money_amounts(table.seats.moneys@)) + bundle.pot@ == amounts_sum(
                amounts,
            )
            &&& dealt(deck, bundle.posts, bundle.deck)
            &&& bundle.current == current
            &&& bundle.player_count == player_count
            &&& bundle.round == Round::One
            &&& is_fresh_selection(bundle.selection)
        },
        _ => false,
    }
}

impl Table {
    /// Sets up a game: everyone in the game pays the ante into the pot, seat 0
    /// is the person and every other seat the computer, the posts come off the
    /// shuffled `deck`, and `current` starts.
    pub fn selected(player_count: PlayerCount, moneys: [Money; 17], deck: Deck, current: HandIndex) -> (table:
        Table)
        requires
            current < player_count.value(),
        ensures
            seat_in_range(table.state),
            is_set_up(player_count, money_amounts(moneys@), deck, current, table),
    {
        proof {
            player_count.lemma_value(player_count);
        }
        let ghost start = money_amounts(moneys@);
        let mut moneys = moneys;
        let mut pot = Money::zero();
        let count = player_count.usize();
        let mut i: usize = 0;
        while i < count
            invariant
                count == player_count.value(),
                2 <= count <= 17,
                i <= count,
                start.len() == 17,
                forall|j: int| 0 <= j < i ==> (#[trigger] moneys@[j])@ == sat_sub(start[j], INITIAL_ANTE_AMOUNT),
                forall|j: int| i <= j < 17 ==> (#[trigger] moneys@[j])@ == start[j],
                pot@ == antes_total(start, i as nat),
                amounts_sum(money_amounts(moneys@)) + pot@ == amounts_sum(start),
            decreases count - i,
        {
            proof {
                lemma_antes_total_bound(start, i as nat);
            }
            let ghost before = money_amounts(moneys@);
            MoneyMove {
                from: &mut moneys[i],
                to: &mut pot,
                amount: NonZeroMoneyInner::initial_ante_amount(),
            }.perform();
            proof {
                assert(money_amounts(moneys@) =~= before.update(i as int, moneys@[i as int]@));
                lemma_amounts_sum_update(before, i as int, moneys@[i as int]@);
            }
            i += 1;
        }
        let mut personalities: [Personality; 17] = [None; 17];
        // Seat 0 is the person; every other seat in the game is the computer.
        let mut i: usize = 1;
        while i < count
            invariant
                count == player_count.value(),
                2 <= count <= 17,
                1 <= i <= count,
                personalities@[0] is None,
                forall|j: int| 1 <= j < i ==> #[trigger] personalities@[j] == Some(CpuPersonality {}),
                forall|j: int| i <= j < 17 ==> #[trigger] personalities@[j] is None,
            decreases count - i,
        {
            personalities[i] = Some(CpuPersonality {});
            i += 1;
        }
        let (posts, deck_after) = deal(deck);
        Table {
            seats: Seats { moneys, personalities, skip: SkipState::Watch },
            state: TableState::DealtPosts {
                bundle: StateBundle {
                    deck: deck_after,
                    posts,
                    current,
                    pot,
                    player_count,
                    selection: MenuSelection::default(),
                    round: Round::One,
                },
            },
        }
    }
}


/// How many cards below `n`, other than the posts, would win against them.
pub open spec fn winning_thirds(posts: Posts, ace: Ace, n: nat) -> nat
    decreases n,
{
    if n == 0 {
        0
    } else {
        let c = (n - 1) as u8;
        winning_thirds(posts, ace, (n - 1) as nat) + if c != posts[0] && c != posts[1] && wins(
            posts,
            c,
            ace,
        ) {
            1nat
        } else {
            0nat
        }
    }
}

/// How many cards below `n` are not one of the posts.
pub open spec fn unseen_cards(posts: Posts, n: nat) -> nat
    decreases n,
{
    if n == 0 {
        0
    } else {
        let c = (n - 1) as u8;
        unseen_cards(posts, (n - 1) as nat) + if c != posts[0] && c != posts[1] {
            1nat
        } else {
            0nat
        }
    }
}

/// Whether the computer bets on open posts: when the cards of the deck it has
/// not seen win at least half of the time.
pub open spec fn cpu_bets(posts: Posts, ace: Ace) -> bool {
    scaled_probability(winning_thirds(posts, ace, 52) as u32, unseen_cards(posts, 52) as u32)
        >= FIFTY_PERCENT
}

/// What the computer does with open posts: bet the initial ante when it is at
/// least as likely to win as to lose, and pass otherwise.
pub fn cpu_open_action(posts: Posts, ace: Ace) -> (action: Action)
    ensures
        action == if cpu_bets(posts, ace) {
            Action::Bet(non_zero(INITIAL_ANTE_AMOUNT))
        } else {
            Action::Pass
        },
{
    let mut eval_count = EvalCount { total: 0, win_count: 0 };
    let mut card: u8 = 0;
    while card < 52
        invariant
            card <= 52,
            eval_count.total == unseen_cards(posts, card as nat),
            eval_count.win_count == winning_thirds(posts, ace, card as nat),
            eval_count.win_count <= eval_count.total <= card,
            eval_count.total == card - (if posts[0] < card {
                1int
            } else {
                0int
            }) - (if posts[1] < card && posts[1] != posts[0] {
                1int
            } else {
                0int
            }),
        decreases 52 - card,
    {
        if card != posts[0] && card != posts[1] {
            eval_count.total += 1;
            if calc_outcome(posts, card, ace) == Outcome::Win {
                eval_count.win_count += 1;
            }
        }
        card += 1;
    }
    if eval_count.probability() >= FIFTY_PERCENT {
        Action::Bet(NonZeroMoneyInner::initial_ante_amount())
    } else {
        Action::Pass
    }
}

/// How the first post counts: `None` while an ace there has not been
/// declared high or low; low where it is not an ace.
pub open spec fn spec_first_post_high_low(posts: Posts, ace: Ace) -> Option<HighLow> {
    if rank_of(posts[0]) == ACE {
        match ace {
            Ace::Undecided => None,
            Ace::Decided(high_low) => Some(high_low),
        }
    } else {
        Some(HighLow::Low)
    }
}

pub fn first_post_high_low(posts: Posts, ace: Ace) -> (high_low: Option<HighLow>)
    ensures
        high_low == spec_first_post_high_low(posts, ace),
{
    if get_rank(posts[0]) == ACE {
        match ace {
            Ace::Undecided => None,
            Ace::Decided(high_low) => Some(high_low),
        }
    } else {
        Some(HighLow::Low)
    }
}

/// The action of the current seat this frame, once its first post counts as
/// `high_low`. The computer always acts; a person acts when they `submitted`
/// their menu. Connectors and a pair cannot be bet on: they burn a fixed amount.
pub open spec fn spec_turn_action(
    posts: Posts,
    high_low: HighLow,
    selection: MenuSelection,
    cpu: bool,
    submitted: bool,
) -> Option<Action> {
    match spec_posts_kind(posts, high_low) {
        PostsKind::Open => if cpu {
            Some(
                if cpu_bets(posts, selection.ace) {
                    Action::Bet(non_zero(INITIAL_ANTE_AMOUNT))
                } else {
                    Action::Pass
                },
            )
        } else if submitted {
            Some(
                if selection.action_kind == ActionKind::Pass {
                    Action::Pass
                } else {
                    Action::Bet(selection.bet)
                },
            )
        } else {
            None
        },
        PostsKind::Connectors => if cpu || submitted {
            Some(Action::Burn(non_zero(MIN_MONEY_UNIT)))
        } else {
            None
        },
        PostsKind::Pair => if cpu || submitted {
            Some(Action::Burn(non_zero((2 * MIN_MONEY_UNIT) as MoneyInner)))
        } else {
            None
        },
    }
}

pub fn turn_action(
    posts: Posts,
    high_low: HighLow,
    selection: MenuSelection,
    cpu: bool,
    submitted: bool,
) -> (action: Option<Action>)
    ensures
        action == spec_turn_action(posts, high_low, selection, cpu, submitted),
{
    match posts_kind(posts, high_low) {
        PostsKind::Open => {
            if cpu {
                Some(cpu_open_action(posts, selection.ace))
            } else if submitted {
                Some(
                    match selection.action_kind {
                        ActionKind::Pass => Action::Pass,
                        ActionKind::Bet => Action::Bet(selection.bet),
                    },
                )
            } else {
                None
            }
        },
        PostsKind::Connectors => {
            if cpu || submitted {
                Some(Action::Burn(connectors_amount()))
            } else {
                None
            }
        },
        PostsKind::Pair => {
            if cpu || submitted {
                Some(Action::Burn(pair_amount()))
            } else {
                None
            }
        },
    }
}

/// The bet after the limits: no more than the player has, and no more than the
/// pot limit (half the pot in the first round, the whole pot after). A limit
/// of nothing leaves the bet as it is.
pub open spec fn spec_clamp_bet(bet: MoneyInner, money: MoneyInner, pot: MoneyInner, round: Round) -> MoneyInner {
    let within_money = if bet > money && money != 0 {
        money
    } else {
        bet
    };
    let limit = match round {
        Round::One => pot / 2,
        Round::AfterOne => pot,
    };
    if within_money > limit && limit != 0 {
        limit
    } else {
        within_money
    }
}

pub fn clamp_bet(bet: NonZeroMoneyInner, money: MoneyInner, pot: MoneyInner, round: Round) -> (clamped:
    NonZeroMoneyInner)
    ensures
        clamped@ == spec_clamp_bet(bet@, money, pot, round),
{
    let mut bet = bet;
    // You can't bet more than you have.
    if bet.get() > money {
        if let Some(new_bet) = NonZeroMoneyInner::new(money) {
            bet = new_bet;
        }
    }
    let pot_limit = match round {
        Round::One => pot / 2,
        Round::AfterOne => pot,
    };
    // You can't bet more than the pot limit.
    if bet.get() > pot_limit {
        if let Some(new_bet) = NonZeroMoneyInner::new(pot_limit) {
            bet = new_bet;
        }
    }
    bet
}

/// The money on the table: the seats' and, where a turn is in progress, the pot.
pub open spec fn state_pot(state: TableState) -> int {
    match state {
        TableState::Undealt { .. } => 0,
        TableState::DealtPosts { bundle } => bundle.pot@ as int,
        TableState::Reveal { bundle, .. } => bundle.pot@ as int,
    }
}

/// Whether the seat whose turn it is, if any, is one of the seats in the game.
pub open spec fn seat_in_range(state: TableState) -> bool {
    match state {
        TableState::Undealt { .. } => true,
        TableState::DealtPosts { bundle } => bundle.current < bundle.player_count.value(),
        TableState::Reveal { bundle, .. } => bundle.current < bundle.player_count.value(),
    }
}

/// Whether a deck, or else the fresh deck, can give the posts of a new turn.
pub open spec fn can_deal_posts(deck: Deck, fresh: Option<Deck>) -> bool {
    deck.drawn() + 2 > 52 ==> fresh is Some
}

/// Whether `next` is the turn that follows `prev`, with `pot` in the pot: the
/// next seat with money plays two new posts, off the same deck while it holds
/// two cards and off `fresh` otherwise; the menu starts afresh and the first
/// round is over.
pub open spec fn follows(
    prev: StateBundle,
    moneys: Seq<MoneyInner>,
    fresh: Option<Deck>,
    pot: MoneyInner,
    next: StateBundle,
) -> bool {
    &&& next.current == next_funded_seat(moneys, prev.current as int, prev.player_count.value() as int)
    &&& next.current < next.player_count.value()
    &&& next.pot@ == pot
    &&& next.player_count == prev.player_count
    &&& is_fresh_selection(next.selection)
    &&& next.round == Round::AfterOne
    &&& if prev.deck.drawn() + 2 <= 52 {
        dealt(prev.deck, next.posts, next.deck)
    } else {
        dealt(fresh->0, next.posts, next.deck)
    }
}

/// The turn after `bundle`, carrying its pot over.
pub fn next_bundle(bundle: StateBundle, moneys: &[Money; 17], fresh: Option<Deck>) -> (next:
    StateBundle)
    requires
        bundle.current < bundle.player_count.value(),
        can_deal_posts(bundle.deck, fresh),
    ensures
        follows(bundle, money_amounts(moneys@), fresh, bundle.pot@, next),
{
    let current = next_current(moneys, bundle.current, bundle.player_count);
    let StateBundle { deck, pot, player_count, .. } = bundle;
    let (posts, deck) = if deck.has_two_left() {
        deal(deck)
    } else {
        match fresh {
            Some(fresh) => deal(fresh),
            None => deal(deck),
        }
    };
    StateBundle {
        deck,
        posts,
        current,
        pot,
        player_count,
        selection: MenuSelection::default(),
        round: Round::AfterOne,
    }
}


/// Whether the decks at hand can serve `action`: a bet needs a third card,
/// and a burn or a person's pass needs the posts of the next turn.
pub open spec fn can_serve(deck: Deck, fresh: Option<Deck>, action: Action, cpu: bool) -> bool {
    match action {
        Action::Bet(_) => deck.drawn() >= 52 ==> (fresh is Some && fresh->0.drawn() < 52),
        Action::Pass => !cpu ==> can_deal_posts(deck, fresh),
        Action::Burn(_) => can_deal_posts(deck, fresh),
    }
}

/// Whether `third` and `after` are what drawing the third card gives: the top
/// of `deck`, or of `fresh` where `deck` is used up.
pub open spec fn drew_third(deck: Deck, fresh: Option<Deck>, third: DeckCard, after: Deck) -> bool {
    if deck.drawn() < 52 {
        &&& third == deck.cards()[deck.drawn() as int]
        &&& after.cards() == deck.cards()
        &&& after.drawn() == deck.drawn() + 1
    } else {
        &&& third == fresh->0.cards()[fresh->0.drawn() as int]
        &&& after.cards() == fresh->0.cards()
        &&& after.drawn() == fresh->0.drawn() + 1
    }
}

/// Whether carrying out `action` for the current seat of `bundle` takes the
/// seats' amounts from `before` to `after` and the table to `state` (see `act`).
pub open spec fn acted(
    before: Seq<MoneyInner>,
    bundle: StateBundle,
    action: Action,
    cpu: bool,
    fresh: Option<Deck>,
    after: Seq<MoneyInner>,
    state: TableState,
) -> bool {
    (match action {
        Action::Pass => if cpu {
            &&& after == before
            &&& state == (TableState::DealtPosts {
                bundle: StateBundle {
                    selection: MenuSelection { cpu_passed: true, ..bundle.selection },
                    ..bundle
                },
            })
        } else {
            &&& after == before
            &&& state matches TableState::DealtPosts { bundle: next }
            &&& follows(bundle, before, fresh, bundle.pot@, next)
        },
        Action::Bet(bet) => {
            &&& after == before
            &&& state matches TableState::Reveal { bundle: revealed, third, bet: revealed_bet }
            &&& revealed_bet == bet
            &&& drew_third(bundle.deck, fresh, third, revealed.deck)
            &&& revealed == StateBundle { deck: revealed.deck, ..bundle }
        },
        Action::Burn(amount) => {
            let i = bundle.current as int;
            let burned = min_inner(before[i], amount@);
            &&& after == before.update(i, sat_sub(before[i], amount@))
            &&& state matches TableState::DealtPosts { bundle: next }
            &&& follows(
                bundle,
                after,
                fresh,
                sat_add(bundle.pot@, burned),
                next,
            )
        },
    })
}

/// Carries out the action of the current seat.
///
/// - The computer passing waits for the person to acknowledge it.
/// - A person passing hands the turn on.
/// - A bet draws the third card and reveals it.
/// - A burn moves the amount from the player to the pot and hands the turn on.
///
/// No money is made or lost, unless the amounts on the table together would
/// not fit in a `MoneyInner`.
pub fn act(seats: &mut Seats, bundle: StateBundle, action: Action, cpu: bool, fresh: Option<Deck>) -> (state:
    TableState)
    requires
        bundle.current < bundle.player_count.value(),
        can_serve(bundle.deck, fresh, action, cpu),
    ensures
        final(seats).personalities == old(seats).personalities,
        final(seats).skip == old(seats).skip,
        acted(
            money_amounts(old(seats).moneys@),
            bundle,
            action,
            cpu,
            fresh,
            money_amounts(final(seats).moneys@),
            state,
        ),
        amounts_sum(money_amounts(old(seats).moneys@)) + bundle.pot@ <= u32::MAX ==> amounts_sum(
            money_amounts(final(seats).moneys@),
        ) + state_pot(state) == amounts_sum(money_amounts(old(seats).moneys@)) + bundle.pot@,
{
    let ghost before = money_amounts(seats.moneys@);
    proof {
        bundle.player_count.lemma_value(bundle.player_count);
    }
    let mut bundle = bundle;
    match action {
        Action::Pass => {
            if cpu {
                bundle.selection.cpu_passed = true;
                TableState::DealtPosts { bundle }
            } else {
                let next = next_bundle(bundle, &seats.moneys, fresh);
                TableState::DealtPosts { bundle: next }
            }
        },
        Action::Bet(bet) => {
            let third = match bundle.deck.draw() {
                Some(third) => third,
                None => {
                    match fresh {
                        Some(fresh) => {
                            bundle.deck = fresh;
                            match bundle.deck.draw() {
                                Some(third) => third,
                                None => vstd::pervasive::unreached(),
                            }
                        },
                        None => vstd::pervasive::unreached(),
                    }
                },
            };
            TableState::Reveal { bundle, third, bet }
        },
        Action::Burn(amount) => {
            let i = bundle.current as usize;
            proof {
                lemma_amounts_sum_ge_element(before, i as int);
            }
            MoneyMove { from: &mut seats.moneys[i], to: &mut bundle.pot, amount }.perform();
            proof {
                assert(money_amounts(seats.moneys@) =~= before.update(i as int, seats.moneys@[i as int]@));
                lemma_amounts_sum_update(before, i as int, seats.moneys@[i as int]@);
            }
            let next = next_bundle(bundle, &seats.moneys, fresh);
            TableState::DealtPosts { bundle: next }
        },
    }
}

/// Whether settling the bet `bet` on `third` for the current seat of `bundle`
/// takes the seats' amounts from `before` to `after` and gives `result` (see
/// `settle`).
pub open spec fn settled(
    before: Seq<MoneyInner>,
    bundle: StateBundle,
    third: DeckCard,
    bet: NonZeroMoneyInner,
    fresh: Option<Deck>,
    after: Seq<MoneyInner>,
    result: (TableState, ModeCmd),
) -> bool {
    let i = bundle.current as int;
    let moved = if wins(bundle.posts, third, bundle.selection.ace) {
        min_inner(bundle.pot@, bet@)
    } else {
        min_inner(before[i], bet@)
    };
    let pot = if wins(bundle.posts, third, bundle.selection.ace) {
        sat_sub(bundle.pot@, bet@)
    } else {
        sat_add(bundle.pot@, moved)
    };
    &&& after == before.update(
        i,
        if wins(bundle.posts, third, bundle.selection.ace) {
            sat_add(before[i], moved)
        } else {
            sat_sub(before[i], bet@)
        },
    )
    &&& pot == 0 ==> result == (
        TableState::Undealt { player_count: PlayerCount::Two, starting_money: 500 },
        ModeCmd::FinishedRound,
    )
    &&& pot != 0 ==> result.1 == ModeCmd::NoOp
    &&& pot != 0 ==> (result.0 matches TableState::DealtPosts { bundle: next } && follows(
        bundle,
        after,
        fresh,
        pot,
        next,
    ))
}

/// Settles a revealed third card: a loss moves the bet from the player to the
/// pot, a win moves it from the pot to the player. An empty pot ends the game
/// (the table goes back to its setup, and the round is reported finished);
/// otherwise the turn is handed on.
///
/// No money is made or lost, unless the amounts on the table together would
/// not fit in a `MoneyInner`.
pub fn settle(
    seats: &mut Seats,
    bundle: StateBundle,
    third: DeckCard,
    bet: NonZeroMoneyInner,
    fresh: Option<Deck>,
) -> (result: (TableState, ModeCmd))
    requires
        bundle.current < bundle.player_count.value(),
        can_deal_posts(bundle.deck, fresh),
    ensures
        final(seats).personalities == old(seats).personalities,
        final(seats).skip == old(seats).skip,
        amounts_sum(money_amounts(old(seats).moneys@)) + bundle.pot@ <= u32::MAX ==> amounts_sum(
            money_amounts(final(seats).moneys@),
        ) + state_pot(result.0) == amounts_sum(money_amounts(old(seats).moneys@)) + bundle.pot@,
        settled(
            money_amounts(old(seats).moneys@),
            bundle,
            third,
            bet,
            fresh,
            money_amounts(final(seats).moneys@),
            result,
        ),
{
    let ghost before = money_amounts(seats.moneys@);
    proof {
        bundle.player_count.lemma_value(bundle.player_count);
    }
    let mut bundle = bundle;
    let i = bundle.current as usize;
    proof {
        lemma_amounts_sum_ge_element(before, i as int);
    }
    match calc_outcome(bundle.posts, third, bundle.selection.ace) {
        Outcome::Loss => {
            MoneyMove { from: &mut seats.moneys[i], to: &mut bundle.pot, amount: bet }.perform();
        },
        Outcome::Win => {
            MoneyMove { from: &mut bundle.pot, to: &mut seats.moneys[i], amount: bet }.perform();
        },
    }
    proof {
        assert(money_amounts(seats.moneys@) =~= before.update(i as int, seats.moneys@[i as int]@));
        lemma_amounts_sum_update(before, i as int, seats.moneys@[i as int]@);
    }
    if bundle.pot.as_inner() == 0 {
        (TableState::default(), ModeCmd::FinishedRound)
    } else {
        let next = next_bundle(bundle, &seats.moneys, fresh);
        (TableState::DealtPosts { bundle: next }, ModeCmd::NoOp)
    }
}


/// A person's setup menu this frame: `dir` moves the cursor, or changes the
/// player count or the starting money under it. Returns where the cursor goes.
pub fn undealt_menu(
    hot: Id,
    dir: Option<Dir>,
    player_count: &mut PlayerCount,
    starting_money: &mut MoneyInner,
) -> (next_hot: Option<Id>)
    ensures
        next_hot == spec_setup_menu_next_hot(hot, dir),
        final(player_count).value() == if hot == Id::PlayerCountSelect && dir == Some(Dir::Up)
            && old(player_count).value() < 17 {
            old(player_count).value() + 1
        } else if hot == Id::PlayerCountSelect && dir == Some(Dir::Down) && old(
            player_count,
        ).value() > 2 {
            old(player_count).value() - 1
        } else {
            old(player_count).value() as int
        },
        *final(starting_money) == if hot == Id::StartingMoneySelect {
            spec_starting_money_step(*old(starting_money), dir)
        } else {
            *old(starting_money)
        },
{
    match hot {
        Id::PlayerCountSelect => match dir {
            Some(Dir::Up) => {
                *player_count = player_count.saturating_add_1();
            },
            Some(Dir::Down) => {
                *player_count = player_count.saturating_sub_1();
            },
            _ => {},
        },
        Id::StartingMoneySelect => {
            *starting_money = starting_money_step(*starting_money, dir);
        },
        _ => {},
    }
    setup_menu_next_hot(hot, dir)
}

/// The moneys of a new game: `starting_money` for each player, nothing for the
/// empty seats.
pub fn starting_moneys(player_count: PlayerCount, starting_money: MoneyInner) -> (moneys: [Money; 17])
    ensures
        forall|i: int|
            0 <= i < 17 ==> (#[trigger] moneys@[i])@ == if i < player_count.value() {
                starting_money
            } else {
                0
            },
{
    proof {
        player_count.lemma_value(player_count);
    }
    let count = player_count.usize();
    let mut amounts: [MoneyInner; 17] = [0; 17];
    let mut i: usize = 0;
    while i < count
        invariant
            count == player_count.value(),
            count <= 17,
            i <= count,
            forall|j: int| 0 <= j < 17 ==> #[trigger] amounts@[j] == if j < i {
                starting_money
            } else {
                0
            },
        decreases count - i,
    {
        amounts[i] = starting_money;
        i += 1;
    }
    Money::array_from_inner_array(amounts)
}

/// The ace menu this frame: left or right moves between the choice and its
/// submit button, up or down on the choice flips it, and with nothing under
/// the cursor it goes to the choice. Returns where the cursor goes, and the
/// choice.
pub open spec fn spec_ace_menu(hot: Id, pressed: Pressed, temp: HighLow) -> (Option<Id>, HighLow) {
    let flipped = match temp {
        HighLow::Low => HighLow::High,
        HighLow::High => HighLow::Low,
    };
    let sideways = pressed.left || pressed.right;
    (
        if hot == Id::Zero {
            Some(Id::HighLowSelect)
        } else if sideways && hot == Id::HighLowSubmit {
            Some(Id::HighLowSelect)
        } else if sideways && hot == Id::HighLowSelect {
            Some(Id::HighLowSubmit)
        } else {
            None
        },
        if !sideways && hot == Id::HighLowSelect && (pressed.up || pressed.down) {
            flipped
        } else {
            temp
        },
    )
}

pub fn ace_menu(hot: Id, pressed: Pressed, temp: HighLow) -> (result: (Option<Id>, HighLow))
    ensures
        result == spec_ace_menu(hot, pressed, temp),
{
    let mut next_hot = None;
    let mut temp = temp;
    if pressed.left || pressed.right {
        match hot {
            Id::HighLowSubmit => {
                next_hot = Some(Id::HighLowSelect);
            },
            Id::HighLowSelect => {
                next_hot = Some(Id::HighLowSubmit);
            },
            _ => {},
        }
    } else {
        match hot {
            Id::HighLowSelect => {
                if pressed.up {
                    temp = temp.next_up();
                } else if pressed.down {
                    temp = temp.next_down();
                }
            },
            _ => {},
        }
    }
    if hot == Id::Zero {
        next_hot = Some(Id::HighLowSelect);
    }
    (next_hot, temp)
}


/// A person's bet menu this frame, with the cursor on entry `id`: left and
/// right move between entries; up and down flip the kind, or change the amount
/// by a money unit, never down to nothing. Returns the entry the cursor moves
/// to, if it moves, and the menu.
pub open spec fn spec_bet_menu(id: u8, pressed: Pressed, selection: MenuSelection) -> (Option<u8>, MenuSelection) {
    let betting = selection.action_kind == ActionKind::Bet;
    if pressed.left {
        (Some(menu_left(id, betting)), selection)
    } else if pressed.right {
        (Some(menu_right(id, betting)), selection)
    } else if id == ACTION_KIND && (pressed.up || pressed.down) {
        (
            None,
            MenuSelection {
                action_kind: if betting {
                    ActionKind::Pass
                } else {
                    ActionKind::Bet
                },
                ..selection
            },
        )
    } else if id == MONEY_AMOUNT && pressed.up {
        (None, MenuSelection { bet: non_zero(sat_add(selection.bet@, MIN_MONEY_UNIT)), ..selection })
    } else if id == MONEY_AMOUNT && pressed.down && sat_sub(selection.bet@, MIN_MONEY_UNIT) != 0 {
        (None, MenuSelection { bet: non_zero(sat_sub(selection.bet@, MIN_MONEY_UNIT)), ..selection })
    } else {
        (None, selection)
    }
}

pub fn bet_menu(id: u8, pressed: Pressed, selection: MenuSelection) -> (result: (
    Option<u8>,
    MenuSelection,
))
    requires
        !(pressed.right && !pressed.left && id == u8::MAX),
    ensures
        result == spec_bet_menu(id, pressed, selection),
{
    let mut selection = selection;
    if pressed.left {
        let mut new_id = match id.checked_sub(1) {
            Some(new_id) => new_id,
            None => MENU_KIND_ONE_PAST_MAX - 1,
        };
        if new_id == MONEY_AMOUNT && selection.action_kind != ActionKind::Bet {
            new_id = match new_id.checked_sub(1) {
                Some(new_id) => new_id,
                None => MENU_KIND_ONE_PAST_MAX - 1,
            };
        }
        (Some(new_id), selection)
    } else if pressed.right {
        let mut new_id = id + 1;
        if new_id >= MENU_KIND_ONE_PAST_MAX {
            new_id = 0;
        }
        if new_id == MONEY_AMOUNT && selection.action_kind != ActionKind::Bet {
            new_id += 1;
            if new_id >= MENU_KIND_ONE_PAST_MAX {
                new_id = 0;
            }
        }
        (Some(new_id), selection)
    } else {
        if id == ACTION_KIND {
            if pressed.up {
                selection.action_kind = selection.action_kind.next_up();
            } else if pressed.down {
                selection.action_kind = selection.action_kind.next_down();
            }
        } else if id == MONEY_AMOUNT {
            if pressed.up {
                selection.bet = selection.bet.saturating_add(MIN_MONEY_UNIT);
            } else if pressed.down {
                let new_value = selection.bet.get().saturating_sub(MIN_MONEY_UNIT);
                if let Some(new_bet) = NonZeroMoneyInner::new(new_value) {
                    selection.bet = new_bet;
                }
            }
        }
        (None, selection)
    }
}


/// Whether the decks at hand can serve any action: the deck holds two more
/// cards, or the fresh deck does.
pub open spec fn decks_ready(deck: Deck, fresh: Option<Deck>) -> bool {
    deck.drawn() + 2 <= 52 || (fresh is Some && fresh->0.drawn() + 2 <= 52)
}

/// Where the cursor goes, and what the person's menu becomes, this frame.
pub open spec fn spec_turn_menu(
    kind: PostsKind,
    cpu: bool,
    hot: Id,
    pressed: Pressed,
    selection: MenuSelection,
) -> (Option<Id>, MenuSelection) {
    if cpu {
        (None, selection)
    } else if kind == PostsKind::Open {
        match hot {
            Id::AceyDeuceyMenu(id) => {
                let (moved, edited) = spec_bet_menu(id, pressed, selection);
                (
                    match moved {
                        Some(new_id) => Some(Id::AceyDeuceyMenu(new_id)),
                        None => None,
                    },
                    edited,
                )
            },
            Id::Zero => (Some(Id::AceyDeuceyMenu(ACTION_KIND)), selection),
            _ => (None, selection),
        }
    } else {
        (
            if hot == Id::Zero {
                Some(Id::AcceptBurn)
            } else {
                None
            },
            selection,
        )
    }
}

/// What one frame of a turn with the posts dealt does, from seats `old_seats`
/// to seats `new_seats` and `result` (see `dealt_posts_frame`).
pub open spec fn dealt_posts_step(
    old_seats: Seats,
    bundle: StateBundle,
    clicked: bool,
    hot: Id,
    pressed: Pressed,
    fresh: Option<Deck>,
    new_seats: Seats,
    result: (TableState, Option<Id>),
) -> bool {
    let before = money_amounts(old_seats.moneys@);
    let after = money_amounts(new_seats.moneys@);
    let cpu = old_seats.personalities@[bundle.current as int] is Some;
    let selection = bundle.selection;
    if selection.cpu_passed {
        &&& after == before
        &&& result.1 == if hot == Id::Zero {
            Some(Id::AcknowledgeCPUPass)
        } else {
            None
        }
        &&& clicked ==> (result.0 matches TableState::DealtPosts { bundle: next } && follows(
            bundle,
            before,
            fresh,
            bundle.pot@,
            next,
        ))
        &&& !clicked ==> result.0 == TableState::DealtPosts { bundle }
    } else {
        match spec_first_post_high_low(bundle.posts, selection.ace) {
            None => {
                let (next_hot, temp) = spec_ace_menu(hot, pressed, selection.temp_high_low);
                &&& after == before
                &&& cpu ==> result == (
                    TableState::DealtPosts {
                        bundle: StateBundle {
                            selection: MenuSelection {
                                ace: Ace::Decided(HighLow::Low),
                                ..selection
                            },
                            ..bundle
                        },
                    },
                    None::<Id>,
                )
                &&& !cpu ==> result == (
                    TableState::DealtPosts {
                        bundle: StateBundle {
                            selection: MenuSelection {
                                ace: if clicked {
                                    Ace::Decided(selection.temp_high_low)
                                } else {
                                    selection.ace
                                },
                                temp_high_low: temp,
                                ..selection
                            },
                            ..bundle
                        },
                    },
                    next_hot,
                )
            },
            Some(high_low) => {
                let action = spec_turn_action(bundle.posts, high_low, selection, cpu, clicked);
                let kind = spec_posts_kind(bundle.posts, high_low);
                let (next_hot, edited) = spec_turn_menu(kind, cpu, hot, pressed, selection);
                let held = StateBundle {
                    selection: MenuSelection {
                        bet: non_zero(
                            spec_clamp_bet(
                                edited.bet@,
                                before[bundle.current as int],
                                bundle.pot@,
                                bundle.round,
                            ),
                        ),
                        ..edited
                    },
                    ..bundle
                };
                &&& result.1 == next_hot
                &&& action is None ==> after == before && result.0
                    == TableState::DealtPosts { bundle: held }
                &&& action matches Some(a) ==> acted(before, held, a, cpu, fresh, after, result.0)
            },
        }
    }
}

/// One frame of a turn with the posts dealt. `clicked` says whether the
/// button of the menu on screen was clicked: acknowledging the computer's
/// pass, submitting the ace or the bet menu, or accepting a burn.
///
/// - After the computer passed, a click hands the turn on.
/// - While an ace as the first post is undeclared, the computer declares it
///   low; a person chooses in the ace menu.
/// - Otherwise the seat's action for this frame is worked out from the menu as
///   it was, the menu then moves, the bet is held to the limits, and the
///   action, if any, is carried out.
///
/// Returns the table's state and where the cursor goes, if it moves. No money
/// is made or lost, unless the amounts on the table together would not fit in
/// a `MoneyInner`.
pub fn dealt_posts_frame(
    seats: &mut Seats,
    bundle: StateBundle,
    clicked: bool,
    hot: Id,
    pressed: Pressed,
    fresh: Option<Deck>,
) -> (result: (TableState, Option<Id>))
    requires
        bundle.current < bundle.player_count.value(),
        decks_ready(bundle.deck, fresh),
        !(hot == Id::AceyDeuceyMenu(u8::MAX) && pressed.right && !pressed.left),
    ensures
        seat_in_range(result.0),
        final(seats).personalities == old(seats).personalities,
        final(seats).skip == old(seats).skip,
        amounts_sum(money_amounts(old(seats).moneys@)) + bundle.pot@ <= u32::MAX ==> amounts_sum(
            money_amounts(final(seats).moneys@),
        ) + state_pot(result.0) == amounts_sum(money_amounts(old(seats).moneys@)) + bundle.pot@,
        dealt_posts_step(*old(seats), bundle, clicked, hot, pressed, fresh, *final(seats), result),
{
    let ghost before = money_amounts(seats.moneys@);
    proof {
        bundle.player_count.lemma_value(bundle.player_count);
    }
    let mut bundle = bundle;
    let current = bundle.current as usize;
    let cpu = seats.personalities[current].is_some();
    if bundle.selection.cpu_passed {
        let next_hot = if hot == Id::Zero {
            Some(Id::AcknowledgeCPUPass)
        } else {
            None
        };
        if clicked {
            (TableState::DealtPosts { bundle: next_bundle(bundle, &seats.moneys, fresh) }, next_hot)
        } else {
            (TableState::DealtPosts { bundle }, next_hot)
        }
    } else {
        match first_post_high_low(bundle.posts, bundle.selection.ace) {
            None => {
                if cpu {
                    // The computer could count cards to know when to choose high.
                    bundle.selection.ace = Ace::Decided(HighLow::Low);
                    (TableState::DealtPosts { bundle }, None)
                } else {
                    if clicked {
                        bundle.selection.ace = Ace::Decided(bundle.selection.temp_high_low);
                    }
                    let (next_hot, temp) = ace_menu(hot, pressed, bundle.selection.temp_high_low);
                    bundle.selection.temp_high_low = temp;
                    (TableState::DealtPosts { bundle }, next_hot)
                }
            },
            Some(high_low) => {
                let action = turn_action(bundle.posts, high_low, bundle.selection, cpu, clicked);
                let mut next_hot = None;
                if !cpu {
                    match posts_kind(bundle.posts, high_low) {
                        PostsKind::Open => {
                            match hot {
                                Id::AceyDeuceyMenu(id) => {
                                    let (moved, edited) = bet_menu(id, pressed, bundle.selection);
                                    bundle.selection = edited;
                                    next_hot = match moved {
                                        Some(new_id) => Some(Id::AceyDeuceyMenu(new_id)),
                                        None => None,
                                    };
                                },
                                Id::Zero => {
                                    next_hot = Some(Id::AceyDeuceyMenu(ACTION_KIND));
                                },
                                _ => {},
                            }
                        },
                        _ => {
                            if hot == Id::Zero {
                                next_hot = Some(Id::AcceptBurn);
                            }
                        },
                    }
                }
                bundle.selection.bet = clamp_bet(
                    bundle.selection.bet,
                    seats.moneys[current].as_inner(),
                    bundle.pot.as_inner(),
                    bundle.round,
                );
                match action {
                    Some(action) => (act(seats, bundle, action, cpu, fresh), next_hot),
                    None => (TableState::DealtPosts { bundle }, next_hot),
                }
            },
        }
    }
}


/// What one frame of a revealed third card does, from seats `old_seats` to
/// seats `new_seats` and `result` (see `reveal_frame`).
pub open spec fn reveal_step(
    old_seats: Seats,
    bundle: StateBundle,
    third: DeckCard,
    bet: NonZeroMoneyInner,
    clicked: bool,
    hot: Id,
    fresh: Option<Deck>,
    new_seats: Seats,
    result: (TableState, ModeCmd, Option<Id>),
) -> bool {
    &&& result.2 == if hot == Id::Zero {
        Some(Id::NextDeal)
    } else {
        None
    }
    &&& clicked ==> settled(
        money_amounts(old_seats.moneys@),
        bundle,
        third,
        bet,
        fresh,
        money_amounts(new_seats.moneys@),
        (result.0, result.1),
    )
    &&& !clicked ==> money_amounts(new_seats.moneys@) == money_amounts(old_seats.moneys@)
        && result.0 == (TableState::Reveal { bundle, third, bet }) && result.1 == ModeCmd::NoOp
}

/// One frame of a revealed third card: clicking the next button settles the
/// bet (see `settle`); with nothing under the cursor it goes to that button.
/// Returns the table's state, what the game asks for, and where the cursor
/// goes, if it moves.
pub fn reveal_frame(
    seats: &mut Seats,
    bundle: StateBundle,
    third: DeckCard,
    bet: NonZeroMoneyInner,
    clicked: bool,
    hot: Id,
    fresh: Option<Deck>,
) -> (result: (TableState, ModeCmd, Option<Id>))
    requires
        bundle.current < bundle.player_count.value(),
        can_deal_posts(bundle.deck, fresh),
    ensures
        seat_in_range(result.0),
        final(seats).personalities == old(seats).personalities,
        final(seats).skip == old(seats).skip,
        reveal_step(*old(seats), bundle, third, bet, clicked, hot, fresh, *final(seats), result),
        amounts_sum(money_amounts(old(seats).moneys@)) + bundle.pot@ <= u32::MAX ==> amounts_sum(
            money_amounts(final(seats).moneys@),
        ) + state_pot(result.0) == amounts_sum(money_amounts(old(seats).moneys@)) + bundle.pot@,
{
    let next_hot = if hot == Id::Zero {
        Some(Id::NextDeal)
    } else {
        None
    };
    if clicked {
        let (state, cmd) = settle(seats, bundle, third, bet, fresh);
        (state, cmd, next_hot)
    } else {
        (TableState::Reveal { bundle, third, bet }, ModeCmd::NoOp, next_hot)
    }
}

/// The amounts of a new game: `starting_money` for each player, nothing for
/// the empty seats.
pub open spec fn starting_amounts(player_count: PlayerCount, starting_money: MoneyInner) -> Seq<
    MoneyInner,
> {
    Seq::new(17, |i: int| if i < player_count.value() { starting_money } else { 0 })
}

/// One frame of acey-deucey, as the person's input and chance give it.
/// `hot` is the control under the cursor, `pressed` and `dir` the buttons and
/// the direction pressed this frame; `back_clicked` and `submit_clicked` say
/// whether the setup menu's back and submit buttons were clicked, `clicked`
/// whether the button of a game's menu was. `shuffled` is a freshly shuffled
/// arrangement of the cards, dealt from where the deck runs out, and `seat`
/// the seat that starts a new game.
///
/// - Before a game, the setup menu runs; submitting it starts a game with
///   every player's starting money (see `Table::selected`).
/// - With the posts dealt, a turn goes on (see `dealt_posts_frame`).
/// - With the third card revealed, the bet is settled (see `reveal_frame`).
///
/// Returns what the game asks for and where the cursor goes, if it moves.
/// During a game no money is made or lost, unless the amounts on the table
/// together would not fit in a `MoneyInner`.
pub fn table_frame(
    table: &mut Table,
    hot: Id,
    pressed: Pressed,
    dir: Option<Dir>,
    back_clicked: bool,
    submit_clicked: bool,
    clicked: bool,
    shuffled: [DeckCard; 52],
    seat: HandIndex,
) -> (result: (ModeCmd, Option<Id>))
    requires
        seat_in_range(old(table).state),
        old(table).state matches TableState::Undealt { player_count, .. } ==> seat
            < player_count.value(),
        old(table).state is DealtPosts ==> !(hot == Id::AceyDeuceyMenu(u8::MAX) && pressed.right
            && !pressed.left),
    ensures
        seat_in_range(final(table).state),
        (old(table).state is DealtPosts || old(table).state is Reveal) && amounts_sum(
            money_amounts(old(table).seats.moneys@),
        ) + state_pot(old(table).state) <= u32::MAX ==> amounts_sum(
            money_amounts(final(table).seats.moneys@),
        ) + state_pot(final(table).state) == amounts_sum(money_amounts(old(table).seats.moneys@))
            + state_pot(old(table).state),
        match old(table).state {
            TableState::Undealt { player_count, starting_money } => {
                &&& result.0 == if back_clicked {
                    ModeCmd::BackToTitleScreen
                } else {
                    ModeCmd::NoOp
                }
                &&& submit_clicked ==> result.1 is None && is_set_up(
                    player_count,
                    starting_amounts(player_count, starting_money),
                    Deck::arranged(shuffled),
                    seat,
                    *final(table),
                )
                &&& !submit_clicked ==> {
                    &&& final(table).seats == old(table).seats
                    &&& result.1 == spec_setup_menu_next_hot(hot, dir)
                    &&& final(table).state matches TableState::Undealt {
                        player_count: count,
                        starting_money: money,
                    } && count.value() == (if hot == Id::PlayerCountSelect && dir == Some(Dir::Up)
                        && player_count.value() < 17 {
                        player_count.value() + 1
                    } else if hot == Id::PlayerCountSelect && dir == Some(Dir::Down)
                        && player_count.value() > 2 {
                        player_count.value() - 1
                    } else {
                        player_count.value() as int
                    }) && money == (if hot == Id::StartingMoneySelect {
                        spec_starting_money_step(starting_money, dir)
                    } else {
                        starting_money
                    })
                }
            },
            TableState::DealtPosts { bundle } => {
                &&& result.0 == ModeCmd::NoOp
                &&& dealt_posts_step(
                    old(table).seats,
                    bundle,
                    clicked,
                    hot,
                    pressed,
                    Some(Deck::arranged(shuffled)),
                    final(table).seats,
                    (final(table).state, result.1),
                )
            },
            TableState::Reveal { bundle, third, bet } => reveal_step(
                old(table).seats,
                bundle,
                third,
                bet,
                clicked,
                hot,
                Some(Deck::arranged(shuffled)),
                final(table).seats,
                (final(table).state, result.0, result.1),
            ),
        },
{
    broadcast use crate::cards::Deck::lemma_arranged;
    let mut state = TableState::default();
    core::mem::swap(&mut state, &mut table.state);
    match state {
        TableState::Undealt { player_count, starting_money } => {
            let cmd = if back_clicked {
                ModeCmd::BackToTitleScreen
            } else {
                ModeCmd::NoOp
            };
            if submit_clicked {
                let moneys = starting_moneys(player_count, starting_money);
                assert(money_amounts(moneys@) =~= starting_amounts(player_count, starting_money));
                *table = Table::selected(player_count, moneys, gen_deck_from(shuffled), seat);
                (cmd, None)
            } else {
                let mut player_count = player_count;
                let mut starting_money = starting_money;
                let next_hot = undealt_menu(hot, dir, &mut player_count, &mut starting_money);
                table.state = TableState::Undealt { player_count, starting_money };
                (cmd, next_hot)
            }
        },
        TableState::DealtPosts { bundle } => {
            let fresh = Some(gen_deck_from(shuffled));
            let (state, next_hot) = dealt_posts_frame(
                &mut table.seats,
                bundle,
                clicked,
                hot,
                pressed,
                fresh,
            );
            table.state = state;
            (ModeCmd::NoOp, next_hot)
        },
        TableState::Reveal { bundle, third, bet } => {
            let fresh = Some(gen_deck_from(shuffled));
            let (state, cmd, next_hot) = reveal_frame(
                &mut table.seats,
                bundle,
                third,
                bet,
                clicked,
                hot,
                fresh,
            );
            table.state = state;
            (cmd, next_hot)
        },
    }
}

} // verus!
