//! Five-card draw: each player is dealt five cards, bets, may draw, and bets again.
use vstd::prelude::*;

use crate::cards::{DeckCard, Deck};
use crate::decimal_text;
use crate::game::{
    CpuPersonality, Dir, Id, Personality, Pressed, SkipState, setup_menu_next_hot,
    spec_setup_menu_next_hot, spec_starting_money_step, starting_money_step, next_funded_index,
    next_funded_seat, menu_left, menu_right, ACTION_KIND, MONEY_AMOUNT, SUBMIT, MENU_KIND_ONE_PAST_MAX,
};
use crate::holdem::{
    Action, ActionKind, ActionSpec, AllowedKindMode, HandLen, gen_action, raise_units_range, sat_mul,
    spec_raise_units_range,
};
use crate::money::{
    Money, MoneyInner, NonZeroMoneyInner, MIN_MONEY_UNIT, sat_add, sat_sub, min_inner,
};
use crate::pot::{Pot, PotAction, bet_total, max_of, money_amounts};
use crate::probability::{Probability, FIFTY_PERCENT, SEVENTY_FIVE_PERCENT};

verus! {

broadcast use {
    crate::cards::Deck::deck_cards_len,
    vstd::array::group_array_axioms,
    crate::money::lemma_non_zero_view,
    crate::money::lemma_view_non_zero,
};

pub const MIN_PLAYERS: u8 = 2;
/// At nine players that is 45 of the 52 cards at the start, so each player
/// only gets to draw one card: a reasonable upper limit.
pub const MAX_PLAYERS: u8 = 9;

/// A five-card hand.
pub type Hand = [DeckCard; 5];

/// The index of a hand in `Hands`, not of a card in a hand.
pub type HandIndex = u8;
pub const MAX_HAND_INDEX: u8 = 8;

pub type HandsLen = u8;

pub type Hands = [Hand; 9];

/// A number of players: from 2 to 9.
#[derive(Copy, Clone, Debug, Default, PartialEq, Eq, Structural, PartialOrd, Ord)]
pub enum PlayerCount {
    #[default]
    Two,
    Three,
    Four,
    Five,
    Six,
    Seven,
    Eight,
    Nine,
}

impl PlayerCount {
    /// The number of players this stands for.
    pub open spec fn value(self) -> u8 {
        match self {
            PlayerCount::Two => 2,
            PlayerCount::Three => 3,
            PlayerCount::Four => 4,
            PlayerCount::Five => 5,
            PlayerCount::Six => 6,
            PlayerCount::Seven => 7,
            PlayerCount::Eight => 8,
            PlayerCount::Nine => 9,
        }
    }

    /// The count for `n` players, where PlayerCount has one.
    pub open spec fn of_value(n: u8) -> PlayerCount {
        match n {
            2 => PlayerCount::Two,
            3 => PlayerCount::Three,
            4 => PlayerCount::Four,
            5 => PlayerCount::Five,
            6 => PlayerCount::Six,
            7 => PlayerCount::Seven,
            8 => PlayerCount::Eight,
            9 => PlayerCount::Nine,
            _ => PlayerCount::Two,
        }
    }

    /// Every count stands for a number from 2 to 9, and no two counts for the same one.
    pub proof fn lemma_value(self, other: PlayerCount)
        ensures
            2 <= self.value() <= 9,
            PlayerCount::of_value(self.value()) == self,
            self.value() == other.value() ==> self == other,
    {
    }

    /// One more player, up to the maximum.
    pub fn saturating_add_1(self) -> (next: Self)
        ensures
            next.value() == if self.value() < 9 { (self.value() + 1) as u8 } else { 9u8 },
    {
        match self {
            PlayerCount::Two => PlayerCount::Three,
            PlayerCount::Three => PlayerCount::Four,
            PlayerCount::Four => PlayerCount::Five,
            PlayerCount::Five => PlayerCount::Six,
            PlayerCount::Six => PlayerCount::Seven,
            PlayerCount::Seven => PlayerCount::Eight,
            PlayerCount::Eight => PlayerCount::Nine,
            PlayerCount::Nine => PlayerCount::Nine,
        }
    }

    /// One less player, down to the minimum.
    pub fn saturating_sub_1(self) -> (next: Self)
        ensures
            next.value() == if self.value() > 2 { (self.value() - 1) as u8 } else { 2u8 },
    {
        match self {
            PlayerCount::Two => PlayerCount::Two,
            PlayerCount::Three => PlayerCount::Two,
            PlayerCount::Four => PlayerCount::Three,
            PlayerCount::Five => PlayerCount::Four,
            PlayerCount::Six => PlayerCount::Five,
            PlayerCount::Seven => PlayerCount::Six,
            PlayerCount::Eight => PlayerCount::Seven,
            PlayerCount::Nine => PlayerCount::Eight,
        }
    }

    /// The number of players, written in decimal.
    pub fn text(self) -> (text: &'static str)
        ensures
            text@ == decimal_text(self.value()),
    {
        match self {
            PlayerCount::Two => {
                proof {
                    reveal_strlit("2");
                }
                "2"
            },
            PlayerCount::Three => {
                proof {
                    reveal_strlit("3");
                }
                "3"
            },
            PlayerCount::Four => {
                proof {
                    reveal_strlit("4");
                }
                "4"
            },
            PlayerCount::Five => {
                proof {
                    reveal_strlit("5");
                }
                "5"
            },
            PlayerCount::Six => {
                proof {
                    reveal_strlit("6");
                }
                "6"
            },
            PlayerCount::Seven => {
                proof {
                    reveal_strlit("7");
                }
                "7"
            },
            PlayerCount::Eight => {
                proof {
                    reveal_strlit("8");
                }
                "8"
            },
            PlayerCount::Nine => {
                proof {
                    reveal_strlit("9");
                }
                "9"
            },
        }
    }

    pub fn u8(self) -> (n: u8)
        ensures
            n == self.value(),
    {
        match self {
            PlayerCount::Two => 2,
            PlayerCount::Three => 3,
            PlayerCount::Four => 4,
            PlayerCount::Five => 5,
            PlayerCount::Six => 6,
            PlayerCount::Seven => 7,
            PlayerCount::Eight => 8,
            PlayerCount::Nine => 9,
        }
    }

    pub fn usize(self) -> (n: usize)
        ensures
            n == self.value(),
    {
        self.u8() as usize
    }

    /// The count for `byte` players, if there is one.
    pub fn from_u8(byte: u8) -> (count: Result<PlayerCount, &'static str>)
        ensures
            2 <= byte <= 9 ==> count == Ok::<PlayerCount, &'static str>(PlayerCount::of_value(byte)),
            byte < 2 ==> count == Err::<PlayerCount, &'static str>("player count was too small"),
            byte > 9 ==> count == Err::<PlayerCount, &'static str>("player count was to big"),
    {
        match byte {
            0 | 1 => Err("player count was too small"),
            2 => Ok(PlayerCount::Two),
            3 => Ok(PlayerCount::Three),
            4 => Ok(PlayerCount::Four),
            5 => Ok(PlayerCount::Five),
            6 => Ok(PlayerCount::Six),
            7 => Ok(PlayerCount::Seven),
            8 => Ok(PlayerCount::Eight),
            9 => Ok(PlayerCount::Nine),
            _ => Err("player count was to big"),
        }
    }

}


impl TryFrom<u8> for PlayerCount {
    type Error = &'static str;

    fn try_from(byte: u8) -> (count: Result<PlayerCount, &'static str>) {
        PlayerCount::from_u8(byte)
    }
}

impl vstd::std_specs::convert::TryFromSpecImpl<u8> for PlayerCount {
    open spec fn obeys_try_from_spec() -> bool {
        true
    }

    open spec fn try_from_spec(byte: u8) -> Result<PlayerCount, &'static str> {
        if byte < 2 {
            Err("player count was too small")
        } else if byte <= 9 {
            Ok(PlayerCount::of_value(byte))
        } else {
            Err("player count was to big")
        }
    }
}

/// Whether `hands` and `after` are what dealing five cards each to the first
/// `count` hands off `deck` gives: hand `h` gets the five cards after the
/// first `5 * h`, or five zero cards where the deck runs out before it is full.
pub open spec fn dealt_hands(deck: Deck, count: nat, hands: Hands, after: Deck) -> bool {
    let d = deck.drawn();
    &&& after.cards() == deck.cards()
    &&& after.drawn() == if d >= 52 {
        d
    } else if d + 5 * count > 52 {
        52
    } else {
        d + 5 * count
    }
    &&& forall|h: int|
        0 <= h < 9 ==> (#[trigger] hands@[h])@ == if h < count && d + 5 * h + 5 <= 52 {
            deck.cards().subrange(d + 5 * h, d + 5 * h + 5)
        } else {
            seq![0u8, 0u8, 0u8, 0u8, 0u8]
        }
}

/// Deals five cards to each player off a freshly shuffled deck.
pub fn deal(deck: Deck, player_count: PlayerCount) -> (result: (Hands, Deck))
    ensures
        dealt_hands(deck, player_count.value() as nat, result.0, result.1),
{
    proof {
        player_count.lemma_value(player_count);
    }
    let mut deck = deck;
    let ghost start = deck;
    let mut hands: Hands = [[0; 5]; 9];
    let count = player_count.usize();
    let mut h: usize = 0;
    while h < count
        invariant
            count == player_count.value(),
            2 <= count <= 9,
            h <= count,
            deck.cards() == start.cards(),
            deck.drawn() == if start.drawn() >= 52 {
                start.drawn() as int
            } else if start.drawn() + 5 * h > 52 {
                52
            } else {
                start.drawn() + 5 * h
            },
            forall|k: int|
                0 <= k < 9 ==> (#[trigger] hands@[k])@ == if k < h && start.drawn() + 5 * k + 5 <= 52 {
                    start.cards().subrange(start.drawn() + 5 * k, start.drawn() + 5 * k + 5)
                } else {
                    seq![0u8, 0u8, 0u8, 0u8, 0u8]
                },
        decreases count - h,
    {
        let c1 = deck.draw();
        let c2 = deck.draw();
        let c3 = deck.draw();
        let c4 = deck.draw();
        let c5 = deck.draw();
        match (c1, c2, c3, c4, c5) {
            (Some(c1), Some(c2), Some(c3), Some(c4), Some(c5)) => {
                let hand = [c1, c2, c3, c4, c5];
                let ghost d = start.drawn() + 5 * h;
                assert(hand@ =~= start.cards().subrange(d, d + 5));
                hands[h] = hand;
            },
            _ => {},
        }
        h += 1;
    }
    (hands, deck)
}

/// The seats at the table.
#[derive(Debug)]
pub struct Seats {
    pub moneys: [Money; 9],
    pub personalities: [Personality; 9],
    pub skip: SkipState,
    pub ante: NonZeroMoneyInner,
}

impl Default for Seats {
    fn default() -> (seats: Self)
        ensures
            forall|i: int| 0 <= i < 9 ==> (#[trigger] seats.moneys@[i])@ == 0,
            forall|i: int| 0 <= i < 9 ==> #[trigger] seats.personalities@[i] is None,
            seats.skip == SkipState::Watch,
            seats.ante@ == MIN_MONEY_UNIT,
    {
        Seats {
            moneys: Money::array_from_inner_array([0; 9]),
            personalities: [None; 9],
            skip: SkipState::Watch,
            ante: NonZeroMoneyInner::min_money_unit(),
        }
    }
}

/// The state of the menu of the player whose turn it is.
#[derive(Clone, Copy, Debug, Default, PartialEq, Eq, Structural)]
pub struct MenuSelection {
    pub action_kind: ActionKind,
    pub bet: MoneyInner,
}

/// Everything about a round in progress.
#[derive(Debug)]
pub struct StateBundle {
    pub deck: Deck,
    pub hands: Hands,
    pub current: HandIndex,
    pub pot: Pot,
    pub player_count: PlayerCount,
    pub selection: MenuSelection,
}

/// Where the table is in a game.
#[derive(Debug)]
pub enum TableState {
    Undealt { player_count: PlayerCount, starting_money: MoneyInner },
    FirstRound { bundle: StateBundle },
    Drawing { bundle: StateBundle },
    SecondRound { bundle: StateBundle },
    Showdown { bundle: StateBundle },
}

impl Default for TableState {
    fn default() -> (state: Self)
        ensures
            state == (TableState::Undealt { player_count: PlayerCount::Two, starting_money: 500 }),
    {
        TableState::Undealt { player_count: PlayerCount::Two, starting_money: 500 }
    }
}

/// A five-card draw table: its seats and where the game is.
#[derive(Debug)]
pub struct Table {
    pub seats: Seats,
    pub state: TableState,
}

impl Default for Table {
    fn default() -> (table: Self)
        ensures
            forall|i: int| 0 <= i < 9 ==> (#[trigger] table.seats.moneys@[i])@ == 0,
            forall|i: int| 0 <= i < 9 ==> #[trigger] table.seats.personalities@[i] is None,
            table.seats.skip == SkipState::Watch,
            table.seats.ante@ == MIN_MONEY_UNIT,
            table.state == (TableState::Undealt { player_count: PlayerCount::Two, starting_money: 500 }),
    {
        Table { seats: Seats::default(), state: TableState::default() }
    }
}


/// Whether `actions` is one bet of `amount`.
pub open spec fn is_single_bet(actions: Seq<PotAction>, amount: MoneyInner) -> bool {
    &&& actions.len() == 1
    &&& actions[0] matches PotAction::Bet(bet)
    &&& bet@ == amount
}

impl Table {
    /// Sets up a game: everyone in the game pays the ante (a money unit) into
    /// the pot, seat 0 is the person and every other seat the computer, the
    /// hands come off the shuffled `deck`, and the round starts with `selected`,
    /// or the next seat with money where `selected` has none.
    pub fn selected(player_count: PlayerCount, moneys: [Money; 9], deck: Deck, selected: HandIndex) -> (table:
        Table)
        requires
            selected < player_count.value(),
        ensures
            forall|i: int|
                0 <= i < player_count.value() ==> (#[trigger] table.seats.moneys@[i])@ == sat_sub(
                    moneys@[i]@,
                    MIN_MONEY_UNIT,
                ),
            forall|i: int|
                player_count.value() <= i < 9 ==> (#[trigger] table.seats.moneys@[i])@ == moneys@[i]@,
            table.seats.personalities@[0] is None,
            forall|i: int|
                1 <= i < player_count.value() ==> #[trigger] table.seats.personalities@[i] == Some(
                    CpuPersonality {},
                ),
            forall|i: int|
                player_count.value() <= i < 9 ==> #[trigger] table.seats.personalities@[i] is None,
            table.seats.skip == SkipState::Watch,
            table.seats.ante@ == MIN_MONEY_UNIT,
            (match table.state {
                TableState::FirstRound { bundle } => {
                    let count = player_count.value() as int;
                    let after = money_amounts(table.seats.moneys@);
                    &&& bundle.pot.wf()
                    &&& bundle.pot.players() == HandLen::of_value(player_count.value())
                    &&& forall|i: int|
                        0 <= i < count ==> is_single_bet(
                            #[trigger] bundle.pot.actions_of(i),
                            min_inner(moneys@[i]@, MIN_MONEY_UNIT),
                        )
                    &&& forall|i: int|
                        count <= i < 22 ==> #[trigger] bundle.pot.actions_of(i) == Seq::<
                            PotAction,
                        >::empty()
                    &&& forall|i: int| #[trigger] bundle.pot.gone().has(i) <==> 0 <= i < count
                    &&& dealt_hands(deck, count as nat, bundle.hands, bundle.deck)
                    &&& bundle.current == if after[selected as int] == 0 {
                        next_funded_seat(after, selected as int, count)
                    } else {
                        selected as int
                    }
                    &&& bundle.player_count == player_count
                    &&& bundle.selection == MenuSelection { action_kind: ActionKind::Fold, bet: 0 }
                },
                _ => false,
            }),
    {
        proof {
            player_count.lemma_value(player_count);
        }
        let count = player_count.u8();
        let hand_len = match HandLen::from_u8(count) {
            Ok(hand_len) => hand_len,
            Err(_) => vstd::pervasive::unreached(),
        };
        let mut pot = Pot::with_capacity(hand_len, 16);
        let ante = NonZeroMoneyInner::min_money_unit();
        let ghost start = money_amounts(moneys@);
        let mut moneys = moneys;
        let mut i: u8 = 0;
        while i < count
            invariant
                count == player_count.value(),
                2 <= count <= 9,
                i <= count,
                ante@ == MIN_MONEY_UNIT,
                start.len() == 9,
                pot.wf(),
                pot.players() == HandLen::of_value(count),
                forall|j: int| 0 <= j < i ==> (#[trigger] moneys@[j])@ == sat_sub(start[j], MIN_MONEY_UNIT),
                forall|j: int| i <= j < 9 ==> (#[trigger] moneys@[j])@ == start[j],
                forall|j: int|
                    0 <= j < i ==> is_single_bet(
                        #[trigger] pot.actions_of(j),
                        min_inner(start[j], MIN_MONEY_UNIT),
                    ),
                forall|j: int| i <= j < 22 ==> #[trigger] pot.actions_of(j) == Seq::<PotAction>::empty(),
                forall|j: int| #[trigger] pot.gone().has(j) <==> 0 <= j < i,
            decreases count - i,
        {
            let taken = moneys[i as usize].take(ante.get());
            pot.push_bet(i, PotAction::Bet(taken));
            i += 1;
        }
        let mut personalities: [Personality; 9] = [None; 9];
        // Seat 0 is the person; every other seat in the game is the computer.
        let mut i: usize = 1;
        while i < count as usize
            invariant
                count == player_count.value(),
                2 <= count <= 9,
                1 <= i <= count,
                personalities@[0] is None,
                forall|j: int| 1 <= j < i ==> #[trigger] personalities@[j] == Some(CpuPersonality {}),
                forall|j: int| i <= j < 9 ==> #[trigger] personalities@[j] is None,
            decreases count - i,
        {
            personalities[i] = Some(CpuPersonality {});
            i += 1;
        }
        let (hands, deck) = deal(deck, player_count);
        let current = if moneys[selected as usize].as_inner() == 0 {
            next_funded_index(&moneys, selected, count)
        } else {
            selected
        };
        Table {
            seats: Seats { moneys, personalities, skip: SkipState::Watch, ante },
            state: TableState::FirstRound {
                bundle: StateBundle {
                    deck,
                    hands,
                    current,
                    pot,
                    player_count,
                    selection: MenuSelection { action_kind: ActionKind::Fold, bet: 0 },
                },
            },
        }
    }
}

/// A person's setup menu this frame: `dir` moves the cursor, or changes the
/// player count or the starting money under it. Returns where the cursor goes.
pub fn undealt_menu(
    hot: Id,
    dir: Option<Dir>,
    player_count: &mut PlayerCount,
    starting_money: &mut MoneyInner,
) -> (next_hot: Option<Id>)
    ensures
        next_hot == spec_setup_menu_next_hot(hot, dir),
        final(player_count).value() == if hot == Id::PlayerCountSelect && dir == Some(Dir::Up)
            && old(player_count).value() < 9 {
            old(player_count).value() + 1
        } else if hot == Id::PlayerCountSelect && dir == Some(Dir::Down) && old(
            player_count,
        ).value() > 2 {
            old(player_count).value() - 1
        } else {
            old(player_count).value() as int
        },
        *final(starting_money) == if hot == Id::StartingMoneySelect {
            spec_starting_money_step(*old(starting_money), dir)
        } else {
            *old(starting_money)
        },
{
    match hot {
        Id::PlayerCountSelect => match dir {
            Some(Dir::Up) => {
                *player_count = player_count.saturating_add_1();
            },
            Some(Dir::Down) => {
                *player_count = player_count.saturating_sub_1();
            },
            _ => {},
        },
        Id::StartingMoneySelect => {
            *starting_money = starting_money_step(*starting_money, dir);
        },
        _ => {},
    }
    setup_menu_next_hot(hot, dir)
}

/// The moneys of a new game: `starting_money` for each player, nothing for the
/// empty seats.
pub fn starting_moneys(player_count: PlayerCount, starting_money: MoneyInner) -> (moneys: [Money; 9])
    ensures
        forall|i: int|
            0 <= i < 9 ==> (#[trigger] moneys@[i])@ == if i < player_count.value() {
                starting_money
            } else {
                0
            },
{
    proof {
        player_count.lemma_value(player_count);
    }
    let count = player_count.usize();
    let mut amounts: [MoneyInner; 9] = [0; 9];
    let mut i: usize = 0;
    while i < count
        invariant
            count == player_count.value(),
            count <= 9,
            i <= count,
            forall|j: int| 0 <= j < 9 ==> #[trigger] amounts@[j] == if j < i {
                starting_money
            } else {
                0
            },
        decreases count - i,
    {
        amounts[i] = starting_money;
        i += 1;
    }
    Money::array_from_inner_array(amounts)
}


/// What a player's betting this turn is measured by.
#[derive(Clone, Copy, Debug, PartialEq, Eq, Structural)]
pub struct BetLimits {
    /// The total bet needed to call.
    pub call_amount: MoneyInner,
    /// The least total bet that counts as a raise.
    pub minimum_raise_total: MoneyInner,
    /// The amount extra the player needs to call.
    pub call_remainder: MoneyInner,
    /// What the player would have left after calling, where they can afford it.
    pub call_leftover: Option<MoneyInner>,
    /// Which actions the menu offers.
    pub allowed_kind_mode: AllowedKindMode,
}

/// The limits of a player who has bet `bet_so_far` and holds `money`, where
/// calling takes a total of `call_amount`. A player who owes nothing cannot
/// fold; one who would be left with nothing can only go all in.
pub open spec fn spec_bet_limits(call_amount: MoneyInner, bet_so_far: MoneyInner, money: MoneyInner) -> BetLimits {
    let call_remainder = sat_sub(call_amount, bet_so_far);
    let call_leftover = if money >= call_remainder {
        Some((money - call_remainder) as MoneyInner)
    } else {
        None
    };
    BetLimits {
        call_amount,
        minimum_raise_total: (call_amount + MIN_MONEY_UNIT) as MoneyInner,
        call_remainder,
        call_leftover,
        allowed_kind_mode: if call_remainder > 0 {
            AllowedKindMode::All
        } else if call_leftover matches Some(left) && left > 0 {
            AllowedKindMode::NoFolding
        } else {
            AllowedKindMode::AllIn
        },
    }
}

/// The limits of player `current`, who holds `money`, in `pot`.
pub fn bet_limits(pot: &Pot, current: HandIndex, money: MoneyInner) -> (limits: BetLimits)
    requires
        pot.wf(),
        current < 22,
        max_of(pot.amounts_spec(), 22) + MIN_MONEY_UNIT <= u32::MAX,
    ensures
        limits == spec_bet_limits(
            max_of(pot.amounts_spec(), 22),
            bet_total(pot.actions_of(current as int)),
            money,
        ),
{
    let call_amount = pot.call_amount();
    let minimum_raise_total = call_amount + MIN_MONEY_UNIT;
    let call_remainder = call_amount.saturating_sub(pot.amount_for(current));
    let call_leftover = money.checked_sub(call_remainder);
    let allowed_kind_mode = if call_remainder > 0 {
        AllowedKindMode::All
    } else if match call_leftover {
        Some(left) => left,
        None => 0,
    } > 0 {
        AllowedKindMode::NoFolding
    } else {
        AllowedKindMode::AllIn
    };
    BetLimits { call_amount, minimum_raise_total, call_remainder, call_leftover, allowed_kind_mode }
}

/// The bet in the menu, held between the minimum raise and what the player has.
pub open spec fn spec_hold_bet(bet: MoneyInner, minimum_raise_total: MoneyInner, money: MoneyInner) -> MoneyInner {
    let raised = if bet < minimum_raise_total {
        minimum_raise_total
    } else {
        bet
    };
    if raised > money {
        money
    } else {
        raised
    }
}

pub fn hold_bet(bet: MoneyInner, minimum_raise_total: MoneyInner, money: MoneyInner) -> (held: MoneyInner)
    ensures
        held == spec_hold_bet(bet, minimum_raise_total, money),
{
    let mut bet = bet;
    if bet < minimum_raise_total {
        bet = minimum_raise_total;
    }
    if bet > money {
        bet = money;
    }
    bet
}

/// What the computer's decision needs next: a random number drawn from
/// `lo..hi`, or nothing more, with the action decided.
#[derive(Clone, Debug)]
pub enum CpuStep {
    Roll(MoneyInner, MoneyInner),
    Act(Action),
}

/// The computer's action before it is held to what it may do: with a hand that
/// wins at least three times in four it raises the minimum plus six to eleven
/// antes; at least half the time it mostly calls, and one time in five acts at
/// random; otherwise it folds. The random numbers come in `rolls`, in the
/// order they are drawn; `None` where more are needed.
pub open spec fn cpu_choice(
    probability: Probability,
    limits: BetLimits,
    money: MoneyInner,
    ante: MoneyInner,
    rolls: Seq<MoneyInner>,
) -> Option<Action> {
    if probability >= SEVENTY_FIVE_PERCENT {
        if rolls.len() < 1 {
            None
        } else {
            Some(Action::Raise((limits.minimum_raise_total + sat_mul(ante, rolls[0])) as MoneyInner))
        }
    } else if probability >= FIFTY_PERCENT {
        if rolls.len() < 1 {
            None
        } else if rolls[0] != 0 {
            Some(Action::Call)
        } else if rolls.len() < 2 {
            None
        } else if rolls[1] == 0 {
            Some(Action::Fold)
        } else if rolls[1] == 1 {
            Some(Action::Call)
        } else {
            match spec_raise_units_range(cpu_action_spec(limits, money)) {
                None => Some(Action::Call),
                Some(_) => if rolls.len() < 3 {
                    None
                } else {
                    Some(Action::Raise(sat_mul(rolls[2], MIN_MONEY_UNIT)))
                },
            }
        }
    } else {
        Some(Action::Fold)
    }
}

/// The limits of a random action of the computer: up to all its money.
pub open spec fn cpu_action_spec(limits: BetLimits, money: MoneyInner) -> ActionSpec {
    ActionSpec {
        one_past_max_money: crate::money::non_zero(sat_add(1, money)),
        min_money_unit: crate::money::non_zero(MIN_MONEY_UNIT),
        minimum_raise_total: limits.minimum_raise_total,
    }
}

/// The computer's action held to what it may do: it never folds when calling
/// costs nothing, and never raises more than it has.
pub open spec fn held_cpu_action(action: Action, limits: BetLimits, money: MoneyInner) -> Action {
    match action {
        Action::Fold => if limits.call_remainder == 0 {
            Action::Call
        } else {
            Action::Fold
        },
        Action::Call => Action::Call,
        Action::Raise(amount) => if money < amount {
            Action::Raise(money)
        } else {
            Action::Raise(amount)
        },
    }
}

/// The computer folds only where calling costs something. A hand that wins
/// less than half the time needs no roll: it folds where calling costs
/// something, and calls where calling is free.
pub proof fn lemma_cpu_folds_weak_hands(
    probability: Probability,
    limits: BetLimits,
    money: MoneyInner,
    ante: MoneyInner,
    rolls: Seq<MoneyInner>,
)
    ensures
        forall|action: Action|
            (#[trigger] held_cpu_action(action, limits, money) == Action::Fold) == (action
                == Action::Fold && limits.call_remainder > 0),
        probability < FIFTY_PERCENT ==> (cpu_choice(probability, limits, money, ante, rolls) matches Some(
            action,
        ) && held_cpu_action(action, limits, money) == if limits.call_remainder > 0 {
            Action::Fold
        } else {
            Action::Call
        }),
{
}

/// The next step of the computer's decision, given the probability that its
/// hand wins and the random numbers drawn so far.
pub fn cpu_step(
    probability: Probability,
    limits: BetLimits,
    money: MoneyInner,
    ante: NonZeroMoneyInner,
    rolls: &[MoneyInner],
) -> (step: CpuStep)
    requires
        probability >= SEVENTY_FIVE_PERCENT && rolls@.len() >= 1 ==> limits.minimum_raise_total
            + sat_mul(ante@, rolls@[0]) <= u32::MAX,
    ensures
        (match cpu_choice(probability, limits, money, ante@, rolls@) {
            Some(action) => step == CpuStep::Act(held_cpu_action(action, limits, money)),
            None => step matches CpuStep::Roll(lo, hi) && (if probability >= SEVENTY_FIVE_PERCENT {
                lo == 6 && hi == 12
            } else if rolls@.len() == 0 {
                lo == 0 && hi == 5
            } else if rolls@.len() == 1 {
                lo == 0 && hi == 3
            } else {
                Some((lo, hi)) == spec_raise_units_range(cpu_action_spec(limits, money))
            }),
        }),
        probability < FIFTY_PERCENT ==> step == CpuStep::Act(
            if limits.call_remainder > 0 {
                Action::Fold
            } else {
                Action::Call
            },
        ),
        step == CpuStep::Act(Action::Fold) ==> limits.call_remainder > 0,
{
    let action = if probability >= SEVENTY_FIVE_PERCENT {
        if rolls.len() < 1 {
            return CpuStep::Roll(6, 12);
        }
        let a = ante.get() as u64;
        let b = rolls[0] as u64;
        assert(a * b <= u32::MAX as int * u32::MAX as int) by (nonlinear_arith)
            requires
                a <= u32::MAX,
                b <= u32::MAX,
        ;
        let product = a * b;
        let antes: MoneyInner = if product > u32::MAX as u64 {
            u32::MAX
        } else {
            product as MoneyInner
        };
        Action::Raise(limits.minimum_raise_total + antes)
    } else if probability >= FIFTY_PERCENT {
        if rolls.len() < 1 {
            return CpuStep::Roll(0, 5);
        }
        if rolls[0] != 0 {
            Action::Call
        } else {
            if rolls.len() < 2 {
                return CpuStep::Roll(0, 3);
            }
            // Don't be perfectly predictable!
            let spec = ActionSpec {
                one_past_max_money: NonZeroMoneyInner::min().saturating_add(money),
                min_money_unit: NonZeroMoneyInner::min_money_unit(),
                minimum_raise_total: limits.minimum_raise_total,
            };
            let units = if rolls[1] >= 2 {
                match raise_units_range(&spec) {
                    Some((lo, hi)) => {
                        if rolls.len() < 3 {
                            return CpuStep::Roll(lo, hi);
                        }
                        rolls[2]
                    },
                    None => 0,
                }
            } else {
                0
            };
            gen_action(&spec, rolls[1], units)
        }
    } else {
        Action::Fold
    };
    CpuStep::Act(
        match action {
            Action::Fold => if limits.call_remainder == 0 {
                Action::Call
            } else {
                Action::Fold
            },
            Action::Call => Action::Call,
            Action::Raise(amount) => if money < amount {
                Action::Raise(money)
            } else {
                Action::Raise(amount)
            },
        },
    )
}


/// What `action` puts into the pot, out of `money`, when calling takes
/// `call_remainder` more: a fold puts nothing; a call puts the remainder, or
/// all the money where that is less; a raise puts the raise, or all the money
/// where either the raise or the call is more than it.
pub open spec fn spec_bet_amount(action: Action, money: MoneyInner, call_remainder: MoneyInner) -> Option<MoneyInner> {
    match action {
        Action::Fold => None,
        Action::Call => Some(min_inner(money, call_remainder)),
        Action::Raise(raise) => Some(
            if money >= call_remainder && money >= raise {
                raise
            } else {
                money
            },
        ),
    }
}

/// Turns `action` into what the pot records, taking its bet out of `money`.
pub fn bet_for_action(money: &mut Money, action: Action, call_remainder: MoneyInner) -> (bet: PotAction)
    ensures
        (match spec_bet_amount(action, old(money)@, call_remainder) {
            None => bet == PotAction::Fold && final(money)@ == old(money)@,
            Some(amount) => bet matches PotAction::Bet(taken) && taken@ == amount && final(money)@
                == old(money)@ - amount,
        }),
{
    match action {
        Action::Fold => PotAction::Fold,
        Action::Call => {
            match money.as_inner().checked_sub(call_remainder) {
                Some(new_amount) => PotAction::Bet(money.take_all_but(new_amount)),
                None => PotAction::Bet(money.take_all()),
            }
        },
        Action::Raise(raise_amount) => {
            match money.as_inner().checked_sub(call_remainder) {
                Some(_) => {
                    match money.as_inner().checked_sub(raise_amount) {
                        Some(new_amount) => PotAction::Bet(money.take_all_but(new_amount)),
                        // A raise of more than the player has goes all in.
                        None => PotAction::Bet(money.take_all()),
                    }
                },
                None => PotAction::Bet(money.take_all()),
            }
        },
    }
}

/// Records the action of the current player in the pot, taking its bet out of
/// their money, and hands the turn to the next seat.
pub fn take_turn(
    pot: &mut Pot,
    moneys: &mut [Money; 9],
    current: &mut HandIndex,
    player_count: PlayerCount,
    action: Action,
    call_remainder: MoneyInner,
)
    requires
        old(pot).wf(),
        *old(current) < player_count.value(),
    ensures
        final(pot).wf(),
        final(pot).players() == old(pot).players(),
        ({
            let i = *old(current) as int;
            let before = money_amounts(old(moneys)@);
            match spec_bet_amount(action, before[i], call_remainder) {
                None => {
                    &&& final(pot).actions_of(i) == old(pot).actions_of(i).push(PotAction::Fold)
                    &&& money_amounts(final(moneys)@) == before
                },
                Some(amount) => {
                    &&& final(pot).actions_of(i).len() == old(pot).actions_of(i).len() + 1
                    &&& final(pot).actions_of(i).drop_last() == old(pot).actions_of(i)
                    &&& final(pot).actions_of(i).last() matches PotAction::Bet(taken)
                    &&& taken@ == amount
                    &&& money_amounts(final(moneys)@) == before.update(i, (before[i] - amount) as MoneyInner)
                },
            }
        }),
        forall|j: int|
            0 <= j < 22 && j != *old(current) ==> #[trigger] final(pot).actions_of(j) == old(pot).actions_of(j),
        forall|j: int| #[trigger] final(pot).gone().has(j) == (j == *old(current) || old(pot).gone().has(j)),
        *final(current) == if *old(current) + 1 >= player_count.value() {
            0
        } else {
            *old(current) + 1
        },
{
    proof {
        player_count.lemma_value(player_count);
    }
    let i = *current;
    let ghost before = money_amounts(moneys@);
    let bet = bet_for_action(&mut moneys[i as usize], action, call_remainder);
    proof {
        assert(money_amounts(moneys@) =~= before.update(i as int, moneys@[i as int]@));
    }
    pot.push_bet(i, bet);
    *current = i + 1;
    if *current >= player_count.u8() {
        *current = 0;
    }
}


/// Where the cursor goes on the hands this frame, with hand `index` of
/// `hands_len` under it: left and right go through the hands, wrapping around;
/// A goes to the menu; otherwise it stays. With nothing under the cursor it
/// goes to the first hand.
pub open spec fn spec_hand_nav(hot: Id, hands_len: HandsLen, pressed: Pressed) -> Option<Id> {
    match hot {
        Id::FiveCardDrawHand(index) => if index < hands_len {
            Some(
                if pressed.left {
                    Id::FiveCardDrawHand(
                        if index == 0 {
                            (hands_len - 1) as u8
                        } else {
                            (index - 1) as u8
                        },
                    )
                } else if pressed.right {
                    Id::FiveCardDrawHand(
                        if index + 1 >= hands_len {
                            0
                        } else {
                            (index + 1) as u8
                        },
                    )
                } else if pressed.a {
                    Id::FiveCardDrawMenu(ACTION_KIND)
                } else {
                    Id::FiveCardDrawHand(index)
                },
            )
        } else {
            None
        },
        Id::Zero => Some(Id::FiveCardDrawHand(0)),
        _ => None,
    }
}

pub fn hand_nav(hot: Id, hands_len: HandsLen, pressed: Pressed) -> (next_hot: Option<Id>)
    requires
        hands_len <= 9,
    ensures
        next_hot == spec_hand_nav(hot, hands_len, pressed),
{
    match hot {
        Id::FiveCardDrawHand(index) => {
            if index < hands_len {
                if pressed.left {
                    if index == 0 {
                        Some(Id::FiveCardDrawHand(hands_len - 1))
                    } else {
                        Some(Id::FiveCardDrawHand(index - 1))
                    }
                } else if pressed.right {
                    let next = index + 1;
                    if next >= hands_len {
                        Some(Id::FiveCardDrawHand(0))
                    } else {
                        Some(Id::FiveCardDrawHand(next))
                    }
                } else if pressed.a {
                    Some(Id::FiveCardDrawMenu(ACTION_KIND))
                } else {
                    Some(Id::FiveCardDrawHand(index))
                }
            } else {
                None
            }
        },
        Id::Zero => Some(Id::FiveCardDrawHand(0)),
        _ => None,
    }
}

/// A person's bet menu this frame, with the cursor on entry `id`: B goes back
/// to the player's hand; left and right move between entries; up and down go
/// through the kinds the menu allows, or change the amount by a money unit.
/// Going all in, the cursor waits on submit unless moved. Returns where the
/// cursor goes, if it moves, and the menu.
pub open spec fn spec_bet_menu(
    id: u8,
    pressed: Pressed,
    selection: MenuSelection,
    mode: AllowedKindMode,
    current: HandIndex,
) -> (Option<Id>, MenuSelection) {
    let raising = selection.action_kind == ActionKind::Raise;
    let waiting = if mode == AllowedKindMode::AllIn {
        Some(Id::FiveCardDrawMenu(SUBMIT))
    } else {
        None
    };
    if pressed.b {
        (Some(Id::FiveCardDrawHand(current)), selection)
    } else if pressed.left {
        (Some(Id::FiveCardDrawMenu(menu_left(id, raising))), selection)
    } else if pressed.right {
        (Some(Id::FiveCardDrawMenu(menu_right(id, raising))), selection)
    } else if id == ACTION_KIND && pressed.up {
        (waiting, MenuSelection { action_kind: selection.action_kind.spec_next_up(mode), ..selection })
    } else if id == ACTION_KIND && pressed.down {
        (waiting, MenuSelection { action_kind: selection.action_kind.spec_next_down(mode), ..selection })
    } else if id == MONEY_AMOUNT && pressed.up {
        (waiting, MenuSelection { bet: sat_add(selection.bet, MIN_MONEY_UNIT), ..selection })
    } else if id == MONEY_AMOUNT && pressed.down {
        (waiting, MenuSelection { bet: sat_sub(selection.bet, MIN_MONEY_UNIT), ..selection })
    } else {
        (waiting, selection)
    }
}

pub fn bet_menu(
    id: u8,
    pressed: Pressed,
    selection: MenuSelection,
    mode: AllowedKindMode,
    current: HandIndex,
) -> (result: (Option<Id>, MenuSelection))
    requires
        !(pressed.right && !pressed.left && !pressed.b && id == u8::MAX),
    ensures
        result == spec_bet_menu(id, pressed, selection, mode, current),
{
    let mut selection = selection;
    let mut next_hot = if mode == AllowedKindMode::AllIn {
        Some(Id::FiveCardDrawMenu(SUBMIT))
    } else {
        None
    };
    if pressed.b {
        next_hot = Some(Id::FiveCardDrawHand(current));
    } else if pressed.left {
        let mut new_id = match id.checked_sub(1) {
            Some(new_id) => new_id,
            None => MENU_KIND_ONE_PAST_MAX - 1,
        };
        if new_id == MONEY_AMOUNT && selection.action_kind != ActionKind::Raise {
            new_id = match new_id.checked_sub(1) {
                Some(new_id) => new_id,
                None => MENU_KIND_ONE_PAST_MAX - 1,
            };
        }
        next_hot = Some(Id::FiveCardDrawMenu(new_id));
    } else if pressed.right {
        let mut new_id = id + 1;
        if new_id >= MENU_KIND_ONE_PAST_MAX {
            new_id = 0;
        }
        if new_id == MONEY_AMOUNT && selection.action_kind != ActionKind::Raise {
            new_id += 1;
            if new_id >= MENU_KIND_ONE_PAST_MAX {
                new_id = 0;
            }
        }
        next_hot = Some(Id::FiveCardDrawMenu(new_id));
    } else if id == ACTION_KIND {
        if pressed.up {
            selection.action_kind = selection.action_kind.next_up(mode);
        } else if pressed.down {
            selection.action_kind = selection.action_kind.next_down(mode);
        }
    } else if id == MONEY_AMOUNT {
        if pressed.up {
            selection.bet = selection.bet.saturating_add(MIN_MONEY_UNIT);
        } else if pressed.down {
            selection.bet = selection.bet.saturating_sub(MIN_MONEY_UNIT);
        }
    }
    (next_hot, selection)
}

} // verus!
