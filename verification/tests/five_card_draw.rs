use pake::five_card_draw::{bet_menu, hand_nav, MenuSelection};
use pake::game::{Id, Pressed};
use pake::holdem::ActionKind;
use pake::cards::Deck;
use pake::five_card_draw::{
    bet_for_action, bet_limits, cpu_step, deal, hold_bet, starting_moneys, take_turn, CpuStep,
    PlayerCount, Table, TableState,
};
use pake::holdem::{Action, AllowedKindMode};
use pake::money::{Money, NonZeroMoneyInner};
use pake::pot::PotAction;
use pake::probability::{FIFTY_PERCENT, SEVENTY_FIVE_PERCENT};

#[test]
fn dealing_gives_five_cards_each_in_turn() {
    let (hands, deck) = deal(Deck::new(), PlayerCount::Three);
    assert_eq!(hands[0], [0; 5]);
    let mut ordered = Deck::from_cards(pake::cards::all_cards());
    ordered.burn();
    let (hands, mut rest) = deal(ordered, PlayerCount::Two);
    assert_eq!(hands[0], [1, 2, 3, 4, 5]);
    assert_eq!(hands[1], [6, 7, 8, 9, 10]);
    assert_eq!(hands[2], [0; 5]);
    assert_eq!(rest.draw(), Some(11));
    let _ = deck;
}

#[test]
fn selecting_takes_the_ante_and_starts_with_a_funded_player() {
    let moneys = Money::array_from_inner_array([500, 0, 3, 0, 0, 0, 0, 0, 0]);
    let table = Table::selected(PlayerCount::Three, moneys, Deck::new(), 1);
    let moneys: Vec<u32> = table.seats.moneys.iter().map(|m| m.as_inner()).collect();
    assert_eq!(&moneys[..4], &[495, 0, 0, 0]);
    assert_eq!(table.seats.ante.get(), 5);
    match table.state {
        TableState::FirstRound { bundle } => {
            // Seat 1 has nothing, seat 2 paid all it had: the turn goes to seat 0.
            assert_eq!(bundle.current, 0);
            assert_eq!(bundle.pot.amount_for(0), 5);
            assert_eq!(bundle.pot.amount_for(1), 0);
            assert_eq!(bundle.pot.amount_for(2), 3);
            assert_eq!(bundle.pot.call_amount(), 5);
        },
        _ => panic!("expected the first round"),
    }
}

#[test]
fn limits_follow_what_is_owed() {
    let moneys = starting_moneys(PlayerCount::Two, 100);
    let table = Table::selected(PlayerCount::Two, moneys, Deck::new(), 0);
    let mut seats = table.seats;
    let mut bundle = match table.state {
        TableState::FirstRound { bundle } => bundle,
        _ => panic!("expected the first round"),
    };
    let limits = bet_limits(&bundle.pot, 0, seats.moneys[0].as_inner());
    assert_eq!(limits.call_amount, 5);
    assert_eq!(limits.minimum_raise_total, 10);
    assert_eq!(limits.call_remainder, 0);
    assert_eq!(limits.call_leftover, Some(95));
    assert_eq!(limits.allowed_kind_mode, AllowedKindMode::NoFolding);
    // Seat 0 raises to 20 more.
    let mut current = 0;
    take_turn(&mut bundle.pot, &mut seats.moneys, &mut current, PlayerCount::Two, Action::Raise(20), 0);
    assert_eq!(current, 1);
    assert_eq!(seats.moneys[0].as_inner(), 75);
    let limits = bet_limits(&bundle.pot, 1, seats.moneys[1].as_inner());
    assert_eq!(limits.call_amount, 25);
    assert_eq!(limits.call_remainder, 20);
    assert_eq!(limits.allowed_kind_mode, AllowedKindMode::All);
    take_turn(&mut bundle.pot, &mut seats.moneys, &mut current, PlayerCount::Two, Action::Call, 20);
    assert_eq!(current, 0);
    assert_eq!(seats.moneys[1].as_inner(), 75);
    assert_eq!(bundle.pot.amount_for(1), 25);
}

#[test]
fn calls_and_raises_take_no_more_than_the_player_has() {
    let mut money = Money::array_from_inner_array([30])[0].take_all();
    assert!(matches!(bet_for_action(&mut money, Action::Call, 50), PotAction::Bet(m) if m.as_inner() == 30));
    assert_eq!(money.as_inner(), 0);
    let mut money = Money::array_from_inner_array([30])[0].take_all();
    assert!(matches!(bet_for_action(&mut money, Action::Raise(40), 10), PotAction::Bet(m) if m.as_inner() == 30));
    let mut money = Money::array_from_inner_array([30])[0].take_all();
    assert!(matches!(bet_for_action(&mut money, Action::Raise(20), 10), PotAction::Bet(m) if m.as_inner() == 20));
    assert_eq!(money.as_inner(), 10);
    let mut money = Money::array_from_inner_array([30])[0].take_all();
    assert_eq!(bet_for_action(&mut money, Action::Fold, 10), PotAction::Fold);
    assert_eq!(money.as_inner(), 30);
}

#[test]
fn the_menu_bet_stays_between_the_minimum_raise_and_the_money() {
    assert_eq!(hold_bet(0, 10, 100), 10);
    assert_eq!(hold_bet(500, 10, 100), 100);
    assert_eq!(hold_bet(50, 10, 100), 50);
    assert_eq!(hold_bet(50, 10, 5), 5);
}

#[test]
fn the_computer_asks_for_the_rolls_it_needs() {
    let moneys = starting_moneys(PlayerCount::Two, 100);
    let table = Table::selected(PlayerCount::Two, moneys, Deck::new(), 0);
    let bundle = match table.state {
        TableState::FirstRound { bundle } => bundle,
        _ => panic!("expected the first round"),
    };
    let limits = bet_limits(&bundle.pot, 0, 95);
    let ante = NonZeroMoneyInner::new(5).unwrap();
    assert!(matches!(cpu_step(SEVENTY_FIVE_PERCENT, limits, 95, ante, &[]), CpuStep::Roll(6, 12)));
    // Minimum raise 10 plus 8 antes of 5.
    assert!(matches!(cpu_step(SEVENTY_FIVE_PERCENT, limits, 95, ante, &[8]), CpuStep::Act(Action::Raise(50))));
    // More than it has becomes everything it has.
    assert!(matches!(cpu_step(SEVENTY_FIVE_PERCENT, limits, 20, ante, &[8]), CpuStep::Act(Action::Raise(20))));
    assert!(matches!(cpu_step(FIFTY_PERCENT, limits, 95, ante, &[]), CpuStep::Roll(0, 5)));
    assert!(matches!(cpu_step(FIFTY_PERCENT, limits, 95, ante, &[3]), CpuStep::Act(Action::Call)));
    assert!(matches!(cpu_step(FIFTY_PERCENT, limits, 95, ante, &[0]), CpuStep::Roll(0, 3)));
    // A random fold when nothing is owed becomes a call.
    assert!(matches!(cpu_step(FIFTY_PERCENT, limits, 95, ante, &[0, 0]), CpuStep::Act(Action::Call)));
    // A random raise: between the minimum raise and all the money, in units.
    assert!(matches!(cpu_step(FIFTY_PERCENT, limits, 95, ante, &[0, 2]), CpuStep::Roll(2, 20)));
    assert!(matches!(cpu_step(FIFTY_PERCENT, limits, 95, ante, &[0, 2, 7]), CpuStep::Act(Action::Raise(35))));
    assert!(matches!(cpu_step(0, limits, 95, ante, &[]), CpuStep::Act(Action::Call)));
}

#[test]
fn five_card_player_counts_come_from_bytes() {
    assert_eq!(PlayerCount::try_from(9u8), Ok(PlayerCount::Nine));
    assert_eq!(PlayerCount::try_from(0u8), Err("player count was too small"));
    assert_eq!(PlayerCount::try_from(10u8), Err("player count was to big"));
}

#[test]
fn nine_players_take_forty_five_cards() {
    let (hands, mut deck) = deal(Deck::from_cards(pake::cards::all_cards()), PlayerCount::Nine);
    assert_eq!(hands[8], [40, 41, 42, 43, 44]);
    for card in 45..52 {
        assert_eq!(deck.draw(), Some(card));
    }
    assert_eq!(deck.draw(), None);
}

#[test]
fn the_cursor_goes_around_the_hands_and_into_the_menu() {
    let left = Pressed { left: true, ..Pressed::default() };
    let right = Pressed { right: true, ..Pressed::default() };
    let a = Pressed { a: true, ..Pressed::default() };
    assert_eq!(hand_nav(Id::Zero, 3, Pressed::default()), Some(Id::FiveCardDrawHand(0)));
    assert_eq!(hand_nav(Id::FiveCardDrawHand(0), 3, left), Some(Id::FiveCardDrawHand(2)));
    assert_eq!(hand_nav(Id::FiveCardDrawHand(2), 3, right), Some(Id::FiveCardDrawHand(0)));
    assert_eq!(hand_nav(Id::FiveCardDrawHand(1), 3, a), Some(Id::FiveCardDrawMenu(0)));
    assert_eq!(hand_nav(Id::FiveCardDrawHand(5), 3, a), None);
}

#[test]
fn the_five_card_menu_offers_the_allowed_kinds() {
    let up = Pressed { up: true, ..Pressed::default() };
    let b = Pressed { b: true, ..Pressed::default() };
    let selection = MenuSelection { action_kind: ActionKind::Fold, bet: 10 };
    let (next, edited) = bet_menu(0, up, selection, AllowedKindMode::NoFolding, 1);
    assert_eq!(next, None);
    assert_eq!(edited.action_kind, ActionKind::Call);
    let (next, edited) = bet_menu(0, up, selection, AllowedKindMode::AllIn, 1);
    assert_eq!(next, Some(Id::FiveCardDrawMenu(2)));
    assert_eq!(edited.action_kind, ActionKind::Call);
    assert_eq!(bet_menu(1, b, selection, AllowedKindMode::All, 4).0, Some(Id::FiveCardDrawHand(4)));
    let down = Pressed { down: true, ..Pressed::default() };
    assert_eq!(bet_menu(1, down, selection, AllowedKindMode::All, 4).1.bet, 5);
}
