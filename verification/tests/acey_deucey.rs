use pake::acey_deucey::{
    act, bet_menu, calc_outcome, clamp_bet, cpu_open_action, deal, dealt_posts_frame, get_ranks,
    next_current, posts_kind, reveal_frame, settle, starting_moneys, table_frame, turn_action, undealt_menu, Ace, Action,
    ActionKind, HighLow, MenuSelection, Outcome, PlayerCount, PostsKind, Round, Seats, StateBundle,
    Table, TableState,
};
use pake::cards::{all_cards, Deck};
use pake::game::{Dir, Id, ModeCmd, Pressed};
use pake::money::{Money, NonZeroMoneyInner};

/// A deck whose first cards are `top`, followed by the rest of the deck in order.
fn deck_starting_with(top: &[u8]) -> Deck {
    let mut cards = all_cards();
    let mut order: Vec<u8> = top.to_vec();
    for card in cards.iter() {
        if !top.contains(card) {
            order.push(*card);
        }
    }
    cards.copy_from_slice(&order);
    Deck::from_cards(cards)
}

fn amounts(moneys: &[Money]) -> Vec<u32> {
    moneys.iter().map(|m| m.as_inner()).collect()
}

fn total(seats: &Seats, state: &TableState) -> u64 {
    let pot = match state {
        TableState::Undealt { .. } => 0,
        TableState::DealtPosts { bundle } => bundle.pot.as_inner(),
        TableState::Reveal { bundle, .. } => bundle.pot.as_inner(),
    };
    seats.moneys.iter().map(|m| u64::from(m.as_inner())).sum::<u64>() + u64::from(pot)
}

fn bundle_of(state: TableState) -> StateBundle {
    match state {
        TableState::DealtPosts { bundle } => bundle,
        _ => panic!("expected dealt posts"),
    }
}

#[test]
fn an_ace_counts_as_declared_first_and_high_second() {
    // Card 0 is the ace of clubs, card 13 the ace of diamonds, card 5 a six.
    assert_eq!(get_ranks([0, 5], HighLow::Low), [0, 5]);
    assert_eq!(get_ranks([0, 5], HighLow::High), [13, 5]);
    assert_eq!(get_ranks([5, 13], HighLow::Low), [5, 13]);
}

#[test]
fn a_third_card_must_fall_strictly_between() {
    // Posts: a three (2) and a nine (8).
    assert_eq!(calc_outcome([2, 8], 5, Ace::Undecided), Outcome::Win);
    assert_eq!(calc_outcome([8, 2], 5 + 13, Ace::Undecided), Outcome::Win);
    assert_eq!(calc_outcome([2, 8], 2 + 13, Ace::Undecided), Outcome::Loss);
    assert_eq!(calc_outcome([2, 8], 8 + 26, Ace::Undecided), Outcome::Loss);
    assert_eq!(calc_outcome([2, 8], 12, Ace::Undecided), Outcome::Loss);
    // An ace declared high: everything from the two up to the king is between
    // it and a two.
    assert_eq!(calc_outcome([0, 1], 12, Ace::Decided(HighLow::High)), Outcome::Win);
    assert_eq!(calc_outcome([0, 1], 12, Ace::Decided(HighLow::Low)), Outcome::Loss);
}

#[test]
fn posts_are_open_connectors_or_a_pair() {
    assert_eq!(posts_kind([2, 8], HighLow::Low), PostsKind::Open);
    assert_eq!(posts_kind([2, 3], HighLow::Low), PostsKind::Connectors);
    assert_eq!(posts_kind([3, 2 + 13], HighLow::Low), PostsKind::Connectors);
    assert_eq!(posts_kind([4, 4 + 39], HighLow::Low), PostsKind::Pair);
    // An ace low and a two are connectors; an ace high and a king too.
    assert_eq!(posts_kind([0, 1], HighLow::Low), PostsKind::Connectors);
    assert_eq!(posts_kind([0, 12], HighLow::High), PostsKind::Connectors);
    assert_eq!(posts_kind([0, 13], HighLow::High), PostsKind::Pair);
}

#[test]
fn selecting_collects_the_antes() {
    let moneys = starting_moneys(PlayerCount::Three, 500);
    let deck = deck_starting_with(&[2, 8]);
    let table = Table::selected(PlayerCount::Three, moneys, deck, 1);
    assert_eq!(&amounts(&table.seats.moneys)[..4], &[475, 475, 475, 0]);
    assert!(table.seats.personalities[0].is_none());
    assert!(table.seats.personalities[1].is_some());
    assert!(table.seats.personalities[2].is_some());
    assert!(table.seats.personalities[3].is_none());
    let bundle = bundle_of(table.state);
    assert_eq!(bundle.pot.as_inner(), 75);
    assert_eq!(bundle.posts, [2, 8]);
    assert_eq!(bundle.current, 1);
    assert_eq!(bundle.round, Round::One);
    assert_eq!(bundle.selection, MenuSelection::default());
}

#[test]
fn an_ante_takes_what_a_short_player_has() {
    let moneys = Money::array_from_inner_array([500, 10, 0, 0, 0, 0, 0, 0, 0, 0, 0, 0, 0, 0, 0, 0, 0]);
    let table = Table::selected(PlayerCount::Two, moneys, Deck::new(), 0);
    assert_eq!(&amounts(&table.seats.moneys)[..2], &[475, 0]);
    assert_eq!(bundle_of(table.state).pot.as_inner(), 35);
}

#[test]
fn dealing_takes_the_top_two_cards() {
    let (posts, deck) = deal(deck_starting_with(&[40, 7]));
    assert_eq!(posts, [40, 7]);
    let (posts, _) = deal(deck);
    assert_eq!(posts, [0, 1]);
}

#[test]
fn the_turn_skips_players_without_money() {
    let moneys = Money::array_from_inner_array([5, 0, 0, 7, 0, 0, 0, 0, 0, 0, 0, 0, 0, 0, 0, 0, 0]);
    assert_eq!(next_current(&moneys, 0, PlayerCount::Five), 3);
    assert_eq!(next_current(&moneys, 3, PlayerCount::Five), 0);
    let broke = Money::array_from_inner_array([0; 17]);
    assert_eq!(next_current(&broke, 2, PlayerCount::Four), 2);
}

#[test]
fn the_computer_bets_on_wide_posts_only() {
    // A two and a king: the nine ranks between win.
    assert!(matches!(cpu_open_action([1, 12], Ace::Undecided), Action::Bet(b) if b.get() == 25));
    // A three and a six: only the fours and fives win.
    assert_eq!(cpu_open_action([2, 5], Ace::Undecided), Action::Pass);
}

#[test]
fn a_person_acts_only_on_submit() {
    let selection = MenuSelection::default();
    assert_eq!(turn_action([1, 12], HighLow::Low, selection, false, false), None);
    assert_eq!(turn_action([1, 12], HighLow::Low, selection, false, true), Some(Action::Pass));
    let betting = MenuSelection { action_kind: ActionKind::Bet, ..selection };
    assert_eq!(
        turn_action([1, 12], HighLow::Low, betting, false, true),
        Some(Action::Bet(selection.bet))
    );
    assert!(matches!(
        turn_action([4, 4 + 13], HighLow::Low, selection, true, false),
        Some(Action::Burn(b)) if b.get() == 10
    ));
    assert!(matches!(
        turn_action([4, 5], HighLow::Low, selection, false, true),
        Some(Action::Burn(b)) if b.get() == 5
    ));
}

#[test]
fn bets_are_held_to_the_money_and_the_pot() {
    let bet = NonZeroMoneyInner::new(100).unwrap();
    assert_eq!(clamp_bet(bet, 60, 1000, Round::AfterOne).get(), 60);
    assert_eq!(clamp_bet(bet, 500, 80, Round::One).get(), 40);
    assert_eq!(clamp_bet(bet, 500, 80, Round::AfterOne).get(), 80);
    // A limit of nothing leaves the bet alone.
    assert_eq!(clamp_bet(bet, 0, 1, Round::One).get(), 100);
}

#[test]
fn burning_moves_money_into_the_pot_and_hands_the_turn_on() {
    let moneys = starting_moneys(PlayerCount::Two, 500);
    let table = Table::selected(PlayerCount::Two, moneys, deck_starting_with(&[4, 5, 20, 30]), 0);
    let mut seats = table.seats;
    let bundle = bundle_of(table.state);
    let before = total(&seats, &TableState::Undealt { player_count: PlayerCount::Two, starting_money: 0 }) + 50;
    let state = act(&mut seats, bundle, Action::Burn(NonZeroMoneyInner::new(5).unwrap()), false, None);
    assert_eq!(total(&seats, &state), before);
    assert_eq!(seats.moneys[0].as_inner(), 470);
    let bundle = bundle_of(state);
    assert_eq!(bundle.pot.as_inner(), 55);
    assert_eq!(bundle.current, 1);
    assert_eq!(bundle.posts, [20, 30]);
    assert_eq!(bundle.round, Round::AfterOne);
}

#[test]
fn a_bet_reveals_the_third_card_and_settling_pays_out() {
    let moneys = starting_moneys(PlayerCount::Two, 500);
    // Posts a two (1) and a king (12); the third card a seven (6) wins.
    let table = Table::selected(PlayerCount::Two, moneys, deck_starting_with(&[1, 12, 6, 20, 30]), 0);
    let mut seats = table.seats;
    let bundle = bundle_of(table.state);
    let bet = NonZeroMoneyInner::new(20).unwrap();
    let state = act(&mut seats, bundle, Action::Bet(bet), false, None);
    let (bundle, third, bet) = match state {
        TableState::Reveal { bundle, third, bet } => (bundle, third, bet),
        _ => panic!("expected a reveal"),
    };
    assert_eq!(third, 6);
    let (state, cmd) = settle(&mut seats, bundle, third, bet, None);
    assert_eq!(cmd, ModeCmd::NoOp);
    assert_eq!(seats.moneys[0].as_inner(), 495);
    assert_eq!(total(&seats, &state), 1000);
    let bundle = bundle_of(state);
    assert_eq!(bundle.pot.as_inner(), 30);
    assert_eq!(bundle.current, 1);
}

#[test]
fn emptying_the_pot_finishes_the_game() {
    let moneys = starting_moneys(PlayerCount::Two, 500);
    let table = Table::selected(PlayerCount::Two, moneys, deck_starting_with(&[1, 12, 6]), 0);
    let mut seats = table.seats;
    let bundle = bundle_of(table.state);
    let bet = NonZeroMoneyInner::new(100).unwrap();
    let (state, cmd) = settle(&mut seats, bundle, 6, bet, None);
    assert_eq!(cmd, ModeCmd::FinishedRound);
    assert!(matches!(state, TableState::Undealt { player_count: PlayerCount::Two, starting_money: 500 }));
    assert_eq!(seats.moneys[0].as_inner(), 525);
    assert_eq!(seats.moneys[1].as_inner(), 475);
}

#[test]
fn losing_pays_the_pot() {
    let moneys = starting_moneys(PlayerCount::Two, 500);
    let table = Table::selected(PlayerCount::Two, moneys, deck_starting_with(&[1, 12]), 1);
    let mut seats = table.seats;
    let bundle = bundle_of(table.state);
    let bet = NonZeroMoneyInner::new(30).unwrap();
    // A king as the third card is not between a two and a king.
    let (state, cmd) = settle(&mut seats, bundle, 12 + 13, bet, None);
    assert_eq!(cmd, ModeCmd::NoOp);
    assert_eq!(seats.moneys[1].as_inner(), 445);
    assert_eq!(bundle_of(state).pot.as_inner(), 80);
}

#[test]
fn a_used_up_deck_gives_way_to_the_fresh_one() {
    let moneys = starting_moneys(PlayerCount::Two, 500);
    let mut deck = Deck::new();
    for _ in 0..51 {
        deck.burn();
    }
    let table = Table::selected(PlayerCount::Two, moneys, deck, 0);
    let mut seats = table.seats;
    let bundle = bundle_of(table.state);
    let fresh = deck_starting_with(&[7, 9]);
    let state = act(&mut seats, bundle, Action::Pass, false, Some(fresh));
    assert_eq!(bundle_of(state).posts, [7, 9]);
}

#[test]
fn the_computer_passing_waits_for_acknowledgement() {
    let moneys = starting_moneys(PlayerCount::Two, 500);
    // Posts a three and a six: the computer passes.
    let table = Table::selected(PlayerCount::Two, moneys, deck_starting_with(&[2, 5, 20, 30]), 1);
    let mut seats = table.seats;
    let bundle = bundle_of(table.state);
    let (state, next_hot) = dealt_posts_frame(&mut seats, bundle, false, Id::Zero, Pressed::default(), None);
    assert_eq!(next_hot, None);
    let bundle = bundle_of(state);
    assert!(bundle.selection.cpu_passed);
    let (state, next_hot) = dealt_posts_frame(&mut seats, bundle, false, Id::Zero, Pressed::default(), None);
    assert_eq!(next_hot, Some(Id::AcknowledgeCPUPass));
    let bundle = bundle_of(state);
    let (state, _) = dealt_posts_frame(&mut seats, bundle, true, Id::AcknowledgeCPUPass, Pressed::default(), None);
    let bundle = bundle_of(state);
    assert!(!bundle.selection.cpu_passed);
    assert_eq!(bundle.current, 0);
    assert_eq!(bundle.posts, [20, 30]);
}

#[test]
fn the_setup_menu_moves_and_changes_values() {
    let mut player_count = PlayerCount::Two;
    let mut money = 500;
    assert_eq!(undealt_menu(Id::Zero, None, &mut player_count, &mut money), Some(Id::PlayerCountSelect));
    assert_eq!(undealt_menu(Id::PlayerCountSelect, Some(Dir::Up), &mut player_count, &mut money), None);
    assert_eq!(player_count, PlayerCount::Three);
    assert_eq!(
        undealt_menu(Id::PlayerCountSelect, Some(Dir::Right), &mut player_count, &mut money),
        Some(Id::StartingMoneySelect)
    );
    let mut other = PlayerCount::Two;
    undealt_menu(Id::StartingMoneySelect, Some(Dir::Down), &mut other, &mut money);
    assert_eq!(money, 495);
    let mut little = 5;
    undealt_menu(Id::StartingMoneySelect, Some(Dir::Down), &mut player_count, &mut little);
    assert_eq!(little, 5);
    let mut most = PlayerCount::Seventeen;
    undealt_menu(Id::PlayerCountSelect, Some(Dir::Up), &mut most, &mut money);
    assert_eq!(most, PlayerCount::Seventeen);
}

#[test]
fn the_bet_menu_skips_the_amount_unless_betting() {
    let selection = MenuSelection::default();
    let right = Pressed { right: true, ..Pressed::default() };
    let left = Pressed { left: true, ..Pressed::default() };
    assert_eq!(bet_menu(0, right, selection).0, Some(2));
    assert_eq!(bet_menu(2, left, selection).0, Some(0));
    let betting = MenuSelection { action_kind: ActionKind::Bet, ..selection };
    assert_eq!(bet_menu(0, right, betting).0, Some(1));
    assert_eq!(bet_menu(0, left, betting).0, Some(2));
    let up = Pressed { up: true, ..Pressed::default() };
    let down = Pressed { down: true, ..Pressed::default() };
    assert_eq!(bet_menu(1, up, betting).1.bet.get(), 10);
    // The amount never goes down to nothing.
    assert_eq!(bet_menu(1, down, betting).1.bet.get(), 5);
    assert_eq!(bet_menu(0, up, selection).1.action_kind, ActionKind::Bet);
}

#[test]
fn player_counts_come_from_bytes() {
    assert_eq!(PlayerCount::try_from(17u8), Ok(PlayerCount::Seventeen));
    assert_eq!(PlayerCount::try_from(1u8), Err("player count was too small"));
    assert_eq!(PlayerCount::try_from(18u8), Err("player count was too big"));
    assert_eq!(PlayerCount::Seven.text(), "7");
    assert_eq!(PlayerCount::Seventeen.saturating_add_1(), PlayerCount::Seventeen);
    assert_eq!(PlayerCount::Two.saturating_sub_1(), PlayerCount::Two);
    assert_eq!(HighLow::Low.next_up(), HighLow::High);
    assert_eq!(ActionKind::Pass.text(), b"pass");
}

#[test]
fn seventeen_players_need_at_most_fifty_one_cards_a_round() {
    // Each turn deals up to three cards: two posts and a third.
    let mut deck = Deck::from_cards(all_cards());
    for _ in 0..17 {
        let (_, rest) = deal(deck);
        deck = rest;
        assert!(deck.draw().is_some());
    }
    assert!(deck.draw().is_some());
    assert_eq!(deck.draw(), None);
}

#[test]
fn the_reveal_waits_for_the_next_button() {
    let moneys = starting_moneys(PlayerCount::Two, 500);
    let table = Table::selected(PlayerCount::Two, moneys, deck_starting_with(&[1, 12, 6, 20, 30]), 0);
    let mut seats = table.seats;
    let bundle = bundle_of(table.state);
    let bet = NonZeroMoneyInner::new(20).unwrap();
    let (state, cmd, next_hot) = reveal_frame(&mut seats, bundle, 6, bet, false, Id::Zero, None);
    assert_eq!(cmd, ModeCmd::NoOp);
    assert_eq!(next_hot, Some(Id::NextDeal));
    let bundle = match state {
        TableState::Reveal { bundle, .. } => bundle,
        _ => panic!("expected the reveal to stay"),
    };
    let (state, cmd, next_hot) = reveal_frame(&mut seats, bundle, 6, bet, true, Id::NextDeal, None);
    assert_eq!(cmd, ModeCmd::NoOp);
    assert_eq!(next_hot, None);
    assert_eq!(seats.moneys[0].as_inner(), 495);
    assert_eq!(bundle_of(state).pot.as_inner(), 30);
}

#[test]
fn a_whole_frame_sets_up_and_plays_a_game() {
    let mut table = Table::default();
    let shuffled = all_cards();
    let none = Pressed::default();

    // The cursor starts on the player count, which then goes up.
    let (cmd, hot) = table_frame(&mut table, Id::Zero, none, None, false, false, false, shuffled, 0);
    assert_eq!(cmd, ModeCmd::NoOp);
    assert_eq!(hot, Some(Id::PlayerCountSelect));
    let (_, _) = table_frame(&mut table, Id::PlayerCountSelect, none, Some(Dir::Up), false, false, false, shuffled, 0);
    assert!(matches!(table.state, TableState::Undealt { player_count: PlayerCount::Three, starting_money: 500 }));

    // Backing out asks for the title screen.
    let mut other = Table::default();
    let (cmd, _) = table_frame(&mut other, Id::BackToTitleScreen, none, None, true, false, false, shuffled, 0);
    assert_eq!(cmd, ModeCmd::BackToTitleScreen);

    // Submitting starts the game: three antes in the pot, posts off the top.
    let (cmd, hot) = table_frame(&mut table, Id::Submit, none, None, false, true, false, shuffled, 2);
    assert_eq!(cmd, ModeCmd::NoOp);
    assert_eq!(hot, None);
    assert_eq!(total(&table.seats, &table.state), 1500);
    assert_eq!(table.seats.moneys[0].as_inner(), 475);
    assert_eq!(table.seats.moneys[3].as_inner(), 0);
    match &table.state {
        TableState::DealtPosts { bundle } => {
            assert_eq!(bundle.pot.as_inner(), 75);
            assert_eq!(bundle.current, 2);
            assert_eq!(bundle.posts, [0, 1]);
        },
        _ => panic!("expected dealt posts"),
    }

    // A frame of the computer's turn moves no money.
    let (cmd, _) = table_frame(&mut table, Id::Zero, none, None, false, false, false, shuffled, 0);
    assert_eq!(cmd, ModeCmd::NoOp);
    assert_eq!(total(&table.seats, &table.state), 1500);
}

#[test]
fn a_whole_frame_settles_a_revealed_card() {
    let moneys = starting_moneys(PlayerCount::Two, 500);
    let table = Table::selected(PlayerCount::Two, moneys, deck_starting_with(&[1, 12, 6, 20, 30]), 0);
    let mut seats = table.seats;
    let bundle = bundle_of(table.state);
    let bet = NonZeroMoneyInner::new(20).unwrap();
    let state = act(&mut seats, bundle, Action::Bet(bet), false, None);
    let mut table = Table { seats, state };
    assert!(matches!(table.state, TableState::Reveal { .. }));
    let (cmd, hot) = table_frame(&mut table, Id::Zero, Pressed::default(), None, false, false, true, all_cards(), 0);
    assert_eq!(cmd, ModeCmd::NoOp);
    assert_eq!(hot, Some(Id::NextDeal));
    assert_eq!(table.seats.moneys[0].as_inner(), 495);
    assert_eq!(total(&table.seats, &table.state), 1000);
    assert_eq!(bundle_of(table.state).current, 1);
}
