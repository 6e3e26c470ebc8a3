use pake::holdem::{PerPlayerBitset, PerPlayerBitsetIter};
use pake::cards::CardBitsetIter;
use pake::holdem::{deal_community_cards, deal_from_deck, deal_to_community_cards, CommunityCards, HandLen};
use pake::holdem::{gen_action, raise_units_range, Action, ActionSpec};
use pake::cards::{CardBitset, DECK_SIZE};
use pake::holdem::{HandIndex, MAX_PLAYERS};
use pake::money::{split_among, Money, MoneyInner, MoneyMove, NonZeroMoneyInner, MIN_MONEY_UNIT};
use pake::pot::{Pot, PotAction, RoundOutcome};

#[test]
fn full_is_full() {
    let full = CardBitset::full();

    assert_eq!(full.len(), DECK_SIZE);

    assert_eq!(full.iter().into_iter().count(), DECK_SIZE as usize);
}

fn split_case<const N: usize>(
    start_with: MoneyInner,
    targets: [MoneyInner; N],
    remainder_goes_to: usize,
    expected: [MoneyInner; N],
) {
    let mut targets = targets;
    for el in &mut targets {
        *el *= MIN_MONEY_UNIT;
    }
    let mut expected = expected;
    for el in &mut expected {
        *el *= MIN_MONEY_UNIT;
    }
    let start_with = start_with * MIN_MONEY_UNIT;

    split_among(start_with, &mut targets[..], remainder_goes_to);

    assert_eq!(targets, expected);
}

#[test]
fn split_among_works_on_these_examples() {
    split_case(10, [0], 0, [10]);
    split_case(10, [0, 0, 0], 0, [4, 3, 3]);
    split_case(10, [0, 0, 0], 1, [3, 4, 3]);
    split_case(10, [0, 0, 0], 2, [3, 3, 4]);
    split_case(10, [0, 0, 0], 3, [4, 3, 3]);
    split_case(10, [0, 0, 0], 99, [4, 3, 3]);

    split_case(10, [5], 0, [15]);
    // [1 + 4, 2 + 3, 3 + 3]
    split_case(10, [1, 2, 3], 0, [5, 5, 6]);
    // [1 + 3, 2 + 4, 3 + 3]
    split_case(10, [1, 2, 3], 1, [4, 6, 6]);
    // [1 + 3, 2 + 3, 3 + 4]
    split_case(10, [1, 2, 3], 2, [4, 5, 7]);
    split_case(10, [1, 2, 3], 3, [5, 5, 6]);
    split_case(10, [1, 2, 3], 99, [5, 5, 6]);
}

fn money(inner: MoneyInner) -> Money {
    let [mut m] = Money::array_from_inner_array([inner]);
    m.take_all()
}

#[test]
fn take_all_but_works_for_these_examples() {
    fn a(start_with: MoneyInner, to_leave: MoneyInner, end_with: MoneyInner, taken: MoneyInner) {
        let mut m = money(start_with);

        let t = m.take_all_but(to_leave);

        assert_eq!(m.as_inner(), end_with);
        assert_eq!(t.as_inner(), taken);
    }
    a(10, 0, 0, 10);
    a(10, 4, 4, 6);
    a(10, 10, 10, 0);
    a(10, 99, 10, 0);
    a(10, MoneyInner::MAX, 10, 0);

    a(0, 0, 0, 0);
    a(0, 4, 0, 0);
    a(0, 10, 0, 0);
    a(0, 99, 0, 0);
    a(0, MoneyInner::MAX, 0, 0);
}

#[test]
fn perform_works_for_these_examples() {
    fn a(from_before: MoneyInner, to_before: MoneyInner, amount: MoneyInner, from_after: MoneyInner, to_after: MoneyInner) {
        let mut from = money(from_before);
        let mut to = money(to_before);

        MoneyMove {
            from: &mut from,
            to: &mut to,
            amount: NonZeroMoneyInner::new(amount).unwrap(),
        }
        .perform();

        assert_eq!(from.as_inner(), from_after);
        assert_eq!(to.as_inner(), to_after);
    }

    a(10, 10, 4, 6, 14);
    a(10, 10, 10, 0, 20);
    a(10, 10, 99, 0, 20);
    a(10, 10, MoneyInner::MAX, 0, 20);

    a(10, 0, 4, 6, 4);
    a(10, 0, 10, 0, 10);
    a(10, 0, 99, 0, 10);
    a(10, 0, MoneyInner::MAX, 0, 10);

    a(0, 10, 4, 0, 10);
    a(0, 10, 10, 0, 10);
    a(0, 10, 99, 0, 10);
    a(0, 10, MoneyInner::MAX, 0, 10);

    a(0, 0, 4, 0, 0);
    a(0, 0, 10, 0, 0);
    a(0, 0, 99, 0, 0);
    a(0, 0, MoneyInner::MAX, 0, 0);
}

enum Spec {
    Bet(MoneyInner),
    AllIn(MoneyInner),
    Fold,
}

fn bet(amount: MoneyInner) -> Spec {
    Spec::Bet(amount)
}

fn all_in(amount: MoneyInner) -> Spec {
    Spec::AllIn(amount)
}

fn fold() -> Spec {
    Spec::Fold
}

fn pot_and_moneys(specs: Vec<Spec>) -> (Pot, [Money; MAX_PLAYERS as usize]) {
    let mut pot = Pot::default();
    let mut moneys = [0; MAX_PLAYERS as usize];
    for (i, spec) in specs.into_iter().enumerate() {
        let (action, is_all_in) = match spec {
            Spec::Bet(amount) => (PotAction::Bet(money(amount)), false),
            Spec::AllIn(amount) => (PotAction::Bet(money(amount)), true),
            Spec::Fold => (PotAction::Fold, false),
        };
        pot.push_bet(HandIndex::try_from(i).unwrap(), action);
        moneys[i] = if is_all_in { 0 } else { 1 };
    }
    (pot, Money::array_from_inner_array(moneys))
}

fn call_amount_case(specs: Vec<Spec>, expected: MoneyInner) {
    let (pot, _moneys) = pot_and_moneys(specs);
    let actual: MoneyInner = pot.call_amount();
    assert_eq!(actual, expected);
}

fn individual_pots_case(specs: Vec<Spec>, expected: Vec<MoneyInner>) {
    let (pot, moneys) = pot_and_moneys(specs);
    let actual: Vec<MoneyInner> = pot.individual_pots(&moneys);
    assert_eq!(actual, expected);
}

fn round_outcome_case(specs: Vec<Spec>, expected: RoundOutcome) {
    let (pot, moneys) = pot_and_moneys(specs);
    let actual = pot.round_outcome(&moneys);
    assert_eq!(actual, expected);
}

#[test]
fn models_on_these_examples() {
    // The call amount.
    call_amount_case(vec![bet(5), bet(10)], 10);
    call_amount_case(vec![all_in(300), all_in(500)], 500);
    call_amount_case(vec![all_in(300), all_in(500), all_in(800)], 800);
    call_amount_case(vec![all_in(800), all_in(500), all_in(300)], 800);
    call_amount_case(vec![all_in(500), all_in(300), all_in(800)], 800);
    call_amount_case(vec![all_in(300), all_in(500), bet(800)], 800);
    call_amount_case(vec![all_in(300), all_in(500), bet(800), bet(800)], 800);
    call_amount_case(vec![all_in(300), all_in(500), bet(900), bet(900)], 900);

    // The individual pots.
    individual_pots_case(vec![bet(5), bet(10)], vec![15]);
    individual_pots_case(vec![all_in(300), all_in(500)], vec![600]);
    individual_pots_case(vec![all_in(300), all_in(500), all_in(800)], vec![900, 400]);
    individual_pots_case(vec![all_in(800), all_in(500), all_in(300)], vec![900, 400]);
    individual_pots_case(vec![all_in(500), all_in(300), all_in(800)], vec![900, 400]);
    individual_pots_case(vec![all_in(300), all_in(500), bet(800)], vec![900, 400]);
    individual_pots_case(
        vec![all_in(300), all_in(500), bet(800), bet(800)],
        vec![300 * 4, 200 * 3, 300 * 2],
    );
    individual_pots_case(
        vec![all_in(300), all_in(500), bet(900), bet(900)],
        vec![300 * 4, 200 * 3, 400 * 2],
    );
    individual_pots_case(vec![bet(5), bet(10), fold()], vec![15]);
    individual_pots_case(vec![all_in(300), fold(), all_in(500), fold(), bet(800)], vec![900, 400]);

    // Whether the round is complete.

    round_outcome_case(vec![bet(5), bet(10)], RoundOutcome::Undetermined);
    round_outcome_case(vec![all_in(300), all_in(500)], RoundOutcome::AdvanceToNext);
    round_outcome_case(vec![all_in(300), all_in(500), all_in(800)], RoundOutcome::AdvanceToNext);
    round_outcome_case(vec![all_in(800), all_in(500), all_in(300)], RoundOutcome::AdvanceToNext);
    round_outcome_case(vec![all_in(500), all_in(300), all_in(800)], RoundOutcome::AdvanceToNext);
    round_outcome_case(vec![all_in(300), all_in(500), bet(800)], RoundOutcome::AdvanceToNext);
    round_outcome_case(vec![all_in(300), all_in(500), bet(300)], RoundOutcome::Undetermined);
    round_outcome_case(vec![all_in(300), all_in(500), bet(800), bet(800)], RoundOutcome::AdvanceToNext);
    round_outcome_case(vec![all_in(300), all_in(500), bet(900), bet(900)], RoundOutcome::AdvanceToNext);
    round_outcome_case(vec![bet(5), bet(10), fold()], RoundOutcome::Undetermined);
    round_outcome_case(vec![all_in(300), fold(), all_in(500), fold(), bet(800)], RoundOutcome::AdvanceToNext);
    round_outcome_case(vec![all_in(300), fold(), fold()], RoundOutcome::AwardNow(0));
    round_outcome_case(vec![fold(), all_in(300), fold()], RoundOutcome::AwardNow(1));
    round_outcome_case(vec![fold(), fold(), all_in(300)], RoundOutcome::AwardNow(2));
}

#[test]
fn random_actions_follow_their_rolls() {
    let spec = ActionSpec {
        one_past_max_money: NonZeroMoneyInner::new(101).unwrap(),
        min_money_unit: NonZeroMoneyInner::new(5).unwrap(),
        minimum_raise_total: 20,
    };
    assert!(matches!(gen_action(&spec, 0, 0), Action::Fold));
    assert!(matches!(gen_action(&spec, 1, 0), Action::Call));
    assert_eq!(raise_units_range(&spec), Some((4, 21)));
    assert!(matches!(gen_action(&spec, 2, 7), Action::Raise(35)));
    let broke = ActionSpec {
        one_past_max_money: NonZeroMoneyInner::new(10).unwrap(),
        min_money_unit: NonZeroMoneyInner::new(5).unwrap(),
        minimum_raise_total: 20,
    };
    assert_eq!(raise_units_range(&broke), None);
    assert!(matches!(gen_action(&broke, 2, 7), Action::Call));
}

#[test]
fn twenty_two_hands_leave_enough_for_the_board_and_burns() {
    let deck = pake::cards::Deck::from_cards(pake::cards::all_cards());
    let (hands, mut deck) = deal_from_deck(deck, HandLen::TwentyTwo);
    assert_eq!(hands.iter().len(), 22);
    let mut board = deal_community_cards(&mut deck).expect("a flop");
    deal_to_community_cards(&mut deck, &mut board);
    deal_to_community_cards(&mut deck, &mut board);
    assert!(matches!(board, CommunityCards::River(_, _, _)));
    // 44 dealt, 3 burned, 5 on the board: all 52 cards.
    assert_eq!(deck.draw(), None);
}

#[test]
fn card_and_player_iterators_go_in_order() {
    let mut iter = CardBitsetIter::new(CardBitset::full());
    let mut count = 0;
    while let Some(card) = iter.next() {
        assert_eq!(card, count);
        count += 1;
    }
    assert_eq!(count, DECK_SIZE);
    let mut set = CardBitset::empty();
    set.set(3);
    set.set(40);
    let mut iter = CardBitsetIter::new(set);
    assert_eq!(iter.next(), Some(3));
    assert_eq!(iter.next(), Some(40));
    assert_eq!(iter.next(), None);
    let mut players = PerPlayerBitset::new();
    players.set(21);
    players.set(2);
    let mut iter = PerPlayerBitsetIter::new(players);
    assert_eq!(iter.next(), Some(2));
    assert_eq!(iter.next(), Some(21));
    assert_eq!(iter.next(), None);
}

#[test]
fn the_last_seat_counts_when_everyone_else_folds() {
    // Players 0 and 21 bet and still have money; everyone between folded.
    let mut specs = vec![bet(100)];
    specs.extend((1..21).map(|_| fold()));
    specs.push(bet(100));
    round_outcome_case(specs, RoundOutcome::AdvanceToNext);

    // Only the last seat is left.
    let mut specs: Vec<Spec> = (0..21).map(|_| fold()).collect();
    specs.push(all_in(300));
    round_outcome_case(specs, RoundOutcome::AwardNow(21));
}

#[test]
fn card_bitset_counts_follow_set_and_remove() {
    let mut set = CardBitset::empty();
    assert_eq!(set.len(), 0);
    set.set(5);
    set.set(5);
    set.set(51);
    assert_eq!(set.len(), 2);
    set.remove(7);
    assert_eq!(set.len(), 2);
    set.remove(5);
    assert_eq!(set.len(), 1);
    assert_eq!(set.iter(), vec![51]);

    // Adding a card and taking it out again leaves the set as it was.
    let mut other = CardBitset::empty();
    other.set(3);
    let before = other.iter();
    other.set(40);
    other.remove(40);
    assert_eq!(other.iter(), before);
    assert_eq!(other.len(), 1);
}

#[test]
fn player_set_counts_follow_set() {
    let mut players = PerPlayerBitset::new();
    assert_eq!(players.len(), 0);
    players.set(3);
    assert_eq!(players.len(), 1);
    // Setting a player twice is setting them once.
    players.set(3);
    assert_eq!(players.len(), 1);
    players.set(21);
    assert_eq!(players.len(), 2);
    // Past the end of the table nothing changes.
    players.set(23);
    assert_eq!(players.len(), 2);
    assert_eq!(players.iter(), vec![3, 21]);
}
