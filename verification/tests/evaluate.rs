use poker::{Card, Rank, Suit};
use pake::evaluate::{holdem_hand, to_poker_card, EvalOrder, HandEval};
use pake::holdem::CommunityCards;
use pake::holdem_gen::win_probabilities;
use pake::probability::EvalCount;

#[test]
fn cards_become_poker_cards() {
    assert_eq!(to_poker_card(0), Card::new(Rank::Ace, Suit::Clubs));
    assert_eq!(to_poker_card(1), Card::new(Rank::Two, Suit::Clubs));
    assert_eq!(to_poker_card(9 + 13), Card::new(Rank::Ten, Suit::Diamonds));
    assert_eq!(to_poker_card(12 + 26), Card::new(Rank::King, Suit::Hearts));
    assert_eq!(to_poker_card(10 + 39), Card::new(Rank::Jack, Suit::Spades));
}

#[test]
fn a_flush_beats_a_pair() {
    let evaluator = poker::Evaluator::new();
    // Clubs: 2, 5, 9 on the board; the ace and king of clubs make a flush.
    let board = CommunityCards::Flop([1, 4, 8]);
    let flush = holdem_hand(&evaluator, board, [0, 12]);
    // A pair of nines (diamonds and hearts).
    let pair = holdem_hand(&evaluator, board, [8 + 13, 8 + 26]);
    assert_eq!(flush.compare(&pair), EvalOrder::Better);
    assert_eq!(pair.compare(&flush), EvalOrder::Worse);
    assert_eq!(pair.compare(&pair), EvalOrder::Tie);
    // A shared card gives the worst evaluation.
    let broken = holdem_hand(&evaluator, board, [1, 2]);
    assert_eq!(broken.compare(&pair), EvalOrder::Worse);
    let river = CommunityCards::River([1, 4, 8], 30, 40);
    let seven = holdem_hand(&evaluator, river, [0, 12]);
    assert_eq!(seven.compare(&flush), EvalOrder::Tie);
}

#[test]
fn the_worst_evaluation_beats_nothing() {
    let evaluator = poker::Evaluator::new();
    let board = CommunityCards::Turn([1, 4, 8], 20);
    let worst = HandEval::worst();
    // Seven high: the weakest hand there is.
    let low = holdem_hand(&evaluator, CommunityCards::Flop([1, 2, 3]), [4 + 13, 6 + 26]);
    assert_eq!(worst.compare(&low), EvalOrder::Tie);
    let some = holdem_hand(&evaluator, board, [0, 12]);
    assert_eq!(worst.compare(&some), EvalOrder::Worse);
    assert_eq!(some.compare(&worst), EvalOrder::Better);
    assert_eq!(worst.compare(&worst), EvalOrder::Tie);
}

#[test]
fn win_probabilities_split_by_suitedness() {
    let counts = [EvalCount { win_count: 1, total: 2 }; 1326];
    let (all, suited, unsuited) = win_probabilities(&counts);
    assert_eq!(all.len(), 1326);
    // 4 suits with 78 pairs each.
    assert_eq!(suited.len(), 312);
    assert_eq!(unsuited.len(), 1014);
    assert!(all.iter().all(|&p| p == 128));
}

#[test]
fn a_hands_cards_may_come_in_either_order() {
    let evaluator = poker::Evaluator::new();
    let board = CommunityCards::Turn([1, 4, 8], 20);
    let one = holdem_hand(&evaluator, board, [0, 12]);
    let other = holdem_hand(&evaluator, board, [12, 0]);
    assert_eq!(one.compare(&other), EvalOrder::Tie);
    assert_eq!(other.compare(&one), EvalOrder::Tie);
    let pair = holdem_hand(&evaluator, board, [8 + 13, 8 + 26]);
    // Swapping the two sides swaps the answer.
    assert_eq!(one.compare(&pair), EvalOrder::Better);
    assert_eq!(pair.compare(&one), EvalOrder::Worse);
}
