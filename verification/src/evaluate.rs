//! Evaluating hold'em hands with the `poker` crate.
use vstd::prelude::*;

use crate::cards::{DeckCard, get_rank, get_suit, rank_of, suit_of};
use crate::holdem::{CommunityCards, Hand};
use crate::digit_char;

verus! {

#[verifier::external_type_specification]
#[verifier::external_body]
pub struct ExPokerCard(poker::Card);

#[verifier::external_type_specification]
#[verifier::external_body]
pub struct ExPokerEvaluator(poker::Evaluator);

#[verifier::external_type_specification]
#[verifier::external_body]
pub struct ExPokerFiveCard(poker::FiveCard);

#[verifier::external_type_specification]
#[verifier::external_body]
#[verifier::reject_recursive_types(P)]
pub struct ExPokerEval<P>(poker::Eval<P>);

/// The character by which the `poker` crate knows a rank: '2' to '9', 'T',
/// 'J', 'Q', 'K' and 'A'.
pub open spec fn rank_char(rank: u8) -> char {
    if rank == 0 {
        'A'
    } else if rank == 9 {
        'T'
    } else if rank == 10 {
        'J'
    } else if rank == 11 {
        'Q'
    } else if rank == 12 {
        'K'
    } else if 1 <= rank <= 8 {
        (('1' as u8) + rank) as char
    } else {
        '2'
    }
}

/// The character by which the `poker` crate knows a suit; a suit past the
/// four counts as clubs.
pub open spec fn suit_char(suit: u8) -> char {
    if suit == 1 {
        'd'
    } else if suit == 2 {
        'h'
    } else if suit == 3 {
        's'
    } else {
        'c'
    }
}

/// Whether the `poker` crate parses `rank` as a rank.
pub open spec fn is_rank_char(rank: char) -> bool {
    rank == 'A' || rank == 'T' || rank == 'J' || rank == 'Q' || rank == 'K' || ('2' <= rank
        && rank <= '9')
}

/// Whether the `poker` crate parses `suit` as a suit.
pub open spec fn is_suit_char(suit: char) -> bool {
    suit == 'c' || suit == 'd' || suit == 'h' || suit == 's'
}

/// The card of the `poker` crate with the given rank and suit characters.
pub uninterp spec fn poker_card(rank: char, suit: char) -> poker::Card;

/// `poker::Card::try_from_chars`: the card with these rank and suit
/// characters, where both are valid ('23456789TJQKA' and 'chsd'), and an
/// error otherwise. The card is the same for the same characters, and two
/// cards of valid characters are the same only where their characters are.
#[verifier::external_body]
fn card_from_chars(rank: char, suit: char) -> (card: Option<poker::Card>)
    ensures
        is_rank_char(rank) && is_suit_char(suit) ==> card == Some(poker_card(rank, suit)),
        !(is_rank_char(rank) && is_suit_char(suit)) ==> card is None,
        card matches Some(c) ==> forall|r: char, s: char|
            is_rank_char(r) && is_suit_char(s) ==> (#[trigger] poker_card(r, s) == c <==> (r == rank
                && s == suit)),
{
    poker::Card::try_from_chars(rank, suit).ok()
}

/// The evaluation that `poker::Evaluator::evaluate_five` gives of the best
/// five-card hand among `cards`.
pub uninterp spec fn five_card_eval(
    evaluator: poker::Evaluator,
    cards: Seq<poker::Card>,
) -> poker::Eval<poker::FiveCard>;

/// `poker::Evaluator::evaluate_five`: the evaluation of the best five-card
/// hand among `cards`, the same for the same evaluator and cards, in whatever
/// order the cards come. It fails exactly where fewer than five cards are
/// given or two of them are the same.
#[verifier::external_body]
fn evaluate_five(evaluator: &poker::Evaluator, cards: &[poker::Card]) -> (eval: Option<
    poker::Eval<poker::FiveCard>,
>)
    ensures
        eval is Some == (cards@.len() >= 5 && forall|i: int, j: int|
            0 <= i < j < cards@.len() ==> cards@[i] != cards@[j]),
        eval is Some ==> eval == Some(five_card_eval(*evaluator, cards@)),
        eval matches Some(e) ==> forall|other: Seq<poker::Card>|
            other.to_multiset() == cards@.to_multiset() ==> #[trigger] five_card_eval(
                *evaluator,
                other,
            ) == e,
{
    evaluator.evaluate_five(cards).ok()
}

/// `poker::Eval::WORST_FIVE`: the worst five-card evaluation there is, which
/// no evaluation loses to.
#[verifier::external_body]
fn worst_five() -> (eval: poker::Eval<poker::FiveCard>)
    ensures
        forall|other: poker::Eval<poker::FiveCard>| #[trigger]
            eval_order(eval, other) != EvalOrder::Better,
{
    poker::Eval::<poker::FiveCard>::WORST_FIVE
}

/// How one evaluation compares with another.
#[derive(Clone, Copy, Debug, PartialEq, Eq, Structural)]
pub enum EvalOrder {
    Better,
    Tie,
    Worse,
}

/// How the `Ord` of the `poker` crate places evaluation `a` against `b`.
pub uninterp spec fn eval_order(
    a: poker::Eval<poker::FiveCard>,
    b: poker::Eval<poker::FiveCard>,
) -> EvalOrder;

/// `Ord::cmp` on five-card evaluations of the `poker` crate: whether `a`
/// beats `b`, ties with it or loses to it, the same for the same two
/// evaluations. The crate orders evaluations by their hand rank alone, so the
/// order is a total preorder: an evaluation ties with itself, swapping the two
/// swaps the answer, and beating or tying goes on through a third.
#[verifier::external_body]
fn compare_evals(a: &poker::Eval<poker::FiveCard>, b: &poker::Eval<poker::FiveCard>) -> (order:
    EvalOrder)
    ensures
        order == eval_order(*a, *b),
        *a == *b ==> order == EvalOrder::Tie,
        (order == EvalOrder::Better) == (eval_order(*b, *a) == EvalOrder::Worse),
        (order == EvalOrder::Tie) == (eval_order(*b, *a) == EvalOrder::Tie),
        forall|c: poker::Eval<poker::FiveCard>|
            order != EvalOrder::Worse && #[trigger] eval_order(*b, c) != EvalOrder::Worse
                ==> eval_order(*a, c) != EvalOrder::Worse,
        forall|c: poker::Eval<poker::FiveCard>|
            order == EvalOrder::Better && #[trigger] eval_order(*b, c) != EvalOrder::Worse
                ==> eval_order(*a, c) == EvalOrder::Better,
        forall|c: poker::Eval<poker::FiveCard>|
            order != EvalOrder::Worse && #[trigger] eval_order(*b, c) == EvalOrder::Better
                ==> eval_order(*a, c) == EvalOrder::Better,
{
    match a.cmp(b) {
        core::cmp::Ordering::Greater => EvalOrder::Better,
        core::cmp::Ordering::Equal => EvalOrder::Tie,
        core::cmp::Ordering::Less => EvalOrder::Worse,
    }
}

/// An evaluation of a hold'em hand.
pub struct HandEval(pub poker::Eval<poker::FiveCard>);

impl HandEval {
    /// The worst evaluation there is: it beats no evaluation.
    pub fn worst() -> (eval: HandEval)
        ensures
            eval.is_worst(),
    {
        HandEval(worst_five())
    }

    /// Whether this evaluation beats no evaluation.
    pub open spec fn is_worst(self) -> bool {
        forall|other: poker::Eval<poker::FiveCard>| #[trigger]
            eval_order(self.0, other) != EvalOrder::Better
    }

    /// How this evaluation compares with `other`.
    pub fn compare(&self, other: &HandEval) -> (order: EvalOrder)
        ensures
            order == eval_order(self.0, other.0),
            self.0 == other.0 ==> order == EvalOrder::Tie,
            (order == EvalOrder::Better) == (eval_order(other.0, self.0) == EvalOrder::Worse),
            (order == EvalOrder::Tie) == (eval_order(other.0, self.0) == EvalOrder::Tie),
    {
        compare_evals(&self.0, &other.0)
    }
}

/// The card of the `poker` crate that `card` stands for.
pub open spec fn spec_poker_card(card: DeckCard) -> poker::Card {
    poker_card(rank_char(rank_of(card)), suit_char(suit_of(card)))
}

/// Whether `card` is the only card of the deck that becomes `poker`.
pub open spec fn only_card_for(card: DeckCard, poker: poker::Card) -> bool {
    forall|other: DeckCard| other < 52 ==> (#[trigger] spec_poker_card(other) == poker <==> other == card)
}

/// The rank letter of the `poker` crate for a card of the deck.
pub open spec fn deck_rank_letter(card: DeckCard) -> char {
    let r = card % 13;
    if r == 0 {
        'A'
    } else if r <= 8 {
        digit_char((r + 1) as u8)
    } else if r == 9 {
        'T'
    } else if r == 10 {
        'J'
    } else if r == 11 {
        'Q'
    } else {
        'K'
    }
}

/// The suit letter of the `poker` crate for a card of the deck.
pub open spec fn deck_suit_letter(card: DeckCard) -> char {
    let s = card / 13;
    if s == 0 {
        'c'
    } else if s == 1 {
        'd'
    } else if s == 2 {
        'h'
    } else {
        's'
    }
}

/// Every card of the deck becomes the poker card of its own rank and suit:
/// card `13 * s + r` has rank `r` and suit `s`; the ace (rank 0) is 'A', the
/// two to the nine (ranks 1 to 8) are written by the digit one above the rank,
/// so that a higher rank has a higher digit, and ranks 9 to 12 are 'T', 'J',
/// 'Q' and 'K'; suits 0 to 3 are clubs, diamonds, hearts and spades.
pub proof fn lemma_poker_card_of_deck_card(card: DeckCard)
    requires
        card < 52,
    ensures
        spec_poker_card(card) == poker_card(deck_rank_letter(card), deck_suit_letter(card)),
        1 <= card % 13 <= 8 ==> deck_rank_letter(card) == digit_char((card % 13 + 1) as u8),
        forall|other: DeckCard|
            other < 52 && 1 <= card % 13 < other % 13 <= 8 ==> deck_rank_letter(card) < deck_rank_letter(
                other,
            ),
{
    assert(rank_char(rank_of(card)) == deck_rank_letter(card));
    assert(suit_char(suit_of(card)) == deck_suit_letter(card));
}

pub fn to_poker_card(card: DeckCard) -> (poker: poker::Card)
    ensures
        poker == spec_poker_card(card),
        card < 52 ==> only_card_for(card, poker),
        card < 52 ==> poker == poker_card(deck_rank_letter(card), deck_suit_letter(card)),
{
    proof {
        if card < 52 {
            lemma_poker_card_of_deck_card(card);
        }
    }
    let rank = get_rank(card);
    let rank_char = match rank {
        0 => 'A',
        // 1 stands for the two.
        2 => '3',
        3 => '4',
        4 => '5',
        5 => '6',
        6 => '7',
        7 => '8',
        8 => '9',
        9 => 'T',
        10 => 'J',
        11 => 'Q',
        12 => 'K',
        _ => '2',
    };
    let suit_char = match get_suit(card) {
        1 => 'd',
        2 => 'h',
        3 => 's',
        _ => 'c',
    };
    match card_from_chars(rank_char, suit_char) {
        Some(poker) => {
            proof {
                if card < 52 {
                    assert forall|other: DeckCard| other < 52 implies (#[trigger] spec_poker_card(
                        other,
                    ) == poker <==> other == card) by {
                        lemma_poker_card_injective(card, other, poker);
                    }
                }
            }
            poker
        },
        None => vstd::pervasive::unreached(),
    }
}

/// Two cards of the deck are the same card of the `poker` crate only where
/// they are the same card.
pub proof fn lemma_poker_card_injective(a: DeckCard, b: DeckCard, found: poker::Card)
    requires
        a < 52,
        b < 52,
        found == spec_poker_card(a),
        forall|r: char, s: char|
            is_rank_char(r) && is_suit_char(s) ==> (#[trigger] poker_card(r, s) == found <==> (r
                == rank_char(rank_of(a)) && s == suit_char(suit_of(a)))),
    ensures
        spec_poker_card(b) == found <==> a == b,
{
    assert(is_rank_char(rank_char(rank_of(b))));
    assert(is_suit_char(suit_char(suit_of(b))));
    if spec_poker_card(b) == found {
        assert(rank_char(rank_of(b)) == rank_char(rank_of(a)));
        assert(suit_char(suit_of(b)) == suit_char(suit_of(a)));
        assert(rank_of(a) == rank_of(b));
        assert(suit_of(a) == suit_of(b));
        assert(a == b) by (nonlinear_arith)
            requires
                a % 13 == b % 13,
                a / 13 == b / 13,
        ;
    }
}

/// The cards a hand plays with: the board, then the hand.
pub open spec fn holdem_cards(community_cards: CommunityCards, hand: Hand) -> Seq<DeckCard> {
    community_cards.cards() + seq![hand[0], hand[1]]
}

/// The cards of the `poker` crate that a hand plays with.
pub open spec fn holdem_poker_cards(community_cards: CommunityCards, hand: Hand) -> Seq<
    poker::Card,
> {
    holdem_cards(community_cards, hand).map_values(|c: DeckCard| spec_poker_card(c))
}

/// Whether the cards are cards of the deck, none of them twice.
pub open spec fn distinct_deck_cards(cards: Seq<DeckCard>) -> bool {
    &&& forall|i: int| 0 <= i < cards.len() ==> cards[i] < 52
    &&& forall|i: int, j: int| 0 <= i < j < cards.len() ==> cards[i] != cards[j]
}

/// Whether no card occurs twice in `cards`.
pub open spec fn distinct_poker_cards(cards: Seq<poker::Card>) -> bool {
    forall|i: int, j: int| 0 <= i < j < cards.len() ==> cards[i] != cards[j]
}

/// The best five-card evaluation of the board and the hand together, or the
/// worst evaluation where two of the cards are the same.
pub fn holdem_hand(evaluator: &poker::Evaluator, community_cards: CommunityCards, hand: Hand) -> (eval:
    HandEval)
    ensures
        distinct_poker_cards(holdem_poker_cards(community_cards, hand)) ==> eval.0
            == five_card_eval(*evaluator, holdem_poker_cards(community_cards, hand)),
        !distinct_poker_cards(holdem_poker_cards(community_cards, hand)) ==> eval.is_worst(),
        distinct_deck_cards(holdem_cards(community_cards, hand)) ==> eval.0 == five_card_eval(
            *evaluator,
            holdem_poker_cards(community_cards, hand),
        ),
        distinct_poker_cards(holdem_poker_cards(community_cards, hand)) ==> eval.0
            == five_card_eval(*evaluator, holdem_poker_cards(community_cards, [hand[1], hand[0]])),
{
    let mut cards: Vec<poker::Card> = Vec::with_capacity(7);
    match community_cards {
        CommunityCards::Flop(flop) => {
            cards.push(to_poker_card(flop[0]));
            cards.push(to_poker_card(flop[1]));
            cards.push(to_poker_card(flop[2]));
        },
        CommunityCards::Turn(flop, turn) => {
            cards.push(to_poker_card(flop[0]));
            cards.push(to_poker_card(flop[1]));
            cards.push(to_poker_card(flop[2]));
            cards.push(to_poker_card(turn));
        },
        CommunityCards::River(flop, turn, river) => {
            cards.push(to_poker_card(flop[0]));
            cards.push(to_poker_card(flop[1]));
            cards.push(to_poker_card(flop[2]));
            cards.push(to_poker_card(turn));
            cards.push(to_poker_card(river));
        },
    }
    cards.push(to_poker_card(hand[0]));
    cards.push(to_poker_card(hand[1]));
    assert(cards@ == holdem_poker_cards(community_cards, hand));
    proof {
        let deck = holdem_cards(community_cards, hand);
        if distinct_deck_cards(deck) {
            assert forall|i: int, j: int| 0 <= i < j < cards@.len() implies cards@[i] != cards@[j] by {
                assert(only_card_for(deck[i], cards@[i]));
                assert(spec_poker_card(deck[j]) == cards@[j]);
            }
        }
    }
    proof {
        let board = community_cards.cards().map_values(|c: DeckCard| spec_poker_card(c));
        let x = spec_poker_card(hand[0]);
        let y = spec_poker_card(hand[1]);
        let swapped = holdem_poker_cards(community_cards, [hand[1], hand[0]]);
        assert(cards@ =~= board.push(x).push(y));
        assert(swapped =~= board.push(y).push(x));
        broadcast use vstd::seq_lib::group_to_multiset_ensures;
        assert(swapped.to_multiset() =~= cards@.to_multiset());
    }
    match evaluate_five(evaluator, cards.as_slice()) {
        Some(eval) => HandEval(eval),
        None => HandEval::worst(),
    }
}

} // verus!
