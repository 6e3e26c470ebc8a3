//! Counting, over pairs of hold'em hands and flops, how often each hand wins:
//! the groundwork of the win probability tables.
use vstd::prelude::*;

use crate::cards::{DeckCard, get_suit, suit_of};
use crate::evaluate::{EvalOrder, eval_order, five_card_eval, holdem_cards, holdem_hand, holdem_poker_cards};
use crate::holdem::{CommunityCards, Hand};
use crate::look_up::{ALL_SORTED_HANDS_LEN, lemma_pairs_before, pair_index, pairs_before};
use crate::probability::{EvalCount, Probability, scaled_probability};

verus! {

pub type Flop = [DeckCard; 3];

pub const ALL_SORTED_FLOPS_LEN: u32 = 22_100;

/// How many pairs can be made of `n` cards.
pub open spec fn pairs_of(n: nat) -> nat
    decreases n,
{
    if n == 0 {
        0
    } else {
        pairs_of((n - 1) as nat) + (n - 1) as nat
    }
}

/// How many triples can be made of `n` cards.
pub open spec fn triples_of(n: nat) -> nat
    decreases n,
{
    if n == 0 {
        0
    } else {
        triples_of((n - 1) as nat) + pairs_of((n - 1) as nat)
    }
}

/// How many sorted triples of cards have a first card below `a`.
pub open spec fn triples_before(a: nat) -> nat
    decreases a,
{
    if a == 0 || a > 52 {
        0
    } else {
        triples_before((a - 1) as nat) + pairs_of((52 - a) as nat)
    }
}

/// How many sorted pairs of cards have a first card from `lo` up to, but not
/// including, `b`.
pub open spec fn pairs_between(lo: nat, b: nat) -> nat
    decreases b,
{
    if b <= lo || b > 52 {
        0
    } else {
        pairs_between(lo, (b - 1) as nat) + (52 - b) as nat
    }
}

/// Where the sorted flop `[a, b, c]` stands among all sorted flops, in
/// increasing order of the first card, then the second, then the third.
pub open spec fn flop_index(a: nat, b: nat, c: nat) -> int {
    triples_before(a) + pairs_between(a + 1, b) + c - b - 1
}

proof fn lemma_pairs_of(n: nat)
    ensures
        2 * pairs_of(n) == n * (n - 1),
    decreases n,
{
    if n > 0 {
        let m = (n - 1) as nat;
        lemma_pairs_of(m);
        assert(n * (n - 1) == m * (m - 1) + 2 * m) by (nonlinear_arith)
            requires
                m == n - 1,
        ;
    } else {
        assert(n * (n - 1) == 0) by (nonlinear_arith)
            requires
                n == 0,
        ;
    }
}

proof fn lemma_triples_of(n: nat)
    ensures
        6 * triples_of(n) == n * (n - 1) * (n - 2),
    decreases n,
{
    if n > 0 {
        let m = (n - 1) as nat;
        lemma_triples_of(m);
        lemma_pairs_of(m);
        assert(n * (n - 1) * (n - 2) == m * (m - 1) * (m - 2) + 3 * (m * (m - 1)))
            by (nonlinear_arith)
            requires
                m == n - 1,
        ;
    } else {
        assert(n * (n - 1) * (n - 2) == 0) by (nonlinear_arith)
            requires
                n == 0,
        ;
    }
}

/// The triples with a first card below `a`, and those of the cards from `a`
/// on, are all the triples.
proof fn lemma_triples_before(a: nat)
    requires
        a <= 52,
    ensures
        triples_before(a) + triples_of((52 - a) as nat) == triples_of(52),
    decreases a,
{
    if a > 0 {
        lemma_triples_before((a - 1) as nat);
    }
}

/// The pairs starting from `lo` up to `b`, and those of the cards from `b` on,
/// are all the pairs of the cards from `lo` on.
proof fn lemma_pairs_between(lo: nat, b: nat)
    requires
        lo <= b <= 52,
    ensures
        pairs_between(lo, b) + pairs_of((52 - b) as nat) == pairs_of((52 - lo) as nat),
    decreases b,
{
    if b > lo {
        lemma_pairs_between(lo, (b - 1) as nat);
    }
}

/// The number of pairs of `n` cards, for the counts of a deck.
fn pairs_of_exec(n: u32) -> (pairs: u32)
    requires
        n <= 52,
    ensures
        pairs == pairs_of(n as nat),
{
    proof {
        lemma_pairs_of(n as nat);
    }
    if n == 0 {
        0
    } else {
        assert(n * (n - 1) <= 52 * 51) by (nonlinear_arith)
            requires
                1 <= n <= 52,
        ;
        n * (n - 1) / 2
    }
}

/// The sorted flop at `index`, in increasing order of the first card, then
/// the second, then the third.
pub fn sorted_flop(index: u32) -> (flop: Flop)
    requires
        index < ALL_SORTED_FLOPS_LEN,
    ensures
        flop[0] < flop[1] < flop[2] < 52,
        flop_index(flop[0] as nat, flop[1] as nat, flop[2] as nat) == index,
{
    proof {
        lemma_triples_of(52);
        lemma_triples_of(2);
        lemma_triples_before(50);
    }
    let mut remaining: u32 = index;
    let mut a: u32 = 0;
    while remaining >= pairs_of_exec(51 - a)
        invariant
            a <= 49,
            index < 22100,
            triples_before(50) == 22100,
            index == remaining + triples_before(a as nat),
        decreases 49 - a,
    {
        remaining = remaining - pairs_of_exec(51 - a);
        proof {
            assert(triples_before((a + 1) as nat) == triples_before(a as nat) + pairs_of(
                (51 - a) as nat,
            ));
            if a + 1 == 50 {
                assert(false);
            }
        }
        a = a + 1;
    }
    proof {
        lemma_pairs_between((a + 1) as nat, 51);
        assert(pairs_of(1) == 0);
    }
    let mut b: u32 = a + 1;
    while remaining >= 51 - b
        invariant
            a < b <= 50,
            remaining < pairs_of((51 - a) as nat) - pairs_between((a + 1) as nat, b as nat),
            pairs_between((a + 1) as nat, 51) == pairs_of((51 - a) as nat),
            index == remaining + triples_before(a as nat) + pairs_between((a + 1) as nat, b as nat),
        decreases 50 - b,
    {
        remaining = remaining - (51 - b);
        proof {
            assert(pairs_between((a + 1) as nat, (b + 1) as nat) == pairs_between(
                (a + 1) as nat,
                b as nat,
            ) + (51 - b));
            if b + 1 == 51 {
                assert(false);
            }
        }
        b = b + 1;
    }
    let c = b + 1 + remaining;
    [a as DeckCard, b as DeckCard, c as DeckCard]
}

/// The sorted hand at `index`, in increasing order of the first card and then
/// the second.
pub fn sorted_hand(index: u16) -> (hand: Hand)
    requires
        index < ALL_SORTED_HANDS_LEN,
    ensures
        hand[0] < hand[1] < 52,
        pair_index(hand[0] as nat, hand[1] as nat) == index,
{
    proof {
        lemma_pairs_before(51);
    }
    let mut remaining: u16 = index;
    let mut a: u16 = 0;
    while remaining >= 51 - a
        invariant
            a <= 50,
            index < 1326,
            pairs_before(51) == 1326,
            index == remaining + pairs_before(a as nat),
        decreases 50 - a,
    {
        remaining = remaining - (51 - a);
        proof {
            assert(pairs_before((a + 1) as nat) == pairs_before(a as nat) + (51 - a));
            if a + 1 == 51 {
                assert(false);
            }
        }
        a = a + 1;
    }
    let b = a + 1 + remaining;
    [a as DeckCard, b as DeckCard]
}

/// The hand at `index` among the sorted hands.
pub open spec fn hand_at(index: int) -> Hand {
    choose|hand: Hand| hand[0] < hand[1] < 52 && pair_index(hand[0] as nat, hand[1] as nat) == index
}

/// The flop at `index` among the sorted flops.
pub open spec fn flop_at(index: int) -> Flop {
    choose|flop: Flop|
        flop[0] < flop[1] < flop[2] < 52 && flop_index(flop[0] as nat, flop[1] as nat, flop[2] as nat)
            == index
}

/// The seven cards of a showdown of two hands on a flop.
pub open spec fn showdown_cards(hand_1: Hand, hand_2: Hand, flop: Flop) -> Seq<DeckCard> {
    seq![hand_1[0], hand_1[1], hand_2[0], hand_2[1], flop[0], flop[1], flop[2]]
}

/// Whether no card occurs twice in `cards`.
pub open spec fn all_distinct(cards: Seq<DeckCard>) -> bool {
    forall|i: int, j: int| 0 <= i < j < cards.len() ==> cards[i] != cards[j]
}

/// The counts after a showdown of hands `i_1` and `i_2` that went as `order`
/// says for the first hand: both played once more, and the winner, if any,
/// won once more (the win count saturating).
pub open spec fn showdown_recorded(counts: Seq<EvalCount>, i_1: int, i_2: int, order: EvalOrder) -> Seq<
    EvalCount,
> {
    let won_1 = order == EvalOrder::Better;
    let won_2 = order == EvalOrder::Worse;
    let c1 = counts[i_1];
    let c2 = counts[i_2];
    counts.update(
        i_1,
        EvalCount {
            win_count: if won_1 {
                crate::money::sat_add(c1.win_count, 1)
            } else {
                c1.win_count
            },
            total: (c1.total + 1) as u32,
        },
    ).update(
        i_2,
        EvalCount {
            win_count: if won_2 {
                crate::money::sat_add(c2.win_count, 1)
            } else {
                c2.win_count
            },
            total: (c2.total + 1) as u32,
        },
    )
}

/// The evaluation of `hand` on `flop`.
pub open spec fn flop_eval(evaluator: poker::Evaluator, flop: Flop, hand: Hand) -> poker::Eval<
    poker::FiveCard,
> {
    five_card_eval(evaluator, holdem_poker_cards(CommunityCards::Flop(flop), hand))
}

/// A showdown is recorded as it went: both hands played once more; a tie is a
/// win for neither, and otherwise only the better hand won once more (unless
/// its win count is already as high as it goes); no other hand's count
/// changes. So the two win counts together grow by at most one.
pub proof fn lemma_showdown_recorded(counts: Seq<EvalCount>, i_1: int, i_2: int, order: EvalOrder)
    requires
        0 <= i_1 < counts.len(),
        0 <= i_2 < counts.len(),
        i_1 != i_2,
        counts[i_1].total < u32::MAX,
        counts[i_2].total < u32::MAX,
    ensures
        ({
            let after = showdown_recorded(counts, i_1, i_2, order);
            &&& after.len() == counts.len()
            &&& after[i_1].total == counts[i_1].total + 1
            &&& after[i_2].total == counts[i_2].total + 1
            &&& forall|k: int| 0 <= k < counts.len() && k != i_1 && k != i_2 ==> after[k] == counts[k]
            &&& order == EvalOrder::Tie ==> after[i_1].win_count == counts[i_1].win_count
                && after[i_2].win_count == counts[i_2].win_count
            &&& order == EvalOrder::Better ==> after[i_2].win_count == counts[i_2].win_count && (
            counts[i_1].win_count < u32::MAX ==> after[i_1].win_count == counts[i_1].win_count + 1)
                && after[i_1].win_count >= counts[i_1].win_count
            &&& order == EvalOrder::Worse ==> after[i_1].win_count == counts[i_1].win_count && (
            counts[i_2].win_count < u32::MAX ==> after[i_2].win_count == counts[i_2].win_count + 1)
                && after[i_2].win_count >= counts[i_2].win_count
            &&& counts[i_1].win_count + counts[i_2].win_count <= after[i_1].win_count
                + after[i_2].win_count <= counts[i_1].win_count + counts[i_2].win_count + 1
        }),
{
}

/// Records a showdown of hands `i_1` and `i_2` that went as `order` says for
/// the first hand.
pub fn record_showdown(counts: &mut [EvalCount; 1326], i_1: u16, i_2: u16, order: EvalOrder)
    requires
        i_1 < 1326,
        i_2 < 1326,
        i_1 != i_2,
        old(counts)@[i_1 as int].total < u32::MAX,
        old(counts)@[i_2 as int].total < u32::MAX,
    ensures
        final(counts)@ == showdown_recorded(old(counts)@, i_1 as int, i_2 as int, order),
        order == EvalOrder::Tie ==> final(counts)@[i_1 as int].win_count == old(
            counts,
        )@[i_1 as int].win_count && final(counts)@[i_2 as int].win_count == old(
            counts,
        )@[i_2 as int].win_count,
        final(counts)@[i_1 as int].win_count + final(counts)@[i_2 as int].win_count <= old(
            counts,
        )@[i_1 as int].win_count + old(counts)@[i_2 as int].win_count + 1,
{
    let i_1 = i_1 as usize;
    let i_2 = i_2 as usize;
    match order {
        EvalOrder::Better => {
            counts[i_1].win_count = counts[i_1].win_count.saturating_add(1);
        },
        EvalOrder::Tie => {},
        EvalOrder::Worse => {
            counts[i_2].win_count = counts[i_2].win_count.saturating_add(1);
        },
    }
    counts[i_1].total = counts[i_1].total + 1;
    counts[i_2].total = counts[i_2].total + 1;
}

/// Plays sorted hand `hand_i_1` against sorted hand `hand_i_2` on sorted flop
/// `flop_i`, and records the showdown: both hands played once more, and the
/// one whose evaluation on the flop is better won once more (neither on a
/// tie). Where the hands and the flop share a card, nothing is recorded.
pub fn count_evaluation(
    evaluator: &poker::Evaluator,
    counts: &mut [EvalCount; 1326],
    hand_i_1: u16,
    hand_i_2: u16,
    flop_i: u32,
)
    requires
        hand_i_1 != hand_i_2,
        hand_i_1 < 1326,
        hand_i_2 < 1326,
        flop_i < ALL_SORTED_FLOPS_LEN,
        old(counts)@[hand_i_1 as int].total < u32::MAX,
        old(counts)@[hand_i_2 as int].total < u32::MAX,
    ensures
        !all_distinct(
            showdown_cards(hand_at(hand_i_1 as int), hand_at(hand_i_2 as int), flop_at(flop_i as int)),
        ) ==> final(counts)@ == old(counts)@,
        all_distinct(
            showdown_cards(hand_at(hand_i_1 as int), hand_at(hand_i_2 as int), flop_at(flop_i as int)),
        ) ==> final(counts)@ == showdown_recorded(
            old(counts)@,
            hand_i_1 as int,
            hand_i_2 as int,
            eval_order(
                flop_eval(*evaluator, flop_at(flop_i as int), hand_at(hand_i_1 as int)),
                flop_eval(*evaluator, flop_at(flop_i as int), hand_at(hand_i_2 as int)),
            ),
        ),
{
    let hand_1 = sorted_hand(hand_i_1);
    let hand_2 = sorted_hand(hand_i_2);
    let flop = sorted_flop(flop_i);
    proof {
        lemma_hand_at(hand_1, hand_i_1 as int);
        lemma_hand_at(hand_2, hand_i_2 as int);
        lemma_flop_at(flop, flop_i as int);
    }
    let cards = [hand_1[0], hand_1[1], hand_2[0], hand_2[1], flop[0], flop[1], flop[2]];
    assert(cards@ == showdown_cards(hand_1, hand_2, flop));
    let mut i: usize = 0;
    while i < 7
        invariant
            i <= 7,
            cards@ == showdown_cards(hand_1, hand_2, flop),
            hand_at(hand_i_1 as int) == hand_1,
            hand_at(hand_i_2 as int) == hand_2,
            flop_at(flop_i as int) == flop,
            forall|k: int, l: int| 0 <= k < l < 7 && k < i ==> cards@[k] != cards@[l],
        decreases 7 - i,
    {
        let mut j: usize = i + 1;
        while j < 7
            invariant
                i < 7,
                cards@ == showdown_cards(hand_1, hand_2, flop),
                hand_at(hand_i_1 as int) == hand_1,
                hand_at(hand_i_2 as int) == hand_2,
                flop_at(flop_i as int) == flop,
                i < j <= 7,
                forall|k: int, l: int| 0 <= k < l < 7 && k < i ==> cards@[k] != cards@[l],
                forall|l: int| i < l < j ==> cards@[i as int] != cards@[l],
            decreases 7 - j,
        {
            if cards[i] == cards[j] {
                proof {
                    let seven = showdown_cards(hand_1, hand_2, flop);
                    assert(seven[i as int] == seven[j as int]);
                    assert(!all_distinct(seven));
                }
                return;
            }
            j += 1;
        }
        i += 1;
    }
    proof {
        let seven = showdown_cards(hand_1, hand_2, flop);
        assert(holdem_cards(CommunityCards::Flop(flop), hand_1) == seq![
            seven[4],
            seven[5],
            seven[6],
            seven[0],
            seven[1],
        ]);
        assert(holdem_cards(CommunityCards::Flop(flop), hand_2) == seq![
            seven[4],
            seven[5],
            seven[6],
            seven[2],
            seven[3],
        ]);
    }
    let eval_1 = holdem_hand(evaluator, CommunityCards::Flop(flop), hand_1);
    let eval_2 = holdem_hand(evaluator, CommunityCards::Flop(flop), hand_2);
    let order = eval_1.compare(&eval_2);
    record_showdown(counts, hand_i_1, hand_i_2, order);
}

/// The sorted hand found at `index` is the hand at `index`.
proof fn lemma_hand_at(hand: Hand, index: int)
    requires
        hand[0] < hand[1] < 52,
        pair_index(hand[0] as nat, hand[1] as nat) == index,
    ensures
        hand_at(index) == hand,
{
    let other = hand_at(index);
    assert(other[0] < other[1] < 52 && pair_index(other[0] as nat, other[1] as nat) == index);
    lemma_pair_index_injective(hand[0] as nat, hand[1] as nat, other[0] as nat, other[1] as nat);
    assert(other =~= hand);
}

/// The sorted flop found at `index` is the flop at `index`.
proof fn lemma_flop_at(flop: Flop, index: int)
    requires
        flop[0] < flop[1] < flop[2] < 52,
        flop_index(flop[0] as nat, flop[1] as nat, flop[2] as nat) == index,
    ensures
        flop_at(index) == flop,
{
    let other = flop_at(index);
    assert(other[0] < other[1] < other[2] < 52 && flop_index(
        other[0] as nat,
        other[1] as nat,
        other[2] as nat,
    ) == index);
    lemma_flop_index_injective(
        flop[0] as nat,
        flop[1] as nat,
        flop[2] as nat,
        other[0] as nat,
        other[1] as nat,
        other[2] as nat,
    );
    assert(other =~= flop);
}

/// No two sorted pairs stand at the same place.
pub proof fn lemma_pair_index_injective(a: nat, b: nat, c: nat, d: nat)
    requires
        a < b < 52,
        c < d < 52,
        pair_index(a, b) == pair_index(c, d),
    ensures
        a == c && b == d,
{
    if a < c {
        crate::look_up::lemma_pair_index_below(a, b, c);
    } else if c < a {
        crate::look_up::lemma_pair_index_below(c, d, a);
    }
}

/// The place of a flop comes before every flop whose first card is above its own.
proof fn lemma_flop_index_below(a: nat, b: nat, c: nat, e: nat)
    requires
        a < b < c < 52,
        a < e <= 52,
    ensures
        0 <= flop_index(a, b, c) < triples_before(e),
    decreases e,
{
    if e > a + 1 {
        lemma_flop_index_below(a, b, c, (e - 1) as nat);
    } else {
        lemma_pairs_between(a + 1, b);
        lemma_pairs_between(a + 1, 52);
        lemma_pairs_between_below(a + 1, b, c);
    }
}

/// Within one first card, the place of `[b, c]` comes before every pair whose
/// first card is above `b`.
proof fn lemma_pairs_between_below(lo: nat, b: nat, c: nat)
    requires
        lo <= b < c < 52,
    ensures
        pairs_between(lo, b) + c - b - 1 < pairs_between(lo, (b + 1) as nat),
{
}

/// No two sorted flops stand at the same place.
pub proof fn lemma_flop_index_injective(a: nat, b: nat, c: nat, d: nat, e: nat, f: nat)
    requires
        a < b < c < 52,
        d < e < f < 52,
        flop_index(a, b, c) == flop_index(d, e, f),
    ensures
        a == d && b == e && c == f,
{
    if a < d {
        lemma_flop_index_below(a, b, c, d);
        lemma_flop_index_nonneg(d, e, f);
    } else if d < a {
        lemma_flop_index_below(d, e, f, a);
        lemma_flop_index_nonneg(a, b, c);
    } else {
        if b < e {
            lemma_pairs_between_monotone(a + 1, b + 1, e);
            lemma_pairs_between_below(a + 1, b, c);
        } else if e < b {
            lemma_pairs_between_monotone(a + 1, e + 1, b);
            lemma_pairs_between_below(a + 1, e, f);
        }
    }
}

proof fn lemma_flop_index_nonneg(a: nat, b: nat, c: nat)
    requires
        a < b < c < 52,
    ensures
        flop_index(a, b, c) >= triples_before(a),
{
}

proof fn lemma_pairs_between_monotone(lo: nat, b: nat, e: nat)
    requires
        lo <= b <= e <= 52,
    ensures
        pairs_between(lo, b) <= pairs_between(lo, e),
    decreases e,
{
    if e > b {
        lemma_pairs_between_monotone(lo, b, (e - 1) as nat);
    }
}


/// Whether the two cards of a hand are of one suit.
pub open spec fn is_suited(hand: Hand) -> bool {
    suit_of(hand[0]) == suit_of(hand[1])
}

/// The probabilities of the first `n` counts, of the sorted hands that are
/// suited (`suited`) or not (`!suited`), in order.
pub open spec fn probabilities_where(counts: Seq<EvalCount>, suited: bool, n: nat) -> Seq<Probability>
    decreases n,
{
    if n == 0 {
        Seq::empty()
    } else {
        let i = n - 1;
        let before = probabilities_where(counts, suited, i as nat);
        if is_suited(hand_at(i)) == suited {
            before.push(scaled_probability(counts[i].win_count, counts[i].total))
        } else {
            before
        }
    }
}

/// The probability that each sorted hand wins, as counted; then the same for
/// only the suited hands, and for only the others.
pub fn win_probabilities(counts: &[EvalCount; 1326]) -> (lists: (
    Vec<Probability>,
    Vec<Probability>,
    Vec<Probability>,
))
    requires
        forall|i: int| 0 <= i < 1326 ==> (#[trigger] counts@[i]).total > 0,
    ensures
        lists.0@ == Seq::new(
            1326,
            |i: int| scaled_probability(counts@[i].win_count, counts@[i].total),
        ),
        lists.1@ == probabilities_where(counts@, true, 1326),
        lists.2@ == probabilities_where(counts@, false, 1326),
{
    let mut all: Vec<Probability> = Vec::new();
    let mut suited: Vec<Probability> = Vec::new();
    let mut unsuited: Vec<Probability> = Vec::new();
    let mut i: u16 = 0;
    while i < 1326
        invariant
            i <= 1326,
            forall|k: int| 0 <= k < 1326 ==> (#[trigger] counts@[k]).total > 0,
            all@ == Seq::new(
                i as nat,
                |k: int| scaled_probability(counts@[k].win_count, counts@[k].total),
            ),
            suited@ == probabilities_where(counts@, true, i as nat),
            unsuited@ == probabilities_where(counts@, false, i as nat),
        decreases 1326 - i,
    {
        let count = counts[i as usize];
        let probability = count.probability();
        all.push(probability);
        let hand = sorted_hand(i);
        proof {
            lemma_hand_at(hand, i as int);
        }
        if get_suit(hand[0]) == get_suit(hand[1]) {
            suited.push(probability);
        } else {
            unsuited.push(probability);
        }
        i += 1;
    }
    (all, suited, unsuited)
}

} // verus!
