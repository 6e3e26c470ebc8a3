//! Looking up precomputed facts about two-card hold'em hands.
use vstd::prelude::*;

use crate::cards::DECK_SIZE;
use crate::holdem::Hand;
use crate::probability::Probability;

verus! {

pub const ALL_SORTED_HANDS_LEN: usize = 1326;

/// How many sorted pairs of cards have a first card below `a`.
pub open spec fn pairs_before(a: nat) -> nat
    decreases a,
{
    if a == 0 {
        0
    } else {
        pairs_before((a - 1) as nat) + (52 - a) as nat
    }
}

/// Where the sorted pair `[a, b]` stands among all sorted pairs of cards, in
/// increasing order of the first card and then the second.
pub open spec fn pair_index(a: nat, b: nat) -> int {
    pairs_before(a) + b - a - 1
}

pub proof fn lemma_pairs_before(a: nat)
    requires
        a <= 52,
    ensures
        2 * pairs_before(a) == a * (103 - a),
    decreases a,
{
    if a > 0 {
        let p = (a - 1) as nat;
        lemma_pairs_before(p);
        assert(pairs_before(a) == pairs_before(p) + 52 - a);
        assert(a * (103 - a) == p * (103 - p) + 2 * (52 - a)) by (nonlinear_arith)
            requires
                p == a - 1,
        ;
    } else {
        assert(a * (103 - a) == 0) by (nonlinear_arith)
            requires
                a == 0,
        ;
    }
}

/// The place of `[a, b]` comes before every pair whose first card is above `a`.
pub proof fn lemma_pair_index_below(a: nat, b: nat, c: nat)
    requires
        a < b < 52,
        a < c <= 52,
    ensures
        0 <= pair_index(a, b) < pairs_before(c),
    decreases c,
{
    if c > a + 1 {
        lemma_pair_index_below(a, b, (c - 1) as nat);
    }
}

/// Every place among the sorted pairs, from the first card `a` on, is the
/// place of some sorted pair.
proof fn lemma_pair_index_onto(a: nat, k: int)
    requires
        a <= 51,
        pairs_before(a) <= k < ALL_SORTED_HANDS_LEN,
    ensures
        exists|c: nat, d: nat| c < d < 52 && #[trigger] pair_index(c, d) == k,
    decreases 52 - a,
{
    lemma_pairs_before(a);
    lemma_pairs_before(a + 1);
    lemma_pairs_before(52);
    if k < pairs_before(a + 1) {
        let d = (k - pairs_before(a) + a + 1) as nat;
        assert(pair_index(a, d) == k);
    } else {
        if a == 51 {
            assert(pairs_before(52) == pairs_before(51) + 1);
        }
        lemma_pair_index_onto(a + 1, k);
    }
}

/// Every sorted pair of distinct cards, in increasing order of the first card
/// and then the second. The index of each hand, with its cards in either
/// order, is its place in the list.
pub fn all_sorted_hands() -> (hands: Vec<Hand>)
    ensures
        hands@.len() == ALL_SORTED_HANDS_LEN,
        forall|a: nat, b: nat| a < b < 52 ==> #[trigger] hands@[pair_index(a, b)] == [a as u8, b as u8],
        forall|k: int| 0 <= k < hands@.len() ==> (#[trigger] hands@[k])[0] < hands@[k][1] < 52,
        forall|k: int|
            0 <= k < hands@.len() ==> sorted_hand_index(#[trigger] hands@[k]) == k
                && sorted_hand_index([hands@[k][1], hands@[k][0]]) == k,
{
    let mut hands: Vec<Hand> = Vec::new();
    let mut i1: u8 = 0;
    while i1 < DECK_SIZE
        invariant
            i1 <= 52,
            hands@.len() == pairs_before(i1 as nat),
            forall|a: nat, b: nat| a < b < 52 && a < i1 ==> #[trigger] hands@[pair_index(a, b)] == [a as u8, b as u8],
            forall|k: int| 0 <= k < hands@.len() ==> (#[trigger] hands@[k])[0] < hands@[k][1] < 52,
        decreases 52 - i1,
    {
        let mut i2: u8 = i1 + 1;
        while i2 < DECK_SIZE
            invariant
                i1 < 52,
                i1 < i2 <= 52,
                hands@.len() == pairs_before(i1 as nat) + i2 - i1 - 1,
                forall|a: nat, b: nat| a < b < 52 && a < i1 ==> #[trigger] hands@[pair_index(a, b)] == [a as u8, b as u8],
                forall|b: nat| i1 < b < i2 ==> #[trigger] hands@[pair_index(i1 as nat, b)] == [i1, b as u8],
                forall|k: int| 0 <= k < hands@.len() ==> (#[trigger] hands@[k])[0] < hands@[k][1] < 52,
            decreases 52 - i2,
        {
            proof {
                lemma_pairs_before(i1 as nat);
                lemma_pairs_before((i1 + 1) as nat);
                assert(i1 * (103 - i1) + 2 * (51 - i1) <= 2652) by (nonlinear_arith)
                    requires
                        i1 < 52,
                ;
            }
            let ghost before = hands@;
            hands.push([i1, i2]);
            proof {
                assert forall|a: nat, b: nat| a < b < 52 && a < i1 implies #[trigger] hands@[pair_index(a, b)] == [a as u8, b as u8] by {
                    lemma_pair_index_below(a, b, i1 as nat);
                    assert(before[pair_index(a, b)] == [a as u8, b as u8]);
                }
                assert forall|b: nat| i1 < b < i2 + 1 implies #[trigger] hands@[pair_index(i1 as nat, b)] == [i1, b as u8] by {
                    if b < i2 {
                        assert(before[pair_index(i1 as nat, b)] == [i1, b as u8]);
                    }
                }
            }
            i2 += 1;
        }
        proof {
            assert forall|a: nat, b: nat| a < b < 52 && a < i1 + 1 implies #[trigger] hands@[pair_index(a, b)] == [a as u8, b as u8] by {
                if a == i1 as nat {
                    assert(hands@[pair_index(i1 as nat, b)] == [i1, b as u8]);
                }
            }
        }
        i1 += 1;
    }
    proof {
        lemma_pairs_before(52);
        assert forall|k: int| 0 <= k < hands@.len() implies sorted_hand_index(
            #[trigger] hands@[k],
        ) == k && sorted_hand_index([hands@[k][1], hands@[k][0]]) == k by {
            lemma_pair_index_onto(0, k);
            let (c, d) = choose|c: nat, d: nat| c < d < 52 && #[trigger] pair_index(c, d) == k;
            assert(hands@[pair_index(c, d)] == [c as u8, d as u8]);
            lemma_sorted_hand_index([c as u8, d as u8]);
            lemma_sorted_hand_index([d as u8, c as u8]);
        }
    }
    hands
}

/// The formula for a hand's place among the sorted hands: the lower card
/// `s0` and the higher card `s1` give `s0 * (2 * 52 - s0 - 3) / 2 + s1 - 1`.
pub open spec fn sorted_hand_index(hand: Hand) -> int {
    let s0 = if hand[0] > hand[1] { hand[1] } else { hand[0] };
    let s1 = if hand[0] > hand[1] { hand[0] } else { hand[1] };
    s0 * (2 * 52 - s0 - 3) / 2 + s1 - 1
}

/// Where `hand`, with its cards sorted, stands in `all_sorted_hands`. The
/// formula needs the lower card to be at most 101 and the higher one to be
/// above zero.
pub fn hand_to_sorted_hand_index(hand: Hand) -> (index: usize)
    requires
        (if hand[0] > hand[1] { hand[1] } else { hand[0] }) <= 101,
        (if hand[0] > hand[1] { hand[0] } else { hand[1] }) >= 1,
    ensures
        index == sorted_hand_index(hand),
{
    let sorted_hand = if hand[0] > hand[1] {
        [hand[1], hand[0]]
    } else {
        hand
    };
    let s0 = sorted_hand[0] as usize;
    let s1 = sorted_hand[1] as usize;
    let deck_size = DECK_SIZE as usize;
    assert(s0 * (2 * deck_size - s0 - 3) <= 101 * 101) by (nonlinear_arith)
        requires
            s0 <= 101,
            deck_size == 52,
    ;
    assert(s0 * (2 * deck_size - s0 - 3) >= 0) by (nonlinear_arith)
        requires
            s0 <= 101,
            deck_size == 52,
    ;
    s0 * (2 * deck_size - s0 - 3) / 2 + s1 - 1
}

/// The index of a hand of two distinct cards is the place of its sorted
/// version in `all_sorted_hands`.
pub proof fn lemma_sorted_hand_index(hand: Hand)
    requires
        hand[0] < 52,
        hand[1] < 52,
        hand[0] != hand[1],
    ensures
        ({
            let s0 = if hand[0] > hand[1] { hand[1] } else { hand[0] };
            let s1 = if hand[0] > hand[1] { hand[0] } else { hand[1] };
            &&& sorted_hand_index(hand) == pair_index(s0 as nat, s1 as nat)
            &&& 0 <= sorted_hand_index(hand) < ALL_SORTED_HANDS_LEN
        }),
{
    let s0 = if hand[0] > hand[1] { hand[1] } else { hand[0] };
    let s1 = if hand[0] > hand[1] { hand[0] } else { hand[1] };
    lemma_pairs_before(s0 as nat);
    lemma_pairs_before(52);
    lemma_pair_index_below(s0 as nat, s1 as nat, 52);
    let pb = pairs_before(s0 as nat);
    assert(s0 * (2 * 52 - s0 - 3) / 2 == pb - s0) by (nonlinear_arith)
        requires
            2 * pb == s0 * (103 - s0),
    ;
}

/// The win probability of `hand`, looked up in a table of one probability
/// per sorted hand (in the order of `all_sorted_hands`).
pub fn hand_win_probability(win_probability: &[Probability], hand: Hand) -> (p: Probability)
    requires
        win_probability@.len() == ALL_SORTED_HANDS_LEN,
        hand[0] < 52,
        hand[1] < 52,
        hand[0] != hand[1],
    ensures
        p == win_probability@[sorted_hand_index(hand)],
{
    proof {
        lemma_sorted_hand_index(hand);
    }
    win_probability[hand_to_sorted_hand_index(hand)]
}

} // verus!
