//! Cards, ranks, suits, decks and sets of cards.
use vstd::prelude::*;

verus! {

pub const RANK_COUNT: u8 = 13;
pub const SUIT_COUNT: u8 = 4;
pub const DECK_SIZE: u8 = 52;

/// A card is a number below `DECK_SIZE`: `suit * RANK_COUNT + rank`.
pub type DeckCard = u8;
pub type Suit = u8;
pub type Rank = u8;

pub const CLUBS: Suit = 0;
pub const DIAMONDS: Suit = 1;
pub const HEARTS: Suit = 2;
pub const SPADES: Suit = 3;

pub const ACE: Rank = 0;
pub const HIGH_ACE: Rank = 13;

/// The rank of a card, counted from the ace (0) up to the king (12).
pub open spec fn rank_of(card: DeckCard) -> Rank {
    (card % RANK_COUNT) as Rank
}

/// The suit of a card.
pub open spec fn suit_of(card: DeckCard) -> Suit {
    (card / RANK_COUNT) as Suit
}

pub fn get_suit(card: DeckCard) -> (suit: Suit)
    ensures
        suit == suit_of(card),
{
    card / RANK_COUNT
}

pub fn get_rank(card: DeckCard) -> (rank: Rank)
    ensures
        rank == rank_of(card),
        rank < RANK_COUNT,
{
    card % RANK_COUNT
}

/// The character used for a rank in short card text.
pub open spec fn rank_text_byte(rank: Rank) -> u8 {
    if rank == 0 {
        'a' as u8
    } else if 1 <= rank <= 8 {
        ('1' as u8 + rank) as u8
    } else if rank == 9 {
        't' as u8
    } else if rank == 10 {
        'j' as u8
    } else if rank == 11 {
        'q' as u8
    } else if rank == 12 {
        'k' as u8
    } else {
        '?' as u8
    }
}

/// The byte that stands for the rank of `card` in short card text.
pub fn card_text_byte(card: DeckCard) -> (byte: u8)
    ensures
        byte == rank_text_byte(rank_of(card)),
{
    match get_rank(card) {
        0 => 'a' as u8,
        1 => '2' as u8,
        2 => '3' as u8,
        3 => '4' as u8,
        4 => '5' as u8,
        5 => '6' as u8,
        6 => '7' as u8,
        7 => '8' as u8,
        8 => '9' as u8,
        9 => 't' as u8,
        10 => 'j' as u8,
        11 => 'q' as u8,
        12 => 'k' as u8,
        _ => '?' as u8,
    }
}

/// Every card once, in increasing order.
pub fn all_cards() -> (cards: [DeckCard; 52])
    ensures
        forall|i: int| 0 <= i < 52 ==> #[trigger] cards@[i] == i,
{
    let mut cards: [DeckCard; 52] = [0; 52];
    let mut c: u8 = 0;
    while c < DECK_SIZE
        invariant
            c <= 52,
            forall|i: int| 0 <= i < c ==> #[trigger] cards@[i] == i,
        decreases 52 - c,
    {
        cards[c as usize] = c;
        c += 1;
    }
    cards
}

/// A deck: a fixed arrangement of cards and how many of them have been drawn.
#[derive(Clone, Debug)]
pub struct Deck {
    cards: [DeckCard; 52],
    index: u8,
}

impl Deck {
    /// The arrangement of the cards, from the top.
    pub closed spec fn cards(&self) -> Seq<DeckCard> {
        self.cards@
    }

    /// How many cards have been drawn so far.
    pub closed spec fn drawn(&self) -> nat {
        self.index as nat
    }

    /// The cards that are still to be drawn, in order.
    pub open spec fn remaining(&self) -> Seq<DeckCard> {
        if self.drawn() < 52 {
            self.cards().subrange(self.drawn() as int, 52)
        } else {
            Seq::empty()
        }
    }

    /// Every deck holds fifty-two cards.
    pub broadcast proof fn deck_cards_len(deck: &Deck)
        ensures
            #[trigger] deck.cards().len() == 52,
    {
    }

    /// A deck of fifty-two zero cards, none of them drawn yet.
    pub fn new() -> (deck: Deck)
        ensures
            deck.drawn() == 0,
            deck.cards() == Seq::new(52, |_i: int| 0u8),
    {
        let deck = Deck { cards: [0; 52], index: 0 };
        assert(deck.cards() =~= Seq::new(52, |_i: int| 0u8));
        deck
    }

    /// The deck whose cards come in the given order, none of them drawn yet.
    pub closed spec fn arranged(cards: [DeckCard; 52]) -> Deck {
        Deck { cards, index: 0 }
    }

    /// A deck in a given order has those cards and none of them drawn.
    pub broadcast proof fn lemma_arranged(cards: [DeckCard; 52])
        ensures
            #[trigger] Deck::arranged(cards).drawn() == 0,
            Deck::arranged(cards).cards() == cards@,
    {
    }

    /// A deck whose cards come in the given order, none of them drawn yet.
    pub fn from_cards(cards: [DeckCard; 52]) -> (deck: Deck)
        ensures
            deck == Deck::arranged(cards),
            deck.drawn() == 0,
            deck.cards() == cards@,
    {
        Deck { cards, index: 0 }
    }

    /// Takes the next card from the top, if any is left.
    pub fn draw(&mut self) -> (card: Option<DeckCard>)
        ensures
            final(self).cards() == old(self).cards(),
            old(self).drawn() < 52 ==> card == Some(old(self).cards()[old(self).drawn() as int])
                && final(self).drawn() == old(self).drawn() + 1,
            old(self).drawn() >= 52 ==> card is None && final(self).drawn() == old(self).drawn(),
    {
        if self.index >= DECK_SIZE {
            None
        } else {
            let output = Some(self.cards[self.index as usize]);
            self.index += 1;
            output
        }
    }

    /// Whether at least two cards are left to draw.
    pub fn has_two_left(&self) -> (two: bool)
        ensures
            two == (self.drawn() + 2 <= 52),
    {
        self.index <= DECK_SIZE - 2
    }

    /// Draws a card and throws it away.
    pub fn burn(&mut self)
        ensures
            final(self).cards() == old(self).cards(),
            final(self).drawn() == if old(self).drawn() < 52 {
                old(self).drawn() + 1
            } else {
                old(self).drawn()
            },
    {
        let _ = self.draw();
    }
}

impl Default for Deck {
    /// A deck of fifty-two zero cards, none of them drawn yet.
    fn default() -> (deck: Deck)
        ensures
            deck.drawn() == 0,
            deck.cards() == Seq::new(52, |_i: int| 0u8),
    {
        Deck::new()
    }
}

/// A deck in the given order: the part of dealing a fresh deck that does not
/// depend on chance.
pub fn gen_deck_from(cards: [DeckCard; 52]) -> (deck: Deck)
    ensures
        deck == Deck::arranged(cards),
        deck.drawn() == 0,
        deck.cards() == cards@,
{
    Deck::from_cards(cards)
}

/// Whether bit `i` of `bits` is set.
pub open spec fn bit_set(bits: u64, i: u64) -> bool {
    (bits >> i) & 1u64 == 1u64
}

/// How many of the lowest `n` bits of `bits` are set.
pub open spec fn bits_below(bits: u64, n: nat) -> nat
    decreases n,
{
    if n == 0 {
        0
    } else {
        bits_below(bits, (n - 1) as nat) + if bit_set(bits, (n - 1) as u64) {
            1nat
        } else {
            0nat
        }
    }
}

pub proof fn lemma_bits_below_le(bits: u64, n: nat)
    ensures
        bits_below(bits, n) <= n,
    decreases n,
{
    if n > 0 {
        lemma_bits_below_le(bits, (n - 1) as nat);
    }
}

proof fn lemma_or_bit(b: u64, c: u64, d: u64)
    requires
        c < 64,
        d < 64,
    ensures
        bit_set(b | (1u64 << c), d) == (d == c || bit_set(b, d)),
{
    assert(bit_set(b | (1u64 << c), d) == (d == c || bit_set(b, d))) by (bit_vector)
        requires
            c < 64,
            d < 64,
    ;
}

proof fn lemma_and_not_bit(b: u64, c: u64, d: u64)
    requires
        c < 64,
        d < 64,
    ensures
        bit_set(b & !(1u64 << c), d) == (d != c && bit_set(b, d)),
{
    assert(bit_set(b & !(1u64 << c), d) == (d != c && bit_set(b, d))) by (bit_vector)
        requires
            c < 64,
            d < 64,
    ;
}

/// Where two bit patterns differ at most in bit `c`, their counts of set bits
/// below `n` differ by what bit `c` adds.
proof fn lemma_bits_below_one_changed(b: u64, e: u64, c: u64, n: nat)
    requires
        c < 64,
        n <= 64,
        forall|d: u64| d < 64 && d != c ==> #[trigger] bit_set(e, d) == bit_set(b, d),
    ensures
        c < n ==> bits_below(e, n) + (if bit_set(b, c) {
            1nat
        } else {
            0nat
        }) == bits_below(b, n) + (if bit_set(e, c) {
            1nat
        } else {
            0nat
        }),
        c >= n ==> bits_below(e, n) == bits_below(b, n),
    decreases n,
{
    if n > 0 {
        lemma_bits_below_one_changed(b, e, c, (n - 1) as nat);
        let d = (n - 1) as u64;
        if d != c {
            assert(bit_set(e, d) == bit_set(b, d));
        }
    }
}

/// The bits below `n` that are set, as a set of integers.
proof fn lemma_bits_below_set(bits: u64, n: nat)
    requires
        n <= 64,
    ensures
        Set::new(|c: int| 0 <= c < n && bit_set(bits, c as u64)).finite(),
        Set::new(|c: int| 0 <= c < n && bit_set(bits, c as u64)).len() == bits_below(bits, n),
    decreases n,
{
    let now = Set::new(|c: int| 0 <= c < n && bit_set(bits, c as u64));
    if n == 0 {
        assert(now =~= Set::empty());
    } else {
        lemma_bits_below_set(bits, (n - 1) as nat);
        let before = Set::new(|c: int| 0 <= c < n - 1 && bit_set(bits, c as u64));
        if bit_set(bits, (n - 1) as u64) {
            assert(now =~= before.insert(n - 1));
        } else {
            assert(now =~= before);
        }
    }
}

proof fn lemma_full_bits(d: u64)
    requires
        d < 64,
    ensures
        bit_set(0xF_FFFF_FFFF_FFFFu64, d) == (d < 52),
{
    assert(bit_set(0xF_FFFF_FFFF_FFFFu64, d) == (d < 52)) by (bit_vector)
        requires
            d < 64,
    ;
}

proof fn lemma_bits_below_full(n: nat)
    requires
        n <= 52,
    ensures
        bits_below(0xF_FFFF_FFFF_FFFFu64, n) == n,
    decreases n,
{
    if n > 0 {
        lemma_bits_below_full((n - 1) as nat);
        lemma_full_bits((n - 1) as u64);
    }
}

proof fn lemma_bits_below_full_high(n: nat)
    requires
        52 <= n <= 64,
    ensures
        bits_below(0xF_FFFF_FFFF_FFFFu64, n) == 52,
    decreases n,
{
    if n == 52 {
        lemma_bits_below_full(52);
    } else {
        lemma_bits_below_full_high((n - 1) as nat);
        lemma_full_bits((n - 1) as u64);
    }
}

/// A set of cards, one bit per card.
#[derive(Clone, Copy, Debug, Default)]
pub struct CardBitset(u64);

impl CardBitset {
    /// Whether the set holds `card`.
    pub closed spec fn has(self, card: int) -> bool {
        0 <= card < 64 && bit_set(self.0, card as u64)
    }

    /// How many cards the set holds.
    pub closed spec fn count(self) -> nat {
        bits_below(self.0, 64)
    }

    /// The cards the set holds.
    pub open spec fn members(self) -> Set<int> {
        Set::new(|c: int| self.has(c))
    }

    /// The set with `card` added.
    pub closed spec fn with_card(self, card: DeckCard) -> CardBitset {
        CardBitset(self.0 | (1u64 << card as u64))
    }

    /// The set with `card` taken out.
    pub closed spec fn without_card(self, card: DeckCard) -> CardBitset {
        CardBitset(self.0 & !(1u64 << card as u64))
    }

    /// The count of a set is the number of cards it holds.
    pub proof fn lemma_count_is_members(self)
        ensures
            self.members().finite(),
            self.count() == self.members().len(),
    {
        lemma_bits_below_set(self.0, 64);
        assert(self.members() =~= Set::new(|c: int| 0 <= c < 64 && bit_set(self.0, c as u64)));
    }

    /// Adding a card that the set lacks and then taking it out again gives
    /// back the same set.
    pub proof fn lemma_set_then_remove(self, card: DeckCard)
        requires
            card <= DECK_SIZE,
            !self.has(card as int),
        ensures
            self.with_card(card).without_card(card) == self,
    {
        let b = self.0;
        let c = card as u64;
        assert(!bit_set(b, c));
        assert((b | (1u64 << c)) & !(1u64 << c) == b) by (bit_vector)
            requires
                c < 64,
                (b >> c) & 1u64 != 1u64,
        ;
    }

    /// The empty set.
    pub fn empty() -> (set: CardBitset)
        ensures
            forall|c: int| !set.has(c),
            set.count() == 0,
    {
        let set = CardBitset(0);
        assert forall|c: int| !set.has(c) by {
            if 0 <= c < 64 {
                let d = c as u64;
                assert(!bit_set(0u64, d)) by (bit_vector);
            }
        }
        proof {
            set.lemma_count_is_members();
            assert(set.members() =~= Set::empty());
        }
        set
    }

    /// The set of every card in the deck.
    pub fn full() -> (set: CardBitset)
        ensures
            forall|c: int| set.has(c) <==> 0 <= c < 52,
            set.count() == 52,
    {
        let set = CardBitset(0xF_FFFF_FFFF_FFFFu64);
        proof {
            assert forall|c: int| set.has(c) <==> 0 <= c < 52 by {
                if 0 <= c < 64 {
                    lemma_full_bits(c as u64);
                }
            }
            lemma_bits_below_full_high(64);
        }
        set
    }

    /// How many cards the set holds.
    pub fn len(&self) -> (n: u8)
        ensures
            n == self.count(),
    {
        let mut n: u8 = 0;
        let mut i: u64 = 0;
        while i < 64
            invariant
                i <= 64,
                n == bits_below(self.0, i as nat),
                n <= i,
            decreases 64 - i,
        {
            proof {
                lemma_bits_below_le(self.0, i as nat);
            }
            if (self.0 >> i) & 1 == 1 {
                n += 1;
            }
            i += 1;
        }
        n
    }

    /// Adds `card`; a card past the end of the deck by more than one is ignored.
    pub fn set(&mut self, card: DeckCard)
        ensures
            card > DECK_SIZE ==> *final(self) == *old(self),
            card <= DECK_SIZE ==> *final(self) == old(self).with_card(card),
            card <= DECK_SIZE ==> forall|c: int|
                #[trigger] final(self).has(c) == (c == card || old(self).has(c)),
            card <= DECK_SIZE ==> final(self).count() == old(self).count() + if old(self).has(
                card as int,
            ) {
                0nat
            } else {
                1nat
            },
    {
        if card > DECK_SIZE {
            return ;
        }
        let c = card as u64;
        let ghost before = self.0;
        self.0 = self.0 | (1u64 << c);
        proof {
            assert forall|d: int| #[trigger] self.has(d) == (d == card || old(self).has(d)) by {
                if 0 <= d < 64 {
                    lemma_or_bit(before, c, d as u64);
                }
            }
            assert forall|d: u64| d < 64 && d != c implies #[trigger] bit_set(self.0, d) == bit_set(
                before,
                d,
            ) by {
                lemma_or_bit(before, c, d);
            }
            lemma_or_bit(before, c, c);
            lemma_bits_below_one_changed(before, self.0, c, 64);
        }
    }

    /// Removes `card`; a card past the end of the deck by more than one is ignored.
    pub fn remove(&mut self, card: DeckCard)
        ensures
            card > DECK_SIZE ==> *final(self) == *old(self),
            card <= DECK_SIZE ==> *final(self) == old(self).without_card(card),
            card <= DECK_SIZE ==> forall|c: int|
                #[trigger] final(self).has(c) == (c != card && old(self).has(c)),
            card <= DECK_SIZE ==> final(self).count() + (if old(self).has(card as int) {
                1nat
            } else {
                0nat
            }) == old(self).count(),
    {
        if card > DECK_SIZE {
            return ;
        }
        let c = card as u64;
        let ghost before = self.0;
        self.0 = self.0 & !(1u64 << c);
        proof {
            assert forall|d: int| #[trigger] self.has(d) == (d != card && old(self).has(d)) by {
                if 0 <= d < 64 {
                    lemma_and_not_bit(before, c, d as u64);
                }
            }
            assert forall|d: u64| d < 64 && d != c implies #[trigger] bit_set(self.0, d) == bit_set(
                before,
                d,
            ) by {
                lemma_and_not_bit(before, c, d);
            }
            lemma_and_not_bit(before, c, c);
            lemma_bits_below_one_changed(before, self.0, c, 64);
        }
    }

    /// The cards of the deck that the set holds, in increasing order.
    pub fn iter(self) -> (cards: Vec<DeckCard>)
        ensures
            forall|i: int, j: int| 0 <= i < j < cards.len() ==> cards@[i] < cards@[j],
            forall|c: DeckCard| #[trigger] cards@.contains(c) <==> (c < DECK_SIZE && self.has(
                c as int,
            )),
    {
        let mut cards: Vec<DeckCard> = Vec::new();
        let mut index: u8 = 0;
        while index < DECK_SIZE
            invariant
                index <= 52,
                forall|i: int, j: int| 0 <= i < j < cards.len() ==> cards@[i] < cards@[j],
                forall|i: int| 0 <= i < cards.len() ==> cards@[i] < index,
                forall|c: DeckCard| #[trigger] cards@.contains(c) <==> (c < index && self.has(c as int)),
            decreases 52 - index,
        {
            let ghost before = cards@;
            let b = self.0;
            let x = index as u64;
            proof {
                assert(((b >> x) & 1u64 != 0u64) == ((b >> x) & 1u64 == 1u64)) by (bit_vector);
            }
            if (b >> x) & 1 != 0 {
                cards.push(index);
                proof {
                    assert forall|c: DeckCard| #[trigger] cards@.contains(c) <==> (c < index + 1
                        && self.has(c as int)) by {
                        if c == index {
                            assert(cards@[cards.len() - 1] == c);
                            assert(bit_set(b, x));
                        } else if cards@.contains(c) {
                            let k = choose|k: int| 0 <= k < cards.len() && cards@[k] == c;
                            assert(before[k] == c);
                            assert(before.contains(c));
                        } else if c < index && self.has(c as int) {
                            assert(before.contains(c));
                            let k = choose|k: int| 0 <= k < before.len() && before[k] == c;
                            assert(cards@[k] == c);
                        }
                    }
                }
            }
            index += 1;
        }
        cards
    }
}


/// Goes through the cards of a set, in increasing order.
#[derive(Clone, Copy, Debug)]
pub struct CardBitsetIter {
    set: CardBitset,
    index: u8,
}

impl CardBitsetIter {
    /// The set gone through.
    pub closed spec fn set(&self) -> CardBitset {
        self.set
    }

    /// The first card not yet looked at.
    pub closed spec fn position(&self) -> nat {
        self.index as nat
    }

    /// Starts at the lowest card of `set`.
    pub fn new(set: CardBitset) -> (iter: CardBitsetIter)
        ensures
            iter.set() == set,
            iter.position() == 0,
    {
        CardBitsetIter { set, index: 0 }
    }

    /// The next card of the set, if any is left.
    pub fn next(&mut self) -> (card: Option<DeckCard>)
        ensures
            final(self).set() == old(self).set(),
            (match card {
                Some(c) => {
                    &&& old(self).position() <= c < 52
                    &&& old(self).set().has(c as int)
                    &&& forall|d: int| old(self).position() <= d < c ==> !old(self).set().has(d)
                    &&& final(self).position() == c + 1
                },
                None => {
                    &&& forall|d: int| old(self).position() <= d < 52 ==> !old(self).set().has(d)
                    &&& final(self).position() == if old(self).position() < 52 {
                        52
                    } else {
                        old(self).position()
                    }
                },
            }),
    {
        let ghost start = self.index;
        while self.index < DECK_SIZE
            invariant
                self.set == old(self).set,
                start == old(self).index,
                start <= self.index,
                self.index <= 52 || self.index == start,
                forall|d: int| start <= d < self.index ==> !self.set.has(d),
            decreases 52 - self.index,
        {
            let bits = self.set.0;
            let i = self.index as u64;
            if (bits >> i) & 1 == 1 {
                let output = self.index;
                self.index += 1;
                return Some(output);
            }
            self.index += 1;
        }
        None
    }
}

} // verus!
