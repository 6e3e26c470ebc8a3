//! Texas hold'em: hands, actions, the players' bitset, community cards.
use vstd::prelude::*;

use crate::cards::{DeckCard, Deck, card_text_byte, get_rank, rank_of, rank_text_byte};
use crate::money::{MoneyInner, NonZeroMoneyInner, sat_add};
use crate::decimal_text;

verus! {

broadcast use {crate::cards::Deck::deck_cards_len, vstd::array::group_array_axioms};

pub type Hand = [DeckCard; 2];

/// The two bytes of short text for a hand. The cards change places only where
/// the first is not an ace and the second has the higher rank number (ranks
/// run from the ace, 0, to the king, 12); so an ace in first place stays
/// there, and one in second place stays there too: a king then an ace reads
/// "ka", not "ak".
pub open spec fn hand_text(hand: Hand) -> Seq<u8> {
    let r0 = rank_of(hand[0]);
    let r1 = rank_of(hand[1]);
    if r0 != 0 && r0 < r1 {
        seq![rank_text_byte(r1), rank_text_byte(r0)]
    } else {
        seq![rank_text_byte(r0), rank_text_byte(r1)]
    }
}

pub fn short_hand_text(hand: Hand) -> (text: [u8; 2])
    ensures
        text@ == hand_text(hand),
{
    let rank_0 = get_rank(hand[0]);
    let rank_1 = get_rank(hand[1]);
    // High card first looks nicer; an ace (rank 0) stays first.
    let (first, second) = if rank_0 != 0 && rank_0 < rank_1 {
        (hand[1], hand[0])
    } else {
        (hand[0], hand[1])
    };
    let text = [card_text_byte(first), card_text_byte(second)];
    assert(text@ =~= hand_text(hand));
    text
}

/// What a player does on their turn.
#[derive(Clone, Debug)]
pub enum Action {
    Fold,
    Call,
    Raise(MoneyInner),
}

/// The limits for choosing an action.
#[derive(Debug)]
pub struct ActionSpec {
    pub one_past_max_money: NonZeroMoneyInner,
    pub min_money_unit: NonZeroMoneyInner,
    pub minimum_raise_total: MoneyInner,
}

/// The product of two amounts, or the largest amount where it would not fit.
pub open spec fn sat_mul(a: MoneyInner, b: MoneyInner) -> MoneyInner {
    if a * b > u32::MAX {
        u32::MAX
    } else {
        (a * b) as MoneyInner
    }
}

/// The range, in money units, that a random raise is drawn from: from the
/// minimum raise up to the most the player has, rounded down to whole units.
/// `None` where the minimum raise is more than the player has.
pub open spec fn spec_raise_units_range(spec: ActionSpec) -> Option<(MoneyInner, MoneyInner)> {
    let max_money = (spec.one_past_max_money@ - 1) as MoneyInner;
    let unit = spec.min_money_unit@;
    if spec.minimum_raise_total > max_money {
        None
    } else {
        let max_in_units = (max_money / unit) as MoneyInner;
        let min_in_units = (spec.minimum_raise_total / unit) as MoneyInner;
        let top = if min_in_units >= max_in_units {
            min_in_units
        } else {
            max_in_units
        };
        Some((min_in_units, sat_add(top, 1)))
    }
}

pub fn raise_units_range(spec: &ActionSpec) -> (range: Option<(MoneyInner, MoneyInner)>)
    ensures
        range == spec_raise_units_range(*spec),
{
    let max_money = spec.one_past_max_money.get() - 1;
    let unit = spec.min_money_unit.get();
    if spec.minimum_raise_total > max_money {
        None
    } else {
        let max_in_units: MoneyInner = max_money / unit;
        let min_in_units: MoneyInner = spec.minimum_raise_total / unit;
        let top = if min_in_units >= max_in_units {
            min_in_units
        } else {
            max_in_units
        };
        Some((min_in_units, top.saturating_add(1)))
    }
}

/// A random action, from the rolls that chance gave: `kind_roll` (drawn from
/// `0..3`) picks a fold, a call or a raise; a raise the player cannot afford
/// becomes a call (all in); otherwise the raise is `units_roll` money units,
/// with `units_roll` drawn from `raise_units_range`.
pub fn gen_action(spec: &ActionSpec, kind_roll: u32, units_roll: MoneyInner) -> (action: Action)
    ensures
        kind_roll == 0 ==> action == Action::Fold,
        kind_roll == 1 ==> action == Action::Call,
        kind_roll >= 2 ==> action == match spec_raise_units_range(*spec) {
            None => Action::Call,
            Some(_) => Action::Raise(sat_mul(units_roll, spec.min_money_unit@)),
        },
{
    match kind_roll {
        0 => Action::Fold,
        1 => Action::Call,
        _ => {
            match raise_units_range(spec) {
                // Go all in.
                None => Action::Call,
                Some(_) => {
                    let a = units_roll as u64;
                    let b = spec.min_money_unit.get() as u64;
                    assert(a * b <= u32::MAX as int * u32::MAX as int) by (nonlinear_arith)
                        requires
                            a <= u32::MAX,
                            b <= u32::MAX,
                    ;
                    let product = a * b;
                    Action::Raise(
                        if product > u32::MAX as u64 {
                            u32::MAX
                        } else {
                            product as MoneyInner
                        },
                    )
                },
            }
        },
    }
}

/// The kind of an action, as chosen in a menu.
#[derive(Copy, Clone, Debug, Default, PartialEq, Eq, Structural)]
pub enum ActionKind {
    #[default]
    Fold,
    Call,
    Raise,
}

/// Which kinds of action a menu offers.
#[derive(Copy, Clone, Debug, Default, PartialEq, Eq, Structural)]
pub enum AllowedKindMode {
    #[default]
    All,
    NoFolding,
    AllIn,
}

impl ActionKind {
    pub fn text(self) -> (text: &'static [u8])
        ensures
            self == ActionKind::Fold ==> text@ == seq!['f' as u8, 'o' as u8, 'l' as u8, 'd' as u8],
            self == ActionKind::Call ==> text@ == seq!['c' as u8, 'a' as u8, 'l' as u8, 'l' as u8],
            self == ActionKind::Raise ==> text@ == seq![
                'r' as u8,
                'a' as u8,
                'i' as u8,
                's' as u8,
                'e' as u8,
            ],
    {
        match self {
            ActionKind::Fold => {
                let t: &'static [u8] = &[102, 111, 108, 100];
                assert(t@ =~= seq!['f' as u8, 'o' as u8, 'l' as u8, 'd' as u8]);
                t
            },
            ActionKind::Call => {
                let t: &'static [u8] = &[99, 97, 108, 108];
                assert(t@ =~= seq!['c' as u8, 'a' as u8, 'l' as u8, 'l' as u8]);
                t
            },
            ActionKind::Raise => {
                let t: &'static [u8] = &[114, 97, 105, 115, 101];
                assert(t@ =~= seq!['r' as u8, 'a' as u8, 'i' as u8, 's' as u8, 'e' as u8]);
                t
            },
        }
    }

    /// The kind that follows this one going up a menu.
    pub open spec fn spec_next_up(self, mode: AllowedKindMode) -> ActionKind {
        match mode {
            AllowedKindMode::All => match self {
                ActionKind::Fold => ActionKind::Call,
                ActionKind::Call => ActionKind::Raise,
                ActionKind::Raise => ActionKind::Fold,
            },
            AllowedKindMode::NoFolding => match self {
                ActionKind::Fold => ActionKind::Call,
                ActionKind::Call => ActionKind::Raise,
                ActionKind::Raise => ActionKind::Call,
            },
            AllowedKindMode::AllIn => ActionKind::Call,
        }
    }

    /// The kind that follows this one going down a menu.
    pub open spec fn spec_next_down(self, mode: AllowedKindMode) -> ActionKind {
        match mode {
            AllowedKindMode::All => match self {
                ActionKind::Fold => ActionKind::Raise,
                ActionKind::Call => ActionKind::Fold,
                ActionKind::Raise => ActionKind::Call,
            },
            AllowedKindMode::NoFolding => match self {
                ActionKind::Fold => ActionKind::Raise,
                ActionKind::Call => ActionKind::Raise,
                ActionKind::Raise => ActionKind::Call,
            },
            AllowedKindMode::AllIn => ActionKind::Call,
        }
    }

    pub fn next_up(self, mode: AllowedKindMode) -> (next: Self)
        ensures
            next == self.spec_next_up(mode),
    {
        match mode {
            AllowedKindMode::All => match self {
                ActionKind::Fold => ActionKind::Call,
                ActionKind::Call => ActionKind::Raise,
                ActionKind::Raise => ActionKind::Fold,
            },
            AllowedKindMode::NoFolding => match self {
                ActionKind::Fold => ActionKind::Call,
                ActionKind::Call => ActionKind::Raise,
                ActionKind::Raise => ActionKind::Call,
            },
            AllowedKindMode::AllIn => ActionKind::Call,
        }
    }

    pub fn next_down(self, mode: AllowedKindMode) -> (next: Self)
        ensures
            next == self.spec_next_down(mode),
    {
        match mode {
            AllowedKindMode::All => match self {
                ActionKind::Fold => ActionKind::Raise,
                ActionKind::Call => ActionKind::Fold,
                ActionKind::Raise => ActionKind::Call,
            },
            AllowedKindMode::NoFolding => match self {
                ActionKind::Fold => ActionKind::Raise,
                ActionKind::Call => ActionKind::Raise,
                ActionKind::Raise => ActionKind::Call,
            },
            AllowedKindMode::AllIn => ActionKind::Call,
        }
    }
}

/// With every kind allowed, going down undoes going up and the reverse; with
/// folding left out, the same holds of the kinds that are offered; and every
/// mode only ever moves to a kind that it offers.
pub proof fn lemma_next_up_down(kind: ActionKind, mode: AllowedKindMode)
    ensures
        mode == AllowedKindMode::All ==> kind.spec_next_up(mode).spec_next_down(mode) == kind
            && kind.spec_next_down(mode).spec_next_up(mode) == kind,
        mode == AllowedKindMode::NoFolding && kind != ActionKind::Fold ==> kind.spec_next_up(
            mode,
        ).spec_next_down(mode) == kind && kind.spec_next_down(mode).spec_next_up(mode) == kind,
        mode == AllowedKindMode::NoFolding ==> kind.spec_next_up(mode) != ActionKind::Fold
            && kind.spec_next_down(mode) != ActionKind::Fold,
        mode == AllowedKindMode::AllIn ==> kind.spec_next_up(mode) == ActionKind::Call
            && kind.spec_next_down(mode) == ActionKind::Call,
{
}

/// Whether a hand is shown.
#[derive(Copy, Clone)]
pub enum Facing {
    Down,
    Up(Hand),
}

pub type PlayerIndex = u8;
/// A number of players; not necessarily a valid number for a round (see `HandLen`).
pub type PlayerAmount = u8;
pub type HandIndex = u8;

pub const MIN_PLAYERS: PlayerAmount = 2;
/// With 52 cards, 5 community cards and 3 burn cards, 44 cards are left over,
/// so at most 22 hands can be dealt.
pub const MAX_PLAYERS: PlayerAmount = 22;
pub const MAX_POTS: u8 = 22;
pub const MAX_HAND_INDEX: u8 = 21;

/// A set of players, one bit per player.
#[derive(Clone, Copy, Debug, Default)]
pub struct PerPlayerBitset(u32);

/// Whether bit `i` of `bits` is set.
pub open spec fn player_bit(bits: u32, i: u32) -> bool {
    (bits >> i) & 1u32 == 1u32
}

/// How many of the lowest `n` bits of `bits` are set.
pub open spec fn player_bits_below(bits: u32, n: nat) -> nat
    decreases n,
{
    if n == 0 {
        0
    } else {
        player_bits_below(bits, (n - 1) as nat) + if player_bit(bits, (n - 1) as u32) {
            1nat
        } else {
            0nat
        }
    }
}

proof fn lemma_player_bits_below_le(bits: u32, n: nat)
    ensures
        player_bits_below(bits, n) <= n,
    decreases n,
{
    if n > 0 {
        lemma_player_bits_below_le(bits, (n - 1) as nat);
    }
}

/// Where two bit patterns differ at most in bit `c`, their counts of set bits
/// below `n` differ by what bit `c` adds.
proof fn lemma_player_bits_one_changed(b: u32, e: u32, c: u32, n: nat)
    requires
        c < 32,
        n <= 32,
        forall|d: u32| d < 32 && d != c ==> #[trigger] player_bit(e, d) == player_bit(b, d),
    ensures
        c < n ==> player_bits_below(e, n) + (if player_bit(b, c) {
            1nat
        } else {
            0nat
        }) == player_bits_below(b, n) + (if player_bit(e, c) {
            1nat
        } else {
            0nat
        }),
        c >= n ==> player_bits_below(e, n) == player_bits_below(b, n),
    decreases n,
{
    if n > 0 {
        lemma_player_bits_one_changed(b, e, c, (n - 1) as nat);
        let d = (n - 1) as u32;
        if d != c {
            assert(player_bit(e, d) == player_bit(b, d));
        }
    }
}

impl PerPlayerBitset {
    /// Whether player `index` is in the set.
    pub closed spec fn has(self, index: int) -> bool {
        0 <= index < 32 && player_bit(self.0, index as u32)
    }

    /// How many players the set holds.
    pub closed spec fn count(self) -> nat {
        player_bits_below(self.0, 32)
    }

    /// The set with player `index` added.
    pub closed spec fn with_player(self, index: HandIndex) -> PerPlayerBitset {
        PerPlayerBitset(self.0 | (1u32 << index as u32))
    }

    /// Adding a player twice gives the set that adding them once gives.
    pub proof fn lemma_set_twice(self, index: HandIndex)
        requires
            index <= MAX_PLAYERS,
        ensures
            self.with_player(index).with_player(index) == self.with_player(index),
    {
        let b = self.0;
        let c = index as u32;
        assert((b | (1u32 << c)) | (1u32 << c) == b | (1u32 << c)) by (bit_vector);
    }

    /// The empty set.
    pub fn new() -> (set: PerPlayerBitset)
        ensures
            forall|i: int| !set.has(i),
            set.count() == 0,
    {
        let set = PerPlayerBitset(0);
        assert forall|i: int| !set.has(i) by {
            if 0 <= i < 32 {
                let d = i as u32;
                assert(!player_bit(0u32, d)) by (bit_vector);
            }
        }
        assert forall|n: nat| n <= 32 implies player_bits_below(0u32, n) == 0 by {
            lemma_empty_player_bits(n);
        }
        set
    }

    pub fn len(&self) -> (n: PlayerAmount)
        ensures
            n == self.count(),
    {
        let mut n: u8 = 0;
        let mut i: u32 = 0;
        while i < 32
            invariant
                i <= 32,
                n == player_bits_below(self.0, i as nat),
                n <= i,
            decreases 32 - i,
        {
            proof {
                lemma_player_bits_below_le(self.0, i as nat);
            }
            if (self.0 >> i) & 1 == 1 {
                n += 1;
            }
            i += 1;
        }
        n
    }

    /// Adds player `index`; an index past `MAX_PLAYERS` is ignored.
    pub fn set(&mut self, index: HandIndex)
        ensures
            index > MAX_PLAYERS ==> *final(self) == *old(self),
            index <= MAX_PLAYERS ==> *final(self) == old(self).with_player(index),
            index <= MAX_PLAYERS ==> forall|i: int|
                #[trigger] final(self).has(i) == (i == index || old(self).has(i)),
            index <= MAX_PLAYERS ==> final(self).count() == old(self).count() + if old(self).has(
                index as int,
            ) {
                0nat
            } else {
                1nat
            },
    {
        if index > MAX_PLAYERS {
            return ;
        }
        let c = index as u32;
        let ghost before = self.0;
        self.0 = self.0 | (1u32 << c);
        proof {
            assert forall|d: u32| d < 32 implies #[trigger] player_bit(self.0, d) == (d == c
                || player_bit(before, d)) by {
                assert(player_bit(before | (1u32 << c), d) == (d == c || player_bit(before, d)))
                    by (bit_vector)
                    requires
                        c < 32,
                        d < 32,
                ;
            }
            assert forall|d: int| #[trigger] self.has(d) == (d == index || old(self).has(d)) by {
                if 0 <= d < 32 {
                    assert(player_bit(self.0, d as u32) == (d as u32 == c || player_bit(before, d as u32)));
                }
            }
            assert(player_bit(self.0, c));
            lemma_player_bits_one_changed(before, self.0, c, 32);
        }
    }

    /// The players in the set below `MAX_PLAYERS`, in increasing order.
    pub fn iter(self) -> (players: Vec<HandIndex>)
        ensures
            forall|i: int, j: int| 0 <= i < j < players.len() ==> players@[i] < players@[j],
            forall|p: HandIndex| #[trigger] players@.contains(p) <==> (p < MAX_PLAYERS
                && self.has(p as int)),
    {
        let mut players: Vec<HandIndex> = Vec::new();
        let mut index: u8 = 0;
        while index < MAX_PLAYERS
            invariant
                index <= 22,
                forall|i: int, j: int| 0 <= i < j < players.len() ==> players@[i] < players@[j],
                forall|i: int| 0 <= i < players.len() ==> players@[i] < index,
                forall|p: HandIndex| #[trigger] players@.contains(p) <==> (p < index && self.has(
                    p as int,
                )),
            decreases 22 - index,
        {
            let ghost before = players@;
            let b = self.0;
            let x = index as u32;
            proof {
                assert(((b >> x) & 1u32 != 0u32) == ((b >> x) & 1u32 == 1u32)) by (bit_vector);
            }
            if (b >> x) & 1 != 0 {
                players.push(index);
                proof {
                    assert forall|p: HandIndex| #[trigger] players@.contains(p) <==> (p < index + 1
                        && self.has(p as int)) by {
                        if p == index {
                            assert(players@[players.len() - 1] == p);
                            assert(player_bit(b, x));
                        } else if players@.contains(p) {
                            let k = choose|k: int| 0 <= k < players.len() && players@[k] == p;
                            assert(before[k] == p);
                            assert(before.contains(p));
                        } else if p < index && self.has(p as int) {
                            assert(before.contains(p));
                            let k = choose|k: int| 0 <= k < before.len() && before[k] == p;
                            assert(players@[k] == p);
                        }
                    }
                }
            }
            index += 1;
        }
        players
    }
}

proof fn lemma_empty_player_bits(n: nat)
    ensures
        player_bits_below(0u32, n) == 0,
    decreases n,
{
    if n > 0 {
        lemma_empty_player_bits((n - 1) as nat);
        let d = (n - 1) as u32;
        assert(!player_bit(0u32, d)) by (bit_vector);
    }
}

/// A number of hands dealt in a round: from 2 to 22.
#[derive(Copy, Clone, Debug, Default, PartialEq, Eq, Structural, PartialOrd, Ord)]
pub enum HandLen {
    #[default]
    Two,
    Three,
    Four,
    Five,
    Six,
    Seven,
    Eight,
    Nine,
    Ten,
    Eleven,
    Twelve,
    Thirteen,
    Fourteen,
    Fifteen,
    Sixteen,
    Seventeen,
    Eightteen,
    Nineteen,
    Twenty,
    TwentyOne,
    TwentyTwo,
}

impl HandLen {
    /// The number of players this stands for.
    pub open spec fn value(self) -> u8 {
        match self {
            HandLen::Two => 2,
            HandLen::Three => 3,
            HandLen::Four => 4,
            HandLen::Five => 5,
            HandLen::Six => 6,
            HandLen::Seven => 7,
            HandLen::Eight => 8,
            HandLen::Nine => 9,
            HandLen::Ten => 10,
            HandLen::Eleven => 11,
            HandLen::Twelve => 12,
            HandLen::Thirteen => 13,
            HandLen::Fourteen => 14,
            HandLen::Fifteen => 15,
            HandLen::Sixteen => 16,
            HandLen::Seventeen => 17,
            HandLen::Eightteen => 18,
            HandLen::Nineteen => 19,
            HandLen::Twenty => 20,
            HandLen::TwentyOne => 21,
            HandLen::TwentyTwo => 22,
        }
    }

    /// The count for `n` players, where HandLen has one.
    pub open spec fn of_value(n: u8) -> HandLen {
        match n {
            2 => HandLen::Two,
            3 => HandLen::Three,
            4 => HandLen::Four,
            5 => HandLen::Five,
            6 => HandLen::Six,
            7 => HandLen::Seven,
            8 => HandLen::Eight,
            9 => HandLen::Nine,
            10 => HandLen::Ten,
            11 => HandLen::Eleven,
            12 => HandLen::Twelve,
            13 => HandLen::Thirteen,
            14 => HandLen::Fourteen,
            15 => HandLen::Fifteen,
            16 => HandLen::Sixteen,
            17 => HandLen::Seventeen,
            18 => HandLen::Eightteen,
            19 => HandLen::Nineteen,
            20 => HandLen::Twenty,
            21 => HandLen::TwentyOne,
            22 => HandLen::TwentyTwo,
            _ => HandLen::Two,
        }
    }

    /// Every count stands for a number from 2 to 22, and no two counts for the same one.
    pub proof fn lemma_value(self, other: HandLen)
        ensures
            2 <= self.value() <= 22,
            HandLen::of_value(self.value()) == self,
            self.value() == other.value() ==> self == other,
    {
    }

    /// One more player, up to the maximum.
    pub fn saturating_add_1(self) -> (next: Self)
        ensures
            next.value() == if self.value() < 22 { (self.value() + 1) as u8 } else { 22u8 },
    {
        match self {
            HandLen::Two => HandLen::Three,
            HandLen::Three => HandLen::Four,
            HandLen::Four => HandLen::Five,
            HandLen::Five => HandLen::Six,
            HandLen::Six => HandLen::Seven,
            HandLen::Seven => HandLen::Eight,
            HandLen::Eight => HandLen::Nine,
            HandLen::Nine => HandLen::Ten,
            HandLen::Ten => HandLen::Eleven,
            HandLen::Eleven => HandLen::Twelve,
            HandLen::Twelve => HandLen::Thirteen,
            HandLen::Thirteen => HandLen::Fourteen,
            HandLen::Fourteen => HandLen::Fifteen,
            HandLen::Fifteen => HandLen::Sixteen,
            HandLen::Sixteen => HandLen::Seventeen,
            HandLen::Seventeen => HandLen::Eightteen,
            HandLen::Eightteen => HandLen::Nineteen,
            HandLen::Nineteen => HandLen::Twenty,
            HandLen::Twenty => HandLen::TwentyOne,
            HandLen::TwentyOne => HandLen::TwentyTwo,
            HandLen::TwentyTwo => HandLen::TwentyTwo,
        }
    }

    /// One less player, down to the minimum.
    pub fn saturating_sub_1(self) -> (next: Self)
        ensures
            next.value() == if self.value() > 2 { (self.value() - 1) as u8 } else { 2u8 },
    {
        match self {
            HandLen::Two => HandLen::Two,
            HandLen::Three => HandLen::Two,
            HandLen::Four => HandLen::Three,
            HandLen::Five => HandLen::Four,
            HandLen::Six => HandLen::Five,
            HandLen::Seven => HandLen::Six,
            HandLen::Eight => HandLen::Seven,
            HandLen::Nine => HandLen::Eight,
            HandLen::Ten => HandLen::Nine,
            HandLen::Eleven => HandLen::Ten,
            HandLen::Twelve => HandLen::Eleven,
            HandLen::Thirteen => HandLen::Twelve,
            HandLen::Fourteen => HandLen::Thirteen,
            HandLen::Fifteen => HandLen::Fourteen,
            HandLen::Sixteen => HandLen::Fifteen,
            HandLen::Seventeen => HandLen::Sixteen,
            HandLen::Eightteen => HandLen::Seventeen,
            HandLen::Nineteen => HandLen::Eightteen,
            HandLen::Twenty => HandLen::Nineteen,
            HandLen::TwentyOne => HandLen::Twenty,
            HandLen::TwentyTwo => HandLen::TwentyOne,
        }
    }

    /// The number of players, written in decimal.
    pub fn text(self) -> (text: &'static str)
        ensures
            text@ == decimal_text(self.value()),
    {
        match self {
            HandLen::Two => {
                proof {
                    reveal_strlit("2");
                }
                "2"
            },
            HandLen::Three => {
                proof {
                    reveal_strlit("3");
                }
                "3"
            },
            HandLen::Four => {
                proof {
                    reveal_strlit("4");
                }
                "4"
            },
            HandLen::Five => {
                proof {
                    reveal_strlit("5");
                }
                "5"
            },
            HandLen::Six => {
                proof {
                    reveal_strlit("6");
                }
                "6"
            },
            HandLen::Seven => {
                proof {
                    reveal_strlit("7");
                }
                "7"
            },
            HandLen::Eight => {
                proof {
                    reveal_strlit("8");
                }
                "8"
            },
            HandLen::Nine => {
                proof {
                    reveal_strlit("9");
                }
                "9"
            },
            HandLen::Ten => {
                proof {
                    reveal_strlit("10");
                }
                "10"
            },
            HandLen::Eleven => {
                proof {
                    reveal_strlit("11");
                }
                "11"
            },
            HandLen::Twelve => {
                proof {
                    reveal_strlit("12");
                }
                "12"
            },
            HandLen::Thirteen => {
                proof {
                    reveal_strlit("13");
                }
                "13"
            },
            HandLen::Fourteen => {
                proof {
                    reveal_strlit("14");
                }
                "14"
            },
            HandLen::Fifteen => {
                proof {
                    reveal_strlit("15");
                }
                "15"
            },
            HandLen::Sixteen => {
                proof {
                    reveal_strlit("16");
                }
                "16"
            },
            HandLen::Seventeen => {
                proof {
                    reveal_strlit("17");
                }
                "17"
            },
            HandLen::Eightteen => {
                proof {
                    reveal_strlit("18");
                }
                "18"
            },
            HandLen::Nineteen => {
                proof {
                    reveal_strlit("19");
                }
                "19"
            },
            HandLen::Twenty => {
                proof {
                    reveal_strlit("20");
                }
                "20"
            },
            HandLen::TwentyOne => {
                proof {
                    reveal_strlit("21");
                }
                "21"
            },
            HandLen::TwentyTwo => {
                proof {
                    reveal_strlit("22");
                }
                "22"
            },
        }
    }

    pub fn u8(self) -> (n: u8)
        ensures
            n == self.value(),
    {
        match self {
            HandLen::Two => 2,
            HandLen::Three => 3,
            HandLen::Four => 4,
            HandLen::Five => 5,
            HandLen::Six => 6,
            HandLen::Seven => 7,
            HandLen::Eight => 8,
            HandLen::Nine => 9,
            HandLen::Ten => 10,
            HandLen::Eleven => 11,
            HandLen::Twelve => 12,
            HandLen::Thirteen => 13,
            HandLen::Fourteen => 14,
            HandLen::Fifteen => 15,
            HandLen::Sixteen => 16,
            HandLen::Seventeen => 17,
            HandLen::Eightteen => 18,
            HandLen::Nineteen => 19,
            HandLen::Twenty => 20,
            HandLen::TwentyOne => 21,
            HandLen::TwentyTwo => 22,
        }
    }

    pub fn amount(self) -> (n: u8)
        ensures
            n == self.value(),
    {
        self.u8()
    }

    pub fn usize(self) -> (n: usize)
        ensures
            n == self.value(),
    {
        self.u8() as usize
    }

    /// The count for `byte` players, if there is one.
    pub fn from_u8(byte: u8) -> (count: Result<HandLen, ()>)
        ensures
            2 <= byte <= 22 ==> count == Ok::<HandLen, ()>(HandLen::of_value(byte)),
            !(2 <= byte <= 22) ==> count == Err::<HandLen, ()>(()),
    {
        match byte {
            2 => Ok(HandLen::Two),
            3 => Ok(HandLen::Three),
            4 => Ok(HandLen::Four),
            5 => Ok(HandLen::Five),
            6 => Ok(HandLen::Six),
            7 => Ok(HandLen::Seven),
            8 => Ok(HandLen::Eight),
            9 => Ok(HandLen::Nine),
            10 => Ok(HandLen::Ten),
            11 => Ok(HandLen::Eleven),
            12 => Ok(HandLen::Twelve),
            13 => Ok(HandLen::Thirteen),
            14 => Ok(HandLen::Fourteen),
            15 => Ok(HandLen::Fifteen),
            16 => Ok(HandLen::Sixteen),
            17 => Ok(HandLen::Seventeen),
            18 => Ok(HandLen::Eightteen),
            19 => Ok(HandLen::Nineteen),
            20 => Ok(HandLen::Twenty),
            21 => Ok(HandLen::TwentyOne),
            22 => Ok(HandLen::TwentyTwo),
            _ => Err(()),
        }
    }

}


impl TryFrom<u8> for HandLen {
    type Error = ();

    fn try_from(byte: u8) -> (count: Result<HandLen, ()>) {
        HandLen::from_u8(byte)
    }
}

impl vstd::std_specs::convert::TryFromSpecImpl<u8> for HandLen {
    open spec fn obeys_try_from_spec() -> bool {
        true
    }

    open spec fn try_from_spec(byte: u8) -> Result<HandLen, ()> {
        if 2 <= byte <= 22 {
            Ok(HandLen::of_value(byte))
        } else {
            Err(())
        }
    }
}

/// The hands dealt in a round.
#[derive(Clone, Debug)]
pub struct Hands {
    hands: [Hand; 22],
    len: HandLen,
}

impl Hands {
    /// Every hand slot, dealt or not.
    pub closed spec fn slots(&self) -> Seq<Hand> {
        self.hands@
    }

    /// How many hands are dealt.
    pub closed spec fn count(&self) -> HandLen {
        self.len
    }

    pub broadcast proof fn lemma_slots_len(hands: &Hands)
        ensures
            #[trigger] hands.slots().len() == 22,
    {
    }

    /// Two empty hands.
    pub fn new() -> (hands: Hands)
        ensures
            hands.count() == HandLen::Two,
            forall|i: int| 0 <= i < 22 ==> #[trigger] hands.slots()[i] == [0u8, 0u8],
    {
        Hands { hands: [[0, 0]; 22], len: HandLen::Two }
    }

    /// The dealt hands, in order.
    pub fn iter(&self) -> (hands: Vec<Hand>)
        ensures
            hands@ == self.slots().take(self.count().value() as int),
    {
        let n = self.len.usize();
        let mut out: Vec<Hand> = Vec::new();
        let mut i: usize = 0;
        while i < n
            invariant
                n == self.count().value(),
                n <= 22,
                i <= n,
                out@ == self.slots().take(i as int),
            decreases n - i,
        {
            out.push(self.hands[i]);
            i += 1;
            assert(out@ =~= self.slots().take(i as int));
        }
        out
    }

    pub fn len(&self) -> (len: HandLen)
        ensures
            len == self.count(),
    {
        self.len
    }

    /// The hand in slot `index`, if there is such a slot.
    pub fn get(&self, index: HandIndex) -> (hand: Option<&Hand>)
        ensures
            index < 22 ==> hand == Some(&self.slots()[index as int]),
            index >= 22 ==> hand is None,
    {
        if index < 22 {
            Some(&self.hands[index as usize])
        } else {
            None
        }
    }
}

/// Deals two cards to each of `player_count` players from a fresh deck, the
/// first two cards to the first player and so on: the part of a deal that
/// does not depend on chance.
pub fn deal_from_deck(deck: Deck, player_count: HandLen) -> (dealt: (Hands, Deck))
    requires
        deck.drawn() == 0,
    ensures
        dealt.0.count() == player_count,
        forall|i: int|
            0 <= i < player_count.value() ==> #[trigger] dealt.0.slots()[i] == [
                deck.cards()[2 * i],
                deck.cards()[2 * i + 1],
            ],
        forall|i: int| player_count.value() <= i < 22 ==> #[trigger] dealt.0.slots()[i] == [0u8, 0u8],
        dealt.1.cards() == deck.cards(),
        dealt.1.drawn() == 2 * player_count.value(),
{
    let ghost orig = deck.cards();
    let mut deck = deck;
    let mut hands = Hands::new();
    let count = player_count.usize();
    let mut i: usize = 0;
    while i < count
        invariant
            count == player_count.value(),
            count <= 22,
            i <= count,
            deck.cards() == orig,
            deck.cards().len() == 52,
            deck.drawn() == 2 * i,
            forall|j: int|
                0 <= j < i ==> #[trigger] hands.slots()[j] == [deck.cards()[2 * j], deck.cards()[2 * j + 1]],
            forall|j: int| i <= j < 22 ==> #[trigger] hands.slots()[j] == [0u8, 0u8],
        decreases count - i,
    {
        let ghost before = hands.slots();
        let card1 = deck.draw();
        let card2 = deck.draw();
        assert(card1 is Some && card2 is Some);
        match (card1, card2) {
            (Some(card1), Some(card2)) => {
                hands.hands[i] = [card1, card2];
                assert(hands.slots()[i as int] == [deck.cards()[2 * i], deck.cards()[2 * i + 1]]);
                assert(hands.slots() == before.update(i as int, [card1, card2]));
            },
            _ => {},
        }
        i += 1;
    }
    let ghost dealt_slots = hands.slots();
    hands.len = player_count;
    assert(hands.slots() == dealt_slots);
    assert(forall|j: int| 0 <= j < player_count.value() ==> #[trigger] hands.slots()[j] == [orig[2 * j], orig[2 * j + 1]]);
    (hands, deck)
}

pub type Flop = [DeckCard; 3];

/// The cards in the middle of the table.
#[derive(Clone, Copy)]
pub enum CommunityCards {
    Flop(Flop),
    Turn(Flop, DeckCard),
    River(Flop, DeckCard, DeckCard),
}

/// The five cards of a full board.
pub type FullBoard = [DeckCard; 5];

impl Default for CommunityCards {
    /// A flop of three zero cards.
    fn default() -> (cards: CommunityCards)
        ensures
            cards == CommunityCards::Flop([0, 0, 0]),
    {
        CommunityCards::Flop([0, 0, 0])
    }
}

impl Default for Action {
    fn default() -> (action: Action)
        ensures
            action == Action::Fold,
    {
        Action::Fold
    }
}

impl CommunityCards {
    /// The cards on the table, in the order they were dealt.
    pub open spec fn cards(self) -> Seq<DeckCard> {
        match self {
            CommunityCards::Flop(f) => seq![f[0], f[1], f[2]],
            CommunityCards::Turn(f, t) => seq![f[0], f[1], f[2], t],
            CommunityCards::River(f, t, r) => seq![f[0], f[1], f[2], t, r],
        }
    }

    pub fn contains(&self, card: DeckCard) -> (found: bool)
        ensures
            found == self.cards().contains(card),
    {
        let found = match *self {
            CommunityCards::Flop(f) => f[0] == card || f[1] == card || f[2] == card,
            CommunityCards::Turn(f, c4) => f[0] == card || f[1] == card || f[2] == card || c4
                == card,
            CommunityCards::River(f, c4, c5) => f[0] == card || f[1] == card || f[2] == card || c4
                == card || c5 == card,
        };
        proof {
            let cs = self.cards();
            if found {
                assert(exists|i: int| 0 <= i < cs.len() && cs[i] == card);
            }
        }
        found
    }

    /// The river made of a full board: flop, turn, river in that order.
    pub fn from_full_board(full_board: FullBoard) -> (cards: CommunityCards)
        ensures
            cards == CommunityCards::River(
                [full_board[0], full_board[1], full_board[2]],
                full_board[3],
                full_board[4],
            ),
    {
        CommunityCards::River(
            [full_board[0], full_board[1], full_board[2]],
            full_board[3],
            full_board[4],
        )
    }
}

impl From<FullBoard> for CommunityCards {
    fn from(full_board: FullBoard) -> (cards: CommunityCards) {
        CommunityCards::from_full_board(full_board)
    }
}

impl vstd::std_specs::convert::FromSpecImpl<FullBoard> for CommunityCards {
    open spec fn obeys_from_spec() -> bool {
        true
    }

    open spec fn from_spec(full_board: FullBoard) -> CommunityCards {
        CommunityCards::River(
            [full_board[0], full_board[1], full_board[2]],
            full_board[3],
            full_board[4],
        )
    }
}

/// How many cards have been drawn after `n` more draws from a deck where
/// `drawn` had been drawn: a deck stops at its last card.
pub open spec fn drawn_after(drawn: nat, n: nat) -> nat {
    if drawn >= 52 {
        drawn
    } else if drawn + n <= 52 {
        drawn + n
    } else {
        52
    }
}

/// Burns a card and deals the flop from the next three, if there are enough.
pub fn deal_community_cards(deck: &mut Deck) -> (flop: Option<CommunityCards>)
    ensures
        final(deck).cards() == old(deck).cards(),
        final(deck).drawn() == drawn_after(old(deck).drawn(), 4),
        old(deck).drawn() + 4 <= 52 ==> flop == Some(
            CommunityCards::Flop(
                [
                    old(deck).cards()[old(deck).drawn() + 1 as int],
                    old(deck).cards()[old(deck).drawn() + 2 as int],
                    old(deck).cards()[old(deck).drawn() + 3 as int],
                ],
            ),
        ),
        old(deck).drawn() + 4 > 52 ==> flop is None,
{
    deck.burn();
    let card1 = deck.draw();
    let card2 = deck.draw();
    let card3 = deck.draw();
    match (card1, card2, card3) {
        (Some(card1), Some(card2), Some(card3)) => Some(CommunityCards::Flop([card1, card2, card3])),
        _ => None,
    }
}

/// Burns a card and deals the turn after the flop, or the river after the
/// turn. A river stays as it is, and so does the table where the deck runs out.
pub fn deal_to_community_cards(deck: &mut Deck, community_cards: &mut CommunityCards)
    ensures
        final(deck).cards() == old(deck).cards(),
        ({
            let d = old(deck).drawn();
            let c = old(deck).cards();
            match *old(community_cards) {
                CommunityCards::Flop(f) => final(deck).drawn() == drawn_after(d, 2) && if d + 2
                    <= 52 {
                    *final(community_cards) == CommunityCards::Turn(f, c[d + 1 as int])
                } else {
                    *final(community_cards) == *old(community_cards)
                },
                CommunityCards::Turn(f, t) => final(deck).drawn() == drawn_after(d, 2) && if d + 2
                    <= 52 {
                    *final(community_cards) == CommunityCards::River(f, t, c[d + 1 as int])
                } else {
                    *final(community_cards) == *old(community_cards)
                },
                CommunityCards::River(..) => final(deck).drawn() == d && *final(community_cards)
                    == *old(community_cards),
            }
        }),
{
    match *community_cards {
        CommunityCards::Flop(flop) => {
            deck.burn();
            if let Some(turn) = deck.draw() {
                *community_cards = CommunityCards::Turn(flop, turn);
            }
        },
        CommunityCards::Turn(flop, turn) => {
            deck.burn();
            if let Some(river) = deck.draw() {
                *community_cards = CommunityCards::River(flop, turn, river);
            }
        },
        CommunityCards::River(..) => {},
    }
}

/// How many of `0..n` satisfy `f`.
pub open spec fn count_where(f: spec_fn(int) -> bool, n: nat) -> nat
    decreases n,
{
    if n == 0 {
        0
    } else {
        count_where(f, (n - 1) as nat) + if f(n - 1) {
            1nat
        } else {
            0nat
        }
    }
}

proof fn lemma_player_bits_count(set: PerPlayerBitset, f: spec_fn(int) -> bool, n: nat)
    requires
        forall|i: int| #[trigger] set.has(i) <==> (0 <= i < 22 && f(i)),
        n <= 32,
    ensures
        player_bits_below(set.0, n) == count_where(f, if n <= 22 { n } else { 22 }),
    decreases n,
{
    if n > 0 {
        lemma_player_bits_count(set, f, (n - 1) as nat);
        assert(set.has(n - 1) == player_bit(set.0, (n - 1) as u32));
    }
}

/// A set that holds exactly the players below `MAX_PLAYERS` that satisfy `f`
/// counts as many players as satisfy `f`.
pub proof fn lemma_bitset_count(set: PerPlayerBitset, f: spec_fn(int) -> bool)
    requires
        forall|i: int| #[trigger] set.has(i) <==> (0 <= i < 22 && f(i)),
    ensures
        set.count() == count_where(f, 22),
{
    lemma_player_bits_count(set, f, 32);
}


/// Goes through the players of a set, in increasing order.
#[derive(Clone, Copy, Debug)]
pub struct PerPlayerBitsetIter {
    set: PerPlayerBitset,
    index: HandIndex,
}

impl PerPlayerBitsetIter {
    /// The set gone through.
    pub closed spec fn set(&self) -> PerPlayerBitset {
        self.set
    }

    /// The first player not yet looked at.
    pub closed spec fn position(&self) -> nat {
        self.index as nat
    }

    /// Starts at the lowest player of `set`.
    pub fn new(set: PerPlayerBitset) -> (iter: PerPlayerBitsetIter)
        ensures
            iter.set() == set,
            iter.position() == 0,
    {
        PerPlayerBitsetIter { set, index: 0 }
    }

    /// The next player of the set, if any is left among the possible players.
    pub fn next(&mut self) -> (player: Option<HandIndex>)
        ensures
            final(self).set() == old(self).set(),
            (match player {
                Some(p) => {
                    &&& old(self).position() <= p < MAX_PLAYERS
                    &&& old(self).set().has(p as int)
                    &&& forall|d: int| old(self).position() <= d < p ==> !old(self).set().has(d)
                    &&& final(self).position() == p + 1
                },
                None => {
                    &&& forall|d: int|
                        old(self).position() <= d < MAX_PLAYERS ==> !old(self).set().has(d)
                    &&& final(self).position() == if old(self).position() < MAX_PLAYERS {
                        MAX_PLAYERS as nat
                    } else {
                        old(self).position()
                    }
                },
            }),
    {
        let ghost start = self.index;
        while self.index < MAX_PLAYERS
            invariant
                self.set == old(self).set,
                start == old(self).index,
                start <= self.index,
                self.index <= MAX_PLAYERS || self.index == start,
                forall|d: int| start <= d < self.index ==> !self.set.has(d),
            decreases MAX_PLAYERS - self.index,
        {
            let bits = self.set.0;
            let i = self.index as u32;
            if (bits >> i) & 1 == 1 {
                let output = self.index;
                self.index += 1;
                return Some(output);
            }
            self.index += 1;
        }
        None
    }
}

} // verus!
