//! The pot of a betting round: who bet what, who folded, and who gets it.
use vstd::prelude::*;

use crate::holdem::{
    HandIndex, HandLen, PerPlayerBitset, PlayerIndex, MAX_PLAYERS, count_where,
    lemma_bitset_count,
};
use crate::money::{
    Money, MoneyInner, MoneyMove, NonZeroMoneyInner, min_inner, sat_add, sat_sub,
};

verus! {

broadcast use vstd::array::group_array_axioms;

/// One action of a player, as the pot records it.
#[derive(Debug, PartialEq, Eq, Structural)]
pub enum PotAction {
    Fold,
    Bet(Money),
}

/// Whether a player's actions include a fold.
pub open spec fn has_fold(actions: Seq<PotAction>) -> bool {
    exists|k: int| 0 <= k < actions.len() && (#[trigger] actions[k]) is Fold
}

/// Whether action `j` is a bet that comes before any fold.
pub open spec fn live_bet(actions: Seq<PotAction>, j: int) -> bool {
    &&& 0 <= j < actions.len()
    &&& actions[j] is Bet
    &&& !has_fold(actions.take(j))
}

/// What a player has put into the pot: the sum of their bets up to their first
/// fold, saturating at the largest amount.
pub open spec fn bet_total(actions: Seq<PotAction>) -> MoneyInner
    decreases actions.len(),
{
    if actions.len() == 0 {
        0
    } else {
        let before = actions.drop_last();
        if has_fold(before) || actions.last() is Fold {
            bet_total(before)
        } else {
            sat_add(bet_total(before), actions.last()->Bet_0@)
        }
    }
}

/// The same sum as `bet_total`, without saturation.
pub open spec fn raw_bet_total(actions: Seq<PotAction>) -> int
    decreases actions.len(),
{
    if actions.len() == 0 {
        0
    } else {
        let before = actions.drop_last();
        if has_fold(before) || actions.last() is Fold {
            raw_bet_total(before)
        } else {
            raw_bet_total(before) + actions.last()->Bet_0@
        }
    }
}

/// The largest of the first `n` amounts (zero for none).
pub open spec fn max_of(amounts: Seq<MoneyInner>, n: nat) -> MoneyInner
    decreases n,
{
    if n == 0 {
        0
    } else {
        let m = max_of(amounts, (n - 1) as nat);
        if amounts[n - 1] > m {
            amounts[n - 1]
        } else {
            m
        }
    }
}

/// The sum of the first `n` amounts, without saturation.
pub open spec fn sum_of(amounts: Seq<MoneyInner>, n: nat) -> int
    decreases n,
{
    if n == 0 {
        0
    } else {
        sum_of(amounts, (n - 1) as nat) + amounts[n - 1]
    }
}

/// The amounts of a row of moneys.
pub open spec fn money_amounts(moneys: Seq<Money>) -> Seq<MoneyInner> {
    moneys.map_values(|m: Money| m@)
}

/// How a betting round stands.
#[derive(Copy, Clone, Debug, PartialEq, Eq, Structural)]
pub enum RoundOutcome {
    Undetermined,
    AdvanceToNext,
    /// Everyone but one player has folded.
    AwardNow(HandIndex),
}

/// The pot of a round: every player's actions, in order.
#[derive(Debug)]
pub struct Pot {
    actions: Vec<Vec<PotAction>>,
    player_count: HandLen,
    has_gone_this_round: PerPlayerBitset,
}

impl Pot {
    /// The pot keeps one row of actions per possible player.
    pub closed spec fn wf(&self) -> bool {
        self.actions@.len() == 22
    }

    /// The actions of player `i`, in order.
    pub closed spec fn actions_of(&self, i: int) -> Seq<PotAction> {
        self.actions@[i]@
    }

    pub closed spec fn players(&self) -> HandLen {
        self.player_count
    }

    /// The players that have acted this round.
    pub closed spec fn gone(&self) -> PerPlayerBitset {
        self.has_gone_this_round
    }

    /// What each player has put in.
    pub open spec fn amounts_spec(&self) -> Seq<MoneyInner> {
        Seq::new(22, |i: int| bet_total(self.actions_of(i)))
    }

    /// A pot for `player_count` players with no actions yet.
    pub fn with_capacity(player_count: HandLen, capacity: usize) -> (pot: Pot)
        ensures
            pot.wf(),
            pot.players() == player_count,
            forall|i: int| 0 <= i < 22 ==> #[trigger] pot.actions_of(i) == Seq::<PotAction>::empty(),
            forall|i: int| !#[trigger] pot.gone().has(i),
    {
        let mut actions: Vec<Vec<PotAction>> = Vec::new();
        let mut i: usize = 0;
        while i < 22
            invariant
                i <= 22,
                actions@.len() == i,
                forall|j: int| 0 <= j < i ==> #[trigger] actions@[j]@ == Seq::<PotAction>::empty(),
            decreases 22 - i,
        {
            actions.push(Vec::with_capacity(capacity));
            i += 1;
        }
        Pot { actions, player_count, has_gone_this_round: PerPlayerBitset::new() }
    }

    /// Records `bet` as the next action of player `index`.
    pub fn push_bet(&mut self, index: HandIndex, bet: PotAction)
        requires
            old(self).wf(),
            index < MAX_PLAYERS,
        ensures
            final(self).wf(),
            final(self).players() == old(self).players(),
            final(self).actions_of(index as int) == old(self).actions_of(index as int).push(bet),
            forall|i: int|
                0 <= i < 22 && i != index ==> #[trigger] final(self).actions_of(i) == old(
                    self,
                ).actions_of(i),
            forall|i: int| #[trigger] final(self).gone().has(i) == (i == index || old(self).gone().has(i)),
    {
        self.has_gone_this_round.set(index);
        self.actions[index as usize].push(bet);
    }

    /// Starts a new round: nobody has acted in it yet.
    pub fn reset_for_new_round(&mut self)
        ensures
            final(self).wf() == old(self).wf(),
            final(self).players() == old(self).players(),
            forall|i: int| #[trigger] final(self).actions_of(i) == old(self).actions_of(i),
            forall|i: int| !#[trigger] final(self).gone().has(i),
    {
        self.has_gone_this_round = PerPlayerBitset::new();
    }

    /// Whether player `index` has folded.
    pub fn has_folded(&self, index: HandIndex) -> (folded: bool)
        requires
            self.wf(),
            index < MAX_PLAYERS,
        ensures
            folded == has_fold(self.actions_of(index as int)),
    {
        self.has_folded_i(index as usize)
    }

    fn has_folded_i(&self, index: usize) -> (folded: bool)
        requires
            self.wf(),
            index < 22,
        ensures
            folded == has_fold(self.actions_of(index as int)),
    {
        let row = &self.actions[index];
        let mut k: usize = 0;
        while k < row.len()
            invariant
                row@ == self.actions_of(index as int),
                k <= row@.len(),
                forall|j: int| 0 <= j < k ==> !(#[trigger] row@[j] is Fold),
            decreases row@.len() - k,
        {
            match &row[k] {
                PotAction::Fold => {
                    return true;
                },
                PotAction::Bet(_) => {},
            }
            k += 1;
        }
        false
    }

    /// What every player has put in.
    fn amounts(&self) -> (amounts: [MoneyInner; 22])
        requires
            self.wf(),
        ensures
            amounts@ == self.amounts_spec(),
    {
        let mut outputs: [MoneyInner; 22] = [0; 22];
        let mut i: usize = 0;
        while i < 22
            invariant
                self.wf(),
                i <= 22,
                forall|j: int| 0 <= j < i ==> #[trigger] outputs@[j] == bet_total(self.actions_of(j)),
            decreases 22 - i,
        {
            let row = &self.actions[i];
            let mut output: MoneyInner = 0;
            let mut folded = false;
            let mut k: usize = 0;
            while k < row.len()
                invariant
                    row@ == self.actions_of(i as int),
                    k <= row@.len(),
                    output == bet_total(row@.take(k as int)),
                    folded == has_fold(row@.take(k as int)),
                decreases row@.len() - k,
            {
                proof {
                    assert(row@.take(k + 1).drop_last() =~= row@.take(k as int));
                    if has_fold(row@.take(k as int)) {
                        let w = choose|w: int| 0 <= w < k && (#[trigger] row@.take(k as int)[w]) is Fold;
                        assert(row@.take(k + 1)[w] is Fold);
                    }
                    if row@[k as int] is Fold {
                        assert(row@.take(k + 1)[k as int] is Fold);
                    }
                    if has_fold(row@.take(k + 1)) {
                        let w = choose|w: int| 0 <= w < k + 1 && (#[trigger] row@.take(k + 1)[w]) is Fold;
                        if w < k {
                            assert(row@.take(k as int)[w] is Fold);
                        }
                    }
                }
                if !folded {
                    match &row[k] {
                        PotAction::Fold => {
                            folded = true;
                        },
                        PotAction::Bet(bet) => {
                            output = output.saturating_add(bet.as_inner());
                        },
                    }
                }
                k += 1;
            }
            proof {
                assert(row@.take(row@.len() as int) =~= row@);
            }
            outputs[i] = output;
            i += 1;
        }
        assert(outputs@ =~= self.amounts_spec());
        outputs
    }

    /// The total that has been bet, when it fits in an amount.
    pub fn total(&self) -> (total: MoneyInner)
        requires
            self.wf(),
            sum_of(self.amounts_spec(), 22) <= u32::MAX,
        ensures
            total == sum_of(self.amounts_spec(), 22),
    {
        let amounts = self.amounts();
        let mut total: MoneyInner = 0;
        let mut i: usize = 0;
        while i < 22
            invariant
                i <= 22,
                amounts@ == self.amounts_spec(),
                sum_of(self.amounts_spec(), 22) <= u32::MAX,
                total == sum_of(amounts@, i as nat),
            decreases 22 - i,
        {
            proof {
                lemma_sum_of_monotone(amounts@, (i + 1) as nat, 22);
            }
            total = total + amounts[i];
            i += 1;
        }
        total
    }

    /// The total that a player must have bet, including earlier bets, in order
    /// to call: the most that any player has bet.
    pub fn call_amount(&self) -> (amount: MoneyInner)
        requires
            self.wf(),
        ensures
            amount == max_of(self.amounts_spec(), 22),
    {
        let amounts = self.amounts();
        let mut max: MoneyInner = 0;
        let mut i: usize = 0;
        while i < 22
            invariant
                i <= 22,
                amounts@ == self.amounts_spec(),
                max == max_of(amounts@, i as nat),
            decreases 22 - i,
        {
            if amounts[i] > max {
                max = amounts[i];
            }
            i += 1;
        }
        max
    }

    /// What player `index` has bet.
    pub fn amount_for(&self, index: HandIndex) -> (amount: MoneyInner)
        requires
            self.wf(),
            index < MAX_PLAYERS,
        ensures
            amount == bet_total(self.actions_of(index as int)),
    {
        let amounts = self.amounts();
        amounts[index as usize]
    }
}

pub proof fn lemma_sum_of_monotone(amounts: Seq<MoneyInner>, m: nat, n: nat)
    requires
        m <= n,
        n <= amounts.len(),
    ensures
        sum_of(amounts, m) <= sum_of(amounts, n),
    decreases n,
{
    if m < n {
        lemma_sum_of_monotone(amounts, m, (n - 1) as nat);
    }
}

impl Pot {
    /// Whether player `i` still bets this round: they have money left and
    /// have not folded.
    pub open spec fn still_betting(&self, moneys: Seq<MoneyInner>, i: int) -> bool {
        moneys[i] != 0 && !has_fold(self.actions_of(i))
    }

    /// Whether player `i` can still win the pot: they have not folded, and
    /// they have either bet something or have money left.
    pub open spec fn contending(&self, moneys: Seq<MoneyInner>, i: int) -> bool {
        !(self.amounts_spec()[i] == 0 && moneys[i] == 0) && !has_fold(self.actions_of(i))
    }

    /// How many of the first `n` players are contending.
    pub open spec fn contending_count(&self, moneys: Seq<MoneyInner>, n: nat) -> nat
        decreases n,
    {
        if n == 0 {
            0
        } else {
            self.contending_count(moneys, (n - 1) as nat) + if self.contending(
                moneys,
                n - 1,
            ) {
                1nat
            } else {
                0nat
            }
        }
    }

    /// Whether the betting of this round is over: every player has had a
    /// chance to act, and everyone who still bets has matched the highest bet.
    pub open spec fn round_settled(&self, moneys: Seq<MoneyInner>) -> bool {
        &&& self.gone().count() >= self.players().value()
        &&& forall|i: int, j: int|
            0 <= i < 22 && 0 <= j < 22 && self.still_betting(moneys, i) && self.still_betting(
                moneys,
                j,
            ) ==> self.amounts_spec()[i] == self.amounts_spec()[j]
        &&& forall|i: int|
            0 <= i < 22 && self.still_betting(moneys, i) ==> self.amounts_spec()[i] >= max_of(
                self.amounts_spec(),
                22,
            )
    }

    /// A settled round is one in which every player has had a chance to act.
    pub proof fn lemma_settled_round_all_moved(&self, moneys: Seq<MoneyInner>)
        requires
            self.round_settled(moneys),
        ensures
            self.gone().count() >= self.players().value(),
    {
    }

    /// How the round stands. Once it is settled, the pot goes at once to the
    /// one contending player if everyone else has folded or dropped out, and
    /// play moves on otherwise.
    pub fn round_outcome(&self, current_money: &[Money; 22]) -> (outcome: RoundOutcome)
        requires
            self.wf(),
        ensures
            ({
                let moneys = money_amounts(current_money@);
                &&& !self.round_settled(moneys) ==> outcome == RoundOutcome::Undetermined
                &&& self.round_settled(moneys) && self.contending_count(moneys, 22) == 1
                    ==> (outcome matches RoundOutcome::AwardNow(w) && w < MAX_PLAYERS
                    && self.contending(moneys, w as int))
                &&& self.round_settled(moneys) && self.contending_count(moneys, 22) != 1
                    ==> outcome == RoundOutcome::AdvanceToNext
            }),
            outcome != RoundOutcome::Undetermined ==> self.gone().count() >= self.players().value(),
    {
        let ghost moneys = money_amounts(current_money@);
        let ghost a = self.amounts_spec();
        if self.has_gone_this_round.len() < self.player_count.amount() {
            return RoundOutcome::Undetermined;
        }
        let amounts = self.amounts();
        let mut previous_amount: Option<MoneyInner> = None;
        let mut i: usize = 0;
        while i < 22
            invariant
                self.wf(),
                i <= 22,
                moneys == money_amounts(current_money@),
                a == self.amounts_spec(),
                amounts@ == a,
                previous_amount is None ==> forall|j: int|
                    0 <= j < i ==> !#[trigger] self.still_betting(moneys, j),
                previous_amount matches Some(p) ==> (exists|j: int|
                    0 <= j < i && #[trigger] self.still_betting(moneys, j) && a[j] == p) && (
                forall|j: int| 0 <= j < i && #[trigger] self.still_betting(moneys, j) ==> a[j] == p),
            decreases 22 - i,
        {
            if current_money[i].as_inner() == 0 {
                i += 1;
                continue;
            }
            if self.has_folded_i(i) {
                i += 1;
                continue;
            }
            assert(self.still_betting(moneys, i as int));
            match previous_amount {
                Some(previous) => {
                    if previous != amounts[i] {
                        return RoundOutcome::Undetermined;
                    }
                },
                None => {
                    previous_amount = Some(amounts[i]);
                },
            }
            i += 1;
        }
        let call_amount = self.call_amount();
        let is_complete = match previous_amount {
            Some(amount) => amount >= call_amount,
            // Everyone is all in, so the round is done.
            None => true,
        };
        if !is_complete {
            return RoundOutcome::Undetermined;
        }
        let mut unfolded_count: u8 = 0;
        let mut last_unfolded_index: u8 = 0;
        let mut index: u8 = 0;
        while index < MAX_PLAYERS
            invariant
                self.wf(),
                index <= 22,
                moneys == money_amounts(current_money@),
                a == self.amounts_spec(),
                amounts@ == a,
                unfolded_count == self.contending_count(moneys, index as nat),
                unfolded_count <= index,
                unfolded_count > 0 ==> last_unfolded_index < index && self.contending(
                    moneys,
                    last_unfolded_index as int,
                ),
            decreases 22 - index,
        {
            let i = index as usize;
            if amounts[i] == 0 && current_money[i].as_inner() == 0 {
                // All in with nothing? Then they are not playing.
                index += 1;
                continue;
            }
            if !self.has_folded(index) {
                unfolded_count += 1;
                last_unfolded_index = index;
            }
            index += 1;
        }
        if unfolded_count == 1 {
            RoundOutcome::AwardNow(last_unfolded_index)
        } else {
            RoundOutcome::AdvanceToNext
        }
    }
}

/// How many of the first `n` amounts are not zero.
pub open spec fn nonzero_count(amounts: Seq<MoneyInner>, n: nat) -> nat {
    count_where(|i: int| amounts[i] > 0, n)
}

/// The lowest amount among the first `n` that an all-in player has in (a
/// player with no money left who did bet), or the largest amount where there
/// is none.
pub open spec fn all_in_level(amounts: Seq<MoneyInner>, moneys: Seq<MoneyInner>, n: nat) -> MoneyInner
    decreases n,
{
    if n == 0 {
        u32::MAX
    } else {
        let level = all_in_level(amounts, moneys, (n - 1) as nat);
        if moneys[n - 1] == 0 && amounts[n - 1] > 0 && amounts[n - 1] < level {
            amounts[n - 1]
        } else {
            level
        }
    }
}

/// What the next side pot takes from an amount.
pub open spec fn level_take(amount: MoneyInner, level: MoneyInner) -> MoneyInner {
    min_inner(amount, level)
}

/// The amounts left once the next side pot is taken out.
pub open spec fn after_side_pot(amounts: Seq<MoneyInner>, moneys: Seq<MoneyInner>) -> Seq<MoneyInner> {
    let level = all_in_level(amounts, moneys, 22);
    Seq::new(22, |i: int| (amounts[i] - level_take(amounts[i], level)) as MoneyInner)
}

/// The sum of what the next side pot takes from the first `n` amounts.
pub open spec fn side_pot_sum(amounts: Seq<MoneyInner>, level: MoneyInner, n: nat) -> int
    decreases n,
{
    if n == 0 {
        0
    } else {
        side_pot_sum(amounts, level, (n - 1) as nat) + level_take(amounts[n - 1], level)
    }
}

/// The size of the next side pot, saturating at the largest amount.
pub open spec fn side_pot_amount(amounts: Seq<MoneyInner>, moneys: Seq<MoneyInner>) -> MoneyInner {
    let total = side_pot_sum(amounts, all_in_level(amounts, moneys, 22), 22);
    if total > u32::MAX {
        u32::MAX
    } else {
        total as MoneyInner
    }
}

/// The players that put something into the next side pot.
pub open spec fn side_pot_contributors(amounts: Seq<MoneyInner>) -> Set<int> {
    Set::new(|i: int| 0 <= i < 22 && amounts[i] > 0)
}

proof fn lemma_all_in_level(amounts: Seq<MoneyInner>, moneys: Seq<MoneyInner>, n: nat)
    ensures
        all_in_level(amounts, moneys, n) == u32::MAX || exists|k: int|
            0 <= k < n && moneys[k] == 0 && amounts[k] > 0 && #[trigger] amounts[k] == all_in_level(
                amounts,
                moneys,
                n,
            ),
        forall|k: int|
            0 <= k < n && moneys[k] == 0 && amounts[k] > 0 ==> all_in_level(amounts, moneys, n)
                <= #[trigger] amounts[k],
    decreases n,
{
    if n > 0 {
        lemma_all_in_level(amounts, moneys, (n - 1) as nat);
    }
}

proof fn lemma_count_where_le(f: spec_fn(int) -> bool, g: spec_fn(int) -> bool, n: nat)
    requires
        forall|i: int| 0 <= i < n && #[trigger] f(i) ==> g(i),
    ensures
        count_where(f, n) <= count_where(g, n),
        (exists|k: int| 0 <= k < n && #[trigger] g(k) && !f(k)) ==> count_where(f, n) < count_where(g, n),
    decreases n,
{
    if n > 0 {
        lemma_count_where_le(f, g, (n - 1) as nat);
    }
}

proof fn lemma_count_where_zero(f: spec_fn(int) -> bool, n: nat)
    ensures
        count_where(f, n) == 0 <==> forall|i: int| 0 <= i < n ==> !#[trigger] f(i),
    decreases n,
{
    if n > 0 {
        lemma_count_where_zero(f, (n - 1) as nat);
    }
}

/// Taking out a side pot always empties at least one more player's amount.
pub proof fn lemma_side_pot_progress(amounts: Seq<MoneyInner>, moneys: Seq<MoneyInner>)
    requires
        amounts.len() == 22,
        nonzero_count(amounts, 22) > 0,
    ensures
        nonzero_count(after_side_pot(amounts, moneys), 22) < nonzero_count(amounts, 22),
{
    let level = all_in_level(amounts, moneys, 22);
    let next = after_side_pot(amounts, moneys);
    let f = |i: int| next[i] > 0;
    let g = |i: int| amounts[i] > 0;
    lemma_all_in_level(amounts, moneys, 22);
    lemma_count_where_zero(g, 22);
    assert forall|i: int| 0 <= i < 22 && #[trigger] f(i) implies g(i) by {}
    if level == u32::MAX {
        let k = choose|k: int| 0 <= k < 22 && #[trigger] g(k);
        assert(g(k) && !f(k));
    } else {
        let k = choose|k: int|
            0 <= k < 22 && moneys[k] == 0 && amounts[k] > 0 && #[trigger] amounts[k] == level;
        assert(g(k) && !f(k));
    }
    lemma_count_where_le(f, g, 22);
}

/// The side pots, in the order they are taken out: each takes from every
/// player with something left in up to the lowest all-in amount (or
/// everything, where nobody is all in), and records who contributed, how many
/// they are, and how much it holds. Empty side pots are left out.
pub open spec fn side_pots(amounts: Seq<MoneyInner>, moneys: Seq<MoneyInner>) -> Seq<
    (Set<int>, nat, MoneyInner),
>
    decreases nonzero_count(amounts, 22),
{
    if amounts.len() != 22 || nonzero_count(amounts, 22) == 0 {
        Seq::empty()
    } else {
        proof {
            lemma_side_pot_progress(amounts, moneys);
        }
        let rest = side_pots(after_side_pot(amounts, moneys), moneys);
        let amount = side_pot_amount(amounts, moneys);
        if amount != 0 {
            seq![(side_pot_contributors(amounts), nonzero_count(amounts, 22), amount)] + rest
        } else {
            rest
        }
    }
}

/// Whether an exec side pot is the spec side pot `spec`.
pub open spec fn side_pot_matches(pot: (PerPlayerBitset, MoneyInner), spec: (Set<int>, nat, MoneyInner)) -> bool {
    &&& forall|i: int| #[trigger] pot.0.has(i) <==> spec.0.contains(i)
    &&& pot.0.count() == spec.1
    &&& pot.1 == spec.2
}

/// The side pots with more than one contributor, by amount.
pub open spec fn shared_pots(pots: Seq<(Set<int>, nat, MoneyInner)>) -> Seq<MoneyInner>
    decreases pots.len(),
{
    if pots.len() == 0 {
        Seq::empty()
    } else {
        let rest = shared_pots(pots.drop_last());
        if pots.last().1 > 1 && pots.last().2 != 0 {
            rest.push(pots.last().2)
        } else {
            rest
        }
    }
}

impl Pot {
    /// The side pots of this pot (see `side_pots`), given each player's money.
    pub fn eligibilities(&self, current_money: &[Money; 22]) -> (pots: Vec<(PerPlayerBitset, MoneyInner)>)
        requires
            self.wf(),
        ensures
            ({
                let spec = side_pots(self.amounts_spec(), money_amounts(current_money@));
                &&& pots@.len() == spec.len()
                &&& forall|k: int| 0 <= k < spec.len() ==> side_pot_matches(#[trigger] pots@[k], spec[k])
            }),
    {
        let ghost moneys = money_amounts(current_money@);
        let ghost goal = side_pots(self.amounts_spec(), moneys);
        let mut amounts = self.amounts();
        let mut current_money_inner: [MoneyInner; 22] = [0; 22];
        let mut i: usize = 0;
        while i < 22
            invariant
                i <= 22,
                moneys == money_amounts(current_money@),
                forall|j: int| 0 <= j < i ==> #[trigger] current_money_inner@[j] == moneys[j],
            decreases 22 - i,
        {
            current_money_inner[i] = current_money[i].as_inner();
            i += 1;
        }
        let mut pots: Vec<(PerPlayerBitset, MoneyInner)> = Vec::new();
        loop
            invariant
                amounts@.len() == 22,
                moneys.len() == 22,
                    forall|j: int| 0 <= j < 22 ==> #[trigger] current_money_inner@[j] == moneys[j],
                pots@.len() + side_pots(amounts@, moneys).len() == goal.len(),
                forall|k: int| 0 <= k < pots@.len() ==> side_pot_matches(#[trigger] pots@[k], goal[k]),
                forall|k: int|
                    0 <= k < side_pots(amounts@, moneys).len() ==> goal[pots@.len() + k]
                        == #[trigger] side_pots(amounts@, moneys)[k],
            ensures
                pots@.len() == goal.len(),
                forall|k: int| 0 <= k < pots@.len() ==> side_pot_matches(#[trigger] pots@[k], goal[k]),
            decreases nonzero_count(amounts@, 22),
        {
            let ghost a = amounts@;
            let ghost rest_before = side_pots(a, moneys);
            // Are all the amounts zero?
            let mut all_zero = true;
            let mut i: usize = 0;
            while i < 22
                invariant
                    i <= 22,
                    a == amounts@,
                    all_zero == (nonzero_count(a, i as nat) == 0),
                decreases 22 - i,
            {
                if amounts[i] != 0 {
                    all_zero = false;
                }
                i += 1;
            }
            if all_zero {
                assert(side_pots(a, moneys).len() == 0);
                break;
            }
            let mut min_all_in: MoneyInner = u32::MAX;
            let mut i: usize = 0;
            while i < 22
                invariant
                    i <= 22,
                    a == amounts@,
                    moneys.len() == 22,
                    forall|j: int| 0 <= j < 22 ==> #[trigger] current_money_inner@[j] == moneys[j],
                    min_all_in == all_in_level(a, moneys, i as nat),
                decreases 22 - i,
            {
                // A player is all in when they have no money left and bet something.
                if current_money_inner[i] == 0 {
                    if amounts[i] > 0 && amounts[i] < min_all_in {
                        min_all_in = amounts[i];
                    }
                }
                i += 1;
            }
            let mut contributors = PerPlayerBitset::new();
            let mut output: MoneyInner = 0;
            let mut index: u8 = 0;
            while index < MAX_PLAYERS
                invariant
                    index <= 22,
                    amounts@.len() == 22,
                    a.len() == 22,
                    min_all_in == all_in_level(a, moneys, 22),
                    forall|j: int| index <= j < 22 ==> #[trigger] amounts@[j] == a[j],
                    forall|j: int|
                        0 <= j < index ==> #[trigger] amounts@[j] == after_side_pot(a, moneys)[j],
                    forall|j: int| #[trigger]
                        contributors.has(j) <==> (0 <= j < index && a[j] > 0),
                    output == if side_pot_sum(a, min_all_in, index as nat) > u32::MAX {
                        u32::MAX as int
                    } else {
                        side_pot_sum(a, min_all_in, index as nat)
                    },
                decreases 22 - index,
            {
                let i = index as usize;
                if amounts[i] > 0 {
                    contributors.set(index);
                    match amounts[i].checked_sub(min_all_in) {
                        Some(new_amount) => {
                            output = output.saturating_add(min_all_in);
                            amounts[i] = new_amount;
                        },
                        None => {
                            output = output.saturating_add(amounts[i]);
                            amounts[i] = 0;
                        },
                    }
                }
                index += 1;
            }
            assert(amounts@ =~= after_side_pot(a, moneys));
            proof {
                lemma_side_pot_progress(a, moneys);
                lemma_bitset_count(contributors, |j: int| a[j] > 0);
                assert(contributors.count() == nonzero_count(a, 22));
                assert forall|j: int| #[trigger] contributors.has(j) <==> side_pot_contributors(a).contains(j) by {}
                lemma_count_where_zero(|j: int| a[j] > 0, 22);
            }
            if contributors.len() > 0 && output != 0 {
                pots.push((contributors, output));
                proof {
                    assert(rest_before == seq![(side_pot_contributors(a), nonzero_count(a, 22), output)] + side_pots(amounts@, moneys));
                    assert(rest_before[0] == goal[pots@.len() - 1]);
                    assert forall|k: int|
                        0 <= k < side_pots(amounts@, moneys).len() implies goal[pots@.len() + k]
                            == #[trigger] side_pots(amounts@, moneys)[k] by {
                        assert(rest_before[k + 1] == side_pots(amounts@, moneys)[k]);
                    }
                }
            } else {
                assert(rest_before == side_pots(amounts@, moneys));
            }
        }
        pots
    }

    /// The sizes of the side pots that more than one player contributed to.
    pub fn individual_pots(&self, current_money: &[Money; 22]) -> (pots: Vec<MoneyInner>)
        requires
            self.wf(),
        ensures
            pots@ == shared_pots(side_pots(self.amounts_spec(), money_amounts(current_money@))),
    {
        let all = self.eligibilities(current_money);
        let ghost spec = side_pots(self.amounts_spec(), money_amounts(current_money@));
        let mut pots: Vec<MoneyInner> = Vec::new();
        let mut k: usize = 0;
        while k < all.len()
            invariant
                k <= all@.len(),
                all@.len() == spec.len(),
                forall|j: int| 0 <= j < spec.len() ==> side_pot_matches(#[trigger] all@[j], spec[j]),
                pots@ == shared_pots(spec.take(k as int)),
            decreases all@.len() - k,
        {
            let (contributors, money) = &all[k];
            proof {
                assert(spec.take(k + 1).drop_last() =~= spec.take(k as int));
                assert(side_pot_matches(all@[k as int], spec[k as int]));
            }
            // Side pots with a single player in them are trivial, and left out.
            if contributors.len() > 1 && *money != 0 {
                pots.push(*money);
            }
            k += 1;
        }
        assert(spec.take(spec.len() as int) =~= spec);
        pots
    }
}

/// The sum of `raw_bet_total` over the first `n` rows of actions.
pub open spec fn raw_rows_total(pot: &Pot, n: nat) -> int
    decreases n,
{
    if n == 0 {
        0
    } else {
        raw_rows_total(pot, (n - 1) as nat) + raw_bet_total(pot.actions_of(n - 1))
    }
}

/// `amount + extra`, or the largest amount where that would not fit.
pub open spec fn add_capped(amount: MoneyInner, extra: int) -> MoneyInner {
    if amount + extra > u32::MAX {
        u32::MAX
    } else {
        (amount + extra) as MoneyInner
    }
}

/// A row of actions after its bets have been emptied: every bet before the
/// first fold holds nothing, and everything else is as it was.
pub open spec fn emptied_row(before: Seq<PotAction>, after: Seq<PotAction>) -> bool {
    &&& after.len() == before.len()
    &&& forall|j: int|
        0 <= j < before.len() ==> if live_bet(before, j) {
            (#[trigger] after[j]) is Bet && after[j]->Bet_0@ == 0
        } else {
            after[j] == before[j]
        }
}

proof fn lemma_raw_bet_total_step(row: Seq<PotAction>, j: int)
    requires
        0 <= j < row.len(),
    ensures
        raw_bet_total(row.take(j + 1)) == raw_bet_total(row.take(j)) + if live_bet(row, j) {
            row[j]->Bet_0@ as int
        } else {
            0
        },
        has_fold(row.take(j + 1)) == (has_fold(row.take(j)) || row[j] is Fold),
{
    assert(row.take(j + 1).drop_last() =~= row.take(j));
    if has_fold(row.take(j)) {
        let w = choose|w: int| 0 <= w < j && (#[trigger] row.take(j)[w]) is Fold;
        assert(row.take(j + 1)[w] is Fold);
    }
    if row[j] is Fold {
        assert(row.take(j + 1)[j] is Fold);
    }
    if has_fold(row.take(j + 1)) {
        let w = choose|w: int| 0 <= w < j + 1 && (#[trigger] row.take(j + 1)[w]) is Fold;
        if w < j {
            assert(row.take(j)[w] is Fold);
        }
    }
}

/// What the moneys and the pile are after handing out `awards` in order: each
/// award gives its player its amount, or what is left in the pile if that is
/// less. Zero awards are skipped; players saturate at the largest amount.
pub open spec fn hand_out_awards(
    moneys: Seq<MoneyInner>,
    pile: MoneyInner,
    awards: Seq<(PlayerIndex, MoneyInner)>,
) -> (Seq<MoneyInner>, MoneyInner)
    decreases awards.len(),
{
    if awards.len() == 0 {
        (moneys, pile)
    } else {
        let (ms, p) = hand_out_awards(moneys, pile, awards.drop_last());
        let (i, amount) = awards.last();
        if amount == 0 {
            (ms, p)
        } else {
            (ms.update(i as int, sat_add(ms[i as int], min_inner(p, amount))), sat_sub(p, amount))
        }
    }
}

impl Pot {
    /// Moves every bet (up to each player's first fold) to `winner`, who
    /// saturates at the largest amount. The bets are left holding nothing.
    pub fn award(&mut self, winner: &mut Money)
        requires
            old(self).wf(),
        ensures
            final(self).wf(),
            final(self).players() == old(self).players(),
            final(self).gone() == old(self).gone(),
            forall|i: int| 0 <= i < 22 ==> emptied_row(old(self).actions_of(i), #[trigger] final(self).actions_of(i)),
            final(winner)@ == add_capped(old(winner)@, raw_rows_total(old(self), 22)),
    {
        let ghost start = *self;
        let ghost w0 = winner@;
        let mut i: usize = 0;
        while i < 22
            invariant
                self.wf(),
                start.wf(),
                i <= 22,
                self.players() == start.players(),
                self.gone() == start.gone(),
                forall|k: int| 0 <= k < i ==> emptied_row(start.actions_of(k), #[trigger] self.actions_of(k)),
                forall|k: int| i <= k < 22 ==> #[trigger] self.actions_of(k) == start.actions_of(k),
                winner@ == add_capped(w0, raw_rows_total(&start, i as nat)),
                raw_rows_total(&start, i as nat) >= 0,
            decreases 22 - i,
        {
            let ghost row = start.actions_of(i as int);
            let ghost wi = winner@;
            let len = self.actions[i].len();
            let mut folded = false;
            let mut j: usize = 0;
            while j < len
                invariant
                    self.wf(),
                    i < 22,
                    len == row.len(),
                    j <= len,
                    self.players() == start.players(),
                    self.gone() == start.gone(),
                    forall|k: int| 0 <= k < i ==> emptied_row(start.actions_of(k), #[trigger] self.actions_of(k)),
                    forall|k: int| i < k < 22 ==> #[trigger] self.actions_of(k) == start.actions_of(k),
                    self.actions_of(i as int).len() == len,
                    forall|m: int|
                        0 <= m < j ==> if live_bet(row, m) {
                            (#[trigger] self.actions_of(i as int)[m]) is Bet
                                && self.actions_of(i as int)[m]->Bet_0@ == 0
                        } else {
                            self.actions_of(i as int)[m] == row[m]
                        },
                    forall|m: int| j <= m < len ==> #[trigger] self.actions_of(i as int)[m] == row[m],
                    folded == has_fold(row.take(j as int)),
                    winner@ == add_capped(wi, raw_bet_total(row.take(j as int))),
                    raw_bet_total(row.take(j as int)) >= 0,
                decreases len - j,
            {
                proof {
                    lemma_raw_bet_total_step(row, j as int);
                }
                let ghost pre = *self;
                let ghost rows_before = self.actions@;
                if !folded {
                    match &mut self.actions[i][j] {
                        PotAction::Fold => {
                            folded = true;
                        },
                        PotAction::Bet(bet) => {
                            MoneyMove { from: bet, to: winner, amount: NonZeroMoneyInner::max() }.perform();
                        },
                    }
                }
                assert forall|k: int| 0 <= k < 22 && k != i implies self.actions@[k] == rows_before[k] by {}
                assert forall|k: int| i < k < 22 implies #[trigger] self.actions_of(k) == start.actions_of(k) by {
                    assert(pre.actions_of(k) == start.actions_of(k));
                    assert(self.actions@[k] == rows_before[k]);
                }
                assert forall|k: int| 0 <= k < i implies emptied_row(start.actions_of(k), #[trigger] self.actions_of(k)) by {
                    assert(emptied_row(start.actions_of(k), pre.actions_of(k)));
                    assert(self.actions@[k] == rows_before[k]);
                }
                j += 1;
            }
            proof {
                assert(row.take(len as int) =~= row);
            }
            i += 1;
        }
    }
}

impl Pot {
    /// Collects every bet into one pile (as `award` does), then hands the pile
    /// out along `awards` in order (see `hand_out_awards`). The awards must
    /// name players of the table and use up the whole pile.
    pub fn award_multiple(
        &mut self,
        moneys: &mut [Money; 22],
        awards: Vec<(PlayerIndex, MoneyInner)>,
    )
        requires
            old(self).wf(),
            forall|k: int|
                0 <= k < awards@.len() && (#[trigger] awards@[k]).1 != 0 ==> awards@[k].0 < MAX_PLAYERS,
            hand_out_awards(
                money_amounts(old(moneys)@),
                add_capped(0, raw_rows_total(old(self), 22)),
                awards@,
            ).1 == 0,
        ensures
            final(self).wf(),
            final(self).players() == old(self).players(),
            final(self).gone() == old(self).gone(),
            forall|i: int| 0 <= i < 22 ==> emptied_row(old(self).actions_of(i), #[trigger] final(self).actions_of(i)),
            money_amounts(final(moneys)@) == hand_out_awards(
                money_amounts(old(moneys)@),
                add_capped(0, raw_rows_total(old(self), 22)),
                awards@,
            ).0,
    {
        let ghost start_moneys = money_amounts(moneys@);
        // Collect all the money into one pile.
        let mut pile = Money::zero();
        self.award(&mut pile);
        let ghost pile0 = pile@;
        // Pull the amounts out of the pile.
        let mut k: usize = 0;
        while k < awards.len()
            invariant
                k <= awards@.len(),
                forall|m: int|
                    0 <= m < awards@.len() && (#[trigger] awards@[m]).1 != 0 ==> awards@[m].0 < MAX_PLAYERS,
                start_moneys.len() == 22,
                (money_amounts(moneys@), pile@) == hand_out_awards(
                    start_moneys,
                    pile0,
                    awards@.take(k as int),
                ),
            decreases awards@.len() - k,
        {
            let (i, possibly_zero_amount) = awards[k];
            proof {
                assert(awards@.take(k + 1).drop_last() =~= awards@.take(k as int));
                lemma_hand_out_len(start_moneys, pile0, awards@.take(k as int));
            }
            match NonZeroMoneyInner::new(possibly_zero_amount) {
                Some(amount) => {
                    let ghost before = money_amounts(moneys@);
                    MoneyMove { from: &mut pile, to: &mut moneys[i as usize], amount }.perform();
                    assert(money_amounts(moneys@) =~= before.update(
                        i as int,
                        money_amounts(moneys@)[i as int],
                    ));
                },
                None => {},
            }
            k += 1;
        }
        assert(awards@.take(awards@.len() as int) =~= awards@);
    }
}

proof fn lemma_hand_out_len(
    moneys: Seq<MoneyInner>,
    pile: MoneyInner,
    awards: Seq<(PlayerIndex, MoneyInner)>,
)
    requires
        forall|m: int| 0 <= m < awards.len() && (#[trigger] awards[m]).1 != 0 ==> awards[m].0 < moneys.len(),
    ensures
        hand_out_awards(moneys, pile, awards).0.len() == moneys.len(),
    decreases awards.len(),
{
    if awards.len() > 0 {
        lemma_hand_out_len(moneys, pile, awards.drop_last());
    }
}

/// The total held by a sequence of side pots.
pub open spec fn side_pots_total(pots: Seq<(Set<int>, nat, MoneyInner)>) -> int
    decreases pots.len(),
{
    if pots.len() == 0 {
        0
    } else {
        pots[0].2 + side_pots_total(pots.drop_first())
    }
}

proof fn lemma_after_side_pot_sum(amounts: Seq<MoneyInner>, moneys: Seq<MoneyInner>, n: nat)
    requires
        amounts.len() == 22,
        n <= 22,
    ensures
        sum_of(after_side_pot(amounts, moneys), n) == sum_of(amounts, n) - side_pot_sum(
            amounts,
            all_in_level(amounts, moneys, 22),
            n,
        ),
        side_pot_sum(amounts, all_in_level(amounts, moneys, 22), n) <= sum_of(amounts, n),
        side_pot_sum(amounts, all_in_level(amounts, moneys, 22), n) >= 0,
    decreases n,
{
    if n > 0 {
        lemma_after_side_pot_sum(amounts, moneys, (n - 1) as nat);
    }
}

proof fn lemma_sum_of_zero(amounts: Seq<MoneyInner>, n: nat)
    requires
        forall|i: int| 0 <= i < n ==> amounts[i] == 0,
    ensures
        sum_of(amounts, n) == 0,
    decreases n,
{
    if n > 0 {
        lemma_sum_of_zero(amounts, (n - 1) as nat);
    }
}

/// Every amount that was bet ends up in exactly one side pot: the side pots
/// together hold what was bet, whenever that fits in an amount.
pub proof fn lemma_side_pots_hold_every_bet(amounts: Seq<MoneyInner>, moneys: Seq<MoneyInner>)
    requires
        amounts.len() == 22,
        sum_of(amounts, 22) <= u32::MAX,
    ensures
        side_pots_total(side_pots(amounts, moneys)) == sum_of(amounts, 22),
    decreases nonzero_count(amounts, 22),
{
    if nonzero_count(amounts, 22) == 0 {
        let f = |i: int| amounts[i] > 0;
        lemma_count_where_zero(f, 22);
        assert forall|i: int| 0 <= i < 22 implies amounts[i] == 0 by {
            assert(!f(i));
        }
        lemma_sum_of_zero(amounts, 22);
    } else {
        let next = after_side_pot(amounts, moneys);
        lemma_side_pot_progress(amounts, moneys);
        lemma_after_side_pot_sum(amounts, moneys, 22);
        lemma_side_pots_hold_every_bet(next, moneys);
        let amount = side_pot_amount(amounts, moneys);
        let rest = side_pots(next, moneys);
        if amount != 0 {
            let head = (side_pot_contributors(amounts), nonzero_count(amounts, 22), amount);
            assert((seq![head] + rest).drop_first() =~= rest);
        }
    }
}

proof fn lemma_emptied_row_totals(before: Seq<PotAction>, after: Seq<PotAction>, n: nat)
    requires
        emptied_row(before, after),
        n <= before.len(),
    ensures
        bet_total(after.take(n as int)) == 0,
        raw_bet_total(after.take(n as int)) == 0,
        has_fold(after.take(n as int)) == has_fold(before.take(n as int)),
    decreases n,
{
    if n > 0 {
        let m = (n - 1) as int;
        lemma_emptied_row_totals(before, after, (n - 1) as nat);
        lemma_raw_bet_total_step(after, m);
        lemma_raw_bet_total_step(before, m);
        assert(after.take(n as int).drop_last() =~= after.take(m));
        if !has_fold(after.take(m)) && after[m] is Bet {
            assert(live_bet(before, m) || before[m] is Bet);
        }
    }
}

/// Once a pot has been awarded, nothing is left in it: every player's bets
/// add up to nothing.
pub proof fn lemma_awarded_pot_is_empty(before: &Pot, after: &Pot)
    requires
        forall|i: int| 0 <= i < 22 ==> emptied_row(before.actions_of(i), #[trigger] after.actions_of(i)),
    ensures
        forall|i: int| 0 <= i < 22 ==> #[trigger] after.amounts_spec()[i] == 0,
        raw_rows_total(after, 22) == 0,
{
    assert forall|i: int| 0 <= i < 22 implies #[trigger] after.amounts_spec()[i] == 0 by {
        let row = before.actions_of(i);
        lemma_emptied_row_totals(row, after.actions_of(i), row.len());
        assert(after.actions_of(i).take(row.len() as int) =~= after.actions_of(i));
    }
    lemma_raw_rows_zero(before, after, 22);
}

proof fn lemma_raw_rows_zero(before: &Pot, after: &Pot, n: nat)
    requires
        forall|i: int| 0 <= i < 22 ==> emptied_row(before.actions_of(i), #[trigger] after.actions_of(i)),
        n <= 22,
    ensures
        raw_rows_total(after, n) == 0,
    decreases n,
{
    if n > 0 {
        lemma_raw_rows_zero(before, after, (n - 1) as nat);
        let row = before.actions_of(n - 1);
        lemma_emptied_row_totals(row, after.actions_of(n - 1), row.len());
        assert(after.actions_of(n - 1).take(row.len() as int) =~= after.actions_of(n - 1));
    }
}

impl Default for Pot {
    /// A pot for two players with no actions yet.
    fn default() -> (pot: Pot)
        ensures
            pot.wf(),
            pot.players() == HandLen::Two,
            forall|i: int| 0 <= i < 22 ==> #[trigger] pot.actions_of(i) == Seq::<PotAction>::empty(),
            forall|i: int| !#[trigger] pot.gone().has(i),
    {
        Pot::with_capacity(HandLen::Two, 0)
    }
}

} // verus!
