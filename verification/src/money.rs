//! Money: amounts that move between players and pots, but are never copied.
use vstd::prelude::*;

verus! {

pub type MoneyInner = u32;

/// The smallest amount that bets and splits are made of.
pub const MIN_MONEY_UNIT: MoneyInner = 5;
/// The ante at the start of a game: `MIN_MONEY_UNIT` times itself.
pub const INITIAL_ANTE_AMOUNT: MoneyInner = 25;

/// `a + b`, or the largest amount where that would not fit.
pub open spec fn sat_add(a: MoneyInner, b: MoneyInner) -> MoneyInner {
    if a + b > u32::MAX {
        u32::MAX
    } else {
        (a + b) as MoneyInner
    }
}

/// `a - b`, or nothing where that would be negative.
pub open spec fn sat_sub(a: MoneyInner, b: MoneyInner) -> MoneyInner {
    if a >= b {
        (a - b) as MoneyInner
    } else {
        0
    }
}

pub open spec fn min_inner(a: MoneyInner, b: MoneyInner) -> MoneyInner {
    if a <= b {
        a
    } else {
        b
    }
}

/// An amount of money that is not zero.
#[derive(Clone, Copy, Debug, PartialEq, Eq, Structural)]
pub struct NonZeroMoneyInner(MoneyInner);

impl View for NonZeroMoneyInner {
    type V = MoneyInner;

    closed spec fn view(&self) -> MoneyInner {
        self.0
    }
}

impl NonZeroMoneyInner {
    #[verifier::type_invariant]
    spec fn inv(self) -> bool {
        self.0 != 0
    }

    /// The amount, if it is not zero.
    pub fn new(amount: MoneyInner) -> (out: Option<NonZeroMoneyInner>)
        ensures
            amount == 0 ==> out is None,
            amount != 0 ==> out is Some && out->0@ == amount,
    {
        if amount == 0 {
            None
        } else {
            Some(NonZeroMoneyInner(amount))
        }
    }

    pub fn get(self) -> (amount: MoneyInner)
        ensures
            amount == self@,
            amount > 0,
    {
        proof {
            use_type_invariant(self);
        }
        self.0
    }

    /// The smallest amount there is.
    pub fn min() -> (out: NonZeroMoneyInner)
        ensures
            out@ == 1,
    {
        NonZeroMoneyInner(1)
    }

    /// The largest amount there is.
    pub fn max() -> (out: NonZeroMoneyInner)
        ensures
            out@ == u32::MAX,
    {
        NonZeroMoneyInner(u32::MAX)
    }

    /// `MIN_MONEY_UNIT` as a non-zero amount.
    pub fn min_money_unit() -> (out: NonZeroMoneyInner)
        ensures
            out@ == MIN_MONEY_UNIT,
    {
        NonZeroMoneyInner(MIN_MONEY_UNIT)
    }

    /// `INITIAL_ANTE_AMOUNT` as a non-zero amount.
    pub fn initial_ante_amount() -> (out: NonZeroMoneyInner)
        ensures
            out@ == INITIAL_ANTE_AMOUNT,
    {
        NonZeroMoneyInner(INITIAL_ANTE_AMOUNT)
    }

    /// The amount plus `other`, or the largest amount where that would not fit.
    pub fn saturating_add(self, other: MoneyInner) -> (out: NonZeroMoneyInner)
        ensures
            out@ == sat_add(self@, other),
    {
        proof {
            use_type_invariant(self);
        }
        NonZeroMoneyInner(self.0.saturating_add(other))
    }
}

/// The non-zero amount `amount`; meaningful where `amount` is not zero.
pub closed spec fn non_zero(amount: MoneyInner) -> NonZeroMoneyInner {
    NonZeroMoneyInner(amount)
}

pub broadcast proof fn lemma_non_zero_view(amount: MoneyInner)
    ensures
        #[trigger] non_zero(amount)@ == amount,
{
}

pub broadcast proof fn lemma_view_non_zero(amount: NonZeroMoneyInner)
    ensures
        #[trigger] non_zero(amount@) == amount,
{
}

/// Money held by a player or a pot.
///
/// It is intentionally not `Copy`: once a game is set up, money only moves.
#[derive(Debug, PartialEq, Eq, Structural)]
pub struct Money(MoneyInner);

impl View for Money {
    type V = MoneyInner;

    closed spec fn view(&self) -> MoneyInner {
        self.0
    }
}

/// Money of `amount`.
fn money_of(amount: MoneyInner) -> (money: Money)
    ensures
        money@ == amount,
{
    Money(amount)
}

/// `<[T; N]>::map` with `money_of`: one `Money` per amount, in the same order.
#[verifier::external_body]
fn money_array_from<const N: usize>(array: [MoneyInner; N]) -> (moneys: [Money; N])
    ensures
        forall|i: int| 0 <= i < N ==> (#[trigger] moneys@[i])@ == array@[i],
{
    array.map(money_of)
}

impl Money {
    /// No money at all.
    pub fn zero() -> (m: Money)
        ensures
            m@ == 0,
    {
        Money(0)
    }

    pub fn as_inner(&self) -> (amount: MoneyInner)
        ensures
            amount == self@,
    {
        self.0
    }

    /// Brings amounts into the game as money, one for each amount.
    pub fn array_from_inner_array<const N: usize>(array: [MoneyInner; N]) -> (moneys: [Money; N])
        ensures
            forall|i: int| 0 <= i < N ==> (#[trigger] moneys@[i])@ == array@[i],
    {
        money_array_from(array)
    }

    /// Takes up to `to_take` out of this money.
    pub fn take(&mut self, to_take: MoneyInner) -> (taken: Money)
        ensures
            taken@ == min_inner(old(self)@, to_take),
            final(self)@ + taken@ == old(self)@,
    {
        let to_leave = self.0.saturating_sub(to_take);
        self.take_all_but(to_leave)
    }

    /// Takes all of this money.
    pub fn take_all(&mut self) -> (taken: Money)
        ensures
            taken@ == old(self)@,
            final(self)@ == 0,
    {
        self.take_all_but(0)
    }

    /// Takes everything but `to_leave` out of this money.
    pub fn take_all_but(&mut self, to_leave: MoneyInner) -> (taken: Money)
        ensures
            taken@ == sat_sub(old(self)@, to_leave),
            final(self)@ == min_inner(old(self)@, to_leave),
            final(self)@ + taken@ == old(self)@,
    {
        let output = Money(self.0.saturating_sub(to_leave));
        self.0 = if self.0 <= to_leave {
            self.0
        } else {
            to_leave
        };
        output
    }

    /// Adds `other` into this money. The sum saturates at the largest amount.
    fn absorb(&mut self, other: Money)
        ensures
            final(self)@ == sat_add(old(self)@, other@),
    {
        self.0 = self.0.saturating_add(other.0);
    }
}

/// A move of up to `amount` from one money to another.
pub struct MoneyMove<'from, 'to> {
    pub from: &'from mut Money,
    pub to: &'to mut Money,
    pub amount: NonZeroMoneyInner,
}

impl<'from, 'to> MoneyMove<'from, 'to> {
    /// Moves `amount`, or all of `from` if it holds less. The receiving side
    /// saturates at the largest amount.
    pub fn perform(self)
        ensures
            final(self.from)@ == sat_sub(old(self.from)@, self.amount@),
            final(self.to)@ == sat_add(
                old(self.to)@,
                min_inner(old(self.from)@, self.amount@),
            ),
    {
        let amount = self.amount.get();
        let taken = self.from.take(amount);
        self.to.absorb(taken);
    }
}

/// Money that is never zero.
#[derive(Debug, PartialEq, Eq, Structural)]
pub struct NonZeroMoney(NonZeroMoneyInner);

impl View for NonZeroMoney {
    type V = MoneyInner;

    closed spec fn view(&self) -> MoneyInner {
        self.0@
    }
}

/// Where the deal of units moves after position `pos`, among `len` targets.
pub open spec fn next_position(pos: nat, len: nat) -> nat {
    if pos + 1 >= len {
        0
    } else {
        pos + 1
    }
}

/// The target that receives unit number `k` (counting from zero).
pub open spec fn position_of_unit(start: nat, len: nat, k: nat) -> nat
    decreases k,
{
    if k == 0 {
        start
    } else {
        next_position(position_of_unit(start, len, (k - 1) as nat), len)
    }
}

/// How many of the first `k` units go to target `t`.
pub open spec fn units_to(start: nat, len: nat, k: nat, t: nat) -> nat
    decreases k,
{
    if k == 0 {
        0
    } else {
        units_to(start, len, (k - 1) as nat, t) + if position_of_unit(
            start,
            len,
            (k - 1) as nat,
        ) == t {
            1nat
        } else {
            0nat
        }
    }
}

/// The target that receives the first unit.
pub open spec fn split_start(len: nat, remainder_goes_to: nat) -> nat {
    if remainder_goes_to >= len {
        0
    } else {
        remainder_goes_to
    }
}

/// How many units of `MIN_MONEY_UNIT` it takes to cover `remaining`.
pub open spec fn split_units(remaining: MoneyInner) -> nat {
    ((remaining + 4) / 5) as nat
}

/// What `split_among` adds to target `t` before saturation.
pub open spec fn split_share(remaining: MoneyInner, len: nat, remainder_goes_to: nat, t: nat) -> nat {
    (MIN_MONEY_UNIT * units_to(
        split_start(len, remainder_goes_to),
        len,
        split_units(remaining),
        t,
    )) as nat
}

pub proof fn lemma_position_in_range(start: nat, len: nat, k: nat)
    requires
        start < len,
    ensures
        position_of_unit(start, len, k) < len,
    decreases k,
{
    if k > 0 {
        lemma_position_in_range(start, len, (k - 1) as nat);
    }
}

/// Deals `remaining` out to `targets` in units of `MIN_MONEY_UNIT`, one unit per
/// target in turn, starting at `remainder_goes_to` (or at the first target where
/// that is past the end). A last partial unit is dealt as a whole unit. Targets
/// saturate at the largest amount. An empty slice is left as it is.
pub fn split_among(remaining: MoneyInner, targets: &mut [MoneyInner], remainder_goes_to: usize)
    ensures
        final(targets)@.len() == old(targets)@.len(),
        forall|t: int|
            0 <= t < old(targets)@.len() ==> #[trigger] final(targets)@[t] == if old(targets)@[t]
                + split_share(remaining, old(targets)@.len(), remainder_goes_to as nat, t as nat)
                > u32::MAX {
                u32::MAX as int
            } else {
                old(targets)@[t] + split_share(
                    remaining,
                    old(targets)@.len(),
                    remainder_goes_to as nat,
                    t as nat,
                )
            },
{
    if targets.len() == 0 {
        return ;
    }
    let len = targets.len();
    let ghost old_targets = targets@;
    let ghost start = split_start(len as nat, remainder_goes_to as nat);
    let mut i = remainder_goes_to;
    if i >= len {
        i = 0;
    }
    let mut left = remaining;
    let ghost mut k: nat = 0;
    while left > 0
        invariant
            len == targets@.len(),
            len == old_targets.len(),
            len > 0,
            start < len,
            i == position_of_unit(start, len as nat, k),
            left == if remaining >= 5 * k {
                remaining - 5 * k
            } else {
                0
            },
            5 * k < remaining + 5,
            forall|t: int|
                0 <= t < len ==> #[trigger] targets@[t] == if old_targets[t] + 5 * units_to(
                    start,
                    len as nat,
                    k,
                    t as nat,
                ) > u32::MAX {
                    u32::MAX as int
                } else {
                    old_targets[t] + 5 * units_to(start, len as nat, k, t as nat)
                },
        decreases left,
    {
        proof {
            lemma_position_in_range(start, len as nat, k);
        }
        left = left.saturating_sub(MIN_MONEY_UNIT);
        targets[i] = targets[i].saturating_add(MIN_MONEY_UNIT);
        i += 1;
        if i >= len {
            i = 0;
        }
        proof {
            k = k + 1;
        }
    }
    assert(k == split_units(remaining));
}

/// The sum of a sequence of amounts, without any saturation.
pub open spec fn amounts_sum(amounts: Seq<MoneyInner>) -> int
    decreases amounts.len(),
{
    if amounts.len() == 0 {
        0
    } else {
        amounts_sum(amounts.drop_last()) + amounts.last()
    }
}

/// Changing one amount changes the sum by the difference.
pub proof fn lemma_amounts_sum_update(amounts: Seq<MoneyInner>, i: int, value: MoneyInner)
    requires
        0 <= i < amounts.len(),
    ensures
        amounts_sum(amounts.update(i, value)) == amounts_sum(amounts) - amounts[i] + value,
    decreases amounts.len(),
{
    if i == amounts.len() - 1 {
        assert(amounts.update(i, value).drop_last() =~= amounts.drop_last());
    } else {
        lemma_amounts_sum_update(amounts.drop_last(), i, value);
        assert(amounts.update(i, value).drop_last() =~= amounts.drop_last().update(i, value));
    }
}

/// Amounts that are all nothing sum to nothing.
pub proof fn lemma_amounts_sum_zeros(amounts: Seq<MoneyInner>)
    requires
        forall|i: int| 0 <= i < amounts.len() ==> amounts[i] == 0,
    ensures
        amounts_sum(amounts) == 0,
    decreases amounts.len(),
{
    if amounts.len() > 0 {
        lemma_amounts_sum_zeros(amounts.drop_last());
    }
}

/// No amount is more than the sum of all of them.
pub proof fn lemma_amounts_sum_ge_element(amounts: Seq<MoneyInner>, i: int)
    requires
        0 <= i < amounts.len(),
    ensures
        amounts[i] <= amounts_sum(amounts),
    decreases amounts.len(),
{
    lemma_amounts_sum_nonneg(amounts.drop_last());
    if i < amounts.len() - 1 {
        lemma_amounts_sum_ge_element(amounts.drop_last(), i);
    }
}

/// The amounts that `split_among` deals to `len` empty targets.
pub open spec fn split_amounts(remaining: MoneyInner, len: nat, remainder_goes_to: nat) -> Seq<
    MoneyInner,
> {
    Seq::new(
        len,
        |t: int|
            if split_share(remaining, len, remainder_goes_to, t as nat) > u32::MAX {
                u32::MAX
            } else {
                split_share(remaining, len, remainder_goes_to, t as nat) as MoneyInner
            },
    )
}

/// What target `t` receives when `money` is handed out along `amounts` in
/// order, each target getting its amount or whatever is left.
pub open spec fn handed_out(amounts: Seq<MoneyInner>, money: MoneyInner, t: int) -> MoneyInner {
    let before = amounts_sum(amounts.take(t));
    if money >= before {
        min_inner(amounts[t], (money - before) as MoneyInner)
    } else {
        0
    }
}

impl Money {
    /// Splits this money among `targets` as `split_among` deals amounts, then
    /// moves that much to each target in turn until this money is used up.
    /// Targets saturate at the largest amount.
    pub fn split_among(&mut self, targets: &mut [Money], remainder_goes_to: usize)
        requires
            old(targets)@.len() > 0 || old(self)@ == 0,
        ensures
            final(self)@ == 0,
            final(targets)@.len() == old(targets)@.len(),
            forall|t: int|
                0 <= t < old(targets)@.len() ==> (#[trigger] final(targets)@[t])@ == sat_add(
                    old(targets)@[t]@,
                    handed_out(
                        split_amounts(
                            old(self)@,
                            old(targets)@.len(),
                            remainder_goes_to as nat,
                        ),
                        old(self)@,
                        t,
                    ),
                ),
    {
        let len = targets.len();
        let ghost total = self@;
        let ghost old_targets = targets@;
        let ghost amounts_spec = split_amounts(total, len as nat, remainder_goes_to as nat);
        let mut amounts: Vec<MoneyInner> = vec![0; len];
        split_among(self.as_inner(), amounts.as_mut_slice(), remainder_goes_to);
        assert(amounts@ =~= amounts_spec);
        let mut i: usize = 0;
        while i < len
            invariant
                0 <= i <= len,
                len == targets@.len(),
                len == old_targets.len(),
                amounts@ == amounts_spec,
                amounts_spec.len() == len,
                self@ == if total >= amounts_sum(amounts_spec.take(i as int)) {
                    total - amounts_sum(amounts_spec.take(i as int))
                } else {
                    0
                },
                forall|t: int| i <= t < len ==> #[trigger] targets@[t] == old_targets[t],
                forall|t: int|
                    0 <= t < i ==> (#[trigger] targets@[t])@ == sat_add(
                        old_targets[t]@,
                        handed_out(amounts_spec, total, t),
                    ),
            decreases len - i,
        {
            proof {
                assert(amounts_spec.take(i + 1).drop_last() =~= amounts_spec.take(i as int));
            }
            let possibly_zero_amount = amounts[i];
            match NonZeroMoneyInner::new(possibly_zero_amount) {
                Some(amount) => {
                    MoneyMove { from: self, to: &mut targets[i], amount }.perform();
                },
                None => {},
            }
            i += 1;
        }
        proof {
            assert(amounts_spec.take(len as int) =~= amounts_spec);
            if len > 0 {
                lemma_split_amounts_cover(total, len as nat, remainder_goes_to as nat);
            }
        }
    }
}

/// How many of the first `k` units go to the first `n` targets.
pub open spec fn units_to_first(start: nat, len: nat, k: nat, n: nat) -> nat
    decreases n,
{
    if n == 0 {
        0
    } else {
        units_to_first(start, len, k, (n - 1) as nat) + units_to(start, len, k, (n - 1) as nat)
    }
}

proof fn lemma_units_to_first_step(start: nat, len: nat, k: nat, n: nat)
    requires
        k > 0,
    ensures
        units_to_first(start, len, k, n) == units_to_first(start, len, (k - 1) as nat, n) + if position_of_unit(
            start,
            len,
            (k - 1) as nat,
        ) < n {
            1nat
        } else {
            0nat
        },
    decreases n,
{
    if n > 0 {
        lemma_units_to_first_step(start, len, k, (n - 1) as nat);
    }
}

/// Every unit goes to some target: all `len` targets together get `k` units.
pub proof fn lemma_units_all_dealt(start: nat, len: nat, k: nat)
    requires
        start < len,
    ensures
        units_to_first(start, len, k, len) == k,
    decreases k,
{
    if k > 0 {
        lemma_units_all_dealt(start, len, (k - 1) as nat);
        lemma_units_to_first_step(start, len, k, len);
        lemma_position_in_range(start, len, (k - 1) as nat);
    } else {
        lemma_units_to_first_zero(start, len, len);
    }
}

proof fn lemma_units_to_first_zero(start: nat, len: nat, n: nat)
    ensures
        units_to_first(start, len, 0, n) == 0,
    decreases n,
{
    if n > 0 {
        lemma_units_to_first_zero(start, len, (n - 1) as nat);
    }
}

proof fn lemma_split_amounts_prefix(remaining: MoneyInner, len: nat, remainder_goes_to: nat, n: nat)
    requires
        n <= len,
    ensures
        ({
            let units = units_to_first(
                split_start(len, remainder_goes_to),
                len,
                split_units(remaining),
                n,
            );
            amounts_sum(split_amounts(remaining, len, remainder_goes_to).take(n as int)) >= if 5
                * units > u32::MAX {
                u32::MAX as int
            } else {
                (5 * units) as int
            }
        }),
    decreases n,
{
    let a = split_amounts(remaining, len, remainder_goes_to);
    if n == 0 {
        assert(a.take(0) =~= Seq::<MoneyInner>::empty());
    } else {
        lemma_split_amounts_prefix(remaining, len, remainder_goes_to, (n - 1) as nat);
        assert(a.take(n as int).drop_last() =~= a.take(n - 1));
        lemma_amounts_sum_nonneg(a.take(n - 1));
    }
}

proof fn lemma_amounts_sum_nonneg(a: Seq<MoneyInner>)
    ensures
        amounts_sum(a) >= 0,
    decreases a.len(),
{
    if a.len() > 0 {
        lemma_amounts_sum_nonneg(a.drop_last());
    }
}

/// The amounts that `split_among` deals to a non-empty set of targets cover
/// the money that is split.
pub proof fn lemma_split_amounts_cover(remaining: MoneyInner, len: nat, remainder_goes_to: nat)
    requires
        len > 0,
    ensures
        amounts_sum(split_amounts(remaining, len, remainder_goes_to)) >= remaining,
{
    let a = split_amounts(remaining, len, remainder_goes_to);
    lemma_split_amounts_prefix(remaining, len, remainder_goes_to, len);
    lemma_units_all_dealt(split_start(len, remainder_goes_to), len, split_units(remaining));
    assert(a.take(len as int) =~= a);
}

proof fn lemma_mod_small(x: int, len: int)
    requires
        len > 0,
        0 <= x < 2 * len,
    ensures
        x < len ==> x % len == x,
        x >= len ==> x % len == x - len,
{
    if x < len {
        vstd::arithmetic::div_mod::lemma_fundamental_div_mod_converse(x, len, 0, x);
    } else {
        vstd::arithmetic::div_mod::lemma_fundamental_div_mod_converse(x, len, 1, x - len);
    }
}

proof fn lemma_mod_succ(x: int, len: int)
    requires
        len > 0,
        x >= 0,
    ensures
        x % len + 1 < len ==> (x + 1) % len == x % len + 1 && (x + 1) / len == x / len,
        x % len + 1 == len ==> (x + 1) % len == 0 && (x + 1) / len == x / len + 1,
{
    let q = x / len;
    let r = x % len;
    vstd::arithmetic::div_mod::lemma_fundamental_div_mod(x, len);
    assert(x == len * q + r);
    assert(len * q == q * len) by (nonlinear_arith);
    assert(0 <= r < len) by {
        vstd::arithmetic::div_mod::lemma_mod_bound(x, len);
    }
    if r + 1 < len {
        vstd::arithmetic::div_mod::lemma_fundamental_div_mod_converse(x + 1, len, q, r + 1);
    } else {
        assert((q + 1) * len == q * len + len) by (nonlinear_arith);
        vstd::arithmetic::div_mod::lemma_fundamental_div_mod_converse(x + 1, len, q + 1, 0);
    }
}

proof fn lemma_mod_shift(s: int, j: int, len: int)
    requires
        len > 0,
        s >= 0,
        j >= 0,
    ensures
        (s + j) % len == (s + j % len) % len,
{
    let q = j / len;
    let r = j % len;
    vstd::arithmetic::div_mod::lemma_fundamental_div_mod(j, len);
    assert(len * q == q * len) by (nonlinear_arith);
    assert(0 <= r < len) by {
        vstd::arithmetic::div_mod::lemma_mod_bound(j, len);
    }
    let y = s + r;
    let qy = y / len;
    let ry = y % len;
    vstd::arithmetic::div_mod::lemma_fundamental_div_mod(y, len);
    assert(len * qy == qy * len) by (nonlinear_arith);
    assert(0 <= ry < len) by {
        vstd::arithmetic::div_mod::lemma_mod_bound(y, len);
    }
    assert(s + j == (q + qy) * len + ry) by (nonlinear_arith)
        requires
            j == q * len + r,
            y == qy * len + ry,
            y == s + r,
    ;
    vstd::arithmetic::div_mod::lemma_fundamental_div_mod_converse(s + j, len, q + qy, ry);
}

/// Unit number `k` goes to the target `k` places after the start, going
/// round the targets.
pub proof fn lemma_position_of_unit(start: nat, len: nat, k: nat)
    requires
        start < len,
    ensures
        position_of_unit(start, len, k) == ((start + k) as int) % (len as int),
    decreases k,
{
    if k == 0 {
        lemma_mod_small(start as int, len as int);
    } else {
        lemma_position_of_unit(start, len, (k - 1) as nat);
        lemma_mod_succ(start + k - 1, len as int);
        vstd::arithmetic::div_mod::lemma_mod_bound(start + k - 1, len as int);
    }
}

/// How far target `t` comes after `start`, going round `len` targets.
pub open spec fn places_after(start: nat, len: nat, t: nat) -> int {
    ((t + len - start) as int) % (len as int)
}

/// Each target gets `k / len` units, and one more if it is among the first
/// `k % len` targets counted round from the start.
pub proof fn lemma_units_to_closed_form(start: nat, len: nat, k: nat, t: nat)
    requires
        start < len,
        t < len,
    ensures
        units_to(start, len, k, t) == (k as int) / (len as int) + if places_after(start, len, t) < (k as int) % (len as int) {
            1int
        } else {
            0int
        },
    decreases k,
{
    let l = len as int;
    if k == 0 {
        vstd::arithmetic::div_mod::lemma_mod_bound(t + len - start, l);
        lemma_mod_small(0, l);
        vstd::arithmetic::div_mod::lemma_fundamental_div_mod_converse(0, l, 0, 0);
    } else {
        let j = (k - 1) as int;
        lemma_units_to_closed_form(start, len, (k - 1) as nat, t);
        lemma_position_of_unit(start, len, (k - 1) as nat);
        lemma_mod_succ(j, l);
        lemma_mod_shift(start as int, j, l);
        vstd::arithmetic::div_mod::lemma_mod_bound(j, l);
        let r = j % l;
        lemma_mod_small(start + r, l);
        lemma_mod_small(t + len - start, l);
        // The unit goes to `t` exactly when `t` comes `r` places after the start.
        assert((position_of_unit(start, len, j as nat) == t) == (places_after(start, len, t) == r));
    }
}

/// `split_among` is as even as it can be: no target gets more than one unit
/// more than any other, and the target that the remainder goes to gets at
/// least as much as every other.
pub proof fn lemma_split_is_even(remaining: MoneyInner, len: nat, remainder_goes_to: nat, t: nat, u: nat)
    requires
        t < len,
        u < len,
    ensures
        split_share(remaining, len, remainder_goes_to, t) <= split_share(
            remaining,
            len,
            remainder_goes_to,
            u,
        ) + MIN_MONEY_UNIT,
        split_share(remaining, len, remainder_goes_to, split_start(len, remainder_goes_to))
            >= split_share(remaining, len, remainder_goes_to, t),
{
    let s = split_start(len, remainder_goes_to);
    let k = split_units(remaining);
    lemma_units_to_closed_form(s, len, k, t);
    lemma_units_to_closed_form(s, len, k, u);
    lemma_units_to_closed_form(s, len, k, s);
    lemma_mod_small(len as int, len as int);
    assert(places_after(s, len, s) == 0);
    vstd::arithmetic::div_mod::lemma_mod_bound(k as int, len as int);
}

/// Moving money never creates or destroys any, as long as the receiving side
/// does not saturate.
pub proof fn lemma_move_conserves(from: MoneyInner, to: MoneyInner, amount: MoneyInner)
    requires
        to + min_inner(from, amount) <= u32::MAX,
    ensures
        sat_sub(from, amount) + sat_add(to, min_inner(from, amount)) == from + to,
{
}

/// The sum of what the first `n` targets receive when `money` is handed out
/// along `amounts`.
pub open spec fn handed_out_sum(amounts: Seq<MoneyInner>, money: MoneyInner, n: nat) -> int
    decreases n,
{
    if n == 0 {
        0
    } else {
        handed_out_sum(amounts, money, (n - 1) as nat) + handed_out(amounts, money, n - 1)
    }
}

proof fn lemma_handed_out_prefix(amounts: Seq<MoneyInner>, money: MoneyInner, n: nat)
    requires
        n <= amounts.len(),
    ensures
        handed_out_sum(amounts, money, n) == if money <= amounts_sum(amounts.take(n as int)) {
            money as int
        } else {
            amounts_sum(amounts.take(n as int))
        },
    decreases n,
{
    if n == 0 {
        assert(amounts.take(0) =~= Seq::<MoneyInner>::empty());
    } else {
        lemma_handed_out_prefix(amounts, money, (n - 1) as nat);
        assert(amounts.take(n as int).drop_last() =~= amounts.take(n - 1));
        lemma_amounts_sum_nonneg(amounts.take(n - 1));
    }
}

/// Splitting money among targets hands out exactly that money: what the
/// targets receive adds up to what was split.
pub proof fn lemma_split_hands_out_everything(remaining: MoneyInner, len: nat, remainder_goes_to: nat)
    requires
        len > 0,
    ensures
        handed_out_sum(split_amounts(remaining, len, remainder_goes_to), remaining, len) == remaining,
{
    let a = split_amounts(remaining, len, remainder_goes_to);
    lemma_split_amounts_cover(remaining, len, remainder_goes_to);
    lemma_handed_out_prefix(a, remaining, len);
    assert(a.take(len as int) =~= a);
}

} // verus!
