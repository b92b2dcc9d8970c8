//! Wallets and the choice of unit used to show large amounts of money.
use vstd::prelude::*;

use crate::Money;

verus! {

/// Money held by an entity.
#[derive(Clone, Copy, Debug, Default, PartialEq, Eq)]
pub struct Wallet {
    pub balance: Money,
}

/// The units in which a large amount is shown, largest first.
#[derive(Clone, Copy, Debug, PartialEq, Eq, Structural)]
pub enum MoneyScale {
    Trillion,
    Billion,
    Million,
    Thousand,
    Unit,
}

impl MoneyScale {
    /// The amount one of this unit stands for (in hundredths, as money is kept).
    pub open spec fn spec_divisor(self) -> int {
        match self {
            MoneyScale::Trillion => 100_000_000_000_000,
            MoneyScale::Billion => 100_000_000_000,
            MoneyScale::Million => 100_000_000,
            MoneyScale::Thousand => 100_000,
            MoneyScale::Unit => 1,
        }
    }

    /// The amount one of this unit stands for.
    pub fn divisor(self) -> (d: i128)
        ensures
            d == self.spec_divisor(),
    {
        match self {
            MoneyScale::Trillion => 100_000_000_000_000,
            MoneyScale::Billion => 100_000_000_000,
            MoneyScale::Million => 100_000_000,
            MoneyScale::Thousand => 100_000,
            MoneyScale::Unit => 1,
        }
    }

    /// The letter written after an amount in this unit.
    pub fn suffix(self) -> (s: &'static str)
        ensures
            s@ == match self {
                MoneyScale::Trillion => "T"@,
                MoneyScale::Billion => "B"@,
                MoneyScale::Million => "M"@,
                MoneyScale::Thousand => "K"@,
                MoneyScale::Unit => ""@,
            },
    {
        match self {
            MoneyScale::Trillion => "T",
            MoneyScale::Billion => "B",
            MoneyScale::Million => "M",
            MoneyScale::Thousand => "K",
            MoneyScale::Unit => "",
        }
    }
}

/// The magnitude of an amount.
pub open spec fn abs(m: int) -> int {
    if m < 0 { -m } else { m }
}

/// The unit an amount is shown in: the largest whose size the amount's
/// magnitude exceeds; none for magnitudes of at most one, which are shown as
/// they are.
pub open spec fn spec_money_scale(m: int) -> Option<MoneyScale> {
    if abs(m) > 100_000_000_000_000 {
        Some(MoneyScale::Trillion)
    } else if abs(m) > 100_000_000_000 {
        Some(MoneyScale::Billion)
    } else if abs(m) > 100_000_000 {
        Some(MoneyScale::Million)
    } else if abs(m) > 100_000 {
        Some(MoneyScale::Thousand)
    } else if abs(m) > 1 {
        Some(MoneyScale::Unit)
    } else {
        None
    }
}

/// Picks the unit an amount is shown in (see `spec_money_scale`).
pub fn money_scale(money: i128) -> (r: Option<MoneyScale>)
    requires
        money > i128::MIN,
    ensures
        r == spec_money_scale(money as int),
{
    let magnitude: i128 = if money < 0 { -money } else { money };
    let scales = [
        MoneyScale::Trillion,
        MoneyScale::Billion,
        MoneyScale::Million,
        MoneyScale::Thousand,
        MoneyScale::Unit,
    ];
    let mut i: usize = 0;
    while i < 5
        invariant
            0 <= i <= 5,
            magnitude == abs(money as int),
            scales@ == seq![
                MoneyScale::Trillion,
                MoneyScale::Billion,
                MoneyScale::Million,
                MoneyScale::Thousand,
                MoneyScale::Unit,
            ],
            forall|j: int| 0 <= j < i ==> magnitude <= (#[trigger] scales@[j]).spec_divisor(),
        decreases 5 - i,
    {
        let scale = scales[i];
        if magnitude > scale.divisor() {
            assert(forall|j: int| 0 <= j < i ==> magnitude <= (#[trigger] scales@[j]).spec_divisor());
            return Some(scale);
        }
        i = i + 1;
    }
    assert(magnitude <= scales@[4].spec_divisor());
    None
}

/// The units are a thousand whole units (of a hundred hundredths each) and
/// then each a thousand times the one below: million, billion, trillion.
/// An amount is shown in a unit only when it is more than one of that unit
/// and at most a thousand of them (for trillions without an upper bound;
/// amounts up to a thousand whole units are shown as they are), so what is
/// shown before the letter lies between 1 and 1000; in
/// particular an amount of at most a hundred million hundredths (a million
/// whole units) is never shown in millions.
pub proof fn lemma_money_units(m: int)
    ensures
        MoneyScale::Thousand.spec_divisor() == 1000 * 100,
        MoneyScale::Million.spec_divisor() == 1000 * MoneyScale::Thousand.spec_divisor(),
        MoneyScale::Billion.spec_divisor() == 1000 * MoneyScale::Million.spec_divisor(),
        MoneyScale::Trillion.spec_divisor() == 1000 * MoneyScale::Billion.spec_divisor(),
        MoneyScale::Unit.spec_divisor() == 1,
        spec_money_scale(m) matches Some(u) ==> u.spec_divisor() < abs(m),
        spec_money_scale(m) matches Some(u) ==> (u == MoneyScale::Trillion || u == MoneyScale::Unit
            || abs(m) <= 1000 * u.spec_divisor()),
        spec_money_scale(m) == Some(MoneyScale::Unit) ==> abs(m) <= MoneyScale::Thousand.spec_divisor(),
        spec_money_scale(m) is None <==> abs(m) <= 1,
        abs(m) <= 1000 * 1000 * 100 ==> spec_money_scale(m) != Some(MoneyScale::Million),
        1000 * 100 < abs(m) <= 1000 * 1000 * 100 ==> spec_money_scale(m) == Some(MoneyScale::Thousand),
{
}

/// Whether a shown amount carries a minus sign.
pub fn money_sign(money: i128) -> (s: &'static str)
    ensures
        s@ == if money < 0 { "-"@ } else { ""@ },
{
    if money < 0 { "-" } else { "" }
}


/// Gives every wallet `amount` (the console's money gift to the players).
pub fn give_money(wallets: &mut Vec<Wallet>, amount: Money)
    requires
        forall|i: int|
            0 <= i < old(wallets)@.len() ==> i64::MIN <= #[trigger] old(wallets)@[i].balance + amount
                <= i64::MAX,
    ensures
        final(wallets)@.len() == old(wallets)@.len(),
        forall|i: int|
            0 <= i < final(wallets)@.len() ==> (#[trigger] final(wallets)@[i]).balance == old(
                wallets,
            )@[i].balance + amount,
{
    let mut i: usize = 0;
    while i < wallets.len()
        invariant
            0 <= i <= wallets@.len(),
            wallets@.len() == old(wallets)@.len(),
            forall|j: int|
                0 <= j < wallets@.len() ==> i64::MIN <= #[trigger] old(wallets)@[j].balance + amount
                    <= i64::MAX,
            forall|j: int| 0 <= j < i ==> (#[trigger] wallets@[j]).balance == old(wallets)@[j].balance + amount,
            forall|j: int| i <= j < wallets@.len() ==> #[trigger] wallets@[j] == old(wallets)@[j],
        decreases wallets@.len() - i,
    {
        let w = wallets[i];
        wallets.set(i, Wallet { balance: w.balance + amount });
        i = i + 1;
    }
}

} // verus!
