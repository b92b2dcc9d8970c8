//! The market's computer traders: how eager they are, and the orders they
//! may place once their prices are set.
use vstd::prelude::*;

use crate::money::Wallet;
use crate::rounding::{
    f32_product_scaled, f32_times_floor, float_times, lemma_f32_product_bounds, F32_HUNDREDTH,
    F32_HUNDREDTH_SCALE,
};
use crate::stock_market::sell_added;
use crate::stock_market::sell_lists_wf;
use crate::stock_market::share_count;
use crate::stock_market::BuyOrder;
use crate::stock_market::EntityId;
use crate::stock_market::NewOrder;
use crate::stock_market::OrderBook;
use crate::stock_market::SellOrder;
use crate::stock_market::SharePortfolio;
use crate::timer::RepeatingTimer;
use crate::timer::NANOS_PER_SEC;
use crate::Money;

verus! {

/// How eager a trader is to buy a company's shares, from least to most.
#[derive(Clone, Copy, Debug, PartialEq, Eq, Structural)]
pub enum BuyThreshold {
    Never,
    Low,
    Medium,
    High,
    Must,
}

impl BuyThreshold {
    /// The threshold read the other way round, as eagerness to sell.
    pub open spec fn spec_invert(self) -> BuyThreshold {
        match self {
            BuyThreshold::Never => BuyThreshold::Must,
            BuyThreshold::Low => BuyThreshold::High,
            BuyThreshold::Medium => BuyThreshold::Medium,
            BuyThreshold::High => BuyThreshold::Low,
            BuyThreshold::Must => BuyThreshold::Never,
        }
    }

    /// The threshold read the other way round (see `spec_invert`).
    pub fn invert(&self) -> (r: BuyThreshold)
        ensures
            r == self.spec_invert(),
    {
        match self {
            BuyThreshold::Never => BuyThreshold::Must,
            BuyThreshold::Low => BuyThreshold::High,
            BuyThreshold::Medium => BuyThreshold::Medium,
            BuyThreshold::High => BuyThreshold::Low,
            BuyThreshold::Must => BuyThreshold::Never,
        }
    }
}

/// Reading a threshold the other way round twice gives it back.
pub proof fn lemma_invert_twice(t: BuyThreshold)
    ensures
        t.spec_invert().spec_invert() == t,
{
}

/// Seconds between two rounds of trading by the computer traders.
pub const TRADING_INTERVAL_SECS: u64 = 5;

/// The timer that sets off each round of trading.
pub fn trading_timer() -> (t: RepeatingTimer)
    ensures
        t == RepeatingTimer::new_spec((TRADING_INTERVAL_SECS * NANOS_PER_SEC) as u64),
{
    RepeatingTimer::new(TRADING_INTERVAL_SECS * NANOS_PER_SEC)
}

/// No order of a computer trader is for more shares than this.
pub const MAX_ORDER_SIZE: u64 = 100;

/// The most shares a trader may bid for at `price` with the money it allows
/// itself: none when that money does not cover one share, else as many as
/// it covers, up to a hundred.
pub open spec fn spec_buy_limit(price: Money, money_available: Money) -> Option<u64> {
    if money_available < price {
        None
    } else if (money_available / price) < MAX_ORDER_SIZE {
        Some((money_available / price) as u64)
    } else {
        Some(MAX_ORDER_SIZE)
    }
}

/// The most shares a trader may bid for (see `spec_buy_limit`).
pub fn buy_limit(price: Money, money_available: Money) -> (r: Option<u64>)
    requires
        price >= 1,
    ensures
        r == spec_buy_limit(price, money_available),
{
    if money_available < price {
        return None;
    }
    let per: u64 = (money_available as u64) / (price as u64);
    if per < MAX_ORDER_SIZE { Some(per) } else { Some(MAX_ORDER_SIZE) }
}

/// Places a trader's bid for `quantity` shares at `price` (drawn up to the
/// trader's `buy_limit`): the cost leaves its wallet and the order goes in
/// the book. A quantity of zero places
/// nothing. Returns whether an order was placed.
pub fn place_trader_buy(
    company: EntityId,
    trader: EntityId,
    price: Money,
    quantity: u64,
    wallet: &mut Wallet,
    book: &mut OrderBook,
) -> (placed: bool)
    requires
        price >= 1,
        quantity <= MAX_ORDER_SIZE,
        quantity * price <= i64::MAX,
        i64::MIN <= old(wallet).balance - quantity * price <= i64::MAX,
    ensures
        placed == (quantity > 0),
        placed ==> final(wallet).balance == old(wallet).balance - quantity * price,
        placed ==> final(book).buy_orders@ == old(book).buy_orders@.push(
            BuyOrder::new_spec(company, quantity, price, trader),
        ),
        !placed ==> *final(wallet) == *old(wallet) && final(book).buy_orders@ == old(
            book,
        ).buy_orders@,
        final(book).sell_orders@ == old(book).sell_orders@,
{
    if quantity == 0 {
        return false;
    }
    assert(0 <= quantity * price) by (nonlinear_arith)
        requires
            0 <= quantity,
            price >= 1,
    ;
    wallet.balance = wallet.balance - (quantity as i64) * price;
    book.add(NewOrder::Buy(BuyOrder::new(company, quantity, price, trader)));
    true
}

/// The most shares a trader may offer of a company it holds `shares` of.
pub fn sell_limit(shares: u64) -> (n: u64)
    ensures
        n == if shares < MAX_ORDER_SIZE { shares } else { MAX_ORDER_SIZE },
{
    if shares < MAX_ORDER_SIZE { shares } else { MAX_ORDER_SIZE }
}

/// Places a trader's offer of `quantity` of its shares at `price`: the shares
/// leave its portfolio and the order goes in the book after every cheaper
/// order (see `sell_added`). A quantity of zero places nothing. Returns
/// whether an order was placed.
pub fn place_trader_sell(
    company: EntityId,
    trader: EntityId,
    price: Money,
    quantity: u64,
    portfolio: &mut SharePortfolio,
    book: &mut OrderBook,
) -> (placed: bool)
    requires
        quantity <= share_count(old(portfolio)@, company),
        quantity <= MAX_ORDER_SIZE,
    ensures
        placed == (quantity > 0),
        placed ==> final(portfolio)@ == old(portfolio)@.insert(
            company,
            (share_count(old(portfolio)@, company) - quantity) as u64,
        ),
        !placed ==> final(portfolio)@ == old(portfolio)@ && final(book).sell_orders@ == old(
            book,
        ).sell_orders@,
        final(book).buy_orders@ == old(book).buy_orders@,
        sell_lists_wf(old(book).sell_orders@) ==> sell_lists_wf(final(book).sell_orders@),
        placed ==> sell_added(
            old(book).sell_orders@,
            final(book).sell_orders@,
            SellOrder::new_spec(company, quantity, price, trader),
        ),
{
    if quantity == 0 {
        return false;
    }
    portfolio.remove_shares(company, quantity);
    book.add(NewOrder::Sell(SellOrder::new(company, quantity, price, trader)));
    true
}

// ---------------------------------------------------------------------------
// A round of trading
// ---------------------------------------------------------------------------

/// What a computer trader drew for one company in a round of trading.
#[derive(Clone, Copy, Debug, PartialEq, Eq)]
pub struct TradePlan {
    pub company: EntityId,
    /// Whether the trader's buy roll came under its buying probability.
    pub buy: bool,
    /// The price it bids (at least 1).
    pub buy_price: Money,
    /// Drawn for the quantity bid, taken modulo one more than the limit.
    pub buy_roll: u64,
    /// Whether the trader's sell roll reached its selling probability.
    pub sell: bool,
    /// The price it asks (at least 1).
    pub sell_price: Money,
    /// Drawn for the quantity offered, taken modulo one more than the limit.
    pub sell_roll: u64,
}

/// The money a trader allows itself for one order: a hundredth of its
/// balance, taken in 32-bit floats and rounded down.
pub open spec fn money_available(balance: int) -> int {
    f32_times_floor(balance, F32_HUNDREDTH as nat, F32_HUNDREDTH_SCALE as nat)
}

/// What a trader allows itself never exceeds its balance, and is nothing
/// when the balance is below zero.
proof fn lemma_money_available_bounds(balance: int)
    ensures
        balance >= 0 ==> 0 <= money_available(balance) <= balance,
        balance < 0 ==> money_available(balance) <= 0,
{
    if balance >= 0 {
        let x = balance as nat;
        lemma_f32_product_bounds(x, F32_HUNDREDTH as nat);
        let h = f32_product_scaled(x, F32_HUNDREDTH as nat);
        assert(h <= 42949672 * x);
        assert(h / 0x4000_0000 <= x) by {
            vstd::arithmetic::div_mod::lemma_fundamental_div_mod(h as int, 0x4000_0000);
        }
    }
}

/// The money a trader allows itself for one order (see `money_available`).
pub fn hundredth_available(balance: Money) -> (r: Money)
    ensures
        r == money_available(balance as int),
{
    float_times(balance, F32_HUNDREDTH, F32_HUNDREDTH_SCALE, false)
}

/// The bids of a round from plan `i` on, given the balance: a company gets a
/// bid when the trader wants to buy and can pay for a share at its price;
/// the quantity is the drawn roll modulo one more than the buy limit, and a
/// quantity of zero places nothing. Each bid is paid for at once. The result
/// is the balance left and the bids in order.
pub open spec fn buy_pass(balance: int, trader: EntityId, plans: Seq<TradePlan>, i: int) -> (int, Seq<BuyOrder>)
    decreases plans.len() - i,
{
    if i < 0 || i >= plans.len() {
        (balance, Seq::empty())
    } else {
        let p = plans[i];
        let avail = money_available(balance);
        if !p.buy || avail < p.buy_price {
            buy_pass(balance, trader, plans, i + 1)
        } else {
            let max = if avail / (p.buy_price as int) < MAX_ORDER_SIZE { avail / (p.buy_price as int) } else { MAX_ORDER_SIZE as int };
            let q = (p.buy_roll % ((max + 1) as u64)) as int;
            if q == 0 {
                buy_pass(balance, trader, plans, i + 1)
            } else {
                let rest = buy_pass(balance - q * p.buy_price, trader, plans, i + 1);
                (rest.0, seq![BuyOrder::new_spec(p.company, q as u64, p.buy_price, trader)] + rest.1)
            }
        }
    }
}

/// The offers of a round from plan `i` on, given the trader's holdings: a
/// company the trader holds shares of gets an offer when it wants to sell;
/// the quantity is the drawn roll modulo one more than the sell limit, and a
/// quantity of zero places nothing. Offered shares leave the holdings at
/// once. The result is the holdings left and the offers in order.
pub open spec fn sell_pass(
    holdings: Map<EntityId, u64>,
    trader: EntityId,
    plans: Seq<TradePlan>,
    i: int,
) -> (Map<EntityId, u64>, Seq<SellOrder>)
    decreases plans.len() - i,
{
    if i < 0 || i >= plans.len() {
        (holdings, Seq::empty())
    } else {
        let p = plans[i];
        let shares = share_count(holdings, p.company);
        if shares == 0 || !p.sell {
            sell_pass(holdings, trader, plans, i + 1)
        } else {
            let max = if shares < MAX_ORDER_SIZE { shares as int } else { MAX_ORDER_SIZE as int };
            let q = (p.sell_roll % ((max + 1) as u64)) as int;
            if q == 0 {
                sell_pass(holdings, trader, plans, i + 1)
            } else {
                let rest = sell_pass(
                    holdings.insert(p.company, (shares - q) as u64),
                    trader,
                    plans,
                    i + 1,
                );
                (rest.0, seq![SellOrder::new_spec(p.company, q as u64, p.sell_price, trader)] + rest.1)
            }
        }
    }
}

/// The money the bids cost.
pub open spec fn bids_cost(orders: Seq<BuyOrder>) -> int
    decreases orders.len(),
{
    if orders.len() == 0 {
        0
    } else {
        orders[0].quantity * orders[0].price + bids_cost(orders.drop_first())
    }
}

/// The shares of `company` offered.
pub open spec fn offered(orders: Seq<SellOrder>, company: EntityId) -> int
    decreases orders.len(),
{
    if orders.len() == 0 {
        0
    } else {
        (if orders[0].company == company { orders[0].quantity as int } else { 0 }) + offered(
            orders.drop_first(),
            company,
        )
    }
}

/// A round of bids never overdraws the trader and places at most one bid per
/// plan, each for one to a hundred shares at the planned price and paid for
/// in full.
pub proof fn lemma_buy_pass_bounded(balance: int, trader: EntityId, plans: Seq<TradePlan>, i: int)
    requires
        0 <= i <= plans.len(),
        forall|k: int| 0 <= k < plans.len() ==> #[trigger] plans[k].buy_price >= 1,
    ensures
        ({
            let r = buy_pass(balance, trader, plans, i);
            &&& r.1.len() <= plans.len() - i
            &&& balance >= 0 ==> r.0 >= 0
            &&& r.0 == balance - bids_cost(r.1)
            &&& r.0 <= balance
            &&& forall|k: int|
                0 <= k < r.1.len() ==> 1 <= (#[trigger] r.1[k]).quantity <= MAX_ORDER_SIZE
                    && r.1[k].buyer == trader && r.1[k].remaining_quantity == r.1[k].quantity
        }),
    decreases plans.len() - i,
{
    if i < plans.len() {
        let p = plans[i];
        let avail = money_available(balance);
        lemma_buy_pass_bounded(balance, trader, plans, i + 1);
        if p.buy && avail >= p.buy_price {
            let max = if avail / (p.buy_price as int) < MAX_ORDER_SIZE { avail / (p.buy_price as int) } else { MAX_ORDER_SIZE as int };
            let q = (p.buy_roll % ((max + 1) as u64)) as int;
            if q != 0 {
                let b2 = balance - q * p.buy_price;
                assert(q <= max);
                assert(q * p.buy_price <= avail) by (nonlinear_arith)
                    requires
                        0 < q <= max,
                        max <= avail / (p.buy_price as int),
                        p.buy_price >= 1,
                        avail >= p.buy_price,
                ;
                lemma_money_available_bounds(balance);
                assert(avail <= balance);
                assert(q * p.buy_price >= 1) by (nonlinear_arith)
                    requires
                        q >= 1,
                        p.buy_price >= 1,
                ;
                lemma_buy_pass_bounded(b2, trader, plans, i + 1);
                let rest = buy_pass(b2, trader, plans, i + 1);
                let o = BuyOrder::new_spec(p.company, q as u64, p.buy_price, trader);
                assert((seq![o] + rest.1).drop_first() == rest.1);
                assert forall|k: int| 0 <= k < (seq![o] + rest.1).len() implies 1 <= (#[trigger] (
                seq![o] + rest.1)[k]).quantity <= MAX_ORDER_SIZE && (seq![o] + rest.1)[k].buyer
                    == trader && (seq![o] + rest.1)[k].remaining_quantity == (seq![o]
                    + rest.1)[k].quantity by {
                    if k > 0 {
                        assert((seq![o] + rest.1)[k] == rest.1[k - 1]);
                    }
                }
            }
        }
    }
}

/// A round of offers never sells more than the trader holds: for every
/// company, the shares left plus the shares offered are the shares held
/// before, and each offer is for one to a hundred shares.
pub proof fn lemma_sell_pass_conserves(
    holdings: Map<EntityId, u64>,
    trader: EntityId,
    plans: Seq<TradePlan>,
    i: int,
    company: EntityId,
)
    requires
        0 <= i <= plans.len(),
    ensures
        ({
            let r = sell_pass(holdings, trader, plans, i);
            &&& r.1.len() <= plans.len() - i
            &&& share_count(r.0, company) + offered(r.1, company) == share_count(holdings, company)
            &&& forall|k: int|
                0 <= k < r.1.len() ==> 1 <= (#[trigger] r.1[k]).quantity <= MAX_ORDER_SIZE
                    && r.1[k].seller == trader
        }),
    decreases plans.len() - i,
{
    if i < plans.len() {
        let p = plans[i];
        let shares = share_count(holdings, p.company);
        lemma_sell_pass_conserves(holdings, trader, plans, i + 1, company);
        if shares != 0 && p.sell {
            let max = if shares < MAX_ORDER_SIZE { shares as int } else { MAX_ORDER_SIZE as int };
            let q = (p.sell_roll % ((max + 1) as u64)) as int;
            if q != 0 {
                let h2 = holdings.insert(p.company, (shares - q) as u64);
                lemma_sell_pass_conserves(h2, trader, plans, i + 1, company);
                let rest = sell_pass(h2, trader, plans, i + 1);
                let o = SellOrder::new_spec(p.company, q as u64, p.sell_price, trader);
                assert((seq![o] + rest.1).drop_first() == rest.1);
                assert forall|k: int| 0 <= k < (seq![o] + rest.1).len() implies 1 <= (#[trigger] (
                seq![o] + rest.1)[k]).quantity <= MAX_ORDER_SIZE && (seq![o] + rest.1)[k].seller
                    == trader by {
                    if k > 0 {
                        assert((seq![o] + rest.1)[k] == rest.1[k - 1]);
                    }
                }
            }
        }
    }
}

/// A trader's round of trading over its plans, one per company: first the
/// bids (see `buy_pass`), paid from the wallet, then the offers (see
/// `sell_pass`), taken from the portfolio. Returns the orders to put in the
/// book, bids first. Prices are at least one, as the traders' pricing makes
/// them.
pub fn plan_round(
    trader: EntityId,
    plans: &Vec<TradePlan>,
    wallet: &mut Wallet,
    portfolio: &mut SharePortfolio,
) -> (r: (Vec<BuyOrder>, Vec<SellOrder>))
    requires
        forall|k: int| 0 <= k < plans@.len() ==> #[trigger] plans@[k].buy_price >= 1,
        forall|k: int| 0 <= k < plans@.len() ==> #[trigger] plans@[k].sell_price >= 1,
    ensures
        (final(wallet).balance as int, r.0@) == buy_pass(old(wallet).balance as int, trader, plans@, 0),
        (final(portfolio)@, r.1@) == sell_pass(old(portfolio)@, trader, plans@, 0),
{
    let ghost bgoal = buy_pass(wallet.balance as int, trader, plans@, 0);
    let mut buys: Vec<BuyOrder> = Vec::new();
    let mut i: usize = 0;
    while i < plans.len()
        invariant
            0 <= i <= plans@.len(),
            forall|k: int| 0 <= k < plans@.len() ==> #[trigger] plans@[k].buy_price >= 1,
            bgoal == ({
                let rest = buy_pass(wallet.balance as int, trader, plans@, i as int);
                (rest.0, buys@ + rest.1)
            }),
        decreases plans@.len() - i,
    {
        let p = plans[i];
        let ghost bal = wallet.balance as int;
        proof {
            assert(p.buy_price >= 1);
        }
        let avail = hundredth_available(wallet.balance);
        if p.buy && avail >= p.buy_price {
            let per = avail / p.buy_price;
            let max: u64 = if (per as u64) < MAX_ORDER_SIZE { per as u64 } else { MAX_ORDER_SIZE };
            let q = p.buy_roll % (max + 1);
            if q != 0 {
                proof {
                    assert((q as int) * p.buy_price <= avail) by (nonlinear_arith)
                        requires
                            0 < q <= max,
                            max <= avail / p.buy_price,
                            p.buy_price >= 1,
                            avail >= p.buy_price,
                    ;
                    assert((q as int) * p.buy_price >= 0) by (nonlinear_arith)
                        requires
                            q >= 0,
                            p.buy_price >= 1,
                    ;
                }
                let cost: i64 = (q as i64) * p.buy_price;
                wallet.balance = wallet.balance - cost;
                let o = BuyOrder::new(p.company, q, p.buy_price, trader);
                proof {
                    let rest = buy_pass(wallet.balance as int, trader, plans@, i + 1);
                    assert(buys@ + (seq![o] + rest.1) == buys@.push(o) + rest.1);
                }
                buys.push(o);
            }
        }
        i = i + 1;
    }
    proof {
        assert(buys@ + Seq::<BuyOrder>::empty() == buys@);
    }
    let ghost sgoal = sell_pass(portfolio@, trader, plans@, 0);
    let mut sells: Vec<SellOrder> = Vec::new();
    let mut j: usize = 0;
    while j < plans.len()
        invariant
            0 <= j <= plans@.len(),
            sgoal == ({
                let rest = sell_pass(portfolio@, trader, plans@, j as int);
                (rest.0, sells@ + rest.1)
            }),
        decreases plans@.len() - j,
    {
        let p = plans[j];
        let shares = portfolio.get_count(&p.company);
        if shares != 0 && p.sell {
            let max = sell_limit(shares);
            let q = p.sell_roll % (max + 1);
            if q != 0 {
                portfolio.remove_shares(p.company, q);
                let o = SellOrder::new(p.company, q, p.sell_price, trader);
                proof {
                    let rest = sell_pass(portfolio@, trader, plans@, j + 1);
                    assert(sells@ + (seq![o] + rest.1) == sells@.push(o) + rest.1);
                }
                sells.push(o);
            }
        }
        j = j + 1;
    }
    proof {
        assert(sells@ + Seq::<SellOrder>::empty() == sells@);
    }
    (buys, sells)
}

} // verus!
