//! Matching buy orders against sell orders, settling the trades, and pulling
//! orders that were filled or waited too long.
use std::collections::HashMap;

use vstd::prelude::*;

use crate::money::Wallet;
use crate::stock_market::{
    share_count, spec_history_push, BuyOrder, BuyOrderBrief, EntityId, OrderBook,
    SellOrder, SharePortfolio, ShareHistory,
};
use crate::Money;

verus! {

broadcast use vstd::std_specs::hash::group_hash_axioms;

/// How long an order may wait in the book: one minute, in nanoseconds.
pub const PULL_TIME: u64 = 60_000_000_000;

/// Shares changing hands: `quantity` shares of `company` from `seller` to
/// `buyer` at `price` each.
#[derive(Clone, Copy, Debug, PartialEq, Eq)]
pub struct Trade {
    pub company: EntityId,
    pub buyer: EntityId,
    pub seller: EntityId,
    pub quantity: u64,
    pub price: Money,
}

/// The wallets, portfolios and price histories the market settles against,
/// each under its owner.
#[derive(Debug)]
pub struct Market {
    pub wallets: HashMap<EntityId, Wallet>,
    pub portfolios: HashMap<EntityId, SharePortfolio>,
    pub share_histories: HashMap<EntityId, ShareHistory>,
}

/// The contents of a share history.
pub struct HistoryState {
    pub entries: Seq<BuyOrderBrief>,
    pub cached_price: Money,
    pub dirty_price: bool,
}

/// The contents of the market.
pub struct MarketState {
    pub wallets: Map<EntityId, Wallet>,
    pub portfolios: Map<EntityId, Map<EntityId, u64>>,
    pub histories: Map<EntityId, HistoryState>,
}

pub open spec fn history_state(h: ShareHistory) -> HistoryState {
    HistoryState { entries: h.history@, cached_price: h.cached_price, dirty_price: h.dirty_price }
}

impl View for Market {
    type V = MarketState;

    open spec fn view(&self) -> MarketState {
        MarketState {
            wallets: self.wallets@,
            portfolios: self.portfolios@.map_values(|p: SharePortfolio| p@),
            histories: self.share_histories@.map_values(|h: ShareHistory| history_state(h)),
        }
    }
}

/// The sell lists of a book as sequences.
pub open spec fn sell_lists(m: Map<EntityId, Vec<SellOrder>>) -> Map<EntityId, Seq<SellOrder>> {
    m.map_values(|v: Vec<SellOrder>| v@)
}

pub open spec fn min_u64(a: u64, b: u64) -> u64 {
    if a < b {
        a
    } else {
        b
    }
}

// ---------------------------------------------------------------------------
// Matching
// ---------------------------------------------------------------------------

/// Fills a buy order from a company's sell orders, cheapest first, starting at
/// position `j`: it stops at the first sell order priced above the buy
/// order's limit and when the buy order is filled; sell orders with nothing
/// left and those whose seller has no wallet are passed over; nothing is
/// bought for a buyer without a portfolio. Each fill trades the smaller of the
/// two remaining quantities at the sell order's price. The result is the buy
/// order, the sell orders and the trades so far.
pub open spec fn fill_from(
    buy: BuyOrder,
    sells: Seq<SellOrder>,
    j: int,
    wallets: Set<EntityId>,
    portfolios: Set<EntityId>,
    trades: Seq<Trade>,
) -> (BuyOrder, Seq<SellOrder>, Seq<Trade>)
    decreases sells.len() - j,
{
    if j < 0 || j >= sells.len() {
        (buy, sells, trades)
    } else {
        let s = sells[j];
        if buy.price < s.price {
            (buy, sells, trades)
        } else if s.remaining_quantity == 0 || !wallets.contains(s.seller) {
            fill_from(buy, sells, j + 1, wallets, portfolios, trades)
        } else if !portfolios.contains(buy.buyer) {
            (buy, sells, trades)
        } else {
            let q = min_u64(buy.remaining_quantity, s.remaining_quantity);
            let b2 = BuyOrder { remaining_quantity: (buy.remaining_quantity - q) as u64, ..buy };
            let s2 = SellOrder { remaining_quantity: (s.remaining_quantity - q) as u64, ..s };
            let t = Trade {
                company: s.company,
                buyer: buy.buyer,
                seller: s.seller,
                quantity: q,
                price: s.price,
            };
            if b2.remaining_quantity == 0 {
                (b2, sells.update(j, s2), trades.push(t))
            } else {
                fill_from(b2, sells.update(j, s2), j + 1, wallets, portfolios, trades.push(t))
            }
        }
    }
}

/// Goes through the buy orders from position `i` on, in the order they came
/// in: each one ages by `delta` and is filled (see `fill_from`) from its
/// company's sell orders, if the company has a list.
pub open spec fn match_from(
    buys: Seq<BuyOrder>,
    sells: Map<EntityId, Seq<SellOrder>>,
    i: int,
    delta: u64,
    wallets: Set<EntityId>,
    portfolios: Set<EntityId>,
    trades: Seq<Trade>,
) -> (Seq<BuyOrder>, Map<EntityId, Seq<SellOrder>>, Seq<Trade>)
    decreases buys.len() - i,
{
    if i < 0 || i >= buys.len() {
        (buys, sells, trades)
    } else {
        let b = BuyOrder { lifetime: (buys[i].lifetime + delta) as u64, ..buys[i] };
        if !sells.contains_key(b.company) {
            match_from(buys.update(i, b), sells, i + 1, delta, wallets, portfolios, trades)
        } else {
            let r = fill_from(b, sells[b.company], 0, wallets, portfolios, trades);
            match_from(
                buys.update(i, r.0),
                sells.insert(b.company, r.1),
                i + 1,
                delta,
                wallets,
                portfolios,
                r.2,
            )
        }
    }
}

/// Every buy order can age by `delta` without leaving the range of `u64`.
pub open spec fn buys_can_age(buys: Seq<BuyOrder>, delta: u64) -> bool {
    forall|i: int| 0 <= i < buys.len() ==> #[trigger] buys[i].lifetime + delta <= u64::MAX
}

proof fn lemma_fill_step(
    buy: BuyOrder,
    sells: Seq<SellOrder>,
    j: int,
    wallets: Set<EntityId>,
    portfolios: Set<EntityId>,
    trades: Seq<Trade>,
)
    requires
        0 <= j < sells.len(),
    ensures
        fill_from(buy, sells, j, wallets, portfolios, trades) == ({
            let s = sells[j];
            if buy.price < s.price {
                (buy, sells, trades)
            } else if s.remaining_quantity == 0 || !wallets.contains(s.seller) {
                fill_from(buy, sells, j + 1, wallets, portfolios, trades)
            } else if !portfolios.contains(buy.buyer) {
                (buy, sells, trades)
            } else {
                let q = min_u64(buy.remaining_quantity, s.remaining_quantity);
                let b2 = BuyOrder { remaining_quantity: (buy.remaining_quantity - q) as u64, ..buy };
                let s2 = SellOrder { remaining_quantity: (s.remaining_quantity - q) as u64, ..s };
                let t = Trade {
                    company: s.company,
                    buyer: buy.buyer,
                    seller: s.seller,
                    quantity: q,
                    price: s.price,
                };
                if b2.remaining_quantity == 0 {
                    (b2, sells.update(j, s2), trades.push(t))
                } else {
                    fill_from(b2, sells.update(j, s2), j + 1, wallets, portfolios, trades.push(t))
                }
            }
        }),
{
}

proof fn lemma_match_step(
    buys: Seq<BuyOrder>,
    sells: Map<EntityId, Seq<SellOrder>>,
    i: int,
    delta: u64,
    wallets: Set<EntityId>,
    portfolios: Set<EntityId>,
    trades: Seq<Trade>,
)
    requires
        0 <= i < buys.len(),
    ensures
        match_from(buys, sells, i, delta, wallets, portfolios, trades) == ({
            let b = BuyOrder { lifetime: (buys[i].lifetime + delta) as u64, ..buys[i] };
            if !sells.contains_key(b.company) {
                match_from(buys.update(i, b), sells, i + 1, delta, wallets, portfolios, trades)
            } else {
                let r = fill_from(b, sells[b.company], 0, wallets, portfolios, trades);
                match_from(
                    buys.update(i, r.0),
                    sells.insert(b.company, r.1),
                    i + 1,
                    delta,
                    wallets,
                    portfolios,
                    r.2,
                )
            }
        }),
{
}

/// Fills one buy order from a company's sell orders (see `fill_from`).
fn fill_buy_order(
    buy: &mut BuyOrder,
    sells: &mut Vec<SellOrder>,
    market: &Market,
    trades: &mut Vec<Trade>,
)
    ensures
        (*final(buy), final(sells)@, final(trades)@) == fill_from(
            *old(buy),
            old(sells)@,
            0,
            market.wallets@.dom(),
            market.portfolios@.dom(),
            old(trades)@,
        ),
{
    let ghost w = market.wallets@.dom();
    let ghost p = market.portfolios@.dom();
    let ghost goal = fill_from(*buy, sells@, 0, w, p, trades@);
    let mut j: usize = 0;
    while j < sells.len()
        invariant
            goal == fill_from(*buy, sells@, j as int, w, p, trades@),
            goal == fill_from(*old(buy), old(sells)@, 0, w, p, old(trades)@),
            w == market.wallets@.dom(),
            p == market.portfolios@.dom(),
        decreases sells@.len() - j,
    {
        proof {
            lemma_fill_step(*buy, sells@, j as int, w, p, trades@);
        }
        let s = sells[j];
        if buy.price < s.price {
            assert(fill_from(*buy, sells@, j as int, w, p, trades@) == (*buy, sells@, trades@));
            return ;
        }
        if s.remaining_quantity == 0 || !market.wallets.contains_key(&s.seller) {
            j = j + 1;
            continue;
        }
        if !market.portfolios.contains_key(&buy.buyer) {
            assert(fill_from(*buy, sells@, j as int, w, p, trades@) == (*buy, sells@, trades@));
            return ;
        }
        let q = if buy.remaining_quantity < s.remaining_quantity {
            buy.remaining_quantity
        } else {
            s.remaining_quantity
        };
        buy.remaining_quantity = buy.remaining_quantity - q;
        let s2 = SellOrder { remaining_quantity: s.remaining_quantity - q, ..s };
        sells.set(j, s2);
        trades.push(
            Trade { company: s.company, buyer: buy.buyer, seller: s.seller, quantity: q, price: s.price },
        );
        if buy.remaining_quantity == 0 {
            return ;
        }
        j = j + 1;
    }
}

/// Ages every buy order by `delta` and fills it from its company's sell
/// orders, in the order the buy orders came in (see `match_from`). Returns
/// the trades made, in the order they were made.
pub fn match_orders(book: &mut OrderBook, market: &Market, delta: u64) -> (trades: Vec<Trade>)
    requires
        buys_can_age(old(book).buy_orders@, delta),
    ensures
        (final(book).buy_orders@, sell_lists(final(book).sell_orders@), trades@) == match_from(
            old(book).buy_orders@,
            sell_lists(old(book).sell_orders@),
            0,
            delta,
            market.wallets@.dom(),
            market.portfolios@.dom(),
            Seq::empty(),
        ),
{
    let ghost w = market.wallets@.dom();
    let ghost p = market.portfolios@.dom();
    let ghost b0 = book.buy_orders@;
    let ghost goal = match_from(b0, sell_lists(book.sell_orders@), 0, delta, w, p, Seq::empty());
    let mut trades: Vec<Trade> = Vec::new();
    let mut i: usize = 0;
    while i < book.buy_orders.len()
        invariant
            0 <= i <= book.buy_orders@.len(),
            book.buy_orders@.len() == b0.len(),
            forall|k: int| i <= k < b0.len() ==> #[trigger] book.buy_orders@[k] == b0[k],
            buys_can_age(b0, delta),
            b0 == old(book).buy_orders@,
            goal == match_from(
                old(book).buy_orders@,
                sell_lists(old(book).sell_orders@),
                0,
                delta,
                w,
                p,
                Seq::empty(),
            ),
            goal == match_from(
                book.buy_orders@,
                sell_lists(book.sell_orders@),
                i as int,
                delta,
                w,
                p,
                trades@,
            ),
            w == market.wallets@.dom(),
            p == market.portfolios@.dom(),
        decreases book.buy_orders@.len() - i,
    {
        let mut buy = book.buy_orders[i];
        assert(buy == b0[i as int]);
        proof {
            lemma_match_step(book.buy_orders@, sell_lists(book.sell_orders@), i as int, delta, w, p, trades@);
        }
        let ghost bl = book.buy_orders@;
        assert(buy.lifetime + delta <= u64::MAX);
        buy.lifetime = buy.lifetime + delta;
        let company = buy.company;
        let ghost sl = sell_lists(book.sell_orders@);
        let ghost sm = book.sell_orders@;
        match book.sell_orders.remove(&company) {
            None => {
                book.buy_orders.set(i, buy);
                assert(book.buy_orders@ == bl.update(i as int, buy));
                assert(!sm.contains_key(company));
                assert(book.sell_orders@ =~= sm);
                assert(!sl.contains_key(company));
            },
            Some(mut list) => {
                assert(sl.contains_key(company) && sl[company] == list@);
                fill_buy_order(&mut buy, &mut list, market, &mut trades);
                book.buy_orders.set(i, buy);
                book.sell_orders.insert(company, list);
                assert(sell_lists(book.sell_orders@) == sl.insert(company, list@));
                assert(book.buy_orders@ == bl.update(i as int, buy));
            },
        }
        i = i + 1;
    }
    trades
}


// ---------------------------------------------------------------------------
// Settling trades
// ---------------------------------------------------------------------------

/// What a trade pays the seller: the quantity (taken as a signed 64-bit
/// number) times the price.
pub open spec fn credit(t: Trade) -> int {
    (t.quantity as i64) * t.price
}

/// A trade's effect on the market: the buyer's portfolio gains the shares, the
/// seller's wallet gains the credit, and the company's price history records
/// the trade (each only where that owner has one).
pub open spec fn settle_trade(m: MarketState, t: Trade) -> MarketState {
    MarketState {
        wallets: if m.wallets.contains_key(t.seller) {
            m.wallets.insert(
                t.seller,
                Wallet { balance: (m.wallets[t.seller].balance + credit(t)) as i64 },
            )
        } else {
            m.wallets
        },
        portfolios: if m.portfolios.contains_key(t.buyer) {
            m.portfolios.insert(
                t.buyer,
                m.portfolios[t.buyer].insert(
                    t.company,
                    (share_count(m.portfolios[t.buyer], t.company) + t.quantity) as u64,
                ),
            )
        } else {
            m.portfolios
        },
        histories: if m.histories.contains_key(t.company) {
            m.histories.insert(
                t.company,
                HistoryState {
                    entries: spec_history_push(
                        m.histories[t.company].entries,
                        BuyOrderBrief { quantity: t.quantity, price: t.price },
                    ),
                    cached_price: m.histories[t.company].cached_price,
                    dirty_price: true,
                },
            )
        } else {
            m.histories
        },
    }
}

/// Whether settling a trade stays within the number types.
pub open spec fn trade_fits(m: MarketState, t: Trade) -> bool {
    &&& m.wallets.contains_key(t.seller) ==> {
        &&& i64::MIN <= credit(t) <= i64::MAX
        &&& i64::MIN <= m.wallets[t.seller].balance + credit(t) <= i64::MAX
    }
    &&& m.portfolios.contains_key(t.buyer) ==> share_count(m.portfolios[t.buyer], t.company)
        + t.quantity <= u64::MAX
}

/// The market after settling `trades[k..]` in order.
pub open spec fn settle_from(m: MarketState, trades: Seq<Trade>, k: int) -> MarketState
    decreases trades.len() - k,
{
    if k < 0 || k >= trades.len() {
        m
    } else {
        settle_from(settle_trade(m, trades[k]), trades, k + 1)
    }
}

/// Whether settling `trades[k..]` in order stays within the number types.
pub open spec fn settle_fits(m: MarketState, trades: Seq<Trade>, k: int) -> bool
    decreases trades.len() - k,
{
    if k < 0 || k >= trades.len() {
        true
    } else {
        trade_fits(m, trades[k]) && settle_fits(settle_trade(m, trades[k]), trades, k + 1)
    }
}

/// Settles one trade (see `settle_trade`).
fn settle(market: &mut Market, t: Trade)
    requires
        trade_fits(old(market)@, t),
    ensures
        final(market)@ == settle_trade(old(market)@, t),
{
    let ghost m0 = market@;
    match market.portfolios.remove(&t.buyer) {
        Some(mut p) => {
            p.add_shares(t.company, t.quantity);
            market.portfolios.insert(t.buyer, p);
        },
        None => {},
    }
    assert(market@.portfolios =~= settle_trade(m0, t).portfolios);
    match market.wallets.remove(&t.seller) {
        Some(mut w) => {
            w.balance = w.balance + (#[verifier::truncate] (t.quantity as i64)) * t.price;
            market.wallets.insert(t.seller, w);
        },
        None => {},
    }
    assert(market@.wallets =~= settle_trade(m0, t).wallets);
    match market.share_histories.remove(&t.company) {
        Some(mut h) => {
            h.add_entry(t.price, t.quantity);
            market.share_histories.insert(t.company, h);
        },
        None => {},
    }
    assert(market@.histories =~= settle_trade(m0, t).histories);
}

/// Settles the trades in order (see `settle_from`).
pub fn settle_trades(market: &mut Market, trades: &Vec<Trade>)
    requires
        settle_fits(old(market)@, trades@, 0),
    ensures
        final(market)@ == settle_from(old(market)@, trades@, 0),
{
    let mut k: usize = 0;
    while k < trades.len()
        invariant
            0 <= k <= trades@.len(),
            settle_from(old(market)@, trades@, 0) == settle_from(market@, trades@, k as int),
            settle_fits(market@, trades@, k as int),
        decreases trades@.len() - k,
    {
        settle(market, trades[k]);
        k = k + 1;
    }
}


// ---------------------------------------------------------------------------
// Pulling orders
// ---------------------------------------------------------------------------

/// A sell order `delta` nanoseconds older.
pub open spec fn aged_sell(o: SellOrder, delta: u64) -> SellOrder {
    SellOrder { lifetime: (o.lifetime + delta) as u64, ..o }
}

/// Every sell order `delta` nanoseconds older.
pub open spec fn aged_lists(m: Map<EntityId, Seq<SellOrder>>, delta: u64) -> Map<
    EntityId,
    Seq<SellOrder>,
> {
    m.map_values(|s: Seq<SellOrder>| s.map_values(|o: SellOrder| aged_sell(o, delta)))
}

/// Every sell order can age by `delta` without leaving the range of `u64`.
pub open spec fn sells_can_age(m: Map<EntityId, Seq<SellOrder>>, delta: u64) -> bool {
    forall|c: EntityId, i: int|
        #![trigger m[c][i]]
        m.contains_key(c) && 0 <= i < m[c].len() ==> m[c][i].lifetime + delta <= u64::MAX
}

/// The companies that have a sell list, in some order, each once.
fn company_keys(m: &HashMap<EntityId, Vec<SellOrder>>) -> (ks: Vec<EntityId>)
    ensures
        ks@.to_set() == m@.dom(),
        ks@.no_duplicates(),
{
    let mut ks: Vec<EntityId> = Vec::new();
    for k in it: m.keys()
        invariant
            ks@ == it.seq().take(it.index()).map_values(|r: &EntityId| *r),
            it.seq() == vstd::std_specs::iter::IteratorSpec::remaining(&vstd::std_specs::hash::spec_keys_iter(m)),
    {
        ks.push(*k);
        assert(ks@ == it.seq().take(it.index() + 1).map_values(|r: &EntityId| *r));
    }
    assert(ks@ == vstd::std_specs::iter::IteratorSpec::remaining(&vstd::std_specs::hash::spec_keys_iter(m)).unref());
    ks
}

/// Ages every sell order by `delta` nanoseconds.
fn age_sell_orders(book: &mut OrderBook, delta: u64)
    requires
        sells_can_age(sell_lists(old(book).sell_orders@), delta),
    ensures
        final(book).buy_orders@ == old(book).buy_orders@,
        sell_lists(final(book).sell_orders@) == aged_lists(sell_lists(old(book).sell_orders@), delta),
{
    let ghost s0 = sell_lists(book.sell_orders@);
    let ks = company_keys(&book.sell_orders);
    let mut i: usize = 0;
    while i < ks.len()
        invariant
            0 <= i <= ks@.len(),
            ks@.to_set() == s0.dom(),
            ks@.no_duplicates(),
            book.buy_orders@ == old(book).buy_orders@,
            sells_can_age(s0, delta),
            sell_lists(book.sell_orders@).dom() == s0.dom(),
            forall|c: EntityId|
                #[trigger] s0.contains_key(c) ==> sell_lists(book.sell_orders@)[c] == if ks@.take(
                    i as int,
                ).contains(c) {
                    s0[c].map_values(|o: SellOrder| aged_sell(o, delta))
                } else {
                    s0[c]
                },
        decreases ks@.len() - i,
    {
        let c = ks[i];
        assert(ks@.to_set().contains(c));
        let ghost sl = sell_lists(book.sell_orders@);
        match book.sell_orders.remove(&c) {
            Some(mut list) => {
                assert(list@ == s0[c]);
                let ghost l0 = list@;
                let mut j: usize = 0;
                while j < list.len()
                    invariant
                        0 <= j <= list@.len(),
                        list@.len() == l0.len(),
                        l0 == s0[c],
                        s0.contains_key(c),
                        sells_can_age(s0, delta),
                        forall|k: int| 0 <= k < j ==> #[trigger] list@[k] == aged_sell(l0[k], delta),
                        forall|k: int| j <= k < l0.len() ==> #[trigger] list@[k] == l0[k],
                    decreases l0.len() - j,
                {
                    let o = list[j];
                    assert(o == s0[c][j as int]);
                    list.set(j, SellOrder { lifetime: o.lifetime + delta, ..o });
                    j = j + 1;
                }
                assert(list@ == l0.map_values(|o: SellOrder| aged_sell(o, delta)));
                book.sell_orders.insert(c, list);
            },
            None => {},
        }
        proof {
            assert forall|d: EntityId| #[trigger] s0.contains_key(d) implies sell_lists(
                book.sell_orders@,
            )[d] == if ks@.take(i + 1).contains(d) {
                s0[d].map_values(|o: SellOrder| aged_sell(o, delta))
            } else {
                s0[d]
            } by {
                if d == c {
                    let t1 = ks@.take(i + 1);
                    assert(t1[i as int] == c);
                    assert(t1.contains(d));
                    let t0 = ks@.take(i as int);
                    assert(!t0.contains(d)) by {
                        if t0.contains(d) {
                            let k = choose|k: int| 0 <= k < t0.len() && #[trigger] t0[k] == d;
                            assert(ks@[k] == ks@[i as int]);
                        }
                    }
                } else {
                    let t1 = ks@.take(i + 1);
                    let t0 = ks@.take(i as int);
                    assert(t1.contains(d) == t0.contains(d)) by {
                        if t1.contains(d) {
                            let k = choose|k: int| 0 <= k < t1.len() && #[trigger] t1[k] == d;
                            assert(k < i);
                            assert(t0[k] == d);
                        }
                        if t0.contains(d) {
                            let k = choose|k: int| 0 <= k < t0.len() && #[trigger] t0[k] == d;
                            assert(t1[k] == d);
                        }
                    }
                }
            }
            assert(sell_lists(book.sell_orders@).dom() =~= s0.dom());
        }
        i = i + 1;
    }
    proof {
        assert(ks@.take(ks@.len() as int) == ks@);
        assert forall|c: EntityId| #[trigger] s0.contains_key(c) implies ks@.contains(c) by {
            assert(ks@.to_set().contains(c));
        }
        assert(sell_lists(book.sell_orders@) =~= aged_lists(s0, delta));
    }
}


/// A buy order is pulled when it waited longer than `PULL_TIME` or its
/// buyer has no portfolio to receive shares.
pub open spec fn buy_expires(o: BuyOrder, portfolios: Set<EntityId>) -> bool {
    o.lifetime > PULL_TIME || !portfolios.contains(o.buyer)
}

/// What pulling a buy order gives back to the buyer: the quantity still
/// wanted (taken as a signed 64-bit number) times the price.
pub open spec fn refund(o: BuyOrder) -> int {
    (o.remaining_quantity as i64) * o.price
}

/// Goes through the buy orders from position `k` on: filled orders are
/// dropped, expiring ones are dropped and refunded to the buyer's wallet (if
/// the buyer has one), the rest are kept in order. The result is the buy
/// orders kept and the wallets.
pub open spec fn expire_buys_from(
    buys: Seq<BuyOrder>,
    k: int,
    kept: Seq<BuyOrder>,
    wallets: Map<EntityId, Wallet>,
    portfolios: Set<EntityId>,
) -> (Seq<BuyOrder>, Map<EntityId, Wallet>)
    decreases buys.len() - k,
{
    if k < 0 || k >= buys.len() {
        (kept, wallets)
    } else {
        let o = buys[k];
        if o.remaining_quantity == 0 {
            expire_buys_from(buys, k + 1, kept, wallets, portfolios)
        } else if buy_expires(o, portfolios) {
            let w2 = if wallets.contains_key(o.buyer) {
                wallets.insert(o.buyer, Wallet { balance: (wallets[o.buyer].balance + refund(o)) as i64 })
            } else {
                wallets
            };
            expire_buys_from(buys, k + 1, kept, w2, portfolios)
        } else {
            expire_buys_from(buys, k + 1, kept.push(o), wallets, portfolios)
        }
    }
}

/// Whether the refunds of `expire_buys_from` stay within the money type.
pub open spec fn expire_buys_fits(
    buys: Seq<BuyOrder>,
    k: int,
    wallets: Map<EntityId, Wallet>,
    portfolios: Set<EntityId>,
) -> bool
    decreases buys.len() - k,
{
    if k < 0 || k >= buys.len() {
        true
    } else {
        let o = buys[k];
        if o.remaining_quantity == 0 {
            expire_buys_fits(buys, k + 1, wallets, portfolios)
        } else if buy_expires(o, portfolios) {
            if wallets.contains_key(o.buyer) {
                &&& i64::MIN <= refund(o) <= i64::MAX
                &&& i64::MIN <= wallets[o.buyer].balance + refund(o) <= i64::MAX
                &&& expire_buys_fits(
                    buys,
                    k + 1,
                    wallets.insert(
                        o.buyer,
                        Wallet { balance: (wallets[o.buyer].balance + refund(o)) as i64 },
                    ),
                    portfolios,
                )
            } else {
                expire_buys_fits(buys, k + 1, wallets, portfolios)
            }
        } else {
            expire_buys_fits(buys, k + 1, wallets, portfolios)
        }
    }
}

proof fn lemma_expire_buys_keeps_wallet_owners(
    buys: Seq<BuyOrder>,
    k: int,
    kept: Seq<BuyOrder>,
    wallets: Map<EntityId, Wallet>,
    portfolios: Set<EntityId>,
)
    ensures
        expire_buys_from(buys, k, kept, wallets, portfolios).1.dom() == wallets.dom(),
    decreases buys.len() - k,
{
    if k < 0 || k >= buys.len() {
    } else {
        let o = buys[k];
        if o.remaining_quantity == 0 {
            lemma_expire_buys_keeps_wallet_owners(buys, k + 1, kept, wallets, portfolios);
        } else if buy_expires(o, portfolios) {
            let w2 = if wallets.contains_key(o.buyer) {
                wallets.insert(o.buyer, Wallet { balance: (wallets[o.buyer].balance + refund(o)) as i64 })
            } else {
                wallets
            };
            assert(w2.dom() =~= wallets.dom());
            lemma_expire_buys_keeps_wallet_owners(buys, k + 1, kept, w2, portfolios);
        } else {
            lemma_expire_buys_keeps_wallet_owners(buys, k + 1, kept.push(o), wallets, portfolios);
        }
    }
}

/// Pulls filled and expiring buy orders (see `expire_buys_from`).
fn expire_buy_orders(book: &mut OrderBook, market: &mut Market)
    requires
        expire_buys_fits(
            old(book).buy_orders@,
            0,
            old(market)@.wallets,
            old(market)@.portfolios.dom(),
        ),
    ensures
        (final(book).buy_orders@, final(market)@.wallets) == expire_buys_from(
            old(book).buy_orders@,
            0,
            Seq::empty(),
            old(market)@.wallets,
            old(market)@.portfolios.dom(),
        ),
        final(book).sell_orders@ == old(book).sell_orders@,
        final(market)@.portfolios == old(market)@.portfolios,
        final(market)@.histories == old(market)@.histories,
{
    let ghost b0 = book.buy_orders@;
    let ghost pdom = market@.portfolios.dom();
    let ghost goal = expire_buys_from(b0, 0, Seq::empty(), market@.wallets, pdom);
    let mut kept: Vec<BuyOrder> = Vec::new();
    let mut k: usize = 0;
    let n = book.buy_orders.len();
    while k < n
        invariant
            0 <= k <= n,
            n == b0.len(),
            b0 == book.buy_orders@,
            pdom == market@.portfolios.dom(),
            goal == expire_buys_from(b0, k as int, kept@, market@.wallets, pdom),
            expire_buys_fits(b0, k as int, market@.wallets, pdom),
            book.sell_orders@ == old(book).sell_orders@,
            market@.portfolios == old(market)@.portfolios,
            market@.histories == old(market)@.histories,
        decreases n - k,
    {
        let o = book.buy_orders[k];
        if o.remaining_quantity == 0 {
        } else if o.lifetime > PULL_TIME || !market.portfolios.contains_key(&o.buyer) {
            let ghost m0 = market@;
            match market.wallets.remove(&o.buyer) {
                Some(mut w) => {
                    w.balance = w.balance + (#[verifier::truncate] (o.remaining_quantity as i64)) * o.price;
                    market.wallets.insert(o.buyer, w);
                },
                None => {},
            }
            assert(market@.wallets =~= (if m0.wallets.contains_key(o.buyer) {
                m0.wallets.insert(o.buyer, Wallet { balance: (m0.wallets[o.buyer].balance + refund(o)) as i64 })
            } else {
                m0.wallets
            }));
            assert(market@.portfolios =~= m0.portfolios);
            assert(market@.histories =~= m0.histories);
        } else {
            kept.push(o);
        }
        k = k + 1;
    }
    book.buy_orders = kept;
}

/// A sell order is pulled when it waited longer than `PULL_TIME` or its
/// seller has no wallet to be paid into.
pub open spec fn sell_expires(o: SellOrder, wallets: Set<EntityId>) -> bool {
    o.lifetime > PULL_TIME || !wallets.contains(o.seller)
}

/// Goes through one company's sell orders from position `k` on: filled
/// orders are dropped, expiring ones are dropped and their unsold shares go
/// back to the seller's portfolio (if the seller has one), the rest are kept
/// in order. The result is the orders kept and the portfolios.
pub open spec fn expire_list_from(
    list: Seq<SellOrder>,
    k: int,
    kept: Seq<SellOrder>,
    portfolios: Map<EntityId, Map<EntityId, u64>>,
    wallets: Set<EntityId>,
) -> (Seq<SellOrder>, Map<EntityId, Map<EntityId, u64>>)
    decreases list.len() - k,
{
    if k < 0 || k >= list.len() {
        (kept, portfolios)
    } else {
        let o = list[k];
        if o.remaining_quantity == 0 {
            expire_list_from(list, k + 1, kept, portfolios, wallets)
        } else if sell_expires(o, wallets) {
            let p2 = if portfolios.contains_key(o.seller) {
                portfolios.insert(
                    o.seller,
                    portfolios[o.seller].insert(
                        o.company,
                        (share_count(portfolios[o.seller], o.company) + o.remaining_quantity) as u64,
                    ),
                )
            } else {
                portfolios
            };
            expire_list_from(list, k + 1, kept, p2, wallets)
        } else {
            expire_list_from(list, k + 1, kept.push(o), portfolios, wallets)
        }
    }
}

/// Whether the returned shares of `expire_list_from` stay within `u64`.
pub open spec fn expire_list_fits(
    list: Seq<SellOrder>,
    k: int,
    portfolios: Map<EntityId, Map<EntityId, u64>>,
    wallets: Set<EntityId>,
) -> bool
    decreases list.len() - k,
{
    if k < 0 || k >= list.len() {
        true
    } else {
        let o = list[k];
        if o.remaining_quantity == 0 {
            expire_list_fits(list, k + 1, portfolios, wallets)
        } else if sell_expires(o, wallets) {
            if portfolios.contains_key(o.seller) {
                &&& share_count(portfolios[o.seller], o.company) + o.remaining_quantity <= u64::MAX
                &&& expire_list_fits(
                    list,
                    k + 1,
                    portfolios.insert(
                        o.seller,
                        portfolios[o.seller].insert(
                            o.company,
                            (share_count(portfolios[o.seller], o.company)
                                + o.remaining_quantity) as u64,
                        ),
                    ),
                    wallets,
                )
            } else {
                expire_list_fits(list, k + 1, portfolios, wallets)
            }
        } else {
            expire_list_fits(list, k + 1, portfolios, wallets)
        }
    }
}

/// Goes through the companies `ks[i..]` in order, pulling filled and expiring
/// sell orders from each list (see `expire_list_from`) and dropping lists
/// left empty. The result is the sell lists and the portfolios.
pub open spec fn expire_sells_from(
    ks: Seq<EntityId>,
    i: int,
    lists: Map<EntityId, Seq<SellOrder>>,
    portfolios: Map<EntityId, Map<EntityId, u64>>,
    wallets: Set<EntityId>,
) -> (Map<EntityId, Seq<SellOrder>>, Map<EntityId, Map<EntityId, u64>>)
    decreases ks.len() - i,
{
    if i < 0 || i >= ks.len() {
        (lists, portfolios)
    } else {
        let c = ks[i];
        let r = expire_list_from(lists[c], 0, Seq::empty(), portfolios, wallets);
        let lists2 = if r.0.len() == 0 {
            lists.remove(c)
        } else {
            lists.insert(c, r.0)
        };
        expire_sells_from(ks, i + 1, lists2, r.1, wallets)
    }
}

/// Whether the returned shares of `expire_sells_from` stay within `u64`.
pub open spec fn expire_sells_fits(
    ks: Seq<EntityId>,
    i: int,
    lists: Map<EntityId, Seq<SellOrder>>,
    portfolios: Map<EntityId, Map<EntityId, u64>>,
    wallets: Set<EntityId>,
) -> bool
    decreases ks.len() - i,
{
    if i < 0 || i >= ks.len() {
        true
    } else {
        let c = ks[i];
        let r = expire_list_from(lists[c], 0, Seq::empty(), portfolios, wallets);
        let lists2 = if r.0.len() == 0 {
            lists.remove(c)
        } else {
            lists.insert(c, r.0)
        };
        expire_list_fits(lists[c], 0, portfolios, wallets) && expire_sells_fits(
            ks,
            i + 1,
            lists2,
            r.1,
            wallets,
        )
    }
}

/// Pulls filled and expiring sell orders from one list.
fn expire_list(list: &Vec<SellOrder>, market: &mut Market) -> (kept: Vec<SellOrder>)
    requires
        expire_list_fits(list@, 0, old(market)@.portfolios, old(market)@.wallets.dom()),
    ensures
        (kept@, final(market)@.portfolios) == expire_list_from(
            list@,
            0,
            Seq::empty(),
            old(market)@.portfolios,
            old(market)@.wallets.dom(),
        ),
        final(market)@.wallets == old(market)@.wallets,
        final(market)@.histories == old(market)@.histories,
{
    let ghost wdom = market@.wallets.dom();
    let ghost goal = expire_list_from(list@, 0, Seq::empty(), market@.portfolios, wdom);
    let mut kept: Vec<SellOrder> = Vec::new();
    let mut k: usize = 0;
    while k < list.len()
        invariant
            0 <= k <= list@.len(),
            wdom == market@.wallets.dom(),
            goal == expire_list_from(list@, k as int, kept@, market@.portfolios, wdom),
            expire_list_fits(list@, k as int, market@.portfolios, wdom),
            market@.wallets == old(market)@.wallets,
            market@.histories == old(market)@.histories,
        decreases list@.len() - k,
    {
        let o = list[k];
        if o.remaining_quantity == 0 {
        } else if o.lifetime > PULL_TIME || !market.wallets.contains_key(&o.seller) {
            let ghost m0 = market@;
            match market.portfolios.remove(&o.seller) {
                Some(mut p) => {
                    p.add_shares(o.company, o.remaining_quantity);
                    market.portfolios.insert(o.seller, p);
                },
                None => {},
            }
            assert(market@.portfolios =~= (if m0.portfolios.contains_key(o.seller) {
                m0.portfolios.insert(
                    o.seller,
                    m0.portfolios[o.seller].insert(
                        o.company,
                        (share_count(m0.portfolios[o.seller], o.company) + o.remaining_quantity) as u64,
                    ),
                )
            } else {
                m0.portfolios
            }));
            assert(market@.wallets =~= m0.wallets);
            assert(market@.histories =~= m0.histories);
        } else {
            kept.push(o);
        }
        k = k + 1;
    }
    kept
}


/// `ks` lists each element of `dom` once.
pub open spec fn key_order(ks: Seq<EntityId>, dom: Set<EntityId>) -> bool {
    ks.to_set() == dom && ks.no_duplicates()
}

/// Pulls filled and expiring sell orders from every company's list, going
/// through the companies in the order the map yields them (see
/// `expire_sells_from`).
fn expire_sell_orders(book: &mut OrderBook, market: &mut Market)
    requires
        forall|ks: Seq<EntityId>|
            key_order(ks, old(book).sell_orders@.dom()) ==> #[trigger] expire_sells_fits(
                ks,
                0,
                sell_lists(old(book).sell_orders@),
                old(market)@.portfolios,
                old(market)@.wallets.dom(),
            ),
    ensures
        exists|ks: Seq<EntityId>|
            key_order(ks, old(book).sell_orders@.dom()) && (
            sell_lists(final(book).sell_orders@),
            final(market)@.portfolios,
        ) == #[trigger] expire_sells_from(
                ks,
                0,
                sell_lists(old(book).sell_orders@),
                old(market)@.portfolios,
                old(market)@.wallets.dom(),
            ),
        final(book).buy_orders@ == old(book).buy_orders@,
        final(market)@.wallets == old(market)@.wallets,
        final(market)@.histories == old(market)@.histories,
{
    let ks = company_keys(&book.sell_orders);
    let ghost wdom = market@.wallets.dom();
    let ghost l0 = sell_lists(book.sell_orders@);
    let ghost goal = expire_sells_from(ks@, 0, l0, market@.portfolios, wdom);
    assert(key_order(ks@, book.sell_orders@.dom()));
    assert(expire_sells_fits(ks@, 0, l0, market@.portfolios, wdom));
    let mut i: usize = 0;
    while i < ks.len()
        invariant
            0 <= i <= ks@.len(),
            ks@.no_duplicates(),
            wdom == market@.wallets.dom(),
            goal == expire_sells_from(ks@, i as int, sell_lists(book.sell_orders@), market@.portfolios, wdom),
            expire_sells_fits(ks@, i as int, sell_lists(book.sell_orders@), market@.portfolios, wdom),
            forall|j: int| i <= j < ks@.len() ==> book.sell_orders@.contains_key(#[trigger] ks@[j]),
            book.buy_orders@ == old(book).buy_orders@,
            market@.wallets == old(market)@.wallets,
            market@.histories == old(market)@.histories,
        decreases ks@.len() - i,
    {
        let c = ks[i];
        let ghost lists = sell_lists(book.sell_orders@);
        assert(book.sell_orders@.contains_key(ks@[i as int]));
        let list = match book.sell_orders.remove(&c) {
            Some(l) => l,
            None => Vec::new(),
        };
        assert(list@ == lists[c]);
        let kept = expire_list(&list, market);
        if kept.len() > 0 {
            book.sell_orders.insert(c, kept);
            assert(sell_lists(book.sell_orders@) =~= lists.insert(c, kept@));
        } else {
            assert(sell_lists(book.sell_orders@) =~= lists.remove(c));
        }
        assert forall|j: int| i + 1 <= j < ks@.len() implies book.sell_orders@.contains_key(
            #[trigger] ks@[j],
        ) by {
            assert(ks@[j] != ks@[i as int]);
        }
        i = i + 1;
    }
}


// ---------------------------------------------------------------------------
// One step of the market
// ---------------------------------------------------------------------------

/// Buy orders, sell lists and trades after the matching stage.
pub open spec fn stage_matched(
    buys: Seq<BuyOrder>,
    sells: Map<EntityId, Seq<SellOrder>>,
    m: MarketState,
    delta: u64,
) -> (Seq<BuyOrder>, Map<EntityId, Seq<SellOrder>>, Seq<Trade>) {
    match_from(buys, sells, 0, delta, m.wallets.dom(), m.portfolios.dom(), Seq::empty())
}

/// The market after the trades of the matching stage are settled.
pub open spec fn stage_settled(
    buys: Seq<BuyOrder>,
    sells: Map<EntityId, Seq<SellOrder>>,
    m: MarketState,
    delta: u64,
) -> MarketState {
    settle_from(m, stage_matched(buys, sells, m, delta).2, 0)
}

/// The buy orders kept and the wallets after expired buy orders are refunded.
pub open spec fn stage_buys_pulled(
    buys: Seq<BuyOrder>,
    sells: Map<EntityId, Seq<SellOrder>>,
    m: MarketState,
    delta: u64,
) -> (Seq<BuyOrder>, Map<EntityId, Wallet>) {
    let m1 = stage_settled(buys, sells, m, delta);
    expire_buys_from(
        stage_matched(buys, sells, m, delta).0,
        0,
        Seq::empty(),
        m1.wallets,
        m1.portfolios.dom(),
    )
}

/// The sell lists after the matching stage, aged by `delta`.
pub open spec fn stage_aged(
    buys: Seq<BuyOrder>,
    sells: Map<EntityId, Seq<SellOrder>>,
    m: MarketState,
    delta: u64,
) -> Map<EntityId, Seq<SellOrder>> {
    aged_lists(stage_matched(buys, sells, m, delta).1, delta)
}

/// Whether a step of the market stays within the number types, whatever
/// order the companies' sell lists are visited in.
pub open spec fn process_fits(
    buys: Seq<BuyOrder>,
    sells: Map<EntityId, Seq<SellOrder>>,
    m: MarketState,
    delta: u64,
) -> bool {
    let r = stage_matched(buys, sells, m, delta);
    let m1 = stage_settled(buys, sells, m, delta);
    &&& buys_can_age(buys, delta)
    &&& sells_can_age(r.1, delta)
    &&& settle_fits(m, r.2, 0)
    &&& expire_buys_fits(r.0, 0, m1.wallets, m1.portfolios.dom())
    &&& forall|ks: Seq<EntityId>|
        key_order(ks, stage_aged(buys, sells, m, delta).dom()) ==> #[trigger] expire_sells_fits(
            ks,
            0,
            stage_aged(buys, sells, m, delta),
            m1.portfolios,
            m1.wallets.dom(),
        )
}

/// One step of the market, `delta` nanoseconds long:
/// 1. every buy order, in the order they came in, ages and is filled from its
///    company's sell orders (see `match_from`);
/// 2. the trades are settled in the order they were made (see `settle_from`);
/// 3. every sell order ages;
/// 4. filled buy orders are dropped and expiring ones refunded (see
///    `expire_buys_from`);
/// 5. filled sell orders are dropped and expiring ones returned to their
///    sellers, company by company in the order the map yields them (see
///    `expire_sells_from`).
pub fn process_orders(delta: u64, order_book: &mut OrderBook, market: &mut Market)
    requires
        process_fits(
            old(order_book).buy_orders@,
            sell_lists(old(order_book).sell_orders@),
            old(market)@,
            delta,
        ),
    ensures
        ({
            let b0 = old(order_book).buy_orders@;
            let s0 = sell_lists(old(order_book).sell_orders@);
            let m0 = old(market)@;
            let m1 = stage_settled(b0, s0, m0, delta);
            let pulled = stage_buys_pulled(b0, s0, m0, delta);
            &&& final(order_book).buy_orders@ == pulled.0
            &&& final(market)@.wallets == pulled.1
            &&& final(market)@.histories == m1.histories
            &&& exists|ks: Seq<EntityId>|
                key_order(ks, stage_aged(b0, s0, m0, delta).dom()) && (
                sell_lists(final(order_book).sell_orders@),
                final(market)@.portfolios,
            ) == #[trigger] expire_sells_from(
                    ks,
                    0,
                    stage_aged(b0, s0, m0, delta),
                    m1.portfolios,
                    m1.wallets.dom(),
                )
        }),
{
    let ghost b0 = order_book.buy_orders@;
    let ghost s0 = sell_lists(order_book.sell_orders@);
    let ghost m0 = market@;
    assert(m0.portfolios.dom() =~= market.portfolios@.dom());
    let trades = match_orders(order_book, market, delta);
    let ghost r = stage_matched(b0, s0, m0, delta);
    assert(order_book.buy_orders@ == r.0);
    assert(sell_lists(order_book.sell_orders@) == r.1);
    assert(trades@ == r.2);
    settle_trades(market, &trades);
    let ghost m1 = market@;
    assert(m1 == stage_settled(b0, s0, m0, delta));
    age_sell_orders(order_book, delta);
    assert(sell_lists(order_book.sell_orders@) == stage_aged(b0, s0, m0, delta));
    expire_buy_orders(order_book, market);
    assert(market@.portfolios == m1.portfolios);
    assert(market@.wallets.dom() =~= m1.wallets.dom()) by {
        lemma_expire_buys_keeps_wallet_owners(r.0, 0, Seq::empty(), m1.wallets, m1.portfolios.dom());
    }
    assert(sell_lists(order_book.sell_orders@).dom() =~= order_book.sell_orders@.dom());
    expire_sell_orders(order_book, market);
}


// ---------------------------------------------------------------------------
// What a step of the market guarantees
// ---------------------------------------------------------------------------

/// A buy order that may stay in the book after a step.
pub open spec fn buy_stays(o: BuyOrder, portfolios: Set<EntityId>) -> bool {
    o.remaining_quantity > 0 && o.lifetime <= PULL_TIME && portfolios.contains(o.buyer)
}

/// A sell order that may stay in the book after a step.
pub open spec fn sell_stays(o: SellOrder, wallets: Set<EntityId>) -> bool {
    o.remaining_quantity > 0 && o.lifetime <= PULL_TIME && wallets.contains(o.seller)
}

proof fn lemma_expire_buys_kept(
    buys: Seq<BuyOrder>,
    k: int,
    kept: Seq<BuyOrder>,
    wallets: Map<EntityId, Wallet>,
    portfolios: Set<EntityId>,
)
    requires
        forall|i: int| 0 <= i < kept.len() ==> buy_stays(#[trigger] kept[i], portfolios),
    ensures
        ({
            let r = expire_buys_from(buys, k, kept, wallets, portfolios).0;
            forall|i: int| 0 <= i < r.len() ==> buy_stays(#[trigger] r[i], portfolios)
        }),
    decreases buys.len() - k,
{
    if k < 0 || k >= buys.len() {
    } else {
        let o = buys[k];
        if o.remaining_quantity == 0 {
            assert(expire_buys_from(buys, k, kept, wallets, portfolios) == expire_buys_from(buys, k + 1, kept, wallets, portfolios));
            lemma_expire_buys_kept(buys, k + 1, kept, wallets, portfolios);
        } else if buy_expires(o, portfolios) {
            let w2 = if wallets.contains_key(o.buyer) {
                wallets.insert(o.buyer, Wallet { balance: (wallets[o.buyer].balance + refund(o)) as i64 })
            } else {
                wallets
            };
            assert(expire_buys_from(buys, k, kept, wallets, portfolios) == expire_buys_from(buys, k + 1, kept, w2, portfolios));
            lemma_expire_buys_kept(buys, k + 1, kept, w2, portfolios);
        } else {
            let k2 = kept.push(o);
            assert forall|i: int| 0 <= i < k2.len() implies buy_stays(#[trigger] k2[i], portfolios) by {
                if i < kept.len() {
                    assert(k2[i] == kept[i]);
                }
            }
            assert(expire_buys_from(buys, k, kept, wallets, portfolios) == expire_buys_from(buys, k + 1, k2, wallets, portfolios));
            lemma_expire_buys_kept(buys, k + 1, k2, wallets, portfolios);
        }
    }
}

proof fn lemma_expire_list_kept(
    list: Seq<SellOrder>,
    k: int,
    kept: Seq<SellOrder>,
    portfolios: Map<EntityId, Map<EntityId, u64>>,
    wallets: Set<EntityId>,
)
    requires
        forall|i: int| 0 <= i < kept.len() ==> sell_stays(#[trigger] kept[i], wallets),
    ensures
        ({
            let r = expire_list_from(list, k, kept, portfolios, wallets).0;
            forall|i: int| 0 <= i < r.len() ==> sell_stays(#[trigger] r[i], wallets)
        }),
    decreases list.len() - k,
{
    if k < 0 || k >= list.len() {
    } else {
        let o = list[k];
        if o.remaining_quantity == 0 {
            assert(expire_list_from(list, k, kept, portfolios, wallets) == expire_list_from(list, k + 1, kept, portfolios, wallets));
            lemma_expire_list_kept(list, k + 1, kept, portfolios, wallets);
        } else if sell_expires(o, wallets) {
            let p2 = if portfolios.contains_key(o.seller) {
                portfolios.insert(
                    o.seller,
                    portfolios[o.seller].insert(
                        o.company,
                        (share_count(portfolios[o.seller], o.company) + o.remaining_quantity) as u64,
                    ),
                )
            } else {
                portfolios
            };
            assert(expire_list_from(list, k, kept, portfolios, wallets) == expire_list_from(list, k + 1, kept, p2, wallets));
            lemma_expire_list_kept(list, k + 1, kept, p2, wallets);
        } else {
            let k2 = kept.push(o);
            assert forall|i: int| 0 <= i < k2.len() implies sell_stays(#[trigger] k2[i], wallets) by {
                if i < kept.len() {
                    assert(k2[i] == kept[i]);
                }
            }
            assert(expire_list_from(list, k, kept, portfolios, wallets) == expire_list_from(list, k + 1, k2, portfolios, wallets));
            lemma_expire_list_kept(list, k + 1, k2, portfolios, wallets);
        }
    }
}

/// Every list of `lists` whose company is among `done` holds only orders
/// that may stay, and is not empty.
pub open spec fn lists_clean(
    lists: Map<EntityId, Seq<SellOrder>>,
    done: Set<EntityId>,
    wallets: Set<EntityId>,
) -> bool {
    forall|c: EntityId|
        #[trigger] lists.contains_key(c) && done.contains(c) ==> lists[c].len() > 0 && forall|i: int|
            0 <= i < lists[c].len() ==> sell_stays(#[trigger] lists[c][i], wallets)
}

proof fn lemma_expire_sells_clean(
    ks: Seq<EntityId>,
    i: int,
    lists: Map<EntityId, Seq<SellOrder>>,
    portfolios: Map<EntityId, Map<EntityId, u64>>,
    wallets: Set<EntityId>,
)
    requires
        0 <= i <= ks.len(),
        ks.no_duplicates(),
        lists.dom().subset_of(ks.to_set()),
        lists_clean(lists, ks.take(i).to_set(), wallets),
    ensures
        ({
            let r = expire_sells_from(ks, i, lists, portfolios, wallets).0;
            &&& r.dom().subset_of(ks.to_set())
            &&& lists_clean(r, ks.to_set(), wallets)
        }),
    decreases ks.len() - i,
{
    if i >= ks.len() {
        assert(ks.take(i) == ks);
    } else {
        let c = ks[i];
        let r = expire_list_from(lists[c], 0, Seq::empty(), portfolios, wallets);
        lemma_expire_list_kept(lists[c], 0, Seq::empty(), portfolios, wallets);
        let lists2 = if r.0.len() == 0 {
            lists.remove(c)
        } else {
            lists.insert(c, r.0)
        };
        let done2 = ks.take(i + 1).to_set();
        assert(ks.take(i + 1) == ks.take(i).push(c));
        ks.take(i).lemma_push_to_set_commute(c);
        assert(done2 == ks.take(i).to_set().insert(c));
        assert(lists2.dom().subset_of(ks.to_set())) by {
            assert(ks.to_set().contains(c));
        }
        lemma_expire_sells_clean(ks, i + 1, lists2, r.1, wallets);
    }
}

/// After a step of the market, every order left in the book still wants
/// shares (or still has shares to sell), has waited at most `PULL_TIME`, and
/// belongs to a buyer with a portfolio (or a seller with a wallet); no
/// company is left with an empty list of sell orders.
pub proof fn lemma_step_leaves_only_live_orders(
    buys: Seq<BuyOrder>,
    sells: Map<EntityId, Seq<SellOrder>>,
    m: MarketState,
    delta: u64,
    ks: Seq<EntityId>,
)
    requires
        key_order(ks, stage_aged(buys, sells, m, delta).dom()),
    ensures
        ({
            let m1 = stage_settled(buys, sells, m, delta);
            let kept = stage_buys_pulled(buys, sells, m, delta).0;
            let lists = expire_sells_from(
                ks,
                0,
                stage_aged(buys, sells, m, delta),
                m1.portfolios,
                m1.wallets.dom(),
            ).0;
            &&& forall|i: int| 0 <= i < kept.len() ==> buy_stays(#[trigger] kept[i], m1.portfolios.dom())
            &&& forall|c: EntityId|
                #[trigger] lists.contains_key(c) ==> lists[c].len() > 0 && forall|i: int|
                    0 <= i < lists[c].len() ==> sell_stays(#[trigger] lists[c][i], m1.wallets.dom())
        }),
{
    let m1 = stage_settled(buys, sells, m, delta);
    let r = stage_matched(buys, sells, m, delta);
    lemma_expire_buys_kept(r.0, 0, Seq::empty(), m1.wallets, m1.portfolios.dom());
    let aged = stage_aged(buys, sells, m, delta);
    assert(ks.take(0).to_set() =~= Set::<EntityId>::empty());
    lemma_expire_sells_clean(ks, 0, aged, m1.portfolios, m1.wallets.dom());
}


/// Every list is sorted by price and holds only orders of its own company.
pub open spec fn lists_wf(m: Map<EntityId, Seq<SellOrder>>) -> bool {
    forall|c: EntityId|
        #[trigger] m.contains_key(c) ==> crate::stock_market::prices_sorted(m[c]) && forall|i: int|
            0 <= i < m[c].len() ==> (#[trigger] m[c][i]).company == c
}

/// Two lists agree in length, and in price and company at every position.
pub open spec fn same_shape(a: Seq<SellOrder>, b: Seq<SellOrder>) -> bool {
    a.len() == b.len() && forall|i: int|
        0 <= i < a.len() ==> (#[trigger] a[i]).price == b[i].price && a[i].company == b[i].company
}

proof fn lemma_fill_same_shape(
    buy: BuyOrder,
    sells: Seq<SellOrder>,
    j: int,
    wallets: Set<EntityId>,
    portfolios: Set<EntityId>,
    trades: Seq<Trade>,
)
    ensures
        same_shape(fill_from(buy, sells, j, wallets, portfolios, trades).1, sells),
    decreases sells.len() - j,
{
    if j < 0 || j >= sells.len() {
    } else {
        let s = sells[j];
        if buy.price < s.price {
        } else if s.remaining_quantity == 0 || !wallets.contains(s.seller) {
            lemma_fill_same_shape(buy, sells, j + 1, wallets, portfolios, trades);
        } else if !portfolios.contains(buy.buyer) {
        } else {
            let q = min_u64(buy.remaining_quantity, s.remaining_quantity);
            let b2 = BuyOrder { remaining_quantity: (buy.remaining_quantity - q) as u64, ..buy };
            let s2 = SellOrder { remaining_quantity: (s.remaining_quantity - q) as u64, ..s };
            let t = Trade {
                company: s.company,
                buyer: buy.buyer,
                seller: s.seller,
                quantity: q,
                price: s.price,
            };
            let u = sells.update(j, s2);
            assert(same_shape(u, sells));
            if b2.remaining_quantity == 0 {
            } else {
                lemma_fill_same_shape(b2, u, j + 1, wallets, portfolios, trades.push(t));
            }
        }
    }
}

proof fn lemma_match_same_shape(
    buys: Seq<BuyOrder>,
    sells: Map<EntityId, Seq<SellOrder>>,
    orig: Map<EntityId, Seq<SellOrder>>,
    i: int,
    delta: u64,
    wallets: Set<EntityId>,
    portfolios: Set<EntityId>,
    trades: Seq<Trade>,
)
    requires
        sells.dom() == orig.dom(),
        forall|c: EntityId| #[trigger] sells.contains_key(c) ==> same_shape(sells[c], orig[c]),
    ensures
        ({
            let r = match_from(buys, sells, i, delta, wallets, portfolios, trades).1;
            &&& r.dom() == orig.dom()
            &&& forall|c: EntityId| #[trigger] r.contains_key(c) ==> same_shape(r[c], orig[c])
        }),
    decreases buys.len() - i,
{
    if i < 0 || i >= buys.len() {
    } else {
        let b = BuyOrder { lifetime: (buys[i].lifetime + delta) as u64, ..buys[i] };
        if !sells.contains_key(b.company) {
            lemma_match_same_shape(buys.update(i, b), sells, orig, i + 1, delta, wallets, portfolios, trades);
        } else {
            let r = fill_from(b, sells[b.company], 0, wallets, portfolios, trades);
            lemma_fill_same_shape(b, sells[b.company], 0, wallets, portfolios, trades);
            let s2 = sells.insert(b.company, r.1);
            assert(s2.dom() =~= orig.dom());
            assert forall|c: EntityId| #[trigger] s2.contains_key(c) implies same_shape(s2[c], orig[c]) by {
                if c == b.company {
                    assert(same_shape(sells[c], orig[c]));
                    assert(same_shape(r.1, sells[c]));
                }
            }
            lemma_match_same_shape(buys.update(i, r.0), s2, orig, i + 1, delta, wallets, portfolios, r.2);
        }
    }
}

proof fn lemma_expire_list_sorted(
    list: Seq<SellOrder>,
    k: int,
    kept: Seq<SellOrder>,
    portfolios: Map<EntityId, Map<EntityId, u64>>,
    wallets: Set<EntityId>,
    c: EntityId,
)
    requires
        0 <= k <= list.len(),
        crate::stock_market::prices_sorted(list),
        crate::stock_market::prices_sorted(kept),
        forall|i: int| 0 <= i < list.len() ==> (#[trigger] list[i]).company == c,
        forall|i: int| 0 <= i < kept.len() ==> (#[trigger] kept[i]).company == c,
        forall|i: int, j: int| 0 <= i < kept.len() && k <= j < list.len() ==> kept[i].price <= list[j].price,
    ensures
        ({
            let r = expire_list_from(list, k, kept, portfolios, wallets).0;
            &&& crate::stock_market::prices_sorted(r)
            &&& forall|i: int| 0 <= i < r.len() ==> (#[trigger] r[i]).company == c
        }),
    decreases list.len() - k,
{
    if k >= list.len() {
    } else {
        let o = list[k];
        if o.remaining_quantity == 0 {
            assert(expire_list_from(list, k, kept, portfolios, wallets) == expire_list_from(list, k + 1, kept, portfolios, wallets));
            lemma_expire_list_sorted(list, k + 1, kept, portfolios, wallets, c);
        } else if sell_expires(o, wallets) {
            let p2 = if portfolios.contains_key(o.seller) {
                portfolios.insert(
                    o.seller,
                    portfolios[o.seller].insert(
                        o.company,
                        (share_count(portfolios[o.seller], o.company) + o.remaining_quantity) as u64,
                    ),
                )
            } else {
                portfolios
            };
            assert(expire_list_from(list, k, kept, portfolios, wallets) == expire_list_from(list, k + 1, kept, p2, wallets));
            lemma_expire_list_sorted(list, k + 1, kept, p2, wallets, c);
        } else {
            let k2 = kept.push(o);
            assert(expire_list_from(list, k, kept, portfolios, wallets) == expire_list_from(list, k + 1, k2, portfolios, wallets));
            assert forall|i: int, j: int| 0 <= i < j < k2.len() implies k2[i].price <= k2[j].price by {
                if j < kept.len() {
                } else {
                    assert(k2[i] == kept[i]);
                }
            }
            assert forall|i: int| 0 <= i < k2.len() implies (#[trigger] k2[i]).company == c by {
                if i < kept.len() {
                    assert(k2[i] == kept[i]);
                }
            }
            assert forall|i: int, j: int| 0 <= i < k2.len() && k + 1 <= j < list.len() implies k2[i].price
                <= list[j].price by {
                if i < kept.len() {
                    assert(k2[i] == kept[i]);
                } else {
                    assert(list[k].price <= list[j].price);
                }
            }
            lemma_expire_list_sorted(list, k + 1, k2, portfolios, wallets, c);
        }
    }
}

proof fn lemma_expire_sells_wf(
    ks: Seq<EntityId>,
    i: int,
    lists: Map<EntityId, Seq<SellOrder>>,
    portfolios: Map<EntityId, Map<EntityId, u64>>,
    wallets: Set<EntityId>,
)
    requires
        lists_wf(lists),
        0 <= i,
        ks.no_duplicates(),
        forall|j: int| i <= j < ks.len() ==> lists.contains_key(#[trigger] ks[j]),
    ensures
        lists_wf(expire_sells_from(ks, i, lists, portfolios, wallets).0),
    decreases ks.len() - i,
{
    if i >= ks.len() {
    } else {
        let c = ks[i];
        let r = expire_list_from(lists[c], 0, Seq::empty(), portfolios, wallets);
        let lists2 = if r.0.len() == 0 {
            lists.remove(c)
        } else {
            lists.insert(c, r.0)
        };
        assert(lists.contains_key(c));
        lemma_expire_list_sorted(lists[c], 0, Seq::empty(), portfolios, wallets, c);
        assert forall|j: int| i + 1 <= j < ks.len() implies lists2.contains_key(#[trigger] ks[j]) by {
            assert(ks[j] != ks[i]);
        }
        lemma_expire_sells_wf(ks, i + 1, lists2, r.1, wallets);
    }
}

/// Sell orders stay sorted by price, and filed under their own company,
/// through a step of the market.
pub proof fn lemma_step_keeps_sell_lists_sorted(
    buys: Seq<BuyOrder>,
    sells: Map<EntityId, Seq<SellOrder>>,
    m: MarketState,
    delta: u64,
    ks: Seq<EntityId>,
)
    requires
        lists_wf(sells),
        key_order(ks, stage_aged(buys, sells, m, delta).dom()),
    ensures
        lists_wf(
            expire_sells_from(
                ks,
                0,
                stage_aged(buys, sells, m, delta),
                stage_settled(buys, sells, m, delta).portfolios,
                stage_settled(buys, sells, m, delta).wallets.dom(),
            ).0,
        ),
{
    let r = stage_matched(buys, sells, m, delta);
    lemma_match_same_shape(buys, sells, sells, 0, delta, m.wallets.dom(), m.portfolios.dom(), Seq::empty());
    let aged = stage_aged(buys, sells, m, delta);
    assert(lists_wf(aged)) by {
        assert forall|c: EntityId| #[trigger] aged.contains_key(c) implies crate::stock_market::prices_sorted(aged[c])
            && forall|i: int| 0 <= i < aged[c].len() ==> (#[trigger] aged[c][i]).company == c by {
            assert(same_shape(r.1[c], sells[c]));
            assert forall|i: int, j: int| 0 <= i < j < aged[c].len() implies aged[c][i].price <= aged[c][j].price by {
                assert(sells[c][i].price <= sells[c][j].price);
            }
            assert forall|i: int| 0 <= i < aged[c].len() implies (#[trigger] aged[c][i]).company == c by {
                assert(sells[c][i].company == c);
            }
        }
    }
    assert forall|j: int| 0 <= j < ks.len() implies aged.contains_key(#[trigger] ks[j]) by {
        assert(ks.to_set().contains(ks[j]));
    }
    let m1 = stage_settled(buys, sells, m, delta);
    lemma_expire_sells_wf(ks, 0, aged, m1.portfolios, m1.wallets.dom());
}


/// Total number of shares traded.
pub open spec fn traded_volume(trades: Seq<Trade>) -> int
    decreases trades.len(),
{
    if trades.len() == 0 {
        0
    } else {
        traded_volume(trades.drop_last()) + trades.last().quantity
    }
}

/// Total number of shares still offered by a list of sell orders.
pub open spec fn offered_volume(sells: Seq<SellOrder>) -> int
    decreases sells.len(),
{
    if sells.len() == 0 {
        0
    } else {
        offered_volume(sells.drop_last()) + sells.last().remaining_quantity
    }
}

proof fn lemma_offered_update(s: Seq<SellOrder>, j: int, x: SellOrder)
    requires
        0 <= j < s.len(),
    ensures
        offered_volume(s.update(j, x)) == offered_volume(s) - s[j].remaining_quantity
            + x.remaining_quantity,
    decreases s.len(),
{
    if j == s.len() - 1 {
        assert(s.update(j, x).drop_last() == s.drop_last());
    } else {
        lemma_offered_update(s.drop_last(), j, x);
        assert(s.update(j, x).drop_last() == s.drop_last().update(j, x));
    }
}

/// Filling a buy order trades exactly what it and the sell orders give up:
/// the shares the buy order still wants fall by the volume traded, the shares
/// the sell orders still offer fall by the same volume, and every trade is
/// made for that buyer at a price no higher than the buy order's limit.
pub proof fn lemma_fill_conserves_shares(
    buy: BuyOrder,
    sells: Seq<SellOrder>,
    j: int,
    wallets: Set<EntityId>,
    portfolios: Set<EntityId>,
    trades: Seq<Trade>,
)
    ensures
        ({
            let r = fill_from(buy, sells, j, wallets, portfolios, trades);
            &&& r.2.len() >= trades.len()
            &&& r.2.subrange(0, trades.len() as int) == trades
            &&& traded_volume(r.2) - traded_volume(trades) == buy.remaining_quantity
                - r.0.remaining_quantity
            &&& offered_volume(sells) - offered_volume(r.1) == buy.remaining_quantity
                - r.0.remaining_quantity
            &&& forall|k: int|
                trades.len() <= k < r.2.len() ==> (#[trigger] r.2[k]).price <= buy.price
                    && r.2[k].buyer == buy.buyer
            &&& r.0.price == buy.price && r.0.buyer == buy.buyer && r.0.company == buy.company
        }),
    decreases sells.len() - j,
{
    if j < 0 || j >= sells.len() {
    } else {
        let s = sells[j];
        if buy.price < s.price {
        } else if s.remaining_quantity == 0 || !wallets.contains(s.seller) {
            lemma_fill_conserves_shares(buy, sells, j + 1, wallets, portfolios, trades);
        } else if !portfolios.contains(buy.buyer) {
        } else {
            let q = min_u64(buy.remaining_quantity, s.remaining_quantity);
            let b2 = BuyOrder { remaining_quantity: (buy.remaining_quantity - q) as u64, ..buy };
            let s2 = SellOrder { remaining_quantity: (s.remaining_quantity - q) as u64, ..s };
            let t = Trade {
                company: s.company,
                buyer: buy.buyer,
                seller: s.seller,
                quantity: q,
                price: s.price,
            };
            let u = sells.update(j, s2);
            let t2 = trades.push(t);
            lemma_offered_update(sells, j, s2);
            assert(t2.drop_last() == trades);
            if b2.remaining_quantity == 0 {
                assert(t2.subrange(0, trades.len() as int) == trades);
            } else {
                lemma_fill_conserves_shares(b2, u, j + 1, wallets, portfolios, t2);
                let r = fill_from(b2, u, j + 1, wallets, portfolios, t2);
                assert(r.2.subrange(0, trades.len() as int) == r.2.subrange(0, t2.len() as int).subrange(
                    0,
                    trades.len() as int,
                ));
                assert forall|k: int| trades.len() <= k < r.2.len() implies (#[trigger] r.2[k]).price
                    <= buy.price && r.2[k].buyer == buy.buyer by {
                    if k == trades.len() {
                        assert(r.2[k] == r.2.subrange(0, t2.len() as int)[k]);
                    }
                }
            }
        }
    }
}

/// Each fill of a buy order against a sell order is a fair one: a sell order
/// gives up shares only when its price is within the buy order's limit, its
/// seller has a wallet and the buyer a portfolio, and then the smaller of the
/// two sides is filled completely (the sell order or the buy order ends with
/// nothing left). Nothing but the remaining quantities changes, and only
/// downwards; orders before the starting position are untouched. A buyer
/// without a portfolio buys nothing at all. Every trade is made with a seller
/// that has a wallet, for the buyer, at no more than the buy order's limit.
pub proof fn lemma_fill_law(
    buy: BuyOrder,
    sells: Seq<SellOrder>,
    j: int,
    wallets: Set<EntityId>,
    portfolios: Set<EntityId>,
    trades: Seq<Trade>,
)
    ensures
        ({
            let r = fill_from(buy, sells, j, wallets, portfolios, trades);
            &&& r.1.len() == sells.len()
            &&& r.0 == BuyOrder { remaining_quantity: r.0.remaining_quantity, ..buy }
            &&& r.0.remaining_quantity <= buy.remaining_quantity
            &&& forall|i: int| 0 <= i < sells.len() && i < j ==> r.1[i] == sells[i]
            &&& forall|i: int|
                0 <= i < sells.len() ==> #[trigger] r.1[i] == SellOrder {
                    remaining_quantity: r.1[i].remaining_quantity,
                    ..sells[i]
                } && r.1[i].remaining_quantity <= sells[i].remaining_quantity
            &&& forall|i: int|
                0 <= i < sells.len() && (#[trigger] r.1[i]).remaining_quantity
                    < sells[i].remaining_quantity ==> {
                    &&& sells[i].price <= buy.price
                    &&& wallets.contains(sells[i].seller)
                    &&& portfolios.contains(buy.buyer)
                    &&& (r.1[i].remaining_quantity == 0 || r.0.remaining_quantity == 0)
                }
            &&& !portfolios.contains(buy.buyer) ==> r == (buy, sells, trades)
            &&& r.2.len() >= trades.len()
            &&& forall|k: int|
                trades.len() <= k < r.2.len() ==> {
                    &&& wallets.contains((#[trigger] r.2[k]).seller)
                    &&& r.2[k].buyer == buy.buyer
                    &&& r.2[k].price <= buy.price
                }
        }),
    decreases sells.len() - j,
{
    if j < 0 || j >= sells.len() {
    } else {
        let s = sells[j];
        if buy.price < s.price {
        } else if s.remaining_quantity == 0 || !wallets.contains(s.seller) {
            lemma_fill_law(buy, sells, j + 1, wallets, portfolios, trades);
        } else if !portfolios.contains(buy.buyer) {
        } else {
            let q = min_u64(buy.remaining_quantity, s.remaining_quantity);
            let b2 = BuyOrder { remaining_quantity: (buy.remaining_quantity - q) as u64, ..buy };
            let s2 = SellOrder { remaining_quantity: (s.remaining_quantity - q) as u64, ..s };
            let t = Trade {
                company: s.company,
                buyer: buy.buyer,
                seller: s.seller,
                quantity: q,
                price: s.price,
            };
            let u = sells.update(j, s2);
            let t2 = trades.push(t);
            if b2.remaining_quantity == 0 {
                let r = fill_from(buy, sells, j, wallets, portfolios, trades);
                assert(r == (b2, u, t2));
                assert forall|i: int|
                    0 <= i < sells.len() && (#[trigger] r.1[i]).remaining_quantity
                        < sells[i].remaining_quantity implies {
                        &&& sells[i].price <= buy.price
                        &&& wallets.contains(sells[i].seller)
                        &&& portfolios.contains(buy.buyer)
                        &&& (r.1[i].remaining_quantity == 0 || r.0.remaining_quantity == 0)
                    } by {
                    assert(i == j);
                }
            } else {
                lemma_fill_law(b2, u, j + 1, wallets, portfolios, t2);
                let r = fill_from(b2, u, j + 1, wallets, portfolios, t2);
                assert(fill_from(buy, sells, j, wallets, portfolios, trades) == r);
                assert(s2.remaining_quantity == 0);
                assert forall|i: int|
                    0 <= i < sells.len() implies #[trigger] r.1[i] == SellOrder {
                        remaining_quantity: r.1[i].remaining_quantity,
                        ..sells[i]
                    } && r.1[i].remaining_quantity <= sells[i].remaining_quantity by {
                    assert(r.1[i] == SellOrder { remaining_quantity: r.1[i].remaining_quantity, ..u[i] });
                }
                assert forall|i: int|
                    0 <= i < sells.len() && (#[trigger] r.1[i]).remaining_quantity
                        < sells[i].remaining_quantity implies {
                        &&& sells[i].price <= buy.price
                        &&& wallets.contains(sells[i].seller)
                        &&& portfolios.contains(buy.buyer)
                        &&& (r.1[i].remaining_quantity == 0 || r.0.remaining_quantity == 0)
                    } by {
                    if i == j {
                        assert(r.1[i] == u[i]);
                    } else {
                        assert(u[i] == sells[i]);
                    }
                }
                assert forall|k: int| trades.len() <= k < r.2.len() implies {
                    &&& wallets.contains((#[trigger] r.2[k]).seller)
                    &&& r.2[k].buyer == buy.buyer
                    &&& r.2[k].price <= buy.price
                } by {
                    if k == trades.len() {
                        lemma_fill_conserves_shares(b2, u, j + 1, wallets, portfolios, t2);
                        assert(r.2.subrange(0, t2.len() as int)[k] == r.2[k]);
                    }
                }
            }
        }
    }
}

/// What settling a trade does: the buyer's portfolio (if any) gains exactly
/// the shares traded of that company, the seller's wallet (if any) gains the
/// credit, which is quantity times price whenever the quantity fits a signed
/// 64-bit number, and the company's price history (if any) records the trade.
/// Every other wallet (the buyer's too, when the buyer is not the seller),
/// every other holding and every other history is untouched, and no owner
/// appears or disappears.
pub proof fn lemma_settle_law(m: MarketState, t: Trade)
    requires
        trade_fits(m, t),
    ensures
        ({
            let m2 = settle_trade(m, t);
            &&& m2.wallets.dom() == m.wallets.dom()
            &&& m2.portfolios.dom() == m.portfolios.dom()
            &&& m2.histories.dom() == m.histories.dom()
            &&& m.portfolios.contains_key(t.buyer) ==> share_count(m2.portfolios[t.buyer], t.company)
                == share_count(m.portfolios[t.buyer], t.company) + t.quantity
            &&& forall|who: EntityId, c: EntityId|
                m.portfolios.contains_key(who) && (who != t.buyer || c != t.company)
                    ==> #[trigger] share_count(m2.portfolios[who], c) == share_count(m.portfolios[who], c)
            &&& m.wallets.contains_key(t.seller) ==> m2.wallets[t.seller].balance
                == m.wallets[t.seller].balance + credit(t)
            &&& forall|who: EntityId|
                #[trigger] m.wallets.contains_key(who) && who != t.seller ==> m2.wallets[who]
                    == m.wallets[who]
            &&& t.quantity <= i64::MAX ==> credit(t) == t.quantity * t.price
            &&& m.histories.contains_key(t.company) ==> m2.histories[t.company].entries
                == spec_history_push(
                m.histories[t.company].entries,
                BuyOrderBrief { quantity: t.quantity, price: t.price },
            )
            &&& forall|c: EntityId|
                #[trigger] m.histories.contains_key(c) && c != t.company ==> m2.histories[c]
                    == m.histories[c]
        }),
{
    let m2 = settle_trade(m, t);
    assert(m2.wallets.dom() =~= m.wallets.dom());
    assert(m2.portfolios.dom() =~= m.portfolios.dom());
    assert(m2.histories.dom() =~= m.histories.dom());
    assert forall|who: EntityId, c: EntityId|
        m.portfolios.contains_key(who) && (who != t.buyer || c != t.company) implies #[trigger] share_count(
        m2.portfolios[who],
        c,
    ) == share_count(m.portfolios[who], c) by {
        if who == t.buyer {
            assert(m2.portfolios[who] == m.portfolios[who].insert(
                t.company,
                (share_count(m.portfolios[t.buyer], t.company) + t.quantity) as u64,
            ));
        }
    }
}

/// What pulling buy orders refunds to `who`: the refunds of the orders from
/// position `k` on that are theirs, still want shares, and expire.
pub open spec fn refunds_to(buys: Seq<BuyOrder>, k: int, who: EntityId, portfolios: Set<EntityId>) -> int
    decreases buys.len() - k,
{
    if k < 0 || k >= buys.len() {
        0
    } else {
        let o = buys[k];
        (if o.buyer == who && o.remaining_quantity > 0 && buy_expires(o, portfolios) {
            refund(o)
        } else {
            0
        }) + refunds_to(buys, k + 1, who, portfolios)
    }
}

/// The buy orders from position `k` on that stay in the book: those that
/// still want shares and do not expire, in order.
pub open spec fn live_buys(buys: Seq<BuyOrder>, k: int, portfolios: Set<EntityId>) -> Seq<BuyOrder>
    decreases buys.len() - k,
{
    if k < 0 || k >= buys.len() {
        Seq::empty()
    } else {
        let o = buys[k];
        let rest = live_buys(buys, k + 1, portfolios);
        if o.remaining_quantity > 0 && !buy_expires(o, portfolios) {
            seq![o] + rest
        } else {
            rest
        }
    }
}

proof fn lemma_expire_buys_law_from(
    buys: Seq<BuyOrder>,
    k: int,
    kept: Seq<BuyOrder>,
    wallets: Map<EntityId, Wallet>,
    portfolios: Set<EntityId>,
)
    requires
        expire_buys_fits(buys, k, wallets, portfolios),
    ensures
        ({
            let r = expire_buys_from(buys, k, kept, wallets, portfolios);
            &&& r.0 == kept + live_buys(buys, k, portfolios)
            &&& r.1.dom() == wallets.dom()
            &&& forall|who: EntityId|
                #[trigger] wallets.contains_key(who) ==> r.1[who].balance == wallets[who].balance
                    + refunds_to(buys, k, who, portfolios)
        }),
    decreases buys.len() - k,
{
    if k < 0 || k >= buys.len() {
        assert(kept + Seq::<BuyOrder>::empty() == kept);
    } else {
        let o = buys[k];
        if o.remaining_quantity == 0 {
            lemma_expire_buys_law_from(buys, k + 1, kept, wallets, portfolios);
        } else if buy_expires(o, portfolios) {
            let w2 = if wallets.contains_key(o.buyer) {
                wallets.insert(o.buyer, Wallet { balance: (wallets[o.buyer].balance + refund(o)) as i64 })
            } else {
                wallets
            };
            lemma_expire_buys_law_from(buys, k + 1, kept, w2, portfolios);
            assert(w2.dom() =~= wallets.dom());
        } else {
            lemma_expire_buys_law_from(buys, k + 1, kept.push(o), wallets, portfolios);
            assert(kept.push(o) + live_buys(buys, k + 1, portfolios) =~= kept + (seq![o] + live_buys(
                buys,
                k + 1,
                portfolios,
            )));
        }
    }
}

/// Pulling buy orders keeps exactly the orders that still want shares and do
/// not expire, in order, and pays every wallet owner back the refunds of
/// their own expiring orders, nothing more; no wallet appears or disappears.
/// Orders whose buyer has no wallet are dropped without a refund.
pub proof fn lemma_pull_buys_law(
    buys: Seq<BuyOrder>,
    wallets: Map<EntityId, Wallet>,
    portfolios: Set<EntityId>,
)
    requires
        expire_buys_fits(buys, 0, wallets, portfolios),
    ensures
        ({
            let r = expire_buys_from(buys, 0, Seq::empty(), wallets, portfolios);
            &&& r.0 == live_buys(buys, 0, portfolios)
            &&& r.1.dom() == wallets.dom()
            &&& forall|who: EntityId|
                #[trigger] wallets.contains_key(who) ==> r.1[who].balance == wallets[who].balance
                    + refunds_to(buys, 0, who, portfolios)
        }),
{
    lemma_expire_buys_law_from(buys, 0, Seq::empty(), wallets, portfolios);
    assert(Seq::<BuyOrder>::empty() + live_buys(buys, 0, portfolios) =~= live_buys(buys, 0, portfolios));
}

/// What pulling sell orders gives back to `who` of `company`: the unsold
/// shares of the orders from position `k` on that are theirs, of that
/// company, still offer shares, and expire.
pub open spec fn returned_to(
    list: Seq<SellOrder>,
    k: int,
    who: EntityId,
    company: EntityId,
    wallets: Set<EntityId>,
) -> int
    decreases list.len() - k,
{
    if k < 0 || k >= list.len() {
        0
    } else {
        let o = list[k];
        (if o.seller == who && o.company == company && o.remaining_quantity > 0 && sell_expires(
            o,
            wallets,
        ) {
            o.remaining_quantity as int
        } else {
            0
        }) + returned_to(list, k + 1, who, company, wallets)
    }
}

/// The sell orders from position `k` on that stay in the book: those that
/// still offer shares and do not expire, in order.
pub open spec fn live_sells(list: Seq<SellOrder>, k: int, wallets: Set<EntityId>) -> Seq<SellOrder>
    decreases list.len() - k,
{
    if k < 0 || k >= list.len() {
        Seq::empty()
    } else {
        let o = list[k];
        let rest = live_sells(list, k + 1, wallets);
        if o.remaining_quantity > 0 && !sell_expires(o, wallets) {
            seq![o] + rest
        } else {
            rest
        }
    }
}

proof fn lemma_expire_list_law_from(
    list: Seq<SellOrder>,
    k: int,
    kept: Seq<SellOrder>,
    portfolios: Map<EntityId, Map<EntityId, u64>>,
    wallets: Set<EntityId>,
)
    requires
        expire_list_fits(list, k, portfolios, wallets),
    ensures
        ({
            let r = expire_list_from(list, k, kept, portfolios, wallets);
            &&& r.0 == kept + live_sells(list, k, wallets)
            &&& r.1.dom() == portfolios.dom()
            &&& forall|who: EntityId, c: EntityId|
                portfolios.contains_key(who) ==> #[trigger] share_count(r.1[who], c) == share_count(
                    portfolios[who],
                    c,
                ) + returned_to(list, k, who, c, wallets)
        }),
    decreases list.len() - k,
{
    if k < 0 || k >= list.len() {
        assert(kept + Seq::<SellOrder>::empty() == kept);
    } else {
        let o = list[k];
        if o.remaining_quantity == 0 {
            lemma_expire_list_law_from(list, k + 1, kept, portfolios, wallets);
        } else if sell_expires(o, wallets) {
            let p2 = if portfolios.contains_key(o.seller) {
                portfolios.insert(
                    o.seller,
                    portfolios[o.seller].insert(
                        o.company,
                        (share_count(portfolios[o.seller], o.company) + o.remaining_quantity) as u64,
                    ),
                )
            } else {
                portfolios
            };
            lemma_expire_list_law_from(list, k + 1, kept, p2, wallets);
            assert(p2.dom() =~= portfolios.dom());
            let r = expire_list_from(list, k, kept, portfolios, wallets);
            assert forall|who: EntityId, c: EntityId|
                portfolios.contains_key(who) implies #[trigger] share_count(r.1[who], c) == share_count(
                portfolios[who],
                c,
            ) + returned_to(list, k, who, c, wallets) by {
                assert(share_count(r.1[who], c) == share_count(p2[who], c) + returned_to(
                    list,
                    k + 1,
                    who,
                    c,
                    wallets,
                ));
            }
        } else {
            lemma_expire_list_law_from(list, k + 1, kept.push(o), portfolios, wallets);
            assert(kept.push(o) + live_sells(list, k + 1, wallets) =~= kept + (seq![o] + live_sells(
                list,
                k + 1,
                wallets,
            )));
        }
    }
}

/// Pulling a company's sell orders keeps exactly the orders that still offer
/// shares and do not expire, in order, and gives every portfolio owner back
/// the unsold shares of their own expiring orders, nothing more; no
/// portfolio appears or disappears. Orders whose seller has no portfolio are
/// dropped and their shares are lost.
pub proof fn lemma_pull_sells_law(
    list: Seq<SellOrder>,
    portfolios: Map<EntityId, Map<EntityId, u64>>,
    wallets: Set<EntityId>,
)
    requires
        expire_list_fits(list, 0, portfolios, wallets),
    ensures
        ({
            let r = expire_list_from(list, 0, Seq::empty(), portfolios, wallets);
            &&& r.0 == live_sells(list, 0, wallets)
            &&& r.1.dom() == portfolios.dom()
            &&& forall|who: EntityId, c: EntityId|
                portfolios.contains_key(who) ==> #[trigger] share_count(r.1[who], c) == share_count(
                    portfolios[who],
                    c,
                ) + returned_to(list, 0, who, c, wallets)
        }),
{
    lemma_expire_list_law_from(list, 0, Seq::empty(), portfolios, wallets);
    assert(Seq::<SellOrder>::empty() + live_sells(list, 0, wallets) =~= live_sells(list, 0, wallets));
}

/// A list none of whose orders is of `company` gives nothing back of it.
proof fn lemma_returned_elsewhere(
    list: Seq<SellOrder>,
    k: int,
    who: EntityId,
    company: EntityId,
    wallets: Set<EntityId>,
)
    requires
        forall|n: int| 0 <= n < list.len() ==> (#[trigger] list[n]).company != company,
    ensures
        returned_to(list, k, who, company, wallets) == 0,
    decreases list.len() - k,
{
    if 0 <= k < list.len() {
        lemma_returned_elsewhere(list, k + 1, who, company, wallets);
    }
}

proof fn lemma_pull_all_sells_from(
    ks: Seq<EntityId>,
    i: int,
    lists: Map<EntityId, Seq<SellOrder>>,
    portfolios: Map<EntityId, Map<EntityId, u64>>,
    wallets: Set<EntityId>,
    orig: Map<EntityId, Seq<SellOrder>>,
)
    requires
        0 <= i <= ks.len(),
        ks.no_duplicates(),
        forall|j: int|
            i <= j < ks.len() ==> lists.contains_key(#[trigger] ks[j]) && lists[ks[j]] == orig[ks[j]],
        forall|j: int, n: int|
            i <= j < ks.len() && 0 <= n < orig[ks[j]].len() ==> (#[trigger] orig[#[trigger] ks[j]][n]).company
                == ks[j],
        expire_sells_fits(ks, i, lists, portfolios, wallets),
    ensures
        ({
            let r = expire_sells_from(ks, i, lists, portfolios, wallets);
            &&& r.1.dom() == portfolios.dom()
            &&& forall|j: int|
                i <= j < ks.len() ==> (r.0.contains_key(#[trigger] ks[j]) <==> live_sells(
                    orig[ks[j]],
                    0,
                    wallets,
                ).len() > 0) && (r.0.contains_key(ks[j]) ==> r.0[ks[j]] == live_sells(
                    orig[ks[j]],
                    0,
                    wallets,
                ))
            &&& forall|c: EntityId|
                !(#[trigger] ks.subrange(i, ks.len() as int).contains(c)) ==> r.0.contains_key(c)
                    == lists.contains_key(c) && (lists.contains_key(c) ==> r.0[c] == lists[c])
            &&& forall|who: EntityId, j: int|
                portfolios.contains_key(who) && i <= j < ks.len() ==> #[trigger] share_count(
                    r.1[who],
                    #[trigger] ks[j],
                ) == share_count(portfolios[who], ks[j]) + returned_to(
                    orig[ks[j]],
                    0,
                    who,
                    ks[j],
                    wallets,
                )
            &&& forall|who: EntityId, c: EntityId|
                portfolios.contains_key(who) && !ks.subrange(i, ks.len() as int).contains(c)
                    ==> #[trigger] share_count(r.1[who], c) == share_count(portfolios[who], c)
        }),
    decreases ks.len() - i,
{
    if i < ks.len() {
        let c = ks[i];
        assert(lists.contains_key(ks[i]) && lists[ks[i]] == orig[ks[i]]);
        let rl = expire_list_from(lists[c], 0, Seq::empty(), portfolios, wallets);
        assert(expire_list_fits(lists[c], 0, portfolios, wallets));
        lemma_pull_sells_law(lists[c], portfolios, wallets);
        let lists2 = if rl.0.len() == 0 {
            lists.remove(c)
        } else {
            lists.insert(c, rl.0)
        };
        assert forall|j: int| i + 1 <= j < ks.len() implies lists2.contains_key(#[trigger] ks[j])
            && lists2[ks[j]] == orig[ks[j]] by {
            assert(ks[j] != ks[i]);
            assert(lists.contains_key(ks[j]) && lists[ks[j]] == orig[ks[j]]);
        }
        lemma_pull_all_sells_from(ks, i + 1, lists2, rl.1, wallets, orig);
        let r = expire_sells_from(ks, i, lists, portfolios, wallets);
        assert(r == expire_sells_from(ks, i + 1, lists2, rl.1, wallets));
        assert(!ks.subrange(i + 1, ks.len() as int).contains(c)) by {
            let sub = ks.subrange(i + 1, ks.len() as int);
            if sub.contains(c) {
                let w = choose|w: int| 0 <= w < sub.len() && #[trigger] sub[w] == c;
                assert(ks[i + 1 + w] == ks[i]);
            }
        }
        assert forall|c2: EntityId|
            !(#[trigger] ks.subrange(i, ks.len() as int).contains(c2)) implies !ks.subrange(
            i + 1,
            ks.len() as int,
        ).contains(c2) && c2 != c by {
            let sub = ks.subrange(i + 1, ks.len() as int);
            if sub.contains(c2) {
                let w = choose|w: int| 0 <= w < sub.len() && #[trigger] sub[w] == c2;
                assert(ks.subrange(i, ks.len() as int)[w + 1] == c2);
            }
            assert(ks.subrange(i, ks.len() as int)[0] == c);
        }
        assert forall|j: int|
            i <= j < ks.len() implies (r.0.contains_key(#[trigger] ks[j]) <==> live_sells(
            orig[ks[j]],
            0,
            wallets,
        ).len() > 0) && (r.0.contains_key(ks[j]) ==> r.0[ks[j]] == live_sells(
            orig[ks[j]],
            0,
            wallets,
        )) by {
            if j == i {
                assert(rl.0 == live_sells(lists[c], 0, wallets));
            }
        }
        assert forall|who: EntityId, j: int|
            portfolios.contains_key(who) && i <= j < ks.len() implies #[trigger] share_count(
            r.1[who],
            #[trigger] ks[j],
        ) == share_count(portfolios[who], ks[j]) + returned_to(
            orig[ks[j]],
            0,
            who,
            ks[j],
            wallets,
        ) by {
            assert(rl.1.contains_key(who));
            if j == i {
                assert(share_count(r.1[who], c) == share_count(rl.1[who], c));
            } else {
                assert(ks[j] != c);
                assert forall|n: int| 0 <= n < lists[c].len() implies (#[trigger] lists[c][n]).company
                    != ks[j] by {
                    assert(orig[ks[i]][n].company == ks[i]);
                }
                lemma_returned_elsewhere(lists[c], 0, who, ks[j], wallets);
                assert(share_count(rl.1[who], ks[j]) == share_count(portfolios[who], ks[j]));
            }
        }
        assert forall|who: EntityId, c2: EntityId|
            portfolios.contains_key(who) && !ks.subrange(i, ks.len() as int).contains(c2)
                implies #[trigger] share_count(r.1[who], c2) == share_count(portfolios[who], c2) by {
            assert(!ks.subrange(i + 1, ks.len() as int).contains(c2) && c2 != c);
            assert(rl.1.contains_key(who));
            assert forall|n: int| 0 <= n < lists[c].len() implies (#[trigger] lists[c][n]).company
                != c2 by {
                assert(orig[ks[i]][n].company == ks[i]);
            }
            lemma_returned_elsewhere(lists[c], 0, who, c2, wallets);
        }
    }
}

/// Pulling sell orders from the whole book, company by company in the
/// order the map yields them: every company keeps exactly its orders that
/// still offer shares and do not expire, in order, and loses its list when
/// none is left; no list appears; every portfolio owner gets back, of each
/// company, the unsold shares of their own expiring orders of it, nothing
/// more; no portfolio appears or disappears.
pub proof fn lemma_pull_all_sells_law(
    ks: Seq<EntityId>,
    lists: Map<EntityId, Seq<SellOrder>>,
    portfolios: Map<EntityId, Map<EntityId, u64>>,
    wallets: Set<EntityId>,
)
    requires
        key_order(ks, lists.dom()),
        lists_wf(lists),
        expire_sells_fits(ks, 0, lists, portfolios, wallets),
    ensures
        ({
            let r = expire_sells_from(ks, 0, lists, portfolios, wallets);
            &&& r.1.dom() == portfolios.dom()
            &&& forall|c: EntityId|
                #[trigger] lists.contains_key(c) ==> (r.0.contains_key(c) <==> live_sells(
                    lists[c],
                    0,
                    wallets,
                ).len() > 0) && (r.0.contains_key(c) ==> r.0[c] == live_sells(lists[c], 0, wallets))
            &&& forall|c: EntityId| !lists.contains_key(c) ==> !#[trigger] r.0.contains_key(c)
            &&& forall|who: EntityId, c: EntityId|
                portfolios.contains_key(who) ==> #[trigger] share_count(r.1[who], c) == share_count(
                    portfolios[who],
                    c,
                ) + if lists.contains_key(c) {
                    returned_to(lists[c], 0, who, c, wallets)
                } else {
                    0
                }
        }),
{
    assert forall|j: int| 0 <= j < ks.len() implies lists.contains_key(#[trigger] ks[j]) && lists[ks[j]]
        == lists[ks[j]] by {
        assert(ks.to_set().contains(ks[j]));
    }
    lemma_pull_all_sells_from(ks, 0, lists, portfolios, wallets, lists);
    let r = expire_sells_from(ks, 0, lists, portfolios, wallets);
    assert(ks.subrange(0, ks.len() as int) == ks);
    assert forall|c: EntityId| #[trigger] lists.contains_key(c) implies (r.0.contains_key(c)
        <==> live_sells(lists[c], 0, wallets).len() > 0) && (r.0.contains_key(c) ==> r.0[c]
        == live_sells(lists[c], 0, wallets)) by {
        assert(ks.to_set().contains(c));
        let j = choose|j: int| 0 <= j < ks.len() && ks[j] == c;
        assert(ks[j] == c);
    }
    assert forall|c: EntityId| !lists.contains_key(c) implies !#[trigger] r.0.contains_key(c) by {
        assert(!ks.to_set().contains(c));
        assert(!ks.contains(c));
    }
    assert forall|who: EntityId, c: EntityId| portfolios.contains_key(who) implies #[trigger] share_count(
        r.1[who],
        c,
    ) == share_count(portfolios[who], c) + if lists.contains_key(c) {
        returned_to(lists[c], 0, who, c, wallets)
    } else {
        0
    } by {
        if lists.contains_key(c) {
            assert(ks.to_set().contains(c));
            let j = choose|j: int| 0 <= j < ks.len() && ks[j] == c;
            assert(share_count(r.1[who], ks[j]) == share_count(portfolios[who], ks[j]) + returned_to(
                lists[ks[j]],
                0,
                who,
                ks[j],
                wallets,
            ));
        } else {
            assert(!ks.to_set().contains(c));
            assert(!ks.contains(c));
        }
    }
}

} // verus!
