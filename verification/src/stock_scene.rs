//! What the stock screen shows of the market and what its controls do: the
//! best bid and ask of a company, the lists of open orders, the price and
//! quantity inputs, the buy/sell mode and placing the player's order.
use vstd::prelude::*;

use crate::money::Wallet;
use crate::stock_market::share_count;
use crate::stock_market::sell_added;
use crate::stock_market::sell_lists_wf;
use crate::stock_market::BuyOrder;
use crate::stock_market::BuyOrderBrief;
use crate::stock_market::EntityId;
use crate::stock_market::NewOrder;
use crate::stock_market::OrderBook;
use crate::stock_market::SellOrder;
use crate::stock_market::SharePortfolio;
use crate::rounding::{
    f32_times_ceil, float_times, F32_HUNDREDTH, F32_HUNDREDTH_SCALE, F32_TWENTIETH,
    F32_TWENTIETH_SCALE,
};
use crate::Money;

verus! {

// ---------------------------------------------------------------------------
// Best bid and ask
// ---------------------------------------------------------------------------

/// The highest price among the buy orders for `company` in the first `n` of `s`.
pub open spec fn top_bid_price(s: Seq<BuyOrder>, company: EntityId, n: int) -> Option<Money>
    decreases n,
{
    if n <= 0 {
        None
    } else {
        let rest = top_bid_price(s, company, n - 1);
        let o = s[n - 1];
        if o.company != company {
            rest
        } else {
            match rest {
                Some(p) => if o.price > p {
                    Some(o.price)
                } else {
                    Some(p)
                },
                None => Some(o.price),
            }
        }
    }
}

/// Shares still wanted by the buy orders for `company` priced exactly `price`
/// among the first `n` of `s`.
pub open spec fn bid_volume(s: Seq<BuyOrder>, company: EntityId, price: Money, n: int) -> int
    decreases n,
{
    if n <= 0 {
        0
    } else {
        bid_volume(s, company, price, n - 1) + if s[n - 1].company == company && s[n - 1].price
            == price {
            s[n - 1].remaining_quantity as int
        } else {
            0
        }
    }
}

/// The best bid for `company`: the highest price offered and the shares still
/// wanted at that price.
pub open spec fn spec_best_bid(s: Seq<BuyOrder>, company: EntityId) -> Option<BuyOrderBrief> {
    match top_bid_price(s, company, s.len() as int) {
        Some(p) => Some(
            BuyOrderBrief { quantity: bid_volume(s, company, p, s.len() as int) as u64, price: p },
        ),
        None => None,
    }
}

/// No price level of `company`'s bids holds more shares than a `u64` counts.
pub open spec fn bid_volumes_fit(s: Seq<BuyOrder>, company: EntityId) -> bool {
    forall|p: Money| #[trigger] bid_volume(s, company, p, s.len() as int) <= u64::MAX
}

proof fn lemma_bid_volume_facts(s: Seq<BuyOrder>, company: EntityId, price: Money, n: int, m: int)
    requires
        0 <= n <= m <= s.len(),
    ensures
        0 <= bid_volume(s, company, price, n) <= bid_volume(s, company, price, m),
        top_bid_price(s, company, n) is None ==> bid_volume(s, company, price, n) == 0,
        top_bid_price(s, company, n) matches Some(t) && price > t ==> bid_volume(
            s,
            company,
            price,
            n,
        ) == 0,
    decreases m,
{
    if m > n {
        lemma_bid_volume_facts(s, company, price, n, m - 1);
    } else if n > 0 {
        lemma_bid_volume_facts(s, company, price, n - 1, n - 1);
    }
}

/// All the shares still wanted by the buy orders for `company` among the
/// first `n` of `s`, whatever their price.
pub open spec fn wanted_by_company(s: Seq<BuyOrder>, company: EntityId, n: int) -> int
    decreases n,
{
    if n <= 0 {
        0
    } else {
        let o = s[n - 1];
        let left: int = if o.company == company {
            o.remaining_quantity as int
        } else {
            0
        };
        wanted_by_company(s, company, n - 1) + left
    }
}

proof fn lemma_bid_volume_within_wanted(s: Seq<BuyOrder>, company: EntityId, price: Money, n: int)
    requires
        0 <= n <= s.len(),
    ensures
        0 <= bid_volume(s, company, price, n) <= wanted_by_company(s, company, n),
    decreases n,
{
    if n > 0 {
        lemma_bid_volume_within_wanted(s, company, price, n - 1);
    }
}

proof fn lemma_top_bid_is_a_bid(s: Seq<BuyOrder>, company: EntityId, n: int)
    requires
        0 <= n <= s.len(),
    ensures
        top_bid_price(s, company, n) matches Some(p) ==> exists|k: int|
            0 <= k < n && (#[trigger] s[k]).company == company && s[k].price == p,
        forall|k: int|
            0 <= k < n && (#[trigger] s[k]).company == company ==> (top_bid_price(s, company, n) matches Some(
                p,
            ) && s[k].price <= p),
    decreases n,
{
    if n > 0 {
        lemma_top_bid_is_a_bid(s, company, n - 1);
        let o = s[n - 1];
        if o.company == company {
            assert(s[n - 1].company == company);
        }
    }
}

/// The best bid counts the shares still wanted, not those first ordered: its
/// quantity is at most all the shares still wanted by the company's buy
/// orders (orders with nothing left add nothing), and none when no order
/// wants any. Its price is that of one of the company's buy orders, and no
/// buy order for the company bids more; there is a best bid exactly when
/// the company has a buy order.
pub proof fn lemma_best_bid_counts_what_is_left(s: Seq<BuyOrder>, company: EntityId)
    requires
        bid_volumes_fit(s, company),
    ensures
        spec_best_bid(s, company) matches Some(b) ==> b.quantity <= wanted_by_company(
            s,
            company,
            s.len() as int,
        ),
        spec_best_bid(s, company) matches Some(b) ==> exists|k: int|
            0 <= k < s.len() && (#[trigger] s[k]).company == company && s[k].price == b.price,
        spec_best_bid(s, company) matches Some(b) ==> forall|k: int|
            0 <= k < s.len() && (#[trigger] s[k]).company == company ==> s[k].price <= b.price,
        spec_best_bid(s, company) is None <==> forall|k: int|
            0 <= k < s.len() ==> (#[trigger] s[k]).company != company,
{
    lemma_top_bid_is_a_bid(s, company, s.len() as int);
    match top_bid_price(s, company, s.len() as int) {
        Some(p) => {
            lemma_bid_volume_within_wanted(s, company, p, s.len() as int);
            assert(bid_volume(s, company, p, s.len() as int) <= u64::MAX);
        },
        None => {},
    }
}

/// The best bid for `company` (see `spec_best_bid`).
pub fn best_bid(orders: &Vec<BuyOrder>, company: EntityId) -> (r: Option<BuyOrderBrief>)
    requires
        bid_volumes_fit(orders@, company),
    ensures
        r == spec_best_bid(orders@, company),
{
    let ghost s = orders@;
    let mut found: Option<BuyOrderBrief> = None;
    let mut i: usize = 0;
    while i < orders.len()
        invariant
            0 <= i <= s.len(),
            s == orders@,
            bid_volumes_fit(s, company),
            found == match top_bid_price(s, company, i as int) {
                Some(p) => Some(
                    BuyOrderBrief { quantity: bid_volume(s, company, p, i as int) as u64, price: p },
                ),
                None => None,
            },
            found matches Some(b) ==> b.quantity == bid_volume(s, company, b.price, i as int),
        decreases s.len() - i,
    {
        let o = orders[i];
        proof {
            lemma_bid_volume_facts(s, company, o.price, i as int, i as int);
            lemma_bid_volume_facts(s, company, o.price, i + 1, s.len() as int);
            assert(bid_volume(s, company, o.price, s.len() as int) <= u64::MAX);
        }
        if o.company == company {
            match found {
                Some(prev) => {
                    if o.price == prev.price {
                        found = Some(
                            BuyOrderBrief {
                                quantity: prev.quantity + o.remaining_quantity,
                                price: prev.price,
                            },
                        );
                    } else if o.price > prev.price {
                        found = Some(
                            BuyOrderBrief { quantity: o.remaining_quantity, price: o.price },
                        );
                    }
                },
                None => {
                    found = Some(BuyOrderBrief { quantity: o.remaining_quantity, price: o.price });
                },
            }
        }
        i = i + 1;
    }
    found
}

/// The remaining shares of the first `n` sell orders.
pub open spec fn remaining_sum(s: Seq<SellOrder>, n: int) -> int
    decreases n,
{
    if n <= 0 {
        0
    } else {
        remaining_sum(s, n - 1) + s[n - 1].remaining_quantity
    }
}

/// The first `k` orders form the run of orders at the first order's price.
pub open spec fn leading_run(s: Seq<SellOrder>, k: int) -> bool {
    &&& 0 < k <= s.len()
    &&& forall|j: int| 0 <= j < k ==> #[trigger] s[j].price == s[0].price
    &&& k == s.len() || s[k].price != s[0].price
}

/// The best ask of a company's sell list: the first order's price and the
/// shares remaining in the run of orders at that price that starts the list.
pub open spec fn is_best_ask(s: Seq<SellOrder>, r: Option<BuyOrderBrief>) -> bool {
    if s.len() == 0 {
        r is None
    } else {
        r matches Some(b) && b.price == s[0].price && exists|k: int|
            leading_run(s, k) && b.quantity == remaining_sum(s, k)
    }
}

/// The leading run of a sell list holds no more shares than a `u64` counts.
pub open spec fn ask_volume_fits(s: Seq<SellOrder>) -> bool {
    forall|k: int| leading_run(s, k) ==> #[trigger] remaining_sum(s, k) <= u64::MAX
}

proof fn lemma_remaining_sum_grows(s: Seq<SellOrder>, n: int, m: int)
    requires
        0 <= n <= m <= s.len(),
    ensures
        0 <= remaining_sum(s, n) <= remaining_sum(s, m),
    decreases m,
{
    if m > n {
        lemma_remaining_sum_grows(s, n, m - 1);
    } else if n > 0 {
        lemma_remaining_sum_grows(s, n - 1, n - 1);
    }
}

/// A run of orders at the first price that is `e` long extends to a leading run.
proof fn lemma_run_end(s: Seq<SellOrder>, e: int) -> (k: int)
    requires
        1 <= e <= s.len(),
        forall|j: int| 0 <= j < e ==> #[trigger] s[j].price == s[0].price,
    ensures
        e <= k,
        leading_run(s, k),
    decreases s.len() - e,
{
    if e < s.len() && s[e].price == s[0].price {
        lemma_run_end(s, e + 1)
    } else {
        e
    }
}

/// The best ask of a company's sell list (see `is_best_ask`).
pub fn best_ask(orders: &[SellOrder]) -> (r: Option<BuyOrderBrief>)
    requires
        ask_volume_fits(orders@),
    ensures
        is_best_ask(orders@, r),
{
    let ghost s = orders@;
    if orders.len() == 0 {
        return None;
    }
    let price = orders[0].price;
    let mut quantity: u64 = 0;
    let mut i: usize = 0;
    let ghost mut k: int = s.len() as int;
    while i < orders.len()
        invariant_except_break
            0 <= i <= s.len(),
            s == orders@,
            s.len() > 0,
            price == s[0].price,
            ask_volume_fits(s),
            forall|j: int| 0 <= j < i ==> #[trigger] s[j].price == price,
            quantity == remaining_sum(s, i as int),
        ensures
            leading_run(s, i as int),
            quantity == remaining_sum(s, i as int),
        decreases s.len() - i,
    {
        if orders[i].price != price {
            break;
        }
        proof {
            let e = lemma_run_end(s, i + 1);
            lemma_remaining_sum_grows(s, i + 1, e);
        }
        quantity = quantity + orders[i].remaining_quantity;
        i = i + 1;
    }
    Some(BuyOrderBrief { quantity, price })
}

// ---------------------------------------------------------------------------
// Lists of open orders
// ---------------------------------------------------------------------------

/// An open order as the order lists show it.
#[derive(Clone, Copy, Debug, PartialEq, Eq)]
pub struct OrderLine {
    /// Who placed the order.
    pub owner: EntityId,
    /// Shares the order was placed for.
    pub quantity: u64,
    /// Shares still open.
    pub remaining: u64,
    pub price: Money,
}

/// How many orders of each kind a list shows at most.
pub const MAX_ORDERS_SHOWN: usize = 4;

/// The player's own orders among the first `n` lines: shares still open and price.
pub open spec fn player_rows(lines: Seq<OrderLine>, player: EntityId, n: int) -> Seq<BuyOrderBrief>
    decreases n,
{
    if n <= 0 {
        Seq::empty()
    } else {
        let rest = player_rows(lines, player, n - 1);
        let l = lines[n - 1];
        if l.owner == player {
            rest.push(BuyOrderBrief { quantity: l.remaining, price: l.price })
        } else {
            rest
        }
    }
}

/// The other traders' orders among the first `n` lines, in order: an order
/// priced like the row before it adds its open shares to that row, any other
/// starts a row with the shares it was placed for.
pub open spec fn merged_rows(lines: Seq<OrderLine>, player: EntityId, n: int) -> Seq<BuyOrderBrief>
    decreases n,
{
    if n <= 0 {
        Seq::empty()
    } else {
        let rest = merged_rows(lines, player, n - 1);
        let l = lines[n - 1];
        if l.owner == player {
            rest
        } else if rest.len() > 0 && rest.last().price == l.price {
            rest.update(
                rest.len() - 1,
                BuyOrderBrief {
                    quantity: (rest.last().quantity + l.remaining) as u64,
                    price: l.price,
                },
            )
        } else {
            rest.push(BuyOrderBrief { quantity: l.quantity, price: l.price })
        }
    }
}

/// Every merge of `merged_rows` over the first `n` lines stays within a `u64`.
pub open spec fn merges_fit(lines: Seq<OrderLine>, player: EntityId, n: int) -> bool
    decreases n,
{
    if n <= 0 {
        true
    } else {
        let rest = merged_rows(lines, player, n - 1);
        let l = lines[n - 1];
        &&& merges_fit(lines, player, n - 1)
        &&& (l.owner != player && rest.len() > 0 && rest.last().price == l.price)
            ==> rest.last().quantity + l.remaining <= u64::MAX
    }
}

/// Rows sorted by price, cheapest first.
pub open spec fn rows_sorted(s: Seq<BuyOrderBrief>) -> bool {
    forall|i: int, j: int| 0 <= i < j < s.len() ==> s[i].price <= s[j].price
}

/// The number of rows priced at most `price`.
pub open spec fn rows_at_most(s: Seq<BuyOrderBrief>, price: Money) -> nat
    decreases s.len(),
{
    if s.len() == 0 {
        0
    } else {
        rows_at_most(s.drop_last(), price) + if s.last().price <= price {
            1nat
        } else {
            0nat
        }
    }
}

/// Rows sorted by price, keeping rows of equal price in their order: each
/// row goes after every earlier row that is not dearer.
pub open spec fn sort_by_price(s: Seq<BuyOrderBrief>) -> Seq<BuyOrderBrief>
    decreases s.len(),
{
    if s.len() == 0 {
        s
    } else {
        let t = sort_by_price(s.drop_last());
        t.insert(rows_at_most(t, s.last().price) as int, s.last())
    }
}

/// What an order list shows: the player's orders, and the others' orders
/// gathered into rows by price.
#[derive(Debug)]
pub struct OrderListView {
    pub player_orders: Vec<BuyOrderBrief>,
    pub other_orders: Vec<BuyOrderBrief>,
}

proof fn lemma_rows_at_most_sorted(s: Seq<BuyOrderBrief>, price: Money, idx: int)
    requires
        rows_sorted(s),
        0 <= idx <= s.len(),
        forall|i: int| 0 <= i < idx ==> s[i].price <= price,
        forall|i: int| idx <= i < s.len() ==> s[i].price > price,
    ensures
        rows_at_most(s, price) == idx,
    decreases s.len(),
{
    if s.len() > 0 {
        if idx == s.len() {
            lemma_rows_at_most_sorted(s.drop_last(), price, idx - 1);
        } else {
            lemma_rows_at_most_sorted(s.drop_last(), price, idx);
        }
    }
}

/// Sorting rows by price only reorders them: the same rows come out.
pub proof fn lemma_sort_by_price_keeps_rows(s: Seq<BuyOrderBrief>)
    ensures
        sort_by_price(s).to_multiset() == s.to_multiset(),
        sort_by_price(s).len() == s.len(),
    decreases s.len(),
{
    if s.len() > 0 {
        let rest = s.drop_last();
        lemma_sort_by_price_keeps_rows(rest);
        let t = sort_by_price(rest);
        let idx = rows_at_most(t, s.last().price) as int;
        lemma_rows_at_most_bound(t, s.last().price);
        vstd::seq_lib::to_multiset_insert(t, idx, s.last());
        assert(s == rest.push(s.last()));
        vstd::seq_lib::to_multiset_build(rest, s.last());
    }
}

proof fn lemma_rows_at_most_bound(s: Seq<BuyOrderBrief>, price: Money)
    ensures
        rows_at_most(s, price) <= s.len(),
    decreases s.len(),
{
    if s.len() > 0 {
        lemma_rows_at_most_bound(s.drop_last(), price);
    }
}

/// In rows sorted by price, the rows priced at most `price` come first.
proof fn lemma_rows_at_most_prefix(s: Seq<BuyOrderBrief>, price: Money)
    requires
        rows_sorted(s),
    ensures
        rows_at_most(s, price) <= s.len(),
        forall|i: int| 0 <= i < rows_at_most(s, price) ==> s[i].price <= price,
        forall|i: int| rows_at_most(s, price) <= i < s.len() ==> s[i].price > price,
    decreases s.len(),
{
    if s.len() > 0 {
        let init = s.drop_last();
        lemma_rows_at_most_prefix(init, price);
        assert forall|i: int| 0 <= i < init.len() implies s[i] == init[i] by {}
        if s.last().price > price {
            assert forall|i: int| rows_at_most(s, price) <= i < s.len() implies s[i].price
                > price by {
                if i < s.len() - 1 {
                    assert(s[i] == init[i]);
                }
            }
            assert forall|i: int| 0 <= i < rows_at_most(s, price) implies s[i].price <= price by {
                assert(s[i] == init[i]);
            }
        } else {
            // Every earlier row is priced no higher than the last, so all are
            // counted.
            assert(rows_at_most(init, price) == init.len()) by {
                if rows_at_most(init, price) < init.len() {
                    let k = rows_at_most(init, price) as int;
                    assert(init[k].price > price);
                    assert(s[k].price <= s.last().price);
                }
            }
            assert forall|i: int| 0 <= i < rows_at_most(s, price) implies s[i].price <= price by {
                if i < init.len() {
                    assert(s[i] == init[i]);
                }
            }
        }
    }
}

/// Sorting rows by price leaves them sorted by price, cheapest first.
pub proof fn lemma_sort_by_price_sorted(s: Seq<BuyOrderBrief>)
    ensures
        rows_sorted(sort_by_price(s)),
    decreases s.len(),
{
    if s.len() > 0 {
        let t = sort_by_price(s.drop_last());
        lemma_sort_by_price_sorted(s.drop_last());
        let x = s.last();
        lemma_rows_at_most_prefix(t, x.price);
        let idx = rows_at_most(t, x.price) as int;
        let u = t.insert(idx, x);
        assert forall|a: int, b: int| 0 <= a < b < u.len() implies u[a].price <= u[b].price by {
            if b < idx {
            } else if b == idx {
            } else if a < idx {
                assert(u[b] == t[b - 1]);
            } else if a == idx {
                assert(u[b] == t[b - 1]);
            } else {
                assert(u[a] == t[a - 1] && u[b] == t[b - 1]);
            }
        }
    }
}

/// Sorts rows by price, keeping rows of equal price in their order.
fn sort_rows(rows: &Vec<BuyOrderBrief>) -> (r: Vec<BuyOrderBrief>)
    ensures
        r@ == sort_by_price(rows@),
        rows_sorted(r@),
{
    let ghost s = rows@;
    let mut out: Vec<BuyOrderBrief> = Vec::new();
    let mut i: usize = 0;
    while i < rows.len()
        invariant
            0 <= i <= s.len(),
            s == rows@,
            out@ == sort_by_price(s.take(i as int)),
            rows_sorted(out@),
        decreases s.len() - i,
    {
        let x = rows[i];
        let mut idx: usize = 0;
        while idx < out.len() && out[idx].price <= x.price
            invariant
                0 <= idx <= out@.len(),
                forall|j: int| 0 <= j < idx ==> out@[j].price <= x.price,
            decreases out@.len() - idx,
        {
            idx = idx + 1;
        }
        let ghost before = out@;
        proof {
            assert forall|j: int| idx <= j < before.len() implies before[j].price > x.price by {
                if idx < before.len() {
                    assert(before[idx as int].price > x.price);
                    assert(before[idx as int].price <= before[j].price);
                }
            }
            lemma_rows_at_most_sorted(before, x.price, idx as int);
            assert(s.take(i + 1).drop_last() == s.take(i as int));
            assert(s.take(i + 1).last() == x);
        }
        out.insert(idx, x);
        proof {
            assert(out@ == before.insert(idx as int, x));
            assert forall|a: int, b: int| 0 <= a < b < out@.len() implies out@[a].price
                <= out@[b].price by {
                if b < idx {
                } else if b == idx {
                } else if a < idx {
                } else if a == idx {
                } else {
                    assert(before[a - 1].price <= before[b - 1].price);
                }
            }
        }
        i = i + 1;
    }
    assert(s.take(s.len() as int) == s);
    out
}

/// Splits order lines into the player's orders and the others' rows, sorted
/// by price (see `player_rows`, `merged_rows` and `sort_by_price`).
pub fn summarize_lines(lines: &Vec<OrderLine>, player: EntityId) -> (v: OrderListView)
    requires
        merges_fit(lines@, player, lines@.len() as int),
    ensures
        v.player_orders@ == player_rows(lines@, player, lines@.len() as int),
        v.other_orders@ == sort_by_price(merged_rows(lines@, player, lines@.len() as int)),
{
    let ghost s = lines@;
    let mut mine: Vec<BuyOrderBrief> = Vec::new();
    let mut others: Vec<BuyOrderBrief> = Vec::new();
    let mut i: usize = 0;
    while i < lines.len()
        invariant
            0 <= i <= s.len(),
            s == lines@,
            merges_fit(s, player, s.len() as int),
            mine@ == player_rows(s, player, i as int),
            others@ == merged_rows(s, player, i as int),
        decreases s.len() - i,
    {
        let l = lines[i];
        proof {
            lemma_merges_fit_prefix(s, player, i + 1, s.len() as int);
        }
        if l.owner == player {
            mine.push(BuyOrderBrief { quantity: l.remaining, price: l.price });
        } else {
            let n = others.len();
            if n > 0 && others[n - 1].price == l.price {
                let last = others[n - 1];
                others.set(n - 1, BuyOrderBrief { quantity: last.quantity + l.remaining, price: l.price });
            } else {
                others.push(BuyOrderBrief { quantity: l.quantity, price: l.price });
            }
        }
        i = i + 1;
    }
    let sorted = sort_rows(&others);
    OrderListView { player_orders: mine, other_orders: sorted }
}

proof fn lemma_merges_fit_prefix(s: Seq<OrderLine>, player: EntityId, n: int, m: int)
    requires
        0 <= n <= m,
        merges_fit(s, player, m),
    ensures
        merges_fit(s, player, n),
    decreases m,
{
    if m > n {
        lemma_merges_fit_prefix(s, player, n, m - 1);
    }
}

/// The lines of the buy orders for `company`, in the book's order.
pub open spec fn bid_lines(s: Seq<BuyOrder>, company: EntityId, n: int) -> Seq<OrderLine>
    decreases n,
{
    if n <= 0 {
        Seq::empty()
    } else {
        let rest = bid_lines(s, company, n - 1);
        let o = s[n - 1];
        if o.company == company {
            rest.push(
                OrderLine {
                    owner: o.buyer,
                    quantity: o.quantity,
                    remaining: o.remaining_quantity,
                    price: o.price,
                },
            )
        } else {
            rest
        }
    }
}

/// The lines of a company's sell orders, in the list's order.
pub open spec fn ask_lines(s: Seq<SellOrder>) -> Seq<OrderLine> {
    Seq::new(
        s.len(),
        |i: int|
            OrderLine {
                owner: s[i].seller,
                quantity: s[i].quantity,
                remaining: s[i].remaining_quantity,
                price: s[i].price,
            },
    )
}

/// The list of open buy orders for `company` as the player sees it.
pub fn buy_order_list(orders: &Vec<BuyOrder>, company: EntityId, player: EntityId) -> (v:
    OrderListView)
    requires
        ({
            let lines = bid_lines(orders@, company, orders@.len() as int);
            merges_fit(lines, player, lines.len() as int)
        }),
    ensures
        ({
            let lines = bid_lines(orders@, company, orders@.len() as int);
            &&& v.player_orders@ == player_rows(lines, player, lines.len() as int)
            &&& v.other_orders@ == sort_by_price(merged_rows(lines, player, lines.len() as int))
        }),
{
    let mut lines: Vec<OrderLine> = Vec::new();
    let mut i: usize = 0;
    while i < orders.len()
        invariant
            0 <= i <= orders@.len(),
            lines@ == bid_lines(orders@, company, i as int),
        decreases orders@.len() - i,
    {
        let o = orders[i];
        if o.company == company {
            lines.push(
                OrderLine {
                    owner: o.buyer,
                    quantity: o.quantity,
                    remaining: o.remaining_quantity,
                    price: o.price,
                },
            );
        }
        i = i + 1;
    }
    summarize_lines(&lines, player)
}

/// The list of a company's open sell orders as the player sees it.
pub fn sell_order_list(orders: &[SellOrder], player: EntityId) -> (v: OrderListView)
    requires
        merges_fit(ask_lines(orders@), player, orders@.len() as int),
    ensures
        v.player_orders@ == player_rows(ask_lines(orders@), player, orders@.len() as int),
        v.other_orders@ == sort_by_price(
            merged_rows(ask_lines(orders@), player, orders@.len() as int),
        ),
{
    let mut lines: Vec<OrderLine> = Vec::new();
    let mut i: usize = 0;
    while i < orders.len()
        invariant
            0 <= i <= orders@.len(),
            lines@ == ask_lines(orders@).take(i as int),
        decreases orders@.len() - i,
    {
        let o = orders[i];
        lines.push(
            OrderLine {
                owner: o.seller,
                quantity: o.quantity,
                remaining: o.remaining_quantity,
                price: o.price,
            },
        );
        assert(ask_lines(orders@).take(i + 1) == ask_lines(orders@).take(i as int).push(
            ask_lines(orders@)[i as int],
        ));
        i = i + 1;
    }
    assert(ask_lines(orders@).take(orders@.len() as int) == ask_lines(orders@));
    summarize_lines(&lines, player)
}

/// How many rows of the player's orders and of the others' orders a list
/// shows: at most four of the player's, and the others fill what is left.
pub fn rows_shown(player_orders: usize, other_orders: usize) -> (r: (usize, usize))
    ensures
        r.0 == if player_orders < MAX_ORDERS_SHOWN { player_orders } else { MAX_ORDERS_SHOWN },
        r.1 == if player_orders >= MAX_ORDERS_SHOWN {
            0
        } else if other_orders < MAX_ORDERS_SHOWN - player_orders {
            other_orders
        } else {
            (MAX_ORDERS_SHOWN - player_orders) as usize
        },
{
    let mine = if player_orders < MAX_ORDERS_SHOWN { player_orders } else { MAX_ORDERS_SHOWN };
    let room = MAX_ORDERS_SHOWN.saturating_sub(player_orders);
    let others = if other_orders < room { other_orders } else { room };
    (mine, others)
}

// ---------------------------------------------------------------------------
// The company focus screen
// ---------------------------------------------------------------------------

/// Quarters in a year: the one-year change compares with the performance
/// recorded this many quarters back.
pub const QUARTERS_PER_YEAR: usize = 4;

/// What the focus screen of a company shows, apart from the figures
/// themselves.
#[derive(Clone, Copy, Debug, PartialEq, Eq, Structural)]
pub struct FocusLayout {
    /// The quarter of the company's books the key figures are compared with.
    pub previous_quarter: usize,
    /// The performance entry the one-year price change is measured from,
    /// when the company has been measured for a year.
    pub year_change_from: Option<usize>,
    /// Whether the sell button is shown.
    pub sell_button: bool,
}

/// Lays out a company's focus screen from the number of quarters in its
/// books, the number of its performance entries and the shares the player
/// holds: the key figures compare the last quarter with the one before it
/// once two performance entries exist (else with itself); the one-year
/// change is shown only from the fourth performance entry on, measured from
/// the entry four back; the sell button is shown only when the player holds
/// shares of the company.
pub fn focus_layout(quarters: usize, performance_entries: usize, held: u64) -> (l: FocusLayout)
    requires
        quarters >= 1,
        performance_entries >= 1,
        performance_entries >= 2 ==> quarters >= 2,
    ensures
        l.previous_quarter == if performance_entries >= 2 {
            quarters - 2
        } else {
            quarters - 1
        },
        l.year_change_from == if performance_entries >= QUARTERS_PER_YEAR {
            Some((performance_entries - QUARTERS_PER_YEAR) as usize)
        } else {
            None::<usize>
        },
        l.sell_button == (held > 0),
{
    let previous_quarter = if performance_entries >= 2 {
        quarters - 2
    } else {
        quarters - 1
    };
    let year_change_from = if performance_entries >= QUARTERS_PER_YEAR {
        Some(performance_entries - QUARTERS_PER_YEAR)
    } else {
        None
    };
    FocusLayout { previous_quarter, year_change_from, sell_button: held > 0 }
}

// ---------------------------------------------------------------------------
// Price and quantity inputs
// ---------------------------------------------------------------------------

/// The four buttons beside a price or quantity input.
#[derive(Clone, Copy, Debug, PartialEq, Eq, Structural)]
pub enum StockPriceInputKind {
    MuchHigher,
    Higher,
    Lower,
    MuchLower,
}

/// What a button does to the quantity input: up or down by ten or by one,
/// never below one.
pub open spec fn spec_adjust_quantity(current: u64, kind: StockPriceInputKind) -> u64 {
    let next: int = match kind {
        StockPriceInputKind::MuchHigher => current + 10,
        StockPriceInputKind::Higher => current + 1,
        StockPriceInputKind::Lower => if current < 1 { 0 } else { current - 1 },
        StockPriceInputKind::MuchLower => if current < 10 { 0 } else { current - 10 },
    };
    if next == 0 { 1 } else { next as u64 }
}

/// Applies a button to the quantity input (see `spec_adjust_quantity`).
pub fn adjust_quantity(current: u64, kind: StockPriceInputKind) -> (r: u64)
    requires
        current + 10 <= u64::MAX,
    ensures
        r == spec_adjust_quantity(current, kind),
        r >= 1,
{
    let next = match kind {
        StockPriceInputKind::MuchHigher => current + 10,
        StockPriceInputKind::Higher => current + 1,
        StockPriceInputKind::Lower => current.saturating_sub(1),
        StockPriceInputKind::MuchLower => current.saturating_sub(10),
    };
    if next == 0 { 1 } else { next }
}

/// What a button does to the price input: up by the large or small step, or
/// down by it but not below zero.
pub open spec fn spec_adjust_price(current: Money, kind: StockPriceInputKind, small: Money, large: Money) -> int {
    match kind {
        StockPriceInputKind::MuchHigher => current + large,
        StockPriceInputKind::Higher => current + small,
        StockPriceInputKind::Lower => if current - small < 0 { 0 } else { current - small },
        StockPriceInputKind::MuchLower => if current - large < 0 { 0 } else { current - large },
    }
}

/// The price input's small and large steps for a share price: one and five
/// percent of it, taken in 32-bit floats and rounded up.
pub fn price_steps(cached_price: Money) -> (r: (Money, Money))
    ensures
        r.0 == f32_times_ceil(cached_price as int, F32_HUNDREDTH as nat, F32_HUNDREDTH_SCALE as nat),
        r.1 == f32_times_ceil(cached_price as int, F32_TWENTIETH as nat, F32_TWENTIETH_SCALE as nat),
{
    (
        float_times(cached_price, F32_HUNDREDTH, F32_HUNDREDTH_SCALE, true),
        float_times(cached_price, F32_TWENTIETH, F32_TWENTIETH_SCALE, true),
    )
}

/// Applies a button to the price input, given the small and large steps for
/// the company's share price (see `spec_adjust_price`).
pub fn adjust_price(current: Money, kind: StockPriceInputKind, small: Money, large: Money) -> (r: Money)
    requires
        i64::MIN <= current + large <= i64::MAX,
        i64::MIN <= current + small <= i64::MAX,
        i64::MIN <= current - large <= i64::MAX,
        i64::MIN <= current - small <= i64::MAX,
    ensures
        r == spec_adjust_price(current, kind, small, large),
        current >= 0 && small >= 0 && large >= 0 ==> r >= 0,
{
    match kind {
        StockPriceInputKind::MuchHigher => current + large,
        StockPriceInputKind::Higher => current + small,
        StockPriceInputKind::Lower => if current - small < 0 { 0 } else { current - small },
        StockPriceInputKind::MuchLower => if current - large < 0 { 0 } else { current - large },
    }
}

/// Whether the player is placing buy or sell orders.
#[derive(Clone, Copy, Debug, PartialEq, Eq, Structural)]
pub enum BuySellMode {
    Buy,
    Sell,
}

impl Default for BuySellMode {
    fn default() -> (m: Self)
        ensures
            m == BuySellMode::Buy,
    {
        BuySellMode::Buy
    }
}

/// Whether a quantity button can be pressed: the down buttons not at one or
/// below, the up buttons not, when selling, past the shares the player owns.
pub open spec fn spec_quantity_button_enabled(
    kind: StockPriceInputKind,
    current: u64,
    mode: BuySellMode,
    owned: u64,
) -> bool {
    match kind {
        StockPriceInputKind::Lower | StockPriceInputKind::MuchLower => current > 1,
        StockPriceInputKind::Higher | StockPriceInputKind::MuchHigher => !(mode == BuySellMode::Sell
            && owned < current + 1),
    }
}

/// Whether a quantity button can be pressed (see `spec_quantity_button_enabled`).
pub fn quantity_button_enabled(kind: StockPriceInputKind, current: u64, mode: BuySellMode, owned: u64) -> (b: bool)
    ensures
        b == spec_quantity_button_enabled(kind, current, mode, owned),
{
    match kind {
        StockPriceInputKind::Lower | StockPriceInputKind::MuchLower => current > 1,
        StockPriceInputKind::Higher | StockPriceInputKind::MuchHigher => {
            !(mode == BuySellMode::Sell && (owned as u128) < (current as u128) + 1)
        },
    }
}

/// What switching between buying and selling sets: the new mode, the price
/// input back at the share price, and the quantity at one for buying or at
/// `min(owned, 1)` for selling.
#[derive(Clone, Copy, Debug, PartialEq, Eq)]
pub struct ModeSwitch {
    pub mode: BuySellMode,
    pub price: Money,
    pub quantity: u64,
}

/// Switches between buying and selling (see `ModeSwitch`).
pub fn toggle_buy_sell_mode(mode: BuySellMode, cached_price: Money, owned: u64) -> (r: ModeSwitch)
    ensures
        r.mode == match mode {
            BuySellMode::Buy => BuySellMode::Sell,
            BuySellMode::Sell => BuySellMode::Buy,
        },
        r.price == cached_price,
        r.quantity == match r.mode {
            BuySellMode::Buy => 1,
            BuySellMode::Sell => if owned < 1 { owned } else { 1 },
        },
{
    let next = match mode {
        BuySellMode::Buy => BuySellMode::Sell,
        BuySellMode::Sell => BuySellMode::Buy,
    };
    let quantity = match next {
        BuySellMode::Buy => 1,
        BuySellMode::Sell => if owned < 1 { owned } else { 1 },
    };
    ModeSwitch { mode: next, price: cached_price, quantity }
}

/// The total an order costs: price times quantity.
pub fn total_price(price: Money, quantity: u64) -> (t: Money)
    requires
        i64::MIN <= price * quantity <= i64::MAX,
        quantity <= i64::MAX,
    ensures
        t == price * quantity,
{
    price * (quantity as i64)
}

/// Whether the buy/sell button can be pressed after an update, given whether
/// it could before: when selling it is turned off for a quantity of zero or
/// more than the player owns and on again once the player owns more than the
/// quantity; when buying it is turned on while the total is below the
/// balance and off once it is above; otherwise it stays as it was.
pub open spec fn spec_order_button_enabled(
    enabled: bool,
    mode: BuySellMode,
    quantity: u64,
    owned: u64,
    total: int,
    balance: Money,
) -> bool {
    match mode {
        BuySellMode::Sell => if (quantity == 0 || owned < quantity) && enabled {
            false
        } else if owned > quantity && !enabled {
            true
        } else {
            enabled
        },
        BuySellMode::Buy => if total < balance && !enabled {
            true
        } else if total > balance && enabled {
            false
        } else {
            enabled
        },
    }
}

/// Updates whether the buy/sell button can be pressed (see
/// `spec_order_button_enabled`).
pub fn order_button_enabled(
    enabled: bool,
    mode: BuySellMode,
    quantity: u64,
    owned: u64,
    price: Money,
    balance: Money,
) -> (b: bool)
    requires
        mode == BuySellMode::Buy ==> (i64::MIN <= price * quantity <= i64::MAX && quantity <= i64::MAX),
    ensures
        b == spec_order_button_enabled(enabled, mode, quantity, owned, price * quantity, balance),
{
    match mode {
        BuySellMode::Sell => {
            if (quantity == 0 || owned < quantity) && enabled {
                false
            } else if owned > quantity && !enabled {
                true
            } else {
                enabled
            }
        },
        BuySellMode::Buy => {
            let total = total_price(price, quantity);
            if total < balance && !enabled {
                true
            } else if total > balance && enabled {
                false
            } else {
                enabled
            }
        },
    }
}

/// Places the player's order from the inputs. Buying: when the player can
/// pay the total, it is taken from the wallet and a buy order goes in the
/// book; otherwise nothing happens. Selling: the shares are taken from the
/// portfolio (as many as it holds, up to the quantity) and a sell order for
/// the full quantity goes in the book. Returns whether an order was placed.
pub fn place_player_order(
    mode: BuySellMode,
    company: EntityId,
    player: EntityId,
    price: Money,
    quantity: u64,
    wallet: &mut Wallet,
    portfolio: &mut SharePortfolio,
    book: &mut OrderBook,
) -> (placed: bool)
    requires
        mode == BuySellMode::Buy ==> (i64::MIN <= price * quantity <= i64::MAX && quantity
            <= i64::MAX && i64::MIN <= old(wallet).balance - price * quantity <= i64::MAX),
    ensures
        mode == BuySellMode::Buy ==> {
            if price * quantity > old(wallet).balance {
                &&& !placed
                &&& *final(wallet) == *old(wallet)
                &&& final(book).buy_orders@ == old(book).buy_orders@
                &&& final(book).sell_orders@ == old(book).sell_orders@
            } else {
                &&& placed
                &&& final(wallet).balance == old(wallet).balance - price * quantity
                &&& final(book).buy_orders@ == old(book).buy_orders@.push(
                    BuyOrder::new_spec(company, quantity, price, player),
                )
                &&& final(book).sell_orders@ == old(book).sell_orders@
            }
        },
        mode == BuySellMode::Buy ==> final(portfolio)@ == old(portfolio)@,
        mode == BuySellMode::Sell ==> {
            &&& placed
            &&& *final(wallet) == *old(wallet)
            &&& final(portfolio)@ == old(portfolio)@.insert(
                company,
                if share_count(old(portfolio)@, company) < quantity {
                    0u64
                } else {
                    (share_count(old(portfolio)@, company) - quantity) as u64
                },
            )
            &&& final(book).buy_orders@ == old(book).buy_orders@
            &&& sell_added(
                old(book).sell_orders@,
                final(book).sell_orders@,
                SellOrder::new_spec(company, quantity, price, player),
            )
            &&& sell_lists_wf(old(book).sell_orders@) ==> sell_lists_wf(final(book).sell_orders@)
        },
{
    match mode {
        BuySellMode::Buy => {
            let total = total_price(price, quantity);
            if total > wallet.balance {
                return false;
            }
            wallet.balance = wallet.balance - total;
            book.add(NewOrder::Buy(BuyOrder::new(company, quantity, price, player)));
            true
        },
        BuySellMode::Sell => {
            portfolio.remove_shares(company, quantity);
            book.add(NewOrder::Sell(SellOrder::new(company, quantity, price, player)));
            true
        },
    }
}

// ---------------------------------------------------------------------------
// Company list
// ---------------------------------------------------------------------------

/// A company's market capitalisation: shares in existence times the cached
/// share price.
pub open spec fn market_cap(c: (u64, i64)) -> int {
    c.0 * c.1
}

/// The position at which company `k` goes among `sorted`: before the first
/// company with a smaller market capitalisation, after those with an equal
/// or larger one.
pub open spec fn cap_slot(caps: Seq<(u64, i64)>, sorted: Seq<usize>, k: int) -> int
    decreases sorted.len(),
{
    if sorted.len() == 0 {
        0
    } else if market_cap(caps[k]) > market_cap(caps[sorted[0] as int]) {
        0
    } else {
        1 + cap_slot(caps, sorted.drop_first(), k)
    }
}

/// The positions of the first `n` companies, largest market capitalisation
/// first, companies of equal capitalisation in the order given.
pub open spec fn cap_order(caps: Seq<(u64, i64)>, n: int) -> Seq<usize>
    decreases n,
{
    if n <= 0 {
        Seq::empty()
    } else {
        let s = cap_order(caps, n - 1);
        s.insert(cap_slot(caps, s, n - 1), (n - 1) as usize)
    }
}

proof fn lemma_cap_slot_props(caps: Seq<(u64, i64)>, sorted: Seq<usize>, k: int)
    ensures
        0 <= cap_slot(caps, sorted, k) <= sorted.len(),
        forall|j: int|
            0 <= j < cap_slot(caps, sorted, k) ==> market_cap(caps[k]) <= market_cap(
                #[trigger] caps[sorted[j] as int],
            ),
        cap_slot(caps, sorted, k) < sorted.len() ==> market_cap(caps[k]) > market_cap(
            caps[sorted[cap_slot(caps, sorted, k)] as int],
        ),
    decreases sorted.len(),
{
    if sorted.len() > 0 && market_cap(caps[k]) <= market_cap(caps[sorted[0] as int]) {
        let rest = sorted.drop_first();
        lemma_cap_slot_props(caps, rest, k);
        assert forall|j: int| 0 <= j < cap_slot(caps, sorted, k) implies market_cap(caps[k])
            <= market_cap(#[trigger] caps[sorted[j] as int]) by {
            if j > 0 {
                assert(sorted[j] == rest[j - 1]);
            }
        }
    }
}

proof fn lemma_cap_slot_scan(caps: Seq<(u64, i64)>, sorted: Seq<usize>, k: int, idx: int)
    requires
        0 <= idx <= sorted.len(),
        forall|j: int| 0 <= j < idx ==> market_cap(caps[k]) <= market_cap(caps[sorted[j] as int]),
        idx < sorted.len() ==> market_cap(caps[k]) > market_cap(caps[sorted[idx] as int]),
    ensures
        cap_slot(caps, sorted, k) == idx,
    decreases sorted.len(),
{
    if sorted.len() > 0 && idx > 0 {
        assert forall|j: int| 0 <= j < idx - 1 implies market_cap(caps[k]) <= market_cap(
            caps[sorted.drop_first()[j] as int],
        ) by {
            assert(sorted.drop_first()[j] == sorted[j + 1]);
        }
        lemma_cap_slot_scan(caps, sorted.drop_first(), k, idx - 1);
    }
}

/// The company list lists every company once, largest market
/// capitalisation first.
pub proof fn lemma_cap_order_sorted(caps: Seq<(u64, i64)>, n: int)
    requires
        0 <= n <= caps.len(),
        n <= usize::MAX,
    ensures
        cap_order(caps, n).len() == n,
        forall|i: int| 0 <= i < n ==> cap_order(caps, n)[i] < n,
        forall|i: int, j: int| 0 <= i < j < n ==> cap_order(caps, n)[i] != cap_order(caps, n)[j],
        forall|i: int, j: int|
            0 <= i < j < n ==> market_cap(caps[cap_order(caps, n)[i] as int]) >= market_cap(
                caps[cap_order(caps, n)[j] as int],
            ),
    decreases n,
{
    if n > 0 {
        let s = cap_order(caps, n - 1);
        lemma_cap_order_sorted(caps, n - 1);
        let k = n - 1;
        let idx = cap_slot(caps, s, k);
        lemma_cap_slot_props(caps, s, k);
        let t = s.insert(idx, k as usize);
        assert(t == cap_order(caps, n));
        assert(t[idx] == k);
        assert(forall|x: int| 0 <= x < idx ==> t[x] == s[x]);
        assert(forall|x: int| idx < x < n ==> t[x] == s[x - 1]);
        assert forall|i: int| 0 <= i < n implies t[i] < n by {
            if i > idx {
                assert(t[i] == s[i - 1]);
            }
        }
        assert forall|i: int, j: int| 0 <= i < j < n implies t[i] != t[j] by {
            if j < idx {
            } else if j == idx {
                assert(s[i] < k);
            } else if i < idx {
                assert(t[j] == s[j - 1]);
            } else if i == idx {
                assert(s[j - 1] < k);
            } else {
                assert(t[i] == s[i - 1] && t[j] == s[j - 1]);
            }
        }
        assert forall|i: int, j: int| 0 <= i < j < n implies market_cap(caps[t[i] as int])
            >= market_cap(caps[t[j] as int]) by {
            if j < idx {
            } else if j == idx {
                assert(market_cap(caps[k]) <= market_cap(caps[s[i] as int]));
            } else if i < idx {
                assert(t[j] == s[j - 1]);
            } else if i == idx {
                assert(t[j] == s[j - 1]);
                if j - 1 > idx {
                    assert(market_cap(caps[s[idx] as int]) >= market_cap(caps[s[j - 1] as int]));
                }
            } else {
                assert(t[i] == s[i - 1] && t[j] == s[j - 1]);
            }
        }
    }
}

fn cap_of(c: (u64, i64)) -> (r: i128)
    ensures
        r == market_cap(c),
{
    assert(-0x8000_0000_0000_0000_0000_0000_0000_0000 <= c.0 * c.1
        <= 0x7fff_ffff_ffff_ffff_ffff_ffff_ffff_ffff) by (nonlinear_arith)
        requires
            0 <= c.0 <= u64::MAX,
            i64::MIN <= c.1 <= i64::MAX,
    ;
    (c.0 as i128) * (c.1 as i128)
}

/// The order in which the company list shows companies, given each
/// company's shares in existence and cached share price (see `cap_order`).
pub fn order_by_market_cap(caps: &Vec<(u64, i64)>) -> (r: Vec<usize>)
    ensures
        r@ == cap_order(caps@, caps@.len() as int),
{
    let mut sorted: Vec<usize> = Vec::new();
    let mut k: usize = 0;
    while k < caps.len()
        invariant
            0 <= k <= caps@.len(),
            sorted@ == cap_order(caps@, k as int),
            forall|j: int| 0 <= j < sorted@.len() ==> sorted@[j] < k,
        decreases caps@.len() - k,
    {
        let mine = cap_of(caps[k]);
        let mut idx: usize = 0;
        while idx < sorted.len() && mine <= cap_of(caps[sorted[idx]])
            invariant
                0 <= idx <= sorted@.len(),
                k < caps@.len(),
                mine == market_cap(caps@[k as int]),
                forall|j: int| 0 <= j < sorted@.len() ==> sorted@[j] < k,
                forall|j: int|
                    0 <= j < idx ==> market_cap(caps@[k as int]) <= market_cap(
                        caps@[sorted@[j] as int],
                    ),
            decreases sorted@.len() - idx,
        {
            idx = idx + 1;
        }
        proof {
            lemma_cap_slot_scan(caps@, sorted@, k as int, idx as int);
        }
        let ghost before = sorted@;
        sorted.insert(idx, k);
        proof {
            assert(sorted@ == before.insert(idx as int, k));
            assert forall|j: int| 0 <= j < sorted@.len() implies sorted@[j] < k + 1 by {
                if j < idx {
                } else if j == idx {
                } else {
                    assert(sorted@[j] == before[j - 1]);
                }
            }
        }
        k = k + 1;
    }
    sorted
}

} // verus!
