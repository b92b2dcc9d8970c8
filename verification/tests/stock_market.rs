use sardips::stock_market::{tick_quarter, BuyOrderBrief, QuarterCompany, QuarterDraws};
use std::collections::HashMap;

use sardips::exchange::{process_orders, Market};
use sardips::money::Wallet;
use sardips::stock_market::{
    apply_change, BuyOrder, Company, CompanyHistory, Industry, IndustryShare, NewOrder,
    OrderBook, PerformanceRanking, QuarterManger, SellOrder, ShareHistory, SharePortfolio,
    QUARTER_DURATION,
};

#[test]
fn test_order_book_sell_ordered() {
    let company_entity = 1;
    let seller_entity = 2;

    let mut order_book = OrderBook::new();

    let mut prices = vec![5, 2, 7, 2, 9, 10, 3];
    for price in &prices {
        order_book.add(NewOrder::Sell(SellOrder::new(
            company_entity,
            100,
            *price,
            seller_entity,
        )));
    }

    let sell_orders = order_book.get_sell_orders(company_entity);

    prices.sort();
    for (i, order) in sell_orders.iter().enumerate() {
        assert_eq!(order.price, prices[i]);
    }
}

fn test_company() -> Company {
    Company {
        ticker: "TEST".to_string(),
        existing_shares: 1000,
        history: vec![CompanyHistory {
            quarter: 0,
            assets: 100000,
            revenue: 10000,
            expenses: 5000,
            total_shares: 1000,
            dividend_paid: 0,
            performance: PerformanceRanking::Average,
        }],
        industries: vec![IndustryShare { percent: 100, industry: Industry::Tech }],
    }
}

#[test]
fn test_process_orders() {
    let company_id = 1;
    let selling_ghost_id = 2;
    let buying_ghost_id = 3;

    let company = test_company();
    assert_eq!(company.existing_shares, 1000);

    let mut wallets = HashMap::new();
    wallets.insert(company_id, Wallet::default());
    wallets.insert(selling_ghost_id, Wallet { balance: 1000000 });
    wallets.insert(buying_ghost_id, Wallet { balance: 1000000 });
    let mut portfolios = HashMap::new();
    portfolios.insert(company_id, SharePortfolio::new_player_portfolio());
    portfolios.insert(selling_ghost_id, SharePortfolio::new_player_portfolio());
    portfolios.insert(buying_ghost_id, SharePortfolio::new_player_portfolio());
    let mut share_histories = HashMap::new();
    share_histories.insert(company_id, ShareHistory::new(100));
    let mut market = Market { wallets, portfolios, share_histories };

    let mut order_book = OrderBook::new();
    order_book.add(NewOrder::Sell(SellOrder::new(company_id, 500, 100, selling_ghost_id)));
    order_book.add(NewOrder::Sell(SellOrder::new(company_id, 500, 200, selling_ghost_id)));
    order_book.add(NewOrder::Buy(BuyOrder::new(company_id, 1000, 100, buying_ghost_id)));

    process_orders(0, &mut order_book, &mut market);

    assert_eq!(order_book.buy_orders[0].remaining_quantity, 500,);
    order_book.sell_orders.values().for_each(|orders| {
        assert_eq!(orders.len(), 1);
        assert_eq!(orders[0].price, 200);
    });
}

#[test]
fn process_orders_settles_the_filled_part() {
    let company_id = 1;
    let seller = 2;
    let buyer = 3;
    let mut wallets = HashMap::new();
    wallets.insert(seller, Wallet { balance: 0 });
    wallets.insert(buyer, Wallet { balance: 0 });
    let mut portfolios = HashMap::new();
    portfolios.insert(seller, SharePortfolio::new_player_portfolio());
    portfolios.insert(buyer, SharePortfolio::new_player_portfolio());
    let mut share_histories = HashMap::new();
    share_histories.insert(company_id, ShareHistory::new(100));
    let mut market = Market { wallets, portfolios, share_histories };
    let mut book = OrderBook::new();
    book.add(NewOrder::Sell(SellOrder::new(company_id, 500, 100, seller)));
    book.add(NewOrder::Buy(BuyOrder::new(company_id, 300, 120, buyer)));

    process_orders(0, &mut book, &mut market);

    // The buyer paid up front; the seller is paid the sell price for 300 shares.
    assert_eq!(market.wallets[&seller].balance, 300 * 100);
    assert_eq!(market.portfolios[&buyer].get_count(&company_id), 300);
    // The filled buy order leaves the book, the rest of the sell order stays.
    assert!(book.buy_orders.is_empty());
    let left = book.get_sell_orders(company_id);
    assert_eq!(left.len(), 1);
    assert_eq!(left[0].remaining_quantity, 200);
}

#[test]
fn portfolio_counts_shares() {
    let mut p = SharePortfolio::new_player_portfolio();
    assert_eq!(p.get_count(&7), 0);
    p.add_shares(7, 10);
    p.add_shares(7, 5);
    assert_eq!(p.get_count(&7), 15);
    p.remove_shares(7, 20);
    assert_eq!(p.get_count(&7), 0);
    p.add_shares(7, 3);
    p.remove_shares(7, 1);
    assert_eq!(p.get_count(&7), 2);
}

#[test]
fn industry_and_company_keys() {
    assert_eq!(Industry::RealEstate.name_key(), "industry.realestate.name");
    assert_eq!(Industry::Tech.name_key(), "industry.tech.name");
    let mut company = test_company();
    company.ticker = "TELCO".to_string();
    assert_eq!(company.name_key(), "company.telco.name");
    assert_eq!(company.description_key(), "company.telco.description");
    assert_eq!(company.book_value(), 100000);
}

#[test]
fn share_history_starts_at_the_listing_price() {
    let h = ShareHistory::new(414);
    assert_eq!(h.price(), 414);
    assert_eq!(h.cached_price, 414);
    assert!(!h.dirty_price);
}

#[test]
fn share_history_averages_the_recent_volume() {
    let mut h = ShareHistory::new(100);
    // 1000 shares at 100 and 1000 at 200: the average of the window is 150.
    h.add_entry(200, 1000);
    assert!(h.dirty_price);
    assert_eq!(h.price(), 150);
    h.update_cached_price();
    assert_eq!(h.cached_price, 150);
    assert!(!h.dirty_price);
}

#[test]
fn prices_that_overflow_are_refused() {
    let h = ShareHistory::new(100);
    assert!(h.price_computable());
    assert_eq!(h.checked_price(), Some(100));
    let mut big = ShareHistory::new(i64::MAX / 2000);
    big.add_entry(i64::MAX / 1000, 1000);
    assert!(!big.price_computable());
    assert_eq!(big.checked_price(), None);
}

#[test]
fn market_value_is_shares_times_price() {
    let company = test_company();
    let h = ShareHistory::new(250);
    assert_eq!(company.market_value(&h), 250_000);
}

#[test]
fn quarters_count_from_the_first_tick() {
    let mut q = QuarterManger::new();
    assert!(q.advance(0));
    assert_eq!(q.current_quarter, 1);
    assert_eq!(q.fiscal_period(), (1991, 0));
    assert!(!q.advance(QUARTER_DURATION - 1));
    assert!(q.advance(1));
    assert_eq!(q.current_quarter, 2);
    q.current_quarter = 6;
    assert_eq!(q.fiscal_period(), (1992, 1));
}

#[test]
fn performance_moves_by_weighted_roll() {
    // From an average quarter the weights are 1, 37, 100, 800, 50, 11, 1.
    assert_eq!(PerformanceRanking::Average.next(0), PerformanceRanking::Extraordinary);
    assert_eq!(PerformanceRanking::Average.next(1), PerformanceRanking::Excellent);
    assert_eq!(PerformanceRanking::Average.next(137), PerformanceRanking::Good);
    assert_eq!(PerformanceRanking::Average.next(500), PerformanceRanking::Average);
    assert_eq!(PerformanceRanking::Average.next(999), PerformanceRanking::Horrific);
}

#[test]
fn changes_stop_at_the_money_limits() {
    assert_eq!(apply_change(100, -30), 70);
    assert_eq!(apply_change(i64::MAX - 1, 10), i64::MAX);
    assert_eq!(apply_change(i64::MIN + 1, -10), i64::MIN);
}

#[test]
fn equal_prices_go_before_older_orders() {
    let mut book = OrderBook::new();
    book.add(NewOrder::Sell(SellOrder::new(1, 10, 100, 5)));
    book.add(NewOrder::Sell(SellOrder::new(1, 20, 100, 6)));
    book.add(NewOrder::Sell(SellOrder::new(1, 30, 90, 7)));
    let sellers: Vec<u64> = book.get_sell_orders(1).iter().map(|o| o.seller).collect();
    assert_eq!(sellers, vec![7, 6, 5]);
}

#[test]
fn a_quarter_tick_steps_every_company_once() {
    let mut q = QuarterManger::new();
    let draws = QuarterDraws {
        performance_roll: 500,
        revenue_change: 0,
        expense_change: 0,
        asset_change: 0,
        extra_capital: false,
        price_discount: 1,
    };
    let mut companies = vec![
        QuarterCompany { entity: 1, company: test_company(), share_history: ShareHistory::new(100), wallet: Wallet { balance: 50 } },
        QuarterCompany { entity: 2, company: test_company(), share_history: ShareHistory::new(100), wallet: Wallet::default() },
    ];
    let mut book = OrderBook::new();
    assert!(tick_quarter(&mut q, 0, &mut companies, &mut book, &vec![draws, draws]));
    assert_eq!(q.current_quarter, 1);
    for c in &companies {
        assert_eq!(c.company.history.len(), 2);
        assert_eq!(c.company.history[1].quarter, 1);
        assert_eq!(c.wallet.balance, 0);
    }
    // Profit 5000 is added to the assets, and the first company's wallet too.
    assert_eq!(companies[0].company.history[1].assets, 100000 + 50 + 5000);
    assert!(!tick_quarter(&mut q, 1, &mut companies, &mut book, &vec![draws, draws]));
    assert_eq!(companies[0].company.history.len(), 2);
}

#[test]
fn a_quarter_that_raises_capital_offers_its_new_shares() {
    let mut q = QuarterManger::new();
    let raise = QuarterDraws {
        performance_roll: 500,
        revenue_change: 0,
        expense_change: 0,
        asset_change: 0,
        extra_capital: true,
        price_discount: 1,
    };
    let loss = QuarterDraws { expense_change: 10000, extra_capital: false, ..raise };
    let keep = QuarterDraws { extra_capital: false, ..raise };
    let mut companies = vec![
        QuarterCompany { entity: 1, company: test_company(), share_history: ShareHistory::new(100), wallet: Wallet::default() },
        QuarterCompany { entity: 2, company: test_company(), share_history: ShareHistory::new(50), wallet: Wallet::default() },
        QuarterCompany { entity: 3, company: test_company(), share_history: ShareHistory::new(80), wallet: Wallet::default() },
    ];
    let mut book = OrderBook::new();
    assert!(tick_quarter(&mut q, 0, &mut companies, &mut book, &vec![raise, loss, keep]));
    // A profit of 5000 raised at 100 - 1 each: 50 shares.
    assert_eq!(companies[0].company.existing_shares, 1050);
    assert_eq!(book.get_sell_orders(1), &[SellOrder::new(1, 50, 99, 1)]);
    // A loss of 5000 covered at 50 - 1 each: 102 shares.
    assert_eq!(companies[1].company.existing_shares, 1102);
    assert_eq!(book.get_sell_orders(2), &[SellOrder::new(2, 102, 49, 2)]);
    // No capital raised: nothing issued, nothing offered.
    assert_eq!(companies[2].company.existing_shares, 1000);
    assert!(book.get_sell_orders(3).is_empty());
    assert!(book.buy_orders.is_empty());
}

#[test]
fn orders_waiting_over_a_minute_are_pulled_and_given_back() {
    let company_id = 1;
    let seller = 2;
    let buyer = 3;
    let mut wallets = HashMap::new();
    wallets.insert(seller, Wallet { balance: 0 });
    wallets.insert(buyer, Wallet { balance: 7 });
    let mut portfolios = HashMap::new();
    portfolios.insert(seller, SharePortfolio::new_player_portfolio());
    portfolios.insert(buyer, SharePortfolio::new_player_portfolio());
    let mut market = Market { wallets, portfolios, share_histories: HashMap::new() };
    let mut book = OrderBook::new();
    // Priced apart: nothing trades.
    book.add(NewOrder::Sell(SellOrder::new(company_id, 40, 200, seller)));
    book.add(NewOrder::Buy(BuyOrder::new(company_id, 30, 100, buyer)));

    // Half a minute: both wait.
    process_orders(30_000_000_000, &mut book, &mut market);
    assert_eq!(book.buy_orders.len(), 1);
    assert_eq!(book.get_sell_orders(company_id).len(), 1);

    // Past a minute: the bid is refunded, the offer's shares go back.
    process_orders(31_000_000_000, &mut book, &mut market);
    assert!(book.buy_orders.is_empty());
    assert!(book.get_sell_orders(company_id).is_empty());
    assert!(book.sell_orders.is_empty());
    assert_eq!(market.wallets[&buyer].balance, 7 + 30 * 100);
    assert_eq!(market.wallets[&seller].balance, 0);
    assert_eq!(market.portfolios[&seller].get_count(&company_id), 40);
    assert_eq!(market.portfolios[&buyer].get_count(&company_id), 0);
}

#[test]
fn twenty_quarters_of_steady_books_each_add_the_profit() {
    let mut q = QuarterManger::new();
    let mut company = test_company();
    company.history[0].expenses = 9000;
    let mut companies = vec![QuarterCompany {
        entity: 1,
        company,
        share_history: ShareHistory::new(100),
        wallet: Wallet::default(),
    }];
    let steady = QuarterDraws {
        performance_roll: 0,
        revenue_change: 0,
        expense_change: 0,
        asset_change: 0,
        extra_capital: false,
        price_discount: 1,
    };
    let mut book = OrderBook::new();
    while q.current_quarter < 20 {
        assert!(tick_quarter(&mut q, QUARTER_DURATION, &mut companies, &mut book, &vec![steady]));
    }
    let history = &companies[0].company.history;
    assert_eq!(history.len(), 21);
    for (k, h) in history.iter().enumerate() {
        assert_eq!(h.quarter as usize, k);
        assert_eq!(h.assets, 100000 + 1000 * k as i64);
    }
    assert_eq!(companies[0].company.existing_shares, 1000);
    assert!(book.sell_orders.is_empty());
}

/// The share price as computed with 64-bit floats.
fn float_price(h: &[BuyOrderBrief]) -> i64 {
    let mut total_price: i64 = 0;
    let mut total_volume: u64 = 0;
    for entry in h.iter().rev() {
        let taken = entry.quantity.min(20000 - total_volume);
        total_price += entry.price * taken as i64;
        total_volume += taken;
        if taken != entry.quantity {
            break;
        }
    }
    if total_volume == 0 || total_price == 0 {
        return 1;
    }
    (total_price as f64 / total_volume as f64) as i64
}

#[test]
fn share_price_divides_as_64_bit_floats_do() {
    let mut x: u64 = 12345;
    let mut next = || {
        x = x.wrapping_mul(6364136223846793005).wrapping_add(1442695040888963407);
        x >> 11
    };
    let mut checked = 0;
    for round in 0..3000 {
        let len = 1 + next() % 6;
        let scale = [100u64, 1_000_000, 1_000_000_000_000, 400_000_000_000_000][round % 4];
        let history: Vec<BuyOrderBrief> = (0..len)
            .map(|_| {
                let sign = if next() % 7 == 0 { -1 } else { 1 };
                BuyOrderBrief::new(next() % 6000, sign * (next() % scale) as i64)
            })
            .collect();
        let h = ShareHistory { history: history.clone(), cached_price: 0, dirty_price: true };
        if let Some(p) = h.checked_price() {
            assert_eq!(p, float_price(&history), "{:?}", history);
            checked += 1;
        }
    }
    assert!(checked > 2000);
    // A total past 2^53 is rounded before the division.
    let h = ShareHistory {
        history: vec![BuyOrderBrief::new(3, 3_002_399_751_580_331)],
        cached_price: 0,
        dirty_price: true,
    };
    assert_eq!(h.price(), float_price(&h.history));
}
