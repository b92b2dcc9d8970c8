use sardips::listing::{allocate_stocks, company_templates, list_company};
use sardips::trader::{plan_round, TradePlan};
use sardips::money::Wallet;
use sardips::stock_market::{BuyOrder, OrderBook, SellOrder, SharePortfolio};
use sardips::trader::{
    buy_limit, place_trader_buy, place_trader_sell, sell_limit, trading_timer, BuyThreshold,
};

#[test]
fn inverting_thresholds() {
    assert_eq!(BuyThreshold::Never.invert(), BuyThreshold::Must);
    assert_eq!(BuyThreshold::Low.invert(), BuyThreshold::High);
    assert_eq!(BuyThreshold::Medium.invert(), BuyThreshold::Medium);
    for t in [BuyThreshold::Never, BuyThreshold::Low, BuyThreshold::Medium, BuyThreshold::High, BuyThreshold::Must] {
        assert_eq!(t.invert().invert(), t);
    }
}

#[test]
fn traders_bid_what_they_can_afford() {
    assert_eq!(buy_limit(200, 100), None);
    assert_eq!(buy_limit(100, 350), Some(3));
    assert_eq!(buy_limit(1, 5000), Some(100));
    let mut wallet = Wallet { balance: 10_000 };
    let mut book = OrderBook::new();
    assert!(!place_trader_buy(1, 7, 100, 0, &mut wallet, &mut book));
    assert!(place_trader_buy(1, 7, 100, 3, &mut wallet, &mut book));
    assert_eq!(wallet.balance, 9_700);
    assert_eq!(book.buy_orders, vec![BuyOrder::new(1, 3, 100, 7)]);
}

#[test]
fn traders_offer_what_they_hold() {
    assert_eq!(sell_limit(30), 30);
    assert_eq!(sell_limit(3000), 100);
    let mut portfolio = SharePortfolio::new_player_portfolio();
    portfolio.add_shares(1, 30);
    let mut book = OrderBook::new();
    assert!(!place_trader_sell(1, 7, 50, 0, &mut portfolio, &mut book));
    assert!(place_trader_sell(1, 7, 50, 20, &mut portfolio, &mut book));
    assert_eq!(portfolio.get_count(&1), 10);
    assert_eq!(book.get_sell_orders(1), &[SellOrder::new(1, 20, 50, 7)]);
}

#[test]
fn trading_rounds_come_every_five_seconds() {
    assert_eq!(trading_timer().duration, 5_000_000_000);
}

#[test]
fn a_round_of_trading_places_one_order_per_plan_and_side() {
    let mut wallet = Wallet { balance: 100_000 };
    let mut portfolio = SharePortfolio::new_player_portfolio();
    portfolio.add_shares(2, 30);
    let plans = vec![
        TradePlan { company: 1, buy: true, buy_price: 100, buy_roll: 5, sell: true, sell_price: 90, sell_roll: 4 },
        TradePlan { company: 2, buy: false, buy_price: 10, buy_roll: 5, sell: true, sell_price: 60, sell_roll: 40 },
    ];
    let (buys, sells) = plan_round(7, &plans, &mut wallet, &mut portfolio);
    // 1% of 100000 is 1000: 10 shares at 100 at most; roll 5 bids 5.
    assert_eq!(buys, vec![BuyOrder::new(1, 5, 100, 7)]);
    assert_eq!(wallet.balance, 99_500);
    // No shares of 1; 30 of 2: roll 40 % 31 offers 9.
    assert_eq!(sells, vec![SellOrder::new(2, 9, 60, 7)]);
    assert_eq!(portfolio.get_count(&2), 21);
    let mut book = OrderBook::new();
    book.add_buys(&buys);
    book.add_sells(&sells);
    assert_eq!(book.buy_orders.len(), 1);
    assert_eq!(book.get_sell_orders(2).len(), 1);
}

#[test]
fn test_generate_buy_activity() {
    // The market as it opens: every listed company, a hundred traders with
    // money, the new shares handed out; then one round of trading in which
    // every trader bids on every company at its share price.
    let mut companies = Vec::new();
    for (i, t) in company_templates().into_iter().enumerate() {
        companies.push(list_company(t, 1000 + i as u64));
    }
    let mut portfolios: Vec<SharePortfolio> =
        (0..100).map(|_| SharePortfolio::new_player_portfolio()).collect();
    let mut wallets: Vec<Wallet> =
        (0..100).map(|g| Wallet { balance: 10_000_000 + g * 900_000 }).collect();
    let draws: Vec<(u64, u64)> = (0..100).map(|k| (k * 31 + 7, k * 53 + 11)).collect();
    for (i, c) in companies.iter_mut().enumerate() {
        allocate_stocks(1000 + i as u64, &mut c.to_allocate, &mut portfolios, &draws);
    }
    let mut book = OrderBook::new();
    for g in 0..100 {
        let plans: Vec<TradePlan> = companies
            .iter()
            .enumerate()
            .map(|(i, c)| TradePlan {
                company: 1000 + i as u64,
                buy: true,
                buy_price: c.share_history.cached_price,
                buy_roll: g as u64 * 7 + i as u64,
                sell: false,
                sell_price: c.share_history.cached_price,
                sell_roll: 0,
            })
            .collect();
        let (buys, sells) = plan_round(g as u64, &plans, &mut wallets[g], &mut portfolios[g]);
        book.add_buys(&buys);
        book.add_sells(&sells);
    }
    assert!(!book.buy_orders.is_empty());
}

#[test]
fn money_available_is_a_hundredth_taken_in_f32() {
    let float = |b: i64| (b as f32 * 0.01).floor() as i64;
    let mut cases: Vec<i64> = vec![
        0, 1, 99, 100, 101, 12_345, 16_777_216, 16_777_217, 33_554_435, 99_999_999, 100_000_000,
        100_000_001, 123_456_789, 999_999_999_999, i64::MAX, i64::MIN, -1, -100, -101, -99_999_999,
    ];
    let mut x: i64 = 7;
    for _ in 0..20_000 {
        x = x.wrapping_mul(6364136223846793005).wrapping_add(1442695040888963407);
        cases.push(x >> (x.rem_euclid(60)));
        cases.push(x.rem_euclid(200_000_000));
    }
    for b in cases {
        assert_eq!(sardips::trader::hundredth_available(b), float(b), "balance {}", b);
    }
    // Near a multiple of a hundred the float rounding shows.
    assert_eq!(sardips::trader::hundredth_available(99_999_999), 1_000_000);
}
