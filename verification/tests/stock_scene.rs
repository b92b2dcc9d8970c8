use sardips::stock_scene::{focus_layout, FocusLayout};
use sardips::money::Wallet;
use sardips::stock_market::{BuyOrder, BuyOrderBrief, NewOrder, OrderBook, SellOrder, SharePortfolio};
use sardips::stock_scene::{
    adjust_price, adjust_quantity, best_ask, best_bid, buy_order_list, order_button_enabled,
    place_player_order, quantity_button_enabled, rows_shown, sell_order_list, toggle_buy_sell_mode,
    total_price, BuySellMode, StockPriceInputKind,
};

const COMPANY: u64 = 1;
const OTHER: u64 = 2;
const PLAYER: u64 = 10;
const GHOST: u64 = 11;

fn brief(quantity: u64, price: i64) -> BuyOrderBrief {
    BuyOrderBrief { quantity, price }
}

#[test]
fn best_bid_is_the_highest_price_and_its_volume() {
    let mut a = BuyOrder::new(COMPANY, 10, 100, GHOST);
    a.remaining_quantity = 7;
    let orders = vec![
        a,
        BuyOrder::new(COMPANY, 5, 120, GHOST),
        BuyOrder::new(OTHER, 50, 500, GHOST),
        BuyOrder::new(COMPANY, 3, 120, PLAYER),
        BuyOrder::new(COMPANY, 1, 90, GHOST),
    ];
    assert_eq!(best_bid(&orders, COMPANY), Some(brief(8, 120)));
    assert_eq!(best_bid(&orders, OTHER), Some(brief(50, 500)));
    assert_eq!(best_bid(&orders, 3), None);
}

#[test]
fn best_ask_is_the_leading_run() {
    let mut book = OrderBook::new();
    for (q, p) in [(10, 200), (4, 150), (6, 150), (1, 300)] {
        book.add(NewOrder::Sell(SellOrder::new(COMPANY, q, p, GHOST)));
    }
    assert_eq!(best_ask(book.get_sell_orders(COMPANY)), Some(brief(10, 150)));
    assert_eq!(best_ask(book.get_sell_orders(OTHER)), None);
}

#[test]
fn buy_list_splits_the_players_orders_and_gathers_the_rest() {
    let mut partly = BuyOrder::new(COMPANY, 10, 100, GHOST);
    partly.remaining_quantity = 4;
    let mut mine = BuyOrder::new(COMPANY, 9, 80, PLAYER);
    mine.remaining_quantity = 6;
    let orders = vec![
        BuyOrder::new(COMPANY, 5, 100, GHOST),
        partly,
        mine,
        BuyOrder::new(COMPANY, 2, 70, GHOST),
        BuyOrder::new(OTHER, 2, 10, GHOST),
        BuyOrder::new(COMPANY, 1, 100, GHOST),
    ];
    let view = buy_order_list(&orders, COMPANY, PLAYER);
    assert_eq!(view.player_orders, vec![brief(6, 80)]);
    // Neighbours at the same price merge (adding the open shares); the rows
    // are then sorted by price, equal prices keeping their order.
    assert_eq!(view.other_orders, vec![brief(2, 70), brief(9, 100), brief(1, 100)]);
}

#[test]
fn sell_list_splits_the_players_orders() {
    let mut book = OrderBook::new();
    book.add(NewOrder::Sell(SellOrder::new(COMPANY, 3, 50, GHOST)));
    book.add(NewOrder::Sell(SellOrder::new(COMPANY, 4, 50, GHOST)));
    book.add(NewOrder::Sell(SellOrder::new(COMPANY, 2, 60, PLAYER)));
    book.add(NewOrder::Sell(SellOrder::new(COMPANY, 8, 70, GHOST)));
    let view = sell_order_list(book.get_sell_orders(COMPANY), PLAYER);
    assert_eq!(view.player_orders, vec![brief(2, 60)]);
    assert_eq!(view.other_orders, vec![brief(7, 50), brief(8, 70)]);
}

#[test]
fn lists_show_at_most_four_rows() {
    assert_eq!(rows_shown(0, 10), (0, 4));
    assert_eq!(rows_shown(1, 10), (1, 3));
    assert_eq!(rows_shown(2, 1), (2, 1));
    assert_eq!(rows_shown(6, 3), (4, 0));
}

#[test]
fn quantity_buttons() {
    assert_eq!(adjust_quantity(5, StockPriceInputKind::MuchHigher), 15);
    assert_eq!(adjust_quantity(5, StockPriceInputKind::Higher), 6);
    assert_eq!(adjust_quantity(5, StockPriceInputKind::Lower), 4);
    assert_eq!(adjust_quantity(5, StockPriceInputKind::MuchLower), 1);
    assert_eq!(adjust_quantity(1, StockPriceInputKind::Lower), 1);
    assert_eq!(adjust_quantity(15, StockPriceInputKind::MuchLower), 5);
}

#[test]
fn price_buttons() {
    assert_eq!(adjust_price(100, StockPriceInputKind::MuchHigher, 1, 5), 105);
    assert_eq!(adjust_price(100, StockPriceInputKind::Higher, 1, 5), 101);
    assert_eq!(adjust_price(100, StockPriceInputKind::Lower, 1, 5), 99);
    assert_eq!(adjust_price(3, StockPriceInputKind::MuchLower, 1, 5), 0);
}

#[test]
fn quantity_buttons_enable() {
    assert!(!quantity_button_enabled(StockPriceInputKind::Lower, 1, BuySellMode::Buy, 0));
    assert!(quantity_button_enabled(StockPriceInputKind::MuchLower, 2, BuySellMode::Buy, 0));
    assert!(quantity_button_enabled(StockPriceInputKind::Higher, 5, BuySellMode::Buy, 0));
    assert!(!quantity_button_enabled(StockPriceInputKind::Higher, 5, BuySellMode::Sell, 5));
    assert!(quantity_button_enabled(StockPriceInputKind::MuchHigher, 5, BuySellMode::Sell, 6));
}

#[test]
fn switching_modes_resets_the_inputs() {
    assert_eq!(BuySellMode::default(), BuySellMode::Buy);
    let s = toggle_buy_sell_mode(BuySellMode::Buy, 321, 0);
    assert_eq!((s.mode, s.price, s.quantity), (BuySellMode::Sell, 321, 0));
    let s = toggle_buy_sell_mode(BuySellMode::Buy, 321, 40);
    assert_eq!(s.quantity, 1);
    let s = toggle_buy_sell_mode(BuySellMode::Sell, 7, 40);
    assert_eq!((s.mode, s.price, s.quantity), (BuySellMode::Buy, 7, 1));
}

#[test]
fn order_button_follows_what_the_player_can_do() {
    assert_eq!(total_price(25, 4), 100);
    // Buying: enabled below the balance, disabled above, unchanged when equal.
    assert!(order_button_enabled(false, BuySellMode::Buy, 4, 0, 25, 101));
    assert!(!order_button_enabled(true, BuySellMode::Buy, 4, 0, 25, 99));
    assert!(order_button_enabled(true, BuySellMode::Buy, 4, 0, 25, 100));
    assert!(!order_button_enabled(false, BuySellMode::Buy, 4, 0, 25, 100));
    // Selling: disabled for more than is owned, enabled once more is owned.
    assert!(!order_button_enabled(true, BuySellMode::Sell, 5, 4, 0, 0));
    assert!(order_button_enabled(false, BuySellMode::Sell, 5, 6, 0, 0));
    assert!(!order_button_enabled(false, BuySellMode::Sell, 5, 5, 0, 0));
}

#[test]
fn buying_pays_up_front() {
    let mut wallet = Wallet { balance: 1000 };
    let mut portfolio = SharePortfolio::new_player_portfolio();
    let mut book = OrderBook::new();
    assert!(!place_player_order(BuySellMode::Buy, COMPANY, PLAYER, 300, 4, &mut wallet, &mut portfolio, &mut book));
    assert_eq!(wallet.balance, 1000);
    assert!(book.buy_orders.is_empty());
    assert!(place_player_order(BuySellMode::Buy, COMPANY, PLAYER, 250, 4, &mut wallet, &mut portfolio, &mut book));
    assert_eq!(wallet.balance, 0);
    assert_eq!(book.buy_orders, vec![BuyOrder::new(COMPANY, 4, 250, PLAYER)]);
}

#[test]
fn selling_hands_over_the_shares() {
    let mut wallet = Wallet { balance: 5 };
    let mut portfolio = SharePortfolio::new_player_portfolio();
    portfolio.add_shares(COMPANY, 10);
    let mut book = OrderBook::new();
    assert!(place_player_order(BuySellMode::Sell, COMPANY, PLAYER, 40, 3, &mut wallet, &mut portfolio, &mut book));
    assert_eq!(portfolio.get_count(&COMPANY), 7);
    assert_eq!(wallet.balance, 5);
    assert_eq!(book.get_sell_orders(COMPANY), &[SellOrder::new(COMPANY, 3, 40, PLAYER)]);
}

#[test]
fn company_list_is_ordered_by_market_cap() {
    let caps = vec![(10u64, 5i64), (2, 100), (50, 1), (1, 50), (100, 2)];
    // caps: 50, 200, 50, 50, 200 -> the two largest first, ties in order.
    assert_eq!(sardips::stock_scene::order_by_market_cap(&caps), vec![1, 4, 0, 2, 3]);
}

#[test]
fn the_focus_screen_shows_what_the_company_and_player_have() {
    // A new company: one quarter, one performance entry, none held.
    assert_eq!(
        focus_layout(1, 1, 0),
        FocusLayout { previous_quarter: 0, year_change_from: None, sell_button: false }
    );
    // Three quarters: compared with the one before, no year yet.
    assert_eq!(
        focus_layout(3, 3, 5),
        FocusLayout { previous_quarter: 1, year_change_from: None, sell_button: true }
    );
    // Six quarters: the year's change is measured from the entry four back.
    assert_eq!(
        focus_layout(6, 6, 1),
        FocusLayout { previous_quarter: 4, year_change_from: Some(2), sell_button: true }
    );
}

#[test]
fn price_steps_are_one_and_five_percent_taken_in_f32() {
    let float = |p: i64| ((p as f32 * 0.01).ceil() as i64, (p as f32 * 0.05).ceil() as i64);
    let mut cases: Vec<i64> = vec![0, 1, 19, 20, 21, 99, 100, 101, 16_777_217, 123_456_789, i64::MAX, i64::MIN, -1, -101];
    let mut x: i64 = 99;
    for _ in 0..20_000 {
        x = x.wrapping_mul(6364136223846793005).wrapping_add(1442695040888963407);
        cases.push(x >> (x.rem_euclid(62)));
    }
    for p in cases {
        assert_eq!(sardips::stock_scene::price_steps(p), float(p), "price {}", p);
    }
    assert_eq!(sardips::stock_scene::price_steps(1000), (10, 50));
}
