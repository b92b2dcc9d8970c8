use sardips::stock_ticker::{
    next_offset, price_move, sort_by_ticker, ticker_lt, ticker_padding, ticker_rows,
    ticker_window, PriceMove,
};

#[test]
fn tickers_compare_character_by_character() {
    assert!(ticker_lt("CBANK", "CENT"));
    assert!(!ticker_lt("CENT", "CBANK"));
    assert!(ticker_lt("RR", "RRX"));
    assert!(!ticker_lt("RR", "RR"));
}

#[test]
fn companies_are_sorted_by_ticker_stably() {
    let tickers: Vec<String> = ["TELCO", "CENT", "RR", "CENT", "ABC"].iter().map(|s| s.to_string()).collect();
    assert_eq!(sort_by_ticker(&tickers), vec![4, 1, 3, 2, 0]);
}

#[test]
fn rows_take_five_from_the_end() {
    let order: Vec<usize> = (0..12).collect();
    let rows = ticker_rows(&order, 3);
    assert_eq!(rows[0], vec![11, 10, 9, 8, 7]);
    assert_eq!(rows[1], vec![6, 5, 4, 3, 2]);
    assert_eq!(rows[2], vec![1, 0]);
    let rows = ticker_rows(&order, 4);
    assert!(rows[3].is_empty());
}

#[test]
fn entries_and_scrolling() {
    assert_eq!(price_move(110, 100), PriceMove::Up);
    assert_eq!(price_move(90, 100), PriceMove::Down);
    assert_eq!(price_move(100, 100), PriceMove::Flat);
    assert_eq!(ticker_padding(2), 3);
    assert_eq!(next_offset(4), 5);
    assert_eq!(next_offset(i32::MAX), 0);
    let w = ticker_window(6, 3);
    assert_eq!(w.len(), 20);
    assert_eq!(&w[..8], &[3, 4, 0, 1, 2, 3, 4, 0]);
}
