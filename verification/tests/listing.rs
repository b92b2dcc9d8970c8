use sardips::listing::{
    allocate_round, allocation_done, allocation_limit, company_templates, keep_allocating,
    list_company, LISTED_COMPANIES, MAX_STARTING_ALLOCATION,
};
use sardips::stock_market::{Industry, PerformanceRanking, SharePortfolio};

#[test]
fn the_market_opens_with_thirteen_companies() {
    let templates = company_templates();
    assert_eq!(templates.len(), LISTED_COMPANIES);
    let tickers: Vec<&str> = templates.iter().map(|t| t.ticker.as_str()).collect();
    assert_eq!(
        tickers,
        vec!["GROUP", "TSFT", "CENT", "COBA", "NFLM", "USBNK", "CBANK", "TELCO", "KTEL", "RR", "PPCP", "EFARM", "GAMGO"]
    );
    let telco = &templates[7];
    assert_eq!(telco.stock_price, 416);
    assert_eq!(telco.expenses, 22360000000 - 2860000000);
    assert_eq!(telco.outstanding_shares, 11543000000);
    assert_eq!(telco.industries[0].industry, Industry::Telecommunications);
    assert_eq!(telco.industries[0].percent, 100);
    assert_eq!(templates[3].industries.len(), 5);
}

#[test]
fn a_listed_company_keeps_the_shares_beyond_ten_million() {
    let template = company_templates().remove(7);
    let listed = list_company(template, 42);
    assert_eq!(listed.company.ticker, "TELCO");
    assert_eq!(listed.company.existing_shares, 11543000000);
    let first = listed.company.history[0];
    assert_eq!(first.quarter, 0);
    assert_eq!(first.assets, 18690000000 * 100);
    assert_eq!(first.revenue, 22360000000 * 100);
    assert_eq!(first.performance, PerformanceRanking::Average);
    assert_eq!(listed.share_history.cached_price, 416);
    assert_eq!(listed.wallet.balance, 0);
    assert_eq!(listed.to_allocate, MAX_STARTING_ALLOCATION);
    assert_eq!(listed.share_portfolio.get_count(&42), 11543000000 - 10_000_000);
}

#[test]
fn a_small_company_hands_out_all_its_shares() {
    let mut template = company_templates().remove(0);
    template.outstanding_shares = 500;
    let listed = list_company(template, 1);
    assert_eq!(listed.to_allocate, 500);
    assert_eq!(listed.share_portfolio.get_count(&1), 0);
}

#[test]
fn allocation_moves_shares_without_losing_any() {
    assert_eq!(allocation_limit(1000), 100);
    assert_eq!(allocation_limit(30), 30);
    assert!(keep_allocating(5, 99));
    assert!(!keep_allocating(5, 100));
    assert!(!keep_allocating(0, 0));
    let mut left = 150;
    let mut ghost = SharePortfolio::new_player_portfolio();
    allocate_round(9, &mut left, &mut ghost, 100);
    allocate_round(9, &mut left, &mut ghost, 50);
    assert_eq!(left, 0);
    assert_eq!(ghost.get_count(&9), 150);
    assert!(allocation_done(left));
}

#[test]
fn an_allocation_pass_conserves_shares() {
    let mut left = 250;
    let mut ghosts = vec![SharePortfolio::new_player_portfolio(), SharePortfolio::new_player_portfolio()];
    ghosts[1].add_shares(4, 7);
    // Each round: trader at draw.0 % 2, count draw.1 % (limit + 1).
    let draws: Vec<(u64, u64)> = (0..100u64).map(|i| (i, 5150)).collect();
    sardips::listing::allocate_stocks(9, &mut left, &mut ghosts, &draws);
    assert_eq!(left, 0);
    assert_eq!(ghosts[0].get_count(&9), 150);
    assert_eq!(ghosts[1].get_count(&9), 100);
    assert_eq!(ghosts[1].get_count(&4), 7);
    let mut none: Vec<SharePortfolio> = vec![];
    let mut left = 10;
    sardips::listing::allocate_stocks(9, &mut left, &mut none, &draws);
    assert_eq!(left, 10);
}
