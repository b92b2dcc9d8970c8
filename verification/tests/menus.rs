use sardips::menus::{buy_food, page_entries, turn_page, MenuOption};
use sardips::money::Wallet;

#[test]
fn menu_icons() {
    assert_eq!(MenuOption::default(), MenuOption::NoOption);
    assert_eq!(MenuOption::NoOption.get_texture_index(), 0);
    assert_eq!(MenuOption::Tools.get_texture_index(), 1);
    assert_eq!(MenuOption::Food.get_texture_index(), 2);
    assert_eq!(MenuOption::Stocks.get_texture_index(), 5);
    assert_eq!(MenuOption::Options.get_texture_index(), 0);
}

#[test]
fn dipdex_pages_wrap_around() {
    // 12 pets: pages 0, 1 and 2.
    assert_eq!(turn_page(0, 1, 12), 1);
    assert_eq!(turn_page(2, 1, 12), 0);
    assert_eq!(turn_page(0, -1, 12), 2);
    // With exactly 10 pets the last page (2) is empty but reachable.
    assert_eq!(turn_page(1, 1, 10), 2);
    assert_eq!(page_entries(0, 12), (0, 5));
    assert_eq!(page_entries(2, 12), (10, 12));
    assert_eq!(page_entries(2, 10), (10, 10));
    assert_eq!(page_entries(-1, 10), (0, 0));
}

#[test]
fn food_is_paid_for_when_affordable() {
    let mut wallet = Wallet { balance: 100 };
    assert!(!buy_food(&mut wallet, 150));
    assert_eq!(wallet.balance, 100);
    assert!(buy_food(&mut wallet, 100));
    assert_eq!(wallet.balance, 0);
}

#[test]
fn preview_layers_cycle() {
    let mut layers = sardips::menus::PreviewLayers::new();
    assert_eq!(layers.get_next_layer(), 22);
    for _ in 0..8 {
        layers.get_next_layer();
    }
    assert_eq!(layers.last_layer, 30);
    assert_eq!(layers.get_next_layer(), 21);
}

#[test]
fn foods_are_shown_by_name_four_to_a_row() {
    let names: Vec<String> = ["Pear", "Apple", "Bread", "Apple"].iter().map(|s| s.to_string()).collect();
    assert_eq!(sardips::menus::food_order(&names), vec![1, 3, 2, 0]);
    assert_eq!(sardips::menus::food_grid_position(5), (1, 1));
}

#[test]
fn several_purchases_pay_for_what_was_bought() {
    let mut wallet = Wallet { balance: 100 };
    let bought = sardips::menus::buy_interaction(&mut wallet, &vec![60, 50, 30, 20]);
    assert_eq!(bought, vec![true, false, true, false]);
    assert_eq!(wallet.balance, 10);
}

#[test]
fn a_negative_cost_is_always_affordable_and_raises_the_balance() {
    let mut wallet = sardips::money::Wallet { balance: 5 };
    let bought = sardips::menus::buy_interaction(&mut wallet, &vec![-10, 20, 15]);
    assert_eq!(bought, vec![true, false, true]);
    assert_eq!(wallet.balance, 0);
}
