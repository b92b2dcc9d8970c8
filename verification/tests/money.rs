use sardips::money::{money_scale, money_sign, MoneyScale, Wallet};

#[test]
fn large_amounts_pick_their_unit() {
    assert_eq!(money_scale(250_000_000_000_000), Some(MoneyScale::Trillion));
    assert_eq!(money_scale(-250_000_000_000_000), Some(MoneyScale::Trillion));
    assert_eq!(money_scale(100_000_000_000_000), Some(MoneyScale::Billion));
    assert_eq!(money_scale(123_456_789), Some(MoneyScale::Million));
    assert_eq!(money_scale(100_001), Some(MoneyScale::Thousand));
    assert_eq!(money_scale(100_000), Some(MoneyScale::Unit));
    assert_eq!(money_scale(2), Some(MoneyScale::Unit));
    assert_eq!(money_scale(1), None);
    assert_eq!(money_scale(0), None);
    assert_eq!(money_scale(-1), None);
}

#[test]
fn units_have_sizes_and_letters() {
    assert_eq!(MoneyScale::Trillion.divisor(), 100_000_000_000_000);
    assert_eq!(MoneyScale::Thousand.divisor(), 100_000);
    assert_eq!(MoneyScale::Billion.suffix(), "B");
    assert_eq!(MoneyScale::Unit.suffix(), "");
    assert_eq!(money_sign(-5), "-");
    assert_eq!(money_sign(5), "");
    assert_eq!(Wallet::default().balance, 0);
}

#[test]
fn money_is_given_to_every_wallet() {
    let mut wallets = vec![Wallet { balance: 5 }, Wallet { balance: -3 }];
    sardips::money::give_money(&mut wallets, 100);
    assert_eq!(wallets[0].balance, 105);
    assert_eq!(wallets[1].balance, 97);
}
