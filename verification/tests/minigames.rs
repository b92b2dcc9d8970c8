use sardips::minigames::{pay_prize, MiniGamePrize, MiniGameResult, MiniGameType};
use sardips::money::Wallet;

#[test]
fn prizes_follow_the_table() {
    let p = |g, r| MiniGamePrize::from_result(&g, r);
    assert_eq!(p(MiniGameType::TicTacToe, MiniGameResult::Win), Some(MiniGamePrize::new(600, 5)));
    assert_eq!(p(MiniGameType::TicTacToe, MiniGameResult::Draw), Some(MiniGamePrize::new(200, 1)));
    assert_eq!(p(MiniGameType::FourInRow, MiniGameResult::Win), Some(MiniGamePrize::new(800, 20)));
    assert_eq!(p(MiniGameType::FourInRow, MiniGameResult::Lose), Some(MiniGamePrize::new(500, 1)));
    assert_eq!(p(MiniGameType::Snake, MiniGameResult::Win), Some(MiniGamePrize::new(1000, 10)));
    assert_eq!(p(MiniGameType::Snake, MiniGameResult::Lose), Some(MiniGamePrize::new(50, 1)));
    assert_eq!(p(MiniGameType::Rhythm, MiniGameResult::Incomplete), None);
}

#[test]
fn prizes_are_paid_into_the_wallet() {
    let mut wallet = Wallet { balance: 10 };
    pay_prize(&mut wallet, &MiniGamePrize::new(600, 5));
    assert_eq!(wallet.balance, 610);
}
