//! Prizes for playing minigames.
use vstd::prelude::*;

use crate::money::Wallet;
use crate::Money;

verus! {

/// The minigames a pet can play.
#[derive(Clone, Copy, Debug, PartialEq, Eq)]
pub enum MiniGameType {
    TicTacToe,
    HigherLower,
    FourInRow,
    EndlessShooter,
    Rhythm,
    Translate,
    RectClash,
    Snake,
}

/// How a minigame ended.
#[derive(Clone, Copy, Debug, PartialEq, Eq)]
pub enum MiniGameResult {
    Win,
    Draw,
    Lose,
    Incomplete,
}

/// What a finished minigame earns: money for the player and fun points for the pet.
#[derive(Clone, Copy, Debug, PartialEq, Eq)]
pub struct MiniGamePrize {
    pub money: Money,
    pub fun: u32,
}

/// The prize table: an unfinished game earns nothing; tic-tac-toe pays 600,
/// 200 or 100 (fun 5, 1, 1) for a win, draw or loss; four-in-a-row pays 800,
/// 20000 or 500 (fun 20, 5, 1); every other game pays 1000, 50 or 50 (fun
/// 10, 1, 1).
pub open spec fn spec_prize(game: MiniGameType, result: MiniGameResult) -> Option<MiniGamePrize> {
    let p = |money: Money, fun: u32| Some(MiniGamePrize { money, fun });
    match result {
        MiniGameResult::Incomplete => None,
        MiniGameResult::Win => match game {
            MiniGameType::TicTacToe => p(600, 5),
            MiniGameType::FourInRow => p(800, 20),
            _ => p(1000, 10),
        },
        MiniGameResult::Draw => match game {
            MiniGameType::TicTacToe => p(200, 1),
            MiniGameType::FourInRow => p(20000, 5),
            _ => p(50, 1),
        },
        MiniGameResult::Lose => match game {
            MiniGameType::TicTacToe => p(100, 1),
            MiniGameType::FourInRow => p(500, 1),
            _ => p(50, 1),
        },
    }
}

impl MiniGamePrize {
    pub fn new(money: Money, fun: u32) -> (p: Self)
        ensures
            p == (MiniGamePrize { money, fun }),
    {
        MiniGamePrize { money, fun }
    }

    /// The prize for a game's result (see `spec_prize`).
    pub fn from_result(game_type: &MiniGameType, result: MiniGameResult) -> (p: Option<MiniGamePrize>)
        ensures
            p == spec_prize(*game_type, result),
    {
        match result {
            MiniGameResult::Incomplete => None,
            MiniGameResult::Win => match game_type {
                MiniGameType::TicTacToe => Some(MiniGamePrize::new(600, 5)),
                MiniGameType::FourInRow => Some(MiniGamePrize::new(800, 20)),
                _ => Some(MiniGamePrize::new(1000, 10)),
            },
            MiniGameResult::Draw => match game_type {
                MiniGameType::TicTacToe => Some(MiniGamePrize::new(200, 1)),
                MiniGameType::FourInRow => Some(MiniGamePrize::new(20000, 5)),
                _ => Some(MiniGamePrize::new(50, 1)),
            },
            MiniGameResult::Lose => match game_type {
                MiniGameType::TicTacToe => Some(MiniGamePrize::new(100, 1)),
                MiniGameType::FourInRow => Some(MiniGamePrize::new(500, 1)),
                _ => Some(MiniGamePrize::new(50, 1)),
            },
        }
    }
}

/// Every finished game earns some money and some fun; an unfinished one earns nothing.
pub proof fn lemma_finished_games_pay(game: MiniGameType, result: MiniGameResult)
    ensures
        spec_prize(game, result) is None <==> result == MiniGameResult::Incomplete,
        spec_prize(game, result) matches Some(p) ==> p.money > 0 && p.fun > 0,
{
}

/// Pays a prize into the player's wallet.
pub fn pay_prize(wallet: &mut Wallet, prize: &MiniGamePrize)
    requires
        i64::MIN <= old(wallet).balance + prize.money <= i64::MAX,
    ensures
        final(wallet).balance == old(wallet).balance + prize.money,
{
    wallet.balance = wallet.balance + prize.money;
}

/// How much a pet likes a kind of minigame.
#[derive(Clone, Copy, Debug, PartialEq, Eq, Structural)]
pub enum MinigamePreference {
    Likes,
    Neutral,
    Hates,
}

impl Default for MinigamePreference {
    fn default() -> (p: Self)
        ensures
            p == MinigamePreference::Neutral,
    {
        MinigamePreference::Neutral
    }
}

} // verus!
