//! Sardips, a virtual-pet game with a stock market: the game's rules and
//! bookkeeping, with their contracts proved.
//!
//! The market (`stock_market`, `exchange`, `listing`, `trader`) keeps the
//! order book, matches and settles trades and lists companies; the screens
//! (`stock_scene`, `stock_ticker`, `menus`, `dipdex`, `console`) decide what is shown
//! and what the controls do; the pets (`mood`, `breeding`, `minigames`,
//! `inventory`) follow their timers and rolls; `simulation` and `timer` pace
//! it all, and `save` packs a save for the remote store. `rounding` gives in
//! whole numbers exactly what the game's float arithmetic gives where a rule
//! depends on it (a trader's budget, the share price).
pub mod breeding;
pub mod console;
pub mod dipdex;
pub mod exchange;
pub mod inventory;
pub mod listing;
pub mod menus;
pub mod minigames;
pub mod money;
pub mod mood;
pub mod rounding;
pub mod save;
pub mod simulation;
pub mod stock_market;
pub mod stock_scene;
pub mod stock_ticker;
pub mod timer;
pub mod trader;

use vstd::prelude::*;

verus! {

/// Amount of money in hundredths of the game's currency.
pub type Money = i64;

} // verus!
