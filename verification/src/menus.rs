//! Decisions of the game's screens: the view screen's menu icons, paging
//! through the Dipdex, paying for food, and the render layers of pet previews.
use vstd::prelude::*;

use crate::money::Wallet;
use crate::stock_ticker::sort_by_ticker;
use crate::stock_ticker::texts;
use crate::stock_ticker::ticker_order;
use crate::Money;

verus! {

/// The entries of the view screen's menu.
#[derive(Clone, Copy, Debug, PartialEq, Eq, Structural)]
pub enum MenuOption {
    NoOption,
    Food,
    Tools,
    MiniGames,
    Dipdex,
    Stocks,
    BuyAccessory,
    Options,
}

impl Default for MenuOption {
    fn default() -> (m: Self)
        ensures
            m == MenuOption::NoOption,
    {
        MenuOption::NoOption
    }
}

impl MenuOption {
    /// The icon an entry shows, by its index in the menu's texture atlas; the
    /// entries without an icon of their own share the first.
    pub fn get_texture_index(&self) -> (i: usize)
        ensures
            i == match *self {
                MenuOption::NoOption => 0usize,
                MenuOption::Tools => 1,
                MenuOption::Food => 2,
                MenuOption::MiniGames => 3,
                MenuOption::Dipdex => 4,
                MenuOption::Stocks => 5,
                MenuOption::Options => 0,
                MenuOption::BuyAccessory => 0,
            },
    {
        match self {
            MenuOption::NoOption => 0,
            MenuOption::Tools => 1,
            MenuOption::Food => 2,
            MenuOption::MiniGames => 3,
            MenuOption::Dipdex => 4,
            MenuOption::Stocks => 5,
            MenuOption::Options => 0,
            MenuOption::BuyAccessory => 0,
        }
    }
}

/// Pets shown on one page of the Dipdex.
pub const PAGE_ENTRY_COUNT: usize = 5;

/// The page a page button leads to: the page moved by `step`, wrapping from
/// before the first page to the last (`entries / 5`) and from past the last
/// page to the first.
pub open spec fn spec_turn_page(page: i32, step: i32, entries: usize) -> int {
    let moved = page + step;
    let max = (entries / PAGE_ENTRY_COUNT) as int;
    if moved < 0 {
        max
    } else if moved > max {
        0
    } else {
        moved
    }
}

/// Turns the Dipdex page (see `spec_turn_page`).
pub fn turn_page(page: i32, step: i32, entries: usize) -> (r: i32)
    requires
        i32::MIN <= page + step <= i32::MAX,
        entries / PAGE_ENTRY_COUNT <= i32::MAX,
    ensures
        r == spec_turn_page(page, step, entries),
{
    let moved = page + step;
    let max = (entries / PAGE_ENTRY_COUNT) as i32;
    let mut next = moved;
    if next < 0 {
        next = max;
    }
    if next > max {
        next = 0;
    }
    next
}

/// The positions of the pets a page shows: from `page * 5` for five pets,
/// cut short by the end of the list (empty for a page before the first).
pub fn page_entries(page: i32, entries: usize) -> (r: (usize, usize))
    ensures
        page < 0 ==> r.0 == r.1,
        page >= 0 ==> r.0 == if page * PAGE_ENTRY_COUNT < entries {
            page * PAGE_ENTRY_COUNT
        } else {
            entries as int
        },
        page >= 0 ==> r.1 == if page * PAGE_ENTRY_COUNT + PAGE_ENTRY_COUNT < entries {
            page * PAGE_ENTRY_COUNT + PAGE_ENTRY_COUNT
        } else {
            entries as int
        },
{
    if page < 0 {
        return (0, 0);
    }
    let p = page as usize;
    let start: usize = if p < entries / PAGE_ENTRY_COUNT + 1 && p * PAGE_ENTRY_COUNT < entries {
        p * PAGE_ENTRY_COUNT
    } else {
        entries
    };
    let end: usize = if start < entries && entries - start > PAGE_ENTRY_COUNT {
        start + PAGE_ENTRY_COUNT
    } else {
        entries
    };
    (start, end)
}

/// Pays for food of the given cost: when the wallet holds at least the cost
/// it is taken and the purchase goes ahead; otherwise nothing changes.
pub fn buy_food(wallet: &mut Wallet, cost: Money) -> (bought: bool)
    requires
        cost <= old(wallet).balance ==> old(wallet).balance - cost <= i64::MAX,
    ensures
        bought == (cost <= old(wallet).balance),
        bought ==> final(wallet).balance == old(wallet).balance - cost,
        !bought ==> *final(wallet) == *old(wallet),
{
    if cost > wallet.balance {
        return false;
    }
    wallet.balance = wallet.balance - cost;
    true
}

/// The first render layer kept for pet previews.
pub const PET_PREVIEW_FIRST_LAYER: u32 = 21;

/// The last render layer kept for pet previews.
pub const PET_PREVIEW_LAST_LAYER: u32 = 30;

/// The render layer handed to the last pet preview.
#[derive(Clone, Copy, Debug, PartialEq, Eq)]
pub struct PreviewLayers {
    pub last_layer: u32,
}

impl PreviewLayers {
    /// No preview yet: the next one gets the layer after the first.
    pub fn new() -> (l: Self)
        ensures
            l.last_layer == PET_PREVIEW_FIRST_LAYER,
    {
        PreviewLayers { last_layer: PET_PREVIEW_FIRST_LAYER }
    }

    /// The layer for the next preview: the one after the last, wrapping back
    /// to the first past the last layer kept for previews.
    pub fn get_next_layer(&mut self) -> (layer: usize)
        requires
            old(self).last_layer < u32::MAX,
        ensures
            final(self).last_layer == if old(self).last_layer + 1 > PET_PREVIEW_LAST_LAYER {
                PET_PREVIEW_FIRST_LAYER as int
            } else {
                old(self).last_layer + 1
            },
            layer == final(self).last_layer,
    {
        self.last_layer = self.last_layer + 1;
        if self.last_layer > PET_PREVIEW_LAST_LAYER {
            self.last_layer = PET_PREVIEW_FIRST_LAYER;
        }
        self.last_layer as usize
    }
}

/// Foods shown in one row of the food shop.
pub const FOOD_ROW_COUNT: usize = 4;

/// The order in which the food shop shows foods: by name, foods of equal
/// name in the order given (see `ticker_order`).
pub fn food_order(names: &Vec<String>) -> (r: Vec<usize>)
    ensures
        r@ == ticker_order(texts(names@), names@.len() as int),
{
    sort_by_ticker(names)
}

/// Where the `i`-th food in order stands in the shop: its row and column,
/// four to a row.
pub fn food_grid_position(i: usize) -> (r: (usize, usize))
    ensures
        r.0 == i / FOOD_ROW_COUNT,
        r.1 == i % FOOD_ROW_COUNT,
{
    (i / FOOD_ROW_COUNT, i % FOOD_ROW_COUNT)
}


/// The wallet's balance after the first `n` presses, starting from `balance`:
/// each press pays its cost when the balance covers it.
pub open spec fn balance_after(balance: int, costs: Seq<Money>, n: int) -> int
    decreases n,
{
    if n <= 0 {
        balance
    } else {
        let b = balance_after(balance, costs, n - 1);
        if costs[n - 1] <= b {
            b - costs[n - 1]
        } else {
            b
        }
    }
}

/// What pressing buy buttons does: for each press in order, the food is
/// paid for when the wallet holds at least its cost (and is then spawned),
/// else nothing changes. Returns, for each press, whether the food was bought.
/// The balance must stay within `Money` along the way.
pub fn buy_interaction(wallet: &mut Wallet, costs: &Vec<Money>) -> (bought: Vec<bool>)
    requires
        forall|i: int|
            0 <= i <= costs@.len() ==> #[trigger] balance_after(old(wallet).balance as int, costs@, i)
                <= i64::MAX,
    ensures
        bought@.len() == costs@.len(),
        final(wallet).balance == balance_after(old(wallet).balance as int, costs@, costs@.len() as int),
        final(wallet).balance == old(wallet).balance - paid(costs@, bought@, costs@.len() as int),
        old(wallet).balance >= 0 ==> final(wallet).balance >= 0,
        forall|i: int|
            0 <= i < costs@.len() ==> #[trigger] bought@[i] == (costs@[i] <= balance_after(
                old(wallet).balance as int,
                costs@,
                i,
            )),
        forall|i: int|
            0 <= i < costs@.len() ==> #[trigger] bought@[i] == (costs@[i] <= old(wallet).balance
                - paid(costs@, bought@, i)),
{
    let mut bought: Vec<bool> = Vec::new();
    let mut i: usize = 0;
    while i < costs.len()
        invariant
            0 <= i <= costs@.len(),
            bought@.len() == i,
            forall|j: int|
                0 <= j <= costs@.len() ==> #[trigger] balance_after(old(wallet).balance as int, costs@, j)
                    <= i64::MAX,
            wallet.balance == old(wallet).balance - paid(costs@, bought@, i as int),
            wallet.balance == balance_after(old(wallet).balance as int, costs@, i as int),
            old(wallet).balance >= 0 ==> wallet.balance >= 0,
            forall|j: int|
                0 <= j < i ==> #[trigger] bought@[j] == (costs@[j] <= balance_after(
                    old(wallet).balance as int,
                    costs@,
                    j,
                )),
            forall|j: int|
                0 <= j < i ==> #[trigger] bought@[j] == (costs@[j] <= old(wallet).balance - paid(
                    costs@,
                    bought@,
                    j,
                )),
        decreases costs@.len() - i,
    {
        let ghost bs = bought@;
        proof {
            assert(balance_after(old(wallet).balance as int, costs@, i as int + 1) <= i64::MAX);
        }
        let ok = buy_food(wallet, costs[i]);
        bought.push(ok);
        proof {
            lemma_paid_prefix(costs@, bs, bought@, i as int + 1);
            assert forall|j: int| 0 <= j < i + 1 implies #[trigger] bought@[j] == (costs@[j]
                <= old(wallet).balance - paid(costs@, bought@, j)) by {
                lemma_paid_prefix(costs@, bs, bought@, j);
                if j < i {
                    assert(bought@[j] == bs[j]);
                }
            }
        }
        i = i + 1;
    }
    bought
}

/// What the first `n` presses paid: the costs of the foods bought.
pub open spec fn paid(costs: Seq<Money>, bought: Seq<bool>, n: int) -> int
    decreases n,
{
    if n <= 0 {
        0
    } else {
        paid(costs, bought, n - 1) + if bought[n - 1] {
            costs[n - 1] as int
        } else {
            0
        }
    }
}

proof fn lemma_paid_prefix(costs: Seq<Money>, a: Seq<bool>, b: Seq<bool>, n: int)
    requires
        n <= b.len(),
        forall|j: int| 0 <= j < n && j < a.len() ==> a[j] == b[j],
        n - 1 <= a.len(),
    ensures
        n - 1 >= 0 ==> paid(costs, b, n) == paid(costs, a, n - 1) + if b[n - 1] {
            costs[n - 1] as int
        } else {
            0
        },
        n <= a.len() ==> paid(costs, a, n) == paid(costs, b, n),
    decreases n,
{
    if n > 0 {
        lemma_paid_prefix(costs, a, b, n - 1);
    }
}

/// The layer the `k`-th preview gets, counting from a fresh set of layers.
pub open spec fn layer_after(k: nat) -> int
    decreases k,
{
    if k == 0 {
        PET_PREVIEW_FIRST_LAYER as int
    } else {
        let l = layer_after((k - 1) as nat);
        if l + 1 > PET_PREVIEW_LAST_LAYER { PET_PREVIEW_FIRST_LAYER as int } else { l + 1 }
    }
}

/// Preview layers cycle through 21 to 30 with period ten: after `k` calls
/// from a fresh set, the last layer handed out is `21 + k % 10`.
pub proof fn lemma_layers_cycle(k: nat)
    ensures
        layer_after(k) == PET_PREVIEW_FIRST_LAYER + k % 10,
        PET_PREVIEW_FIRST_LAYER <= layer_after(k) <= PET_PREVIEW_LAST_LAYER,
    decreases k,
{
    if k > 0 {
        lemma_layers_cycle((k - 1) as nat);
    }
}

} // verus!
