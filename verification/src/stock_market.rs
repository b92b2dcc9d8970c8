//! The stock market: portfolios, price history, companies, and the order book.
use std::collections::HashMap;

use vstd::prelude::*;
use vstd::string::*;

use crate::money::Wallet;
use crate::rounding::{float_quotient, f64_quotient, lemma_f64_quotient_exact, F64_LIMIT};
use crate::timer::{spec_tick, RepeatingTimer};
use crate::Money;

verus! {

broadcast use vstd::std_specs::hash::group_hash_axioms;

/// Identifies an entity of the game world (a company, a trader, the player).
pub type EntityId = u64;

// ---------------------------------------------------------------------------
// Share portfolios
// ---------------------------------------------------------------------------

/// How many shares of each company an owner holds.
#[derive(Debug)]
pub struct SharePortfolio {
    pub owned_shares: HashMap<EntityId, u64>,
}

/// The number of shares of `company` in a portfolio's contents (zero when absent).
pub open spec fn share_count(m: Map<EntityId, u64>, company: EntityId) -> nat {
    if m.contains_key(company) {
        m[company] as nat
    } else {
        0
    }
}

impl View for SharePortfolio {
    type V = Map<EntityId, u64>;

    open spec fn view(&self) -> Map<EntityId, u64> {
        self.owned_shares@
    }
}

impl SharePortfolio {
    /// An empty portfolio.
    pub fn new_player_portfolio() -> (p: Self)
        ensures
            p@ == Map::<EntityId, u64>::empty(),
    {
        SharePortfolio { owned_shares: HashMap::new() }
    }

    /// Adds `quantity` shares of `company`.
    pub fn add_shares(&mut self, company: EntityId, quantity: u64)
        requires
            share_count(old(self)@, company) + quantity <= u64::MAX,
        ensures
            final(self)@ == old(self)@.insert(
                company,
                (share_count(old(self)@, company) + quantity) as u64,
            ),
    {
        let current = self.get_count(&company);
        self.owned_shares.insert(company, current + quantity);
    }

    /// Removes `quantity` shares of `company`, or all of them if fewer are held.
    pub fn remove_shares(&mut self, company: EntityId, quantity: u64)
        ensures
            final(self)@ == old(self)@.insert(
                company,
                if share_count(old(self)@, company) < quantity {
                    0u64
                } else {
                    (share_count(old(self)@, company) - quantity) as u64
                },
            ),
    {
        let current = self.get_count(&company);
        if current < quantity {
            self.owned_shares.insert(company, 0);
        } else {
            self.owned_shares.insert(company, current - quantity);
        }
    }

    /// The number of shares of `company` held.
    pub fn get_count(&self, company: &EntityId) -> (n: u64)
        ensures
            n == share_count(self@, *company),
    {
        match self.owned_shares.get(company) {
            Some(n) => *n,
            None => 0,
        }
    }
}

// ---------------------------------------------------------------------------
// Industries
// ---------------------------------------------------------------------------

/// The sector a company works in.
#[derive(Clone, Copy, Debug, PartialEq, Eq)]
pub enum Industry {
    Tech,
    Telecommunications,
    Finance,
    Manufacturing,
    Retail,
    Healthcare,
    Energy,
    RealEstate,
    Transportation,
    Food,
    Entertainment,
    Mining,
}

/// The text key naming an industry: `industry.<lower-case variant name>.name`.
pub open spec fn spec_industry_name_key(i: Industry) -> Seq<char> {
    match i {
        Industry::Tech => "industry.tech.name"@,
        Industry::Telecommunications => "industry.telecommunications.name"@,
        Industry::Finance => "industry.finance.name"@,
        Industry::Manufacturing => "industry.manufacturing.name"@,
        Industry::Retail => "industry.retail.name"@,
        Industry::Healthcare => "industry.healthcare.name"@,
        Industry::Energy => "industry.energy.name"@,
        Industry::RealEstate => "industry.realestate.name"@,
        Industry::Transportation => "industry.transportation.name"@,
        Industry::Food => "industry.food.name"@,
        Industry::Entertainment => "industry.entertainment.name"@,
        Industry::Mining => "industry.mining.name"@,
    }
}

impl Industry {
    /// The text key naming this industry.
    pub fn name_key(&self) -> (s: String)
        ensures
            s@ == spec_industry_name_key(*self),
    {
        match self {
            Industry::Tech => String::from_str("industry.tech.name"),
            Industry::Telecommunications => String::from_str("industry.telecommunications.name"),
            Industry::Finance => String::from_str("industry.finance.name"),
            Industry::Manufacturing => String::from_str("industry.manufacturing.name"),
            Industry::Retail => String::from_str("industry.retail.name"),
            Industry::Healthcare => String::from_str("industry.healthcare.name"),
            Industry::Energy => String::from_str("industry.energy.name"),
            Industry::RealEstate => String::from_str("industry.realestate.name"),
            Industry::Transportation => String::from_str("industry.transportation.name"),
            Industry::Food => String::from_str("industry.food.name"),
            Industry::Entertainment => String::from_str("industry.entertainment.name"),
            Industry::Mining => String::from_str("industry.mining.name"),
        }
    }
}

// ---------------------------------------------------------------------------
// Quarterly performance
// ---------------------------------------------------------------------------

/// How well a company did in a quarter, from best to worst.
#[derive(Clone, Copy, Debug, PartialEq, Eq)]
pub enum PerformanceRanking {
    Extraordinary,
    Excellent,
    Good,
    Average,
    Poor,
    Terrible,
    Horrific,
}

/// The rankings in the order their transition weights are listed.
pub open spec fn ranking_at(i: int) -> PerformanceRanking {
    if i == 0 {
        PerformanceRanking::Extraordinary
    } else if i == 1 {
        PerformanceRanking::Excellent
    } else if i == 2 {
        PerformanceRanking::Good
    } else if i == 3 {
        PerformanceRanking::Average
    } else if i == 4 {
        PerformanceRanking::Poor
    } else if i == 5 {
        PerformanceRanking::Terrible
    } else {
        PerformanceRanking::Horrific
    }
}

/// Relative weights (out of 1000) of the next quarter's ranking, given this one.
pub open spec fn transition_weights(r: PerformanceRanking) -> Seq<u64> {
    match r {
        PerformanceRanking::Extraordinary => seq![50, 100, 100, 250, 250, 200, 50],
        PerformanceRanking::Excellent => seq![20, 200, 350, 350, 50, 22, 8],
        PerformanceRanking::Good => seq![10, 100, 500, 350, 30, 5, 5],
        PerformanceRanking::Average => seq![1, 37, 100, 800, 50, 11, 1],
        PerformanceRanking::Poor => seq![5, 5, 30, 350, 500, 100, 10],
        PerformanceRanking::Terrible => seq![8, 22, 50, 350, 350, 200, 20],
        PerformanceRanking::Horrific => seq![10, 20, 20, 100, 25, 25, 800],
    }
}

/// Sum of the first `n` weights.
pub open spec fn weight_prefix(w: Seq<u64>, n: int) -> int
    decreases n,
{
    if n <= 0 {
        0
    } else {
        weight_prefix(w, n - 1) + w[n - 1]
    }
}

/// The index a roll selects: the one whose cumulative weight range holds the roll.
pub open spec fn picks(w: Seq<u64>, roll: int, i: int) -> bool {
    0 <= i < w.len() && weight_prefix(w, i) <= roll < weight_prefix(w, i + 1)
}

proof fn lemma_weight_prefix_monotone(w: Seq<u64>, a: int, b: int)
    requires
        0 <= a <= b <= w.len(),
    ensures
        weight_prefix(w, a) <= weight_prefix(w, b),
    decreases b - a,
{
    if a < b {
        lemma_weight_prefix_monotone(w, a, b - 1);
    }
}

/// Picks an index with probability proportional to its weight, given a roll
/// drawn uniformly from `0..` the total weight.
pub fn weighted_pick(weights: &[u64], roll: u64) -> (i: usize)
    requires
        roll < weight_prefix(weights@, weights@.len() as int),
        weight_prefix(weights@, weights@.len() as int) <= u64::MAX,
    ensures
        picks(weights@, roll as int, i as int),
{
    let mut i: usize = 0;
    let mut acc: u64 = 0;
    proof {
        lemma_weight_prefix_monotone(weights@, 0, weights@.len() as int);
    }
    while i < weights.len()
        invariant
            0 <= i <= weights@.len(),
            acc == weight_prefix(weights@, i as int),
            acc <= roll,
            roll < weight_prefix(weights@, weights@.len() as int),
            weight_prefix(weights@, weights@.len() as int) <= u64::MAX,
        decreases weights.len() - i,
    {
        proof {
            lemma_weight_prefix_monotone(weights@, i + 1, weights@.len() as int);
        }
        let next = acc + weights[i];
        if roll < next {
            return i;
        }
        acc = next;
        i = i + 1;
    }
    i
}

/// Any index of positive weight can be picked, and one of zero weight never is.
pub proof fn lemma_pick_reaches_exactly_positive_weights(w: Seq<u64>, i: int)
    requires
        0 <= i < w.len(),
    ensures
        w[i] > 0 ==> picks(w, weight_prefix(w, i), i),
        w[i] == 0 ==> forall|roll: int| !picks(w, roll, i),
{
}

impl PerformanceRanking {
    /// The next quarter's ranking, given a roll drawn uniformly from `0..1000`.
    pub fn next(&self, roll: u64) -> (r: PerformanceRanking)
        requires
            roll < 1000,
        ensures
            exists|i: int| picks(transition_weights(*self), roll as int, i) && r == ranking_at(i),
    {
        let weights: [u64; 7] = match self {
            PerformanceRanking::Extraordinary => [50, 100, 100, 250, 250, 200, 50],
            PerformanceRanking::Excellent => [20, 200, 350, 350, 50, 22, 8],
            PerformanceRanking::Good => [10, 100, 500, 350, 30, 5, 5],
            PerformanceRanking::Average => [1, 37, 100, 800, 50, 11, 1],
            PerformanceRanking::Poor => [5, 5, 30, 350, 500, 100, 10],
            PerformanceRanking::Terrible => [8, 22, 50, 350, 350, 200, 20],
            PerformanceRanking::Horrific => [10, 20, 20, 100, 25, 25, 800],
        };
        assert(weights@ == transition_weights(*self));
        assert(weight_prefix(weights@, 7) == 1000) by {
            reveal_with_fuel(weight_prefix, 8);
        }
        let i = weighted_pick(weights.as_slice(), roll);
        let r = match i {
            0 => PerformanceRanking::Extraordinary,
            1 => PerformanceRanking::Excellent,
            2 => PerformanceRanking::Good,
            3 => PerformanceRanking::Average,
            4 => PerformanceRanking::Poor,
            5 => PerformanceRanking::Terrible,
            _ => PerformanceRanking::Horrific,
        };
        assert(picks(transition_weights(*self), roll as int, i as int) && r == ranking_at(i as int));
        r
    }
}

/// One quarter of a company's books.
#[derive(Clone, Copy, Debug, PartialEq, Eq)]
pub struct CompanyHistory {
    pub quarter: u32,
    pub assets: Money,
    pub revenue: Money,
    pub expenses: Money,
    pub total_shares: u64,
    pub dividend_paid: Money,
    pub performance: PerformanceRanking,
}


// ---------------------------------------------------------------------------
// Share price history
// ---------------------------------------------------------------------------

/// How many trades a share history remembers.
pub const HISTORY_CAPACITY: usize = 300;

/// How many of the most recently traded shares the share price averages over.
pub const PRICE_WINDOW_VOLUME: u64 = 20000;

/// A trade as the price history records it: volume and price per share.
#[derive(Clone, Copy, Debug, PartialEq, Eq)]
pub struct BuyOrderBrief {
    pub quantity: u64,
    pub price: Money,
}

impl BuyOrderBrief {
    pub fn new(quantity: u64, price: Money) -> (b: Self)
        ensures
            b.quantity == quantity,
            b.price == price,
    {
        BuyOrderBrief { quantity, price }
    }
}

/// The recent trades of one company's shares, oldest first, and the cached price.
#[derive(Debug)]
pub struct ShareHistory {
    pub history: Vec<BuyOrderBrief>,
    pub cached_price: Money,
    pub dirty_price: bool,
}

/// Appending to a history that is full forgets its oldest entry.
pub open spec fn spec_history_push(h: Seq<BuyOrderBrief>, e: BuyOrderBrief) -> Seq<BuyOrderBrief> {
    if h.len() >= HISTORY_CAPACITY {
        h.drop_first().push(e)
    } else {
        h.push(e)
    }
}

/// The part of a trade of `quantity` shares that still fits in a window
/// that needs `needed` more shares.
pub open spec fn take_amount(quantity: u64, needed: int) -> int {
    if quantity < needed {
        quantity as int
    } else {
        needed
    }
}

/// Walks the first `k` trades of `e` from the newest back, adding price times
/// volume and volume until the window is full: the result is
/// (total paid, total volume) over the newest `PRICE_WINDOW_VOLUME` shares.
pub open spec fn vwap_from(
    e: Seq<BuyOrderBrief>,
    k: int,
    needed: int,
    acc_p: int,
    acc_v: int,
) -> (int, int)
    decreases k,
{
    if k <= 0 || k > e.len() {
        (acc_p, acc_v)
    } else {
        let x = e[k - 1];
        let t = take_amount(x.quantity, needed);
        if t != x.quantity {
            (acc_p + x.price * t, acc_v + t)
        } else {
            vwap_from(e, k - 1, needed - t, acc_p + x.price * t, acc_v + t)
        }
    }
}

/// Whether every running total of `vwap_from` fits in the money type.
pub open spec fn vwap_fits(e: Seq<BuyOrderBrief>, k: int, needed: int, acc_p: int) -> bool
    decreases k,
{
    if k <= 0 || k > e.len() {
        true
    } else {
        let x = e[k - 1];
        let t = take_amount(x.quantity, needed);
        let prod = x.price * t;
        &&& i64::MIN <= prod <= i64::MAX
        &&& i64::MIN <= acc_p + prod <= i64::MAX
        &&& (t != x.quantity || vwap_fits(e, k - 1, needed - t, acc_p + prod))
    }
}

/// Division rounding toward zero.
pub open spec fn trunc_div(a: int, b: int) -> int {
    if a >= 0 {
        a / b
    } else {
        -((-a) / b)
    }
}

/// What `(p as f64 / v as f64) as i64` gives for `v` from 1 to 2^20: the
/// float quotient (see `f64_quotient`) truncated toward zero, saturating at
/// the limits of `i64` as the cast does.
pub open spec fn f64_div_trunc(p: int, v: nat) -> int {
    if p == 0 {
        0
    } else if p > 0 {
        let q = f64_quotient(p as nat, v);
        if q > i64::MAX {
            i64::MAX as int
        } else {
            q as int
        }
    } else {
        let q = f64_quotient((-p) as nat, v);
        if q > 0x8000_0000_0000_0000 {
            i64::MIN as int
        } else {
            -q
        }
    }
}

/// Below 2^53 in size, the float division gives the whole-number quotient
/// truncated toward zero.
pub proof fn lemma_f64_div_exact(p: int, v: nat)
    requires
        0 < p < F64_LIMIT || -(F64_LIMIT as int) < p < 0,
        v >= 1,
    ensures
        f64_div_trunc(p, v) == trunc_div(p, v as int),
{
    let a: nat = if p > 0 {
        p as nat
    } else {
        (-p) as nat
    };
    lemma_f64_quotient_exact(a, v);
    assert(a / v <= a) by {
        vstd::arithmetic::div_mod::lemma_div_is_ordered_by_denominator(a as int, 1, v as int);
    }
}

/// The share price of a history: the average price per share, weighted by
/// volume, of the newest `PRICE_WINDOW_VOLUME` shares traded, divided in
/// 64-bit floats and truncated (see `f64_div_trunc`); 1 when nothing (or
/// nothing of value) was traded.
pub open spec fn spec_price(e: Seq<BuyOrderBrief>) -> int {
    let (p, v) = vwap_from(e, e.len() as int, PRICE_WINDOW_VOLUME as int, 0, 0);
    if v == 0 || p == 0 {
        1
    } else {
        f64_div_trunc(p, v as nat)
    }
}

/// Whether computing the price of `e` stays within the money type.
pub open spec fn price_fits(e: Seq<BuyOrderBrief>) -> bool {
    vwap_fits(e, e.len() as int, PRICE_WINDOW_VOLUME as int, 0)
}

proof fn lemma_vwap_volume_bounded(e: Seq<BuyOrderBrief>, k: int, needed: int, acc_p: int, acc_v: int)
    requires
        0 <= needed,
        0 <= acc_v,
    ensures
        acc_v <= vwap_from(e, k, needed, acc_p, acc_v).1 <= acc_v + needed,
    decreases k,
{
    if k <= 0 || k > e.len() {
    } else {
        let x = e[k - 1];
        let t = take_amount(x.quantity, needed);
        if t != x.quantity {
        } else {
            lemma_vwap_volume_bounded(e, k - 1, needed - t, acc_p + x.price * t, acc_v + t);
        }
    }
}

impl ShareHistory {
    /// A history holding one trade of 1000 shares at the starting price.
    pub fn new(starting_price: Money) -> (h: Self)
        ensures
            h.history@ == seq![BuyOrderBrief { quantity: 1000, price: starting_price }],
            h.cached_price == starting_price,
            !h.dirty_price,
    {
        let mut history = Vec::new();
        history.push(BuyOrderBrief::new(1000, starting_price));
        ShareHistory { history, cached_price: starting_price, dirty_price: false }
    }

    /// Records a trade of `volume` shares at `price`.
    pub fn add_entry(&mut self, price: Money, volume: u64)
        ensures
            final(self).history@ == spec_history_push(
                old(self).history@,
                BuyOrderBrief { quantity: volume, price },
            ),
            final(self).cached_price == old(self).cached_price,
            final(self).dirty_price,
    {
        if self.history.len() >= HISTORY_CAPACITY {
            self.history.remove(0);
        }
        self.history.push(BuyOrderBrief::new(volume, price));
        self.dirty_price = true;
    }

    /// Recomputes the cached price if a trade was recorded since it was last computed.
    pub fn update_cached_price(&mut self)
        requires
            price_fits(old(self).history@),
        ensures
            final(self).history@ == old(self).history@,
            !final(self).dirty_price,
            final(self).cached_price == if old(self).dirty_price {
                spec_price(old(self).history@)
            } else {
                old(self).cached_price as int
            },
    {
        if !self.dirty_price {
            return;
        }
        self.cached_price = self.price();
        self.dirty_price = false;
    }

    /// The current share price (see `spec_price`).
    pub fn price(&self) -> (p: Money)
        requires
            price_fits(self.history@),
        ensures
            p == spec_price(self.history@),
    {
        let ghost e = self.history@;
        let mut total_price: i64 = 0;
        let mut total_volume: u64 = 0;
        let mut k: usize = self.history.len();
        while k > 0
            invariant_except_break
                0 <= k <= e.len(),
                e == self.history@,
                total_volume <= PRICE_WINDOW_VOLUME,
                vwap_from(e, e.len() as int, PRICE_WINDOW_VOLUME as int, 0, 0) == vwap_from(
                    e,
                    k as int,
                    PRICE_WINDOW_VOLUME - total_volume,
                    total_price as int,
                    total_volume as int,
                ),
                vwap_fits(e, k as int, PRICE_WINDOW_VOLUME - total_volume, total_price as int),
            ensures
                total_volume <= PRICE_WINDOW_VOLUME,
                vwap_from(e, e.len() as int, PRICE_WINDOW_VOLUME as int, 0, 0) == (
                    total_price as int,
                    total_volume as int,
                ),
            decreases k,
        {
            let entry = self.history[k - 1];
            let remaining_needed = PRICE_WINDOW_VOLUME - total_volume;
            let taken = if entry.quantity < remaining_needed {
                entry.quantity
            } else {
                remaining_needed
            };
            assert(taken as int == take_amount(entry.quantity, remaining_needed as int));
            assert(taken <= 20000);
            let prod = entry.price * (taken as i64);
            total_price = total_price + prod;
            total_volume = total_volume + taken;
            k = k - 1;
            if taken != entry.quantity {
                break;
            }
        }
        if total_volume == 0 || total_price == 0 {
            return 1;
        }
        proof {
            lemma_vwap_volume_bounded(e, e.len() as int, PRICE_WINDOW_VOLUME as int, 0, 0);
        }
        let magnitude: u128 = if total_price > 0 {
            total_price as u128
        } else {
            (0i128 - total_price as i128) as u128
        };
        let q = float_quotient(magnitude, total_volume as u128);
        if total_price > 0 {
            if q > 0x7fff_ffff_ffff_ffff {
                0x7fff_ffff_ffff_ffff
            } else {
                q as i64
            }
        } else if q > 0x8000_0000_0000_0000 {
            -0x8000_0000_0000_0000
        } else {
            (0i128 - q as i128) as i64
        }
    }
}

impl ShareHistory {
    /// Whether the price of this history can be computed within the money
    /// type (see `price_fits`).
    pub fn price_computable(&self) -> (b: bool)
        ensures
            b == price_fits(self.history@),
    {
        let ghost e = self.history@;
        let mut total_price: i64 = 0;
        let mut total_volume: u64 = 0;
        let mut k: usize = self.history.len();
        while k > 0
            invariant
                0 <= k <= e.len(),
                e == self.history@,
                total_volume <= PRICE_WINDOW_VOLUME,
                price_fits(e) == vwap_fits(
                    e,
                    k as int,
                    PRICE_WINDOW_VOLUME - total_volume,
                    total_price as int,
                ),
            decreases k,
        {
            let entry = self.history[k - 1];
            let remaining_needed = PRICE_WINDOW_VOLUME - total_volume;
            let taken = if entry.quantity < remaining_needed {
                entry.quantity
            } else {
                remaining_needed
            };
            assert(taken as int == take_amount(entry.quantity, remaining_needed as int));
            let prod = match entry.price.checked_mul(taken as i64) {
                Some(p) => p,
                None => {
                    return false;
                },
            };
            let next = match total_price.checked_add(prod) {
                Some(t) => t,
                None => {
                    return false;
                },
            };
            if taken != entry.quantity {
                return true;
            }
            total_price = next;
            total_volume = total_volume + taken;
            k = k - 1;
        }
        true
    }

    /// The share price, or none where computing it would leave the money
    /// type (see `price`).
    pub fn checked_price(&self) -> (r: Option<Money>)
        ensures
            r is Some <==> price_fits(self.history@),
            r matches Some(p) ==> p == spec_price(self.history@),
    {
        if self.price_computable() {
            Some(self.price())
        } else {
            None
        }
    }
}

/// A fresh history is priced at its starting price (or 1 for a starting
/// price of 0), for starting prices small enough that the thousand shares'
/// value is held exactly in a 64-bit float.
pub proof fn lemma_new_history_price(starting_price: Money)
    ensures
        price_fits(seq![BuyOrderBrief { quantity: 1000, price: starting_price }]) <==> (
            i64::MIN <= starting_price * 1000 <= i64::MAX),
        -9_007_199_254_740 <= starting_price <= 9_007_199_254_740
            ==> spec_price(seq![BuyOrderBrief { quantity: 1000, price: starting_price }]) == if starting_price == 0 {
            1
        } else {
            starting_price as int
        },
{
    let e = seq![BuyOrderBrief { quantity: 1000, price: starting_price }];
    reveal_with_fuel(vwap_from, 2);
    reveal_with_fuel(vwap_fits, 2);
    assert(take_amount(1000, 20000) == 1000);
    if -9_007_199_254_740 <= starting_price <= 9_007_199_254_740 && starting_price != 0 {
        lemma_f64_div_exact(starting_price * 1000, 1000);
    }
    if starting_price < 0 {
        assert((-(starting_price * 1000)) / 1000 == -starting_price) by (nonlinear_arith);
    } else {
        assert((starting_price * 1000) / 1000 == starting_price) by (nonlinear_arith);
    }
}


// ---------------------------------------------------------------------------
// Companies
// ---------------------------------------------------------------------------

/// What `str::to_lowercase` returns for a string.
pub uninterp spec fn spec_to_lowercase(s: Seq<char>) -> Seq<char>;

/// ASCII lower-casing: `A`..`Z` become `a`..`z`, every other character stays.
pub open spec fn ascii_lowercase(s: Seq<char>) -> Seq<char> {
    Seq::new(
        s.len(),
        |i: int|
            if 'A' <= s[i] && s[i] <= 'Z' {
                ((s[i] as u32) + 32) as char
            } else {
                s[i]
            },
    )
}

/// Calls `str::to_lowercase`. Its result is named by `spec_to_lowercase`; on
/// ASCII input it is the ASCII lower-casing, as the Unicode lower-case mapping
/// sends `A`..`Z` to `a`..`z` and leaves other ASCII characters alone. What it
/// does to other characters is not stated.
#[verifier::external_body]
fn to_lowercase(s: &str) -> (r: String)
    ensures
        r@ == spec_to_lowercase(s@),
        vstd::utf8::is_ascii_chars(s@) ==> r@ == ascii_lowercase(s@),
{
    s.to_lowercase()
}

/// The part of a company's business in one industry, in percent.
#[derive(Clone, Copy, Debug, PartialEq, Eq)]
pub struct IndustryShare {
    pub percent: u32,
    pub industry: Industry,
}

/// A listed company, its quarterly books (oldest quarter first) and the
/// industries it works in.
#[derive(Debug)]
pub struct Company {
    pub ticker: String,
    pub existing_shares: u64,
    pub history: Vec<CompanyHistory>,
    pub industries: Vec<IndustryShare>,
}

/// `company.<lower-case ticker>.<suffix>`
pub open spec fn spec_company_key(ticker: Seq<char>, suffix: Seq<char>) -> Seq<char> {
    "company."@ + spec_to_lowercase(ticker) + "."@ + suffix
}

impl Company {
    /// The assets of the latest quarter.
    pub fn book_value(&self) -> (v: Money)
        requires
            self.history@.len() > 0,
        ensures
            v == self.history@.last().assets,
    {
        self.history[self.history.len() - 1].assets
    }

    fn key_with_suffix(&self, suffix: &str) -> (s: String)
        ensures
            s@ == spec_company_key(self.ticker@, suffix@),
    {
        let lower = to_lowercase(self.ticker.as_str());
        let mut s = String::from_str("company.");
        s.append(lower.as_str());
        s.append(".");
        s.append(suffix);
        proof {
            assert(s@ == "company."@ + spec_to_lowercase(self.ticker@) + "."@ + suffix@);
        }
        s
    }

    /// The text key of the company's name.
    pub fn name_key(&self) -> (s: String)
        ensures
            s@ == spec_company_key(self.ticker@, "name"@),
    {
        self.key_with_suffix("name")
    }

    /// The text key of the company's description.
    pub fn description_key(&self) -> (s: String)
        ensures
            s@ == spec_company_key(self.ticker@, "description"@),
    {
        self.key_with_suffix("description")
    }

    /// Shares in existence times the share price.
    pub fn market_value(&self, share_history: &ShareHistory) -> (v: i128)
        requires
            price_fits(share_history.history@),
        ensures
            v == self.existing_shares * spec_price(share_history.history@),
    {
        let price = share_history.price();
        assert(-0x8000_0000_0000_0000_0000_0000_0000_0000 <= self.existing_shares * price
            <= 0x7fff_ffff_ffff_ffff_ffff_ffff_ffff_ffff) by (nonlinear_arith)
            requires
                0 <= self.existing_shares <= u64::MAX,
                i64::MIN <= price <= i64::MAX,
        ;
        (self.existing_shares as i128) * (price as i128)
    }
}

// ---------------------------------------------------------------------------
// Orders
// ---------------------------------------------------------------------------

/// An offer to buy shares of `company` at up to `price` each.
#[derive(Clone, Copy, Debug, PartialEq, Eq)]
pub struct BuyOrder {
    /// How long the order has been in the book, in nanoseconds.
    pub lifetime: u64,
    pub cycles: u16,
    pub company: EntityId,
    pub quantity: u64,
    pub remaining_quantity: u64,
    pub price: Money,
    pub buyer: EntityId,
}

impl BuyOrder {
    /// A fresh buy order: nothing filled, no time in the book.
    pub open spec fn new_spec(company: EntityId, quantity: u64, price: Money, buyer: EntityId) -> Self {
        BuyOrder {
            lifetime: 0,
            cycles: 0,
            company,
            quantity,
            remaining_quantity: quantity,
            price,
            buyer,
        }
    }

    /// A fresh buy order (see `new_spec`).
    pub fn new(company: EntityId, quantity: u64, price: Money, buyer: EntityId) -> (o: Self)
        ensures
            o == Self::new_spec(company, quantity, price, buyer),
    {
        BuyOrder {
            lifetime: 0,
            cycles: 0,
            company,
            quantity,
            remaining_quantity: quantity,
            price,
            buyer,
        }
    }
}

/// An offer to sell shares of `company` at `price` each.
#[derive(Clone, Copy, Debug, PartialEq, Eq)]
pub struct SellOrder {
    /// How long the order has been in the book, in nanoseconds.
    pub lifetime: u64,
    pub cycles: u64,
    pub company: EntityId,
    pub quantity: u64,
    pub remaining_quantity: u64,
    pub price: Money,
    pub seller: EntityId,
}

impl SellOrder {
    /// A fresh sell order: nothing filled, no time in the book.
    pub open spec fn new_spec(company: EntityId, quantity: u64, price: Money, seller: EntityId) -> Self {
        SellOrder {
            lifetime: 0,
            cycles: 0,
            company,
            quantity,
            remaining_quantity: quantity,
            price,
            seller,
        }
    }

    /// A fresh sell order (see `new_spec`).
    pub fn new(company: EntityId, quantity: u64, price: Money, seller: EntityId) -> (o: Self)
        ensures
            o == Self::new_spec(company, quantity, price, seller),
    {
        SellOrder {
            lifetime: 0,
            cycles: 0,
            company,
            quantity,
            remaining_quantity: quantity,
            price,
            seller,
        }
    }
}

/// An order on its way into the book.
#[derive(Clone, Copy, Debug, PartialEq, Eq)]
pub enum NewOrder {
    Buy(BuyOrder),
    Sell(SellOrder),
}

/// All open orders: buy orders in the order they came in, and for each
/// company its sell orders from cheapest to dearest.
#[derive(Debug)]
pub struct OrderBook {
    pub buy_orders: Vec<BuyOrder>,
    pub sell_orders: HashMap<EntityId, Vec<SellOrder>>,
}

/// Sell orders sorted by price, cheapest first.
pub open spec fn prices_sorted(s: Seq<SellOrder>) -> bool {
    forall|i: int, j: int| 0 <= i < j < s.len() ==> s[i].price <= s[j].price
}

/// The sell orders listed for `company` (none when it has no list).
pub open spec fn sell_list(m: Map<EntityId, Vec<SellOrder>>, company: EntityId) -> Seq<SellOrder> {
    if m.contains_key(company) {
        m[company]@
    } else {
        Seq::empty()
    }
}

/// The number of orders in `s` priced below `price`.
pub open spec fn count_below(s: Seq<SellOrder>, price: Money) -> nat
    decreases s.len(),
{
    if s.len() == 0 {
        0
    } else {
        count_below(s.drop_last(), price) + if s.last().price < price {
            1nat
        } else {
            0nat
        }
    }
}

/// Each company's sell orders are sorted by price and all belong to it.
pub open spec fn sell_lists_wf(m: Map<EntityId, Vec<SellOrder>>) -> bool {
    forall|c: EntityId|
        #[trigger] m.contains_key(c) ==> prices_sorted(m[c]@) && forall|i: int|
            0 <= i < m[c]@.len() ==> (#[trigger] m[c]@[i]).company == c
}

proof fn lemma_count_below_sorted(s: Seq<SellOrder>, price: Money, idx: int)
    requires
        prices_sorted(s),
        0 <= idx <= s.len(),
        forall|i: int| 0 <= i < idx ==> s[i].price < price,
        forall|i: int| idx <= i < s.len() ==> s[i].price >= price,
    ensures
        count_below(s, price) == idx,
    decreases s.len(),
{
    if s.len() > 0 {
        if idx == s.len() {
            lemma_count_below_sorted(s.drop_last(), price, idx - 1);
        } else {
            lemma_count_below_sorted(s.drop_last(), price, idx);
        }
    }
}

/// What adding sell order `s` does to the sell lists: its company gets a
/// list (if it had none) holding the order, put after every cheaper order
/// and before the orders of the same or a higher price when the list was
/// sorted; other lists stay.
pub open spec fn sell_added(
    before: Map<EntityId, Vec<SellOrder>>,
    after: Map<EntityId, Vec<SellOrder>>,
    s: SellOrder,
) -> bool {
    let list = sell_list(before, s.company);
    &&& after.dom() == before.dom().insert(s.company)
    &&& forall|c: EntityId|
        c != s.company && #[trigger] before.contains_key(c) ==> after[c] == before[c]
    &&& exists|i: int| 0 <= i <= list.len() && after[s.company]@ == list.insert(i, s)
    &&& prices_sorted(list) ==> after[s.company]@ == list.insert(
        count_below(list, s.price) as int,
        s,
    )
}

/// Step `j` of a run of sell additions: map `j + 1` is map `j` with
/// `orders[j]` added (see `sell_added`).
pub open spec fn sell_step(
    ms: Seq<Map<EntityId, Vec<SellOrder>>>,
    orders: Seq<SellOrder>,
    j: int,
) -> bool {
    sell_added(ms[j], ms[j + 1], orders[j])
}

/// Whether the maps `ms` run from `before` to `after`, each the one before
/// it with the next of `orders` added (see `sell_added`).
pub open spec fn sell_run(
    ms: Seq<Map<EntityId, Vec<SellOrder>>>,
    before: Map<EntityId, Vec<SellOrder>>,
    after: Map<EntityId, Vec<SellOrder>>,
    orders: Seq<SellOrder>,
) -> bool {
    &&& ms.len() == orders.len() + 1
    &&& ms[0] == before
    &&& ms.last() == after
    &&& forall|j: int| 0 <= j < orders.len() ==> #[trigger] sell_step(ms, orders, j)
}

/// Whether `after` is `before` with `orders` added one after another, in order
/// (see `sell_added`).
pub open spec fn sells_added_in_order(
    before: Map<EntityId, Vec<SellOrder>>,
    after: Map<EntityId, Vec<SellOrder>>,
    orders: Seq<SellOrder>,
) -> bool {
    exists|ms: Seq<Map<EntityId, Vec<SellOrder>>>| #[trigger] sell_run(ms, before, after, orders)
}

/// No order added leaves the sell lists as they were.
proof fn lemma_no_sells_added(m: Map<EntityId, Vec<SellOrder>>)
    ensures
        sells_added_in_order(m, m, Seq::<SellOrder>::empty()),
{
    let ms = seq![m];
    assert(sell_run(ms, m, m, Seq::<SellOrder>::empty()));
}

/// A run of additions followed by one more addition is a run of additions.
proof fn lemma_sells_added_push(
    before: Map<EntityId, Vec<SellOrder>>,
    mid: Map<EntityId, Vec<SellOrder>>,
    after: Map<EntityId, Vec<SellOrder>>,
    orders: Seq<SellOrder>,
    s: SellOrder,
)
    requires
        sells_added_in_order(before, mid, orders),
        sell_added(mid, after, s),
    ensures
        sells_added_in_order(before, after, orders.push(s)),
{
    let ms = choose|ms: Seq<Map<EntityId, Vec<SellOrder>>>| #[trigger] sell_run(ms, before, mid, orders);
    let ms2 = ms.push(after);
    let o2 = orders.push(s);
    assert forall|j: int| 0 <= j < o2.len() implies #[trigger] sell_step(ms2, o2, j) by {
        if j < orders.len() {
            assert(sell_step(ms, orders, j));
            assert(ms2[j] == ms[j] && ms2[j + 1] == ms[j + 1] && o2[j] == orders[j]);
        } else {
            assert(ms2[j] == mid && ms2[j + 1] == after && o2[j] == s);
        }
    }
    assert(sell_run(ms2, before, after, o2));
}

/// The position at which an order priced `price` goes: after every cheaper
/// order and before the first order priced `price` or more, when the list
/// is sorted.
fn insertion_index(list: &Vec<SellOrder>, price: Money) -> (idx: usize)
    ensures
        idx <= list@.len(),
        prices_sorted(list@) ==> idx == count_below(list@, price),
        prices_sorted(list@) ==> forall|i: int| 0 <= i < idx ==> list@[i].price < price,
        prices_sorted(list@) ==> forall|i: int| idx <= i < list@.len() ==> list@[i].price >= price,
{
    let mut lo: usize = 0;
    let mut hi: usize = list.len();
    while lo < hi
        invariant
            0 <= lo <= hi <= list@.len(),
            prices_sorted(list@) ==> forall|i: int| 0 <= i < lo ==> list@[i].price < price,
            prices_sorted(list@) ==> forall|i: int| hi <= i < list@.len() ==> list@[i].price
                >= price,
        decreases hi - lo,
    {
        let mid = lo + (hi - lo) / 2;
        if list[mid].price < price {
            lo = mid + 1;
        } else {
            hi = mid;
        }
    }
    proof {
        if prices_sorted(list@) {
            lemma_count_below_sorted(list@, price, lo as int);
        }
    }
    lo
}

impl OrderBook {
    /// An empty book.
    pub fn new() -> (b: Self)
        ensures
            b.buy_orders@ == Seq::<BuyOrder>::empty(),
            b.sell_orders@ == Map::<EntityId, Vec<SellOrder>>::empty(),
    {
        OrderBook { buy_orders: Vec::new(), sell_orders: HashMap::new() }
    }

    /// Puts an order in the book: a buy order at the end of the buy orders, a
    /// sell order into its company's list before the first order of the same
    /// or a higher price.
    pub fn add(&mut self, order: NewOrder)
        ensures
            order is Buy ==> {
                &&& final(self).buy_orders@ == old(self).buy_orders@.push(order->Buy_0)
                &&& final(self).sell_orders@ == old(self).sell_orders@
            },
            order is Sell ==> {
                &&& final(self).buy_orders@ == old(self).buy_orders@
                &&& sell_added(old(self).sell_orders@, final(self).sell_orders@, order->Sell_0)
            },
            sell_lists_wf(old(self).sell_orders@) ==> sell_lists_wf(final(self).sell_orders@),
    {
        match order {
            NewOrder::Buy(buy_order) => {
                self.buy_orders.push(buy_order);
                assert(self.sell_orders@ == old(self).sell_orders@);
            },
            NewOrder::Sell(new_sell_order) => {
                let company = new_sell_order.company;
                let mut list = match self.sell_orders.remove(&company) {
                    Some(v) => v,
                    None => Vec::new(),
                };
                let ghost before = list@;
                assert(before == sell_list(old(self).sell_orders@, company));
                let idx = insertion_index(&list, new_sell_order.price);
                list.insert(idx, new_sell_order);
                proof {
                    assert(list@ == before.insert(idx as int, new_sell_order));
                    if prices_sorted(before) {
                        assert forall|i: int, j: int| 0 <= i < j < list@.len() implies list@[i].price
                            <= list@[j].price by {
                            if j < idx {
                            } else if j == idx {
                            } else if i < idx {
                            } else if i == idx {
                            } else {
                                assert(before[i - 1].price <= before[j - 1].price);
                            }
                        }
                    }
                }
                self.sell_orders.insert(company, list);
                proof {
                    if sell_lists_wf(old(self).sell_orders@) {
                        assert forall|c: EntityId| #[trigger]
                            self.sell_orders@.contains_key(c) implies prices_sorted(
                            self.sell_orders@[c]@,
                        ) && forall|i: int|
                            0 <= i < self.sell_orders@[c]@.len()
                                ==> (#[trigger] self.sell_orders@[c]@[i]).company == c by {
                            if c == company {
                                assert forall|i: int|
                                    0 <= i < self.sell_orders@[c]@.len() implies (
                                #[trigger] self.sell_orders@[c]@[i]).company == c by {
                                    if i < idx {
                                    } else if i == idx {
                                    } else {
                                        assert(self.sell_orders@[c]@[i] == before[i - 1]);
                                    }
                                }
                            } else {
                                assert(old(self).sell_orders@.contains_key(c));
                            }
                        }
                    }
                    assert(0 <= idx <= before.len() && self.sell_orders@[company]@ == before.insert(
                        idx as int,
                        new_sell_order,
                    ));
                    assert(self.buy_orders@ == old(self).buy_orders@);
                    assert(self.sell_orders@.dom() == old(self).sell_orders@.dom().insert(company));
                }
            },
        }
    }

    /// Puts buy orders in the book, in order, after those already there.
    pub fn add_buys(&mut self, orders: &Vec<BuyOrder>)
        ensures
            final(self).buy_orders@ == old(self).buy_orders@ + orders@,
            final(self).sell_orders@ == old(self).sell_orders@,
    {
        let mut i: usize = 0;
        while i < orders.len()
            invariant
                0 <= i <= orders@.len(),
                self.buy_orders@ == old(self).buy_orders@ + orders@.take(i as int),
                self.sell_orders@ == old(self).sell_orders@,
            decreases orders@.len() - i,
        {
            self.add(NewOrder::Buy(orders[i]));
            assert(orders@.take(i + 1) == orders@.take(i as int).push(orders@[i as int]));
            i = i + 1;
        }
        assert(orders@.take(orders@.len() as int) == orders@);
    }

    /// Puts sell orders in the book one after another (see `add`): sorted
    /// lists stay sorted, the buy orders and the lists of companies none of
    /// the orders is for stay as they were.
    pub fn add_sells(&mut self, orders: &Vec<SellOrder>)
        ensures
            final(self).buy_orders@ == old(self).buy_orders@,
            sells_added_in_order(old(self).sell_orders@, final(self).sell_orders@, orders@),
            sell_lists_wf(old(self).sell_orders@) ==> sell_lists_wf(final(self).sell_orders@),
            forall|c: EntityId|
                #[trigger] old(self).sell_orders@.contains_key(c) && (forall|k: int|
                    0 <= k < orders@.len() ==> orders@[k].company != c)
                    ==> final(self).sell_orders@.contains_key(c)
                    && final(self).sell_orders@[c] == old(self).sell_orders@[c],
    {
        let mut i: usize = 0;
        proof {
            lemma_no_sells_added(self.sell_orders@);
            assert(orders@.take(0) == Seq::<SellOrder>::empty());
        }
        while i < orders.len()
            invariant
                0 <= i <= orders@.len(),
                self.buy_orders@ == old(self).buy_orders@,
                sells_added_in_order(old(self).sell_orders@, self.sell_orders@, orders@.take(i as int)),
                sell_lists_wf(old(self).sell_orders@) ==> sell_lists_wf(self.sell_orders@),
                forall|c: EntityId|
                    #[trigger] old(self).sell_orders@.contains_key(c) && (forall|k: int|
                        0 <= k < i ==> orders@[k].company != c) ==> self.sell_orders@.contains_key(
                        c,
                    ) && self.sell_orders@[c] == old(self).sell_orders@[c],
            decreases orders@.len() - i,
        {
            let ghost mid = self.sell_orders@;
            self.add(NewOrder::Sell(orders[i]));
            proof {
                lemma_sells_added_push(
                    old(self).sell_orders@,
                    mid,
                    self.sell_orders@,
                    orders@.take(i as int),
                    orders@[i as int],
                );
                assert(orders@.take(i + 1) == orders@.take(i as int).push(orders@[i as int]));
            }
            i = i + 1;
        }
        assert(orders@.take(orders@.len() as int) == orders@);
    }

    /// The sell orders of `company`, cheapest first.
    pub fn get_sell_orders(&self, company: EntityId) -> (r: &[SellOrder])
        ensures
            r@ == sell_list(self.sell_orders@, company),
    {
        match self.sell_orders.get(&company) {
            Some(orders) => orders.as_slice(),
            None => &[],
        }
    }
}

/// Orders in the book stay sorted by price: adding any order to a book whose
/// sell lists are sorted (and filed under their own company) keeps them so.
pub proof fn lemma_sell_lists_stay_sorted(m: Map<EntityId, Vec<SellOrder>>, s: SellOrder, v: Vec<SellOrder>)
    requires
        sell_lists_wf(m),
        v@ == sell_list(m, s.company).insert(count_below(sell_list(m, s.company), s.price) as int, s),
    ensures
        sell_lists_wf(m.insert(s.company, v)),
{
    let before = sell_list(m, s.company);
    let idx = count_below(before, s.price) as int;
    assert(prices_sorted(before));
    lemma_count_bounds(before, s.price);
    assert forall|c: EntityId| #[trigger] m.insert(s.company, v).contains_key(c) implies prices_sorted(
        m.insert(s.company, v)[c]@,
    ) && forall|i: int|
        0 <= i < m.insert(s.company, v)[c]@.len() ==> (#[trigger] m.insert(s.company, v)[c]@[i]).company
            == c by {
        if c == s.company {
            lemma_count_partition(before, s.price);
            assert forall|i: int, j: int| 0 <= i < j < v@.len() implies v@[i].price <= v@[j].price by {
                if j < idx {
                } else if j == idx {
                } else if i < idx {
                } else if i == idx {
                } else {
                    assert(before[i - 1].price <= before[j - 1].price);
                }
            }
            assert forall|i: int| 0 <= i < v@.len() implies (#[trigger] v@[i]).company == c by {
                if i < idx {
                } else if i == idx {
                } else {
                    assert(v@[i] == before[i - 1]);
                }
            }
        }
    }
}

proof fn lemma_count_bounds(s: Seq<SellOrder>, price: Money)
    ensures
        count_below(s, price) <= s.len(),
    decreases s.len(),
{
    if s.len() > 0 {
        lemma_count_bounds(s.drop_last(), price);
    }
}

proof fn lemma_count_partition(s: Seq<SellOrder>, price: Money)
    requires
        prices_sorted(s),
    ensures
        forall|i: int| 0 <= i < count_below(s, price) ==> s[i].price < price,
        forall|i: int| count_below(s, price) <= i < s.len() ==> s[i].price >= price,
    decreases s.len(),
{
    if s.len() > 0 {
        let t = s.drop_last();
        assert(prices_sorted(t));
        lemma_count_partition(t, price);
        lemma_count_bounds(t, price);
        let ct = count_below(t, price);
        assert forall|i: int| 0 <= i < t.len() implies #[trigger] s[i] == t[i] by {}
        if s.last().price < price {
            assert forall|i: int| ct <= i < t.len() implies #[trigger] t[i].price < price && false by {
                assert(t[i].price >= price);
                assert(s[i].price <= s[s.len() - 1].price);
            }
            assert(ct == t.len());
            assert forall|i: int| 0 <= i < count_below(s, price) implies s[i].price < price by {
                if i < ct {
                    assert(t[i].price < price);
                }
            }
        } else {
            assert forall|i: int| 0 <= i < count_below(s, price) implies s[i].price < price by {
                assert(t[i].price < price);
            }
            assert forall|i: int| count_below(s, price) <= i < s.len() implies s[i].price >= price by {
                if i < t.len() {
                    assert(t[i].price >= price);
                }
            }
        }
    }
}


// ---------------------------------------------------------------------------
// Quarters
// ---------------------------------------------------------------------------

/// Length of a fiscal quarter of the game: five minutes, in nanoseconds.
pub const QUARTER_DURATION: u64 = 300_000_000_000;

/// Counts the quarters that have passed.
#[derive(Clone, Copy, Debug, PartialEq, Eq)]
pub struct QuarterManger {
    pub current_quarter: u32,
    pub quarter_timer: RepeatingTimer,
}

/// The fiscal year a quarter number belongs to and the quarter's index
/// within that year (0 to 3; quarter 1 is the first quarter of 1991),
/// with Rust's division rounding toward zero, applied to the quarter
/// number taken as a 32-bit signed value minus one.
pub open spec fn spec_fiscal_period(current_quarter: u32) -> (int, int) {
    let q: int = (if current_quarter <= i32::MAX {
        current_quarter as int
    } else {
        current_quarter - 0x1_0000_0000
    }) - 1;
    if q >= 0 {
        (q / 4 + 1991, q % 4)
    } else {
        (-((-q) / 4) + 1991, -((-q) % 4))
    }
}

impl QuarterManger {
    /// Quarter zero, with a fresh five-minute timer.
    pub fn new() -> (q: Self)
        ensures
            q.current_quarter == 0,
            q.quarter_timer == RepeatingTimer::new_spec(QUARTER_DURATION),
    {
        QuarterManger { current_quarter: 0, quarter_timer: RepeatingTimer::new(QUARTER_DURATION) }
    }

    /// The fiscal year and the quarter within it (see `spec_fiscal_period`).
    pub fn fiscal_period(&self) -> (r: (i32, i32))
        requires
            self.current_quarter != 0x8000_0000,
        ensures
            r.0 == spec_fiscal_period(self.current_quarter).0,
            r.1 == spec_fiscal_period(self.current_quarter).1,
    {
        let signed: i64 = if self.current_quarter <= 0x7fff_ffff {
            self.current_quarter as i64
        } else {
            self.current_quarter as i64 - 0x1_0000_0000
        };
        let q: i64 = signed - 1;
        if q >= 0 {
            ((q / 4 + 1991) as i32, (q % 4) as i32)
        } else {
            let m: i64 = 0 - q;
            ((1991 - m / 4) as i32, (0 - m % 4) as i32)
        }
    }

    /// Advances the quarter timer by `delta` nanoseconds and moves to the next
    /// quarter when the timer completes a period, or when no quarter has begun.
    /// Returns whether a new quarter began.
    pub fn advance(&mut self, delta: u64) -> (began: bool)
        requires
            old(self).quarter_timer.elapsed + delta <= u64::MAX,
            (spec_tick(old(self).quarter_timer, delta as int).times_finished_this_tick > 0
                || old(self).current_quarter == 0) ==> old(self).current_quarter < u32::MAX,
        ensures
            final(self).quarter_timer == spec_tick(old(self).quarter_timer, delta as int),
            began == (spec_tick(old(self).quarter_timer, delta as int).times_finished_this_tick > 0
                || old(self).current_quarter == 0),
            final(self).current_quarter == if began {
                old(self).current_quarter + 1
            } else {
                old(self).current_quarter as int
            },
    {
        self.quarter_timer.tick(delta);
        if self.quarter_timer.just_finished() || self.current_quarter == 0 {
            self.current_quarter = self.current_quarter + 1;
            true
        } else {
            false
        }
    }
}

/// The random draws a company's quarter depends on.
#[derive(Clone, Copy, Debug, PartialEq, Eq)]
pub struct QuarterDraws {
    /// Drawn uniformly from `0..1000`; picks the next performance ranking.
    pub performance_roll: u64,
    /// The drawn change of revenue (a fraction of the last revenue).
    pub revenue_change: Money,
    /// The drawn change of expenses (a fraction of the last expenses).
    pub expense_change: Money,
    /// The drawn change of assets (a fraction of the last assets).
    pub asset_change: Money,
    /// Whether a profitable company decided to raise extra capital anyway.
    pub extra_capital: bool,
    /// Drawn from `1..=5`: how far below the share price new shares are offered.
    pub price_discount: i64,
}

/// Adds a change to an amount, staying within the money type.
pub open spec fn spec_apply_change(last: int, change: int) -> int {
    if last + change > i64::MAX {
        i64::MAX as int
    } else if last + change < i64::MIN {
        i64::MIN as int
    } else {
        last + change
    }
}

/// Adds a change to an amount, stopping at the limits of the money type.
pub fn apply_change(last: Money, change: Money) -> (r: Money)
    requires
        change != i64::MIN,
    ensures
        r == spec_apply_change(last as int, change as int),
{
    if change > 0 {
        match last.checked_add(change) {
            Some(v) => v,
            None => i64::MAX,
        }
    } else {
        match last.checked_sub(0 - change) {
            Some(v) => v,
            None => i64::MIN,
        }
    }
}

/// The profit of a quarter given the draws.
pub open spec fn spec_quarter_profit(last: CompanyHistory, d: QuarterDraws) -> int {
    spec_apply_change(last.revenue as int, d.revenue_change as int) - spec_apply_change(
        last.expenses as int,
        d.expense_change as int,
    )
}

/// Whether the company issues new shares this quarter: always after a loss,
/// and after a profit when it chose to raise extra capital.
pub open spec fn spec_raises_capital(profit: int, d: QuarterDraws) -> bool {
    profit < 0 || (profit > 0 && d.extra_capital)
}

/// The price new shares are offered at: the share price, less the drawn
/// discount when the share price is above 6.
pub open spec fn spec_offer_price(share_price: int, d: QuarterDraws) -> int {
    if share_price > 6 {
        share_price - d.price_discount
    } else {
        share_price
    }
}

/// The sell order of the shares issued to cover `profit` (a loss, or the
/// extra capital raised) at `price` each.
pub open spec fn spec_issued_order(company: EntityId, profit: int, price: int) -> SellOrder {
    let quantity = (if profit < 0 {
        -profit
    } else {
        profit
    }) / price;
    SellOrder {
        lifetime: 0,
        cycles: 0,
        company,
        quantity: quantity as u64,
        remaining_quantity: quantity as u64,
        price: price as i64,
        seller: company,
    }
}

/// The books a quarter closes with.
pub open spec fn spec_quarter_record(
    quarter: u32,
    last: CompanyHistory,
    wallet: Money,
    d: QuarterDraws,
) -> CompanyHistory {
    let revenue = spec_apply_change(last.revenue as int, d.revenue_change as int);
    let expenses = spec_apply_change(last.expenses as int, d.expense_change as int);
    let profit = revenue - expenses;
    let assets = spec_apply_change(last.assets as int, d.asset_change as int) + wallet;
    CompanyHistory {
        quarter,
        assets: spec_apply_change(assets, profit) as i64,
        revenue: revenue as i64,
        expenses: expenses as i64,
        total_shares: last.total_shares,
        dividend_paid: 0,
        performance: ranking_at(
            choose|i: int| picks(transition_weights(last.performance), d.performance_roll as int, i),
        ),
    }
}

/// An amount pushed back within the range of `i64`.
pub open spec fn saturate_i64(x: int) -> int {
    if x > i64::MAX {
        i64::MAX as int
    } else if x < i64::MIN {
        i64::MIN as int
    } else {
        x
    }
}

/// The books a quarter closes with: revenue and expenses move by their drawn
/// changes; the assets move by their drawn change, take in the company's
/// wallet, then move by the quarter's profit (revenue less expenses); each
/// move stops at the limits of `i64`. So with no profit and an empty wallet,
/// the assets grow by exactly a drawn rise that fits. The quarter is the one
/// given, the shares stay, no dividend is paid.
pub proof fn lemma_quarter_books(quarter: u32, last: CompanyHistory, wallet: Money, d: QuarterDraws)
    ensures
        ({
            let r = spec_quarter_record(quarter, last, wallet, d);
            let revenue = saturate_i64(last.revenue + d.revenue_change);
            let expenses = saturate_i64(last.expenses + d.expense_change);
            &&& r.quarter == quarter
            &&& r.revenue == revenue
            &&& r.expenses == expenses
            &&& r.assets == saturate_i64(
                saturate_i64(last.assets + d.asset_change) + wallet + (revenue - expenses),
            )
            &&& r.total_shares == last.total_shares
            &&& r.dividend_paid == 0
            &&& revenue == expenses && wallet == 0 && d.asset_change >= 0 && last.assets
                + d.asset_change <= i64::MAX ==> r.assets == last.assets + d.asset_change
            &&& i64::MIN <= last.assets + d.asset_change <= i64::MAX && i64::MIN <= last.assets
                + d.asset_change + wallet + (revenue - expenses) <= i64::MAX ==> r.assets
                == last.assets + d.asset_change + wallet + (revenue - expenses)
        }),
{
}

/// Whether a company's quarter can be closed with these draws without leaving
/// the range of the number types.
pub open spec fn quarter_in_range(
    company: &Company,
    share_history: &ShareHistory,
    wallet: Money,
    d: QuarterDraws,
) -> bool {
    let last = company.history@.last();
    let profit = spec_quarter_profit(last, d);
    let price = spec_price(share_history.history@);
    &&& company.history@.len() > 0
    &&& d.performance_roll < 1000
    &&& d.revenue_change != i64::MIN
    &&& d.expense_change != i64::MIN
    &&& d.asset_change != i64::MIN
    &&& i64::MIN < profit <= i64::MAX
    &&& i64::MIN <= spec_apply_change(last.assets as int, d.asset_change as int) + wallet <= i64::MAX
    &&& spec_raises_capital(profit, d) ==> {
        &&& price_fits(share_history.history@)
        &&& 1 <= d.price_discount <= 5
        &&& spec_offer_price(price, d) > 0
        &&& company.existing_shares + (if profit < 0 {
            -profit
        } else {
            profit
        }) / spec_offer_price(price, d) <= u64::MAX
    }
}

/// Closes a company's quarter: draws the next performance ranking and the new
/// revenue, expenses and assets (the wallet's money goes to the assets, then the
/// profit or loss), issues new shares for sale when capital is needed, empties
/// the wallet and records the quarter.
pub fn step_company_quarter(
    quarter: u32,
    company_entity: EntityId,
    company: &mut Company,
    share_history: &ShareHistory,
    wallet: &mut Wallet,
    order_book: &mut OrderBook,
    draws: QuarterDraws,
)
    requires
        quarter_in_range(old(company), share_history, old(wallet).balance, draws),
    ensures
        ({
            let last = old(company).history@.last();
            let profit = spec_quarter_profit(last, draws);
            let price = spec_offer_price(spec_price(share_history.history@), draws);
            let magnitude = if profit < 0 {
                -profit
            } else {
                profit
            };
            &&& final(company).history@ == old(company).history@.push(
                spec_quarter_record(quarter, last, old(wallet).balance, draws),
            )
            &&& final(company).ticker == old(company).ticker
            &&& final(wallet).balance == 0
            &&& if spec_raises_capital(profit, draws) {
                &&& final(company).existing_shares == old(company).existing_shares + magnitude
                    / price
                &&& final(order_book).buy_orders@ == old(order_book).buy_orders@
                &&& sell_added(
                    old(order_book).sell_orders@,
                    final(order_book).sell_orders@,
                    spec_issued_order(company_entity, profit, price),
                )
            } else {
                &&& final(company).existing_shares == old(company).existing_shares
                &&& final(order_book).buy_orders@ == old(order_book).buy_orders@
                &&& final(order_book).sell_orders@ == old(order_book).sell_orders@
            }
        }),
        sell_lists_wf(old(order_book).sell_orders@) ==> sell_lists_wf(final(order_book).sell_orders@),
{
    let last = company.history[company.history.len() - 1];
    let next_perf = last.performance.next(draws.performance_roll);
    let next_revenue = apply_change(last.revenue, draws.revenue_change);
    let next_expenses = apply_change(last.expenses, draws.expense_change);
    let next_assets = apply_change(last.assets, draws.asset_change) + wallet.balance;
    let profit = next_revenue - next_expenses;
    let next_assets = apply_change(next_assets, profit);
    let raise = profit < 0 || (profit > 0 && draws.extra_capital);
    if raise {
        let mut share_price = share_history.price();
        if share_price > 6 {
            share_price = share_price - draws.price_discount;
        }
        let capital_needed: i64 = if profit < 0 {
            0 - profit
        } else {
            profit
        };
        let new_shares_qty = capital_needed / share_price;
        company.existing_shares = company.existing_shares + new_shares_qty as u64;
        let issued = SellOrder::new(company_entity, new_shares_qty as u64, share_price, company_entity);
        assert(issued == spec_issued_order(company_entity, profit as int, share_price as int));
        order_book.add(NewOrder::Sell(issued));
    }
    wallet.balance = 0;
    let record = CompanyHistory {
        quarter,
        assets: next_assets,
        revenue: next_revenue,
        expenses: next_expenses,
        total_shares: last.total_shares,
        dividend_paid: 0,
        performance: next_perf,
    };
    proof {
        let w = transition_weights(last.performance);
        let i = choose|i: int| picks(w, draws.performance_roll as int, i);
        assert(picks(w, draws.performance_roll as int, i));
        lemma_pick_unique(w, draws.performance_roll as int);
    }
    company.history.push(record);
}

/// A roll picks at most one index.
proof fn lemma_pick_unique(w: Seq<u64>, roll: int)
    ensures
        forall|i: int, j: int| picks(w, roll, i) && picks(w, roll, j) ==> i == j,
{
    assert forall|i: int, j: int| picks(w, roll, i) && picks(w, roll, j) implies i == j by {
        if i < j {
            lemma_weight_prefix_monotone(w, i + 1, j);
        } else if j < i {
            lemma_weight_prefix_monotone(w, j + 1, i);
        }
    }
}


/// A listed company with what its quarter reads and changes.
#[derive(Debug)]
pub struct QuarterCompany {
    pub entity: EntityId,
    pub company: Company,
    pub share_history: ShareHistory,
    pub wallet: Wallet,
}

/// The sell order a company's quarter puts up, when it raises capital (see
/// `step_company_quarter`).
pub open spec fn quarter_issue(c: QuarterCompany, d: QuarterDraws) -> Option<SellOrder> {
    let profit = spec_quarter_profit(c.company.history@.last(), d);
    if spec_raises_capital(profit, d) {
        Some(
            spec_issued_order(
                c.entity,
                profit,
                spec_offer_price(spec_price(c.share_history.history@), d),
            ),
        )
    } else {
        None
    }
}

/// The number of new shares a company's quarter issues.
pub open spec fn shares_issued(c: QuarterCompany, d: QuarterDraws) -> int {
    let profit = spec_quarter_profit(c.company.history@.last(), d);
    let magnitude = if profit < 0 {
        -profit
    } else {
        profit
    };
    if spec_raises_capital(profit, d) {
        magnitude / spec_offer_price(spec_price(c.share_history.history@), d)
    } else {
        0
    }
}

/// The sell orders the first `n` companies' quarters put up, in order.
pub open spec fn issued_orders(cs: Seq<QuarterCompany>, ds: Seq<QuarterDraws>, n: int) -> Seq<
    SellOrder,
>
    decreases n,
{
    if n <= 0 {
        Seq::empty()
    } else {
        let rest = issued_orders(cs, ds, n - 1);
        match quarter_issue(cs[n - 1], ds[n - 1]) {
            Some(o) => rest.push(o),
            None => rest,
        }
    }
}

/// Advances the quarter clock by `delta` nanoseconds (see
/// `QuarterManger::advance`); when a new quarter begins, every company
/// closes it, in order, with its own draws (see `step_company_quarter`), and
/// gets exactly one new quarter in its books, numbered with the new quarter;
/// the shares it issues are added to its count and offered in the book, in
/// the companies' order (see `issued_orders`).
/// Otherwise nothing but the clock changes. Returns whether a quarter began.
pub fn tick_quarter(
    quarter_manager: &mut QuarterManger,
    delta: u64,
    companies: &mut Vec<QuarterCompany>,
    order_book: &mut OrderBook,
    draws: &Vec<QuarterDraws>,
) -> (began: bool)
    requires
        old(quarter_manager).quarter_timer.elapsed + delta <= u64::MAX,
        (spec_tick(old(quarter_manager).quarter_timer, delta as int).times_finished_this_tick > 0
            || old(quarter_manager).current_quarter == 0) ==> old(quarter_manager).current_quarter
            < u32::MAX,
        draws@.len() == old(companies)@.len(),
        forall|i: int|
            0 <= i < old(companies)@.len() ==> quarter_in_range(
                &(#[trigger] old(companies)@[i]).company,
                &old(companies)@[i].share_history,
                old(companies)@[i].wallet.balance,
                draws@[i],
            ),
    ensures
        final(quarter_manager).quarter_timer == spec_tick(old(quarter_manager).quarter_timer, delta as int),
        began == (spec_tick(old(quarter_manager).quarter_timer, delta as int).times_finished_this_tick
            > 0 || old(quarter_manager).current_quarter == 0),
        final(quarter_manager).current_quarter == if began {
            old(quarter_manager).current_quarter + 1
        } else {
            old(quarter_manager).current_quarter as int
        },
        final(companies)@.len() == old(companies)@.len(),
        !began ==> final(companies)@ == old(companies)@,
        !began ==> final(order_book).sell_orders@ == old(order_book).sell_orders@,
        final(order_book).buy_orders@ == old(order_book).buy_orders@,
        sell_lists_wf(old(order_book).sell_orders@) ==> sell_lists_wf(final(order_book).sell_orders@),
        began ==> sells_added_in_order(
            old(order_book).sell_orders@,
            final(order_book).sell_orders@,
            issued_orders(old(companies)@, draws@, old(companies)@.len() as int),
        ),
        began ==> forall|i: int|
            0 <= i < final(companies)@.len() ==> {
                let before = old(companies)@[i];
                let after = #[trigger] final(companies)@[i];
                &&& after.company.existing_shares == before.company.existing_shares
                    + shares_issued(before, draws@[i])
                &&& after.company.history@ == before.company.history@.push(
                    spec_quarter_record(
                        final(quarter_manager).current_quarter,
                        before.company.history@.last(),
                        before.wallet.balance,
                        draws@[i],
                    ),
                )
                &&& after.company.ticker == before.company.ticker
                &&& after.wallet.balance == 0
                &&& after.entity == before.entity
                &&& after.share_history == before.share_history
            },
{
    let began = quarter_manager.advance(delta);
    if !began {
        return false;
    }
    proof {
        lemma_no_sells_added(order_book.sell_orders@);
    }
    let quarter = quarter_manager.current_quarter;
    let ghost start = companies@;
    let n = companies.len();
    let mut i: usize = 0;
    while i < n
        invariant
            0 <= i <= n,
            n == companies@.len(),
            n == start.len(),
            draws@.len() == n,
            quarter == quarter_manager.current_quarter,
            order_book.buy_orders@ == old(order_book).buy_orders@,
            sell_lists_wf(old(order_book).sell_orders@) ==> sell_lists_wf(order_book.sell_orders@),
            sells_added_in_order(
                old(order_book).sell_orders@,
                order_book.sell_orders@,
                issued_orders(start, draws@, i as int),
            ),
            start == old(companies)@,
            forall|j: int|
                0 <= j < old(companies)@.len() ==> quarter_in_range(
                    &(#[trigger] old(companies)@[j]).company,
                    &old(companies)@[j].share_history,
                    old(companies)@[j].wallet.balance,
                    draws@[j],
                ),
            forall|j: int| i <= j < n ==> #[trigger] companies@[j] == start[j],
            forall|j: int|
                0 <= j < i ==> {
                    let before = start[j];
                    let after = #[trigger] companies@[j];
                    &&& after.company.existing_shares == before.company.existing_shares
                        + shares_issued(before, draws@[j])
                    &&& after.company.history@ == before.company.history@.push(
                        spec_quarter_record(
                            quarter,
                            before.company.history@.last(),
                            before.wallet.balance,
                            draws@[j],
                        ),
                    )
                    &&& after.company.ticker == before.company.ticker
                    &&& after.wallet.balance == 0
                    &&& after.entity == before.entity
                    &&& after.share_history == before.share_history
                },
        decreases n - i,
    {
        let ghost gs = companies@;
        let ghost mid = order_book.sell_orders@;
        let mut c = companies.remove(i);
        proof {
            assert(c == start[i as int]);
            assert(quarter_in_range(&start[i as int].company, &start[i as int].share_history, start[i as int].wallet.balance, draws@[i as int]));
        }
        step_company_quarter(
            quarter,
            c.entity,
            &mut c.company,
            &c.share_history,
            &mut c.wallet,
            order_book,
            draws[i],
        );
        companies.insert(i, c);
        proof {
            let o = quarter_issue(start[i as int], draws@[i as int]);
            match o {
                Some(order) => {
                    lemma_sells_added_push(
                        old(order_book).sell_orders@,
                        mid,
                        order_book.sell_orders@,
                        issued_orders(start, draws@, i as int),
                        order,
                    );
                },
                None => {},
            }
            assert forall|j: int| i + 1 <= j < n implies #[trigger] companies@[j] == start[j] by {
                assert(companies@[j] == gs[j]);
            }
            assert forall|j: int| 0 <= j < i + 1 implies {
                let before = start[j];
                let after = #[trigger] companies@[j];
                &&& after.company.existing_shares == before.company.existing_shares
                    + shares_issued(before, draws@[j])
                &&& after.company.history@ == before.company.history@.push(
                    spec_quarter_record(
                        quarter,
                        before.company.history@.last(),
                        before.wallet.balance,
                        draws@[j],
                    ),
                )
                &&& after.company.ticker == before.company.ticker
                &&& after.wallet.balance == 0
                &&& after.entity == before.entity
                &&& after.share_history == before.share_history
            } by {
                if j < i {
                    assert(companies@[j] == gs[j]);
                }
            }
        }
        i = i + 1;
    }
    true
}


/// Every trade of a history was at `p`.
pub open spec fn traded_at(e: Seq<BuyOrderBrief>, p: Money) -> bool {
    forall|i: int| 0 <= i < e.len() ==> #[trigger] e[i].price == p
}

proof fn lemma_uniform_vwap(e: Seq<BuyOrderBrief>, p: Money, k: int, needed: int, acc_p: int, acc_v: int)
    requires
        traded_at(e, p),
        1 <= p <= 1_000_000_000_000,
        0 <= needed,
        0 <= acc_v,
        acc_v + needed <= PRICE_WINDOW_VOLUME,
        acc_p == p * acc_v,
        k <= e.len(),
    ensures
        vwap_from(e, k, needed, acc_p, acc_v).0 == p * vwap_from(e, k, needed, acc_p, acc_v).1,
        vwap_fits(e, k, needed, acc_p),
        needed > 0 && vwap_from(e, k, needed, acc_p, acc_v).1 == acc_v ==> forall|i: int|
            0 <= i < k ==> #[trigger] e[i].quantity == 0,
    decreases k,
{
    if k > 0 {
        let x = e[k - 1];
        let t = take_amount(x.quantity, needed);
        assert(x.price == p);
        assert(0 <= p * t <= 1_000_000_000_000 * 20000) by (nonlinear_arith)
            requires
                1 <= p <= 1_000_000_000_000,
                0 <= t <= 20000,
        ;
        assert(0 <= p * acc_v <= 1_000_000_000_000 * 20000) by (nonlinear_arith)
            requires
                1 <= p <= 1_000_000_000_000,
                0 <= acc_v <= 20000,
        ;
        assert(p * acc_v + p * t == p * (acc_v + t)) by (nonlinear_arith);
        if t == x.quantity {
            lemma_uniform_vwap(e, p, k - 1, needed - t, acc_p + p * t, acc_v + t);
            lemma_vwap_volume_bounded(e, k - 1, needed - t, acc_p + p * t, acc_v + t);
        }
    }
}

/// A history whose trades were all at one price, with some shares traded,
/// is priced at that price (for prices up to 4.5 * 10^11, which keep the
/// sums held exactly in a 64-bit float).
pub proof fn lemma_uniform_price(e: Seq<BuyOrderBrief>, p: Money)
    requires
        traded_at(e, p),
        1 <= p <= 450_000_000_000,
        exists|i: int| 0 <= i < e.len() && #[trigger] e[i].quantity > 0,
    ensures
        price_fits(e),
        spec_price(e) == p,
{
    lemma_uniform_vwap(e, p, e.len() as int, PRICE_WINDOW_VOLUME as int, 0, 0);
    lemma_vwap_volume_bounded(e, e.len() as int, PRICE_WINDOW_VOLUME as int, 0, 0);
    let r = vwap_from(e, e.len() as int, PRICE_WINDOW_VOLUME as int, 0, 0);
    assert(r.1 > 0);
    assert(r.0 > 0) by (nonlinear_arith)
        requires
            r.0 == p * r.1,
            p >= 1,
            r.1 > 0,
    ;
    assert(r.0 / r.1 == p) by (nonlinear_arith)
        requires
            r.0 == p * r.1,
            r.1 > 0,
    ;
    assert(r.1 <= 20000);
    assert(r.0 < 0x20_0000_0000_0000) by (nonlinear_arith)
        requires
            r.0 == p * r.1,
            1 <= p <= 450_000_000_000,
            0 <= r.1 <= 20000,
    ;
    assert(r.0 < F64_LIMIT);
    lemma_f64_div_exact(r.0, r.1 as nat);
}

/// Recording a trade at `p` in a history traded only at `p` keeps it so.
pub proof fn lemma_push_keeps_price(e: Seq<BuyOrderBrief>, p: Money, volume: u64)
    requires
        traded_at(e, p),
    ensures
        traded_at(spec_history_push(e, BuyOrderBrief { quantity: volume, price: p }), p),
        volume > 0 ==> exists|i: int|
            0 <= i < spec_history_push(e, BuyOrderBrief { quantity: volume, price: p }).len()
                && #[trigger] spec_history_push(e, BuyOrderBrief { quantity: volume, price: p })[i].quantity > 0,
{
    let h = spec_history_push(e, BuyOrderBrief { quantity: volume, price: p });
    assert(h.last().quantity == volume);
    assert forall|i: int| 0 <= i < h.len() implies #[trigger] h[i].price == p by {
        if e.len() >= HISTORY_CAPACITY {
            if i < h.len() - 1 {
                assert(h[i] == e[i + 1]);
            }
        } else {
            if i < h.len() - 1 {
                assert(h[i] == e[i]);
            }
        }
    }
    if volume > 0 {
        assert(h[h.len() - 1].quantity > 0);
    }
}

} // verus!

