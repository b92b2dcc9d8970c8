//! The companies the market opens with, how a company is listed, and how
//! its first shares are handed out to the traders.
use vstd::prelude::*;

use crate::money::Wallet;
use crate::stock_market::share_count;
use crate::stock_market::Company;
use crate::stock_market::CompanyHistory;
use crate::stock_market::EntityId;
use crate::stock_market::Industry;
use crate::stock_market::IndustryShare;
use crate::stock_market::PerformanceRanking;
use crate::stock_market::ShareHistory;
use crate::stock_market::SharePortfolio;
use crate::stock_market::BuyOrderBrief;
use crate::Money;

verus! {

/// A company as the market opens with it. Money amounts are in hundredths,
/// except the books (revenue, expenses, assets), which are in whole units.
#[derive(Debug)]
pub struct CompanyTemplate {
    pub ticker: String,
    pub industries: Vec<IndustryShare>,
    pub stock_price: Money,
    pub market_cap: Money,
    pub revenue: Money,
    pub expenses: Money,
    pub dividend_paid: Money,
    pub assets: Money,
    pub outstanding_shares: u64,
}

/// The figures of a template.
pub ghost struct TemplateFigures {
    pub ticker: Seq<char>,
    pub industries: Seq<IndustryShare>,
    pub stock_price: int,
    pub market_cap: int,
    pub revenue: int,
    pub expenses: int,
    pub dividend_paid: int,
    pub assets: int,
    pub outstanding_shares: int,
}

/// The figures a template holds.
pub open spec fn template_figures(t: CompanyTemplate) -> TemplateFigures {
    TemplateFigures {
        ticker: t.ticker@,
        industries: t.industries@,
        stock_price: t.stock_price as int,
        market_cap: t.market_cap as int,
        revenue: t.revenue as int,
        expenses: t.expenses as int,
        dividend_paid: t.dividend_paid as int,
        assets: t.assets as int,
        outstanding_shares: t.outstanding_shares as int,
    }
}

/// How many companies the market opens with.
pub const LISTED_COMPANIES: usize = 13;

/// The figures of the market's `i`-th company.
pub open spec fn listed_template(i: int) -> TemplateFigures {
    if i == 0 {
        TemplateFigures {
            ticker: "GROUP"@,
            industries: seq![IndustryShare { percent: 100, industry: Industry::Tech }],
            stock_price: 28400,
            market_cap: 11700000000000,
            revenue: 730000000000,
            expenses: 747000000000,
            dividend_paid: 0,
            assets: 190000000000,
            outstanding_shares: 261147000,
        }
    } else if i == 1 {
        TemplateFigures {
            ticker: "TSFT"@,
            industries: seq![IndustryShare { percent: 90, industry: Industry::Tech }, IndustryShare { percent: 8, industry: Industry::Entertainment }, IndustryShare { percent: 2, industry: Industry::Retail }],
            stock_price: 40400,
            market_cap: 473800000000000,
            revenue: 39838000000000,
            expenses: 22569000000000,
            dividend_paid: 481,
            assets: 47266000000000,
            outstanding_shares: 7435000000,
        }
    } else if i == 2 {
        TemplateFigures {
            ticker: "CENT"@,
            industries: seq![IndustryShare { percent: 90, industry: Industry::Tech }, IndustryShare { percent: 10, industry: Industry::Entertainment }],
            stock_price: 18100,
            market_cap: 3435000000000,
            revenue: 53288000000000,
            expenses: 34392642014200,
            dividend_paid: 2000,
            assets: 70111550000000,
            outstanding_shares: 12343000000,
        }
    } else if i == 3 {
        TemplateFigures {
            ticker: "COBA"@,
            industries: seq![IndustryShare { percent: 67, industry: Industry::Retail }, IndustryShare { percent: 25, industry: Industry::Tech }, IndustryShare { percent: 4, industry: Industry::Healthcare }, IndustryShare { percent: 3, industry: Industry::Food }, IndustryShare { percent: 10, industry: Industry::Entertainment }],
            stock_price: 33600,
            market_cap: 3560000000000,
            revenue: 972570000000,
            expenses: 864220000000,
            dividend_paid: 0,
            assets: 460310000000,
            outstanding_shares: 10501000000,
        }
    } else if i == 4 {
        TemplateFigures {
            ticker: "NFLM"@,
            industries: seq![IndustryShare { percent: 100, industry: Industry::Entertainment }],
            stock_price: 155000,
            market_cap: 663110000000,
            revenue: 59330000000,
            expenses: 43100000000,
            dividend_paid: 0,
            assets: 39820000000,
            outstanding_shares: 428239000,
        }
    } else if i == 5 {
        TemplateFigures {
            ticker: "USBNK"@,
            industries: seq![IndustryShare { percent: 100, industry: Industry::Finance }],
            stock_price: 15500,
            market_cap: 260810000000,
            revenue: 27100000000,
            expenses: 12760000000,
            dividend_paid: 416,
            assets: 78740000000,
            outstanding_shares: 1690000000,
        }
    } else if i == 6 {
        TemplateFigures {
            ticker: "CBANK"@,
            industries: seq![IndustryShare { percent: 100, industry: Industry::Finance }],
            stock_price: 119,
            market_cap: 328050000000,
            revenue: 130940000000,
            expenses: 60990000000,
            dividend_paid: 3,
            assets: 660120000000,
            outstanding_shares: 300852631579,
        }
    } else if i == 7 {
        TemplateFigures {
            ticker: "TELCO"@,
            industries: seq![IndustryShare { percent: 100, industry: Industry::Telecommunications }],
            stock_price: 416,
            market_cap: 47660000000,
            revenue: 22360000000,
            expenses: 19500000000,
            dividend_paid: 16,
            assets: 18690000000,
            outstanding_shares: 11543000000,
        }
    } else if i == 8 {
        TemplateFigures {
            ticker: "KTEL"@,
            industries: seq![IndustryShare { percent: 100, industry: Industry::Telecommunications }],
            stock_price: 2763,
            market_cap: 13580000000,
            revenue: 29510000000,
            expenses: 27780000000,
            dividend_paid: 287,
            assets: 23590000000,
            outstanding_shares: 491651550,
        }
    } else if i == 9 {
        TemplateFigures {
            ticker: "RR"@,
            industries: seq![IndustryShare { percent: 100, industry: Industry::Mining }],
            stock_price: 9751,
            market_cap: 161480000000,
            revenue: 87010000000,
            expenses: 61670000000,
            dividend_paid: 700,
            assets: 93330000000,
            outstanding_shares: 1621400000,
        }
    } else if i == 10 {
        TemplateFigures {
            ticker: "PPCP"@,
            industries: seq![IndustryShare { percent: 100, industry: Industry::Mining }],
            stock_price: 7806,
            market_cap: 197530000000,
            revenue: 86650000000,
            expenses: 48730000000,
            dividend_paid: 470,
            assets: 79090000000,
            outstanding_shares: 2532000000,
        }
    } else if i == 11 {
        TemplateFigures {
            ticker: "EFARM"@,
            industries: seq![IndustryShare { percent: 70, industry: Industry::Retail }, IndustryShare { percent: 25, industry: Industry::Manufacturing }, IndustryShare { percent: 5, industry: Industry::Healthcare }],
            stock_price: 7416,
            market_cap: 84170000000,
            revenue: 43410000000,
            expenses: 39770000000,
            dividend_paid: 198,
            assets: 9250000000,
            outstanding_shares: 1132000000,
        }
    } else {
        TemplateFigures {
            ticker: "GAMGO"@,
            industries: seq![IndustryShare { percent: 100, industry: Industry::Retail }],
            stock_price: 4032,
            market_cap: 18010000000,
            revenue: 6940000000,
            expenses: 6943460000,
            dividend_paid: 15,
            assets: 7730000000,
            outstanding_shares: 437400000,
        }
    }
}

fn share(percent: u32, industry: Industry) -> (s: IndustryShare)
    ensures
        s == (IndustryShare { percent, industry }),
{
    IndustryShare { percent, industry }
}

fn template(
    ticker: &str,
    industries: Vec<IndustryShare>,
    stock_price: Money,
    market_cap: Money,
    revenue: Money,
    expenses: Money,
    dividend_paid: Money,
    assets: Money,
    outstanding_shares: u64,
) -> (t: CompanyTemplate)
    ensures
        t.ticker@ == ticker@,
        t.industries@ == industries@,
        t.stock_price == stock_price,
        t.market_cap == market_cap,
        t.revenue == revenue,
        t.expenses == expenses,
        t.dividend_paid == dividend_paid,
        t.assets == assets,
        t.outstanding_shares == outstanding_shares,
{
    CompanyTemplate {
        ticker: String::from_str(ticker),
        industries,
        stock_price,
        market_cap,
        revenue,
        expenses,
        dividend_paid,
        assets,
        outstanding_shares,
    }
}

/// The companies the market opens with, in order (see `listed_template`).
#[verifier::rlimit(40)]
pub fn company_templates() -> (v: Vec<CompanyTemplate>)
    ensures
        v@.len() == LISTED_COMPANIES,
        forall|i: int| 0 <= i < LISTED_COMPANIES ==> template_figures(#[trigger] v@[i]) == listed_template(i),
{
    let mut v: Vec<CompanyTemplate> = Vec::new();
    v.push(template("GROUP", vec![share(100, Industry::Tech)], 28400, 11700000000000, 730000000000, 747000000000, 0, 190000000000, 261147000));
    assert(v@[0].industries@ =~= listed_template(0).industries);
    assert(template_figures(v@[0]) == listed_template(0));
    v.push(template("TSFT", vec![share(90, Industry::Tech), share(8, Industry::Entertainment), share(2, Industry::Retail)], 40400, 473800000000000, 39838000000000, 22569000000000, 481, 47266000000000, 7435000000));
    assert(v@[1].industries@ =~= listed_template(1).industries);
    assert(template_figures(v@[1]) == listed_template(1));
    v.push(template("CENT", vec![share(90, Industry::Tech), share(10, Industry::Entertainment)], 18100, 3435000000000, 53288000000000, 34392642014200, 2000, 70111550000000, 12343000000));
    assert(v@[2].industries@ =~= listed_template(2).industries);
    assert(template_figures(v@[2]) == listed_template(2));
    v.push(template("COBA", vec![share(67, Industry::Retail), share(25, Industry::Tech), share(4, Industry::Healthcare), share(3, Industry::Food), share(10, Industry::Entertainment)], 33600, 3560000000000, 972570000000, 864220000000, 0, 460310000000, 10501000000));
    assert(v@[3].industries@ =~= listed_template(3).industries);
    assert(template_figures(v@[3]) == listed_template(3));
    v.push(template("NFLM", vec![share(100, Industry::Entertainment)], 155000, 663110000000, 59330000000, 43100000000, 0, 39820000000, 428239000));
    assert(v@[4].industries@ =~= listed_template(4).industries);
    assert(template_figures(v@[4]) == listed_template(4));
    v.push(template("USBNK", vec![share(100, Industry::Finance)], 15500, 260810000000, 27100000000, 12760000000, 416, 78740000000, 1690000000));
    assert(v@[5].industries@ =~= listed_template(5).industries);
    assert(template_figures(v@[5]) == listed_template(5));
    v.push(template("CBANK", vec![share(100, Industry::Finance)], 119, 328050000000, 130940000000, 60990000000, 3, 660120000000, 300852631579));
    assert(v@[6].industries@ =~= listed_template(6).industries);
    assert(template_figures(v@[6]) == listed_template(6));
    v.push(template("TELCO", vec![share(100, Industry::Telecommunications)], 416, 47660000000, 22360000000, 19500000000, 16, 18690000000, 11543000000));
    assert(v@[7].industries@ =~= listed_template(7).industries);
    assert(template_figures(v@[7]) == listed_template(7));
    v.push(template("KTEL", vec![share(100, Industry::Telecommunications)], 2763, 13580000000, 29510000000, 27780000000, 287, 23590000000, 491651550));
    assert(v@[8].industries@ =~= listed_template(8).industries);
    assert(template_figures(v@[8]) == listed_template(8));
    v.push(template("RR", vec![share(100, Industry::Mining)], 9751, 161480000000, 87010000000, 61670000000, 700, 93330000000, 1621400000));
    assert(v@[9].industries@ =~= listed_template(9).industries);
    assert(template_figures(v@[9]) == listed_template(9));
    v.push(template("PPCP", vec![share(100, Industry::Mining)], 7806, 197530000000, 86650000000, 48730000000, 470, 79090000000, 2532000000));
    assert(v@[10].industries@ =~= listed_template(10).industries);
    assert(template_figures(v@[10]) == listed_template(10));
    v.push(template("EFARM", vec![share(70, Industry::Retail), share(25, Industry::Manufacturing), share(5, Industry::Healthcare)], 7416, 84170000000, 43410000000, 39770000000, 198, 9250000000, 1132000000));
    assert(v@[11].industries@ =~= listed_template(11).industries);
    assert(template_figures(v@[11]) == listed_template(11));
    v.push(template("GAMGO", vec![share(100, Industry::Retail)], 4032, 18010000000, 6940000000, 6943460000, 15, 7730000000, 437400000));
    assert(v@[12].industries@ =~= listed_template(12).industries);
    assert(template_figures(v@[12]) == listed_template(12));
    v
}

/// At most this many of a new company's shares are handed out to traders;
/// the company keeps the rest.
pub const MAX_STARTING_ALLOCATION: u64 = 10_000_000;

/// A company as it enters the market.
#[derive(Debug)]
pub struct ListedCompany {
    pub company: Company,
    pub share_history: ShareHistory,
    pub wallet: Wallet,
    /// The shares the company keeps of itself.
    pub share_portfolio: SharePortfolio,
    /// The shares still to be handed out to traders.
    pub to_allocate: u64,
}

/// The shares of a new company handed out to traders.
pub open spec fn shares_to_allocate(outstanding: u64) -> u64 {
    if outstanding > MAX_STARTING_ALLOCATION { MAX_STARTING_ALLOCATION } else { outstanding }
}

/// The first quarter of a company's books: its template's books scaled to
/// hundredths, an average performance, quarter zero.
pub open spec fn first_quarter(t: CompanyTemplate) -> CompanyHistory {
    CompanyHistory {
        quarter: 0,
        assets: (t.assets * 100) as Money,
        revenue: (t.revenue * 100) as Money,
        expenses: (t.expenses * 100) as Money,
        total_shares: t.outstanding_shares,
        dividend_paid: t.dividend_paid,
        performance: PerformanceRanking::Average,
    }
}

/// Lists a company from its template as `entity`: its books start with the
/// first quarter, its share price with the template's, its wallet empty; it
/// keeps the shares beyond the ones handed out to traders.
pub fn list_company(template: CompanyTemplate, entity: EntityId) -> (l: ListedCompany)
    requires
        i64::MIN <= template.assets * 100 <= i64::MAX,
        i64::MIN <= template.revenue * 100 <= i64::MAX,
        i64::MIN <= template.expenses * 100 <= i64::MAX,
    ensures
        l.company.ticker@ == template.ticker@,
        l.company.existing_shares == template.outstanding_shares,
        l.company.history@ == seq![first_quarter(template)],
        l.company.industries@ == template.industries@,
        l.share_history.history@ == seq![
            BuyOrderBrief { quantity: 1000, price: template.stock_price },
        ],
        l.share_history.cached_price == template.stock_price,
        !l.share_history.dirty_price,
        l.wallet.balance == 0,
        l.share_portfolio@ == map![
            entity => (template.outstanding_shares - shares_to_allocate(template.outstanding_shares)) as u64,
        ],
        l.to_allocate == shares_to_allocate(template.outstanding_shares),
{
    let to_allocate = if template.outstanding_shares > MAX_STARTING_ALLOCATION {
        MAX_STARTING_ALLOCATION
    } else {
        template.outstanding_shares
    };
    let first = CompanyHistory {
        quarter: 0,
        assets: template.assets * 100,
        revenue: template.revenue * 100,
        expenses: template.expenses * 100,
        total_shares: template.outstanding_shares,
        dividend_paid: template.dividend_paid,
        performance: PerformanceRanking::Average,
    };
    let mut history: Vec<CompanyHistory> = Vec::new();
    history.push(first);
    let mut share_portfolio = SharePortfolio::new_player_portfolio();
    share_portfolio.add_shares(entity, template.outstanding_shares - to_allocate);
    assert(share_portfolio@ =~= map![entity => (template.outstanding_shares - to_allocate) as u64]);
    let share_history = ShareHistory::new(template.stock_price);
    let company = Company {
        ticker: template.ticker,
        existing_shares: template.outstanding_shares,
        history,
        industries: template.industries,
    };
    ListedCompany { company, share_history, wallet: Wallet { balance: 0 }, share_portfolio, to_allocate }
}

/// A listed company's books start in hundredths: its first quarter holds
/// each of its template's revenue, expenses and assets (given in whole
/// units) times a hundred, so its first profit is a hundred times the
/// template's revenue less expenses; it is quarter zero, of average
/// performance, with the template's shares and dividend.
pub proof fn lemma_first_quarter_in_hundredths(t: CompanyTemplate)
    requires
        i64::MIN <= t.assets * 100 <= i64::MAX,
        i64::MIN <= t.revenue * 100 <= i64::MAX,
        i64::MIN <= t.expenses * 100 <= i64::MAX,
    ensures
        first_quarter(t).revenue == 100 * t.revenue,
        first_quarter(t).expenses == 100 * t.expenses,
        first_quarter(t).assets == 100 * t.assets,
        first_quarter(t).revenue - first_quarter(t).expenses == 100 * (t.revenue - t.expenses),
        first_quarter(t).quarter == 0,
        first_quarter(t).performance == PerformanceRanking::Average,
        first_quarter(t).total_shares == t.outstanding_shares,
        first_quarter(t).dividend_paid == t.dividend_paid,
{
}

/// At most this many shares go to one trader in one round of allocation.
pub const MAX_ALLOCATION: u64 = 100;

/// Allocation stops after this many rounds, whatever is left.
pub const MAX_ALLOCATION_ROUNDS: u64 = 100;

/// The most shares the next round may hand out: up to a hundred, and no
/// more than are left.
pub open spec fn spec_allocation_limit(to_allocate: u64) -> u64 {
    if to_allocate < MAX_ALLOCATION { to_allocate } else { MAX_ALLOCATION }
}

/// The most shares the next round may hand out (see `spec_allocation_limit`).
pub fn allocation_limit(to_allocate: u64) -> (n: u64)
    ensures
        n == spec_allocation_limit(to_allocate),
{
    if to_allocate < MAX_ALLOCATION { to_allocate } else { MAX_ALLOCATION }
}

/// Whether another round of allocation runs: shares are left and fewer than
/// a hundred rounds have run.
pub fn keep_allocating(to_allocate: u64, rounds: u64) -> (b: bool)
    ensures
        b == (to_allocate > 0 && rounds < MAX_ALLOCATION_ROUNDS),
{
    to_allocate > 0 && rounds < MAX_ALLOCATION_ROUNDS
}

/// One round of allocation: `count` shares of `company` (drawn from zero to
/// the round's limit) go to a trader's portfolio and leave what is still to
/// be handed out, so no share is made or lost.
pub fn allocate_round(company: EntityId, to_allocate: &mut u64, portfolio: &mut SharePortfolio, count: u64)
    requires
        count <= spec_allocation_limit(*old(to_allocate)),
        share_count(old(portfolio)@, company) + count <= u64::MAX,
    ensures
        *final(to_allocate) == *old(to_allocate) - count,
        final(portfolio)@ == old(portfolio)@.insert(
            company,
            (share_count(old(portfolio)@, company) + count) as u64,
        ),
        *final(to_allocate) + share_count(final(portfolio)@, company) == *old(to_allocate)
            + share_count(old(portfolio)@, company),
{
    portfolio.add_shares(company, count);
    *to_allocate = *to_allocate - count;
}

/// Whether a company has handed out all its starting shares.
pub fn allocation_done(to_allocate: u64) -> (b: bool)
    ensures
        b == (to_allocate == 0),
{
    to_allocate == 0
}

/// The contents of portfolios.
pub open spec fn contents(ps: Seq<SharePortfolio>) -> Seq<Map<EntityId, u64>> {
    ps.map_values(|p: SharePortfolio| p@)
}

/// The shares of `company` held in the first `n` portfolios.
pub open spec fn held_across(ps: Seq<Map<EntityId, u64>>, company: EntityId, n: int) -> int
    decreases n,
{
    if n <= 0 {
        0
    } else {
        held_across(ps, company, n - 1) + share_count(ps[n - 1], company)
    }
}

/// One round of an allocation pass with draws `(ghost, count)`: the round
/// goes to the trader at `ghost` modulo their number and hands out `count`
/// modulo one more than the round's limit.
pub open spec fn allocation_round(
    left: u64,
    ps: Seq<Map<EntityId, u64>>,
    company: EntityId,
    draw: (u64, u64),
) -> (u64, Seq<Map<EntityId, u64>>) {
    let g = (draw.0 % (ps.len() as u64)) as int;
    let count = draw.1 % (spec_allocation_limit(left) + 1) as u64;
    (
        (left - count) as u64,
        ps.update(g, ps[g].insert(company, (share_count(ps[g], company) + count) as u64)),
    )
}

/// An allocation pass from round `r` on: rounds run while shares are left
/// and fewer than a hundred rounds have run.
pub open spec fn allocation_pass(
    left: u64,
    ps: Seq<Map<EntityId, u64>>,
    company: EntityId,
    draws: Seq<(u64, u64)>,
    r: int,
) -> (u64, Seq<Map<EntityId, u64>>)
    decreases MAX_ALLOCATION_ROUNDS - r,
{
    if left == 0 || r >= MAX_ALLOCATION_ROUNDS || r < 0 || ps.len() == 0 {
        (left, ps)
    } else {
        let next = allocation_round(left, ps, company, draws[r]);
        allocation_pass(next.0, next.1, company, draws, r + 1)
    }
}

proof fn lemma_held_update(
    ps: Seq<Map<EntityId, u64>>,
    company: EntityId,
    g: int,
    m: Map<EntityId, u64>,
    n: int,
)
    requires
        0 <= g < ps.len(),
        0 <= n <= ps.len(),
    ensures
        held_across(ps.update(g, m), company, n) == held_across(ps, company, n) + if g < n {
            share_count(m, company) - share_count(ps[g], company)
        } else {
            0
        },
        share_count(ps[g], company) <= held_across(ps, company, ps.len() as int) || n < ps.len(),
    decreases n,
{
    if n > 0 {
        lemma_held_update(ps, company, g, m, n - 1);
    }
    if n == ps.len() {
        lemma_held_part(ps, company, g, n);
    }
}

proof fn lemma_held_part(ps: Seq<Map<EntityId, u64>>, company: EntityId, g: int, n: int)
    requires
        0 <= g < n <= ps.len(),
    ensures
        share_count(ps[g], company) <= held_across(ps, company, n),
        held_across(ps, company, n) >= 0,
    decreases n,
{
    if n - 1 > g {
        lemma_held_part(ps, company, g, n - 1);
    } else {
        lemma_held_nonneg(ps, company, n - 1);
    }
}

proof fn lemma_held_nonneg(ps: Seq<Map<EntityId, u64>>, company: EntityId, n: int)
    ensures
        held_across(ps, company, n) >= 0,
    decreases n,
{
    if n > 0 {
        lemma_held_nonneg(ps, company, n - 1);
    }
}

/// Hands out a new company's shares to the traders (see `allocation_pass`),
/// one draw per round. No share is made or lost: what is still to be handed
/// out plus what the traders hold of the company stays the same, and the
/// traders' other holdings are untouched. Without traders nothing happens.
/// At most a hundred rounds of at most a hundred shares run per call.
pub fn allocate_stocks(
    company: EntityId,
    to_allocate: &mut u64,
    ghosts: &mut Vec<SharePortfolio>,
    draws: &Vec<(u64, u64)>,
)
    requires
        draws@.len() >= MAX_ALLOCATION_ROUNDS,
        held_across(contents(old(ghosts)@), company, old(ghosts)@.len() as int) + *old(to_allocate)
            <= u64::MAX,
    ensures
        (*final(to_allocate), contents(final(ghosts)@)) == allocation_pass(
            *old(to_allocate),
            contents(old(ghosts)@),
            company,
            draws@,
            0,
        ),
        *final(to_allocate) <= *old(to_allocate),
        *old(to_allocate) - *final(to_allocate) <= MAX_ALLOCATION_ROUNDS * MAX_ALLOCATION,
        *final(to_allocate) + held_across(contents(final(ghosts)@), company, final(ghosts)@.len() as int)
            == *old(to_allocate) + held_across(
            contents(old(ghosts)@),
            company,
            old(ghosts)@.len() as int,
        ),
        final(ghosts)@.len() == old(ghosts)@.len(),
        forall|i: int, c: EntityId|
            0 <= i < final(ghosts)@.len() && c != company ==> #[trigger] share_count(
                final(ghosts)@[i]@,
                c,
            ) == share_count(old(ghosts)@[i]@, c),
{
    let n = ghosts.len();
    let ghost total = held_across(contents(ghosts@), company, n as int) + *to_allocate;
    let ghost goal = allocation_pass(*to_allocate, contents(ghosts@), company, draws@, 0);
    let ghost start = contents(ghosts@);
    if n == 0 {
        return;
    }
    let mut rounds: u64 = 0;
    while keep_allocating(*to_allocate, rounds)
        invariant
            n == ghosts@.len(),
            n > 0,
            draws@.len() >= MAX_ALLOCATION_ROUNDS,
            0 <= rounds <= MAX_ALLOCATION_ROUNDS,
            goal == allocation_pass(*to_allocate, contents(ghosts@), company, draws@, rounds as int),
            held_across(contents(ghosts@), company, n as int) + *to_allocate == total,
            total <= u64::MAX,
            *to_allocate <= *old(to_allocate),
            *old(to_allocate) - *to_allocate <= rounds * MAX_ALLOCATION,
            forall|i: int, c: EntityId|
                0 <= i < n && c != company ==> #[trigger] share_count(ghosts@[i]@, c)
                    == share_count(start[i], c),
            start == contents(old(ghosts)@),
            start.len() == n,
        decreases MAX_ALLOCATION_ROUNDS - rounds,
    {
        let draw = draws[rounds as usize];
        let g = (draw.0 % (n as u64)) as usize;
        let limit = allocation_limit(*to_allocate);
        let count = draw.1 % (limit + 1);
        let ghost before = contents(ghosts@);
        let ghost gs = ghosts@;
        let mut p = ghosts.remove(g);
        proof {
            lemma_held_part(before, company, g as int, n as int);
            assert(before[g as int] == p@);
        }
        allocate_round(company, to_allocate, &mut p, count);
        ghosts.insert(g, p);
        proof {
            let m = before[g as int].insert(
                company,
                (share_count(before[g as int], company) + count) as u64,
            );
            assert(contents(ghosts@) =~= before.update(g as int, m));
            lemma_held_update(before, company, g as int, m, n as int);
            assert forall|i: int, c: EntityId|
                0 <= i < n && c != company implies #[trigger] share_count(ghosts@[i]@, c)
                == share_count(start[i], c) by {
                assert(share_count(gs[i]@, c) == share_count(start[i], c));
                assert(contents(ghosts@)[i] == ghosts@[i]@);
                if i == g {
                    assert(ghosts@[i]@ == m);
                    assert(before[i] == gs[i]@);
                } else {
                    assert(ghosts@[i] == gs[i]);
                }
            }
        }
        rounds = rounds + 1;
    }
    proof {
        assert(contents(ghosts@).len() == n);
    }
}

} // verus!
