//! The scrolling stock ticker: companies in ticker order, handed out to the
//! ticker's rows, each company shown in the colour of its price change, and
//! the window of characters the ticker shows as it scrolls.
use vstd::prelude::*;

use crate::Money;

verus! {

// ---------------------------------------------------------------------------
// Ticker order
// ---------------------------------------------------------------------------

/// Whether `a` comes strictly before `b`, comparing characters from the
/// front by their code points; a proper prefix comes first.
pub open spec fn text_lt(a: Seq<char>, b: Seq<char>) -> bool
    decreases a.len(),
{
    if a.len() == 0 {
        b.len() > 0
    } else if b.len() == 0 {
        false
    } else if a[0] != b[0] {
        (a[0] as int) < (b[0] as int)
    } else {
        text_lt(a.drop_first(), b.drop_first())
    }
}

/// No text comes before itself, and of two different texts exactly one comes first.
pub proof fn lemma_text_lt_total(a: Seq<char>, b: Seq<char>)
    ensures
        !text_lt(a, a),
        a != b ==> (text_lt(a, b) || text_lt(b, a)),
        !(text_lt(a, b) && text_lt(b, a)),
    decreases a.len(),
{
    if a.len() > 0 {
        lemma_text_lt_total(a.drop_first(), a.drop_first());
        if b.len() > 0 {
            lemma_text_lt_total(a.drop_first(), b.drop_first());
            if a[0] == b[0] && a != b {
                assert(a.drop_first() != b.drop_first()) by {
                    if a.drop_first() == b.drop_first() {
                        assert(a =~= seq![a[0]] + a.drop_first());
                        assert(b =~= seq![b[0]] + b.drop_first());
                    }
                }
            }
        }
    } else if b.len() == 0 {
        assert(a =~= b);
    }
}

/// Coming first is transitive.
pub proof fn lemma_text_lt_transitive(a: Seq<char>, b: Seq<char>, c: Seq<char>)
    requires
        text_lt(a, b),
        text_lt(b, c),
    ensures
        text_lt(a, c),
    decreases a.len(),
{
    if a.len() > 0 && b.len() > 0 && c.len() > 0 {
        if a[0] == b[0] && b[0] == c[0] {
            lemma_text_lt_transitive(a.drop_first(), b.drop_first(), c.drop_first());
        }
    }
}

/// Whether text `a` comes strictly before text `b` (see `text_lt`).
pub fn ticker_lt(a: &str, b: &str) -> (r: bool)
    ensures
        r == text_lt(a@, b@),
{
    let n = a.unicode_len();
    let m = b.unicode_len();
    let mut i: usize = 0;
    assert(a@.skip(0) =~= a@);
    assert(b@.skip(0) =~= b@);
    assert(a@.take(0) =~= b@.take(0));
    while i < n && i < m
        invariant
            0 <= i <= n,
            i <= m,
            n == a@.len(),
            m == b@.len(),
            a@.take(i as int) == b@.take(i as int),
            text_lt(a@, b@) == text_lt(a@.skip(i as int), b@.skip(i as int)),
        decreases n - i,
    {
        let x = a.get_char(i);
        let y = b.get_char(i);
        proof {
            assert(a@.skip(i as int)[0] == x);
            assert(b@.skip(i as int)[0] == y);
        }
        if x != y {
            return (x as u32) < (y as u32);
        }
        proof {
            assert(a@.skip(i as int).drop_first() =~= a@.skip(i + 1));
            assert(b@.skip(i as int).drop_first() =~= b@.skip(i + 1));
            assert(a@.take(i + 1) =~= a@.take(i as int).push(x));
            assert(b@.take(i + 1) =~= b@.take(i as int).push(y));
        }
        i = i + 1;
    }
    proof {
        assert(a@.skip(i as int).len() == n - i);
        assert(b@.skip(i as int).len() == m - i);
    }
    i == n && i < m
}

/// The position at which company `k` goes among `sorted`: before the first
/// whose ticker comes after its own, so that equal tickers keep their order.
pub open spec fn ticker_slot(names: Seq<Seq<char>>, sorted: Seq<usize>, k: int) -> int
    decreases sorted.len(),
{
    if sorted.len() == 0 {
        0
    } else if text_lt(names[k], names[sorted[0] as int]) {
        0
    } else {
        1 + ticker_slot(names, sorted.drop_first(), k)
    }
}

/// The positions of the first `n` companies in ticker order, companies with
/// equal tickers in the order given.
pub open spec fn ticker_order(names: Seq<Seq<char>>, n: int) -> Seq<usize>
    decreases n,
{
    if n <= 0 {
        Seq::empty()
    } else {
        let s = ticker_order(names, n - 1);
        s.insert(ticker_slot(names, s, n - 1), (n - 1) as usize)
    }
}

/// The texts held by strings.
pub open spec fn texts(v: Seq<String>) -> Seq<Seq<char>> {
    v.map_values(|s: String| s@)
}

proof fn lemma_ticker_slot_bounds(names: Seq<Seq<char>>, sorted: Seq<usize>, k: int)
    ensures
        0 <= ticker_slot(names, sorted, k) <= sorted.len(),
    decreases sorted.len(),
{
    if sorted.len() > 0 && !text_lt(names[k], names[sorted[0] as int]) {
        lemma_ticker_slot_bounds(names, sorted.drop_first(), k);
    }
}

proof fn lemma_ticker_slot_scan(names: Seq<Seq<char>>, sorted: Seq<usize>, k: int, idx: int)
    requires
        0 <= idx <= sorted.len(),
        forall|j: int| 0 <= j < idx ==> !text_lt(names[k], names[sorted[j] as int]),
        idx < sorted.len() ==> text_lt(names[k], names[sorted[idx] as int]),
    ensures
        ticker_slot(names, sorted, k) == idx,
    decreases sorted.len(),
{
    if sorted.len() > 0 && idx > 0 {
        assert forall|j: int| 0 <= j < idx - 1 implies !text_lt(
            names[k],
            names[sorted.drop_first()[j] as int],
        ) by {
            assert(sorted.drop_first()[j] == sorted[j + 1]);
        }
        lemma_ticker_slot_scan(names, sorted.drop_first(), k, idx - 1);
    }
}

/// The positions of companies in ticker order (see `ticker_order`).
pub fn sort_by_ticker(tickers: &Vec<String>) -> (r: Vec<usize>)
    ensures
        r@ == ticker_order(texts(tickers@), tickers@.len() as int),
{
    let ghost names = texts(tickers@);
    let mut sorted: Vec<usize> = Vec::new();
    let mut k: usize = 0;
    while k < tickers.len()
        invariant
            0 <= k <= tickers@.len(),
            names == texts(tickers@),
            sorted@ == ticker_order(names, k as int),
            forall|j: int| 0 <= j < sorted@.len() ==> sorted@[j] < k,
        decreases tickers@.len() - k,
    {
        let name: &str = tickers[k].as_str();
        let mut idx: usize = 0;
        while idx < sorted.len() && !ticker_lt(name, tickers[sorted[idx]].as_str())
            invariant
                0 <= idx <= sorted@.len(),
                k < tickers@.len(),
                name@ == names[k as int],
                names == texts(tickers@),
                forall|j: int| 0 <= j < sorted@.len() ==> sorted@[j] < k,
                forall|j: int| 0 <= j < idx ==> !text_lt(names[k as int], names[sorted@[j] as int]),
            decreases sorted@.len() - idx,
        {
            idx = idx + 1;
        }
        proof {
            lemma_ticker_slot_scan(names, sorted@, k as int, idx as int);
        }
        let ghost before = sorted@;
        sorted.insert(idx, k);
        proof {
            assert(sorted@ == before.insert(idx as int, k));
            assert forall|j: int| 0 <= j < sorted@.len() implies sorted@[j] < k + 1 by {
                if j < idx {
                } else if j == idx {
                } else {
                    assert(sorted@[j] == before[j - 1]);
                }
            }
        }
        k = k + 1;
    }
    sorted
}

proof fn lemma_ticker_slot_props(names: Seq<Seq<char>>, sorted: Seq<usize>, k: int)
    ensures
        forall|j: int|
            0 <= j < ticker_slot(names, sorted, k) ==> !text_lt(
                names[k],
                #[trigger] names[sorted[j] as int],
            ),
        ticker_slot(names, sorted, k) < sorted.len() ==> text_lt(
            names[k],
            names[sorted[ticker_slot(names, sorted, k)] as int],
        ),
    decreases sorted.len(),
{
    lemma_ticker_slot_bounds(names, sorted, k);
    if sorted.len() > 0 && !text_lt(names[k], names[sorted[0] as int]) {
        let rest = sorted.drop_first();
        lemma_ticker_slot_props(names, rest, k);
        lemma_ticker_slot_bounds(names, rest, k);
        assert forall|j: int| 0 <= j < ticker_slot(names, sorted, k) implies !text_lt(
            names[k],
            #[trigger] names[sorted[j] as int],
        ) by {
            if j > 0 {
                assert(sorted[j] == rest[j - 1]);
            }
        }
    }
}

/// Ticker order lists every company once, and no company's ticker comes
/// before that of a company listed ahead of it.
pub proof fn lemma_ticker_order_sorted(names: Seq<Seq<char>>, n: int)
    requires
        0 <= n <= names.len(),
        n <= usize::MAX,
    ensures
        ticker_order(names, n).len() == n,
        forall|i: int, j: int|
            0 <= i < j < n ==> ticker_order(names, n)[i] != ticker_order(names, n)[j],
        forall|i: int| 0 <= i < n ==> ticker_order(names, n)[i] < n,
        forall|i: int, j: int|
            0 <= i < j < n ==> !text_lt(
                names[ticker_order(names, n)[j] as int],
                names[ticker_order(names, n)[i] as int],
            ),
    decreases n,
{
    if n > 0 {
        let s = ticker_order(names, n - 1);
        lemma_ticker_order_sorted(names, n - 1);
        let k = n - 1;
        let idx = ticker_slot(names, s, k);
        lemma_ticker_slot_bounds(names, s, k);
        lemma_ticker_slot_props(names, s, k);
        let t = s.insert(idx, k as usize);
        assert(t == ticker_order(names, n));
        assert(t.len() == n);
        assert(t[idx] == k);
        assert(forall|x: int| 0 <= x < idx ==> t[x] == s[x]);
        assert(forall|x: int| idx < x < n ==> t[x] == s[x - 1]);
        assert forall|i: int| 0 <= i < n implies t[i] < n by {
            if i > idx {
                assert(t[i] == s[i - 1]);
            }
        }
        assert forall|i: int, j: int| 0 <= i < j < n implies t[i] != t[j] by {
            if j < idx {
            } else if j == idx {
                assert(s[i] < k);
            } else if i < idx {
                assert(t[j] == s[j - 1]);
            } else if i == idx {
                assert(s[j - 1] < k);
            } else {
                assert(t[i] == s[i - 1] && t[j] == s[j - 1]);
            }
        }
        assert forall|i: int, j: int| 0 <= i < j < n implies !text_lt(
            names[t[j] as int],
            names[t[i] as int],
        ) by {
            if j < idx {
            } else if j == idx {
                // The companies ahead of the slot do not come after k.
                assert(!text_lt(names[k], names[s[i] as int]));
            } else if i < idx {
                assert(t[j] == s[j - 1]);
            } else if i == idx {
                // k comes before the company at the slot, which comes no
                // later than any company listed behind it.
                assert(t[j] == s[j - 1]);
                assert(text_lt(names[k], names[s[idx] as int]));
                if text_lt(names[s[j - 1] as int], names[k]) {
                    lemma_text_lt_transitive(
                        names[s[j - 1] as int],
                        names[k],
                        names[s[idx] as int],
                    );
                    if j - 1 > idx {
                        assert(!text_lt(names[s[j - 1] as int], names[s[idx] as int]));
                    } else {
                        lemma_text_lt_total(names[s[idx] as int], names[s[idx] as int]);
                    }
                }
            } else {
                assert(t[i] == s[i - 1] && t[j] == s[j - 1]);
            }
        }
    }
}

// ---------------------------------------------------------------------------
// Rows
// ---------------------------------------------------------------------------

/// How many companies a row of the ticker takes.
pub const COMPANY_PER_ROW: usize = 5;

/// The companies of row `r`: the rows take turns from the end of the list,
/// five at a time, and each row holds its companies in the order taken.
pub open spec fn spec_row(order: Seq<usize>, r: int) -> Seq<usize> {
    let start = r * COMPANY_PER_ROW;
    let count = if order.len() <= start {
        0
    } else if order.len() - start < COMPANY_PER_ROW {
        order.len() - start
    } else {
        COMPANY_PER_ROW as int
    };
    Seq::new(count as nat, |j: int| order[order.len() - 1 - (start + j)])
}

/// Hands the companies, in ticker order, out to `rows` rows (see `spec_row`).
pub fn ticker_rows(order: &Vec<usize>, rows: usize) -> (r: Vec<Vec<usize>>)
    ensures
        r@.len() == rows,
        forall|i: int| 0 <= i < rows ==> (#[trigger] r@[i])@ == spec_row(order@, i),
{
    let n = order.len();
    let mut out: Vec<Vec<usize>> = Vec::new();
    let mut taken: usize = 0;
    let mut i: usize = 0;
    while i < rows
        invariant
            0 <= i <= rows,
            n == order@.len(),
            out@.len() == i,
            taken == if i * COMPANY_PER_ROW < n { i * COMPANY_PER_ROW } else { n as int },
            forall|q: int| 0 <= q < i ==> (#[trigger] out@[q])@ == spec_row(order@, q),
        decreases rows - i,
    {
        let mut row: Vec<usize> = Vec::new();
        let ghost start = i * COMPANY_PER_ROW;
        let mut j: usize = 0;
        while j < COMPANY_PER_ROW && taken < n
            invariant
                0 <= j <= COMPANY_PER_ROW,
                n == order@.len(),
                taken <= n,
                start == i * COMPANY_PER_ROW,
                start < n ==> taken == start + j,
                start >= n ==> taken == n && j == 0,
                row@.len() == j,
                forall|q: int| 0 <= q < j ==> row@[q] == order@[n - 1 - (start + q)],
            decreases COMPANY_PER_ROW - j,
        {
            row.push(order[n - 1 - taken]);
            taken = taken + 1;
            j = j + 1;
        }
        proof {
            assert(row@ =~= spec_row(order@, i as int));
        }
        out.push(row);
        proof {
            assert forall|q: int| 0 <= q < i + 1 implies (#[trigger] out@[q])@ == spec_row(
                order@,
                q,
            ) by {}
        }
        i = i + 1;
    }
    out
}

// ---------------------------------------------------------------------------
// Each company's entry
// ---------------------------------------------------------------------------

/// Which way a company's price moved since its last quarter.
#[derive(Clone, Copy, Debug, PartialEq, Eq, Structural)]
pub enum PriceMove {
    Up,
    Down,
    Flat,
}

/// Which way the price moved from `last_price` to `price`.
pub fn price_move(price: Money, last_price: Money) -> (m: PriceMove)
    ensures
        m == if price > last_price {
            PriceMove::Up
        } else if price < last_price {
            PriceMove::Down
        } else {
            PriceMove::Flat
        },
{
    if price > last_price {
        PriceMove::Up
    } else if price < last_price {
        PriceMove::Down
    } else {
        PriceMove::Flat
    }
}

/// The spaces that right-align a ticker of `len` bytes in five columns.
pub fn ticker_padding(len: usize) -> (n: usize)
    requires
        len <= 5,
    ensures
        n == 5 - len,
{
    5 - len
}

// ---------------------------------------------------------------------------
// Scrolling
// ---------------------------------------------------------------------------

/// How many characters the ticker shows at once.
pub const SLICE_SIZE: usize = 20;

/// The scroll offset after one more step: one further, back to zero past
/// the largest `i32`.
pub fn next_offset(offset: i32) -> (r: i32)
    ensures
        r == if offset < i32::MAX { offset + 1 } else { 0 },
{
    if offset < i32::MAX { offset + 1 } else { 0 }
}

/// The characters shown at a scroll offset: twenty positions starting at the
/// offset, wrapping round the text's first `len - 1` characters.
pub open spec fn window_position(len: int, offset: int, i: int) -> int {
    (offset % (len - 1) + i) % (len - 1)
}

/// The positions of the characters shown at a scroll offset (see
/// `window_position`).
pub fn ticker_window(len: usize, offset: i32) -> (r: Vec<usize>)
    requires
        len >= 2,
        offset >= 0,
    ensures
        r@.len() == SLICE_SIZE,
        forall|i: int| 0 <= i < SLICE_SIZE ==> r@[i] == window_position(len as int, offset as int, i),
{
    let period = len - 1;
    let mut pos: usize = (offset as usize) % period;
    let mut out: Vec<usize> = Vec::new();
    let mut i: usize = 0;
    proof {
        vstd::arithmetic::div_mod::lemma_mod_bound(offset as int, period as int);
        vstd::arithmetic::div_mod::lemma_small_mod(pos as nat, period as nat);
    }
    while i < SLICE_SIZE
        invariant
            0 <= i <= SLICE_SIZE,
            period == len - 1,
            period >= 1,
            offset >= 0,
            pos < period,
            pos == window_position(len as int, offset as int, i as int),
            out@.len() == i,
            forall|q: int| 0 <= q < i ==> out@[q] == window_position(len as int, offset as int, q),
        decreases SLICE_SIZE - i,
    {
        out.push(pos);
        proof {
            let base = (offset as int) % (period as int);
            vstd::arithmetic::div_mod::lemma_add_mod_noop(base + i, 1, period as int);
            vstd::arithmetic::div_mod::lemma_add_mod_noop(pos as int, 1, period as int);
            vstd::arithmetic::div_mod::lemma_small_mod(pos as nat, period as nat);
        }
        pos = (pos + 1) % period;
        i = i + 1;
    }
    out
}

} // verus!
