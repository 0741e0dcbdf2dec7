//! The combined book: the best levels of both exchanges and the spread.

use vstd::prelude::*;

use crate::models::{LevelRecord, Marketplace, WrapperOrderbook};

verus! {

/// Number of levels of each side in a summary.
pub const SUMMARY_DEPTH: usize = 10;

/// A level of the combined book, tagged with the exchange that offers it.
#[derive(Clone, Copy, Debug, PartialEq, Eq, Structural)]
pub struct Level {
    pub exchange: Marketplace,
    pub price: u64,
    pub amount: u64,
}

/// The best bids (highest first) and asks (lowest first) of both exchanges, and
/// the best ask's price minus the best bid's price.
#[derive(Clone, Debug)]
pub struct Summary {
    pub spread: i128,
    pub bids: Vec<Level>,
    pub asks: Vec<Level>,
}

/// `levels` tagged with `exchange`.
pub open spec fn tagged(levels: Seq<LevelRecord>, exchange: Marketplace) -> Seq<Level> {
    levels.map_values(|l: LevelRecord| Level { exchange: exchange, price: l.price, amount: l.quantity })
}

/// `x` placed into `sorted` after every level whose price is not above its own.
pub open spec fn insert_by_price(sorted: Seq<Level>, x: Level) -> Seq<Level>
    decreases sorted.len(),
{
    if sorted.len() == 0 {
        seq![x]
    } else if sorted.last().price <= x.price {
        sorted.push(x)
    } else {
        insert_by_price(sorted.drop_last(), x).push(sorted.last())
    }
}

/// `s` in ascending order of price; levels of equal price keep their order.
pub open spec fn sort_by_price(s: Seq<Level>) -> Seq<Level>
    decreases s.len(),
{
    if s.len() == 0 {
        s
    } else {
        insert_by_price(sort_by_price(s.drop_last()), s.last())
    }
}

/// The first `n` items of `s`, or all of them when there are fewer.
pub open spec fn first_n(s: Seq<Level>, n: nat) -> Seq<Level> {
    if s.len() <= n {
        s
    } else {
        s.take(n as int)
    }
}

/// The bids of both books, those of the Binance book first.
pub open spec fn merged_bids(binance: WrapperOrderbook, bitstamp: WrapperOrderbook) -> Seq<Level> {
    tagged(binance.bids@, Marketplace::Binance) + tagged(bitstamp.bids@, Marketplace::Bitstamp)
}

/// The asks of both books, those of the Binance book first.
pub open spec fn merged_asks(binance: WrapperOrderbook, bitstamp: WrapperOrderbook) -> Seq<Level> {
    tagged(binance.asks@, Marketplace::Binance) + tagged(bitstamp.asks@, Marketplace::Bitstamp)
}

/// The summary's bids: the merged bids sorted by price, highest first, cut to `SUMMARY_DEPTH`.
pub open spec fn summary_bids(binance: WrapperOrderbook, bitstamp: WrapperOrderbook) -> Seq<Level> {
    first_n(sort_by_price(merged_bids(binance, bitstamp)).reverse(), SUMMARY_DEPTH as nat)
}

/// The summary's asks: the merged asks sorted by price, lowest first, cut to `SUMMARY_DEPTH`.
pub open spec fn summary_asks(binance: WrapperOrderbook, bitstamp: WrapperOrderbook) -> Seq<Level> {
    first_n(sort_by_price(merged_asks(binance, bitstamp)), SUMMARY_DEPTH as nat)
}

/// A summary needs at least one bid and one ask between the two books.
pub open spec fn can_summarize(binance: WrapperOrderbook, bitstamp: WrapperOrderbook) -> bool {
    &&& binance.bids@.len() + bitstamp.bids@.len() > 0
    &&& binance.asks@.len() + bitstamp.asks@.len() > 0
}

/// `summary` is the summary of the two books.
pub open spec fn is_summary_of(binance: WrapperOrderbook, bitstamp: WrapperOrderbook, summary: Summary) -> bool {
    &&& summary.bids@ == summary_bids(binance, bitstamp)
    &&& summary.asks@ == summary_asks(binance, bitstamp)
    &&& summary.spread == summary.asks@[0].price - summary.bids@[0].price
}

/// Appends `levels`, tagged with `exchange`, to `out`.
fn push_tagged(out: &mut Vec<Level>, levels: &Vec<LevelRecord>, exchange: Marketplace)
    ensures
        final(out)@ == old(out)@ + tagged(levels@, exchange),
{
    let ghost start = out@;
    let mut i: usize = 0;
    while i < levels.len()
        invariant
            0 <= i <= levels@.len(),
            out@ == start + tagged(levels@.take(i as int), exchange),
        decreases levels@.len() - i,
    {
        let level = levels[i];
        out.push(Level { exchange, price: level.price, amount: level.quantity });
        proof {
            assert(tagged(levels@.take(i + 1), exchange) =~= tagged(levels@.take(i as int), exchange).push(
                Level { exchange: exchange, price: level.price, amount: level.quantity },
            ));
        }
        i = i + 1;
    }
    proof {
        assert(levels@.take(levels@.len() as int) =~= levels@);
    }
}

proof fn lemma_insert_by_price_at(s: Seq<Level>, x: Level, pos: int)
    requires
        0 <= pos <= s.len(),
        pos == 0 || s[pos - 1].price <= x.price,
        forall|k: int| pos <= k < s.len() ==> s[k].price > x.price,
    ensures
        insert_by_price(s, x) == s.insert(pos, x),
    decreases s.len(),
{
    if s.len() == 0 {
        assert(s.insert(pos, x) =~= seq![x]);
    } else if pos == s.len() {
        assert(s.insert(pos, x) =~= s.push(x));
    } else {
        let t = s.drop_last();
        assert forall|k: int| pos <= k < t.len() implies t[k].price > x.price by {
            assert(t[k] == s[k]);
        }
        if pos > 0 {
            assert(t[pos - 1] == s[pos - 1]);
        }
        lemma_insert_by_price_at(t, x, pos);
        assert(s.insert(pos, x) =~= t.insert(pos, x).push(s.last()));
    }
}

/// Sorts levels by ascending price, keeping the order of levels of equal price.
fn sort_levels(levels: &Vec<Level>) -> (sorted: Vec<Level>)
    ensures
        sorted@ == sort_by_price(levels@),
{
    let mut sorted: Vec<Level> = Vec::new();
    let mut i: usize = 0;
    proof {
        assert(levels@.take(0) =~= Seq::<Level>::empty());
    }
    while i < levels.len()
        invariant
            0 <= i <= levels@.len(),
            sorted@ == sort_by_price(levels@.take(i as int)),
        decreases levels@.len() - i,
    {
        let x = levels[i];
        let mut pos = sorted.len();
        while pos > 0 && sorted[pos - 1].price > x.price
            invariant
                0 <= pos <= sorted@.len(),
                forall|k: int| pos <= k < sorted@.len() ==> sorted@[k].price > x.price,
            decreases pos,
        {
            pos = pos - 1;
        }
        proof {
            lemma_insert_by_price_at(sorted@, x, pos as int);
            assert(levels@.take(i + 1).drop_last() =~= levels@.take(i as int));
        }
        sorted.insert(pos, x);
        i = i + 1;
    }
    proof {
        assert(levels@.take(levels@.len() as int) =~= levels@);
    }
    sorted
}

/// Merges the books of the two exchanges into a summary: the bids of both,
/// highest price first, and their asks, lowest price first, each cut to
/// `SUMMARY_DEPTH` levels, and the spread between the best ask and the best bid.
/// Levels of equal price keep the order of the merged lists for asks (Binance
/// first) and the reverse order for bids (Bitstamp first).
pub fn summarize(binance: &WrapperOrderbook, bitstamp: &WrapperOrderbook) -> (summary: Summary)
    requires
        can_summarize(*binance, *bitstamp),
    ensures
        is_summary_of(*binance, *bitstamp, summary),
{
    let mut bids: Vec<Level> = Vec::new();
    push_tagged(&mut bids, &binance.bids, Marketplace::Binance);
    push_tagged(&mut bids, &bitstamp.bids, Marketplace::Bitstamp);
    let mut asks: Vec<Level> = Vec::new();
    push_tagged(&mut asks, &binance.asks, Marketplace::Binance);
    push_tagged(&mut asks, &bitstamp.asks, Marketplace::Bitstamp);
    proof {
        assert(bids@ =~= merged_bids(*binance, *bitstamp));
        assert(asks@ =~= merged_asks(*binance, *bitstamp));
        lemma_sort_len(bids@);
        lemma_sort_len(asks@);
    }
    let sorted_bids = sort_levels(&bids);
    let sorted_asks = sort_levels(&asks);

    let n = sorted_bids.len();
    let mut top_bids: Vec<Level> = Vec::new();
    let mut i: usize = 0;
    while i < n && i < SUMMARY_DEPTH
        invariant
            n == sorted_bids@.len(),
            0 <= i <= n,
            i <= SUMMARY_DEPTH,
            top_bids@ == sorted_bids@.reverse().take(i as int),
        decreases n - i,
    {
        top_bids.push(sorted_bids[n - 1 - i]);
        proof {
            assert(sorted_bids@.reverse().take(i + 1) =~= sorted_bids@.reverse().take(i as int).push(
                sorted_bids@[n - 1 - i],
            ));
        }
        i = i + 1;
    }
    proof {
        if n <= SUMMARY_DEPTH {
            assert(sorted_bids@.reverse().take(n as int) =~= sorted_bids@.reverse());
        }
    }

    let m = sorted_asks.len();
    let mut top_asks: Vec<Level> = Vec::new();
    let mut j: usize = 0;
    while j < m && j < SUMMARY_DEPTH
        invariant
            m == sorted_asks@.len(),
            0 <= j <= m,
            j <= SUMMARY_DEPTH,
            top_asks@ == sorted_asks@.take(j as int),
        decreases m - j,
    {
        top_asks.push(sorted_asks[j]);
        proof {
            assert(sorted_asks@.take(j + 1) =~= sorted_asks@.take(j as int).push(sorted_asks@[j as int]));
        }
        j = j + 1;
    }
    proof {
        if m <= SUMMARY_DEPTH {
            assert(sorted_asks@.take(m as int) =~= sorted_asks@);
        }
    }
    let spread = top_asks[0].price as i128 - top_bids[0].price as i128;
    Summary { spread, bids: top_bids, asks: top_asks }
}

/// Prices do not decrease along `s`.
pub open spec fn ascending(s: Seq<Level>) -> bool {
    forall|i: int, j: int| 0 <= i < j < s.len() ==> s[i].price <= s[j].price
}

proof fn lemma_insert_multiset(s: Seq<Level>, x: Level)
    ensures
        insert_by_price(s, x).to_multiset() =~= s.to_multiset().insert(x),
    decreases s.len(),
{
    broadcast use vstd::seq_lib::group_to_multiset_ensures;

    if s.len() == 0 {
        assert(seq![x] =~= Seq::<Level>::empty().push(x));
    } else if s.last().price <= x.price {
    } else {
        let t = s.drop_last();
        lemma_insert_multiset(t, x);
        assert(s =~= t.push(s.last()));
    }
}

/// Sorting keeps every level, as many times as it occurs.
pub proof fn lemma_sort_permutes(s: Seq<Level>)
    ensures
        sort_by_price(s).to_multiset() =~= s.to_multiset(),
    decreases s.len(),
{
    broadcast use vstd::seq_lib::group_to_multiset_ensures;

    if s.len() > 0 {
        let t = s.drop_last();
        lemma_sort_permutes(t);
        lemma_insert_multiset(sort_by_price(t), s.last());
        assert(s =~= t.push(s.last()));
    }
}

proof fn lemma_insert_sorted(s: Seq<Level>, x: Level)
    requires
        ascending(s),
    ensures
        ascending(insert_by_price(s, x)),
    decreases s.len(),
{
    broadcast use vstd::seq_lib::group_to_multiset_ensures;

    if s.len() > 0 && s.last().price > x.price {
        let t = s.drop_last();
        let r = insert_by_price(t, x);
        lemma_insert_sorted(t, x);
        lemma_insert_multiset(t, x);
        assert forall|i: int| 0 <= i < r.len() implies #[trigger] r[i].price <= s.last().price by {
            assert(r.to_multiset().count(r[i]) > 0);
            if r[i] != x {
                assert(t.contains(r[i]));
                let k = choose|k: int| 0 <= k < t.len() && t[k] == r[i];
                assert(s[k] == t[k]);
            }
        }
        assert forall|i: int, j: int| 0 <= i < j < r.len() + 1 implies r.push(s.last())[i].price <= r.push(s.last())[j].price by {
            if j == r.len() {
                assert(r.push(s.last())[i] == r[i]);
            }
        }
    }
}

/// Sorting puts the levels in ascending order of price.
pub proof fn lemma_sort_ascending(s: Seq<Level>)
    ensures
        ascending(sort_by_price(s)),
    decreases s.len(),
{
    if s.len() > 0 {
        lemma_sort_ascending(s.drop_last());
        lemma_insert_sorted(sort_by_price(s.drop_last()), s.last());
    }
}

/// The summary holds the best levels of both books: bids from the highest price
/// down and asks from the lowest price up, `SUMMARY_DEPTH` of each or all there
/// are, each a level of one of the books; a level left out is priced no better
/// than the last one kept, and the first bid and ask are the best prices of
/// both books, which the spread is taken between.
pub proof fn summary_holds_best_levels(binance: WrapperOrderbook, bitstamp: WrapperOrderbook)
    ensures
        ({
            let merged = merged_bids(binance, bitstamp);
            let bids = summary_bids(binance, bitstamp);
            &&& bids.len() == if merged.len() <= SUMMARY_DEPTH { merged.len() } else { SUMMARY_DEPTH as nat }
            &&& forall|i: int, j: int| 0 <= i < j < bids.len() ==> bids[i].price >= bids[j].price
            &&& forall|i: int| 0 <= i < bids.len() ==> merged.contains(#[trigger] bids[i])
            &&& forall|x: Level| #[trigger] merged.contains(x) && !bids.contains(x) ==> bids.len()
                == SUMMARY_DEPTH && x.price <= bids.last().price
            &&& forall|x: Level| #[trigger] merged.contains(x) ==> x.price <= bids[0].price
        }),
        ({
            let merged = merged_asks(binance, bitstamp);
            let asks = summary_asks(binance, bitstamp);
            &&& asks.len() == if merged.len() <= SUMMARY_DEPTH { merged.len() } else { SUMMARY_DEPTH as nat }
            &&& forall|i: int, j: int| 0 <= i < j < asks.len() ==> asks[i].price <= asks[j].price
            &&& forall|i: int| 0 <= i < asks.len() ==> merged.contains(#[trigger] asks[i])
            &&& forall|x: Level| #[trigger] merged.contains(x) && !asks.contains(x) ==> asks.len()
                == SUMMARY_DEPTH && x.price >= asks.last().price
            &&& forall|x: Level| #[trigger] merged.contains(x) ==> x.price >= asks[0].price
        }),
{
    broadcast use vstd::seq_lib::group_to_multiset_ensures;

    let merged = merged_bids(binance, bitstamp);
    let sorted = sort_by_price(merged);
    let n = sorted.len() as int;
    let bids = summary_bids(binance, bitstamp);
    lemma_sort_len(merged);
    lemma_sort_permutes(merged);
    lemma_sort_ascending(merged);
    assert forall|i: int| 0 <= i < bids.len() implies merged.contains(#[trigger] bids[i]) by {
        assert(bids[i] == sorted[n - 1 - i]);
        assert(sorted.to_multiset().count(sorted[n - 1 - i]) > 0);
    }
    assert forall|x: Level| #[trigger] merged.contains(x) implies (bids.contains(x) || (bids.len()
        == SUMMARY_DEPTH && x.price <= bids.last().price)) && x.price <= bids[0].price by {
        assert(merged.to_multiset().count(x) > 0);
        assert(sorted.contains(x));
        let k = choose|k: int| 0 <= k < n && sorted[k] == x;
        if k >= n - SUMMARY_DEPTH {
            assert(bids[n - 1 - k] == x);
        } else {
            assert(bids.last() == sorted[n - SUMMARY_DEPTH]);
        }
        assert(bids[0] == sorted[n - 1]);
    }

    let merged = merged_asks(binance, bitstamp);
    let sorted = sort_by_price(merged);
    let n = sorted.len() as int;
    let asks = summary_asks(binance, bitstamp);
    lemma_sort_len(merged);
    lemma_sort_permutes(merged);
    lemma_sort_ascending(merged);
    assert forall|i: int| 0 <= i < asks.len() implies merged.contains(#[trigger] asks[i]) by {
        assert(asks[i] == sorted[i]);
        assert(sorted.to_multiset().count(sorted[i]) > 0);
    }
    assert forall|x: Level| #[trigger] merged.contains(x) implies (asks.contains(x) || (asks.len()
        == SUMMARY_DEPTH && x.price >= asks.last().price)) && x.price >= asks[0].price by {
        assert(merged.to_multiset().count(x) > 0);
        assert(sorted.contains(x));
        let k = choose|k: int| 0 <= k < n && sorted[k] == x;
        if k < SUMMARY_DEPTH {
            assert(asks[k] == x);
        } else {
            assert(asks.last() == sorted[SUMMARY_DEPTH - 1]);
        }
        assert(asks[0] == sorted[0]);
    }
}

/// Tagging keeps every level, in order, with its price and quantity, and marks
/// each with the exchange given.
pub proof fn tagged_keeps_every_level(levels: Seq<LevelRecord>, exchange: Marketplace)
    ensures
        tagged(levels, exchange).len() == levels.len(),
        forall|i: int|
            0 <= i < levels.len() ==> #[trigger] tagged(levels, exchange)[i] == (Level {
                exchange: exchange,
                price: levels[i].price,
                amount: levels[i].quantity,
            }),
{
}

/// Each merged side holds every level of both books: first the Binance levels
/// tagged Binance, then the Bitstamp levels tagged Bitstamp, each in its order.
pub proof fn merged_sides_hold_every_level(binance: WrapperOrderbook, bitstamp: WrapperOrderbook)
    ensures
        merged_bids(binance, bitstamp).len() == binance.bids@.len() + bitstamp.bids@.len(),
        forall|i: int|
            0 <= i < binance.bids@.len() ==> #[trigger] merged_bids(binance, bitstamp)[i] == (Level {
                exchange: Marketplace::Binance,
                price: binance.bids@[i].price,
                amount: binance.bids@[i].quantity,
            }),
        forall|i: int|
            0 <= i < bitstamp.bids@.len() ==> #[trigger] merged_bids(binance, bitstamp)[binance.bids@.len() + i]
                == (Level {
                exchange: Marketplace::Bitstamp,
                price: bitstamp.bids@[i].price,
                amount: bitstamp.bids@[i].quantity,
            }),
        merged_asks(binance, bitstamp).len() == binance.asks@.len() + bitstamp.asks@.len(),
        forall|i: int|
            0 <= i < binance.asks@.len() ==> #[trigger] merged_asks(binance, bitstamp)[i] == (Level {
                exchange: Marketplace::Binance,
                price: binance.asks@[i].price,
                amount: binance.asks@[i].quantity,
            }),
        forall|i: int|
            0 <= i < bitstamp.asks@.len() ==> #[trigger] merged_asks(binance, bitstamp)[binance.asks@.len() + i]
                == (Level {
                exchange: Marketplace::Bitstamp,
                price: bitstamp.asks@[i].price,
                amount: bitstamp.asks@[i].quantity,
            }),
{
    tagged_keeps_every_level(binance.bids@, Marketplace::Binance);
    tagged_keeps_every_level(bitstamp.bids@, Marketplace::Bitstamp);
    tagged_keeps_every_level(binance.asks@, Marketplace::Binance);
    tagged_keeps_every_level(bitstamp.asks@, Marketplace::Bitstamp);
}

/// Every level of either book, tagged with its exchange, is in the summary
/// unless the summary is full and the level is priced no better than the last
/// level kept; and every level kept is a level of one of the books, with that
/// book's exchange.
pub proof fn summary_keeps_better_levels_of_each_book(binance: WrapperOrderbook, bitstamp: WrapperOrderbook)
    ensures
        forall|i: int| 0 <= i < binance.bids@.len() ==> {
            let x = Level { exchange: Marketplace::Binance, price: #[trigger] binance.bids@[i].price, amount: binance.bids@[i].quantity };
            summary_bids(binance, bitstamp).contains(x) || (summary_bids(binance, bitstamp).len() == SUMMARY_DEPTH
                && x.price <= summary_bids(binance, bitstamp).last().price)
        },
        forall|i: int| 0 <= i < bitstamp.bids@.len() ==> {
            let x = Level { exchange: Marketplace::Bitstamp, price: #[trigger] bitstamp.bids@[i].price, amount: bitstamp.bids@[i].quantity };
            summary_bids(binance, bitstamp).contains(x) || (summary_bids(binance, bitstamp).len() == SUMMARY_DEPTH
                && x.price <= summary_bids(binance, bitstamp).last().price)
        },
        forall|i: int| 0 <= i < binance.asks@.len() ==> {
            let x = Level { exchange: Marketplace::Binance, price: #[trigger] binance.asks@[i].price, amount: binance.asks@[i].quantity };
            summary_asks(binance, bitstamp).contains(x) || (summary_asks(binance, bitstamp).len() == SUMMARY_DEPTH
                && x.price >= summary_asks(binance, bitstamp).last().price)
        },
        forall|i: int| 0 <= i < bitstamp.asks@.len() ==> {
            let x = Level { exchange: Marketplace::Bitstamp, price: #[trigger] bitstamp.asks@[i].price, amount: bitstamp.asks@[i].quantity };
            summary_asks(binance, bitstamp).contains(x) || (summary_asks(binance, bitstamp).len() == SUMMARY_DEPTH
                && x.price >= summary_asks(binance, bitstamp).last().price)
        },
        forall|k: int| 0 <= k < summary_bids(binance, bitstamp).len() ==> {
            let y = #[trigger] summary_bids(binance, bitstamp)[k];
            (y.exchange == Marketplace::Binance && exists|i: int| 0 <= i < binance.bids@.len() && binance.bids@[i].price == y.price && binance.bids@[i].quantity == y.amount)
            || (y.exchange == Marketplace::Bitstamp && exists|i: int| 0 <= i < bitstamp.bids@.len() && bitstamp.bids@[i].price == y.price && bitstamp.bids@[i].quantity == y.amount)
        },
        forall|k: int| 0 <= k < summary_asks(binance, bitstamp).len() ==> {
            let y = #[trigger] summary_asks(binance, bitstamp)[k];
            (y.exchange == Marketplace::Binance && exists|i: int| 0 <= i < binance.asks@.len() && binance.asks@[i].price == y.price && binance.asks@[i].quantity == y.amount)
            || (y.exchange == Marketplace::Bitstamp && exists|i: int| 0 <= i < bitstamp.asks@.len() && bitstamp.asks@[i].price == y.price && bitstamp.asks@[i].quantity == y.amount)
        },
{
    summary_holds_best_levels(binance, bitstamp);
    merged_sides_hold_every_level(binance, bitstamp);
    let mb = merged_bids(binance, bitstamp);
    let ma = merged_asks(binance, bitstamp);
    let nb = binance.bids@.len() as int;
    let na = binance.asks@.len() as int;
    assert forall|i: int| 0 <= i < binance.bids@.len() implies mb.contains(
        Level { exchange: Marketplace::Binance, price: #[trigger] binance.bids@[i].price, amount: binance.bids@[i].quantity },
    ) by {
        assert(mb[i] == Level { exchange: Marketplace::Binance, price: binance.bids@[i].price, amount: binance.bids@[i].quantity });
    }
    assert forall|i: int| 0 <= i < bitstamp.bids@.len() implies mb.contains(
        Level { exchange: Marketplace::Bitstamp, price: #[trigger] bitstamp.bids@[i].price, amount: bitstamp.bids@[i].quantity },
    ) by {
        assert(mb[nb + i] == Level { exchange: Marketplace::Bitstamp, price: bitstamp.bids@[i].price, amount: bitstamp.bids@[i].quantity });
    }
    assert forall|i: int| 0 <= i < binance.asks@.len() implies ma.contains(
        Level { exchange: Marketplace::Binance, price: #[trigger] binance.asks@[i].price, amount: binance.asks@[i].quantity },
    ) by {
        assert(ma[i] == Level { exchange: Marketplace::Binance, price: binance.asks@[i].price, amount: binance.asks@[i].quantity });
    }
    assert forall|i: int| 0 <= i < bitstamp.asks@.len() implies ma.contains(
        Level { exchange: Marketplace::Bitstamp, price: #[trigger] bitstamp.asks@[i].price, amount: bitstamp.asks@[i].quantity },
    ) by {
        assert(ma[na + i] == Level { exchange: Marketplace::Bitstamp, price: bitstamp.asks@[i].price, amount: bitstamp.asks@[i].quantity });
    }
    let sb = summary_bids(binance, bitstamp);
    assert forall|k: int| 0 <= k < sb.len() implies {
        let y = #[trigger] sb[k];
        (y.exchange == Marketplace::Binance && exists|i: int| 0 <= i < binance.bids@.len() && binance.bids@[i].price == y.price && binance.bids@[i].quantity == y.amount)
        || (y.exchange == Marketplace::Bitstamp && exists|i: int| 0 <= i < bitstamp.bids@.len() && bitstamp.bids@[i].price == y.price && bitstamp.bids@[i].quantity == y.amount)
    } by {
        assert(mb.contains(sb[k]));
        let j = choose|j: int| 0 <= j < mb.len() && mb[j] == sb[k];
        if j < nb {
            assert(mb[j] == mb[j]);
        } else {
            assert(mb[nb + (j - nb)] == mb[j]);
        }
    }
    let sa = summary_asks(binance, bitstamp);
    assert forall|k: int| 0 <= k < sa.len() implies {
        let y = #[trigger] sa[k];
        (y.exchange == Marketplace::Binance && exists|i: int| 0 <= i < binance.asks@.len() && binance.asks@[i].price == y.price && binance.asks@[i].quantity == y.amount)
        || (y.exchange == Marketplace::Bitstamp && exists|i: int| 0 <= i < bitstamp.asks@.len() && bitstamp.asks@[i].price == y.price && bitstamp.asks@[i].quantity == y.amount)
    } by {
        assert(ma.contains(sa[k]));
        let j = choose|j: int| 0 <= j < ma.len() && ma[j] == sa[k];
        if j >= na {
            assert(ma[na + (j - na)] == ma[j]);
        }
    }
}

proof fn lemma_insert_len(s: Seq<Level>, x: Level)
    ensures
        insert_by_price(s, x).len() == s.len() + 1,
    decreases s.len(),
{
    if s.len() > 0 && s.last().price > x.price {
        lemma_insert_len(s.drop_last(), x);
    }
}

/// Sorting keeps the number of levels.
pub proof fn lemma_sort_len(s: Seq<Level>)
    ensures
        sort_by_price(s).len() == s.len(),
    decreases s.len(),
{
    if s.len() > 0 {
        lemma_sort_len(s.drop_last());
        lemma_insert_len(sort_by_price(s.drop_last()), s.last());
    }
}

} // verus!
