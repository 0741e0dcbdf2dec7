//! The Binance depth book, kept up to date from the diff. depth stream.

use vstd::prelude::*;
use std::collections::HashMap;

use crate::models::{BinanceOrderbook, DepthUpdateStreamData, LevelRecord, Marketplace, OfferData, WrapperOrderbook};
use crate::sorting::{is_permutation, sort_by_price, takes_index};

verus! {

broadcast use vstd::std_specs::hash::group_hash_axioms;
use vstd::std_specs::iter::IteratorSpec;

/// Number of levels published for each side of the book.
pub const BOOK_DEPTH: usize = 10;

/// Some level of `levels` has price `p`.
pub open spec fn lists_price(levels: Seq<LevelRecord>, p: u64) -> bool {
    exists|i: int| 0 <= i < levels.len() && levels[i].price == p
}

/// `levels` are the best `depth` levels of `side` with a positive quantity, best
/// first: the highest prices when `highest_first`, the lowest ones otherwise.
pub open spec fn is_best_levels(
    side: Map<u64, u64>,
    levels: Seq<LevelRecord>,
    depth: nat,
    highest_first: bool,
) -> bool {
    &&& levels.len() <= depth
    &&& forall|i: int|
        0 <= i < levels.len() ==> side.contains_key(#[trigger] levels[i].price) && side[levels[i].price]
            == levels[i].quantity && levels[i].quantity > 0
    &&& forall|i: int, j: int|
        0 <= i < j < levels.len() ==> if highest_first {
            levels[i].price > levels[j].price
        } else {
            levels[i].price < levels[j].price
        }
    &&& forall|p: u64|
        side.contains_key(p) && side[p] > 0 && !#[trigger] lists_price(levels, p) ==> levels.len()
            == depth && if highest_first {
            p < levels.last().price
        } else {
            p > levels.last().price
        }
}

/// The levels of `side` in ascending order of price, each price once.
fn levels_by_price(side: &HashMap<u64, u64>) -> (sorted: Vec<LevelRecord>)
    ensures
        forall|i: int| 0 <= i < sorted@.len() ==> side@.contains_key(#[trigger] sorted@[i].price)
            && side@[sorted@[i].price] == sorted@[i].quantity,
        forall|p: u64| #[trigger] side@.contains_key(p) ==> exists|k: int| 0 <= k < sorted@.len() && sorted@[k].price == p,
        forall|i: int, j: int| 0 <= i < j < sorted@.len() ==> sorted@[i].price < sorted@[j].price,
{
    let all = entries(side);
    let ghost input = all@;
    let sorted = sort_by_price(all);
    proof {
        let perm = choose|perm: Seq<int>|
            {
                &&& is_permutation(perm, input.len())
                &&& forall|i: int| 0 <= i < sorted@.len() ==> sorted@[i] == input[#[trigger] perm[i]]
                &&& forall|i: int, j: int|
                    0 <= i < j < sorted@.len() && sorted@[i].price == sorted@[j].price ==> perm[i] < perm[j]
            };
        assert forall|i: int| 0 <= i < sorted@.len() implies side@.contains_key(#[trigger] sorted@[i].price)
            && side@[sorted@[i].price] == sorted@[i].quantity by {
            assert(sorted@[i] == input[perm[i]]);
        }
        assert forall|p: u64| #[trigger] side@.contains_key(p) implies exists|k: int| 0 <= k < sorted@.len() && sorted@[k].price == p by {
            let i = choose|i: int| 0 <= i < input.len() && input[i].price == p;
            assert(takes_index(perm, i));
            let k = choose|k: int| 0 <= k < perm.len() && perm[k] == i;
            assert(sorted@[k] == input[perm[k]]);
        }
        assert forall|i: int, j: int| 0 <= i < j < sorted@.len() implies sorted@[i].price < sorted@[j].price by {
            assert(sorted@[i] == input[perm[i]]);
            assert(sorted@[j] == input[perm[j]]);
            if perm[i] < perm[j] {
                assert(input[perm[i]].price != input[perm[j]].price);
            } else {
                assert(input[perm[j]].price != input[perm[i]].price);
            }
        }
    }
    sorted
}

/// `side` after setting, in order, the quantity of each of `levels` at its price.
pub open spec fn with_levels(side: Map<u64, u64>, levels: Seq<LevelRecord>) -> Map<u64, u64>
    decreases levels.len(),
{
    if levels.len() == 0 {
        side
    } else {
        with_levels(side, levels.drop_last()).insert(levels.last().price, levels.last().quantity)
    }
}

/// `side` after setting, in order, the size of each of `offers` at its price.
pub open spec fn with_offers(side: Map<u64, u64>, offers: Seq<OfferData>) -> Map<u64, u64>
    decreases offers.len(),
{
    if offers.len() == 0 {
        side
    } else {
        with_offers(side, offers.drop_last()).insert(offers.last().price, offers.last().size)
    }
}

/// The top of a book as published: `BOOK_DEPTH` best bids and asks.
pub open spec fn is_published_top(bids: Map<u64, u64>, asks: Map<u64, u64>, top: WrapperOrderbook) -> bool {
    &&& top.originator == Marketplace::Binance
    &&& is_best_levels(bids, top.bids@, BOOK_DEPTH as nat, true)
    &&& is_best_levels(asks, top.asks@, BOOK_DEPTH as nat, false)
}

/// Writing levels into a side: a price is held afterwards exactly when it was
/// held before or some level lists it; a listed price holds the quantity of the
/// last level that lists it, and any other price keeps its quantity.
pub proof fn with_levels_sets_listed_prices(side: Map<u64, u64>, levels: Seq<LevelRecord>, p: u64)
    ensures
        with_levels(side, levels).contains_key(p) <==> (side.contains_key(p) || exists|i: int|
            0 <= i < levels.len() && (#[trigger] levels[i]).price == p),
        (exists|i: int| 0 <= i < levels.len() && (#[trigger] levels[i]).price == p) ==> exists|i: int|
            0 <= i < levels.len() && (#[trigger] levels[i]).price == p && with_levels(side, levels)[p]
                == levels[i].quantity && forall|j: int| i < j < levels.len() ==> (#[trigger] levels[j]).price != p,
        !(exists|i: int| 0 <= i < levels.len() && (#[trigger] levels[i]).price == p) && side.contains_key(p)
            ==> with_levels(side, levels)[p] == side[p],
    decreases levels.len(),
{
    if levels.len() > 0 {
        let prev = levels.drop_last();
        with_levels_sets_listed_prices(side, prev, p);
        let n = levels.len() - 1;
        if levels[n].price == p {
            assert(levels[n].price == p);
        } else {
            if exists|i: int| 0 <= i < prev.len() && (#[trigger] prev[i]).price == p {
                let i = choose|i: int|
                    0 <= i < prev.len() && (#[trigger] prev[i]).price == p && with_levels(side, prev)[p]
                        == prev[i].quantity && forall|j: int| i < j < prev.len() ==> (#[trigger] prev[j]).price != p;
                assert(levels[i] == prev[i]);
                assert forall|j: int| i < j < levels.len() implies (#[trigger] levels[j]).price != p by {
                    if j < n {
                        assert(levels[j] == prev[j]);
                    }
                }
            }
            if exists|i: int| 0 <= i < levels.len() && (#[trigger] levels[i]).price == p {
                let i = choose|i: int| 0 <= i < levels.len() && (#[trigger] levels[i]).price == p;
                assert(prev[i] == levels[i]);
            }
            if exists|i: int| 0 <= i < prev.len() && (#[trigger] prev[i]).price == p {
                let i = choose|i: int| 0 <= i < prev.len() && (#[trigger] prev[i]).price == p;
                assert(levels[i] == prev[i]);
            }
        }
    }
}

/// The size last listed for price `p` in `offers`, if `p` is listed.
pub open spec fn last_size(offers: Seq<OfferData>, p: u64) -> Option<u64>
    decreases offers.len(),
{
    if offers.len() == 0 {
        None
    } else if offers.last().price == p {
        Some(offers.last().size)
    } else {
        last_size(offers.drop_last(), p)
    }
}

/// Writing levels sets each listed price to the size last listed for it and
/// leaves every other price as it was.
pub proof fn with_offers_sets_listed_prices(side: Map<u64, u64>, offers: Seq<OfferData>, p: u64)
    ensures
        with_offers(side, offers).contains_key(p) <==> (side.contains_key(p) || last_size(offers, p) is Some),
        last_size(offers, p) matches Some(q) ==> with_offers(side, offers)[p] == q,
        last_size(offers, p) is None && side.contains_key(p) ==> with_offers(side, offers)[p] == side[p],
    decreases offers.len(),
{
    if offers.len() > 0 {
        with_offers_sets_listed_prices(side, offers.drop_last(), p);
    }
}

/// Applying the same diff. depth levels a second time leaves the side as the
/// first time did.
pub proof fn with_offers_idempotent(side: Map<u64, u64>, offers: Seq<OfferData>)
    ensures
        with_offers(with_offers(side, offers), offers) == with_offers(side, offers),
{
    let once = with_offers(side, offers);
    let twice = with_offers(once, offers);
    assert forall|p: u64| #[trigger] twice.contains_key(p) <==> once.contains_key(p) by {
        with_offers_sets_listed_prices(side, offers, p);
        with_offers_sets_listed_prices(once, offers, p);
    }
    assert forall|p: u64| #[trigger] twice.contains_key(p) implies twice[p] == once[p] by {
        with_offers_sets_listed_prices(side, offers, p);
        with_offers_sets_listed_prices(once, offers, p);
    }
    assert(twice =~= once);
}

/// A price whose size was last set to zero is not published.
pub proof fn zero_size_is_not_published(
    bids: Map<u64, u64>,
    asks: Map<u64, u64>,
    msg: DepthUpdateStreamData,
    top: WrapperOrderbook,
    p: u64,
)
    requires
        is_published_top(with_offers(bids, msg.b@), with_offers(asks, msg.a@), top),
    ensures
        last_size(msg.b@, p) == Some(0u64) ==> !lists_price(top.bids@, p),
        last_size(msg.a@, p) == Some(0u64) ==> !lists_price(top.asks@, p),
{
    with_offers_sets_listed_prices(bids, msg.b@, p);
    with_offers_sets_listed_prices(asks, msg.a@, p);
    if last_size(msg.b@, p) == Some(0u64) && lists_price(top.bids@, p) {
        let i = choose|i: int| 0 <= i < top.bids@.len() && top.bids@[i].price == p;
        assert(top.bids@[i].quantity > 0);
    }
    if last_size(msg.a@, p) == Some(0u64) && lists_price(top.asks@, p) {
        let i = choose|i: int| 0 <= i < top.asks@.len() && top.asks@[i].price == p;
        assert(top.asks@[i].quantity > 0);
    }
}

/// The book after each of `msgs`, in order.
pub open spec fn replay(book: BookView, msgs: Seq<DepthUpdateStreamData>) -> BookView
    decreases msgs.len(),
{
    if msgs.len() == 0 {
        book
    } else {
        next_book(replay(book, msgs.drop_last()), msgs.last())
    }
}

/// The messages of `msgs` that reach past the snapshot of `book`, in order.
pub open spec fn applied_updates(book: BookView, msgs: Seq<DepthUpdateStreamData>) -> Seq<DepthUpdateStreamData>
    decreases msgs.len(),
{
    if msgs.len() == 0 {
        Seq::empty()
    } else if msgs.last().u > book.last_update_id {
        applied_updates(book, msgs.drop_last()).push(msgs.last())
    } else {
        applied_updates(book, msgs.drop_last())
    }
}

/// The bid changes of `msgs`, one message after the other.
pub open spec fn bid_changes(msgs: Seq<DepthUpdateStreamData>) -> Seq<OfferData>
    decreases msgs.len(),
{
    if msgs.len() == 0 {
        Seq::empty()
    } else {
        bid_changes(msgs.drop_last()) + msgs.last().b@
    }
}

/// The ask changes of `msgs`, one message after the other.
pub open spec fn ask_changes(msgs: Seq<DepthUpdateStreamData>) -> Seq<OfferData>
    decreases msgs.len(),
{
    if msgs.len() == 0 {
        Seq::empty()
    } else {
        ask_changes(msgs.drop_last()) + msgs.last().a@
    }
}

/// Writing two lists of levels one after the other is writing their concatenation.
pub proof fn with_offers_concat(side: Map<u64, u64>, first: Seq<OfferData>, then: Seq<OfferData>)
    ensures
        with_offers(side, first + then) == with_offers(with_offers(side, first), then),
    decreases then.len(),
{
    if then.len() == 0 {
        assert(first + then =~= first);
    } else {
        assert((first + then).drop_last() =~= first + then.drop_last());
        with_offers_concat(side, first, then.drop_last());
    }
}

/// Over a run of diff. depth messages, the book is the starting book with the
/// changes of every message that applied written in, in the order received,
/// and the snapshot's update id is kept.
pub proof fn replay_writes_applied_changes(book: BookView, msgs: Seq<DepthUpdateStreamData>)
    ensures
        replay(book, msgs).last_update_id == book.last_update_id,
        replay(book, msgs).bids == with_offers(book.bids, bid_changes(applied_updates(book, msgs))),
        replay(book, msgs).asks == with_offers(book.asks, ask_changes(applied_updates(book, msgs))),
    decreases msgs.len(),
{
    if msgs.len() > 0 {
        let prev = msgs.drop_last();
        replay_writes_applied_changes(book, prev);
        let applied = applied_updates(book, prev);
        if update_applies(replay(book, prev), msgs.last()) {
            assert(applied.push(msgs.last()).drop_last() =~= applied);
            with_offers_concat(book.bids, bid_changes(applied), msgs.last().b@);
            with_offers_concat(book.asks, ask_changes(applied), msgs.last().a@);
        }
    }
}

proof fn lemma_best_levels_agree_below(
    side: Map<u64, u64>,
    a: Seq<LevelRecord>,
    b: Seq<LevelRecord>,
    depth: nat,
    highest_first: bool,
    k: int,
)
    requires
        is_best_levels(side, a, depth, highest_first),
        is_best_levels(side, b, depth, highest_first),
        0 <= k <= a.len(),
        k <= b.len(),
    ensures
        forall|i: int| 0 <= i < k ==> a[i] == b[i],
    decreases k,
{
    if k > 0 {
        let i = k - 1;
        lemma_best_levels_agree_below(side, a, b, depth, highest_first, i);
        // the better of a[i] and b[i] would be listed by the other sequence
        if a[i].price != b[i].price {
            let (x, y) = if (highest_first && a[i].price > b[i].price) || (!highest_first && a[i].price
                < b[i].price) {
                (a, b)
            } else {
                (b, a)
            };
            let p = x[i].price;
            assert(side.contains_key(p) && side[p] > 0);
            if lists_price(y, p) {
                let j = choose|j: int| 0 <= j < y.len() && y[j].price == p;
                if j < i {
                    assert(x[j] == y[j]);
                }
            } else {
                assert(y.len() == depth);
            }
        }
        assert(a[i].quantity == side[a[i].price]);
        assert(b[i].quantity == side[b[i].price]);
    }
}

/// The best-levels description fixes one sequence: two lists that are both the
/// best levels of the same side are equal.
pub proof fn best_levels_are_unique(
    side: Map<u64, u64>,
    a: Seq<LevelRecord>,
    b: Seq<LevelRecord>,
    depth: nat,
    highest_first: bool,
)
    requires
        is_best_levels(side, a, depth, highest_first),
        is_best_levels(side, b, depth, highest_first),
    ensures
        a == b,
{
    let k = if a.len() <= b.len() { a.len() } else { b.len() };
    lemma_best_levels_agree_below(side, a, b, depth, highest_first, k as int);
    if a.len() != b.len() {
        let (x, y) = if a.len() > b.len() { (a, b) } else { (b, a) };
        let p = x[k as int].price;
        assert(side.contains_key(p) && side[p] > 0);
        if lists_price(y, p) {
            let j = choose|j: int| 0 <= j < y.len() && y[j].price == p;
            assert(x[j] == y[j]);
        }
    }
    assert(a =~= b);
}

/// A side that a message does not change is published as it was before: the
/// levels published after an applied message with no ask (bid) changes are the
/// asks (bids) published before it.
pub proof fn unchanged_side_publishes_same_levels(
    book: BookView,
    msg: DepthUpdateStreamData,
    before: WrapperOrderbook,
    after: WrapperOrderbook,
)
    requires
        is_published_top(book.bids, book.asks, before),
        is_published_top(next_book(book, msg).bids, next_book(book, msg).asks, after),
    ensures
        msg.a@.len() == 0 ==> after.asks@ == before.asks@,
        msg.b@.len() == 0 ==> after.bids@ == before.bids@,
{
    if msg.a@.len() == 0 {
        assert(with_offers(book.asks, msg.a@) == book.asks);
        best_levels_are_unique(book.asks, after.asks@, before.asks@, BOOK_DEPTH as nat, false);
    }
    if msg.b@.len() == 0 {
        assert(with_offers(book.bids, msg.b@) == book.bids);
        best_levels_are_unique(book.bids, after.bids@, before.bids@, BOOK_DEPTH as nat, true);
    }
}

fn insert_levels(side: &mut HashMap<u64, u64>, levels: &Vec<LevelRecord>)
    ensures
        final(side)@ == with_levels(old(side)@, levels@),
{
    let ghost start = side@;
    let mut i: usize = 0;
    while i < levels.len()
        invariant
            0 <= i <= levels@.len(),
            side@ == with_levels(start, levels@.take(i as int)),
        decreases levels@.len() - i,
    {
        let level = levels[i];
        side.insert(level.price, level.quantity);
        proof {
            assert(levels@.take(i + 1).drop_last() =~= levels@.take(i as int));
        }
        i = i + 1;
    }
    proof {
        assert(levels@.take(levels@.len() as int) =~= levels@);
    }
}

fn insert_offers(side: &mut HashMap<u64, u64>, offers: &Vec<OfferData>)
    ensures
        final(side)@ == with_offers(old(side)@, offers@),
{
    let ghost start = side@;
    let mut i: usize = 0;
    while i < offers.len()
        invariant
            0 <= i <= offers@.len(),
            side@ == with_offers(start, offers@.take(i as int)),
        decreases offers@.len() - i,
    {
        let offer = offers[i];
        side.insert(offer.price, offer.size);
        proof {
            assert(offers@.take(i + 1).drop_last() =~= offers@.take(i as int));
        }
        i = i + 1;
    }
    proof {
        assert(offers@.take(offers@.len() as int) =~= offers@);
    }
}

/// What a Binance book holds: the snapshot's update id and, for each side, the quantity
/// at each price. A zero quantity stays in the map and is left out when the top
/// of the book is published.
pub struct BookView {
    pub last_update_id: usize,
    pub bids: Map<u64, u64>,
    pub asks: Map<u64, u64>,
}

/// The local copy of the Binance book.
pub struct BinanceBook {
    last_update_id: usize,
    bids: HashMap<u64, u64>,
    asks: HashMap<u64, u64>,
}

impl View for BinanceBook {
    type V = BookView;

    closed spec fn view(&self) -> BookView {
        BookView {
            last_update_id: self.last_update_id,
            bids: self.bids@,
            asks: self.asks@,
        }
    }
}

/// A diff. depth message applies when it reaches past the snapshot, that is
/// when its last update id is past the snapshot's; messages wholly contained in
/// the snapshot are skipped.
pub open spec fn update_applies(book: BookView, msg: DepthUpdateStreamData) -> bool {
    msg.u > book.last_update_id
}

/// The book after a diff. depth message: when it applies, its asks and bids are
/// written into the two sides; otherwise the book is unchanged.
pub open spec fn next_book(book: BookView, msg: DepthUpdateStreamData) -> BookView {
    if update_applies(book, msg) {
        BookView {
            last_update_id: book.last_update_id,
            bids: with_offers(book.bids, msg.b@),
            asks: with_offers(book.asks, msg.a@),
        }
    } else {
        book
    }
}

impl BinanceBook {
    /// Update id of the snapshot the book was built from.
    pub fn snapshot_id(&self) -> (id: usize)
        ensures
            id == self@.last_update_id,
    {
        self.last_update_id
    }

    /// Quantity held at a bid price, zero included, if the price is in the book.
    pub fn bid_quantity(&self, price: u64) -> (quantity: Option<u64>)
        ensures
            quantity == (if self@.bids.contains_key(price) {
                Some(self@.bids[price])
            } else {
                None
            }),
    {
        match self.bids.get(&price) {
            Some(q) => Some(*q),
            None => None,
        }
    }

    /// Quantity held at an ask price, zero included, if the price is in the book.
    pub fn ask_quantity(&self, price: u64) -> (quantity: Option<u64>)
        ensures
            quantity == (if self@.asks.contains_key(price) {
                Some(self@.asks[price])
            } else {
                None
            }),
    {
        match self.asks.get(&price) {
            Some(q) => Some(*q),
            None => None,
        }
    }

    /// The book as the REST snapshot gives it.
    pub fn from_snapshot(snapshot: BinanceOrderbook) -> (book: BinanceBook)
        ensures
            book@.last_update_id == snapshot.last_update_id as usize,
            book@.bids == with_levels(Map::empty(), snapshot.bids@),
            book@.asks == with_levels(Map::empty(), snapshot.asks@),
            forall|p: u64| #[trigger] book@.bids.contains_key(p) <==> exists|i: int|
                0 <= i < snapshot.bids@.len() && (#[trigger] snapshot.bids@[i]).price == p,
            forall|p: u64| #[trigger] book@.bids.contains_key(p) ==> exists|i: int|
                0 <= i < snapshot.bids@.len() && (#[trigger] snapshot.bids@[i]).price == p && book@.bids[p]
                    == snapshot.bids@[i].quantity && forall|j: int| i < j < snapshot.bids@.len() ==> (
                #[trigger] snapshot.bids@[j]).price != p,
            forall|p: u64| #[trigger] book@.asks.contains_key(p) <==> exists|i: int|
                0 <= i < snapshot.asks@.len() && (#[trigger] snapshot.asks@[i]).price == p,
            forall|p: u64| #[trigger] book@.asks.contains_key(p) ==> exists|i: int|
                0 <= i < snapshot.asks@.len() && (#[trigger] snapshot.asks@[i]).price == p && book@.asks[p]
                    == snapshot.asks@[i].quantity && forall|j: int| i < j < snapshot.asks@.len() ==> (
                #[trigger] snapshot.asks@[j]).price != p,
    {
        let mut bids: HashMap<u64, u64> = HashMap::new();
        let mut asks: HashMap<u64, u64> = HashMap::new();
        insert_levels(&mut bids, &snapshot.bids);
        insert_levels(&mut asks, &snapshot.asks);
        proof {
            assert forall|p: u64| #[trigger] bids@.contains_key(p) <==> exists|i: int|
                0 <= i < snapshot.bids@.len() && (#[trigger] snapshot.bids@[i]).price == p by {
                with_levels_sets_listed_prices(Map::empty(), snapshot.bids@, p);
            }
            assert forall|p: u64| #[trigger] bids@.contains_key(p) implies exists|i: int|
                0 <= i < snapshot.bids@.len() && (#[trigger] snapshot.bids@[i]).price == p && bids@[p]
                    == snapshot.bids@[i].quantity && forall|j: int| i < j < snapshot.bids@.len() ==> (
                #[trigger] snapshot.bids@[j]).price != p by {
                with_levels_sets_listed_prices(Map::empty(), snapshot.bids@, p);
            }
            assert forall|p: u64| #[trigger] asks@.contains_key(p) <==> exists|i: int|
                0 <= i < snapshot.asks@.len() && (#[trigger] snapshot.asks@[i]).price == p by {
                with_levels_sets_listed_prices(Map::empty(), snapshot.asks@, p);
            }
            assert forall|p: u64| #[trigger] asks@.contains_key(p) implies exists|i: int|
                0 <= i < snapshot.asks@.len() && (#[trigger] snapshot.asks@[i]).price == p && asks@[p]
                    == snapshot.asks@[i].quantity && forall|j: int| i < j < snapshot.asks@.len() ==> (
                #[trigger] snapshot.asks@[j]).price != p by {
                with_levels_sets_listed_prices(Map::empty(), snapshot.asks@, p);
            }
        }
        BinanceBook { last_update_id: snapshot.last_update_id as usize, bids, asks }
    }

    /// The best levels of both sides.
    pub fn top(&self) -> (top: WrapperOrderbook)
        ensures
            is_published_top(self@.bids, self@.asks, top),
    {
        WrapperOrderbook {
            originator: Marketplace::Binance,
            bids: best_bids(&self.bids),
            asks: best_asks(&self.asks),
        }
    }

    /// Applies a diff. depth message. When it applies, its asks then its bids are
    /// written into the book and the new top of the book is returned; otherwise
    /// the book is left as it is and nothing is returned.
    pub fn apply_update(&mut self, msg: &DepthUpdateStreamData) -> (published: Option<WrapperOrderbook>)
        ensures
            final(self)@ == next_book(old(self)@, *msg),
            update_applies(old(self)@, *msg) ==> (published matches Some(top) && is_published_top(
                final(self)@.bids,
                final(self)@.asks,
                top,
            )),
            !update_applies(old(self)@, *msg) ==> published is None,
    {
        if msg.u > self.last_update_id {
            insert_offers(&mut self.asks, &msg.a);
            insert_offers(&mut self.bids, &msg.b);
            Some(self.top())
        } else {
            None
        }
    }
}

/// The entries of `side`, in the order the map yields them.
fn entries(side: &HashMap<u64, u64>) -> (out: Vec<LevelRecord>)
    ensures
        out@.len() == side@.dom().len(),
        forall|i: int| 0 <= i < out@.len() ==> side@.contains_key(#[trigger] out@[i].price)
            && side@[out@[i].price] == out@[i].quantity,
        forall|p: u64| #[trigger] side@.contains_key(p) ==> exists|i: int| 0 <= i < out@.len() && out@[i].price == p,
        forall|i: int, j: int| 0 <= i < j < out@.len() ==> out@[i].price != out@[j].price,
{
    let mut out: Vec<LevelRecord> = Vec::new();
    let iter = side.iter();
    let ghost all = iter.remaining();
    assert(all.len() == side@.dom().len());
    for (k, v) in it: iter
        invariant
            it.seq() == all,
            out@.len() == it.index(),
            forall|i: int| 0 <= i < it.index() ==> out@[i].price == *it.seq()[i].0 && out@[i].quantity == *it.seq()[i].1,
    {
        out.push(LevelRecord { price: *k, quantity: *v });
    }
    assert forall|i: int, j: int| 0 <= i < j < out@.len() implies out@[i].price != out@[j].price by {
        if out@[i].price == out@[j].price {
            assert(side@[*all[i].0] == *all[i].1);
            assert(side@[*all[j].0] == *all[j].1);
            assert(all[i] == all[j]);
        }
    }
    out
}


/// The best `BOOK_DEPTH` bids of a side: highest prices first, zero quantities left out.
pub fn best_bids(side: &HashMap<u64, u64>) -> (levels: Vec<LevelRecord>)
    ensures
        is_best_levels(side@, levels@, BOOK_DEPTH as nat, true),
{
    let sorted = levels_by_price(side);
    let mut levels: Vec<LevelRecord> = Vec::new();
    let mut j = sorted.len();
    while j > 0 && levels.len() < BOOK_DEPTH
        invariant
            j <= sorted@.len(),
            levels@.len() <= BOOK_DEPTH,
            forall|i: int| 0 <= i < sorted@.len() ==> side@.contains_key(#[trigger] sorted@[i].price)
                && side@[sorted@[i].price] == sorted@[i].quantity,
            forall|a: int, b: int| 0 <= a < b < sorted@.len() ==> sorted@[a].price < sorted@[b].price,
            forall|i: int|
                0 <= i < levels@.len() ==> side@.contains_key(#[trigger] levels@[i].price)
                    && side@[levels@[i].price] == levels@[i].quantity && levels@[i].quantity > 0,
            forall|a: int, b: int| 0 <= a < b < levels@.len() ==> levels@[a].price > levels@[b].price,
            forall|a: int, k: int| 0 <= a < levels@.len() && 0 <= k < j ==> #[trigger] levels@[a].price > #[trigger] sorted@[k].price,
            forall|k: int| j <= k < sorted@.len() && #[trigger] sorted@[k].quantity > 0 ==> lists_price(levels@, sorted@[k].price),
        decreases j,
    {
        j = j - 1;
        let level = sorted[j];
        let ghost before = levels@;
        if level.quantity > 0 {
            levels.push(level);
        }
        proof {
            assert forall|k: int| j <= k < sorted@.len() && #[trigger] sorted@[k].quantity > 0 implies lists_price(levels@, sorted@[k].price) by {
                if k == j {
                    assert(levels@[levels@.len() - 1] == level);
                } else {
                    let a = choose|a: int| 0 <= a < before.len() && before[a].price == sorted@[k].price;
                    assert(levels@[a] == before[a]);
                }
            }
        }
    }
    proof {
        assert forall|p: u64| side@.contains_key(p) && side@[p] > 0 && !#[trigger] lists_price(levels@, p) implies levels@.len()
            == BOOK_DEPTH && p < levels@.last().price by {
            let k = choose|k: int| 0 <= k < sorted@.len() && sorted@[k].price == p;
            assert(sorted@[k].quantity > 0);
        }
    }
    levels
}

/// The best `BOOK_DEPTH` asks of a side: lowest prices first, zero quantities left out.
pub fn best_asks(side: &HashMap<u64, u64>) -> (levels: Vec<LevelRecord>)
    ensures
        is_best_levels(side@, levels@, BOOK_DEPTH as nat, false),
{
    let sorted = levels_by_price(side);
    let mut levels: Vec<LevelRecord> = Vec::new();
    let mut j: usize = 0;
    while j < sorted.len() && levels.len() < BOOK_DEPTH
        invariant
            j <= sorted@.len(),
            levels@.len() <= BOOK_DEPTH,
            forall|i: int| 0 <= i < sorted@.len() ==> side@.contains_key(#[trigger] sorted@[i].price)
                && side@[sorted@[i].price] == sorted@[i].quantity,
            forall|a: int, b: int| 0 <= a < b < sorted@.len() ==> sorted@[a].price < sorted@[b].price,
            forall|i: int|
                0 <= i < levels@.len() ==> side@.contains_key(#[trigger] levels@[i].price)
                    && side@[levels@[i].price] == levels@[i].quantity && levels@[i].quantity > 0,
            forall|a: int, b: int| 0 <= a < b < levels@.len() ==> levels@[a].price < levels@[b].price,
            forall|a: int, k: int| 0 <= a < levels@.len() && j <= k < sorted@.len() ==> #[trigger] levels@[a].price < #[trigger] sorted@[k].price,
            forall|k: int| 0 <= k < j && #[trigger] sorted@[k].quantity > 0 ==> lists_price(levels@, sorted@[k].price),
        decreases sorted@.len() - j,
    {
        let level = sorted[j];
        let ghost before = levels@;
        if level.quantity > 0 {
            levels.push(level);
        }
        proof {
            assert forall|k: int| 0 <= k < j + 1 && #[trigger] sorted@[k].quantity > 0 implies lists_price(levels@, sorted@[k].price) by {
                if k == j {
                    assert(levels@[levels@.len() - 1] == level);
                } else {
                    let a = choose|a: int| 0 <= a < before.len() && before[a].price == sorted@[k].price;
                    assert(levels@[a] == before[a]);
                }
            }
        }
        j = j + 1;
    }
    proof {
        assert forall|p: u64| side@.contains_key(p) && side@[p] > 0 && !#[trigger] lists_price(levels@, p) implies levels@.len()
            == BOOK_DEPTH && p > levels@.last().price by {
            let k = choose|k: int| 0 <= k < sorted@.len() && sorted@[k].price == p;
            assert(sorted@[k].quantity > 0);
        }
    }
    levels
}

} // verus!
