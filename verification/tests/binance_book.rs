use orderbook_combiner::binance_book::BinanceBook;
use orderbook_combiner::models::{
    BinanceOrderbook, DepthUpdateStreamData, LevelRecord, Marketplace, OfferData,
};

fn lv(price: u64, quantity: u64) -> LevelRecord {
    LevelRecord { price, quantity }
}

fn of(price: u64, size: u64) -> OfferData {
    OfferData { price, size }
}

fn update(first: usize, last: usize, b: Vec<OfferData>, a: Vec<OfferData>) -> DepthUpdateStreamData {
    DepthUpdateStreamData {
        e: "depthUpdate".to_string(),
        E: 1,
        s: "BTCUSDT".to_string(),
        U: first,
        u: last,
        b,
        a,
    }
}

fn snapshot() -> BinanceBook {
    BinanceBook::from_snapshot(BinanceOrderbook {
        last_update_id: 100,
        bids: vec![lv(10, 1), lv(12, 2), lv(11, 3)],
        asks: vec![lv(20, 1), lv(15, 2), lv(30, 0)],
    })
}

#[test]
fn snapshot_is_loaded() {
    let book = snapshot();
    assert_eq!(book.snapshot_id(), 100);
    assert_eq!(book.bid_quantity(12), Some(2));
    assert_eq!(book.ask_quantity(30), Some(0));
    assert_eq!(book.ask_quantity(31), None);
    let top = book.top();
    assert_eq!(top.originator, Marketplace::Binance);
    assert_eq!(top.bids, vec![lv(12, 2), lv(11, 3), lv(10, 1)]);
    assert_eq!(top.asks, vec![lv(15, 2), lv(20, 1)]);
}

#[test]
fn updates_within_the_snapshot_are_ignored() {
    let mut book = snapshot();
    assert!(book.apply_update(&update(90, 100, vec![of(13, 1)], vec![])).is_none());
    assert!(book.apply_update(&update(100, 100, vec![of(13, 1)], vec![])).is_none());
    assert_eq!(book.bid_quantity(13), None);
}

#[test]
fn update_past_the_snapshot_applies() {
    let mut book = BinanceBook::from_snapshot(BinanceOrderbook {
        last_update_id: 100,
        bids: vec![lv(100, 10), lv(90, 20)],
        asks: vec![lv(200, 10), lv(1000, 30)],
    });
    let top = book
        .apply_update(&update(102, 103, vec![of(95, 40)], vec![of(200, 0), of(250, 20)]))
        .unwrap();
    assert_eq!(top.bids, vec![lv(100, 10), lv(95, 40), lv(90, 20)]);
    assert_eq!(top.asks, vec![lv(250, 20), lv(1000, 30)]);
}

#[test]
fn update_spanning_the_snapshot_applies() {
    let mut book = snapshot();
    let top = book.apply_update(&update(95, 101, vec![of(13, 2)], vec![])).unwrap();
    assert_eq!(top.bids, vec![lv(13, 2), lv(12, 2), lv(11, 3), lv(10, 1)]);
    assert_eq!(top.asks, vec![lv(15, 2), lv(20, 1)]);
    assert!(book.apply_update(&update(150, 160, vec![of(14, 1)], vec![])).is_some());
    assert_eq!(book.bid_quantity(14), Some(1));
    // messages contained in the snapshot are still skipped
    assert!(book.apply_update(&update(99, 100, vec![of(9, 1)], vec![])).is_none());
    assert_eq!(book.bid_quantity(9), None);
}

#[test]
fn update_starting_right_after_the_snapshot_applies() {
    let mut book = snapshot();
    assert!(book.apply_update(&update(101, 102, vec![], vec![of(16, 4)])).is_some());
    assert_eq!(book.ask_quantity(16), Some(4));
}

#[test]
fn applied_update_publishes_new_top() {
    let mut book = snapshot();
    let before = book.top();
    let top = book
        .apply_update(&update(99, 103, vec![of(13, 5), of(12, 0), of(13, 4)], vec![]))
        .unwrap();
    assert_eq!(book.bid_quantity(13), Some(4));
    assert_eq!(book.bid_quantity(12), Some(0));
    assert_eq!(top.bids, vec![lv(13, 4), lv(11, 3), lv(10, 1)]);
    // no ask changes: the same asks are published
    assert_eq!(top.asks, before.asks);
    let top = book.apply_update(&update(104, 104, vec![], vec![of(14, 7)])).unwrap();
    assert_eq!(top.asks, vec![lv(14, 7), lv(15, 2), lv(20, 1)]);
    assert_eq!(top.bids, vec![lv(13, 4), lv(11, 3), lv(10, 1)]);
    // the snapshot id is kept
    assert_eq!(book.snapshot_id(), 100);
}

#[test]
fn replayed_update_changes_nothing_more() {
    let mut once = snapshot();
    let mut twice = snapshot();
    let msg = update(101, 120, vec![of(9, 2), of(9, 0), of(8, 1)], vec![of(16, 3)]);
    let a = once.apply_update(&msg).unwrap();
    twice.apply_update(&msg).unwrap();
    let b = twice.apply_update(&msg).unwrap();
    assert_eq!(a.bids, b.bids);
    assert_eq!(a.asks, b.asks);
    for p in 0..40 {
        assert_eq!(once.bid_quantity(p), twice.bid_quantity(p));
        assert_eq!(once.ask_quantity(p), twice.ask_quantity(p));
    }
}

#[test]
fn only_ten_best_levels_are_published() {
    let bids: Vec<LevelRecord> = (1..=25).map(|p| lv(p * 7 % 26, 1)).collect();
    let asks: Vec<LevelRecord> = (1..=25).map(|p| lv(100 + p * 11 % 26, p)).collect();
    let book = BinanceBook::from_snapshot(BinanceOrderbook { last_update_id: 1, bids, asks });
    let top = book.top();
    let bid_prices: Vec<u64> = top.bids.iter().map(|l| l.price).collect();
    assert_eq!(bid_prices, vec![25, 24, 23, 22, 21, 20, 19, 18, 17, 16]);
    let ask_prices: Vec<u64> = top.asks.iter().map(|l| l.price).collect();
    assert_eq!(ask_prices, vec![101, 102, 103, 104, 105, 106, 107, 108, 109, 110]);
}

#[test]
fn zero_quantities_are_left_out() {
    let book = BinanceBook::from_snapshot(BinanceOrderbook {
        last_update_id: 1,
        bids: vec![lv(5, 0), lv(4, 0)],
        asks: vec![lv(6, 0), lv(7, 2)],
    });
    let top = book.top();
    assert!(top.bids.is_empty());
    assert_eq!(top.asks, vec![lv(7, 2)]);
}
