use orderbook_combiner::models::{LevelRecord, Marketplace, WrapperOrderbook};
use orderbook_combiner::reconcile::{ReconcileEvent, Reconciler};
use orderbook_combiner::summary::{summarize, Level};

fn lv(price: u64, quantity: u64) -> LevelRecord {
    LevelRecord { price, quantity }
}

fn book(originator: Marketplace, bids: Vec<LevelRecord>, asks: Vec<LevelRecord>) -> WrapperOrderbook {
    WrapperOrderbook { originator, bids, asks }
}

fn level(exchange: Marketplace, price: u64, amount: u64) -> Level {
    Level { exchange, price, amount }
}

#[test]
fn merges_both_books() {
    let binance = book(Marketplace::Binance, vec![lv(100, 1), lv(98, 2)], vec![lv(101, 3), lv(103, 1)]);
    let bitstamp = book(Marketplace::Bitstamp, vec![lv(99, 5), lv(100, 4)], vec![lv(102, 2), lv(101, 6)]);
    let s = summarize(&binance, &bitstamp);
    assert_eq!(
        s.bids,
        vec![
            level(Marketplace::Bitstamp, 100, 4),
            level(Marketplace::Binance, 100, 1),
            level(Marketplace::Bitstamp, 99, 5),
            level(Marketplace::Binance, 98, 2),
        ]
    );
    assert_eq!(
        s.asks,
        vec![
            level(Marketplace::Binance, 101, 3),
            level(Marketplace::Bitstamp, 101, 6),
            level(Marketplace::Bitstamp, 102, 2),
            level(Marketplace::Binance, 103, 1),
        ]
    );
    assert_eq!(s.spread, 1);
}

#[test]
fn crossed_books_give_negative_spread() {
    let binance = book(Marketplace::Binance, vec![lv(105, 1)], vec![lv(110, 1)]);
    let bitstamp = book(Marketplace::Bitstamp, vec![], vec![lv(103, 1)]);
    let s = summarize(&binance, &bitstamp);
    assert_eq!(s.spread, -2);
    assert_eq!(s.bids, vec![level(Marketplace::Binance, 105, 1)]);
}

#[test]
fn keeps_ten_levels_per_side() {
    let binance = book(
        Marketplace::Binance,
        (0..8).map(|i| lv(100 - i, 1)).collect(),
        (0..8).map(|i| lv(200 + 2 * i, 1)).collect(),
    );
    let bitstamp = book(
        Marketplace::Bitstamp,
        (0..8).map(|i| lv(99 - 2 * i, 2)).collect(),
        (0..8).map(|i| lv(201 + 2 * i, 2)).collect(),
    );
    let s = summarize(&binance, &bitstamp);
    assert_eq!(s.bids.len(), 10);
    assert_eq!(s.asks.len(), 10);
    let bid_prices: Vec<u64> = s.bids.iter().map(|l| l.price).collect();
    assert_eq!(bid_prices, vec![100, 99, 99, 98, 97, 97, 96, 95, 95, 94]);
    let ask_prices: Vec<u64> = s.asks.iter().map(|l| l.price).collect();
    assert_eq!(ask_prices, vec![200, 201, 202, 203, 204, 205, 206, 207, 208, 209]);
    assert_eq!(s.spread, 100);
}

#[test]
fn reconciler_waits_for_both_books() {
    let mut r = Reconciler::new();
    let binance = book(Marketplace::Binance, vec![lv(10, 1)], vec![lv(12, 1)]);
    let bitstamp = book(Marketplace::Bitstamp, vec![lv(11, 1)], vec![lv(13, 1)]);
    let e = ReconcileEvent::Binance(Some(binance.clone()));
    assert!(r.accepts(&e));
    assert!(r.handle(e).is_none());
    let s = r.handle(ReconcileEvent::Bitstamp(Some(bitstamp))).unwrap();
    assert_eq!(s.spread, 1);
    assert_eq!(s.bids[0], level(Marketplace::Bitstamp, 11, 1));
    // a closed channel clears that exchange's book: nothing is published
    assert!(r.handle(ReconcileEvent::Binance(None)).is_none());
    let s = r.handle(ReconcileEvent::Binance(Some(binance))).unwrap();
    assert_eq!(s.asks[0], level(Marketplace::Binance, 12, 1));
}

#[test]
fn reconciler_refuses_books_without_asks() {
    let mut r = Reconciler::new();
    r.handle(ReconcileEvent::Binance(Some(book(Marketplace::Binance, vec![lv(1, 1)], vec![]))));
    let e = ReconcileEvent::Bitstamp(Some(book(Marketplace::Bitstamp, vec![lv(2, 1)], vec![])));
    assert!(!r.accepts(&e));
}
