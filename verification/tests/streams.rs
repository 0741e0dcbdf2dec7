use orderbook_combiner::models::{
    BitstampOrderbook, LevelRecord, Marketplace, WrapperBitstampOrderbook,
};
use orderbook_combiner::stream::{
    binance_snapshot_url, binance_stream_url, bitstamp_channel, bitstamp_ws_url, channel_key, frame_action,
    relay_bitstamp, FrameAction, WsFrame,
};

#[test]
fn frames_are_dispatched() {
    match frame_action(WsFrame::Text("{}".to_string())) {
        FrameAction::Parse(t) => assert_eq!(t, "{}"),
        _ => panic!("text must be parsed"),
    }
    match frame_action(WsFrame::Ping(vec![1, 2])) {
        FrameAction::Pong(p) => assert_eq!(p, vec![1, 2]),
        _ => panic!("ping must be answered"),
    }
    assert!(matches!(frame_action(WsFrame::Other), FrameAction::Fail));
}

#[test]
fn stream_addresses() {
    assert_eq!(binance_stream_url("btcusdt"), "wss://stream.binance.com:9443/ws/btcusdt@depth@100ms");
    assert_eq!(
        binance_snapshot_url("btcusdt"),
        "https://api.binance.com/api/v3/depth?symbol=BTCUSDT&limit=100"
    );
    assert_eq!(
        binance_snapshot_url("ethBtc-é"),
        "https://api.binance.com/api/v3/depth?symbol=ETHBTC-é&limit=100"
    );
    assert_eq!(bitstamp_ws_url(), "wss://ws.bitstamp.net/");
    assert_eq!(bitstamp_channel("ethbtc"), "order_book_ethbtc");
}

#[test]
fn bitstamp_book_is_relayed() {
    let parsed = WrapperBitstampOrderbook {
        data: BitstampOrderbook {
            timestamp: "1".to_string(),
            microtimestamp: "1000".to_string(),
            bids: vec![LevelRecord { price: 5, quantity: 1 }],
            asks: vec![LevelRecord { price: 6, quantity: 2 }],
        },
        channel: "order_book_ethbtc".to_string(),
        event: "data".to_string(),
    };
    let book = relay_bitstamp(parsed);
    assert_eq!(book.originator, Marketplace::Bitstamp);
    assert_eq!(book.bids, vec![LevelRecord { price: 5, quantity: 1 }]);
    assert_eq!(book.asks, vec![LevelRecord { price: 6, quantity: 2 }]);
}

#[test]
fn marketplace_names() {
    assert_eq!(Marketplace::Binance.to_string(), "binance");
    assert_eq!(Marketplace::Bitstamp.to_string(), "bitstamp");
}

#[test]
fn pairs_are_keyed_in_lower_case() {
    assert_eq!(channel_key("BtcUSDT"), "btcusdt");
    assert_eq!(channel_key("ethbtc"), "ethbtc");
}
