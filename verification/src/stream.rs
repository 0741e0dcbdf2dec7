//! The exchanges' streams: where they are, and what is done with each frame.

use vstd::prelude::*;

use crate::models::{Marketplace, WrapperBitstampOrderbook, WrapperOrderbook};

verus! {

/// A frame read from an exchange's websocket.
pub enum WsFrame {
    Text(String),
    Ping(Vec<u8>),
    Other,
}

/// What a feed does with a frame: parse a text, answer a ping with a pong
/// carrying the same payload, or give up on the stream.
pub enum FrameAction {
    Parse(String),
    Pong(Vec<u8>),
    Fail,
}

/// Decides what to do with a frame read from an exchange's websocket.
pub fn frame_action(frame: WsFrame) -> (action: FrameAction)
    ensures
        match frame {
            WsFrame::Text(text) => action == FrameAction::Parse(text),
            WsFrame::Ping(payload) => action == FrameAction::Pong(payload),
            WsFrame::Other => action == FrameAction::Fail,
        },
{
    match frame {
        WsFrame::Text(text) => FrameAction::Parse(text),
        WsFrame::Ping(payload) => FrameAction::Pong(payload),
        WsFrame::Other => FrameAction::Fail,
    }
}

/// The book Bitstamp pushes is relayed as it is, tagged as Bitstamp's.
pub fn relay_bitstamp(parsed: WrapperBitstampOrderbook) -> (book: WrapperOrderbook)
    ensures
        book.originator == Marketplace::Bitstamp,
        book.bids@ == parsed.data.bids@,
        book.asks@ == parsed.data.asks@,
{
    WrapperOrderbook {
        originator: Marketplace::Bitstamp,
        bids: parsed.data.bids,
        asks: parsed.data.asks,
    }
}

/// `c` with the ASCII letters `a` to `z` mapped to `A` to `Z`.
pub open spec fn ascii_upper(c: char) -> char {
    if 'a' <= c && c <= 'z' {
        ((c as u32) - 32) as char
    } else {
        c
    }
}

/// `str::to_ascii_uppercase`.
///
/// Trusted: its documentation says that ASCII letters `a` to `z` are mapped to
/// `A` to `Z` and every other character is left unchanged, which is what the
/// contract states, character by character.
#[verifier::external_body]
fn to_ascii_uppercase(s: &str) -> (upper: String)
    ensures
        upper@ == s@.map_values(|c: char| ascii_upper(c)),
{
    s.to_ascii_uppercase()
}

/// The lower-case form of a text under Unicode's case rules.
pub uninterp spec fn unicode_lowercase(s: Seq<char>) -> Seq<char>;

/// `str::to_lowercase`.
///
/// Trusted: its result depends on the text alone (Unicode's lower-case
/// mapping, which its documentation refers to); that mapping is named by
/// `unicode_lowercase` and not written out.
#[verifier::external_body]
fn to_lowercase(s: &str) -> (lower: String)
    ensures
        lower@ == unicode_lowercase(s@),
{
    s.to_lowercase()
}

/// The key under which a pair is registered and watched: the pair in lower case.
pub fn channel_key(pair: &str) -> (key: String)
    ensures
        key@ == unicode_lowercase(pair@),
{
    to_lowercase(pair)
}

/// Address of Binance's diff. depth stream for a pair, updated every 100 ms.
pub fn binance_stream_url(pair: &str) -> (url: String)
    ensures
        url@ == "wss://stream.binance.com:9443/ws/"@ + pair@ + "@depth@100ms"@,
{
    let mut url = String::from_str("wss://stream.binance.com:9443/ws/");
    url.append(pair);
    url.append("@depth@100ms");
    url
}

/// Address of Binance's REST depth snapshot for a pair (symbol in upper case,
/// 100 levels).
pub fn binance_snapshot_url(pair: &str) -> (url: String)
    ensures
        url@ == "https://api.binance.com/api/v3/depth?symbol="@ + pair@.map_values(
            |c: char| ascii_upper(c),
        ) + "&limit=100"@,
{
    let symbol = to_ascii_uppercase(pair);
    let mut url = String::from_str("https://api.binance.com/api/v3/depth?symbol=");
    url.append(symbol.as_str());
    url.append("&limit=100");
    url
}

/// Address of Bitstamp's websocket.
pub fn bitstamp_ws_url() -> (url: String)
    ensures
        url@ == "wss://ws.bitstamp.net/"@,
{
    String::from_str("wss://ws.bitstamp.net/")
}

/// Name of Bitstamp's order book channel for a pair.
pub fn bitstamp_channel(pair: &str) -> (channel: String)
    ensures
        channel@ == "order_book_"@ + pair@,
{
    let mut channel = String::from_str("order_book_");
    channel.append(pair);
    channel
}

} // verus!
