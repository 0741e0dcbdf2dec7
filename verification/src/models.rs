//! The values exchanged with the two marketplaces.

use vstd::prelude::*;

use crate::decimal::{fixed_point_value, parse_decimal};

verus! {

/// The exchange an order book comes from.
#[derive(Clone, Copy, Debug, PartialEq, Eq, Structural)]
pub enum Marketplace {
    Binance,
    Bitstamp,
}

/// The name under which a marketplace tags its levels.
pub open spec fn marketplace_name(m: Marketplace) -> Seq<char> {
    match m {
        Marketplace::Binance => "binance"@,
        Marketplace::Bitstamp => "bitstamp"@,
    }
}

impl Marketplace {
    /// Lower-case name of the marketplace.
    pub fn to_string(self) -> (name: String)
        ensures
            name@ == marketplace_name(self),
    {
        match self {
            Marketplace::Binance => String::from_str("binance"),
            Marketplace::Bitstamp => String::from_str("bitstamp"),
        }
    }
}

/// One price level: a price and the quantity offered at it, both in units of 10^-8.
#[derive(Clone, Copy, Debug, PartialEq, Eq, Structural)]
pub struct LevelRecord {
    pub price: u64,
    pub quantity: u64,
}

/// Both sides of a book, as lists of levels.
#[derive(Clone, Debug)]
pub struct Book {
    pub bids: Vec<LevelRecord>,
    pub asks: Vec<LevelRecord>,
}

/// The top of one exchange's book, as handed to the reconciler.
#[derive(Clone, Debug)]
pub struct WrapperOrderbook {
    pub originator: Marketplace,
    pub bids: Vec<LevelRecord>,
    pub asks: Vec<LevelRecord>,
}

/// A message of Bitstamp's order book channel.
#[derive(Clone, Debug)]
pub struct WrapperBitstampOrderbook {
    pub data: BitstampOrderbook,
    pub channel: String,
    pub event: String,
}

/// The partial book that Bitstamp pushes, best levels first.
#[derive(Clone, Debug)]
pub struct BitstampOrderbook {
    pub timestamp: String,
    pub microtimestamp: String,
    pub bids: Vec<LevelRecord>,
    pub asks: Vec<LevelRecord>,
}

/// A price level of a Binance depth message.
#[derive(Clone, Copy, Debug, PartialEq, Eq, Structural)]
pub struct OfferData {
    pub price: u64,
    pub size: u64,
}

/// A Binance partial depth message.
#[derive(Debug)]
pub struct DepthStreamData {
    pub last_update_id: usize,
    pub bids: Vec<OfferData>,
    pub asks: Vec<OfferData>,
}

/// A Binance diff. depth message: event type `e`, event time `E`, symbol `s`,
/// first and last update ids `U` and `u`, bid changes `b` and ask changes `a`.
#[derive(Clone, Debug)]
#[allow(non_snake_case)]
pub struct DepthUpdateStreamData {
    pub e: String,
    pub E: usize,
    pub s: String,
    pub U: usize,
    pub u: usize,
    pub b: Vec<OfferData>,
    pub a: Vec<OfferData>,
}

/// A Binance depth snapshot, as returned by its REST interface.
#[derive(Clone, Debug)]
pub struct BinanceOrderbook {
    pub last_update_id: u64,
    pub bids: Vec<LevelRecord>,
    pub asks: Vec<LevelRecord>,
}

/// Life cycle of a feed.
#[derive(Clone, Copy, Debug, PartialEq, Eq, Structural)]
pub enum FeederStatus {
    Uninitialized,
    Initializing,
    Running,
}

/// The level written as `[price, quantity, ...]` in decimal text, if every
/// entry parses; entries past the second are read but not kept.
pub open spec fn level_from_text(entry: Seq<Seq<char>>) -> Option<LevelRecord> {
    if entry.len() >= 2 && forall|i: int| 0 <= i < entry.len() ==> (#[trigger] fixed_point_value(entry[i])) is Some {
        Some(LevelRecord { price: fixed_point_value(entry[0])->0, quantity: fixed_point_value(entry[1])->0 })
    } else {
        None
    }
}

/// The levels written as a list of `[price, quantity]` texts, if every one parses.
pub open spec fn levels_from_text(entries: Seq<Seq<Seq<char>>>) -> Option<Seq<LevelRecord>> {
    if forall|i: int| 0 <= i < entries.len() ==> (#[trigger] level_from_text(entries[i])) is Some {
        Some(Seq::new(entries.len(), |i: int| level_from_text(entries[i])->0))
    } else {
        None
    }
}

/// The text of every entry of a list of `[price, quantity]` entries.
pub open spec fn entries_text(entries: Seq<Vec<String>>) -> Seq<Seq<Seq<char>>> {
    Seq::new(entries.len(), |i: int| entries[i]@.map_values(|t: String| t@))
}

/// Parses one `[price, quantity, ...]` entry of decimal texts.
pub fn parse_level(entry: &Vec<String>) -> (res: Option<LevelRecord>)
    ensures
        res == level_from_text(entry@.map_values(|t: String| t@)),
{
    let ghost text = entry@.map_values(|t: String| t@);
    if entry.len() < 2 {
        return None;
    }
    let mut price: u64 = 0;
    let mut quantity: u64 = 0;
    let mut i: usize = 0;
    while i < entry.len()
        invariant
            2 <= entry@.len(),
            0 <= i <= entry@.len(),
            text == entry@.map_values(|t: String| t@),
            forall|j: int| 0 <= j < i ==> (#[trigger] fixed_point_value(text[j])) is Some,
            i > 0 ==> fixed_point_value(text[0]) == Some(price),
            i > 1 ==> fixed_point_value(text[1]) == Some(quantity),
        decreases entry@.len() - i,
    {
        match parse_decimal(entry[i].as_str()) {
            Some(v) => {
                if i == 0 {
                    price = v;
                } else if i == 1 {
                    quantity = v;
                }
            },
            None => {
                assert(fixed_point_value(text[i as int]) is None);
                return None;
            },
        }
        i = i + 1;
    }
    Some(LevelRecord { price, quantity })
}

/// A list of entries is read entry by entry: it reads as levels exactly when
/// every entry reads as a level, and then as one level per entry, in order.
pub proof fn levels_from_text_reads_every_entry(entries: Seq<Seq<Seq<char>>>)
    ensures
        levels_from_text(entries) is Some <==> forall|i: int| 0 <= i < entries.len() ==> (#[trigger] level_from_text(entries[i])) is Some,
        levels_from_text(entries) matches Some(r) ==> r.len() == entries.len() && forall|i: int|
            0 <= i < entries.len() ==> Some(#[trigger] r[i]) == level_from_text(entries[i]),
{
}

/// Parses a list of `[price, quantity]` entries, keeping their order.
pub fn parse_levels(entries: &Vec<Vec<String>>) -> (res: Option<Vec<LevelRecord>>)
    ensures
        match levels_from_text(entries_text(entries@)) {
            Some(levels) => res matches Some(r) && r@ == levels,
            None => res is None,
        },
        (forall|i: int| 0 <= i < entries@.len() ==> (#[trigger] level_from_text(entries_text(entries@)[i])) is Some)
            ==> (res matches Some(r) && r@.len() == entries@.len() && forall|i: int|
            0 <= i < entries@.len() ==> Some(#[trigger] r@[i]) == level_from_text(entries_text(entries@)[i])),
        res is None ==> exists|i: int| 0 <= i < entries@.len() && (#[trigger] level_from_text(entries_text(entries@)[i])) is None,
{
    let ghost text = entries_text(entries@);
    let mut levels: Vec<LevelRecord> = Vec::new();
    let mut i: usize = 0;
    while i < entries.len()
        invariant
            0 <= i <= entries.len(),
            text == entries_text(entries@),
            levels@.len() == i,
            forall|j: int| 0 <= j < i ==> (#[trigger] level_from_text(text[j])) == Some(levels@[j]),
        decreases entries.len() - i,
    {
        match parse_level(&entries[i]) {
            Some(level) => {
                levels.push(level);
            },
            None => {
                assert(level_from_text(text[i as int]) is None);
                return None;
            },
        }
        i = i + 1;
    }
    assert(levels@ =~= Seq::new(text.len(), |i: int| level_from_text(text[i])->0));
    Some(levels)
}

/// Parses the price and size texts of a Binance level.
pub fn parse_offer(price: &str, size: &str) -> (res: Option<OfferData>)
    ensures
        match (fixed_point_value(price@), fixed_point_value(size@)) {
            (Some(p), Some(q)) => res == Some(OfferData { price: p, size: q }),
            _ => res is None,
        },
{
    match (parse_decimal(price), parse_decimal(size)) {
        (Some(price), Some(size)) => Some(OfferData { price, size }),
        _ => None,
    }
}

} // verus!
