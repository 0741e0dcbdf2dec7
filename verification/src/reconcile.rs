//! The decisions of the reconciling task: it keeps the latest book of each
//! exchange and publishes a summary whenever both are known.

use vstd::prelude::*;

use crate::models::WrapperOrderbook;
use crate::summary::{can_summarize, is_summary_of, summarize, Summary};

verus! {

/// What the reconciling task receives: the outcome of waiting on the Binance or
/// the Bitstamp channel (`None` once that channel is closed).
pub enum ReconcileEvent {
    Binance(Option<WrapperOrderbook>),
    Bitstamp(Option<WrapperOrderbook>),
}

/// The latest book received from each exchange.
pub struct Reconciler {
    pub binance_data: Option<WrapperOrderbook>,
    pub bitstamp_data: Option<WrapperOrderbook>,
}

/// The books held after `event`, Binance's first.
pub open spec fn books_after(
    binance_data: Option<WrapperOrderbook>,
    bitstamp_data: Option<WrapperOrderbook>,
    event: ReconcileEvent,
) -> (Option<WrapperOrderbook>, Option<WrapperOrderbook>) {
    match event {
        ReconcileEvent::Binance(msg) => (msg, bitstamp_data),
        ReconcileEvent::Bitstamp(msg) => (binance_data, msg),
    }
}

/// A summary can be made from the books held, when there are two.
pub open spec fn summary_defined(books: (Option<WrapperOrderbook>, Option<WrapperOrderbook>)) -> bool {
    match books {
        (Some(binance), Some(bitstamp)) => can_summarize(binance, bitstamp),
        _ => true,
    }
}

/// Every event replaces the book of its exchange with what it carries (a newer
/// book, or `None` once the channel is closed) and leaves the other one alone.
pub proof fn event_replaces_its_exchange_book(
    binance_data: Option<WrapperOrderbook>,
    bitstamp_data: Option<WrapperOrderbook>,
    m: Option<WrapperOrderbook>,
)
    ensures
        books_after(binance_data, bitstamp_data, ReconcileEvent::Binance(m)).0 == m,
        books_after(binance_data, bitstamp_data, ReconcileEvent::Binance(m)).1 == bitstamp_data,
        books_after(binance_data, bitstamp_data, ReconcileEvent::Bitstamp(m)).0 == binance_data,
        books_after(binance_data, bitstamp_data, ReconcileEvent::Bitstamp(m)).1 == m,
{
}

impl Reconciler {
    /// No book received yet.
    pub fn new() -> (r: Reconciler)
        ensures
            r.binance_data is None,
            r.bitstamp_data is None,
    {
        Reconciler { binance_data: None, bitstamp_data: None }
    }

    /// Whether the summary of the books held after `event` can be made; the
    /// reconciling task fails where it cannot.
    pub fn accepts(&self, event: &ReconcileEvent) -> (ok: bool)
        ensures
            ok == summary_defined(books_after(self.binance_data, self.bitstamp_data, *event)),
    {
        let (binance, bitstamp) = match event {
            ReconcileEvent::Binance(msg) => (msg, &self.bitstamp_data),
            ReconcileEvent::Bitstamp(msg) => (&self.binance_data, msg),
        };
        match (binance, bitstamp) {
            (Some(b), Some(s)) => (b.bids.len() > 0 || s.bids.len() > 0) && (b.asks.len() > 0
                || s.asks.len() > 0),
            _ => true,
        }
    }

    /// Records the outcome of a wait and, when a book of each exchange is held,
    /// returns their summary for publication.
    pub fn handle(&mut self, event: ReconcileEvent) -> (published: Option<Summary>)
        requires
            summary_defined(books_after(old(self).binance_data, old(self).bitstamp_data, event)),
        ensures
            (final(self).binance_data, final(self).bitstamp_data) == books_after(
                old(self).binance_data,
                old(self).bitstamp_data,
                event,
            ),
            event matches ReconcileEvent::Binance(m) ==> final(self).binance_data == m
                && final(self).bitstamp_data == old(self).bitstamp_data,
            event matches ReconcileEvent::Bitstamp(m) ==> final(self).bitstamp_data == m
                && final(self).binance_data == old(self).binance_data,
            match (final(self).binance_data, final(self).bitstamp_data) {
                (Some(binance), Some(bitstamp)) => published matches Some(summary) && is_summary_of(
                    binance,
                    bitstamp,
                    summary,
                ),
                _ => published is None,
            },
    {
        match event {
            ReconcileEvent::Binance(msg) => {
                self.binance_data = msg;
            },
            ReconcileEvent::Bitstamp(msg) => {
                self.bitstamp_data = msg;
            },
        }
        match (&self.binance_data, &self.bitstamp_data) {
            (Some(binance), Some(bitstamp)) => Some(summarize(binance, bitstamp)),
            _ => None,
        }
    }
}

} // verus!
