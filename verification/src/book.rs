//! Order book events: full-depth snapshots on their way to storage.

use crate::db::BookSnapshotRow;
use crate::num::{order_is_numeric, Real};
use vstd::prelude::*;

verus! {

/// A full order book snapshot from a venue.
pub struct BookEvent {
    /// Microseconds since the Unix epoch.
    pub ts: i64,
    pub market_id: i64,
    pub ticker: String,
    pub venue: &'static str,
    pub best_bid: Real,
    pub best_ask: Real,
    pub spread: Real,
    pub bid_depth: Real,
    pub ask_depth: Real,
    /// All levels, as JSON text.
    pub levels_json: String,
}

/// Capacity of the channel that carries book events.
pub const BOOK_CHANNEL_CAP: usize = 256;

/// A price, where it is positive: zero stands for a side without quotes.
pub open spec fn quoted(price: Real) -> Option<Real> {
    if price.positive() {
        Some(price)
    } else {
        None
    }
}

/// The row is the snapshot of the event.
pub open spec fn snapshot_of(row: BookSnapshotRow, e: BookEvent) -> bool {
    &&& row.ts == e.ts
    &&& row.market_id == e.market_id
    &&& row.venue@ == e.venue@
    &&& row.bid_depth == e.bid_depth
    &&& row.ask_depth == e.ask_depth
    &&& row.spread == e.spread
    &&& row.best_bid == quoted(e.best_bid)
    &&& row.best_ask == quoted(e.best_ask)
    &&& row.levels matches Some(levels) && levels@ == e.levels_json@
}

fn quote(price: Real) -> (r: Option<Real>)
    ensures
        r == quoted(price),
{
    if price.is_positive() {
        Some(price)
    } else {
        None
    }
}

/// The row to store of an event.
pub fn snapshot_row(e: &BookEvent) -> (r: BookSnapshotRow)
    ensures
        snapshot_of(r, *e),
{
    BookSnapshotRow {
        ts: e.ts,
        market_id: e.market_id,
        venue: e.venue.to_owned(),
        bid_depth: e.bid_depth,
        ask_depth: e.ask_depth,
        spread: e.spread,
        best_bid: quote(e.best_bid),
        best_ask: quote(e.best_ask),
        levels: Some(e.levels_json.clone()),
    }
}

/// The rows to store of a batch of events, in order.
pub fn snapshot_rows(batch: &Vec<BookEvent>) -> (r: Vec<BookSnapshotRow>)
    ensures
        r@.len() == batch@.len(),
        forall|i: int| 0 <= i < r@.len() ==> snapshot_of(#[trigger] r@[i], batch@[i]),
{
    let mut rows: Vec<BookSnapshotRow> = Vec::new();
    let mut i: usize = 0;
    while i < batch.len()
        invariant
            i <= batch@.len(),
            rows@.len() == i,
            forall|k: int| 0 <= k < i ==> snapshot_of(#[trigger] rows@[k], batch@[k]),
        decreases batch@.len() - i,
    {
        rows.push(snapshot_row(&batch[i]));
        i += 1;
    }
    rows
}

/// A stored snapshot holds what the event said, each figure in its own place; a quote of zero or
/// less is no quote.
pub proof fn snapshots_hold_their_event(row: BookSnapshotRow, e: BookEvent)
    requires
        snapshot_of(row, e),
    ensures
        row.ts == e.ts && row.market_id == e.market_id && row.venue@ == e.venue@,
        row.bid_depth == e.bid_depth && row.ask_depth == e.ask_depth && row.spread == e.spread,
        row.levels matches Some(text) && text@ == e.levels_json@,
        e.best_bid.finite() ==> row.best_bid == if e.best_bid.value() > 0 {
            Some(e.best_bid)
        } else {
            None
        },
        e.best_ask.finite() ==> row.best_ask == if e.best_ask.value() > 0 {
            Some(e.best_ask)
        } else {
            None
        },
{
    if e.best_bid.finite() {
        order_is_numeric(e.best_bid, e.best_bid);
    }
    if e.best_ask.finite() {
        order_is_numeric(e.best_ask, e.best_ask);
    }
}

} // verus!
