//! Venues: what their market listings, order books and resolutions say.

use crate::db::BookSnapshotRow;
use crate::json::{decimal, opt_str, parse_decimal};
use crate::num::{order_is_numeric, Real};
use vstd::prelude::*;

pub mod kalshi;
pub mod polymarket;

verus! {

/// One level of an order book.
#[derive(Clone, Copy, Debug, PartialEq, Eq, Structural)]
pub struct Level {
    pub price: Real,
    pub size: Real,
}

/// The number, where it is finite and positive.
pub open spec fn positive_part(x: Option<Real>) -> Option<Real> {
    match x {
        Some(x) => if x.finite() && x.positive() {
            Some(x)
        } else {
            None
        },
        None => None,
    }
}

/// Keeps a number that is finite and positive.
pub fn positive_only(x: Option<Real>) -> (r: Option<Real>)
    ensures
        r == positive_part(x),
{
    match x {
        Some(x) => if x.is_finite() && x.is_positive() {
            Some(x)
        } else {
            None
        },
        None => None,
    }
}

/// The positive number that a text spells.
pub open spec fn positive_decimal(text: Option<Seq<char>>) -> Option<Real> {
    match text {
        Some(s) => positive_part(decimal(s)),
        None => None,
    }
}

pub(crate) fn parse_positive(text: Option<&str>) -> (r: Option<Real>)
    ensures
        r == positive_decimal(opt_str(text)),
{
    match text {
        Some(s) => positive_only(parse_decimal(s)),
        None => None,
    }
}

/// A level from the texts of its price and size, where both are positive numbers.
pub open spec fn level_from(price: Option<Seq<char>>, size: Option<Seq<char>>) -> Option<Level> {
    match (positive_decimal(price), positive_decimal(size)) {
        (Some(price), Some(size)) => Some(Level { price, size }),
        _ => None,
    }
}

/// The levels with a price of at least `floor`.
pub open spec fn levels_from(levels: Seq<Level>, floor: Real) -> Seq<Level> {
    levels.filter(|l: Level| floor.at_most(l.price))
}

/// The levels with a price of at most `cap`.
pub open spec fn levels_to(levels: Seq<Level>, cap: Real) -> Seq<Level> {
    levels.filter(|l: Level| l.price.at_most(cap))
}

/// The levels with a price of at least `floor`, in order.
pub fn levels_at_least(levels: &Vec<Level>, floor: Real) -> (r: Vec<Level>)
    ensures
        r@ == levels_from(levels@, floor),
{
    let mut out: Vec<Level> = Vec::new();
    let ghost keep = |l: Level| floor.at_most(l.price);
    let mut i: usize = 0;
    assert(levels@.take(0).filter(keep) =~= out@);
    while i < levels.len()
        invariant
            i <= levels@.len(),
            keep == (|l: Level| floor.at_most(l.price)),
            out@ == levels@.take(i as int).filter(keep),
        decreases levels@.len() - i,
    {
        let level: Level = levels[i];
        assert(levels@.take(i + 1).drop_last() =~= levels@.take(i as int));
        proof {
            reveal(Seq::filter);
        }
        if floor.le(&level.price) {
            out.push(level);
        }
        i += 1;
    }
    assert(levels@.take(i as int) =~= levels@);
    out
}

/// The levels with a price of at most `cap`, in order.
pub fn levels_at_most(levels: &Vec<Level>, cap: Real) -> (r: Vec<Level>)
    ensures
        r@ == levels_to(levels@, cap),
{
    let mut out: Vec<Level> = Vec::new();
    let ghost keep = |l: Level| l.price.at_most(cap);
    let mut i: usize = 0;
    assert(levels@.take(0).filter(keep) =~= out@);
    while i < levels.len()
        invariant
            i <= levels@.len(),
            keep == (|l: Level| l.price.at_most(cap)),
            out@ == levels@.take(i as int).filter(keep),
        decreases levels@.len() - i,
    {
        let level: Level = levels[i];
        assert(levels@.take(i + 1).drop_last() =~= levels@.take(i as int));
        proof {
            reveal(Seq::filter);
        }
        if level.price.le(&cap) {
            out.push(level);
        }
        i += 1;
    }
    assert(levels@.take(i as int) =~= levels@);
    out
}

/// The figures of a book that take arithmetic on its levels.
#[derive(Clone, Copy, Debug, PartialEq, Eq, Structural)]
pub struct BookFigures {
    /// Best ask less best bid.
    pub spread: Real,
    /// The size of the bids near the best.
    pub bid_depth: Real,
    /// The size of the asks near the best.
    pub ask_depth: Real,
}

/// The row is the snapshot of a book with these best quotes. A side without quotes has no depth,
/// and where one is missing there is no spread.
pub open spec fn snapshot_of_book(
    row: BookSnapshotRow,
    ts: i64,
    market_id: i64,
    best_bid: Option<Real>,
    best_ask: Option<Real>,
    figures: BookFigures,
    levels: Seq<char>,
) -> bool {
    let zero = Real { bits: 0 };
    &&& row.ts == ts
    &&& row.market_id == market_id
    &&& row.best_bid == best_bid
    &&& row.best_ask == best_ask
    &&& row.spread == if best_bid is Some && best_ask is Some {
        figures.spread
    } else {
        zero
    }
    &&& row.bid_depth == if best_bid is Some {
        figures.bid_depth
    } else {
        zero
    }
    &&& row.ask_depth == if best_ask is Some {
        figures.ask_depth
    } else {
        zero
    }
    &&& row.levels matches Some(text) && text@ == levels
}

pub(crate) fn book_snapshot(
    venue: &str,
    ts: i64,
    market_id: i64,
    best_bid: Option<Real>,
    best_ask: Option<Real>,
    figures: BookFigures,
    levels: String,
) -> (r: BookSnapshotRow)
    ensures
        r.venue@ == venue@,
        snapshot_of_book(r, ts, market_id, best_bid, best_ask, figures, levels@),
{
    BookSnapshotRow {
        ts,
        market_id,
        venue: venue.to_owned(),
        bid_depth: if best_bid.is_some() {
            figures.bid_depth
        } else {
            Real::zero()
        },
        ask_depth: if best_ask.is_some() {
            figures.ask_depth
        } else {
            Real::zero()
        },
        spread: if best_bid.is_some() && best_ask.is_some() {
            figures.spread
        } else {
            Real::zero()
        },
        best_bid,
        best_ask,
        levels: Some(levels),
    }
}

/// A level is two positive finite numbers, and its price comes from the first text.
pub proof fn levels_are_two_positive_numbers(
    price: Option<Seq<char>>,
    size: Option<Seq<char>>,
    level: Level,
)
    ensures
        level_from(price, size) == Some(level) <==> {
            &&& price matches Some(p) && decimal(p) == Some(level.price)
            &&& size matches Some(q) && decimal(q) == Some(level.size)
            &&& level.price.finite() && level.price.value() > 0
            &&& level.size.finite() && level.size.value() > 0
        },
{
    if level.price.finite() && level.size.finite() {
        order_is_numeric(level.price, level.size);
        order_is_numeric(level.size, level.price);
    }
}

/// The levels from a price up are those at or above it, and the levels to a price those at or below
/// it: a level at the price counts on both sides.
pub proof fn levels_split_at_a_price(level: Level, price: Real)
    requires
        level.price.finite(),
        price.finite(),
    ensures
        levels_from(seq![level], price) == if level.price.value() >= price.value() {
            seq![level]
        } else {
            Seq::empty()
        },
        levels_to(seq![level], price) == if level.price.value() <= price.value() {
            seq![level]
        } else {
            Seq::empty()
        },
{
    order_is_numeric(level.price, price);
    order_is_numeric(price, level.price);
    reveal(Seq::filter);
    let one = seq![level];
    let none = Seq::<Level>::empty();
    assert(one.drop_last() =~= none);
    assert(one.last() == level);
    assert(levels_from(none, price) =~= none);
    assert(levels_to(none, price) =~= none);
    assert(none.push(level) =~= one);
}

/// The levels of a book that is put together are the levels of its parts, one after the other.
pub proof fn levels_are_kept_in_order(a: Seq<Level>, b: Seq<Level>, price: Real)
    ensures
        levels_from(a + b, price) == levels_from(a, price) + levels_from(b, price),
        levels_to(a + b, price) == levels_to(a, price) + levels_to(b, price),
{
    Seq::filter_distributes_over_add(a, b, |l: Level| price.at_most(l.price));
    Seq::filter_distributes_over_add(a, b, |l: Level| l.price.at_most(price));
}

/// A snapshot holds the quotes and figures of its book, each in its own place, and nothing for a
/// side without quotes.
pub proof fn snapshots_hold_their_book(
    row: BookSnapshotRow,
    ts: i64,
    market_id: i64,
    bid: Real,
    ask: Real,
    figures: BookFigures,
    levels: Seq<char>,
)
    ensures
        snapshot_of_book(row, ts, market_id, Some(bid), Some(ask), figures, levels) ==> {
            &&& row.ts == ts && row.market_id == market_id
            &&& row.best_bid == Some(bid) && row.best_ask == Some(ask)
            &&& row.spread == figures.spread
            &&& row.bid_depth == figures.bid_depth && row.ask_depth == figures.ask_depth
            &&& row.levels is Some
        },
        snapshot_of_book(row, ts, market_id, Some(bid), None, figures, levels) ==> {
            &&& row.best_bid == Some(bid) && row.best_ask is None
            &&& row.spread.bits == 0 && row.ask_depth.bits == 0
            &&& row.bid_depth == figures.bid_depth
        },
        snapshot_of_book(row, ts, market_id, None, Some(ask), figures, levels) ==> {
            &&& row.best_bid is None && row.best_ask == Some(ask)
            &&& row.spread.bits == 0 && row.bid_depth.bits == 0
            &&& row.ask_depth == figures.ask_depth
        },
{
}

} // verus!
