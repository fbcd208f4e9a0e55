use mantis_hybrid::book::{snapshot_row, snapshot_rows, BookEvent, BOOK_CHANNEL_CAP};
use mantis_hybrid::num::Real;

fn r(x: f64) -> Real {
    Real { bits: x.to_bits() }
}

fn us(secs: f64) -> i64 {
    (secs * 1_000_000.0).round() as i64
}

#[test]
fn book_event_struct_fields() {
    let evt = BookEvent {
        ts: us(1_700_000_000.0),
        market_id: 42,
        ticker: "KXBTCD-T70000".to_string(),
        venue: "kalshi",
        best_bid: r(0.48),
        best_ask: r(0.52),
        spread: r(0.04),
        bid_depth: r(500.0),
        ask_depth: r(600.0),
        levels_json: r#"{"yes":[[0.48,500]],"no":[[0.52,600]]}"#.to_string(),
    };
    assert_eq!(evt.venue, "kalshi");
    assert_eq!(evt.ticker, "KXBTCD-T70000");
    assert!((f64::from_bits(evt.spread.bits) - 0.04).abs() < 1e-10);
}

#[test]
fn book_event_to_snapshot_row() {
    let evt = BookEvent {
        ts: us(1_700_000_000.0),
        market_id: 1,
        ticker: "TEST".to_string(),
        venue: "polymarket",
        best_bid: r(0.45),
        best_ask: r(0.55),
        spread: r(0.10),
        bid_depth: r(1000.0),
        ask_depth: r(800.0),
        levels_json: "{}".to_string(),
    };
    let row = snapshot_row(&evt);
    assert_eq!(row.venue, "polymarket");
    assert_eq!(row.best_bid, Some(r(0.45)));
    assert_eq!(row.levels, Some("{}".to_string()));
}

#[test]
fn zero_bid_ask_maps_to_none() {
    let evt = BookEvent {
        ts: us(1.0),
        market_id: 1,
        ticker: "X".to_string(),
        venue: "kalshi",
        best_bid: r(0.0),
        best_ask: r(0.0),
        spread: r(0.0),
        bid_depth: r(0.0),
        ask_depth: r(0.0),
        levels_json: "[]".to_string(),
    };
    let row = snapshot_row(&evt);
    assert_eq!(row.best_bid, None);
    assert_eq!(row.best_ask, None);
}

#[test]
fn batches_keep_their_order() {
    let event = |id: i64| BookEvent {
        ts: us(1.0),
        market_id: id,
        ticker: "X".to_string(),
        venue: "kalshi",
        best_bid: r(0.5),
        best_ask: r(f64::NAN),
        spread: r(0.1),
        bid_depth: r(3.0),
        ask_depth: r(4.0),
        levels_json: "[]".to_string(),
    };
    let rows = snapshot_rows(&vec![event(3), event(1), event(2)]);
    assert_eq!(rows.iter().map(|row| row.market_id).collect::<Vec<i64>>(), vec![3, 1, 2]);
    assert_eq!(rows[0].best_bid, Some(r(0.5)));
    assert_eq!(rows[0].best_ask, None);
    assert_eq!(rows[0].spread, r(0.1));
    assert_eq!(rows[0].bid_depth, r(3.0));
    assert_eq!(rows[0].ask_depth, r(4.0));
    assert_eq!(rows[0].ts, us(1.0));
    assert_eq!(BOOK_CHANNEL_CAP, 256);
}
