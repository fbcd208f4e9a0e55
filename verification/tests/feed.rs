use mantis_hybrid::feed::{feed_rows, spot_from_response};
use mantis_hybrid::json::Json;
use mantis_hybrid::num::Real;
use mantis_hybrid::ring::RingSet;

fn r(x: f64) -> Real {
    Real { bits: x.to_bits() }
}

fn us(secs: f64) -> i64 {
    (secs * 1_000_000.0).round() as i64
}

#[test]
fn rows_hold_what_the_rings_held() {
    let mut rings = RingSet::new();
    rings.binance.write(us(1.0), r(95000.0), b"", None);
    rings.kalshi_ticker.write(us(2.5), r(0.48), b"{\"yes_ask\":0.5}", Some("K-1"));
    let rows = feed_rows(rings.drain_all());
    assert_eq!(rows.len(), 2);
    assert_eq!(rows[0].source, "binance");
    assert_eq!(rows[0].ts, us(1.0));
    assert_eq!(rows[0].value, r(95000.0));
    assert_eq!(rows[0].meta, None);
    assert_eq!(rows[0].ticker, None);
    assert_eq!(rows[1].source, "kalshi_ticker");
    assert_eq!(rows[1].meta.as_deref(), Some("{\"yes_ask\":0.5}"));
    assert_eq!(rows[1].ticker.as_deref(), Some("K-1"));
    assert!(feed_rows(rings.drain_all()).is_empty());
}

#[test]
fn spot_is_a_positive_price() {
    let spot = |text: &str| spot_from_response(&Json::parse(text).unwrap());
    assert_eq!(spot(r#"{"symbol":"BTCUSDT","price":"74000.12"}"#), Some(r(74000.12)));
    assert_eq!(spot(r#"{"price":"0"}"#), None);
    assert_eq!(spot(r#"{"price":"-5"}"#), None);
    assert_eq!(spot(r#"{"price":"inf"}"#), None);
    assert_eq!(spot(r#"{"price":74000}"#), None);
    assert_eq!(spot("{}"), None);
}
