use mantis_hybrid::db::{
    kalshi_tickers, parse_iso_to_unix, parse_stamp, poly_token_ids, resolution_row,
    resolution_source, resolution_times, IsoTime, MarketRow, ResolutionSource,
};
use mantis_hybrid::num::Real;

fn r(x: f64) -> Real {
    Real { bits: x.to_bits() }
}

/// The time in seconds.
fn secs(t: IsoTime) -> f64 {
    t.secs as f64 + format!("{}e{}", t.frac, t.scale).parse::<f64>().unwrap()
}

#[test]
fn parse_iso_z() {
    let ts = secs(parse_iso_to_unix("2024-03-10T08:00:00Z").unwrap());
    assert!((ts - 1710057600.0).abs() < 1.0);
}

#[test]
fn parse_iso_offset() {
    let z = secs(parse_iso_to_unix("2024-01-01T00:00:00Z").unwrap());
    let plus5 = secs(parse_iso_to_unix("2024-01-01T05:00:00+05:00").unwrap());
    assert!((z - plus5).abs() < 0.01);
}

#[test]
fn parse_iso_fractional() {
    let ts = secs(parse_iso_to_unix("2024-01-01T00:00:00.500Z").unwrap());
    assert!((ts - 1704067200.5).abs() < 0.01);
}

#[test]
fn parse_iso_exact_values() {
    let at = |s: &str| parse_iso_to_unix(s);
    assert_eq!(
        at("2024-03-10T08:00:00Z"),
        Some(IsoTime { secs: 1710057600, frac: 0, scale: 0 })
    );
    assert_eq!(at("2024-02-29T23:59:59Z").unwrap().secs, 1709251199);
    assert_eq!(at("1970-01-01T00:00:00Z").unwrap().secs, 0);
    assert_eq!(at("2024-01-01T00:00:00-05:30").unwrap().secs, 1704067200 + 19800);
    assert_eq!(at("2024-01-01T00:00:00.25Z").map(|t| (t.frac, t.scale)), Some((25, -2)));
}

#[test]
fn parse_iso_rejects_what_is_no_time() {
    for s in ["", "2024-01-01", "T", "2024-01T00:00:00Z", "xxxx-01-01T00:00:00Z", "2024-01-01T0:0Z"] {
        assert_eq!(parse_iso_to_unix(s), None, "{s}");
    }
}

#[test]
fn times_compare_exactly() {
    let t = parse_stamp(Some("2024-01-01T00:00:00.500Z")).unwrap();
    assert!(t.is_after(1_704_067_200_499_999));
    assert!(!t.is_after(1_704_067_200_500_000));
    assert!(t.is_at_least(1_704_067_200_400_000, 100_000));
    assert!(!t.is_at_least(1_704_067_200_400_000, 100_001));

    // Six characters of a fraction count.
    let t = parse_stamp(Some("2024-01-01T00:00:00.1234567Z")).unwrap();
    assert!(!t.is_after(1_704_067_200_123_456) && t.is_after(1_704_067_200_123_455));

    // A hundredth of a microsecond after the epoch.
    let t = parse_stamp(Some("1970-01-01T00:00:00.1e-7Z")).unwrap();
    assert!(t.is_after(0) && !t.is_after(1));
    assert!(t.is_at_least(0, 0) && !t.is_at_least(0, 1));
    let t = parse_stamp(Some("1970-01-01T00:00:00.0e-9Z")).unwrap();
    assert!(!t.is_after(0) && t.is_at_least(0, 0));
    let t = parse_stamp(Some("1970-01-01T00:00:00.1e9999Z")).unwrap();
    assert!(t.is_after(i64::MAX));

    // A million years either way.
    let far = parse_stamp(Some("1000000-01-01T00:00:00Z")).unwrap();
    assert_eq!(far.secs, 31_494_784_780_800);
    assert!(far.is_after(i64::MAX) && far.is_at_least(i64::MAX, 60_000_000));
    let past = parse_stamp(Some("1970-01-01T-99999999999:00:00Z")).unwrap();
    assert_eq!(past.secs, -359_999_999_996_400);
    assert!(!past.is_after(i64::MIN) && !past.is_at_least(i64::MIN, 0));

    assert_eq!(parse_stamp(Some("no time")), None);
    assert_eq!(parse_stamp(None), None);
}

#[test]
fn fractions_beyond_a_float_are_not_finite() {
    let finite = |fraction: &str| {
        let t = parse_iso_to_unix(&format!("2024-01-01T00:00:00.{fraction}Z")).unwrap();
        assert_eq!(t.is_finite(), secs(t).is_finite(), "{fraction}");
        t.is_finite()
    };
    for fraction in ["5", "123456", "1e-999", "1e309", "17e309", "0e9999", "e99999", "1e+99"] {
        assert!(finite(fraction), "{fraction}");
    }
    for fraction in ["18e309", "2e309", "1e310", "9e999", "99e999", "1e9999"] {
        assert!(!finite(fraction), "{fraction}");
    }
    assert!(!IsoTime { secs: 0, frac: 1_800_000_000, scale: 299 }.is_finite());
    assert!(IsoTime { secs: 0, frac: 1_799_999_999, scale: 299 }.is_finite());
}

#[test]
fn resolution_lag_needs_both_times() {
    let times = resolution_times(Some("2024-01-01T00:00:00Z"), Some("2024-01-01T00:01:00Z"));
    assert_eq!(times.close.map(secs), Some(1704067200.0));
    assert_eq!(times.resolution.map(secs), Some(1704067260.0));
    let row = resolution_row(7, times, r(60.0), None, None, None, r(0.0));
    assert_eq!(row.resolution_lag_s, Some(r(60.0)));
    assert_eq!((row.close_time, row.resolution_time), (times.close, times.resolution));
    let times = resolution_times(Some("2024-01-01T00:00:00Z"), None);
    assert_eq!(resolution_row(7, times, r(60.0), None, None, None, r(0.0)).resolution_lag_s, None);
    assert_eq!(resolution_times(None, None).close, None);
    let far = resolution_times(Some("1000000-01-01T00:00:00Z"), None);
    assert_eq!(far.close.map(|t| t.secs), Some(31_494_784_780_800));
}

#[test]
fn displacement_needs_both_values() {
    let times = resolution_times(None, None);
    let row = resolution_row(
        7,
        times,
        r(0.0),
        Some("Yes".to_string()),
        Some(r(95000.0)),
        Some(r(95010.0)),
        r(10.0),
    );
    assert_eq!(row.market_id, 7);
    assert_eq!(row.outcome.as_deref(), Some("Yes"));
    assert_eq!(row.displacement_at_close, Some(r(10.0)));
    let row = resolution_row(7, times, r(0.0), None, None, Some(r(95010.0)), r(10.0));
    assert_eq!(row.displacement_at_close, None);
}

#[test]
fn resolutions_are_asked_where_the_market_trades() {
    assert_eq!(resolution_source("kalshi"), Some(ResolutionSource::Kalshi));
    assert_eq!(resolution_source("polymarket"), Some(ResolutionSource::Polymarket));
    assert_eq!(resolution_source("elsewhere"), None);
    assert_eq!(ResolutionSource::Kalshi.delay_ms(), 500);
    assert_eq!(ResolutionSource::Polymarket.delay_ms(), 1000);
}

fn market(venue: &str, ticker: &str, token_id: Option<&str>) -> MarketRow {
    MarketRow {
        id: 1,
        venue: venue.to_string(),
        ticker: ticker.to_string(),
        series: None,
        market_type: None,
        oracle: None,
        strike: None,
        open_time: None,
        close_time: None,
        resolution_time: None,
        outcome: None,
        rules: None,
        token_id: token_id.map(|t| t.to_string()),
        discovered_at: None,
    }
}

#[test]
fn subscriptions_go_by_venue() {
    let markets = vec![
        market("kalshi", "K-1", Some("ignored")),
        market("polymarket", "poly-1", Some("111")),
        market("polymarket", "poly-2", None),
        market("kalshi", "K-2", None),
    ];
    assert_eq!(kalshi_tickers(&markets), vec!["K-1", "K-2"]);
    assert_eq!(poly_token_ids(&markets), vec!["111"]);
}

#[test]
fn offsets_shift_the_same_clock() {
    let zulu = parse_iso_to_unix("2026-03-15T14:30:00.25Z").unwrap();
    let ahead = parse_iso_to_unix("2026-03-15T14:30:00.25+05:30").unwrap();
    let behind = parse_iso_to_unix("2026-03-15T14:30:00.25-04:00").unwrap();
    assert_eq!(ahead, IsoTime { secs: zulu.secs - 19800, ..zulu });
    assert_eq!(behind, IsoTime { secs: zulu.secs + 14400, ..zulu });
    assert_eq!(parse_iso_to_unix("2026-03-15T14:30:00.25"), Some(zulu));
}
