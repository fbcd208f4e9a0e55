use mantis_hybrid::num::Real;
use mantis_hybrid::ring::{RingEntry, RingSet, SourceRing, META_CAP};

fn r(x: f64) -> Real {
    Real { bits: x.to_bits() }
}

fn us(secs: f64) -> i64 {
    (secs * 1_000_000.0).round() as i64
}

// -- RingEntry -----------------------------------------------------------

#[test]
fn entry_size_is_160_bytes() {
    assert_eq!(std::mem::size_of::<RingEntry>(), 160);
}

#[test]
fn entry_default_is_zero() {
    let e = RingEntry::default();
    assert_eq!(e.seq, 0);
    assert_eq!(e.ts, us(0.0));
    assert_eq!(e.value, r(0.0));
    assert_eq!(e.meta_len, 0);
    assert_eq!(e.meta, [0u8; META_CAP]);
}

#[test]
fn entry_meta_str_empty() {
    let e = RingEntry::default();
    assert!(e.meta_str().is_none());
}

#[test]
fn entry_meta_str_decode() {
    let mut e = RingEntry::default();
    let s = b"{\"v\":1.0}";
    e.meta[..s.len()].copy_from_slice(s);
    e.meta_len = s.len() as u32;
    assert_eq!(e.meta_str(), Some("{\"v\":1.0}"));
}

#[test]
fn entry_is_fresh_new() {
    let now = 1_700_000_100.0_f64;
    let e = RingEntry {
        ts: us(now - 10.0),
        value: r(1.0),
        ..Default::default()
    };
    assert!(e.is_fresh(us(now), us(300.0)));
}

#[test]
fn entry_is_fresh_stale() {
    let now = 1_700_000_100.0_f64;
    let e = RingEntry {
        ts: us(now - 400.0),
        value: r(1.0),
        ..Default::default()
    };
    assert!(!e.is_fresh(us(now), us(300.0)));
}

#[test]
fn entry_is_fresh_zero_ts() {
    let e = RingEntry::default(); // ts = 0.0
    assert!(!e.is_fresh(us(1_700_000_000.0), us(300.0)));
}

// -- SourceRing basic ----------------------------------------------------

#[test]
fn empty_ring_head_is_none() {
    let ring = SourceRing::new(16, us(300.0), false);
    assert!(ring.head().is_none());
}

#[test]
fn write_and_head_roundtrip() {
    let mut ring = SourceRing::new(16, us(300.0), false);
    ring.write(us(1_700_000_000.0), r(95123.45), b"{\"q\":\"0.001\"}", None);
    let e = ring.head().unwrap();
    assert_eq!(e.seq, 0); // first write, write_idx was 0
    assert_eq!(e.ts, us(1_700_000_000.0));
    assert_eq!(e.value, r(95123.45));
    assert_eq!(e.meta_str(), Some("{\"q\":\"0.001\"}"));
}

#[test]
fn seq_increments_with_writes() {
    let mut ring = SourceRing::new(16, us(300.0), false);
    ring.write(us(1.0), r(1.0), b"", None);
    ring.write(us(2.0), r(2.0), b"", None);
    ring.write(us(3.0), r(3.0), b"", None);
    let e = ring.head().unwrap();
    assert_eq!(e.seq, 2); // third write, write_idx was 2
}

#[test]
fn seq_survives_ring_wrap() {
    // capacity = 4, write 6 entries — seq should be 5 for the last entry
    let mut ring = SourceRing::new(4, us(300.0), false);
    for i in 0..6u64 {
        ring.write(us(i as f64), r(i as f64), b"", None);
    }
    let e = ring.head().unwrap();
    assert_eq!(e.seq, 5); // 6th write, write_idx was 5
    assert_eq!(e.ts, us(5.0));
}

#[test]
fn head_returns_latest_after_multiple_writes() {
    let mut ring = SourceRing::new(16, us(300.0), false);
    ring.write(us(1.0), r(1.0), b"a", None);
    ring.write(us(2.0), r(2.0), b"b", None);
    ring.write(us(3.0), r(3.0), b"c", None);
    let e = ring.head().unwrap();
    assert_eq!(e.ts, us(3.0));
    assert_eq!(e.value, r(3.0));
}

#[test]
fn ring_wraps_correctly_oldest_evicted() {
    // capacity = 4, write 5 entries — first should be evicted
    let mut ring = SourceRing::new(4, us(300.0), false);
    for i in 0..5_u64 {
        ring.write(us(i as f64), r(i as f64), b"", None);
    }
    // head should be the 5th entry (ts=4.0)
    assert_eq!(ring.head().unwrap().ts, us(4.0));
    assert_eq!(ring.write_count(), 5);
}

#[test]
fn write_count_monotonically_increases() {
    let mut ring = SourceRing::new(16, us(300.0), false);
    assert_eq!(ring.write_count(), 0);
    ring.write(us(1.0), r(1.0), b"", None);
    assert_eq!(ring.write_count(), 1);
    ring.write(us(2.0), r(2.0), b"", None);
    assert_eq!(ring.write_count(), 2);
}

#[test]
fn meta_truncated_at_meta_cap() {
    let mut ring = SourceRing::new(16, us(300.0), false);
    let big_meta = vec![b'x'; META_CAP + 50];
    ring.write(us(1.0), r(1.0), &big_meta, None);
    let e = ring.head().unwrap();
    assert_eq!(e.meta_len as usize, META_CAP);
    // All bytes within META_CAP should be 'x'
    assert!(e.meta.iter().all(|&b| b == b'x'));
}

#[test]
fn meta_remainder_zeroed_after_shorter_write() {
    let mut ring = SourceRing::new(16, us(300.0), false);
    // Write a long entry first
    ring.write(us(1.0), r(1.0), &[b'A'; 100], None);
    // Then a shorter one into the same slot would only happen after wrap;
    // but we can write two entries and check the second one's meta is clean
    ring.write(us(2.0), r(2.0), b"short", None);
    let e = ring.head().unwrap();
    assert_eq!(e.meta_len, 5);
    assert_eq!(&e.meta[..5], b"short");
    // Remainder should be zeros, not leftover from previous entry
    assert!(e.meta[5..].iter().all(|&b| b == 0));
}

// -- Ticker index --------------------------------------------------------

#[test]
fn no_ticker_index_returns_none() {
    let ring = SourceRing::new(16, us(300.0), false); // no index
    assert!(ring.get_by_ticker("FOO", us(1_700_000_000.0)).is_none());
}

#[test]
fn ticker_index_write_and_get() {
    let mut ring = SourceRing::new(16, us(300.0), true);
    let now = 1_700_000_000.0_f64;
    ring.write(us(now), r(0.48), b"{\"best_ask\":0.50}", Some("KXBTCD-T70000"));
    let e = ring.get_by_ticker("KXBTCD-T70000", us(now + 1.0)).unwrap();
    assert_eq!(e.value, r(0.48));
    assert_eq!(e.meta_str(), Some("{\"best_ask\":0.50}"));
}

#[test]
fn ticker_index_unknown_ticker_returns_none() {
    let ring = SourceRing::new(16, us(300.0), true);
    assert!(ring.get_by_ticker("NOTEXIST", us(1_700_000_000.0)).is_none());
}

#[test]
fn ticker_index_stale_returns_none() {
    let mut ring = SourceRing::new(16, us(30.0), true); // 30s window
    let old_ts = 1_700_000_000.0_f64;
    ring.write(us(old_ts), r(0.48), b"", Some("KXBTCD-T70000"));
    // Query 60s later — entry is outside 30s window
    let now = old_ts + 60.0;
    assert!(ring.get_by_ticker("KXBTCD-T70000", us(now)).is_none());
}

#[test]
fn ticker_index_lapped_returns_none_aba_guard() {
    // capacity = 4, write 5 entries for same ticker — ring laps
    let mut ring = SourceRing::new(4, us(300.0), true);
    let now = 1_700_000_000.0_f64;
    ring.write(us(now), r(0.48), b"", Some("KXBTCD-T70000"));
    // Overwrite with different tickers to lap the first slot
    for i in 1..5u64 {
        ring.write(us(now + i as f64), r(i as f64), b"", Some("OTHER"));
    }
    // The indexed slot for KXBTCD-T70000 has been lapped.
    // ABA guard: entry.seq (now written by OTHER at write_idx=4) != mono_idx (0).
    assert!(ring.get_by_ticker("KXBTCD-T70000", us(now + 5.0)).is_none());
}

#[test]
fn ticker_index_multiple_markets_independent() {
    let mut ring = SourceRing::new(64, us(300.0), true);
    let now = 1_700_000_000.0_f64;
    ring.write(us(now), r(0.40), b"a", Some("MARKET-A"));
    ring.write(us(now), r(0.60), b"b", Some("MARKET-B"));
    ring.write(us(now), r(0.80), b"c", Some("MARKET-C"));

    let a = ring.get_by_ticker("MARKET-A", us(now + 1.0)).unwrap();
    let b = ring.get_by_ticker("MARKET-B", us(now + 1.0)).unwrap();
    let c = ring.get_by_ticker("MARKET-C", us(now + 1.0)).unwrap();
    assert_eq!(a.value, r(0.40));
    assert_eq!(b.value, r(0.60));
    assert_eq!(c.value, r(0.80));
}

#[test]
fn ticker_index_updated_on_each_write() {
    let mut ring = SourceRing::new(16, us(300.0), true);
    let now = 1_700_000_000.0_f64;
    ring.write(us(now), r(0.40), b"", Some("KXBTCD-T70000"));
    ring.write(us(now + 1.0), r(0.42), b"", Some("KXBTCD-T70000"));
    ring.write(us(now + 2.0), r(0.45), b"", Some("KXBTCD-T70000"));
    // Should return the latest
    let e = ring.get_by_ticker("KXBTCD-T70000", us(now + 3.0)).unwrap();
    assert_eq!(e.value, r(0.45));
    assert_eq!(e.ts, us(now + 2.0));
}

// -- Flush drain ---------------------------------------------------------

#[test]
fn flush_drain_empty_ring_returns_empty() {
    let mut ring = SourceRing::new(16, us(300.0), false);
    assert!(ring.flush_drain("binance").is_empty());
}

#[test]
fn flush_drain_returns_all_entries() {
    let mut ring = SourceRing::new(16, us(300.0), false);
    ring.write(us(1.0), r(10.0), b"", None);
    ring.write(us(2.0), r(20.0), b"", None);
    ring.write(us(3.0), r(30.0), b"", None);
    let drained = ring.flush_drain("binance");
    assert_eq!(drained.len(), 3);
    assert!(drained.iter().all(|(src, _, _)| *src == "binance"));
    assert_eq!(drained[0].1.value, r(10.0));
    assert_eq!(drained[1].1.value, r(20.0));
    assert_eq!(drained[2].1.value, r(30.0));
}

#[test]
fn flush_drain_respects_cursor() {
    let mut ring = SourceRing::new(16, us(300.0), false);
    ring.write(us(1.0), r(1.0), b"", None);
    ring.write(us(2.0), r(2.0), b"", None);
    let first = ring.flush_drain("binance");
    assert_eq!(first.len(), 2);

    ring.write(us(3.0), r(3.0), b"", None);
    let second = ring.flush_drain("binance");
    assert_eq!(second.len(), 1);
    assert_eq!(second[0].1.value, r(3.0));

    // Third drain with nothing new
    let third = ring.flush_drain("binance");
    assert!(third.is_empty());
}

#[test]
fn flush_drain_lapped_advances_cursor() {
    // capacity = 4, write 6 entries — flusher drains after all 6
    let mut ring = SourceRing::new(4, us(300.0), false);
    for i in 1..=6u64 {
        ring.write(us(i as f64), r(i as f64), b"", None);
    }
    // Flusher hasn't drained yet (cursor=0). Ring has lapped.
    // flush_drain should advance cursor to write_idx - capacity (= 2)
    // and return the 4 available entries (entries 3..=6).
    let drained = ring.flush_drain("binance");
    assert_eq!(drained.len(), 4);
    // Entries 1 and 2 were missed
    assert_eq!(drained[0].1.ts, us(3.0));
    assert_eq!(drained[3].1.ts, us(6.0));
}

#[test]
fn pending_flush_counts_correctly() {
    let mut ring = SourceRing::new(16, us(300.0), false);
    assert_eq!(ring.pending_flush(), 0);
    ring.write(us(1.0), r(1.0), b"", None);
    ring.write(us(2.0), r(2.0), b"", None);
    assert_eq!(ring.pending_flush(), 2);
    ring.flush_drain("binance");
    assert_eq!(ring.pending_flush(), 0);
}

// -- RingSet -------------------------------------------------------------

#[test]
fn ringset_new_allocates_all_19_rings() {
    let rings = RingSet::new();
    // Spot check capacities
    assert_eq!(rings.binance.capacity, 300);
    assert_eq!(rings.deribit_ws.capacity, 1500);
    assert_eq!(rings.poly_price.capacity, 2400);
    assert_eq!(rings.poly_resolved.capacity, 32);
}

#[test]
fn ringset_drain_all_collects_from_all_rings() {
    let mut rings = RingSet::new();
    rings.binance.write(us(1.0), r(95000.0), b"", None);
    rings.brti.write(us(2.0), r(94990.0), b"", None);
    rings
        .kalshi_ticker
        .write(us(3.0), r(0.48), b"", Some("KXBTCD-T70000"));

    let drained = rings.drain_all();
    assert_eq!(drained.len(), 3);

    let sources: Vec<&str> = drained.iter().map(|(s, _, _)| *s).collect();
    assert!(sources.contains(&"binance"));
    assert!(sources.contains(&"brti"));
    assert!(sources.contains(&"kalshi_ticker"));
}

#[test]
fn ringset_total_pending_flush() {
    let mut rings = RingSet::new();
    assert_eq!(rings.total_pending_flush(), 0);
    rings.binance.write(us(1.0), r(1.0), b"", None);
    rings.binance.write(us(2.0), r(2.0), b"", None);
    rings.deribit_ws.write(us(3.0), r(50.0), b"", None);
    assert_eq!(rings.total_pending_flush(), 3);
}

#[test]
fn ringset_approximate_memory_footprint() {
    // Total slots across all 19 rings
    let rings = RingSet::new();
    let capacities: [usize; 19] = [
        rings.binance.capacity,
        rings.brti.capacity,
        rings.rtds_chainlink.capacity,
        rings.rtds_binance.capacity,
        rings.chainlink.capacity,
        rings.deribit_iv.capacity,
        rings.deribit_iv_computed.capacity,
        rings.deribit_ws.capacity,
        rings.hyperliquid.capacity,
        rings.hyperliquid_trades.capacity,
        rings.hyperliquid_l2.capacity,
        rings.kalshi_book.capacity,
        rings.kalshi_delta.capacity,
        rings.kalshi_ticker.capacity,
        rings.poly_book.capacity,
        rings.poly_bbo.capacity,
        rings.poly_price.capacity,
        rings.poly_trade.capacity,
        rings.poly_resolved.capacity,
    ];
    let total_slots: usize = capacities.iter().sum();
    let total_bytes = total_slots * std::mem::size_of::<RingEntry>();
    // Should be well under 2 MB
    assert!(
        total_bytes < 2 * 1024 * 1024,
        "ring memory {total_bytes} bytes exceeds 2 MB"
    );
    // Should be at least 800 KB (our estimate was ~1 MB)
    assert!(
        total_bytes > 800 * 1024,
        "ring memory {total_bytes} bytes seems too small — check capacities"
    );
}

#[test]
fn ring_indexed_by_ticker_drains_with_tickers() {
    let mut ring = SourceRing::new(8, us(30.0), true);
    ring.write(us(1.0), r(0.1), b"a", Some("A"));
    ring.write(us(2.0), r(0.2), b"b", None);
    ring.write(us(3.0), r(0.3), b"c", Some("C"));
    let drained = ring.flush_drain("kalshi_ticker");
    let tickers: Vec<Option<&str>> = drained.iter().map(|d| d.2.as_deref()).collect();
    assert_eq!(tickers, vec![Some("A"), None, Some("C")]);
    // Draining does not change what the kernel reads.
    assert_eq!(ring.get_by_ticker("A", us(4.0)).unwrap().value, r(0.1));
    assert_eq!(ring.head().unwrap().value, r(0.3));
}

#[test]
fn ring_without_index_keeps_no_tickers() {
    let mut ring = SourceRing::new(8, us(30.0), false);
    ring.write(us(1.0), r(0.1), b"", Some("A"));
    assert!(ring.get_by_ticker("A", us(2.0)).is_none());
    assert!(ring.flush_drain("binance")[0].2.is_none());
}

#[test]
fn ticker_survives_until_its_slot_is_overwritten() {
    let mut ring = SourceRing::new(4, us(300.0), true);
    ring.write(us(1.0), r(1.0), b"", Some("A"));
    for i in 2..5 {
        ring.write(us(i as f64), r(i as f64), b"", Some("B"));
    }
    assert_eq!(ring.get_by_ticker("A", us(5.0)).unwrap().seq, 0);
    ring.write(us(5.0), r(5.0), b"", None);
    assert!(ring.get_by_ticker("A", us(5.0)).is_none());
}

#[test]
fn freshness_ends_at_the_window() {
    let mut e = RingEntry::default();
    e.ts = us(100.0);
    assert!(e.is_fresh(us(129.999999), us(30.0)));
    assert!(!e.is_fresh(us(130.0), us(30.0)));
    assert!(e.is_fresh(i64::MIN, us(30.0)));
}

#[test]
fn meta_that_is_not_utf8_reads_as_none() {
    let mut ring = SourceRing::new(4, us(30.0), false);
    ring.write(us(1.0), r(1.0), &[0xff, 0xfe], None);
    assert!(ring.head().unwrap().meta_str().is_none());
    ring.write(us(2.0), r(2.0), "né".as_bytes(), None);
    assert_eq!(ring.head().unwrap().meta_str(), Some("né"));
}

#[test]
fn write_at_a_full_backlog_drops_the_oldest_pending() {
    let mut ring = SourceRing::new(4, us(30.0), false);
    for i in 0..4 {
        ring.write(us(1.0), r(i as f64), b"", None);
    }
    assert_eq!(ring.pending_flush(), 4);
    ring.write(us(1.0), r(4.0), b"", None);
    assert_eq!(ring.pending_flush(), 5);
    let values: Vec<Real> = ring.flush_drain("binance").iter().map(|d| d.1.value).collect();
    assert_eq!(values, vec![r(1.0), r(2.0), r(3.0), r(4.0)]);
    assert_eq!(ring.pending_flush(), 0);
}

#[test]
fn ringset_default_is_new() {
    let rings = RingSet::default();
    assert_eq!(rings.kalshi_book.capacity, 180);
    assert_eq!(rings.hyperliquid.window, us(60.0));
    assert_eq!(rings.total_pending_flush(), 0);
}

#[test]
fn ringset_is_send_and_sync() {
    fn assert_send_sync<T: Send + Sync>() {}
    assert_send_sync::<RingSet>();
    assert_send_sync::<std::sync::Arc<RingSet>>();
}
