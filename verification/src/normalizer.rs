//! From ring entries to kernel inputs.
//!
//! [`normalize`] assembles what the kernel needs to evaluate one market at one time. It returns
//! `None` if any input is missing, stale or degenerate: there are no fallbacks and no defaults.

use crate::db::{parse_stamp, stamp_time, IsoTime, MarketRow};
use crate::feed::meta_text;
use crate::json::{parsed, Json, JsonView};
use crate::kernel::risk::{OracleType, Venue};
use crate::num::{order_is_numeric, Real};
use crate::ring::{
    lookup_reads_last_write, opt_text, Logged, RingEntry, RingSet, RingView, META_CAP,
};
use crate::text;
use crate::text::{begins, uppercase};
use vstd::prelude::*;
use vstd::utf8::{decode_utf8, encode_utf8, valid_utf8};

verus! {

/// All values that the kernel needs to evaluate one market at one time.
///
/// Every number is positive and finite.
pub struct MarketInputs {
    /// BTC/USDT spot price.
    pub spot: Real,
    /// Per-second implied volatility.
    pub sigma_1s: Real,
    /// Reference price of the market's settlement oracle.
    pub oracle_value: Real,
    /// Best YES bid.
    pub best_bid: Real,
    /// Best YES ask.
    pub best_ask: Real,
    /// When the market closes.
    pub close: IsoTime,
    /// The time of the evaluation, in microseconds since the Unix epoch.
    pub now: i64,
    /// Strike price in USD.
    pub strike: Real,
    pub venue: Venue,
    pub oracle_type: OracleType,
    pub ticker: String,
}

/// The inputs, for contracts.
#[verifier::ext_equal]
pub struct InputsView {
    pub spot: Real,
    pub sigma_1s: Real,
    pub oracle_value: Real,
    pub best_bid: Real,
    pub best_ask: Real,
    pub close: IsoTime,
    pub now: i64,
    pub strike: Real,
    pub venue: Venue,
    pub oracle_type: OracleType,
    pub ticker: Seq<char>,
}

impl View for MarketInputs {
    type V = InputsView;

    open spec fn view(&self) -> InputsView {
        InputsView {
            spot: self.spot,
            sigma_1s: self.sigma_1s,
            oracle_value: self.oracle_value,
            best_bid: self.best_bid,
            best_ask: self.best_ask,
            close: self.close,
            now: self.now,
            strike: self.strike,
            venue: self.venue,
            oracle_type: self.oracle_type,
            ticker: self.ticker@,
        }
    }
}

/// The venue of a market, by the venue's name and the market's series in upper case.
pub open spec fn venue_of(venue: Seq<char>, series_upper: Seq<char>) -> Venue {
    if venue == "kalshi"@ {
        if begins(series_upper, "KXBTC"@) {
            Venue::KalshiIndex
        } else {
            Venue::KalshiGeneral
        }
    } else if venue == "polymarket"@ {
        Venue::PolymarketCrypto
    } else {
        Venue::KalshiGeneral
    }
}

/// Maps a venue's name and a series in upper case to the venue.
pub fn venue_in_uppercase(venue_str: &str, series_upper: &str) -> (r: Venue)
    ensures
        r == venue_of(venue_str@, series_upper@),
{
    if text::same(venue_str, "kalshi") {
        if text::starts_with(series_upper, "KXBTC") {
            Venue::KalshiIndex
        } else {
            Venue::KalshiGeneral
        }
    } else if text::same(venue_str, "polymarket") {
        Venue::PolymarketCrypto
    } else {
        Venue::KalshiGeneral
    }
}

/// Maps a venue's name and a series, in any case, to the venue.
///
/// Unknown venues count as Kalshi's general tier, whose fees are highest.
pub fn venue_for(venue_str: &str, series: &str) -> (r: Venue)
    ensures
        r == venue_of(venue_str@, uppercase(series@)),
{
    let upper: String = series.to_uppercase();
    venue_in_uppercase(venue_str, upper.as_str())
}

/// The oracle that a stored name stands for. The daily reference rate has no feed, so it and
/// unknown names stand for none.
pub open spec fn oracle_of(name: Seq<char>) -> Option<OracleType> {
    if name == "brti"@ {
        Some(OracleType::Brti)
    } else if name == "chainlink_streams"@ || name == "chainlink"@ {
        Some(OracleType::ChainlinkStreams)
    } else if name == "binance_1m_candle"@ || name == "binance"@ {
        Some(OracleType::BinanceCandle)
    } else {
        None
    }
}

/// Maps the stored oracle name to the oracle. `None` for oracles without a feed.
pub fn oracle_for(oracle_str: &str) -> (r: Option<OracleType>)
    ensures
        r == oracle_of(oracle_str@),
{
    if text::same(oracle_str, "brti") {
        Some(OracleType::Brti)
    } else if text::same(oracle_str, "chainlink_streams") || text::same(oracle_str, "chainlink") {
        Some(OracleType::ChainlinkStreams)
    } else if text::same(oracle_str, "binance_1m_candle") || text::same(oracle_str, "binance") {
        Some(OracleType::BinanceCandle)
    } else {
        None
    }
}

/// A usable number: positive and finite.
pub open spec fn usable(x: Real) -> bool {
    x.positive() && x.finite()
}

fn is_usable(x: &Real) -> (r: bool)
    ensures
        r == usable(*x),
{
    x.is_positive() && x.is_finite()
}

/// The value of an entry.
pub open spec fn value_of(entry: Option<RingEntry>) -> Option<Real> {
    match entry {
        Some(e) => Some(e.value),
        None => None,
    }
}

/// The value of an entry, where it is positive.
pub open spec fn positive_value(entry: Option<RingEntry>) -> Option<Real> {
    match entry {
        Some(e) => if e.value.positive() {
            Some(e.value)
        } else {
            None
        },
        None => None,
    }
}

/// The first of two values that is there.
pub open spec fn preferred(first: Option<Real>, second: Option<Real>) -> Option<Real> {
    match first {
        Some(v) => Some(v),
        None => second,
    }
}

/// What an oracle reads at a time; stale entries do not count. Chainlink is read from the live
/// relay where that has a fresh positive value, else from the poller.
pub open spec fn oracle_value(rings: RingSet, oracle: OracleType, now: i64) -> Option<Real> {
    match oracle {
        OracleType::Brti => value_of(rings.brti@.fresh_head(now)),
        OracleType::ChainlinkStreams => preferred(
            positive_value(rings.rtds_chainlink@.fresh_head(now)),
            positive_value(rings.chainlink@.fresh_head(now)),
        ),
        OracleType::BinanceCandle => value_of(rings.binance@.fresh_head(now)),
    }
}

fn read_positive(entry: Option<RingEntry>) -> (r: Option<Real>)
    ensures
        r == positive_value(entry),
{
    match entry {
        Some(e) => if e.value.is_positive() {
            Some(e.value)
        } else {
            None
        },
        None => None,
    }
}

fn prefer(first: Option<Real>, second: Option<Real>) -> (r: Option<Real>)
    ensures
        r == preferred(first, second),
{
    match first {
        Some(v) => Some(v),
        None => second,
    }
}

/// Reads an oracle from its ring. `None` where there is no fresh entry.
pub fn read_oracle_value(rings: &RingSet, oracle_type: OracleType, now: i64) -> (r: Option<Real>)
    requires
        rings.wf(),
    ensures
        r == oracle_value(*rings, oracle_type, now),
{
    match oracle_type {
        OracleType::Brti => Some(rings.brti.fresh_head(now)?.value),
        OracleType::ChainlinkStreams => prefer(
            read_positive(rings.rtds_chainlink.fresh_head(now)),
            read_positive(rings.chainlink.fresh_head(now)),
        ),
        OracleType::BinanceCandle => Some(rings.binance.fresh_head(now)?.value),
    }
}

/// The positive finite number under a key of a document.
pub open spec fn positive_field(doc: JsonView, key: Seq<char>) -> Option<Real> {
    match doc.field(key) {
        Some(JsonView::Number(Some(x), _)) => if usable(x) {
            Some(x)
        } else {
            None
        },
        _ => None,
    }
}

/// The positive finite number under a key of a document.
pub fn positive_at(doc: &Json, key: &str) -> (r: Option<Real>)
    ensures
        r == positive_field(doc@, key@),
{
    match doc.get(key) {
        Some(Json::Number(Some(x), _)) => if is_usable(x) {
            Some(*x)
        } else {
            None
        },
        _ => None,
    }
}

/// The document in an entry's meta.
pub open spec fn meta_doc(entry: RingEntry) -> Option<JsonView> {
    match meta_text(entry) {
        Some(s) => parsed(s),
        None => None,
    }
}

fn read_meta(entry: &RingEntry) -> (r: Option<Json>)
    ensures
        match r {
            Some(doc) => meta_doc(*entry) == Some(doc@),
            None => meta_doc(*entry) is None,
        },
{
    match entry.meta_str() {
        Some(s) => Json::parse(s),
        None => None,
    }
}

/// The best bid and ask of a Kalshi entry: its value, and a number of its meta.
pub open spec fn kalshi_quote(value: Real, doc: Option<JsonView>) -> Option<(Real, Real)> {
    match doc {
        Some(doc) => match positive_field(doc, "yes_ask"@) {
            Some(ask) => if value.positive() {
                Some((value, ask))
            } else {
                None
            },
            None => None,
        },
        None => None,
    }
}

/// The best bid and ask of a Polymarket entry: two numbers of its meta.
pub open spec fn poly_quote(doc: Option<JsonView>) -> Option<(Real, Real)> {
    match doc {
        Some(doc) => match (positive_field(doc, "best_bid"@), positive_field(doc, "best_ask"@)) {
            (Some(bid), Some(ask)) => Some((bid, ask)),
            _ => None,
        },
        None => None,
    }
}

/// The best bid and ask of a Kalshi entry, from its value and its meta document.
pub fn quote_of_kalshi(value: Real, doc: &Json) -> (r: Option<(Real, Real)>)
    ensures
        r == kalshi_quote(value, Some(doc@)),
{
    match positive_at(doc, "yes_ask") {
        Some(ask) => if value.is_positive() {
            Some((value, ask))
        } else {
            None
        },
        None => None,
    }
}

/// The best bid and ask of a Polymarket entry, from its meta document.
pub fn quote_of_poly(doc: &Json) -> (r: Option<(Real, Real)>)
    ensures
        r == poly_quote(Some(doc@)),
{
    match positive_at(doc, "best_bid") {
        Some(bid) => match positive_at(doc, "best_ask") {
            Some(ask) => Some((bid, ask)),
            None => None,
        },
        None => None,
    }
}

/// The best bid and ask of a market at a time, from the ring of its venue. Kalshi's ring goes by
/// the ticker, Polymarket's by the token id.
pub open spec fn bbo(
    rings: RingSet,
    venue: Venue,
    ticker: Seq<char>,
    token_id: Option<Seq<char>>,
    now: i64,
) -> Option<(Real, Real)> {
    if venue.polymarket() {
        match token_id {
            Some(id) => if id.len() > 0 {
                match rings.poly_bbo@.lookup(id, now) {
                    Some(e) => poly_quote(meta_doc(e)),
                    None => None,
                }
            } else {
                None
            },
            None => None,
        }
    } else {
        match rings.kalshi_ticker@.lookup(ticker, now) {
            Some(e) => kalshi_quote(e.value, meta_doc(e)),
            None => None,
        }
    }
}

/// Reads the best bid and ask of a market from the ring of its venue. `None` where the entry is
/// absent, stale or without two positive prices.
pub fn read_bbo(
    rings: &RingSet,
    venue: Venue,
    ticker: &str,
    token_id: &Option<String>,
    now: i64,
) -> (r: Option<(Real, Real)>)
    requires
        rings.wf(),
    ensures
        r == bbo(*rings, venue, ticker@, opt_text(*token_id), now),
{
    if venue.is_polymarket() {
        match token_id {
            Some(id) => {
                if id.as_str().is_empty() {
                    return None;
                }
                match rings.poly_bbo.get_by_ticker(id.as_str(), now) {
                    Some(e) => match read_meta(&e) {
                        Some(doc) => quote_of_poly(&doc),
                        None => None,
                    },
                    None => None,
                }
            },
            None => None,
        }
    } else {
        match rings.kalshi_ticker.get_by_ticker(ticker, now) {
            Some(e) => match read_meta(&e) {
                Some(doc) => quote_of_kalshi(e.value, &doc),
                None => None,
            },
            None => None,
        }
    }
}

/// The text of an optional string, empty where there is none.
pub open spec fn text_or_empty(s: Option<String>) -> Seq<char> {
    match s {
        Some(t) => t@,
        None => ""@,
    }
}

pub(crate) fn or_empty(s: &Option<String>) -> (r: &str)
    ensures
        r@ == text_or_empty(*s),
{
    match s {
        Some(t) => t.as_str(),
        None => "",
    }
}

/// The venue of a market.
pub open spec fn market_venue(market: MarketRow) -> Venue {
    venue_of(market.venue@, uppercase(text_or_empty(market.series)))
}

/// When a market closes.
pub open spec fn market_close(market: MarketRow) -> Option<IsoTime> {
    match market.close_time {
        Some(s) => stamp_time(Some(encode_utf8(s@))),
        None => None,
    }
}

/// The kernel's inputs for a market at a time: all of them, or none.
pub open spec fn inputs_of(rings: RingSet, sigma_1s: Real, market: MarketRow, now: i64) -> Option<
    InputsView,
> {
    let venue = market_venue(market);
    match (value_of(rings.binance@.fresh_head(now)), oracle_of(text_or_empty(market.oracle))) {
        (Some(spot), Some(oracle_type)) => match (
            oracle_value(rings, oracle_type, now),
            bbo(rings, venue, market.ticker@, opt_text(market.token_id), now),
            market_close(market),
            market.strike,
        ) {
            (Some(oracle), Some((bid, ask)), Some(close), Some(strike)) => {
                if usable(spot) && usable(sigma_1s) && usable(oracle) && usable(bid) && usable(ask)
                    && close.finite() && close.after(now as int) && usable(strike) {
                    Some(
                        InputsView {
                            spot,
                            sigma_1s,
                            oracle_value: oracle,
                            best_bid: bid,
                            best_ask: ask,
                            close,
                            now,
                            strike,
                            venue,
                            oracle_type,
                            ticker: market.ticker@,
                        },
                    )
                } else {
                    None
                }
            },
            _ => None,
        },
        _ => None,
    }
}

/// Assembles the kernel's inputs for a market from the rings and the current volatility.
///
/// `None` if any input is missing, stale, or not positive and finite.
pub fn normalize(rings: &RingSet, sigma_1s: Real, market: &MarketRow, now: i64) -> (r: Option<
    MarketInputs,
>)
    requires
        rings.wf(),
    ensures
        match r {
            Some(inputs) => inputs_of(*rings, sigma_1s, *market, now) == Some(inputs@),
            None => inputs_of(*rings, sigma_1s, *market, now) is None,
        },
{
    let spot: Real = rings.binance.fresh_head(now)?.value;
    if !is_usable(&spot) || !is_usable(&sigma_1s) {
        return None;
    }
    let oracle_type: OracleType = oracle_for(or_empty(&market.oracle))?;
    let oracle_value: Real = read_oracle_value(rings, oracle_type, now)?;
    if !is_usable(&oracle_value) {
        return None;
    }
    let venue: Venue = venue_for(market.venue.as_str(), or_empty(&market.series));
    let (best_bid, best_ask) = read_bbo(
        rings,
        venue,
        market.ticker.as_str(),
        &market.token_id,
        now,
    )?;
    if !is_usable(&best_bid) || !is_usable(&best_ask) {
        return None;
    }
    let close_text: Option<&str> = match &market.close_time {
        Some(s) => Some(s.as_str()),
        None => None,
    };
    let close: IsoTime = parse_stamp(close_text)?;
    if !close.is_finite() || !close.is_after(now) {
        return None;
    }
    let strike: Real = market.strike?;
    if !is_usable(&strike) {
        return None;
    }
    Some(
        MarketInputs {
            spot,
            sigma_1s,
            oracle_value,
            best_bid,
            best_ask,
            close,
            now,
            strike,
            venue,
            oracle_type,
            ticker: market.ticker.clone(),
        },
    )
}

/// Every number that reaches the kernel is positive and finite, and the market is still open.
pub proof fn inputs_are_usable(rings: RingSet, sigma_1s: Real, market: MarketRow, now: i64)
    ensures
        inputs_of(rings, sigma_1s, market, now) matches Some(i) ==> {
            &&& usable(i.spot)
            &&& usable(i.sigma_1s)
            &&& usable(i.oracle_value)
            &&& usable(i.best_bid)
            &&& usable(i.best_ask)
            &&& usable(i.strike)
            &&& i.now == now
            &&& i.close.after(now as int)
        },
{
}

/// No stale price reaches the kernel: the spot price and the oracle's value each are the value of a
/// ring's newest entry, and that entry is within the ring's window.
pub proof fn inputs_are_fresh(rings: RingSet, sigma_1s: Real, market: MarketRow, now: i64)
    ensures
        inputs_of(rings, sigma_1s, market, now) matches Some(i) ==> {
            &&& rings.binance@.fresh_head(now) matches Some(e) && e.value == i.spot
            &&& match i.oracle_type {
                OracleType::Brti => rings.brti@.fresh_head(now) matches Some(e) && e.value
                    == i.oracle_value,
                OracleType::ChainlinkStreams => {
                    ||| rings.rtds_chainlink@.fresh_head(now) matches Some(e) && e.value
                        == i.oracle_value
                    ||| rings.chainlink@.fresh_head(now) matches Some(e) && e.value
                        == i.oracle_value
                },
                OracleType::BinanceCandle => i.oracle_value == i.spot,
            }
        },
{
}

/// A quote that a venue's feed wrote is the quote that the kernel reads while it is fresh, on
/// either venue: meta that fits its entry is read back whole.
pub proof fn written_quote_is_read(
    rings: RingSet,
    ring: RingView,
    x: Logged,
    key: Seq<char>,
    ts: i64,
    value: Real,
    meta: Seq<u8>,
    venue: Venue,
    ticker: Seq<char>,
    token_id: Option<Seq<char>>,
    now: i64,
)
    requires
        ring.valid(),
        ring.indexed,
        x.entry.records(ring.history.len() as int, ts, value, meta),
        x.ticker == Some(key),
        0 < meta.len() <= META_CAP,
        valid_utf8(meta),
        x.entry.fresh(now, ring.window),
        if venue.polymarket() {
            rings.poly_bbo@ == ring.after_write(x) && token_id == Some(key) && key.len() > 0
        } else {
            rings.kalshi_ticker@ == ring.after_write(x) && ticker == key
        },
    ensures
        bbo(rings, venue, ticker, token_id, now) == if venue.polymarket() {
            poly_quote(parsed(decode_utf8(meta)))
        } else {
            kalshi_quote(value, parsed(decode_utf8(meta)))
        },
{
    lookup_reads_last_write(ring, x, key, now);
    assert(x.entry.meta_bytes() =~= meta);
}

/// What the two sources of displacement read against a spot price.
#[derive(Clone, Copy, Debug, PartialEq, Eq, Structural)]
pub struct OracleReadings {
    pub brti: Option<Real>,
    pub chainlink: Option<Real>,
}

/// What the sources of displacement last read, where the spot price is usable.
pub open spec fn readings_of(rings: RingSet, spot: Real) -> Option<OracleReadings> {
    if usable(spot) {
        Some(
            OracleReadings {
                brti: positive_value(rings.brti@.latest()),
                chainlink: preferred(
                    positive_value(rings.rtds_chainlink@.latest()),
                    positive_value(rings.chainlink@.latest()),
                ),
            },
        )
    } else {
        None
    }
}

/// The newest oracle values to measure the spot price against, whatever their age; `None` where the
/// spot price itself is not usable.
pub fn oracle_readings(rings: &RingSet, spot: Real) -> (r: Option<OracleReadings>)
    requires
        rings.wf(),
    ensures
        r == readings_of(*rings, spot),
{
    if !is_usable(&spot) {
        return None;
    }
    Some(
        OracleReadings {
            brti: read_positive(rings.brti.head()),
            chainlink: prefer(
                read_positive(rings.rtds_chainlink.head()),
                read_positive(rings.chainlink.head()),
            ),
        },
    )
}

/// A usable number is finite and more than zero.
pub proof fn usable_numbers_are_positive(x: Real)
    ensures
        usable(x) <==> x.finite() && x.value() > 0,
{
    if x.finite() {
        order_is_numeric(x, x);
    }
}

/// Kalshi's index series, by how they begin, have their own venue, and its other series share that
/// of all venues that are not known. Polymarket is one venue, whatever the series.
pub proof fn venues_go_by_name_and_series(venue: Seq<char>, series: Seq<char>)
    ensures
        series.len() >= 5 && series.take(5) == "KXBTC"@ ==> venue_of("kalshi"@, series)
            == Venue::KalshiIndex,
        !(series.len() >= 5 && series.take(5) == "KXBTC"@) ==> venue_of("kalshi"@, series)
            == Venue::KalshiGeneral,
        venue_of("polymarket"@, series) == Venue::PolymarketCrypto,
        venue != "kalshi"@ && venue != "polymarket"@ ==> venue_of(venue, series)
            == Venue::KalshiGeneral,
{
    reveal_strlit("kalshi");
    reveal_strlit("polymarket");
    reveal_strlit("KXBTC");
    assert("kalshi"@.len() != "polymarket"@.len());
    if series.len() >= 5 {
        assert(series.subrange(0, 5) =~= series.take(5));
    }
}

/// Each oracle is known by its stored names, and what is not one of these names has no feed.
pub proof fn oracles_go_by_their_names(name: Seq<char>)
    ensures
        oracle_of(name) == Some(OracleType::Brti) <==> name == "brti"@,
        oracle_of(name) == Some(OracleType::ChainlinkStreams) <==> name == "chainlink_streams"@
            || name == "chainlink"@,
        oracle_of(name) == Some(OracleType::BinanceCandle) <==> name == "binance_1m_candle"@ || name
            == "binance"@,
        oracle_of("brr"@) is None,
{
    reveal_strlit("brti");
    reveal_strlit("brr");
    reveal_strlit("chainlink_streams");
    reveal_strlit("chainlink");
    reveal_strlit("binance_1m_candle");
    reveal_strlit("binance");
    assert("brti"@.len() == 4 && "brr"@.len() == 3 && "chainlink"@.len() == 9);
    assert("chainlink_streams"@.len() == 17 && "binance_1m_candle"@.len() == 17);
    assert("binance"@.len() == 7);
    assert("chainlink_streams"@[0] == 'c' && "binance_1m_candle"@[0] == 'b');
}

/// Each oracle reads its own ring. Chainlink reads the live relay as long as that is fresh and
/// positive, and the poller otherwise; a stale ring reads as nothing.
pub proof fn oracles_read_their_own_ring(rings: RingSet, e: RingEntry, polled: RingEntry, now: i64)
    requires
        e.value.finite(),
        polled.value.finite(),
    ensures
        rings.brti@.fresh_head(now) == Some(e) ==> oracle_value(rings, OracleType::Brti, now)
            == Some(e.value),
        rings.brti@.fresh_head(now) is None ==> oracle_value(rings, OracleType::Brti, now) is None,
        rings.binance@.fresh_head(now) == Some(e) ==> oracle_value(
            rings,
            OracleType::BinanceCandle,
            now,
        ) == Some(e.value),
        rings.binance@.fresh_head(now) is None ==> oracle_value(
            rings,
            OracleType::BinanceCandle,
            now,
        ) is None,
        rings.rtds_chainlink@.fresh_head(now) == Some(e) && e.value.value() > 0 ==> oracle_value(
            rings,
            OracleType::ChainlinkStreams,
            now,
        ) == Some(e.value),
        rings.rtds_chainlink@.fresh_head(now) is None && rings.chainlink@.fresh_head(now) == Some(e)
            ==> oracle_value(rings, OracleType::ChainlinkStreams, now) == if e.value.value() > 0 {
            Some(e.value)
        } else {
            None
        },
        rings.rtds_chainlink@.fresh_head(now) == Some(e) && e.value.value() <= 0
            && rings.chainlink@.fresh_head(now) is None ==> oracle_value(
            rings,
            OracleType::ChainlinkStreams,
            now,
        ) is None,
        rings.rtds_chainlink@.fresh_head(now) == Some(e) && e.value.value() <= 0
            && rings.chainlink@.fresh_head(now) == Some(polled) && polled.value.value() > 0
            ==> oracle_value(rings, OracleType::ChainlinkStreams, now) == Some(polled.value),
{
    order_is_numeric(e.value, e.value);
    order_is_numeric(polled.value, polled.value);
}

/// An entry is fresh while it is younger than the window of its ring, and an entry without a time
/// never is.
pub proof fn heads_are_fresh_within_the_window(ring: RingView, now: i64)
    ensures
        ring.history.len() == 0 ==> ring.fresh_head(now) is None,
        ring.history.len() > 0 ==> {
            let e = ring.history[ring.history.len() - 1].entry;
            ring.fresh_head(now) == if e.ts > 0 && now - e.ts < ring.window {
                Some(e)
            } else {
                None
            }
        },
{
}

/// The quotes of a market are two positive numbers: Kalshi's bid is the value of the entry and its
/// ask stands under `yes_ask`, Polymarket's stand under `best_bid` and `best_ask`. One that is
/// missing or not positive leaves the market without quotes.
pub proof fn quotes_are_two_positive_numbers(
    doc: JsonView,
    value: Real,
    bid: Real,
    ask: Real,
    a: Seq<char>,
    b: Seq<char>,
)
    requires
        value.finite(),
        bid.finite(),
        ask.finite(),
    ensures
        doc.field("yes_ask"@) == Some(JsonView::Number(Some(ask), a)) ==> kalshi_quote(
            value,
            Some(doc),
        ) == if value.value() > 0 && ask.value() > 0 {
            Some((value, ask))
        } else {
            None
        },
        doc.field("best_bid"@) == Some(JsonView::Number(Some(bid), b)) && doc.field("best_ask"@)
            == Some(JsonView::Number(Some(ask), a)) ==> poly_quote(Some(doc)) == if bid.value() > 0
            && ask.value() > 0 {
            Some((bid, ask))
        } else {
            None
        },
        !(doc.field("yes_ask"@) matches Some(JsonView::Number(_, _))) ==> kalshi_quote(
            value,
            Some(doc),
        ) is None,
        !(doc.field("best_bid"@) matches Some(JsonView::Number(_, _))) || !(doc.field("best_ask"@)
            matches Some(JsonView::Number(_, _))) ==> poly_quote(Some(doc)) is None,
        doc.field("yes_ask"@) == Some(JsonView::Number(None, a)) ==> kalshi_quote(value, Some(doc))
            is None,
        doc.field("best_bid"@) == Some(JsonView::Number(None, a)) || doc.field("best_ask"@) == Some(
            JsonView::Number(None, a),
        ) ==> poly_quote(Some(doc)) is None,
        kalshi_quote(value, None) is None && poly_quote(None) is None,
{
    usable_numbers_are_positive(value);
    usable_numbers_are_positive(bid);
    usable_numbers_are_positive(ask);
}

/// Kalshi's quotes are looked up by ticker and Polymarket's by token id, each in its own ring: a
/// key that reads as absent there has no quotes.
pub proof fn quotes_come_from_the_ring_of_the_venue(
    rings: RingSet,
    ticker: Seq<char>,
    id: Seq<char>,
    now: i64,
    venue: Venue,
    token_id: Option<Seq<char>>,
)
    ensures
        venue == Venue::KalshiIndex || venue == Venue::KalshiGeneral ==> {
            &&& rings.kalshi_ticker@.lookup(ticker, now) is None ==> bbo(
                rings,
                venue,
                ticker,
                token_id,
                now,
            ) is None
            &&& rings.kalshi_ticker@.lookup(ticker, now) matches Some(e) ==> bbo(
                rings,
                venue,
                ticker,
                token_id,
                now,
            ) == kalshi_quote(e.value, meta_doc(e))
        },
        venue == Venue::PolymarketCrypto || venue == Venue::PolymarketSports ==> {
            &&& bbo(rings, venue, ticker, None, now) is None
            &&& bbo(rings, venue, ticker, Some(Seq::empty()), now) is None
            &&& rings.poly_bbo@.lookup(id, now) is None ==> bbo(
                rings,
                venue,
                ticker,
                Some(id),
                now,
            ) is None
            &&& id.len() > 0 ==> (rings.poly_bbo@.lookup(id, now) matches Some(e) ==> bbo(
                rings,
                venue,
                ticker,
                Some(id),
                now,
            ) == poly_quote(meta_doc(e)))
        },
{
}

/// The kernel gets what was read, each value in its own place.
pub proof fn inputs_are_what_was_read(rings: RingSet, sigma_1s: Real, market: MarketRow, now: i64)
    ensures
        inputs_of(rings, sigma_1s, market, now) matches Some(i) ==> {
            &&& i.sigma_1s == sigma_1s
            &&& market.strike == Some(i.strike)
            &&& i.ticker == market.ticker@
            &&& i.now == now
            &&& market.close_time matches Some(s) && stamp_time(Some(encode_utf8(s@))) == Some(
                i.close,
            )
            &&& market.oracle matches Some(s) && oracle_of(s@) == Some(i.oracle_type)
            &&& oracle_value(rings, i.oracle_type, now) == Some(i.oracle_value)
            &&& i.venue == venue_of(
                market.venue@,
                uppercase(
                    match market.series {
                        Some(s) => s@,
                        None => ""@,
                    },
                ),
            )
            &&& bbo(
                rings,
                i.venue,
                market.ticker@,
                match market.token_id {
                    Some(s) => Some(s@),
                    None => None,
                },
                now,
            ) == Some((i.best_bid, i.best_ask))
        },
{
    reveal_strlit("");
    oracles_go_by_their_names(""@);
    reveal_strlit("brti");
    reveal_strlit("chainlink_streams");
    reveal_strlit("chainlink");
    reveal_strlit("binance_1m_candle");
    reveal_strlit("binance");
    assert(""@.len() == 0);
    assert("brti"@.len() == 4 && "chainlink"@.len() == 9 && "binance"@.len() == 7);
    assert("chainlink_streams"@.len() == 17 && "binance_1m_candle"@.len() == 17);
}

/// A market of which everything is there, fresh, finite and positive, and that closes later, has
/// inputs: nothing else is asked for.
pub proof fn complete_markets_have_inputs(
    rings: RingSet,
    sigma_1s: Real,
    market: MarketRow,
    now: i64,
    spot: RingEntry,
    oracle: OracleType,
    value: Real,
    bid: Real,
    ask: Real,
    close: IsoTime,
    strike: Real,
)
    requires
        rings.binance@.fresh_head(now) == Some(spot),
        market.oracle matches Some(name) && oracle_of(name@) == Some(oracle),
        oracle_value(rings, oracle, now) == Some(value),
        bbo(rings, market_venue(market), market.ticker@, opt_text(market.token_id), now) == Some(
            (bid, ask),
        ),
        market.close_time matches Some(s) && stamp_time(Some(encode_utf8(s@))) == Some(close),
        close.finite(),
        close.after(now as int),
        market.strike == Some(strike),
        spot.value.finite() && spot.value.value() > 0,
        sigma_1s.finite() && sigma_1s.value() > 0,
        value.finite() && value.value() > 0,
        bid.finite() && bid.value() > 0,
        ask.finite() && ask.value() > 0,
        strike.finite() && strike.value() > 0,
    ensures
        inputs_of(rings, sigma_1s, market, now) matches Some(i) && i.spot == spot.value
            && i.oracle_value == value,
{
    usable_numbers_are_positive(spot.value);
    usable_numbers_are_positive(sigma_1s);
    usable_numbers_are_positive(value);
    usable_numbers_are_positive(bid);
    usable_numbers_are_positive(ask);
    usable_numbers_are_positive(strike);
}

/// The displacement of an oracle is measured against what it last read, whatever its age, where
/// that is positive; Chainlink's against the live relay before the poller.
pub proof fn readings_are_the_last_positive_values(rings: RingSet, spot: Real, e: RingEntry)
    requires
        spot.finite(),
        e.value.finite(),
    ensures
        readings_of(rings, spot) is Some <==> spot.value() > 0,
        readings_of(rings, spot) matches Some(r) ==> {
            &&& rings.brti@.latest() is None ==> r.brti is None
            &&& rings.brti@.latest() == Some(e) ==> r.brti == if e.value.value() > 0 {
                Some(e.value)
            } else {
                None
            }
            &&& rings.rtds_chainlink@.latest() == Some(e) && e.value.value() > 0 ==> r.chainlink
                == Some(e.value)
            &&& rings.rtds_chainlink@.latest() is None && rings.chainlink@.latest() == Some(e)
                ==> r.chainlink == if e.value.value() > 0 {
                Some(e.value)
            } else {
                None
            }
        },
{
    usable_numbers_are_positive(spot);
    order_is_numeric(e.value, e.value);
}

} // verus!
