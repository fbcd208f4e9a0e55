//! Kalshi: market listings, order books and resolutions.

use crate::db::BookSnapshotRow;
use crate::json::{decimal, opt_str, parse_decimal, trees, Json, JsonView};
use crate::normalizer::oracle_of;
use crate::num::{order_is_numeric, Real, INFINITY_BITS};
use crate::ring::opt_text;
use crate::text;
use crate::text::{begins, first_chars};
use crate::venue::{
    book_snapshot, level_from, parse_positive, snapshot_of_book, BookFigures, Level,
};
use vstd::prelude::*;
use vstd::string::StringExecFns;

verus! {

/// Characters of a market's rules that are kept.
pub const RULES_MAX: usize = 2000;

/// The BTC series that are queried.
pub fn kalshi_series() -> (r: [&'static str; 4])
    ensures
        r@[0]@ == "KXBTC15M"@,
        r@[1]@ == "KXBTCD"@,
        r@[2]@ == "KXBTC"@,
        r@[3]@ == "BTCD"@,
{
    ["KXBTC15M", "KXBTCD", "KXBTC", "BTCD"]
}

/// The kind of market in a series.
pub open spec fn series_market_type(series: Seq<char>) -> Seq<char> {
    if series == "KXBTC15M"@ {
        "up_down_15m"@
    } else if series == "KXBTCD"@ {
        "above_below_hourly"@
    } else if series == "KXBTC"@ {
        "range_hourly"@
    } else if series == "BTCD"@ {
        "above_below_daily"@
    } else {
        "unknown"@
    }
}

/// Maps a series ticker to a market type. KXBTCD is hourly, BTCD is daily.
pub fn market_type_for_series(series: &str) -> (r: &'static str)
    ensures
        r@ == series_market_type(series@),
{
    if text::same(series, "KXBTC15M") {
        "up_down_15m"
    } else if text::same(series, "KXBTCD") {
        "above_below_hourly"
    } else if text::same(series, "KXBTC") {
        "range_hourly"
    } else if text::same(series, "BTCD") {
        "above_below_daily"
    } else {
        "unknown"
    }
}

/// The index that a series resolves on: daily markets on the reference rate, all others on the
/// real-time index.
pub open spec fn series_oracle(series: Seq<char>) -> Seq<char> {
    if begins(series, "BTCD"@) {
        "brr"@
    } else {
        "brti"@
    }
}

/// Maps a series ticker to its resolution oracle.
pub fn oracle_for_series(series: &str) -> (r: &'static str)
    ensures
        r@ == series_oracle(series@),
{
    if text::starts_with(series, "BTCD") {
        "brr"
    } else {
        "brti"
    }
}

/// What stands before the last `c`; `None` where there is none.
pub open spec fn before_last(s: Seq<char>, c: char) -> Option<Seq<char>>
    decreases s.len(),
{
    if s.len() == 0 {
        None
    } else if s.last() == c {
        Some(s.drop_last())
    } else {
        before_last(s.drop_last(), c)
    }
}

/// The event of a ticker: everything up to the last `-`, or all of it.
pub open spec fn event_of(ticker: Seq<char>) -> Seq<char> {
    match before_last(ticker, '-') {
        Some(prefix) => prefix,
        None => ticker,
    }
}

/// Extracts the event ticker from a market ticker: everything up to the last `-`.
pub fn kalshi_event_ticker(ticker: &str) -> (r: String)
    ensures
        r@ == event_of(ticker@),
{
    let chars: Vec<char> = text::chars_of(ticker);
    let mut i: usize = chars.len();
    assert(ticker@.take(i as int) =~= ticker@);
    while i > 0
        invariant
            i <= chars@.len(),
            chars@ == ticker@,
            before_last(ticker@, '-') == before_last(ticker@.take(i as int), '-'),
        decreases i,
    {
        assert(ticker@.take(i as int).drop_last() =~= ticker@.take(i - 1));
        if chars[i - 1] == '-' {
            let prefix: &str = ticker.substring_char(0, i - 1);
            assert(prefix@ =~= ticker@.take(i - 1));
            return prefix.to_owned();
        }
        i -= 1;
    }
    ticker.to_owned()
}

pub open spec fn is_digit(c: char) -> bool {
    48 <= c as int && c as int <= 57
}

/// The digits and commas that a text begins with.
pub open spec fn amount_run(s: Seq<char>) -> Seq<char>
    decreases s.len(),
{
    if s.len() > 0 && (is_digit(s[0]) || s[0] == ',') {
        seq![s[0]] + amount_run(s.drop_first())
    } else {
        Seq::empty()
    }
}

/// The digits that a text begins with, commas among them left out.
pub open spec fn amount_digits(s: Seq<char>) -> Seq<char> {
    amount_run(s).filter(|c: char| c != ',')
}

/// The digits of the first dollar amount of a text: a `$` followed by digits, commas among them
/// ignored.
pub open spec fn dollar_digits(s: Seq<char>) -> Option<Seq<char>>
    decreases s.len(),
{
    if s.len() == 0 {
        None
    } else {
        let rest = s.drop_first();
        if s[0] == '$' && amount_digits(rest).len() > 0 {
            Some(amount_digits(rest))
        } else {
            dollar_digits(rest)
        }
    }
}

/// A number read from a row of digits: infinity where it was too large to read.
pub open spec fn read_or_infinite(x: Option<Real>) -> Real {
    match x {
        Some(x) => x,
        None => Real { bits: INFINITY_BITS },
    }
}

/// The first dollar amount of a text.
pub open spec fn dollar_amount(s: Seq<char>) -> Option<Real> {
    match dollar_digits(s) {
        Some(digits) => Some(read_or_infinite(decimal(digits))),
        None => None,
    }
}

fn digits_at(chars: &Vec<char>, from: usize) -> (r: String)
    requires
        from <= chars@.len(),
    ensures
        r@ == amount_digits(chars@.skip(from as int)),
{
    let ghost keep = |c: char| c != ',';
    let ghost all = chars@.skip(from as int);
    let mut out: String = String::new();
    let mut i: usize = from;
    proof {
        reveal(Seq::filter);
        assert(all.skip(0) =~= all);
        assert(Seq::<char>::empty() + amount_run(all) =~= amount_run(all));
        assert(Seq::<char>::empty().filter(keep) =~= Seq::<char>::empty());
    }
    let ghost mut seen = Seq::<char>::empty();
    while i < chars.len() && (('0' <= chars[i] && chars[i] <= '9') || chars[i] == ',')
        invariant
            from <= i <= chars@.len(),
            all == chars@.skip(from as int),
            keep == (|c: char| c != ','),
            amount_run(all) == seen + amount_run(all.skip(i - from)),
            out@ == seen.filter(keep),
        decreases chars@.len() - i,
    {
        let c: char = chars[i];
        proof {
            let tail = all.skip(i - from);
            assert(tail[0] == c);
            assert(tail.drop_first() =~= all.skip(i + 1 - from));
            assert(seen + (seq![c] + amount_run(tail.drop_first())) =~= seen.push(c) + amount_run(
                tail.drop_first(),
            ));
            reveal(Seq::filter);
            assert(seen.push(c).drop_last() =~= seen);
            seen = seen.push(c);
        }
        if c != ',' {
            out.push(c);
        }
        i += 1;
    }
    proof {
        let tail = all.skip(i - from);
        if i < chars@.len() {
            assert(tail[0] == chars@[i as int]);
        }
        assert(amount_run(tail) =~= Seq::<char>::empty());
        assert(amount_run(all) =~= seen);
    }
    out
}

/// The digits of the first `$X,XXX` amount in a text, without the commas.
pub fn first_amount(text: &str) -> (r: Option<String>)
    ensures
        opt_text(r) == dollar_digits(text@),
{
    let chars: Vec<char> = text::chars_of(text);
    let mut i: usize = 0;
    assert(text@.skip(0) =~= text@);
    while i < chars.len()
        invariant
            i <= chars@.len(),
            chars@ == text@,
            dollar_digits(text@) == dollar_digits(text@.skip(i as int)),
        decreases chars@.len() - i,
    {
        assert(text@.skip(i as int).drop_first() =~= text@.skip(i + 1));
        if chars[i] == '$' {
            let digits: String = digits_at(&chars, i + 1);
            if !digits.as_str().is_empty() {
                return Some(digits);
            }
        }
        i += 1;
    }
    None
}

/// The number read from a row of digits: infinity where it was too large to read.
pub fn amount_read(x: Option<Real>) -> (r: Real)
    ensures
        r == read_or_infinite(x),
{
    match x {
        Some(x) => x,
        None => Real { bits: INFINITY_BITS },
    }
}

/// Extracts the first `$X,XXX` amount from a text.
pub fn parse_dollar_amount(text: &str) -> (r: Option<Real>)
    ensures
        r == dollar_amount(text@),
{
    match first_amount(text) {
        Some(digits) => Some(amount_read(parse_decimal(digits.as_str()))),
        None => None,
    }
}

/// The title line of a market: its subtitle, or else its title.
pub open spec fn market_title(m: JsonView) -> Seq<char> {
    match m.text_field_or("subtitle"@, "title"@) {
        Some(s) => s,
        None => ""@,
    }
}

/// The strike of a market: its floor strike, or else the first dollar amount of its title line.
pub open spec fn market_strike(m: JsonView) -> Option<Real> {
    match m.field("floor_strike"@) {
        Some(v) => match v.finite_number() {
            Some(x) => Some(x),
            None => dollar_amount(market_title(m)),
        },
        None => dollar_amount(market_title(m)),
    }
}

fn title_of(m: &Json) -> (r: &str)
    ensures
        r@ == market_title(m@),
{
    match m.text_at_or("subtitle", "title") {
        Some(s) => s,
        None => "",
    }
}

/// Extracts the strike of a market: `floor_strike`, or else the first dollar amount of its
/// subtitle or title.
pub fn extract_strike(m: &Json) -> (r: Option<Real>)
    ensures
        r == market_strike(m@),
{
    if let Some(v) = m.get("floor_strike") {
        if let Some(x) = v.finite() {
            return Some(x);
        }
    }
    parse_dollar_amount(title_of(m))
}

/// The upper strike of a range market, where it is a positive number.
pub open spec fn market_cap(m: JsonView) -> Option<Real> {
    match m.field("cap_strike"@) {
        Some(JsonView::Number(Some(x), _)) => if x.finite() && x.positive() {
            Some(x)
        } else {
            None
        },
        _ => None,
    }
}

/// The rules of a market, or what stands for them, cut to [`RULES_MAX`] characters.
pub open spec fn market_rules(m: JsonView) -> Option<Seq<char>> {
    let raw = match m.text_field_or("rules_primary"@, "market_rules"@) {
        Some(s) => if s.len() > 0 {
            s
        } else {
            market_title(m)
        },
        None => market_title(m),
    };
    if raw.len() == 0 {
        None
    } else {
        Some(first_chars(raw, RULES_MAX as int))
    }
}

/// A market as a listing describes it.
pub struct KalshiMarketRow {
    pub ticker: String,
    pub series: String,
    pub market_type: &'static str,
    pub oracle: &'static str,
    pub strike: Option<Real>,
    pub cap_strike: Option<Real>,
    pub open_time: Option<String>,
    pub close_time: Option<String>,
    pub rules: Option<String>,
}

/// A market as a listing describes it, for contracts.
#[verifier::ext_equal]
pub struct KalshiMarketView {
    pub ticker: Seq<char>,
    pub series: Seq<char>,
    pub market_type: Seq<char>,
    pub oracle: Seq<char>,
    pub strike: Option<Real>,
    pub cap_strike: Option<Real>,
    pub open_time: Option<Seq<char>>,
    pub close_time: Option<Seq<char>>,
    pub rules: Option<Seq<char>>,
}

impl View for KalshiMarketRow {
    type V = KalshiMarketView;

    open spec fn view(&self) -> KalshiMarketView {
        KalshiMarketView {
            ticker: self.ticker@,
            series: self.series@,
            market_type: self.market_type@,
            oracle: self.oracle@,
            strike: self.strike,
            cap_strike: self.cap_strike,
            open_time: opt_text(self.open_time),
            close_time: opt_text(self.close_time),
            rules: opt_text(self.rules),
        }
    }
}

/// What a listed market of a series is; `None` where it has no ticker.
pub open spec fn listed_market(m: JsonView, series: Seq<char>) -> Option<KalshiMarketView> {
    match m.text_field_or("ticker"@, "market_ticker"@) {
        Some(ticker) => Some(
            KalshiMarketView {
                ticker,
                series,
                market_type: series_market_type(series),
                oracle: series_oracle(series),
                strike: market_strike(m),
                cap_strike: market_cap(m),
                open_time: m.text_field("open_time"@),
                close_time: m.text_field_or("close_time"@, "expiration_time"@),
                rules: market_rules(m),
            },
        ),
        None => None,
    }
}

/// An optional text as an owned string.
pub(crate) fn owned(s: Option<&str>) -> (r: Option<String>)
    ensures
        opt_text(r) == opt_str(s),
{
    match s {
        Some(t) => Some(t.to_owned()),
        None => None,
    }
}

fn rules_of(m: &Json) -> (r: Option<String>)
    ensures
        opt_text(r) == market_rules(m@),
{
    let raw: &str = match m.text_at_or("rules_primary", "market_rules") {
        Some(s) => if s.is_empty() {
            title_of(m)
        } else {
            s
        },
        None => title_of(m),
    };
    if raw.is_empty() {
        None
    } else {
        Some(text::truncated(raw, RULES_MAX))
    }
}

/// Reads one market of a series listing.
pub fn parse_kalshi_market(m: &Json, series: &str) -> (r: Option<KalshiMarketRow>)
    ensures
        match r {
            Some(row) => listed_market(m@, series@) == Some(row@),
            None => listed_market(m@, series@) is None,
        },
{
    let ticker: String = match m.text_at_or("ticker", "market_ticker") {
        Some(t) => t.to_owned(),
        None => {
            return None;
        },
    };
    let cap_strike: Option<Real> = match m.get("cap_strike") {
        Some(Json::Number(Some(x), _)) => if x.is_finite() && x.is_positive() {
            Some(*x)
        } else {
            None
        },
        _ => None,
    };
    Some(
        KalshiMarketRow {
            ticker,
            series: series.to_owned(),
            market_type: market_type_for_series(series),
            oracle: oracle_for_series(series),
            strike: extract_strike(m),
            cap_strike,
            open_time: owned(m.text_at("open_time")),
            close_time: owned(m.text_at_or("close_time", "expiration_time")),
            rules: rules_of(m),
        },
    )
}

/// What the markets of a listing are, in order; those without a ticker are left out.
pub open spec fn listed_markets(items: Seq<JsonView>, series: Seq<char>) -> Seq<KalshiMarketView>
    decreases items.len(),
{
    if items.len() == 0 {
        Seq::empty()
    } else {
        let before = listed_markets(items.drop_last(), series);
        match listed_market(items.last(), series) {
            Some(row) => before.push(row),
            None => before,
        }
    }
}

/// The rows, for contracts.
pub open spec fn row_views(rows: Seq<KalshiMarketRow>) -> Seq<KalshiMarketView> {
    Seq::new(rows.len(), |i: int| rows[i]@)
}

/// Reads the listing of a series; `None` where the response has no `markets` array.
pub fn parse_kalshi_listing(data: &Json, series: &str) -> (r: Option<Vec<KalshiMarketRow>>)
    ensures
        match r {
            Some(rows) => {
                &&& data@.array_field("markets"@) matches Some(items)
                &&& row_views(rows@) == listed_markets(items, series@)
            },
            None => data@.array_field("markets"@) is None,
        },
{
    let markets: &Vec<Json> = match data.array_at("markets") {
        Some(a) => a,
        None => {
            return None;
        },
    };
    let ghost items = trees(markets@);
    let mut rows: Vec<KalshiMarketRow> = Vec::new();
    assert(row_views(rows@) =~= listed_markets(items.take(0), series@));
    let mut i: usize = 0;
    while i < markets.len()
        invariant
            i <= markets@.len(),
            items == trees(markets@),
            row_views(rows@) == listed_markets(items.take(i as int), series@),
        decreases markets@.len() - i,
    {
        let ghost before = rows@;
        assert(items.take(i + 1).drop_last() =~= items.take(i as int));
        assert(items.take(i + 1).last() == markets@[i as int]@);
        if let Some(row) = parse_kalshi_market(&markets[i], series) {
            rows.push(row);
            assert(row_views(rows@) =~= row_views(before).push(rows@.last()@));
        }
        i += 1;
    }
    assert(items.take(i as int) =~= items);
    Some(rows)
}

/// The rules as stored: the upper strike of a range market, where there is one, goes before them.
pub open spec fn stored_rules(rules: Option<Seq<char>>, cap: Option<Seq<char>>) -> Option<
    Seq<char>,
> {
    match (rules, cap) {
        (Some(r), Some(c)) => Some("cap_strike="@ + c + " "@ + r),
        (Some(r), None) => Some(r),
        (None, Some(c)) => Some("cap_strike="@ + c),
        (None, None) => None,
    }
}

/// Puts the upper strike of a range market, written out, before its rules.
pub fn rules_with_cap(rules: Option<&str>, cap: Option<&str>) -> (r: Option<String>)
    ensures
        opt_text(r) == stored_rules(opt_str(rules), opt_str(cap)),
{
    match cap {
        Some(c) => {
            let mut s: String = "cap_strike=".to_owned();
            s.append(c);
            if let Some(text) = rules {
                s.append(" ");
                s.append(text);
            }
            Some(s)
        },
        None => owned(rules),
    }
}

/// What is known of a market that has resolved.
pub struct ResolutionInfo {
    pub outcome: Option<String>,
    pub oracle_value_at_close: Option<Real>,
    pub close_time_str: Option<String>,
    pub resolution_time_str: Option<String>,
    pub status: String,
}

/// What is known of a market that has resolved, for contracts.
#[verifier::ext_equal]
pub struct ResolutionView {
    pub outcome: Option<Seq<char>>,
    pub oracle_value_at_close: Option<Real>,
    pub close_time_str: Option<Seq<char>>,
    pub resolution_time_str: Option<Seq<char>>,
    pub status: Seq<char>,
}

impl View for ResolutionInfo {
    type V = ResolutionView;

    open spec fn view(&self) -> ResolutionView {
        ResolutionView {
            outcome: opt_text(self.outcome),
            oracle_value_at_close: self.oracle_value_at_close,
            close_time_str: opt_text(self.close_time_str),
            resolution_time_str: opt_text(self.resolution_time_str),
            status: self.status@,
        }
    }
}

/// The market of a response, which may be wrapped.
pub open spec fn response_market(data: JsonView) -> JsonView {
    match data.field("market"@) {
        Some(m) => m,
        None => data,
    }
}

/// The status of a market.
pub open spec fn market_status(m: JsonView) -> Seq<char> {
    match m.text_field("status"@) {
        Some(s) => s,
        None => ""@,
    }
}

/// A market with this status has not resolved yet.
pub open spec fn is_open_status(status: Seq<char>) -> bool {
    status == ""@ || status == "open"@ || status == "active"@
}

/// What a response says of a market's resolution; `None` while the market is open.
pub open spec fn resolution_view(data: JsonView) -> Option<ResolutionView> {
    let m = response_market(data);
    if is_open_status(market_status(m)) {
        None
    } else {
        Some(
            ResolutionView {
                outcome: match m.text_field("result"@) {
                    Some(s) => Some(s),
                    None => m.text_field("winner_side"@),
                },
                oracle_value_at_close: match m.field("expiration_value"@) {
                    Some(v) => v.finite_number(),
                    None => None,
                },
                close_time_str: m.text_field_or("close_time"@, "expiration_time"@),
                resolution_time_str: m.full_text_field("resolution_time"@),
                status: market_status(m),
            },
        )
    }
}

/// Reads a market response for its resolution. `None` while the market is open or active.
///
/// The scheduled close does not stand in for a missing resolution time: the two differ where a
/// settlement is disputed or late.
pub fn parse_resolution(data: &Json) -> (r: Option<ResolutionInfo>)
    ensures
        match r {
            Some(info) => resolution_view(data@) == Some(info@),
            None => resolution_view(data@) is None,
        },
{
    let m: &Json = match data.get("market") {
        Some(m) => m,
        None => data,
    };
    let status: &str = match m.text_at("status") {
        Some(s) => s,
        None => "",
    };
    if text::same(status, "") || text::same(status, "open") || text::same(status, "active") {
        return None;
    }
    let outcome: Option<String> = match m.text_at("result") {
        Some(s) => Some(s.to_owned()),
        None => owned(m.text_at("winner_side")),
    };
    let oracle_value_at_close: Option<Real> = match m.get("expiration_value") {
        Some(v) => v.finite(),
        None => None,
    };
    Some(
        ResolutionInfo {
            outcome,
            oracle_value_at_close,
            close_time_str: owned(m.text_at_or("close_time", "expiration_time")),
            resolution_time_str: owned(m.full_text_at("resolution_time")),
            status: status.to_owned(),
        },
    )
}

/// The level of an order book item: a pair of texts, price and size.
pub open spec fn pair_level(item: JsonView) -> Option<Level> {
    match item.items() {
        Some(pair) => if pair.len() >= 2 {
            level_from(pair[0].text(), pair[1].text())
        } else {
            None
        },
        None => None,
    }
}

/// The levels of a list of pairs; what is not a level is left out.
pub open spec fn pair_levels(items: Seq<JsonView>) -> Seq<Level>
    decreases items.len(),
{
    if items.len() == 0 {
        Seq::empty()
    } else {
        let before = pair_levels(items.drop_last());
        match pair_level(items.last()) {
            Some(level) => before.push(level),
            None => before,
        }
    }
}

/// The levels of one side of a book; none where it is no array.
pub open spec fn side_levels(side: JsonView) -> Seq<Level> {
    match side.items() {
        Some(items) => pair_levels(items),
        None => Seq::empty(),
    }
}

fn parse_pair(item: &Json) -> (r: Option<Level>)
    ensures
        r == pair_level(item@),
{
    match item.as_array() {
        Some(pair) => if pair.len() >= 2 {
            assert(trees(pair@)[0] == pair@[0]@);
            assert(trees(pair@)[1] == pair@[1]@);
            match parse_positive(pair[0].as_str()) {
                Some(price) => match parse_positive(pair[1].as_str()) {
                    Some(size) => Some(Level { price, size }),
                    None => None,
                },
                None => None,
            }
        } else {
            None
        },
        None => None,
    }
}

/// Parses a price level array: `[["0.42", "13.00"], ...]`. Items that are not two positive
/// numbers are left out.
pub fn parse_kalshi_levels(side: &Json) -> (r: Vec<Level>)
    ensures
        r@ == side_levels(side@),
{
    let mut levels: Vec<Level> = Vec::new();
    let items: &Vec<Json> = match side.as_array() {
        Some(a) => a,
        None => {
            return levels;
        },
    };
    let ghost all = trees(items@);
    assert(levels@ =~= pair_levels(all.take(0)));
    let mut i: usize = 0;
    while i < items.len()
        invariant
            i <= items@.len(),
            all == trees(items@),
            levels@ == pair_levels(all.take(i as int)),
        decreases items@.len() - i,
    {
        assert(all.take(i + 1).drop_last() =~= all.take(i as int));
        assert(all.take(i + 1).last() == items@[i as int]@);
        if let Some(level) = parse_pair(&items[i]) {
            levels.push(level);
        }
        i += 1;
    }
    assert(all.take(i as int) =~= all);
    levels
}

/// The bids of a binary market, for YES and for NO, lowest first.
pub struct KalshiBook {
    pub yes: Vec<Level>,
    pub no: Vec<Level>,
}

/// The two sides of a book, YES and NO, where both are there and one has levels.
pub open spec fn book_sides(data: JsonView) -> Option<(Seq<Level>, Seq<Level>)> {
    match data.field("orderbook_fp"@) {
        Some(ob) => match (ob.field("yes_dollars"@), ob.field("no_dollars"@)) {
            (Some(yes), Some(no)) => if side_levels(yes).len() > 0 || side_levels(no).len() > 0 {
                Some((side_levels(yes), side_levels(no)))
            } else {
                None
            },
            _ => None,
        },
        None => None,
    }
}

/// The sides of a book are those that it names, YES before NO; a book without one of them, or with
/// both empty, is none.
pub proof fn books_have_their_own_sides(data: JsonView, book: JsonView, yes: JsonView, no: JsonView)
    ensures
        data.field("orderbook_fp"@) == Some(book) && book.field("yes_dollars"@) == Some(yes)
            && book.field("no_dollars"@) == Some(no) ==> book_sides(data) == if side_levels(
            yes,
        ).len() == 0 && side_levels(no).len() == 0 {
            None
        } else {
            Some((side_levels(yes), side_levels(no)))
        },
        data.field("orderbook_fp"@) is None ==> book_sides(data) is None,
        data.field("orderbook_fp"@) == Some(book) && (book.field("yes_dollars"@) is None
            || book.field("no_dollars"@) is None) ==> book_sides(data) is None,
{
}

/// Parses an orderbook response. `None` where a side is missing or both are empty.
pub fn parse_kalshi_book(data: &Json) -> (r: Option<KalshiBook>)
    ensures
        match r {
            Some(book) => book_sides(data@) == Some((book.yes@, book.no@)),
            None => book_sides(data@) is None,
        },
{
    let ob: &Json = data.get("orderbook_fp")?;
    let yes: Vec<Level> = parse_kalshi_levels(ob.get("yes_dollars")?);
    let no: Vec<Level> = parse_kalshi_levels(ob.get("no_dollars")?);
    if yes.len() == 0 && no.len() == 0 {
        return None;
    }
    Some(KalshiBook { yes, no })
}

/// The price of the last level.
pub open spec fn last_price(levels: Seq<Level>) -> Option<Real> {
    if levels.len() == 0 {
        None
    } else {
        Some(levels.last().price)
    }
}

fn highest(levels: &Vec<Level>) -> (r: Option<Real>)
    ensures
        r == last_price(levels@),
{
    if levels.len() == 0 {
        None
    } else {
        Some(levels[levels.len() - 1].price)
    }
}

impl KalshiBook {
    /// The best YES bid: the last YES level.
    pub fn best_yes(&self) -> (r: Option<Real>)
        ensures
            r == last_price(self.yes@),
    {
        highest(&self.yes)
    }

    /// The best NO bid: the last NO level. The best YES ask is a dollar less this.
    pub fn best_no(&self) -> (r: Option<Real>)
        ensures
            r == last_price(self.no@),
    {
        highest(&self.no)
    }

    /// The snapshot of the book. `ask` is the best YES ask, where there is a NO bid: a dollar less
    /// the best of them. `levels` is the text of all levels.
    pub fn snapshot(
        &self,
        ts: i64,
        market_id: i64,
        ask: Real,
        figures: BookFigures,
        levels: String,
    ) -> (r: BookSnapshotRow)
        ensures
            r.venue@ == "kalshi"@,
            snapshot_of_book(
                r,
                ts,
                market_id,
                last_price(self.yes@),
                if self.no@.len() > 0 {
                    Some(ask)
                } else {
                    None
                },
                figures,
                levels@,
            ),
    {
        let best_ask: Option<Real> = if self.no.len() > 0 {
            Some(ask)
        } else {
            None
        };
        book_snapshot("kalshi", ts, market_id, self.best_yes(), best_ask, figures, levels)
    }
}

/// Of the series that are queried, the daily one alone resolves on the reference rate, and the
/// others on the real-time index; any other series goes by how it begins.
pub proof fn only_daily_series_resolve_on_the_reference_rate(series: Seq<char>)
    ensures
        series_oracle("KXBTC15M"@) == "brti"@,
        series_oracle("KXBTCD"@) == "brti"@,
        series_oracle("KXBTC"@) == "brti"@,
        series_oracle("BTCD"@) == "brr"@,
        series.len() >= 4 && series.take(4) == "BTCD"@ ==> series_oracle(series) == "brr"@,
        !(series.len() >= 4 && series.take(4) == "BTCD"@) ==> series_oracle(series) == "brti"@,
{
    reveal_strlit("KXBTC15M");
    reveal_strlit("KXBTCD");
    reveal_strlit("KXBTC");
    reveal_strlit("BTCD");
    let daily = "BTCD"@;
    assert(daily.subrange(0, 4) =~= daily);
    assert("KXBTC15M"@.subrange(0, 4)[0] == 'K');
    assert("KXBTCD"@.subrange(0, 4)[0] == 'K');
    assert("KXBTC"@.subrange(0, 4)[0] == 'K');
    assert(daily[0] == 'B');
    if series.len() >= 4 {
        assert(series.subrange(0, 4) =~= series.take(4));
    }
}

/// Every series of the real-time index has an oracle that the normalizer reads: what begins with
/// its prefix is evaluated. The daily series is not, for want of a feed.
pub proof fn index_series_have_a_feed(series: Seq<char>)
    ensures
        begins(series, "KXBTC"@) ==> oracle_of(series_oracle(series)) is Some,
        series.len() >= 5 && series.take(5) == "KXBTC"@
            ==> oracle_of(series_oracle(series)) is Some,
        oracle_of(series_oracle("BTCD"@)) is None,
{
    only_daily_series_resolve_on_the_reference_rate(series);
    reveal_strlit("KXBTC");
    reveal_strlit("BTCD");
    reveal_strlit("brr");
    reveal_strlit("brti");
    reveal_strlit("chainlink_streams");
    reveal_strlit("chainlink");
    reveal_strlit("binance_1m_candle");
    reveal_strlit("binance");
    assert("BTCD"@[0] == 'B' && "KXBTC"@[0] == 'K');
    if series.len() >= 5 {
        assert(series.subrange(0, 5)[0] == series[0]);
        assert(series.take(5)[0] == series[0]);
        assert(series.take(4)[0] == series[0]);
    }
    assert("brr"@.len() == 3);
}

/// Each series that is queried has its own type, and no other series has one of these.
pub proof fn series_have_their_types(series: Seq<char>)
    ensures
        series_market_type("KXBTC15M"@) == "up_down_15m"@,
        series_market_type("KXBTCD"@) == "above_below_hourly"@,
        series_market_type("KXBTC"@) == "range_hourly"@,
        series_market_type("BTCD"@) == "above_below_daily"@,
        series != "KXBTC15M"@ && series != "KXBTCD"@ && series != "KXBTC"@ && series != "BTCD"@
            ==> series_market_type(series) == "unknown"@,
{
    reveal_strlit("KXBTC15M");
    reveal_strlit("KXBTCD");
    reveal_strlit("KXBTC");
    reveal_strlit("BTCD");
    assert("KXBTC15M"@.len() == 8 && "KXBTCD"@.len() == 6 && "KXBTC"@.len() == 5 && "BTCD"@.len()
        == 4);
}

/// The event of a ticker is what stands before its last hyphen: whatever without a hyphen is
/// appended after one, the event stays.
pub proof fn event_stands_before_the_last_hyphen(event: Seq<char>, strike: Seq<char>)
    requires
        !strike.contains('-'),
    ensures
        before_last(event + seq!['-'] + strike, '-') == Some(event),
        before_last(strike, '-') is None,
        event_of(event + seq!['-'] + strike) == event,
        event_of(strike) == strike,
    decreases strike.len(),
{
    let ticker = event + seq!['-'] + strike;
    if strike.len() == 0 {
        assert(ticker.last() == '-');
        assert(ticker.drop_last() =~= event);
    } else {
        let shorter = strike.drop_last();
        assert(strike.last() == strike[strike.len() - 1]);
        assert forall|i: int| 0 <= i < shorter.len() implies shorter[i] != '-' by {
            assert(strike[i] == shorter[i]);
        }
        event_stands_before_the_last_hyphen(event, shorter);
        assert(ticker.last() == strike.last());
        assert(ticker.drop_last() =~= event + seq!['-'] + shorter);
    }
}

/// A character of an amount: a digit, or a comma that groups them.
pub open spec fn in_amount(c: char) -> bool {
    ('0' <= c && c <= '9') || c == ','
}

proof fn lemma_amount_run(run: Seq<char>, rest: Seq<char>)
    requires
        forall|i: int| 0 <= i < run.len() ==> in_amount(#[trigger] run[i]),
        rest.len() > 0 ==> !in_amount(rest[0]),
    ensures
        amount_run(run + rest) == run,
    decreases run.len(),
{
    let all = run + rest;
    if run.len() == 0 {
        assert(all =~= rest);
        assert(amount_run(rest) =~= run);
    } else {
        assert(all[0] == run[0]);
        assert(all.drop_first() =~= run.drop_first() + rest);
        lemma_amount_run(run.drop_first(), rest);
        assert(seq![run[0]] + run.drop_first() =~= run);
    }
}

/// A dollar amount is read wherever it stands first in a text: what is before it, as long as that
/// has no dollar sign, and what is behind it, from the first character that is neither a digit nor
/// a comma, do not matter. The commas in it do not either.
pub proof fn first_dollar_amount_is_read(before: Seq<char>, run: Seq<char>, rest: Seq<char>)
    requires
        !before.contains('$'),
        forall|i: int| 0 <= i < run.len() ==> in_amount(#[trigger] run[i]),
        exists|i: int| 0 <= i < run.len() && #[trigger] run[i] != ',',
        rest.len() > 0 ==> !in_amount(rest[0]),
    ensures
        dollar_digits(before + seq!['$'] + run + rest) == Some(run.filter(|c: char| c != ',')),
    decreases before.len(),
{
    let text = before + seq!['$'] + run + rest;
    if before.len() == 0 {
        lemma_amount_run(run, rest);
        assert(text[0] == '$');
        assert(text.drop_first() =~= run + rest);
        let i = choose|i: int| 0 <= i < run.len() && #[trigger] run[i] != ',';
        run.lemma_filter_contains(|c: char| c != ',', i);
    } else {
        assert(before.contains(before[0]));
        assert(text[0] == before[0]);
        let shorter = before.drop_first();
        assert forall|i: int| 0 <= i < shorter.len() implies shorter[i] != '$' by {
            assert(before.contains(before[i + 1]));
        }
        assert(text.drop_first() =~= shorter + seq!['$'] + run + rest);
        first_dollar_amount_is_read(shorter, run, rest);
    }
}

/// A text without a dollar sign has no dollar amount, and a dollar sign before something else than
/// a digit or a comma is passed over.
pub proof fn no_dollar_no_amount(text: Seq<char>)
    ensures
        !text.contains('$') ==> dollar_digits(text) is None,
        text.len() > 0 && !in_amount(text[0]) ==> dollar_digits(seq!['$'] + text)
            == dollar_digits(text),
        text.len() == 0 ==> dollar_digits(seq!['$'] + text) is None,
    decreases text.len(),
{
    if text.len() == 0 {
        let all = seq!['$'] + text;
        assert(all.drop_first() =~= text);
        assert(amount_run(text) =~= Seq::<char>::empty());
        reveal(Seq::filter);
        assert(amount_digits(text).len() == 0);
    }
    if text.len() > 0 {
        if !text.contains('$') {
            assert(text.contains(text[0]));
            let rest = text.drop_first();
            assert forall|i: int| 0 <= i < rest.len() implies rest[i] != '$' by {
                assert(text.contains(text[i + 1]));
            }
            no_dollar_no_amount(rest);
        }
        if !in_amount(text[0]) {
            let all = seq!['$'] + text;
            assert(all.drop_first() =~= text);
            assert(amount_run(text) =~= Seq::<char>::empty());
            reveal(Seq::filter);
            assert(amount_digits(text).len() == 0);
        }
    }
}

/// A dollar sign before commas without a digit is passed over.
pub proof fn commas_are_no_amount(commas: Seq<char>, rest: Seq<char>)
    requires
        forall|i: int| 0 <= i < commas.len() ==> #[trigger] commas[i] == ',',
        rest.len() > 0 ==> !in_amount(rest[0]),
    ensures
        dollar_digits(seq!['$'] + (commas + rest)) == dollar_digits(rest),
    decreases commas.len(),
{
    let text = seq!['$'] + (commas + rest);
    assert(text.drop_first() =~= commas + rest);
    lemma_amount_run(commas, rest);
    let keep = |c: char| c != ',';
    assert(amount_digits(commas + rest).len() == 0) by {
        if commas.filter(keep).len() > 0 {
            let c = commas.filter(keep)[0];
            commas.lemma_filter_contains_rev(keep, c);
            commas.lemma_filter_pred(keep, 0);
            assert(commas.contains(c));
        }
    }
    lemma_commas_skipped(commas, rest);
}

proof fn lemma_commas_skipped(commas: Seq<char>, rest: Seq<char>)
    requires
        forall|i: int| 0 <= i < commas.len() ==> #[trigger] commas[i] == ',',
    ensures
        dollar_digits(commas + rest) == dollar_digits(rest),
    decreases commas.len(),
{
    if commas.len() == 0 {
        assert(commas + rest =~= rest);
    } else {
        assert((commas + rest)[0] == commas[0]);
        assert((commas + rest).drop_first() =~= commas.drop_first() + rest);
        lemma_commas_skipped(commas.drop_first(), rest);
    }
}

/// A floor strike that is a finite number is the strike, whatever the title says; without one the
/// first dollar amount of the subtitle is, or of the title where there is no subtitle.
pub proof fn floor_strike_comes_before_the_title(
    m: JsonView,
    x: Real,
    s: Seq<char>,
    title: Seq<char>,
)
    ensures
        x.finite() && m.field("floor_strike"@) == Some(JsonView::Number(Some(x), s))
            ==> market_strike(m) == Some(x),
        m.field("floor_strike"@) == Some(JsonView::Str(s)) && decimal(s) == Some(x)
            ==> market_strike(m) == Some(x),
        (m.field("floor_strike"@) matches Some(v) ==> v.finite_number() is None) ==> {
            &&& m.field("subtitle"@) == Some(JsonView::Str(title)) && title.len() > 0
                ==> market_strike(m) == dollar_amount(title)
            &&& m.full_text_field("subtitle"@) is None && m.field("title"@) == Some(
                JsonView::Str(title),
            ) ==> market_strike(m) == dollar_amount(title)
            &&& m.full_text_field("subtitle"@) is None && m.text_field("title"@) is None
                ==> market_strike(m) is None
        },
        dollar_digits(title) == Some(s) && decimal(s) == Some(x) ==> dollar_amount(title) == Some(
            x,
        ),
        dollar_digits(title) is None ==> dollar_amount(title) is None,
        dollar_digits(title) == Some(s) && decimal(s) is None ==> dollar_amount(title) is Some && (
        x.finite() ==> x.below(dollar_amount(title)->0)),
{
    reveal_strlit("");
    assert(""@.len() == 0);
    no_dollar_no_amount(""@);
}

/// The upper strike of a range is the positive finite number under `cap_strike`, and nothing else.
pub proof fn cap_is_a_positive_number(m: JsonView, x: Real, s: Seq<char>)
    ensures
        x.finite() && m.field("cap_strike"@) == Some(JsonView::Number(Some(x), s))
            ==> market_cap(m) == if x.value() > 0 {
            Some(x)
        } else {
            None
        },
        m.field("cap_strike"@) == Some(JsonView::Number(None, s)) ==> market_cap(m) is None,
        market_cap(m) is Some ==> m.field("cap_strike"@) matches Some(JsonView::Number(_, _)),
{
    if x.finite() {
        order_is_numeric(x, x);
    }
}

/// The rules are the primary rules, else the market's rules, else its title line: the first of them
/// that is not empty, cut to two thousand characters.
pub proof fn rules_are_the_first_that_are_there(m: JsonView, s: Seq<char>)
    requires
        s.len() > 0,
    ensures
        m.field("rules_primary"@) == Some(JsonView::Str(s)) ==> market_rules(m) == Some(
            first_chars(s, 2000),
        ),
        m.full_text_field("rules_primary"@) is None ==> {
            &&& m.field("market_rules"@) == Some(JsonView::Str(s)) ==> market_rules(m) == Some(
                first_chars(s, 2000),
            )
            &&& m.full_text_field("market_rules"@) is None ==> {
                &&& m.field("subtitle"@) == Some(JsonView::Str(s)) ==> market_rules(m) == Some(
                    first_chars(s, 2000),
                )
                &&& m.full_text_field("subtitle"@) is None && m.field("title"@) == Some(
                    JsonView::Str(s),
                ) ==> market_rules(m) == Some(first_chars(s, 2000))
                &&& m.full_text_field("subtitle"@) is None && m.full_text_field("title"@) is None
                    ==> market_rules(m) is None
            }
        },
        market_rules(m) matches Some(rules) ==> 0 < rules.len() <= 2000,
{
    reveal_strlit("");
}

/// A listed market is read from its own fields, under the series that was asked for: its ticker, or
/// else its market ticker, and its times, of which the close comes before the expiration.
pub proof fn listed_markets_are_read_from_their_fields(
    m: JsonView,
    series: Seq<char>,
    ticker: Seq<char>,
    time: Seq<char>,
)
    ensures
        m.field("ticker"@) == Some(JsonView::Str(ticker)) && ticker.len() > 0 ==> {
            &&& listed_market(m, series) matches Some(row)
            &&& row.ticker == ticker
        },
        m.full_text_field("ticker"@) is None && m.field("market_ticker"@) == Some(
            JsonView::Str(ticker),
        ) ==> {
            &&& listed_market(m, series) matches Some(row)
            &&& row.ticker == ticker
        },
        m.full_text_field("ticker"@) is None && m.text_field("market_ticker"@) is None
            ==> listed_market(m, series) is None,
        listed_market(m, series) matches Some(row) ==> {
            &&& row.series == series
            &&& row.market_type == series_market_type(series)
            &&& row.oracle == series_oracle(series)
            &&& row.strike == market_strike(m)
            &&& row.cap_strike == market_cap(m)
            &&& row.rules == market_rules(m)
            &&& m.field("open_time"@) == Some(JsonView::Str(time)) <==> row.open_time == Some(time)
            &&& m.field("close_time"@) == Some(JsonView::Str(time)) && time.len() > 0
                ==> row.close_time == Some(time)
            &&& m.full_text_field("close_time"@) is None ==> (row.close_time == Some(time)
                <==> m.field("expiration_time"@) == Some(JsonView::Str(time)))
        },
{
}

/// A listing is read market by market, in order: that of two lists is that of the first followed by
/// that of the second, and a single market gives its row, if it is one.
pub proof fn listings_are_read_in_order(
    a: Seq<JsonView>,
    b: Seq<JsonView>,
    m: JsonView,
    series: Seq<char>,
)
    ensures
        listed_markets(a + b, series) == listed_markets(a, series) + listed_markets(b, series),
        listed_markets(seq![m], series) == match listed_market(m, series) {
            Some(row) => seq![row],
            None => Seq::empty(),
        },
    decreases b.len(),
{
    let none = Seq::<JsonView>::empty();
    assert(seq![m].drop_last() =~= none);
    assert(seq![m].last() == m);
    assert(listed_markets(none, series) =~= Seq::<KalshiMarketView>::empty());
    if let Some(row) = listed_market(m, series) {
        assert(Seq::<KalshiMarketView>::empty().push(row) =~= seq![row]);
    }
    if b.len() == 0 {
        assert(a + b =~= a);
        assert(listed_markets(a, series) + listed_markets(b, series) =~= listed_markets(a, series));
    } else {
        assert((a + b).drop_last() =~= a + b.drop_last());
        assert((a + b).last() == b.last());
        listings_are_read_in_order(a, b.drop_last(), m, series);
        let x = listed_markets(a, series);
        let y = listed_markets(b.drop_last(), series);
        if let Some(row) = listed_market(b.last(), series) {
            assert((x + y).push(row) =~= x + y.push(row));
        }
    }
}

/// Stored rules keep the market's rules at their end and, of a range market, say the upper strike
/// before them.
pub proof fn stored_rules_keep_rules_and_cap(rules: Seq<char>, cap: Seq<char>)
    ensures
        stored_rules(Some(rules), None) == Some(rules),
        stored_rules(None, None) is None,
        stored_rules(None, Some(cap)) == Some("cap_strike="@ + cap),
        stored_rules(Some(rules), Some(cap)) matches Some(s) && {
            let n = ("cap_strike="@.len() + cap.len()) as int;
            &&& s.len() == n + 1 + rules.len()
            &&& s.take(n) == "cap_strike="@ + cap
            &&& s[n] == ' '
            &&& s.skip(n + 1) == rules
        },
{
    reveal_strlit("cap_strike=");
    reveal_strlit(" ");
    let s = "cap_strike="@ + cap + " "@ + rules;
    let n = ("cap_strike="@.len() + cap.len()) as int;
    assert(s.take(n) =~= "cap_strike="@ + cap);
    assert(s.skip(n + 1) =~= rules);
}

/// A market is resolved exactly where it has a status other than open and active, and then its
/// outcome is the very text under `result`, or under `winner_side` where there is no result: two
/// responses with different results have different outcomes. The close stands in for nothing.
pub proof fn resolution_is_what_the_response_says(
    data: JsonView,
    m: JsonView,
    status: Seq<char>,
    said: Seq<char>,
    x: Real,
)
    requires
        data.field("market"@) == Some(m) || (data.field("market"@) is None && m == data),
        m.field("status"@) == Some(JsonView::Str(status)),
    ensures
        resolution_view(data) is None <==> status.len() == 0 || status == "open"@ || status
            == "active"@,
        resolution_view(data) matches Some(r) ==> {
            &&& r.status == status
            &&& m.field("result"@) == Some(JsonView::Str(said)) ==> r.outcome == Some(said)
            &&& m.text_field("result"@) is None ==> (r.outcome == Some(said) <==> m.field(
                "winner_side"@,
            ) == Some(JsonView::Str(said)))
            &&& m.field("expiration_value"@) == Some(JsonView::Number(Some(x), said)) && x.finite()
                ==> r.oracle_value_at_close == Some(x)
            &&& m.field("expiration_value"@) == Some(JsonView::Str(said))
                ==> r.oracle_value_at_close == decimal(said)
            &&& (m.field("expiration_value"@) matches Some(v) ==> v.finite_number() is None)
                ==> r.oracle_value_at_close is None
            &&& m.field("close_time"@) == Some(JsonView::Str(said)) && said.len() > 0
                ==> r.close_time_str == Some(said)
            &&& m.full_text_field("close_time"@) is None ==> (r.close_time_str == Some(said)
                <==> m.field("expiration_time"@) == Some(JsonView::Str(said)))
            &&& r.resolution_time_str == Some(said) <==> said.len() > 0 && m.field(
                "resolution_time"@,
            ) == Some(JsonView::Str(said))
        },
{
    reveal_strlit("");
    if status.len() == 0 {
        assert(status =~= ""@);
    }
}

/// A market whose status is not a text has not resolved.
pub proof fn no_status_no_resolution(data: JsonView)
    ensures
        data.field("market"@) is None && !(data.field("status"@) matches Some(JsonView::Str(_)))
            ==> resolution_view(data) is None,
        data.field("market"@) matches Some(m)
            && !(m.field("status"@) matches Some(JsonView::Str(_)))
            ==> resolution_view(data) is None,
{
}

/// The levels of a side are read item by item, in order; an item is a list of a price and a size as
/// texts, and what is no such list is passed over.
pub proof fn levels_are_read_in_order(
    a: Seq<JsonView>,
    b: Seq<JsonView>,
    price: Seq<char>,
    size: Seq<char>,
)
    ensures
        pair_levels(a + b) == pair_levels(a) + pair_levels(b),
        pair_levels(Seq::empty()) == Seq::<Level>::empty(),
        pair_level(JsonView::Array(seq![JsonView::Str(price), JsonView::Str(size)] + a))
            == level_from(Some(price), Some(size)),
        a.len() >= 2 && (!(a[0] is Str) || !(a[1] is Str)) ==> pair_level(JsonView::Array(a))
            is None,
        a.len() < 2 ==> pair_level(JsonView::Array(a)) is None,
        forall|i: int|
            0 <= i < a.len() ==> !(#[trigger] a[i] is Array) ==> pair_level(a[i]) is None,
        side_levels(JsonView::Array(a)) == pair_levels(a),
    decreases b.len(),
{
    let pair = seq![JsonView::Str(price), JsonView::Str(size)] + a;
    assert(pair[0] == JsonView::Str(price) && pair[1] == JsonView::Str(size));
    if b.len() == 0 {
        assert(a + b =~= a);
        assert(pair_levels(a) + pair_levels(b) =~= pair_levels(a));
    } else {
        assert((a + b).drop_last() =~= a + b.drop_last());
        assert((a + b).last() == b.last());
        levels_are_read_in_order(a, b.drop_last(), price, size);
        if let Some(level) = pair_level(b.last()) {
            assert((pair_levels(a) + pair_levels(b.drop_last())).push(level) =~= pair_levels(a)
                + pair_levels(b.drop_last()).push(level));
        }
    }
}

/// The best bid is that of the last level, and there is none without levels.
pub proof fn best_bid_is_the_last(levels: Seq<Level>, level: Level)
    ensures
        last_price(levels.push(level)) == Some(level.price),
        last_price(Seq::empty()) is None,
{
}

} // verus!
