//! Feed rows: what the flusher stores of each ring entry.

use crate::json::{decimal, Json, JsonView};
use crate::num::{order_is_numeric, Real};
use crate::ring::{item_view, opt_text, Logged, RingEntry, META_CAP};
use crate::venue::{parse_positive, positive_decimal};
use vstd::prelude::*;
use vstd::utf8::{decode_utf8, valid_utf8};

verus! {

/// An observation as stored.
pub struct FeedRow {
    /// Microseconds since the Unix epoch.
    pub ts: i64,
    pub source: &'static str,
    pub value: Real,
    pub meta: Option<String>,
    pub ticker: Option<String>,
}

/// An observation as stored, for contracts.
#[verifier::ext_equal]
pub struct FeedView {
    pub ts: i64,
    pub source: Seq<char>,
    pub value: Real,
    pub meta: Option<Seq<char>>,
    pub ticker: Option<Seq<char>>,
}

impl View for FeedRow {
    type V = FeedView;

    open spec fn view(&self) -> FeedView {
        FeedView {
            ts: self.ts,
            source: self.source@,
            value: self.value,
            meta: opt_text(self.meta),
            ticker: opt_text(self.ticker),
        }
    }
}

/// The text of an entry's meta; `None` where it is empty or not UTF-8.
pub open spec fn meta_text(entry: RingEntry) -> Option<Seq<char>> {
    if entry.meta_bytes().len() > 0 && valid_utf8(entry.meta_bytes()) {
        Some(decode_utf8(entry.meta_bytes()))
    } else {
        None
    }
}

/// What is stored of a drained write.
pub open spec fn stored(source: Seq<char>, x: Logged) -> FeedView {
    FeedView {
        ts: x.entry.ts,
        source,
        value: x.entry.value,
        meta: meta_text(x.entry),
        ticker: x.ticker,
    }
}

fn feed_row(source: &'static str, entry: RingEntry, ticker: Option<String>) -> (r: FeedRow)
    ensures
        r@ == stored(source@, Logged { entry, ticker: opt_text(ticker) }),
{
    let meta: Option<String> = match entry.meta_str() {
        Some(s) => Some(s.to_owned()),
        None => None,
    };
    FeedRow { ts: entry.ts, source, value: entry.value, meta, ticker }
}

/// Turns drained ring entries into rows to store, in order.
pub fn feed_rows(items: Vec<(&'static str, RingEntry, Option<String>)>) -> (r: Vec<FeedRow>)
    ensures
        r@.len() == items@.len(),
        forall|i: int|
            0 <= i < r@.len() ==> (#[trigger] r@[i])@ == {
                let (source, x) = item_view(items@[i]);
                stored(source, x)
            },
{
    let ghost all = items@;
    let mut rest: Vec<(&'static str, RingEntry, Option<String>)> = items;
    let mut rows: Vec<FeedRow> = Vec::new();
    let n: usize = rest.len();
    let mut i: usize = 0;
    while i < n
        invariant
            i <= n,
            n == all.len(),
            rest@.len() == n,
            forall|k: int| i <= k < n ==> rest@[k] == all[k],
            rows@.len() == i,
            forall|k: int|
                0 <= k < i ==> (#[trigger] rows@[k])@ == {
                    let (source, x) = item_view(all[k]);
                    stored(source, x)
                },
        decreases n - i,
    {
        let entry: RingEntry = rest[i].1;
        let source: &'static str = rest[i].0;
        let ticker: Option<String> = rest[i].2.take();
        rows.push(feed_row(source, entry, ticker));
        i += 1;
    }
    rows
}

/// The spot price of a ticker response.
pub open spec fn spot_in(data: JsonView) -> Option<Real> {
    positive_decimal(data.text_field("price"@))
}

/// The spot price is the positive number that the text under `price` spells.
pub proof fn spot_is_the_price(data: JsonView, s: Seq<char>, x: Real)
    requires
        data.field("price"@) == Some(JsonView::Str(s)),
    ensures
        decimal(s) == Some(x) && x.finite() ==> spot_in(data) == if x.value() > 0 {
            Some(x)
        } else {
            None
        },
        decimal(s) is None ==> spot_in(data) is None,
{
    if x.finite() {
        order_is_numeric(x, x);
    }
}

/// The spot price of a ticker response, where it is a positive number.
pub fn spot_from_response(data: &Json) -> (r: Option<Real>)
    ensures
        r == spot_in(data@),
{
    parse_positive(data.text_at("price"))
}

/// A row holds what was written to the ring: of meta that fits and is UTF-8, all of it.
pub proof fn row_holds_the_write(
    source: Seq<char>,
    x: Logged,
    seq: int,
    ts: i64,
    value: Real,
    meta: Seq<u8>,
)
    requires
        x.entry.records(seq, ts, value, meta),
        meta.len() <= META_CAP,
        valid_utf8(meta),
    ensures
        stored(source, x) == (FeedView {
            ts,
            source,
            value,
            meta: if meta.len() > 0 {
                Some(decode_utf8(meta))
            } else {
                None
            },
            ticker: x.ticker,
        }),
{
    assert(x.entry.meta_bytes() =~= meta);
}

} // verus!
