//! Fixed-size ring buffers: the hot-path source of market data.
//!
//! Each feed owns one [`SourceRing`] and writes observations to it. The kernel
//! reads the newest entry, or the newest entry of one ticker; the flusher
//! drains what it has not seen yet. A ring that is full overwrites its oldest
//! entry: a lapped ticker reads as absent, and a lapped flusher resumes at the
//! oldest entry that is left.
//!
//! Times are microseconds since the Unix epoch.

use crate::num::Real;
use vstd::arithmetic::div_mod::{lemma_fundamental_div_mod, lemma_mod_bound};
use vstd::hash_map::StringHashMap;
use vstd::prelude::*;
use vstd::utf8::{decode_utf8, valid_utf8};

verus! {

/// Inline meta capacity in bytes.
pub const META_CAP: usize = 128;

/// A single observation.
///
/// `seq` is the write index at the time of the write. `meta` holds a UTF-8 JSON
/// fragment inline, cut at [`META_CAP`] bytes and zero beyond `meta_len`.
#[derive(Clone, Copy)]
pub struct RingEntry {
    pub seq: u64,
    pub ts: i64,
    pub value: Real,
    pub meta_len: u32,
    pub _pad: u32,
    pub meta: [u8; META_CAP],
}

impl Default for RingEntry {
    fn default() -> (r: Self)
        ensures
            r.seq == 0,
            r.ts == 0,
            r.value.bits == 0,
            r.meta_len == 0,
            r._pad == 0,
            forall|k: int| 0 <= k < META_CAP ==> r.meta@[k] == 0,
    {
        RingEntry { seq: 0, ts: 0, value: Real::zero(), meta_len: 0, _pad: 0, meta: [0u8; 128] }
    }
}

/// `std::str::from_utf8`: the text that the bytes encode, where they are valid UTF-8.
#[verifier::external_body]
fn utf8_text(bytes: &[u8]) -> (r: Option<&str>)
    ensures
        match r {
            Some(s) => valid_utf8(bytes@) && s@ == decode_utf8(bytes@),
            None => !valid_utf8(bytes@),
        },
{
    std::str::from_utf8(bytes).ok()
}

impl RingEntry {
    /// The bytes of the inline meta.
    pub open spec fn meta_bytes(self) -> Seq<u8> {
        self.meta@.take(
            if self.meta_len < META_CAP {
                self.meta_len as int
            } else {
                META_CAP as int
            },
        )
    }

    /// Newer than `window` before `now`.
    pub open spec fn fresh(self, now: i64, window: i64) -> bool {
        self.ts > 0 && now - self.ts < window
    }

    /// This is the entry that writing the given observation at index `seq` makes.
    pub open spec fn records(self, seq: int, ts: i64, value: Real, meta: Seq<u8>) -> bool {
        &&& self.seq == seq
        &&& self.ts == ts
        &&& self.value == value
        &&& self.meta_len == if meta.len() < META_CAP {
            meta.len() as int
        } else {
            META_CAP as int
        }
        &&& self._pad == 0
        &&& forall|k: int|
            0 <= k < META_CAP ==> self.meta@[k] == if k < meta.len() {
                meta[k]
            } else {
                0
            }
    }

    /// Decodes the inline meta. `None` if it is empty or not valid UTF-8.
    pub fn meta_str(&self) -> (r: Option<&str>)
        ensures
            match r {
                Some(s) => {
                    &&& self.meta_bytes().len() > 0
                    &&& valid_utf8(self.meta_bytes())
                    &&& s@ == decode_utf8(self.meta_bytes())
                },
                None => self.meta_bytes().len() == 0 || !valid_utf8(self.meta_bytes()),
            },
    {
        if self.meta_len == 0 {
            return None;
        }
        let len: usize = if (self.meta_len as usize) < META_CAP {
            self.meta_len as usize
        } else {
            META_CAP
        };
        let bytes: &[u8] = vstd::slice::slice_subrange(self.meta.as_slice(), 0, len);
        assert(bytes@ =~= self.meta_bytes());
        utf8_text(bytes)
    }

    /// Whether this entry is newer than `now - window`.
    pub fn is_fresh(&self, now: i64, window: i64) -> (r: bool)
        ensures
            r == self.fresh(now, window),
    {
        self.ts > 0 && (now as i128) - (self.ts as i128) < (window as i128)
    }
}

/// One write, as the ring's history remembers it.
#[verifier::ext_equal]
pub struct Logged {
    pub entry: RingEntry,
    /// The ticker it was written under; `None` on a ring without a ticker index.
    pub ticker: Option<Seq<char>>,
}

/// What a ring is: all that was ever written to it, and how much of it the flusher has passed.
#[verifier::ext_equal]
pub struct RingView {
    pub history: Seq<Logged>,
    pub flushed: int,
    pub capacity: int,
    pub window: i64,
    pub indexed: bool,
}

impl RingView {
    /// The index of the oldest entry that is still in the ring.
    pub open spec fn oldest(self) -> int {
        if self.history.len() > self.capacity {
            self.history.len() - self.capacity
        } else {
            0
        }
    }

    /// The index of the last write under `ticker`, or -1.
    pub open spec fn last_index(self, ticker: Seq<char>) -> int {
        last_index_in(self.history, ticker)
    }

    /// The newest entry, where it is within the window.
    pub open spec fn fresh_head(self, now: i64) -> Option<RingEntry> {
        match self.latest() {
            Some(e) => if e.fresh(now, self.window) {
                Some(e)
            } else {
                None
            },
            None => None,
        }
    }

    /// The newest entry.
    pub open spec fn latest(self) -> Option<RingEntry> {
        if self.history.len() == 0 {
            None
        } else {
            Some(self.history.last().entry)
        }
    }

    /// The newest entry of `ticker`, unless it was overwritten or is stale.
    pub open spec fn lookup(self, ticker: Seq<char>, now: i64) -> Option<RingEntry> {
        let i = self.last_index(ticker);
        if self.indexed && i >= 0 && i >= self.oldest() && self.history[i].entry.fresh(
            now,
            self.window,
        ) {
            Some(self.history[i].entry)
        } else {
            None
        }
    }

    /// Where the next drain begins.
    pub open spec fn drain_start(self) -> int {
        if self.flushed < self.oldest() {
            self.oldest()
        } else {
            self.flushed
        }
    }

    /// What the next drain delivers: every write since the last drain that is still in the ring.
    pub open spec fn pending(self) -> Seq<Logged> {
        self.history.subrange(self.drain_start(), self.history.len() as int)
    }

    /// How many writes the flusher has not passed yet.
    pub open spec fn backlog(self) -> int {
        self.history.len() - self.flushed
    }

    pub open spec fn after_write(self, x: Logged) -> RingView {
        RingView { history: self.history.push(x), ..self }
    }

    pub open spec fn after_drain(self) -> RingView {
        RingView { flushed: self.history.len() as int, ..self }
    }

    pub open spec fn valid(self) -> bool {
        &&& self.capacity >= 4
        &&& 0 <= self.flushed <= self.history.len()
        &&& forall|i: int|
            0 <= i < self.history.len() ==> (#[trigger] self.history[i]).entry.seq == i
    }
}

/// A ring to which nothing was written yet.
pub open spec fn empty_ring(capacity: int, window: i64, indexed: bool) -> RingView {
    RingView { history: Seq::empty(), flushed: 0, capacity, window, indexed }
}

/// The last position in `history` written under `ticker`, or -1.
pub open spec fn last_index_in(history: Seq<Logged>, ticker: Seq<char>) -> int
    decreases history.len(),
{
    if history.len() == 0 {
        -1
    } else if history.last().ticker == Some(ticker) {
        history.len() - 1
    } else {
        last_index_in(history.drop_last(), ticker)
    }
}

proof fn lemma_last_index(history: Seq<Logged>, ticker: Seq<char>)
    ensures
        ({
            let i = last_index_in(history, ticker);
            &&& -1 <= i < history.len()
            &&& i >= 0 ==> history[i].ticker == Some(ticker)
            &&& forall|j: int| i < j < history.len() ==> history[j].ticker != Some(ticker)
        }),
    decreases history.len(),
{
    if history.len() > 0 && history.last().ticker != Some(ticker) {
        lemma_last_index(history.drop_last(), ticker);
        let i = last_index_in(history, ticker);
        assert forall|j: int| i < j < history.len() implies history[j].ticker != Some(ticker) by {
            if j < history.len() - 1 {
                assert(history.drop_last()[j] == history[j]);
            }
        }
    }
}

/// Two indices less than a lap apart fall on different slots.
proof fn lemma_slots_differ(i: int, j: int, cap: int)
    requires
        cap > 0,
        0 < j - i < cap,
    ensures
        i % cap != j % cap,
{
    lemma_fundamental_div_mod(i, cap);
    lemma_fundamental_div_mod(j, cap);
    let a = i / cap;
    let b = j / cap;
    if i % cap == j % cap {
        assert(j - i == cap * (b - a)) by (nonlinear_arith)
            requires
                i == cap * a + i % cap,
                j == cap * b + j % cap,
                i % cap == j % cap,
        ;
        assert(b - a <= 0 || b - a >= 1);
        assert(false) by (nonlinear_arith)
            requires
                cap > 0,
                0 < j - i < cap,
                j - i == cap * (b - a),
                b - a <= 0 || b - a >= 1,
        ;
    }
}

/// Every slot of a full lap `[base, base + cap)` is hit by one of its indices.
proof fn lemma_slot_in_lap(i: int, base: int, cap: int) -> (w: int)
    requires
        cap > 0,
        0 <= i,
        0 <= base,
    ensures
        base <= w < base + cap,
        w % cap == i % cap,
{
    let w = base + (i - base) % cap;
    lemma_mod_bound(i - base, cap);
    lemma_fundamental_div_mod(i - base, cap);
    let q = (i - base) / cap;
    assert(w == i - cap * q);
    vstd::arithmetic::div_mod::lemma_mod_multiples_vanish(-q, i, cap);
    assert(cap * (-q) == -(cap * q)) by (nonlinear_arith);
    w
}

/// Ring buffer for a single feed source.
pub struct SourceRing {
    buf: Vec<RingEntry>,
    write_idx: usize,
    flush_cursor: usize,
    /// Number of slots.
    pub capacity: usize,
    /// Freshness window in microseconds: older entries are stale.
    pub window: i64,
    indexed: bool,
    /// For each ticker, the write index of its last entry.
    ticker_index: StringHashMap<usize>,
    /// The ticker of each slot, until the flusher takes it. Empty on a ring without an index.
    ticker_store: Vec<Option<String>>,
    history: Ghost<Seq<Logged>>,
}

/// The text of an optional string.
pub open spec fn opt_text(s: Option<String>) -> Option<Seq<char>> {
    match s {
        Some(t) => Some(t@),
        None => None,
    }
}

/// What a drained item carries: the source's name and the write.
pub open spec fn item_view(item: (&'static str, RingEntry, Option<String>)) -> (Seq<char>, Logged) {
    (item.0@, Logged { entry: item.1, ticker: opt_text(item.2) })
}

/// What drained items carry, in order.
pub open spec fn carried(items: Seq<(&'static str, RingEntry, Option<String>)>) -> Seq<
    (Seq<char>, Logged),
> {
    items.map_values(|item: (&'static str, RingEntry, Option<String>)| item_view(item))
}

/// The pending writes of a ring, each under the source's name.
pub open spec fn tagged(source: Seq<char>, ring: RingView) -> Seq<(Seq<char>, Logged)> {
    ring.pending().map_values(|x: Logged| (source, x))
}

impl View for SourceRing {
    type V = RingView;

    closed spec fn view(&self) -> RingView {
        RingView {
            history: self.history@,
            flushed: self.flush_cursor as int,
            capacity: self.capacity as int,
            window: self.window,
            indexed: self.indexed,
        }
    }
}

impl SourceRing {
    /// The slots hold the last `capacity` writes, and the index finds the last write of each
    /// ticker.
    pub closed spec fn wf(&self) -> bool {
        let n = self.history@.len();
        &&& self@.valid()
        &&& self.write_idx == n
        &&& self.buf@.len() == self.capacity
        &&& forall|i: int|
            #![trigger self.history@[i]]
            self@.oldest() <= i < n ==> self.buf@[i % self.capacity as int]
                == self.history@[i].entry
        &&& if self.indexed {
            &&& self.ticker_store@.len() == self.capacity
            &&& forall|i: int|
                #![trigger self.history@[i]]
                self@.drain_start() <= i < n ==> opt_text(
                    self.ticker_store@[i % self.capacity as int],
                ) == self.history@[i].ticker
            &&& forall|t: Seq<char>| #[trigger]
                self.ticker_index@.contains_key(t) <==> last_index_in(self.history@, t) >= 0
            &&& forall|t: Seq<char>| #[trigger]
                self.ticker_index@.contains_key(t) ==> self.ticker_index@[t] == last_index_in(
                    self.history@,
                    t,
                )
        } else {
            forall|i: int| 0 <= i < n ==> (#[trigger] self.history@[i]).ticker is None
        }
    }

    /// Allocates a ring. Venue rings have a ticker index.
    pub fn new(capacity: usize, window: i64, has_ticker_index: bool) -> (r: Self)
        requires
            capacity >= 4,
        ensures
            r.wf(),
            r@ == empty_ring(capacity as int, window, has_ticker_index),
    {
        let mut buf: Vec<RingEntry> = Vec::with_capacity(capacity);
        let mut ticker_store: Vec<Option<String>> = Vec::new();
        let mut i: usize = 0;
        while i < capacity
            invariant
                i <= capacity,
                buf@.len() == i,
                ticker_store@.len() == if has_ticker_index {
                    i as int
                } else {
                    0
                },
            decreases capacity - i,
        {
            buf.push(RingEntry::default());
            if has_ticker_index {
                ticker_store.push(None);
            }
            i += 1;
        }
        SourceRing {
            buf,
            write_idx: 0,
            flush_cursor: 0,
            capacity,
            window,
            indexed: has_ticker_index,
            ticker_index: StringHashMap::new(),
            ticker_store,
            history: Ghost(Seq::empty()),
        }
    }

    /// Writes an entry, over the oldest one where the ring is full.
    ///
    /// Meta longer than [`META_CAP`] is cut. `ticker` is kept on rings with a ticker index.
    pub fn write(&mut self, ts: i64, value: Real, meta: &[u8], ticker: Option<&str>)
        requires
            old(self).wf(),
            old(self)@.history.len() < usize::MAX,
        ensures
            final(self).wf(),
            final(self)@ == old(self)@.after_write(final(self)@.history.last()),
            final(self)@.history.last().entry.records(
                old(self)@.history.len() as int,
                ts,
                value,
                meta@,
            ),
            final(self)@.history.last().ticker == if old(self)@.indexed {
                match ticker {
                    Some(t) => Some(t@),
                    None => None,
                }
            } else {
                None
            },
    {
        let widx: usize = self.write_idx;
        let slot: usize = widx % self.capacity;
        let copy_len: usize = if meta.len() < META_CAP {
            meta.len()
        } else {
            META_CAP
        };
        let mut entry: RingEntry = RingEntry::default();
        entry.seq = widx as u64;
        entry.ts = ts;
        entry.value = value;
        let mut k: usize = 0;
        while k < copy_len
            invariant
                k <= copy_len,
                copy_len <= META_CAP,
                copy_len <= meta@.len(),
                entry.seq == widx,
                entry.ts == ts,
                entry.value == value,
                entry._pad == 0,
                forall|j: int|
                    0 <= j < META_CAP ==> entry.meta@[j] == if j < k {
                        meta@[j]
                    } else {
                        0
                    },
            decreases copy_len - k,
        {
            entry.meta[k] = meta[k];
            k += 1;
        }
        entry.meta_len = copy_len as u32;

        let ghost before = *self;
        let ghost kept: Option<Seq<char>> = if self.indexed {
            match ticker {
                Some(t) => Some(t@),
                None => None,
            }
        } else {
            None
        };
        let ghost x = Logged { entry, ticker: kept };
        self.buf.set(slot, entry);
        if self.indexed {
            match ticker {
                Some(t) => {
                    self.ticker_index.insert(t.to_owned(), widx);
                    self.ticker_store.set(slot, Some(t.to_owned()));
                },
                None => {
                    self.ticker_store.set(slot, None);
                },
            }
        }
        self.write_idx = widx + 1;
        self.history = Ghost(self.history@.push(x));
        proof {
            let cap = self.capacity as int;
            let n = widx as int;
            lemma_mod_bound(n, cap);
            assert(self.history@.drop_last() =~= before.history@);
            assert forall|i: int| self@.oldest() <= i < n + 1 implies self.buf@[i % cap]
                == (#[trigger] self.history@[i]).entry by {
                if i < n {
                    assert(self.history@[i] == before.history@[i]);
                    lemma_slots_differ(i, n, cap);
                    lemma_mod_bound(i, cap);
                }
            }
            if self.indexed {
                assert forall|i: int| self@.drain_start() <= i < n + 1 implies opt_text(
                    self.ticker_store@[i % cap],
                ) == (#[trigger] self.history@[i]).ticker by {
                    if i < n {
                        assert(self.history@[i] == before.history@[i]);
                        lemma_slots_differ(i, n, cap);
                        lemma_mod_bound(i, cap);
                    }
                }
                assert forall|t: Seq<char>| #[trigger]
                    self.ticker_index@.contains_key(t) <==> last_index_in(self.history@, t)
                    >= 0 by {
                    assert(before.ticker_index@.contains_key(t) <==> last_index_in(
                        before.history@,
                        t,
                    ) >= 0);
                }
                assert forall|t: Seq<char>| #[trigger]
                    self.ticker_index@.contains_key(t) implies self.ticker_index@[t]
                    == last_index_in(self.history@, t) by {
                    assert(before.ticker_index@.contains_key(t) <==> last_index_in(
                        before.history@,
                        t,
                    ) >= 0);
                }
            }
        }
    }

    /// The newest entry, whatever its age. `None` on an empty ring.
    pub fn head(&self) -> (r: Option<RingEntry>)
        requires
            self.wf(),
        ensures
            r == self@.latest(),
    {
        if self.write_idx == 0 {
            return None;
        }
        let slot: usize = (self.write_idx - 1) % self.capacity;
        proof {
            let last = self.history@[self.write_idx - 1];
            lemma_mod_bound(self.write_idx - 1, self.capacity as int);
        }
        Some(self.buf[slot])
    }

    /// The newest entry, where it is within the window.
    pub fn fresh_head(&self, now: i64) -> (r: Option<RingEntry>)
        requires
            self.wf(),
        ensures
            r == self@.fresh_head(now),
    {
        match self.head() {
            Some(e) => if e.is_fresh(now, self.window) {
                Some(e)
            } else {
                None
            },
            None => None,
        }
    }

    /// The newest entry of one ticker.
    ///
    /// `None` if the ring has no ticker index, nothing was written under `ticker`, its last entry
    /// was overwritten, or that entry is outside the freshness window.
    pub fn get_by_ticker(&self, ticker: &str, now: i64) -> (r: Option<RingEntry>)
        requires
            self.wf(),
        ensures
            r == self@.lookup(ticker@, now),
    {
        if !self.indexed {
            return None;
        }
        proof {
            assert(self.ticker_index@.contains_key(ticker@) <==> last_index_in(
                self.history@,
                ticker@,
            ) >= 0);
            lemma_last_index(self.history@, ticker@);
        }
        let mono_idx: usize = match self.ticker_index.get(ticker) {
            Some(i) => *i,
            None => {
                return None;
            },
        };
        let slot: usize = mono_idx % self.capacity;
        proof {
            lemma_mod_bound(mono_idx as int, self.capacity as int);
        }
        let entry: RingEntry = self.buf[slot];
        proof {
            let cap = self.capacity as int;
            let at = self.history@[mono_idx as int];
            if mono_idx < self@.oldest() {
                let w = lemma_slot_in_lap(mono_idx as int, self@.oldest(), cap);
                assert(self.buf@[slot as int] == self.history@[w].entry);
            }
        }
        if entry.seq != mono_idx as u64 {
            return None;
        }
        if entry.is_fresh(now, self.window) {
            Some(entry)
        } else {
            None
        }
    }

    /// Takes every entry written since the last drain that is still in the ring, oldest first,
    /// each with the source's name and its ticker.
    pub fn flush_drain(&mut self, source: &'static str) -> (r: Vec<
        (&'static str, RingEntry, Option<String>),
    >)
        requires
            old(self).wf(),
        ensures
            final(self).wf(),
            final(self)@ == old(self)@.after_drain(),
            carried(r@) == tagged(source@, old(self)@),
    {
        let widx: usize = self.write_idx;
        let cap: usize = self.capacity;
        let mut start: usize = self.flush_cursor;
        if widx - start > cap {
            start = widx - cap;
        }
        let ghost before = *self;
        let ghost pending = self@.pending();
        let mut out: Vec<(&'static str, RingEntry, Option<String>)> = Vec::new();
        let mut i: usize = start;
        assert(start == self@.drain_start());
        while i < widx
            invariant
                start <= i <= widx,
                start == before@.drain_start(),
                before.wf(),
                widx == before.write_idx,
                cap == before.capacity,
                pending == before@.pending(),
                self.buf == before.buf,
                self.write_idx == before.write_idx,
                self.flush_cursor == before.flush_cursor,
                self.capacity == before.capacity,
                self.window == before.window,
                self.indexed == before.indexed,
                self.ticker_index == before.ticker_index,
                self.history == before.history,
                self.ticker_store@.len() == before.ticker_store@.len(),
                self.indexed ==> forall|j: int|
                    #![trigger before.history@[j]]
                    i <= j < widx ==> opt_text(self.ticker_store@[j % cap as int])
                        == before.history@[j].ticker,
                out@.len() == i - start,
                forall|k: int|
                    0 <= k < out@.len() ==> item_view(#[trigger] out@[k]) == (source@, pending[k]),
            decreases widx - i,
        {
            let slot: usize = i % cap;
            proof {
                lemma_mod_bound(i as int, cap as int);
            }
            let mut ticker: Option<String> = None;
            if self.indexed {
                ticker = self.ticker_store[slot].take();
                proof {
                    assert forall|j: int| i + 1 <= j < widx implies opt_text(
                        self.ticker_store@[j % cap as int],
                    ) == (#[trigger] before.history@[j]).ticker by {
                        lemma_slots_differ(i as int, j, cap as int);
                        lemma_mod_bound(j, cap as int);
                    }
                }
            }
            out.push((source, self.buf[slot], ticker));
            assert(pending[i - start] == before.history@[i as int]);
            i += 1;
        }
        self.flush_cursor = widx;
        assert(carried(out@) =~= tagged(source@, before@));
        out
    }

    /// Entries ever written.
    pub fn write_count(&self) -> (r: usize)
        requires
            self.wf(),
        ensures
            r == self@.history.len(),
    {
        self.write_idx
    }

    /// Entries written since the last drain.
    pub fn pending_flush(&self) -> (r: usize)
        requires
            self.wf(),
        ensures
            r == self@.backlog(),
    {
        self.write_idx - self.flush_cursor
    }
}

/// Freshness window of the oracle and volatility sources, in microseconds.
pub const ORACLE_WINDOW: i64 = 300_000_000;

/// Freshness window of the perpetual-futures sources, in microseconds.
pub const PERP_WINDOW: i64 = 60_000_000;

/// Freshness window of the venue sources, in microseconds.
pub const VENUE_WINDOW: i64 = 30_000_000;

/// All feed source rings, allocated at startup.
pub struct RingSet {
    // Oracle and volatility sources.
    pub binance: SourceRing,
    pub brti: SourceRing,
    pub rtds_chainlink: SourceRing,
    pub rtds_binance: SourceRing,
    pub chainlink: SourceRing,
    pub deribit_iv: SourceRing,
    pub deribit_iv_computed: SourceRing,
    pub deribit_ws: SourceRing,
    // Perpetual-futures context.
    pub hyperliquid: SourceRing,
    pub hyperliquid_trades: SourceRing,
    pub hyperliquid_l2: SourceRing,
    // Venue sources, with a ticker index.
    pub kalshi_book: SourceRing,
    pub kalshi_delta: SourceRing,
    pub kalshi_ticker: SourceRing,
    pub poly_book: SourceRing,
    pub poly_bbo: SourceRing,
    pub poly_price: SourceRing,
    pub poly_trade: SourceRing,
    pub poly_resolved: SourceRing,
}

impl RingSet {
    /// Every ring is well formed.
    pub open spec fn wf(&self) -> bool {
        &&& self.binance.wf()
        &&& self.brti.wf()
        &&& self.rtds_chainlink.wf()
        &&& self.rtds_binance.wf()
        &&& self.chainlink.wf()
        &&& self.deribit_iv.wf()
        &&& self.deribit_iv_computed.wf()
        &&& self.deribit_ws.wf()
        &&& self.hyperliquid.wf()
        &&& self.hyperliquid_trades.wf()
        &&& self.hyperliquid_l2.wf()
        &&& self.kalshi_book.wf()
        &&& self.kalshi_delta.wf()
        &&& self.kalshi_ticker.wf()
        &&& self.poly_book.wf()
        &&& self.poly_bbo.wf()
        &&& self.poly_price.wf()
        &&& self.poly_trade.wf()
        &&& self.poly_resolved.wf()
    }

    /// Every ring is newly made, with its capacity, freshness window and index.
    pub open spec fn is_new(&self) -> bool {
        &&& self.binance@ == empty_ring(300, ORACLE_WINDOW, false)
        &&& self.brti@ == empty_ring(100, ORACLE_WINDOW, false)
        &&& self.rtds_chainlink@ == empty_ring(100, ORACLE_WINDOW, false)
        &&& self.rtds_binance@ == empty_ring(100, ORACLE_WINDOW, false)
        &&& self.chainlink@ == empty_ring(32, ORACLE_WINDOW, false)
        &&& self.deribit_iv@ == empty_ring(32, ORACLE_WINDOW, false)
        &&& self.deribit_iv_computed@ == empty_ring(32, ORACLE_WINDOW, false)
        &&& self.deribit_ws@ == empty_ring(1500, ORACLE_WINDOW, false)
        &&& self.hyperliquid@ == empty_ring(64, PERP_WINDOW, false)
        &&& self.hyperliquid_trades@ == empty_ring(300, PERP_WINDOW, false)
        &&& self.hyperliquid_l2@ == empty_ring(64, PERP_WINDOW, false)
        &&& self.kalshi_book@ == empty_ring(180, VENUE_WINDOW, true)
        &&& self.kalshi_delta@ == empty_ring(180, VENUE_WINDOW, true)
        &&& self.kalshi_ticker@ == empty_ring(180, VENUE_WINDOW, true)
        &&& self.poly_book@ == empty_ring(300, VENUE_WINDOW, true)
        &&& self.poly_bbo@ == empty_ring(300, VENUE_WINDOW, true)
        &&& self.poly_price@ == empty_ring(2400, VENUE_WINDOW, true)
        &&& self.poly_trade@ == empty_ring(600, VENUE_WINDOW, true)
        &&& self.poly_resolved@ == empty_ring(32, VENUE_WINDOW, true)
    }

    /// All that is pending, ring by ring, under the rings' names.
    pub open spec fn all_pending(&self) -> Seq<(Seq<char>, Logged)> {
        Seq::<(Seq<char>, Logged)>::empty()
            + tagged("binance"@, self.binance@)
            + tagged("brti"@, self.brti@)
            + tagged("rtds_chainlink"@, self.rtds_chainlink@)
            + tagged("rtds_binance"@, self.rtds_binance@)
            + tagged("chainlink"@, self.chainlink@)
            + tagged("deribit_iv"@, self.deribit_iv@)
            + tagged("deribit_iv_computed"@, self.deribit_iv_computed@)
            + tagged("deribit_ws"@, self.deribit_ws@)
            + tagged("hyperliquid"@, self.hyperliquid@)
            + tagged("hyperliquid_trades"@, self.hyperliquid_trades@)
            + tagged("hyperliquid_l2"@, self.hyperliquid_l2@)
            + tagged("kalshi_book"@, self.kalshi_book@)
            + tagged("kalshi_delta"@, self.kalshi_delta@)
            + tagged("kalshi_ticker"@, self.kalshi_ticker@)
            + tagged("poly_book"@, self.poly_book@)
            + tagged("poly_bbo"@, self.poly_bbo@)
            + tagged("poly_price"@, self.poly_price@)
            + tagged("poly_trade"@, self.poly_trade@)
            + tagged("poly_resolved"@, self.poly_resolved@)
    }

    /// Every ring is as it was, but drained.
    pub open spec fn drained_from(&self, before: &RingSet) -> bool {
        &&& self.binance@ == before.binance@.after_drain()
        &&& self.brti@ == before.brti@.after_drain()
        &&& self.rtds_chainlink@ == before.rtds_chainlink@.after_drain()
        &&& self.rtds_binance@ == before.rtds_binance@.after_drain()
        &&& self.chainlink@ == before.chainlink@.after_drain()
        &&& self.deribit_iv@ == before.deribit_iv@.after_drain()
        &&& self.deribit_iv_computed@ == before.deribit_iv_computed@.after_drain()
        &&& self.deribit_ws@ == before.deribit_ws@.after_drain()
        &&& self.hyperliquid@ == before.hyperliquid@.after_drain()
        &&& self.hyperliquid_trades@ == before.hyperliquid_trades@.after_drain()
        &&& self.hyperliquid_l2@ == before.hyperliquid_l2@.after_drain()
        &&& self.kalshi_book@ == before.kalshi_book@.after_drain()
        &&& self.kalshi_delta@ == before.kalshi_delta@.after_drain()
        &&& self.kalshi_ticker@ == before.kalshi_ticker@.after_drain()
        &&& self.poly_book@ == before.poly_book@.after_drain()
        &&& self.poly_bbo@ == before.poly_bbo@.after_drain()
        &&& self.poly_price@ == before.poly_price@.after_drain()
        &&& self.poly_trade@ == before.poly_trade@.after_drain()
        &&& self.poly_resolved@ == before.poly_resolved@.after_drain()
    }

    /// How many writes the flusher has not passed yet, over all rings.
    pub open spec fn total_backlog(&self) -> int {
        self.binance@.backlog()
            + self.brti@.backlog()
            + self.rtds_chainlink@.backlog()
            + self.rtds_binance@.backlog()
            + self.chainlink@.backlog()
            + self.deribit_iv@.backlog()
            + self.deribit_iv_computed@.backlog()
            + self.deribit_ws@.backlog()
            + self.hyperliquid@.backlog()
            + self.hyperliquid_trades@.backlog()
            + self.hyperliquid_l2@.backlog()
            + self.kalshi_book@.backlog()
            + self.kalshi_delta@.backlog()
            + self.kalshi_ticker@.backlog()
            + self.poly_book@.backlog()
            + self.poly_bbo@.backlog()
            + self.poly_price@.backlog()
            + self.poly_trade@.backlog()
            + self.poly_resolved@.backlog()
    }

    /// Allocates all rings.
    pub fn new() -> (r: Self)
        ensures
            r.wf(),
            r.is_new(),
    {
        RingSet {
            binance: SourceRing::new(300, ORACLE_WINDOW, false),
            brti: SourceRing::new(100, ORACLE_WINDOW, false),
            rtds_chainlink: SourceRing::new(100, ORACLE_WINDOW, false),
            rtds_binance: SourceRing::new(100, ORACLE_WINDOW, false),
            chainlink: SourceRing::new(32, ORACLE_WINDOW, false),
            deribit_iv: SourceRing::new(32, ORACLE_WINDOW, false),
            deribit_iv_computed: SourceRing::new(32, ORACLE_WINDOW, false),
            deribit_ws: SourceRing::new(1500, ORACLE_WINDOW, false),
            hyperliquid: SourceRing::new(64, PERP_WINDOW, false),
            hyperliquid_trades: SourceRing::new(300, PERP_WINDOW, false),
            hyperliquid_l2: SourceRing::new(64, PERP_WINDOW, false),
            kalshi_book: SourceRing::new(180, VENUE_WINDOW, true),
            kalshi_delta: SourceRing::new(180, VENUE_WINDOW, true),
            kalshi_ticker: SourceRing::new(180, VENUE_WINDOW, true),
            poly_book: SourceRing::new(300, VENUE_WINDOW, true),
            poly_bbo: SourceRing::new(300, VENUE_WINDOW, true),
            poly_price: SourceRing::new(2400, VENUE_WINDOW, true),
            poly_trade: SourceRing::new(600, VENUE_WINDOW, true),
            poly_resolved: SourceRing::new(32, VENUE_WINDOW, true),
        }
    }

    /// Drains all rings, one after the other.
    pub fn drain_all(&mut self) -> (r: Vec<(&'static str, RingEntry, Option<String>)>)
        requires
            old(self).wf(),
        ensures
            final(self).wf(),
            final(self).drained_from(old(self)),
            carried(r@) == old(self).all_pending(),
    {
        let mut out: Vec<(&'static str, RingEntry, Option<String>)> = Vec::new();
        assert(carried(out@) =~= Seq::<(Seq<char>, Logged)>::empty());
        drain_into(&mut self.binance, "binance", &mut out);
        drain_into(&mut self.brti, "brti", &mut out);
        drain_into(&mut self.rtds_chainlink, "rtds_chainlink", &mut out);
        drain_into(&mut self.rtds_binance, "rtds_binance", &mut out);
        drain_into(&mut self.chainlink, "chainlink", &mut out);
        drain_into(&mut self.deribit_iv, "deribit_iv", &mut out);
        drain_into(&mut self.deribit_iv_computed, "deribit_iv_computed", &mut out);
        drain_into(&mut self.deribit_ws, "deribit_ws", &mut out);
        drain_into(&mut self.hyperliquid, "hyperliquid", &mut out);
        drain_into(&mut self.hyperliquid_trades, "hyperliquid_trades", &mut out);
        drain_into(&mut self.hyperliquid_l2, "hyperliquid_l2", &mut out);
        drain_into(&mut self.kalshi_book, "kalshi_book", &mut out);
        drain_into(&mut self.kalshi_delta, "kalshi_delta", &mut out);
        drain_into(&mut self.kalshi_ticker, "kalshi_ticker", &mut out);
        drain_into(&mut self.poly_book, "poly_book", &mut out);
        drain_into(&mut self.poly_bbo, "poly_bbo", &mut out);
        drain_into(&mut self.poly_price, "poly_price", &mut out);
        drain_into(&mut self.poly_trade, "poly_trade", &mut out);
        drain_into(&mut self.poly_resolved, "poly_resolved", &mut out);
        out
    }

    /// Entries that wait for a drain, over all rings.
    pub fn total_pending_flush(&self) -> (r: usize)
        requires
            self.wf(),
            self.total_backlog() <= usize::MAX,
        ensures
            r == self.total_backlog(),
    {
        self.binance.pending_flush()
            + self.brti.pending_flush()
            + self.rtds_chainlink.pending_flush()
            + self.rtds_binance.pending_flush()
            + self.chainlink.pending_flush()
            + self.deribit_iv.pending_flush()
            + self.deribit_iv_computed.pending_flush()
            + self.deribit_ws.pending_flush()
            + self.hyperliquid.pending_flush()
            + self.hyperliquid_trades.pending_flush()
            + self.hyperliquid_l2.pending_flush()
            + self.kalshi_book.pending_flush()
            + self.kalshi_delta.pending_flush()
            + self.kalshi_ticker.pending_flush()
            + self.poly_book.pending_flush()
            + self.poly_bbo.pending_flush()
            + self.poly_price.pending_flush()
            + self.poly_trade.pending_flush()
            + self.poly_resolved.pending_flush()
    }
}

impl Default for RingSet {
    fn default() -> (r: Self)
        ensures
            r.wf(),
            r.is_new(),
    {
        RingSet::new()
    }
}

fn drain_into(
    ring: &mut SourceRing,
    source: &'static str,
    out: &mut Vec<(&'static str, RingEntry, Option<String>)>,
)
    requires
        old(ring).wf(),
    ensures
        final(ring).wf(),
        final(ring)@ == old(ring)@.after_drain(),
        carried(final(out)@) == carried(old(out)@) + tagged(source@, old(ring)@),
{
    let mut part: Vec<(&'static str, RingEntry, Option<String>)> = ring.flush_drain(source);
    let ghost items = part@;
    out.append(&mut part);
    assert(carried(out@) =~= carried(old(out)@) + carried(items));
}

/// Every well-formed ring has a valid view.
pub proof fn wf_ring_is_valid(ring: SourceRing)
    requires
        ring.wf(),
    ensures
        ring@.valid(),
{
}

/// The newest entry is the one written last.
pub proof fn head_reads_last_write(ring: RingView, x: Logged)
    ensures
        ring.after_write(x).latest() == Some(x.entry),
{
}

/// A ticker reads back what was last written under it, as long as that is fresh.
pub proof fn lookup_reads_last_write(ring: RingView, x: Logged, ticker: Seq<char>, now: i64)
    requires
        ring.valid(),
        ring.indexed,
        x.ticker == Some(ticker),
    ensures
        ring.after_write(x).lookup(ticker, now) == if x.entry.fresh(now, ring.window) {
            Some(x.entry)
        } else {
            None
        },
{
}

/// A write under another ticker, or under none, does not change what a ticker reads, unless it
/// overwrites that ticker's last entry: then the ticker reads as absent.
pub proof fn lookup_keeps_other_tickers(ring: RingView, x: Logged, ticker: Seq<char>, now: i64)
    requires
        ring.valid(),
        x.ticker != Some(ticker),
    ensures
        ring.after_write(x).lookup(ticker, now) == if ring.last_index(ticker)
            == ring.history.len() - ring.capacity {
            None
        } else {
            ring.lookup(ticker, now)
        },
{
    lemma_last_index(ring.history, ticker);
    assert(ring.after_write(x).history.drop_last() =~= ring.history);
}

/// Once a ticker's last entry is overwritten, the ticker reads as absent at any time.
pub proof fn lapped_ticker_is_absent(ring: RingView, ticker: Seq<char>, now: i64)
    requires
        ring.valid(),
        ring.last_index(ticker) + ring.capacity < ring.history.len(),
    ensures
        ring.lookup(ticker, now) is None,
{
}

/// A drain leaves nothing pending: no entry is delivered twice.
pub proof fn drain_leaves_nothing_pending(ring: RingView)
    requires
        ring.valid(),
    ensures
        ring.after_drain().valid(),
        ring.after_drain().pending() == Seq::<Logged>::empty(),
        ring.after_drain().backlog() == 0,
{
    assert(ring.after_drain().pending() =~= Seq::<Logged>::empty());
}

/// A drain does not change what the kernel reads.
pub proof fn drain_keeps_reads(ring: RingView, ticker: Seq<char>, now: i64)
    ensures
        ring.after_drain().latest() == ring.latest(),
        ring.after_drain().lookup(ticker, now) == ring.lookup(ticker, now),
{
}

/// A write joins what is pending at its end; where a whole lap was already pending, the oldest
/// pending entry is lost to it.
pub proof fn write_joins_pending(ring: RingView, x: Logged)
    requires
        ring.valid(),
    ensures
        ring.after_write(x).pending() == if ring.backlog() < ring.capacity {
            ring.pending().push(x)
        } else {
            ring.pending().drop_first().push(x)
        },
{
    let after = ring.after_write(x);
    if ring.backlog() < ring.capacity {
        assert(after.pending() =~= ring.pending().push(x));
    } else {
        assert(after.pending() =~= ring.pending().drop_first().push(x));
    }
}

/// A drain never delivers more than a lap, and it delivers all of the backlog where that is no
/// more than a lap.
pub proof fn drain_delivers_backlog(ring: RingView)
    requires
        ring.valid(),
    ensures
        ring.pending().len() == if ring.backlog() <= ring.capacity {
            ring.backlog()
        } else {
            ring.capacity
        },
        forall|k: int|
            0 <= k < ring.pending().len() ==> (#[trigger] ring.pending()[k]).entry.seq
                == ring.drain_start() + k,
{
}

/// A write at the next index keeps the view valid and adds one to the backlog.
pub proof fn write_keeps_valid(ring: RingView, x: Logged)
    requires
        ring.valid(),
        x.entry.seq == ring.history.len(),
    ensures
        ring.after_write(x).valid(),
        ring.after_write(x).backlog() == ring.backlog() + 1,
{
}

/// New rings are empty and have the sizes of their sources. Oracles and volatilities are fresh for
/// five minutes, perpetuals for one and venues for half of one; the venues' rings, and no others,
/// are read by ticker.
pub proof fn new_rings_fit_their_sources(rings: RingSet)
    requires
        rings.is_new(),
    ensures
        rings.binance@.capacity == 300 && rings.binance@.history.len() == 0,
        rings.brti@.capacity == 100 && rings.brti@.history.len() == 0,
        rings.rtds_chainlink@.capacity == 100 && rings.rtds_chainlink@.history.len() == 0,
        rings.rtds_binance@.capacity == 100 && rings.rtds_binance@.history.len() == 0,
        rings.chainlink@.capacity == 32 && rings.chainlink@.history.len() == 0,
        rings.deribit_iv@.capacity == 32 && rings.deribit_iv@.history.len() == 0,
        rings.deribit_iv_computed@.capacity == 32 && rings.deribit_iv_computed@.history.len() == 0,
        rings.deribit_ws@.capacity == 1500 && rings.deribit_ws@.history.len() == 0,
        rings.hyperliquid@.capacity == 64 && rings.hyperliquid@.history.len() == 0,
        rings.hyperliquid_trades@.capacity == 300 && rings.hyperliquid_trades@.history.len() == 0,
        rings.hyperliquid_l2@.capacity == 64 && rings.hyperliquid_l2@.history.len() == 0,
        rings.kalshi_book@.capacity == 180 && rings.kalshi_book@.history.len() == 0,
        rings.kalshi_delta@.capacity == 180 && rings.kalshi_delta@.history.len() == 0,
        rings.kalshi_ticker@.capacity == 180 && rings.kalshi_ticker@.history.len() == 0,
        rings.poly_book@.capacity == 300 && rings.poly_book@.history.len() == 0,
        rings.poly_bbo@.capacity == 300 && rings.poly_bbo@.history.len() == 0,
        rings.poly_price@.capacity == 2400 && rings.poly_price@.history.len() == 0,
        rings.poly_trade@.capacity == 600 && rings.poly_trade@.history.len() == 0,
        rings.poly_resolved@.capacity == 32 && rings.poly_resolved@.history.len() == 0,
        rings.binance@.window == 300 * 1_000_000 && !rings.binance@.indexed,
        rings.brti@.window == 300 * 1_000_000 && !rings.brti@.indexed,
        rings.rtds_chainlink@.window == 300 * 1_000_000 && !rings.rtds_chainlink@.indexed,
        rings.rtds_binance@.window == 300 * 1_000_000 && !rings.rtds_binance@.indexed,
        rings.chainlink@.window == 300 * 1_000_000 && !rings.chainlink@.indexed,
        rings.deribit_iv@.window == 300 * 1_000_000 && !rings.deribit_iv@.indexed,
        rings.deribit_iv_computed@.window == 300 * 1_000_000 && !rings.deribit_iv_computed@.indexed,
        rings.deribit_ws@.window == 300 * 1_000_000 && !rings.deribit_ws@.indexed,
        rings.hyperliquid@.window == 60 * 1_000_000 && !rings.hyperliquid@.indexed,
        rings.hyperliquid_trades@.window == 60 * 1_000_000 && !rings.hyperliquid_trades@.indexed,
        rings.hyperliquid_l2@.window == 60 * 1_000_000 && !rings.hyperliquid_l2@.indexed,
        rings.kalshi_book@.window == 30 * 1_000_000 && rings.kalshi_book@.indexed,
        rings.kalshi_delta@.window == 30 * 1_000_000 && rings.kalshi_delta@.indexed,
        rings.kalshi_ticker@.window == 30 * 1_000_000 && rings.kalshi_ticker@.indexed,
        rings.poly_book@.window == 30 * 1_000_000 && rings.poly_book@.indexed,
        rings.poly_bbo@.window == 30 * 1_000_000 && rings.poly_bbo@.indexed,
        rings.poly_price@.window == 30 * 1_000_000 && rings.poly_price@.indexed,
        rings.poly_trade@.window == 30 * 1_000_000 && rings.poly_trade@.indexed,
        rings.poly_resolved@.window == 30 * 1_000_000 && rings.poly_resolved@.indexed,
{
}

proof fn lemma_joined(a: Seq<(Seq<char>, Logged)>, b: Seq<(Seq<char>, Logged)>)
    ensures
        forall|y: (Seq<char>, Logged)| #[trigger] a.contains(y) ==> (a + b).contains(y),
        forall|y: (Seq<char>, Logged)| #[trigger] b.contains(y) ==> (a + b).contains(y),
{
    assert forall|y: (Seq<char>, Logged)| #[trigger] a.contains(y) implies (a + b).contains(y) by {
        let i = a.index_of(y);
        assert((a + b)[i] == y);
    }
    assert forall|y: (Seq<char>, Logged)| #[trigger] b.contains(y) implies (a + b).contains(y) by {
        let i = b.index_of(y);
        assert((a + b)[a.len() + i] == y);
    }
}

proof fn lemma_tagged(source: Seq<char>, ring: RingView, x: Logged)
    requires
        ring.pending().contains(x),
    ensures
        tagged(source, ring).contains((source, x)),
{
    let i = ring.pending().index_of(x);
    assert(tagged(source, ring)[i] == (source, x));
}

/// What is pending in a ring is drained under the ring's own name, whichever ring it is.
pub proof fn pending_writes_are_drained_under_their_source(rings: RingSet, x: Logged)
    ensures
        rings.binance@.pending().contains(x) ==> rings.all_pending().contains(("binance"@, x)),
        rings.brti@.pending().contains(x) ==> rings.all_pending().contains(("brti"@, x)),
        rings.rtds_chainlink@.pending().contains(x)
            ==> rings.all_pending().contains(("rtds_chainlink"@, x)),
        rings.rtds_binance@.pending().contains(x)
            ==> rings.all_pending().contains(("rtds_binance"@, x)),
        rings.chainlink@.pending().contains(x) ==> rings.all_pending().contains(("chainlink"@, x)),
        rings.deribit_iv@.pending().contains(x)
            ==> rings.all_pending().contains(("deribit_iv"@, x)),
        rings.deribit_iv_computed@.pending().contains(x)
            ==> rings.all_pending().contains(("deribit_iv_computed"@, x)),
        rings.deribit_ws@.pending().contains(x)
            ==> rings.all_pending().contains(("deribit_ws"@, x)),
        rings.hyperliquid@.pending().contains(x)
            ==> rings.all_pending().contains(("hyperliquid"@, x)),
        rings.hyperliquid_trades@.pending().contains(x)
            ==> rings.all_pending().contains(("hyperliquid_trades"@, x)),
        rings.hyperliquid_l2@.pending().contains(x)
            ==> rings.all_pending().contains(("hyperliquid_l2"@, x)),
        rings.kalshi_book@.pending().contains(x)
            ==> rings.all_pending().contains(("kalshi_book"@, x)),
        rings.kalshi_delta@.pending().contains(x)
            ==> rings.all_pending().contains(("kalshi_delta"@, x)),
        rings.kalshi_ticker@.pending().contains(x)
            ==> rings.all_pending().contains(("kalshi_ticker"@, x)),
        rings.poly_book@.pending().contains(x) ==> rings.all_pending().contains(("poly_book"@, x)),
        rings.poly_bbo@.pending().contains(x) ==> rings.all_pending().contains(("poly_bbo"@, x)),
        rings.poly_price@.pending().contains(x)
            ==> rings.all_pending().contains(("poly_price"@, x)),
        rings.poly_trade@.pending().contains(x)
            ==> rings.all_pending().contains(("poly_trade"@, x)),
        rings.poly_resolved@.pending().contains(x)
            ==> rings.all_pending().contains(("poly_resolved"@, x)),
{
    let s0 = Seq::<(Seq<char>, Logged)>::empty();
    let s1 = s0 + tagged("binance"@, rings.binance@);
    lemma_joined(s0, tagged("binance"@, rings.binance@));
    let s2 = s1 + tagged("brti"@, rings.brti@);
    lemma_joined(s1, tagged("brti"@, rings.brti@));
    let s3 = s2 + tagged("rtds_chainlink"@, rings.rtds_chainlink@);
    lemma_joined(s2, tagged("rtds_chainlink"@, rings.rtds_chainlink@));
    let s4 = s3 + tagged("rtds_binance"@, rings.rtds_binance@);
    lemma_joined(s3, tagged("rtds_binance"@, rings.rtds_binance@));
    let s5 = s4 + tagged("chainlink"@, rings.chainlink@);
    lemma_joined(s4, tagged("chainlink"@, rings.chainlink@));
    let s6 = s5 + tagged("deribit_iv"@, rings.deribit_iv@);
    lemma_joined(s5, tagged("deribit_iv"@, rings.deribit_iv@));
    let s7 = s6 + tagged("deribit_iv_computed"@, rings.deribit_iv_computed@);
    lemma_joined(s6, tagged("deribit_iv_computed"@, rings.deribit_iv_computed@));
    let s8 = s7 + tagged("deribit_ws"@, rings.deribit_ws@);
    lemma_joined(s7, tagged("deribit_ws"@, rings.deribit_ws@));
    let s9 = s8 + tagged("hyperliquid"@, rings.hyperliquid@);
    lemma_joined(s8, tagged("hyperliquid"@, rings.hyperliquid@));
    let s10 = s9 + tagged("hyperliquid_trades"@, rings.hyperliquid_trades@);
    lemma_joined(s9, tagged("hyperliquid_trades"@, rings.hyperliquid_trades@));
    let s11 = s10 + tagged("hyperliquid_l2"@, rings.hyperliquid_l2@);
    lemma_joined(s10, tagged("hyperliquid_l2"@, rings.hyperliquid_l2@));
    let s12 = s11 + tagged("kalshi_book"@, rings.kalshi_book@);
    lemma_joined(s11, tagged("kalshi_book"@, rings.kalshi_book@));
    let s13 = s12 + tagged("kalshi_delta"@, rings.kalshi_delta@);
    lemma_joined(s12, tagged("kalshi_delta"@, rings.kalshi_delta@));
    let s14 = s13 + tagged("kalshi_ticker"@, rings.kalshi_ticker@);
    lemma_joined(s13, tagged("kalshi_ticker"@, rings.kalshi_ticker@));
    let s15 = s14 + tagged("poly_book"@, rings.poly_book@);
    lemma_joined(s14, tagged("poly_book"@, rings.poly_book@));
    let s16 = s15 + tagged("poly_bbo"@, rings.poly_bbo@);
    lemma_joined(s15, tagged("poly_bbo"@, rings.poly_bbo@));
    let s17 = s16 + tagged("poly_price"@, rings.poly_price@);
    lemma_joined(s16, tagged("poly_price"@, rings.poly_price@));
    let s18 = s17 + tagged("poly_trade"@, rings.poly_trade@);
    lemma_joined(s17, tagged("poly_trade"@, rings.poly_trade@));
    let s19 = s18 + tagged("poly_resolved"@, rings.poly_resolved@);
    lemma_joined(s18, tagged("poly_resolved"@, rings.poly_resolved@));
    if rings.binance@.pending().contains(x) {
        lemma_tagged("binance"@, rings.binance@, x);
        assert(s1.contains(("binance"@, x)));
        assert(s2.contains(("binance"@, x)));
        assert(s3.contains(("binance"@, x)));
        assert(s4.contains(("binance"@, x)));
        assert(s5.contains(("binance"@, x)));
        assert(s6.contains(("binance"@, x)));
        assert(s7.contains(("binance"@, x)));
        assert(s8.contains(("binance"@, x)));
        assert(s9.contains(("binance"@, x)));
        assert(s10.contains(("binance"@, x)));
        assert(s11.contains(("binance"@, x)));
        assert(s12.contains(("binance"@, x)));
        assert(s13.contains(("binance"@, x)));
        assert(s14.contains(("binance"@, x)));
        assert(s15.contains(("binance"@, x)));
        assert(s16.contains(("binance"@, x)));
        assert(s17.contains(("binance"@, x)));
        assert(s18.contains(("binance"@, x)));
        assert(s19.contains(("binance"@, x)));
    }
    if rings.brti@.pending().contains(x) {
        lemma_tagged("brti"@, rings.brti@, x);
        assert(s2.contains(("brti"@, x)));
        assert(s3.contains(("brti"@, x)));
        assert(s4.contains(("brti"@, x)));
        assert(s5.contains(("brti"@, x)));
        assert(s6.contains(("brti"@, x)));
        assert(s7.contains(("brti"@, x)));
        assert(s8.contains(("brti"@, x)));
        assert(s9.contains(("brti"@, x)));
        assert(s10.contains(("brti"@, x)));
        assert(s11.contains(("brti"@, x)));
        assert(s12.contains(("brti"@, x)));
        assert(s13.contains(("brti"@, x)));
        assert(s14.contains(("brti"@, x)));
        assert(s15.contains(("brti"@, x)));
        assert(s16.contains(("brti"@, x)));
        assert(s17.contains(("brti"@, x)));
        assert(s18.contains(("brti"@, x)));
        assert(s19.contains(("brti"@, x)));
    }
    if rings.rtds_chainlink@.pending().contains(x) {
        lemma_tagged("rtds_chainlink"@, rings.rtds_chainlink@, x);
        assert(s3.contains(("rtds_chainlink"@, x)));
        assert(s4.contains(("rtds_chainlink"@, x)));
        assert(s5.contains(("rtds_chainlink"@, x)));
        assert(s6.contains(("rtds_chainlink"@, x)));
        assert(s7.contains(("rtds_chainlink"@, x)));
        assert(s8.contains(("rtds_chainlink"@, x)));
        assert(s9.contains(("rtds_chainlink"@, x)));
        assert(s10.contains(("rtds_chainlink"@, x)));
        assert(s11.contains(("rtds_chainlink"@, x)));
        assert(s12.contains(("rtds_chainlink"@, x)));
        assert(s13.contains(("rtds_chainlink"@, x)));
        assert(s14.contains(("rtds_chainlink"@, x)));
        assert(s15.contains(("rtds_chainlink"@, x)));
        assert(s16.contains(("rtds_chainlink"@, x)));
        assert(s17.contains(("rtds_chainlink"@, x)));
        assert(s18.contains(("rtds_chainlink"@, x)));
        assert(s19.contains(("rtds_chainlink"@, x)));
    }
    if rings.rtds_binance@.pending().contains(x) {
        lemma_tagged("rtds_binance"@, rings.rtds_binance@, x);
        assert(s4.contains(("rtds_binance"@, x)));
        assert(s5.contains(("rtds_binance"@, x)));
        assert(s6.contains(("rtds_binance"@, x)));
        assert(s7.contains(("rtds_binance"@, x)));
        assert(s8.contains(("rtds_binance"@, x)));
        assert(s9.contains(("rtds_binance"@, x)));
        assert(s10.contains(("rtds_binance"@, x)));
        assert(s11.contains(("rtds_binance"@, x)));
        assert(s12.contains(("rtds_binance"@, x)));
        assert(s13.contains(("rtds_binance"@, x)));
        assert(s14.contains(("rtds_binance"@, x)));
        assert(s15.contains(("rtds_binance"@, x)));
        assert(s16.contains(("rtds_binance"@, x)));
        assert(s17.contains(("rtds_binance"@, x)));
        assert(s18.contains(("rtds_binance"@, x)));
        assert(s19.contains(("rtds_binance"@, x)));
    }
    if rings.chainlink@.pending().contains(x) {
        lemma_tagged("chainlink"@, rings.chainlink@, x);
        assert(s5.contains(("chainlink"@, x)));
        assert(s6.contains(("chainlink"@, x)));
        assert(s7.contains(("chainlink"@, x)));
        assert(s8.contains(("chainlink"@, x)));
        assert(s9.contains(("chainlink"@, x)));
        assert(s10.contains(("chainlink"@, x)));
        assert(s11.contains(("chainlink"@, x)));
        assert(s12.contains(("chainlink"@, x)));
        assert(s13.contains(("chainlink"@, x)));
        assert(s14.contains(("chainlink"@, x)));
        assert(s15.contains(("chainlink"@, x)));
        assert(s16.contains(("chainlink"@, x)));
        assert(s17.contains(("chainlink"@, x)));
        assert(s18.contains(("chainlink"@, x)));
        assert(s19.contains(("chainlink"@, x)));
    }
    if rings.deribit_iv@.pending().contains(x) {
        lemma_tagged("deribit_iv"@, rings.deribit_iv@, x);
        assert(s6.contains(("deribit_iv"@, x)));
        assert(s7.contains(("deribit_iv"@, x)));
        assert(s8.contains(("deribit_iv"@, x)));
        assert(s9.contains(("deribit_iv"@, x)));
        assert(s10.contains(("deribit_iv"@, x)));
        assert(s11.contains(("deribit_iv"@, x)));
        assert(s12.contains(("deribit_iv"@, x)));
        assert(s13.contains(("deribit_iv"@, x)));
        assert(s14.contains(("deribit_iv"@, x)));
        assert(s15.contains(("deribit_iv"@, x)));
        assert(s16.contains(("deribit_iv"@, x)));
        assert(s17.contains(("deribit_iv"@, x)));
        assert(s18.contains(("deribit_iv"@, x)));
        assert(s19.contains(("deribit_iv"@, x)));
    }
    if rings.deribit_iv_computed@.pending().contains(x) {
        lemma_tagged("deribit_iv_computed"@, rings.deribit_iv_computed@, x);
        assert(s7.contains(("deribit_iv_computed"@, x)));
        assert(s8.contains(("deribit_iv_computed"@, x)));
        assert(s9.contains(("deribit_iv_computed"@, x)));
        assert(s10.contains(("deribit_iv_computed"@, x)));
        assert(s11.contains(("deribit_iv_computed"@, x)));
        assert(s12.contains(("deribit_iv_computed"@, x)));
        assert(s13.contains(("deribit_iv_computed"@, x)));
        assert(s14.contains(("deribit_iv_computed"@, x)));
        assert(s15.contains(("deribit_iv_computed"@, x)));
        assert(s16.contains(("deribit_iv_computed"@, x)));
        assert(s17.contains(("deribit_iv_computed"@, x)));
        assert(s18.contains(("deribit_iv_computed"@, x)));
        assert(s19.contains(("deribit_iv_computed"@, x)));
    }
    if rings.deribit_ws@.pending().contains(x) {
        lemma_tagged("deribit_ws"@, rings.deribit_ws@, x);
        assert(s8.contains(("deribit_ws"@, x)));
        assert(s9.contains(("deribit_ws"@, x)));
        assert(s10.contains(("deribit_ws"@, x)));
        assert(s11.contains(("deribit_ws"@, x)));
        assert(s12.contains(("deribit_ws"@, x)));
        assert(s13.contains(("deribit_ws"@, x)));
        assert(s14.contains(("deribit_ws"@, x)));
        assert(s15.contains(("deribit_ws"@, x)));
        assert(s16.contains(("deribit_ws"@, x)));
        assert(s17.contains(("deribit_ws"@, x)));
        assert(s18.contains(("deribit_ws"@, x)));
        assert(s19.contains(("deribit_ws"@, x)));
    }
    if rings.hyperliquid@.pending().contains(x) {
        lemma_tagged("hyperliquid"@, rings.hyperliquid@, x);
        assert(s9.contains(("hyperliquid"@, x)));
        assert(s10.contains(("hyperliquid"@, x)));
        assert(s11.contains(("hyperliquid"@, x)));
        assert(s12.contains(("hyperliquid"@, x)));
        assert(s13.contains(("hyperliquid"@, x)));
        assert(s14.contains(("hyperliquid"@, x)));
        assert(s15.contains(("hyperliquid"@, x)));
        assert(s16.contains(("hyperliquid"@, x)));
        assert(s17.contains(("hyperliquid"@, x)));
        assert(s18.contains(("hyperliquid"@, x)));
        assert(s19.contains(("hyperliquid"@, x)));
    }
    if rings.hyperliquid_trades@.pending().contains(x) {
        lemma_tagged("hyperliquid_trades"@, rings.hyperliquid_trades@, x);
        assert(s10.contains(("hyperliquid_trades"@, x)));
        assert(s11.contains(("hyperliquid_trades"@, x)));
        assert(s12.contains(("hyperliquid_trades"@, x)));
        assert(s13.contains(("hyperliquid_trades"@, x)));
        assert(s14.contains(("hyperliquid_trades"@, x)));
        assert(s15.contains(("hyperliquid_trades"@, x)));
        assert(s16.contains(("hyperliquid_trades"@, x)));
        assert(s17.contains(("hyperliquid_trades"@, x)));
        assert(s18.contains(("hyperliquid_trades"@, x)));
        assert(s19.contains(("hyperliquid_trades"@, x)));
    }
    if rings.hyperliquid_l2@.pending().contains(x) {
        lemma_tagged("hyperliquid_l2"@, rings.hyperliquid_l2@, x);
        assert(s11.contains(("hyperliquid_l2"@, x)));
        assert(s12.contains(("hyperliquid_l2"@, x)));
        assert(s13.contains(("hyperliquid_l2"@, x)));
        assert(s14.contains(("hyperliquid_l2"@, x)));
        assert(s15.contains(("hyperliquid_l2"@, x)));
        assert(s16.contains(("hyperliquid_l2"@, x)));
        assert(s17.contains(("hyperliquid_l2"@, x)));
        assert(s18.contains(("hyperliquid_l2"@, x)));
        assert(s19.contains(("hyperliquid_l2"@, x)));
    }
    if rings.kalshi_book@.pending().contains(x) {
        lemma_tagged("kalshi_book"@, rings.kalshi_book@, x);
        assert(s12.contains(("kalshi_book"@, x)));
        assert(s13.contains(("kalshi_book"@, x)));
        assert(s14.contains(("kalshi_book"@, x)));
        assert(s15.contains(("kalshi_book"@, x)));
        assert(s16.contains(("kalshi_book"@, x)));
        assert(s17.contains(("kalshi_book"@, x)));
        assert(s18.contains(("kalshi_book"@, x)));
        assert(s19.contains(("kalshi_book"@, x)));
    }
    if rings.kalshi_delta@.pending().contains(x) {
        lemma_tagged("kalshi_delta"@, rings.kalshi_delta@, x);
        assert(s13.contains(("kalshi_delta"@, x)));
        assert(s14.contains(("kalshi_delta"@, x)));
        assert(s15.contains(("kalshi_delta"@, x)));
        assert(s16.contains(("kalshi_delta"@, x)));
        assert(s17.contains(("kalshi_delta"@, x)));
        assert(s18.contains(("kalshi_delta"@, x)));
        assert(s19.contains(("kalshi_delta"@, x)));
    }
    if rings.kalshi_ticker@.pending().contains(x) {
        lemma_tagged("kalshi_ticker"@, rings.kalshi_ticker@, x);
        assert(s14.contains(("kalshi_ticker"@, x)));
        assert(s15.contains(("kalshi_ticker"@, x)));
        assert(s16.contains(("kalshi_ticker"@, x)));
        assert(s17.contains(("kalshi_ticker"@, x)));
        assert(s18.contains(("kalshi_ticker"@, x)));
        assert(s19.contains(("kalshi_ticker"@, x)));
    }
    if rings.poly_book@.pending().contains(x) {
        lemma_tagged("poly_book"@, rings.poly_book@, x);
        assert(s15.contains(("poly_book"@, x)));
        assert(s16.contains(("poly_book"@, x)));
        assert(s17.contains(("poly_book"@, x)));
        assert(s18.contains(("poly_book"@, x)));
        assert(s19.contains(("poly_book"@, x)));
    }
    if rings.poly_bbo@.pending().contains(x) {
        lemma_tagged("poly_bbo"@, rings.poly_bbo@, x);
        assert(s16.contains(("poly_bbo"@, x)));
        assert(s17.contains(("poly_bbo"@, x)));
        assert(s18.contains(("poly_bbo"@, x)));
        assert(s19.contains(("poly_bbo"@, x)));
    }
    if rings.poly_price@.pending().contains(x) {
        lemma_tagged("poly_price"@, rings.poly_price@, x);
        assert(s17.contains(("poly_price"@, x)));
        assert(s18.contains(("poly_price"@, x)));
        assert(s19.contains(("poly_price"@, x)));
    }
    if rings.poly_trade@.pending().contains(x) {
        lemma_tagged("poly_trade"@, rings.poly_trade@, x);
        assert(s18.contains(("poly_trade"@, x)));
        assert(s19.contains(("poly_trade"@, x)));
    }
    if rings.poly_resolved@.pending().contains(x) {
        lemma_tagged("poly_resolved"@, rings.poly_resolved@, x);
        assert(s19.contains(("poly_resolved"@, x)));
    }
}

/// A name drains what is pending, each write once and in order, tagged with the name.
pub proof fn tags_name_what_is_pending(source: Seq<char>, ring: RingView)
    ensures
        tagged(source, ring).len() == ring.pending().len(),
        forall|k: int|
            0 <= k < ring.pending().len() ==> #[trigger] tagged(source, ring)[k] == (
                source,
                ring.pending()[k],
            ),
{
}

} // verus!
