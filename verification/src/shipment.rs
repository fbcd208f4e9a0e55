//! Rows on their way to the archive, and what the archive answers.
//!
//! A row is shipped as a JSON object of its columns. A column of JSON text is shipped as the
//! document that it holds, or as null where it holds none. Numbers come as JSON values.

use crate::json::{
    count_tree, entry_trees, in_key_order, parsed, parsed_bytes, parts_at, precedes, printed,
    value_from_count, value_from_entries, value_from_list, value_from_str, value_from_text,
    value_or_null, value_text, value_tree, value_trees, Json, JsonView,
};
use crate::num::Real;
use crate::ring::opt_text;
use crate::text;
use serde_json::Value;
use vstd::prelude::*;
use vstd::string::{StrSliceExecFns, StringSliceAdditionalSpecFns};
use vstd::utf8::encode_utf8;

verus! {

/// A row to ship: its id, and its columns as a document.
pub struct ShippedRow {
    pub id: i64,
    pub doc: Value,
}

/// A row to ship, for contracts.
#[verifier::ext_equal]
pub struct RowView {
    pub id: i64,
    pub doc: JsonView,
}

impl View for ShippedRow {
    type V = RowView;

    open spec fn view(&self) -> RowView {
        RowView { id: self.id, doc: value_tree(self.doc) }
    }
}

/// The rows of a list.
pub open spec fn row_views(rows: Seq<ShippedRow>) -> Seq<RowView> {
    Seq::new(rows.len(), |i: int| rows[i]@)
}

/// The columns of a feed row.
pub struct FeedColumns {
    pub id: i64,
    pub ts: Value,
    pub source: String,
    pub value: Value,
    /// JSON text.
    pub meta: Option<String>,
}

/// The columns of a book snapshot.
pub struct BookColumns {
    pub id: i64,
    pub ts: Value,
    pub ticker: String,
    pub venue: String,
    pub best_bid: Value,
    pub best_ask: Value,
    pub spread: Value,
    pub bid_depth: Value,
    pub ask_depth: Value,
    /// JSON text.
    pub levels: Option<String>,
}

/// The document in a column of JSON text: null where there is none.
pub open spec fn embedded(text: Option<String>) -> JsonView {
    match text {
        Some(s) => match parsed(s@) {
            Some(doc) => doc,
            None => JsonView::Null,
        },
        None => JsonView::Null,
    }
}

/// Reads the document in a column of JSON text; null where there is none.
pub fn embed(text: &Option<String>) -> (r: Value)
    ensures
        value_tree(r) == embedded(*text),
{
    match text {
        Some(s) => value_or_null(value_from_str(s.as_str())),
        None => value_or_null(None),
    }
}

impl FeedColumns {
    /// The row as it is shipped.
    pub open spec fn row(self) -> RowView {
        RowView {
            id: self.id,
            doc: JsonView::Object(
                seq![
                    ("meta"@, embedded(self.meta)),
                    ("source"@, JsonView::Str(self.source@)),
                    ("ts"@, value_tree(self.ts)),
                    ("type"@, JsonView::Str("feed"@)),
                    ("value"@, value_tree(self.value)),
                ],
            ),
        }
    }

    /// Makes the row to ship.
    pub fn into_row(self) -> (r: ShippedRow)
        ensures
            r@ == self.row(),
    {
        let entries: Vec<(String, Value)> = vec![
            ("meta".to_owned(), embed(&self.meta)),
            ("source".to_owned(), value_from_text(self.source.as_str())),
            ("ts".to_owned(), self.ts),
            ("type".to_owned(), value_from_text("feed")),
            ("value".to_owned(), self.value),
        ];
        proof {
            let trees = entry_trees(entries@);
            assert(trees =~= self.row().doc->Object_0);
            reveal_strlit("meta");
            reveal_strlit("source");
            reveal_strlit("ts");
            reveal_strlit("type");
            reveal_strlit("value");
            lemma_precedes("meta"@, "source"@, 0);
            lemma_precedes("source"@, "ts"@, 0);
            lemma_precedes("ts"@, "type"@, 1);
            lemma_precedes("type"@, "value"@, 0);
            assert(in_key_order(trees));
        }
        ShippedRow { id: self.id, doc: value_from_entries(entries) }
    }
}

impl BookColumns {
    /// The row as it is shipped.
    pub open spec fn row(self) -> RowView {
        RowView {
            id: self.id,
            doc: JsonView::Object(
                seq![
                    ("ask_depth"@, value_tree(self.ask_depth)),
                    ("best_ask"@, value_tree(self.best_ask)),
                    ("best_bid"@, value_tree(self.best_bid)),
                    ("bid_depth"@, value_tree(self.bid_depth)),
                    ("levels"@, embedded(self.levels)),
                    ("spread"@, value_tree(self.spread)),
                    ("ticker"@, JsonView::Str(self.ticker@)),
                    ("ts"@, value_tree(self.ts)),
                    ("type"@, JsonView::Str("book"@)),
                    ("venue"@, JsonView::Str(self.venue@)),
                ],
            ),
        }
    }

    /// Makes the row to ship.
    pub fn into_row(self) -> (r: ShippedRow)
        ensures
            r@ == self.row(),
    {
        let entries: Vec<(String, Value)> = vec![
            ("ask_depth".to_owned(), self.ask_depth),
            ("best_ask".to_owned(), self.best_ask),
            ("best_bid".to_owned(), self.best_bid),
            ("bid_depth".to_owned(), self.bid_depth),
            ("levels".to_owned(), embed(&self.levels)),
            ("spread".to_owned(), self.spread),
            ("ticker".to_owned(), value_from_text(self.ticker.as_str())),
            ("ts".to_owned(), self.ts),
            ("type".to_owned(), value_from_text("book")),
            ("venue".to_owned(), value_from_text(self.venue.as_str())),
        ];
        proof {
            let trees = entry_trees(entries@);
            assert(trees =~= self.row().doc->Object_0);
            reveal_strlit("ask_depth");
            reveal_strlit("best_ask");
            reveal_strlit("best_bid");
            reveal_strlit("bid_depth");
            reveal_strlit("levels");
            reveal_strlit("spread");
            reveal_strlit("ticker");
            reveal_strlit("ts");
            reveal_strlit("type");
            reveal_strlit("venue");
            lemma_precedes("ask_depth"@, "best_ask"@, 0);
            lemma_precedes("best_ask"@, "best_bid"@, 5);
            lemma_precedes("best_bid"@, "bid_depth"@, 1);
            lemma_precedes("bid_depth"@, "levels"@, 0);
            lemma_precedes("levels"@, "spread"@, 0);
            lemma_precedes("spread"@, "ticker"@, 0);
            lemma_precedes("ticker"@, "ts"@, 1);
            lemma_precedes("ts"@, "type"@, 1);
            lemma_precedes("type"@, "venue"@, 0);
            assert(in_key_order(trees));
        }
        ShippedRow { id: self.id, doc: value_from_entries(entries) }
    }
}

proof fn lemma_precedes(a: Seq<char>, b: Seq<char>, k: int)
    requires
        0 <= k < a.len(),
        k < b.len(),
        forall|i: int| 0 <= i < k ==> a[i] == b[i],
        (a[k] as u32) < (b[k] as u32),
    ensures
        precedes(a, b),
{
    assert(a.take(k) =~= b.take(k));
    assert(parts_at(a, b, k));
}

/// The id of the last row of a batch, the one that a batch reaches.
pub fn last_id(rows: &Vec<ShippedRow>) -> (r: Option<i64>)
    ensures
        r == if rows@.len() == 0 {
            None
        } else {
            Some(rows@.last().id)
        },
{
    if rows.len() == 0 {
        None
    } else {
        Some(rows[rows.len() - 1].id)
    }
}

/// A batch of rows as a document.
pub open spec fn batch_tree(name: Seq<char>, rows: Seq<RowView>) -> JsonView {
    JsonView::Object(
        seq![
            ("batch"@, JsonView::Str(name)),
            ("count"@, count_tree(rows.len())),
            ("rows"@, JsonView::Array(Seq::new(rows.len(), |i: int| rows[i].doc))),
        ],
    )
}

/// The bytes that ship a batch of rows.
pub open spec fn batch_payload(name: Seq<char>, rows: Seq<RowView>) -> Seq<u8> {
    encode_utf8(printed(batch_tree(name, rows)))
}

/// Writes a batch of rows under a name.
pub fn write_batch(name: &str, rows: Vec<ShippedRow>) -> (r: Vec<u8>)
    ensures
        r@ == batch_payload(name@, row_views(rows@)),
{
    let ghost all = rows@;
    let mut docs: Vec<Value> = Vec::new();
    for row in it: rows
        invariant
            it.seq() == all,
            docs@.len() == it.index(),
            forall|k: int| 0 <= k < docs@.len() ==> docs@[k] == (#[trigger] all[k]).doc,
    {
        docs.push(row.doc);
    }
    assert(value_trees(docs@) =~= Seq::new(all.len(), |i: int| row_views(all)[i].doc));
    let entries: Vec<(String, Value)> = vec![
        ("batch".to_owned(), value_from_text(name)),
        ("count".to_owned(), value_from_count(docs.len())),
        ("rows".to_owned(), value_from_list(docs)),
    ];
    proof {
        let trees = entry_trees(entries@);
        assert(trees =~= batch_tree(name@, row_views(all))->Object_0);
        reveal_strlit("batch");
        reveal_strlit("count");
        reveal_strlit("rows");
        lemma_precedes("batch"@, "count"@, 0);
        lemma_precedes("count"@, "rows"@, 0);
        assert(in_key_order(trees));
    }
    let batch: Value = value_from_entries(entries);
    value_text(&batch).as_str().as_bytes_vec()
}

/// A numeral without a sign.
pub open spec fn all_digits(s: Seq<char>) -> bool {
    forall|i: int| 0 <= i < s.len() ==> '0' <= #[trigger] s[i] <= '9'
}

/// How many rows an answer acknowledges: the whole number under `acked`, as written.
pub open spec fn acknowledged(doc: Option<JsonView>) -> Option<Seq<char>> {
    match doc {
        Some(doc) => match doc.field("acked"@) {
            Some(JsonView::Number(_, s)) => if all_digits(s) {
                Some(s)
            } else {
                None
            },
            _ => None,
        },
        None => None,
    }
}

/// How many rows a document acknowledges.
pub fn acked_in(doc: &Json) -> (r: Option<String>)
    ensures
        opt_text(r) == acknowledged(Some(doc@)),
{
    match doc.get("acked") {
        Some(Json::Number(_, s)) => if is_numeral(s.as_str()) {
            Some(s.clone())
        } else {
            None
        },
        _ => None,
    }
}

/// How many rows a decrypted answer acknowledges.
pub fn acked(plaintext: &[u8]) -> (r: Option<String>)
    ensures
        opt_text(r) == acknowledged(parsed_bytes(plaintext@)),
{
    match Json::parse_bytes(plaintext) {
        Some(doc) => acked_in(&doc),
        None => None,
    }
}

fn is_numeral(s: &str) -> (r: bool)
    ensures
        r == all_digits(s@),
{
    let chars: Vec<char> = text::chars_of(s);
    let mut i: usize = 0;
    while i < chars.len()
        invariant
            i <= chars@.len(),
            chars@ == s@,
            forall|k: int| 0 <= k < i ==> '0' <= #[trigger] chars@[k] <= '9',
        decreases chars@.len() - i,
    {
        if chars[i] < '0' || chars[i] > '9' {
            return false;
        }
        i += 1;
    }
    true
}

/// The entries of an object whose keys are in order are found by their keys.
proof fn lemma_entry(entries: Seq<(Seq<char>, JsonView)>, i: int)
    requires
        0 <= i < entries.len(),
        forall|j: int| 0 <= j < i ==> (#[trigger] entries[j]).0 != entries[i].0,
    ensures
        JsonView::Object(entries).field(entries[i].0) == Some(entries[i].1),
    decreases entries.len(),
{
    if i > 0 {
        let rest = entries.drop_first();
        assert(rest[i - 1] == entries[i]);
        assert forall|j: int| 0 <= j < i - 1 implies (#[trigger] rest[j]).0 != rest[i - 1].0 by {
            assert(rest[j] == entries[j + 1]);
        }
        lemma_entry(rest, i - 1);
        assert(entries[0].0 != entries[i].0);
    }
}

/// A feed row is shipped with each column under its own name, and as a feed row.
pub proof fn feed_rows_hold_their_columns(columns: FeedColumns)
    ensures
        columns.row().id == columns.id,
        columns.row().doc.field("meta"@) == Some(embedded(columns.meta)),
        columns.row().doc.field("source"@) == Some(JsonView::Str(columns.source@)),
        columns.row().doc.field("ts"@) == Some(value_tree(columns.ts)),
        columns.row().doc.field("type"@) == Some(JsonView::Str("feed"@)),
        columns.row().doc.field("value"@) == Some(value_tree(columns.value)),
{
    reveal_strlit("meta");
    reveal_strlit("source");
    reveal_strlit("ts");
    reveal_strlit("type");
    reveal_strlit("value");
    let entries = columns.row().doc->Object_0;
    assert("meta"@.len() != "source"@.len());
    assert("meta"@.len() != "ts"@.len());
    assert("source"@.len() != "ts"@.len());
    assert("meta"@[0] != "type"@[0]);
    assert("source"@.len() != "type"@.len());
    assert("ts"@.len() != "type"@.len());
    assert("meta"@.len() != "value"@.len());
    assert("source"@.len() != "value"@.len());
    assert("ts"@.len() != "value"@.len());
    assert("type"@.len() != "value"@.len());
    assert(entries[0].0 == "meta"@);
    lemma_entry(entries, 0);
    assert(entries[1].0 == "source"@);
    lemma_entry(entries, 1);
    assert(entries[2].0 == "ts"@);
    lemma_entry(entries, 2);
    assert(entries[3].0 == "type"@);
    lemma_entry(entries, 3);
    assert(entries[4].0 == "value"@);
    lemma_entry(entries, 4);
}

/// A book row is shipped with each column under its own name, and as a book row.
pub proof fn book_rows_hold_their_columns(columns: BookColumns)
    ensures
        columns.row().id == columns.id,
        columns.row().doc.field("ask_depth"@) == Some(value_tree(columns.ask_depth)),
        columns.row().doc.field("best_ask"@) == Some(value_tree(columns.best_ask)),
        columns.row().doc.field("best_bid"@) == Some(value_tree(columns.best_bid)),
        columns.row().doc.field("bid_depth"@) == Some(value_tree(columns.bid_depth)),
        columns.row().doc.field("levels"@) == Some(embedded(columns.levels)),
        columns.row().doc.field("spread"@) == Some(value_tree(columns.spread)),
        columns.row().doc.field("ticker"@) == Some(JsonView::Str(columns.ticker@)),
        columns.row().doc.field("ts"@) == Some(value_tree(columns.ts)),
        columns.row().doc.field("type"@) == Some(JsonView::Str("book"@)),
        columns.row().doc.field("venue"@) == Some(JsonView::Str(columns.venue@)),
{
    reveal_strlit("ask_depth");
    reveal_strlit("best_ask");
    reveal_strlit("best_bid");
    reveal_strlit("bid_depth");
    reveal_strlit("levels");
    reveal_strlit("spread");
    reveal_strlit("ticker");
    reveal_strlit("ts");
    reveal_strlit("type");
    reveal_strlit("venue");
    let entries = columns.row().doc->Object_0;
    assert("ask_depth"@.len() != "best_ask"@.len());
    assert("ask_depth"@.len() != "best_bid"@.len());
    assert("best_ask"@[5] != "best_bid"@[5]);
    assert("ask_depth"@[0] != "bid_depth"@[0]);
    assert("best_ask"@.len() != "bid_depth"@.len());
    assert("best_bid"@.len() != "bid_depth"@.len());
    assert("ask_depth"@.len() != "levels"@.len());
    assert("best_ask"@.len() != "levels"@.len());
    assert("best_bid"@.len() != "levels"@.len());
    assert("bid_depth"@.len() != "levels"@.len());
    assert("ask_depth"@.len() != "spread"@.len());
    assert("best_ask"@.len() != "spread"@.len());
    assert("best_bid"@.len() != "spread"@.len());
    assert("bid_depth"@.len() != "spread"@.len());
    assert("levels"@[0] != "spread"@[0]);
    assert("ask_depth"@.len() != "ticker"@.len());
    assert("best_ask"@.len() != "ticker"@.len());
    assert("best_bid"@.len() != "ticker"@.len());
    assert("bid_depth"@.len() != "ticker"@.len());
    assert("levels"@[0] != "ticker"@[0]);
    assert("spread"@[0] != "ticker"@[0]);
    assert("ask_depth"@.len() != "ts"@.len());
    assert("best_ask"@.len() != "ts"@.len());
    assert("best_bid"@.len() != "ts"@.len());
    assert("bid_depth"@.len() != "ts"@.len());
    assert("levels"@.len() != "ts"@.len());
    assert("spread"@.len() != "ts"@.len());
    assert("ticker"@.len() != "ts"@.len());
    assert("ask_depth"@.len() != "type"@.len());
    assert("best_ask"@.len() != "type"@.len());
    assert("best_bid"@.len() != "type"@.len());
    assert("bid_depth"@.len() != "type"@.len());
    assert("levels"@.len() != "type"@.len());
    assert("spread"@.len() != "type"@.len());
    assert("ticker"@.len() != "type"@.len());
    assert("ts"@.len() != "type"@.len());
    assert("ask_depth"@.len() != "venue"@.len());
    assert("best_ask"@.len() != "venue"@.len());
    assert("best_bid"@.len() != "venue"@.len());
    assert("bid_depth"@.len() != "venue"@.len());
    assert("levels"@.len() != "venue"@.len());
    assert("spread"@.len() != "venue"@.len());
    assert("ticker"@.len() != "venue"@.len());
    assert("ts"@.len() != "venue"@.len());
    assert("type"@.len() != "venue"@.len());
    assert(entries[0].0 == "ask_depth"@);
    lemma_entry(entries, 0);
    assert(entries[1].0 == "best_ask"@);
    lemma_entry(entries, 1);
    assert(entries[2].0 == "best_bid"@);
    lemma_entry(entries, 2);
    assert(entries[3].0 == "bid_depth"@);
    lemma_entry(entries, 3);
    assert(entries[4].0 == "levels"@);
    lemma_entry(entries, 4);
    assert(entries[5].0 == "spread"@);
    lemma_entry(entries, 5);
    assert(entries[6].0 == "ticker"@);
    lemma_entry(entries, 6);
    assert(entries[7].0 == "ts"@);
    lemma_entry(entries, 7);
    assert(entries[8].0 == "type"@);
    lemma_entry(entries, 8);
    assert(entries[9].0 == "venue"@);
    lemma_entry(entries, 9);
}

/// A column of JSON text is shipped as the document in it, and as null where there is no text or no
/// document in it.
pub proof fn embedded_text_is_its_document(text: Option<String>, doc: JsonView)
    ensures
        text matches Some(s) && parsed(s@) == Some(doc) ==> embedded(text) == doc,
        text matches Some(s) && parsed(s@) is None ==> embedded(text) == JsonView::Null,
        text is None ==> embedded(text) == JsonView::Null,
{
}

/// A batch says its name and how many rows it has, and holds the documents of all of them, in
/// order.
pub proof fn batches_hold_their_rows(name: Seq<char>, rows: Seq<RowView>)
    ensures
        batch_tree(name, rows).field("batch"@) == Some(JsonView::Str(name)),
        batch_tree(name, rows).field("count"@) == Some(count_tree(rows.len())),
        batch_tree(name, rows).field("rows"@) matches Some(JsonView::Array(docs)) && docs.len()
            == rows.len() && forall|i: int|
            0 <= i < rows.len() ==> #[trigger] docs[i] == rows[i].doc,
{
    reveal_strlit("batch");
    reveal_strlit("count");
    reveal_strlit("rows");
    assert("batch"@[0] != "count"@[0]);
    assert("rows"@.len() == 4);
    let entries = batch_tree(name, rows)->Object_0;
    assert(entries[0].0 == "batch"@ && entries[1].0 == "count"@ && entries[2].0 == "rows"@);
    lemma_entry(entries, 0);
    lemma_entry(entries, 1);
    lemma_entry(entries, 2);
}

/// An acknowledgement is a number of rows without sign or fraction; nothing else acknowledges.
pub proof fn acknowledgements_are_whole(doc: JsonView, x: Option<Real>, s: Seq<char>)
    ensures
        doc.field("acked"@) == Some(JsonView::Number(x, s)) && (forall|i: int|
            0 <= i < s.len() ==> '0' <= (#[trigger] s[i]) && s[i] <= '9')
                ==> acknowledged(Some(doc))
            == Some(s),
        doc.field("acked"@) == Some(JsonView::Number(x, s)) && (s.contains('-') || s.contains('.')
            || s.contains('e')) ==> acknowledged(Some(doc)) is None,
        !(doc.field("acked"@) matches Some(JsonView::Number(_, _))) ==> acknowledged(Some(doc))
            is None,
        acknowledged(None) is None,
{
    if s.contains('-') {
        let i = s.index_of('-');
        assert(s[i] == '-');
    }
    if s.contains('.') {
        let i = s.index_of('.');
        assert(s[i] == '.');
    }
    if s.contains('e') {
        let i = s.index_of('e');
        assert(s[i] == 'e');
    }
}

} // verus!
