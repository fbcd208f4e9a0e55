//! JSON documents as plain values.

use crate::num::Real;
use crate::text;
use crate::text::numeral;
use vstd::prelude::*;

verus! {

/// A JSON document. An object holds each of its keys once.
pub enum Json {
    Null,
    Bool(bool),
    /// The number as a binary64, where it has one, and as written out again.
    Number(Option<Real>, String),
    Str(String),
    Array(Vec<Json>),
    Object(Vec<(String, Json)>),
}

/// A JSON document, for contracts.
#[verifier::ext_equal]
pub enum JsonView {
    Null,
    Bool(bool),
    Number(Option<Real>, Seq<char>),
    Str(Seq<char>),
    Array(Seq<JsonView>),
    Object(Seq<(Seq<char>, JsonView)>),
}

impl View for Json {
    type V = JsonView;

    open spec fn view(&self) -> JsonView {
        tree_of(*self)
    }
}

pub open spec fn tree_of(j: Json) -> JsonView
    decreases j,
{
    match j {
        Json::Null => JsonView::Null,
        Json::Bool(b) => JsonView::Bool(b),
        Json::Number(n, s) => JsonView::Number(n, s@),
        Json::Str(s) => JsonView::Str(s@),
        Json::Array(v) => JsonView::Array(
            Seq::new(
                v@.len(),
                |i: int|
                    if 0 <= i < v@.len() {
                        tree_of(v@[i])
                    } else {
                        JsonView::Null
                    },
            ),
        ),
        Json::Object(v) => JsonView::Object(
            Seq::new(
                v@.len(),
                |i: int|
                    if 0 <= i < v@.len() {
                        (v@[i].0@, tree_of(v@[i].1))
                    } else {
                        (Seq::<char>::empty(), JsonView::Null)
                    },
            ),
        ),
    }
}

/// `serde_json::Value`, a parsed document.
#[verifier::external_type_specification]
#[verifier::external_body]
pub struct ExValue(serde_json::Value);

/// What a `serde_json::Value` holds.
pub uninterp spec fn value_tree(v: serde_json::Value) -> JsonView;

/// What `serde_json::from_str` makes of a text; `None` where it is not JSON.
pub uninterp spec fn parsed(text: Seq<char>) -> Option<JsonView>;

/// `serde_json::from_str`: the document that the text holds, or an error where the text is not
/// one. It is a function of the text.
#[verifier::external_body]
pub(crate) fn value_from_str(text: &str) -> (r: Option<serde_json::Value>)
    ensures
        match r {
            Some(v) => parsed(text@) == Some(value_tree(v)),
            None => parsed(text@) is None,
        },
{
    serde_json::from_str(text).ok()
}

/// Takes a `serde_json::Value` apart, variant by variant; a number becomes what `as_f64` and
/// `to_string` give of it.
#[verifier::external_body]
fn from_value(v: serde_json::Value) -> (r: Json)
    ensures
        r@ == value_tree(v),
{
    match v {
        serde_json::Value::Null => Json::Null,
        serde_json::Value::Bool(b) => Json::Bool(b),
        serde_json::Value::Number(n) => {
            Json::Number(n.as_f64().map(|x| Real { bits: x.to_bits() }), n.to_string())
        },
        serde_json::Value::String(s) => Json::Str(s),
        serde_json::Value::Array(a) => Json::Array(a.into_iter().map(from_value).collect()),
        serde_json::Value::Object(m) => {
            Json::Object(m.into_iter().map(|(k, x)| (k, from_value(x))).collect())
        },
    }
}

/// What `serde_json::from_slice` makes of bytes; `None` where they are not JSON.
pub uninterp spec fn parsed_bytes(bytes: Seq<u8>) -> Option<JsonView>;

/// `serde_json::from_slice`: the document that the bytes hold, or an error where they are not one.
/// It is a function of the bytes.
#[verifier::external_body]
fn value_from_slice(bytes: &[u8]) -> (r: Option<serde_json::Value>)
    ensures
        match r {
            Some(v) => parsed_bytes(bytes@) == Some(value_tree(v)),
            None => parsed_bytes(bytes@) is None,
        },
{
    serde_json::from_slice(bytes).ok()
}

/// What the `Display` of `serde_json::Value` writes for a document.
pub uninterp spec fn printed(doc: JsonView) -> Seq<char>;

/// `to_string` of a `serde_json::Value`: its text in compact form, a function of what it holds.
#[verifier::external_body]
pub(crate) fn value_text(v: &serde_json::Value) -> (r: String)
    ensures
        r@ == printed(value_tree(*v)),
{
    v.to_string()
}

/// `serde_json::Value::from` of a text.
#[verifier::external_body]
pub(crate) fn value_from_text(text: &str) -> (r: serde_json::Value)
    ensures
        value_tree(r) == JsonView::Str(text@),
{
    serde_json::Value::from(text)
}

/// `serde_json::Value::from` of an optional value: the value, or null.
#[verifier::external_body]
pub(crate) fn value_or_null(v: Option<serde_json::Value>) -> (r: serde_json::Value)
    ensures
        value_tree(r) == match v {
            Some(x) => value_tree(x),
            None => JsonView::Null,
        },
{
    serde_json::Value::from(v)
}

/// What `serde_json::Value::from` makes of a count.
pub uninterp spec fn count_tree(n: nat) -> JsonView;

/// `serde_json::Value::from` of a `usize`: a number that is written as its numeral. It is a
/// function of the count.
#[verifier::external_body]
pub(crate) fn value_from_count(n: usize) -> (r: serde_json::Value)
    ensures
        value_tree(r) == count_tree(n as nat),
        value_tree(r) is Number,
        value_tree(r)->Number_1 == numeral(n as nat),
{
    serde_json::Value::from(n)
}

/// What the values of a list hold.
pub open spec fn value_trees(items: Seq<serde_json::Value>) -> Seq<JsonView> {
    Seq::new(items.len(), |i: int| value_tree(items[i]))
}

/// `serde_json::Value::from` of a list: an array of its values, in order.
#[verifier::external_body]
pub(crate) fn value_from_list(items: Vec<serde_json::Value>) -> (r: serde_json::Value)
    ensures
        value_tree(r) == JsonView::Array(value_trees(items@)),
{
    serde_json::Value::from(items)
}

/// The texts agree up to `k`, where the first ends or has the smaller character.
pub open spec fn parts_at(a: Seq<char>, b: Seq<char>, k: int) -> bool {
    &&& 0 <= k <= a.len()
    &&& k < b.len()
    &&& a.take(k) == b.take(k)
    &&& k < a.len() ==> (a[k] as u32) < (b[k] as u32)
}

/// The first text comes before the second in the order of strings.
pub open spec fn precedes(a: Seq<char>, b: Seq<char>) -> bool {
    exists|k: int| #[trigger] parts_at(a, b, k)
}

/// The keys and values of a list of entries.
pub open spec fn entry_trees(entries: Seq<(String, serde_json::Value)>) -> Seq<
    (Seq<char>, JsonView),
> {
    Seq::new(entries.len(), |i: int| (entries[i].0@, value_tree(entries[i].1)))
}

/// Each key comes before the next.
pub open spec fn in_key_order(entries: Seq<(Seq<char>, JsonView)>) -> bool {
    forall|i: int|
        0 < i < entries.len() ==> precedes(entries[i - 1].0, (#[trigger] entries[i]).0)
}

/// `serde_json::Value::from_iter` of entries whose keys are distinct and in order: the object of
/// these entries, in that order. The map behind an object keeps its entries by key.
#[verifier::external_body]
pub(crate) fn value_from_entries(entries: Vec<(String, serde_json::Value)>) -> (r:
    serde_json::Value)
    requires
        in_key_order(entry_trees(entries@)),
    ensures
        value_tree(r) == JsonView::Object(entry_trees(entries@)),
{
    serde_json::Value::from_iter(entries)
}

/// What `str::parse` makes of a decimal as a binary64, where `serde_json::Number::from_f64` takes
/// it; `None` where the text is no decimal or the number is too large to be finite.
pub uninterp spec fn decimal(text: Seq<char>) -> Option<Real>;

/// `str::parse` to a binary64, and `serde_json::Number::from_f64`, which holds finite numbers
/// only. It is a function of the text; a result is finite.
#[verifier::external_body]
pub(crate) fn parse_decimal(text: &str) -> (r: Option<Real>)
    ensures
        r == decimal(text@),
        r matches Some(x) ==> x.finite(),
{
    let n = serde_json::Number::from_f64(text.parse().ok()?)?;
    n.as_f64().map(|x| Real { bits: x.to_bits() })
}

/// The value of a key among the entries of an object.
pub open spec fn entry_of(entries: Seq<(Seq<char>, JsonView)>, key: Seq<char>) -> Option<JsonView>
    decreases entries.len(),
{
    if entries.len() == 0 {
        None
    } else if entries[0].0 == key {
        Some(entries[0].1)
    } else {
        entry_of(entries.drop_first(), key)
    }
}

impl JsonView {
    /// The value of a key; `None` where this is no object or has no such key.
    pub open spec fn field(self, key: Seq<char>) -> Option<JsonView> {
        match self {
            JsonView::Object(entries) => entry_of(entries, key),
            _ => None,
        }
    }

    pub open spec fn text(self) -> Option<Seq<char>> {
        match self {
            JsonView::Str(s) => Some(s),
            _ => None,
        }
    }

    pub open spec fn items(self) -> Option<Seq<JsonView>> {
        match self {
            JsonView::Array(a) => Some(a),
            _ => None,
        }
    }

    /// The text under a key.
    pub open spec fn text_field(self, key: Seq<char>) -> Option<Seq<char>> {
        match self.field(key) {
            Some(v) => v.text(),
            None => None,
        }
    }

    /// The text under a key, where it is not empty.
    pub open spec fn full_text_field(self, key: Seq<char>) -> Option<Seq<char>> {
        match self.text_field(key) {
            Some(s) => if s.len() > 0 {
                Some(s)
            } else {
                None
            },
            None => None,
        }
    }

    /// The text under the first key, where it is not empty, else the text under the second.
    pub open spec fn text_field_or(self, first: Seq<char>, second: Seq<char>) -> Option<Seq<char>> {
        match self.full_text_field(first) {
            Some(s) => Some(s),
            None => self.text_field(second),
        }
    }

    /// Whether the key holds `true`.
    pub open spec fn flag(self, key: Seq<char>) -> bool {
        self.field(key) == Some(JsonView::Bool(true))
    }

    pub open spec fn array_field(self, key: Seq<char>) -> Option<Seq<JsonView>> {
        match self.field(key) {
            Some(v) => v.items(),
            None => None,
        }
    }

    /// The finite number that this is or, as text, spells.
    pub open spec fn finite_number(self) -> Option<Real> {
        match self {
            JsonView::Number(Some(x), _) => if x.finite() {
                Some(x)
            } else {
                None
            },
            JsonView::Str(s) => decimal(s),
            _ => None,
        }
    }
}

/// The text of an optional string slice.
pub open spec fn opt_str(s: Option<&str>) -> Option<Seq<char>> {
    match s {
        Some(t) => Some(t@),
        None => None,
    }
}

/// The documents of a slice.
pub open spec fn trees(items: Seq<Json>) -> Seq<JsonView> {
    Seq::new(items.len(), |i: int| items[i]@)
}

impl Json {
    /// Reads a document from its text.
    pub fn parse(text: &str) -> (r: Option<Json>)
        ensures
            match r {
                Some(j) => parsed(text@) == Some(j@),
                None => parsed(text@) is None,
            },
    {
        match value_from_str(text) {
            Some(v) => Some(from_value(v)),
            None => None,
        }
    }

    /// Reads a document from its bytes.
    pub fn parse_bytes(bytes: &[u8]) -> (r: Option<Json>)
        ensures
            match r {
                Some(j) => parsed_bytes(bytes@) == Some(j@),
                None => parsed_bytes(bytes@) is None,
            },
    {
        match value_from_slice(bytes) {
            Some(v) => Some(from_value(v)),
            None => None,
        }
    }

    /// A copy of the document.
    pub fn duplicate(&self) -> (r: Json)
        ensures
            r@ == self@,
        decreases self,
    {
        match self {
            Json::Null => Json::Null,
            Json::Bool(b) => Json::Bool(*b),
            Json::Number(n, s) => Json::Number(*n, s.clone()),
            Json::Str(s) => Json::Str(s.clone()),
            Json::Array(a) => {
                let mut out: Vec<Json> = Vec::new();
                let mut i: usize = 0;
                while i < a.len()
                    invariant
                        i <= a@.len(),
                        *self == Json::Array(*a),
                        out@.len() == i,
                        forall|k: int| 0 <= k < i ==> (#[trigger] out@[k])@ == a@[k]@,
                    decreases a@.len() - i,
                {
                    proof {
                        assert(decreases_to!(*self => self->Array_0));
                        assert(decreases_to!(*a => a@));
                        assert(decreases_to!(a@ => a@[i as int]));
                    }
                    out.push(a[i].duplicate());
                    i += 1;
                }
                let r = Json::Array(out);
                assert(r@->Array_0 =~= self@->Array_0);
                r
            },
            Json::Object(a) => {
                let mut out: Vec<(String, Json)> = Vec::new();
                let mut i: usize = 0;
                while i < a.len()
                    invariant
                        i <= a@.len(),
                        *self == Json::Object(*a),
                        out@.len() == i,
                        forall|k: int|
                            0 <= k < i ==> (#[trigger] out@[k]).0@ == a@[k].0@ && out@[k].1@
                                == a@[k].1@,
                    decreases a@.len() - i,
                {
                    proof {
                        assert(decreases_to!(*self => self->Object_0));
                        assert(decreases_to!(*a => a@));
                        assert(decreases_to!(a@ => a@[i as int]));
                        assert(decreases_to!(a@[i as int] => a@[i as int].1));
                    }
                    out.push((a[i].0.clone(), a[i].1.duplicate()));
                    i += 1;
                }
                let r = Json::Object(out);
                assert(r@->Object_0 =~= self@->Object_0);
                r
            },
        }
    }

    /// The value of a key.
    pub fn get(&self, key: &str) -> (r: Option<&Json>)
        ensures
            match r {
                Some(v) => self@.field(key@) == Some(v@),
                None => self@.field(key@) is None,
            },
    {
        match self {
            Json::Object(entries) => {
                let ghost all = self@->Object_0;
                assert(all.skip(0) =~= all);
                let mut i: usize = 0;
                while i < entries.len()
                    invariant
                        i <= entries@.len(),
                        self@ == JsonView::Object(all),
                        all.len() == entries@.len(),
                        forall|k: int|
                            0 <= k < all.len() ==> #[trigger] all[k] == (
                                entries@[k].0@,
                                entries@[k].1@,
                            ),
                        entry_of(all, key@) == entry_of(all.skip(i as int), key@),
                    decreases entries@.len() - i,
                {
                    assert(all.skip(i as int)[0] == all[i as int]);
                    assert(all.skip(i as int).drop_first() =~= all.skip(i + 1));
                    if text::same(entries[i].0.as_str(), key) {
                        return Some(&entries[i].1);
                    }
                    i += 1;
                }
                None
            },
            _ => None,
        }
    }

    /// The text that this is.
    pub fn as_str(&self) -> (r: Option<&str>)
        ensures
            opt_str(r) == self@.text(),
    {
        match self {
            Json::Str(s) => Some(s.as_str()),
            _ => None,
        }
    }

    /// The items of an array.
    pub fn as_array(&self) -> (r: Option<&Vec<Json>>)
        ensures
            match r {
                Some(a) => self@.items() == Some(trees(a@)),
                None => self@.items() is None,
            },
    {
        match self {
            Json::Array(a) => {
                assert(self@->Array_0 =~= trees(a@));
                Some(a)
            },
            _ => None,
        }
    }

    /// The text under a key.
    pub fn text_at(&self, key: &str) -> (r: Option<&str>)
        ensures
            opt_str(r) == self@.text_field(key@),
    {
        match self.get(key) {
            Some(v) => v.as_str(),
            None => None,
        }
    }

    /// The text under a key, where it is not empty.
    pub fn full_text_at(&self, key: &str) -> (r: Option<&str>)
        ensures
            opt_str(r) == self@.full_text_field(key@),
    {
        match self.text_at(key) {
            Some(s) => if s.is_empty() {
                None
            } else {
                Some(s)
            },
            None => None,
        }
    }

    /// The text under the first key, where it is not empty, else the text under the second.
    pub fn text_at_or(&self, first: &str, second: &str) -> (r: Option<&str>)
        ensures
            opt_str(r) == self@.text_field_or(first@, second@),
    {
        match self.full_text_at(first) {
            Some(s) => Some(s),
            None => self.text_at(second),
        }
    }

    /// Whether the key holds `true`.
    pub fn flag_at(&self, key: &str) -> (r: bool)
        ensures
            r == self@.flag(key@),
    {
        match self.get(key) {
            Some(Json::Bool(b)) => *b,
            _ => false,
        }
    }

    /// The items of the array under a key.
    pub fn array_at(&self, key: &str) -> (r: Option<&Vec<Json>>)
        ensures
            match r {
                Some(a) => self@.array_field(key@) == Some(trees(a@)),
                None => self@.array_field(key@) is None,
            },
    {
        match self.get(key) {
            Some(v) => v.as_array(),
            None => None,
        }
    }

    /// The number that this is or, as text, spells; `None` where that is not finite.
    pub fn finite(&self) -> (r: Option<Real>)
        ensures
            r == self@.finite_number(),
    {
        match self {
            Json::Number(Some(x), _) => if x.is_finite() {
                Some(*x)
            } else {
                None
            },
            Json::Str(s) => parse_decimal(s.as_str()),
            _ => None,
        }
    }
}

/// A key of an object gives the value that stands behind it, and no other key gives one; nothing
/// but an object has keys.
pub proof fn keys_give_their_values(entries: Seq<(Seq<char>, JsonView)>, key: Seq<char>)
    ensures
        match JsonView::Object(entries).field(key) {
            Some(v) => exists|i: int|
                0 <= i < entries.len() && #[trigger] entries[i] == (key, v) && forall|j: int|
                    0 <= j < i ==> (#[trigger] entries[j]).0 != key,
            None => forall|i: int| 0 <= i < entries.len() ==> (#[trigger] entries[i]).0 != key,
        },
        forall|j: JsonView| !(j is Object) ==> (#[trigger] j.field(key)) is None,
    decreases entries.len(),
{
    if entries.len() > 0 && entries[0].0 != key {
        let rest = entries.drop_first();
        keys_give_their_values(rest, key);
        match JsonView::Object(rest).field(key) {
            Some(v) => {
                let i = choose|i: int|
                    0 <= i < rest.len() && #[trigger] rest[i] == (key, v) && forall|j: int|
                        0 <= j < i ==> (#[trigger] rest[j]).0 != key;
                assert(entries[i + 1] == (key, v));
                assert forall|j: int| 0 <= j < i + 1 implies (#[trigger] entries[j]).0 != key by {
                    if j > 0 {
                        assert(rest[j - 1] == entries[j]);
                    }
                }
            },
            None => {
                assert forall|i: int| 0 <= i < entries.len() implies (#[trigger] entries[i]).0
                    != key by {
                    if i > 0 {
                        assert(rest[i - 1] == entries[i]);
                    }
                }
            },
        }
    } else if entries.len() > 0 {
        assert(entries[0] == (key, entries[0].1));
    }
}

/// A text under a key is read as it stands, a text that is not empty comes before that of a second
/// key, and what is no text is none.
pub proof fn texts_are_read_as_they_stand(
    doc: JsonView,
    key: Seq<char>,
    other: Seq<char>,
    s: Seq<char>,
)
    ensures
        doc.field(key) == Some(JsonView::Str(s)) <==> doc.text_field(key) == Some(s),
        doc.full_text_field(key) == Some(s) <==> doc.field(key) == Some(JsonView::Str(s))
            && s.len() > 0,
        doc.field(key) == Some(JsonView::Str(s)) && s.len() > 0 ==> doc.text_field_or(key, other)
            == Some(s),
        doc.field(key) == Some(JsonView::Str(s)) && s.len() == 0 ==> doc.text_field_or(key, other)
            == doc.text_field(other),
        !(doc.field(key) matches Some(JsonView::Str(_))) ==> doc.text_field(key) is None
            && doc.text_field_or(key, other) == doc.text_field(other),
{
}

/// Numbers are read where they are finite, texts by the number that they spell, and nothing else is
/// a number. A flag is set by `true` alone.
pub proof fn numbers_and_flags_are_read(
    x: Option<Real>,
    s: Seq<char>,
    b: bool,
    items: Seq<JsonView>,
    doc: JsonView,
    key: Seq<char>,
)
    ensures
        JsonView::Number(x, s).finite_number() == match x {
            Some(v) => if v.finite() {
                Some(v)
            } else {
                None
            },
            None => None,
        },
        JsonView::Str(s).finite_number() == decimal(s),
        JsonView::Bool(b).finite_number() is None,
        JsonView::Null.finite_number() is None,
        JsonView::Array(items).finite_number() is None,
        doc.field(key) == Some(JsonView::Bool(true)) <==> doc.flag(key),
        doc.field(key) == Some(JsonView::Array(items)) <==> doc.array_field(key) == Some(items),
{
}

} // verus!
