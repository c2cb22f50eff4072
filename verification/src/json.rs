//! The JSON blobs of an event, reduced to what the fan-out reads of them.

use serde_json::Value;
use vstd::prelude::*;

verus! {

/// What the fan-out reads of a JSON value.
#[derive(Debug)]
pub enum JsonValue {
    /// `null`.
    Null,
    /// A JSON string, as the text it stands for.
    Text(String),
    /// A boolean, as its compact JSON text.
    Bool(String),
    /// A number, as its compact JSON text.
    Number(String),
    /// An array, as its compact JSON text.
    Array(String),
    /// An object, as its compact JSON text.
    Object(String),
}

/// A blob after parsing.
#[derive(Debug)]
pub enum ParsedBlob {
    /// Not JSON.
    Malformed,
    /// JSON, but not an object.
    NotObject,
    /// A JSON object, as its entries in the order in which they are visited.
    Object(Vec<(String, JsonValue)>),
}

/// What a `JsonValue` stands for.
#[verifier::ext_equal]
pub enum JsonView {
    Null,
    Text(Seq<char>),
    Bool(Seq<char>),
    Number(Seq<char>),
    Array(Seq<char>),
    Object(Seq<char>),
}

/// What a `ParsedBlob` stands for.
#[verifier::ext_equal]
pub enum BlobView {
    Malformed,
    NotObject,
    Object(Seq<(Seq<char>, JsonView)>),
}

impl View for JsonValue {
    type V = JsonView;

    open spec fn view(&self) -> JsonView {
        match self {
            JsonValue::Null => JsonView::Null,
            JsonValue::Text(text) => JsonView::Text(text@),
            JsonValue::Bool(text) => JsonView::Bool(text@),
            JsonValue::Number(text) => JsonView::Number(text@),
            JsonValue::Array(text) => JsonView::Array(text@),
            JsonValue::Object(text) => JsonView::Object(text@),
        }
    }
}

impl View for ParsedBlob {
    type V = BlobView;

    open spec fn view(&self) -> BlobView {
        match self {
            ParsedBlob::Malformed => BlobView::Malformed,
            ParsedBlob::NotObject => BlobView::NotObject,
            ParsedBlob::Object(entries) => BlobView::Object(entry_views(entries@)),
        }
    }
}

/// The views of an object's entries, in order.
pub open spec fn entry_views(entries: Seq<(String, JsonValue)>) -> Seq<(Seq<char>, JsonView)> {
    entries.map_values(|entry: (String, JsonValue)| (entry.0@, entry.1@))
}

impl JsonView {
    /// JSON text is never empty.
    pub open spec fn is_rendered(self) -> bool {
        match self {
            JsonView::Null | JsonView::Text(_) => true,
            JsonView::Bool(text) | JsonView::Number(text) | JsonView::Array(text)
            | JsonView::Object(text) => text.len() > 0,
        }
    }
}

impl BlobView {
    /// The entries of the object; none where the blob is not an object.
    pub open spec fn entries(self) -> Seq<(Seq<char>, JsonView)> {
        match self {
            BlobView::Object(entries) => entries,
            _ => Seq::empty(),
        }
    }

    /// No key occurs twice.
    pub open spec fn has_distinct_keys(self) -> bool {
        forall|i: int, j: int|
            0 <= i < j < self.entries().len() ==> (#[trigger] self.entries()[i]).0 != (
            #[trigger] self.entries()[j]).0
    }

    /// No value has empty JSON text.
    pub open spec fn is_rendered(self) -> bool {
        forall|i: int| 0 <= i < self.entries().len() ==> (#[trigger] self.entries()[i]).1.is_rendered()
    }
}

/// A value shows its text as it is, and which kind of value it is.
pub proof fn lemma_value_shows_its_text(value: JsonValue)
    ensures
        match value {
            JsonValue::Null => value@ == JsonView::Null,
            JsonValue::Text(text) => value@ == JsonView::Text(text@),
            JsonValue::Bool(text) => value@ == JsonView::Bool(text@),
            JsonValue::Number(text) => value@ == JsonView::Number(text@),
            JsonValue::Array(text) => value@ == JsonView::Array(text@),
            JsonValue::Object(text) => value@ == JsonView::Object(text@),
        },
{
}

/// A blob shows every entry of its object, at its place; a blob that is no object shows
/// none.
pub proof fn lemma_blob_shows_its_entries(blob: ParsedBlob)
    ensures
        blob@ is Object <==> blob is Object,
        blob !is Object ==> blob@.entries().len() == 0,
        blob matches ParsedBlob::Object(entries) ==> {
            &&& blob@.entries().len() == entries@.len()
            &&& forall|i: int|
                0 <= i < entries@.len() ==> #[trigger] blob@.entries()[i] == (
                    entries@[i].0@,
                    entries@[i].1@,
                )
        },
{
}

/// What `serde_json::from_str` makes of a text, with each value of an object that is
/// neither `null` nor a string rendered by `serde_json::Value`'s own `Display`.
pub uninterp spec fn parsed_blob(raw: Seq<char>) -> BlobView;

/// Parses a blob with `serde_json::from_str::<serde_json::Value>` and hands out the
/// entries of an object, values other than `null` and strings as the compact JSON that
/// `Value`'s own `Display` writes.
///
/// Taken on trust: the outcome is a function of the text alone, named `parsed_blob`;
/// the entries of an object have distinct keys, since `serde_json::Map` holds one value
/// per key; and `Display` never writes an empty text. Which texts are JSON, and what
/// that compact JSON is, stays unsaid.
#[verifier::external_body]
pub(crate) fn parse_blob(raw: &str) -> (blob: ParsedBlob)
    ensures
        blob@ == parsed_blob(raw@),
        blob@.has_distinct_keys(),
        blob@.is_rendered(),
{
    let value = |value: Value| match value {
        Value::Null => JsonValue::Null,
        Value::String(text) => JsonValue::Text(text),
        Value::Bool(_) => JsonValue::Bool(value.to_string()),
        Value::Number(_) => JsonValue::Number(value.to_string()),
        Value::Array(_) => JsonValue::Array(value.to_string()),
        Value::Object(_) => JsonValue::Object(value.to_string()),
    };
    match serde_json::from_str::<Value>(raw) {
        Ok(Value::Object(map)) => {
            ParsedBlob::Object(map.into_iter().map(|(k, v)| (k, value(v))).collect())
        },
        Ok(_) => ParsedBlob::NotObject,
        Err(_) => ParsedBlob::Malformed,
    }
}

} // verus!
