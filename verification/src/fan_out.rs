//! Fan-out: from one message to the property-value tuples it contains.

use vstd::prelude::*;

use crate::json;
use crate::json::{parse_blob, BlobView, JsonValue, JsonView, ParsedBlob};
use crate::types;
use crate::types::{Event, GroupIdentify, PropertyType, TupleKey, TupleView};

verus! {

/// Length cap on `property_key` in Unicode codepoints; a key of exactly this
/// length is kept.
pub const MAX_PROPERTY_KEY_LEN: usize = 400;

/// Length cap on `property_value` in Unicode codepoints; a value of exactly this
/// length is dropped.
pub const MAX_PROPERTY_VALUE_LEN: usize = 256;

/// The property value that a JSON value is coerced to.
pub open spec fn coerced(value: JsonView) -> Seq<char> {
    match value {
        JsonView::Null => Seq::empty(),
        JsonView::Text(text) => text,
        JsonView::Bool(text) => text,
        JsonView::Number(text) => text,
        JsonView::Array(text) => text,
        JsonView::Object(text) => text,
    }
}

/// The lengths that the storage behind the output topic accepts.
pub open spec fn within_caps(key: Seq<char>, value: Seq<char>) -> bool {
    &&& 0 < key.len() <= MAX_PROPERTY_KEY_LEN
    &&& 0 < value.len() < MAX_PROPERTY_VALUE_LEN
}

/// Whether an entry of a blob becomes a tuple.
pub open spec fn is_emitted(entry: (Seq<char>, JsonView)) -> bool {
    entry.1 !is Null && within_caps(entry.0, coerced(entry.1))
}

/// The tuple that an entry of a blob becomes.
pub open spec fn entry_tuple(
    team_id: i64,
    property_type: PropertyType,
    entry: (Seq<char>, JsonView),
) -> TupleView {
    TupleView { team_id, property_type, property_key: entry.0, property_value: coerced(entry.1) }
}

/// The tuples of a list of entries, in the order of the entries.
pub open spec fn entry_tuples(
    team_id: i64,
    property_type: PropertyType,
    entries: Seq<(Seq<char>, JsonView)>,
) -> Seq<TupleView> {
    entries.filter(|entry: (Seq<char>, JsonView)| is_emitted(entry)).map_values(
        |entry: (Seq<char>, JsonView)| entry_tuple(team_id, property_type, entry),
    )
}

/// The tuples of a parsed blob; none where the blob is not an object.
pub open spec fn blob_tuples(team_id: i64, property_type: PropertyType, blob: BlobView) -> Seq<
    TupleView,
> {
    entry_tuples(team_id, property_type, blob.entries())
}

/// The tuples of an optional blob of JSON text.
pub open spec fn text_tuples(
    team_id: i64,
    property_type: PropertyType,
    raw: Option<String>,
) -> Seq<TupleView> {
    match raw {
        Some(text) => blob_tuples(team_id, property_type, json::parsed_blob(text@)),
        None => Seq::empty(),
    }
}

/// The tuples of an event: those of its blobs, one blob after the other.
pub open spec fn event_tuples(event: Event) -> Seq<TupleView> {
    text_tuples(event.team_id, PropertyType::Event, event.properties) + text_tuples(
        event.team_id,
        PropertyType::Person,
        event.person_properties,
    ) + text_tuples(event.team_id, PropertyType::Group0, event.group0_properties) + text_tuples(
        event.team_id,
        PropertyType::Group1,
        event.group1_properties,
    ) + text_tuples(event.team_id, PropertyType::Group2, event.group2_properties) + text_tuples(
        event.team_id,
        PropertyType::Group3,
        event.group3_properties,
    ) + text_tuples(event.team_id, PropertyType::Group4, event.group4_properties)
}

/// The property type of the group type with the given index.
pub open spec fn group_property_type(index: u8) -> Option<PropertyType> {
    match index {
        0 => Some(PropertyType::Group0),
        1 => Some(PropertyType::Group1),
        2 => Some(PropertyType::Group2),
        3 => Some(PropertyType::Group3),
        4 => Some(PropertyType::Group4),
        _ => None,
    }
}

/// The tuples of a group-identify message; none where its index is out of range.
pub open spec fn group_tuples(event: GroupIdentify) -> Seq<TupleView> {
    match group_property_type(event.group_type_index) {
        Some(property_type) => text_tuples(event.team_id, property_type, event.group_properties),
        None => Seq::empty(),
    }
}

/// No two tuples share both type and key.
pub open spec fn has_distinct_slots(tuples: Seq<TupleView>) -> bool {
    forall|i: int, j: int|
        0 <= i < j < tuples.len() ==> (#[trigger] tuples[i]).property_type != (
        #[trigger] tuples[j]).property_type || tuples[i].property_key != tuples[j].property_key
}

/// The only values of a blob that coerce to nothing are `null` and the empty string.
pub open spec fn only_null_and_empty_text_vanish(blob: BlobView) -> bool {
    forall|i: int|
        0 <= i < blob.entries().len() ==> (coerced((#[trigger] blob.entries()[i]).1).len() == 0
            <==> blob.entries()[i].1 is Null || blob.entries()[i].1 == JsonView::Text(Seq::empty()))
}

/// Fans one event out to its constituent property-value tuples.
///
/// For each entry of `properties` / `person_properties` / `groupN_properties`:
///   - entries whose JSON value is `null` are dropped
///   - non-string values are coerced to their JSON text
///   - entries with an empty key, or a key longer than 400 codepoints, are dropped
///   - entries with an empty value, or a value of 256 codepoints or more, are dropped
///
/// No two tuples of one event share both type and key.
pub fn fan_out(event: &Event) -> (out: Vec<TupleKey>)
    ensures
        types::tuple_views(out@) == event_tuples(*event),
        has_distinct_slots(event_tuples(*event)),
{
    let mut out: Vec<TupleKey> = Vec::new();
    assert(types::tuple_views(out@) =~= Seq::empty());

    emit_from_text(event.team_id, PropertyType::Event, &event.properties, &mut out);
    emit_from_text(event.team_id, PropertyType::Person, &event.person_properties, &mut out);
    emit_from_text(event.team_id, PropertyType::Group0, &event.group0_properties, &mut out);
    emit_from_text(event.team_id, PropertyType::Group1, &event.group1_properties, &mut out);
    emit_from_text(event.team_id, PropertyType::Group2, &event.group2_properties, &mut out);
    emit_from_text(event.team_id, PropertyType::Group3, &event.group3_properties, &mut out);
    emit_from_text(event.team_id, PropertyType::Group4, &event.group4_properties, &mut out);
    assert(types::tuple_views(out@) =~= event_tuples(*event));
    proof {
        lemma_event_slots_are_distinct(*event);
    }

    out
}

/// Fans one group-identify message out to its constituent tuples, under the same
/// caps and coercion as `fan_out`. A message whose group type index is out of range
/// emits nothing.
pub fn fan_out_group(event: &GroupIdentify) -> (out: Vec<TupleKey>)
    ensures
        types::tuple_views(out@) == group_tuples(*event),
        has_distinct_slots(group_tuples(*event)),
{
    let mut out: Vec<TupleKey> = Vec::new();
    assert(types::tuple_views(out@) =~= Seq::empty());
    let property_type: PropertyType = match event.group_type_index {
        0 => PropertyType::Group0,
        1 => PropertyType::Group1,
        2 => PropertyType::Group2,
        3 => PropertyType::Group3,
        4 => PropertyType::Group4,
        _ => return out,
    };
    emit_from_text(event.team_id, property_type, &event.group_properties, &mut out);
    assert(types::tuple_views(out@) =~= group_tuples(*event));
    out
}

/// Appends the tuples of an optional blob of JSON text.
fn emit_from_text(
    team_id: i64,
    property_type: PropertyType,
    raw: &Option<String>,
    out: &mut Vec<TupleKey>,
)
    ensures
        types::tuple_views(final(out)@) == types::tuple_views(old(out)@) + text_tuples(
            team_id,
            property_type,
            *raw,
        ),
        has_distinct_slots(text_tuples(team_id, property_type, *raw)),
{
    if let Some(raw) = raw {
        emit_from_blob(team_id, property_type, raw.as_str(), out);
    } else {
        assert(types::tuple_views(out@) =~= types::tuple_views(out@) + Seq::empty());
    }
}

/// Appends the tuples of a blob of JSON text. A blob that is not a JSON object
/// emits nothing.
pub fn emit_from_blob(
    team_id: i64,
    property_type: PropertyType,
    raw: &str,
    out: &mut Vec<TupleKey>,
)
    ensures
        types::tuple_views(final(out)@) == types::tuple_views(old(out)@) + blob_tuples(
            team_id,
            property_type,
            json::parsed_blob(raw@),
        ),
        has_distinct_slots(blob_tuples(team_id, property_type, json::parsed_blob(raw@))),
        only_null_and_empty_text_vanish(json::parsed_blob(raw@)),
{
    let blob = parse_blob(raw);
    emit_from_parsed(team_id, property_type, &blob, out);
    proof {
        lemma_blob_slots_are_distinct(team_id, property_type, blob@);
        lemma_only_null_and_empty_text_vanish(blob@);
    }
}

/// Appends the tuples of a blob that has been parsed.
pub fn emit_from_parsed(
    team_id: i64,
    property_type: PropertyType,
    blob: &ParsedBlob,
    out: &mut Vec<TupleKey>,
)
    ensures
        types::tuple_views(final(out)@) == types::tuple_views(old(out)@) + blob_tuples(
            team_id,
            property_type,
            blob@,
        ),
{
    let entries = match blob {
        ParsedBlob::Object(entries) => entries,
        ParsedBlob::Malformed | ParsedBlob::NotObject => {
            proof {
                reveal(Seq::filter);
                assert(blob_tuples(team_id, property_type, blob@) =~= Seq::empty());
            }
            assert(types::tuple_views(out@) =~= types::tuple_views(old(out)@) + Seq::empty());
            return ;
        },
    };
    let ghost all = blob@.entries();
    let ghost before = types::tuple_views(out@);
    proof {
        reveal(Seq::filter);
        assert(entry_tuples(team_id, property_type, all.take(0)) =~= Seq::empty());
        assert(before =~= before + Seq::empty());
    }
    for i in 0..entries.len()
        invariant
            all == json::entry_views(entries@),
            types::tuple_views(out@) == before + entry_tuples(
                team_id,
                property_type,
                all.take(i as int),
            ),
    {
        let (key, value) = &entries[i];
        let ghost entry = (key@, value@);
        proof {
            lemma_entry_tuples_step(team_id, property_type, all, i as int);
            assert(all[i as int] == entry);
        }
        if let Some(property_value) = admitted_value(key, value) {
            let ghost prior = out@;
            out.push(TupleKey { team_id, property_type, property_key: key.clone(), property_value });
            assert(types::tuple_views(out@) =~= types::tuple_views(prior).push(
                entry_tuple(team_id, property_type, entry),
            ));
        }
    }
    assert(all.take(all.len() as int) =~= all);
}

/// The property value of an entry, where the entry becomes a tuple.
fn admitted_value(key: &String, value: &JsonValue) -> (admitted: Option<String>)
    ensures
        match admitted {
            Some(text) => is_emitted((key@, value@)) && text@ == coerced(value@),
            None => !is_emitted((key@, value@)),
        },
{
    if let JsonValue::Null = value {
        return None;
    }
    let property_value = coerce_to_string(value);

    if key.as_str().is_empty() || key.as_str().unicode_len() > MAX_PROPERTY_KEY_LEN {
        return None;
    }
    if property_value.as_str().is_empty() || property_value.as_str().unicode_len()
        >= MAX_PROPERTY_VALUE_LEN {
        return None;
    }
    Some(property_value)
}

/// The property value of a JSON value: a string's own text, the JSON text of any
/// other value, and nothing for `null`.
pub fn coerce_to_string(v: &JsonValue) -> (text: String)
    ensures
        text@ == coerced(v@),
        match v {
            JsonValue::Null => text@.len() == 0,
            JsonValue::Text(s) => text@ == s@,
            JsonValue::Bool(s) => text@ == s@,
            JsonValue::Number(s) => text@ == s@,
            JsonValue::Array(s) => text@ == s@,
            JsonValue::Object(s) => text@ == s@,
        },
{
    match v {
        JsonValue::Text(s) => s.clone(),
        JsonValue::Null => String::new(),
        JsonValue::Bool(s) | JsonValue::Number(s) | JsonValue::Array(s) | JsonValue::Object(
            s,
        ) => s.clone(),
    }
}

/// Coercion keeps every text, character for character: a string's own text, and the JSON
/// text of a boolean, number, array or object. So values of one kind coerce to the same
/// text only where they are the same; `null` alone has no text.
pub proof fn lemma_coercion_keeps_every_text(text: Seq<char>, other: Seq<char>)
    ensures
        coerced(JsonView::Text(text)) == text,
        coerced(JsonView::Bool(text)) == text,
        coerced(JsonView::Number(text)) == text,
        coerced(JsonView::Array(text)) == text,
        coerced(JsonView::Object(text)) == text,
        coerced(JsonView::Null).len() == 0,
        coerced(JsonView::Number(text)) == coerced(JsonView::Number(other)) <==> text == other,
{
}

/// An entry becomes a tuple exactly where its value is not `null`, its key has one to 400
/// characters and the text of its value has one to 255. The tuple then has the entry's
/// key as its key and that text as its value.
pub proof fn lemma_caps_decide_alone(
    team_id: i64,
    property_type: PropertyType,
    key: Seq<char>,
    value: JsonView,
)
    ensures
        is_emitted((key, value)) <==> {
            &&& 1 <= key.len() <= 400
            &&& match value {
                JsonView::Null => false,
                JsonView::Text(text) => 1 <= text.len() <= 255,
                JsonView::Bool(text) => 1 <= text.len() <= 255,
                JsonView::Number(text) => 1 <= text.len() <= 255,
                JsonView::Array(text) => 1 <= text.len() <= 255,
                JsonView::Object(text) => 1 <= text.len() <= 255,
            }
        },
        entry_tuple(team_id, property_type, (key, value)).team_id == team_id,
        entry_tuple(team_id, property_type, (key, value)).property_type == property_type,
        entry_tuple(team_id, property_type, (key, value)).property_key == key,
        match value {
            JsonView::Null => true,
            JsonView::Text(text) => entry_tuple(
                team_id,
                property_type,
                (key, value),
            ).property_value == text,
            JsonView::Bool(text) => entry_tuple(
                team_id,
                property_type,
                (key, value),
            ).property_value == text,
            JsonView::Number(text) => entry_tuple(
                team_id,
                property_type,
                (key, value),
            ).property_value == text,
            JsonView::Array(text) => entry_tuple(
                team_id,
                property_type,
                (key, value),
            ).property_value == text,
            JsonView::Object(text) => entry_tuple(
                team_id,
                property_type,
                (key, value),
            ).property_value == text,
        },
{
}

/// Every entry of every blob of an event whose key and text are within the caps is
/// emitted, with the type of its blob: the key is the entry's key, and the value is,
/// character for character, the text that the entry was parsed to.
pub proof fn lemma_every_short_entry_is_emitted(
    event: Event,
    property_type: PropertyType,
    raw: String,
    i: int,
    text: Seq<char>,
)
    requires
        (match property_type {
            PropertyType::Event => event.properties,
            PropertyType::Person => event.person_properties,
            PropertyType::Group0 => event.group0_properties,
            PropertyType::Group1 => event.group1_properties,
            PropertyType::Group2 => event.group2_properties,
            PropertyType::Group3 => event.group3_properties,
            PropertyType::Group4 => event.group4_properties,
        }) == Some(raw),
        0 <= i < json::parsed_blob(raw@).entries().len(),
        ({
            let value = json::parsed_blob(raw@).entries()[i].1;
            ||| value == JsonView::Text(text)
            ||| value == JsonView::Bool(text)
            ||| value == JsonView::Number(text)
            ||| value == JsonView::Array(text)
            ||| value == JsonView::Object(text)
        }),
        1 <= json::parsed_blob(raw@).entries()[i].0.len() <= 400,
        1 <= text.len() <= 255,
    ensures
        event_tuples(event).contains(
            (TupleView {
                team_id: event.team_id,
                property_type,
                property_key: json::parsed_blob(raw@).entries()[i].0,
                property_value: text,
            }),
        ),
{
    let entries = json::parsed_blob(raw@).entries();
    let tuple = entry_tuple(event.team_id, property_type, entries[i]);
    assert(is_emitted(entries[i]));
    lemma_entry_tuples_contains(event.team_id, property_type, entries, tuple);
    lemma_blob_of_event_is_part(event, property_type, tuple);
}

/// Every tuple of an event is an entry of the blob of its type: it has the event's team,
/// the entry's key, and the text that the entry was parsed to; both texts are within the
/// caps.
pub proof fn lemma_every_tuple_is_an_entry(event: Event, tuple: TupleView, raw: Option<String>)
    requires
        event_tuples(event).contains(tuple),
        raw == match tuple.property_type {
            PropertyType::Event => event.properties,
            PropertyType::Person => event.person_properties,
            PropertyType::Group0 => event.group0_properties,
            PropertyType::Group1 => event.group1_properties,
            PropertyType::Group2 => event.group2_properties,
            PropertyType::Group3 => event.group3_properties,
            PropertyType::Group4 => event.group4_properties,
        },
    ensures
        tuple.team_id == event.team_id,
        1 <= tuple.property_key.len() <= 400,
        1 <= tuple.property_value.len() <= 255,
        raw is Some,
        exists|i: int|
            {
                let entries = json::parsed_blob(raw->0@).entries();
                &&& 0 <= i < entries.len()
                &&& (#[trigger] json::parsed_blob(raw->0@).entries()[i]).0 == tuple.property_key
                &&& {
                    ||| entries[i].1 == JsonView::Text(tuple.property_value)
                    ||| entries[i].1 == JsonView::Bool(tuple.property_value)
                    ||| entries[i].1 == JsonView::Number(tuple.property_value)
                    ||| entries[i].1 == JsonView::Array(tuple.property_value)
                    ||| entries[i].1 == JsonView::Object(tuple.property_value)
                }
            },
{
    lemma_tuple_of_event_is_in_its_blob(event, tuple);
    let entries = json::parsed_blob(raw->0@).entries();
    lemma_entry_tuples_contains(event.team_id, tuple.property_type, entries, tuple);
    let i = choose|i: int|
        0 <= i < entries.len() && is_emitted(#[trigger] entries[i]) && tuple == entry_tuple(
            event.team_id,
            tuple.property_type,
            entries[i],
        );
    assert(json::parsed_blob(raw->0@).entries()[i].0 == tuple.property_key);
}

/// Where no blob of an event has a key twice, no two tuples of the event share type and
/// key: no entry is emitted twice.
pub proof fn lemma_no_entry_is_emitted_twice(event: Event, p: int, q: int)
    requires
        0 <= p < q < event_tuples(event).len(),
        forall|property_type: PropertyType| #[trigger]
            blob_of(event, property_type) matches Some(raw) ==> json::parsed_blob(
                raw@,
            ).has_distinct_keys(),
    ensures
        event_tuples(event)[p].property_type != event_tuples(event)[q].property_type
            || event_tuples(event)[p].property_key != event_tuples(event)[q].property_key,
{
    assert forall|property_type: PropertyType| has_distinct_slots(
        #[trigger] text_tuples(event.team_id, property_type, blob_of(event, property_type)),
    ) by {
        if let Some(raw) = blob_of(event, property_type) {
            lemma_blob_slots_are_distinct(event.team_id, property_type, json::parsed_blob(raw@));
        }
    }
    assert(has_distinct_slots(
        text_tuples(event.team_id, PropertyType::Event, blob_of(event, PropertyType::Event)),
    ));
    assert(has_distinct_slots(
        text_tuples(event.team_id, PropertyType::Person, blob_of(event, PropertyType::Person)),
    ));
    assert(has_distinct_slots(
        text_tuples(event.team_id, PropertyType::Group0, blob_of(event, PropertyType::Group0)),
    ));
    assert(has_distinct_slots(
        text_tuples(event.team_id, PropertyType::Group1, blob_of(event, PropertyType::Group1)),
    ));
    assert(has_distinct_slots(
        text_tuples(event.team_id, PropertyType::Group2, blob_of(event, PropertyType::Group2)),
    ));
    assert(has_distinct_slots(
        text_tuples(event.team_id, PropertyType::Group3, blob_of(event, PropertyType::Group3)),
    ));
    assert(has_distinct_slots(
        text_tuples(event.team_id, PropertyType::Group4, blob_of(event, PropertyType::Group4)),
    ));
    lemma_event_slots_are_distinct(event);
}

/// Entries are emitted in their order: of two entries of a blob that are emitted, the
/// earlier one's tuple comes first.
pub proof fn lemma_entries_keep_their_order(
    team_id: i64,
    property_type: PropertyType,
    blob: BlobView,
    i: int,
    j: int,
)
    requires
        0 <= i < j < blob.entries().len(),
        is_emitted(blob.entries()[i]),
        is_emitted(blob.entries()[j]),
    ensures
        exists|p: int, q: int|
            0 <= p < q < blob_tuples(team_id, property_type, blob).len()
                && #[trigger] blob_tuples(team_id, property_type, blob)[p] == entry_tuple(
                team_id,
                property_type,
                blob.entries()[i],
            ) && #[trigger] blob_tuples(team_id, property_type, blob)[q] == entry_tuple(
                team_id,
                property_type,
                blob.entries()[j],
            ),
{
    let entries = blob.entries();
    let all = blob_tuples(team_id, property_type, blob);
    let p = entry_tuples(team_id, property_type, entries.take(i)).len() as int;
    let q = entry_tuples(team_id, property_type, entries.take(j)).len() as int;
    lemma_entry_tuples_step(team_id, property_type, entries, i);
    lemma_entry_tuples_step(team_id, property_type, entries, j);
    lemma_entry_tuples_grow(team_id, property_type, entries, i + 1, j);
    lemma_entry_tuples_grow(team_id, property_type, entries, i + 1, entries.len() as int);
    lemma_entry_tuples_grow(team_id, property_type, entries, j + 1, entries.len() as int);
    assert(entries.take(entries.len() as int) =~= entries);
    assert(all[p] == entry_tuple(team_id, property_type, entries[i]));
    assert(all[q] == entry_tuple(team_id, property_type, entries[j]));
}

/// The blobs of an event are emitted one after the other: its own properties, the
/// person's, then the groups' by their index.
pub proof fn lemma_blobs_are_emitted_in_turn(
    event: Event,
    rank: spec_fn(PropertyType) -> int,
    p: int,
    q: int,
)
    requires
        rank(PropertyType::Event) < rank(PropertyType::Person) < rank(PropertyType::Group0)
            < rank(PropertyType::Group1) < rank(PropertyType::Group2) < rank(PropertyType::Group3)
            < rank(PropertyType::Group4),
        0 <= p <= q < event_tuples(event).len(),
    ensures
        rank(event_tuples(event)[p].property_type) <= rank(event_tuples(event)[q].property_type),
{
    lemma_text_tuples_are_storable(event.team_id, PropertyType::Event, event.properties);
    lemma_text_tuples_are_storable(event.team_id, PropertyType::Person, event.person_properties);
    lemma_text_tuples_are_storable(event.team_id, PropertyType::Group0, event.group0_properties);
    lemma_text_tuples_are_storable(event.team_id, PropertyType::Group1, event.group1_properties);
    lemma_text_tuples_are_storable(event.team_id, PropertyType::Group2, event.group2_properties);
    lemma_text_tuples_are_storable(event.team_id, PropertyType::Group3, event.group3_properties);
    lemma_text_tuples_are_storable(event.team_id, PropertyType::Group4, event.group4_properties);
}

/// A group-identify message whose index is out of range emits nothing.
pub proof fn lemma_unknown_group_emits_nothing(group: GroupIdentify)
    requires
        group.group_type_index > 4,
    ensures
        group_tuples(group).len() == 0,
{
}

/// The blob of an event that holds the properties of a type.
pub open spec fn blob_of(event: Event, property_type: PropertyType) -> Option<String> {
    match property_type {
        PropertyType::Event => event.properties,
        PropertyType::Person => event.person_properties,
        PropertyType::Group0 => event.group0_properties,
        PropertyType::Group1 => event.group1_properties,
        PropertyType::Group2 => event.group2_properties,
        PropertyType::Group3 => event.group3_properties,
        PropertyType::Group4 => event.group4_properties,
    }
}

/// The tuples of a blob of an event are tuples of the event.
proof fn lemma_blob_of_event_is_part(
    event: Event,
    property_type: PropertyType,
    tuple: TupleView,
)
    requires
        text_tuples(event.team_id, property_type, blob_of(event, property_type)).contains(tuple),
    ensures
        event_tuples(event).contains(tuple),
{
    let s0 = text_tuples(event.team_id, PropertyType::Event, event.properties);
    let s1 = text_tuples(event.team_id, PropertyType::Person, event.person_properties);
    let s2 = text_tuples(event.team_id, PropertyType::Group0, event.group0_properties);
    let s3 = text_tuples(event.team_id, PropertyType::Group1, event.group1_properties);
    let s4 = text_tuples(event.team_id, PropertyType::Group2, event.group2_properties);
    let s5 = text_tuples(event.team_id, PropertyType::Group3, event.group3_properties);
    let part = text_tuples(event.team_id, property_type, blob_of(event, property_type));
    let before: nat = match property_type {
        PropertyType::Event => 0,
        PropertyType::Person => s0.len(),
        PropertyType::Group0 => s0.len() + s1.len(),
        PropertyType::Group1 => s0.len() + s1.len() + s2.len(),
        PropertyType::Group2 => s0.len() + s1.len() + s2.len() + s3.len(),
        PropertyType::Group3 => s0.len() + s1.len() + s2.len() + s3.len() + s4.len(),
        PropertyType::Group4 => s0.len() + s1.len() + s2.len() + s3.len() + s4.len() + s5.len(),
    };
    let k = choose|k: int| 0 <= k < part.len() && part[k] == tuple;
    assert(event_tuples(event)[before + k] == tuple);
}

/// A tuple of an event is a tuple of the blob of its type.
proof fn lemma_tuple_of_event_is_in_its_blob(event: Event, tuple: TupleView)
    requires
        event_tuples(event).contains(tuple),
    ensures
        text_tuples(
            event.team_id,
            tuple.property_type,
            blob_of(event, tuple.property_type),
        ).contains(tuple),
        blob_of(event, tuple.property_type) is Some,
        tuple.team_id == event.team_id,
{
    let s0 = text_tuples(event.team_id, PropertyType::Event, event.properties);
    let s1 = text_tuples(event.team_id, PropertyType::Person, event.person_properties);
    let s2 = text_tuples(event.team_id, PropertyType::Group0, event.group0_properties);
    let s3 = text_tuples(event.team_id, PropertyType::Group1, event.group1_properties);
    let s4 = text_tuples(event.team_id, PropertyType::Group2, event.group2_properties);
    let s5 = text_tuples(event.team_id, PropertyType::Group3, event.group3_properties);
    let s6 = text_tuples(event.team_id, PropertyType::Group4, event.group4_properties);
    lemma_text_tuples_are_storable(event.team_id, PropertyType::Event, event.properties);
    lemma_text_tuples_are_storable(event.team_id, PropertyType::Person, event.person_properties);
    lemma_text_tuples_are_storable(event.team_id, PropertyType::Group0, event.group0_properties);
    lemma_text_tuples_are_storable(event.team_id, PropertyType::Group1, event.group1_properties);
    lemma_text_tuples_are_storable(event.team_id, PropertyType::Group2, event.group2_properties);
    lemma_text_tuples_are_storable(event.team_id, PropertyType::Group3, event.group3_properties);
    lemma_text_tuples_are_storable(event.team_id, PropertyType::Group4, event.group4_properties);
    let k = choose|k: int| 0 <= k < event_tuples(event).len() && event_tuples(event)[k] == tuple;
    let n1 = s0.len() as int;
    let n2 = n1 + s1.len();
    let n3 = n2 + s2.len();
    let n4 = n3 + s3.len();
    let n5 = n4 + s4.len();
    let n6 = n5 + s5.len();
    if k < n1 {
        assert(s0[k] == tuple);
    } else if k < n2 {
        assert(s1[k - n1] == tuple);
    } else if k < n3 {
        assert(s2[k - n2] == tuple);
    } else if k < n4 {
        assert(s3[k - n3] == tuple);
    } else if k < n5 {
        assert(s4[k - n4] == tuple);
    } else if k < n6 {
        assert(s5[k - n5] == tuple);
    } else {
        assert(s6[k - n6] == tuple);
    }
}

/// More entries leave the tuples of the earlier ones in place.
proof fn lemma_entry_tuples_grow(
    team_id: i64,
    property_type: PropertyType,
    entries: Seq<(Seq<char>, JsonView)>,
    i: int,
    j: int,
)
    requires
        0 <= i <= j <= entries.len(),
    ensures
        entry_tuples(team_id, property_type, entries.take(i)).len() <= entry_tuples(
            team_id,
            property_type,
            entries.take(j),
        ).len(),
        forall|k: int|
            0 <= k < entry_tuples(team_id, property_type, entries.take(i)).len()
                ==> #[trigger] entry_tuples(team_id, property_type, entries.take(j))[k]
                == entry_tuples(team_id, property_type, entries.take(i))[k],
    decreases j - i,
{
    if i < j {
        lemma_entry_tuples_grow(team_id, property_type, entries, i, j - 1);
        lemma_entry_tuples_step(team_id, property_type, entries, j - 1);
    }
}

/// An entry of a blob becomes a tuple exactly where it is not `null` and its key and
/// coerced value are within the caps; nothing else is emitted.
pub proof fn lemma_blob_tuples_are_the_emitted_entries(
    team_id: i64,
    property_type: PropertyType,
    blob: BlobView,
    tuple: TupleView,
)
    ensures
        blob_tuples(team_id, property_type, blob).contains(tuple) <==> exists|i: int|
            0 <= i < blob.entries().len() && is_emitted(#[trigger] blob.entries()[i]) && tuple
                == entry_tuple(team_id, property_type, blob.entries()[i]),
{
    lemma_entry_tuples_contains(team_id, property_type, blob.entries(), tuple);
}

/// Where JSON text is never empty, the only values that coerce to nothing are `null`
/// and the empty string: every other value is dropped for its length alone.
pub proof fn lemma_only_null_and_empty_text_vanish(blob: BlobView)
    requires
        blob.is_rendered(),
    ensures
        only_null_and_empty_text_vanish(blob),
{
    assert forall|i: int| 0 <= i < blob.entries().len() implies (coerced(
        (#[trigger] blob.entries()[i]).1,
    ).len() == 0 <==> blob.entries()[i].1 is Null || blob.entries()[i].1 == JsonView::Text(
        Seq::empty(),
    )) by {
        let value = blob.entries()[i].1;
        assert(value.is_rendered());
        if value is Text && coerced(value).len() == 0 {
            assert(coerced(value) =~= Seq::empty());
        }
    }
}

/// Every tuple of an event belongs to the event's team and is within the caps that
/// the storage accepts.
pub proof fn lemma_event_tuples_are_storable(event: Event, i: int)
    requires
        0 <= i < event_tuples(event).len(),
    ensures
        event_tuples(event)[i].team_id == event.team_id,
        within_caps(event_tuples(event)[i].property_key, event_tuples(event)[i].property_value),
{
    lemma_text_tuples_are_storable(event.team_id, PropertyType::Event, event.properties);
    lemma_text_tuples_are_storable(event.team_id, PropertyType::Person, event.person_properties);
    lemma_text_tuples_are_storable(event.team_id, PropertyType::Group0, event.group0_properties);
    lemma_text_tuples_are_storable(event.team_id, PropertyType::Group1, event.group1_properties);
    lemma_text_tuples_are_storable(event.team_id, PropertyType::Group2, event.group2_properties);
    lemma_text_tuples_are_storable(event.team_id, PropertyType::Group3, event.group3_properties);
    lemma_text_tuples_are_storable(event.team_id, PropertyType::Group4, event.group4_properties);
}

/// Every tuple of a group-identify message belongs to the message's team, has the
/// type of the message's index, and is within the caps that the storage accepts.
pub proof fn lemma_group_tuples_are_storable(event: GroupIdentify, i: int)
    requires
        0 <= i < group_tuples(event).len(),
    ensures
        group_tuples(event)[i].team_id == event.team_id,
        Some(group_tuples(event)[i].property_type) == group_property_type(event.group_type_index),
        within_caps(group_tuples(event)[i].property_key, group_tuples(event)[i].property_value),
{
    if let Some(property_type) = group_property_type(event.group_type_index) {
        lemma_text_tuples_are_storable(event.team_id, property_type, event.group_properties);
    }
}

/// A group-identify message fans out like an event that carries nothing but its
/// properties, in the blob of its group type.
pub proof fn lemma_group_fans_out_like_event(group: GroupIdentify, event: Event)
    requires
        group.group_type_index <= 4,
        event.team_id == group.team_id,
        event.properties is None,
        event.person_properties is None,
        event.group0_properties == if group.group_type_index == 0 {
            group.group_properties
        } else {
            None
        },
        event.group1_properties == if group.group_type_index == 1 {
            group.group_properties
        } else {
            None
        },
        event.group2_properties == if group.group_type_index == 2 {
            group.group_properties
        } else {
            None
        },
        event.group3_properties == if group.group_type_index == 3 {
            group.group_properties
        } else {
            None
        },
        event.group4_properties == if group.group_type_index == 4 {
            group.group_properties
        } else {
            None
        },
    ensures
        group_tuples(group) == event_tuples(event),
{
    assert(group_tuples(group) =~= event_tuples(event));
}

/// A blob that does not parse, or is not an object, counts as an empty object.
pub proof fn lemma_unusable_blob_is_an_empty_object(
    team_id: i64,
    property_type: PropertyType,
    blob: BlobView,
)
    requires
        blob !is Object,
    ensures
        blob_tuples(team_id, property_type, blob) == blob_tuples(
            team_id,
            property_type,
            BlobView::Object(Seq::empty()),
        ),
        blob_tuples(team_id, property_type, blob).len() == 0,
{
    reveal(Seq::filter);
}

proof fn lemma_entry_tuples_contains(
    team_id: i64,
    property_type: PropertyType,
    entries: Seq<(Seq<char>, JsonView)>,
    tuple: TupleView,
)
    ensures
        entry_tuples(team_id, property_type, entries).contains(tuple) <==> exists|i: int|
            0 <= i < entries.len() && is_emitted(#[trigger] entries[i]) && tuple == entry_tuple(
                team_id,
                property_type,
                entries[i],
            ),
    decreases entries.len(),
{
    if entries.len() == 0 {
        reveal(Seq::filter);
    } else {
        let shorter = entries.drop_last();
        let last = entries.len() - 1;
        lemma_entry_tuples_contains(team_id, property_type, shorter, tuple);
        lemma_entry_tuples_step(team_id, property_type, entries, last);
        assert(entries.take(last) =~= shorter);
        assert(entries.take(last + 1) =~= entries);
        let before = entry_tuples(team_id, property_type, shorter);
        let after = entry_tuples(team_id, property_type, entries);
        if after.contains(tuple) {
            let k = choose|k: int| 0 <= k < after.len() && after[k] == tuple;
            if k < before.len() {
                assert(before[k] == tuple);
                let i = choose|i: int|
                    0 <= i < shorter.len() && is_emitted(#[trigger] shorter[i]) && tuple
                        == entry_tuple(team_id, property_type, shorter[i]);
                assert(entries[i] == shorter[i]);
            } else {
                assert(is_emitted(entries[last]));
            }
        }
        if exists|i: int|
            0 <= i < entries.len() && is_emitted(#[trigger] entries[i]) && tuple == entry_tuple(
                team_id,
                property_type,
                entries[i],
            ) {
            let i = choose|i: int|
                0 <= i < entries.len() && is_emitted(#[trigger] entries[i]) && tuple
                    == entry_tuple(team_id, property_type, entries[i]);
            if i < last {
                assert(shorter[i] == entries[i]);
                let k = choose|k: int| 0 <= k < before.len() && before[k] == tuple;
                assert(after[k] == tuple);
            } else {
                assert(after.last() == tuple);
            }
        }
    }
}

proof fn lemma_text_tuples_are_storable(
    team_id: i64,
    property_type: PropertyType,
    raw: Option<String>,
)
    ensures
        forall|i: int|
            0 <= i < text_tuples(team_id, property_type, raw).len() ==> {
                let tuple = #[trigger] text_tuples(team_id, property_type, raw)[i];
                &&& tuple.team_id == team_id
                &&& tuple.property_type == property_type
                &&& within_caps(tuple.property_key, tuple.property_value)
            },
{
    let tuples = text_tuples(team_id, property_type, raw);
    assert forall|i: int| 0 <= i < tuples.len() implies {
        let tuple = #[trigger] tuples[i];
        &&& tuple.team_id == team_id
        &&& tuple.property_type == property_type
        &&& within_caps(tuple.property_key, tuple.property_value)
    } by {
        let entries = json::parsed_blob(raw->0@).entries();
        lemma_entry_tuples_contains(team_id, property_type, entries, tuples[i]);
        assert(tuples.contains(tuples[i]));
    }
}

/// A blob whose keys are distinct emits each key at most once.
proof fn lemma_blob_slots_are_distinct(
    team_id: i64,
    property_type: PropertyType,
    blob: BlobView,
)
    requires
        blob.has_distinct_keys(),
    ensures
        has_distinct_slots(blob_tuples(team_id, property_type, blob)),
{
    let entries = blob.entries();
    assert(entries.take(entries.len() as int) =~= entries);
    lemma_prefix_slots_are_distinct(team_id, property_type, blob, entries.len() as int);
}

proof fn lemma_prefix_slots_are_distinct(
    team_id: i64,
    property_type: PropertyType,
    blob: BlobView,
    n: int,
)
    requires
        blob.has_distinct_keys(),
        0 <= n <= blob.entries().len(),
    ensures
        has_distinct_slots(entry_tuples(team_id, property_type, blob.entries().take(n))),
    decreases n,
{
    let entries = blob.entries();
    if n == 0 {
        reveal(Seq::filter);
    } else {
        lemma_prefix_slots_are_distinct(team_id, property_type, blob, n - 1);
        lemma_entry_tuples_step(team_id, property_type, entries, n - 1);
        let before = entry_tuples(team_id, property_type, entries.take(n - 1));
        assert forall|k: int| 0 <= k < before.len() implies (#[trigger] before[k]).property_key
            != entries[n - 1].0 by {
            lemma_entry_tuples_contains(team_id, property_type, entries.take(n - 1), before[k]);
            assert(before.contains(before[k]));
            let i = choose|i: int|
                0 <= i < n - 1 && is_emitted(#[trigger] entries.take(n - 1)[i]) && before[k]
                    == entry_tuple(team_id, property_type, entries.take(n - 1)[i]);
            assert(entries.take(n - 1)[i] == entries[i]);
        }
    }
}

/// Appending tuples of a type that does not occur yet keeps slots distinct.
proof fn lemma_append_keeps_slots_distinct(
    seen: Set<PropertyType>,
    tuples: Seq<TupleView>,
    team_id: i64,
    property_type: PropertyType,
    raw: Option<String>,
)
    requires
        has_distinct_slots(tuples),
        forall|i: int| 0 <= i < tuples.len() ==> seen.contains((#[trigger] tuples[i]).property_type),
        !seen.contains(property_type),
        has_distinct_slots(text_tuples(team_id, property_type, raw)),
    ensures
        has_distinct_slots(tuples + text_tuples(team_id, property_type, raw)),
        forall|i: int|
            0 <= i < (tuples + text_tuples(team_id, property_type, raw)).len()
                ==> seen.insert(property_type).contains(
                (#[trigger] (tuples + text_tuples(team_id, property_type, raw))[i]).property_type,
            ),
{
    lemma_text_tuples_are_storable(team_id, property_type, raw);
    let more = text_tuples(team_id, property_type, raw);
    let all = tuples + more;
    assert forall|i: int, j: int| 0 <= i < j < all.len() implies (
    #[trigger] all[i]).property_type != (#[trigger] all[j]).property_type || all[i].property_key
        != all[j].property_key by {
        if i >= tuples.len() {
            assert(all[i] == more[i - tuples.len()]);
            assert(all[j] == more[j - tuples.len()]);
        } else if j >= tuples.len() {
            assert(all[i] == tuples[i]);
            assert(all[j] == more[j - tuples.len()]);
        } else {
            assert(all[i] == tuples[i]);
            assert(all[j] == tuples[j]);
        }
    }
    assert forall|i: int| 0 <= i < all.len() implies seen.insert(property_type).contains(
        (#[trigger] all[i]).property_type,
    ) by {
        if i < tuples.len() {
            assert(all[i] == tuples[i]);
        } else {
            assert(all[i] == more[i - tuples.len()]);
        }
    }
}

/// Blobs that emit each key at most once make an event that does so per type.
proof fn lemma_event_slots_are_distinct(event: Event)
    requires
        has_distinct_slots(text_tuples(event.team_id, PropertyType::Event, event.properties)),
        has_distinct_slots(text_tuples(event.team_id, PropertyType::Person, event.person_properties)),
        has_distinct_slots(text_tuples(event.team_id, PropertyType::Group0, event.group0_properties)),
        has_distinct_slots(text_tuples(event.team_id, PropertyType::Group1, event.group1_properties)),
        has_distinct_slots(text_tuples(event.team_id, PropertyType::Group2, event.group2_properties)),
        has_distinct_slots(text_tuples(event.team_id, PropertyType::Group3, event.group3_properties)),
        has_distinct_slots(text_tuples(event.team_id, PropertyType::Group4, event.group4_properties)),
    ensures
        has_distinct_slots(event_tuples(event)),
{
    let s0 = text_tuples(event.team_id, PropertyType::Event, event.properties);
    let s1 = text_tuples(event.team_id, PropertyType::Person, event.person_properties);
    let s2 = text_tuples(event.team_id, PropertyType::Group0, event.group0_properties);
    let s3 = text_tuples(event.team_id, PropertyType::Group1, event.group1_properties);
    let s4 = text_tuples(event.team_id, PropertyType::Group2, event.group2_properties);
    let s5 = text_tuples(event.team_id, PropertyType::Group3, event.group3_properties);
    lemma_append_keeps_slots_distinct(
        Set::<PropertyType>::empty(),
        Seq::<TupleView>::empty(),
        event.team_id,
        PropertyType::Event,
        event.properties,
    );
    assert(Seq::<TupleView>::empty() + s0 =~= s0);
    let seen0 = Set::<PropertyType>::empty().insert(PropertyType::Event);
    lemma_append_keeps_slots_distinct(
        seen0,
        s0,
        event.team_id,
        PropertyType::Person,
        event.person_properties,
    );
    let seen1 = seen0.insert(PropertyType::Person);
    lemma_append_keeps_slots_distinct(
        seen1,
        s0 + s1,
        event.team_id,
        PropertyType::Group0,
        event.group0_properties,
    );
    let seen2 = seen1.insert(PropertyType::Group0);
    lemma_append_keeps_slots_distinct(
        seen2,
        s0 + s1 + s2,
        event.team_id,
        PropertyType::Group1,
        event.group1_properties,
    );
    let seen3 = seen2.insert(PropertyType::Group1);
    lemma_append_keeps_slots_distinct(
        seen3,
        s0 + s1 + s2 + s3,
        event.team_id,
        PropertyType::Group2,
        event.group2_properties,
    );
    let seen4 = seen3.insert(PropertyType::Group2);
    lemma_append_keeps_slots_distinct(
        seen4,
        s0 + s1 + s2 + s3 + s4,
        event.team_id,
        PropertyType::Group3,
        event.group3_properties,
    );
    let seen5 = seen4.insert(PropertyType::Group3);
    lemma_append_keeps_slots_distinct(
        seen5,
        s0 + s1 + s2 + s3 + s4 + s5,
        event.team_id,
        PropertyType::Group4,
        event.group4_properties,
    );
}

/// One more entry adds its tuple at the end, or nothing.
proof fn lemma_entry_tuples_step(
    team_id: i64,
    property_type: PropertyType,
    entries: Seq<(Seq<char>, JsonView)>,
    i: int,
)
    requires
        0 <= i < entries.len(),
    ensures
        entry_tuples(team_id, property_type, entries.take(i + 1)) == if is_emitted(entries[i]) {
            entry_tuples(team_id, property_type, entries.take(i)).push(
                entry_tuple(team_id, property_type, entries[i]),
            )
        } else {
            entry_tuples(team_id, property_type, entries.take(i))
        },
{
    reveal(Seq::filter);
    let longer = entries.take(i + 1);
    assert(longer.drop_last() =~= entries.take(i));
    assert(longer.last() == entries[i]);
    assert(entry_tuples(team_id, property_type, longer) =~= if is_emitted(entries[i]) {
        entry_tuples(team_id, property_type, entries.take(i)).push(
            entry_tuple(team_id, property_type, entries[i]),
        )
    } else {
        entry_tuples(team_id, property_type, entries.take(i))
    });
}

} // verus!
