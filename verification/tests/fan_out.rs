use property_values::fan_out::{
    emit_from_blob, emit_from_parsed, fan_out, fan_out_group, coerce_to_string,
};
use property_values::json::{JsonValue, ParsedBlob};
use property_values::types::{Event, GroupIdentify, PropertyType, TupleKey};

fn event(properties: &str) -> Event {
    Event {
        team_id: 2,
        properties: Some(properties.to_string()),
        person_properties: None,
        group0_properties: None,
        group1_properties: None,
        group2_properties: None,
        group3_properties: None,
        group4_properties: None,
    }
}

#[test]
fn event_property_produces_event_type_tuple() {
    let tuples = fan_out(&event(r#"{"$browser":"Chrome"}"#));
    assert_eq!(tuples.len(), 1);
    assert_eq!(tuples[0].team_id, 2);
    assert_eq!(tuples[0].property_type, PropertyType::Event);
    assert_eq!(tuples[0].property_key, "$browser");
    assert_eq!(tuples[0].property_value, "Chrome");
}

#[test]
fn json_null_value_is_dropped() {
    let tuples = fan_out(&event(r#"{"nullable_field":null}"#));
    assert!(tuples.is_empty());
}

#[test]
fn empty_string_value_is_dropped() {
    let tuples = fan_out(&event(r#"{"blank":""}"#));
    assert!(tuples.is_empty());
}

#[test]
fn property_value_256_chars_is_dropped_and_255_is_kept() {
    let kept = "a".repeat(255);
    let dropped = "a".repeat(256);

    let tuples_kept = fan_out(&event(&format!(r#"{{"k":"{}"}}"#, kept)));
    let tuples_dropped = fan_out(&event(&format!(r#"{{"k":"{}"}}"#, dropped)));

    assert_eq!(tuples_kept.len(), 1);
    assert_eq!(tuples_kept[0].property_value, kept);
    assert!(tuples_dropped.is_empty());
}

#[test]
fn multi_byte_value_under_codepoint_cap_is_kept() {
    // 255 CJK codepoints = 765 bytes. Using .len() would silently drop
    // this; .chars().count() correctly keeps it.
    let value = "あ".repeat(255);
    let tuples = fan_out(&event(&format!(r#"{{"k":"{}"}}"#, value)));
    assert_eq!(tuples.len(), 1);
    assert_eq!(tuples[0].property_value, value);
}

#[test]
fn multi_byte_key_over_codepoint_cap_is_dropped() {
    // 401 CJK codepoints = 1203 bytes. Codepoint-aware check drops it.
    let key = "あ".repeat(401);
    let tuples = fan_out(&event(&format!(r#"{{"{}":"v"}}"#, key)));
    assert!(tuples.is_empty());
}

#[test]
fn property_key_401_chars_is_dropped_and_400_is_kept() {
    let kept = "k".repeat(400);
    let dropped = "k".repeat(401);

    let tuples_kept = fan_out(&event(&format!(r#"{{"{}":"v"}}"#, kept)));
    let tuples_dropped = fan_out(&event(&format!(r#"{{"{}":"v"}}"#, dropped)));

    assert_eq!(tuples_kept.len(), 1);
    assert_eq!(tuples_kept[0].property_key, kept);
    assert!(tuples_dropped.is_empty());
}

#[test]
fn person_properties_emit_person_type() {
    let ev = Event {
        team_id: 2,
        properties: None,
        person_properties: Some(r#"{"email":"foo@bar.com"}"#.to_string()),
        group0_properties: None,
        group1_properties: None,
        group2_properties: None,
        group3_properties: None,
        group4_properties: None,
    };
    let tuples = fan_out(&ev);
    assert_eq!(tuples.len(), 1);
    assert_eq!(tuples[0].property_type, PropertyType::Person);
    assert_eq!(tuples[0].property_key, "email");
    assert_eq!(tuples[0].property_value, "foo@bar.com");
}

#[test]
fn group2_properties_emit_group_2_type() {
    let ev = Event {
        team_id: 2,
        properties: None,
        person_properties: None,
        group0_properties: None,
        group1_properties: None,
        group2_properties: Some(r#"{"project":"posthog"}"#.to_string()),
        group3_properties: None,
        group4_properties: None,
    };
    let tuples = fan_out(&ev);
    assert_eq!(tuples.len(), 1);
    assert_eq!(tuples[0].property_type, PropertyType::Group2);
    assert_eq!(tuples[0].property_value, "posthog");
}

#[test]
fn bool_value_coerces_to_string() {
    let tuples = fan_out(&event(r#"{"a_bool":true}"#));
    assert_eq!(tuples.len(), 1);
    assert_eq!(tuples[0].property_value, "true");
}

#[test]
fn number_value_coerces_to_string() {
    let tuples = fan_out(&event(r#"{"a_number":42}"#));
    assert_eq!(tuples.len(), 1);
    assert_eq!(tuples[0].property_value, "42");
}

#[test]
fn unparseable_blob_emits_nothing() {
    let tuples = fan_out(&event(r#"not valid json"#));
    assert!(tuples.is_empty());
}

#[test]
fn empty_object_emits_nothing() {
    let tuples = fan_out(&event("{}"));
    assert!(tuples.is_empty());
}

fn group_identify(group_type_index: u8, properties: &str) -> GroupIdentify {
    GroupIdentify {
        team_id: 2,
        group_type_index,
        group_properties: Some(properties.to_string()),
    }
}

#[test]
fn group_identify_index_0_emits_group_0_type() {
    let tuples = fan_out_group(&group_identify(0, r#"{"plan":"enterprise"}"#));
    assert_eq!(tuples.len(), 1);
    assert_eq!(tuples[0].property_type, PropertyType::Group0);
    assert_eq!(tuples[0].property_key, "plan");
    assert_eq!(tuples[0].property_value, "enterprise");
}

#[test]
fn group_identify_index_4_emits_group_4_type() {
    let tuples = fan_out_group(&group_identify(4, r#"{"region":"us-east"}"#));
    assert_eq!(tuples.len(), 1);
    assert_eq!(tuples[0].property_type, PropertyType::Group4);
}

#[test]
fn group_identify_index_out_of_range_drops() {
    let tuples = fan_out_group(&group_identify(5, r#"{"plan":"enterprise"}"#));
    assert!(tuples.is_empty());
}

#[test]
fn group_identify_missing_properties_drops() {
    let g = GroupIdentify {
        team_id: 2,
        group_type_index: 0,
        group_properties: None,
    };
    assert!(fan_out_group(&g).is_empty());
}

#[test]
fn group_identify_applies_codepoint_caps() {
    // Same caps as fan_out: 401-codepoint key dropped, 256-codepoint
    // value dropped.
    let big_key = "k".repeat(401);
    let big_value = "v".repeat(256);
    let json = format!(
        "{{\"{}\":\"ok\",\"k\":\"{}\",\"ok\":\"yes\"}}",
        big_key, big_value
    );
    let tuples = fan_out_group(&group_identify(0, &json));
    // Only the "ok":"yes" pair survives.
    assert_eq!(tuples.len(), 1);
    assert_eq!(tuples[0].property_key, "ok");
    assert_eq!(tuples[0].property_value, "yes");
}

#[test]
fn group_identify_unparseable_drops() {
    let tuples = fan_out_group(&group_identify(0, "not valid json"));
    assert!(tuples.is_empty());
}

#[test]
fn all_blobs_are_emitted_in_order_with_their_types() {
    let blob = |key: &str| Some(format!(r#"{{"{}":"v"}}"#, key));
    let ev = Event {
        team_id: -7,
        properties: blob("e"),
        person_properties: blob("p"),
        group0_properties: blob("g0"),
        group1_properties: blob("g1"),
        group2_properties: blob("g2"),
        group3_properties: blob("g3"),
        group4_properties: blob("g4"),
    };
    let tuples = fan_out(&ev);
    let seen: Vec<(PropertyType, &str)> =
        tuples.iter().map(|t| (t.property_type, t.property_key.as_str())).collect();
    assert_eq!(
        seen,
        vec![
            (PropertyType::Event, "e"),
            (PropertyType::Person, "p"),
            (PropertyType::Group0, "g0"),
            (PropertyType::Group1, "g1"),
            (PropertyType::Group2, "g2"),
            (PropertyType::Group3, "g3"),
            (PropertyType::Group4, "g4"),
        ]
    );
    assert!(tuples.iter().all(|t| t.team_id == -7 && t.property_value == "v"));
}

#[test]
fn nested_values_coerce_to_compact_json() {
    let tuples = fan_out(&event(r#"{ "list": [1, "two", null], "obj": { "x": 1.5 } }"#));
    let mut seen: Vec<(&str, &str)> =
        tuples.iter().map(|t| (t.property_key.as_str(), t.property_value.as_str())).collect();
    seen.sort();
    assert_eq!(seen, vec![("list", r#"[1,"two",null]"#), ("obj", r#"{"x":1.5}"#)]);
}

#[test]
fn escapes_in_strings_are_resolved() {
    let tuples = fan_out(&event(r#"{"k":"a\"b\u00e9"}"#));
    assert_eq!(tuples.len(), 1);
    assert_eq!(tuples[0].property_value, "a\"b\u{e9}");
}

#[test]
fn json_that_is_no_object_emits_nothing() {
    for raw in ["[1,2]", "\"text\"", "null", "12", ""] {
        assert!(fan_out(&event(raw)).is_empty());
    }
}

#[test]
fn empty_key_is_dropped() {
    assert!(fan_out(&event(r#"{"":"v"}"#)).is_empty());
}

#[test]
fn repeated_key_emits_its_last_value_once() {
    let tuples = fan_out(&event(r#"{"k":"first","k":"second"}"#));
    assert_eq!(tuples.len(), 1);
    assert_eq!(tuples[0].property_value, "second");
}

#[test]
fn emitting_appends_to_what_is_there() {
    let mut out: Vec<TupleKey> = Vec::new();
    emit_from_blob(1, PropertyType::Event, r#"{"a":"1"}"#, &mut out);
    emit_from_blob(1, PropertyType::Person, "broken", &mut out);
    emit_from_blob(1, PropertyType::Person, r#"{"a":"2"}"#, &mut out);
    assert_eq!(out.len(), 2);
    assert_eq!(out[0].property_value, "1");
    assert_eq!(out[1].property_type, PropertyType::Person);
    assert_eq!(out[1].property_value, "2");
}

#[test]
fn parsed_entries_are_filtered_in_order() {
    let blob = ParsedBlob::Object(vec![
        ("z".to_string(), JsonValue::Text("last letter".to_string())),
        ("n".to_string(), JsonValue::Null),
        ("".to_string(), JsonValue::Text("no key".to_string())),
        ("e".to_string(), JsonValue::Text(String::new())),
        ("a".to_string(), JsonValue::Bool("false".to_string())),
        ("k".repeat(401), JsonValue::Number("1".to_string())),
        ("big".to_string(), JsonValue::Number("1".repeat(256))),
    ]);
    let mut out: Vec<TupleKey> = Vec::new();
    emit_from_parsed(9, PropertyType::Group1, &blob, &mut out);
    let seen: Vec<(&str, &str)> =
        out.iter().map(|t| (t.property_key.as_str(), t.property_value.as_str())).collect();
    assert_eq!(seen, vec![("z", "last letter"), ("a", "false")]);
}

#[test]
fn unusable_parsed_blobs_emit_nothing() {
    let mut out: Vec<TupleKey> = Vec::new();
    emit_from_parsed(9, PropertyType::Event, &ParsedBlob::Malformed, &mut out);
    emit_from_parsed(9, PropertyType::Event, &ParsedBlob::NotObject, &mut out);
    assert!(out.is_empty());
}

#[test]
fn coercion_of_each_kind_of_value() {
    assert_eq!(coerce_to_string(&JsonValue::Null), "");
    assert_eq!(coerce_to_string(&JsonValue::Text("t".to_string())), "t");
    assert_eq!(coerce_to_string(&JsonValue::Bool("true".to_string())), "true");
    assert_eq!(coerce_to_string(&JsonValue::Number("12.5".to_string())), "12.5");
    assert_eq!(coerce_to_string(&JsonValue::Array("[]".to_string())), "[]");
    assert_eq!(coerce_to_string(&JsonValue::Object("{}".to_string())), "{}");
}

#[test]
fn only_null_and_the_empty_string_vanish() {
    let tuples = fan_out(&event(
        r#"{"none":null,"blank":"","no":false,"zero":0,"list":[],"obj":{},"space":" "}"#,
    ));
    let mut seen: Vec<(&str, &str)> =
        tuples.iter().map(|t| (t.property_key.as_str(), t.property_value.as_str())).collect();
    seen.sort();
    assert_eq!(
        seen,
        vec![("list", "[]"), ("no", "false"), ("obj", "{}"), ("space", " "), ("zero", "0")]
    );
}

#[test]
fn group_identify_fans_out_like_an_event_with_that_blob() {
    let raw = r#"{"plan":"enterprise","seats":12,"none":null}"#;
    let ev = Event {
        team_id: 2,
        properties: None,
        person_properties: None,
        group0_properties: None,
        group1_properties: None,
        group2_properties: None,
        group3_properties: Some(raw.to_string()),
        group4_properties: None,
    };
    let from_event = fan_out(&ev);
    let from_group = fan_out_group(&group_identify(3, raw));
    assert_eq!(from_event.len(), 2);
    assert_eq!(from_event, from_group);
}
